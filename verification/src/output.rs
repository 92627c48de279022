//! Where the finished book is written: `--output`, `--desktop` and the
//! configured defaults.
use crate::config::{Config, ConfigView};
use crate::config::config_after_set;
use crate::paths::{
    epub_suffix, file_name, file_name_bounds, has_extension, join, join_path, lemma_join_bare_name,
    lemma_name_end_bounds, lemma_name_start_bounds, lemma_with_epub_has_extension, name_end,
    name_start, parent_name, push_epub, set_epub_extension, strip_tilde, tilde_suffix,
    with_epub_extension,
};
use crate::text::chars_of;
use vstd::prelude::*;

verus! {

/// Why no output path could be chosen.
#[derive(Debug, PartialEq, Eq, Structural, Clone, Copy)]
pub enum OutputError {
    /// The output has no file name (empty, `.`, `..`, a bare root, ...).
    NotAFile,
    /// With the desktop, `--output` must be a bare file name.
    NameOnlyOnDesktop,
    /// The desktop is needed but the system has none.
    NoDesktop,
    /// `output_dir` starts with `~` but the home directory is unknown.
    NoHome,
}

impl OutputError {
    /// The message shown to the user.
    pub fn message(&self) -> (r: String)
        ensures
            match self {
                OutputError::NotAFile => r@ == "输出必须是文件名或文件路径"@,
                OutputError::NameOnlyOnDesktop => r@ == "--desktop 与 --output 同用时，--output 只能是文件名，不能包含目录"@,
                OutputError::NoDesktop => r@ == "无法定位系统桌面目录，请使用 --output 指定路径"@,
                OutputError::NoHome => r@ == "无法定位用户主目录"@,
            },
    {
        match self {
            OutputError::NotAFile => "输出必须是文件名或文件路径".to_owned(),
            OutputError::NameOnlyOnDesktop => "--desktop 与 --output 同用时，--output 只能是文件名，不能包含目录".to_owned(),
            OutputError::NoDesktop => "无法定位系统桌面目录，请使用 --output 指定路径".to_owned(),
            OutputError::NoHome => "无法定位用户主目录".to_owned(),
        }
    }
}

/// `title.epub`.
pub open spec fn default_name(title: Seq<char>) -> Seq<char> {
    title + epub_suffix()
}

/// The output path for `title`: `output` if given, else `title.epub`; placed
/// on `desktop` if given (then it must be a bare file name); with `.epub`
/// added when it has no extension.
pub open spec fn output_path_spec(
    title: Seq<char>,
    output: Option<Seq<char>>,
    desktop: Option<Seq<char>>,
) -> Result<Seq<char>, OutputError> {
    let out = match output {
        Some(o) => o,
        None => default_name(title),
    };
    match file_name(out) {
        None => Err(OutputError::NotAFile),
        Some(name) => match desktop {
            Some(d) => if out != name {
                Err(OutputError::NameOnlyOnDesktop)
            } else {
                Ok(with_epub_extension(join(d, out)))
            },
            None => Ok(with_epub_extension(out)),
        },
    }
}

/// Whether the desktop is the destination: `--desktop`, or, without
/// `--output` and without a configured directory, the `desktop` setting
/// (on unless set to `false`).
pub open spec fn uses_desktop(args_desktop: bool, args_output: Option<Seq<char>>, c: ConfigView) -> bool {
    args_desktop || (args_output is None && c.output_dir is None && match c.desktop {
        Some(d) => d,
        None => true,
    })
}

/// The book path under the configured directory, if that applies.
pub open spec fn configured_path(
    title: Seq<char>,
    args_desktop: bool,
    args_output: Option<Seq<char>>,
    c: ConfigView,
    home: Option<Seq<char>>,
) -> Result<Option<Seq<char>>, OutputError> {
    if !args_desktop && args_output is None {
        match c.output_dir {
            None => Ok(None),
            Some(dir) => match tilde_suffix(dir) {
                Some(rest) => match home {
                    Some(h) => Ok(Some(join(join(h, rest), default_name(title)))),
                    None => Err(OutputError::NoHome),
                },
                None => Ok(Some(join(dir, default_name(title)))),
            },
        }
    } else {
        Ok(None)
    }
}

/// The output path from the command line, the settings, and the system's
/// desktop and home directories.
pub open spec fn configured_output_spec(
    title: Seq<char>,
    args_desktop: bool,
    args_output: Option<Seq<char>>,
    c: ConfigView,
    desktop_dir: Option<Seq<char>>,
    home: Option<Seq<char>>,
) -> Result<Seq<char>, OutputError> {
    let desk = uses_desktop(args_desktop, args_output, c);
    if desk && desktop_dir is None {
        Err(OutputError::NoDesktop)
    } else {
        match configured_path(title, args_desktop, args_output, c, home) {
            Err(e) => Err(e),
            Ok(p) => output_path_spec(
                title,
                if args_output is Some {
                    args_output
                } else {
                    p
                },
                if desk {
                    desktop_dir
                } else {
                    None
                },
            ),
        }
    }
}

/// The view of an optional text.
pub open spec fn opt_view(o: Option<&str>) -> Option<Seq<char>> {
    match o {
        Some(s) => Some(s@),
        None => None,
    }
}

/// The view of a result holding text.
pub open spec fn result_view(r: Result<String, OutputError>) -> Result<Seq<char>, OutputError> {
    match r {
        Ok(s) => Ok(s@),
        Err(e) => Err(e),
    }
}

/// The output path for `title`: `output` if given, else `title.epub`; joined
/// to `desktop` if given, where `output` must then be a bare file name;
/// `.epub` is added when the file name has no extension.
pub fn output_path(title: &str, output: Option<&str>, desktop: Option<&str>) -> (r: Result<
    String,
    OutputError,
>)
    ensures
        result_view(r) == output_path_spec(title@, opt_view(output), opt_view(desktop)),
{
    let out: Vec<char> = match output {
        Some(o) => chars_of(o),
        None => {
            let mut v = chars_of(title);
            push_epub(&mut v);
            v
        },
    };
    let bounds = file_name_bounds(out.as_slice());
    let (s, e) = match bounds {
        None => {
            return Err(OutputError::NotAFile);
        },
        Some(b) => b,
    };
    let full: Vec<char> = match desktop {
        Some(d) => {
            if !(s == 0 && e == out.len()) {
                assert(out@.subrange(s as int, e as int).len() != out@.len());
                return Err(OutputError::NameOnlyOnDesktop);
            }
            assert(out@.subrange(0, out@.len() as int) =~= out@);
            let dv = chars_of(d);
            join_path(dv.as_slice(), out.as_slice())
        },
        None => out,
    };
    let done = set_epub_extension(full);
    Ok(crate::text::string_of(done.as_slice()))
}

/// The output path from the command line (`--desktop`, `--output`), the
/// settings, and the system's desktop and home directories (each `None`
/// when the system has none). The desktop and home directories are only
/// consulted where the rules need them.
pub fn configured_output(
    title: &str,
    args_desktop: bool,
    args_output: Option<&str>,
    config: &Config,
    desktop_dir: Option<&str>,
    home_dir: Option<&str>,
) -> (r: Result<String, OutputError>)
    ensures
        result_view(r) == configured_output_spec(
            title@,
            args_desktop,
            opt_view(args_output),
            config@,
            opt_view(desktop_dir),
            opt_view(home_dir),
        ),
{
    let desk = args_desktop || (args_output.is_none() && config.output_dir.is_none() && match config.desktop {
        Some(d) => d,
        None => true,
    });
    if desk && desktop_dir.is_none() {
        return Err(OutputError::NoDesktop);
    }
    let mut configured: Option<String> = None;
    if !args_desktop && args_output.is_none() {
        match &config.output_dir {
            None => {},
            Some(dir) => {
                let dv = chars_of(dir.as_str());
                let mut name = chars_of(title);
                push_epub(&mut name);
                let base: Vec<char> = match strip_tilde(dv.as_slice()) {
                    Some(rest) => match home_dir {
                        Some(h) => {
                            let hv = chars_of(h);
                            join_path(hv.as_slice(), rest.as_slice())
                        },
                        None => {
                            return Err(OutputError::NoHome);
                        },
                    },
                    None => dv,
                };
                let p = join_path(base.as_slice(), name.as_slice());
                configured = Some(crate::text::string_of(p.as_slice()));
            },
        }
    }
    let chosen: Option<&str> = match args_output {
        Some(o) => Some(o),
        None => match &configured {
            Some(p) => Some(p.as_str()),
            None => None,
        },
    };
    output_path(
        title,
        chosen,
        if desk {
            desktop_dir
        } else {
            None
        },
    )
}

/// A name without `/` that is neither empty, `.` nor `..`.
pub open spec fn is_bare_name(n: Seq<char>) -> bool {
    &&& n.len() > 0
    &&& forall|k: int| 0 <= k < n.len() ==> #[trigger] n[k] != '/'
    &&& n != seq!['.']
    &&& n != parent_name()
}

/// A file name is always a bare name.
pub proof fn lemma_file_name_is_bare(p: Seq<char>)
    requires
        file_name(p) is Some,
    ensures
        is_bare_name(file_name(p).unwrap()),
{
    let e = name_end(p, p.len() as int);
    lemma_name_end_bounds(p, p.len() as int);
    lemma_name_start_bounds(p, e);
    let s = name_start(p, e);
    let n = p.subrange(s, e);
    assert forall|k: int| 0 <= k < n.len() implies #[trigger] n[k] != '/' by {
        assert(n[k] == p[s + k]);
    }
    if n == seq!['.'] {
        assert(n[0] == p[s]);
        assert(crate::paths::closes_dot_segment(p, e));
        assert(name_end(p, e) < e) by {
            lemma_name_end_step(p, e);
        }
        lemma_name_end_fixed(p, p.len() as int);
    }
}

proof fn lemma_name_end_step(p: Seq<char>, e: int)
    requires
        0 < e <= p.len(),
        crate::paths::closes_dot_segment(p, e),
    ensures
        name_end(p, e) < e,
{
    lemma_name_end_bounds(p, e - 1);
}

proof fn lemma_name_end_fixed(p: Seq<char>, e: int)
    requires
        0 <= e <= p.len(),
    ensures
        name_end(p, name_end(p, e)) == name_end(p, e),
    decreases e,
{
    if e > 0 && (p[e - 1] == '/' || crate::paths::closes_dot_segment(p, e)) {
        lemma_name_end_fixed(p, e - 1);
    }
}

/// Every chosen output has a file name with an extension: `.epub` is added
/// when none was given.
pub proof fn lemma_output_has_extension(
    title: Seq<char>,
    output: Option<Seq<char>>,
    desktop: Option<Seq<char>>,
)
    requires
        output_path_spec(title, output, desktop) is Ok,
    ensures
        file_name(output_path_spec(title, output, desktop)->Ok_0) matches Some(n) && has_extension(n),
{
    let out = match output {
        Some(o) => o,
        None => default_name(title),
    };
    lemma_file_name_is_bare(out);
    match desktop {
        Some(d) => {
            lemma_join_bare_name(d, out);
            lemma_with_epub_has_extension(join(d, out));
        },
        None => {
            lemma_with_epub_has_extension(out);
        },
    }
}

/// With the desktop, an output that holds a directory is refused.
pub proof fn lemma_desktop_refuses_directories(title: Seq<char>, o: Seq<char>, d: Seq<char>)
    requires
        exists|k: int| 0 <= k < o.len() && o[k] == '/',
    ensures
        output_path_spec(title, Some(o), Some(d)) is Err,
{
    if file_name(o) is Some {
        lemma_file_name_is_bare(o);
        let k = choose|k: int| 0 <= k < o.len() && o[k] == '/';
        assert(file_name(o).unwrap() != o);
    }
}

/// `title.epub` is a bare name with an extension for a bare title.
proof fn lemma_default_name_bare(title: Seq<char>)
    requires
        is_bare_name(title),
    ensures
        is_bare_name(default_name(title)),
        has_extension(default_name(title)),
        file_name(default_name(title)) == Some(default_name(title)),
{
    let n = default_name(title);
    assert forall|k: int| 0 <= k < n.len() implies #[trigger] n[k] != '/' by {
        if k >= title.len() {
            assert(n[k] == epub_suffix()[k - title.len()]);
        }
    }
    assert(n[title.len() as int] == '.');
    assert(n.len() != 1 && n.len() != 2);
    lemma_join_bare_name(Seq::<char>::empty(), n);
    assert(join(Seq::<char>::empty(), n) =~= n);
}

/// The destinations of the command line, for a book titled with a bare
/// name, when the system has a desktop `d`: with neither `--output` nor
/// `--desktop` and no configured directory (and the desktop not turned
/// off), and with `--desktop` alone, the book is `title.epub` on the
/// desktop; `--desktop --output name` puts `name` (with `.epub` added when
/// it has no extension) on the desktop; `--output path` alone is used as given
/// (with `.epub` added when it has no extension).
pub proof fn lemma_destinations(
    title: Seq<char>,
    c: ConfigView,
    d: Seq<char>,
    home: Option<Seq<char>>,
    name: Seq<char>,
    path: Seq<char>,
)
    requires
        is_bare_name(title),
    ensures
        c.output_dir is None && c.desktop != Some(false) ==> configured_output_spec(
            title,
            false,
            None,
            c,
            Some(d),
            home,
        ) == Ok::<Seq<char>, OutputError>(join(d, default_name(title))),
        configured_output_spec(title, true, None, c, Some(d), home) == Ok::<Seq<char>, OutputError>(
            join(d, default_name(title)),
        ),
        is_bare_name(name) ==> configured_output_spec(title, true, Some(name), c, Some(d), home) == Ok::<
            Seq<char>,
            OutputError,
        >(with_epub_extension(join(d, name))),
        file_name(path) is Some ==> configured_output_spec(title, false, Some(path), c, Some(d), home)
            == Ok::<Seq<char>, OutputError>(with_epub_extension(path)),
{
    lemma_default_name_bare(title);
    let n = default_name(title);
    lemma_join_bare_name(d, n);
    if is_bare_name(name) {
        lemma_join_bare_name(Seq::<char>::empty(), name);
        assert(join(Seq::<char>::empty(), name) =~= name);
    }
}

/// After `config set output_dir dir` (a directory not starting with `~`),
/// a run without `--output` or `--desktop` writes `title.epub` into `dir`.
pub proof fn lemma_output_dir_setting_used(
    c: ConfigView,
    dir: Seq<char>,
    title: Seq<char>,
    desktop_dir: Option<Seq<char>>,
    home: Option<Seq<char>>,
)
    requires
        dir.len() > 0,
        tilde_suffix(dir) is None,
    ensures
        config_after_set(c, seq!['o', 'u', 't', 'p', 'u', 't', '_', 'd', 'i', 'r'], dir) matches Ok(c2)
            && configured_output_spec(title, false, None, c2, desktop_dir, home) == output_path_spec(
            title,
            Some(join(dir, default_name(title))),
            None,
        ),
{
    assert(seq!['o', 'u', 't', 'p', 'u', 't', '_', 'd', 'i', 'r'] != seq!['b', 'o', 'o', 'k', 's']);
    assert(seq!['o', 'u', 't', 'p', 'u', 't', '_', 'd', 'i', 'r'] != seq!['d', 'e', 's', 'k', 't', 'o', 'p']);
}

/// After `config set desktop true`, a run without `--output` or `--desktop`
/// writes to the desktop again, even if a directory was configured.
pub proof fn lemma_desktop_setting_used(
    c: ConfigView,
    title: Seq<char>,
    desktop_dir: Option<Seq<char>>,
    home: Option<Seq<char>>,
)
    ensures
        config_after_set(c, seq!['d', 'e', 's', 'k', 't', 'o', 'p'], seq!['t', 'r', 'u', 'e']) matches Ok(c2)
            && configured_output_spec(title, false, None, c2, desktop_dir, home) == match desktop_dir {
            Some(d) => output_path_spec(title, None, Some(d)),
            None => Err::<Seq<char>, OutputError>(OutputError::NoDesktop),
        },
{
    assert(seq!['d', 'e', 's', 'k', 't', 'o', 'p'] != seq!['b', 'o', 'o', 'k', 's']);
}

} // verus!
