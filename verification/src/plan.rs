//! What the command line asks for: the kind of input, the book's title,
//! its reading direction, and whether Books opens it.
use crate::paths::file_name;
use crate::picture::{extension, file_stem};
use crate::text::{chars_of, string_of};
use crate::title::{is_kana, url_title, url_title_spec};
use vstd::prelude::*;

verus! {

/// Where the pages come from.
#[derive(Debug, PartialEq, Eq, Structural, Clone, Copy)]
pub enum InputKind {
    /// An `http://` or `https://` link, downloaded first.
    Link,
    /// A ZIP archive.
    Archive,
    /// A directory of images.
    Directory,
}

/// Why the input was refused.
#[derive(Debug, PartialEq, Eq, Structural, Clone, Copy)]
pub enum InputError {
    /// A file that is not a `.zip` archive.
    NotZip,
    /// The input holds no JPEG, PNG or WebP image.
    NoPictures,
    /// `--books` was asked for on a system other than macOS.
    BooksUnsupported,
}

impl InputError {
    /// The message shown to the user.
    pub fn message(&self) -> (r: String)
        ensures
            match self {
                InputError::NotZip => r@ == "只支持 ZIP 压缩包"@,
                InputError::NoPictures => r@ == "输入中没有 JPEG、PNG 或 WebP 图片"@,
                InputError::BooksUnsupported => r@ == "--books 仅支持 macOS"@,
            },
    {
        match self {
            InputError::NotZip => "只支持 ZIP 压缩包".to_owned(),
            InputError::NoPictures => "输入中没有 JPEG、PNG 或 WebP 图片".to_owned(),
            InputError::BooksUnsupported => "--books 仅支持 macOS".to_owned(),
        }
    }
}

/// Opening the book in Books needs macOS; elsewhere `--books` (from the
/// command line or the settings) is refused before anything is generated.
pub fn check_books(books: bool, macos: bool) -> (r: Result<(), InputError>)
    ensures
        r == (if books && !macos {
            Err(InputError::BooksUnsupported)
        } else {
            Ok::<(), InputError>(())
        }),
{
    if books && !macos {
        Err(InputError::BooksUnsupported)
    } else {
        Ok(())
    }
}

/// An input with no pictures is refused.
pub fn check_pictures(count: usize) -> (r: Result<(), InputError>)
    ensures
        r == (if count == 0 {
            Err(InputError::NoPictures)
        } else {
            Ok::<(), InputError>(())
        }),
{
    if count == 0 {
        Err(InputError::NoPictures)
    } else {
        Ok(())
    }
}

/// `s` starts with `prefix`.
pub open spec fn starts_with(s: Seq<char>, prefix: Seq<char>) -> bool {
    prefix.len() <= s.len() && s.take(prefix.len() as int) == prefix
}

/// An `http://` or `https://` link.
pub open spec fn is_link(arg: Seq<char>) -> bool {
    starts_with(arg, "http://"@) || starts_with(arg, "https://"@)
}

fn has_prefix(s: &Vec<char>, prefix: &str) -> (r: bool)
    ensures
        r == starts_with(s@, prefix@),
{
    let p = chars_of(prefix);
    if p.len() > s.len() {
        return false;
    }
    let mut i: usize = 0;
    while i < p.len()
        invariant
            p@ == prefix@,
            p@.len() <= s@.len(),
            i <= p@.len(),
            forall|k: int| 0 <= k < i ==> s@[k] == p@[k],
        decreases p@.len() - i,
    {
        if s[i] != p[i] {
            assert(s@.take(p@.len() as int)[i as int] != p@[i as int]);
            return false;
        }
        i += 1;
    }
    assert(s@.take(p@.len() as int) =~= p@);
    true
}

/// `zip` in any ASCII case.
pub open spec fn is_zip_extension(ext: Seq<char>) -> bool {
    ext.len() == 3 && (ext[0] == 'z' || ext[0] == 'Z') && (ext[1] == 'i' || ext[1] == 'I') && (ext[2]
        == 'p' || ext[2] == 'P')
}

/// The kind of input: a link when the argument starts with `http://` or
/// `https://`; otherwise an archive when it is a file, which must then have
/// the extension `zip` (any case); otherwise a directory.
pub open spec fn input_kind_spec(arg: Seq<char>, is_file: bool) -> Result<InputKind, InputError> {
    if is_link(arg) {
        Ok(InputKind::Link)
    } else if is_file {
        match extension(arg) {
            Some(e) => if is_zip_extension(e) {
                Ok(InputKind::Archive)
            } else {
                Err(InputError::NotZip)
            },
            None => Err(InputError::NotZip),
        }
    } else {
        Ok(InputKind::Directory)
    }
}

/// Whether the argument is a link.
pub fn link_argument(arg: &str) -> (r: bool)
    ensures
        r == is_link(arg@),
{
    let v = chars_of(arg);
    has_prefix(&v, "http://") || has_prefix(&v, "https://")
}

/// The kind of input named by `arg` (the resolved path for files and
/// directories); `is_file` says whether it names a file.
pub fn input_kind(arg: &str, is_file: bool) -> (r: Result<InputKind, InputError>)
    ensures
        r == input_kind_spec(arg@, is_file),
{
    if link_argument(arg) {
        return Ok(InputKind::Link);
    }
    if !is_file {
        return Ok(InputKind::Directory);
    }
    let v = chars_of(arg);
    match crate::picture::extension_bounds(v.as_slice()) {
        None => Err(InputError::NotZip),
        Some((s, e)) => {
            if e - s == 3 && (v[s] == 'z' || v[s] == 'Z') && (v[s + 1] == 'i' || v[s + 1] == 'I') && (
            v[s + 2] == 'p' || v[s + 2] == 'P') {
                assert(v@.subrange(s as int, e as int)[0] == v@[s as int]);
                Ok(InputKind::Archive)
            } else {
                proof {
                    let x = v@.subrange(s as int, e as int);
                    if x.len() == 3 {
                        assert(x[0] == v@[s as int] && x[1] == v@[s + 1] && x[2] == v@[s + 2]);
                    }
                }
                Err(InputError::NotZip)
            }
        },
    }
}

/// The title of a book: a link's [`url_title_spec`]; an archive's file stem;
/// a directory's name; `book` when there is none.
pub open spec fn book_title_spec(arg: Seq<char>, kind: InputKind) -> Seq<char> {
    match kind {
        InputKind::Link => url_title_spec(arg),
        InputKind::Archive => match file_stem(arg) {
            Some(s) => s,
            None => seq!['b', 'o', 'o', 'k'],
        },
        InputKind::Directory => match file_name(arg) {
            Some(n) => n,
            None => seq!['b', 'o', 'o', 'k'],
        },
    }
}

/// The title of the book made from `arg`.
pub fn book_title(arg: &str, kind: InputKind) -> (r: String)
    ensures
        r@ == book_title_spec(arg@, kind),
{
    match kind {
        InputKind::Link => url_title(arg),
        _ => {
            let v = chars_of(arg);
            let range = match kind {
                InputKind::Archive => match crate::picture::stem_range(v.as_slice()) {
                    Some((s, d)) => Some((s, d)),
                    None => None,
                },
                _ => crate::paths::file_name_bounds(v.as_slice()),
            };
            match range {
                Some((s, e)) => {
                    let mut out: Vec<char> = Vec::new();
                    crate::text::extend_range(&mut out, v.as_slice(), s, e);
                    string_of(out.as_slice())
                },
                None => {
                    let b = vec!['b', 'o', 'o', 'k'];
                    string_of(b.as_slice())
                },
            }
        },
    }
}

/// Right to left when asked (`--r2l`), or when not asked otherwise
/// (`--l2r`) and the title is Japanese.
pub open spec fn right_to_left_spec(r2l: bool, l2r: bool, title: Seq<char>) -> bool {
    r2l || (!l2r && exists|k: int| 0 <= k < title.len() && is_kana(#[trigger] title[k]))
}

/// Whether the book reads right to left.
pub fn right_to_left(r2l: bool, l2r: bool, title: &str) -> (r: bool)
    ensures
        r == right_to_left_spec(r2l, l2r, title@),
{
    r2l || (!l2r && crate::title::japanese_title(title))
}

/// Whether Books opens the finished book: asked on the command line or in
/// the settings, and not refused with `--no-books`.
pub fn open_in_books(books: bool, no_books: bool, config_books: bool) -> (r: bool)
    ensures
        r == ((books || config_books) && !no_books),
{
    (books || config_books) && !no_books
}

} // verus!
