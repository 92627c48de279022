//! The decisions around the `gallery-dl` download tool: whether it is there,
//! whether to offer installing it with Homebrew, whether the user agreed,
//! and how the installation ended. The program runs the processes and the
//! prompt and hands each outcome to these functions.
use crate::decode::ascii_lower;
use crate::text::{chars_of, extend_str, string_of};
use vstd::prelude::*;

verus! {

/// How running a program ended.
#[derive(Debug)]
pub enum RunOutcome {
    /// It ran and exited successfully.
    Succeeded,
    /// It ran and exited unsuccessfully, with its exit status as text.
    Exited(String),
    /// It could not be started because it was not found, with the system's message.
    Missing(String),
    /// It could not be started for another reason, with the system's message.
    Unstartable(String),
}

/// Why `gallery-dl` cannot be used.
#[derive(Debug)]
pub enum ToolError {
    /// It ran but failed, with its exit status.
    CannotRun(String),
    /// It could not be started, with the system's message.
    CannotStart(String),
    /// It is not installed and installing it is not offered.
    NotInstalled,
    /// The user declined the installation.
    Declined,
    /// Homebrew could not be started, with the system's message.
    BrewUnavailable(String),
    /// `brew install gallery-dl` failed, with its exit status.
    InstallFailed(String),
    /// Checking the installed tool could not start, with the system's message.
    CheckFailed(String),
    /// After the installation it still does not run.
    StillUnusable,
}

impl ToolError {
    /// The message shown to the user.
    pub fn message(&self) -> (r: String)
        ensures
            match self {
                ToolError::CannotRun(s) => r@ == "gallery-dl 无法运行（"@ + s@ + "）"@,
                ToolError::CannotStart(e) => r@ == "无法启动 gallery-dl："@ + e@,
                ToolError::NotInstalled => r@ == "未找到 gallery-dl；请先安装（macOS 可运行 brew install gallery-dl）"@,
                ToolError::Declined => r@ == "已取消安装 gallery-dl"@,
                ToolError::BrewUnavailable(e) => r@ == "无法运行 brew："@ + e@ + "；请手动安装 gallery-dl"@,
                ToolError::InstallFailed(s) => r@ == "brew install gallery-dl 失败（"@ + s@ + "）"@,
                ToolError::CheckFailed(e) => r@ == e@,
                ToolError::StillUnusable => r@ == "安装后 gallery-dl 仍无法运行"@,
            },
    {
        let mut v: Vec<char> = Vec::new();
        match self {
            ToolError::CannotRun(s) => {
                extend_str(&mut v, "gallery-dl 无法运行（");
                extend_str(&mut v, s.as_str());
                extend_str(&mut v, "）");
            },
            ToolError::CannotStart(e) => {
                extend_str(&mut v, "无法启动 gallery-dl：");
                extend_str(&mut v, e.as_str());
            },
            ToolError::NotInstalled => {
                extend_str(&mut v, "未找到 gallery-dl；请先安装（macOS 可运行 brew install gallery-dl）");
            },
            ToolError::Declined => {
                extend_str(&mut v, "已取消安装 gallery-dl");
            },
            ToolError::BrewUnavailable(e) => {
                extend_str(&mut v, "无法运行 brew：");
                extend_str(&mut v, e.as_str());
                extend_str(&mut v, "；请手动安装 gallery-dl");
            },
            ToolError::InstallFailed(s) => {
                extend_str(&mut v, "brew install gallery-dl 失败（");
                extend_str(&mut v, s.as_str());
                extend_str(&mut v, "）");
            },
            ToolError::CheckFailed(e) => {
                extend_str(&mut v, e.as_str());
            },
            ToolError::StillUnusable => {
                extend_str(&mut v, "安装后 gallery-dl 仍无法运行");
            },
        }
        string_of(v.as_slice())
    }
}

/// What the first run of `gallery-dl --version` means: `Ok(true)` when the
/// tool works, `Ok(false)` when it is not installed, an error otherwise.
pub open spec fn check_verdict(run: RunOutcome) -> Result<bool, ToolError> {
    match run {
        RunOutcome::Succeeded => Ok(true),
        RunOutcome::Exited(s) => Err(ToolError::CannotRun(s)),
        RunOutcome::Missing(_) => Ok(false),
        RunOutcome::Unstartable(e) => Err(ToolError::CannotStart(e)),
    }
}

/// What the first run of `gallery-dl --version` means (see [`check_verdict`]).
pub fn after_check(run: RunOutcome) -> (r: Result<bool, ToolError>)
    ensures
        r == check_verdict(run),
{
    match run {
        RunOutcome::Succeeded => Ok(true),
        RunOutcome::Exited(s) => Err(ToolError::CannotRun(s)),
        RunOutcome::Missing(_) => Ok(false),
        RunOutcome::Unstartable(e) => Err(ToolError::CannotStart(e)),
    }
}

/// Installing is offered only on macOS, when both standard input and
/// standard error are terminals.
pub fn offers_install(macos: bool, stdin_terminal: bool, stderr_terminal: bool) -> (r: bool)
    ensures
        r == (macos && stdin_terminal && stderr_terminal),
{
    macos && stdin_terminal && stderr_terminal
}

/// A white-space character (`char::is_whitespace`: the Unicode
/// `White_Space` property).
pub open spec fn is_white(c: char) -> bool {
    ('\u{9}' <= c <= '\u{d}') || c == ' ' || c == '\u{85}' || c == '\u{a0}' || c == '\u{1680}' || (
    '\u{2000}' <= c <= '\u{200a}') || c == '\u{2028}' || c == '\u{2029}' || c == '\u{202f}' || c
        == '\u{205f}' || c == '\u{3000}'
}

fn white(c: char) -> (r: bool)
    ensures
        r == is_white(c),
{
    ('\u{9}' <= c && c <= '\u{d}') || c == ' ' || c == '\u{85}' || c == '\u{a0}' || c == '\u{1680}'
        || ('\u{2000}' <= c && c <= '\u{200a}') || c == '\u{2028}' || c == '\u{2029}' || c
        == '\u{202f}' || c == '\u{205f}' || c == '\u{3000}'
}

/// `s` without white space at its start.
pub open spec fn trim_start_ws(s: Seq<char>) -> Seq<char>
    decreases s.len(),
{
    if s.len() > 0 && is_white(s[0]) {
        trim_start_ws(s.drop_first())
    } else {
        s
    }
}

/// `s` without white space at its end.
pub open spec fn trim_end_ws(s: Seq<char>) -> Seq<char>
    decreases s.len(),
{
    if s.len() > 0 && is_white(s.last()) {
        trim_end_ws(s.drop_last())
    } else {
        s
    }
}

/// `s` without white space at either end (`str::trim`).
pub open spec fn trim_ws(s: Seq<char>) -> Seq<char> {
    trim_end_ws(trim_start_ws(s))
}

/// The answer agrees: once trimmed and in lower case, it is `y` or `yes`.
pub open spec fn agrees(answer: Seq<char>) -> bool {
    ascii_lower(trim_ws(answer)) == seq!['y'] || ascii_lower(trim_ws(answer)) == seq!['y', 'e', 's']
}

/// Whether the answer to the installation prompt agrees (see [`agrees`]).
pub fn accepts_install(answer: &str) -> (r: bool)
    ensures
        r == agrees(answer@),
{
    let v = chars_of(answer);
    let n = v.len();
    let mut i: usize = 0;
    assert(v@.subrange(0, n as int) =~= v@);
    while i < n && white(v[i])
        invariant
            i <= n == v@.len(),
            trim_start_ws(v@) == trim_start_ws(v@.subrange(i as int, n as int)),
        decreases n - i,
    {
        assert(v@.subrange(i as int, n as int).drop_first() =~= v@.subrange(i + 1, n as int));
        i += 1;
    }
    assert(i < n ==> v@.subrange(i as int, n as int)[0] == v@[i as int]);
    let mut j: usize = n;
    while j > i && white(v[j - 1])
        invariant
            i <= j <= n == v@.len(),
            trim_ws(v@) == trim_end_ws(v@.subrange(i as int, j as int)),
        decreases j,
    {
        assert(v@.subrange(i as int, j as int).drop_last() =~= v@.subrange(i as int, j - 1));
        j -= 1;
    }
    let ghost t = v@.subrange(i as int, j as int);
    assert(j > i ==> t.last() == v@[j - 1]);
    assert(trim_ws(v@) == t);
    let ghost l = ascii_lower(t);
    if j - i == 1 {
        let r = v[i] == 'y' || v[i] == 'Y';
        assert(l.len() == 1 && l[0] == ascii_lower(t)[0]);
        assert(t[0] == v@[i as int]);
        assert(r == (l =~= seq!['y']));
        r
    } else if j - i == 3 {
        let r = (v[i] == 'y' || v[i] == 'Y') && (v[i + 1] == 'e' || v[i + 1] == 'E') && (v[i + 2]
            == 's' || v[i + 2] == 'S');
        assert(t[0] == v@[i as int] && t[1] == v@[i + 1] && t[2] == v@[i + 2]);
        assert(r == (l =~= seq!['y', 'e', 's']));
        r
    } else {
        assert(l.len() != 1 && l.len() != 3);
        assert(l != seq!['y']);
        assert(l != seq!['y', 'e', 's']);
        false
    }
}

/// What `brew install gallery-dl` ending as `run` means.
pub open spec fn install_verdict(run: RunOutcome) -> Result<(), ToolError> {
    match run {
        RunOutcome::Succeeded => Ok(()),
        RunOutcome::Exited(s) => Err(ToolError::InstallFailed(s)),
        RunOutcome::Missing(e) => Err(ToolError::BrewUnavailable(e)),
        RunOutcome::Unstartable(e) => Err(ToolError::BrewUnavailable(e)),
    }
}

/// What `brew install gallery-dl` ending as `run` means (see [`install_verdict`]).
pub fn after_install(run: RunOutcome) -> (r: Result<(), ToolError>)
    ensures
        r == install_verdict(run),
{
    match run {
        RunOutcome::Succeeded => Ok(()),
        RunOutcome::Exited(s) => Err(ToolError::InstallFailed(s)),
        RunOutcome::Missing(e) => Err(ToolError::BrewUnavailable(e)),
        RunOutcome::Unstartable(e) => Err(ToolError::BrewUnavailable(e)),
    }
}

/// What the run of `gallery-dl --version` after installing means.
pub open spec fn recheck_verdict(run: RunOutcome) -> Result<(), ToolError> {
    match run {
        RunOutcome::Succeeded => Ok(()),
        RunOutcome::Exited(_) => Err(ToolError::StillUnusable),
        RunOutcome::Missing(e) => Err(ToolError::CheckFailed(e)),
        RunOutcome::Unstartable(e) => Err(ToolError::CheckFailed(e)),
    }
}

/// What the run of `gallery-dl --version` after installing means (see [`recheck_verdict`]).
pub fn after_recheck(run: RunOutcome) -> (r: Result<(), ToolError>)
    ensures
        r == recheck_verdict(run),
{
    match run {
        RunOutcome::Succeeded => Ok(()),
        RunOutcome::Exited(_) => Err(ToolError::StillUnusable),
        RunOutcome::Missing(e) => Err(ToolError::CheckFailed(e)),
        RunOutcome::Unstartable(e) => Err(ToolError::CheckFailed(e)),
    }
}

} // verus!
