//! The lines of the read-only preview (`--dry-run`): page number, where the
//! page comes from, the cover and conversion marks, and its time.
use crate::picture::Timestamp;
use crate::plan::InputKind;
use crate::text::{decimal, extend_decimal, extend_str, string_of};
use vstd::prelude::*;

verus! {

/// `chrono::DateTime::from_timestamp(secs, nanos)` followed by
/// `to_rfc3339()`: the moment as RFC 3339 text in UTC, or none when chrono
/// cannot hold it.
pub uninterp spec fn utc_rfc3339(secs: int, nanos: int) -> Option<Seq<char>>;

/// The moment `secs`/`nanos` after the epoch as chrono's RFC 3339 text in
/// UTC (`DateTime::from_timestamp`, `to_rfc3339`); the contract names the
/// result, a function of its arguments alone.
#[verifier::external_body]
fn rfc3339_utc(secs: i64, nanos: u32) -> (r: Option<String>)
    ensures
        match r {
            Some(t) => utc_rfc3339(secs as int, nanos as int) == Some(t@),
            None => utc_rfc3339(secs as int, nanos as int) is None,
        },
{
    let moment = chrono::DateTime::from_timestamp(secs, nanos)?;
    Some(moment.to_rfc3339())
}

/// How a page is named in the preview: `archive!name` for a page from an
/// archive, its name inside the download for a link, else its path.
pub open spec fn shown_name_spec(kind: InputKind, input: Seq<char>, name: Seq<char>, path: Seq<char>) -> Seq<
    char,
> {
    match kind {
        InputKind::Archive => input + seq!['!'] + name,
        InputKind::Link => name,
        InputKind::Directory => path,
    }
}

/// How a page is named in the preview (see [`shown_name_spec`]).
pub fn shown_name(kind: InputKind, input: &str, name: &str, path: &str) -> (r: String)
    ensures
        r@ == shown_name_spec(kind, input@, name@, path@),
{
    let mut v: Vec<char> = Vec::new();
    match kind {
        InputKind::Archive => {
            extend_str(&mut v, input);
            v.push('!');
            extend_str(&mut v, name);
        },
        InputKind::Link => {
            extend_str(&mut v, name);
        },
        InputKind::Directory => {
            extend_str(&mut v, path);
        },
    }
    string_of(v.as_slice())
}

/// The time shown after a page: ` [EXIF <time>]` or ` [mtime <time>]` in
/// UTC, nothing when it has none, and none when the time cannot be written.
pub open spec fn time_note(time: Option<(Timestamp, bool)>) -> Option<Seq<char>> {
    match time {
        None => Some(Seq::empty()),
        Some((t, exif)) => match utc_rfc3339(t.secs as int, t.nanos as int) {
            Some(x) => Some(" ["@ + (if exif {
                "EXIF"@
            } else {
                "mtime"@
            }) + " "@ + x + "]"@),
            None => None,
        },
    }
}

/// The preview line of page `n`: `n: <shown>`, then ` [封面]` for the
/// first page, ` [WebP → PNG]` for a converted one, then its time.
pub open spec fn preview_line_spec(n: nat, shown: Seq<char>, convert: bool, time: Option<(Timestamp, bool)>) -> Option<
    Seq<char>,
> {
    match time_note(time) {
        None => None,
        Some(note) => Some(decimal(n) + ": "@ + shown + (if n == 1 {
            " [封面]"@
        } else {
            Seq::empty()
        }) + (if convert {
            " [WebP → PNG]"@
        } else {
            Seq::empty()
        }) + note),
    }
}

/// The preview line of page `n` (see [`preview_line_spec`]).
pub fn preview_line(n: usize, shown: &str, convert: bool, time: Option<(Timestamp, bool)>) -> (r: Option<
    String,
>)
    ensures
        match r {
            Some(l) => preview_line_spec(n as nat, shown@, convert, time) == Some(l@),
            None => preview_line_spec(n as nat, shown@, convert, time) is None,
        },
{
    let mut note: Vec<char> = Vec::new();
    match time {
        None => {},
        Some((t, exif)) => {
            let x = match rfc3339_utc(t.secs, t.nanos) {
                None => {
                    return None;
                },
                Some(x) => x,
            };
            extend_str(&mut note, " [");
            if exif {
                extend_str(&mut note, "EXIF");
            } else {
                extend_str(&mut note, "mtime");
            }
            extend_str(&mut note, " ");
            extend_str(&mut note, x.as_str());
            extend_str(&mut note, "]");
        },
    }
    let mut v: Vec<char> = Vec::new();
    extend_decimal(&mut v, n as u128);
    extend_str(&mut v, ": ");
    extend_str(&mut v, shown);
    if n == 1 {
        extend_str(&mut v, " [封面]");
    }
    if convert {
        extend_str(&mut v, " [WebP → PNG]");
    }
    crate::text::extend_chars(&mut v, note.as_slice());
    assert(v@ =~= decimal(n as nat) + ": "@ + shown@ + (if n == 1 {
        " [封面]"@
    } else {
        Seq::empty()
    }) + (if convert {
        " [WebP → PNG]"@
    } else {
        Seq::empty()
    }) + note@);
    Some(string_of(v.as_slice()))
}

} // verus!
