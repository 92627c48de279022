//! Capture times from EXIF text: `DateTimeOriginal`, with its optional
//! `OffsetTimeOriginal` and `SubSecTimeOriginal`.
use chrono::TimeZone;
use crate::picture::Timestamp;
use std::io::Cursor;
use crate::text::{chars_of, extend_range, extend_str, string_of};
use vstd::prelude::*;

verus! {

/// The EXIF date format, with optional fractional seconds.
pub open spec fn exif_format() -> Seq<char> {
    "%Y:%m:%d %H:%M:%S%.f"@
}

/// The text to parse: the date, followed by `.` and at most nine digits of
/// the sub-second field when there is one; none when that field is empty or
/// holds anything but ASCII digits.
pub open spec fn capture_text_spec(date: Seq<char>, subsecond: Option<Seq<char>>) -> Option<Seq<char>> {
    match subsecond {
        None => Some(date),
        Some(s) => if s.len() == 0 || exists|k: int| 0 <= k < s.len() && !('0' <= #[trigger] s[k] <= '9') {
            None
        } else {
            Some(date + seq!['.'] + s.take(if s.len() < 9 {
                s.len() as int
            } else {
                9
            }))
        },
    }
}

/// The text to parse for a capture time (see [`capture_text_spec`]).
pub fn capture_text(date: &str, subsecond: Option<&str>) -> (r: Option<String>)
    ensures
        match r {
            Some(t) => capture_text_spec(date@, opt_chars(subsecond)) == Some(t@),
            None => capture_text_spec(date@, opt_chars(subsecond)) is None,
        },
{
    match subsecond {
        None => Some(string_of(chars_of(date).as_slice())),
        Some(s) => {
            let v = chars_of(s);
            if v.len() == 0 {
                return None;
            }
            let mut i: usize = 0;
            while i < v.len()
                invariant
                    v@ == s@,
                    subsecond == Some(s),
                    i <= v@.len(),
                    forall|k: int| 0 <= k < i ==> '0' <= #[trigger] v@[k] <= '9',
                decreases v@.len() - i,
            {
                if !('0' <= v[i] && v[i] <= '9') {
                    assert(!('0' <= s@[i as int] <= '9'));
                    assert(exists|k: int| 0 <= k < s@.len() && !('0' <= #[trigger] s@[k] <= '9'));
                    assert(opt_chars(subsecond) == Some(s@));
                    assert(capture_text_spec(date@, opt_chars(subsecond)) is None);
                    return None;
                }
                i += 1;
            }
            let n = if v.len() < 9 {
                v.len()
            } else {
                9
            };
            let mut t = chars_of(date);
            t.push('.');
            extend_range(&mut t, v.as_slice(), 0, n);
            assert(v@.subrange(0, n as int) =~= v@.take(n as int));
            assert(t@ =~= date@ + seq!['.'] + v@.take(n as int));
            Some(string_of(t.as_slice()))
        },
    }
}

/// The view of an optional text.
pub open spec fn opt_chars(o: Option<&str>) -> Option<Seq<char>> {
    match o {
        Some(s) => Some(s@),
        None => None,
    }
}

/// The moment `secs` seconds and `nanos` nanoseconds after the epoch, with
/// whole seconds carried out of `nanos` (a leap second has `nanos` of a
/// second or more).
pub open spec fn moment_spec(secs: int, nanos: int) -> (int, int) {
    (secs + nanos / 1_000_000_000, nanos % 1_000_000_000)
}

/// The moment `secs` seconds and `nanos` (below two seconds) nanoseconds
/// after the epoch, as a [`Timestamp`]; none when it does not fit.
pub fn moment(secs: i64, nanos: u32) -> (r: Option<Timestamp>)
    requires
        nanos < 2_000_000_000,
    ensures
        match r {
            Some(t) => (t.secs as int, t.nanos as int) == moment_spec(secs as int, nanos as int),
            None => moment_spec(secs as int, nanos as int).0 > i64::MAX,
        },
{
    if nanos >= 1_000_000_000 {
        if secs == i64::MAX {
            return None;
        }
        Some(Timestamp { secs: secs + 1, nanos: nanos - 1_000_000_000 })
    } else {
        Some(Timestamp { secs, nanos })
    }
}

/// `chrono::NaiveDateTime::parse_from_str(text, format)`, read as seconds
/// and nanoseconds since the epoch as if the time were UTC.
pub uninterp spec fn naive_datetime(text: Seq<char>, format: Seq<char>) -> Option<(int, int)>;

/// `chrono::FixedOffset::from_str(text)`: the offset east of UTC in seconds.
pub uninterp spec fn fixed_offset(text: Seq<char>) -> Option<int>;

/// `FixedOffset::east_opt(offset)?.from_local_datetime(local).single()`
/// for the local time `secs`/`nanos` (as if UTC), as seconds and nanoseconds
/// since the epoch.
pub uninterp spec fn fixed_local_to_utc(secs: int, nanos: int, offset: int) -> Option<(int, int)>;

/// Parses `text` with `format` (`NaiveDateTime::parse_from_str`) and gives
/// the result as seconds and nanoseconds since the epoch, reading the time
/// as UTC (`and_utc().timestamp()`, `timestamp_subsec_nanos()`). The result
/// depends on `text` and `format` alone; chrono keeps nanoseconds below two
/// seconds (a leap second is shown by a second or more of nanoseconds).
#[verifier::external_body]
fn parse_naive(text: &str, format: &str) -> (r: Option<(i64, u32)>)
    ensures
        match r {
            Some((s, n)) => naive_datetime(text@, format@) == Some((s as int, n as int)) && n < 2_000_000_000,
            None => naive_datetime(text@, format@) is None,
        },
{
    let d = chrono::NaiveDateTime::parse_from_str(text, format).ok()?;
    let u = d.and_utc();
    Some((u.timestamp(), u.timestamp_subsec_nanos()))
}

/// Parses a UTC offset such as `+08:00` (`FixedOffset::from_str`) and gives
/// it in seconds east of UTC (`local_minus_utc`). The result depends on
/// `text` alone.
#[verifier::external_body]
fn parse_offset(text: &str) -> (r: Option<i32>)
    ensures
        match r {
            Some(o) => fixed_offset(text@) == Some(o as int),
            None => fixed_offset(text@) is None,
        },
{
    let o: chrono::FixedOffset = text.parse().ok()?;
    Some(o.local_minus_utc())
}

/// The moment at which the local time `secs`/`nanos` (read as if UTC) is
/// reached at `offset` seconds east of UTC
/// (`FixedOffset::from_local_datetime(..).single()`), as seconds and
/// nanoseconds since the epoch: `offset` seconds earlier, same nanoseconds.
/// The contract does not say for which inputs chrono returns none (moments
/// outside its range of dates, or offsets of a day or more).
#[verifier::external_body]
fn fixed_to_utc(secs: i64, nanos: u32, offset: i32) -> (r: Option<(i64, u32)>)
    ensures
        match r {
            Some((s, n)) => fixed_local_to_utc(secs as int, nanos as int, offset as int) == Some(
                (s as int, n as int),
            ) && s == secs - offset && n == nanos,
            None => fixed_local_to_utc(secs as int, nanos as int, offset as int) is None,
        },
{
    let local = chrono::DateTime::from_timestamp(secs, nanos)?.naive_utc();
    let zone = chrono::FixedOffset::east_opt(offset)?;
    let t = zone.from_local_datetime(&local).single()?;
    Some((t.timestamp(), t.timestamp_subsec_nanos()))
}

/// The moment at which the local time `secs`/`nanos` (read as if UTC) is
/// reached in the machine's time zone (`chrono::Local`), as seconds and
/// nanoseconds since the epoch; none when that local time is skipped or
/// repeated by a clock change. The answer depends on the machine's time
/// zone, so the contract states only what holds in every zone: the
/// nanoseconds are kept, and the moment is less than a day away from
/// `secs` (chrono's offsets are strictly within a day). Which moment, and
/// when none comes back, is left unsaid.
#[verifier::external_body]
pub(crate) fn local_to_utc(secs: i64, nanos: u32) -> (r: Option<(i64, u32)>)
    ensures
        r matches Some((u, n)) ==> n == nanos && secs - 86_400 < u < secs + 86_400,
{
    let local = chrono::DateTime::from_timestamp(secs, nanos)?.naive_utc();
    let t = chrono::Local.from_local_datetime(&local).single()?;
    Some((t.timestamp(), t.timestamp_subsec_nanos()))
}

/// `y` is a leap year of the Gregorian calendar.
pub open spec fn leap_year(y: int) -> bool {
    y % 4 == 0 && (y % 100 != 0 || y % 400 == 0)
}

/// The number of days in month `m` of year `y`.
pub open spec fn month_days(y: int, m: int) -> int {
    if m == 2 {
        if leap_year(y) {
            29
        } else {
            28
        }
    } else if m == 4 || m == 6 || m == 9 || m == 11 {
        30
    } else {
        31
    }
}

/// A calendar date and a time of day that exist: month 1 to 12, a day of
/// that month, hours below 24, minutes and seconds below 60.
pub open spec fn valid_datetime(y: int, mo: int, d: int, h: int, mi: int, s: int) -> bool {
    1 <= mo <= 12 && 1 <= d <= month_days(y, mo) && 0 <= h < 24 && 0 <= mi < 60 && 0 <= s < 60
}

/// Days from 1970-01-01 to the Gregorian date `y`-`m`-`d` (counted from
/// March, so that the leap day ends the year).
pub open spec fn civil_days(y: int, m: int, d: int) -> int {
    let yy = if m <= 2 {
        y - 1
    } else {
        y
    };
    let era = yy / 400;
    let yoe = yy - era * 400;
    let doy = (153 * (if m > 2 {
        m - 3
    } else {
        m + 9
    }) + 2) / 5 + d - 1;
    let doe = yoe * 365 + yoe / 4 - yoe / 100 + doy;
    era * 146097 + doe - 719468
}

/// Seconds from the epoch to the given date and time, read as UTC.
pub open spec fn civil_seconds(y: int, mo: int, d: int, h: int, mi: int, s: int) -> int {
    civil_days(y, mo, d) * 86_400 + h * 3600 + mi * 60 + s
}

/// `NaiveDate::from_ymd_opt(year, month, day)` followed by
/// `and_hms_opt(hour, minute, second)`, as seconds since the epoch read as
/// UTC (`and_utc().timestamp()`). The contract claims chrono's proleptic
/// Gregorian calendar: none exactly for a date or time that does not
/// exist (a year that fits in `u16` is within chrono's range).
#[verifier::external_body]
pub(crate) fn calendar_time(year: u16, month: u8, day: u8, hour: u8, minute: u8, second: u8) -> (r:
    Option<i64>)
    ensures
        match r {
            Some(t) => valid_datetime(year as int, month as int, day as int, hour as int, minute as int, second as int)
                && t == civil_seconds(year as int, month as int, day as int, hour as int, minute as int, second as int),
            None => !valid_datetime(year as int, month as int, day as int, hour as int, minute as int, second as int),
        },
{
    let date = chrono::NaiveDate::from_ymd_opt(i32::from(year), u32::from(month), u32::from(day))?;
    let time = date.and_hms_opt(u32::from(hour), u32::from(minute), u32::from(second))?;
    Some(time.and_utc().timestamp())
}

/// The capture time when an offset is given, or none.
pub open spec fn capture_with_offset(
    date: Seq<char>,
    offset: Seq<char>,
    subsecond: Option<Seq<char>>,
) -> Option<(int, int)> {
    match capture_text_spec(date, subsecond) {
        None => None,
        Some(t) => match naive_datetime(t, exif_format()) {
            None => None,
            Some((s, n)) => match fixed_offset(offset) {
                None => None,
                Some(o) => match fixed_local_to_utc(s, n, o) {
                    None => None,
                    Some((u, m)) => Some(moment_spec(u, m)),
                },
            },
        },
    }
}

/// `ts` can be the capture time of the local `date` with its optional
/// sub-second digits: the date parses, and `ts` is the parsed time moved by
/// less than a day (the machine's offset from UTC), nanoseconds kept.
pub open spec fn local_capture(date: Seq<char>, subsecond: Option<Seq<char>>, ts: Timestamp) -> bool {
    &&& capture_text_spec(date, subsecond) matches Some(t)
    &&& naive_datetime(t, exif_format()) matches Some((s, n))
    &&& exists|u: int| s - 86_400 < u < s + 86_400 && moment_spec(u, n) == (ts.secs as int, ts.nanos as int)
}

/// The capture time from EXIF `date` (`YYYY:MM:DD HH:MM:SS`), its optional
/// UTC `offset` (`+08:00`) and optional sub-second digits. Without an
/// offset the date is local to this machine; a time skipped or repeated by
/// a clock change, or any unreadable field, gives none.
pub fn capture_time(date: &str, offset: Option<&str>, subsecond: Option<&str>) -> (r: Option<Timestamp>)
    ensures
        capture_text_spec(date@, opt_chars(subsecond)) is None ==> r is None,
        capture_text_spec(date@, opt_chars(subsecond)) matches Some(t) && naive_datetime(t, exif_format())
            is None ==> r is None,
        offset matches Some(o) ==> match r {
            Some(ts) => capture_with_offset(date@, o@, opt_chars(subsecond)) == Some(
                (ts.secs as int, ts.nanos as int),
            ),
            None => capture_with_offset(date@, o@, opt_chars(subsecond)) matches Some((s, _n)) ==> s
                > i64::MAX,
        },
        offset is None ==> (r matches Some(ts) ==> local_capture(date@, opt_chars(subsecond), ts)),
        r matches Some(ts) ==> ts.nanos < 1_000_000_000,
{
    let text = match capture_text(date, subsecond) {
        None => {
            return None;
        },
        Some(t) => t,
    };
    let mut fmt: Vec<char> = Vec::new();
    extend_str(&mut fmt, "%Y:%m:%d %H:%M:%S%.f");
    let fmt = string_of(fmt.as_slice());
    let (secs, nanos) = match parse_naive(text.as_str(), fmt.as_str()) {
        None => {
            return None;
        },
        Some(p) => p,
    };
    let (u, m) = match offset {
        Some(o) => {
            let off = match parse_offset(o) {
                None => {
                    return None;
                },
                Some(off) => off,
            };
            match fixed_to_utc(secs, nanos, off) {
                None => {
                    return None;
                },
                Some(p) => p,
            }
        },
        None => match local_to_utc(secs, nanos) {
            None => {
                return None;
            },
            Some(p) => p,
        },
    };
    moment(u, m)
}

/// An EXIF field that capture times are read from.
#[derive(Debug, PartialEq, Eq, Structural, Clone, Copy)]
pub enum ExifTag {
    /// When the photo was taken, `YYYY:MM:DD HH:MM:SS`.
    DateTimeOriginal,
    /// Its offset from UTC, such as `+08:00`.
    OffsetTimeOriginal,
    /// Fractional seconds, as digits.
    SubSecTimeOriginal,
}

/// The text of `tag` in the primary image of the EXIF data that
/// `exif::Reader::read_from_container` finds in `bytes`: the first of its
/// ASCII values, when that is UTF-8.
pub uninterp spec fn exif_field(bytes: Seq<u8>, tag: ExifTag) -> Option<Seq<char>>;

/// Reads the EXIF data of an image file's contents with kamadak-exif and
/// gives the first ASCII value of `tag` in the primary image as text; none
/// when there is no readable EXIF data, no such field, or it is not UTF-8.
/// The contract names the result, a function of the bytes and the tag.
#[verifier::external_body]
fn exif_text(bytes: &[u8], tag: ExifTag) -> (r: Option<String>)
    ensures
        match r {
            Some(t) => exif_field(bytes@, tag) == Some(t@),
            None => exif_field(bytes@, tag) is None,
        },
{
    let exif = exif::Reader::new().read_from_container(&mut Cursor::new(bytes)).ok()?;
    let tag = match tag {
        ExifTag::DateTimeOriginal => exif::Tag::DateTimeOriginal,
        ExifTag::OffsetTimeOriginal => exif::Tag::OffsetTimeOriginal,
        ExifTag::SubSecTimeOriginal => exif::Tag::SubSecTimeOriginal,
    };
    match &exif.get_field(tag, exif::In::PRIMARY)?.value {
        exif::Value::Ascii(values) => String::from_utf8(values.first()?.clone()).ok(),
        _ => None,
    }
}

/// The time of a picture given the capture time read from its EXIF data
/// (none when there is none or it cannot be read) and its modification time:
/// a capture time always wins and counts as EXIF; only without one does the
/// modification time stand, not counted as EXIF.
pub fn exif_or_modified(capture: Option<Timestamp>, modified: Timestamp) -> (r: (Timestamp, bool))
    ensures
        capture matches Some(t) ==> r == (t, true),
        capture is None ==> r == (modified, false),
        r.1 <==> capture is Some,
{
    match capture {
        Some(t) => (t, true),
        None => (modified, false),
    }
}

/// The time an image with contents `bytes` was taken, and whether it came
/// from EXIF: `DateTimeOriginal` with `OffsetTimeOriginal` and
/// `SubSecTimeOriginal` when they give a capture time (see
/// [`capture_time`]), else the file's modification time `modified`.
pub fn picture_time(bytes: &[u8], modified: Timestamp) -> (r: (Timestamp, bool))
    ensures
        !r.1 ==> r.0 == modified,
        exif_field(bytes@, ExifTag::DateTimeOriginal) is None ==> r == (modified, false),
        exif_field(bytes@, ExifTag::DateTimeOriginal) matches Some(d) ==> match exif_field(
            bytes@,
            ExifTag::OffsetTimeOriginal,
        ) {
            Some(o) => match capture_with_offset(d, o, exif_field(bytes@, ExifTag::SubSecTimeOriginal)) {
                Some((u, n)) => if u <= i64::MAX {
                    r.1 && (r.0.secs as int, r.0.nanos as int) == (u, n)
                } else {
                    r == (modified, false)
                },
                None => r == (modified, false),
            },
            None => r.1 ==> local_capture(d, exif_field(bytes@, ExifTag::SubSecTimeOriginal), r.0),
        },
{
    let date = match exif_text(bytes, ExifTag::DateTimeOriginal) {
        None => {
            return (modified, false);
        },
        Some(d) => d,
    };
    let offset = exif_text(bytes, ExifTag::OffsetTimeOriginal);
    let subsecond = exif_text(bytes, ExifTag::SubSecTimeOriginal);
    let o: Option<&str> = match &offset {
        Some(t) => Some(t.as_str()),
        None => None,
    };
    let s: Option<&str> = match &subsecond {
        Some(t) => Some(t.as_str()),
        None => None,
    };
    exif_or_modified(capture_time(date.as_str(), o, s), modified)
}

} // verus!
