//! Which ZIP entries become pages, and the limits that guard extraction.
use crate::capture::{calendar_time, civil_seconds, local_to_utc, valid_datetime};
use crate::picture::{is_picture, is_picture_spec, Timestamp};
use vstd::prelude::*;

verus! {

/// The largest image accepted from an archive: 512 MiB.
pub const MAX_IMAGE_BYTES: u64 = 536870912;

/// The most image data accepted from one archive: 2 GiB.
pub const MAX_TOTAL_BYTES: u64 = 2147483648;

/// Why an archive entry was refused.
#[derive(Debug, PartialEq, Eq, Structural, Clone, Copy)]
pub enum ArchiveError {
    /// The entry's path would leave the extraction directory.
    UnsafePath,
    /// The entry is a symbolic link.
    Symlink,
    /// The entry is over the size limits.
    TooLarge,
    /// The images extracted so far exceed the total limit.
    TotalTooLarge,
}

impl ArchiveError {
    /// The message shown to the user about the entry `name`.
    pub fn message(&self, name: &str) -> (r: String)
        ensures
            match self {
                ArchiveError::UnsafePath => r@ == "ZIP 中存在不安全的图片路径"@,
                ArchiveError::Symlink => r@ == "ZIP 中不能包含图片符号链接"@,
                ArchiveError::TooLarge => r@ == "ZIP 图片过大："@ + name@,
                ArchiveError::TotalTooLarge => r@ == "ZIP 图片总大小超过 2 GiB"@,
            },
    {
        match self {
            ArchiveError::UnsafePath => "ZIP 中存在不安全的图片路径".to_owned(),
            ArchiveError::Symlink => "ZIP 中不能包含图片符号链接".to_owned(),
            ArchiveError::TooLarge => {
                let mut v = crate::text::chars_of("ZIP 图片过大：");
                crate::text::extend_str(&mut v, name);
                crate::text::string_of(v.as_slice())
            },
            ArchiveError::TotalTooLarge => "ZIP 图片总大小超过 2 GiB".to_owned(),
        }
    }
}

/// Unix file mode of a symbolic link.
pub open spec fn is_symlink_mode(mode: u32) -> bool {
    mode & 0o170000 == 0o120000
}

/// What to do with an archive entry: skip it (`Ok(false)`) when it is a
/// directory or not a picture; refuse it when its path is unsafe, it is a
/// symbolic link, it is over 512 MiB, or it would take the total over 2 GiB;
/// else extract it (`Ok(true)`).
pub open spec fn entry_action_spec(
    is_dir: bool,
    name: Seq<char>,
    enclosed: bool,
    unix_mode: Option<u32>,
    size: u64,
    total: u64,
) -> Result<bool, ArchiveError> {
    if is_dir || !is_picture_spec(name) {
        Ok(false)
    } else if !enclosed {
        Err(ArchiveError::UnsafePath)
    } else if unix_mode matches Some(m) && is_symlink_mode(m) {
        Err(ArchiveError::Symlink)
    } else if size > MAX_IMAGE_BYTES || total + size > MAX_TOTAL_BYTES {
        Err(ArchiveError::TooLarge)
    } else {
        Ok(true)
    }
}

/// What to do with an archive entry named `name` (see [`entry_action_spec`]);
/// `enclosed` says whether its path stays inside the extraction directory,
/// and `total` counts the bytes extracted so far.
pub fn entry_action(
    is_dir: bool,
    name: &str,
    enclosed: bool,
    unix_mode: Option<u32>,
    size: u64,
    total: u64,
) -> (r: Result<bool, ArchiveError>)
    ensures
        r == entry_action_spec(is_dir, name@, enclosed, unix_mode, size, total),
{
    if is_dir || !is_picture(name) {
        return Ok(false);
    }
    if !enclosed {
        return Err(ArchiveError::UnsafePath);
    }
    match unix_mode {
        Some(m) => {
            if m & 0o170000 == 0o120000 {
                return Err(ArchiveError::Symlink);
            }
        },
        None => {},
    }
    if size > MAX_IMAGE_BYTES || total as u128 + size as u128 > MAX_TOTAL_BYTES as u128 {
        return Err(ArchiveError::TooLarge);
    }
    Ok(true)
}

/// The running total after an entry of `copied` bytes was extracted, or an
/// error once it exceeds 2 GiB.
pub fn add_extracted(total: u64, copied: u64) -> (r: Result<u64, ArchiveError>)
    ensures
        total + copied > MAX_TOTAL_BYTES ==> r == Err::<u64, ArchiveError>(ArchiveError::TotalTooLarge),
        total + copied <= MAX_TOTAL_BYTES ==> r == Ok::<u64, ArchiveError>((total + copied) as u64),
{
    if copied > MAX_TOTAL_BYTES || total > MAX_TOTAL_BYTES - copied {
        return Err(ArchiveError::TotalTooLarge);
    }
    Ok(total + copied)
}

/// An extracted entry never takes the running total over 2 GiB: accepted
/// entries fit within it, and each step of the total stays within it.
pub proof fn lemma_extraction_bounded(
    is_dir: bool,
    name: Seq<char>,
    enclosed: bool,
    unix_mode: Option<u32>,
    size: u64,
    total: u64,
)
    requires
        entry_action_spec(is_dir, name, enclosed, unix_mode, size, total) == Ok::<bool, ArchiveError>(true),
    ensures
        size <= MAX_IMAGE_BYTES,
        total + size <= MAX_TOTAL_BYTES,
        !is_dir,
        is_picture_spec(name),
{
}

/// `ts` can be the moment an archive entry stamped with the local date and
/// time `y`-`mo`-`d` `h`:`mi`:`s` was modified: the stamp exists, and `ts`
/// is that time read as UTC, moved by less than a day (the machine's offset
/// from UTC), on a whole second.
pub open spec fn local_stamp(y: int, mo: int, d: int, h: int, mi: int, s: int, ts: Timestamp) -> bool {
    &&& valid_datetime(y, mo, d, h, mi, s)
    &&& civil_seconds(y, mo, d, h, mi, s) - 86_400 < ts.secs < civil_seconds(y, mo, d, h, mi, s) + 86_400
    &&& ts.nanos == 0
}

/// The modification time of an extracted file given the moment its entry's
/// local stamp is in the machine's time zone (none when the zone skips or
/// repeats it): that moment on a whole second whenever there is one, the
/// archive's `fallback` only when there is none.
pub fn stamp_or_fallback(local: Option<(i64, u32)>, fallback: Timestamp) -> (r: Timestamp)
    ensures
        local matches Some((u, _n)) ==> r == (Timestamp { secs: u, nanos: 0 }),
        local is None ==> r == fallback,
{
    match local {
        Some((u, _n)) => Timestamp { secs: u, nanos: 0 },
        None => fallback,
    }
}

/// The modification time given to a file extracted from an archive: its
/// entry's local date and time (year, month, day, hour, minute, second) in
/// the machine's time zone, else, when the entry has none, it does not
/// exist, or the clock skips or repeats it, the archive's own `fallback`.
pub fn entry_time(stamp: Option<(u16, u8, u8, u8, u8, u8)>, fallback: Timestamp) -> (r: Timestamp)
    ensures
        stamp is None ==> r == fallback,
        stamp matches Some((y, mo, d, h, mi, s)) ==> (r == fallback || local_stamp(
            y as int,
            mo as int,
            d as int,
            h as int,
            mi as int,
            s as int,
            r,
        )),
        stamp matches Some((y, mo, d, h, mi, s)) ==> (!valid_datetime(
            y as int,
            mo as int,
            d as int,
            h as int,
            mi as int,
            s as int,
        ) ==> r == fallback),
{
    let (y, mo, d, h, mi, s) = match stamp {
        None => {
            return fallback;
        },
        Some(p) => p,
    };
    let secs = match calendar_time(y, mo, d, h, mi, s) {
        None => {
            return fallback;
        },
        Some(t) => t,
    };
    stamp_or_fallback(local_to_utc(secs, 0), fallback)
}

} // verus!
