//! Pictures of a book: which files count as pictures, how they are
//! described, and how numbered file names are recognised.
use crate::paths::{file_name, file_name_bounds, has_extension};
use crate::text::{chars_of, extend_range, string_of};
use vstd::prelude::*;

verus! {

/// A moment as seconds and nanoseconds since the Unix epoch
/// (`nanos < 1_000_000_000`); earlier moments have smaller `(secs, nanos)`.
#[derive(Debug, PartialEq, Eq, Structural, Clone, Copy)]
pub struct Timestamp {
    pub secs: i64,
    pub nanos: u32,
}

/// `a` is no later than `b`.
pub open spec fn time_le(a: Timestamp, b: Timestamp) -> bool {
    a.secs < b.secs || (a.secs == b.secs && a.nanos <= b.nanos)
}

/// `a` is no later than `b`.
pub fn time_le_exec(a: Timestamp, b: Timestamp) -> (r: bool)
    ensures
        r == time_le(a, b),
{
    a.secs < b.secs || (a.secs == b.secs && a.nanos <= b.nanos)
}

/// How pages are ordered.
#[derive(Debug, PartialEq, Eq, Structural, Clone, Copy)]
pub enum Sort {
    /// Numbered names if they are reliable, else capture times, else names.
    Auto,
    /// Natural file-name order.
    Name,
    /// Capture time (EXIF, else modification time), oldest first.
    Time,
}

/// The image formats a page can come from.
#[derive(Debug, PartialEq, Eq, Structural, Clone, Copy)]
pub enum ImageKind {
    Jpeg,
    Png,
    WebP,
    /// Any other format the decoder recognised.
    Other,
}

/// One validated page.
pub struct Picture {
    /// Where the image is read from.
    pub path: String,
    /// Its path relative to the input directory or archive, which orders pages.
    pub name: String,
    /// Extension of the image inside the book (`jpg` or `png`).
    pub extension: String,
    /// Media type of the image inside the book.
    pub media_type: String,
    pub width: u32,
    pub height: u32,
    /// A WebP source, stored in the book as PNG.
    pub convert_png: bool,
    /// Capture time, and whether it came from EXIF (else from the modification time).
    pub timestamp: Option<(Timestamp, bool)>,
}

/// Why a decoded image cannot be a page.
#[derive(Debug, PartialEq, Eq, Structural, Clone, Copy)]
pub enum PictureError {
    /// Neither JPEG, PNG nor WebP.
    UnsupportedFormat,
}

/// Extension and media type of a page in the book: JPEG keeps its bytes,
/// PNG and WebP become PNG; other formats have none.
pub open spec fn book_format(kind: ImageKind) -> Option<(Seq<char>, Seq<char>)> {
    match kind {
        ImageKind::Jpeg => Some((seq!['j', 'p', 'g'], seq!['i', 'm', 'a', 'g', 'e', '/', 'j', 'p', 'e', 'g'])),
        ImageKind::Png | ImageKind::WebP => Some((seq!['p', 'n', 'g'], seq!['i', 'm', 'a', 'g', 'e', '/', 'p', 'n', 'g'])),
        ImageKind::Other => None,
    }
}

/// `p` is the page for the image at `path` (`name` relative to the input)
/// that decoded as `kind` with the given size.
pub open spec fn is_page(p: Picture, path: String, name: String, kind: ImageKind, width: u32, height: u32) -> bool {
    match book_format(kind) {
        None => false,
        Some((ext, media)) => {
            &&& p.path == path
            &&& p.name == name
            &&& p.extension@ == ext
            &&& p.media_type@ == media
            &&& p.width == width
            &&& p.height == height
            &&& p.convert_png == (kind == ImageKind::WebP)
            &&& p.timestamp is None
        },
    }
}

impl Picture {
    /// A page for the image at `path` (`name` relative to the input) that
    /// decoded as `kind` with the given size; refused for unsupported formats.
    pub fn new(path: String, name: String, kind: ImageKind, width: u32, height: u32) -> (r: Result<
        Picture,
        PictureError,
    >)
        ensures
            match book_format(kind) {
                None => r == Err::<Picture, PictureError>(PictureError::UnsupportedFormat),
                Some(_) => r matches Ok(p) && is_page(p, path, name, kind, width, height),
            },
    {
        let (extension, media_type): (Vec<char>, Vec<char>) = match kind {
            ImageKind::Jpeg => (vec!['j', 'p', 'g'], vec!['i', 'm', 'a', 'g', 'e', '/', 'j', 'p', 'e', 'g']),
            ImageKind::Png | ImageKind::WebP => (vec!['p', 'n', 'g'], vec!['i', 'm', 'a', 'g', 'e', '/', 'p', 'n', 'g']),
            ImageKind::Other => {
                return Err(PictureError::UnsupportedFormat);
            },
        };
        let convert_png = match kind {
            ImageKind::WebP => true,
            _ => false,
        };
        Ok(Picture {
            path,
            name,
            extension: string_of(extension.as_slice()),
            media_type: string_of(media_type.as_slice()),
            width,
            height,
            convert_png,
            timestamp: None,
        })
    }
}

/// Index of the last `.` in `n[..e]`, or -1.
pub open spec fn last_dot(n: Seq<char>, e: int) -> int
    decreases e,
{
    if e <= 0 {
        -1
    } else if n[e - 1] == '.' {
        e - 1
    } else {
        last_dot(n, e - 1)
    }
}

/// The extension of a path (`Path::extension`): what follows the last `.`
/// of its file name, unless that `.` starts the name.
pub open spec fn extension(p: Seq<char>) -> Option<Seq<char>> {
    match file_name(p) {
        Some(n) => if has_extension(n) {
            Some(n.skip(last_dot(n, n.len() as int) + 1))
        } else {
            None
        },
        None => None,
    }
}

/// The stem of a path (`Path::file_stem`): its file name without the extension.
pub open spec fn file_stem(p: Seq<char>) -> Option<Seq<char>> {
    match file_name(p) {
        Some(n) => if has_extension(n) {
            Some(n.take(last_dot(n, n.len() as int)))
        } else {
            Some(n)
        },
        None => None,
    }
}

proof fn lemma_last_dot(n: Seq<char>, e: int)
    requires
        0 <= e <= n.len(),
    ensures
        -1 <= last_dot(n, e) < e,
        last_dot(n, e) >= 0 ==> n[last_dot(n, e)] == '.',
        forall|k: int| last_dot(n, e) < k < e ==> #[trigger] n[k] != '.',
    decreases e,
{
    if e > 0 && n[e - 1] != '.' {
        lemma_last_dot(n, e - 1);
    }
}

/// Bounds of the stem and, if any, the extension of the path `p`:
/// `(name_start, dot, name_end)` where `dot == name_end` when there is no extension.
fn stem_bounds(p: &[char]) -> (r: Option<(usize, usize, usize)>)
    ensures
        r is None <==> file_name(p@) is None,
        r matches Some((s, d, e)) ==> {
            &&& s <= d <= e <= p@.len()
            &&& file_name(p@) == Some(p@.subrange(s as int, e as int))
            &&& file_stem(p@) == Some(p@.subrange(s as int, d as int))
            &&& (d < e <==> extension(p@) is Some)
            &&& d < e ==> extension(p@) == Some(p@.subrange(d + 1, e as int))
        },
{
    let (s, e) = match file_name_bounds(p) {
        None => {
            return None;
        },
        Some(b) => b,
    };
    let ghost n = p@.subrange(s as int, e as int);
    let mut k = e;
    while k > s && p[k - 1] != '.'
        invariant
            s <= k <= e <= p@.len(),
            n == p@.subrange(s as int, e as int),
            last_dot(n, n.len() as int) == last_dot(n, k - s),
        decreases k,
    {
        assert(n[k - s - 1] == p@[k - 1]);
        k -= 1;
    }
    proof {
        lemma_last_dot(n, n.len() as int);
        if k > s {
            assert(n[k - s - 1] == p@[k - 1]);
        }
    }
    let d = if k > s + 1 {
        k - 1
    } else {
        e
    };
    proof {
        let ld = last_dot(n, n.len() as int);
        if k > s + 1 {
            assert(ld == k - s - 1);
            assert(has_extension(n));
            assert(n.take(ld) =~= p@.subrange(s as int, d as int));
            assert(n.skip(ld + 1) =~= p@.subrange(d + 1, e as int));
        } else {
            assert(ld <= 0);
            if has_extension(n) {
                let w = choose|w: int| 1 <= w < n.len() && n[w] == '.';
                assert(n[w] != '.');
            }
        }
    }
    Some((s, d, e))
}

/// Bounds of the extension of the path `p` within `p`, when it has one.
pub fn extension_bounds(p: &[char]) -> (r: Option<(usize, usize)>)
    ensures
        r is None <==> extension(p@) is None,
        r matches Some((s, e)) ==> s <= e <= p@.len() && extension(p@) == Some(p@.subrange(s as int, e as int)),
{
    match stem_bounds(p) {
        None => None,
        Some((_s, d, e)) => if d < e {
            Some((d + 1, e))
        } else {
            None
        },
    }
}

/// Bounds of the file stem of the path `p` within `p`, when it has one.
pub fn stem_range(p: &[char]) -> (r: Option<(usize, usize)>)
    ensures
        r is None <==> file_stem(p@) is None,
        r matches Some((s, e)) ==> s <= e <= p@.len() && file_stem(p@) == Some(p@.subrange(s as int, e as int)),
{
    match stem_bounds(p) {
        None => None,
        Some((s, d, _e)) => Some((s, d)),
    }
}

/// `c` is an ASCII decimal digit.
pub open spec fn is_digit_char(c: char) -> bool {
    '0' <= c <= '9'
}

/// Lower-case ASCII `c` equals the lower-case letter `l`.
pub open spec fn same_letter(c: char, l: char) -> bool {
    c == l || (c as int) + 32 == l as int
}

/// `ext` spells `word` (lower-case ASCII) ignoring ASCII case.
pub open spec fn ext_is(ext: Seq<char>, word: Seq<char>) -> bool {
    ext.len() == word.len() && forall|k: int| 0 <= k < ext.len() ==> same_letter(#[trigger] ext[k], word[k])
}

/// Whether a path names a picture: its extension is `jpg`, `jpeg`, `png` or
/// `webp`, in any ASCII case.
pub open spec fn is_picture_spec(p: Seq<char>) -> bool {
    match extension(p) {
        Some(ext) => ext_is(ext, seq!['j', 'p', 'g']) || ext_is(ext, seq!['j', 'p', 'e', 'g'])
            || ext_is(ext, seq!['p', 'n', 'g']) || ext_is(ext, seq!['w', 'e', 'b', 'p']),
        None => false,
    }
}

fn range_is(p: &[char], s: usize, e: usize, word: &[char], upper: &[char]) -> (r: bool)
    requires
        s <= e <= p@.len(),
        upper@.len() == word@.len(),
        forall|k: int| 0 <= k < word@.len() ==> (#[trigger] upper@[k]) as int + 32 == word@[k] as int,
    ensures
        r == ext_is(p@.subrange(s as int, e as int), word@),
{
    let ghost ext = p@.subrange(s as int, e as int);
    if e - s != word.len() {
        return false;
    }
    let mut k: usize = 0;
    while k < word.len()
        invariant
            s <= e <= p@.len(),
            e - s == word@.len(),
            upper@.len() == word@.len(),
            forall|j: int| 0 <= j < word@.len() ==> (#[trigger] upper@[j]) as int + 32 == word@[j] as int,
            ext == p@.subrange(s as int, e as int),
            k <= word@.len(),
            forall|j: int| 0 <= j < k ==> same_letter(#[trigger] ext[j], word@[j]),
        decreases word@.len() - k,
    {
        let c = p[s + k];
        let l = word[k];
        let u = upper[k];
        assert(ext[k as int] == c);
        assert(upper@[k as int] as int + 32 == word@[k as int] as int);
        if !(c == l || c == u) {
            assert(!same_letter(ext[k as int], word@[k as int]));
            return false;
        }
        k += 1;
    }
    true
}

/// Whether the path names a picture by its extension: `jpg`, `jpeg`, `png`
/// or `webp`, in any ASCII case.
pub fn is_picture(path: &str) -> (r: bool)
    ensures
        r == is_picture_spec(path@),
{
    let p = chars_of(path);
    match stem_bounds(p.as_slice()) {
        None => false,
        Some((_s, d, e)) => {
            if d == e {
                return false;
            }
            let x = d + 1;
            range_is(p.as_slice(), x, e, &['j', 'p', 'g'], &['J', 'P', 'G'])
                || range_is(p.as_slice(), x, e, &['j', 'p', 'e', 'g'], &['J', 'P', 'E', 'G'])
                || range_is(p.as_slice(), x, e, &['p', 'n', 'g'], &['P', 'N', 'G'])
                || range_is(p.as_slice(), x, e, &['w', 'e', 'b', 'p'], &['W', 'E', 'B', 'P'])
        },
    }
}

/// The first index at or after `i` holding an ASCII digit, or the length.
pub open spec fn first_digit_from(n: Seq<char>, i: int) -> int
    decreases n.len() - i,
{
    if i < 0 || i >= n.len() {
        n.len() as int
    } else if is_digit_char(n[i]) {
        i
    } else {
        first_digit_from(n, i + 1)
    }
}

/// The end of the run of ASCII digits that starts at `i`.
pub open spec fn digits_end(n: Seq<char>, i: int) -> int
    decreases n.len() - i,
{
    if i < 0 || i >= n.len() {
        n.len() as int
    } else if is_digit_char(n[i]) {
        digits_end(n, i + 1)
    } else {
        i
    }
}

/// A name with exactly one run of ASCII digits, split into the text before
/// it, the run, and the text after it.
pub open spec fn split_number(n: Seq<char>) -> Option<(Seq<char>, Seq<char>, Seq<char>)> {
    let s = first_digit_from(n, 0);
    if s >= n.len() {
        None
    } else {
        let e = digits_end(n, s);
        if first_digit_from(n, e) < n.len() {
            None
        } else {
            Some((n.take(s), n.subrange(s, e), n.skip(e)))
        }
    }
}

/// Prefix, number and suffix of a path's file stem, when the stem holds
/// exactly one run of digits.
pub open spec fn sequence_parts_spec(p: Seq<char>) -> Option<(Seq<char>, Seq<char>, Seq<char>)> {
    match file_stem(p) {
        Some(n) => split_number(n),
        None => None,
    }
}

proof fn lemma_first_digit_from(n: Seq<char>, i: int)
    requires
        0 <= i <= n.len(),
    ensures
        i <= first_digit_from(n, i) <= n.len(),
        first_digit_from(n, i) < n.len() ==> is_digit_char(n[first_digit_from(n, i)]),
        forall|k: int| i <= k < first_digit_from(n, i) ==> !is_digit_char(#[trigger] n[k]),
    decreases n.len() - i,
{
    if i < n.len() && !is_digit_char(n[i]) {
        lemma_first_digit_from(n, i + 1);
    }
}

proof fn lemma_digits_end(n: Seq<char>, i: int)
    requires
        0 <= i <= n.len(),
    ensures
        i <= digits_end(n, i) <= n.len(),
        digits_end(n, i) < n.len() ==> !is_digit_char(n[digits_end(n, i)]),
        forall|k: int| i <= k < digits_end(n, i) ==> is_digit_char(#[trigger] n[k]),
    decreases n.len() - i,
{
    if i < n.len() && is_digit_char(n[i]) {
        lemma_digits_end(n, i + 1);
    }
}

/// No ASCII digit in `s`.
pub open spec fn no_digits(s: Seq<char>) -> bool {
    forall|k: int| 0 <= k < s.len() ==> !is_digit_char(#[trigger] s[k])
}

/// `s` is a non-empty run of ASCII digits.
pub open spec fn digits_only(s: Seq<char>) -> bool {
    s.len() > 0 && forall|k: int| 0 <= k < s.len() ==> is_digit_char(#[trigger] s[k])
}

proof fn lemma_first_digit_at(n: Seq<char>, i: int, j: int)
    requires
        0 <= i <= j <= n.len(),
        forall|k: int| i <= k < j ==> !is_digit_char(#[trigger] n[k]),
        j < n.len() ==> is_digit_char(n[j]),
    ensures
        first_digit_from(n, i) == j,
    decreases j - i,
{
    if i < j {
        lemma_first_digit_at(n, i + 1, j);
    }
}

proof fn lemma_digits_end_at(n: Seq<char>, i: int, j: int)
    requires
        0 <= i <= j <= n.len(),
        forall|k: int| i <= k < j ==> is_digit_char(#[trigger] n[k]),
        j < n.len() ==> !is_digit_char(n[j]),
    ensures
        digits_end(n, i) == j,
    decreases j - i,
{
    if i < j {
        lemma_digits_end_at(n, i + 1, j);
    }
}

/// A name splits into prefix, number and suffix exactly when it is a text
/// without digits, a non-empty run of digits, and a text without digits:
/// one numeric run, and only one.
pub proof fn lemma_split_number_exactly(n: Seq<char>, a: Seq<char>, b: Seq<char>, c: Seq<char>)
    ensures
        split_number(n) == Some((a, b, c)) <==> (n == a + b + c && no_digits(a) && digits_only(b)
            && no_digits(c)),
{
    if n == a + b + c && no_digits(a) && digits_only(b) && no_digits(c) {
        let s = a.len() as int;
        let e = s + b.len();
        assert forall|k: int| 0 <= k < s implies !is_digit_char(#[trigger] n[k]) by {
            assert(n[k] == a[k]);
        }
        assert(n[s] == b[0]);
        lemma_first_digit_at(n, 0, s);
        assert forall|k: int| s <= k < e implies is_digit_char(#[trigger] n[k]) by {
            assert(n[k] == b[k - s]);
        }
        if e < n.len() {
            assert(n[e] == c[0]);
        }
        lemma_digits_end_at(n, s, e);
        assert forall|k: int| e <= k < n.len() implies !is_digit_char(#[trigger] n[k]) by {
            assert(n[k] == c[k - e]);
        }
        lemma_first_digit_at(n, e, n.len() as int);
        assert(n.take(s) =~= a);
        assert(n.subrange(s, e) =~= b);
        assert(n.skip(e) =~= c);
    }
    if split_number(n) == Some((a, b, c)) {
        let s = first_digit_from(n, 0);
        lemma_first_digit_from(n, 0);
        let e = digits_end(n, s);
        lemma_digits_end(n, s);
        lemma_first_digit_from(n, e);
        assert(n =~= n.take(s) + n.subrange(s, e) + n.skip(e));
        assert forall|k: int| 0 <= k < a.len() implies !is_digit_char(#[trigger] a[k]) by {
            assert(a[k] == n[k]);
        }
        assert forall|k: int| 0 <= k < b.len() implies is_digit_char(#[trigger] b[k]) by {
            assert(b[k] == n[s + k]);
        }
        assert forall|k: int| 0 <= k < c.len() implies !is_digit_char(#[trigger] c[k]) by {
            assert(c[k] == n[e + k]);
        }
        assert(digits_end(n, s) > s) by {
            assert(is_digit_char(n[s]));
        }
    }
}

fn first_digit_exec(p: &[char], i: usize, end: usize) -> (r: usize)
    requires
        i <= end <= p@.len(),
    ensures
        i <= r <= end,
        r == first_digit_from(p@.subrange(0, end as int), i as int),
{
    let ghost n = p@.subrange(0, end as int);
    let mut k = i;
    while k < end && !('0' <= p[k] && p[k] <= '9')
        invariant
            i <= k <= end <= p@.len(),
            n == p@.subrange(0, end as int),
            first_digit_from(n, i as int) == first_digit_from(n, k as int),
        decreases end - k,
    {
        assert(n[k as int] == p@[k as int]);
        k += 1;
    }
    if k < end {
        assert(n[k as int] == p@[k as int]);
    }
    k
}

fn digits_end_exec(p: &[char], i: usize, end: usize) -> (r: usize)
    requires
        i <= end <= p@.len(),
    ensures
        i <= r <= end,
        r == digits_end(p@.subrange(0, end as int), i as int),
{
    let ghost n = p@.subrange(0, end as int);
    let mut k = i;
    while k < end && '0' <= p[k] && p[k] <= '9'
        invariant
            i <= k <= end <= p@.len(),
            n == p@.subrange(0, end as int),
            digits_end(n, i as int) == digits_end(n, k as int),
        decreases end - k,
    {
        assert(n[k as int] == p@[k as int]);
        k += 1;
    }
    if k < end {
        assert(n[k as int] == p@[k as int]);
    }
    k
}

/// Positions `(start, digits_start, digits_end, end)` in `p` of the single
/// digit run of the file stem of `p`.
fn sequence_bounds(p: &[char]) -> (r: Option<(usize, usize, usize, usize)>)
    ensures
        r is None <==> sequence_parts_spec(p@) is None,
        r matches Some((s, a, b, d)) ==> {
            &&& s <= a < b <= d <= p@.len()
            &&& sequence_parts_spec(p@) == Some(
                (
                    p@.subrange(s as int, a as int),
                    p@.subrange(a as int, b as int),
                    p@.subrange(b as int, d as int),
                ),
            )
        },
{
    let (s, d, _e) = match stem_bounds(p) {
        None => {
            return None;
        },
        Some(b) => b,
    };
    let ghost n = p@.subrange(s as int, d as int);
    let ghost m = p@.subrange(0, d as int);
    let a = first_digit_exec(p, s, d);
    proof {
        lemma_first_digit_from(m, s as int);
        lemma_first_digit_from(n, 0);
        assert forall|k: int| 0 <= k <= n.len() implies first_digit_from(n, k) + s == first_digit_from(
            m,
            k + s,
        ) by {
            lemma_first_digit_shift(p@, s as int, d as int, k);
        }
    }
    if a == d {
        return None;
    }
    let b = digits_end_exec(p, a, d);
    proof {
        assert forall|k: int| 0 <= k <= n.len() implies digits_end(n, k) + s == digits_end(m, k + s) by {
            lemma_digits_end_shift(p@, s as int, d as int, k);
        }
        lemma_digits_end(m, a as int);
        assert(is_digit_char(m[a as int]));
        assert(m[a as int] == p@[a as int]);
    }
    let c = first_digit_exec(p, b, d);
    if c < d {
        return None;
    }
    proof {
        let st = a - s;
        let en = b - s;
        assert(n.take(st) =~= p@.subrange(s as int, a as int));
        assert(n.subrange(st, en) =~= p@.subrange(a as int, b as int));
        assert(n.skip(en) =~= p@.subrange(b as int, d as int));
    }
    Some((s, a, b, d))
}

proof fn lemma_first_digit_shift(p: Seq<char>, s: int, d: int, k: int)
    requires
        0 <= s <= d <= p.len(),
        0 <= k <= d - s,
    ensures
        first_digit_from(p.subrange(s, d), k) + s == first_digit_from(p.subrange(0, d), k + s),
    decreases d - s - k,
{
    let n = p.subrange(s, d);
    let m = p.subrange(0, d);
    if k < d - s {
        assert(n[k] == m[k + s]);
        lemma_first_digit_shift(p, s, d, k + 1);
    }
}

proof fn lemma_digits_end_shift(p: Seq<char>, s: int, d: int, k: int)
    requires
        0 <= s <= d <= p.len(),
        0 <= k <= d - s,
    ensures
        digits_end(p.subrange(s, d), k) + s == digits_end(p.subrange(0, d), k + s),
    decreases d - s - k,
{
    let n = p.subrange(s, d);
    let m = p.subrange(0, d);
    if k < d - s {
        assert(n[k] == m[k + s]);
        lemma_digits_end_shift(p, s, d, k + 1);
    }
}

/// Prefix, number and suffix of the path's file stem, when the stem holds
/// exactly one run of ASCII digits: `页02.jpg` gives `("页", "02", "")`;
/// `ch1p1.png` and `a.png` give none.
pub fn sequence_parts(path: &str) -> (r: Option<(String, String, String)>)
    ensures
        match r {
            Some((a, b, c)) => sequence_parts_spec(path@) == Some((a@, b@, c@)),
            None => sequence_parts_spec(path@) is None,
        },
{
    let p = chars_of(path);
    match sequence_bounds(p.as_slice()) {
        None => None,
        Some((s, a, b, d)) => {
            let mut x: Vec<char> = Vec::new();
            extend_range(&mut x, p.as_slice(), s, a);
            let mut y: Vec<char> = Vec::new();
            extend_range(&mut y, p.as_slice(), a, b);
            let mut z: Vec<char> = Vec::new();
            extend_range(&mut z, p.as_slice(), b, d);
            assert(x@ =~= p@.subrange(s as int, a as int));
            assert(y@ =~= p@.subrange(a as int, b as int));
            assert(z@ =~= p@.subrange(b as int, d as int));
            Some((string_of(x.as_slice()), string_of(y.as_slice()), string_of(z.as_slice())))
        },
    }
}

/// A number without its leading zeros.
pub open spec fn trim_zeros(num: Seq<char>) -> Seq<char>
    decreases num.len(),
{
    if num.len() > 0 && num[0] == '0' {
        trim_zeros(num.drop_first())
    } else {
        num
    }
}

/// Whether the pages form one numbered sequence: every file stem holds a
/// single run of digits, all share the prefix and suffix of the first, and
/// no two numbers are equal once leading zeros are dropped.
pub open spec fn numbered(ps: Seq<Picture>) -> bool {
    &&& ps.len() > 0
    &&& forall|i: int| 0 <= i < ps.len() ==> #[trigger] sequence_parts_spec(ps[i].path@) is Some
    &&& forall|i: int|
        0 <= i < ps.len() ==> {
            let first = sequence_parts_spec(ps[0].path@).unwrap();
            let parts = #[trigger] sequence_parts_spec(ps[i].path@).unwrap();
            parts.0 == first.0 && parts.2 == first.2
        }
    &&& forall|i: int, j: int|
        0 <= i < j < ps.len() ==> trim_zeros(#[trigger] sequence_parts_spec(ps[i].path@).unwrap().1)
            != trim_zeros(#[trigger] sequence_parts_spec(ps[j].path@).unwrap().1)
}

fn trim_zeros_exec(num: &String) -> (r: Vec<char>)
    ensures
        r@ == trim_zeros(num@),
{
    let v = chars_of(num.as_str());
    let mut k: usize = 0;
    assert(v@.skip(0) =~= v@);
    while k < v.len() && v[k] == '0'
        invariant
            k <= v@.len(),
            trim_zeros(v@) == trim_zeros(v@.skip(k as int)),
        decreases v@.len() - k,
    {
        assert(v@.skip(k as int).drop_first() =~= v@.skip(k + 1));
        k += 1;
    }
    let mut out: Vec<char> = Vec::new();
    extend_range(&mut out, v.as_slice(), k, v.len());
    assert(out@ =~= v@.skip(k as int));
    out
}

/// In a numbered sequence every page's stem splits into a prefix, a number
/// and a suffix, the prefix and the suffix are those of the first page, and
/// no two pages carry the same number once leading zeros are dropped.
pub proof fn lemma_numbered_pages(ps: Seq<Picture>, i: int, j: int)
    requires
        numbered(ps),
        0 <= i < ps.len(),
        0 <= j < ps.len(),
    ensures
        sequence_parts_spec(ps[i].path@) is Some,
        sequence_parts_spec(ps[0].path@) is Some,
        sequence_parts_spec(ps[i].path@).unwrap().0 == sequence_parts_spec(ps[0].path@).unwrap().0,
        sequence_parts_spec(ps[i].path@).unwrap().2 == sequence_parts_spec(ps[0].path@).unwrap().2,
        i != j ==> trim_zeros(sequence_parts_spec(ps[i].path@).unwrap().1) != trim_zeros(
            sequence_parts_spec(ps[j].path@).unwrap().1,
        ),
{
    assert(sequence_parts_spec(ps[i].path@) is Some);
    assert(sequence_parts_spec(ps[0].path@) is Some);
    if i < j {
        assert(trim_zeros(sequence_parts_spec(ps[i].path@).unwrap().1) != trim_zeros(
            sequence_parts_spec(ps[j].path@).unwrap().1,
        ));
    } else if j < i {
        assert(trim_zeros(sequence_parts_spec(ps[j].path@).unwrap().1) != trim_zeros(
            sequence_parts_spec(ps[i].path@).unwrap().1,
        ));
    }
}

/// Whether the pages form one numbered sequence (see [`numbered`]).
pub fn numbered_sequence(pictures: &[Picture]) -> (r: bool)
    ensures
        r == numbered(pictures@),
        r ==> pictures@.len() > 0,
        r ==> forall|i: int|
            0 <= i < pictures@.len() ==> {
                &&& #[trigger] sequence_parts_spec(pictures@[i].path@) is Some
                &&& sequence_parts_spec(pictures@[0].path@) is Some
                &&& sequence_parts_spec(pictures@[i].path@).unwrap().0 == sequence_parts_spec(
                    pictures@[0].path@,
                ).unwrap().0
                &&& sequence_parts_spec(pictures@[i].path@).unwrap().2 == sequence_parts_spec(
                    pictures@[0].path@,
                ).unwrap().2
            },
        r ==> forall|i: int, j: int|
            0 <= i < j < pictures@.len() ==> trim_zeros(
                #[trigger] sequence_parts_spec(pictures@[i].path@).unwrap().1,
            ) != trim_zeros(#[trigger] sequence_parts_spec(pictures@[j].path@).unwrap().1),
{
    if pictures.len() == 0 {
        return false;
    }
    let (prefix, _n0, suffix) = match sequence_parts(pictures[0].path.as_str()) {
        None => {
            return false;
        },
        Some(parts) => parts,
    };
    let ghost ps = pictures@;
    let mut seen: Vec<Vec<char>> = Vec::new();
    let mut i: usize = 0;
    while i < pictures.len()
        invariant
            ps == pictures@,
            ps.len() > 0,
            i <= ps.len(),
            sequence_parts_spec(ps[0].path@) == Some((prefix@, sequence_parts_spec(ps[0].path@).unwrap().1, suffix@)),
            seen@.len() == i,
            forall|j: int| 0 <= j < i ==> #[trigger] sequence_parts_spec(ps[j].path@) is Some,
            forall|j: int|
                0 <= j < i ==> {
                    let parts = #[trigger] sequence_parts_spec(ps[j].path@).unwrap();
                    parts.0 == prefix@ && parts.2 == suffix@
                },
            forall|j: int| 0 <= j < i ==> (#[trigger] seen@[j])@ == trim_zeros(sequence_parts_spec(ps[j].path@).unwrap().1),
            forall|j: int, k: int| 0 <= j < k < i ==> seen@[j]@ != seen@[k]@,
        decreases ps.len() - i,
    {
        let (a, b, c) = match sequence_parts(pictures[i].path.as_str()) {
            None => {
                return false;
            },
            Some(parts) => parts,
        };
        assert(sequence_parts_spec(ps[i as int].path@) == Some((a@, b@, c@)));
        if !(a == prefix && c == suffix) {
            proof {
                let parts = sequence_parts_spec(ps[i as int].path@).unwrap();
                let first = sequence_parts_spec(ps[0].path@).unwrap();
                assert(parts.0 != first.0 || parts.2 != first.2);
            }
            return false;
        }
        let t = trim_zeros_exec(&b);
        let mut j: usize = 0;
        #[verifier::loop_isolation(false)]
        while j < seen.len()
            invariant
                j <= seen@.len(),
                forall|k: int| 0 <= k < j ==> seen@[k]@ != t@,
            decreases seen@.len() - j,
        {
            if crate::text::same_chars(seen[j].as_slice(), t.as_slice()) {
                assert(seen@[j as int]@ == trim_zeros(sequence_parts_spec(ps[j as int].path@).unwrap().1));
                assert(t@ == trim_zeros(sequence_parts_spec(ps[i as int].path@).unwrap().1));
                assert(!numbered(ps)) by {
                    if numbered(ps) {
                        assert(trim_zeros(sequence_parts_spec(ps[j as int].path@).unwrap().1) != trim_zeros(
                            sequence_parts_spec(ps[i as int].path@).unwrap().1,
                        ));
                    }
                }
                return false;
            }
            j += 1;
        }
        let ghost old_seen = seen@;
        seen.push(t);
        assert(forall|k: int| 0 <= k < i ==> seen@[k] == old_seen[k]);
        i += 1;
    }
    assert forall|j: int, k: int| 0 <= j < k < ps.len() implies trim_zeros(
        #[trigger] sequence_parts_spec(ps[j].path@).unwrap().1,
    ) != trim_zeros(#[trigger] sequence_parts_spec(ps[k].path@).unwrap().1) by {
        assert(seen@[j]@ != seen@[k]@);
    }
    true
}

} // verus!
