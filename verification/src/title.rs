//! Book titles: the title of a downloaded link, and whether a title is Japanese.
use crate::paths::file_name;
use crate::text::{chars_of, string_of};
use vstd::prelude::*;

verus! {

/// Hiragana, katakana, or half-width katakana.
pub open spec fn is_kana(c: char) -> bool {
    ('\u{3040}' <= c && c <= '\u{30ff}') || ('\u{ff66}' <= c && c <= '\u{ff9f}')
}

/// Whether the title holds kana, which marks it as Japanese (read right to
/// left). Kanji alone do not: they are shared with Chinese.
pub fn japanese_title(title: &str) -> (r: bool)
    ensures
        r == exists|k: int| 0 <= k < title@.len() && is_kana(#[trigger] title@[k]),
{
    let v = chars_of(title);
    let mut i: usize = 0;
    while i < v.len()
        invariant
            v@ == title@,
            i <= v@.len(),
            forall|k: int| 0 <= k < i ==> !is_kana(#[trigger] v@[k]),
        decreases v@.len() - i,
    {
        let c = v[i];
        if ('\u{3040}' <= c && c <= '\u{30ff}') || ('\u{ff66}' <= c && c <= '\u{ff9f}') {
            assert(is_kana(v@[i as int]));
            return true;
        }
        i += 1;
    }
    false
}

/// A control character (`char::is_control`: general category Cc).
pub open spec fn is_control(c: char) -> bool {
    c <= '\u{1f}' || ('\u{7f}' <= c && c <= '\u{9f}')
}

/// A character a file name may not hold.
pub open spec fn is_unsafe_char(c: char) -> bool {
    is_control(c) || c == '/' || c == '\\' || c == ':' || c == '*' || c == '?' || c == '"' || c == '<'
        || c == '>' || c == '|'
}

/// Index of the first `?` or `#`, or the length.
pub open spec fn query_start(u: Seq<char>, i: int) -> int
    decreases u.len() - i,
{
    if i < 0 || i >= u.len() {
        u.len() as int
    } else if u[i] == '?' || u[i] == '#' {
        i
    } else {
        query_start(u, i + 1)
    }
}

/// End of `u[..e]` once trailing `/` are trimmed.
pub open spec fn trim_slashes_end(u: Seq<char>, e: int) -> int
    decreases e,
{
    if e <= 0 {
        0
    } else if u[e - 1] == '/' {
        trim_slashes_end(u, e - 1)
    } else {
        e
    }
}

/// Start of the last `/`-separated segment of `u[..e]`.
pub open spec fn segment_start(u: Seq<char>, e: int) -> int
    decreases e,
{
    if e <= 0 {
        0
    } else if u[e - 1] == '/' {
        e
    } else {
        segment_start(u, e - 1)
    }
}

/// `s` without the characters a file name may not hold.
pub open spec fn safe_chars(s: Seq<char>) -> Seq<char>
    decreases s.len(),
{
    if s.len() == 0 {
        s
    } else {
        safe_chars(s.drop_last()) + if is_unsafe_char(s.last()) {
            Seq::<char>::empty()
        } else {
            seq![s.last()]
        }
    }
}

/// The last path segment of a link (before any `?` or `#`, ignoring trailing
/// `/`), without characters a file name may not hold.
pub open spec fn link_name(u: Seq<char>) -> Seq<char> {
    let q = query_start(u, 0);
    let e = trim_slashes_end(u, q);
    safe_chars(u.subrange(segment_start(u, e), e))
}

/// `book`: the title used when a link gives no usable name.
pub open spec fn book_title() -> Seq<char> {
    seq!['b', 'o', 'o', 'k']
}

/// The title of a link: its [`link_name`], or `book` when that is empty,
/// `.`, `..`, or holds `@`.
pub open spec fn url_title_spec(u: Seq<char>) -> Seq<char> {
    let n = link_name(u);
    if n.len() == 0 || n == seq!['.'] || n == seq!['.', '.'] || n.contains('@') {
        book_title()
    } else {
        n
    }
}

proof fn lemma_query_start(u: Seq<char>, i: int)
    requires
        0 <= i <= u.len(),
    ensures
        i <= query_start(u, i) <= u.len(),
    decreases u.len() - i,
{
    if i < u.len() && !(u[i] == '?' || u[i] == '#') {
        lemma_query_start(u, i + 1);
    }
}

proof fn lemma_trim_slashes_end(u: Seq<char>, e: int)
    requires
        0 <= e <= u.len(),
    ensures
        0 <= trim_slashes_end(u, e) <= e,
    decreases e,
{
    if e > 0 && u[e - 1] == '/' {
        lemma_trim_slashes_end(u, e - 1);
    }
}

proof fn lemma_segment_start(u: Seq<char>, e: int)
    requires
        0 <= e <= u.len(),
    ensures
        0 <= segment_start(u, e) <= e,
    decreases e,
{
    if e > 0 && u[e - 1] != '/' {
        lemma_segment_start(u, e - 1);
    }
}

fn is_unsafe_exec(c: char) -> (r: bool)
    ensures
        r == is_unsafe_char(c),
{
    c <= '\u{1f}' || ('\u{7f}' <= c && c <= '\u{9f}') || c == '/' || c == '\\' || c == ':' || c == '*'
        || c == '?' || c == '"' || c == '<' || c == '>' || c == '|'
}

/// The title of a book made from a link: the link's last path segment
/// (before any query or fragment, ignoring trailing `/`) without characters
/// a file name may not hold; `book` when nothing usable remains.
pub fn url_title(url: &str) -> (r: String)
    ensures
        r@ == url_title_spec(url@),
{
    let u = chars_of(url);
    let mut q: usize = 0;
    while q < u.len() && !(u[q] == '?' || u[q] == '#')
        invariant
            q <= u@.len(),
            u@ == url@,
            query_start(u@, 0) == query_start(u@, q as int),
        decreases u@.len() - q,
    {
        q += 1;
    }
    let mut e = q;
    while e > 0 && u[e - 1] == '/'
        invariant
            e <= q <= u@.len(),
            trim_slashes_end(u@, q as int) == trim_slashes_end(u@, e as int),
        decreases e,
    {
        e -= 1;
    }
    let mut s = e;
    while s > 0 && u[s - 1] != '/'
        invariant
            s <= e <= u@.len(),
            segment_start(u@, e as int) == segment_start(u@, s as int),
        decreases s,
    {
        s -= 1;
    }
    let ghost seg = u@.subrange(s as int, e as int);
    let mut name: Vec<char> = Vec::new();
    let mut k = s;
    while k < e
        invariant
            s <= k <= e <= u@.len(),
            seg == u@.subrange(s as int, e as int),
            name@ == safe_chars(seg.take(k - s)),
        decreases e - k,
    {
        let c = u[k];
        assert(seg.take(k + 1 - s).drop_last() =~= seg.take(k - s));
        assert(seg.take(k + 1 - s).last() == c);
        if !is_unsafe_exec(c) {
            name.push(c);
        }
        k += 1;
    }
    assert(seg.take(e - s) =~= seg);
    let mut has_at = false;
    let mut j: usize = 0;
    while j < name.len()
        invariant
            j <= name@.len(),
            has_at == exists|x: int| 0 <= x < j && name@[x] == '@',
        decreases name@.len() - j,
    {
        if name[j] == '@' {
            has_at = true;
        }
        j += 1;
    }
    let dot = name.len() == 1 && name[0] == '.';
    let dotdot = name.len() == 2 && name[0] == '.' && name[1] == '.';
    proof {
        if name@.len() == 1 && !dot {
            assert(name@ != seq!['.']);
        }
        if name@.len() == 2 && !dotdot {
            assert(name@[0] != '.' || name@[1] != '.');
            assert(name@ != seq!['.', '.']);
        }
        if dot {
            assert(name@ =~= seq!['.']);
        }
        if dotdot {
            assert(name@ =~= seq!['.', '.']);
        }
        if has_at {
            let x = choose|x: int| 0 <= x < name@.len() && name@[x] == '@';
            assert(name@.contains('@'));
        }
    }
    if name.len() == 0 || dot || dotdot || has_at {
        let b = vec!['b', 'o', 'o', 'k'];
        assert(b@ =~= book_title());
        string_of(b.as_slice())
    } else {
        string_of(name.as_slice())
    }
}

proof fn lemma_safe_chars_safe(s: Seq<char>)
    ensures
        forall|k: int| 0 <= k < safe_chars(s).len() ==> !is_unsafe_char(#[trigger] safe_chars(s)[k]),
    decreases s.len(),
{
    if s.len() > 0 {
        lemma_safe_chars_safe(s.drop_last());
        let prev = safe_chars(s.drop_last());
        assert forall|k: int| 0 <= k < safe_chars(s).len() implies !is_unsafe_char(
            #[trigger] safe_chars(s)[k],
        ) by {
            if k < prev.len() {
                assert(safe_chars(s)[k] == prev[k]);
            }
        }
    }
}

/// The title of a link is always usable as a bare file name: it is not empty,
/// holds no `/` or other character a file name may not hold, and is its own
/// file name.
pub proof fn lemma_url_title_is_file_name(u: Seq<char>)
    ensures
        url_title_spec(u).len() > 0,
        forall|k: int| 0 <= k < url_title_spec(u).len() ==> !is_unsafe_char(#[trigger] url_title_spec(u)[k]),
        file_name(url_title_spec(u)) == Some(url_title_spec(u)),
{
    let t = url_title_spec(u);
    let q = query_start(u, 0);
    lemma_query_start(u, 0);
    let e = trim_slashes_end(u, q);
    lemma_trim_slashes_end(u, q);
    lemma_segment_start(u, e);
    lemma_safe_chars_safe(u.subrange(segment_start(u, e), e));
    assert forall|k: int| 0 <= k < t.len() implies !is_unsafe_char(#[trigger] t[k]) by {
        if t == book_title() {
        }
    }
    lemma_name_of_plain(t);
}

/// A non-empty name without `/` that is neither `.` nor `..` is its own file name.
proof fn lemma_name_of_plain(t: Seq<char>)
    requires
        t.len() > 0,
        forall|k: int| 0 <= k < t.len() ==> #[trigger] t[k] != '/',
        t != seq!['.'],
        t != seq!['.', '.'],
    ensures
        file_name(t) == Some(t),
{
    let n = t.len() as int;
    if t[n - 1] == '.' && n == 1 {
        assert(t =~= seq!['.']);
    }
    assert(crate::paths::name_end(t, n) == n);
    assert forall|e: int| 0 <= e <= n implies crate::paths::name_start(t, e) == 0 by {
        lemma_name_start_zero(t, e);
    }
    assert(t.subrange(0, n) =~= t);
    assert(crate::paths::parent_name() =~= seq!['.', '.']);
}

proof fn lemma_name_start_zero(t: Seq<char>, e: int)
    requires
        0 <= e <= t.len(),
        forall|k: int| 0 <= k < t.len() ==> #[trigger] t[k] != '/',
    ensures
        crate::paths::name_start(t, e) == 0,
    decreases e,
{
    if e > 0 {
        lemma_name_start_zero(t, e - 1);
    }
}

} // verus!
