//! Paths as `/`-separated text, with the rules of `std::path` for the last
//! file name, its extension, joining, and a leading `~` component. These are
//! the rules of Unix paths (macOS and Linux); Windows paths, which also
//! split at `\` and have drive prefixes, are not modelled.
use vstd::prelude::*;

verus! {

/// Whether the character before `e` closes a `.` segment (a `.` at the start
/// or right after a `/`).
pub open spec fn closes_dot_segment(p: Seq<char>, e: int) -> bool {
    p[e - 1] == '.' && (e == 1 || p[e - 2] == '/')
}

/// Where the path `p[..e]` ends once trailing separators and `.` segments are dropped.
pub open spec fn name_end(p: Seq<char>, e: int) -> int
    decreases e,
{
    if e <= 0 {
        0
    } else if p[e - 1] == '/' || closes_dot_segment(p, e) {
        name_end(p, e - 1)
    } else {
        e
    }
}

/// Start of the segment that ends at `e`.
pub open spec fn name_start(p: Seq<char>, e: int) -> int
    decreases e,
{
    if e <= 0 {
        0
    } else if p[e - 1] == '/' {
        e
    } else {
        name_start(p, e - 1)
    }
}

/// The two characters `..`.
pub open spec fn parent_name() -> Seq<char> {
    seq!['.', '.']
}

/// The last component of a path, when it is a normal name (`Path::file_name`):
/// trailing `/` and `.` segments are ignored, and a final `..`, a bare root
/// or an empty path has none.
pub open spec fn file_name(p: Seq<char>) -> Option<Seq<char>> {
    let e = name_end(p, p.len() as int);
    if e == 0 {
        None
    } else {
        let n = p.subrange(name_start(p, e), e);
        if n == parent_name() {
            None
        } else {
            Some(n)
        }
    }
}

/// Whether a file name has an extension (`Path::extension` is some): a `.`
/// anywhere but at its start.
pub open spec fn has_extension(name: Seq<char>) -> bool {
    exists|k: int| 1 <= k < name.len() && name[k] == '.'
}

/// `base` joined with `part` (`Path::join`): an absolute `part` replaces the
/// base; otherwise a `/` separates them unless `base` is empty or already ends in one.
pub open spec fn join(base: Seq<char>, part: Seq<char>) -> Seq<char> {
    if part.len() > 0 && part[0] == '/' {
        part
    } else if base.len() > 0 && base[base.len() - 1] != '/' {
        base + seq!['/'] + part
    } else {
        base + part
    }
}

/// The text `.epub`.
pub open spec fn epub_suffix() -> Seq<char> {
    seq!['.', 'e', 'p', 'u', 'b']
}

/// `p` with the extension `epub` set when its file name has none
/// (`Path::set_extension`, which also drops what trails the file name).
pub open spec fn with_epub_extension(p: Seq<char>) -> Seq<char> {
    match file_name(p) {
        Some(n) => if has_extension(n) {
            p
        } else {
            p.take(name_end(p, p.len() as int)) + epub_suffix()
        },
        None => p,
    }
}

/// Where leading separators and `.` segments of `p[i..]` end.
pub open spec fn lead_end(p: Seq<char>, i: int) -> int
    decreases p.len() - i,
{
    if i < 0 || i >= p.len() {
        p.len() as int
    } else if p[i] == '/' || (p[i] == '.' && (i + 1 == p.len() || p[i + 1] == '/')) {
        lead_end(p, i + 1)
    } else {
        i
    }
}

/// What remains of `dir` after a leading `~` component (`Path::strip_prefix("~")`),
/// without separators or `.` segments at its ends; none when `dir` does not
/// start with that component.
pub open spec fn tilde_suffix(dir: Seq<char>) -> Option<Seq<char>> {
    if dir.len() >= 1 && dir[0] == '~' && (dir.len() == 1 || dir[1] == '/') {
        let s = lead_end(dir, 1);
        let e = name_end(dir, dir.len() as int);
        Some(
            if e <= s {
                Seq::<char>::empty()
            } else {
                dir.subrange(s, e)
            },
        )
    } else {
        None
    }
}

/// The trimmed end lies within the path and is not a separator.
pub proof fn lemma_name_end_bounds(p: Seq<char>, e: int)
    requires
        0 <= e <= p.len(),
    ensures
        0 <= name_end(p, e) <= e,
        name_end(p, e) > 0 ==> p[name_end(p, e) - 1] != '/',
    decreases e,
{
    if e > 0 && (p[e - 1] == '/' || closes_dot_segment(p, e)) {
        lemma_name_end_bounds(p, e - 1);
    }
}

/// A segment starts after a separator (or at the start) and holds none.
pub proof fn lemma_name_start_bounds(p: Seq<char>, e: int)
    requires
        0 <= e <= p.len(),
    ensures
        0 <= name_start(p, e) <= e,
        e > 0 && p[e - 1] != '/' ==> name_start(p, e) < e,
        name_start(p, e) > 0 ==> p[name_start(p, e) - 1] == '/',
        forall|k: int| name_start(p, e) <= k < e ==> #[trigger] p[k] != '/',
    decreases e,
{
    if e > 0 && p[e - 1] != '/' {
        lemma_name_start_bounds(p, e - 1);
    }
}

proof fn lemma_lead_end_bounds(p: Seq<char>, i: int)
    requires
        0 <= i <= p.len(),
    ensures
        i <= lead_end(p, i) <= p.len(),
    decreases p.len() - i,
{
    if i < p.len() && (p[i] == '/' || (p[i] == '.' && (i + 1 == p.len() || p[i + 1] == '/'))) {
        lemma_lead_end_bounds(p, i + 1);
    }
}

fn name_end_exec(p: &[char], e: usize) -> (r: usize)
    requires
        e <= p@.len(),
    ensures
        r == name_end(p@, e as int),
{
    let mut k = e;
    while k > 0 && (p[k - 1] == '/' || (p[k - 1] == '.' && (k == 1 || p[k - 2] == '/')))
        invariant
            k <= e <= p@.len(),
            name_end(p@, e as int) == name_end(p@, k as int),
        decreases k,
    {
        k -= 1;
    }
    k
}

fn name_start_exec(p: &[char], e: usize) -> (r: usize)
    requires
        e <= p@.len(),
    ensures
        r == name_start(p@, e as int),
{
    let mut k = e;
    while k > 0 && p[k - 1] != '/'
        invariant
            k <= e <= p@.len(),
            name_start(p@, e as int) == name_start(p@, k as int),
        decreases k,
    {
        k -= 1;
    }
    k
}

fn lead_end_exec(p: &[char], i: usize) -> (r: usize)
    requires
        i <= p@.len(),
    ensures
        r == lead_end(p@, i as int),
{
    let mut k = i;
    while k < p.len() && (p[k] == '/' || (p[k] == '.' && (k + 1 == p.len() || p[k + 1] == '/')))
        invariant
            i <= k <= p@.len(),
            lead_end(p@, i as int) == lead_end(p@, k as int),
        decreases p@.len() - k,
    {
        k += 1;
    }
    k
}

/// Bounds of the file name of `p` within `p`, when it has one.
pub fn file_name_bounds(p: &[char]) -> (r: Option<(usize, usize)>)
    ensures
        r is None <==> file_name(p@) is None,
        r matches Some((s, e)) ==> {
            &&& s < e <= p@.len()
            &&& e == name_end(p@, p@.len() as int)
            &&& s == name_start(p@, e as int)
            &&& file_name(p@) == Some(p@.subrange(s as int, e as int))
        },
{
    let e = name_end_exec(p, p.len());
    if e == 0 {
        return None;
    }
    proof {
        lemma_name_end_bounds(p@, p@.len() as int);
        lemma_name_start_bounds(p@, e as int);
    }
    let s = name_start_exec(p, e);
    if e - s == 2 && p[s] == '.' && p[s + 1] == '.' {
        assert(p@.subrange(s as int, e as int) =~= parent_name());
        return None;
    }
    if e - s == 2 {
        assert(p@.subrange(s as int, e as int)[0] == p@[s as int]);
        assert(p@.subrange(s as int, e as int)[1] == p@[s + 1]);
    } else {
        assert(p@.subrange(s as int, e as int).len() != parent_name().len());
    }
    assert(p@.subrange(s as int, e as int) != parent_name());
    Some((s, e))
}

/// Whether `p[s..e]` has an extension.
fn has_extension_exec(p: &[char], s: usize, e: usize) -> (r: bool)
    requires
        s <= e <= p@.len(),
    ensures
        r == has_extension(p@.subrange(s as int, e as int)),
{
    let ghost n = p@.subrange(s as int, e as int);
    if s == e {
        return false;
    }
    let mut k = s + 1;
    while k < e
        invariant
            s + 1 <= k,
            s <= e <= p@.len(),
            n == p@.subrange(s as int, e as int),
            forall|j: int| 1 <= j < k - s && j < n.len() ==> n[j] != '.',
        decreases e - k,
    {
        if p[k] == '.' {
            assert(n[k - s] == '.');
            return true;
        }
        k += 1;
    }
    false
}

/// `Path::join` on text.
pub fn join_path(base: &[char], part: &[char]) -> (r: Vec<char>)
    ensures
        r@ == join(base@, part@),
{
    let mut out: Vec<char> = Vec::new();
    if part.len() > 0 && part[0] == '/' {
        crate::text::extend_chars(&mut out, part);
        assert(out@ =~= part@);
        return out;
    }
    crate::text::extend_chars(&mut out, base);
    if base.len() > 0 && base[base.len() - 1] != '/' {
        out.push('/');
    }
    crate::text::extend_chars(&mut out, part);
    assert(out@ =~= join(base@, part@));
    out
}

/// Appends `.epub`.
pub fn push_epub(v: &mut Vec<char>)
    ensures
        final(v)@ == old(v)@ + epub_suffix(),
{
    v.push('.');
    v.push('e');
    v.push('p');
    v.push('u');
    v.push('b');
    assert(final(v)@ =~= old(v)@ + epub_suffix());
}

/// `p` with the extension `epub` set when its file name has none.
pub fn set_epub_extension(p: Vec<char>) -> (r: Vec<char>)
    ensures
        r@ == with_epub_extension(p@),
{
    match file_name_bounds(p.as_slice()) {
        None => p,
        Some((s, e)) => {
            if has_extension_exec(p.as_slice(), s, e) {
                p
            } else {
                let mut out: Vec<char> = Vec::new();
                crate::text::extend_range(&mut out, p.as_slice(), 0, e);
                push_epub(&mut out);
                assert(p@.subrange(0, e as int) =~= p@.take(e as int));
                out
            }
        },
    }
}

/// The part of `dir` after a leading `~` component, if it has one.
pub fn strip_tilde(dir: &[char]) -> (r: Option<Vec<char>>)
    ensures
        match r {
            Some(v) => tilde_suffix(dir@) == Some(v@),
            None => tilde_suffix(dir@) is None,
        },
{
    if dir.len() >= 1 && dir[0] == '~' && (dir.len() == 1 || dir[1] == '/') {
        let s = lead_end_exec(dir, 1);
        let e = name_end_exec(dir, dir.len());
        proof {
            lemma_lead_end_bounds(dir@, 1);
            lemma_name_end_bounds(dir@, dir@.len() as int);
        }
        let mut out: Vec<char> = Vec::new();
        if e > s {
            crate::text::extend_range(&mut out, dir, s, e);
            assert(out@ =~= dir@.subrange(s as int, e as int));
        } else {
            assert(out@ =~= Seq::<char>::empty());
        }
        Some(out)
    } else {
        None
    }
}

proof fn lemma_name_start_within(q: Seq<char>, s: int, e: int)
    requires
        0 <= s < e <= q.len(),
        forall|k: int| s <= k < q.len() ==> #[trigger] q[k] != '/',
        s == 0 || q[s - 1] == '/',
    ensures
        name_start(q, e) == s,
    decreases e,
{
    assert(q[e - 1] != '/');
    if e - 1 > s {
        lemma_name_start_within(q, s, e - 1);
    } else {
        assert(name_start(q, s) == s);
    }
}

/// A path that ends in a segment without `/` (other than `.`), starting at
/// `s`, has that segment as its file name unless it is `..`.
pub proof fn lemma_plain_tail(q: Seq<char>, s: int)
    requires
        0 <= s < q.len(),
        forall|k: int| s <= k < q.len() ==> #[trigger] q[k] != '/',
        s == 0 || q[s - 1] == '/',
        q.subrange(s, q.len() as int) != seq!['.'],
    ensures
        name_end(q, q.len() as int) == q.len(),
        name_start(q, q.len() as int) == s,
        file_name(q) == if q.subrange(s, q.len() as int) == parent_name() {
            None
        } else {
            Some(q.subrange(s, q.len() as int))
        },
{
    let n = q.len() as int;
    if closes_dot_segment(q, n) {
        if n - 1 == s {
            assert(q.subrange(s, n) =~= seq!['.']);
        } else {
            assert(q[n - 2] != '/');
        }
    }
    lemma_name_start_within(q, s, n);
}

/// The `.epub` variant of a path with a file name has a file name with an extension.
pub proof fn lemma_with_epub_has_extension(x: Seq<char>)
    requires
        file_name(x) is Some,
    ensures
        file_name(with_epub_extension(x)) matches Some(n) && has_extension(n),
{
    let name = file_name(x).unwrap();
    if !has_extension(name) {
        let e = name_end(x, x.len() as int);
        lemma_name_end_bounds(x, x.len() as int);
        lemma_name_start_bounds(x, e);
        let s = name_start(x, e);
        let y = x.take(e) + epub_suffix();
        assert(y == with_epub_extension(x));
        assert forall|k: int| s <= k < y.len() implies #[trigger] y[k] != '/' by {
            if k < e {
                assert(y[k] == x[k]);
            } else {
                assert(y[k] == epub_suffix()[k - e]);
            }
        }
        if s > 0 {
            assert(y[s - 1] == x[s - 1]);
        }
        let t = y.subrange(s, y.len() as int);
        assert(t =~= name + epub_suffix());
        assert(t.len() >= 6);
        lemma_plain_tail(y, s);
        assert(t[name.len() as int] == '.');
    }
}

/// A bare name (no `/`, not `.` or `..`, not empty) joined to any directory
/// is the file name of the result.
pub proof fn lemma_join_bare_name(d: Seq<char>, n: Seq<char>)
    requires
        n.len() > 0,
        forall|k: int| 0 <= k < n.len() ==> #[trigger] n[k] != '/',
        n != seq!['.'],
        n != parent_name(),
    ensures
        file_name(join(d, n)) == Some(n),
{
    let q = join(d, n);
    let s = q.len() - n.len();
    assert(q.subrange(s, q.len() as int) =~= n);
    assert forall|k: int| s <= k < q.len() implies #[trigger] q[k] != '/' by {
        assert(q[k] == n[k - s]);
    }
    if s > 0 {
        if d.len() > 0 && d[d.len() - 1] != '/' {
            assert(q[s - 1] == '/');
        } else {
            assert(q[s - 1] == d[d.len() - 1]);
        }
    }
    lemma_plain_tail(q, s);
}

} // verus!
