//! Page order: natural name order with a component-wise tie-break, and a
//! stable order by capture time.
use crate::natural::{
    lemma_natural_order_antisymmetric, lemma_natural_order_congruent, lemma_natural_order_total_preorder,
    natural_compare, natural_order, sign,
};
use crate::picture::{numbered, numbered_sequence, time_le, time_le_exec, Picture, Sort};
use crate::text::{decimal, extend_decimal, extend_str, string_of};
use vstd::prelude::*;
use vstd::utf8::encode_utf8;

verus! {

/// Index of the first `/` at or after `i`, or the length.
pub open spec fn slash_from(s: Seq<char>, i: int) -> int
    decreases s.len() - i,
{
    if i < 0 || i >= s.len() {
        s.len() as int
    } else if s[i] == '/' {
        i
    } else {
        slash_from(s, i + 1)
    }
}

/// A segment ends at the next separator, past its start.
pub proof fn lemma_slash_from(s: Seq<char>, i: int)
    requires
        0 <= i <= s.len(),
    ensures
        i <= slash_from(s, i) <= s.len(),
        i < s.len() && s[i] != '/' ==> i < slash_from(s, i),
        slash_from(s, i) < s.len() ==> s[slash_from(s, i)] == '/',
    decreases s.len() - i,
{
    if i < s.len() && s[i] != '/' {
        lemma_slash_from(s, i + 1);
    }
}

/// The components of `s[i..]`: its `/`-separated segments, empty ones dropped.
pub open spec fn components_from(s: Seq<char>, i: int) -> Seq<Seq<char>>
    decreases s.len() - i,
{
    if i < 0 || i >= s.len() {
        Seq::<Seq<char>>::empty()
    } else if s[i] == '/' {
        components_from(s, i + 1)
    } else {
        proof {
            lemma_slash_from(s, i);
        }
        let j = slash_from(s, i);
        seq![s.subrange(i, j)] + components_from(s, j)
    }
}

/// Lexicographic order of two texts by character (the order of their UTF-8
/// bytes), as a sign.
pub open spec fn char_lex(a: Seq<char>, b: Seq<char>) -> int
    decreases a.len(),
{
    if a.len() == 0 || b.len() == 0 {
        sign(a.len() - b.len())
    } else if a[0] != b[0] {
        sign(a[0] as int - b[0] as int)
    } else {
        char_lex(a.drop_first(), b.drop_first())
    }
}

/// Lexicographic order of two component lists, as a sign.
pub open spec fn components_lex(x: Seq<Seq<char>>, y: Seq<Seq<char>>) -> int
    decreases x.len(),
{
    if x.len() == 0 || y.len() == 0 {
        sign(x.len() - y.len())
    } else if char_lex(x[0], y[0]) != 0 {
        char_lex(x[0], y[0])
    } else {
        components_lex(x.drop_first(), y.drop_first())
    }
}

/// Order of two paths compared component by component, as a sign: `Path::cmp`
/// on relative paths without `.` or `..` segments, which is what page names
/// relative to the input are.
pub open spec fn path_order(a: Seq<char>, b: Seq<char>) -> int {
    components_lex(components_from(a, 0), components_from(b, 0))
}

/// Page order by name: natural order of the names' UTF-8 bytes, ties broken
/// by comparing the paths, as a sign.
pub open spec fn name_order(a: Seq<char>, b: Seq<char>) -> int {
    let n = natural_order(encode_utf8(a), encode_utf8(b));
    if n != 0 {
        n
    } else {
        path_order(a, b)
    }
}

proof fn lemma_char_lex_antisymmetric(a: Seq<char>, b: Seq<char>)
    ensures
        char_lex(a, b) == -char_lex(b, a),
    decreases a.len(),
{
    if a.len() > 0 && b.len() > 0 && a[0] == b[0] {
        lemma_char_lex_antisymmetric(a.drop_first(), b.drop_first());
    }
}

proof fn lemma_components_lex_antisymmetric(x: Seq<Seq<char>>, y: Seq<Seq<char>>)
    ensures
        components_lex(x, y) == -components_lex(y, x),
    decreases x.len(),
{
    if x.len() > 0 && y.len() > 0 {
        lemma_char_lex_antisymmetric(x[0], y[0]);
        lemma_components_lex_antisymmetric(x.drop_first(), y.drop_first());
    }
}

/// Swapping two names reverses their page order.
pub proof fn lemma_name_order_antisymmetric(a: Seq<char>, b: Seq<char>)
    ensures
        name_order(a, b) == -name_order(b, a),
{
    lemma_natural_order_antisymmetric(encode_utf8(a), encode_utf8(b));
    lemma_components_lex_antisymmetric(components_from(a, 0), components_from(b, 0));
}

proof fn lemma_char_lex_zero(a: Seq<char>, b: Seq<char>)
    requires
        char_lex(a, b) == 0,
    ensures
        a == b,
    decreases a.len(),
{
    if a.len() > 0 && b.len() > 0 {
        lemma_char_lex_zero(a.drop_first(), b.drop_first());
        assert(a =~= seq![a[0]] + a.drop_first());
        assert(b =~= seq![b[0]] + b.drop_first());
    } else {
        assert(a =~= b);
    }
}

proof fn lemma_char_lex_transitive(a: Seq<char>, b: Seq<char>, c: Seq<char>)
    requires
        char_lex(a, b) < 0,
        char_lex(b, c) < 0,
    ensures
        char_lex(a, c) < 0,
    decreases a.len(),
{
    if a.len() > 0 && b.len() > 0 && c.len() > 0 && a[0] == b[0] && b[0] == c[0] {
        lemma_char_lex_transitive(a.drop_first(), b.drop_first(), c.drop_first());
    }
}

proof fn lemma_components_lex_zero(x: Seq<Seq<char>>, y: Seq<Seq<char>>)
    requires
        components_lex(x, y) == 0,
    ensures
        x == y,
    decreases x.len(),
{
    if x.len() > 0 && y.len() > 0 {
        lemma_char_lex_zero(x[0], y[0]);
        lemma_components_lex_zero(x.drop_first(), y.drop_first());
        assert(x =~= seq![x[0]] + x.drop_first());
        assert(y =~= seq![y[0]] + y.drop_first());
    } else {
        assert(x =~= y);
    }
}

proof fn lemma_components_lex_transitive(x: Seq<Seq<char>>, y: Seq<Seq<char>>, z: Seq<Seq<char>>)
    requires
        components_lex(x, y) < 0,
        components_lex(y, z) < 0,
    ensures
        components_lex(x, z) < 0,
    decreases x.len(),
{
    if x.len() > 0 && y.len() > 0 && z.len() > 0 {
        let a = char_lex(x[0], y[0]);
        let b = char_lex(y[0], z[0]);
        if a < 0 && b < 0 {
            lemma_char_lex_transitive(x[0], y[0], z[0]);
        } else if a == 0 {
            lemma_char_lex_zero(x[0], y[0]);
            if b == 0 {
                lemma_char_lex_zero(y[0], z[0]);
                lemma_components_lex_transitive(x.drop_first(), y.drop_first(), z.drop_first());
            }
        } else if b == 0 {
            lemma_char_lex_zero(y[0], z[0]);
        }
    }
}

/// Page order by name is a total preorder: "no later than" is transitive.
pub proof fn lemma_name_order_transitive(a: Seq<char>, b: Seq<char>, c: Seq<char>)
    requires
        name_order(a, b) <= 0,
        name_order(b, c) <= 0,
    ensures
        name_order(a, c) <= 0,
{
    let (ea, eb, ec) = (encode_utf8(a), encode_utf8(b), encode_utf8(c));
    let nab = natural_order(ea, eb);
    let nbc = natural_order(eb, ec);
    lemma_natural_order_total_preorder(ea, eb, ec);
    if nab == 0 {
        lemma_natural_order_congruent(ea, eb, ec);
        if nbc == 0 {
            let (x, y, z) = (components_from(a, 0), components_from(b, 0), components_from(c, 0));
            if components_lex(x, y) == 0 {
                lemma_components_lex_zero(x, y);
            } else if components_lex(y, z) == 0 {
                lemma_components_lex_zero(y, z);
            } else {
                lemma_components_lex_transitive(x, y, z);
            }
        }
    } else if nbc == 0 {
        lemma_natural_order_antisymmetric(eb, ec);
        lemma_natural_order_congruent(ec, eb, ea);
        lemma_natural_order_antisymmetric(ea, ec);
        lemma_natural_order_antisymmetric(ea, eb);
    } else {
        crate::natural::lemma_natural_order_transitive(ea, eb, ec);
    }
}

/// Every page comes no later than every page after it.
pub open spec fn names_in_order(ps: Seq<Picture>) -> bool {
    forall|k: int, l: int| 0 <= k < l < ps.len() ==> name_order(#[trigger] ps[k].name@, #[trigger] ps[l].name@) <= 0
}

/// Pages whose neighbours are in name order are in name order throughout.
pub proof fn lemma_sorted_by_name_throughout(ps: Seq<Picture>)
    requires
        sorted_by_name(ps),
    ensures
        names_in_order(ps),
{
    assert forall|k: int, l: int| 0 <= k < l < ps.len() implies name_order(
        #[trigger] ps[k].name@,
        #[trigger] ps[l].name@,
    ) <= 0 by {
        lemma_sorted_span(ps, k, l);
    }
}

proof fn lemma_sorted_span(ps: Seq<Picture>, k: int, l: int)
    requires
        sorted_by_name(ps),
        0 <= k < l < ps.len(),
    ensures
        name_order(ps[k].name@, ps[l].name@) <= 0,
    decreases l - k,
{
    if l > k + 1 {
        lemma_sorted_span(ps, k + 1, l);
        assert(name_order(ps[k].name@, ps[k + 1].name@) <= 0);
        lemma_name_order_transitive(ps[k].name@, ps[k + 1].name@, ps[l].name@);
    }
}

/// Compares `a[i..ie]` with `b[j..je]` character by character.
fn char_lex_range(a: &[char], i: usize, ie: usize, b: &[char], j: usize, je: usize) -> (r: i8)
    requires
        i <= ie <= a@.len(),
        j <= je <= b@.len(),
    ensures
        r == char_lex(a@.subrange(i as int, ie as int), b@.subrange(j as int, je as int)),
{
    let mut x = i;
    let mut y = j;
    while x < ie && y < je
        invariant
            i <= x <= ie <= a@.len(),
            j <= y <= je <= b@.len(),
            char_lex(a@.subrange(i as int, ie as int), b@.subrange(j as int, je as int)) == char_lex(
                a@.subrange(x as int, ie as int),
                b@.subrange(y as int, je as int),
            ),
        decreases ie - x,
    {
        if a[x] != b[y] {
            if a[x] < b[y] {
                return -1;
            } else {
                return 1;
            }
        }
        assert(a@.subrange(x as int, ie as int).drop_first() =~= a@.subrange(x + 1, ie as int));
        assert(b@.subrange(y as int, je as int).drop_first() =~= b@.subrange(y + 1, je as int));
        x += 1;
        y += 1;
    }
    if x < ie {
        1
    } else if y < je {
        -1
    } else {
        0
    }
}

fn slash_from_exec(s: &[char], i: usize) -> (r: usize)
    requires
        i <= s@.len(),
    ensures
        r == slash_from(s@, i as int),
{
    let mut k = i;
    while k < s.len() && s[k] != '/'
        invariant
            i <= k <= s@.len(),
            slash_from(s@, i as int) == slash_from(s@, k as int),
        decreases s@.len() - k,
    {
        k += 1;
    }
    k
}

fn skip_slashes(s: &[char], i: usize) -> (r: usize)
    requires
        i <= s@.len(),
    ensures
        i <= r <= s@.len(),
        r < s@.len() ==> s@[r as int] != '/',
        components_from(s@, i as int) == components_from(s@, r as int),
{
    let mut k = i;
    while k < s.len() && s[k] == '/'
        invariant
            i <= k <= s@.len(),
            components_from(s@, i as int) == components_from(s@, k as int),
        decreases s@.len() - k,
    {
        k += 1;
    }
    k
}

/// Compares two paths component by component.
pub fn path_compare(a: &[char], b: &[char]) -> (r: i8)
    ensures
        r == path_order(a@, b@),
{
    let mut i: usize = 0;
    let mut j: usize = 0;
    loop
        invariant
            i <= a@.len(),
            j <= b@.len(),
            path_order(a@, b@) == components_lex(components_from(a@, i as int), components_from(b@, j as int)),
        decreases a@.len() - i,
    {
        i = skip_slashes(a, i);
        j = skip_slashes(b, j);
        if i == a.len() || j == b.len() {
            proof {
                if i < a.len() {
                    lemma_slash_from(a@, i as int);
                }
                if j < b.len() {
                    lemma_slash_from(b@, j as int);
                }
            }
            if i < a.len() {
                return 1;
            } else if j < b.len() {
                return -1;
            } else {
                return 0;
            }
        }
        let ie = slash_from_exec(a, i);
        let je = slash_from_exec(b, j);
        proof {
            lemma_slash_from(a@, i as int);
            lemma_slash_from(b@, j as int);
            let x = components_from(a@, i as int);
            let y = components_from(b@, j as int);
            assert(x[0] == a@.subrange(i as int, ie as int));
            assert(y[0] == b@.subrange(j as int, je as int));
            assert(x.drop_first() =~= components_from(a@, ie as int));
            assert(y.drop_first() =~= components_from(b@, je as int));
        }
        let o = char_lex_range(a, i, ie, b, j, je);
        if o != 0 {
            return o;
        }
        i = ie;
        j = je;
    }
}

/// Compares two page names: natural order, then the paths.
pub fn name_compare(a: &String, b: &String) -> (r: i8)
    ensures
        r == name_order(a@, b@),
{
    let n = natural_compare(a.as_str().as_bytes(), b.as_str().as_bytes());
    if n != 0 {
        return n;
    }
    let av = crate::text::chars_of(a.as_str());
    let bv = crate::text::chars_of(b.as_str());
    path_compare(av.as_slice(), bv.as_slice())
}

/// `perm` lists each index below `n` exactly once.
pub open spec fn is_permutation(perm: Seq<int>, n: int) -> bool {
    &&& perm.len() == n
    &&& forall|k: int| 0 <= k < perm.len() ==> 0 <= #[trigger] perm[k] < n
    &&& forall|k: int, l: int| 0 <= k < l < perm.len() ==> perm[k] != perm[l]
}

/// `out` holds the items of `orig` in the order `perm`.
pub open spec fn reordered(out: Seq<Picture>, orig: Seq<Picture>, perm: Seq<int>) -> bool {
    &&& is_permutation(perm, orig.len() as int)
    &&& out.len() == orig.len()
    &&& forall|k: int| 0 <= k < out.len() ==> out[k] == orig[#[trigger] perm[k]]
}

/// A permutation of `n` indices lists every index below `n`.
pub proof fn lemma_permutation_onto(perm: Seq<int>, n: int, m: int)
    requires
        is_permutation(perm, n),
        0 <= m < n,
    ensures
        exists|k: int| 0 <= k < n && perm[k] == m,
{
    let dom = vstd::set_lib::set_int_range(0, n);
    let f = |k: int| perm[k];
    vstd::set_lib::lemma_int_range(0, n);
    let img = dom.map(f);
    assert(vstd::relations::injective_on(f, dom)) by {
        assert forall|x: int, y: int| dom.contains(x) && dom.contains(y) && #[trigger] f(x) == #[trigger] f(
            y,
        ) implies x == y by {
            if x < y {
                assert(perm[x] != perm[y]);
            } else if y < x {
                assert(perm[y] != perm[x]);
            }
        }
    }
    vstd::set_lib::lemma_map_size(dom, img, f);
    assert(img.subset_of(dom)) by {
        assert forall|v: int| img.contains(v) implies dom.contains(v) by {
            let k = choose|k: int| dom.contains(k) && v == f(k);
            assert(0 <= perm[k] < n);
        }
    }
    vstd::set_lib::lemma_subset_equality(img, dom);
    assert(dom.contains(m));
    assert(img.contains(m));
    let k = choose|k: int| dom.contains(k) && m == f(k);
    assert(0 <= k < n && perm[k] == m);
}

/// Reordering numbered pages keeps them numbered.
proof fn lemma_numbered_reordered_one_way(out: Seq<Picture>, orig: Seq<Picture>, perm: Seq<int>)
    requires
        reordered(out, orig, perm),
        numbered(orig),
    ensures
        numbered(out),
{
    let first = crate::picture::sequence_parts_spec(orig[0].path@).unwrap();
    assert(out[0] == orig[perm[0]]);
    assert(crate::picture::sequence_parts_spec(orig[perm[0]].path@) is Some);
    assert forall|i: int| 0 <= i < out.len() implies #[trigger] crate::picture::sequence_parts_spec(
        out[i].path@,
    ) is Some by {
        assert(out[i] == orig[perm[i]]);
        assert(crate::picture::sequence_parts_spec(orig[perm[i]].path@) is Some);
    }
    assert forall|i: int| 0 <= i < out.len() implies {
        let f0 = crate::picture::sequence_parts_spec(out[0].path@).unwrap();
        let parts = #[trigger] crate::picture::sequence_parts_spec(out[i].path@).unwrap();
        parts.0 == f0.0 && parts.2 == f0.2
    } by {
        assert(out[i] == orig[perm[i]]);
        let pi = crate::picture::sequence_parts_spec(orig[perm[i]].path@).unwrap();
        let p0 = crate::picture::sequence_parts_spec(orig[perm[0]].path@).unwrap();
        assert(pi.0 == first.0 && pi.2 == first.2);
        assert(p0.0 == first.0 && p0.2 == first.2);
    }
    assert forall|i: int, j: int| 0 <= i < j < out.len() implies crate::picture::trim_zeros(
        #[trigger] crate::picture::sequence_parts_spec(out[i].path@).unwrap().1,
    ) != crate::picture::trim_zeros(
        #[trigger] crate::picture::sequence_parts_spec(out[j].path@).unwrap().1,
    ) by {
        assert(out[i] == orig[perm[i]]);
        assert(out[j] == orig[perm[j]]);
        assert(perm[i] != perm[j]);
        let a = perm[i];
        let b = perm[j];
        if a < b {
            assert(crate::picture::trim_zeros(crate::picture::sequence_parts_spec(orig[a].path@).unwrap().1)
                != crate::picture::trim_zeros(crate::picture::sequence_parts_spec(orig[b].path@).unwrap().1));
        } else {
            assert(crate::picture::trim_zeros(crate::picture::sequence_parts_spec(orig[b].path@).unwrap().1)
                != crate::picture::trim_zeros(crate::picture::sequence_parts_spec(orig[a].path@).unwrap().1));
        }
    }
}

/// Numbered-sequence detection does not depend on page order: for `out`
/// reordered from `orig`, [`numbered`] holds of one exactly when it holds
/// of the other.
pub proof fn lemma_numbered_reordered(out: Seq<Picture>, orig: Seq<Picture>, perm: Seq<int>)
    requires
        reordered(out, orig, perm),
    ensures
        numbered(out) == numbered(orig),
{
    if numbered(orig) {
        lemma_numbered_reordered_one_way(out, orig, perm);
    }
    if numbered(out) {
        let n = orig.len() as int;
        let inv = Seq::new(
            n as nat,
            |m: int| choose|k: int| 0 <= k < n && perm[k] == m,
        );
        assert forall|m: int| 0 <= m < n implies 0 <= #[trigger] inv[m] < n && perm[inv[m]] == m by {
            lemma_permutation_onto(perm, n, m);
        }
        assert(is_permutation(inv, out.len() as int)) by {
            assert forall|k: int, l: int| 0 <= k < l < inv.len() implies inv[k] != inv[l] by {
                assert(perm[inv[k]] == k);
                assert(perm[inv[l]] == l);
            }
        }
        assert forall|m: int| 0 <= m < orig.len() implies orig[m] == out[#[trigger] inv[m]] by {
            assert(perm[inv[m]] == m);
            assert(out[inv[m]] == orig[perm[inv[m]]]);
        }
        lemma_numbered_reordered_one_way(orig, out, inv);
    }
}

/// Neighbouring pages are in name order.
pub open spec fn sorted_by_name(ps: Seq<Picture>) -> bool {
    forall|k: int| 0 <= k < ps.len() - 1 ==> name_order(#[trigger] ps[k].name@, ps[k + 1].name@) <= 0
}

/// Every page has a capture time.
pub open spec fn all_timed(ps: Seq<Picture>) -> bool {
    forall|k: int| 0 <= k < ps.len() ==> (#[trigger] ps[k]).timestamp is Some
}

/// The capture time of a page.
pub open spec fn time_of(p: Picture) -> crate::picture::Timestamp {
    p.timestamp.unwrap().0
}

/// Pages are ordered by capture time, and pages taken at the same moment
/// keep their earlier order (`perm` maps positions to earlier positions).
pub open spec fn sorted_by_time_stably(ps: Seq<Picture>, perm: Seq<int>) -> bool {
    &&& forall|k: int, l: int| 0 <= k < l < ps.len() ==> time_le(time_of(#[trigger] ps[k]), time_of(#[trigger] ps[l]))
    &&& forall|k: int, l: int|
        0 <= k < l < ps.len() && time_of(#[trigger] ps[k]) == time_of(#[trigger] ps[l]) ==> perm[k] < perm[l]
}

/// Orders pages by name (stable insertion by [`name_order`]).
pub fn sort_by_name(pictures: &mut Vec<Picture>)
    ensures
        exists|perm: Seq<int>| reordered(final(pictures)@, old(pictures)@, perm),
        sorted_by_name(final(pictures)@),
        names_in_order(final(pictures)@),
{
    let mut input: Vec<Picture> = Vec::new();
    std::mem::swap(&mut input, pictures);
    let ghost orig = input@;
    let mut out: Vec<Picture> = Vec::new();
    let ghost mut perm: Seq<int> = Seq::empty();
    while input.len() > 0
        invariant
            input@ == orig.take(input@.len() as int),
            input@.len() <= orig.len(),
            out@.len() + input@.len() == orig.len(),
            perm.len() == out@.len(),
            forall|k: int| 0 <= k < perm.len() ==> input@.len() <= #[trigger] perm[k] < orig.len(),
            forall|k: int, l: int| 0 <= k < l < perm.len() ==> perm[k] != perm[l],
            forall|k: int| 0 <= k < out@.len() ==> out@[k] == orig[#[trigger] perm[k]],
            sorted_by_name(out@),
        decreases input@.len(),
    {
        let ghost at = input@.len() - 1;
        let p = input.pop().unwrap();
        assert(p == orig[at]);
        assert(input@ =~= orig.take(at));
        let mut k: usize = 0;
        while k < out.len() && name_compare(&p.name, &out[k].name) > 0
            invariant
                k <= out@.len(),
                forall|l: int| 0 <= l < k ==> name_order(p.name@, (#[trigger] out@[l]).name@) > 0,
            decreases out@.len() - k,
        {
            k += 1;
        }
        let ghost before = out@;
        proof {
            if k > 0 {
                lemma_name_order_antisymmetric(p.name@, before[k - 1].name@);
            }
        }
        out.insert(k, p);
        proof {
            perm = perm.insert(k as int, at);
            assert forall|l: int| 0 <= l < out@.len() - 1 implies name_order(
                #[trigger] out@[l].name@,
                out@[l + 1].name@,
            ) <= 0 by {
                if l < k - 1 {
                    assert(out@[l] == before[l] && out@[l + 1] == before[l + 1]);
                } else if l == k - 1 {
                    assert(out@[l] == before[l] && out@[l + 1] == p);
                } else if l == k {
                    assert(out@[l] == p && out@[l + 1] == before[l]);
                } else {
                    assert(out@[l] == before[l - 1] && out@[l + 1] == before[l]);
                }
            }
            assert forall|l: int| 0 <= l < out@.len() implies out@[l] == orig[#[trigger] perm[l]] by {
                if l < k {
                } else if l == k {
                } else {
                    assert(out@[l] == before[l - 1]);
                }
            }
        }
    }
    assert(is_permutation(perm, orig.len() as int));
    assert(reordered(out@, orig, perm));
    proof {
        lemma_sorted_by_name_throughout(out@);
    }
    *pictures = out;
}

/// Orders pages by capture time, keeping the earlier order among pages taken
/// at the same moment.
pub fn sort_by_time(pictures: &mut Vec<Picture>)
    requires
        all_timed(old(pictures)@),
    ensures
        exists|perm: Seq<int>|
            reordered(final(pictures)@, old(pictures)@, perm) && sorted_by_time_stably(final(pictures)@, perm),
{
    let mut input: Vec<Picture> = Vec::new();
    std::mem::swap(&mut input, pictures);
    let ghost orig = input@;
    let mut out: Vec<Picture> = Vec::new();
    let ghost mut perm: Seq<int> = Seq::empty();
    while input.len() > 0
        invariant
            all_timed(orig),
            input@ == orig.take(input@.len() as int),
            input@.len() <= orig.len(),
            out@.len() + input@.len() == orig.len(),
            perm.len() == out@.len(),
            forall|k: int| 0 <= k < perm.len() ==> input@.len() <= #[trigger] perm[k] < orig.len(),
            forall|k: int, l: int| 0 <= k < l < perm.len() ==> perm[k] != perm[l],
            forall|k: int| 0 <= k < out@.len() ==> out@[k] == orig[#[trigger] perm[k]],
            sorted_by_time_stably(out@, perm),
        decreases input@.len(),
    {
        let ghost at = input@.len() - 1;
        let p = input.pop().unwrap();
        assert(p == orig[at]);
        assert(input@ =~= orig.take(at));
        let t = match p.timestamp {
            Some((t, _)) => t,
            None => {
                assert(false);
                return;
            },
        };
        let mut k: usize = 0;
        assert forall|l: int| 0 <= l < out@.len() implies (#[trigger] out@[l]).timestamp is Some by {
            assert(out@[l] == orig[perm[l]]);
        }
        while k < out.len()
            invariant
                k <= out@.len(),
                forall|l: int| 0 <= l < out@.len() ==> (#[trigger] out@[l]).timestamp is Some,
                forall|l: int| 0 <= l < k ==> !time_le(t, time_of(#[trigger] out@[l])),
            ensures
                k <= out@.len(),
                forall|l: int| 0 <= l < k ==> !time_le(t, time_of(#[trigger] out@[l])),
                k < out@.len() ==> time_le(t, time_of(out@[k as int])),
            decreases out@.len() - k,
        {
            let u = match out[k].timestamp {
                Some((u, _)) => u,
                None => {
                    assert(false);
                    return;
                },
            };
            if time_le_exec(t, u) {
                break;
            }
            k += 1;
        }
        let ghost before = out@;
        let ghost old_perm = perm;
        out.insert(k, p);
        proof {
            perm = perm.insert(k as int, at);
            assert forall|l: int| 0 <= l < out@.len() implies out@[l] == orig[#[trigger] perm[l]] by {
                if l > k {
                    assert(out@[l] == before[l - 1]);
                }
            }
            assert forall|x: int, y: int| 0 <= x < y < out@.len() implies time_le(
                time_of(#[trigger] out@[x]),
                time_of(#[trigger] out@[y]),
            ) by {
                if x < k && y == k {
                    assert(!time_le(t, time_of(before[x])));
                } else if x == k && y > k {
                    if k < before.len() {
                        assert(time_le(t, time_of(before[k as int])));
                        assert(time_le(time_of(before[k as int]), time_of(before[y - 1])) || k == y - 1);
                    }
                } else if x < k && y > k {
                    assert(out@[x] == before[x] && out@[y] == before[y - 1]);
                } else if y < k {
                    assert(out@[x] == before[x] && out@[y] == before[y]);
                } else {
                    assert(out@[x] == before[x - 1] && out@[y] == before[y - 1]);
                }
            }
            assert forall|x: int, y: int|
                0 <= x < y < out@.len() && time_of(#[trigger] out@[x]) == time_of(#[trigger] out@[y]) implies perm[x]
                < perm[y] by {
                if x < k && y == k {
                    assert(!time_le(t, time_of(before[x])));
                } else if x == k && y > k {
                    assert(old_perm[y - 1] >= input@.len() + 1);
                } else if x < k && y > k {
                    assert(out@[x] == before[x] && out@[y] == before[y - 1]);
                } else if y < k {
                    assert(out@[x] == before[x] && out@[y] == before[y]);
                } else {
                    assert(out@[x] == before[x - 1] && out@[y] == before[y - 1]);
                }
            }
        }
    }
    assert(is_permutation(perm, orig.len() as int));
    assert(reordered(out@, orig, perm) && sorted_by_time_stably(out@, perm));
    *pictures = out;
}

/// The message for an order decided by names alone, or none when capture
/// times are needed: `name` sorts by name; `auto` sorts archives, single
/// pages and numbered sequences by name.
pub open spec fn name_choice(sort: Sort, archive: bool, ps: Seq<Picture>) -> Option<Seq<char>> {
    if sort == Sort::Name {
        Some("name：文件名自然排序"@)
    } else if sort == Sort::Auto && archive {
        Some("auto → name：压缩包按内部路径自然排序（时间戳可能不可靠）"@)
    } else if sort == Sort::Auto && (ps.len() < 2 || numbered(ps)) {
        Some("auto → name：单张图片或统一且不重复的文件名序号"@)
    } else {
        None
    }
}

/// Orders pages by name, then says whether that order is final: the
/// message to show, or none when capture times must decide
/// (see [`order_by_time`]).
pub fn sort_pictures(pictures: &mut Vec<Picture>, sort: Sort, archive: bool) -> (r: Option<String>)
    ensures
        exists|perm: Seq<int>| reordered(final(pictures)@, old(pictures)@, perm),
        names_in_order(final(pictures)@),
        match r {
            Some(m) => name_choice(sort, archive, final(pictures)@) == Some(m@),
            None => name_choice(sort, archive, final(pictures)@) is None,
        },
{
    sort_by_name(pictures);
    if sort == Sort::Name {
        return Some("name：文件名自然排序".to_owned());
    }
    if sort == Sort::Auto && archive {
        return Some("auto → name：压缩包按内部路径自然排序（时间戳可能不可靠）".to_owned());
    }
    if sort == Sort::Auto && (pictures.len() < 2 || numbered_sequence(pictures.as_slice())) {
        return Some("auto → name：单张图片或统一且不重复的文件名序号".to_owned());
    }
    None
}

/// How many pages have an EXIF capture time.
pub open spec fn exif_count(ps: Seq<Picture>) -> nat
    decreases ps.len(),
{
    if ps.len() == 0 {
        0
    } else {
        exif_count(ps.drop_last()) + if ps.last().timestamp.unwrap().1 {
            1nat
        } else {
            0nat
        }
    }
}

proof fn lemma_exif_count_bound(ps: Seq<Picture>)
    ensures
        exif_count(ps) <= ps.len(),
    decreases ps.len(),
{
    if ps.len() > 0 {
        lemma_exif_count_bound(ps.drop_last());
    }
}

/// Where the capture times came from.
pub open spec fn sources_text(ps: Seq<Picture>) -> Seq<char> {
    "EXIF "@ + decimal(exif_count(ps)) + " 张，修改时间 "@ + decimal((ps.len() - exif_count(ps)) as nat)
        + " 张；无时区 EXIF 按本机时区解释"@
}

/// Two pages share a capture time.
pub open spec fn has_equal_times(ps: Seq<Picture>) -> bool {
    exists|i: int, j: int| 0 <= i < j < ps.len() && time_of(#[trigger] ps[i]) == time_of(#[trigger] ps[j])
}

/// The message when `auto` falls back to names because of equal times.
pub open spec fn fallback_message(sources: Seq<char>) -> Seq<char> {
    "auto → name：无可靠序号且存在相同时间，退回自然排序（"@ + sources + "）；请检查预览"@
}

/// The message for an order by capture time.
pub open spec fn time_message(sort: Sort, sources: Seq<char>) -> Seq<char> {
    (if sort == Sort::Auto {
        "auto → "@
    } else {
        Seq::<char>::empty()
    }) + "time：从早到晚，同时间按自然名称排序（"@ + sources + "）"@ + (if sort == Sort::Auto {
        "；时间可能因复制或编辑改变，请检查预览"@
    } else {
        Seq::<char>::empty()
    })
}

fn count_exif(ps: &Vec<Picture>) -> (n: usize)
    requires
        all_timed(ps@),
    ensures
        n == exif_count(ps@),
{
    let mut n: usize = 0;
    let mut i: usize = 0;
    while i < ps.len()
        invariant
            i <= ps@.len(),
            all_timed(ps@),
            n == exif_count(ps@.take(i as int)),
            n <= i,
        decreases ps@.len() - i,
    {
        assert(ps@.take(i + 1).drop_last() =~= ps@.take(i as int));
        assert(ps@[i as int].timestamp is Some);
        match ps[i].timestamp {
            Some((_, exif)) => {
                if exif {
                    n += 1;
                }
            },
            None => {},
        }
        i += 1;
    }
    assert(ps@.take(ps@.len() as int) =~= ps@);
    n
}

fn equal_times(ps: &Vec<Picture>) -> (r: bool)
    requires
        all_timed(ps@),
    ensures
        r == has_equal_times(ps@),
{
    let mut i: usize = 0;
    while i < ps.len()
        invariant
            i <= ps@.len(),
            all_timed(ps@),
            forall|x: int, y: int| 0 <= x < y < ps@.len() && x < i ==> time_of(#[trigger] ps@[x]) != time_of(#[trigger] ps@[y]),
        decreases ps@.len() - i,
    {
        let mut j: usize = i + 1;
        while j < ps.len()
            invariant
                i < j <= ps@.len(),
                i < ps@.len(),
                all_timed(ps@),
                forall|x: int, y: int| 0 <= x < y < ps@.len() && x < i ==> time_of(#[trigger] ps@[x]) != time_of(#[trigger] ps@[y]),
                forall|y: int| i < y < j ==> time_of(ps@[i as int]) != time_of(#[trigger] ps@[y]),
            decreases ps@.len() - j,
        {
            assert(ps@[i as int].timestamp is Some && ps@[j as int].timestamp is Some);
            match (ps[i].timestamp, ps[j].timestamp) {
                (Some((a, _)), Some((b, _))) => {
                    if a.secs == b.secs && a.nanos == b.nanos {
                        assert(time_of(ps@[i as int]) == time_of(ps@[j as int]));
                        return true;
                    }
                },
                _ => {},
            }
            j += 1;
        }
        i += 1;
    }
    false
}

/// Orders pages by capture time once every page has one: `auto` keeps the
/// name order when two pages share a time; otherwise the pages are sorted
/// oldest first, equal times keeping their name order. Returns the message
/// to show, which counts EXIF times and modification times.
pub fn order_by_time(pictures: &mut Vec<Picture>, sort: Sort) -> (r: String)
    requires
        all_timed(old(pictures)@),
    ensures
        sort == Sort::Auto && has_equal_times(old(pictures)@) ==> {
            &&& final(pictures)@ == old(pictures)@
            &&& r@ == fallback_message(sources_text(old(pictures)@))
        },
        !(sort == Sort::Auto && has_equal_times(old(pictures)@)) ==> {
            &&& exists|perm: Seq<int>|
                reordered(final(pictures)@, old(pictures)@, perm) && sorted_by_time_stably(
                    final(pictures)@,
                    perm,
                )
            &&& r@ == time_message(sort, sources_text(old(pictures)@))
        },
{
    let exif = count_exif(pictures);
    proof {
        lemma_exif_count_bound(pictures@);
    }
    let mut sources: Vec<char> = Vec::new();
    extend_str(&mut sources, "EXIF ");
    extend_decimal(&mut sources, exif as u128);
    extend_str(&mut sources, " 张，修改时间 ");
    extend_decimal(&mut sources, (pictures.len() - exif) as u128);
    extend_str(&mut sources, " 张；无时区 EXIF 按本机时区解释");
    assert(sources@ =~= sources_text(pictures@));
    let mut m: Vec<char> = Vec::new();
    if sort == Sort::Auto && equal_times(pictures) {
        extend_str(&mut m, "auto → name：无可靠序号且存在相同时间，退回自然排序（");
        crate::text::extend_chars(&mut m, sources.as_slice());
        extend_str(&mut m, "）；请检查预览");
        assert(m@ =~= fallback_message(sources@));
        return string_of(m.as_slice());
    }
    sort_by_time(pictures);
    if sort == Sort::Auto {
        extend_str(&mut m, "auto → ");
    }
    extend_str(&mut m, "time：从早到晚，同时间按自然名称排序（");
    crate::text::extend_chars(&mut m, sources.as_slice());
    extend_str(&mut m, "）");
    if sort == Sort::Auto {
        extend_str(&mut m, "；时间可能因复制或编辑改变，请检查预览");
    }
    assert(m@ =~= time_message(sort, sources@));
    string_of(m.as_slice())
}

} // verus!
