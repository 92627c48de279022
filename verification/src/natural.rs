//! Natural ("human") ordering of file names: runs of ASCII digits compare by
//! numeric value, every other byte compares by its value.
use std::cmp::Ordering;
use vstd::prelude::*;
use vstd::string::StringSliceAdditionalSpecFns;

verus! {

/// An ASCII decimal digit.
pub open spec fn is_digit(c: u8) -> bool {
    48 <= c <= 57
}

/// The sign of `x`: -1, 0 or 1.
pub open spec fn sign(x: int) -> int {
    if x < 0 {
        -1
    } else if x > 0 {
        1
    } else {
        0
    }
}

/// Length of the run of ASCII digits at the start of `s`.
pub open spec fn digit_run(s: Seq<u8>) -> nat
    decreases s.len(),
{
    if s.len() > 0 && is_digit(s[0]) {
        1 + digit_run(s.drop_first())
    } else {
        0
    }
}

/// Length of the run of `'0'` bytes at the start of `s`.
pub open spec fn zero_run(s: Seq<u8>) -> nat
    decreases s.len(),
{
    if s.len() > 0 && s[0] == 48 {
        1 + zero_run(s.drop_first())
    } else {
        0
    }
}

/// Lexicographic byte order (a proper prefix comes first), as a sign.
pub open spec fn lex_order(a: Seq<u8>, b: Seq<u8>) -> int
    decreases a.len(),
{
    if a.len() == 0 || b.len() == 0 {
        sign(a.len() - b.len())
    } else if a[0] != b[0] {
        sign(a[0] - b[0])
    } else {
        lex_order(a.drop_first(), b.drop_first())
    }
}

/// Order of two digit runs: leading zeros are ignored, then the longer run
/// is the larger number, and runs of equal length compare digit by digit.
pub open spec fn run_order(a: Seq<u8>, b: Seq<u8>) -> int {
    let x = a.skip(zero_run(a) as int);
    let y = b.skip(zero_run(b) as int);
    if x.len() != y.len() {
        sign(x.len() - y.len())
    } else {
        lex_order(x, y)
    }
}

/// The natural order of two byte strings, as a sign (-1 less, 0 equal, 1 greater).
///
/// Where both strings continue with a digit, the two maximal digit runs are
/// compared by value; where they compare equal both runs are skipped.
/// Otherwise the next bytes are compared. When one string runs out, the
/// shorter remainder comes first.
pub open spec fn natural_order(a: Seq<u8>, b: Seq<u8>) -> int
    decreases a.len() + b.len(),
{
    if a.len() == 0 || b.len() == 0 {
        sign(a.len() - b.len())
    } else if is_digit(a[0]) && is_digit(b[0]) {
        proof {
            lemma_digit_run_bounds(a);
            lemma_digit_run_bounds(b);
        }
        let n = digit_run(a) as int;
        let m = digit_run(b) as int;
        let o = run_order(a.take(n), b.take(m));
        if o != 0 {
            o
        } else {
            natural_order(a.skip(n), b.skip(m))
        }
    } else if a[0] != b[0] {
        sign(a[0] - b[0])
    } else {
        natural_order(a.drop_first(), b.drop_first())
    }
}

/// A digit run lies within the string, and is non-empty exactly when the
/// string starts with a digit.
pub proof fn lemma_digit_run_bounds(s: Seq<u8>)
    ensures
        digit_run(s) <= s.len(),
        s.len() > 0 && is_digit(s[0]) ==> digit_run(s) >= 1,
        forall|k: int| 0 <= k < digit_run(s) ==> is_digit(#[trigger] s[k]),
        digit_run(s) < s.len() ==> !is_digit(s[digit_run(s) as int]),
    decreases s.len(),
{
    if s.len() > 0 && is_digit(s[0]) {
        lemma_digit_run_bounds(s.drop_first());
        assert forall|k: int| 0 <= k < digit_run(s) implies is_digit(#[trigger] s[k]) by {
            if k > 0 {
                assert(s[k] == s.drop_first()[k - 1]);
            }
        }
        if digit_run(s) < s.len() {
            assert(s[digit_run(s) as int] == s.drop_first()[digit_run(s.drop_first()) as int]);
        }
    }
}

/// A run of zeros lies within the string.
pub proof fn lemma_zero_run_bounds(s: Seq<u8>)
    ensures
        zero_run(s) <= s.len(),
        forall|k: int| 0 <= k < zero_run(s) ==> #[trigger] s[k] == 48,
        zero_run(s) < s.len() ==> s[zero_run(s) as int] != 48,
    decreases s.len(),
{
    if s.len() > 0 && s[0] == 48 {
        lemma_zero_run_bounds(s.drop_first());
        assert forall|k: int| 0 <= k < zero_run(s) implies #[trigger] s[k] == 48 by {
            if k > 0 {
                assert(s[k] == s.drop_first()[k - 1]);
            }
        }
        if zero_run(s) < s.len() {
            assert(s[zero_run(s) as int] == s.drop_first()[zero_run(s.drop_first()) as int]);
        }
    }
}

/// `is_ascii_digit` on a byte.
fn byte_is_digit(c: u8) -> (r: bool)
    ensures
        r == is_digit(c),
{
    48 <= c && c <= 57
}

/// Length of the digit run of `s` that starts at byte `i`.
fn digit_run_from(s: &[u8], i: usize) -> (n: usize)
    requires
        i <= s@.len(),
    ensures
        i + n <= s@.len(),
        n == digit_run(s@.skip(i as int)),
{
    let mut k = i;
    while k < s.len() && byte_is_digit(s[k])
        invariant
            i <= k <= s@.len(),
            digit_run(s@.skip(i as int)) == (k - i) + digit_run(s@.skip(k as int)),
        decreases s@.len() - k,
    {
        assert(s@.skip(k as int).drop_first() =~= s@.skip(k + 1));
        k += 1;
    }
    if k < s.len() {
        assert(s@.skip(k as int)[0] == s@[k as int]);
    }
    k - i
}

/// Length of the run of zeros of `s` in `[start, end)` that starts at `start`.
fn zero_run_from(s: &[u8], start: usize, end: usize) -> (n: usize)
    requires
        start <= end <= s@.len(),
    ensures
        start + n <= end,
        n == zero_run(s@.subrange(start as int, end as int)),
{
    let mut k = start;
    while k < end && s[k] == 48
        invariant
            start <= k <= end <= s@.len(),
            zero_run(s@.subrange(start as int, end as int)) == (k - start) + zero_run(
                s@.subrange(k as int, end as int),
            ),
        decreases end - k,
    {
        assert(s@.subrange(k as int, end as int).drop_first() =~= s@.subrange(k + 1, end as int));
        k += 1;
    }
    if k < end {
        assert(s@.subrange(k as int, end as int)[0] == s@[k as int]);
    }
    k - start
}

/// Compares `a[i..i_end]` with `b[j..j_end]` byte by byte; both ranges have the same length.
fn lex_compare_equal_len(a: &[u8], i: usize, i_end: usize, b: &[u8], j: usize, j_end: usize) -> (r: i8)
    requires
        i <= i_end <= a@.len(),
        j <= j_end <= b@.len(),
        i_end - i == j_end - j,
    ensures
        r == lex_order(a@.subrange(i as int, i_end as int), b@.subrange(j as int, j_end as int)),
{
    let mut x = i;
    let mut y = j;
    while x < i_end
        invariant
            i <= x <= i_end <= a@.len(),
            j <= y <= j_end <= b@.len(),
            x - i == y - j,
            i_end - i == j_end - j,
            lex_order(a@.subrange(i as int, i_end as int), b@.subrange(j as int, j_end as int))
                == lex_order(a@.subrange(x as int, i_end as int), b@.subrange(y as int, j_end as int)),
        decreases i_end - x,
    {
        if a[x] < b[y] {
            return -1;
        } else if a[x] > b[y] {
            return 1;
        }
        assert(a@.subrange(x as int, i_end as int).drop_first() =~= a@.subrange(x + 1, i_end as int));
        assert(b@.subrange(y as int, j_end as int).drop_first() =~= b@.subrange(y + 1, j_end as int));
        x += 1;
        y += 1;
    }
    0
}

/// Compares the digit runs `a[i..i_end]` and `b[j..j_end]` by value.
fn run_compare(a: &[u8], i: usize, i_end: usize, b: &[u8], j: usize, j_end: usize) -> (r: i8)
    requires
        i <= i_end <= a@.len(),
        j <= j_end <= b@.len(),
    ensures
        r == run_order(a@.subrange(i as int, i_end as int), b@.subrange(j as int, j_end as int)),
{
    let za = zero_run_from(a, i, i_end);
    let zb = zero_run_from(b, j, j_end);
    let la = i_end - i - za;
    let lb = j_end - j - zb;
    assert(a@.subrange(i as int, i_end as int).skip(za as int) =~= a@.subrange(i + za, i_end as int));
    assert(b@.subrange(j as int, j_end as int).skip(zb as int) =~= b@.subrange(j + zb, j_end as int));
    if la < lb {
        -1
    } else if la > lb {
        1
    } else {
        lex_compare_equal_len(a, i + za, i_end, b, j + zb, j_end)
    }
}

/// The natural order of two byte strings, as -1, 0 or 1.
pub fn natural_compare(a: &[u8], b: &[u8]) -> (r: i8)
    ensures
        r == natural_order(a@, b@),
{
    let mut i: usize = 0;
    let mut j: usize = 0;
    assert(a@.skip(0) =~= a@);
    assert(b@.skip(0) =~= b@);
    while i < a.len() && j < b.len()
        invariant
            i <= a@.len(),
            j <= b@.len(),
            natural_order(a@, b@) == natural_order(a@.skip(i as int), b@.skip(j as int)),
        decreases a@.len() + b@.len() - i - j,
    {
        let ghost sa = a@.skip(i as int);
        let ghost sb = b@.skip(j as int);
        assert(sa[0] == a@[i as int]);
        assert(sb[0] == b@[j as int]);
        if byte_is_digit(a[i]) && byte_is_digit(b[j]) {
            let n = digit_run_from(a, i);
            let m = digit_run_from(b, j);
            proof {
                lemma_digit_run_bounds(sa);
                lemma_digit_run_bounds(sb);
            }
            assert(sa.take(n as int) =~= a@.subrange(i as int, i + n));
            assert(sb.take(m as int) =~= b@.subrange(j as int, j + m));
            let o = run_compare(a, i, i + n, b, j, j + m);
            if o != 0 {
                return o;
            }
            assert(sa.skip(n as int) =~= a@.skip(i + n));
            assert(sb.skip(m as int) =~= b@.skip(j + m));
            i = i + n;
            j = j + m;
        } else {
            if a[i] < b[j] {
                return -1;
            } else if a[i] > b[j] {
                return 1;
            }
            assert(sa.drop_first() =~= a@.skip(i + 1));
            assert(sb.drop_first() =~= b@.skip(j + 1));
            i = i + 1;
            j = j + 1;
        }
    }
    let ra = a.len() - i;
    let rb = b.len() - j;
    if ra < rb {
        -1
    } else if ra > rb {
        1
    } else {
        0
    }
}

/// The `Ordering` that a sign of `natural_order` stands for.
pub open spec fn ordering_of_sign(s: int) -> Ordering {
    if s < 0 {
        Ordering::Less
    } else if s == 0 {
        Ordering::Equal
    } else {
        Ordering::Greater
    }
}

/// Natural order of two names, compared on their UTF-8 bytes: "1" < "2" < "10",
/// and "2" equals "02".
pub fn natural_cmp(a: &str, b: &str) -> (r: Ordering)
    ensures
        r == ordering_of_sign(natural_order(a.spec_bytes(), b.spec_bytes())),
{
    let s = natural_compare(a.as_bytes(), b.as_bytes());
    if s < 0 {
        Ordering::Less
    } else if s == 0 {
        Ordering::Equal
    } else {
        Ordering::Greater
    }
}


/// Decimal value of a string of ASCII digits.
pub open spec fn digits_value(s: Seq<u8>) -> nat
    decreases s.len(),
{
    if s.len() == 0 {
        0
    } else {
        ((s[0] - 48) * pow10((s.len() - 1) as nat) + digits_value(s.drop_first())) as nat
    }
}

/// `10` to the power `n`.
pub open spec fn pow10(n: nat) -> nat
    decreases n,
{
    if n == 0 {
        1
    } else {
        10 * pow10((n - 1) as nat)
    }
}

/// Every byte of `s` is an ASCII digit.
pub open spec fn all_digits(s: Seq<u8>) -> bool {
    forall|k: int| 0 <= k < s.len() ==> is_digit(#[trigger] s[k])
}

proof fn lemma_lex_order_reflexive(a: Seq<u8>)
    ensures
        lex_order(a, a) == 0,
    decreases a.len(),
{
    if a.len() > 0 {
        lemma_lex_order_reflexive(a.drop_first());
    }
}

proof fn lemma_lex_order_antisymmetric(a: Seq<u8>, b: Seq<u8>)
    ensures
        lex_order(a, b) == -lex_order(b, a),
    decreases a.len(),
{
    if a.len() > 0 && b.len() > 0 && a[0] == b[0] {
        lemma_lex_order_antisymmetric(a.drop_first(), b.drop_first());
    }
}

/// Every name is naturally equal to itself.
pub proof fn lemma_natural_order_reflexive(a: Seq<u8>)
    ensures
        natural_order(a, a) == 0,
    decreases a.len(),
{
    if a.len() > 0 {
        if is_digit(a[0]) {
            lemma_digit_run_bounds(a);
            let n = digit_run(a) as int;
            let x = a.take(n);
            lemma_lex_order_reflexive(x.skip(zero_run(x) as int));
            lemma_natural_order_reflexive(a.skip(n));
        } else {
            lemma_natural_order_reflexive(a.drop_first());
        }
    }
}

/// Swapping the two names reverses their natural order.
pub proof fn lemma_natural_order_antisymmetric(a: Seq<u8>, b: Seq<u8>)
    ensures
        natural_order(a, b) == -natural_order(b, a),
    decreases a.len() + b.len(),
{
    if a.len() > 0 && b.len() > 0 {
        if is_digit(a[0]) && is_digit(b[0]) {
            lemma_digit_run_bounds(a);
            lemma_digit_run_bounds(b);
            let n = digit_run(a) as int;
            let m = digit_run(b) as int;
            let x = a.take(n);
            let y = b.take(m);
            lemma_lex_order_antisymmetric(x.skip(zero_run(x) as int), y.skip(zero_run(y) as int));
            lemma_natural_order_antisymmetric(a.skip(n), b.skip(m));
        } else if a[0] == b[0] {
            lemma_natural_order_antisymmetric(a.drop_first(), b.drop_first());
        }
    }
}

proof fn lemma_pow10_positive(n: nat)
    ensures
        pow10(n) >= 1,
    decreases n,
{
    if n > 0 {
        lemma_pow10_positive((n - 1) as nat);
    }
}

/// The value of `n` digits is below `10^n`.
proof fn lemma_digits_value_bound(s: Seq<u8>)
    requires
        all_digits(s),
    ensures
        digits_value(s) < pow10(s.len()),
    decreases s.len(),
{
    if s.len() > 0 {
        let p = pow10((s.len() - 1) as nat);
        let d = s[0] - 48;
        assert(is_digit(s[0]));
        assert(all_digits(s.drop_first())) by {
            assert forall|k: int| 0 <= k < s.drop_first().len() implies is_digit(
                #[trigger] s.drop_first()[k],
            ) by {
                assert(s.drop_first()[k] == s[k + 1]);
            }
        }
        lemma_digits_value_bound(s.drop_first());
        assert(d * p + p <= 10 * p) by (nonlinear_arith)
            requires
                0 <= d <= 9,
                p >= 0,
        ;
    }
}

/// A leading digit of at least one makes the value at least `10^(n-1)`.
proof fn lemma_digits_value_lower(s: Seq<u8>)
    requires
        s.len() > 0,
        49 <= s[0] <= 57,
    ensures
        digits_value(s) >= pow10((s.len() - 1) as nat),
{
    let p = pow10((s.len() - 1) as nat);
    let d = s[0] - 48;
    assert(d * p >= p) by (nonlinear_arith)
        requires
            d >= 1,
            p >= 0,
    ;
}

proof fn lemma_all_digits_skip(s: Seq<u8>, k: int)
    requires
        all_digits(s),
        0 <= k <= s.len(),
    ensures
        all_digits(s.skip(k)),
{
    assert forall|i: int| 0 <= i < s.skip(k).len() implies is_digit(#[trigger] s.skip(k)[i]) by {
        assert(s.skip(k)[i] == s[k + i]);
    }
}

/// Leading zeros do not change the value.
proof fn lemma_digits_value_skip_zeros(s: Seq<u8>)
    ensures
        digits_value(s) == digits_value(s.skip(zero_run(s) as int)),
    decreases s.len(),
{
    if s.len() > 0 && s[0] == 48 {
        lemma_digits_value_skip_zeros(s.drop_first());
        lemma_zero_run_bounds(s.drop_first());
        assert(s.drop_first().skip(zero_run(s.drop_first()) as int) =~= s.skip(zero_run(s) as int));
    } else {
        assert(s.skip(0) =~= s);
    }
}

/// On digit strings of equal length, byte order is value order.
proof fn lemma_lex_order_is_value_order(x: Seq<u8>, y: Seq<u8>)
    requires
        x.len() == y.len(),
        all_digits(x),
        all_digits(y),
    ensures
        lex_order(x, y) == sign(digits_value(x) - digits_value(y)),
    decreases x.len(),
{
    if x.len() > 0 {
        let p = pow10((x.len() - 1) as nat);
        lemma_all_digits_skip(x, 1);
        lemma_all_digits_skip(y, 1);
        assert(x.skip(1) =~= x.drop_first());
        assert(y.skip(1) =~= y.drop_first());
        lemma_digits_value_bound(x.drop_first());
        lemma_digits_value_bound(y.drop_first());
        lemma_lex_order_is_value_order(x.drop_first(), y.drop_first());
        assert(is_digit(x[0]) && is_digit(y[0]));
        let dx = x[0] - 48;
        let dy = y[0] - 48;
        let rx = digits_value(x.drop_first());
        let ry = digits_value(y.drop_first());
        if dx < dy {
            assert(dx * p + rx < dy * p + ry) by (nonlinear_arith)
                requires
                    dx + 1 <= dy,
                    0 <= rx < p,
                    0 <= ry,
            ;
        } else if dx > dy {
            assert(dx * p + rx > dy * p + ry) by (nonlinear_arith)
                requires
                    dy + 1 <= dx,
                    0 <= ry < p,
                    0 <= rx,
            ;
        }
    }
}

/// Digit runs compare by the value of their numbers.
pub proof fn lemma_run_order_is_value_order(a: Seq<u8>, b: Seq<u8>)
    requires
        all_digits(a),
        all_digits(b),
    ensures
        run_order(a, b) == sign(digits_value(a) - digits_value(b)),
{
    let x = a.skip(zero_run(a) as int);
    let y = b.skip(zero_run(b) as int);
    lemma_zero_run_bounds(a);
    lemma_zero_run_bounds(b);
    lemma_digits_value_skip_zeros(a);
    lemma_digits_value_skip_zeros(b);
    lemma_all_digits_skip(a, zero_run(a) as int);
    lemma_all_digits_skip(b, zero_run(b) as int);
    lemma_digits_value_bound(x);
    lemma_digits_value_bound(y);
    if x.len() > 0 {
        assert(x[0] == a[zero_run(a) as int]);
        assert(is_digit(x[0]));
        lemma_digits_value_lower(x);
    }
    if y.len() > 0 {
        assert(y[0] == b[zero_run(b) as int]);
        assert(is_digit(y[0]));
        lemma_digits_value_lower(y);
    }
    if x.len() < y.len() {
        lemma_pow10_monotone(x.len(), (y.len() - 1) as nat);
    } else if x.len() > y.len() {
        lemma_pow10_monotone(y.len(), (x.len() - 1) as nat);
    } else {
        lemma_lex_order_is_value_order(x, y);
    }
}

/// The digit run at the start of `a + q` is `a`, when `a` is all digits
/// and `q` does not start with one.
proof fn lemma_digit_run_of_number(a: Seq<u8>, q: Seq<u8>)
    requires
        all_digits(a),
        q.len() > 0 ==> !is_digit(q[0]),
    ensures
        digit_run(a + q) == a.len(),
        (a + q).take(a.len() as int) == a,
        (a + q).skip(a.len() as int) == q,
{
    let s = a + q;
    lemma_digit_run_bounds(s);
    let d = digit_run(s) as int;
    if d < a.len() {
        assert(s[d] == a[d]);
    } else if d > a.len() {
        assert(s[a.len() as int] == q[0]);
    }
    assert(s.take(a.len() as int) =~= a);
    assert(s.skip(a.len() as int) =~= q);
}

/// Names made only of digits are in natural order exactly when their numbers are:
/// "2" < "10", "007" equals "7", and numbers of any length compare correctly.
pub proof fn lemma_natural_order_of_numbers(a: Seq<u8>, b: Seq<u8>)
    requires
        a.len() > 0,
        b.len() > 0,
        all_digits(a),
        all_digits(b),
    ensures
        natural_order(a, b) == sign(digits_value(a) - digits_value(b)),
{
    lemma_digit_run_of_number(a, Seq::<u8>::empty());
    lemma_digit_run_of_number(b, Seq::<u8>::empty());
    assert(a + Seq::<u8>::empty() =~= a);
    assert(b + Seq::<u8>::empty() =~= b);
    assert(is_digit(a[0]) && is_digit(b[0]));
    lemma_run_order_is_value_order(a, b);
    assert(natural_order(Seq::<u8>::empty(), Seq::<u8>::empty()) == 0);
}

/// A prefix after which a digit run of what follows cannot join one of its
/// own: it is empty or does not end in a digit.
pub open spec fn closed_prefix(p: Seq<u8>) -> bool {
    p.len() == 0 || !is_digit(p.last())
}

/// A digit run that ends inside `p` is the same run in `p + x`.
proof fn lemma_digit_run_prefix(p: Seq<u8>, x: Seq<u8>)
    requires
        digit_run(p) < p.len(),
    ensures
        digit_run(p + x) == digit_run(p),
{
    let s = p + x;
    lemma_digit_run_bounds(s);
    lemma_digit_run_bounds(p);
    let d = digit_run(s) as int;
    let n = digit_run(p) as int;
    if d < n {
        assert(s[d] == p[d]);
    } else if d > n {
        assert(s[n] == p[n]);
    }
}

/// Names that share a prefix which is empty or does not end in a digit
/// compare like what follows it: digit runs inside the prefix are equal on
/// both sides and end before it does.
pub proof fn lemma_natural_order_common_prefix(p: Seq<u8>, x: Seq<u8>, y: Seq<u8>)
    requires
        closed_prefix(p),
    ensures
        natural_order(p + x, p + y) == natural_order(x, y),
    decreases p.len(),
{
    if p.len() == 0 {
        assert(p + x =~= x);
        assert(p + y =~= y);
    } else if !is_digit(p[0]) {
        let q = p.drop_first();
        assert(q.len() > 0 ==> q.last() == p.last());
        lemma_natural_order_common_prefix(q, x, y);
        assert((p + x)[0] == p[0]);
        assert((p + y)[0] == p[0]);
        assert((p + x).drop_first() =~= q + x);
        assert((p + y).drop_first() =~= q + y);
    } else {
        lemma_digit_run_bounds(p);
        let n = digit_run(p) as int;
        if n >= p.len() {
            assert(is_digit(p[p.len() - 1]));
        }
        lemma_digit_run_prefix(p, x);
        lemma_digit_run_prefix(p, y);
        assert((p + x)[0] == p[0]);
        assert((p + y)[0] == p[0]);
        assert((p + x).take(n) =~= p.take(n));
        assert((p + y).take(n) =~= p.take(n));
        lemma_lex_order_reflexive(stripped(p.take(n)));
        let q = p.skip(n);
        assert(q.last() == p.last());
        assert((p + x).skip(n) =~= q + x);
        assert((p + y).skip(n) =~= q + y);
        lemma_natural_order_common_prefix(q, x, y);
    }
}

/// Numbered names such as `page7.png` and `page10.png`: after a shared
/// prefix that is empty or does not end in a digit, names whose numbers
/// differ are in the order of those numbers, whatever follows; names whose
/// numbers are equal (`07` and `7`) compare like what follows the numbers.
pub proof fn lemma_numbered_names_in_numeric_order(
    p: Seq<u8>,
    a: Seq<u8>,
    q: Seq<u8>,
    b: Seq<u8>,
    r: Seq<u8>,
)
    requires
        closed_prefix(p),
        a.len() > 0,
        b.len() > 0,
        all_digits(a),
        all_digits(b),
        q.len() > 0 ==> !is_digit(q[0]),
        r.len() > 0 ==> !is_digit(r[0]),
    ensures
        digits_value(a) != digits_value(b) ==> natural_order(p + a + q, p + b + r) == sign(
            digits_value(a) - digits_value(b),
        ),
        digits_value(a) == digits_value(b) ==> natural_order(p + a + q, p + b + r) == natural_order(
            q,
            r,
        ),
{
    assert(p + a + q =~= p + (a + q));
    assert(p + b + r =~= p + (b + r));
    lemma_natural_order_common_prefix(p, a + q, b + r);
    lemma_digit_run_of_number(a, q);
    lemma_digit_run_of_number(b, r);
    assert((a + q)[0] == a[0] && (b + r)[0] == b[0]);
    assert(is_digit(a[0]) && is_digit(b[0]));
    lemma_run_order_is_value_order(a, b);
}

proof fn lemma_pow10_monotone(i: nat, j: nat)
    requires
        i <= j,
    ensures
        pow10(i) <= pow10(j),
    decreases j,
{
    if i < j {
        lemma_pow10_monotone(i, (j - 1) as nat);
        lemma_pow10_positive((j - 1) as nat);
    }
}

proof fn lemma_lex_order_zero(a: Seq<u8>, b: Seq<u8>)
    requires
        lex_order(a, b) == 0,
    ensures
        a == b,
    decreases a.len(),
{
    if a.len() > 0 && b.len() > 0 {
        lemma_lex_order_zero(a.drop_first(), b.drop_first());
        assert(a =~= seq![a[0]] + a.drop_first());
        assert(b =~= seq![b[0]] + b.drop_first());
    } else {
        assert(a.len() == 0 && b.len() == 0);
        assert(a =~= b);
    }
}

proof fn lemma_lex_order_transitive(a: Seq<u8>, b: Seq<u8>, c: Seq<u8>)
    requires
        lex_order(a, b) < 0,
        lex_order(b, c) < 0,
    ensures
        lex_order(a, c) < 0,
    decreases a.len(),
{
    if a.len() > 0 && b.len() > 0 && c.len() > 0 && a[0] == b[0] && b[0] == c[0] {
        lemma_lex_order_transitive(a.drop_first(), b.drop_first(), c.drop_first());
    }
}

/// The digits of a run without its leading zeros.
pub open spec fn stripped(a: Seq<u8>) -> Seq<u8> {
    a.skip(zero_run(a) as int)
}

proof fn lemma_run_order_zero(a: Seq<u8>, b: Seq<u8>)
    requires
        run_order(a, b) == 0,
    ensures
        stripped(a) == stripped(b),
{
    lemma_lex_order_zero(stripped(a), stripped(b));
}

proof fn lemma_run_order_transitive(a: Seq<u8>, b: Seq<u8>, c: Seq<u8>)
    requires
        run_order(a, b) < 0,
        run_order(b, c) < 0,
    ensures
        run_order(a, c) < 0,
{
    let x = stripped(a);
    let y = stripped(b);
    let z = stripped(c);
    if x.len() == y.len() && y.len() == z.len() {
        lemma_lex_order_transitive(x, y, z);
    }
}

/// Names that are naturally equal compare alike with every third name.
pub proof fn lemma_natural_order_congruent(a: Seq<u8>, b: Seq<u8>, c: Seq<u8>)
    requires
        natural_order(a, b) == 0,
    ensures
        natural_order(a, c) == natural_order(b, c),
    decreases a.len() + b.len() + c.len(),
{
    if a.len() == 0 || b.len() == 0 {
        assert(a.len() == 0 && b.len() == 0);
        assert(a =~= b);
    } else if c.len() == 0 {
    } else {
        let da = is_digit(a[0]);
        let db = is_digit(b[0]);
        let dc = is_digit(c[0]);
        if da && db {
            lemma_digit_run_bounds(a);
            lemma_digit_run_bounds(b);
            let n = digit_run(a) as int;
            let m = digit_run(b) as int;
            lemma_run_order_zero(a.take(n), b.take(m));
            if dc {
                lemma_digit_run_bounds(c);
                let p = digit_run(c) as int;
                assert(run_order(a.take(n), c.take(p)) == run_order(b.take(m), c.take(p)));
                if run_order(b.take(m), c.take(p)) == 0 {
                    lemma_natural_order_congruent(a.skip(n), b.skip(m), c.skip(p));
                }
            }
        } else if !da && !db {
            assert(a[0] == b[0]);
            if !dc && b[0] == c[0] {
                lemma_natural_order_congruent(a.drop_first(), b.drop_first(), c.drop_first());
            }
        }
    }
}

/// Natural order is transitive for "comes before".
pub proof fn lemma_natural_order_transitive(a: Seq<u8>, b: Seq<u8>, c: Seq<u8>)
    requires
        natural_order(a, b) < 0,
        natural_order(b, c) < 0,
    ensures
        natural_order(a, c) < 0,
    decreases a.len() + b.len() + c.len(),
{
    if a.len() == 0 || b.len() == 0 || c.len() == 0 {
    } else {
        let da = is_digit(a[0]);
        let db = is_digit(b[0]);
        let dc = is_digit(c[0]);
        if da && db && dc {
            lemma_digit_run_bounds(a);
            lemma_digit_run_bounds(b);
            lemma_digit_run_bounds(c);
            let n = digit_run(a) as int;
            let m = digit_run(b) as int;
            let p = digit_run(c) as int;
            let r1 = run_order(a.take(n), b.take(m));
            let r2 = run_order(b.take(m), c.take(p));
            if r1 < 0 && r2 < 0 {
                lemma_run_order_transitive(a.take(n), b.take(m), c.take(p));
            } else if r1 == 0 {
                lemma_run_order_zero(a.take(n), b.take(m));
                if r2 == 0 {
                    lemma_natural_order_transitive(a.skip(n), b.skip(m), c.skip(p));
                }
            } else if r2 == 0 {
                lemma_run_order_zero(b.take(m), c.take(p));
            }
        } else if !da && !db && !dc {
            if a[0] == b[0] && b[0] == c[0] {
                lemma_natural_order_transitive(a.drop_first(), b.drop_first(), c.drop_first());
            }
        } else if da && db && !dc {
        } else if !da && db && !dc {
        } else if !da && !db && dc {
        } else if da && !db && !dc {
            if b[0] == c[0] {
            }
        }
    }
}

/// Natural order is a total preorder: "no later than" is transitive.
pub proof fn lemma_natural_order_total_preorder(a: Seq<u8>, b: Seq<u8>, c: Seq<u8>)
    requires
        natural_order(a, b) <= 0,
        natural_order(b, c) <= 0,
    ensures
        natural_order(a, c) <= 0,
{
    if natural_order(a, b) == 0 {
        lemma_natural_order_congruent(a, b, c);
    } else if natural_order(b, c) == 0 {
        lemma_natural_order_antisymmetric(b, c);
        lemma_natural_order_congruent(c, b, a);
        lemma_natural_order_antisymmetric(a, c);
        lemma_natural_order_antisymmetric(a, b);
    } else {
        lemma_natural_order_transitive(a, b, c);
    }
}

} // verus!
