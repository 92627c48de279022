//! The fixed-layout EPUB 3 book: XML escaping, page geometry, and the
//! documents and entries of the archive, in the order they are written.
use crate::picture::Picture;
use crate::capture::{civil_seconds, valid_datetime};
use crate::text::{decimal, digit_char, extend_chars, extend_decimal, extend_str, string_of};
use vstd::prelude::*;

verus! {

/// The XML form of one character: `&`, `<`, `>`, `"` and `'` become entities.
pub open spec fn entity(c: char) -> Seq<char> {
    if c == '&' {
        seq!['&', 'a', 'm', 'p', ';']
    } else if c == '<' {
        seq!['&', 'l', 't', ';']
    } else if c == '>' {
        seq!['&', 'g', 't', ';']
    } else if c == '"' {
        seq!['&', 'q', 'u', 'o', 't', ';']
    } else if c == '\'' {
        seq!['&', 'a', 'p', 'o', 's', ';']
    } else {
        seq![c]
    }
}

/// `s` with every character replaced by its XML form.
pub open spec fn escape_spec(s: Seq<char>) -> Seq<char>
    decreases s.len(),
{
    if s.len() == 0 {
        s
    } else {
        escape_spec(s.drop_last()) + entity(s.last())
    }
}

/// A character that must not appear unescaped in XML text or attributes.
pub open spec fn is_markup(c: char) -> bool {
    c == '<' || c == '>' || c == '"' || c == '\''
}

fn push_entity(v: &mut Vec<char>, c: char)
    ensures
        final(v)@ == old(v)@ + entity(c),
{
    if c == '&' {
        extend_chars(v, &['&', 'a', 'm', 'p', ';']);
    } else if c == '<' {
        extend_chars(v, &['&', 'l', 't', ';']);
    } else if c == '>' {
        extend_chars(v, &['&', 'g', 't', ';']);
    } else if c == '"' {
        extend_chars(v, &['&', 'q', 'u', 'o', 't', ';']);
    } else if c == '\'' {
        extend_chars(v, &['&', 'a', 'p', 'o', 's', ';']);
    } else {
        v.push(c);
        assert(final(v)@ =~= old(v)@ + seq![c]);
    }
}

/// Escapes text for XML: `&`, `<`, `>`, `"` and `'` become `&amp;`,
/// `&lt;`, `&gt;`, `&quot;` and `&apos;`.
pub fn escape(value: &str) -> (r: String)
    ensures
        r@ == escape_spec(value@),
{
    let v = crate::text::chars_of(value);
    let mut out: Vec<char> = Vec::new();
    let mut i: usize = 0;
    while i < v.len()
        invariant
            i <= v@.len(),
            out@ == escape_spec(v@.take(i as int)),
        decreases v@.len() - i,
    {
        assert(v@.take(i + 1).drop_last() =~= v@.take(i as int));
        push_entity(&mut out, v[i]);
        i += 1;
    }
    assert(v@.take(v@.len() as int) =~= v@);
    string_of(out.as_slice())
}

/// Escaped text holds no `<`, `>`, `"` or `'`, so it cannot close or open
/// markup or an attribute.
pub proof fn lemma_escape_has_no_markup(s: Seq<char>)
    ensures
        forall|k: int| 0 <= k < escape_spec(s).len() ==> !is_markup(#[trigger] escape_spec(s)[k]),
    decreases s.len(),
{
    if s.len() > 0 {
        lemma_escape_has_no_markup(s.drop_last());
        let prev = escape_spec(s.drop_last());
        let e = entity(s.last());
        assert forall|k: int| 0 <= k < escape_spec(s).len() implies !is_markup(#[trigger] escape_spec(s)[k]) by {
            if k < prev.len() {
                assert(escape_spec(s)[k] == prev[k]);
            } else {
                assert(escape_spec(s)[k] == e[k - prev.len()]);
            }
        }
    }
}

/// `s` starts with `p`.
pub open spec fn starts_with(s: Seq<char>, p: Seq<char>) -> bool {
    p.len() <= s.len() && s.take(p.len() as int) == p
}

/// Reads XML text back, left to right: each of `&amp;`, `&lt;`, `&gt;`,
/// `&quot;` and `&apos;` stands for its character, every other character
/// for itself.
pub open spec fn unescape(s: Seq<char>) -> Seq<char>
    decreases s.len(),
{
    if s.len() == 0 {
        s
    } else if starts_with(s, seq!['&', 'a', 'm', 'p', ';']) {
        seq!['&'] + unescape(s.skip(5))
    } else if starts_with(s, seq!['&', 'l', 't', ';']) {
        seq!['<'] + unescape(s.skip(4))
    } else if starts_with(s, seq!['&', 'g', 't', ';']) {
        seq!['>'] + unescape(s.skip(4))
    } else if starts_with(s, seq!['&', 'q', 'u', 'o', 't', ';']) {
        seq!['"'] + unescape(s.skip(6))
    } else if starts_with(s, seq!['&', 'a', 'p', 'o', 's', ';']) {
        seq!['\''] + unescape(s.skip(6))
    } else {
        seq![s[0]] + unescape(s.skip(1))
    }
}

/// Escaping text piece by piece gives the escaped whole.
pub proof fn lemma_escape_append(a: Seq<char>, b: Seq<char>)
    ensures
        escape_spec(a + b) == escape_spec(a) + escape_spec(b),
    decreases b.len(),
{
    if b.len() == 0 {
        assert(a + b =~= a);
        assert(escape_spec(a) + escape_spec(b) =~= escape_spec(a));
    } else {
        lemma_escape_append(a, b.drop_last());
        assert((a + b).drop_last() =~= a + b.drop_last());
        assert((a + b).last() == b.last());
        assert(escape_spec(a + b) =~= escape_spec(a) + escape_spec(b));
    }
}

/// Reading back the XML form of `c` followed by more text gives `c`
/// followed by what that text reads as.
proof fn lemma_unescape_entity(c: char, rest: Seq<char>)
    ensures
        unescape(entity(c) + rest) == seq![c] + unescape(rest),
{
    let s = entity(c) + rest;
    let n = entity(c).len() as int;
    assert(s.skip(n) =~= rest);
    assert(s.take(n) =~= entity(c));
    reveal_with_fuel(unescape, 2);
    if c == '&' {
        assert(starts_with(s, seq!['&', 'a', 'm', 'p', ';']));
    } else if c == '<' {
        assert(s[1] == 'l');
        assert(starts_with(s, seq!['&', 'l', 't', ';']));
    } else if c == '>' {
        assert(s[1] == 'g');
        assert(starts_with(s, seq!['&', 'g', 't', ';']));
    } else if c == '"' {
        assert(s[1] == 'q');
        assert(starts_with(s, seq!['&', 'q', 'u', 'o', 't', ';']));
    } else if c == '\'' {
        assert(s[1] == 'a' && s[2] == 'p');
        assert(!starts_with(s, seq!['&', 'a', 'm', 'p', ';'])) by {
            assert(s.take(5)[2] == 'p');
        }
        assert(starts_with(s, seq!['&', 'a', 'p', 'o', 's', ';']));
    } else {
        assert(s[0] == c);
    }
}

/// Reading escaped text back gives the text: [`escape`] loses nothing.
pub proof fn lemma_unescape_escape(s: Seq<char>)
    ensures
        unescape(escape_spec(s)) == s,
    decreases s.len(),
{
    if s.len() > 0 {
        let rest = s.skip(1);
        assert(s =~= seq![s[0]] + rest);
        lemma_escape_append(seq![s[0]], rest);
        let one = seq![s[0]];
        assert(one.drop_last() =~= Seq::<char>::empty());
        assert(one.last() == s[0]);
        assert(escape_spec(one.drop_last()) =~= Seq::<char>::empty());
        assert(escape_spec(one) =~= entity(s[0]));
        lemma_unescape_entity(s[0], escape_spec(rest));
        lemma_unescape_escape(rest);
    }
}

/// Text without `&`, `<`, `>`, `"` or `'` is its own XML form.
pub proof fn lemma_escape_plain(s: Seq<char>)
    requires
        forall|k: int| 0 <= k < s.len() ==> !(#[trigger] s[k] == '&' || is_markup(s[k])),
    ensures
        escape_spec(s) == s,
    decreases s.len(),
{
    if s.len() > 0 {
        lemma_escape_plain(s.drop_last());
        assert(!(s[s.len() - 1] == '&' || is_markup(s[s.len() - 1])));
        assert(s.drop_last() + seq![s.last()] =~= s);
    }
}

/// `str::replace`: every occurrence of `pat` in `s`, found from the left
/// without overlapping, replaced by `rep`.
pub open spec fn replace_all(s: Seq<char>, pat: Seq<char>, rep: Seq<char>) -> Seq<char>
    decreases s.len(),
{
    if s.len() == 0 || pat.len() == 0 {
        s
    } else if starts_with(s, pat) {
        rep + replace_all(s.skip(pat.len() as int), pat, rep)
    } else {
        seq![s[0]] + replace_all(s.skip(1), pat, rep)
    }
}

/// The character that the `k`-th replacement of [`replace_chain`] gives back
/// (`'`, `"`, `>`, `<`, then `&`).
pub open spec fn chain_char(k: int) -> char {
    if k == 0 {
        '\''
    } else if k == 1 {
        '"'
    } else if k == 2 {
        '>'
    } else if k == 3 {
        '<'
    } else {
        '&'
    }
}

/// Reads XML text back with the replacements `&apos;` → `'`, `&quot;` →
/// `"`, `&gt;` → `>`, `&lt;` → `<` and `&amp;` → `&`, one after another.
pub open spec fn replace_chain(e: Seq<char>) -> Seq<char> {
    let e1 = replace_all(e, entity(chain_char(0)), seq![chain_char(0)]);
    let e2 = replace_all(e1, entity(chain_char(1)), seq![chain_char(1)]);
    let e3 = replace_all(e2, entity(chain_char(2)), seq![chain_char(2)]);
    let e4 = replace_all(e3, entity(chain_char(3)), seq![chain_char(3)]);
    replace_all(e4, entity(chain_char(4)), seq![chain_char(4)])
}

/// `c` is given back by one of the first `k` replacements.
pub open spec fn decoded_by(c: char, k: int) -> bool {
    exists|i: int| 0 <= i < k && chain_char(i) == c
}

/// The form of `c` after the first `k` replacements.
pub open spec fn stage_token(c: char, k: int) -> Seq<char> {
    if decoded_by(c, k) {
        seq![c]
    } else {
        entity(c)
    }
}

/// The text `s` after the first `k` replacements of its escaped form.
pub open spec fn stage_text(s: Seq<char>, k: int) -> Seq<char>
    decreases s.len(),
{
    if s.len() == 0 {
        s
    } else {
        stage_token(s[0], k) + stage_text(s.skip(1), k)
    }
}

/// Text without `&` passes through a replacement of a pattern that starts with `&`.
proof fn lemma_replace_passes(u: Seq<char>, t: Seq<char>, pat: Seq<char>, rep: Seq<char>)
    requires
        pat.len() > 0,
        pat[0] == '&',
        forall|i: int| 0 <= i < u.len() ==> u[i] != '&',
    ensures
        replace_all(u + t, pat, rep) == u + replace_all(t, pat, rep),
    decreases u.len(),
{
    if u.len() == 0 {
        assert(u + t =~= t);
        assert(u + replace_all(t, pat, rep) =~= replace_all(t, pat, rep));
    } else {
        let s = u + t;
        assert(s[0] == u[0]);
        assert(!starts_with(s, pat)) by {
            if starts_with(s, pat) {
                assert(s.take(pat.len() as int)[0] == s[0]);
            }
        }
        lemma_replace_passes(u.skip(1), t, pat, rep);
        assert(s.skip(1) =~= u.skip(1) + t);
        assert(u =~= seq![u[0]] + u.skip(1));
        assert(replace_all(s, pat, rep) == seq![s[0]] + replace_all(s.skip(1), pat, rep));
        assert(seq![u[0]] + (u.skip(1) + replace_all(t, pat, rep)) =~= u + replace_all(t, pat, rep));
    }
}

/// The `k`-th replacement turns the text after `k` replacements into the
/// text after `k + 1`.
proof fn lemma_chain_step(s: Seq<char>, k: int)
    requires
        0 <= k < 5,
    ensures
        replace_all(stage_text(s, k), entity(chain_char(k)), seq![chain_char(k)]) == stage_text(
            s,
            k + 1,
        ),
    decreases s.len(),
{
    let pat = entity(chain_char(k));
    let rep = seq![chain_char(k)];
    assert(pat.len() > 0 && pat[0] == '&');
    if s.len() == 0 {
    } else {
        let c = s[0];
        let tok = stage_token(c, k);
        let rest = stage_text(s.skip(1), k);
        lemma_chain_step(s.skip(1), k);
        assert(stage_text(s, k) == tok + rest);
        assert(stage_text(s, k + 1) == stage_token(c, k + 1) + stage_text(s.skip(1), k + 1));
        let whole = tok + rest;
        if c == chain_char(k) {
            assert(!decoded_by(c, k)) by {
                if decoded_by(c, k) {
                    let i = choose|i: int| 0 <= i < k && chain_char(i) == c;
                    assert(chain_char(i) != chain_char(k));
                }
            }
            assert(decoded_by(c, k + 1));
            assert(tok == pat);
            assert(whole.take(pat.len() as int) =~= pat);
            assert(whole.skip(pat.len() as int) =~= rest);
            assert(replace_all(whole, pat, rep) == rep + replace_all(rest, pat, rep));
        } else {
            assert(decoded_by(c, k + 1) == decoded_by(c, k)) by {
                if decoded_by(c, k + 1) {
                    let i = choose|i: int| 0 <= i < k + 1 && chain_char(i) == c;
                    assert(i != k);
                }
            }
            assert(stage_token(c, k + 1) == tok);
            if decoded_by(c, k) || entity(c) == seq![c] {
                assert(tok =~= seq![c]);
                assert(c != '&') by {
                    if c == '&' {
                        assert(entity(c) != seq![c]);
                        let i = choose|i: int| 0 <= i < k && chain_char(i) == c;
                        assert(chain_char(i) != '&');
                    }
                }
                lemma_replace_passes(tok, rest, pat, rep);
            } else {
                assert(tok == entity(c));
                assert(tok.len() >= 4 && tok[0] == '&');
                assert(!starts_with(whole, pat)) by {
                    if starts_with(whole, pat) {
                        let w = whole.take(pat.len() as int);
                        assert(w[1] == tok[1] && w[2] == tok[2] && w[1] == pat[1] && w[2] == pat[2]);
                    }
                }
                let tail = tok.skip(1);
                assert forall|i: int| 0 <= i < tail.len() implies tail[i] != '&' by {
                    assert(tail[i] == tok[i + 1]);
                }
                lemma_replace_passes(tail, rest, pat, rep);
                assert(whole.skip(1) =~= tail + rest);
                assert(whole[0] == '&');
                assert(replace_all(whole, pat, rep) == seq![whole[0]] + replace_all(whole.skip(1), pat, rep));
                assert(seq![tok[0]] + tail =~= tok);
                assert(seq![tok[0]] + (tail + replace_all(rest, pat, rep)) =~= tok + replace_all(rest, pat, rep));
            }
        }
    }
}

/// The escaped text is the text before any replacement.
proof fn lemma_stage_start(s: Seq<char>)
    ensures
        stage_text(s, 0) == escape_spec(s),
    decreases s.len(),
{
    if s.len() > 0 {
        lemma_stage_start(s.skip(1));
        assert(s =~= seq![s[0]] + s.skip(1));
        lemma_escape_append(seq![s[0]], s.skip(1));
        let one = seq![s[0]];
        assert(one.drop_last() =~= Seq::<char>::empty());
        assert(one.last() == s[0]);
        assert(escape_spec(one.drop_last()) =~= Seq::<char>::empty());
        assert(escape_spec(one) =~= entity(s[0]));
        assert(!decoded_by(s[0], 0));
    }
}

/// After all five replacements, every character is itself again.
proof fn lemma_stage_end(s: Seq<char>)
    ensures
        stage_text(s, 5) == s,
    decreases s.len(),
{
    if s.len() > 0 {
        lemma_stage_end(s.skip(1));
        let c = s[0];
        if !decoded_by(c, 5) {
            assert(c != '\'' && c != '"' && c != '>' && c != '<' && c != '&') by {
                if c == '\'' {
                    assert(chain_char(0) == c);
                } else if c == '"' {
                    assert(chain_char(1) == c);
                } else if c == '>' {
                    assert(chain_char(2) == c);
                } else if c == '<' {
                    assert(chain_char(3) == c);
                } else if c == '&' {
                    assert(chain_char(4) == c);
                }
            }
        }
        assert(stage_token(c, 5) =~= seq![c]);
        assert(seq![c] + s.skip(1) =~= s);
    }
}

/// Undoing the five entities with `str::replace`, `&apos;`, `&quot;`,
/// `&gt;`, `&lt;` and lastly `&amp;`, gives escaped text back unchanged.
pub proof fn lemma_escape_replace_chain(s: Seq<char>)
    ensures
        replace_chain(escape_spec(s)) == s,
{
    lemma_stage_start(s);
    lemma_chain_step(s, 0);
    lemma_chain_step(s, 1);
    lemma_chain_step(s, 2);
    lemma_chain_step(s, 3);
    lemma_chain_step(s, 4);
    lemma_stage_end(s);
}

/// `n` copies of `c`.
pub open spec fn repeat(c: char, n: nat) -> Seq<char> {
    Seq::new(n, |_i: int| c)
}

/// The progress bar `[###-----] done/total`: twenty cells, of which
/// `done * 20 / total` are filled.
pub open spec fn progress_bar_spec(done: nat, total: nat) -> Seq<char> {
    let filled = (done * 20 / total) as nat;
    seq!['['] + repeat('#', filled) + repeat('-', (20 - filled) as nat) + seq![']', ' '] + decimal(done)
        + seq!['/'] + decimal(total)
}

fn push_repeat(v: &mut Vec<char>, c: char, n: usize)
    ensures
        final(v)@ == old(v)@ + repeat(c, n as nat),
{
    let mut i: usize = 0;
    while i < n
        invariant
            i <= n,
            v@ == old(v)@ + repeat(c, i as nat),
        decreases n - i,
    {
        v.push(c);
        assert(repeat(c, (i + 1) as nat) =~= repeat(c, i as nat).push(c));
        i += 1;
    }
}

/// The progress bar for `done` of `total` steps.
pub fn progress_bar(done: usize, total: usize) -> (r: String)
    requires
        0 < total,
        done <= total,
        done * 20 <= usize::MAX,
    ensures
        r@ == progress_bar_spec(done as nat, total as nat),
{
    let filled = done * 20 / total;
    proof {
        lemma_progress_bar_cells(done as nat, total as nat);
    }
    let mut v: Vec<char> = Vec::new();
    v.push('[');
    push_repeat(&mut v, '#', filled);
    push_repeat(&mut v, '-', 20 - filled);
    v.push(']');
    v.push(' ');
    extend_decimal(&mut v, done as u128);
    v.push('/');
    extend_decimal(&mut v, total as u128);
    assert(v@ =~= progress_bar_spec(done as nat, total as nat));
    string_of(v.as_slice())
}

/// The bar always has twenty cells, and is full exactly when all steps are done.
pub proof fn lemma_progress_bar_cells(done: nat, total: nat)
    requires
        0 < total,
        done <= total,
    ensures
        ({
            let f = done * 20 / total;
            &&& 0 <= f <= 20
            &&& (f == 20 <==> done == total)
            &&& (f == 0 <==> done * 20 < total)
        }),
{
    let f = done * 20 / total;
    assert(0 <= f <= 20) by (nonlinear_arith)
        requires
            done <= total,
            0 < total,
            f == done * 20 / total,
    ;
    assert(f == 20 <==> done == total) by (nonlinear_arith)
        requires
            done <= total,
            0 < total,
            f == done * 20 / total,
    ;
    assert(f == 0 <==> done * 20 < total) by (nonlinear_arith)
        requires
            0 < total,
            f == done * 20 / total,
    ;
}

/// The page size for an image: a wide or square image is centred on a
/// portrait page of its width and half as much again in height (2:3,
/// saturating); a tall image keeps its size.
pub open spec fn page_size_spec(width: u32, height: u32) -> (u32, u32) {
    if width >= height {
        let h = width + width / 2 + width % 2;
        (width, if h > u32::MAX {
            u32::MAX
        } else {
            h as u32
        })
    } else {
        (width, height)
    }
}

/// The page size for an image of `width` by `height`.
pub fn page_size(width: u32, height: u32) -> (r: (u32, u32))
    ensures
        r == page_size_spec(width, height),
        r.0 == width,
        width < height ==> r.1 == height,
        width >= height && width + (width + 1) / 2 <= u32::MAX ==> r.1 == width + (width + 1) / 2,
        width >= height && width + (width + 1) / 2 > u32::MAX ==> r.1 == u32::MAX,
{
    if width >= height {
        (width, width.saturating_add(width / 2 + width % 2))
    } else {
        (width, height)
    }
}

/// A tall image keeps its own size; a wide or square one gets a page of its
/// width and `width * 3 / 2` (rounded up, at most `u32::MAX`) in height.
pub proof fn lemma_page_size(width: u32, height: u32)
    ensures
        width < height ==> page_size_spec(width, height) == (width, height),
        width >= height ==> page_size_spec(width, height).0 == width,
        width >= height ==> page_size_spec(width, height).1 as int == if 3 * width as int + 1 >= 2 * (
        u32::MAX as int) + 2 {
            u32::MAX as int
        } else {
            (3 * width as int + 1) / 2
        },
{
}

/// Every page holds its whole image, and wide or square images sit on a
/// portrait page at least 2:3 (unless the height saturates).
pub proof fn lemma_page_fits_image(width: u32, height: u32)
    ensures
        page_size_spec(width, height).0 == width,
        page_size_spec(width, height).1 >= height,
        width >= height && page_size_spec(width, height).1 < u32::MAX ==> 2 * page_size_spec(
            width,
            height,
        ).1 >= 3 * width,
{
}

/// An entry of the book archive, in writing order.
pub enum EpubEntry {
    /// A text document stored under `name`.
    Text { name: String, content: String },
    /// The image of page `page` (counting from zero) stored under `name`.
    Image { name: String, page: usize },
}

/// What an entry holds, as mathematical values.
pub enum EntryView {
    Text(Seq<char>, Seq<char>),
    Image(Seq<char>, nat),
}

/// The view of an entry.
pub open spec fn entry_view(e: EpubEntry) -> EntryView {
    match e {
        EpubEntry::Text { name, content } => EntryView::Text(name@, content@),
        EpubEntry::Image { name, page } => EntryView::Image(name@, page as nat),
    }
}

/// The XML declaration line that starts every document.
pub open spec fn xml_head() -> Seq<char> {
    "<?xml version=\"1.0\" encoding=\"UTF-8\"?>\n"@
}

/// `META-INF/container.xml`, pointing at the package document.
pub open spec fn container_xml() -> Seq<char> {
    xml_head()
        + "<container version=\"1.0\" xmlns=\"urn:oasis:names:tc:opendocument:xmlns:container\"><rootfiles><rootfile full-path=\"EPUB/package.opf\" media-type=\"application/oebps-package+xml\"/></rootfiles></container>"@
}

/// `images/{n}.{ext}`: where page `n` (counting from one) keeps its image.
pub open spec fn image_name(n: nat, ext: Seq<char>) -> Seq<char> {
    "images/"@ + decimal(n) + "."@ + ext
}

/// The document of page `n`: the image scaled to a `w` by `h` page.
pub open spec fn page_xhtml(n: nat, image: Seq<char>, w: nat, h: nat) -> Seq<char> {
    xml_head() + "<html xmlns=\"http://www.w3.org/1999/xhtml\" lang=\"zh\" xml:lang=\"zh\"><head><title>第 "@
        + decimal(n) + " 页</title><meta name=\"viewport\" content=\"width="@ + decimal(w) + ", height="@
        + decimal(h) + "\"/><style>html,body{margin:0;padding:0;width:"@ + decimal(w) + "px;height:"@
        + decimal(h) + "px;}img{display:block;width:"@ + decimal(w) + "px;height:"@ + decimal(h)
        + "px;object-fit:contain;}</style></head><body><img src=\"../"@ + image + "\" alt=\"第 "@
        + decimal(n) + " 页\"/></body></html>"@
}

/// The manifest items of page `n`: its image (the first one is the cover)
/// and its document.
pub open spec fn manifest_item(n: nat, image: Seq<char>, media: Seq<char>) -> Seq<char> {
    "<item id=\"image"@ + decimal(n) + "\" href=\""@ + image + "\" media-type=\""@ + media + "\""@
        + (if n == 1 {
        " properties=\"cover-image\""@
    } else {
        Seq::<char>::empty()
    }) + "/><item id=\"page"@ + decimal(n) + "\" href=\"pages/"@ + decimal(n)
        + ".xhtml\" media-type=\"application/xhtml+xml\"/>"@
}

/// The spine entry of page `n`: one page, never a spread.
pub open spec fn spine_item(n: nat) -> Seq<char> {
    "<itemref idref=\"page"@ + decimal(n) + "\" properties=\"rendition:spread-none\"/>"@
}

/// The table-of-contents entry of page `n`.
pub open spec fn toc_item(n: nat) -> Seq<char> {
    "<li><a href=\"pages/"@ + decimal(n) + ".xhtml\">第 "@ + decimal(n) + " 页</a></li>"@
}

/// The manifest item of the navigation document.
pub open spec fn nav_item() -> Seq<char> {
    "<item id=\"nav\" href=\"nav.xhtml\" media-type=\"application/xhtml+xml\" properties=\"nav\"/>"@
}

/// The manifest of the first `k` pages, after the navigation item.
pub open spec fn manifest_upto(ps: Seq<Picture>, k: int) -> Seq<char>
    decreases k,
{
    if k <= 0 {
        nav_item()
    } else {
        manifest_upto(ps, k - 1) + manifest_item(
            k as nat,
            image_name(k as nat, ps[k - 1].extension@),
            ps[k - 1].media_type@,
        )
    }
}

/// The spine of the first `k` pages.
pub open spec fn spine_upto(k: int) -> Seq<char>
    decreases k,
{
    if k <= 0 {
        Seq::<char>::empty()
    } else {
        spine_upto(k - 1) + spine_item(k as nat)
    }
}

/// The table of contents of the first `k` pages.
pub open spec fn toc_upto(k: int) -> Seq<char>
    decreases k,
{
    if k <= 0 {
        Seq::<char>::empty()
    } else {
        toc_upto(k - 1) + toc_item(k as nat)
    }
}

/// The archive entries of the first `k` pages: each page's document, then its image.
pub open spec fn page_entries_upto(ps: Seq<Picture>, k: int) -> Seq<EntryView>
    decreases k,
{
    if k <= 0 {
        Seq::<EntryView>::empty()
    } else {
        let n = k as nat;
        let p = ps[k - 1];
        let image = image_name(n, p.extension@);
        let size = page_size_spec(p.width, p.height);
        page_entries_upto(ps, k - 1) + seq![
            EntryView::Text(
                "EPUB/pages/"@ + decimal(n) + ".xhtml"@,
                page_xhtml(n, image, size.0 as nat, size.1 as nat),
            ),
            EntryView::Image("EPUB/"@ + image, (k - 1) as nat),
        ]
    }
}

/// The navigation document: the table of contents and the start of the body.
pub open spec fn nav_xhtml(title: Seq<char>, toc: Seq<char>) -> Seq<char> {
    xml_head()
        + "<html xmlns=\"http://www.w3.org/1999/xhtml\" xmlns:epub=\"http://www.idpf.org/2007/ops\" lang=\"zh\" xml:lang=\"zh\"><head><title>"@
        + title + "</title></head><body><nav epub:type=\"toc\"><h1>目录</h1><ol>"@ + toc
        + "</ol></nav><nav epub:type=\"landmarks\"><h2>阅读起点</h2><ol><li><a epub:type=\"bodymatter\" href=\"pages/1.xhtml\">正文</a></li></ol></nav></body></html>"@
}

/// `rtl` or `ltr`.
pub open spec fn direction(rtl: bool) -> Seq<char> {
    if rtl {
        "rtl"@
    } else {
        "ltr"@
    }
}

/// The package document: metadata for a pre-paginated, spread-less book,
/// the manifest, and the spine in the reading direction.
pub open spec fn package_opf(
    identifier: nat,
    title: Seq<char>,
    modified: Seq<char>,
    manifest: Seq<char>,
    rtl: bool,
    spine: Seq<char>,
) -> Seq<char> {
    xml_head()
        + "<package xmlns=\"http://www.idpf.org/2007/opf\" version=\"3.0\" unique-identifier=\"book-id\" prefix=\"rendition: http://www.idpf.org/vocab/rendition/#\"><metadata xmlns:dc=\"http://purl.org/dc/elements/1.1/\"><dc:identifier id=\"book-id\">urn:bookforge:"@
        + decimal(identifier) + "</dc:identifier><dc:title>"@ + title
        + "</dc:title><dc:language>zh</dc:language><meta property=\"dcterms:modified\">"@ + modified
        + "</meta><meta property=\"rendition:layout\">pre-paginated</meta><meta property=\"rendition:spread\">none</meta></metadata><manifest>"@
        + manifest + "</manifest><spine page-progression-direction=\""@ + direction(rtl) + "\">"@ + spine
        + "</spine></package>"@
}

/// All entries of the book, in writing order: `mimetype`, the container,
/// each page's document and image, the navigation document, the package document.
pub open spec fn book_entries(
    title: Seq<char>,
    ps: Seq<Picture>,
    rtl: bool,
    identifier: nat,
    modified: Seq<char>,
) -> Seq<EntryView> {
    let t = escape_spec(title);
    let n = ps.len() as int;
    seq![
        EntryView::Text("mimetype"@, "application/epub+zip"@),
        EntryView::Text("META-INF/container.xml"@, container_xml()),
    ] + page_entries_upto(ps, n) + seq![
        EntryView::Text("EPUB/nav.xhtml"@, nav_xhtml(t, toc_upto(n))),
        EntryView::Text(
            "EPUB/package.opf"@,
            package_opf(identifier, t, modified, manifest_upto(ps, n), rtl, spine_upto(n)),
        ),
    ]
}

fn text_entry(name: Vec<char>, content: Vec<char>) -> (e: EpubEntry)
    ensures
        entry_view(e) == EntryView::Text(name@, content@),
{
    EpubEntry::Text { name: string_of(name.as_slice()), content: string_of(content.as_slice()) }
}

fn push_image_name(v: &mut Vec<char>, n: usize, ext: &String)
    ensures
        final(v)@ == old(v)@ + image_name(n as nat, ext@),
{
    extend_str(v, "images/");
    extend_decimal(v, n as u128);
    extend_str(v, ".");
    extend_str(v, ext.as_str());
    assert(final(v)@ =~= old(v)@ + image_name(n as nat, ext@));
}

fn page_document(n: usize, image: &Vec<char>, w: u32, h: u32) -> (r: Vec<char>)
    ensures
        r@ == page_xhtml(n as nat, image@, w as nat, h as nat),
{
    let mut v: Vec<char> = Vec::new();
    extend_str(&mut v, "<?xml version=\"1.0\" encoding=\"UTF-8\"?>\n");
    extend_str(&mut v, "<html xmlns=\"http://www.w3.org/1999/xhtml\" lang=\"zh\" xml:lang=\"zh\"><head><title>第 ");
    extend_decimal(&mut v, n as u128);
    extend_str(&mut v, " 页</title><meta name=\"viewport\" content=\"width=");
    extend_decimal(&mut v, w as u128);
    extend_str(&mut v, ", height=");
    extend_decimal(&mut v, h as u128);
    extend_str(&mut v, "\"/><style>html,body{margin:0;padding:0;width:");
    extend_decimal(&mut v, w as u128);
    extend_str(&mut v, "px;height:");
    extend_decimal(&mut v, h as u128);
    extend_str(&mut v, "px;}img{display:block;width:");
    extend_decimal(&mut v, w as u128);
    extend_str(&mut v, "px;height:");
    extend_decimal(&mut v, h as u128);
    extend_str(&mut v, "px;object-fit:contain;}</style></head><body><img src=\"../");
    extend_chars(&mut v, image.as_slice());
    extend_str(&mut v, "\" alt=\"第 ");
    extend_decimal(&mut v, n as u128);
    extend_str(&mut v, " 页\"/></body></html>");
    assert(v@ =~= page_xhtml(n as nat, image@, w as nat, h as nat));
    v
}

fn push_manifest_item(v: &mut Vec<char>, n: usize, image: &Vec<char>, media: &String)
    ensures
        final(v)@ == old(v)@ + manifest_item(n as nat, image@, media@),
{
    extend_str(v, "<item id=\"image");
    extend_decimal(v, n as u128);
    extend_str(v, "\" href=\"");
    extend_chars(v, image.as_slice());
    extend_str(v, "\" media-type=\"");
    extend_str(v, media.as_str());
    extend_str(v, "\"");
    if n == 1 {
        extend_str(v, " properties=\"cover-image\"");
    }
    extend_str(v, "/><item id=\"page");
    extend_decimal(v, n as u128);
    extend_str(v, "\" href=\"pages/");
    extend_decimal(v, n as u128);
    extend_str(v, ".xhtml\" media-type=\"application/xhtml+xml\"/>");
    assert(final(v)@ =~= old(v)@ + manifest_item(n as nat, image@, media@));
}

/// `n` (below 100) as two decimal digits.
pub open spec fn two_digits(n: int) -> Seq<char> {
    seq![digit_char((n / 10) as nat), digit_char((n % 10) as nat)]
}

/// `n` (below 10000) as four decimal digits.
pub open spec fn four_digits(n: int) -> Seq<char> {
    two_digits(n / 100) + two_digits(n % 100)
}

/// The calendar fields of `unix_secs` seconds after the epoch, in UTC, with
/// a year that RFC 3339 can write (0 to 9999).
pub open spec fn utc_fields(f: (int, int, int, int, int, int), unix_secs: int) -> bool {
    &&& valid_datetime(f.0, f.1, f.2, f.3, f.4, f.5)
    &&& 0 <= f.0 <= 9999
    &&& civil_seconds(f.0, f.1, f.2, f.3, f.4, f.5) == unix_secs
}

/// RFC 3339 text in UTC for whole seconds: `YYYY-MM-DDTHH:MM:SSZ`.
pub open spec fn rfc3339_of(f: (int, int, int, int, int, int)) -> Seq<char> {
    four_digits(f.0) + seq!['-'] + two_digits(f.1) + seq!['-'] + two_digits(f.2) + seq!['T']
        + two_digits(f.3) + seq![':'] + two_digits(f.4) + seq![':'] + two_digits(f.5) + seq!['Z']
}

/// The moment `unix_secs` seconds after the epoch as RFC 3339 text in UTC;
/// none when its year is outside 0 to 9999.
pub open spec fn rfc3339_text(unix_secs: int) -> Option<Seq<char>> {
    if exists|f: (int, int, int, int, int, int)| utc_fields(f, unix_secs) {
        Some(rfc3339_of(choose|f: (int, int, int, int, int, int)| utc_fields(f, unix_secs)))
    } else {
        None
    }
}

/// Formats a moment, given in whole seconds since the Unix epoch, as RFC 3339
/// in UTC (`OffsetDateTime::from_unix_timestamp`, then `format(&Rfc3339)`).
/// The contract claims what the time crate's source does: the date and time
/// of the proleptic Gregorian calendar, written `YYYY-MM-DDTHH:MM:SSZ`, and
/// none exactly when the year is outside 0 to 9999 (where either the
/// timestamp is out of range or the format refuses the year).
#[verifier::external_body]
fn format_rfc3339(unix_secs: i64) -> (r: Option<String>)
    ensures
        match r {
            Some(s) => rfc3339_text(unix_secs as int) == Some(s@),
            None => rfc3339_text(unix_secs as int) is None,
        },
{
    let t = time::OffsetDateTime::from_unix_timestamp(unix_secs).ok()?;
    t.format(&time::format_description::well_known::Rfc3339).ok()
}

/// Why the book's entries could not be made.
#[derive(Debug, PartialEq, Eq, Structural, Clone, Copy)]
pub enum PackageError {
    /// The modification time cannot be written as RFC 3339.
    BadTime,
}

/// The view of a list of entries.
pub open spec fn entries_view(es: Seq<EpubEntry>) -> Seq<EntryView> {
    es.map_values(|e: EpubEntry| entry_view(e))
}

/// The entries of the book `title` with the pages `pictures` (in reading
/// direction `rtl`), identified by `identifier` and last modified at
/// `now_secs` (seconds since the Unix epoch), in writing order. Fails only
/// when the modification time cannot be formatted.
pub fn book_entries_exec(
    title: &str,
    pictures: &Vec<Picture>,
    rtl: bool,
    identifier: u128,
    now_secs: i64,
) -> (r: Result<Vec<EpubEntry>, PackageError>)
    ensures
        match rfc3339_text(now_secs as int) {
            None => r == Err::<Vec<EpubEntry>, PackageError>(PackageError::BadTime),
            Some(m) => r matches Ok(es) && entries_view(es@) == book_entries(
                title@,
                pictures@,
                rtl,
                identifier as nat,
                m,
            ),
        },
{
    let modified = match format_rfc3339(now_secs) {
        None => {
            return Err(PackageError::BadTime);
        },
        Some(m) => m,
    };
    let t = escape(title);
    let mut entries: Vec<EpubEntry> = Vec::new();
    entries.push(text_entry(crate::text::chars_of("mimetype"), crate::text::chars_of("application/epub+zip")));
    let mut container: Vec<char> = Vec::new();
    extend_str(&mut container, "<?xml version=\"1.0\" encoding=\"UTF-8\"?>\n");
    extend_str(
        &mut container,
        "<container version=\"1.0\" xmlns=\"urn:oasis:names:tc:opendocument:xmlns:container\"><rootfiles><rootfile full-path=\"EPUB/package.opf\" media-type=\"application/oebps-package+xml\"/></rootfiles></container>",
    );
    entries.push(text_entry(crate::text::chars_of("META-INF/container.xml"), container));
    let ghost head = entries_view(entries@);
    assert(head =~= seq![
        EntryView::Text("mimetype"@, "application/epub+zip"@),
        EntryView::Text("META-INF/container.xml"@, container_xml()),
    ]);
    let mut manifest: Vec<char> = Vec::new();
    extend_str(
        &mut manifest,
        "<item id=\"nav\" href=\"nav.xhtml\" media-type=\"application/xhtml+xml\" properties=\"nav\"/>",
    );
    let mut spine: Vec<char> = Vec::new();
    let mut toc: Vec<char> = Vec::new();
    assert(spine@ =~= spine_upto(0));
    assert(toc@ =~= toc_upto(0));
    let mut i: usize = 0;
    while i < pictures.len()
        invariant
            i <= pictures@.len(),
            entries_view(entries@) == head + page_entries_upto(pictures@, i as int),
            manifest@ == manifest_upto(pictures@, i as int),
            spine@ == spine_upto(i as int),
            toc@ == toc_upto(i as int),
        decreases pictures@.len() - i,
    {
        let n = i + 1;
        let p = &pictures[i];
        let mut image: Vec<char> = Vec::new();
        push_image_name(&mut image, n, &p.extension);
        push_manifest_item(&mut manifest, n, &image, &p.media_type);
        extend_str(&mut spine, "<itemref idref=\"page");
        extend_decimal(&mut spine, n as u128);
        extend_str(&mut spine, "\" properties=\"rendition:spread-none\"/>");
        extend_str(&mut toc, "<li><a href=\"pages/");
        extend_decimal(&mut toc, n as u128);
        extend_str(&mut toc, ".xhtml\">第 ");
        extend_decimal(&mut toc, n as u128);
        extend_str(&mut toc, " 页</a></li>");
        let (w, h) = page_size(p.width, p.height);
        let doc = page_document(n, &image, w, h);
        let mut page_name: Vec<char> = Vec::new();
        extend_str(&mut page_name, "EPUB/pages/");
        extend_decimal(&mut page_name, n as u128);
        extend_str(&mut page_name, ".xhtml");
        let mut stored: Vec<char> = Vec::new();
        extend_str(&mut stored, "EPUB/");
        extend_chars(&mut stored, image.as_slice());
        let ghost before = entries@;
        entries.push(text_entry(page_name, doc));
        entries.push(EpubEntry::Image { name: string_of(stored.as_slice()), page: i });
        proof {
            assert(spine@ =~= spine_upto(n as int));
            assert(toc@ =~= toc_upto(n as int));
            assert(entries@ =~= before + seq![entries@[before.len() as int], entries@[before.len() as int + 1]]);
            assert(entries_view(entries@) =~= entries_view(before) + seq![
                entry_view(entries@[before.len() as int]),
                entry_view(entries@[before.len() as int + 1]),
            ]);
            assert(entries_view(entries@) =~= head + page_entries_upto(pictures@, n as int));
        }
        i = n;
    }
    let mut nav: Vec<char> = Vec::new();
    extend_str(&mut nav, "<?xml version=\"1.0\" encoding=\"UTF-8\"?>\n");
    extend_str(
        &mut nav,
        "<html xmlns=\"http://www.w3.org/1999/xhtml\" xmlns:epub=\"http://www.idpf.org/2007/ops\" lang=\"zh\" xml:lang=\"zh\"><head><title>",
    );
    extend_str(&mut nav, t.as_str());
    extend_str(&mut nav, "</title></head><body><nav epub:type=\"toc\"><h1>目录</h1><ol>");
    extend_chars(&mut nav, toc.as_slice());
    extend_str(
        &mut nav,
        "</ol></nav><nav epub:type=\"landmarks\"><h2>阅读起点</h2><ol><li><a epub:type=\"bodymatter\" href=\"pages/1.xhtml\">正文</a></li></ol></nav></body></html>",
    );
    assert(nav@ =~= nav_xhtml(t@, toc@));
    let mut opf: Vec<char> = Vec::new();
    extend_str(&mut opf, "<?xml version=\"1.0\" encoding=\"UTF-8\"?>\n");
    extend_str(
        &mut opf,
        "<package xmlns=\"http://www.idpf.org/2007/opf\" version=\"3.0\" unique-identifier=\"book-id\" prefix=\"rendition: http://www.idpf.org/vocab/rendition/#\"><metadata xmlns:dc=\"http://purl.org/dc/elements/1.1/\"><dc:identifier id=\"book-id\">urn:bookforge:",
    );
    extend_decimal(&mut opf, identifier);
    extend_str(&mut opf, "</dc:identifier><dc:title>");
    extend_str(&mut opf, t.as_str());
    extend_str(&mut opf, "</dc:title><dc:language>zh</dc:language><meta property=\"dcterms:modified\">");
    extend_str(&mut opf, modified.as_str());
    extend_str(
        &mut opf,
        "</meta><meta property=\"rendition:layout\">pre-paginated</meta><meta property=\"rendition:spread\">none</meta></metadata><manifest>",
    );
    extend_chars(&mut opf, manifest.as_slice());
    extend_str(&mut opf, "</manifest><spine page-progression-direction=\"");
    if rtl {
        extend_str(&mut opf, "rtl");
    } else {
        extend_str(&mut opf, "ltr");
    }
    extend_str(&mut opf, "\">");
    extend_chars(&mut opf, spine.as_slice());
    extend_str(&mut opf, "</spine></package>");
    assert(opf@ =~= package_opf(identifier as nat, t@, modified@, manifest@, rtl, spine@));
    let ghost before = entries@;
    entries.push(text_entry(crate::text::chars_of("EPUB/nav.xhtml"), nav));
    entries.push(text_entry(crate::text::chars_of("EPUB/package.opf"), opf));
    proof {
        assert(entries@ =~= before + seq![entries@[before.len() as int], entries@[before.len() as int + 1]]);
        assert(entries_view(entries@) =~= entries_view(before) + seq![
            entry_view(entries@[before.len() as int]),
            entry_view(entries@[before.len() as int + 1]),
        ]);
        assert(entries_view(entries@) =~= book_entries(
            title@,
            pictures@,
            rtl,
            identifier as nat,
            modified@,
        ));
    }
    Ok(entries)
}

/// The archive entries of one page (counting from one): its document, then its image.
pub open spec fn page_pair(ps: Seq<Picture>, n: nat) -> (EntryView, EntryView) {
    let p = ps[n - 1];
    let image = image_name(n, p.extension@);
    let size = page_size_spec(p.width, p.height);
    (
        EntryView::Text("EPUB/pages/"@ + decimal(n) + ".xhtml"@, page_xhtml(n, image, size.0 as nat, size.1 as nat)),
        EntryView::Image("EPUB/"@ + image, (n - 1) as nat),
    )
}

proof fn lemma_page_entries_upto(ps: Seq<Picture>, k: int)
    requires
        0 <= k <= ps.len(),
    ensures
        page_entries_upto(ps, k).len() == 2 * k,
        forall|j: int|
            0 <= j < k ==> page_entries_upto(ps, k)[2 * j] == (#[trigger] page_pair(ps, (j + 1) as nat)).0
                && page_entries_upto(ps, k)[2 * j + 1] == page_pair(ps, (j + 1) as nat).1,
    decreases k,
{
    if k > 0 {
        lemma_page_entries_upto(ps, k - 1);
        let prev = page_entries_upto(ps, k - 1);
        let all = page_entries_upto(ps, k);
        assert forall|j: int| 0 <= j < k implies all[2 * j] == (#[trigger] page_pair(ps, (j + 1) as nat)).0
            && all[2 * j + 1] == page_pair(ps, (j + 1) as nat).1 by {
            if j < k - 1 {
                assert(all[2 * j] == prev[2 * j]);
                assert(all[2 * j + 1] == prev[2 * j + 1]);
            }
        }
    }
}

/// The book has one document and one image per picture, in page order,
/// between the container and the navigation document: page `j + 1` shows
/// picture `j`, so the first picture is the first page (and, by
/// [`manifest_item`], the cover).
pub proof fn lemma_book_pages(
    title: Seq<char>,
    ps: Seq<Picture>,
    rtl: bool,
    identifier: nat,
    modified: Seq<char>,
)
    ensures
        book_entries(title, ps, rtl, identifier, modified).len() == 2 * ps.len() + 4,
        forall|j: int|
            0 <= j < ps.len() ==> book_entries(title, ps, rtl, identifier, modified)[2 * j + 2] == (
            #[trigger] page_pair(ps, (j + 1) as nat)).0 && book_entries(
                title,
                ps,
                rtl,
                identifier,
                modified,
            )[2 * j + 3] == page_pair(ps, (j + 1) as nat).1,
{
    let n = ps.len() as int;
    lemma_page_entries_upto(ps, n);
    let all = book_entries(title, ps, rtl, identifier, modified);
    let mid = page_entries_upto(ps, n);
    assert forall|j: int| 0 <= j < n implies all[2 * j + 2] == (#[trigger] page_pair(ps, (j + 1) as nat)).0
        && all[2 * j + 3] == page_pair(ps, (j + 1) as nat).1 by {
        assert(all[2 * j + 2] == mid[2 * j]);
        assert(all[2 * j + 3] == mid[2 * j + 1]);
    }
}

} // verus!
