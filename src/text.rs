//! Character-level helpers shared by the parsers: splitting, prefixes, whitespace.
use vstd::prelude::*;

verus! {

/// The characters of `s`, in order.
pub(crate) fn chars_of(s: &str) -> (r: Vec<char>)
    ensures
        r@ == s@,
{
    let mut r: Vec<char> = Vec::new();
    for c in it: s.chars()
        invariant
            r@ == it.seq().take(it.index() as int),
    {
        r.push(c);
    }
    r
}

/// Relies on `String`'s `FromIterator<&char>`: the string of these characters, in order.
#[verifier::external_body]
pub(crate) fn string_of(c: &[char]) -> (r: String)
    ensures
        r@ == c@,
{
    c.iter().collect()
}

/// The pieces of `s` between occurrences of `sep`; there is always at least one.
pub open spec fn split_on(s: Seq<char>, sep: char) -> Seq<Seq<char>>
    decreases s.len(),
{
    if s.len() == 0 {
        seq![Seq::empty()]
    } else {
        let p = split_on(s.drop_last(), sep);
        if s.last() == sep {
            p.push(Seq::empty())
        } else {
            p.update(p.len() - 1, p.last().push(s.last()))
        }
    }
}

/// The views of a list of character vectors.
pub open spec fn views(v: Seq<Vec<char>>) -> Seq<Seq<char>> {
    v.map_values(|x: Vec<char>| x@)
}

pub proof fn lemma_split_on_nonempty(s: Seq<char>, sep: char)
    ensures
        split_on(s, sep).len() >= 1,
    decreases s.len(),
{
    if s.len() > 0 {
        lemma_split_on_nonempty(s.drop_last(), sep);
    }
}

/// Splits `s` at every occurrence of `sep`.
pub fn split_chars(s: &[char], sep: char) -> (r: Vec<Vec<char>>)
    ensures
        views(r@) == split_on(s@, sep),
{
    let mut done: Vec<Vec<char>> = Vec::new();
    let mut cur: Vec<char> = Vec::new();
    let mut i: usize = 0;
    assert(s@.subrange(0, 0) =~= Seq::<char>::empty());
    assert(views(done@).push(cur@) =~= seq![Seq::<char>::empty()]);
    while i < s.len()
        invariant
            0 <= i <= s.len(),
            views(done@).push(cur@) == split_on(s@.subrange(0, i as int), sep),
        decreases s.len() - i,
    {
        let c = s[i];
        let ghost pre = s@.subrange(0, i as int);
        assert(s@.subrange(0, i + 1).drop_last() =~= pre);
        if c == sep {
            let ghost d = views(done@);
            done.push(cur);
            assert(views(done@) =~= d.push(split_on(pre, sep).last()));
            cur = Vec::new();
            assert(views(done@).push(cur@) =~= split_on(pre, sep).push(Seq::empty()));
        } else {
            let ghost c0 = cur@;
            cur.push(c);
            assert(views(done@).push(cur@) =~= split_on(pre, sep).update(
                split_on(pre, sep).len() - 1,
                c0.push(c),
            ));
        }
        i += 1;
    }
    assert(s@.subrange(0, s.len() as int) =~= s@);
    let ghost d = views(done@);
    done.push(cur);
    assert(views(done@) =~= d.push(cur@));
    done
}

/// True when `s` holds `lit` starting at position `p`.
pub open spec fn holds_at(s: Seq<char>, p: int, lit: Seq<char>) -> bool {
    0 <= p && p + lit.len() <= s.len() && s.subrange(p, p + lit.len()) == lit
}

/// Tests whether `s` holds `lit` starting at position `p`.
pub fn chars_at(s: &[char], p: usize, lit: &[char]) -> (r: bool)
    ensures
        r == holds_at(s@, p as int, lit@),
{
    if p > s.len() || lit.len() > s.len() - p {
        return false;
    }
    let mut k: usize = 0;
    while k < lit.len()
        invariant
            p + lit.len() <= s.len(),
            0 <= k <= lit.len(),
            forall|j: int| 0 <= j < k ==> s@[p + j] == lit@[j],
        decreases lit.len() - k,
    {
        if s[p + k] != lit[k] {
            assert(s@.subrange(p as int, p + lit.len())[k as int] != lit@[k as int]);
            return false;
        }
        k += 1;
    }
    assert(s@.subrange(p as int, p + lit.len()) =~= lit@);
    true
}

/// Tests two character slices for equality.
pub fn chars_eq(a: &[char], b: &[char]) -> (r: bool)
    ensures
        r == (a@ == b@),
{
    if a.len() != b.len() {
        return false;
    }
    let r = chars_at(a, 0, b);
    assert(a@.subrange(0, b@.len() as int) =~= a@);
    r
}

/// White space as Unicode's `White_Space` property lists it.
pub open spec fn is_space(c: char) -> bool {
    c == ' ' || c == '\t' || c == '\n' || c == '\x0B' || c == '\x0C' || c == '\r'
        || c == '\u{85}' || c == '\u{A0}' || c == '\u{1680}' || ('\u{2000}' <= c
        && c <= '\u{200A}') || c == '\u{2028}' || c == '\u{2029}' || c == '\u{202F}'
        || c == '\u{205F}' || c == '\u{3000}'
}

/// Tests a character for white space.
pub fn space(c: char) -> (r: bool)
    ensures
        r == is_space(c),
{
    c == ' ' || c == '\t' || c == '\n' || c == '\x0B' || c == '\x0C' || c == '\r'
        || c == '\u{85}' || c == '\u{A0}' || c == '\u{1680}' || ('\u{2000}' <= c
        && c <= '\u{200A}') || c == '\u{2028}' || c == '\u{2029}' || c == '\u{202F}'
        || c == '\u{205F}' || c == '\u{3000}'
}

/// The position of the first character of `s` at or after `p` that is not white space.
pub open spec fn skip_space(s: Seq<char>, p: int) -> int
    decreases s.len() - p,
{
    if 0 <= p < s.len() && is_space(s[p]) {
        skip_space(s, p + 1)
    } else {
        p
    }
}

/// Finds the first character at or after `p` that is not white space.
pub fn skip_spaces(s: &[char], p: usize) -> (r: usize)
    requires
        p <= s.len(),
    ensures
        r == skip_space(s@, p as int),
        p <= r <= s.len(),
{
    let mut q = p;
    while q < s.len() && space(s[q])
        invariant
            p <= q <= s.len(),
            skip_space(s@, q as int) == skip_space(s@, p as int),
        decreases s.len() - q,
    {
        q += 1;
    }
    q
}

/// The end of the line that holds position `p`: the next line feed, or the end.
pub open spec fn line_end(s: Seq<char>, p: int) -> int
    decreases s.len() - p,
{
    if 0 <= p < s.len() && s[p] != '\n' {
        line_end(s, p + 1)
    } else {
        p
    }
}

/// Finds the end of the line that holds position `p`.
pub fn find_line_end(s: &[char], p: usize) -> (r: usize)
    requires
        p <= s.len(),
    ensures
        r == line_end(s@, p as int),
        p <= r <= s.len(),
{
    let mut q = p;
    while q < s.len() && s[q] != '\n'
        invariant
            p <= q <= s.len(),
            line_end(s@, q as int) == line_end(s@, p as int),
        decreases s.len() - q,
    {
        q += 1;
    }
    q
}

/// Copies the characters `s[a..b]`.
pub fn slice_chars(s: &[char], a: usize, b: usize) -> (r: Vec<char>)
    requires
        a <= b <= s.len(),
    ensures
        r@ == s@.subrange(a as int, b as int),
{
    let mut r: Vec<char> = Vec::new();
    let mut i = a;
    while i < b
        invariant
            a <= i <= b <= s.len(),
            r@ == s@.subrange(a as int, i as int),
        decreases b - i,
    {
        r.push(s[i]);
        i += 1;
        assert(r@ =~= s@.subrange(a as int, i as int));
    }
    r
}

/// A line without one trailing carriage return.
pub open spec fn strip_cr(l: Seq<char>) -> Seq<char> {
    if l.len() > 0 && l.last() == '\r' {
        l.drop_last()
    } else {
        l
    }
}

/// Each line without one trailing carriage return.
pub open spec fn strip_cr_all(p: Seq<Seq<char>>) -> Seq<Seq<char>> {
    p.map_values(|l: Seq<char>| strip_cr(l))
}

/// The lines of `s` as `str::lines` gives them: split at line feeds, a carriage
/// return before a line feed dropped, and no empty last line after a final line feed.
pub open spec fn lines_of(s: Seq<char>) -> Seq<Seq<char>> {
    let p = split_on(s, '\n');
    let body = strip_cr_all(p.drop_last());
    if p.last().len() > 0 {
        body.push(p.last())
    } else {
        body
    }
}

/// Splits `s` into lines (see `lines_of`).
pub fn split_lines(s: &[char]) -> (r: Vec<Vec<char>>)
    ensures
        views(r@) == lines_of(s@),
{
    let pieces = split_chars(s, '\n');
    proof {
        lemma_split_on_nonempty(s@, '\n');
    }
    let ghost pv = views(pieces@);
    let mut out: Vec<Vec<char>> = Vec::new();
    let mut i: usize = 0;
    let last = pieces.len() - 1;
    while i < last
        invariant
            0 <= i <= last,
            last == pieces.len() - 1,
            pv == views(pieces@),
            views(out@) == strip_cr_all(pv.subrange(0, i as int)),
        decreases last - i,
    {
        let p = &pieces[i];
        let ghost before = views(out@);
        assert(p@ == pv[i as int]);
        if p.len() > 0 && p[p.len() - 1] == '\r' {
            out.push(slice_chars(p.as_slice(), 0, p.len() - 1));
            assert(p@.subrange(0, p.len() - 1) =~= p@.drop_last());
            assert(views(out@) =~= before.push(strip_cr(pv[i as int])));
        } else {
            out.push(p.clone());
            assert(views(out@) =~= before.push(strip_cr(pv[i as int])));
        }
        i += 1;
        assert(views(out@) =~= strip_cr_all(pv.subrange(0, i as int)));
    }
    assert(pv.subrange(0, last as int) =~= pv.drop_last());
    if pieces[last].len() > 0 {
        let ghost before = views(out@);
        out.push(pieces[last].clone());
        assert(views(out@) =~= before.push(pv.last()));
    }
    out
}

/// Backslashes turned into forward slashes.
pub open spec fn forward_slashes(s: Seq<char>) -> Seq<char> {
    s.map_values(|c: char| if c == '\\' { '/' } else { c })
}

/// Turns every backslash into a forward slash.
pub fn to_forward_slashes(s: &[char]) -> (r: Vec<char>)
    ensures
        r@ == forward_slashes(s@),
{
    let mut out: Vec<char> = Vec::new();
    let mut j: usize = 0;
    while j < s.len()
        invariant
            0 <= j <= s.len(),
            out@ == forward_slashes(s@.subrange(0, j as int)),
        decreases s.len() - j,
    {
        if s[j] == '\\' {
            out.push('/');
        } else {
            out.push(s[j]);
        }
        j += 1;
        assert(out@ =~= forward_slashes(s@.subrange(0, j as int)));
    }
    assert(s@.subrange(0, s.len() as int) =~= s@);
    out
}

/// `s` without white space at either end.
pub open spec fn trimmed(s: Seq<char>) -> Seq<char> {
    trim_end(s.subrange(skip_space(s, 0), s.len() as int))
}

/// `s` without white space at its end.
pub open spec fn trim_end(s: Seq<char>) -> Seq<char>
    decreases s.len(),
{
    if s.len() > 0 && is_space(s.last()) {
        trim_end(s.drop_last())
    } else {
        s
    }
}

/// Removes white space from both ends (see `trimmed`).
pub fn trim(s: &[char]) -> (r: Vec<char>)
    ensures
        r@ == trimmed(s@),
{
    let a = skip_spaces(s, 0);
    let mut b = s.len();
    let ghost t = s@.subrange(a as int, s.len() as int);
    assert(t.subrange(0, t.len() as int) =~= t);
    while b > a && space(s[b - 1])
        invariant
            a <= b <= s.len(),
            t == s@.subrange(a as int, s.len() as int),
            trim_end(t.subrange(0, b - a)) == trim_end(t),
        decreases b,
    {
        assert(t.subrange(0, b - a).drop_last() =~= t.subrange(0, b - a - 1));
        b -= 1;
    }
    let r = slice_chars(s, a, b);
    assert(r@ =~= t.subrange(0, b - a));
    r
}

} // verus!
