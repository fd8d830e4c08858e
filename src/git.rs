//! Parsing of unified diffs into per-file records of added lines and hunk spans.
use crate::clang_tidy::{
    digit_end, digits_end, digits_value, header_digit_end, header_digits_end, is_digit,
    lemma_digit_run,
};
use crate::common_fs::{
    file_models, is_source_or_ignored, range_bounds, source_in_scope,
    FileModel, FileObj, PathEntry,
};
use crate::text::{
    chars_at, chars_of, find_line_end, holds_at, is_space, line_end, skip_space, skip_spaces,
    slice_chars, space, split_chars, split_on, string_of, views,
};
use git2::{Delta, Diff, DiffLineType, Patch};
use std::ops::RangeInclusive;
use vstd::prelude::*;

verus! {

/// `x` capped at the largest `u32`.
pub open spec fn sat(x: int) -> u32 {
    if x > u32::MAX {
        u32::MAX
    } else if x < 0 {
        0
    } else {
        x as u32
    }
}

/// The hunk header at position `q`, `@@ -<a>,<b> +<start>,<count> @@` (the
/// spaces may be any white space): where it ends, and the new start and line
/// count, each capped at the largest `u32`. The old range may use any decimal
/// digits; the new start and count, which are read as numbers, are ASCII digits
/// (a header whose new range is written otherwise is not read as one).
pub open spec fn hunk_header_at(s: Seq<char>, q: int) -> Option<(int, u32, u32)> {
    let e1 = header_digit_end(s, q + 4);
    let e2 = header_digit_end(s, e1 + 1);
    let e3 = digit_end(s, e2 + 2);
    let e4 = digit_end(s, e3 + 1);
    if 0 <= q && q + 4 <= s.len() && s[q] == '@' && s[q + 1] == '@' && is_space(s[q + 2]) && s[q
        + 3] == '-' && e1 > q + 4 && e1 < s.len() && s[e1] == ',' && e2 > e1 + 1 && e2 + 2 <= s.len()
        && is_space(s[e2]) && s[e2 + 1] == '+' && e3 > e2 + 2 && e3 < s.len() && s[e3] == ','
        && e4 > e3 + 1 && e4 + 3 <= s.len() && is_space(s[e4]) && s[e4 + 1] == '@' && s[e4 + 2]
        == '@' {
        Some(
            (
                e4 + 3,
                sat(digits_value(s.subrange(e2 + 2, e3)) as int),
                sat(digits_value(s.subrange(e3 + 1, e4)) as int),
            ),
        )
    } else {
        None
    }
}

/// The first position at or after `p` where a hunk header starts, or the length.
pub open spec fn next_header(s: Seq<char>, p: int) -> int
    decreases s.len() - p,
{
    if p < 0 || p >= s.len() {
        s.len() as int
    } else if hunk_header_at(s, p) is Some {
        p
    } else {
        next_header(s, p + 1)
    }
}

/// The additions of a hunk body, read line by line from the new start line, and
/// the line counter after it. A line that starts with `+` is an added line at the
/// counter; every line after the first that does not start with `-` moves the
/// counter on by one.
pub open spec fn body_fold(lines: Seq<Seq<char>>, start: u32) -> (Seq<u32>, u32)
    decreases lines.len(),
{
    if lines.len() == 0 {
        (Seq::empty(), start)
    } else {
        let prev = body_fold(lines.drop_last(), start);
        let l = lines.last();
        let adds = if l.len() > 0 && l[0] == '+' {
            prev.0.push(prev.1)
        } else {
            prev.0
        };
        let counter = if lines.len() > 1 && !(l.len() > 0 && l[0] == '-') {
            sat(prev.1 + 1)
        } else {
            prev.1
        };
        (adds, counter)
    }
}

/// The added lines and hunk ranges of the hunks from the header at `q` on; each
/// hunk's body runs to the next header or the end.
pub open spec fn hunks_data(s: Seq<char>, q: int) -> (Seq<u32>, Seq<(u32, u32)>)
    decreases s.len() - q,
{
    match hunk_header_at(s, q) {
        Some((end, start, count)) => {
            let nq = next_header(s, end);
            let adds = body_fold(split_on(s.subrange(end, nq), '\n'), start).0;
            let chunk = (start, sat(start + count));
            if q < nq < s.len() {
                let rest = hunks_data(s, nq);
                (adds + rest.0, seq![chunk] + rest.1)
            } else {
                (adds, seq![chunk])
            }
        },
        None => (Seq::empty(), Seq::empty()),
    }
}

/// True when position `p` starts a line.
pub open spec fn line_start(s: Seq<char>, p: int) -> bool {
    p == 0 || (0 < p <= s.len() && s[p - 1] == '\n')
}

/// Where the new path starts when a `+++ <b>/<path>` line (the `b` optional, the
/// space any white space) starts at `p`.
pub open spec fn plus_line_at(s: Seq<char>, p: int) -> Option<int> {
    if line_start(s, p) && p + 4 < s.len() && s[p] == '+' && s[p + 1] == '+' && s[p + 2] == '+'
        && is_space(s[p + 3]) {
        if p + 5 < s.len() && s[p + 4] == 'b' && s[p + 5] == '/' {
            Some(p + 6)
        } else if s[p + 4] == '/' {
            Some(p + 5)
        } else {
            None
        }
    } else {
        None
    }
}

/// The first `+++` line at or after `p`.
pub open spec fn find_plus(s: Seq<char>, p: int) -> Option<int>
    decreases s.len() - p,
{
    if p < 0 || p >= s.len() {
        None
    } else if plus_line_at(s, p) is Some {
        plus_line_at(s, p)
    } else {
        find_plus(s, p + 1)
    }
}

/// Where the new path starts when a `rename to <path>` line starts at `p`.
pub open spec fn rename_at(s: Seq<char>, p: int) -> Option<int> {
    if line_start(s, p) && holds_at(s, p, "rename to "@) {
        Some(p + "rename to "@.len())
    } else {
        None
    }
}

/// The first `rename to` line at or after `p`.
pub open spec fn find_rename(s: Seq<char>, p: int) -> Option<int>
    decreases s.len() - p,
{
    if p < 0 || p >= s.len() {
        None
    } else if rename_at(s, p) is Some {
        rename_at(s, p)
    } else {
        find_rename(s, p + 1)
    }
}

/// The new path named by a file's front matter: that of its first `+++` line;
/// else, when the front matter starts (after white space) with `similarity`, that
/// of its first `rename to` line.
pub open spec fn front_matter_name(fm: Seq<char>) -> Option<Seq<char>> {
    match find_plus(fm, 0) {
        Some(c) => Some(fm.subrange(c, line_end(fm, c))),
        None => if holds_at(fm, skip_space(fm, 0), "similarity"@) {
            match find_rename(fm, 0) {
                Some(c) => Some(fm.subrange(c, line_end(fm, c))),
                None => None,
            }
        } else {
            None
        },
    }
}

/// The record for one file's part of a diff, if it has one: the part is not
/// empty, does not start (after white space) with `deleted file`, has a hunk
/// header, names its new path before that header, and the path is in scope.
pub open spec fn segment_file(
    seg: Seq<char>,
    extensions: Seq<&str>,
    ignored: Seq<PathEntry>,
    not_ignored: Seq<PathEntry>,
) -> Option<FileModel> {
    let h0 = next_header(seg, 0);
    if seg.len() == 0 || holds_at(seg, skip_space(seg, 0), "deleted file"@) || h0 >= seg.len() {
        None
    } else {
        match front_matter_name(seg.subrange(0, h0)) {
            Some(name) => {
                let data = hunks_data(seg, h0);
                if source_in_scope(name, extensions, ignored, not_ignored) {
                    Some(FileModel { name, added: data.0, chunks: data.1 })
                } else {
                    None
                }
            },
            None => None,
        }
    }
}

/// The first hunk of a part spans `[c, c + d]` for its header
/// `@@ -a,b +c,d @@` (capped at the largest `u32`).
pub proof fn lemma_hunk_range(seg: Seq<char>, q: int)
    requires
        hunk_header_at(seg, q) is Some,
    ensures
        ({
            let (end, c, d) = hunk_header_at(seg, q)->0;
            hunks_data(seg, q).1.len() >= 1 && hunks_data(seg, q).1[0] == (c, sat(c + d))
        }),
{
}

/// A part of a diff without a hunk header (such as a pure rename or a binary
/// file) yields no record.
pub proof fn lemma_no_hunk_no_record(
    seg: Seq<char>,
    extensions: Seq<&str>,
    ignored: Seq<PathEntry>,
    not_ignored: Seq<PathEntry>,
)
    requires
        next_header(seg, 0) >= seg.len(),
    ensures
        segment_file(seg, extensions, ignored, not_ignored) is None,
{
}

/// A part that announces a binary file and names no path yields no record.
pub proof fn lemma_binary_no_record(
    seg: Seq<char>,
    extensions: Seq<&str>,
    ignored: Seq<PathEntry>,
    not_ignored: Seq<PathEntry>,
)
    requires
        binary_notice(seg) is Some,
    ensures
        segment_file(seg, extensions, ignored, not_ignored) is None,
{
}

/// A renamed file's part with a hunk yields one record under the new name: the
/// part starts with `similarity`, has no `+++` line before its first hunk
/// header, has a `rename to <path>` line there, and the path is in scope. The
/// record holds the added lines of the hunks.
pub proof fn lemma_rename_record(
    seg: Seq<char>,
    extensions: Seq<&str>,
    ignored: Seq<PathEntry>,
    not_ignored: Seq<PathEntry>,
)
    requires
        next_header(seg, 0) < seg.len(),
        !holds_at(seg, skip_space(seg, 0), "deleted file"@),
        find_plus(seg.subrange(0, next_header(seg, 0)), 0) is None,
        holds_at(
            seg.subrange(0, next_header(seg, 0)),
            skip_space(seg.subrange(0, next_header(seg, 0)), 0),
            "similarity"@,
        ),
        find_rename(seg.subrange(0, next_header(seg, 0)), 0) is Some,
        ({
            let fm = seg.subrange(0, next_header(seg, 0));
            let c = find_rename(fm, 0)->0;
            source_in_scope(fm.subrange(c, line_end(fm, c)), extensions, ignored, not_ignored)
        }),
    ensures
        ({
            let fm = seg.subrange(0, next_header(seg, 0));
            let c = find_rename(fm, 0)->0;
            segment_file(seg, extensions, ignored, not_ignored) == Some(
                FileModel {
                    name: fm.subrange(c, line_end(fm, c)),
                    added: hunks_data(seg, next_header(seg, 0)).0,
                    chunks: hunks_data(seg, next_header(seg, 0)).1,
                },
            )
        }),
{
}

/// True when a `diff --git a/` line starts at `p`.
pub open spec fn delimiter_at(s: Seq<char>, p: int) -> bool {
    line_start(s, p) && holds_at(s, p, "diff --git a/"@)
}

/// The first position at or after `p` where a `diff --git a/` line starts, or
/// the length.
pub open spec fn next_delimiter(s: Seq<char>, p: int) -> int
    decreases s.len() - p,
{
    if p < 0 || p >= s.len() {
        s.len() as int
    } else if delimiter_at(s, p) {
        p
    } else {
        next_delimiter(s, p + 1)
    }
}

/// The records of the files whose parts start at `a`: the text is cut at each
/// `diff --git a/` line, the line itself belonging to no part.
pub open spec fn files_from(
    s: Seq<char>,
    a: int,
    extensions: Seq<&str>,
    ignored: Seq<PathEntry>,
    not_ignored: Seq<PathEntry>,
) -> Seq<FileModel>
    decreases s.len() - a,
{
    let m = next_delimiter(s, a);
    let here = match segment_file(s.subrange(a, m), extensions, ignored, not_ignored) {
        Some(f) => seq![f],
        None => Seq::empty(),
    };
    if m < s.len() && a < line_end(s, m) <= s.len() {
        here + files_from(s, line_end(s, m), extensions, ignored, not_ignored)
    } else {
        here
    }
}

proof fn lemma_sat_step(x: nat, d: nat)
    requires
        d <= 9,
    ensures
        sat(sat(x as int) * 10 + d) == sat((x * 10 + d) as int),
{
    if x > u32::MAX {
        assert(x * 10 + d > u32::MAX) by (nonlinear_arith)
            requires
                x > u32::MAX,
        ;
    }
}

/// Reads the digits `s[a..b]` as a number capped at the largest `u32`.
fn parse_digits_capped(s: &[char], a: usize, b: usize) -> (r: u32)
    requires
        a <= b <= s.len(),
        forall|k: int| a <= k < b ==> is_digit(#[trigger] s@[k]),
    ensures
        r == sat(digits_value(s@.subrange(a as int, b as int)) as int),
{
    let ghost d = s@.subrange(a as int, b as int);
    let mut v: u32 = 0;
    let mut i = a;
    assert(d.subrange(0, 0) =~= Seq::<char>::empty());
    while i < b
        invariant
            a <= i <= b <= s.len(),
            d == s@.subrange(a as int, b as int),
            forall|k: int| a <= k < b ==> is_digit(#[trigger] s@[k]),
            v == sat(digits_value(d.subrange(0, i - a)) as int),
        decreases b - i,
    {
        assert(d.subrange(0, i - a + 1).drop_last() =~= d.subrange(0, i - a));
        assert(d.subrange(0, i - a + 1).last() == s@[i as int]);
        let digit = (s[i] as u32 - '0' as u32) as u64;
        proof {
            lemma_sat_step(digits_value(d.subrange(0, i - a)), digit as nat);
        }
        let w: u64 = v as u64 * 10 + digit;
        v = if w > 0xFFFF_FFFFu64 {
            0xFFFF_FFFFu32
        } else {
            w as u32
        };
        i += 1;
    }
    assert(d.subrange(0, b - a) =~= d);
    v
}

/// Reads the hunk header at position `q` (see `hunk_header_at`).
fn hunk_header(s: &[char], q: usize) -> (r: Option<(usize, u32, u32)>)
    requires
        q <= s.len(),
    ensures
        match hunk_header_at(s@, q as int) {
            Some((e, a, b)) => r == Some((e as usize, a, b)) && q < e <= s.len(),
            None => r is None,
        },
{
    let n = s.len();
    if n - q < 4 || s[q] != '@' || s[q + 1] != '@' || !space(s[q + 2]) || s[q + 3] != '-' {
        return None;
    }
    let e1 = header_digits_end(s, q + 4);
    if e1 == q + 4 || e1 >= n || s[e1] != ',' {
        return None;
    }
    let e2 = header_digits_end(s, e1 + 1);
    if e2 == e1 + 1 || e2 > n - 2 || !space(s[e2]) || s[e2 + 1] != '+' {
        return None;
    }
    let e3 = digits_end(s, e2 + 2);
    if e3 == e2 + 2 || e3 >= n || s[e3] != ',' {
        return None;
    }
    let e4 = digits_end(s, e3 + 1);
    if e4 == e3 + 1 || e4 > n - 3 || !space(s[e4]) || s[e4 + 1] != '@' || s[e4 + 2] != '@' {
        return None;
    }
    proof {
        lemma_digit_run(s@, e2 + 2);
        lemma_digit_run(s@, e3 + 1);
    }
    let start = parse_digits_capped(s, e2 + 2, e3);
    let count = parse_digits_capped(s, e3 + 1, e4);
    Some((e4 + 3, start, count))
}

/// Finds the first hunk header at or after `p` (see `next_header`).
fn find_header(s: &[char], p: usize) -> (r: usize)
    requires
        p <= s.len(),
    ensures
        r == next_header(s@, p as int),
        p <= r <= s.len(),
{
    let mut q = p;
    while q < s.len()
        invariant
            p <= q <= s.len(),
            next_header(s@, q as int) == next_header(s@, p as int),
        decreases s.len() - q,
    {
        if hunk_header(s, q).is_some() {
            return q;
        }
        q += 1;
    }
    q
}

/// The added lines of one hunk body (see `body_fold`).
fn body_additions(body: &[char], start: u32) -> (r: Vec<u32>)
    ensures
        r@ == body_fold(split_on(body@, '\n'), start).0,
{
    let lines = split_chars(body, '\n');
    let ghost lv = views(lines@);
    let mut adds: Vec<u32> = Vec::new();
    let mut counter = start;
    let mut i: usize = 0;
    assert(lv.subrange(0, 0) =~= Seq::<Seq<char>>::empty());
    while i < lines.len()
        invariant
            0 <= i <= lines.len(),
            lv == views(lines@),
            (adds@, counter) == body_fold(lv.subrange(0, i as int), start),
        decreases lines.len() - i,
    {
        let ghost sub = lv.subrange(0, i + 1);
        assert(sub.drop_last() =~= lv.subrange(0, i as int));
        let line = &lines[i];
        assert(line@ == sub.last());
        let plus = line.len() > 0 && line[0] == '+';
        let minus = line.len() > 0 && line[0] == '-';
        if plus {
            adds.push(counter);
        }
        if i > 0 && !minus {
            counter = if counter == 0xFFFF_FFFFu32 {
                counter
            } else {
                counter + 1
            };
        }
        i += 1;
    }
    assert(lv.subrange(0, lines.len() as int) =~= lv);
    adds
}

proof fn lemma_next_header(s: Seq<char>, p: int)
    requires
        0 <= p <= s.len(),
    ensures
        p <= next_header(s, p) <= s.len(),
        next_header(s, p) < s.len() ==> hunk_header_at(s, next_header(s, p)) is Some,
    decreases s.len() - p,
{
    if p < s.len() && hunk_header_at(s, p) is None {
        lemma_next_header(s, p + 1);
    }
}

/// The added lines and hunk ranges of the hunks from the header at `h0` on.
fn hunks(seg: &[char], h0: usize) -> (r: (Vec<u32>, Vec<RangeInclusive<u32>>))
    requires
        h0 < seg.len(),
        hunk_header_at(seg@, h0 as int) is Some,
    ensures
        r.0@ == hunks_data(seg@, h0 as int).0,
        range_bounds(r.1@) == hunks_data(seg@, h0 as int).1,
{
    let ghost total = hunks_data(seg@, h0 as int);
    let mut adds: Vec<u32> = Vec::new();
    let mut chunks: Vec<RangeInclusive<u32>> = Vec::new();
    let mut q = h0;
    assert(adds@ + total.0 =~= total.0);
    assert(range_bounds(chunks@) + total.1 =~= total.1);
    while q < seg.len()
        invariant
            h0 <= q <= seg.len(),
            q < seg.len() ==> hunk_header_at(seg@, q as int) is Some,
            adds@ + hunks_data(seg@, q as int).0 == total.0,
            range_bounds(chunks@) + hunks_data(seg@, q as int).1 == total.1,
        decreases seg.len() - q,
    {
        let (end, start, count) = match hunk_header(seg, q) {
            Some(h) => h,
            None => {
                return (adds, chunks);
            },
        };
        let nq = find_header(seg, end);
        proof {
            lemma_next_header(seg@, end as int);
        }
        let body = slice_chars(seg, end, nq);
        let more = body_additions(body.as_slice(), start);
        let ghost here = hunks_data(seg@, q as int);
        let ghost rest = hunks_data(seg@, nq as int);
        assert(here.0 == more@ + rest.0 && here.1 == seq![(start, sat(start + count))] + rest.1)
            by {
            if nq >= seg.len() {
                assert(rest.0 =~= Seq::<u32>::empty());
                assert(rest.1 =~= Seq::<(u32, u32)>::empty());
                assert(more@ + rest.0 =~= more@);
                assert(seq![(start, sat(start + count))] + rest.1 =~= seq![(start, sat(start + count))]);
            }
        }
        let ghost a0 = adds@;
        let mut k: usize = 0;
        while k < more.len()
            invariant
                0 <= k <= more.len(),
                adds@ == a0 + more@.subrange(0, k as int),
            decreases more.len() - k,
        {
            adds.push(more[k]);
            k += 1;
            assert(adds@ =~= a0 + more@.subrange(0, k as int));
        }
        assert(more@.subrange(0, more.len() as int) =~= more@);
        assert(adds@ + rest.0 =~= a0 + here.0);
        let end_line: u32 = if start as u64 + count as u64 > 0xFFFF_FFFFu64 {
            0xFFFF_FFFFu32
        } else {
            start + count
        };
        let ghost c0 = range_bounds(chunks@);
        chunks.push(RangeInclusive::new(start, end_line));
        assert(range_bounds(chunks@) =~= c0.push((start, sat(start + count))));
        assert(range_bounds(chunks@) + rest.1 =~= c0 + here.1);
        q = nq;
    }
    assert(hunks_data(seg@, q as int).0 =~= Seq::<u32>::empty());
    assert(hunks_data(seg@, q as int).1 =~= Seq::<(u32, u32)>::empty());
    assert(adds@ =~= total.0);
    assert(range_bounds(chunks@) =~= total.1);
    (adds, chunks)
}

fn plus_line(s: &[char], p: usize) -> (r: Option<usize>)
    requires
        p <= s.len(),
    ensures
        match plus_line_at(s@, p as int) {
            Some(c) => r == Some(c as usize) && 0 <= c <= s.len(),
            None => r is None,
        },
{
    let n = s.len();
    if !(p == 0 || s[p - 1] == '\n') || n - p <= 4 || s[p] != '+' || s[p + 1] != '+' || s[p + 2]
        != '+' || !space(s[p + 3]) {
        return None;
    }
    if n - p > 5 && s[p + 4] == 'b' && s[p + 5] == '/' {
        Some(p + 6)
    } else if s[p + 4] == '/' {
        Some(p + 5)
    } else {
        None
    }
}

fn first_plus_line(s: &[char]) -> (r: Option<usize>)
    ensures
        match find_plus(s@, 0) {
            Some(c) => r == Some(c as usize) && 0 <= c <= s.len(),
            None => r is None,
        },
{
    let mut q: usize = 0;
    while q < s.len()
        invariant
            0 <= q <= s.len(),
            find_plus(s@, q as int) == find_plus(s@, 0),
        decreases s.len() - q,
    {
        let hit = plus_line(s, q);
        if hit.is_some() {
            return hit;
        }
        q += 1;
    }
    None
}

fn first_rename_line(s: &[char]) -> (r: Option<usize>)
    ensures
        match find_rename(s@, 0) {
            Some(c) => r == Some(c as usize) && 0 <= c <= s.len(),
            None => r is None,
        },
{
    let lit = chars_of("rename to ");
    let mut q: usize = 0;
    while q < s.len()
        invariant
            0 <= q <= s.len(),
            lit@ == "rename to "@,
            find_rename(s@, q as int) == find_rename(s@, 0),
        decreases s.len() - q,
    {
        if (q == 0 || s[q - 1] == '\n') && chars_at(s, q, lit.as_slice()) {
            return Some(q + lit.len());
        }
        q += 1;
    }
    None
}

/// Reads the new path from a file's front matter (see `front_matter_name`).
fn front_matter_path(fm: &[char]) -> (r: Option<Vec<char>>)
    ensures
        match front_matter_name(fm@) {
            Some(n) => r is Some && r->0@ == n,
            None => r is None,
        },
{
    match first_plus_line(fm) {
        Some(c) => {
            let e = find_line_end(fm, c);
            return Some(slice_chars(fm, c, e));
        },
        None => {},
    }
    let k = skip_spaces(fm, 0);
    if !chars_at(fm, k, chars_of("similarity").as_slice()) {
        return None;
    }
    match first_rename_line(fm) {
        Some(c) => {
            let e = find_line_end(fm, c);
            Some(slice_chars(fm, c, e))
        },
        None => None,
    }
}

/// The record for one file's part of a diff (see `segment_file`).
fn file_of_segment(
    seg: &[char],
    extensions: &[&str],
    ignored: &[PathEntry],
    not_ignored: &[PathEntry],
) -> (r: Option<FileObj>)
    ensures
        match segment_file(seg@, extensions@, ignored@, not_ignored@) {
            Some(m) => r is Some && r->0.model() == m && r->0.wf(),
            None => r is None,
        },
{
    if seg.len() == 0 {
        return None;
    }
    let k = skip_spaces(seg, 0);
    if chars_at(seg, k, chars_of("deleted file").as_slice()) {
        return None;
    }
    let h0 = find_header(seg, 0);
    proof {
        lemma_next_header(seg@, 0);
    }
    if h0 >= seg.len() {
        return None;
    }
    let fm = slice_chars(seg, 0, h0);
    let name = match front_matter_path(fm.as_slice()) {
        Some(n) => string_of(n.as_slice()),
        None => return None,
    };
    if !is_source_or_ignored(name.as_str(), extensions, ignored, not_ignored) {
        return None;
    }
    let (adds, chunks) = hunks(seg, h0);
    Some(FileObj::from(name, adds, chunks))
}

fn find_delimiter(s: &[char], p: usize) -> (r: usize)
    requires
        p <= s.len(),
    ensures
        r == next_delimiter(s@, p as int),
        p <= r <= s.len(),
{
    let lit = chars_of("diff --git a/");
    let mut q = p;
    while q < s.len()
        invariant
            p <= q <= s.len(),
            lit@ == "diff --git a/"@,
            next_delimiter(s@, q as int) == next_delimiter(s@, p as int),
        decreases s.len() - q,
    {
        if (q == 0 || s[q - 1] == '\n') && chars_at(s, q, lit.as_slice()) {
            return q;
        }
        q += 1;
    }
    q
}

/// Parses the text of a unified diff into file records without a diff engine.
///
/// The text is cut into one part per file at each `diff --git a/` line. A part is
/// skipped when it is empty, starts with `deleted file`, has no hunk header
/// (`@@ -a,b +c,d @@`, as for a pure rename or a binary file), names no new path
/// before its first header (in a `+++ b/<path>` line, or a `rename to <path>` line
/// when the part starts with `similarity`), or when the path is out of scope. Each
/// hunk contributes the range `[c, c + d]` and its added lines, counted from `c`.
pub fn parse_diff_text(
    diff: &str,
    extensions: &[&str],
    ignored: &[PathEntry],
    not_ignored: &[PathEntry],
) -> (r: Vec<FileObj>)
    ensures
        file_models(r@) == files_from(diff@, 0, extensions@, ignored@, not_ignored@),
        forall|k: int| 0 <= k < r@.len() ==> (#[trigger] r@[k]).wf(),
{
    let t = chars_of(diff);
    let ghost total = files_from(t@, 0, extensions@, ignored@, not_ignored@);
    let mut result: Vec<FileObj> = Vec::new();
    let mut a: usize = 0;
    assert(file_models(result@) + total =~= total);
    loop
        invariant
            0 <= a <= t.len(),
            t@ == diff@,
            total == files_from(diff@, 0, extensions@, ignored@, not_ignored@),
            file_models(result@) + files_from(t@, a as int, extensions@, ignored@, not_ignored@)
                == total,
            forall|k: int| 0 <= k < result@.len() ==> (#[trigger] result@[k]).wf(),
        decreases t.len() - a,
    {
        let m = find_delimiter(t.as_slice(), a);
        let seg = slice_chars(t.as_slice(), a, m);
        let ghost before = file_models(result@);
        let ghost rest = files_from(t@, a as int, extensions@, ignored@, not_ignored@);
        let ghost here = match segment_file(seg@, extensions@, ignored@, not_ignored@) {
            Some(f) => seq![f],
            None => Seq::<FileModel>::empty(),
        };
        match file_of_segment(seg.as_slice(), extensions, ignored, not_ignored) {
            Some(f) => {
                result.push(f);
                assert(file_models(result@) =~= before + here);
            },
            None => {
                assert(file_models(result@) =~= before + here);
            },
        }
        if m >= t.len() {
            assert(rest == here);
            assert(file_models(result@) =~= total);
            return result;
        }
        let next = find_line_end(t.as_slice(), m);
        if next <= a {
            assert(rest == here);
            assert(file_models(result@) =~= total);
            return result;
        }
        assert(rest == here + files_from(t@, next as int, extensions@, ignored@, not_ignored@));
        assert(file_models(result@) + files_from(t@, next as int, extensions@, ignored@, not_ignored@)
            =~= total);
        a = next;
    }
}

/// True when a `Binary files ` line (the spaces may be any white space) starts at `p`.
pub open spec fn binary_line_at(s: Seq<char>, p: int) -> bool {
    line_start(s, p) && p + 13 <= s.len() && holds_at(s, p, seq!['B', 'i', 'n', 'a', 'r', 'y'])
        && is_space(s[p + 6]) && holds_at(s, p + 7, seq!['f', 'i', 'l', 'e', 's']) && is_space(
        s[p + 12],
    )
}

/// True when some `Binary files ` line starts at or after `p`.
pub open spec fn has_binary_line(s: Seq<char>, p: int) -> bool
    decreases s.len() - p,
{
    if p < 0 || p >= s.len() {
        false
    } else {
        binary_line_at(s, p) || has_binary_line(s, p + 1)
    }
}

/// The front matter of one file's part of a diff when it announces a binary
/// file that the part names no path for: the text before its first hunk header
/// (all of it when there is none).
pub open spec fn binary_notice(seg: Seq<char>) -> Option<Seq<char>> {
    let fm = seg.subrange(0, next_header(seg, 0));
    if has_binary_line(fm, 0) && front_matter_name(fm) is None {
        Some(fm)
    } else {
        None
    }
}

/// The binary notices of the parts of a diff from `a` on (cut as in `files_from`).
pub open spec fn binary_notices_from(s: Seq<char>, a: int) -> Seq<Seq<char>>
    decreases s.len() - a,
{
    let m = next_delimiter(s, a);
    let here = match binary_notice(s.subrange(a, m)) {
        Some(f) => seq![f],
        None => Seq::empty(),
    };
    if m < s.len() && a < line_end(s, m) <= s.len() {
        here + binary_notices_from(s, line_end(s, m))
    } else {
        here
    }
}

fn find_binary_line(s: &[char]) -> (r: bool)
    ensures
        r == has_binary_line(s@, 0),
{
    let bin = ['B', 'i', 'n', 'a', 'r', 'y'];
    let files = ['f', 'i', 'l', 'e', 's'];
    let mut q: usize = 0;
    while q < s.len()
        invariant
            0 <= q <= s.len(),
            has_binary_line(s@, q as int) == has_binary_line(s@, 0),
            bin@ == seq!['B', 'i', 'n', 'a', 'r', 'y'],
            files@ == seq!['f', 'i', 'l', 'e', 's'],
        decreases s.len() - q,
    {
        if (q == 0 || s[q - 1] == '\n') && s.len() - q >= 13 && chars_at(s, q, &bin) && space(
            s[q + 6],
        ) && chars_at(s, q + 7, &files) && space(s[q + 12]) {
            return true;
        }
        q += 1;
    }
    false
}

/// The front matters of the parts of a diff text that announce a binary file
/// and name no path (see `binary_notice`), in order: the parts that the text
/// parser skips as binary.
pub fn binary_notices(diff: &str) -> (r: Vec<String>)
    ensures
        r@.map_values(|x: String| x@) == binary_notices_from(diff@, 0),
{
    let t = chars_of(diff);
    let ghost total = binary_notices_from(t@, 0);
    let mut result: Vec<String> = Vec::new();
    let mut a: usize = 0;
    assert(result@.map_values(|x: String| x@) + total =~= total);
    loop
        invariant
            0 <= a <= t.len(),
            t@ == diff@,
            total == binary_notices_from(diff@, 0),
            result@.map_values(|x: String| x@) + binary_notices_from(t@, a as int) == total,
        decreases t.len() - a,
    {
        let m = find_delimiter(t.as_slice(), a);
        let seg = slice_chars(t.as_slice(), a, m);
        let ghost before = result@.map_values(|x: String| x@);
        let ghost rest = binary_notices_from(t@, a as int);
        let ghost here = match binary_notice(seg@) {
            Some(f) => seq![f],
            None => Seq::<Seq<char>>::empty(),
        };
        let h0 = find_header(seg.as_slice(), 0);
        proof {
            lemma_next_header(seg@, 0);
        }
        let fm = slice_chars(seg.as_slice(), 0, h0);
        if find_binary_line(fm.as_slice()) && front_matter_path(fm.as_slice()).is_none() {
            result.push(string_of(fm.as_slice()));
        }
        assert(result@.map_values(|x: String| x@) =~= before + here);
        if m >= t.len() {
            assert(rest == here);
            assert(result@.map_values(|x: String| x@) =~= total);
            return result;
        }
        let next = find_line_end(t.as_slice(), m);
        if next <= a {
            assert(rest == here);
            assert(result@.map_values(|x: String| x@) =~= total);
            return result;
        }
        assert(rest == here + binary_notices_from(t@, next as int));
        assert(result@.map_values(|x: String| x@) + binary_notices_from(t@, next as int) =~= total);
        a = next;
    }
}

/// Whether libgit2 accepts a buffer as a diff, so that `parse_diff_from_buf`
/// uses it rather than the text parser.
pub fn diff_engine_accepts(buff: &[u8]) -> (r: bool)
    ensures
        r == buffer_changes(buff@) is Some,
{
    diff_from_buffer(buff).is_some()
}

proof fn lemma_line_end_bounds(s: Seq<char>, p: int)
    requires
        0 <= p <= s.len(),
    ensures
        p <= line_end(s, p) <= s.len(),
    decreases s.len() - p,
{
    if p < s.len() && s[p] != '\n' {
        lemma_line_end_bounds(s, p + 1);
    }
}

/// The part of a one-file diff text: what follows its `diff --git a/` line.
pub open spec fn single_part(s: Seq<char>) -> Seq<char> {
    s.subrange(line_end(s, 0), s.len() as int)
}

/// A diff text that starts with a `diff --git a/` line and holds no other one
/// yields exactly the record of its one part, if that part has one.
pub proof fn lemma_single_part(
    s: Seq<char>,
    extensions: Seq<&str>,
    ignored: Seq<PathEntry>,
    not_ignored: Seq<PathEntry>,
)
    requires
        delimiter_at(s, 0),
        next_delimiter(s, line_end(s, 0)) == s.len(),
    ensures
        files_from(s, 0, extensions, ignored, not_ignored) == match segment_file(
            single_part(s),
            extensions,
            ignored,
            not_ignored,
        ) {
            Some(f) => seq![f],
            None => Seq::<FileModel>::empty(),
        },
{
    reveal_strlit("diff --git a/");
    assert("diff --git a/"@.len() == 13);
    assert("diff --git a/"@[0] == 'd');
    assert(s.subrange(0, 13) == "diff --git a/"@);
    assert(s.subrange(0, 13)[0] == s[0]);
    assert(s[0] == 'd');
    lemma_line_end_bounds(s, 1);
    assert(line_end(s, 0) == line_end(s, 1));
    let e = line_end(s, 0);
    assert(segment_file(s.subrange(0, 0), extensions, ignored, not_ignored) is None);
    let tail = files_from(s, e, extensions, ignored, not_ignored);
    assert(files_from(s, 0, extensions, ignored, not_ignored) =~= Seq::<FileModel>::empty()
        + tail);
}

/// A one-file diff text whose part has no hunk header (a pure rename, a mode
/// change, a binary file) yields no record.
pub proof fn lemma_text_no_hunk_no_record(
    s: Seq<char>,
    extensions: Seq<&str>,
    ignored: Seq<PathEntry>,
    not_ignored: Seq<PathEntry>,
)
    requires
        delimiter_at(s, 0),
        next_delimiter(s, line_end(s, 0)) == s.len(),
        next_header(single_part(s), 0) >= single_part(s).len(),
    ensures
        files_from(s, 0, extensions, ignored, not_ignored).len() == 0,
{
    lemma_single_part(s, extensions, ignored, not_ignored);
    lemma_no_hunk_no_record(single_part(s), extensions, ignored, not_ignored);
}

/// A one-file diff text whose part announces a binary file and names no path
/// yields no record.
pub proof fn lemma_text_binary_no_record(
    s: Seq<char>,
    extensions: Seq<&str>,
    ignored: Seq<PathEntry>,
    not_ignored: Seq<PathEntry>,
)
    requires
        delimiter_at(s, 0),
        next_delimiter(s, line_end(s, 0)) == s.len(),
        binary_notice(single_part(s)) is Some,
    ensures
        files_from(s, 0, extensions, ignored, not_ignored).len() == 0,
{
    lemma_single_part(s, extensions, ignored, not_ignored);
    lemma_binary_no_record(single_part(s), extensions, ignored, not_ignored);
}

/// A one-file diff text for a renamed file with a hunk yields exactly one
/// record, named by its `rename to` line (see `lemma_rename_record`).
pub proof fn lemma_text_rename_record(
    s: Seq<char>,
    extensions: Seq<&str>,
    ignored: Seq<PathEntry>,
    not_ignored: Seq<PathEntry>,
)
    requires
        delimiter_at(s, 0),
        next_delimiter(s, line_end(s, 0)) == s.len(),
        ({
            let seg = single_part(s);
            let fm = seg.subrange(0, next_header(seg, 0));
            &&& next_header(seg, 0) < seg.len()
            &&& !holds_at(seg, skip_space(seg, 0), "deleted file"@)
            &&& find_plus(fm, 0) is None
            &&& holds_at(fm, skip_space(fm, 0), "similarity"@)
            &&& find_rename(fm, 0) is Some
            &&& source_in_scope(
                fm.subrange(find_rename(fm, 0)->0, line_end(fm, find_rename(fm, 0)->0)),
                extensions,
                ignored,
                not_ignored,
            )
        }),
    ensures
        ({
            let seg = single_part(s);
            let fm = seg.subrange(0, next_header(seg, 0));
            let c = find_rename(fm, 0)->0;
            files_from(s, 0, extensions, ignored, not_ignored) == seq![
                FileModel {
                    name: fm.subrange(c, line_end(fm, c)),
                    added: hunks_data(seg, next_header(seg, 0)).0,
                    chunks: hunks_data(seg, next_header(seg, 0)).1,
                },
            ]
        }),
{
    lemma_single_part(s, extensions, ignored, not_ignored);
    lemma_rename_record(single_part(s), extensions, ignored, not_ignored);
}

/// Each record that the engine parser builds holds one range per hunk,
/// `[new_start, new_start + new_lines]` (capped at the largest `u32`), and the
/// added lines of the hunks in order.
pub proof fn lemma_delta_hunk_ranges(
    d: DeltaPlain,
    extensions: Seq<&str>,
    ignored: Seq<PathEntry>,
    not_ignored: Seq<PathEntry>,
)
    requires
        delta_file(d, extensions, ignored, not_ignored) is Some,
    ensures
        ({
            let f = delta_file(d, extensions, ignored, not_ignored)->0;
            &&& f.chunks.len() == d.hunks.len()
            &&& forall|k: int|
                0 <= k < d.hunks.len() ==> #[trigger] f.chunks[k] == (
                    d.hunks[k].0,
                    sat(d.hunks[k].0 + d.hunks[k].1),
                )
            &&& f.added == delta_adds(d.hunks)
        }),
{
}

/// How a diff engine classified a file's change.
#[derive(Clone, Copy, PartialEq, Eq, Structural, Debug)]
pub enum DeltaStatus {
    /// No change.
    Unmodified,
    /// The file is new.
    Added,
    /// The file was removed.
    Deleted,
    /// The file's content changed.
    Modified,
    /// The file was renamed.
    Renamed,
    /// The file was copied from another.
    Copied,
    /// The file is ignored.
    Ignored,
    /// The file is not tracked.
    Untracked,
    /// The file's type changed.
    Typechange,
    /// The file cannot be read.
    Unreadable,
    /// The file is in conflict.
    Conflicted,
}

/// What a line of a hunk is, as a diff engine reports it.
#[derive(Clone, Copy, PartialEq, Eq, Structural, Debug)]
pub enum LineOrigin {
    /// A line that both files hold.
    Context,
    /// A line that only the new file holds.
    Addition,
    /// A line that only the old file holds.
    Deletion,
    /// Neither file ends with a line feed.
    ContextEofnl,
    /// The old file does not end with a line feed, the new one does.
    AddEofnl,
    /// The old file ends with a line feed, the new one does not.
    DeleteEofnl,
    /// A line of a file header.
    FileHeader,
    /// A hunk header line.
    HunkHeader,
    /// A binary-files notice.
    Binary,
}

/// One hunk as a diff engine reports it.
pub struct HunkRecord {
    /// The hunk's first line in the new file.
    pub new_start: u32,
    /// The hunk's line count in the new file.
    pub new_lines: u32,
    /// Each line's origin and its number in the new file, in order.
    pub lines: Vec<(LineOrigin, Option<u32>)>,
}

/// One file's change as a diff engine reports it.
pub struct DeltaRecord {
    /// The kind of change.
    pub status: DeltaStatus,
    /// The file's new path, when it has one.
    pub path: Option<String>,
    /// The file's hunks, in order.
    pub hunks: Vec<HunkRecord>,
}

/// A hunk as libgit2 holds it: new start, new line count, and for each line
/// its origin and its number in the new file.
pub struct HunkModel {
    pub new_start: u32,
    pub new_lines: u32,
    pub lines: Seq<(LineOrigin, Option<u32>)>,
}

/// A file change as libgit2 holds it: its status, its new path, and the hunks of
/// its patch when libgit2 gives one.
pub struct DeltaModel {
    pub status: DeltaStatus,
    pub path: Option<Seq<char>>,
    pub hunks: Option<Seq<HunkModel>>,
}

/// A file change as plain values: status, new path, and per hunk the new start,
/// the new line count and the added lines.
pub struct DeltaPlain {
    pub status: DeltaStatus,
    pub path: Option<Seq<char>>,
    pub hunks: Seq<(u32, u32, Seq<u32>)>,
}

/// The file changes that a libgit2 diff holds, in its order.
pub uninterp spec fn diff_changes(d: Diff) -> Seq<DeltaModel>;

/// The hunks that a libgit2 patch holds, in its order.
pub uninterp spec fn patch_hunks(p: Patch) -> Seq<HunkModel>;

/// What libgit2 parses from a buffer: the file changes, or nothing when it
/// refuses the buffer.
pub uninterp spec fn buffer_changes(buf: Seq<u8>) -> Option<Seq<DeltaModel>>;

/// The numbers of the lines whose origin is an addition, in order.
pub open spec fn added_of(lines: Seq<(LineOrigin, Option<u32>)>) -> Seq<u32>
    decreases lines.len(),
{
    if lines.len() == 0 {
        Seq::empty()
    } else {
        let prev = added_of(lines.drop_last());
        match lines.last() {
            (LineOrigin::Addition, Some(n)) => prev.push(n),
            _ => prev,
        }
    }
}

/// A libgit2 hunk as plain values.
pub open spec fn plain_hunk(h: HunkModel) -> (u32, u32, Seq<u32>) {
    (h.new_start, h.new_lines, added_of(h.lines))
}

/// A libgit2 file change as plain values; without a patch it has no hunks.
pub open spec fn plain_model(m: DeltaModel) -> DeltaPlain {
    DeltaPlain {
        status: m.status,
        path: m.path,
        hunks: match m.hunks {
            Some(hs) => hs.map_values(|h: HunkModel| plain_hunk(h)),
            None => Seq::empty(),
        },
    }
}

/// A list of libgit2 file changes as plain values.
pub open spec fn plain_models(ms: Seq<DeltaModel>) -> Seq<DeltaPlain> {
    ms.map_values(|m: DeltaModel| plain_model(m))
}

/// A hunk record as plain values.
pub open spec fn plain_hunk_record(h: HunkRecord) -> (u32, u32, Seq<u32>) {
    (h.new_start, h.new_lines, added_of(h.lines@))
}

/// A change record as plain values.
pub open spec fn plain_record(d: DeltaRecord) -> DeltaPlain {
    DeltaPlain {
        status: d.status,
        path: match d.path {
            Some(p) => Some(p@),
            None => None,
        },
        hunks: d.hunks@.map_values(|h: HunkRecord| plain_hunk_record(h)),
    }
}

/// A list of change records as plain values.
pub open spec fn plain_records(ds: Seq<DeltaRecord>) -> Seq<DeltaPlain> {
    ds.map_values(|d: DeltaRecord| plain_record(d))
}

/// The added lines of all hunks, hunk after hunk.
pub open spec fn delta_adds(hs: Seq<(u32, u32, Seq<u32>)>) -> Seq<u32>
    decreases hs.len(),
{
    if hs.len() == 0 {
        Seq::empty()
    } else {
        delta_adds(hs.drop_last()) + hs.last().2
    }
}

/// The range `[new_start, new_start + new_lines]` of each hunk.
pub open spec fn delta_chunks(hs: Seq<(u32, u32, Seq<u32>)>) -> Seq<(u32, u32)> {
    hs.map_values(|h: (u32, u32, Seq<u32>)| (h.0, sat(h.0 + h.1)))
}

/// True for the changes that are analysed: additions, modifications and renames.
pub open spec fn analysed_status(s: DeltaStatus) -> bool {
    s == DeltaStatus::Added || s == DeltaStatus::Modified || s == DeltaStatus::Renamed
}

/// The record for one reported change, if it has one: the file was added,
/// modified or renamed, has a new path that is in scope, and has at least one
/// hunk.
pub open spec fn delta_file(
    d: DeltaPlain,
    extensions: Seq<&str>,
    ignored: Seq<PathEntry>,
    not_ignored: Seq<PathEntry>,
) -> Option<FileModel> {
    match d.path {
        Some(p) => if analysed_status(d.status) && source_in_scope(
            p,
            extensions,
            ignored,
            not_ignored,
        ) && d.hunks.len() > 0 {
            Some(FileModel { name: p, added: delta_adds(d.hunks), chunks: delta_chunks(d.hunks) })
        } else {
            None
        },
        None => None,
    }
}

/// The records of the reported changes that have one, in order.
pub open spec fn delta_files(
    ds: Seq<DeltaPlain>,
    extensions: Seq<&str>,
    ignored: Seq<PathEntry>,
    not_ignored: Seq<PathEntry>,
) -> Seq<FileModel>
    decreases ds.len(),
{
    if ds.len() == 0 {
        Seq::empty()
    } else {
        let rest = delta_files(ds.drop_last(), extensions, ignored, not_ignored);
        match delta_file(ds.last(), extensions, ignored, not_ignored) {
            Some(f) => rest.push(f),
            None => rest,
        }
    }
}

fn file_of_delta(
    d: &DeltaRecord,
    extensions: &[&str],
    ignored: &[PathEntry],
    not_ignored: &[PathEntry],
) -> (r: Option<FileObj>)
    ensures
        match delta_file(plain_record(*d), extensions@, ignored@, not_ignored@) {
            Some(m) => r is Some && r->0.model() == m && r->0.wf(),
            None => r is None,
        },
{
    let ghost pd = plain_record(*d);
    let path = match &d.path {
        Some(p) => p,
        None => return None,
    };
    let analysed = match d.status {
        DeltaStatus::Added | DeltaStatus::Modified | DeltaStatus::Renamed => true,
        _ => false,
    };
    if !analysed || d.hunks.len() == 0 {
        return None;
    }
    if !is_source_or_ignored(path.as_str(), extensions, ignored, not_ignored) {
        return None;
    }
    let mut adds: Vec<u32> = Vec::new();
    let mut chunks: Vec<RangeInclusive<u32>> = Vec::new();
    let mut i: usize = 0;
    let ghost hs = pd.hunks;
    assert(hs.subrange(0, 0) =~= Seq::<(u32, u32, Seq<u32>)>::empty());
    assert(range_bounds(chunks@) =~= delta_chunks(hs.subrange(0, 0)));
    while i < d.hunks.len()
        invariant
            0 <= i <= d.hunks.len(),
            hs == d.hunks@.map_values(|h: HunkRecord| plain_hunk_record(h)),
            adds@ == delta_adds(hs.subrange(0, i as int)),
            range_bounds(chunks@) == delta_chunks(hs.subrange(0, i as int)),
        decreases d.hunks.len() - i,
    {
        let h = &d.hunks[i];
        let ghost sub = hs.subrange(0, i + 1);
        assert(sub.drop_last() =~= hs.subrange(0, i as int));
        assert(sub.last() == plain_hunk_record(*h));
        let ghost a0 = adds@;
        let mut k: usize = 0;
        assert(h.lines@.subrange(0, 0) =~= Seq::<(LineOrigin, Option<u32>)>::empty());
        assert(adds@ =~= a0 + added_of(h.lines@.subrange(0, 0)));
        while k < h.lines.len()
            invariant
                0 <= k <= h.lines.len(),
                adds@ == a0 + added_of(h.lines@.subrange(0, k as int)),
            decreases h.lines.len() - k,
        {
            let ghost sub_l = h.lines@.subrange(0, k + 1);
            assert(sub_l.drop_last() =~= h.lines@.subrange(0, k as int));
            let (origin, number) = h.lines[k];
            if let (LineOrigin::Addition, Some(n)) = (origin, number) {
                adds.push(n);
            }
            assert(adds@ =~= a0 + added_of(sub_l));
            k += 1;
        }
        assert(h.lines@.subrange(0, h.lines.len() as int) =~= h.lines@);
        let end_line: u32 = if h.new_start as u64 + h.new_lines as u64 > 0xFFFF_FFFFu64 {
            0xFFFF_FFFFu32
        } else {
            h.new_start + h.new_lines
        };
        let ghost c0 = range_bounds(chunks@);
        chunks.push(RangeInclusive::new(h.new_start, end_line));
        assert(end_line == sat(h.new_start + h.new_lines));
        assert(range_bounds(chunks@) =~= c0.push((h.new_start, end_line)));
        assert(delta_chunks(sub) =~= delta_chunks(hs.subrange(0, i as int)).push(
            (h.new_start, end_line),
        ));
        i += 1;
    }
    assert(hs.subrange(0, d.hunks.len() as int) =~= hs);
    Some(FileObj::from(path.clone(), adds, chunks))
}

/// Builds the file records from the changes a diff engine reported: one record
/// for each change that was an addition, modification or rename of a file in
/// scope with at least one hunk, holding its added lines and one range
/// `[new_start, new_start + new_lines]` per hunk.
pub fn files_from_deltas(
    deltas: &[DeltaRecord],
    extensions: &[&str],
    ignored: &[PathEntry],
    not_ignored: &[PathEntry],
) -> (r: Vec<FileObj>)
    ensures
        file_models(r@) == delta_files(plain_records(deltas@), extensions@, ignored@, not_ignored@),
        forall|k: int| 0 <= k < r@.len() ==> (#[trigger] r@[k]).wf(),
{
    let ghost pds = plain_records(deltas@);
    let mut files: Vec<FileObj> = Vec::new();
    let mut i: usize = 0;
    assert(pds.subrange(0, 0) =~= Seq::<DeltaPlain>::empty());
    assert(file_models(files@) =~= Seq::<FileModel>::empty());
    while i < deltas.len()
        invariant
            0 <= i <= deltas.len(),
            pds == plain_records(deltas@),
            file_models(files@) == delta_files(
                pds.subrange(0, i as int),
                extensions@,
                ignored@,
                not_ignored@,
            ),
            forall|k: int| 0 <= k < files@.len() ==> (#[trigger] files@[k]).wf(),
        decreases deltas.len() - i,
    {
        let ghost sub = pds.subrange(0, i + 1);
        assert(sub.drop_last() =~= pds.subrange(0, i as int));
        assert(sub.last() == plain_record(deltas@[i as int]));
        let ghost before = file_models(files@);
        match file_of_delta(&deltas[i], extensions, ignored, not_ignored) {
            Some(f) => {
                files.push(f);
                assert(file_models(files@) =~= before.push(f.model()));
            },
            None => {},
        }
        i += 1;
    }
    assert(pds.subrange(0, deltas.len() as int) =~= pds);
    files
}

#[verifier::external_type_specification]
#[verifier::external_body]
pub struct ExDiff<'a>(Diff<'a>);

#[verifier::external_type_specification]
#[verifier::external_body]
pub struct ExPatch<'a>(Patch<'a>);

/// The characters of a byte buffer read as UTF-8, with each invalid sequence
/// replaced by U+FFFD.
pub uninterp spec fn utf8_lossy(buf: Seq<u8>) -> Seq<char>;

/// Relies on `git2::Diff::from_buffer`: libgit2's parse of a patch buffer, which
/// depends on the bytes alone.
#[verifier::external_body]
fn diff_from_buffer(buf: &[u8]) -> (r: Option<Diff<'static>>)
    ensures
        match r {
            Some(d) => buffer_changes(buf@) == Some(diff_changes(d)),
            None => buffer_changes(buf@) is None,
        },
{
    Diff::from_buffer(buf).ok()
}

/// Relies on `git2::Diff::deltas` (an exact-size iterator over
/// `git_diff_num_deltas`): the number of file changes in the diff.
#[verifier::external_body]
fn delta_count(diff: &Diff) -> (r: usize)
    ensures
        r == diff_changes(*diff).len(),
{
    diff.deltas().len()
}

/// Relies on `git2::Diff::get_delta` (some for every index below the count) and
/// `DiffDelta::status`: the kind of the `i`-th change.
#[verifier::external_body]
fn delta_status(diff: &Diff, i: usize) -> (r: Option<DeltaStatus>)
    requires
        i < diff_changes(*diff).len(),
    ensures
        r == Some(diff_changes(*diff)[i as int].status),
{
    diff.get_delta(i).map(|d| match d.status() {
        Delta::Unmodified => DeltaStatus::Unmodified,
        Delta::Added => DeltaStatus::Added,
        Delta::Deleted => DeltaStatus::Deleted,
        Delta::Modified => DeltaStatus::Modified,
        Delta::Renamed => DeltaStatus::Renamed,
        Delta::Copied => DeltaStatus::Copied,
        Delta::Ignored => DeltaStatus::Ignored,
        Delta::Untracked => DeltaStatus::Untracked,
        Delta::Typechange => DeltaStatus::Typechange,
        Delta::Unreadable => DeltaStatus::Unreadable,
        Delta::Conflicted => DeltaStatus::Conflicted,
    })
}

/// Relies on `git2::Diff::get_delta`, `DiffDelta::new_file` and `DiffFile::path`:
/// the new path of the `i`-th change.
#[verifier::external_body]
fn delta_path(diff: &Diff, i: usize) -> (r: Option<String>)
    requires
        i < diff_changes(*diff).len(),
    ensures
        match r {
            Some(p) => diff_changes(*diff)[i as int].path == Some(p@),
            None => diff_changes(*diff)[i as int].path is None,
        },
{
    diff.get_delta(i).and_then(|d| d.new_file().path().map(|p| p.to_string_lossy().into_owned()))
}

/// Relies on `git2::Patch::from_diff`: the patch of the `i`-th change (none for
/// an unchanged or binary file).
#[verifier::external_body]
fn patch_of<'a>(diff: &Diff<'a>, i: usize) -> (r: Option<Patch<'a>>)
    requires
        i < diff_changes(*diff).len(),
    ensures
        match r {
            Some(p) => diff_changes(*diff)[i as int].hunks == Some(patch_hunks(p)),
            None => diff_changes(*diff)[i as int].hunks is None,
        },
{
    Patch::from_diff(diff, i).ok().flatten()
}

/// Relies on `git2::Patch::num_hunks`: the number of hunks of the patch.
#[verifier::external_body]
fn hunk_count(patch: &Patch) -> (r: usize)
    ensures
        r == patch_hunks(*patch).len(),
{
    patch.num_hunks()
}

/// Relies on `git2::Patch::hunk` (an error only for an index out of range): the
/// new start and line count of a hunk, and the number of its lines.
#[verifier::external_body]
fn hunk_info(patch: &Patch, h: usize) -> (r: Option<(u32, u32, usize)>)
    requires
        h < patch_hunks(*patch).len(),
    ensures
        match r {
            Some((start, count, n)) => start == patch_hunks(*patch)[h as int].new_start && count
                == patch_hunks(*patch)[h as int].new_lines && n == patch_hunks(
                *patch,
            )[h as int].lines.len(),
            None => false,
        },
{
    patch.hunk(h).ok().map(|(hunk, n)| (hunk.new_start(), hunk.new_lines(), n))
}

/// Relies on `git2::Patch::line_in_hunk` (an error only for an index out of
/// range) and `DiffLine::origin_value`: the origin of a line of a hunk, and its
/// number in the new file.
#[verifier::external_body]
fn hunk_line(patch: &Patch, h: usize, l: usize) -> (r: Option<(LineOrigin, Option<u32>)>)
    requires
        h < patch_hunks(*patch).len(),
        l < patch_hunks(*patch)[h as int].lines.len(),
    ensures
        r == Some(patch_hunks(*patch)[h as int].lines[l as int]),
{
    patch.line_in_hunk(h, l).ok().map(|line| {
        let origin = match line.origin_value() {
            DiffLineType::Context => LineOrigin::Context,
            DiffLineType::Addition => LineOrigin::Addition,
            DiffLineType::Deletion => LineOrigin::Deletion,
            DiffLineType::ContextEOFNL => LineOrigin::ContextEofnl,
            DiffLineType::AddEOFNL => LineOrigin::AddEofnl,
            DiffLineType::DeleteEOFNL => LineOrigin::DeleteEofnl,
            DiffLineType::FileHeader => LineOrigin::FileHeader,
            DiffLineType::HunkHeader => LineOrigin::HunkHeader,
            DiffLineType::Binary => LineOrigin::Binary,
        };
        (origin, line.new_lineno())
    })
}

/// Relies on `String::from_utf8_lossy`: valid UTF-8 is decoded as it is.
#[verifier::external_body]
fn lossy_text(buf: &[u8]) -> (r: String)
    ensures
        r@ == utf8_lossy(buf@),
        vstd::utf8::valid_utf8(buf@) ==> r@ == vstd::utf8::decode_utf8(buf@),
{
    String::from_utf8_lossy(buf).into_owned()
}

/// The plain values of a list of hunk records.
pub open spec fn plain_hunk_records(hs: Seq<HunkRecord>) -> Seq<(u32, u32, Seq<u32>)> {
    hs.map_values(|h: HunkRecord| plain_hunk_record(h))
}

/// Reads the hunks of a patch into plain records.
fn read_hunks(patch: &Patch) -> (r: Vec<HunkRecord>)
    ensures
        plain_hunk_records(r@) == patch_hunks(*patch).map_values(|h: HunkModel| plain_hunk(h)),
{
    let ghost model = patch_hunks(*patch);
    let mut hunks: Vec<HunkRecord> = Vec::new();
    let n = hunk_count(patch);
    let mut h: usize = 0;
    while h < n
        invariant
            n == model.len(),
            model == patch_hunks(*patch),
            0 <= h <= n,
            hunks@.len() == h,
            forall|k: int| 0 <= k < h ==> plain_hunk_record(#[trigger] hunks@[k]) == plain_hunk(model[k]),
        decreases n - h,
    {
        let (new_start, new_lines, lines) = match hunk_info(patch, h) {
            Some(info) => info,
            None => (0, 0, 0),
        };
        let ghost hm = model[h as int];
        let mut hunk_lines: Vec<(LineOrigin, Option<u32>)> = Vec::new();
        let mut l: usize = 0;
        while l < lines
            invariant
                hm == model[h as int],
                model == patch_hunks(*patch),
                h < model.len(),
                lines == hm.lines.len(),
                0 <= l <= lines,
                hunk_lines@ == hm.lines.subrange(0, l as int),
            decreases lines - l,
        {
            let line = match hunk_line(patch, h, l) {
                Some(line) => line,
                None => (LineOrigin::Context, None),
            };
            hunk_lines.push(line);
            l += 1;
            assert(hunk_lines@ =~= hm.lines.subrange(0, l as int));
        }
        assert(hm.lines.subrange(0, lines as int) =~= hm.lines);
        hunks.push(HunkRecord { new_start, new_lines, lines: hunk_lines });
        h += 1;
    }
    assert(plain_hunk_records(hunks@) =~= model.map_values(|h: HunkModel| plain_hunk(h)));
    hunks
}

/// Reads the changes of a diff into plain records, in the diff's order.
pub fn read_deltas(diff: &Diff) -> (r: Vec<DeltaRecord>)
    ensures
        plain_records(r@) == plain_models(diff_changes(*diff)),
{
    let ghost model = diff_changes(*diff);
    let mut deltas: Vec<DeltaRecord> = Vec::new();
    let n = delta_count(diff);
    let mut i: usize = 0;
    while i < n
        invariant
            n == model.len(),
            model == diff_changes(*diff),
            0 <= i <= n,
            deltas@.len() == i,
            forall|k: int| 0 <= k < i ==> plain_record(#[trigger] deltas@[k]) == plain_model(model[k]),
        decreases n - i,
    {
        let status = match delta_status(diff, i) {
            Some(st) => st,
            None => DeltaStatus::Unmodified,
        };
        let hunks = match patch_of(diff, i) {
            Some(p) => read_hunks(&p),
            None => Vec::new(),
        };
        let path = delta_path(diff, i);
        let record = DeltaRecord { status, path, hunks };
        assert(plain_record(record).hunks =~= plain_model(model[i as int]).hunks);
        assert(plain_record(record) == plain_model(model[i as int]));
        deltas.push(record);
        i += 1;
    }
    assert(plain_records(deltas@) =~= plain_models(model));
    deltas
}

/// Builds the file records of a diff that libgit2 parsed (see `files_from_deltas`).
pub fn parse_diff(
    diff: &Diff,
    extensions: &[&str],
    ignored: &[PathEntry],
    not_ignored: &[PathEntry],
) -> (r: Vec<FileObj>)
    ensures
        file_models(r@) == delta_files(
            plain_models(diff_changes(*diff)),
            extensions@,
            ignored@,
            not_ignored@,
        ),
        forall|k: int| 0 <= k < r@.len() ==> (#[trigger] r@[k]).wf(),
{
    let deltas = read_deltas(diff);
    files_from_deltas(deltas.as_slice(), extensions, ignored, not_ignored)
}

/// Builds the file records of a diff buffer: with libgit2 when it accepts the
/// buffer, else with the text parser on the buffer read as UTF-8 (see
/// `parse_diff_text`).
pub fn parse_diff_from_buf(
    buff: &[u8],
    extensions: &[&str],
    ignored: &[PathEntry],
    not_ignored: &[PathEntry],
) -> (r: Vec<FileObj>)
    ensures
        forall|k: int| 0 <= k < r@.len() ==> (#[trigger] r@[k]).wf(),
        match buffer_changes(buff@) {
            Some(changes) => file_models(r@) == delta_files(
                plain_models(changes),
                extensions@,
                ignored@,
                not_ignored@,
            ),
            None => file_models(r@) == files_from(
                utf8_lossy(buff@),
                0,
                extensions@,
                ignored@,
                not_ignored@,
            ),
        },
{
    match diff_from_buffer(buff) {
        Some(diff) => parse_diff(&diff, extensions, ignored, not_ignored),
        None => parse_diff_text(lossy_text(buff).as_str(), extensions, ignored, not_ignored),
    }
}

} // verus!
