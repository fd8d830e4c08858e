//! The `--ignore` option: its patterns split into ignored and explicitly kept paths.
use crate::text::{
    chars_at, chars_of, forward_slashes, holds_at, skip_space, skip_spaces, slice_chars,
    split_chars, split_on, string_of, to_forward_slashes, trim, trimmed, views,
};
use vstd::prelude::*;

verus! {

/// True when the pattern, with forward slashes, starts with `!`.
pub open spec fn is_negated(p: Seq<char>) -> bool {
    p.len() > 0 && p[0] == '!'
}

/// The path of an ignore pattern: forward slashes, without a leading `!`, then
/// without a leading `./`.
pub open spec fn pattern_body(p: Seq<char>) -> Seq<char> {
    let q = forward_slashes(p);
    let q1 = if is_negated(q) {
        q.drop_first()
    } else {
        q
    };
    if holds_at(q1, 0, seq!['.', '/']) {
        q1.subrange(2, q1.len() as int)
    } else {
        q1
    }
}

/// Whether a pattern goes to the ignored list: it is not negated, or its path is
/// hidden (starts with `.`).
pub open spec fn pattern_ignored(p: Seq<char>) -> bool {
    let b = pattern_body(p);
    !is_negated(forward_slashes(p)) || (b.len() > 0 && b[0] == '.')
}

/// The listed form of a pattern: `./` and its path.
pub open spec fn pattern_entry(p: Seq<char>) -> Seq<char> {
    seq!['.', '/'] + pattern_body(p)
}

/// The ignored and explicitly kept paths of the patterns, in order.
pub open spec fn split_patterns(ps: Seq<Seq<char>>) -> (Seq<Seq<char>>, Seq<Seq<char>>)
    decreases ps.len(),
{
    if ps.len() == 0 {
        (Seq::empty(), Seq::empty())
    } else {
        let prev = split_patterns(ps.drop_last());
        let p = ps.last();
        if pattern_ignored(p) {
            (prev.0.push(pattern_entry(p)), prev.1)
        } else {
            (prev.0, prev.1.push(pattern_entry(p)))
        }
    }
}

/// The submodule path that a line of a `.gitmodules` file declares: a line that
/// starts (after white space) with `path` and holds `=`; the path is what follows
/// the last `=`, trimmed, behind `./`.
pub open spec fn submodule_of(line: Seq<char>) -> Option<Seq<char>> {
    let k = crate::common_fs::last_index(line, '=');
    if holds_at(line, skip_space(line, 0), seq!['p', 'a', 't', 'h']) && k >= 0 {
        Some(seq!['.', '/'] + trimmed(line.subrange(k + 1, line.len() as int)))
    } else {
        None
    }
}

/// The ignored list after adding, line by line, each declared submodule that is
/// in neither list yet.
pub open spec fn add_submodules(
    lines: Seq<Seq<char>>,
    ignored: Seq<Seq<char>>,
    not_ignored: Seq<Seq<char>>,
) -> Seq<Seq<char>>
    decreases lines.len(),
{
    if lines.len() == 0 {
        ignored
    } else {
        let ig = add_submodules(lines.drop_last(), ignored, not_ignored);
        match submodule_of(lines.last()) {
            Some(s) => if !not_ignored.contains(s) && !ig.contains(s) {
                ig.push(s)
            } else {
                ig
            },
            None => ig,
        }
    }
}

/// The views of a list of strings.
pub open spec fn string_list(v: Seq<String>) -> Seq<Seq<char>> {
    v.map_values(|s: String| s@)
}

fn pattern_parts(p: &str) -> (r: (bool, Vec<char>))
    ensures
        r.0 == pattern_ignored(p@),
        r.1@ == pattern_entry(p@),
{
    let q = to_forward_slashes(chars_of(p).as_slice());
    let negated = q.len() > 0 && q[0] == '!';
    let q1 = if negated {
        slice_chars(q.as_slice(), 1, q.len())
    } else {
        slice_chars(q.as_slice(), 0, q.len())
    };
    assert(q@.subrange(0, q@.len() as int) =~= q@);
    assert(q@.subrange(1, q@.len() as int) =~= q@.drop_first());
    let body = if chars_at(q1.as_slice(), 0, &['.', '/']) {
        slice_chars(q1.as_slice(), 2, q1.len())
    } else {
        slice_chars(q1.as_slice(), 0, q1.len())
    };
    assert(q1@.subrange(0, q1@.len() as int) =~= q1@);
    assert(body@ == pattern_body(p@));
    let hidden = body.len() > 0 && body[0] == '.';
    let mut entry = vec!['.', '/'];
    let ghost e0 = entry@;
    assert(e0 =~= seq!['.', '/']);
    let mut i: usize = 0;
    while i < body.len()
        invariant
            0 <= i <= body.len(),
            entry@ == e0 + body@.subrange(0, i as int),
        decreases body.len() - i,
    {
        entry.push(body[i]);
        i += 1;
        assert(entry@ =~= e0 + body@.subrange(0, i as int));
    }
    assert(body@.subrange(0, body.len() as int) =~= body@);
    (!negated || hidden, entry)
}

fn list_contains(list: &Vec<String>, s: &Vec<char>) -> (r: bool)
    ensures
        r == string_list(list@).contains(s@),
{
    let mut k: usize = 0;
    while k < list.len()
        invariant
            0 <= k <= list.len(),
            forall|j: int| 0 <= j < k ==> string_list(list@)[j] != s@,
        decreases list.len() - k,
    {
        if crate::text::chars_eq(chars_of(list[k].as_str()).as_slice(), s.as_slice()) {
            assert(string_list(list@)[k as int] == s@);
            return true;
        }
        k += 1;
    }
    false
}

fn submodule(line: &Vec<char>) -> (r: Option<Vec<char>>)
    ensures
        match submodule_of(line@) {
            Some(s) => r is Some && r->0@ == s,
            None => r is None,
        },
{
    let k0 = skip_spaces(line.as_slice(), 0);
    if !chars_at(line.as_slice(), k0, &['p', 'a', 't', 'h']) {
        return None;
    }
    let mut k = line.len();
    assert(line@.subrange(0, line.len() as int) =~= line@);
    while k > 0 && line[k - 1] != '='
        invariant
            0 <= k <= line.len(),
            crate::common_fs::last_index(line@.subrange(0, k as int), '=')
                == crate::common_fs::last_index(line@, '='),
        decreases k,
    {
        assert(line@.subrange(0, k as int).drop_last() =~= line@.subrange(0, k - 1));
        k -= 1;
    }
    if k == 0 {
        assert(line@.subrange(0, 0) =~= Seq::<char>::empty());
        return None;
    }
    assert(line@.subrange(0, k as int).last() == '=');
    let value = trim(slice_chars(line.as_slice(), k, line.len()).as_slice());
    let mut out = vec!['.', '/'];
    let ghost o0 = out@;
    assert(o0 =~= seq!['.', '/']);
    let mut i: usize = 0;
    while i < value.len()
        invariant
            0 <= i <= value.len(),
            out@ == o0 + value@.subrange(0, i as int),
        decreases value.len() - i,
    {
        out.push(value[i]);
        i += 1;
        assert(out@ =~= o0 + value@.subrange(0, i as int));
    }
    assert(value@.subrange(0, value.len() as int) =~= value@);
    Some(out)
}

/// Splits the `--ignore` patterns into ignored paths and explicitly kept paths,
/// each written `./<path>`. A pattern is kept when it starts with `!` and its path
/// is not hidden; otherwise it is ignored. Backslashes count as forward slashes.
///
/// When the content of a `.gitmodules` file is given, each submodule path it
/// declares (`path = <dir>`) is added to the ignored paths, unless it is already
/// in either list.
pub fn parse_ignore(ignore: &[&str], gitmodules: Option<&str>) -> (r: (Vec<String>, Vec<String>))
    ensures
        string_list(r.1@) == split_patterns(ignore@.map_values(|p: &str| p@)).1,
        string_list(r.0@) == match gitmodules {
            Some(text) => add_submodules(
                split_on(text@, '\n'),
                split_patterns(ignore@.map_values(|p: &str| p@)).0,
                split_patterns(ignore@.map_values(|p: &str| p@)).1,
            ),
            None => split_patterns(ignore@.map_values(|p: &str| p@)).0,
        },
{
    let ghost ps = ignore@.map_values(|p: &str| p@);
    let mut ignored: Vec<String> = Vec::new();
    let mut not_ignored: Vec<String> = Vec::new();
    let mut i: usize = 0;
    assert(ps.subrange(0, 0) =~= Seq::<Seq<char>>::empty());
    assert(string_list(ignored@) =~= Seq::<Seq<char>>::empty());
    assert(string_list(not_ignored@) =~= Seq::<Seq<char>>::empty());
    while i < ignore.len()
        invariant
            0 <= i <= ignore.len(),
            ps == ignore@.map_values(|p: &str| p@),
            (string_list(ignored@), string_list(not_ignored@)) == split_patterns(
                ps.subrange(0, i as int),
            ),
        decreases ignore.len() - i,
    {
        let ghost sub = ps.subrange(0, i + 1);
        assert(sub.drop_last() =~= ps.subrange(0, i as int));
        assert(sub.last() == ignore@[i as int]@);
        let (is_ignored, entry) = pattern_parts(ignore[i]);
        let ghost g0 = string_list(ignored@);
        let ghost n0 = string_list(not_ignored@);
        if is_ignored {
            ignored.push(string_of(entry.as_slice()));
            assert(string_list(ignored@) =~= g0.push(entry@));
        } else {
            not_ignored.push(string_of(entry.as_slice()));
            assert(string_list(not_ignored@) =~= n0.push(entry@));
        }
        i += 1;
    }
    assert(ps.subrange(0, ignore.len() as int) =~= ps);
    if let Some(text) = gitmodules {
        let lines = split_chars(chars_of(text).as_slice(), '\n');
        let ghost lv = views(lines@);
        let ghost start = string_list(ignored@);
        let ghost keep = string_list(not_ignored@);
        let mut j: usize = 0;
        assert(lv.subrange(0, 0) =~= Seq::<Seq<char>>::empty());
        while j < lines.len()
            invariant
                0 <= j <= lines.len(),
                lv == views(lines@),
                keep == string_list(not_ignored@),
                string_list(ignored@) == add_submodules(lv.subrange(0, j as int), start, keep),
            decreases lines.len() - j,
        {
            let ghost sub = lv.subrange(0, j + 1);
            assert(sub.drop_last() =~= lv.subrange(0, j as int));
            assert(lines@[j as int]@ == sub.last());
            match submodule(&lines[j]) {
                Some(s) => {
                    if !list_contains(&not_ignored, &s) && !list_contains(&ignored, &s) {
                        let ghost g0 = string_list(ignored@);
                        ignored.push(string_of(s.as_slice()));
                        assert(string_list(ignored@) =~= g0.push(s@));
                    }
                },
                None => {},
            }
            j += 1;
        }
        assert(lv.subrange(0, lines.len() as int) =~= lv);
    }
    (ignored, not_ignored)
}

} // verus!
