//! File records, line-range consolidation, path filters and path normalisation.
use crate::text::{
    chars_eq, chars_of, lemma_split_on_nonempty, slice_chars, split_chars, split_on, string_of, views,
};
use std::ops::RangeInclusive;
use vstd::prelude::*;

verus! {

/// True when the line numbers rise strictly from one to the next.
pub open spec fn strictly_ascending(s: Seq<u32>) -> bool {
    forall|i: int, j: int| 0 <= i < j < s.len() ==> s[i] < s[j]
}

/// The consolidated ranges of a sequence of line numbers, as (start, end) pairs.
///
/// Each number either extends the last range (when it follows the previous
/// number directly) or opens a new one-element range.
pub open spec fn consolidated(s: Seq<u32>) -> Seq<(u32, u32)>
    decreases s.len(),
{
    if s.len() == 0 {
        Seq::empty()
    } else {
        let prev = consolidated(s.drop_last());
        let x = s.last();
        if s.len() > 1 && s[s.len() - 2] + 1 == x {
            prev.update(prev.len() - 1, (prev.last().0, x))
        } else {
            prev.push((x, x))
        }
    }
}

/// The (start, end) pairs of a list of inclusive ranges.
pub open spec fn range_bounds(v: Seq<RangeInclusive<u32>>) -> Seq<(u32, u32)> {
    v.map_values(|r: RangeInclusive<u32>| (r@.start, r@.end))
}

/// The numbers `a, a + 1, ..., b`.
pub open spec fn span(a: u32, b: u32) -> Seq<u32> {
    Seq::new((b - a + 1) as nat, |i: int| (a + i) as u32)
}

/// Every number of every range, range after range.
pub open spec fn expand(rs: Seq<(u32, u32)>) -> Seq<u32>
    decreases rs.len(),
{
    if rs.len() == 0 {
        Seq::empty()
    } else {
        expand(rs.drop_last()) + span(rs.last().0, rs.last().1)
    }
}

/// The ranges are ordered, each is non-empty, and two neighbours are separated
/// by at least one missing number (so no two of them could be merged).
pub open spec fn ranges_maximal(rs: Seq<(u32, u32)>) -> bool {
    &&& forall|k: int| 0 <= k < rs.len() ==> rs[k].0 <= rs[k].1
    &&& forall|k: int| 0 <= k < rs.len() - 1 ==> rs[k].1 + 1 < rs[k + 1].0
}

proof fn lemma_consolidated_shape(s: Seq<u32>)
    requires
        strictly_ascending(s),
    ensures
        ranges_maximal(consolidated(s)),
        s.len() > 0 ==> consolidated(s).len() > 0 && consolidated(s).last().1 == s.last()
            && consolidated(s)[0].0 == s[0],
        s.len() == 0 ==> consolidated(s).len() == 0,
    decreases s.len(),
{
    if s.len() > 0 {
        let t = s.drop_last();
        assert(strictly_ascending(t));
        lemma_consolidated_shape(t);
    }
}

proof fn lemma_span_push(a: u32, b: u32)
    requires
        a <= b,
        b < u32::MAX,
    ensures
        span(a, (b + 1) as u32) =~= span(a, b).push((b + 1) as u32),
{
}

/// Re-expanding the consolidated ranges of a strictly ascending sequence gives the
/// sequence back.
pub proof fn lemma_expand_consolidated(s: Seq<u32>)
    requires
        strictly_ascending(s),
    ensures
        expand(consolidated(s)) == s,
    decreases s.len(),
{
    if s.len() > 0 {
        let t = s.drop_last();
        assert(strictly_ascending(t));
        lemma_expand_consolidated(t);
        lemma_consolidated_shape(t);
        let prev = consolidated(t);
        let x = s.last();
        if s.len() > 1 && s[s.len() - 2] + 1 == x {
            let rs = consolidated(s);
            assert(rs.drop_last() =~= prev.drop_last());
            lemma_span_push(prev.last().0, prev.last().1);
            assert(expand(prev) == expand(prev.drop_last()) + span(prev.last().0, prev.last().1));
            assert(expand(rs) =~= expand(prev) + seq![x]);
        } else {
            let rs = consolidated(s);
            assert(rs.drop_last() =~= prev);
            assert(span(x, x) =~= seq![x]);
        }
        assert(s =~= t + seq![s.last()]);
    }
}

/// Consolidation is idempotent: consolidating the numbers that the consolidated
/// ranges cover gives the same ranges again. The ranges are also ordered,
/// non-empty and pairwise non-adjacent.
pub proof fn lemma_consolidate_idempotent(s: Seq<u32>)
    requires
        strictly_ascending(s),
    ensures
        consolidated(expand(consolidated(s))) == consolidated(s),
        ranges_maximal(consolidated(s)),
{
    lemma_expand_consolidated(s);
    lemma_consolidated_shape(s);
}

/// A record of one changed file: its path and the lines that the diff touches.
pub struct FileObj {
    /// The path of the file, relative to the repository root.
    pub name: String,
    /// The line numbers that hold additions, in ascending order.
    pub added_lines: Vec<u32>,
    /// The maximal ranges of consecutive added lines.
    pub added_ranges: Vec<RangeInclusive<u32>>,
    /// One range per diff hunk, in the new file's numbering.
    pub diff_chunks: Vec<RangeInclusive<u32>>,
}

/// The content of a file record as plain values: its path, added lines and
/// hunk ranges.
pub struct FileModel {
    pub name: Seq<char>,
    pub added: Seq<u32>,
    pub chunks: Seq<(u32, u32)>,
}

/// The models of a list of file records.
pub open spec fn file_models(v: Seq<FileObj>) -> Seq<FileModel> {
    v.map_values(|f: FileObj| f.model())
}

impl FileObj {
    /// The path, the added lines and the hunk ranges of the record.
    pub open spec fn model(&self) -> FileModel {
        FileModel {
            name: self.name@,
            added: self.added_lines@,
            chunks: range_bounds(self.diff_chunks@),
        }
    }

    /// The record is well formed: the added-line ranges are exactly the
    /// consolidation of the added lines.
    pub open spec fn wf(&self) -> bool {
        range_bounds(self.added_ranges@) == consolidated(self.added_lines@)
    }

    /// A record that names a file and holds no line information.
    pub fn new(name: String) -> (r: FileObj)
        ensures
            r.name@ == name@,
            r.added_lines@.len() == 0,
            r.added_ranges@.len() == 0,
            r.diff_chunks@.len() == 0,
            r.wf(),
    {
        let r = FileObj {
            name,
            added_lines: Vec::new(),
            added_ranges: Vec::new(),
            diff_chunks: Vec::new(),
        };
        assert(range_bounds(r.added_ranges@) =~= consolidated(r.added_lines@));
        r
    }

    /// A record with its added lines and hunk ranges; the added-line ranges are
    /// computed from the added lines.
    pub fn from(name: String, added_lines: Vec<u32>, diff_chunks: Vec<RangeInclusive<u32>>) -> (r:
        FileObj)
        ensures
            r.name@ == name@,
            r.added_lines@ == added_lines@,
            r.diff_chunks@ == diff_chunks@,
            range_bounds(r.added_ranges@) == consolidated(added_lines@),
            r.wf(),
    {
        let added_ranges = FileObj::consolidate_numbers_to_ranges(&added_lines);
        FileObj { name, added_lines, added_ranges, diff_chunks }
    }

    /// The ranges that a line filter uses: the hunk ranges when
    /// `lines_changed_only` is 2, else the ranges of added lines.
    pub fn get_ranges(&self, lines_changed_only: u8) -> (r: &Vec<RangeInclusive<u32>>)
        ensures
            lines_changed_only == 2 ==> r@ == self.diff_chunks@,
            lines_changed_only != 2 ==> r@ == self.added_ranges@,
    {
        if lines_changed_only == 2 {
            &self.diff_chunks
        } else {
            &self.added_ranges
        }
    }

    /// Groups line numbers into inclusive ranges: a number extends the current
    /// range when it directly follows the previous number, and opens a new range
    /// otherwise. For strictly ascending numbers this is the minimal list of
    /// ranges of consecutive numbers (see `lemma_consolidate_idempotent`).
    pub fn consolidate_numbers_to_ranges(lines: &Vec<u32>) -> (r: Vec<RangeInclusive<u32>>)
        ensures
            range_bounds(r@) == consolidated(lines@),
    {
        let mut ranges: Vec<RangeInclusive<u32>> = Vec::new();
        if lines.len() == 0 {
            assert(range_bounds(ranges@) =~= consolidated(lines@));
            return ranges;
        }
        let mut range_start: u32 = lines[0];
        let mut index: usize = 1;
        assert(lines@.subrange(0, 1).drop_last() =~= Seq::<u32>::empty());
        assert(range_bounds(ranges@) =~= Seq::<(u32, u32)>::empty());
        assert(consolidated(lines@.subrange(0, 1).drop_last()) =~= Seq::<(u32, u32)>::empty());
        assert(consolidated(lines@.subrange(0, 1)) =~= seq![(range_start, range_start)]);
        while index < lines.len()
            invariant
                1 <= index <= lines.len(),
                range_bounds(ranges@).push((range_start, lines@[index - 1])) == consolidated(
                    lines@.subrange(0, index as int),
                ),
            decreases lines.len() - index,
        {
            let number = lines[index];
            let ghost pre = lines@.subrange(0, index as int);
            let ghost cur = lines@.subrange(0, index + 1);
            assert(cur.drop_last() =~= pre);
            if !(number > 0 && number - 1 == lines[index - 1]) {
                let ghost before = range_bounds(ranges@);
                ranges.push(RangeInclusive::new(range_start, lines[index - 1]));
                assert(range_bounds(ranges@) =~= before.push((range_start, lines@[index - 1])));
                range_start = number;
            } else {
                assert(consolidated(cur) =~= range_bounds(ranges@).push((range_start, number)));
            }
            index += 1;
        }
        let ghost before = range_bounds(ranges@);
        ranges.push(RangeInclusive::new(range_start, lines[lines.len() - 1]));
        assert(range_bounds(ranges@) =~= before.push((range_start, lines@[lines.len() - 1])));
        assert(lines@.subrange(0, lines.len() as int) =~= lines@);
        ranges
    }
}

/// A piece of a path that names something: neither empty nor `.`.
pub open spec fn is_named_piece(p: Seq<char>) -> bool {
    p.len() > 0 && p != seq!['.']
}

/// The components of a path, as `std::path::Path::components` gives them on Unix:
/// a leading `/` for the root, or a leading `.` when the path starts with that
/// directory, then every piece between slashes but the empty ones and `.`.
pub open spec fn path_components(s: Seq<char>) -> Seq<Seq<char>> {
    let pieces = split_on(s, '/');
    let head = if s.len() > 0 && s[0] == '/' {
        seq![seq!['/']]
    } else if pieces[0] == seq!['.'] {
        seq![seq!['.']]
    } else {
        Seq::empty()
    };
    head + named_pieces(pieces)
}

/// The pieces that name something, in order.
pub open spec fn named_pieces(p: Seq<Seq<char>>) -> Seq<Seq<char>>
    decreases p.len(),
{
    if p.len() == 0 {
        Seq::empty()
    } else if is_named_piece(p.last()) {
        named_pieces(p.drop_last()).push(p.last())
    } else {
        named_pieces(p.drop_last())
    }
}

fn is_single(c: &[char], ch: char) -> (r: bool)
    ensures
        r == (c@ == seq![ch]),
{
    if c.len() == 1 && c[0] == ch {
        assert(c@ =~= seq![ch]);
        true
    } else {
        false
    }
}

fn is_dot_dot(c: &[char]) -> (r: bool)
    ensures
        r == (c@ == seq!['.', '.']),
{
    if c.len() == 2 && c[0] == '.' && c[1] == '.' {
        assert(c@ =~= seq!['.', '.']);
        true
    } else {
        false
    }
}

/// Computes the components of a path (see `path_components`).
pub fn components(s: &[char]) -> (r: Vec<Vec<char>>)
    ensures
        views(r@) == path_components(s@),
{
    let pieces = split_chars(s, '/');
    proof {
        lemma_split_on_nonempty(s@, '/');
    }
    let mut out: Vec<Vec<char>> = Vec::new();
    assert(pieces@[0]@ == split_on(s@, '/')[0]);
    if s.len() > 0 && s[0] == '/' {
        let root: Vec<char> = vec!['/'];
        assert(root@ =~= seq!['/']);
        out.push(root);
        assert(views(out@) =~= seq![seq!['/']]);
    } else if is_single(pieces[0].as_slice(), '.') {
        let cur: Vec<char> = vec!['.'];
        assert(cur@ =~= seq!['.']);
        out.push(cur);
        assert(views(out@) =~= seq![seq!['.']]);
    } else {
        assert(views(out@) =~= Seq::<Seq<char>>::empty());
    }
    let ghost head = views(out@);
    let ghost pv = views(pieces@);
    assert(named_pieces(pv.subrange(0, 0)) =~= Seq::<Seq<char>>::empty());
    assert(views(out@) =~= head + named_pieces(pv.subrange(0, 0)));
    let mut i: usize = 0;
    while i < pieces.len()
        invariant
            0 <= i <= pieces.len(),
            pv == views(pieces@),
            views(out@) == head + named_pieces(pv.subrange(0, i as int)),
        decreases pieces.len() - i,
    {
        let ghost sub = pv.subrange(0, i + 1);
        assert(sub.drop_last() =~= pv.subrange(0, i as int));
        let ghost before = views(out@);
        let piece = &pieces[i];
        let is_dot = is_single(piece.as_slice(), '.');
        assert(piece@ == pv[i as int]);
        assert(sub.last() == pv[i as int]);
        if piece.len() > 0 && !is_dot {
            assert(is_named_piece(pv[i as int]));
            assert(named_pieces(sub) == named_pieces(pv.subrange(0, i as int)).push(pv[i as int]));
            out.push(piece.clone());
            assert(views(out@) =~= before.push(pv[i as int]));
            assert(views(out@) =~= head + named_pieces(sub));
        } else {
            assert(!is_named_piece(pv[i as int]));
            assert(named_pieces(sub) == named_pieces(pv.subrange(0, i as int)));
        }
        i += 1;
    }
    assert(pv.subrange(0, pieces.len() as int) =~= pv);
    out
}

/// The result of `PathBuf::push` for each component in turn, where `..` removes
/// the last named component (`PathBuf::pop`) and `.` is skipped.
pub open spec fn fold_components(c: Seq<Seq<char>>) -> Seq<Seq<char>>
    decreases c.len(),
{
    if c.len() == 0 {
        Seq::empty()
    } else {
        let r = fold_components(c.drop_last());
        let x = c.last();
        if x == seq!['.'] {
            r
        } else if x == seq!['.', '.'] {
            if r.len() > 0 && r.last() != seq!['/'] {
                r.drop_last()
            } else {
                r
            }
        } else {
            r.push(x)
        }
    }
}

/// Named components joined by slashes.
pub open spec fn join_slash(parts: Seq<Seq<char>>) -> Seq<char>
    decreases parts.len(),
{
    if parts.len() == 0 {
        Seq::empty()
    } else if parts.len() == 1 {
        parts[0]
    } else {
        join_slash(parts.drop_last()) + seq!['/'] + parts.last()
    }
}

/// The text of a path made of these components.
pub open spec fn render_path(c: Seq<Seq<char>>) -> Seq<char> {
    if c.len() > 0 && c[0] == seq!['/'] {
        seq!['/'] + join_slash(c.drop_first())
    } else {
        join_slash(c)
    }
}

/// The lexically normalised form of a path: `.` removed and `..` resolved against
/// the components before it, without looking at the file system.
pub open spec fn normalized(s: Seq<char>) -> Seq<char> {
    render_path(fold_components(path_components(s)))
}

pub(crate) fn render(c: &Vec<Vec<char>>) -> (r: Vec<char>)
    ensures
        r@ == render_path(views(c@)),
{
    let ghost v = views(c@);
    let mut out: Vec<char> = Vec::new();
    let mut k0: usize = 0;
    if c.len() > 0 && is_single(c[0].as_slice(), '/') {
        out.push('/');
        k0 = 1;
    }
    let ghost head = out@;
    assert(v.subrange(k0 as int, k0 as int) =~= Seq::<Seq<char>>::empty());
    assert(out@ =~= head + join_slash(v.subrange(k0 as int, k0 as int)));
    let mut i = k0;
    while i < c.len()
        invariant
            k0 <= i <= c.len(),
            k0 <= 1,
            v == views(c@),
            out@ == head + join_slash(v.subrange(k0 as int, i as int)),
        decreases c.len() - i,
    {
        let ghost sub = v.subrange(k0 as int, i + 1);
        assert(sub.drop_last() =~= v.subrange(k0 as int, i as int));
        if i > k0 {
            out.push('/');
        }
        let piece = &c[i];
        let mut j: usize = 0;
        let ghost mid = out@;
        while j < piece.len()
            invariant
                0 <= j <= piece.len(),
                out@ == mid + piece@.subrange(0, j as int),
            decreases piece.len() - j,
        {
            out.push(piece[j]);
            j += 1;
            assert(out@ =~= mid + piece@.subrange(0, j as int));
        }
        assert(piece@.subrange(0, piece.len() as int) =~= piece@);
        assert(out@ =~= head + join_slash(sub));
        i += 1;
    }
    if k0 == 1 {
        assert(v.subrange(k0 as int, c.len() as int) =~= v.drop_first());
    } else {
        assert(v.subrange(k0 as int, c.len() as int) =~= v);
    }
    out
}

/// Normalises a path lexically: `.` components are removed and each `..` removes
/// the named component before it, as far as there is one. The file system is not
/// consulted.
pub fn normalize_path(path: &str) -> (r: String)
    ensures
        r@ == normalized(path@),
{
    let chars = chars_of(path);
    let comps = components(chars.as_slice());
    let ghost cv = views(comps@);
    let mut ret: Vec<Vec<char>> = Vec::new();
    let mut i: usize = 0;
    assert(cv.subrange(0, 0) =~= Seq::<Seq<char>>::empty());
    assert(views(ret@) =~= fold_components(cv.subrange(0, 0)));
    while i < comps.len()
        invariant
            0 <= i <= comps.len(),
            cv == views(comps@),
            views(ret@) == fold_components(cv.subrange(0, i as int)),
        decreases comps.len() - i,
    {
        let ghost sub = cv.subrange(0, i + 1);
        assert(sub.drop_last() =~= cv.subrange(0, i as int));
        let ghost before = views(ret@);
        let c = &comps[i];
        assert(c@ == cv[i as int]);
        if is_single(c.as_slice(), '.') {
        } else if is_dot_dot(c.as_slice()) {
            if ret.len() > 0 && !is_single(ret[ret.len() - 1].as_slice(), '/') {
                ret.pop();
                assert(views(ret@) =~= before.drop_last());
            }
        } else {
            ret.push(c.clone());
            assert(views(ret@) =~= before.push(cv[i as int]));
        }
        i += 1;
    }
    assert(cv.subrange(0, comps.len() as int) =~= cv);
    let out = render(&ret);
    string_of(out.as_slice())
}

/// What a listed path is on disk, as found when the list was made.
#[derive(Clone, Copy, PartialEq, Eq, Structural, Debug)]
pub enum PathKind {
    /// A regular file: only that file matches.
    File,
    /// A directory: every path under it matches.
    Dir,
    /// Nothing exists at the path: nothing matches.
    Missing,
}

/// A path of an ignore list together with what it is on disk.
pub struct PathEntry {
    /// The listed path.
    pub path: String,
    /// What the listed path is.
    pub kind: PathKind,
}

/// True when `pre` is a leading part of `full`.
pub open spec fn is_prefix_of(pre: Seq<Seq<char>>, full: Seq<Seq<char>>) -> bool {
    pre.len() <= full.len() && full.subrange(0, pre.len() as int) == pre
}

/// Whether the entry covers the file: a file entry names the same path, a
/// directory entry is a leading part of it, component by component.
pub open spec fn entry_matches(file: Seq<char>, e: PathEntry) -> bool {
    match e.kind {
        PathKind::File => path_components(file) == path_components(e.path@),
        PathKind::Dir => is_prefix_of(path_components(e.path@), path_components(file)),
        PathKind::Missing => false,
    }
}

/// Whether some entry of the list covers the file.
pub open spec fn in_list(file: Seq<char>, set: Seq<PathEntry>) -> bool {
    exists|k: int| 0 <= k < set.len() && entry_matches(file, #[trigger] set[k])
}

pub(crate) fn comps_prefix(pre: &Vec<Vec<char>>, full: &Vec<Vec<char>>) -> (r: bool)
    ensures
        r == is_prefix_of(views(pre@), views(full@)),
{
    if pre.len() > full.len() {
        return false;
    }
    let mut k: usize = 0;
    while k < pre.len()
        invariant
            pre.len() <= full.len(),
            0 <= k <= pre.len(),
            forall|j: int| 0 <= j < k ==> views(full@)[j] == views(pre@)[j],
        decreases pre.len() - k,
    {
        if !chars_eq(full[k].as_slice(), pre[k].as_slice()) {
            assert(views(full@).subrange(0, pre.len() as int)[k as int] != views(pre@)[k as int]);
            return false;
        }
        k += 1;
    }
    assert(views(full@).subrange(0, pre.len() as int) =~= views(pre@));
    true
}

pub(crate) fn comps_eq(a: &Vec<Vec<char>>, b: &Vec<Vec<char>>) -> (r: bool)
    ensures
        r == (views(a@) == views(b@)),
{
    if a.len() != b.len() {
        assert(views(a@).len() != views(b@).len());
        return false;
    }
    let r = comps_prefix(a, b);
    assert(views(b@).subrange(0, a.len() as int) =~= views(b@));
    r
}

/// Tells whether `file_name` is covered by one of the listed paths: equal to a
/// listed file, or inside a listed directory at any depth.
pub fn is_file_in_list(file_name: &str, set: &[PathEntry]) -> (r: bool)
    ensures
        r == in_list(file_name@, set@),
{
    let file = components(chars_of(file_name).as_slice());
    let mut k: usize = 0;
    while k < set.len()
        invariant
            0 <= k <= set.len(),
            views(file@) == path_components(file_name@),
            forall|j: int| 0 <= j < k ==> !entry_matches(file_name@, #[trigger] set@[j]),
        decreases set.len() - k,
    {
        let entry = &set[k];
        let pat = components(chars_of(entry.path.as_str()).as_slice());
        let hit = match entry.kind {
            PathKind::File => comps_eq(&file, &pat),
            PathKind::Dir => comps_prefix(&pat, &file),
            PathKind::Missing => false,
        };
        if hit {
            assert(entry_matches(file_name@, set@[k as int]));
            return true;
        }
        k += 1;
    }
    false
}

/// The position of the last `c` in `n`, or -1.
pub open spec fn last_index(n: Seq<char>, c: char) -> int
    decreases n.len(),
{
    if n.len() == 0 {
        -1
    } else if n.last() == c {
        n.len() - 1
    } else {
        last_index(n.drop_last(), c)
    }
}

pub proof fn lemma_last_index_bounds(n: Seq<char>, c: char)
    ensures
        -1 <= last_index(n, c) < n.len(),
        last_index(n, c) >= 0 ==> n[last_index(n, c)] == c,
    decreases n.len(),
{
    if n.len() > 0 {
        lemma_last_index_bounds(n.drop_last(), c);
    }
}

/// The last component when it names a file or directory (`Path::file_name`).
pub open spec fn file_name_of(s: Seq<char>) -> Option<Seq<char>> {
    let c = path_components(s);
    if c.len() > 0 && c.last() != seq!['/'] && c.last() != seq!['.'] && c.last() != seq!['.', '.'] {
        Some(c.last())
    } else {
        None
    }
}

/// What follows the last dot of the file name, unless that dot begins the name
/// (`Path::extension`).
pub open spec fn extension_of(s: Seq<char>) -> Option<Seq<char>> {
    match file_name_of(s) {
        Some(n) => {
            let i = last_index(n, '.');
            if i > 0 {
                Some(n.subrange(i + 1, n.len() as int))
            } else {
                None
            }
        },
        None => None,
    }
}

/// Computes the extension of a path (see `extension_of`).
pub fn extension(path: &[char]) -> (r: Option<Vec<char>>)
    ensures
        match extension_of(path@) {
            Some(e) => r is Some && r->0@ == e,
            None => r is None,
        },
{
    let c = components(path);
    if c.len() == 0 {
        return None;
    }
    let n = &c[c.len() - 1];
    if is_single(n.as_slice(), '/') || is_single(n.as_slice(), '.') || is_dot_dot(n.as_slice()) {
        return None;
    }
    assert(file_name_of(path@) == Some(n@));
    assert(n@.subrange(0, n.len() as int) =~= n@);
    let mut i: usize = n.len();
    while i > 0 && n[i - 1] != '.'
        invariant
            0 <= i <= n.len(),
            last_index(n@.subrange(0, i as int), '.') == last_index(n@, '.'),
        decreases i,
    {
        assert(n@.subrange(0, i as int).drop_last() =~= n@.subrange(0, i - 1));
        i -= 1;
    }
    if i == 0 {
        assert(n@.subrange(0, 0) =~= Seq::<char>::empty());
        return None;
    }
    assert(n@.subrange(0, i as int).last() == '.');
    assert(n@.subrange(0, n.len() as int) =~= n@);
    if i == 1 {
        return None;
    }
    Some(slice_chars(n.as_slice(), i, n.len()))
}

/// Whether the path is in scope: its extension is one of `extensions`, and it is
/// not in the `ignored` list or else is in the `not_ignored` list.
pub open spec fn source_in_scope(
    file: Seq<char>,
    extensions: Seq<&str>,
    ignored: Seq<PathEntry>,
    not_ignored: Seq<PathEntry>,
) -> bool {
    match extension_of(file) {
        Some(e) => (exists|k: int| 0 <= k < extensions.len() && (#[trigger] extensions[k])@ == e)
            && (!in_list(file, ignored) || in_list(file, not_ignored)),
        None => false,
    }
}

fn extension_listed(extensions: &[&str], ext: &Vec<char>) -> (r: bool)
    ensures
        r == exists|k: int| 0 <= k < extensions@.len() && (#[trigger] extensions@[k])@ == ext@,
{
    let mut k: usize = 0;
    while k < extensions.len()
        invariant
            0 <= k <= extensions.len(),
            forall|j: int| 0 <= j < k ==> (#[trigger] extensions@[j])@ != ext@,
        decreases extensions.len() - k,
    {
        if chars_eq(chars_of(extensions[k]).as_slice(), ext.as_slice()) {
            return true;
        }
        k += 1;
    }
    false
}

/// Tells whether a path is a source file in scope: its extension is listed, and
/// it is not ignored unless it is explicitly not ignored.
pub fn is_source_or_ignored(
    entry: &str,
    extensions: &[&str],
    ignored: &[PathEntry],
    not_ignored: &[PathEntry],
) -> (r: bool)
    ensures
        r == source_in_scope(entry@, extensions@, ignored@, not_ignored@),
{
    let ext = match extension(chars_of(entry).as_slice()) {
        Some(e) => e,
        None => return false,
    };
    if !extension_listed(extensions, &ext) {
        return false;
    }
    let is_in_ignored = is_file_in_list(entry, ignored);
    let is_in_not_ignored = is_file_in_list(entry, not_ignored);
    !is_in_ignored || is_in_not_ignored
}

/// The number of line feeds in `b`.
pub open spec fn count_line_feeds(b: Seq<u8>) -> nat
    decreases b.len(),
{
    if b.len() == 0 {
        0
    } else {
        count_line_feeds(b.drop_last()) + if b.last() == 10u8 {
            1nat
        } else {
            0nat
        }
    }
}

/// The number of bytes after the last line feed of `b` (all of them if it has none).
pub open spec fn bytes_after_line_feed(b: Seq<u8>) -> nat
    decreases b.len(),
{
    if b.len() == 0 {
        0
    } else if b.last() == 10u8 {
        0
    } else {
        bytes_after_line_feed(b.drop_last()) + 1
    }
}

proof fn lemma_line_counts_bounded(b: Seq<u8>)
    ensures
        count_line_feeds(b) + bytes_after_line_feed(b) <= b.len(),
    decreases b.len(),
{
    if b.len() > 0 {
        lemma_line_counts_bounded(b.drop_last());
    }
}

/// The 1-based line and column of byte `offset` of a file's content: one more
/// than the line feeds before it, and one more than the bytes between the last
/// of them and the offset.
pub fn get_line_cols_from_offset(file_buf: &[u8], offset: usize) -> (r: (usize, usize))
    requires
        offset <= file_buf@.len(),
        file_buf@.len() < usize::MAX,
    ensures
        r.0 == count_line_feeds(file_buf@.subrange(0, offset as int)) + 1,
        r.1 == bytes_after_line_feed(file_buf@.subrange(0, offset as int)) + 1,
{
    let mut lines: usize = 0;
    let mut cols: usize = 0;
    let mut i: usize = 0;
    while i < offset
        invariant
            0 <= i <= offset <= file_buf@.len() < usize::MAX,
            lines == count_line_feeds(file_buf@.subrange(0, i as int)),
            cols == bytes_after_line_feed(file_buf@.subrange(0, i as int)),
        decreases offset - i,
    {
        proof {
            assert(file_buf@.subrange(0, i + 1).drop_last() =~= file_buf@.subrange(0, i as int));
            lemma_line_counts_bounded(file_buf@.subrange(0, i as int));
        }
        if file_buf[i] == 10u8 {
            lines += 1;
            cols = 0;
        } else {
            cols += 1;
        }
        i += 1;
    }
    proof {
        lemma_line_counts_bounded(file_buf@.subrange(0, offset as int));
    }
    (lines + 1, cols + 1)
}

} // verus!
