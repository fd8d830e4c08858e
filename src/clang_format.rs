//! clang-format's replacement advice and its placement at line and column positions.
use crate::common_fs::{bytes_after_line_feed, count_line_feeds, get_line_cols_from_offset};
use crate::text::{chars_of, lines_of, split_lines, string_of, views};
use vstd::prelude::*;

verus! {

/// A single replacement that clang-format advises.
pub struct Replacement {
    /// The byte offset in the file, as it stands before formatting, where the
    /// replacement starts.
    pub offset: usize,
    /// The number of bytes removed from `offset` on.
    pub length: usize,
    /// The text put in their place, if any.
    pub value: Option<String>,
    /// The 1-based line of `offset`, once it is computed.
    pub line: Option<usize>,
    /// The 1-based column of `offset`, once it is computed.
    pub cols: Option<usize>,
}

/// The replacements that clang-format advises for one file.
pub struct FormatAdvice {
    /// The replacements, in the order clang-format lists them.
    pub replacements: Vec<Replacement>,
}

/// The 1-based line of byte `offset` of `content`.
pub open spec fn line_of_offset(content: Seq<u8>, offset: int) -> nat {
    count_line_feeds(content.subrange(0, offset)) + 1
}

/// The 1-based column of byte `offset` of `content`, counted in bytes.
pub open spec fn column_of_offset(content: Seq<u8>, offset: int) -> nat {
    bytes_after_line_feed(content.subrange(0, offset)) + 1
}

/// The replacement with its line and column computed against `content`.
pub open spec fn placed(r: Replacement, content: Seq<u8>) -> Replacement {
    Replacement {
        line: Some(line_of_offset(content, r.offset as int) as usize),
        cols: Some(column_of_offset(content, r.offset as int) as usize),
        ..r
    }
}

impl FormatAdvice {
    /// Advice without replacements.
    pub fn new() -> (r: FormatAdvice)
        ensures
            r.replacements@.len() == 0,
    {
        FormatAdvice { replacements: Vec::new() }
    }

    /// Every replacement's offset lies within `content`.
    pub open spec fn offsets_within(&self, content: Seq<u8>) -> bool {
        forall|k: int|
            0 <= k < self.replacements@.len() ==> (#[trigger] self.replacements@[k]).offset
                <= content.len()
    }

    /// Computes the line and column of every replacement's offset against the
    /// file's current content; the rest of each replacement is kept.
    pub fn set_positions(&mut self, content: &[u8])
        requires
            old(self).offsets_within(content@),
            content@.len() < usize::MAX,
        ensures
            final(self).replacements@.len() == old(self).replacements@.len(),
            forall|k: int|
                0 <= k < final(self).replacements@.len() ==> #[trigger] final(self).replacements@[k]
                    == placed(old(self).replacements@[k], content@),
    {
        let ghost before = self.replacements@;
        let mut i: usize = 0;
        while i < self.replacements.len()
            invariant
                0 <= i <= self.replacements@.len(),
                self.replacements@.len() == before.len(),
                content@.len() < usize::MAX,
                forall|k: int| 0 <= k < before.len() ==> (#[trigger] before[k]).offset <= content@.len(),
                forall|k: int| 0 <= k < i ==> #[trigger] self.replacements@[k] == placed(before[k], content@),
                forall|k: int| i <= k < before.len() ==> #[trigger] self.replacements@[k] == before[k],
            decreases self.replacements@.len() - i,
        {
            let offset = self.replacements[i].offset;
            assert(offset == before[i as int].offset);
            let (line, cols) = get_line_cols_from_offset(content, offset);
            self.replacements[i].line = Some(line);
            self.replacements[i].cols = Some(cols);
            i += 1;
        }
    }
}

/// The lines of `s` put together without their line breaks.
pub open spec fn joined_lines(s: Seq<char>) -> Seq<char> {
    lines_of(s).fold_left(Seq::<char>::empty(), |acc: Seq<char>, l: Seq<char>| acc + l)
}

/// Removes the line breaks from clang-format's XML output (the line feeds, and a
/// carriage return before each), so that only the escaped breaks inside
/// replacement texts remain.
pub fn join_lines(xml: &str) -> (r: String)
    ensures
        r@ == joined_lines(xml@),
{
    let lines = split_lines(chars_of(xml).as_slice());
    let ghost lv = views(lines@);
    let mut out: Vec<char> = Vec::new();
    let mut i: usize = 0;
    assert(lv.subrange(0, 0) =~= Seq::<Seq<char>>::empty());
    while i < lines.len()
        invariant
            0 <= i <= lines.len(),
            lv == views(lines@),
            out@ == lv.subrange(0, i as int).fold_left(
                Seq::<char>::empty(),
                |acc: Seq<char>, l: Seq<char>| acc + l,
            ),
        decreases lines.len() - i,
    {
        let ghost sub = lv.subrange(0, i + 1);
        assert(sub.drop_last() =~= lv.subrange(0, i as int));
        let line = &lines[i];
        assert(line@ == sub.last());
        let ghost o0 = out@;
        let mut j: usize = 0;
        while j < line.len()
            invariant
                0 <= j <= line.len(),
                out@ == o0 + line@.subrange(0, j as int),
            decreases line.len() - j,
        {
            out.push(line[j]);
            j += 1;
            assert(out@ =~= o0 + line@.subrange(0, j as int));
        }
        assert(line@.subrange(0, line.len() as int) =~= line@);
        i += 1;
    }
    assert(lv.subrange(0, lines.len() as int) =~= lv);
    string_of(out.as_slice())
}

} // verus!
