//! Parsing of clang-tidy's diagnostic output into notification records.
use crate::common_fs::{
    comps_prefix, components, is_prefix_of, normalize_path, normalized, path_components, render,
    render_path,
};
use crate::text::{
    chars_eq, chars_of, forward_slashes, is_space, lines_of, slice_chars, space, split_lines,
    string_of, to_forward_slashes, views,
};
use vstd::prelude::*;

verus! {

/// An ASCII decimal digit.
pub open spec fn is_digit(c: char) -> bool {
    '0' <= c && c <= '9'
}

/// Whether a character is a decimal digit (Unicode category Nd), as regex's
/// `\d` decides.
pub uninterp spec fn unicode_digit(c: char) -> bool;

/// Whether a character is a word character, as regex's `\w` decides.
pub uninterp spec fn unicode_word(c: char) -> bool;

/// Relies on regex's `\d` class (Unicode decimal digits): whether `c` is in it.
#[verifier::external_body]
fn regex_digit(c: char) -> (r: bool)
    ensures
        r == unicode_digit(c),
{
    regex::Regex::new(r"^\d$").unwrap().is_match(&c.to_string())
}

/// Relies on regex's `\w` class (Unicode word characters): whether `c` is in it.
#[verifier::external_body]
fn regex_word(c: char) -> (r: bool)
    ensures
        r == unicode_word(c),
{
    regex::Regex::new(r"^\w$").unwrap().is_match(&c.to_string())
}

/// True for the ASCII characters.
pub open spec fn is_ascii_char(c: char) -> bool {
    c <= '\x7f'
}

/// A decimal digit of a header: among ASCII characters `0` to `9`, beyond them
/// any Unicode decimal digit.
pub open spec fn is_header_digit(c: char) -> bool {
    if is_ascii_char(c) {
        is_digit(c)
    } else {
        unicode_digit(c)
    }
}

/// A character of a severity word: among ASCII characters a letter, a digit or
/// `_`, beyond them any Unicode word character.
pub open spec fn is_word_char(c: char) -> bool {
    if is_ascii_char(c) {
        ('a' <= c && c <= 'z') || ('A' <= c && c <= 'Z') || is_digit(c) || c == '_'
    } else {
        unicode_word(c)
    }
}

/// A character of a diagnostic name: an ASCII letter, `-`, `.`, or a decimal
/// digit.
pub open spec fn is_id_char(c: char) -> bool {
    ('a' <= c && c <= 'z') || ('A' <= c && c <= 'Z') || is_header_digit(c) || c == '-' || c
        == '.'
}

fn header_digit(c: char) -> (r: bool)
    ensures
        r == is_header_digit(c),
{
    if c <= '\x7f' {
        '0' <= c && c <= '9'
    } else {
        regex_digit(c)
    }
}

fn word_char(c: char) -> (r: bool)
    ensures
        r == is_word_char(c),
{
    if c <= '\x7f' {
        ('a' <= c && c <= 'z') || ('A' <= c && c <= 'Z') || ('0' <= c && c <= '9') || c == '_'
    } else {
        regex_word(c)
    }
}

fn id_char(c: char) -> (r: bool)
    ensures
        r == is_id_char(c),
{
    ('a' <= c && c <= 'z') || ('A' <= c && c <= 'Z') || c == '-' || c == '.' || header_digit(c)
}

/// The end of the run of header digits that starts at `p`.
pub open spec fn header_digit_end(s: Seq<char>, p: int) -> int
    decreases s.len() - p,
{
    if 0 <= p < s.len() && is_header_digit(s[p]) {
        header_digit_end(s, p + 1)
    } else {
        p
    }
}

/// The number that digits spell, when they are all ASCII and the number fits in
/// `u32`.
pub open spec fn number_of(d: Seq<char>) -> Option<u32> {
    if (forall|k: int| 0 <= k < d.len() ==> is_digit(#[trigger] d[k])) && digits_value(d)
        <= u32::MAX {
        Some(digits_value(d) as u32)
    } else {
        None
    }
}

/// The end of the run of digits that starts at `p`.
pub open spec fn digit_end(s: Seq<char>, p: int) -> int
    decreases s.len() - p,
{
    if 0 <= p < s.len() && is_digit(s[p]) {
        digit_end(s, p + 1)
    } else {
        p
    }
}

/// The end of the run of word characters that starts at `p`.
pub open spec fn word_end(s: Seq<char>, p: int) -> int
    decreases s.len() - p,
{
    if 0 <= p < s.len() && is_word_char(s[p]) {
        word_end(s, p + 1)
    } else {
        p
    }
}

/// The value of a string of decimal digits.
pub open spec fn digits_value(d: Seq<char>) -> nat
    decreases d.len(),
{
    if d.len() == 0 {
        0
    } else {
        digits_value(d.drop_last()) * 10 + (d.last() as nat - '0' as nat) as nat
    }
}

/// The parts of a diagnostic header line, as positions into the line.
pub struct HeaderSpan {
    /// The end of the path (the colon after it).
    pub path_end: int,
    /// The line number, when its digits make a `u32`.
    pub line: Option<u32>,
    /// The column number, when its digits make a `u32`.
    pub cols: Option<u32>,
    /// Where the severity word starts.
    pub severity_start: int,
    /// Where the severity word ends.
    pub severity_end: int,
    /// Where the bracket around the diagnostic name opens.
    pub bracket: int,
}

/// The header read with the path ending at the colon at `i`:
/// `:<line>:<column>:<space><severity>:<message>[<diagnostic>]` up to the end of
/// the line.
pub open spec fn header_tail(s: Seq<char>, i: int) -> Option<HeaderSpan> {
    let a = i + 1;
    let e1 = header_digit_end(s, a);
    let b = e1 + 1;
    let e2 = header_digit_end(s, b);
    let c = e2 + 2;
    let e3 = word_end(s, c);
    let j = crate::common_fs::last_index(s, '[');
    if 1 <= i < s.len() && s[i] == ':' && e1 > a && e1 < s.len() && s[e1] == ':' && e2 > b
        && e2 + 1 < s.len() && s[e2] == ':' && is_space(s[e2 + 1]) && e3 > c && e3 < s.len()
        && s[e3] == ':' && s.len() >= 2 && s.last() == ']' && j >= e3 + 1 && j + 1 < s.len() - 1
        && (forall|k: int| j + 1 <= k < s.len() - 1 ==> is_id_char(#[trigger] s[k])) {
        Some(
            HeaderSpan {
                path_end: i,
                line: number_of(s.subrange(a, e1)),
                cols: number_of(s.subrange(b, e2)),
                severity_start: c,
                severity_end: e3,
                bracket: j,
            },
        )
    } else {
        None
    }
}

/// The header read with the longest path for which the rest of the line fits,
/// looking at colons before position `n`.
pub open spec fn header_before(s: Seq<char>, n: int) -> Option<HeaderSpan>
    decreases n,
{
    if n <= 1 {
        None
    } else if header_tail(s, n - 1) is Some {
        header_tail(s, n - 1)
    } else {
        header_before(s, n - 1)
    }
}

/// How a line reads as a notification header, if it is one:
/// `<path>:<line>:<column>: <severity>:<message>[<diagnostic>]`, the path being
/// as long as the rest allows.
pub open spec fn header_of(s: Seq<char>) -> Option<HeaderSpan> {
    header_before(s, s.len() as int)
}

pub(crate) fn digits_end(s: &[char], p: usize) -> (r: usize)
    requires
        p <= s.len(),
    ensures
        r == digit_end(s@, p as int),
        p <= r <= s.len(),
{
    let mut q = p;
    while q < s.len() && '0' <= s[q] && s[q] <= '9'
        invariant
            p <= q <= s.len(),
            digit_end(s@, q as int) == digit_end(s@, p as int),
        decreases s.len() - q,
    {
        q += 1;
    }
    q
}

fn words_end(s: &[char], p: usize) -> (r: usize)
    requires
        p <= s.len(),
    ensures
        r == word_end(s@, p as int),
        p <= r <= s.len(),
{
    let mut q = p;
    while q < s.len() && word_char(s[q])
        invariant
            p <= q <= s.len(),
            word_end(s@, q as int) == word_end(s@, p as int),
        decreases s.len() - q,
    {
        q += 1;
    }
    q
}

proof fn lemma_digits_value_grows(d: Seq<char>, k: int)
    requires
        0 <= k <= d.len(),
        forall|j: int| 0 <= j < d.len() ==> is_digit(#[trigger] d[j]),
    ensures
        digits_value(d.subrange(0, k)) <= digits_value(d),
    decreases d.len(),
{
    if k < d.len() {
        assert(d.drop_last() =~= d.subrange(0, d.len() - 1));
        lemma_digits_value_grows(d.drop_last(), k);
        assert(d.drop_last().subrange(0, k) =~= d.subrange(0, k));
    } else {
        assert(d.subrange(0, k) =~= d);
    }
}

/// Reads the characters `s[a..b]` as a number, when they are ASCII digits and
/// the number fits in `u32`.
pub fn parse_digits(s: &[char], a: usize, b: usize) -> (r: Option<u32>)
    requires
        a <= b <= s.len(),
    ensures
        r == number_of(s@.subrange(a as int, b as int)),
{
    let ghost d = s@.subrange(a as int, b as int);
    let mut v: u64 = 0;
    let mut i = a;
    assert(d.subrange(0, 0) =~= Seq::<char>::empty());
    while i < b
        invariant
            a <= i <= b <= s.len(),
            d == s@.subrange(a as int, b as int),
            forall|k: int| a <= k < i ==> is_digit(#[trigger] s@[k]),
            v == digits_value(d.subrange(0, i - a)),
            v <= u32::MAX,
        decreases b - i,
    {
        if !('0' <= s[i] && s[i] <= '9') {
            assert(!is_digit(d[i - a]));
            return None;
        }
        assert(d.subrange(0, i - a + 1).drop_last() =~= d.subrange(0, i - a));
        assert(d.subrange(0, i - a + 1).last() == s@[i as int]);
        let digit = (s[i] as u32 - '0' as u32) as u64;
        v = v * 10 + digit;
        i += 1;
        if v > 0xFFFF_FFFFu64 {
            proof {
                if forall|k: int| 0 <= k < d.len() ==> is_digit(#[trigger] d[k]) {
                    lemma_digits_value_grows(d, i - a);
                }
            }
            return None;
        }
    }
    assert(d.subrange(0, b - a) =~= d);
    Some(v as u32)
}

pub(crate) fn header_digits_end(s: &[char], p: usize) -> (r: usize)
    requires
        p <= s.len(),
    ensures
        r == header_digit_end(s@, p as int),
        p <= r <= s.len(),
{
    let mut q = p;
    while q < s.len() && header_digit(s[q])
        invariant
            p <= q <= s.len(),
            header_digit_end(s@, q as int) == header_digit_end(s@, p as int),
        decreases s.len() - q,
    {
        q += 1;
    }
    q
}

fn header_tail_at(s: &[char], i: usize) -> (r: Option<(Option<u32>, Option<u32>, usize, usize, usize)>)
    requires
        i < s.len(),
    ensures
        match header_tail(s@, i as int) {
            Some(h) => r == Some((h.line, h.cols, h.severity_start as usize, h.severity_end as usize, h.bracket as usize)),
            None => r is None,
        },
{
    let n = s.len();
    if i < 1 || s[i] != ':' || n < 2 || s[n - 1] != ']' {
        return None;
    }
    let a = i + 1;
    let e1 = header_digits_end(s, a);
    if e1 == a || e1 >= n || s[e1] != ':' {
        return None;
    }
    let b = e1 + 1;
    let e2 = header_digits_end(s, b);
    if e2 == b || e2 >= n - 1 || s[e2] != ':' || !space(s[e2 + 1]) {
        return None;
    }
    let c = e2 + 2;
    let e3 = words_end(s, c);
    if e3 == c || e3 >= n || s[e3] != ':' {
        return None;
    }
    let j = match last_bracket(s) {
        Some(j) => j,
        None => return None,
    };
    if j < e3 + 1 || j + 1 >= n - 1 {
        return None;
    }
    let mut k = j + 1;
    while k < n - 1
        invariant
            j + 1 <= k <= n - 1,
            n == s.len(),
            j == crate::common_fs::last_index(s@, '['),
            forall|m: int| j + 1 <= m < k ==> is_id_char(#[trigger] s@[m]),
        decreases n - 1 - k,
    {
        if !id_char(s[k]) {
            assert(!is_id_char(s@[k as int]));
            return None;
        }
        k += 1;
    }
    let line = parse_digits(s, a, e1);
    let cols = parse_digits(s, b, e2);
    Some((line, cols, c, e3, j))
}

pub(crate) proof fn lemma_digit_run(s: Seq<char>, p: int)
    requires
        0 <= p <= s.len(),
    ensures
        p <= digit_end(s, p) <= s.len(),
        forall|k: int| p <= k < digit_end(s, p) ==> is_digit(#[trigger] s[k]),
    decreases s.len() - p,
{
    if p < s.len() && is_digit(s[p]) {
        lemma_digit_run(s, p + 1);
    }
}

fn last_bracket(s: &[char]) -> (r: Option<usize>)
    ensures
        match r {
            Some(j) => j == crate::common_fs::last_index(s@, '[') && j < s.len(),
            None => crate::common_fs::last_index(s@, '[') == -1,
        },
{
    let mut i: usize = s.len();
    assert(s@.subrange(0, s.len() as int) =~= s@);
    while i > 0 && s[i - 1] != '['
        invariant
            0 <= i <= s.len(),
            crate::common_fs::last_index(s@.subrange(0, i as int), '[') == crate::common_fs::last_index(s@, '['),
        decreases i,
    {
        assert(s@.subrange(0, i as int).drop_last() =~= s@.subrange(0, i - 1));
        i -= 1;
    }
    if i == 0 {
        assert(s@.subrange(0, 0) =~= Seq::<char>::empty());
        return None;
    }
    assert(s@.subrange(0, i as int).last() == '[');
    Some(i - 1)
}

/// The parts of a header line: path, line, column, severity, message and
/// diagnostic name.
pub struct HeaderParts {
    /// The path, as reported.
    pub path: Vec<char>,
    /// The line number, when its digits make a `u32`.
    pub line: Option<u32>,
    /// The column number, when its digits make a `u32`.
    pub cols: Option<u32>,
    /// The severity word.
    pub severity: Vec<char>,
    /// The message between the severity and the bracket.
    pub rationale: Vec<char>,
    /// The diagnostic name inside the brackets.
    pub diagnostic: Vec<char>,
}

/// Reads a line as a notification header (see `header_of`).
pub fn parse_header(s: &[char]) -> (r: Option<HeaderParts>)
    ensures
        match header_of(s@) {
            Some(h) => r is Some && r->0.path@ == s@.subrange(0, h.path_end) && r->0.line == h.line
                && r->0.cols == h.cols && r->0.severity@ == s@.subrange(
                h.severity_start,
                h.severity_end,
            ) && r->0.rationale@ == s@.subrange(h.severity_end + 1, h.bracket)
                && r->0.diagnostic@ == s@.subrange(h.bracket + 1, s@.len() - 1),
            None => r is None,
        },
{
    let mut n = s.len();
    while n > 1
        invariant
            n <= s.len(),
            header_before(s@, n as int) == header_of(s@),
        decreases n,
    {
        match header_tail_at(s, n - 1) {
            Some((line, cols, c, e3, j)) => {
                return Some(HeaderParts {
                    path: slice_chars(s, 0, n - 1),
                    line,
                    cols,
                    severity: slice_chars(s, c, e3),
                    rationale: slice_chars(s, e3 + 1, j),
                    diagnostic: slice_chars(s, j + 1, s.len() - 1),
                });
            },
            None => {},
        }
        n -= 1;
    }
    None
}

/// One unit of a compilation database: a source file and the directory it was
/// compiled in.
pub struct CompilationUnit {
    /// The directory of the build.
    pub directory: String,
    /// The source file, possibly relative to `directory`.
    pub file: String,
}

/// A compilation database: the units of a build.
pub struct CompilationDatabase {
    /// The units, in the order of the database.
    pub units: Vec<CompilationUnit>,
}

/// A single notification from clang-tidy's output.
pub struct TidyNotification {
    /// The file's path, relative to the repository root, with forward slashes.
    pub filename: String,
    /// The line of the notification.
    pub line: u32,
    /// The column of the notification.
    pub cols: u32,
    /// The severity word (such as `warning`, `error` or `note`).
    pub severity: String,
    /// The message that explains the notification.
    pub rationale: String,
    /// The name of the check that raised it.
    pub diagnostic: String,
    /// The lines that followed the header, verbatim.
    pub suggestion: Vec<String>,
}

/// The content of a notification as plain sequences (see `TidyNotification`).
pub struct NoteModel {
    pub filename: Seq<char>,
    pub line: u32,
    pub cols: u32,
    pub severity: Seq<char>,
    pub rationale: Seq<char>,
    pub diagnostic: Seq<char>,
    pub suggestion: Seq<Seq<char>>,
}

/// The views of a list of strings.
pub open spec fn string_views(v: Seq<String>) -> Seq<Seq<char>> {
    v.map_values(|x: String| x@)
}

impl TidyNotification {
    /// The notification as plain sequences.
    pub open spec fn model(&self) -> NoteModel {
        NoteModel {
            filename: self.filename@,
            line: self.line,
            cols: self.cols,
            severity: self.severity@,
            rationale: self.rationale@,
            diagnostic: self.diagnostic@,
            suggestion: string_views(self.suggestion@),
        }
    }
}

/// The models of a list of notifications.
pub open spec fn models(v: Seq<TidyNotification>) -> Seq<NoteModel> {
    v.map_values(|n: TidyNotification| n.model())
}

/// Why clang-tidy's output cannot be turned into notifications.
pub enum TidyError {
    /// A reported path does not lie under the repository root; the path as it
    /// stood in the header line.
    OutsideRoot(String),
    /// A header's line or column number is not made of ASCII digits or does not
    /// fit in `u32`; the header line.
    BadNumber(String),
}

/// The plain content of a `TidyError`.
pub enum TidyFault {
    OutsideRoot(Seq<char>),
    BadNumber(Seq<char>),
}

impl TidyError {
    /// The error as plain values.
    pub open spec fn fault(&self) -> TidyFault {
        match self {
            TidyError::OutsideRoot(p) => TidyFault::OutsideRoot(p@),
            TidyError::BadNumber(l) => TidyFault::BadNumber(l@),
        }
    }
}

/// `b` appended to `a` as `PathBuf::push` does for a relative `b`.
pub open spec fn join_path(a: Seq<char>, b: Seq<char>) -> Seq<char> {
    if a.len() == 0 {
        b
    } else if a.last() == '/' {
        a + b
    } else {
        a + seq!['/'] + b
    }
}

/// True when the path starts at the root.
pub open spec fn is_absolute(p: Seq<char>) -> bool {
    p.len() > 0 && p[0] == '/'
}

/// The index of the first unit at or after `k` whose file is `path`, or -1.
pub open spec fn first_unit(units: Seq<CompilationUnit>, path: Seq<char>, k: int) -> int
    decreases units.len() - k,
{
    if k < 0 || k >= units.len() {
        -1
    } else if units[k].file@ == path {
        k
    } else {
        first_unit(units, path, k + 1)
    }
}

/// The absolute path for a reported path: kept when absolute, else resolved
/// against the directory of the first database unit with that file, else against
/// the repository root, and normalised.
pub open spec fn absolute_name(
    path: Seq<char>,
    db: Option<CompilationDatabase>,
    root: Seq<char>,
) -> Seq<char> {
    if is_absolute(path) {
        path
    } else {
        match db {
            Some(d) => {
                let k = first_unit(d.units@, path, 0);
                if k >= 0 {
                    normalized(join_path(d.units@[k].directory@, d.units@[k].file@))
                } else {
                    normalized(join_path(root, path))
                }
            },
            None => normalized(join_path(root, path)),
        }
    }
}

/// The path relative to the root, if the absolute path lies under it.
pub open spec fn relative_name(abs: Seq<char>, root: Seq<char>) -> Option<Seq<char>> {
    let ca = path_components(abs);
    let cr = path_components(root);
    if is_absolute(abs) && is_prefix_of(cr, ca) {
        Some(forward_slashes(render_path(ca.subrange(cr.len() as int, ca.len() as int))))
    } else {
        None
    }
}

/// The repository-relative name of a reported path.
pub open spec fn resolved_name(
    path: Seq<char>,
    db: Option<CompilationDatabase>,
    root: Seq<char>,
) -> Option<Seq<char>> {
    relative_name(absolute_name(path, db, root), root)
}

/// The notification that a header line opens.
pub open spec fn note_from(l: Seq<char>, h: HeaderSpan, name: Seq<char>) -> NoteModel {
    NoteModel {
        filename: name,
        line: h.line->0,
        cols: h.cols->0,
        severity: l.subrange(h.severity_start, h.severity_end),
        rationale: l.subrange(h.severity_end + 1, h.bracket),
        diagnostic: l.subrange(h.bracket + 1, l.len() - 1),
        suggestion: Seq::empty(),
    }
}

/// The notifications closed so far and the one still open, after the given
/// lines; or the fault of the first header that cannot be used: its path is not
/// under the root, or its numbers are not `u32` numbers.
pub open spec fn tidy_fold(
    lines: Seq<Seq<char>>,
    db: Option<CompilationDatabase>,
    root: Seq<char>,
) -> Result<(Seq<NoteModel>, Option<NoteModel>), TidyFault>
    decreases lines.len(),
{
    if lines.len() == 0 {
        Ok((Seq::empty(), None))
    } else {
        match tidy_fold(lines.drop_last(), db, root) {
            Err(e) => Err(e),
            Ok((done, open)) => {
                let l = lines.last();
                match header_of(l) {
                    Some(h) => {
                        let path = l.subrange(0, h.path_end);
                        match resolved_name(path, db, root) {
                            Some(name) => if h.line is Some && h.cols is Some {
                                let closed = match open {
                                    Some(n) => done.push(n),
                                    None => done,
                                };
                                Ok((closed, Some(note_from(l, h, name))))
                            } else {
                                Err(TidyFault::BadNumber(l))
                            },
                            None => Err(TidyFault::OutsideRoot(path)),
                        }
                    },
                    None => match open {
                        Some(n) => Ok(
                            (
                                done,
                                Some(NoteModel { suggestion: n.suggestion.push(l), ..n }),
                            ),
                        ),
                        None => Ok((done, None)),
                    },
                }
            },
        }
    }
}

/// The notifications of clang-tidy's output, in the order of their headers; or
/// the fault of the first header that cannot be used.
pub open spec fn tidy_notes(
    text: Seq<char>,
    db: Option<CompilationDatabase>,
    root: Seq<char>,
) -> Result<Seq<NoteModel>, TidyFault> {
    match tidy_fold(lines_of(text), db, root) {
        Ok((done, open)) => Ok(
            match open {
                Some(n) => done.push(n),
                None => done,
            },
        ),
        Err(e) => Err(e),
    }
}

fn find_unit(db: &CompilationDatabase, path: &Vec<char>) -> (r: Option<usize>)
    ensures
        match r {
            Some(k) => first_unit(db.units@, path@, 0) == k && k < db.units@.len()
                && db.units@[k as int].file@ == path@,
            None => first_unit(db.units@, path@, 0) == -1,
        },
{
    let mut k: usize = 0;
    while k < db.units.len()
        invariant
            0 <= k <= db.units@.len(),
            first_unit(db.units@, path@, k as int) == first_unit(db.units@, path@, 0),
        decreases db.units.len() - k,
    {
        if chars_eq(chars_of(db.units[k].file.as_str()).as_slice(), path.as_slice()) {
            return Some(k);
        }
        k += 1;
    }
    None
}

fn join_chars(a: &Vec<char>, b: &Vec<char>) -> (r: Vec<char>)
    ensures
        r@ == join_path(a@, b@),
{
    let mut r = a.clone();
    if a.len() > 0 && a[a.len() - 1] != '/' {
        r.push('/');
    }
    let ghost mid = r@;
    let mut i: usize = 0;
    while i < b.len()
        invariant
            0 <= i <= b.len(),
            r@ == mid + b@.subrange(0, i as int),
        decreases b.len() - i,
    {
        r.push(b[i]);
        i += 1;
        assert(r@ =~= mid + b@.subrange(0, i as int));
    }
    assert(b@.subrange(0, b.len() as int) =~= b@);
    assert(r@ =~= join_path(a@, b@));
    r
}

/// Places a reported path in the repository (see `resolved_name`).
pub fn resolve_name(path: &Vec<char>, db: &Option<CompilationDatabase>, root: &str) -> (r: Option<
    String,
>)
    ensures
        match resolved_name(path@, *db, root@) {
            Some(n) => r is Some && r->0@ == n,
            None => r is None,
        },
{
    let root_chars = chars_of(root);
    let abs: Vec<char> = if path.len() > 0 && path[0] == '/' {
        path.clone()
    } else {
        let joined = match db {
            Some(d) => {
                match find_unit(d, path) {
                    Some(k) => {
                        let unit = &d.units[k];
                        join_chars(&chars_of(unit.directory.as_str()), &chars_of(unit.file.as_str()))
                    },
                    None => join_chars(&root_chars, path),
                }
            },
            None => join_chars(&root_chars, path),
        };
        let normal = normalize_path(string_of(joined.as_slice()).as_str());
        assert(normal@ == normalized(joined@));
        chars_of(normal.as_str())
    };
    assert(abs@ == absolute_name(path@, *db, root@));
    let ca = components(abs.as_slice());
    let cr = components(root_chars.as_slice());
    if !(abs.len() > 0 && abs[0] == '/') || !comps_prefix(&cr, &ca) {
        return None;
    }
    let mut rest: Vec<Vec<char>> = Vec::new();
    let mut i = cr.len();
    let ghost cav = views(ca@);
    assert(cav.subrange(cr.len() as int, cr.len() as int) =~= views(rest@));
    while i < ca.len()
        invariant
            cr.len() <= i <= ca.len(),
            cav == views(ca@),
            views(rest@) == cav.subrange(cr.len() as int, i as int),
        decreases ca.len() - i,
    {
        let ghost before = views(rest@);
        let piece = ca[i].clone();
        assert(piece@ == cav[i as int]);
        rest.push(piece);
        assert(views(rest@) =~= before.push(cav[i as int]));
        i += 1;
        assert(views(rest@) =~= cav.subrange(cr.len() as int, i as int));
    }
    let text = render(&rest);
    let out = to_forward_slashes(text.as_slice());
    Some(string_of(out.as_slice()))
}

proof fn lemma_fold_error_stays(
    lines: Seq<Seq<char>>,
    db: Option<CompilationDatabase>,
    root: Seq<char>,
    k: int,
)
    requires
        0 <= k <= lines.len(),
        tidy_fold(lines.subrange(0, k), db, root) is Err,
    ensures
        tidy_fold(lines, db, root) == tidy_fold(lines.subrange(0, k), db, root),
    decreases lines.len(),
{
    if k < lines.len() {
        assert(lines.drop_last().subrange(0, k) =~= lines.subrange(0, k));
        lemma_fold_error_stays(lines.drop_last(), db, root, k);
    } else {
        assert(lines.subrange(0, k) =~= lines);
    }
}

/// The state of the output parser between lines.
enum ParseState {
    /// No header seen yet.
    Idle,
    /// A header was seen; later lines are its suggestion.
    Open(TidyNotification),
}

impl ParseState {
    spec fn open_model(&self) -> Option<NoteModel> {
        match self {
            ParseState::Idle => None,
            ParseState::Open(n) => Some(n.model()),
        }
    }
}

/// Parses clang-tidy's output into notifications. Each header line
/// (`<path>:<line>:<column>: <severity>:<message>[<diagnostic>]`) opens a
/// notification; the lines after it, up to the next header, are its suggestion.
/// Lines before the first header are ignored. Paths are made relative to
/// `repo_root` (an absolute path), resolving relative ones through the
/// compilation database when it lists them. A path that does not lie under the
/// root is an error.
pub fn parse_tidy_output(
    tidy_stdout: &str,
    database_json: &Option<CompilationDatabase>,
    repo_root: &str,
) -> (r: Result<Vec<TidyNotification>, TidyError>)
    ensures
        match tidy_notes(tidy_stdout@, *database_json, repo_root@) {
            Ok(ns) => r is Ok && models(r->Ok_0@) == ns,
            Err(f) => r is Err && r->Err_0.fault() == f,
        },
{
    let lines = split_lines(chars_of(tidy_stdout).as_slice());
    let ghost lv = views(lines@);
    let ghost db = *database_json;
    let ghost root = repo_root@;
    let mut result: Vec<TidyNotification> = Vec::new();
    let mut state = ParseState::Idle;
    let mut i: usize = 0;
    assert(lv.subrange(0, 0) =~= Seq::<Seq<char>>::empty());
    assert(models(result@) =~= Seq::<NoteModel>::empty());
    while i < lines.len()
        invariant
            0 <= i <= lines.len(),
            lv == views(lines@),
            lv == lines_of(tidy_stdout@),
            db == *database_json,
            root == repo_root@,
            tidy_fold(lv.subrange(0, i as int), db, root) == Ok::<
                (Seq<NoteModel>, Option<NoteModel>),
                TidyFault,
            >((models(result@), state.open_model())),
        decreases lines.len() - i,
    {
        let ghost sub = lv.subrange(0, i + 1);
        assert(sub.drop_last() =~= lv.subrange(0, i as int));
        let line = &lines[i];
        assert(line@ == sub.last());
        match parse_header(line.as_slice()) {
            Some(h) => {
                let name = resolve_name(&h.path, database_json, repo_root);
                match name {
                    Some(filename) => {
                        let (line_no, col_no) = match (h.line, h.cols) {
                            (Some(l), Some(c)) => (l, c),
                            _ => {
                                proof {
                                    assert(tidy_fold(sub, db, root) == Err::<
                                        (Seq<NoteModel>, Option<NoteModel>),
                                        TidyFault,
                                    >(TidyFault::BadNumber(line@)));
                                    lemma_fold_error_stays(lv, db, root, i + 1);
                                }
                                return Err(TidyError::BadNumber(string_of(line.as_slice())));
                            },
                        };
                        let ghost before = models(result@);
                        let note = TidyNotification {
                            filename,
                            line: line_no,
                            cols: col_no,
                            severity: string_of(h.severity.as_slice()),
                            rationale: string_of(h.rationale.as_slice()),
                            diagnostic: string_of(h.diagnostic.as_slice()),
                            suggestion: Vec::new(),
                        };
                        assert(string_views(note.suggestion@) =~= Seq::<Seq<char>>::empty());
                        match state {
                            ParseState::Open(n) => {
                                result.push(n);
                                assert(models(result@) =~= before.push(n.model()));
                            },
                            ParseState::Idle => {},
                        }
                        state = ParseState::Open(note);
                    },
                    None => {
                        proof {
                            assert(tidy_fold(sub, db, root) == Err::<
                                (Seq<NoteModel>, Option<NoteModel>),
                                TidyFault,
                            >(TidyFault::OutsideRoot(h.path@)));
                            lemma_fold_error_stays(lv, db, root, i + 1);
                        }
                        return Err(TidyError::OutsideRoot(string_of(h.path.as_slice())));
                    },
                }
            },
            None => {
                state = match state {
                    ParseState::Open(mut n) => {
                        let ghost old_s = string_views(n.suggestion@);
                        n.suggestion.push(string_of(line.as_slice()));
                        assert(string_views(n.suggestion@) =~= old_s.push(line@));
                        ParseState::Open(n)
                    },
                    ParseState::Idle => ParseState::Idle,
                };
            },
        }
        i += 1;
    }
    assert(lv.subrange(0, lines.len() as int) =~= lv);
    let ghost before = models(result@);
    match state {
        ParseState::Open(n) => {
            result.push(n);
            assert(models(result@) =~= before.push(n.model()));
        },
        ParseState::Idle => {},
    }
    Ok(result)
}

} // verus!
