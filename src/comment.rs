//! The Markdown report of what clang-format and clang-tidy found.
use crate::clang_format::{FormatAdvice, Replacement};
use crate::clang_tidy::TidyNotification;
use crate::common_fs::{comps_eq, components, extension, extension_of, path_components, FileObj};
use crate::text::{chars_of, forward_slashes, string_of, to_forward_slashes, views};
use vstd::prelude::*;

verus! {

/// The decimal digit of `d`.
pub open spec fn digit_char(d: nat) -> char {
    if d == 0 { '0' } else if d == 1 { '1' } else if d == 2 { '2' } else if d == 3 { '3' }
    else if d == 4 { '4' } else if d == 5 { '5' } else if d == 6 { '6' } else if d == 7 { '7' }
    else if d == 8 { '8' } else { '9' }
}

/// The decimal digits of `n`, without leading zeros.
pub open spec fn decimal(n: nat) -> Seq<char>
    decreases n,
{
    if n < 10 {
        seq![digit_char(n)]
    } else {
        decimal(n / 10).push(digit_char(n % 10))
    }
}

fn push_decimal(out: &mut Vec<char>, n: u64)
    ensures
        final(out)@ == old(out)@ + decimal(n as nat),
    decreases n,
{
    if n >= 10 {
        push_decimal(out, n / 10);
    }
    let d = n % 10;
    let c = if d == 0 { '0' } else if d == 1 { '1' } else if d == 2 { '2' } else if d == 3 { '3' }
    else if d == 4 { '4' } else if d == 5 { '5' } else if d == 6 { '6' } else if d == 7 { '7' }
    else if d == 8 { '8' } else { '9' };
    let ghost before = out@;
    out.push(c);
    proof {
        if n >= 10 {
            assert(out@ =~= old(out)@ + decimal((n / 10) as nat).push(digit_char((n % 10) as nat)));
        } else {
            assert(out@ =~= old(out)@ + seq![digit_char(n as nat)]);
        }
    }
}

fn push_chars(out: &mut Vec<char>, s: &[char])
    ensures
        final(out)@ == old(out)@ + s@,
{
    let mut i: usize = 0;
    while i < s.len()
        invariant
            0 <= i <= s.len(),
            out@ == old(out)@ + s@.subrange(0, i as int),
        decreases s.len() - i,
    {
        out.push(s[i]);
        i += 1;
        assert(out@ =~= old(out)@ + s@.subrange(0, i as int));
    }
    assert(s@.subrange(0, s.len() as int) =~= s@);
}

fn push_str(out: &mut Vec<char>, s: &str)
    ensures
        final(out)@ == old(out)@ + s@,
{
    push_chars(out, chars_of(s).as_slice());
}

/// The list entry of a file that is not formatted.
pub open spec fn format_entry(name: Seq<char>) -> Seq<char> {
    "- "@ + forward_slashes(name) + "\n"@
}

/// The entries of the files whose formatting advice holds replacements.
pub open spec fn format_section(files: Seq<FileObj>, advice: Seq<FormatAdvice>) -> Seq<char>
    decreases advice.len(),
{
    if advice.len() == 0 {
        Seq::empty()
    } else {
        format_section(files, advice.drop_last()) + if advice.last().replacements@.len() > 0 {
            format_entry(files[advice.len() - 1].name@)
        } else {
            Seq::empty()
        }
    }
}

/// The number of files whose formatting advice holds replacements.
pub open spec fn format_count(advice: Seq<FormatAdvice>) -> nat
    decreases advice.len(),
{
    if advice.len() == 0 {
        0
    } else {
        format_count(advice.drop_last()) + if advice.last().replacements@.len() > 0 {
            1nat
        } else {
            0nat
        }
    }
}

/// Lines joined with a line feed and four spaces between them.
pub open spec fn join_suggestion(lines: Seq<Seq<char>>) -> Seq<char>
    decreases lines.len(),
{
    if lines.len() == 0 {
        Seq::empty()
    } else if lines.len() == 1 {
        lines[0]
    } else {
        join_suggestion(lines.drop_last()) + "\n    "@ + lines.last()
    }
}

/// The extension of a path, or nothing when it has none.
pub open spec fn extension_text(p: Seq<char>) -> Seq<char> {
    match extension_of(p) {
        Some(e) => e,
        None => Seq::empty(),
    }
}

/// The code block of a notification's suggestion, if it has one.
pub open spec fn concerned_code(n: TidyNotification) -> Seq<char> {
    if n.suggestion@.len() == 0 {
        Seq::empty()
    } else {
        "\n   ```"@ + extension_text(n.filename@) + "\n   "@ + join_suggestion(
            n.suggestion@.map_values(|s: String| s@),
        ) + "\n   ```\n"@
    }
}

/// The entry of one notification.
pub open spec fn tidy_entry(n: TidyNotification) -> Seq<char> {
    "- "@ + n.filename@ + "\n\n"@ + "   <strong>"@ + n.filename@ + ":"@ + decimal(n.line as nat)
        + ":"@ + decimal(n.cols as nat) + ":</strong> "@ + n.severity@ + ": ["@ + n.diagnostic@
        + "]\n   > "@ + n.rationale@ + "\n"@ + concerned_code(n)
}

/// Whether a notification is about the given file (equal paths, component by
/// component).
pub open spec fn about_file(n: TidyNotification, file: FileObj) -> bool {
    path_components(n.filename@) == path_components(file.name@)
}

/// The entries of the notifications about the file, in order.
pub open spec fn notes_section(notes: Seq<TidyNotification>, file: FileObj) -> Seq<char>
    decreases notes.len(),
{
    if notes.len() == 0 {
        Seq::empty()
    } else {
        notes_section(notes.drop_last(), file) + if about_file(notes.last(), file) {
            tidy_entry(notes.last())
        } else {
            Seq::empty()
        }
    }
}

/// The number of notifications about the file.
pub open spec fn notes_count(notes: Seq<TidyNotification>, file: FileObj) -> nat
    decreases notes.len(),
{
    if notes.len() == 0 {
        0
    } else {
        notes_count(notes.drop_last(), file) + if about_file(notes.last(), file) {
            1nat
        } else {
            0nat
        }
    }
}

/// The entries of all notifications, each list against the file it was made for.
pub open spec fn tidy_section(files: Seq<FileObj>, advice: Seq<Vec<TidyNotification>>) -> Seq<char>
    decreases advice.len(),
{
    if advice.len() == 0 {
        Seq::empty()
    } else {
        tidy_section(files, advice.drop_last()) + notes_section(
            advice.last()@,
            files[advice.len() - 1],
        )
    }
}

/// The number of notifications about the file they were made for.
pub open spec fn tidy_count(files: Seq<FileObj>, advice: Seq<Vec<TidyNotification>>) -> nat
    decreases advice.len(),
{
    if advice.len() == 0 {
        0
    } else {
        tidy_count(files, advice.drop_last()) + notes_count(
            advice.last()@,
            files[advice.len() - 1],
        )
    }
}

/// The clang-format part of the report.
pub open spec fn format_block(f: nat, format_part: Seq<char>) -> Seq<char> {
    if f > 0 {
        "\n<details><summary>clang-format reports: <strong>"@ + decimal(f)
            + " file(s) not formatted</strong></summary>\n\n"@ + format_part + "\n</details>"@
    } else {
        Seq::empty()
    }
}

/// The clang-tidy part of the report.
pub open spec fn tidy_block(t: nat, tidy_part: Seq<char>) -> Seq<char> {
    if t > 0 {
        "\n<details><summary>clang-tidy reports: <strong>"@ + decimal(t)
            + " concern(s)</strong></summary>\n\n"@ + tidy_part + "\n</details>"@
    } else {
        Seq::empty()
    }
}

/// The verdict of the report and its details.
pub open spec fn verdict(f: nat, t: nat, format_part: Seq<char>, tidy_part: Seq<char>) -> Seq<char> {
    if f > 0 || t > 0 {
        ":warning:\nSome files did not pass the configured checks!\n"@ + format_block(f, format_part)
            + tidy_block(t, tidy_part)
    } else {
        ":heavy_check_mark:\nNo problems need attention."@
    }
}

/// The whole report for the given counts and sections.
pub open spec fn report(f: nat, t: nat, format_part: Seq<char>, tidy_part: Seq<char>) -> Seq<
    char,
> {
    "<!-- cpp linter action -->\n# Cpp-Linter Report "@ + verdict(f, t, format_part, tidy_part)
        + "\n\nHave any feedback or feature suggestions? [Share it here.](https://github.com/cpp-linter/cpp-linter-action/issues)"@
}

fn push_format_entry(out: &mut Vec<char>, name: &str)
    ensures
        final(out)@ == old(out)@ + format_entry(name@),
{
    push_str(out, "- ");
    push_chars(out, to_forward_slashes(chars_of(name).as_slice()).as_slice());
    push_str(out, "\n");
    assert(out@ =~= old(out)@ + format_entry(name@));
}

fn push_concerned_code(out: &mut Vec<char>, n: &TidyNotification)
    ensures
        final(out)@ == old(out)@ + concerned_code(*n),
{
    if n.suggestion.len() == 0 {
        assert(out@ =~= old(out)@ + concerned_code(*n));
        return;
    }
    push_str(out, "\n   ```");
    match extension(chars_of(n.filename.as_str()).as_slice()) {
        Some(e) => push_chars(out, e.as_slice()),
        None => {},
    }
    push_str(out, "\n   ");
    let ghost mid = out@;
    let ghost lines = n.suggestion@.map_values(|s: String| s@);
    let mut i: usize = 0;
    assert(lines.subrange(0, 0) =~= Seq::<Seq<char>>::empty());
    assert(out@ =~= mid + join_suggestion(lines.subrange(0, 0)));
    while i < n.suggestion.len()
        invariant
            0 <= i <= n.suggestion.len(),
            lines == n.suggestion@.map_values(|s: String| s@),
            out@ == mid + join_suggestion(lines.subrange(0, i as int)),
        decreases n.suggestion.len() - i,
    {
        let ghost sub = lines.subrange(0, i + 1);
        assert(sub.drop_last() =~= lines.subrange(0, i as int));
        if i > 0 {
            push_str(out, "\n    ");
        }
        push_str(out, n.suggestion[i].as_str());
        assert(out@ =~= mid + join_suggestion(sub));
        i += 1;
    }
    assert(lines.subrange(0, n.suggestion.len() as int) =~= lines);
    push_str(out, "\n   ```\n");
    assert(out@ =~= old(out)@ + concerned_code(*n));
}

fn push_tidy_entry(out: &mut Vec<char>, n: &TidyNotification)
    ensures
        final(out)@ == old(out)@ + tidy_entry(*n),
{
    push_str(out, "- ");
    push_str(out, n.filename.as_str());
    push_str(out, "\n\n");
    push_str(out, "   <strong>");
    push_str(out, n.filename.as_str());
    push_str(out, ":");
    push_decimal(out, n.line as u64);
    push_str(out, ":");
    push_decimal(out, n.cols as u64);
    push_str(out, ":</strong> ");
    push_str(out, n.severity.as_str());
    push_str(out, ": [");
    push_str(out, n.diagnostic.as_str());
    push_str(out, "]\n   > ");
    push_str(out, n.rationale.as_str());
    push_str(out, "\n");
    push_concerned_code(out, n);
    assert(out@ =~= old(out)@ + tidy_entry(*n));
}

fn notes_part(out: &mut Vec<char>, notes: &Vec<TidyNotification>, file: &FileObj) -> (r: usize)
    ensures
        final(out)@ == old(out)@ + notes_section(notes@, *file),
        r == notes_count(notes@, *file),
{
    let file_comps = components(chars_of(file.name.as_str()).as_slice());
    let mut count: usize = 0;
    let mut i: usize = 0;
    assert(notes@.subrange(0, 0) =~= Seq::<TidyNotification>::empty());
    assert(out@ =~= old(out)@ + notes_section(notes@.subrange(0, 0), *file));
    while i < notes.len()
        invariant
            0 <= i <= notes.len(),
            count <= i,
            views(file_comps@) == path_components(file.name@),
            out@ == old(out)@ + notes_section(notes@.subrange(0, i as int), *file),
            count == notes_count(notes@.subrange(0, i as int), *file),
        decreases notes.len() - i,
    {
        let ghost sub = notes@.subrange(0, i + 1);
        assert(sub.drop_last() =~= notes@.subrange(0, i as int));
        let note = &notes[i];
        let ghost before = out@;
        let note_comps = components(chars_of(note.filename.as_str()).as_slice());
        if comps_eq(&note_comps, &file_comps) {
            push_tidy_entry(out, note);
            count += 1;
        }
        assert(out@ =~= old(out)@ + notes_section(sub, *file));
        i += 1;
    }
    assert(notes@.subrange(0, notes.len() as int) =~= notes@);
    count
}

proof fn lemma_tidy_count_prefix(files: Seq<FileObj>, advice: Seq<Vec<TidyNotification>>, k: int)
    requires
        0 <= k <= advice.len(),
    ensures
        tidy_count(files, advice.subrange(0, k)) <= tidy_count(files, advice),
    decreases advice.len(),
{
    if k < advice.len() {
        assert(advice.drop_last().subrange(0, k) =~= advice.subrange(0, k));
        lemma_tidy_count_prefix(files, advice.drop_last(), k);
    } else {
        assert(advice.subrange(0, k) =~= advice);
    }
}

fn format_part(files: &[FileObj], format_advice: &[FormatAdvice]) -> (r: (Vec<char>, usize))
    requires
        format_advice@.len() <= files@.len(),
    ensures
        r.0@ == format_section(files@, format_advice@),
        r.1 == format_count(format_advice@),
{
    let mut part: Vec<char> = Vec::new();
    let mut failed: usize = 0;
    let mut k: usize = 0;
    assert(format_advice@.subrange(0, 0) =~= Seq::<FormatAdvice>::empty());
    while k < format_advice.len()
        invariant
            0 <= k <= format_advice.len() <= files.len(),
            failed <= k,
            part@ == format_section(files@, format_advice@.subrange(0, k as int)),
            failed == format_count(format_advice@.subrange(0, k as int)),
        decreases format_advice.len() - k,
    {
        let ghost sub = format_advice@.subrange(0, k + 1);
        assert(sub.drop_last() =~= format_advice@.subrange(0, k as int));
        if format_advice[k].replacements.len() > 0 {
            push_format_entry(&mut part, files[k].name.as_str());
            failed += 1;
        }
        assert(part@ =~= format_section(files@, sub));
        k += 1;
    }
    assert(format_advice@.subrange(0, format_advice.len() as int) =~= format_advice@);
    (part, failed)
}

fn tidy_part(files: &[FileObj], tidy_advice: &[Vec<TidyNotification>]) -> (r: (Vec<char>, usize))
    requires
        tidy_advice@.len() <= files@.len(),
        tidy_count(files@, tidy_advice@) <= usize::MAX,
    ensures
        r.0@ == tidy_section(files@, tidy_advice@),
        r.1 == tidy_count(files@, tidy_advice@),
{
    let mut part: Vec<char> = Vec::new();
    let mut failed: usize = 0;
    let mut j: usize = 0;
    assert(tidy_advice@.subrange(0, 0) =~= Seq::<Vec<TidyNotification>>::empty());
    while j < tidy_advice.len()
        invariant
            0 <= j <= tidy_advice.len() <= files.len(),
            tidy_count(files@, tidy_advice@) <= usize::MAX,
            part@ == tidy_section(files@, tidy_advice@.subrange(0, j as int)),
            failed == tidy_count(files@, tidy_advice@.subrange(0, j as int)),
        decreases tidy_advice.len() - j,
    {
        let ghost sub = tidy_advice@.subrange(0, j + 1);
        assert(sub.drop_last() =~= tidy_advice@.subrange(0, j as int));
        proof {
            lemma_tidy_count_prefix(files@, tidy_advice@, j + 1);
        }
        let n = notes_part(&mut part, &tidy_advice[j], &files[j]);
        assert(part@ =~= tidy_section(files@, sub));
        failed = failed + n;
        j += 1;
    }
    assert(tidy_advice@.subrange(0, tidy_advice.len() as int) =~= tidy_advice@);
    (part, failed)
}

fn push_format_block(out: &mut Vec<char>, f: usize, text: &Vec<char>)
    ensures
        final(out)@ == old(out)@ + format_block(f as nat, text@),
{
    if f > 0 {
        push_str(out, "\n<details><summary>clang-format reports: <strong>");
        push_decimal(out, f as u64);
        push_str(out, " file(s) not formatted</strong></summary>\n\n");
        push_chars(out, text.as_slice());
        push_str(out, "\n</details>");
    }
    assert(out@ =~= old(out)@ + format_block(f as nat, text@));
}

fn push_tidy_block(out: &mut Vec<char>, t: usize, text: &Vec<char>)
    ensures
        final(out)@ == old(out)@ + tidy_block(t as nat, text@),
{
    if t > 0 {
        push_str(out, "\n<details><summary>clang-tidy reports: <strong>");
        push_decimal(out, t as u64);
        push_str(out, " concern(s)</strong></summary>\n\n");
        push_chars(out, text.as_slice());
        push_str(out, "\n</details>");
    }
    assert(out@ =~= old(out)@ + tidy_block(t as nat, text@));
}

fn push_verdict(out: &mut Vec<char>, f: usize, t: usize, ftext: &Vec<char>, ttext: &Vec<char>)
    ensures
        final(out)@ == old(out)@ + verdict(f as nat, t as nat, ftext@, ttext@),
{
    if f > 0 || t > 0 {
        push_str(out, ":warning:\nSome files did not pass the configured checks!\n");
        push_format_block(out, f, ftext);
        push_tidy_block(out, t, ttext);
    } else {
        push_str(out, ":heavy_check_mark:\nNo problems need attention.");
    }
    assert(out@ =~= old(out)@ + verdict(f as nat, t as nat, ftext@, ttext@));
}

/// Builds the Markdown report of the tools' findings about `files`: the files
/// that are not formatted, and the clang-tidy notifications about the file each
/// list was made for. Returns the report, the number of unformatted files and the
/// number of notifications counted.
pub fn make_comment(
    files: &[FileObj],
    format_advice: &[FormatAdvice],
    tidy_advice: &[Vec<TidyNotification>],
) -> (r: (String, usize, usize))
    requires
        format_advice@.len() <= files@.len(),
        tidy_advice@.len() <= files@.len(),
        tidy_count(files@, tidy_advice@) <= usize::MAX,
    ensures
        r.1 == format_count(format_advice@),
        r.2 == tidy_count(files@, tidy_advice@),
        r.0@ == report(
            r.1 as nat,
            r.2 as nat,
            format_section(files@, format_advice@),
            tidy_section(files@, tidy_advice@),
        ),
{
    let (format_text, format_failed) = format_part(files, format_advice);
    let (tidy_text, tidy_failed) = tidy_part(files, tidy_advice);
    let mut out: Vec<char> = Vec::new();
    push_str(&mut out, "<!-- cpp linter action -->\n# Cpp-Linter Report ");
    push_verdict(&mut out, format_failed, tidy_failed, &format_text, &tidy_text);
    push_str(
        &mut out,
        "\n\nHave any feedback or feature suggestions? [Share it here.](https://github.com/cpp-linter/cpp-linter-action/issues)",
    );
    assert(out@ =~= report(
        format_failed as nat,
        tidy_failed as nat,
        format_text@,
        tidy_text@,
    ));
    (string_of(out.as_slice()), format_failed, tidy_failed)
}

/// The lines of the replacements that have one, each kept once, in order of
/// first appearance.
pub open spec fn distinct_lines(rs: Seq<Replacement>) -> Seq<usize>
    decreases rs.len(),
{
    if rs.len() == 0 {
        Seq::empty()
    } else {
        let prev = distinct_lines(rs.drop_last());
        match rs.last().line {
            Some(l) => if prev.contains(l) {
                prev
            } else {
                prev.push(l)
            },
            None => prev,
        }
    }
}

/// The lines of a file that clang-format's advice touches (see `distinct_lines`).
pub fn format_annotation_lines(advice: &FormatAdvice) -> (r: Vec<usize>)
    ensures
        r@ == distinct_lines(advice.replacements@),
{
    let rs = &advice.replacements;
    let mut lines: Vec<usize> = Vec::new();
    let mut i: usize = 0;
    assert(rs@.subrange(0, 0) =~= Seq::<Replacement>::empty());
    while i < rs.len()
        invariant
            0 <= i <= rs.len(),
            lines@ == distinct_lines(rs@.subrange(0, i as int)),
        decreases rs.len() - i,
    {
        let ghost sub = rs@.subrange(0, i + 1);
        assert(sub.drop_last() =~= rs@.subrange(0, i as int));
        if let Some(l) = rs[i].line {
            let mut seen = false;
            let mut k: usize = 0;
            while k < lines.len()
                invariant
                    0 <= k <= lines.len(),
                    seen == exists|j: int| 0 <= j < k && lines@[j] == l,
                decreases lines.len() - k,
            {
                if lines[k] == l {
                    seen = true;
                }
                k += 1;
            }
            if !seen {
                assert(!lines@.contains(l));
                lines.push(l);
            } else {
                assert(lines@.contains(l));
            }
        }
        i += 1;
    }
    assert(rs@.subrange(0, rs.len() as int) =~= rs@);
    lines
}

/// The name under which a style is reported: the known styles by their own
/// names, any other as `Custom`.
pub open spec fn style_guide(style: Seq<char>) -> Seq<char> {
    if style == "google"@ {
        "Google"@
    } else if style == "chromium"@ {
        "Chromium"@
    } else if style == "microsoft"@ {
        "Microsoft"@
    } else if style == "mozilla"@ {
        "Mozilla"@
    } else if style == "webkit"@ {
        "Webkit"@
    } else if style == "llvm"@ {
        "LLVM"@
    } else if style == "gnu"@ {
        "GNU"@
    } else {
        "Custom"@
    }
}

fn same_text(a: &str, b: &str) -> (r: bool)
    ensures
        r == (a@ == b@),
{
    crate::text::chars_eq(chars_of(a).as_slice(), chars_of(b).as_slice())
}

/// The name under which a clang-format style is reported (see `style_guide`).
pub fn style_guide_name(style: &str) -> (r: String)
    ensures
        r@ == style_guide(style@),
{
    let name = if same_text(style, "google") {
        "Google"
    } else if same_text(style, "chromium") {
        "Chromium"
    } else if same_text(style, "microsoft") {
        "Microsoft"
    } else if same_text(style, "mozilla") {
        "Mozilla"
    } else if same_text(style, "webkit") {
        "Webkit"
    } else if same_text(style, "llvm") {
        "LLVM"
    } else if same_text(style, "gnu") {
        "GNU"
    } else {
        "Custom"
    };
    string_of(chars_of(name).as_slice())
}

} // verus!
