use cpp_linter::clang_format::{join_lines, FormatAdvice, Replacement};

fn replacement(offset: usize, length: usize, value: Option<&str>) -> Replacement {
    Replacement { offset, length, value: value.map(|v| v.to_string()), line: None, cols: None }
}

#[test]
fn positions_of_replacements() {
    let content = b"line one\nABC\n\nxyz";
    let mut advice = FormatAdvice::new();
    advice.replacements.push(replacement(12, 0, Some(" ")));
    advice.replacements.push(replacement(0, 4, None));
    advice.replacements.push(replacement(15, 1, Some("\n")));
    advice.set_positions(content);
    let r = &advice.replacements;
    assert_eq!((r[0].line, r[0].cols), (Some(2), Some(4)));
    assert_eq!((r[1].line, r[1].cols), (Some(1), Some(1)));
    assert_eq!((r[2].line, r[2].cols), (Some(4), Some(2)));
    assert_eq!(r[0].value.as_deref(), Some(" "));
    assert_eq!(r[2].length, 1);
}

#[test]
fn xml_line_breaks_removed() {
    let xml = "<?xml version='1.0'?>\r\n<replacements>\n<replacement offset='1' length='0'>&#10; </replacement>\n</replacements>\n";
    assert_eq!(
        join_lines(xml),
        "<?xml version='1.0'?><replacements><replacement offset='1' length='0'>&#10; </replacement></replacements>"
    );
    assert_eq!(join_lines(""), "");
}

#[test]
fn empty_advice_stays_empty() {
    let mut advice = FormatAdvice::new();
    advice.set_positions(b"");
    assert!(advice.replacements.is_empty());
}
