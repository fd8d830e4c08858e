use cpp_linter::clang_format::{FormatAdvice, Replacement};
use cpp_linter::clang_tidy::TidyNotification;
use cpp_linter::comment::{format_annotation_lines, make_comment, style_guide_name};
use cpp_linter::common_fs::FileObj;

const TAIL: &str = "\n\nHave any feedback or feature suggestions? [Share it here.](https://github.com/cpp-linter/cpp-linter-action/issues)";

fn note(filename: &str, line: u32, suggestion: Vec<&str>) -> TidyNotification {
    TidyNotification {
        filename: filename.to_string(),
        line,
        cols: 7,
        severity: "warning".to_string(),
        rationale: " use X ".to_string(),
        diagnostic: "check-a".to_string(),
        suggestion: suggestion.into_iter().map(|s| s.to_string()).collect(),
    }
}

fn advice(lines: &[Option<usize>]) -> FormatAdvice {
    let mut a = FormatAdvice::new();
    for (i, line) in lines.iter().enumerate() {
        a.replacements.push(Replacement { offset: i, length: 0, value: None, line: *line, cols: None });
    }
    a
}

#[test]
fn comment_without_concerns() {
    let files = vec![FileObj::new("tests/demo/demo.cpp".to_string())];
    let (comment, f, t) = make_comment(&files, &[advice(&[])], &[vec![]]);
    assert_eq!((f, t), (0, 0));
    assert_eq!(
        comment,
        format!("<!-- cpp linter action -->\n# Cpp-Linter Report :heavy_check_mark:\nNo problems need attention.{}", TAIL)
    );
}

#[test]
fn comment_with_concerns() {
    let files = vec![FileObj::new("src\\a.cpp".to_string()), FileObj::new("b.hpp".to_string())];
    let tidy = vec![
        vec![note("other.cpp", 1, vec![])],
        vec![note("b.hpp", 12, vec!["  int x;", "  ^"]), note("./b.hpp", 3, vec![]), note("b.hpp", 4, vec![])],
    ];
    let (comment, f, t) = make_comment(&files, &[advice(&[Some(1)]), advice(&[])], &tidy);
    assert_eq!((f, t), (1, 2));
    let expected = format!(
        "<!-- cpp linter action -->\n# Cpp-Linter Report :warning:\nSome files did not pass the configured checks!\n\
\n<details><summary>clang-format reports: <strong>1 file(s) not formatted</strong></summary>\n\n- src/a.cpp\n\n</details>\
\n<details><summary>clang-tidy reports: <strong>2 concern(s)</strong></summary>\n\n\
- b.hpp\n\n   <strong>b.hpp:12:7:</strong> warning: [check-a]\n   >  use X \n\n   ```hpp\n     int x;\n      ^\n   ```\n\
- b.hpp\n\n   <strong>b.hpp:4:7:</strong> warning: [check-a]\n   >  use X \n\n</details>{}",
        TAIL
    );
    assert_eq!(comment, expected);
}

#[test]
fn annotation_lines_are_distinct() {
    let a = advice(&[Some(3), None, Some(1), Some(3), Some(10)]);
    assert_eq!(format_annotation_lines(&a), vec![3, 1, 10]);
}

#[test]
fn style_names() {
    assert_eq!(style_guide_name("google"), "Google");
    assert_eq!(style_guide_name("llvm"), "LLVM");
    assert_eq!(style_guide_name("gnu"), "GNU");
    assert_eq!(style_guide_name("file"), "Custom");
}
