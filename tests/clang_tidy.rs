use cpp_linter::clang_tidy::{
    parse_header, parse_tidy_output, CompilationDatabase, CompilationUnit, TidyError,
};

fn chars(s: &str) -> Vec<char> {
    s.chars().collect()
}

fn text(c: &[char]) -> String {
    c.iter().collect()
}

#[test]
fn test_capture() {
    let src = "tests/demo/demo.hpp:11:11: warning: use a trailing return type for this function [modernize-use-trailing-return-type]";
    let cap = parse_header(&chars(src)).unwrap();
    assert_eq!(
        src,
        format!(
            "{}:{}:{}: {}:{}[{}]",
            text(&cap.path),
            cap.line.unwrap(),
            cap.cols.unwrap(),
            text(&cap.severity),
            text(&cap.rationale),
            text(&cap.diagnostic)
        )
        .as_str()
    );
}

#[test]
fn header_agrees_with_pattern() {
    let pat = regex::Regex::new(r"^(.+):(\d+):(\d+):\s(\w+):(.*)\[([a-zA-Z\d\-\.]+)\]$").unwrap();
    let lines = [
        "a.cpp:1:2: error: bad [x]",
        "C:/src/a.cpp:10:20: note: see [a.b-c]",
        "a.cpp:1:2: warning: one [x] two [y-z]",
        "a.cpp:1:2:\twarning: tab [x]",
        "a.cpp:1:2: warning: missing id []",
        "a.cpp:1: warning: short [x]",
        "plain text",
        "a:1:2: w:[x] tail",
        "x:1:2:3:4: note:m[k]",
        "a.cpp:1:2: avertissement\u{e9}: mot [x]",
        "a.cpp:1:2: warning: id [x\u{661}]",
    ];
    for line in lines {
        let ours = parse_header(&chars(line));
        match pat.captures(line) {
            Some(cap) => {
                let h = ours.expect(line);
                assert_eq!(text(&h.path), &cap[1]);
                assert_eq!(h.line.unwrap().to_string(), &cap[2]);
                assert_eq!(h.cols.unwrap().to_string(), &cap[3]);
                assert_eq!(text(&h.severity), &cap[4]);
                assert_eq!(text(&h.rationale), &cap[5]);
                assert_eq!(text(&h.diagnostic), &cap[6]);
            }
            None => assert!(ours.is_none(), "{}", line),
        }
    }
}

#[test]
fn multi_line_notification() {
    let out = "f.cpp:11:11: warning: use X [check-name]\n  suggestion line 1\n  suggestion line 2\n";
    let notes = parse_tidy_output(out, &None, "/repo").ok().unwrap();
    assert_eq!(notes.len(), 1);
    let n = &notes[0];
    assert_eq!(n.filename, "f.cpp");
    assert_eq!((n.line, n.cols), (11, 11));
    assert_eq!(n.severity, "warning");
    assert_eq!(n.diagnostic, "check-name");
    assert_eq!(n.rationale, " use X ");
    assert_eq!(n.suggestion, vec!["  suggestion line 1".to_string(), "  suggestion line 2".to_string()]);
}

#[test]
fn notifications_in_order_with_banner_ignored() {
    let out = "12 warnings generated.\n/repo/src/a.cpp:3:4: error: first [e1]\ncode\n  ^\nsrc/../b.hpp:5:6: note: second [n.2]\r\n";
    let notes = parse_tidy_output(out, &None, "/repo").ok().unwrap();
    assert_eq!(notes.len(), 2);
    assert_eq!(notes[0].filename, "src/a.cpp");
    assert_eq!(notes[0].suggestion, vec!["code".to_string(), "  ^".to_string()]);
    assert_eq!(notes[1].filename, "b.hpp");
    assert_eq!((notes[1].line, notes[1].cols), (5, 6));
    assert!(notes[1].suggestion.is_empty());
}

#[test]
fn database_resolves_relative_path() {
    let db = Some(CompilationDatabase {
        units: vec![
            CompilationUnit { directory: "/repo/other".to_string(), file: "x.cpp".to_string() },
            CompilationUnit { directory: "/repo/build".to_string(), file: "../src/a.cpp".to_string() },
        ],
    });
    let out = "../src/a.cpp:1:1: warning: w [c]\nz.cpp:2:2: warning: w [c]\n";
    let notes = parse_tidy_output(out, &db, "/repo").ok().unwrap();
    assert_eq!(notes[0].filename, "src/a.cpp");
    assert_eq!(notes[1].filename, "z.cpp");
}

#[test]
fn path_outside_root_is_an_error() {
    let out = "/elsewhere/a.cpp:1:1: warning: w [c]\n";
    match parse_tidy_output(out, &None, "/repo").err().unwrap() {
        TidyError::OutsideRoot(path) => assert_eq!(path, "/elsewhere/a.cpp"),
        TidyError::BadNumber(_) => panic!("wrong error"),
    }
    let up = "../a.cpp:1:1: warning: w [c]\n";
    assert!(matches!(parse_tidy_output(up, &None, "/repo"), Err(TidyError::OutsideRoot(p)) if p == "../a.cpp"));
}

#[test]
fn unusable_numbers_are_an_error() {
    let big = "a.cpp:99999999999:1: warning: w [c]\n";
    assert!(matches!(parse_tidy_output(big, &None, "/repo"), Err(TidyError::BadNumber(l)) if l == big.trim_end()));
    let arabic = "a.cpp:\u{661}:1: warning: w [c]\n";
    assert!(matches!(parse_tidy_output(arabic, &None, "/repo"), Err(TidyError::BadNumber(_))));
}

#[test]
fn unicode_severity_word() {
    let out = "a.cpp:3:4: avertissement\u{e9}: message [x]\n";
    let notes = parse_tidy_output(out, &None, "/repo").ok().unwrap();
    assert_eq!(notes.len(), 1);
    assert_eq!(notes[0].severity, "avertissement\u{e9}");
}

#[test]
fn no_header_no_notification() {
    assert!(parse_tidy_output("", &None, "/repo").ok().unwrap().is_empty());
    assert!(parse_tidy_output("just text\nmore\n", &None, "/repo").ok().unwrap().is_empty());
}
