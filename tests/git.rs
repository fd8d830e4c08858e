use cpp_linter::common_fs::FileObj;
use cpp_linter::git::{
    binary_notices, diff_engine_accepts, files_from_deltas, parse_diff, parse_diff_from_buf,
    parse_diff_text, DeltaRecord, DeltaStatus, HunkRecord, LineOrigin,
};

const RENAMED_DIFF: &str = r"diff --git a/tests/demo/some source.cpp b/tests/demo/some source.cpp
similarity index 100%
rename from /tests/demo/some source.cpp
rename to /tests/demo/some source.cpp\n";

const RENAMED_DIFF_WITH_CHANGES: &str = r#"diff --git a/tests/demo/some source.cpp b/tests/demo/some source.cpp
similarity index 99%
rename from /tests/demo/some source.cpp
rename to /tests/demo/some source.cpp
@@ -3,7 +3,7 @@
\n \n \n-#include "iomanip"
+#include <iomanip>\n \n \n \n"#;

const TYPICAL_DIFF: &str = "diff --git a/path/for/Some file.cpp b/path/to/Some file.cpp\n\
                            --- a/path/for/Some file.cpp\n\
                            +++ b/path/to/Some file.cpp\n\
                            @@ -3,7 +3,7 @@\n \n \n \n\
                            -#include <some_lib/render/animation.hpp>\n\
                            +#include <some_lib/render/animations.hpp>\n \n \n \n";

const BINARY_DIFF: &str = "diff --git a/some picture.png b/some picture.png\n\
                new file mode 100644\n\
                Binary files /dev/null and b/some picture.png differ\n";

const MULTI_FILE_DIFF: &str = r"diff --git a/src/a.cpp b/src/a.cpp
index 1111111..2222222 100644
--- a/src/a.cpp
+++ b/src/a.cpp
@@ -1,3 +1,4 @@
 int a;
+int b;
 int c;
 int d;
@@ -10,4 +11,5 @@ void f()
 x;
-y;
+y2;
+y3;
 z;
 w;
diff --git a/src/gone.cpp b/src/gone.cpp
deleted file mode 100644
index 3333333..0000000
--- a/src/gone.cpp
+++ /dev/null
@@ -1,2 +0,0 @@
-int q;
-int r;
diff --git a/README.md b/README.md
index 4444444..5555555 100644
--- a/README.md
+++ b/README.md
@@ -1,1 +1,2 @@
 # title
+text
diff --git a/src/new.hpp b/src/new.hpp
new file mode 100644
index 0000000..6666666
--- /dev/null
+++ b/src/new.hpp
@@ -0,0 +1,3 @@
+#pragma once
+
+int n;
";

fn assert_files_eq(files_from_a: &Vec<FileObj>, files_from_b: &Vec<FileObj>) {
    assert_eq!(files_from_a.len(), files_from_b.len());
    for (a, b) in files_from_a.iter().zip(files_from_b) {
        assert_eq!(a.name, b.name);
        assert_eq!(a.added_lines, b.added_lines);
        assert_eq!(a.added_ranges, b.added_ranges);
        assert_eq!(a.diff_chunks, b.diff_chunks);
    }
}

fn setup_parsed(buf: &str, extensions: &[&str]) -> (Vec<FileObj>, Vec<FileObj>) {
    (
        parse_diff_from_buf(buf.as_bytes(), extensions, &[], &[]),
        parse_diff_text(buf, extensions, &[], &[]),
    )
}

#[test]
fn parse_renamed_diff() {
    let diff_buf = RENAMED_DIFF.as_bytes();
    let files = parse_diff_from_buf(diff_buf, &[&String::from("cpp")], &[], &[]);
    assert!(files.is_empty());
}

#[test]
fn parse_renamed_diff_with_patch() {
    let diff_buf = RENAMED_DIFF_WITH_CHANGES.as_bytes();
    let files = parse_diff_from_buf(diff_buf, &[&String::from("cpp")], &[], &[]);
    assert!(!files.is_empty());
}

#[test]
fn parse_typical_diff() {
    let (files_from_buf, files_from_str) = setup_parsed(TYPICAL_DIFF, &[&String::from("cpp")]);
    assert!(!files_from_buf.is_empty());
    assert_files_eq(&files_from_buf, &files_from_str);
}

#[test]
fn parse_binary_diff() {
    let (files_from_buf, files_from_str) = setup_parsed(BINARY_DIFF, &[&String::from("png")]);
    assert!(files_from_buf.is_empty());
    assert_files_eq(&files_from_buf, &files_from_str);
}

#[test]
fn hunk_range_formula() {
    let files = parse_diff_text(TYPICAL_DIFF, &["cpp"], &[], &[]);
    assert_eq!(files.len(), 1);
    assert_eq!(files[0].name, "path/to/Some file.cpp");
    assert_eq!(files[0].diff_chunks, vec![3..=10]);
    assert_eq!(files[0].added_lines, vec![6]);
    assert_eq!(files[0].added_ranges, vec![6..=6]);
}

#[test]
fn rename_without_change_yields_nothing() {
    assert!(parse_diff_text(RENAMED_DIFF, &["cpp"], &[], &[]).is_empty());
}

#[test]
fn rename_with_change_yields_new_path() {
    let files = parse_diff_text(RENAMED_DIFF_WITH_CHANGES, &["cpp"], &[], &[]);
    assert_eq!(files.len(), 1);
    assert_eq!(files[0].name, "/tests/demo/some source.cpp");
    assert_eq!(files[0].added_lines.len(), 1);
}

#[test]
fn binary_segment_yields_nothing() {
    assert!(parse_diff_text(BINARY_DIFF, &["png"], &[], &[]).is_empty());
}

#[test]
fn multi_file_text_parse() {
    let files = parse_diff_text(MULTI_FILE_DIFF, &["cpp", "hpp"], &[], &[]);
    assert_eq!(files.len(), 2);
    assert_eq!(files[0].name, "src/a.cpp");
    assert_eq!(files[0].added_lines, vec![2, 12, 13]);
    assert_eq!(files[0].added_ranges, vec![2..=2, 12..=13]);
    assert_eq!(files[0].diff_chunks, vec![1..=5, 11..=16]);
    assert_eq!(files[1].name, "src/new.hpp");
    assert_eq!(files[1].added_lines, vec![1, 2, 3]);
    assert_eq!(files[1].diff_chunks, vec![1..=4]);
}

#[test]
fn engine_and_text_parsers_agree() {
    for (buf, exts) in [
        (TYPICAL_DIFF, vec!["cpp"]),
        (MULTI_FILE_DIFF, vec!["cpp", "hpp", "md"]),
        (RENAMED_DIFF_WITH_CHANGES, vec!["cpp"]),
    ] {
        let from_text = parse_diff_text(buf, &exts, &[], &[]);
        if let Ok(diff) = git2::Diff::from_buffer(buf.as_bytes()) {
            let from_engine = parse_diff(&diff, &exts, &[], &[]);
            assert_files_eq(&from_engine, &from_text);
        }
        assert_files_eq(&parse_diff_from_buf(buf.as_bytes(), &exts, &[], &[]), &from_text);
    }
}

#[test]
fn engine_accepts_multi_file_diff() {
    let diff = git2::Diff::from_buffer(MULTI_FILE_DIFF.as_bytes()).unwrap();
    let files = parse_diff(&diff, &["cpp", "hpp"], &[], &[]);
    assert_eq!(files.len(), 2);
    assert_eq!(files[0].added_lines, vec![2, 12, 13]);
}

#[test]
fn deltas_filtered_by_status_scope_and_hunks() {
    let hunk = |s: u32, n: u32, added: Vec<u32>| {
        let mut lines = vec![(LineOrigin::Context, Some(s)), (LineOrigin::Deletion, None)];
        lines.extend(added.into_iter().map(|a| (LineOrigin::Addition, Some(a))));
        lines.push((LineOrigin::AddEofnl, Some(s)));
        HunkRecord { new_start: s, new_lines: n, lines }
    };
    let deltas = vec![
        DeltaRecord { status: DeltaStatus::Modified, path: Some("a.cpp".to_string()), hunks: vec![hunk(1, 3, vec![1, 2]), hunk(10, 2, vec![11])] },
        DeltaRecord { status: DeltaStatus::Deleted, path: Some("b.cpp".to_string()), hunks: vec![hunk(1, 1, vec![])] },
        DeltaRecord { status: DeltaStatus::Renamed, path: Some("c.cpp".to_string()), hunks: vec![] },
        DeltaRecord { status: DeltaStatus::Added, path: Some("d.txt".to_string()), hunks: vec![hunk(1, 1, vec![1])] },
        DeltaRecord { status: DeltaStatus::Added, path: None, hunks: vec![hunk(1, 1, vec![1])] },
        DeltaRecord { status: DeltaStatus::Added, path: Some("e.cpp".to_string()), hunks: vec![hunk(u32::MAX, 5, vec![])] },
    ];
    let files = files_from_deltas(&deltas, &["cpp"], &[], &[]);
    assert_eq!(files.len(), 2);
    assert_eq!(files[0].name, "a.cpp");
    assert_eq!(files[0].added_lines, vec![1, 2, 11]);
    assert_eq!(files[0].added_ranges, vec![1..=2, 11..=11]);
    assert_eq!(files[0].diff_chunks, vec![1..=4, 10..=12]);
    assert_eq!(files[1].name, "e.cpp");
    assert_eq!(files[1].diff_chunks, vec![u32::MAX..=u32::MAX]);
}

#[test]
fn invalid_utf8_falls_back_to_lossy_text() {
    let mut buf = b"garbage \xff\xfe\n".to_vec();
    buf.extend_from_slice(TYPICAL_DIFF.as_bytes());
    let files = parse_diff_from_buf(&buf, &["cpp"], &[], &[]);
    assert_eq!(files.len(), 1);
    assert_eq!(files[0].added_lines, vec![6]);
}

#[test]
fn repeated_added_line_keeps_the_file() {
    let diff = "diff --git a/a.cpp b/a.cpp\n--- a/a.cpp\n+++ b/a.cpp\n@@ -1,1 +1,2 @@+x\n+y\n z\n";
    let files = parse_diff_text(diff, &["cpp"], &[], &[]);
    assert_eq!(files.len(), 1);
    assert_eq!(files[0].added_lines, vec![1, 1]);
    assert_eq!(files[0].added_ranges, vec![1..=1, 1..=1]);
}

#[test]
fn copied_and_deleted_changes_are_skipped() {
    let hunk = HunkRecord { new_start: 1, new_lines: 1, lines: vec![(LineOrigin::Addition, Some(1))] };
    let deltas = vec![
        DeltaRecord { status: DeltaStatus::Copied, path: Some("a.cpp".to_string()), hunks: vec![hunk] },
    ];
    assert!(files_from_deltas(&deltas, &["cpp"], &[], &[]).is_empty());
}

#[test]
fn binary_segment_is_noticed() {
    let notices = binary_notices(BINARY_DIFF);
    assert_eq!(notices.len(), 1);
    assert!(notices[0].contains("Binary files /dev/null and b/some picture.png differ"));
    assert!(binary_notices(TYPICAL_DIFF).is_empty());
    let mixed = format!("{}{}", TYPICAL_DIFF, BINARY_DIFF);
    assert_eq!(binary_notices(&mixed).len(), 1);
}

#[test]
fn engine_acceptance_matches_parser_choice() {
    assert!(diff_engine_accepts(MULTI_FILE_DIFF.as_bytes()));
    assert!(!diff_engine_accepts(b"garbage \xff\xfe\n@@ nonsense"));
}

#[test]
fn old_range_may_use_unicode_digits() {
    let diff = "diff --git a/a.cpp b/a.cpp\n--- a/a.cpp\n+++ b/a.cpp\n@@ -\u{661},1 +4,2 @@\n x\n+y\n";
    let files = parse_diff_text(diff, &["cpp"], &[], &[]);
    assert_eq!(files.len(), 1);
    assert_eq!(files[0].diff_chunks, vec![4..=6]);
    assert_eq!(files[0].added_lines, vec![5]);
}
