use cpp_linter::common_fs::{
    get_line_cols_from_offset, is_file_in_list, is_source_or_ignored, normalize_path, FileObj,
    PathEntry, PathKind,
};

fn entry(path: &str, kind: PathKind) -> PathEntry {
    PathEntry { path: path.to_string(), kind }
}

#[test]
fn normalize_current_redirect() {
    let src = "tests/./ignored_paths";
    println!("relative path = {}", src);
    assert_eq!(normalize_path(src), "tests/ignored_paths".to_string());
}

#[test]
fn normalize_parent_components() {
    assert_eq!(normalize_path("/a/b/../c/./d"), "/a/c/d");
    assert_eq!(normalize_path("../cpp_linter_rs"), "cpp_linter_rs");
    assert_eq!(normalize_path("/.."), "/");
    assert_eq!(normalize_path("a//b/"), "a/b");
    assert_eq!(normalize_path("./x/.."), "");
}

#[test]
fn consolidate_groups_consecutive_lines() {
    let ranges = FileObj::consolidate_numbers_to_ranges(&vec![1, 2, 3, 5, 7, 8]);
    assert_eq!(ranges, vec![1..=3, 5..=5, 7..=8]);
}

#[test]
fn consolidate_edge_cases() {
    assert!(FileObj::consolidate_numbers_to_ranges(&vec![]).is_empty());
    assert_eq!(FileObj::consolidate_numbers_to_ranges(&vec![4]), vec![4..=4]);
    assert_eq!(
        FileObj::consolidate_numbers_to_ranges(&vec![0, 1, u32::MAX - 1, u32::MAX]),
        vec![0..=1, u32::MAX - 1..=u32::MAX]
    );
}

#[test]
fn consolidate_round_trip_and_idempotence() {
    let lines: Vec<u32> = vec![2, 3, 4, 10, 12, 13, 20];
    let ranges = FileObj::consolidate_numbers_to_ranges(&lines);
    let expanded: Vec<u32> = ranges.iter().flat_map(|r| r.clone()).collect();
    assert_eq!(expanded, lines);
    assert_eq!(FileObj::consolidate_numbers_to_ranges(&expanded), ranges);
}

#[test]
fn file_obj_from_fills_ranges() {
    let file = FileObj::from("src/a.cpp".to_string(), vec![3, 4, 9], vec![1..=12]);
    assert_eq!(file.name, "src/a.cpp");
    assert_eq!(file.added_ranges, vec![3..=4, 9..=9]);
    assert_eq!(file.diff_chunks, vec![1..=12]);
    let bare = FileObj::new("b.hpp".to_string());
    assert!(bare.added_lines.is_empty() && bare.added_ranges.is_empty());
}

#[test]
fn file_in_listed_directory() {
    let set = vec![entry("./src", PathKind::Dir)];
    assert!(is_file_in_list("./src/lib.rs", &set));
    assert!(!is_file_in_list("src/lib.rs", &set));
    assert!(!is_file_in_list("./src2/lib.rs", &set));
}

#[test]
fn file_listed_exactly() {
    let set = vec![entry("./src/lib.rs", PathKind::File), entry("./gone", PathKind::Missing)];
    assert!(is_file_in_list("./src//lib.rs", &set));
    assert!(!is_file_in_list("./src/lib.rs/x", &set));
    assert!(!is_file_in_list("./gone", &set));
}

#[test]
fn source_filter_by_extension_and_lists() {
    let exts = ["cpp", "hpp"];
    let ignored = vec![entry("./build", PathKind::Dir)];
    let not_ignored = vec![entry("./build/keep.cpp", PathKind::File)];
    assert!(is_source_or_ignored("./src/a.cpp", &exts, &ignored, &not_ignored));
    assert!(!is_source_or_ignored("./src/a.c", &exts, &ignored, &not_ignored));
    assert!(!is_source_or_ignored("./build/gen.cpp", &exts, &ignored, &not_ignored));
    assert!(is_source_or_ignored("./build/keep.cpp", &exts, &ignored, &not_ignored));
    assert!(!is_source_or_ignored("./.cpp", &exts, &[], &[]));
    assert!(!is_source_or_ignored("Makefile", &exts, &[], &[]));
    assert!(is_source_or_ignored("x.tar.cpp", &exts, &[], &[]));
}

#[test]
fn offset_to_line_and_column() {
    let content = b"line one\nABC";
    assert_eq!(get_line_cols_from_offset(content, 12), (2, 4));
    assert_eq!(get_line_cols_from_offset(content, 0), (1, 1));
    assert_eq!(get_line_cols_from_offset(content, 9), (2, 1));
    assert_eq!(get_line_cols_from_offset(content, 8), (1, 9));
}
