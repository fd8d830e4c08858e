use cpp_linter::cli::parse_ignore;
use cpp_linter::common_fs::{is_file_in_list, PathEntry, PathKind};
use std::path::Path;

fn entries(paths: &[String]) -> Vec<PathEntry> {
    paths
        .iter()
        .map(|p| {
            let path = Path::new(p);
            let kind = if path.is_file() {
                PathKind::File
            } else if path.is_dir() {
                PathKind::Dir
            } else {
                PathKind::Missing
            };
            PathEntry { path: p.clone(), kind }
        })
        .collect()
}

fn setup_ignore(input: &str) -> (Vec<PathEntry>, Vec<PathEntry>) {
    let patterns: Vec<&str> = input.split('|').collect();
    let (ignored, not_ignored) = parse_ignore(&patterns, None);
    println!("ignored = {:?}", ignored);
    println!("not ignored = {:?}", not_ignored);
    (entries(&ignored), entries(&not_ignored))
}

#[test]
fn ignore_src() {
    let (ignored, not_ignored) = setup_ignore("src");
    assert!(is_file_in_list("./src/lib.rs", &ignored));
    assert!(!is_file_in_list("./src/lib.rs", &not_ignored));
}

#[test]
fn ignore_root() {
    let (ignored, not_ignored) = setup_ignore("!src/lib.rs|./");
    assert!(is_file_in_list("./cargo.toml", &ignored));
    assert!(is_file_in_list("./src/lib.rs", &not_ignored));
}

#[test]
fn ignore_root_implicit() {
    let (ignored, not_ignored) = setup_ignore("!src|");
    assert!(is_file_in_list("./cargo.toml", &ignored));
    assert!(is_file_in_list("./src/lib.rs", &not_ignored));
}

#[test]
fn ignore_patterns_split() {
    let (ignored, not_ignored) = parse_ignore(&["target", "!.github", "!./keep\\me", ".hidden"], None);
    assert_eq!(ignored, vec!["./target", "./.github", "./.hidden"]);
    assert_eq!(not_ignored, vec!["./keep/me"]);
}

#[test]
fn submodules_are_ignored_unless_kept() {
    let gitmodules = "[submodule \"RF24\"]\n\tpath = RF24\n\turl = https://x/RF24\n[submodule \"pybind11\"]\n\tpath = pybind11 \n[submodule \"again\"]\n\tpath=target\npath without equals\n";
    let (ignored, not_ignored) = parse_ignore(&["target", "!pybind11"], Some(gitmodules));
    assert_eq!(ignored, vec!["./target", "./RF24"]);
    assert_eq!(not_ignored, vec!["./pybind11"]);
}
