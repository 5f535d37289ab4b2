use folder_flattener::comment::{basename_for, extension_for, get_comment_for_file};
use folder_flattener::errors::{check_source, FlattenError};
use folder_flattener::flatten::{flatten_outputs, flattened_content, materialize, FileEntry};
use folder_flattener::rules::{parse_patterns, resolve_rules, should_include};

fn entry(rel_path: &str, content: &[u8]) -> FileEntry {
    FileEntry { rel_path: rel_path.to_string(), content: content.to_vec() }
}

#[test]
fn test_get_comment_for_file() {
    assert_eq!(get_comment_for_file("test.rs"), "// path: test.rs");
    assert_eq!(get_comment_for_file("test.py"), "# path: test.py");
    assert_eq!(get_comment_for_file("test.unknown"), "# path: test.unknown");
}

#[test]
fn test_comment_styles_per_extension() {
    assert_eq!(get_comment_for_file("a.html"), "<!-- path: a.html -->");
    assert_eq!(get_comment_for_file("a.xml"), "<!-- path: a.xml -->");
    assert_eq!(get_comment_for_file("a.php"), "<?php // path: a.php ?>");
    assert_eq!(get_comment_for_file("a.lua"), "-- path: a.lua");
    assert_eq!(get_comment_for_file("a.sql"), "-- path: a.sql");
    assert_eq!(get_comment_for_file("a.hs"), "-- path: a.hs");
    assert_eq!(get_comment_for_file("a.lhs"), "-- path: a.lhs");
    assert_eq!(get_comment_for_file("a.sh"), "# path: a.sh");
    assert_eq!(get_comment_for_file("a.bash"), "# path: a.bash");
    assert_eq!(get_comment_for_file("a.rb"), "# path: a.rb");
    assert_eq!(get_comment_for_file("a.go"), "// path: a.go");
    assert_eq!(get_comment_for_file("a.java"), "// path: a.java");
    assert_eq!(get_comment_for_file("a.txt"), "// path: a.txt");
    assert_eq!(get_comment_for_file("a.swift"), "// path: a.swift");
}

#[test]
fn test_comment_style_extension_not_case_normalized() {
    assert_eq!(get_comment_for_file("test.PY"), "# path: test.PY");
    assert_eq!(get_comment_for_file("test.Rs"), "# path: test.Rs");
}

#[test]
fn test_extension_edge_cases() {
    assert_eq!(extension_for("file.tar.gz"), "gz");
    assert_eq!(extension_for(".gitignore"), "");
    assert_eq!(extension_for("noext"), "");
    assert_eq!(extension_for("dir.d/noext"), "");
    assert_eq!(extension_for("dir/.hidden"), "");
    assert_eq!(extension_for("dir/file.rs"), "rs");
    assert_eq!(get_comment_for_file(".gitignore"), "# path: .gitignore");
    assert_eq!(get_comment_for_file("dir/file.rs"), "// path: dir/file.rs");
}

#[test]
fn test_basename() {
    assert_eq!(basename_for("a/b/c.txt"), "c.txt");
    assert_eq!(basename_for("c.txt"), "c.txt");
    assert_eq!(basename_for("deep/nested/dir/x"), "x");
}

#[test]
fn test_flattened_content_prepends_comment_line() {
    let out = flattened_content("x.py", b"abc");
    assert_eq!(out, b"# path: x.py\nabc".to_vec());
    let empty = flattened_content("x.py", b"");
    assert_eq!(empty, b"# path: x.py\n".to_vec());
}

#[test]
fn test_materialize_drops_directories() {
    let e = entry("subdir/file2.txt", b"content2");
    let out = materialize(&e);
    assert_eq!(out.name, "file2.txt");
    assert_eq!(out.content, b"// path: subdir/file2.txt\ncontent2".to_vec());
}

#[test]
fn test_parse_patterns_skips_blank_and_comment_lines() {
    let got = parse_patterns("foo\n# a comment\n\nbar\n");
    assert_eq!(got, vec!["foo".to_string(), "bar".to_string()]);
    let no_final_newline = parse_patterns("foo\nbar");
    assert_eq!(no_final_newline, vec!["foo".to_string(), "bar".to_string()]);
    assert_eq!(parse_patterns(""), Vec::<String>::new());
    assert_eq!(parse_patterns("# only a comment\n"), Vec::<String>::new());
}

#[test]
fn test_parse_patterns_trims_trailing_whitespace() {
    assert_eq!(parse_patterns("foo  \n"), vec!["foo".to_string()]);
    assert_eq!(parse_patterns("foo\t\r\nbar"), vec!["foo".to_string(), "bar".to_string()]);
    assert_eq!(parse_patterns(" \n\t\n"), Vec::<String>::new());
    // A backslash-escaped trailing space is part of the pattern and kept.
    assert_eq!(parse_patterns("a\\ \n"), vec!["a\\ ".to_string()]);
}

#[test]
fn test_whitespace_only_ignore_file_excludes_nothing() {
    let g = resolve_rules(Some("  \n\t\n"), None).unwrap();
    assert!(should_include(&g, "anything.txt"));
    assert!(should_include(&g, "a/b.log"));
}

#[test]
fn test_should_include_exact_name() {
    let g = resolve_rules(Some("ignored.txt\n"), None).unwrap();
    assert!(!should_include(&g, "ignored.txt"));
    assert!(should_include(&g, "file1.txt"));
    assert!(should_include(&g, "subdir/file2.txt"));
}

#[test]
fn test_should_include_glob_and_subdirectory() {
    let g = resolve_rules(Some("*.log\nbuild/\n"), None).unwrap();
    assert!(!should_include(&g, "a.log"));
    assert!(!should_include(&g, "sub/b.log"));
    assert!(!should_include(&g, "build/out.txt"));
    assert!(should_include(&g, "a.txt"));
}

#[test]
fn test_should_include_negation_overrides() {
    let g = resolve_rules(Some("*.txt\n!keep.txt\n"), None).unwrap();
    assert!(!should_include(&g, "drop.txt"));
    assert!(should_include(&g, "keep.txt"));
}

#[test]
fn test_external_layer_overrides_local() {
    let g = resolve_rules(Some("keep.txt\n"), Some("!keep.txt\n")).unwrap();
    assert!(should_include(&g, "keep.txt"));
}

#[test]
fn test_no_rules_includes_everything() {
    let g = resolve_rules(None, None).unwrap();
    assert!(should_include(&g, "anything.bin"));
    assert!(should_include(&g, ".hidden"));
    assert!(should_include(&g, "a/b/c"));
}

#[test]
fn test_flatten_directory() {
    let entries = vec![
        entry("file1.txt", b"content1"),
        entry("subdir/file2.txt", b"content2"),
        entry("ignored.log", b"This should be ignored"),
    ];
    let out = flatten_outputs("source", true, true, &entries, Some("*.log\n"), None).unwrap();
    assert_eq!(out.len(), 2);
    assert_eq!(out[0].name, "file1.txt");
    assert!(out[0].content.starts_with(b"// path: file1.txt"));
    assert!(out[0].content.ends_with(b"content1"));
    assert_eq!(out[1].name, "file2.txt");
    assert!(out[1].content.starts_with(b"// path: subdir/file2.txt"));
    assert!(out[1].content.ends_with(b"content2"));
}

#[test]
fn test_flatten_directory_success() {
    let entries = vec![entry("file1.txt", b"content1"), entry("subdir/file2.txt", b"content2")];
    let out = flatten_outputs("source", true, true, &entries, None, None).unwrap();
    assert_eq!(out.len(), 2);
    assert_eq!(out[0].name, "file1.txt");
    assert_eq!(out[0].content, b"// path: file1.txt\ncontent1".to_vec());
    assert_eq!(out[1].name, "file2.txt");
    assert_eq!(out[1].content, b"// path: subdir/file2.txt\ncontent2".to_vec());
}

#[test]
fn test_flatten_directory_with_ignore() {
    let entries = vec![
        entry("file1.txt", b"content1"),
        entry("subdir/file2.txt", b"content2"),
        entry("ignored.txt", b"ignored"),
    ];
    let out = flatten_outputs("source", true, true, &entries, Some("ignored.txt"), None).unwrap();
    assert_eq!(out.len(), 2);
    assert!(out.iter().all(|o| o.name != "ignored.txt"));
    assert!(out.iter().any(|o| o.name == "file1.txt"));
    assert!(out.iter().any(|o| o.name == "file2.txt"));
}

#[test]
fn lib_test_flatten_directory_nonexistent_source() {
    let entries: Vec<FileEntry> = Vec::new();
    let result = flatten_outputs("nonexistent", false, false, &entries, None, None);
    assert!(result.is_err());
    assert!(result.unwrap_err().message().contains("Source directory does not exist"));
}

#[test]
fn integration_tests_test_flatten_directory_nonexistent_source() {
    let entries = vec![entry("file1.txt", b"content1")];
    let result = flatten_outputs("nonexistent", false, false, &entries, None, None);
    match result {
        Err(e) => {
            let m = e.message();
            assert!(m.contains("Source directory does not exist"));
            assert!(m.contains("nonexistent"));
        }
        Ok(_) => panic!("a missing source directory must be a fatal error"),
    }
}

#[test]
fn test_source_not_a_directory() {
    let entries: Vec<FileEntry> = Vec::new();
    let result = flatten_outputs("somefile", true, false, &entries, None, None);
    assert!(result.unwrap_err().message().contains("Source path is not a directory"));
}

#[test]
fn test_check_source_accepts_directory() {
    assert!(check_source("src", true, true).is_ok());
    assert!(check_source("src", true, false).is_err());
    assert!(check_source("src", false, false).is_err());
}

#[test]
fn test_invalid_ignore_pattern_is_fatal() {
    let result = resolve_rules(Some("a[b\n\\\n"), None);
    match result {
        Err(FlattenError::InvalidIgnorePattern { pattern }) => {
            let e = FlattenError::InvalidIgnorePattern { pattern };
            assert!(e.message().contains("Invalid ignore pattern"));
        }
        Err(_) => panic!("expected the invalid-pattern error"),
        Ok(_) => panic!("a malformed glob line must be a fatal error"),
    }
}

#[test]
fn test_flatten_runs_twice_identically() {
    let entries = vec![entry("a/x.rs", b"fn main() {}"), entry("b/y.md", b"hello")];
    let first = flatten_outputs("source", true, true, &entries, Some("*.log"), None).unwrap();
    let second = flatten_outputs("source", true, true, &entries, Some("*.log"), None).unwrap();
    assert_eq!(first.len(), second.len());
    for (a, b) in first.iter().zip(second.iter()) {
        assert_eq!(a.name, b.name);
        assert_eq!(a.content, b.content);
    }
}

#[test]
fn test_basename_collision_keeps_both_writes_in_order() {
    let entries = vec![entry("a/same.txt", b"first"), entry("b/same.txt", b"second")];
    let out = flatten_outputs("source", true, true, &entries, None, None).unwrap();
    assert_eq!(out.len(), 2);
    assert_eq!(out[0].name, "same.txt");
    assert_eq!(out[1].name, "same.txt");
    assert!(out[1].content.ends_with(b"second"));
}
