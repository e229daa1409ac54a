use difft_dir_viewer::model::{
    display_lines, file_info_message, filter_diff_files, is_text_diff_file, lines_from_bytes,
    lines_from_file,
    normalize_extension,
    path_matches_extensions, source_side, status_label, warning_message, AlignedLine, DiffFile,
    DiffStatus, Highlight, SourceSide, TextSpan,
};

fn file(path: &str, language: &str, status: DiffStatus) -> DiffFile {
    DiffFile {
        path: path.to_owned(),
        language: language.to_owned(),
        status,
        extra_info: None,
        aligned_lines: vec![],
    }
}

/// A small C source standing in for `dir_1/only_in_1.c` of the sample tree.
const ONLY_IN_1_C: &str = "#include <stdio.h>\n\nint main() {\n    printf(\"only in dir_1\\n\");\n    return 0;\n}\n";

#[test]
fn display_lines_for_deleted_reads_from_dir_a() {
    let file = DiffFile {
        path: "dir_1/only_in_1.c".to_owned(),
        language: "C".to_owned(),
        status: DiffStatus::Deleted,
        extra_info: None,
        aligned_lines: vec![],
    };
    assert_eq!(source_side(&file), Some(SourceSide::DirA));
    let lines = display_lines(&file, &Ok(ONLY_IN_1_C.as_bytes().to_vec())).unwrap();
    assert!(!lines.is_empty());
    assert!(lines.iter().any(|line| line.lhs_text.contains("#include")));
    assert!(lines.iter().all(|line| line.rhs_text.is_empty()));
}

#[test]
fn normalize_extension_accepts_dotted_and_uppercase() {
    assert_eq!(normalize_extension("cpp").as_deref(), Some("cpp"));
    assert_eq!(normalize_extension(".CPP").as_deref(), Some("cpp"));
    assert_eq!(normalize_extension("  .h  ").as_deref(), Some("h"));
    assert!(normalize_extension(".").is_none());
    assert!(normalize_extension("").is_none());
}

#[test]
fn filter_drops_binary_files() {
    let files = vec![
        DiffFile {
            path: "a.rs".into(),
            language: "Rust".into(),
            status: DiffStatus::Changed,
            extra_info: None,
            aligned_lines: vec![],
        },
        DiffFile {
            path: "logo.png".into(),
            language: "Binary".into(),
            status: DiffStatus::Changed,
            extra_info: None,
            aligned_lines: vec![],
        },
    ];
    let kept = filter_diff_files(files, &[]);
    assert_eq!(kept.len(), 1);
    assert_eq!(kept[0].path, "a.rs");
}

#[test]
fn filter_by_extension_is_case_insensitive() {
    let files = vec![
        DiffFile {
            path: "src/main.cpp".into(),
            language: "C++".into(),
            status: DiffStatus::Changed,
            extra_info: None,
            aligned_lines: vec![],
        },
        DiffFile {
            path: "src/main.rs".into(),
            language: "Rust".into(),
            status: DiffStatus::Changed,
            extra_info: None,
            aligned_lines: vec![],
        },
        DiffFile {
            path: "Makefile".into(),
            language: "Text".into(),
            status: DiffStatus::Changed,
            extra_info: None,
            aligned_lines: vec![],
        },
    ];
    let kept = filter_diff_files(files, &["cpp".to_owned()]);
    assert_eq!(kept.len(), 1);
    assert_eq!(kept[0].path, "src/main.cpp");
}

#[test]
fn normalize_extension_trims_unicode_space_and_many_dots() {
    assert_eq!(normalize_extension("\u{3000}..Rs\t").as_deref(), Some("rs"));
    assert_eq!(normalize_extension("TAR.GZ").as_deref(), Some("tar.gz"));
    assert!(normalize_extension(" \n ").is_none());
    assert!(normalize_extension("...").is_none());
}

#[test]
fn extension_spellings_are_equivalent() {
    let a = normalize_extension("cpp");
    assert_eq!(normalize_extension(".cpp"), a);
    assert_eq!(normalize_extension("CPP"), a);
    assert_eq!(normalize_extension(".Cpp"), a);
}

#[test]
fn uppercase_path_extension_matches() {
    assert!(path_matches_extensions("src/MAIN.CPP", &["cpp".to_owned()]));
    assert!(path_matches_extensions("a/b.h", &["cpp".to_owned(), "h".to_owned()]));
    assert!(!path_matches_extensions("a/b.hpp", &["h".to_owned()]));
    assert!(!path_matches_extensions("Makefile", &["makefile".to_owned()]));
    assert!(!path_matches_extensions(".bashrc", &["bashrc".to_owned()]));
    assert!(path_matches_extensions("archive.tar.gz", &["gz".to_owned()]));
    assert!(!path_matches_extensions("archive.tar.gz", &["tar.gz".to_owned()]));
}

#[test]
fn extensionless_paths_only_without_filter() {
    let files = vec![file("Makefile", "Text", DiffStatus::Changed)];
    assert_eq!(filter_diff_files(files.clone(), &[]).len(), 1);
    assert_eq!(filter_diff_files(files, &["mk".to_owned()]).len(), 0);
}

#[test]
fn filter_twice_is_filter_once() {
    let files = vec![
        file("a.c", "C", DiffStatus::Changed),
        file("b.bin", "binary", DiffStatus::Created),
        file("c.h", "C", DiffStatus::Deleted),
        file("d.rs", "Rust", DiffStatus::Changed),
    ];
    let exts = vec!["c".to_owned(), "h".to_owned()];
    let once = filter_diff_files(files, &exts);
    let paths: Vec<String> = once.iter().map(|f| f.path.clone()).collect();
    assert_eq!(paths, vec!["a.c".to_owned(), "c.h".to_owned()]);
    let twice = filter_diff_files(once, &exts);
    let paths2: Vec<String> = twice.iter().map(|f| f.path.clone()).collect();
    assert_eq!(paths, paths2);
}

#[test]
fn binary_in_any_case_is_not_text() {
    assert!(!is_text_diff_file(&file("x", "BINARY", DiffStatus::Changed)));
    assert!(!is_text_diff_file(&file("x", "binary", DiffStatus::Changed)));
    assert!(is_text_diff_file(&file("x", "Binary data", DiffStatus::Changed)));
    assert!(is_text_diff_file(&file("x", "Text", DiffStatus::Changed)));
}

#[test]
fn status_labels() {
    assert_eq!(status_label(DiffStatus::Changed), "M");
    assert_eq!(status_label(DiffStatus::Created), "A");
    assert_eq!(status_label(DiffStatus::Deleted), "D");
    assert_eq!(status_label(DiffStatus::Unchanged), "=");
}

#[test]
fn warnings_prefer_extra_info() {
    let mut f = file("a.txt", "Text (3 parse errors)", DiffStatus::Changed);
    assert_eq!(warning_message(&f).as_deref(), Some("Text (3 parse errors)"));
    f.extra_info = Some(String::new());
    assert_eq!(warning_message(&f).as_deref(), Some("Text (3 parse errors)"));
    f.extra_info = Some("too big".to_owned());
    assert_eq!(warning_message(&f).as_deref(), Some("too big"));
    let g = file("a.rs", "Rust", DiffStatus::Changed);
    assert_eq!(warning_message(&g), None);
    let h = file("a.txt", "Text", DiffStatus::Changed);
    assert_eq!(warning_message(&h), None);
}

#[test]
fn info_message_parts() {
    let mut f = file("new.txt", "Text (too long)", DiffStatus::Created);
    assert_eq!(file_info_message(&f, 0), "Text (too long)\nFile created.");
    assert_eq!(file_info_message(&f, 3), "Text (too long)");
    f.language = "Text".to_owned();
    assert_eq!(file_info_message(&f, 0), "File created.");
    f.status = DiffStatus::Deleted;
    assert_eq!(file_info_message(&f, 0), "File deleted.");
    f.status = DiffStatus::Changed;
    assert_eq!(file_info_message(&f, 0), "");
}

fn span(content: &str) -> TextSpan {
    TextSpan { start: 0, end: 1, content: content.to_owned(), highlight: Highlight::Keyword, is_novel: true }
}

#[test]
fn aligned_rows_are_shown_as_they_are() {
    let mut f = file("a.rs", "Rust", DiffStatus::Changed);
    f.aligned_lines = vec![AlignedLine {
        lhs_line: Some(4),
        rhs_line: None,
        lhs_text: "fn a()".to_owned(),
        rhs_text: String::new(),
        is_novel_lhs: true,
        is_novel_rhs: false,
        lhs_spans: vec![span("fn")],
        rhs_spans: vec![],
    }];
    assert_eq!(source_side(&f), None);
    let rows = display_lines(&f, &Err("not read".to_owned())).unwrap();
    assert_eq!(rows.len(), 1);
    assert_eq!(rows[0].lhs_line, Some(4));
    assert_eq!(rows[0].lhs_text, "fn a()");
    assert_eq!(rows[0].lhs_spans, vec![span("fn")]);
    assert!(rows[0].is_novel_lhs);
}

#[test]
fn created_file_rows_come_from_dir_b() {
    let f = file("b.txt", "Text", DiffStatus::Created);
    assert_eq!(source_side(&f), Some(SourceSide::DirB));
    let rows = display_lines(&f, &Ok(b"one\r\ntwo\rthree\n".to_vec())).unwrap();
    let texts: Vec<&str> = rows.iter().map(|r| r.rhs_text.as_str()).collect();
    assert_eq!(texts, vec!["one", "two", "three"]);
    assert_eq!(rows[2].rhs_line, Some(2));
    assert!(rows.iter().all(|r| r.lhs_line.is_none() && r.lhs_text.is_empty() && r.is_novel_rhs));
}

#[test]
fn read_failure_is_reported() {
    let f = file("gone.txt", "Text", DiffStatus::Deleted);
    assert_eq!(display_lines(&f, &Err("Failed to read x: file not found".to_owned())), Err("Failed to read x: file not found".to_owned()));
    let g = file("same.txt", "Text", DiffStatus::Changed);
    assert_eq!(display_lines(&g, &Err("unused".to_owned())), Ok(vec![]));
}

#[test]
fn file_bytes_are_decoded_lossily() {
    let rows = lines_from_bytes(b"left \xba\xc2\nnext", DiffStatus::Deleted);
    assert_eq!(rows.len(), 2);
    assert_eq!(rows[0].lhs_text, "left \u{fffd}\u{fffd}");
    assert_eq!(rows[1].lhs_line, Some(1));
    let f = file("g.cpp", "C++", DiffStatus::Created);
    let rows = display_lines(&f, &Ok(b"\xff\n".to_vec())).unwrap();
    assert_eq!(rows[0].rhs_text, "\u{fffd}");
}

#[test]
fn extension_normalization_law() {
    for ext in ["cpp", " Cpp ", "..h", "\tTXT", ".", "", " . x"] {
        let n = normalize_extension(ext);
        assert_eq!(normalize_extension(&ext.to_ascii_uppercase()), n);
        assert_eq!(normalize_extension(&format!(".{}", ext.trim())), n);
        assert_eq!(n.is_none(), ext.trim().trim_start_matches('.').is_empty());
        if let Some(s) = n {
            assert!(!s.is_empty() && !s.starts_with('.') && s == s.to_ascii_lowercase());
        }
    }
}

#[test]
fn dotless_paths_never_match() {
    assert!(!path_matches_extensions("Makefile", &["Makefile".to_owned(), "makefile".to_owned()]));
    assert!(!path_matches_extensions("src/LICENSE", &["license".to_owned()]));
}

#[test]
fn empty_text_has_no_rows_for_any_status() {
    assert!(lines_from_file("", DiffStatus::Changed).is_empty());
    assert!(lines_from_file("", DiffStatus::Unchanged).is_empty());
    assert!(lines_from_bytes(b"", DiffStatus::Changed).is_empty());
    assert_eq!(lines_from_file("a\n", DiffStatus::Deleted).len(), 1);
}
