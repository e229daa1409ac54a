use difft_dir_viewer::cli::{
    cli_usage_error, diff_file_view, failed_run_message, file_list_title, line_num,
    parse_cli_args, usage, validate_directories, DifftArg,
};
use difft_dir_viewer::model::{DiffFile, DiffStatus};
use difft_dir_viewer::text::{
    join_strings, normalize_line, split_logical_lines, to_ascii_lowercase, trim,
    usize_to_decimal,
};
use difft_dir_viewer::results::{source_lines, trimmed_json_text, SourceRead};

fn args(v: &[&str]) -> Vec<String> {
    v.iter().map(|s| s.to_string()).collect()
}

#[test]
fn split_lines_handles_all_endings() {
    assert_eq!(split_logical_lines("a\nb\r\nc\rd"), vec!["a", "b", "c", "d"]);
    assert_eq!(split_logical_lines("a\n"), vec!["a"]);
    assert_eq!(split_logical_lines(""), Vec::<String>::new());
    assert_eq!(split_logical_lines("\n"), vec![""]);
    assert_eq!(split_logical_lines("a\n\n"), vec!["a", ""]);
    assert_eq!(split_logical_lines("x\r\r\ny"), vec!["x", "", "y"]);
}

#[test]
fn final_line_break_adds_no_line() {
    assert_eq!(split_logical_lines("one\ntwo"), split_logical_lines("one\ntwo\n"));
}

#[test]
fn normalize_line_strips_line_endings() {
    assert_eq!(normalize_line("abc\r\n"), "abc");
    assert_eq!(normalize_line("abc\n\r\n"), "abc");
    assert_eq!(normalize_line("a\nb"), "a\nb");
    assert_eq!(normalize_line(&normalize_line("x\r")), normalize_line("x\r"));
}

#[test]
fn text_helpers() {
    assert_eq!(trim("\u{a0} x y \u{2029}"), "x y");
    assert_eq!(to_ascii_lowercase("ÄbC"), "Äbc");
    assert_eq!(usize_to_decimal(0), "0");
    assert_eq!(usize_to_decimal(1207), "1207");
    assert_eq!(join_strings(&vec!["a".to_owned(), "b".to_owned()], ", "), "a, b");
    assert_eq!(join_strings(&vec![], "\n"), "");
    assert_eq!(trimmed_json_text(" \"é\" ".as_bytes()).unwrap(), "\"é\"");
    assert!(trimmed_json_text(b"\xc3").is_err());
    assert_eq!(source_lines(&SourceRead::Bytes(b"ok\xff".to_vec())).unwrap(), vec!["ok\u{fffd}".to_owned()]);
}

#[test]
fn usage_errors() {
    let u = usage();
    assert!(u.starts_with("Usage: difft-dir-viewer"));
    assert_eq!(cli_usage_error(0), format!("{u}\n\nError: two directory paths are required."));
    assert_eq!(cli_usage_error(1), format!("{u}\n\nError: two directory paths are required (got 1)."));
    assert_eq!(cli_usage_error(3), format!("{u}\n\nError: expected exactly 2 directory paths (got 3)."));
}

#[test]
fn cli_parsing() {
    let c = parse_cli_args(&args(&["a", "b"])).unwrap();
    assert_eq!(c.paths, vec![0, 1]);
    assert_eq!(c.difft, None);
    let c = parse_cli_args(&args(&["--difft", "/bin/difft", "x", "-e", ".CPP", "y", "-e", "h"])).unwrap();
    assert_eq!(c.paths, vec![2, 5]);
    assert_eq!(c.difft, Some(DifftArg::Arg(1)));
    assert_eq!(c.extensions, vec!["cpp".to_owned(), "h".to_owned()]);
    let c = parse_cli_args(&args(&["--difft=--difft=/d", "x", "y"])).unwrap();
    assert_eq!(c.difft, Some(DifftArg::Text("/d".to_owned())));
    let u = usage();
    assert_eq!(parse_cli_args(&args(&["a", "-h", "b"])).unwrap_err(), u);
    assert_eq!(parse_cli_args(&args(&["a", "--difft"])).unwrap_err(), format!("--difft requires a path.\n\n{u}"));
    assert_eq!(parse_cli_args(&args(&["--difft=", "a", "b"])).unwrap_err(), format!("--difft requires a path.\n\n{u}"));
    assert_eq!(parse_cli_args(&args(&["-e", ".", "a", "b"])).unwrap_err(), format!("-e requires an extension.\n\n{u}"));
    assert_eq!(parse_cli_args(&args(&["--x", "a", "b"])).unwrap_err(), format!("unknown option: --x\n\n{u}"));
    assert_eq!(parse_cli_args(&args(&["a"])).unwrap_err(), cli_usage_error(1));
    assert_eq!(parse_cli_args(&args(&["a", "b", "c"])).unwrap_err(), cli_usage_error(3));
}

#[test]
fn gutter_numbers_are_one_based() {
    assert_eq!(line_num(Some(0)), 1);
    assert_eq!(line_num(Some(41)), 42);
    assert_eq!(line_num(None), -1);
    assert_eq!(line_num(Some(i32::MAX as u32)), i32::MIN);
}

#[test]
fn titles_and_messages() {
    assert_eq!(file_list_title(12), "Changed files (12)");
    assert_eq!(validate_directories(true, "a", true, "b"), Ok(()));
    assert_eq!(validate_directories(false, "a", false, "b"), Err("Path A is not a directory: a".to_owned()));
    assert_eq!(validate_directories(true, "a", false, "b"), Err("Path B is not a directory: b".to_owned()));
    assert_eq!(failed_run_message(b"  boom\n", "exit status: 2"), "boom");
    assert_eq!(failed_run_message(b" \n", "exit status: 2"), "difft exited with status exit status: 2 and produced no output.");
}

#[test]
fn file_view_shows_error_or_rows() {
    let f = DiffFile { path: "d.txt".into(), language: "Text".into(), status: DiffStatus::Deleted, extra_info: None, aligned_lines: vec![] };
    let v = diff_file_view(&f, &Ok(b"x\ny\n".to_vec()));
    assert_eq!(v.lines.len(), 2);
    assert_eq!(v.info, "");
    let v = diff_file_view(&f, &Ok(Vec::new()));
    assert_eq!(v.lines.len(), 0);
    assert_eq!(v.info, "File deleted.");
    let v = diff_file_view(&f, &Err("Failed to read d.txt: file not found".to_owned()));
    assert!(v.lines.is_empty());
    assert_eq!(v.info, "Failed to read d.txt: file not found");
}

#[test]
fn lines_hold_no_breaks() {
    for line in split_logical_lines("a\r\nb\n\rc\r\r\n\nd") {
        assert!(!line.contains('\n') && !line.contains('\r'));
        assert_eq!(normalize_line(&line), line);
    }
}
