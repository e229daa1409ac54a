use difft_dir_viewer::results::{
    document_entries, entry_relative_path, first_document_entry, parse_json_text, JsonDocument,
};
use difft_dir_viewer::convert::{
    aligned_pairs_for_status, changes_to_spans, convert_new_diff_json, find_chunk, line_text,
    NewChange, NewChunkLine, NewDiffFile, NewSide,
};
use difft_dir_viewer::model::{AlignedLine, DiffFile, DiffStatus, Highlight};
use difft_dir_viewer::results::{
    collect_diff_results, directory_json_text, resolve_entry, source_lines, trimmed_json_text,
    uses_legacy_aligned_lines, EntryOutcome, JsonKind, ParsedEntry, SourceRead,
};

fn change(start: u32, end: u32, content: &str) -> NewChange {
    NewChange { start, end, content: content.to_owned(), highlight: Highlight::Normal }
}

fn side(line_number: u32, changes: Vec<NewChange>) -> Option<NewSide> {
    Some(NewSide { line_number, changes })
}

fn raw(path: &str, status: DiffStatus, aligned: Vec<(Option<u32>, Option<u32>)>, chunks: Vec<Vec<NewChunkLine>>) -> NewDiffFile {
    NewDiffFile {
        path: path.to_owned(),
        language: "Text".to_owned(),
        status,
        extra_info: None,
        aligned_lines: aligned,
        chunks,
    }
}

fn legacy(path: &str, status: DiffStatus, rows: Vec<AlignedLine>) -> DiffFile {
    DiffFile {
        path: path.to_owned(),
        language: "Rust".to_owned(),
        status,
        extra_info: None,
        aligned_lines: rows,
    }
}

#[test]
fn parse_directory_json_array_legacy() {
    // [{"path":"a.rs",...,"aligned_lines":[{"lhs_text":"old","rhs_text":"new",...}]},
    //  {"path":"b.rs","status":"created","aligned_lines":[]}]
    let a = legacy(
        "a.rs",
        DiffStatus::Changed,
        vec![AlignedLine {
            lhs_line: None,
            rhs_line: None,
            lhs_text: "old".to_owned(),
            rhs_text: "new".to_owned(),
            is_novel_lhs: true,
            is_novel_rhs: true,
            lhs_spans: vec![],
            rhs_spans: vec![],
        }],
    );
    assert!(uses_legacy_aligned_lines(Some(JsonKind::Object)));
    assert!(!uses_legacy_aligned_lines(None));
    let b = raw("b.rs", DiffStatus::Created, vec![], vec![]);
    let e1 = resolve_entry(ParsedEntry::Legacy(a), &SourceRead::Missing, &SourceRead::Missing);
    let e2 = resolve_entry(ParsedEntry::Current(b), &SourceRead::Missing, &SourceRead::Missing);
    let files = collect_diff_results(vec![
        EntryOutcome { relative: "a.rs".to_owned(), result: e1 },
        EntryOutcome { relative: "b.rs".to_owned(), result: e2 },
    ])
    .unwrap();
    assert_eq!(files.len(), 2);
    assert_eq!(files[0].path, "a.rs");
    assert_eq!(files[1].status, DiffStatus::Created);
}

fn sample_chunks(lhs: &str, rhs: &str) -> Vec<Vec<NewChunkLine>> {
    vec![vec![NewChunkLine {
        lhs: side(0, vec![change(0, lhs.chars().count() as u32, lhs)]),
        rhs: side(0, vec![change(0, rhs.chars().count() as u32, rhs)]),
    }]]
}

#[test]
fn parse_new_json_format_reads_source_lines() {
    let entry = raw("a.txt", DiffStatus::Changed, vec![(Some(0), Some(0)), (Some(1), Some(1))], sample_chunks("hello", "world"));
    let diff = resolve_entry(
        ParsedEntry::Current(entry),
        &SourceRead::Bytes(b"hello\nkeep".to_vec()),
        &SourceRead::Bytes(b"world\nkeep".to_vec()),
    )
    .unwrap();
    assert_eq!(diff.aligned_lines.len(), 2);
    assert_eq!(diff.aligned_lines[0].lhs_text, "hello");
    assert_eq!(diff.aligned_lines[0].rhs_text, "world");
    assert!(diff.aligned_lines[0].is_novel_lhs);
    assert!(diff.aligned_lines[0].is_novel_rhs);
    assert!(!diff.aligned_lines[1].is_novel_lhs);
    assert_eq!(diff.aligned_lines[1].lhs_text, "keep");
}

#[test]
fn parse_directory_array_new_format() {
    let entry = raw("file.txt", DiffStatus::Changed, vec![(Some(0), Some(0))], sample_chunks("left", "right"));
    let result = resolve_entry(
        ParsedEntry::Current(entry),
        &SourceRead::Bytes(b"left\n".to_vec()),
        &SourceRead::Bytes(b"right\n".to_vec()),
    );
    let files = collect_diff_results(vec![EntryOutcome { relative: "file.txt".to_owned(), result }]).unwrap();
    assert_eq!(files.len(), 1);
    assert_eq!(files[0].aligned_lines[0].lhs_text, "left");
    assert_eq!(files[0].aligned_lines[0].rhs_text, "right");
    assert_eq!(files[0].aligned_lines[0].lhs_spans[0].content, "left");
}

#[test]
fn parse_directory_json_skips_invalid_utf8_via_lossy_read() {
    let entry = raw("gbk.cpp", DiffStatus::Changed, vec![(Some(0), Some(0))], sample_chunks("left", "right"));
    let result = resolve_entry(
        ParsedEntry::Current(entry),
        &SourceRead::Bytes(b"left \xba\xc2\n".to_vec()),
        &SourceRead::Bytes(b"right \xba\xc2\n".to_vec()),
    );
    let files = collect_diff_results(vec![EntryOutcome { relative: "gbk.cpp".to_owned(), result }]).unwrap();
    assert_eq!(files.len(), 1);
    assert!(!files[0].aligned_lines[0].lhs_text.is_empty());
    assert_eq!(files[0].aligned_lines[0].lhs_text, "left \u{fffd}\u{fffd}");
}

#[test]
fn missing_alignment_uses_status() {
    let l = vec!["a".to_owned(), "b".to_owned()];
    let r = vec!["x".to_owned()];
    assert_eq!(aligned_pairs_for_status(DiffStatus::Unchanged, &l, &r), vec![(Some(0), Some(0)), (Some(1), Some(1))]);
    assert_eq!(aligned_pairs_for_status(DiffStatus::Created, &l, &r), vec![(None, Some(0))]);
    assert_eq!(aligned_pairs_for_status(DiffStatus::Deleted, &l, &r), vec![(Some(0), None), (Some(1), None)]);
    assert_eq!(aligned_pairs_for_status(DiffStatus::Changed, &l, &r), vec![]);

    let created = raw("n.txt", DiffStatus::Created, vec![], vec![]);
    let f = resolve_entry(ParsedEntry::Current(created), &SourceRead::Missing, &SourceRead::Bytes(b"p\r\nq\r\n".to_vec())).unwrap();
    assert_eq!(f.aligned_lines.len(), 2);
    assert_eq!(f.aligned_lines[1].rhs_text, "q");
    assert_eq!(f.aligned_lines[1].lhs_text, "");
    assert!(!f.aligned_lines[1].is_novel_rhs);
}

#[test]
fn line_text_out_of_range_is_empty() {
    let lines = vec!["zero".to_owned(), "one".to_owned()];
    assert_eq!(line_text(&lines, Some(1)), "one");
    assert_eq!(line_text(&lines, Some(2)), "");
    assert_eq!(line_text(&lines, None), "");
}

#[test]
fn later_chunk_line_wins() {
    let chunks = vec![
        vec![NewChunkLine { lhs: side(3, vec![change(0, 1, "a")]), rhs: None }],
        vec![
            NewChunkLine { lhs: side(3, vec![change(1, 2, "b")]), rhs: None },
            NewChunkLine { lhs: None, rhs: side(3, vec![]) },
        ],
    ];
    let found = find_chunk(&chunks, (Some(3), None)).unwrap();
    assert_eq!(found.lhs.as_ref().unwrap().changes[0].content, "b");
    assert!(find_chunk(&chunks, (Some(3), Some(3))).is_none());
    assert!(find_chunk(&chunks, (None, Some(3))).is_some());
}

#[test]
fn one_sided_chunk_lines_are_novel() {
    let chunks = vec![vec![
        NewChunkLine { lhs: side(0, vec![]), rhs: None },
        NewChunkLine { lhs: None, rhs: side(0, vec![]) },
    ]];
    let entry = raw("x.txt", DiffStatus::Changed, vec![(Some(0), None), (None, Some(0))], chunks);
    let f = convert_new_diff_json(entry, &["gone\r".to_owned()], &["new".to_owned()]);
    assert!(f.aligned_lines[0].is_novel_lhs);
    assert!(!f.aligned_lines[0].is_novel_rhs);
    assert_eq!(f.aligned_lines[0].lhs_text, "gone");
    assert!(f.aligned_lines[1].is_novel_rhs);
    assert!(!f.aligned_lines[1].is_novel_lhs);
}

#[test]
fn change_contents_lose_line_endings() {
    let spans = changes_to_spans(&[change(2, 7, "text\r\n")]);
    assert_eq!(spans.len(), 1);
    assert_eq!(spans[0].content, "text");
    assert_eq!((spans[0].start, spans[0].end), (2, 7));
    assert!(spans[0].is_novel);
}

#[test]
fn legacy_rows_are_normalized() {
    let a = legacy(
        "a.rs",
        DiffStatus::Changed,
        vec![AlignedLine {
            lhs_line: Some(0),
            rhs_line: Some(0),
            lhs_text: "old\r\n".to_owned(),
            rhs_text: "new\n".to_owned(),
            is_novel_lhs: true,
            is_novel_rhs: true,
            lhs_spans: vec![],
            rhs_spans: vec![],
        }],
    );
    let f = resolve_entry(ParsedEntry::Legacy(a), &SourceRead::Failed("unused".to_owned()), &SourceRead::Missing).unwrap();
    assert_eq!(f.aligned_lines[0].lhs_text, "old");
    assert_eq!(f.aligned_lines[0].rhs_text, "new");
}

#[test]
fn read_failures_stop_current_entries() {
    let entry = raw("x.txt", DiffStatus::Changed, vec![], vec![]);
    let r = resolve_entry(ParsedEntry::Current(entry.clone()), &SourceRead::Failed("failed to read a".to_owned()), &SourceRead::Failed("failed to read b".to_owned()));
    assert_eq!(r.unwrap_err(), "failed to read a");
    let r = resolve_entry(ParsedEntry::Current(entry), &SourceRead::Missing, &SourceRead::Failed("failed to read b".to_owned()));
    assert_eq!(r.unwrap_err(), "failed to read b");
}

#[test]
fn source_lines_of_missing_file_are_empty() {
    assert_eq!(source_lines(&SourceRead::Missing).unwrap(), Vec::<String>::new());
    assert_eq!(source_lines(&SourceRead::Bytes(b"a\n\nb".to_vec())).unwrap(), vec!["a".to_owned(), String::new(), "b".to_owned()]);
}

#[test]
fn skipped_entries_are_noted_on_first_file() {
    let ok = legacy("good.rs", DiffStatus::Changed, vec![]);
    let mut ok2 = legacy("also.rs", DiffStatus::Changed, vec![]);
    ok2.extra_info = Some("kept".to_owned());
    let files = collect_diff_results(vec![
        EntryOutcome { relative: "bad1.rs".to_owned(), result: Err("invalid JSON: x".to_owned()) },
        EntryOutcome { relative: "good.rs".to_owned(), result: Ok(ok) },
        EntryOutcome { relative: "bad2.rs".to_owned(), result: Err("failed to read".to_owned()) },
        EntryOutcome { relative: "also.rs".to_owned(), result: Ok(ok2) },
    ])
    .unwrap();
    assert_eq!(files.len(), 2);
    assert_eq!(
        files[0].extra_info.as_deref(),
        Some("Skipped 2 file(s) due to read/parse errors:\nbad1.rs: invalid JSON: x\nbad2.rs: failed to read")
    );
    assert_eq!(files[1].extra_info.as_deref(), Some("kept"));
}

#[test]
fn note_is_appended_to_existing_info() {
    let mut ok = legacy("good.rs", DiffStatus::Changed, vec![]);
    ok.extra_info = Some("big file".to_owned());
    let files = collect_diff_results(vec![
        EntryOutcome { relative: "good.rs".to_owned(), result: Ok(ok) },
        EntryOutcome { relative: "x".to_owned(), result: Err("e".to_owned()) },
    ])
    .unwrap();
    assert_eq!(files[0].extra_info.as_deref(), Some("big file\nSkipped 1 file(s) due to read/parse errors:\nx: e"));
}

#[test]
fn all_entries_failing_is_an_error() {
    let r = collect_diff_results(vec![
        EntryOutcome { relative: "a".to_owned(), result: Err("e1".to_owned()) },
        EntryOutcome { relative: "b".to_owned(), result: Err("e2".to_owned()) },
    ]);
    assert_eq!(r.unwrap_err(), "a: e1\nb: e2");
    let r = collect_diff_results(vec![]);
    assert_eq!(r.unwrap_err(), "difft returned an empty JSON array (no differences).");
}

#[test]
fn json_text_framing() {
    assert_eq!(trimmed_json_text(b"  [1]\n").unwrap(), "[1]");
    assert_eq!(trimmed_json_text(b" \t\n").unwrap_err(), "difft produced no JSON output.");
    assert_eq!(trimmed_json_text(b"\xff").unwrap_err(), std::str::from_utf8(b"\xff").unwrap_err().to_string());
    assert_eq!(directory_json_text(b"\xef\xbb\xbf [] ").unwrap(), "[]");
    assert_eq!(directory_json_text(b" \xef\xbb\xbf\xef\xbb\xbf{}").unwrap(), "{}");
    assert_eq!(directory_json_text(b"\xef\xbb\xbf\n").unwrap_err(), "difft produced no JSON output.");
    assert_eq!(directory_json_text(b"").unwrap_err(), "difft produced no JSON output.");
    assert!(directory_json_text(b"\xef\xbb\xbf\xc3").is_err());
}

#[test]
fn byte_order_mark_changes_nothing() {
    assert_eq!(directory_json_text(b"\xef\xbb\xbf{\"a\":1}"), directory_json_text(b"{\"a\":1}"));
}

#[test]
fn json_parse_errors_are_prefixed() {
    let err = difft_dir_viewer::results::parse_json_text("{\"a\":").unwrap_err();
    assert!(err.starts_with("invalid JSON: "));
    assert!(err.len() > "invalid JSON: ".len());
    let expected = serde_json::from_str::<serde_json::Value>("{\"a\":").unwrap_err().to_string();
    assert_eq!(err, format!("invalid JSON: {expected}"));
    let v = difft_dir_viewer::results::parse_json_text("[{\"path\":\"a\"}]").unwrap();
    assert!(v.is_array());
}

#[test]
fn normalizing_twice_is_normalizing_once() {
    let mut f = legacy(
        "a.rs",
        DiffStatus::Changed,
        vec![AlignedLine {
            lhs_line: Some(0),
            rhs_line: Some(0),
            lhs_text: "a\r\n\n".to_owned(),
            rhs_text: "b\r".to_owned(),
            is_novel_lhs: false,
            is_novel_rhs: false,
            lhs_spans: vec![],
            rhs_spans: vec![],
        }],
    );
    difft_dir_viewer::model::normalize_diff_file(&mut f);
    let once = f.aligned_lines[0].lhs_text.clone();
    difft_dir_viewer::model::normalize_diff_file(&mut f);
    assert_eq!(once, "a");
    assert_eq!(f.aligned_lines[0].lhs_text, once);
    assert_eq!(f.aligned_lines[0].rhs_text, "b");
}

fn json_entry(value: serde_json::Value) -> difft_dir_viewer::results::JsonEntry {
    let path = value.get("path").and_then(|p| p.as_str()).map(|p| p.to_owned());
    difft_dir_viewer::results::JsonEntry { path, first_aligned_row: None, value }
}

#[test]
fn document_array_or_single_object() {
    let v = parse_json_text("[{\"path\":\"a.rs\"},{\"path\":7}]").unwrap();
    let items: Vec<_> = match v {
        serde_json::Value::Array(items) => items.into_iter().map(json_entry).collect(),
        _ => unreachable!(),
    };
    let entries = document_entries(JsonDocument::Array(items));
    assert_eq!(entries.len(), 2);
    assert_eq!(entry_relative_path(&entries[0]), "a.rs");
    assert_eq!(entry_relative_path(&entries[1]), "");
    let single = parse_json_text("{\"path\":\"b.rs\"}").unwrap();
    let entries = document_entries(JsonDocument::Single(json_entry(single)));
    assert_eq!(entries.len(), 1);
    assert_eq!(entry_relative_path(&entries[0]), "b.rs");
    assert!(document_entries(JsonDocument::Array(vec![])).is_empty());
}

#[test]
fn first_entry_of_single_file_output() {
    let doc = JsonDocument::Array(vec![]);
    assert_eq!(first_document_entry(doc).unwrap_err(), "difft returned an empty JSON array.");
    let a = parse_json_text("{\"path\":\"x\"}").unwrap();
    let b = parse_json_text("{\"path\":\"y\"}").unwrap();
    let e = first_document_entry(JsonDocument::Array(vec![json_entry(a), json_entry(b)])).unwrap();
    assert_eq!(entry_relative_path(&e), "x");
}

#[test]
fn lone_value_equals_one_element_array() {
    let text = "{\"path\":\"a.rs\"}";
    let lone = parse_json_text(text).unwrap();
    let arr = parse_json_text(&format!("[{text}]")).unwrap();
    let items = match arr {
        serde_json::Value::Array(items) => items,
        _ => unreachable!(),
    };
    assert_eq!(items, vec![lone.clone()]);
    let from_single = document_entries(JsonDocument::Single(json_entry(lone)));
    let from_array = document_entries(JsonDocument::Array(items.into_iter().map(json_entry).collect()));
    assert_eq!(from_single.len(), from_array.len());
    assert_eq!(from_single[0].value, from_array[0].value);
    assert_eq!(entry_relative_path(&from_single[0]), entry_relative_path(&from_array[0]));
}

#[test]
fn parsed_document_is_the_input() {
    let v = parse_json_text("[{\"path\":\"a.rs\",\"status\":\"changed\"}]").unwrap();
    assert_eq!(v, serde_json::from_str::<serde_json::Value>("[{\"status\":\"changed\",\"path\":\"a.rs\"}]").unwrap());
    assert_ne!(v, serde_json::Value::Array(vec![]));
}
