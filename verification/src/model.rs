//! The changed-file records of a directory diff, the rows shown in the two
//! code panes, and the rules that pick, label and describe them.

use vstd::prelude::*;

use crate::text::{
    ascii_lower, chars_of, eq_ignore_ascii_case, join, join_strings, logical_lines,
    normalize_line, normalized_line, split_logical_lines, strings_view, strip_leading, trim,
    trim_start_class, trim_ws, to_ascii_lowercase, starts_with_chars, utf8_lossy, utf8_lossy_text,
    CharClass,
};

verus! {

// ---------------------------------------------------------------------------
// Types and their models
// ---------------------------------------------------------------------------

/// The syntax class that `difft` gives a changed span.
#[derive(Clone, Copy, Debug, PartialEq, Eq, Structural)]
pub enum Highlight {
    Delimiter,
    Normal,
    StringLiteral,
    Type,
    Comment,
    Keyword,
    TreeSitterError,
}

/// A highlighted span of one line: character offsets, its text and class.
#[derive(Clone, Debug, PartialEq, Eq)]
pub struct TextSpan {
    pub start: u32,
    pub end: u32,
    pub content: String,
    pub highlight: Highlight,
    pub is_novel: bool,
}

pub struct SpanModel {
    pub start: u32,
    pub end: u32,
    pub content: Seq<char>,
    pub highlight: Highlight,
    pub is_novel: bool,
}

impl View for TextSpan {
    type V = SpanModel;

    open spec fn view(&self) -> SpanModel {
        SpanModel {
            start: self.start,
            end: self.end,
            content: self.content@,
            highlight: self.highlight,
            is_novel: self.is_novel,
        }
    }
}

pub open spec fn spans_view(v: Seq<TextSpan>) -> Seq<SpanModel> {
    v.map_values(|s: TextSpan| s@)
}

/// How a file differs between the two directories.
#[derive(Clone, Copy, Debug, PartialEq, Eq, Structural)]
pub enum DiffStatus {
    Unchanged,
    Changed,
    Created,
    Deleted,
}

/// One aligned row of a file's diff, as `difft` reports it.
#[derive(Clone, Debug)]
pub struct AlignedLine {
    pub lhs_line: Option<u32>,
    pub rhs_line: Option<u32>,
    pub lhs_text: String,
    pub rhs_text: String,
    pub is_novel_lhs: bool,
    pub is_novel_rhs: bool,
    pub lhs_spans: Vec<TextSpan>,
    pub rhs_spans: Vec<TextSpan>,
}

/// The contents of one row, whether aligned or ready for display.
pub struct RowModel {
    pub lhs_line: Option<u32>,
    pub rhs_line: Option<u32>,
    pub lhs_text: Seq<char>,
    pub rhs_text: Seq<char>,
    pub is_novel_lhs: bool,
    pub is_novel_rhs: bool,
    pub lhs_spans: Seq<SpanModel>,
    pub rhs_spans: Seq<SpanModel>,
}

impl View for AlignedLine {
    type V = RowModel;

    open spec fn view(&self) -> RowModel {
        RowModel {
            lhs_line: self.lhs_line,
            rhs_line: self.rhs_line,
            lhs_text: self.lhs_text@,
            rhs_text: self.rhs_text@,
            is_novel_lhs: self.is_novel_lhs,
            is_novel_rhs: self.is_novel_rhs,
            lhs_spans: spans_view(self.lhs_spans@),
            rhs_spans: spans_view(self.rhs_spans@),
        }
    }
}

pub open spec fn rows_view(v: Seq<AlignedLine>) -> Seq<RowModel> {
    v.map_values(|l: AlignedLine| l@)
}

/// One changed file of a directory diff.
#[derive(Clone, Debug)]
pub struct DiffFile {
    /// Relative path from the compared directory root.
    pub path: String,
    pub language: String,
    pub status: DiffStatus,
    pub extra_info: Option<String>,
    pub aligned_lines: Vec<AlignedLine>,
}

pub struct FileModel {
    pub path: Seq<char>,
    pub language: Seq<char>,
    pub status: DiffStatus,
    pub extra_info: Option<Seq<char>>,
    pub aligned_lines: Seq<RowModel>,
}

pub open spec fn opt_view(o: Option<String>) -> Option<Seq<char>> {
    match o {
        Some(s) => Some(s@),
        None => None,
    }
}

impl View for DiffFile {
    type V = FileModel;

    open spec fn view(&self) -> FileModel {
        FileModel {
            path: self.path@,
            language: self.language@,
            status: self.status,
            extra_info: opt_view(self.extra_info),
            aligned_lines: rows_view(self.aligned_lines@),
        }
    }
}

pub open spec fn files_view(v: Seq<DiffFile>) -> Seq<FileModel> {
    v.map_values(|f: DiffFile| f@)
}

/// One row ready for the two code panes.
#[derive(Clone, Debug, PartialEq, Eq)]
pub struct DisplayLine {
    pub lhs_line: Option<u32>,
    pub rhs_line: Option<u32>,
    pub lhs_text: String,
    pub rhs_text: String,
    pub is_novel_lhs: bool,
    pub is_novel_rhs: bool,
    pub lhs_spans: Vec<TextSpan>,
    pub rhs_spans: Vec<TextSpan>,
}

impl View for DisplayLine {
    type V = RowModel;

    open spec fn view(&self) -> RowModel {
        RowModel {
            lhs_line: self.lhs_line,
            rhs_line: self.rhs_line,
            lhs_text: self.lhs_text@,
            rhs_text: self.rhs_text@,
            is_novel_lhs: self.is_novel_lhs,
            is_novel_rhs: self.is_novel_rhs,
            lhs_spans: spans_view(self.lhs_spans@),
            rhs_spans: spans_view(self.rhs_spans@),
        }
    }
}

pub open spec fn display_view(v: Seq<DisplayLine>) -> Seq<RowModel> {
    v.map_values(|l: DisplayLine| l@)
}

// ---------------------------------------------------------------------------
// Copies
// ---------------------------------------------------------------------------

pub fn copy_string(s: &String) -> (r: String)
    ensures
        r@ == s@,
{
    s.clone()
}

pub fn copy_span(s: &TextSpan) -> (r: TextSpan)
    ensures
        r@ == s@,
{
    TextSpan {
        start: s.start,
        end: s.end,
        content: copy_string(&s.content),
        highlight: s.highlight,
        is_novel: s.is_novel,
    }
}

pub fn copy_spans(v: &Vec<TextSpan>) -> (r: Vec<TextSpan>)
    ensures
        spans_view(r@) == spans_view(v@),
{
    let mut r: Vec<TextSpan> = Vec::new();
    let mut i: usize = 0;
    while i < v.len()
        invariant
            i <= v@.len(),
            r@.len() == i,
            forall|j: int| 0 <= j < i ==> #[trigger] r@[j]@ == v@[j]@,
        decreases v@.len() - i,
    {
        r.push(copy_span(&v[i]));
        i = i + 1;
    }
    proof {
        assert(spans_view(r@) =~= spans_view(v@));
    }
    r
}

// ---------------------------------------------------------------------------
// Line-ending normalization of a whole file
// ---------------------------------------------------------------------------

pub open spec fn normalized_span(s: SpanModel) -> SpanModel {
    SpanModel { content: normalized_line(s.content), ..s }
}

pub open spec fn normalized_spans(v: Seq<SpanModel>) -> Seq<SpanModel> {
    v.map_values(|s: SpanModel| normalized_span(s))
}

pub open spec fn normalized_row(r: RowModel) -> RowModel {
    RowModel {
        lhs_text: normalized_line(r.lhs_text),
        rhs_text: normalized_line(r.rhs_text),
        lhs_spans: normalized_spans(r.lhs_spans),
        rhs_spans: normalized_spans(r.rhs_spans),
        ..r
    }
}

pub open spec fn normalized_rows(v: Seq<RowModel>) -> Seq<RowModel> {
    v.map_values(|r: RowModel| normalized_row(r))
}

/// A file whose row texts and span contents have their line endings removed.
pub open spec fn normalized_file(f: FileModel) -> FileModel {
    FileModel { aligned_lines: normalized_rows(f.aligned_lines), ..f }
}

fn normalize_spans(v: &Vec<TextSpan>) -> (r: Vec<TextSpan>)
    ensures
        spans_view(r@) == normalized_spans(spans_view(v@)),
{
    let mut r: Vec<TextSpan> = Vec::new();
    let mut i: usize = 0;
    while i < v.len()
        invariant
            i <= v@.len(),
            r@.len() == i,
            forall|j: int| 0 <= j < i ==> #[trigger] r@[j]@ == normalized_span(v@[j]@),
        decreases v@.len() - i,
    {
        let s = &v[i];
        r.push(
            TextSpan {
                start: s.start,
                end: s.end,
                content: normalize_line(s.content.as_str()),
                highlight: s.highlight,
                is_novel: s.is_novel,
            },
        );
        i = i + 1;
    }
    proof {
        assert(spans_view(r@) =~= normalized_spans(spans_view(v@)));
    }
    r
}

fn normalize_row(l: &AlignedLine) -> (r: AlignedLine)
    ensures
        r@ == normalized_row(l@),
{
    AlignedLine {
        lhs_line: l.lhs_line,
        rhs_line: l.rhs_line,
        lhs_text: normalize_line(l.lhs_text.as_str()),
        rhs_text: normalize_line(l.rhs_text.as_str()),
        is_novel_lhs: l.is_novel_lhs,
        is_novel_rhs: l.is_novel_rhs,
        lhs_spans: normalize_spans(&l.lhs_spans),
        rhs_spans: normalize_spans(&l.rhs_spans),
    }
}

/// Removes line endings from every row text and span content of `file`.
pub fn normalize_diff_file(file: &mut DiffFile)
    ensures
        final(file)@ == normalized_file(old(file)@),
{
    let mut rows: Vec<AlignedLine> = Vec::new();
    let mut i: usize = 0;
    while i < file.aligned_lines.len()
        invariant
            i <= file.aligned_lines@.len(),
            rows@.len() == i,
            forall|j: int| 0 <= j < i ==> #[trigger] rows@[j]@ == normalized_row(
                file.aligned_lines@[j]@,
            ),
        decreases file.aligned_lines@.len() - i,
    {
        rows.push(normalize_row(&file.aligned_lines[i]));
        i = i + 1;
    }
    proof {
        assert(rows_view(rows@) =~= normalized_rows(rows_view(file.aligned_lines@)));
    }
    file.aligned_lines = rows;
}

// ---------------------------------------------------------------------------
// Rows for the code panes
// ---------------------------------------------------------------------------

/// Copies aligned rows into display rows, field by field.
pub fn aligned_to_display(lines: &[AlignedLine]) -> (r: Vec<DisplayLine>)
    ensures
        display_view(r@) == rows_view(lines@),
{
    let mut r: Vec<DisplayLine> = Vec::new();
    let mut i: usize = 0;
    while i < lines.len()
        invariant
            i <= lines@.len(),
            r@.len() == i,
            forall|j: int| 0 <= j < i ==> #[trigger] r@[j]@ == lines@[j]@,
        decreases lines@.len() - i,
    {
        let l = &lines[i];
        r.push(
            DisplayLine {
                lhs_line: l.lhs_line,
                rhs_line: l.rhs_line,
                lhs_text: copy_string(&l.lhs_text),
                rhs_text: copy_string(&l.rhs_text),
                is_novel_lhs: l.is_novel_lhs,
                is_novel_rhs: l.is_novel_rhs,
                lhs_spans: copy_spans(&l.lhs_spans),
                rhs_spans: copy_spans(&l.rhs_spans),
            },
        );
        i = i + 1;
    }
    proof {
        assert(display_view(r@) =~= rows_view(lines@));
    }
    r
}

/// The display row for line `i` (0-based) of a file that exists on one side
/// only: the left side for a deleted file, the right side otherwise.
pub open spec fn file_row(i: int, line: Seq<char>, side: DiffStatus) -> RowModel {
    if side == DiffStatus::Deleted {
        RowModel {
            lhs_line: Some(i as u32),
            rhs_line: None,
            lhs_text: line,
            rhs_text: seq![],
            is_novel_lhs: true,
            is_novel_rhs: false,
            lhs_spans: seq![],
            rhs_spans: seq![],
        }
    } else {
        RowModel {
            lhs_line: None,
            rhs_line: Some(i as u32),
            lhs_text: seq![],
            rhs_text: line,
            is_novel_lhs: false,
            is_novel_rhs: true,
            lhs_spans: seq![],
            rhs_spans: seq![],
        }
    }
}

/// One display row per logical line of `text`.
pub open spec fn file_rows(text: Seq<char>, side: DiffStatus) -> Seq<RowModel> {
    logical_lines(text).map(|i: int, l: Seq<char>| file_row(i, l, side))
}

/// The rows of a file that only one directory holds, from the file's text:
/// every line is novel on the side that has it. Only a deleted or a created
/// file has rows; for any other status the text must have no lines.
pub fn lines_from_file(content: &str, side: DiffStatus) -> (r: Vec<DisplayLine>)
    requires
        side == DiffStatus::Deleted || side == DiffStatus::Created || logical_lines(content@).len()
            == 0,
    ensures
        display_view(r@) == file_rows(content@, side),
{
    let lines = split_logical_lines(content);
    let ghost ls = logical_lines(content@);
    let mut r: Vec<DisplayLine> = Vec::new();
    let mut i: usize = 0;
    while i < lines.len()
        invariant
            i <= lines@.len(),
            strings_view(lines@) == ls,
            r@.len() == i,
            forall|j: int| 0 <= j < i ==> #[trigger] r@[j]@ == file_row(j, ls[j], side),
        decreases lines@.len() - i,
    {
        let line_num: u32 = i as u32;
        let text = copy_string(&lines[i]);
        proof {
            assert(ls[i as int] == lines@[i as int]@);
        }
        let row = match side {
            DiffStatus::Deleted => DisplayLine {
                lhs_line: Some(line_num),
                rhs_line: None,
                lhs_text: text,
                rhs_text: String::new(),
                is_novel_lhs: true,
                is_novel_rhs: false,
                lhs_spans: Vec::new(),
                rhs_spans: Vec::new(),
            },
            _ => DisplayLine {
                lhs_line: None,
                rhs_line: Some(line_num),
                lhs_text: String::new(),
                rhs_text: text,
                is_novel_lhs: false,
                is_novel_rhs: true,
                lhs_spans: Vec::new(),
                rhs_spans: Vec::new(),
            },
        };
        proof {
            assert(spans_view(row.lhs_spans@) =~= seq![]);
            assert(spans_view(row.rhs_spans@) =~= seq![]);
        }
        r.push(row);
        i = i + 1;
    }
    proof {
        assert(display_view(r@) =~= file_rows(content@, side));
    }
    r
}

/// The rows of a file that only one directory holds, from the bytes read
/// from disk: they are decoded as UTF-8, invalid sequences becoming U+FFFD.
pub fn lines_from_bytes(bytes: &[u8], side: DiffStatus) -> (r: Vec<DisplayLine>)
    requires
        side == DiffStatus::Deleted || side == DiffStatus::Created || logical_lines(
            utf8_lossy_text(bytes@),
        ).len() == 0,
    ensures
        display_view(r@) == file_rows(utf8_lossy_text(bytes@), side),
{
    let text = utf8_lossy(bytes);
    lines_from_file(text.as_str(), side)
}

/// The text of a file as read from disk (bytes decoded lossily), or the
/// read failure.
pub open spec fn source_text_view(source: Result<Vec<u8>, String>) -> Result<Seq<char>, Seq<char>> {
    match source {
        Ok(b) => Ok(utf8_lossy_text(b@)),
        Err(e) => Err(e@),
    }
}

/// The directory whose copy of a file must be read to display it.
#[derive(Clone, Copy, Debug, PartialEq, Eq, Structural)]
pub enum SourceSide {
    DirA,
    DirB,
}

pub open spec fn source_side_spec(f: FileModel) -> Option<SourceSide> {
    if f.aligned_lines.len() > 0 {
        None
    } else if f.status == DiffStatus::Deleted {
        Some(SourceSide::DirA)
    } else if f.status == DiffStatus::Created {
        Some(SourceSide::DirB)
    } else {
        None
    }
}

/// Which directory's copy of `file` `display_lines` needs: none when the
/// diff carries its rows, directory A for a deleted file, B for a created one.
pub fn source_side(file: &DiffFile) -> (r: Option<SourceSide>)
    ensures
        r == source_side_spec(file@),
{
    if file.aligned_lines.len() > 0 {
        None
    } else {
        match file.status {
            DiffStatus::Deleted => Some(SourceSide::DirA),
            DiffStatus::Created => Some(SourceSide::DirB),
            _ => None,
        }
    }
}

/// The rows of `file` for the code panes. `source` is the text of the file in
/// the directory that `source_side` names (or the read failure); it is not
/// consulted when that is `None`.
pub open spec fn display_spec(f: FileModel, source: Result<Seq<char>, Seq<char>>) -> Result<
    Seq<RowModel>,
    Seq<char>,
> {
    if f.aligned_lines.len() > 0 {
        Ok(f.aligned_lines)
    } else if f.status == DiffStatus::Deleted || f.status == DiffStatus::Created {
        match source {
            Ok(text) => Ok(file_rows(text, f.status)),
            Err(e) => Err(e),
        }
    } else {
        Ok(seq![])
    }
}

/// The rows of `file` for the code panes: its aligned rows when `difft` gave
/// them, otherwise the whole text of a created or deleted file, otherwise none.
/// `source` is the outcome of reading the file's bytes from the directory
/// that `source_side` names.
pub fn display_lines(file: &DiffFile, source: &Result<Vec<u8>, String>) -> (r: Result<
    Vec<DisplayLine>,
    String,
>)
    ensures
        match r {
            Ok(v) => display_spec(file@, source_text_view(*source)) == Ok::<Seq<RowModel>, Seq<char>>(
                display_view(v@),
            ),
            Err(e) => display_spec(file@, source_text_view(*source)) == Err::<Seq<RowModel>, Seq<char>>(
                e@,
            ),
        },
{
    if file.aligned_lines.len() > 0 {
        return Ok(aligned_to_display(file.aligned_lines.as_slice()));
    }
    match file.status {
        DiffStatus::Deleted | DiffStatus::Created => match source {
            Ok(bytes) => Ok(lines_from_bytes(bytes.as_slice(), file.status)),
            Err(e) => Err(copy_string(e)),
        },
        _ => {
            let v: Vec<DisplayLine> = Vec::new();
            proof {
                assert(display_view(v@) =~= seq![]);
            }
            Ok(v)
        },
    }
}

// ---------------------------------------------------------------------------
// Extensions and filtering
// ---------------------------------------------------------------------------

/// A command-line extension with white space, leading dots and case removed;
/// `None` when nothing is left.
pub open spec fn normalized_extension(ext: Seq<char>) -> Option<Seq<char>> {
    let t = strip_leading(trim_ws(ext), CharClass::Dot);
    if t.len() == 0 {
        None
    } else {
        Some(ascii_lower(t))
    }
}

/// Normalize a command-line extension (`cpp`, `.cpp`, `CPP` all give `cpp`).
pub fn normalize_extension(ext: &str) -> (r: Option<String>)
    ensures
        opt_view(r) == normalized_extension(ext@),
{
    let trimmed = trim(ext);
    let bare = trim_start_class(trimmed.as_str(), CharClass::Dot);
    if bare.as_str().is_empty() {
        return None;
    }
    Some(to_ascii_lowercase(bare.as_str()))
}

/// Whether `difft` treated the file as text, i.e. its language is not
/// `Binary` in any ASCII case.
pub open spec fn is_text_file_spec(f: FileModel) -> bool {
    ascii_lower(f.language) != ascii_lower("Binary"@)
}

/// Whether `difft` treated this entry as a text diff (not binary).
pub fn is_text_diff_file(file: &DiffFile) -> (r: bool)
    ensures
        r == is_text_file_spec(file@),
{
    !eq_ignore_ascii_case(file.language.as_str(), "Binary")
}

/// The extension that `std::path::Path::extension` finds in `path`: the part
/// of the file name after its last `.`, if the name has a `.` that does not
/// start it.
pub uninterp spec fn file_extension_of(path: Seq<char>) -> Option<Seq<char>>;

/// `Path::new(path).extension()`, as a string. The extension is part of the
/// path's file name after its final `.`, so it holds neither `.` nor `/`, and
/// a path without `.` has none.
#[verifier::external_body]
fn file_extension(path: &str) -> (r: Option<String>)
    ensures
        opt_view(r) == file_extension_of(path@),
        r matches Some(e) ==> !e@.contains('.') && !e@.contains('/') && path@.contains('.'),
{
    std::path::Path::new(path).extension().and_then(|e| e.to_str()).map(|e| e.to_owned())
}

/// The lower-cased extension of a relative path.
pub open spec fn path_extension_spec(path: Seq<char>) -> Option<Seq<char>> {
    match file_extension_of(path) {
        Some(e) => Some(ascii_lower(e)),
        None => None,
    }
}

fn path_extension(path: &str) -> (r: Option<String>)
    ensures
        opt_view(r) == path_extension_spec(path@),
        r is Some ==> path@.contains('.'),
{
    match file_extension(path) {
        Some(e) => Some(to_ascii_lowercase(e.as_str())),
        None => None,
    }
}

pub open spec fn matches_extensions_spec(path: Seq<char>, extensions: Seq<Seq<char>>) -> bool {
    match path_extension_spec(path) {
        Some(e) => extensions.contains(e),
        None => false,
    }
}

/// Whether a relative path ends with one of the normalized extensions.
pub fn path_matches_extensions(path: &str, extensions: &[String]) -> (r: bool)
    ensures
        r == matches_extensions_spec(path@, strings_view(extensions@)),
        r ==> path@.contains('.'),
{
    let file_ext = match path_extension(path) {
        Some(e) => e,
        None => return false,
    };
    let ghost exts = strings_view(extensions@);
    let mut i: usize = 0;
    while i < extensions.len()
        invariant
            i <= extensions@.len(),
            exts == strings_view(extensions@),
            path_extension_spec(path@) == Some(file_ext@),
            path@.contains('.'),
            forall|j: int| 0 <= j < i ==> exts[j] != file_ext@,
        decreases extensions@.len() - i,
    {
        if extensions[i] == file_ext {
            proof {
                assert(exts[i as int] == file_ext@);
                assert(exts.contains(file_ext@));
                assert(path_extension_spec(path@) == Some(file_ext@));
            }
            return true;
        }
        i = i + 1;
    }
    false
}

/// Whether a file stays in the changed-files list: a text diff, whose path
/// has one of `extensions` when any are given.
pub open spec fn keeps_file(f: FileModel, extensions: Seq<Seq<char>>) -> bool {
    is_text_file_spec(f) && (extensions.len() == 0 || matches_extensions_spec(f.path, extensions))
}

pub open spec fn filtered_files(files: Seq<FileModel>, extensions: Seq<Seq<char>>) -> Seq<
    FileModel,
> {
    files.filter(|f: FileModel| keeps_file(f, extensions))
}

fn keeps(file: &DiffFile, extensions: &[String]) -> (r: bool)
    ensures
        r == keeps_file(file@, strings_view(extensions@)),
        r && extensions@.len() > 0 ==> file@.path.contains('.'),
{
    if !is_text_diff_file(file) {
        return false;
    }
    extensions.len() == 0 || path_matches_extensions(file.path.as_str(), extensions)
}

/// Keep text diffs; when `extensions` is non-empty, keep only matching suffixes.
pub fn filter_diff_files(files: Vec<DiffFile>, extensions: &[String]) -> (r: Vec<DiffFile>)
    ensures
        files_view(r@) == filtered_files(files_view(files@), strings_view(extensions@)),
        extensions@.len() > 0 ==> forall|i: int| 0 <= i < r@.len() ==> (#[trigger] r@[i])@.path.contains('.'),
{
    let ghost exts = strings_view(extensions@);
    let ghost pred = |f: FileModel| keeps_file(f, exts);
    let ghost all = files_view(files@);
    let n = files.len();
    let mut src = files;
    let mut rest: Vec<DiffFile> = Vec::new();
    while src.len() > 0
        invariant
            n == all.len(),
            src@.len() + rest@.len() == n,
            forall|j: int| 0 <= j < src@.len() ==> #[trigger] src@[j]@ == all[j],
            forall|j: int| 0 <= j < rest@.len() ==> #[trigger] rest@[j]@ == all[n - 1 - j],
        decreases src@.len(),
    {
        let f = src.pop().unwrap();
        rest.push(f);
    }
    let mut kept: Vec<DiffFile> = Vec::new();
    let mut i: usize = 0;
    while i < n
        invariant
            n == all.len(),
            exts == strings_view(extensions@),
            pred == (|f: FileModel| keeps_file(f, exts)),
            i <= n,
            rest@.len() == n - i,
            forall|j: int| 0 <= j < n - i ==> #[trigger] rest@[j]@ == all[n - 1 - j],
            files_view(kept@) == all.take(i as int).filter(pred),
            extensions@.len() > 0 ==> forall|j: int| 0 <= j < kept@.len() ==> (#[trigger] kept@[j])@.path.contains('.'),
        decreases n - i,
    {
        let f = rest.pop().unwrap();
        proof {
            assert(f@ == all[i as int]);
            reveal_with_fuel(Seq::<FileModel>::filter, 1);
            assert(all.take(i + 1).drop_last() =~= all.take(i as int));
            assert(all.take(i + 1).last() == all[i as int]);
        }
        if keeps(&f, extensions) {
            proof {
                assert(files_view(kept@.push(f)) =~= files_view(kept@).push(f@));
            }
            kept.push(f);
        }
        i = i + 1;
    }
    proof {
        assert(all.take(n as int) =~= all);
    }
    kept
}

// ---------------------------------------------------------------------------
// Labels and messages
// ---------------------------------------------------------------------------

/// The one-letter tag shown beside a path in the changed-files list.
pub open spec fn status_label_spec(s: DiffStatus) -> Seq<char> {
    match s {
        DiffStatus::Changed => "M"@,
        DiffStatus::Created => "A"@,
        DiffStatus::Deleted => "D"@,
        DiffStatus::Unchanged => "="@,
    }
}

pub fn status_label(status: DiffStatus) -> (r: &'static str)
    ensures
        r@ == status_label_spec(status),
{
    match status {
        DiffStatus::Changed => "M",
        DiffStatus::Created => "A",
        DiffStatus::Deleted => "D",
        DiffStatus::Unchanged => "=",
    }
}

/// The warning shown for a file: its non-empty extra information, else its
/// language when that starts with `Text (`.
pub open spec fn warning_spec(f: FileModel) -> Option<Seq<char>> {
    if f.extra_info is Some && f.extra_info->0.len() > 0 {
        f.extra_info
    } else if "Text ("@.len() <= f.language.len() && f.language.take("Text ("@.len() as int)
        == "Text ("@ {
        Some(f.language)
    } else {
        None
    }
}

pub fn warning_message(file: &DiffFile) -> (r: Option<String>)
    ensures
        opt_view(r) == warning_spec(file@),
{
    if let Some(info) = &file.extra_info {
        if !info.as_str().is_empty() {
            return Some(copy_string(info));
        }
    }
    let prefix = chars_of("Text (");
    if starts_with_chars(file.language.as_str(), prefix.as_slice()) {
        return Some(copy_string(&file.language));
    }
    None
}

/// The lines of the info overlay for a file showing `visible_line_count` rows.
pub open spec fn info_parts(f: FileModel, visible_line_count: nat) -> Seq<Seq<char>> {
    let w: Seq<Seq<char>> = match warning_spec(f) {
        Some(x) => seq![x],
        None => seq![],
    };
    if visible_line_count == 0 && f.status == DiffStatus::Created {
        w.push("File created."@)
    } else if visible_line_count == 0 && f.status == DiffStatus::Deleted {
        w.push("File deleted."@)
    } else {
        w
    }
}

/// The info-overlay text for a file: its warning, then, when no row is
/// visible, whether it was created or deleted; one per line.
pub fn file_info_message(file: &DiffFile, visible_line_count: usize) -> (r: String)
    ensures
        r@ == join(info_parts(file@, visible_line_count as nat), "\n"@),
{
    let mut parts: Vec<String> = Vec::new();
    if let Some(warning) = warning_message(file) {
        parts.push(warning);
    }
    if visible_line_count == 0 {
        match file.status {
            DiffStatus::Created => parts.push("File created.".to_owned()),
            DiffStatus::Deleted => parts.push("File deleted.".to_owned()),
            _ => {},
        }
    }
    proof {
        assert(strings_view(parts@) =~= info_parts(file@, visible_line_count as nat));
    }
    join_strings(&parts, "\n")
}

} // verus!
