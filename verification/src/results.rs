//! Directory-mode results: framing `difft`'s standard output as JSON text,
//! finishing each parsed entry with the text of its two copies, and gathering
//! the entries into the changed-file list with a note on the skipped ones.

use vstd::prelude::*;
use vstd::utf8::decode_utf8;
use vstd::utf8::valid_utf8;

use crate::convert::{convert_new_diff_json, converted_file, NewDiffFile};
use crate::model::{
    copy_string, files_view, normalize_diff_file, normalized_file, DiffFile, FileModel,
};
use crate::text::{
    decimal, join, join_strings, logical_lines, split_logical_lines, strings_view, strip_leading,
    trim, trim_start_class, trim_ws, usize_to_decimal, utf8_decode, utf8_lossy,
    utf8_lossy_text, CharClass,
};

verus! {

// ---------------------------------------------------------------------------
// Framing the output as JSON text
// ---------------------------------------------------------------------------

pub open spec fn no_output_message() -> Seq<char> {
    "difft produced no JSON output."@
}

pub open spec fn empty_array_message() -> Seq<char> {
    "difft returned an empty JSON array (no differences)."@
}

/// `bytes` without a leading UTF-8 byte-order mark.
pub open spec fn strip_bom_bytes(bytes: Seq<u8>) -> Seq<u8> {
    if bytes.len() >= 3 && bytes[0] == 0xEF && bytes[1] == 0xBB && bytes[2] == 0xBF {
        bytes.skip(3)
    } else {
        bytes
    }
}

/// The JSON text of a single-file output: the decoded output, trimmed.
pub open spec fn trimmed_json_spec(bytes: Seq<u8>) -> Result<Seq<char>, Seq<char>> {
    if !valid_utf8(bytes) {
        Err(crate::text::utf8_error_text(bytes))
    } else if trim_ws(decode_utf8(bytes)).len() == 0 {
        Err(no_output_message())
    } else {
        Ok(trim_ws(decode_utf8(bytes)))
    }
}

/// The JSON text of a directory-mode output: a leading byte-order mark is
/// dropped as bytes, the rest is decoded and trimmed, and any byte-order
/// mark characters that then lead are dropped.
pub open spec fn directory_json_spec(bytes: Seq<u8>) -> Result<Seq<char>, Seq<char>> {
    let b = strip_bom_bytes(bytes);
    if !valid_utf8(b) {
        Err(crate::text::utf8_error_text(b))
    } else {
        let t = strip_leading(trim_ws(decode_utf8(b)), CharClass::ByteOrderMark);
        if t.len() == 0 {
            Err(no_output_message())
        } else {
            Ok(t)
        }
    }
}

pub open spec fn result_text_view(r: Result<String, String>) -> Result<Seq<char>, Seq<char>> {
    match r {
        Ok(s) => Ok(s@),
        Err(e) => Err(e@),
    }
}

/// Decodes and trims the standard output of a single-file `difft` run.
pub fn trimmed_json_text(stdout: &[u8]) -> (r: Result<String, String>)
    ensures
        result_text_view(r) == trimmed_json_spec(stdout@),
{
    let text = match utf8_decode(stdout) {
        Ok(t) => t,
        Err(e) => return Err(e),
    };
    let trimmed = trim(text.as_str());
    if trimmed.as_str().is_empty() {
        return Err("difft produced no JSON output.".to_owned());
    }
    Ok(trimmed)
}

/// Decodes and trims the standard output of a directory-mode `difft` run,
/// dropping byte-order marks before and after decoding.
pub fn directory_json_text(stdout: &[u8]) -> (r: Result<String, String>)
    ensures
        result_text_view(r) == directory_json_spec(stdout@),
{
    let body: &[u8] = if stdout.len() >= 3 && stdout[0] == 0xEF && stdout[1] == 0xBB && stdout[2]
        == 0xBF {
        &stdout[3..stdout.len()]
    } else {
        stdout
    };
    proof {
        assert(body@ =~= strip_bom_bytes(stdout@));
    }
    let text = match utf8_decode(body) {
        Ok(t) => t,
        Err(e) => return Err(e),
    };
    let trimmed = trim(text.as_str());
    let bare = trim_start_class(trimmed.as_str(), CharClass::ByteOrderMark);
    if bare.as_str().is_empty() {
        return Err("difft produced no JSON output.".to_owned());
    }
    Ok(bare)
}

// ---------------------------------------------------------------------------
// JSON
// ---------------------------------------------------------------------------

/// A parsed JSON document (`serde_json::Value`).
#[verifier::external_type_specification]
#[verifier::external_body]
pub struct ExJsonValue(serde_json::Value);

/// Whether `serde_json::from_str` accepts `text` as a JSON document.
pub uninterp spec fn json_parses(text: Seq<char>) -> bool;

/// The document that `serde_json::from_str` makes of `text` when it accepts it.
pub uninterp spec fn json_value_of(text: Seq<char>) -> serde_json::Value;

/// The `Display` text of the error that `serde_json::from_str` reports for
/// `text` when it does not accept it.
pub uninterp spec fn json_error_message(text: Seq<char>) -> Seq<char>;

/// `serde_json::from_str` into a `serde_json::Value`, with its error taken
/// as its `Display` text. It succeeds exactly when the text parses, and then
/// gives the document the text denotes.
#[verifier::external_body]
fn json_from_str(text: &str) -> (r: Result<serde_json::Value, String>)
    ensures
        r is Ok <==> json_parses(text@),
        r matches Ok(v) ==> v == json_value_of(text@),
        r matches Err(m) ==> m@ == json_error_message(text@),
{
    match serde_json::from_str(text) {
        Ok(v) => Ok(v),
        Err(e) => Err(e.to_string()),
    }
}

pub open spec fn invalid_json_prefix() -> Seq<char> {
    "invalid JSON: "@
}

/// Parses the framed output as a JSON document: it succeeds exactly when
/// `serde_json` accepts the text, giving the document it denotes, and a
/// syntax error is reported as `invalid JSON: ` followed by the parser's
/// message.
pub fn parse_json_text(text: &str) -> (r: Result<serde_json::Value, String>)
    ensures
        r is Ok <==> json_parses(text@),
        r matches Ok(v) ==> v == json_value_of(text@),
        r matches Err(m) ==> m@ == invalid_json_prefix() + json_error_message(text@),
{
    match json_from_str(text) {
        Ok(v) => Ok(v),
        Err(e) => {
            let mut m = "invalid JSON: ".to_owned();
            m.append(e.as_str());
            Err(m)
        },
    }
}

// ---------------------------------------------------------------------------
// Entries
// ---------------------------------------------------------------------------

/// The JSON kind of a value.
#[derive(Clone, Copy, Debug, PartialEq, Eq, Structural)]
pub enum JsonKind {
    Null,
    Bool,
    Number,
    String,
    Array,
    Object,
}

/// Whether an entry carries its row texts itself (the legacy shape): its
/// `aligned_lines` is an array whose first element is an object.
/// `first_aligned_row` is the kind of that first element, `None` when the
/// field is missing, is not an array, or is empty.
pub fn uses_legacy_aligned_lines(first_aligned_row: Option<JsonKind>) -> (r: bool)
    ensures
        r == (first_aligned_row == Some(JsonKind::Object)),
{
    match first_aligned_row {
        Some(JsonKind::Object) => true,
        _ => false,
    }
}

/// One element of the JSON document, with the fields the library reads:
/// its `path` when that is a string, and the kind of the first element of
/// its `aligned_lines` when that is a non-empty array.
#[derive(Debug)]
pub struct JsonEntry {
    pub path: Option<String>,
    pub first_aligned_row: Option<JsonKind>,
    pub value: serde_json::Value,
}

/// The top-level shape of `difft`'s directory-mode document.
#[derive(Debug)]
pub enum JsonDocument {
    /// An array of entries, one per changed file.
    Array(Vec<JsonEntry>),
    /// A single object, standing for one changed file.
    Single(JsonEntry),
}

/// The entries of a document: the elements of an array, or the single value.
pub open spec fn document_entries_spec(doc: JsonDocument) -> Seq<JsonEntry> {
    match doc {
        JsonDocument::Array(a) => a@,
        JsonDocument::Single(e) => seq![e],
    }
}

/// The entries of a directory-mode document, in order.
pub fn document_entries(doc: JsonDocument) -> (r: Vec<JsonEntry>)
    ensures
        r@ == document_entries_spec(doc),
{
    match doc {
        JsonDocument::Array(a) => a,
        JsonDocument::Single(e) => {
            let mut v: Vec<JsonEntry> = Vec::new();
            v.push(e);
            proof {
                assert(v@ =~= seq![e]);
            }
            v
        },
    }
}

pub open spec fn empty_single_array_message() -> Seq<char> {
    "difft returned an empty JSON array."@
}

/// The entry a single-file run is read from: the first entry of the
/// document, or an error for an empty array.
pub fn first_document_entry(doc: JsonDocument) -> (r: Result<JsonEntry, String>)
    ensures
        match r {
            Ok(e) => document_entries_spec(doc).len() > 0 && e == document_entries_spec(doc)[0],
            Err(m) => document_entries_spec(doc).len() == 0 && m@ == empty_single_array_message(),
        },
{
    let mut v = document_entries(doc);
    if v.len() == 0 {
        return Err("difft returned an empty JSON array.".to_owned());
    }
    let e = v.remove(0);
    Ok(e)
}

/// The path of an entry relative to the compared directories: its `path`
/// string, or empty when it has none.
pub fn entry_relative_path(entry: &JsonEntry) -> (r: String)
    ensures
        r@ == match entry.path {
            Some(p) => p@,
            None => Seq::<char>::empty(),
        },
{
    match &entry.path {
        Some(p) => copy_string(p),
        None => String::new(),
    }
}

/// A directory entry after JSON parsing.
#[derive(Clone, Debug)]
pub enum ParsedEntry {
    /// The legacy shape, with the row texts inside the JSON.
    Legacy(DiffFile),
    /// The current shape, whose row texts are read from the two directories.
    Current(NewDiffFile),
}

/// The outcome of reading one copy of a file.
#[derive(Clone, Debug)]
pub enum SourceRead {
    /// The path is not a regular file.
    Missing,
    /// The file's bytes.
    Bytes(Vec<u8>),
    /// Reading failed, with this message.
    Failed(String),
}

pub enum SourceModel {
    Missing,
    Bytes(Seq<u8>),
    Failed(Seq<char>),
}

impl View for SourceRead {
    type V = SourceModel;

    open spec fn view(&self) -> SourceModel {
        match self {
            SourceRead::Missing => SourceModel::Missing,
            SourceRead::Bytes(b) => SourceModel::Bytes(b@),
            SourceRead::Failed(e) => SourceModel::Failed(e@),
        }
    }
}

/// The logical lines of one copy: none for a missing file, the lossily
/// decoded text's lines for a file that was read.
pub open spec fn source_lines_spec(s: SourceModel) -> Result<Seq<Seq<char>>, Seq<char>> {
    match s {
        SourceModel::Missing => Ok(seq![]),
        SourceModel::Bytes(b) => Ok(logical_lines(utf8_lossy_text(b))),
        SourceModel::Failed(e) => Err(e),
    }
}

pub fn source_lines(s: &SourceRead) -> (r: Result<Vec<String>, String>)
    ensures
        match r {
            Ok(v) => source_lines_spec(s@) == Ok::<Seq<Seq<char>>, Seq<char>>(strings_view(v@)),
            Err(e) => source_lines_spec(s@) == Err::<Seq<Seq<char>>, Seq<char>>(e@),
        },
{
    match s {
        SourceRead::Missing => {
            let v: Vec<String> = Vec::new();
            proof {
                assert(strings_view(v@) =~= seq![]);
            }
            Ok(v)
        },
        SourceRead::Bytes(b) => {
            let text = utf8_lossy(b.as_slice());
            Ok(split_logical_lines(text.as_str()))
        },
        SourceRead::Failed(e) => Err(copy_string(e)),
    }
}

pub enum ParsedModel {
    Legacy(FileModel),
    Current(crate::convert::NewFileModel),
}

impl View for ParsedEntry {
    type V = ParsedModel;

    open spec fn view(&self) -> ParsedModel {
        match self {
            ParsedEntry::Legacy(f) => ParsedModel::Legacy(f@),
            ParsedEntry::Current(r) => ParsedModel::Current(r@),
        }
    }
}

/// The file an entry becomes: a legacy entry with its line endings removed;
/// a current one converted with the lines of its copies in directory A and
/// B, or the first read failure (A before B).
pub open spec fn resolved_entry(p: ParsedModel, lhs: SourceModel, rhs: SourceModel) -> Result<
    FileModel,
    Seq<char>,
> {
    match p {
        ParsedModel::Legacy(f) => Ok(normalized_file(f)),
        ParsedModel::Current(raw) => match source_lines_spec(lhs) {
            Err(e) => Err(e),
            Ok(l) => match source_lines_spec(rhs) {
                Err(e) => Err(e),
                Ok(r) => Ok(converted_file(raw, l, r)),
            },
        },
    }
}

/// Finishes one parsed entry. `lhs` and `rhs` are the outcomes of reading
/// the entry's path under directory A and B; a legacy entry does not use them.
pub fn resolve_entry(parsed: ParsedEntry, lhs: &SourceRead, rhs: &SourceRead) -> (r: Result<
    DiffFile,
    String,
>)
    ensures
        match r {
            Ok(f) => resolved_entry(parsed@, lhs@, rhs@) == Ok::<FileModel, Seq<char>>(f@),
            Err(e) => resolved_entry(parsed@, lhs@, rhs@) == Err::<FileModel, Seq<char>>(e@),
        },
{
    match parsed {
        ParsedEntry::Legacy(f) => {
            let mut file = f;
            normalize_diff_file(&mut file);
            Ok(file)
        },
        ParsedEntry::Current(raw) => {
            let lhs_lines = match source_lines(lhs) {
                Ok(v) => v,
                Err(e) => return Err(e),
            };
            let rhs_lines = match source_lines(rhs) {
                Ok(v) => v,
                Err(e) => return Err(e),
            };
            Ok(convert_new_diff_json(raw, lhs_lines.as_slice(), rhs_lines.as_slice()))
        },
    }
}

// ---------------------------------------------------------------------------
// Gathering the entries
// ---------------------------------------------------------------------------

/// One entry's relative path and what became of it.
#[derive(Debug)]
pub struct EntryOutcome {
    pub relative: String,
    pub result: Result<DiffFile, String>,
}

pub struct OutcomeModel {
    pub relative: Seq<char>,
    pub result: Result<FileModel, Seq<char>>,
}

impl View for EntryOutcome {
    type V = OutcomeModel;

    open spec fn view(&self) -> OutcomeModel {
        OutcomeModel {
            relative: self.relative@,
            result: match self.result {
                Ok(f) => Ok(f@),
                Err(e) => Err(e@),
            },
        }
    }
}

pub open spec fn outcomes_view(v: Seq<EntryOutcome>) -> Seq<OutcomeModel> {
    v.map_values(|o: EntryOutcome| o@)
}

/// The files of the entries that succeeded, in order.
pub open spec fn ok_files(o: Seq<OutcomeModel>) -> Seq<FileModel>
    decreases o.len(),
{
    if o.len() == 0 {
        seq![]
    } else {
        match o.last().result {
            Ok(f) => ok_files(o.drop_last()).push(f),
            Err(_) => ok_files(o.drop_last()),
        }
    }
}

/// `relative: error` for each entry that failed, in order.
pub open spec fn warnings(o: Seq<OutcomeModel>) -> Seq<Seq<char>>
    decreases o.len(),
{
    if o.len() == 0 {
        seq![]
    } else {
        match o.last().result {
            Ok(_) => warnings(o.drop_last()),
            Err(e) => warnings(o.drop_last()).push(o.last().relative + ": "@ + e),
        }
    }
}

/// The note about skipped entries that is added to the first file.
pub open spec fn skip_note(w: Seq<Seq<char>>) -> Seq<char> {
    "Skipped "@ + decimal(w.len()) + " file(s) due to read/parse errors:\n"@ + join(w, "\n"@)
}

/// `f` with `note` appended to its non-empty extra information, or as it.
pub open spec fn with_note(f: FileModel, note: Seq<char>) -> FileModel {
    FileModel {
        extra_info: Some(
            if f.extra_info is Some && f.extra_info->0.len() > 0 {
                f.extra_info->0 + "\n"@ + note
            } else {
                note
            },
        ),
        ..f
    }
}

/// The changed-file list of a directory diff: every entry that succeeded,
/// with a note on the first about those that did not; an error when none
/// succeeded (their messages, or that the list is empty).
pub open spec fn collected(o: Seq<OutcomeModel>) -> Result<Seq<FileModel>, Seq<char>> {
    let files = ok_files(o);
    let w = warnings(o);
    if files.len() == 0 {
        if w.len() == 0 {
            Err(empty_array_message())
        } else {
            Err(join(w, "\n"@))
        }
    } else if w.len() == 0 {
        Ok(files)
    } else {
        Ok(files.update(0, with_note(files[0], skip_note(w))))
    }
}

fn warning_line(relative: &String, err: &String) -> (r: String)
    ensures
        r@ == relative@ + ": "@ + err@,
{
    let mut r = copy_string(relative);
    r.append(": ");
    r.append(err.as_str());
    r
}

fn add_note(f: DiffFile, note: &String) -> (r: DiffFile)
    ensures
        r@ == with_note(f@, note@),
{
    let info = match &f.extra_info {
        Some(existing) => {
            if !existing.as_str().is_empty() {
                let mut s = copy_string(existing);
                s.append("\n");
                s.append(note.as_str());
                s
            } else {
                copy_string(note)
            }
        },
        None => copy_string(note),
    };
    DiffFile {
        path: f.path,
        language: f.language,
        status: f.status,
        extra_info: Some(info),
        aligned_lines: f.aligned_lines,
    }
}

/// Gathers the entries of a directory diff, in order.
pub fn collect_diff_results(outcomes: Vec<EntryOutcome>) -> (r: Result<Vec<DiffFile>, String>)
    ensures
        match r {
            Ok(v) => collected(outcomes_view(outcomes@)) == Ok::<Seq<FileModel>, Seq<char>>(
                files_view(v@),
            ),
            Err(e) => collected(outcomes_view(outcomes@)) == Err::<Seq<FileModel>, Seq<char>>(e@),
        },
{
    let ghost all = outcomes_view(outcomes@);
    let n = outcomes.len();
    let mut src = outcomes;
    let mut rest: Vec<EntryOutcome> = Vec::new();
    while src.len() > 0
        invariant
            n == all.len(),
            src@.len() + rest@.len() == n,
            forall|j: int| 0 <= j < src@.len() ==> #[trigger] src@[j]@ == all[j],
            forall|j: int| 0 <= j < rest@.len() ==> #[trigger] rest@[j]@ == all[n - 1 - j],
        decreases src@.len(),
    {
        let o = src.pop().unwrap();
        rest.push(o);
    }
    let mut files: Vec<DiffFile> = Vec::new();
    let mut warns: Vec<String> = Vec::new();
    let mut i: usize = 0;
    while i < n
        invariant
            n == all.len(),
            i <= n,
            rest@.len() == n - i,
            forall|j: int| 0 <= j < n - i ==> #[trigger] rest@[j]@ == all[n - 1 - j],
            files_view(files@) == ok_files(all.take(i as int)),
            strings_view(warns@) == warnings(all.take(i as int)),
        decreases n - i,
    {
        let o = rest.pop().unwrap();
        proof {
            assert(o@ == all[i as int]);
            assert(all.take(i + 1).drop_last() =~= all.take(i as int));
            assert(all.take(i + 1).last() == all[i as int]);
        }
        match o.result {
            Ok(f) => {
                proof {
                    assert(files_view(files@.push(f)) =~= files_view(files@).push(f@));
                }
                files.push(f);
            },
            Err(e) => {
                let w = warning_line(&o.relative, &e);
                proof {
                    assert(strings_view(warns@.push(w)) =~= strings_view(warns@).push(w@));
                }
                warns.push(w);
            },
        }
        i = i + 1;
    }
    proof {
        assert(all.take(n as int) =~= all);
    }
    if files.len() == 0 {
        if warns.len() == 0 {
            return Err("difft returned an empty JSON array (no differences).".to_owned());
        }
        return Err(join_strings(&warns, "\n"));
    }
    if warns.len() == 0 {
        return Ok(files);
    }
    let mut note = "Skipped ".to_owned();
    let count = usize_to_decimal(warns.len());
    note.append(count.as_str());
    note.append(" file(s) due to read/parse errors:\n");
    let joined = join_strings(&warns, "\n");
    note.append(joined.as_str());
    let ghost before = files_view(files@);
    let first = files.remove(0);
    let first = add_note(first, &note);
    files.insert(0, first);
    proof {
        assert(files_view(files@) =~= before.update(0, with_note(before[0], note@)));
    }
    Ok(files)
}

} // verus!
