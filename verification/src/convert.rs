//! The current `difft` JSON entry shape (line-index pairs plus per-line change
//! chunks) and its conversion into a `DiffFile` whose row texts come from the
//! two copies of the file.

use vstd::prelude::*;

use crate::model::{
    copy_string, normalize_diff_file, normalized_file, opt_view, rows_view,
    spans_view, AlignedLine, DiffFile, DiffStatus, FileModel, Highlight, RowModel, SpanModel,
    TextSpan,
};
use crate::text::{normalize_line, normalized_line, strings_view};

verus! {

/// One changed span of a line in the current JSON shape.
#[derive(Clone, Debug)]
pub struct NewChange {
    pub start: u32,
    pub end: u32,
    pub content: String,
    pub highlight: Highlight,
}

/// One side of a chunk line: its 0-based line index and the changes on it.
#[derive(Clone, Debug)]
pub struct NewSide {
    pub line_number: u32,
    pub changes: Vec<NewChange>,
}

/// One line of a change chunk, with either side possibly absent.
#[derive(Clone, Debug)]
pub struct NewChunkLine {
    pub lhs: Option<NewSide>,
    pub rhs: Option<NewSide>,
}

/// A diff entry in the current JSON shape.
#[derive(Clone, Debug)]
pub struct NewDiffFile {
    pub path: String,
    pub language: String,
    pub status: DiffStatus,
    pub extra_info: Option<String>,
    pub aligned_lines: Vec<(Option<u32>, Option<u32>)>,
    pub chunks: Vec<Vec<NewChunkLine>>,
}

pub struct ChangeModel {
    pub start: u32,
    pub end: u32,
    pub content: Seq<char>,
    pub highlight: Highlight,
}

impl View for NewChange {
    type V = ChangeModel;

    open spec fn view(&self) -> ChangeModel {
        ChangeModel {
            start: self.start,
            end: self.end,
            content: self.content@,
            highlight: self.highlight,
        }
    }
}

pub open spec fn changes_view(v: Seq<NewChange>) -> Seq<ChangeModel> {
    v.map_values(|c: NewChange| c@)
}

pub struct SideModel {
    pub line_number: u32,
    pub changes: Seq<ChangeModel>,
}

impl View for NewSide {
    type V = SideModel;

    open spec fn view(&self) -> SideModel {
        SideModel { line_number: self.line_number, changes: changes_view(self.changes@) }
    }
}

pub open spec fn side_view(s: Option<NewSide>) -> Option<SideModel> {
    match s {
        Some(x) => Some(x@),
        None => None,
    }
}

pub struct ChunkLineModel {
    pub lhs: Option<SideModel>,
    pub rhs: Option<SideModel>,
}

impl View for NewChunkLine {
    type V = ChunkLineModel;

    open spec fn view(&self) -> ChunkLineModel {
        ChunkLineModel { lhs: side_view(self.lhs), rhs: side_view(self.rhs) }
    }
}

pub open spec fn chunk_view(v: Seq<NewChunkLine>) -> Seq<ChunkLineModel> {
    v.map_values(|c: NewChunkLine| c@)
}

pub open spec fn chunks_view(v: Seq<Vec<NewChunkLine>>) -> Seq<Seq<ChunkLineModel>> {
    v.map_values(|c: Vec<NewChunkLine>| chunk_view(c@))
}

pub struct NewFileModel {
    pub path: Seq<char>,
    pub language: Seq<char>,
    pub status: DiffStatus,
    pub extra_info: Option<Seq<char>>,
    pub aligned_lines: Seq<(Option<u32>, Option<u32>)>,
    pub chunks: Seq<Seq<ChunkLineModel>>,
}

impl View for NewDiffFile {
    type V = NewFileModel;

    open spec fn view(&self) -> NewFileModel {
        NewFileModel {
            path: self.path@,
            language: self.language@,
            status: self.status,
            extra_info: opt_view(self.extra_info),
            aligned_lines: self.aligned_lines@,
            chunks: chunks_view(self.chunks@),
        }
    }
}

/// A pair of 0-based line indices, left then right, either possibly absent.
pub type LinePair = (Option<u32>, Option<u32>);

// ---------------------------------------------------------------------------
// Specification of the conversion
// ---------------------------------------------------------------------------

/// The span made of a change: its content without line endings, novel.
pub open spec fn change_span(c: ChangeModel) -> SpanModel {
    SpanModel {
        start: c.start,
        end: c.end,
        content: normalized_line(c.content),
        highlight: c.highlight,
        is_novel: true,
    }
}

pub open spec fn spans_of_changes(cs: Seq<ChangeModel>) -> Seq<SpanModel> {
    cs.map_values(|c: ChangeModel| change_span(c))
}

/// The line pairs that stand in for a missing alignment: every line on both
/// sides for an unchanged file, the right side only for a created file, the
/// left side only for a deleted one, and none for a changed one. The count
/// is taken modulo 2^32, as a `u32` holds it.
pub open spec fn pairs_for_status(status: DiffStatus, lhs_len: nat, rhs_len: nat) -> Seq<LinePair> {
    match status {
        DiffStatus::Unchanged => {
            let count: nat = if lhs_len >= rhs_len {
                lhs_len
            } else {
                rhs_len
            };
            Seq::new((count as u32) as nat, |i: int| (Some(i as u32), Some(i as u32)))
        },
        DiffStatus::Created => Seq::new((rhs_len as u32) as nat, |i: int| (None, Some(i as u32))),
        DiffStatus::Deleted => Seq::new((lhs_len as u32) as nat, |i: int| (Some(i as u32), None)),
        DiffStatus::Changed => seq![],
    }
}

pub open spec fn side_line(s: Option<SideModel>) -> Option<u32> {
    match s {
        Some(x) => Some(x.line_number),
        None => None,
    }
}

/// The line pair that a chunk line describes.
pub open spec fn chunk_key(c: ChunkLineModel) -> LinePair {
    (side_line(c.lhs), side_line(c.rhs))
}

/// The last line of `lines` with key `key`.
pub open spec fn last_in_chunk(lines: Seq<ChunkLineModel>, key: LinePair) -> Option<ChunkLineModel>
    decreases lines.len(),
{
    if lines.len() == 0 {
        None
    } else if chunk_key(lines.last()) == key {
        Some(lines.last())
    } else {
        last_in_chunk(lines.drop_last(), key)
    }
}

/// The chunk line for `key`: of all chunk lines with that key, the one that
/// comes last when the chunks are read in order.
pub open spec fn find_chunk_line(chunks: Seq<Seq<ChunkLineModel>>, key: LinePair) -> Option<
    ChunkLineModel,
>
    decreases chunks.len(),
{
    if chunks.len() == 0 {
        None
    } else {
        match last_in_chunk(chunks.last(), key) {
            Some(c) => Some(c),
            None => find_chunk_line(chunks.drop_last(), key),
        }
    }
}

/// The text of line `line` of a file, or empty when there is no such line.
pub open spec fn line_text_spec(lines: Seq<Seq<char>>, line: Option<u32>) -> Seq<char> {
    match line {
        Some(n) => if n < lines.len() {
            lines[n as int]
        } else {
            seq![]
        },
        None => seq![],
    }
}

pub open spec fn side_spans(s: Option<SideModel>) -> Seq<SpanModel> {
    match s {
        Some(x) => spans_of_changes(x.changes),
        None => seq![],
    }
}

pub open spec fn side_has_changes(s: Option<SideModel>) -> bool {
    match s {
        Some(x) => x.changes.len() > 0,
        None => false,
    }
}

/// The aligned row for `pair`, before line endings are removed.
pub open spec fn built_row(
    pair: LinePair,
    chunk: Option<ChunkLineModel>,
    lhs_lines: Seq<Seq<char>>,
    rhs_lines: Seq<Seq<char>>,
) -> RowModel {
    RowModel {
        lhs_line: pair.0,
        rhs_line: pair.1,
        lhs_text: line_text_spec(lhs_lines, pair.0),
        rhs_text: line_text_spec(rhs_lines, pair.1),
        is_novel_lhs: match chunk {
            Some(c) => side_has_changes(c.lhs) || pair.1 is None,
            None => false,
        },
        is_novel_rhs: match chunk {
            Some(c) => side_has_changes(c.rhs) || pair.0 is None,
            None => false,
        },
        lhs_spans: match chunk {
            Some(c) => side_spans(c.lhs),
            None => seq![],
        },
        rhs_spans: match chunk {
            Some(c) => side_spans(c.rhs),
            None => seq![],
        },
    }
}

/// The line pairs a raw entry is displayed with.
pub open spec fn entry_pairs(raw: NewFileModel, lhs_len: nat, rhs_len: nat) -> Seq<LinePair> {
    if raw.aligned_lines.len() == 0 {
        pairs_for_status(raw.status, lhs_len, rhs_len)
    } else {
        raw.aligned_lines
    }
}

/// The file that a raw entry becomes, given the lines of its left and right
/// copies.
pub open spec fn converted_file(
    raw: NewFileModel,
    lhs_lines: Seq<Seq<char>>,
    rhs_lines: Seq<Seq<char>>,
) -> FileModel {
    normalized_file(
        FileModel {
            path: raw.path,
            language: raw.language,
            status: raw.status,
            extra_info: raw.extra_info,
            aligned_lines: entry_pairs(raw, lhs_lines.len(), rhs_lines.len()).map_values(
                |p: LinePair| built_row(p, find_chunk_line(raw.chunks, p), lhs_lines, rhs_lines),
            ),
        },
    )
}

// ---------------------------------------------------------------------------
// Implementation
// ---------------------------------------------------------------------------

/// The text of line `line` (0-based) of `lines`, or empty.
pub fn line_text(lines: &[String], line: Option<u32>) -> (r: String)
    ensures
        r@ == line_text_spec(strings_view(lines@), line),
{
    match line {
        Some(n) => {
            if (n as usize) < lines.len() {
                copy_string(&lines[n as usize])
            } else {
                String::new()
            }
        },
        None => String::new(),
    }
}

/// The spans for a side's changes.
pub fn changes_to_spans(changes: &[NewChange]) -> (r: Vec<TextSpan>)
    ensures
        spans_view(r@) == spans_of_changes(changes_view(changes@)),
{
    let mut r: Vec<TextSpan> = Vec::new();
    let mut i: usize = 0;
    while i < changes.len()
        invariant
            i <= changes@.len(),
            r@.len() == i,
            forall|j: int| 0 <= j < i ==> #[trigger] r@[j]@ == change_span(changes@[j]@),
        decreases changes@.len() - i,
    {
        let c = &changes[i];
        r.push(
            TextSpan {
                start: c.start,
                end: c.end,
                content: normalize_line(c.content.as_str()),
                highlight: c.highlight,
                is_novel: true,
            },
        );
        i = i + 1;
    }
    proof {
        assert(spans_view(r@) =~= spans_of_changes(changes_view(changes@)));
    }
    r
}

/// The pairs `0..count` (as `u32`) mapped by `side`: 0 both sides, 1 right
/// only, 2 left only.
fn index_pairs(count: u32, side: u8) -> (r: Vec<LinePair>)
    requires
        side <= 2,
    ensures
        r@.len() == count,
        forall|i: int|
            0 <= i < count ==> #[trigger] r@[i] == (if side == 0 {
                (Some(i as u32), Some(i as u32))
            } else if side == 1 {
                (None, Some(i as u32))
            } else {
                (Some(i as u32), None)
            }),
{
    let mut r: Vec<LinePair> = Vec::new();
    let mut i: u32 = 0;
    while i < count
        invariant
            i <= count,
            side <= 2,
            r@.len() == i,
            forall|j: int|
                0 <= j < i ==> #[trigger] r@[j] == (if side == 0 {
                    (Some(j as u32), Some(j as u32))
                } else if side == 1 {
                    (None, Some(j as u32))
                } else {
                    (Some(j as u32), None)
                }),
        decreases count - i,
    {
        let p: LinePair = if side == 0 {
            (Some(i), Some(i))
        } else if side == 1 {
            (None, Some(i))
        } else {
            (Some(i), None)
        };
        r.push(p);
        i = i + 1;
    }
    r
}

/// The line pairs to show when `difft` gave no alignment.
pub fn aligned_pairs_for_status(status: DiffStatus, lhs_lines: &[String], rhs_lines: &[String]) -> (r:
    Vec<LinePair>)
    ensures
        r@ == pairs_for_status(status, lhs_lines@.len(), rhs_lines@.len()),
{
    let r = match status {
        DiffStatus::Unchanged => {
            let count = if lhs_lines.len() >= rhs_lines.len() {
                lhs_lines.len()
            } else {
                rhs_lines.len()
            };
            index_pairs(count as u32, 0)
        },
        DiffStatus::Created => index_pairs(rhs_lines.len() as u32, 1),
        DiffStatus::Deleted => index_pairs(lhs_lines.len() as u32, 2),
        DiffStatus::Changed => Vec::new(),
    };
    proof {
        assert(r@ =~= pairs_for_status(status, lhs_lines@.len(), rhs_lines@.len()));
    }
    r
}

fn same_line(a: Option<u32>, b: Option<u32>) -> (r: bool)
    ensures
        r == (a == b),
{
    match (a, b) {
        (Some(x), Some(y)) => x == y,
        (None, None) => true,
        _ => false,
    }
}

fn side_line_of(s: &Option<NewSide>) -> (r: Option<u32>)
    ensures
        r == side_line(side_view(*s)),
{
    match s {
        Some(x) => Some(x.line_number),
        None => None,
    }
}

fn chunk_has_key(c: &NewChunkLine, key: LinePair) -> (r: bool)
    ensures
        r == (chunk_key(c@) == key),
{
    same_line(side_line_of(&c.lhs), key.0) && same_line(side_line_of(&c.rhs), key.1)
}

/// The chunk line for `key` (the last one with that key).
pub fn find_chunk<'a>(chunks: &'a Vec<Vec<NewChunkLine>>, key: LinePair) -> (r: Option<
    &'a NewChunkLine,
>)
    ensures
        match r {
            Some(c) => find_chunk_line(chunks_view(chunks@), key) == Some(c@),
            None => find_chunk_line(chunks_view(chunks@), key) is None,
        },
{
    let ghost all = chunks_view(chunks@);
    let mut ci = chunks.len();
    proof {
        assert(all.take(ci as int) =~= all);
    }
    while ci > 0
        invariant
            ci <= chunks@.len(),
            all == chunks_view(chunks@),
            find_chunk_line(all, key) == find_chunk_line(all.take(ci as int), key),
        decreases ci,
    {
        let chunk = &chunks[ci - 1];
        let ghost lines = chunk_view(chunk@);
        proof {
            assert(all[ci - 1] == lines);
            assert(all.take(ci as int).drop_last() =~= all.take(ci - 1));
            assert(all.take(ci as int).last() == lines);
        }
        let mut li = chunk.len();
        proof {
            assert(lines.take(li as int) =~= lines);
        }
        while li > 0
            invariant
                li <= chunk@.len(),
                0 < ci <= chunks@.len(),
                all == chunks_view(chunks@),
                all.take(ci as int).last() == lines,
                all.take(ci as int).drop_last() == all.take(ci - 1),
                find_chunk_line(all, key) == find_chunk_line(all.take(ci as int), key),
                lines == chunk_view(chunk@),
                last_in_chunk(lines, key) == last_in_chunk(lines.take(li as int), key),
            decreases li,
        {
            let line = &chunk[li - 1];
            proof {
                assert(lines.take(li as int).last() == line@);
                assert(lines.take(li as int).drop_last() =~= lines.take(li - 1));
            }
            if chunk_has_key(line, key) {
                return Some(line);
            }
            li = li - 1;
        }
        proof {
            assert(lines.take(0) =~= seq![]);
        }
        ci = ci - 1;
    }
    proof {
        assert(all.take(0) =~= seq![]);
    }
    None
}

fn side_spans_of(s: &Option<NewSide>) -> (r: Vec<TextSpan>)
    ensures
        spans_view(r@) == side_spans(side_view(*s)),
{
    match s {
        Some(x) => changes_to_spans(x.changes.as_slice()),
        None => {
            let v: Vec<TextSpan> = Vec::new();
            proof {
                assert(spans_view(v@) =~= seq![]);
            }
            v
        },
    }
}

fn side_has_changes_of(s: &Option<NewSide>) -> (r: bool)
    ensures
        r == side_has_changes(side_view(*s)),
{
    match s {
        Some(x) => x.changes.len() > 0,
        None => false,
    }
}

fn build_row(
    pair: LinePair,
    chunk: Option<&NewChunkLine>,
    lhs_lines: &[String],
    rhs_lines: &[String],
) -> (r: AlignedLine)
    ensures
        r@ == built_row(
            pair,
            match chunk {
                Some(c) => Some(c@),
                None => None,
            },
            strings_view(lhs_lines@),
            strings_view(rhs_lines@),
        ),
{
    let (lhs_line, rhs_line) = pair;
    match chunk {
        Some(c) => AlignedLine {
            lhs_line,
            rhs_line,
            lhs_text: line_text(lhs_lines, lhs_line),
            rhs_text: line_text(rhs_lines, rhs_line),
            is_novel_lhs: side_has_changes_of(&c.lhs) || rhs_line.is_none(),
            is_novel_rhs: side_has_changes_of(&c.rhs) || lhs_line.is_none(),
            lhs_spans: side_spans_of(&c.lhs),
            rhs_spans: side_spans_of(&c.rhs),
        },
        None => {
            let row = AlignedLine {
                lhs_line,
                rhs_line,
                lhs_text: line_text(lhs_lines, lhs_line),
                rhs_text: line_text(rhs_lines, rhs_line),
                is_novel_lhs: false,
                is_novel_rhs: false,
                lhs_spans: Vec::new(),
                rhs_spans: Vec::new(),
            };
            proof {
                assert(spans_view(row.lhs_spans@) =~= seq![]);
                assert(spans_view(row.rhs_spans@) =~= seq![]);
            }
            row
        },
    }
}

fn copy_pairs(v: &Vec<LinePair>) -> (r: Vec<LinePair>)
    ensures
        r@ == v@,
{
    let mut r: Vec<LinePair> = Vec::new();
    let mut i: usize = 0;
    while i < v.len()
        invariant
            i <= v@.len(),
            r@ == v@.take(i as int),
        decreases v@.len() - i,
    {
        r.push(v[i]);
        proof {
            assert(v@.take(i + 1) =~= v@.take(i as int).push(v@[i as int]));
        }
        i = i + 1;
    }
    proof {
        assert(v@.take(v@.len() as int) =~= v@);
    }
    r
}

/// Turns a raw entry into a `DiffFile`, taking row texts from `lhs_lines` and
/// `rhs_lines` (the logical lines of the file in directory A and B).
pub fn convert_new_diff_json(raw: NewDiffFile, lhs_lines: &[String], rhs_lines: &[String]) -> (r:
    DiffFile)
    ensures
        r@ == converted_file(raw@, strings_view(lhs_lines@), strings_view(rhs_lines@)),
{
    let ghost lv = strings_view(lhs_lines@);
    let ghost rv = strings_view(rhs_lines@);
    let pairs = if raw.aligned_lines.len() == 0 {
        aligned_pairs_for_status(raw.status, lhs_lines, rhs_lines)
    } else {
        copy_pairs(&raw.aligned_lines)
    };
    proof {
        assert(lv.len() == lhs_lines@.len());
        assert(rv.len() == rhs_lines@.len());
        assert(pairs@ == entry_pairs(raw@, lv.len(), rv.len()));
    }
    let mut rows: Vec<AlignedLine> = Vec::new();
    let mut i: usize = 0;
    while i < pairs.len()
        invariant
            i <= pairs@.len(),
            lv == strings_view(lhs_lines@),
            rv == strings_view(rhs_lines@),
            rows@.len() == i,
            forall|j: int|
                0 <= j < i ==> #[trigger] rows@[j]@ == built_row(
                    pairs@[j],
                    find_chunk_line(raw@.chunks, pairs@[j]),
                    lv,
                    rv,
                ),
        decreases pairs@.len() - i,
    {
        let pair = pairs[i];
        let chunk = find_chunk(&raw.chunks, pair);
        let row = build_row(pair, chunk, lhs_lines, rhs_lines);
        rows.push(row);
        i = i + 1;
    }
    let mut file = DiffFile {
        path: raw.path,
        language: raw.language,
        status: raw.status,
        extra_info: raw.extra_info,
        aligned_lines: rows,
    };
    proof {
        assert(rows_view(file.aligned_lines@) =~= pairs@.map_values(
            |p: LinePair| built_row(p, find_chunk_line(raw@.chunks, p), lv, rv),
        ));
    }
    normalize_diff_file(&mut file);
    file
}

} // verus!
