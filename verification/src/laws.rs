//! Properties of the library that span its functions or hold of all inputs.

use vstd::prelude::*;

use crate::cli::parsed_cli;
use crate::convert::{
    built_row, chunk_key, converted_file, entry_pairs, find_chunk_line, last_in_chunk,
    line_text_spec, ChangeModel, ChunkLineModel, LinePair, NewFileModel, SideModel,
};
use crate::model::{
    display_spec, file_extension_of, file_rows, filtered_files, is_text_file_spec, keeps_file,
    matches_extensions_spec, normalized_extension, normalized_file, normalized_row,
    normalized_rows, normalized_span, normalized_spans, status_label_spec, DiffStatus, FileModel,
    RowModel, SpanModel,
};
use crate::results::{
    collected, directory_json_spec, document_entries_spec, ok_files, strip_bom_bytes, warnings,
    JsonDocument, JsonEntry, OutcomeModel,
};
use crate::text::{
    ascii_lower, ascii_lower_char, ascii_upper, ascii_upper_char, break_len, in_class, is_line_break, is_white_space,
    lemma_next_break_bounds, lines_from, logical_lines, next_break, normalized_line,
    strip_leading, strip_trailing, trim_ws, CharClass,
};

verus! {

// ---------------------------------------------------------------------------
// Extensions
// ---------------------------------------------------------------------------

proof fn lemma_lower_class(c: char, k: CharClass)
    requires
        k == CharClass::WhiteSpace || k == CharClass::Dot,
    ensures
        in_class(ascii_lower_char(c), k) == in_class(c, k),
{
}

proof fn lemma_strip_leading_lower(s: Seq<char>, k: CharClass)
    requires
        k == CharClass::WhiteSpace || k == CharClass::Dot,
    ensures
        strip_leading(ascii_lower(s), k) == ascii_lower(strip_leading(s, k)),
    decreases s.len(),
{
    if s.len() > 0 {
        lemma_lower_class(s[0], k);
        assert(ascii_lower(s)[0] == ascii_lower_char(s[0]));
        assert(ascii_lower(s).drop_first() =~= ascii_lower(s.drop_first()));
        lemma_strip_leading_lower(s.drop_first(), k);
    }
}

proof fn lemma_strip_trailing_lower(s: Seq<char>, k: CharClass)
    requires
        k == CharClass::WhiteSpace || k == CharClass::Dot,
    ensures
        strip_trailing(ascii_lower(s), k) == ascii_lower(strip_trailing(s, k)),
    decreases s.len(),
{
    if s.len() > 0 {
        lemma_lower_class(s.last(), k);
        assert(ascii_lower(s).last() == ascii_lower_char(s.last()));
        assert(ascii_lower(s).drop_last() =~= ascii_lower(s.drop_last()));
        lemma_strip_trailing_lower(s.drop_last(), k);
    }
}

proof fn lemma_lower_idempotent(s: Seq<char>)
    ensures
        ascii_lower(ascii_lower(s)) == ascii_lower(s),
{
    assert(ascii_lower(ascii_lower(s)) =~= ascii_lower(s));
}

proof fn lemma_strip_leading_len(s: Seq<char>, k: CharClass)
    ensures
        strip_leading(s, k).len() <= s.len(),
        strip_leading(s, k).len() == s.len() ==> strip_leading(s, k) == s,
    decreases s.len(),
{
    if s.len() > 0 && in_class(s[0], k) {
        lemma_strip_leading_len(s.drop_first(), k);
    }
}

proof fn lemma_strip_trailing_len(s: Seq<char>, k: CharClass)
    ensures
        strip_trailing(s, k).len() <= s.len(),
        strip_trailing(s, k).len() == s.len() ==> strip_trailing(s, k) == s,
    decreases s.len(),
{
    if s.len() > 0 && in_class(s.last(), k) {
        lemma_strip_trailing_len(s.drop_last(), k);
    }
}

proof fn lemma_strip_trailing_keeps_first(s: Seq<char>, k: CharClass)
    requires
        s.len() > 0,
        !in_class(s[0], k),
    ensures
        strip_trailing(s, k).len() > 0,
        strip_trailing(s, k)[0] == s[0],
    decreases s.len(),
{
    if s.len() > 1 && in_class(s.last(), k) {
        lemma_strip_trailing_keeps_first(s.drop_last(), k);
    }
}

/// The spellings `cpp`, `.cpp` and `CPP` of an extension are equivalent: for
/// an extension without surrounding white space, a leading dot and the ASCII
/// case make no difference to its normalized form.
pub proof fn law_extension_spellings_equivalent(ext: Seq<char>)
    requires
        trim_ws(ext) == ext,
    ensures
        normalized_extension(seq!['.'] + ext) == normalized_extension(ext),
        normalized_extension(ascii_lower(ext)) == normalized_extension(ext),
{
    let d = seq!['.'] + ext;
    let ws = CharClass::WhiteSpace;
    // A leading dot: trimming leaves `d` as it is.
    assert(strip_leading(d, ws) == d);
    if ext.len() == 0 {
        assert(d =~= seq!['.']);
        assert(strip_trailing(d, ws) == d);
    } else {
        // `ext` ends in a character that is not white space.
        lemma_strip_trailing_len(ext, ws);
        assert(!is_white_space(ext.last())) by {
            lemma_strip_leading_len(ext, ws);
            if is_white_space(ext.last()) {
                let t = strip_leading(ext, ws);
                lemma_strip_trailing_len(t, ws);
                assert(strip_trailing(t, ws).len() <= t.len());
                if t.len() == ext.len() {
                    assert(t == ext);
                    assert(strip_trailing(ext, ws) == strip_trailing(ext.drop_last(), ws));
                    lemma_strip_trailing_len(ext.drop_last(), ws);
                }
            }
        }
        assert(d.last() == ext.last());
        assert(strip_trailing(d, ws) == d);
    }
    assert(trim_ws(d) == d);
    assert(d.drop_first() =~= ext);
    assert(strip_leading(d, CharClass::Dot) == strip_leading(ext, CharClass::Dot));
    // ASCII case.
    lemma_strip_leading_lower(ext, ws);
    lemma_strip_trailing_lower(strip_leading(ext, ws), ws);
    assert(trim_ws(ascii_lower(ext)) == ascii_lower(trim_ws(ext)));
    lemma_strip_leading_lower(ext, CharClass::Dot);
    let t = strip_leading(ext, CharClass::Dot);
    lemma_lower_idempotent(t);
    assert(ascii_lower(t).len() == t.len());
}

proof fn lemma_upper_char(c: char)
    ensures
        in_class(ascii_upper_char(c), CharClass::WhiteSpace) == in_class(c, CharClass::WhiteSpace),
        in_class(ascii_upper_char(c), CharClass::Dot) == in_class(c, CharClass::Dot),
        ascii_lower_char(ascii_upper_char(c)) == ascii_lower_char(c),
{
    if 'a' <= c && c <= 'z' {
        let u = ascii_upper_char(c);
        assert(u as u32 == (c as u32) - 32);
        assert('A' <= u && u <= 'Z');
        assert(ascii_lower_char(u) as u32 == c as u32);
    }
}

proof fn lemma_strip_leading_upper(s: Seq<char>, k: CharClass)
    requires
        k == CharClass::WhiteSpace || k == CharClass::Dot,
    ensures
        strip_leading(ascii_upper(s), k) == ascii_upper(strip_leading(s, k)),
    decreases s.len(),
{
    if s.len() > 0 {
        lemma_upper_char(s[0]);
        assert(ascii_upper(s)[0] == ascii_upper_char(s[0]));
        assert(ascii_upper(s).drop_first() =~= ascii_upper(s.drop_first()));
        lemma_strip_leading_upper(s.drop_first(), k);
    }
}

proof fn lemma_strip_trailing_upper(s: Seq<char>, k: CharClass)
    requires
        k == CharClass::WhiteSpace || k == CharClass::Dot,
    ensures
        strip_trailing(ascii_upper(s), k) == ascii_upper(strip_trailing(s, k)),
    decreases s.len(),
{
    if s.len() > 0 {
        lemma_upper_char(s.last());
        assert(ascii_upper(s).last() == ascii_upper_char(s.last()));
        assert(ascii_upper(s).drop_last() =~= ascii_upper(s.drop_last()));
        lemma_strip_trailing_upper(s.drop_last(), k);
    }
}

proof fn lemma_lower_of_upper(s: Seq<char>)
    ensures
        ascii_lower(ascii_upper(s)) == ascii_lower(s),
{
    assert forall|i: int| 0 <= i < s.len() implies #[trigger] ascii_lower(ascii_upper(s))[i]
        == ascii_lower(s)[i] by {
        lemma_upper_char(s[i]);
    }
    assert(ascii_lower(ascii_upper(s)) =~= ascii_lower(s));
}

proof fn lemma_strip_leading_first(s: Seq<char>, k: CharClass)
    ensures
        strip_leading(s, k).len() > 0 ==> !in_class(strip_leading(s, k)[0], k),
    decreases s.len(),
{
    if s.len() > 0 && in_class(s[0], k) {
        lemma_strip_leading_first(s.drop_first(), k);
    }
}

proof fn lemma_strip_trailing_last(s: Seq<char>, k: CharClass)
    ensures
        strip_trailing(s, k).len() > 0 ==> !in_class(strip_trailing(s, k).last(), k),
    decreases s.len(),
{
    if s.len() > 0 && in_class(s.last(), k) {
        lemma_strip_trailing_last(s.drop_last(), k);
    }
}

proof fn lemma_trim_idempotent(s: Seq<char>)
    ensures
        trim_ws(trim_ws(s)) == trim_ws(s),
{
    let ws = CharClass::WhiteSpace;
    let u = strip_leading(s, ws);
    let t = strip_trailing(u, ws);
    lemma_strip_leading_first(s, ws);
    lemma_strip_trailing_last(u, ws);
    if t.len() > 0 {
        lemma_strip_trailing_len(u, ws);
        lemma_strip_trailing_keeps_first(u, ws);
        assert(strip_leading(t, ws) == t);
        assert(strip_trailing(t, ws) == t);
    } else {
        assert(strip_leading(t, ws) == t);
        assert(strip_trailing(t, ws) == t);
    }
}

/// Normalizing a command-line extension ignores ASCII case, surrounding
/// white space and leading dots: the upper-case spelling and the spelling
/// with one more leading dot normalize alike; it gives nothing exactly when
/// nothing is left after trimming and dropping leading dots; and what it
/// gives is non-empty, lower-case, and does not start with a dot.
pub proof fn law_extension_normalization(ext: Seq<char>)
    ensures
        normalized_extension(ascii_upper(ext)) == normalized_extension(ext),
        normalized_extension(seq!['.'] + trim_ws(ext)) == normalized_extension(ext),
        normalized_extension(ext) is None <==> strip_leading(trim_ws(ext), CharClass::Dot).len()
            == 0,
        normalized_extension(ext) matches Some(s) ==> s.len() > 0 && s[0] != '.' && ascii_lower(s)
            == s,
{
    let ws = CharClass::WhiteSpace;
    let dot = CharClass::Dot;
    // Upper case.
    lemma_strip_leading_upper(ext, ws);
    lemma_strip_trailing_upper(strip_leading(ext, ws), ws);
    assert(trim_ws(ascii_upper(ext)) == ascii_upper(trim_ws(ext)));
    let t = trim_ws(ext);
    lemma_strip_leading_upper(t, dot);
    let d = strip_leading(t, dot);
    assert(ascii_upper(d).len() == d.len());
    lemma_lower_of_upper(d);
    // One more leading dot.
    lemma_trim_idempotent(ext);
    law_extension_spellings_equivalent(t);
    // Shape of the result.
    lemma_strip_leading_first(t, dot);
    if d.len() > 0 {
        lemma_lower_class(d[0], dot);
        lemma_lower_idempotent(d);
        assert(ascii_lower(d)[0] == ascii_lower_char(d[0]));
    }
}

// ---------------------------------------------------------------------------
// Filtering
// ---------------------------------------------------------------------------

/// The changed-files list holds only text diffs, and when extensions are
/// given, only paths with one of them.
pub proof fn law_filter_keeps_only_matching(files: Seq<FileModel>, extensions: Seq<Seq<char>>)
    ensures
        forall|i: int|
            0 <= i < filtered_files(files, extensions).len() ==> {
                &&& is_text_file_spec(#[trigger] filtered_files(files, extensions)[i])
                &&& (extensions.len() > 0 ==> matches_extensions_spec(
                    filtered_files(files, extensions)[i].path,
                    extensions,
                ))
            },
        filtered_files(files, extensions).len() <= files.len(),
{
    broadcast use vstd::seq_lib::group_filter_ensures;

    assert forall|i: int| 0 <= i < filtered_files(files, extensions).len() implies {
        &&& is_text_file_spec(#[trigger] filtered_files(files, extensions)[i])
        &&& (extensions.len() > 0 ==> matches_extensions_spec(
            filtered_files(files, extensions)[i].path,
            extensions,
        ))
    } by {
        let pred = |f: FileModel| keeps_file(f, extensions);
        files.lemma_filter_pred(pred, i);
    }
}

proof fn lemma_filter_twice(files: Seq<FileModel>, extensions: Seq<Seq<char>>)
    ensures
        filtered_files(filtered_files(files, extensions), extensions) == filtered_files(
            files,
            extensions,
        ),
    decreases files.len(),
{
    reveal_with_fuel(Seq::<FileModel>::filter, 1);
    let pred = |f: FileModel| keeps_file(f, extensions);
    if files.len() > 0 {
        lemma_filter_twice(files.drop_last(), extensions);
        let sub = files.drop_last().filter(pred);
        if pred(files.last()) {
            let out = sub.push(files.last());
            assert(out.drop_last() =~= sub);
            assert(out.last() == files.last());
        }
    }
}

/// Filtering the changed-files list a second time with the same extensions
/// changes nothing.
pub proof fn law_filter_idempotent(files: Seq<FileModel>, extensions: Seq<Seq<char>>)
    ensures
        filtered_files(filtered_files(files, extensions), extensions) == filtered_files(
            files,
            extensions,
        ),
{
    lemma_filter_twice(files, extensions);
}

/// A text file whose path has no extension (such as `Makefile`) is listed
/// when no extension is given, and left out whenever one is.
pub proof fn law_extensionless_paths(f: FileModel, extensions: Seq<Seq<char>>)
    requires
        is_text_file_spec(f),
        file_extension_of(f.path) is None,
    ensures
        keeps_file(f, seq![]),
        extensions.len() > 0 ==> !keeps_file(f, extensions),
{
}

/// Binary entries never reach the changed-files list.
pub proof fn law_binary_files_dropped(f: FileModel, extensions: Seq<Seq<char>>)
    requires
        ascii_lower(f.language) == ascii_lower("Binary"@),
    ensures
        !keeps_file(f, extensions),
{
}

// ---------------------------------------------------------------------------
// Line endings and lines
// ---------------------------------------------------------------------------

proof fn lemma_normalized_line_idempotent(s: Seq<char>)
    ensures
        normalized_line(normalized_line(s)) == normalized_line(s),
    decreases s.len(),
{
    if s.len() > 0 && in_class(s.last(), CharClass::LineEnd) {
        lemma_normalized_line_idempotent(s.drop_last());
    }
}

proof fn lemma_normalized_spans_idempotent(v: Seq<SpanModel>)
    ensures
        normalized_spans(normalized_spans(v)) == normalized_spans(v),
{
    assert forall|i: int| 0 <= i < v.len() implies #[trigger] normalized_span(normalized_span(v[i]))
        == normalized_span(v[i]) by {
        lemma_normalized_line_idempotent(v[i].content);
    }
    assert(normalized_spans(normalized_spans(v)) =~= normalized_spans(v));
}

/// Removing line endings from a file a second time changes nothing.
pub proof fn law_normalize_idempotent(f: FileModel)
    ensures
        normalized_file(normalized_file(f)) == normalized_file(f),
{
    let rows = f.aligned_lines;
    assert forall|i: int| 0 <= i < rows.len() implies #[trigger] normalized_row(
        normalized_row(rows[i]),
    ) == normalized_row(rows[i]) by {
        lemma_normalized_line_idempotent(rows[i].lhs_text);
        lemma_normalized_line_idempotent(rows[i].rhs_text);
        lemma_normalized_spans_idempotent(rows[i].lhs_spans);
        lemma_normalized_spans_idempotent(rows[i].rhs_spans);
    }
    assert(normalized_rows(normalized_rows(rows)) =~= normalized_rows(rows));
}

proof fn lemma_next_break_push(s: Seq<char>, i: int)
    requires
        0 <= i <= s.len(),
    ensures
        next_break(s.push('\n'), i) == next_break(s, i),
    decreases s.len() - i,
{
    let t = s.push('\n');
    if i < s.len() {
        assert(t[i] == s[i]);
        if !is_line_break(s[i]) {
            lemma_next_break_push(s, i + 1);
        }
    } else {
        assert(t[i] == '\n');
    }
}

proof fn lemma_lines_push(s: Seq<char>, start: int)
    requires
        s.len() > 0,
        !is_line_break(s.last()),
        0 <= start < s.len(),
    ensures
        lines_from(s.push('\n'), start) == lines_from(s, start),
    decreases s.len() - start,
{
    let t = s.push('\n');
    lemma_next_break_push(s, start);
    lemma_next_break_bounds(s, start);
    let j = next_break(s, start);
    if j >= s.len() {
        assert(j == s.len());
        assert(t.subrange(start, j) =~= s.subrange(start, s.len() as int));
        assert(break_len(t, j) == 1);
        assert(lines_from(t, j + 1) == Seq::<Seq<char>>::empty());
        assert(lines_from(t, start) =~= seq![s.subrange(start, s.len() as int)]);
    } else {
        assert(j < s.len() - 1);
        assert(t[j] == s[j]);
        assert(t[j + 1] == s[j + 1]);
        assert(break_len(t, j) == break_len(s, j));
        assert(t.subrange(start, j) =~= s.subrange(start, j));
        let next = j + break_len(s, j);
        if next < s.len() {
            lemma_lines_push(s, next);
        } else {
            assert(next == s.len());
            assert(!is_line_break(s[next - 1]));
            assert(false);
        }
    }
}

proof fn lemma_next_break_clear(s: Seq<char>, i: int, k: int)
    requires
        0 <= i <= k < next_break(s, i),
    ensures
        !is_line_break(s[k]),
    decreases s.len() - i,
{
    if i < k {
        lemma_next_break_clear(s, i + 1, k);
    }
}

proof fn lemma_lines_from_clear(s: Seq<char>, start: int)
    requires
        0 <= start,
    ensures
        forall|n: int, k: int|
            0 <= n < lines_from(s, start).len() && 0 <= k < lines_from(s, start)[n].len()
                ==> !is_line_break(#[trigger] lines_from(s, start)[n][k]),
    decreases s.len() - start,
{
    if start < s.len() {
        lemma_next_break_bounds(s, start);
        let j = next_break(s, start);
        let ls = lines_from(s, start);
        if j < s.len() {
            lemma_lines_from_clear(s, j + break_len(s, j));
        }
        assert forall|n: int, k: int|
            0 <= n < ls.len() && 0 <= k < ls[n].len() implies !is_line_break(#[trigger] ls[n][k]) by {
            if n == 0 {
                assert(ls[0] == s.subrange(start, j));
                lemma_next_break_clear(s, start, start + k);
            } else {
                assert(ls[n] == lines_from(s, j + break_len(s, j))[n - 1]);
            }
        }
    }
}

/// No logical line holds a line break, so removing line endings leaves each
/// one as it is.
pub proof fn law_lines_have_no_breaks(s: Seq<char>)
    ensures
        forall|n: int, k: int|
            0 <= n < logical_lines(s).len() && 0 <= k < logical_lines(s)[n].len()
                ==> !is_line_break(#[trigger] logical_lines(s)[n][k]),
        forall|n: int|
            0 <= n < logical_lines(s).len() ==> normalized_line(#[trigger] logical_lines(s)[n])
                == logical_lines(s)[n],
{
    lemma_lines_from_clear(s, 0);
    assert forall|n: int| 0 <= n < logical_lines(s).len() implies normalized_line(
        #[trigger] logical_lines(s)[n],
    ) == logical_lines(s)[n] by {
        let l = logical_lines(s)[n];
        if l.len() > 0 {
            assert(!is_line_break(l[l.len() - 1]));
        }
    }
}

/// A final line break does not add an empty last line: appending `'\n'` to a
/// non-empty text that does not end a line leaves its lines unchanged.
pub proof fn law_final_line_break(s: Seq<char>)
    requires
        s.len() > 0,
        !is_line_break(s.last()),
    ensures
        logical_lines(s.push('\n')) == logical_lines(s),
{
    lemma_lines_push(s, 0);
}

// ---------------------------------------------------------------------------
// Rows
// ---------------------------------------------------------------------------

/// A deleted file without aligned rows is shown from its copy in directory
/// A: one row per line, numbered from 0, novel on the left and empty on the
/// right (a created file mirrors this on the right).
pub proof fn law_deleted_file_rows(f: FileModel, text: Seq<char>)
    requires
        f.aligned_lines.len() == 0,
        f.status == DiffStatus::Deleted,
    ensures
        display_spec(f, Ok(text)) == Ok::<Seq<RowModel>, Seq<char>>(
            file_rows(text, DiffStatus::Deleted),
        ),
        file_rows(text, DiffStatus::Deleted).len() == logical_lines(text).len(),
        forall|i: int|
            0 <= i < logical_lines(text).len() ==> {
                let r = #[trigger] file_rows(text, DiffStatus::Deleted)[i];
                &&& r.lhs_text == logical_lines(text)[i]
                &&& r.lhs_line == Some(i as u32)
                &&& r.rhs_line is None
                &&& r.rhs_text.len() == 0
                &&& r.is_novel_lhs
                &&& !r.is_novel_rhs
            },
{
}

/// A converted entry has one row per line pair, each with the text of that
/// line of its copies (without line endings); a pair that no chunk mentions
/// is neither novel nor highlighted.
pub proof fn law_converted_rows(raw: NewFileModel, lhs: Seq<Seq<char>>, rhs: Seq<Seq<char>>)
    ensures
        ({
            let f = converted_file(raw, lhs, rhs);
            let pairs = entry_pairs(raw, lhs.len(), rhs.len());
            &&& f.aligned_lines.len() == pairs.len()
            &&& forall|i: int|
                0 <= i < pairs.len() ==> {
                    let row = #[trigger] f.aligned_lines[i];
                    &&& row.lhs_line == pairs[i].0
                    &&& row.rhs_line == pairs[i].1
                    &&& row.lhs_text == normalized_line(line_text_spec(lhs, pairs[i].0))
                    &&& row.rhs_text == normalized_line(line_text_spec(rhs, pairs[i].1))
                    &&& (find_chunk_line(raw.chunks, pairs[i]) is None ==> !row.is_novel_lhs
                        && !row.is_novel_rhs && row.lhs_spans.len() == 0 && row.rhs_spans.len()
                        == 0)
                }
        }),
{
    let pairs = entry_pairs(raw, lhs.len(), rhs.len());
    let f = converted_file(raw, lhs, rhs);
    assert forall|i: int| 0 <= i < pairs.len() implies {
        let row = #[trigger] f.aligned_lines[i];
        &&& row.lhs_line == pairs[i].0
        &&& row.rhs_line == pairs[i].1
        &&& row.lhs_text == normalized_line(line_text_spec(lhs, pairs[i].0))
        &&& row.rhs_text == normalized_line(line_text_spec(rhs, pairs[i].1))
        &&& (find_chunk_line(raw.chunks, pairs[i]) is None ==> !row.is_novel_lhs
            && !row.is_novel_rhs && row.lhs_spans.len() == 0 && row.rhs_spans.len() == 0)
    } by {
        let b = built_row(pairs[i], find_chunk_line(raw.chunks, pairs[i]), lhs, rhs);
        assert(f.aligned_lines[i] == normalized_row(b));
    }
}

/// The line index a chunk side stands for.
pub open spec fn side_index(s: Option<SideModel>) -> Option<u32> {
    match s {
        Some(x) => Some(x.line_number),
        None => None,
    }
}

/// The changes a chunk side lists (none for an absent side).
pub open spec fn side_changes(s: Option<SideModel>) -> Seq<ChangeModel> {
    match s {
        Some(x) => x.changes,
        None => seq![],
    }
}

proof fn lemma_last_in_chunk(lines: Seq<ChunkLineModel>, key: LinePair)
    ensures
        last_in_chunk(lines, key) matches Some(c) ==> side_index(c.lhs) == key.0 && side_index(
            c.rhs,
        ) == key.1 && lines.contains(c),
        last_in_chunk(lines, key) is None ==> forall|j: int|
            0 <= j < lines.len() ==> !(side_index((#[trigger] lines[j]).lhs) == key.0 && side_index(
                lines[j].rhs,
            ) == key.1),
    decreases lines.len(),
{
    if lines.len() > 0 {
        lemma_last_in_chunk(lines.drop_last(), key);
        if chunk_key(lines.last()) == key {
            assert(lines[lines.len() - 1] == lines.last());
        } else {
            match last_in_chunk(lines.drop_last(), key) {
                Some(c) => {
                    let j = choose|j: int| 0 <= j < lines.drop_last().len() && lines.drop_last()[j] == c;
                    assert(lines[j] == c);
                },
                None => {
                    assert forall|j: int| 0 <= j < lines.len() implies !(side_index(
                        (#[trigger] lines[j]).lhs,
                    ) == key.0 && side_index(lines[j].rhs) == key.1) by {
                        if j < lines.len() - 1 {
                            assert(lines[j] == lines.drop_last()[j]);
                        }
                    }
                },
            }
        }
    }
}

/// The chunk line that a line pair is shown with is a line of one of the
/// chunks whose two sides stand for exactly that pair; there is none only
/// when no chunk line stands for the pair.
pub proof fn law_chunk_line_lookup(chunks: Seq<Seq<ChunkLineModel>>, key: LinePair)
    ensures
        find_chunk_line(chunks, key) matches Some(c) ==> {
            &&& side_index(c.lhs) == key.0
            &&& side_index(c.rhs) == key.1
            &&& exists|ci: int, li: int|
                0 <= ci < chunks.len() && 0 <= li < chunks[ci].len() && #[trigger] chunks[ci][li]
                    == c
        },
        find_chunk_line(chunks, key) is None ==> forall|ci: int, li: int|
            0 <= ci < chunks.len() && 0 <= li < chunks[ci].len() ==> !(side_index(
                (#[trigger] chunks[ci][li]).lhs,
            ) == key.0 && side_index(chunks[ci][li].rhs) == key.1),
    decreases chunks.len(),
{
    if chunks.len() > 0 {
        let last = chunks.last();
        lemma_last_in_chunk(last, key);
        law_chunk_line_lookup(chunks.drop_last(), key);
        assert(chunks[chunks.len() - 1] == last);
        match last_in_chunk(last, key) {
            Some(c) => {
                let li = choose|li: int| 0 <= li < last.len() && last[li] == c;
                assert(chunks[chunks.len() - 1][li] == c);
            },
            None => {
                match find_chunk_line(chunks.drop_last(), key) {
                    Some(c) => {
                        let (ci, li) = choose|ci: int, li: int|
                            0 <= ci < chunks.drop_last().len() && 0 <= li < chunks.drop_last()[ci].len()
                                && #[trigger] chunks.drop_last()[ci][li] == c;
                        assert(chunks[ci][li] == c);
                    },
                    None => {
                        assert forall|ci: int, li: int|
                            0 <= ci < chunks.len() && 0 <= li < chunks[ci].len() implies !(side_index(
                            (#[trigger] chunks[ci][li]).lhs,
                        ) == key.0 && side_index(chunks[ci][li].rhs) == key.1) by {
                            if ci < chunks.len() - 1 {
                                assert(chunks[ci] == chunks.drop_last()[ci]);
                            } else {
                                assert(chunks[ci] == last);
                            }
                        }
                    },
                }
            },
        }
    }
}

/// Each side of a converted row is novel exactly when the chunk line of its
/// pair lists a change on that side, or the pair has no line on the other
/// side; a side's changes play no part in the other side's novelty. A pair
/// without a chunk line is novel on neither side.
pub proof fn law_converted_novelty(raw: NewFileModel, lhs: Seq<Seq<char>>, rhs: Seq<Seq<char>>, i: int)
    requires
        0 <= i < entry_pairs(raw, lhs.len(), rhs.len()).len(),
    ensures
        ({
            let pair = entry_pairs(raw, lhs.len(), rhs.len())[i];
            let row = converted_file(raw, lhs, rhs).aligned_lines[i];
            match find_chunk_line(raw.chunks, pair) {
                Some(c) => {
                    &&& row.is_novel_lhs == (side_changes(c.lhs).len() > 0 || pair.1 is None)
                    &&& row.is_novel_rhs == (side_changes(c.rhs).len() > 0 || pair.0 is None)
                },
                None => !row.is_novel_lhs && !row.is_novel_rhs,
            }
        }),
{
    let pairs = entry_pairs(raw, lhs.len(), rhs.len());
    let f = converted_file(raw, lhs, rhs);
    let b = built_row(pairs[i], find_chunk_line(raw.chunks, pairs[i]), lhs, rhs);
    assert(f.aligned_lines[i] == normalized_row(b));
}

/// Whether `spans` are exactly the highlights of `changes`, in order: same
/// offsets and class, novel, with the line endings removed from the text.
pub open spec fn spans_mark_changes(spans: Seq<SpanModel>, changes: Seq<ChangeModel>) -> bool {
    &&& spans.len() == changes.len()
    &&& forall|k: int|
        0 <= k < spans.len() ==> {
            let s = #[trigger] spans[k];
            &&& s.start == changes[k].start
            &&& s.end == changes[k].end
            &&& s.highlight == changes[k].highlight
            &&& s.is_novel
            &&& s.content == normalized_line(changes[k].content)
        }
}

proof fn lemma_converted_side_spans(spans: Seq<SpanModel>, changes: Seq<ChangeModel>)
    requires
        spans == normalized_spans(crate::convert::spans_of_changes(changes)),
    ensures
        spans_mark_changes(spans, changes),
{
    assert forall|k: int| 0 <= k < spans.len() implies {
        let s = #[trigger] spans[k];
        &&& s.start == changes[k].start
        &&& s.end == changes[k].end
        &&& s.highlight == changes[k].highlight
        &&& s.is_novel
        &&& s.content == normalized_line(changes[k].content)
    } by {
        lemma_normalized_line_idempotent(changes[k].content);
    }
}

/// The highlights of each side of a converted row are the changes that the
/// pair's chunk line lists for that same side, in order (none when the side
/// is absent, or when no chunk line stands for the pair).
pub proof fn law_converted_spans(raw: NewFileModel, lhs: Seq<Seq<char>>, rhs: Seq<Seq<char>>, i: int)
    requires
        0 <= i < entry_pairs(raw, lhs.len(), rhs.len()).len(),
    ensures
        ({
            let pair = entry_pairs(raw, lhs.len(), rhs.len())[i];
            let row = converted_file(raw, lhs, rhs).aligned_lines[i];
            match find_chunk_line(raw.chunks, pair) {
                Some(c) => {
                    &&& spans_mark_changes(row.lhs_spans, side_changes(c.lhs))
                    &&& spans_mark_changes(row.rhs_spans, side_changes(c.rhs))
                },
                None => row.lhs_spans.len() == 0 && row.rhs_spans.len() == 0,
            }
        }),
{
    let pairs = entry_pairs(raw, lhs.len(), rhs.len());
    let f = converted_file(raw, lhs, rhs);
    let chunk = find_chunk_line(raw.chunks, pairs[i]);
    let b = built_row(pairs[i], chunk, lhs, rhs);
    assert(f.aligned_lines[i] == normalized_row(b));
    if let Some(c) = chunk {
        assert(crate::convert::side_spans(c.lhs) == crate::convert::spans_of_changes(
            side_changes(c.lhs),
        ));
        assert(crate::convert::side_spans(c.rhs) == crate::convert::spans_of_changes(
            side_changes(c.rhs),
        ));
        lemma_converted_side_spans(f.aligned_lines[i].lhs_spans, side_changes(c.lhs));
        lemma_converted_side_spans(f.aligned_lines[i].rhs_spans, side_changes(c.rhs));
    }
}

/// A file that carries aligned rows is shown with exactly those rows, field
/// by field (line numbers, texts, novelty, highlights), whatever was read
/// from disk.
pub proof fn law_display_aligned_rows(f: FileModel, source: Result<Seq<char>, Seq<char>>)
    requires
        f.aligned_lines.len() > 0,
    ensures
        display_spec(f, source) matches Ok(rows) && rows.len() == f.aligned_lines.len() && forall|
            i: int,
        |
            0 <= i < rows.len() ==> {
                let r = #[trigger] rows[i];
                let a = f.aligned_lines[i];
                &&& r.lhs_line == a.lhs_line
                &&& r.rhs_line == a.rhs_line
                &&& r.lhs_text == a.lhs_text
                &&& r.rhs_text == a.rhs_text
                &&& r.is_novel_lhs == a.is_novel_lhs
                &&& r.is_novel_rhs == a.is_novel_rhs
                &&& r.lhs_spans == a.lhs_spans
                &&& r.rhs_spans == a.rhs_spans
            },
{
}

/// Every text file whose path has one of the given extensions (or any text
/// file, when none are given) stays in the changed-files list, whatever its
/// status.
pub proof fn law_filter_keeps_every_match(files: Seq<FileModel>, extensions: Seq<Seq<char>>, i: int)
    requires
        0 <= i < files.len(),
        is_text_file_spec(files[i]),
        extensions.len() == 0 || matches_extensions_spec(files[i].path, extensions),
    ensures
        filtered_files(files, extensions).contains(files[i]),
{
    broadcast use vstd::seq_lib::group_filter_ensures;

    let pred = |f: FileModel| keeps_file(f, extensions);
    assert(pred(files[i]));
    files.lemma_filter_contains(pred, i);
}

/// Whether a file stays in the list does not depend on its status.
pub proof fn law_filter_ignores_status(f: FileModel, s: DiffStatus, extensions: Seq<Seq<char>>)
    ensures
        keeps_file(FileModel { status: s, ..f }, extensions) == keeps_file(f, extensions),
{
}

proof fn lemma_normalized_line_end(s: Seq<char>)
    ensures
        normalized_line(s).len() == 0 || !is_line_break(normalized_line(s).last()),
        normalized_line(s).len() <= s.len(),
    decreases s.len(),
{
    if s.len() > 0 && in_class(s.last(), CharClass::LineEnd) {
        lemma_normalized_line_end(s.drop_last());
    }
}

/// Whether `out` is `spans` with the line endings removed from each text and
/// every other field kept.
pub open spec fn spans_without_line_ends(out: Seq<SpanModel>, spans: Seq<SpanModel>) -> bool {
    &&& out.len() == spans.len()
    &&& forall|k: int|
        0 <= k < out.len() ==> {
            let o = #[trigger] out[k];
            &&& o.start == spans[k].start
            &&& o.end == spans[k].end
            &&& o.highlight == spans[k].highlight
            &&& o.is_novel == spans[k].is_novel
            &&& o.content == normalized_line(spans[k].content)
            &&& (o.content.len() == 0 || !is_line_break(o.content.last()))
        }
}

/// Normalizing a file removes the line endings from both texts of every row
/// and from the text of every highlight on both sides, and changes nothing
/// else: the rows, their line numbers, novelty and highlight offsets stay.
pub proof fn law_normalize_file_contents(f: FileModel)
    ensures
        ({
            let g = normalized_file(f);
            &&& g.path == f.path
            &&& g.language == f.language
            &&& g.status == f.status
            &&& g.extra_info == f.extra_info
            &&& g.aligned_lines.len() == f.aligned_lines.len()
            &&& forall|i: int|
                0 <= i < g.aligned_lines.len() ==> {
                    let r = #[trigger] g.aligned_lines[i];
                    let a = f.aligned_lines[i];
                    &&& r.lhs_line == a.lhs_line
                    &&& r.rhs_line == a.rhs_line
                    &&& r.is_novel_lhs == a.is_novel_lhs
                    &&& r.is_novel_rhs == a.is_novel_rhs
                    &&& r.lhs_text == normalized_line(a.lhs_text)
                    &&& r.rhs_text == normalized_line(a.rhs_text)
                    &&& spans_without_line_ends(r.lhs_spans, a.lhs_spans)
                    &&& spans_without_line_ends(r.rhs_spans, a.rhs_spans)
                }
        }),
{
    let g = normalized_file(f);
    assert forall|i: int| 0 <= i < g.aligned_lines.len() implies {
        let r = #[trigger] g.aligned_lines[i];
        let a = f.aligned_lines[i];
        &&& spans_without_line_ends(r.lhs_spans, a.lhs_spans)
        &&& spans_without_line_ends(r.rhs_spans, a.rhs_spans)
    } by {
        let r = g.aligned_lines[i];
        let a = f.aligned_lines[i];
        assert(r == normalized_row(a));
        assert forall|k: int| 0 <= k < r.lhs_spans.len() implies (#[trigger] r.lhs_spans[k]).content.len()
            == 0 || !is_line_break(r.lhs_spans[k].content.last()) by {
            lemma_normalized_line_end(a.lhs_spans[k].content);
        }
        assert forall|k: int| 0 <= k < r.rhs_spans.len() implies (#[trigger] r.rhs_spans[k]).content.len()
            == 0 || !is_line_break(r.rhs_spans[k].content.last()) by {
            lemma_normalized_line_end(a.rhs_spans[k].content);
        }
    }
}

// ---------------------------------------------------------------------------
// Directory results
// ---------------------------------------------------------------------------

proof fn lemma_counts(o: Seq<OutcomeModel>)
    ensures
        ok_files(o).len() + warnings(o).len() == o.len(),
    decreases o.len(),
{
    if o.len() > 0 {
        lemma_counts(o.drop_last());
    }
}

/// One failed entry does not fail the directory: the list is produced
/// exactly when some entry succeeded, it holds the successful entries in
/// order (the first one carrying the note), and the note counts the others.
pub proof fn law_failed_entries_skipped(o: Seq<OutcomeModel>)
    ensures
        collected(o) is Ok <==> ok_files(o).len() > 0,
        ok_files(o).len() + warnings(o).len() == o.len(),
        collected(o) matches Ok(files) ==> {
            &&& files.len() == ok_files(o).len()
            &&& forall|i: int| 1 <= i < files.len() ==> #[trigger] files[i] == ok_files(o)[i]
            &&& files[0].path == ok_files(o)[0].path
            &&& files[0].aligned_lines == ok_files(o)[0].aligned_lines
            &&& (warnings(o).len() == 0 ==> files == ok_files(o))
        },
{
    lemma_counts(o);
}

/// A lone JSON value stands for a one-element array of it: both documents
/// yield the same entries, and so the same changed-file list.
pub proof fn law_single_value_as_array(entry: JsonEntry, items: Vec<JsonEntry>)
    requires
        items@ == seq![entry],
    ensures
        document_entries_spec(JsonDocument::Single(entry)) == document_entries_spec(
            JsonDocument::Array(items),
        ),
{
}

/// A UTF-8 byte-order mark before the output changes nothing.
pub proof fn law_byte_order_mark_ignored(bytes: Seq<u8>)
    requires
        !(bytes.len() >= 3 && bytes[0] == 0xEF && bytes[1] == 0xBB && bytes[2] == 0xBF),
    ensures
        directory_json_spec(seq![0xEFu8, 0xBBu8, 0xBFu8] + bytes) == directory_json_spec(bytes),
{
    let b = seq![0xEFu8, 0xBBu8, 0xBFu8] + bytes;
    assert(b.skip(3) =~= bytes);
    assert(strip_bom_bytes(b) == bytes);
}

// ---------------------------------------------------------------------------
// Command line and labels
// ---------------------------------------------------------------------------

/// A command line is accepted only with exactly two directories.
pub proof fn law_two_directories(args: Seq<Seq<char>>)
    ensures
        parsed_cli(args) matches Ok(c) ==> c.paths.len() == 2,
{
}

/// Each status has its own tag in the changed-files list.
pub proof fn law_status_labels_distinct(a: DiffStatus, b: DiffStatus)
    requires
        a != b,
    ensures
        status_label_spec(a) != status_label_spec(b),
{
    reveal_strlit("M");
    reveal_strlit("A");
    reveal_strlit("D");
    reveal_strlit("=");
    assert(status_label_spec(a).len() == 1);
    assert(status_label_spec(a)[0] != status_label_spec(b)[0]);
}

} // verus!
