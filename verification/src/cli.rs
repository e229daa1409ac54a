//! The viewer's command line, and the texts and rows it shows around a diff.

use vstd::prelude::*;

use crate::model::{
    display_spec, display_view, file_info_message, info_parts, normalize_extension,
    normalized_extension, source_text_view, DiffFile, DisplayLine, RowModel,
};
use crate::text::{
    chars_of, decimal, join, strings_view, trim, trim_ws, usize_to_decimal, utf8_lossy,
    utf8_lossy_text,
};

verus! {

// ---------------------------------------------------------------------------
// Usage
// ---------------------------------------------------------------------------

pub open spec fn usage_text() -> Seq<char> {
    "Usage: difft-dir-viewer [--difft PATH] [-e EXT]... <dir-a> <dir-b>\n\nOptions:\n--difft PATH   Path to the difft binary (overrides DIFT_PATH and auto-discovery)\n-e EXT         Compare only text files with this extension (repeatable; cpp, .cpp and CPP are equivalent)\n-h, --help     Show this help"@
}

/// The help text.
pub fn usage() -> (r: String)
    ensures
        r@ == usage_text(),
{
    "Usage: difft-dir-viewer [--difft PATH] [-e EXT]... <dir-a> <dir-b>\n\nOptions:\n--difft PATH   Path to the difft binary (overrides DIFT_PATH and auto-discovery)\n-e EXT         Compare only text files with this extension (repeatable; cpp, .cpp and CPP are equivalent)\n-h, --help     Show this help".to_owned()
}

pub open spec fn usage_error_spec(got: nat) -> Seq<char> {
    let detail = if got == 0 {
        "two directory paths are required."@
    } else if got == 1 {
        "two directory paths are required (got 1)."@
    } else {
        "expected exactly 2 directory paths (got "@ + decimal(got) + ")."@
    };
    usage_text() + "\n\nError: "@ + detail
}

/// Build a usage error message for an invalid count of directory arguments.
pub fn cli_usage_error(got: usize) -> (r: String)
    ensures
        r@ == usage_error_spec(got as nat),
{
    let detail = if got == 0 {
        "two directory paths are required.".to_owned()
    } else if got == 1 {
        "two directory paths are required (got 1).".to_owned()
    } else {
        let mut d = "expected exactly 2 directory paths (got ".to_owned();
        let n = usize_to_decimal(got);
        d.append(n.as_str());
        d.append(").");
        d
    };
    let mut r = usage();
    r.append("\n\nError: ");
    r.append(detail.as_str());
    r
}

// ---------------------------------------------------------------------------
// Arguments
// ---------------------------------------------------------------------------

/// Where the path of the `difft` binary came from.
#[derive(Clone, Debug, PartialEq, Eq)]
pub enum DifftArg {
    /// The argument at this index (after `--difft`), taken as it is.
    Arg(usize),
    /// The text after `--difft=`.
    Text(String),
}

pub enum DifftModel {
    Arg(nat),
    Text(Seq<char>),
}

impl View for DifftArg {
    type V = DifftModel;

    open spec fn view(&self) -> DifftModel {
        match self {
            DifftArg::Arg(i) => DifftModel::Arg(*i as nat),
            DifftArg::Text(s) => DifftModel::Text(s@),
        }
    }
}

/// The parsed command line: the indices of the directory arguments, the
/// `difft` path, and the normalized `-e` extensions, in order.
#[derive(Clone, Debug)]
pub struct CliArgs {
    pub paths: Vec<usize>,
    pub difft: Option<DifftArg>,
    pub extensions: Vec<String>,
}

pub struct CliModel {
    pub paths: Seq<nat>,
    pub difft: Option<DifftModel>,
    pub extensions: Seq<Seq<char>>,
}

pub open spec fn difft_opt_view(d: Option<DifftArg>) -> Option<DifftModel> {
    match d {
        Some(x) => Some(x@),
        None => None,
    }
}

impl View for CliArgs {
    type V = CliModel;

    open spec fn view(&self) -> CliModel {
        CliModel {
            paths: self.paths@.map_values(|i: usize| i as nat),
            difft: difft_opt_view(self.difft),
            extensions: strings_view(self.extensions@),
        }
    }
}

pub open spec fn starts_with_seq(s: Seq<char>, p: Seq<char>) -> bool {
    p.len() <= s.len() && s.take(p.len() as int) == p
}

/// `s` with every leading copy of `p` removed (`str::trim_start_matches`
/// with a string pattern).
pub open spec fn trim_prefix_all(s: Seq<char>, p: Seq<char>) -> Seq<char>
    decreases s.len(),
{
    if p.len() > 0 && starts_with_seq(s, p) {
        trim_prefix_all(s.skip(p.len() as int), p)
    } else {
        s
    }
}

pub open spec fn difft_missing_message() -> Seq<char> {
    "--difft requires a path.\n\n"@ + usage_text()
}

pub open spec fn ext_missing_message() -> Seq<char> {
    "-e requires an extension.\n\n"@ + usage_text()
}

/// Reads the arguments from index `i` on, given what was read before them.
pub open spec fn scan_args(args: Seq<Seq<char>>, i: int, st: CliModel) -> Result<CliModel, Seq<char>>
    decreases args.len() - i,
{
    if i < 0 || i >= args.len() {
        Ok(st)
    } else {
        let key = args[i];
        if key == "--help"@ || key == "-h"@ {
            Err(usage_text())
        } else if key == "--difft"@ {
            if i + 1 < args.len() {
                scan_args(args, i + 2, CliModel { difft: Some(DifftModel::Arg((i + 1) as nat)), ..st })
            } else {
                Err(difft_missing_message())
            }
        } else if key == "-e"@ {
            if i + 1 < args.len() {
                match normalized_extension(args[i + 1]) {
                    Some(e) => scan_args(args, i + 2, CliModel { extensions: st.extensions.push(e), ..st }),
                    None => Err(ext_missing_message()),
                }
            } else {
                Err(ext_missing_message())
            }
        } else if starts_with_seq(key, "--difft="@) {
            let p = trim_prefix_all(key, "--difft="@);
            if p.len() == 0 {
                Err(difft_missing_message())
            } else {
                scan_args(args, i + 1, CliModel { difft: Some(DifftModel::Text(p)), ..st })
            }
        } else if key.len() > 0 && key[0] == '-' {
            Err("unknown option: "@ + key + "\n\n"@ + usage_text())
        } else {
            scan_args(args, i + 1, CliModel { paths: st.paths.push(i as nat), ..st })
        }
    }
}

/// The command line read from `args` (the arguments after the program name,
/// as text): exactly two directories are required.
pub open spec fn parsed_cli(args: Seq<Seq<char>>) -> Result<CliModel, Seq<char>> {
    match scan_args(args, 0, CliModel { paths: seq![], difft: None, extensions: seq![] }) {
        Err(e) => Err(e),
        Ok(st) => if st.paths.len() == 2 {
            Ok(st)
        } else {
            Err(usage_error_spec(st.paths.len()))
        },
    }
}

fn str_eq(a: &str, b: &str) -> (r: bool)
    ensures
        r == (a@ == b@),
{
    let va = chars_of(a);
    let vb = chars_of(b);
    if va.len() != vb.len() {
        return false;
    }
    let mut i: usize = 0;
    while i < va.len()
        invariant
            i <= va@.len(),
            va@.len() == vb@.len(),
            va@ == a@,
            vb@ == b@,
            forall|j: int| 0 <= j < i ==> #[trigger] va@[j] == vb@[j],
        decreases va@.len() - i,
    {
        if va[i] != vb[i] {
            return false;
        }
        i = i + 1;
    }
    proof {
        assert(va@ =~= vb@);
    }
    true
}

fn vec_starts_with(v: &Vec<char>, from: usize, p: &Vec<char>) -> (r: bool)
    requires
        from <= v@.len(),
    ensures
        r == starts_with_seq(v@.skip(from as int), p@),
{
    let ghost s = v@.skip(from as int);
    if p.len() > v.len() - from {
        return false;
    }
    let mut i: usize = 0;
    while i < p.len()
        invariant
            from <= v@.len(),
            s == v@.skip(from as int),
            from + p@.len() <= v@.len(),
            i <= p@.len() <= s.len(),
            forall|j: int| 0 <= j < i ==> #[trigger] s[j] == p@[j],
        decreases p@.len() - i,
    {
        let vl = v.len();
        assert(from + i < vl);
        if v[from + i] != p[i] {
            proof {
                assert(s.take(p@.len() as int)[i as int] != p@[i as int]);
            }
            return false;
        }
        i = i + 1;
    }
    proof {
        assert(s.take(p@.len() as int) =~= p@);
    }
    true
}

/// `s.trim_start_matches(p)` for a non-empty `p`.
fn trim_prefix(s: &str, p: &str) -> (r: String)
    requires
        p@.len() > 0,
    ensures
        r@ == trim_prefix_all(s@, p@),
{
    let v = chars_of(s);
    let pv = chars_of(p);
    let mut from: usize = 0;
    proof {
        assert(v@.skip(0) =~= v@);
    }
    let mut more = vec_starts_with(&v, from, &pv);
    while more
        invariant
            more == starts_with_seq(v@.skip(from as int), pv@),
            from <= v@.len(),
            pv@ == p@,
            pv@.len() > 0,
            trim_prefix_all(v@, pv@) == trim_prefix_all(v@.skip(from as int), pv@),
        decreases v@.len() - from,
    {
        proof {
            let vl = v.len();
            assert(from + pv@.len() <= vl);
            assert(v@.skip(from as int).skip(pv@.len() as int) =~= v@.skip(from + pv@.len()));
        }
        from = from + pv.len();
        more = vec_starts_with(&v, from, &pv);
    }
    proof {
        assert(v@.skip(from as int) =~= v@.subrange(from as int, v@.len() as int));
    }
    crate::text::string_of(&v.as_slice()[from..v.len()])
}

fn starts_with_str(s: &str, p: &str) -> (r: bool)
    ensures
        r == starts_with_seq(s@, p@),
{
    let v = chars_of(s);
    let pv = chars_of(p);
    let r = vec_starts_with(&v, 0, &pv);
    proof {
        assert(v@.skip(0) =~= v@);
    }
    r
}

proof fn lemma_starts_with_dash(key: Seq<char>)
    ensures
        starts_with_seq(key, "-"@) == (key.len() > 0 && key[0] == '-'),
{
    reveal_strlit("-");
    assert("-"@ =~= seq!['-']);
    if key.len() > 0 {
        assert(key.take(1) =~= seq![key[0]]);
        if key.take(1) == "-"@ {
            assert(key.take(1)[0] == '-');
        }
    }
}

/// Parses the arguments after the program name. `args` holds each argument
/// as text; a `--difft PATH` value is reported by its index so that the
/// caller can take the argument as it was given.
pub fn parse_cli_args(args: &Vec<String>) -> (r: Result<CliArgs, String>)
    ensures
        match r {
            Ok(c) => parsed_cli(strings_view(args@)) == Ok::<CliModel, Seq<char>>(c@),
            Err(e) => parsed_cli(strings_view(args@)) == Err::<CliModel, Seq<char>>(e@),
        },
{
    let ghost a = strings_view(args@);
    let mut st = CliArgs { paths: Vec::new(), difft: None, extensions: Vec::new() };
    proof {
        assert(st@.paths =~= seq![]);
        assert(st@.extensions =~= seq![]);
    }
    let mut i: usize = 0;
    while i < args.len()
        invariant
            a == strings_view(args@),
            i <= args@.len(),
            parsed_cli(a) == (match scan_args(a, i as int, st@) {
                Err(e) => Err(e),
                Ok(s) => if s.paths.len() == 2 {
                    Ok(s)
                } else {
                    Err(usage_error_spec(s.paths.len()))
                },
            }),
        decreases args@.len() - i,
    {
        let key = &args[i];
        proof {
            assert(a[i as int] == key@);
        }
        if str_eq(key.as_str(), "--help") || str_eq(key.as_str(), "-h") {
            return Err(usage());
        } else if str_eq(key.as_str(), "--difft") {
            if i + 1 < args.len() {
                st.difft = Some(DifftArg::Arg(i + 1));
                i = i + 2;
            } else {
                let mut m = "--difft requires a path.\n\n".to_owned();
                let u = usage();
                m.append(u.as_str());
                return Err(m);
            }
        } else if str_eq(key.as_str(), "-e") {
            if i + 1 < args.len() {
                proof {
                    assert(a[i + 1] == args@[i + 1]@);
                }
                match normalize_extension(args[i + 1].as_str()) {
                    Some(e) => {
                        proof {
                            assert(strings_view(st.extensions@.push(e)) =~= strings_view(
                                st.extensions@,
                            ).push(e@));
                        }
                        st.extensions.push(e);
                        i = i + 2;
                    },
                    None => {
                        let mut m = "-e requires an extension.\n\n".to_owned();
                        let u = usage();
                        m.append(u.as_str());
                        return Err(m);
                    },
                }
            } else {
                let mut m = "-e requires an extension.\n\n".to_owned();
                let u = usage();
                m.append(u.as_str());
                return Err(m);
            }
        } else if starts_with_str(key.as_str(), "--difft=") {
            proof {
                reveal_strlit("--difft=");
            }
            let p = trim_prefix(key.as_str(), "--difft=");
            if p.as_str().is_empty() {
                let mut m = "--difft requires a path.\n\n".to_owned();
                let u = usage();
                m.append(u.as_str());
                return Err(m);
            }
            st.difft = Some(DifftArg::Text(p));
            i = i + 1;
        } else if starts_with_str(key.as_str(), "-") {
            proof {
                lemma_starts_with_dash(key@);
            }
            let mut m = "unknown option: ".to_owned();
            m.append(key.as_str());
            m.append("\n\n");
            let u = usage();
            m.append(u.as_str());
            return Err(m);
        } else {
            proof {
                lemma_starts_with_dash(key@);
                assert(st.paths@.push(i).map_values(|j: usize| j as nat) =~= st.paths@.map_values(
                    |j: usize| j as nat,
                ).push(i as nat));
            }
            st.paths.push(i);
            i = i + 1;
        }
    }
    if st.paths.len() == 2 {
        Ok(st)
    } else {
        Err(cli_usage_error(st.paths.len()))
    }
}

// ---------------------------------------------------------------------------
// Texts around a diff
// ---------------------------------------------------------------------------

/// The 1-based line number shown in the gutter, or -1 for no line: `difft`
/// line indices are 0-based. The number wraps into `i32` as a cast does.
pub fn line_num(n: Option<u32>) -> (r: i32)
    requires
        n != Some(u32::MAX),
    ensures
        r == match n {
            Some(k) => (k + 1) as i32,
            None => -1i32,
        },
{
    match n {
        Some(k) => (k + 1) as i32,
        None => -1,
    }
}

/// The title above the changed-files list.
pub fn file_list_title(count: usize) -> (r: String)
    ensures
        r@ == "Changed files ("@ + decimal(count as nat) + ")"@,
{
    let mut r = "Changed files (".to_owned();
    let n = usize_to_decimal(count);
    r.append(n.as_str());
    r.append(")");
    r
}

pub open spec fn directories_spec(a_is_dir: bool, path_a: Seq<char>, b_is_dir: bool, path_b: Seq<
    char,
>) -> Result<(), Seq<char>> {
    if !a_is_dir {
        Err("Path A is not a directory: "@ + path_a)
    } else if !b_is_dir {
        Err("Path B is not a directory: "@ + path_b)
    } else {
        Ok(())
    }
}

/// Ensures both command-line paths are directories; `path_a` and `path_b`
/// are the paths as they are displayed.
pub fn validate_directories(a_is_dir: bool, path_a: &str, b_is_dir: bool, path_b: &str) -> (r:
    Result<(), String>)
    ensures
        match r {
            Ok(()) => directories_spec(a_is_dir, path_a@, b_is_dir, path_b@) is Ok,
            Err(e) => directories_spec(a_is_dir, path_a@, b_is_dir, path_b@) == Err::<(), Seq<char>>(
                e@,
            ),
        },
{
    if !a_is_dir {
        let mut m = "Path A is not a directory: ".to_owned();
        m.append(path_a);
        return Err(m);
    }
    if !b_is_dir {
        let mut m = "Path B is not a directory: ".to_owned();
        m.append(path_b);
        return Err(m);
    }
    Ok(())
}

pub open spec fn failed_run_spec(stderr: Seq<u8>, status: Seq<char>) -> Seq<char> {
    let text = trim_ws(utf8_lossy_text(stderr));
    if text.len() > 0 {
        text
    } else {
        "difft exited with status "@ + status + " and produced no output."@
    }
}

/// The error for a `difft` run that wrote nothing to standard output: its
/// trimmed standard error, or its exit status when that is empty too.
pub fn failed_run_message(stderr: &[u8], status: &str) -> (r: String)
    ensures
        r@ == failed_run_spec(stderr@, status@),
{
    let text = utf8_lossy(stderr);
    let trimmed = trim(text.as_str());
    if !trimmed.as_str().is_empty() {
        return trimmed;
    }
    let mut m = "difft exited with status ".to_owned();
    m.append(status);
    m.append(" and produced no output.");
    m
}

/// What the code panes and the info overlay show for one file.
pub struct FileView {
    pub lines: Vec<DisplayLine>,
    pub info: String,
}

pub open spec fn file_view_spec(
    f: crate::model::FileModel,
    source: Result<Seq<char>, Seq<char>>,
) -> (Seq<RowModel>, Seq<char>) {
    match display_spec(f, source) {
        Ok(rows) => (rows, join(info_parts(f, rows.len()), "\n"@)),
        Err(e) => (seq![], e),
    }
}

/// The rows and info text for `file` (see `display_lines` for `source`):
/// on failure no rows, and the error as the info text.
pub fn diff_file_view(file: &DiffFile, source: &Result<Vec<u8>, String>) -> (r: FileView)
    ensures
        (display_view(r.lines@), r.info@) == file_view_spec(file@, source_text_view(*source)),
{
    match crate::model::display_lines(file, source) {
        Ok(lines) => {
            let info = file_info_message(file, lines.len());
            FileView { lines, info }
        },
        Err(e) => {
            let lines: Vec<DisplayLine> = Vec::new();
            proof {
                assert(display_view(lines@) =~= seq![]);
            }
            FileView { lines, info: e }
        },
    }
}

} // verus!
