//! Character-level text helpers: trimming, ASCII case folding, line splitting,
//! decimal rendering and joining, all stated over `Seq<char>`.

use vstd::prelude::*;
use vstd::utf8::decode_utf8;
use vstd::utf8::valid_utf8;

verus! {

// ---------------------------------------------------------------------------
// Character classes
// ---------------------------------------------------------------------------

/// The characters that `char::is_whitespace` accepts: the Unicode
/// `White_Space` property.
pub open spec fn is_white_space(c: char) -> bool {
    ||| ('\u{9}' <= c && c <= '\u{d}')
    ||| c == ' '
    ||| c == '\u{85}'
    ||| c == '\u{a0}'
    ||| c == '\u{1680}'
    ||| ('\u{2000}' <= c && c <= '\u{200a}')
    ||| c == '\u{2028}'
    ||| c == '\u{2029}'
    ||| c == '\u{202f}'
    ||| c == '\u{205f}'
    ||| c == '\u{3000}'
}

/// A set of characters that a trimming operation removes.
#[derive(Clone, Copy, Debug, PartialEq, Eq, Structural)]
pub enum CharClass {
    WhiteSpace,
    Dot,
    ByteOrderMark,
    LineEnd,
}

pub open spec fn in_class(c: char, k: CharClass) -> bool {
    match k {
        CharClass::WhiteSpace => is_white_space(c),
        CharClass::Dot => c == '.',
        CharClass::ByteOrderMark => c == '\u{feff}',
        CharClass::LineEnd => c == '\n' || c == '\r',
    }
}

pub fn is_in_class(c: char, k: CharClass) -> (r: bool)
    ensures
        r == in_class(c, k),
{
    match k {
        CharClass::WhiteSpace => {
            ('\u{9}' <= c && c <= '\u{d}') || c == ' ' || c == '\u{85}' || c == '\u{a0}' || c
                == '\u{1680}' || ('\u{2000}' <= c && c <= '\u{200a}') || c == '\u{2028}' || c
                == '\u{2029}' || c == '\u{202f}' || c == '\u{205f}' || c == '\u{3000}'
        },
        CharClass::Dot => c == '.',
        CharClass::ByteOrderMark => c == '\u{feff}',
        CharClass::LineEnd => c == '\n' || c == '\r',
    }
}

// ---------------------------------------------------------------------------
// Trimming
// ---------------------------------------------------------------------------

/// `s` without its longest prefix of characters in `k`.
pub open spec fn strip_leading(s: Seq<char>, k: CharClass) -> Seq<char>
    decreases s.len(),
{
    if s.len() > 0 && in_class(s[0], k) {
        strip_leading(s.drop_first(), k)
    } else {
        s
    }
}

/// `s` without its longest suffix of characters in `k`.
pub open spec fn strip_trailing(s: Seq<char>, k: CharClass) -> Seq<char>
    decreases s.len(),
{
    if s.len() > 0 && in_class(s.last(), k) {
        strip_trailing(s.drop_last(), k)
    } else {
        s
    }
}

/// What `str::trim` leaves of `s`.
pub open spec fn trim_ws(s: Seq<char>) -> Seq<char> {
    strip_trailing(strip_leading(s, CharClass::WhiteSpace), CharClass::WhiteSpace)
}

proof fn lemma_strip_leading_at(s: Seq<char>, k: CharClass, i: int)
    requires
        0 <= i <= s.len(),
        forall|j: int| 0 <= j < i ==> in_class(#[trigger] s[j], k),
        i == s.len() || !in_class(s[i], k),
    ensures
        strip_leading(s, k) == s.skip(i),
    decreases i,
{
    if i == 0 {
        assert(s.skip(0) =~= s);
    } else {
        let t = s.drop_first();
        assert forall|j: int| 0 <= j < i - 1 implies in_class(#[trigger] t[j], k) by {
            assert(t[j] == s[j + 1]);
        }
        lemma_strip_leading_at(t, k, i - 1);
        assert(t.skip(i - 1) =~= s.skip(i));
    }
}

proof fn lemma_strip_trailing_at(s: Seq<char>, k: CharClass, e: int)
    requires
        0 <= e <= s.len(),
        forall|j: int| e <= j < s.len() ==> in_class(#[trigger] s[j], k),
        e == 0 || !in_class(s[e - 1], k),
    ensures
        strip_trailing(s, k) == s.take(e),
    decreases s.len() - e,
{
    if e == s.len() {
        assert(s.take(e) =~= s);
    } else {
        let t = s.drop_last();
        assert forall|j: int| e <= j < t.len() implies in_class(#[trigger] t[j], k) by {
            assert(t[j] == s[j]);
        }
        lemma_strip_trailing_at(t, k, e);
        assert(t.take(e) =~= s.take(e));
    }
}

/// First index in `[from, to)` whose character is not in `k`, or `to`.
fn skip_class_forward(v: &Vec<char>, from: usize, to: usize, k: CharClass) -> (i: usize)
    requires
        from <= to <= v.len(),
    ensures
        from <= i <= to,
        forall|j: int| from <= j < i ==> in_class(#[trigger] v@[j], k),
        i == to || !in_class(v@[i as int], k),
{
    let mut i = from;
    while i < to
        invariant
            from <= i <= to,
            to <= v.len(),
            forall|j: int| from <= j < i ==> in_class(#[trigger] v@[j], k),
        decreases to - i,
    {
        if !is_in_class(v[i], k) {
            return i;
        }
        i = i + 1;
    }
    i
}

/// Last boundary `e` in `[from, to]` such that `v[e..to]` is all in `k`
/// and `v[e - 1]` is not (or `e == from`).
fn skip_class_backward(v: &Vec<char>, from: usize, to: usize, k: CharClass) -> (e: usize)
    requires
        from <= to <= v.len(),
    ensures
        from <= e <= to,
        forall|j: int| e <= j < to ==> in_class(#[trigger] v@[j], k),
        e == from || !in_class(v@[e - 1], k),
{
    let mut e = to;
    while e > from
        invariant
            from <= e <= to,
            to <= v.len(),
            forall|j: int| e <= j < to ==> in_class(#[trigger] v@[j], k),
        decreases e - from,
    {
        if !is_in_class(v[e - 1], k) {
            return e;
        }
        e = e - 1;
    }
    e
}

// ---------------------------------------------------------------------------
// std conversions between `str` and characters
// ---------------------------------------------------------------------------

/// The characters of `s`, in order (`str::chars` collected into a `Vec`).
#[verifier::external_body]
pub(crate) fn chars_of(s: &str) -> (v: Vec<char>)
    ensures
        v@ == s@,
{
    s.chars().collect()
}

/// A `String` holding exactly the characters `v` (`String: FromIterator<&char>`).
#[verifier::external_body]
pub(crate) fn string_of(v: &[char]) -> (s: String)
    ensures
        s@ == v@,
{
    v.iter().collect()
}

/// `std::str::from_utf8`: succeeds exactly on well-formed UTF-8, and then
/// decodes it; a failure is returned as the text of its `Utf8Error`.
#[verifier::external_body]
pub(crate) fn utf8_decode(bytes: &[u8]) -> (r: Result<String, String>)
    ensures
        r is Ok <==> valid_utf8(bytes@),
        r matches Ok(s) ==> s@ == decode_utf8(bytes@),
        r matches Err(m) ==> m@ == utf8_error_text(bytes@),
{
    match std::str::from_utf8(bytes) {
        Ok(s) => Ok(s.to_owned()),
        Err(e) => Err(e.to_string()),
    }
}

/// The text of the `Utf8Error` that `std::str::from_utf8` reports for `bytes`.
pub uninterp spec fn utf8_error_text(bytes: Seq<u8>) -> Seq<char>;

/// The text that `String::from_utf8_lossy` makes of `bytes`.
pub uninterp spec fn utf8_lossy_text(bytes: Seq<u8>) -> Seq<char>;

/// `String::from_utf8_lossy`: invalid sequences become U+FFFD, so no input
/// byte is lost without a trace; well-formed UTF-8 is decoded unchanged.
#[verifier::external_body]
pub(crate) fn utf8_lossy(bytes: &[u8]) -> (s: String)
    ensures
        s@ == utf8_lossy_text(bytes@),
        valid_utf8(bytes@) ==> s@ == decode_utf8(bytes@),
        bytes@.len() > 0 ==> s@.len() > 0,
{
    String::from_utf8_lossy(bytes).into_owned()
}

/// `String::push`.
#[verifier::external_body]
pub(crate) fn push_char(s: &mut String, c: char)
    ensures
        final(s)@ == old(s)@.push(c),
{
    s.push(c);
}

// ---------------------------------------------------------------------------
// Trimming on strings
// ---------------------------------------------------------------------------

/// `str::trim`: removes leading and trailing Unicode white space.
pub fn trim(s: &str) -> (r: String)
    ensures
        r@ == trim_ws(s@),
{
    let v = chars_of(s);
    let start = skip_class_forward(&v, 0, v.len(), CharClass::WhiteSpace);
    let end = skip_class_backward(&v, start, v.len(), CharClass::WhiteSpace);
    proof {
        lemma_strip_leading_at(v@, CharClass::WhiteSpace, start as int);
        let t = v@.skip(start as int);
        assert forall|j: int| end - start <= j < t.len() implies in_class(
            #[trigger] t[j],
            CharClass::WhiteSpace,
        ) by {
            assert(t[j] == v@[j + start]);
        }
        if end > start {
            assert(t[end - start - 1] == v@[end - 1]);
        }
        lemma_strip_trailing_at(t, CharClass::WhiteSpace, end - start);
        assert(t.take(end - start) =~= v@.subrange(start as int, end as int));
    }
    string_of(&v.as_slice()[start..end])
}

/// Removes every leading character of class `k` (`str::trim_start_matches`
/// with a single-character pattern).
pub fn trim_start_class(s: &str, k: CharClass) -> (r: String)
    ensures
        r@ == strip_leading(s@, k),
{
    let v = chars_of(s);
    let start = skip_class_forward(&v, 0, v.len(), k);
    proof {
        lemma_strip_leading_at(v@, k, start as int);
        assert(v@.skip(start as int) =~= v@.subrange(start as int, v@.len() as int));
    }
    string_of(&v.as_slice()[start..v.len()])
}

/// Removes every trailing character of class `k`.
pub fn trim_end_class(s: &str, k: CharClass) -> (r: String)
    ensures
        r@ == strip_trailing(s@, k),
{
    let v = chars_of(s);
    let end = skip_class_backward(&v, 0, v.len(), k);
    proof {
        lemma_strip_trailing_at(v@, k, end as int);
        assert(v@.take(end as int) =~= v@.subrange(0, end as int));
    }
    string_of(&v.as_slice()[0..end])
}


// ---------------------------------------------------------------------------
// ASCII case folding
// ---------------------------------------------------------------------------

/// `char::to_ascii_lowercase`: `'A'..='Z'` become `'a'..='z'`, every other
/// character is unchanged.
pub open spec fn ascii_lower_char(c: char) -> char {
    if 'A' <= c && c <= 'Z' {
        ((c as u32) + 32) as char
    } else {
        c
    }
}

/// `char::to_ascii_uppercase`: `'a'..='z'` become `'A'..='Z'`, every other
/// character is unchanged.
pub open spec fn ascii_upper_char(c: char) -> char {
    if 'a' <= c && c <= 'z' {
        ((c as u32) - 32) as char
    } else {
        c
    }
}

/// `str::to_ascii_uppercase`, character by character.
pub open spec fn ascii_upper(s: Seq<char>) -> Seq<char> {
    s.map_values(|c: char| ascii_upper_char(c))
}

/// `str::to_ascii_lowercase`, character by character.
pub open spec fn ascii_lower(s: Seq<char>) -> Seq<char> {
    s.map_values(|c: char| ascii_lower_char(c))
}

pub fn lower_char(c: char) -> (r: char)
    ensures
        r == ascii_lower_char(c),
{
    if 'A' <= c && c <= 'Z' {
        let v: u32 = (c as u32) + 32;
        (v as u8) as char
    } else {
        c
    }
}

/// `str::to_ascii_lowercase`.
pub fn to_ascii_lowercase(s: &str) -> (r: String)
    ensures
        r@ == ascii_lower(s@),
{
    let v = chars_of(s);
    let mut out: Vec<char> = Vec::new();
    let mut i: usize = 0;
    while i < v.len()
        invariant
            i <= v.len(),
            out@.len() == i,
            forall|j: int| 0 <= j < i ==> #[trigger] out@[j] == ascii_lower_char(v@[j]),
        decreases v.len() - i,
    {
        out.push(lower_char(v[i]));
        i = i + 1;
    }
    proof {
        assert(out@ =~= ascii_lower(v@));
    }
    string_of(out.as_slice())
}

/// `str::eq_ignore_ascii_case`.
pub fn eq_ignore_ascii_case(a: &str, b: &str) -> (r: bool)
    ensures
        r == (ascii_lower(a@) == ascii_lower(b@)),
{
    let va = chars_of(a);
    let vb = chars_of(b);
    if va.len() != vb.len() {
        proof {
            assert(ascii_lower(a@).len() != ascii_lower(b@).len());
        }
        return false;
    }
    let mut i: usize = 0;
    while i < va.len()
        invariant
            i <= va.len(),
            va.len() == vb.len(),
            va@ == a@,
            vb@ == b@,
            forall|j: int| 0 <= j < i ==> ascii_lower_char(#[trigger] va@[j]) == ascii_lower_char(
                vb@[j],
            ),
        decreases va.len() - i,
    {
        if lower_char(va[i]) != lower_char(vb[i]) {
            proof {
                assert(ascii_lower(a@)[i as int] != ascii_lower(b@)[i as int]);
            }
            return false;
        }
        i = i + 1;
    }
    proof {
        assert(ascii_lower(a@) =~= ascii_lower(b@));
    }
    true
}

/// `str::starts_with` for a prefix given as characters.
pub fn starts_with_chars(s: &str, prefix: &[char]) -> (r: bool)
    ensures
        r == (prefix@.len() <= s@.len() && s@.take(prefix@.len() as int) == prefix@),
{
    let v = chars_of(s);
    if prefix.len() > v.len() {
        return false;
    }
    let mut i: usize = 0;
    while i < prefix.len()
        invariant
            i <= prefix@.len() <= v@.len(),
            v@ == s@,
            forall|j: int| 0 <= j < i ==> #[trigger] v@[j] == prefix@[j],
        decreases prefix@.len() - i,
    {
        if v[i] != prefix[i] {
            proof {
                assert(s@.take(prefix@.len() as int)[i as int] != prefix@[i as int]);
            }
            return false;
        }
        i = i + 1;
    }
    proof {
        assert(s@.take(prefix@.len() as int) =~= prefix@);
    }
    true
}

// ---------------------------------------------------------------------------
// Logical lines
// ---------------------------------------------------------------------------

/// A line ends at `'\n'`, at `'\r'`, or at the pair `"\r\n"`.
pub open spec fn is_line_break(c: char) -> bool {
    c == '\n' || c == '\r'
}

/// The index of the first line break at or after `i`, or `s.len()`.
pub open spec fn next_break(s: Seq<char>, i: int) -> int
    decreases s.len() - i,
{
    if i >= s.len() {
        s.len() as int
    } else if is_line_break(s[i]) {
        i
    } else {
        next_break(s, i + 1)
    }
}

/// How many characters the line break at `j` takes: two for `"\r\n"`.
pub open spec fn break_len(s: Seq<char>, j: int) -> int {
    if s[j] == '\r' && j + 1 < s.len() && s[j + 1] == '\n' {
        2
    } else {
        1
    }
}

pub proof fn lemma_next_break_bounds(s: Seq<char>, i: int)
    requires
        0 <= i,
    ensures
        i <= s.len() ==> i <= next_break(s, i) <= s.len(),
        i > s.len() ==> next_break(s, i) == s.len(),
        next_break(s, i) < s.len() ==> is_line_break(s[next_break(s, i)]),
    decreases s.len() - i,
{
    if i < s.len() && !is_line_break(s[i]) {
        lemma_next_break_bounds(s, i + 1);
    }
}

/// The lines of `s` from index `start` on, without their line breaks; a
/// final line break does not open an empty last line.
pub open spec fn lines_from(s: Seq<char>, start: int) -> Seq<Seq<char>>
    decreases s.len() - start,
{
    if start < 0 || start >= s.len() {
        seq![]
    } else {
        let j = next_break(s, start);
        if j >= s.len() {
            seq![s.subrange(start, s.len() as int)]
        } else {
            proof {
                lemma_next_break_bounds(s, start);
            }
            seq![s.subrange(start, j)] + lines_from(s, j + break_len(s, j))
        }
    }
}

/// The logical lines of `s`.
pub open spec fn logical_lines(s: Seq<char>) -> Seq<Seq<char>> {
    lines_from(s, 0)
}

/// The character contents of a sequence of strings.
pub open spec fn strings_view(v: Seq<String>) -> Seq<Seq<char>> {
    v.map_values(|x: String| x@)
}

proof fn lemma_next_break_at(s: Seq<char>, start: int, i: int)
    requires
        0 <= start <= i <= s.len(),
        forall|k: int| start <= k < i ==> !is_line_break(#[trigger] s[k]),
        i == s.len() || is_line_break(s[i]),
    ensures
        next_break(s, start) == i,
    decreases i - start,
{
    if start < i {
        lemma_next_break_at(s, start + 1, i);
    }
}

/// Splits `text` into its logical lines: `"\n"`, `"\r\n"` and a lone `'\r'`
/// each end a line, and a final line break adds no empty line.
pub fn split_logical_lines(text: &str) -> (lines: Vec<String>)
    ensures
        strings_view(lines@) == logical_lines(text@),
{
    let v = chars_of(text);
    let n = v.len();
    let mut out: Vec<String> = Vec::new();
    let mut start: usize = 0;
    let mut i: usize = 0;
    while i < n
        invariant
            n == v@.len(),
            v@ == text@,
            start <= i <= n,
            forall|k: int| start <= k < i ==> !is_line_break(#[trigger] v@[k]),
            logical_lines(v@) == strings_view(out@) + lines_from(v@, start as int),
        decreases n - i,
    {
        let c = v[i];
        if c == '\n' || c == '\r' {
            let line = string_of(&v.as_slice()[start..i]);
            let step: usize = if c == '\r' && i + 1 < n && v[i + 1] == '\n' {
                2
            } else {
                1
            };
            proof {
                lemma_next_break_at(v@, start as int, i as int);
                assert(break_len(v@, i as int) == step);
                assert(strings_view(out@.push(line)) =~= strings_view(out@).push(line@));
                assert(lines_from(v@, start as int) == seq![v@.subrange(start as int, i as int)]
                    + lines_from(v@, i + step));
                assert(strings_view(out@) + lines_from(v@, start as int) =~= strings_view(
                    out@,
                ).push(line@) + lines_from(v@, i + step));
            }
            out.push(line);
            i = i + step;
            start = i;
        } else {
            i = i + 1;
        }
    }
    if start < n {
        let line = string_of(&v.as_slice()[start..n]);
        proof {
            lemma_next_break_at(v@, start as int, n as int);
            assert(strings_view(out@.push(line)) =~= strings_view(out@).push(line@));
            assert(lines_from(v@, start as int) == seq![v@.subrange(start as int, n as int)]);
            assert(strings_view(out@) + lines_from(v@, start as int) =~= strings_view(
                out@,
            ).push(line@));
        }
        out.push(line);
    } else {
        proof {
            assert(strings_view(out@) + lines_from(v@, start as int) =~= strings_view(out@));
        }
    }
    out
}

/// A line with every trailing `'\r'` and `'\n'` removed.
pub open spec fn normalized_line(s: Seq<char>) -> Seq<char> {
    strip_trailing(s, CharClass::LineEnd)
}

/// Removes the line-ending characters that end `line`.
pub fn normalize_line(line: &str) -> (r: String)
    ensures
        r@ == normalized_line(line@),
{
    trim_end_class(line, CharClass::LineEnd)
}

// ---------------------------------------------------------------------------
// Decimal numbers and joining
// ---------------------------------------------------------------------------

pub open spec fn digit_char(d: nat) -> char {
    if d == 0 {
        '0'
    } else if d == 1 {
        '1'
    } else if d == 2 {
        '2'
    } else if d == 3 {
        '3'
    } else if d == 4 {
        '4'
    } else if d == 5 {
        '5'
    } else if d == 6 {
        '6'
    } else if d == 7 {
        '7'
    } else if d == 8 {
        '8'
    } else {
        '9'
    }
}

/// The decimal digits of `n`, as `Display` writes them for an unsigned integer.
pub open spec fn decimal(n: nat) -> Seq<char>
    decreases n,
{
    if n < 10 {
        seq![digit_char(n)]
    } else {
        decimal(n / 10).push(digit_char(n % 10))
    }
}

fn digit_of(d: usize) -> (c: char)
    requires
        d < 10,
    ensures
        c == digit_char(d as nat),
{
    if d == 0 {
        '0'
    } else if d == 1 {
        '1'
    } else if d == 2 {
        '2'
    } else if d == 3 {
        '3'
    } else if d == 4 {
        '4'
    } else if d == 5 {
        '5'
    } else if d == 6 {
        '6'
    } else if d == 7 {
        '7'
    } else if d == 8 {
        '8'
    } else {
        '9'
    }
}

/// Renders `n` in decimal.
pub fn usize_to_decimal(n: usize) -> (s: String)
    ensures
        s@ == decimal(n as nat),
    decreases n,
{
    if n < 10 {
        let mut s = String::new();
        push_char(&mut s, digit_of(n));
        proof {
            assert(s@ =~= seq![digit_char(n as nat)]);
        }
        s
    } else {
        let mut s = usize_to_decimal(n / 10);
        push_char(&mut s, digit_of(n % 10));
        s
    }
}

/// The parts joined with `sep` between neighbours (`[T]::join`).
pub open spec fn join(parts: Seq<Seq<char>>, sep: Seq<char>) -> Seq<char>
    decreases parts.len(),
{
    if parts.len() == 0 {
        seq![]
    } else if parts.len() == 1 {
        parts[0]
    } else {
        join(parts.drop_last(), sep) + sep + parts.last()
    }
}

/// `parts.join(sep)`.
pub fn join_strings(parts: &Vec<String>, sep: &str) -> (r: String)
    ensures
        r@ == join(strings_view(parts@), sep@),
{
    let mut r = String::new();
    let mut i: usize = 0;
    while i < parts.len()
        invariant
            i <= parts@.len(),
            r@ == join(strings_view(parts@.take(i as int)), sep@),
        decreases parts@.len() - i,
    {
        proof {
            let sv = strings_view(parts@.take(i + 1));
            assert(sv.drop_last() =~= strings_view(parts@.take(i as int)));
            assert(sv.last() == parts@[i as int]@);
        }
        if i == 0 {
            r.append(parts[i].as_str());
            proof {
                assert(strings_view(parts@.take(0)) =~= seq![]);
            }
        } else {
            r.append(sep);
            r.append(parts[i].as_str());
        }
        i = i + 1;
    }
    proof {
        assert(parts@.take(parts@.len() as int) =~= parts@);
    }
    r
}

} // verus!
