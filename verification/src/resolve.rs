//! The encoding resolver: detects the byte-level text encoding of an input
//! file and decodes it to canonical UTF-8 text.
//!
//! Detection is a fixed heuristic: byte-order marks first, then a strict
//! UTF-8 trial, then a windows-1252 default for legacy single-byte western
//! European bank exports. Decoding is strict for the named encodings and
//! deliberately lossy only for unrecognized tags.
use vstd::prelude::*;
use vstd::utf8::{decode_utf8, valid_utf8};

use crate::error::CoreError;

verus! {

/// True when the bytes open with the UTF-8 byte-order mark EF BB BF.
pub open spec fn has_utf8_bom(b: Seq<u8>) -> bool {
    b.len() >= 3 && b[0] == 0xEF && b[1] == 0xBB && b[2] == 0xBF
}

/// True when the bytes open with the UTF-16 little-endian mark FF FE.
pub open spec fn has_utf16le_bom(b: Seq<u8>) -> bool {
    b.len() >= 2 && b[0] == 0xFF && b[1] == 0xFE
}

/// True when the bytes open with the UTF-16 big-endian mark FE FF.
pub open spec fn has_utf16be_bom(b: Seq<u8>) -> bool {
    b.len() >= 2 && b[0] == 0xFE && b[1] == 0xFF
}

/// The tag the detection heuristic owes for a byte sequence; first match
/// wins and there is always a match.
pub open spec fn detect_spec(b: Seq<u8>) -> Seq<char> {
    if has_utf8_bom(b) {
        "utf-8"@
    } else if has_utf16le_bom(b) {
        "utf-16le"@
    } else if has_utf16be_bom(b) {
        "utf-16be"@
    } else if valid_utf8(b) {
        "utf-8"@
    } else {
        "windows-1252"@
    }
}

/// Detect the probable encoding of a byte sequence. A heuristic, never a
/// failure: byte-order marks first, then a strict UTF-8 trial, and
/// windows-1252 as the default for everything else.
pub fn detect_encoding(bytes: &[u8]) -> (r: String)
    ensures
        r@ == detect_spec(bytes@),
{
    if bytes.len() >= 3 && bytes[0] == 0xEF && bytes[1] == 0xBB && bytes[2] == 0xBF {
        return "utf-8".to_owned();
    }
    if bytes.len() >= 2 && bytes[0] == 0xFF && bytes[1] == 0xFE {
        return "utf-16le".to_owned();
    }
    if bytes.len() >= 2 && bytes[0] == 0xFE && bytes[1] == 0xFF {
        return "utf-16be".to_owned();
    }
    if crate::textutil::utf8_is_valid(bytes) {
        return "utf-8".to_owned();
    }
    "windows-1252".to_owned()
}

/// The character the windows-1252 encoding assigns to one byte: bytes below
/// 0x80 and the C1 gaps decode to their own code point, the 0x80..0x9F rows
/// through the table.
pub open spec fn win1252_char(b: u8) -> char {
    if b == 0x80 {
        '\u{20AC}'
    } else if b == 0x82 {
        '\u{201A}'
    } else if b == 0x83 {
        '\u{0192}'
    } else if b == 0x84 {
        '\u{201E}'
    } else if b == 0x85 {
        '\u{2026}'
    } else if b == 0x86 {
        '\u{2020}'
    } else if b == 0x87 {
        '\u{2021}'
    } else if b == 0x88 {
        '\u{02C6}'
    } else if b == 0x89 {
        '\u{2030}'
    } else if b == 0x8A {
        '\u{0160}'
    } else if b == 0x8B {
        '\u{2039}'
    } else if b == 0x8C {
        '\u{0152}'
    } else if b == 0x8E {
        '\u{017D}'
    } else if b == 0x91 {
        '\u{2018}'
    } else if b == 0x92 {
        '\u{2019}'
    } else if b == 0x93 {
        '\u{201C}'
    } else if b == 0x94 {
        '\u{201D}'
    } else if b == 0x95 {
        '\u{2022}'
    } else if b == 0x96 {
        '\u{2013}'
    } else if b == 0x97 {
        '\u{2014}'
    } else if b == 0x98 {
        '\u{02DC}'
    } else if b == 0x99 {
        '\u{2122}'
    } else if b == 0x9A {
        '\u{0161}'
    } else if b == 0x9B {
        '\u{203A}'
    } else if b == 0x9C {
        '\u{0153}'
    } else if b == 0x9E {
        '\u{017E}'
    } else if b == 0x9F {
        '\u{0178}'
    } else {
        b as char
    }
}

/// The character the ISO-8859-15 (latin-9) encoding assigns to one byte:
/// identity up to the eight revised positions.
pub open spec fn latin9_char(b: u8) -> char {
    if b == 0xA4 {
        '\u{20AC}'
    } else if b == 0xA6 {
        '\u{0160}'
    } else if b == 0xA8 {
        '\u{0161}'
    } else if b == 0xB4 {
        '\u{017D}'
    } else if b == 0xB8 {
        '\u{017E}'
    } else if b == 0xBC {
        '\u{0152}'
    } else if b == 0xBD {
        '\u{0153}'
    } else if b == 0xBE {
        '\u{0178}'
    } else {
        b as char
    }
}

/// A byte sequence decoded as windows-1252, one character per byte.
pub open spec fn win1252_decode(b: Seq<u8>) -> Seq<char> {
    b.map(|_i: int, x: u8| win1252_char(x))
}

/// A byte sequence decoded as ISO-8859-15, one character per byte.
pub open spec fn latin9_decode(b: Seq<u8>) -> Seq<char> {
    b.map(|_i: int, x: u8| latin9_char(x))
}

/// What the lossy UTF-8 decoding returns for a byte sequence: a function of
/// the bytes alone, with malformed sequences replaced rather than rejected.
pub uninterp spec fn utf8_lossy_chars(b: Seq<u8>) -> Seq<char>;

/// Relies on `encoding_rs::WINDOWS_1252` through
/// `decode_without_bom_handling`: a complete single-byte encoding, so it
/// never reports errors, and each byte decodes through the windows-1252 row
/// of `encoding_rs-0.8.42/src/data.rs` (ASCII bytes to themselves).
#[verifier::external_body]
fn decode_windows_1252(bytes: &[u8]) -> (r: (String, bool))
    ensures
        r.1 == false,
        r.0@ == win1252_decode(bytes@),
{
    let (cow, had_errors) = encoding_rs::WINDOWS_1252.decode_without_bom_handling(bytes);
    (cow.into_owned(), had_errors)
}

/// Relies on `encoding_rs::ISO_8859_15` through
/// `decode_without_bom_handling`: a complete single-byte encoding, so it
/// never reports errors, and each byte decodes through the iso-8859-15 row
/// of `encoding_rs-0.8.42/src/data.rs` (ASCII bytes to themselves).
#[verifier::external_body]
fn decode_latin9(bytes: &[u8]) -> (r: (String, bool))
    ensures
        r.1 == false,
        r.0@ == latin9_decode(bytes@),
{
    let (cow, had_errors) = encoding_rs::ISO_8859_15.decode_without_bom_handling(bytes);
    (cow.into_owned(), had_errors)
}

/// Relies on `encoding_rs::UTF_8` through `decode_without_bom_handling`:
/// the result depends on the bytes alone; valid UTF-8 decodes exactly and
/// malformed sequences become replacement characters instead of failing.
#[verifier::external_body]
fn decode_utf8_lossy(bytes: &[u8]) -> (r: String)
    ensures
        r@ == utf8_lossy_chars(bytes@),
        valid_utf8(bytes@) ==> r@ == decode_utf8(bytes@),
{
    let (cow, _had_errors) = encoding_rs::UTF_8.decode_without_bom_handling(bytes);
    cow.into_owned()
}

/// An encoding tag normalized for matching: lowered ASCII-wise.
pub open spec fn tag_lower(t: Seq<char>) -> Seq<char> {
    crate::textutil::ascii_lower_chars(t)
}

/// The supplied bytes with a leading UTF-8 byte-order mark removed; applied
/// before any decode, whatever the requested encoding.
pub open spec fn bom_stripped(b: Seq<u8>) -> Seq<u8> {
    if has_utf8_bom(b) {
        b.skip(3)
    } else {
        b
    }
}

/// True when the tag names the strict UTF-8 decode.
pub open spec fn is_utf8_tag(t: Seq<char>) -> bool {
    tag_lower(t) == "utf-8"@ || tag_lower(t) == "utf8"@
}

/// True when the tag names the strict windows-1252 decode.
pub open spec fn is_win1252_tag(t: Seq<char>) -> bool {
    tag_lower(t) == "windows-1252"@ || tag_lower(t) == "cp1252"@
}

/// True when the tag names the strict ISO-8859-15 decode, which also serves
/// the latin-1 family labels.
pub open spec fn is_latin9_tag(t: Seq<char>) -> bool {
    ||| tag_lower(t) == "iso-8859-1"@
    ||| tag_lower(t) == "iso-8859-15"@
    ||| tag_lower(t) == "latin1"@
    ||| tag_lower(t) == "latin9"@
}

/// The text a decode of `b` under tag `t` owes: `None` exactly where a
/// strictly named encoding rejects the input; unrecognized tags fall back
/// to the lossy UTF-8 decode and never fail.
pub open spec fn decode_outcome(b: Seq<u8>, t: Seq<char>) -> Option<Seq<char>> {
    let s = bom_stripped(b);
    if is_utf8_tag(t) {
        if valid_utf8(s) {
            Some(decode_utf8(s))
        } else {
            None
        }
    } else if is_win1252_tag(t) {
        Some(win1252_decode(s))
    } else if is_latin9_tag(t) {
        Some(latin9_decode(s))
    } else {
        Some(utf8_lossy_chars(s))
    }
}

/// Decode a byte sequence under a requested encoding tag, matching the tag
/// case-insensitively. A leading UTF-8 byte-order mark is stripped first.
/// The named encodings decode strictly and report malformed input; any
/// other tag gets the lossy best-effort UTF-8 decode.
pub fn decode_bytes(bytes: &[u8], encoding: &str) -> (r: Result<String, CoreError>)
    ensures
        r is Ok <==> decode_outcome(bytes@, encoding@) is Some,
        r matches Ok(o) ==> o@ == decode_outcome(bytes@, encoding@)->Some_0,
        r is Err ==> r == Err::<String, CoreError>(CoreError::EncodingDecodeError),
{
    let stripped: &[u8] = if bytes.len() >= 3 && bytes[0] == 0xEF && bytes[1] == 0xBB && bytes[2]
        == 0xBF {
        vstd::slice::slice_subrange(bytes, 3, bytes.len())
    } else {
        bytes
    };
    proof {
        assert(stripped@ =~= bom_stripped(bytes@));
    }
    if crate::textutil::label_matches(encoding, "utf-8") || crate::textutil::label_matches(encoding, "utf8") {
        match crate::textutil::utf8_to_string(stripped) {
            Some(s) => Ok(s),
            None => Err(CoreError::EncodingDecodeError),
        }
    } else if crate::textutil::label_matches(encoding, "windows-1252") || crate::textutil::label_matches(encoding, "cp1252") {
        let (s, had_errors) = decode_windows_1252(stripped);
        if had_errors {
            Err(CoreError::EncodingDecodeError)
        } else {
            Ok(s)
        }
    } else if crate::textutil::label_matches(encoding, "iso-8859-1") || crate::textutil::label_matches(encoding, "iso-8859-15")
        || crate::textutil::label_matches(encoding, "latin1") || crate::textutil::label_matches(encoding, "latin9") {
        let (s, had_errors) = decode_latin9(stripped);
        if had_errors {
            Err(CoreError::EncodingDecodeError)
        } else {
            Ok(s)
        }
    } else {
        Ok(decode_utf8_lossy(stripped))
    }
}

/// Index of the first newline in a character sequence, or -1 when there is
/// none.
pub open spec fn first_nl(s: Seq<char>) -> int
    decreases s.len(),
{
    if s.len() == 0 {
        -1
    } else if s[0] == '\n' {
        0
    } else {
        let r = first_nl(s.drop_first());
        if r < 0 {
            -1
        } else {
            r + 1
        }
    }
}

/// `first_nl` points at the first newline: everything before it is not a
/// newline, and a negative result means there is none at all.
pub proof fn lemma_first_nl(s: Seq<char>)
    ensures
        -1 <= first_nl(s) < s.len(),
        first_nl(s) >= 0 ==> s[first_nl(s)] == '\n',
        forall|k: int| 0 <= k < s.len() && (first_nl(s) < 0 || k < first_nl(s)) ==> s[k] != '\n',
    decreases s.len(),
{
    if s.len() > 0 && s[0] != '\n' {
        lemma_first_nl(s.drop_first());
        assert(forall|k: int| 1 <= k < s.len() ==> s[k] == s.drop_first()[k - 1]);
    }
}

/// The index `first_nl` owes when the first `j` characters are known to
/// hold no newline and position `j` is a newline or the end.
pub proof fn lemma_first_nl_at(s: Seq<char>, j: int)
    requires
        0 <= j <= s.len(),
        forall|k: int| 0 <= k < j ==> s[k] != '\n',
        j == s.len() || s[j] == '\n',
    ensures
        first_nl(s) == if j == s.len() {
            -1
        } else {
            j
        },
    decreases j,
{
    if j == 0 {
        if s.len() > 0 && s[0] != '\n' {
            lemma_first_nl(s);
        }
    } else {
        assert(s[0] != '\n');
        lemma_first_nl_at(s.drop_first(), j - 1);
        assert(forall|k: int| 0 <= k < j - 1 ==> s.drop_first()[k] == s[k + 1]);
    }
}

/// One trailing carriage return removed, as a newline terminator absorbs
/// it.
pub open spec fn strip_cr(s: Seq<char>) -> Seq<char> {
    if s.len() > 0 && s.last() == '\r' {
        s.drop_last()
    } else {
        s
    }
}

/// The newline-delimited segments of a character sequence: split at each
/// newline, a carriage return directly before a newline absorbed into the
/// terminator, the final segment taken verbatim.
pub open spec fn raw_segments(s: Seq<char>) -> Seq<Seq<char>>
    decreases s.len(),
{
    let i = first_nl(s);
    if 0 <= i && i < s.len() {
        seq![strip_cr(s.take(i))] + raw_segments(s.skip(i + 1))
    } else {
        seq![s]
    }
}

/// The lines of a text, as a line-based reader returns them: the segments,
/// except that one final empty segment after a terminating newline is not a
/// line of its own.
pub open spec fn lines_spec(s: Seq<char>) -> Seq<Seq<char>> {
    if s.len() == 0 {
        seq![]
    } else if s.last() == '\n' {
        raw_segments(s).drop_last()
    } else {
        raw_segments(s)
    }
}

/// Lines rejoined with a single newline between each pair.
pub open spec fn join_lines(ls: Seq<Seq<char>>) -> Seq<char>
    decreases ls.len(),
{
    if ls.len() == 0 {
        seq![]
    } else if ls.len() == 1 {
        ls[0]
    } else {
        ls[0] + seq!['\n'] + join_lines(ls.drop_first())
    }
}

/// The text a preview owes: at most the first `n` lines, in their original
/// order, rejoined with newlines.
pub open spec fn preview_spec(s: Seq<char>, n: int) -> Seq<char> {
    let ls = lines_spec(s);
    if n <= ls.len() {
        join_lines(ls.take(n))
    } else {
        join_lines(ls)
    }
}

/// How many newline characters a sequence holds.
pub open spec fn count_nl(s: Seq<char>) -> int
    decreases s.len(),
{
    if s.len() == 0 {
        0
    } else {
        count_nl(s.drop_last()) + if s.last() == '\n' {
            1int
        } else {
            0int
        }
    }
}

proof fn lemma_count_nl_concat(a: Seq<char>, b: Seq<char>)
    ensures
        count_nl(a + b) == count_nl(a) + count_nl(b),
    decreases b.len(),
{
    if b.len() == 0 {
        assert(a + b =~= a);
    } else {
        lemma_count_nl_concat(a, b.drop_last());
        assert((a + b).drop_last() =~= a + b.drop_last());
        assert((a + b).last() == b.last());
    }
}

proof fn lemma_count_nl_zero(s: Seq<char>)
    requires
        forall|k: int| 0 <= k < s.len() ==> s[k] != '\n',
    ensures
        count_nl(s) == 0,
    decreases s.len(),
{
    if s.len() > 0 {
        lemma_count_nl_zero(s.drop_last());
    }
}

/// No segment that the newline split produces contains a newline.
pub proof fn lemma_segments_no_nl(s: Seq<char>)
    ensures
        forall|j: int, k: int|
            0 <= j < raw_segments(s).len() && 0 <= k < raw_segments(s)[j].len()
                ==> raw_segments(s)[j][k] != '\n',
    decreases s.len(),
{
    lemma_first_nl(s);
    let i = first_nl(s);
    if 0 <= i && i < s.len() {
        lemma_segments_no_nl(s.skip(i + 1));
        assert(forall|k: int| 0 <= k < strip_cr(s.take(i)).len() ==> strip_cr(s.take(i))[k]
            == s[k]);
        assert(forall|j: int|
            1 <= j < raw_segments(s).len() ==> raw_segments(s)[j] == raw_segments(s.skip(i + 1))[j
                - 1]);
    }
}

proof fn lemma_join_count(ls: Seq<Seq<char>>)
    requires
        ls.len() >= 1,
        forall|j: int, k: int| 0 <= j < ls.len() && 0 <= k < ls[j].len() ==> ls[j][k] != '\n',
    ensures
        count_nl(join_lines(ls)) == ls.len() - 1,
    decreases ls.len(),
{
    if ls.len() == 1 {
        lemma_count_nl_zero(ls[0]);
    } else {
        lemma_join_count(ls.drop_first());
        lemma_count_nl_zero(ls[0]);
        lemma_count_nl_concat(ls[0], seq!['\n']);
        lemma_count_nl_concat(ls[0] + seq!['\n'], join_lines(ls.drop_first()));
        assert(count_nl(seq!['\n']) == 1) by {
            let one = seq!['\n'];
            assert(one.len() == 1);
            assert(one.last() == '\n');
            assert(one.drop_last() =~= Seq::<char>::empty());
            assert(count_nl(one.drop_last()) == 0);
        }
    }
}

/// Preview boundedness: asking for `n` lines of a text that has at least
/// `n` returns exactly those `n` lines — the result is their join in
/// original order and holds exactly `n - 1` newline separators.
pub proof fn lemma_preview_bounded(s: Seq<char>, n: int)
    requires
        1 <= n <= lines_spec(s).len(),
    ensures
        preview_spec(s, n) == join_lines(lines_spec(s).take(n)),
        count_nl(preview_spec(s, n)) == n - 1,
{
    let ls = lines_spec(s);
    lemma_segments_no_nl(s);
    assert(forall|j: int| 0 <= j < ls.len() ==> ls[j] == raw_segments(s)[j]);
    assert(forall|j: int, k: int|
        0 <= j < ls.take(n).len() && 0 <= k < ls.take(n)[j].len() ==> ls.take(n)[j][k] != '\n');
    lemma_join_count(ls.take(n));
}

/// The lines of a text, one owned string per line.
pub fn split_lines(content: &str) -> (r: Vec<String>)
    ensures
        r.deep_view() == lines_spec(content@),
{
    let ghost s = content@;
    let n = content.unicode_len();
    let mut out: Vec<String> = Vec::new();
    let mut start: usize = 0;
    let mut i: usize = 0;
    proof {
        assert(out.deep_view() =~= Seq::<Seq<char>>::empty());
        assert(s.skip(0) =~= s);
    }
    while i < n
        invariant
            0 <= start <= i <= n,
            n == s.len(),
            content@ == s,
            start > 0 ==> s[start - 1] == '\n',
            forall|k: int| start <= k < i ==> s[k] != '\n',
            raw_segments(s) =~= out.deep_view() + raw_segments(s.skip(start as int)),
        decreases n - i,
    {
        if content.get_char(i) == '\n' {
            let end: usize = if i > start && content.get_char(i - 1) == '\r' {
                i - 1
            } else {
                i
            };
            let line = content.substring_char(start, end).to_owned();
            let ghost old_out = out.deep_view();
            out.push(line);
            proof {
                assert(out.deep_view() =~= old_out.push(s.subrange(start as int, end as int)));
                let rest = s.skip(start as int);
                lemma_first_nl_at(rest, i - start);
                assert(first_nl(rest) == i - start);
                assert(rest.take(i - start) =~= s.subrange(start as int, i as int));
                assert(strip_cr(s.subrange(start as int, i as int)) =~= s.subrange(
                    start as int,
                    end as int,
                ));
                assert(rest.skip(i - start + 1) =~= s.skip(i + 1));
                assert(raw_segments(rest) =~= seq![s.subrange(start as int, end as int)]
                    + raw_segments(s.skip(i + 1)));
                assert(raw_segments(s) =~= out.deep_view() + raw_segments(s.skip(i + 1)));
            }
            start = i + 1;
        }
        i = i + 1;
    }
    proof {
        let rest = s.skip(start as int);
        lemma_first_nl_at(rest, n - start);
        assert(first_nl(rest) < 0);
        assert(raw_segments(rest) =~= seq![rest]);
        assert(raw_segments(s) =~= out.deep_view().push(rest));
    }
    if start < n {
        let line = content.substring_char(start, n).to_owned();
        let ghost old_out = out.deep_view();
        out.push(line);
        proof {
            assert(s.last() != '\n');
            assert(out.deep_view() =~= old_out.push(s.skip(start as int)));
            assert(out.deep_view() =~= lines_spec(s));
        }
    } else {
        proof {
            if s.len() > 0 {
                assert(s[start - 1] == '\n');
                assert(s.last() == '\n');
                assert(s.skip(start as int) =~= Seq::<char>::empty());
                assert(lines_spec(s) =~= raw_segments(s).drop_last());
                assert(out.deep_view() =~= raw_segments(s).drop_last());
            } else {
                assert(s.skip(start as int) =~= s);
                assert(out.deep_view().len() == 0);
                assert(out.deep_view() =~= lines_spec(s));
            }
        }
    }
    out
}

proof fn lemma_join_lines_snoc(ls: Seq<Seq<char>>, i: int)
    requires
        1 <= i < ls.len(),
    ensures
        join_lines(ls.take(i + 1)) == join_lines(ls.take(i)) + seq!['\n'] + ls[i],
    decreases i,
{
    if i == 1 {
        assert(ls.take(2).drop_first() =~= seq![ls[1]]);
        assert(ls.take(2)[0] == ls[0]);
        assert(join_lines(seq![ls[1]]) == seq![ls[1]][0]);
        assert(seq![ls[1]][0] == ls[1]);
        assert(join_lines(ls.take(2)) =~= ls[0] + seq!['\n'] + ls[1]);
        assert(ls.take(1) =~= seq![ls[0]]);
        assert(join_lines(ls.take(1)) == ls[0]);
    } else {
        lemma_join_lines_snoc(ls.drop_first(), i - 1);
        assert(ls.take(i + 1).drop_first() =~= ls.drop_first().take(i));
        assert(ls.take(i).drop_first() =~= ls.drop_first().take(i - 1));
        assert(ls.drop_first()[i - 1] == ls[i]);
        assert(join_lines(ls.take(i + 1)) == ls[0] + seq!['\n'] + join_lines(
            ls.drop_first().take(i),
        ));
        assert(join_lines(ls.take(i)) == ls[0] + seq!['\n'] + join_lines(
            ls.drop_first().take(i - 1),
        ));
        assert(join_lines(ls.take(i + 1)) =~= join_lines(ls.take(i)) + seq!['\n'] + ls[i]);
    }
}

/// At most the first `max_lines` of the given lines, rejoined with
/// newlines.
pub fn join_first_lines(lines: &Vec<String>, max_lines: usize) -> (r: String)
    ensures
        r@ == (if max_lines <= lines.deep_view().len() {
            join_lines(lines.deep_view().take(max_lines as int))
        } else {
            join_lines(lines.deep_view())
        }),
{
    let ghost ls = lines.deep_view();
    let k: usize = if max_lines <= lines.len() {
        max_lines
    } else {
        lines.len()
    };
    proof {
        assert(ls.take(ls.len() as int) =~= ls);
    }
    if k == 0 {
        proof {
            assert(ls.take(0) =~= Seq::<Seq<char>>::empty());
        }
        return String::new();
    }
    let mut out: String = lines[0].clone();
    proof {
        assert(ls.take(1) =~= seq![ls[0]]);
    }
    let mut i: usize = 1;
    while i < k
        invariant
            1 <= i <= k <= lines@.len(),
            ls == lines.deep_view(),
            out@ == join_lines(ls.take(i as int)),
        decreases k - i,
    {
        proof {
            lemma_join_lines_snoc(ls, i as int);
            reveal_strlit("\n");
        }
        out.append("\n");
        proof {
            assert("\n"@ =~= seq!['\n']);
        }
        let line: &String = &lines[i];
        out.append(line.as_str());
        proof {
            assert(lines@[i as int]@ == ls[i as int]);
            assert(out@ =~= join_lines(ls.take(i as int)) + seq!['\n'] + ls[i as int]);
        }
        i = i + 1;
    }
    out
}

/// Decode a byte sequence under a requested encoding tag and keep at most
/// the first `max_lines` newline-delimited lines, rejoined with newlines in
/// their original order.
pub fn preview(bytes: &[u8], encoding: &str, max_lines: usize) -> (r: Result<String, CoreError>)
    ensures
        r is Ok <==> decode_outcome(bytes@, encoding@) is Some,
        r matches Ok(o) ==> o@ == preview_spec(
            decode_outcome(bytes@, encoding@)->Some_0,
            max_lines as int,
        ),
        r is Err ==> r == Err::<String, CoreError>(CoreError::EncodingDecodeError),
{
    let content = match decode_bytes(bytes, encoding) {
        Ok(s) => s,
        Err(e) => {
            return Err(e);
        },
    };
    let lines = split_lines(content.as_str());
    Ok(join_first_lines(&lines, max_lines))
}

} // verus!
