//! Text helpers shared by the codec and the resolver: ASCII byte/character
//! bridging, hexadecimal rendering and decimal rendering of counters.
use vstd::prelude::*;

verus! {

/// The character standing for one ASCII byte.
pub open spec fn ascii_char(b: u8) -> char {
    b as char
}

/// A byte sequence read as ASCII characters, one character per byte.
pub open spec fn ascii_chars(bytes: Seq<u8>) -> Seq<char> {
    bytes.map(|_i: int, b: u8| ascii_char(b))
}

/// The lower-case hexadecimal digit for a value below sixteen.
pub open spec fn hex_digit(n: u8) -> char
    recommends
        n < 16,
{
    if n == 0 {
        '0'
    } else if n == 1 {
        '1'
    } else if n == 2 {
        '2'
    } else if n == 3 {
        '3'
    } else if n == 4 {
        '4'
    } else if n == 5 {
        '5'
    } else if n == 6 {
        '6'
    } else if n == 7 {
        '7'
    } else if n == 8 {
        '8'
    } else if n == 9 {
        '9'
    } else if n == 10 {
        'a'
    } else if n == 11 {
        'b'
    } else if n == 12 {
        'c'
    } else if n == 13 {
        'd'
    } else if n == 14 {
        'e'
    } else {
        'f'
    }
}

/// The lower-case hexadecimal rendering of a byte sequence, two digits per
/// byte, most significant digit first.
pub open spec fn hex_chars(bytes: Seq<u8>) -> Seq<char>
    decreases bytes.len(),
{
    if bytes.len() == 0 {
        seq![]
    } else {
        seq![hex_digit(bytes[0] / 16), hex_digit(bytes[0] % 16)] + hex_chars(bytes.drop_first())
    }
}

/// Length of the hexadecimal rendering: two characters per byte.
pub proof fn lemma_hex_chars_len(bytes: Seq<u8>)
    ensures
        hex_chars(bytes).len() == 2 * bytes.len(),
    decreases bytes.len(),
{
    if bytes.len() > 0 {
        lemma_hex_chars_len(bytes.drop_first());
    }
}

fn hex_digit_exec(n: u8) -> (c: u8)
    requires
        n < 16,
    ensures
        ascii_char(c) == hex_digit(n),
        c < 0x80,
{
    if n < 10 {
        0x30 + n
    } else {
        0x61 + (n - 10)
    }
}

/// Lower-case hexadecimal rendering of a byte slice, two digits per byte.
pub fn hex_encode(bytes: &[u8]) -> (r: String)
    ensures
        r@ == hex_chars(bytes@),
{
    let mut out: Vec<u8> = Vec::new();
    let n = bytes.len();
    let mut i: usize = 0;
    while i < n
        invariant
            i <= n,
            n == bytes@.len(),
            out@.len() == 2 * i,
            ascii_chars(out@) == hex_chars(bytes@.take(i as int)),
            forall|k: int| 0 <= k < out@.len() ==> out@[k] < 0x80,
        decreases n - i,
    {
        let b = bytes[i];
        let hi = hex_digit_exec(b / 16);
        let lo = hex_digit_exec(b % 16);
        out.push(hi);
        out.push(lo);
        proof {
            lemma_hex_chars_snoc(bytes@, i as int);
            assert(ascii_chars(out@) =~= hex_chars(bytes@.take(i as int))
                + seq![hex_digit(b / 16), hex_digit(b % 16)]);
        }
        i = i + 1;
    }
    proof {
        assert(bytes@.take(n as int) =~= bytes@);
    }
    ascii_to_string(&out)
}

proof fn lemma_hex_chars_snoc(bytes: Seq<u8>, i: int)
    requires
        0 <= i < bytes.len(),
    ensures
        hex_chars(bytes.take(i + 1)) == hex_chars(bytes.take(i)) + seq![
            hex_digit(bytes[i] / 16),
            hex_digit(bytes[i] % 16),
        ],
    decreases i,
{
    if i == 0 {
        let t = bytes.take(1);
        assert(t =~= seq![bytes[0]]);
        assert(t[0] == bytes[0]);
        assert(t.drop_first() =~= Seq::<u8>::empty());
        assert(hex_chars(t.drop_first()) =~= Seq::<char>::empty());
        assert(bytes.take(0) =~= Seq::<u8>::empty());
        assert(hex_chars(bytes.take(0)) =~= Seq::<char>::empty());
        assert(hex_chars(t) =~= seq![
            hex_digit(bytes[0] / 16),
            hex_digit(bytes[0] % 16),
        ]);
    } else {
        lemma_hex_chars_snoc(bytes.drop_first(), i - 1);
        assert(bytes.take(i + 1).drop_first() =~= bytes.drop_first().take(i));
        assert(bytes.take(i).drop_first() =~= bytes.drop_first().take(i - 1));
        assert(bytes.drop_first()[i - 1] == bytes[i]);
        assert(hex_chars(bytes.take(i + 1)) == seq![
            hex_digit(bytes.take(i + 1)[0] / 16),
            hex_digit(bytes.take(i + 1)[0] % 16),
        ] + hex_chars(bytes.drop_first().take(i)));
        assert(hex_chars(bytes.take(i)) == seq![
            hex_digit(bytes.take(i)[0] / 16),
            hex_digit(bytes.take(i)[0] % 16),
        ] + hex_chars(bytes.drop_first().take(i - 1)));
        assert(hex_chars(bytes.take(i + 1)) =~= hex_chars(bytes.take(i)) + seq![
            hex_digit(bytes[i] / 16),
            hex_digit(bytes[i] % 16),
        ]);
    }
}

/// The ASCII digit bytes of a number rendered in decimal, most significant
/// first, with no leading zeros except for zero itself.
pub open spec fn dec_digits(n: nat) -> Seq<u8>
    decreases n,
{
    if n < 10 {
        seq![(0x30 + n) as u8]
    } else {
        dec_digits(n / 10) + seq![(0x30 + n % 10) as u8]
    }
}

/// The decimal rendering of a number, as characters.
pub open spec fn dec_chars(n: nat) -> Seq<char> {
    ascii_chars(dec_digits(n))
}

/// Every decimal digit byte is an ASCII digit.
pub proof fn lemma_dec_digits_ascii(n: nat)
    ensures
        dec_digits(n).len() >= 1,
        forall|k: int| 0 <= k < dec_digits(n).len() ==> 0x30 <= #[trigger] dec_digits(n)[k]
            <= 0x39,
    decreases n,
{
    if n >= 10 {
        lemma_dec_digits_ascii(n / 10);
    }
}

fn push_dec(n: u64, out: &mut Vec<u8>)
    ensures
        final(out)@ == old(out)@ + dec_digits(n as nat),
    decreases n,
{
    if n < 10 {
        out.push(0x30 + n as u8);
        proof {
            assert(out@ =~= old(out)@ + dec_digits(n as nat));
        }
    } else {
        push_dec(n / 10, out);
        out.push(0x30 + (n % 10) as u8);
        proof {
            assert(out@ =~= old(out)@ + dec_digits(n as nat));
        }
    }
}

/// The decimal rendering of a counter, such as a timestamp in seconds.
pub fn u64_to_string(n: u64) -> (r: String)
    ensures
        r@ == dec_chars(n as nat),
{
    let mut digits: Vec<u8> = Vec::new();
    push_dec(n, &mut digits);
    proof {
        lemma_dec_digits_ascii(n as nat);
        assert(digits@ =~= dec_digits(n as nat));
    }
    ascii_to_string(&digits)
}

/// True when two strings read the same, character for character.
pub fn str_eq(a: &str, b: &str) -> (r: bool)
    ensures
        r == (a@ == b@),
{
    let n = a.unicode_len();
    if n != b.unicode_len() {
        return false;
    }
    let mut i: usize = 0;
    while i < n
        invariant
            i <= n,
            n == a@.len(),
            n == b@.len(),
            forall|k: int| 0 <= k < i ==> a@[k] == b@[k],
        decreases n - i,
    {
        if a.get_char(i) != b.get_char(i) {
            return false;
        }
        i = i + 1;
    }
    proof {
        assert(a@ =~= b@);
    }
    true
}

/// One character lowered ASCII-wise: `A` through `Z` to their lower-case
/// forms, everything else unchanged.
pub open spec fn ascii_lower(c: char) -> char {
    if 65 <= c as u32 && c as u32 <= 90 {
        (((c as u32) + 32) as u8) as char
    } else {
        c
    }
}

/// A label lowered ASCII-wise, character by character.
pub open spec fn ascii_lower_chars(t: Seq<char>) -> Seq<char> {
    t.map(|_i: int, c: char| ascii_lower(c))
}

fn ascii_lower_exec(c: char) -> (r: char)
    ensures
        r == ascii_lower(c),
{
    let u = c as u32;
    if 65 <= u && u <= 90 {
        ((u + 32) as u8) as char
    } else {
        c
    }
}

/// True when the label, lowered ASCII-wise, reads exactly as `lit`.
pub fn label_matches(label: &str, lit: &str) -> (r: bool)
    ensures
        r == (ascii_lower_chars(label@) == lit@),
{
    let n = label.unicode_len();
    if n != lit.unicode_len() {
        proof {
            assert(ascii_lower_chars(label@).len() == label@.len());
            assert(ascii_lower_chars(label@) != lit@);
        }
        return false;
    }
    let mut i: usize = 0;
    while i < n
        invariant
            i <= n,
            n == label@.len(),
            n == lit@.len(),
            forall|k: int| 0 <= k < i ==> ascii_lower(label@[k]) == lit@[k],
        decreases n - i,
    {
        let c = label.get_char(i);
        let l = lit.get_char(i);
        if ascii_lower_exec(c) != l {
            proof {
                assert(ascii_lower_chars(label@)[i as int] != lit@[i as int]);
            }
            return false;
        }
        i = i + 1;
    }
    proof {
        assert(ascii_lower_chars(label@) =~= lit@);
    }
    true
}

fn is_continuation(b: u8) -> (r: bool)
    ensures
        r == vstd::utf8::is_continuation_byte(b),
{
    0x80 <= b && b <= 0xbf
}

/// Whether a byte slice is a valid UTF-8 encoding: a verified
/// implementation of the standard validity check, stated against the UTF-8
/// model of the proof library.
pub fn utf8_is_valid(bytes: &[u8]) -> (r: bool)
    ensures
        r == vstd::utf8::valid_utf8(bytes@),
{
    let n = bytes.len();
    let mut i: usize = 0;
    proof {
        assert(bytes@.subrange(0, 0) =~= Seq::<u8>::empty());
    }
    while i < n
        invariant
            i <= n,
            n == bytes@.len(),
            vstd::utf8::partial_valid_utf8(bytes@, i as int),
        decreases n - i,
    {
        let ghost suffix = bytes@.subrange(i as int, n as int);
        proof {
            assert(forall|k: int| 0 <= k < suffix.len() ==> suffix[k] == bytes@[i + k]);
        }
        let b0 = bytes[i];
        let width: usize;
        let cp: u32;
        if b0 <= 0x7f {
            width = 1;
            cp = b0 as u32;
            proof {
                assert(vstd::utf8::leading_bits_width_1(b0) == (b0 & 0x7f) as u32);
                assert(b0 & 0x7f == b0) by (bit_vector)
                    requires
                        b0 <= 0x7f,
                ;
            }
        } else if 0xc0 <= b0 && b0 <= 0xdf {
            if n - i < 2 || !is_continuation(bytes[i + 1]) {
                proof {
                    assert(!vstd::utf8::valid_leading_and_continuation_bytes_first_codepoint(
                        suffix,
                    ));
                    vstd::utf8::partial_valid_partial_invalid_utf8(bytes@, i as int);
                }
                return false;
            }
            let b1 = bytes[i + 1];
            width = 2;
            cp = (((b0 & 0x1f) as u32) << 6u32) | ((b1 & 0x3f) as u32);
            proof {
                let c = cp;
                assert(c <= 0x7ff) by (bit_vector)
                    requires
                        c == (((b0 & 0x1f) as u32) << 6u32) | ((b1 & 0x3f) as u32),
                ;
            }
        } else if 0xe0 <= b0 && b0 <= 0xef {
            if n - i < 3 || !is_continuation(bytes[i + 1]) || !is_continuation(bytes[i + 2]) {
                proof {
                    assert(!vstd::utf8::valid_leading_and_continuation_bytes_first_codepoint(
                        suffix,
                    ));
                    vstd::utf8::partial_valid_partial_invalid_utf8(bytes@, i as int);
                }
                return false;
            }
            width = 3;
            cp = (((b0 & 0x0f) as u32) << 12u32) | (((bytes[i + 1] & 0x3f) as u32) << 6u32) | ((
            bytes[i + 2] & 0x3f) as u32);
        } else if 0xf0 <= b0 && b0 <= 0xf7 {
            if n - i < 4 || !is_continuation(bytes[i + 1]) || !is_continuation(bytes[i + 2])
                || !is_continuation(bytes[i + 3]) {
                proof {
                    assert(!vstd::utf8::valid_leading_and_continuation_bytes_first_codepoint(
                        suffix,
                    ));
                    vstd::utf8::partial_valid_partial_invalid_utf8(bytes@, i as int);
                }
                return false;
            }
            width = 4;
            cp = (((b0 & 0x07) as u32) << 18u32) | (((bytes[i + 1] & 0x3f) as u32) << 12u32) | (((
            bytes[i + 2] & 0x3f) as u32) << 6u32) | ((bytes[i + 3] & 0x3f) as u32);
        } else {
            proof {
                assert(!vstd::utf8::valid_leading_and_continuation_bytes_first_codepoint(suffix));
                vstd::utf8::partial_valid_partial_invalid_utf8(bytes@, i as int);
            }
            return false;
        }
        proof {
            assert(vstd::utf8::valid_leading_and_continuation_bytes_first_codepoint(suffix));
            assert(vstd::utf8::decode_first_codepoint(suffix) == cp);
            assert(vstd::utf8::length_of_first_codepoint(suffix) == width);
        }
        let overlong_or_surrogate: bool = if width == 2 {
            cp < 0x80
        } else if width == 3 {
            cp < 0x800 || (0xd800 <= cp && cp <= 0xdfff)
        } else if width == 4 {
            cp < 0x10000 || cp > 0x10ffff
        } else {
            false
        };
        if overlong_or_surrogate {
            proof {
                assert(!vstd::utf8::valid_first_scalar(suffix));
                vstd::utf8::partial_valid_partial_invalid_utf8(bytes@, i as int);
            }
            return false;
        }
        proof {
            assert(b0 <= 0x7f ==> cp <= 0x7f);
            assert(vstd::utf8::not_surrogate(cp));
            assert(vstd::utf8::valid_first_scalar(suffix));
            assert(vstd::utf8::length_of_first_scalar(suffix) == width);
            vstd::utf8::partial_valid_utf8_extend(bytes@, i as int);
        }
        i = i + width;
    }
    proof {
        assert(bytes@.subrange(0, n as int) =~= bytes@);
    }
    true
}

/// Relies on `String::from_utf8` (std): it succeeds exactly on valid UTF-8
/// input, and the resulting string's characters are the UTF-8 decoding of
/// that input.
#[verifier::external_body]
pub(crate) fn utf8_to_string(bytes: &[u8]) -> (r: Option<String>)
    ensures
        r is Some <==> vstd::utf8::valid_utf8(bytes@),
        r matches Some(s) ==> s@ == vstd::utf8::decode_utf8(bytes@),
{
    String::from_utf8(bytes.to_vec()).ok()
}

/// A sequence of ASCII bytes is valid UTF-8 and decodes to itself, character
/// for character.
pub proof fn lemma_ascii_decode(bytes: Seq<u8>)
    requires
        forall|k: int| 0 <= k < bytes.len() ==> bytes[k] < 0x80,
    ensures
        vstd::utf8::valid_utf8(bytes),
        vstd::utf8::decode_utf8(bytes) == ascii_chars(bytes),
    decreases bytes.len(),
{
    if bytes.len() == 0 {
        assert(vstd::utf8::decode_utf8(bytes) =~= ascii_chars(bytes));
    } else {
        assert(vstd::utf8::is_leading_byte_width_1(bytes[0]));
        assert(vstd::utf8::length_of_first_scalar(bytes) == 1);
        assert(vstd::utf8::valid_first_scalar(bytes));
        lemma_ascii_decode(bytes.subrange(1, bytes.len() as int));
        assert(vstd::utf8::pop_first_scalar(bytes) == bytes.subrange(1, bytes.len() as int));
        let b0 = bytes[0];
        assert(vstd::utf8::decode_first_scalar(bytes) == (b0 & 0x7f) as u32);
        assert(b0 & 0x7f == b0) by (bit_vector)
            requires
                b0 < 0x80,
        ;
        assert((bytes[0] as u32) as char == bytes[0] as char);
        assert(vstd::utf8::decode_utf8(bytes) =~= ascii_chars(bytes));
    }
}

/// A string made of ASCII bytes, one character per byte.
pub fn ascii_to_string(bytes: &Vec<u8>) -> (r: String)
    requires
        forall|k: int| 0 <= k < bytes@.len() ==> bytes@[k] < 0x80,
    ensures
        r@ == ascii_chars(bytes@),
{
    proof {
        lemma_ascii_decode(bytes@);
    }
    let r = utf8_to_string(bytes.as_slice());
    match r {
        Some(s) => s,
        None => String::new(),
    }
}

} // verus!
