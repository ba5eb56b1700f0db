//! File contents as text: the base64 encoding of RFC 4648 with the standard
//! alphabet and padding.

use vstd::prelude::*;

use crate::escape::is_markup;

verus! {

/// The character that stands for a value of six bits.
pub open spec fn base64_char(value: int) -> char {
    if value < 26 {
        ('A' as int + value) as char
    } else if value < 52 {
        ('a' as int + value - 26) as char
    } else if value < 62 {
        ('0' as int + value - 52) as char
    } else if value == 62 {
        '+'
    } else {
        '/'
    }
}

/// The byte at `i`, or 0 beyond the end.
pub open spec fn byte_or_zero(bytes: Seq<u8>, i: int) -> int {
    if 0 <= i < bytes.len() {
        bytes[i] as int
    } else {
        0
    }
}

/// The three bytes from `3 * k` on as one number of 24 bits.
pub open spec fn triple(bytes: Seq<u8>, k: int) -> int {
    byte_or_zero(bytes, 3 * k) * 0x10000 + byte_or_zero(bytes, 3 * k + 1) * 0x100 + byte_or_zero(
        bytes,
        3 * k + 2,
    )
}

/// The `i`-th group of six bits.
pub open spec fn sextet(bytes: Seq<u8>, i: int) -> int {
    let bits = triple(bytes, i / 4);
    if i % 4 == 0 {
        bits / 0x40000
    } else if i % 4 == 1 {
        bits / 0x1000 % 0x40
    } else if i % 4 == 2 {
        bits / 0x40 % 0x40
    } else {
        bits % 0x40
    }
}

/// The number of characters that stand for `len` bytes.
pub open spec fn base64_len(len: nat) -> nat {
    (len + 2) / 3 * 4
}

/// The base64 text of `bytes`: one character for each group of six bits that
/// begins within the bytes, and `=` up to a multiple of four.
pub open spec fn base64_text(bytes: Seq<u8>) -> Seq<char> {
    Seq::new(
        base64_len(bytes.len()),
        |i: int|
            if 6 * i < 8 * bytes.len() {
                base64_char(sextet(bytes, i))
            } else {
                '='
            },
    )
}

/// The value of six bits that `c` stands for; padding stands for 0.
pub open spec fn base64_value(c: char) -> int {
    if 'A' <= c <= 'Z' {
        c as int - 'A' as int
    } else if 'a' <= c <= 'z' {
        c as int - 'a' as int + 26
    } else if '0' <= c <= '9' {
        c as int - '0' as int + 52
    } else if c == '+' {
        62
    } else if c == '/' {
        63
    } else {
        0
    }
}

/// The `k`-th four characters as one number of 24 bits.
pub open spec fn quadruple(text: Seq<char>, k: int) -> int {
    base64_value(text[4 * k]) * 0x40000 + base64_value(text[4 * k + 1]) * 0x1000 + base64_value(
        text[4 * k + 2],
    ) * 0x40 + base64_value(text[4 * k + 3])
}

/// The number of bytes that `text` stands for.
pub open spec fn decoded_len(text: Seq<char>) -> int {
    let whole = text.len() / 4 * 3;
    if text.len() < 4 {
        0
    } else if text[text.len() - 2] == '=' {
        whole - 2
    } else if text[text.len() - 1] == '=' {
        whole - 1
    } else {
        whole as int
    }
}

/// The bytes that `text` stands for.
#[verifier::opaque]
pub open spec fn base64_bytes(text: Seq<char>) -> Seq<u8> {
    Seq::new(
        decoded_len(text) as nat,
        |j: int|
            {
                let bits = quadruple(text, j / 3);
                if j % 3 == 0 {
                    (bits / 0x10000) as u8
                } else if j % 3 == 1 {
                    (bits / 0x100 % 0x100) as u8
                } else {
                    (bits % 0x100) as u8
                }
            },
    )
}

proof fn lemma_char_value(value: int)
    requires
        0 <= value < 64,
    ensures
        base64_value(base64_char(value)) == value,
        base64_char(value) != '=',
        !is_markup(base64_char(value)),
{
}

proof fn lemma_sextet_bounds(bytes: Seq<u8>, i: int)
    requires
        0 <= i,
    ensures
        0 <= sextet(bytes, i) < 64,
        6 * i >= 8 * bytes.len() ==> sextet(bytes, i) == 0,
{
    let k = i / 4;
    assert(0 <= byte_or_zero(bytes, 3 * k) < 0x100);
    assert(0 <= byte_or_zero(bytes, 3 * k + 1) < 0x100);
    assert(0 <= byte_or_zero(bytes, 3 * k + 2) < 0x100);
}

/// Four groups of six bits hold the 24 bits that they were cut from.
proof fn lemma_bits_recompose(bits: int)
    requires
        0 <= bits < 0x1000000,
    ensures
        bits == (bits / 0x40000) * 0x40000 + (bits / 0x1000 % 0x40) * 0x1000 + (bits / 0x40 % 0x40)
            * 0x40 + bits % 0x40,
{
}

/// Three bytes can be cut from the 24 bits that they form.
proof fn lemma_bytes_recompose(a: int, b: int, c: int)
    requires
        0 <= a < 0x100,
        0 <= b < 0x100,
        0 <= c < 0x100,
    ensures
        ({
            let bits = a * 0x10000 + b * 0x100 + c;
            &&& bits / 0x10000 == a
            &&& bits / 0x100 % 0x100 == b
            &&& bits % 0x100 == c
        }),
{
}

/// Each character of the text gives back its six bits, and padding marks the
/// characters beyond the last byte.
proof fn lemma_text_values(bytes: Seq<u8>, i: int)
    requires
        0 <= i < base64_len(bytes.len()),
    ensures
        base64_value(base64_text(bytes)[i]) == sextet(bytes, i),
        base64_text(bytes)[i] == '=' <==> 6 * i >= 8 * bytes.len(),
{
    lemma_sextet_bounds(bytes, i);
    lemma_char_value(sextet(bytes, i));
}

proof fn lemma_decoded_len(bytes: Seq<u8>)
    ensures
        decoded_len(base64_text(bytes)) == bytes.len(),
{
    let len = base64_len(bytes.len()) as int;
    if bytes.len() > 0 {
        lemma_text_values(bytes, len - 1);
        lemma_text_values(bytes, len - 2);
    }
}

proof fn lemma_quadruple_is_triple(bytes: Seq<u8>, k: int)
    requires
        0 <= k,
        3 * k < bytes.len(),
    ensures
        quadruple(base64_text(bytes), k) == triple(bytes, k),
{
    assert(4 * k + 3 < base64_len(bytes.len()));
    lemma_text_values(bytes, 4 * k);
    lemma_text_values(bytes, 4 * k + 1);
    lemma_text_values(bytes, 4 * k + 2);
    lemma_text_values(bytes, 4 * k + 3);
    assert((4 * k) / 4 == k && (4 * k) % 4 == 0);
    assert((4 * k + 1) / 4 == k && (4 * k + 1) % 4 == 1);
    assert((4 * k + 2) / 4 == k && (4 * k + 2) % 4 == 2);
    assert((4 * k + 3) / 4 == k && (4 * k + 3) % 4 == 3);
    lemma_bits_recompose(triple(bytes, k));
}

/// Decoding the text of some bytes gives those bytes back.
pub proof fn lemma_base64_round_trip(bytes: Seq<u8>)
    ensures
        base64_bytes(base64_text(bytes)) == bytes,
{
    reveal(base64_bytes);
    let text = base64_text(bytes);
    lemma_decoded_len(bytes);
    assert forall|j: int| 0 <= j < bytes.len() implies base64_bytes(text)[j] == bytes[j] by {
        let k = j / 3;
        lemma_quadruple_is_triple(bytes, k);
        lemma_bytes_recompose(
            byte_or_zero(bytes, 3 * k),
            byte_or_zero(bytes, 3 * k + 1),
            byte_or_zero(bytes, 3 * k + 2),
        );
    }
    assert(base64_bytes(text) =~= bytes);
}

/// Different bytes have different texts.
pub proof fn lemma_base64_is_injective(a: Seq<u8>, b: Seq<u8>)
    requires
        base64_text(a) == base64_text(b),
    ensures
        a == b,
{
    lemma_base64_round_trip(a);
    lemma_base64_round_trip(b);
}

/// The text can be placed in a quoted attribute value as it is.
pub proof fn lemma_base64_has_no_markup(bytes: Seq<u8>)
    ensures
        forall|i: int|
            0 <= i < base64_text(bytes).len() ==> !is_markup(#[trigger] base64_text(bytes)[i])
                && base64_text(bytes)[i] != '&',
{
    assert forall|i: int| 0 <= i < base64_text(bytes).len() implies !is_markup(
        #[trigger] base64_text(bytes)[i],
    ) && base64_text(bytes)[i] != '&' by {
        lemma_sextet_bounds(bytes, i);
        lemma_char_value(sextet(bytes, i));
    }
}

/// `base64::Engine::encode` of `base64::engine::general_purpose::STANDARD`:
/// returns the base64 text of `bytes`. It panics where that text would be
/// longer than an allocation can be, so the length is bounded.
#[verifier::external_body]
pub(crate) fn encode_base64(bytes: &[u8]) -> (text: String)
    requires
        base64_len(bytes@.len()) <= isize::MAX,
    ensures
        text@ == base64_text(bytes@),
{
    base64::Engine::encode(&base64::engine::general_purpose::STANDARD, bytes)
}

/// Six bits stand for the letter at their value in the alphabet.
pub proof fn lemma_standard_alphabet(value: int)
    requires
        0 <= value < 64,
    ensures
        base64_char(value)
            == "ABCDEFGHIJKLMNOPQRSTUVWXYZabcdefghijklmnopqrstuvwxyz0123456789+/"@[value],
        base64_value(
            "ABCDEFGHIJKLMNOPQRSTUVWXYZabcdefghijklmnopqrstuvwxyz0123456789+/"@[value],
        ) == value,
{
    reveal_strlit("ABCDEFGHIJKLMNOPQRSTUVWXYZabcdefghijklmnopqrstuvwxyz0123456789+/");
    lemma_char_value(value);
}

/// Three bytes are four letters of six bits each, the highest bits first.
pub proof fn lemma_three_bytes_are_four_letters(bytes: Seq<u8>, k: int)
    requires
        0 <= k,
        3 * k + 3 <= bytes.len(),
    ensures
        ({
            let text = base64_text(bytes);
            &&& 4 * k + 4 <= text.len()
            &&& base64_value(text[4 * k]) * 262144 + base64_value(text[4 * k + 1]) * 4096
                + base64_value(text[4 * k + 2]) * 64 + base64_value(text[4 * k + 3]) == bytes[3 * k]
                * 65536 + bytes[3 * k + 1] * 256 + bytes[3 * k + 2]
        }),
{
    lemma_quadruple_is_triple(bytes, k);
}

/// The text is as long as it takes for four letters in place of every three bytes, the
/// last of which may be less; one `=` stands for each byte that is missing there.
pub proof fn lemma_text_is_padded(bytes: Seq<u8>, i: int)
    requires
        0 <= i < base64_text(bytes).len(),
    ensures
        base64_text(bytes).len() % 4 == 0,
        3 * base64_text(bytes).len() >= 4 * bytes.len(),
        3 * base64_text(bytes).len() <= 4 * bytes.len() + 8,
        base64_text(bytes)[i] == '=' <==> i >= base64_text(bytes).len() - (
        base64_text(bytes).len() / 4 * 3 - bytes.len()),
{
    lemma_sextet_bounds(bytes, i);
    lemma_char_value(sextet(bytes, i));
}

} // verus!
