//! Building and reading text.

use vstd::prelude::*;
use vstd::utf8::{continuation_bits, decode_utf8, leading_bits_width_3, pop_first_scalar, valid_utf8};

verus! {

/// `String::push`: appends `c` to `text`.
pub assume_specification[ String::push ](text: &mut String, c: char)
    ensures
        final(text)@ == old(text)@.push(c),
;

/// The characters with the Unicode property `White_Space`.
pub open spec fn is_white_space(c: char) -> bool {
    ||| '\u{9}' <= c <= '\u{d}'
    ||| c == ' '
    ||| c == '\u{85}'
    ||| c == '\u{a0}'
    ||| c == '\u{1680}'
    ||| '\u{2000}' <= c <= '\u{200a}'
    ||| c == '\u{2028}'
    ||| c == '\u{2029}'
    ||| c == '\u{202f}'
    ||| c == '\u{205f}'
    ||| c == '\u{3000}'
}

/// Whether `c` is white space.
pub fn is_space(c: char) -> (is: bool)
    ensures
        is == is_white_space(c),
{
    ('\u{9}' <= c && c <= '\u{d}') || c == ' ' || c == '\u{85}' || c == '\u{a0}' || c
        == '\u{1680}' || ('\u{2000}' <= c && c <= '\u{200a}') || c == '\u{2028}' || c
        == '\u{2029}' || c == '\u{202f}' || c == '\u{205f}' || c == '\u{3000}'
}

/// `text` without the white space at its beginning.
pub open spec fn trimmed_start(text: Seq<char>) -> Seq<char>
    decreases text.len(),
{
    if text.len() > 0 && is_white_space(text[0]) {
        trimmed_start(text.skip(1))
    } else {
        text
    }
}

/// `text` without the white space at its end.
pub open spec fn trimmed_end(text: Seq<char>) -> Seq<char>
    decreases text.len(),
{
    if text.len() > 0 && is_white_space(text.last()) {
        trimmed_end(text.drop_last())
    } else {
        text
    }
}

/// `text` without the white space at either end.
pub open spec fn trimmed(text: Seq<char>) -> Seq<char> {
    trimmed_end(trimmed_start(text))
}

/// `str::trim`: removes leading and trailing white space as Unicode defines it.
pub assume_specification[ str::trim ](text: &str) -> (result: &str)
    ensures
        result@ == trimmed(text@),
;

/// What `String::from_utf8_lossy` makes of `bytes`.
pub uninterp spec fn utf8_lossy(bytes: Seq<u8>) -> Seq<char>;

/// `String::from_utf8_lossy`: decodes `bytes`. Bytes that are valid UTF-8 are
/// decoded exactly; how many replacement characters stand for the invalid parts
/// of other bytes is not said here.
#[verifier::external_body]
fn lossy_text(bytes: &[u8]) -> (text: String)
    ensures
        text@ == utf8_lossy(bytes@),
        valid_utf8(bytes@) ==> text@ == decode_utf8(bytes@),
{
    String::from_utf8_lossy(bytes).into_owned()
}

/// The text in some bytes, as `String::from_utf8_lossy` reads it.
pub open spec fn decoded(bytes: Seq<u8>) -> Seq<char> {
    if valid_utf8(bytes) {
        decode_utf8(bytes)
    } else {
        utf8_lossy(bytes)
    }
}

/// The text in some bytes.
pub fn decode(bytes: &[u8]) -> (text: String)
    ensures
        text@ == decoded(bytes@),
{
    lossy_text(bytes)
}

/// Whether `bytes` begins with a single surrogate, encoded as UTF-8 would encode
/// it if it could.
pub open spec fn begins_with_surrogate(bytes: Seq<u8>) -> bool {
    bytes.len() >= 3 && bytes[0] == 0xed && 0xa0 <= bytes[1] <= 0xbf
}

/// `bytes` with a replacement character in place of each single surrogate.
pub open spec fn without_surrogates(bytes: Seq<u8>) -> Seq<u8>
    decreases bytes.len(),
{
    if bytes.len() == 0 {
        Seq::empty()
    } else if begins_with_surrogate(bytes) {
        seq![0xefu8, 0xbfu8, 0xbdu8] + without_surrogates(bytes.skip(3))
    } else {
        seq![bytes[0]] + without_surrogates(bytes.skip(1))
    }
}

/// `bytes` with a replacement character in place of each single surrogate.
pub fn replace_surrogates(bytes: &[u8]) -> (result: Vec<u8>)
    ensures
        result@ == without_surrogates(bytes@),
{
    let n: usize = bytes.len();
    let mut result: Vec<u8> = Vec::new();
    let mut i: usize = 0;
    proof {
        assert(bytes@.skip(0) =~= bytes@);
        assert(result@ + without_surrogates(bytes@) =~= without_surrogates(bytes@));
    }
    while i < n
        invariant
            i <= n == bytes@.len(),
            result@ + without_surrogates(bytes@.skip(i as int)) == without_surrogates(bytes@),
        decreases n - i,
    {
        let ghost before = result@;
        let ghost rest = bytes@.skip(i as int);
        if n - i >= 3 && bytes[i] == 0xed && 0xa0 <= bytes[i + 1] && bytes[i + 1] <= 0xbf {
            result.push(0xef);
            result.push(0xbf);
            result.push(0xbd);
            i = i + 3;
            proof {
                assert(begins_with_surrogate(rest));
                assert(rest.skip(3) =~= bytes@.skip(i as int));
                assert(result@ + without_surrogates(bytes@.skip(i as int)) =~= before
                    + without_surrogates(rest));
            }
        } else {
            result.push(bytes[i]);
            i = i + 1;
            proof {
                assert(!begins_with_surrogate(rest));
                assert(rest.skip(1) =~= bytes@.skip(i as int));
                assert(result@ + without_surrogates(bytes@.skip(i as int)) =~= before
                    + without_surrogates(rest));
            }
        }
    }
    assert(bytes@.skip(n as int) =~= Seq::<u8>::empty());
    assert(result@ + Seq::<u8>::empty() =~= result@);
    result
}

/// Valid UTF-8 holds no surrogate at any place.
proof fn lemma_no_surrogate_at(bytes: Seq<u8>, i: int)
    requires
        valid_utf8(bytes),
        0 <= i < bytes.len(),
    ensures
        !begins_with_surrogate(bytes.skip(i)),
    decreases bytes.len(),
{
    let rest = pop_first_scalar(bytes);
    let n = bytes.len() - rest.len();
    if i >= n {
        lemma_no_surrogate_at(rest, i - n);
        assert(rest.skip(i - n) =~= bytes.skip(i));
    } else if i == 0 {
        assert(bytes.skip(0) =~= bytes);
        if begins_with_surrogate(bytes) {
            let b = bytes[1];
            let c = bytes[2];
            let high = leading_bits_width_3(0xed);
            let middle = continuation_bits(b);
            let low = continuation_bits(c);
            assert(high == 0xd) by {
                assert((0xedu8 & 0x0F) as u32 == 0xd) by (bit_vector);
            }
            assert(0x20 <= middle <= 0x3f) by {
                assert(0xa0 <= b && b <= 0xbf ==> 0x20 <= (b & 0x3f) as u32 && (b & 0x3f) as u32
                    <= 0x3f) by (bit_vector);
            }
            assert(low <= 0x3f) by {
                assert((c & 0x3f) as u32 <= 0x3f) by (bit_vector);
            }
            assert(0x20 <= middle && middle <= 0x3f && low <= 0x3f ==> 0xD800 <= (0xdu32 << 12) | (
            middle << 6) | low && (0xdu32 << 12) | (middle << 6) | low <= 0xDFFF) by (bit_vector);
        }
    } else {
        assert(bytes.skip(i)[0] == bytes[i]);
    }
}

/// Valid UTF-8 has nothing to replace.
pub proof fn lemma_text_has_no_surrogates(bytes: Seq<u8>)
    requires
        valid_utf8(bytes),
    ensures
        without_surrogates(bytes) == bytes,
{
    lemma_unreplaced(bytes, 0);
    assert(bytes.skip(0) =~= bytes);
}

proof fn lemma_unreplaced(bytes: Seq<u8>, i: int)
    requires
        valid_utf8(bytes),
        0 <= i <= bytes.len(),
    ensures
        without_surrogates(bytes.skip(i)) == bytes.skip(i),
    decreases bytes.len() - i,
{
    let rest = bytes.skip(i);
    if i < bytes.len() {
        lemma_no_surrogate_at(bytes, i);
        lemma_unreplaced(bytes, i + 1);
        assert(rest.skip(1) =~= bytes.skip(i + 1));
        assert(seq![rest[0]] + rest.skip(1) =~= rest);
    } else {
        assert(rest =~= Seq::<u8>::empty());
    }
}

/// The digit for a value below 10.
pub open spec fn digit(value: nat) -> char {
    ('0' as nat + value) as char
}

/// `value` in decimal, without leading zeros.
pub open spec fn decimal(value: nat) -> Seq<char>
    decreases value,
{
    if value < 10 {
        seq![digit(value)]
    } else {
        decimal(value / 10).push(digit(value % 10))
    }
}

/// The number that some digits stand for, each ten times the next.
pub open spec fn read_decimal(digits: Seq<char>) -> nat
    decreases digits.len(),
{
    if digits.len() == 0 {
        0
    } else {
        10 * read_decimal(digits.drop_last()) + (digits.last() as nat - '0' as nat) as nat
    }
}

/// Whether all of `text` is digits.
pub open spec fn are_digits(text: Seq<char>) -> bool {
    forall|i: int| 0 <= i < text.len() ==> '0' <= #[trigger] text[i] <= '9'
}

/// A number is read back from what is written: digits without a zero too many.
pub proof fn lemma_decimal_is_read_back(value: nat)
    ensures
        read_decimal(decimal(value)) == value,
        are_digits(decimal(value)),
        decimal(value).len() > 0,
        decimal(value).len() > 1 ==> decimal(value)[0] != '0',
    decreases value,
{
    let written = decimal(value);
    let last = value % 10;
    assert('0' <= digit(last) <= '9' && digit(last) as nat - '0' as nat == last);
    if value < 10 {
        assert(written.drop_last() =~= Seq::<char>::empty());
        assert(read_decimal(Seq::<char>::empty()) == 0);
    } else {
        lemma_decimal_is_read_back(value / 10);
        let before = decimal(value / 10);
        assert(written.drop_last() =~= before);
        assert forall|i: int| 0 <= i < written.len() implies '0' <= #[trigger] written[i]
            <= '9' by {
            if i < before.len() {
                assert(written[i] == before[i]);
            }
        }
        assert(written[0] == before[0]);
        if before.len() == 1 {
            assert(before[0] == digit(value / 10)) by {
                if value / 10 >= 10 {
                    lemma_decimal_is_read_back(value / 100);
                }
            }
        }
    }
}

/// No two numbers are written alike.
pub proof fn lemma_decimal_is_injective(a: nat, b: nat)
    requires
        decimal(a) == decimal(b),
    ensures
        a == b,
    decreases a,
{
    let left = decimal(a);
    let right = decimal(b);
    lemma_decimal_is_not_empty(a / 10);
    lemma_decimal_is_not_empty(b / 10);
    assert(left.last() == digit(a % 10));
    assert(right.last() == digit(b % 10));
    assert(a % 10 == b % 10);
    if a >= 10 && b >= 10 {
        assert(left.drop_last() =~= decimal(a / 10));
        assert(right.drop_last() =~= decimal(b / 10));
        lemma_decimal_is_injective(a / 10, b / 10);
    }
}

proof fn lemma_decimal_is_not_empty(value: nat)
    ensures
        decimal(value).len() > 0,
{
}

/// `true` or `false`.
pub open spec fn truth(value: bool) -> Seq<char> {
    if value {
        "true"@
    } else {
        "false"@
    }
}

/// A truth is written in one word, and the words differ.
pub proof fn lemma_truth_is_read_back(value: bool)
    ensures
        truth(value) == seq!['t', 'r', 'u', 'e'] <==> value,
        truth(value) == seq!['f', 'a', 'l', 's', 'e'] <==> !value,
{
    reveal_strlit("true");
    reveal_strlit("false");
    assert(truth(true) =~= seq!['t', 'r', 'u', 'e']);
    assert(truth(false) =~= seq!['f', 'a', 'l', 's', 'e']);
    assert(seq!['t', 'r', 'u', 'e'].len() != seq!['f', 'a', 'l', 's', 'e'].len());
}

/// Bytes are read as the text that they encode, or else as
/// `String::from_utf8_lossy` reads them.
pub proof fn lemma_decoded(bytes: Seq<u8>)
    ensures
        valid_utf8(bytes) ==> decoded(bytes) == decode_utf8(bytes),
        !valid_utf8(bytes) ==> decoded(bytes) == utf8_lossy(bytes),
{
}

/// White space around a text that has none at its ends is all that is trimmed.
pub proof fn lemma_trimmed_between(before: Seq<char>, text: Seq<char>, after: Seq<char>)
    requires
        forall|i: int| 0 <= i < before.len() ==> is_white_space(#[trigger] before[i]),
        forall|i: int| 0 <= i < after.len() ==> is_white_space(#[trigger] after[i]),
        text.len() > 0 ==> !is_white_space(text[0]) && !is_white_space(text.last()),
    ensures
        trimmed(before + text + after) == text,
{
    if text.len() > 0 {
        lemma_trimmed_start(before, text + after);
        assert(before + text + after =~= before + (text + after));
        assert((text + after)[0] == text[0]);
        lemma_trimmed_end(text, after);
    } else {
        let all = before + text + after;
        assert forall|i: int| 0 <= i < all.len() implies is_white_space(#[trigger] all[i]) by {
            if i < before.len() {
                assert(all[i] == before[i]);
            } else {
                assert(all[i] == after[i - before.len()]);
            }
        }
        lemma_trimmed_start(all, text);
        assert(all + text =~= all);
    }
}

proof fn lemma_trimmed_start(before: Seq<char>, text: Seq<char>)
    requires
        forall|i: int| 0 <= i < before.len() ==> is_white_space(#[trigger] before[i]),
        text.len() > 0 ==> !is_white_space(text[0]),
    ensures
        trimmed_start(before + text) == text,
    decreases before.len(),
{
    let all = before + text;
    if before.len() > 0 {
        assert(all[0] == before[0]);
        assert(all.skip(1) =~= before.skip(1) + text);
        assert forall|i: int| 0 <= i < before.skip(1).len() implies is_white_space(
            #[trigger] before.skip(1)[i],
        ) by {
            assert(before.skip(1)[i] == before[i + 1]);
        }
        lemma_trimmed_start(before.skip(1), text);
    } else {
        assert(all =~= text);
    }
}

proof fn lemma_trimmed_end(text: Seq<char>, after: Seq<char>)
    requires
        forall|i: int| 0 <= i < after.len() ==> is_white_space(#[trigger] after[i]),
        text.len() > 0,
        !is_white_space(text.last()),
    ensures
        trimmed_end(text + after) == text,
    decreases after.len(),
{
    let all = text + after;
    if after.len() > 0 {
        assert(all.last() == after[after.len() - 1]);
        assert(all.drop_last() =~= text + after.drop_last());
        lemma_trimmed_end(text, after.drop_last());
    } else {
        assert(all =~= text);
    }
}

/// No surrogate is left, bytes that are not part of one stay, and nothing moves.
pub proof fn lemma_surrogates_are_replaced(bytes: Seq<u8>)
    ensures
        without_surrogates(bytes).len() == bytes.len(),
        forall|i: int|
            0 <= i < bytes.len() ==> !begins_with_surrogate(
                #[trigger] without_surrogates(bytes).skip(i),
            ),
        forall|i: int|
            0 <= i < bytes.len() && (forall|j: int|
                0 <= j <= i < j + 3 ==> !begins_with_surrogate(#[trigger] bytes.skip(j)))
                ==> #[trigger] without_surrogates(bytes)[i] == bytes[i],
    decreases bytes.len(),
{
    let result = without_surrogates(bytes);
    if bytes.len() > 0 {
        let step: int = if begins_with_surrogate(bytes) {
            3
        } else {
            1
        };
        let rest = bytes.skip(step);
        lemma_surrogates_are_replaced(rest);
        let tail = without_surrogates(rest);
        assert(bytes.skip(0) =~= bytes);
        assert forall|i: int| 0 <= i < bytes.len() implies !begins_with_surrogate(
            #[trigger] result.skip(i),
        ) by {
            if i >= step {
                assert(result.skip(i) =~= tail.skip(i - step));
            } else if step == 3 {
                assert(result.skip(i)[0] == result[i]);
            } else {
                assert(result.skip(0) =~= result);
                if begins_with_surrogate(result) {
                    assert(result[0] == bytes[0]);
                    assert(tail[0] == result[1]);
                    lemma_second_byte_stays(rest);
                    assert(bytes[1] == rest[0]);
                }
            }
        }
        assert forall|i: int|
            0 <= i < bytes.len() && (forall|j: int|
                0 <= j <= i < j + 3 ==> !begins_with_surrogate(#[trigger] bytes.skip(j)))
            implies #[trigger] result[i] == bytes[i] by {
            if step == 3 {
                if i < 3 {
                    assert(begins_with_surrogate(bytes.skip(0)));
                }
            }
            if i >= step {
                assert forall|j: int| 0 <= j <= i - step < j + 3 implies !begins_with_surrogate(
                    #[trigger] rest.skip(j),
                ) by {
                    assert(rest.skip(j) =~= bytes.skip(j + step));
                }
                assert(tail[i - step] == rest[i - step]);
                assert(result[i] == tail[i - step]);
            }
        }
    }
}

/// A byte that continues a character is not replaced at the beginning.
proof fn lemma_second_byte_stays(bytes: Seq<u8>)
    requires
        bytes.len() > 0,
    ensures
        without_surrogates(bytes)[0] == bytes[0] || without_surrogates(bytes)[0] == 0xef,
{
}

/// Appends `value` in decimal.
pub fn push_decimal(text: &mut String, value: u64)
    ensures
        final(text)@ == old(text)@ + decimal(value as nat),
    decreases value,
{
    if value >= 10 {
        push_decimal(text, value / 10);
    }
    let c = (48 + (value % 10) as u8) as char;
    text.push(c);
    proof {
        assert(c == digit((value % 10) as nat));
        assert(text@ =~= old(text)@ + decimal(value as nat));
    }
}

/// Appends `true` or `false`.
pub fn push_truth(text: &mut String, value: bool)
    ensures
        final(text)@ == old(text)@ + truth(value),
{
    if value {
        text.append("true");
    } else {
        text.append("false");
    }
}

/// Which characters are white space, by their code points.
pub proof fn lemma_white_space(c: char)
    ensures
        is_white_space(c) <==> {
            let code = c as u32;
            ||| code == 9 || code == 10 || code == 11 || code == 12 || code == 13 || code == 32
            ||| code == 0x85 || code == 0xa0 || code == 0x1680
            ||| 0x2000 <= code <= 0x200a
            ||| code == 0x2028 || code == 0x2029 || code == 0x202f || code == 0x205f
            ||| code == 0x3000
        },
{
}

/// A single surrogate becomes the replacement character, and what is around it is left
/// to itself.
pub proof fn lemma_surrogate_becomes_replacement(before: Seq<u8>, b: u8, c: u8, after: Seq<u8>)
    requires
        forall|i: int| 0 <= i < before.len() ==> (#[trigger] before[i]) != 0xed,
        0xa0 <= b <= 0xbf,
    ensures
        without_surrogates(before + seq![0xedu8, b, c] + after) == before + seq![
            0xefu8,
            0xbfu8,
            0xbdu8,
        ] + without_surrogates(after),
    decreases before.len(),
{
    let all = before + seq![0xedu8, b, c] + after;
    let replaced = before + seq![0xefu8, 0xbfu8, 0xbdu8] + without_surrogates(after);
    if before.len() == 0 {
        assert(all[0] == 0xed && all[1] == b);
        assert(all.skip(3) =~= after);
        assert(without_surrogates(all) =~= replaced);
    } else {
        assert(all[0] == before[0]);
        let rest = before.skip(1);
        assert forall|i: int| 0 <= i < rest.len() implies (#[trigger] rest[i]) != 0xed by {
            assert(rest[i] == before[i + 1]);
        }
        lemma_surrogate_becomes_replacement(rest, b, c, after);
        assert(all.skip(1) =~= rest + seq![0xedu8, b, c] + after);
        assert(without_surrogates(all) =~= replaced);
    }
}

} // verus!
