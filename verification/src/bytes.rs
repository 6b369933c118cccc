//! Bytes: their hexadecimal form, and looking for a pattern in them.

use vstd::prelude::*;

use crate::text::{
    cat4, decimal, decimal_text, digit, digit_char, find_from, lemma_find_from, occurs_at,
};

verus! {

/// A byte as two lowercase hexadecimal digits.
pub open spec fn byte_text(b: u8) -> Seq<char> {
    seq![digit_char(b as int / 16), digit_char(b as int % 16)]
}

/// Bytes as lowercase hexadecimal digits, two for each.
pub open spec fn hex_text(bytes: Seq<u8>) -> Seq<char>
    decreases bytes.len(),
{
    if bytes.len() == 0 {
        seq![]
    } else {
        hex_text(bytes.drop_last()) + byte_text(bytes.last())
    }
}

/// What a byte means as a hexadecimal digit in either case.
pub open spec fn hex_value(b: u8) -> Option<u8> {
    if 48 <= b <= 57 {
        Some((b - 48) as u8)
    } else if 65 <= b <= 70 {
        Some((b - 55) as u8)
    } else if 97 <= b <= 102 {
        Some((b - 87) as u8)
    } else {
        None
    }
}

/// Why bytes are not hexadecimal.
#[derive(Debug, PartialEq)]
pub enum HexFault {
    /// The byte at `index`, taken as a character, is no digit.
    Character { c: char, index: usize },
    /// A digit has no partner.
    OddLength,
    /// The digits do not fit where they were to go.
    WrongLength,
}

/// What a [`HexFault`] says.
pub enum HexFaultView {
    Character { c: char, index: int },
    OddLength,
    WrongLength,
}

impl View for HexFault {
    type V = HexFaultView;

    open spec fn view(&self) -> HexFaultView {
        match self {
            HexFault::Character { c, index } => HexFaultView::Character {
                c: *c,
                index: *index as int,
            },
            HexFault::OddLength => HexFaultView::OddLength,
            HexFault::WrongLength => HexFaultView::WrongLength,
        }
    }
}

/// The bytes that the digits from position `i` on write, pair by pair, or the
/// first byte among them that is no digit.
pub open spec fn hex_pairs(digits: Seq<u8>, i: int) -> Result<Seq<u8>, HexFaultView>
    decreases digits.len() - i,
{
    if i < 0 || i + 1 >= digits.len() {
        Ok(seq![])
    } else {
        match (hex_value(digits[i]), hex_value(digits[i + 1])) {
            (None, _) => Err(HexFaultView::Character { c: digits[i] as char, index: i }),
            (_, None) => Err(HexFaultView::Character { c: digits[i + 1] as char, index: i + 1 }),
            (Some(high), Some(low)) => match hex_pairs(digits, i + 2) {
                Ok(rest) => Ok(seq![(high * 16 + low) as u8] + rest),
                Err(fault) => Err(fault),
            },
        }
    }
}

/// The bytes that hexadecimal digits write.
pub open spec fn decoded_hex(digits: Seq<u8>) -> Result<Seq<u8>, HexFaultView> {
    if digits.len() % 2 != 0 {
        Err(HexFaultView::OddLength)
    } else {
        hex_pairs(digits, 0)
    }
}

/// The outcome of reading hexadecimal digits.
pub open spec fn hex_result(r: Result<Vec<u8>, HexFault>) -> Result<Seq<u8>, HexFaultView> {
    match r {
        Ok(bytes) => Ok(bytes@),
        Err(fault) => Err(fault@),
    }
}

/// `hex::encode`: every byte as two lowercase digits, in order.
#[verifier::external_body]
pub(crate) fn encode_hex(bytes: &Vec<u8>) -> (r: String)
    ensures
        r@ == hex_text(bytes@),
{
    hex::encode(bytes)
}

/// `hex::decode`, on the bytes of a text: an odd number of bytes is refused;
/// else every two bytes write one, and the first that is no digit is reported
/// with its position.
#[verifier::external_body]
pub(crate) fn decode_hex(text: &str) -> (r: Result<Vec<u8>, HexFault>)
    ensures
        hex_result(r) == decoded_hex(vstd::utf8::encode_utf8(text@)),
{
    hex::decode(text).map_err(
        |e| match e {
            hex::FromHexError::InvalidHexCharacter { c, index } => HexFault::Character { c, index },
            hex::FromHexError::OddLength => HexFault::OddLength,
            hex::FromHexError::InvalidStringLength => HexFault::WrongLength,
        },
    )
}

/// A character between single quotes, as debug output writes it.
pub uninterp spec fn debug_char_text(c: char) -> Seq<char>;

/// `format!` with the debug form of a character: a pure function of the
/// character.
#[verifier::external_body]
pub(crate) fn debug_char(c: char) -> (r: String)
    ensures
        r@ == debug_char_text(c),
{
    format!("{:?}", c)
}

impl HexFaultView {
    /// The message for the caller.
    pub open spec fn message(self) -> Seq<char> {
        match self {
            HexFaultView::Character { c, index } => "Invalid character "@ + debug_char_text(c)
                + " at position "@ + decimal(index as nat),
            HexFaultView::OddLength => "Odd number of digits"@,
            HexFaultView::WrongLength => "Invalid string length"@,
        }
    }
}

impl HexFault {
    /// The message for the caller.
    pub fn message(&self) -> (r: String)
        ensures
            r@ == self@.message(),
    {
        match self {
            HexFault::Character { c, index } => cat4(
                "Invalid character ",
                &debug_char(*c),
                " at position ",
                &decimal_text(*index as u64),
            ),
            HexFault::OddLength => "Odd number of digits".to_owned(),
            HexFault::WrongLength => "Invalid string length".to_owned(),
        }
    }
}

/// Where `needle` stands in `haystack` from `from` on, without overlaps.
pub open spec fn positions(haystack: Seq<u8>, needle: Seq<u8>, from: int) -> Seq<int>
    decreases haystack.len() - from,
{
    match find_from(haystack, needle, from) {
        Some(k) if from <= k && needle.len() > 0 && k + needle.len() <= haystack.len() => seq![k]
            + positions(haystack, needle, k + needle.len()),
        _ => seq![],
    }
}

/// Positions as integers.
pub open spec fn as_ints(list: Seq<usize>) -> Seq<int> {
    list.map_values(|p: usize| p as int)
}

/// `memchr::memmem::find_iter`: the positions at which a pattern that is not
/// empty stands, from the front; after each the search goes on behind it.
#[verifier::external_body]
pub(crate) fn find_all(haystack: &Vec<u8>, needle: &Vec<u8>) -> (r: Vec<usize>)
    requires
        needle@.len() > 0,
    ensures
        as_ints(r@) == positions(haystack@, needle@, 0),
{
    memchr::memmem::find_iter(haystack, needle).collect()
}

/// The first position of a byte.
pub open spec fn first_position(bytes: Seq<u8>, byte: u8) -> Option<int> {
    find_from(bytes, seq![byte], 0)
}

/// `memchr::memchr`: the first position of a byte.
#[verifier::external_body]
pub(crate) fn find_byte(byte: u8, bytes: &[u8]) -> (r: Option<usize>)
    ensures
        r matches Some(k) ==> first_position(bytes@, byte) == Some(k as int),
        r is None ==> first_position(bytes@, byte) is None,
{
    memchr::memchr(byte, bytes)
}

/// `n` in lowercase hexadecimal.
pub open spec fn hexadecimal(n: nat) -> Seq<char>
    decreases n,
{
    if n < 16 {
        seq![digit_char(n as int)]
    } else {
        hexadecimal(n / 16).push(digit_char((n % 16) as int))
    }
}

/// `text` with zeros in front until it is `width` long.
pub open spec fn zero_padded(text: Seq<char>, width: nat) -> Seq<char>
    decreases width - text.len(),
{
    if text.len() >= width {
        text
    } else {
        zero_padded(seq!['0'] + text, width)
    }
}

/// `n` in lowercase hexadecimal.
pub fn hexadecimal_text(n: u64) -> (r: String)
    ensures
        r@ == hexadecimal(n as nat),
    decreases n,
{
    if n < 16 {
        let mut out = String::new();
        out.push(digit(n as u8));
        assert(out@ =~= hexadecimal(n as nat));
        out
    } else {
        let mut out = hexadecimal_text(n / 16);
        out.push(digit((n % 16) as u8));
        out
    }
}

proof fn lemma_zero_padded(text: Seq<char>, width: nat, k: nat)
    requires
        text.len() + k == width,
    ensures
        zero_padded(text, width) == Seq::new(k, |i: int| '0') + text,
    decreases k,
{
    if k == 0 {
        assert(Seq::new(k, |i: int| '0') + text =~= text);
    } else {
        let longer = seq!['0'] + text;
        lemma_zero_padded(longer, width, (k - 1) as nat);
        assert(Seq::new((k - 1) as nat, |i: int| '0') + longer =~= Seq::new(k, |i: int| '0')
            + text);
    }
}

/// A text of ASCII characters with zeros in front until it is `width` long.
pub fn pad_zeros(text: &str, width: usize) -> (r: String)
    ensures
        r@ == zero_padded(text@, width as nat),
{
    let chars = crate::text::chars_of(text);
    let mut out = String::new();
    if chars.len() < width {
        let missing: usize = width - chars.len();
        let mut i: usize = 0;
        while i < missing
            invariant
                0 <= i <= missing,
                out@ == Seq::new(i as nat, |k: int| '0'),
            decreases missing - i,
        {
            out.push('0');
            i += 1;
            assert(out@ =~= Seq::new(i as nat, |k: int| '0'));
        }
        proof {
            lemma_zero_padded(text@, width as nat, missing as nat);
        }
    }
    out.append(text);
    proof {
        if chars@.len() >= width {
            assert(out@ =~= text@);
        }
    }
    out
}

// ---------------------------------------------------------------------------
// Laws

proof fn lemma_hex_pairs_of_text(bytes: Seq<u8>, i: int)
    requires
        0 <= i <= bytes.len(),
    ensures
        hex_pairs(hex_text(bytes).map_values(|c: char| c as u8), 2 * i) == Ok::<
            Seq<u8>,
            HexFaultView,
        >(bytes.skip(i)),
    decreases bytes.len() - i,
{
    let text = hex_text(bytes);
    let digits = text.map_values(|c: char| c as u8);
    lemma_hex_text_shape(bytes);
    if i == bytes.len() {
        assert(bytes.skip(i) =~= seq![]);
    } else {
        lemma_hex_pairs_of_text(bytes, i + 1);
        let b = bytes[i];
        assert(text[2 * i] == digit_char(b as int / 16));
        assert(text[2 * i + 1] == digit_char(b as int % 16));
        assert(hex_value(digits[2 * i]) == Some((b / 16) as u8));
        assert(hex_value(digits[2 * i + 1]) == Some((b % 16) as u8));
        assert(seq![b] + bytes.skip(i + 1) =~= bytes.skip(i));
    }
}

proof fn lemma_hex_text_shape(bytes: Seq<u8>)
    ensures
        hex_text(bytes).len() == 2 * bytes.len(),
        forall|k: int|
            #![trigger bytes[k]]
            0 <= k < bytes.len() ==> hex_text(bytes)[2 * k] == digit_char(bytes[k] as int / 16)
                && hex_text(bytes)[2 * k + 1] == digit_char(bytes[k] as int % 16),
        forall|j: int|
            0 <= j < hex_text(bytes).len() ==> exists|d: int|
                0 <= d < 16 && #[trigger] hex_text(bytes)[j] == #[trigger] digit_char(d),
    decreases bytes.len(),
{
    if bytes.len() > 0 {
        let front = bytes.drop_last();
        lemma_hex_text_shape(front);
        assert forall|k: int|
            #![trigger bytes[k]]
            0 <= k < bytes.len() implies hex_text(bytes)[2 * k] == digit_char(bytes[k] as int / 16)
            && hex_text(bytes)[2 * k + 1] == digit_char(bytes[k] as int % 16) by {
            if k < front.len() {
                assert(front[k] == bytes[k]);
            }
        }
        assert forall|j: int| 0 <= j < hex_text(bytes).len() implies exists|d: int|
            0 <= d < 16 && #[trigger] hex_text(bytes)[j] == #[trigger] digit_char(d) by {
            if j < hex_text(front).len() {
                assert(hex_text(bytes)[j] == hex_text(front)[j]);
            } else if j == hex_text(front).len() {
                assert(hex_text(bytes)[j] == digit_char(bytes.last() as int / 16));
            } else {
                assert(hex_text(bytes)[j] == digit_char(bytes.last() as int % 16));
            }
        }
    }
}

/// Every character of a hexadecimal text is a digit, so none of it is
/// whitespace or a separator.
pub proof fn lemma_hex_text_is_digits(bytes: Seq<u8>)
    ensures
        forall|j: int|
            0 <= j < hex_text(bytes).len() ==> ('0' <= #[trigger] hex_text(bytes)[j] <= '9'
                || 'a' <= hex_text(bytes)[j] <= 'f'),
{
    lemma_hex_text_shape(bytes);
    assert forall|j: int| 0 <= j < hex_text(bytes).len() implies ('0' <= #[trigger] hex_text(
        bytes,
    )[j] <= '9' || 'a' <= hex_text(bytes)[j] <= 'f') by {
        let d = choose|d: int| 0 <= d < 16 && hex_text(bytes)[j] == #[trigger] digit_char(d);
        assert(0 <= d < 16 && hex_text(bytes)[j] == digit_char(d));
    }
}

/// Reading a hexadecimal text gives the bytes back that it was written from.
pub proof fn lemma_hex_round_trip(bytes: Seq<u8>)
    ensures
        decoded_hex(vstd::utf8::encode_utf8(hex_text(bytes))) == Ok::<Seq<u8>, HexFaultView>(bytes),
{
    let text = hex_text(bytes);
    lemma_hex_text_is_digits(bytes);
    lemma_hex_text_shape(bytes);
    assert(vstd::utf8::is_ascii_chars(text));
    vstd::utf8::is_ascii_chars_encode_utf8(text);
    let digits = vstd::utf8::encode_utf8(text);
    assert(digits =~= text.map_values(|c: char| c as u8));
    lemma_hex_pairs_of_text(bytes, 0);
    assert(bytes.skip(0) =~= bytes);
}

/// A pattern that does not stand anywhere has no positions, and one that does
/// stand somewhere has one.
pub proof fn lemma_positions_found(haystack: Seq<u8>, needle: Seq<u8>)
    requires
        needle.len() > 0,
    ensures
        positions(haystack, needle, 0).len() == 0 <==> !crate::text::contains(haystack, needle),
{
    lemma_find_from(haystack, needle, 0);
}

/// What a lowercase hexadecimal digit stands for.
pub open spec fn digit_number(c: char) -> nat {
    if '0' <= c <= '9' {
        (c as int - '0' as int) as nat
    } else {
        (c as int - 'a' as int + 10) as nat
    }
}

/// The number that lowercase hexadecimal digits write.
pub open spec fn hex_number(digits: Seq<char>) -> nat
    decreases digits.len(),
{
    if digits.len() == 0 {
        0
    } else {
        16 * hex_number(digits.drop_last()) + digit_number(digits.last())
    }
}

/// A number in hexadecimal reads as that number.
pub proof fn lemma_hexadecimal_reads_back(n: nat)
    ensures
        hex_number(hexadecimal(n)) == n,
        hexadecimal(n).len() > 0,
        n > 0 ==> hexadecimal(n)[0] != '0',
    decreases n,
{
    let text = hexadecimal(n);
    if n < 16 {
        assert(text.drop_last() =~= seq![]);
        assert(hex_number(text.drop_last()) == 0);
        assert(digit_number(text.last()) == n);
    } else {
        lemma_hexadecimal_reads_back(n / 16);
        assert(text.drop_last() =~= hexadecimal(n / 16));
        assert(digit_number(text.last()) == n % 16);
        assert(n == 16 * (n / 16) + n % 16);
        assert(text[0] == hexadecimal(n / 16)[0]);
    }
}

/// Zeros in front fill a number up to its width and leave it the same number; one
/// that is as wide already stays as it is.
pub proof fn lemma_padding(text: Seq<char>, width: nat)
    ensures
        text.len() >= width ==> zero_padded(text, width) == text,
        text.len() < width ==> zero_padded(text, width).len() == width,
        zero_padded(text, width).skip(zero_padded(text, width).len() - text.len()) == text,
        forall|i: int|
            0 <= i < zero_padded(text, width).len() - text.len() ==> #[trigger] zero_padded(
                text,
                width,
            )[i] == '0',
        hex_number(zero_padded(text, width)) == hex_number(text),
    decreases width - text.len(),
{
    let whole = zero_padded(text, width);
    if text.len() >= width {
        assert(whole.skip(0) =~= text);
    } else {
        let more = seq!['0'] + text;
        lemma_padding(more, width);
        lemma_leading_zero(text);
        let k = whole.len() - text.len();
        assert(whole.skip(k - 1) == more);
        assert(whole.skip(k) =~= whole.skip(k - 1).skip(1));
        assert(more.skip(1) =~= text);
        assert forall|i: int| 0 <= i < k implies #[trigger] whole[i] == '0' by {
            if i == k - 1 {
                assert(whole[i] == whole.skip(k - 1)[0]);
            }
        }
    }
}

proof fn lemma_leading_zero(text: Seq<char>)
    ensures
        hex_number(seq!['0'] + text) == hex_number(text),
    decreases text.len(),
{
    let more = seq!['0'] + text;
    if text.len() == 0 {
        assert(more.drop_last() =~= seq![]);
        assert(hex_number(more.drop_last()) == 0);
    } else {
        lemma_leading_zero(text.drop_last());
        assert(more.drop_last() =~= seq!['0'] + text.drop_last());
    }
}

/// Every byte is two digits that write its value, in order.
pub proof fn lemma_two_digits_a_byte(bytes: Seq<u8>, i: int)
    requires
        0 <= i < bytes.len(),
    ensures
        hex_text(bytes).len() == 2 * bytes.len(),
        hex_number(hex_text(bytes).subrange(2 * i, 2 * i + 2)) == bytes[i],
    decreases bytes.len(),
{
    let front = bytes.drop_last();
    lemma_hex_text_length(front);
    lemma_hex_text_length(bytes);
    let text = hex_text(bytes);
    if i < front.len() {
        lemma_two_digits_a_byte(front, i);
        assert(text.subrange(2 * i, 2 * i + 2) =~= hex_text(front).subrange(2 * i, 2 * i + 2));
    } else {
        let b = bytes.last();
        let pair = text.subrange(2 * i, 2 * i + 2);
        assert(pair =~= byte_text(b));
        let high = pair.drop_last();
        assert(high.drop_last() =~= seq![]);
        assert(hex_number(high.drop_last()) == 0);
        assert(high.last() == digit_char(b as int / 16));
        assert(digit_number(high.last()) == b as int / 16);
        assert(hex_number(high) == b as int / 16);
        assert(digit_number(pair.last()) == b as int % 16);
    }
}

proof fn lemma_hex_text_length(bytes: Seq<u8>)
    ensures
        hex_text(bytes).len() == 2 * bytes.len(),
    decreases bytes.len(),
{
    if bytes.len() > 0 {
        lemma_hex_text_length(bytes.drop_last());
    }
}

/// Whether a place lies within one of the matches that were found.
pub open spec fn is_covered(found: Seq<int>, width: nat, p: int) -> bool {
    exists|i: int| 0 <= i < found.len() && #[trigger] found[i] <= p < found[i] + width
}

/// The places where a pattern is found are occurrences of it, in order and without
/// overlaps, and no occurrence stands clear of all of them.
pub proof fn lemma_positions(haystack: Seq<u8>, needle: Seq<u8>, from: int)
    requires
        needle.len() > 0,
        0 <= from,
    ensures
        ({
            let found = positions(haystack, needle, from);
            &&& forall|i: int|
                0 <= i < found.len() ==> from <= #[trigger] found[i] && occurs_at(
                    haystack,
                    needle,
                    found[i],
                )
            &&& forall|i: int, j: int|
                0 <= i < j < found.len() ==> #[trigger] found[i] + needle.len()
                    <= #[trigger] found[j]
            &&& forall|p: int|
                from <= p && occurs_at(haystack, needle, p) ==> #[trigger] is_covered(
                    found,
                    needle.len(),
                    p,
                )
        }),
    decreases haystack.len() - from,
{
    let found = positions(haystack, needle, from);
    lemma_find_from(haystack, needle, from);
    match find_from(haystack, needle, from) {
        Some(k) => {
            let next = k + needle.len();
            let rest = positions(haystack, needle, next);
            lemma_positions(haystack, needle, next);
            assert(found =~= seq![k] + rest);
            assert(found[0] == k);
            assert(forall|i: int| 0 < i < found.len() ==> #[trigger] found[i] == rest[i - 1]);
            assert forall|p: int| from <= p && occurs_at(haystack, needle, p) implies
                #[trigger] is_covered(found, needle.len(), p) by {
                if p >= next {
                    assert(is_covered(rest, needle.len(), p));
                    let i = choose|i: int|
                        0 <= i < rest.len() && #[trigger] rest[i] <= p < rest[i] + needle.len();
                    assert(found[i + 1] == rest[i]);
                } else {
                    assert(k <= p);
                }
            }
        },
        None => {},
    }
}

} // verus!
