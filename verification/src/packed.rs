//! Fingerprint texts packed into big numbers, and their Hamming distance as the
//! number of one-bits in the XOR of two such numbers.
//!
//! The numbers are `num_bigint::BigUint`. The text of a fingerprint is packed
//! digit by digit, each character code a byte of the number, so that two binary
//! digits that differ leave exactly one bit in the XOR. A text that is no
//! fingerprint is not packed.

use crate::fingerprint::{bits_of, is_binary, is_first_offence, Fingerprint, FormatError};
use crate::score::{
    differing_positions, distance, lemma_positions_partition, lemma_similarity_bounded, similarity,
    LengthMismatchError,
};
use num_bigint::BigUint;
use vstd::prelude::*;
use vstd::utf8::{encode_utf8, is_ascii_chars, is_ascii_chars_encode_utf8};

verus! {

/// The number of one-bits of a byte.
pub open spec fn ones_of_byte(x: u8) -> nat {
    ((x % 2) + (x / 2) % 2 + (x / 4) % 2 + (x / 8) % 2 + (x / 16) % 2 + (x / 32) % 2 + (x / 64) % 2
        + (x / 128) % 2) as nat
}

/// The number of one-bits in the XOR of two strings of bytes, each read as a
/// number with its first byte the most significant: the bytes are paired from
/// the end, and the bytes of the longer string that have no partner count as
/// they are.
pub open spec fn xor_ones(a: Seq<u8>, b: Seq<u8>) -> nat
    decreases a.len() + b.len(),
{
    if a.len() == 0 && b.len() == 0 {
        0
    } else if a.len() == 0 {
        ones_of_byte(b.last()) + xor_ones(a, b.drop_last())
    } else if b.len() == 0 {
        ones_of_byte(a.last()) + xor_ones(a.drop_last(), b)
    } else {
        ones_of_byte(a.last() ^ b.last()) + xor_ones(a.drop_last(), b.drop_last())
    }
}

/// The bytes of the text of a sequence of bits: the character code of `'1'` for
/// `true`, that of `'0'` for `false`.
pub open spec fn digit_bytes(bits: Seq<bool>) -> Seq<u8> {
    Seq::new(bits.len(), |i: int| if bits[i] { 0x31u8 } else { 0x30u8 })
}

/// `BigUint::from_bytes_be` of each string of bytes, the XOR of the two numbers,
/// and `BigUint::count_ones` of that: the number of one-bits in the XOR of the
/// two strings read as big-endian numbers.
#[verifier::external_body]
fn xor_count_ones(a: &Vec<u8>, b: &Vec<u8>) -> (n: u64)
    ensures
        n == xor_ones(a@, b@),
{
    (BigUint::from_bytes_be(a) ^ BigUint::from_bytes_be(b)).count_ones()
}

/// The bits that a string of digit bytes stands for: `true` where it has the
/// character code of `'1'`.
pub open spec fn unpacked(bytes: Seq<u8>) -> Seq<bool> {
    Seq::new(bytes.len(), |i: int| bytes[i] == 0x31u8)
}

/// The text of a fingerprint packed into a big number: the character codes of
/// its binary digits are the digits of the number in base 256, the first the
/// most significant.
///
/// Its view is the string of those bytes, each the code of `'0'` or of `'1'`.
pub struct BigUintWrapper {
    bytes: Vec<u8>,
}

impl View for BigUintWrapper {
    type V = Seq<u8>;

    closed spec fn view(&self) -> Seq<u8> {
        self.bytes@
    }
}

impl BigUintWrapper {
    #[verifier::type_invariant]
    spec fn well_formed(self) -> bool {
        self.bytes@ == digit_bytes(unpacked(self.bytes@))
    }

    /// Packs the text of a fingerprint.
    ///
    /// Fails exactly when the text holds a character other than `'0'` and `'1'`,
    /// and then reports the position of the first one.
    pub fn new(bin_str: &str) -> (r: Result<BigUintWrapper, FormatError>)
        ensures
            r is Ok <==> is_binary(bin_str@),
            r is Ok ==> r->Ok_0@ == digit_bytes(bits_of(bin_str@)),
            r is Err ==> is_first_offence(bin_str@, r->Err_0.position as int),
    {
        match Fingerprint::parse(bin_str) {
            Ok(_) => {
                let bytes = bin_str.as_bytes_vec();
                proof {
                    lemma_binary_text_bytes(bin_str@);
                    lemma_unpacked_digit_bytes(bits_of(bin_str@));
                }
                Ok(BigUintWrapper { bytes })
            },
            Err(e) => Err(e),
        }
    }

    /// Packs the text of a fingerprint that was read before.
    pub fn of_fingerprint(print: &Fingerprint) -> (packed: Self)
        ensures
            packed@ == digit_bytes(print@),
    {
        let len = print.length();
        let mut bytes: Vec<u8> = Vec::new();
        let mut i: usize = 0;
        while i < len
            invariant
                len == print@.len(),
                i <= len,
                bytes@ == digit_bytes(print@.take(i as int)),
            decreases len - i,
        {
            if print.is_set(i) {
                bytes.push(0x31u8);
            } else {
                bytes.push(0x30u8);
            }
            i = i + 1;
            assert(bytes@ =~= digit_bytes(print@.take(i as int)));
        }
        assert(print@.take(len as int) =~= print@);
        proof {
            lemma_unpacked_digit_bytes(print@);
        }
        BigUintWrapper { bytes }
    }

    /// The number of digits that were packed.
    pub fn length(&self) -> (n: usize)
        ensures
            n == self@.len(),
    {
        self.bytes.len()
    }
}

/// Unpacking the digit bytes of a sequence of bits gives the bits back.
pub proof fn lemma_unpacked_digit_bytes(bits: Seq<bool>)
    ensures
        unpacked(digit_bytes(bits)) == bits,
{
    assert(unpacked(digit_bytes(bits)) =~= bits);
}

/// The bytes of a text of binary digits are the character codes of its digits.
pub proof fn lemma_binary_text_bytes(text: Seq<char>)
    ensures
        is_binary(text) ==> encode_utf8(text) == digit_bytes(bits_of(text)),
{
    if is_binary(text) {
        assert(is_ascii_chars(text)) by {
            assert forall|i: int| 0 <= i < text.len() implies '\0' <= #[trigger] text[i] <= '\u{7f}' by {
                assert(text[i] == '0' || text[i] == '1');
            }
        }
        is_ascii_chars_encode_utf8(text);
        assert forall|i: int| 0 <= i < text.len() implies encode_utf8(text)[i] == digit_bytes(
            bits_of(text),
        )[i] by {
            assert(text[i] == '0' || text[i] == '1');
            assert(text[i] as u8 == encode_utf8(text)[i]);
        }
        assert(encode_utf8(text) =~= digit_bytes(bits_of(text)));
    }
}

/// One more position adds one to the Hamming distance where the two bits at it
/// differ, and nothing where they agree.
pub proof fn lemma_distance_step(a: Seq<bool>, b: Seq<bool>)
    requires
        a.len() == b.len(),
        a.len() > 0,
    ensures
        distance(a, b) == distance(a.drop_last(), b.drop_last()) + if a.last() != b.last() {
            1nat
        } else {
            0nat
        },
{
    let shorter = differing_positions(a.drop_last(), b.drop_last());
    let last = a.len() - 1;
    lemma_positions_partition(a.drop_last(), b.drop_last());
    if a.last() != b.last() {
        assert(differing_positions(a, b) =~= shorter.insert(last));
    } else {
        assert(differing_positions(a, b) =~= shorter);
    }
}

/// Packed as numbers, two fingerprints of one length are as far apart as they
/// are bit by bit: the one-bits in the XOR of the two numbers are as many as
/// the positions at which the fingerprints differ.
pub proof fn lemma_packed_distance(a: Seq<bool>, b: Seq<bool>)
    requires
        a.len() == b.len(),
    ensures
        xor_ones(digit_bytes(a), digit_bytes(b)) == distance(a, b),
    decreases a.len(),
{
    if a.len() == 0 {
        assert(differing_positions(a, b) =~= Set::<int>::empty());
    } else {
        lemma_packed_distance(a.drop_last(), b.drop_last());
        lemma_distance_step(a, b);
        assert(digit_bytes(a).drop_last() =~= digit_bytes(a.drop_last()));
        assert(digit_bytes(b).drop_last() =~= digit_bytes(b.drop_last()));
        assert(0x30u8 ^ 0x30u8 == 0u8) by (bit_vector);
        assert(0x31u8 ^ 0x31u8 == 0u8) by (bit_vector);
        assert(0x30u8 ^ 0x31u8 == 1u8) by (bit_vector);
        assert(0x31u8 ^ 0x30u8 == 1u8) by (bit_vector);
    }
}

/// The Hamming distance of two packed fingerprints of the same length: the
/// number of one-bits in the XOR of the two numbers, which is the number of
/// positions at which the fingerprints differ.
pub fn hamming_distance(a: &BigUintWrapper, b: &BigUintWrapper) -> (d: u64)
    requires
        a@.len() == b@.len(),
    ensures
        d == xor_ones(a@, b@),
        d == distance(unpacked(a@), unpacked(b@)),
        d <= a@.len(),
{
    proof {
        use_type_invariant(a);
        use_type_invariant(b);
        lemma_packed_distance(unpacked(a@), unpacked(b@));
        lemma_similarity_bounded(unpacked(a@), unpacked(b@));
    }
    xor_count_ones(&a.bytes, &b.bytes)
}

/// The similarity score of two fingerprints, worked out on the packed numbers:
/// their length less the number of one-bits in the XOR. It is the score that
/// counting the positions of agreement gives.
///
/// Fails exactly when the two differ in length, before anything is counted.
pub fn packed_score(a: &Fingerprint, b: &Fingerprint) -> (r: Result<usize, LengthMismatchError>)
    ensures
        r is Ok <==> a@.len() == b@.len(),
        r is Ok ==> r->Ok_0 == similarity(a@, b@),
        r is Err ==> r->Err_0.left == a@.len() && r->Err_0.right == b@.len(),
{
    let len = a.length();
    if len != b.length() {
        return Err(LengthMismatchError { left: len, right: b.length() });
    }
    let left = BigUintWrapper::of_fingerprint(a);
    let right = BigUintWrapper::of_fingerprint(b);
    let differing = hamming_distance(&left, &right);
    proof {
        lemma_packed_distance(a@, b@);
        lemma_positions_partition(a@, b@);
    }
    Ok(len - differing as usize)
}

} // verus!
