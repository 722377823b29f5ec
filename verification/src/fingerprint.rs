//! Fingerprints: fixed-length strings of binary digits.

use crate::bitset::{contains, insert, members, span, symmetric_difference_count, with_capacity};
use crate::score::{differing_positions, distance, LengthMismatchError};
use bit_set::BitSet;
use vstd::prelude::*;
use vstd::set_lib::{lemma_int_range, lemma_len_subset, set_int_range};
use vstd::std_specs::iter::IteratorSpec;

verus! {

/// Whether a character is one of the two binary digits.
pub open spec fn is_binary_digit(c: char) -> bool {
    c == '0' || c == '1'
}

/// Whether a text holds binary digits only.
pub open spec fn is_binary(text: Seq<char>) -> bool {
    forall|i: int| 0 <= i < text.len() ==> is_binary_digit(#[trigger] text[i])
}

/// The bits that a text of binary digits stands for: `true` where it has a `'1'`.
pub open spec fn bits_of(text: Seq<char>) -> Seq<bool> {
    Seq::new(text.len(), |i: int| text[i] == '1')
}

/// The text that stands for a sequence of bits: `'1'` for `true`, `'0'` for `false`.
pub open spec fn digits_of(bits: Seq<bool>) -> Seq<char> {
    Seq::new(bits.len(), |i: int| if bits[i] { '1' } else { '0' })
}

/// Whether `position` is the first place in `text` that holds no binary digit.
pub open spec fn is_first_offence(text: Seq<char>, position: int) -> bool {
    &&& 0 <= position < text.len()
    &&& !is_binary_digit(text[position])
    &&& is_binary(text.take(position))
}

/// A text that is no fingerprint: it holds a character other than `'0'` and `'1'`.
#[derive(Debug, Clone, Copy, PartialEq, Eq, Structural)]
pub struct FormatError {
    /// The position, counted in characters from zero, of the first such character.
    pub position: usize,
}

/// A fixed-length sequence of bits, read from a string of binary digits.
///
/// Its view is the sequence of bits. The positions of the one-bits are kept in
/// a bit set, so that two fingerprints can be compared a machine word at a time.
pub struct Fingerprint {
    len: usize,
    ones: BitSet,
}

impl View for Fingerprint {
    type V = Seq<bool>;

    closed spec fn view(&self) -> Seq<bool> {
        Seq::new(self.len as nat, |i: int| members(self.ones).contains(i))
    }
}

impl Fingerprint {
    #[verifier::type_invariant]
    spec fn well_formed(self) -> bool {
        &&& span(self.ones) == self.len
        &&& forall|v: int| members(self.ones).contains(v) ==> 0 <= v < self.len
    }

    /// Reads a fingerprint from a string of binary digits.
    ///
    /// Fails exactly when the text holds a character other than `'0'` and `'1'`,
    /// and then reports the position of the first one.
    pub fn parse(text: &str) -> (r: Result<Fingerprint, FormatError>)
        ensures
            r is Ok <==> is_binary(text@),
            r is Ok ==> r->Ok_0@ == bits_of(text@),
            r is Err ==> is_first_offence(text@, r->Err_0.position as int),
    {
        let len: usize = text.unicode_len();
        let mut ones = with_capacity(len);
        let mut i: usize = 0;
        let mut chars = text.chars();
        loop
            invariant
                len == text@.len(),
                i <= len,
                span(ones) == len,
                chars.remaining() == text@.skip(i as int),
                is_binary(text@.take(i as int)),
                forall|v: int| members(ones).contains(v) <==> (0 <= v < i && text@[v] == '1'),
            ensures
                i == len,
            decreases len - i,
        {
            broadcast use vstd::string::group_string_axioms;
            let c = match chars.next() {
                Some(c) => c,
                None => {
                    break ;
                },
            };
            if c == '1' {
                insert(&mut ones, i);
            } else if c != '0' {
                assert(!is_binary_digit(text@[i as int]));
                return Err(FormatError { position: i });
            }
            assert(is_binary(text@.take(i + 1))) by {
                assert forall|j: int| 0 <= j < i + 1 implies is_binary_digit(
                    #[trigger] text@.take(i + 1)[j],
                ) by {
                    if j < i {
                        assert(text@.take(i as int)[j] == text@[j]);
                    }
                }
            }
            i = i + 1;
        }
        assert(text@.take(len as int) =~= text@);
        let f = Fingerprint { len, ones };
        assert(f@ =~= bits_of(text@));
        Ok(f)
    }

    /// The number of bits.
    pub fn length(&self) -> (n: usize)
        ensures
            n == self@.len(),
    {
        self.len
    }

    /// Whether the bit at position `i` is one. A position past the end holds no bit,
    /// and the answer for it is `false`.
    pub fn is_set(&self, i: usize) -> (b: bool)
        ensures
            b == (i < self@.len() && self@[i as int]),
    {
        proof {
            use_type_invariant(self);
        }
        contains(&self.ones, i)
    }

    /// The text of the fingerprint: one binary digit for each bit.
    pub fn to_string(&self) -> (text: String)
        ensures
            text@ == digits_of(self@),
    {
        let mut text = String::new();
        let mut i: usize = 0;
        while i < self.len
            invariant
                i <= self.len,
                self.len == self@.len(),
                text@ == digits_of(self@.take(i as int)),
            decreases self.len - i,
        {
            let one = self.is_set(i);
            proof {
                reveal_strlit("1");
                reveal_strlit("0");
            }
            if one {
                text.append("1");
            } else {
                text.append("0");
            }
            i = i + 1;
            assert(text@ =~= digits_of(self@.take(i as int)));
        }
        assert(self@.take(self.len as int) =~= self@);
        text
    }

    /// The number of positions at which this fingerprint and another of the same
    /// length differ.
    pub fn count_differing(&self, other: &Fingerprint) -> (n: usize)
        requires
            self@.len() == other@.len(),
        ensures
            n == distance(self@, other@),
    {
        proof {
            use_type_invariant(self);
            use_type_invariant(other);
            let all = set_int_range(0, self.len as int);
            lemma_int_range(0, self.len as int);
            lemma_len_subset(members(self.ones), all);
            lemma_len_subset(members(other.ones), all);
            assert(members(self.ones).difference(members(other.ones)) + members(
                other.ones,
            ).difference(members(self.ones)) =~= differing_positions(self@, other@));
        }
        symmetric_difference_count(&self.ones, &other.ones)
    }

    /// The Hamming distance to another fingerprint: the number of positions at
    /// which the two differ.
    ///
    /// Fails exactly when the two differ in length, before anything is counted.
    pub fn hamming_distance(&self, other: &Fingerprint) -> (r: Result<usize, LengthMismatchError>)
        ensures
            r is Ok <==> self@.len() == other@.len(),
            r is Ok ==> r->Ok_0 == distance(self@, other@),
            r is Err ==> r->Err_0.left == self@.len() && r->Err_0.right == other@.len(),
    {
        if self.len != other.len {
            return Err(LengthMismatchError { left: self.len, right: other.len });
        }
        Ok(self.count_differing(other))
    }
}

impl Clone for Fingerprint {
    /// A fingerprint with the same bits.
    fn clone(&self) -> (copy: Self)
        ensures
            copy@ == self@,
    {
        let mut ones = with_capacity(self.len);
        let mut i: usize = 0;
        while i < self.len
            invariant
                i <= self.len,
                span(ones) == self.len,
                forall|v: int| members(ones).contains(v) <==> (0 <= v < i && members(self.ones).contains(v)),
            decreases self.len - i,
        {
            if contains(&self.ones, i) {
                insert(&mut ones, i);
            }
            i = i + 1;
        }
        let copy = Fingerprint { len: self.len, ones };
        assert(copy@ =~= self@);
        copy
    }
}

/// Writing a sequence of bits as text and reading the text gives the bits back:
/// the text holds binary digits only, and they stand for those bits.
pub proof fn lemma_text_round_trip(bits: Seq<bool>)
    ensures
        is_binary(digits_of(bits)),
        bits_of(digits_of(bits)) == bits,
{
    assert(bits_of(digits_of(bits)) =~= bits);
}

} // verus!
