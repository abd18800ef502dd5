//! The bit packer: a bilevel bitmap as a preamble followed by one bit per
//! pixel, row-major, written as uppercase hexadecimal nibbles.
use vstd::prelude::*;
use crate::hex::{
    hex_digit, hex_value, is_upper_hex, nibble_bit, nibble_value, lemma_hex_digit_value,
    lemma_nibble_bits, lemma_nibble_value_bits, lemma_upper_hex_round_trip,
};

verus! {

/// Clear bits that follow the leading set bit of the preamble.
pub const PREAMBLE_CLEAR_BITS: usize = 318;

/// The preamble: one set bit, then the reserved clear bits.
pub open spec fn preamble() -> Seq<bool> {
    seq![true] + Seq::new(PREAMBLE_CLEAR_BITS as nat, |i: int| false)
}

/// How many clear bits bring a length of `n` bits up to a multiple of four.
pub open spec fn pad_count(n: nat) -> nat {
    if n % 4 == 0 {
        0
    } else {
        (4 - n % 4) as nat
    }
}

/// The bits ahead of the pixels: left padding, then the preamble.
pub open spec fn lead_bits(n: nat) -> Seq<bool> {
    Seq::new(pad_count(n + 319), |i: int| false) + preamble()
}

/// The full bit string of a bitmap whose pixels, row-major, are `ink`.
pub open spec fn packed_bits(ink: Seq<bool>) -> Seq<bool> {
    lead_bits(ink.len()) + ink
}

/// Groups of four bits written as uppercase hexadecimal digits.
pub open spec fn bits_to_hex(bits: Seq<bool>) -> Seq<char> {
    Seq::new(
        bits.len() / 4,
        |k: int| hex_digit(nibble_value(bits[4 * k], bits[4 * k + 1], bits[4 * k + 2], bits[4 * k + 3])),
    )
}

/// Hexadecimal digits read back as four bits each.
pub open spec fn hex_to_bits(hex: Seq<char>) -> Seq<bool> {
    Seq::new(4 * hex.len(), |i: int| nibble_bit(hex_value(hex[i / 4]).unwrap(), i % 4))
}

/// The packed hexadecimal payload of a bitmap whose pixels, row-major, are `ink`.
pub open spec fn pack_hex(ink: Seq<bool>) -> Seq<char> {
    bits_to_hex(packed_bits(ink))
}

/// The last `n` bits that `hex` stands for: the pixels of a packed bitmap of `n` pixels.
pub open spec fn unpack_ink(hex: Seq<char>, n: nat) -> Seq<bool> {
    let bits = hex_to_bits(hex);
    bits.subrange(bits.len() - n, bits.len() as int)
}

/// `hex` is exactly the packed form of some bitmap of `n` pixels.
pub open spec fn is_packed(hex: Seq<char>, n: nat) -> bool {
    &&& forall|i: int| 0 <= i < hex.len() ==> is_upper_hex(#[trigger] hex[i])
    &&& 4 * hex.len() == lead_bits(n).len() + n
    &&& hex_to_bits(hex).subrange(0, lead_bits(n).len() as int) == lead_bits(n)
}

/// The lead bits are clear but for the one that opens the preamble.
pub proof fn lemma_lead_bits(n: nat)
    ensures
        lead_bits(n).len() == pad_count(n + 319) + 319,
        forall|k: int| 0 <= k < lead_bits(n).len() ==> #[trigger] lead_bits(n)[k] == (k == pad_count(n + 319)),
{
}

proof fn lemma_hex_to_bits_of_bits(bits: Seq<bool>)
    requires
        bits.len() % 4 == 0,
    ensures
        hex_to_bits(bits_to_hex(bits)) == bits,
{
    let h = bits_to_hex(bits);
    let r = hex_to_bits(h);
    assert forall|i: int| 0 <= i < bits.len() implies r[i] == bits[i] by {
        let k = i / 4;
        let j = i % 4;
        let v = nibble_value(bits[4 * k], bits[4 * k + 1], bits[4 * k + 2], bits[4 * k + 3]);
        lemma_nibble_value_bits(bits[4 * k], bits[4 * k + 1], bits[4 * k + 2], bits[4 * k + 3]);
        lemma_hex_digit_value(v);
        assert(h[k] == hex_digit(v));
        assert(i == 4 * k + j);
    }
    assert(r =~= bits);
}

proof fn lemma_bits_of_hex(hex: Seq<char>)
    requires
        forall|i: int| 0 <= i < hex.len() ==> is_upper_hex(#[trigger] hex[i]),
    ensures
        bits_to_hex(hex_to_bits(hex)) == hex,
{
    let b = hex_to_bits(hex);
    let r = bits_to_hex(b);
    assert forall|k: int| 0 <= k < hex.len() implies r[k] == hex[k] by {
        lemma_upper_hex_round_trip(hex[k]);
        let v = hex_value(hex[k]).unwrap();
        lemma_nibble_bits(v);
        assert((4 * k) / 4 == k);
        assert((4 * k + 1) / 4 == k);
        assert((4 * k + 2) / 4 == k);
        assert((4 * k + 3) / 4 == k);
        assert(b[4 * k] == nibble_bit(v, 0));
        assert(b[4 * k + 1] == nibble_bit(v, 1));
        assert(b[4 * k + 2] == nibble_bit(v, 2));
        assert(b[4 * k + 3] == nibble_bit(v, 3));
    }
    assert(r =~= hex);
}

proof fn lemma_packed_len(n: nat)
    ensures
        (lead_bits(n).len() + n) % 4 == 0,
        lead_bits(n).len() == pad_count(n + 319) + 319,
{
}

/// Unpacking the packed payload of any bitmap gives back its pixels, and the
/// payload is recognised as a packed bitmap of that many pixels.
pub proof fn lemma_pack_round_trip(ink: Seq<bool>)
    ensures
        unpack_ink(pack_hex(ink), ink.len()) == ink,
        is_packed(pack_hex(ink), ink.len()),
{
    let bits = packed_bits(ink);
    lemma_packed_len(ink.len());
    lemma_hex_to_bits_of_bits(bits);
    let hex = pack_hex(ink);
    assert(hex_to_bits(hex) == bits);
    assert(bits.subrange(bits.len() - ink.len(), bits.len() as int) =~= ink);
    assert(bits.subrange(0, lead_bits(ink.len()).len() as int) =~= lead_bits(ink.len()));
    assert forall|i: int| 0 <= i < hex.len() implies is_upper_hex(#[trigger] hex[i]) by {
        let v = nibble_value(bits[4 * i], bits[4 * i + 1], bits[4 * i + 2], bits[4 * i + 3]);
        lemma_nibble_value_bits(bits[4 * i], bits[4 * i + 1], bits[4 * i + 2], bits[4 * i + 3]);
        lemma_hex_digit_value(v);
    }
}

/// A payload recognised as a packed bitmap is the packed form of the pixels
/// that unpacking reads from it.
pub proof fn lemma_unpack_exact(hex: Seq<char>, n: nat)
    requires
        is_packed(hex, n),
    ensures
        pack_hex(unpack_ink(hex, n)) == hex,
{
    let bits = hex_to_bits(hex);
    let ink = unpack_ink(hex, n);
    let l = lead_bits(n).len() as int;
    assert(bits =~= bits.subrange(0, l) + ink);
    assert(packed_bits(ink) =~= bits);
    lemma_bits_of_hex(hex);
}

} // verus!
