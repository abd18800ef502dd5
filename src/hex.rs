//! Hexadecimal digits: encoding nibbles, decoding digit pairs into bytes.
use vstd::prelude::*;

verus! {

broadcast use vstd::string::group_string_axioms;

/// The sixteen uppercase hexadecimal digits, in order of value.
pub open spec fn hex_digits() -> Seq<char> {
    seq!['0', '1', '2', '3', '4', '5', '6', '7', '8', '9', 'A', 'B', 'C', 'D', 'E', 'F']
}

/// The uppercase digit of a value below sixteen.
pub open spec fn hex_digit(v: nat) -> char {
    hex_digits()[v as int]
}

/// The value of a hexadecimal digit of either case; `None` for any other character.
pub open spec fn hex_value(c: char) -> Option<nat> {
    if '0' <= c && c <= '9' {
        Some((c as u32 - '0' as u32) as nat)
    } else if 'A' <= c && c <= 'F' {
        Some((c as u32 - 'A' as u32 + 10) as nat)
    } else if 'a' <= c && c <= 'f' {
        Some((c as u32 - 'a' as u32 + 10) as nat)
    } else {
        None
    }
}

/// An uppercase hexadecimal digit.
pub open spec fn is_upper_hex(c: char) -> bool {
    ('0' <= c && c <= '9') || ('A' <= c && c <= 'F')
}

/// The value of four bits, the first one the most significant.
pub open spec fn nibble_value(b0: bool, b1: bool, b2: bool, b3: bool) -> nat {
    (if b0 { 8nat } else { 0nat }) + (if b1 { 4nat } else { 0nat }) + (if b2 { 2nat } else { 0nat })
        + (if b3 { 1nat } else { 0nat })
}

/// Bit `j` (0 the most significant) of a value below sixteen.
pub open spec fn nibble_bit(v: nat, j: int) -> bool {
    (v / pow2_of(3 - j)) % 2 == 1
}

pub open spec fn pow2_of(k: int) -> nat {
    if k == 0 {
        1
    } else if k == 1 {
        2
    } else if k == 2 {
        4
    } else {
        8
    }
}

/// The digits of `n` in base sixteen, uppercase, most significant first, without
/// leading zeros (zero itself is the single digit `0`).
pub open spec fn hex_of(n: nat) -> Seq<char>
    decreases n,
{
    if n < 16 {
        seq![hex_digit(n)]
    } else {
        hex_of(n / 16).push(hex_digit(n % 16))
    }
}

/// The value of a string of hexadecimal digits, most significant first.
pub open spec fn value_of_digits(s: Seq<char>) -> nat
    decreases s.len(),
{
    if s.len() == 0 {
        0
    } else {
        value_of_digits(s.drop_last()) * 16 + hex_value(s.last()).unwrap_or(0)
    }
}

/// Every character of `s` is a hexadecimal digit.
pub open spec fn all_hex(s: Seq<char>) -> bool {
    forall|i: int| 0 <= i < s.len() ==> (#[trigger] hex_value(s[i])) is Some
}

/// The bytes that a string of hexadecimal digit pairs stands for.
pub open spec fn hex_bytes(s: Seq<char>) -> Seq<u8> {
    Seq::new(
        s.len() / 2,
        |i: int| (hex_value(s[2 * i]).unwrap() * 16 + hex_value(s[2 * i + 1]).unwrap()) as u8,
    )
}

pub proof fn lemma_hex_digit_value(v: nat)
    requires
        v < 16,
    ensures
        hex_value(hex_digit(v)) == Some(v),
        is_upper_hex(hex_digit(v)),
{
}

pub proof fn lemma_upper_hex_round_trip(c: char)
    requires
        is_upper_hex(c),
    ensures
        hex_value(c) is Some,
        hex_value(c).unwrap() < 16,
        hex_digit(hex_value(c).unwrap()) == c,
{
    let v = hex_value(c).unwrap();
    assert(v < 16);
    if c == '0' { } else if c == '1' { } else if c == '2' { } else if c == '3' { }
    else if c == '4' { } else if c == '5' { } else if c == '6' { } else if c == '7' { }
    else if c == '8' { } else if c == '9' { } else if c == 'A' { } else if c == 'B' { }
    else if c == 'C' { } else if c == 'D' { } else if c == 'E' { } else {
        assert(c == 'F');
    }
}

/// The bits of a value below sixteen give it back.
pub proof fn lemma_nibble_bits(v: nat)
    requires
        v < 16,
    ensures
        nibble_value(nibble_bit(v, 0), nibble_bit(v, 1), nibble_bit(v, 2), nibble_bit(v, 3)) == v,
{
    assert(v == 0 || v == 1 || v == 2 || v == 3 || v == 4 || v == 5 || v == 6 || v == 7 || v == 8
        || v == 9 || v == 10 || v == 11 || v == 12 || v == 13 || v == 14 || v == 15);
}

/// Four bits give themselves back through their value.
pub proof fn lemma_nibble_value_bits(b0: bool, b1: bool, b2: bool, b3: bool)
    ensures
        nibble_value(b0, b1, b2, b3) < 16,
        nibble_bit(nibble_value(b0, b1, b2, b3), 0) == b0,
        nibble_bit(nibble_value(b0, b1, b2, b3), 1) == b1,
        nibble_bit(nibble_value(b0, b1, b2, b3), 2) == b2,
        nibble_bit(nibble_value(b0, b1, b2, b3), 3) == b3,
{
}

/// The uppercase hexadecimal digit of four bits, the first one the most significant.
pub fn to_hex(b: &[bool]) -> (r: &'static str)
    requires
        b@.len() == 4,
    ensures
        r@ == seq![hex_digit(nibble_value(b@[0], b@[1], b@[2], b@[3]))],
{
    let v: u8 = (if b[0] { 8u8 } else { 0u8 }) + (if b[1] { 4u8 } else { 0u8 }) + (if b[2] {
        2u8
    } else {
        0u8
    }) + (if b[3] { 1u8 } else { 0u8 });
    digit_str(v)
}

/// The one-character string of the uppercase digit of `v`.
pub fn digit_str(v: u8) -> (r: &'static str)
    requires
        v < 16,
    ensures
        r@ == seq![hex_digit(v as nat)],
{
    proof {
        reveal_strlit("0"); reveal_strlit("1"); reveal_strlit("2"); reveal_strlit("3");
        reveal_strlit("4"); reveal_strlit("5"); reveal_strlit("6"); reveal_strlit("7");
        reveal_strlit("8"); reveal_strlit("9"); reveal_strlit("A"); reveal_strlit("B");
        reveal_strlit("C"); reveal_strlit("D"); reveal_strlit("E"); reveal_strlit("F");
    }
    let r = match v {
        0 => "0",
        1 => "1",
        2 => "2",
        3 => "3",
        4 => "4",
        5 => "5",
        6 => "6",
        7 => "7",
        8 => "8",
        9 => "9",
        10 => "A",
        11 => "B",
        12 => "C",
        13 => "D",
        14 => "E",
        _ => "F",
    };
    assert(r@ =~= seq![hex_digit(v as nat)]);
    r
}

/// Appends the uppercase hexadecimal digits of `n` to `s`.
pub fn append_hex(s: &mut String, n: u64)
    ensures
        final(s)@ == old(s)@ + hex_of(n as nat),
    decreases n,
{
    if n >= 16 {
        append_hex(s, n / 16);
    }
    let d = digit_str((n % 16) as u8);
    s.append(d);
    proof {
        if n >= 16 {
            assert(final(s)@ =~= old(s)@ + hex_of(n as nat));
        } else {
            assert(final(s)@ =~= old(s)@ + hex_of(n as nat));
        }
    }
}

/// The value of an ASCII byte read as a hexadecimal digit.
pub(crate) fn byte_value(b: u8) -> (r: Option<u8>)
    ensures
        r matches Some(v) ==> hex_value(b as char) == Some(v as nat),
        r is None ==> hex_value(b as char) is None,
{
    if 48 <= b && b <= 57 {
        Some(b - 48)
    } else if 65 <= b && b <= 70 {
        Some(b - 55)
    } else if 97 <= b && b <= 102 {
        Some(b - 87)
    } else {
        None
    }
}

/// Why a string is not a sequence of hexadecimal digit pairs.
#[derive(Debug, Clone, Copy, PartialEq, Eq, Structural)]
pub enum HexError {
    /// The string holds an odd number of characters.
    OddLength,
    /// Some character is not a hexadecimal digit.
    InvalidDigit,
}

/// Decodes pairs of hexadecimal digits (of either case) into bytes.
pub fn decode_hex(s: &str) -> (r: Result<Vec<u8>, HexError>)
    ensures
        s@.len() % 2 == 1 <==> r == Err::<Vec<u8>, HexError>(HexError::OddLength),
        (s@.len() % 2 == 0 && !all_hex(s@)) <==> r == Err::<Vec<u8>, HexError>(
            HexError::InvalidDigit,
        ),
        r matches Ok(v) ==> v@ == hex_bytes(s@),
{
    let n = s.unicode_len();
    if n % 2 == 1 {
        return Err(HexError::OddLength);
    }
    if !s.is_ascii() {
        proof {
            let i = choose|i: int| 0 <= i < s@.len() && !('\0' <= #[trigger] s@[i] <= '\u{7f}');
            assert(hex_value(s@[i]) is None);
        }
        return Err(HexError::InvalidDigit);
    }
    let b = s.as_bytes();
    assert(b@.len() == s@.len());
    let mut out: Vec<u8> = Vec::new();
    let mut i: usize = 0;
    while i < n
        invariant
            n == s@.len(),
            n % 2 == 0,
            i % 2 == 0,
            i <= n,
            b@.len() == n,
            forall|k: int| 0 <= k < n ==> b@[k] == s@[k] as u8,
            s.is_ascii(),
            forall|k: int| 0 <= k < i ==> (#[trigger] hex_value(s@[k])) is Some,
            out@.len() == i / 2,
            forall|k: int| 0 <= k < i / 2 ==> out@[k] == hex_bytes(s@)[k],
        decreases n - i,
    {
        assert(s@[i as int] as u8 as char == s@[i as int]);
        assert(s@[i + 1] as u8 as char == s@[i + 1]);
        let hi = byte_value(b[i]);
        let lo = byte_value(b[i + 1]);
        match (hi, lo) {
            (Some(h), Some(l)) => {
                out.push(h * 16 + l);
                i = i + 2;
            },
            _ => {
                return Err(HexError::InvalidDigit);
            },
        }
    }
    assert(out@ =~= hex_bytes(s@));
    Ok(out)
}

} // verus!
