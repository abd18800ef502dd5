//! The frame builder: the packed payload behind a header that encodes its
//! length, cut into fixed-size chunks.
use vstd::prelude::*;
use crate::hex::{
    all_hex, append_hex, byte_value, decode_hex, hex_bytes, hex_digit, hex_of, hex_value, is_upper_hex, value_of_digits,
    lemma_hex_digit_value, HexError,
};

verus! {

broadcast use vstd::string::group_string_axioms;

/// Hexadecimal characters of the header.
pub const HEADER_HEX_LEN: usize = 32;

/// Payload characters carried by the first chunk, after the header.
pub const FIRST_PAYLOAD_HEX_LEN: usize = 224;

/// Hexadecimal characters of every chunk after the first.
pub const CHUNK_HEX_LEN: usize = 256;

/// The fixed start of the header.
pub open spec fn header_prefix() -> Seq<char> {
    seq!['1', 'D', '7', '6', '3', '0', '0', '0', '3', '0', '0', '0']
}

/// `s` followed by `0` characters up to `n` characters (unchanged if already as long).
pub open spec fn pad_right(s: Seq<char>, n: nat) -> Seq<char> {
    if s.len() >= n {
        s
    } else {
        s + Seq::new((n - s.len()) as nat, |i: int| '0')
    }
}

/// The chunk count that the header announces for a payload of `l` hexadecimal characters.
pub open spec fn chunk_count(l: nat) -> nat {
    l / 96 + 3
}

/// The digits of the chunk count split into the header's `front` and `end` parts.
pub open spec fn split_count(d: Seq<char>) -> (Seq<char>, Seq<char>) {
    if d.len() > 2 {
        (d.subrange(1, d.len() as int), seq!['0', d[0]])
    } else {
        (d, seq!['0', '0'])
    }
}

/// The digits read back from the header's `front` and `end` parts.
pub open spec fn join_count(front: Seq<char>, end: Seq<char>) -> Seq<char> {
    if end == seq!['0', '0'] {
        front
    } else {
        seq![end[1]] + front
    }
}

/// The header of a payload of `l` hexadecimal characters.
pub open spec fn header_hex(l: nat) -> Seq<char> {
    let (front, end) = split_count(hex_of(chunk_count(l)));
    pad_right(header_prefix() + front + end, HEADER_HEX_LEN as nat)
}

/// The number of chunks after the first.
pub open spec fn rest_count(l: nat) -> nat {
    if l <= FIRST_PAYLOAD_HEX_LEN {
        0
    } else {
        ((l - FIRST_PAYLOAD_HEX_LEN + CHUNK_HEX_LEN - 1) / CHUNK_HEX_LEN as int) as nat
    }
}

/// Where chunk `k` after the first starts in the payload.
pub open spec fn rest_start(k: int) -> int {
    FIRST_PAYLOAD_HEX_LEN + CHUNK_HEX_LEN * k
}

/// Where chunk `k` after the first ends in a payload of `l` characters.
pub open spec fn rest_end(l: nat, k: int) -> int {
    if rest_start(k) + CHUNK_HEX_LEN <= l {
        rest_start(k) + CHUNK_HEX_LEN
    } else {
        l as int
    }
}

/// The first chunk: the header, then the payload's first characters, padded.
pub open spec fn first_chunk(p: Seq<char>) -> Seq<char> {
    let take = if p.len() < FIRST_PAYLOAD_HEX_LEN { p.len() as int } else { FIRST_PAYLOAD_HEX_LEN as int };
    header_hex(p.len()) + pad_right(p.subrange(0, take), FIRST_PAYLOAD_HEX_LEN as nat)
}

/// Chunk `k` after the first, padded on the right.
pub open spec fn rest_chunk(p: Seq<char>, k: int) -> Seq<char> {
    pad_right(p.subrange(rest_start(k), rest_end(p.len(), k)), CHUNK_HEX_LEN as nat)
}

/// All chunks of a payload, in hexadecimal.
pub open spec fn frame_hex(p: Seq<char>) -> Seq<Seq<char>> {
    seq![first_chunk(p)] + Seq::new(rest_count(p.len()), |k: int| rest_chunk(p, k))
}

pub open spec fn pow16(k: nat) -> nat
    decreases k,
{
    if k == 0 {
        1
    } else {
        16 * pow16((k - 1) as nat)
    }
}

proof fn lemma_hex_of_len(n: nat, k: nat)
    requires
        k >= 1,
        n < pow16(k),
    ensures
        hex_of(n).len() <= k,
        hex_of(n).len() >= 1,
    decreases n,
{
    if n >= 16 {
        assert(k >= 2) by {
            if k == 1 {
                assert(pow16(1) == 16) by {
                    reveal_with_fuel(pow16, 2);
                }
            }
        }
        assert(n / 16 < pow16((k - 1) as nat));
        lemma_hex_of_len(n / 16, (k - 1) as nat);
    }
}

proof fn lemma_hex_of_digits(n: nat)
    ensures
        forall|i: int| 0 <= i < hex_of(n).len() ==> is_upper_hex(#[trigger] hex_of(n)[i]),
        n >= 1 ==> hex_of(n)[0] != '0',
    decreases n,
{
    lemma_hex_digit_value(n % 16);
    if n >= 16 {
        lemma_hex_of_digits(n / 16);
    } else {
        lemma_hex_digit_value(n);
    }
}

/// The value of the digits of `n` is `n`.
pub proof fn lemma_hex_of_value(n: nat)
    ensures
        value_of_digits(hex_of(n)) == n,
    decreases n,
{
    lemma_hex_digit_value(n % 16);
    if n >= 16 {
        lemma_hex_of_value(n / 16);
        let h = hex_of(n);
        assert(h == hex_of(n / 16).push(hex_digit(n % 16)));
        assert(h.drop_last() =~= hex_of(n / 16));
        assert(h.last() == hex_digit(n % 16));
        assert(value_of_digits(h) == value_of_digits(h.drop_last()) * 16 + hex_value(h.last()).unwrap_or(0));
        assert((n / 16) * 16 + n % 16 == n);
    } else {
        lemma_hex_digit_value(n);
        let h = hex_of(n);
        assert(h.drop_last() =~= Seq::<char>::empty());
        assert(value_of_digits(h.drop_last()) == 0);
        assert(h.last() == hex_digit(n));
    }
}

/// The header's `front` and `end` parts give back the digits of the chunk count
/// of any payload length, and those digits give back the count.
pub proof fn lemma_count_split(l: nat)
    ensures
        ({
            let d = hex_of(chunk_count(l));
            let (front, end) = split_count(d);
            &&& join_count(front, end) == d
            &&& value_of_digits(join_count(front, end)) == chunk_count(l)
            &&& d.len() <= 2 ==> front == d && end == seq!['0', '0']
            &&& d.len() > 2 ==> front == d.subrange(1, d.len() as int) && end == seq!['0', d[0]]
        }),
{
    let d = hex_of(chunk_count(l));
    lemma_hex_of_digits(chunk_count(l));
    lemma_hex_of_value(chunk_count(l));
    let (front, end) = split_count(d);
    if d.len() > 2 {
        assert(end != seq!['0', '0']) by {
            assert(end[1] != '0');
        }
        assert(seq![d[0]] + d.subrange(1, d.len() as int) =~= d);
    }
}

/// The first chunk always holds the 32-character header and 224 payload
/// characters; those are the payload's first 224 when it has that many, and
/// otherwise the whole payload with `0` characters after it, the one chunk sent.
pub proof fn lemma_first_chunk(p: Seq<char>)
    requires
        p.len() <= u64::MAX,
    ensures
        frame_hex(p).len() >= 1,
        frame_hex(p)[0].len() == HEADER_HEX_LEN + FIRST_PAYLOAD_HEX_LEN,
        frame_hex(p)[0].subrange(0, HEADER_HEX_LEN as int) == header_hex(p.len()),
        p.len() >= FIRST_PAYLOAD_HEX_LEN ==> frame_hex(p)[0] == header_hex(p.len()) + p.subrange(
            0,
            FIRST_PAYLOAD_HEX_LEN as int,
        ),
        p.len() < FIRST_PAYLOAD_HEX_LEN ==> frame_hex(p)[0] == header_hex(p.len()) + p + Seq::new(
            (FIRST_PAYLOAD_HEX_LEN - p.len()) as nat,
            |i: int| '0',
        ),
        p.len() <= FIRST_PAYLOAD_HEX_LEN ==> frame_hex(p).len() == 1,
{
    lemma_header_len(p.len());
    let f = frame_hex(p);
    assert(f[0] == first_chunk(p));
    assert(first_chunk(p).subrange(0, HEADER_HEX_LEN as int) =~= header_hex(p.len()));
    if p.len() < FIRST_PAYLOAD_HEX_LEN {
        assert(p.subrange(0, p.len() as int) =~= p);
        assert(header_hex(p.len()) + (p + Seq::new((FIRST_PAYLOAD_HEX_LEN - p.len()) as nat, |i: int| '0'))
            =~= header_hex(p.len()) + p + Seq::new((FIRST_PAYLOAD_HEX_LEN - p.len()) as nat, |i: int| '0'));
    }
}

/// Every chunk after the first has 256 characters: the next 256 of the payload,
/// or, for the last, what is left of it followed by `0` characters; together
/// they cover the payload from character 224 on.
pub proof fn lemma_rest_chunks(p: Seq<char>)
    ensures
        forall|i: int| 1 <= i < frame_hex(p).len() ==> (#[trigger] frame_hex(p)[i]).len() == CHUNK_HEX_LEN,
        forall|i: int| 1 <= i < frame_hex(p).len() ==> #[trigger] frame_hex(p)[i] == p.subrange(
            rest_start(i - 1),
            rest_end(p.len(), i - 1),
        ) + Seq::new(
            (CHUNK_HEX_LEN - (rest_end(p.len(), i - 1) - rest_start(i - 1))) as nat,
            |j: int| '0',
        ),
        forall|i: int|
            1 <= i < frame_hex(p).len() - 1 ==> rest_end(p.len(), i - 1) == #[trigger] rest_start(i),
        frame_hex(p).len() > 1 ==> rest_end(p.len(), frame_hex(p).len() - 2) == p.len(),
{
    let f = frame_hex(p);
    let l = p.len();
    assert forall|i: int| 1 <= i < f.len() implies (#[trigger] f[i]).len() == CHUNK_HEX_LEN && f[i]
        == p.subrange(rest_start(i - 1), rest_end(l, i - 1)) + Seq::new(
        (CHUNK_HEX_LEN - (rest_end(l, i - 1) - rest_start(i - 1))) as nat,
        |j: int| '0',
    ) by {
        assert(f[i] == rest_chunk(p, i - 1));
        assert(l > FIRST_PAYLOAD_HEX_LEN);
        let k = i - 1;
        assert(k < rest_count(l));
        assert(rest_start(k) < l) by {
            assert((l - 224 + 255) / 256 > k);
            assert(l - 224 + 255 >= 256 * (k + 1)) by (nonlinear_arith)
                requires (l - 224 + 255) / 256 > k, l > 224, k >= 0;
        }
        let s = p.subrange(rest_start(k), rest_end(l, k));
        if s.len() >= CHUNK_HEX_LEN {
            assert(s + Seq::new(0, |j: int| '0') =~= s);
        }
    }
    if f.len() > 1 {
        let k = f.len() - 2;
        assert(k == rest_count(l) - 1);
        assert(rest_start(k) + CHUNK_HEX_LEN >= l) by {
            assert(l - 224 + 255 < 256 * (k + 1) + 256) by (nonlinear_arith)
                requires (l - 224 + 255) / 256 == k + 1, l > 224, k >= 0;
        }
    }
    assert forall|i: int| 1 <= i < f.len() - 1 implies rest_end(l, i - 1) == #[trigger] rest_start(i) by {
        let k = i - 1;
        assert(k + 1 < rest_count(l));
        assert(rest_start(k) + CHUNK_HEX_LEN <= l) by {
            assert(l - 224 + 255 >= 256 * (k + 2)) by (nonlinear_arith)
                requires (l - 224 + 255) / 256 > k + 1, l > 224, k >= 0;
        }
    }
}

proof fn lemma_header_len(l: nat)
    requires
        l <= u64::MAX,
    ensures
        header_hex(l).len() == HEADER_HEX_LEN,
        forall|i: int| 0 <= i < header_hex(l).len() ==> is_upper_hex(#[trigger] header_hex(l)[i]),
{
    let c = chunk_count(l);
    assert(pow16(16) == 0x1_0000_0000_0000_0000) by {
        reveal_with_fuel(pow16, 17);
    }
    lemma_hex_of_len(c, 16);
    lemma_hex_of_digits(c);
    let d = hex_of(c);
    let (front, end) = split_count(d);
    let s = header_prefix() + front + end;
    assert(s.len() <= 29);
    assert forall|i: int| 0 <= i < s.len() implies is_upper_hex(#[trigger] s[i]) by {
        if i >= 12 + front.len() {
            if d.len() > 2 {
                assert(end[i - 12 - front.len()] == '0' || end[i - 12 - front.len()] == d[0]);
            }
        } else if i >= 12 {
            if d.len() > 2 {
                assert(front[i - 12] == d[i - 11]);
            }
        }
    }
}

/// Why a payload cannot be framed.
#[derive(Debug, Clone, Copy, PartialEq, Eq, Structural)]
pub enum FrameError {
    /// Some character of the payload is not a hexadecimal digit.
    NotHex,
}

/// Appends `0` characters to `s` until it holds `n` characters.
fn pad_with_zeros(s: &mut String, n: usize)
    requires
        old(s)@.len() <= n,
    ensures
        final(s)@ == pad_right(old(s)@, n as nat),
{
    proof {
        reveal_strlit("0");
    }
    let have = s.as_str().unicode_len();
    let ghost start = s@;
    for i in have..n
        invariant
            have == start.len(),
            s@ == start + Seq::new((i - have) as nat, |j: int| '0'),
    {
        proof {
            reveal_strlit("0");
        }
        s.append("0");
        assert(s@ =~= start + Seq::new((i + 1 - have) as nat, |j: int| '0'));
    }
    proof {
        if start.len() >= n {
            assert(s@ =~= start);
        }
    }
}

/// The header of a payload of `len` hexadecimal characters.
pub fn make_header(len: usize) -> (r: String)
    ensures
        r@ == header_hex(len as nat),
{
    proof {
        reveal_strlit("1D7630003000");
        reveal_strlit("0");
        reveal_strlit("00");
        lemma_header_len(len as nat);
        lemma_hex_of_digits(chunk_count(len as nat));
        assert(pow16(16) == 0x1_0000_0000_0000_0000) by {
            reveal_with_fuel(pow16, 17);
        }
        lemma_hex_of_len(chunk_count(len as nat), 16);
    }
    let count: u64 = (len / 96) as u64 + 3;
    let mut digits = String::new();
    append_hex(&mut digits, count);
    assert(digits@ =~= hex_of(chunk_count(len as nat)));
    let ds = digits.as_str();
    let dl = ds.unicode_len();
    let mut head = String::from_str("1D7630003000");
    assert(ds.is_ascii());
    if dl > 2 {
        head.append(ds.substring_ascii(1, dl));
        head.append("0");
        head.append(ds.substring_ascii(0, 1));
        assert(seq!['0'] + ds@.subrange(0, 1) =~= seq!['0', ds@[0]]);
    } else {
        head.append(ds);
        head.append("00");
    }
    assert(head@ =~= header_prefix() + split_count(digits@).0 + split_count(digits@).1);
    pad_with_zeros(&mut head, HEADER_HEX_LEN);
    head
}

/// All chunks of `payload`, in hexadecimal: the header with the first 224
/// payload characters, then 256 characters at a time, each chunk padded on the
/// right with `0` characters.
pub fn image_frame_hex(payload: &str) -> (r: Result<Vec<String>, FrameError>)
    ensures
        r is Err <==> !all_hex(payload@),
        r matches Ok(v) ==> v@.len() == frame_hex(payload@).len() && forall|i: int|
            0 <= i < v@.len() ==> (#[trigger] v@[i])@ == frame_hex(payload@)[i],
{
    let l = payload.unicode_len();
    if !payload.is_ascii() {
        proof {
            let i = choose|i: int| 0 <= i < payload@.len() && !('\0' <= #[trigger] payload@[i] <= '\u{7f}');
            assert(hex_value(payload@[i]) is None);
        }
        return Err(FrameError::NotHex);
    }
    let b = payload.as_bytes();
    for i in 0..l
        invariant
            l == payload@.len(),
            b@.len() == l,
            payload.is_ascii(),
            forall|k: int| 0 <= k < l ==> b@[k] == payload@[k] as u8,
            forall|k: int| 0 <= k < i ==> (#[trigger] hex_value(payload@[k])) is Some,
    {
        assert(payload@[i as int] as u8 as char == payload@[i as int]);
        if byte_value(b[i]).is_none() {
            return Err(FrameError::NotHex);
        }
    }
    let ghost p = payload@;
    let mut frames: Vec<String> = Vec::new();
    let mut first = make_header(l);
    let take = if l < FIRST_PAYLOAD_HEX_LEN { l } else { FIRST_PAYLOAD_HEX_LEN };
    let mut body = String::from_str(payload.substring_ascii(0, take));
    pad_with_zeros(&mut body, FIRST_PAYLOAD_HEX_LEN);
    first.append(body.as_str());
    frames.push(first);
    let mut start = FIRST_PAYLOAD_HEX_LEN;
    let ghost mut k: int = 0;
    while start < l
        invariant
            payload@ == p,
            l == p.len(),
            payload.is_ascii(),
            start < l ==> start == rest_start(k),
            0 <= k,
            start < l ==> k < rest_count(l as nat),
            start >= l ==> k == rest_count(l as nat),
            frames@.len() == k + 1,
            frames@[0]@ == first_chunk(p),
            forall|i: int| 1 <= i < frames@.len() ==> (#[trigger] frames@[i])@ == rest_chunk(p, i - 1),
        decreases l - start,
    {
        let end = if l - start >= CHUNK_HEX_LEN { start + CHUNK_HEX_LEN } else { l };
        let mut chunk = String::from_str(payload.substring_ascii(start, end));
        pad_with_zeros(&mut chunk, CHUNK_HEX_LEN);
        frames.push(chunk);
        proof {
            assert(l > FIRST_PAYLOAD_HEX_LEN);
            assert(k < rest_count(l as nat));
            assert(end == rest_end(l as nat, k));
        }
        if l - start > CHUNK_HEX_LEN {
            start = start + CHUNK_HEX_LEN;
        } else {
            start = l;
        }
        proof {
            k = k + 1;
            if start < l {
                assert(start == rest_start(k));
                assert(k < rest_count(l as nat)) by {
                    assert(l - 224 + 255 >= 256 * (k + 1)) by (nonlinear_arith)
                        requires l > 224 + 256 * k, k >= 0;
                }
            } else {
                assert(k == rest_count(l as nat)) by {
                    assert((l - 224 + 255) / 256 == k) by (nonlinear_arith)
                        requires l <= 224 + 256 * k, l > 224 + 256 * (k - 1), k >= 1;
                }
            }
        }
    }
    proof {
        let f = frame_hex(p);
        assert(frames@.len() == f.len());
        assert forall|i: int| 0 <= i < frames@.len() implies (#[trigger] frames@[i])@ == f[i] by {
            if i >= 1 {
                assert(f[i] == rest_chunk(p, i - 1));
            }
        }
    }
    Ok(frames)
}

} // verus!

verus! {

proof fn lemma_pad_right_hex(s: Seq<char>, n: nat)
    requires
        all_hex(s),
    ensures
        all_hex(pad_right(s, n)),
        s.len() <= n ==> pad_right(s, n).len() == n,
{
    let r = pad_right(s, n);
    assert forall|i: int| 0 <= i < r.len() implies (#[trigger] hex_value(r[i])) is Some by {
        if i < s.len() {
            assert(r[i] == s[i]);
        } else {
            assert(r[i] == '0');
        }
    }
}

/// Every chunk of a hexadecimal payload is 256 hexadecimal characters.
proof fn lemma_frames_hex(p: Seq<char>)
    requires
        all_hex(p),
        p.len() <= u64::MAX,
    ensures
        forall|i: int|
            0 <= i < frame_hex(p).len() ==> (#[trigger] frame_hex(p)[i]).len() == CHUNK_HEX_LEN
                && all_hex(frame_hex(p)[i]),
{
    let f = frame_hex(p);
    lemma_first_chunk(p);
    lemma_rest_chunks(p);
    lemma_header_len(p.len());
    assert forall|i: int| 0 <= i < f.len() implies (#[trigger] f[i]).len() == CHUNK_HEX_LEN && all_hex(f[i]) by {
        if i == 0 {
            let take = if p.len() < FIRST_PAYLOAD_HEX_LEN { p.len() as int } else { FIRST_PAYLOAD_HEX_LEN as int };
            let sub = p.subrange(0, take);
            assert(all_hex(sub));
            lemma_pad_right_hex(sub, FIRST_PAYLOAD_HEX_LEN as nat);
            let h = header_hex(p.len());
            let body = pad_right(sub, FIRST_PAYLOAD_HEX_LEN as nat);
            assert(f[0] == h + body);
            assert forall|j: int| 0 <= j < f[0].len() implies (#[trigger] hex_value(f[0][j])) is Some by {
                if j < h.len() {
                    assert(is_upper_hex(h[j]));
                } else {
                    assert(f[0][j] == body[j - h.len()]);
                }
            }
        } else {
            let k = i - 1;
            let sub = p.subrange(rest_start(k), rest_end(p.len(), k));
            assert(f[i] == rest_chunk(p, k));
            assert(all_hex(sub));
            lemma_pad_right_hex(sub, CHUNK_HEX_LEN as nat);
        }
    }
}

/// All chunks of `payload` as the bytes sent to the printer, one write each.
pub fn image_frames(payload: &str) -> (r: Result<Vec<Vec<u8>>, FrameError>)
    ensures
        r is Err <==> !all_hex(payload@),
        r matches Ok(v) ==> v@.len() == frame_hex(payload@).len() && forall|i: int|
            0 <= i < v@.len() ==> (#[trigger] v@[i])@ == hex_bytes(frame_hex(payload@)[i]),
{
    let chunks = match image_frame_hex(payload) {
        Ok(c) => c,
        Err(e) => {
            return Err(e);
        },
    };
    let l = payload.unicode_len();
    proof {
        lemma_frames_hex(payload@);
    }
    let mut out: Vec<Vec<u8>> = Vec::new();
    for i in 0..chunks.len()
        invariant
            chunks@.len() == frame_hex(payload@).len(),
            forall|j: int| 0 <= j < chunks@.len() ==> (#[trigger] chunks@[j])@ == frame_hex(payload@)[j],
            forall|j: int|
                0 <= j < frame_hex(payload@).len() ==> (#[trigger] frame_hex(payload@)[j]).len()
                    == CHUNK_HEX_LEN && all_hex(frame_hex(payload@)[j]),
            all_hex(payload@),
            out@.len() == i,
            forall|j: int| 0 <= j < i ==> (#[trigger] out@[j])@ == hex_bytes(frame_hex(payload@)[j]),
    {
        assert(chunks@[i as int]@ == frame_hex(payload@)[i as int]);
        let cs = chunks[i].as_str();
        assert(cs@ == frame_hex(payload@)[i as int]);
        assert(cs@.len() % 2 == 0);
        assert(all_hex(cs@));
        match decode_hex(cs) {
            Ok(bytes) => {
                out.push(bytes);
            },
            Err(e) => {
                proof {
                    assert(e == HexError::OddLength || e == HexError::InvalidDigit);
                    assert(false);
                }
                return Err(FrameError::NotHex);
            },
        }
    }
    Ok(out)
}

} // verus!
