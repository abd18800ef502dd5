//! The dither encoder: a grayscale raster becomes a bilevel bitmap, after a
//! brightness and contrast correction, by thresholding or by error diffusion.
use vstd::prelude::*;
use crate::hex::{hex_value, is_upper_hex, to_hex};
use crate::raster::{area, GrayRaster};
use crate::pack::{lemma_lead_bits, is_packed, lead_bits, pack_hex, packed_bits, bits_to_hex, unpack_ink, hex_to_bits};

verus! {

broadcast use vstd::string::group_string_axioms;

/// How a corrected raster is brought down to two levels.
#[derive(Debug, Clone, Copy, PartialEq, Eq, Structural)]
pub enum DitherMode {
    /// Ink wherever the corrected sample is below the middle level.
    Threshold,
    /// Floyd-Steinberg error diffusion onto black and white.
    Diffusion,
}

/// Brightness of the correction, in thousandths (0.35).
pub const BRIGHTNESS_PERMILLE: i64 = 350;

/// Contrast of the correction in hundredths, for each mode (1.45 and 3.55).
pub open spec fn contrast_centi(mode: DitherMode) -> int {
    match mode {
        DitherMode::Threshold => 145,
        DitherMode::Diffusion => 355,
    }
}

/// The corrected level of sample `v`:
/// `clamp((v + (brightness - 0.5) * 256 - 128) * contrast² + 128, 0, 255)`,
/// truncated towards zero, computed exactly over the integers.
pub open spec fn tone(v: u8, contrast_centi: int) -> u8 {
    let m = (1000 * v + 256 * BRIGHTNESS_PERMILLE - 256000) * (contrast_centi * contrast_centi)
        + 128 * 10000000;
    if m <= 0 {
        0
    } else if m / 10000000 > 255 {
        255
    } else {
        (m / 10000000) as u8
    }
}

/// The corrected levels of all samples.
pub open spec fn toned(pixels: Seq<u8>, contrast_centi: int) -> Seq<u8> {
    Seq::new(pixels.len(), |i: int| tone(pixels[i], contrast_centi))
}

/// Ink where a level is black.
pub open spec fn ink_of_levels(levels: Seq<u8>) -> Seq<bool> {
    Seq::new(levels.len(), |i: int| levels[i] == 0)
}

/// Ink where a corrected level lies below the middle level.
pub open spec fn ink_by_threshold(pixels: Seq<u8>, contrast_centi: int) -> Seq<bool> {
    Seq::new(pixels.len(), |i: int| tone(pixels[i], contrast_centi) < 128)
}

/// What Floyd-Steinberg diffusion onto black and white makes of a raster.
pub uninterp spec fn diffused(width: nat, height: nat, pixels: Seq<u8>) -> Seq<u8>;

/// Relies on `image::imageops::dither` with the `BiLevel` map: Floyd-Steinberg
/// error diffusion that keeps the buffer and leaves each sample 0 or 255. It
/// reaches one pixel to the right, so the raster is at least two pixels wide.
#[verifier::external_body]
fn diffuse(width: u32, height: u32, pixels: Vec<u8>) -> (r: Vec<u8>)
    requires
        width >= 2,
        height >= 1,
        pixels@.len() == width as nat * height as nat,
    ensures
        r@ == diffused(width as nat, height as nat, pixels@),
        r@.len() == pixels@.len(),
        forall|i: int| 0 <= i < r@.len() ==> r@[i] == 0 || r@[i] == 255,
{
    let mut img = image::GrayImage::from_raw(width, height, pixels).unwrap();
    image::imageops::dither(&mut img, &image::imageops::BiLevel);
    img.into_raw()
}

/// The corrected level of one sample.
pub fn correct_level(v: u8, mode: DitherMode) -> (r: u8)
    ensures
        r == tone(v, contrast_centi(mode)),
{
    let c: i64 = match mode {
        DitherMode::Threshold => 145,
        DitherMode::Diffusion => 355,
    };
    let d: i64 = (v as i64) * 1000 + 256 * BRIGHTNESS_PERMILLE - 256000;
    assert(-256000 <= d <= 255000 - 166400);
    assert(0 < c * c <= 126025);
    assert(-256000 * 126025 <= d * (c * c) <= 255000 * 126025) by (nonlinear_arith)
        requires
            -256000 <= d <= 255000,
            0 < c * c <= 126025,
    ;
    let m: i64 = d * (c * c) + 128 * 10000000;
    if m <= 0 {
        0
    } else if m / 10000000 > 255 {
        255
    } else {
        (m / 10000000) as u8
    }
}

/// The raster's samples after the correction of `mode`.
pub fn adjust_tone(pixels: &Vec<u8>, mode: DitherMode) -> (r: Vec<u8>)
    ensures
        r@ == toned(pixels@, contrast_centi(mode)),
{
    let mut out: Vec<u8> = Vec::new();
    for i in 0..pixels.len()
        invariant
            out@.len() == i,
            forall|k: int| 0 <= k < i ==> out@[k] == tone(pixels@[k], contrast_centi(mode)),
    {
        out.push(correct_level(pixels[i], mode));
    }
    assert(out@ =~= toned(pixels@, contrast_centi(mode)));
    out
}

/// The value of an ASCII byte read as an uppercase hexadecimal digit.
fn upper_value(b: u8) -> (r: Option<u8>)
    ensures
        r is Some <==> is_upper_hex(b as char),
        r matches Some(v) ==> v < 16 && hex_value(b as char) == Some(v as nat),
{
    if 48 <= b && b <= 57 {
        Some(b - 48)
    } else if 65 <= b && b <= 70 {
        Some(b - 55)
    } else {
        None
    }
}

/// A bilevel bitmap: `width` × `height` pixels, row-major, `true` where there is ink.
pub struct Bitmap {
    pub width: nat,
    pub height: nat,
    pub ink: Seq<bool>,
}

/// A bilevel bitmap, ready to be packed for the printer.
pub struct DitherApply {
    size: (u32, u32),
    ink: Vec<bool>,
}

impl View for DitherApply {
    type V = Bitmap;

    closed spec fn view(&self) -> Bitmap {
        Bitmap { width: self.size.0 as nat, height: self.size.1 as nat, ink: self.ink@ }
    }
}

impl DitherApply {
    #[verifier::type_invariant]
    spec fn shape(&self) -> bool {
        self.ink@.len() == self.size.0 as nat * self.size.1 as nat
    }

    /// Corrects the raster's tone and diffuses it onto black and white.
    pub fn new(buff: GrayRaster) -> (r: Self)
        requires
            buff.wf(),
            buff.width >= 2,
        ensures
            r@.width == buff.width,
            r@.height == buff.height,
            r@.ink == ink_of_levels(
                diffused(
                    buff.width as nat,
                    buff.height as nat,
                    toned(buff.pixels@, contrast_centi(DitherMode::Diffusion)),
                ),
            ),
    {
        Self::new_with_mode(buff, DitherMode::Diffusion)
    }

    /// Corrects the raster's tone with the contrast of `mode`, then brings it
    /// down to two levels as `mode` says.
    pub fn new_with_mode(buff: GrayRaster, mode: DitherMode) -> (r: Self)
        requires
            buff.wf(),
            mode == DitherMode::Diffusion ==> buff.width >= 2,
        ensures
            r@.width == buff.width,
            r@.height == buff.height,
            mode == DitherMode::Threshold ==> r@.ink == ink_by_threshold(
                buff.pixels@,
                contrast_centi(mode),
            ),
            mode == DitherMode::Diffusion ==> r@.ink == ink_of_levels(
                diffused(buff.width as nat, buff.height as nat, toned(buff.pixels@, contrast_centi(mode))),
            ),
    {
        let toned_pixels = adjust_tone(&buff.pixels, mode);
        match mode {
            DitherMode::Threshold => {
                let mut ink: Vec<bool> = Vec::new();
                for i in 0..toned_pixels.len()
                    invariant
                        toned_pixels@ == toned(buff.pixels@, contrast_centi(mode)),
                        ink@.len() == i,
                        forall|k: int| 0 <= k < i ==> ink@[k] == (toned_pixels@[k] < 128),
                {
                    ink.push(toned_pixels[i] < 128);
                }
                assert(ink@ =~= ink_by_threshold(buff.pixels@, contrast_centi(mode)));
                DitherApply { size: (buff.width, buff.height), ink }
            },
            DitherMode::Diffusion => {
                let levels = diffuse(buff.width, buff.height, toned_pixels);
                Self::from_levels(buff.width, buff.height, &levels)
            },
        }
    }

    /// The bitmap with ink wherever a level is black (zero).
    pub fn from_levels(width: u32, height: u32, levels: &Vec<u8>) -> (r: Self)
        requires
            levels@.len() == width as nat * height as nat,
        ensures
            r@.width == width,
            r@.height == height,
            r@.ink == ink_of_levels(levels@),
    {
        let mut ink: Vec<bool> = Vec::new();
        for i in 0..levels.len()
            invariant
                ink@.len() == i,
                forall|k: int| 0 <= k < i ==> ink@[k] == (levels@[k] == 0),
        {
            ink.push(levels[i] == 0);
        }
        assert(ink@ =~= ink_of_levels(levels@));
        DitherApply { size: (width, height), ink }
    }

    /// The bitmap of the given pixels, row-major; `None` unless there is one per pixel.
    pub fn from_ink(width: u32, height: u32, ink: Vec<bool>) -> (r: Option<Self>)
        ensures
            r is Some <==> ink@.len() == width as nat * height as nat,
            r matches Some(b) ==> b@ == (Bitmap { width: width as nat, height: height as nat, ink: ink@ }),
    {
        let n: u64 = area(width, height);
        if ink.len() as u64 != n {
            return None;
        }
        Some(DitherApply { size: (width, height), ink })
    }

    /// The bitmap whose packed payload is `hex`: `None` unless `hex` is exactly
    /// the packed form of a `width` × `height` bitmap (uppercase digits, the
    /// right length, clear padding and the preamble in place).
    pub fn from_hex_str(hex: &str, width: u32, height: u32) -> (r: Option<Self>)
        ensures
            r is Some <==> is_packed(hex@, width as nat * height as nat),
            r matches Some(b) ==> b@.width == width && b@.height == height && b@.ink == unpack_ink(
                hex@,
                width as nat * height as nat,
            ),
    {
        let n: u64 = area(width, height);
        let len = hex.unicode_len();
        let pad: u64 = (4 - (n % 4 + 3) % 4) % 4;
        let lead: u64 = pad + 319;
        assert(lead == lead_bits(n as nat).len());
        if len as u64 != (lead + n) / 4 {
            return None;
        }
        if !hex.is_ascii() {
            proof {
                let i = choose|i: int| 0 <= i < hex@.len() && !('\0' <= #[trigger] hex@[i] <= '\u{7f}');
                assert(!is_upper_hex(hex@[i]));
            }
            return None;
        }
        let b = hex.as_bytes();
        assert(b@.len() == hex@.len());
        let mut bits: Vec<bool> = Vec::new();
        for i in 0..len
            invariant
                len == hex@.len(),
                b@.len() == len,
                forall|k: int| 0 <= k < len ==> b@[k] == hex@[k] as u8,
                hex.is_ascii(),
                forall|k: int| 0 <= k < i ==> is_upper_hex(#[trigger] hex@[k]),
                bits@ == hex_to_bits(hex@.subrange(0, i as int)),
        {
            assert(hex@[i as int] as u8 as char == hex@[i as int]);
            let v = match upper_value(b[i]) {
                Some(v) => v,
                None => {
                    return None;
                },
            };
            bits.push(v / 8 % 2 == 1);
            bits.push(v / 4 % 2 == 1);
            bits.push(v / 2 % 2 == 1);
            bits.push(v % 2 == 1);
            proof {
                let sub = hex@.subrange(0, i + 1);
                let want = hex_to_bits(sub);
                assert forall|j: int| 0 <= j < 4 * (i + 1) implies bits@[j] == want[j] by {
                    if j < 4 * i {
                        assert(sub[j / 4] == hex@.subrange(0, i as int)[j / 4]);
                    } else {
                        assert(j / 4 == i);
                        assert(j % 4 == j - 4 * i);
                    }
                }
                assert(bits@ =~= want);
            }
        }
        assert(hex@.subrange(0, len as int) =~= hex@);
        let lead_us = lead as usize;
        proof {
            lemma_lead_bits(n as nat);
        }
        for k in 0..lead_us
            invariant
                lead_us == lead,
                n == width as nat * height as nat,
                lead == lead_bits(n as nat).len(),
                pad == lead - 319,
                bits@.len() == lead + n,
                bits@ == hex_to_bits(hex@),
                forall|j: int| 0 <= j < k ==> bits@[j] == lead_bits(n as nat)[j],
        {
            if bits[k] != (k as u64 == pad) {
                proof {
                    let got = hex_to_bits(hex@).subrange(0, lead as int);
                    assert(got[k as int] == bits@[k as int]);
                    assert(lead_bits(n as nat)[k as int] == (k == pad));
                    assert(got[k as int] != lead_bits(n as nat)[k as int]);
                    assert(got != lead_bits(n as nat));
                    assert(n as nat == width as nat * height as nat);
                    assert(lead_bits(n as nat).len() == lead);
                    assert(!is_packed(hex@, n as nat));
                }
                return None;
            }
        }
        assert(bits@.subrange(0, lead as int) =~= lead_bits(n as nat));
        let mut ink: Vec<bool> = Vec::new();
        let total = bits.len();
        for k in lead_us..total
            invariant
                lead_us <= total,
                total == bits@.len(),
                ink@ == bits@.subrange(lead_us as int, k as int),
        {
            ink.push(bits[k]);
            assert(ink@ =~= bits@.subrange(lead_us as int, k + 1));
        }
        Some(DitherApply { size: (width, height), ink })
    }

    pub fn width(&self) -> (r: u32)
        ensures
            r == self@.width,
    {
        self.size.0
    }

    pub fn height(&self) -> (r: u32)
        ensures
            r == self@.height,
    {
        self.size.1
    }

    /// The pixels, row-major, `true` where there is ink.
    pub fn ink(&self) -> (r: &Vec<bool>)
        ensures
            r@ == self@.ink,
            r@.len() == self@.width * self@.height,
    {
        proof {
            use_type_invariant(self);
        }
        &self.ink
    }

    /// The packed payload: a set bit, the reserved clear bits and one bit per
    /// pixel (set for ink), left-padded with clear bits to whole nibbles and
    /// written in uppercase hexadecimal.
    pub fn make_image_hex_str(&mut self) -> (r: String)
        ensures
            *final(self) == *old(self),
            r@ == pack_hex(old(self)@.ink),
    {
        let ink = self.ink();
        let n = ink.len();
        let pad: usize = (4 - (n % 4 + 3) % 4) % 4;
        let mut bits: Vec<bool> = Vec::new();
        for i in 0..pad
            invariant
                bits@.len() == i,
                forall|k: int| 0 <= k < i ==> !bits@[k],
        {
            bits.push(false);
        }
        bits.push(true);
        for i in 0..318
            invariant
                bits@.len() == pad + 1 + i,
                forall|k: int| 0 <= k < pad ==> !bits@[k],
                bits@[pad as int],
                forall|k: int| pad < k < bits@.len() ==> !bits@[k],
        {
            bits.push(false);
        }
        assert(bits@ =~= lead_bits(n as nat));
        for i in 0..n
            invariant
                bits@ == lead_bits(n as nat) + ink@.subrange(0, i as int),
                n == ink@.len(),
        {
            bits.push(ink[i]);
            assert(bits@ =~= lead_bits(n as nat) + ink@.subrange(0, i + 1));
        }
        assert(bits@ =~= packed_bits(ink@));
        let mut hex = String::new();
        let blen = bits.len();
        let total = blen / 4;
        for k in 0..total
            invariant
                blen == bits@.len(),
                total == bits@.len() / 4,
                bits@.len() % 4 == 0,
                hex@ == bits_to_hex(bits@).subrange(0, k as int),
        {
            let d = to_hex(vstd::slice::slice_subrange(bits.as_slice(), 4 * k, 4 * k + 4));
            hex.append(d);
            assert(hex@ =~= bits_to_hex(bits@).subrange(0, k + 1));
        }
        assert(hex@ =~= bits_to_hex(bits@));
        hex
    }
}

} // verus!
