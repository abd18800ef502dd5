//! The raw row format: each line of the bitmap as bytes of eight pixels, the
//! first pixel in the most significant bit, behind a small image header.
use vstd::prelude::*;
use crate::dither::{Bitmap, DitherApply};
use crate::instruction::{payloads, BLEMessage, Command};

verus! {

/// The value of bits, the first one the most significant.
pub open spec fn bits_value(bits: Seq<bool>) -> nat
    decreases bits.len(),
{
    if bits.len() == 0 {
        0
    } else {
        bits_value(bits.drop_last()) * 2 + if bits.last() {
            1nat
        } else {
            0nat
        }
    }
}

pub open spec fn pow2(e: nat) -> nat
    decreases e,
{
    if e == 0 {
        1
    } else {
        2 * pow2((e - 1) as nat)
    }
}

proof fn lemma_bits_value_bound(bits: Seq<bool>)
    ensures
        bits_value(bits) < pow2(bits.len()),
    decreases bits.len(),
{
    if bits.len() > 0 {
        lemma_bits_value_bound(bits.drop_last());
    }
}

/// Byte `k` of line `y`: the pixels `8k` to `8k + 7` of that line, ink as a set bit.
pub open spec fn row_byte(b: Bitmap, y: int, k: int) -> u8 {
    bits_value(b.ink.subrange(y * b.width + 8 * k, y * b.width + 8 * k + 8)) as u8
}

/// The bytes of every line; pixels past the last whole byte of a line are dropped.
pub open spec fn raw_rows(b: Bitmap) -> Seq<Seq<u8>> {
    Seq::new(b.height, |y: int| Seq::new(b.width / 8, |k: int| row_byte(b, y, k)))
}

/// A value as one byte, or zero where it does not fit.
pub open spec fn fit_byte(v: nat) -> u8 {
    if v < 256 {
        v as u8
    } else {
        0
    }
}

/// The writes of the image in the raw row format: the image command, the
/// header (mode, bytes per line, lines), then one write per line.
pub open spec fn raw_image_payloads(b: Bitmap) -> Seq<Seq<u8>> {
    seq![Command::ImageCommandHeader.spec_bytes(), seq![0u8, fit_byte(b.width / 8), fit_byte(b.height)]]
        + raw_rows(b)
}

/// The whole raw-row print job: enable, set thickness, the image, the wake
/// trailer, a line feed and the stop command.
pub open spec fn raw_job_payloads(b: Bitmap) -> Seq<Seq<u8>> {
    seq![Command::EnablePrinter.spec_bytes(), Command::SetThickness.spec_bytes()]
        + raw_image_payloads(b) + seq![
        Command::PrinterWakeMagicEnd.spec_bytes(),
        Command::PrintLineDots.spec_bytes(),
        Command::StopPrintJobs.spec_bytes(),
    ]
}

/// One line of the bitmap as bytes.
fn line_bytes(ink: &Vec<bool>, width: u32, height: u32, y: u32, Ghost(b): Ghost<Bitmap>) -> (r: Vec<u8>)
    requires
        ink@ == b.ink,
        b.width == width,
        b.height == height,
        ink@.len() == width as nat * height as nat,
        y < height,
    ensures
        r@ == raw_rows(b)[y as int],
{
    assert((y as nat + 1) * width as nat <= height as nat * width as nat) by (nonlinear_arith)
        requires y < height;
    assert((y as nat + 1) * width as nat == y as nat * width as nat + width as nat) by (nonlinear_arith);
    let total = ink.len();
    let row: usize = y as usize * width as usize;
    let n = width / 8;
    let mut out: Vec<u8> = Vec::new();
    for k in 0..n
        invariant
            n == width / 8,
            row == y as nat * width as nat,
            row + width <= ink@.len(),
            ink@.len() == total,
            ink@ == b.ink,
            b.width == width,
            out@.len() == k,
            forall|j: int| 0 <= j < k ==> out@[j] == row_byte(b, y as int, j),
    {
        let base: usize = row + 8 * k as usize;
        let mut byte: u8 = 0;
        for i in 0..8usize
            invariant
                base == row + 8 * k,
                k < width / 8,
                row + width <= ink@.len(),
                ink@.len() == total,
                byte as nat == bits_value(ink@.subrange(base as int, base + i)),
        {
            proof {
                lemma_bits_value_bound(ink@.subrange(base as int, base + i));
                assert(pow2(i as nat) <= 128) by {
                    reveal_with_fuel(pow2, 8);
                    assert(i == 0 || i == 1 || i == 2 || i == 3 || i == 4 || i == 5 || i == 6 || i == 7);
                }
                let s = ink@.subrange(base as int, base + i + 1);
                assert(s.drop_last() =~= ink@.subrange(base as int, base + i));
            }
            byte = byte * 2 + if ink[base + i] { 1u8 } else { 0u8 };
        }
        proof {
            assert(ink@.subrange(base as int, base + 8) =~= b.ink.subrange(
                y * b.width + 8 * k,
                y * b.width + 8 * k + 8,
            ));
        }
        out.push(byte);
    }
    assert(out@ =~= raw_rows(b)[y as int]);
    out
}

/// The writes of the image in the raw row format.
pub fn prep_image_data(img: &DitherApply) -> (r: Vec<BLEMessage>)
    ensures
        payloads(r@) == raw_image_payloads(img@),
{
    let width = img.width();
    let height = img.height();
    let ink = img.ink();
    let mut image_command: Vec<BLEMessage> = Vec::new();
    image_command.push(Command::ImageCommandHeader.message());
    let w8 = width / 8;
    let wb: u8 = if w8 < 256 { w8 as u8 } else { 0 };
    let hb: u8 = if height < 256 { height as u8 } else { 0 };
    image_command.push(BLEMessage { payload: vec![0u8, wb, hb] });
    for y in 0..height
        invariant
            ink@ == img@.ink,
            width == img@.width,
            height == img@.height,
            ink@.len() == width as nat * height as nat,
            image_command@.len() == 2 + y,
            forall|j: int| 0 <= j < 2 + y ==> (#[trigger] image_command@[j]).payload@ == raw_image_payloads(img@)[j],
    {
        let line = line_bytes(ink, width, height, y, Ghost(img@));
        image_command.push(BLEMessage { payload: line });
    }
    assert(payloads(image_command@) =~= raw_image_payloads(img@));
    image_command
}

/// The whole print job of a bitmap in the raw row format.
pub fn create_printer_command(image: &DitherApply) -> (r: Vec<BLEMessage>)
    ensures
        payloads(r@) == raw_job_payloads(image@),
{
    let mut commands: Vec<BLEMessage> = Vec::new();
    commands.push(Command::EnablePrinter.message());
    commands.push(Command::SetThickness.message());
    let mut data = prep_image_data(image);
    let ghost d = data@;
    commands.append(&mut data);
    commands.push(Command::PrinterWakeMagicEnd.message());
    commands.push(Command::PrintLineDots.message());
    commands.push(Command::StopPrintJobs.message());
    proof {
        let p = payloads(commands@);
        let want = raw_job_payloads(image@);
        assert(p.len() == want.len());
        assert forall|j: int| 0 <= j < p.len() implies p[j] == want[j] by {
            if 2 <= j < 2 + d.len() {
                assert(commands@[j] == d[j - 2]);
                assert(payloads(d)[j - 2] == raw_image_payloads(image@)[j - 2]);
            }
        }
        assert(p =~= want);
    }
    commands
}

} // verus!
