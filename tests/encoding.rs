use rs_luck_jingle::dither::{correct_level, DitherApply, DitherMode};
use rs_luck_jingle::hex::{append_hex, decode_hex, digit_str, to_hex, HexError};
use rs_luck_jingle::raster::{v_concat, GrayRaster};
use rs_luck_jingle::text::truncate;

fn packed(width: u32, height: u32, ink: Vec<bool>) -> String {
    let mut b = DitherApply::from_ink(width, height, ink).unwrap();
    b.make_image_hex_str()
}

#[test]
fn nibble_digits() {
    assert_eq!(to_hex(&[false, false, false, false]), "0");
    assert_eq!(to_hex(&[true, false, false, true]), "9");
    assert_eq!(to_hex(&[true, false, true, false]), "A");
    assert_eq!(to_hex(&[true, true, true, true]), "F");
    assert_eq!(digit_str(12), "C");
}

#[test]
fn count_digits_in_hex() {
    let mut s = String::from("x");
    append_hex(&mut s, 0x1A3);
    assert_eq!(s, "x1A3");
    let mut z = String::new();
    append_hex(&mut z, 0);
    assert_eq!(z, "0");
}

#[test]
fn decode_hex_pairs() {
    assert_eq!(decode_hex("10FF3012"), Ok(vec![0x10, 0xFF, 0x30, 0x12]));
    assert_eq!(decode_hex("abCD"), Ok(vec![0xAB, 0xCD]));
    assert_eq!(decode_hex(""), Ok(vec![]));
}

#[test]
fn decode_hex_errors() {
    assert_eq!(decode_hex("ABC"), Err(HexError::OddLength));
    assert_eq!(decode_hex("0G"), Err(HexError::InvalidDigit));
    assert_eq!(decode_hex("é0"), Err(HexError::InvalidDigit));
}

#[test]
fn single_ink_pixel_packs_to_preamble_and_pixel() {
    let hex = packed(1, 1, vec![true]);
    // "1", 318 clear bits, then the pixel: 320 bits, no padding needed.
    let want = format!("8{}1", "0".repeat(78));
    assert_eq!(hex, want);
    assert_eq!(hex.len(), 80);
}

#[test]
fn single_blank_pixel_packs() {
    let hex = packed(1, 1, vec![false]);
    assert_eq!(hex, format!("8{}", "0".repeat(79)));
}

#[test]
fn packing_pads_on_the_left() {
    // 319 + 2 = 321 bits: three clear bits in front.
    let hex = packed(2, 1, vec![true, true]);
    assert_eq!(hex.len(), 81);
    assert!(hex.starts_with("1"));
    assert!(hex.ends_with("03"));
    // 319 + 3 = 322 bits: two clear bits in front, so the preamble's bit is 0b0010.
    let hex = packed(3, 1, vec![true, false, true]);
    assert!(hex.starts_with("2"));
    assert!(hex.ends_with("05"));
}

#[test]
fn pack_round_trip() {
    let ink = vec![true, false, false, true, true, false, true, true, false, false, false, true];
    let hex = packed(4, 3, ink.clone());
    let back = DitherApply::from_hex_str(&hex, 4, 3).unwrap();
    assert_eq!(back.ink(), &ink);
    assert_eq!(back.width(), 4);
    assert_eq!(back.height(), 3);
    let empty = packed(0, 0, vec![]);
    assert_eq!(DitherApply::from_hex_str(&empty, 0, 0).unwrap().ink(), &Vec::<bool>::new());
}

#[test]
fn unpack_rejects_what_is_not_packed() {
    let hex = packed(1, 1, vec![true]);
    // wrong size
    assert!(DitherApply::from_hex_str(&hex, 2, 1).is_none());
    // lowercase digits
    let lower = format!("8{}a", "0".repeat(78));
    assert!(DitherApply::from_hex_str(&lower, 1, 1).is_none());
    // the preamble's set bit is missing
    let bad = format!("0{}1", "0".repeat(78));
    assert!(DitherApply::from_hex_str(&bad, 1, 1).is_none());
}

#[test]
fn raster_needs_one_sample_per_pixel() {
    assert!(GrayRaster::new(2, 2, vec![0, 0, 0]).is_none());
    assert!(GrayRaster::new(0, 2, vec![]).is_none());
    assert!(GrayRaster::new(2, 2, vec![0, 0, 0, 0]).is_some());
}

#[test]
fn tone_correction_values() {
    assert_eq!(correct_level(0, DitherMode::Diffusion), 0);
    assert_eq!(correct_level(255, DitherMode::Diffusion), 255);
    assert_eq!(correct_level(170, DitherMode::Diffusion), 173);
    assert_eq!(correct_level(166, DitherMode::Diffusion), 122);
    assert_eq!(correct_level(200, DitherMode::Threshold), 198);
    assert_eq!(correct_level(128, DitherMode::Threshold), 47);
}

#[test]
fn threshold_mode_marks_dark_pixels() {
    let r = GrayRaster::new(4, 1, vec![0, 128, 200, 255]).unwrap();
    let b = DitherApply::new_with_mode(r, DitherMode::Threshold);
    assert_eq!(b.ink(), &vec![true, true, false, false]);
}

#[test]
fn diffusion_spreads_the_error() {
    // Both samples correct to 122: the first becomes black, and its error
    // pushes the second over the middle, so it becomes white.
    let r = GrayRaster::new(2, 1, vec![166, 166]).unwrap();
    let b = DitherApply::new(r);
    assert_eq!(b.ink(), &vec![true, false]);
    let r = GrayRaster::new(2, 1, vec![0, 255]).unwrap();
    let b = DitherApply::new_with_mode(r, DitherMode::Diffusion);
    assert_eq!(b.ink(), &vec![true, false]);
}

#[test]
fn levels_to_ink() {
    let b = DitherApply::from_levels(3, 1, &vec![0, 255, 0]);
    assert_eq!(b.ink(), &vec![true, false, true]);
}

#[test]
fn truncate_by_characters() {
    assert_eq!(truncate("hello", 3), "hel");
    assert_eq!(truncate("hi", 60), "hi");
    assert_eq!(truncate("新的来了", 2), "新的");
    assert_eq!(truncate("", 0), "");
}

#[test]
fn stacking_rasters() {
    let a = GrayRaster::new(2, 1, vec![1, 2]).unwrap();
    let b = GrayRaster::new(3, 2, vec![3, 4, 5, 6, 7, 8]).unwrap();
    let s = v_concat(&[a, b]);
    assert_eq!(s.width, 3);
    assert_eq!(s.height, 3);
    assert_eq!(s.pixels, vec![1, 2, 0, 3, 4, 5, 6, 7, 8]);
    let e = v_concat(&[]);
    assert_eq!(e.width, 384);
    assert_eq!(e.height, 0);
    assert!(e.pixels.is_empty());
}
