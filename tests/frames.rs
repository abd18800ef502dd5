use rs_luck_jingle::frame::{image_frame_hex, image_frames, make_header, FrameError};

#[test]
fn header_with_short_count() {
    // 80 characters: 80 / 96 + 3 = 3, a single digit.
    let h = make_header(80);
    assert_eq!(h, "1D763000300030000000000000000000");
    assert_eq!(h.len(), 32);
}

#[test]
fn header_with_two_digit_count() {
    // 96 * 13 characters: 13 + 3 = 16 = 0x10.
    assert_eq!(make_header(96 * 13), "1D763000300010000000000000000000");
}

#[test]
fn header_with_three_digit_count() {
    // 96 * 256 characters: 256 + 3 = 0x103, front "03", end "01".
    assert_eq!(make_header(96 * 256), "1D763000300003010000000000000000");
}

#[test]
fn short_payload_is_one_padded_chunk() {
    let payload = "AB".repeat(40);
    let frames = image_frame_hex(&payload).unwrap();
    assert_eq!(frames.len(), 1);
    assert_eq!(frames[0].len(), 256);
    let want = format!("{}{}{}", make_header(80), payload, "0".repeat(144));
    assert_eq!(frames[0], want);
}

#[test]
fn payload_of_exactly_224_is_one_chunk() {
    let payload = "1".repeat(224);
    let frames = image_frame_hex(&payload).unwrap();
    assert_eq!(frames.len(), 1);
    assert_eq!(frames[0], format!("{}{}", make_header(224), payload));
}

#[test]
fn long_payload_is_cut_into_full_chunks() {
    // 224 + 256 + 10 characters: the header chunk, one full chunk, one padded.
    let payload = format!("{}{}{}", "A".repeat(224), "B".repeat(256), "C".repeat(10));
    let frames = image_frame_hex(&payload).unwrap();
    assert_eq!(frames.len(), 3);
    assert_eq!(frames[0], format!("{}{}", make_header(490), "A".repeat(224)));
    assert_eq!(frames[1], "B".repeat(256));
    assert_eq!(frames[2], format!("{}{}", "C".repeat(10), "0".repeat(246)));
    for f in &frames {
        assert_eq!(f.len(), 256);
    }
}

#[test]
fn payload_ending_on_a_chunk_boundary() {
    let payload = format!("{}{}", "A".repeat(224), "D".repeat(512));
    let frames = image_frame_hex(&payload).unwrap();
    assert_eq!(frames.len(), 3);
    assert_eq!(frames[1], "D".repeat(256));
    assert_eq!(frames[2], "D".repeat(256));
}

#[test]
fn chunks_decode_to_bytes() {
    let payload = "F0".repeat(40);
    let frames = image_frames(&payload).unwrap();
    assert_eq!(frames.len(), 1);
    assert_eq!(frames[0].len(), 128);
    assert_eq!(&frames[0][..6], &[0x1D, 0x76, 0x30, 0x00, 0x30, 0x00]);
    assert_eq!(frames[0][6], 0x30);
    assert_eq!(frames[0][16], 0xF0);
    assert_eq!(frames[0][127], 0x00);
}

#[test]
fn non_hex_payload_is_refused() {
    assert_eq!(image_frame_hex("12G4").unwrap_err(), FrameError::NotHex);
    assert_eq!(image_frames("日本").unwrap_err(), FrameError::NotHex);
}
