use rs_luck_jingle::dither::DitherApply;
use rs_luck_jingle::frame::image_frames;
use rs_luck_jingle::instruction::{uuid_from_u16, Command, READ_UUID_1, READ_UUID_2, WRITE_UUID};
use rs_luck_jingle::printer_image::{create_printer_command, prep_image_data};
use rs_luck_jingle::session::{
    find_characteristic, find_printer, is_printer, job_commands, setup_commands, SessionError,
    WireFormat,
};

#[test]
fn short_uuids() {
    assert_eq!(uuid_from_u16(0xFF02), WRITE_UUID);
    assert_eq!(uuid_from_u16(0xFF01), READ_UUID_1);
    assert_eq!(uuid_from_u16(0xFF03), READ_UUID_2);
    assert_eq!(uuid_from_u16(0x1122), 0x00001122_0000_1000_8000_00805f9b34fb);
}

#[test]
fn printer_names() {
    assert!(is_printer("LuckP_D1"));
    assert!(is_printer("LuckP_D1-8A2F"));
    assert!(is_printer("my LuckP_D1"));
    assert!(!is_printer("LuckP_D"));
    assert!(!is_printer(""));
}

#[test]
fn first_matching_device() {
    let names = vec![None, Some("Phone".to_string()), Some("LuckP_D1_x".to_string()), Some("LuckP_D1".to_string())];
    assert_eq!(find_printer(&names), Ok(2));
    assert_eq!(find_printer(&vec![]), Err(SessionError::DiscoveryFailure));
    assert_eq!(find_printer(&vec![None, Some("TV".to_string())]), Err(SessionError::DiscoveryFailure));
}

#[test]
fn write_characteristic() {
    let uuids = vec![READ_UUID_1, WRITE_UUID, READ_UUID_2];
    assert_eq!(find_characteristic(&uuids, WRITE_UUID), Ok(1));
    assert_eq!(
        find_characteristic(&vec![READ_UUID_1], WRITE_UUID),
        Err(SessionError::CharacteristicNotFound)
    );
}

#[test]
fn command_bytes() {
    assert_eq!(Command::CheckMacAddress.bytes(), vec![0x10, 0xFF, 0x30, 0x12]);
    assert_eq!(Command::DisableShutdown.bytes(), vec![0x10, 0xFF, 0x12, 0x00, 0x00]);
    assert_eq!(Command::EnablePrinter.bytes(), vec![0x10, 0xFF, 0xF1, 0x03]);
    assert_eq!(Command::SetThickness.bytes(), vec![0x10, 0xFF, 0x10, 0x00, 0x03]);
    assert_eq!(Command::PrintLineDots.bytes(), vec![0x1B, 0x4A, 0x40]);
    assert_eq!(Command::StopPrintJobs.bytes(), vec![0x10, 0xFF, 0xF1, 0x45]);
    assert_eq!(Command::ImageCommandHeader.bytes(), vec![0x1D, 0x76, 0x30]);
    assert_eq!(Command::PrinterWakeMagicEnd.bytes(), vec![0u8; 3096]);
}

#[test]
fn setup_is_shutdown_then_thickness() {
    let s = setup_commands();
    assert_eq!(s.len(), 2);
    assert_eq!(s[0].payload, Command::DisableShutdown.bytes());
    assert_eq!(s[1].payload, Command::SetThickness.bytes());
}

#[test]
fn raw_rows_pack_eight_pixels_per_byte() {
    let mut ink = vec![false; 20];
    // line 0: pixels 0 and 7 of the only whole byte; pixel 8 falls past it
    ink[0] = true;
    ink[7] = true;
    ink[8] = true;
    // line 1: pixel 9, past the whole byte as well
    ink[10 + 9] = true;
    let b = DitherApply::from_ink(10, 2, ink).unwrap();
    let msgs = prep_image_data(&b);
    assert_eq!(msgs.len(), 4);
    assert_eq!(msgs[0].payload, vec![0x1D, 0x76, 0x30]);
    assert_eq!(msgs[1].payload, vec![0, 1, 2]);
    assert_eq!(msgs[2].payload, vec![0x81]);
    assert_eq!(msgs[3].payload, vec![0x00]);
}

#[test]
fn raw_header_bytes_that_do_not_fit_are_zero() {
    let b = DitherApply::from_ink(8, 300, vec![false; 2400]).unwrap();
    let msgs = prep_image_data(&b);
    assert_eq!(msgs[1].payload, vec![0, 1, 0]);
    assert_eq!(msgs.len(), 302);
}

#[test]
fn raw_job_wraps_the_image() {
    let b = DitherApply::from_ink(16, 1, vec![true; 16]).unwrap();
    let msgs = create_printer_command(&b);
    assert_eq!(msgs.len(), 8);
    assert_eq!(msgs[0].payload, Command::EnablePrinter.bytes());
    assert_eq!(msgs[1].payload, Command::SetThickness.bytes());
    assert_eq!(msgs[4].payload, vec![0xFF, 0xFF]);
    assert_eq!(msgs[5].payload, Command::PrinterWakeMagicEnd.bytes());
    assert_eq!(msgs[6].payload, Command::PrintLineDots.bytes());
    assert_eq!(msgs[7].payload, Command::StopPrintJobs.bytes());
}

#[test]
fn hex_job_sends_wake_chunks_stop() {
    let mut b = DitherApply::from_ink(1, 1, vec![true]).unwrap();
    let msgs = job_commands(&mut b, WireFormat::HexNibbles);
    let hex = b.make_image_hex_str();
    let frames = image_frames(&hex).unwrap();
    assert_eq!(msgs.len(), frames.len() + 2);
    assert_eq!(msgs[0].payload, Command::PrinterWakeMagicEnd.bytes());
    assert_eq!(msgs[1].payload, frames[0]);
    assert_eq!(msgs[msgs.len() - 1].payload, Command::StopPrintJobs.bytes());
    let raw = job_commands(&mut b, WireFormat::RawRows);
    assert_eq!(raw.len(), 8);
}
