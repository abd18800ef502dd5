//! The session's decisions: which device is the printer, which characteristic
//! takes the commands, and which writes make up the setup and a print job.
use vstd::prelude::*;
use crate::dither::DitherApply;
use crate::frame::{frame_hex, image_frames};
use crate::hex::{hex_bytes, hex_value, lemma_upper_hex_round_trip};
use crate::instruction::{payloads, BLEMessage, Command, PRINTER_NAME_PREFIX};
use crate::pack::{pack_hex, lemma_pack_round_trip};
use crate::printer_image::{create_printer_command, raw_job_payloads};

verus! {

/// What can go wrong in a session, and with a job.
#[derive(Debug, Clone, Copy, PartialEq, Eq, Structural)]
pub enum SessionError {
    /// No nearby device advertises the printer's name.
    DiscoveryFailure,
    /// The connection was not made within its time bound.
    ConnectTimeout,
    /// The device lacks the characteristic that takes the commands.
    CharacteristicNotFound,
    /// A write did not complete within its time bound.
    WriteTimeout,
    /// The link rejected a write.
    WriteFailure,
    /// The raster to print could not be produced.
    RenderFailure,
}

/// `p` occurs in `s`.
pub open spec fn name_contains(s: Seq<char>, p: Seq<char>) -> bool {
    exists|i: int| 0 <= i && i + p.len() <= s.len() && #[trigger] s.subrange(i, i + p.len()) == p
}

/// An advertised name that marks the printer.
pub open spec fn is_printer_name(name: Option<String>) -> bool {
    match name {
        Some(s) => name_contains(s@, PRINTER_NAME_PREFIX@),
        None => false,
    }
}

/// `p` occurs in `s` at position `i`.
fn occurs_at(s: &str, p: &str, i: usize) -> (r: bool)
    requires
        i + p@.len() <= s@.len(),
    ensures
        r == (s@.subrange(i as int, i + p@.len()) == p@),
{
    let m = p.unicode_len();
    let n = s.unicode_len();
    for j in 0..m
        invariant
            m == p@.len(),
            n == s@.len(),
            i + m <= s@.len(),
            forall|k: int| 0 <= k < j ==> s@[i + k] == p@[k],
    {
        if s.get_char(i + j) != p.get_char(j) {
            proof {
                assert(s@.subrange(i as int, i + p@.len())[j as int] != p@[j as int]);
            }
            return false;
        }
    }
    assert(s@.subrange(i as int, i + p@.len()) =~= p@);
    true
}

/// Whether an advertised name marks the printer: it holds the model's name prefix.
pub fn is_printer(name: &str) -> (r: bool)
    ensures
        r == name_contains(name@, PRINTER_NAME_PREFIX@),
{
    let p = PRINTER_NAME_PREFIX;
    let n = name.unicode_len();
    let m = p.unicode_len();
    if m > n {
        return false;
    }
    let last = n - m;
    let mut i: usize = 0;
    loop
        invariant
            n == name@.len(),
            m == p@.len(),
            p@ == PRINTER_NAME_PREFIX@,
            m <= n,
            last == n - m,
            i <= last,
            forall|k: int| 0 <= k < i ==> #[trigger] name@.subrange(k, k + m) != p@,
        decreases last - i,
    {
        if occurs_at(name, p, i) {
            return true;
        }
        if i == last {
            proof {
                assert forall|k: int| 0 <= k && k + p@.len() <= name@.len() implies #[trigger] name@.subrange(k, k + p@.len()) != p@ by {
                    assert(k <= last);
                }
            }
            return false;
        }
        i = i + 1;
    }
}

/// The first device whose advertised name marks the printer.
pub fn find_printer(local_names: &Vec<Option<String>>) -> (r: Result<usize, SessionError>)
    ensures
        r matches Ok(i) ==> i < local_names@.len() && is_printer_name(local_names@[i as int])
            && forall|j: int| 0 <= j < i ==> !is_printer_name(#[trigger] local_names@[j]),
        r matches Err(e) ==> e == SessionError::DiscoveryFailure && forall|j: int|
            0 <= j < local_names@.len() ==> !is_printer_name(#[trigger] local_names@[j]),
{
    for i in 0..local_names.len()
        invariant
            forall|j: int| 0 <= j < i ==> !is_printer_name(#[trigger] local_names@[j]),
    {
        match &local_names[i] {
            Some(name) => {
                if is_printer(name.as_str()) {
                    return Ok(i);
                }
            },
            None => {},
        }
    }
    Err(SessionError::DiscoveryFailure)
}

/// The first characteristic with the wanted UUID.
pub fn find_characteristic(uuids: &Vec<u128>, target: u128) -> (r: Result<usize, SessionError>)
    ensures
        r matches Ok(i) ==> i < uuids@.len() && uuids@[i as int] == target && forall|j: int|
            0 <= j < i ==> uuids@[j] != target,
        r matches Err(e) ==> e == SessionError::CharacteristicNotFound && forall|j: int|
            0 <= j < uuids@.len() ==> uuids@[j] != target,
{
    for i in 0..uuids.len()
        invariant
            forall|j: int| 0 <= j < i ==> uuids@[j] != target,
    {
        if uuids[i] == target {
            return Ok(i);
        }
    }
    Err(SessionError::CharacteristicNotFound)
}

/// The writes sent once after connecting: no automatic shutdown, print thickness.
pub fn setup_commands() -> (r: Vec<BLEMessage>)
    ensures
        payloads(r@) == seq![Command::DisableShutdown.spec_bytes(), Command::SetThickness.spec_bytes()],
{
    let r = vec![Command::DisableShutdown.message(), Command::SetThickness.message()];
    assert(payloads(r@) =~= seq![Command::DisableShutdown.spec_bytes(), Command::SetThickness.spec_bytes()]);
    r
}

/// The two wire formats that the printer family accepts.
#[derive(Debug, Clone, Copy, PartialEq, Eq, Structural)]
pub enum WireFormat {
    /// The packed hexadecimal payload, framed into chunks.
    HexNibbles,
    /// Eight pixels per byte, one write per line.
    RawRows,
}

/// The writes of a print job in the chunked hexadecimal format: the wake
/// trailer, every chunk of the packed payload, then the stop command.
pub open spec fn hex_job_payloads(ink: Seq<bool>) -> Seq<Seq<u8>> {
    let f = frame_hex(pack_hex(ink));
    seq![Command::PrinterWakeMagicEnd.spec_bytes()] + Seq::new(f.len(), |i: int| hex_bytes(f[i]))
        + seq![Command::StopPrintJobs.spec_bytes()]
}

/// The writes of a print job of `bitmap` in the given format.
pub fn job_commands(bitmap: &mut DitherApply, format: WireFormat) -> (r: Vec<BLEMessage>)
    ensures
        *final(bitmap) == *old(bitmap),
        format == WireFormat::HexNibbles ==> payloads(r@) == hex_job_payloads(old(bitmap)@.ink),
        format == WireFormat::RawRows ==> payloads(r@) == raw_job_payloads(old(bitmap)@),
{
    match format {
        WireFormat::RawRows => create_printer_command(bitmap),
        WireFormat::HexNibbles => {
            let hex = bitmap.make_image_hex_str();
            let ghost ink = bitmap@.ink;
            proof {
                lemma_pack_round_trip(ink);
                assert forall|i: int| 0 <= i < hex@.len() implies (#[trigger] hex_value(hex@[i])) is Some by {
                    lemma_upper_hex_round_trip(hex@[i]);
                }
            }
            let frames = match image_frames(hex.as_str()) {
                Ok(f) => f,
                Err(_) => {
                    proof {
                        assert(false);
                    }
                    Vec::new()
                },
            };
            let mut commands: Vec<BLEMessage> = Vec::new();
            commands.push(Command::PrinterWakeMagicEnd.message());
            let ghost f = frame_hex(pack_hex(ink));
            for i in 0..frames.len()
                invariant
                    frames@.len() == f.len(),
                    forall|j: int| 0 <= j < f.len() ==> (#[trigger] frames@[j])@ == hex_bytes(f[j]),
                    commands@.len() == 1 + i,
                    commands@[0].payload@ == Command::PrinterWakeMagicEnd.spec_bytes(),
                    forall|j: int| 1 <= j < 1 + i ==> (#[trigger] commands@[j]).payload@ == hex_bytes(f[j - 1]),
            {
                commands.push(BLEMessage { payload: frames[i].clone() });
            }
            commands.push(Command::StopPrintJobs.message());
            assert(payloads(commands@) =~= hex_job_payloads(ink));
            commands
        },
    }
}

} // verus!
