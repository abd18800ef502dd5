//! The printer's fixed identifiers and control commands.
use vstd::prelude::*;

verus! {

/// The start of the advertised name of the target printer model.
pub const PRINTER_NAME_PREFIX: &'static str = "LuckP_D1";

/// Dots across one printed line.
pub const PRINTER_WIDTH: u32 = 384;

/// The Bluetooth Base UUID, into which 16-bit short UUIDs are placed.
pub const BLUETOOTH_BASE_UUID: u128 = 0x00000000_0000_1000_8000_00805f9b34fb;

/// The characteristics of the printer, as 128-bit UUIDs.
pub const READ_UUID_1: u128 = 0x0000ff01_0000_1000_8000_00805f9b34fb;
pub const READ_UUID_2: u128 = 0x0000ff03_0000_1000_8000_00805f9b34fb;
pub const WRITE_UUID: u128 = 0x0000ff02_0000_1000_8000_00805f9b34fb;

/// The full UUID of a 16-bit short Bluetooth UUID.
pub open spec fn spec_uuid_from_u16(short: u16) -> u128 {
    (BLUETOOTH_BASE_UUID + short as int * 0x1_0000_0000_0000_0000_0000_0000) as u128
}

/// The full UUID of a 16-bit short Bluetooth UUID: the short value placed in
/// bits 96 to 111 of the Bluetooth Base UUID.
pub fn uuid_from_u16(short: u16) -> (r: u128)
    ensures
        r == spec_uuid_from_u16(short),
{
    BLUETOOTH_BASE_UUID + (short as u128) * 0x1_0000_0000_0000_0000_0000_0000
}

/// The characteristic UUIDs are the short ones the printer advertises.
pub proof fn lemma_characteristic_uuids()
    ensures
        READ_UUID_1 == spec_uuid_from_u16(0xff01),
        READ_UUID_2 == spec_uuid_from_u16(0xff03),
        WRITE_UUID == spec_uuid_from_u16(0xff02),
{
}

/// One write to the printer.
pub struct BLEMessage {
    pub payload: Vec<u8>,
}

/// The bytes of a sequence of writes.
pub open spec fn payloads(v: Seq<BLEMessage>) -> Seq<Seq<u8>> {
    Seq::new(v.len(), |i: int| v[i].payload@)
}

/// Bytes of the wake trailer.
pub const WAKE_MAGIC_LEN: usize = 3096;

/// The fixed control commands of the printer.
#[derive(Debug, Clone, Copy, PartialEq, Eq, Structural)]
pub enum Command {
    CheckMacAddress,
    DisableShutdown,
    EnablePrinter,
    SetThickness,
    PrintLineDots,
    StopPrintJobs,
    ImageCommandHeader,
    PrinterWakeMagicEnd,
}

impl Command {
    /// The bytes of each command.
    pub open spec fn spec_bytes(self) -> Seq<u8> {
        match self {
            Command::CheckMacAddress => seq![0x10u8, 0xFF, 0x30, 0x12],
            Command::DisableShutdown => seq![0x10u8, 0xFF, 0x12, 0x00, 0x00],
            Command::EnablePrinter => seq![0x10u8, 0xFF, 0xF1, 0x03],
            Command::SetThickness => seq![0x10u8, 0xFF, 0x10, 0x00, 0x03],
            Command::PrintLineDots => seq![0x1Bu8, 0x4A, 0x40],
            Command::StopPrintJobs => seq![0x10u8, 0xFF, 0xF1, 0x45],
            Command::ImageCommandHeader => seq![0x1Du8, 0x76, 0x30],
            Command::PrinterWakeMagicEnd => Seq::new(WAKE_MAGIC_LEN as nat, |i: int| 0u8),
        }
    }

    /// The bytes of the command.
    pub fn bytes(&self) -> (r: Vec<u8>)
        ensures
            r@ == self.spec_bytes(),
    {
        let r = match self {
            Command::CheckMacAddress => vec![0x10u8, 0xFF, 0x30, 0x12],
            Command::DisableShutdown => vec![0x10u8, 0xFF, 0x12, 0x00, 0x00],
            Command::EnablePrinter => vec![0x10u8, 0xFF, 0xF1, 0x03],
            Command::SetThickness => vec![0x10u8, 0xFF, 0x10, 0x00, 0x03],
            Command::PrintLineDots => vec![0x1Bu8, 0x4A, 0x40],
            Command::StopPrintJobs => vec![0x10u8, 0xFF, 0xF1, 0x45],
            Command::ImageCommandHeader => vec![0x1Du8, 0x76, 0x30],
            Command::PrinterWakeMagicEnd => {
                let mut z: Vec<u8> = Vec::new();
                for i in 0..WAKE_MAGIC_LEN
                    invariant
                        z@ == Seq::new(i as nat, |j: int| 0u8),
                {
                    z.push(0u8);
                    assert(z@ =~= Seq::new((i + 1) as nat, |j: int| 0u8));
                }
                z
            },
        };
        assert(r@ =~= self.spec_bytes());
        r
    }

    /// The command as one write.
    pub fn message(&self) -> (r: BLEMessage)
        ensures
            r.payload@ == self.spec_bytes(),
    {
        BLEMessage { payload: self.bytes() }
    }
}

} // verus!
