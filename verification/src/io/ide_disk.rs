//! Decision logic of the ATA disk driver: classifying status bytes and
//! reading the drive's identity data. The port polling loops that feed these
//! functions live in the hardware layer.

use vstd::prelude::*;

verus! {

/// The drive is busy.
pub const ATA_SR_BSY: u8 = 0x80;
/// Drive write fault.
pub const ATA_SR_DF: u8 = 0x20;
/// Data request ready.
pub const ATA_SR_DRQ: u8 = 0x08;
/// Error.
pub const ATA_SR_ERR: u8 = 0x01;

/// What kind of device answered the identify handshake.
#[derive(Debug, Clone, Copy, PartialEq, Eq, Structural)]
pub enum DiskType {
    /// Nothing known yet.
    Unknown,
    /// A plain ATA drive.
    Ata,
    /// An ATAPI packet device.
    Atapi,
}

/// How sectors on the drive are addressed.
#[derive(Debug, Clone, Copy, PartialEq, Eq, Structural)]
pub enum AccessType {
    /// Nothing known yet.
    Unknown,
    /// 28-bit logical block addresses.
    Lba28,
    /// 48-bit logical block addresses.
    Lba48,
}

/// What a status byte means for an in-flight transfer.
#[derive(Debug, Clone, Copy, PartialEq, Eq, Structural)]
pub enum AtaStep {
    /// The busy flag is still set: keep polling.
    Busy,
    /// The error flag is set: the transfer failed.
    TransferError,
    /// The drive-fault flag is set: the drive failed.
    DriveFault,
    /// No data request although the drive is neither busy nor failed.
    NotReady,
    /// Data is ready to be moved.
    Ready,
}

/// How a transfer proceeds on seeing `status`: wait while busy, fail on the
/// error or fault flag, refuse without a data request, else move data.
pub open spec fn spec_ata_step(status: u8) -> AtaStep {
    if status & ATA_SR_BSY == ATA_SR_BSY {
        AtaStep::Busy
    } else if status & ATA_SR_ERR == ATA_SR_ERR {
        AtaStep::TransferError
    } else if status & ATA_SR_DF == ATA_SR_DF {
        AtaStep::DriveFault
    } else if status & ATA_SR_DRQ != ATA_SR_DRQ {
        AtaStep::NotReady
    } else {
        AtaStep::Ready
    }
}

/// Classifies one alternate-status byte read while polling a transfer.
pub fn ata_step(status: u8) -> (r: AtaStep)
    ensures
        r == spec_ata_step(status),
{
    if status & ATA_SR_BSY == ATA_SR_BSY {
        AtaStep::Busy
    } else if status & ATA_SR_ERR == ATA_SR_ERR {
        AtaStep::TransferError
    } else if status & ATA_SR_DF == ATA_SR_DF {
        AtaStep::DriveFault
    } else if status & ATA_SR_DRQ != ATA_SR_DRQ {
        AtaStep::NotReady
    } else {
        AtaStep::Ready
    }
}

/// The 48-bit sector count of identify words 100 to 103.
pub open spec fn spec_lba48_sectors(data: Seq<u16>) -> u64 {
    (data[100] as u64) | ((data[101] as u64) << 16) | ((data[102] as u64) << 32) | ((
    data[103] as u64) << 48)
}

/// The 28-bit sector count of identify words 60 and 61.
pub open spec fn spec_lba28_sectors(data: Seq<u16>) -> u64 {
    (data[60] as u64) | ((data[61] as u64) << 16)
}

/// Reads the drive geometry out of the 256 identify words: a drive reporting
/// 48-bit addressable sectors uses 48-bit addressing; else one reporting
/// 28-bit sectors uses 28-bit addressing; else nothing is known.
pub fn parse_identify_sectors(data: &Vec<u16>) -> (r: (AccessType, u64))
    requires
        data@.len() == 256,
    ensures
        spec_lba48_sectors(data@) > 0 ==> r == (AccessType::Lba48, spec_lba48_sectors(data@)),
        spec_lba48_sectors(data@) == 0 && spec_lba28_sectors(data@) > 0 ==> r == (
            AccessType::Lba28,
            spec_lba28_sectors(data@),
        ),
        spec_lba48_sectors(data@) == 0 && spec_lba28_sectors(data@) == 0 ==> r == (
            AccessType::Unknown,
            0u64,
        ),
    {
        let w100 = data[100];
        let w101 = data[101];
        let w102 = data[102];
        let w103 = data[103];
        let num48: u64 = (w100 as u64) | ((w101 as u64) << 16) | ((w102 as u64) << 32) | ((
        w103 as u64) << 48);
        if num48 > 0 {
            (AccessType::Lba48, num48)
        } else {
            let w60 = data[60];
            let w61 = data[61];
            let num28: u64 = (w60 as u64) | ((w61 as u64) << 16);
            if num28 > 0 {
                (AccessType::Lba28, num28)
            } else {
                (AccessType::Unknown, 0)
            }
        }
    }

/// The cylinder-register signature of an ATAPI device after a failed
/// identify: `0x14 0xeb` or `0x69 0x96`.
pub open spec fn spec_is_atapi_signature(cl: u8, ch: u8) -> bool {
    (cl == 0x14 && ch == 0xeb) || (cl == 0x69 && ch == 0x96)
}

/// True when the two cylinder registers carry the ATAPI signature.
pub fn is_atapi_signature(cl: u8, ch: u8) -> (r: bool)
    ensures
        r == spec_is_atapi_signature(cl, ch),
{
    (cl == 0x14 && ch == 0xeb) || (cl == 0x69 && ch == 0x96)
}

/// The I/O port base a PCI base-address register selects: a value of 0 or 1
/// means the legacy default; anything else carries the port in its upper
/// bits.
pub fn select_port(port: u32, default: u16) -> (r: u16)
    ensures
        (port == 0 || port == 1) ==> r == default,
        !(port == 0 || port == 1) ==> r == default & 0xfff0,
{
    match port {
        0 | 1 => default,
        _ => default & 0xfff0,
    }
}

} // verus!
