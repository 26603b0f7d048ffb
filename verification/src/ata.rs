//! The disk driver's decisions and register arithmetic: what to write into
//! each controller port and how to read its status, kept apart from the
//! port accesses themselves, which are machine effects.

use vstd::prelude::*;

verus! {

/// What went wrong talking to a drive.
#[derive(Debug, Clone, Copy, PartialEq, Eq, Structural)]
pub enum AtaDriveError {
    /// A transfer was asked to move more bytes than one sector holds.
    InvalidByteCount(usize),
    /// The drive reported the given status with its error bit set.
    DriveError(u8),
}

/// One ATA drive: the port numbers its registers answer at, computed once
/// from the controller's base port.
#[derive(Debug, Clone, Copy, PartialEq, Eq, Structural)]
pub struct ATADrive {
    /// The 16-bit data register.
    pub data_port: u16,
    /// The error register.
    pub error_port: u16,
    /// The sector-count register.
    pub sector_count_port: u16,
    /// Low byte of the sector number.
    pub lba_low_port: u16,
    /// Middle byte of the sector number.
    pub lba_mid_port: u16,
    /// High byte of the sector number.
    pub lba_hi_port: u16,
    /// The drive-select register.
    pub device_port: u16,
    /// The command and status register.
    pub command_port: u16,
    /// The device-control register.
    pub control_port: u16,
    /// Whether this is the controller's master drive.
    pub master: bool,
    /// Bytes per sector; 512 on this hardware.
    pub bytes_per_sector: usize,
    /// Last addressable sector, learnt from identification.
    pub lba_end: u64,
}

impl ATADrive {
    /// A drive on the controller at `port_base`.
    pub fn new(port_base: u16, master: bool) -> (d: ATADrive)
        requires
            port_base + 0x206 <= u16::MAX,
        ensures
            d.data_port == port_base,
            d.error_port == port_base + 1,
            d.sector_count_port == port_base + 2,
            d.lba_low_port == port_base + 3,
            d.lba_mid_port == port_base + 4,
            d.lba_hi_port == port_base + 5,
            d.device_port == port_base + 6,
            d.command_port == port_base + 7,
            d.control_port == port_base + 0x206,
            d.master == master,
            d.bytes_per_sector == 512,
            d.lba_end == 0,
    {
        ATADrive {
            data_port: port_base,
            error_port: port_base + 1,
            sector_count_port: port_base + 2,
            lba_low_port: port_base + 3,
            lba_mid_port: port_base + 4,
            lba_hi_port: port_base + 5,
            device_port: port_base + 6,
            command_port: port_base + 7,
            control_port: port_base + 0x206,
            master,
            bytes_per_sector: 512,
            lba_end: 0,
        }
    }
}

/// Waits on a drive's status register; reading and re-reading the port is
/// machine work, the verdict on each status byte is decided here.
pub struct DriveAsync<'a> {
    /// The command and status register being watched.
    pub command_port: &'a u16,
}

impl<'a> DriveAsync<'a> {
    /// A waiter over the given status register.
    pub fn new(command_port: &'a u16) -> (d: DriveAsync<'a>)
        ensures
            d.command_port == command_port,
    {
        DriveAsync { command_port }
    }
}

/// The verdict on one drive status byte.
#[derive(Debug, Clone, Copy, PartialEq, Eq, Structural)]
pub enum DrivePoll {
    /// The error bit is set: the operation failed with this status.
    Failed(u8),
    /// The drive is still busy: poll again.
    Pending,
    /// The drive is ready.
    Ready,
}

/// Decide what one status byte means: error bit set fails, busy without
/// error stays pending, anything else is ready.
pub fn poll_status(status: u8) -> (r: DrivePoll)
    ensures
        status & 0x01 != 0 ==> r == DrivePoll::Failed(status),
        status & 0x01 == 0 && status & 0x80 == 0x80 ==> r == DrivePoll::Pending,
        status & 0x01 == 0 && status & 0x80 != 0x80 ==> r == DrivePoll::Ready,
{
    if (status & 0x01) != 0 {
        DrivePoll::Failed(status)
    } else if (status & 0x80) == 0x80 && (status & 0x01) != 0x01 {
        DrivePoll::Pending
    } else {
        DrivePoll::Ready
    }
}

/// Reject a one-sector transfer whose sector number uses more than 28 bits
/// or whose byte count exceeds the sector size.
pub fn check_transfer(sector: u64, count: usize, bytes_per_sector: usize) -> (r: Result<
    (),
    AtaDriveError,
>)
    ensures
        (r is Ok) == (sector & 0xF0000000 == 0 && count <= bytes_per_sector),
        r is Err ==> r == Err::<(), AtaDriveError>(AtaDriveError::InvalidByteCount(count)),
{
    if (sector & 0xF0000000) != 0 || count > bytes_per_sector {
        Err(AtaDriveError::InvalidByteCount(count))
    } else {
        Ok(())
    }
}

/// The drive-select byte for a 28-bit sector access: the master or slave
/// marker with the sector's top nibble.
pub fn lba28_select(master: bool, sector: u64) -> (r: u8)
    ensures
        r == ((if master {
            0xE0u64
        } else {
            0xF0u64
        }) | ((sector & 0x0F000000) >> 24)) as u8,
{
    proof {
        let s = sector;
        assert(((s & 0x0F000000) >> 24) <= 0x0F) by (bit_vector);
    }
    let base: u64 = if master {
        0xE0
    } else {
        0xF0
    };
    (base | ((sector & 0x0F000000) >> 24u64)) as u8
}

/// The three low bytes of a sector number, for the address registers.
pub fn lba28_bytes(sector: u64) -> (r: (u8, u8, u8))
    ensures
        r.0 == (sector & 0x000000FF) as u8,
        r.1 == ((sector & 0x0000FF00) >> 8) as u8,
        r.2 == ((sector & 0x00FF0000) >> 16) as u8,
{
    (
        (sector & 0x000000FF) as u8,
        ((sector & 0x0000FF00) >> 8u64) as u8,
        ((sector & 0x00FF0000) >> 16u64) as u8,
    )
}

/// The last addressable sector from the two identification words that hold
/// the sector count.
pub fn lba_end_from_identify(low: u16, high: u16) -> (r: u64)
    requires
        low != 0 || high != 0,
    ensures
        r == ((high as u64) << 16 | (low as u64)) - 1,
{
    proof {
        let l = low as u64;
        let h = high as u64;
        assert(l > 0 || h > 0 ==> (h << 16 | l) >= 1) by (bit_vector)
            requires
                l <= 0xFFFF && h <= 0xFFFF,
        ;
    }
    ((high as u64) << 16u64 | (low as u64)) - 1
}

} // verus!
