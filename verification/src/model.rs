//! The shared data model: disks and partitions, scan sessions, recovered files,
//! S.M.A.R.T. health, the block-device interface and the commands that the
//! scanning helper process accepts.
use vstd::prelude::*;

verus! {

/// A physical disk as the dashboard lists it.
#[derive(Debug, Clone)]
pub struct DiskInfo {
    pub index: u32,
    pub model: String,
    pub serial: String,
    pub capacity_bytes: u64,
    pub free_bytes: u64,
    pub sector_size: u64,
    pub total_sectors: u64,
    pub partitions: Vec<PartitionInfo>,
    pub smart_status: Option<SmartStatus>,
    pub is_removable: bool,
    pub device_path: String,
}

/// A partition of a disk.
#[derive(Debug, Clone)]
pub struct PartitionInfo {
    pub start_sector: u64,
    pub size_sectors: u64,
    pub filesystem: String,
    pub mount_point: Option<String>,
    pub status: PartitionStatus,
    pub is_bootable: bool,
}

#[derive(Debug, Clone, Copy, PartialEq, Eq, Structural)]
pub enum PartitionStatus {
    Active,
    Deleted,
    Hidden,
    Unknown,
}

#[derive(Debug, Clone, Copy, PartialEq, Eq, Structural)]
pub enum ScanMode {
    Quick,
    Deep,
    Raw,
}

#[derive(Debug, Clone, Copy, PartialEq, Eq, Structural)]
pub enum ScanStatus {
    Pending,
    Scanning,
    Paused,
    Completed,
    Cancelled,
    Error,
}

/// A file that a scan found and that can be recovered.
#[derive(Debug, Clone)]
pub struct RecoveredFile {
    pub id: String,
    pub session_id: String,
    pub filename: String,
    pub extension: String,
    pub size_bytes: u64,
    pub original_path: String,
    pub recovered_path: Option<String>,
    pub signature_type: String,
    pub start_sector: u64,
    pub sha256: String,
    pub status: FileStatus,
    pub preview_available: bool,
    pub created_time: Option<String>,
    pub modified_time: Option<String>,
}

#[derive(Debug, Clone, Copy, PartialEq, Eq, Structural)]
pub enum FileStatus {
    Found,
    Recoverable,
    Recovered,
    Corrupted,
}

/// S.M.A.R.T. health of a disk.
#[derive(Debug, Clone)]
pub struct SmartStatus {
    pub healthy: bool,
    pub temperature: Option<u32>,
    pub power_on_hours: Option<u64>,
    pub attributes: Vec<SmartAttribute>,
    pub warning: Option<String>,
}

#[derive(Debug, Clone)]
pub struct SmartAttribute {
    pub id: u8,
    pub name: String,
    pub current: u8,
    pub worst: u8,
    pub threshold: u8,
    pub raw_value: u64,
    pub status: SmartAttrStatus,
}

/// The state of one S.M.A.R.T. attribute; `Good` is the attribute within its
/// threshold (written "ok" in the helper's JSON).
#[derive(Debug, Clone, Copy, PartialEq, Eq, Structural)]
pub enum SmartAttrStatus {
    Good,
    Warning,
    Critical,
}

/// A partition found on a disk, in the partition table or by its boot sector.
/// The confidence is in percent: 100 for a table entry, 75 for a boot sector
/// found outside the table.
#[derive(Debug, Clone)]
pub struct FoundPartition {
    pub start_sector: u64,
    pub size_sectors: u64,
    pub filesystem: String,
    pub label: Option<String>,
    pub confidence_percent: u8,
    pub is_bootable: bool,
}

#[derive(Debug, Clone, Copy, PartialEq, Eq, Structural)]
pub enum ImageStatus {
    Creating,
    Completed,
    Error,
}

/// Disk geometry.
#[derive(Debug, Clone, Copy, PartialEq, Eq, Structural)]
pub struct DiskGeometry {
    pub sector_size: u64,
    pub total_sectors: u64,
    pub capacity_bytes: u64,
    pub cylinders: u32,
    pub tracks_per_cylinder: u32,
    pub sectors_per_track: u32,
}

/// Why a device operation failed.
#[derive(Debug, Clone)]
pub enum DeviceError {
    /// The buffer cannot hold the requested sectors.
    BufferTooSmall,
    /// The operating system reported an error (its text).
    Io(String),
}

/// Read-only access to the sectors of a disk, implemented per platform.
pub trait BlockDevice {
    /// Reads `count` sectors from `start_sector` into the front of `buffer`.
    fn read_sectors(&mut self, start_sector: u64, count: u64, buffer: &mut [u8]) -> Result<(), DeviceError>;

    /// The geometry of the disk.
    fn get_geometry(&self) -> Result<DiskGeometry, DeviceError>;
}

/// A command to the scanning helper process (one JSON line each).
#[derive(Debug, Clone)]
pub enum SidecarCommand {
    Scan { device_path: String, scan_mode: String, signature_ids: Option<Vec<String>> },
    Pause,
    Resume,
    Cancel,
}

} // verus!
