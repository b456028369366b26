//! Disk-recovery library: on-disk structure parsers (MBR, GPT, NTFS, FAT, exFAT,
//! ext, the Windows recycle bin), the decisions of the scanning and recovery
//! pipelines, and the data model they share.
use vstd::prelude::*;

pub mod bytes;
pub mod model;
pub mod text;
pub mod datetime;
pub mod ntfs;
pub mod paths;
pub mod partition_table;
pub mod partition_repair;
pub mod scanner;
pub mod carving;
pub mod scan;
pub mod deleted_scan;
pub mod disks;
pub mod privilege;
pub mod scheduler;
pub mod applog;
pub mod settings;
pub mod path_scan;

verus! {
} // verus!
