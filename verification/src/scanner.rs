//! The scanning helper's view of a raw disk: volume probes, the partition table
//! as the helper reads it, and the operations that it does not perform yet.
use vstd::prelude::*;
use crate::bytes::{bytes_at, bytes_match, le16, le32, le64, u32le, u64le};
use crate::model::{DeviceError, DiskGeometry, FoundPartition, RecoveredFile, SidecarCommand, SmartStatus};
use crate::text::{push_str_chars, string_of};

verus! {

/// Why an operation of the scanning helper failed.
#[derive(Debug, Clone, Copy, PartialEq, Eq, Structural)]
pub enum ScanError {
    /// Fewer than 512 bytes were given for an MBR.
    MbrTooSmall,
    /// The MBR does not end in `55 AA`.
    MbrBadSignature,
    /// Fewer than 92 bytes were given for a GPT header.
    GptTooSmall,
    /// The GPT header does not start with `EFI PART`.
    GptBadSignature,
    /// The operation is not available yet.
    NotImplemented,
}

// ===== Volume probes =====

pub open spec fn exfat_oem() -> Seq<u8> {
    seq![0x45u8, 0x58u8, 0x46u8, 0x41u8, 0x54u8, 0x20u8, 0x20u8, 0x20u8]
}

pub open spec fn ntfs_oem_short() -> Seq<u8> {
    seq![0x4Eu8, 0x54u8, 0x46u8, 0x53u8, 0x20u8]
}

/// An ext2/3/4 volume: the superblock magic `53 EF` at 0x438.
pub fn is_ext_volume(buffer: &[u8]) -> (r: bool)
    ensures
        r == (buffer@.len() >= 0x43A && buffer@[0x438] == 0x53 && buffer@[0x439] == 0xEF),
{
    if buffer.len() < 0x438 + 2 {
        return false;
    }
    buffer[0x438] == 0x53 && buffer[0x439] == 0xEF
}

/// A FAT volume: at least one sector that starts with a jump instruction (`EB` or `E9`).
pub fn is_fat_volume(buffer: &[u8]) -> (r: bool)
    ensures
        r == (buffer@.len() >= 512 && (buffer@[0] == 0xEB || buffer@[0] == 0xE9)),
{
    if buffer.len() < 512 {
        return false;
    }
    buffer[0] == 0xEB || buffer[0] == 0xE9
}

/// An exFAT volume: the OEM id `EXFAT   ` at 3.
pub fn is_exfat_volume(buffer: &[u8]) -> (r: bool)
    ensures
        r == (buffer@.len() >= 11 && bytes_at(buffer@, 3, exfat_oem())),
{
    if buffer.len() < 11 {
        return false;
    }
    let oem: [u8; 8] = [0x45, 0x58, 0x46, 0x41, 0x54, 0x20, 0x20, 0x20];
    assert(oem@ =~= exfat_oem());
    bytes_match(buffer, 3, &oem)
}

/// An NTFS volume: the OEM id starting `NTFS ` at 3.
pub fn is_ntfs_volume(buffer: &[u8]) -> (r: bool)
    ensures
        r == (buffer@.len() >= 8 && bytes_at(buffer@, 3, ntfs_oem_short())),
{
    if buffer.len() < 8 {
        return false;
    }
    let oem: [u8; 5] = [0x4E, 0x54, 0x46, 0x53, 0x20];
    assert(oem@ =~= ntfs_oem_short());
    bytes_match(buffer, 3, &oem)
}

// ===== File-system walkers and disk operations not performed yet =====

/// Lists the files of an NTFS volume; no file is listed yet.
pub fn parse_ntfs(buffer: &[u8], sector_offset: u64) -> (r: Result<Vec<RecoveredFile>, ScanError>)
    ensures
        r matches Ok(v) && v@.len() == 0,
{
    Ok(Vec::new())
}

/// Lists the files of a FAT32 or exFAT volume; no file is listed yet.
pub fn parse_fat(buffer: &[u8], sector_offset: u64) -> (r: Result<Vec<RecoveredFile>, ScanError>)
    ensures
        r matches Ok(v) && v@.len() == 0,
{
    Ok(Vec::new())
}

/// Lists the files of an ext4 volume; no file is listed yet.
pub fn parse_ext4(buffer: &[u8], sector_offset: u64) -> (r: Result<Vec<RecoveredFile>, ScanError>)
    ensures
        r matches Ok(v) && v@.len() == 0,
{
    Ok(Vec::new())
}

/// Searches sectors for boot sectors of lost partitions; none is reported yet.
pub fn search_lost_partitions(buffer: &[u8], sector_count: u64) -> (r: Result<Vec<FoundPartition>, ScanError>)
    ensures
        r matches Ok(v) && v@.len() == 0,
{
    Ok(Vec::new())
}

/// Writes a new partition table; refused, as it is not available yet.
pub fn rebuild_partition_table(device_path: &str, partitions: &[FoundPartition]) -> (r: Result<(), ScanError>)
    ensures
        r == Err::<(), ScanError>(ScanError::NotImplemented),
{
    Err(ScanError::NotImplemented)
}

/// Saves the boot sector of a volume to a file; refused, as it is not available yet.
pub fn backup_boot_sector(device_path: &str, output_path: &str) -> (r: Result<(), ScanError>)
    ensures
        r == Err::<(), ScanError>(ScanError::NotImplemented),
{
    Err(ScanError::NotImplemented)
}

/// Writes a saved boot sector back; refused, as it is not available yet.
pub fn restore_boot_sector(device_path: &str, backup_path: &str) -> (r: Result<(), ScanError>)
    ensures
        r == Err::<(), ScanError>(ScanError::NotImplemented),
{
    Err(ScanError::NotImplemented)
}

/// Copies a disk sector by sector into an image file; refused, as it is not available yet.
pub fn create_disk_image(device_path: &str, output_path: &str, skip_bad_sectors: bool) -> (r: Result<(), ScanError>)
    ensures
        r == Err::<(), ScanError>(ScanError::NotImplemented),
{
    Err(ScanError::NotImplemented)
}

/// The S.M.A.R.T. health of a disk: reported healthy, with no attribute, temperature,
/// power-on time or warning, until ATA commands are issued.
pub fn read_smart_data(device_path: &str) -> (r: Result<SmartStatus, ScanError>)
    ensures
        r matches Ok(s) && s.healthy && s.temperature is None && s.power_on_hours is None
            && s.attributes@.len() == 0 && s.warning is None,
{
    Ok(SmartStatus {
        healthy: true,
        temperature: None,
        power_on_hours: None,
        attributes: Vec::new(),
        warning: None,
    })
}

// ===== Partition table, as the helper reads it =====

/// One 16-byte MBR slot with its CHS fields.
#[derive(Debug, Clone, Copy, PartialEq, Eq, Structural)]
pub struct MbrPartitionEntry {
    pub bootable: bool,
    pub start_head: u8,
    pub start_sector: u8,
    pub start_cylinder: u8,
    pub partition_type: u8,
    pub end_head: u8,
    pub end_sector: u8,
    pub end_cylinder: u8,
    pub first_sector: u32,
    pub total_sectors: u32,
}

/// The slot `i` (0..4) of an MBR.
pub open spec fn mbr_entry_at(b: Seq<u8>, i: int) -> MbrPartitionEntry {
    let o = 446 + 16 * i;
    MbrPartitionEntry {
        bootable: b[o] == 0x80,
        start_head: b[o + 1],
        start_sector: b[o + 2],
        start_cylinder: b[o + 3],
        partition_type: b[o + 4],
        end_head: b[o + 5],
        end_sector: b[o + 6],
        end_cylinder: b[o + 7],
        first_sector: le32(b, o + 8) as u32,
        total_sectors: le32(b, o + 12) as u32,
    }
}

/// The non-empty slots (type other than 0) among the first `n`, in order.
pub open spec fn mbr_entries_upto(b: Seq<u8>, n: int) -> Seq<MbrPartitionEntry>
    decreases n,
{
    if n <= 0 {
        Seq::empty()
    } else if b[446 + 16 * (n - 1) + 4] == 0 {
        mbr_entries_upto(b, n - 1)
    } else {
        mbr_entries_upto(b, n - 1).push(mbr_entry_at(b, n - 1))
    }
}

/// Reads the four primary slots of an MBR, skipping the empty ones.
pub fn parse_mbr(buffer: &[u8]) -> (r: Result<Vec<MbrPartitionEntry>, ScanError>)
    ensures
        buffer@.len() < 512 ==> r == Err::<Vec<MbrPartitionEntry>, ScanError>(ScanError::MbrTooSmall),
        buffer@.len() >= 512 && !(buffer@[510] == 0x55 && buffer@[511] == 0xAA) ==> r == Err::<
            Vec<MbrPartitionEntry>,
            ScanError,
        >(ScanError::MbrBadSignature),
        buffer@.len() >= 512 && buffer@[510] == 0x55 && buffer@[511] == 0xAA ==> (r matches Ok(v)
            && v@ == mbr_entries_upto(buffer@, 4)),
{
    if buffer.len() < 512 {
        return Err(ScanError::MbrTooSmall);
    }
    if buffer[510] != 0x55 || buffer[511] != 0xAA {
        return Err(ScanError::MbrBadSignature);
    }
    let mut partitions: Vec<MbrPartitionEntry> = Vec::new();
    let mut i: usize = 0;
    while i < 4
        invariant
            i <= 4,
            buffer@.len() >= 512,
            partitions@ == mbr_entries_upto(buffer@, i as int),
        decreases 4 - i,
    {
        let o = 446 + i * 16;
        let partition_type = buffer[o + 4];
        if partition_type != 0 {
            let e = MbrPartitionEntry {
                bootable: buffer[o] == 0x80,
                start_head: buffer[o + 1],
                start_sector: buffer[o + 2],
                start_cylinder: buffer[o + 3],
                partition_type,
                end_head: buffer[o + 5],
                end_sector: buffer[o + 6],
                end_cylinder: buffer[o + 7],
                first_sector: u32le(buffer, o + 8),
                total_sectors: u32le(buffer, o + 12),
            };
            partitions.push(e);
        }
        i = i + 1;
    }
    Ok(partitions)
}

/// A GPT header with every field of its first 92 bytes.
#[derive(Debug, Clone, Copy, PartialEq, Eq)]
pub struct GptHeader {
    pub signature: [u8; 8],
    pub revision: u32,
    pub header_size: u32,
    pub header_crc32: u32,
    pub current_lba: u64,
    pub backup_lba: u64,
    pub first_usable_lba: u64,
    pub last_usable_lba: u64,
    pub disk_guid: [u8; 16],
    pub partition_entry_lba: u64,
    pub num_partition_entries: u32,
    pub partition_entry_size: u32,
    pub partition_array_crc32: u32,
}

pub open spec fn efi_signature() -> Seq<u8> {
    seq![0x45u8, 0x46u8, 0x49u8, 0x20u8, 0x50u8, 0x41u8, 0x52u8, 0x54u8]
}

/// The header fields of a GPT header in `b`, which holds at least 92 bytes.
pub open spec fn gpt_header_matches(h: GptHeader, b: Seq<u8>) -> bool {
    &&& h.signature@ == b.subrange(0, 8)
    &&& h.revision == le32(b, 8)
    &&& h.header_size == le32(b, 12)
    &&& h.header_crc32 == le32(b, 16)
    &&& h.current_lba == le64(b, 24)
    &&& h.backup_lba == le64(b, 32)
    &&& h.first_usable_lba == le64(b, 40)
    &&& h.last_usable_lba == le64(b, 48)
    &&& h.disk_guid@ == b.subrange(56, 72)
    &&& h.partition_entry_lba == le64(b, 72)
    &&& h.num_partition_entries == le32(b, 80)
    &&& h.partition_entry_size == le32(b, 84)
    &&& h.partition_array_crc32 == le32(b, 88)
}

/// Reads a GPT header: every field, once the `EFI PART` signature is checked.
pub fn parse_gpt_header(buffer: &[u8]) -> (r: Result<GptHeader, ScanError>)
    ensures
        buffer@.len() < 92 ==> r == Err::<GptHeader, ScanError>(ScanError::GptTooSmall),
        buffer@.len() >= 92 && !bytes_at(buffer@, 0, efi_signature()) ==> r == Err::<
            GptHeader,
            ScanError,
        >(ScanError::GptBadSignature),
        buffer@.len() >= 92 && bytes_at(buffer@, 0, efi_signature()) ==> (r matches Ok(h)
            && gpt_header_matches(h, buffer@)),
{
    if buffer.len() < 92 {
        return Err(ScanError::GptTooSmall);
    }
    let efi: [u8; 8] = [0x45, 0x46, 0x49, 0x20, 0x50, 0x41, 0x52, 0x54];
    assert(efi@ =~= efi_signature());
    if !bytes_match(buffer, 0, &efi) {
        return Err(ScanError::GptBadSignature);
    }
    let mut signature = [0u8; 8];
    let mut k: usize = 0;
    while k < 8
        invariant
            k <= 8,
            buffer@.len() >= 92,
            signature@.len() == 8,
            forall|j: int| 0 <= j < k ==> signature@[j] == buffer@[j],
        decreases 8 - k,
    {
        signature[k] = buffer[k];
        k = k + 1;
    }
    let mut disk_guid = [0u8; 16];
    let mut g: usize = 0;
    while g < 16
        invariant
            g <= 16,
            buffer@.len() >= 92,
            disk_guid@.len() == 16,
            forall|j: int| 0 <= j < g ==> disk_guid@[j] == buffer@[56 + j],
        decreases 16 - g,
    {
        disk_guid[g] = buffer[56 + g];
        g = g + 1;
    }
    assert(signature@ =~= buffer@.subrange(0, 8));
    assert(disk_guid@ =~= buffer@.subrange(56, 72));
    Ok(GptHeader {
        signature,
        revision: u32le(buffer, 8),
        header_size: u32le(buffer, 12),
        header_crc32: u32le(buffer, 16),
        current_lba: u64le(buffer, 24),
        backup_lba: u64le(buffer, 32),
        first_usable_lba: u64le(buffer, 40),
        last_usable_lba: u64le(buffer, 48),
        disk_guid,
        partition_entry_lba: u64le(buffer, 72),
        num_partition_entries: u32le(buffer, 80),
        partition_entry_size: u32le(buffer, 84),
        partition_array_crc32: u32le(buffer, 88),
    })
}

/// One 128-byte GPT partition entry.
#[derive(Debug, Clone)]
pub struct GptPartitionEntry {
    pub type_guid: [u8; 16],
    pub unique_guid: [u8; 16],
    pub first_lba: u64,
    pub last_lba: u64,
    pub attributes: u64,
    pub name: String,
}

/// The name of an MBR partition type.
pub open spec fn spec_filesystem_name(partition_type: u8) -> &'static str {
    if partition_type == 0x01 {
        "FAT12"
    } else if partition_type == 0x04 {
        "FAT16"
    } else if partition_type == 0x05 {
        "Extended"
    } else if partition_type == 0x06 {
        "FAT16B"
    } else if partition_type == 0x07 {
        "NTFS/exFAT"
    } else if partition_type == 0x0B {
        "FAT32"
    } else if partition_type == 0x0C {
        "FAT32 (LBA)"
    } else if partition_type == 0x0E {
        "FAT16 (LBA)"
    } else if partition_type == 0x0F {
        "Extended (LBA)"
    } else if partition_type == 0x82 {
        "Linux Swap"
    } else if partition_type == 0x83 {
        "Linux (ext2/3/4)"
    } else if partition_type == 0x85 {
        "Linux Extended"
    } else if partition_type == 0x8E {
        "Linux LVM"
    } else if partition_type == 0xA5 {
        "FreeBSD"
    } else if partition_type == 0xA6 {
        "OpenBSD"
    } else if partition_type == 0xA8 {
        "macOS UFS"
    } else if partition_type == 0xA9 {
        "NetBSD"
    } else if partition_type == 0xAB {
        "macOS Boot"
    } else if partition_type == 0xAF {
        "macOS HFS+"
    } else if partition_type == 0xEE {
        "GPT Protective"
    } else if partition_type == 0xEF {
        "EFI System"
    } else {
        "Unknown"
    }
}

/// Law: the partition types are named by the standard MBR type table, family by
/// family: the FAT32 names are exactly those of types 0x0B and 0x0C, the FAT16
/// names those of 0x04, 0x06 and 0x0E, the FAT12 name that of 0x01, the NTFS
/// name that of 0x07, and the Linux names those of 0x82, 0x83, 0x85 and 0x8E.
pub proof fn lemma_partition_type_families(t: u8)
    ensures
        crate::text::has_prefix(spec_filesystem_name(t)@, "FAT32"@) <==> (t == 0x0B || t == 0x0C),
        crate::text::has_prefix(spec_filesystem_name(t)@, "FAT16"@) <==> (t == 0x04 || t == 0x06 || t
            == 0x0E),
        crate::text::has_prefix(spec_filesystem_name(t)@, "FAT12"@) <==> t == 0x01,
        crate::text::has_prefix(spec_filesystem_name(t)@, "NTFS"@) <==> t == 0x07,
        crate::text::has_prefix(spec_filesystem_name(t)@, "Linux"@) <==> (t == 0x82 || t == 0x83 || t
            == 0x85 || t == 0x8E),
{
    reveal_strlit("FAT12");
    reveal_strlit("FAT16");
    reveal_strlit("Extended");
    reveal_strlit("FAT16B");
    reveal_strlit("NTFS/exFAT");
    reveal_strlit("FAT32");
    reveal_strlit("FAT32 (LBA)");
    reveal_strlit("FAT16 (LBA)");
    reveal_strlit("Extended (LBA)");
    reveal_strlit("Linux Swap");
    reveal_strlit("Linux (ext2/3/4)");
    reveal_strlit("Linux Extended");
    reveal_strlit("Linux LVM");
    reveal_strlit("FreeBSD");
    reveal_strlit("OpenBSD");
    reveal_strlit("macOS UFS");
    reveal_strlit("NetBSD");
    reveal_strlit("macOS Boot");
    reveal_strlit("macOS HFS+");
    reveal_strlit("GPT Protective");
    reveal_strlit("EFI System");
    reveal_strlit("Unknown");
    reveal_strlit("NTFS");
    reveal_strlit("Linux");
    assert("FAT32"@.subrange(0, "FAT32"@.len() as int) =~= "FAT32"@);
    assert("FAT32 (LBA)"@.subrange(0, "FAT32"@.len() as int) =~= "FAT32"@);
    assert("FAT16"@.subrange(0, "FAT16"@.len() as int) =~= "FAT16"@);
    assert("FAT16B"@.subrange(0, "FAT16"@.len() as int) =~= "FAT16"@);
    assert("FAT16 (LBA)"@.subrange(0, "FAT16"@.len() as int) =~= "FAT16"@);
    assert("FAT12"@.subrange(0, "FAT12"@.len() as int) =~= "FAT12"@);
    assert("NTFS/exFAT"@.subrange(0, "NTFS"@.len() as int) =~= "NTFS"@);
    assert("Linux Swap"@.subrange(0, "Linux"@.len() as int) =~= "Linux"@);
    assert("Linux (ext2/3/4)"@.subrange(0, "Linux"@.len() as int) =~= "Linux"@);
    assert("Linux Extended"@.subrange(0, "Linux"@.len() as int) =~= "Linux"@);
    assert("Linux LVM"@.subrange(0, "Linux"@.len() as int) =~= "Linux"@);
    assert("FAT12"@.subrange(0, 5)[3] == "FAT12"@[3]);
    assert("FAT12"@.subrange(0, 5)[4] == "FAT12"@[4]);
    assert("FAT12"@.subrange(0, 4)[0] == "FAT12"@[0]);
    assert("FAT12"@.subrange(0, 5)[0] == "FAT12"@[0]);
    assert("FAT16"@.subrange(0, 5)[3] == "FAT16"@[3]);
    assert("FAT16"@.subrange(0, 5)[4] == "FAT16"@[4]);
    assert("FAT16"@.subrange(0, 4)[0] == "FAT16"@[0]);
    assert("FAT16"@.subrange(0, 5)[0] == "FAT16"@[0]);
    assert("Extended"@.subrange(0, 5)[0] == "Extended"@[0]);
    assert("Extended"@.subrange(0, 5)[0] == "Extended"@[0]);
    assert("Extended"@.subrange(0, 5)[0] == "Extended"@[0]);
    assert("Extended"@.subrange(0, 4)[0] == "Extended"@[0]);
    assert("Extended"@.subrange(0, 5)[0] == "Extended"@[0]);
    assert("FAT16B"@.subrange(0, 5)[3] == "FAT16B"@[3]);
    assert("FAT16B"@.subrange(0, 5)[4] == "FAT16B"@[4]);
    assert("FAT16B"@.subrange(0, 4)[0] == "FAT16B"@[0]);
    assert("FAT16B"@.subrange(0, 5)[0] == "FAT16B"@[0]);
    assert("NTFS/exFAT"@.subrange(0, 5)[0] == "NTFS/exFAT"@[0]);
    assert("NTFS/exFAT"@.subrange(0, 5)[0] == "NTFS/exFAT"@[0]);
    assert("NTFS/exFAT"@.subrange(0, 5)[0] == "NTFS/exFAT"@[0]);
    assert("NTFS/exFAT"@.subrange(0, 5)[0] == "NTFS/exFAT"@[0]);
    assert("FAT32"@.subrange(0, 5)[3] == "FAT32"@[3]);
    assert("FAT32"@.subrange(0, 5)[3] == "FAT32"@[3]);
    assert("FAT32"@.subrange(0, 4)[0] == "FAT32"@[0]);
    assert("FAT32"@.subrange(0, 5)[0] == "FAT32"@[0]);
    assert("FAT32 (LBA)"@.subrange(0, 5)[3] == "FAT32 (LBA)"@[3]);
    assert("FAT32 (LBA)"@.subrange(0, 5)[3] == "FAT32 (LBA)"@[3]);
    assert("FAT32 (LBA)"@.subrange(0, 4)[0] == "FAT32 (LBA)"@[0]);
    assert("FAT32 (LBA)"@.subrange(0, 5)[0] == "FAT32 (LBA)"@[0]);
    assert("FAT16 (LBA)"@.subrange(0, 5)[3] == "FAT16 (LBA)"@[3]);
    assert("FAT16 (LBA)"@.subrange(0, 5)[4] == "FAT16 (LBA)"@[4]);
    assert("FAT16 (LBA)"@.subrange(0, 4)[0] == "FAT16 (LBA)"@[0]);
    assert("FAT16 (LBA)"@.subrange(0, 5)[0] == "FAT16 (LBA)"@[0]);
    assert("Extended (LBA)"@.subrange(0, 5)[0] == "Extended (LBA)"@[0]);
    assert("Extended (LBA)"@.subrange(0, 5)[0] == "Extended (LBA)"@[0]);
    assert("Extended (LBA)"@.subrange(0, 5)[0] == "Extended (LBA)"@[0]);
    assert("Extended (LBA)"@.subrange(0, 4)[0] == "Extended (LBA)"@[0]);
    assert("Extended (LBA)"@.subrange(0, 5)[0] == "Extended (LBA)"@[0]);
    assert("Linux Swap"@.subrange(0, 5)[0] == "Linux Swap"@[0]);
    assert("Linux Swap"@.subrange(0, 5)[0] == "Linux Swap"@[0]);
    assert("Linux Swap"@.subrange(0, 5)[0] == "Linux Swap"@[0]);
    assert("Linux Swap"@.subrange(0, 4)[0] == "Linux Swap"@[0]);
    assert("Linux (ext2/3/4)"@.subrange(0, 5)[0] == "Linux (ext2/3/4)"@[0]);
    assert("Linux (ext2/3/4)"@.subrange(0, 5)[0] == "Linux (ext2/3/4)"@[0]);
    assert("Linux (ext2/3/4)"@.subrange(0, 5)[0] == "Linux (ext2/3/4)"@[0]);
    assert("Linux (ext2/3/4)"@.subrange(0, 4)[0] == "Linux (ext2/3/4)"@[0]);
    assert("Linux Extended"@.subrange(0, 5)[0] == "Linux Extended"@[0]);
    assert("Linux Extended"@.subrange(0, 5)[0] == "Linux Extended"@[0]);
    assert("Linux Extended"@.subrange(0, 5)[0] == "Linux Extended"@[0]);
    assert("Linux Extended"@.subrange(0, 4)[0] == "Linux Extended"@[0]);
    assert("Linux LVM"@.subrange(0, 5)[0] == "Linux LVM"@[0]);
    assert("Linux LVM"@.subrange(0, 5)[0] == "Linux LVM"@[0]);
    assert("Linux LVM"@.subrange(0, 5)[0] == "Linux LVM"@[0]);
    assert("Linux LVM"@.subrange(0, 4)[0] == "Linux LVM"@[0]);
    assert("FreeBSD"@.subrange(0, 5)[1] == "FreeBSD"@[1]);
    assert("FreeBSD"@.subrange(0, 5)[1] == "FreeBSD"@[1]);
    assert("FreeBSD"@.subrange(0, 5)[1] == "FreeBSD"@[1]);
    assert("FreeBSD"@.subrange(0, 4)[0] == "FreeBSD"@[0]);
    assert("FreeBSD"@.subrange(0, 5)[0] == "FreeBSD"@[0]);
    assert("OpenBSD"@.subrange(0, 5)[0] == "OpenBSD"@[0]);
    assert("OpenBSD"@.subrange(0, 5)[0] == "OpenBSD"@[0]);
    assert("OpenBSD"@.subrange(0, 5)[0] == "OpenBSD"@[0]);
    assert("OpenBSD"@.subrange(0, 4)[0] == "OpenBSD"@[0]);
    assert("OpenBSD"@.subrange(0, 5)[0] == "OpenBSD"@[0]);
    assert("macOS UFS"@.subrange(0, 5)[0] == "macOS UFS"@[0]);
    assert("macOS UFS"@.subrange(0, 5)[0] == "macOS UFS"@[0]);
    assert("macOS UFS"@.subrange(0, 5)[0] == "macOS UFS"@[0]);
    assert("macOS UFS"@.subrange(0, 4)[0] == "macOS UFS"@[0]);
    assert("macOS UFS"@.subrange(0, 5)[0] == "macOS UFS"@[0]);
    assert("NetBSD"@.subrange(0, 5)[0] == "NetBSD"@[0]);
    assert("NetBSD"@.subrange(0, 5)[0] == "NetBSD"@[0]);
    assert("NetBSD"@.subrange(0, 5)[0] == "NetBSD"@[0]);
    assert("NetBSD"@.subrange(0, 4)[1] == "NetBSD"@[1]);
    assert("NetBSD"@.subrange(0, 5)[0] == "NetBSD"@[0]);
    assert("macOS Boot"@.subrange(0, 5)[0] == "macOS Boot"@[0]);
    assert("macOS Boot"@.subrange(0, 5)[0] == "macOS Boot"@[0]);
    assert("macOS Boot"@.subrange(0, 5)[0] == "macOS Boot"@[0]);
    assert("macOS Boot"@.subrange(0, 4)[0] == "macOS Boot"@[0]);
    assert("macOS Boot"@.subrange(0, 5)[0] == "macOS Boot"@[0]);
    assert("macOS HFS+"@.subrange(0, 5)[0] == "macOS HFS+"@[0]);
    assert("macOS HFS+"@.subrange(0, 5)[0] == "macOS HFS+"@[0]);
    assert("macOS HFS+"@.subrange(0, 5)[0] == "macOS HFS+"@[0]);
    assert("macOS HFS+"@.subrange(0, 4)[0] == "macOS HFS+"@[0]);
    assert("macOS HFS+"@.subrange(0, 5)[0] == "macOS HFS+"@[0]);
    assert("GPT Protective"@.subrange(0, 5)[0] == "GPT Protective"@[0]);
    assert("GPT Protective"@.subrange(0, 5)[0] == "GPT Protective"@[0]);
    assert("GPT Protective"@.subrange(0, 5)[0] == "GPT Protective"@[0]);
    assert("GPT Protective"@.subrange(0, 4)[0] == "GPT Protective"@[0]);
    assert("GPT Protective"@.subrange(0, 5)[0] == "GPT Protective"@[0]);
    assert("EFI System"@.subrange(0, 5)[0] == "EFI System"@[0]);
    assert("EFI System"@.subrange(0, 5)[0] == "EFI System"@[0]);
    assert("EFI System"@.subrange(0, 5)[0] == "EFI System"@[0]);
    assert("EFI System"@.subrange(0, 4)[0] == "EFI System"@[0]);
    assert("EFI System"@.subrange(0, 5)[0] == "EFI System"@[0]);
    assert("Unknown"@.subrange(0, 5)[0] == "Unknown"@[0]);
    assert("Unknown"@.subrange(0, 5)[0] == "Unknown"@[0]);
    assert("Unknown"@.subrange(0, 5)[0] == "Unknown"@[0]);
    assert("Unknown"@.subrange(0, 4)[0] == "Unknown"@[0]);
    assert("Unknown"@.subrange(0, 5)[0] == "Unknown"@[0]);
}

/// The name of the file system that an MBR partition type stands for.
pub fn detect_filesystem(partition_type: u8) -> (r: &'static str)
    ensures
        r == spec_filesystem_name(partition_type),
{
    match partition_type {
        0x01 => "FAT12",
        0x04 => "FAT16",
        0x05 => "Extended",
        0x06 => "FAT16B",
        0x07 => "NTFS/exFAT",
        0x0B => "FAT32",
        0x0C => "FAT32 (LBA)",
        0x0E => "FAT16 (LBA)",
        0x0F => "Extended (LBA)",
        0x82 => "Linux Swap",
        0x83 => "Linux (ext2/3/4)",
        0x85 => "Linux Extended",
        0x8E => "Linux LVM",
        0xA5 => "FreeBSD",
        0xA6 => "OpenBSD",
        0xA8 => "macOS UFS",
        0xA9 => "NetBSD",
        0xAB => "macOS Boot",
        0xAF => "macOS HFS+",
        0xEE => "GPT Protective",
        0xEF => "EFI System",
        _ => "Unknown",
    }
}

// ===== The helper's command loop =====

/// What the helper does with one command.
#[derive(Debug, Clone, PartialEq, Eq)]
pub enum SidecarReply {
    /// Write a log message (level and text) to the output.
    Log { level: String, message: String },
    /// Nothing to answer.
    Nothing,
    /// Stop reading commands.
    Stop,
}

/// The log line with which a scan starts: `Starting scan on {device} (mode: {mode})`.
pub open spec fn spec_scan_start(device: Seq<char>, mode: Seq<char>) -> Seq<char> {
    "Starting scan on "@ + device + " (mode: "@ + mode + ")"@
}

/// What the helper does with a command: a scan is announced with an `info` log
/// line, pause and resume need no answer, and cancel stops the helper.
pub fn sidecar_step(cmd: &SidecarCommand) -> (r: SidecarReply)
    ensures
        match cmd {
            SidecarCommand::Scan { device_path, scan_mode, .. } => r matches SidecarReply::Log {
                level,
                message,
            } && level@ == "info"@ && message@ == spec_scan_start(device_path@, scan_mode@),
            SidecarCommand::Pause => r == SidecarReply::Nothing,
            SidecarCommand::Resume => r == SidecarReply::Nothing,
            SidecarCommand::Cancel => r == SidecarReply::Stop,
        },
{
    match cmd {
        SidecarCommand::Scan { device_path, scan_mode, .. } => {
            let mut v: Vec<char> = Vec::new();
            push_str_chars(&mut v, "Starting scan on ");
            push_str_chars(&mut v, device_path.as_str());
            push_str_chars(&mut v, " (mode: ");
            push_str_chars(&mut v, scan_mode.as_str());
            push_str_chars(&mut v, ")");
            SidecarReply::Log { level: "info".to_owned(), message: string_of(&v) }
        },
        SidecarCommand::Pause => SidecarReply::Nothing,
        SidecarCommand::Resume => SidecarReply::Nothing,
        SidecarCommand::Cancel => SidecarReply::Stop,
    }
}

/// The error message for a line that is not a command: `Invalid command: {reason}`.
pub fn invalid_command_message(reason: &str) -> (r: String)
    ensures
        r@ == "Invalid command: "@ + reason@,
{
    let mut v: Vec<char> = Vec::new();
    push_str_chars(&mut v, "Invalid command: ");
    push_str_chars(&mut v, reason);
    string_of(&v)
}

// ===== Raw disks =====

/// Where a read of `count` sectors from `start_sector` lies on a disk of
/// `sector_size`-byte sectors: its byte offset and length (products wrapping at
/// 2^64); refused when the buffer cannot hold it.
pub fn sector_read_extent(start_sector: u64, count: u64, sector_size: u64, buffer_len: usize) -> (r: Result<(u64, u64), DeviceError>)
    ensures
        ({
            let offset = crate::deleted_scan::mul64(start_sector, sector_size);
            let len = crate::deleted_scan::mul64(count, sector_size);
            &&& (buffer_len < len ==> r matches Err(DeviceError::BufferTooSmall))
            &&& (buffer_len >= len ==> r == Ok::<(u64, u64), DeviceError>((offset, len)))
        }),
{
    let offset = start_sector.wrapping_mul(sector_size);
    let len = count.wrapping_mul(sector_size);
    if (buffer_len as u64) < len {
        return Err(DeviceError::BufferTooSmall);
    }
    Ok((offset, len))
}

/// The geometry of a raw disk of `total_sectors` sectors of `sector_size` bytes
/// (capacity wrapping at 2^64); cylinders, tracks and sectors per track are not known.
pub fn raw_disk_geometry(sector_size: u64, total_sectors: u64) -> (g: DiskGeometry)
    ensures
        g.sector_size == sector_size,
        g.total_sectors == total_sectors,
        g.capacity_bytes == crate::deleted_scan::mul64(sector_size, total_sectors),
        g.cylinders == 0 && g.tracks_per_cylinder == 0 && g.sectors_per_track == 0,
{
    DiskGeometry {
        sector_size,
        total_sectors,
        capacity_bytes: sector_size.wrapping_mul(total_sectors),
        cylinders: 0,
        tracks_per_cylinder: 0,
        sectors_per_track: 0,
    }
}

} // verus!
