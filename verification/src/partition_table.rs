//! Partition tables and boot sectors as the repair tools read and write them:
//! MBR entries (read and rebuilt), the GPT header and entry array, and the
//! file-system signature, size and label of a volume boot sector.
use vstd::prelude::*;
use crate::bytes::{bytes_at, bytes_match, le16, le32, le64, u16le, u32le, u64le};
use crate::text::{chars_eq, chars_of, decode_utf16_lossy, spec_is_whitespace, string_of, utf16_lossy};
use crate::paths::trim_end_ws;

verus! {

/// One primary partition of an MBR.
#[derive(Clone, Copy, Debug, PartialEq, Eq, Structural)]
pub struct MbrPartition {
    pub bootable: bool,
    pub ptype: u8,
    pub start_lba: u32,
    pub size_lba: u32,
}

/// Offset of the partition table in the MBR sector.
pub const MBR_TABLE_OFFSET: usize = 446;

/// Whether the sector is at least 512 bytes and ends with `55 AA`.
pub open spec fn has_boot_signature(s: Seq<u8>) -> bool {
    s.len() >= 512 && s[510] == 0x55 && s[511] == 0xAA
}

/// Table slot `i` (0..4) of an MBR sector.
pub open spec fn mbr_slot(s: Seq<u8>, i: int) -> MbrPartition {
    let off = 446 + 16 * i;
    MbrPartition {
        bootable: s[off] == 0x80,
        ptype: s[off + 4],
        start_lba: le32(s, off + 8) as u32,
        size_lba: le32(s, off + 12) as u32,
    }
}

/// The non-empty entries (type byte not 0) among the first `n` table slots.
pub open spec fn mbr_slots_upto(s: Seq<u8>, n: int) -> Seq<MbrPartition>
    decreases n,
{
    if n <= 0 {
        Seq::empty()
    } else {
        let prev = mbr_slots_upto(s, n - 1);
        if s[446 + 16 * (n - 1) + 4] == 0 {
            prev
        } else {
            prev.push(mbr_slot(s, n - 1))
        }
    }
}

/// The partitions of an MBR sector: the non-empty slots, or none without the `55 AA` signature.
pub open spec fn spec_mbr_entries(s: Seq<u8>) -> Seq<MbrPartition> {
    if !has_boot_signature(s) {
        Seq::empty()
    } else {
        mbr_slots_upto(s, 4)
    }
}

/// Parses the four table entries of an MBR sector, skipping empty ones (type 0);
/// nothing without the `55 AA` signature.
pub fn parse_mbr_entries(sector: &[u8]) -> (out: Vec<MbrPartition>)
    ensures
        out@ == spec_mbr_entries(sector@),
{
    let mut out: Vec<MbrPartition> = Vec::new();
    if sector.len() < 512 || sector[510] != 0x55 || sector[511] != 0xAA {
        return out;
    }
    let mut i: usize = 0;
    while i < 4
        invariant
            i <= 4,
            sector@.len() >= 512,
            out@ == mbr_slots_upto(sector@, i as int),
        decreases 4 - i,
    {
        let off = 446 + i * 16;
        let ptype = sector[off + 4];
        if ptype != 0 {
            out.push(
                MbrPartition {
                    bootable: sector[off] == 0x80,
                    ptype,
                    start_lba: u32le(sector, off + 8),
                    size_lba: u32le(sector, off + 12),
                },
            );
        }
        i = i + 1;
    }
    out
}

/// Byte `r` (0..16) of the table entry of `e`.
pub open spec fn entry_byte(e: MbrPartition, r: int) -> u8 {
    if r == 0 {
        if e.bootable { 0x80 } else { 0 }
    } else if r == 4 {
        e.ptype
    } else if 8 <= r < 12 {
        ((e.start_lba as int / pow256_int(r - 8)) % 256) as u8
    } else if 12 <= r < 16 {
        ((e.size_lba as int / pow256_int(r - 12)) % 256) as u8
    } else {
        0
    }
}

pub open spec fn pow256_int(k: int) -> int {
    if k == 0 { 1 } else if k == 1 { 256 } else if k == 2 { 65536 } else { 16777216 }
}

/// Byte `j` of the MBR that [`build_mbr_sector`] writes: the current sector outside the
/// table, the entries in the first slots and zeros in the rest, then `55 AA`.
pub open spec fn built_byte(orig: Seq<u8>, es: Seq<MbrPartition>, j: int) -> u8 {
    if j == 510 {
        0x55
    } else if j == 511 {
        0xAA
    } else if 446 <= j < 510 {
        let slot = (j - 446) / 16;
        if slot < es.len() {
            entry_byte(es[slot], (j - 446) % 16)
        } else {
            0
        }
    } else {
        orig[j]
    }
}

pub open spec fn spec_build_mbr(orig: Seq<u8>, es: Seq<MbrPartition>) -> Seq<u8> {
    Seq::new(512, |j: int| built_byte(orig, es, j))
}

fn u32_byte(x: u32, k: usize) -> (b: u8)
    requires
        k < 4,
    ensures
        b == ((x as int / pow256_int(k as int)) % 256) as u8,
{
    let d: u32 = if k == 0 {
        1
    } else if k == 1 {
        256
    } else if k == 2 {
        65536
    } else {
        16777216
    };
    ((x / d) % 256) as u8
}

/// Rebuilds an MBR sector: keeps the first 446 bytes (boot code) of `current`,
/// writes `entries` into the first table slots and clears the others, and sets
/// the `55 AA` signature. `None` when `current` is shorter than 512 bytes or
/// there are more than 4 entries.
pub fn build_mbr_sector(current: &[u8], entries: &[MbrPartition]) -> (r: Option<[u8; 512]>)
    ensures
        r is Some <==> (current@.len() >= 512 && entries@.len() <= 4),
        r matches Some(buf) ==> buf@ == spec_build_mbr(current@, entries@),
{
    if current.len() < 512 || entries.len() > 4 {
        return None;
    }
    let mut buf = [0u8; 512];
    let mut j: usize = 0;
    while j < 512
        invariant
            j <= 512,
            current@.len() >= 512,
            entries@.len() <= 4,
            buf@.len() == 512,
            forall|q: int| 0 <= q < j ==> buf@[q] == current@[q],
        decreases 512 - j,
    {
        buf[j] = current[j];
        j = j + 1;
    }
    let mut q: usize = 446;
    while q < 510
        invariant
            446 <= q <= 510,
            current@.len() >= 512,
            entries@.len() <= 4,
            buf@.len() == 512,
            forall|t: int| 0 <= t < 446 ==> buf@[t] == current@[t],
            forall|t: int| 510 <= t < 512 ==> buf@[t] == current@[t],
            forall|t: int| 446 <= t < q ==> buf@[t] == built_byte(current@, entries@, t),
        decreases 510 - q,
    {
        let slot = (q - 446) / 16;
        let r = (q - 446) % 16;
        let b: u8 = if slot < entries.len() {
            let e = entries[slot];
            if r == 0 {
                if e.bootable { 0x80 } else { 0 }
            } else if r == 4 {
                e.ptype
            } else if 8 <= r && r < 12 {
                u32_byte(e.start_lba, r - 8)
            } else if 12 <= r {
                u32_byte(e.size_lba, r - 12)
            } else {
                0
            }
        } else {
            0
        };
        buf[q] = b;
        q = q + 1;
    }
    buf[510] = 0x55;
    buf[511] = 0xAA;
    assert(buf@ =~= spec_build_mbr(current@, entries@));
    Some(buf)
}

proof fn lemma_le32_of_bytes(x: u32, s: Seq<u8>, o: int)
    requires
        0 <= o,
        o + 4 <= s.len(),
        s[o] == ((x as int / 1) % 256) as u8,
        s[o + 1] == ((x as int / 256) % 256) as u8,
        s[o + 2] == ((x as int / 65536) % 256) as u8,
        s[o + 3] == ((x as int / 16777216) % 256) as u8,
    ensures
        le32(s, o) == x,
{
    let v = x as int;
    assert(((v / 1) % 256) + 256 * ((v / 256) % 256) + 65536 * ((v / 65536) % 256) + 16777216 * ((
    v / 16777216) % 256) == v) by (nonlinear_arith)
        requires
            0 <= v < 0x1_0000_0000,
    {
        assert(v == (v % 256) + 256 * (v / 256));
        assert(v / 256 == ((v / 256) % 256) + 256 * (v / 65536));
        assert(v / 65536 == ((v / 65536) % 256) + 256 * (v / 16777216));
        assert(v / 16777216 < 256);
    }
}

/// Law: reading back a rebuilt MBR gives exactly the entries written, when none
/// is empty (type 0) and there are at most four; the boot code is kept and the
/// signature is set.
pub proof fn lemma_mbr_roundtrip(orig: Seq<u8>, es: Seq<MbrPartition>)
    requires
        orig.len() >= 512,
        es.len() <= 4,
        forall|i: int| 0 <= i < es.len() ==> (#[trigger] es[i]).ptype != 0,
    ensures
        spec_mbr_entries(spec_build_mbr(orig, es)) == es,
        spec_build_mbr(orig, es).subrange(0, 446) == orig.subrange(0, 446),
        has_boot_signature(spec_build_mbr(orig, es)),
{
    let s = spec_build_mbr(orig, es);
    assert(has_boot_signature(s));
    assert forall|i: int| 0 <= i < es.len() implies mbr_slot(s, i) == es[i] by {
        let off = 446 + 16 * i;
        assert((off - 446) / 16 == i && (off - 446) % 16 == 0);
        assert((off + 4 - 446) / 16 == i && (off + 4 - 446) % 16 == 4);
        assert((off + 8 - 446) / 16 == i && (off + 8 - 446) % 16 == 8);
        assert((off + 9 - 446) / 16 == i && (off + 9 - 446) % 16 == 9);
        assert((off + 10 - 446) / 16 == i && (off + 10 - 446) % 16 == 10);
        assert((off + 11 - 446) / 16 == i && (off + 11 - 446) % 16 == 11);
        assert((off + 12 - 446) / 16 == i && (off + 12 - 446) % 16 == 12);
        assert((off + 13 - 446) / 16 == i && (off + 13 - 446) % 16 == 13);
        assert((off + 14 - 446) / 16 == i && (off + 14 - 446) % 16 == 14);
        assert((off + 15 - 446) / 16 == i && (off + 15 - 446) % 16 == 15);
        lemma_le32_of_bytes(es[i].start_lba, s, off + 8);
        lemma_le32_of_bytes(es[i].size_lba, s, off + 12);
    }
    assert forall|n: int| 0 <= n <= 4 implies #[trigger] mbr_slots_upto(s, n) == es.take(
        if n < es.len() { n } else { es.len() as int },
    ) by {
        lemma_slots_upto(orig, es, n);
    }
    assert(es.take(es.len() as int) =~= es);
    assert(s.subrange(0, 446) =~= orig.subrange(0, 446));
}

proof fn lemma_slots_upto(orig: Seq<u8>, es: Seq<MbrPartition>, n: int)
    requires
        orig.len() >= 512,
        es.len() <= 4,
        0 <= n <= 4,
        forall|i: int| 0 <= i < es.len() ==> (#[trigger] es[i]).ptype != 0,
        forall|i: int| 0 <= i < es.len() ==> mbr_slot(spec_build_mbr(orig, es), i) == es[i],
    ensures
        mbr_slots_upto(spec_build_mbr(orig, es), n) == es.take(
            if n < es.len() { n } else { es.len() as int },
        ),
    decreases n,
{
    let s = spec_build_mbr(orig, es);
    if n > 0 {
        lemma_slots_upto(orig, es, n - 1);
        let j = 446 + 16 * (n - 1) + 4;
        assert((j - 446) / 16 == n - 1 && (j - 446) % 16 == 4);
        if n - 1 < es.len() {
            assert(s[j] == es[n - 1].ptype);
            assert(es.take(n - 1).push(es[n - 1]) =~= es.take(n));
        } else {
            assert(s[j] == 0);
        }
    }
}

// ===== GPT =====

/// What the repair tools read from a GPT header.
#[derive(Clone, Copy, Debug, PartialEq, Eq, Structural)]
pub struct GptHeader {
    pub partition_entry_lba: u64,
    pub num_entries: u32,
    pub entry_size: u32,
}

pub open spec fn efi_part() -> Seq<u8> {
    seq![0x45u8, 0x46u8, 0x49u8, 0x20u8, 0x50u8, 0x41u8, 0x52u8, 0x54u8]
}

/// A GPT header: signature `EFI PART`, entry array LBA at 0x48, entry count at
/// 0x50, entry size at 0x54.
pub open spec fn spec_gpt_header(s: Seq<u8>) -> Option<GptHeader> {
    if s.len() < 0x58 || !bytes_at(s, 0, efi_part()) {
        None
    } else {
        Some(
            GptHeader {
                partition_entry_lba: le64(s, 0x48) as u64,
                num_entries: le32(s, 0x50) as u32,
                entry_size: le32(s, 0x54) as u32,
            },
        )
    }
}

/// Parses a GPT header sector (LBA 1).
pub fn parse_gpt_header(sector: &[u8]) -> (r: Option<GptHeader>)
    ensures
        r == spec_gpt_header(sector@),
{
    let sig: [u8; 8] = [0x45, 0x46, 0x49, 0x20, 0x50, 0x41, 0x52, 0x54];
    assert(sig@ =~= efi_part());
    if sector.len() < 0x58 || !bytes_match(sector, 0, &sig) {
        return None;
    }
    Some(
        GptHeader {
            partition_entry_lba: u64le(sector, 0x48),
            num_entries: u32le(sector, 0x50),
            entry_size: u32le(sector, 0x54),
        },
    )
}

/// One used GPT entry.
#[derive(Clone, Debug)]
pub struct GptPartition {
    pub start_lba: u64,
    pub end_lba: u64,
    pub name: String,
}

impl View for GptPartition {
    type V = (u64, u64, Seq<char>);

    open spec fn view(&self) -> (u64, u64, Seq<char>) {
        (self.start_lba, self.end_lba, self.name@)
    }
}

/// The units of `u` before its first zero.
pub open spec fn until_nul(u: Seq<u16>) -> Seq<u16>
    decreases u.len(),
{
    if u.len() == 0 {
        u
    } else if u[0] == 0 {
        Seq::empty()
    } else {
        seq![u[0]] + until_nul(u.drop_first())
    }
}

/// The 36 UTF-16 units of the name field (0x38..0x80) of the entry at `off`.
pub open spec fn gpt_name_units(b: Seq<u8>, off: int) -> Seq<u16> {
    Seq::new(36, |i: int| le16(b, off + 56 + 2 * i) as u16)
}

/// The used entries of a GPT entry array from `off` on: entries of `size` bytes;
/// an all-zero type GUID (bytes 0..16) marks an unused one; start LBA at 32, end
/// LBA at 40, name (UTF-16, up to the first zero) at 56..128.
pub open spec fn gpt_entries_from(b: Seq<u8>, size: int, off: int) -> Seq<(u64, u64, Seq<char>)>
    decreases b.len() - off,
{
    if size < 128 || off < 0 || off + size > b.len() {
        Seq::empty()
    } else if forall|k: int| off <= k < off + 16 ==> b[k] == 0 {
        gpt_entries_from(b, size, off + size)
    } else {
        seq![(le64(b, off + 32) as u64, le64(b, off + 40) as u64, decode_utf16_lossy(until_nul(gpt_name_units(b, off))))]
            + gpt_entries_from(b, size, off + size)
    }
}

/// Parses a GPT entry array of `entry_size`-byte entries (nothing when the size is under 128).
pub fn parse_gpt_entries(buf: &[u8], entry_size: usize) -> (out: Vec<GptPartition>)
    ensures
        out@.map_values(|p: GptPartition| p@) == gpt_entries_from(buf@, entry_size as int, 0),
{
    let mut out: Vec<GptPartition> = Vec::new();
    if entry_size < 128 {
        return out;
    }
    let mut off: usize = 0;
    while off <= buf.len() && buf.len() - off >= entry_size
        invariant
            entry_size >= 128,
            out@.map_values(|p: GptPartition| p@) + gpt_entries_from(buf@, entry_size as int, off as int)
                == gpt_entries_from(buf@, entry_size as int, 0),
        ensures
            out@.map_values(|p: GptPartition| p@) == gpt_entries_from(buf@, entry_size as int, 0),
        decreases buf@.len() - off,
    {
        let ghost out0 = out@.map_values(|p: GptPartition| p@);
        if crate::bytes::all_zero(buf, off, off + 16) {
            off = off + entry_size;
            continue;
        }
        let start_lba = u64le(buf, off + 32);
        let end_lba = u64le(buf, off + 40);
        let mut units: Vec<u16> = Vec::new();
        let mut k: usize = 0;
        let ghost all = gpt_name_units(buf@, off as int);
        assert(all.skip(0) =~= all);
        while k < 36 && u16le(buf, off + 56 + 2 * k) != 0
            invariant
                k <= 36,
                off + entry_size <= buf.len(),
                entry_size >= 128,
                all == gpt_name_units(buf@, off as int),
                until_nul(all) == units@ + until_nul(all.skip(k as int)),
                forall|j: int| 0 <= j < units@.len() ==> units@[j] != 0,
            decreases 36 - k,
        {
            let u = u16le(buf, off + 56 + 2 * k);
            assert(all.skip(k as int)[0] == u);
            assert(all.skip(k as int).drop_first() =~= all.skip(k + 1));
            units.push(u);
            k = k + 1;
        }
        if k < 36 {
            assert(all.skip(k as int)[0] == 0);
        } else {
            assert(all.skip(36) =~= Seq::<u16>::empty());
        }
        assert(until_nul(all) =~= units@);
        let name = string_of(&utf16_lossy(&units));
        out.push(GptPartition { start_lba, end_lba, name });
        assert(out@.map_values(|p: GptPartition| p@) =~= out0.push((start_lba, end_lba, name@)));
        off = off + entry_size;
    }
    out
}

// ===== Volume boot sectors =====

pub open spec fn oem_ntfs() -> Seq<u8> {
    seq![0x4Eu8, 0x54u8, 0x46u8, 0x53u8, 0x20u8, 0x20u8, 0x20u8, 0x20u8]
}

pub open spec fn oem_exfat() -> Seq<u8> {
    seq![0x45u8, 0x58u8, 0x46u8, 0x41u8, 0x54u8, 0x20u8, 0x20u8, 0x20u8]
}

pub open spec fn fat32_type() -> Seq<u8> {
    seq![0x46u8, 0x41u8, 0x54u8, 0x33u8, 0x32u8, 0x20u8, 0x20u8, 0x20u8]
}

pub open spec fn fat16_type() -> Seq<u8> {
    seq![0x46u8, 0x41u8, 0x54u8, 0x31u8, 0x36u8]
}

pub open spec fn fat12_type() -> Seq<u8> {
    seq![0x46u8, 0x41u8, 0x54u8, 0x31u8, 0x32u8]
}

/// The file system of a volume boot sector: with the `55 AA` signature, OEM id
/// `NTFS    ` or `EXFAT   ` at 3, or type string `FAT32   ` at 82, or `FAT16` /
/// `FAT12` at 54.
pub open spec fn spec_boot_signature(s: Seq<u8>) -> Option<&'static str> {
    if !has_boot_signature(s) {
        None
    } else if bytes_at(s, 3, oem_ntfs()) {
        Some("NTFS")
    } else if bytes_at(s, 3, oem_exfat()) {
        Some("exFAT")
    } else if bytes_at(s, 82, fat32_type()) {
        Some("FAT32")
    } else if bytes_at(s, 54, fat16_type()) || bytes_at(s, 54, fat12_type()) {
        Some("FAT")
    } else {
        None
    }
}

/// Recognises the file system of a volume boot sector.
pub fn detect_boot_signature(sector: &[u8]) -> (r: Option<&'static str>)
    ensures
        r == spec_boot_signature(sector@),
{
    if sector.len() < 512 || sector[510] != 0x55 || sector[511] != 0xAA {
        return None;
    }
    let ntfs: [u8; 8] = [0x4E, 0x54, 0x46, 0x53, 0x20, 0x20, 0x20, 0x20];
    let exfat: [u8; 8] = [0x45, 0x58, 0x46, 0x41, 0x54, 0x20, 0x20, 0x20];
    let fat32: [u8; 8] = [0x46, 0x41, 0x54, 0x33, 0x32, 0x20, 0x20, 0x20];
    let fat16: [u8; 5] = [0x46, 0x41, 0x54, 0x31, 0x36];
    let fat12: [u8; 5] = [0x46, 0x41, 0x54, 0x31, 0x32];
    assert(ntfs@ =~= oem_ntfs());
    assert(exfat@ =~= oem_exfat());
    assert(fat32@ =~= fat32_type());
    assert(fat16@ =~= fat16_type());
    assert(fat12@ =~= fat12_type());
    if bytes_match(sector, 3, &ntfs) {
        return Some("NTFS");
    }
    if bytes_match(sector, 3, &exfat) {
        return Some("exFAT");
    }
    if bytes_match(sector, 82, &fat32) {
        return Some("FAT32");
    }
    if bytes_match(sector, 54, &fat16) || bytes_match(sector, 54, &fat12) {
        return Some("FAT");
    }
    None
}

/// Whether the characters of `fs` are those of the text `name`.
fn is_fs(fs: &str, name: &str) -> (r: bool)
    ensures
        r == (fs@ == name@),
{
    let a = chars_of(fs);
    let b = chars_of(name);
    chars_eq(&a, &b)
}

/// The sector count that a boot sector of file system `fs` declares: NTFS u64 at
/// 0x28, FAT32 u32 at 0x20, FAT u32 at 0x20 or else u16 at 0x13, exFAT u64 at
/// 0x48; `None` for a zero count, another file system or a sector under 512 bytes.
pub open spec fn spec_fs_size(s: Seq<u8>, fs: Seq<char>) -> Option<u64> {
    if s.len() < 512 {
        None
    } else if fs == "NTFS"@ {
        if le64(s, 0x28) > 0 { Some(le64(s, 0x28) as u64) } else { None }
    } else if fs == "FAT32"@ {
        if le32(s, 0x20) > 0 { Some(le32(s, 0x20) as u64) } else { None }
    } else if fs == "FAT"@ {
        if le32(s, 0x20) > 0 {
            Some(le32(s, 0x20) as u64)
        } else if le16(s, 0x13) > 0 {
            Some(le16(s, 0x13) as u64)
        } else {
            None
        }
    } else if fs == "exFAT"@ {
        if le64(s, 0x48) > 0 { Some(le64(s, 0x48) as u64) } else { None }
    } else {
        None
    }
}

/// The partition size in sectors that a boot sector declares (for sizing lost partitions).
pub fn fs_size_from_boot(sector: &[u8], fs: &str) -> (r: Option<u64>)
    ensures
        r == spec_fs_size(sector@, fs@),
{
    if sector.len() < 512 {
        return None;
    }
    if is_fs(fs, "NTFS") {
        let n = u64le(sector, 0x28);
        if n > 0 { Some(n) } else { None }
    } else if is_fs(fs, "FAT32") {
        let n = u32le(sector, 0x20) as u64;
        if n > 0 { Some(n) } else { None }
    } else if is_fs(fs, "FAT") {
        let big = u32le(sector, 0x20) as u64;
        if big > 0 {
            Some(big)
        } else {
            let small = u16le(sector, 0x13) as u64;
            if small > 0 { Some(small) } else { None }
        }
    } else if is_fs(fs, "exFAT") {
        let n = u64le(sector, 0x48);
        if n > 0 { Some(n) } else { None }
    } else {
        None
    }
}

/// The bytes of `s` in `[a, b)` up to the first one below 0x20, as characters.
pub open spec fn printable_prefix(s: Seq<u8>, a: int, b: int) -> Seq<char>
    decreases b - a,
{
    if a >= b || s[a] < 0x20 {
        Seq::empty()
    } else {
        seq![(s[a] as u32) as char] + printable_prefix(s, a + 1, b)
    }
}

/// The volume label of a FAT32 (bytes 71..82) or FAT (43..54) boot sector: the
/// bytes up to the first one below 0x20, without trailing whitespace; `None` when
/// that is empty or `NO NAME`, for another file system, or for a short sector.
pub open spec fn spec_fat_label(s: Seq<u8>, fs: Seq<char>) -> Option<Seq<char>> {
    let (a, b) = if fs == "FAT32"@ { (71int, 82int) } else { (43int, 54int) };
    if fs != "FAT32"@ && fs != "FAT"@ {
        None
    } else if s.len() < b {
        None
    } else {
        let label = trim_end_ws(printable_prefix(s, a, b));
        if label.len() == 0 || label == "NO NAME"@ {
            None
        } else {
            Some(label)
        }
    }
}

/// Reads the volume label of a FAT32 or FAT boot sector.
pub fn fat_label_from_boot(sector: &[u8], fs: &str) -> (r: Option<String>)
    ensures
        r is Some <==> spec_fat_label(sector@, fs@) is Some,
        r matches Some(l) ==> l@ == spec_fat_label(sector@, fs@)->0,
{
    let (a, b): (usize, usize) = if is_fs(fs, "FAT32") {
        (71, 82)
    } else if is_fs(fs, "FAT") {
        (43, 54)
    } else {
        return None;
    };
    if sector.len() < b {
        return None;
    }
    let mut v: Vec<char> = Vec::new();
    let mut k = a;
    while k < b && sector[k] >= 0x20
        invariant
            a <= k <= b <= sector@.len(),
            printable_prefix(sector@, a as int, b as int) == v@ + printable_prefix(sector@, k as int, b as int),
        decreases b - k,
    {
        let c = sector[k] as char;
        assert(c == (sector@[k as int] as u32) as char);
        let ghost v0 = v@;
        v.push(c);
        assert(v@ + printable_prefix(sector@, k + 1, b as int) =~= v0 + printable_prefix(sector@, k as int, b as int));
        k = k + 1;
    }
    assert(v@ =~= printable_prefix(sector@, a as int, b as int));
    let mut e = v.len();
    assert(v@.subrange(0, e as int) =~= v@);
    while e > 0 && crate::text::is_whitespace(v[e - 1])
        invariant
            e <= v@.len(),
            trim_end_ws(v@.subrange(0, e as int)) == trim_end_ws(v@),
        decreases e,
    {
        assert(v@.subrange(0, e as int).drop_last() =~= v@.subrange(0, e - 1));
        e = e - 1;
    }
    let label = string_of(&v[0..e]);
    let no_name = chars_of("NO NAME");
    if e == 0 || chars_eq(&v[0..e], &no_name) {
        None
    } else {
        Some(label)
    }
}

/// The bytes `[a, b)` of two sectors agree.
pub open spec fn same_bytes(s1: Seq<u8>, s2: Seq<u8>, a: int, b: int) -> bool {
    forall|k: int| a <= k < b ==> s1[k] == s2[k]
}

proof fn lemma_printable_prefix_same(s1: Seq<u8>, s2: Seq<u8>, a: int, b: int)
    requires
        0 <= a,
        b <= s1.len(),
        b <= s2.len(),
        same_bytes(s1, s2, a, b),
    ensures
        printable_prefix(s1, a, b) == printable_prefix(s2, a, b),
    decreases b - a,
{
    if a < b {
        lemma_printable_prefix_same(s1, s2, a + 1, b);
    }
}

proof fn lemma_printable_prefix_chars(s: Seq<u8>, a: int, b: int)
    requires
        0 <= a,
        b <= s.len(),
    ensures
        printable_prefix(s, a, b).len() <= if a <= b { b - a } else { 0 },
        forall|j: int|
            0 <= j < printable_prefix(s, a, b).len() ==> #[trigger] printable_prefix(s, a, b)[j] == (
            s[a + j] as u32) as char && s[a + j] >= 0x20,
    decreases b - a,
{
    if a < b && s[a] >= 0x20 {
        lemma_printable_prefix_chars(s, a + 1, b);
        let p = printable_prefix(s, a, b);
        let q = printable_prefix(s, a + 1, b);
        assert forall|j: int| 0 <= j < p.len() implies #[trigger] p[j] == (s[a + j] as u32) as char
            && s[a + j] >= 0x20 by {
            if j > 0 {
                assert(p[j] == q[j - 1]);
            }
        }
    }
}

proof fn lemma_trim_end_prefix(s: Seq<char>)
    ensures
        trim_end_ws(s).len() <= s.len(),
        forall|j: int| 0 <= j < trim_end_ws(s).len() ==> #[trigger] trim_end_ws(s)[j] == s[j],
    decreases s.len(),
{
    if s.len() > 0 && spec_is_whitespace(s.last()) {
        lemma_trim_end_prefix(s.drop_last());
    }
}

/// Law: the label of a FAT12/16 boot sector (`fs` is `FAT`) depends on bytes
/// 43..54 alone, and that of a FAT32 one on bytes 71..82 alone: two sectors of the
/// same length that agree there give the same answer.
pub proof fn lemma_fat_label_reads_label_field(s1: Seq<u8>, s2: Seq<u8>, fs: Seq<char>)
    requires
        s1.len() == s2.len(),
        fs == "FAT"@ ==> same_bytes(s1, s2, 43, 54),
        fs == "FAT32"@ ==> same_bytes(s1, s2, 71, 82),
    ensures
        spec_fat_label(s1, fs) == spec_fat_label(s2, fs),
{
    reveal_strlit("FAT");
    reveal_strlit("FAT32");
    if fs == "FAT32"@ {
        if s1.len() >= 82 {
            lemma_printable_prefix_same(s1, s2, 71, 82);
        }
    } else if fs == "FAT"@ {
        if s1.len() >= 54 {
            lemma_printable_prefix_same(s1, s2, 43, 54);
        }
    }
}

/// Law: a FAT label is the start of the label field, character for character:
/// at most 11 characters, the `j`-th being byte `43 + j` (FAT12/16) or `71 + j`
/// (FAT32) of the sector, each printable.
pub proof fn lemma_fat_label_chars(s: Seq<u8>, fs: Seq<char>)
    ensures
        spec_fat_label(s, fs) matches Some(l) ==> {
            let a: int = if fs == "FAT32"@ { 71 } else { 43 };
            &&& fs == "FAT"@ || fs == "FAT32"@
            &&& l.len() <= 11
            &&& forall|j: int| 0 <= j < l.len() ==> #[trigger] l[j] == (s[a + j] as u32) as char && s[a + j] >= 0x20
        },
{
    reveal_strlit("FAT");
    reveal_strlit("FAT32");
    if spec_fat_label(s, fs) is Some {
        let a: int = if fs == "FAT32"@ { 71 } else { 43 };
        let p = printable_prefix(s, a, a + 11);
        lemma_printable_prefix_chars(s, a, a + 11);
        lemma_trim_end_prefix(p);
        let l = trim_end_ws(p);
        assert forall|j: int| 0 <= j < l.len() implies #[trigger] l[j] == (s[a + j] as u32) as char && s[a
            + j] >= 0x20 by {
            assert(l[j] == p[j]);
        }
    }
}

// ===== Rebuilding =====

/// The MBR partition type written for a file system when rebuilding:
/// FAT32 (LBA) 0x0C, FAT16B 0x06, and 0x07 (NTFS/exFAT) for everything else.
pub open spec fn spec_mbr_type_for(fs: Seq<char>) -> u8 {
    if fs == "FAT32"@ {
        0x0C
    } else if fs == "FAT"@ {
        0x06
    } else {
        0x07
    }
}

/// The MBR entry that describes a found partition: its start sector cut to the low
/// 32 bits, its size capped at `u32::MAX`, and the type of its file system.
pub fn mbr_entry_for(filesystem: &str, bootable: bool, start_sector: u64, size_sectors: u64) -> (e: MbrPartition)
    ensures
        e.bootable == bootable,
        e.ptype == spec_mbr_type_for(filesystem@),
        e.start_lba == start_sector % 0x1_0000_0000,
        e.size_lba == if size_sectors < u32::MAX { size_sectors } else { u32::MAX as u64 },
{
    let ptype: u8 = if is_fs(filesystem, "NTFS") {
        0x07
    } else if is_fs(filesystem, "FAT32") {
        0x0C
    } else if is_fs(filesystem, "FAT") {
        0x06
    } else {
        0x07
    };
    proof {
        reveal_strlit("NTFS");
        reveal_strlit("FAT32");
        reveal_strlit("FAT");
        assert("NTFS"@.len() == 4 && "FAT32"@.len() == 5 && "FAT"@.len() == 3);
    }
    MbrPartition {
        bootable,
        ptype,
        start_lba: (start_sector % 0x1_0000_0000) as u32,
        size_lba: if size_sectors < u32::MAX as u64 { size_sectors as u32 } else { u32::MAX },
    }
}

/// Why an MBR rebuild is refused before anything is written.
#[derive(Clone, Copy, Debug, PartialEq, Eq, Structural)]
pub enum RebuildRefusal {
    /// No partitions to write.
    NoPartitions,
    /// More than four primary partitions.
    TooManyPartitions,
    /// The process does not run with administrator rights.
    NotElevated,
    /// Sector 0 has no `55 AA` signature (it may be a GPT disk).
    NoMbrSignature,
    /// The MBR holds a protective GPT entry (type 0xEE).
    GptDisk,
}

/// Checks a rebuild request before the disk is opened: at least one and at most
/// four partitions, and administrator rights.
pub fn check_rebuild_request(count: usize, elevated: bool) -> (r: Result<(), RebuildRefusal>)
    ensures
        count == 0 ==> r == Err::<(), RebuildRefusal>(RebuildRefusal::NoPartitions),
        count > 4 ==> r == Err::<(), RebuildRefusal>(RebuildRefusal::TooManyPartitions),
        1 <= count <= 4 && !elevated ==> r == Err::<(), RebuildRefusal>(RebuildRefusal::NotElevated),
        1 <= count <= 4 && elevated ==> r is Ok,
{
    if count == 0 {
        return Err(RebuildRefusal::NoPartitions);
    }
    if count > 4 {
        return Err(RebuildRefusal::TooManyPartitions);
    }
    if !elevated {
        return Err(RebuildRefusal::NotElevated);
    }
    Ok(())
}

/// Whether an MBR sector lists a protective GPT entry (type 0xEE), the mark of a
/// GPT disk.
pub open spec fn has_gpt_entry(s: Seq<u8>) -> bool {
    exists|i: int| 0 <= i < spec_mbr_entries(s).len() && #[trigger] spec_mbr_entries(s)[i].ptype == 0xEE
}

/// Checks the current sector 0 before it is overwritten: it must carry the MBR
/// signature, and a GPT disk (any type-0xEE entry) is refused.
pub fn check_rebuild_target(current: &[u8]) -> (r: Result<(), RebuildRefusal>)
    requires
        current@.len() >= 512,
    ensures
        !has_boot_signature(current@) ==> r == Err::<(), RebuildRefusal>(RebuildRefusal::NoMbrSignature),
        has_boot_signature(current@) && has_gpt_entry(current@) ==> r == Err::<(), RebuildRefusal>(
            RebuildRefusal::GptDisk,
        ),
        r is Ok <==> has_boot_signature(current@) && !has_gpt_entry(current@),
{
    if current[510] != 0x55 || current[511] != 0xAA {
        return Err(RebuildRefusal::NoMbrSignature);
    }
    let es = parse_mbr_entries(current);
    let mut k: usize = 0;
    while k < es.len()
        invariant
            k <= es@.len(),
            es@ == spec_mbr_entries(current@),
            forall|i: int| 0 <= i < k ==> es@[i].ptype != 0xEE,
            has_boot_signature(current@),
        decreases es@.len() - k,
    {
        if es[k].ptype == 0xEE {
            assert(spec_mbr_entries(current@)[k as int].ptype == 0xEE);
            return Err(RebuildRefusal::GptDisk);
        }
        k = k + 1;
    }
    Ok(())
}

} // verus!
