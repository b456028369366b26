//! The decisions of the partition repair tools: the partitions that a disk's
//! table lists, the search for lost partitions by their boot sectors, the
//! entries of a rebuilt MBR, and the sector-by-sector copy of a disk image.
use vstd::prelude::*;
use crate::model::FoundPartition;
use crate::partition_table::{
    GptPartition, MbrPartition, detect_boot_signature, fat_label_from_boot, fs_size_from_boot,
    mbr_entry_for, spec_boot_signature, spec_fat_label, spec_fs_size, spec_mbr_type_for,
};
use crate::text::{decimal, push_decimal, push_str_chars, string_of};

verus! {

/// The signature scan looks at one sector in every 2048 (1 MiB).
pub const SCAN_STEP_SECTORS: u64 = 2048;

/// The signature scan covers the first 4 Mi sectors (2 GiB) at most.
pub const SCAN_LIMIT_SECTORS: u64 = 4194304;

/// The confidence of a partition listed in the table, and of one found by its
/// boot sector alone, in percent.
pub const TABLE_CONFIDENCE: u8 = 100;
pub const SIGNATURE_CONFIDENCE: u8 = 75;

/// Whether the MBR is the protective MBR of a GPT disk (an entry of type 0xEE).
pub fn is_gpt_disk(entries: &[MbrPartition]) -> (r: bool)
    ensures
        r == exists|i: int| 0 <= i < entries@.len() && entries@[i].ptype == 0xEE,
{
    let mut k: usize = 0;
    while k < entries.len()
        invariant
            k <= entries@.len(),
            forall|i: int| 0 <= i < k ==> entries@[i].ptype != 0xEE,
        decreases entries@.len() - k,
    {
        if entries[k].ptype == 0xEE {
            return true;
        }
        k = k + 1;
    }
    false
}

/// The file-system name of a boot sector that may not have been read: the
/// detected one, else `未知` (unknown).
pub open spec fn spec_fs_name(boot: Option<Seq<u8>>) -> Seq<char> {
    match boot {
        Some(b) => match spec_boot_signature(b) {
            Some(fs) => fs@,
            None => "未知"@,
        },
        None => "未知"@,
    }
}

fn fs_name(boot: Option<&[u8]>) -> (r: &'static str)
    ensures
        r@ == spec_fs_name(
            match boot {
                Some(b) => Some(b@),
                None => None,
            },
        ),
{
    match boot {
        Some(b) => match detect_boot_signature(b) {
            Some(fs) => fs,
            None => "未知",
        },
        None => "未知",
    }
}

pub open spec fn opt_view(b: Option<&[u8]>) -> Option<Seq<u8>> {
    match b {
        Some(x) => Some(x@),
        None => None,
    }
}

/// The sectors from `a` that a range of `size` sectors spans, as `[a, a + size)`
/// (the end wrapping at 2^64).
pub open spec fn span(a: u64, size: u64) -> (u64, u64) {
    (a, crate::deleted_scan::add64(a, size))
}

/// The partition that a GPT entry describes: its size from its inclusive LBA
/// range (0 when the end lies before the start, plus one, wrapping), the file
/// system of its boot sector `boot`, its name as label when it has one, full
/// confidence, not bootable; and the sectors it covers.
pub fn gpt_found_partition(p: &GptPartition, boot: Option<&[u8]>) -> (r: (FoundPartition, (u64, u64)))
    ensures
        ({
            let size = crate::deleted_scan::add64(
                if p.end_lba >= p.start_lba { (p.end_lba - p.start_lba) as u64 } else { 0 },
                1,
            );
            &&& r.0.start_sector == p.start_lba
            &&& r.0.size_sectors == size
            &&& r.0.filesystem@ == spec_fs_name(opt_view(boot))
            &&& (p.name@.len() == 0 ==> r.0.label is None)
            &&& (p.name@.len() > 0 ==> r.0.label == Some(p.name))
            &&& r.0.confidence_percent == TABLE_CONFIDENCE
            &&& !r.0.is_bootable
            &&& r.1 == span(p.start_lba, size)
        }),
{
    let diff = if p.end_lba >= p.start_lba { p.end_lba - p.start_lba } else { 0 };
    let size = diff.wrapping_add(1);
    let fs = fs_name(boot);
    let label = if p.name.as_str().is_empty() { None } else { Some(p.name.clone()) };
    let f = FoundPartition {
        start_sector: p.start_lba,
        size_sectors: size,
        filesystem: fs.to_owned(),
        label,
        confidence_percent: TABLE_CONFIDENCE,
        is_bootable: false,
    };
    (f, (p.start_lba, p.start_lba.wrapping_add(size)))
}

/// The partition that an MBR entry describes, from the boot sector `boot` at its
/// start: none for an extended partition (types 0x05, 0x0F), which only holds
/// others; else its sectors, the detected file system (`未知` when unknown), the
/// FAT label, full confidence and its bootable flag; and the sectors it covers.
pub fn mbr_found_partition(e: &MbrPartition, boot: Option<&[u8]>) -> (r: Option<(FoundPartition, (u64, u64))>)
    ensures
        (e.ptype == 0x05 || e.ptype == 0x0F) <==> r is None,
        r matches Some(x) ==> {
            &&& x.0.start_sector == e.start_lba as u64
            &&& x.0.size_sectors == e.size_lba as u64
            &&& x.0.filesystem@ == spec_fs_name(opt_view(boot))
            &&& (x.0.label is Some <==> (boot matches Some(b) && spec_fat_label(b@, spec_fs_name(opt_view(boot))) is Some))
            &&& (x.0.label matches Some(l) ==> (boot matches Some(b) && l@ == spec_fat_label(b@, spec_fs_name(opt_view(boot)))->0))
            &&& x.0.confidence_percent == TABLE_CONFIDENCE
            &&& x.0.is_bootable == e.bootable
            &&& x.1 == (e.start_lba as u64, (e.start_lba as u64 + e.size_lba as u64) as u64)
        },
{
    if e.ptype == 0x05 || e.ptype == 0x0F {
        return None;
    }
    let fs = fs_name(boot);
    let label = match boot {
        Some(b) => fat_label_from_boot(b, fs),
        None => None,
    };
    let start = e.start_lba as u64;
    let size = e.size_lba as u64;
    let f = FoundPartition {
        start_sector: start,
        size_sectors: size,
        filesystem: fs.to_owned(),
        label,
        confidence_percent: TABLE_CONFIDENCE,
        is_bootable: e.bootable,
    };
    Some((f, (start, start + size)))
}

/// Whether sector `lba` lies in one of the ranges `[s, e)`.
pub open spec fn spec_covered(covered: Seq<(u64, u64)>, lba: u64) -> bool {
    exists|i: int| 0 <= i < covered.len() && covered[i].0 <= lba && lba < covered[i].1
}

fn is_covered(covered: &Vec<(u64, u64)>, lba: u64) -> (r: bool)
    ensures
        r == spec_covered(covered@, lba),
{
    let mut k: usize = 0;
    while k < covered.len()
        invariant
            k <= covered@.len(),
            forall|i: int| 0 <= i < k ==> !(covered@[i].0 <= lba && lba < covered@[i].1),
        decreases covered@.len() - k,
    {
        let (s, e) = covered[k];
        if lba >= s && lba < e {
            return true;
        }
        k = k + 1;
    }
    false
}

/// The next sector that the signature scan reads, from `lba` on: on the 1 MiB
/// grid, below `limit` and inside the disk (`lba * 512 < total_bytes`), and not
/// in a known partition.
pub open spec fn spec_next_probe(covered: Seq<(u64, u64)>, lba: u64, limit: u64, total_bytes: u64) -> Option<u64>
    decreases limit + SCAN_STEP_SECTORS - lba,
{
    if lba >= limit || lba * 512 >= total_bytes || lba + SCAN_STEP_SECTORS > u64::MAX {
        None
    } else if spec_covered(covered, lba) {
        spec_next_probe(covered, (lba + SCAN_STEP_SECTORS) as u64, limit, total_bytes)
    } else {
        Some(lba)
    }
}

/// The partition that a boot sector found at sector `lba`, outside every known
/// partition, describes: the size that the boot sector declares (0 when it
/// declares none), its file system and FAT label, three-quarters confidence,
/// not bootable; and the sectors it covers (at least one).
pub open spec fn spec_lost_partition(lba: u64, sec: Seq<u8>) -> Option<(u64, u64, Seq<char>, Option<Seq<char>>)> {
    match spec_boot_signature(sec) {
        None => None,
        Some(fs) => Some(
            (
                lba,
                match spec_fs_size(sec, fs@) {
                    Some(n) => n,
                    None => 0,
                },
                fs@,
                spec_fat_label(sec, fs@),
            ),
        ),
    }
}

/// The search for lost partitions on a disk: the partitions found so far, the
/// sector ranges they cover, and the position of the signature scan, which looks
/// at one sector per MiB below the limit for boot sectors outside known ranges.
#[derive(Debug)]
pub struct LostPartitionSearch {
    found: Vec<FoundPartition>,
    covered: Vec<(u64, u64)>,
    lba: u64,
    limit: u64,
    total_bytes: u64,
    lost: u64,
}

impl LostPartitionSearch {
    pub closed spec fn found_view(&self) -> Seq<FoundPartition> {
        self.found@
    }

    pub closed spec fn covered_view(&self) -> Seq<(u64, u64)> {
        self.covered@
    }

    pub closed spec fn position(&self) -> u64 {
        self.lba
    }

    pub closed spec fn scan_limit(&self) -> u64 {
        self.limit
    }

    pub closed spec fn disk_bytes(&self) -> u64 {
        self.total_bytes
    }

    /// How many partitions the signature scan has found.
    pub closed spec fn lost_count(&self) -> u64 {
        self.lost
    }

    pub closed spec fn wf(&self) -> bool {
        self.limit <= SCAN_LIMIT_SECTORS && self.lost <= self.lba && self.lba <= SCAN_LIMIT_SECTORS + SCAN_STEP_SECTORS
    }

    /// A search that starts from the partitions of the table and the sectors they
    /// cover, on a disk of `total_bytes` bytes (`total_bytes / 512` sectors).
    pub fn new(found: Vec<FoundPartition>, covered: Vec<(u64, u64)>, total_bytes: u64) -> (s: Self)
        ensures
            s.wf(),
            s.found_view() == found@,
            s.covered_view() == covered@,
            s.position() == 0,
            s.scan_limit() == (if SCAN_LIMIT_SECTORS <= total_bytes / 512 {
                SCAN_LIMIT_SECTORS
            } else {
                total_bytes / 512
            }),
            s.disk_bytes() == total_bytes,
            s.lost_count() == 0,
    {
        let total_sectors = total_bytes / 512;
        let limit = if SCAN_LIMIT_SECTORS <= total_sectors { SCAN_LIMIT_SECTORS } else { total_sectors };
        LostPartitionSearch { found, covered, lba: 0, limit, total_bytes, lost: 0 }
    }

    /// The next sector to read, or `None` when the scan is over.
    pub fn next_probe(&mut self) -> (r: Option<u64>)
        requires
            old(self).wf(),
        ensures
            final(self).wf(),
            r == spec_next_probe(old(self).covered_view(), old(self).position(), old(self).scan_limit(), old(self).disk_bytes()),
            r matches Some(l) ==> final(self).position() == l,
            final(self).found_view() == old(self).found_view(),
            final(self).covered_view() == old(self).covered_view(),
            final(self).scan_limit() == old(self).scan_limit(),
            final(self).disk_bytes() == old(self).disk_bytes(),
            final(self).lost_count() == old(self).lost_count(),
    {
        let ghost start = self.lba;
        while self.lba < self.limit && self.lba * 512 < self.total_bytes
            invariant
                self.wf(),
                self.found@ == old(self).found@,
                self.covered@ == old(self).covered@,
                self.limit == old(self).limit,
                self.total_bytes == old(self).total_bytes,
                self.lost == old(self).lost,
                old(self).lba <= self.lba,
                spec_next_probe(old(self).covered@, old(self).lba, self.limit, self.total_bytes) == spec_next_probe(
                    self.covered@,
                    self.lba,
                    self.limit,
                    self.total_bytes,
                ),
            decreases self.limit + SCAN_STEP_SECTORS - self.lba,
        {
            if !is_covered(&self.covered, self.lba) {
                return Some(self.lba);
            }
            self.lba = self.lba + SCAN_STEP_SECTORS;
        }
        None
    }

    /// Takes in the sector read at the current position (`None` when it could not
    /// be read): a boot sector there is a lost partition, which is added and
    /// covered; then the scan moves on by one step.
    pub fn feed(&mut self, sector: Option<&[u8]>)
        requires
            old(self).wf(),
            old(self).position() < old(self).scan_limit(),
        ensures
            final(self).wf(),
            final(self).position() == old(self).position() + SCAN_STEP_SECTORS,
            final(self).scan_limit() == old(self).scan_limit(),
            final(self).disk_bytes() == old(self).disk_bytes(),
            match sector {
                Some(sec) => match spec_lost_partition(old(self).position(), sec@) {
                    Some((start, size, fs, label)) => {
                        let f = final(self).found_view().last();
                        &&& final(self).found_view().drop_last() == old(self).found_view()
                        &&& f.start_sector == start
                        &&& f.size_sectors == size
                        &&& f.filesystem@ == fs
                        &&& (f.label is Some <==> label is Some)
                        &&& (f.label matches Some(l) ==> l@ == label->0)
                        &&& f.confidence_percent == SIGNATURE_CONFIDENCE
                        &&& !f.is_bootable
                        &&& final(self).covered_view() == old(self).covered_view().push(
                            span(start, if size >= 1 { size } else { 1 }),
                        )
                        &&& final(self).lost_count() == old(self).lost_count() + 1
                    },
                    None => {
                        &&& final(self).found_view() == old(self).found_view()
                        &&& final(self).covered_view() == old(self).covered_view()
                        &&& final(self).lost_count() == old(self).lost_count()
                    },
                },
                None => {
                    &&& final(self).found_view() == old(self).found_view()
                    &&& final(self).covered_view() == old(self).covered_view()
                    &&& final(self).lost_count() == old(self).lost_count()
                },
            },
    {
        let lba = self.lba;
        match sector {
            Some(sec) => {
                match detect_boot_signature(sec) {
                    Some(fs) => {
                        let size = match fs_size_from_boot(sec, fs) {
                            Some(n) => n,
                            None => 0,
                        };
                        let label = fat_label_from_boot(sec, fs);
                        self.found.push(
                            FoundPartition {
                                start_sector: lba,
                                size_sectors: size,
                                filesystem: fs.to_owned(),
                                label,
                                confidence_percent: SIGNATURE_CONFIDENCE,
                                is_bootable: false,
                            },
                        );
                        let width = if size >= 1 { size } else { 1 };
                        self.covered.push((lba, lba.wrapping_add(width)));
                        self.lost = self.lost + 1;
                        assert(self.found@.drop_last() =~= old(self).found@);
                    },
                    None => {},
                }
            },
            None => {},
        }
        self.lba = lba + SCAN_STEP_SECTORS;
    }

    /// The partitions found: those of the table first, then the lost ones in
    /// the order of their position.
    pub fn into_found(self) -> (r: Vec<FoundPartition>)
        ensures
            r@ == self.found_view(),
    {
        self.found
    }

    /// How many partitions the signature scan found.
    pub fn lost(&self) -> (r: u64)
        ensures
            r == self.lost_count(),
    {
        self.lost
    }
}

/// The MBR entries that a rebuild writes for the partitions chosen, in order.
pub fn rebuild_entries(partitions: &[FoundPartition]) -> (r: Vec<MbrPartition>)
    ensures
        r@.len() == partitions@.len(),
        forall|i: int|
            0 <= i < r@.len() ==> {
                let p = #[trigger] partitions@[i];
                &&& r@[i].bootable == p.is_bootable
                &&& r@[i].ptype == spec_mbr_type_for(p.filesystem@)
                &&& r@[i].start_lba == p.start_sector % 0x1_0000_0000
                &&& r@[i].size_lba == if p.size_sectors < u32::MAX {
                    p.size_sectors
                } else {
                    u32::MAX as u64
                }
            },
{
    let mut out: Vec<MbrPartition> = Vec::new();
    let mut k: usize = 0;
    while k < partitions.len()
        invariant
            k <= partitions@.len(),
            out@.len() == k,
            forall|i: int|
                0 <= i < k ==> {
                    let p = #[trigger] partitions@[i];
                    &&& out@[i].bootable == p.is_bootable
                    &&& out@[i].ptype == spec_mbr_type_for(p.filesystem@)
                    &&& out@[i].start_lba == p.start_sector % 0x1_0000_0000
                    &&& out@[i].size_lba == if p.size_sectors < u32::MAX {
                        p.size_sectors
                    } else {
                        u32::MAX as u64
                    }
                },
        decreases partitions@.len() - k,
    {
        let p = &partitions[k];
        out.push(mbr_entry_for(p.filesystem.as_str(), p.is_bootable, p.start_sector, p.size_sectors));
        k = k + 1;
    }
    out
}

// ===== Disk images =====

/// A disk image is copied in chunks of 4 MiB.
pub const IMAGE_CHUNK: u64 = 4194304;

/// Why copying a disk image stopped.
#[derive(Debug, Clone, Copy, PartialEq, Eq, Structural)]
pub enum ImageError {
    /// A chunk could not be read and bad sectors are not to be skipped; the
    /// offset of the chunk.
    ReadFailed(u64),
}

/// The copy of a volume into an image file: its size, how far the copy is, and
/// how many sectors could not be read (and were written as zeros).
#[derive(Debug, Clone, Copy)]
pub struct ImageCopy {
    total: u64,
    offset: u64,
    bad: u64,
}

impl ImageCopy {
    pub closed spec fn total_bytes(&self) -> u64 {
        self.total
    }

    pub closed spec fn copied_bytes(&self) -> u64 {
        self.offset
    }

    pub closed spec fn bad_count(&self) -> u64 {
        self.bad
    }

    pub closed spec fn wf(&self) -> bool {
        self.offset <= self.total && self.bad <= self.offset / 512
    }

    /// A copy of a volume of `total` bytes that has not started.
    pub fn new(total: u64) -> (c: Self)
        ensures
            c.wf(),
            c.total_bytes() == total,
            c.copied_bytes() == 0,
            c.bad_count() == 0,
    {
        ImageCopy { total, offset: 0, bad: 0 }
    }

    /// The next chunk to copy, as (offset, length), or `None` when the copy is done.
    pub fn next_chunk(&self) -> (r: Option<(u64, u64)>)
        requires
            self.wf(),
        ensures
            self.copied_bytes() >= self.total_bytes() <==> r is None,
            r matches Some((o, n)) ==> o == self.copied_bytes() && n == (if IMAGE_CHUNK <= self.total_bytes()
                - self.copied_bytes() {
                IMAGE_CHUNK
            } else {
                (self.total_bytes() - self.copied_bytes()) as u64
            }),
    {
        if self.offset >= self.total {
            return None;
        }
        let left = self.total - self.offset;
        let n = if IMAGE_CHUNK <= left { IMAGE_CHUNK } else { left };
        Some((self.offset, n))
    }

    /// Records the outcome of reading the next chunk of `n` bytes: a failed read
    /// stops the copy unless bad sectors are skipped, in which case its sectors
    /// count as bad (the chunk is written as zeros).
    pub fn record_read(&mut self, n: u64, read_ok: bool, skip_bad_sectors: bool) -> (r: Result<(), ImageError>)
        requires
            old(self).wf(),
            n <= old(self).total_bytes() - old(self).copied_bytes(),
        ensures
            final(self).wf(),
            final(self).total_bytes() == old(self).total_bytes(),
            !read_ok && !skip_bad_sectors ==> r == Err::<(), ImageError>(ImageError::ReadFailed(old(self).copied_bytes()))
                && *final(self) == *old(self),
            read_ok ==> r is Ok && final(self).copied_bytes() == old(self).copied_bytes() + n
                && final(self).bad_count() == old(self).bad_count(),
            !read_ok && skip_bad_sectors ==> r is Ok && final(self).copied_bytes() == old(self).copied_bytes() + n
                && final(self).bad_count() == old(self).bad_count() + n / 512,
    {
        if !read_ok {
            if !skip_bad_sectors {
                return Err(ImageError::ReadFailed(self.offset));
            }
            assert(self.bad + n / 512 <= (self.offset + n) / 512) by (nonlinear_arith)
                requires
                    self.bad <= self.offset / 512,
            ;
            self.bad = self.bad + n / 512;
        } else {
            assert(self.bad <= (self.offset + n) / 512) by (nonlinear_arith)
                requires
                    self.bad <= self.offset / 512,
            ;
        }
        self.offset = self.offset + n;
        Ok(())
    }

    /// The sectors of the volume, copied so far, and unreadable.
    pub fn sectors(&self) -> (r: (u64, u64, u64))
        ensures
            r == (self.total_bytes() / 512, self.copied_bytes() / 512, self.bad_count()),
    {
        (self.total / 512, self.offset / 512, self.bad)
    }
}

} // verus!
