//! The disks that the dashboard lists: one per drive letter that names a fixed
//! or removable drive with a non-zero size, numbered in letter order.
use vstd::prelude::*;
use crate::model::{DiskInfo, PartitionInfo, PartitionStatus};
use crate::text::{decimal, push_decimal, push_str_chars, string_of};

verus! {

/// The drive type of a fixed drive, and of a removable one.
pub const DRIVE_FIXED: u32 = 3;
pub const DRIVE_REMOVABLE: u32 = 2;

/// What the system says of one drive letter: its drive type, its size and its
/// free space in bytes.
#[derive(Debug, Clone, Copy, PartialEq, Eq, Structural)]
pub struct DriveProbe {
    pub letter: char,
    pub drive_type: u32,
    pub total_bytes: u64,
    pub free_bytes: u64,
}

/// Whether a drive is listed: fixed or removable, and not of size zero.
pub open spec fn listed(p: DriveProbe) -> bool {
    (p.drive_type == DRIVE_FIXED || p.drive_type == DRIVE_REMOVABLE) && p.total_bytes != 0
}

/// The listed drives among the first `n` probes, in order.
pub open spec fn listed_upto(probes: Seq<DriveProbe>, n: int) -> Seq<DriveProbe>
    decreases n,
{
    if n <= 0 {
        Seq::empty()
    } else if listed(probes[n - 1]) {
        listed_upto(probes, n - 1).push(probes[n - 1])
    } else {
        listed_upto(probes, n - 1)
    }
}

pub open spec fn listed_drives(probes: Seq<DriveProbe>) -> Seq<DriveProbe> {
    listed_upto(probes, probes.len() as int)
}

/// The model text of a drive: `本地磁盘 (X:)`, with ` 可移动` for a removable one.
pub open spec fn spec_model(p: DriveProbe) -> Seq<char> {
    "本地磁盘 ("@ + seq![p.letter, ':', ')'] + if p.drive_type == DRIVE_REMOVABLE {
        " 可移动"@
    } else {
        Seq::empty()
    }
}

/// The device path of the `n`-th disk: `PhysicalDrive{n}`.
pub open spec fn spec_device_path(n: nat) -> Seq<char> {
    "PhysicalDrive"@ + decimal(n)
}

/// The disk that the `index`-th listed drive stands for: its size and free
/// space, 512-byte sectors, one active NTFS partition over the whole drive
/// mounted at `X:\`, and no S.M.A.R.T. data.
pub open spec fn spec_disk(p: DriveProbe, index: nat, d: DiskInfo) -> bool {
    &&& d.index == index
    &&& d.model@ == spec_model(p)
    &&& d.serial@ == seq![p.letter]
    &&& d.capacity_bytes == p.total_bytes
    &&& d.free_bytes == p.free_bytes
    &&& d.sector_size == 512
    &&& d.total_sectors == p.total_bytes / 512
    &&& d.device_path@ == spec_device_path(index)
    &&& d.is_removable == (p.drive_type == DRIVE_REMOVABLE)
    &&& d.smart_status is None
    &&& d.partitions@.len() == 1
    &&& d.partitions@[0].start_sector == 0
    &&& d.partitions@[0].size_sectors == p.total_bytes / 512
    &&& d.partitions@[0].filesystem@ == "NTFS"@
    &&& d.partitions@[0].mount_point matches Some(m) && m@ == seq![p.letter, ':', '\\']
    &&& d.partitions@[0].status == PartitionStatus::Active
    &&& !d.partitions@[0].is_bootable
}

fn disk_for(p: DriveProbe, index: u32) -> (d: DiskInfo)
    ensures
        spec_disk(p, index as nat, d),
{
    let removable = p.drive_type == DRIVE_REMOVABLE;
    let mut m: Vec<char> = Vec::new();
    push_str_chars(&mut m, "本地磁盘 (");
    m.push(p.letter);
    m.push(':');
    m.push(')');
    if removable {
        push_str_chars(&mut m, " 可移动");
    }
    assert(m@ =~= spec_model(p));
    let mut dp: Vec<char> = Vec::new();
    push_str_chars(&mut dp, "PhysicalDrive");
    push_decimal(&mut dp, index as u64, 0);
    proof {
        crate::text::lemma_decimal_len(index as nat);
    }
    let mut root: Vec<char> = Vec::new();
    root.push(p.letter);
    root.push(':');
    root.push('\\');
    assert(root@ =~= seq![p.letter, ':', '\\']);
    let mut serial: Vec<char> = Vec::new();
    serial.push(p.letter);
    let mut partitions: Vec<PartitionInfo> = Vec::new();
    partitions.push(
        PartitionInfo {
            start_sector: 0,
            size_sectors: p.total_bytes / 512,
            filesystem: "NTFS".to_owned(),
            mount_point: Some(string_of(&root)),
            status: PartitionStatus::Active,
            is_bootable: false,
        },
    );
    DiskInfo {
        index,
        model: string_of(&m),
        serial: string_of(&serial),
        capacity_bytes: p.total_bytes,
        free_bytes: p.free_bytes,
        sector_size: 512,
        total_sectors: p.total_bytes / 512,
        partitions,
        smart_status: None,
        is_removable: removable,
        device_path: string_of(&dp),
    }
}

/// The disks that the listed drives among `probes` stand for, numbered from 0
/// in the order of the probes.
pub fn disks_from_probes(probes: &[DriveProbe]) -> (r: Vec<DiskInfo>)
    requires
        probes@.len() <= u32::MAX,
    ensures
        r@.len() == listed_drives(probes@).len(),
        forall|i: int| 0 <= i < r@.len() ==> spec_disk(listed_drives(probes@)[i], i as nat, #[trigger] r@[i]),
{
    let mut out: Vec<DiskInfo> = Vec::new();
    let mut k: usize = 0;
    proof {
        lemma_listed_len(probes@, 0);
    }
    while k < probes.len()
        invariant
            k <= probes@.len() <= u32::MAX,
            out@.len() == listed_upto(probes@, k as int).len(),
            out@.len() <= k,
            forall|i: int| 0 <= i < out@.len() ==> spec_disk(listed_upto(probes@, k as int)[i], i as nat, #[trigger] out@[i]),
        decreases probes@.len() - k,
    {
        let p = probes[k];
        if (p.drive_type == DRIVE_FIXED || p.drive_type == DRIVE_REMOVABLE) && p.total_bytes != 0 {
            let idx = out.len() as u32;
            let d = disk_for(p, idx);
            out.push(d);
        }
        k = k + 1;
    }
    out
}

proof fn lemma_listed_len(probes: Seq<DriveProbe>, n: int)
    ensures
        listed_upto(probes, n).len() <= if n < 0 { 0 } else { n },
    decreases n,
{
    if n > 0 {
        lemma_listed_len(probes, n - 1);
    }
}

/// The drive letter of the `index`-th listed drive, in the numbering of
/// [`disks_from_probes`].
pub fn drive_letter_for_index(disk_index: u32, probes: &[DriveProbe]) -> (r: Option<char>)
    ensures
        disk_index < listed_drives(probes@).len() ==> r == Some(listed_drives(probes@)[disk_index as int].letter),
        disk_index >= listed_drives(probes@).len() ==> r is None,
{
    let mut count: u64 = 0;
    let mut k: usize = 0;
    proof {
        lemma_listed_len(probes@, probes@.len() as int);
    }
    while k < probes.len()
        invariant
            k <= probes@.len(),
            count == listed_upto(probes@, k as int).len(),
            count <= k,
            count <= disk_index,
        decreases probes@.len() - k,
    {
        let p = probes[k];
        proof {
            lemma_listed_len(probes@, k as int);
        }
        if (p.drive_type == DRIVE_FIXED || p.drive_type == DRIVE_REMOVABLE) && p.total_bytes != 0 {
            if count == disk_index as u64 {
                proof {
                    lemma_listed_prefix(probes@, k + 1, probes@.len() as int);
                    assert(listed_upto(probes@, k + 1)[count as int] == p);
                }
                return Some(p.letter);
            }
            count = count + 1;
        }
        k = k + 1;
    }
    None
}

proof fn lemma_listed_prefix(probes: Seq<DriveProbe>, m: int, n: int)
    requires
        0 <= m <= n <= probes.len(),
    ensures
        listed_upto(probes, m).len() <= listed_upto(probes, n).len(),
        forall|i: int| 0 <= i < listed_upto(probes, m).len() ==> #[trigger] listed_upto(probes, n)[i] == listed_upto(probes, m)[i],
    decreases n - m,
{
    if n > m {
        lemma_listed_prefix(probes, m, n - 1);
    }
}

/// Law: the disks are numbered 0, 1, 2, … in the order listed, and each one's
/// device path carries its number.
pub proof fn lemma_disk_numbering(probes: Seq<DriveProbe>, disks: Seq<DiskInfo>)
    requires
        disks.len() == listed_drives(probes).len(),
        forall|i: int| 0 <= i < disks.len() ==> spec_disk(listed_drives(probes)[i], i as nat, #[trigger] disks[i]),
    ensures
        forall|i: int| 0 <= i < disks.len() ==> #[trigger] disks[i].index == i && disks[i].device_path@ == spec_device_path(i as nat),
{
}

} // verus!
