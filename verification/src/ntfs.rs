//! NTFS on-disk structures: the boot sector (BPB), MFT file records, their
//! attributes, `$FILE_NAME` values, data runs (mapping pairs) and
//! `$ATTRIBUTE_LIST` entries. Every parser here is total: malformed input gives
//! `None`, an empty list or a shorter list, never a panic.
use vstd::prelude::*;
use crate::bytes::{
    bytes_at, bytes_match, le16, le32, le64, le_bytes, lemma_le_bytes_bound, lemma_pow256_pos,
    lemma_pow256_values, lemma_pow256_mono, lemma_pow2_strict, lemma_pow2_values, pow2, pow256, read_le, u16le, u32le, u64le,
};
use crate::text::{chars_of, decode_utf16_lossy, string_of, utf16_lossy};
use crate::datetime::{filetime_to_unix, spec_filetime_to_unix};

verus! {

/// Attribute type of `$ATTRIBUTE_LIST`.
pub const ATTR_ATTR_LIST: u32 = 0x20;
/// Attribute type of `$FILE_NAME`.
pub const ATTR_FILE_NAME: u32 = 0x30;
/// Attribute type of `$DATA`.
pub const ATTR_DATA: u32 = 0x80;

/// The cluster marker of a sparse run (no clusters on disk; reads as zeros).
pub const SPARSE_LCN: u64 = u64::MAX;

pub open spec fn ntfs_oem() -> Seq<u8> {
    seq![0x4Eu8, 0x54u8, 0x46u8, 0x53u8, 0x20u8]
}

pub open spec fn file_magic() -> Seq<u8> {
    seq![0x46u8, 0x49u8, 0x4Cu8, 0x45u8]
}

// ===== Boot sector =====

/// Geometry read from an NTFS boot sector.
#[derive(Clone, Copy, Debug, PartialEq, Eq)]
pub struct BootInfo {
    pub cluster_size: u64,
    pub record_size: u64,
    pub mft_offset: u64,
}

/// The signed value of the "clusters per MFT record" byte.
pub open spec fn signed_byte(x: u8) -> int {
    if x >= 128 { x - 256 } else { x as int }
}

/// Bytes per MFT record: `2^|code|` for a negative code, else `code` clusters;
/// `None` for a negative code whose shift `|code|` would be 64 or more.
pub open spec fn spec_record_size(code: u8, cluster: int) -> Option<int> {
    if signed_byte(code) < 0 {
        if 0 - signed_byte(code) >= 64 {
            None
        } else {
            Some(pow2((0 - signed_byte(code)) as nat) as int)
        }
    } else {
        Some(signed_byte(code) * cluster)
    }
}

/// What an NTFS boot sector gives: `None` unless the buffer holds at least 512
/// bytes, the OEM id `"NTFS "` at 3, the `55 AA` signature at 510, non-zero
/// bytes per sector and sectors per cluster, a record size in 512..=65536, and
/// an MFT offset (`MFT cluster * cluster size`) that fits in 64 bits.
pub open spec fn spec_boot_info(b: Seq<u8>) -> Option<BootInfo> {
    if b.len() < 512 || !bytes_at(b, 3, ntfs_oem()) {
        None
    } else if b[510] != 0x55 || b[511] != 0xAA {
        None
    } else {
        let bps = le16(b, 11);
        let spc = b[13] as int;
        if bps == 0 || spc == 0 {
            None
        } else {
            let cluster = bps * spc;
            match spec_record_size(b[64], cluster) {
                None => None,
                Some(record) => if record < 512 || record > 65536 {
                    None
                } else if le64(b, 48) * cluster > u64::MAX {
                    None
                } else {
                    Some(
                        BootInfo {
                            cluster_size: cluster as u64,
                            record_size: record as u64,
                            mft_offset: (le64(b, 48) * cluster) as u64,
                        },
                    )
                },
            }
        }
    }
}

fn pow2_small(s: u64) -> (r: u64)
    requires
        9 <= s <= 16,
    ensures
        r == pow2(s as nat),
        512 <= r <= 65536,
{
    proof {
        lemma_pow2_values();
    }
    match s {
        9 => 512,
        10 => 1024,
        11 => 2048,
        12 => 4096,
        13 => 8192,
        14 => 16384,
        15 => 32768,
        _ => 65536,
    }
}

proof fn lemma_pow2_range(s: nat)
    ensures
        s < 9 ==> pow2(s) < 512,
        s > 16 ==> pow2(s) > 65536,
{
    lemma_pow2_values();
    if s < 9 {
        lemma_pow2_strict(s, 9);
    }
    if s > 16 {
        lemma_pow2_strict(16, s);
    }
}

/// Parses an NTFS boot sector (BPB); `None` when it is not a valid NTFS one.
pub fn parse_boot_sector(b: &[u8]) -> (r: Option<BootInfo>)
    ensures
        r == spec_boot_info(b@),
{
    let oem: [u8; 5] = [0x4E, 0x54, 0x46, 0x53, 0x20];
    assert(oem@ =~= ntfs_oem());
    if b.len() < 512 || !bytes_match(b, 3, &oem) {
        return None;
    }
    if b[510] != 0x55 || b[511] != 0xAA {
        return None;
    }
    let bytes_per_sector = u16le(b, 11) as u64;
    let sectors_per_cluster = b[13] as u64;
    if bytes_per_sector == 0 || sectors_per_cluster == 0 {
        return None;
    }
    assert(bytes_per_sector * sectors_per_cluster < 0x100_0000) by (nonlinear_arith)
        requires
            bytes_per_sector < 65536,
            sectors_per_cluster < 256,
    ;
    let cluster_size = bytes_per_sector * sectors_per_cluster;
    let mft_lcn = u64le(b, 48);
    let code = b[64];
    let record_size: u64;
    if code >= 128 {
        let s: u64 = 256 - code as u64;
        if s >= 64 {
            return None;
        }
        proof {
            lemma_pow2_range(s as nat);
        }
        if s < 9 || s > 16 {
            return None;
        }
        record_size = pow2_small(s);
    } else {
        assert((code as u64) * cluster_size < 0x8000_0000) by (nonlinear_arith)
            requires
                code < 128,
                cluster_size < 0x100_0000,
        ;
        record_size = code as u64 * cluster_size;
        if record_size < 512 || record_size > 65536 {
            return None;
        }
    }
    match mft_lcn.checked_mul(cluster_size) {
        Some(mft_offset) => Some(BootInfo { cluster_size, record_size, mft_offset }),
        None => None,
    }
}

// ===== Data runs =====

/// The signed run offset of the mapping pair at `i` with `len_b` length bytes and
/// `off_b` offset bytes: little-endian, sign-extended from its top byte when it
/// has fewer than 8 bytes, read as an `i64` from its first 8 bytes otherwise.
pub open spec fn run_delta(data: Seq<u8>, i: int, len_b: int, off_b: int) -> int {
    if off_b == 0 {
        0
    } else if off_b < 8 {
        let v = le_bytes(data, i + 1 + len_b, off_b as nat) as int;
        if data[i + len_b + off_b] >= 128 {
            v - pow256(off_b as nat)
        } else {
            v
        }
    } else {
        let v = le_bytes(data, i + 1 + len_b, 8) as int;
        if v >= 0x8000_0000_0000_0000 {
            v - 0x1_0000_0000_0000_0000
        } else {
            v
        }
    }
}

/// `x` reduced into the `i64` range (two's complement wrap).
pub open spec fn wrap_i64(x: int) -> int {
    if x > i64::MAX {
        x - 0x1_0000_0000_0000_0000
    } else if x < i64::MIN {
        x + 0x1_0000_0000_0000_0000
    } else {
        x
    }
}

/// The runs decoded from the mapping pairs of `data` from byte `i` on, with the
/// running cluster number `lcn`. A header byte holds the count of length bytes in
/// its low nibble and of offset bytes in its high nibble; a zero header, a zero
/// length nibble or a pair that does not fit ends the list. A pair without an
/// offset, or one that makes the running cluster negative, is sparse
/// (`SPARSE_LCN`), and a negative running cluster restarts at 0. Only the first
/// 8 bytes of an over-long field count.
pub open spec fn decode_runs(data: Seq<u8>, i: int, lcn: int) -> Seq<(u64, u64)>
    decreases data.len() - i,
{
    if i < 0 || i >= data.len() || data[i] == 0 {
        Seq::empty()
    } else {
        let len_b = (data[i] % 16) as int;
        let off_b = (data[i] / 16) as int;
        if len_b == 0 || i + 1 + len_b + off_b > data.len() {
            Seq::empty()
        } else {
            let count = le_bytes(data, i + 1, if len_b < 8 { len_b as nat } else { 8 });
            let nl = wrap_i64(lcn + run_delta(data, i, len_b, off_b));
            let run = if off_b == 0 || nl < 0 {
                (SPARSE_LCN, count as u64)
            } else {
                (nl as u64, count as u64)
            };
            seq![run] + decode_runs(data, i + 1 + len_b + off_b, if nl < 0 { 0 } else { nl })
        }
    }
}

/// The `n`-byte two's-complement value of the unsigned little-endian number `v`:
/// negative exactly when its top bit is set.
pub open spec fn twos_complement(v: nat, n: nat) -> int {
    if 2 * v >= pow256(n) {
        v - pow256(n)
    } else {
        v as int
    }
}

/// The top bit of an `n`-byte little-endian number is the top bit of its last byte.
proof fn lemma_le_top_bit(b: Seq<u8>, o: int, n: nat)
    requires
        n >= 1,
        0 <= o,
        o + n <= b.len(),
    ensures
        (2 * le_bytes(b, o, n) >= pow256(n)) <==> b[o + n - 1] >= 128,
    decreases n,
{
    if n == 1 {
        reveal_with_fuel(le_bytes, 2);
        reveal_with_fuel(pow256, 2);
    } else {
        lemma_le_top_bit(b, o + 1, (n - 1) as nat);
        let l = le_bytes(b, o + 1, (n - 1) as nat);
        let p = pow256((n - 1) as nat);
        assert(p == 256 * pow256((n - 2) as nat));
        let x = b[o] as int;
        assert(le_bytes(b, o, n) == x + 256 * l);
        assert(pow256(n) == 256 * p);
        assert((2 * (x + 256 * l) >= 256 * p) <==> (2 * l >= p)) by (nonlinear_arith)
            requires
                0 <= x < 256,
                p == 256 * pow256((n - 2) as nat),
                l >= 0,
        {
            let q = pow256((n - 2) as nat) as int;
            if 2 * l >= p {
            } else {
                assert(2 * l <= 256 * q - 2);
            }
        }
    }
}

/// Law: a run's offset field of `n` bytes (1 to 7) is a signed number in two's
/// complement, added to the cluster of the run before: when the new cluster is a
/// valid one, the run starts there and covers the count in its length field, and
/// decoding goes on from the next pair with that cluster.
pub proof fn lemma_run_offset_is_signed(data: Seq<u8>, i: int, lcn: int)
    requires
        0 <= i < data.len(),
        data[i] != 0,
        1 <= data[i] % 16,
        1 <= data[i] / 16 <= 7,
        i + 1 + data[i] % 16 + data[i] / 16 <= data.len(),
        0 <= lcn + twos_complement(
            le_bytes(data, i + 1 + data[i] % 16, (data[i] / 16) as nat),
            (data[i] / 16) as nat,
        ) <= i64::MAX,
    ensures
        ({
            let len_b = (data[i] % 16) as int;
            let off_b = (data[i] / 16) as int;
            let nl = lcn + twos_complement(le_bytes(data, i + 1 + len_b, off_b as nat), off_b as nat);
            let count = le_bytes(data, i + 1, if len_b < 8 { len_b as nat } else { 8 });
            decode_runs(data, i, lcn) == seq![(nl as u64, count as u64)] + decode_runs(
                data,
                i + 1 + len_b + off_b,
                nl,
            )
        }),
{
    let len_b = (data[i] % 16) as int;
    let off_b = (data[i] / 16) as int;
    lemma_le_top_bit(data, i + 1 + len_b, off_b as nat);
    assert(i + 1 + len_b + off_b - 1 == i + len_b + off_b);
}

/// Parses NTFS mapping pairs into `(first cluster, cluster count)` runs in VCN order;
/// a sparse run has the first cluster `SPARSE_LCN`.
pub fn parse_runs(data: &[u8]) -> (runs: Vec<(u64, u64)>)
    ensures
        runs@ == decode_runs(data@, 0, 0),
{
    let mut runs: Vec<(u64, u64)> = Vec::new();
    let mut i: usize = 0;
    let mut lcn: i64 = 0;
    proof {
        lemma_pow256_values();
    }
    while i < data.len()
        invariant
            0 <= lcn,
            runs@ + decode_runs(data@, i as int, lcn as int) == decode_runs(data@, 0, 0),
        ensures
            runs@ == decode_runs(data@, 0, 0),
        decreases data@.len() - i,
    {
        let head = data[i];
        if head == 0 {
            assert(runs@ =~= decode_runs(data@, 0, 0));
            break;
        }
        let len_b = (head % 16) as usize;
        let off_b = (head / 16) as usize;
        if len_b == 0 || data.len() - i < 1 + len_b + off_b {
            assert(runs@ =~= decode_runs(data@, 0, 0));
            break;
        }
        let n_count = if len_b < 8 { len_b } else { 8 };
        let count = read_le(data, i + 1, n_count);
        let mut delta: i64 = 0;
        if off_b > 0 {
            if off_b < 8 {
                let v = read_le(data, i + 1 + len_b, off_b);
                proof {
                    lemma_le_bytes_bound(data@, (i + 1 + len_b) as int, off_b as nat);
                    lemma_pow256_values();
                    assert(pow256(off_b as nat) <= 72057594037927936) by {
                        reveal_with_fuel(pow256, 9);
                    }
                }
                if data[i + len_b + off_b] >= 128 {
                    let p = pow256_small(off_b);
                    delta = (v as i64) - (p as i64);
                } else {
                    delta = v as i64;
                }
            } else {
                let v = read_le(data, i + 1 + len_b, 8);
                if v > 0x7FFF_FFFF_FFFF_FFFF {
                    delta = -((0xFFFF_FFFF_FFFF_FFFF - v) as i64) - 1;
                } else {
                    delta = v as i64;
                }
            }
        }
        assert(delta == run_delta(data@, i as int, len_b as int, off_b as int));
        let nl = lcn.wrapping_add(delta);
        assert(nl == wrap_i64(lcn + delta));
        if off_b == 0 || nl < 0 {
            runs.push((SPARSE_LCN, count));
        } else {
            runs.push((nl as u64, count));
        }
        lcn = if nl < 0 { 0 } else { nl };
        i = i + 1 + len_b + off_b;
    }
    runs
}

fn pow256_small(n: usize) -> (r: u64)
    requires
        n < 8,
    ensures
        r == pow256(n as nat),
{
    let mut r: u64 = 1;
    let mut k: usize = 0;
    proof {
        lemma_pow256_values();
    }
    while k < n
        invariant
            k <= n < 8,
            r == pow256(k as nat),
            pow256(7) == 72057594037927936,
        decreases n - k,
    {
        proof {
            lemma_pow256_pos(k as nat);
            lemma_pow256_mono(k as nat, 6);
        }
        r = r * 256;
        k = k + 1;
    }
    r
}


// ===== $FILE_NAME =====

/// One `$FILE_NAME` value of a record.
#[derive(Clone, Debug, PartialEq, Eq)]
pub struct NameInfo {
    pub name: String,
    pub namespace: u8,
    pub size: u64,
    pub mtime_unix: u64,
    /// MFT record number of the parent directory (the low 6 bytes of the parent
    /// reference at offset 0; the sequence number above them is dropped).
    pub parent_ref: u64,
}

/// The mathematical content of a [`NameInfo`].
pub struct NameView {
    pub name: Seq<char>,
    pub namespace: u8,
    pub size: u64,
    pub mtime_unix: u64,
    pub parent_ref: u64,
}

impl View for NameInfo {
    type V = NameView;

    open spec fn view(&self) -> NameView {
        NameView {
            name: self.name@,
            namespace: self.namespace,
            size: self.size,
            mtime_unix: self.mtime_unix,
            parent_ref: self.parent_ref,
        }
    }
}

/// The UTF-16 code units of the file name of a `$FILE_NAME` value.
pub open spec fn name_units(v: Seq<u8>) -> Seq<u16> {
    Seq::new(v[0x40] as nat, |i: int| le16(v, 0x42 + 2 * i) as u16)
}

/// What a `$FILE_NAME` value holds: parent reference at 0x00 (low 48 bits),
/// modification FILETIME at 0x10, real size at 0x30, name length in characters
/// at 0x40, namespace at 0x41 and the UTF-16LE name from 0x42. `None` when the
/// value is shorter than its header or its name.
pub open spec fn spec_file_name(v: Seq<u8>) -> Option<NameView> {
    if v.len() < 0x42 || v.len() < 0x42 + 2 * v[0x40] {
        None
    } else {
        Some(
            NameView {
                name: decode_utf16_lossy(name_units(v)),
                namespace: v[0x41],
                size: le64(v, 0x30) as u64,
                mtime_unix: spec_filetime_to_unix(le64(v, 0x10) as u64),
                parent_ref: (le64(v, 0) % 0x1_0000_0000_0000) as u64,
            },
        )
    }
}

/// Parses a `$FILE_NAME` attribute value.
pub fn parse_file_name_value(v: &[u8]) -> (r: Option<NameInfo>)
    ensures
        r is Some <==> spec_file_name(v@) is Some,
        r matches Some(n) ==> n@ == spec_file_name(v@).unwrap(),
{
    if v.len() < 0x42 {
        return None;
    }
    let parent_raw = u64le(v, 0);
    let parent_ref = parent_raw % 0x1_0000_0000_0000;
    let size = u64le(v, 0x30);
    let mtime = u64le(v, 0x10);
    let nlen = v[0x40] as usize;
    let ns = v[0x41];
    if v.len() - 0x42 < nlen * 2 {
        return None;
    }
    let mut wide: Vec<u16> = Vec::new();
    let mut i: usize = 0;
    while i < nlen
        invariant
            nlen == v@[0x40],
            0x42 + 2 * nlen <= v@.len(),
            i <= nlen,
            wide@ =~= name_units(v@).subrange(0, i as int),
        decreases nlen - i,
    {
        wide.push(u16le(v, 0x42 + i * 2));
        i = i + 1;
    }
    assert(name_units(v@).subrange(0, nlen as int) =~= name_units(v@));
    let name_chars = utf16_lossy(&wide);
    let name = string_of(&name_chars);
    Some(NameInfo { name, namespace: ns, size, mtime_unix: filetime_to_unix(mtime), parent_ref })
}

// ===== Attributes =====

/// Where one attribute lies in a record.
#[derive(Clone, Copy, Debug, PartialEq, Eq)]
pub struct AttrRef {
    pub attr_type: u32,
    pub start: usize,
    pub len: usize,
    pub nonresident: bool,
    pub flags: u16,
}

/// The attributes of `rec` from offset `off` on: each has its type at +0 (0 or
/// `0xFFFFFFFF` ends the list), its length at +4 (under 8, or past the record,
/// ends the list), the non-resident flag at +8 and its flags at +12 (0 when
/// those two bytes lie past the record).
pub open spec fn attrs_from(rec: Seq<u8>, off: int) -> Seq<AttrRef>
    decreases rec.len() - off,
{
    if off < 0 || off + 8 > rec.len() {
        Seq::empty()
    } else {
        let t = le32(rec, off);
        let len = le32(rec, off + 4);
        if t == 0xFFFF_FFFF || t == 0 || len < 8 || off + len > rec.len() {
            Seq::empty()
        } else {
            seq![
                AttrRef {
                    attr_type: t as u32,
                    start: off as usize,
                    len: len as usize,
                    nonresident: rec[off + 8] != 0,
                    flags: if off + 14 <= rec.len() { le16(rec, off + 12) as u16 } else { 0 },
                },
            ] + attrs_from(rec, off + len)
        }
    }
}

/// Whether reading the attribute chain from `off` stays inside `rec`: every
/// attribute that the chain lists has its non-resident flag byte (+8) inside the
/// record. (An attribute of length exactly 8 that ends the record would have it
/// one byte past the end.)
pub open spec fn attr_chain_ok(rec: Seq<u8>, off: int) -> bool
    decreases rec.len() - off,
{
    if off < 0 || off + 8 > rec.len() {
        true
    } else {
        let t = le32(rec, off);
        let len = le32(rec, off + 4);
        if t == 0xFFFF_FFFF || t == 0 || len < 8 || off + len > rec.len() {
            true
        } else {
            off + 8 < rec.len() && attr_chain_ok(rec, off + len)
        }
    }
}

/// Whether `rec` starts like an MFT file record: at least 0x30 bytes and the magic `FILE`.
pub open spec fn is_file_record(rec: Seq<u8>) -> bool {
    rec.len() >= 0x30 && bytes_at(rec, 0, file_magic())
}

/// The attributes of an MFT record, starting at the offset held at 0x14.
pub open spec fn spec_attrs(rec: Seq<u8>) -> Seq<AttrRef> {
    if !is_file_record(rec) {
        Seq::empty()
    } else {
        attrs_from(rec, le16(rec, 0x14))
    }
}

/// Whether the attributes of `rec` can be listed without reading past its end
/// (always so when it is not a `FILE` record).
pub open spec fn record_readable(rec: Seq<u8>) -> bool {
    !is_file_record(rec) || attr_chain_ok(rec, le16(rec, 0x14))
}

/// Decides [`record_readable`], so that callers can test a record before handing
/// it to [`iter_attrs`] or [`parse_record`].
pub fn record_is_readable(rec: &[u8]) -> (r: bool)
    ensures
        r == record_readable(rec@),
{
    let magic: [u8; 4] = [0x46, 0x49, 0x4C, 0x45];
    assert(magic@ =~= file_magic());
    if rec.len() < 0x30 || !bytes_match(rec, 0, &magic) {
        return true;
    }
    let mut off = u16le(rec, 0x14) as usize;
    while off <= rec.len() && rec.len() - off >= 8
        invariant
            is_file_record(rec@),
            attr_chain_ok(rec@, off as int) == record_readable(rec@),
        ensures
            record_readable(rec@),
        decreases rec@.len() - off,
    {
        let t = u32le(rec, off);
        let len = u32le(rec, off + 4) as usize;
        if t == 0xFFFF_FFFF || t == 0 || len < 8 || len > rec.len() - off {
            return true;
        }
        if rec.len() - off == 8 {
            return false;
        }
        off = off + len;
    }
    true
}

/// An attribute lies wholly inside its record.
pub open spec fn attr_in(rec: Seq<u8>, a: AttrRef) -> bool {
    a.len >= 8 && a.start + a.len <= rec.len()
}

proof fn lemma_attrs_in(rec: Seq<u8>, off: int)
    ensures
        forall|k: int| 0 <= k < attrs_from(rec, off).len() ==> attr_in(rec, #[trigger] attrs_from(rec, off)[k]),
    decreases rec.len() - off,
{
    if !(off < 0 || off + 8 > rec.len()) {
        let len = le32(rec, off + 4);
        let t = le32(rec, off);
        if !(t == 0xFFFF_FFFF || t == 0 || len < 8 || off + len > rec.len()) {
            lemma_attrs_in(rec, off + len);
            let rest = attrs_from(rec, off + len);
            assert forall|k: int| 0 <= k < attrs_from(rec, off).len() implies attr_in(
                rec,
                #[trigger] attrs_from(rec, off)[k],
            ) by {
                if k > 0 {
                    assert(attrs_from(rec, off)[k] == rest[k - 1]);
                }
            }
        }
    }
}

/// Every attribute that [`spec_attrs`] lists lies inside the record.
pub proof fn lemma_spec_attrs_in(rec: Seq<u8>)
    ensures
        forall|k: int| 0 <= k < spec_attrs(rec).len() ==> attr_in(rec, #[trigger] spec_attrs(rec)[k]),
{
    if is_file_record(rec) {
        lemma_attrs_in(rec, le16(rec, 0x14));
    }
}

/// Lists the attributes of an MFT record (empty unless it is a `FILE` record).
pub fn iter_attrs(rec: &[u8]) -> (out: Vec<AttrRef>)
    requires
        record_readable(rec@),
    ensures
        out@ == spec_attrs(rec@),
{
    let mut out: Vec<AttrRef> = Vec::new();
    let magic: [u8; 4] = [0x46, 0x49, 0x4C, 0x45];
    assert(magic@ =~= file_magic());
    if rec.len() < 0x30 || !bytes_match(rec, 0, &magic) {
        return out;
    }
    let mut off = u16le(rec, 0x14) as usize;
    while off <= rec.len() && rec.len() - off >= 8
        invariant
            out@ + attrs_from(rec@, off as int) == spec_attrs(rec@),
            is_file_record(rec@),
            attr_chain_ok(rec@, off as int),
        ensures
            out@ == spec_attrs(rec@),
        decreases rec@.len() - off,
    {
        let t = u32le(rec, off);
        let len = u32le(rec, off + 4) as usize;
        if t == 0xFFFF_FFFF || t == 0 || len < 8 || len > rec.len() - off {
            assert(out@ =~= spec_attrs(rec@));
            return out;
        }
        let nonresident = rec[off + 8] != 0;
        let flags = if rec.len() - off >= 14 {
            u16le(rec, off + 0x0C)
        } else {
            0
        };
        let a = AttrRef { attr_type: t, start: off, len, nonresident, flags };
        let ghost out0 = out@;
        out.push(a);
        assert(attrs_from(rec@, off as int) == seq![a] + attrs_from(rec@, off + len));
        assert(out@ + attrs_from(rec@, off + len) =~= out0 + attrs_from(rec@, off as int));
        off = off + len;
    }
    assert(out@ =~= spec_attrs(rec@));
    out
}

/// The value of a resident attribute: the value length (u32 at +0x10) bytes from
/// the value offset (u16 at +0x14), when the header and the value lie inside the record.
pub open spec fn spec_attr_value(rec: Seq<u8>, a: AttrRef) -> Option<Seq<u8>> {
    if a.nonresident || a.start + 0x18 > rec.len() {
        None
    } else {
        let s = a.start + le16(rec, a.start + 0x14);
        let e = s + le32(rec, a.start + 0x10);
        if e > rec.len() {
            None
        } else {
            Some(rec.subrange(s, e))
        }
    }
}

/// The value bytes of a resident attribute, or `None` for a non-resident one or
/// one whose value does not lie inside the record.
pub fn attr_value<'a>(rec: &'a [u8], a: &AttrRef) -> (r: Option<&'a [u8]>)
    ensures
        r is Some <==> spec_attr_value(rec@, *a) is Some,
        r matches Some(v) ==> v@ == spec_attr_value(rec@, *a).unwrap(),
{
    if a.nonresident || rec.len() < 0x18 || a.start > rec.len() - 0x18 {
        return None;
    }
    let vlen = u32le(rec, a.start + 0x10) as usize;
    let voff = u16le(rec, a.start + 0x14) as usize;
    // a.start + voff <= rec.len() + 65535 does not overflow a usize that holds rec.len()
    if voff > rec.len() - a.start {
        return None;
    }
    let s = a.start + voff;
    if vlen > rec.len() - s {
        return None;
    }
    Some(&rec[s..s + vlen])
}

// ===== Records =====

/// The fields of an MFT record that recovery uses.
#[derive(Clone, Debug)]
pub struct ParsedRecord {
    pub in_use: bool,
    pub names: Vec<NameInfo>,
    pub resident_data: Option<Vec<u8>>,
    pub data_runs: Vec<(u64, u64)>,
    pub data_size: u64,
    pub compressed: bool,
    pub attr_list_present: bool,
    pub attr_list_resident: Option<Vec<u8>>,
    pub attr_list_runs: Vec<(u64, u64)>,
    pub attr_list_size: u64,
}

/// The mathematical content of a [`ParsedRecord`].
pub struct RecordView {
    pub in_use: bool,
    pub names: Seq<NameView>,
    pub resident_data: Option<Seq<u8>>,
    pub data_runs: Seq<(u64, u64)>,
    pub data_size: u64,
    pub compressed: bool,
    pub attr_list_present: bool,
    pub attr_list_resident: Option<Seq<u8>>,
    pub attr_list_runs: Seq<(u64, u64)>,
    pub attr_list_size: u64,
}

pub open spec fn opt_bytes_view(o: Option<Vec<u8>>) -> Option<Seq<u8>> {
    match o {
        Some(v) => Some(v@),
        None => None,
    }
}

impl View for ParsedRecord {
    type V = RecordView;

    open spec fn view(&self) -> RecordView {
        RecordView {
            in_use: self.in_use,
            names: self.names@.map_values(|n: NameInfo| n@),
            resident_data: opt_bytes_view(self.resident_data),
            data_runs: self.data_runs@,
            data_size: self.data_size,
            compressed: self.compressed,
            attr_list_present: self.attr_list_present,
            attr_list_resident: opt_bytes_view(self.attr_list_resident),
            attr_list_runs: self.attr_list_runs@,
            attr_list_size: self.attr_list_size,
        }
    }
}

/// The runs of a non-resident attribute: its mapping pairs start at the offset
/// held at +0x20 and end with the attribute.
pub open spec fn nonresident_runs(rec: Seq<u8>, a: AttrRef) -> Seq<(u64, u64)> {
    decode_runs(rec.subrange(a.start + le16(rec, a.start + 0x20), a.start + a.len), 0, 0)
}

/// How one attribute changes what is known of the record. `$FILE_NAME` (resident)
/// adds a name and raises the size to the name's size; non-resident `$DATA` with a
/// full header sets the runs (when the mapping pairs start inside it), the size
/// from +0x30, and marks compressed (flag 0x0001) or encrypted (flag 0x4000) data;
/// resident `$DATA` sets the data and its length; `$ATTRIBUTE_LIST` marks the list
/// present and sets its runs and size (non-resident with a full header) or its
/// bytes (resident).
pub open spec fn apply_attr(rec: Seq<u8>, p: RecordView, a: AttrRef) -> RecordView {
    if a.attr_type == ATTR_FILE_NAME && !a.nonresident {
        match spec_attr_value(rec, a) {
            Some(v) => match spec_file_name(v) {
                Some(n) => RecordView {
                    names: p.names.push(n),
                    data_size: if p.data_size >= n.size { p.data_size } else { n.size },
                    ..p
                },
                None => p,
            },
            None => p,
        }
    } else if a.attr_type == ATTR_DATA && a.nonresident {
        if a.len < 0x40 {
            p
        } else {
            let mpo = le16(rec, a.start + 0x20);
            RecordView {
                data_runs: if mpo < a.len { nonresident_runs(rec, a) } else { p.data_runs },
                data_size: le64(rec, a.start + 0x30) as u64,
                compressed: p.compressed || a.flags % 2 == 1 || (a.flags / 0x4000) % 2 == 1,
                ..p
            }
        }
    } else if a.attr_type == ATTR_DATA {
        match spec_attr_value(rec, a) {
            Some(v) => RecordView { resident_data: Some(v), data_size: v.len() as u64, ..p },
            None => p,
        }
    } else if a.attr_type == ATTR_ATTR_LIST {
        if a.nonresident && a.len >= 0x40 {
            let mpo = le16(rec, a.start + 0x20);
            RecordView {
                attr_list_present: true,
                attr_list_runs: if mpo < a.len { nonresident_runs(rec, a) } else { p.attr_list_runs },
                attr_list_size: le64(rec, a.start + 0x30) as u64,
                ..p
            }
        } else {
            match spec_attr_value(rec, a) {
                Some(v) => RecordView { attr_list_present: true, attr_list_resident: Some(v), ..p },
                None => RecordView { attr_list_present: true, ..p },
            }
        }
    } else {
        p
    }
}

/// The record before any attribute: only the in-use flag (bit 0 of the u16 at 0x16).
pub open spec fn initial_record(rec: Seq<u8>) -> RecordView {
    RecordView {
        in_use: le16(rec, 0x16) % 2 == 1,
        names: Seq::empty(),
        resident_data: None,
        data_runs: Seq::empty(),
        data_size: 0,
        compressed: false,
        attr_list_present: false,
        attr_list_resident: None,
        attr_list_runs: Seq::empty(),
        attr_list_size: 0,
    }
}

/// The record after its first `k` attributes.
pub open spec fn fold_attrs(rec: Seq<u8>, attrs: Seq<AttrRef>) -> RecordView
    decreases attrs.len(),
{
    if attrs.len() == 0 {
        initial_record(rec)
    } else {
        apply_attr(rec, fold_attrs(rec, attrs.drop_last()), attrs.last())
    }
}

/// What an MFT record holds: `None` unless it is a `FILE` record, else the effect
/// of its attributes in order.
pub open spec fn spec_parse_record(rec: Seq<u8>) -> Option<RecordView> {
    if !is_file_record(rec) {
        None
    } else {
        Some(fold_attrs(rec, spec_attrs(rec)))
    }
}

fn flags_mark_compressed(flags: u16) -> (r: bool)
    ensures
        r == (flags % 2 == 1 || (flags / 0x4000) % 2 == 1),
{
    flags % 2 == 1 || (flags / 0x4000) % 2 == 1
}

/// Applies one attribute to the record being parsed.
fn apply_attr_exec(rec: &[u8], p: &mut ParsedRecord, a: AttrRef)
    requires
        attr_in(rec@, a),
    ensures
        final(p)@ == apply_attr(rec@, old(p)@, a),
{
    let ghost p0 = p@;
    let n = rec.len();
    if a.attr_type == ATTR_FILE_NAME && !a.nonresident {
        if let Some(v) = attr_value(rec, &a) {
            if let Some(n) = parse_file_name_value(v) {
                p.data_size = if p.data_size >= n.size { p.data_size } else { n.size };
                p.names.push(n);
                assert(p@.names =~= p0.names.push(n@));
            }
        }
    } else if a.attr_type == ATTR_DATA && a.nonresident {
        if a.len >= 0x40 {
            let mpo = u16le(rec, a.start + 0x20) as usize;
            if mpo < a.len {
                p.data_runs = parse_runs(&rec[a.start + mpo..a.start + a.len]);
            }
            p.data_size = u64le(rec, a.start + 0x30);
            if flags_mark_compressed(a.flags) {
                p.compressed = true;
            }
            assert(p@.names =~= p0.names);
        }
    } else if a.attr_type == ATTR_DATA {
        if let Some(v) = attr_value(rec, &a) {
            p.resident_data = Some(vstd::slice::slice_to_vec(v));
            p.data_size = v.len() as u64;
            assert(p@.names =~= p0.names);
        }
    } else if a.attr_type == ATTR_ATTR_LIST {
        p.attr_list_present = true;
        if a.nonresident && a.len >= 0x40 {
            let mpo = u16le(rec, a.start + 0x20) as usize;
            if mpo < a.len {
                p.attr_list_runs = parse_runs(&rec[a.start + mpo..a.start + a.len]);
            }
            p.attr_list_size = u64le(rec, a.start + 0x30);
        } else if let Some(v) = attr_value(rec, &a) {
            p.attr_list_resident = Some(vstd::slice::slice_to_vec(v));
        }
        assert(p@.names =~= p0.names);
    }
}

/// Parses an MFT file record; `None` when it lacks the `FILE` magic or is shorter than 0x30 bytes.
pub fn parse_record(rec: &[u8]) -> (r: Option<ParsedRecord>)
    requires
        record_readable(rec@),
    ensures
        r is Some <==> spec_parse_record(rec@) is Some,
        r matches Some(p) ==> p@ == spec_parse_record(rec@).unwrap(),
{
    let magic: [u8; 4] = [0x46, 0x49, 0x4C, 0x45];
    assert(magic@ =~= file_magic());
    if rec.len() < 0x30 || !bytes_match(rec, 0, &magic) {
        return None;
    }
    let flags = u16le(rec, 0x16);
    let mut p = ParsedRecord {
        in_use: flags % 2 == 1,
        names: Vec::new(),
        resident_data: None,
        data_runs: Vec::new(),
        data_size: 0,
        compressed: false,
        attr_list_present: false,
        attr_list_resident: None,
        attr_list_runs: Vec::new(),
        attr_list_size: 0,
    };
    let attrs = iter_attrs(rec);
    proof {
        lemma_spec_attrs_in(rec@);
        assert(attrs@.take(0) =~= Seq::<AttrRef>::empty());
        assert(p@.names =~= Seq::<NameView>::empty());
    }
    let mut k: usize = 0;
    while k < attrs.len()
        invariant
            attrs@ == spec_attrs(rec@),
            is_file_record(rec@),
            k <= attrs@.len(),
            forall|j: int| 0 <= j < attrs@.len() ==> attr_in(rec@, #[trigger] attrs@[j]),
            p@ == fold_attrs(rec@, attrs@.take(k as int)),
        decreases attrs@.len() - k,
    {
        let a = attrs[k];
        assert(attr_in(rec@, a));
        assert(attrs@.take(k + 1).drop_last() =~= attrs@.take(k as int));
        apply_attr_exec(rec, &mut p, a);
        k = k + 1;
    }
    assert(attrs@.take(attrs@.len() as int) =~= attrs@);
    Some(p)
}

// ===== $ATTRIBUTE_LIST =====

/// The entries of an `$ATTRIBUTE_LIST` from `off` on, as (attribute type, base
/// record number, starting VCN): type at +0 (0 or `0xFFFFFFFF` ends the list),
/// entry length at +4 (under 0x18, or past the buffer, ends it), starting VCN at
/// +8 and base record reference at +0x10 (low 48 bits). Entries are 8-byte aligned.
pub open spec fn attr_list_from(buf: Seq<u8>, off: int) -> Seq<(u32, u64, u64)>
    decreases buf.len() - off,
    via attr_list_from_decreases
{
    if off < 0 || off + 0x20 > buf.len() {
        Seq::empty()
    } else {
        let t = le32(buf, off);
        let len = le16(buf, off + 4);
        if t == 0 || t == 0xFFFF_FFFF || len < 0x18 || off + len > buf.len() {
            Seq::empty()
        } else if off + align8(len) > buf.len() {
            seq![(t as u32, (le64(buf, off + 0x10) % 0x1_0000_0000_0000) as u64, le64(buf, off + 8) as u64)]
        } else {
            seq![(t as u32, (le64(buf, off + 0x10) % 0x1_0000_0000_0000) as u64, le64(buf, off + 8) as u64)]
                + attr_list_from(buf, off + align8(len))
        }
    }
}

/// `x` rounded up to a multiple of 8.
pub open spec fn align8(x: int) -> int {
    ((x + 7) / 8) * 8
}

pub proof fn lemma_align8(x: int)
    requires
        x >= 0,
    ensures
        x <= align8(x) <= x + 7,
{
    assert(x <= ((x + 7) / 8) * 8 <= x + 7) by (nonlinear_arith)
        requires
            x >= 0,
    ;
}

#[via_fn]
proof fn attr_list_from_decreases(buf: Seq<u8>, off: int) {
    if !(off < 0 || off + 0x20 > buf.len()) {
        let len = le16(buf, off + 4);
        assert(len >= 0);
        lemma_align8(len);
        assert(align8(len) >= len);
    }
}

/// Parses `$ATTRIBUTE_LIST` entries into (attribute type, base record number, starting VCN).
pub fn parse_attr_list_refs(buf: &[u8]) -> (out: Vec<(u32, u64, u64)>)
    ensures
        out@ == attr_list_from(buf@, 0),
{
    let mut out: Vec<(u32, u64, u64)> = Vec::new();
    let mut off: usize = 0;
    while off <= buf.len() && buf.len() - off >= 0x20
        invariant
            out@ + attr_list_from(buf@, off as int) == attr_list_from(buf@, 0),
        ensures
            out@ == attr_list_from(buf@, 0),
        decreases buf@.len() - off,
    {
        let t = u32le(buf, off);
        if t == 0 || t == 0xFFFF_FFFF {
            assert(out@ =~= attr_list_from(buf@, 0));
            return out;
        }
        let len = u16le(buf, off + 4) as usize;
        if len < 0x18 || len > buf.len() - off {
            assert(out@ =~= attr_list_from(buf@, 0));
            return out;
        }
        let vcn = u64le(buf, off + 8);
        let base = u64le(buf, off + 0x10) % 0x1_0000_0000_0000;
        let ghost out0 = out@;
        out.push((t, base, vcn));
        let step = ((len + 7) / 8) * 8;
        proof {
            lemma_align8(len as int);
        }
        assert(out@ + attr_list_from(buf@, off + step) =~= out0 + attr_list_from(buf@, off as int));
        if step > buf.len() - off {
            assert(out@ =~= attr_list_from(buf@, 0));
            return out;
        }
        off = off + step;
    }
    assert(out@ =~= attr_list_from(buf@, 0));
    out
}

// ===== Names =====

/// Whether `c` cannot stand in a Windows file name.
pub open spec fn is_forbidden_name_char(c: char) -> bool {
    c == '<' || c == '>' || c == ':' || c == '"' || c == '/' || c == '\\' || c == '|' || c == '?'
        || c == '*'
}

/// `s` with every character that Windows forbids in a file name replaced by `_`.
pub open spec fn spec_sanitize(s: Seq<char>) -> Seq<char> {
    Seq::new(s.len(), |i: int| if is_forbidden_name_char(s[i]) { '_' } else { s[i] })
}

/// Replaces each character that Windows forbids in file names by `_`.
pub fn sanitize_filename(s: &str) -> (r: String)
    ensures
        r@ == spec_sanitize(s@),
{
    let cs = chars_of(s);
    let mut out: Vec<char> = Vec::new();
    let mut k: usize = 0;
    while k < cs.len()
        invariant
            cs@ == s@,
            k <= cs@.len(),
            out@ =~= spec_sanitize(s@).subrange(0, k as int),
        decreases cs@.len() - k,
    {
        let c = cs[k];
        if c == '<' || c == '>' || c == ':' || c == '"' || c == '/' || c == '\\' || c == '|' || c
            == '?' || c == '*' {
            out.push('_');
        } else {
            out.push(c);
        }
        k = k + 1;
    }
    assert(spec_sanitize(s@).subrange(0, cs@.len() as int) =~= spec_sanitize(s@));
    string_of(&out)
}

/// Law: a sanitized name keeps its length and holds no forbidden character.
pub proof fn lemma_sanitize_clean(s: Seq<char>)
    ensures
        spec_sanitize(s).len() == s.len(),
        forall|i: int| 0 <= i < s.len() ==> !is_forbidden_name_char(#[trigger] spec_sanitize(s)[i]),
{
}

} // verus!
