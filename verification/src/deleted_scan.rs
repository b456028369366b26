//! The decisions of the deleted-file scan of an NTFS volume: which MFT records
//! stand for recoverable files and what is reported for them, the pairing of
//! recycle-bin files left after emptying the bin, how the MFT and a file's data
//! are read cluster by cluster, and how a deleted file is addressed.
use vstd::prelude::*;
use crate::ntfs::{NameInfo, NameView, ParsedRecord, spec_sanitize, sanitize_filename};
use crate::scan::{
    FoundFile, spec_ext_lower, ext_lower, spec_file_id, file_id, spec_signature, match_signature,
    NTFS_PREFIX, RECYCLE_RESIDUE_PREFIX,
};
use crate::paths::{spec_path_under_dir, path_under_dir};
use crate::text::{chars_of, decimal, push_decimal, push_str_chars, string_of, has_prefix};
use crate::datetime::{spec_timestamp_text, unix_to_string};

verus! {

/// How many deleted files a scan of a whole volume reports at most.
pub const MAX_DELETED_FILES: usize = 200000;

/// How many deleted files a scan limited to a directory reports at most.
pub const MAX_FILTERED_FILES: usize = 500000;

/// The MFT record of the root directory.
pub const ROOT_RECORD: u64 = 5;

/// How many parent links a path reconstruction follows at most.
pub const MAX_PATH_DEPTH: usize = 128;

/// The MFT records below this number are the volume's own metadata files.
pub const FIRST_USER_RECORD: u64 = 24;

/// How much of the MFT is read at once: 16 MiB.
pub const MFT_CHUNK: u64 = 16777216;

/// The result of a deleted-file scan of one volume.
#[derive(Debug)]
pub struct DeletedScanOutcome {
    pub files: Vec<FoundFile>,
    /// Why the scan did not run, where it did not.
    pub note: Option<String>,
}

/// What a deleted-file scan reports while it runs.
#[derive(Debug)]
pub enum DeletedScanEvent {
    /// A batch of found files.
    Batch(Vec<FoundFile>),
    /// The share of the MFT analysed (0 to 100), and a message.
    Progress(u32, String),
}

// ===== Names =====

/// The index of the first name in namespace `ns`.
pub open spec fn first_in_namespace(names: Seq<NameView>, ns: u8, n: int) -> Option<int>
    decreases n,
{
    if n <= 0 {
        None
    } else {
        match first_in_namespace(names, ns, n - 1) {
            Some(i) => Some(i),
            None => if names[n - 1].namespace == ns {
                Some(n - 1)
            } else {
                None
            },
        }
    }
}

pub open spec fn name_views(names: Seq<NameInfo>) -> Seq<NameView> {
    names.map_values(|n: NameInfo| n@)
}

/// The name that stands for a file: the Win32 name (namespace 1), else the POSIX
/// one (0), else the Win32-and-DOS one (3); never the DOS short name.
pub open spec fn spec_best_name(names: Seq<NameView>) -> Option<int> {
    match first_in_namespace(names, 1, names.len() as int) {
        Some(i) => Some(i),
        None => match first_in_namespace(names, 0, names.len() as int) {
            Some(i) => Some(i),
            None => first_in_namespace(names, 3, names.len() as int),
        },
    }
}

/// The name under which a deleted file is recovered: Win32, else POSIX.
pub open spec fn spec_recovery_name(names: Seq<NameView>) -> Option<int> {
    match first_in_namespace(names, 1, names.len() as int) {
        Some(i) => Some(i),
        None => first_in_namespace(names, 0, names.len() as int),
    }
}

proof fn lemma_first_in_namespace(names: Seq<NameView>, ns: u8, m: int, n: int)
    requires
        0 <= m <= n,
        first_in_namespace(names, ns, m) is Some,
    ensures
        first_in_namespace(names, ns, n) == first_in_namespace(names, ns, m),
    decreases n - m,
{
    if n > m {
        lemma_first_in_namespace(names, ns, m, n - 1);
    }
}

proof fn lemma_first_in_namespace_range(names: Seq<NameView>, ns: u8, n: int)
    ensures
        first_in_namespace(names, ns, n) matches Some(i) ==> 0 <= i < n && names[i].namespace == ns,
    decreases n,
{
    if n > 0 {
        lemma_first_in_namespace_range(names, ns, n - 1);
    }
}

/// The first name in namespace `ns`.
fn find_namespace(names: &[NameInfo], ns: u8) -> (r: Option<usize>)
    ensures
        r is None <==> first_in_namespace(name_views(names@), ns, names@.len() as int) is None,
        r matches Some(i) ==> first_in_namespace(name_views(names@), ns, names@.len() as int) == Some(
            i as int,
        ) && i < names@.len(),
{
    let ghost views = name_views(names@);
    let mut k: usize = 0;
    while k < names.len()
        invariant
            k <= names@.len(),
            views == name_views(names@),
            first_in_namespace(views, ns, k as int) is None,
        decreases names@.len() - k,
    {
        assert(views[k as int] == names@[k as int]@);
        if names[k].namespace == ns {
            proof {
                assert(first_in_namespace(views, ns, k + 1) == Some(k as int));
                lemma_first_in_namespace(views, ns, k + 1, names@.len() as int);
            }
            return Some(k);
        }
        k = k + 1;
    }
    None
}

/// The name that stands for a file (see [`spec_best_name`]).
pub fn best_name_index(names: &[NameInfo]) -> (r: Option<usize>)
    ensures
        r is None <==> spec_best_name(name_views(names@)) is None,
        r matches Some(i) ==> spec_best_name(name_views(names@)) == Some(i as int) && i < names@.len(),
{
    match find_namespace(names, 1) {
        Some(i) => Some(i),
        None => match find_namespace(names, 0) {
            Some(i) => Some(i),
            None => find_namespace(names, 3),
        },
    }
}

/// The name under which a deleted file is recovered (see [`spec_recovery_name`]).
pub fn recovery_name_index(names: &[NameInfo]) -> (r: Option<usize>)
    ensures
        r is None <==> spec_recovery_name(name_views(names@)) is None,
        r matches Some(i) ==> spec_recovery_name(name_views(names@)) == Some(i as int) && i < names@.len(),
{
    match find_namespace(names, 1) {
        Some(i) => Some(i),
        None => find_namespace(names, 0),
    }
}

/// Law: the name chosen for a file is never a DOS short name (namespace 2).
pub proof fn lemma_best_name_not_dos(names: Seq<NameView>)
    ensures
        spec_best_name(names) matches Some(i) ==> 0 <= i < names.len() && names[i].namespace != 2,
{
    lemma_first_in_namespace_range(names, 1, names.len() as int);
    lemma_first_in_namespace_range(names, 0, names.len() as int);
    lemma_first_in_namespace_range(names, 3, names.len() as int);
}

// ===== Records of deleted files =====

pub open spec fn file_magic() -> Seq<u8> {
    seq![0x46u8, 0x49u8, 0x4Cu8, 0x45u8]
}

/// A `FILE` record whose in-use flag (bit 0 of the flags at 0x16) is clear.
pub open spec fn spec_is_deleted_record(rec: Seq<u8>) -> bool {
    rec.len() >= 0x18 && crate::bytes::bytes_at(rec, 0, file_magic()) && crate::bytes::le16(rec, 0x16) % 2
        == 0
}

/// Whether `rec` is a `FILE` record of a deleted file.
pub fn is_deleted_record(rec: &[u8]) -> (r: bool)
    ensures
        r == spec_is_deleted_record(rec@),
{
    if rec.len() < 0x18 {
        return false;
    }
    let magic: [u8; 4] = [0x46, 0x49, 0x4C, 0x45];
    assert(magic@ =~= file_magic());
    if !crate::bytes::bytes_match(rec, 0, &magic) {
        return false;
    }
    crate::bytes::u16le(rec, 0x16) % 2 == 0
}

/// The name of a record that can stand for a recoverable file: the record is
/// not in use and not compressed, and its chosen name is not empty and does not
/// start with `$` (the volume's metadata files and the recycle bin's own files).
pub open spec fn spec_candidate_name(p: crate::ntfs::RecordView) -> Option<int> {
    if p.in_use || p.compressed {
        None
    } else {
        match spec_best_name(p.names) {
            None => None,
            Some(i) => if p.names[i].name.len() == 0 || p.names[i].name[0] == '$' {
                None
            } else {
                Some(i)
            },
        }
    }
}

/// Which name of a parsed record makes it a candidate for recovery, if any.
pub fn candidate_name(p: &ParsedRecord) -> (r: Option<usize>)
    ensures
        r is None <==> spec_candidate_name(p@) is None,
        r matches Some(i) ==> spec_candidate_name(p@) == Some(i as int) && i < p.names@.len(),
{
    if p.in_use || p.compressed {
        return None;
    }
    assert(p@.names == name_views(p.names@));
    match best_name_index(p.names.as_slice()) {
        None => None,
        Some(i) => {
            let cs = chars_of(p.names[i].name.as_str());
            assert(p@.names[i as int] == p.names@[i as int]@);
            if cs.len() == 0 || cs[0] == '$' {
                None
            } else {
                Some(i)
            }
        },
    }
}

/// Where the data of a candidate record is found.
#[derive(Debug, Clone)]
pub enum CandidateData {
    /// The data is resident; these are its first (up to 32) bytes.
    Resident(Vec<u8>),
    /// The data runs are spread over extension records (an attribute list).
    ExtentRuns,
    /// The data runs of the record itself.
    Runs(Vec<(u64, u64)>),
    /// There is no data: an empty resident value, or no `$DATA` at all.
    NoData,
}

/// The view of a [`CandidateData`]: a tag (0 resident, 1 extents, 2 runs, 3 none),
/// the bytes and the runs.
pub open spec fn candidate_data_view(d: CandidateData) -> (int, Seq<u8>, Seq<(u64, u64)>) {
    match d {
        CandidateData::Resident(h) => (0, h@, Seq::empty()),
        CandidateData::ExtentRuns => (1, Seq::empty(), Seq::empty()),
        CandidateData::Runs(r) => (2, Seq::empty(), r@),
        CandidateData::NoData => (3, Seq::empty(), Seq::empty()),
    }
}

/// Where the data of a record is found: resident (its first 32 bytes, none when
/// empty), through the attribute list, in the record's own runs, or nowhere.
pub open spec fn spec_candidate_data(p: crate::ntfs::RecordView) -> (int, Seq<u8>, Seq<(u64, u64)>) {
    match p.resident_data {
        Some(v) => if v.len() == 0 {
            (3, Seq::empty(), Seq::empty())
        } else {
            (0, v.take(if v.len() < 32 { v.len() as int } else { 32 }), Seq::empty())
        },
        None => if p.attr_list_present {
            (1, Seq::empty(), Seq::empty())
        } else if p.data_runs.len() > 0 {
            (2, Seq::empty(), p.data_runs)
        } else {
            (3, Seq::empty(), Seq::empty())
        },
    }
}

/// A copy of a list of runs.
pub fn copy_runs(runs: &[(u64, u64)]) -> (r: Vec<(u64, u64)>)
    ensures
        r@ == runs@,
{
    let mut out: Vec<(u64, u64)> = Vec::new();
    let mut k: usize = 0;
    while k < runs.len()
        invariant
            k <= runs@.len(),
            out@ == runs@.take(k as int),
        decreases runs@.len() - k,
    {
        out.push(runs[k]);
        k = k + 1;
        assert(out@ =~= runs@.take(k as int));
    }
    assert(runs@.take(k as int) =~= runs@);
    out
}

/// Where the data of a candidate record is found.
pub fn candidate_data(p: &ParsedRecord) -> (r: CandidateData)
    ensures
        candidate_data_view(r) == spec_candidate_data(p@),
{
    assert(p@.resident_data == crate::ntfs::opt_bytes_view(p.resident_data));
    match &p.resident_data {
        Some(v) => {
            if v.len() == 0 {
                CandidateData::NoData
            } else {
                let n: usize = if v.len() < 32 { v.len() } else { 32 };
                let mut head: Vec<u8> = Vec::new();
                let mut k: usize = 0;
                while k < n
                    invariant
                        n <= v@.len(),
                        k <= n,
                        head@ == v@.take(k as int),
                    decreases n - k,
                {
                    head.push(v[k]);
                    k = k + 1;
                    assert(head@ =~= v@.take(k as int));
                }
                CandidateData::Resident(head)
            }
        },
        None => {
            if p.attr_list_present {
                CandidateData::ExtentRuns
            } else if p.data_runs.len() > 0 {
                CandidateData::Runs(copy_runs(p.data_runs.as_slice()))
            } else {
                CandidateData::NoData
            }
        },
    }
}

/// The full path of a file in directory `dir`.
pub open spec fn spec_join_dir(dir: Seq<char>, name: Seq<char>) -> Seq<char> {
    if dir.len() > 0 && dir.last() == '\\' {
        dir + name
    } else {
        dir + seq!['\\'] + name
    }
}

/// The full path of the file `name` in the directory `dir`.
pub fn join_dir(dir: &str, name: &str) -> (r: String)
    ensures
        r@ == spec_join_dir(dir@, name@),
{
    let mut v = chars_of(dir);
    if !(v.len() > 0 && v[v.len() - 1] == '\\') {
        v.push('\\');
    }
    push_str_chars(&mut v, name);
    string_of(&v)
}

/// Whether a file stays in a scan limited to `filter`: always without a limit or
/// without a known original path, else when the path lies under the directory.
pub open spec fn spec_keep_for_filter(original_path: Option<Seq<char>>, filter: Option<Seq<char>>) -> bool {
    match (filter, original_path) {
        (Some(t), Some(full)) => spec_path_under_dir(full, t),
        _ => true,
    }
}

/// Whether a file stays in a scan limited to `filter` (see [`spec_keep_for_filter`]).
pub fn keep_for_filter(original_path: Option<&str>, filter: Option<&str>) -> (r: bool)
    ensures
        r == spec_keep_for_filter(
            match original_path {
                Some(s) => Some(s@),
                None => None,
            },
            match filter {
                Some(s) => Some(s@),
                None => None,
            },
        ),
{
    match (filter, original_path) {
        (Some(t), Some(full)) => path_under_dir(full, t),
        _ => true,
    }
}

/// Whether every byte of `b` is zero.
pub open spec fn all_zero_bytes(b: Seq<u8>) -> bool {
    forall|j: int| 0 <= j < b.len() ==> b[j] == 0
}

/// What the first bytes of a file's data say of it: its type (`Unknown` when
/// none could be read) and whether the data looks intact (`None` when unread,
/// `Some(false)` when all zero).
pub open spec fn spec_head_type(head: Seq<u8>) -> Seq<char> {
    if head.len() == 0 {
        "Unknown"@
    } else {
        spec_signature(head)@
    }
}

pub open spec fn spec_head_intact(head: Seq<u8>) -> Option<bool> {
    if head.len() == 0 {
        None
    } else {
        Some(!all_zero_bytes(head))
    }
}

fn head_facts(head: &[u8]) -> (r: (String, Option<bool>))
    ensures
        r.0@ == spec_head_type(head@),
        r.1 == spec_head_intact(head@),
{
    if head.len() == 0 {
        ("Unknown".to_owned(), None)
    } else {
        let z = crate::bytes::all_zero(head, 0, head.len());
        (match_signature(head).to_owned(), Some(!z))
    }
}

/// The encoded path of a deleted file: `{prefix}{drive}:/{record}`.
pub open spec fn spec_record_ref(prefix: Seq<char>, drive: char, record: u64) -> Seq<char> {
    prefix + seq![drive, ':', '/'] + decimal(record as nat)
}

fn record_ref(prefix: &str, drive: char, record: u64) -> (r: String)
    ensures
        r@ == spec_record_ref(prefix@, drive, record),
{
    let mut v: Vec<char> = Vec::new();
    push_str_chars(&mut v, prefix);
    v.push(drive);
    v.push(':');
    v.push('/');
    push_decimal(&mut v, record, 0);
    proof {
        crate::text::lemma_decimal_len(record as nat);
    }
    assert(v@ =~= spec_record_ref(prefix@, drive, record));
    string_of(&v)
}

/// The record of a deleted file found in the MFT: none when neither the data
/// size nor the name's size is above zero; else numbered by the counter, named
/// by `name`, addressed as `ntfs://{drive}:/{record}`, typed and checked by the
/// first bytes `head` of its data.
pub fn deleted_found_file(
    counter: &mut u64,
    name: &NameInfo,
    data_size: u64,
    head: &[u8],
    record: u64,
    drive: char,
    original_path: Option<String>,
) -> (r: Option<FoundFile>)
    requires
        *old(counter) < u64::MAX,
    ensures
        (data_size == 0 && name.size == 0) <==> r is None,
        r is None ==> *final(counter) == *old(counter),
        r matches Some(f) ==> {
            &&& *final(counter) == *old(counter) + 1
            &&& f.id@ == spec_file_id(*final(counter))
            &&& f.filename == name.name
            &&& f.filepath@ == spec_record_ref("ntfs://"@, drive, record)
            &&& f.extension@ == spec_ext_lower(name.name@)
            &&& f.size_bytes == (if data_size >= name.size { data_size } else { name.size })
            &&& f.file_type@ == spec_head_type(head@)
            &&& (f.modified_time is Some <==> spec_timestamp_text(name.mtime_unix) is Some)
            &&& (f.modified_time matches Some(t) ==> t@ == spec_timestamp_text(name.mtime_unix)->0)
            &&& f.deleted
            &&& f.original_path == original_path
            &&& f.data_intact == spec_head_intact(head@)
        },
{
    let size = if data_size >= name.size { data_size } else { name.size };
    if size == 0 {
        return None;
    }
    let (file_type, data_intact) = head_facts(head);
    *counter = *counter + 1;
    proof {
        reveal_strlit("ntfs://");
    }
    Some(FoundFile {
        id: file_id(*counter),
        filename: name.name.clone(),
        filepath: record_ref(NTFS_PREFIX, drive, record),
        extension: ext_lower(name.name.as_str()),
        size_bytes: size,
        file_type,
        modified_time: unix_to_string(name.mtime_unix),
        deleted: true,
        original_path,
        data_intact,
    })
}

// ===== Recycle-bin files left after emptying the bin =====

/// The UTF-8 length of one character.
pub open spec fn utf8_width(c: char) -> nat {
    if (c as u32) < 0x80 {
        1
    } else if (c as u32) < 0x800 {
        2
    } else if (c as u32) < 0x10000 {
        3
    } else {
        4
    }
}

/// The UTF-8 length of a text (`str::len`).
pub open spec fn utf8_len(s: Seq<char>) -> nat
    decreases s.len(),
{
    if s.len() == 0 {
        0
    } else {
        utf8_len(s.drop_last()) + utf8_width(s.last())
    }
}

/// Whether the UTF-8 form of `s` has at least 3 bytes.
fn utf8_at_least_3(s: &[char]) -> (r: bool)
    ensures
        r == (utf8_len(s@) >= 3),
{
    let mut acc: usize = 0;
    let mut k: usize = 0;
    while k < s.len() && acc < 3
        invariant
            k <= s@.len(),
            acc == utf8_len(s@.take(k as int)),
        decreases s@.len() - k,
    {
        let c = s[k];
        let w: usize = if (c as u32) < 0x80 {
            1
        } else if (c as u32) < 0x800 {
            2
        } else if (c as u32) < 0x10000 {
            3
        } else {
            4
        };
        assert(s@.take(k + 1).drop_last() =~= s@.take(k as int));
        acc = acc + w;
        k = k + 1;
    }
    proof {
        if acc >= 3 {
            lemma_utf8_len_prefix(s@, k as int);
        } else {
            assert(s@.take(k as int) =~= s@);
        }
    }
    acc >= 3
}

proof fn lemma_utf8_len_prefix(s: Seq<char>, k: int)
    requires
        0 <= k <= s.len(),
    ensures
        utf8_len(s.take(k)) <= utf8_len(s),
    decreases s.len() - k,
{
    if k < s.len() {
        lemma_utf8_len_prefix(s, k + 1);
        assert(s.take(k + 1).drop_last() =~= s.take(k));
    } else {
        assert(s.take(k) =~= s);
    }
}

/// Which kind of recycle-bin file a name is: `$R…` (data, `true`) or `$I…`
/// (metadata, `false`), and its suffix, which must be at least 3 bytes long.
pub open spec fn spec_residue_kind(name: Seq<char>) -> Option<(bool, Seq<char>)> {
    if has_prefix(name, seq!['$', 'R']) {
        let s = name.subrange(2, name.len() as int);
        if utf8_len(s) < 3 {
            None
        } else {
            Some((true, s))
        }
    } else if has_prefix(name, seq!['$', 'I']) {
        let s = name.subrange(2, name.len() as int);
        if utf8_len(s) < 3 {
            None
        } else {
            Some((false, s))
        }
    } else {
        None
    }
}

/// Which kind of recycle-bin file a name is, and its suffix.
pub fn residue_kind(name: &str) -> (r: Option<(bool, String)>)
    ensures
        r is Some <==> spec_residue_kind(name@) is Some,
        r matches Some(k) ==> (k.0, k.1@) == spec_residue_kind(name@)->0,
{
    let cs = chars_of(name);
    if cs.len() < 2 || cs[0] != '$' || (cs[1] != 'R' && cs[1] != 'I') {
        proof {
            if cs@.len() >= 2 {
                assert(cs@.subrange(0, 2) != seq!['$', 'R']) by {
                    if cs@.subrange(0, 2) == seq!['$', 'R'] {
                        assert(cs@.subrange(0, 2)[0] == '$' && cs@.subrange(0, 2)[1] == 'R');
                    }
                }
                assert(cs@.subrange(0, 2) != seq!['$', 'I']) by {
                    if cs@.subrange(0, 2) == seq!['$', 'I'] {
                        assert(cs@.subrange(0, 2)[0] == '$' && cs@.subrange(0, 2)[1] == 'I');
                    }
                }
            }
        }
        return None;
    }
    let is_r = cs[1] == 'R';
    let mut suffix: Vec<char> = Vec::new();
    let mut k: usize = 2;
    while k < cs.len()
        invariant
            2 <= k <= cs@.len(),
            suffix@ == cs@.subrange(2, k as int),
        decreases cs@.len() - k,
    {
        suffix.push(cs[k]);
        k = k + 1;
        assert(suffix@ =~= cs@.subrange(2, k as int));
    }
    assert(cs@.subrange(0, 2) =~= seq!['$', cs@[1]]);
    if !utf8_at_least_3(&suffix) {
        return None;
    }
    Some((is_r, string_of(&suffix)))
}

/// The map built by inserting `keys[i] -> vals[i]` for `i` in `0..n`, in order.
pub open spec fn map_upto<V>(keys: Seq<Seq<char>>, vals: Seq<V>, n: int) -> Map<Seq<char>, V>
    decreases n,
{
    if n <= 0 {
        Map::empty()
    } else {
        map_upto(keys, vals, n - 1).insert(keys[n - 1], vals[n - 1])
    }
}

pub open spec fn keys_unique(keys: Seq<Seq<char>>) -> bool {
    forall|a: int, b: int| 0 <= a < b < keys.len() ==> keys[a] != keys[b]
}

proof fn lemma_map_upto_prefix<V>(k1: Seq<Seq<char>>, v1: Seq<V>, k2: Seq<Seq<char>>, v2: Seq<V>, n: int)
    requires
        0 <= n <= k1.len(),
        n <= k2.len(),
        n <= v1.len(),
        n <= v2.len(),
        forall|i: int| 0 <= i < n ==> k1[i] == k2[i] && v1[i] == v2[i],
    ensures
        map_upto(k1, v1, n) == map_upto(k2, v2, n),
    decreases n,
{
    if n > 0 {
        lemma_map_upto_prefix(k1, v1, k2, v2, n - 1);
    }
}

proof fn lemma_map_upto_index<V>(keys: Seq<Seq<char>>, vals: Seq<V>, n: int, i: int)
    requires
        0 <= i < n <= keys.len(),
        keys_unique(keys),
    ensures
        map_upto(keys, vals, n).contains_key(keys[i]),
        map_upto(keys, vals, n)[keys[i]] == vals[i],
    decreases n,
{
    if i < n - 1 {
        lemma_map_upto_index(keys, vals, n - 1, i);
    }
}

proof fn lemma_map_upto_dom<V>(keys: Seq<Seq<char>>, vals: Seq<V>, n: int)
    requires
        0 <= n <= keys.len(),
    ensures
        forall|k: Seq<char>| #[trigger] map_upto(keys, vals, n).contains_key(k) ==> exists|i: int|
            0 <= i < n && keys[i] == k,
    decreases n,
{
    if n > 0 {
        lemma_map_upto_dom(keys, vals, n - 1);
        assert forall|k: Seq<char>| #[trigger] map_upto(keys, vals, n).contains_key(k) implies exists|i: int|
            0 <= i < n && keys[i] == k by {
            if k != keys[n - 1] {
                assert(map_upto(keys, vals, n - 1).contains_key(k));
            }
        }
    }
}

proof fn lemma_map_upto_update<V>(keys: Seq<Seq<char>>, vals: Seq<V>, n: int, i: int, v: V)
    requires
        0 <= i < n <= keys.len(),
        n <= vals.len(),
        keys_unique(keys),
    ensures
        map_upto(keys, vals.update(i, v), n) == map_upto(keys, vals, n).insert(keys[i], v),
    decreases n,
{
    let v2 = vals.update(i, v);
    if i == n - 1 {
        lemma_map_upto_prefix(keys, v2, keys, vals, n - 1);
        assert(map_upto(keys, v2, n) =~= map_upto(keys, vals, n).insert(keys[i], v));
    } else {
        lemma_map_upto_update(keys, vals, n - 1, i, v);
        assert(keys[i] != keys[n - 1]);
        assert(map_upto(keys, v2, n) =~= map_upto(keys, vals, n).insert(keys[i], v));
    }
}

/// What the data of a `$R` file left after emptying the bin is: its MFT record,
/// its resident bytes (if any), its runs and its size.
#[derive(Debug, Clone)]
pub struct ResidueData {
    pub record: u64,
    pub head: Option<Vec<u8>>,
    pub runs: Vec<(u64, u64)>,
    pub size: u64,
}

/// The `$R` (data) and `$I` (metadata) files left after emptying the recycle bin,
/// each kept by its name suffix; a later file with the same suffix replaces an
/// earlier one.
#[derive(Debug)]
pub struct RecycleResidue {
    data: Vec<(String, ResidueData)>,
    meta: Vec<(String, u64, String)>,
}

pub open spec fn data_keys(d: Seq<(String, ResidueData)>) -> Seq<Seq<char>> {
    Seq::new(d.len(), |i: int| d[i].0@)
}

pub open spec fn data_vals(d: Seq<(String, ResidueData)>) -> Seq<(u64, u64)> {
    Seq::new(d.len(), |i: int| (d[i].1.record, d[i].1.size))
}

pub open spec fn meta_keys(m: Seq<(String, u64, String)>) -> Seq<Seq<char>> {
    Seq::new(m.len(), |i: int| m[i].0@)
}

pub open spec fn meta_vals(m: Seq<(String, u64, String)>) -> Seq<(u64, Seq<char>)> {
    Seq::new(m.len(), |i: int| (m[i].1, m[i].2@))
}

impl RecycleResidue {
    /// The data files by suffix: their record and size.
    pub closed spec fn data_view(&self) -> Map<Seq<char>, (u64, u64)> {
        map_upto(data_keys(self.data@), data_vals(self.data@), self.data@.len() as int)
    }

    /// The metadata files by suffix: their record and the original path they record.
    pub closed spec fn meta_view(&self) -> Map<Seq<char>, (u64, Seq<char>)> {
        map_upto(meta_keys(self.meta@), meta_vals(self.meta@), self.meta@.len() as int)
    }

    /// No suffix is kept twice.
    pub closed spec fn wf(&self) -> bool {
        keys_unique(data_keys(self.data@)) && keys_unique(meta_keys(self.meta@))
    }

    /// Nothing collected yet.
    pub fn new() -> (r: Self)
        ensures
            r.wf(),
            r.data_view() == Map::<Seq<char>, (u64, u64)>::empty(),
            r.meta_view() == Map::<Seq<char>, (u64, Seq<char>)>::empty(),
    {
        RecycleResidue { data: Vec::new(), meta: Vec::new() }
    }

    /// Keeps the data file with suffix `suffix`, replacing one with the same suffix.
    pub fn insert_data(&mut self, suffix: String, d: ResidueData)
        requires
            old(self).wf(),
        ensures
            final(self).wf(),
            final(self).data_view() == old(self).data_view().insert(suffix@, (d.record, d.size)),
            final(self).meta_view() == old(self).meta_view(),
    {
        let ghost old_data = self.data@;
        let mut k: usize = 0;
        while k < self.data.len()
            invariant
                k <= self.data@.len(),
                self.data@ == old_data,
                self.meta@ == old(self).meta@,
                old_data == old(self).data@,
                old(self).wf(),
                forall|j: int| 0 <= j < k ==> self.data@[j].0@ != suffix@,
            decreases self.data@.len() - k,
        {
            if self.data[k].0 == suffix {
                let ghost keys = data_keys(old_data);
                let ghost vals = data_vals(old_data);
                let ghost entry = (suffix, d);
                self.data[k] = (suffix, d);
                proof {
                    assert(data_keys(self.data@) =~= keys);
                    assert(data_vals(self.data@) =~= vals.update(k as int, (entry.1.record, entry.1.size)));
                    lemma_map_upto_update(keys, vals, old_data.len() as int, k as int, (entry.1.record, entry.1.size));
                }
                return;
            }
            k = k + 1;
        }
        let ghost keys = data_keys(old_data);
        let ghost vals = data_vals(old_data);
        let ghost key = suffix@;
        let ghost val = (d.record, d.size);
        self.data.push((suffix, d));
        proof {
            assert(data_keys(self.data@) =~= keys.push(key));
            assert forall|a: int, b: int| 0 <= a < b < keys.push(key).len() implies keys.push(key)[a]
                != keys.push(key)[b] by {
                if b == keys.len() {
                    assert(old_data[a].0@ != suffix@);
                }
            }
            assert(data_vals(self.data@) =~= vals.push(val));
            lemma_map_upto_prefix(keys.push(key), vals.push(val), keys, vals, old_data.len() as int);
        }
    }

    /// Keeps the metadata file with suffix `suffix` (its record and the original
    /// path it records), replacing one with the same suffix.
    pub fn insert_meta(&mut self, suffix: String, record: u64, original_path: String)
        requires
            old(self).wf(),
        ensures
            final(self).wf(),
            final(self).meta_view() == old(self).meta_view().insert(suffix@, (record, original_path@)),
            final(self).data_view() == old(self).data_view(),
    {
        let ghost old_meta = self.meta@;
        let mut k: usize = 0;
        while k < self.meta.len()
            invariant
                k <= self.meta@.len(),
                self.meta@ == old_meta,
                self.data@ == old(self).data@,
                old_meta == old(self).meta@,
                old(self).wf(),
                forall|j: int| 0 <= j < k ==> self.meta@[j].0@ != suffix@,
            decreases self.meta@.len() - k,
        {
            if self.meta[k].0 == suffix {
                let ghost keys = meta_keys(old_meta);
                let ghost vals = meta_vals(old_meta);
                let ghost val = (record, original_path@);
                self.meta[k] = (suffix, record, original_path);
                proof {
                    assert(meta_keys(self.meta@) =~= keys);
                    assert(meta_vals(self.meta@) =~= vals.update(k as int, val));
                    lemma_map_upto_update(keys, vals, old_meta.len() as int, k as int, val);
                }
                return;
            }
            k = k + 1;
        }
        let ghost keys = meta_keys(old_meta);
        let ghost vals = meta_vals(old_meta);
        let ghost key = suffix@;
        let ghost val = (record, original_path@);
        self.meta.push((suffix, record, original_path));
        proof {
            assert(meta_keys(self.meta@) =~= keys.push(key));
            assert forall|a: int, b: int| 0 <= a < b < keys.push(key).len() implies keys.push(key)[a]
                != keys.push(key)[b] by {
                if b == keys.len() {
                    assert(old_meta[a].0@ != suffix@);
                }
            }
            assert(meta_vals(self.meta@) =~= vals.push(val));
            lemma_map_upto_prefix(keys.push(key), vals.push(val), keys, vals, old_meta.len() as int);
        }
    }

    /// The original path that the metadata file with suffix `suffix` records.
    pub fn original_path_of(&self, suffix: &String) -> (r: Option<String>)
        requires
            self.wf(),
        ensures
            r is Some <==> self.meta_view().contains_key(suffix@),
            r matches Some(p) ==> p@ == self.meta_view()[suffix@].1,
    {
        let ghost keys = meta_keys(self.meta@);
        let ghost vals = meta_vals(self.meta@);
        let mut k: usize = 0;
        while k < self.meta.len()
            invariant
                k <= self.meta@.len(),
                keys_unique(keys),
                keys == meta_keys(self.meta@),
                vals == meta_vals(self.meta@),
                forall|j: int| 0 <= j < k ==> keys[j] != suffix@,
            decreases self.meta@.len() - k,
        {
            if self.meta[k].0 == *suffix {
                proof {
                    lemma_map_upto_index(keys, vals, self.meta@.len() as int, k as int);
                }
                return Some(self.meta[k].2.clone());
            }
            assert(keys[k as int] != suffix@);
            k = k + 1;
        }
        proof {
            lemma_map_upto_dom(keys, vals, self.meta@.len() as int);
            if self.meta_view().contains_key(suffix@) {
                let i = choose|i: int| 0 <= i < self.meta@.len() && keys[i] == suffix@;
                assert(keys[i] != suffix@);
            }
        }
        None
    }

    /// The data files: suffix, record and size of each, every suffix once.
    pub fn data_entries(&self) -> (r: Vec<(String, u64, u64)>)
        requires
            self.wf(),
        ensures
            r@.len() == self.data_view().len(),
            forall|i: int| 0 <= i < r@.len() ==> #[trigger] self.data_view().contains_key(r@[i].0@)
                && self.data_view()[r@[i].0@] == (r@[i].1, r@[i].2),
            forall|a: int, b: int| 0 <= a < b < r@.len() ==> r@[a].0@ != r@[b].0@,
            forall|k: Seq<char>| #[trigger] self.data_view().contains_key(k) ==> exists|i: int|
                0 <= i < r@.len() && r@[i].0@ == k,
    {
        let ghost keys = data_keys(self.data@);
        let ghost vals = data_vals(self.data@);
        let ghost n = self.data@.len() as int;
        let mut out: Vec<(String, u64, u64)> = Vec::new();
        let mut k: usize = 0;
        while k < self.data.len()
            invariant
                k <= self.data@.len(),
                n == self.data@.len(),
                keys_unique(keys),
                keys == data_keys(self.data@),
                vals == data_vals(self.data@),
                out@.len() == k,
                forall|i: int| 0 <= i < k ==> out@[i].0@ == keys[i] && (out@[i].1, out@[i].2) == vals[i],
            decreases self.data@.len() - k,
        {
            let e = &self.data[k];
            out.push((e.0.clone(), e.1.record, e.1.size));
            k = k + 1;
        }
        proof {
            lemma_map_upto_dom(keys, vals, n);
            assert forall|a: int, b: int| 0 <= a < b < out@.len() implies out@[a].0@ != out@[b].0@ by {
                assert(keys[a] != keys[b]);
            }
            assert forall|i: int| 0 <= i < out@.len() implies #[trigger] self.data_view().contains_key(
                out@[i].0@,
            ) && self.data_view()[out@[i].0@] == (out@[i].1, out@[i].2) by {
                lemma_map_upto_index(keys, vals, n, i);
            }
            assert forall|k2: Seq<char>| #[trigger] self.data_view().contains_key(k2) implies exists|i: int|
                0 <= i < out@.len() && out@[i].0@ == k2 by {
                let i = choose|i: int| 0 <= i < n && keys[i] == k2;
                assert(out@[i].0@ == k2);
            }
            lemma_map_len(keys, vals, n);
        }
        out
    }
}

proof fn lemma_map_len<V>(keys: Seq<Seq<char>>, vals: Seq<V>, n: int)
    requires
        0 <= n <= keys.len(),
        keys_unique(keys),
    ensures
        map_upto(keys, vals, n).len() == n,
        map_upto(keys, vals, n).dom().finite(),
    decreases n,
{
    if n > 0 {
        lemma_map_len(keys, vals, n - 1);
        lemma_map_upto_dom(keys, vals, n - 1);
        assert(!map_upto(keys, vals, n - 1).contains_key(keys[n - 1])) by {
            if map_upto(keys, vals, n - 1).contains_key(keys[n - 1]) {
                let i = choose|i: int| 0 <= i < n - 1 && #[trigger] keys[i] == keys[n - 1];
                assert(keys[i] != keys[n - 1]);
            }
        }
    }
}

/// The name of a data file whose original name is unknown: `recovered_{suffix}.bin`.
pub open spec fn spec_residue_fallback_name(suffix: Seq<char>) -> Seq<char> {
    "recovered_"@ + suffix + ".bin"@
}

/// The record of a recycle-bin data file left after emptying the bin: none when
/// the scan is limited to a directory and its known original path lies outside
/// it; else numbered by the counter, named by the original file name (or by its
/// suffix), addressed as `recycleresidue://{drive}:/{record}`, typed and checked
/// by the first bytes `head` of its data.
pub fn residue_found_file(
    counter: &mut u64,
    suffix: &str,
    record: u64,
    size: u64,
    original_path: Option<String>,
    original_name: Option<String>,
    head: &[u8],
    drive: char,
    filter: Option<&str>,
) -> (r: Option<FoundFile>)
    requires
        *old(counter) < u64::MAX,
    ensures
        r is None <==> !spec_keep_for_filter(
            match original_path {
                Some(p) => Some(p@),
                None => None,
            },
            match filter {
                Some(t) => Some(t@),
                None => None,
            },
        ),
        r is None ==> *final(counter) == *old(counter),
        r matches Some(f) ==> {
            let name = match original_name {
                Some(n) => n@,
                None => spec_residue_fallback_name(suffix@),
            };
            &&& *final(counter) == *old(counter) + 1
            &&& f.id@ == spec_file_id(*final(counter))
            &&& f.filename@ == name
            &&& f.filepath@ == spec_record_ref("recycleresidue://"@, drive, record)
            &&& f.extension@ == spec_ext_lower(name)
            &&& f.size_bytes == size
            &&& f.file_type@ == spec_head_type(head@)
            &&& f.modified_time is None
            &&& f.deleted
            &&& f.original_path == original_path
            &&& f.data_intact == spec_head_intact(head@)
        },
{
    let keep = match &original_path {
        Some(p) => keep_for_filter(Some(p.as_str()), filter),
        None => keep_for_filter(None, filter),
    };
    if !keep {
        return None;
    }
    let filename = match original_name {
        Some(n) => n,
        None => {
            let mut v: Vec<char> = Vec::new();
            push_str_chars(&mut v, "recovered_");
            push_str_chars(&mut v, suffix);
            push_str_chars(&mut v, ".bin");
            string_of(&v)
        },
    };
    let (file_type, data_intact) = head_facts(head);
    *counter = *counter + 1;
    proof {
        reveal_strlit("recycleresidue://");
    }
    let extension = ext_lower(filename.as_str());
    Some(FoundFile {
        id: file_id(*counter),
        filename,
        filepath: record_ref(RECYCLE_RESIDUE_PREFIX, drive, record),
        extension,
        size_bytes: size,
        file_type,
        modified_time: None,
        deleted: true,
        original_path,
        data_intact,
    })
}

// ===== Addressing and recovering a deleted file =====

/// Why the reference of a deleted file cannot be read.
#[derive(Debug, Clone, Copy, PartialEq, Eq, Structural)]
pub enum DeletedRefError {
    /// Neither prefix, or no `:/` after the drive.
    BadEncoding,
    /// Nothing before the `:/`.
    NoDrive,
    /// The record number is not a number that fits 64 bits.
    BadRecord,
}

pub open spec fn is_digit(c: char) -> bool {
    '0' <= c && c <= '9'
}

/// `s` without one leading `+`.
pub open spec fn unsigned_part(s: Seq<char>) -> Seq<char> {
    if s.len() > 0 && s[0] == '+' {
        s.subrange(1, s.len() as int)
    } else {
        s
    }
}

pub open spec fn all_digits(d: Seq<char>) -> bool {
    forall|i: int| 0 <= i < d.len() ==> is_digit(#[trigger] d[i])
}

/// The value of a string of decimal digits.
pub open spec fn digits_value(s: Seq<char>) -> int
    decreases s.len(),
{
    if s.len() == 0 {
        0
    } else {
        digits_value(s.drop_last()) * 10 + (s.last() as int - '0' as int)
    }
}

/// `str::parse::<u64>`: an optional `+`, then at least one decimal digit and
/// nothing else, of a value that fits 64 bits.
pub open spec fn spec_parse_u64(s: Seq<char>) -> Option<u64> {
    let d = unsigned_part(s);
    if d.len() == 0 || !all_digits(d) {
        None
    } else if digits_value(d) > u64::MAX {
        None
    } else {
        Some(digits_value(d) as u64)
    }
}

proof fn lemma_digits_value_mono(s: Seq<char>)
    requires
        forall|i: int| 0 <= i < s.len() ==> is_digit(#[trigger] s[i]),
    ensures
        digits_value(s) >= 0,
        forall|k: int| 0 <= k <= s.len() ==> digits_value(#[trigger] s.take(k)) <= digits_value(s),
    decreases s.len(),
{
    if s.len() > 0 {
        let d = s.drop_last();
        assert forall|i: int| 0 <= i < d.len() implies is_digit(#[trigger] d[i]) by {
            assert(d[i] == s[i]);
        }
        lemma_digits_value_mono(d);
        assert forall|k: int| 0 <= k <= s.len() implies digits_value(#[trigger] s.take(k)) <= digits_value(s) by {
            if k < s.len() {
                assert(s.take(k) =~= d.take(k));
                assert(digits_value(d.take(k)) <= digits_value(d));
            } else {
                assert(s.take(k) =~= s);
            }
        }
    }
}

/// Parses a decimal record number (`str::parse::<u64>`).
pub fn parse_u64(s: &[char]) -> (r: Option<u64>)
    ensures
        r == spec_parse_u64(s@),
{
    let start: usize = if s.len() > 0 && s[0] == '+' { 1 } else { 0 };
    let ghost d = unsigned_part(s@);
    assert(d =~= s@.subrange(start as int, s@.len() as int));
    if start == s.len() {
        return None;
    }
    let mut acc: u64 = 0;
    let mut k: usize = start;
    while k < s.len()
        invariant
            start <= k <= s@.len(),
            d == s@.subrange(start as int, s@.len() as int),
            d == unsigned_part(s@),
            forall|i: int| start <= i < k ==> is_digit(#[trigger] s@[i]),
            acc == digits_value(s@.subrange(start as int, k as int)),
        decreases s@.len() - k,
    {
        let c = s[k];
        if !('0' <= c && c <= '9') {
            proof {
                assert(d[k - start] == c);
                assert(!is_digit(d[k - start]));
                assert(!(forall|i: int| 0 <= i < d.len() ==> is_digit(#[trigger] d[i])));
                assert(spec_parse_u64(s@) is None);
            }
            return None;
        }
        let digit = (c as u32 - '0' as u32) as u64;
        assert(s@.subrange(start as int, k + 1).drop_last() =~= s@.subrange(start as int, k as int));
        if acc > (u64::MAX - digit) / 10 {
            proof {
                let pre = s@.subrange(start as int, k + 1);
                assert(pre.last() == c);
                assert(pre.drop_last() =~= s@.subrange(start as int, k as int));
                assert(c as int - '0' as int == digit);
                assert(digits_value(pre) == acc * 10 + digit);
                assert(acc * 10 + digit > u64::MAX) by (nonlinear_arith)
                    requires
                        acc > (u64::MAX - digit) / 10,
                        digit <= 9,
                ;
                if forall|i: int| 0 <= i < d.len() ==> is_digit(#[trigger] d[i]) {
                    lemma_digits_value_mono(d);
                    assert(pre =~= d.take(k + 1 - start));
                    assert(digits_value(d.take(k + 1 - start)) <= digits_value(d));
                    assert(digits_value(d) > u64::MAX);
                }
                assert(spec_parse_u64(s@) is None);
            }
            return None;
        }
        assert(acc * 10 + digit <= u64::MAX) by (nonlinear_arith)
            requires
                acc <= (u64::MAX - digit) / 10,
                digit <= 9,
        ;
        acc = acc * 10 + digit;
        k = k + 1;
    }
    assert(s@.subrange(start as int, k as int) =~= d);
    assert forall|i: int| 0 <= i < d.len() implies is_digit(#[trigger] d[i]) by {
        assert(d[i] == s@[i + start]);
    }
    Some(acc)
}

/// The drive and MFT record that the reference of a deleted file names:
/// `ntfs://` or `recycleresidue://`, then the drive's text, `:/`, the record number.
pub open spec fn spec_deleted_ref(e: Seq<char>) -> Result<(char, u64), DeletedRefError> {
    let rest = if has_prefix(e, "ntfs://"@) {
        Some(e.subrange(7, e.len() as int))
    } else if has_prefix(e, "recycleresidue://"@) {
        Some(e.subrange(17, e.len() as int))
    } else {
        None
    };
    match rest {
        None => Err(DeletedRefError::BadEncoding),
        Some(r) => match crate::scan::find_from(r, seq![':', '/'], 0) {
            None => Err(DeletedRefError::BadEncoding),
            Some(i) => if i == 0 {
                Err(DeletedRefError::NoDrive)
            } else {
                match spec_parse_u64(r.subrange(i + 2, r.len() as int)) {
                    None => Err(DeletedRefError::BadRecord),
                    Some(n) => Ok((r[0], n)),
                }
            },
        },
    }
}

/// Reads the reference of a deleted file: its drive and MFT record.
pub fn parse_deleted_ref(encoded: &str) -> (r: Result<(char, u64), DeletedRefError>)
    ensures
        r == spec_deleted_ref(encoded@),
{
    let cs = chars_of(encoded);
    let np = chars_of(NTFS_PREFIX);
    let rp = chars_of(RECYCLE_RESIDUE_PREFIX);
    proof {
        reveal_strlit("ntfs://");
        reveal_strlit("recycleresidue://");
    }
    let from: usize = if crate::text::starts_with_chars(&cs, &np) {
        7
    } else if crate::text::starts_with_chars(&cs, &rp) {
        17
    } else {
        return Err(DeletedRefError::BadEncoding);
    };
    let mut rest: Vec<char> = Vec::new();
    let mut k = from;
    while k < cs.len()
        invariant
            from <= k <= cs@.len(),
            rest@ == cs@.subrange(from as int, k as int),
        decreases cs@.len() - k,
    {
        rest.push(cs[k]);
        k = k + 1;
        assert(rest@ =~= cs@.subrange(from as int, k as int));
    }
    let ghost r = rest@;
    let mut i: usize = 0;
    while rest.len() >= 2 && i <= rest.len() - 2 && !(rest[i] == ':' && rest[i + 1] == '/')
        invariant
            i <= rest@.len(),
            rest@ == r,
            crate::scan::find_from(r, seq![':', '/'], 0) == crate::scan::find_from(r, seq![':', '/'], i as int),
        decreases rest@.len() - i,
    {
        assert(r.subrange(i as int, i + 2) != seq![':', '/']) by {
            if r.subrange(i as int, i + 2) == seq![':', '/'] {
                assert(r.subrange(i as int, i + 2)[0] == ':');
                assert(r.subrange(i as int, i + 2)[1] == '/');
            }
        }
        i = i + 1;
    }
    if !(rest.len() >= 2 && i <= rest.len() - 2) {
        return Err(DeletedRefError::BadEncoding);
    }
    assert(r.subrange(i as int, i + 2) =~= seq![':', '/']);
    if i == 0 {
        return Err(DeletedRefError::NoDrive);
    }
    let mut num: Vec<char> = Vec::new();
    let mut q = i + 2;
    while q < rest.len()
        invariant
            i + 2 <= q <= rest@.len(),
            num@ == rest@.subrange(i + 2, q as int),
        decreases rest@.len() - q,
    {
        num.push(rest[q]);
        q = q + 1;
        assert(num@ =~= rest@.subrange(i + 2, q as int));
    }
    match parse_u64(&num) {
        None => Err(DeletedRefError::BadRecord),
        Some(n) => Ok((rest[0], n)),
    }
}

/// Why a deleted file cannot be recovered from its record.
#[derive(Debug, Clone, Copy, PartialEq, Eq, Structural)]
pub enum RecoverRefusal {
    /// The record now belongs to another file.
    Reused,
    /// The file is compressed or encrypted.
    Compressed,
}

/// Whether a record can still give back its deleted file.
pub fn recovery_refusal(p: &ParsedRecord) -> (r: Option<RecoverRefusal>)
    ensures
        p.in_use ==> r == Some(RecoverRefusal::Reused),
        !p.in_use && p.compressed ==> r == Some(RecoverRefusal::Compressed),
        !p.in_use && !p.compressed ==> r is None,
{
    if p.in_use {
        Some(RecoverRefusal::Reused)
    } else if p.compressed {
        Some(RecoverRefusal::Compressed)
    } else {
        None
    }
}

/// The name under which a deleted file is written: the name shown to the user
/// when there is one, else its Win32 or POSIX name, else `deleted_{record}.bin`;
/// with forbidden characters replaced.
pub open spec fn spec_deleted_file_name(display: Option<Seq<char>>, names: Seq<NameView>, record: u64) -> Seq<char> {
    match display {
        Some(d) if d.len() > 0 => spec_sanitize(d),
        _ => spec_sanitize(
            match spec_recovery_name(names) {
                Some(i) => names[i].name,
                None => "deleted_"@ + decimal(record as nat) + ".bin"@,
            },
        ),
    }
}

/// The name under which a deleted file is written.
pub fn deleted_file_name(display: Option<&str>, names: &[NameInfo], record: u64) -> (r: String)
    ensures
        r@ == spec_deleted_file_name(
            match display {
                Some(d) => Some(d@),
                None => None,
            },
            name_views(names@),
            record,
        ),
{
    match display {
        Some(d) => {
            if !d.is_empty() {
                return sanitize_filename(d);
            }
        },
        None => {},
    }
    match recovery_name_index(names) {
        Some(i) => {
            assert(name_views(names@)[i as int] == names@[i as int]@);
            sanitize_filename(names[i].name.as_str())
        },
        None => {
            let mut v: Vec<char> = Vec::new();
            push_str_chars(&mut v, "deleted_");
            push_decimal(&mut v, record, 0);
            proof {
                crate::text::lemma_decimal_len(record as nat);
            }
            push_str_chars(&mut v, ".bin");
            let fallback = string_of(&v);
            sanitize_filename(fallback.as_str())
        },
    }
}

/// The largest size that any name of a record declares (0 without names).
pub open spec fn max_name_size(names: Seq<NameView>) -> u64
    decreases names.len(),
{
    if names.len() == 0 {
        0
    } else {
        let m = max_name_size(names.drop_last());
        if names.last().size > m {
            names.last().size
        } else {
            m
        }
    }
}

/// How many bytes of a deleted file are written: the larger of the data size
/// and the largest size that its names declare.
pub fn recovery_size(p: &ParsedRecord) -> (r: u64)
    ensures
        r == (if p.data_size >= max_name_size(p@.names) {
            p.data_size
        } else {
            max_name_size(p@.names)
        }),
{
    let ghost views = p@.names;
    assert(views == name_views(p.names@));
    let mut m: u64 = 0;
    let mut k: usize = 0;
    while k < p.names.len()
        invariant
            k <= p.names@.len(),
            views == name_views(p.names@),
            m == max_name_size(views.take(k as int)),
        decreases p.names@.len() - k,
    {
        assert(views.take(k + 1).drop_last() =~= views.take(k as int));
        assert(views.take(k + 1).last() == p.names@[k as int]@);
        if p.names[k].size > m {
            m = p.names[k].size;
        }
        k = k + 1;
    }
    assert(views.take(k as int) =~= views);
    if p.data_size >= m {
        p.data_size
    } else {
        m
    }
}

/// Why recovering a deleted file failed.
#[derive(Debug, Clone, Copy, PartialEq, Eq, Structural)]
pub enum DeletedRecoverError {
    /// Reading volumes directly is only done on Windows.
    Unsupported,
}

/// The note given where volumes cannot be read directly (any system but
/// Windows): `卷 {drive} 的已删除文件扫描仅支持 Windows`.
pub open spec fn spec_unsupported_note(drive: char) -> Seq<char> {
    "卷 "@ + seq![drive] + " 的已删除文件扫描仅支持 Windows"@
}

/// The deleted-file scan of a volume where volumes cannot be read directly (any
/// system but Windows): it degrades to an empty result with the reason for the
/// user ([`spec_unsupported_note`]), and the counter is kept.
pub fn scan_volume_deleted(drive: char, target_dir: Option<&str>, counter: &mut u64) -> (r: DeletedScanOutcome)
    ensures
        r.files@.len() == 0,
        r.note is Some,
        r.note matches Some(n) ==> n@ == spec_unsupported_note(drive),
        *final(counter) == *old(counter),
{
    let mut v: Vec<char> = Vec::new();
    push_str_chars(&mut v, "卷 ");
    v.push(drive);
    push_str_chars(&mut v, " 的已删除文件扫描仅支持 Windows");
    assert(v@ =~= spec_unsupported_note(drive));
    DeletedScanOutcome { files: Vec::new(), note: Some(string_of(&v)) }
}

/// Recovering a deleted file where volumes cannot be read directly (any system
/// but Windows): refused.
pub fn recover_deleted_file(encoded: &str, output_dir: &str, display_name: Option<&str>) -> (r: Result<String, DeletedRecoverError>)
    ensures
        r == Err::<String, DeletedRecoverError>(DeletedRecoverError::Unsupported),
{
    Err(DeletedRecoverError::Unsupported)
}

// ===== Reading the MFT and a file's data =====

/// `a + b` wrapping at 2^64.
pub open spec fn add64(a: u64, b: u64) -> u64 {
    if a + b > u64::MAX {
        (a + b - 0x1_0000_0000_0000_0000) as u64
    } else {
        (a + b) as u64
    }
}

/// `a * b` wrapping at 2^64.
pub open spec fn mul64(a: u64, b: u64) -> u64 {
    ((a * b) % 0x1_0000_0000_0000_0000) as u64
}

/// The cluster of run list `runs` that virtual cluster `vcn` maps to, scanning
/// from run `k`, whose first virtual cluster is `cur` (sums wrap at 2^64).
pub open spec fn spec_vcn_to_lcn_from(runs: Seq<(u64, u64)>, vcn: u64, k: int, cur: u64) -> Option<u64>
    decreases runs.len() - k,
{
    if k < 0 || k >= runs.len() {
        None
    } else {
        let end = add64(cur, runs[k].1);
        if vcn >= cur && vcn < end {
            Some(add64(runs[k].0, (vcn - cur) as u64))
        } else {
            spec_vcn_to_lcn_from(runs, vcn, k + 1, end)
        }
    }
}

pub open spec fn spec_vcn_to_lcn(runs: Seq<(u64, u64)>, vcn: u64) -> Option<u64> {
    spec_vcn_to_lcn_from(runs, vcn, 0, 0)
}

/// The cluster that virtual cluster `vcn` of a run list maps to; `None` past its end.
pub fn vcn_to_lcn(runs: &[(u64, u64)], vcn: u64) -> (r: Option<u64>)
    ensures
        r == spec_vcn_to_lcn(runs@, vcn),
{
    let mut cur: u64 = 0;
    let mut k: usize = 0;
    while k < runs.len()
        invariant
            k <= runs@.len(),
            spec_vcn_to_lcn(runs@, vcn) == spec_vcn_to_lcn_from(runs@, vcn, k as int, cur),
        decreases runs@.len() - k,
    {
        let (start, count) = runs[k];
        let end = cur.wrapping_add(count);
        if vcn >= cur && vcn < end {
            return Some(start.wrapping_add(vcn - cur));
        }
        cur = end;
        k = k + 1;
    }
    None
}

/// One piece of a read: `len` zero bytes (a sparse run), or `len` bytes read
/// from the volume at byte `offset`.
#[derive(Debug, Clone, Copy, PartialEq, Eq, Structural)]
pub enum ReadPiece {
    Zeros(u64),
    Read { offset: u64, len: u64 },
}

pub open spec fn min64(a: u64, b: u64) -> u64 {
    if a <= b {
        a
    } else {
        b
    }
}

/// The pieces that read `remaining` bytes of the MFT from byte `fpos` on, cluster
/// by cluster; `None` when a cluster lies past the run list.
pub open spec fn spec_record_pieces(runs: Seq<(u64, u64)>, cs: u64, fpos: u64, remaining: u64) -> Option<
    Seq<ReadPiece>,
>
    decreases remaining,
{
    if remaining == 0 || cs == 0 {
        Some(Seq::empty())
    } else {
        match spec_vcn_to_lcn(runs, fpos / cs) {
            None => None,
            Some(lcn) => {
                let in_off = fpos % cs;
                let chunk = min64((cs - in_off) as u64, remaining);
                let piece = if lcn == u64::MAX {
                    ReadPiece::Zeros(chunk)
                } else {
                    ReadPiece::Read { offset: add64(mul64(lcn, cs), in_off), len: chunk }
                };
                match spec_record_pieces(runs, cs, add64(fpos, chunk), (remaining - chunk) as u64) {
                    None => None,
                    Some(rest) => Some(seq![piece] + rest),
                }
            },
        }
    }
}

/// Why an MFT record cannot be read.
#[derive(Debug, Clone, Copy, PartialEq, Eq, Structural)]
pub enum RecordReadError {
    /// The record lies past the end of the MFT.
    PastEnd,
    /// A cluster of the record lies past the MFT's run list.
    Unmapped,
}

/// How MFT record `index` is read: its `record_size` bytes at `index * record_size`
/// (wrapping at 2^64), refused when that passes `mft_size`, then cluster by cluster
/// through the MFT's runs.
pub open spec fn spec_record_plan(runs: Seq<(u64, u64)>, cs: u64, record_size: u64, mft_size: u64, index: u64) -> Result<
    Seq<ReadPiece>,
    RecordReadError,
> {
    let pos = mul64(index, record_size);
    if add64(pos, record_size) > mft_size {
        Err(RecordReadError::PastEnd)
    } else {
        match spec_record_pieces(runs, cs, pos, record_size) {
            None => Err(RecordReadError::Unmapped),
            Some(p) => Ok(p),
        }
    }
}

/// The reads that fetch MFT record `index`.
pub fn record_read_plan(runs: &[(u64, u64)], cluster_size: u64, record_size: u64, mft_size: u64, index: u64) -> (r:
    Result<Vec<ReadPiece>, RecordReadError>)
    requires
        cluster_size > 0,
    ensures
        match r {
            Ok(v) => spec_record_plan(runs@, cluster_size, record_size, mft_size, index) == Ok::<
                Seq<ReadPiece>,
                RecordReadError,
            >(v@),
            Err(e) => spec_record_plan(runs@, cluster_size, record_size, mft_size, index) == Err::<
                Seq<ReadPiece>,
                RecordReadError,
            >(e),
        },
{
    let cs = cluster_size;
    let pos = index.wrapping_mul(record_size);
    if pos.wrapping_add(record_size) > mft_size {
        return Err(RecordReadError::PastEnd);
    }
    let mut pieces: Vec<ReadPiece> = Vec::new();
    let mut fpos = pos;
    let mut remaining = record_size;
    while remaining > 0
        invariant
            cs > 0,
            cs == cluster_size,
            pos == mul64(index, record_size),
            add64(pos, record_size) <= mft_size,
            spec_record_pieces(runs@, cs, pos, record_size) matches Some(all) ==> spec_record_pieces(
                runs@,
                cs,
                fpos,
                remaining,
            ) matches Some(rest) && all == pieces@ + rest,
            spec_record_pieces(runs@, cs, pos, record_size) is None <==> spec_record_pieces(
                runs@,
                cs,
                fpos,
                remaining,
            ) is None,
        decreases remaining,
    {
        let vcn = fpos / cs;
        let in_off = fpos % cs;
        let lcn = match vcn_to_lcn(runs, vcn) {
            Some(l) => l,
            None => {
                assert(spec_record_pieces(runs@, cs, fpos, remaining) is None);
                return Err(RecordReadError::Unmapped);
            },
        };
        let room = cs - in_off;
        let chunk = if room <= remaining { room } else { remaining };
        let piece = if lcn == u64::MAX {
            ReadPiece::Zeros(chunk)
        } else {
            ReadPiece::Read { offset: lcn.wrapping_mul(cs).wrapping_add(in_off), len: chunk }
        };
        let ghost before = pieces@;
        pieces.push(piece);
        proof {
            match spec_record_pieces(runs@, cs, pos, record_size) {
                Some(all) => {
                    let rest = spec_record_pieces(runs@, cs, fpos, remaining)->0;
                    let rest2 = spec_record_pieces(runs@, cs, add64(fpos, chunk), (remaining - chunk) as u64)->0;
                    assert(rest == seq![piece] + rest2);
                    assert(all == pieces@ + rest2) by {
                        assert(before + (seq![piece] + rest2) =~= pieces@ + rest2);
                    }
                },
                None => {},
            }
        }
        fpos = fpos.wrapping_add(chunk);
        remaining = remaining - chunk;
    }
    proof {
        assert(pieces@ + Seq::<ReadPiece>::empty() =~= pieces@);
    }
    Ok(pieces)
}

/// The pieces that read up to `max_len` bytes of a file through its runs from
/// run `k` on, `got` bytes being read already: each run gives `count * cluster`
/// bytes (wrapping at 2^64), no more than are still wanted.
pub open spec fn spec_run_pieces(runs: Seq<(u64, u64)>, cs: u64, max_len: u64, k: int, got: u64) -> Seq<ReadPiece>
    decreases runs.len() - k,
{
    if k < 0 || k >= runs.len() || got >= max_len {
        Seq::empty()
    } else {
        let want = min64(mul64(runs[k].1, cs), (max_len - got) as u64);
        let piece = if runs[k].0 == u64::MAX {
            ReadPiece::Zeros(want)
        } else {
            ReadPiece::Read { offset: mul64(runs[k].0, cs), len: want }
        };
        seq![piece] + spec_run_pieces(runs, cs, max_len, k + 1, (got + want) as u64)
    }
}

/// The reads that fetch up to `max_len` bytes of a file through its runs.
pub fn run_read_plan(runs: &[(u64, u64)], cluster_size: u64, max_len: u64) -> (r: Vec<ReadPiece>)
    ensures
        r@ == spec_run_pieces(runs@, cluster_size, max_len, 0, 0),
{
    let mut pieces: Vec<ReadPiece> = Vec::new();
    let mut got: u64 = 0;
    let mut k: usize = 0;
    while k < runs.len() && got < max_len
        invariant
            k <= runs@.len(),
            got <= max_len,
            spec_run_pieces(runs@, cluster_size, max_len, 0, 0) == pieces@ + spec_run_pieces(
                runs@,
                cluster_size,
                max_len,
                k as int,
                got,
            ),
        decreases runs@.len() - k,
    {
        let (lcn, count) = runs[k];
        let bytes = count.wrapping_mul(cluster_size);
        let left = max_len - got;
        let want = if bytes <= left { bytes } else { left };
        let piece = if lcn == u64::MAX {
            ReadPiece::Zeros(want)
        } else {
            ReadPiece::Read { offset: lcn.wrapping_mul(cluster_size), len: want }
        };
        let ghost before = pieces@;
        pieces.push(piece);
        assert(before + (seq![piece] + spec_run_pieces(runs@, cluster_size, max_len, k + 1, (got + want) as u64))
            =~= pieces@ + spec_run_pieces(runs@, cluster_size, max_len, k + 1, (got + want) as u64));
        got = got + want;
        k = k + 1;
    }
    assert(pieces@ + Seq::<ReadPiece>::empty() =~= pieces@);
    pieces
}

/// One chunk of a scan of the MFT: `len` bytes at MFT position `pos`, read from
/// the volume at byte `source`, or zeros where `source` is `None` (a sparse run).
#[derive(Debug, Clone, Copy, PartialEq, Eq, Structural)]
pub struct MftChunk {
    pub pos: u64,
    pub len: u64,
    pub source: Option<u64>,
}

pub open spec fn min3(a: u64, b: u64, c: u64) -> u64 {
    min64(min64(a, b), c)
}

/// The chunks of a scan of the MFT from run `k` on, `off` bytes into that run
/// and `pos` bytes into the MFT: at most 16 MiB each, never past the run nor past
/// `mft_size`.
pub open spec fn spec_mft_chunks(runs: Seq<(u64, u64)>, cs: u64, mft_size: u64, k: int, off: u64, pos: u64) -> Seq<MftChunk>
    decreases runs.len() - k, mft_size - pos,
{
    if k < 0 || k >= runs.len() {
        Seq::empty()
    } else {
        let run_bytes = mul64(runs[k].1, cs);
        if off < run_bytes && pos < mft_size {
            let n = min3(MFT_CHUNK, (run_bytes - off) as u64, (mft_size - pos) as u64);
            let chunk = MftChunk {
                pos,
                len: n,
                source: if runs[k].0 == u64::MAX {
                    None
                } else {
                    Some(add64(mul64(runs[k].0, cs), off))
                },
            };
            seq![chunk] + spec_mft_chunks(runs, cs, mft_size, k, (off + n) as u64, (pos + n) as u64)
        } else {
            spec_mft_chunks(runs, cs, mft_size, k + 1, 0, pos)
        }
    }
}

/// The chunks in which the MFT is scanned, in order.
pub fn mft_chunk_plan(runs: &[(u64, u64)], cluster_size: u64, mft_size: u64) -> (r: Vec<MftChunk>)
    ensures
        r@ == spec_mft_chunks(runs@, cluster_size, mft_size, 0, 0, 0),
{
    let mut out: Vec<MftChunk> = Vec::new();
    let mut pos: u64 = 0;
    let mut k: usize = 0;
    while k < runs.len()
        invariant
            k <= runs@.len(),
            pos <= mft_size,
            spec_mft_chunks(runs@, cluster_size, mft_size, 0, 0, 0) == out@ + spec_mft_chunks(
                runs@,
                cluster_size,
                mft_size,
                k as int,
                0,
                pos,
            ),
        decreases runs@.len() - k,
    {
        let (lcn, count) = runs[k];
        let run_bytes = count.wrapping_mul(cluster_size);
        let mut off: u64 = 0;
        while off < run_bytes && pos < mft_size
            invariant
                k < runs@.len(),
                runs@[k as int] == (lcn, count),
                run_bytes == mul64(count, cluster_size),
                off <= run_bytes,
                pos <= mft_size,
                spec_mft_chunks(runs@, cluster_size, mft_size, 0, 0, 0) == out@ + spec_mft_chunks(
                    runs@,
                    cluster_size,
                    mft_size,
                    k as int,
                    off,
                    pos,
                ),
            decreases mft_size - pos,
        {
            let a = if MFT_CHUNK <= run_bytes - off { MFT_CHUNK } else { run_bytes - off };
            let n = if a <= mft_size - pos { a } else { mft_size - pos };
            let source = if lcn == u64::MAX {
                None
            } else {
                Some(lcn.wrapping_mul(cluster_size).wrapping_add(off))
            };
            let chunk = MftChunk { pos, len: n, source };
            let ghost before = out@;
            out.push(chunk);
            assert(before + (seq![chunk] + spec_mft_chunks(runs@, cluster_size, mft_size, k as int, (off + n) as u64, (pos + n) as u64))
                =~= out@ + spec_mft_chunks(runs@, cluster_size, mft_size, k as int, (off + n) as u64, (pos + n) as u64));
            off = off + n;
            pos = pos + n;
        }
        k = k + 1;
    }
    assert(out@ + Seq::<MftChunk>::empty() =~= out@);
    out
}

/// The records of a chunk of the MFT that the scan looks at: each whole record
/// (`record_size` bytes) of the chunk, by its offset in the chunk and its record
/// number, leaving out the volume's metadata files (records 0 to 23).
pub open spec fn spec_record_slots(pos: u64, len: u64, rs: u64, i: u64) -> Seq<(u64, u64)>
    decreases len - i,
{
    if rs == 0 || i + rs > len {
        Seq::empty()
    } else {
        let idx = ((pos + i) / (rs as int)) as u64;
        let rest = spec_record_slots(pos, len, rs, (i + rs) as u64);
        if idx >= FIRST_USER_RECORD {
            seq![(i, idx)] + rest
        } else {
            rest
        }
    }
}

/// The records of a chunk that the scan looks at (see [`spec_record_slots`]).
pub fn record_slots(pos: u64, len: u64, record_size: u64) -> (r: Vec<(u64, u64)>)
    requires
        record_size > 0,
        pos + len <= u64::MAX,
    ensures
        r@ == spec_record_slots(pos, len, record_size, 0),
{
    let mut out: Vec<(u64, u64)> = Vec::new();
    let mut i: u64 = 0;
    while i <= len && record_size <= len - i
        invariant
            record_size > 0,
            pos + len <= u64::MAX,
            i <= len,
            spec_record_slots(pos, len, record_size, 0) == out@ + spec_record_slots(pos, len, record_size, i),
        decreases len - i,
    {
        let idx = (pos + i) / record_size;
        if idx >= FIRST_USER_RECORD {
            let ghost before = out@;
            out.push((i, idx));
            assert(before + (seq![(i, idx)] + spec_record_slots(pos, len, record_size, (i + record_size) as u64))
                =~= out@ + spec_record_slots(pos, len, record_size, (i + record_size) as u64));
        }
        i = i + record_size;
    }
    assert(out@ + Seq::<(u64, u64)>::empty() =~= out@);
    out
}

/// The share of the MFT analysed, in whole percent (rounded down).
pub fn mft_percent(pos: u64, mft_size: u64) -> (r: u32)
    requires
        mft_size > 0,
        pos <= mft_size,
    ensures
        r == pos as int * 100 / mft_size as int,
        r <= 100,
{
    let p = (pos as u128) * 100 / (mft_size as u128);
    assert(pos as int * 100 / mft_size as int <= 100) by (nonlinear_arith)
        requires
            mft_size > 0,
            pos <= mft_size,
    {
        assert(pos as int * 100 <= mft_size as int * 100);
    }
    p as u32
}

/// How many deleted files a scan reports at most: more when it is limited to a
/// directory, since it must then go through the whole MFT.
pub fn deleted_scan_limit(filtered: bool) -> (r: usize)
    ensures
        r == (if filtered { MAX_FILTERED_FILES } else { MAX_DELETED_FILES }),
{
    if filtered {
        MAX_FILTERED_FILES
    } else {
        MAX_DELETED_FILES
    }
}

// ===== Rebuilding the path of a deleted file =====

/// The walk up the parent links of a deleted file's directory, record by
/// record, to the root directory (record 5): the names met so far (innermost
/// first), the record to look up next, and how many links were followed.
#[derive(Debug)]
pub struct DirPathWalk {
    parts: Vec<String>,
    cur: u64,
    steps: usize,
    broken: bool,
}

impl DirPathWalk {
    pub closed spec fn parts_view(&self) -> Seq<Seq<char>> {
        crate::scan::texts(self.parts@)
    }

    pub closed spec fn current(&self) -> u64 {
        self.cur
    }

    pub closed spec fn steps_taken(&self) -> nat {
        self.steps as nat
    }

    /// A directory record on the way could not be read.
    pub closed spec fn is_broken(&self) -> bool {
        self.broken
    }

    /// The walk is over: broken, at the root (or record 0), or 128 links long.
    pub open spec fn is_done(&self) -> bool {
        self.is_broken() || self.current() == ROOT_RECORD || self.current() == 0 || self.steps_taken()
            >= MAX_PATH_DEPTH
    }

    /// A walk that starts at the directory record `parent`.
    pub fn new(parent: u64) -> (w: Self)
        ensures
            w.parts_view() == Seq::<Seq<char>>::empty(),
            w.current() == parent,
            w.steps_taken() == 0,
            !w.is_broken(),
    {
        let w = DirPathWalk { parts: Vec::new(), cur: parent, steps: 0, broken: false };
        assert(w.parts_view() =~= Seq::<Seq<char>>::empty());
        w
    }

    /// The directory record to look up next, or `None` when the walk is over.
    pub fn next_record(&self) -> (r: Option<u64>)
        ensures
            r == (if self.is_done() { None } else { Some(self.current()) }),
    {
        if self.broken || self.cur == ROOT_RECORD || self.cur == 0 || self.steps >= MAX_PATH_DEPTH {
            None
        } else {
            Some(self.cur)
        }
    }

    /// Takes in what the current directory record gives: its name and its parent
    /// record, or `None` when it cannot be read or parsed (the walk breaks).
    pub fn feed(&mut self, entry: Option<(String, u64)>)
        requires
            !old(self).is_done(),
        ensures
            match entry {
                Some((name, parent)) => {
                    &&& final(self).parts_view() == old(self).parts_view().push(name@)
                    &&& final(self).current() == parent
                    &&& final(self).steps_taken() == old(self).steps_taken() + 1
                    &&& !final(self).is_broken()
                },
                None => {
                    &&& final(self).is_broken()
                    &&& final(self).parts_view() == old(self).parts_view()
                    &&& final(self).current() == old(self).current()
                    &&& final(self).steps_taken() == old(self).steps_taken()
                },
            },
    {
        match entry {
            Some((name, parent)) => {
                let ghost before = self.parts_view();
                let ghost nm = name@;
                self.parts.push(name);
                assert(self.parts_view() =~= before.push(nm));
                self.cur = parent;
                self.steps = self.steps + 1;
            },
            None => {
                self.broken = true;
            },
        }
    }

    /// The directory's full path: `{drive}:\` followed by the names from the root
    /// down, joined with `\`; `None` when the walk broke.
    pub fn finish(&self, drive: char) -> (r: Option<String>)
        ensures
            self.is_broken() ==> r is None,
            !self.is_broken() ==> (r matches Some(p) && p@ == spec_dir_path(drive, self.parts_view())),
    {
        if self.broken {
            return None;
        }
        let mut v: Vec<char> = Vec::new();
        v.push(drive);
        v.push(':');
        v.push('\\');
        let n = self.parts.len();
        let ghost parts = self.parts_view();
        let mut k: usize = 0;
        while k < n
            invariant
                n == self.parts@.len(),
                parts == crate::scan::texts(self.parts@),
                k <= n,
                v@ == seq![drive, ':', '\\'] + crate::scan::spec_join(parts.reverse().take(k as int), seq!['\\']),
            decreases n - k,
        {
            let ghost rt = parts.reverse().take(k + 1);
            assert(rt.drop_last() =~= parts.reverse().take(k as int));
            assert(rt.last() == parts[n - 1 - k]);
            assert(parts[n - 1 - k] == self.parts@[n - 1 - k]@);
            if k > 0 {
                v.push('\\');
            } else {
                assert(parts.reverse().take(0) =~= Seq::<Seq<char>>::empty());
            }
            push_str_chars(&mut v, self.parts[n - 1 - k].as_str());
            assert(v@ =~= seq![drive, ':', '\\'] + crate::scan::spec_join(rt, seq!['\\']));
            k = k + 1;
        }
        assert(parts.reverse().take(n as int) =~= parts.reverse());
        Some(string_of(&v))
    }
}

/// The full path of a directory on drive `drive` whose names, innermost first,
/// are `parts`.
pub open spec fn spec_dir_path(drive: char, parts: Seq<Seq<char>>) -> Seq<char> {
    seq![drive, ':', '\\'] + crate::scan::spec_join(parts.reverse(), seq!['\\'])
}

// ===== Messages of the deleted-file scan =====

/// The note given when a volume cannot be scanned, from the error text `err` and
/// its lower-cased form `lower`: the request for administrator rights when `err`
/// holds `拒绝` or `lower` holds `denied` or `0x80070005`, else the error itself.
pub open spec fn spec_note_for(drive: char, err: Seq<char>, lower: Seq<char>) -> Seq<char> {
    if crate::scan::find_from(err, "拒绝"@, 0) is Some || crate::scan::find_from(lower, "denied"@, 0) is Some
        || crate::scan::find_from(lower, "0x80070005"@, 0) is Some {
        "卷 "@ + seq![drive] + " 需要管理员权限才能扫描已删除文件，请以管理员身份运行本程序"@
    } else {
        err
    }
}

/// The note given when a volume cannot be scanned: [`spec_note_for`] with the
/// error's lower-cased text.
pub open spec fn spec_scan_note(drive: char, err: Seq<char>) -> Seq<char> {
    spec_note_for(drive, err, crate::text::spec_to_lowercase(err))
}

/// Whether `p` occurs in `s`.
fn contains_chars(s: &[char], p: &[char]) -> (r: bool)
    ensures
        r == (crate::scan::find_from(s@, p@, 0) is Some),
{
    let mut i: usize = 0;
    while i <= s.len() && p.len() <= s.len() - i
        invariant
            i <= s@.len() + 1,
            crate::scan::find_from(s@, p@, 0) == crate::scan::find_from(s@, p@, i as int),
        decreases s@.len() + 1 - i,
    {
        let mut j: usize = 0;
        let mut same = true;
        while j < p.len()
            invariant
                i + p.len() <= s.len(),
                j <= p@.len(),
                same == (forall|q: int| 0 <= q < j ==> s@[i + q] == p@[q]),
            decreases p@.len() - j,
        {
            if s[i + j] != p[j] {
                same = false;
            }
            j = j + 1;
        }
        if same {
            assert(s@.subrange(i as int, i + p@.len()) =~= p@);
            return true;
        }
        assert(s@.subrange(i as int, i + p@.len()) != p@) by {
            let q = choose|q: int| 0 <= q < p@.len() && s@[i + q] != p@[q];
            assert(s@.subrange(i as int, i + p@.len())[q] == s@[i + q]);
        }
        i = i + 1;
    }
    false
}

/// The note for a volume that could not be opened, given the error text `err`
/// and its lower-cased form `lower` (see [`spec_note_for`]).
pub fn note_for_lowered(drive: char, err: &str, lower: &str) -> (r: String)
    ensures
        r@ == spec_note_for(drive, err@, lower@),
{
    let cs = chars_of(err);
    let ls = chars_of(lower);
    let p1 = chars_of("拒绝");
    let p2 = chars_of("denied");
    let p3 = chars_of("0x80070005");
    if contains_chars(&cs, &p1) || contains_chars(&ls, &p2) || contains_chars(&ls, &p3) {
        let mut v: Vec<char> = Vec::new();
        push_str_chars(&mut v, "卷 ");
        v.push(drive);
        push_str_chars(&mut v, " 需要管理员权限才能扫描已删除文件，请以管理员身份运行本程序");
        assert(v@ =~= "卷 "@ + seq![drive] + " 需要管理员权限才能扫描已删除文件，请以管理员身份运行本程序"@);
        string_of(&v)
    } else {
        err.to_owned()
    }
}

/// The note given when a volume cannot be scanned for deleted files.
pub fn scan_failure_note(drive: char, err: &str) -> (r: String)
    ensures
        r@ == spec_scan_note(drive, err@),
{
    let lower = crate::text::to_lowercase(err);
    note_for_lowered(drive, err, lower.as_str())
}

/// The progress message of a scan: `卷 {drive}: 已分析 MFT {pct}%，发现 {found} 个已删除文件`.
pub open spec fn spec_progress_message(drive: char, pct: u32, found: usize) -> Seq<char> {
    "卷 "@ + seq![drive] + ": 已分析 MFT "@ + decimal(pct as nat) + "%，发现 "@ + decimal(found as nat)
        + " 个已删除文件"@
}

/// The progress message of a deleted-file scan.
pub fn progress_message(drive: char, pct: u32, found: usize) -> (r: String)
    ensures
        r@ == spec_progress_message(drive, pct, found),
{
    let mut v: Vec<char> = Vec::new();
    push_str_chars(&mut v, "卷 ");
    v.push(drive);
    push_str_chars(&mut v, ": 已分析 MFT ");
    push_decimal(&mut v, pct as u64, 0);
    push_str_chars(&mut v, "%，发现 ");
    push_decimal(&mut v, found as u64, 0);
    push_str_chars(&mut v, " 个已删除文件");
    proof {
        crate::text::lemma_decimal_len(pct as nat);
        crate::text::lemma_decimal_len(found as nat);
    }
    assert(v@ =~= spec_progress_message(drive, pct, found));
    string_of(&v)
}

/// The message of a scan that stops at its limit: `卷 {drive}: 已达 {limit} 条上限，停止分析`.
pub open spec fn spec_limit_message(drive: char, limit: usize) -> Seq<char> {
    "卷 "@ + seq![drive] + ": 已达 "@ + decimal(limit as nat) + " 条上限，停止分析"@
}

/// The message of a deleted-file scan that stops at its limit.
pub fn limit_message(drive: char, limit: usize) -> (r: String)
    ensures
        r@ == spec_limit_message(drive, limit),
{
    let mut v: Vec<char> = Vec::new();
    push_str_chars(&mut v, "卷 ");
    v.push(drive);
    push_str_chars(&mut v, ": 已达 ");
    push_decimal(&mut v, limit as u64, 0);
    push_str_chars(&mut v, " 条上限，停止分析");
    proof {
        crate::text::lemma_decimal_len(limit as nat);
    }
    assert(v@ =~= spec_limit_message(drive, limit));
    string_of(&v)
}

// ===== Extension records of a fragmented file =====

/// The `$DATA` entries of an attribute list (type, base record, starting VCN).
pub open spec fn data_refs_of(refs: Seq<(u32, u64, u64)>, n: int) -> Seq<(u32, u64, u64)>
    decreases n,
{
    if n <= 0 {
        Seq::empty()
    } else if refs[n - 1].0 == crate::ntfs::ATTR_DATA {
        data_refs_of(refs, n - 1).push(refs[n - 1])
    } else {
        data_refs_of(refs, n - 1)
    }
}

/// `s` reordered by `order`.
pub open spec fn permute<T>(s: Seq<T>, order: Seq<int>) -> Seq<T> {
    Seq::new(order.len(), |t: int| s[order[t]])
}

/// The records in `bases` taken once each, in order, leaving out record 0 and
/// the record `exclude`.
pub open spec fn pick_bases(bases: Seq<u64>, exclude: Option<u64>, n: int) -> Seq<u64>
    decreases n,
{
    if n <= 0 {
        Seq::empty()
    } else {
        let prev = pick_bases(bases, exclude, n - 1);
        let b = bases[n - 1];
        if b == 0 || exclude == Some(b) || prev.contains(b) {
            prev
        } else {
            prev.push(b)
        }
    }
}

pub open spec fn vcn_keys(refs: Seq<(u32, u64, u64)>) -> Seq<u64> {
    Seq::new(refs.len(), |i: int| refs[i].2)
}

pub open spec fn base_keys(refs: Seq<(u32, u64, u64)>) -> Seq<u64> {
    Seq::new(refs.len(), |i: int| refs[i].1)
}

/// The extension records that hold a file's data, in the order of their first
/// VCN (equal VCNs in list order), each once, without the file's own record
/// `base_idx` and without record 0.
pub open spec fn spec_extent_records(refs: Seq<(u32, u64, u64)>, base_idx: u64) -> Seq<u64> {
    let d = data_refs_of(refs, refs.len() as int);
    let sorted = permute(d, crate::carving::stable_order(vcn_keys(d), d.len() as int));
    pick_bases(base_keys(sorted), Some(base_idx), sorted.len() as int)
}

/// The `$DATA` entries of an attribute list sorted by (first VCN, base record).
pub open spec fn mft_sorted_refs(refs: Seq<(u32, u64, u64)>) -> Seq<(u32, u64, u64)> {
    let d = data_refs_of(refs, refs.len() as int);
    let by_base = permute(d, crate::carving::stable_order(base_keys(d), d.len() as int));
    permute(by_base, crate::carving::stable_order(vcn_keys(by_base), by_base.len() as int))
}

/// The records that hold the MFT's own data beyond its first record: the
/// `$DATA` entries sorted by (first VCN, base record), each record once, without
/// record 0.
pub open spec fn spec_mft_extent_records(refs: Seq<(u32, u64, u64)>) -> Seq<u64> {
    let sorted = mft_sorted_refs(refs);
    pick_bases(base_keys(sorted), None, sorted.len() as int)
}

fn data_refs(refs: &[(u32, u64, u64)]) -> (r: Vec<(u32, u64, u64)>)
    ensures
        r@ == data_refs_of(refs@, refs@.len() as int),
{
    let mut out: Vec<(u32, u64, u64)> = Vec::new();
    let mut k: usize = 0;
    while k < refs.len()
        invariant
            k <= refs@.len(),
            out@ == data_refs_of(refs@, k as int),
        decreases refs@.len() - k,
    {
        if refs[k].0 == crate::ntfs::ATTR_DATA {
            out.push(refs[k]);
        }
        k = k + 1;
    }
    out
}

fn keys_of(refs: &[(u32, u64, u64)], vcn: bool) -> (r: Vec<u64>)
    ensures
        r@ == (if vcn { vcn_keys(refs@) } else { base_keys(refs@) }),
{
    let mut out: Vec<u64> = Vec::new();
    let mut k: usize = 0;
    while k < refs.len()
        invariant
            k <= refs@.len(),
            out@ == (if vcn { vcn_keys(refs@) } else { base_keys(refs@) }).take(k as int),
        decreases refs@.len() - k,
    {
        out.push(if vcn { refs[k].2 } else { refs[k].1 });
        k = k + 1;
        assert(out@ =~= (if vcn { vcn_keys(refs@) } else { base_keys(refs@) }).take(k as int));
    }
    assert((if vcn { vcn_keys(refs@) } else { base_keys(refs@) }).take(k as int) =~= (if vcn {
        vcn_keys(refs@)
    } else {
        base_keys(refs@)
    }));
    out
}

fn permuted(refs: &[(u32, u64, u64)], order: &[usize]) -> (r: Vec<(u32, u64, u64)>)
    requires
        forall|t: int| 0 <= t < order@.len() ==> 0 <= #[trigger] order@[t] < refs@.len(),
    ensures
        r@ == permute(refs@, order@.map_values(|x: usize| x as int)),
{
    let mut out: Vec<(u32, u64, u64)> = Vec::new();
    let mut k: usize = 0;
    while k < order.len()
        invariant
            k <= order@.len(),
            forall|t: int| 0 <= t < order@.len() ==> 0 <= #[trigger] order@[t] < refs@.len(),
            out@ == permute(refs@, order@.map_values(|x: usize| x as int)).take(k as int),
        decreases order@.len() - k,
    {
        out.push(refs[order[k]]);
        k = k + 1;
        assert(out@ =~= permute(refs@, order@.map_values(|x: usize| x as int)).take(k as int));
    }
    assert(permute(refs@, order@.map_values(|x: usize| x as int)).take(k as int) =~= permute(
        refs@,
        order@.map_values(|x: usize| x as int),
    ));
    out
}

fn sorted_by(refs: &[(u32, u64, u64)], vcn: bool) -> (r: Vec<(u32, u64, u64)>)
    ensures
        r@ == permute(
            refs@,
            crate::carving::stable_order(
                if vcn { vcn_keys(refs@) } else { base_keys(refs@) },
                refs@.len() as int,
            ),
        ),
{
    let keys = keys_of(refs, vcn);
    let order = crate::carving::stable_order_of(&keys);
    let ghost so = crate::carving::stable_order(keys@, keys@.len() as int);
    proof {
        crate::carving::lemma_stable_order(keys@, keys@.len() as int);
        assert(order@.map_values(|x: usize| x as int) =~= so);
        assert forall|t: int| 0 <= t < order@.len() implies 0 <= #[trigger] order@[t] < refs@.len() by {
            assert(order@[t] as int == so[t]);
        }
    }
    permuted(refs, &order)
}

fn pick(bases: &[(u32, u64, u64)], exclude: Option<u64>) -> (r: Vec<u64>)
    ensures
        r@ == pick_bases(base_keys(bases@), exclude, bases@.len() as int),
{
    let ghost bk = base_keys(bases@);
    let mut out: Vec<u64> = Vec::new();
    let mut k: usize = 0;
    while k < bases.len()
        invariant
            k <= bases@.len(),
            bk == base_keys(bases@),
            out@ == pick_bases(bk, exclude, k as int),
        decreases bases@.len() - k,
    {
        let b = bases[k].1;
        let mut seen = false;
        let mut j: usize = 0;
        while j < out.len()
            invariant
                j <= out@.len(),
                seen == (exists|q: int| 0 <= q < j && out@[q] == b),
            decreases out@.len() - j,
        {
            if out[j] == b {
                seen = true;
            }
            j = j + 1;
        }
        let excluded = match exclude {
            Some(e) => e == b,
            None => false,
        };
        if !(b == 0 || excluded || seen) {
            out.push(b);
        }
        k = k + 1;
    }
    out
}

/// The extension records that hold a file's data (see [`spec_extent_records`]).
pub fn extent_records(refs: &[(u32, u64, u64)], base_idx: u64) -> (r: Vec<u64>)
    ensures
        r@ == spec_extent_records(refs@, base_idx),
{
    let d = data_refs(refs);
    let sorted = sorted_by(&d, true);
    pick(&sorted, Some(base_idx))
}

/// The records that hold the MFT's own data beyond its first record (see
/// [`spec_mft_extent_records`]).
pub fn mft_extent_records(refs: &[(u32, u64, u64)]) -> (r: Vec<u64>)
    ensures
        r@ == spec_mft_extent_records(refs@),
{
    let d = data_refs(refs);
    let by_base = sorted_by(&d, false);
    let sorted = sorted_by(&by_base, true);
    pick(&sorted, None)
}

/// Law: the records picked are each taken once and never record 0 nor the
/// excluded one.
pub proof fn lemma_pick_bases(bases: Seq<u64>, exclude: Option<u64>, n: int)
    ensures
        forall|a: int, b: int|
            0 <= a < b < pick_bases(bases, exclude, n).len() ==> pick_bases(bases, exclude, n)[a]
                != pick_bases(bases, exclude, n)[b],
        forall|a: int|
            0 <= a < pick_bases(bases, exclude, n).len() ==> #[trigger] pick_bases(bases, exclude, n)[a]
                != 0 && exclude != Some(pick_bases(bases, exclude, n)[a]),
    decreases n,
{
    if n > 0 {
        lemma_pick_bases(bases, exclude, n - 1);
        let prev = pick_bases(bases, exclude, n - 1);
        let b = bases[n - 1];
        if !(b == 0 || exclude == Some(b) || prev.contains(b)) {
            let out = prev.push(b);
            assert forall|x: int, y: int| 0 <= x < y < out.len() implies out[x] != out[y] by {
                if y == out.len() - 1 {
                    if out[x] == out[y] {
                        assert(prev[x] == b);
                        assert(prev.contains(b));
                    }
                } else {
                    assert(out[x] == prev[x] && out[y] == prev[y]);
                }
            }
            assert forall|x: int| 0 <= x < out.len() implies #[trigger] out[x] != 0 && exclude != Some(
                out[x],
            ) by {
                if x < out.len() - 1 {
                    assert(out[x] == prev[x]);
                }
            }
        }
    }
}

/// Law: the MFT's extension entries are in order of (first VCN, base record).
pub proof fn lemma_mft_refs_sorted(refs: Seq<(u32, u64, u64)>)
    ensures
        forall|a: int, b: int|
            0 <= a < b < mft_sorted_refs(refs).len() ==> mft_sorted_refs(refs)[a].2 < mft_sorted_refs(refs)[b].2
                || (mft_sorted_refs(refs)[a].2 == mft_sorted_refs(refs)[b].2 && mft_sorted_refs(refs)[a].1
                <= mft_sorted_refs(refs)[b].1),
{
    let d = data_refs_of(refs, refs.len() as int);
    let o1 = crate::carving::stable_order(base_keys(d), d.len() as int);
    crate::carving::lemma_stable_order(base_keys(d), d.len() as int);
    let by_base = permute(d, o1);
    let o2 = crate::carving::stable_order(vcn_keys(by_base), by_base.len() as int);
    crate::carving::lemma_stable_order(vcn_keys(by_base), by_base.len() as int);
    let out = permute(by_base, o2);
    assert(out == mft_sorted_refs(refs));
    assert forall|a: int, b: int| 0 <= a < b < out.len() implies out[a].2 < out[b].2 || (out[a].2
        == out[b].2 && out[a].1 <= out[b].1) by {
        let i = o2[a];
        let j = o2[b];
        assert(vcn_keys(by_base)[i] <= vcn_keys(by_base)[j]);
        if out[a].2 == out[b].2 {
            assert(vcn_keys(by_base)[i] == vcn_keys(by_base)[j]);
            assert(i < j);
            assert(base_keys(d)[o1[i]] <= base_keys(d)[o1[j]]);
        }
    }
}

} // verus!
