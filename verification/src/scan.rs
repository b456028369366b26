//! The scanning pipeline's own logic: the file records that a scan reports,
//! typed-in scan paths, file-type detection by magic bytes, the recycle bin's
//! metadata files, names for recovered files, and the paging of results.
use vstd::prelude::*;
use crate::bytes::{le16, le32, le64, u16le, u32le, u64le};
use crate::text::{
    chars_of, decode_utf16_lossy, decimal, push_decimal, push_str_chars, spec_is_whitespace,
    spec_to_lowercase, string_of, to_lowercase, utf16_lossy, is_whitespace,
};
use crate::paths::{spec_normalize_on, normalize_path_for, spec_split_name, split_file_name};
use crate::ntfs::{spec_sanitize, sanitize_filename};
use crate::datetime::{spec_timestamp_text, unix_to_string};

verus! {

/// How many result files one scan event carries at most; the rest are fetched by pages.
pub const EVENT_RESULT_CAP: usize = 2000;

/// How many files a scan of one recycle bin reports at most.
pub const RECYCLE_MAX_FILES: usize = 20000;

/// How many found files are handed on together.
pub const RESULT_BATCH: usize = 50;

/// How deep a directory walk descends.
pub const MAX_WALK_DEPTH: u32 = 15;

/// A file that a scan found: an existing file, a file in the recycle bin, or a
/// deleted file whose MFT record survives.
#[derive(Debug, Clone)]
pub struct FoundFile {
    pub id: String,
    pub filename: String,
    pub filepath: String,
    pub extension: String,
    pub size_bytes: u64,
    pub file_type: String,
    pub modified_time: Option<String>,
    /// Found by the deep phase (recycle bin or MFT), not as an existing file.
    pub deleted: bool,
    /// The full path before deletion, where it is known.
    pub original_path: Option<String>,
    /// `Some(false)`: the data clusters look overwritten (the first bytes are all zero).
    pub data_intact: Option<bool>,
}

impl FoundFile {
    /// A record of a file that is not a deleted one: no original path, no data check.
    pub fn new_found(
        id: String,
        filename: String,
        filepath: String,
        extension: String,
        size_bytes: u64,
        file_type: String,
        modified_time: Option<String>,
        deleted: bool,
    ) -> (f: Self)
        ensures
            f.id == id,
            f.filename == filename,
            f.filepath == filepath,
            f.extension == extension,
            f.size_bytes == size_bytes,
            f.file_type == file_type,
            f.modified_time == modified_time,
            f.deleted == deleted,
            f.original_path is None,
            f.data_intact is None,
    {
        FoundFile {
            id,
            filename,
            filepath,
            extension,
            size_bytes,
            file_type,
            modified_time,
            deleted,
            original_path: None,
            data_intact: None,
        }
    }
}

/// What a path names on disk.
#[derive(Debug, Clone, Copy, PartialEq, Eq, Structural)]
pub enum PathKind {
    Dir,
    File,
    Missing,
}

/// A checked typed-in path: its normalised text and what it names (`dir`, `file`
/// or `missing`).
#[derive(Debug, Clone)]
pub struct PathValidation {
    pub normalized: String,
    pub kind: String,
}

pub open spec fn spec_kind_name(kind: PathKind) -> &'static str {
    match kind {
        PathKind::Dir => "dir",
        PathKind::File => "file",
        PathKind::Missing => "missing",
    }
}

/// Why a typed-in path was refused.
#[derive(Debug, Clone, Copy, PartialEq, Eq, Structural)]
pub enum PathError {
    /// Nothing is left once the path is trimmed.
    Empty,
}

/// Checks a typed-in path: refused when nothing is left after normalising, else
/// its normalised text and the name of `kind`, what that text names on disk;
/// `windows` selects the Windows normalisation (see [`spec_normalize_on`]).
pub fn validation_for(path: &str, kind: PathKind, windows: bool) -> (r: Result<PathValidation, PathError>)
    ensures
        spec_normalize_on(path@, windows).len() == 0 <==> r is Err,
        r matches Ok(v) ==> v.normalized@ == spec_normalize_on(path@, windows) && v.kind@
            == spec_kind_name(kind)@,
{
    let normalized = normalize_path_for(path, windows);
    let cs = chars_of(normalized.as_str());
    if cs.len() == 0 {
        return Err(PathError::Empty);
    }
    let name = match kind {
        PathKind::Dir => "dir",
        PathKind::File => "file",
        PathKind::Missing => "missing",
    };
    Ok(PathValidation { normalized, kind: name.to_owned() })
}

// ===== File types by magic bytes =====

/// Bytes `a`, `b` at `i`.
pub open spec fn pair_at(d: Seq<u8>, i: int, a: u8, b: u8) -> bool {
    d.len() >= i + 2 && d[i] == a && d[i + 1] == b
}

pub open spec fn sqlite_magic() -> Seq<u8> {
    seq![
        0x53u8, 0x51u8, 0x4Cu8, 0x69u8, 0x74u8, 0x65u8, 0x20u8, 0x66u8, 0x6Fu8, 0x72u8, 0x6Du8,
        0x61u8, 0x74u8, 0x20u8, 0x33u8,
    ]
}

/// The file type that the first bytes of a file announce; `Unknown` for fewer
/// than two bytes, `Other` when no signature matches.
pub open spec fn spec_signature(d: Seq<u8>) -> &'static str {
    if d.len() < 2 {
        "Unknown"
    } else if pair_at(d, 0, 0xFF, 0xD8) {
        "JPEG"
    } else if pair_at(d, 0, 0x89, 0x50) && pair_at(d, 2, 0x4E, 0x47) {
        "PNG"
    } else if pair_at(d, 0, 0x47, 0x49) && (pair_at(d, 2, 0x46, 0x38) || pair_at(d, 2, 0x46, 0x39)) {
        "GIF"
    } else if pair_at(d, 0, 0x42, 0x4D) {
        "BMP"
    } else if pair_at(d, 0, 0x25, 0x50) && pair_at(d, 2, 0x44, 0x46) {
        "PDF"
    } else if pair_at(d, 0, 0x50, 0x4B) && pair_at(d, 2, 0x03, 0x04) {
        "ZIP/DOCX"
    } else if pair_at(d, 0, 0x52, 0x61) && pair_at(d, 2, 0x72, 0x21) {
        "RAR"
    } else if pair_at(d, 0, 0x37, 0x7A) {
        "7z"
    } else if pair_at(d, 0, 0x1F, 0x8B) {
        "GZ"
    } else if pair_at(d, 0, 0x4D, 0x5A) {
        "PE/EXE"
    } else if pair_at(d, 0, 0x7F, 0x45) && pair_at(d, 2, 0x4C, 0x46) {
        "ELF"
    } else if pair_at(d, 0, 0x1A, 0x45) {
        "MKV"
    } else if pair_at(d, 0, 0xFF, 0xFB) || pair_at(d, 0, 0xFF, 0xF3) || pair_at(d, 0, 0xFF, 0xF2) {
        "MP3"
    } else if pair_at(d, 0, 0x49, 0x44) && d.len() >= 3 && d[2] == 0x33 {
        "MP3"
    } else if pair_at(d, 0, 0x4F, 0x67) && pair_at(d, 2, 0x67, 0x53) {
        "OGG"
    } else if pair_at(d, 0, 0x66, 0x4C) && pair_at(d, 2, 0x61, 0x43) {
        "FLAC"
    } else if pair_at(d, 0, 0x52, 0x49) && pair_at(d, 2, 0x46, 0x46) {
        "WAV/AVI"
    } else if pair_at(d, 0, 0xD0, 0xCF) {
        "OLE/DOC"
    } else if pair_at(d, 0, 0x53, 0x51) && crate::bytes::bytes_at(d, 0, sqlite_magic()) {
        "SQLite"
    } else if pair_at(d, 0, 0x42, 0x5A) && d.len() >= 3 && d[2] == 0x68 {
        "BZ2"
    } else if pair_at(d, 0, 0x3C, 0x21) || pair_at(d, 0, 0x3C, 0x68) {
        "HTML"
    } else if pair_at(d, 0, 0x3C, 0x3F) {
        "XML"
    } else if d[0] == 0x7B {
        "JSON"
    } else if pair_at(d, 0, 0x00, 0x00) && pair_at(d, 2, 0x01, 0x00) {
        "TTF"
    } else {
        "Other"
    }
}

/// Law: each file type is reported for its own magic bytes. Data too short to
/// hold two bytes is `Unknown`; the types announced by two bytes alone (JPEG
/// `FF D8`, BMP `42 4D`, 7z `37 7A`, GZ `1F 8B`, PE/EXE `4D 5A`, MKV `1A 45`,
/// OLE/DOC `D0 CF`) are reported exactly for data starting with them; every
/// other type only for data starting with its magic.
pub proof fn lemma_signature_magic(d: Seq<u8>)
    ensures
        (spec_signature(d)@ == "Unknown"@) <==> d.len() < 2,
        (spec_signature(d)@ == "JPEG"@) <==> pair_at(d, 0, 0xFF, 0xD8),
        (spec_signature(d)@ == "BMP"@) <==> pair_at(d, 0, 0x42, 0x4D),
        (spec_signature(d)@ == "7z"@) <==> pair_at(d, 0, 0x37, 0x7A),
        (spec_signature(d)@ == "GZ"@) <==> pair_at(d, 0, 0x1F, 0x8B),
        (spec_signature(d)@ == "PE/EXE"@) <==> pair_at(d, 0, 0x4D, 0x5A),
        (spec_signature(d)@ == "MKV"@) <==> pair_at(d, 0, 0x1A, 0x45),
        (spec_signature(d)@ == "OLE/DOC"@) <==> pair_at(d, 0, 0xD0, 0xCF),
        spec_signature(d)@ == "PNG"@ ==> pair_at(d, 0, 0x89, 0x50) && pair_at(d, 2, 0x4E, 0x47),
        spec_signature(d)@ == "GIF"@ ==> pair_at(d, 0, 0x47, 0x49),
        spec_signature(d)@ == "PDF"@ ==> pair_at(d, 0, 0x25, 0x50) && pair_at(d, 2, 0x44, 0x46),
        spec_signature(d)@ == "ZIP/DOCX"@ ==> pair_at(d, 0, 0x50, 0x4B) && pair_at(d, 2, 0x03, 0x04),
        spec_signature(d)@ == "RAR"@ ==> pair_at(d, 0, 0x52, 0x61) && pair_at(d, 2, 0x72, 0x21),
        spec_signature(d)@ == "ELF"@ ==> pair_at(d, 0, 0x7F, 0x45) && pair_at(d, 2, 0x4C, 0x46),
        spec_signature(d)@ == "MP3"@ ==> d.len() >= 2 && (d[0] == 0xFF || pair_at(d, 0, 0x49, 0x44)),
        spec_signature(d)@ == "OGG"@ ==> pair_at(d, 0, 0x4F, 0x67) && pair_at(d, 2, 0x67, 0x53),
        spec_signature(d)@ == "FLAC"@ ==> pair_at(d, 0, 0x66, 0x4C) && pair_at(d, 2, 0x61, 0x43),
        spec_signature(d)@ == "WAV/AVI"@ ==> pair_at(d, 0, 0x52, 0x49) && pair_at(d, 2, 0x46, 0x46),
        spec_signature(d)@ == "SQLite"@ ==> crate::bytes::bytes_at(d, 0, sqlite_magic()),
        spec_signature(d)@ == "BZ2"@ ==> pair_at(d, 0, 0x42, 0x5A),
        spec_signature(d)@ == "HTML"@ ==> d.len() >= 2 && d[0] == 0x3C,
        spec_signature(d)@ == "XML"@ ==> pair_at(d, 0, 0x3C, 0x3F),
        spec_signature(d)@ == "JSON"@ ==> d.len() >= 2 && d[0] == 0x7B,
        spec_signature(d)@ == "TTF"@ ==> pair_at(d, 0, 0x00, 0x00) && pair_at(d, 2, 0x01, 0x00),
{
    reveal_strlit("Unknown");
    reveal_strlit("JPEG");
    reveal_strlit("PNG");
    reveal_strlit("GIF");
    reveal_strlit("BMP");
    reveal_strlit("PDF");
    reveal_strlit("ZIP/DOCX");
    reveal_strlit("RAR");
    reveal_strlit("7z");
    reveal_strlit("GZ");
    reveal_strlit("PE/EXE");
    reveal_strlit("ELF");
    reveal_strlit("MKV");
    reveal_strlit("MP3");
    reveal_strlit("OGG");
    reveal_strlit("FLAC");
    reveal_strlit("WAV/AVI");
    reveal_strlit("OLE/DOC");
    reveal_strlit("SQLite");
    reveal_strlit("BZ2");
    reveal_strlit("HTML");
    reveal_strlit("XML");
    reveal_strlit("JSON");
    reveal_strlit("TTF");
    reveal_strlit("Other");
    assert("Unknown"@[0] == 'U' && "Unknown"@[1] == 'n');
    assert("JPEG"@[0] == 'J' && "JPEG"@[1] == 'P');
    assert("PNG"@[0] == 'P' && "PNG"@[1] == 'N');
    assert("GIF"@[0] == 'G' && "GIF"@[1] == 'I');
    assert("BMP"@[0] == 'B' && "BMP"@[1] == 'M');
    assert("PDF"@[0] == 'P' && "PDF"@[1] == 'D');
    assert("ZIP/DOCX"@[0] == 'Z' && "ZIP/DOCX"@[1] == 'I');
    assert("RAR"@[0] == 'R' && "RAR"@[1] == 'A');
    assert("7z"@[0] == '7' && "7z"@[1] == 'z');
    assert("GZ"@[0] == 'G' && "GZ"@[1] == 'Z');
    assert("PE/EXE"@[0] == 'P' && "PE/EXE"@[1] == 'E');
    assert("ELF"@[0] == 'E' && "ELF"@[1] == 'L');
    assert("MKV"@[0] == 'M' && "MKV"@[1] == 'K');
    assert("MP3"@[0] == 'M' && "MP3"@[1] == 'P');
    assert("OGG"@[0] == 'O' && "OGG"@[1] == 'G');
    assert("FLAC"@[0] == 'F' && "FLAC"@[1] == 'L');
    assert("WAV/AVI"@[0] == 'W' && "WAV/AVI"@[1] == 'A');
    assert("OLE/DOC"@[0] == 'O' && "OLE/DOC"@[1] == 'L');
    assert("SQLite"@[0] == 'S' && "SQLite"@[1] == 'Q');
    assert("BZ2"@[0] == 'B' && "BZ2"@[1] == 'Z');
    assert("HTML"@[0] == 'H' && "HTML"@[1] == 'T');
    assert("XML"@[0] == 'X' && "XML"@[1] == 'M');
    assert("JSON"@[0] == 'J' && "JSON"@[1] == 'S');
    assert("TTF"@[0] == 'T' && "TTF"@[1] == 'T');
    assert("Other"@[0] == 'O' && "Other"@[1] == 't');
}

fn pair(d: &[u8], i: usize, a: u8, b: u8) -> (r: bool)
    requires
        i <= 2,
    ensures
        r == pair_at(d@, i as int, a, b),
{
    d.len() >= i + 2 && d[i] == a && d[i + 1] == b
}

/// The file type that the first bytes of a file announce.
pub fn match_signature(data: &[u8]) -> (r: &'static str)
    ensures
        r == spec_signature(data@),
{
    if data.len() < 2 {
        return "Unknown";
    }
    if pair(data, 0, 0xFF, 0xD8) {
        "JPEG"
    } else if pair(data, 0, 0x89, 0x50) && pair(data, 2, 0x4E, 0x47) {
        "PNG"
    } else if pair(data, 0, 0x47, 0x49) && (pair(data, 2, 0x46, 0x38) || pair(data, 2, 0x46, 0x39)) {
        "GIF"
    } else if pair(data, 0, 0x42, 0x4D) {
        "BMP"
    } else if pair(data, 0, 0x25, 0x50) && pair(data, 2, 0x44, 0x46) {
        "PDF"
    } else if pair(data, 0, 0x50, 0x4B) && pair(data, 2, 0x03, 0x04) {
        "ZIP/DOCX"
    } else if pair(data, 0, 0x52, 0x61) && pair(data, 2, 0x72, 0x21) {
        "RAR"
    } else if pair(data, 0, 0x37, 0x7A) {
        "7z"
    } else if pair(data, 0, 0x1F, 0x8B) {
        "GZ"
    } else if pair(data, 0, 0x4D, 0x5A) {
        "PE/EXE"
    } else if pair(data, 0, 0x7F, 0x45) && pair(data, 2, 0x4C, 0x46) {
        "ELF"
    } else if pair(data, 0, 0x1A, 0x45) {
        "MKV"
    } else if pair(data, 0, 0xFF, 0xFB) || pair(data, 0, 0xFF, 0xF3) || pair(data, 0, 0xFF, 0xF2) {
        "MP3"
    } else if pair(data, 0, 0x49, 0x44) && data.len() >= 3 && data[2] == 0x33 {
        "MP3"
    } else if pair(data, 0, 0x4F, 0x67) && pair(data, 2, 0x67, 0x53) {
        "OGG"
    } else if pair(data, 0, 0x66, 0x4C) && pair(data, 2, 0x61, 0x43) {
        "FLAC"
    } else if pair(data, 0, 0x52, 0x49) && pair(data, 2, 0x46, 0x46) {
        "WAV/AVI"
    } else if pair(data, 0, 0xD0, 0xCF) {
        "OLE/DOC"
    } else if pair(data, 0, 0x53, 0x51) && {
        let magic: [u8; 15] = [
            0x53, 0x51, 0x4C, 0x69, 0x74, 0x65, 0x20, 0x66, 0x6F, 0x72, 0x6D, 0x61, 0x74, 0x20, 0x33,
        ];
        assert(magic@ =~= sqlite_magic());
        crate::bytes::bytes_match(data, 0, &magic)
    } {
        "SQLite"
    } else if pair(data, 0, 0x42, 0x5A) && data.len() >= 3 && data[2] == 0x68 {
        "BZ2"
    } else if pair(data, 0, 0x3C, 0x21) || pair(data, 0, 0x3C, 0x68) {
        "HTML"
    } else if pair(data, 0, 0x3C, 0x3F) {
        "XML"
    } else if data[0] == 0x7B {
        "JSON"
    } else if pair(data, 0, 0x00, 0x00) && pair(data, 2, 0x01, 0x00) {
        "TTF"
    } else {
        "Other"
    }
}

// ===== The recycle bin's metadata files =====

/// `n` UTF-16 units, little-endian, from byte `off` on.
pub open spec fn units_at(b: Seq<u8>, off: int, n: nat) -> Seq<u16> {
    Seq::new(n, |i: int| le16(b, off + 2 * i) as u16)
}

/// The units of `u` before its first zero.
pub open spec fn units_until_nul(u: Seq<u16>) -> Seq<u16>
    decreases u.len(),
{
    if u.len() == 0 {
        u
    } else if u[0] == 0 {
        Seq::empty()
    } else {
        seq![u[0]] + units_until_nul(u.drop_first())
    }
}

pub open spec fn trim_nul_start(s: Seq<char>) -> Seq<char>
    decreases s.len(),
{
    if s.len() > 0 && s[0] == '\0' {
        trim_nul_start(s.drop_first())
    } else {
        s
    }
}

pub open spec fn trim_nul_end(s: Seq<char>) -> Seq<char>
    decreases s.len(),
{
    if s.len() > 0 && s.last() == '\0' {
        trim_nul_end(s.drop_last())
    } else {
        s
    }
}

/// `s` without leading and trailing NUL characters.
pub open spec fn trim_nuls(s: Seq<char>) -> Seq<char> {
    trim_nul_end(trim_nul_start(s))
}

/// Windows FILETIME seconds turned into Unix seconds, 0 before 1970.
pub open spec fn recycle_unix_time(ftime: u64) -> u64 {
    let secs = ftime as int / 10_000_000;
    if secs >= 11_644_473_600 {
        (secs - 11_644_473_600) as u64
    } else {
        0
    }
}

/// The path units of a `$I` file: version 2 (Windows 8 on) has a 32-bit unit
/// count at 24 and the path from 28; otherwise (version 1) 260 units from 24,
/// up to the first zero. `None` where the file is too short or the count is 0.
pub open spec fn recycle_path_units(b: Seq<u8>) -> Option<Seq<u16>> {
    if le64(b, 0) == 2 && b.len() >= 28 {
        let n = le32(b, 24);
        if n == 0 || b.len() < 28 + 2 * n {
            None
        } else {
            Some(units_at(b, 28, n as nat))
        }
    } else if b.len() >= 24 + 520 {
        Some(units_until_nul(units_at(b, 24, 260)))
    } else {
        None
    }
}

/// The original path and the deletion time (Unix seconds) that a recycle bin
/// `$I` file records; the path is decoded lossily and trimmed of NULs, and an
/// empty path gives `None`.
pub open spec fn spec_recycle_meta(b: Seq<u8>) -> Option<(Seq<char>, u64)> {
    if b.len() < 24 {
        None
    } else {
        match recycle_path_units(b) {
            None => None,
            Some(u) => {
                let path = trim_nuls(decode_utf16_lossy(u));
                if path.len() == 0 {
                    None
                } else {
                    Some((path, recycle_unix_time(le64(b, 16) as u64)))
                }
            },
        }
    }
}

fn trim_nul_bounds(s: &Vec<char>) -> (r: (usize, usize))
    ensures
        r.0 <= r.1 <= s@.len(),
        s@.subrange(r.0 as int, r.1 as int) == trim_nuls(s@),
{
    let mut a: usize = 0;
    assert(s@.subrange(0, s@.len() as int) =~= s@);
    while a < s.len() && s[a] == '\0'
        invariant
            a <= s@.len(),
            trim_nul_start(s@.subrange(a as int, s@.len() as int)) == trim_nul_start(s@),
        decreases s@.len() - a,
    {
        assert(s@.subrange(a as int, s@.len() as int).drop_first() =~= s@.subrange(
            a + 1,
            s@.len() as int,
        ));
        a = a + 1;
    }
    assert(trim_nul_start(s@.subrange(a as int, s@.len() as int)) == s@.subrange(
        a as int,
        s@.len() as int,
    ));
    let mut b: usize = s.len();
    while b > a && s[b - 1] == '\0'
        invariant
            a <= b <= s@.len(),
            trim_nul_end(s@.subrange(a as int, b as int)) == trim_nuls(s@),
        decreases b,
    {
        assert(s@.subrange(a as int, b as int).drop_last() =~= s@.subrange(a as int, b - 1));
        b = b - 1;
    }
    (a, b)
}

fn recycle_units(buf: &[u8]) -> (r: Option<Vec<u16>>)
    requires
        buf@.len() >= 24,
    ensures
        r matches Some(u) ==> recycle_path_units(buf@) == Some(u@),
        r is None ==> recycle_path_units(buf@) is None,
{
    let ver = u64le(buf, 0);
    if ver == 2 && buf.len() >= 28 {
        let n = u32le(buf, 24);
        if n == 0 || (buf.len() as u64) < 28 + 2 * (n as u64) {
            return None;
        }
        let mut w: Vec<u16> = Vec::new();
        let mut i: usize = 0;
        while i < n as usize
            invariant
                n as int == le32(buf@, 24),
                28 + 2 * n <= buf.len(),
                i <= n,
                w@ == units_at(buf@, 28, n as nat).subrange(0, i as int),
            decreases n - i,
        {
            w.push(u16le(buf, 28 + 2 * i));
            i = i + 1;
            assert(w@ =~= units_at(buf@, 28, n as nat).subrange(0, i as int));
        }
        assert(units_at(buf@, 28, n as nat).subrange(0, n as int) =~= units_at(buf@, 28, n as nat));
        Some(w)
    } else if buf.len() >= 24 + 520 {
        let ghost all = units_at(buf@, 24, 260);
        let mut w: Vec<u16> = Vec::new();
        let mut k: usize = 0;
        assert(all.skip(0) =~= all);
        while k < 260 && u16le(buf, 24 + 2 * k) != 0
            invariant
                k <= 260,
                buf@.len() >= 544,
                all == units_at(buf@, 24, 260),
                units_until_nul(all) == w@ + units_until_nul(all.skip(k as int)),
            decreases 260 - k,
        {
            let u = u16le(buf, 24 + 2 * k);
            assert(all.skip(k as int)[0] == u);
            assert(all.skip(k as int).drop_first() =~= all.skip(k + 1));
            w.push(u);
            k = k + 1;
            assert(units_until_nul(all) =~= w@ + units_until_nul(all.skip(k as int)));
        }
        if k < 260 {
            assert(all.skip(k as int)[0] == 0);
        } else {
            assert(all.skip(260) =~= Seq::<u16>::empty());
        }
        assert(units_until_nul(all) =~= w@);
        Some(w)
    } else {
        None
    }
}

/// Reads a recycle bin `$I` metadata file: the original full path and the
/// deletion time in Unix seconds (both the version 1 and version 2 layouts).
pub fn parse_recycle_info_meta(buf: &[u8]) -> (r: Option<(String, u64)>)
    ensures
        r is Some <==> spec_recycle_meta(buf@) is Some,
        r matches Some(m) ==> (m.0@, m.1) == spec_recycle_meta(buf@)->0,
{
    if buf.len() < 24 {
        return None;
    }
    let ftime = u64le(buf, 16);
    let secs = ftime / 10_000_000;
    let unix = if secs >= 11_644_473_600 { secs - 11_644_473_600 } else { 0 };
    let wide = match recycle_units(buf) {
        Some(w) => w,
        None => return None,
    };
    let decoded = utf16_lossy(&wide);
    let (a, b) = trim_nul_bounds(&decoded);
    if a == b {
        return None;
    }
    let path = string_of(&decoded[a..b]);
    proof {
        assert(decoded@.subrange(a as int, b as int) == path@);
    }
    Some((path, unix))
}

// ===== Found-file records =====

/// The extension of a file name, lower-cased; empty when it has none.
pub open spec fn spec_ext_lower(name: Seq<char>) -> Seq<char> {
    match spec_split_name(name).1 {
        Some(e) => spec_to_lowercase(e),
        None => Seq::empty(),
    }
}

/// The lower-cased extension of a file name (empty when it has none).
pub fn ext_lower(name: &str) -> (r: String)
    ensures
        r@ == spec_ext_lower(name@),
{
    let (_stem, ext) = split_file_name(name);
    match ext {
        Some(e) => to_lowercase(e.as_str()),
        None => String::new(),
    }
}

/// The id of the `n`-th found file: `f-n`.
pub open spec fn spec_file_id(n: u64) -> Seq<char> {
    "f-"@ + decimal(n as nat)
}

/// The id of the `n`-th found file.
pub fn file_id(n: u64) -> (r: String)
    ensures
        r@ == spec_file_id(n),
{
    let mut v: Vec<char> = Vec::new();
    push_str_chars(&mut v, "f-");
    push_decimal(&mut v, n, 0);
    proof {
        crate::text::lemma_decimal_len(n as nat);
    }
    string_of(&v)
}

/// The record of an existing file found by a directory walk: none for an empty
/// file; otherwise the counter moves on by one and numbers the record.
pub fn make_found_file(
    counter: &mut u64,
    filename: String,
    filepath: String,
    size: u64,
    file_type: &str,
) -> (r: Option<FoundFile>)
    requires
        *old(counter) < u64::MAX,
    ensures
        size == 0 <==> r is None,
        r is None ==> *final(counter) == *old(counter),
        r matches Some(f) ==> {
            &&& *final(counter) == *old(counter) + 1
            &&& f.id@ == spec_file_id(*final(counter))
            &&& f.filename == filename
            &&& f.filepath == filepath
            &&& f.extension@ == spec_ext_lower(filename@)
            &&& f.size_bytes == size
            &&& f.file_type@ == file_type@
            &&& f.modified_time is None
            &&& !f.deleted
            &&& f.original_path is None
            &&& f.data_intact is None
        },
{
    if size == 0 {
        return None;
    }
    *counter = *counter + 1;
    let id = file_id(*counter);
    let extension = ext_lower(filename.as_str());
    Some(FoundFile::new_found(id, filename, filepath, extension, size, file_type.to_owned(), None, false))
}

/// The encoded path of a file in the recycle bin: `recycle://{data file}||{original name}`.
pub open spec fn spec_recycle_ref(r_path: Seq<char>, orig_name: Seq<char>) -> Seq<char> {
    "recycle://"@ + r_path + "||"@ + orig_name
}

/// The record of a file in the recycle bin: numbered by the counter, named by
/// its original name, dated by its deletion time, with its original path, and
/// marked intact (its data file exists).
pub fn recycle_found_file(
    counter: &mut u64,
    orig_path: String,
    orig_name: String,
    r_path: &str,
    size: u64,
    file_type: &str,
    unix: u64,
) -> (f: FoundFile)
    requires
        *old(counter) < u64::MAX,
    ensures
        *final(counter) == *old(counter) + 1,
        f.id@ == spec_file_id(*final(counter)),
        f.filename == orig_name,
        f.filepath@ == spec_recycle_ref(r_path@, orig_name@),
        f.extension@ == spec_ext_lower(orig_name@),
        f.size_bytes == size,
        f.file_type@ == file_type@,
        f.modified_time is Some <==> spec_timestamp_text(unix) is Some,
        f.modified_time matches Some(t) ==> t@ == spec_timestamp_text(unix)->0,
        f.deleted,
        f.original_path == Some(orig_path),
        f.data_intact == Some(true),
{
    *counter = *counter + 1;
    let id = file_id(*counter);
    let mut p: Vec<char> = Vec::new();
    push_str_chars(&mut p, "recycle://");
    push_str_chars(&mut p, r_path);
    push_str_chars(&mut p, "||");
    push_str_chars(&mut p, orig_name.as_str());
    let filepath = string_of(&p);
    let extension = ext_lower(orig_name.as_str());
    FoundFile {
        id,
        filename: orig_name,
        filepath,
        extension,
        size_bytes: size,
        file_type: file_type.to_owned(),
        modified_time: unix_to_string(unix),
        deleted: true,
        original_path: Some(orig_path),
        data_intact: Some(true),
    }
}

/// The name of the data file (`$R…`) that belongs to a metadata file (`$I…`);
/// `None` for a name that does not start with `$I` or is shorter than 3.
pub open spec fn spec_recycle_data_name(name: Seq<char>) -> Option<Seq<char>> {
    if name.len() >= 3 && name[0] == '$' && name[1] == 'I' {
        Some(seq!['$', 'R'] + name.subrange(2, name.len() as int))
    } else {
        None
    }
}

/// The data file (`$R…`) that a recycle bin metadata file (`$I…`) describes.
pub fn recycle_data_name(name: &str) -> (r: Option<String>)
    ensures
        r is Some <==> spec_recycle_data_name(name@) is Some,
        r matches Some(n) ==> n@ == spec_recycle_data_name(name@)->0,
{
    let cs = chars_of(name);
    if cs.len() < 3 || cs[0] != '$' || cs[1] != 'I' {
        return None;
    }
    let mut v: Vec<char> = Vec::new();
    v.push('$');
    v.push('R');
    let mut k: usize = 2;
    while k < cs.len()
        invariant
            2 <= k <= cs@.len(),
            cs@ == name@,
            v@ == seq!['$', 'R'] + cs@.subrange(2, k as int),
        decreases cs@.len() - k,
    {
        v.push(cs[k]);
        k = k + 1;
        assert(v@ =~= seq!['$', 'R'] + cs@.subrange(2, k as int));
    }
    Some(string_of(&v))
}

/// The characters of an optional text.
pub open spec fn opt_chars(o: Option<&str>) -> Option<Seq<char>> {
    match o {
        Some(t) => Some(t@),
        None => None,
    }
}

/// What a recycle bin scan keeps of a metadata file: its path and deletion time
/// when the file parses and, where a target directory is given, the path lies in it.
pub open spec fn spec_recycle_meta_in(buf: Seq<u8>, target: Option<Seq<char>>) -> Option<(Seq<char>, u64)> {
    match spec_recycle_meta(buf) {
        Some(m) => match target {
            Some(t) => if crate::paths::spec_path_under_dir(m.0, t) {
                Some(m)
            } else {
                None
            },
            None => Some(m),
        },
        None => None,
    }
}

/// Reads a recycle bin metadata file and keeps it only where its path lies in
/// `target` (when one is given); see [`spec_recycle_meta_in`].
pub fn recycle_meta_in(buf: &[u8], target: Option<&str>) -> (r: Option<(String, u64)>)
    ensures
        r is Some <==> spec_recycle_meta_in(buf@, opt_chars(target)) is Some,
        r matches Some(m) ==> (m.0@, m.1) == spec_recycle_meta_in(buf@, opt_chars(target))->0,
{
    let meta = parse_recycle_info_meta(buf);
    match meta {
        Some((path, unix)) => {
            match target {
                Some(t) => {
                    if crate::paths::path_under_dir(path.as_str(), t) {
                        Some((path, unix))
                    } else {
                        None
                    }
                },
                None => Some((path, unix)),
            }
        },
        None => None,
    }
}

/// Found files gathered for a caller that takes them in batches of
/// [`RESULT_BATCH`]: the files already handed on, followed by those waiting for
/// the next batch.
pub struct ResultBatcher {
    handed: Vec<FoundFile>,
    waiting: Vec<FoundFile>,
}

impl ResultBatcher {
    /// The files handed on so far, in the order they were gathered.
    pub closed spec fn handed_on(&self) -> Seq<FoundFile> {
        self.handed@
    }

    /// The files gathered since the last batch.
    pub closed spec fn pending(&self) -> Seq<FoundFile> {
        self.waiting@
    }

    /// Every file gathered, in order.
    pub open spec fn gathered(&self) -> Seq<FoundFile> {
        self.handed_on() + self.pending()
    }

    /// Fewer than a batch of files wait, and the count of all fits in `usize`.
    pub closed spec fn wf(&self) -> bool {
        &&& self.waiting@.len() < RESULT_BATCH
        &&& self.handed@.len() + self.waiting@.len() <= usize::MAX
    }

    /// Nothing gathered yet.
    pub fn new() -> (b: Self)
        ensures
            b.wf(),
            b.handed_on() == Seq::<FoundFile>::empty(),
            b.pending() == Seq::<FoundFile>::empty(),
    {
        ResultBatcher { handed: Vec::new(), waiting: Vec::new() }
    }

    /// How many files were gathered.
    pub fn count(&self) -> (n: usize)
        requires
            self.wf(),
        ensures
            n == self.gathered().len(),
    {
        self.handed.len() + self.waiting.len()
    }

    /// The files handed on so far.
    pub fn handed_files(&self) -> (r: &[FoundFile])
        ensures
            r@ == self.handed_on(),
    {
        self.handed.as_slice()
    }

    /// Gathers `f`. When that completes a batch, the waiting files are handed on
    /// and the result is where the batch starts in [`Self::handed_files`]: the
    /// batch is the last [`RESULT_BATCH`] files there.
    pub fn push(&mut self, f: FoundFile) -> (r: Option<usize>)
        requires
            old(self).wf(),
            old(self).gathered().len() < usize::MAX,
        ensures
            final(self).wf(),
            final(self).gathered() == old(self).gathered().push(f),
            r is Some <==> old(self).pending().len() + 1 == RESULT_BATCH,
            r matches Some(start) ==> {
                &&& start == old(self).handed_on().len()
                &&& final(self).handed_on() == old(self).gathered().push(f)
                &&& final(self).handed_on().len() - start == RESULT_BATCH
                &&& final(self).pending() == Seq::<FoundFile>::empty()
            },
            r is None ==> final(self).handed_on() == old(self).handed_on()
                && final(self).pending() == old(self).pending().push(f),
    {
        let ghost before = self.gathered();
        self.waiting.push(f);
        if self.waiting.len() >= RESULT_BATCH {
            let start = self.handed.len();
            self.handed.append(&mut self.waiting);
            assert(self.gathered() =~= before.push(f));
            Some(start)
        } else {
            assert(self.gathered() =~= before.push(f));
            None
        }
    }

    /// Hands on the files still waiting, if any: the result is where that last
    /// batch starts in [`Self::handed_files`].
    pub fn flush(&mut self) -> (r: Option<usize>)
        requires
            old(self).wf(),
        ensures
            final(self).wf(),
            final(self).handed_on() == old(self).gathered(),
            final(self).pending() == Seq::<FoundFile>::empty(),
            r is Some <==> old(self).pending().len() > 0,
            r matches Some(start) ==> start == old(self).handed_on().len(),
    {
        if self.waiting.len() == 0 {
            assert(self.handed@ =~= self.gathered());
            None
        } else {
            let start = self.handed.len();
            self.handed.append(&mut self.waiting);
            Some(start)
        }
    }

    /// The files handed on, once the batcher is no longer needed.
    pub fn into_files(self) -> (r: Vec<FoundFile>)
        ensures
            r@ == self.handed_on(),
    {
        self.handed
    }
}

// ===== Scan paths =====

/// The texts of a list of strings.
pub open spec fn texts(v: Seq<String>) -> Seq<Seq<char>> {
    v.map_values(|s: String| s@)
}

/// The valid (deduplicated, in first-seen order) and the missing paths among the
/// first `n` inputs, each normalised; inputs that are empty once normalised are
/// dropped. `kinds[i]` is what the normalised `inputs[i]` names on disk; on
/// Windows (`windows`) normalising also turns each `/` into `\`.
pub open spec fn spec_prepare(inputs: Seq<Seq<char>>, kinds: Seq<PathKind>, windows: bool, n: int) -> (
    Seq<Seq<char>>,
    Seq<Seq<char>>,
)
    decreases n,
{
    if n <= 0 {
        (Seq::empty(), Seq::empty())
    } else {
        let (valid, invalid) = spec_prepare(inputs, kinds, windows, n - 1);
        let m = spec_normalize_on(inputs[n - 1], windows);
        if m.len() == 0 {
            (valid, invalid)
        } else if kinds[n - 1] == PathKind::Missing {
            (valid, invalid.push(m))
        } else if valid.contains(m) {
            (valid, invalid)
        } else {
            (valid.push(m), invalid)
        }
    }
}

/// Whether `v` holds a string with the text of `s`.
fn contains_text(v: &Vec<String>, s: &String) -> (r: bool)
    ensures
        r == texts(v@).contains(s@),
{
    let mut k: usize = 0;
    while k < v.len()
        invariant
            k <= v@.len(),
            forall|j: int| 0 <= j < k ==> v@[j]@ != s@,
        decreases v@.len() - k,
    {
        if v[k] == *s {
            assert(texts(v@)[k as int] == s@);
            return true;
        }
        k = k + 1;
    }
    assert(!texts(v@).contains(s@)) by {
        if texts(v@).contains(s@) {
            let j = choose|j: int| 0 <= j < texts(v@).len() && texts(v@)[j] == s@;
            assert(v@[j]@ == s@);
        }
    }
    false
}

/// Normalises a batch of typed-in scan paths and sorts them into valid ones
/// (deduplicated, first seen first) and missing ones; `kinds[i]` is what the
/// normalised `inputs[i]` names on disk, and `windows` selects the Windows
/// normalisation (see [`spec_normalize_on`]).
pub fn prepare_scan_paths(inputs: Vec<String>, kinds: &[PathKind], windows: bool) -> (r: (Vec<String>, Vec<String>))
    requires
        kinds@.len() == inputs@.len(),
    ensures
        (texts(r.0@), texts(r.1@)) == spec_prepare(texts(inputs@), kinds@, windows, inputs@.len() as int),
{
    let ghost ins = texts(inputs@);
    let mut valid: Vec<String> = Vec::new();
    let mut invalid: Vec<String> = Vec::new();
    let mut i: usize = 0;
    while i < inputs.len()
        invariant
            kinds@.len() == inputs@.len(),
            ins == texts(inputs@),
            i <= inputs@.len(),
            (texts(valid@), texts(invalid@)) == spec_prepare(ins, kinds@, windows, i as int),
        decreases inputs@.len() - i,
    {
        let normalized = normalize_path_for(inputs[i].as_str(), windows);
        assert(ins[i as int] == inputs@[i as int]@);
        if normalized.as_str().is_empty() {
        } else if kinds[i] == PathKind::Missing {
            let ghost before = texts(invalid@);
            invalid.push(normalized);
            assert(texts(invalid@) =~= before.push(spec_normalize_on(ins[i as int], windows)));
        } else if contains_text(&valid, &normalized) {
        } else {
            let ghost before = texts(valid@);
            valid.push(normalized);
            assert(texts(valid@) =~= before.push(spec_normalize_on(ins[i as int], windows)));
        }
        i = i + 1;
    }
    (valid, invalid)
}

/// Whether `p` is the non-empty normalised text of one of the first `n` inputs
/// that does not name a missing path.
pub open spec fn from_present_input(
    inputs: Seq<Seq<char>>,
    kinds: Seq<PathKind>,
    windows: bool,
    n: int,
    p: Seq<char>,
) -> bool {
    exists|j: int|
        0 <= j < n && kinds[j] != PathKind::Missing && p.len() > 0 && #[trigger] spec_normalize_on(
            inputs[j],
            windows,
        ) == p
}

/// Law: the valid scan paths hold no path twice, and each is a non-empty
/// normalised input that does not name a missing path.
pub proof fn lemma_prepare_valid(inputs: Seq<Seq<char>>, kinds: Seq<PathKind>, windows: bool, n: int)
    requires
        0 <= n <= inputs.len(),
        kinds.len() == inputs.len(),
    ensures
        forall|a: int, b: int|
            0 <= a < b < spec_prepare(inputs, kinds, windows, n).0.len() ==> spec_prepare(
                inputs,
                kinds,
                windows,
                n,
            ).0[a] != spec_prepare(inputs, kinds, windows, n).0[b],
        forall|a: int|
            0 <= a < spec_prepare(inputs, kinds, windows, n).0.len() ==> from_present_input(
                inputs,
                kinds,
                windows,
                n,
                #[trigger] spec_prepare(inputs, kinds, windows, n).0[a],
            ),
    decreases n,
{
    if n > 0 {
        lemma_prepare_valid(inputs, kinds, windows, n - 1);
        let valid = spec_prepare(inputs, kinds, windows, n - 1).0;
        let m = spec_normalize_on(inputs[n - 1], windows);
        let out = spec_prepare(inputs, kinds, windows, n).0;
        assert forall|p: Seq<char>| from_present_input(inputs, kinds, windows, n - 1, p) implies
            from_present_input(inputs, kinds, windows, n, p) by {
            let j = choose|j: int|
                0 <= j < n - 1 && kinds[j] != PathKind::Missing && p.len() > 0
                    && #[trigger] spec_normalize_on(inputs[j], windows) == p;
            assert(spec_normalize_on(inputs[j], windows) == p);
        }
        if m.len() > 0 && kinds[n - 1] != PathKind::Missing && !valid.contains(m) {
            assert(out == valid.push(m));
            assert forall|a: int, b: int| 0 <= a < b < out.len() implies out[a] != out[b] by {
                if b == out.len() - 1 {
                    assert(out[a] == valid[a]);
                    if out[a] == out[b] {
                        assert(valid.contains(m));
                    }
                } else {
                    assert(out[a] == valid[a] && out[b] == valid[b]);
                }
            }
            assert forall|a: int| 0 <= a < out.len() implies from_present_input(
                inputs,
                kinds,
                windows,
                n,
                #[trigger] out[a],
            ) by {
                if a == out.len() - 1 {
                    assert(spec_normalize_on(inputs[n - 1], windows) == out[a]);
                } else {
                    assert(out[a] == valid[a]);
                    assert(from_present_input(inputs, kinds, windows, n - 1, valid[a]));
                }
            }
        } else {
            assert(out == valid);
            assert forall|a: int| 0 <= a < out.len() implies from_present_input(
                inputs,
                kinds,
                windows,
                n,
                #[trigger] out[a],
            ) by {
                assert(from_present_input(inputs, kinds, windows, n - 1, valid[a]));
            }
        }
    }
}

// ===== Names of recovered files =====

/// How many numbered names are tried before a recovery gives up.
pub const MAX_NAME_ATTEMPTS: u32 = 9999;

/// `name`, or `recovered.bin` for an empty name.
pub open spec fn spec_base_name(name: Seq<char>) -> Seq<char> {
    if name.len() == 0 {
        "recovered.bin"@
    } else {
        name
    }
}

/// The `n`-th name tried for a recovered file: the name itself for `n == 0`, else
/// `stem (n).ext`, or `stem (n)` without an extension.
pub open spec fn spec_candidate_name(name: Seq<char>, n: u32) -> Seq<char> {
    let base = spec_base_name(name);
    if n == 0 {
        base
    } else {
        let (stem, ext) = spec_split_name(base);
        let numbered = stem + " ("@ + decimal(n as nat) + ")"@;
        match ext {
            Some(e) => if e.len() == 0 {
                numbered
            } else {
                numbered + "."@ + e
            },
            None => numbered,
        }
    }
}

/// The `n`-th name to try when recovering a file called `name` (one path
/// component) into a directory: the name itself first, then `stem (1).ext`, …
pub fn candidate_file_name(name: &str, n: u32) -> (r: String)
    ensures
        r@ == spec_candidate_name(name@, n),
{
    let base = if name.is_empty() {
        "recovered.bin".to_owned()
    } else {
        name.to_owned()
    };
    if n == 0 {
        return base;
    }
    let (stem, ext) = split_file_name(base.as_str());
    let mut v: Vec<char> = Vec::new();
    push_str_chars(&mut v, stem.as_str());
    push_str_chars(&mut v, " (");
    push_decimal(&mut v, n as u64, 0);
    proof {
        crate::text::lemma_decimal_len(n as nat);
    }
    push_str_chars(&mut v, ")");
    match ext {
        Some(e) => {
            if !e.as_str().is_empty() {
                push_str_chars(&mut v, ".");
                push_str_chars(&mut v, e.as_str());
            }
        },
        None => {},
    }
    string_of(&v)
}

/// Why no free name was found for a recovered file.
#[derive(Debug, Clone, Copy, PartialEq, Eq, Structural)]
pub enum NameConflict {
    /// The name and its numbered forms up to `(9998)` are all taken.
    TooManyConflicts,
}

/// The lower-cased texts of a list of names.
pub open spec fn lowered_texts(v: Seq<String>) -> Seq<Seq<char>> {
    v.map_values(|s: String| spec_to_lowercase(s@))
}

/// Whether the name `cand` is taken among names whose lower-cased texts are
/// `lowered`: names are compared without regard to case, as the file systems of
/// Windows and macOS do by default.
pub open spec fn spec_name_taken(lowered: Seq<Seq<char>>, cand: Seq<char>) -> bool {
    lowered.contains(spec_to_lowercase(cand))
}

/// The first name that a recovery can write `name` under, given the lower-cased
/// names already present in the output directory: the name itself, else the
/// first of `stem (1).ext` … `stem (9998).ext` that is free.
pub open spec fn spec_free_name(name: Seq<char>, lowered: Seq<Seq<char>>, n: u32) -> Option<Seq<char>>
    decreases MAX_NAME_ATTEMPTS - n,
{
    if n >= MAX_NAME_ATTEMPTS {
        None
    } else if !spec_name_taken(lowered, spec_candidate_name(name, n)) {
        Some(spec_candidate_name(name, n))
    } else {
        spec_free_name(name, lowered, (n + 1) as u32)
    }
}

/// The name under which a recovered file is written into a directory that
/// already holds the files `existing`: never one of them, whatever the case of
/// its letters.
pub fn unique_dest_path(fname: &str, existing: &[String]) -> (r: Result<String, NameConflict>)
    ensures
        r is Ok <==> spec_free_name(fname@, lowered_texts(existing@), 0) is Some,
        r matches Ok(n) ==> n@ == spec_free_name(fname@, lowered_texts(existing@), 0)->0,
        r matches Ok(n) ==> forall|j: int|
            0 <= j < existing@.len() ==> spec_to_lowercase(#[trigger] existing@[j]@) != spec_to_lowercase(n@),
{
    let mut lowered: Vec<String> = Vec::new();
    let mut k: usize = 0;
    while k < existing.len()
        invariant
            k <= existing@.len(),
            lowered@.len() == k,
            forall|j: int| 0 <= j < k ==> lowered@[j]@ == spec_to_lowercase(#[trigger] existing@[j]@),
        decreases existing@.len() - k,
    {
        lowered.push(to_lowercase(existing[k].as_str()));
        k = k + 1;
    }
    assert(texts(lowered@) =~= lowered_texts(existing@));
    let mut n: u32 = 0;
    while n < MAX_NAME_ATTEMPTS
        invariant
            n <= MAX_NAME_ATTEMPTS,
            texts(lowered@) == lowered_texts(existing@),
            lowered@.len() == existing@.len(),
            spec_free_name(fname@, lowered_texts(existing@), 0) == spec_free_name(
                fname@,
                lowered_texts(existing@),
                n,
            ),
        decreases MAX_NAME_ATTEMPTS - n,
    {
        let cand = candidate_file_name(fname, n);
        let cand_lower = to_lowercase(cand.as_str());
        let mut k: usize = 0;
        let mut taken = false;
        while k < lowered.len()
            invariant
                k <= lowered@.len(),
                taken == (exists|j: int| 0 <= j < k && lowered@[j]@ == cand_lower@),
            decreases lowered@.len() - k,
        {
            if lowered[k] == cand_lower {
                taken = true;
            }
            k = k + 1;
        }
        let ghost lt = lowered_texts(existing@);
        proof {
            if taken {
                let j = choose|j: int| 0 <= j < lowered@.len() && lowered@[j]@ == cand_lower@;
                assert(texts(lowered@)[j] == cand_lower@);
                assert(lt[j] == spec_to_lowercase(cand@));
            } else {
                if lt.contains(spec_to_lowercase(cand@)) {
                    let j = choose|j: int| 0 <= j < lt.len() && lt[j] == spec_to_lowercase(cand@);
                    assert(texts(lowered@)[j] == lowered@[j]@);
                    assert(lowered@[j]@ == cand_lower@);
                }
            }
        }
        if !taken {
            proof {
                assert forall|j: int| 0 <= j < existing@.len() implies spec_to_lowercase(
                    #[trigger] existing@[j]@,
                ) != spec_to_lowercase(cand@) by {
                    assert(lt[j] == spec_to_lowercase(existing@[j]@));
                }
            }
            return Ok(cand);
        }
        n = n + 1;
    }
    Err(NameConflict::TooManyConflicts)
}

/// The name under which a file from the recycle bin is recovered: its original
/// name, or `fallback` when that is blank, with forbidden characters replaced.
pub open spec fn spec_recycle_dest_name(orig_name: Seq<char>, fallback: Seq<char>) -> Seq<char> {
    if crate::paths::trim_ws(orig_name).len() == 0 {
        spec_sanitize(fallback)
    } else {
        spec_sanitize(orig_name)
    }
}

/// The name under which a file from the recycle bin is recovered.
pub fn recycle_dest_name(orig_name: &str, fallback: &str) -> (r: String)
    ensures
        r@ == spec_recycle_dest_name(orig_name@, fallback@),
{
    let cs = chars_of(orig_name);
    let mut blank = true;
    let mut k: usize = 0;
    while k < cs.len()
        invariant
            k <= cs@.len(),
            cs@ == orig_name@,
            blank == (forall|j: int| 0 <= j < k ==> spec_is_whitespace(#[trigger] cs@[j])),
        decreases cs@.len() - k,
    {
        if !is_whitespace(cs[k]) {
            blank = false;
        }
        k = k + 1;
    }
    proof {
        lemma_trim_blank(orig_name@);
    }
    if blank {
        sanitize_filename(fallback)
    } else {
        sanitize_filename(orig_name)
    }
}

proof fn lemma_trim_start_blank(s: Seq<char>)
    ensures
        crate::paths::trim_start_ws(s).len() == 0 <==> (forall|j: int| 0 <= j < s.len() ==> spec_is_whitespace(#[trigger] s[j])),
        crate::paths::trim_start_ws(s).len() > 0 ==> !spec_is_whitespace(crate::paths::trim_start_ws(s)[0]),
    decreases s.len(),
{
    if s.len() > 0 && spec_is_whitespace(s[0]) {
        lemma_trim_start_blank(s.drop_first());
        assert forall|j: int| 0 <= j < s.len() - 1 implies s.drop_first()[j] == s[j + 1] by {}
        if crate::paths::trim_start_ws(s).len() == 0 {
            assert forall|j: int| 0 <= j < s.len() implies spec_is_whitespace(#[trigger] s[j]) by {
                if j > 0 {
                    assert(s[j] == s.drop_first()[j - 1]);
                }
            }
        }
    }
}

proof fn lemma_trim_end_nonempty(s: Seq<char>)
    requires
        s.len() > 0,
        !spec_is_whitespace(s[0]),
    ensures
        crate::paths::trim_end_ws(s).len() > 0,
    decreases s.len(),
{
    if spec_is_whitespace(s.last()) {
        assert(s.len() > 1);
        lemma_trim_end_nonempty(s.drop_last());
    }
}

proof fn lemma_trim_blank(s: Seq<char>)
    ensures
        crate::paths::trim_ws(s).len() == 0 <==> (forall|j: int| 0 <= j < s.len() ==> spec_is_whitespace(#[trigger] s[j])),
{
    lemma_trim_start_blank(s);
    let t = crate::paths::trim_start_ws(s);
    if t.len() > 0 {
        lemma_trim_end_nonempty(t);
    }
}

// ===== Paging of results =====

/// The default page size of a result request, and the largest one allowed.
pub const DEFAULT_PAGE: usize = 1000;
pub const MAX_PAGE: usize = 5000;

/// The bounds `[start, end)` of the page of a result list of `total` files that
/// a request for `offset` and `limit` covers: offset 0 and limit 1000 when not
/// given, the limit capped at 5000, both ends clamped to the list.
pub fn result_page(total: usize, offset: Option<usize>, limit: Option<usize>) -> (r: (usize, usize))
    ensures
        ({
            let o: int = match offset {
                Some(x) => x as int,
                None => 0,
            };
            let l: int = match limit {
                Some(x) => if x <= MAX_PAGE {
                    x as int
                } else {
                    MAX_PAGE as int
                },
                None => DEFAULT_PAGE as int,
            };
            let start = if o <= total {
                o
            } else {
                total as int
            };
            let end = if start + l <= total {
                start + l
            } else {
                total as int
            };
            r.0 == start && r.1 == end
        }),
{
    let o = match offset {
        Some(x) => x,
        None => 0,
    };
    let l = match limit {
        Some(x) => if x <= MAX_PAGE {
            x
        } else {
            MAX_PAGE
        },
        None => DEFAULT_PAGE,
    };
    let start = if o <= total {
        o
    } else {
        total
    };
    let end = if l <= total - start {
        start + l
    } else {
        total
    };
    (start, end)
}

// ===== The deep phase =====

/// The first of `dirs` on drive `drive` (its first character, upper-cased), by index.
pub open spec fn spec_dir_for_drive(dirs: Seq<Seq<char>>, drive: char, n: int) -> Option<int>
    decreases n,
{
    if n <= 0 {
        None
    } else {
        match spec_dir_for_drive(dirs, drive, n - 1) {
            Some(i) => Some(i),
            None => if dirs[n - 1].len() > 0 && crate::text::spec_ascii_upper(dirs[n - 1][0]) == drive {
                Some(n - 1)
            } else {
                None
            },
        }
    }
}

proof fn lemma_dir_for_drive_stable(dirs: Seq<Seq<char>>, drive: char, m: int, n: int)
    requires
        0 <= m <= n,
        spec_dir_for_drive(dirs, drive, m) is Some,
    ensures
        spec_dir_for_drive(dirs, drive, n) == spec_dir_for_drive(dirs, drive, m),
    decreases n - m,
{
    if n > m {
        lemma_dir_for_drive_stable(dirs, drive, m, n - 1);
    }
}

/// Which of the target directories a deep scan of drive `drive` is limited to:
/// the first that lies on that drive.
pub fn target_dir_for_drive(target_dirs: &[String], drive: char) -> (r: Option<usize>)
    ensures
        r is None <==> spec_dir_for_drive(texts(target_dirs@), drive, target_dirs@.len() as int) is None,
        r matches Some(i) ==> spec_dir_for_drive(texts(target_dirs@), drive, target_dirs@.len() as int)
            == Some(i as int) && i < target_dirs@.len(),
{
    let mut k: usize = 0;
    while k < target_dirs.len()
        invariant
            k <= target_dirs@.len(),
            spec_dir_for_drive(texts(target_dirs@), drive, k as int) is None,
        decreases target_dirs@.len() - k,
    {
        let cs = chars_of(target_dirs[k].as_str());
        assert(texts(target_dirs@)[k as int] == target_dirs@[k as int]@);
        if cs.len() > 0 && crate::text::ascii_upper(cs[0]) == drive {
            proof {
                assert(spec_dir_for_drive(texts(target_dirs@), drive, k + 1) == Some(k as int));
                lemma_dir_for_drive_stable(texts(target_dirs@), drive, k + 1, target_dirs@.len() as int);
            }
            return Some(k);
        }
        k = k + 1;
    }
    None
}

/// Whether a directory walk passes over a directory of this name: system
/// directories (`$…`, `System Volume Information`) and `node_modules`.
pub open spec fn spec_skip_dir(name: Seq<char>) -> bool {
    (name.len() > 0 && name[0] == '$') || name == "System Volume Information"@ || name == "node_modules"@
}

/// Whether a directory walk passes over a directory of this name.
pub fn skip_walk_dir(name: &str) -> (r: bool)
    ensures
        r == spec_skip_dir(name@),
{
    let cs = chars_of(name);
    if cs.len() > 0 && cs[0] == '$' {
        return true;
    }
    let svi = chars_of("System Volume Information");
    let nm = chars_of("node_modules");
    crate::text::chars_eq(&cs, &svi) || crate::text::chars_eq(&cs, &nm)
}

/// What a directory walk does with one entry of a directory it lists.
#[derive(Debug, Clone, Copy, PartialEq, Eq, Structural)]
pub enum WalkAction {
    /// Walk into the subdirectory, one level deeper.
    Descend,
    /// Report the file.
    Take,
    /// Pass over the entry.
    Skip,
}

/// The action for an entry of kind `kind` named `name`, listed in a directory
/// at depth `depth`: a subdirectory is walked unless its name is skipped or it
/// would lie deeper than [`MAX_WALK_DEPTH`]; a regular file is reported; anything
/// else (a missing entry, a device) is passed over.
pub open spec fn spec_walk_action(depth: u32, kind: PathKind, name: Seq<char>) -> WalkAction {
    match kind {
        PathKind::Dir => if !spec_skip_dir(name) && depth < MAX_WALK_DEPTH {
            WalkAction::Descend
        } else {
            WalkAction::Skip
        },
        PathKind::File => WalkAction::Take,
        PathKind::Missing => WalkAction::Skip,
    }
}

/// Whether a walk that reached a path at depth `depth` looks at it at all.
pub open spec fn spec_walk_visits(depth: u32) -> bool {
    depth <= MAX_WALK_DEPTH
}

/// Whether a walk that reached a path at depth `depth` looks at it.
pub fn walk_visits(depth: u32) -> (r: bool)
    ensures
        r == spec_walk_visits(depth),
{
    depth <= MAX_WALK_DEPTH
}

/// What a directory walk does with one listed entry (see [`spec_walk_action`]).
pub fn walk_entry_action(depth: u32, kind: PathKind, name: &str) -> (r: WalkAction)
    ensures
        r == spec_walk_action(depth, kind, name@),
{
    match kind {
        PathKind::Dir => {
            if !skip_walk_dir(name) && depth < MAX_WALK_DEPTH {
                WalkAction::Descend
            } else {
                WalkAction::Skip
            }
        },
        PathKind::File => WalkAction::Take,
        PathKind::Missing => WalkAction::Skip,
    }
}

/// Law: a walk never reaches a directory deeper than [`MAX_WALK_DEPTH`]: whenever it
/// descends from a visited directory, the subdirectory is visited too, and a
/// skipped name is never descended into.
pub proof fn lemma_walk_depth_bounded(depth: u32, kind: PathKind, name: Seq<char>)
    requires
        spec_walk_visits(depth),
    ensures
        spec_walk_action(depth, kind, name) == WalkAction::Descend ==> spec_walk_visits(
            (depth + 1) as u32,
        ) && !spec_skip_dir(name) && kind == PathKind::Dir,
{
}

/// How many of `files` are deleted ones.
pub open spec fn count_deleted_in(files: Seq<FoundFile>) -> nat
    decreases files.len(),
{
    if files.len() == 0 {
        0
    } else {
        count_deleted_in(files.drop_last()) + if files.last().deleted {
            1nat
        } else {
            0nat
        }
    }
}

proof fn lemma_count_deleted_le(files: Seq<FoundFile>)
    ensures
        count_deleted_in(files) <= files.len(),
    decreases files.len(),
{
    if files.len() > 0 {
        lemma_count_deleted_le(files.drop_last());
    }
}

/// The number of deleted files among `files`.
pub fn count_deleted(files: &[FoundFile]) -> (r: usize)
    ensures
        r == count_deleted_in(files@),
        r <= files@.len(),
{
    let mut n: usize = 0;
    let mut k: usize = 0;
    while k < files.len()
        invariant
            k <= files@.len(),
            n == count_deleted_in(files@.subrange(0, k as int)),
            n <= k,
        decreases files@.len() - k,
    {
        assert(files@.subrange(0, k + 1).drop_last() =~= files@.subrange(0, k as int));
        if files[k].deleted {
            n = n + 1;
        }
        k = k + 1;
    }
    assert(files@.subrange(0, k as int) =~= files@);
    n
}

/// `parts` joined with `sep` between them.
pub open spec fn spec_join(parts: Seq<Seq<char>>, sep: Seq<char>) -> Seq<char>
    decreases parts.len(),
{
    if parts.len() == 0 {
        Seq::empty()
    } else if parts.len() == 1 {
        parts[0]
    } else {
        spec_join(parts.drop_last(), sep) + sep + parts.last()
    }
}

/// The notes of a scan joined with `；`.
pub fn join_notes(notes: &[String]) -> (r: String)
    ensures
        r@ == spec_join(texts(notes@), "；"@),
{
    let mut v: Vec<char> = Vec::new();
    let mut k: usize = 0;
    while k < notes.len()
        invariant
            k <= notes@.len(),
            v@ == spec_join(texts(notes@).subrange(0, k as int), "；"@),
        decreases notes@.len() - k,
    {
        let ghost ts = texts(notes@).subrange(0, k + 1);
        assert(ts.drop_last() =~= texts(notes@).subrange(0, k as int));
        assert(ts.last() == notes@[k as int]@);
        if k > 0 {
            push_str_chars(&mut v, "；");
        } else {
            assert(v@ =~= Seq::<char>::empty());
        }
        push_str_chars(&mut v, notes[k].as_str());
        k = k + 1;
    }
    assert(texts(notes@).subrange(0, k as int) =~= texts(notes@));
    string_of(&v)
}

/// The message of a completed path scan: the number of paths, of existing and of
/// deleted files, and the notes of the deep phase after a warning sign.
pub open spec fn spec_completion_message(paths: nat, existing: nat, deleted: nat, notes: Seq<Seq<char>>) -> Seq<char> {
    let head = "完成! "@ + decimal(paths) + " 路径: "@ + decimal(existing) + " 个现存文件, "@
        + decimal(deleted) + " 个可恢复的已删除文件"@;
    if notes.len() == 0 {
        head
    } else {
        head + " | ⚠ "@ + spec_join(notes, "；"@)
    }
}

/// The message of a completed path scan.
pub fn completion_message(paths: usize, existing: usize, deleted: usize, notes: &[String]) -> (r: String)
    ensures
        r@ == spec_completion_message(paths as nat, existing as nat, deleted as nat, texts(notes@)),
{
    let mut v: Vec<char> = Vec::new();
    push_str_chars(&mut v, "完成! ");
    push_decimal(&mut v, paths as u64, 0);
    push_str_chars(&mut v, " 路径: ");
    push_decimal(&mut v, existing as u64, 0);
    push_str_chars(&mut v, " 个现存文件, ");
    push_decimal(&mut v, deleted as u64, 0);
    push_str_chars(&mut v, " 个可恢复的已删除文件");
    proof {
        crate::text::lemma_decimal_len(paths as nat);
        crate::text::lemma_decimal_len(existing as nat);
        crate::text::lemma_decimal_len(deleted as nat);
    }
    if notes.len() > 0 {
        push_str_chars(&mut v, " | ⚠ ");
        let joined = join_notes(notes);
        push_str_chars(&mut v, joined.as_str());
    }
    string_of(&v)
}

// ===== What a recovery request names =====

/// The encoded path of a file in the recycle bin starts with this.
pub const RECYCLE_PREFIX: &'static str = "recycle://";
/// The encoded path of a deleted file found in the MFT starts with this.
pub const NTFS_PREFIX: &'static str = "ntfs://";
/// The encoded path of a recycle-bin data file left after emptying the bin starts with this.
pub const RECYCLE_RESIDUE_PREFIX: &'static str = "recycleresidue://";

/// The first index from `i` on where `p` occurs in `s`.
pub open spec fn find_from(s: Seq<char>, p: Seq<char>, i: int) -> Option<int>
    decreases s.len() + 1 - i,
{
    if i < 0 || i + p.len() > s.len() {
        None
    } else if s.subrange(i, i + p.len()) == p {
        Some(i)
    } else {
        find_from(s, p, i + 1)
    }
}

/// `s` split around the first `||` (`str::split_once`).
pub open spec fn split_bars(s: Seq<char>) -> Option<(Seq<char>, Seq<char>)> {
    match find_from(s, "||"@, 0) {
        Some(i) => Some((s.subrange(0, i), s.subrange(i + 2, s.len() as int))),
        None => None,
    }
}

/// The text after the last separator of `s` (all of it when there is none).
pub open spec fn after_last_sep(s: Seq<char>) -> Seq<char> {
    s.subrange(crate::paths::last_sep(s) + 1, s.len() as int)
}

/// What a recovery request names.
#[derive(Debug, Clone)]
pub enum RecoverTarget {
    /// A data file in the recycle bin and the original name of the file.
    Recycle { data_path: String, original_name: String },
    /// A deleted file addressed by drive and MFT record (`ntfs://` or
    /// `recycleresidue://`), and its original full path (empty when unknown).
    Deleted { encoded: String, original_path: String },
    /// An existing file.
    Existing { path: String },
}

/// A parsed recovery request: its target, and the name to show for it.
#[derive(Debug, Clone)]
pub struct RecoverRequest {
    pub target: RecoverTarget,
    pub name_hint: String,
}

/// The target view: a tag (0 recycle, 1 deleted, 2 existing) and two texts.
pub open spec fn target_view(t: RecoverTarget) -> (int, Seq<char>, Seq<char>) {
    match t {
        RecoverTarget::Recycle { data_path, original_name } => (0, data_path@, original_name@),
        RecoverTarget::Deleted { encoded, original_path } => (1, encoded@, original_path@),
        RecoverTarget::Existing { path } => (2, path@, Seq::empty()),
    }
}

/// The part of a request after its id: what follows the first `||`, or all of it.
pub open spec fn request_body(fid: Seq<char>) -> Seq<char> {
    match split_bars(fid) {
        Some((_, rest)) => rest,
        None => fid,
    }
}

/// What a request `id||target` names: `recycle://{data}||{name}`, an `ntfs://` or
/// `recycleresidue://` reference optionally followed by `||{original path}`, or
/// the path of an existing file.
pub open spec fn spec_recover_target(fid: Seq<char>) -> (int, Seq<char>, Seq<char>) {
    let body = request_body(fid);
    if crate::text::has_prefix(body, "recycle://"@) {
        let rest = body.subrange(10, body.len() as int);
        match split_bars(rest) {
            Some((p, n)) => (0, p, n),
            None => (0, rest, Seq::empty()),
        }
    } else if crate::text::has_prefix(body, "ntfs://"@) || crate::text::has_prefix(body, "recycleresidue://"@) {
        match split_bars(body) {
            Some((src, orig)) => (1, src, orig),
            None => (1, body, Seq::empty()),
        }
    } else {
        (2, body, Seq::empty())
    }
}

/// The first `||` in `s[from..]`.
fn find_bars(s: &[char], from: usize) -> (r: Option<usize>)
    requires
        from <= s@.len(),
    ensures
        r is None ==> find_from(s@, "||"@, from as int) is None,
        r matches Some(i) ==> find_from(s@, "||"@, from as int) == Some(i as int) && i + 2 <= s.len(),
{
    proof {
        reveal_strlit("||");
    }
    let mut i = from;
    while s.len() >= 2 && i <= s.len() - 2
        invariant
            from <= i <= s@.len(),
            find_from(s@, "||"@, from as int) == find_from(s@, "||"@, i as int),
            "||"@ == seq!['|', '|'],
        decreases s@.len() - i,
    {
        if s[i] == '|' && s[i + 1] == '|' {
            assert(s@.subrange(i as int, i + 2) =~= "||"@);
            return Some(i);
        }
        assert(s@.subrange(i as int, i + 2) != "||"@) by {
            if s@.subrange(i as int, i + 2) == "||"@ {
                assert(s@.subrange(i as int, i + 2)[0] == '|');
                assert(s@.subrange(i as int, i + 2)[1] == '|');
            }
        }
        i = i + 1;
    }
    None
}

fn sub_chars(s: &[char], a: usize, b: usize) -> (r: Vec<char>)
    requires
        a <= b <= s@.len(),
    ensures
        r@ == s@.subrange(a as int, b as int),
{
    let mut v: Vec<char> = Vec::new();
    let mut k = a;
    while k < b
        invariant
            a <= k <= b <= s@.len(),
            v@ == s@.subrange(a as int, k as int),
        decreases b - k,
    {
        v.push(s[k]);
        k = k + 1;
        assert(v@ =~= s@.subrange(a as int, k as int));
    }
    v
}

fn sub_string(s: &[char], a: usize, b: usize) -> (r: String)
    requires
        a <= b <= s@.len(),
    ensures
        r@ == s@.subrange(a as int, b as int),
{
    string_of(&s[a..b])
}

/// Reads a recovery request `id||…`: what it names, and the name to report for
/// it (the text after the last separator of the part after the id).
pub fn parse_recover_request(fid: &str) -> (r: RecoverRequest)
    ensures
        target_view(r.target) == spec_recover_target(fid@),
        r.name_hint@ == after_last_sep(request_body(fid@)),
{
    let cs = chars_of(fid);
    let body: Vec<char> = match find_bars(&cs, 0) {
        Some(i) => sub_chars(&cs, i + 2, cs.len()),
        None => cs,
    };
    assert(body@ == request_body(fid@));
    let mut h = body.len();
    assert(body@.subrange(0, h as int) =~= body@);
    while h > 0 && body[h - 1] != '/' && body[h - 1] != '\\'
        invariant
            h <= body@.len(),
            crate::paths::last_sep(body@.subrange(0, h as int)) == crate::paths::last_sep(body@),
        decreases h,
    {
        assert(body@.subrange(0, h as int).drop_last() =~= body@.subrange(0, h - 1));
        h = h - 1;
    }
    proof {
        if h > 0 {
            assert(body@.subrange(0, h as int).last() == body@[h - 1]);
        } else {
            assert(body@.subrange(0, 0) =~= Seq::<char>::empty());
        }
        assert(crate::paths::last_sep(body@) == h - 1);
    }
    let name_hint = sub_string(&body, h, body.len());
    let rp = chars_of(RECYCLE_PREFIX);
    let np = chars_of(NTFS_PREFIX);
    let dp = chars_of(RECYCLE_RESIDUE_PREFIX);
    proof {
        reveal_strlit("recycle://");
    }
    let target = if crate::text::starts_with_chars(&body, &rp) {
        assert(rp@.len() == 10);
        let rest = sub_chars(&body, 10, body.len());
        assert(rest@ =~= body@.subrange(10, body@.len() as int));
        match find_bars(&rest, 0) {
            Some(i) => RecoverTarget::Recycle {
                data_path: sub_string(&rest, 0, i),
                original_name: sub_string(&rest, i + 2, rest.len()),
            },
            None => RecoverTarget::Recycle {
                data_path: string_of(&rest),
                original_name: String::new(),
            },
        }
    } else if crate::text::starts_with_chars(&body, &np) || crate::text::starts_with_chars(&body, &dp) {
        match find_bars(&body, 0) {
            Some(i) => RecoverTarget::Deleted {
                encoded: sub_string(&body, 0, i),
                original_path: sub_string(&body, i + 2, body.len()),
            },
            None => RecoverTarget::Deleted { encoded: string_of(&body), original_path: String::new() },
        }
    } else {
        RecoverTarget::Existing { path: string_of(&body) }
    };
    RecoverRequest { target, name_hint }
}

// ===== Messages of a path scan =====

/// `[{i}/{n}] 正在扫描: {name}`: the scan of the `i`-th of `n` paths starts.
pub open spec fn spec_path_start_message(i: nat, n: nat, name: Seq<char>) -> Seq<char> {
    seq!['['] + decimal(i) + seq!['/'] + decimal(n) + "] 正在扫描: "@ + name
}

/// The message with which the scan of the `i`-th of `n` paths starts.
pub fn path_start_message(i: usize, n: usize, name: &str) -> (r: String)
    ensures
        r@ == spec_path_start_message(i as nat, n as nat, name@),
{
    let mut v: Vec<char> = Vec::new();
    v.push('[');
    push_decimal(&mut v, i as u64, 0);
    v.push('/');
    push_decimal(&mut v, n as u64, 0);
    push_str_chars(&mut v, "] 正在扫描: ");
    push_str_chars(&mut v, name);
    proof {
        crate::text::lemma_decimal_len(i as nat);
        crate::text::lemma_decimal_len(n as nat);
    }
    assert(v@ =~= spec_path_start_message(i as nat, n as nat, name@));
    string_of(&v)
}

/// `[{i}/{n}] 完成: {name} — 累计 {total} 文件`: the `i`-th path is done, `total`
/// files found so far.
pub open spec fn spec_path_done_message(i: nat, n: nat, name: Seq<char>, total: nat) -> Seq<char> {
    seq!['['] + decimal(i) + seq!['/'] + decimal(n) + "] 完成: "@ + name + " — 累计 "@ + decimal(total)
        + " 文件"@
}

/// The message with which the scan of the `i`-th of `n` paths ends.
pub fn path_done_message(i: usize, n: usize, name: &str, total: usize) -> (r: String)
    ensures
        r@ == spec_path_done_message(i as nat, n as nat, name@, total as nat),
{
    let mut v: Vec<char> = Vec::new();
    v.push('[');
    push_decimal(&mut v, i as u64, 0);
    v.push('/');
    push_decimal(&mut v, n as u64, 0);
    push_str_chars(&mut v, "] 完成: ");
    push_str_chars(&mut v, name);
    push_str_chars(&mut v, " — 累计 ");
    push_decimal(&mut v, total as u64, 0);
    push_str_chars(&mut v, " 文件");
    proof {
        crate::text::lemma_decimal_len(i as nat);
        crate::text::lemma_decimal_len(n as nat);
        crate::text::lemma_decimal_len(total as nat);
    }
    assert(v@ =~= spec_path_done_message(i as nat, n as nat, name@, total as nat));
    string_of(&v)
}

/// `[{label}] 已扫描 {total} 个文件`: progress within one path.
pub open spec fn spec_walk_progress_message(label: Seq<char>, total: nat) -> Seq<char> {
    seq!['['] + label + "] 已扫描 "@ + decimal(total) + " 个文件"@
}

/// The progress message of the walk of one path.
pub fn walk_progress_message(label: &str, total: u64) -> (r: String)
    ensures
        r@ == spec_walk_progress_message(label@, total as nat),
{
    let mut v: Vec<char> = Vec::new();
    v.push('[');
    push_str_chars(&mut v, label);
    push_str_chars(&mut v, "] 已扫描 ");
    push_decimal(&mut v, total, 0);
    push_str_chars(&mut v, " 个文件");
    proof {
        crate::text::lemma_decimal_len(total as nat);
    }
    assert(v@ =~= spec_walk_progress_message(label@, total as nat));
    string_of(&v)
}

/// `进入深度恢复阶段: 扫描 {n} 个卷的回收站与已删除文件`: the deep phase starts on `n` volumes.
pub open spec fn spec_deep_start_message(volumes: nat) -> Seq<char> {
    "进入深度恢复阶段: 扫描 "@ + decimal(volumes) + " 个卷的回收站与已删除文件"@
}

/// The message with which the deep phase starts.
pub fn deep_start_message(volumes: usize) -> (r: String)
    ensures
        r@ == spec_deep_start_message(volumes as nat),
{
    let mut v: Vec<char> = Vec::new();
    push_str_chars(&mut v, "进入深度恢复阶段: 扫描 ");
    push_decimal(&mut v, volumes as u64, 0);
    push_str_chars(&mut v, " 个卷的回收站与已删除文件");
    proof {
        crate::text::lemma_decimal_len(volumes as nat);
    }
    string_of(&v)
}

/// `{source}: 已发现 {n} 个已删除文件`: progress of the recycle bin (`回收站`) or
/// MFT (`深度扫描`) stage.
pub open spec fn spec_deleted_found_message(source: Seq<char>, found: nat) -> Seq<char> {
    source + ": 已发现 "@ + decimal(found) + " 个已删除文件"@
}

/// The progress message of the recycle bin stage (`in_mft` false) or of the MFT stage.
pub fn deleted_found_message(in_mft: bool, found: usize) -> (r: String)
    ensures
        r@ == spec_deleted_found_message(if in_mft { "深度扫描"@ } else { "回收站"@ }, found as nat),
{
    let mut v: Vec<char> = Vec::new();
    if in_mft {
        push_str_chars(&mut v, "深度扫描");
    } else {
        push_str_chars(&mut v, "回收站");
    }
    push_str_chars(&mut v, ": 已发现 ");
    push_decimal(&mut v, found as u64, 0);
    push_str_chars(&mut v, " 个已删除文件");
    proof {
        crate::text::lemma_decimal_len(found as nat);
    }
    string_of(&v)
}

/// `已恢复: {name}` after a file was recovered, `失败 {name}: {reason}` after it failed.
pub open spec fn spec_recover_message(name: Seq<char>, failure: Option<Seq<char>>) -> Seq<char> {
    match failure {
        None => "已恢复: "@ + name,
        Some(reason) => "失败 "@ + name + ": "@ + reason,
    }
}

/// The progress message of a recovery, for one file.
pub fn recover_message(name: &str, failure: Option<&str>) -> (r: String)
    ensures
        r@ == spec_recover_message(
            name@,
            match failure {
                Some(f) => Some(f@),
                None => None,
            },
        ),
{
    let mut v: Vec<char> = Vec::new();
    match failure {
        None => {
            push_str_chars(&mut v, "已恢复: ");
            push_str_chars(&mut v, name);
        },
        Some(reason) => {
            push_str_chars(&mut v, "失败 ");
            push_str_chars(&mut v, name);
            push_str_chars(&mut v, ": ");
            push_str_chars(&mut v, reason);
        },
    }
    string_of(&v)
}

/// How many result files a scan event carries: all of them up to the cap.
pub fn preview_len(total: usize) -> (r: usize)
    ensures
        r == (if total <= EVENT_RESULT_CAP { total } else { EVENT_RESULT_CAP }),
{
    if total <= EVENT_RESULT_CAP {
        total
    } else {
        EVENT_RESULT_CAP
    }
}

} // verus!
