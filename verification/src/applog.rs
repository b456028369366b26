//! The application's run log: the text of a log line, when the log file is cut
//! back, and the tail of the log that the trouble-shooting panel shows.
use vstd::prelude::*;
use crate::datetime::{civil, civil_from_days, lemma_civil_valid};
use crate::text::{decimal_padded, push_decimal, push_str_chars, string_of};

verus! {

/// The log file is cut back to its second half once it is larger than 2 MiB.
pub const MAX_LOG_BYTES: u64 = 2097152;

/// The log shows local time, 8 hours ahead of UTC.
pub const LOCAL_OFFSET_SECS: u64 = 28800;

/// A log line: `[YYYY-MM-DD HH:MM:SS.mmm] [LEVEL] message` and a newline, the
/// time being `secs` Unix seconds (and `millis` milliseconds) shifted to UTC+8.
pub open spec fn spec_log_line(secs: u64, millis: u32, level: Seq<char>, message: Seq<char>) -> Seq<char> {
    let local = secs + LOCAL_OFFSET_SECS;
    let days = local / 86400;
    let sod = local % 86400;
    let (y, mo, d) = civil(days as int);
    seq!['['] + decimal_padded(y as nat, 4) + seq!['-'] + decimal_padded(mo as nat, 2) + seq!['-']
        + decimal_padded(d as nat, 2) + seq![' '] + decimal_padded((sod / 3600) as nat, 2) + seq![':']
        + decimal_padded(((sod % 3600) / 60) as nat, 2) + seq![':'] + decimal_padded((sod % 60) as nat, 2)
        + seq!['.'] + decimal_padded(millis as nat, 3) + "] ["@ + level + "] "@ + message + seq!['\n']
}

/// The text of a log line.
pub fn log_line(secs: u64, millis: u32, level: &str, message: &str) -> (r: String)
    requires
        secs + LOCAL_OFFSET_SECS <= u64::MAX,
    ensures
        r@ == spec_log_line(secs, millis, level@, message@),
{
    let local = secs + LOCAL_OFFSET_SECS;
    let days = local / 86400;
    let sod = local % 86400;
    let (y, mo, d) = civil_from_days(days as i64);
    assert(y >= 0) by (nonlinear_arith)
        requires
            y == civil(days as int).0,
            days >= 0,
    {
        let z = days + 719468;
        let era = z / 146097;
        assert(era >= 0);
        let doe = z - era * 146097;
        assert(0 <= doe < 146097);
        crate::datetime::lemma_era_ranges(doe);
    }
    let mut v: Vec<char> = Vec::new();
    v.push('[');
    push_decimal(&mut v, y as u64, 4);
    v.push('-');
    push_decimal(&mut v, mo as u64, 2);
    v.push('-');
    push_decimal(&mut v, d as u64, 2);
    v.push(' ');
    push_decimal(&mut v, sod / 3600, 2);
    v.push(':');
    push_decimal(&mut v, (sod % 3600) / 60, 2);
    v.push(':');
    push_decimal(&mut v, sod % 60, 2);
    v.push('.');
    push_decimal(&mut v, millis as u64, 3);
    push_str_chars(&mut v, "] [");
    push_str_chars(&mut v, level);
    push_str_chars(&mut v, "] ");
    push_str_chars(&mut v, message);
    v.push('\n');
    assert(v@ =~= spec_log_line(secs, millis, level@, message@));
    string_of(&v)
}

/// Where a log file of `len` bytes is cut: `None` while it is at most 2 MiB,
/// else from its middle on (`len / 2`).
pub fn log_cut_point(len: u64) -> (r: Option<u64>)
    ensures
        len <= MAX_LOG_BYTES ==> r is None,
        len > MAX_LOG_BYTES ==> r == Some((len / 2) as u64),
{
    if len > MAX_LOG_BYTES {
        Some(len / 2)
    } else {
        None
    }
}

/// `line` without one trailing carriage return.
pub open spec fn strip_cr(line: Seq<char>) -> Seq<char> {
    if line.len() > 0 && line.last() == '\r' {
        line.drop_last()
    } else {
        line
    }
}

/// The complete lines among the first `n` characters of `s` (each without its
/// `\n`, and without a `\r` before it) and the line that is still open.
pub open spec fn lines_upto(s: Seq<char>, n: int) -> (Seq<Seq<char>>, Seq<char>)
    decreases n,
{
    if n <= 0 {
        (Seq::empty(), Seq::empty())
    } else {
        let (done, cur) = lines_upto(s, n - 1);
        if s[n - 1] == '\n' {
            (done.push(strip_cr(cur)), Seq::empty())
        } else {
            (done, cur.push(s[n - 1]))
        }
    }
}

/// The lines of a text (`str::lines`): split at each `\n` (a `\r` before it is
/// dropped), the last line counted only when it is not empty.
pub open spec fn spec_lines(s: Seq<char>) -> Seq<Seq<char>> {
    let (done, cur) = lines_upto(s, s.len() as int);
    if cur.len() == 0 {
        done
    } else {
        done.push(cur)
    }
}

/// How many log lines the panel shows: 200 unless asked, and at least 10.
pub open spec fn spec_tail_count(tail: Option<usize>) -> nat {
    let n = match tail {
        Some(t) => t as nat,
        None => 200,
    };
    if n >= 10 {
        n
    } else {
        10
    }
}

/// The last `count` lines of `lines` (all of them when there are fewer), in order.
pub open spec fn last_lines(lines: Seq<Seq<char>>, count: nat) -> Seq<Seq<char>> {
    if lines.len() <= count {
        lines
    } else {
        lines.subrange(lines.len() - count, lines.len() as int)
    }
}

/// The lines of the log that the panel shows: its last lines (200 unless
/// another count is asked, at least 10), oldest first.
pub fn log_tail(content: &str, tail: Option<usize>) -> (r: Vec<String>)
    ensures
        crate::scan::texts(r@) == last_lines(spec_lines(content@), spec_tail_count(tail)),
{
    let cs = crate::text::chars_of(content);
    let mut done: Vec<String> = Vec::new();
    let mut cur: Vec<char> = Vec::new();
    let mut k: usize = 0;
    while k < cs.len()
        invariant
            k <= cs@.len(),
            cs@ == content@,
            (crate::scan::texts(done@), cur@) == lines_upto(cs@, k as int),
        decreases cs@.len() - k,
    {
        let c = cs[k];
        if c == '\n' {
            let ghost before = crate::scan::texts(done@);
            let ghost cur0 = cur@;
            if cur.len() > 0 && cur[cur.len() - 1] == '\r' {
                cur.pop();
            }
            assert(cur@ == strip_cr(cur0));
            done.push(string_of(&cur));
            assert(crate::scan::texts(done@) =~= before.push(strip_cr(cur0)));
            cur = Vec::new();
        } else {
            cur.push(c);
        }
        k = k + 1;
    }
    if cur.len() > 0 {
        let ghost before = crate::scan::texts(done@);
        done.push(string_of(&cur));
        assert(crate::scan::texts(done@) =~= before.push(cur@));
    }
    let n = match tail {
        Some(t) => t,
        None => 200,
    };
    let count = if n >= 10 { n } else { 10 };
    let total = done.len();
    let from = if total <= count { 0 } else { total - count };
    let mut out: Vec<String> = Vec::new();
    let mut q = from;
    while q < total
        invariant
            from <= q <= total == done@.len(),
            crate::scan::texts(out@) == crate::scan::texts(done@).subrange(from as int, q as int),
        decreases total - q,
    {
        let ghost before = crate::scan::texts(out@);
        let line = done[q].clone();
        assert(line@ == done@[q as int]@);
        out.push(line);
        assert(crate::scan::texts(out@) =~= before.push(done@[q as int]@));
        assert(crate::scan::texts(out@) =~= crate::scan::texts(done@).subrange(from as int, q + 1));
        q = q + 1;
    }
    assert(crate::scan::texts(done@).subrange(0, total as int) =~= crate::scan::texts(done@));
    out
}

} // verus!
