//! Windows path text: directory containment, normalisation of typed-in paths,
//! drive letters, and splitting a file name into stem and extension.
use vstd::prelude::*;
use crate::text::{
    chars_eq, chars_of, has_prefix, is_whitespace, spec_ascii_upper, spec_is_ascii_alpha,
    spec_is_whitespace, spec_to_lowercase, starts_with_chars, string_of, to_lowercase,
    ascii_upper,
};

verus! {

pub open spec fn is_sep(c: char) -> bool {
    c == '\\' || c == '/'
}

/// `s` without its trailing separators.
pub open spec fn trim_end_seps(s: Seq<char>) -> Seq<char>
    decreases s.len(),
{
    if s.len() > 0 && is_sep(s.last()) {
        trim_end_seps(s.drop_last())
    } else {
        s
    }
}

/// The index of the last separator of `s`, or -1.
pub open spec fn last_sep(s: Seq<char>) -> int
    decreases s.len(),
{
    if s.len() == 0 {
        -1
    } else if is_sep(s.last()) {
        s.len() - 1
    } else {
        last_sep(s.drop_last())
    }
}

/// Whether the (lower-cased) directory text `dir` is the directory `t` or one
/// below it: it equals `t`, or starts with `t` followed by `\` or `/`.
pub open spec fn spec_dir_under(dir: Seq<char>, t: Seq<char>) -> bool {
    dir == t || has_prefix(dir, t.push('\\')) || has_prefix(dir, t.push('/'))
}

/// Whether the file at `full` lies in the directory `target` or below it, comparing
/// lower-cased text: the target without trailing separators (an empty one contains
/// everything) against the part of `full` before its last separator, which must
/// be that directory or one below it ([`spec_dir_under`]).
pub open spec fn spec_path_under_dir(full: Seq<char>, target: Seq<char>) -> bool {
    let t = spec_to_lowercase(trim_end_seps(target));
    if t.len() == 0 {
        true
    } else if last_sep(full) < 0 {
        false
    } else {
        spec_dir_under(spec_to_lowercase(full.subrange(0, last_sep(full))), t)
    }
}

/// Whether the directory text `dir` is `target` or a directory below it, both
/// already lower-cased (see [`spec_dir_under`]).
pub fn dir_under_lowered(dir: &str, target: &str) -> (r: bool)
    ensures
        r == spec_dir_under(dir@, target@),
{
    let d = chars_of(dir);
    let t = chars_of(target);
    if chars_eq(&d, &t) {
        return true;
    }
    let mut back = t.clone();
    back.push('\\');
    let mut fwd = t.clone();
    fwd.push('/');
    starts_with_chars(&d, &back) || starts_with_chars(&d, &fwd)
}

proof fn lemma_last_sep_range(s: Seq<char>)
    ensures
        -1 <= last_sep(s) < s.len(),
        last_sep(s) >= 0 ==> is_sep(s[last_sep(s)]),
        forall|j: int| last_sep(s) < j < s.len() ==> !is_sep(#[trigger] s[j]),
    decreases s.len(),
{
    if s.len() > 0 && !is_sep(s.last()) {
        lemma_last_sep_range(s.drop_last());
        assert forall|j: int| last_sep(s) < j < s.len() implies !is_sep(#[trigger] s[j]) by {
            if j < s.len() - 1 {
                assert(s[j] == s.drop_last()[j]);
            }
        }
    }
}

/// Whether the file at `full_path` lies inside `target_dir` (or a directory below it).
/// Windows paths: case does not matter and both `\` and `/` separate.
pub fn path_under_dir(full_path: &str, target_dir: &str) -> (r: bool)
    ensures
        r == spec_path_under_dir(full_path@, target_dir@),
{
    let tc = chars_of(target_dir);
    let mut k = tc.len();
    assert(tc@.subrange(0, k as int) =~= tc@);
    while k > 0 && (tc[k - 1] == '\\' || tc[k - 1] == '/')
        invariant
            k <= tc@.len(),
            tc@ == target_dir@,
            trim_end_seps(tc@.subrange(0, k as int)) == trim_end_seps(tc@),
        decreases k,
    {
        assert(tc@.subrange(0, k as int).drop_last() =~= tc@.subrange(0, k - 1));
        k = k - 1;
    }
    assert(trim_end_seps(tc@.subrange(0, k as int)) == tc@.subrange(0, k as int));
    let trimmed = string_of(&tc[0..k]);
    let t = chars_of(&to_lowercase(&trimmed));
    if t.len() == 0 {
        return true;
    }
    let fc = chars_of(full_path);
    let mut i = fc.len();
    assert(fc@.subrange(0, i as int) =~= fc@);
    while i > 0 && !(fc[i - 1] == '\\' || fc[i - 1] == '/')
        invariant
            i <= fc@.len(),
            fc@ == full_path@,
            last_sep(fc@.subrange(0, i as int)) == last_sep(fc@),
        decreases i,
    {
        assert(fc@.subrange(0, i as int).drop_last() =~= fc@.subrange(0, i - 1));
        i = i - 1;
    }
    if i == 0 {
        assert(last_sep(fc@.subrange(0, 0)) == -1);
        return false;
    }
    assert(fc@.subrange(0, i as int).last() == fc@[i - 1]);
    assert(last_sep(fc@) == i - 1);
    let dir_text = string_of(&fc[0..i - 1]);
    let dir = to_lowercase(&dir_text);
    let target = string_of(&t);
    dir_under_lowered(dir.as_str(), target.as_str())
}

/// Law: with an empty target (or one made only of separators) every path is inside it.
pub proof fn lemma_under_empty_target(full: Seq<char>, target: Seq<char>)
    requires
        spec_to_lowercase(trim_end_seps(target)).len() == 0,
    ensures
        spec_path_under_dir(full, target),
{
}

/// Law: a file named directly in a directory lies inside that directory.
pub proof fn lemma_child_under_dir(dir: Seq<char>, name: Seq<char>)
    requires
        dir.len() > 0,
        !is_sep(dir.last()),
        forall|j: int| 0 <= j < name.len() ==> !is_sep(#[trigger] name[j]),
    ensures
        spec_path_under_dir(dir.push('\\') + name, dir),
{
    let full = dir.push('\\') + name;
    lemma_last_sep_full(dir, name);
    assert(full.subrange(0, dir.len() as int) =~= dir);
    assert(trim_end_seps(dir) == dir);
}

proof fn lemma_last_sep_full(dir: Seq<char>, name: Seq<char>)
    requires
        forall|j: int| 0 <= j < name.len() ==> !is_sep(#[trigger] name[j]),
    ensures
        last_sep(dir.push('\\') + name) == dir.len(),
    decreases name.len(),
{
    let full = dir.push('\\') + name;
    if name.len() == 0 {
        assert(full =~= dir.push('\\'));
    } else {
        assert(full.drop_last() =~= dir.push('\\') + name.drop_last());
        assert(!is_sep(name.last()));
        lemma_last_sep_full(dir, name.drop_last());
    }
}

// ===== Typed-in paths =====

/// `s` without leading whitespace.
pub open spec fn trim_start_ws(s: Seq<char>) -> Seq<char>
    decreases s.len(),
{
    if s.len() > 0 && spec_is_whitespace(s[0]) {
        trim_start_ws(s.drop_first())
    } else {
        s
    }
}

/// `s` without trailing whitespace.
pub open spec fn trim_end_ws(s: Seq<char>) -> Seq<char>
    decreases s.len(),
{
    if s.len() > 0 && spec_is_whitespace(s.last()) {
        trim_end_ws(s.drop_last())
    } else {
        s
    }
}

/// `s` without leading and trailing whitespace (`str::trim`).
pub open spec fn trim_ws(s: Seq<char>) -> Seq<char> {
    trim_end_ws(trim_start_ws(s))
}

/// `s` without one pair of surrounding double quotes, when it has them.
pub open spec fn unquote(s: Seq<char>) -> Seq<char> {
    if s.len() >= 2 && s[0] == '"' && s.last() == '"' {
        s.subrange(1, s.len() - 1)
    } else {
        s
    }
}

/// A typed-in path, trimmed of surrounding whitespace and of one pair of surrounding quotes.
pub open spec fn spec_normalize(s: Seq<char>) -> Seq<char> {
    unquote(trim_ws(s))
}

/// [`spec_normalize`] with every `/` turned into `\`.
pub open spec fn spec_normalize_windows(s: Seq<char>) -> Seq<char> {
    let n = spec_normalize(s);
    Seq::new(n.len(), |i: int| if n[i] == '/' { '\\' } else { n[i] })
}

/// The characters `[start, end)` of `s` after trimming, found in `s` itself.
fn trim_bounds(s: &Vec<char>) -> (r: (usize, usize))
    ensures
        r.0 <= r.1 <= s@.len(),
        s@.subrange(r.0 as int, r.1 as int) == trim_ws(s@),
{
    let mut a: usize = 0;
    assert(s@.subrange(0, s@.len() as int) =~= s@);
    while a < s.len() && is_whitespace(s[a])
        invariant
            a <= s@.len(),
            trim_start_ws(s@.subrange(a as int, s@.len() as int)) == trim_start_ws(s@),
        decreases s@.len() - a,
    {
        assert(s@.subrange(a as int, s@.len() as int).drop_first() =~= s@.subrange(
            a + 1,
            s@.len() as int,
        ));
        a = a + 1;
    }
    assert(trim_start_ws(s@.subrange(a as int, s@.len() as int)) == s@.subrange(
        a as int,
        s@.len() as int,
    ));
    let mut b: usize = s.len();
    while b > a && is_whitespace(s[b - 1])
        invariant
            a <= b <= s@.len(),
            trim_end_ws(s@.subrange(a as int, b as int)) == trim_ws(s@),
        decreases b,
    {
        assert(s@.subrange(a as int, b as int).drop_last() =~= s@.subrange(a as int, b - 1));
        b = b - 1;
    }
    (a, b)
}

fn normalized_chars(input: &str) -> (v: Vec<char>)
    ensures
        v@ == spec_normalize(input@),
{
    let s = chars_of(input);
    let (a, b) = trim_bounds(&s);
    let mut lo = a;
    let mut hi = b;
    if b - a >= 2 && s[a] == '"' && s[b - 1] == '"' {
        lo = a + 1;
        hi = b - 1;
    }
    let mut v: Vec<char> = Vec::new();
    let mut k = lo;
    while k < hi
        invariant
            lo <= k <= hi <= s@.len(),
            v@ == s@.subrange(lo as int, k as int),
        decreases hi - k,
    {
        v.push(s[k]);
        k = k + 1;
        assert(v@ =~= s@.subrange(lo as int, k as int));
    }
    assert(v@ =~= spec_normalize(input@));
    v
}

/// Normalises a typed-in path: trims surrounding whitespace and one pair of
/// surrounding double quotes.
pub fn normalize_path_input(input: &str) -> (r: String)
    ensures
        r@ == spec_normalize(input@),
{
    let v = normalized_chars(input);
    string_of(&v)
}

/// [`normalize_path_input`] for Windows, which also turns each `/` into `\`.
pub fn normalize_path_input_windows(input: &str) -> (r: String)
    ensures
        r@ == spec_normalize_windows(input@),
{
    let v = normalized_chars(input);
    let mut w: Vec<char> = Vec::new();
    let mut k: usize = 0;
    while k < v.len()
        invariant
            k <= v@.len(),
            w@ =~= spec_normalize_windows(input@).subrange(0, k as int),
            v@ == spec_normalize(input@),
        decreases v@.len() - k,
    {
        w.push(if v[k] == '/' { '\\' } else { v[k] });
        k = k + 1;
    }
    assert(spec_normalize_windows(input@).subrange(0, v@.len() as int) =~= spec_normalize_windows(input@));
    string_of(&w)
}

/// Normalisation of a typed-in path on the system at hand: on Windows
/// (`windows`) also every `/` becomes `\`.
pub open spec fn spec_normalize_on(s: Seq<char>, windows: bool) -> Seq<char> {
    if windows {
        spec_normalize_windows(s)
    } else {
        spec_normalize(s)
    }
}

/// Normalises a typed-in path as [`spec_normalize_on`] says.
pub fn normalize_path_for(input: &str, windows: bool) -> (r: String)
    ensures
        r@ == spec_normalize_on(input@, windows),
{
    if windows {
        normalize_path_input_windows(input)
    } else {
        normalize_path_input(input)
    }
}

// ===== Drive letters =====

/// The drive letter of an absolute drive path (`X:...`), upper-cased.
pub open spec fn drive_of(p: Seq<char>) -> Option<char> {
    if p.len() >= 2 && spec_is_ascii_alpha(p[0]) && p[1] == ':' {
        Some(spec_ascii_upper(p[0]))
    } else {
        None
    }
}

/// The drive letters of `paths`, each once, in order of first appearance.
pub open spec fn spec_drive_letters(paths: Seq<Seq<char>>) -> Seq<char>
    decreases paths.len(),
{
    if paths.len() == 0 {
        Seq::empty()
    } else {
        let prev = spec_drive_letters(paths.drop_last());
        match drive_of(paths.last()) {
            Some(c) => if prev.contains(c) { prev } else { prev.push(c) },
            None => prev,
        }
    }
}

/// The distinct upper-case drive letters of the absolute drive paths among `paths`.
pub fn drive_letters_of(paths: &[String]) -> (out: Vec<char>)
    ensures
        out@ == spec_drive_letters(paths@.map_values(|p: String| p@)),
{
    let ghost views = paths@.map_values(|p: String| p@);
    let mut out: Vec<char> = Vec::new();
    let mut k: usize = 0;
    while k < paths.len()
        invariant
            k <= paths@.len(),
            views == paths@.map_values(|p: String| p@),
            out@ == spec_drive_letters(views.subrange(0, k as int)),
        decreases paths@.len() - k,
    {
        assert(views.subrange(0, k + 1).drop_last() =~= views.subrange(0, k as int));
        let cs = chars_of(paths[k].as_str());
        if cs.len() >= 2 && cs[1] == ':' && (('a' <= cs[0] && cs[0] <= 'z') || ('A' <= cs[0]
            && cs[0] <= 'Z')) {
            let c = ascii_upper(cs[0]);
            let mut seen = false;
            let mut j: usize = 0;
            while j < out.len()
                invariant
                    j <= out@.len(),
                    seen == out@.subrange(0, j as int).contains(c),
                decreases out@.len() - j,
            {
                let ghost pre = out@.subrange(0, j as int);
                assert(out@.subrange(0, j + 1) =~= pre.push(out@[j as int]));
                if out[j] == c {
                    seen = true;
                    assert(pre.push(out@[j as int])[j as int] == c);
                } else {
                    assert(pre.push(out@[j as int]).contains(c) ==> pre.contains(c)) by {
                        if pre.push(out@[j as int]).contains(c) {
                            let q = choose|q: int| 0 <= q < j + 1 && pre.push(out@[j as int])[q] == c;
                            assert(q < j);
                            assert(pre[q] == c);
                        }
                    }
                    assert(pre.contains(c) ==> pre.push(out@[j as int]).contains(c)) by {
                        if pre.contains(c) {
                            let q = choose|q: int| 0 <= q < j && pre[q] == c;
                            assert(pre.push(out@[j as int])[q] == c);
                        }
                    }
                }
                j = j + 1;
            }
            assert(out@.subrange(0, out@.len() as int) =~= out@);
            if !seen {
                out.push(c);
            }
        }
        k = k + 1;
    }
    assert(views.subrange(0, paths@.len() as int) =~= views);
    out
}

/// Law: the drive letters come out once each, as upper-case ASCII letters, and
/// the drive of every drive path is among them.
pub proof fn lemma_drive_letters(paths: Seq<Seq<char>>)
    ensures
        spec_drive_letters(paths).no_duplicates(),
        forall|i: int|
            0 <= i < spec_drive_letters(paths).len() ==> 'A' <= #[trigger] spec_drive_letters(
                paths,
            )[i] <= 'Z',
        forall|i: int|
            0 <= i < paths.len() && (#[trigger] drive_of(paths[i])) is Some
                ==> spec_drive_letters(paths).contains(drive_of(paths[i])->0),
    decreases paths.len(),
{
    if paths.len() > 0 {
        let init = paths.drop_last();
        lemma_drive_letters(init);
        let prev = spec_drive_letters(init);
        assert forall|i: int|
            0 <= i < paths.len() && (#[trigger] drive_of(paths[i])) is Some implies spec_drive_letters(
                paths,
            ).contains(drive_of(paths[i])->0) by {
            if i < paths.len() - 1 {
                assert(paths[i] == init[i]);
                let c = drive_of(paths[i])->0;
                assert(prev.contains(c));
                let j = choose|j: int| 0 <= j < prev.len() && prev[j] == c;
                match drive_of(paths.last()) {
                    Some(d) => {
                        if !prev.contains(d) {
                            assert(prev.push(d)[j] == c);
                        }
                    },
                    None => {},
                }
            } else {
                let c = drive_of(paths.last())->0;
                if !prev.contains(c) {
                    assert(prev.push(c)[prev.len() as int] == c);
                }
            }
        }
    }
}

// ===== File names =====

/// The index of the last `.` of a file name, or -1.
pub open spec fn last_dot(s: Seq<char>) -> int
    decreases s.len(),
{
    if s.len() == 0 {
        -1
    } else if s.last() == '.' {
        s.len() - 1
    } else {
        last_dot(s.drop_last())
    }
}

/// The stem and extension of a file name (one path component), as `Path::file_stem`
/// and `Path::extension` split it: at the last `.`, unless that dot begins the
/// name or the name is `..`, in which case there is no extension.
pub open spec fn spec_split_name(s: Seq<char>) -> (Seq<char>, Option<Seq<char>>) {
    if s == seq!['.', '.'] || last_dot(s) <= 0 {
        (s, None)
    } else {
        (s.subrange(0, last_dot(s)), Some(s.subrange(last_dot(s) + 1, s.len() as int)))
    }
}

proof fn lemma_last_dot_range(s: Seq<char>)
    ensures
        -1 <= last_dot(s) < s.len(),
    decreases s.len(),
{
    if s.len() > 0 {
        lemma_last_dot_range(s.drop_last());
    }
}

/// Splits one file name into stem and extension (see [`spec_split_name`]).
pub fn split_file_name(name: &str) -> (r: (String, Option<String>))
    ensures
        r.0@ == spec_split_name(name@).0,
        r.1 is Some <==> spec_split_name(name@).1 is Some,
        r.1 matches Some(e) ==> e@ == spec_split_name(name@).1->0,
{
    let cs = chars_of(name);
    proof {
        lemma_last_dot_range(cs@);
    }
    let mut i = cs.len();
    assert(cs@.subrange(0, i as int) =~= cs@);
    while i > 0 && cs[i - 1] != '.'
        invariant
            i <= cs@.len(),
            cs@ == name@,
            last_dot(cs@.subrange(0, i as int)) == last_dot(cs@),
        decreases i,
    {
        assert(cs@.subrange(0, i as int).drop_last() =~= cs@.subrange(0, i - 1));
        i = i - 1;
    }
    if i > 0 {
        assert(cs@.subrange(0, i as int).last() == cs@[i - 1]);
    } else {
        assert(last_dot(cs@.subrange(0, 0)) == -1);
    }
    let dotdot: [char; 2] = ['.', '.'];
    assert(dotdot@ =~= seq!['.', '.']);
    if chars_eq(&cs, &dotdot) || i <= 1 {
        return (string_of(&cs), None);
    }
    let stem = string_of(&cs[0..i - 1]);
    let ext = string_of(&cs[i..cs.len()]);
    (stem, Some(ext))
}

} // verus!
