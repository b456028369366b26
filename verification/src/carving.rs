//! RAW carving: the engine that matches file signatures in raw sectors, and
//! the reassembly of a fragmented file from its pieces.
use vstd::prelude::*;
use crate::model::RecoveredFile;
use crate::scanner::ScanError;

verus! {

/// A file signature of the signature library: the magic bytes that open (and
/// optionally close) a file of one type.
#[derive(Debug, Clone)]
pub struct FileSignature {
    pub id: i64,
    pub extension: String,
    pub description: Option<String>,
    pub header_bytes: Vec<u8>,
    pub footer_bytes: Option<Vec<u8>>,
    pub max_size_bytes: Option<u64>,
    pub enabled: bool,
}

/// The size of the chunks that the engine reads: 64 MiB.
pub const CARVING_CHUNK_SIZE: usize = 67108864;

pub open spec fn is_enabled(s: FileSignature) -> bool {
    s.enabled
}

/// The enabled signatures of `s`, in their order.
pub open spec fn enabled_only(s: Seq<FileSignature>) -> Seq<FileSignature> {
    s.filter(|x: FileSignature| is_enabled(x))
}

/// The RAW carving engine: the enabled signatures, the chunk size, and the
/// progress and cancellation state of a run.
pub struct CarvingEngine {
    signatures: Vec<FileSignature>,
    chunk_size: usize,
    scanned_sectors: u64,
    found_files: u64,
    cancelled: bool,
}

impl CarvingEngine {
    /// The signatures that the engine matches.
    pub closed spec fn spec_signatures(&self) -> Seq<FileSignature> {
        self.signatures@
    }

    pub closed spec fn spec_chunk_size(&self) -> usize {
        self.chunk_size
    }

    pub closed spec fn spec_scanned_sectors(&self) -> u64 {
        self.scanned_sectors
    }

    pub closed spec fn spec_found_files(&self) -> u64 {
        self.found_files
    }

    pub closed spec fn spec_cancelled(&self) -> bool {
        self.cancelled
    }

    /// An engine that keeps the enabled signatures, in their order, reads 64 MiB
    /// chunks, and has scanned and found nothing yet.
    pub fn new(signatures: Vec<FileSignature>) -> (e: Self)
        ensures
            e.spec_signatures() == enabled_only(signatures@),
            e.spec_chunk_size() == CARVING_CHUNK_SIZE,
            e.spec_scanned_sectors() == 0,
            e.spec_found_files() == 0,
            !e.spec_cancelled(),
    {
        let ghost input = signatures@;
        let total = signatures.len();
        let mut rest = signatures;
        let mut kept: Vec<FileSignature> = Vec::new();
        let mut k: usize = 0;
        assert(enabled_only(input.take(0)) =~= Seq::<FileSignature>::empty()) by {
            reveal(Seq::filter);
        }
        while rest.len() > 0
            invariant
                total == input.len(),
                k <= input.len(),
                rest@ == input.skip(k as int),
                kept@ == enabled_only(input.take(k as int)),
            decreases rest@.len(),
        {
            let s = rest.remove(0);
            proof {
                let t = input.take(k + 1);
                assert(t.drop_last() =~= input.take(k as int));
                assert(t.last() == s);
                assert(rest@ =~= input.skip(k + 1));
                reveal(Seq::filter);
                assert(enabled_only(t) == if is_enabled(s) {
                    enabled_only(input.take(k as int)).push(s)
                } else {
                    enabled_only(input.take(k as int))
                });
            }
            if s.enabled {
                kept.push(s);
            }
            k = k + 1;
        }
        assert(input.take(k as int) =~= input);
        CarvingEngine {
            signatures: kept,
            chunk_size: CARVING_CHUNK_SIZE,
            scanned_sectors: 0,
            found_files: 0,
            cancelled: false,
        }
    }

    /// Carves files out of `data`, which starts at sector `sector_offset`; no
    /// file is reported yet, and the engine is left as it was.
    pub fn carve(&mut self, data: &[u8], sector_offset: u64) -> (r: Result<Vec<RecoveredFile>, ScanError>)
        ensures
            r matches Ok(v) && v@.len() == 0,
            *final(self) == *old(self),
    {
        Ok(Vec::new())
    }

    /// Asks the engine to stop; nothing else changes.
    pub fn cancel(&mut self)
        ensures
            final(self).spec_cancelled(),
            final(self).spec_signatures() == old(self).spec_signatures(),
            final(self).spec_chunk_size() == old(self).spec_chunk_size(),
            final(self).spec_scanned_sectors() == old(self).spec_scanned_sectors(),
            final(self).spec_found_files() == old(self).spec_found_files(),
    {
        self.cancelled = true;
    }

    /// The sectors scanned and the files found so far.
    pub fn get_progress(&self) -> (r: (u64, u64))
        ensures
            r == (self.spec_scanned_sectors(), self.spec_found_files()),
    {
        (self.scanned_sectors, self.found_files)
    }
}

// ===== Reassembly of fragments =====

/// Where key `k` goes in `order` so that the entries before it have keys `<= k`
/// (scanning from the back: after the last entry whose key is `<= k`).
pub open spec fn insert_pos(order: Seq<int>, keys: Seq<u64>, k: u64) -> int
    decreases order.len(),
{
    if order.len() == 0 {
        0
    } else if keys[order.last()] <= k {
        order.len() as int
    } else {
        insert_pos(order.drop_last(), keys, k)
    }
}

/// The stable ascending order of the first `n` keys: the indices `0..n`, sorted
/// by key, equal keys in index order (insertion sort).
pub open spec fn stable_order(keys: Seq<u64>, n: int) -> Seq<int>
    decreases n,
{
    if n <= 0 {
        Seq::empty()
    } else {
        let o = stable_order(keys, n - 1);
        o.insert(insert_pos(o, keys, keys[n - 1]), n - 1)
    }
}

/// The offsets of the fragments.
pub open spec fn fragment_keys(f: Seq<(Vec<u8>, u64)>) -> Seq<u64> {
    Seq::new(f.len(), |i: int| f[i].1)
}

/// The bytes of the fragments taken in `order`, one after the other.
pub open spec fn concat_in(f: Seq<(Vec<u8>, u64)>, order: Seq<int>) -> Seq<u8>
    decreases order.len(),
{
    if order.len() == 0 {
        Seq::empty()
    } else {
        concat_in(f, order.drop_last()) + f[order.last()].0@
    }
}

/// The total length of the fragments taken in `order`.
pub open spec fn lengths_in(f: Seq<(Vec<u8>, u64)>, order: Seq<int>) -> int
    decreases order.len(),
{
    if order.len() == 0 {
        0
    } else {
        lengths_in(f, order.drop_last()) + f[order.last()].0@.len()
    }
}

/// The total length of the first `n` fragments.
pub open spec fn total_length(f: Seq<(Vec<u8>, u64)>, n: int) -> int
    decreases n,
{
    if n <= 0 {
        0
    } else {
        total_length(f, n - 1) + f[n - 1].0@.len()
    }
}

pub open spec fn order_sorted(order: Seq<int>, keys: Seq<u64>) -> bool {
    forall|a: int, b: int| 0 <= a < b < order.len() ==> keys[order[a]] <= keys[order[b]]
}

pub open spec fn order_stable(order: Seq<int>, keys: Seq<u64>) -> bool {
    forall|a: int, b: int|
        0 <= a < b < order.len() && keys[order[a]] == keys[order[b]] ==> order[a] < order[b]
}

/// `order` lists each of `0..n` exactly once.
pub open spec fn is_permutation(order: Seq<int>, n: int) -> bool {
    &&& order.len() == n
    &&& forall|a: int| 0 <= a < order.len() ==> 0 <= #[trigger] order[a] < n
    &&& forall|a: int, b: int| 0 <= a < b < order.len() ==> order[a] != order[b]
}

proof fn lemma_insert_pos(order: Seq<int>, keys: Seq<u64>, k: u64)
    requires
        order_sorted(order, keys),
    ensures
        0 <= insert_pos(order, keys, k) <= order.len(),
        forall|t: int| 0 <= t < insert_pos(order, keys, k) ==> keys[order[t]] <= k,
        forall|t: int| insert_pos(order, keys, k) <= t < order.len() ==> keys[order[t]] > k,
    decreases order.len(),
{
    if order.len() > 0 {
        let last = order.len() - 1;
        if keys[order[last]] <= k {
            assert(insert_pos(order, keys, k) == order.len());
            assert forall|t: int| 0 <= t < order.len() implies keys[order[t]] <= k by {
                if t < last {
                    assert(keys[order[t]] <= keys[order[last]]);
                }
            }
        } else {
            let d = order.drop_last();
            assert forall|a: int, b: int| 0 <= a < b < d.len() implies keys[d[a]] <= keys[d[b]] by {
                assert(d[a] == order[a] && d[b] == order[b]);
                assert(keys[order[a]] <= keys[order[b]]);
            }
            lemma_insert_pos(d, keys, k);
            let p = insert_pos(d, keys, k);
            assert(insert_pos(order, keys, k) == p);
            assert forall|t: int| 0 <= t < p implies keys[order[t]] <= k by {
                assert(d[t] == order[t]);
            }
            assert forall|t: int| p <= t < order.len() implies keys[order[t]] > k by {
                if t < last {
                    assert(d[t] == order[t]);
                }
            }
        }
    }
}

/// Law: the stable order of `n` keys lists each index once, by ascending key,
/// and keeps equal keys in index order.
pub proof fn lemma_stable_order(keys: Seq<u64>, n: int)
    requires
        0 <= n <= keys.len(),
    ensures
        is_permutation(stable_order(keys, n), n),
        order_sorted(stable_order(keys, n), keys),
        order_stable(stable_order(keys, n), keys),
    decreases n,
{
    if n > 0 {
        lemma_stable_order(keys, n - 1);
        let o = stable_order(keys, n - 1);
        let k = keys[n - 1];
        let p = insert_pos(o, keys, k);
        lemma_insert_pos(o, keys, k);
        let o2 = o.insert(p, n - 1);
        o.insert_ensures(p, n - 1);
        assert(o2 == stable_order(keys, n));
        // every position of o2 maps back to o, or is the new index
        assert forall|a: int| 0 <= a < o2.len() implies 0 <= #[trigger] o2[a] < n by {
            if a > p {
                assert(o2[a] == o[a - 1]);
            }
        }
        assert forall|a: int, b: int| 0 <= a < b < o2.len() implies keys[o2[a]] <= keys[o2[b]]
            && (keys[o2[a]] == keys[o2[b]] ==> o2[a] < o2[b]) && o2[a] != o2[b] by {
            if a < p && b < p {
            } else if a < p && b == p {
            } else if a < p && b > p {
                assert(o2[b] == o[b - 1]);
            } else if a == p {
                assert(o2[b] == o[b - 1]);
            } else {
                assert(o2[a] == o[a - 1]);
                assert(o2[b] == o[b - 1]);
            }
        }
    }
}

proof fn lemma_lengths_insert(f: Seq<(Vec<u8>, u64)>, order: Seq<int>, p: int, i: int)
    requires
        0 <= p <= order.len(),
    ensures
        lengths_in(f, order.insert(p, i)) == lengths_in(f, order) + f[i].0@.len(),
    decreases order.len(),
{
    let o2 = order.insert(p, i);
    if p == order.len() {
        assert(o2.drop_last() =~= order);
    } else {
        assert(o2.drop_last() =~= order.drop_last().insert(p, i));
        assert(o2.last() == order.last());
        lemma_lengths_insert(f, order.drop_last(), p, i);
    }
}

proof fn lemma_concat_len(f: Seq<(Vec<u8>, u64)>, order: Seq<int>)
    ensures
        concat_in(f, order).len() == lengths_in(f, order),
    decreases order.len(),
{
    if order.len() > 0 {
        lemma_concat_len(f, order.drop_last());
    }
}

/// Law: reassembly keeps every byte: the output is as long as all the fragments together.
pub proof fn lemma_reassembly_length(f: Seq<(Vec<u8>, u64)>)
    ensures
        concat_in(f, stable_order(fragment_keys(f), f.len() as int)).len() == total_length(f, f.len() as int),
{
    let keys = fragment_keys(f);
    assert forall|n: int| 0 <= n <= f.len() implies lengths_in(f, #[trigger] stable_order(keys, n))
        == total_length(f, n) by {
        lemma_lengths_order(f, keys, n);
    }
    lemma_concat_len(f, stable_order(keys, f.len() as int));
}

proof fn lemma_lengths_order(f: Seq<(Vec<u8>, u64)>, keys: Seq<u64>, n: int)
    requires
        0 <= n <= f.len(),
    ensures
        lengths_in(f, stable_order(keys, n)) == total_length(f, n),
    decreases n,
{
    if n > 0 {
        lemma_lengths_order(f, keys, n - 1);
        let o = stable_order(keys, n - 1);
        let p = insert_pos(o, keys, keys[n - 1]);
        lemma_insert_pos_bound(o, keys, keys[n - 1]);
        lemma_lengths_insert(f, o, p, n - 1);
    }
}

proof fn lemma_insert_pos_bound(order: Seq<int>, keys: Seq<u64>, k: u64)
    ensures
        0 <= insert_pos(order, keys, k) <= order.len(),
    decreases order.len(),
{
    if order.len() > 0 && !(keys[order.last()] <= k) {
        lemma_insert_pos_bound(order.drop_last(), keys, k);
    }
}

/// The stable ascending order of `keys`: the indices, sorted by key, equal keys
/// in index order (insertion sort).
pub fn stable_order_of(keys: &[u64]) -> (order: Vec<usize>)
    ensures
        order@.len() == keys@.len(),
        forall|t: int|
            0 <= t < order@.len() ==> order@[t] as int == stable_order(keys@, keys@.len() as int)[t],
{
    let n = keys.len();
    let mut order: Vec<usize> = Vec::new();
    let mut i: usize = 0;
    while i < n
        invariant
            n == keys@.len(),
            i <= n,
            order@.len() == stable_order(keys@, i as int).len(),
            forall|t: int| 0 <= t < order@.len() ==> order@[t] as int == stable_order(keys@, i as int)[t],
        decreases n - i,
    {
        let ghost o = stable_order(keys@, i as int);
        let k = keys[i];
        let mut j: usize = order.len();
        proof {
            lemma_stable_order(keys@, i as int);
            lemma_insert_pos_bound(o, keys@, k);
            assert(o.take(j as int) =~= o);
        }
        while j > 0 && keys[order[j - 1]] > k
            invariant
                n == keys@.len(),
                i < n,
                k == keys@[i as int],
                j <= order@.len(),
                order@.len() == o.len(),
                forall|t: int| 0 <= t < order@.len() ==> order@[t] as int == o[t],
                forall|t: int| 0 <= t < order@.len() ==> o[t] < i,
                insert_pos(o, keys@, k) == insert_pos(o.take(j as int), keys@, k),
            decreases j,
        {
            proof {
                assert(o.take(j as int).drop_last() =~= o.take(j - 1));
            }
            j = j - 1;
        }
        proof {
            if j > 0 {
                assert(o.take(j as int).last() == o[j - 1]);
            }
        }
        assert(insert_pos(o, keys@, k) == j);
        order.insert(j, i);
        proof {
            o.insert_ensures(j as int, i as int);
            assert(stable_order(keys@, i + 1) == o.insert(j as int, i as int));
            assert forall|t: int| 0 <= t < order@.len() implies order@[t] as int == stable_order(
                keys@,
                i + 1,
            )[t] by {
                if t > j {
                    assert(order@[t] == order@.subrange(j as int + 1, order@.len() as int)[t - j - 1]);
                }
            }
        }
        i = i + 1;
    }
    proof {
        lemma_stable_order(keys@, n as int);
    }
    order
}

/// Joins the fragments of a file: sorted by sector offset (a stable sort, so
/// fragments with the same offset keep their order), their bytes one after the other.
pub fn reassemble_fragments(fragments: &[(Vec<u8>, u64)]) -> (r: Result<Vec<u8>, ScanError>)
    ensures
        r matches Ok(v) && v@ == concat_in(
            fragments@,
            stable_order(fragment_keys(fragments@), fragments@.len() as int),
        ),
{
    let n = fragments.len();
    let mut keys: Vec<u64> = Vec::new();
    let mut q: usize = 0;
    while q < n
        invariant
            n == fragments@.len(),
            q <= n,
            keys@ == fragment_keys(fragments@).subrange(0, q as int),
        decreases n - q,
    {
        keys.push(fragments[q].1);
        q = q + 1;
        assert(keys@ =~= fragment_keys(fragments@).subrange(0, q as int));
    }
    assert(keys@ =~= fragment_keys(fragments@));
    let order = stable_order_of(&keys);
    let ghost so = stable_order(keys@, n as int);
    proof {
        lemma_stable_order(keys@, n as int);
    }
    let mut result: Vec<u8> = Vec::new();
    let mut m: usize = 0;
    while m < order.len()
        invariant
            n == fragments@.len(),
            m <= order@.len(),
            order@.len() == so.len(),
            forall|t: int| 0 <= t < order@.len() ==> order@[t] as int == so[t],
            is_permutation(so, n as int),
            result@ == concat_in(fragments@, so.take(m as int)),
        decreases order@.len() - m,
    {
        let idx = order[m];
        assert(0 <= so[m as int] < n);
        let piece = fragments[idx].0.as_slice();
        let ghost before = result@;
        result.extend_from_slice(piece);
        proof {
            assert(result@ =~= before + fragments@[so[m as int]].0@);
            assert(so.take(m + 1).drop_last() =~= so.take(m as int));
        }
        m = m + 1;
    }
    assert(so.take(m as int) =~= so);
    Ok(result)
}

} // verus!
