//! Partition of a payload sequence across workers, the scan of one chunk, and the
//! aggregation of the workers' results.

use vstd::prelude::*;

use crate::detect::Evidence;
use crate::detect::EvidenceModel;
use crate::detect::Finding;

verus! {

/// Number of chunks for `len` payloads and `workers` workers: one chunk per worker, and
/// a single chunk where there are more workers than payloads.
pub open spec fn chunk_count(len: nat, workers: nat) -> nat {
    if workers > len {
        1
    } else {
        workers
    }
}

/// Size of every chunk but the last: the quotient of payloads by workers, and the whole
/// sequence where there are more workers than payloads.
pub open spec fn chunk_size(len: nat, workers: nat) -> nat {
    if workers > len {
        len
    } else {
        len / workers
    }
}

/// Index of the first payload of chunk `k`.
pub open spec fn chunk_start(len: nat, workers: nat, k: int) -> int {
    k * chunk_size(len, workers)
}

/// Index after the last payload of chunk `k`: the last chunk runs to the end of the
/// sequence and so takes the remainder of the division.
pub open spec fn chunk_end(len: nat, workers: nat, k: int) -> int {
    if k + 1 >= chunk_count(len, workers) {
        len as int
    } else {
        (k + 1) * chunk_size(len, workers)
    }
}

/// The contiguous chunks of `items` for `workers` workers.
pub open spec fn chunks_of<T>(items: Seq<T>, workers: nat) -> Seq<Seq<T>> {
    Seq::new(
        chunk_count(items.len(), workers),
        |k: int|
            items.subrange(
                chunk_start(items.len(), workers, k),
                chunk_end(items.len(), workers, k),
            ),
    )
}

/// The chunks tile the sequence: each starts where the one before ends, the first at
/// the start and the last at the end.
pub proof fn lemma_chunk_bounds(len: nat, workers: nat, k: int)
    requires
        workers >= 1,
        0 <= k < chunk_count(len, workers),
    ensures
        0 <= chunk_start(len, workers, k) <= chunk_end(len, workers, k) <= len,
        k + 1 < chunk_count(len, workers) ==> chunk_end(len, workers, k) == chunk_start(
            len,
            workers,
            k + 1,
        ),
        k + 1 == chunk_count(len, workers) ==> chunk_end(len, workers, k) == len,
        chunk_start(len, workers, 0) == 0,
{
    let q = chunk_size(len, workers) as int;
    if workers > len {
        assert(k == 0);
    } else {
        let w = workers as int;
        let n = len as int;
        assert(q * w <= n) by (nonlinear_arith)
            requires
                q == n / w,
                w >= 1,
                n >= 0,
        ;
        assert(0 <= k * q && (k + 1) * q <= q * w && k * q <= (k + 1) * q) by (nonlinear_arith)
            requires
                0 <= k,
                k + 1 <= w,
                q >= 0,
        ;
    }
}

/// Every payload is covered exactly once: the chunks, put end to end, are the sequence
/// that was partitioned.
pub proof fn lemma_chunks_cover<T>(items: Seq<T>, workers: nat)
    requires
        workers >= 1,
    ensures
        chunks_of(items, workers).flatten() == items,
{
    let chunks = chunks_of(items, workers);
    let count = chunk_count(items.len(), workers) as int;
    lemma_chunks_prefix(items, workers, count);
    assert(chunks.take(count) =~= chunks);
    lemma_chunk_bounds(items.len(), workers, count - 1);
    assert(items.subrange(0, items.len() as int) =~= items);
}

/// The first `k` chunks, put end to end, are the payloads before chunk `k`.
proof fn lemma_chunks_prefix<T>(items: Seq<T>, workers: nat, k: int)
    requires
        workers >= 1,
        0 <= k <= chunk_count(items.len(), workers),
    ensures
        chunks_of(items, workers).take(k).flatten() == items.subrange(
            0,
            if k == 0 {
                0
            } else {
                chunk_end(items.len(), workers, k - 1)
            },
        ),
    decreases k,
{
    let chunks = chunks_of(items, workers);
    if k == 0 {
        assert(chunks.take(0) =~= Seq::<Seq<T>>::empty());
        assert(items.subrange(0, 0) =~= Seq::<T>::empty());
    } else {
        lemma_chunks_prefix(items, workers, k - 1);
        lemma_chunk_bounds(items.len(), workers, k - 1);
        if k - 1 > 0 {
            lemma_chunk_bounds(items.len(), workers, k - 2);
        }
        assert(chunks.take(k) =~= chunks.take(k - 1).push(chunks[k - 1]));
        chunks.take(k - 1).lemma_flatten_push(chunks[k - 1]);
        let start = chunk_start(items.len(), workers, k - 1);
        let end = chunk_end(items.len(), workers, k - 1);
        assert(items.subrange(0, start) + items.subrange(start, end) =~= items.subrange(0, end));
    }
}

/// With more workers than payloads there is a single chunk, which holds every payload.
pub proof fn lemma_single_chunk<T>(items: Seq<T>, workers: nat)
    requires
        workers > items.len(),
    ensures
        chunks_of(items, workers) == seq![items],
{
    let chunks = chunks_of(items, workers);
    assert(chunks.len() == 1);
    assert(chunks[0] =~= items);
    assert(chunks =~= seq![items]);
}

/// Within a chunk the payloads keep their order: the payload at index `j` of chunk `k`
/// is the one at index `chunk_start + j` of the sequence.
pub proof fn lemma_chunk_order<T>(items: Seq<T>, workers: nat, k: int, j: int)
    requires
        workers >= 1,
        0 <= k < chunk_count(items.len(), workers),
        0 <= j < chunks_of(items, workers)[k].len(),
    ensures
        chunk_start(items.len(), workers, k) + j < chunk_end(items.len(), workers, k),
        chunks_of(items, workers)[k][j] == items[chunk_start(items.len(), workers, k) + j],
{
    lemma_chunk_bounds(items.len(), workers, k);
}

/// A copy of the payloads from index `from` up to, not including, `to`.
fn copy_range(payloads: &Vec<String>, from: usize, to: usize) -> (chunk: Vec<String>)
    requires
        from <= to <= payloads.len(),
    ensures
        chunk.deep_view() == payloads.deep_view().subrange(from as int, to as int),
{
    let mut chunk: Vec<String> = Vec::new();
    let mut i: usize = from;
    while i < to
        invariant
            from <= i <= to <= payloads.len(),
            chunk.len() == i - from,
            forall|j: int| 0 <= j < chunk.len() ==> (#[trigger] chunk@[j])@ == payloads@[from + j]@,
        decreases to - i,
    {
        chunk.push(payloads[i].clone());
        i += 1;
    }
    assert(chunk.deep_view() =~= payloads.deep_view().subrange(from as int, to as int));
    chunk
}

/// Partitions the payloads into contiguous chunks, one per worker. Every chunk but the
/// last holds `len / workers` payloads and the last runs to the end; with more workers
/// than payloads there is one chunk with every payload.
pub fn partition(payloads: &Vec<String>, workers: usize) -> (chunks: Vec<Vec<String>>)
    requires
        workers >= 1,
    ensures
        chunks.deep_view() == chunks_of(payloads.deep_view(), workers as nat),
{
    let len = payloads.len();
    let ghost items = payloads.deep_view();
    let count: usize = if workers > len {
        1
    } else {
        workers
    };
    let size: usize = if workers > len {
        len
    } else {
        len / workers
    };
    let mut chunks: Vec<Vec<String>> = Vec::new();
    let mut k: usize = 0;
    let mut start: usize = 0;
    while k < count
        invariant
            workers >= 1,
            len == payloads.len(),
            items == payloads.deep_view(),
            count == chunk_count(len as nat, workers as nat),
            size == chunk_size(len as nat, workers as nat),
            k <= count,
            chunks.len() == k,
            k < count ==> start == chunk_start(len as nat, workers as nat, k as int),
            forall|j: int|
                0 <= j < k ==> (#[trigger] chunks@[j]).deep_view() == items.subrange(
                    chunk_start(len as nat, workers as nat, j),
                    chunk_end(len as nat, workers as nat, j),
                ),
        decreases count - k,
    {
        proof {
            lemma_chunk_bounds(len as nat, workers as nat, k as int);
            assert(k * size + size == (k + 1) * size) by (nonlinear_arith);
        }
        let end: usize = if k + 1 == count {
            len
        } else {
            start + size
        };
        assert(end == chunk_end(len as nat, workers as nat, k as int));
        let chunk = copy_range(payloads, start, end);
        chunks.push(chunk);
        start = end;
        k += 1;
    }
    assert(chunks.deep_view() =~= chunks_of(items, workers as nat));
    chunks
}

/// The scan of one chunk by one worker: the payloads are sent in order, and the scan
/// ends with the first detection or with the last payload.
pub struct ChunkScan {
    payloads: Vec<String>,
    progress: Progress,
}

/// How far a scan has come.
struct Progress {
    next: usize,
    evidence: Option<Evidence>,
    verdicts: Ghost<Seq<bool>>,
}

impl ChunkScan {
    #[verifier::type_invariant]
    spec fn inv(self) -> bool {
        &&& self.progress.next <= self.payloads.len()
        &&& self.progress.verdicts@.len() == self.progress.next
        &&& forall|i: int|
            0 <= i < self.progress.next - 1 ==> !(#[trigger] self.progress.verdicts@[i])
        &&& self.progress.evidence is Some <==> self.progress.next > 0
            && self.progress.verdicts@[self.progress.next - 1]
    }

    /// The payloads of the chunk.
    pub closed spec fn chunk(&self) -> Seq<Seq<char>> {
        self.payloads.deep_view()
    }

    /// For each payload whose outcome is known, in order, whether it was detected.
    pub closed spec fn verdicts(&self) -> Seq<bool> {
        self.progress.verdicts@
    }

    /// The evidence of the detection, once there is one.
    pub closed spec fn evidence(&self) -> Option<EvidenceModel> {
        self.progress.evidence.deep_view()
    }

    /// Whether a payload was detected.
    pub open spec fn is_found(&self) -> bool {
        self.verdicts().len() > 0 && self.verdicts().last()
    }

    /// Whether the scan is over: a payload was detected, or none is left.
    pub open spec fn is_finished(&self) -> bool {
        self.is_found() || self.verdicts().len() >= self.chunk().len()
    }

    /// Starts the scan of a chunk.
    pub fn new(payloads: Vec<String>) -> (scan: ChunkScan)
        ensures
            scan.chunk() == payloads.deep_view(),
            scan.verdicts() == Seq::<bool>::empty(),
            scan.evidence() is None,
    {
        ChunkScan {
            payloads,
            progress: Progress { next: 0, evidence: None, verdicts: Ghost(Seq::empty()) },
        }
    }

    /// The payload to send next; none once the scan is over.
    pub fn current(&self) -> (payload: Option<&String>)
        ensures
            payload is None <==> self.is_finished(),
            payload matches Some(p) ==> p@ == self.chunk()[self.verdicts().len() as int],
    {
        proof {
            use_type_invariant(self);
        }
        if self.progress.evidence.is_some() || self.progress.next >= self.payloads.len() {
            None
        } else {
            Some(&self.payloads[self.progress.next])
        }
    }

    /// Takes the outcome of the payload that was sent: its evidence where it was detected,
    /// none where it was not or where the request failed. A scan that is over ignores it.
    pub fn record(&mut self, verdict: Option<Evidence>)
        ensures
            final(self).chunk() == old(self).chunk(),
            old(self).is_finished() ==> final(self).verdicts() == old(self).verdicts(),
            old(self).is_finished() ==> final(self).evidence() == old(self).evidence(),
            !old(self).is_finished() ==> final(self).verdicts() == old(self).verdicts().push(
                verdict is Some,
            ),
            !old(self).is_finished() ==> final(self).evidence() == verdict.deep_view(),
    {
        proof {
            use_type_invariant(&*self);
        }
        if self.progress.evidence.is_some() || self.progress.next >= self.payloads.len() {
            return ;
        }
        self.progress = Progress {
            next: self.progress.next + 1,
            verdicts: Ghost(self.progress.verdicts@.push(verdict is Some)),
            evidence: verdict,
        };
    }

    /// Number of payloads whose outcome is known. No payload is sent after a detection:
    /// every verdict but the last is negative.
    pub fn sent(&self) -> (n: usize)
        ensures
            n == self.verdicts().len(),
            n <= self.chunk().len(),
            forall|i: int| 0 <= i < n - 1 ==> !(#[trigger] self.verdicts()[i]),
    {
        proof {
            use_type_invariant(self);
        }
        self.progress.next
    }

    /// Whether a payload of the chunk was detected.
    pub fn found(&self) -> (found: bool)
        ensures
            found == self.is_found(),
            found == self.verdicts().contains(true),
            found == self.evidence() is Some,
    {
        proof {
            use_type_invariant(self);
            if self.is_found() {
                assert(self.verdicts()[self.verdicts().len() - 1]);
            }
        }
        self.progress.evidence.is_some()
    }

    /// The detection, once there is one: its payload is the last one sent.
    pub fn finding(&self) -> (finding: Option<Finding>)
        ensures
            finding is Some <==> self.is_found(),
            finding matches Some(f) ==> f@.payload == self.chunk()[self.verdicts().len() - 1]
                && self.evidence() == Some(f@.evidence),
    {
        proof {
            use_type_invariant(self);
        }
        match &self.progress.evidence {
            Some(evidence) => Some(
                Finding {
                    payload: self.payloads[self.progress.next - 1].clone(),
                    evidence: evidence.clone(),
                },
            ),
            None => None,
        }
    }
}

/// The verdict of a category: whether any worker found a detection.
pub fn any_found(results: &Vec<bool>) -> (found: bool)
    ensures
        found == results@.contains(true),
{
    let mut i: usize = 0;
    while i < results.len()
        invariant
            i <= results.len(),
            forall|k: int| 0 <= k < i ==> !(#[trigger] results@[k]),
        decreases results.len() - i,
    {
        if results[i] {
            return true;
        }
        i += 1;
    }
    false
}

/// The verdict of a category does not depend on the order in which the workers'
/// results arrive.
pub proof fn lemma_any_found_order_free(a: Seq<bool>, b: Seq<bool>)
    requires
        a.to_multiset() == b.to_multiset(),
    ensures
        a.contains(true) == b.contains(true),
{
    vstd::seq_lib::to_multiset_contains(a, true);
    vstd::seq_lib::to_multiset_contains(b, true);
}

} // verus!
