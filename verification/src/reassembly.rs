//! What a receiver makes of a transfer's chunks: fed every chunk of every
//! file of an approved plan, in any order and with repetitions, it
//! completes with each file's bytes exactly as sent.

use vstd::prelude::*;
use vstd::set_lib::{lemma_int_range, lemma_set_disjoint_lens, set_int_range};
use crate::transfer::{
    accept_outcome, accepted_state, assembly_error, chunk_count, chunk_end, completion_error,
    fresh_assembly, initial_assemblies, is_chunk_of, splice, total_size, AssemblyState,
    ReceiverState, TransferChunk, TransferFileDescriptor, TransferPlan, TransferStatus,
};

verus! {

/// The `(offset, length)` range of chunk `k` of a file of `len` bytes.
pub open spec fn range_of(k: int, size: nat, len: nat) -> (u64, u64) {
    ((k * size) as u64, (chunk_end(k, size, len) - k * size) as u64)
}

/// Position `x` of a file lies in chunk `k`.
pub open spec fn in_chunk(x: int, k: int, size: nat, len: nat) -> bool {
    k * size <= x < chunk_end(k, size, len)
}

/// The key under which a receiver remembers chunk `k` of a file.
pub open spec fn key_of(file_id: u128, k: int, size: nat) -> (u128, u64, u64) {
    (file_id, (k * size) as u64, k as u64)
}

/// The byte positions written by a set of ranges.
pub open spec fn covered(ranges: Set<(u64, u64)>) -> Set<int> {
    Set::new(|x: int| exists|r: (u64, u64)| ranges.contains(r) && r.0 <= x < r.0 + r.1)
}

/// A receiver state taken in chunk by chunk, stopping at the first refusal.
pub open spec fn accept_all(s: ReceiverState, chunks: Seq<TransferChunk>) -> Result<
    ReceiverState,
    crate::transfer::TransferError,
>
    decreases chunks.len(),
{
    if chunks.len() == 0 {
        Ok(s)
    } else {
        match accept_all(s, chunks.drop_last()) {
            Ok(before) => accept_outcome(before, chunks.last()),
            Err(e) => Err(e),
        }
    }
}

/// A receiver just made for the plan.
pub open spec fn receiver_start(plan: TransferPlan) -> ReceiverState {
    ReceiverState {
        plan,
        files: initial_assemblies(plan.manifest.files@),
        accepted: Set::empty(),
        status: TransferStatus::Approved,
        transferred: 0,
    }
}

/// No two files of the manifest share an identifier.
pub open spec fn unique_file_ids(ds: Seq<TransferFileDescriptor>) -> bool {
    forall|i: int, j: int|
        0 <= i < ds.len() && 0 <= j < ds.len() && i != j ==> (#[trigger] ds[i]).file_id
            != (#[trigger] ds[j]).file_id
}

/// The bytes `data[i]` are the content of the `i`-th file of the plan.
pub open spec fn contents_fit(plan: TransferPlan, data: Seq<Seq<u8>>) -> bool {
    &&& data.len() == plan.manifest.files@.len()
    &&& forall|i: int|
        0 <= i < data.len() ==> (#[trigger] data[i]).len() == plan.manifest.files@[i].size_bytes
            && data[i].len() <= usize::MAX
}

/// `c` is chunk `k` of the `i`-th file of the plan.
pub open spec fn is_plan_chunk(plan: TransferPlan, data: Seq<Seq<u8>>, c: TransferChunk, i: int, k: int) -> bool {
    &&& 0 <= i < data.len()
    &&& 0 <= k < chunk_count(data[i].len(), plan.chunk_size_bytes as nat)
    &&& is_chunk_of(
        c,
        plan.manifest.transfer_id,
        plan.manifest.files@[i].file_id,
        data[i],
        plan.chunk_size_bytes as nat,
        k,
    )
}

/// `c` is some chunk of some file of the plan.
pub open spec fn is_any_plan_chunk(plan: TransferPlan, data: Seq<Seq<u8>>, c: TransferChunk) -> bool {
    exists|i: int, k: int| #[trigger] is_plan_chunk(plan, data, c, i, k)
}

/// Chunk `k` of the `i`-th file is among `chunks`.
pub open spec fn is_fed(plan: TransferPlan, data: Seq<Seq<u8>>, chunks: Seq<TransferChunk>, i: int, k: int) -> bool {
    exists|j: int| 0 <= j < chunks.len() && #[trigger] is_plan_chunk(plan, data, chunks[j], i, k)
}

/// The bytes received over all files of the manifest.
pub open spec fn received_sum(files: Map<u128, AssemblyState>, ds: Seq<TransferFileDescriptor>) -> nat
    decreases ds.len(),
{
    if ds.len() == 0 {
        0
    } else {
        received_sum(files, ds.drop_last()) + files[ds.last().file_id].received
    }
}

/// One file as assembled from honest chunks: its ranges are those of the
/// chunks accepted for it, its count is the number of positions they
/// cover, and the bytes there are the file's.
pub open spec fn assembly_inv(
    a: AssemblyState,
    id: u128,
    data: Seq<u8>,
    size: nat,
    accepted: Set<(u128, u64, u64)>,
) -> bool {
    &&& a.bytes.len() == data.len()
    &&& forall|r: (u64, u64)|
        #[trigger] a.ranges.contains(r) ==> exists|k: int|
            0 <= k < chunk_count(data.len(), size) && r == range_of(k, size, data.len())
    &&& forall|k: int|
        0 <= k < chunk_count(data.len(), size) ==> (a.ranges.contains(
            #[trigger] range_of(k, size, data.len()),
        ) <==> accepted.contains(key_of(id, k, size)))
    &&& covered(a.ranges).finite()
    &&& a.received == covered(a.ranges).len()
    &&& forall|x: int|
        #[trigger] covered(a.ranges).contains(x) ==> 0 <= x < data.len() && a.bytes[x] == data[x]
}

/// A receiver that has only been fed chunks of the plan.
pub open spec fn honest_state(s: ReceiverState, plan: TransferPlan, data: Seq<Seq<u8>>) -> bool {
    &&& s.plan == plan
    &&& s.status != TransferStatus::Cancelled
    &&& forall|i: int|
        0 <= i < data.len() ==> s.files.contains_key(
            (#[trigger] plan.manifest.files@[i]).file_id,
        ) && assembly_inv(
            s.files[plan.manifest.files@[i].file_id],
            plan.manifest.files@[i].file_id,
            data[i],
            plan.chunk_size_bytes as nat,
            s.accepted,
        )
    &&& s.transferred == received_sum(s.files, plan.manifest.files@)
}

proof fn lemma_div_unique(x: int, size: int, k: int)
    requires
        size > 0,
        k * size <= x < (k + 1) * size,
    ensures
        x / size == k,
{
    assert(x / size == k) by (nonlinear_arith)
        requires
            size > 0,
            k * size <= x < (k + 1) * size,
    ;
}

/// Chunk `k` of a file lies inside it and is not empty.
proof fn lemma_chunk_bounds(k: int, size: nat, len: nat)
    requires
        size > 0,
        0 <= k < chunk_count(len, size),
    ensures
        0 <= k * size < len,
        k * size < chunk_end(k, size, len) <= len,
        chunk_end(k, size, len) <= (k + 1) * size,
{
    let n = chunk_count(len, size);
    assert((k + 1) * size <= len + size - 1) by (nonlinear_arith)
        requires
            size > 0,
            0 <= k,
            k + 1 <= n,
            n == (len + size - 1) / (size as int),
    ;
    assert((k + 1) * size == k * size + size) by (nonlinear_arith);
    assert(0 <= k * size) by (nonlinear_arith)
        requires
            0 <= k,
            size > 0,
    ;
}

/// Every byte of a file lies in the chunk numbered by its position divided
/// by the chunk size.
proof fn lemma_position_in_chunk(x: int, size: nat, len: nat)
    requires
        size > 0,
        0 <= x < len,
    ensures
        0 <= x / (size as int) < chunk_count(len, size),
        (x / (size as int)) * size <= x < chunk_end(x / (size as int), size, len),
{
    let k = x / (size as int);
    assert(k * size <= x < (k + 1) * size && 0 <= k) by (nonlinear_arith)
        requires
            size > 0,
            x >= 0,
            k == x / (size as int),
    ;
    assert(k < (len + size - 1) / (size as int)) by (nonlinear_arith)
        requires
            size > 0,
            k * size <= x,
            x < len,
    ;
}

/// Distinct chunks have distinct ranges and keys, and disjoint positions.
proof fn lemma_chunks_distinct(k1: int, k2: int, size: nat, len: nat)
    requires
        size > 0,
        0 <= k1 < chunk_count(len, size),
        0 <= k2 < chunk_count(len, size),
        len <= u64::MAX,
        k1 != k2,
    ensures
        range_of(k1, size, len) != range_of(k2, size, len),
        forall|x: int| !(#[trigger] in_chunk(x, k1, size, len) && in_chunk(x, k2, size, len)),
{
    lemma_chunk_bounds(k1, size, len);
    lemma_chunk_bounds(k2, size, len);
    assert(k1 * size != k2 * size) by (nonlinear_arith)
        requires
            size > 0,
            k1 != k2,
    ;
    assert forall|x: int| !(#[trigger] in_chunk(x, k1, size, len) && in_chunk(x, k2, size, len)) by {
        if in_chunk(x, k1, size, len) && in_chunk(x, k2, size, len) {
            lemma_div_unique(x, size as int, k1);
            lemma_div_unique(x, size as int, k2);
        }
    }
}

proof fn lemma_initial_assemblies(ds: Seq<TransferFileDescriptor>)
    requires
        unique_file_ids(ds),
    ensures
        forall|i: int|
            0 <= i < ds.len() ==> initial_assemblies(ds).contains_key((#[trigger] ds[i]).file_id)
                && initial_assemblies(ds)[ds[i].file_id] == fresh_assembly(ds[i]),
    decreases ds.len(),
{
    if ds.len() > 0 {
        let rest = ds.drop_last();
        assert(unique_file_ids(rest)) by {
            assert forall|i: int, j: int|
                0 <= i < rest.len() && 0 <= j < rest.len() && i != j implies (#[trigger] rest[i]).file_id
                != (#[trigger] rest[j]).file_id by {
                assert(rest[i] == ds[i] && rest[j] == ds[j]);
            }
        }
        lemma_initial_assemblies(rest);
        assert forall|i: int| 0 <= i < ds.len() implies initial_assemblies(ds).contains_key(
            (#[trigger] ds[i]).file_id,
        ) && initial_assemblies(ds)[ds[i].file_id] == fresh_assembly(ds[i]) by {
            if i < ds.len() - 1 {
                assert(rest[i] == ds[i]);
                assert(ds[i].file_id != ds[ds.len() - 1].file_id);
            }
        }
    }
}

proof fn lemma_received_sum_zero(files: Map<u128, AssemblyState>, ds: Seq<TransferFileDescriptor>)
    requires
        forall|i: int| 0 <= i < ds.len() ==> files[(#[trigger] ds[i]).file_id].received == 0,
    ensures
        received_sum(files, ds) == 0,
    decreases ds.len(),
{
    if ds.len() > 0 {
        let rest = ds.drop_last();
        assert forall|i: int| 0 <= i < rest.len() implies files[(#[trigger] rest[i]).file_id].received
            == 0 by {
            assert(rest[i] == ds[i]);
        }
        lemma_received_sum_zero(files, rest);
        assert(files[ds[ds.len() - 1].file_id].received == 0);
    }
}

proof fn lemma_received_sum_full(files: Map<u128, AssemblyState>, ds: Seq<TransferFileDescriptor>)
    requires
        forall|i: int|
            0 <= i < ds.len() ==> files[(#[trigger] ds[i]).file_id].received == ds[i].size_bytes,
    ensures
        received_sum(files, ds) == total_size(ds),
    decreases ds.len(),
{
    if ds.len() > 0 {
        let rest = ds.drop_last();
        assert forall|i: int| 0 <= i < rest.len() implies files[(#[trigger] rest[i]).file_id].received
            == rest[i].size_bytes by {
            assert(rest[i] == ds[i]);
        }
        lemma_received_sum_full(files, rest);
        assert(files[ds[ds.len() - 1].file_id].received == ds[ds.len() - 1].size_bytes);
    }
}

proof fn lemma_received_sum_update(
    files: Map<u128, AssemblyState>,
    ds: Seq<TransferFileDescriptor>,
    j: int,
    a: AssemblyState,
)
    requires
        unique_file_ids(ds),
        0 <= j < ds.len(),
    ensures
        received_sum(files.insert(ds[j].file_id, a), ds) + files[ds[j].file_id].received
            == received_sum(files, ds) + a.received,
    decreases ds.len(),
{
    let rest = ds.drop_last();
    let id = ds[j].file_id;
    let after = files.insert(id, a);
    if j < ds.len() - 1 {
        assert(unique_file_ids(rest)) by {
            assert forall|x: int, y: int|
                0 <= x < rest.len() && 0 <= y < rest.len() && x != y implies (#[trigger] rest[x]).file_id
                != (#[trigger] rest[y]).file_id by {
                assert(rest[x] == ds[x] && rest[y] == ds[y]);
            }
        }
        assert(rest[j] == ds[j]);
        lemma_received_sum_update(files, rest, j, a);
        assert(ds.last().file_id != id);
        assert(after[ds.last().file_id] == files[ds.last().file_id]);
    } else {
        lemma_received_sum_unchanged(files, after, rest, id);
    }
}

proof fn lemma_received_sum_unchanged(
    files: Map<u128, AssemblyState>,
    after: Map<u128, AssemblyState>,
    ds: Seq<TransferFileDescriptor>,
    id: u128,
)
    requires
        forall|i: int| 0 <= i < ds.len() ==> (#[trigger] ds[i]).file_id != id,
        forall|k: u128| k != id ==> #[trigger] after[k] == files[k],
    ensures
        received_sum(after, ds) == received_sum(files, ds),
    decreases ds.len(),
{
    if ds.len() > 0 {
        let rest = ds.drop_last();
        assert forall|i: int| 0 <= i < rest.len() implies (#[trigger] rest[i]).file_id != id by {
            assert(rest[i] == ds[i]);
        }
        lemma_received_sum_unchanged(files, after, rest, id);
        assert(ds[ds.len() - 1].file_id != id);
        assert(after[ds.last().file_id] == files[ds.last().file_id]);
    }
}

proof fn lemma_assembly_error_none(files: Map<u128, AssemblyState>, ds: Seq<TransferFileDescriptor>)
    requires
        forall|i: int|
            0 <= i < ds.len() ==> files.contains_key((#[trigger] ds[i]).file_id)
                && files[ds[i].file_id].received == ds[i].size_bytes,
    ensures
        assembly_error(files, ds) is None,
    decreases ds.len(),
{
    if ds.len() > 0 {
        let rest = ds.drop_first();
        assert forall|i: int| 0 <= i < rest.len() implies files.contains_key(
            (#[trigger] rest[i]).file_id,
        ) && files[rest[i].file_id].received == rest[i].size_bytes by {
            assert(rest[i] == ds[i + 1]);
        }
        assert(files.contains_key(ds[0].file_id));
        lemma_assembly_error_none(files, rest);
    }
}

/// A chunk of the plan passes every check of a receiver fed only such
/// chunks.
proof fn lemma_plan_chunk_passes(
    s: ReceiverState,
    plan: TransferPlan,
    data: Seq<Seq<u8>>,
    c: TransferChunk,
    i: int,
    k: int,
)
    requires
        plan.chunk_size_bytes > 0,
        contents_fit(plan, data),
        honest_state(s, plan, data),
        is_plan_chunk(plan, data, c, i, k),
    ensures
        accept_outcome(s, c) == Ok::<ReceiverState, crate::transfer::TransferError>(
            accepted_state(s, c),
        ),
{
    let size = plan.chunk_size_bytes as nat;
    let len = data[i].len();
    lemma_chunk_bounds(k, size, len);
    let id = plan.manifest.files@[i].file_id;
    assert(s.files.contains_key(id));
    assert(s.files[id].bytes.len() == len);
}

/// Positions covered once a range is added.
proof fn lemma_covered_insert(ranges: Set<(u64, u64)>, r: (u64, u64))
    ensures
        covered(ranges.insert(r)) == covered(ranges) + set_int_range(r.0 as int, r.0 + r.1),
{
    assert forall|x: int| covered(ranges.insert(r)).contains(x) <==> (covered(ranges)
        + set_int_range(r.0 as int, r.0 + r.1)).contains(x) by {
        if covered(ranges.insert(r)).contains(x) {
            let w = choose|w: (u64, u64)| ranges.insert(r).contains(w) && w.0 <= x < w.0 + w.1;
            if w != r {
                assert(ranges.contains(w));
            }
        }
        if covered(ranges).contains(x) {
            let w = choose|w: (u64, u64)| ranges.contains(w) && w.0 <= x < w.0 + w.1;
            assert(ranges.insert(r).contains(w));
        }
        if set_int_range(r.0 as int, r.0 + r.1).contains(x) {
            assert(ranges.insert(r).contains(r));
        }
    }
    assert(covered(ranges.insert(r)) =~= covered(ranges) + set_int_range(r.0 as int, r.0 + r.1));
}

/// Writing a new chunk keeps a file assembled from honest chunks.
proof fn lemma_fresh_chunk_assembly(
    a: AssemblyState,
    id: u128,
    data: Seq<u8>,
    size: nat,
    accepted: Set<(u128, u64, u64)>,
    k: int,
)
    requires
        size > 0,
        data.len() <= u64::MAX,
        0 <= k < chunk_count(data.len(), size),
        assembly_inv(a, id, data, size, accepted),
        !accepted.contains(key_of(id, k, size)),
    ensures
        !a.ranges.contains(range_of(k, size, data.len())),
        assembly_inv(
            AssemblyState {
                descriptor: a.descriptor,
                bytes: splice(
                    a.bytes,
                    k * size,
                    data.subrange(k * size, chunk_end(k, size, data.len())),
                ),
                ranges: a.ranges.insert(range_of(k, size, data.len())),
                received: (a.received + (chunk_end(k, size, data.len()) - k * size)) as nat,
            },
            id,
            data,
            size,
            accepted.insert(key_of(id, k, size)),
        ),
{
    let len = data.len();
    let r = range_of(k, size, len);
    let start = k * size;
    let end = chunk_end(k, size, len);
    lemma_chunk_bounds(k, size, len);
    let piece = data.subrange(start, end);
    let bytes2 = splice(a.bytes, start, piece);
    let ranges2 = a.ranges.insert(r);
    let acc2 = accepted.insert(key_of(id, k, size));
    assert(r.0 == start && r.1 == end - start);
    let interval = set_int_range(start, end);
    lemma_int_range(start, end);
    lemma_covered_insert(a.ranges, r);
    assert(covered(ranges2) == covered(a.ranges) + interval);
    // the new positions were not covered before
    assert(covered(a.ranges).disjoint(interval)) by {
        assert forall|x: int| covered(a.ranges).contains(x) implies !interval.contains(x) by {
            let w = choose|w: (u64, u64)| a.ranges.contains(w) && w.0 <= x < w.0 + w.1;
            let k2 = choose|k2: int|
                0 <= k2 < chunk_count(len, size) && w == range_of(k2, size, len);
            lemma_chunk_bounds(k2, size, len);
            if k2 != k {
                lemma_chunks_distinct(k, k2, size, len);
                assert(!(in_chunk(x, k, size, len) && in_chunk(x, k2, size, len)));
            } else {
                assert(a.ranges.contains(r));
                assert(accepted.contains(key_of(id, k, size)));
            }
        }
    }
    lemma_set_disjoint_lens(covered(a.ranges), interval);
    // the ranges are still those of accepted chunks
    assert forall|k2: int| 0 <= k2 < chunk_count(len, size) implies (ranges2.contains(
        #[trigger] range_of(k2, size, len),
    ) <==> acc2.contains(key_of(id, k2, size))) by {
        if k2 != k {
            lemma_chunks_distinct(k, k2, size, len);
            lemma_chunk_bounds(k2, size, len);
            assert(k2 <= k2 * size && k <= k * size) by (nonlinear_arith)
                requires
                    size >= 1,
                    k2 >= 0,
                    k >= 0,
            ;
            assert((k2 as u64) != (k as u64));
            assert(key_of(id, k2, size) != key_of(id, k, size));
        }
    }
    assert forall|w: (u64, u64)| #[trigger] ranges2.contains(w) implies exists|k2: int|
        0 <= k2 < chunk_count(len, size) && w == range_of(k2, size, len) by {
        if w == r {
            assert(0 <= k < chunk_count(len, size) && w == range_of(k, size, len));
        }
    }
    // the bytes written are the file's
    assert(bytes2.len() == a.bytes.len());
    assert forall|x: int| #[trigger] covered(ranges2).contains(x) implies 0 <= x < len && bytes2[x]
        == data[x] by {
        if interval.contains(x) {
            assert(bytes2[x] == piece[x - start]);
        } else {
            assert(covered(a.ranges).contains(x));
            assert(bytes2[x] == a.bytes[x]);
        }
    }
}

/// Taking in a chunk of the plan keeps the receiver honest and remembers
/// the chunk.
#[verifier::rlimit(40)]
proof fn lemma_plan_chunk_step(
    s: ReceiverState,
    plan: TransferPlan,
    data: Seq<Seq<u8>>,
    c: TransferChunk,
    i: int,
    k: int,
)
    requires
        plan.chunk_size_bytes > 0,
        contents_fit(plan, data),
        unique_file_ids(plan.manifest.files@),
        honest_state(s, plan, data),
        is_plan_chunk(plan, data, c, i, k),
    ensures
        honest_state(accepted_state(s, c), plan, data),
        accepted_state(s, c).accepted == s.accepted.insert(
            key_of(plan.manifest.files@[i].file_id, k, plan.chunk_size_bytes as nat),
        ),
{
    let size = plan.chunk_size_bytes as nat;
    let ds = plan.manifest.files@;
    let id = ds[i].file_id;
    let len = data[i].len();
    let key = key_of(id, k, size);
    let r = range_of(k, size, len);
    let a = s.files[id];
    lemma_chunk_bounds(k, size, len);
    assert(k <= k * size) by (nonlinear_arith)
        requires
            size >= 1,
            k >= 0,
    ;
    assert((c.file_id, c.offset, c.chunk_index) == key);
    assert((c.offset, c.bytes@.len() as u64) == r);
    let s2 = accepted_state(s, c);
    assert(assembly_inv(a, id, data[i], size, s.accepted));
    if s.accepted.contains(key) {
        assert(a.ranges.contains(r));
        assert(s.accepted.insert(key) =~= s.accepted);
        assert(s2.files == s.files);
        assert(s2.transferred == s.transferred);
    } else {
        lemma_fresh_chunk_assembly(a, id, data[i], size, s.accepted, k);
        let a2 = s2.files[id];
        assert(a2 == AssemblyState {
            descriptor: a.descriptor,
            bytes: splice(a.bytes, k * size, data[i].subrange(k * size, chunk_end(k, size, len))),
            ranges: a.ranges.insert(r),
            received: (a.received + (chunk_end(k, size, len) - k * size)) as nat,
        });
        assert(s2.files == s.files.insert(id, a2));
        lemma_received_sum_update(s.files, ds, i, a2);
        assert forall|j: int| 0 <= j < data.len() && j != i implies assembly_inv(
            s2.files[(#[trigger] ds[j]).file_id],
            ds[j].file_id,
            data[j],
            size,
            s2.accepted,
        ) by {
            let idj = ds[j].file_id;
            assert(idj != id);
            assert(s2.files[idj] == s.files[idj]);
            assert(assembly_inv(s.files[idj], idj, data[j], size, s.accepted));
            assert forall|k2: int| 0 <= k2 < chunk_count(data[j].len(), size) implies (s.files[idj].ranges.contains(
                #[trigger] range_of(k2, size, data[j].len()),
            ) <==> s2.accepted.contains(key_of(idj, k2, size))) by {
                assert(key_of(idj, k2, size) != key);
            }
        }
    }
}

proof fn lemma_start_is_honest(plan: TransferPlan, data: Seq<Seq<u8>>)
    requires
        contents_fit(plan, data),
        unique_file_ids(plan.manifest.files@),
    ensures
        honest_state(receiver_start(plan), plan, data),
{
    let ds = plan.manifest.files@;
    let s = receiver_start(plan);
    lemma_initial_assemblies(ds);
    assert(covered(Set::<(u64, u64)>::empty()) =~= Set::<int>::empty());
    assert forall|i: int| 0 <= i < data.len() implies s.files.contains_key(
        (#[trigger] ds[i]).file_id,
    ) && assembly_inv(
        s.files[ds[i].file_id],
        ds[i].file_id,
        data[i],
        plan.chunk_size_bytes as nat,
        s.accepted,
    ) by {
        assert(s.files[ds[i].file_id] == fresh_assembly(ds[i]));
    }
    assert forall|i: int| 0 <= i < ds.len() implies s.files[(#[trigger] ds[i]).file_id].received
        == 0 by {
        assert(s.files[ds[i].file_id] == fresh_assembly(ds[i]));
    }
    lemma_received_sum_zero(s.files, ds);
}

/// Feeding chunks of the plan, one after the other, never fails, keeps the
/// receiver honest, and remembers every chunk fed.
proof fn lemma_plan_chunks_fold(plan: TransferPlan, data: Seq<Seq<u8>>, chunks: Seq<TransferChunk>)
    requires
        plan.chunk_size_bytes > 0,
        contents_fit(plan, data),
        unique_file_ids(plan.manifest.files@),
        forall|j: int| 0 <= j < chunks.len() ==> #[trigger] is_any_plan_chunk(plan, data, chunks[j]),
    ensures
        accept_all(receiver_start(plan), chunks) matches Ok(s) && honest_state(s, plan, data)
            && (forall|j: int, i: int, k: int|
            0 <= j < chunks.len() && #[trigger] is_plan_chunk(plan, data, chunks[j], i, k)
                ==> s.accepted.contains(
                key_of(plan.manifest.files@[i].file_id, k, plan.chunk_size_bytes as nat),
            )) && (chunks.len() > 0 ==> s.status == if s.transferred
            >= plan.manifest.total_bytes {
            TransferStatus::Completed
        } else {
            TransferStatus::InProgress
        }),
    decreases chunks.len(),
{
    if chunks.len() == 0 {
        lemma_start_is_honest(plan, data);
    } else {
        let rest = chunks.drop_last();
        assert forall|j: int| 0 <= j < rest.len() implies #[trigger] is_any_plan_chunk(plan, data, rest[j]) by {
            assert(rest[j] == chunks[j]);
        }
        lemma_plan_chunks_fold(plan, data, rest);
        let before = accept_all(receiver_start(plan), rest)->Ok_0;
        let c = chunks[chunks.len() - 1];
        assert(c == chunks.last());
        assert(is_any_plan_chunk(plan, data, c));
        let (i, k) = choose|i: int, k: int| #[trigger] is_plan_chunk(plan, data, c, i, k);
        lemma_plan_chunk_passes(before, plan, data, c, i, k);
        lemma_plan_chunk_step(before, plan, data, c, i, k);
        let after = accepted_state(before, c);
        assert forall|j: int, i2: int, k2: int|
            0 <= j < chunks.len() && #[trigger] is_plan_chunk(plan, data, chunks[j], i2, k2)
                implies after.accepted.contains(
            key_of(plan.manifest.files@[i2].file_id, k2, plan.chunk_size_bytes as nat),
        ) by {
            if j < chunks.len() - 1 {
                assert(rest[j] == chunks[j]);
            } else {
                assert(plan.manifest.files@[i2].file_id == c.file_id);
                assert(plan.manifest.files@[i].file_id == c.file_id);
                if i2 != i {
                    assert(plan.manifest.files@[i2].file_id != plan.manifest.files@[i].file_id);
                }
                assert(k2 == c.chunk_index);
                assert(k == c.chunk_index);
            }
        }
    }
}

/// A file all of whose chunks were taken in holds exactly the file's bytes
/// and counts all of them.
proof fn lemma_complete_file(a: AssemblyState, id: u128, data: Seq<u8>, size: nat, accepted: Set<
    (u128, u64, u64),
>)
    requires
        size > 0,
        data.len() <= u64::MAX,
        assembly_inv(a, id, data, size, accepted),
        forall|k: int|
            0 <= k < chunk_count(data.len(), size) ==> accepted.contains(
                #[trigger] key_of(id, k, size),
            ),
    ensures
        a.bytes == data,
        a.received == data.len(),
{
    let len = data.len();
    let all = set_int_range(0, len as int);
    assert forall|x: int| covered(a.ranges).contains(x) <==> all.contains(x) by {
        if 0 <= x < len {
            lemma_position_in_chunk(x, size, len);
            let k = x / (size as int);
            assert(accepted.contains(key_of(id, k, size)));
            assert(a.ranges.contains(range_of(k, size, len)));
            lemma_chunk_bounds(k, size, len);
            let r = range_of(k, size, len);
            assert(r.0 <= x < r.0 + r.1);
        }
    }
    assert(covered(a.ranges) =~= all);
    lemma_int_range(0, len as int);
    assert forall|x: int| 0 <= x < len implies a.bytes[x] == data[x] by {
        assert(covered(a.ranges).contains(x));
    }
    assert(a.bytes =~= data);
}

/// Fed every chunk of every file of an approved plan, in any order and with
/// repetitions, a new receiver takes each of them in and completes, and
/// each file it assembled holds exactly the file's bytes. The plan must
/// list each file once and its total must be the sum of the file sizes (as
/// `plan_transfer` makes it); at least one chunk must be fed.
pub proof fn lemma_chunks_reassemble(plan: TransferPlan, data: Seq<Seq<u8>>, chunks: Seq<TransferChunk>)
    requires
        plan.status == TransferStatus::Approved || plan.status == TransferStatus::InProgress,
        plan.chunk_size_bytes > 0,
        contents_fit(plan, data),
        unique_file_ids(plan.manifest.files@),
        plan.manifest.total_bytes == total_size(plan.manifest.files@),
        chunks.len() > 0,
        forall|j: int| 0 <= j < chunks.len() ==> #[trigger] is_any_plan_chunk(plan, data, chunks[j]),
        forall|i: int, k: int|
            0 <= i < data.len() && 0 <= k < chunk_count(
                data[i].len(),
                plan.chunk_size_bytes as nat,
            ) ==> #[trigger] is_fed(plan, data, chunks, i, k),
    ensures
        crate::transfer::receiver_error(plan) is None,
        accept_all(receiver_start(plan), chunks) matches Ok(s) && completion_error(s) is None
            && forall|i: int|
            0 <= i < data.len() ==> s.files[(#[trigger] plan.manifest.files@[i]).file_id].bytes
                == data[i],
{
    let ds = plan.manifest.files@;
    let size = plan.chunk_size_bytes as nat;
    lemma_plan_chunks_fold(plan, data, chunks);
    let s = accept_all(receiver_start(plan), chunks)->Ok_0;
    assert forall|i: int| 0 <= i < data.len() implies s.files[(#[trigger] ds[i]).file_id].bytes
        == data[i] && s.files[ds[i].file_id].received == ds[i].size_bytes by {
        assert(assembly_inv(s.files[ds[i].file_id], ds[i].file_id, data[i], size, s.accepted));
        assert forall|k: int| 0 <= k < chunk_count(data[i].len(), size) implies s.accepted.contains(
            #[trigger] key_of(ds[i].file_id, k, size),
        ) by {
            assert(is_fed(plan, data, chunks, i, k));
            let j = choose|j: int| 0 <= j < chunks.len() && #[trigger] is_plan_chunk(plan, data, chunks[j], i, k);
        }
        lemma_complete_file(s.files[ds[i].file_id], ds[i].file_id, data[i], size, s.accepted);
    }
    lemma_received_sum_full(s.files, ds);
    lemma_assembly_error_none(s.files, ds);
    assert forall|i: int| 0 <= i < ds.len() implies #[trigger] ds[i].size_bytes <= usize::MAX by {
        assert(data[i].len() == ds[i].size_bytes);
    }
    crate::transfer::lemma_first_too_large_none(ds);
}

} // verus!
