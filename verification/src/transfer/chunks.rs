use vstd::prelude::*;
use std::collections::HashSet;
use vstd::arithmetic::div_mod::lemma_fundamental_div_mod_converse;

verus! {

/// One chunk of one file: which file, which chunk, and the byte range it covers.
#[derive(Debug, Clone, Copy, PartialEq, Eq, Structural)]
pub struct ChunkPlan {
    pub file_index: usize,
    pub chunk_index: u64,
    pub offset: u64,
    pub length: u64,
}

/// A chunk whose digest has already been verified; keyed by file and chunk index.
#[derive(Debug, Clone, Copy, PartialEq, Eq, Hash, Structural)]
pub struct VerifiedChunk {
    pub file_index: usize,
    pub chunk_index: u64,
}

/// Number of chunks of `chunk_size` bytes needed to cover `file_size` bytes
/// (none when either is zero).
pub open spec fn chunk_count(file_size: nat, chunk_size: nat) -> nat {
    if file_size == 0 || chunk_size == 0 {
        0
    } else {
        ((file_size + chunk_size - 1) / (chunk_size as int)) as nat
    }
}

pub open spec fn min_int(a: int, b: int) -> int {
    if a <= b { a } else { b }
}

/// The `k`-th chunk of a file: it starts at `k * chunk_size` and is `chunk_size`
/// long, except the last one, which ends at the end of the file.
pub open spec fn planned_chunk(file_index: usize, file_size: nat, chunk_size: nat, k: int) -> ChunkPlan {
    ChunkPlan {
        file_index,
        chunk_index: k as u64,
        offset: (k * chunk_size) as u64,
        length: min_int(chunk_size as int, file_size - k * chunk_size) as u64,
    }
}

/// The chunk plan of a file, in order of chunk index.
pub open spec fn chunk_plan_spec(file_index: usize, file_size: nat, chunk_size: nat) -> Seq<ChunkPlan> {
    Seq::new(chunk_count(file_size, chunk_size), |k: int| planned_chunk(file_index, file_size, chunk_size, k))
}

proof fn lemma_chunk_count_exact(file_size: nat, chunk_size: nat, n: nat)
    requires
        chunk_size > 0,
        file_size > 0,
        n > 0,
        (n - 1) * chunk_size < file_size <= n * chunk_size,
    ensures
        chunk_count(file_size, chunk_size) == n,
{
    let q = (file_size + chunk_size - 1) / (chunk_size as int);
    assert(q == n) by (nonlinear_arith)
        requires
            chunk_size > 0,
            (n - 1) * chunk_size < file_size <= n * chunk_size,
            q == (file_size + chunk_size - 1) / (chunk_size as int),
    {
        let t = file_size + chunk_size - 1;
        assert(n * chunk_size <= t < (n + 1) * chunk_size);
        vstd::arithmetic::div_mod::lemma_fundamental_div_mod(t, chunk_size as int);
    }
}

/// Splits a file of `file_size` bytes into chunks of `chunk_size` bytes: chunk `k`
/// starts at `k * chunk_size`, and the last chunk holds what is left.
/// An empty file, or a chunk size of zero, gives no chunks.
pub fn chunk_plan_for_file(file_index: usize, file_size: u64, chunk_size: u64) -> (chunks: Vec<ChunkPlan>)
    ensures
        chunks@ == chunk_plan_spec(file_index, file_size as nat, chunk_size as nat),
{
    if file_size == 0 || chunk_size == 0 {
        return Vec::new();
    }
    let mut chunks: Vec<ChunkPlan> = Vec::new();
    let mut offset: u64 = 0;
    let mut chunk_index: u64 = 0;
    while offset < file_size
        invariant
            file_size > 0,
            chunk_size > 0,
            offset <= file_size,
            offset == chunk_index * chunk_size || offset == file_size,
            offset < file_size ==> offset == chunk_index * chunk_size,
            chunk_index > 0 ==> (chunk_index - 1) * chunk_size < file_size,
            offset == file_size ==> file_size <= chunk_index * chunk_size,
            chunks@.len() == chunk_index,
            forall|k: int| 0 <= k < chunk_index ==> chunks@[k] == planned_chunk(file_index, file_size as nat, chunk_size as nat, k),
        decreases file_size - offset,
    {
        let remaining = file_size - offset;
        let length = if remaining < chunk_size { remaining } else { chunk_size };
        chunks.push(ChunkPlan { file_index, chunk_index, offset, length });
        proof {
            assert((chunk_index + 1) * chunk_size == chunk_index * chunk_size + chunk_size) by (nonlinear_arith);
            assert(chunk_index <= chunk_index * chunk_size) by (nonlinear_arith)
                requires chunk_size >= 1;
        }
        offset = offset + length;
        chunk_index = chunk_index + 1;
    }
    proof {
        lemma_chunk_count_exact(file_size as nat, chunk_size as nat, chunk_index as nat);
    }
    assert(chunks@ =~= chunk_plan_spec(file_index, file_size as nat, chunk_size as nat));
    chunks
}

/// Whether `verified` holds the key (file index, chunk index) of `chunk`.
pub open spec fn is_verified(verified: Seq<VerifiedChunk>, chunk: ChunkPlan) -> bool {
    exists|j: int| 0 <= j < verified.len() && verified[j].file_index == chunk.file_index
        && verified[j].chunk_index == chunk.chunk_index
}

/// The chunks still to fetch: those whose (file index, chunk index) is not verified,
/// in their original order.
pub open spec fn pending_chunks(chunks: Seq<ChunkPlan>, verified: Seq<VerifiedChunk>) -> Seq<ChunkPlan> {
    chunks.filter(|c: ChunkPlan| !is_verified(verified, c))
}

/// The number that keys a chunk among the verified ones: the file index above the
/// low 64 bits, the chunk index in them. Distinct (file, chunk) pairs get distinct keys.
pub open spec fn chunk_key(file_index: usize, chunk_index: u64) -> int {
    file_index as int * 0x1_0000_0000_0000_0000 + chunk_index as int
}

proof fn lemma_chunk_key_injective(f1: usize, c1: u64, f2: usize, c2: u64)
    requires
        chunk_key(f1, c1) == chunk_key(f2, c2),
    ensures
        f1 == f2,
        c1 == c2,
{
    let d: int = 0x1_0000_0000_0000_0000;
    lemma_fundamental_div_mod_converse(chunk_key(f1, c1), d, f1 as int, c1 as int);
    lemma_fundamental_div_mod_converse(chunk_key(f2, c2), d, f2 as int, c2 as int);
}

fn chunk_key_of(file_index: usize, chunk_index: u64) -> (key: u128)
    ensures
        key == chunk_key(file_index, chunk_index),
{
    let f = file_index as u128;
    let c = chunk_index as u128;
    assert(f <= 0xffff_ffff_ffff_ffff);
    assert(f * 0x1_0000_0000_0000_0000 + c <= u128::MAX) by (nonlinear_arith)
        requires
            f <= 0xffff_ffff_ffff_ffff,
            c <= 0xffff_ffff_ffff_ffff,
    ;
    f * 0x1_0000_0000_0000_0000u128 + c
}

/// Whether one of the first `n` verified chunks has the key `k`.
spec fn has_key_among(verified: Seq<VerifiedChunk>, n: int, k: int) -> bool {
    exists|m: int| 0 <= m < n && #[trigger] chunk_key(verified[m].file_index, verified[m].chunk_index) == k
}

/// Drops from a chunk plan every chunk already verified, matching on both the
/// file index and the chunk index, and keeps the others in order. The verified
/// chunks are gathered first in a `HashSet` of their keys (`chunk_key`).
pub fn resume_chunk_plan(chunks: Vec<ChunkPlan>, verified_chunks: &[VerifiedChunk]) -> (pending: Vec<ChunkPlan>)
    ensures
        pending@ == pending_chunks(chunks@, verified_chunks@),
{
    broadcast use vstd::std_specs::hash::group_hash_axioms;
    let mut verified: HashSet<u128> = HashSet::new();
    let mut j: usize = 0;
    while j < verified_chunks.len()
        invariant
            j <= verified_chunks@.len(),
            forall|k: u128| #![trigger verified@.contains(k)]
                verified@.contains(k) <==> has_key_among(verified_chunks@, j as int, k as int),
        decreases verified_chunks@.len() - j,
    {
        let key = chunk_key_of(verified_chunks[j].file_index, verified_chunks[j].chunk_index);
        verified.insert(key);
        proof {
            let vc = verified_chunks@;
            assert forall|k: u128| #![trigger verified@.contains(k)]
                verified@.contains(k) <==> has_key_among(vc, j + 1, k as int) by {
                if has_key_among(vc, j + 1, k as int) {
                    let m = choose|m: int| 0 <= m < j + 1
                        && #[trigger] chunk_key(vc[m].file_index, vc[m].chunk_index) == k as int;
                    if m < j {
                        assert(has_key_among(vc, j as int, k as int));
                    }
                }
                if has_key_among(vc, j as int, k as int) {
                    let m = choose|m: int| 0 <= m < j
                        && #[trigger] chunk_key(vc[m].file_index, vc[m].chunk_index) == k as int;
                    assert(has_key_among(vc, j + 1, k as int));
                }
                if k == key {
                    assert(chunk_key(vc[j as int].file_index, vc[j as int].chunk_index) == k as int);
                    assert(has_key_among(vc, j + 1, k as int));
                }
            }
        }
        j = j + 1;
    }
    let mut pending: Vec<ChunkPlan> = Vec::new();
    let mut i: usize = 0;
    while i < chunks.len()
        invariant
            i <= chunks@.len(),
            forall|k: u128| #![trigger verified@.contains(k)]
                verified@.contains(k) <==> has_key_among(verified_chunks@, verified_chunks@.len() as int, k as int),
            pending@ == pending_chunks(chunks@.take(i as int), verified_chunks@),
        decreases chunks@.len() - i,
    {
        let chunk = chunks[i];
        let key = chunk_key_of(chunk.file_index, chunk.chunk_index);
        let found = verified.contains(&key);
        proof {
            let vc = verified_chunks@;
            if found {
                assert(verified@.contains(key));
                let m = choose|m: int| 0 <= m < vc.len()
                    && #[trigger] chunk_key(vc[m].file_index, vc[m].chunk_index) == key as int;
                lemma_chunk_key_injective(vc[m].file_index, vc[m].chunk_index, chunk.file_index, chunk.chunk_index);
                assert(is_verified(vc, chunk));
            }
            if is_verified(vc, chunk) {
                let m = choose|m: int| 0 <= m < vc.len() && vc[m].file_index == chunk.file_index
                    && vc[m].chunk_index == chunk.chunk_index;
                assert(chunk_key(vc[m].file_index, vc[m].chunk_index) == key as int);
                assert(has_key_among(vc, vc.len() as int, key as int));
                assert(verified@.contains(key));
            }
            assert(found == is_verified(vc, chunk));
            assert(chunks@.take(i as int + 1).drop_last() =~= chunks@.take(i as int));
            reveal_with_fuel(Seq::<_>::filter, 1);
        }
        if !found {
            pending.push(chunk);
        }
        i = i + 1;
    }
    assert(chunks@.take(chunks@.len() as int) =~= chunks@);
    pending
}

/// Sum of the chunk lengths of a plan.
pub open spec fn total_length(chunks: Seq<ChunkPlan>) -> nat
    decreases chunks.len(),
{
    if chunks.len() == 0 {
        0
    } else {
        total_length(chunks.drop_last()) + chunks.last().length as nat
    }
}

proof fn lemma_plan_prefix_length(file_index: usize, file_size: nat, chunk_size: nat, k: nat)
    requires
        file_size <= u64::MAX,
        chunk_size > 0,
        k <= chunk_count(file_size, chunk_size),
    ensures
        total_length(chunk_plan_spec(file_index, file_size, chunk_size).take(k as int))
            == min_int(file_size as int, (k * chunk_size) as int),
    decreases k,
{
    let plan = chunk_plan_spec(file_index, file_size, chunk_size);
    if k == 0 {
        assert(plan.take(0) =~= Seq::<ChunkPlan>::empty());
    } else {
        let j = (k - 1) as nat;
        lemma_plan_prefix_length(file_index, file_size, chunk_size, j);
        assert(plan.take(k as int).drop_last() =~= plan.take(j as int));
        lemma_chunk_start_inside(file_size, chunk_size, j);
        assert(k * chunk_size == j * chunk_size + chunk_size) by (nonlinear_arith)
            requires k == j + 1;
    }
}

proof fn lemma_chunk_start_inside(file_size: nat, chunk_size: nat, j: nat)
    requires
        chunk_size > 0,
        j < chunk_count(file_size, chunk_size),
    ensures
        j * chunk_size < file_size,
{
    let n = chunk_count(file_size, chunk_size);
    let t = file_size + chunk_size - 1;
    assert(n == t / (chunk_size as int));
    assert(j * chunk_size < file_size) by (nonlinear_arith)
        requires
            chunk_size > 0,
            j < n,
            n == t / (chunk_size as int),
            t == file_size + chunk_size - 1,
    {
        vstd::arithmetic::div_mod::lemma_fundamental_div_mod(t, chunk_size as int);
        assert((j + 1) * chunk_size <= n * chunk_size);
    }
}

/// A chunk plan covers its file exactly: the first chunk starts at 0, each chunk
/// starts where the previous one ends, no chunk is empty or longer than the chunk
/// size, and the lengths add up to the file size.
pub proof fn lemma_chunk_plan_covers_file(file_index: usize, file_size: u64, chunk_size: u64)
    requires
        chunk_size > 0,
    ensures
        ({
            let plan = chunk_plan_spec(file_index, file_size as nat, chunk_size as nat);
            &&& total_length(plan) == file_size
            &&& plan.len() > 0 ==> plan[0].offset == 0
            &&& forall|k: int| 0 <= k < plan.len() ==> 0 < #[trigger] plan[k].length <= chunk_size
            &&& forall|k: int| 0 <= k < plan.len() ==> plan[k].offset + plan[k].length <= file_size
            &&& forall|k: int| 0 <= k < plan.len() - 1 ==> #[trigger] plan[k + 1].offset == plan[k].offset + plan[k].length
        }),
{
    let plan = chunk_plan_spec(file_index, file_size as nat, chunk_size as nat);
    let n = chunk_count(file_size as nat, chunk_size as nat);
    lemma_plan_prefix_length(file_index, file_size as nat, chunk_size as nat, n);
    assert(plan.take(n as int) =~= plan);
    if file_size > 0 {
        let t = file_size + chunk_size - 1;
        assert(t / (chunk_size as int) >= 1) by (nonlinear_arith)
            requires
                chunk_size > 0,
                t >= chunk_size,
        {
            vstd::arithmetic::div_mod::lemma_fundamental_div_mod(t, chunk_size as int);
        }
    }
    if n > 0 {
        lemma_chunk_start_inside(file_size as nat, chunk_size as nat, (n - 1) as nat);
        let t = file_size + chunk_size - 1;
        assert(file_size <= n * chunk_size) by (nonlinear_arith)
            requires
                chunk_size > 0,
                n == t / (chunk_size as int),
                t == file_size + chunk_size - 1,
        {
            vstd::arithmetic::div_mod::lemma_fundamental_div_mod(t, chunk_size as int);
        }
    }
    assert forall|k: int| 0 <= k < plan.len() implies 0 < #[trigger] plan[k].length <= chunk_size
        && plan[k].offset + plan[k].length <= file_size by {
        lemma_chunk_start_inside(file_size as nat, chunk_size as nat, k as nat);
    }
    assert forall|k: int| 0 <= k < plan.len() - 1 implies #[trigger] plan[k + 1].offset
        == plan[k].offset + plan[k].length by {
        lemma_chunk_start_inside(file_size as nat, chunk_size as nat, (k + 1) as nat);
        assert((k + 1) * chunk_size == k * chunk_size + chunk_size) by (nonlinear_arith);
    }
}

pub(crate) proof fn lemma_filter_keeps_all<A>(s: Seq<A>, p: spec_fn(A) -> bool)
    requires
        forall|i: int| 0 <= i < s.len() ==> p(#[trigger] s[i]),
    ensures
        s.filter(p) == s,
    decreases s.len(),
{
    reveal_with_fuel(Seq::<_>::filter, 1);
    if s.len() > 0 {
        lemma_filter_keeps_all(s.drop_last(), p);
        assert(s.drop_last().push(s.last()) =~= s);
    }
}

/// With nothing verified yet, resuming keeps the whole plan.
pub proof fn lemma_resume_without_verified_chunks(chunks: Seq<ChunkPlan>)
    ensures
        pending_chunks(chunks, Seq::empty()) == chunks,
{
    lemma_filter_keeps_all(chunks, |c: ChunkPlan| !is_verified(Seq::<VerifiedChunk>::empty(), c));
}

/// Verified chunks are keyed by file as well as by chunk index: chunks of a file
/// for which nothing is verified are all kept, whatever chunk indices other files
/// have verified.
pub proof fn lemma_resume_keys_by_file(chunks: Seq<ChunkPlan>, verified: Seq<VerifiedChunk>, file_index: usize)
    requires
        forall|k: int| 0 <= k < chunks.len() ==> #[trigger] chunks[k].file_index == file_index,
        forall|j: int| 0 <= j < verified.len() ==> #[trigger] verified[j].file_index != file_index,
    ensures
        pending_chunks(chunks, verified) == chunks,
{
    lemma_filter_keeps_all(chunks, |c: ChunkPlan| !is_verified(verified, c));
}

/// Resuming twice with the same verified set is the same as resuming once, and
/// nothing that is still pending has been verified.
pub proof fn lemma_resume_idempotent(chunks: Seq<ChunkPlan>, verified: Seq<VerifiedChunk>)
    ensures
        pending_chunks(pending_chunks(chunks, verified), verified) == pending_chunks(chunks, verified),
        forall|k: int| 0 <= k < pending_chunks(chunks, verified).len()
            ==> !is_verified(verified, #[trigger] pending_chunks(chunks, verified)[k]),
{
    let p = |c: ChunkPlan| !is_verified(verified, c);
    let once = chunks.filter(p);
    broadcast use vstd::seq_lib::group_filter_ensures;
    lemma_filter_keeps_all(once, p);
}

} // verus!
