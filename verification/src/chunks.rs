//! Splitting a byte stream into bounded chunks.
//!
//! Chunk indices are contiguous from 0; all chunks but the last are exactly
//! the chunk size; an empty stream still yields exactly one zero-length
//! chunk, so every stream produces at least one message.

use vstd::prelude::*;
use vstd::math::min;
use vstd::slice::slice_subrange;
use vstd::slice::slice_to_vec;

verus! {

/// Number of chunks a stream of `len` bytes splits into.
pub open spec fn chunk_count(len: nat, cs: nat) -> nat
    recommends
        cs > 0,
{
    if len == 0 {
        1
    } else {
        ((len + cs - 1) / (cs as int)) as nat
    }
}

/// The bytes of the chunk with index `i`.
pub open spec fn chunk_bytes(data: Seq<u8>, i: nat, cs: nat) -> Seq<u8>
    recommends
        cs > 0,
        i < chunk_count(data.len(), cs),
{
    data.subrange(min((i * cs) as int, data.len() as int), min(((i + 1) * cs) as int, data.len() as int))
}

/// Chunks `0 .. k` of `data`, concatenated in index order.
pub open spec fn chunks_concat(data: Seq<u8>, k: nat, cs: nat) -> Seq<u8>
    decreases k,
{
    if k == 0 {
        Seq::empty()
    } else {
        chunks_concat(data, (k - 1) as nat, cs) + chunk_bytes(data, (k - 1) as nat, cs)
    }
}

proof fn lemma_chunks_concat_prefix(data: Seq<u8>, k: nat, cs: nat)
    requires
        cs > 0,
    ensures
        chunks_concat(data, k, cs) == data.subrange(0, min((k * cs) as int, data.len() as int)),
    decreases k,
{
    if k == 0 {
        assert(chunks_concat(data, 0, cs) =~= data.subrange(0, 0));
    } else {
        lemma_chunks_concat_prefix(data, (k - 1) as nat, cs);
        assert((k - 1) * cs == k * cs - cs) by (nonlinear_arith);
        assert(data.subrange(0, min(((k - 1) * cs) as int, data.len() as int)) + chunk_bytes(
            data,
            (k - 1) as nat,
            cs,
        ) =~= data.subrange(0, min((k * cs) as int, data.len() as int)));
    }
}

pub proof fn lemma_chunk_count_covers(len: nat, cs: nat)
    requires
        cs > 0,
    ensures
        chunk_count(len, cs) * cs >= len,
        len > 0 ==> (chunk_count(len, cs) - 1) * cs < len,
        chunk_count(len, cs) >= 1,
{
    if len == 0 {
    } else {
        let k = ((len + cs - 1) / (cs as int));
        assert(k * cs >= len && (k - 1) * cs < len && k >= 1) by (nonlinear_arith)
            requires
                cs > 0,
                len > 0,
                k == ((len + cs - 1) / (cs as int)),
        ;
    }
}

/// Concatenating all chunks in index order reproduces the original bytes.
pub proof fn lemma_chunks_reassemble(data: Seq<u8>, cs: nat)
    requires
        cs > 0,
    ensures
        chunks_concat(data, chunk_count(data.len(), cs), cs) == data,
{
    let k = chunk_count(data.len(), cs);
    lemma_chunks_concat_prefix(data, k, cs);
    lemma_chunk_count_covers(data.len(), cs);
    assert(data.subrange(0, data.len() as int) =~= data);
}

/// Every chunk but the last is exactly `cs` bytes; the last carries the
/// remainder and is never longer than `cs`.
pub proof fn lemma_chunk_sizes(data: Seq<u8>, i: nat, cs: nat)
    requires
        cs > 0,
        i < chunk_count(data.len(), cs),
    ensures
        i + 1 < chunk_count(data.len(), cs) ==> chunk_bytes(data, i, cs).len() == cs,
        chunk_bytes(data, i, cs).len() <= cs,
        i + 1 == chunk_count(data.len(), cs) ==> chunk_bytes(data, i, cs).len() == data.len()
            - i * cs,
{
    lemma_chunk_count_covers(data.len(), cs);
    let n = data.len();
    let k = chunk_count(n, cs);
    assert((i + 1) * cs == i * cs + cs) by (nonlinear_arith);
    assert(i * cs <= (k - 1) * cs && (i + 1 < k ==> (i + 1) * cs <= (k - 1) * cs)) by (
    nonlinear_arith)
        requires
            cs > 0,
            i < k,
    ;
    if n > 0 {
        assert((k - 1) * cs < n);
        assert(i * cs < n);
        assert(min((i * cs) as int, n as int) == i * cs);
        if i + 1 < k {
            assert(((i + 1) * cs) < n);
            assert(min(((i + 1) * cs) as int, n as int) == (i + 1) * cs);
        }
        if i + 1 == k {
            assert(k * cs >= n);
            assert(min(((i + 1) * cs) as int, n as int) == n);
        }
    } else {
        assert(k == 1 && i == 0);
        assert(min(0int, 0int) == 0);
    }
}

/// A chunk index below the chunk count never overflows when scaled to its
/// byte offset.
pub proof fn lemma_chunk_index_fits(len: nat, i: nat, cs: nat)
    requires
        cs > 0,
        i < chunk_count(len, cs),
        len <= usize::MAX,
    ensures
        i * cs <= usize::MAX,
{
    lemma_chunk_count_covers(len, cs);
    if len > 0 {
        assert(i * cs <= (chunk_count(len, cs) - 1) * cs) by (nonlinear_arith)
            requires
                cs > 0,
                i < chunk_count(len, cs),
        ;
    } else {
        assert(i == 0);
        assert(i * cs == 0) by (nonlinear_arith)
            requires
                i == 0,
        ;
    }
}

/// How many chunks a stream of `len` bytes splits into.
pub fn chunk_count_of(len: usize, cs: usize) -> (k: usize)
    requires
        cs > 0,
    ensures
        k == chunk_count(len as nat, cs as nat),
        k >= 1,
{
    if len == 0 {
        1
    } else {
        proof {
            let csi = cs as int;
            assert((len - 1) / csi <= len - 1 && 1 + (len - 1) / csi == (len + csi - 1) / csi) by (
            nonlinear_arith)
                requires
                    len >= 1,
                    csi >= 1,
            ;
        }
        1 + (len - 1) / cs
    }
}

/// The chunk with index `i` of `data`, split at size `cs`.
pub fn chunk_of(data: &[u8], i: usize, cs: usize) -> (c: Vec<u8>)
    requires
        cs > 0,
        (i as nat) < chunk_count(data@.len(), cs as nat),
        i * cs <= usize::MAX,
    ensures
        c@ == chunk_bytes(data@, i as nat, cs as nat),
        c@.len() <= cs,
{
    proof {
        lemma_chunk_count_covers(data@.len(), cs as nat);
        lemma_chunk_sizes(data@, i as nat, cs as nat);
        assert((i + 1) * cs == i * cs + cs) by (nonlinear_arith);
        if data@.len() > 0 {
            assert(i * cs <= (chunk_count(data@.len(), cs as nat) - 1) * cs) by (nonlinear_arith)
                requires
                    cs > 0,
                    (i as nat) < chunk_count(data@.len(), cs as nat),
            ;
        }
    }
    let start = if i * cs <= data.len() {
        i * cs
    } else {
        data.len()
    };
    let end = if data.len() - start >= cs {
        start + cs
    } else {
        data.len()
    };
    proof {
        assert(start == min((i * cs) as int, data@.len() as int));
        assert(end == min(((i + 1) * cs) as int, data@.len() as int));
    }
    let part = slice_subrange(data, start, end);
    slice_to_vec(part)
}

/// Split `data` into its chunks, in index order.
pub fn split_chunks(data: &[u8], cs: usize) -> (chunks: Vec<Vec<u8>>)
    requires
        cs > 0,
    ensures
        chunks@.len() == chunk_count(data@.len(), cs as nat),
        forall|i: int|
            0 <= i < chunks@.len() ==> chunks@[i]@ == chunk_bytes(data@, i as nat, cs as nat),
{
    proof {
        lemma_chunk_count_covers(data@.len(), cs as nat);
    }
    let mut chunks: Vec<Vec<u8>> = Vec::new();
    if data.len() == 0 {
        chunks.push(Vec::new());
        proof {
            assert(chunk_bytes(data@, 0, cs as nat) =~= Seq::<u8>::empty());
        }
        return chunks;
    }
    let mut start: usize = 0;
    while start < data.len()
        invariant
            cs > 0,
            0 < data@.len() <= usize::MAX,
            start <= data@.len(),
            start == min(chunks@.len() * cs, data@.len() as int),
            chunks@.len() == 0 || (chunks@.len() - 1) * cs < data@.len(),
            forall|i: int|
                0 <= i < chunks@.len() ==> chunks@[i]@ == chunk_bytes(data@, i as nat, cs as nat),
        decreases data@.len() - start,
    {
        let remaining = data.len() - start;
        let this = if remaining >= cs {
            cs
        } else {
            remaining
        };
        let ghost k = chunks@.len();
        proof {
            assert(k * cs == start);
            assert((k + 1) * cs == k * cs + cs) by (nonlinear_arith);
        }
        let part = slice_subrange(data, start, start + this);
        chunks.push(slice_to_vec(part));
        proof {
            assert(chunks@[k as int]@ =~= chunk_bytes(data@, k as nat, cs as nat));
        }
        start = start + this;
    }
    proof {
        lemma_chunk_count_covers(data@.len(), cs as nat);
        let k = chunks@.len();
        assert(k == chunk_count(data@.len(), cs as nat)) by (nonlinear_arith)
            requires
                cs > 0,
                data@.len() > 0,
                k >= 1,
                k * cs >= data@.len(),
                (k - 1) * cs < data@.len(),
                chunk_count(data@.len(), cs as nat) * cs >= data@.len(),
                (chunk_count(data@.len(), cs as nat) - 1) * cs < data@.len(),
        ;
    }
    chunks
}

} // verus!
