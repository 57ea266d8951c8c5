//! Partitioning a payload into index-tagged chunks.

use vstd::prelude::*;
use vstd::arithmetic::div_mod::lemma_fundamental_div_mod;
use vstd::arithmetic::mul::lemma_mul_inequality;
use crate::capacity::{capacity, capacity_spec, EcLevel, Version};
use crate::error::SegmentError;

verus! {

/// Most chunks that one index byte can number.
pub const MAX_CHUNKS: usize = 256;

/// How many chunks of at most `per` payload bytes a payload of `len` bytes
/// takes; an empty payload still takes one.
pub open spec fn chunk_count(len: nat, per: nat) -> nat {
    if len == 0 || per == 0 {
        1
    } else {
        ((len - 1) as nat / per + 1) as nat
    }
}

/// Chunk `i`: the index byte, then payload bytes `i * per` up to
/// `(i + 1) * per` or the end of the payload, whichever comes first.
pub open spec fn chunk_at(data: Seq<u8>, per: nat, i: nat) -> Seq<u8> {
    let start: int = (i * per) as int;
    let end = if start + per < data.len() { start + per } else { data.len() as int };
    seq![i as u8] + data.subrange(start as int, end as int)
}

/// All the chunks of `data`, in index order.
pub open spec fn chunks_of(data: Seq<u8>, per: nat) -> Seq<Seq<u8>> {
    Seq::new(chunk_count(data.len(), per), |i: int| chunk_at(data, per, i as nat))
}

/// Payload bytes per chunk for a request, or why there is no room.
pub open spec fn per_chunk_spec(version: Version, ec: EcLevel, slack: int) -> Result<int, SegmentError> {
    match capacity_spec(version, ec) {
        Err(e) => Err(e),
        Ok(total) => if total <= 1 + slack {
            Err(SegmentError::InsufficientCapacity)
        } else {
            Ok(total - 1 - slack)
        },
    }
}

/// The chunks that a request yields, or its error before any encoding.
pub open spec fn plan_spec(data: Seq<u8>, version: Version, ec: EcLevel, slack: int) -> Result<Seq<Seq<u8>>, SegmentError> {
    match per_chunk_spec(version, ec, slack) {
        Err(e) => Err(e),
        Ok(per) => if chunk_count(data.len(), per as nat) > MAX_CHUNKS {
            Err(SegmentError::TooManyChunks)
        } else {
            Ok(chunks_of(data, per as nat))
        },
    }
}

/// The views of a vector of byte vectors.
pub open spec fn views(v: Seq<Vec<u8>>) -> Seq<Seq<u8>> {
    v.map_values(|c: Vec<u8>| c@)
}

proof fn lemma_chunk_start(len: nat, per: nat, i: nat)
    requires
        per > 0,
        len > 0,
        i < chunk_count(len, per),
    ensures
        i * per <= len - 1,
        chunk_count(len, per) * per >= len,
{
    let q = ((len - 1) as nat / per) as int;
    lemma_fundamental_div_mod(len - 1, per as int);
    lemma_mul_inequality(i as int, q, per as int);
    assert((q + 1) * per == q * per + per) by (nonlinear_arith);
    assert(per * q == q * per) by (nonlinear_arith);
}

/// Cuts `data` into chunks of at most `per_chunk` payload bytes, each led by
/// its index byte; fails where more than [`MAX_CHUNKS`] chunks are needed.
pub fn split_payload(data: &[u8], per_chunk: usize) -> (r: Result<Vec<Vec<u8>>, SegmentError>)
    requires
        per_chunk > 0,
    ensures
        chunk_count(data@.len(), per_chunk as nat) > MAX_CHUNKS <==> r is Err,
        r matches Err(e) ==> e == SegmentError::TooManyChunks,
        r matches Ok(v) ==> views(v@) == chunks_of(data@, per_chunk as nat),
{
    let len = data.len();
    let count: usize = if len == 0 { 1 } else { (len - 1) / per_chunk + 1 };
    if count > MAX_CHUNKS {
        return Err(SegmentError::TooManyChunks);
    }
    let ghost per = per_chunk as nat;
    let mut chunks: Vec<Vec<u8>> = Vec::new();
    let mut i: usize = 0;
    while i < count
        invariant
            count == chunk_count(len as nat, per),
            count <= MAX_CHUNKS,
            per_chunk > 0,
            per == per_chunk as nat,
            len == data@.len(),
            i <= count,
            chunks@.len() == i,
            forall|j: int| 0 <= j < i ==> #[trigger] chunks@[j]@ == chunk_at(data@, per, j as nat),
        decreases count - i,
    {
        proof {
            if len > 0 {
                lemma_chunk_start(len as nat, per, i as nat);
            } else {
                assert(i == 0);
                assert(i * per_chunk == 0);
            }
        }
        let start: usize = i * per_chunk;
        let end: usize = if len - start > per_chunk { start + per_chunk } else { len };
        let mut chunk: Vec<u8> = Vec::new();
        chunk.push(i as u8);
        let mut k: usize = start;
        while k < end
            invariant
                start <= k <= end <= len,
                i < MAX_CHUNKS,
                len == data@.len(),
                chunk@ == seq![i as u8] + data@.subrange(start as int, k as int),
            decreases end - k,
        {
            chunk.push(data[k]);
            k += 1;
            assert(chunk@ =~= seq![i as u8] + data@.subrange(start as int, k as int));
        }
        assert(chunk@ =~= chunk_at(data@, per, i as nat));
        chunks.push(chunk);
        i += 1;
    }
    assert(views(chunks@) =~= chunks_of(data@, per));
    Ok(chunks)
}

/// Payload bytes that fit in one chunk of a request: the capacity less the
/// index byte and the slack.
pub fn per_chunk_data(version: Version, ec: EcLevel, slack: usize) -> (r: Result<usize, SegmentError>)
    ensures
        r matches Ok(n) ==> per_chunk_spec(version, ec, slack as int) == Ok::<int, SegmentError>(n as int),
        r matches Err(e) ==> per_chunk_spec(version, ec, slack as int) == Err::<int, SegmentError>(e),
{
    let total = capacity(version, ec)?;
    if total <= slack || total - slack <= 1 {
        Err(SegmentError::InsufficientCapacity)
    } else {
        Ok(total - 1 - slack)
    }
}

/// The index-tagged chunks of `data` for symbols of `version` at `ec`,
/// with `slack` bytes of each symbol held back.
pub fn plan_chunks(data: &[u8], version: Version, ec: EcLevel, slack: usize) -> (r: Result<Vec<Vec<u8>>, SegmentError>)
    ensures
        r matches Ok(v) ==> plan_spec(data@, version, ec, slack as int) == Ok::<Seq<Seq<u8>>, SegmentError>(views(v@)),
        r matches Err(e) ==> plan_spec(data@, version, ec, slack as int) == Err::<Seq<Seq<u8>>, SegmentError>(e),
{
    let per = per_chunk_data(version, ec, slack)?;
    split_payload(data, per)
}

/// The payload bytes of `chunks` (each chunk less its index byte), joined
/// in order.
pub open spec fn joined_data(chunks: Seq<Seq<u8>>) -> Seq<u8>
    decreases chunks.len(),
{
    if chunks.len() == 0 {
        Seq::empty()
    } else {
        joined_data(chunks.drop_last()) + chunks.last().drop_first()
    }
}

proof fn lemma_joined_prefix(data: Seq<u8>, per: nat, k: nat)
    requires
        per > 0,
        k <= chunk_count(data.len(), per),
    ensures
        joined_data(chunks_of(data, per).take(k as int)) == data.subrange(
            0,
            if k * per < data.len() { (k * per) as int } else { data.len() as int },
        ),
    decreases k,
{
    let cs = chunks_of(data, per);
    if k == 0 {
        assert(cs.take(0) =~= Seq::<Seq<u8>>::empty());
        assert(data.subrange(0, 0) =~= Seq::<u8>::empty());
    } else {
        lemma_joined_prefix(data, per, (k - 1) as nat);
        assert(cs.take(k as int).drop_last() =~= cs.take(k - 1));
        let prev = ((k - 1) * per) as int;
        assert(k * per == (k - 1) * per + per) by (nonlinear_arith)
            requires k >= 1;
        if data.len() > 0 {
            lemma_chunk_start(data.len(), per, (k - 1) as nat);
        } else {
            assert(k == 1);
        }
        let last = chunk_at(data, per, (k - 1) as nat);
        assert(cs.take(k as int).last() == last);
        assert(last.drop_first() =~= data.subrange(
            prev,
            if prev + per < data.len() { prev + per } else { data.len() as int },
        ));
        assert(joined_data(cs.take(k as int)) =~= data.subrange(
            0,
            if k * per < data.len() { (k * per) as int } else { data.len() as int },
        ));
    }
}

/// Joining the payload bytes of the planned chunks in index order gives
/// back the payload, byte for byte.
pub proof fn lemma_chunks_rejoin(data: Seq<u8>, version: Version, ec: EcLevel, slack: int)
    requires
        plan_spec(data, version, ec, slack) is Ok,
    ensures
        joined_data(plan_spec(data, version, ec, slack)->Ok_0) == data,
{
    let per = per_chunk_spec(version, ec, slack)->Ok_0 as nat;
    let n = chunk_count(data.len(), per);
    lemma_joined_prefix(data, per, n);
    if data.len() > 0 {
        lemma_chunk_start(data.len(), per, 0);
    }
    assert(chunks_of(data, per).take(n as int) =~= chunks_of(data, per));
    assert(data.subrange(0, data.len() as int) =~= data);
}

/// The planned chunks carry the index bytes `0, 1, 2, ...` in order, with no
/// gap and no repeat.
pub proof fn lemma_chunk_indices(data: Seq<u8>, version: Version, ec: EcLevel, slack: int)
    requires
        plan_spec(data, version, ec, slack) is Ok,
    ensures
        plan_spec(data, version, ec, slack)->Ok_0.len() <= MAX_CHUNKS,
        forall|i: int| 0 <= i < plan_spec(data, version, ec, slack)->Ok_0.len() ==> {
            let c = #[trigger] plan_spec(data, version, ec, slack)->Ok_0[i];
            c.len() >= 1 && c[0] as int == i
        },
{
}

/// No planned chunk, index byte included, is longer than the capacity less
/// the slack.
pub proof fn lemma_chunk_capacity(data: Seq<u8>, version: Version, ec: EcLevel, slack: int)
    requires
        plan_spec(data, version, ec, slack) is Ok,
    ensures
        forall|i: int| 0 <= i < plan_spec(data, version, ec, slack)->Ok_0.len() ==>
            (#[trigger] plan_spec(data, version, ec, slack)->Ok_0[i]).len()
                <= capacity_spec(version, ec)->Ok_0 - slack,
{
    let per = per_chunk_spec(version, ec, slack)->Ok_0 as nat;
    let cs = plan_spec(data, version, ec, slack)->Ok_0;
    assert forall|i: int| 0 <= i < cs.len() implies (#[trigger] cs[i]).len() <= per + 1 by {
        assert(cs == chunks_of(data, per));
        if data.len() > 0 {
            lemma_chunk_start(data.len(), per, i as nat);
        } else {
            assert(i == 0);
        }
        let start: int = (i * per) as int;
        let end = if start + per < data.len() { start + per } else { data.len() as int };
        assert(cs[i] == chunk_at(data, per, i as nat));
        assert(cs[i].len() == 1 + (end - start));
    }
}

/// An empty payload, where the slack leaves room, yields exactly one chunk
/// with no payload bytes.
pub proof fn lemma_empty_payload(version: Version, ec: EcLevel, slack: int)
    requires
        per_chunk_spec(version, ec, slack) is Ok,
    ensures
        plan_spec(Seq::empty(), version, ec, slack) is Ok,
        plan_spec(Seq::empty(), version, ec, slack)->Ok_0.len() == 1,
        plan_spec(Seq::empty(), version, ec, slack)->Ok_0[0].drop_first().len() == 0,
{
}

} // verus!
