//! The shards edge: the frontier of top sequence numbers known per shard,
//! carried with the cached last masterchain block. Walking a shard chain
//! backwards stops as soon as a predecessor block is not beyond this edge.

use vstd::prelude::*;

use crate::types::BlockIdShort;
use crate::types::ShardIdent;

verus! {

broadcast use vstd::seq_lib::group_to_multiset_ensures;

/// The processing order of a fetched shard block: generation time first,
/// then sequence number; `pos` names the block in whatever store the caller
/// keeps them in.
#[derive(Clone, Copy, Debug, PartialEq, Eq, Structural)]
pub struct BlockOrd {
    pub gen_utime: u32,
    pub seq_no: u32,
    pub pos: usize,
}

/// The processing order: earlier generation time first, sequence number as
/// the tie-breaker.
pub open spec fn spec_block_le(a: BlockOrd, b: BlockOrd) -> bool {
    a.gen_utime < b.gen_utime || (a.gen_utime == b.gen_utime && a.seq_no <= b.seq_no)
}

/// Whether `a` comes no later than `b` in processing order.
pub fn block_le(a: &BlockOrd, b: &BlockOrd) -> (r: bool)
    ensures
        r == spec_block_le(*a, *b),
{
    a.gen_utime < b.gen_utime || (a.gen_utime == b.gen_utime && a.seq_no <= b.seq_no)
}

/// Sorts fetched shard blocks into processing order — by generation time,
/// then sequence number — keeping exactly the given blocks.
pub fn sort_blocks(v: &Vec<BlockOrd>) -> (r: Vec<BlockOrd>)
    ensures
        r@.len() == v@.len(),
        forall|i: int, j: int| 0 <= i < j < r@.len() ==> spec_block_le(r@[i], r@[j]),
        r@.to_multiset() == v@.to_multiset(),
{
    let mut r: Vec<BlockOrd> = Vec::new();
    let n = v.len();
    for i in 0..n
        invariant
            n == v@.len(),
            r@.len() == i,
            forall|p: int, q: int| 0 <= p < q < r@.len() ==> spec_block_le(r@[p], r@[q]),
            r@.to_multiset() == v@.take(i as int).to_multiset(),
    {
        let x = v[i];
        let m = r.len();
        let mut pos: usize = m;
        for k in 0..m
            invariant
                m == r@.len(),
                pos <= m,
                pos == m ==> forall|q: int| 0 <= q < k ==> spec_block_le(r@[q], x),
                pos < m ==> pos <= k && !spec_block_le(r@[pos as int], x) && forall|q: int|
                    0 <= q < pos ==> spec_block_le(r@[q], x),
        {
            if pos == m && !block_le(&r[k], &x) {
                pos = k;
            }
        }
        let ghost r0 = r@;
        r.insert(pos, x);
        proof {
            assert(v@.take(i as int + 1).drop_last() =~= v@.take(i as int));
            assert(v@.take(i as int + 1).last() == v@[i as int]);
            assert(v@.take(i as int + 1) =~= v@.take(i as int).push(x));
            assert(r@.remove(pos as int) =~= r0);
            assert(r@[pos as int] == x);
            assert(r@.to_multiset().contains(x));
            assert(r0.to_multiset() =~= r@.to_multiset().remove(x));
            assert(r@.to_multiset() =~= r0.to_multiset().insert(x));
            assert forall|p: int, q: int|
                0 <= p < q < r@.len() implies spec_block_le(r@[p], r@[q]) by {
                if q == pos as int {
                    assert(spec_block_le(r0[p], x));
                } else if p == pos as int {
                    assert(pos < m);
                    assert(!spec_block_le(r0[pos as int], x));
                    if q - 1 > pos as int {
                        assert(spec_block_le(r0[pos as int], r0[q - 1]));
                    }
                } else if p < pos as int && q > pos as int {
                    assert(spec_block_le(r0[p], r0[q - 1]));
                }
            }
        }
    }
    proof {
        assert(v@.take(n as int) =~= v@);
    }
    r
}

/// Per-shard highest known sequence number.
pub struct Edge {
    pub shards: Vec<(ShardIdent, u32)>,
}

/// Whether the edge has an entry for exactly this shard.
pub open spec fn spec_has_exact(shards: Seq<(ShardIdent, u32)>, shard: ShardIdent) -> bool {
    exists|i: int| 0 <= i < shards.len() && shards[i].0 == shard
}

/// The top sequence number recorded for exactly this shard.
pub open spec fn spec_exact_top(shards: Seq<(ShardIdent, u32)>, shard: ShardIdent) -> u32 {
    let i = choose|i: int| 0 <= i < shards.len() && shards[i].0 == shard;
    shards[i].1
}

/// The verdict taken from the first entry, in edge order, whose shard
/// intersects the block's shard; `false` when nothing intersects.
pub open spec fn spec_first_intersect_before(
    shards: Seq<(ShardIdent, u32)>,
    id: BlockIdShort,
    from: int,
) -> bool
    decreases shards.len() - from when 0 <= from <= shards.len()
{
    if from >= shards.len() {
        false
    } else if shards[from].0.spec_intersects(id.shard) {
        shards[from].1 < id.seq_no
    } else {
        spec_first_intersect_before(shards, id, from + 1)
    }
}

/// Whether block `id` lies beyond the edge: if the edge has an entry for its
/// exact shard, compare against that entry; otherwise compare against the
/// first entry of an intersecting shard; with nothing intersecting the block
/// is not beyond the edge.
pub open spec fn spec_is_before(shards: Seq<(ShardIdent, u32)>, id: BlockIdShort) -> bool {
    if spec_has_exact(shards, id.shard) {
        spec_exact_top(shards, id.shard) < id.seq_no
    } else {
        spec_first_intersect_before(shards, id, 0)
    }
}

impl Edge {
    /// Each shard is recorded once.
    pub open spec fn wf(self) -> bool {
        forall|i: int, j: int|
            0 <= i < j < self.shards@.len() ==> self.shards@[i].0 != self.shards@[j].0
    }

    /// Whether block `id` is beyond this edge, so that the backward walk must
    /// fetch it.
    pub fn is_before(&self, id: &BlockIdShort) -> (r: bool)
        requires
            self.wf(),
        ensures
            r == spec_is_before(self.shards@, *id),
    {
        let n = self.shards.len();

        // Exact entry for the block's shard, if any.
        for i in 0..n
            invariant
                n == self.shards@.len(),
                forall|j: int| 0 <= j < i ==> self.shards@[j].0 != id.shard,
                self.wf(),
        {
            if self.shards[i].0 == id.shard {
                proof {
                    assert(self.shards@[i as int].0 == id.shard);
                    let j = choose|j: int|
                        0 <= j < self.shards@.len() && self.shards@[j].0 == id.shard;
                    assert(j == i as int);
                }
                return self.shards[i].1 < id.seq_no;
            }
        }

        // No exact entry: the first intersecting shard decides.
        for i in 0..n
            invariant
                n == self.shards@.len(),
                forall|j: int| 0 <= j < n ==> self.shards@[j].0 != id.shard,
                forall|j: int| 0 <= j < i ==> !self.shards@[j].0.spec_intersects(id.shard),
                spec_first_intersect_before(self.shards@, *id, 0)
                    == spec_first_intersect_before(self.shards@, *id, i as int),
        {
            let entry = self.shards[i];
            if entry.0.intersects(&id.shard) {
                return entry.1 < id.seq_no;
            }
        }
        false
    }
}

} // verus!
