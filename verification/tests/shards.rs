use valkeeper::shards::sort_blocks;
use valkeeper::shards::BlockOrd;
use valkeeper::shards::Edge;
use valkeeper::types::BlockIdShort;
use valkeeper::types::ShardIdent;

fn shard(workchain: i32, lo: u64, hi: u64) -> ShardIdent {
    ShardIdent { workchain, prefix_lo: lo, prefix_hi: hi }
}

#[test]
fn exact_shard_entry_decides() {
    let s = shard(0, 0, u64::MAX);
    let edge = Edge { shards: vec![(s, 100)] };
    assert!(edge.is_before(&BlockIdShort { shard: s, seq_no: 101 }));
    assert!(!edge.is_before(&BlockIdShort { shard: s, seq_no: 100 }));
    assert!(!edge.is_before(&BlockIdShort { shard: s, seq_no: 99 }));
}

#[test]
fn intersecting_shard_decides_after_a_split() {
    // The edge still holds the parent shard; the block comes from a child.
    let parent = shard(0, 0, u64::MAX);
    let child = shard(0, 0, u64::MAX / 2);
    let edge = Edge { shards: vec![(parent, 80)] };
    assert!(edge.is_before(&BlockIdShort { shard: child, seq_no: 81 }));
    assert!(!edge.is_before(&BlockIdShort { shard: child, seq_no: 80 }));
}

#[test]
fn disjoint_shards_are_not_beyond_the_edge() {
    let left = shard(0, 0, u64::MAX / 2);
    let right = shard(0, u64::MAX / 2 + 1, u64::MAX);
    let edge = Edge { shards: vec![(left, 80)] };
    assert!(!edge.is_before(&BlockIdShort { shard: right, seq_no: 10_000 }));
}

#[test]
fn other_workchains_never_intersect() {
    let here = shard(0, 0, u64::MAX);
    let there = shard(1, 0, u64::MAX);
    let edge = Edge { shards: vec![(here, 80)] };
    assert!(!edge.is_before(&BlockIdShort { shard: there, seq_no: 10_000 }));
    assert!(!here.intersects(&there));
}

#[test]
fn blocks_sort_by_time_then_seq_no() {
    let blocks = vec![
        BlockOrd { gen_utime: 20, seq_no: 5, pos: 0 },
        BlockOrd { gen_utime: 10, seq_no: 9, pos: 1 },
        BlockOrd { gen_utime: 20, seq_no: 3, pos: 2 },
        BlockOrd { gen_utime: 10, seq_no: 1, pos: 3 },
    ];
    let sorted = sort_blocks(&blocks);
    let order: Vec<usize> = sorted.iter().map(|b| b.pos).collect();
    assert_eq!(order, vec![3, 1, 2, 0]);
}

#[test]
fn exact_entry_wins_over_intersections() {
    // Both a parent and the exact shard are present: the exact entry decides.
    let parent = shard(0, 0, u64::MAX);
    let child = shard(0, 0, u64::MAX / 2);
    let edge = Edge { shards: vec![(parent, 5), (child, 90)] };
    assert!(!edge.is_before(&BlockIdShort { shard: child, seq_no: 50 }));
    assert!(edge.is_before(&BlockIdShort { shard: child, seq_no: 91 }));
}
