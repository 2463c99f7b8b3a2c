//! The state machine of the blockchain subscription engine: two account maps
//! (masterchain and shardchain) of pending external messages and transaction
//! channels, the subscription counter, the cached last masterchain block with
//! its shards edge, and the cached global id. Every transition the concurrent
//! engine performs — registering a message before sending, matching observed
//! transactions, collecting expired messages and closed channels, advancing
//! the cached block — is a verified function here; the surrounding runtime
//! owns the locks, the notifiers and the actual channels.

use vstd::pervasive::VecAdditionalExecFns;
use vstd::prelude::*;

use crate::shards::spec_has_exact;
use crate::shards::Edge;
use crate::types::ShardIdent;
use crate::types::Uint256;
use crate::types::BASE_WORKCHAIN_ID;
use crate::types::MASTERCHAIN_ID;

verus! {

/// An external message awaiting its reply transaction: the message hash it is
/// matched by, its expiry, and the ticket the sender holds its reply slot
/// under.
#[derive(Clone, Copy, Debug, PartialEq, Eq, Structural)]
pub struct PendingMessage {
    pub msg_hash: Uint256,
    pub expire_at: u32,
    pub ticket: u64,
}

/// One transaction broadcast channel of an account, identified by the ticket
/// handed out at subscription; `closed` is set when the receiving end is
/// gone, and collection removes it.
#[derive(Clone, Copy, Debug, PartialEq, Eq, Structural)]
pub struct ChannelSlot {
    pub id: u64,
    pub closed: bool,
}

/// Everything the engine tracks for one account.
pub struct AccountEntry {
    pub pending: Vec<PendingMessage>,
    pub channels: Vec<ChannelSlot>,
}

/// A map from account id to its entry, keyed uniquely.
pub struct AccountMap {
    pub records: Vec<(Uint256, AccountEntry)>,
}

/// The brief identity of a masterchain block the walker has processed.
#[derive(Clone, Copy, Debug, PartialEq, Eq, Structural)]
pub struct McBlockRef {
    pub seq_no: u32,
    pub gen_utime: u32,
}

/// The cached last masterchain block and the shards edge it defines.
pub struct McBlockCache {
    pub block: McBlockRef,
    pub edge: Edge,
}

/// The engine state.
pub struct SubscriptionState {
    pub mc: AccountMap,
    pub sc: AccountMap,
    pub count: u64,
    pub next_token: u64,
    pub global_id: Option<i32>,
    pub last_mc_block: Option<McBlockCache>,
}

/// How much an entry contributes to the subscription count: its pending
/// messages plus its channels.
pub open spec fn spec_entry_weight(e: AccountEntry) -> int {
    e.pending@.len() + e.channels@.len() as int
}

/// The subscription count owed by a whole map.
pub open spec fn spec_map_total(records: Seq<(Uint256, AccountEntry)>) -> int
    decreases records.len(),
{
    if records.len() == 0 {
        0
    } else {
        spec_map_total(records.drop_last()) + spec_entry_weight(records.last().1)
    }
}

/// The map keys each account once.
pub open spec fn spec_keys_unique(m: AccountMap) -> bool {
    forall|i: int, j: int|
        0 <= i < j < m.records@.len() ==> m.records@[i].0 != m.records@[j].0
}

/// Whether the map has an entry for `a`.
pub open spec fn spec_map_has_account(m: AccountMap, a: Uint256) -> bool {
    exists|i: int| 0 <= i < m.records@.len() && m.records@[i].0 == a
}

/// The index of `a`'s record.
pub open spec fn spec_index_of(m: AccountMap, a: Uint256) -> int {
    choose|i: int| 0 <= i < m.records@.len() && m.records@[i].0 == a
}

/// The entry of `a`.
pub open spec fn spec_account_entry(m: AccountMap, a: Uint256) -> AccountEntry {
    m.records@[spec_index_of(m, a)].1
}

/// The channels of `a`, empty when the map has no entry for it.
pub open spec fn spec_account_channels(m: AccountMap, a: Uint256) -> Seq<ChannelSlot> {
    if spec_map_has_account(m, a) {
        spec_account_entry(m, a).channels@
    } else {
        Seq::empty()
    }
}

/// Whether the entry holds a pending message with hash `h`.
pub open spec fn spec_entry_has_pending(e: AccountEntry, h: Uint256) -> bool {
    exists|j: int| 0 <= j < e.pending@.len() && e.pending@[j].msg_hash == h
}

/// The position of the pending message with hash `h` in the entry.
pub open spec fn spec_entry_pending_index(e: AccountEntry, h: Uint256) -> int {
    choose|j: int| 0 <= j < e.pending@.len() && e.pending@[j].msg_hash == h
}

/// Whether account `a` has a pending message with hash `h`.
pub open spec fn spec_has_pending(m: AccountMap, a: Uint256, h: Uint256) -> bool {
    spec_map_has_account(m, a) && spec_entry_has_pending(spec_account_entry(m, a), h)
}

/// The pending message of account `a` with hash `h`.
pub open spec fn spec_pending_record(m: AccountMap, a: Uint256, h: Uint256) -> PendingMessage {
    spec_pending_of(spec_account_entry(m, a), h)
}

/// An entry keys its pending messages by distinct hashes and its channels by
/// distinct ids.
pub open spec fn spec_entry_keys_distinct(e: AccountEntry) -> bool {
    &&& forall|i: int, j: int|
        0 <= i < j < e.pending@.len() ==> e.pending@[i].msg_hash != e.pending@[j].msg_hash
    &&& forall|i: int, j: int|
        0 <= i < j < e.channels@.len() ==> e.channels@[i].id != e.channels@[j].id
}

/// Every entry of the map keys its contents distinctly.
pub open spec fn spec_map_entries_distinct(m: AccountMap) -> bool {
    forall|k: int|
        0 <= k < m.records@.len() ==> spec_entry_keys_distinct(#[trigger] m.records@[k].1)
}

/// An entry's own well-formedness against the token bound: pending hashes are
/// unique, channel ids are unique, and every ticket and id was issued by the
/// token counter.
pub open spec fn spec_entry_wf(e: AccountEntry, next_token: u64) -> bool {
    &&& spec_entry_keys_distinct(e)
    &&& forall|i: int| 0 <= i < e.pending@.len() ==> e.pending@[i].ticket < next_token
    &&& forall|i: int| 0 <= i < e.channels@.len() ==> e.channels@[i].id < next_token
}

/// A map's well-formedness: unique keys and well-formed entries.
pub open spec fn spec_map_wf(m: AccountMap, next_token: u64) -> bool {
    spec_keys_unique(m) && forall|i: int|
        0 <= i < m.records@.len() ==> spec_entry_wf(#[trigger] m.records@[i].1, next_token)
}

/// The map on one side of the engine: the masterchain one or the shard one.
pub open spec fn spec_side(st: SubscriptionState, is_mc: bool) -> AccountMap {
    if is_mc {
        st.mc
    } else {
        st.sc
    }
}

/// The entry at position `i` of one side.
pub open spec fn spec_entry_at(st: SubscriptionState, b: bool, i: int) -> AccountEntry {
    spec_side(st, b).records@[i].1
}

/// Whether `i` is a valid position of one side.
pub open spec fn spec_pos_ok(st: SubscriptionState, b: bool, i: int) -> bool {
    0 <= i < spec_side(st, b).records@.len()
}

/// No two pending messages of one entry share a ticket.
pub open spec fn spec_entry_tickets_distinct(e: AccountEntry) -> bool {
    forall|p: int, q: int|
        0 <= p < q < e.pending@.len() ==> e.pending@[p].ticket != e.pending@[q].ticket
}

/// No pending message of `e1` shares a ticket with one of `e2`.
pub open spec fn spec_entries_tickets_disjoint(e1: AccountEntry, e2: AccountEntry) -> bool {
    forall|p: int, q: int|
        0 <= p < e1.pending@.len() && 0 <= q < e2.pending@.len() ==> e1.pending@[p].ticket
            != e2.pending@[q].ticket
}

/// Every pending message of the whole engine holds its own ticket: distinct
/// within each entry, and disjoint between any two entries, across both maps.
pub open spec fn spec_tickets_unique(st: SubscriptionState) -> bool {
    &&& forall|b: bool, i: int|
        spec_pos_ok(st, b, i) ==> spec_entry_tickets_distinct(#[trigger] spec_entry_at(st, b, i))
    &&& forall|b1: bool, i1: int, b2: bool, i2: int|
        spec_pos_ok(st, b1, i1) && spec_pos_ok(st, b2, i2) && !(b1 == b2 && i1 == i2)
            ==> spec_entries_tickets_disjoint(
            #[trigger] spec_entry_at(st, b1, i1),
            #[trigger] spec_entry_at(st, b2, i2),
        )
}

/// Ticket uniqueness survives any step that leaves every pending set in
/// place (new positions may appear with nothing pending yet).
pub proof fn lemma_tickets_unique_pending_preserved(st0: SubscriptionState, st1: SubscriptionState)
    requires
        spec_tickets_unique(st0),
        forall|b: bool, k: int|
            spec_pos_ok(st0, b, k) ==> spec_pos_ok(st1, b, k) && (#[trigger] spec_entry_at(
                st1,
                b,
                k,
            )).pending@ == spec_entry_at(st0, b, k).pending@,
        forall|b: bool, k: int|
            spec_pos_ok(st1, b, k) && !spec_pos_ok(st0, b, k) ==> (#[trigger] spec_entry_at(
                st1,
                b,
                k,
            )).pending@.len() == 0,
    ensures
        spec_tickets_unique(st1),
{
}

/// Ticket uniqueness survives giving one entry one more pending message whose
/// ticket the counter had not issued yet.
pub proof fn lemma_tickets_unique_after_push(
    st0: SubscriptionState,
    st1: SubscriptionState,
    b0: bool,
    i0: int,
    msg: PendingMessage,
)
    requires
        spec_tickets_unique(st0),
        spec_map_wf(st0.mc, st0.next_token),
        spec_map_wf(st0.sc, st0.next_token),
        msg.ticket == st0.next_token,
        spec_pos_ok(st0, b0, i0),
        forall|b: bool, k: int|
            spec_pos_ok(st0, b, k) && !(b == b0 && k == i0) ==> spec_pos_ok(st1, b, k) && (
            #[trigger] spec_entry_at(st1, b, k)).pending@ == spec_entry_at(st0, b, k).pending@,
        forall|b: bool, k: int| spec_pos_ok(st1, b, k) ==> spec_pos_ok(st0, b, k),
        spec_pos_ok(st1, b0, i0),
        spec_entry_at(st1, b0, i0).pending@ == spec_entry_at(st0, b0, i0).pending@.push(msg),
    ensures
        spec_tickets_unique(st1),
{
    let e0 = spec_entry_at(st0, b0, i0);
    let n = e0.pending@.len() as int;
    assert(spec_entry_wf(e0, st0.next_token));
    assert forall|b: bool, i: int|
        spec_pos_ok(st1, b, i) implies spec_entry_tickets_distinct(
        #[trigger] spec_entry_at(st1, b, i),
    ) by {
        if b == b0 && i == i0 {
            let e1 = spec_entry_at(st1, b0, i0);
            assert forall|p: int, q: int|
                0 <= p < q < e1.pending@.len() implies e1.pending@[p].ticket
                != e1.pending@[q].ticket by {
                if q < n {
                } else {
                    assert(e1.pending@[p] == e0.pending@[p]);
                    assert(e0.pending@[p].ticket < st0.next_token);
                }
            }
        }
    }
    assert forall|b1: bool, i1: int, b2: bool, i2: int|
        spec_pos_ok(st1, b1, i1) && spec_pos_ok(st1, b2, i2) && !(b1 == b2 && i1 == i2)
        implies spec_entries_tickets_disjoint(
        #[trigger] spec_entry_at(st1, b1, i1),
        #[trigger] spec_entry_at(st1, b2, i2),
    ) by {
        let e1 = spec_entry_at(st1, b1, i1);
        let e2 = spec_entry_at(st1, b2, i2);
        let f1 = spec_entry_at(st0, b1, i1);
        let f2 = spec_entry_at(st0, b2, i2);
        assert(spec_entry_wf(f1, st0.next_token));
        assert(spec_entry_wf(f2, st0.next_token));
        assert forall|p: int, q: int|
            0 <= p < e1.pending@.len() && 0 <= q < e2.pending@.len() implies e1.pending@[p].ticket
            != e2.pending@[q].ticket by {
            if b1 == b0 && i1 == i0 {
                if p < n {
                    assert(e1.pending@[p] == f1.pending@[p]);
                } else {
                    assert(e1.pending@[p] == msg);
                    assert(e2.pending@[q] == f2.pending@[q]);
                    assert(f2.pending@[q].ticket < st0.next_token);
                }
            } else if b2 == b0 && i2 == i0 {
                let m = f2.pending@.len() as int;
                if q < m {
                    assert(e2.pending@[q] == f2.pending@[q]);
                } else {
                    assert(e2.pending@[q] == msg);
                    assert(e1.pending@[p] == f1.pending@[p]);
                    assert(f1.pending@[p].ticket < st0.next_token);
                }
            }
        }
    }
}

/// Ticket uniqueness survives appending a record for a fresh account with one
/// pending message whose ticket the counter had not issued yet.
pub proof fn lemma_tickets_unique_after_new_record(
    st0: SubscriptionState,
    st1: SubscriptionState,
    b0: bool,
    msg: PendingMessage,
)
    requires
        spec_tickets_unique(st0),
        spec_map_wf(st0.mc, st0.next_token),
        spec_map_wf(st0.sc, st0.next_token),
        msg.ticket == st0.next_token,
        spec_side(st1, b0).records@.len() == spec_side(st0, b0).records@.len() + 1,
        forall|b: bool, k: int|
            spec_pos_ok(st0, b, k) ==> spec_pos_ok(st1, b, k) && (#[trigger] spec_entry_at(
                st1,
                b,
                k,
            )).pending@ == spec_entry_at(st0, b, k).pending@,
        spec_side(st1, !b0) == spec_side(st0, !b0),
        spec_entry_at(st1, b0, spec_side(st0, b0).records@.len() as int).pending@ == seq![msg],
    ensures
        spec_tickets_unique(st1),
{
    let n = spec_side(st0, b0).records@.len() as int;
    assert forall|b: bool, i: int|
        spec_pos_ok(st1, b, i) implies spec_entry_tickets_distinct(
        #[trigger] spec_entry_at(st1, b, i),
    ) by {
        if b == b0 && i == n {
            let e1 = spec_entry_at(st1, b0, n);
            assert(e1.pending@.len() == 1);
        } else {
            assert(spec_pos_ok(st0, b, i));
        }
    }
    assert forall|b1: bool, i1: int, b2: bool, i2: int|
        spec_pos_ok(st1, b1, i1) && spec_pos_ok(st1, b2, i2) && !(b1 == b2 && i1 == i2)
        implies spec_entries_tickets_disjoint(
        #[trigger] spec_entry_at(st1, b1, i1),
        #[trigger] spec_entry_at(st1, b2, i2),
    ) by {
        let e1 = spec_entry_at(st1, b1, i1);
        let e2 = spec_entry_at(st1, b2, i2);
        assert forall|p: int, q: int|
            0 <= p < e1.pending@.len() && 0 <= q < e2.pending@.len() implies e1.pending@[p].ticket
            != e2.pending@[q].ticket by {
            if b1 == b0 && i1 == n {
                assert(e1.pending@[p] == msg);
                assert(spec_pos_ok(st0, b2, i2));
                assert(spec_entry_wf(spec_entry_at(st0, b2, i2), st0.next_token));
                assert(e2.pending@[q] == spec_entry_at(st0, b2, i2).pending@[q]);
            } else if b2 == b0 && i2 == n {
                assert(e2.pending@[q] == msg);
                assert(spec_pos_ok(st0, b1, i1));
                assert(spec_entry_wf(spec_entry_at(st0, b1, i1), st0.next_token));
                assert(e1.pending@[p] == spec_entry_at(st0, b1, i1).pending@[p]);
            } else {
                assert(spec_pos_ok(st0, b1, i1));
                assert(spec_pos_ok(st0, b2, i2));
            }
        }
    }
}

/// Ticket uniqueness survives dropping one pending message from one entry.
pub proof fn lemma_tickets_unique_after_element_remove(
    st0: SubscriptionState,
    st1: SubscriptionState,
    b0: bool,
    i0: int,
    j: int,
)
    requires
        spec_tickets_unique(st0),
        spec_pos_ok(st0, b0, i0),
        0 <= j < spec_entry_at(st0, b0, i0).pending@.len(),
        forall|b: bool, k: int|
            spec_pos_ok(st0, b, k) && !(b == b0 && k == i0) ==> spec_pos_ok(st1, b, k) && (
            #[trigger] spec_entry_at(st1, b, k)).pending@ == spec_entry_at(st0, b, k).pending@,
        forall|b: bool, k: int| spec_pos_ok(st1, b, k) ==> spec_pos_ok(st0, b, k),
        spec_pos_ok(st1, b0, i0),
        spec_entry_at(st1, b0, i0).pending@ == spec_entry_at(st0, b0, i0).pending@.remove(j),
    ensures
        spec_tickets_unique(st1),
{
    let e0 = spec_entry_at(st0, b0, i0);
    let e1 = spec_entry_at(st1, b0, i0);
    assert(forall|k: int|
        0 <= k < e1.pending@.len() ==> e1.pending@[k] == (if k < j {
            e0.pending@[k]
        } else {
            e0.pending@[k + 1]
        }));
    assert forall|b: bool, i: int|
        spec_pos_ok(st1, b, i) implies spec_entry_tickets_distinct(
        #[trigger] spec_entry_at(st1, b, i),
    ) by {
        if b == b0 && i == i0 {
            assert(spec_entry_tickets_distinct(e0));
            assert forall|p: int, q: int|
                0 <= p < q < e1.pending@.len() implies e1.pending@[p].ticket
                != e1.pending@[q].ticket by {}
        }
    }
    assert forall|b1: bool, i1: int, b2: bool, i2: int|
        spec_pos_ok(st1, b1, i1) && spec_pos_ok(st1, b2, i2) && !(b1 == b2 && i1 == i2)
        implies spec_entries_tickets_disjoint(
        #[trigger] spec_entry_at(st1, b1, i1),
        #[trigger] spec_entry_at(st1, b2, i2),
    ) by {
        let e1x = spec_entry_at(st1, b1, i1);
        let e2x = spec_entry_at(st1, b2, i2);
        assert(spec_entries_tickets_disjoint(
            spec_entry_at(st0, b1, i1),
            spec_entry_at(st0, b2, i2),
        ));
        assert forall|p: int, q: int|
            0 <= p < e1x.pending@.len() && 0 <= q < e2x.pending@.len()
            implies e1x.pending@[p].ticket != e2x.pending@[q].ticket by {
            if b1 == b0 && i1 == i0 {
            } else if b2 == b0 && i2 == i0 {
            }
        }
    }
}

/// Ticket uniqueness survives dropping one whole record from one side.
pub proof fn lemma_tickets_unique_after_record_remove(
    st0: SubscriptionState,
    st1: SubscriptionState,
    b0: bool,
    i0: int,
)
    requires
        spec_tickets_unique(st0),
        spec_pos_ok(st0, b0, i0),
        spec_side(st1, b0).records@ == spec_side(st0, b0).records@.remove(i0),
        spec_side(st1, !b0) == spec_side(st0, !b0),
    ensures
        spec_tickets_unique(st1),
{
    assert forall|k: int|
        0 <= k < spec_side(st1, b0).records@.len() implies #[trigger] spec_entry_at(st1, b0, k)
        == (if k < i0 {
        spec_entry_at(st0, b0, k)
    } else {
        spec_entry_at(st0, b0, k + 1)
    }) by {
        assert(spec_side(st1, b0).records@[k] == spec_side(st0, b0).records@.remove(i0)[k]);
        if k < i0 {
            assert(spec_side(st0, b0).records@.remove(i0)[k] == spec_side(st0, b0).records@[k]);
        } else {
            assert(spec_side(st0, b0).records@.remove(i0)[k] == spec_side(
                st0,
                b0,
            ).records@[k + 1]);
        }
    }
    assert forall|b: bool, i: int|
        spec_pos_ok(st1, b, i) implies spec_entry_tickets_distinct(
        #[trigger] spec_entry_at(st1, b, i),
    ) by {
        if b == b0 {
            if i < i0 {
                assert(spec_pos_ok(st0, b0, i));
                assert(spec_entry_at(st1, b0, i) == spec_entry_at(st0, b0, i));
                assert(spec_entry_tickets_distinct(spec_entry_at(st0, b0, i)));
            } else {
                assert(spec_pos_ok(st0, b0, i + 1));
                assert(spec_entry_at(st1, b0, i) == spec_entry_at(st0, b0, i + 1));
                assert(spec_entry_tickets_distinct(spec_entry_at(st0, b0, i + 1)));
            }
        } else {
            assert(spec_side(st1, b) == spec_side(st0, b));
            assert(spec_pos_ok(st0, b, i));
            assert(spec_entry_at(st1, b, i) == spec_entry_at(st0, b, i));
            assert(spec_entry_tickets_distinct(spec_entry_at(st0, b, i)));
        }
    }
    assert forall|b1: bool, i1: int, b2: bool, i2: int|
        spec_pos_ok(st1, b1, i1) && spec_pos_ok(st1, b2, i2) && !(b1 == b2 && i1 == i2)
        implies spec_entries_tickets_disjoint(
        #[trigger] spec_entry_at(st1, b1, i1),
        #[trigger] spec_entry_at(st1, b2, i2),
    ) by {
        let j1 = if b1 == b0 && i1 >= i0 {
            i1 + 1
        } else {
            i1
        };
        let j2 = if b2 == b0 && i2 >= i0 {
            i2 + 1
        } else {
            i2
        };
        if b1 == b0 {
        } else {
            assert(spec_side(st1, b1) == spec_side(st0, b1));
        }
        if b2 == b0 {
        } else {
            assert(spec_side(st1, b2) == spec_side(st0, b2));
        }
        assert(spec_pos_ok(st0, b1, j1));
        assert(spec_pos_ok(st0, b2, j2));
        assert(spec_entry_at(st1, b1, i1) == spec_entry_at(st0, b1, j1));
        assert(spec_entry_at(st1, b2, i2) == spec_entry_at(st0, b2, j2));
        assert(spec_entries_tickets_disjoint(
            spec_entry_at(st0, b1, j1),
            spec_entry_at(st0, b2, j2),
        ));
    }
}

impl SubscriptionState {
    /// The engine invariant: both maps are well formed and the subscription
    /// count equals the total weight of both maps; the cached edge, when
    /// present, keys each shard once.
    pub open spec fn wf(self) -> bool {
        &&& spec_map_wf(self.mc, self.next_token)
        &&& spec_map_wf(self.sc, self.next_token)
        &&& self.count == spec_map_total(self.mc.records@) + spec_map_total(self.sc.records@)
        &&& spec_tickets_unique(self)
        &&& (self.last_mc_block matches Some(c) ==> c.edge.wf())
    }
}

/// Every entry weighs at least nothing: the total never goes negative.
pub proof fn lemma_total_nonneg(records: Seq<(Uint256, AccountEntry)>)
    ensures
        spec_map_total(records) >= 0,
    decreases records.len(),
{
    if records.len() > 0 {
        lemma_total_nonneg(records.drop_last());
    }
}

/// Pushing a record adds its weight to the total.
pub proof fn lemma_total_push(records: Seq<(Uint256, AccountEntry)>, v: (Uint256, AccountEntry))
    ensures
        spec_map_total(records.push(v)) == spec_map_total(records) + spec_entry_weight(v.1),
{
    assert(records.push(v).drop_last() =~= records);
    assert(records.push(v).last() == v);
}

/// Replacing a record shifts the total by the difference of the weights.
pub proof fn lemma_total_update(
    records: Seq<(Uint256, AccountEntry)>,
    i: int,
    v: (Uint256, AccountEntry),
)
    requires
        0 <= i < records.len(),
    ensures
        spec_map_total(records.update(i, v)) == spec_map_total(records) - spec_entry_weight(
            records[i].1,
        ) + spec_entry_weight(v.1),
    decreases records.len(),
{
    let updated = records.update(i, v);
    if i == records.len() - 1 {
        assert(updated.drop_last() =~= records.drop_last());
        assert(updated.last() == v);
    } else {
        assert(updated.drop_last() =~= records.drop_last().update(i, v));
        assert(updated.last() == records.last());
        lemma_total_update(records.drop_last(), i, v);
    }
}

/// Removing a record takes its weight out of the total.
pub proof fn lemma_total_remove(records: Seq<(Uint256, AccountEntry)>, i: int)
    requires
        0 <= i < records.len(),
    ensures
        spec_map_total(records.remove(i)) == spec_map_total(records) - spec_entry_weight(
            records[i].1,
        ),
    decreases records.len(),
{
    let removed = records.remove(i);
    if i == records.len() - 1 {
        assert(removed =~= records.drop_last());
    } else {
        assert(removed.drop_last() =~= records.drop_last().remove(i));
        assert(removed.last() == records.last());
        lemma_total_remove(records.drop_last(), i);
    }
}

/// A record's key locates exactly that record in a uniquely keyed map.
pub proof fn lemma_entry_at(m: AccountMap, i: int)
    requires
        spec_keys_unique(m),
        0 <= i < m.records@.len(),
    ensures
        spec_map_has_account(m, m.records@[i].0),
        spec_index_of(m, m.records@[i].0) == i,
        spec_account_entry(m, m.records@[i].0) == m.records@[i].1,
{
    let a = m.records@[i].0;
    assert(spec_map_has_account(m, a));
    let j = spec_index_of(m, a);
    assert(0 <= j < m.records@.len() && m.records@[j].0 == a);
    assert(j == i);
}

/// An entry stays well formed against any later token bound.
pub proof fn lemma_entry_wf_monotone(e: AccountEntry, n1: u64, n2: u64)
    requires
        spec_entry_wf(e, n1),
        n1 <= n2,
    ensures
        spec_entry_wf(e, n2),
{
}

/// Replacing one record in place (same key) relocates nothing: account
/// membership is untouched and every other account keeps its entry.
pub proof fn lemma_map_update_frame(m0: AccountMap, m1: AccountMap, i: int)
    requires
        spec_keys_unique(m0),
        0 <= i < m0.records@.len(),
        m1.records@.len() == m0.records@.len(),
        forall|j: int|
            0 <= j < m0.records@.len() && j != i ==> m1.records@[j] == m0.records@[j],
        m1.records@[i].0 == m0.records@[i].0,
    ensures
        spec_keys_unique(m1),
        forall|a: Uint256| spec_map_has_account(m1, a) == spec_map_has_account(m0, a),
        forall|a: Uint256|
            a != m0.records@[i].0 && spec_map_has_account(m0, a) ==> spec_account_entry(m1, a)
                == spec_account_entry(m0, a),
        spec_map_has_account(m1, m0.records@[i].0),
        spec_index_of(m1, m0.records@[i].0) == i,
        spec_account_entry(m1, m0.records@[i].0) == m1.records@[i].1,
{
    assert(forall|j: int| 0 <= j < m1.records@.len() ==> m1.records@[j].0 == m0.records@[j].0);
    assert forall|a: Uint256| spec_map_has_account(m1, a) == spec_map_has_account(m0, a) by {
        if spec_map_has_account(m0, a) {
            let k = spec_index_of(m0, a);
            assert(m1.records@[k].0 == a);
        }
        if spec_map_has_account(m1, a) {
            let k = choose|k: int| 0 <= k < m1.records@.len() && m1.records@[k].0 == a;
            assert(m0.records@[k].0 == a);
        }
    }
    assert forall|a: Uint256|
        a != m0.records@[i].0 && spec_map_has_account(m0, a) implies spec_account_entry(m1, a)
        == spec_account_entry(m0, a) by {
        let k = spec_index_of(m0, a);
        assert(0 <= k < m0.records@.len() && m0.records@[k].0 == a);
        assert(k != i);
        lemma_entry_at(m0, k);
        lemma_entry_at(m1, k);
    }
    lemma_entry_at(m1, i);
}

/// Appending a record for a fresh key leaves every other account untouched.
pub proof fn lemma_map_push_frame(m0: AccountMap, m1: AccountMap, a_new: Uint256)
    requires
        spec_keys_unique(m0),
        !spec_map_has_account(m0, a_new),
        m1.records@.len() == m0.records@.len() + 1,
        forall|j: int| 0 <= j < m0.records@.len() ==> m1.records@[j] == m0.records@[j],
        m1.records@.last().0 == a_new,
    ensures
        spec_keys_unique(m1),
        spec_map_has_account(m1, a_new),
        spec_index_of(m1, a_new) == m0.records@.len(),
        spec_account_entry(m1, a_new) == m1.records@.last().1,
        forall|a: Uint256|
            a != a_new ==> spec_map_has_account(m1, a) == spec_map_has_account(m0, a),
        forall|a: Uint256|
            a != a_new && spec_map_has_account(m0, a) ==> spec_account_entry(m1, a)
                == spec_account_entry(m0, a),
{
    let n = m0.records@.len() as int;
    assert(spec_keys_unique(m1)) by {
        assert forall|i: int, j: int|
            0 <= i < j < m1.records@.len() implies m1.records@[i].0 != m1.records@[j].0 by {
            if j < n {
            } else {
                assert(m1.records@[j].0 == a_new);
                assert(m1.records@[i] == m0.records@[i]);
            }
        }
    }
    lemma_entry_at(m1, n);
    assert forall|a: Uint256|
        a != a_new implies spec_map_has_account(m1, a) == spec_map_has_account(m0, a) by {
        if spec_map_has_account(m0, a) {
            let k = spec_index_of(m0, a);
            assert(m1.records@[k].0 == a);
        }
        if spec_map_has_account(m1, a) {
            let k = choose|k: int| 0 <= k < m1.records@.len() && m1.records@[k].0 == a;
            assert(k < n);
            assert(m0.records@[k].0 == a);
        }
    }
    assert forall|a: Uint256|
        a != a_new && spec_map_has_account(m0, a) implies spec_account_entry(m1, a)
        == spec_account_entry(m0, a) by {
        let k = spec_index_of(m0, a);
        lemma_entry_at(m0, k);
        lemma_entry_at(m1, k);
    }
}

/// Removing one record affects only its own key: every other account keeps
/// its entry.
pub proof fn lemma_map_remove_frame(m0: AccountMap, m1: AccountMap, i: int)
    requires
        spec_keys_unique(m0),
        0 <= i < m0.records@.len(),
        m1.records@ == m0.records@.remove(i),
    ensures
        spec_keys_unique(m1),
        !spec_map_has_account(m1, m0.records@[i].0),
        forall|a: Uint256|
            a != m0.records@[i].0 ==> spec_map_has_account(m1, a) == spec_map_has_account(m0, a),
        forall|a: Uint256|
            a != m0.records@[i].0 && spec_map_has_account(m0, a) ==> spec_account_entry(m1, a)
                == spec_account_entry(m0, a),
{
    let a_rem = m0.records@[i].0;
    assert(forall|j: int|
        0 <= j < m1.records@.len() ==> m1.records@[j] == (if j < i {
            m0.records@[j]
        } else {
            m0.records@[j + 1]
        }));
    assert(spec_keys_unique(m1)) by {
        assert forall|p: int, q: int|
            0 <= p < q < m1.records@.len() implies m1.records@[p].0 != m1.records@[q].0 by {}
    }
    assert(!spec_map_has_account(m1, a_rem)) by {
        if spec_map_has_account(m1, a_rem) {
            let k = choose|k: int| 0 <= k < m1.records@.len() && m1.records@[k].0 == a_rem;
            if k < i {
                assert(m0.records@[k].0 == a_rem);
            } else {
                assert(m0.records@[k + 1].0 == a_rem);
            }
        }
    }
    assert forall|a: Uint256|
        a != a_rem implies spec_map_has_account(m1, a) == spec_map_has_account(m0, a) by {
        if spec_map_has_account(m0, a) {
            let k = spec_index_of(m0, a);
            assert(k != i);
            if k < i {
                assert(m1.records@[k].0 == a);
            } else {
                assert(m1.records@[k - 1].0 == a);
            }
        }
        if spec_map_has_account(m1, a) {
            let k = choose|k: int| 0 <= k < m1.records@.len() && m1.records@[k].0 == a;
            if k < i {
                assert(m0.records@[k].0 == a);
            } else {
                assert(m0.records@[k + 1].0 == a);
            }
        }
    }
    assert forall|a: Uint256|
        a != a_rem && spec_map_has_account(m0, a) implies spec_account_entry(m1, a)
        == spec_account_entry(m0, a) by {
        let k = spec_index_of(m0, a);
        lemma_entry_at(m0, k);
        if k < i {
            lemma_entry_at(m1, k);
        } else {
            assert(m1.records@[k - 1] == m0.records@[k]);
            lemma_entry_at(m1, k - 1);
        }
    }
}

/// Appending a pending message with a fresh hash and the next ticket: the
/// entry stays well formed against the advanced bound, the new message is
/// found under its hash, and every other hash keeps its record.
pub proof fn lemma_entry_pending_push(
    e0: AccountEntry,
    e1: AccountEntry,
    msg: PendingMessage,
    next0: u64,
)
    requires
        e1.pending@ == e0.pending@.push(msg),
        e1.channels@ == e0.channels@,
        spec_entry_wf(e0, next0),
        !spec_entry_has_pending(e0, msg.msg_hash),
        msg.ticket == next0,
        next0 < u64::MAX,
    ensures
        spec_entry_wf(e1, (next0 + 1) as u64),
        spec_entry_has_pending(e1, msg.msg_hash),
        spec_pending_of(e1, msg.msg_hash) == msg,
        forall|h: Uint256|
            h != msg.msg_hash ==> spec_entry_has_pending(e1, h) == spec_entry_has_pending(e0, h),
        spec_entry_weight(e1) == spec_entry_weight(e0) + 1,
{
    let n = e0.pending@.len() as int;
    assert(e1.pending@[n] == msg);
    assert(spec_entry_wf(e1, (next0 + 1) as u64)) by {
        assert forall|i: int, j: int|
            0 <= i < j < e1.pending@.len() implies e1.pending@[i].msg_hash
            != e1.pending@[j].msg_hash by {
            if j < n {
            } else {
                assert(e1.pending@[i] == e0.pending@[i]);
            }
        }
    }
    assert(spec_entry_has_pending(e1, msg.msg_hash));
    let k = spec_entry_pending_index(e1, msg.msg_hash);
    assert(0 <= k < e1.pending@.len() && e1.pending@[k].msg_hash == msg.msg_hash);
    assert(k == n) by {
        if k < n {
            assert(e0.pending@[k].msg_hash == msg.msg_hash);
        }
    }
    assert forall|h: Uint256|
        h != msg.msg_hash implies spec_entry_has_pending(e1, h) == spec_entry_has_pending(
        e0,
        h,
    ) by {
        if spec_entry_has_pending(e0, h) {
            let j = spec_entry_pending_index(e0, h);
            assert(e1.pending@[j].msg_hash == h);
        }
        if spec_entry_has_pending(e1, h) {
            let j = spec_entry_pending_index(e1, h);
            assert(j != n);
            assert(e0.pending@[j].msg_hash == h);
        }
    }
}

/// The pending message an entry holds under hash `h`.
pub open spec fn spec_pending_of(e: AccountEntry, h: Uint256) -> PendingMessage {
    e.pending@[spec_entry_pending_index(e, h)]
}

/// Removing the pending message at position `j`: the entry stays well
/// formed, its hash is gone, and every other hash keeps its record.
pub proof fn lemma_entry_pending_remove(e0: AccountEntry, e1: AccountEntry, j: int, n: u64)
    requires
        0 <= j < e0.pending@.len(),
        e1.pending@ == e0.pending@.remove(j),
        e1.channels@ == e0.channels@,
        spec_entry_wf(e0, n),
    ensures
        spec_entry_wf(e1, n),
        !spec_entry_has_pending(e1, e0.pending@[j].msg_hash),
        forall|h: Uint256|
            h != e0.pending@[j].msg_hash ==> spec_entry_has_pending(e1, h)
                == spec_entry_has_pending(e0, h),
        forall|h: Uint256|
            h != e0.pending@[j].msg_hash && spec_entry_has_pending(e0, h) ==> spec_pending_of(
                e1,
                h,
            ) == spec_pending_of(e0, h),
        spec_entry_weight(e1) == spec_entry_weight(e0) - 1,
{
    let h_rem = e0.pending@[j].msg_hash;
    assert(forall|k: int|
        0 <= k < e1.pending@.len() ==> e1.pending@[k] == (if k < j {
            e0.pending@[k]
        } else {
            e0.pending@[k + 1]
        }));
    assert(spec_entry_wf(e1, n)) by {
        assert forall|p: int, q: int|
            0 <= p < q < e1.pending@.len() implies e1.pending@[p].msg_hash
            != e1.pending@[q].msg_hash by {}
    }
    assert(!spec_entry_has_pending(e1, h_rem)) by {
        if spec_entry_has_pending(e1, h_rem) {
            let k = spec_entry_pending_index(e1, h_rem);
            if k < j {
                assert(e0.pending@[k].msg_hash == h_rem);
            } else {
                assert(e0.pending@[k + 1].msg_hash == h_rem);
            }
        }
    }
    assert forall|h: Uint256|
        h != h_rem implies spec_entry_has_pending(e1, h) == spec_entry_has_pending(e0, h) by {
        if spec_entry_has_pending(e0, h) {
            let k = spec_entry_pending_index(e0, h);
            assert(k != j);
            if k < j {
                assert(e1.pending@[k].msg_hash == h);
            } else {
                assert(e1.pending@[k - 1].msg_hash == h);
            }
        }
        if spec_entry_has_pending(e1, h) {
            let k = spec_entry_pending_index(e1, h);
            if k < j {
                assert(e0.pending@[k].msg_hash == h);
            } else {
                assert(e0.pending@[k + 1].msg_hash == h);
            }
        }
    }
    assert forall|h: Uint256|
        h != h_rem && spec_entry_has_pending(e0, h) implies spec_pending_of(e1, h)
        == spec_pending_of(e0, h) by {
        let k = spec_entry_pending_index(e0, h);
        assert(0 <= k < e0.pending@.len() && e0.pending@[k].msg_hash == h);
        assert(k != j);
        let k1 = spec_entry_pending_index(e1, h);
        assert(spec_entry_has_pending(e1, h));
        assert(0 <= k1 < e1.pending@.len() && e1.pending@[k1].msg_hash == h);
        if k1 < j {
            assert(e0.pending@[k1].msg_hash == h);
            assert(k1 == k);
        } else {
            assert(e0.pending@[k1 + 1].msg_hash == h);
            assert(k1 + 1 == k);
        }
    }
}

/// Appending a channel slot carrying the next token: the entry stays well
/// formed against the advanced bound and its pending set is untouched.
pub proof fn lemma_entry_channel_push(e0: AccountEntry, e1: AccountEntry, slot: ChannelSlot, n0: u64)
    requires
        e1.channels@ == e0.channels@.push(slot),
        e1.pending@ == e0.pending@,
        spec_entry_wf(e0, n0),
        slot.id == n0,
        n0 < u64::MAX,
    ensures
        spec_entry_wf(e1, (n0 + 1) as u64),
        spec_entry_weight(e1) == spec_entry_weight(e0) + 1,
{
    let n = e0.channels@.len() as int;
    assert(e1.channels@[n] == slot);
    assert forall|i: int, j: int|
        0 <= i < j < e1.channels@.len() implies e1.channels@[i].id != e1.channels@[j].id by {
        if j < n {
        } else {
            assert(e1.channels@[i] == e0.channels@[i]);
        }
    }
}

/// Marking the channel at position `j` closed (same id): the entry stays
/// well formed, the weight and the pending set are untouched.
pub proof fn lemma_entry_channel_close(e0: AccountEntry, e1: AccountEntry, j: int, n: u64)
    requires
        0 <= j < e0.channels@.len(),
        e1.channels@ == e0.channels@.update(
            j,
            ChannelSlot { id: e0.channels@[j].id, closed: true },
        ),
        e1.pending@ == e0.pending@,
        spec_entry_wf(e0, n),
    ensures
        spec_entry_wf(e1, n),
        spec_entry_weight(e1) == spec_entry_weight(e0),
{
    assert(forall|k: int| 0 <= k < e1.channels@.len() ==> e1.channels@[k].id == e0.channels@[k].id);
}

impl AccountMap {
    /// The index of `account`'s record, when the map has one.
    fn find_index(&self, account: &Uint256) -> (r: Option<usize>)
        ensures
            r matches Some(i) ==> i < self.records@.len() && self.records@[i as int].0 == *account,
            r is None ==> forall|j: int| 0 <= j < self.records@.len() ==> self.records@[j].0
                != *account,
    {
        let n = self.records.len();
        for i in 0..n
            invariant
                n == self.records@.len(),
                forall|j: int| 0 <= j < i ==> self.records@[j].0 != *account,
        {
            if self.records[i].0 == *account {
                return Some(i);
            }
        }
        None
    }
}

impl AccountEntry {
    /// The position of the pending message with hash `h`, when there is one.
    fn find_pending(&self, h: &Uint256) -> (r: Option<usize>)
        ensures
            r matches Some(j) ==> j < self.pending@.len() && self.pending@[j as int].msg_hash == *h,
            r is None ==> forall|j: int| 0 <= j < self.pending@.len() ==> self.pending@[j].msg_hash
                != *h,
    {
        let n = self.pending.len();
        for j in 0..n
            invariant
                n == self.pending@.len(),
                forall|k: int| 0 <= k < j ==> self.pending@[k].msg_hash != *h,
        {
            if self.pending[j].msg_hash == *h {
                return Some(j);
            }
        }
        None
    }

    /// The position of the channel slot with id `id`, when there is one.
    fn find_channel(&self, id: u64) -> (r: Option<usize>)
        ensures
            r matches Some(j) ==> j < self.channels@.len() && self.channels@[j as int].id == id,
            r is None ==> forall|k: int| 0 <= k < self.channels@.len() ==> self.channels@[k].id
                != id,
    {
        let n = self.channels.len();
        for j in 0..n
            invariant
                n == self.channels@.len(),
                forall|k: int| 0 <= k < j ==> self.channels@[k].id != id,
        {
            if self.channels[j].id == id {
                return Some(j);
            }
        }
        None
    }
}

impl AccountMap {
    /// Inserts `msg` into `dst`'s pending set, creating the entry when
    /// absent; refuses a hash that is already pending.
    fn add_pending(&mut self, dst: Uint256, msg: PendingMessage) -> (added: bool)
        requires
            spec_keys_unique(*old(self)),
        ensures
            !added ==> *final(self) == *old(self) && spec_has_pending(
                *old(self),
                dst,
                msg.msg_hash,
            ),
            added ==> !spec_has_pending(*old(self), dst, msg.msg_hash),
            added && spec_map_has_account(*old(self), dst) ==> ({
                let i = spec_index_of(*old(self), dst);
                &&& final(self).records@.len() == old(self).records@.len()
                &&& forall|j: int|
                    0 <= j < old(self).records@.len() && j != i ==> final(self).records@[j] == old(
                        self,
                    ).records@[j]
                &&& final(self).records@[i].0 == dst
                &&& final(self).records@[i].1.pending@ == old(
                    self,
                ).records@[i].1.pending@.push(msg)
                &&& final(self).records@[i].1.channels@ == old(self).records@[i].1.channels@
            }),
            added && !spec_map_has_account(*old(self), dst) ==> ({
                &&& final(self).records@.len() == old(self).records@.len() + 1
                &&& forall|j: int|
                    0 <= j < old(self).records@.len() ==> final(self).records@[j] == old(
                        self,
                    ).records@[j]
                &&& final(self).records@.last().0 == dst
                &&& final(self).records@.last().1.pending@ == seq![msg]
                &&& final(self).records@.last().1.channels@.len() == 0
            }),
    {
        match self.find_index(&dst) {
            Some(i) => {
                proof {
                    lemma_entry_at(*self, i as int);
                }
                if self.records[i].1.find_pending(&msg.msg_hash).is_some() {
                    return false;
                }
                let (key, mut entry) = self.records.remove(i);
                entry.pending.push(msg);
                self.records.insert(i, (key, entry));
                proof {
                    assert(self.records@ =~= old(self).records@.update(
                        i as int,
                        self.records@[i as int],
                    ));
                }
                true
            },
            None => {
                proof {
                    assert(!spec_map_has_account(*self, dst));
                }
                let mut pending: Vec<PendingMessage> = Vec::new();
                pending.push(msg);
                let entry = AccountEntry { pending, channels: Vec::new() };
                self.records.push((dst, entry));
                proof {
                    assert(self.records@.last().1.pending@ =~= seq![msg]);
                }
                true
            },
        }
    }

    /// Removes the pending message with hash `h` from `dst`'s entry, when
    /// there is one; with `drop_empty` an entry left with nothing is removed
    /// from the map.
    fn take_pending_in(&mut self, dst: Uint256, h: Uint256, drop_empty: bool) -> (removed: Option<
        PendingMessage,
    >)
        requires
            spec_keys_unique(*old(self)),
            spec_map_entries_distinct(*old(self)),
        ensures
            removed is None ==> *final(self) == *old(self) && !spec_has_pending(*old(self), dst, h),
            removed matches Some(p) ==> spec_has_pending(*old(self), dst, h) && p
                == spec_pending_record(*old(self), dst, h) && ({
                let i = spec_index_of(*old(self), dst);
                let e = old(self).records@[i].1;
                let j = spec_entry_pending_index(e, h);
                if drop_empty && e.pending@.len() == 1 && e.channels@.len() == 0 {
                    final(self).records@ == old(self).records@.remove(i)
                } else {
                    &&& final(self).records@.len() == old(self).records@.len()
                    &&& forall|k: int|
                        0 <= k < old(self).records@.len() && k != i ==> final(self).records@[k]
                            == old(self).records@[k]
                    &&& final(self).records@[i].0 == dst
                    &&& final(self).records@[i].1.pending@ == e.pending@.remove(j)
                    &&& final(self).records@[i].1.channels@ == e.channels@
                }
            }),
    {
        let i_opt = self.find_index(&dst);
        let i = match i_opt {
            Some(i) => i,
            None => {
                proof {
                    assert(!spec_map_has_account(*self, dst));
                }
                return None;
            },
        };
        proof {
            lemma_entry_at(*self, i as int);
        }
        let j_opt = self.records[i].1.find_pending(&h);
        let j = match j_opt {
            Some(j) => j,
            None => {
                return None;
            },
        };
        proof {
            assert(spec_entry_has_pending(old(self).records@[i as int].1, h));
            let j2 = spec_entry_pending_index(old(self).records@[i as int].1, h);
            assert(old(self).records@[i as int].1.pending@[j2].msg_hash == h);
            assert(spec_entry_keys_distinct(old(self).records@[i as int].1));
            assert(j2 == j as int);
        }
        let (key, mut entry) = self.records.remove(i);
        let taken = entry.pending.remove(j);
        if drop_empty && entry.pending.len() == 0 && entry.channels.len() == 0 {
            proof {
                assert(self.records@ =~= old(self).records@.remove(i as int));
            }
            return Some(taken);
        }
        self.records.insert(i, (key, entry));
        proof {
            assert(self.records@ =~= old(self).records@.update(
                i as int,
                self.records@[i as int],
            ));
            assert(forall|k: int|
                0 <= k < old(self).records@.len() && k != i as int ==> self.records@[k] == old(
                    self,
                ).records@[k]);
        }
        Some(taken)
    }

    /// Adds a channel slot to `account`'s entry, creating the entry when
    /// absent.
    fn add_channel(&mut self, account: Uint256, slot: ChannelSlot)
        requires
            spec_keys_unique(*old(self)),
        ensures
            spec_map_has_account(*old(self), account) ==> ({
                let i = spec_index_of(*old(self), account);
                &&& final(self).records@.len() == old(self).records@.len()
                &&& forall|j: int|
                    0 <= j < old(self).records@.len() && j != i ==> final(self).records@[j] == old(
                        self,
                    ).records@[j]
                &&& final(self).records@[i].0 == account
                &&& final(self).records@[i].1.channels@ == old(
                    self,
                ).records@[i].1.channels@.push(slot)
                &&& final(self).records@[i].1.pending@ == old(self).records@[i].1.pending@
            }),
            !spec_map_has_account(*old(self), account) ==> ({
                &&& final(self).records@.len() == old(self).records@.len() + 1
                &&& forall|j: int|
                    0 <= j < old(self).records@.len() ==> final(self).records@[j] == old(
                        self,
                    ).records@[j]
                &&& final(self).records@.last().0 == account
                &&& final(self).records@.last().1.channels@ == seq![slot]
                &&& final(self).records@.last().1.pending@.len() == 0
            }),
    {
        match self.find_index(&account) {
            Some(i) => {
                proof {
                    lemma_entry_at(*self, i as int);
                }
                let (key, mut entry) = self.records.remove(i);
                entry.channels.push(slot);
                self.records.insert(i, (key, entry));
                proof {
                    assert(self.records@ =~= old(self).records@.update(
                        i as int,
                        self.records@[i as int],
                    ));
                }
            },
            None => {
                proof {
                    assert(!spec_map_has_account(*self, account));
                }
                let mut channels: Vec<ChannelSlot> = Vec::new();
                channels.push(slot);
                let entry = AccountEntry { pending: Vec::new(), channels };
                self.records.push((account, entry));
                proof {
                    assert(self.records@.last().1.channels@ =~= seq![slot]);
                }
            },
        }
    }

    /// Marks the channel with id `id` in `account`'s entry closed.
    fn close_channel_in(&mut self, account: Uint256, id: u64) -> (found: bool)
        requires
            spec_keys_unique(*old(self)),
            spec_map_entries_distinct(*old(self)),
        ensures
            found == (spec_map_has_account(*old(self), account) && spec_entry_has_channel(
                spec_account_entry(*old(self), account),
                id,
            )),
            !found ==> *final(self) == *old(self),
            found ==> spec_map_has_account(*old(self), account) && ({
                let i = spec_index_of(*old(self), account);
                let e = old(self).records@[i].1;
                let j = spec_entry_channel_index(e, id);
                &&& spec_entry_has_channel(e, id)
                &&& final(self).records@.len() == old(self).records@.len()
                &&& (forall|k: int|
                    0 <= k < old(self).records@.len() && k != i ==> final(self).records@[k] == old(
                        self,
                    ).records@[k])
                &&& final(self).records@[i].0 == account
                &&& final(self).records@[i].1.pending@ == e.pending@
                &&& final(self).records@[i].1.channels@ == e.channels@.update(
                    j,
                    ChannelSlot { id: e.channels@[j].id, closed: true },
                )
            }),
    {
        let i = match self.find_index(&account) {
            Some(i) => i,
            None => {
                proof {
                    assert(!spec_map_has_account(*self, account));
                }
                return false;
            },
        };
        proof {
            lemma_entry_at(*self, i as int);
        }
        let j = match self.records[i].1.find_channel(id) {
            Some(j) => j,
            None => {
                proof {
                    assert(!spec_entry_has_channel(self.records@[i as int].1, id)) by {
                        if spec_entry_has_channel(self.records@[i as int].1, id) {
                            let j2 = spec_entry_channel_index(self.records@[i as int].1, id);
                            assert(self.records@[i as int].1.channels@[j2].id == id);
                        }
                    }
                }
                return false;
            },
        };
        proof {
            assert(spec_entry_has_channel(old(self).records@[i as int].1, id));
            let j2 = spec_entry_channel_index(old(self).records@[i as int].1, id);
            assert(old(self).records@[i as int].1.channels@[j2].id == id);
            assert(spec_entry_keys_distinct(old(self).records@[i as int].1));
            assert(j2 == j as int);
        }
        let (key, mut entry) = self.records.remove(i);
        let slot = ChannelSlot { id, closed: true };
        entry.channels.set(j, slot);
        self.records.insert(i, (key, entry));
        proof {
            assert(self.records@ =~= old(self).records@.update(i as int, self.records@[i as int]));
        }
        true
    }
}

/// Whether the entry has a channel slot with id `id`.
pub open spec fn spec_entry_has_channel(e: AccountEntry, id: u64) -> bool {
    exists|j: int| 0 <= j < e.channels@.len() && e.channels@[j].id == id
}

/// The position of the channel slot with id `id` in the entry.
pub open spec fn spec_entry_channel_index(e: AccountEntry, id: u64) -> int {
    choose|j: int| 0 <= j < e.channels@.len() && e.channels@[j].id == id
}

/// Seconds an external message stays valid from the moment it is built: its
/// expiry is this far from the send time, and a resend builds a fresh
/// message.
pub const MESSAGE_TIMEOUT_SECS: u32 = 60;

/// Why the engine refuses to register an external message.
#[derive(Clone, Copy, Debug, PartialEq, Eq, Structural)]
pub enum SendError {
    /// The destination lies in a workchain the engine does not track.
    UnsupportedWorkchain,
    /// A message with this hash is already awaiting its reply.
    AlreadyPending,
}

impl SubscriptionState {
    /// A fresh engine: no subscriptions, nothing cached.
    pub fn new() -> (r: SubscriptionState)
        ensures
            r.wf(),
            r.count == 0,
            r.next_token == 0,
            r.mc.records@.len() == 0,
            r.sc.records@.len() == 0,
            r.global_id is None,
            r.last_mc_block is None,
    {
        SubscriptionState {
            mc: AccountMap { records: Vec::new() },
            sc: AccountMap { records: Vec::new() },
            count: 0,
            next_token: 0,
            global_id: None,
            last_mc_block: None,
        }
    }

    /// Whether any pending message or channel exists — the walker's "any
    /// work?" predicate.
    pub fn has_subscriptions(&self) -> (r: bool)
        ensures
            r == (self.count > 0),
    {
        self.count > 0
    }

    /// Registers an external message bound for `dst` in workchain `workchain`
    /// before it is transmitted. A destination outside the masterchain and
    /// the base workchain is refused, as is a message hash already awaiting a
    /// reply; otherwise the message joins `dst`'s pending set with a fresh
    /// reply ticket — the ticket of no other pending message — and the
    /// subscription count grows by one. Nothing else changes.
    pub fn register_pending(
        &mut self,
        workchain: i32,
        dst: Uint256,
        msg_hash: Uint256,
        expire_at: u32,
    ) -> (r: Result<u64, SendError>)
        requires
            old(self).wf(),
            old(self).next_token < u64::MAX,
            old(self).count < u64::MAX,
        ensures
            final(self).wf(),
            workchain != MASTERCHAIN_ID && workchain != BASE_WORKCHAIN_ID ==> r == Err::<
                u64,
                SendError,
            >(SendError::UnsupportedWorkchain) && *final(self) == *old(self),
            workchain == MASTERCHAIN_ID || workchain == BASE_WORKCHAIN_ID ==> ({
                let is_mc = workchain == MASTERCHAIN_ID;
                let side0 = spec_side(*old(self), is_mc);
                let side1 = spec_side(*final(self), is_mc);
                if spec_has_pending(side0, dst, msg_hash) {
                    r == Err::<u64, SendError>(SendError::AlreadyPending) && *final(self) == *old(
                        self,
                    )
                } else {
                    &&& r == Ok::<u64, SendError>(old(self).next_token)
                    &&& final(self).next_token == old(self).next_token + 1
                    &&& final(self).count == old(self).count + 1
                    &&& spec_has_pending(side1, dst, msg_hash)
                    &&& spec_pending_record(side1, dst, msg_hash) == (PendingMessage {
                        msg_hash,
                        expire_at,
                        ticket: old(self).next_token,
                    })
                    &&& spec_side(*final(self), !is_mc) == spec_side(*old(self), !is_mc)
                    &&& forall|a: Uint256, h: Uint256|
                        !(a == dst && h == msg_hash) ==> spec_has_pending(side1, a, h)
                            == spec_has_pending(side0, a, h)
                    &&& forall|a: Uint256|
                        spec_account_channels(side1, a) == spec_account_channels(side0, a)
                    &&& final(self).global_id == old(self).global_id
                    &&& final(self).last_mc_block == old(self).last_mc_block
                }
            }),
    {
        if workchain != MASTERCHAIN_ID && workchain != BASE_WORKCHAIN_ID {
            return Err(SendError::UnsupportedWorkchain);
        }
        let is_mc = workchain == MASTERCHAIN_ID;
        let msg = PendingMessage { msg_hash, expire_at, ticket: self.next_token };
        let added = if is_mc {
            self.mc.add_pending(dst, msg)
        } else {
            self.sc.add_pending(dst, msg)
        };
        if !added {
            return Err(SendError::AlreadyPending);
        }
        let ticket = self.next_token;
        self.next_token = self.next_token + 1;
        self.count = self.count + 1;
        proof {
            let side0 = spec_side(*old(self), is_mc);
            let side1 = spec_side(*self, is_mc);
            let nt0 = old(self).next_token;
            if spec_map_has_account(side0, dst) {
                let i = spec_index_of(side0, dst);
                assert(0 <= i < side0.records@.len() && side0.records@[i].0 == dst);
                lemma_entry_at(side0, i);
                lemma_map_update_frame(side0, side1, i);
                lemma_total_update(side0.records@, i, side1.records@[i]);
                lemma_entry_pending_push(
                    side0.records@[i].1,
                    side1.records@[i].1,
                    msg,
                    nt0,
                );
                assert(side1.records@ =~= side0.records@.update(i, side1.records@[i]));
                assert forall|k: int|
                    0 <= k < side1.records@.len() implies spec_entry_wf(
                    #[trigger] side1.records@[k].1,
                    (nt0 + 1) as u64,
                ) by {
                    if k != i {
                        lemma_entry_wf_monotone(side0.records@[k].1, nt0, (nt0 + 1) as u64);
                    }
                }
                assert forall|a: Uint256, h: Uint256|
                    !(a == dst && h == msg_hash) implies spec_has_pending(side1, a, h)
                    == spec_has_pending(side0, a, h) by {
                    if a == dst {
                        assert(spec_account_entry(side1, dst) == side1.records@[i].1);
                    }
                }
                assert forall|a: Uint256|
                    spec_account_channels(side1, a) == spec_account_channels(side0, a) by {
                    if a == dst {
                        assert(spec_account_entry(side1, dst) == side1.records@[i].1);
                    }
                }
            } else {
                let n = side0.records@.len() as int;
                lemma_map_push_frame(side0, side1, dst);
                assert(side1.records@ =~= side0.records@.push(side1.records@.last()));
                lemma_total_push(side0.records@, side1.records@.last());
                assert(spec_entry_weight(side1.records@.last().1) == 1);
                assert forall|k: int|
                    0 <= k < side1.records@.len() implies spec_entry_wf(
                    #[trigger] side1.records@[k].1,
                    (nt0 + 1) as u64,
                ) by {
                    if k < n {
                        lemma_entry_wf_monotone(side0.records@[k].1, nt0, (nt0 + 1) as u64);
                    } else {
                        assert(side1.records@[k].1.pending@ == seq![msg]);
                        assert(side1.records@[k].1.pending@[0] == msg);
                    }
                }
                assert(spec_account_entry(side1, dst) == side1.records@.last().1);
                assert(side1.records@.last().1.pending@[0] == msg);
                assert(spec_entry_has_pending(side1.records@.last().1, msg_hash));
                let j = spec_entry_pending_index(side1.records@.last().1, msg_hash);
                assert(j == 0);
                assert forall|a: Uint256, h: Uint256|
                    !(a == dst && h == msg_hash) implies spec_has_pending(side1, a, h)
                    == spec_has_pending(side0, a, h) by {
                    if a == dst {
                        assert(!spec_map_has_account(side0, dst));
                        if spec_entry_has_pending(side1.records@.last().1, h) {
                            let j2 = spec_entry_pending_index(side1.records@.last().1, h);
                            assert(j2 == 0);
                        }
                    }
                }
                assert forall|a: Uint256|
                    spec_account_channels(side1, a) == spec_account_channels(side0, a) by {
                    if a == dst {
                        assert(spec_account_channels(side1, dst)
                            == side1.records@.last().1.channels@);
                        assert(side1.records@.last().1.channels@ =~= Seq::<ChannelSlot>::empty());
                    }
                }
            }
            if spec_map_has_account(side0, dst) {
                lemma_tickets_unique_after_push(
                    *old(self),
                    *self,
                    is_mc,
                    spec_index_of(side0, dst),
                    msg,
                );
            } else {
                lemma_tickets_unique_after_new_record(*old(self), *self, is_mc, msg);
            }
        }
        Ok(ticket)
    }

    /// Withdraws a pending message whose transmission failed, removing its
    /// account entry too when nothing else is left in it. When the message is
    /// present the count shrinks by one and everything unrelated stays as it
    /// was; when it is not, nothing changes.
    pub fn remove_pending(&mut self, is_mc: bool, dst: Uint256, msg_hash: Uint256)
        requires
            old(self).wf(),
        ensures
            final(self).wf(),
            !spec_has_pending(spec_side(*final(self), is_mc), dst, msg_hash),
            !spec_has_pending(spec_side(*old(self), is_mc), dst, msg_hash) ==> *final(self) == *old(
                self,
            ),
            spec_has_pending(spec_side(*old(self), is_mc), dst, msg_hash) ==> ({
                let side0 = spec_side(*old(self), is_mc);
                let side1 = spec_side(*final(self), is_mc);
                &&& final(self).count == old(self).count - 1
                &&& final(self).next_token == old(self).next_token
                &&& forall|a: Uint256, h: Uint256|
                    !(a == dst && h == msg_hash) ==> spec_has_pending(side1, a, h)
                        == spec_has_pending(side0, a, h)
                &&& forall|a: Uint256|
                    spec_account_channels(side1, a) == spec_account_channels(side0, a)
                &&& spec_side(*final(self), !is_mc) == spec_side(*old(self), !is_mc)
                &&& final(self).global_id == old(self).global_id
                &&& final(self).last_mc_block == old(self).last_mc_block
            }),
    {
        proof {
            let side0 = spec_side(*old(self), is_mc);
            assert(spec_map_entries_distinct(side0)) by {
                assert forall|k: int|
                    0 <= k < side0.records@.len() implies spec_entry_keys_distinct(
                    #[trigger] side0.records@[k].1,
                ) by {
                    assert(spec_entry_wf(side0.records@[k].1, old(self).next_token));
                }
            }
        }
        let removed = if is_mc {
            self.mc.take_pending_in(dst, msg_hash, true)
        } else {
            self.sc.take_pending_in(dst, msg_hash, true)
        };
        if removed.is_none() {
            return ;
        }
        proof {
            let side0 = spec_side(*old(self), is_mc);
            let side1 = spec_side(*self, is_mc);
            let nt = old(self).next_token;
            let i = spec_index_of(side0, dst);
            assert(0 <= i < side0.records@.len() && side0.records@[i].0 == dst);
            lemma_entry_at(side0, i);
            let e = side0.records@[i].1;
            let j = spec_entry_pending_index(e, msg_hash);
            assert(0 <= j < e.pending@.len() && e.pending@[j].msg_hash == msg_hash);
            if e.pending@.len() == 1 && e.channels@.len() == 0 {
                lemma_map_remove_frame(side0, side1, i);
                lemma_total_remove(side0.records@, i);
                assert(spec_entry_weight(e) == 1);
                assert forall|k: int|
                    0 <= k < side1.records@.len() implies spec_entry_wf(
                    #[trigger] side1.records@[k].1,
                    nt,
                ) by {
                    if k < i {
                        assert(side1.records@[k].1 == side0.records@[k].1);
                    } else {
                        assert(side1.records@[k].1 == side0.records@[k + 1].1);
                    }
                }
                assert forall|a: Uint256, h: Uint256|
                    !(a == dst && h == msg_hash) implies spec_has_pending(side1, a, h)
                    == spec_has_pending(side0, a, h) by {
                    if a == dst {
                        assert(!spec_map_has_account(side1, dst));
                        if spec_entry_has_pending(e, h) {
                            let k = spec_entry_pending_index(e, h);
                            assert(k == j);
                        }
                    }
                }
                assert forall|a: Uint256|
                    spec_account_channels(side1, a) == spec_account_channels(side0, a) by {
                    if a == dst {
                        assert(spec_account_channels(side0, dst) =~= Seq::<ChannelSlot>::empty());
                        assert(spec_account_channels(side1, dst) =~= Seq::<ChannelSlot>::empty());
                    }
                }
            } else {
                lemma_map_update_frame(side0, side1, i);
                lemma_total_update(side0.records@, i, side1.records@[i]);
                lemma_entry_pending_remove(e, side1.records@[i].1, j, nt);
                assert(side1.records@ =~= side0.records@.update(i, side1.records@[i]));
                assert forall|k: int|
                    0 <= k < side1.records@.len() implies spec_entry_wf(
                    #[trigger] side1.records@[k].1,
                    nt,
                ) by {
                    if k != i {
                        assert(side1.records@[k].1 == side0.records@[k].1);
                    }
                }
                assert forall|a: Uint256, h: Uint256|
                    !(a == dst && h == msg_hash) implies spec_has_pending(side1, a, h)
                    == spec_has_pending(side0, a, h) by {
                    if a == dst {
                        assert(spec_account_entry(side1, dst) == side1.records@[i].1);
                    }
                }
                assert forall|a: Uint256|
                    spec_account_channels(side1, a) == spec_account_channels(side0, a) by {
                    if a == dst {
                        assert(spec_account_entry(side1, dst) == side1.records@[i].1);
                    }
                }
            }
            lemma_total_nonneg(side1.records@);
            lemma_total_nonneg(spec_side(*self, !is_mc).records@);
            assert(old(self).count >= 1);
        }
        self.count = self.count - 1;
        proof {
            let side0 = spec_side(*old(self), is_mc);
            let i = spec_index_of(side0, dst);
            lemma_entry_at(side0, i);
            let e = side0.records@[i].1;
            let j = spec_entry_pending_index(e, msg_hash);
            if e.pending@.len() == 1 && e.channels@.len() == 0 {
                lemma_tickets_unique_after_record_remove(*old(self), *self, is_mc, i);
            } else {
                lemma_tickets_unique_after_element_remove(*old(self), *self, is_mc, i, j);
            }
        }
    }

    /// Opens a transaction broadcast channel for `account`: masterchain
    /// accounts go to the masterchain map, every other workchain to the shard
    /// map. Returns the fresh channel id; the subscription count grows by
    /// one and no pending message is touched.
    pub fn subscribe(&mut self, workchain: i32, account: Uint256) -> (r: u64)
        requires
            old(self).wf(),
            old(self).next_token < u64::MAX,
            old(self).count < u64::MAX,
        ensures
            final(self).wf(),
            r == old(self).next_token,
            final(self).next_token == old(self).next_token + 1,
            final(self).count == old(self).count + 1,
            ({
                let is_mc = workchain == MASTERCHAIN_ID;
                let side0 = spec_side(*old(self), is_mc);
                let side1 = spec_side(*final(self), is_mc);
                &&& spec_account_channels(side1, account) == spec_account_channels(
                    side0,
                    account,
                ).push(ChannelSlot { id: old(self).next_token, closed: false })
                &&& forall|a: Uint256|
                    a != account ==> spec_account_channels(side1, a) == spec_account_channels(
                        side0,
                        a,
                    )
                &&& forall|a: Uint256, h: Uint256|
                    spec_has_pending(side1, a, h) == spec_has_pending(side0, a, h)
                &&& forall|a: Uint256, h: Uint256|
                    spec_has_pending(side0, a, h) ==> spec_pending_record(side1, a, h)
                        == spec_pending_record(side0, a, h)
                &&& spec_side(*final(self), !is_mc) == spec_side(*old(self), !is_mc)
            }),
            final(self).global_id == old(self).global_id,
            final(self).last_mc_block == old(self).last_mc_block,
    {
        let is_mc = workchain == MASTERCHAIN_ID;
        let slot = ChannelSlot { id: self.next_token, closed: false };
        if is_mc {
            self.mc.add_channel(account, slot);
        } else {
            self.sc.add_channel(account, slot);
        }
        let id = self.next_token;
        self.next_token = self.next_token + 1;
        self.count = self.count + 1;
        proof {
            let side0 = spec_side(*old(self), is_mc);
            let side1 = spec_side(*self, is_mc);
            let nt0 = old(self).next_token;
            if spec_map_has_account(side0, account) {
                let i = spec_index_of(side0, account);
                assert(0 <= i < side0.records@.len() && side0.records@[i].0 == account);
                lemma_entry_at(side0, i);
                lemma_map_update_frame(side0, side1, i);
                assert(side1.records@ =~= side0.records@.update(i, side1.records@[i]));
                lemma_total_update(side0.records@, i, side1.records@[i]);
                lemma_entry_channel_push(side0.records@[i].1, side1.records@[i].1, slot, nt0);
                assert forall|k: int|
                    0 <= k < side1.records@.len() implies spec_entry_wf(
                    #[trigger] side1.records@[k].1,
                    (nt0 + 1) as u64,
                ) by {
                    if k != i {
                        lemma_entry_wf_monotone(side0.records@[k].1, nt0, (nt0 + 1) as u64);
                    }
                }
                assert(spec_account_entry(side1, account) == side1.records@[i].1);
                assert forall|a: Uint256, h: Uint256|
                    spec_has_pending(side1, a, h) == spec_has_pending(side0, a, h) && (
                spec_has_pending(side0, a, h) ==> spec_pending_record(side1, a, h)
                    == spec_pending_record(side0, a, h)) by {
                    if a == account {
                        assert(side1.records@[i].1.pending@ == side0.records@[i].1.pending@);
                    }
                }
            } else {
                let n = side0.records@.len() as int;
                lemma_map_push_frame(side0, side1, account);
                assert(side1.records@ =~= side0.records@.push(side1.records@.last()));
                lemma_total_push(side0.records@, side1.records@.last());
                assert(spec_entry_weight(side1.records@.last().1) == 1);
                assert forall|k: int|
                    0 <= k < side1.records@.len() implies spec_entry_wf(
                    #[trigger] side1.records@[k].1,
                    (nt0 + 1) as u64,
                ) by {
                    if k < n {
                        lemma_entry_wf_monotone(side0.records@[k].1, nt0, (nt0 + 1) as u64);
                    } else {
                        assert(side1.records@[k].1.channels@ == seq![slot]);
                        assert(side1.records@[k].1.channels@[0] == slot);
                    }
                }
                assert(spec_account_channels(side0, account) =~= Seq::<ChannelSlot>::empty());
                assert(spec_account_channels(side1, account) =~= seq![slot]);
                assert(spec_account_channels(side1, account) =~= spec_account_channels(
                    side0,
                    account,
                ).push(slot));
                assert forall|a: Uint256, h: Uint256|
                    spec_has_pending(side1, a, h) == spec_has_pending(side0, a, h) && (
                spec_has_pending(side0, a, h) ==> spec_pending_record(side1, a, h)
                    == spec_pending_record(side0, a, h)) by {
                    if a == account {
                        assert(side1.records@.last().1.pending@.len() == 0);
                        assert(spec_account_entry(side1, account) == side1.records@.last().1);
                        assert(!spec_entry_has_pending(side1.records@.last().1, h));
                    }
                }
            }
            lemma_tickets_unique_pending_preserved(*old(self), *self);
        }
        id
    }

    /// Records that the receiving end of channel `id` on `account` is gone:
    /// that exact slot — and nothing else — now carries `closed`, so the next
    /// collection pass removes it. Succeeds exactly when the account has a
    /// channel with that id; the count and every pending message stay as they
    /// are.
    pub fn mark_channel_closed(&mut self, is_mc: bool, account: Uint256, id: u64) -> (found: bool)
        requires
            old(self).wf(),
        ensures
            final(self).wf(),
            found == (exists|j: int|
                0 <= j < spec_account_channels(spec_side(*old(self), is_mc), account).len()
                    && spec_account_channels(spec_side(*old(self), is_mc), account)[j].id == id),
            !found ==> *final(self) == *old(self),
            found ==> ({
                let side0 = spec_side(*old(self), is_mc);
                let side1 = spec_side(*final(self), is_mc);
                let e = spec_account_entry(side0, account);
                let j = spec_entry_channel_index(e, id);
                &&& final(self).count == old(self).count
                &&& final(self).next_token == old(self).next_token
                &&& 0 <= j < e.channels@.len() && e.channels@[j].id == id
                &&& spec_account_channels(side1, account) == e.channels@.update(
                    j,
                    ChannelSlot { id, closed: true },
                )
                &&& forall|a: Uint256|
                    a != account ==> spec_account_channels(side1, a) == spec_account_channels(
                        side0,
                        a,
                    )
                &&& forall|a: Uint256, h: Uint256|
                    spec_has_pending(side1, a, h) == spec_has_pending(side0, a, h)
                &&& forall|a: Uint256, h: Uint256|
                    spec_has_pending(side0, a, h) ==> spec_pending_record(side1, a, h)
                        == spec_pending_record(side0, a, h)
                &&& spec_side(*final(self), !is_mc) == spec_side(*old(self), !is_mc)
                &&& final(self).global_id == old(self).global_id
                &&& final(self).last_mc_block == old(self).last_mc_block
            }),
    {
        proof {
            let side0 = spec_side(*old(self), is_mc);
            assert(spec_map_entries_distinct(side0)) by {
                assert forall|k: int|
                    0 <= k < side0.records@.len() implies spec_entry_keys_distinct(
                    #[trigger] side0.records@[k].1,
                ) by {
                    assert(spec_entry_wf(side0.records@[k].1, old(self).next_token));
                }
            }
        }
        let found = if is_mc {
            self.mc.close_channel_in(account, id)
        } else {
            self.sc.close_channel_in(account, id)
        };
        proof {
            let side0 = spec_side(*old(self), is_mc);
            if spec_map_has_account(side0, account) {
                assert(spec_account_channels(side0, account) == spec_account_entry(
                    side0,
                    account,
                ).channels@);
            } else {
                assert(spec_account_channels(side0, account) =~= Seq::<ChannelSlot>::empty());
            }
        }
        if !found {
            return false;
        }
        proof {
            let side0 = spec_side(*old(self), is_mc);
            let side1 = spec_side(*self, is_mc);
            let nt = old(self).next_token;
            let i = spec_index_of(side0, account);
            assert(0 <= i < side0.records@.len() && side0.records@[i].0 == account);
            lemma_entry_at(side0, i);
            let e = side0.records@[i].1;
            let j = spec_entry_channel_index(e, id);
            assert(0 <= j < e.channels@.len() && e.channels@[j].id == id);
            lemma_map_update_frame(side0, side1, i);
            assert(side1.records@ =~= side0.records@.update(i, side1.records@[i]));
            lemma_total_update(side0.records@, i, side1.records@[i]);
            lemma_entry_channel_close(e, side1.records@[i].1, j, nt);
            assert forall|k: int|
                0 <= k < side1.records@.len() implies spec_entry_wf(
                #[trigger] side1.records@[k].1,
                nt,
            ) by {
                if k != i {
                    assert(side1.records@[k].1 == side0.records@[k].1);
                }
            }
            assert(spec_account_entry(side1, account) == side1.records@[i].1);
            assert(spec_account_channels(side1, account) =~= e.channels@.update(
                j,
                ChannelSlot { id, closed: true },
            ));
            assert forall|a: Uint256|
                a != account implies spec_account_channels(side1, a) == spec_account_channels(
                side0,
                a,
            ) by {
                if spec_map_has_account(side0, a) {
                    assert(spec_account_entry(side1, a) == spec_account_entry(side0, a));
                }
            }
            assert forall|a: Uint256, h: Uint256|
                spec_has_pending(side1, a, h) == spec_has_pending(side0, a, h) && (
            spec_has_pending(side0, a, h) ==> spec_pending_record(side1, a, h)
                == spec_pending_record(side0, a, h)) by {
                if a == account {
                    assert(spec_account_entry(side1, account) == side1.records@[i].1);
                    assert(side1.records@[i].1.pending@ == e.pending@);
                }
            }
            lemma_tickets_unique_pending_preserved(*old(self), *self);
        }
        true
    }

    /// The chain's global id, once one has been learned.
    pub fn cached_global_id(&self) -> (r: Option<i32>)
        ensures
            r == self.global_id,
    {
        self.global_id
    }

    /// Caches the chain's global id. Once learned it never changes: a later
    /// value is ignored.
    pub fn store_global_id(&mut self, id: i32)
        requires
            old(self).wf(),
        ensures
            final(self).wf(),
            final(self).global_id == (match old(self).global_id {
                Some(g) => Some(g),
                None => Some(id),
            }),
            final(self).mc == old(self).mc,
            final(self).sc == old(self).sc,
            final(self).count == old(self).count,
            final(self).next_token == old(self).next_token,
            final(self).last_mc_block == old(self).last_mc_block,
    {
        if self.global_id.is_none() {
            self.global_id = Some(id);
        }
        proof {
            lemma_tickets_unique_pending_preserved(*old(self), *self);
        }
    }

    /// Replaces the cached last masterchain block with a newly processed one
    /// and the shards edge built from the shard blocks that block references:
    /// the edge mentions exactly those shards, each with its top sequence
    /// number, so every shard the block references is covered.
    pub fn store_last_mc_block(&mut self, block: McBlockRef, shard_tops: Vec<(ShardIdent, u32)>)
        requires
            old(self).wf(),
            forall|i: int, j: int|
                0 <= i < j < shard_tops@.len() ==> shard_tops@[i].0 != shard_tops@[j].0,
        ensures
            final(self).wf(),
            final(self).last_mc_block matches Some(c) && c.block == block && c.edge.shards@
                == shard_tops@ && (forall|k: int|
                0 <= k < shard_tops@.len() ==> spec_has_exact(c.edge.shards@, shard_tops@[k].0)),
            final(self).mc == old(self).mc,
            final(self).sc == old(self).sc,
            final(self).count == old(self).count,
            final(self).next_token == old(self).next_token,
            final(self).global_id == old(self).global_id,
    {
        let edge = Edge { shards: shard_tops };
        self.last_mc_block = Some(McBlockCache { block, edge });
        proof {
            lemma_tickets_unique_pending_preserved(*old(self), *self);
        }
    }
}

/// One transaction of an account, as extracted from a processed block:
/// delivered in block order.
#[derive(Clone, Copy, Debug, PartialEq, Eq, Structural)]
pub struct TxRecord {
    pub account: Uint256,
    pub tx_hash: Uint256,
    pub in_msg_hash: Option<Uint256>,
}

/// What the runtime must do after the engine processed one transaction:
/// clone it to each listed broadcast channel, and deliver it down the reply
/// slot of `reply`'s ticket when one matched.
pub struct TxEffects {
    pub broadcast: Vec<u64>,
    pub reply: Option<u64>,
}

/// How many transactions of the batch matched a pending message.
pub open spec fn spec_reply_count(effects: Seq<TxEffects>) -> int
    decreases effects.len(),
{
    if effects.len() == 0 {
        0
    } else {
        spec_reply_count(effects.drop_last()) + if effects.last().reply is Some {
            1int
        } else {
            0int
        }
    }
}

impl AccountMap {
    /// The ids of all broadcast channels of `account`, in order.
    fn channel_ids(&self, account: &Uint256) -> (r: Vec<u64>)
        requires
            spec_keys_unique(*self),
        ensures
            r@.len() == spec_account_channels(*self, *account).len(),
            forall|k: int|
                0 <= k < r@.len() ==> r@[k] == spec_account_channels(*self, *account)[k].id,
    {
        let mut r: Vec<u64> = Vec::new();
        let i = match self.find_index(account) {
            Some(i) => i,
            None => {
                proof {
                    assert(!spec_map_has_account(*self, *account));
                }
                return r;
            },
        };
        proof {
            lemma_entry_at(*self, i as int);
        }
        let n = self.records[i].1.channels.len();
        for k in 0..n
            invariant
                i < self.records@.len(),
                n == self.records@[i as int].1.channels@.len(),
                spec_account_channels(*self, *account) == self.records@[i as int].1.channels@,
                r@.len() == k,
                forall|q: int|
                    0 <= q < k ==> r@[q] == self.records@[i as int].1.channels@[q].id,
        {
            r.push(self.records[i].1.channels[k].id);
        }
        r
    }
}

impl SubscriptionState {
    /// Processes one observed transaction of `tx.account` against one side of
    /// the engine. The transaction is broadcast to every channel of the
    /// account; if its inbound message hash matches a pending message, that
    /// message leaves the map and its ticket is returned for the reply
    /// delivery, shrinking the count by one. Everything else stays as it was.
    pub fn process_tx(&mut self, is_mc: bool, tx: &TxRecord) -> (r: TxEffects)
        requires
            old(self).wf(),
        ensures
            final(self).wf(),
            final(self).next_token == old(self).next_token,
            final(self).global_id == old(self).global_id,
            final(self).last_mc_block == old(self).last_mc_block,
            spec_side(*final(self), !is_mc) == spec_side(*old(self), !is_mc),
            ({
                let side0 = spec_side(*old(self), is_mc);
                let side1 = spec_side(*final(self), is_mc);
                &&& r.broadcast@.len() == spec_account_channels(side0, tx.account).len()
                &&& (forall|k: int|
                    0 <= k < r.broadcast@.len() ==> r.broadcast@[k] == spec_account_channels(
                        side0,
                        tx.account,
                    )[k].id)
                &&& (forall|a: Uint256|
                    spec_account_channels(side1, a) == spec_account_channels(side0, a))
                &&& (if tx.in_msg_hash matches Some(h) && spec_has_pending(side0, tx.account, h) {
                    let h = tx.in_msg_hash->Some_0;
                    &&& r.reply == Some(spec_pending_record(side0, tx.account, h).ticket)
                    &&& !spec_has_pending(side1, tx.account, h)
                    &&& final(self).count == old(self).count - 1
                    &&& (forall|a: Uint256, h2: Uint256|
                        !(a == tx.account && h2 == h) ==> spec_has_pending(side1, a, h2)
                            == spec_has_pending(side0, a, h2))
                    &&& (forall|a: Uint256, h2: Uint256|
                        !(a == tx.account && h2 == h) && spec_has_pending(side0, a, h2)
                            ==> spec_pending_record(side1, a, h2) == spec_pending_record(
                            side0,
                            a,
                            h2,
                        ))
                } else {
                    r.reply is None && *final(self) == *old(self)
                })
            }),
    {
        let broadcast = if is_mc {
            self.mc.channel_ids(&tx.account)
        } else {
            self.sc.channel_ids(&tx.account)
        };
        let h = match tx.in_msg_hash {
            Some(h) => h,
            None => {
                return TxEffects { broadcast, reply: None };
            },
        };
        proof {
            let side0 = spec_side(*old(self), is_mc);
            assert(spec_map_entries_distinct(side0)) by {
                assert forall|k: int|
                    0 <= k < side0.records@.len() implies spec_entry_keys_distinct(
                    #[trigger] side0.records@[k].1,
                ) by {
                    assert(spec_entry_wf(side0.records@[k].1, old(self).next_token));
                }
            }
        }
        let taken = if is_mc {
            self.mc.take_pending_in(tx.account, h, false)
        } else {
            self.sc.take_pending_in(tx.account, h, false)
        };
        let p = match taken {
            Some(p) => p,
            None => {
                return TxEffects { broadcast, reply: None };
            },
        };
        proof {
            let side0 = spec_side(*old(self), is_mc);
            let side1 = spec_side(*self, is_mc);
            let nt = old(self).next_token;
            let i = spec_index_of(side0, tx.account);
            assert(0 <= i < side0.records@.len() && side0.records@[i].0 == tx.account);
            lemma_entry_at(side0, i);
            let e = side0.records@[i].1;
            let j = spec_entry_pending_index(e, h);
            assert(0 <= j < e.pending@.len() && e.pending@[j].msg_hash == h);
            lemma_map_update_frame(side0, side1, i);
            lemma_total_update(side0.records@, i, side1.records@[i]);
            lemma_entry_pending_remove(e, side1.records@[i].1, j, nt);
            assert(side1.records@ =~= side0.records@.update(i, side1.records@[i]));
            assert forall|k: int|
                0 <= k < side1.records@.len() implies spec_entry_wf(
                #[trigger] side1.records@[k].1,
                nt,
            ) by {
                if k != i {
                    assert(side1.records@[k].1 == side0.records@[k].1);
                }
            }
            assert forall|a: Uint256, h2: Uint256|
                !(a == tx.account && h2 == h) implies spec_has_pending(side1, a, h2)
                == spec_has_pending(side0, a, h2) && (spec_has_pending(side0, a, h2)
                ==> spec_pending_record(side1, a, h2) == spec_pending_record(side0, a, h2)) by {
                if a == tx.account {
                    assert(spec_account_entry(side1, a) == side1.records@[i].1);
                }
            }
            assert forall|a: Uint256|
                spec_account_channels(side1, a) == spec_account_channels(side0, a) by {
                if a == tx.account {
                    assert(spec_account_entry(side1, a) == side1.records@[i].1);
                }
            }
            lemma_total_nonneg(side1.records@);
            lemma_total_nonneg(spec_side(*self, !is_mc).records@);
            assert(old(self).count >= 1);
        }
        self.count = self.count - 1;
        proof {
            let side0 = spec_side(*old(self), is_mc);
            let i = spec_index_of(side0, tx.account);
            lemma_entry_at(side0, i);
            let e = side0.records@[i].1;
            let j = spec_entry_pending_index(e, h);
            lemma_tickets_unique_after_element_remove(*old(self), *self, is_mc, i, j);
        }
        TxEffects { broadcast, reply: Some(p.ticket) }
    }
}

/// Whether a transaction is the one account `a` and pending hash `h` wait
/// for: it belongs to that account and carries that inbound message hash.
pub open spec fn spec_touches(tx: TxRecord, a: Uint256, h: Uint256) -> bool {
    tx.account == a && tx.in_msg_hash == Some(h)
}

/// Whether an effect's broadcast list names exactly the given channels, in
/// order.
pub open spec fn spec_broadcast_matches(effect: TxEffects, chans: Seq<ChannelSlot>) -> bool {
    effect.broadcast@.len() == chans.len() && forall|q: int|
        0 <= q < chans.len() ==> effect.broadcast@[q] == chans[q].id
}

impl SubscriptionState {
    /// Processes every transaction of one block, in block order, against one
    /// side of the engine. Each transaction is broadcast to exactly the
    /// channels its account had when the block arrived. A message pending on
    /// arrival that some transaction of the block touches (same account, same
    /// inbound hash) is gone afterwards, and the first transaction touching
    /// it carries its reply ticket; one the block never touches survives with
    /// its record intact. Each match shrinks the count by one; channels are
    /// never changed here.
    pub fn process_block(&mut self, is_mc: bool, txs: &Vec<TxRecord>) -> (effects: Vec<TxEffects>)
        requires
            old(self).wf(),
        ensures
            final(self).wf(),
            effects@.len() == txs@.len(),
            final(self).next_token == old(self).next_token,
            final(self).global_id == old(self).global_id,
            final(self).last_mc_block == old(self).last_mc_block,
            spec_side(*final(self), !is_mc) == spec_side(*old(self), !is_mc),
            final(self).count == old(self).count - spec_reply_count(effects@),
            ({
                let side0 = spec_side(*old(self), is_mc);
                let side1 = spec_side(*final(self), is_mc);
                &&& (forall|a: Uint256|
                    spec_account_channels(side1, a) == spec_account_channels(side0, a))
                &&& (forall|k: int|
                    0 <= k < effects@.len() ==> spec_broadcast_matches(
                        #[trigger] effects@[k],
                        spec_account_channels(side0, txs@[k].account),
                    ))
                &&& (forall|a: Uint256, h: Uint256|
                    spec_has_pending(side1, a, h) ==> spec_has_pending(side0, a, h)
                        && spec_pending_record(side1, a, h) == spec_pending_record(side0, a, h))
                &&& (forall|a: Uint256, h: Uint256|
                    spec_has_pending(side0, a, h) && (forall|k: int|
                        0 <= k < txs@.len() ==> !spec_touches(#[trigger] txs@[k], a, h))
                        ==> spec_has_pending(side1, a, h))
                &&& (forall|a: Uint256, h: Uint256|
                    spec_has_pending(side0, a, h) && (exists|k: int|
                        0 <= k < txs@.len() && spec_touches(#[trigger] txs@[k], a, h))
                        ==> !spec_has_pending(side1, a, h))
                &&& (forall|a: Uint256, h: Uint256, k: int|
                    #![trigger spec_touches(txs@[k], a, h)]
                    spec_has_pending(side0, a, h) && 0 <= k < txs@.len() && spec_touches(
                        txs@[k],
                        a,
                        h,
                    ) && (forall|k2: int| 0 <= k2 < k ==> !spec_touches(#[trigger] txs@[k2], a, h))
                        ==> effects@[k].reply == Some(spec_pending_record(side0, a, h).ticket))
                &&& (forall|k: int|
                    0 <= k < effects@.len() ==> ((#[trigger] effects@[k]).reply matches Some(t)
                        ==> (txs@[k].in_msg_hash matches Some(h) && spec_has_pending(
                        side0,
                        txs@[k].account,
                        h,
                    ) && t == spec_pending_record(side0, txs@[k].account, h).ticket)))
            }),
    {
        let ghost side0 = spec_side(*old(self), is_mc);
        let mut effects: Vec<TxEffects> = Vec::new();
        let n = txs.len();
        for idx in 0..n
            invariant
                n == txs@.len(),
                effects@.len() == idx,
                self.wf(),
                self.next_token == old(self).next_token,
                self.global_id == old(self).global_id,
                self.last_mc_block == old(self).last_mc_block,
                spec_side(*self, !is_mc) == spec_side(*old(self), !is_mc),
                side0 == spec_side(*old(self), is_mc),
                self.count == old(self).count - spec_reply_count(effects@),
                forall|a: Uint256|
                    spec_account_channels(spec_side(*self, is_mc), a) == spec_account_channels(
                        side0,
                        a,
                    ),
                forall|k: int|
                    0 <= k < effects@.len() ==> spec_broadcast_matches(
                        #[trigger] effects@[k],
                        spec_account_channels(side0, txs@[k].account),
                    ),
                forall|a: Uint256, h: Uint256|
                    spec_has_pending(spec_side(*self, is_mc), a, h) ==> spec_has_pending(
                        side0,
                        a,
                        h,
                    ) && spec_pending_record(spec_side(*self, is_mc), a, h) == spec_pending_record(
                        side0,
                        a,
                        h,
                    ),
                forall|a: Uint256, h: Uint256|
                    spec_has_pending(side0, a, h) && (forall|k: int|
                        0 <= k < idx ==> !spec_touches(#[trigger] txs@[k], a, h))
                        ==> spec_has_pending(spec_side(*self, is_mc), a, h),
                forall|a: Uint256, h: Uint256|
                    spec_has_pending(side0, a, h) && (exists|k: int|
                        0 <= k < idx && spec_touches(#[trigger] txs@[k], a, h))
                        ==> !spec_has_pending(spec_side(*self, is_mc), a, h),
                forall|a: Uint256, h: Uint256, k: int|
                    #![trigger spec_touches(txs@[k], a, h)]
                    spec_has_pending(side0, a, h) && 0 <= k < idx && spec_touches(txs@[k], a, h)
                        && (forall|k2: int|
                        0 <= k2 < k ==> !spec_touches(#[trigger] txs@[k2], a, h))
                        ==> effects@[k].reply == Some(spec_pending_record(side0, a, h).ticket),
                forall|k: int|
                    0 <= k < effects@.len() ==> ((#[trigger] effects@[k]).reply matches Some(t)
                        ==> (txs@[k].in_msg_hash matches Some(h) && spec_has_pending(
                        side0,
                        txs@[k].account,
                        h,
                    ) && t == spec_pending_record(side0, txs@[k].account, h).ticket)),
        {
            let ghost pre = *self;
            let ghost effects_pre = effects@;
            let tx = txs[idx];
            let e = self.process_tx(is_mc, &tx);
            effects.push(e);
            proof {
                assert(effects@.drop_last() =~= effects_pre);
                assert(effects@.last() == e);
                let side_pre = spec_side(pre, is_mc);
                let side_now = spec_side(*self, is_mc);
                assert(spec_broadcast_matches(e, spec_account_channels(side0, tx.account))) by {
                    assert(spec_account_channels(side_pre, tx.account) == spec_account_channels(
                        side0,
                        tx.account,
                    ));
                }
                // A message absent before this transaction is still absent.
                assert forall|a: Uint256, h: Uint256|
                    !spec_has_pending(side_pre, a, h) implies !spec_has_pending(
                    side_now,
                    a,
                    h,
                ) by {
                    match tx.in_msg_hash {
                        Some(h2) => {
                            if spec_has_pending(side_pre, tx.account, h2) && !(a == tx.account
                                && h == h2) {
                                assert(spec_has_pending(side_now, a, h) == spec_has_pending(
                                    side_pre,
                                    a,
                                    h,
                                ));
                            }
                        },
                        None => {},
                    }
                }
                // A message this transaction touches is gone afterwards.
                assert forall|a: Uint256, h: Uint256|
                    spec_touches(tx, a, h) implies !spec_has_pending(side_now, a, h) by {
                    if spec_has_pending(side_pre, a, h) {
                        assert(tx.in_msg_hash == Some(h) && tx.account == a);
                        assert(!spec_has_pending(side_now, a, h));
                    }
                }
                // The first touching transaction carries the old ticket.
                assert forall|a: Uint256, h: Uint256|
                    spec_has_pending(side0, a, h) && spec_touches(txs@[idx as int], a, h) && (
                forall|k2: int|
                    0 <= k2 < idx as int ==> !spec_touches(
                        #[trigger] txs@[k2],
                        a,
                        h,
                    )) implies effects@[idx as int].reply == Some(
                    spec_pending_record(side0, a, h).ticket,
                ) by {
                    assert(spec_has_pending(side_pre, a, h));
                    assert(spec_pending_record(side_pre, a, h) == spec_pending_record(
                        side0,
                        a,
                        h,
                    ));
                    assert(e.reply == Some(spec_pending_record(side_pre, a, h).ticket));
                }
            }
        }
        effects
    }
}

/// The pending messages that survive a collection at clock `utime`: those
/// not yet expired, in order.
pub open spec fn spec_live_pending(s: Seq<PendingMessage>, utime: u32) -> Seq<PendingMessage>
    decreases s.len(),
{
    if s.len() == 0 {
        Seq::empty()
    } else {
        let rest = spec_live_pending(s.drop_last(), utime);
        if s.last().expire_at >= utime {
            rest.push(s.last())
        } else {
            rest
        }
    }
}

/// The tickets of the pending messages a collection at clock `utime` drops,
/// in order.
pub open spec fn spec_expired_tickets(s: Seq<PendingMessage>, utime: u32) -> Seq<u64>
    decreases s.len(),
{
    if s.len() == 0 {
        Seq::empty()
    } else {
        let rest = spec_expired_tickets(s.drop_last(), utime);
        if s.last().expire_at < utime {
            rest.push(s.last().ticket)
        } else {
            rest
        }
    }
}

/// The channels that survive a collection: those still open, in order.
pub open spec fn spec_live_channels(s: Seq<ChannelSlot>) -> Seq<ChannelSlot>
    decreases s.len(),
{
    if s.len() == 0 {
        Seq::empty()
    } else {
        let rest = spec_live_channels(s.drop_last());
        if !s.last().closed {
            rest.push(s.last())
        } else {
            rest
        }
    }
}

/// The tickets a collection at clock `utime` drops across a whole map, in
/// record order.
pub open spec fn spec_map_expired(records: Seq<(Uint256, AccountEntry)>, utime: u32) -> Seq<u64>
    decreases records.len(),
{
    if records.len() == 0 {
        Seq::empty()
    } else {
        spec_map_expired(records.drop_last(), utime) + spec_expired_tickets(
            records.last().1.pending@,
            utime,
        )
    }
}

/// What survives filtering: no more than was there, only unexpired messages,
/// and every survivor is one of the originals.
pub proof fn lemma_live_pending_props(s: Seq<PendingMessage>, utime: u32)
    ensures
        spec_live_pending(s, utime).len() <= s.len(),
        forall|j: int|
            0 <= j < spec_live_pending(s, utime).len() ==> spec_live_pending(
                s,
                utime,
            )[j].expire_at >= utime,
        forall|j: int|
            0 <= j < spec_live_pending(s, utime).len() ==> exists|i: int|
                0 <= i < s.len() && #[trigger] spec_live_pending(s, utime)[j] == s[i],
    decreases s.len(),
{
    if s.len() > 0 {
        lemma_live_pending_props(s.drop_last(), utime);
        let rest = spec_live_pending(s.drop_last(), utime);
        assert forall|j: int|
            0 <= j < spec_live_pending(s, utime).len() implies exists|i: int|
            0 <= i < s.len() && #[trigger] spec_live_pending(s, utime)[j] == s[i] by {
            if j < rest.len() {
                let i = choose|i: int| 0 <= i < s.drop_last().len() && rest[j] == s.drop_last()[i];
                assert(spec_live_pending(s, utime)[j] == s[i]);
            } else {
                assert(spec_live_pending(s, utime)[j] == s[s.len() - 1]);
            }
        }
    }
}

/// Filtering keeps pending hashes distinct.
pub proof fn lemma_live_pending_distinct(s: Seq<PendingMessage>, utime: u32)
    requires
        forall|i: int, j: int| 0 <= i < j < s.len() ==> s[i].msg_hash != s[j].msg_hash,
    ensures
        forall|i: int, j: int|
            0 <= i < j < spec_live_pending(s, utime).len() ==> spec_live_pending(
                s,
                utime,
            )[i].msg_hash != spec_live_pending(s, utime)[j].msg_hash,
    decreases s.len(),
{
    if s.len() > 0 {
        lemma_live_pending_distinct(s.drop_last(), utime);
        lemma_live_pending_props(s.drop_last(), utime);
        let rest = spec_live_pending(s.drop_last(), utime);
        assert forall|i: int, j: int|
            0 <= i < j < spec_live_pending(s, utime).len() implies spec_live_pending(
            s,
            utime,
        )[i].msg_hash != spec_live_pending(s, utime)[j].msg_hash by {
            if j == rest.len() && spec_live_pending(s, utime).len() > rest.len() {
                let i0 = choose|i0: int|
                    0 <= i0 < s.drop_last().len() && rest[i] == s.drop_last()[i0];
                assert(s[i0].msg_hash != s[s.len() - 1].msg_hash);
            }
        }
    }
}

/// What survives channel filtering: open channels only, each one of the
/// originals.
pub proof fn lemma_live_channels_props(s: Seq<ChannelSlot>)
    ensures
        spec_live_channels(s).len() <= s.len(),
        forall|j: int| 0 <= j < spec_live_channels(s).len() ==> !spec_live_channels(s)[j].closed,
        forall|j: int|
            0 <= j < spec_live_channels(s).len() ==> exists|i: int|
                0 <= i < s.len() && #[trigger] spec_live_channels(s)[j] == s[i],
    decreases s.len(),
{
    if s.len() > 0 {
        lemma_live_channels_props(s.drop_last());
        let rest = spec_live_channels(s.drop_last());
        assert forall|j: int|
            0 <= j < spec_live_channels(s).len() implies exists|i: int|
            0 <= i < s.len() && #[trigger] spec_live_channels(s)[j] == s[i] by {
            if j < rest.len() {
                let i = choose|i: int| 0 <= i < s.drop_last().len() && rest[j] == s.drop_last()[i];
                assert(spec_live_channels(s)[j] == s[i]);
            } else {
                assert(spec_live_channels(s)[j] == s[s.len() - 1]);
            }
        }
    }
}

/// Filtering keeps channel ids distinct.
pub proof fn lemma_live_channels_distinct(s: Seq<ChannelSlot>)
    requires
        forall|i: int, j: int| 0 <= i < j < s.len() ==> s[i].id != s[j].id,
    ensures
        forall|i: int, j: int|
            0 <= i < j < spec_live_channels(s).len() ==> spec_live_channels(s)[i].id
                != spec_live_channels(s)[j].id,
    decreases s.len(),
{
    if s.len() > 0 {
        lemma_live_channels_distinct(s.drop_last());
        lemma_live_channels_props(s.drop_last());
        let rest = spec_live_channels(s.drop_last());
        assert forall|i: int, j: int|
            0 <= i < j < spec_live_channels(s).len() implies spec_live_channels(s)[i].id
            != spec_live_channels(s)[j].id by {
            if j == rest.len() && spec_live_channels(s).len() > rest.len() {
                let i0 = choose|i0: int|
                    0 <= i0 < s.drop_last().len() && rest[i] == s.drop_last()[i0];
                assert(s[i0].id != s[s.len() - 1].id);
            }
        }
    }
}

/// Filtering keeps pending tickets distinct.
pub proof fn lemma_live_pending_tickets_distinct(s: Seq<PendingMessage>, utime: u32)
    requires
        forall|i: int, j: int| 0 <= i < j < s.len() ==> s[i].ticket != s[j].ticket,
    ensures
        forall|i: int, j: int|
            0 <= i < j < spec_live_pending(s, utime).len() ==> spec_live_pending(
                s,
                utime,
            )[i].ticket != spec_live_pending(s, utime)[j].ticket,
    decreases s.len(),
{
    if s.len() > 0 {
        lemma_live_pending_tickets_distinct(s.drop_last(), utime);
        lemma_live_pending_props(s.drop_last(), utime);
        let rest = spec_live_pending(s.drop_last(), utime);
        assert forall|i: int, j: int|
            0 <= i < j < spec_live_pending(s, utime).len() implies spec_live_pending(
            s,
            utime,
        )[i].ticket != spec_live_pending(s, utime)[j].ticket by {
            if j == rest.len() && spec_live_pending(s, utime).len() > rest.len() {
                let i0 = choose|i0: int|
                    0 <= i0 < s.drop_last().len() && rest[i] == s.drop_last()[i0];
                assert(s[i0].ticket != s[s.len() - 1].ticket);
            }
        }
    }
}

/// Ticket uniqueness survives a collection pass over both maps.
pub proof fn lemma_tickets_unique_after_gc(
    st0: SubscriptionState,
    st1: SubscriptionState,
    utime: u32,
)
    requires
        spec_tickets_unique(st0),
        spec_keys_unique(st0.mc),
        spec_keys_unique(st0.sc),
        spec_keys_unique(st1.mc),
        spec_keys_unique(st1.sc),
        forall|b: bool, i: int|
            0 <= i < spec_side(st0, b).records@.len() ==> spec_gc_fate(
                spec_side(st0, b),
                spec_side(st1, b),
                utime,
                i,
            ),
        forall|b: bool, a: Uint256|
            spec_map_has_account(spec_side(st1, b), a) ==> spec_map_has_account(
                spec_side(st0, b),
                a,
            ),
    ensures
        spec_tickets_unique(st1),
{
    assert forall|b: bool, k: int|
        spec_pos_ok(st1, b, k) implies spec_entry_tickets_distinct(
        #[trigger] spec_entry_at(st1, b, k),
    ) by {
        let m1 = spec_side(st1, b);
        let m0 = spec_side(st0, b);
        let a = m1.records@[k].0;
        lemma_entry_at(m1, k);
        assert(spec_map_has_account(m0, a));
        let i = spec_index_of(m0, a);
        assert(0 <= i < m0.records@.len() && m0.records@[i].0 == a);
        lemma_entry_at(m0, i);
        assert(spec_gc_fate(m0, m1, utime, i));
        let e0 = m0.records@[i].1;
        assert(spec_entry_at(st1, b, k).pending@ == spec_live_pending(e0.pending@, utime));
        assert(spec_entry_tickets_distinct(spec_entry_at(st0, b, i)));
        lemma_live_pending_tickets_distinct(e0.pending@, utime);
    }
    assert forall|b1: bool, k1: int, b2: bool, k2: int|
        spec_pos_ok(st1, b1, k1) && spec_pos_ok(st1, b2, k2) && !(b1 == b2 && k1 == k2)
        implies spec_entries_tickets_disjoint(
        #[trigger] spec_entry_at(st1, b1, k1),
        #[trigger] spec_entry_at(st1, b2, k2),
    ) by {
        let n1 = spec_side(st1, b1);
        let n2 = spec_side(st1, b2);
        let o1 = spec_side(st0, b1);
        let o2 = spec_side(st0, b2);
        let a1 = n1.records@[k1].0;
        let a2 = n2.records@[k2].0;
        lemma_entry_at(n1, k1);
        lemma_entry_at(n2, k2);
        let i1 = spec_index_of(o1, a1);
        let i2 = spec_index_of(o2, a2);
        assert(0 <= i1 < o1.records@.len() && o1.records@[i1].0 == a1);
        assert(0 <= i2 < o2.records@.len() && o2.records@[i2].0 == a2);
        lemma_entry_at(o1, i1);
        lemma_entry_at(o2, i2);
        assert(spec_gc_fate(o1, n1, utime, i1));
        assert(spec_gc_fate(o2, n2, utime, i2));
        let e1 = o1.records@[i1].1;
        let e2 = o2.records@[i2].1;
        assert(!(b1 == b2 && i1 == i2)) by {
            if b1 == b2 {
                assert(a1 != a2);
            }
        }
        assert(spec_entries_tickets_disjoint(
            spec_entry_at(st0, b1, i1),
            spec_entry_at(st0, b2, i2),
        ));
        lemma_live_pending_props(e1.pending@, utime);
        lemma_live_pending_props(e2.pending@, utime);
        let p1 = spec_entry_at(st1, b1, k1).pending@;
        let p2 = spec_entry_at(st1, b2, k2).pending@;
        assert(p1 == spec_live_pending(e1.pending@, utime));
        assert(p2 == spec_live_pending(e2.pending@, utime));
        assert forall|p: int, q: int|
            0 <= p < p1.len() && 0 <= q < p2.len() implies p1[p].ticket != p2[q].ticket by {
            let s1 = choose|s1: int| 0 <= s1 < e1.pending@.len() && p1[p] == e1.pending@[s1];
            let s2 = choose|s2: int| 0 <= s2 < e2.pending@.len() && p2[q] == e2.pending@[s2];
            assert(e1.pending@[s1].ticket != e2.pending@[s2].ticket);
        }
    }
}

/// A prefix never outweighs the whole map.
pub proof fn lemma_total_take_le(records: Seq<(Uint256, AccountEntry)>, i: int)
    requires
        0 <= i <= records.len(),
    ensures
        spec_map_total(records.take(i)) <= spec_map_total(records),
    decreases records.len() - i,
{
    if i == records.len() {
        assert(records.take(i) =~= records);
    } else {
        lemma_total_take_le(records, i + 1);
        assert(records.take(i + 1).drop_last() =~= records.take(i));
        assert(records.take(i + 1).last() == records[i]);
    }
}

/// What a collection does to one account of the map: an entry left with
/// nothing disappears; any other keeps exactly its unexpired messages and
/// open channels, in order.
pub open spec fn spec_gc_fate(m0: AccountMap, m1: AccountMap, utime: u32, i: int) -> bool {
    let a = m0.records@[i].0;
    let e = m0.records@[i].1;
    let kp = spec_live_pending(e.pending@, utime);
    let kc = spec_live_channels(e.channels@);
    if kp.len() + kc.len() == 0 {
        !spec_map_has_account(m1, a)
    } else {
        &&& spec_map_has_account(m1, a)
        &&& spec_account_entry(m1, a).pending@ == kp
        &&& spec_account_entry(m1, a).channels@ == kc
    }
}

impl AccountMap {
    /// One collection pass over this map: drops expired pending messages
    /// (appending their tickets to `dropped`) and closed channels, removes
    /// entries left empty, and returns the weight of what is left.
    fn gc(&mut self, utime: u32, dropped: &mut Vec<u64>, Ghost(nt): Ghost<u64>) -> (kept: u64)
        requires
            spec_keys_unique(*old(self)),
            forall|k: int|
                0 <= k < old(self).records@.len() ==> spec_entry_wf(
                    #[trigger] old(self).records@[k].1,
                    nt,
                ),
            spec_map_total(old(self).records@) <= u64::MAX,
        ensures
            spec_keys_unique(*final(self)),
            forall|k: int|
                0 <= k < final(self).records@.len() ==> spec_entry_wf(
                    #[trigger] final(self).records@[k].1,
                    nt,
                ),
            kept == spec_map_total(final(self).records@),
            kept <= spec_map_total(old(self).records@),
            forall|i: int|
                0 <= i < old(self).records@.len() ==> spec_gc_fate(
                    *old(self),
                    *final(self),
                    utime,
                    i,
                ),
            forall|a: Uint256|
                spec_map_has_account(*final(self), a) ==> spec_map_has_account(*old(self), a),
            final(dropped)@ == old(dropped)@ + spec_map_expired(old(self).records@, utime),
    {
        let ghost dropped0 = dropped@;
        let mut new_records: Vec<(Uint256, AccountEntry)> = Vec::new();
        let mut kept: u64 = 0;
        let n = self.records.len();
        for i in 0..n
            invariant
                *self == *old(self),
                n == self.records@.len(),
                spec_keys_unique(*old(self)),
                forall|k: int|
                    0 <= k < old(self).records@.len() ==> spec_entry_wf(
                        #[trigger] old(self).records@[k].1,
                        nt,
                    ),
                spec_map_total(old(self).records@) <= u64::MAX,
                spec_keys_unique(AccountMap { records: new_records }),
                forall|q: int|
                    0 <= q < new_records@.len() ==> spec_entry_wf(
                        #[trigger] new_records@[q].1,
                        nt,
                    ),
                forall|q: int|
                    0 <= q < new_records@.len() ==> exists|p: int|
                        0 <= p < i && (#[trigger] new_records@[q].0) == old(self).records@[p].0,
                kept == spec_map_total(new_records@),
                spec_map_total(new_records@) <= spec_map_total(old(self).records@.take(i as int)),
                forall|p: int|
                    0 <= p < i ==> spec_gc_fate(
                        *old(self),
                        AccountMap { records: new_records },
                        utime,
                        p,
                    ),
                dropped@ == dropped0 + spec_map_expired(
                    old(self).records@.take(i as int),
                    utime,
                ),
        {
            let ghost m_pre = AccountMap { records: new_records };
            let ghost dropped_pre = dropped@;
            let account = self.records[i].0;
            let ghost e = self.records@[i as int].1;

            let mut live_p: Vec<PendingMessage> = Vec::new();
            let pn = self.records[i].1.pending.len();
            for j in 0..pn
                invariant
                    *self == *old(self),
                    i < self.records@.len(),
                    e == self.records@[i as int].1,
                    pn == e.pending@.len(),
                    live_p@ == spec_live_pending(e.pending@.take(j as int), utime),
                    dropped@ == dropped_pre + spec_expired_tickets(
                        e.pending@.take(j as int),
                        utime,
                    ),
            {
                let msg = self.records[i].1.pending[j];
                proof {
                    assert(e.pending@.take(j as int + 1).drop_last() =~= e.pending@.take(
                        j as int,
                    ));
                    assert(e.pending@.take(j as int + 1).last() == e.pending@[j as int]);
                }
                if msg.expire_at >= utime {
                    live_p.push(msg);
                } else {
                    dropped.push(msg.ticket);
                }
            }
            proof {
                assert(e.pending@.take(pn as int) =~= e.pending@);
            }

            let mut live_c: Vec<ChannelSlot> = Vec::new();
            let cn = self.records[i].1.channels.len();
            for j in 0..cn
                invariant
                    *self == *old(self),
                    i < self.records@.len(),
                    e == self.records@[i as int].1,
                    cn == e.channels@.len(),
                    live_c@ == spec_live_channels(e.channels@.take(j as int)),
            {
                let slot = self.records[i].1.channels[j];
                proof {
                    assert(e.channels@.take(j as int + 1).drop_last() =~= e.channels@.take(
                        j as int,
                    ));
                    assert(e.channels@.take(j as int + 1).last() == e.channels@[j as int]);
                }
                if !slot.closed {
                    live_c.push(slot);
                }
            }
            proof {
                assert(e.channels@.take(cn as int) =~= e.channels@);
                assert(old(self).records@.take(i as int + 1).drop_last() =~= old(
                    self,
                ).records@.take(i as int));
                assert(old(self).records@.take(i as int + 1).last() == old(
                    self,
                ).records@[i as int]);
                lemma_live_pending_props(e.pending@, utime);
                lemma_live_channels_props(e.channels@);
                lemma_total_take_le(old(self).records@, i as int + 1);
            }

            if live_p.len() == 0 && live_c.len() == 0 {
                proof {
                    assert forall|p: int|
                        0 <= p < i as int + 1 implies spec_gc_fate(
                        *old(self),
                        AccountMap { records: new_records },
                        utime,
                        p,
                    ) by {
                        if p == i as int {
                            assert(!spec_map_has_account(
                                AccountMap { records: new_records },
                                account,
                            )) by {
                                if spec_map_has_account(
                                    AccountMap { records: new_records },
                                    account,
                                ) {
                                    let q = spec_index_of(
                                        AccountMap { records: new_records },
                                        account,
                                    );
                                    let p0 = choose|p0: int|
                                        0 <= p0 < i && new_records@[q].0 == old(
                                            self,
                                        ).records@[p0].0;
                                }
                            }
                        }
                    }
                }
            } else {
                let w = live_p.len() as u64;
                let w2 = live_c.len() as u64;
                proof {
                    assert(!spec_map_has_account(m_pre, account)) by {
                        if spec_map_has_account(m_pre, account) {
                            let q = spec_index_of(m_pre, account);
                            let p0 = choose|p0: int|
                                0 <= p0 < i && m_pre.records@[q].0 == old(self).records@[p0].0;
                        }
                    }
                }
                let entry = AccountEntry { pending: live_p, channels: live_c };
                new_records.push((account, entry));
                kept = kept + w;
                kept = kept + w2;
                proof {
                    let m_post = AccountMap { records: new_records };
                    lemma_map_push_frame(m_pre, m_post, account);
                    lemma_total_push(m_pre.records@, new_records@.last());
                    lemma_live_pending_distinct(e.pending@, utime);
                    lemma_live_channels_distinct(e.channels@);
                    assert(spec_entry_wf(new_records@.last().1, nt)) by {
                        let e1 = new_records@.last().1;
                        assert forall|q: int|
                            0 <= q < e1.pending@.len() implies e1.pending@[q].ticket < nt by {
                            let i0 = choose|i0: int|
                                0 <= i0 < e.pending@.len() && e1.pending@[q] == e.pending@[i0];
                        }
                        assert forall|q: int|
                            0 <= q < e1.channels@.len() implies e1.channels@[q].id < nt by {
                            let i0 = choose|i0: int|
                                0 <= i0 < e.channels@.len() && e1.channels@[q] == e.channels@[i0];
                        }
                    }
                    assert forall|p: int|
                        0 <= p < i as int + 1 implies spec_gc_fate(
                        *old(self),
                        AccountMap { records: new_records },
                        utime,
                        p,
                    ) by {
                        if p < i as int {
                            assert(spec_gc_fate(*old(self), m_pre, utime, p));
                            let a_p = old(self).records@[p].0;
                            assert(a_p != account);
                        } else {
                            assert(spec_account_entry(m_post, account) == new_records@.last().1);
                        }
                    }
                }
            }
        }
        proof {
            assert(old(self).records@.take(n as int) =~= old(self).records@);
        }
        self.records = new_records;
        kept
    }
}

impl SubscriptionState {
    /// One garbage-collection pass at clock `utime`, the generation time of
    /// the masterchain block just processed: every pending message that
    /// expired before the clock leaves the maps — their tickets are returned
    /// so each waiting sender can be told — every closed channel leaves, and
    /// accounts left empty are dropped. Surviving entries are exactly the
    /// unexpired messages and open channels each account had, in order.
    pub fn collect_garbage(&mut self, utime: u32) -> (expired: Vec<u64>)
        requires
            old(self).wf(),
        ensures
            final(self).wf(),
            final(self).next_token == old(self).next_token,
            final(self).global_id == old(self).global_id,
            final(self).last_mc_block == old(self).last_mc_block,
            forall|is_mc: bool, i: int|
                0 <= i < spec_side(*old(self), is_mc).records@.len() ==> spec_gc_fate(
                    spec_side(*old(self), is_mc),
                    spec_side(*final(self), is_mc),
                    utime,
                    i,
                ),
            forall|is_mc: bool, a: Uint256|
                spec_map_has_account(spec_side(*final(self), is_mc), a) ==> spec_map_has_account(
                    spec_side(*old(self), is_mc),
                    a,
                ),
            forall|is_mc: bool, a: Uint256, h: Uint256|
                spec_has_pending(spec_side(*final(self), is_mc), a, h) ==> spec_pending_record(
                    spec_side(*final(self), is_mc),
                    a,
                    h,
                ).expire_at >= utime,
            expired@ == spec_map_expired(old(self).mc.records@, utime) + spec_map_expired(
                old(self).sc.records@,
                utime,
            ),
    {
        let mut expired: Vec<u64> = Vec::new();
        proof {
            lemma_total_nonneg(old(self).mc.records@);
            lemma_total_nonneg(old(self).sc.records@);
        }
        let kept_mc = self.mc.gc(utime, &mut expired, Ghost(self.next_token));
        let kept_sc = self.sc.gc(utime, &mut expired, Ghost(self.next_token));
        self.count = kept_mc + kept_sc;
        proof {
            assert(expired@ =~= spec_map_expired(old(self).mc.records@, utime)
                + spec_map_expired(old(self).sc.records@, utime));
            assert forall|b: bool, i: int|
                0 <= i < spec_side(*old(self), b).records@.len() implies spec_gc_fate(
                spec_side(*old(self), b),
                spec_side(*self, b),
                utime,
                i,
            ) by {}
            assert forall|b: bool, a: Uint256|
                spec_map_has_account(spec_side(*self, b), a) implies spec_map_has_account(
                spec_side(*old(self), b),
                a,
            ) by {}
            lemma_tickets_unique_after_gc(*old(self), *self, utime);
            assert forall|is_mc: bool, a: Uint256, h: Uint256|
                spec_has_pending(spec_side(*self, is_mc), a, h) implies spec_pending_record(
                spec_side(*self, is_mc),
                a,
                h,
            ).expire_at >= utime by {
                let m0 = spec_side(*old(self), is_mc);
                let m1 = spec_side(*self, is_mc);
                let i = spec_index_of(m0, a);
                assert(spec_map_has_account(m0, a));
                assert(0 <= i < m0.records@.len() && m0.records@[i].0 == a);
                assert(spec_gc_fate(m0, m1, utime, i));
                let e = m0.records@[i].1;
                lemma_live_pending_props(e.pending@, utime);
                let e1 = spec_account_entry(m1, a);
                let j = spec_entry_pending_index(e1, h);
                assert(0 <= j < e1.pending@.len() && e1.pending@[j].msg_hash == h);
            }
        }
        expired
    }
}

/// Whether the chain's capabilities require messages to be signed with the
/// network's signature id: capability bit `0x04000000`.
pub fn requires_signature_id(capabilities: u64) -> (r: bool)
    ensures
        r == (capabilities & 0x4000000 != 0),
{
    capabilities & 0x4000000 != 0
}

/// The signature id to sign with: the chain's global id when the capability
/// bit asks for it, nothing otherwise.
pub fn signature_id_with(capabilities: u64, global_id: i32) -> (r: Option<i32>)
    ensures
        r == (if capabilities & 0x4000000 != 0 {
            Some(global_id)
        } else {
            None::<i32>
        }),
{
    if requires_signature_id(capabilities) {
        Some(global_id)
    } else {
        None
    }
}

/// The subscription count always equals the number of pending messages plus
/// the number of channels, summed over both maps: the counter the walker
/// polls never drifts from the maps it guards.
pub proof fn lemma_count_is_total(st: SubscriptionState)
    requires
        st.wf(),
    ensures
        st.count == spec_map_total(st.mc.records@) + spec_map_total(st.sc.records@),
{
}

/// Every ticket held by a pending message was issued before the next token:
/// a ticket the counter has not reached yet — in particular the one a
/// successful registration returns — belongs to no other pending message.
pub proof fn lemma_ticket_fresh(st: SubscriptionState, is_mc: bool, a: Uint256, h: Uint256, t: u64)
    requires
        st.wf(),
        t >= st.next_token,
        spec_has_pending(spec_side(st, is_mc), a, h),
    ensures
        spec_pending_record(spec_side(st, is_mc), a, h).ticket < st.next_token,
        spec_pending_record(spec_side(st, is_mc), a, h).ticket != t,
{
    let m = spec_side(st, is_mc);
    let i = spec_index_of(m, a);
    assert(0 <= i < m.records@.len() && m.records@[i].0 == a);
    assert(spec_entry_wf(m.records@[i].1, st.next_token));
    let e = spec_account_entry(m, a);
    let j = spec_entry_pending_index(e, h);
    assert(0 <= j < e.pending@.len() && e.pending@[j].msg_hash == h);
}

/// Two distinct pending messages never share a reply ticket, anywhere in the
/// engine: every waiting sender holds a slot of its own, so at most one
/// sender awaits any pending message.
pub proof fn lemma_one_sender_per_ticket(
    st: SubscriptionState,
    b1: bool,
    i1: int,
    j1: int,
    b2: bool,
    i2: int,
    j2: int,
)
    requires
        st.wf(),
        spec_pos_ok(st, b1, i1),
        0 <= j1 < spec_entry_at(st, b1, i1).pending@.len(),
        spec_pos_ok(st, b2, i2),
        0 <= j2 < spec_entry_at(st, b2, i2).pending@.len(),
        !(b1 == b2 && i1 == i2 && j1 == j2),
    ensures
        spec_entry_at(st, b1, i1).pending@[j1].ticket != spec_entry_at(st, b2, i2).pending@[j2].ticket,
{
    if b1 == b2 && i1 == i2 {
        assert(spec_entry_tickets_distinct(spec_entry_at(st, b1, i1)));
    } else {
        assert(spec_entries_tickets_disjoint(
            spec_entry_at(st, b1, i1),
            spec_entry_at(st, b2, i2),
        ));
    }
}

/// Each account keys its pending messages by distinct hashes: at most one
/// pending message — hence at most one waiting sender — exists per
/// (account, message hash) pair.
pub proof fn lemma_at_most_one_pending(
    st: SubscriptionState,
    is_mc: bool,
    a: Uint256,
    j1: int,
    j2: int,
)
    requires
        st.wf(),
        spec_map_has_account(spec_side(st, is_mc), a),
        0 <= j1 < j2 < spec_account_entry(spec_side(st, is_mc), a).pending@.len(),
    ensures
        spec_account_entry(spec_side(st, is_mc), a).pending@[j1].msg_hash != spec_account_entry(
            spec_side(st, is_mc),
            a,
        ).pending@[j2].msg_hash,
{
    let m = spec_side(st, is_mc);
    let i = spec_index_of(m, a);
    assert(0 <= i < m.records@.len() && m.records@[i].0 == a);
    assert(spec_entry_wf(m.records@[i].1, st.next_token));
}

} // verus!
