//! Laws of the record store, stated over histories of store operations.
//!
//! The store's methods say what one call does to the records. The laws here
//! say what follows for every sequence of calls. A history is replayed on
//! the model that the methods' contracts use: the map from live handles to
//! records, with the lowest free handle handed out on each insertion.

use crate::store::{
    is_listing, is_lowest_free, lemma_lowest_free_unique, lowest_free, RecordHandle, UserData,
};
use vstd::prelude::*;

verus! {

/// One call of a method that changes the store.
pub enum StoreOp {
    Insert(UserData),
    Update(RecordHandle, UserData),
    Remove(RecordHandle),
}

/// The records after `op`, as the contract of the method states them.
pub open spec fn step(
    records: Map<RecordHandle, UserData>,
    op: StoreOp,
) -> Map<RecordHandle, UserData> {
    match op {
        StoreOp::Insert(record) => records.insert(lowest_free(records.dom()), record),
        StoreOp::Update(handle, record) => if records.contains_key(handle) {
            records.insert(handle, record)
        } else {
            records
        },
        StoreOp::Remove(handle) => records.remove(handle),
    }
}

/// The records of a store that was created empty and has seen `ops`.
pub open spec fn replay(ops: Seq<StoreOp>) -> Map<RecordHandle, UserData>
    decreases ops.len(),
{
    if ops.len() == 0 {
        Map::empty()
    } else {
        step(replay(ops.drop_last()), ops.last())
    }
}

/// Whether the last call of the non-empty history `ops` is an insertion
/// that returns `handle`.
pub open spec fn issues(ops: Seq<StoreOp>, handle: RecordHandle) -> bool {
    ops.last() is Insert && lowest_free(replay(ops.drop_last()).dom()) == handle
}

/// Whether the last call of the non-empty history `ops` is a removal of
/// `handle` that returns `true`.
pub open spec fn releases(ops: Seq<StoreOp>, handle: RecordHandle) -> bool {
    ops.last() == StoreOp::Remove(handle) && replay(ops.drop_last()).contains_key(handle)
}

/// How often an insertion in `ops` has returned `handle`.
pub open spec fn issued(ops: Seq<StoreOp>, handle: RecordHandle) -> nat
    decreases ops.len(),
{
    if ops.len() == 0 {
        0
    } else if issues(ops, handle) {
        issued(ops.drop_last(), handle) + 1
    } else {
        issued(ops.drop_last(), handle)
    }
}

/// How often a removal of `handle` in `ops` has returned `true`.
pub open spec fn released(ops: Seq<StoreOp>, handle: RecordHandle) -> nat
    decreases ops.len(),
{
    if ops.len() == 0 {
        0
    } else if releases(ops, handle) {
        released(ops.drop_last(), handle) + 1
    } else {
        released(ops.drop_last(), handle)
    }
}

/// Among the handles up to `bound`, one of which is free, there is a lowest
/// free one.
pub proof fn lemma_lowest_free_exists(live: Set<RecordHandle>, bound: RecordHandle)
    requires
        !live.contains(bound),
    ensures
        is_lowest_free(live, lowest_free(live)),
        lowest_free(live) <= bound,
    decreases bound,
{
    if forall|k: RecordHandle| k < bound ==> live.contains(k) {
        lemma_lowest_free_unique(live, bound);
    } else {
        let lower = choose|k: RecordHandle| k < bound && !live.contains(k);
        lemma_lowest_free_exists(live, lower);
    }
}

/// A store that has seen `n` calls holds finitely many records, all under
/// handles below `n`.
proof fn lemma_replay_bounded(ops: Seq<StoreOp>)
    requires
        ops.len() <= usize::MAX,
    ensures
        replay(ops).dom().finite(),
        forall|h: RecordHandle| replay(ops).contains_key(h) ==> h < ops.len(),
        ops.len() > 0 ==> is_lowest_free(
            replay(ops.drop_last()).dom(),
            lowest_free(replay(ops.drop_last()).dom()),
        ),
    decreases ops.len(),
{
    if ops.len() > 0 {
        let before = ops.drop_last();
        lemma_replay_bounded(before);
        let bound = before.len() as usize;
        lemma_lowest_free_exists(replay(before).dom(), bound);
    }
}

/// The live handles are the handles handed out and not yet given back.
///
/// After any history of calls on a store that was created empty, a handle
/// is live exactly if insertions have returned it once more often than
/// removals have released it; every other handle has been released as often
/// as it was returned. So a listing of the live handles holds exactly the
/// handles that `insert` returned and no successful `remove` took since.
/// For a handle that was returned at most once, this is to say that it is
/// live exactly if it was returned and never released.
pub proof fn law_live_handles(ops: Seq<StoreOp>, handle: RecordHandle)
    requires
        ops.len() <= usize::MAX,
    ensures
        replay(ops).contains_key(handle) ==> issued(ops, handle) == released(ops, handle) + 1,
        !replay(ops).contains_key(handle) ==> issued(ops, handle) == released(ops, handle),
        forall|handles: Seq<RecordHandle>|
            is_listing(handles, replay(ops).dom()) ==> (handles.contains(handle) <==> issued(
                ops,
                handle,
            ) == released(ops, handle) + 1),
        issued(ops, handle) <= 1 ==> (replay(ops).contains_key(handle) <==> issued(ops, handle)
            == 1 && released(ops, handle) == 0),
    decreases ops.len(),
{
    if ops.len() > 0 {
        law_live_handles(ops.drop_last(), handle);
        lemma_replay_bounded(ops);
    }
}

/// A burst of insertions returns no handle twice and loses no record.
///
/// The store admits one call at a time, so however many callers insert at
/// once, what the store sees is some sequence of insertions after its
/// history so far. Whatever that history was, no handle is returned twice
/// during the burst, every handle returned is live at its end, and the
/// store has grown by one record for each insertion.
pub proof fn law_insertions_distinct(history: Seq<StoreOp>, burst: Seq<StoreOp>)
    requires
        forall|i: int| 0 <= i < burst.len() ==> burst[i] is Insert,
        history.len() + burst.len() <= usize::MAX,
    ensures
        forall|h: RecordHandle|
            issued(history + burst, h) == issued(history, h) || (issued(history + burst, h)
                == issued(history, h) + 1 && replay(history + burst).contains_key(h)),
        forall|h: RecordHandle|
            replay(history).contains_key(h) ==> replay(history + burst).contains_key(h),
        replay(history + burst).dom().len() == replay(history).dom().len() + burst.len(),
    decreases burst.len(),
{
    if burst.len() > 0 {
        let ops = history + burst;
        assert(ops.drop_last() =~= history + burst.drop_last());
        law_insertions_distinct(history, burst.drop_last());
        lemma_replay_bounded(ops);
        lemma_replay_bounded(ops.drop_last());
        lemma_replay_bounded(history);
        assert forall|h: RecordHandle|
            issued(ops, h) == issued(history, h) || (issued(ops, h) == issued(history, h) + 1
                && replay(ops).contains_key(h)) by {}
    }
}

/// A handle that was just freed can be handed out again, and a new handle
/// never collides with a live one.
///
/// Let an insertion return `first`, let a removal of the live handle
/// `gone` succeed next, and let the next insertion return `second`. Then
/// `second` is not live at that point, it is no higher than `gone`, and it
/// is `first` again where `gone` was `first`.
pub proof fn law_handle_reuse(
    records: Map<RecordHandle, UserData>,
    record: UserData,
    first: RecordHandle,
    gone: RecordHandle,
    second: RecordHandle,
)
    requires
        is_lowest_free(records.dom(), first),
        records.insert(first, record).contains_key(gone),
        is_lowest_free(records.insert(first, record).remove(gone).dom(), second),
    ensures
        !records.insert(first, record).remove(gone).contains_key(second),
        second <= gone,
        gone == first ==> second == first,
{
    let after = records.insert(first, record).remove(gone);
    if gone < second {
        assert(after.dom().contains(gone));
    }
}

/// Removing twice is removing once.
///
/// Once `handle` has been removed, it is not live, so a second removal
/// returns `false`; and the second removal leaves the records as the first
/// left them.
pub proof fn law_remove_idempotent(records: Map<RecordHandle, UserData>, handle: RecordHandle)
    ensures
        !records.remove(handle).contains_key(handle),
        records.remove(handle).remove(handle) == records.remove(handle),
{
}

} // verus!
