//! The record store: user records under compact, reusable handles.
//!
//! Records live in a `slab::Slab`. A slab reuses released keys in the order
//! of a stack, most recent first. The store hands out the *lowest* free
//! handle instead, so it keeps that stack sorted: `insert` then only has to
//! pop it, and `remove` puts the released key in its place, at a cost that
//! grows with the number of free handles below the one removed.

use crate::slots::{
    slab_contains, slab_entries, slab_get, slab_get_mut, slab_insert, slab_keys, slab_new,
    slab_remove, slab_vacant, slab_vacant_key,
};
use slab::Slab;
use vstd::prelude::*;
use vstd::slice::slice_to_vec;
use vstd::string::StringSliceAdditionalSpecFns;

verus! {

/// The identifier of a stored record: unique among the live records, and
/// free for reuse once its record is removed.
pub type RecordHandle = usize;

/// A stored user. The record carries no fields of its own yet: all that is
/// observable is that it exists and how it is rendered.
#[derive(Clone, Copy, Debug, PartialEq, Eq, Structural)]
pub struct UserData;

impl UserData {
    /// How every record is rendered: as the text `{}`.
    pub open spec fn rendered() -> Seq<u8> {
        "{}".spec_bytes()
    }

    /// The record as text.
    pub fn text(&self) -> (text: Vec<u8>)
        ensures
            text@ == Self::rendered(),
    {
        slice_to_vec("{}".as_bytes())
    }
}

/// `h` is the lowest handle that is not in `live`.
pub open spec fn is_lowest_free(live: Set<RecordHandle>, h: RecordHandle) -> bool {
    &&& !live.contains(h)
    &&& forall|k: RecordHandle| k < h ==> live.contains(k)
}

/// `hs` lists exactly the handles in `live`, each once, in ascending order.
pub open spec fn is_listing(hs: Seq<RecordHandle>, live: Set<RecordHandle>) -> bool {
    &&& forall|i: int, j: int| 0 <= i < j < hs.len() ==> hs[i] < hs[j]
    &&& forall|k: RecordHandle| hs.contains(k) <==> live.contains(k)
}

/// The lowest handle that is not in `live`, where there is one.
pub open spec fn lowest_free(live: Set<RecordHandle>) -> RecordHandle {
    choose|h: RecordHandle| is_lowest_free(live, h)
}

/// The handles in `live` in ascending order, where `live` is finite.
pub open spec fn listing(live: Set<RecordHandle>) -> Seq<RecordHandle> {
    choose|hs: Seq<RecordHandle>| is_listing(hs, live)
}

/// At most one handle is the lowest free one.
pub proof fn lemma_lowest_free_unique(live: Set<RecordHandle>, h: RecordHandle)
    requires
        is_lowest_free(live, h),
    ensures
        lowest_free(live) == h,
{
    assert(is_lowest_free(live, lowest_free(live)));
}

/// A set of handles has at most one listing.
pub proof fn lemma_listing_unique(
    a: Seq<RecordHandle>,
    b: Seq<RecordHandle>,
    live: Set<RecordHandle>,
)
    requires
        is_listing(a, live),
        is_listing(b, live),
    ensures
        a == b,
    decreases a.len(),
{
    if a.len() == 0 {
        if b.len() > 0 {
            assert(a.contains(b[0]));
        }
    } else {
        let top = a.last();
        assert(b.contains(top));
        let at = choose|i: int| 0 <= i < b.len() && b[i] == top;
        assert(at == b.len() - 1) by {
            if at < b.len() - 1 {
                assert(a.contains(b.last()));
            }
        }
        let rest = live.remove(top);
        assert forall|k: RecordHandle| a.drop_last().contains(k) <==> rest.contains(k) by {
            if rest.contains(k) {
                let i = choose|i: int| 0 <= i < a.len() && a[i] == k;
                assert(a.drop_last()[i] == k);
            }
        }
        assert forall|k: RecordHandle| b.drop_last().contains(k) <==> rest.contains(k) by {
            if rest.contains(k) {
                let i = choose|i: int| 0 <= i < b.len() && b[i] == k;
                assert(b.drop_last()[i] == k);
            }
        }
        lemma_listing_unique(a.drop_last(), b.drop_last(), rest);
        assert(b =~= b.drop_last().push(top));
    }
}

/// The released keys `vacant` are in ascending order, none of them is in
/// `live`, and together with `live` they are exactly the keys below
/// `live.len() + vacant.len()`.
spec fn tidy(live: Set<usize>, vacant: Seq<usize>) -> bool {
    &&& live.finite()
    &&& forall|i: int, j: int| 0 <= i < j < vacant.len() ==> vacant[i] < vacant[j]
    &&& forall|i: int| 0 <= i < vacant.len() ==> !live.contains(#[trigger] vacant[i])
    &&& forall|k: usize|
        k < live.len() + vacant.len() <==> (#[trigger] live.contains(k) || vacant.contains(k))
}

/// The user records, each under its handle.
pub struct Store {
    slab: Slab<UserData>,
}

impl View for Store {
    type V = Map<RecordHandle, UserData>;

    /// The live records by handle.
    closed spec fn view(&self) -> Map<RecordHandle, UserData> {
        slab_entries(self.slab)
    }
}

impl Store {
    #[verifier::type_invariant]
    spec fn well_formed(self) -> bool {
        tidy(slab_entries(self.slab).dom(), slab_vacant(self.slab))
    }

    /// An empty store.
    pub fn new() -> (store: Self)
        ensures
            store@ == (Map::<RecordHandle, UserData>::empty()),
            store@.dom().finite(),
    {
        let slab = slab_new();
        Store { slab }
    }

    /// The record under `handle`, if it is live.
    pub fn get(&self, handle: RecordHandle) -> (found: Option<&UserData>)
        ensures
            found == if self@.contains_key(handle) {
                Some(&self@[handle])
            } else {
                None
            },
    {
        slab_get(&self.slab, handle)
    }

    /// Stores `record` under the lowest handle that is free, and returns
    /// that handle. Every other record stays as it is.
    pub fn insert(&mut self, record: UserData) -> (handle: RecordHandle)
        ensures
            is_lowest_free(old(self)@.dom(), handle),
            handle == lowest_free(old(self)@.dom()),
            final(self)@ == old(self)@.insert(handle, record),
            final(self)@.dom().finite(),
    {
        proof {
            use_type_invariant(&*self);
        }
        // The slab is taken out of the store while it is worked on, so that
        // the store is well-formed at every point.
        let mut slab = slab_new();
        std::mem::swap(&mut slab, &mut self.slab);
        let handle = claim(&mut slab, record);
        self.slab = slab;
        proof {
            lemma_lowest_free_unique(old(self)@.dom(), handle);
        }
        handle
    }

    /// Replaces the record under `handle` by `record` if the handle is live,
    /// and says whether it was. A handle that is not live stays so.
    pub fn update(&mut self, handle: RecordHandle, record: UserData) -> (was_live: bool)
        ensures
            was_live == old(self)@.contains_key(handle),
            final(self)@ == if was_live {
                old(self)@.insert(handle, record)
            } else {
                old(self)@
            },
            final(self)@.dom().finite(),
    {
        proof {
            use_type_invariant(&*self);
        }
        let mut slab = slab_new();
        std::mem::swap(&mut slab, &mut self.slab);
        let was_live = overwrite(&mut slab, handle, record);
        self.slab = slab;
        was_live
    }

    /// Deletes the record under `handle` if the handle is live, and says
    /// whether it was. The handle is free again afterwards; a handle that
    /// was not live leaves the store as it is.
    pub fn remove(&mut self, handle: RecordHandle) -> (was_live: bool)
        ensures
            was_live == old(self)@.contains_key(handle),
            final(self)@ == old(self)@.remove(handle),
            final(self)@.dom().finite(),
    {
        proof {
            use_type_invariant(&*self);
        }
        if !slab_contains(&self.slab, handle) {
            return false;
        }
        let mut slab = slab_new();
        std::mem::swap(&mut slab, &mut self.slab);
        release(&mut slab, handle);
        self.slab = slab;
        true
    }

    /// The handles of all live records, in ascending order.
    pub fn list_handles(&self) -> (handles: Vec<RecordHandle>)
        ensures
            is_listing(handles@, self@.dom()),
            handles@ == listing(self@.dom()),
            self@.dom().finite(),
            handles@.len() == self@.dom().len(),
    {
        let handles = slab_keys(&self.slab);
        proof {
            use_type_invariant(self);
            let live = self@.dom();
            assert(is_listing(handles@, live));
            lemma_listing_unique(handles@, listing(live), live);
            assert(handles@.to_set() =~= live);
            handles@.unique_seq_to_set();
        }
        handles
    }
}

/// Stores `record` in a tidy slab under the lowest free key.
fn claim(slab: &mut Slab<UserData>, record: UserData) -> (key: usize)
    requires
        tidy(slab_entries(*old(slab)).dom(), slab_vacant(*old(slab))),
    ensures
        tidy(slab_entries(*final(slab)).dom(), slab_vacant(*final(slab))),
        is_lowest_free(slab_entries(*old(slab)).dom(), key),
        slab_entries(*final(slab)) == slab_entries(*old(slab)).insert(key, record),
{
    let ghost live = slab_entries(*slab).dom();
    let ghost vacant = slab_vacant(*slab);
    let key = slab_insert(slab, record);
    proof {
        let live2 = slab_entries(*slab).dom();
        let vacant2 = slab_vacant(*slab);
        if vacant.len() > 0 {
            // The key is the least released one, so every key below it is live.
            assert forall|k: usize| k < key implies live.contains(k) by {}
            assert forall|k: usize| vacant.contains(k) <==> (k == key || vacant2.contains(k)) by {
                if vacant.contains(k) && k != key {
                    let i = choose|i: int| 0 <= i < vacant.len() && vacant[i] == k;
                    assert(vacant2[i - 1] == k);
                }
            }
            assert forall|i: int| 0 <= i < vacant2.len() implies !live2.contains(
                #[trigger] vacant2[i],
            ) by {}
        }
    }
    key
}

/// Replaces the value under `key` in a slab, if the key holds one.
fn overwrite(slab: &mut Slab<UserData>, key: usize, record: UserData) -> (was_live: bool)
    ensures
        was_live == slab_entries(*old(slab)).contains_key(key),
        slab_entries(*final(slab)) == if was_live {
            slab_entries(*old(slab)).insert(key, record)
        } else {
            slab_entries(*old(slab))
        },
        slab_entries(*final(slab)).dom() == slab_entries(*old(slab)).dom(),
        slab_vacant(*final(slab)) == slab_vacant(*old(slab)),
{
    match slab_get_mut(slab, key) {
        Some(slot) => {
            *slot = record;
            assert(slab_entries(*old(slab)).insert(key, record).dom() =~= slab_entries(
                *old(slab),
            ).dom());
            true
        },
        None => false,
    }
}

/// Takes the value under the occupied `key` out of a tidy slab and leaves
/// the slab tidy.
///
/// `Slab::remove` alone would put `key` on top of the released keys. To
/// keep them sorted, the released keys below `key` are first taken off the
/// stack by parking a record in each, then `key` is released, then the
/// parked keys are released again, highest first.
fn release(slab: &mut Slab<UserData>, key: usize) -> (record: UserData)
    requires
        tidy(slab_entries(*old(slab)).dom(), slab_vacant(*old(slab))),
        slab_entries(*old(slab)).contains_key(key),
    ensures
        tidy(slab_entries(*final(slab)).dom(), slab_vacant(*final(slab))),
        slab_entries(*final(slab)) == slab_entries(*old(slab)).remove(key),
        record == slab_entries(*old(slab))[key],
{
    let ghost entries = slab_entries(*slab);
    let ghost vacant = slab_vacant(*slab);
    let mut parked: Vec<usize> = Vec::new();
    while slab_vacant_key(slab) < key
        invariant
            tidy(entries.dom(), vacant),
            entries.contains_key(key),
            parked@.len() <= vacant.len(),
            parked@ == vacant.take(parked@.len() as int),
            slab_vacant(*slab) == vacant.skip(parked@.len() as int),
            forall|i: int| 0 <= i < parked@.len() ==> parked@[i] < key,
            slab_entries(*slab).dom().finite(),
            slab_entries(*slab).dom().len() == entries.dom().len() + parked@.len(),
            forall|k: usize|
                slab_entries(*slab).contains_key(k) <==> (entries.contains_key(k)
                    || parked@.contains(k)),
            forall|k: usize|
                entries.contains_key(k) ==> slab_entries(*slab)[k] == entries[k],
        decreases vacant.len() - parked@.len(),
    {
        let ghost n = parked@.len() as int;
        let ghost before = slab_entries(*slab);
        proof {
            // A released key is left: with none, the next key would be the
            // number of slots, which is above the live `key`.
            assert(n < vacant.len());
            assert(!before.contains_key(vacant[n]));
        }
        let parked_key = slab_insert(slab, UserData);
        parked.push(parked_key);
        proof {
            assert(parked@ =~= vacant.take(n + 1));
            assert forall|k: usize|
                slab_entries(*slab).contains_key(k) <==> (entries.contains_key(k)
                    || parked@.contains(k)) by {
                if parked@.contains(k) {
                    let i = choose|i: int| 0 <= i < parked@.len() && parked@[i] == k;
                    if i < n {
                        assert(parked@.drop_last()[i] == k);
                    }
                }
                if k == parked_key {
                    assert(parked@[n] == k);
                }
            }
        }
    }
    let ghost n = parked@.len() as int;
    let record = slab_remove(slab, key);
    proof {
        assert(!parked@.contains(key));
        assert forall|k: usize|
            slab_entries(*slab).contains_key(k) <==> ((entries.contains_key(k) && k != key)
                || parked@.take(n).contains(k)) by {
            assert(parked@.take(n) =~= parked@);
        }
    }
    let mut i = parked.len();
    while i > 0
        invariant
            i <= parked@.len(),
            n == parked@.len(),
            n <= vacant.len(),
            parked@ == vacant.take(n),
            tidy(entries.dom(), vacant),
            entries.contains_key(key),
            forall|j: int| 0 <= j < parked@.len() ==> parked@[j] < key,
            slab_vacant(*slab) == parked@.skip(i as int) + seq![key] + vacant.skip(n),
            forall|k: usize|
                slab_entries(*slab).contains_key(k) <==> ((entries.contains_key(k) && k != key)
                    || parked@.take(i as int).contains(k)),
            forall|k: usize|
                entries.contains_key(k) && k != key ==> slab_entries(*slab)[k] == entries[k],
        decreases i,
    {
        i -= 1;
        proof {
            assert(parked@.take(i + 1)[i as int] == parked@[i as int]);
            assert(!entries.contains_key(parked@[i as int]));
        }
        slab_remove(slab, parked[i]);
        proof {
            assert forall|k: usize|
                slab_entries(*slab).contains_key(k) <==> ((entries.contains_key(k) && k != key)
                    || parked@.take(i as int).contains(k)) by {
                let shorter = parked@.take(i as int);
                let longer = parked@.take(i + 1);
                if shorter.contains(k) {
                    let j = choose|j: int| 0 <= j < shorter.len() && shorter[j] == k;
                    assert(longer[j] == k);
                }
                if longer.contains(k) && k != parked@[i as int] {
                    let j = choose|j: int| 0 <= j < longer.len() && longer[j] == k;
                    assert(shorter[j] == k);
                }
            }
        }
    }
    proof {
        let live2 = slab_entries(*slab).dom();
        let vacant2 = slab_vacant(*slab);
        assert(vacant2 =~= vacant.take(n) + seq![key] + vacant.skip(n));
        assert(live2 =~= entries.dom().remove(key));
        assert forall|j: int| 0 <= j < n implies vacant[j] < key by {
            assert(parked@[j] == vacant[j]);
        }
        lemma_tidy_release(entries.dom(), vacant, key, n);
    }
    record
}

/// Releasing the live key `key` into its place among the sorted released
/// keys leaves the slab tidy: the first `n` released keys are those below
/// `key`.
proof fn lemma_tidy_release(live: Set<usize>, vacant: Seq<usize>, key: usize, n: int)
    requires
        tidy(live, vacant),
        live.contains(key),
        0 <= n <= vacant.len(),
        forall|i: int| 0 <= i < n ==> vacant[i] < key,
        n < vacant.len() ==> key <= vacant[n],
    ensures
        tidy(live.remove(key), vacant.take(n) + seq![key] + vacant.skip(n)),
{
    let live2 = live.remove(key);
    let vacant2 = vacant.take(n) + seq![key] + vacant.skip(n);
    assert forall|i: int| 0 <= i < vacant2.len() implies vacant2[i] == (if i < n {
        vacant[i]
    } else if i == n {
        key
    } else {
        vacant[i - 1]
    }) by {}
    assert forall|i: int| n <= i < vacant.len() implies key < vacant[i] by {}
    assert forall|i: int, j: int| 0 <= i < j < vacant2.len() implies vacant2[i] < vacant2[j] by {}
    assert forall|i: int| 0 <= i < vacant2.len() implies !live2.contains(#[trigger] vacant2[i]) by {}
    assert forall|k: usize| vacant2.contains(k) <==> (k == key || vacant.contains(k)) by {
        if vacant.contains(k) {
            let i = choose|i: int| 0 <= i < vacant.len() && vacant[i] == k;
            if i < n {
                assert(vacant2[i] == k);
            } else {
                assert(vacant2[i + 1] == k);
            }
        }
        if k == key {
            assert(vacant2[n] == k);
        }
    }
    assert forall|k: usize|
        k < live2.len() + vacant2.len() <==> (#[trigger] live2.contains(k) || vacant2.contains(
            k,
        )) by {}
}

} // verus!
