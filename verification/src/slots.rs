//! The `slab` crate as the verifier sees it.
//!
//! A `Slab` is opaque to the verifier. This module names the two things the
//! rest of the crate needs to know about one, its occupied slots and its
//! stack of released slots, and wraps each method that the crate calls in a
//! function whose contract is taken on trust from the source of `slab`.
//! Nothing in this module is proved.

use crate::store::UserData;
use slab::Slab;
use vstd::prelude::*;

verus! {

#[verifier::external_type_specification]
#[verifier::external_body]
#[verifier::reject_recursive_types(T)]
pub struct ExSlab<T>(Slab<T>);

/// The occupied slots of a slab: each key that currently holds a value,
/// with that value.
pub uninterp spec fn slab_entries(s: Slab<UserData>) -> Map<usize, UserData>;

/// The released slots of a slab that have not been handed out again, in the
/// order in which `Slab::insert` will reuse them: the most recently released
/// slot comes first.
pub uninterp spec fn slab_vacant(s: Slab<UserData>) -> Seq<usize>;

/// The key that the next insertion into a slab is stored under: the head of
/// the stack of released slots, or else, when every slot is occupied, the
/// number of values stored.
pub open spec fn slab_next_key(s: Slab<UserData>) -> int {
    if slab_vacant(s).len() > 0 {
        slab_vacant(s)[0] as int
    } else {
        slab_entries(s).dom().len() as int
    }
}

/// `Slab::new`: a slab without any slot, occupied or released.
#[verifier::external_body]
pub(crate) fn slab_new() -> (s: Slab<UserData>)
    ensures
        slab_entries(s) == (Map::<usize, UserData>::empty()),
        slab_vacant(s) == Seq::<usize>::empty(),
{
    Slab::new()
}

/// `Slab::vacant_key`: the key that the next call of `Slab::insert` will
/// return. The slab is not changed.
#[verifier::external_body]
pub(crate) fn slab_vacant_key(s: &Slab<UserData>) -> (key: usize)
    ensures
        key == slab_next_key(*s),
{
    s.vacant_key()
}

/// `Slab::insert`: pops the stack of released slots, or appends a new slot
/// when the stack is empty, and stores the value there. Every other slot
/// keeps its state. The call panics only where the backing vector cannot
/// grow any further; as in the specification of `Vec::push`, that limit of
/// the allocator is not modelled.
#[verifier::external_body]
pub(crate) fn slab_insert(s: &mut Slab<UserData>, value: UserData) -> (key: usize)
    ensures
        key == slab_next_key(*old(s)),
        slab_entries(*final(s)) == slab_entries(*old(s)).insert(key, value),
        slab_vacant(*final(s)) == if slab_vacant(*old(s)).len() > 0 {
            slab_vacant(*old(s)).drop_first()
        } else {
            slab_vacant(*old(s))
        },
{
    s.insert(value)
}

/// `Slab::remove`: takes the value out of an occupied slot and pushes the
/// slot on the stack of released slots. It panics on a key that holds no
/// value, which the precondition rules out.
#[verifier::external_body]
pub(crate) fn slab_remove(s: &mut Slab<UserData>, key: usize) -> (value: UserData)
    requires
        slab_entries(*old(s)).contains_key(key),
    ensures
        value == slab_entries(*old(s))[key],
        slab_entries(*final(s)) == slab_entries(*old(s)).remove(key),
        slab_vacant(*final(s)) == seq![key] + slab_vacant(*old(s)),
{
    s.remove(key)
}

/// `Slab::contains`: whether the key holds a value.
#[verifier::external_body]
pub(crate) fn slab_contains(s: &Slab<UserData>, key: usize) -> (live: bool)
    ensures
        live == slab_entries(*s).contains_key(key),
{
    s.contains(key)
}

/// `Slab::get`: the value under the key, if the key holds one.
#[verifier::external_body]
pub(crate) fn slab_get(s: &Slab<UserData>, key: usize) -> (value: Option<&UserData>)
    ensures
        value == if slab_entries(*s).contains_key(key) {
            Some(&slab_entries(*s)[key])
        } else {
            None
        },
{
    s.get(key)
}

/// `Slab::get_mut`: a mutable reference to the value under the key, if the
/// key holds one. Whatever is written through the reference replaces that
/// value; no slot changes between occupied and released.
#[verifier::external_body]
pub(crate) fn slab_get_mut(s: &mut Slab<UserData>, key: usize) -> (value: Option<&mut UserData>)
    ensures
        value.is_some() == slab_entries(*old(s)).contains_key(key),
        value.is_some() ==> *value.unwrap() == slab_entries(*old(s))[key]
            && slab_entries(*final(s)) == slab_entries(*old(s)).insert(key, *final(value.unwrap()))
            && slab_vacant(*final(s)) == slab_vacant(*old(s)),
        value.is_none() ==> slab_entries(*final(s)) == slab_entries(*old(s))
            && slab_vacant(*final(s)) == slab_vacant(*old(s)),
{
    s.get_mut(key)
}

/// `Slab::iter`, keeping the key of each item: the iterator walks the slots
/// in index order and yields the occupied ones, so the keys come out in
/// ascending order and are exactly the keys that hold a value.
#[verifier::external_body]
pub(crate) fn slab_keys(s: &Slab<UserData>) -> (keys: Vec<usize>)
    ensures
        forall|i: int, j: int| 0 <= i < j < keys@.len() ==> keys@[i] < keys@[j],
        forall|k: usize| keys@.contains(k) <==> slab_entries(*s).contains_key(k),
{
    s.iter().map(|(key, _)| key).collect()
}

} // verus!
