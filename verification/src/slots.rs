//! The account key store: a `slotmap::DenseSlotMap` that maps each account key
//! to the position of the account's data.
use vstd::prelude::*;
use slotmap::{DefaultKey, DenseSlotMap, Key, KeyData};

verus! {

/// The key store of a book's accounts: a dense slot map from account keys to positions,
/// held opaquely and described by `slot_entries`.
#[verifier::external_body]
pub struct AccountSlots {
    map: DenseSlotMap<DefaultKey, usize>,
}

/// What a key store holds: its entries in the order of its dense storage, each key
/// written as its FFI encoding (`KeyData::as_ffi`), beside its value.
pub uninterp spec fn slot_entries(m: AccountSlots) -> Seq<(u64, usize)>;

/// `DenseSlotMap::with_key`: the new slot map holds no entry.
#[verifier::external_body]
pub(crate) fn slots_new() -> (m: AccountSlots)
    ensures
        slot_entries(m) == Seq::<(u64, usize)>::empty(),
{
    AccountSlots { map: DenseSlotMap::with_key() }
}

/// `DenseSlotMap::insert`: the value is pushed at the end of the dense storage under a
/// key that no current entry has. It panics only when the map is full, which takes
/// `u32::MAX - 1` entries.
#[verifier::external_body]
pub(crate) fn slots_insert(m: &mut AccountSlots, value: usize) -> (key: u64)
    requires
        slot_entries(*old(m)).len() + 1 < u32::MAX,
    ensures
        slot_entries(*final(m)) == slot_entries(*old(m)).push((key, value)),
        forall|i: int|
            0 <= i < slot_entries(*old(m)).len() ==> (#[trigger] slot_entries(*old(m))[i]).0 != key,
{
    m.map.insert(value).data().as_ffi()
}

/// `DenseSlotMap::get` on a key that the map holds: the value stored under that key.
/// The key is decoded with `KeyData::from_ffi`, which gives back the key that was encoded.
#[verifier::external_body]
pub(crate) fn slots_get(m: &AccountSlots, key: u64) -> (v: Option<usize>)
    requires
        exists|i: int| 0 <= i < slot_entries(*m).len() && (#[trigger] slot_entries(*m)[i]).0 == key,
    ensures
        forall|i: int|
            0 <= i < slot_entries(*m).len() && (#[trigger] slot_entries(*m)[i]).0 == key ==> v
                == Some(slot_entries(*m)[i].1),
{
    m.map.get(DefaultKey::from(KeyData::from_ffi(key))).copied()
}

/// `DenseSlotMap::iter`: every entry, in the order of the dense storage.
#[verifier::external_body]
pub(crate) fn slots_listing(m: &AccountSlots) -> (r: Vec<(u64, usize)>)
    ensures
        r@ == slot_entries(*m),
{
    m.map.iter().map(|(k, v)| (k.data().as_ffi(), *v)).collect()
}

} // verus!
