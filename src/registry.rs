//! The network registry: the records of the live networks, kept in a `slotmap::SlotMap`.
use vstd::prelude::*;
use slotmap::DefaultKey;
use slotmap::Key;
use slotmap::KeyData;
use slotmap::SlotMap;
use crate::node::NodeId;

verus! {

/// The slot map that holds the network records. Verus cannot take `SlotMap`'s declaration (its
/// key bound is an outside trait), so the map is held here, and what it holds is
/// [`registry_entries`].
#[verifier::external_body]
pub struct Registry {
    map: SlotMap<DefaultKey, NetworkData>,
}

/// Identity of a network: a slot-map key in its integer form (slot in the low half, version in
/// the high half).
#[derive(Clone, Copy, Debug, PartialEq, Eq, Structural)]
pub struct NetworkId {
    pub key: u64,
}

/// The key that a lookup of `key` resolves to: the slot map always reads the version as odd.
pub open spec fn key_norm(key: u64) -> u64 {
    key | 0x1_0000_0000u64
}

impl NetworkId {
    pub open spec fn key_spec(self) -> u64 {
        key_norm(self.key)
    }
}

/// What the registry holds of one network: the nodes it created, in order, and the number of
/// live handles to it.
pub struct NetworkData {
    pub nodes: Vec<NodeId>,
    pub refs: usize,
}

/// The model of a [`NetworkData`].
pub type NetworkView = (Seq<NodeId>, usize);

impl NetworkData {
    pub open spec fn view(&self) -> NetworkView {
        (self.nodes@, self.refs)
    }
}

/// The records of a registry, by key.
pub uninterp spec fn registry_entries(m: Registry) -> Map<u64, NetworkView>;

/// Relies on `SlotMap::new`: a new slot map holds nothing.
#[verifier::external_body]
pub(crate) fn registry_new() -> (r: Registry)
    ensures
        registry_entries(r).dom() =~= Set::<u64>::empty(),
{
    Registry { map: SlotMap::new() }
}

/// Relies on `SlotMap::insert`: the value is stored under a key that was vacant, whose version
/// is odd. The slot map panics only when it holds `u32::MAX - 1` values.
#[verifier::external_body]
pub(crate) fn registry_insert(m: &mut Registry, d: NetworkData) -> (r: u64)
    requires
        registry_entries(*old(m)).len() < 0xFFFF_FFFEu64,
    ensures
        !registry_entries(*old(m)).contains_key(r),
        key_norm(r) == r,
        registry_entries(*final(m)) == registry_entries(*old(m)).insert(r, d.view()),
{
    m.map.insert(d).data().as_ffi()
}

/// Relies on `SlotMap::len`: the number of values held.
#[verifier::external_body]
pub(crate) fn registry_len(m: &Registry) -> (r: usize)
    ensures
        r == registry_entries(*m).len(),
{
    m.map.len()
}

/// Relies on `SlotMap::remove`: the value under the key is taken out, if there is one.
#[verifier::external_body]
pub(crate) fn registry_remove(m: &mut Registry, key: u64) -> (r: Option<
    NetworkData,
>)
    ensures
        match r {
            Some(d) => registry_entries(*old(m)).contains_key(key_norm(key))
                && d.view() == registry_entries(*old(m))[key_norm(key)]
                && registry_entries(*final(m)) == registry_entries(*old(m)).remove(key_norm(key)),
            None => !registry_entries(*old(m)).contains_key(key_norm(key))
                && registry_entries(*final(m)) == registry_entries(*old(m)),
        },
{
    m.map.remove(KeyData::from_ffi(key).into())
}

/// Relies on `SlotMap::get_mut`: the value under the key, to be changed in place.
#[verifier::external_body]
pub(crate) fn registry_get_mut(m: &mut Registry, key: u64) -> (r: Option<
    &mut NetworkData,
>)
    ensures
        match r {
            Some(d) => registry_entries(*old(m)).contains_key(key_norm(key)) && (*d).view()
                == registry_entries(*old(m))[key_norm(key)] && registry_entries(*final(m))
                == registry_entries(*old(m)).insert(key_norm(key), (*final(d)).view()),
            None => !registry_entries(*old(m)).contains_key(key_norm(key))
                && registry_entries(*final(m)) == registry_entries(*old(m)),
        },
{
    m.map.get_mut(KeyData::from_ffi(key).into())
}

} // verus!
