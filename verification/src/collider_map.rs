//! The hash map that holds the registry's colliders.
//!
//! The map is `bevy::utils::HashMap`, which is `hashbrown::HashMap` with
//! bevy's hasher. Nothing in this file is proved: each function makes one
//! call into the map and states, over [`collider_map_contents`], what
//! hashbrown documents of the method it calls.

use vstd::prelude::*;
use crate::colliders::Collider;

verus! {

/// A map from collider ids to colliders, stored in a
/// `bevy::utils::HashMap<u32, Collider>`.
#[verifier::external_body]
pub struct ColliderMap {
    inner: bevy::utils::HashMap<u32, Collider>,
}

/// The entries that a [`ColliderMap`] holds.
pub uninterp spec fn collider_map_contents(m: ColliderMap) -> Map<u32, Collider>;

impl ColliderMap {
    /// Calls `hashbrown::HashMap::default`: the new map has no entries.
    #[verifier::external_body]
    pub(crate) fn new() -> (res: ColliderMap)
        ensures
            collider_map_contents(res).dom() == Set::<u32>::empty(),
    {
        ColliderMap { inner: bevy::utils::HashMap::default() }
    }

    /// Calls `hashbrown::HashMap::insert`: afterwards the key maps to the
    /// value, in place of what it mapped to before; the other entries stay.
    #[verifier::external_body]
    pub(crate) fn insert(&mut self, id: u32, collider: Collider)
        ensures
            collider_map_contents(*final(self)) == collider_map_contents(*old(self)).insert(
                id,
                collider,
            ),
    {
        self.inner.insert(id, collider);
    }

    /// Calls `hashbrown::HashMap::get`: the result is a reference to the
    /// value of the key, or `None` where the map does not hold the key.
    #[verifier::external_body]
    pub(crate) fn get(&self, id: u32) -> (res: Option<&Collider>)
        ensures
            res is Some <==> collider_map_contents(*self).contains_key(id),
            res matches Some(c) ==> *c == collider_map_contents(*self)[id],
    {
        self.inner.get(&id)
    }

    /// Calls `hashbrown::HashMap::get_mut`: the result is a mutable
    /// reference to the value of the key, or `None` where the map does not
    /// hold the key. What the caller writes through the reference becomes
    /// the key's value; nothing else changes.
    #[verifier::external_body]
    pub(crate) fn get_mut(&mut self, id: u32) -> (res: Option<&mut Collider>)
        ensures
            res is Some <==> collider_map_contents(*old(self)).contains_key(id),
            res matches Some(c) ==> *c == collider_map_contents(*old(self))[id]
                && collider_map_contents(*final(self)) == collider_map_contents(
                *old(self),
            ).insert(id, *final(c)),
            res is None ==> collider_map_contents(*final(self)) == collider_map_contents(
                *old(self),
            ),
    {
        self.inner.get_mut(&id)
    }

    /// Calls `hashbrown::HashMap::remove`: the key leaves the map and its
    /// value is returned, or `None` where the map did not hold the key; the
    /// other entries stay.
    #[verifier::external_body]
    pub(crate) fn remove(&mut self, id: u32) -> (res: Option<Collider>)
        ensures
            collider_map_contents(*final(self)) == collider_map_contents(*old(self)).remove(id),
            res is Some <==> collider_map_contents(*old(self)).contains_key(id),
            res matches Some(c) ==> c == collider_map_contents(*old(self))[id],
    {
        self.inner.remove(&id)
    }

    /// Calls `hashbrown::HashMap::keys` and collects what it yields: every
    /// key of the map once, in an order that the map chooses.
    #[verifier::external_body]
    pub(crate) fn keys(&self) -> (res: Vec<u32>)
        ensures
            res@.no_duplicates(),
            res@.to_set() == collider_map_contents(*self).dom(),
    {
        self.inner.keys().copied().collect()
    }
}

} // verus!
