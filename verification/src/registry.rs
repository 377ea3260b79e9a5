//! The collider registry: the owner of every collider, keyed by the id that
//! it gave out on registration.

use vstd::prelude::*;
use crate::collider_map::{collider_map_contents, ColliderMap};
use crate::colliders::Collider;
use crate::math::Vec2;
use crate::shapes::ColliderShapeType;

verus! {

/// The identity of a registered collider. It is a plain value: the registry
/// owns the collider that it names.
#[derive(Clone, Copy, Debug, PartialEq, Eq, Hash, Structural)]
pub struct ColliderComponent {
    pub id: u32,
}

/// The registry of colliders.
pub struct ColliderSet {
    colliders: ColliderMap,
    next_id: u32,
}

/// `out` lists the values of `entries`, each once, in the order of `keys`.
pub open spec fn lists_values(
    entries: Map<u32, Collider>,
    keys: Seq<u32>,
    out: Seq<&Collider>,
) -> bool {
    &&& keys.no_duplicates()
    &&& keys.to_set() == entries.dom()
    &&& out.len() == keys.len()
    &&& forall|i: int| 0 <= i < keys.len() ==> *(#[trigger] out[i]) == entries[keys[i]]
}

impl View for ColliderSet {
    type V = Map<u32, Collider>;

    /// The registered colliders by id.
    closed spec fn view(&self) -> Map<u32, Collider> {
        collider_map_contents(self.colliders)
    }
}

impl ColliderSet {
    /// The id that the next registration gives out.
    pub closed spec fn next_id(&self) -> u32 {
        self.next_id
    }

    /// Every id in use was given out before the next one: the next
    /// registration does not reuse it.
    pub open spec fn ids_fresh(&self) -> bool {
        forall|id: u32| self@.contains_key(id) ==> id < self.next_id()
    }

    /// An empty registry, whose first id is 0.
    pub fn new() -> (s: ColliderSet)
        ensures
            s@ == Map::<u32, Collider>::empty(),
            s@.dom().finite(),
            s.next_id() == 0,
            s.ids_fresh(),
    {
        let s = ColliderSet { colliders: ColliderMap::new(), next_id: 0 };
        assert(s@ =~= Map::<u32, Collider>::empty());
        s
    }

    /// Registers a collider under the next id and returns the id. Ids count
    /// up from 0 and start over after `u32::MAX`.
    pub fn register(&mut self, collider: Collider) -> (id: u32)
        ensures
            id == old(self).next_id(),
            final(self)@ == old(self)@.insert(id, collider),
            final(self).next_id() == id_after(id),
            old(self).ids_fresh() ==> !old(self)@.contains_key(id),
            old(self).ids_fresh() && id < u32::MAX ==> final(self).ids_fresh(),
            old(self)@.dom().finite() ==> final(self)@.dom().finite(),
            old(self)@.dom().finite() && old(self).ids_fresh()
                ==> final(self)@.dom().len() == old(self)@.dom().len() + 1,
    {
        let id: u32 = self.next_id;
        self.next_id = if id == u32::MAX {
            0
        } else {
            id + 1
        };
        self.colliders.insert(id, collider);
        id
    }

    /// The collider registered under the handle, if there is one.
    pub fn get(&self, component: &ColliderComponent) -> (res: Option<&Collider>)
        ensures
            res is Some <==> self@.contains_key(component.id),
            res matches Some(c) ==> *c == self@[component.id],
    {
        self.colliders.get(component.id)
    }

    /// Mutable access to the collider registered under the handle, if there
    /// is one. What is written through the reference is what the registry
    /// holds afterwards.
    pub fn get_mut(&mut self, component: &ColliderComponent) -> (res: Option<&mut Collider>)
        ensures
            res is Some <==> old(self)@.contains_key(component.id),
            res matches Some(c) ==> *c == old(self)@[component.id] && final(self)@ == old(
                self,
            )@.insert(component.id, *final(c)),
            res is None ==> final(self)@ == old(self)@,
            final(self).next_id() == old(self).next_id(),
            final(self)@.dom() == old(self)@.dom(),
            old(self)@.dom().finite() ==> final(self)@.dom().finite(),
    {
        proof {
            let before = old(self)@;
            assert forall|c: Collider| before.contains_key(component.id) implies (
            #[trigger] before.insert(component.id, c)).dom() == before.dom() by {
                assert(before.insert(component.id, c).dom() =~= before.dom());
            }
        }
        self.colliders.get_mut(component.id)
    }

    /// Takes the collider of the handle out of the registry and returns it,
    /// or `None` where the handle names none.
    pub fn deregister(&mut self, component: ColliderComponent) -> (res: Option<Collider>)
        ensures
            final(self)@ == old(self)@.remove(component.id),
            res == (if old(self)@.contains_key(component.id) {
                Some(old(self)@[component.id])
            } else {
                None
            }),
            final(self).next_id() == old(self).next_id(),
            old(self).ids_fresh() ==> final(self).ids_fresh(),
            old(self)@.dom().finite() ==> final(self)@.dom().finite(),
            old(self)@.dom().finite() ==> final(self)@.dom().len() == old(self)@.dom().len() - (
            if old(self)@.contains_key(component.id) {
                1int
            } else {
                0int
            }),
    {
        self.colliders.remove(component.id)
    }

    /// The handles of all registered colliders, each once, in no particular
    /// order.
    pub fn get_as_components(&self) -> (res: Vec<ColliderComponent>)
        ensures
            self@.dom().finite(),
            res@.len() == self@.dom().len(),
            res@.no_duplicates(),
            forall|i: int| 0 <= i < res@.len() ==> self@.contains_key(#[trigger] res@[i].id),
            forall|id: u32|
                self@.contains_key(id) ==> res@.contains(ColliderComponent { id }),
    {
        let keys = self.colliders.keys();
        let mut res: Vec<ColliderComponent> = Vec::new();
        let mut i: usize = 0;
        proof {
            keys@.unique_seq_to_set();
        }
        while i < keys.len()
            invariant
                0 <= i <= keys.len(),
                res@.len() == i,
                forall|j: int| 0 <= j < i ==> (#[trigger] res@[j]).id == keys@[j],
            decreases keys.len() - i,
        {
            res.push(ColliderComponent { id: keys[i] });
            i += 1;
        }
        proof {
            assert forall|id: u32| self@.contains_key(id) implies res@.contains(
                ColliderComponent { id },
            ) by {
                assert(keys@.to_set().contains(id));
                let j = choose|j: int| 0 <= j < keys@.len() && keys@[j] == id;
                assert(res@[j] == ColliderComponent { id });
            }
            assert forall|j: int| 0 <= j < res@.len() implies self@.contains_key(
                #[trigger] res@[j].id,
            ) by {
                assert(keys@.to_set().contains(keys@[j]));
            }
        }
        res
    }

    /// The colliders of every handle but the given one, each once, in no
    /// particular order.
    pub fn get_neighbors<'a>(&'a self, component: &ColliderComponent) -> (res: Vec<&'a Collider>)
        ensures
            exists|keys: Seq<u32>| lists_values(self@.remove(component.id), keys, res@),
    {
        let keys = self.colliders.keys();
        let mut res: Vec<&'a Collider> = Vec::new();
        let ghost mut picked: Seq<u32> = Seq::empty();
        let mut i: usize = 0;
        while i < keys.len()
            invariant
                0 <= i <= keys.len(),
                keys@.no_duplicates(),
                keys@.to_set() == self@.dom(),
                picked.no_duplicates(),
                res@.len() == picked.len(),
                forall|j: int|
                    0 <= j < picked.len() ==> #[trigger] picked[j] != component.id
                        && keys@.subrange(0, i as int).contains(picked[j]),
                forall|j: int|
                    0 <= j < i && keys@[j] != component.id ==> picked.contains(#[trigger] keys@[j]),
                forall|j: int|
                    0 <= j < picked.len() ==> self@.contains_key(picked[j]) && *(#[trigger] res@[j])
                        == self@[picked[j]],
            decreases keys.len() - i,
        {
            let key: u32 = keys[i];
            let ghost before = picked;
            proof {
                assert(keys@.to_set().contains(key));
            }
            if key != component.id {
                match self.colliders.get(key) {
                    Some(collider) => {
                        res.push(collider);
                        proof {
                            assert(!before.contains(key)) by {
                                if before.contains(key) {
                                    let j = choose|j: int| 0 <= j < before.len() && before[j] == key;
                                    let k = choose|k: int|
                                        0 <= k < i && keys@.subrange(0, i as int)[k] == before[j];
                                    assert(keys@[k] == keys@[i as int]);
                                }
                            }
                            picked = before.push(key);
                        }
                    },
                    None => {},
                }
            }
            proof {
                assert forall|j: int| 0 <= j < picked.len() implies keys@.subrange(
                    0,
                    i + 1,
                ).contains(#[trigger] picked[j]) by {
                    if j < before.len() {
                        let k = choose|k: int|
                            0 <= k < i && keys@.subrange(0, i as int)[k] == before[j];
                        assert(keys@.subrange(0, i + 1)[k] == picked[j]);
                    } else {
                        assert(keys@.subrange(0, i + 1)[i as int] == picked[j]);
                    }
                }
                assert forall|j: int|
                    0 <= j < i + 1 && keys@[j] != component.id implies picked.contains(
                    #[trigger] keys@[j],
                ) by {
                    if j < i {
                        let k = choose|k: int| 0 <= k < before.len() && before[k] == keys@[j];
                        assert(picked[k] == keys@[j]);
                    } else {
                        assert(picked[picked.len() - 1] == keys@[j]);
                    }
                }
            }
            i += 1;
        }
        proof {
            let entries = self@.remove(component.id);
            assert(picked.to_set() =~= entries.dom()) by {
                assert forall|id: u32| picked.to_set().contains(id) <==> entries.dom().contains(
                    id,
                ) by {
                    if picked.contains(id) {
                        let j = choose|j: int| 0 <= j < picked.len() && picked[j] == id;
                        assert(self@.contains_key(picked[j]));
                    }
                    if entries.dom().contains(id) {
                        assert(keys@.to_set().contains(id));
                        let j = choose|j: int| 0 <= j < keys@.len() && keys@[j] == id;
                        assert(picked.contains(keys@[j]));
                    }
                }
            }
            assert(lists_values(entries, picked, res@));
        }
        res
    }

    /// The collider of the handle, and the colliders of all other handles.
    /// The handle must be registered.
    pub fn get_neighbors_and_self<'a>(&'a self, component: &ColliderComponent) -> (res: (
        &'a Collider,
        Vec<&'a Collider>,
    ))
        requires
            self@.contains_key(component.id),
        ensures
            *res.0 == self@[component.id],
            exists|keys: Seq<u32>| lists_values(self@.remove(component.id), keys, res.1@),
    {
        let neighbors = self.get_neighbors(component);
        let ghost keys = choose|keys: Seq<u32>|
            lists_values(self@.remove(component.id), keys, neighbors@);
        match self.get(component) {
            Some(own) => {
                let res = (own, neighbors);
                proof {
                    assert(lists_values(self@.remove(component.id), keys, res.1@));
                }
                res
            },
            None => vstd::pervasive::unreached(),
        }
    }

    /// Pushes a transform at `translation` into the collider of the handle;
    /// does nothing where the handle names none.
    pub fn update_single(&mut self, component: &ColliderComponent, translation: Vec2)
        ensures
            final(self)@ == (if old(self)@.contains_key(component.id) {
                old(self)@.insert(
                    component.id,
                    old(self)@[component.id].updated_spec(translation),
                )
            } else {
                old(self)@
            }),
            final(self).next_id() == old(self).next_id(),
            final(self)@.dom() == old(self)@.dom(),
            old(self).ids_fresh() ==> final(self).ids_fresh(),
            old(self)@.dom().finite() ==> final(self)@.dom().finite(),
    {
        if let Some(col) = self.get_mut(component) {
            col.update_from_transform(translation);
        }
    }
}

impl Default for ColliderSet {
    fn default() -> (s: ColliderSet)
        ensures
            s@ == Map::<u32, Collider>::empty(),
            s@.dom().finite(),
            s.next_id() == 0,
            s.ids_fresh(),
    {
        ColliderSet::new()
    }
}

/// Registration round trip: once a collider is registered under an id, a
/// lookup of the id finds that collider; once the id is deregistered, a
/// lookup finds nothing, and a registry that did not hold the id before is
/// as it was.
pub proof fn lemma_register_round_trip(before: Map<u32, Collider>, id: u32, collider: Collider)
    ensures
        before.insert(id, collider).contains_key(id),
        before.insert(id, collider)[id] == collider,
        !before.insert(id, collider).remove(id).contains_key(id),
        !before.contains_key(id) ==> before.insert(id, collider).remove(id) == before,
{
    assert(!before.contains_key(id) ==> before.insert(id, collider).remove(id) =~= before);
}

/// The id that is given out after `id`.
pub open spec fn id_after(id: u32) -> u32 {
    if id == u32::MAX {
        0
    } else {
        (id + 1) as u32
    }
}

/// The entries of a registry after the colliders of `added` were registered
/// one after another, the first of them under the id `next`.
pub open spec fn after_registrations(
    entries: Map<u32, Collider>,
    next: u32,
    added: Seq<Collider>,
) -> Map<u32, Collider>
    decreases added.len(),
{
    if added.len() == 0 {
        entries
    } else {
        after_registrations(entries.insert(next, added[0]), id_after(next), added.drop_first())
    }
}

/// An id that was given out and is no longer registered stays unregistered
/// through any number of later registrations, as long as the ids do not
/// start over: no later registration gives it out again.
pub proof fn lemma_deregistered_id_stays_out(
    entries: Map<u32, Collider>,
    next: u32,
    added: Seq<Collider>,
    id: u32,
)
    requires
        id < next,
        !entries.contains_key(id),
        next + added.len() <= u32::MAX + 1,
    ensures
        !after_registrations(entries, next, added).contains_key(id),
    decreases added.len(),
{
    reveal_with_fuel(after_registrations, 2);
    if added.len() == 1 {
        assert(added.drop_first().len() == 0);
    } else if added.len() > 1 {
        lemma_deregistered_id_stays_out(
            entries.insert(next, added[0]),
            id_after(next),
            added.drop_first(),
            id,
        );
    }
}

impl ColliderComponent {
    /// Registers a new collider of the given shape kind and returns its
    /// handle.
    pub fn new(collider_set: &mut ColliderSet, shape_type: ColliderShapeType) -> (c:
        ColliderComponent)
        ensures
            c.id == old(collider_set).next_id(),
            final(collider_set)@ == old(collider_set)@.insert(c.id, Collider::new_spec(shape_type)),
            final(collider_set).next_id() == id_after(c.id),
            old(collider_set).ids_fresh() ==> !old(collider_set)@.contains_key(c.id),
            old(collider_set).ids_fresh() && c.id < u32::MAX ==> final(collider_set).ids_fresh(),
            old(collider_set)@.dom().finite() ==> final(collider_set)@.dom().finite(),
            old(collider_set)@.dom().finite() && old(collider_set).ids_fresh()
                ==> final(collider_set)@.dom().len() == old(collider_set)@.dom().len() + 1,
    {
        let collider = Collider::new(shape_type);
        let id = collider_set.register(collider);
        ColliderComponent { id }
    }
}

} // verus!
