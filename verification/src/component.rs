use std::collections::HashMap;

use vstd::prelude::*;

use crate::entity::Entity;
use crate::err::{Error, ErrorKind};

verus! {

broadcast use vstd::std_specs::hash::group_hash_axioms, crate::entity::lemma_entity_view;

/// A component type key: the stable identifier that distinguishes one
/// component type's storage from another's. Registering the same
/// identifier twice yields the same key and has no further effect.
pub type Component = u64;

/// A registry of per-type component arrays, each a sparse mapping from
/// entity id to component value.
///
/// Component values share one closed value type `V`; each registered key
/// owns its own array, so one entity may hold a value in every registered
/// array at once.
pub struct ComponentManager<V> {
    keys: Vec<u64>,
    arrays: Vec<HashMap<u32, V>>,
}

impl<V> ComponentManager<V> {
    /// The registered component type keys, in registration order.
    pub closed spec fn keys_seq(&self) -> Seq<u64> {
        self.keys@
    }

    /// Whether a component type key has been registered.
    pub open spec fn is_registered(&self, component: Component) -> bool {
        self.keys_seq().contains(component)
    }

    /// The backing array of a registered component type: a mapping from
    /// entity id to stored value.
    pub closed spec fn array(&self, component: Component) -> Map<u32, V> {
        self.arrays@[self.keys@.index_of(component)]@
    }

    /// Validity of the store: one backing array per registered key, and no
    /// key registered twice.
    pub open spec fn wf(&self) -> bool {
        &&& self.keys_seq().no_duplicates()
        &&& self.arrays_len() == self.keys_seq().len()
    }

    pub closed spec fn arrays_len(&self) -> int {
        self.arrays@.len() as int
    }

    /// Whether every component in `components` is registered.
    pub open spec fn all_registered(&self, components: Seq<u64>) -> bool {
        forall|j: int| 0 <= j < components.len() ==> self.is_registered(components[j])
    }

    /// Whether the entity holds a value in the array of every component in
    /// `components` (meaningful when all of them are registered).
    pub open spec fn owns_all(&self, id: u32, components: Seq<u64>) -> bool {
        forall|j: int| 0 <= j < components.len() ==> self.array(components[j]).contains_key(id)
    }

    /// What `has_components` decides: an unregistered key anywhere in the
    /// list fails the call, and otherwise the answer is whether the entity
    /// holds a value in every listed array.
    pub open spec fn spec_has_components(&self, id: u32, components: Seq<u64>) -> Result<
        bool,
        ErrorKind,
    > {
        if !self.all_registered(components) {
            Err(ErrorKind::ComponentNotRegistered)
        } else {
            Ok(self.owns_all(id, components))
        }
    }

    /// In a valid store, the position of a registered key in the key list
    /// is the one `index_of` picks.
    proof fn lemma_key_index(&self, i: int)
        requires
            self.wf(),
            0 <= i < self.keys_seq().len(),
        ensures
            self.keys_seq().index_of(self.keys_seq()[i]) == i,
    {
        let c = self.keys_seq()[i];
        assert(self.keys_seq().contains(c));
        let j = self.keys_seq().index_of(c);
        assert(0 <= j < self.keys_seq().len() && self.keys_seq()[j] == c);
    }

    pub fn new() -> (r: Self)
        ensures
            r.wf(),
            r.keys_seq() == Seq::<u64>::empty(),
            forall|c: Component| !r.is_registered(c),
    {
        ComponentManager { keys: Vec::new(), arrays: Vec::new() }
    }

    /// The position of a key in the key list, if registered.
    fn find_key(&self, component: Component) -> (r: Option<usize>)
        requires
            self.wf(),
        ensures
            match r {
                Some(i) => {
                    &&& i < self.keys_seq().len()
                    &&& self.keys_seq()[i as int] == component
                    &&& self.keys_seq().index_of(component) == i
                    &&& self.is_registered(component)
                },
                None => !self.is_registered(component),
            },
    {
        let mut i: usize = 0;
        while i < self.keys.len()
            invariant
                self.wf(),
                i <= self.keys_seq().len(),
                forall|j: int| 0 <= j < i ==> self.keys_seq()[j] != component,
            decreases self.keys_seq().len() - i,
        {
            if self.keys[i] == component {
                proof {
                    self.lemma_key_index(i as int);
                }
                return Some(i);
            }
            i += 1;
        }
        None
    }

    /// Registers a component type for use with this manager and returns its
    /// key. Idempotent: a registered type keeps its key and its backing
    /// array; an unregistered one gets a fresh, empty array.
    pub fn register_component(&mut self, type_id: u64) -> (key: Component)
        requires
            old(self).wf(),
        ensures
            final(self).wf(),
            key == type_id,
            final(self).is_registered(type_id),
            old(self).is_registered(type_id) ==> *final(self) == *old(self),
            !old(self).is_registered(type_id) ==> {
                &&& final(self).keys_seq() == old(self).keys_seq().push(type_id)
                &&& final(self).array(type_id) == Map::<u32, V>::empty()
                &&& forall|c: Component|
                    old(self).is_registered(c) ==> final(self).array(c) == old(self).array(c)
            },
    {
        match self.find_key(type_id) {
            Some(_) => type_id,
            None => {
                let ghost n = self.keys@.len() as int;
                self.keys.push(type_id);
                self.arrays.push(HashMap::new());
                proof {
                    assert(self.keys_seq()[n] == type_id);
                    self.lemma_key_index(n);
                    assert forall|c: Component| old(self).is_registered(c) implies self.array(c)
                        == old(self).array(c) by {
                        let i = old(self).keys_seq().index_of(c);
                        assert(old(self).keys_seq()[i] == c);
                        assert(self.keys_seq()[i] == c);
                        self.lemma_key_index(i);
                    }
                }
                type_id
            },
        }
    }

    /// Checks whether a component type has been registered.
    pub fn is_component_registered(&self, component: &Component) -> (r: bool)
        requires
            self.wf(),
        ensures
            r == self.is_registered(*component),
    {
        self.find_key(*component).is_some()
    }

    /// Adds a component value to an entity, replacing the current value if
    /// the entity already holds one. Fails with `ComponentNotRegistered` iff
    /// the component type is unknown.
    pub fn add_component(&mut self, entity: &Entity, component_type: Component, value: V) -> (r:
        Result<(), Error>)
        requires
            old(self).wf(),
        ensures
            final(self).wf(),
            final(self).keys_seq() == old(self).keys_seq(),
            !old(self).is_registered(component_type) ==> {
                &&& r matches Err(e) && e.kind_spec() == ErrorKind::ComponentNotRegistered
                &&& *final(self) == *old(self)
            },
            old(self).is_registered(component_type) ==> {
                &&& r is Ok
                &&& final(self).array(component_type) == old(self).array(component_type).insert(
                    entity@,
                    value,
                )
                &&& forall|c: Component|
                    old(self).is_registered(c) && c != component_type ==> final(self).array(c)
                        == old(self).array(c)
            },
    {
        match self.find_key(component_type) {
            Some(i) => {
                let arr = &mut self.arrays[i];
                arr.insert(entity.id, value);
                proof {
                    self.lemma_unchanged_except(old(self), i as int);
                }
                Ok(())
            },
            None => Err(Error::new(ErrorKind::ComponentNotRegistered)),
        }
    }

    /// Removes a component value from an entity if it holds one; removing
    /// an absent value is not an error. Fails with `ComponentNotRegistered`
    /// iff the component type is unknown.
    pub fn remove_component(&mut self, entity: &Entity, component_type: Component) -> (r: Result<
        (),
        Error,
    >)
        requires
            old(self).wf(),
        ensures
            final(self).wf(),
            final(self).keys_seq() == old(self).keys_seq(),
            !old(self).is_registered(component_type) ==> {
                &&& r matches Err(e) && e.kind_spec() == ErrorKind::ComponentNotRegistered
                &&& *final(self) == *old(self)
            },
            old(self).is_registered(component_type) ==> {
                &&& r is Ok
                &&& final(self).array(component_type) == old(self).array(component_type).remove(
                    entity@,
                )
                &&& forall|c: Component|
                    old(self).is_registered(c) && c != component_type ==> final(self).array(c)
                        == old(self).array(c)
            },
    {
        match self.find_key(component_type) {
            Some(i) => {
                let arr = &mut self.arrays[i];
                arr.remove(&entity.id);
                proof {
                    self.lemma_unchanged_except(old(self), i as int);
                }
                Ok(())
            },
            None => Err(Error::new(ErrorKind::ComponentNotRegistered)),
        }
    }

    /// After a mutation of the array at position `i` alone, every other
    /// registered key still maps to its old array.
    proof fn lemma_unchanged_except(&self, prev: &ComponentManager<V>, i: int)
        requires
            prev.wf(),
            0 <= i < prev.keys_seq().len(),
            self.keys_seq() == prev.keys_seq(),
            self.arrays@.len() == prev.arrays@.len(),
            forall|j: int| 0 <= j < prev.arrays@.len() && j != i ==> self.arrays@[j] == prev.arrays@[j],
        ensures
            self.wf(),
            forall|c: Component|
                prev.is_registered(c) && c != prev.keys_seq()[i] ==> self.array(c) == prev.array(c),
            self.array(self.keys_seq()[i]) == self.arrays@[i]@,
    {
        assert forall|c: Component|
            prev.is_registered(c) && c != prev.keys_seq()[i] implies self.array(c) == prev.array(
            c,
        ) by {
            let j = prev.keys_seq().index_of(c);
            assert(prev.keys_seq()[j] == c);
            assert(j != i);
        }
        self.lemma_key_index(i);
    }

    /// Removes every component value the entity holds, in every registered
    /// array.
    pub fn remove_components(&mut self, entity: &Entity) -> (r: Result<(), Error>)
        requires
            old(self).wf(),
        ensures
            final(self).wf(),
            r is Ok,
            final(self).keys_seq() == old(self).keys_seq(),
            forall|c: Component|
                old(self).is_registered(c) ==> final(self).array(c) == old(self).array(c).remove(
                    entity@,
                ),
    {
        let n = self.arrays.len();
        let mut i: usize = 0;
        while i < n
            invariant
                self.wf(),
                n == self.arrays@.len(),
                i <= n,
                self.keys_seq() == old(self).keys_seq(),
                forall|j: int| 0 <= j < i ==> self.arrays@[j]@ == old(self).arrays@[j]@.remove(entity@),
                forall|j: int| i <= j < n ==> self.arrays@[j] == old(self).arrays@[j],
            decreases n - i,
        {
            let arr = &mut self.arrays[i];
            arr.remove(&entity.id);
            i += 1;
        }
        proof {
            assert forall|c: Component| old(self).is_registered(c) implies self.array(c) == old(
                self,
            ).array(c).remove(entity@) by {
                let j = old(self).keys_seq().index_of(c);
                assert(old(self).keys_seq()[j] == c);
            }
        }
        Ok(())
    }

    /// Checks whether an entity holds a value for every listed component
    /// type. Fails with `ComponentNotRegistered` iff any listed key is
    /// unregistered, wherever it stands in the list.
    pub fn has_components(&self, entity: &Entity, components: &Vec<Component>) -> (r: Result<
        bool,
        Error,
    >)
        requires
            self.wf(),
        ensures
            match self.spec_has_components(entity@, components@) {
                Ok(b) => r matches Ok(rb) && rb == b,
                Err(kind) => r matches Err(e) && e.kind_spec() == kind,
            },
    {
        let mut i: usize = 0;
        while i < components.len()
            invariant
                self.wf(),
                i <= components@.len(),
                forall|j: int| 0 <= j < i ==> self.is_registered(#[trigger] components@[j]),
            decreases components@.len() - i,
        {
            if self.find_key(components[i]).is_none() {
                return Err(Error::new(ErrorKind::ComponentNotRegistered));
            }
            i += 1;
        }
        let mut i: usize = 0;
        while i < components.len()
            invariant
                self.wf(),
                i <= components@.len(),
                self.all_registered(components@),
                forall|j: int|
                    0 <= j < i ==> self.array(#[trigger] components@[j]).contains_key(entity@),
            decreases components@.len() - i,
        {
            let c = components[i];
            let idx = match self.find_key(c) {
                Some(idx) => idx,
                None => {
                    proof {
                        assert(false);
                    }
                    0
                },
            };
            if !self.arrays[idx].contains_key(&entity.id) {
                proof {
                    assert(!self.array(c).contains_key(entity@));
                }
                return Ok(false);
            }
            i += 1;
        }
        Ok(true)
    }

    /// Retrieves a reference to the component value an entity holds for a
    /// component type. Fails with `ComponentNotRegistered` if the type is
    /// unknown, and with `EntityDoesNotOwnComponent` if the entity holds no
    /// value of it.
    pub fn get_component(&self, entity: &Entity, component_type: Component) -> (r: Result<
        &V,
        Error,
    >)
        requires
            self.wf(),
        ensures
            !self.is_registered(component_type) ==> (r matches Err(e) && e.kind_spec()
                == ErrorKind::ComponentNotRegistered),
            self.is_registered(component_type) && !self.array(component_type).contains_key(entity@)
                ==> (r matches Err(e) && e.kind_spec() == ErrorKind::EntityDoesNotOwnComponent),
            self.is_registered(component_type) && self.array(component_type).contains_key(entity@)
                ==> (r matches Ok(v) && *v == self.array(component_type)[entity@]),
    {
        match self.find_key(component_type) {
            Some(i) => {
                match self.arrays[i].get(&entity.id) {
                    Some(v) => Ok(v),
                    None => Err(Error::new(ErrorKind::EntityDoesNotOwnComponent)),
                }
            },
            None => Err(Error::new(ErrorKind::ComponentNotRegistered)),
        }
    }
}

/// A query through an unregistered component type always fails, never
/// silently succeeds: if any listed key is unregistered, `has_components`
/// reports `ComponentNotRegistered`.
pub proof fn lemma_unregistered_never_succeeds<V>(
    cm: ComponentManager<V>,
    id: u32,
    components: Seq<u64>,
    c: u64,
)
    requires
        cm.wf(),
        components.contains(c),
        !cm.is_registered(c),
    ensures
        cm.spec_has_components(id, components) == Err::<bool, ErrorKind>(
            ErrorKind::ComponentNotRegistered,
        ),
{
    let j = choose|j: int| 0 <= j < components.len() && components[j] == c;
    assert(!cm.is_registered(components[j]));
}

} // verus!
