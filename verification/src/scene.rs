use vstd::prelude::*;

use crate::component::{Component, ComponentManager};
use crate::entity::{Entity, EntityManager};
use crate::err::{Error, ErrorKind};

verus! {

broadcast use crate::entity::lemma_entity_view;

/// A scene handle, unique per scene manager.
#[derive(Clone, Copy, Debug, PartialEq, Eq, Hash, Structural)]
pub struct Scene {
    pub(crate) id: u32,
}

impl View for Scene {
    type V = u32;

    closed spec fn view(&self) -> u32 {
        self.id
    }
}


/// The state owned by one scene: its entities, their components, and the
/// entities marked for deferred destruction.
///
/// Destruction is deferred: `destroy_entity` only marks an entity, and the
/// end-of-tick `cull_entities` step removes every marked entity from every
/// component array and returns its id to the free pool.
pub struct SceneState<V> {
    entity_manager: EntityManager,
    component_manager: ComponentManager<V>,
    entities_to_kill: Vec<u32>,
}

/// `m` with every id in `ids` removed, oldest mark first.
pub open spec fn spec_remove_ids<V>(m: Map<u32, V>, ids: Seq<u32>) -> Map<u32, V>
    decreases ids.len(),
{
    if ids.len() == 0 {
        m
    } else {
        spec_remove_ids(m.remove(ids.first()), ids.drop_first())
    }
}

impl<V> SceneState<V> {
    /// The entity registry of this scene.
    pub closed spec fn em(&self) -> EntityManager {
        self.entity_manager
    }

    /// The component store of this scene.
    pub closed spec fn cm(&self) -> ComponentManager<V> {
        self.component_manager
    }

    /// The ids marked for destruction, in marking order.
    pub closed spec fn kill_list(&self) -> Seq<u32> {
        self.entities_to_kill@
    }

    /// Whether an entity id is currently live in this scene.
    pub open spec fn is_live(&self, id: u32) -> bool {
        self.em().is_live(id)
    }

    /// Whether a component type key is registered in this scene.
    pub open spec fn is_registered(&self, component: Component) -> bool {
        self.cm().is_registered(component)
    }

    /// The backing array of a registered component type.
    pub open spec fn array(&self, component: Component) -> Map<u32, V> {
        self.cm().array(component)
    }

    /// Validity of the scene: both managers are valid, and the kill marks
    /// name live entities, each at most once.
    pub open spec fn wf(&self) -> bool {
        &&& self.em().wf()
        &&& self.cm().wf()
        &&& self.kill_list().no_duplicates()
        &&& forall|i: int| 0 <= i < self.kill_list().len() ==> self.em().is_live(#[trigger] self.kill_list()[i])
    }

    pub fn new() -> (r: Self)
        ensures
            r.wf(),
            r.em().next_id() == 0,
            r.em().dead() == Seq::<u32>::empty(),
            forall|c: Component| !r.is_registered(c),
            r.kill_list() == Seq::<u32>::empty(),
    {
        SceneState {
            entity_manager: EntityManager::new(),
            component_manager: ComponentManager::new(),
            entities_to_kill: Vec::new(),
        }
    }

    /// Creates a new entity in the scene and returns a handle to it.
    ///
    /// Freed ids are reused first-in-first-out before any new id; fails
    /// with `EntityMaxReached` once the id space is exhausted.
    pub fn create_entity(&mut self) -> (r: Result<Entity, Error>)
        requires
            old(self).wf(),
        ensures
            final(self).wf(),
            final(self).cm() == old(self).cm(),
            final(self).kill_list() == old(self).kill_list(),
            (final(self).em().next_id(), final(self).em().dead()) == crate::entity::spec_create(
                old(self).em().next_id(),
                old(self).em().dead(),
            ),
            match (r, crate::entity::spec_create_result(
                old(self).em().next_id(),
                old(self).em().dead(),
            )) {
                (Ok(e), Ok(id)) => e@ == id,
                (Err(e), Err(kind)) => e.kind_spec() == kind,
                _ => false,
            },
    {
        let r = self.entity_manager.create_entity();
        proof {
            let od = old(self).em().dead();
            if od.len() > 0 {
                assert forall|i: int|
                    0 <= i < self.kill_list().len() implies self.em().is_live(
                    #[trigger] self.kill_list()[i],
                ) by {
                    let id = self.kill_list()[i];
                    assert(!od.contains(id));
                    if od.drop_first().contains(id) {
                        let j = choose|j: int|
                            0 <= j < od.drop_first().len() && od.drop_first()[j] == id;
                        assert(od[j + 1] == id);
                    }
                }
            }
        }
        r
    }

    /// Marks a live entity for destruction at the next cull; marking an
    /// entity twice has no further effect. Fails with `EntityDoesNotExist`
    /// if the entity is not live.
    pub fn destroy_entity(&mut self, entity: Entity) -> (r: Result<(), Error>)
        requires
            old(self).wf(),
        ensures
            final(self).wf(),
            final(self).em() == old(self).em(),
            final(self).cm() == old(self).cm(),
            old(self).is_live(entity@) ==> {
                &&& r is Ok
                &&& final(self).kill_list() == if old(self).kill_list().contains(entity@) {
                    old(self).kill_list()
                } else {
                    old(self).kill_list().push(entity@)
                }
            },
            !old(self).is_live(entity@) ==> {
                &&& r matches Err(e) && e.kind_spec() == ErrorKind::EntityDoesNotExist
                &&& final(self).kill_list() == old(self).kill_list()
            },
    {
        if self.entity_manager.does_entity_exist(&entity) {
            if !contains_id(&self.entities_to_kill, entity.id) {
                self.entities_to_kill.push(entity.id);
            }
            Ok(())
        } else {
            Err(Error::new(ErrorKind::EntityDoesNotExist))
        }
    }

    /// Handles to all currently living entities in the scene, in increasing
    /// id order.
    pub fn get_living_entities(&self) -> (r: Vec<Entity>)
        requires
            self.wf(),
        ensures
            r@.map_values(|e: Entity| e@) == self.em().living(),
    {
        self.entity_manager.get_living_entities()
    }

    /// Destroys every marked entity: removes it from every registered
    /// component array and returns its id to the free pool, in marking
    /// order. Afterwards no marked id is live or owns any component.
    pub fn cull_entities(&mut self) -> (r: Result<(), Error>)
        requires
            old(self).wf(),
        ensures
            final(self).wf(),
            r is Ok,
            final(self).kill_list() == Seq::<u32>::empty(),
            final(self).em().next_id() == old(self).em().next_id(),
            final(self).em().dead() == old(self).em().dead() + old(self).kill_list(),
            final(self).cm().keys_seq() == old(self).cm().keys_seq(),
            forall|c: Component|
                old(self).is_registered(c) ==> final(self).array(c) == spec_remove_ids(
                    old(self).array(c),
                    old(self).kill_list(),
                ),
            forall|i: int|
                0 <= i < old(self).kill_list().len() ==> !final(self).is_live(
                    #[trigger] old(self).kill_list()[i],
                ),
            forall|i: int, c: Component|
                0 <= i < old(self).kill_list().len() && old(self).is_registered(c)
                    ==> !(#[trigger] final(self).array(c).contains_key(old(self).kill_list()[i])),
    {
        let ghost marks = old(self).kill_list();
        let mut kill: Vec<u32> = Vec::new();
        core::mem::swap(&mut kill, &mut self.entities_to_kill);
        let n = kill.len();
        let mut i: usize = 0;
        while i < n
            invariant
                n == marks.len(),
                kill@ == marks,
                i <= n,
                self.kill_list() == Seq::<u32>::empty(),
                self.em().wf(),
                self.cm().wf(),
                self.em().next_id() == old(self).em().next_id(),
                self.em().dead() == old(self).em().dead() + marks.take(i as int),
                self.cm().keys_seq() == old(self).cm().keys_seq(),
                old(self).em().wf(),
                marks.no_duplicates(),
                forall|j: int| 0 <= j < n ==> old(self).em().is_live(#[trigger] marks[j]),
                forall|c: Component|
                    old(self).is_registered(c) ==> self.array(c) == spec_remove_ids(
                        old(self).array(c),
                        marks.take(i as int),
                    ),
            decreases n - i,
        {
            let id = kill[i];
            let entity = Entity { id };
            let ghost prev = *self;
            let _ = self.component_manager.remove_components(&entity);
            proof {
                assert forall|c: Component| old(self).is_registered(c) implies self.array(c)
                    == spec_remove_ids(old(self).array(c), marks.take(i as int + 1)) by {
                    lemma_spec_remove_ids_snoc(old(self).array(c), marks.take(i as int), marks[i as int]);
                    assert(marks.take(i as int + 1) =~= marks.take(i as int).push(marks[i as int]));
                    assert(self.array(c) == prev.array(c).remove(id));
                }
                // the id is still live here: it was not freed by the
                // earlier iterations, whose ids are all distinct from it
                assert(!old(self).em().dead().contains(id));
                if marks.take(i as int).contains(id) {
                    let j = choose|j: int| 0 <= j < i && marks.take(i as int)[j] == id;
                    assert(marks[j] == id);
                }
                if self.em().dead().contains(id) {
                    let j = choose|j: int|
                        0 <= j < self.em().dead().len() && self.em().dead()[j] == id;
                    if j < old(self).em().dead().len() {
                        assert(old(self).em().dead()[j] == id);
                    } else {
                        assert(marks.take(i as int)[j - old(self).em().dead().len()] == id);
                    }
                }
                assert(self.em().is_live(id));
            }
            self.entity_manager.destroy_entity(entity);
            proof {
                assert(self.em().dead() =~= old(self).em().dead() + marks.take(i as int + 1));
            }
            i += 1;
        }
        proof {
            assert(marks.take(n as int) =~= marks);
            assert forall|j: int| 0 <= j < marks.len() implies !self.em().is_live(
                #[trigger] marks[j],
            ) by {
                assert(self.em().dead()[old(self).em().dead().len() + j] == marks[j]);
            }
            assert forall|j: int, c: Component|
                0 <= j < marks.len() && old(self).is_registered(c) implies !(
            #[trigger] self.array(c).contains_key(marks[j])) by {
                lemma_spec_remove_ids_removes(old(self).array(c), marks, marks[j]);
            }
        }
        Ok(())
    }

    /// Registers a component type for use in the scene and returns its key;
    /// idempotent, as in the component store.
    pub fn register_component(&mut self, type_id: u64) -> (key: Component)
        requires
            old(self).wf(),
        ensures
            final(self).wf(),
            final(self).em() == old(self).em(),
            final(self).kill_list() == old(self).kill_list(),
            key == type_id,
            final(self).is_registered(type_id),
            old(self).is_registered(type_id) ==> final(self).cm() == old(self).cm(),
            !old(self).is_registered(type_id) ==> {
                &&& final(self).cm().keys_seq() == old(self).cm().keys_seq().push(type_id)
                &&& final(self).array(type_id) == Map::<u32, V>::empty()
                &&& forall|c: Component|
                    old(self).is_registered(c) ==> final(self).array(c) == old(self).array(c)
            },
    {
        self.component_manager.register_component(type_id)
    }

    /// Adds a component value to a live entity, replacing the current value
    /// if the entity already holds one. Fails with `EntityDoesNotExist` if
    /// the entity is not live, and with `ComponentNotRegistered` if the
    /// component type is unknown.
    pub fn add_component(&mut self, entity: &Entity, component_type: Component, value: V) -> (r:
        Result<(), Error>)
        requires
            old(self).wf(),
        ensures
            final(self).wf(),
            final(self).em() == old(self).em(),
            final(self).kill_list() == old(self).kill_list(),
            final(self).cm().keys_seq() == old(self).cm().keys_seq(),
            !old(self).is_live(entity@) ==> {
                &&& r matches Err(e) && e.kind_spec() == ErrorKind::EntityDoesNotExist
                &&& final(self).cm() == old(self).cm()
            },
            old(self).is_live(entity@) && !old(self).is_registered(component_type) ==> {
                &&& r matches Err(e) && e.kind_spec() == ErrorKind::ComponentNotRegistered
                &&& final(self).cm() == old(self).cm()
            },
            old(self).is_live(entity@) && old(self).is_registered(component_type) ==> {
                &&& r is Ok
                &&& final(self).array(component_type) == old(self).array(component_type).insert(
                    entity@,
                    value,
                )
                &&& forall|c: Component|
                    old(self).is_registered(c) && c != component_type ==> final(self).array(c)
                        == old(self).array(c)
            },
    {
        if self.entity_manager.does_entity_exist(entity) {
            self.component_manager.add_component(entity, component_type, value)
        } else {
            Err(Error::new(ErrorKind::EntityDoesNotExist))
        }
    }

    /// Removes a component value from a live entity if it holds one. Fails
    /// with `EntityDoesNotExist` if the entity is not live, and with
    /// `ComponentNotRegistered` if the component type is unknown.
    pub fn remove_component(&mut self, entity: &Entity, component_type: Component) -> (r: Result<
        (),
        Error,
    >)
        requires
            old(self).wf(),
        ensures
            final(self).wf(),
            final(self).em() == old(self).em(),
            final(self).kill_list() == old(self).kill_list(),
            final(self).cm().keys_seq() == old(self).cm().keys_seq(),
            !old(self).is_live(entity@) ==> {
                &&& r matches Err(e) && e.kind_spec() == ErrorKind::EntityDoesNotExist
                &&& final(self).cm() == old(self).cm()
            },
            old(self).is_live(entity@) && !old(self).is_registered(component_type) ==> {
                &&& r matches Err(e) && e.kind_spec() == ErrorKind::ComponentNotRegistered
                &&& final(self).cm() == old(self).cm()
            },
            old(self).is_live(entity@) && old(self).is_registered(component_type) ==> {
                &&& r is Ok
                &&& final(self).array(component_type) == old(self).array(component_type).remove(
                    entity@,
                )
                &&& forall|c: Component|
                    old(self).is_registered(c) && c != component_type ==> final(self).array(c)
                        == old(self).array(c)
            },
    {
        if self.entity_manager.does_entity_exist(entity) {
            self.component_manager.remove_component(entity, component_type)
        } else {
            Err(Error::new(ErrorKind::EntityDoesNotExist))
        }
    }

    /// Retrieves a reference to the component value an entity holds. Fails
    /// with `ComponentNotRegistered` if the type is unknown, and with
    /// `EntityDoesNotOwnComponent` if the entity holds no value of it.
    pub fn get_component(&self, entity: &Entity, component_type: Component) -> (r: Result<
        &V,
        Error,
    >)
        requires
            self.wf(),
        ensures
            !self.is_registered(component_type) ==> (r matches Err(e) && e.kind_spec()
                == ErrorKind::ComponentNotRegistered),
            self.is_registered(component_type) && !self.array(component_type).contains_key(entity@)
                ==> (r matches Err(e) && e.kind_spec() == ErrorKind::EntityDoesNotOwnComponent),
            self.is_registered(component_type) && self.array(component_type).contains_key(entity@)
                ==> (r matches Ok(v) && *v == self.array(component_type)[entity@]),
    {
        self.component_manager.get_component(entity, component_type)
    }

    /// Checks whether an entity holds a value for every listed component
    /// type; fails with `ComponentNotRegistered` iff any listed key is
    /// unregistered.
    pub fn has_components(&self, entity: &Entity, components: &Vec<Component>) -> (r: Result<
        bool,
        Error,
    >)
        requires
            self.wf(),
        ensures
            match self.cm().spec_has_components(entity@, components@) {
                Ok(b) => r matches Ok(rb) && rb == b,
                Err(kind) => r matches Err(e) && e.kind_spec() == kind,
            },
    {
        self.component_manager.has_components(entity, components)
    }
}

/// Owns every scene of one engine run: issues scene handles, tracks which
/// scene is current, and performs the deferred swap to a newly selected
/// scene, running the outgoing scene's exit pass and the incoming scene's
/// entry pass.
pub struct SceneManager<V, S> {
    next_scene_id: u32,
    scene_ids: Vec<u32>,
    states: Vec<SceneState<V>>,
    managers: Vec<crate::system::SystemManager<S>>,
    current_scene: Option<u32>,
    next_scene: Option<u32>,
}

/// Which lifecycle pass a scene runs.
#[derive(Clone, Copy)]
enum ScenePass {
    Entry,
    Exit,
    Frame(bool, u64),
}

impl<V, S> SceneManager<V, S> {
    /// The issued scene ids, in creation order.
    pub closed spec fn ids_seq(&self) -> Seq<u32> {
        self.scene_ids@
    }

    /// The scene id counter: every issued id is below it.
    pub closed spec fn next_id(&self) -> u32 {
        self.next_scene_id
    }

    /// The state of the scene at position `i`.
    pub closed spec fn state_of(&self, i: int) -> SceneState<V> {
        self.states@[i]
    }

    /// The system manager of the scene at position `i`.
    pub closed spec fn manager_of(&self, i: int) -> crate::system::SystemManager<S> {
        self.managers@[i]
    }

    /// The id of the current scene, if one is set.
    pub closed spec fn current_spec(&self) -> Option<u32> {
        self.current_scene
    }

    /// The id of the scene selected to become current at the next swap.
    pub closed spec fn next_spec(&self) -> Option<u32> {
        self.next_scene
    }

    pub open spec fn num_scenes(&self) -> int {
        self.ids_seq().len() as int
    }

    /// Whether a scene id has been issued.
    pub open spec fn scene_exists(&self, id: u32) -> bool {
        self.ids_seq().contains(id)
    }

    /// Validity of the manager: one state and one system manager per
    /// issued id, no id issued twice, every issued id below the counter,
    /// every scene valid, and current and next naming issued scenes only.
    pub open spec fn wf(&self) -> bool {
        &&& self.ids_seq().no_duplicates()
        &&& self.states_len() == self.num_scenes()
        &&& self.managers_len() == self.num_scenes()
        &&& forall|i: int| 0 <= i < self.num_scenes() ==> (#[trigger] self.ids_seq()[i]) < self.next_id()
        &&& forall|i: int| 0 <= i < self.num_scenes() ==> (#[trigger] self.state_of(i)).wf()
        &&& forall|i: int| 0 <= i < self.num_scenes() ==> (#[trigger] self.manager_of(i)).wf()
        &&& (self.current_spec() matches Some(id) ==> self.scene_exists(id))
        &&& (self.next_spec() matches Some(id) ==> self.scene_exists(id))
    }

    pub closed spec fn states_len(&self) -> int {
        self.states@.len() as int
    }

    pub closed spec fn managers_len(&self) -> int {
        self.managers@.len() as int
    }

    /// Whether every system of the scene at position `i` has a fully
    /// registered signature, so its lifecycle passes may run.
    pub open spec fn systems_registered(&self, i: int) -> bool {
        forall|k: int|
            0 <= k < self.manager_of(i).sys().num_systems() ==> self.state_of(
                i,
            ).cm().all_registered(#[trigger] self.manager_of(i).sys().signature_of(k))
    }

    pub fn new() -> (r: Self)
        ensures
            r.wf(),
            r.ids_seq() == Seq::<u32>::empty(),
            r.next_id() == 0,
            r.current_spec() is None,
            r.next_spec() is None,
    {
        SceneManager {
            next_scene_id: 0,
            scene_ids: Vec::new(),
            states: Vec::new(),
            managers: Vec::new(),
            current_scene: None,
            next_scene: None,
        }
    }

    /// Creates a new, empty scene and returns its handle. Fails with
    /// `SceneMaxReached` once the scene id space is exhausted.
    pub fn create_scene(&mut self) -> (r: Result<Scene, Error>)
        requires
            old(self).wf(),
        ensures
            final(self).wf(),
            final(self).current_spec() == old(self).current_spec(),
            final(self).next_spec() == old(self).next_spec(),
            old(self).next_id() == u32::MAX ==> {
                &&& r matches Err(e) && e.kind_spec() == ErrorKind::SceneMaxReached
                &&& *final(self) == *old(self)
            },
            old(self).next_id() < u32::MAX ==> {
                &&& r matches Ok(s) && s@ == old(self).next_id()
                &&& final(self).next_id() == old(self).next_id() + 1
                &&& final(self).ids_seq() == old(self).ids_seq().push(old(self).next_id())
                &&& final(self).state_of(old(self).num_scenes()).em().next_id() == 0
                &&& final(self).state_of(old(self).num_scenes()).kill_list() == Seq::<u32>::empty()
                &&& forall|c: Component|
                    !final(self).state_of(old(self).num_scenes()).is_registered(c)
                &&& final(self).manager_of(old(self).num_scenes()).sys().ids_seq() == Seq::<
                    u64,
                >::empty()
                &&& forall|i: int|
                    0 <= i < old(self).num_scenes() ==> final(self).state_of(i) == old(
                        self,
                    ).state_of(i) && final(self).manager_of(i) == old(self).manager_of(i)
            },
    {
        if self.next_scene_id == u32::MAX {
            Err(Error::new(ErrorKind::SceneMaxReached))
        } else {
            let handle = Scene { id: self.next_scene_id };
            let st = SceneState::new();
            let mg = crate::system::SystemManager::new();
            let ghost gst = st;
            let ghost gmg = mg;
            self.next_scene_id = self.next_scene_id + 1;
            self.scene_ids.push(handle.id);
            self.states.push(st);
            self.managers.push(mg);
            proof {
                let n = old(self).num_scenes();
                assert(self.state_of(n) == gst);
                assert(self.manager_of(n) == gmg);
                assert forall|i: int, j: int|
                    0 <= i < j < self.ids_seq().len() implies self.ids_seq()[i]
                    != self.ids_seq()[j] by {
                    if j == n {
                        assert(old(self).ids_seq()[i] < old(self).next_id());
                    }
                }
                assert forall|i: int| 0 <= i < self.num_scenes() implies (
                #[trigger] self.state_of(i)).wf() by {
                    if i < n {
                        assert(self.state_of(i) == old(self).state_of(i));
                    }
                }
                assert forall|i: int| 0 <= i < self.num_scenes() implies (
                #[trigger] self.manager_of(i)).wf() by {
                    if i < n {
                        assert(self.manager_of(i) == old(self).manager_of(i));
                    }
                }
                if let Some(id) = old(self).current_spec() {
                    let i = choose|i: int|
                        0 <= i < old(self).ids_seq().len() && old(self).ids_seq()[i] == id;
                    assert(self.ids_seq()[i] == id);
                }
                if let Some(id) = old(self).next_spec() {
                    let i = choose|i: int|
                        0 <= i < old(self).ids_seq().len() && old(self).ids_seq()[i] == id;
                    assert(self.ids_seq()[i] == id);
                }
            }
            Ok(handle)
        }
    }

    /// A manager with the same scenes as a valid one, scene by scene, and
    /// whose current and next ids name issued scenes, is valid too.
    proof fn lemma_wf_transfer(&self, prev: &SceneManager<V, S>)
        requires
            prev.wf(),
            self.ids_seq() == prev.ids_seq(),
            self.next_id() == prev.next_id(),
            self.states_len() == prev.states_len(),
            self.managers_len() == prev.managers_len(),
            forall|i: int|
                0 <= i < prev.num_scenes() ==> #[trigger] self.state_of(i) == prev.state_of(i),
            forall|i: int|
                0 <= i < prev.num_scenes() ==> #[trigger] self.manager_of(i) == prev.manager_of(i),
            (self.current_spec() matches Some(id) ==> self.scene_exists(id)),
            (self.next_spec() matches Some(id) ==> self.scene_exists(id)),
        ensures
            self.wf(),
    {
        assert forall|i: int| 0 <= i < self.num_scenes() implies (#[trigger] self.state_of(
            i,
        )).wf() by {
            assert(self.state_of(i) == prev.state_of(i));
        }
        assert forall|i: int| 0 <= i < self.num_scenes() implies (#[trigger] self.manager_of(
            i,
        )).wf() by {
            assert(self.manager_of(i) == prev.manager_of(i));
        }
    }

    /// The position of an issued scene id in the id list.
    pub closed spec fn scene_index(&self, id: u32) -> int {
        self.scene_ids@.index_of(id)
    }

    /// In a valid manager, the position of an issued id in the id list is
    /// the one `index_of` picks.
    proof fn lemma_scene_index(&self, i: int)
        requires
            self.wf(),
            0 <= i < self.num_scenes(),
        ensures
            self.scene_index(self.ids_seq()[i]) == i,
    {
        let id = self.ids_seq()[i];
        assert(self.ids_seq().contains(id));
        let j = self.scene_ids@.index_of(id);
        assert(0 <= j < self.ids_seq().len() && self.ids_seq()[j] == id);
    }

    /// The position of an issued scene id.
    fn find_scene(&self, id: u32) -> (r: Option<usize>)
        requires
            self.wf(),
        ensures
            match r {
                Some(i) => {
                    &&& i < self.num_scenes()
                    &&& self.ids_seq()[i as int] == id
                    &&& self.scene_index(id) == i
                    &&& self.scene_exists(id)
                },
                None => !self.scene_exists(id),
            },
    {
        let mut i: usize = 0;
        while i < self.scene_ids.len()
            invariant
                self.wf(),
                i <= self.ids_seq().len(),
                forall|j: int| 0 <= j < i ==> self.ids_seq()[j] != id,
            decreases self.ids_seq().len() - i,
        {
            if self.scene_ids[i] == id {
                proof {
                    self.lemma_scene_index(i as int);
                }
                return Some(i);
            }
            i += 1;
        }
        None
    }

    /// Checks whether a scene exists.
    pub fn does_scene_exist(&self, scene: &Scene) -> (r: bool)
        requires
            self.wf(),
        ensures
            r == self.scene_exists(scene@),
    {
        self.find_scene(scene.id).is_some()
    }

    /// A mutable borrow of the state of a scene, through which entities
    /// and components are set up and inspected. Fails with
    /// `SceneDoesNotExist` if the scene was never created.
    pub fn get_scene(&mut self, scene: &Scene) -> (r: Result<&mut SceneState<V>, Error>)
        requires
            old(self).wf(),
        ensures
            !old(self).scene_exists(scene@) ==> {
                &&& r matches Err(e) && e.kind_spec() == ErrorKind::SceneDoesNotExist
                &&& *final(self) == *old(self)
            },
            old(self).scene_exists(scene@) ==> (r matches Ok(st) && ({
                let i = old(self).scene_index(scene@);
                &&& 0 <= i < old(self).num_scenes()
                &&& old(self).ids_seq()[i] == scene@
                &&& *st == old(self).state_of(i)
                &&& final(self).states_len() == old(self).states_len()
                &&& final(self).state_of(i) == *final(st)
                &&& forall|j: int|
                    0 <= j < old(self).num_scenes() && j != i ==> final(self).state_of(j) == old(
                        self,
                    ).state_of(j)
                &&& final(self).ids_seq() == old(self).ids_seq()
                &&& final(self).next_id() == old(self).next_id()
                &&& final(self).current_spec() == old(self).current_spec()
                &&& final(self).next_spec() == old(self).next_spec()
                &&& forall|j: int|
                    0 <= j < old(self).num_scenes() ==> final(self).manager_of(j) == old(
                        self,
                    ).manager_of(j)
            })),
    {
        let i = match self.find_scene(scene.id) {
            Some(i) => i,
            None => {
                return Err(Error::new(ErrorKind::SceneDoesNotExist));
            },
        };
        Ok(crate::system::sys_index_mut(&mut self.states, i))
    }

    /// A mutable borrow of the system manager of a scene, through which
    /// the scene's systems are registered. Fails with `SceneDoesNotExist`
    /// if the scene was never created.
    pub fn get_scene_systems(&mut self, scene: &Scene) -> (r: Result<
        &mut crate::system::SystemManager<S>,
        Error,
    >)
        requires
            old(self).wf(),
        ensures
            !old(self).scene_exists(scene@) ==> {
                &&& r matches Err(e) && e.kind_spec() == ErrorKind::SceneDoesNotExist
                &&& *final(self) == *old(self)
            },
            old(self).scene_exists(scene@) ==> (r matches Ok(mg) && ({
                let i = old(self).scene_index(scene@);
                &&& 0 <= i < old(self).num_scenes()
                &&& old(self).ids_seq()[i] == scene@
                &&& *mg == old(self).manager_of(i)
                &&& final(self).managers_len() == old(self).managers_len()
                &&& final(self).manager_of(i) == *final(mg)
                &&& forall|j: int|
                    0 <= j < old(self).num_scenes() && j != i ==> final(self).manager_of(j) == old(
                        self,
                    ).manager_of(j)
                &&& final(self).ids_seq() == old(self).ids_seq()
                &&& final(self).next_id() == old(self).next_id()
                &&& final(self).current_spec() == old(self).current_spec()
                &&& final(self).next_spec() == old(self).next_spec()
                &&& forall|j: int|
                    0 <= j < old(self).num_scenes() ==> final(self).state_of(j) == old(
                        self,
                    ).state_of(j)
            })),
    {
        let i = match self.find_scene(scene.id) {
            Some(i) => i,
            None => {
                return Err(Error::new(ErrorKind::SceneDoesNotExist));
            },
        };
        Ok(crate::system::sys_index_mut(&mut self.managers, i))
    }

    /// The handle of the current scene. Fails with `NoCurrentScene` if no
    /// scene has been swapped in yet.
    pub fn get_current_scene(&self) -> (r: Result<Scene, Error>)
        requires
            self.wf(),
        ensures
            match self.current_spec() {
                Some(id) => r matches Ok(s) && s@ == id,
                None => r matches Err(e) && e.kind_spec() == ErrorKind::NoCurrentScene,
            },
    {
        match self.current_scene {
            Some(id) => Ok(Scene { id }),
            None => Err(Error::new(ErrorKind::NoCurrentScene)),
        }
    }

    /// Selects the scene to become current at the next swap. Fails with
    /// `SceneDoesNotExist` if the scene was never created.
    pub fn set_current_scene(&mut self, scene: &Scene) -> (r: Result<(), Error>)
        requires
            old(self).wf(),
        ensures
            final(self).wf(),
            old(self).scene_exists(scene@) ==> {
                &&& r is Ok
                &&& final(self).next_spec() == Some(scene@)
                &&& final(self).current_spec() == old(self).current_spec()
                &&& final(self).ids_seq() == old(self).ids_seq()
                &&& forall|j: int|
                    0 <= j < old(self).num_scenes() ==> final(self).state_of(j) == old(
                        self,
                    ).state_of(j) && final(self).manager_of(j) == old(self).manager_of(j)
            },
            !old(self).scene_exists(scene@) ==> {
                &&& r matches Err(e) && e.kind_spec() == ErrorKind::SceneDoesNotExist
                &&& *final(self) == *old(self)
            },
    {
        if self.does_scene_exist(scene) {
            self.next_scene = Some(scene.id);
            proof {
                self.lemma_wf_transfer(old(self));
            }
            Ok(())
        } else {
            Err(Error::new(ErrorKind::SceneDoesNotExist))
        }
    }
    /// Runs one lifecycle pass over the scene at position `i`.
    fn run_scene_pass(&mut self, i: usize, pass: ScenePass) where S: crate::system::System<V>
        requires
            old(self).wf(),
            i < old(self).num_scenes(),
            old(self).systems_registered(i as int),
        ensures
            final(self).wf(),
            final(self).ids_seq() == old(self).ids_seq(),
            final(self).next_id() == old(self).next_id(),
            final(self).current_spec() == old(self).current_spec(),
            final(self).next_spec() == old(self).next_spec(),
            final(self).states_len() == old(self).states_len(),
            final(self).managers_len() == old(self).managers_len(),
            forall|j: int|
                0 <= j < old(self).num_scenes() && j != i ==> (#[trigger] final(self).state_of(j))
                    == old(self).state_of(j),
            forall|j: int|
                0 <= j < old(self).num_scenes() && j != i ==> (#[trigger] final(self).manager_of(j))
                    == old(self).manager_of(j),
            forall|j: int|
                0 <= j < old(self).num_scenes() && old(self).systems_registered(j)
                    ==> final(self).systems_registered(j),
    {
        let mut st: SceneState<V> = SceneState::new();
        let mut mg: crate::system::SystemManager<S> = crate::system::SystemManager::new();
        core::mem::swap(&mut self.states[i], &mut st);
        core::mem::swap(&mut self.managers[i], &mut mg);
        proof {
            assert(st == old(self).state_of(i as int));
            assert(mg == old(self).manager_of(i as int));
            assert forall|k: int| 0 <= k < mg.sys().num_systems() implies st.cm().all_registered(
                #[trigger] mg.sys().signature_of(k),
            ) by {
                assert(old(self).state_of(i as int).cm().all_registered(
                    old(self).manager_of(i as int).sys().signature_of(k),
                ));
            }
        }
        match pass {
            ScenePass::Entry => mg.on_entry(&mut st),
            ScenePass::Exit => mg.on_exit(&mut st),
            ScenePass::Frame(is_physics_frame, dt_nanos) => mg.on_frame(
                &mut st,
                is_physics_frame,
                dt_nanos,
            ),
        }
        let ghost post_st = st;
        let ghost post_mg = mg;
        core::mem::swap(&mut self.states[i], &mut st);
        core::mem::swap(&mut self.managers[i], &mut mg);
        proof {
            let ii = i as int;
            assert(self.state_of(ii) == post_st);
            assert(self.manager_of(ii) == post_mg);
            assert forall|j: int| 0 <= j < self.num_scenes() implies (#[trigger] self.state_of(
                j,
            )).wf() by {
                if j != ii {
                    assert(self.state_of(j) == old(self).state_of(j));
                }
            }
            assert forall|j: int| 0 <= j < self.num_scenes() implies (#[trigger] self.manager_of(
                j,
            )).wf() by {
                if j != ii {
                    assert(self.manager_of(j) == old(self).manager_of(j));
                }
            }
            assert forall|j: int|
                0 <= j < old(self).num_scenes() && old(self).systems_registered(
                    j,
                ) implies self.systems_registered(j) by {
                if j == ii {
                    assert forall|k: int|
                        0 <= k < self.manager_of(j).sys().num_systems() implies self.state_of(
                        j,
                    ).cm().all_registered(#[trigger] self.manager_of(j).sys().signature_of(k)) by {
                        let sig = self.manager_of(j).sys().signature_of(k);
                        assert(sig == old(self).manager_of(j).sys().signature_of(k));
                        assert(old(self).state_of(j).cm().all_registered(sig));
                        assert forall|m: int| 0 <= m < sig.len() implies self.state_of(
                            j,
                        ).cm().is_registered(#[trigger] sig[m]) by {
                            assert(old(self).state_of(j).cm().is_registered(sig[m]));
                            assert(old(self).state_of(j).is_registered(sig[m]));
                            assert(post_st.is_registered(sig[m]));
                        }
                    }
                } else {
                    assert(self.state_of(j) == old(self).state_of(j));
                    assert(self.manager_of(j) == old(self).manager_of(j));
                    assert forall|k: int|
                        0 <= k < self.manager_of(j).sys().num_systems() implies self.state_of(
                        j,
                    ).cm().all_registered(#[trigger] self.manager_of(j).sys().signature_of(k)) by {
                        assert(old(self).state_of(j).cm().all_registered(
                            old(self).manager_of(j).sys().signature_of(k),
                        ));
                    }
                }
            }
        }
    }

    /// Performs the deferred scene swap, if one is pending: the outgoing
    /// current scene (if any) runs its exit pass, the selected scene
    /// becomes current and runs its entry pass. With no swap pending this
    /// is a no-op.
    pub fn swap_scenes(&mut self) where S: crate::system::System<V>
        requires
            old(self).wf(),
            forall|i: int| 0 <= i < old(self).num_scenes() ==> old(self).systems_registered(i),
        ensures
            final(self).wf(),
            final(self).ids_seq() == old(self).ids_seq(),
            final(self).next_spec() is None,
            (old(self).next_spec() matches Some(id) ==> final(self).current_spec() == Some(id)),
            old(self).next_spec() is None ==> *final(self) == *old(self),
            forall|i: int| 0 <= i < final(self).num_scenes() ==> final(self).systems_registered(i),
            old(self).next_spec() matches Some(id) ==> forall|j: int|
                0 <= j < old(self).num_scenes() && old(self).ids_seq()[j] != id && (match old(
                    self,
                ).current_spec() {
                    Some(c) => old(self).ids_seq()[j] != c,
                    None => true,
                }) ==> (#[trigger] final(self).state_of(j)) == old(self).state_of(j)
                    && final(self).manager_of(j) == old(self).manager_of(j),
    {
        let pending = self.next_scene;
        match pending {
            None => {},
            Some(id) => {
                self.next_scene = None;
                proof {
                    self.lemma_wf_transfer(old(self));
                    assert forall|j: int|
                        0 <= j < self.num_scenes() implies self.systems_registered(j) by {
                        assert(self.state_of(j) == old(self).state_of(j));
                        assert(self.manager_of(j) == old(self).manager_of(j));
                        assert(old(self).systems_registered(j));
                        assert forall|k: int|
                            0 <= k < self.manager_of(j).sys().num_systems() implies self.state_of(
                            j,
                        ).cm().all_registered(
                            #[trigger] self.manager_of(j).sys().signature_of(k),
                        ) by {
                            assert(old(self).state_of(j).cm().all_registered(
                                old(self).manager_of(j).sys().signature_of(k),
                            ));
                        }
                    }
                }
                let ghost after_clear = *self;
                let cur = self.current_scene;
                if let Some(cid) = cur {
                    let ci = match self.find_scene(cid) {
                        Some(i) => i,
                        None => {
                            proof {
                                assert(false);
                            }
                            0
                        },
                    };
                    self.run_scene_pass(ci, ScenePass::Exit);
                }
                proof {
                    assert forall|j: int|
                        0 <= j < self.num_scenes() implies self.systems_registered(j) by {
                        assert(after_clear.systems_registered(j));
                    }
                }
                let ghost before_current = *self;
                self.current_scene = Some(id);
                proof {
                    assert(self.scene_exists(id));
                    self.lemma_wf_transfer(&before_current);
                    assert forall|j: int|
                        0 <= j < self.num_scenes() implies self.systems_registered(j) by {
                        assert(self.state_of(j) == before_current.state_of(j));
                        assert(self.manager_of(j) == before_current.manager_of(j));
                        assert(before_current.systems_registered(j));
                        assert forall|k: int|
                            0 <= k < self.manager_of(j).sys().num_systems() implies self.state_of(
                            j,
                        ).cm().all_registered(
                            #[trigger] self.manager_of(j).sys().signature_of(k),
                        ) by {
                            assert(before_current.state_of(j).cm().all_registered(
                                before_current.manager_of(j).sys().signature_of(k),
                            ));
                        }
                    }
                }
                let ni = match self.find_scene(id) {
                    Some(i) => i,
                    None => {
                        proof {
                            assert(false);
                        }
                        0
                    },
                };
                let ghost before_entry = *self;
                self.run_scene_pass(ni, ScenePass::Entry);
                proof {
                    assert forall|j: int|
                        0 <= j < old(self).num_scenes() && old(self).ids_seq()[j] != id && (
                        match old(self).current_spec() {
                            Some(c) => old(self).ids_seq()[j] != c,
                            None => true,
                        }) implies self.state_of(j) == old(self).state_of(j) && self.manager_of(j)
                        == old(self).manager_of(j) by {
                        assert(before_entry.ids_seq()[ni as int] == id);
                        assert(self.state_of(j) == before_entry.state_of(j));
                        assert(self.manager_of(j) == before_entry.manager_of(j));
                        assert(before_entry.state_of(j) == before_current.state_of(j));
                        assert(before_entry.manager_of(j) == before_current.manager_of(j));
                        assert(before_current.state_of(j) == after_clear.state_of(j));
                        assert(before_current.manager_of(j) == after_clear.manager_of(j));
                        assert(after_clear.state_of(j) == old(self).state_of(j));
                        assert(after_clear.manager_of(j) == old(self).manager_of(j));
                    }
                }
            },
        }
    }

    /// Runs the current scene's frame pass: every system's frame callback
    /// over its matching entities, preceded by a full physics pass when
    /// `is_physics_frame` holds. Fails with `NoCurrentScene` if no scene
    /// has been swapped in.
    pub fn on_frame_current(&mut self, is_physics_frame: bool, dt_nanos: u64) -> (r: Result<
        (),
        Error,
    >) where S: crate::system::System<V>
        requires
            old(self).wf(),
            forall|i: int| 0 <= i < old(self).num_scenes() ==> old(self).systems_registered(i),
        ensures
            final(self).wf(),
            final(self).ids_seq() == old(self).ids_seq(),
            final(self).current_spec() == old(self).current_spec(),
            final(self).next_spec() == old(self).next_spec(),
            forall|i: int| 0 <= i < final(self).num_scenes() ==> final(self).systems_registered(i),
            match old(self).current_spec() {
                Some(_) => r is Ok,
                None => {
                    &&& r matches Err(e) && e.kind_spec() == ErrorKind::NoCurrentScene
                    &&& *final(self) == *old(self)
                },
            },
            old(self).current_spec() matches Some(id) ==> forall|j: int|
                0 <= j < old(self).num_scenes() && j != old(self).scene_index(id) ==> (
                #[trigger] final(self).state_of(j)) == old(self).state_of(j)
                    && final(self).manager_of(j) == old(self).manager_of(j),
    {
        let id = match self.current_scene {
            Some(id) => id,
            None => {
                return Err(Error::new(ErrorKind::NoCurrentScene));
            },
        };
        let i = match self.find_scene(id) {
            Some(i) => i,
            None => {
                proof {
                    assert(false);
                }
                0
            },
        };
        self.run_scene_pass(i, ScenePass::Frame(is_physics_frame, dt_nanos));
        proof {
            assert forall|j: int|
                0 <= j < self.num_scenes() implies self.systems_registered(j) by {
                assert(old(self).systems_registered(j));
            }
        }
        Ok(())
    }

    /// Culls the current scene: every entity marked for destruction is
    /// removed from every component array and its id returned to the free
    /// pool. Fails with `NoCurrentScene` if no scene has been swapped in.
    pub fn cull_current(&mut self) -> (r: Result<(), Error>)
        requires
            old(self).wf(),
        ensures
            final(self).wf(),
            final(self).ids_seq() == old(self).ids_seq(),
            final(self).current_spec() == old(self).current_spec(),
            final(self).next_spec() == old(self).next_spec(),
            forall|j: int|
                0 <= j < old(self).num_scenes() ==> #[trigger] final(self).manager_of(j) == old(
                    self,
                ).manager_of(j),
            match old(self).current_spec() {
                None => {
                    &&& r matches Err(e) && e.kind_spec() == ErrorKind::NoCurrentScene
                    &&& *final(self) == *old(self)
                },
                Some(id) => ({
                    let i = old(self).scene_index(id);
                    &&& r is Ok
                    &&& final(self).state_of(i).kill_list() == Seq::<u32>::empty()
                    &&& final(self).state_of(i).em().dead() == old(self).state_of(i).em().dead()
                        + old(self).state_of(i).kill_list()
                    &&& final(self).state_of(i).em().next_id() == old(self).state_of(
                        i,
                    ).em().next_id()
                    &&& final(self).state_of(i).cm().keys_seq() == old(self).state_of(
                        i,
                    ).cm().keys_seq()
                    &&& forall|c: Component|
                        old(self).state_of(i).is_registered(c) ==> final(self).state_of(i).array(
                            c,
                        ) == spec_remove_ids(
                            old(self).state_of(i).array(c),
                            old(self).state_of(i).kill_list(),
                        )
                    &&& forall|j: int|
                        0 <= j < old(self).num_scenes() && j != i ==> (
                        #[trigger] final(self).state_of(j)) == old(self).state_of(j)
                }),
            },
            forall|j: int|
                0 <= j < old(self).num_scenes() && old(self).systems_registered(j)
                    ==> final(self).systems_registered(j),
    {
        let id = match self.current_scene {
            Some(id) => id,
            None => {
                return Err(Error::new(ErrorKind::NoCurrentScene));
            },
        };
        let i = match self.find_scene(id) {
            Some(i) => i,
            None => {
                proof {
                    assert(false);
                }
                0
            },
        };
        let mut st: SceneState<V> = SceneState::new();
        core::mem::swap(&mut self.states[i], &mut st);
        proof {
            assert(st == old(self).state_of(i as int));
        }
        let _ = st.cull_entities();
        let ghost post_st = st;
        core::mem::swap(&mut self.states[i], &mut st);
        proof {
            let ii = i as int;
            assert(self.state_of(ii) == post_st);
            assert forall|j: int| 0 <= j < self.num_scenes() implies (#[trigger] self.state_of(
                j,
            )).wf() by {
                if j != ii {
                    assert(self.state_of(j) == old(self).state_of(j));
                }
            }
            assert forall|j: int| 0 <= j < self.num_scenes() implies (#[trigger] self.manager_of(
                j,
            )).wf() by {
                assert(self.manager_of(j) == old(self).manager_of(j));
            }
            assert forall|j: int|
                0 <= j < old(self).num_scenes() && old(self).systems_registered(
                    j,
                ) implies self.systems_registered(j) by {
                assert(self.manager_of(j) == old(self).manager_of(j));
                assert forall|k: int|
                    0 <= k < self.manager_of(j).sys().num_systems() implies self.state_of(
                    j,
                ).cm().all_registered(#[trigger] self.manager_of(j).sys().signature_of(k)) by {
                    let sig = self.manager_of(j).sys().signature_of(k);
                    assert(old(self).state_of(j).cm().all_registered(sig));
                    assert forall|m: int| 0 <= m < sig.len() implies self.state_of(
                        j,
                    ).cm().is_registered(#[trigger] sig[m]) by {
                        assert(old(self).state_of(j).cm().is_registered(sig[m]));
                        if j == ii {
                            assert(post_st.cm().keys_seq() == old(self).state_of(
                                j,
                            ).cm().keys_seq());
                        } else {
                            assert(self.state_of(j) == old(self).state_of(j));
                        }
                    }
                }
            }
        }
        Ok(())
    }
}

/// Checks whether `id` occurs in `v`.
fn contains_id(v: &Vec<u32>, id: u32) -> (r: bool)
    ensures
        r == v@.contains(id),
{
    let mut i: usize = 0;
    while i < v.len()
        invariant
            i <= v@.len(),
            forall|j: int| 0 <= j < i ==> v@[j] != id,
        decreases v@.len() - i,
    {
        if v[i] == id {
            return true;
        }
        i += 1;
    }
    false
}

/// Removing the ids of `ids.push(id)` is removing the ids of `ids`, then
/// `id`.
proof fn lemma_spec_remove_ids_snoc<V>(m: Map<u32, V>, ids: Seq<u32>, id: u32)
    ensures
        spec_remove_ids(m, ids.push(id)) == spec_remove_ids(m, ids).remove(id),
    decreases ids.len(),
{
    if ids.len() == 0 {
        assert(ids.push(id).first() == id);
        assert(ids.push(id).drop_first() =~= Seq::<u32>::empty());
        assert(spec_remove_ids(m.remove(id), Seq::<u32>::empty()) == m.remove(id));
        assert(spec_remove_ids(m, ids.push(id)) == m.remove(id));
    } else {
        assert(ids.push(id).first() == ids.first());
        assert(ids.push(id).drop_first() =~= ids.drop_first().push(id));
        lemma_spec_remove_ids_snoc(m.remove(ids.first()), ids.drop_first(), id);
    }
}

/// Every removed id is absent afterwards.
proof fn lemma_spec_remove_ids_removes<V>(m: Map<u32, V>, ids: Seq<u32>, id: u32)
    requires
        ids.contains(id),
    ensures
        !spec_remove_ids(m, ids).contains_key(id),
    decreases ids.len(),
{
    if ids.len() > 0 {
        if ids.first() == id {
            lemma_spec_remove_ids_stays_absent(m.remove(id), ids.drop_first(), id);
        } else {
            let j = choose|j: int| 0 <= j < ids.len() && ids[j] == id;
            assert(ids.drop_first()[j - 1] == id);
            assert(ids.drop_first().contains(id));
            lemma_spec_remove_ids_removes(m.remove(ids.first()), ids.drop_first(), id);
        }
    }
}

/// An id absent from the map stays absent however many ids are removed.
proof fn lemma_spec_remove_ids_stays_absent<V>(m: Map<u32, V>, ids: Seq<u32>, id: u32)
    requires
        !m.contains_key(id),
    ensures
        !spec_remove_ids(m, ids).contains_key(id),
    decreases ids.len(),
{
    if ids.len() > 0 {
        lemma_spec_remove_ids_stays_absent(m.remove(ids.first()), ids.drop_first(), id);
    }
}

} // verus!
