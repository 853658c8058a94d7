use vstd::prelude::*;

use crate::err::{Error, ErrorKind};

verus! {

/// An entity id, guaranteed to be unique among all entities currently alive
/// in the manager that issued it.
///
/// Entities are deliberately not publicly duplicable: only this crate can
/// copy a handle, so callers cannot silently retain duplicate handles to an
/// entity past its destruction.
#[derive(Debug, PartialEq, Eq, Hash, Structural)]
pub struct Entity {
    pub(crate) id: u32,
}

impl View for Entity {
    type V = u32;

    closed spec fn view(&self) -> u32 {
        self.id
    }
}

/// Inside the crate, an entity handle's view is its id field.
pub(crate) broadcast proof fn lemma_entity_view(e: Entity)
    ensures
        #[trigger] e@ == e.id,
{
}

impl Entity {
    /// Copies an entity handle, for use inside the crate only.
    pub(crate) fn clone(&self) -> (r: Entity)
        ensures
            r@ == self@,
    {
        Entity { id: self.id }
    }
}

/// Issues and recycles entity ids.
///
/// An id is live iff it is below the allocation counter and not in the
/// free queue. Freed ids are reissued first-in-first-out before any new id
/// is allocated.
pub struct EntityManager {
    next_entity_id: u32,
    dead_entities: Vec<u32>,
}

/// One create step on the model state `(next, dead)`: the oldest freed id
/// leaves the queue; only with the queue empty is a fresh id allocated, and
/// only while the id space is not exhausted.
pub open spec fn spec_create(next: u32, dead: Seq<u32>) -> (u32, Seq<u32>) {
    if dead.len() > 0 {
        (next, dead.drop_first())
    } else if next == u32::MAX {
        (next, dead)
    } else {
        ((next + 1) as u32, dead)
    }
}

/// The id handed out by one create step on `(next, dead)`, or the error kind.
pub open spec fn spec_create_result(next: u32, dead: Seq<u32>) -> Result<u32, ErrorKind> {
    if dead.len() > 0 {
        Ok(dead.first())
    } else if next == u32::MAX {
        Err(ErrorKind::EntityMaxReached)
    } else {
        Ok(next)
    }
}

/// `k` successive create steps applied to the model state `(next, dead)`.
pub open spec fn spec_create_n(next: u32, dead: Seq<u32>, k: nat) -> (u32, Seq<u32>)
    decreases k,
{
    if k == 0 {
        (next, dead)
    } else {
        let (n, d) = spec_create_n(next, dead, (k - 1) as nat);
        spec_create(n, d)
    }
}

impl EntityManager {
    /// The allocation counter: every id ever issued is below it.
    pub closed spec fn next_id(&self) -> u32 {
        self.next_entity_id
    }

    /// The queue of freed ids, oldest first.
    pub closed spec fn dead(&self) -> Seq<u32> {
        self.dead_entities@
    }

    /// Validity of the manager: freed ids were issued before, and no id is
    /// queued for reissue twice.
    pub open spec fn wf(&self) -> bool {
        &&& forall|i: int| 0 <= i < self.dead().len() ==> self.dead()[i] < self.next_id()
        &&& self.dead().no_duplicates()
    }

    /// An id is live iff it is below the allocation counter and not freed.
    pub open spec fn is_live(&self, id: u32) -> bool {
        id < self.next_id() && !self.dead().contains(id)
    }

    pub fn new() -> (r: Self)
        ensures
            r.wf(),
            r.next_id() == 0,
            r.dead() == Seq::<u32>::empty(),
    {
        EntityManager { next_entity_id: 0, dead_entities: Vec::new() }
    }

    /// Creates a new entity, unique to this entity manager.
    ///
    /// The oldest freed id is reused if any exists; otherwise the next
    /// sequential id is allocated, and `EntityMaxReached` is reported once
    /// the id space is exhausted.
    pub fn create_entity(&mut self) -> (r: Result<Entity, Error>)
        requires
            old(self).wf(),
        ensures
            final(self).wf(),
            (final(self).next_id(), final(self).dead()) == spec_create(
                old(self).next_id(),
                old(self).dead(),
            ),
            match (r, spec_create_result(old(self).next_id(), old(self).dead())) {
                (Ok(e), Ok(id)) => e@ == id,
                (Err(e), Err(kind)) => e.kind_spec() == kind,
                _ => false,
            },
            r is Ok ==> old(self).dead().len() > 0 || old(self).next_id() < u32::MAX,
    {
        if self.dead_entities.len() > 0 {
            let id = self.dead_entities.remove(0);
            assert(self.dead_entities@ == old(self).dead().drop_first());
            Ok(Entity { id })
        } else if self.next_entity_id == u32::MAX {
            Err(Error::new(ErrorKind::EntityMaxReached))
        } else {
            let id = self.next_entity_id;
            self.next_entity_id = self.next_entity_id + 1;
            Ok(Entity { id })
        }
    }

    /// Frees an entity id if it is currently live: the id joins the back of
    /// the free queue. Destroying a dead or never-issued id is a silent no-op.
    pub fn destroy_entity(&mut self, entity: Entity)
        requires
            old(self).wf(),
        ensures
            final(self).wf(),
            final(self).next_id() == old(self).next_id(),
            old(self).is_live(entity@) ==> final(self).dead() == old(self).dead().push(entity@),
            !old(self).is_live(entity@) ==> final(self).dead() == old(self).dead(),
    {
        if self.does_entity_exist(&entity) {
            self.dead_entities.push(entity.id);
        }
    }

    /// All currently live ids, in increasing order.
    pub fn get_living_entities(&self) -> (r: Vec<Entity>)
        requires
            self.wf(),
        ensures
            r@.map_values(|e: Entity| e@) == self.living(),
    {
        let mut out: Vec<Entity> = Vec::new();
        proof {
            assert(self.living_below(0) == Seq::<u32>::empty());
            assert(out@.map_values(|e: Entity| e@) == Seq::<u32>::empty());
        }
        for id in 0..self.next_entity_id
            invariant
                self.wf(),
                out@.map_values(|e: Entity| e@) == self.living_below(id as int),
        {
            if !contains_id(&self.dead_entities, id) {
                out.push(Entity { id });
                assert(out@.map_values(|e: Entity| e@) == self.living_below(id as int).push(id));
            }
        }
        out
    }

    /// Checks whether an entity id is live in this manager.
    pub fn does_entity_exist(&self, entity: &Entity) -> (r: bool)
        requires
            self.wf(),
        ensures
            r == self.is_live(entity@),
    {
        entity.id < self.next_entity_id && !contains_id(&self.dead_entities, entity.id)
    }

    /// The live ids below `n`, in increasing order.
    pub open spec fn living_below(&self, n: int) -> Seq<u32>
        decreases n,
    {
        if n <= 0 {
            Seq::<u32>::empty()
        } else {
            let prev = self.living_below(n - 1);
            if self.is_live((n - 1) as u32) {
                prev.push((n - 1) as u32)
            } else {
                prev
            }
        }
    }

    /// The live ids of this manager, in increasing order.
    pub open spec fn living(&self) -> Seq<u32> {
        self.living_below(self.next_id() as int)
    }
}

/// Checks whether `id` occurs in `v`.
fn contains_id(v: &Vec<u32>, id: u32) -> (r: bool)
    ensures
        r == v@.contains(id),
{
    let mut i: usize = 0;
    while i < v.len()
        invariant
            i <= v@.len(),
            forall|j: int| 0 <= j < i ==> v@[j] != id,
        decreases v@.len() - i,
    {
        if v[i] == id {
            return true;
        }
        i += 1;
    }
    false
}

/// The enumeration of living entities is exact: an id appears among the
/// live ids below `n` iff it is below `n` and live.
proof fn lemma_living_below_characterization(em: EntityManager, n: int, id: u32)
    ensures
        em.living_below(n).contains(id) <==> (id < n && em.is_live(id)),
    decreases n,
{
    if n <= 0 {
    } else {
        lemma_living_below_characterization(em, n - 1, id);
        let prev = em.living_below(n - 1);
        if em.is_live((n - 1) as u32) {
            assert(em.living_below(n) == prev.push((n - 1) as u32));
            if id < n && em.is_live(id) {
                if id < n - 1 {
                    let i = choose|i: int| 0 <= i < prev.len() && prev[i] == id;
                    assert(prev.push((n - 1) as u32)[i] == id);
                } else {
                    assert(prev.push((n - 1) as u32).last() == id);
                }
            }
            if em.living_below(n).contains(id) && !(id < n - 1 && em.is_live(id)) {
                let i = choose|i: int|
                    0 <= i < em.living_below(n).len() && em.living_below(n)[i] == id;
                if i < prev.len() {
                    assert(prev[i] == id);
                } else {
                    assert(id == (n - 1) as u32);
                }
            }
        } else {
            if id == (n - 1) as u32 {
                assert(!em.is_live(id));
            }
        }
    }
}

/// An id appears in the list of living entities iff it is live: below the
/// allocation counter and not freed.
pub proof fn lemma_living_iff_live(em: EntityManager, id: u32)
    requires
        em.wf(),
    ensures
        em.living().contains(id) <==> em.is_live(id),
{
    lemma_living_below_characterization(em, em.next_id() as int, id);
}

/// Freed ids are reissued in the order they were freed: for every model
/// state whose free queue holds `dead`, the `k`-th create step hands out
/// `dead[k]`, before any new id is allocated.
pub proof fn lemma_freed_ids_reissued_fifo(next: u32, dead: Seq<u32>, k: int)
    requires
        0 <= k < dead.len(),
    ensures
        spec_create_n(next, dead, k as nat) == (next, dead.skip(k)),
        spec_create_result(spec_create_n(next, dead, k as nat).0, spec_create_n(next, dead, k as nat).1)
            == Ok::<u32, ErrorKind>(dead[k]),
    decreases k,
{
    if k == 0 {
        assert(dead.skip(0) == dead);
        assert(dead.first() == dead[0]);
    } else {
        lemma_freed_ids_reissued_fifo(next, dead, k - 1);
        assert(dead.skip(k - 1).drop_first() == dead.skip(k));
        assert(dead.skip(k).first() == dead[k]);
    }
}

/// A new id is allocated only after every freed id has been reissued: once
/// `dead.len()` create steps have drained the free queue, the next create
/// step hands out the allocation counter itself, a fresh id.
pub proof fn lemma_fresh_id_only_after_reissue(next: u32, dead: Seq<u32>)
    requires
        next < u32::MAX,
    ensures
        spec_create_n(next, dead, dead.len()) == (next, Seq::<u32>::empty()),
        spec_create_result(next, Seq::<u32>::empty()) == Ok::<u32, ErrorKind>(next),
    decreases dead.len(),
{
    if dead.len() == 0 {
        assert(spec_create_n(next, dead, 0) == (next, dead));
        assert(dead == Seq::<u32>::empty());
    } else {
        lemma_freed_ids_reissued_fifo(next, dead, dead.len() as int - 1);
        assert(dead.skip(dead.len() as int - 1).drop_first() == dead.skip(dead.len() as int));
        assert(dead.skip(dead.len() as int) == Seq::<u32>::empty());
    }
}

/// Destroying two live entities frees their ids in that order: the free
/// queue grows at the back, so together with the reissue lemma the ids come
/// back in the order they were freed.
pub proof fn lemma_destroy_order_is_reissue_order(em: EntityManager, a: u32, b: u32)
    requires
        em.wf(),
        em.is_live(a),
        em.is_live(b),
        a != b,
    ensures
        em.dead().push(a).push(b) == em.dead() + seq![a, b],
        forall|k: int|
            0 <= k < em.dead().len() + 2 ==> spec_create_result(
                spec_create_n(em.next_id(), em.dead().push(a).push(b), k as nat).0,
                spec_create_n(em.next_id(), em.dead().push(a).push(b), k as nat).1,
            ) == Ok::<u32, ErrorKind>((em.dead() + seq![a, b])[k]),
{
    assert(em.dead().push(a).push(b) =~= em.dead() + seq![a, b]);
    assert forall|k: int| 0 <= k < em.dead().len() + 2 implies spec_create_result(
        spec_create_n(em.next_id(), em.dead().push(a).push(b), k as nat).0,
        spec_create_n(em.next_id(), em.dead().push(a).push(b), k as nat).1,
    ) == Ok::<u32, ErrorKind>((em.dead() + seq![a, b])[k]) by {
        lemma_freed_ids_reissued_fifo(em.next_id(), em.dead().push(a).push(b), k);
    }
}

} // verus!
