use vstd::prelude::*;

use crate::component::Component;
use crate::entity::Entity;
use crate::scene::SceneState;

verus! {

/// A behavior registered with the scheduler, implemented by users of the
/// library. Each callback receives the scene state and one entity matched
/// by the system's signature.
///
/// Implementations are trusted to uphold the stated contracts; both hold
/// of any implementation that touches the scene only through its public
/// interface, since every public operation keeps the scene valid and never
/// unregisters a component type.
pub trait System<V>: Sized {
    /// Runs once per matched entity when the scene is loaded.
    fn on_entry(&mut self, state: &mut SceneState<V>, entity: Entity)
        requires
            old(state).wf(),
        ensures
            final(state).wf(),
            forall|c: Component|
                old(state).is_registered(c) ==> final(state).is_registered(c),
    {
    }

    /// Runs once per matched entity when the scene is unloaded.
    fn on_exit(&mut self, state: &mut SceneState<V>, entity: Entity)
        requires
            old(state).wf(),
        ensures
            final(state).wf(),
            forall|c: Component|
                old(state).is_registered(c) ==> final(state).is_registered(c),
    {
    }

    /// Runs once per matched entity every frame, with the elapsed time in
    /// nanoseconds.
    fn on_frame(&mut self, state: &mut SceneState<V>, entity: Entity, dt_nanos: u64)
        requires
            old(state).wf(),
        ensures
            final(state).wf(),
            forall|c: Component|
                old(state).is_registered(c) ==> final(state).is_registered(c),
    {
    }

    /// Runs once per matched entity every physics tick (fixed rate).
    fn on_physics_frame(&mut self, state: &mut SceneState<V>, entity: Entity)
        requires
            old(state).wf(),
        ensures
            final(state).wf(),
            forall|c: Component|
                old(state).is_registered(c) ==> final(state).is_registered(c),
    {
    }
}

/// Whether two signatures share no component type.
pub open spec fn sigs_disjoint(a: Seq<u64>, b: Seq<u64>) -> bool {
    forall|x: u64| a.contains(x) ==> !b.contains(x)
}

/// Signature disjointness is symmetric.
pub proof fn lemma_sigs_disjoint_symmetric(a: Seq<u64>, b: Seq<u64>)
    requires
        sigs_disjoint(a, b),
    ensures
        sigs_disjoint(b, a),
{
    assert forall|x: u64| b.contains(x) implies !a.contains(x) by {
        if a.contains(x) {
            assert(!b.contains(x));
        }
    }
}

/// The registered systems and their partition into batches.
///
/// Each registered system carries its signature: the component types it
/// requires. Systems are placed greedily into the first batch whose
/// members' signatures are all disjoint from theirs, so that the members
/// of one batch never contend for a component array and may run
/// concurrently; batches execute strictly in creation order.
pub struct Systems<S> {
    ids: Vec<u64>,
    signatures: Vec<Vec<u64>>,
    systems: Vec<S>,
    parallels: Vec<Vec<usize>>,
}

impl<S> Systems<S> {
    /// The registered system ids, in registration order.
    pub closed spec fn ids_seq(&self) -> Seq<u64> {
        self.ids@
    }

    /// How many systems are registered.
    pub open spec fn num_systems(&self) -> int {
        self.ids_seq().len() as int
    }

    /// The signature of the system at position `i`.
    pub closed spec fn signature_of(&self, i: int) -> Seq<u64> {
        self.signatures@[i]@
    }

    /// The batches, each a list of positions of registered systems.
    pub closed spec fn batches(&self) -> Seq<Seq<usize>> {
        self.parallels@.map_values(|v: Vec<usize>| v@)
    }

    /// Whether a system id has been registered.
    pub open spec fn is_registered(&self, system_id: u64) -> bool {
        self.ids_seq().contains(system_id)
    }

    /// Validity of the scheduler: one signature and one instance per
    /// registered id, no id registered twice, every batch nonempty and
    /// made of valid system positions, and the signatures of the members
    /// of one batch pairwise disjoint.
    pub open spec fn wf(&self) -> bool {
        &&& self.ids_seq().no_duplicates()
        &&& self.signatures_len() == self.num_systems()
        &&& self.systems_len() == self.num_systems()
        &&& forall|b: int|
            0 <= b < self.batches().len() ==> (#[trigger] self.batches()[b]).len() > 0
        &&& forall|b: int, k: int|
            0 <= b < self.batches().len() && 0 <= k < self.batches()[b].len() ==> (
            #[trigger] self.batches()[b][k]) < self.num_systems()
        &&& forall|b: int, k1: int, k2: int|
            0 <= b < self.batches().len() && 0 <= k1 < self.batches()[b].len() && 0 <= k2
                < self.batches()[b].len() && k1 != k2 ==> sigs_disjoint(
                #[trigger] self.signature_of(self.batches()[b][k1] as int),
                #[trigger] self.signature_of(self.batches()[b][k2] as int),
            )
    }

    pub closed spec fn signatures_len(&self) -> int {
        self.signatures@.len() as int
    }

    pub closed spec fn systems_len(&self) -> int {
        self.systems@.len() as int
    }

    /// Whether a signature fits batch `b`: it is disjoint from the
    /// signature of every member.
    pub open spec fn fits(&self, b: int, sig: Seq<u64>) -> bool {
        forall|k: int|
            0 <= k < self.batches()[b].len() ==> sigs_disjoint(
                sig,
                self.signature_of(#[trigger] self.batches()[b][k] as int),
            )
    }

    /// Whether `b` is the first batch that a signature fits.
    pub open spec fn is_first_fit(&self, sig: Seq<u64>, b: int) -> bool {
        &&& 0 <= b < self.batches().len()
        &&& self.fits(b, sig)
        &&& forall|b2: int| 0 <= b2 < b ==> !self.fits(b2, sig)
    }

    pub fn new() -> (r: Self)
        ensures
            r.wf(),
            r.ids_seq() == Seq::<u64>::empty(),
            r.batches() == Seq::<Seq<usize>>::empty(),
    {
        let r = Systems {
            ids: Vec::new(),
            signatures: Vec::new(),
            systems: Vec::new(),
            parallels: Vec::new(),
        };
        proof {
            assert(r.batches() =~= Seq::<Seq<usize>>::empty());
        }
        r
    }

    /// How many batches the scheduler currently has.
    pub fn batch_count(&self) -> (r: usize)
        ensures
            r == self.batches().len(),
    {
        self.parallels.len()
    }

    /// How many systems the batch at position `b` holds.
    pub fn batch_size(&self, b: usize) -> (r: usize)
        requires
            b < self.batches().len(),
        ensures
            r == self.batches()[b as int].len(),
    {
        self.parallels[b].len()
    }

    /// The id of the system at position `k` of the batch at position `b`.
    pub fn batch_member(&self, b: usize, k: usize) -> (r: u64)
        requires
            self.wf(),
            b < self.batches().len(),
            k < self.batches()[b as int].len(),
        ensures
            r == self.ids_seq()[self.batches()[b as int][k as int] as int],
    {
        self.ids[self.parallels[b][k]]
    }

    /// The first batch the signature fits, if any.
    fn find_fit(&self, signature: &Vec<u64>) -> (r: Option<usize>)
        requires
            self.wf(),
        ensures
            match r {
                Some(b) => self.is_first_fit(signature@, b as int),
                None => forall|b: int| 0 <= b < self.batches().len() ==> !self.fits(b, signature@),
            },
    {
        let nb = self.parallels.len();
        let mut b: usize = 0;
        while b < nb
            invariant
                self.wf(),
                nb == self.batches().len(),
                b <= nb,
                forall|b2: int| 0 <= b2 < b ==> !self.fits(b2, signature@),
            decreases nb - b,
        {
            if self.batch_fits(b, signature) {
                return Some(b);
            }
            b += 1;
        }
        None
    }

    /// Whether the signature is disjoint from every member of batch `b`.
    fn batch_fits(&self, b: usize, signature: &Vec<u64>) -> (r: bool)
        requires
            self.wf(),
            b < self.batches().len(),
        ensures
            r == self.fits(b as int, signature@),
    {
        let batch_len = self.parallels[b].len();
        let mut k: usize = 0;
        while k < batch_len
            invariant
                self.wf(),
                b < self.batches().len(),
                batch_len == self.batches()[b as int].len(),
                k <= batch_len,
                forall|j: int|
                    0 <= j < k ==> sigs_disjoint(
                        signature@,
                        self.signature_of(#[trigger] self.batches()[b as int][j] as int),
                    ),
            decreases batch_len - k,
        {
            let idx = self.parallels[b][k];
            if !are_disjoint(signature, &self.signatures[idx]) {
                return false;
            }
            k += 1;
        }
        true
    }

    /// Registers a system under its id with its signature. A registered id
    /// is left untouched. A new system joins the first batch whose members'
    /// signatures are all disjoint from its own; only when no batch fits is
    /// a new batch appended for it.
    ///
    /// The conflict test deliberately compares the candidate's signature
    /// against the signature of each member already in the batch, pairwise:
    /// testing a signature for overlap with itself would pass vacuously and
    /// let two systems that contend for a component share a batch, which
    /// the batch invariant exists to rule out.
    pub fn add_system(&mut self, system_id: u64, signature: &Vec<u64>, system: S)
        requires
            old(self).wf(),
        ensures
            final(self).wf(),
            old(self).is_registered(system_id) ==> *final(self) == *old(self),
            !old(self).is_registered(system_id) ==> {
                &&& final(self).ids_seq() == old(self).ids_seq().push(system_id)
                &&& final(self).signature_of(old(self).num_systems()) == signature@
                &&& forall|i: int|
                    0 <= i < old(self).num_systems() ==> final(self).signature_of(i) == old(
                        self,
                    ).signature_of(i)
                &&& (forall|b: int| 0 <= b < old(self).batches().len() ==> !old(self).fits(b, signature@))
                    ==> final(self).batches() == old(self).batches().push(
                    seq![old(self).num_systems() as usize],
                )
                &&& forall|b: int|
                    old(self).is_first_fit(signature@, b) ==> final(self).batches() == old(
                        self,
                    ).batches().update(
                        b,
                        old(self).batches()[b].push(old(self).num_systems() as usize),
                    )
            },
    {
        if contains_u64(&self.ids, system_id) {
            return ;
        }
        let n = self.ids.len();
        let target = self.find_fit(signature);
        self.ids.push(system_id);
        self.signatures.push(clone_sig(signature));
        self.systems.push(system);
        proof {
            assert forall|i: int| 0 <= i < old(self).num_systems() implies self.signature_of(i)
                == old(self).signature_of(i) by {}
        }
        match target {
            Some(b) => {
                let batch = &mut self.parallels[b];
                batch.push(n);
                proof {
                    assert(self.batches() =~= old(self).batches().update(
                        b as int,
                        old(self).batches()[b as int].push(n),
                    ));
                    assert forall|bb: int, k1: int, k2: int|
                        0 <= bb < self.batches().len() && 0 <= k1 < self.batches()[bb].len() && 0
                            <= k2 < self.batches()[bb].len() && k1 != k2 implies sigs_disjoint(
                        self.signature_of(self.batches()[bb][k1] as int),
                        self.signature_of(self.batches()[bb][k2] as int),
                    ) by {
                        let obs = old(self).batches();
                        if bb == b as int {
                            let blen = obs[bb].len() as int;
                            if k1 < blen && k2 < blen {
                                assert(sigs_disjoint(
                                    old(self).signature_of(obs[bb][k1] as int),
                                    old(self).signature_of(obs[bb][k2] as int),
                                ));
                            } else if k1 == blen {
                                assert(self.batches()[bb][k1] == n);
                                assert(sigs_disjoint(
                                    signature@,
                                    old(self).signature_of(obs[bb][k2] as int),
                                ));
                                lemma_sigs_disjoint_symmetric(
                                    signature@,
                                    old(self).signature_of(obs[bb][k2] as int),
                                );
                            } else {
                                assert(self.batches()[bb][k2] == n);
                                assert(sigs_disjoint(
                                    signature@,
                                    old(self).signature_of(obs[bb][k1] as int),
                                ));
                            }
                        } else {
                            assert(sigs_disjoint(
                                old(self).signature_of(obs[bb][k1] as int),
                                old(self).signature_of(obs[bb][k2] as int),
                            ));
                        }
                    }
                }
            },
            None => {
                let mut nbatch: Vec<usize> = Vec::new();
                nbatch.push(n);
                self.parallels.push(nbatch);
                proof {
                    assert(self.batches() =~= old(self).batches().push(seq![n]));
                    assert forall|bb: int, k1: int, k2: int|
                        0 <= bb < self.batches().len() && 0 <= k1 < self.batches()[bb].len() && 0
                            <= k2 < self.batches()[bb].len() && k1 != k2 implies sigs_disjoint(
                        self.signature_of(self.batches()[bb][k1] as int),
                        self.signature_of(self.batches()[bb][k2] as int),
                    ) by {
                        if bb < old(self).batches().len() {
                            assert(sigs_disjoint(
                                old(self).signature_of(old(self).batches()[bb][k1] as int),
                                old(self).signature_of(old(self).batches()[bb][k2] as int),
                            ));
                        } else {
                            assert(self.batches()[bb].len() == 1);
                        }
                    }
                }
            },
        }
    }
}

/// Which lifecycle callback a scheduler pass runs.
#[derive(Clone, Copy)]
enum Pass {
    Entry,
    Exit,
    Frame(u64),
    Physics,
}

impl<S> Systems<S> {
    /// Runs one full pass over all batches, strictly in creation order:
    /// for each system of a batch in turn, its matching entities are
    /// recomputed from the current scene state and its callback runs over
    /// them, in living-entity order.
    fn run_pass<V>(&mut self, state: &mut SceneState<V>, pass: Pass) where S: System<V>
        requires
            old(self).wf(),
            old(state).wf(),
            forall|i: int|
                0 <= i < old(self).num_systems() ==> old(state).cm().all_registered(
                    #[trigger] old(self).signature_of(i),
                ),
        ensures
            final(self).wf(),
            final(state).wf(),
            final(self).ids_seq() == old(self).ids_seq(),
            final(self).batches() == old(self).batches(),
            forall|i: int|
                0 <= i < old(self).num_systems() ==> final(self).signature_of(i) == old(
                    self,
                ).signature_of(i),
            forall|c: Component|
                old(state).is_registered(c) ==> final(state).is_registered(c),
    {
        let nb = self.parallels.len();
        let mut b: usize = 0;
        while b < nb
            invariant
                self.wf(),
                state.wf(),
                nb == self.batches().len(),
                b <= nb,
                self.ids_seq() == old(self).ids_seq(),
                self.batches() == old(self).batches(),
                forall|i: int|
                    0 <= i < old(self).num_systems() ==> self.signature_of(i) == old(
                        self,
                    ).signature_of(i),
                forall|c: Component| old(state).is_registered(c) ==> state.is_registered(c),
                forall|i: int|
                    0 <= i < old(self).num_systems() ==> old(state).cm().all_registered(
                        #[trigger] old(self).signature_of(i),
                    ),
            decreases nb - b,
        {
            let batch_len = self.parallels[b].len();
            let mut k: usize = 0;
            while k < batch_len
                invariant
                    self.wf(),
                    state.wf(),
                    nb == self.batches().len(),
                    b < nb,
                    batch_len == self.batches()[b as int].len(),
                    k <= batch_len,
                    self.ids_seq() == old(self).ids_seq(),
                    self.batches() == old(self).batches(),
                    forall|i: int|
                        0 <= i < old(self).num_systems() ==> self.signature_of(i) == old(
                            self,
                        ).signature_of(i),
                    forall|c: Component| old(state).is_registered(c) ==> state.is_registered(c),
                    forall|i: int|
                        0 <= i < old(self).num_systems() ==> old(state).cm().all_registered(
                            #[trigger] old(self).signature_of(i),
                        ),
                decreases batch_len - k,
            {
                let idx = self.parallels[b][k];
                proof {
                    assert(self.batches()[b as int][k as int] < self.num_systems());
                    let sig = self.signature_of(idx as int);
                    assert(old(state).cm().all_registered(old(self).signature_of(idx as int)));
                    assert forall|j: int| 0 <= j < sig.len() implies state.cm().is_registered(
                        #[trigger] sig[j],
                    ) by {
                        assert(old(state).cm().is_registered(sig[j]));
                        assert(old(state).is_registered(sig[j]));
                    }
                }
                let matched = matching_entities(state, &self.signatures[idx]);
                let mut e: usize = 0;
                while e < matched.len()
                    invariant
                        self.wf(),
                        state.wf(),
                        nb == self.batches().len(),
                        b < nb,
                        batch_len == self.batches()[b as int].len(),
                        k < batch_len,
                        idx < self.systems_len(),
                        e <= matched.len(),
                        self.ids_seq() == old(self).ids_seq(),
                        self.batches() == old(self).batches(),
                        forall|i: int|
                            0 <= i < old(self).num_systems() ==> self.signature_of(i) == old(
                                self,
                            ).signature_of(i),
                        forall|c: Component|
                            old(state).is_registered(c) ==> state.is_registered(c),
                        forall|i: int|
                            0 <= i < old(self).num_systems() ==> old(state).cm().all_registered(
                                #[trigger] old(self).signature_of(i),
                            ),
                    decreases matched.len() - e,
                {
                    let ent = matched[e].clone();
                    let ghost prev = *self;
                    let sys = sys_index_mut(&mut self.systems, idx);
                    match pass {
                        Pass::Entry => sys.on_entry(state, ent),
                        Pass::Exit => sys.on_exit(state, ent),
                        Pass::Frame(dt_nanos) => sys.on_frame(state, ent, dt_nanos),
                        Pass::Physics => sys.on_physics_frame(state, ent),
                    }
                    proof {
                        lemma_wf_congruence(prev, *self);
                    }
                    e += 1;
                }
                k += 1;
            }
            b += 1;
        }
    }

    /// Runs every system's entry callback over its matching entities,
    /// batch by batch in creation order.
    pub fn on_entry<V>(&mut self, state: &mut SceneState<V>) where S: System<V>
        requires
            old(self).wf(),
            old(state).wf(),
            forall|i: int|
                0 <= i < old(self).num_systems() ==> old(state).cm().all_registered(
                    #[trigger] old(self).signature_of(i),
                ),
        ensures
            final(self).wf(),
            final(state).wf(),
            final(self).ids_seq() == old(self).ids_seq(),
            final(self).batches() == old(self).batches(),
            forall|i: int|
                0 <= i < old(self).num_systems() ==> final(self).signature_of(i) == old(
                    self,
                ).signature_of(i),
            forall|c: Component|
                old(state).is_registered(c) ==> final(state).is_registered(c),
    {
        self.run_pass(state, Pass::Entry);
    }

    /// Runs every system's exit callback over its matching entities,
    /// batch by batch in creation order.
    pub fn on_exit<V>(&mut self, state: &mut SceneState<V>) where S: System<V>
        requires
            old(self).wf(),
            old(state).wf(),
            forall|i: int|
                0 <= i < old(self).num_systems() ==> old(state).cm().all_registered(
                    #[trigger] old(self).signature_of(i),
                ),
        ensures
            final(self).wf(),
            final(state).wf(),
            final(self).ids_seq() == old(self).ids_seq(),
            final(self).batches() == old(self).batches(),
            forall|i: int|
                0 <= i < old(self).num_systems() ==> final(self).signature_of(i) == old(
                    self,
                ).signature_of(i),
            forall|c: Component|
                old(state).is_registered(c) ==> final(state).is_registered(c),
    {
        self.run_pass(state, Pass::Exit);
    }

    /// Runs every system's frame callback over its matching entities,
    /// batch by batch in creation order. On a physics tick, a full physics
    /// pass over all batches runs first.
    pub fn on_frame<V>(
        &mut self,
        state: &mut SceneState<V>,
        is_physics_frame: bool,
        dt_nanos: u64,
    ) where S: System<V>
        requires
            old(self).wf(),
            old(state).wf(),
            forall|i: int|
                0 <= i < old(self).num_systems() ==> old(state).cm().all_registered(
                    #[trigger] old(self).signature_of(i),
                ),
        ensures
            final(self).wf(),
            final(state).wf(),
            final(self).ids_seq() == old(self).ids_seq(),
            final(self).batches() == old(self).batches(),
            forall|i: int|
                0 <= i < old(self).num_systems() ==> final(self).signature_of(i) == old(
                    self,
                ).signature_of(i),
            forall|c: Component|
                old(state).is_registered(c) ==> final(state).is_registered(c),
    {
        if is_physics_frame {
            self.run_pass(state, Pass::Physics);
            proof {
                assert forall|i: int| 0 <= i < self.num_systems() implies state.cm().all_registered(
                    #[trigger] self.signature_of(i),
                ) by {
                    let sig = self.signature_of(i);
                    assert(old(state).cm().all_registered(old(self).signature_of(i)));
                    assert forall|j: int| 0 <= j < sig.len() implies state.cm().is_registered(
                        #[trigger] sig[j],
                    ) by {
                        assert(old(state).cm().is_registered(sig[j]));
                        assert(old(state).is_registered(sig[j]));
                    }
                }
            }
        }
        self.run_pass(state, Pass::Frame(dt_nanos));
    }
}

/// A scheduler that differs from a valid one only in the system instances
/// themselves is valid too.
proof fn lemma_wf_congruence<S>(a: Systems<S>, b: Systems<S>)
    requires
        a.wf(),
        b.ids_seq() == a.ids_seq(),
        b.batches() == a.batches(),
        b.signatures_len() == a.signatures_len(),
        b.systems_len() == a.systems_len(),
        forall|i: int| 0 <= i < a.signatures_len() ==> b.signature_of(i) == a.signature_of(i),
    ensures
        b.wf(),
{
    assert forall|bb: int, k: int|
        0 <= bb < b.batches().len() && 0 <= k < b.batches()[bb].len() implies (
    #[trigger] b.batches()[bb][k]) < b.num_systems() by {
        assert(a.batches()[bb][k] < a.num_systems());
    }
    assert forall|bb: int, k1: int, k2: int|
        0 <= bb < b.batches().len() && 0 <= k1 < b.batches()[bb].len() && 0 <= k2 < b.batches(
        )[bb].len() && k1 != k2 implies sigs_disjoint(
        #[trigger] b.signature_of(b.batches()[bb][k1] as int),
        #[trigger] b.signature_of(b.batches()[bb][k2] as int),
    ) by {
        assert(a.batches()[bb][k1] < a.num_systems());
        assert(a.batches()[bb][k2] < a.num_systems());
        assert(sigs_disjoint(
            a.signature_of(a.batches()[bb][k1] as int),
            a.signature_of(a.batches()[bb][k2] as int),
        ));
        assert(b.signature_of(b.batches()[bb][k1] as int) == a.signature_of(
            a.batches()[bb][k1] as int,
        ));
        assert(b.signature_of(b.batches()[bb][k2] as int) == a.signature_of(
            a.batches()[bb][k2] as int,
        ));
    }
}

/// A mutable borrow of the element at position `i`.
pub(crate) fn sys_index_mut<S>(v: &mut Vec<S>, i: usize) -> (r: &mut S)
    requires
        i < old(v).len(),
    ensures
        *r == old(v)@[i as int],
        final(v)@ == old(v)@.update(i as int, *final(r)),
{
    &mut v[i]
}

/// The living entities that match a signature: those holding a value in
/// the array of every component the signature names, in living-entity
/// order.
pub fn matching_entities<V>(state: &SceneState<V>, signature: &Vec<u64>) -> (r: Vec<Entity>)
    requires
        state.wf(),
        state.cm().all_registered(signature@),
    ensures
        r@.map_values(|e: Entity| e@) == state.em().living().filter(
            |id: u32| state.cm().owns_all(id, signature@),
        ),
{
    let ghost pred = |id: u32| state.cm().owns_all(id, signature@);
    let ghost lv = state.em().living();
    let living = state.get_living_entities();
    let mut out: Vec<Entity> = Vec::new();
    let mut i: usize = 0;
    proof {
        reveal(Seq::filter);
        assert(lv.take(0) =~= Seq::<u32>::empty());
    }
    while i < living.len()
        invariant
            state.wf(),
            state.cm().all_registered(signature@),
            living@.map_values(|e: Entity| e@) == lv,
            lv == state.em().living(),
            pred == (|id: u32| state.cm().owns_all(id, signature@)),
            i <= living.len(),
            out@.map_values(|e: Entity| e@) == lv.take(i as int).filter(pred),
        decreases living.len() - i,
    {
        let ghost prev_out = out@;
        let owns = match state.has_components(&living[i], signature) {
            Ok(b) => b,
            Err(_) => {
                // unreachable: every component of the signature is registered
                proof {
                    assert(false);
                }
                false
            },
        };
        proof {
            assert(owns == pred(lv[i as int]));
        }
        if owns {
            out.push(living[i].clone());
        }
        proof {
            reveal(Seq::filter);
            assert(lv.take(i as int + 1).drop_last() =~= lv.take(i as int));
            assert(lv.take(i as int + 1).last() == lv[i as int]);
            if pred(lv[i as int]) {
                assert(out@.map_values(|e: Entity| e@) =~= prev_out.map_values(
                    |e: Entity| e@,
                ).push(lv[i as int]));
            }
        }
        i += 1;
    }
    proof {
        assert(lv.take(lv.len() as int) =~= lv);
    }
    out
}

/// Checks whether `x` occurs in `v`.
fn contains_u64(v: &Vec<u64>, x: u64) -> (r: bool)
    ensures
        r == v@.contains(x),
{
    let mut i: usize = 0;
    while i < v.len()
        invariant
            i <= v@.len(),
            forall|j: int| 0 <= j < i ==> v@[j] != x,
        decreases v@.len() - i,
    {
        if v[i] == x {
            return true;
        }
        i += 1;
    }
    false
}

/// Copies a signature.
fn clone_sig(v: &Vec<u64>) -> (r: Vec<u64>)
    ensures
        r@ == v@,
{
    let mut out: Vec<u64> = Vec::new();
    let mut i: usize = 0;
    while i < v.len()
        invariant
            i <= v@.len(),
            out@ == v@.take(i as int),
        decreases v@.len() - i,
    {
        out.push(v[i]);
        proof {
            assert(v@.take(i as int + 1) =~= v@.take(i as int).push(v@[i as int]));
        }
        i += 1;
    }
    proof {
        assert(v@.take(v@.len() as int) =~= v@);
    }
    out
}

/// Checks whether two signatures share no component type.
fn are_disjoint(a: &Vec<u64>, b: &Vec<u64>) -> (r: bool)
    ensures
        r == sigs_disjoint(a@, b@),
{
    let mut i: usize = 0;
    while i < a.len()
        invariant
            i <= a@.len(),
            forall|j: int| 0 <= j < i ==> !b@.contains(#[trigger] a@[j]),
        decreases a@.len() - i,
    {
        if contains_u64(b, a[i]) {
            assert(a@.contains(a@[i as int]));
            return false;
        }
        i += 1;
    }
    assert forall|x: u64| a@.contains(x) implies !b@.contains(x) by {
        let j = choose|j: int| 0 <= j < a@.len() && a@[j] == x;
    }
    true
}

/// The scene-facing surface of the scheduler: owns the registered systems
/// and drives their lifecycle callbacks in partitioned batch order.
pub struct SystemManager<S> {
    systems: Systems<S>,
}

impl<S> SystemManager<S> {
    /// The scheduler this manager drives.
    pub closed spec fn sys(&self) -> Systems<S> {
        self.systems
    }

    /// Validity of the manager: its scheduler is valid.
    pub open spec fn wf(&self) -> bool {
        self.sys().wf()
    }

    pub fn new() -> (r: Self)
        ensures
            r.wf(),
            r.sys().ids_seq() == Seq::<u64>::empty(),
            r.sys().batches() == Seq::<Seq<usize>>::empty(),
    {
        SystemManager { systems: Systems::new() }
    }

    /// Registers a system under its id for use in the scene; a registered
    /// id is left untouched. The system joins the first batch whose
    /// members' signatures are all disjoint from its own, else a new batch.
    pub fn register_system(&mut self, system_id: u64, signature: &Vec<u64>, system: S)
        requires
            old(self).wf(),
        ensures
            final(self).wf(),
            old(self).sys().is_registered(system_id) ==> final(self).sys() == old(self).sys(),
            !old(self).sys().is_registered(system_id) ==> {
                &&& final(self).sys().ids_seq() == old(self).sys().ids_seq().push(system_id)
                &&& final(self).sys().signature_of(old(self).sys().num_systems()) == signature@
                &&& forall|i: int|
                    0 <= i < old(self).sys().num_systems() ==> final(self).sys().signature_of(i)
                        == old(self).sys().signature_of(i)
                &&& (forall|b: int|
                    0 <= b < old(self).sys().batches().len() ==> !old(self).sys().fits(
                        b,
                        signature@,
                    )) ==> final(self).sys().batches() == old(self).sys().batches().push(
                    seq![old(self).sys().num_systems() as usize],
                )
                &&& forall|b: int|
                    old(self).sys().is_first_fit(signature@, b) ==> final(self).sys().batches()
                        == old(self).sys().batches().update(
                        b,
                        old(self).sys().batches()[b].push(
                            old(self).sys().num_systems() as usize,
                        ),
                    )
            },
    {
        self.systems.add_system(system_id, signature, system);
    }

    /// Runs every system's entry callback over its matching entities.
    pub fn on_entry<V>(&mut self, state: &mut SceneState<V>) where S: System<V>
        requires
            old(self).wf(),
            old(state).wf(),
            forall|i: int|
                0 <= i < old(self).sys().num_systems() ==> old(state).cm().all_registered(
                    #[trigger] old(self).sys().signature_of(i),
                ),
        ensures
            final(self).wf(),
            final(state).wf(),
            final(self).sys().ids_seq() == old(self).sys().ids_seq(),
            final(self).sys().batches() == old(self).sys().batches(),
            forall|i: int|
                0 <= i < old(self).sys().num_systems() ==> final(self).sys().signature_of(i)
                    == old(self).sys().signature_of(i),
            forall|c: Component|
                old(state).is_registered(c) ==> final(state).is_registered(c),
    {
        self.systems.on_entry(state);
    }

    /// Runs every system's exit callback over its matching entities.
    pub fn on_exit<V>(&mut self, state: &mut SceneState<V>) where S: System<V>
        requires
            old(self).wf(),
            old(state).wf(),
            forall|i: int|
                0 <= i < old(self).sys().num_systems() ==> old(state).cm().all_registered(
                    #[trigger] old(self).sys().signature_of(i),
                ),
        ensures
            final(self).wf(),
            final(state).wf(),
            final(self).sys().ids_seq() == old(self).sys().ids_seq(),
            final(self).sys().batches() == old(self).sys().batches(),
            forall|i: int|
                0 <= i < old(self).sys().num_systems() ==> final(self).sys().signature_of(i)
                    == old(self).sys().signature_of(i),
            forall|c: Component|
                old(state).is_registered(c) ==> final(state).is_registered(c),
    {
        self.systems.on_exit(state);
    }

    /// Runs every system's frame callback over its matching entities; on a
    /// physics tick, a full physics pass runs first.
    pub fn on_frame<V>(
        &mut self,
        state: &mut SceneState<V>,
        is_physics_frame: bool,
        dt_nanos: u64,
    ) where S: System<V>
        requires
            old(self).wf(),
            old(state).wf(),
            forall|i: int|
                0 <= i < old(self).sys().num_systems() ==> old(state).cm().all_registered(
                    #[trigger] old(self).sys().signature_of(i),
                ),
        ensures
            final(self).wf(),
            final(state).wf(),
            final(self).sys().ids_seq() == old(self).sys().ids_seq(),
            final(self).sys().batches() == old(self).sys().batches(),
            forall|i: int|
                0 <= i < old(self).sys().num_systems() ==> final(self).sys().signature_of(i)
                    == old(self).sys().signature_of(i),
            forall|c: Component|
                old(state).is_registered(c) ==> final(state).is_registered(c),
    {
        self.systems.on_frame(state, is_physics_frame, dt_nanos);
    }
}

/// Two systems sharing a required component never share a batch: in a
/// valid scheduler, a component required by one member of a batch is
/// required by no other member of it.
pub proof fn lemma_overlapping_never_share_batch<S>(
    sys: Systems<S>,
    b: int,
    k1: int,
    k2: int,
    c: u64,
)
    requires
        sys.wf(),
        0 <= b < sys.batches().len(),
        0 <= k1 < sys.batches()[b].len(),
        0 <= k2 < sys.batches()[b].len(),
        k1 != k2,
        sys.signature_of(sys.batches()[b][k1] as int).contains(c),
    ensures
        !sys.signature_of(sys.batches()[b][k2] as int).contains(c),
{
}

} // verus!
