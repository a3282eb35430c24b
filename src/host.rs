use vstd::prelude::*;
use crate::error::Error;
use crate::instance::{Instance, SlotId};
use crate::registry::{ResourceId, ResourceTable};

verus! {

/// Identifier of the connection resource, fixed at startup.
pub const CLIENT_RID: ResourceId = 0;

/// Identifier of the task-compilation cache, fixed at startup.
pub const TASK_MAP_RID: ResourceId = 1;

/// The kinds of resource a host owns: the connection that opens sessions
/// (`C`), the task-compilation cache (`T`), and instances over sessions (`S`).
pub enum Resource<C, T, S> {
    Client(C),
    TaskMap(T),
    Instance(Instance<S>),
}

/// The sandbox host's state: one registry owning every resource, and the
/// four operations exposed to script code.
pub struct Host<C, T, S> {
    table: ResourceTable<Resource<C, T, S>>,
}

impl<C, T, S> Host<C, T, S> {
    /// The live resources, by identifier.
    pub closed spec fn resources(&self) -> Map<ResourceId, Resource<C, T, S>> {
        self.table.entries()
    }

    /// The identifier the next registered instance receives.
    pub closed spec fn next_id(&self) -> nat {
        self.table.next_id()
    }

    /// The registry is consistent, the two fixed identifiers were handed out,
    /// and every live instance is consistent.
    pub closed spec fn wf(&self) -> bool {
        &&& self.table.wf()
        &&& self.table.next_id() >= 2
        &&& self.resources_wf()
    }

    /// The fixed resources are in place and every live instance is consistent.
    closed spec fn resources_wf(&self) -> bool {
        &&& self.table.entries().contains_key(CLIENT_RID)
        &&& self.table.entries()[CLIENT_RID] is Client
        &&& self.table.entries().contains_key(TASK_MAP_RID)
        &&& self.table.entries()[TASK_MAP_RID] is TaskMap
        &&& forall|id: ResourceId| #[trigger]
            self.table.entries().contains_key(id) ==> match self.table.entries()[id] {
                Resource::Instance(inst) => inst.wf(),
                _ => true,
            }
    }

    /// Whether `id` names a live instance.
    pub open spec fn has_instance(&self, id: ResourceId) -> bool {
        self.resources().contains_key(id) && self.resources()[id] is Instance
    }

    /// The live instance under `id`.
    pub open spec fn instance_at(&self, id: ResourceId) -> Instance<S>
        recommends
            self.has_instance(id),
    {
        self.resources()[id]->Instance_0
    }

    /// What every operation keeps: identifiers are handed out in increasing
    /// order, and what is closed stays closed.
    pub open spec fn evolves(pre: Self, post: Self) -> bool {
        &&& pre.next_id() <= post.next_id()
        &&& forall|id: ResourceId|
            #[trigger] post.resources().contains_key(id) && (id as nat) < pre.next_id()
                ==> pre.resources().contains_key(id)
    }

    /// The effect of registering an instance, given the session that the
    /// connection and handshake produced, or their failure.
    pub open spec fn registers(
        pre: Self,
        post: Self,
        session: Result<S, Error>,
        r: Result<ResourceId, Error>,
    ) -> bool {
        match session {
            Err(e) => r == Err::<ResourceId, Error>(e) && post == pre,
            Ok(s) => if pre.next_id() < ResourceId::MAX {
                &&& r == Ok::<ResourceId, Error>(pre.next_id() as ResourceId)
                &&& post.next_id() == pre.next_id() + 1
                &&& !pre.resources().contains_key(pre.next_id() as ResourceId)
                &&& exists|inst: Instance<S>|
                    {
                        &&& inst.spec_session() == s
                        &&& inst.slots() == Map::<SlotId, crate::instance::Slot>::empty()
                        &&& inst.next_slot() == 0
                        &&& post.resources() == pre.resources().insert(
                            pre.next_id() as ResourceId,
                            Resource::Instance(inst),
                        )
                    }
            } else {
                r == Err::<ResourceId, Error>(Error::Exhausted) && post == pre
            },
        }
    }

    /// The effect of an operation on the instance under `id`: it fails with
    /// `NotFound` and changes nothing when `id` names no live instance;
    /// otherwise only that instance changes, as `step` says.
    pub open spec fn on_instance<R>(
        pre: Self,
        post: Self,
        id: ResourceId,
        r: Result<R, Error>,
        step: spec_fn(Instance<S>, Instance<S>, Result<R, Error>) -> bool,
    ) -> bool {
        if pre.has_instance(id) {
            &&& post.next_id() == pre.next_id()
            &&& post.has_instance(id)
            &&& post.resources() == pre.resources().insert(
                id,
                Resource::Instance(post.instance_at(id)),
            )
            &&& step(pre.instance_at(id), post.instance_at(id), r)
        } else {
            r is Err && r->Err_0 == Error::NotFound && post == pre
        }
    }

    /// The effect of cancelling `id`: a live instance is closed with its
    /// session and slots; anything else fails with `NotFound`.
    pub open spec fn cancels(pre: Self, post: Self, id: ResourceId, r: Result<(), Error>) -> bool {
        if pre.has_instance(id) {
            &&& r == Ok::<(), Error>(())
            &&& post.next_id() == pre.next_id()
            &&& post.resources() == pre.resources().remove(id)
        } else {
            r == Err::<(), Error>(Error::NotFound) && post == pre
        }
    }

    /// A host owning `client` under [`CLIENT_RID`] and `task_map` under
    /// [`TASK_MAP_RID`], with no instance yet.
    pub fn new(client: C, task_map: T) -> (r: Self)
        ensures
            r.wf(),
            r.next_id() == 2,
            r.resources() == map![CLIENT_RID => Resource::Client(client), TASK_MAP_RID => Resource::<C, T, S>::TaskMap(task_map)],
    {
        let mut table = ResourceTable::new();
        let c = table.insert(Resource::Client(client));
        let t = table.insert(Resource::TaskMap(task_map));
        assert(c == CLIENT_RID && t == TASK_MAP_RID);
        let r = Host { table };
        assert(r.resources() =~= map![CLIENT_RID => Resource::Client(client), TASK_MAP_RID => Resource::<C, T, S>::TaskMap(task_map)]);
        r
    }

    /// The connection resource that opens sessions.
    pub fn client(&self) -> (r: &C)
        requires
            self.wf(),
        ensures
            Resource::<C, T, S>::Client(*r) == self.resources()[CLIENT_RID],
    {
        match self.table.get(CLIENT_RID) {
            Some(Resource::Client(c)) => c,
            _ => vstd::pervasive::unreached(),
        }
    }

    /// The task-compilation cache.
    pub fn task_map(&self) -> (r: &T)
        requires
            self.wf(),
        ensures
            Resource::<C, T, S>::TaskMap(*r) == self.resources()[TASK_MAP_RID],
    {
        match self.table.get(TASK_MAP_RID) {
            Some(Resource::TaskMap(t)) => t,
            _ => vstd::pervasive::unreached(),
        }
    }

    /// The live instance under `id`, or `NotFound`.
    pub fn instance(&self, id: ResourceId) -> (r: Result<&Instance<S>, Error>)
        ensures
            match r {
                Ok(inst) => self.has_instance(id) && *inst == self.instance_at(id),
                Err(e) => e == Error::NotFound && !self.has_instance(id),
            },
    {
        match self.table.get(id) {
            Some(Resource::Instance(inst)) => Ok(inst),
            _ => Err(Error::NotFound),
        }
    }

    /// Registers a new instance around the session that the connection and
    /// its handshake produced; when they failed, the failure is returned and
    /// nothing is registered.
    pub fn register(&mut self, session: Result<S, Error>) -> (r: Result<ResourceId, Error>)
        requires
            old(self).wf(),
        ensures
            final(self).wf(),
            Self::evolves(*old(self), *final(self)),
            Self::registers(*old(self), *final(self), session, r),
    {
        match session {
            Err(e) => Err(e),
            Ok(s) => {
                if self.table.is_full() {
                    return Err(Error::Exhausted);
                }
                let inst = Instance::from_session(s);
                let ghost g = inst;
                let id = self.table.insert(Resource::Instance(inst));
                assert(self.resources() == old(self).resources().insert(id, Resource::Instance(g)));
                Ok(id)
            },
        }
    }

    /// Takes the live instance under `id` out of the table.
    fn take_instance(&mut self, id: ResourceId) -> (r: Result<Instance<S>, Error>)
        requires
            old(self).wf(),
        ensures
            match r {
                Ok(inst) => {
                    &&& old(self).has_instance(id)
                    &&& inst == old(self).instance_at(id)
                    &&& inst.wf()
                    &&& final(self).table.wf()
                    &&& final(self).resources_wf()
                    &&& (id as nat) < final(self).next_id()
                    &&& final(self).next_id() == old(self).next_id()
                    &&& final(self).resources() == old(self).resources().remove(id)
                },
                Err(e) => e == Error::NotFound && !old(self).has_instance(id) && *final(self)
                    == *old(self),
            },
    {
        match self.table.get(id) {
            Some(Resource::Instance(_)) => {},
            _ => {
                return Err(Error::NotFound);
            },
        }
        proof {
            self.table.lemma_live_below_next(id);
        }
        match self.table.close(id) {
            Some(Resource::Instance(inst)) => {
                assert forall|k: ResourceId| #[trigger]
                    self.resources().contains_key(k) implies match self.resources()[k] {
                        Resource::Instance(i) => i.wf(),
                        _ => true,
                    } by {
                    assert(old(self).resources().contains_key(k));
                }
                Ok(inst)
            },
            _ => vstd::pervasive::unreached(),
        }
    }

    /// Puts an instance taken out by [`Self::take_instance`] back.
    fn put_instance(&mut self, id: ResourceId, inst: Instance<S>)
        requires
            old(self).table.wf(),
            (id as nat) < old(self).next_id(),
            old(self).next_id() >= 2,
            old(self).resources_wf(),
            !old(self).resources().contains_key(id),
            inst.wf(),
        ensures
            final(self).wf(),
            final(self).next_id() == old(self).next_id(),
            final(self).resources() == old(self).resources().insert(id, Resource::Instance(inst)),
    {
        self.table.restore(id, Resource::Instance(inst));
        assert forall|k: ResourceId| #[trigger]
            self.resources().contains_key(k) implies match self.resources()[k] {
                Resource::Instance(i) => i.wf(),
                _ => true,
            } by {
            if k != id {
                assert(old(self).resources().contains_key(k));
            }
        }
    }
    /// First half of `poll` on instance `id`: when `last` names a result
    /// slot, removes it and returns the bytes to send for it to the
    /// controller. A slot that is missing or still awaits execution is left
    /// alone and nothing is sent.
    pub fn take_result(&mut self, id: ResourceId, last: Option<SlotId>) -> (r: Result<
        Option<Vec<u8>>,
        Error,
    >)
        requires
            old(self).wf(),
        ensures
            final(self).wf(),
            Self::evolves(*old(self), *final(self)),
            Self::on_instance(
                *old(self),
                *final(self),
                id,
                r,
                |a: Instance<S>, b: Instance<S>, r: Result<Option<Vec<u8>>, Error>|
                    r is Ok && Instance::takes_result(a, b, last, r->Ok_0),
            ),
    {
        let mut inst = match self.take_instance(id) {
            Ok(inst) => inst,
            Err(e) => {
                return Err(e);
            },
        };
        let r = Ok(inst.take_result(last));
        let ghost g = inst;
        self.put_instance(id, inst);
        proof {
            self.lemma_put_back(*old(self), id, g);
        }
        r
    }

    /// Second half of `poll` on instance `id`: stores the fragment received
    /// from the controller in a new source slot and returns its identifier.
    pub fn store_source(&mut self, id: ResourceId, source: String) -> (r: Result<SlotId, Error>)
        requires
            old(self).wf(),
        ensures
            final(self).wf(),
            Self::evolves(*old(self), *final(self)),
            Self::on_instance(
                *old(self),
                *final(self),
                id,
                r,
                |a: Instance<S>, b: Instance<S>, r: Result<SlotId, Error>|
                    Instance::stores_source(a, b, source, r),
            ),
    {
        let mut inst = match self.take_instance(id) {
            Ok(inst) => inst,
            Err(e) => {
                return Err(e);
            },
        };
        let r = inst.store_source(source);
        let ghost g = inst;
        self.put_instance(id, inst);
        proof {
            self.lemma_put_back(*old(self), id, g);
        }
        r
    }

    /// First half of `run` on instance `id`: the code to execute for `slot`.
    /// With no slot there is nothing to run. `None` also comes back when the
    /// slot already holds a result.
    pub fn source_to_run(&self, id: ResourceId, slot: Option<SlotId>) -> (r: Result<
        Option<String>,
        Error,
    >)
        ensures
            match slot {
                None => r == Ok::<Option<String>, Error>(None),
                Some(k) => match r {
                    Ok(Some(src)) => self.has_instance(id) && self.instance_at(id).slots().contains_key(k)
                        && self.instance_at(id).slots()[k] == crate::instance::Slot::Source(src),
                    Ok(None) => self.has_instance(id) && self.instance_at(id).holds_result(k),
                    Err(e) => e == Error::NotFound && !(self.has_instance(id)
                        && self.instance_at(id).slots().contains_key(k)),
                },
            },
    {
        match slot {
            None => Ok(None),
            Some(k) => match self.instance(id) {
                Ok(inst) => inst.source_of(k),
                Err(e) => Err(e),
            },
        }
    }

    /// Second half of `run` on instance `id`: records the outcome of
    /// executing `slot`. A value turns the source slot into a result slot; a
    /// failure is returned and leaves the source slot to be retried.
    pub fn record_outcome(
        &mut self,
        id: ResourceId,
        slot: SlotId,
        outcome: Result<serde_json::Value, Error>,
    ) -> (r: Result<(), Error>)
        requires
            old(self).wf(),
        ensures
            final(self).wf(),
            Self::evolves(*old(self), *final(self)),
            Self::on_instance(
                *old(self),
                *final(self),
                id,
                r,
                |a: Instance<S>, b: Instance<S>, r: Result<(), Error>|
                    Instance::records_outcome(a, b, slot, outcome, r),
            ),
    {
        let mut inst = match self.take_instance(id) {
            Ok(inst) => inst,
            Err(e) => {
                return Err(e);
            },
        };
        let r = inst.record_outcome(slot, outcome);
        let ghost g = inst;
        self.put_instance(id, inst);
        proof {
            self.lemma_put_back(*old(self), id, g);
        }
        r
    }

    /// `cancel`: closes the instance under `id`, ending its session and
    /// discarding its slots. Fails with `NotFound` when no instance is live
    /// under `id`.
    pub fn cancel(&mut self, id: ResourceId) -> (r: Result<(), Error>)
        requires
            old(self).wf(),
        ensures
            final(self).wf(),
            Self::evolves(*old(self), *final(self)),
            Self::cancels(*old(self), *final(self), id, r),
    {
        match self.take_instance(id) {
            Ok(_) => Ok(()),
            Err(e) => Err(e),
        }
    }

    /// Operations compose: what two runs of operations keep, their sequence
    /// keeps.
    pub proof fn lemma_evolves_trans(a: Self, b: Self, c: Self)
        requires
            Self::evolves(a, b),
            Self::evolves(b, c),
        ensures
            Self::evolves(a, c),
    {
        assert forall|id: ResourceId|
            #[trigger] c.resources().contains_key(id) && (id as nat) < a.next_id()
                implies a.resources().contains_key(id) by {
            assert(b.resources().contains_key(id));
        }
    }

    /// Instance identifiers from two registrations on one host, the second
    /// after any operations that follow the first, are distinct and strictly
    /// increasing.
    pub proof fn lemma_register_ids_increase(
        h0: Self,
        h1: Self,
        h2: Self,
        h3: Self,
        s1: Result<S, Error>,
        s2: Result<S, Error>,
        id1: ResourceId,
        id2: ResourceId,
    )
        requires
            Self::registers(h0, h1, s1, Ok(id1)),
            Self::evolves(h1, h2),
            Self::registers(h2, h3, s2, Ok(id2)),
        ensures
            id1 < id2,
    {
    }

    /// Cancelling an instance twice: the first call succeeds and leaves no
    /// trace of it in the registry; the second fails with `NotFound`, and so
    /// does every later operation on that identifier, since it is never handed
    /// out again.
    pub proof fn lemma_cancel_twice(h0: Self, h1: Self, h2: Self, later: Self, id: ResourceId, r1: Result<(), Error>, r2: Result<(), Error>)
        requires
            h0.wf(),
            h0.has_instance(id),
            Self::cancels(h0, h1, id, r1),
            Self::cancels(h1, h2, id, r2),
            Self::evolves(h1, later),
        ensures
            r1 == Ok::<(), Error>(()),
            h1.resources() == h0.resources().remove(id),
            r2 == Err::<(), Error>(Error::NotFound),
            !later.resources().contains_key(id),
    {
        h0.table.lemma_live_below_next(id);
    }

    proof fn lemma_put_back(&self, pre: Self, id: ResourceId, g: Instance<S>)
        requires
            pre.has_instance(id),
            self.next_id() == pre.next_id(),
            self.resources() == pre.resources().remove(id).insert(id, Resource::Instance(g)),
        ensures
            Self::evolves(pre, *self),
            self.has_instance(id),
            self.instance_at(id) == g,
            self.resources() == pre.resources().insert(id, Resource::Instance(g)),
    {
        assert(self.resources() =~= pre.resources().insert(id, Resource::Instance(g)));
        assert forall|k: ResourceId|
            #[trigger] self.resources().contains_key(k) && (k as nat) < pre.next_id()
                implies pre.resources().contains_key(k) by {
            assert(self.resources().dom().contains(k));
        }
    }
}

} // verus!
