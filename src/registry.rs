use std::collections::HashMap;
use vstd::prelude::*;

verus! {

broadcast use vstd::std_specs::hash::group_hash_axioms;

/// Identifier of a resource in a [`ResourceTable`].
pub type ResourceId = u32;

/// A table owning resources under integer identifiers, handed out in increasing
/// order and never handed out twice.
pub struct ResourceTable<R> {
    entries: HashMap<ResourceId, R>,
    next_id: ResourceId,
}

impl<R> ResourceTable<R> {
    /// The live resources, by identifier.
    pub closed spec fn entries(&self) -> Map<ResourceId, R> {
        self.entries@
    }

    /// The identifier the next insertion receives.
    pub closed spec fn next_id(&self) -> nat {
        self.next_id as nat
    }

    /// Every live identifier was handed out already.
    pub closed spec fn wf(&self) -> bool {
        forall|id: ResourceId| #[trigger] self.entries@.contains_key(id) ==> id < self.next_id
    }

    /// No identifier is left for another insertion.
    pub open spec fn spec_is_full(&self) -> bool {
        self.next_id() >= ResourceId::MAX
    }

    /// Every live identifier lies below the next one to be handed out.
    pub proof fn lemma_live_below_next(&self, id: ResourceId)
        requires
            self.wf(),
            self.entries().contains_key(id),
        ensures
            (id as nat) < self.next_id(),
    {
    }

    /// An empty table; the first insertion receives identifier 0.
    pub fn new() -> (r: Self)
        ensures
            r.wf(),
            r.entries() == Map::<ResourceId, R>::empty(),
            r.next_id() == 0,
    {
        ResourceTable { entries: HashMap::new(), next_id: 0 }
    }

    /// Whether the identifier space is used up.
    pub fn is_full(&self) -> (r: bool)
        ensures
            r == self.spec_is_full(),
    {
        self.next_id == ResourceId::MAX
    }

    /// Stores `resource` under a fresh identifier and returns that identifier.
    pub fn insert(&mut self, resource: R) -> (id: ResourceId)
        requires
            old(self).wf(),
            !old(self).spec_is_full(),
        ensures
            final(self).wf(),
            id == old(self).next_id(),
            !old(self).entries().contains_key(id),
            final(self).next_id() == old(self).next_id() + 1,
            final(self).entries() == old(self).entries().insert(id, resource),
    {
        let id = self.next_id;
        self.entries.insert(id, resource);
        self.next_id = id + 1;
        id
    }

    /// The resource under `id`, if it is live.
    pub fn get(&self, id: ResourceId) -> (r: Option<&R>)
        ensures
            match r {
                Some(v) => self.entries().contains_key(id) && *v == self.entries()[id],
                None => !self.entries().contains_key(id),
            },
    {
        self.entries.get(&id)
    }

    /// Removes the resource under `id` and hands it back, or returns `None`
    /// when `id` is not live. A closed identifier is never handed out again.
    pub fn close(&mut self, id: ResourceId) -> (r: Option<R>)
        requires
            old(self).wf(),
        ensures
            final(self).wf(),
            final(self).next_id() == old(self).next_id(),
            final(self).entries() == old(self).entries().remove(id),
            match r {
                Some(v) => old(self).entries().contains_key(id) && v == old(self).entries()[id],
                None => !old(self).entries().contains_key(id),
            },
    {
        self.entries.remove(&id)
    }

    /// Puts a resource taken out by [`Self::close`] back under its identifier,
    /// within one operation of the host that owns the table.
    pub(crate) fn restore(&mut self, id: ResourceId, resource: R)
        requires
            old(self).wf(),
            (id as nat) < old(self).next_id(),
        ensures
            final(self).wf(),
            final(self).next_id() == old(self).next_id(),
            final(self).entries() == old(self).entries().insert(id, resource),
    {
        self.entries.insert(id, resource);
    }
}

} // verus!
