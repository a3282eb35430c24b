use std::collections::HashMap;
use vstd::prelude::*;
use crate::error::Error;
use crate::registry::ResourceId;
use crate::value::{encode_value, json_encoding};

verus! {

broadcast use vstd::std_specs::hash::group_hash_axioms;

/// How many steps of `issued` issued a slot.
pub open spec fn count_issued(issued: Seq<Option<SlotId>>) -> nat
    decreases issued.len(),
{
    if issued.len() == 0 {
        0
    } else {
        count_issued(issued.drop_last()) + if issued.last() is Some {
            1nat
        } else {
            0nat
        }
    }
}

proof fn lemma_count_issued_push(s: Seq<Option<SlotId>>, x: Option<SlotId>)
    ensures
        count_issued(s.push(x)) == count_issued(s) + if x is Some {
            1nat
        } else {
            0nat
        },
{
    assert(s.push(x).drop_last() =~= s);
}

proof fn lemma_count_issued_monotone(s: Seq<Option<SlotId>>, i: int, j: int)
    requires
        0 <= i <= j <= s.len(),
    ensures
        count_issued(s.take(i)) <= count_issued(s.take(j)),
    decreases j - i,
{
    if i < j {
        lemma_count_issued_monotone(s, i, j - 1);
        lemma_count_issued_push(s.take(j - 1), s[j - 1]);
        assert(s.take(j - 1).push(s[j - 1]) =~= s.take(j));
    }
}

/// Identifier of a slot within one instance.
pub type SlotId = ResourceId;

/// One step of a conversation: code awaiting execution, or its result.
pub enum Slot {
    Source(String),
    Computed(serde_json::Value),
}

/// One conversation with the controller: its session and its slot table.
pub struct Instance<S> {
    session: S,
    slots: HashMap<SlotId, Slot>,
    next_slot: SlotId,
}

impl<S> Instance<S> {
    /// The live slots, by identifier.
    pub closed spec fn slots(&self) -> Map<SlotId, Slot> {
        self.slots@
    }

    /// The identifier the next received fragment is stored under.
    pub closed spec fn next_slot(&self) -> nat {
        self.next_slot as nat
    }

    /// The session the instance talks over.
    pub closed spec fn spec_session(&self) -> S {
        self.session
    }

    /// Every live slot was issued already.
    pub closed spec fn wf(&self) -> bool {
        forall|id: SlotId| #[trigger] self.slots@.contains_key(id) ==> id < self.next_slot
    }

    /// Every live slot lies below the next identifier to be issued, so no
    /// slot ever sits where the next fragment will be stored.
    pub proof fn lemma_live_below_next_slot(&self, id: SlotId)
        requires
            self.wf(),
            self.slots().contains_key(id),
        ensures
            (id as nat) < self.next_slot(),
    {
    }

    /// Whether slot `id` holds code awaiting execution.
    pub open spec fn holds_source(&self, id: SlotId) -> bool {
        self.slots().contains_key(id) && self.slots()[id] is Source
    }

    /// Whether slot `id` holds a result awaiting report.
    pub open spec fn holds_result(&self, id: SlotId) -> bool {
        self.slots().contains_key(id) && self.slots()[id] is Computed
    }

    /// The effect of taking the result to report for `last`: where `last`
    /// names a result slot, its encoded value is handed out and the slot is
    /// gone; otherwise nothing changes and nothing is handed out.
    pub open spec fn takes_result(
        pre: Self,
        post: Self,
        last: Option<SlotId>,
        r: Option<Vec<u8>>,
    ) -> bool {
        &&& post.next_slot() == pre.next_slot()
        &&& post.spec_session() == pre.spec_session()
        &&& match last {
            Some(id) if pre.holds_result(id) => match r {
                Some(b) => b@ == json_encoding(pre.slots()[id]->Computed_0) && post.slots()
                    == pre.slots().remove(id),
                None => false,
            },
            _ => r is None && post.slots() == pre.slots(),
        }
    }

    /// The effect of storing a received fragment: it lands in a new source
    /// slot under the next identifier, which is returned.
    pub open spec fn stores_source(pre: Self, post: Self, source: String, r: Result<SlotId, Error>) -> bool {
        &&& post.spec_session() == pre.spec_session()
        &&& if pre.next_slot() < SlotId::MAX {
            &&& r == Ok::<SlotId, Error>(pre.next_slot() as SlotId)
            &&& post.next_slot() == pre.next_slot() + 1
            &&& post.slots() == pre.slots().insert(pre.next_slot() as SlotId, Slot::Source(source))
        } else {
            &&& r == Err::<SlotId, Error>(Error::Exhausted)
            &&& post == pre
        }
    }

    /// The effect of recording the outcome of executing slot `id`: a value
    /// turns a source slot into a result slot; a failure leaves the source
    /// slot in place to be retried. A slot that is missing fails with
    /// `NotFound`, and a slot that already holds a result is kept.
    pub open spec fn records_outcome(
        pre: Self,
        post: Self,
        id: SlotId,
        outcome: Result<serde_json::Value, Error>,
        r: Result<(), Error>,
    ) -> bool {
        &&& post.next_slot() == pre.next_slot()
        &&& post.spec_session() == pre.spec_session()
        &&& if !pre.slots().contains_key(id) {
            r == Err::<(), Error>(Error::NotFound) && post.slots() == pre.slots()
        } else if pre.holds_result(id) {
            r == Ok::<(), Error>(()) && post.slots() == pre.slots()
        } else {
            match outcome {
                Ok(v) => r == Ok::<(), Error>(()) && post.slots() == pre.slots().insert(
                    id,
                    Slot::Computed(v),
                ),
                Err(e) => r == Err::<(), Error>(e) && post.slots() == pre.slots(),
            }
        }
    }

    /// How a step moves the slot counter: a step that issues slot `k` issues
    /// the counter's value and advances it by one; any other step leaves it.
    pub open spec fn advances(pre: Self, post: Self, issued: Option<SlotId>) -> bool {
        match issued {
            Some(k) => k as nat == pre.next_slot() && post.next_slot() == pre.next_slot() + 1,
            None => post.next_slot() == pre.next_slot(),
        }
    }

    /// One operation on an instance, of any kind, issuing the slot named by
    /// `issued` or none.
    pub open spec fn one_step(pre: Self, post: Self, issued: Option<SlotId>) -> bool {
        ||| issued is None && exists|last: Option<SlotId>, r: Option<Vec<u8>>|
            Self::takes_result(pre, post, last, r)
        ||| exists|source: String, r: Result<SlotId, Error>|
            Self::stores_source(pre, post, source, r) && issued == match r {
                Ok(k) => Some(k),
                Err(_) => None::<SlotId>,
            }
        ||| issued is None && exists|id: SlotId, o: Result<serde_json::Value, Error>, r: Result<(), Error>|
            Self::records_outcome(pre, post, id, o, r)
    }

    /// Every operation moves the slot counter as [`Self::advances`] says.
    pub proof fn lemma_one_step_advances(pre: Self, post: Self, issued: Option<SlotId>)
        requires
            Self::one_step(pre, post, issued),
        ensures
            Self::advances(pre, post, issued),
    {
    }

    /// Slot identifiers issued by polls on a fresh instance, whatever ran in
    /// between: the `i`-th step that issues one issues the number of steps
    /// before it that issued one. So they start at 0, rise by one each time and
    /// skip none, however many slots were consumed meanwhile.
    pub proof fn lemma_slot_ids_sequential(states: Seq<Self>, issued: Seq<Option<SlotId>>)
        requires
            states.len() == issued.len() + 1,
            states[0].next_slot() == 0,
            forall|i: int| 0 <= i < issued.len() ==> #[trigger] Self::one_step(states[i], states[i + 1], issued[i]),
        ensures
            forall|i: int| 0 <= i < states.len() ==> #[trigger] states[i].next_slot() == count_issued(issued.take(i)),
            forall|i: int| 0 <= i < issued.len() && #[trigger] issued[i] is Some ==> issued[i]->Some_0 as nat == count_issued(issued.take(i)),
            forall|i: int, j: int|
                0 <= i < j < issued.len() && #[trigger] issued[i] is Some && #[trigger] issued[j] is Some ==> issued[i]->Some_0 < issued[j]->Some_0,
        decreases issued.len(),
    {
        if issued.len() > 0 {
            let n = issued.len() - 1;
            let front_states = states.take(n + 1);
            let front = issued.take(n);
            assert forall|i: int| 0 <= i < front.len() implies #[trigger] Self::one_step(front_states[i], front_states[i + 1], front[i]) by {
                assert(Self::one_step(states[i], states[i + 1], issued[i]));
            }
            Self::lemma_slot_ids_sequential(front_states, front);
            Self::lemma_one_step_advances(states[n], states[n + 1], issued[n]);
            assert forall|i: int| 0 <= i < states.len() implies #[trigger] states[i].next_slot() == count_issued(issued.take(i)) by {
                if i <= n {
                    assert(front_states[i] == states[i]);
                    assert(front.take(i) =~= issued.take(i));
                } else {
                    assert(issued.take(n + 1) =~= issued);
                    assert(issued.take(n) =~= front);
                    assert(front_states[n] == states[n]);
                    assert(front.take(n) =~= front);
                    lemma_count_issued_push(issued.take(n), issued[n]);
                    assert(issued.take(n).push(issued[n]) =~= issued);
                }
            }
            assert forall|i: int| 0 <= i < issued.len() && #[trigger] issued[i] is Some implies issued[i]->Some_0 as nat == count_issued(issued.take(i)) by {
                Self::lemma_one_step_advances(states[i], states[i + 1], issued[i]);
                assert(Self::one_step(states[i], states[i + 1], issued[i]));
            }
            assert forall|i: int, j: int|
                0 <= i < j < issued.len() && #[trigger] issued[i] is Some && #[trigger] issued[j] is Some implies issued[i]->Some_0 < issued[j]->Some_0 by {
                Self::lemma_one_step_advances(states[i], states[i + 1], issued[i]);
                Self::lemma_one_step_advances(states[j], states[j + 1], issued[j]);
                assert(Self::one_step(states[i], states[i + 1], issued[i]));
                assert(Self::one_step(states[j], states[j + 1], issued[j]));
                lemma_count_issued_monotone(issued, i + 1, j);
                lemma_count_issued_push(issued.take(i), issued[i]);
                assert(issued.take(i).push(issued[i]) =~= issued.take(i + 1));
            }
        }
    }

    /// A slot that is gone and was issued before stays gone through any
    /// operation.
    proof fn lemma_gone_stays_gone(pre: Self, post: Self, issued: Option<SlotId>, id: SlotId)
        requires
            Self::one_step(pre, post, issued),
            !pre.slots().contains_key(id),
            (id as nat) < pre.next_slot(),
        ensures
            !post.slots().contains_key(id),
            (id as nat) < post.next_slot(),
    {
        Self::lemma_one_step_advances(pre, post, issued);
    }

    proof fn lemma_gone_along(states: Seq<Self>, issued: Seq<Option<SlotId>>, id: SlotId)
        requires
            states.len() == issued.len() + 1,
            !states[0].slots().contains_key(id),
            (id as nat) < states[0].next_slot(),
            forall|i: int| 0 <= i < issued.len() ==> #[trigger] Self::one_step(states[i], states[i + 1], issued[i]),
        ensures
            forall|j: int| 0 <= j < states.len() ==> !(#[trigger] states[j].slots()).contains_key(id) && (id as nat) < states[j].next_slot(),
        decreases issued.len(),
    {
        if issued.len() > 0 {
            let n = issued.len() - 1;
            let front_states = states.take(n + 1);
            let front = issued.take(n);
            assert forall|i: int| 0 <= i < front.len() implies #[trigger] Self::one_step(front_states[i], front_states[i + 1], front[i]) by {
                assert(Self::one_step(states[i], states[i + 1], issued[i]));
            }
            Self::lemma_gone_along(front_states, front, id);
            assert(front_states[n] == states[n]);
            assert(Self::one_step(states[n], states[n + 1], issued[n]));
            Self::lemma_gone_stays_gone(states[n], states[n + 1], issued[n], id);
            assert forall|j: int| 0 <= j < states.len() implies !(#[trigger] states[j].slots()).contains_key(id) && (id as nat) < states[j].next_slot() by {
                if j <= n {
                    assert(front_states[j] == states[j]);
                }
            }
        }
    }

    /// Round trip of a slot: recording value `v` for a source slot makes it a
    /// result slot holding `v`; the next poll naming that slot sends the JSON
    /// text of `v` and removes the slot; and through any operations after that
    /// the slot stays gone, so no later poll sends `v` again.
    pub proof fn lemma_result_reported_once(
        i0: Self,
        i1: Self,
        i2: Self,
        id: SlotId,
        v: serde_json::Value,
        r1: Result<(), Error>,
        r2: Option<Vec<u8>>,
        later: Seq<Self>,
        issued: Seq<Option<SlotId>>,
    )
        requires
            i0.wf(),
            i0.holds_source(id),
            Self::records_outcome(i0, i1, id, Ok(v), r1),
            Self::takes_result(i1, i2, Some(id), r2),
            later.len() == issued.len() + 1,
            later[0] == i2,
            forall|i: int| 0 <= i < issued.len() ==> #[trigger] Self::one_step(later[i], later[i + 1], issued[i]),
        ensures
            r1 == Ok::<(), Error>(()),
            i1.slots()[id] == Slot::Computed(v),
            r2 is Some,
            r2->Some_0@ == json_encoding(v),
            i2.slots() == i1.slots().remove(id),
            forall|j: int| 0 <= j < later.len() ==> !(#[trigger] later[j].slots()).contains_key(id),
    {
        assert(i0.slots().contains_key(id));
        Self::lemma_gone_along(later, issued, id);
    }

    /// A new instance around `session`, with no slots; its first slot is 0.
    pub fn from_session(session: S) -> (r: Self)
        ensures
            r.wf(),
            r.spec_session() == session,
            r.slots() == Map::<SlotId, Slot>::empty(),
            r.next_slot() == 0,
    {
        Instance { session, slots: HashMap::new(), next_slot: 0 }
    }

    /// The session the instance talks over.
    pub fn session(&self) -> (r: &S)
        ensures
            *r == self.spec_session(),
    {
        &self.session
    }

    /// First half of a poll: when `last` names a result slot, removes it and
    /// returns the bytes to send for it.
    pub fn take_result(&mut self, last: Option<SlotId>) -> (r: Option<Vec<u8>>)
        requires
            old(self).wf(),
        ensures
            final(self).wf(),
            Self::takes_result(*old(self), *final(self), last, r),
    {
        if let Some(id) = last {
            let bytes = match self.slots.get(&id) {
                Some(Slot::Computed(value)) => match encode_value(value) {
                    Ok(bytes) => bytes,
                    Err(_) => vstd::pervasive::unreached(),
                },
                _ => {
                    return None;
                },
            };
            self.slots.remove(&id);
            Some(bytes)
        } else {
            None
        }
    }

    /// Second half of a poll: stores a received fragment in a new source slot
    /// and returns its identifier.
    pub fn store_source(&mut self, source: String) -> (r: Result<SlotId, Error>)
        requires
            old(self).wf(),
        ensures
            final(self).wf(),
            Self::stores_source(*old(self), *final(self), source, r),
    {
        if self.next_slot == SlotId::MAX {
            return Err(Error::Exhausted);
        }
        let id = self.next_slot;
        self.slots.insert(id, Slot::Source(source));
        self.next_slot = id + 1;
        Ok(id)
    }

    /// The code to execute for slot `id`: `Some` with its text while it awaits
    /// execution, `None` once it holds a result, `NotFound` when it is missing.
    pub fn source_of(&self, id: SlotId) -> (r: Result<Option<String>, Error>)
        ensures
            match r {
                Ok(Some(s)) => self.holds_source(id) && self.slots()[id] == Slot::Source(s),
                Ok(None) => self.holds_result(id),
                Err(e) => e == Error::NotFound && !self.slots().contains_key(id),
            },
    {
        match self.slots.get(&id) {
            Some(Slot::Source(s)) => Ok(Some(s.clone())),
            Some(Slot::Computed(_)) => Ok(None),
            None => Err(Error::NotFound),
        }
    }

    /// Records the outcome of executing slot `id`.
    pub fn record_outcome(&mut self, id: SlotId, outcome: Result<serde_json::Value, Error>) -> (r:
        Result<(), Error>)
        requires
            old(self).wf(),
        ensures
            final(self).wf(),
            Self::records_outcome(*old(self), *final(self), id, outcome, r),
    {
        match self.slots.get(&id) {
            None => Err(Error::NotFound),
            Some(Slot::Computed(_)) => Ok(()),
            Some(Slot::Source(_)) => match outcome {
                Ok(v) => {
                    self.slots.insert(id, Slot::Computed(v));
                    Ok(())
                },
                Err(e) => Err(e),
            },
        }
    }
}

} // verus!
