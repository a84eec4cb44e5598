//! Correlation of relayed responses: each outstanding request holds a
//! correlation identifier and a single-use completion slot, so that
//! concurrent callers waiting on one relay are never handed each other's
//! responses.

use vstd::prelude::*;
use crate::transport::{Response, ResponseModel};

verus! {

/// The state of the first slot with the given identifier: nothing if no
/// such slot, a waiting slot, or the response it was fulfilled with.
pub open spec fn slot_find(
    slots: Seq<(u64, Option<ResponseModel>)>,
    id: u64,
) -> Option<Option<ResponseModel>>
    decreases slots.len(),
{
    if slots.len() == 0 {
        None
    } else if slots[0].0 == id {
        Some(slots[0].1)
    } else {
        slot_find(slots.skip(1), id)
    }
}

/// Skipping a matchless prefix does not change which slot is found.
proof fn lemma_slot_skip(slots: Seq<(u64, Option<ResponseModel>)>, id: u64, i: int)
    requires
        0 <= i <= slots.len(),
        forall|j: int| 0 <= j < i ==> (#[trigger] slots[j]).0 != id,
    ensures
        slot_find(slots, id) == slot_find(slots.skip(i), id),
    decreases i,
{
    if i == 0 {
        assert(slots.skip(0) =~= slots);
    } else {
        assert(slots[0].0 != id);
        assert forall|j: int| 0 <= j < i - 1 implies (#[trigger] slots.skip(1)[j]).0 != id by {
            assert(slots.skip(1)[j] == slots[j + 1]);
        }
        lemma_slot_skip(slots.skip(1), id, i - 1);
        assert(slots.skip(1).skip(i - 1) =~= slots.skip(i));
    }
}

/// Replacing the slot state at the first occurrence of an identifier
/// changes that identifier's slot and no other.
proof fn lemma_slot_update(
    slots: Seq<(u64, Option<ResponseModel>)>,
    i: int,
    pair: (u64, Option<ResponseModel>),
    id: u64,
)
    requires
        0 <= i < slots.len(),
        slots[i].0 == pair.0,
        forall|j: int| 0 <= j < i ==> (#[trigger] slots[j]).0 != pair.0,
    ensures
        slot_find(slots.update(i, pair), pair.0) == Some(pair.1),
        id != pair.0 ==> slot_find(slots.update(i, pair), id) == slot_find(slots, id),
    decreases i,
{
    let upd = slots.update(i, pair);
    if i == 0 {
        assert(upd[0] == pair);
        assert(upd.skip(1) =~= slots.skip(1));
    } else {
        assert(upd[0] == slots[0]);
        assert forall|j: int| 0 <= j < i - 1 implies (#[trigger] slots.skip(1)[j]).0 != pair.0 by {
            assert(slots.skip(1)[j] == slots[j + 1]);
        }
        lemma_slot_update(slots.skip(1), i - 1, pair, id);
        assert(upd.skip(1) =~= slots.skip(1).update(i - 1, pair));
    }
}

/// Appending a slot under a fresh identifier changes that identifier's
/// slot and no other.
proof fn lemma_slot_push(
    slots: Seq<(u64, Option<ResponseModel>)>,
    pair: (u64, Option<ResponseModel>),
    id: u64,
)
    requires
        slot_find(slots, pair.0) is None,
    ensures
        slot_find(slots.push(pair), pair.0) == Some(pair.1),
        id != pair.0 ==> slot_find(slots.push(pair), id) == slot_find(slots, id),
    decreases slots.len(),
{
    let ext = slots.push(pair);
    if slots.len() == 0 {
        assert(ext[0] == pair);
        assert(ext.skip(1) =~= Seq::<(u64, Option<ResponseModel>)>::empty());
        assert(slot_find(Seq::<(u64, Option<ResponseModel>)>::empty(), id) is None);
    } else {
        assert(ext[0] == slots[0]);
        assert(slots[0].0 != pair.0);
        lemma_slot_push(slots.skip(1), pair, id);
        assert(ext.skip(1) =~= slots.skip(1).push(pair));
    }
}

/// Removing the first slot of an identifier that occurs nowhere else
/// leaves that identifier slotless and every other identifier unchanged.
proof fn lemma_slot_remove(slots: Seq<(u64, Option<ResponseModel>)>, i: int, id: u64, other: u64)
    requires
        0 <= i < slots.len(),
        slots[i].0 == id,
        forall|j: int| 0 <= j < slots.len() && j != i ==> (#[trigger] slots[j]).0 != id,
    ensures
        slot_find(slots.remove(i), id) is None,
        other != id ==> slot_find(slots.remove(i), other) == slot_find(slots, other),
    decreases i,
{
    let rem = slots.remove(i);
    if i == 0 {
        assert(rem =~= slots.skip(1));
        assert forall|j: int| 0 <= j < rem.len() implies (#[trigger] rem[j]).0 != id by {
            assert(rem[j] == slots[j + 1]);
        }
        lemma_slot_skip(rem, id, rem.len() as int);
        assert(rem.skip(rem.len() as int) =~= Seq::<(u64, Option<ResponseModel>)>::empty());
    } else {
        assert(rem[0] == slots[0]);
        assert(slots[0].0 != id);
        assert forall|j: int|
            0 <= j < slots.skip(1).len() && j != i - 1 implies (#[trigger] slots.skip(1)[j]).0
            != id by {
            assert(slots.skip(1)[j] == slots[j + 1]);
        }
        lemma_slot_remove(slots.skip(1), i - 1, id, other);
        assert(rem.skip(1) =~= slots.skip(1).remove(i - 1));
    }
}

/// The slot pairs of the concrete table.
pub open spec fn slot_pairs_view(v: Seq<(u64, Option<Response>)>) -> Seq<
    (u64, Option<ResponseModel>),
> {
    v.map_values(
        |p: (u64, Option<Response>)|
            (
                p.0,
                match p.1 {
                    Some(resp) => Some(resp@),
                    None => None,
                },
            ),
    )
}

/// The map from correlation identifiers of outstanding requests to their
/// single-use completion slots.  One instance belongs to one relay
/// transport; the relay loop delivers into it, waiting callers take from
/// it, and a caller that abandons its wait cancels its slot so nothing
/// leaks.
pub struct RelayRouter {
    next_id: u64,
    slots: Vec<(u64, Option<Response>)>,
}

impl RelayRouter {
    /// The current slot table.
    pub closed spec fn slots_model(&self) -> Seq<(u64, Option<ResponseModel>)> {
        slot_pairs_view(self.slots@)
    }

    /// No further identifier can be handed out: the identifier space has
    /// been used up.
    pub closed spec fn exhausted(&self) -> bool {
        self.next_id == u64::MAX
    }

    /// Identifiers are handed out once and never reused: every slot's
    /// identifier is below the next fresh one, and no two slots share one.
    pub closed spec fn wf(&self) -> bool {
        &&& (forall|i: int|
            0 <= i < self.slots_model().len() ==> (#[trigger] self.slots_model()[i]).0
                < self.next_id)
        &&& (forall|i: int, j: int|
            0 <= i < j < self.slots_model().len() ==> (#[trigger] self.slots_model()[i]).0 != (
            #[trigger] self.slots_model()[j]).0)
    }

    /// A router with no outstanding requests.
    pub fn new() -> (r: RelayRouter)
        ensures
            r.wf(),
            !r.exhausted(),
            r.slots_model() == Seq::<(u64, Option<ResponseModel>)>::empty(),
    {
        let r = RelayRouter { next_id: 0, slots: Vec::new() };
        assert(r.slots_model() =~= Seq::<(u64, Option<ResponseModel>)>::empty());
        r
    }

    /// Registers one outstanding request: a fresh identifier with a
    /// waiting slot.  Nothing is handed out once the identifier space is
    /// exhausted.
    pub fn register(&mut self) -> (r: Option<u64>)
        requires
            old(self).wf(),
        ensures
            final(self).wf(),
            r is None <==> old(self).exhausted(),
            r is None ==> *final(self) == *old(self),
            r matches Some(id) ==> {
                &&& slot_find(old(self).slots_model(), id) is None
                &&& slot_find(final(self).slots_model(), id) == Some(
                    Option::<ResponseModel>::None,
                )
                &&& (forall|k: u64|
                    k != id ==> #[trigger] slot_find(final(self).slots_model(), k) == slot_find(
                        old(self).slots_model(),
                        k,
                    ))
            },
    {
        if self.next_id == u64::MAX {
            return None;
        }
        let id = self.next_id;
        let ghost slots0 = self.slots_model();
        proof {
            assert forall|j: int| 0 <= j < slots0.len() implies (#[trigger] slots0[j]).0 != id by {}
            lemma_slot_skip(slots0, id, slots0.len() as int);
            assert(slots0.skip(slots0.len() as int) =~= Seq::<
                (u64, Option<ResponseModel>),
            >::empty());
        }
        self.slots.push((id, None));
        self.next_id = id + 1;
        proof {
            assert(self.slots_model() =~= slots0.push((id, Option::<ResponseModel>::None)));
            assert forall|k: u64|
                k != id implies #[trigger] slot_find(self.slots_model(), k) == slot_find(
                slots0,
                k,
            ) by {
                lemma_slot_push(slots0, (id, Option::<ResponseModel>::None), k);
            }
            lemma_slot_push(slots0, (id, Option::<ResponseModel>::None), id);
        }
        Some(id)
    }

    /// Routes one incoming response to the slot of the request it answers.
    /// It lands exactly in a waiting slot of that identifier; an unknown
    /// identifier or an already fulfilled slot rejects it, and no other
    /// slot is touched either way.
    #[verifier::loop_isolation(false)]
    pub fn deliver(&mut self, id: u64, response: Response) -> (r: bool)
        requires
            old(self).wf(),
        ensures
            final(self).wf(),
            r == (slot_find(old(self).slots_model(), id) == Some(Option::<ResponseModel>::None)),
            !r ==> *final(self) == *old(self),
            r ==> slot_find(final(self).slots_model(), id) == Some(Some(response@)),
            r ==> (forall|k: u64|
                k != id ==> #[trigger] slot_find(final(self).slots_model(), k) == slot_find(
                    old(self).slots_model(),
                    k,
                )),
    {
        let ghost slots0 = self.slots_model();
        let n = self.slots.len();
        let mut i: usize = 0;
        while i < n
            invariant
                i <= n,
                *self == *old(self),
                n == self.slots@.len(),
                forall|j: int| 0 <= j < i ==> (#[trigger] slots0[j]).0 != id,
            decreases n - i,
        {
            if self.slots[i].0 == id {
                proof {
                    lemma_slot_skip(slots0, id, i as int);
                    assert(slots0.skip(i as int)[0] == slots0[i as int]);
                    assert(slot_find(slots0, id) == Some(slots0[i as int].1));
                }
                let waiting = self.slots[i].1.is_none();
                if !waiting {
                    return false;
                }
                let ghost pair = (id, Some(response@));
                self.slots.remove(i);
                self.slots.insert(i, (id, Some(response)));
                proof {
                    assert(self.slots_model() =~= slots0.update(i as int, pair));
                    assert forall|k: u64|
                        k != id implies #[trigger] slot_find(self.slots_model(), k) == slot_find(
                        slots0,
                        k,
                    ) by {
                        lemma_slot_update(slots0, i as int, pair, k);
                    }
                    lemma_slot_update(slots0, i as int, pair, id);
                }
                return true;
            }
            i += 1;
        }
        proof {
            lemma_slot_skip(slots0, id, n as int);
            assert(slots0.skip(n as int) =~= Seq::<(u64, Option<ResponseModel>)>::empty());
        }
        false
    }

    /// Hands a fulfilled response to its waiting caller and retires the
    /// slot; a still-waiting or unknown identifier yields nothing and
    /// changes nothing.
    #[verifier::loop_isolation(false)]
    pub fn take(&mut self, id: u64) -> (r: Option<Response>)
        requires
            old(self).wf(),
        ensures
            final(self).wf(),
            match slot_find(old(self).slots_model(), id) {
                Some(Some(m)) => {
                    &&& r matches Some(resp) && resp@ == m
                    &&& slot_find(final(self).slots_model(), id) is None
                    &&& (forall|k: u64|
                        k != id ==> #[trigger] slot_find(final(self).slots_model(), k)
                            == slot_find(old(self).slots_model(), k))
                },
                _ => r is None && *final(self) == *old(self),
            },
    {
        let ghost slots0 = self.slots_model();
        let n = self.slots.len();
        let mut i: usize = 0;
        while i < n
            invariant
                i <= n,
                *self == *old(self),
                n == self.slots@.len(),
                forall|j: int| 0 <= j < i ==> (#[trigger] slots0[j]).0 != id,
            decreases n - i,
        {
            if self.slots[i].0 == id {
                proof {
                    lemma_slot_skip(slots0, id, i as int);
                    assert(slots0.skip(i as int)[0] == slots0[i as int]);
                    assert(slot_find(slots0, id) == Some(slots0[i as int].1));
                }
                if self.slots[i].1.is_none() {
                    return None;
                }
                let entry = self.slots.remove(i);
                match entry.1 {
                    Some(resp) => {
                        proof {
                            assert(self.slots_model() =~= slots0.remove(i as int));
                            assert forall|j: int|
                                0 <= j < slots0.len() && j != i implies (#[trigger] slots0[j]).0
                                != id by {}
                            assert forall|k: u64|
                                k != id implies #[trigger] slot_find(self.slots_model(), k)
                                == slot_find(slots0, k) by {
                                lemma_slot_remove(slots0, i as int, id, k);
                            }
                            lemma_slot_remove(slots0, i as int, id, id);
                        }
                        return Some(resp);
                    },
                    None => {
                        proof {
                            assert(false);
                        }
                        return None;
                    },
                }
            }
            i += 1;
        }
        proof {
            lemma_slot_skip(slots0, id, n as int);
            assert(slots0.skip(n as int) =~= Seq::<(u64, Option<ResponseModel>)>::empty());
        }
        None
    }

    /// Abandons an outstanding request — a caller that timed out or is
    /// shutting down releases its slot so the reservation does not leak;
    /// no other slot is touched.
    #[verifier::loop_isolation(false)]
    pub fn cancel(&mut self, id: u64)
        requires
            old(self).wf(),
        ensures
            final(self).wf(),
            slot_find(final(self).slots_model(), id) is None,
            forall|k: u64|
                k != id ==> #[trigger] slot_find(final(self).slots_model(), k) == slot_find(
                    old(self).slots_model(),
                    k,
                ),
    {
        let ghost slots0 = self.slots_model();
        let n = self.slots.len();
        let mut i: usize = 0;
        while i < n
            invariant
                i <= n,
                *self == *old(self),
                n == self.slots@.len(),
                forall|j: int| 0 <= j < i ==> (#[trigger] slots0[j]).0 != id,
            decreases n - i,
        {
            if self.slots[i].0 == id {
                proof {
                    lemma_slot_skip(slots0, id, i as int);
                    assert(slots0.skip(i as int)[0] == slots0[i as int]);
                }
                self.slots.remove(i);
                proof {
                    assert(self.slots_model() =~= slots0.remove(i as int));
                    assert forall|j: int|
                        0 <= j < slots0.len() && j != i implies (#[trigger] slots0[j]).0 != id by {}
                    assert forall|k: u64|
                        k != id implies #[trigger] slot_find(self.slots_model(), k) == slot_find(
                        slots0,
                        k,
                    ) by {
                        lemma_slot_remove(slots0, i as int, id, k);
                    }
                    lemma_slot_remove(slots0, i as int, id, id);
                }
                return ;
            }
            i += 1;
        }
        proof {
            lemma_slot_skip(slots0, id, n as int);
            assert(slots0.skip(n as int) =~= Seq::<(u64, Option<ResponseModel>)>::empty());
        }
    }
}

} // verus!
