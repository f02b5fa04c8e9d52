//! The pending-request table of the correlation protocol: every outbound
//! request is registered under its envelope identifier with an empty
//! completion slot; inbound traffic is demultiplexed against it. The first
//! matching response fulfills the slot, later duplicates are dropped
//! silently, responses matching nothing are stale and dropped, and inbound
//! requests are handed to the acceptor. Entries with no response by their
//! deadline are taken out and reported as timeouts.

use vstd::prelude::*;
use vstd::pervasive::VecAdditionalExecFns;
use crate::messages::{Envelope, Message, Request, Response};

verus! {

/// First-match lookup of the completion slot registered under `id`.
pub open spec fn lookup_slot(entries: Seq<(u128, Option<Response>)>, id: u128) -> Option<
    Option<Response>,
>
    decreases entries.len(),
{
    if entries.len() == 0 {
        Option::None
    } else if entries[0].0 == id {
        Option::Some(entries[0].1)
    } else {
        lookup_slot(entries.drop_first(), id)
    }
}

/// A lookup misses exactly when no entry carries the identifier.
proof fn lemma_lookup_slot_none(entries: Seq<(u128, Option<Response>)>, id: u128)
    ensures
        (lookup_slot(entries, id) is None) == (forall|j: int|
            0 <= j < entries.len() ==> (#[trigger] entries[j]).0 != id),
    decreases entries.len(),
{
    if entries.len() > 0 {
        lemma_lookup_slot_none(entries.drop_first(), id);
        if entries[0].0 != id && lookup_slot(entries.drop_first(), id) is None {
            assert forall|j: int| 0 <= j < entries.len() implies (#[trigger] entries[j]).0
                != id by {
                if j > 0 {
                    assert(entries.drop_first()[j - 1] == entries[j]);
                }
            }
        }
        if lookup_slot(entries.drop_first(), id) matches Option::Some(_) {
            assert(exists|j: int|
                0 <= j < entries.drop_first().len() && (#[trigger] entries.drop_first()[j]).0
                    == id);
            let w = choose|j: int|
                0 <= j < entries.drop_first().len() && (#[trigger] entries.drop_first()[j]).0
                    == id;
            assert(entries[w + 1].0 == id);
        }
    }
}

/// Replacing the first entry that carries `id` with a new slot for the same
/// identifier changes what a lookup finds for `id` and for no other one.
proof fn lemma_lookup_slot_update(
    entries: Seq<(u128, Option<Response>)>,
    i: int,
    newentry: (u128, Option<Response>),
    id: u128,
)
    requires
        0 <= i < entries.len(),
        entries[i].0 == id,
        newentry.0 == id,
        forall|j: int| 0 <= j < i ==> entries[j].0 != id,
    ensures
        lookup_slot(entries.update(i, newentry), id) == Option::Some(newentry.1),
        forall|id2: u128|
            id2 != id ==> lookup_slot(entries.update(i, newentry), id2) == lookup_slot(
                entries,
                id2,
            ),
    decreases i,
{
    let updated = entries.update(i, newentry);
    if i == 0 {
        assert(updated[0] == newentry);
        assert(updated.drop_first() =~= entries.drop_first());
    } else {
        assert(updated[0] == entries[0]);
        assert forall|j: int| 0 <= j < i - 1 implies entries.drop_first()[j].0 != id by {
            assert(entries.drop_first()[j] == entries[j + 1]);
        }
        assert(entries.drop_first()[i - 1] == entries[i]);
        lemma_lookup_slot_update(entries.drop_first(), i - 1, newentry, id);
        assert(updated.drop_first() =~= entries.drop_first().update(i - 1, newentry));
        assert forall|id2: u128| id2 != id implies lookup_slot(updated, id2) == lookup_slot(
            entries,
            id2,
        ) by {
            if id2 != entries[0].0 {
                assert(lookup_slot(updated, id2) == lookup_slot(updated.drop_first(), id2));
                assert(lookup_slot(entries, id2) == lookup_slot(entries.drop_first(), id2));
            }
        }
    }
}

/// Appending an entry for an identifier that is absent makes a lookup find
/// it, and changes no other identifier.
proof fn lemma_lookup_slot_push(
    entries: Seq<(u128, Option<Response>)>,
    newentry: (u128, Option<Response>),
    id: u128,
)
    requires
        lookup_slot(entries, id) is None,
        newentry.0 == id,
    ensures
        lookup_slot(entries.push(newentry), id) == Option::Some(newentry.1),
        forall|id2: u128|
            id2 != id ==> lookup_slot(entries.push(newentry), id2) == lookup_slot(entries, id2),
    decreases entries.len(),
{
    let pushed = entries.push(newentry);
    if entries.len() == 0 {
        assert(pushed[0] == newentry);
        assert(pushed.drop_first() =~= Seq::<(u128, Option<Response>)>::empty());
        assert forall|id2: u128| id2 != id implies lookup_slot(pushed, id2) == lookup_slot(
            entries,
            id2,
        ) by {
            assert(lookup_slot(pushed.drop_first(), id2) is None);
        }
    } else {
        assert(pushed[0] == entries[0]);
        lemma_lookup_slot_push(entries.drop_first(), newentry, id);
        assert(pushed.drop_first() =~= entries.drop_first().push(newentry));
        assert forall|id2: u128| id2 != id implies lookup_slot(pushed, id2) == lookup_slot(
            entries,
            id2,
        ) by {
            if id2 != entries[0].0 {
                assert(lookup_slot(pushed, id2) == lookup_slot(pushed.drop_first(), id2));
                assert(lookup_slot(entries, id2) == lookup_slot(entries.drop_first(), id2));
            }
        }
    }
}

/// Removing the only entry that carries `id` makes a lookup for `id` miss,
/// and changes no other identifier.
proof fn lemma_lookup_slot_remove(entries: Seq<(u128, Option<Response>)>, i: int, id: u128)
    requires
        0 <= i < entries.len(),
        entries[i].0 == id,
        forall|j: int| 0 <= j < entries.len() && j != i ==> (#[trigger] entries[j]).0 != id,
    ensures
        lookup_slot(entries.remove(i), id) is None,
        forall|id2: u128|
            id2 != id ==> lookup_slot(entries.remove(i), id2) == lookup_slot(entries, id2),
    decreases i,
{
    let removed = entries.remove(i);
    if i == 0 {
        assert(removed =~= entries.drop_first());
        lemma_lookup_slot_none(entries.drop_first(), id);
        assert forall|j: int| 0 <= j < entries.drop_first().len() implies (#[trigger]
        entries.drop_first()[j]).0 != id by {
            assert(entries.drop_first()[j] == entries[j + 1]);
        }
    } else {
        assert(removed[0] == entries[0]);
        assert(entries[0].0 != id);
        assert forall|j: int|
            0 <= j < entries.drop_first().len() && j != i - 1 implies (#[trigger]
        entries.drop_first()[j]).0 != id by {
            assert(entries.drop_first()[j] == entries[j + 1]);
        }
        assert(entries.drop_first()[i - 1] == entries[i]);
        lemma_lookup_slot_remove(entries.drop_first(), i - 1, id);
        assert(removed.drop_first() =~= entries.drop_first().remove(i - 1));
        assert forall|id2: u128| id2 != id implies lookup_slot(removed, id2) == lookup_slot(
            entries,
            id2,
        ) by {
            if id2 != entries[0].0 {
                assert(lookup_slot(removed, id2) == lookup_slot(removed.drop_first(), id2));
                assert(lookup_slot(entries, id2) == lookup_slot(entries.drop_first(), id2));
            }
        }
    }
}

/// Where the demultiplexer sent one piece of inbound traffic.
pub enum Routed {
    /// A response that filled its pending slot: first match wins.
    Fulfilled,
    /// A response whose slot was already filled: a duplicate, dropped
    /// silently, as expected under a duplicating transport.
    Duplicate,
    /// A response matching no pending request: stale, dropped silently.
    Unknown,
    /// An inbound request, to be handled by the acceptor and answered under
    /// the carried identifier.
    Dispatch { uuid: u128, request: Request },
}

/// The sender's table of in-flight requests, keyed by envelope identifier,
/// each with a completion slot.
pub struct PendingTable {
    entries: Vec<(u128, Option<Response>)>,
}

impl PendingTable {
    /// The completion slot registered under `id`: absent if `id` is not
    /// registered, present-and-empty while the request is in flight,
    /// present-and-filled once a response arrived.
    pub closed spec fn slot_of(&self, id: u128) -> Option<Option<Response>> {
        lookup_slot(self.entries@, id)
    }

    /// Whether `id` is registered at all.
    pub open spec fn contains(&self, id: u128) -> bool {
        self.slot_of(id) is Some
    }

    /// Whether `id` is registered and still awaiting its response.
    pub open spec fn is_pending(&self, id: u128) -> bool {
        self.slot_of(id) == Option::Some(Option::None::<Response>)
    }

    /// Identifiers are registered at most once; the unique-id source never
    /// reuses one within the lifetime of a pending request, and `register`
    /// refuses a duplicate.
    pub closed spec fn wf(&self) -> bool {
        forall|j1: int, j2: int|
            0 <= j1 < j2 < self.entries@.len() ==> (#[trigger] self.entries@[j1]).0 != (
            #[trigger] self.entries@[j2]).0
    }

    /// An empty table: nothing in flight.
    pub fn new() -> (r: PendingTable)
        ensures
            r.wf(),
            forall|id: u128| r.slot_of(id) is None,
    {
        let r = PendingTable { entries: Vec::new() };
        proof {
            assert forall|id: u128| lookup_slot(r.entries@, id) is None by {
                assert(r.entries@.len() == 0);
            }
        }
        r
    }

    /// Index of the entry registered under `id`, tied to the spec lookup.
    fn find(&self, id: u128) -> (r: Option<usize>)
        ensures
            match r {
                Option::Some(i) => i < self.entries@.len() && self.entries@[i as int].0 == id
                    && self.slot_of(id) == Option::Some(self.entries@[i as int].1) && (forall|
                    j: int,
                |
                    0 <= j < i ==> (#[trigger] self.entries@[j]).0 != id),
                Option::None => self.slot_of(id) is None,
            },
    {
        let n = self.entries.len();
        let mut i: usize = 0;
        while i < n
            invariant
                n == self.entries@.len(),
                i <= n,
                forall|j: int| 0 <= j < i ==> (#[trigger] self.entries@[j]).0 != id,
            decreases n - i,
        {
            if self.entries[i].0 == id {
                proof {
                    lemma_lookup_slot_none(self.entries@, id);
                    lemma_skip_find(self.entries@, id, i as int);
                }
                return Some(i);
            }
            i += 1;
        }
        proof {
            lemma_lookup_slot_none(self.entries@, id);
        }
        None
    }

    /// Registers a fresh outbound identifier with an empty completion slot.
    /// A duplicate identifier is refused, leaving the table unchanged, so a
    /// well-formed table stays well-formed.
    pub fn register(&mut self, id: u128) -> (r: bool)
        ensures
            r == !old(self).contains(id),
            r ==> final(self).is_pending(id),
            !r ==> final(self).slot_of(id) == old(self).slot_of(id),
            forall|id2: u128| id2 != id ==> final(self).slot_of(id2) == old(self).slot_of(id2),
            old(self).wf() ==> final(self).wf(),
    {
        match self.find(id) {
            Some(_) => false,
            None => {
                proof {
                    lemma_lookup_slot_push(self.entries@, (id, Option::None), id);
                    lemma_lookup_slot_none(self.entries@, id);
                }
                self.entries.push((id, None));
                proof {
                    assert forall|j1: int, j2: int|
                        old(self).wf() && 0 <= j1 < j2 < self.entries@.len() implies (#[trigger]
                    self.entries@[j1]).0 != (#[trigger] self.entries@[j2]).0 by {
                        if j2 == self.entries@.len() - 1 {
                            assert(self.entries@[j1] == old(self).entries@[j1]);
                        } else {
                            assert(self.entries@[j1] == old(self).entries@[j1]);
                            assert(self.entries@[j2] == old(self).entries@[j2]);
                        }
                    }
                }
                true
            },
        }
    }

    /// Demultiplexes one piece of inbound traffic: a response fulfills its
    /// pending slot if it is the first to arrive, is dropped as a duplicate
    /// if the slot is already filled, and is dropped as stale if nothing is
    /// pending under its identifier; a request is handed out for dispatch
    /// with the table untouched.
    pub fn route(&mut self, env: Envelope) -> (r: Routed)
        ensures
            old(self).wf() ==> final(self).wf(),
            forall|id2: u128|
                id2 != env.uuid ==> final(self).slot_of(id2) == old(self).slot_of(id2),
            env.message matches Message::Request(req) ==> r == (Routed::Dispatch {
                uuid: env.uuid,
                request: req,
            }) && final(self).slot_of(env.uuid) == old(self).slot_of(env.uuid),
            env.message matches Message::Response(resp) ==> {
                &&& old(self).is_pending(env.uuid) ==> r is Fulfilled && final(self).slot_of(
                    env.uuid,
                ) == Option::Some(Option::Some(resp))
                &&& old(self).contains(env.uuid) && !old(self).is_pending(env.uuid) ==> r
                    is Duplicate && final(self).slot_of(env.uuid) == old(self).slot_of(env.uuid)
                &&& !old(self).contains(env.uuid) ==> r is Unknown && final(self).slot_of(env.uuid)
                    == old(self).slot_of(env.uuid)
            },
    {
        match env.message {
            Message::Request(request) => Routed::Dispatch { uuid: env.uuid, request },
            Message::Response(resp) => {
                match self.find(env.uuid) {
                    Some(i) => {
                        let filled = self.entries[i].1.is_some();
                        if filled {
                            Routed::Duplicate
                        } else {
                            let newentry = (env.uuid, Some(resp));
                            proof {
                                lemma_lookup_slot_update(self.entries@, i as int, newentry, env.uuid);
                            }
                            self.entries.set(i, newentry);
                            proof {
                                assert forall|j1: int, j2: int|
                                    old(self).wf() && 0 <= j1 < j2 < self.entries@.len() implies (
                                #[trigger] self.entries@[j1]).0 != (#[trigger]
                                self.entries@[j2]).0 by {
                                    assert(self.entries@[j1].0 == old(self).entries@[j1].0);
                                    assert(self.entries@[j2].0 == old(self).entries@[j2].0);
                                }
                            }
                            Routed::Fulfilled
                        }
                    },
                    None => Routed::Unknown,
                }
            },
        }
    }

    /// Takes the entry for `id` out of the table: the response if one
    /// arrived, or nothing, which the caller reports as a timeout. Either
    /// way `id` is no longer tracked.
    pub fn take(&mut self, id: u128) -> (r: Option<Response>)
        requires
            old(self).wf(),
        ensures
            final(self).wf(),
            r == match old(self).slot_of(id) {
                Option::Some(s) => s,
                Option::None => Option::None::<Response>,
            },
            final(self).slot_of(id) is None,
            forall|id2: u128| id2 != id ==> final(self).slot_of(id2) == old(self).slot_of(id2),
    {
        match self.find(id) {
            Some(i) => {
                proof {
                    assert forall|j: int|
                        0 <= j < self.entries@.len() && j != i implies (#[trigger]
                    self.entries@[j]).0 != id by {
                        if j < i as int {
                        } else {
                            assert(self.entries@[i as int].0 == id);
                        }
                    }
                    lemma_lookup_slot_remove(self.entries@, i as int, id);
                }
                let entry = self.entries.remove(i);
                proof {
                    assert forall|j1: int, j2: int|
                        0 <= j1 < j2 < self.entries@.len() implies (#[trigger]
                    self.entries@[j1]).0 != (#[trigger] self.entries@[j2]).0 by {
                        let e0 = old(self).entries@;
                        let f1: int = if j1 < i as int {
                            j1
                        } else {
                            j1 + 1
                        };
                        let f2: int = if j2 < i as int {
                            j2
                        } else {
                            j2 + 1
                        };
                        assert(self.entries@[j1] == e0[f1]);
                        assert(self.entries@[j2] == e0[f2]);
                    }
                }
                entry.1
            },
            None => None,
        }
    }
}

/// When every entry before `i` misses `id` and entry `i` hits it, the lookup
/// finds entry `i`.
proof fn lemma_skip_find(entries: Seq<(u128, Option<Response>)>, id: u128, i: int)
    requires
        0 <= i < entries.len(),
        entries[i].0 == id,
        forall|j: int| 0 <= j < i ==> (#[trigger] entries[j]).0 != id,
    ensures
        lookup_slot(entries, id) == Option::Some(entries[i].1),
    decreases i,
{
    if i > 0 {
        assert(entries.drop_first()[i - 1] == entries[i]);
        assert forall|j: int| 0 <= j < i - 1 implies (#[trigger] entries.drop_first()[j]).0
            != id by {
            assert(entries.drop_first()[j] == entries[j + 1]);
        }
        lemma_skip_find(entries.drop_first(), id, i - 1);
    }
}

} // verus!
