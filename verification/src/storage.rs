//! Per-acceptor durable state: for each key, the highest ballot promised and
//! the highest-ballot value accepted, with atomic promise / accept operations
//! that can never regress an accepted value.

use vstd::prelude::*;
use vstd::pervasive::VecAdditionalExecFns;
use crate::versioned::{bytes_eq, copy_bytes, VersionedValue};

verus! {

/// The state an acceptor keeps for one key. The promised ballot may exceed
/// the ballot of the currently accepted value.
#[derive(Debug)]
pub struct KeyState {
    pub promised: u64,
    pub accepted: VersionedValue,
}

/// First-match lookup in an association list of keyed states.
pub open spec fn lookup(entries: Seq<(Vec<u8>, KeyState)>, key: Seq<u8>) -> Option<KeyState>
    decreases entries.len(),
{
    if entries.len() == 0 {
        Option::None
    } else if entries[0].0@ == key {
        Option::Some(entries[0].1)
    } else {
        lookup(entries.drop_first(), key)
    }
}

/// Skipping entries whose keys all differ from `key` does not change what a
/// lookup finds.
proof fn lemma_lookup_skip(entries: Seq<(Vec<u8>, KeyState)>, key: Seq<u8>, i: int)
    requires
        0 <= i <= entries.len(),
        forall|j: int| 0 <= j < i ==> entries[j].0@ != key,
    ensures
        lookup(entries, key) == lookup(entries.skip(i), key),
    decreases i,
{
    if i == 0 {
        assert(entries.skip(0) =~= entries);
    } else {
        assert(entries[0].0@ != key);
        assert forall|j: int| 0 <= j < i - 1 implies entries.drop_first()[j].0@ != key by {
            assert(entries.drop_first()[j] == entries[j + 1]);
        }
        lemma_lookup_skip(entries.drop_first(), key, i - 1);
        assert(entries.drop_first().skip(i - 1) =~= entries.skip(i));
    }
}

/// Replacing the first entry that holds `key` with another entry for the same
/// key updates what a lookup finds for `key` and for no other key.
proof fn lemma_lookup_update(
    entries: Seq<(Vec<u8>, KeyState)>,
    i: int,
    newpair: (Vec<u8>, KeyState),
    key: Seq<u8>,
)
    requires
        0 <= i < entries.len(),
        entries[i].0@ == key,
        newpair.0@ == key,
        forall|j: int| 0 <= j < i ==> entries[j].0@ != key,
    ensures
        lookup(entries.update(i, newpair), key) == Option::Some(newpair.1),
        forall|k2: Seq<u8>|
            k2 != key ==> lookup(entries.update(i, newpair), k2) == lookup(entries, k2),
    decreases i,
{
    let updated = entries.update(i, newpair);
    if i == 0 {
        assert(updated[0] == newpair);
        assert(lookup(updated, key) == Option::Some(newpair.1));
        assert(updated.drop_first() =~= entries.drop_first());
        assert forall|k2: Seq<u8>| k2 != key implies lookup(updated, k2) == lookup(
            entries,
            k2,
        ) by {
            assert(updated[0].0@ == key);
            assert(entries[0].0@ == key);
        }
    } else {
        assert(updated[0] == entries[0]);
        assert(entries[0].0@ != key);
        assert forall|j: int| 0 <= j < i - 1 implies entries.drop_first()[j].0@ != key by {
            assert(entries.drop_first()[j] == entries[j + 1]);
        }
        assert(entries.drop_first()[i - 1] == entries[i]);
        lemma_lookup_update(entries.drop_first(), i - 1, newpair, key);
        assert(updated.drop_first() =~= entries.drop_first().update(i - 1, newpair));
        assert forall|k2: Seq<u8>| k2 != key implies lookup(updated, k2) == lookup(
            entries,
            k2,
        ) by {
            if k2 == entries[0].0@ {
                assert(lookup(updated, k2) == Option::Some(updated[0].1));
                assert(lookup(entries, k2) == Option::Some(entries[0].1));
            } else {
                assert(lookup(updated, k2) == lookup(updated.drop_first(), k2));
                assert(lookup(entries, k2) == lookup(entries.drop_first(), k2));
            }
        }
    }
}

/// Appending an entry for a key that is absent makes a lookup for that key
/// find it, and changes no other key.
proof fn lemma_lookup_push(entries: Seq<(Vec<u8>, KeyState)>, newpair: (Vec<u8>, KeyState), key: Seq<u8>)
    requires
        lookup(entries, key) is None,
        newpair.0@ == key,
    ensures
        lookup(entries.push(newpair), key) == Option::Some(newpair.1),
        forall|k2: Seq<u8>|
            k2 != key ==> lookup(entries.push(newpair), k2) == lookup(entries, k2),
    decreases entries.len(),
{
    let pushed = entries.push(newpair);
    if entries.len() == 0 {
        assert(pushed[0] == newpair);
        assert(pushed.drop_first() =~= Seq::<(Vec<u8>, KeyState)>::empty());
        assert forall|k2: Seq<u8>| k2 != key implies lookup(pushed, k2) == lookup(
            entries,
            k2,
        ) by {
            assert(lookup(pushed.drop_first(), k2) is None);
        }
    } else {
        assert(pushed[0] == entries[0]);
        assert(entries[0].0@ != key);
        lemma_lookup_push(entries.drop_first(), newpair, key);
        assert(pushed.drop_first() =~= entries.drop_first().push(newpair));
        assert forall|k2: Seq<u8>| k2 != key implies lookup(pushed, k2) == lookup(
            entries,
            k2,
        ) by {
            if k2 == entries[0].0@ {
            } else {
                assert(lookup(pushed, k2) == lookup(pushed.drop_first(), k2));
                assert(lookup(entries, k2) == lookup(entries.drop_first(), k2));
            }
        }
    }
}

/// Versioned storage: per-key promised ballots and accepted values, with
/// atomic, serialized promise / accept operations per key and fully
/// independent state across keys.
#[derive(Debug)]
pub struct Storage {
    entries: Vec<(Vec<u8>, KeyState)>,
}

impl Storage {
    /// The highest ballot this storage has promised for `key`; 0 if the key
    /// was never touched.
    pub closed spec fn promised_of(&self, key: Seq<u8>) -> u64 {
        match lookup(self.entries@, key) {
            Option::Some(st) => st.promised,
            Option::None => 0,
        }
    }

    /// The ballot of the currently accepted value for `key`; 0 if nothing was
    /// ever accepted.
    pub closed spec fn accepted_ballot_of(&self, key: Seq<u8>) -> u64 {
        match lookup(self.entries@, key) {
            Option::Some(st) => st.accepted.ballot,
            Option::None => 0,
        }
    }

    /// The payload of the currently accepted value for `key`; absent if
    /// nothing was ever accepted.
    pub closed spec fn accepted_payload_of(&self, key: Seq<u8>) -> Option<Seq<u8>> {
        match lookup(self.entries@, key) {
            Option::Some(st) => st.accepted.payload(),
            Option::None => Option::None,
        }
    }

    /// Well-formedness: nothing was ever accepted beyond the promised ballot.
    /// Both operations below preserve this, so an accepted ballot can never
    /// regress.
    pub open spec fn wf(&self) -> bool {
        forall|key: Seq<u8>| #![trigger self.promised_of(key)]
            self.accepted_ballot_of(key) <= self.promised_of(key)
    }

    /// Fresh storage: every key reads as never promised, never written.
    pub fn new() -> (r: Storage)
        ensures
            r.wf(),
            forall|key: Seq<u8>| r.promised_of(key) == 0,
            forall|key: Seq<u8>| r.accepted_ballot_of(key) == 0,
            forall|key: Seq<u8>| r.accepted_payload_of(key) is None,
    {
        let r = Storage { entries: Vec::new() };
        proof {
            assert forall|key: Seq<u8>| lookup(r.entries@, key) is None by {
                assert(r.entries@.len() == 0);
            }
        }
        r
    }

    /// Index of the first entry for `key`, tied to the spec-level lookup.
    fn find(&self, key: &Vec<u8>) -> (r: Option<usize>)
        ensures
            match r {
                Option::Some(i) => i < self.entries.len() && self.entries@[i as int].0@ == key@
                    && lookup(self.entries@, key@) == Option::Some(self.entries@[i as int].1)
                    && (forall|j: int| 0 <= j < i ==> self.entries@[j].0@ != key@),
                Option::None => lookup(self.entries@, key@) is None,
            },
    {
        let n = self.entries.len();
        let mut i: usize = 0;
        while i < n
            invariant
                n == self.entries.len(),
                i <= n,
                forall|j: int| 0 <= j < i ==> self.entries@[j].0@ != key@,
            decreases n - i,
        {
            let e = &self.entries[i];
            if bytes_eq(&e.0, key) {
                proof {
                    lemma_lookup_skip(self.entries@, key@, i as int);
                    assert(self.entries@.skip(i as int)[0] == self.entries@[i as int]);
                }
                return Some(i);
            }
            i += 1;
        }
        proof {
            lemma_lookup_skip(self.entries@, key@, i as int);
            assert(self.entries@.skip(i as int).len() == 0);
        }
        None
    }

    /// Reads the promised ballot and the accepted value for `key`.
    pub fn get(&self, key: &Vec<u8>) -> (r: (u64, VersionedValue))
        ensures
            r.0 == self.promised_of(key@),
            r.1.ballot == self.accepted_ballot_of(key@),
            r.1.payload() == self.accepted_payload_of(key@),
    {
        match self.find(key) {
            Some(i) => {
                let e = &self.entries[i];
                (e.1.promised, e.1.accepted.dup())
            },
            None => (0, VersionedValue::empty()),
        }
    }

    /// Atomically: if `ballot` is strictly greater than the promised ballot
    /// for `key`, raise the promise and report success; otherwise change
    /// nothing. The promised ballot never decreases, the accepted value never
    /// changes, and no other key is touched.
    pub fn promise(&mut self, key: &Vec<u8>, ballot: u64) -> (r: bool)
        ensures
            r == (ballot > old(self).promised_of(key@)),
            r ==> final(self).promised_of(key@) == ballot,
            !r ==> final(self).promised_of(key@) == old(self).promised_of(key@),
            final(self).promised_of(key@) >= old(self).promised_of(key@),
            final(self).accepted_ballot_of(key@) == old(self).accepted_ballot_of(key@),
            final(self).accepted_payload_of(key@) == old(self).accepted_payload_of(key@),
            forall|k2: Seq<u8>|
                k2 != key@ ==> final(self).promised_of(k2) == old(self).promised_of(k2)
                    && final(self).accepted_ballot_of(k2) == old(self).accepted_ballot_of(k2)
                    && final(self).accepted_payload_of(k2) == old(self).accepted_payload_of(k2),
            old(self).wf() ==> final(self).wf(),
    {
        match self.find(key) {
            Some(i) => {
                let cur = &self.entries[i];
                if ballot > cur.1.promised {
                    let newpair = (
                        copy_bytes(key),
                        KeyState { promised: ballot, accepted: cur.1.accepted.dup() },
                    );
                    proof {
                        lemma_lookup_update(self.entries@, i as int, newpair, key@);
                    }
                    self.entries.set(i, newpair);
                    proof {
                        assert forall|k: Seq<u8>| old(self).wf() implies self.accepted_ballot_of(
                            k,
                        ) <= self.promised_of(k) by {
                            assert(old(self).accepted_ballot_of(k) <= old(self).promised_of(k));
                        }
                    }
                    true
                } else {
                    false
                }
            },
            None => {
                if ballot > 0 {
                    let newpair = (
                        copy_bytes(key),
                        KeyState { promised: ballot, accepted: VersionedValue::empty() },
                    );
                    proof {
                        lemma_lookup_push(self.entries@, newpair, key@);
                    }
                    self.entries.push(newpair);
                    proof {
                        assert forall|k: Seq<u8>| old(self).wf() implies self.accepted_ballot_of(
                            k,
                        ) <= self.promised_of(k) by {
                            assert(old(self).accepted_ballot_of(k) <= old(self).promised_of(k));
                        }
                    }
                    true
                } else {
                    false
                }
            },
        }
    }

    /// Atomically: if `value.ballot` is at least the promised ballot for
    /// `key`, raise the promise to that ballot, store the value and report
    /// success; otherwise change nothing and return the accepted value that
    /// blocked the store. On well-formed storage the accepted ballot never
    /// decreases, and no other key is touched.
    ///
    /// At-or-above (not strictly above) lets a proposer re-send its own
    /// accept at the ballot it already holds; only the proposer that owns a
    /// ballot can send accepts at it, since ballots embed a proposer-unique
    /// tag, so a re-accept at an equal ballot carries the same payload.
    pub fn accept(&mut self, key: &Vec<u8>, value: VersionedValue) -> (r: Result<
        (),
        VersionedValue,
    >)
        ensures
            (r is Ok) == (value.ballot >= old(self).promised_of(key@)),
            r is Ok ==> final(self).promised_of(key@) == value.ballot
                && final(self).accepted_ballot_of(key@) == value.ballot
                && final(self).accepted_payload_of(key@) == value.payload(),
            r matches Err(cur) ==> cur.ballot == old(self).accepted_ballot_of(key@)
                && cur.payload() == old(self).accepted_payload_of(key@)
                && final(self).promised_of(key@) == old(self).promised_of(key@)
                && final(self).accepted_ballot_of(key@) == old(self).accepted_ballot_of(key@)
                && final(self).accepted_payload_of(key@) == old(self).accepted_payload_of(key@),
            final(self).promised_of(key@) >= old(self).promised_of(key@),
            old(self).wf() ==> final(self).accepted_ballot_of(key@) >= old(
                self,
            ).accepted_ballot_of(key@),
            forall|k2: Seq<u8>|
                k2 != key@ ==> final(self).promised_of(k2) == old(self).promised_of(k2)
                    && final(self).accepted_ballot_of(k2) == old(self).accepted_ballot_of(k2)
                    && final(self).accepted_payload_of(k2) == old(self).accepted_payload_of(k2),
            old(self).wf() ==> final(self).wf(),
    {
        match self.find(key) {
            Some(i) => {
                let cur = &self.entries[i];
                if value.ballot >= cur.1.promised {
                    let newpair = (
                        copy_bytes(key),
                        KeyState { promised: value.ballot, accepted: value },
                    );
                    proof {
                        lemma_lookup_update(self.entries@, i as int, newpair, key@);
                    }
                    self.entries.set(i, newpair);
                    proof {
                        assert forall|k: Seq<u8>| old(self).wf() implies self.accepted_ballot_of(
                            k,
                        ) <= self.promised_of(k) by {
                            assert(old(self).accepted_ballot_of(k) <= old(self).promised_of(k));
                        }
                    }
                    Ok(())
                } else {
                    Err(cur.1.accepted.dup())
                }
            },
            None => {
                let newpair = (copy_bytes(key), KeyState { promised: value.ballot, accepted: value });
                proof {
                    lemma_lookup_push(self.entries@, newpair, key@);
                }
                self.entries.push(newpair);
                proof {
                    assert forall|k: Seq<u8>| old(self).wf() implies self.accepted_ballot_of(
                        k,
                    ) <= self.promised_of(k) by {
                        assert(old(self).accepted_ballot_of(k) <= old(self).promised_of(k));
                    }
                }
                Ok(())
            },
        }
    }
}

} // verus!
