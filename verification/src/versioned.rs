//! The atomic unit of agreement: a ballot number paired with an optional
//! payload, totally ordered by (ballot, payload) so that "most recent" is
//! always well defined.

use vstd::prelude::*;

verus! {

/// A possibly present payload together with the ballot under which it was
/// accepted. `ballot == 0` with an absent payload means "never written".
#[derive(Debug, Clone, PartialEq, Eq)]
pub struct VersionedValue {
    pub ballot: u64,
    pub value: Option<Vec<u8>>,
}

/// Strict lexicographic order on byte sequences, matching the order in which
/// byte vectors compare in Rust.
pub open spec fn bytes_lt(a: Seq<u8>, b: Seq<u8>) -> bool
    decreases a.len(),
{
    if b.len() == 0 {
        false
    } else if a.len() == 0 {
        true
    } else if a[0] < b[0] {
        true
    } else if b[0] < a[0] {
        false
    } else {
        bytes_lt(a.drop_first(), b.drop_first())
    }
}

/// Strict order on optional byte sequences: absence sorts below any present
/// payload, and present payloads compare lexicographically.
pub open spec fn opt_bytes_lt(a: Option<Seq<u8>>, b: Option<Seq<u8>>) -> bool {
    match (a, b) {
        (Option::None, Option::None) => false,
        (Option::None, Option::Some(_)) => true,
        (Option::Some(_), Option::None) => false,
        (Option::Some(x), Option::Some(y)) => bytes_lt(x, y),
    }
}

/// Strict order on versioned values: first by ballot, then by payload. A
/// higher ballot always wins regardless of payload content.
pub open spec fn vv_lt(a: VersionedValue, b: VersionedValue) -> bool {
    a.ballot < b.ballot || (a.ballot == b.ballot && opt_bytes_lt(a.payload(), b.payload()))
}

/// Two versioned values with equal ballot and equal payload are
/// interchangeable.
pub open spec fn vv_eq(a: VersionedValue, b: VersionedValue) -> bool {
    a.ballot == b.ballot && a.payload() == b.payload()
}

/// Non-strict order on versioned values.
pub open spec fn vv_le(a: VersionedValue, b: VersionedValue) -> bool {
    vv_lt(a, b) || vv_eq(a, b)
}

/// Outcome of a three-way comparison.
#[derive(Clone, Copy, Debug, PartialEq, Eq, Structural)]
pub enum Cmp {
    Less,
    Equal,
    Greater,
}

/// Compares the suffixes of `a` and `b` that start at index `i`.
fn bytes_cmp_from(a: &Vec<u8>, b: &Vec<u8>, i: usize) -> (r: Cmp)
    requires
        i <= a.len(),
        i <= b.len(),
    ensures
        (r is Less) == bytes_lt(a@.skip(i as int), b@.skip(i as int)),
        (r is Equal) == (a@.skip(i as int) == b@.skip(i as int)),
        (r is Greater) == bytes_lt(b@.skip(i as int), a@.skip(i as int)),
    decreases a.len() - i,
{
    if i == b.len() {
        if i == a.len() {
            proof {
                assert(a@.skip(i as int) =~= b@.skip(i as int));
            }
            Cmp::Equal
        } else {
            proof {
                assert(a@.skip(i as int).len() > 0);
                assert(a@.skip(i as int) != b@.skip(i as int));
            }
            Cmp::Greater
        }
    } else if i == a.len() {
        proof {
            assert(b@.skip(i as int).len() > 0);
            assert(a@.skip(i as int) != b@.skip(i as int));
        }
        Cmp::Less
    } else {
        let x = a[i];
        let y = b[i];
        if x < y {
            proof {
                assert(a@.skip(i as int)[0] == a@[i as int]);
                assert(b@.skip(i as int)[0] == b@[i as int]);
            }
            Cmp::Less
        } else if y < x {
            proof {
                assert(a@.skip(i as int)[0] == a@[i as int]);
                assert(b@.skip(i as int)[0] == b@[i as int]);
            }
            Cmp::Greater
        } else {
            let r = bytes_cmp_from(a, b, i + 1);
            proof {
                assert(a@.skip(i as int).drop_first() =~= a@.skip(i + 1));
                assert(b@.skip(i as int).drop_first() =~= b@.skip(i + 1));
                if a@.skip(i + 1) == b@.skip(i + 1) {
                    assert forall|j: int|
                        0 <= j < a@.skip(i as int).len() implies a@.skip(i as int)[j] == b@.skip(
                        i as int,
                    )[j] by {
                        if j > 0 {
                            assert(a@.skip(i as int)[j] == a@.skip(i + 1)[j - 1]);
                            assert(b@.skip(i as int)[j] == b@.skip(i + 1)[j - 1]);
                        }
                    }
                    assert(a@.skip(i as int) =~= b@.skip(i as int));
                }
                if a@.skip(i as int) == b@.skip(i as int) {
                    assert(a@.skip(i + 1) =~= b@.skip(i + 1));
                }
            }
            r
        }
    }
}

/// True exactly when two byte vectors hold the same bytes.
pub fn bytes_eq(a: &Vec<u8>, b: &Vec<u8>) -> (r: bool)
    ensures
        r == (a@ == b@),
{
    proof {
        assert(a@.skip(0) =~= a@);
        assert(b@.skip(0) =~= b@);
    }
    match bytes_cmp_from(a, b, 0) {
        Cmp::Equal => true,
        _ => false,
    }
}

/// Copies a byte vector, preserving its contents exactly.
pub fn copy_bytes(v: &Vec<u8>) -> (r: Vec<u8>)
    ensures
        r@ == v@,
{
    let r = v.clone();
    proof {
        assert(r@ =~= v@);
    }
    r
}

/// Copies an optional byte vector, preserving presence and contents exactly.
pub fn copy_opt_bytes(v: &Option<Vec<u8>>) -> (r: Option<Vec<u8>>)
    ensures
        r is Some == v is Some,
        v matches Some(b) ==> (r matches Some(c) && c@ == b@),
{
    match v {
        Some(b) => Some(copy_bytes(b)),
        None => None,
    }
}

impl VersionedValue {
    /// The payload as an abstract optional byte sequence.
    pub open spec fn payload(&self) -> Option<Seq<u8>> {
        match self.value {
            Option::Some(b) => Option::Some(b@),
            Option::None => Option::None,
        }
    }

    /// The "never written" value: ballot 0, payload absent.
    pub fn empty() -> (r: VersionedValue)
        ensures
            r.ballot == 0,
            r.payload() is None,
    {
        VersionedValue { ballot: 0, value: None }
    }

    /// Three-way comparison realising the (ballot, payload) order.
    pub fn compare(&self, other: &VersionedValue) -> (r: Cmp)
        ensures
            (r is Less) == vv_lt(*self, *other),
            (r is Equal) == vv_eq(*self, *other),
            (r is Greater) == vv_lt(*other, *self),
    {
        if self.ballot < other.ballot {
            Cmp::Less
        } else if other.ballot < self.ballot {
            Cmp::Greater
        } else {
            match (&self.value, &other.value) {
                (None, None) => Cmp::Equal,
                (None, Some(_)) => Cmp::Less,
                (Some(_), None) => Cmp::Greater,
                (Some(x), Some(y)) => {
                    proof {
                        assert(x@.skip(0) =~= x@);
                        assert(y@.skip(0) =~= y@);
                    }
                    bytes_cmp_from(x, y, 0)
                },
            }
        }
    }

    /// Non-strict comparison: true when `self` sorts at or below `other`.
    pub fn le(&self, other: &VersionedValue) -> (r: bool)
        ensures
            r == vv_le(*self, *other),
    {
        match self.compare(other) {
            Cmp::Less => true,
            Cmp::Equal => true,
            Cmp::Greater => false,
        }
    }

    /// Copies the versioned value, preserving ballot and payload exactly.
    pub fn dup(&self) -> (r: VersionedValue)
        ensures
            r.ballot == self.ballot,
            r.payload() == self.payload(),
    {
        VersionedValue { ballot: self.ballot, value: copy_opt_bytes(&self.value) }
    }

    /// Reads the payload without exposing the ballot, the explicit accessor
    /// half of transparent payload access.
    pub fn payload_ref(&self) -> (r: &Option<Vec<u8>>)
        ensures
            *r == self.value,
    {
        &self.value
    }

    /// Replaces the payload while leaving the ballot untouched, the explicit
    /// mutator half of transparent payload access.
    pub fn set_payload(&mut self, p: Option<Vec<u8>>)
        ensures
            final(self).ballot == old(self).ballot,
            final(self).value == p,
    {
        self.value = p;
    }
}

impl Default for VersionedValue {
    /// The default value represents "never written".
    fn default() -> (r: Self)
        ensures
            r.ballot == 0,
            r.payload() is None,
    {
        VersionedValue { ballot: 0, value: None }
    }
}

/// Lexicographic order on byte sequences is transitive.
proof fn lemma_bytes_lt_trans(a: Seq<u8>, b: Seq<u8>, c: Seq<u8>)
    requires
        bytes_lt(a, b),
        bytes_lt(b, c),
    ensures
        bytes_lt(a, c),
    decreases a.len() + b.len() + c.len(),
{
    if a.len() == 0 {
    } else {
        if a[0] == b[0] && b[0] == c[0] {
            lemma_bytes_lt_trans(a.drop_first(), b.drop_first(), c.drop_first());
        }
    }
}

/// The (ballot, payload) order on versioned values is transitive; the
/// proposer's selection of the highest promise rests on this.
pub proof fn lemma_vv_le_trans(a: VersionedValue, b: VersionedValue, c: VersionedValue)
    requires
        vv_le(a, b),
        vv_le(b, c),
    ensures
        vv_le(a, c),
{
    if vv_lt(a, b) && vv_lt(b, c) && a.ballot == b.ballot && b.ballot == c.ballot {
        match (a.payload(), b.payload(), c.payload()) {
            (Option::Some(pa), Option::Some(pb), Option::Some(pc)) => {
                lemma_bytes_lt_trans(pa, pb, pc);
            },
            _ => {},
        }
    }
}

/// Lexicographic order on byte sequences is total: two sequences compare one
/// way, the other way, or are equal.
proof fn lemma_bytes_order_total(a: Seq<u8>, b: Seq<u8>)
    ensures
        bytes_lt(a, b) || bytes_lt(b, a) || a == b,
    decreases a.len(),
{
    if a.len() == 0 && b.len() == 0 {
        assert(a =~= b);
    } else if a.len() > 0 && b.len() > 0 {
        if a[0] == b[0] {
            lemma_bytes_order_total(a.drop_first(), b.drop_first());
            if a.drop_first() == b.drop_first() {
                assert(a.drop_first().len() == b.drop_first().len());
                assert(a.len() == b.len());
                assert forall|j: int| 0 <= j < a.len() implies a[j] == b[j] by {
                    if j > 0 {
                        assert(a[j] == a.drop_first()[j - 1]);
                        assert(b[j] == b.drop_first()[j - 1]);
                    }
                }
                assert(a =~= b);
            }
        }
    }
}

/// The (ballot, payload) order on versioned values is total, so "most
/// recent" is always well defined: any two values compare one way, the other
/// way, or are interchangeable.
pub proof fn lemma_vv_order_total(a: VersionedValue, b: VersionedValue)
    ensures
        vv_lt(a, b) || vv_lt(b, a) || vv_eq(a, b),
{
    if a.ballot == b.ballot {
        match (a.payload(), b.payload()) {
            (Option::Some(pa), Option::Some(pb)) => {
                lemma_bytes_order_total(pa, pb);
            },
            _ => {},
        }
    }
}

/// Ordering invariant: for any two versioned values, a strictly higher ballot
/// dominates, regardless of either payload.
pub proof fn lemma_ballot_dominates(a: VersionedValue, b: VersionedValue)
    requires
        a.ballot < b.ballot,
    ensures
        vv_lt(a, b),
        !vv_lt(b, a),
        !vv_eq(a, b),
{
}

} // verus!
