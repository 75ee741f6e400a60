//! The flags an object of the simulation carries, as a set of bits.

use vstd::prelude::*;

verus! {

/// The bit that marks an object for removal at the end of the current tick.
pub const REMOVE_NEXT_BIT: u8 = 1;

/// A set of object flags, one bit per flag.
#[derive(Clone, Copy, Debug, PartialEq, Eq, Structural)]
pub struct ObjectFlags {
    bits: u8,
}

impl View for ObjectFlags {
    type V = u8;

    closed spec fn view(&self) -> u8 {
        self.bits
    }
}

/// `flags` holds every bit of `other`.
pub open spec fn contains_spec(flags: u8, other: u8) -> bool {
    flags & other == other
}

impl ObjectFlags {
    /// The set with no flag.
    pub fn empty() -> (r: ObjectFlags)
        ensures
            r@ == 0,
    {
        ObjectFlags { bits: 0 }
    }

    /// The set that holds only `REMOVE_NEXT`.
    pub fn remove_next() -> (r: ObjectFlags)
        ensures
            r@ == REMOVE_NEXT_BIT,
    {
        ObjectFlags { bits: REMOVE_NEXT_BIT }
    }

    /// The set whose bits are exactly `bits`, known or not.
    pub fn from_bits_retain(bits: u8) -> (r: ObjectFlags)
        ensures
            r@ == bits,
    {
        ObjectFlags { bits }
    }

    /// The bits of the set.
    pub fn bits(&self) -> (r: u8)
        ensures
            r == self@,
    {
        self.bits
    }

    /// Whether no flag is set.
    pub fn is_empty(&self) -> (r: bool)
        ensures
            r == (self@ == 0),
    {
        self.bits == 0
    }

    /// Whether every flag of `other` is set in `self`.
    pub fn contains(&self, other: ObjectFlags) -> (r: bool)
        ensures
            r == contains_spec(self@, other@),
            r == (self@ | other@ == self@),
            r == (other@ & !self@ == 0),
    {
        proof {
            lemma_contains_is_every_bit(self@, other@);
        }
        self.bits & other.bits == other.bits
    }

    /// Whether `self` and `other` share a flag.
    pub fn intersects(&self, other: ObjectFlags) -> (r: bool)
        ensures
            r == (self@ & other@ != 0),
    {
        self.bits & other.bits != 0
    }

    /// The flags set in `self` or in `other`.
    pub fn union(self, other: ObjectFlags) -> (r: ObjectFlags)
        ensures
            r@ == self@ | other@,
    {
        ObjectFlags { bits: self.bits | other.bits }
    }

    /// The flags set in `self` and not in `other`.
    pub fn difference(self, other: ObjectFlags) -> (r: ObjectFlags)
        ensures
            r@ == self@ & !other@,
    {
        ObjectFlags { bits: self.bits & !other.bits }
    }

    /// Sets every flag of `other` in `self`.
    pub fn insert(&mut self, other: ObjectFlags)
        ensures
            final(self)@ == old(self)@ | other@,
    {
        self.bits = self.bits | other.bits;
    }

    /// Clears every flag of `other` in `self`.
    pub fn remove(&mut self, other: ObjectFlags)
        ensures
            final(self)@ == old(self)@ & !other@,
    {
        self.bits = self.bits & !other.bits;
    }
}

/// One set contains another exactly when adding the other's flags changes
/// nothing, that is, when no flag of the other is missing from it.
pub proof fn lemma_contains_is_every_bit(a: u8, b: u8)
    ensures
        contains_spec(a, b) <==> (a | b == a),
        contains_spec(a, b) <==> (b & !a == 0),
{
    assert((a & b == b) <==> (a | b == a)) by (bit_vector);
    assert((a & b == b) <==> (b & !a == 0)) by (bit_vector);
}

/// A set of flags without its own flags is empty.
pub proof fn lemma_difference_self_is_empty(f: ObjectFlags)
    ensures
        f@ & !f@ == 0,
{
    let b = f@;
    assert(b & !b == 0) by (bit_vector);
}

/// After `insert`, the set holds both what it held and what was inserted.
pub proof fn lemma_union_contains_both(a: ObjectFlags, b: ObjectFlags)
    ensures
        contains_spec(a@ | b@, a@),
        contains_spec(a@ | b@, b@),
{
    let x = a@;
    let y = b@;
    assert((x | y) & x == x) by (bit_vector);
    assert((x | y) & y == y) by (bit_vector);
}

/// After `remove`, the set holds none of the removed flags.
pub proof fn lemma_difference_excludes(a: ObjectFlags, b: ObjectFlags)
    ensures
        (a@ & !b@) & b@ == 0,
{
    let x = a@;
    let y = b@;
    assert((x & !y) & y == 0) by (bit_vector);
}

/// Inserting a set twice is inserting it once.
pub proof fn lemma_union_idempotent(a: u8, b: u8)
    ensures
        (a | b) | b == a | b,
{
    assert((a | b) | b == a | b) by (bit_vector);
}

/// The empty set contains no flag, and the removal mark is one flag.
pub proof fn lemma_marks(a: u8)
    ensures
        !contains_spec(0, REMOVE_NEXT_BIT),
        contains_spec(a | REMOVE_NEXT_BIT, REMOVE_NEXT_BIT),
        contains_spec(a, REMOVE_NEXT_BIT) <==> a % 2 == 1,
{
    assert(0u8 & 1u8 != 1u8) by (bit_vector);
    assert((a | 1u8) & 1u8 == 1u8) by (bit_vector);
    assert((a & 1u8 == 1u8) <==> a % 2 == 1) by (bit_vector);
}

} // verus!
