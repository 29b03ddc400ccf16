//! The bit-per-cell vector used for bulk lattice edits and presence
//! snapshots. It wraps the `bitvec` crate's vector; Verus sees the contents
//! only through the `bits_of` abstraction that the trusted accessors below
//! maintain.

use vstd::prelude::*;

use crate::indexing::col_of_index;
use crate::indexing::lemma_lin_index_of_coords;
use crate::indexing::lin_index;
use crate::indexing::row_of_index;
use crate::lattice::Lattice2D;

verus! {

/// A growable vector of bits, one per grid cell, row-major.
#[verifier::external_body]
pub struct BitVector {
    bits: bitvec::vec::BitVec,
}

/// The bits stored in a bit-vector, in order.
pub uninterp spec fn bits_of(b: BitVector) -> Seq<bool>;

impl BitVector {
    /// Relies on `BitVec::new`: an empty bit-vector holds no bits.
    #[verifier::external_body]
    pub fn new() -> (r: Self)
        ensures
            bits_of(r) == Seq::<bool>::empty(),
    {
        Self { bits: bitvec::vec::BitVec::new() }
    }

    /// Relies on `BitSlice::len` through `BitVec`'s deref: the number of
    /// stored bits.
    #[verifier::external_body]
    pub fn len(&self) -> (r: usize)
        ensures
            r as int == bits_of(*self).len(),
    {
        self.bits.len()
    }

    /// Relies on `BitSlice` indexing: the bit at position `i`.
    #[verifier::external_body]
    pub fn get(&self, i: usize) -> (r: bool)
        requires
            (i as int) < bits_of(*self).len(),
        ensures
            r == bits_of(*self)[i as int],
    {
        self.bits[i]
    }

    /// Relies on `BitVec::push`: appends one bit. Below an eighth of the
    /// address space the push cannot exceed the encodable capacity.
    #[verifier::external_body]
    pub fn push(&mut self, bit: bool)
        requires
            bits_of(*old(self)).len() < usize::MAX / 8,
        ensures
            bits_of(*final (self)) == bits_of(*old(self)).push(bit),
    {
        self.bits.push(bit)
    }

    /// A bit-vector holding the given bits in order.
    pub fn from_bools(v: &Vec<bool>) -> (r: Self)
        requires
            v@.len() < usize::MAX / 8,
        ensures
            bits_of(r) == v@,
    {
        let mut out = Self::new();
        let mut i: usize = 0;
        while i < v.len()
            invariant
                i <= v@.len(),
                v@.len() < usize::MAX / 8,
                bits_of(out) == v@.subrange(0, i as int),
            decreases v@.len() - i,
        {
            out.push(v[i]);
            proof {
                assert(bits_of(out) =~= v@.subrange(0, i + 1));
            }
            i += 1;
        }
        proof {
            assert(bits_of(out) =~= v@);
        }
        out
    }

    /// The stored bits, in order, as a plain vector.
    pub fn to_bools(&self) -> (r: Vec<bool>)
        ensures
            r@ == bits_of(*self),
    {
        let n = self.len();
        let mut out: Vec<bool> = Vec::new();
        let mut i: usize = 0;
        while i < n
            invariant
                i <= n,
                n as int == bits_of(*self).len(),
                out@ == bits_of(*self).subrange(0, i as int),
            decreases n - i,
        {
            out.push(self.get(i));
            proof {
                assert(out@ =~= bits_of(*self).subrange(0, i + 1));
            }
            i += 1;
        }
        proof {
            assert(out@ =~= bits_of(*self));
        }
        out
    }
}

/// How many cells with linear index below `n` have their bit set and their
/// presence differing from the target `mp`: the number of stored entries a
/// bit-vector edit changes.
pub open spec fn vector_edit_count(l: Lattice2D, bits: Seq<bool>, mp: bool, n: int) -> int
    decreases n,
{
    if n <= 0 {
        0
    } else {
        vector_edit_count(l, bits, mp, n - 1) + if bits[n - 1] && l.present_at_index(n - 1) != mp {
            1int
        } else {
            0int
        }
    }
}

/// Bit-vector round trip: unioning a bit-vector of the right length into an
/// empty lattice and materializing the bitmap reproduces the vector exactly.
pub proof fn lemma_bitvec_round_trip(l0: Lattice2D, l1: Lattice2D, b: Seq<bool>, out: Seq<bool>)
    requires
        forall|c: int, r: int| !l0.present(c, r),
        l1.columns_spec() == l0.columns_spec(),
        l1.rows_spec() == l0.rows_spec(),
        b.len() == l0.size_spec(),
        // what add_vertex_vector ensures of the edited lattice
        forall|c: int, r: int|
            l1.present(c, r) == (l0.present(c, r) || (0 <= c < l0.columns_spec() && 0 <= r
                < l0.rows_spec() && b[lin_index(l0.columns_spec() as int, c, r)])),
        // what as_bitvec ensures of the materialized bitmap
        out.len() == l1.size_spec(),
        forall|i: int| 0 <= i < l1.size_spec() ==> out[i] == l1.present_at_index(i),
    ensures
        out =~= b,
{
    assert forall|i: int| 0 <= i < b.len() implies out[i] == b[i] by {
        assert(l0.columns_spec() > 0) by (nonlinear_arith)
            requires (l0.columns_spec() * l0.rows_spec()) as int > i >= 0;
        lemma_lin_index_of_coords(l0.columns_spec() as int, l0.rows_spec() as int, i);
        let c = col_of_index(l0.columns_spec() as int, i);
        let r = row_of_index(l0.columns_spec() as int, i);
        assert(out[i] == l1.present(c, r));
        assert(l1.present(c, r) == b[i]);
    }
}

} // verus!
