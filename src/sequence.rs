//! Named sequence records and their bases.

use vstd::prelude::*;

use crate::position::Position;

verus! {

/// The base code for an unknown (hardmasked) nucleotide, upper case `N`.
pub const MASKED_UPPER: u8 = 78;

/// The base code for an unknown (hardmasked) nucleotide, lower case `n`.
pub const MASKED_LOWER: u8 = 110;

/// A base is masked when it is the unknown-nucleotide code, in either case.
pub open spec fn is_masked(b: u8) -> bool {
    b == MASKED_UPPER || b == MASKED_LOWER
}

/// Whether a base is masked.
pub fn base_is_masked(b: u8) -> (r: bool)
    ensures
        r == is_masked(b),
{
    b == MASKED_UPPER || b == MASKED_LOWER
}

/// An immutable run of single-byte nucleobase codes, addressed by one-based
/// positions.
#[derive(Debug)]
pub struct Sequence {
    bases: Vec<u8>,
}

impl View for Sequence {
    type V = Seq<u8>;

    closed spec fn view(&self) -> Seq<u8> {
        self.bases@
    }
}

impl Sequence {
    #[verifier::type_invariant]
    spec fn inv(self) -> bool {
        self.bases@.len() <= i64::MAX
    }

    /// Takes the bases of a sequence. No allocation exceeds `isize::MAX`
    /// bytes, so the bound holds of every vector of bases in memory.
    pub fn new(bases: Vec<u8>) -> (r: Sequence)
        requires
            bases@.len() <= i64::MAX,
        ensures
            r@ == bases@,
    {
        Sequence { bases }
    }

    /// The number of bases.
    pub fn len(&self) -> (r: usize)
        ensures
            r == self@.len(),
            r <= i64::MAX,
    {
        proof {
            use_type_invariant(self);
        }
        self.bases.len()
    }

    /// The base at a position, or `None` past the last one.
    pub fn get(&self, position: Position) -> (r: Option<u8>)
        ensures
            position@ <= self@.len() ==> r == Some(self@[position@ - 1]),
            position@ > self@.len() ==> r is None,
    {
        let p = position.get();
        if p <= self.bases.len() {
            Some(self.bases[p - 1])
        } else {
            None
        }
    }

    /// A copy of the sequence.
    pub fn duplicate(&self) -> (r: Sequence)
        ensures
            r@ == self@,
    {
        proof {
            use_type_invariant(self);
        }
        let mut bases: Vec<u8> = Vec::with_capacity(self.bases.len());
        let mut i: usize = 0;
        while i < self.bases.len()
            invariant
                i <= self.bases@.len(),
                bases@ == self.bases@.take(i as int),
            decreases self.bases@.len() - i,
        {
            bases.push(self.bases[i]);
            i = i + 1;
            assert(bases@ =~= self.bases@.take(i as int));
        }
        assert(bases@ =~= self.bases@);
        Sequence { bases }
    }
}

/// A named sequence read from a genome file.
#[derive(Debug)]
pub struct Record {
    name: String,
    sequence: Sequence,
}

impl Record {
    /// Pairs a name with a sequence.
    pub fn new(name: String, sequence: Sequence) -> (r: Record)
        ensures
            r.name() == name@,
            r.bases() == sequence@,
    {
        Record { name, sequence }
    }

    /// The name of the record, as characters.
    pub closed spec fn name(&self) -> Seq<char> {
        self.name@
    }

    /// The bases of the record.
    pub closed spec fn bases(&self) -> Seq<u8> {
        self.sequence@
    }

    /// The name of the record.
    pub fn name_str(&self) -> (r: &String)
        ensures
            r@ == self.name(),
    {
        &self.name
    }

    /// The sequence of the record.
    pub fn sequence(&self) -> (r: &Sequence)
        ensures
            r@ == self.bases(),
    {
        &self.sequence
    }
}

} // verus!
