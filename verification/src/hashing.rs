//! The 64-bit digest used by the simulated cryptography and by leader
//! election. It is computed by std's `DefaultHasher`, whose digest of a
//! write sequence is a pure function of the bytes written: hashers made by
//! `DefaultHasher::new` all use the same fixed keys, on every process and
//! machine running this build.

use vstd::prelude::*;
use std::collections::hash_map::DefaultHasher;
use std::hash::Hasher;
use vstd::std_specs::hash::DefaultHasherAdditionalSpecFns;

verus! {

/// The digest of a byte string written to a fresh hasher in one write.
pub open spec fn hash64_of(bytes: Seq<u8>) -> u64 {
    DefaultHasher::spec_finish(seq![bytes])
}

/// An incremental hasher over byte strings. Its digest is a function of the
/// sequence of writes performed.
pub struct SimulatedHasher {
    inner: DefaultHasher,
}

impl SimulatedHasher {
    /// The writes performed so far, each a byte string.
    pub closed spec fn spec_writes(self) -> Seq<Seq<u8>> {
        self.inner@
    }

    /// A hasher that has seen no bytes.
    pub fn new() -> (r: SimulatedHasher)
        ensures
            r.spec_writes() == Seq::<Seq<u8>>::empty(),
    {
        SimulatedHasher { inner: DefaultHasher::new() }
    }

    /// Absorb `bytes` as one write.
    pub fn write(&mut self, bytes: &[u8])
        ensures
            final(self).spec_writes() == old(self).spec_writes().push(bytes@),
    {
        self.inner.write(bytes);
    }

    /// The digest of everything written.
    pub fn finish(&self) -> (r: u64)
        ensures
            r == DefaultHasher::spec_finish(self.spec_writes()),
    {
        self.inner.finish()
    }
}

impl Default for SimulatedHasher {
    /// The default hasher has seen no bytes.
    fn default() -> (r: SimulatedHasher)
        ensures
            r.spec_writes() == Seq::<Seq<u8>>::empty(),
    {
        SimulatedHasher::new()
    }
}

/// Digest of one byte string.
pub fn hash_bytes(data: &[u8]) -> (r: u64)
    ensures
        r == hash64_of(data@),
{
    let mut h = SimulatedHasher::new();
    h.write(data);
    proof {
        assert(h.spec_writes() =~= seq![data@]);
    }
    h.finish()
}

} // verus!
