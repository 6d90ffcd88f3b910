//! The capability object through which the consensus core reaches the
//! application: command fetching and execution, commit delivery, the epoch
//! oracle, and the cryptographic primitives.
//!
//! Hashing, signing and signature checking are deterministic per
//! implementation, which the trait records through its spec functions; the
//! application-side callbacks (`fetch`, `compute`, `commit`, `discard`) may
//! answer anything, and the core is verified for every answer.

use vstd::prelude::*;
use crate::base_types::{Author, EpochId, NodeTime, Signature, SignatureError, State};
use crate::configuration::EpochConfiguration;
use crate::record::QuorumCertificate;

verus! {

/// What the consensus core asks of its host: state-machine execution,
/// commit delivery, the epoch oracle, and cryptography.
pub trait SmrContext: Sized {
    /// Digest of a canonical byte string; a pure function of the bytes, the
    /// same on every replica running this implementation.
    spec fn hash_spec(data: Seq<u8>) -> u64;

    /// Whether `signature` is accepted for `author` over `hash`.
    spec fn verify_spec(author: Author, hash: u64, signature: Signature) -> bool;

    /// The signature this implementation produces for `author` over `hash`.
    spec fn sign_spec(author: Author, hash: u64) -> Signature;

    /// This node's identity, as seen by specifications.
    spec fn author_spec(&self) -> Author;

    /// The last committed state, as seen by specifications.
    spec fn last_committed_state_spec(&self) -> State;

    /// The epoch identifier recorded in a state, as seen by specifications.
    spec fn read_epoch_id_spec(&self, state: State) -> EpochId;

    /// The voting rights of the epoch starting at a state, as seen by
    /// specifications.
    spec fn configuration_spec(&self, state: State) -> Seq<(Author, usize)>;

    /// The delivery log: every state handed to `commit` so far, in order,
    /// each with whether a commit certificate came along.
    spec fn delivered_spec(&self) -> Seq<(State, bool)>;

    /// A signature this implementation produces checks out against the same
    /// author and digest.
    proof fn lemma_sign_verifies(author: Author, hash: u64)
        ensures
            Self::verify_spec(author, hash, Self::sign_spec(author, hash)),
    ;

    /// Hash the given canonical bytes.
    fn hash(&self, data: &Vec<u8>) -> (r: u64)
        ensures
            r == Self::hash_spec(data@),
    ;

    /// Check a signature over a digest.
    fn verify(&self, author: Author, hash: u64, signature: Signature) -> (r: Result<
        (),
        SignatureError,
    >)
        ensures
            r is Ok <==> Self::verify_spec(author, hash, signature),
    ;

    /// The public identity of this node.
    fn author(&self) -> (r: Author)
        ensures
            r == self.author_spec(),
    ;

    /// Sign a digest with this node's private key.
    fn sign(&mut self, hash: u64) -> (r: Signature)
        ensures
            r == Self::sign_spec(old(self).author_spec(), hash),
            final(self).author_spec() == old(self).author_spec(),
            final(self).delivered_spec() == old(self).delivered_spec(),
    ;

    /// Supply the next command to propose, if any.
    fn fetch(&mut self) -> (r: Option<crate::base_types::Command>)
        ensures
            final(self).author_spec() == old(self).author_spec(),
            final(self).delivered_spec() == old(self).delivered_spec(),
    ;

    /// Execute a command on top of `base_state`, or reject it with `None`.
    fn compute(
        &mut self,
        base_state: &State,
        command: crate::base_types::Command,
        time: NodeTime,
        previous_author: Option<Author>,
        previous_voters: Vec<Author>,
    ) -> (r: Option<State>)
        ensures
            final(self).author_spec() == old(self).author_spec(),
            final(self).delivered_spec() == old(self).delivered_spec(),
    ;

    /// Report that a state was committed, together with an optional commit
    /// certificate. The call is recorded on the delivery log.
    fn commit(&mut self, state: &State, certificate: Option<&QuorumCertificate>)
        ensures
            final(self).author_spec() == old(self).author_spec(),
            final(self).delivered_spec() == old(self).delivered_spec().push(
                (*state, certificate is Some),
            ),
    ;

    /// Report that a state was abandoned.
    fn discard(&mut self, state: &State)
        ensures
            final(self).author_spec() == old(self).author_spec(),
            final(self).delivered_spec() == old(self).delivered_spec(),
    ;

    /// The last committed state, or the genesis state.
    fn last_committed_state(&self) -> (r: State)
        ensures
            r == self.last_committed_state_spec(),
    ;

    /// Read the epoch identifier recorded in a state.
    fn read_epoch_id(&self, state: &State) -> (r: EpochId)
        ensures
            r == self.read_epoch_id_spec(*state),
    ;

    /// The voting rights of the epoch starting at `state`. Configurations
    /// are well formed and carry at least one vote.
    fn configuration(&self, state: &State) -> (r: EpochConfiguration)
        ensures
            r.wf(),
            r.spec_total_votes() > 0,
            r.spec_authors() == self.configuration_spec(*state),
    ;
}

} // verus!
