//! The per-epoch record store: the single source of truth for the blocks,
//! votes, quorum certificates and timeouts of one epoch. It enforces every
//! per-record invariant at insertion, tallies votes, detects the 3-chain
//! commit rule, and answers the queries the pacemaker, the node and
//! data-sync rely on.

use vstd::prelude::*;
use crate::base_types::{
    Author, BlockHash, EpochId, NodeTime, QuorumCertificateHash, Round, Signature, State,
};
use crate::configuration::{
    lemma_count_distinct_le_total, spec_count, spec_total, spec_weight, EpochConfiguration,
};

use crate::keyed::{lemma_lookup_at, lemma_lookup_has_key, spec_has_key, spec_lookup, KeyedVec};
use crate::pacemaker::{round_seed, spec_leader};
use crate::codec::spec_u64_bytes;
use crate::record::{
    Block, QuorumCertificate, Record, Signable, SignedValue, Timeout, Vote,
};
use crate::smr_context::SmrContext;

verus! {

/// Counting votes for a proposed block and its execution state. The ballot
/// maps each `(block hash, state)` pair to the voting weight received.
pub enum ElectionState {
    /// Votes are still being counted.
    Ongoing { ballot: Vec<(BlockHash, State, usize)> },
    /// A pair reached the quorum threshold.
    Won { block_hash: BlockHash, state: State },
    /// The leader has formed its certificate; no further one is produced at
    /// this round.
    Closed,
}

/// The record store of one epoch.
pub struct RecordStoreState {
    /// Epoch initialization.
    epoch_id: EpochId,
    configuration: EpochConfiguration,
    initial_hash: QuorumCertificateHash,
    initial_state: State,
    /// Storage of verified blocks and quorum certificates, keyed by hash.
    blocks: KeyedVec<Block>,
    quorum_certificates: KeyedVec<QuorumCertificate>,
    current_proposed_block: Option<BlockHash>,
    /// Computed round values.
    highest_quorum_certificate_round: Round,
    highest_quorum_certificate_hash: QuorumCertificateHash,
    highest_timeout_certificate_round: Round,
    current_round: Round,
    highest_committed_round: Round,
    highest_commit_certificate_hash: Option<QuorumCertificateHash>,
    /// Storage of verified timeouts at the highest TC round.
    highest_timeout_certificate: Option<Vec<Timeout>>,
    /// Storage of verified votes and timeouts at the current round, keyed by
    /// author.
    current_timeouts: KeyedVec<Timeout>,
    current_votes: KeyedVec<Vote>,
    /// Computed weight values.
    current_timeouts_weight: usize,
    current_election: ElectionState,
}

/// Combined weight of the votes for one `(block hash, state)` pair.
pub open spec fn spec_tally(
    cfg: Seq<(Author, usize)>,
    votes: Seq<(u64, Vote)>,
    h: BlockHash,
    st: State,
) -> nat
    decreases votes.len(),
{
    if votes.len() == 0 {
        0
    } else {
        (if votes[0].1.value.certified_block_hash == h && votes[0].1.value.state == st {
            spec_weight(cfg, votes[0].1.value.author)
        } else {
            0
        }) + spec_tally(cfg, votes.skip(1), h, st)
    }
}

/// The authors of a sequence of keyed records.
pub open spec fn spec_timeout_authors(s: Seq<(u64, Timeout)>) -> Seq<Author> {
    s.map_values(|e: (u64, Timeout)| e.1.value.author)
}

/// The authors of a sequence of keyed votes.
pub open spec fn spec_vote_authors(s: Seq<(u64, Vote)>) -> Seq<Author> {
    s.map_values(|e: (u64, Vote)| e.1.value.author)
}

/// The authors and signatures of the retained votes whose state matches
/// `st`, in retention order.
pub open spec fn spec_matching_votes(votes: Seq<(u64, Vote)>, st: State) -> Seq<(Author, Signature)>
    decreases votes.len(),
{
    if votes.len() == 0 {
        Seq::empty()
    } else {
        (if votes[0].1.value.state == st {
            seq![(votes[0].1.value.author, votes[0].1.signature)]
        } else {
            Seq::<(Author, Signature)>::empty()
        }) + spec_matching_votes(votes.skip(1), st)
    }
}

/// Collecting one more vote appends its entry when its state matches.
proof fn lemma_matching_votes_take(votes: Seq<(u64, Vote)>, st: State, i: int)
    requires
        0 <= i < votes.len(),
    ensures
        spec_matching_votes(votes.take(i + 1), st) == spec_matching_votes(votes.take(i), st) + (
        if votes[i].1.value.state == st {
            seq![(votes[i].1.value.author, votes[i].1.signature)]
        } else {
            Seq::<(Author, Signature)>::empty()
        }),
    decreases i,
{
    if i == 0 {
        assert(votes.take(1)[0] == votes[0]);
        assert(votes.take(1).skip(1) =~= Seq::<(u64, Vote)>::empty());
        assert(votes.take(0) =~= Seq::<(u64, Vote)>::empty());
        assert(spec_matching_votes(votes.take(1), st) =~= spec_matching_votes(votes.take(0), st)
            + (if votes[0].1.value.state == st {
            seq![(votes[0].1.value.author, votes[0].1.signature)]
        } else {
            Seq::<(Author, Signature)>::empty()
        }));
    } else {
        assert(votes.take(i + 1)[0] == votes[0]);
        assert(votes.take(i)[0] == votes[0]);
        assert(votes.take(i + 1).skip(1) =~= votes.skip(1).take(i));
        assert(votes.take(i).skip(1) =~= votes.skip(1).take(i - 1));
        lemma_matching_votes_take(votes.skip(1), st, i - 1);
        assert(votes.skip(1)[i - 1] == votes[i]);
        assert(spec_matching_votes(votes.take(i + 1), st) =~= spec_matching_votes(
            votes.take(i),
            st,
        ) + (if votes[i].1.value.state == st {
            seq![(votes[i].1.value.author, votes[i].1.signature)]
        } else {
            Seq::<(Author, Signature)>::empty()
        }));
    }
}

impl RecordStoreState {
    /// The epoch this store belongs to.
    pub closed spec fn spec_epoch_id(self) -> EpochId {
        self.epoch_id
    }

    /// The voting rights of the epoch.
    pub closed spec fn spec_configuration(self) -> EpochConfiguration {
        self.configuration
    }

    /// The genesis quorum-certificate hash of the epoch.
    pub closed spec fn spec_initial_hash(self) -> QuorumCertificateHash {
        self.initial_hash
    }

    /// The state the epoch started from.
    pub closed spec fn spec_initial_state(self) -> State {
        self.initial_state
    }

    /// The stored blocks, keyed by hash, in insertion order.
    pub closed spec fn spec_blocks(self) -> Seq<(u64, Block)> {
        self.blocks.entries_seq()
    }

    /// The stored quorum certificates, keyed by hash, in insertion order.
    pub closed spec fn spec_qcs(self) -> Seq<(u64, QuorumCertificate)> {
        self.quorum_certificates.entries_seq()
    }

    /// The block stored under a hash.
    pub open spec fn block_at(self, h: u64) -> Option<Block> {
        spec_lookup(self.spec_blocks(), h)
    }

    /// The quorum certificate stored under a hash.
    pub open spec fn qc_at(self, h: u64) -> Option<QuorumCertificate> {
        spec_lookup(self.spec_qcs(), h)
    }

    /// The proposed block retained at the current round, if any.
    pub closed spec fn spec_current_proposed_block(self) -> Option<BlockHash> {
        self.current_proposed_block
    }

    /// Round of the highest stored quorum certificate, 0 before the first.
    pub closed spec fn spec_highest_quorum_certificate_round(self) -> Round {
        self.highest_quorum_certificate_round
    }

    /// Hash of the highest stored quorum certificate, or the genesis hash.
    pub closed spec fn spec_highest_quorum_certificate_hash(self) -> QuorumCertificateHash {
        self.highest_quorum_certificate_hash
    }

    /// Round of the highest timeout certificate, 0 before the first.
    pub closed spec fn spec_highest_timeout_certificate_round(self) -> Round {
        self.highest_timeout_certificate_round
    }

    /// The current round of this store.
    pub closed spec fn spec_current_round(self) -> Round {
        self.current_round
    }

    /// Round of the highest commit detected so far, 0 before the first.
    pub closed spec fn spec_highest_committed_round(self) -> Round {
        self.highest_committed_round
    }

    /// Hash of the certificate whose 3-chain produced the highest commit.
    pub closed spec fn spec_highest_commit_certificate_hash(self) -> Option<QuorumCertificateHash> {
        self.highest_commit_certificate_hash
    }

    /// The timeouts that formed the highest timeout certificate, if any.
    pub closed spec fn spec_highest_timeout_certificate(self) -> Option<Seq<Timeout>> {
        match self.highest_timeout_certificate {
            Some(l) => Some(l@),
            None => None,
        }
    }

    /// The timeouts received at the current round, keyed by author.
    pub closed spec fn spec_current_timeouts(self) -> Seq<(u64, Timeout)> {
        self.current_timeouts.entries_seq()
    }

    /// The votes received at the current round, keyed by author.
    pub closed spec fn spec_current_votes(self) -> Seq<(u64, Vote)> {
        self.current_votes.entries_seq()
    }

    /// Combined weight of the timeouts at the current round.
    pub closed spec fn spec_current_timeouts_weight(self) -> nat {
        self.current_timeouts_weight as nat
    }

    /// Whether the current election is still counting votes.
    pub closed spec fn spec_election_is_ongoing(self) -> bool {
        self.current_election is Ongoing
    }

    /// Whether a pair reached the quorum threshold at the current round.
    pub closed spec fn spec_election_is_won(self) -> bool {
        self.current_election is Won
    }

    /// Whether the leader has already formed its certificate at this round.
    pub closed spec fn spec_election_is_closed(self) -> bool {
        self.current_election is Closed
    }

    /// The winning pair of the current election.
    pub closed spec fn spec_election_winner(self) -> (BlockHash, State) {
        match self.current_election {
            ElectionState::Won { block_hash, state } => (block_hash, state),
            _ => (BlockHash(0), State(0)),
        }
    }

    /// The quorum threshold of the epoch's configuration.
    pub open spec fn spec_quorum_threshold(self) -> nat {
        (2 * self.spec_configuration().spec_total_votes() / 3 + 1) as nat
    }

    /// Every quorum certificate certifies a stored block of the same round
    /// and author.
    pub open spec fn wf_qcs(self) -> bool {
        forall|i: int|
            0 <= i < self.spec_qcs().len() ==> {
                let qc = (#[trigger] self.spec_qcs()[i]).1;
                match self.block_at(qc.value.certified_block_hash.0) {
                    Some(b) => b.value.round == qc.value.round && b.value.author == qc.value.author,
                    None => false,
                }
            }
    }

    /// Every stored block has a round of at least 1 and extends the genesis
    /// hash or a stored quorum certificate of a strictly lower round.
    pub open spec fn wf_blocks(self) -> bool {
        forall|i: int|
            0 <= i < self.spec_blocks().len() ==> {
                let b = (#[trigger] self.spec_blocks()[i]).1;
                &&& b.value.round.0 >= 1
                &&& (b.value.previous_quorum_certificate_hash == self.spec_initial_hash() || (
                match self.qc_at(b.value.previous_quorum_certificate_hash.0) {
                    Some(qc) => qc.value.round.0 < b.value.round.0,
                    None => false,
                }))
            }
    }

    /// The chain part of well-formedness, on which the backward walk rests.
    pub open spec fn wf_chain(self) -> bool {
        &&& spec_unique_keys(self.spec_blocks())
        &&& spec_unique_keys(self.spec_qcs())
        &&& self.wf_qcs()
        &&& self.wf_blocks()
    }

    /// Votes retained at the current round are keyed by their author, belong
    /// to this epoch and round, and there is at most one per author.
    pub open spec fn wf_votes(self) -> bool {
        &&& spec_unique_keys(self.spec_current_votes())
        &&& forall|i: int|
            0 <= i < self.spec_current_votes().len() ==> {
                let e = #[trigger] self.spec_current_votes()[i];
                &&& e.0 == e.1.value.author.0 as u64
                &&& e.1.value.round == self.spec_current_round()
                &&& e.1.value.epoch_id == self.spec_epoch_id()
            }
    }

    /// Timeouts retained at the current round are keyed by their author and
    /// belong to this epoch and round.
    pub open spec fn wf_timeouts(self) -> bool {
        &&& spec_unique_keys(self.spec_current_timeouts())
        &&& forall|i: int|
            0 <= i < self.spec_current_timeouts().len() ==> {
                let e = #[trigger] self.spec_current_timeouts()[i];
                &&& e.0 == e.1.value.author.0 as u64
                &&& e.1.value.round == self.spec_current_round()
                &&& e.1.value.epoch_id == self.spec_epoch_id()
            }
    }

    /// The recorded timeout weight is the combined weight of the retained
    /// timeouts' authors.
    pub open spec fn wf_timeout_weight(self) -> bool {
        self.spec_current_timeouts_weight() == spec_count(
            self.spec_configuration().spec_authors(),
            spec_timeout_authors(self.spec_current_timeouts()),
        )
    }

    /// A ballot is sound for a configuration and set of retained votes when
    /// no pair is recorded twice, each entry records the combined weight of
    /// the votes for its pair, and every retained vote's pair has an entry.
    pub open spec fn spec_ballot_ok(
        cfg: Seq<(Author, usize)>,
        votes: Seq<(u64, Vote)>,
        ballot: Seq<(BlockHash, State, usize)>,
    ) -> bool {
        &&& forall|a: int, b: int|
            0 <= a < b < ballot.len() ==> ((#[trigger] ballot[a]).0, ballot[a].1) != ((
            #[trigger] ballot[b]).0, ballot[b].1)
        &&& forall|i: int|
            0 <= i < ballot.len() ==> (#[trigger] ballot[i]).2 == spec_tally(
                cfg,
                votes,
                ballot[i].0,
                ballot[i].1,
            )
        &&& forall|i: int|
            0 <= i < votes.len() ==> exists|k: int|
                0 <= k < ballot.len() && (#[trigger] ballot[k]).0 == (
                #[trigger] votes[i]).1.value.certified_block_hash && ballot[k].1
                    == votes[i].1.value.state
    }

    /// While the election is counting, its ballot is sound.
    pub closed spec fn wf_ballot(self) -> bool {
        match self.current_election {
            ElectionState::Ongoing { ballot } => Self::spec_ballot_ok(
                self.spec_configuration().spec_authors(),
                self.spec_current_votes(),
                ballot@,
            ),
            _ => true,
        }
    }

    /// The highest-certificate pointers name stored records, and the genesis
    /// values agree.
    pub open spec fn wf_pointers(self) -> bool {
        &&& (self.spec_highest_quorum_certificate_hash() == self.spec_initial_hash() || (
        match self.qc_at(self.spec_highest_quorum_certificate_hash().0) {
            Some(qc) => qc.value.round == self.spec_highest_quorum_certificate_round(),
            None => false,
        }))
        &&& match self.spec_highest_commit_certificate_hash() {
            Some(h) => self.qc_at(h.0) is Some,
            None => true,
        }
        &&& self.spec_current_round().0 >= 1
        &&& self.spec_highest_timeout_certificate_round().0 <= self.spec_current_round().0
        &&& (self.spec_highest_committed_round().0 > 0
            ==> self.spec_highest_quorum_certificate_round().0
            >= self.spec_highest_committed_round().0 + 2)
    }

    /// A retained proposed block is stored, belongs to the current round and
    /// was authored by that round's leader.
    pub open spec fn wf_proposed(self) -> bool {
        match self.spec_current_proposed_block() {
            Some(bh) => match self.block_at(bh.0) {
                Some(b) => b.value.round == self.spec_current_round() && b.value.author
                    == spec_leader(self.spec_configuration(), self.spec_current_round()),
                None => false,
            },
            None => true,
        }
    }

    /// Every stored certificate's committed-state field is the one the
    /// commit rule derives from the chain below its block.
    pub open spec fn wf_commit(self) -> bool {
        forall|i: int|
            0 <= i < self.spec_qcs().len() ==> (#[trigger] self.spec_qcs()[i]).1.value.committed_state
                == self.spec_vote_committed_state(
                self.spec_qcs()[i].1.value.certified_block_hash,
            )
    }

    /// The highest commit certificate closes three consecutive rounds and
    /// commits the highest committed round.
    pub open spec fn wf_commit_certificate(self) -> bool {
        match self.spec_highest_commit_certificate_hash() {
            Some(h) => {
                let c = self.spec_chain(h.0);
                &&& c.len() >= 3
                &&& c[0].value.round.0 == c[1].value.round.0 + 1
                &&& c[1].value.round.0 == c[2].value.round.0 + 1
                &&& c[2].value.round == self.spec_highest_committed_round()
            },
            None => true,
        }
    }

    /// A record store is well formed when all of the above hold and its
    /// configuration is valid and nonempty.
    pub open spec fn wf(self) -> bool {
        &&& self.wf_chain()
        &&& self.wf_votes()
        &&& self.wf_timeouts()
        &&& self.wf_timeout_weight()
        &&& self.wf_ballot()
        &&& self.wf_pointers()
        &&& self.wf_proposed()
        &&& self.wf_commit()
        &&& self.wf_commit_certificate()
        &&& self.spec_configuration().wf()
        &&& self.spec_configuration().spec_total_votes() > 0
    }

    /// Round of the quorum certificate stored under `h`, or 0.
    pub open spec fn spec_round_of(self, h: u64) -> nat {
        match self.qc_at(h) {
            Some(qc) => qc.value.round.0 as nat,
            None => 0,
        }
    }

    /// Termination measure for the backward walk: rounds strictly decrease
    /// along the chain, and the walk stops at the genesis hash.
    pub open spec fn spec_chain_metric(self, h: u64) -> nat {
        if h == self.spec_initial_hash().0 {
            0
        } else {
            self.spec_round_of(h) + 1
        }
    }

    /// The chain of quorum certificates walked backward from `h`: each
    /// certificate's block points to the certificate before it, down to the
    /// genesis hash or the first unknown parent.
    pub open spec fn spec_chain(self, h: u64) -> Seq<QuorumCertificate>
        decreases self.spec_chain_metric(h),
        when self.wf_chain()
        via Self::spec_chain_decreases
    {
        if h == self.spec_initial_hash().0 || !(self.qc_at(h) is Some) {
            Seq::empty()
        } else {
            let qc = self.qc_at(h).unwrap();
            let b = self.block_at(qc.value.certified_block_hash.0).unwrap();
            seq![qc] + self.spec_chain(b.value.previous_quorum_certificate_hash.0)
        }
    }

    #[via_fn]
    proof fn spec_chain_decreases(self, h: u64) {
        if !(h == self.spec_initial_hash().0 || !(self.qc_at(h) is Some)) {
            let qc = self.qc_at(h).unwrap();
            lemma_lookup_index(self.spec_qcs(), h);
            let i = choose|i: int|
                0 <= i < self.spec_qcs().len() && (#[trigger] self.spec_qcs()[i]).0 == h
                    && self.spec_qcs()[i].1 == qc;
            assert(self.spec_qcs()[i].1 == qc);
            assert(self.block_at(qc.value.certified_block_hash.0) is Some);
            let b = self.block_at(qc.value.certified_block_hash.0).unwrap();
            lemma_lookup_index(self.spec_blocks(), qc.value.certified_block_hash.0);
            let j = choose|j: int|
                0 <= j < self.spec_blocks().len() && (#[trigger] self.spec_blocks()[j]).0
                    == qc.value.certified_block_hash.0 && self.spec_blocks()[j].1 == b;
            assert(self.spec_blocks()[j].1 == b);
            assert(b.value.round == qc.value.round);
            assert(b.value.round.0 >= 1);
            let p = b.value.previous_quorum_certificate_hash.0;
            assert(self.qc_at(h) == Some(qc));
            assert(self.spec_round_of(h) == qc.value.round.0 as nat);
            if p == self.spec_initial_hash().0 {
                assert(self.spec_chain_metric(p) == 0);
            } else if self.qc_at(p) is Some {
                assert(b.value.previous_quorum_certificate_hash != self.spec_initial_hash());
                assert(self.qc_at(p).unwrap().value.round.0 < b.value.round.0);
                assert(self.spec_chain_metric(p) < self.spec_chain_metric(h));
            } else {
                assert(self.spec_chain_metric(p) == 1);
                assert(self.spec_chain_metric(h) >= 2);
            }
        }
    }
}

impl RecordStoreState {
    /// Create the record store of a new epoch: no records, the genesis hash
    /// as highest certificate, and the current round starting at 1.
    pub fn new(
        initial_hash: QuorumCertificateHash,
        initial_state: State,
        epoch_id: EpochId,
        configuration: EpochConfiguration,
    ) -> (r: RecordStoreState)
        requires
            configuration.wf(),
            configuration.spec_total_votes() > 0,
        ensures
            r.wf(),
            r.spec_epoch_id() == epoch_id,
            r.spec_configuration() == configuration,
            r.spec_initial_hash() == initial_hash,
            r.spec_initial_state() == initial_state,
            r.spec_blocks().len() == 0,
            r.spec_qcs().len() == 0,
            r.spec_current_proposed_block() is None,
            r.spec_highest_quorum_certificate_round() == Round(0),
            r.spec_highest_quorum_certificate_hash() == initial_hash,
            r.spec_highest_timeout_certificate_round() == Round(0),
            r.spec_current_round() == Round(1),
            r.spec_highest_committed_round() == Round(0),
            r.spec_highest_commit_certificate_hash() is None,
            r.spec_highest_timeout_certificate() is None,
            r.spec_current_timeouts().len() == 0,
            r.spec_current_votes().len() == 0,
            r.spec_current_timeouts_weight() == 0,
            r.spec_election_is_ongoing(),
    {
        RecordStoreState {
            configuration,
            initial_hash,
            initial_state,
            epoch_id,
            blocks: KeyedVec::new(),
            quorum_certificates: KeyedVec::new(),
            current_proposed_block: None,
            highest_quorum_certificate_round: Round(0),
            highest_quorum_certificate_hash: initial_hash,
            highest_timeout_certificate_round: Round(0),
            current_round: Round(1),
            highest_committed_round: Round(0),
            highest_commit_certificate_hash: None,
            highest_timeout_certificate: None,
            current_timeouts: KeyedVec::new(),
            current_votes: KeyedVec::new(),
            current_timeouts_weight: 0,
            current_election: ElectionState::Ongoing { ballot: Vec::new() },
        }
    }

    /// Current round as seen by the record store.
    pub fn current_round(&self) -> (r: Round)
        ensures
            r == self.spec_current_round(),
    {
        self.current_round
    }

    /// Round of the highest stored quorum certificate.
    pub fn highest_quorum_certificate_round(&self) -> (r: Round)
        ensures
            r == self.spec_highest_quorum_certificate_round(),
    {
        self.highest_quorum_certificate_round
    }

    /// Hash of a quorum certificate at the highest round, or the genesis
    /// hash.
    pub fn highest_quorum_certificate_hash(&self) -> (r: QuorumCertificateHash)
        ensures
            r == self.spec_highest_quorum_certificate_hash(),
    {
        self.highest_quorum_certificate_hash
    }

    /// Round of the highest timeout certificate.
    pub fn highest_timeout_certificate_round(&self) -> (r: Round)
        ensures
            r == self.spec_highest_timeout_certificate_round(),
    {
        self.highest_timeout_certificate_round
    }

    /// Round of the highest commit.
    pub fn highest_committed_round(&self) -> (r: Round)
        ensures
            r == self.spec_highest_committed_round(),
    {
        self.highest_committed_round
    }

    /// The epoch this store belongs to.
    pub fn epoch_id(&self) -> (r: EpochId)
        ensures
            r == self.spec_epoch_id(),
    {
        self.epoch_id
    }

    /// The state the epoch started from.
    pub fn initial_state(&self) -> (r: State)
        ensures
            r == self.spec_initial_state(),
    {
        self.initial_state
    }

    /// The genesis quorum-certificate hash of the epoch.
    pub fn initial_hash(&self) -> (r: QuorumCertificateHash)
        ensures
            r == self.spec_initial_hash(),
    {
        self.initial_hash
    }

    /// Number of stored blocks.
    pub fn num_blocks(&self) -> (r: usize)
        ensures
            r == self.spec_blocks().len(),
    {
        self.blocks.len()
    }

    /// Number of stored quorum certificates.
    pub fn num_quorum_certificates(&self) -> (r: usize)
        ensures
            r == self.spec_qcs().len(),
    {
        self.quorum_certificates.len()
    }

    /// Number of timeouts retained at the current round.
    pub fn num_current_timeouts(&self) -> (r: usize)
        ensures
            r == self.spec_current_timeouts().len(),
    {
        self.current_timeouts.len()
    }

    /// The hashes of the stored blocks, in insertion order.
    pub fn block_hashes(&self) -> (r: Vec<BlockHash>)
        ensures
            r@.len() == self.spec_blocks().len(),
            forall|i: int| 0 <= i < r@.len() ==> (#[trigger] r@[i]).0 == self.spec_blocks()[i].0,
    {
        let mut result: Vec<BlockHash> = Vec::new();
        let n = self.blocks.len();
        let mut i: usize = 0;
        while i < n
            invariant
                i <= n,
                n == self.spec_blocks().len(),
                result@.len() == i,
                forall|k: int|
                    0 <= k < i ==> (#[trigger] result@[k]).0 == self.spec_blocks()[k].0,
            decreases n - i,
        {
            let e = self.blocks.entry_at(i);
            result.push(BlockHash(e.0));
            i = i + 1;
        }
        result
    }

    /// The proposed block retained at the current round, if any.
    pub fn current_proposed_block(&self) -> (r: Option<BlockHash>)
        ensures
            r == self.spec_current_proposed_block(),
    {
        self.current_proposed_block
    }

    /// Pick an author based on a seed, with chances proportional to voting
    /// rights.
    pub fn pick_author(&self, seed: u64) -> (r: Author)
        requires
            self.wf(),
        ensures
            r == crate::configuration::spec_pick(
                self.spec_configuration().spec_authors(),
                crate::configuration::sample_index(
                    seed,
                    self.spec_configuration().spec_total_votes() as u64,
                ) as nat,
            ),
            spec_weight(self.spec_configuration().spec_authors(), r) > 0,
    {
        self.configuration.pick_author(seed)
    }

    /// Whether `author` has a timeout retained at `round`.
    pub open spec fn spec_has_timeout(self, author: Author, round: Round) -> bool {
        round == self.spec_current_round() && spec_has_key(
            self.spec_current_timeouts(),
            author.0 as u64,
        )
    }

    /// Check if `author` already has a timeout at `round`.
    pub fn has_timeout(&self, author: Author, round: Round) -> (r: bool)
        ensures
            r == self.spec_has_timeout(author, round),
    {
        round.0 == self.current_round.0 && self.current_timeouts.contains_key(author.0 as u64)
    }

    /// The stored block with the given hash, if any.
    pub fn block(&self, block_hash: BlockHash) -> (r: Option<&Block>)
        ensures
            match r {
                Some(b) => self.block_at(block_hash.0) == Some(*b),
                None => self.block_at(block_hash.0) is None,
            },
    {
        self.blocks.get(block_hash.0)
    }

    /// The stored quorum certificate with the given hash, if any.
    fn quorum_certificate(&self, qc_hash: QuorumCertificateHash) -> (r: Option<&QuorumCertificate>)
        ensures
            match r {
                Some(qc) => self.qc_at(qc_hash.0) == Some(*qc),
                None => self.qc_at(qc_hash.0) is None,
            },
    {
        self.quorum_certificates.get(qc_hash.0)
    }

    /// This node's vote at the current round, if any.
    pub fn current_vote(&self, local_author: Author) -> (r: Option<&Vote>)
        ensures
            match r {
                Some(v) => spec_lookup(self.spec_current_votes(), local_author.0 as u64) == Some(
                    *v,
                ),
                None => spec_lookup(self.spec_current_votes(), local_author.0 as u64) is None,
            },
    {
        self.current_votes.get(local_author.0 as u64)
    }

    /// The highest stored quorum certificate, if any.
    pub fn highest_quorum_certificate(&self) -> (r: Option<&QuorumCertificate>)
        ensures
            match r {
                Some(qc) => self.qc_at(self.spec_highest_quorum_certificate_hash().0) == Some(*qc),
                None => self.qc_at(self.spec_highest_quorum_certificate_hash().0) is None,
            },
    {
        self.quorum_certificate(self.highest_quorum_certificate_hash)
    }

    /// The certificate whose 3-chain produced the highest commit, if any.
    pub fn highest_commit_certificate(&self) -> (r: Option<&QuorumCertificate>)
        requires
            self.wf(),
        ensures
            match r {
                Some(qc) => {
                    &&& self.spec_highest_commit_certificate_hash() is Some
                    &&& self.qc_at(self.spec_highest_commit_certificate_hash().unwrap().0) == Some(
                        *qc,
                    )
                },
                None => self.spec_highest_commit_certificate_hash() is None,
            },
    {
        match self.highest_commit_certificate_hash {
            Some(hash) => self.quorum_certificate(hash),
            None => None,
        }
    }

    /// One step of the backward walk: the certificate stored under `h` and
    /// the hash its block points back to.
    fn chain_step(&self, h: u64) -> (r: Option<(&QuorumCertificate, u64)>)
        requires
            self.wf(),
        ensures
            match r {
                None => self.spec_chain(h).len() == 0,
                Some((qc, next)) => {
                    &&& self.spec_chain(h).len() > 0
                    &&& *qc == self.spec_chain(h)[0]
                    &&& self.qc_at(h) == Some(*qc)
                    &&& self.spec_chain(next) == self.spec_chain(h).skip(1)
                },
            },
    {
        if h == self.initial_hash.0 {
            return None;
        }
        match self.quorum_certificates.get(h) {
            None => None,
            Some(qc) => {
                proof {
                    lemma_lookup_index(self.spec_qcs(), h);
                    let i = choose|i: int|
                        0 <= i < self.spec_qcs().len() && (#[trigger] self.spec_qcs()[i]).0 == h
                            && self.spec_qcs()[i].1 == self.qc_at(h).unwrap();
                    assert(self.block_at(qc.value.certified_block_hash.0) is Some);
                }
                match self.blocks.get(qc.value.certified_block_hash.0) {
                    Some(block) => {
                        let next = block.value.previous_quorum_certificate_hash.0;
                        proof {
                            let c = self.spec_chain(h);
                            assert(c == seq![self.qc_at(h).unwrap()] + self.spec_chain(next));
                            assert(c.skip(1) =~= self.spec_chain(next));
                        }
                        Some((qc, next))
                    },
                    None => {
                        proof {
                            assert(false);
                        }
                        None
                    },
                }
            },
        }
    }

    /// The commit queue: the chain below the two topmost certificates of the
    /// highest commit certificate's chain.
    pub open spec fn spec_commit_queue(self) -> Seq<QuorumCertificate> {
        let start = match self.spec_highest_commit_certificate_hash() {
            Some(h) => h,
            None => self.spec_initial_hash(),
        };
        let c = self.spec_chain(start.0);
        if c.len() >= 2 {
            c.skip(2)
        } else {
            Seq::empty()
        }
    }

    /// The committed `(round, state)` pairs above `after`, read from a chain
    /// of descending rounds.
    pub open spec fn spec_commits_above(
        chain: Seq<QuorumCertificate>,
        after: nat,
    ) -> Seq<(Round, State)>
        decreases chain.len(),
    {
        if chain.len() == 0 || chain[0].value.round.0 <= after {
            Seq::empty()
        } else {
            seq![(chain[0].value.round, chain[0].value.state)] + Self::spec_commits_above(
                chain.skip(1),
                after,
            )
        }
    }

    /// The `(round, state)` pairs of a chain of certificates.
    pub open spec fn spec_round_states(chain: Seq<QuorumCertificate>) -> Seq<(Round, State)> {
        chain.map_values(|qc: QuorumCertificate| (qc.value.round, qc.value.state))
    }

    /// Splitting the commit collection after a prefix of rounds above the
    /// bound.
    proof fn lemma_commits_above_unfold(chain: Seq<QuorumCertificate>, after: nat, k: int)
        requires
            0 <= k <= chain.len(),
            forall|j: int| 0 <= j < k ==> (#[trigger] chain[j]).value.round.0 > after,
        ensures
            Self::spec_commits_above(chain, after) == Self::spec_round_states(chain.take(k))
                + Self::spec_commits_above(chain.skip(k), after),
        decreases k,
    {
        if k == 0 {
            assert(chain.take(0) =~= Seq::<QuorumCertificate>::empty());
            assert(chain.skip(0) =~= chain);
            assert(Self::spec_round_states(chain.take(0)) =~= Seq::<(Round, State)>::empty());
            assert(Self::spec_commits_above(chain, after) =~= Self::spec_round_states(
                chain.take(0),
            ) + Self::spec_commits_above(chain.skip(0), after));
        } else {
            Self::lemma_commits_above_unfold(chain, after, k - 1);
            assert(chain.skip(k - 1)[0] == chain[k - 1]);
            assert(Self::spec_commits_above(chain.skip(k - 1), after) == seq![
                (chain[k - 1].value.round, chain[k - 1].value.state),
            ] + Self::spec_commits_above(chain.skip(k - 1).skip(1), after));
            assert(chain.skip(k - 1).skip(1) =~= chain.skip(k));
            assert(Self::spec_round_states(chain.take(k)) =~= Self::spec_round_states(
                chain.take(k - 1),
            ) + seq![(chain[k - 1].value.round, chain[k - 1].value.state)]);
            assert(Self::spec_commits_above(chain, after) =~= Self::spec_round_states(
                chain.take(k),
            ) + Self::spec_commits_above(chain.skip(k), after));
        }
    }

    /// The committed states with a round after `after_round`, in increasing
    /// round order, ending with the highest commit known so far.
    pub fn committed_states_after(&self, after_round: Round) -> (r: Vec<(Round, State)>)
        requires
            self.wf(),
        ensures
            r@ == Self::spec_commits_above(
                self.spec_commit_queue(),
                after_round.0 as nat,
            ).reverse(),
    {
        let cc_hash = match self.highest_commit_certificate_hash {
            Some(h) => h,
            None => self.initial_hash,
        };
        let mut cur: u64 = cc_hash.0;
        let ghost full = self.spec_chain(cc_hash.0);
        // Skip the two topmost certificates of the commit rule.
        match self.chain_step(cur) {
            Some((_, next)) => {
                cur = next;
            },
            None => (),
        }
        match self.chain_step(cur) {
            Some((_, next)) => {
                cur = next;
            },
            None => (),
        }
        proof {
            if full.len() >= 2 {
                assert(self.spec_chain(cur) =~= full.skip(2));
            } else {
                assert(self.spec_chain(cur).len() == 0);
            }
        }
        let ghost queue = self.spec_commit_queue();
        let ghost after = after_round.0 as nat;
        let mut commits: Vec<(Round, State)> = Vec::new();
        let ghost mut k: int = 0;
        proof {
            assert(self.spec_chain(cur) =~= queue);
            assert(queue.take(0) =~= Seq::<QuorumCertificate>::empty());
            assert(commits@ =~= Self::spec_round_states(queue.take(0)));
        }
        loop
            invariant
                self.wf(),
                0 <= k <= queue.len(),
                queue == self.spec_commit_queue(),
                after == after_round.0 as nat,
                self.spec_chain(cur) =~= queue.skip(k),
                commits@ == Self::spec_round_states(queue.take(k)),
                forall|j: int| 0 <= j < k ==> (#[trigger] queue[j]).value.round.0 > after,
            ensures
                commits@ == Self::spec_commits_above(queue, after),
            decreases queue.len() - k,
        {
            match self.chain_step(cur) {
                None => {
                    proof {
                        assert(queue.skip(k).len() == 0);
                        assert(k == queue.len());
                        Self::lemma_commits_above_unfold(queue, after, k);
                        assert(queue.take(k) =~= queue);
                        assert(commits@ =~= Self::spec_commits_above(queue, after));
                    }
                    break ;
                },
                Some((qc, next)) => {
                    proof {
                        assert(queue.skip(k)[0] == *qc);
                        assert(queue[k] == *qc);
                    }
                    if qc.value.round.0 <= after_round.0 {
                        proof {
                            Self::lemma_commits_above_unfold(queue, after, k);
                            assert(Self::spec_commits_above(queue.skip(k), after) =~= Seq::<
                                (Round, State),
                            >::empty());
                            assert(commits@ =~= Self::spec_commits_above(queue, after));
                        }
                        break ;
                    }
                    proof {
                        assert(queue.take(k + 1) =~= queue.take(k).push(*qc));
                        assert(Self::spec_round_states(queue.take(k + 1)) =~= commits@.push(
                            (qc.value.round, qc.value.state),
                        ));
                        assert(queue.skip(k).skip(1) =~= queue.skip(k + 1));
                    }
                    commits.push((qc.value.round, qc.value.state));
                    cur = next;
                    proof {
                        k = k + 1;
                    }
                },
            }
        }
        // Deliver the pairs in increasing round order.
        let mut result: Vec<(Round, State)> = Vec::new();
        let mut j: usize = commits.len();
        while j > 0
            invariant
                j <= commits@.len(),
                result@.len() == commits@.len() - j,
                forall|i: int|
                    0 <= i < result@.len() ==> result@[i] == commits@[commits@.len() - 1 - i],
            decreases j,
        {
            j = j - 1;
            result.push(commits[j]);
        }
        proof {
            assert(result@ =~= commits@.reverse());
        }
        result
    }

    /// A chain yields at most as many commits as it has certificates.
    proof fn lemma_commits_above_len(chain: Seq<QuorumCertificate>, after: nat)
        ensures
            Self::spec_commits_above(chain, after).len() <= chain.len(),
        decreases chain.len(),
    {
        if chain.len() > 0 && chain[0].value.round.0 > after {
            Self::lemma_commits_above_len(chain.skip(1), after);
        }
    }

    /// 1-back round of a block: the round of the certificate it extends, or
    /// 0 at the genesis hash.
    pub open spec fn spec_previous_round(self, block_hash: BlockHash) -> nat {
        match self.block_at(block_hash.0) {
            Some(b) => {
                if b.value.previous_quorum_certificate_hash == self.spec_initial_hash() {
                    0
                } else {
                    self.spec_round_of(b.value.previous_quorum_certificate_hash.0)
                }
            },
            None => 0,
        }
    }

    /// 2-back round of a block: the 1-back round of the block certified by
    /// the certificate it extends, or 0 at the genesis hash.
    pub open spec fn spec_second_previous_round(self, block_hash: BlockHash) -> nat {
        match self.block_at(block_hash.0) {
            Some(b) => {
                if b.value.previous_quorum_certificate_hash == self.spec_initial_hash() {
                    0
                } else {
                    match self.qc_at(b.value.previous_quorum_certificate_hash.0) {
                        Some(qc) => self.spec_previous_round(qc.value.certified_block_hash),
                        None => 0,
                    }
                }
            },
            None => 0,
        }
    }

    /// Compute the round of the certificate the given block extends.
    pub fn previous_round(&self, block_hash: BlockHash) -> (r: Round)
        requires
            self.wf(),
            self.block_at(block_hash.0) is Some,
        ensures
            r.0 == self.spec_previous_round(block_hash),
    {
        let block = match self.blocks.get(block_hash.0) {
            Some(b) => b,
            None => {
                proof {
                    assert(false);
                }
                return Round(0);
            },
        };
        let hash = block.value.previous_quorum_certificate_hash;
        if hash.0 == self.initial_hash.0 {
            Round(0)
        } else {
            proof {
                lemma_lookup_index(self.spec_blocks(), block_hash.0);
                let j = choose|j: int|
                    0 <= j < self.spec_blocks().len() && (#[trigger] self.spec_blocks()[j]).0
                        == block_hash.0 && self.spec_blocks()[j].1 == self.block_at(
                        block_hash.0,
                    ).unwrap();
                assert(self.qc_at(hash.0) is Some);
            }
            match self.quorum_certificate(hash) {
                Some(qc) => {
                    proof {
                        lemma_lookup_index(self.spec_qcs(), hash.0);
                        let i = choose|i: int|
                            0 <= i < self.spec_qcs().len() && (#[trigger] self.spec_qcs()[i]).0
                                == hash.0 && self.spec_qcs()[i].1 == self.qc_at(hash.0).unwrap();
                        assert(self.block_at(qc.value.certified_block_hash.0) is Some);
                    }
                    match self.block(qc.value.certified_block_hash) {
                        Some(b) => b.value.round,
                        None => {
                            proof {
                                assert(false);
                            }
                            Round(0)
                        },
                    }
                },
                None => {
                    proof {
                        assert(false);
                    }
                    Round(0)
                },
            }
        }
    }

    /// Compute the 2-back round of the given block.
    pub fn second_previous_round(&self, block_hash: BlockHash) -> (r: Round)
        requires
            self.wf(),
            self.block_at(block_hash.0) is Some,
        ensures
            r.0 == self.spec_second_previous_round(block_hash),
    {
        let block = match self.blocks.get(block_hash.0) {
            Some(b) => b,
            None => {
                proof {
                    assert(false);
                }
                return Round(0);
            },
        };
        let hash = block.value.previous_quorum_certificate_hash;
        if hash.0 == self.initial_hash.0 {
            Round(0)
        } else {
            proof {
                lemma_lookup_index(self.spec_blocks(), block_hash.0);
                let j = choose|j: int|
                    0 <= j < self.spec_blocks().len() && (#[trigger] self.spec_blocks()[j]).0
                        == block_hash.0 && self.spec_blocks()[j].1 == self.block_at(
                        block_hash.0,
                    ).unwrap();
                assert(self.qc_at(hash.0) is Some);
            }
            match self.quorum_certificate(hash) {
                Some(qc) => {
                    proof {
                        lemma_lookup_index(self.spec_qcs(), hash.0);
                        let i = choose|i: int|
                            0 <= i < self.spec_qcs().len() && (#[trigger] self.spec_qcs()[i]).0
                                == hash.0 && self.spec_qcs()[i].1 == self.qc_at(hash.0).unwrap();
                        assert(self.block_at(qc.value.certified_block_hash.0) is Some);
                    }
                    self.previous_round(qc.value.certified_block_hash)
                },
                None => {
                    proof {
                        assert(false);
                    }
                    Round(0)
                },
            }
        }
    }

    /// The commit-rule state for a vote or certificate on `block_hash`: when
    /// the two certificates below the block close three consecutive rounds,
    /// the state certified three rounds back, otherwise nothing.
    pub open spec fn spec_vote_committed_state(self, block_hash: BlockHash) -> Option<State> {
        match self.block_at(block_hash.0) {
            Some(b) => {
                let c = self.spec_chain(b.value.previous_quorum_certificate_hash.0);
                if c.len() >= 2 && b.value.round.0 == c[0].value.round.0 + 1 && c[0].value.round.0
                    == c[1].value.round.0 + 1 {
                    Some(c[1].value.state)
                } else {
                    None
                }
            },
            None => None,
        }
    }

    /// Compute the commit-rule state for a block, following the 3-chain
    /// rule.
    fn vote_committed_state(&self, block_hash: BlockHash) -> (r: Option<State>)
        requires
            self.wf(),
            self.block_at(block_hash.0) is Some,
        ensures
            r == self.spec_vote_committed_state(block_hash),
    {
        let block = match self.blocks.get(block_hash.0) {
            Some(b) => b,
            None => {
                proof {
                    assert(false);
                }
                return None;
            },
        };
        let r3 = block.value.round;
        let qc2_hash = block.value.previous_quorum_certificate_hash.0;
        let ghost c = self.spec_chain(qc2_hash);
        match self.chain_step(qc2_hash) {
            None => None,
            Some((qc2, h1)) => {
                match self.chain_step(h1) {
                    None => {
                        proof {
                            assert(self.spec_chain(h1).len() == 0);
                            assert(c.len() < 2);
                        }
                        None
                    },
                    Some((qc1, _)) => {
                        proof {
                            assert(self.spec_chain(h1)[0] == c.skip(1)[0]);
                            assert(c[1] == c.skip(1)[0]);
                        }
                        let r2 = qc2.value.round;
                        let r1 = qc1.value.round;
                        if r3.0 >= 1 && r3.0 - 1 == r2.0 && r2.0 >= 1 && r2.0 - 1 == r1.0 {
                            Some(qc1.value.state)
                        } else {
                            None
                        }
                    },
                }
            },
        }
    }
}

/// Why an incoming record was dropped instead of stored.
#[derive(Eq, PartialEq, Copy, Clone, Debug, Structural)]
pub enum RecordError {
    /// The record is already stored.
    AlreadyInserted,
    /// A signature did not check out.
    InvalidSignature,
    /// A block's parent certificate is not stored yet.
    UnknownPreviousQuorumCertificate,
    /// A block's round does not exceed its parent's.
    NonIncreasingRound,
    /// The record belongs to another epoch.
    EpochMismatch,
    /// The certified block is not stored yet.
    UnknownCertifiedBlock,
    /// The record's round does not match the certified block.
    RoundMismatch,
    /// A certificate was not made by the certified block's author.
    WrongAuthor,
    /// The committed-state field does not follow the commit rule.
    CommitRuleMismatch,
    /// The record is not at the current round.
    NotCurrentRound,
    /// The author already voted or timed out at this round.
    DuplicateAuthor,
    /// A timeout refers to a certified round this store does not know.
    UnknownCertifiedRound,
    /// The votes in a certificate do not reach the quorum threshold.
    BelowQuorumThreshold,
    /// The local execution of the certified block failed.
    ComputeFailure,
    /// The local execution disagrees with the certified state.
    StateMismatch,
}

/// Compare two optional states.
fn opt_state_eq(a: &Option<State>, b: &Option<State>) -> (r: bool)
    ensures
        r == (*a == *b),
{
    match (a, b) {
        (None, None) => true,
        (Some(x), Some(y)) => x.0 == y.0,
        _ => false,
    }
}

impl RecordStoreState {
    /// Digest of a record's value under the context's hash.
    pub open spec fn spec_record_digest<C: SmrContext>(r: Record) -> u64 {
        match r {
            Record::Block(b) => C::hash_spec(crate::record::spec_block_bytes(b.value)),
            Record::Vote(v) => C::hash_spec(crate::record::spec_vote_bytes(v.value)),
            Record::QuorumCertificate(q) => C::hash_spec(crate::record::spec_qc_bytes(q.value)),
            Record::Timeout(t) => C::hash_spec(crate::record::spec_timeout_bytes(t.value)),
        }
    }

    /// A block passes verification: new, signed by its author, extending the
    /// genesis hash with a round of at least 1 or a stored certificate with
    /// a strictly greater round.
    pub open spec fn spec_block_verifies<C: SmrContext>(self, b: Block) -> bool {
        let h = C::hash_spec(crate::record::spec_block_bytes(b.value));
        let prev = b.value.previous_quorum_certificate_hash;
        &&& !spec_has_key(self.spec_blocks(), h)
        &&& C::verify_spec(b.value.author, h, b.signature)
        &&& (prev == self.spec_initial_hash() || spec_has_key(self.spec_qcs(), prev.0))
        &&& if prev == self.spec_initial_hash() {
            b.value.round.0 > 0
        } else {
            match self.qc_at(prev.0) {
                Some(qc) => b.value.round.0 > qc.value.round.0,
                None => false,
            }
        }
    }

    /// A vote passes verification: it belongs to this epoch and the current
    /// round, certifies a stored block of the same round, carries the
    /// commit-rule state, is its author's first vote this round, and is
    /// signed.
    pub open spec fn spec_vote_verifies<C: SmrContext>(self, v: Vote) -> bool {
        let h = C::hash_spec(crate::record::spec_vote_bytes(v.value));
        &&& v.value.epoch_id == self.spec_epoch_id()
        &&& self.block_at(v.value.certified_block_hash.0) is Some
        &&& self.block_at(v.value.certified_block_hash.0).unwrap().value.round == v.value.round
        &&& self.spec_vote_committed_state(v.value.certified_block_hash) == v.value.committed_state
        &&& v.value.round == self.spec_current_round()
        &&& !spec_has_key(self.spec_current_votes(), v.value.author.0 as u64)
        &&& C::verify_spec(v.value.author, h, v.signature)
    }

    /// One embedded vote of a certificate checks out against the vote record
    /// reconstructed from the certificate's fields.
    pub open spec fn spec_qc_vote_ok<C: SmrContext>(
        epoch_id: EpochId,
        q: crate::record::QuorumCertificate_,
        entry: (Author, Signature),
    ) -> bool {
        C::verify_spec(
            entry.0,
            C::hash_spec(
                crate::record::spec_vote_bytes(
                    crate::record::Vote_ {
                        epoch_id,
                        round: q.round,
                        certified_block_hash: q.certified_block_hash,
                        state: q.state,
                        committed_state: q.committed_state,
                        author: entry.0,
                    },
                ),
            ),
            entry.1,
        )
    }

    /// A certificate passes verification: new, of this epoch, certifying a
    /// stored block with matching round and author, carrying the commit-rule
    /// state, every embedded vote checking out, the voters' combined weight
    /// reaching the quorum threshold, and signed by its author.
    pub open spec fn spec_qc_verifies<C: SmrContext>(self, q: QuorumCertificate) -> bool {
        let h = C::hash_spec(crate::record::spec_qc_bytes(q.value));
        let cbh = q.value.certified_block_hash;
        &&& q.value.epoch_id == self.spec_epoch_id()
        &&& !spec_has_key(self.spec_qcs(), h)
        &&& self.block_at(cbh.0) is Some
        &&& self.block_at(cbh.0).unwrap().value.round == q.value.round
        &&& q.value.author == self.block_at(cbh.0).unwrap().value.author
        &&& self.spec_vote_committed_state(cbh) == q.value.committed_state
        &&& forall|i: int|
            0 <= i < q.value.votes@.len() ==> Self::spec_qc_vote_ok::<C>(
                self.spec_epoch_id(),
                q.value,
                #[trigger] q.value.votes@[i],
            )
        &&& spec_count(
            self.spec_configuration().spec_authors(),
            q.value.votes@.map_values(|e: (Author, Signature)| e.0),
        ) >= self.spec_quorum_threshold()
        &&& C::verify_spec(q.value.author, h, q.signature)
    }

    /// A timeout passes verification: of this epoch and the current round,
    /// referring to a certified round this store knows, its author's first
    /// timeout this round, and signed.
    pub open spec fn spec_timeout_verifies<C: SmrContext>(self, t: Timeout) -> bool {
        let h = C::hash_spec(crate::record::spec_timeout_bytes(t.value));
        &&& t.value.epoch_id == self.spec_epoch_id()
        &&& t.value.highest_certified_block_round.0
            <= self.spec_highest_quorum_certificate_round().0
        &&& t.value.round == self.spec_current_round()
        &&& !spec_has_key(self.spec_current_timeouts(), t.value.author.0 as u64)
        &&& C::verify_spec(t.value.author, h, t.signature)
    }

    /// Whether a record passes verification against this store.
    pub open spec fn spec_verifies<C: SmrContext>(self, r: Record) -> bool {
        match r {
            Record::Block(b) => self.spec_block_verifies::<C>(b),
            Record::Vote(v) => self.spec_vote_verifies::<C>(v),
            Record::QuorumCertificate(q) => self.spec_qc_verifies::<C>(q),
            Record::Timeout(t) => self.spec_timeout_verifies::<C>(t),
        }
    }

    /// Check that a record is relevant and respects the invariants of
    /// verified records, such as chaining; return its digest.
    fn verify_network_record<C: SmrContext>(&self, context: &C, record: &Record) -> (r: Result<
        u64,
        RecordError,
    >)
        requires
            self.wf(),
        ensures
            r is Ok <==> self.spec_verifies::<C>(*record),
            r is Ok ==> r.unwrap() == Self::spec_record_digest::<C>(*record),
    {
        match record {
            Record::Block(block) => {
                let bytes = block.value.to_bytes();
                let hash = context.hash(&bytes);
                if self.blocks.contains_key(hash) {
                    return Err(RecordError::AlreadyInserted);
                }
                if context.verify(block.value.author, hash, block.signature).is_err() {
                    return Err(RecordError::InvalidSignature);
                }
                let prev = block.value.previous_quorum_certificate_hash;
                proof {
                    assert(prev == QuorumCertificateHash(prev.0));
                    assert(self.spec_initial_hash() == QuorumCertificateHash(self.initial_hash.0));
                }
                if prev.0 == self.initial_hash.0 {
                    if block.value.round.0 > 0 {
                        Ok(hash)
                    } else {
                        Err(RecordError::NonIncreasingRound)
                    }
                } else {
                    proof {
                        lemma_lookup_has_key(self.spec_qcs(), prev.0);
                    }
                    match self.quorum_certificates.get(prev.0) {
                        None => Err(RecordError::UnknownPreviousQuorumCertificate),
                        Some(previous_qc) => {
                            if block.value.round.0 > previous_qc.value.round.0 {
                                Ok(hash)
                            } else {
                                Err(RecordError::NonIncreasingRound)
                            }
                        },
                    }
                }
            },
            Record::Vote(vote) => {
                let bytes = vote.value.to_bytes();
                let hash = context.hash(&bytes);
                if vote.value.epoch_id.0 != self.epoch_id.0 {
                    return Err(RecordError::EpochMismatch);
                }
                let block_round = match self.blocks.get(vote.value.certified_block_hash.0) {
                    None => {
                        return Err(RecordError::UnknownCertifiedBlock);
                    },
                    Some(b) => b.value.round,
                };
                if block_round.0 != vote.value.round.0 {
                    return Err(RecordError::RoundMismatch);
                }
                let committed_state = self.vote_committed_state(vote.value.certified_block_hash);
                if !opt_state_eq(&committed_state, &vote.value.committed_state) {
                    return Err(RecordError::CommitRuleMismatch);
                }
                if vote.value.round.0 != self.current_round.0 {
                    return Err(RecordError::NotCurrentRound);
                }
                if self.current_votes.contains_key(vote.value.author.0 as u64) {
                    return Err(RecordError::DuplicateAuthor);
                }
                if context.verify(vote.value.author, hash, vote.signature).is_err() {
                    return Err(RecordError::InvalidSignature);
                }
                Ok(hash)
            },
            Record::QuorumCertificate(qc) => {
                let bytes = qc.value.to_bytes();
                let hash = context.hash(&bytes);
                if qc.value.epoch_id.0 != self.epoch_id.0 {
                    return Err(RecordError::EpochMismatch);
                }
                if self.quorum_certificates.contains_key(hash) {
                    return Err(RecordError::AlreadyInserted);
                }
                let (block_round, block_author) = match self.blocks.get(
                    qc.value.certified_block_hash.0,
                ) {
                    None => {
                        return Err(RecordError::UnknownCertifiedBlock);
                    },
                    Some(b) => (b.value.round, b.value.author),
                };
                if block_round.0 != qc.value.round.0 {
                    return Err(RecordError::RoundMismatch);
                }
                if qc.value.author.0 != block_author.0 {
                    return Err(RecordError::WrongAuthor);
                }
                let committed_state = self.vote_committed_state(qc.value.certified_block_hash);
                if !opt_state_eq(&committed_state, &qc.value.committed_state) {
                    return Err(RecordError::CommitRuleMismatch);
                }
                let ghost authors = qc.value.votes@.map_values(|e: (Author, Signature)| e.0);
                let mut weight: u128 = 0;
                let mut i: usize = 0;
                proof {
                    assert(authors.take(0) =~= Seq::<Author>::empty());
                }
                while i < qc.value.votes.len()
                    invariant
                        self.wf(),
                        i <= qc.value.votes@.len(),
                        *record == Record::QuorumCertificate(*qc),
                        authors == qc.value.votes@.map_values(|e: (Author, Signature)| e.0),
                        weight == spec_count(
                            self.spec_configuration().spec_authors(),
                            authors.take(i as int),
                        ) || (weight == u128::MAX && spec_count(
                            self.spec_configuration().spec_authors(),
                            authors.take(i as int),
                        ) >= u128::MAX),
                        forall|j: int|
                            0 <= j < i ==> Self::spec_qc_vote_ok::<C>(
                                self.spec_epoch_id(),
                                qc.value,
                                #[trigger] qc.value.votes@[j],
                            ),
                    decreases qc.value.votes@.len() - i,
                {
                    let (author, signature) = qc.value.votes[i];
                    let original_vote = crate::record::Vote_ {
                        epoch_id: self.epoch_id,
                        round: qc.value.round,
                        certified_block_hash: qc.value.certified_block_hash,
                        state: qc.value.state,
                        committed_state: qc.value.committed_state,
                        author,
                    };
                    let vote_bytes = original_vote.to_bytes();
                    let original_vote_hash = context.hash(&vote_bytes);
                    if context.verify(author, original_vote_hash, signature).is_err() {
                        proof {
                            assert(qc.value.votes@[i as int] == (author, signature));
                            assert(!Self::spec_qc_vote_ok::<C>(
                                self.spec_epoch_id(),
                                qc.value,
                                qc.value.votes@[i as int],
                            ));
                            assert(!self.spec_qc_verifies::<C>(*qc));
                        }
                        return Err(RecordError::InvalidSignature);
                    }
                    let w = self.configuration.weight(&author);
                    proof {
                        crate::configuration::lemma_count_take_step(
                            self.spec_configuration().spec_authors(),
                            authors,
                            i as int,
                        );
                        crate::configuration::lemma_weight_le_total(
                            self.spec_configuration().spec_authors(),
                            author,
                        );
                        assert(authors[i as int] == author);
                    }
                    if weight <= u128::MAX - w as u128 {
                        weight = weight + w as u128;
                    } else {
                        weight = u128::MAX;
                    }
                    i = i + 1;
                }
                proof {
                    assert(authors.take(i as int) =~= authors);
                }
                let threshold = self.configuration.quorum_threshold();
                if weight < threshold as u128 {
                    proof {
                        assert(spec_count(self.spec_configuration().spec_authors(), authors)
                            < self.spec_quorum_threshold());
                    }
                    return Err(RecordError::BelowQuorumThreshold);
                }
                proof {
                    assert(spec_count(self.spec_configuration().spec_authors(), authors)
                        >= self.spec_quorum_threshold());
                }
                if context.verify(qc.value.author, hash, qc.signature).is_err() {
                    return Err(RecordError::InvalidSignature);
                }
                Ok(hash)
            },
            Record::Timeout(timeout) => {
                let bytes = timeout.value.to_bytes();
                let hash = context.hash(&bytes);
                if timeout.value.epoch_id.0 != self.epoch_id.0 {
                    return Err(RecordError::EpochMismatch);
                }
                if timeout.value.highest_certified_block_round.0
                    > self.highest_quorum_certificate_round.0 {
                    return Err(RecordError::UnknownCertifiedRound);
                }
                if timeout.value.round.0 != self.current_round.0 {
                    return Err(RecordError::NotCurrentRound);
                }
                if self.current_timeouts.contains_key(timeout.value.author.0 as u64) {
                    return Err(RecordError::DuplicateAuthor);
                }
                if context.verify(timeout.value.author, hash, timeout.signature).is_err() {
                    return Err(RecordError::InvalidSignature);
                }
                Ok(hash)
            },
        }
    }
}

/// Keys of the entry sequence are pairwise distinct.
pub open spec fn spec_unique_keys<V>(s: Seq<(u64, V)>) -> bool {
    forall|a: int, b: int| 0 <= a < b < s.len() ==> (#[trigger] s[a]).0 != (#[trigger] s[b]).0
}

/// A successful lookup is witnessed by an entry.
pub proof fn lemma_lookup_index<V>(s: Seq<(u64, V)>, k: u64)
    requires
        spec_lookup(s, k) is Some,
    ensures
        exists|i: int|
            0 <= i < s.len() && (#[trigger] s[i]).0 == k && s[i].1 == spec_lookup(s, k).unwrap(),
    decreases s.len(),
{
    if s.len() > 0 {
        if s[0].0 == k {
            assert(s[0].0 == k && s[0].1 == spec_lookup(s, k).unwrap());
        } else {
            lemma_lookup_index(s.skip(1), k);
            let i = choose|i: int|
                0 <= i < s.skip(1).len() && (#[trigger] s.skip(1)[i]).0 == k && s.skip(1)[i].1
                    == spec_lookup(s.skip(1), k).unwrap();
            assert(s[i + 1].0 == k && s[i + 1].1 == spec_lookup(s, k).unwrap());
        }
    }
}

/// The values of a sequence of keyed timeouts.
pub open spec fn spec_timeout_values(s: Seq<(u64, Timeout)>) -> Seq<Timeout> {
    s.map_values(|e: (u64, Timeout)| e.1)
}

impl RecordStoreState {
    /// Fields fixed at epoch creation are never changed by insertion.
    pub open spec fn spec_same_base(old: Self, new: Self) -> bool {
        &&& new.spec_epoch_id() == old.spec_epoch_id()
        &&& new.spec_configuration() == old.spec_configuration()
        &&& new.spec_initial_hash() == old.spec_initial_hash()
        &&& new.spec_initial_state() == old.spec_initial_state()
    }

    /// The tracked rounds never decrease.
    pub open spec fn spec_rounds_monotone(old: Self, new: Self) -> bool {
        &&& new.spec_current_round().0 >= old.spec_current_round().0
        &&& new.spec_highest_committed_round().0 >= old.spec_highest_committed_round().0
        &&& new.spec_highest_quorum_certificate_round().0
            >= old.spec_highest_quorum_certificate_round().0
        &&& new.spec_highest_timeout_certificate_round().0
            >= old.spec_highest_timeout_certificate_round().0
    }

    /// The per-round structures are empty, as right after a round advance.
    pub open spec fn spec_round_cleared(self) -> bool {
        &&& self.spec_current_proposed_block() is None
        &&& self.spec_current_timeouts().len() == 0
        &&& self.spec_current_votes().len() == 0
        &&& self.spec_current_timeouts_weight() == 0
        &&& self.spec_election_is_ongoing()
        &&& !self.spec_election_is_won()
        &&& !self.spec_election_is_closed()
    }

    /// Chains only depend on the stored blocks, certificates and the genesis
    /// hash.
    proof fn lemma_chain_frame(s1: Self, s2: Self, h: u64)
        requires
            s1.wf_chain(),
            s2.wf_chain(),
            s1.spec_blocks() == s2.spec_blocks(),
            s1.spec_qcs() == s2.spec_qcs(),
            s1.spec_initial_hash() == s2.spec_initial_hash(),
        ensures
            s1.spec_chain(h) == s2.spec_chain(h),
        decreases s1.spec_chain_metric(h),
    {
        if h == s1.spec_initial_hash().0 || !(s1.qc_at(h) is Some) {
        } else {
            let qc = s1.qc_at(h).unwrap();
            lemma_lookup_index(s1.spec_qcs(), h);
            let i = choose|i: int|
                0 <= i < s1.spec_qcs().len() && (#[trigger] s1.spec_qcs()[i]).0 == h
                    && s1.spec_qcs()[i].1 == qc;
            assert(s1.spec_qcs()[i].1 == qc);
            assert(s1.block_at(qc.value.certified_block_hash.0) is Some);
            let b = s1.block_at(qc.value.certified_block_hash.0).unwrap();
            lemma_lookup_index(s1.spec_blocks(), qc.value.certified_block_hash.0);
            let j = choose|j: int|
                0 <= j < s1.spec_blocks().len() && (#[trigger] s1.spec_blocks()[j]).0
                    == qc.value.certified_block_hash.0 && s1.spec_blocks()[j].1 == b;
            assert(s1.spec_blocks()[j].1 == b);
            let p = b.value.previous_quorum_certificate_hash.0;
            Self::lemma_chain_frame(s1, s2, p);
        }
    }

    /// Chains are stable when a block is added under a fresh key: every
    /// step of a walk in a well-formed store reads keys present before.
    proof fn lemma_chain_frame_block_push(s1: Self, s2: Self, k: u64, b: Block, h: u64)
        requires
            s1.wf_chain(),
            s2.wf_chain(),
            s2.spec_qcs() == s1.spec_qcs(),
            s2.spec_initial_hash() == s1.spec_initial_hash(),
            s2.spec_blocks() == s1.spec_blocks().push((k, b)),
            !spec_has_key(s1.spec_blocks(), k),
        ensures
            s1.spec_chain(h) == s2.spec_chain(h),
        decreases s1.spec_chain_metric(h),
    {
        if h == s1.spec_initial_hash().0 || !(s1.qc_at(h) is Some) {
            assert(s2.qc_at(h) == s1.qc_at(h));
            assert(s1.spec_chain(h) =~= Seq::<QuorumCertificate>::empty());
            assert(s2.spec_chain(h) =~= Seq::<QuorumCertificate>::empty());
        } else {
            let qc = s1.qc_at(h).unwrap();
            lemma_lookup_index(s1.spec_qcs(), h);
            let i = choose|i: int|
                0 <= i < s1.spec_qcs().len() && (#[trigger] s1.spec_qcs()[i]).0 == h
                    && s1.spec_qcs()[i].1 == qc;
            assert(s1.spec_qcs()[i].1 == qc);
            let cbh = qc.value.certified_block_hash.0;
            assert(s1.block_at(cbh) is Some);
            lemma_lookup_has_key(s1.spec_blocks(), cbh);
            assert(cbh != k);
            crate::keyed::lemma_lookup_push(s1.spec_blocks(), k, b, cbh);
            assert(s2.block_at(cbh) == s1.block_at(cbh));
            let bb = s1.block_at(cbh).unwrap();
            lemma_lookup_index(s1.spec_blocks(), cbh);
            let j = choose|j: int|
                0 <= j < s1.spec_blocks().len() && (#[trigger] s1.spec_blocks()[j]).0 == cbh
                    && s1.spec_blocks()[j].1 == bb;
            assert(s1.spec_blocks()[j].1 == bb);
            let p = bb.value.previous_quorum_certificate_hash.0;
            Self::lemma_chain_frame_block_push(s1, s2, k, b, p);
            assert(s1.spec_chain(h) == seq![qc] + s1.spec_chain(p));
            assert(s2.qc_at(h) == Some(qc));
            assert(s2.block_at(cbh) == Some(bb));
            assert(s2.spec_chain(h) == seq![qc] + s2.spec_chain(p));
        }
    }

    /// Chains are stable when a certificate is added under a fresh key: a
    /// walk in a well-formed store never reaches an absent key, so it never
    /// reaches the new one.
    proof fn lemma_chain_frame_qc_push(s1: Self, s2: Self, k: u64, q: QuorumCertificate, h: u64)
        requires
            s1.wf_chain(),
            s2.wf_chain(),
            s2.spec_blocks() == s1.spec_blocks(),
            s2.spec_initial_hash() == s1.spec_initial_hash(),
            s2.spec_qcs() == s1.spec_qcs().push((k, q)),
            !spec_has_key(s1.spec_qcs(), k),
            h == s1.spec_initial_hash().0 || spec_has_key(s1.spec_qcs(), h),
        ensures
            s1.spec_chain(h) == s2.spec_chain(h),
        decreases s1.spec_chain_metric(h),
    {
        if h == s1.spec_initial_hash().0 {
        } else {
            lemma_lookup_has_key(s1.spec_qcs(), h);
            assert(h != k);
            crate::keyed::lemma_lookup_push(s1.spec_qcs(), k, q, h);
            assert(s2.qc_at(h) == s1.qc_at(h));
            let qc = s1.qc_at(h).unwrap();
            lemma_lookup_index(s1.spec_qcs(), h);
            let i = choose|i: int|
                0 <= i < s1.spec_qcs().len() && (#[trigger] s1.spec_qcs()[i]).0 == h
                    && s1.spec_qcs()[i].1 == qc;
            assert(s1.spec_qcs()[i].1 == qc);
            let cbh = qc.value.certified_block_hash.0;
            assert(s1.block_at(cbh) is Some);
            let bb = s1.block_at(cbh).unwrap();
            lemma_lookup_index(s1.spec_blocks(), cbh);
            let j = choose|j: int|
                0 <= j < s1.spec_blocks().len() && (#[trigger] s1.spec_blocks()[j]).0 == cbh
                    && s1.spec_blocks()[j].1 == bb;
            assert(s1.spec_blocks()[j].1 == bb);
            let p = bb.value.previous_quorum_certificate_hash.0;
            // The parent hash of a stored block is the genesis hash or a
            // stored certificate.
            assert(p == s1.spec_initial_hash().0 || spec_has_key(s1.spec_qcs(), p)) by {
                if bb.value.previous_quorum_certificate_hash != s1.spec_initial_hash() {
                    lemma_lookup_has_key(s1.spec_qcs(), p);
                }
            }
            Self::lemma_chain_frame_qc_push(s1, s2, k, q, p);
            assert(s1.spec_chain(h) == seq![qc] + s1.spec_chain(p));
            assert(s2.qc_at(h) == Some(qc));
            assert(s2.block_at(cbh) == Some(bb));
            assert(s2.spec_chain(h) == seq![qc] + s2.spec_chain(p));
        }
    }

    /// The commit-rule state of a block is determined by the blocks, the
    /// certificates and the genesis hash.
    proof fn lemma_vcs_frame(s1: Self, s2: Self, bh: BlockHash)
        requires
            s1.wf_chain(),
            s2.wf_chain(),
            s2.spec_blocks() == s1.spec_blocks(),
            s2.spec_qcs() == s1.spec_qcs(),
            s2.spec_initial_hash() == s1.spec_initial_hash(),
        ensures
            s1.spec_vote_committed_state(bh) == s2.spec_vote_committed_state(bh),
    {
        match s1.block_at(bh.0) {
            Some(b) => {
                Self::lemma_chain_frame(s1, s2, b.value.previous_quorum_certificate_hash.0);
            },
            None => {},
        }
    }

    /// The commit clauses carry over when nothing but the per-round
    /// structures or derived round values changed.
    proof fn lemma_commit_clauses_frame(s0: Self, s1: Self)
        requires
            s0.wf_commit(),
            s0.wf_commit_certificate(),
            s0.wf_chain(),
            s1.wf_chain(),
            s1.spec_blocks() == s0.spec_blocks(),
            s1.spec_qcs() == s0.spec_qcs(),
            s1.spec_initial_hash() == s0.spec_initial_hash(),
            s1.spec_highest_commit_certificate_hash() == s0.spec_highest_commit_certificate_hash(),
            s1.spec_highest_committed_round() == s0.spec_highest_committed_round(),
        ensures
            s1.wf_commit(),
            s1.wf_commit_certificate(),
    {
        assert forall|i: int| 0 <= i < s1.spec_qcs().len() implies (
        #[trigger] s1.spec_qcs()[i]).1.value.committed_state == s1.spec_vote_committed_state(
            s1.spec_qcs()[i].1.value.certified_block_hash,
        ) by {
            assert(s0.spec_qcs()[i].1.value.committed_state == s0.spec_vote_committed_state(
                s0.spec_qcs()[i].1.value.certified_block_hash,
            ));
            Self::lemma_vcs_frame(s0, s1, s0.spec_qcs()[i].1.value.certified_block_hash);
        }
        match s0.spec_highest_commit_certificate_hash() {
            Some(h) => {
                Self::lemma_chain_frame(s0, s1, h.0);
            },
            None => {},
        }
    }

    /// The commit clauses carry over when a block was added under a fresh
    /// key.
    proof fn lemma_commit_clauses_block_push(s0: Self, s1: Self, k: u64, b: Block)
        requires
            s0.wf(),
            s1.wf_chain(),
            s1.spec_qcs() == s0.spec_qcs(),
            s1.spec_initial_hash() == s0.spec_initial_hash(),
            s1.spec_blocks() == s0.spec_blocks().push((k, b)),
            !spec_has_key(s0.spec_blocks(), k),
            s1.spec_highest_commit_certificate_hash() == s0.spec_highest_commit_certificate_hash(),
            s1.spec_highest_committed_round() == s0.spec_highest_committed_round(),
        ensures
            s1.wf_commit(),
            s1.wf_commit_certificate(),
    {
        assert forall|i: int| 0 <= i < s1.spec_qcs().len() implies (
        #[trigger] s1.spec_qcs()[i]).1.value.committed_state == s1.spec_vote_committed_state(
            s1.spec_qcs()[i].1.value.certified_block_hash,
        ) by {
            let qc = s0.spec_qcs()[i].1;
            assert(qc.value.committed_state == s0.spec_vote_committed_state(
                qc.value.certified_block_hash,
            ));
            let cbh = qc.value.certified_block_hash.0;
            assert(s0.block_at(cbh) is Some);
            lemma_lookup_has_key(s0.spec_blocks(), cbh);
            assert(cbh != k);
            crate::keyed::lemma_lookup_push(s0.spec_blocks(), k, b, cbh);
            assert(s1.block_at(cbh) == s0.block_at(cbh));
            let bb = s0.block_at(cbh).unwrap();
            Self::lemma_chain_frame_block_push(
                s0,
                s1,
                k,
                b,
                bb.value.previous_quorum_certificate_hash.0,
            );
        }
        match s0.spec_highest_commit_certificate_hash() {
            Some(h) => {
                Self::lemma_chain_frame_block_push(s0, s1, k, b, h.0);
            },
            None => {},
        }
    }

    /// The commit clauses carry over when a certificate whose
    /// committed-state field follows the commit rule was added under a
    /// fresh key.
    proof fn lemma_commit_clauses_qc_push(s0: Self, s1: Self, k: u64, q: QuorumCertificate)
        requires
            s0.wf(),
            s1.wf_chain(),
            s1.spec_blocks() == s0.spec_blocks(),
            s1.spec_initial_hash() == s0.spec_initial_hash(),
            s1.spec_qcs() == s0.spec_qcs().push((k, q)),
            !spec_has_key(s0.spec_qcs(), k),
            q.value.committed_state == s0.spec_vote_committed_state(q.value.certified_block_hash),
            s0.block_at(q.value.certified_block_hash.0) is Some,
            s1.spec_highest_commit_certificate_hash() == s0.spec_highest_commit_certificate_hash(),
            s1.spec_highest_committed_round() == s0.spec_highest_committed_round(),
        ensures
            s1.wf_commit(),
            s1.wf_commit_certificate(),
    {
        assert forall|i: int| 0 <= i < s1.spec_qcs().len() implies (
        #[trigger] s1.spec_qcs()[i]).1.value.committed_state == s1.spec_vote_committed_state(
            s1.spec_qcs()[i].1.value.certified_block_hash,
        ) by {
            let qc = s1.spec_qcs()[i].1;
            let cbh = qc.value.certified_block_hash.0;
            if i < s0.spec_qcs().len() {
                assert(s1.spec_qcs()[i] == s0.spec_qcs()[i]);
                assert(qc.value.committed_state == s0.spec_vote_committed_state(
                    qc.value.certified_block_hash,
                ));
                assert(s0.block_at(cbh) is Some);
            } else {
                assert(s1.spec_qcs()[i] == (k, q));
            }
            let bb = s0.block_at(cbh).unwrap();
            lemma_lookup_index(s0.spec_blocks(), cbh);
            let j = choose|j: int|
                0 <= j < s0.spec_blocks().len() && (#[trigger] s0.spec_blocks()[j]).0 == cbh
                    && s0.spec_blocks()[j].1 == bb;
            assert(s0.spec_blocks()[j].1 == bb);
            let p = bb.value.previous_quorum_certificate_hash.0;
            assert(p == s0.spec_initial_hash().0 || spec_has_key(s0.spec_qcs(), p)) by {
                if bb.value.previous_quorum_certificate_hash != s0.spec_initial_hash() {
                    lemma_lookup_has_key(s0.spec_qcs(), p);
                }
            }
            Self::lemma_chain_frame_qc_push(s0, s1, k, q, p);
        }
        match s0.spec_highest_commit_certificate_hash() {
            Some(h) => {
                assert(s0.qc_at(h.0) is Some);
                lemma_lookup_has_key(s0.spec_qcs(), h.0);
                Self::lemma_chain_frame_qc_push(s0, s1, k, q, h.0);
            },
            None => {},
        }
    }

    /// Raise the current round, clearing the per-round structures when it
    /// actually advances.
    fn update_current_round(&mut self, round: Round)
        requires
            old(self).wf(),
        ensures
            final(self).wf(),
            Self::spec_same_base(*old(self), *final(self)),
            final(self).spec_blocks() == old(self).spec_blocks(),
            final(self).spec_qcs() == old(self).spec_qcs(),
            final(self).spec_highest_quorum_certificate_round() == old(self).spec_highest_quorum_certificate_round(),
            final(self).spec_highest_quorum_certificate_hash() == old(self).spec_highest_quorum_certificate_hash(),
            final(self).spec_highest_timeout_certificate_round() == old(self).spec_highest_timeout_certificate_round(),
            final(self).spec_highest_committed_round() == old(self).spec_highest_committed_round(),
            final(self).spec_highest_commit_certificate_hash() == old(self).spec_highest_commit_certificate_hash(),
            final(self).spec_highest_timeout_certificate() == old(self).spec_highest_timeout_certificate(),
            round.0 <= old(self).spec_current_round().0 ==> *final(self) == *old(self),
            round.0 > old(self).spec_current_round().0 ==> final(self).spec_current_round()
                == round && final(self).spec_round_cleared(),
    {
        if round.0 <= self.current_round.0 {
            return ;
        }
        self.current_round = round;
        self.current_proposed_block = None;
        self.current_timeouts = KeyedVec::new();
        self.current_votes = KeyedVec::new();
        self.current_timeouts_weight = 0;
        self.current_election = ElectionState::Ongoing { ballot: Vec::new() };
        proof {
            assert(spec_timeout_authors(final(self).spec_current_timeouts()) =~= Seq::<
                Author,
            >::empty());
            assert(spec_count(
                final(self).spec_configuration().spec_authors(),
                Seq::<Author>::empty(),
            ) == 0);
            Self::lemma_commit_clauses_frame(*old(self), *self);
        }
    }

    /// Record a commit when the chain from `qc_hash` closes three
    /// consecutive rounds above the highest known commit.
    fn update_commit_3chain_round(&mut self, qc_hash: QuorumCertificateHash)
        requires
            old(self).wf(),
            old(self).spec_round_of(qc_hash.0)
                <= old(self).spec_highest_quorum_certificate_round().0,
        ensures
            final(self).wf(),
            Self::spec_same_base(*old(self), *final(self)),
            final(self).spec_blocks() == old(self).spec_blocks(),
            final(self).spec_qcs() == old(self).spec_qcs(),
            final(self).spec_current_proposed_block() == old(self).spec_current_proposed_block(),
            final(self).spec_highest_quorum_certificate_round() == old(self).spec_highest_quorum_certificate_round(),
            final(self).spec_highest_quorum_certificate_hash() == old(self).spec_highest_quorum_certificate_hash(),
            final(self).spec_highest_timeout_certificate_round() == old(self).spec_highest_timeout_certificate_round(),
            final(self).spec_current_round() == old(self).spec_current_round(),
            final(self).spec_highest_timeout_certificate() == old(self).spec_highest_timeout_certificate(),
            final(self).spec_current_timeouts() == old(self).spec_current_timeouts(),
            final(self).spec_current_votes() == old(self).spec_current_votes(),
            final(self).spec_current_timeouts_weight() == old(self).spec_current_timeouts_weight(),
            final(self).spec_election_is_ongoing() == old(self).spec_election_is_ongoing(),
            final(self).spec_election_is_won() == old(self).spec_election_is_won(),
            final(self).spec_election_is_closed() == old(self).spec_election_is_closed(),
            final(self).spec_election_winner() == old(self).spec_election_winner(),
            ({
                let c = old(self).spec_chain(qc_hash.0);
                if c.len() >= 3 && c[0].value.round.0 == c[1].value.round.0 + 1
                    && c[1].value.round.0 == c[2].value.round.0 + 1 && c[2].value.round.0 > old(self).spec_highest_committed_round().0 {
                    final(self).spec_highest_committed_round() == c[2].value.round && final(self).spec_highest_commit_certificate_hash() == Some(qc_hash)
                } else {
                    final(self).spec_highest_committed_round() == old(self).spec_highest_committed_round() && final(self).spec_highest_commit_certificate_hash() == old(self).spec_highest_commit_certificate_hash()
                }
            }),
    {
        let ghost c = self.spec_chain(qc_hash.0);
        let (r3, h2) = match self.chain_step(qc_hash.0) {
            None => {
                return ;
            },
            Some((qc3, h2)) => {
                proof {
                    assert(self.qc_at(qc_hash.0) == Some(*qc3));
                    assert(self.spec_round_of(qc_hash.0) == qc3.value.round.0 as nat);
                }
                (qc3.value.round, h2)
            },
        };
        let (r2, h1) = match self.chain_step(h2) {
            None => {
                proof {
                    assert(c.len() < 2);
                }
                return ;
            },
            Some((qc2, h1)) => (qc2.value.round, h1),
        };
        let r1 = match self.chain_step(h1) {
            None => {
                proof {
                    assert(self.spec_chain(h2) =~= c.skip(1));
                    assert(self.spec_chain(h1) =~= c.skip(1).skip(1));
                    assert(c.skip(1).skip(1) =~= c.skip(2));
                    assert(c.len() < 3);
                }
                return ;
            },
            Some((qc1, _)) => qc1.value.round,
        };
        proof {
            assert(self.spec_chain(h2) =~= c.skip(1));
            assert(self.spec_chain(h1) =~= c.skip(1).skip(1));
            assert(c.skip(1).skip(1) =~= c.skip(2));
            assert(c.len() >= 3);
            assert(c[1] == c.skip(1)[0]);
            assert(c[2] == c.skip(2)[0]);
        }
        if r3.0 >= 1 && r3.0 - 1 == r2.0 && r2.0 >= 1 && r2.0 - 1 == r1.0 {
            if r1.0 > self.highest_committed_round.0 {
                proof {
                    assert(r3.0 <= self.spec_highest_quorum_certificate_round().0);
                    assert(r1.0 + 2 <= self.spec_highest_quorum_certificate_round().0);
                }
                let ghost s0 = *self;
                self.highest_committed_round = r1;
                self.highest_commit_certificate_hash = Some(qc_hash);
                proof {
                    let s1 = *self;
                    // The committed-state fields are untouched.
                    assert(s1.wf_commit()) by {
                        assert forall|i: int| 0 <= i < s1.spec_qcs().len() implies (
                        #[trigger] s1.spec_qcs()[i]).1.value.committed_state
                            == s1.spec_vote_committed_state(
                            s1.spec_qcs()[i].1.value.certified_block_hash,
                        ) by {
                            assert(s0.spec_qcs()[i].1.value.committed_state
                                == s0.spec_vote_committed_state(
                                s0.spec_qcs()[i].1.value.certified_block_hash,
                            ));
                            Self::lemma_vcs_frame(
                                s0,
                                s1,
                                s0.spec_qcs()[i].1.value.certified_block_hash,
                            );
                        }
                    }
                    // The new commit certificate closes three consecutive
                    // rounds down to the new highest committed round.
                    assert(s1.wf_commit_certificate()) by {
                        Self::lemma_chain_frame(s0, s1, qc_hash.0);
                        assert(s1.spec_chain(qc_hash.0) == c);
                        assert(c[0].value.round == r3);
                        assert(c[1].value.round == r2);
                        assert(c[2].value.round == r1);
                    }
                }
            }
        }
    }

    /// The timeouts retained at the current round, in insertion order.
    fn collect_current_timeouts(&self) -> (r: Vec<Timeout>)
        ensures
            r@ == spec_timeout_values(self.spec_current_timeouts()),
    {
        let mut result: Vec<Timeout> = Vec::new();
        let n = self.current_timeouts.len();
        let mut i: usize = 0;
        while i < n
            invariant
                i <= n,
                n == self.spec_current_timeouts().len(),
                result@ == spec_timeout_values(self.spec_current_timeouts().take(i as int)),
            decreases n - i,
        {
            let entry = self.current_timeouts.entry_at(i);
            result.push(entry.1);
            proof {
                assert(self.spec_current_timeouts().take(i + 1) =~= self.spec_current_timeouts()
                    .take(i as int).push(self.spec_current_timeouts()[i as int]));
                assert(result@ =~= spec_timeout_values(
                    self.spec_current_timeouts().take(i + 1),
                ));
            }
            i = i + 1;
        }
        proof {
            assert(self.spec_current_timeouts().take(i as int) =~= self.spec_current_timeouts());
        }
        result
    }
}

impl RecordStoreState {
    /// What receiving a vote leaves unchanged.
    pub open spec fn spec_vote_frame(old: Self, new: Self) -> bool {
        &&& Self::spec_same_base(old, new)
        &&& new.spec_blocks() == old.spec_blocks()
        &&& new.spec_qcs() == old.spec_qcs()
        &&& new.spec_current_proposed_block() == old.spec_current_proposed_block()
        &&& new.spec_highest_quorum_certificate_round()
            == old.spec_highest_quorum_certificate_round()
        &&& new.spec_highest_quorum_certificate_hash()
            == old.spec_highest_quorum_certificate_hash()
        &&& new.spec_highest_timeout_certificate_round()
            == old.spec_highest_timeout_certificate_round()
        &&& new.spec_current_round() == old.spec_current_round()
        &&& new.spec_highest_committed_round() == old.spec_highest_committed_round()
        &&& new.spec_highest_commit_certificate_hash()
            == old.spec_highest_commit_certificate_hash()
        &&& new.spec_highest_timeout_certificate() == old.spec_highest_timeout_certificate()
        &&& new.spec_current_timeouts() == old.spec_current_timeouts()
        &&& new.spec_current_timeouts_weight() == old.spec_current_timeouts_weight()
    }

    /// How the election answers to one more vote.
    pub open spec fn spec_election_step(old: Self, new: Self, vote: Vote) -> bool {
        if old.spec_election_is_ongoing() {
            if spec_tally(
                old.spec_configuration().spec_authors(),
                new.spec_current_votes(),
                vote.value.certified_block_hash,
                vote.value.state,
            ) >= old.spec_quorum_threshold() {
                new.spec_election_is_won() && new.spec_election_winner() == (
                    vote.value.certified_block_hash,
                    vote.value.state,
                )
            } else {
                new.spec_election_is_ongoing()
            }
        } else {
            &&& new.spec_election_is_won() == old.spec_election_is_won()
            &&& new.spec_election_is_closed() == old.spec_election_is_closed()
            &&& new.spec_election_winner() == old.spec_election_winner()
        }
    }

    /// Retain a verified vote at the current round, count its weight toward
    /// its `(block, state)` pair, and settle the election when the pair
    /// reaches the quorum threshold.
    fn record_vote(&mut self, vote: Vote)
        requires
            old(self).wf(),
            !spec_has_key(old(self).spec_current_votes(), vote.value.author.0 as u64),
            vote.value.round == old(self).spec_current_round(),
            vote.value.epoch_id == old(self).spec_epoch_id(),
        ensures
            final(self).wf(),
            final(self).spec_current_votes() == old(self).spec_current_votes().push(
                ((vote.value.author.0 as u64), vote),
            ),
            Self::spec_vote_frame(*old(self), *final(self)),
            Self::spec_election_step(*old(self), *final(self), vote),
    {
        let ghost old_votes = self.spec_current_votes();
        let ghost cfg = self.spec_configuration().spec_authors();
        proof {
            crate::keyed::lemma_lookup_has_key(old_votes, vote.value.author.0 as u64);
        }
        self.current_votes.insert_new(vote.value.author.0 as u64, vote);
        let ghost new_votes = self.spec_current_votes();
        let cbh = vote.value.certified_block_hash;
        let st = vote.value.state;
        proof {
            // The tally of every pair after the insertion.
            assert forall|h: BlockHash, s2: State| true implies #[trigger] spec_tally(
                cfg,
                new_votes,
                h,
                s2,
            ) == spec_tally(cfg, old_votes, h, s2) + (if h == cbh && s2 == st {
                spec_weight(cfg, vote.value.author)
            } else {
                0
            }) by {
                lemma_tally_snoc(cfg, old_votes, ((vote.value.author.0 as u64), vote), h, s2);
            }
            // The new tally stays within the total weight.
            lemma_tally_le_count(cfg, new_votes, cbh, st);
            lemma_vote_authors_distinct(new_votes);
            lemma_count_distinct_le_total(cfg, spec_vote_authors(new_votes));
        }
        let w = self.configuration.weight(&vote.value.author);
        let threshold = self.configuration.quorum_threshold();
        proof {
            lemma_tally_le_count(cfg, new_votes, cbh, st);
            assert(forall|i: int|
                0 <= i < new_votes.len() ==> (#[trigger] new_votes[i]).0
                    == new_votes[i].1.value.author.0 as u64);
            lemma_vote_authors_distinct(new_votes);
            lemma_count_distinct_le_total(cfg, spec_vote_authors(new_votes));
            assert(spec_total(cfg) == self.spec_configuration().spec_total_votes());
            crate::configuration::lemma_total_votes_bound(self.spec_configuration());
            assert(spec_tally(cfg, new_votes, cbh, st) <= usize::MAX);
        }
        let won: Option<(BlockHash, State)>;
        match &mut self.current_election {
            ElectionState::Ongoing { ballot } => {
                let ghost old_ballot = ballot@;
                let mut new_ballot: Vec<(BlockHash, State, usize)> = Vec::new();
                let mut found: bool = false;
                let mut new_tally: usize = w;
                let n = ballot.len();
                let mut i: usize = 0;
                while i < n
                    invariant
                        i <= n,
                        n == old_ballot.len(),
                        ballot@ == old_ballot,
                        new_ballot@.len() == i,
                        found == (exists|k: int|
                            0 <= k < i && ((#[trigger] old_ballot[k]).0, old_ballot[k].1) == (
                            cbh,
                            st,
                            )),
                        forall|k: int|
                            0 <= k < i ==> #[trigger] new_ballot@[k] == (
                            if (old_ballot[k].0, old_ballot[k].1) == (cbh, st) {
                                (old_ballot[k].0, old_ballot[k].1, new_tally)
                            } else {
                                old_ballot[k]
                            }),
                        !found ==> new_tally == w,
                        found ==> new_tally == spec_tally(cfg, new_votes, cbh, st),
                        w == spec_weight(cfg, vote.value.author),
                        spec_tally(cfg, new_votes, cbh, st) <= usize::MAX,
                        spec_tally(cfg, new_votes, cbh, st) == spec_tally(cfg, old_votes, cbh, st)
                            + w,
                        forall|a: int, b: int|
                            0 <= a < b < old_ballot.len() ==> ((#[trigger] old_ballot[a]).0,
                            old_ballot[a].1) != ((#[trigger] old_ballot[b]).0, old_ballot[b].1),
                        forall|k: int|
                            0 <= k < old_ballot.len() ==> (#[trigger] old_ballot[k]).2
                                == spec_tally(cfg, old_votes, old_ballot[k].0, old_ballot[k].1),
                    decreases n - i,
                {
                    let entry = ballot[i];
                    if entry.0 .0 == cbh.0 && entry.1 .0 == st.0 {
                        proof {
                            assert(entry.0 == BlockHash(entry.0 .0));
                            assert(cbh == BlockHash(cbh.0));
                            assert(entry.1 == State(entry.1 .0));
                            assert(st == State(st.0));
                            assert((old_ballot[i as int].0, old_ballot[i as int].1) == (cbh, st));
                            if found {
                                let k = choose|k: int|
                                    0 <= k < i && ((#[trigger] old_ballot[k]).0, old_ballot[k].1)
                                        == (cbh, st);
                                assert(false);
                            }
                            assert(old_ballot[i as int].2 == spec_tally(cfg, old_votes, cbh, st));
                        }
                        new_tally = entry.2 + w;
                        new_ballot.push((entry.0, entry.1, new_tally));
                        found = true;
                    } else {
                        proof {
                            if (old_ballot[i as int].0, old_ballot[i as int].1) == (cbh, st) {
                                assert(entry.0 .0 == cbh.0 && entry.1 .0 == st.0);
                            }
                        }
                        new_ballot.push(entry);
                    }
                    i = i + 1;
                }
                if !found {
                    proof {
                        // No retained vote matched the pair before this one:
                        // every earlier vote's pair has a ballot entry, and
                        // no entry carries this pair.
                        assert forall|j: int| 0 <= j < old_votes.len() implies !((
                        #[trigger] old_votes[j]).1.value.certified_block_hash == cbh
                            && old_votes[j].1.value.state == st) by {
                            if old_votes[j].1.value.certified_block_hash == cbh
                                && old_votes[j].1.value.state == st {
                                let k = choose|k: int|
                                    0 <= k < old_ballot.len() && (#[trigger] old_ballot[k]).0
                                        == old_votes[j].1.value.certified_block_hash
                                        && old_ballot[k].1 == old_votes[j].1.value.state;
                                assert((old_ballot[k].0, old_ballot[k].1) == (cbh, st));
                            }
                        }
                        Self::lemma_tally_zero(cfg, old_votes, cbh, st);
                        assert(new_tally == spec_tally(cfg, new_votes, cbh, st));
                    }
                    new_ballot.push((cbh, st, new_tally));
                }
                proof {
                    // The rebuilt ballot keeps the recorded pairs distinct,
                    // ties every entry to the new tallies, and covers every
                    // retained vote.
                    let nb = new_ballot@;
                    assert(new_tally == spec_tally(cfg, new_votes, cbh, st));
                    assert forall|k: int| 0 <= k < nb.len() implies (#[trigger] nb[k]).2
                        == spec_tally(cfg, new_votes, nb[k].0, nb[k].1) by {
                        if k < n {
                            if (old_ballot[k].0, old_ballot[k].1) == (cbh, st) {
                                assert(nb[k] == (old_ballot[k].0, old_ballot[k].1, new_tally));
                            } else {
                                assert(nb[k] == old_ballot[k]);
                                assert(spec_tally(cfg, new_votes, nb[k].0, nb[k].1) == spec_tally(
                                    cfg,
                                    old_votes,
                                    nb[k].0,
                                    nb[k].1,
                                ));
                            }
                        } else {
                            assert(nb[k] == (cbh, st, new_tally));
                        }
                    }
                    assert forall|a: int, b: int| 0 <= a < b < nb.len() implies ((
                    #[trigger] nb[a]).0, nb[a].1) != ((#[trigger] nb[b]).0, nb[b].1) by {
                        if b < n {
                            assert((nb[a].0, nb[a].1) == (old_ballot[a].0, old_ballot[a].1));
                            assert((nb[b].0, nb[b].1) == (old_ballot[b].0, old_ballot[b].1));
                        } else if b == n {
                            assert((nb[b].0, nb[b].1) == (cbh, st));
                            assert((nb[a].0, nb[a].1) == (old_ballot[a].0, old_ballot[a].1));
                            assert(!found);
                            if (old_ballot[a].0, old_ballot[a].1) == (cbh, st) {
                                assert(false);
                            }
                        }
                    }
                    assert forall|j: int| 0 <= j < new_votes.len() implies exists|k: int|
                        0 <= k < nb.len() && (#[trigger] nb[k]).0 == (
                        #[trigger] new_votes[j]).1.value.certified_block_hash && nb[k].1
                        == new_votes[j].1.value.state by {
                        assert(Self::spec_ballot_ok(cfg, old_votes, old_ballot));
                        if j < old_votes.len() {
                            assert(new_votes[j] == old_votes[j]);
                            let k = choose|k: int|
                                0 <= k < old_ballot.len() && (#[trigger] old_ballot[k]).0
                                    == old_votes[j].1.value.certified_block_hash && old_ballot[k].1
                                    == old_votes[j].1.value.state;
                            assert((nb[k].0, nb[k].1) == (old_ballot[k].0, old_ballot[k].1));
                            assert(nb[k].0 == new_votes[j].1.value.certified_block_hash
                                && nb[k].1 == new_votes[j].1.value.state);
                        } else {
                            assert(new_votes[j] == ((vote.value.author.0 as u64), vote));
                            if found {
                                let k = choose|k: int|
                                    0 <= k < n && ((#[trigger] old_ballot[k]).0, old_ballot[k].1)
                                        == (cbh, st);
                                assert(nb[k] == (old_ballot[k].0, old_ballot[k].1, new_tally));
                                assert(nb[k].0 == cbh && nb[k].1 == st);
                            } else {
                                assert(nb[n as int] == (cbh, st, new_tally));
                            }
                        }
                    }
                }
                proof {
                    assert(Self::spec_ballot_ok(cfg, new_votes, new_ballot@));
                }
                *ballot = new_ballot;
                won = if new_tally >= threshold {
                    Some((cbh, st))
                } else {
                    None
                };
            },
            _ => {
                won = None;
            },
        }
        if let Some((bh, s2)) = won {
            self.current_election = ElectionState::Won { block_hash: bh, state: s2 };
        }
        proof {
            Self::lemma_commit_clauses_frame(*old(self), *self);
        }
    }

    /// What receiving a timeout leaves unchanged in any case.
    pub open spec fn spec_timeout_frame(old: Self, new: Self) -> bool {
        &&& Self::spec_same_base(old, new)
        &&& new.spec_blocks() == old.spec_blocks()
        &&& new.spec_qcs() == old.spec_qcs()
        &&& new.spec_highest_quorum_certificate_round()
            == old.spec_highest_quorum_certificate_round()
        &&& new.spec_highest_quorum_certificate_hash()
            == old.spec_highest_quorum_certificate_hash()
        &&& new.spec_highest_committed_round() == old.spec_highest_committed_round()
        &&& new.spec_highest_commit_certificate_hash()
            == old.spec_highest_commit_certificate_hash()
    }

    /// Retain a verified timeout at the current round; when the combined
    /// timeout weight reaches the quorum threshold, materialize the timeout
    /// certificate and advance the round.
    fn record_timeout(&mut self, timeout: Timeout)
        requires
            old(self).wf(),
            !spec_has_key(old(self).spec_current_timeouts(), timeout.value.author.0 as u64),
            timeout.value.round == old(self).spec_current_round(),
            timeout.value.epoch_id == old(self).spec_epoch_id(),
        ensures
            final(self).wf(),
            Self::spec_timeout_frame(*old(self), *final(self)),
            ({
                let pushed = old(self).spec_current_timeouts().push(
                    ((timeout.value.author.0 as u64), timeout),
                );
                let new_weight = old(self).spec_current_timeouts_weight() + spec_weight(
                    old(self).spec_configuration().spec_authors(),
                    timeout.value.author,
                );
                if new_weight >= old(self).spec_quorum_threshold() {
                    &&& final(self).spec_highest_timeout_certificate() == Some(
                        spec_timeout_values(pushed),
                    )
                    &&& final(self).spec_highest_timeout_certificate_round() == old(self).spec_current_round()
                    &&& (old(self).spec_current_round().0 < usize::MAX ==> final(self).spec_current_round().0 == old(self).spec_current_round().0 + 1 && final(self).spec_round_cleared())
                    &&& (old(self).spec_current_round().0 == usize::MAX ==> final(self).spec_current_round() == old(self).spec_current_round() && final(self).spec_current_timeouts() == pushed && final(self).spec_current_timeouts_weight()
                        == new_weight && final(self).spec_current_votes() == old(self).spec_current_votes()
                        && Self::spec_same_election(*old(self), *final(self)))
                } else {
                    &&& final(self).spec_current_timeouts() == pushed
                    &&& final(self).spec_current_timeouts_weight() == new_weight
                    &&& final(self).spec_current_round() == old(self).spec_current_round()
                    &&& final(self).spec_current_votes() == old(self).spec_current_votes()
                    &&& final(self).spec_current_proposed_block() == old(self).spec_current_proposed_block()
                    &&& final(self).spec_highest_timeout_certificate_round() == old(self).spec_highest_timeout_certificate_round()
                    &&& final(self).spec_highest_timeout_certificate() == old(self).spec_highest_timeout_certificate()
                    &&& final(self).spec_election_is_ongoing() == old(self).spec_election_is_ongoing()
                    &&& final(self).spec_election_is_won() == old(self).spec_election_is_won()
                    &&& final(self).spec_election_is_closed() == old(self).spec_election_is_closed()
                    &&& final(self).spec_election_winner() == old(self).spec_election_winner()
                }
            }),
    {
        let ghost old_timeouts = self.spec_current_timeouts();
        let ghost cfg = self.spec_configuration().spec_authors();
        proof {
            crate::keyed::lemma_lookup_has_key(old_timeouts, timeout.value.author.0 as u64);
        }
        let w = self.configuration.weight(&timeout.value.author);
        self.current_timeouts.insert_new(timeout.value.author.0 as u64, timeout);
        proof {
            lemma_timeout_authors_snoc(old_timeouts, ((timeout.value.author.0 as u64), timeout));
            lemma_count_snoc(cfg, spec_timeout_authors(old_timeouts), timeout.value.author);
            assert(forall|i: int|
                0 <= i < self.spec_current_timeouts().len() ==> (
                #[trigger] self.spec_current_timeouts()[i]).0
                    == self.spec_current_timeouts()[i].1.value.author.0 as u64);
            lemma_timeout_authors_distinct(self.spec_current_timeouts());
            lemma_count_distinct_le_total(cfg, spec_timeout_authors(self.spec_current_timeouts()));
            assert(spec_total(cfg) == self.spec_configuration().spec_total_votes());
            crate::configuration::lemma_total_votes_bound(self.spec_configuration());
            assert(self.spec_current_timeouts_weight() + w <= usize::MAX);
        }
        self.current_timeouts_weight = self.current_timeouts_weight + w;
        let threshold = self.configuration.quorum_threshold();
        if self.current_timeouts_weight >= threshold {
            let timeout_certificate = self.collect_current_timeouts();
            self.highest_timeout_certificate = Some(timeout_certificate);
            self.highest_timeout_certificate_round = self.current_round;
            proof {
                Self::lemma_commit_clauses_frame(*old(self), *self);
            }
            let succ = if self.current_round.0 < usize::MAX {
                Round(self.current_round.0 + 1)
            } else {
                self.current_round
            };
            self.update_current_round(succ);
        } else {
            proof {
                Self::lemma_commit_clauses_frame(*old(self), *self);
            }
        }
    }

    /// The effect of storing a verified block: the block is added under its
    /// digest, and it becomes the proposed block of the current round when
    /// it belongs to that round and its author is the round's leader.
    pub open spec fn spec_insert_block_effect<C: SmrContext>(old: Self, new: Self, b: Block) -> bool {
        let h = C::hash_spec(crate::record::spec_block_bytes(b.value));
        &&& new.spec_blocks() == old.spec_blocks().push((h, b))
        &&& new.spec_qcs() == old.spec_qcs()
        &&& new.spec_current_proposed_block() == (if b.value.round == old.spec_current_round()
            && b.value.author == spec_leader(old.spec_configuration(), b.value.round) {
            Some(BlockHash(h))
        } else {
            old.spec_current_proposed_block()
        })
        &&& new.spec_highest_quorum_certificate_round()
            == old.spec_highest_quorum_certificate_round()
        &&& new.spec_highest_quorum_certificate_hash()
            == old.spec_highest_quorum_certificate_hash()
        &&& new.spec_highest_timeout_certificate_round()
            == old.spec_highest_timeout_certificate_round()
        &&& new.spec_current_round() == old.spec_current_round()
        &&& new.spec_highest_committed_round() == old.spec_highest_committed_round()
        &&& new.spec_highest_commit_certificate_hash()
            == old.spec_highest_commit_certificate_hash()
        &&& new.spec_highest_timeout_certificate() == old.spec_highest_timeout_certificate()
        &&& new.spec_current_timeouts() == old.spec_current_timeouts()
        &&& new.spec_current_votes() == old.spec_current_votes()
        &&& new.spec_current_timeouts_weight() == old.spec_current_timeouts_weight()
        &&& new.spec_election_is_ongoing() == old.spec_election_is_ongoing()
        &&& new.spec_election_is_won() == old.spec_election_is_won()
        &&& new.spec_election_is_closed() == old.spec_election_is_closed()
        &&& new.spec_election_winner() == old.spec_election_winner()
    }

    /// The effect of storing a verified vote: the vote is retained under its
    /// author and counted toward its pair.
    pub open spec fn spec_insert_vote_effect(old: Self, new: Self, v: Vote) -> bool {
        &&& new.spec_current_votes() == old.spec_current_votes().push(
            ((v.value.author.0 as u64), v),
        )
        &&& Self::spec_vote_frame(old, new)
        &&& Self::spec_election_step(old, new, v)
    }

    /// A block that passes verification keeps doing so after a quorum
    /// certificate is stored: the blocks are untouched, and the parent
    /// certificate is still found under its hash.
    pub proof fn lemma_block_verifies_after_qc<C: SmrContext>(
        s1: Self,
        s2: Self,
        q: QuorumCertificate,
        b: Block,
    )
        requires
            s1.spec_block_verifies::<C>(b),
            s2.spec_initial_hash() == s1.spec_initial_hash(),
            s2 == s1 || (s1.spec_qc_verifies::<C>(q) && Self::spec_insert_qc_effect::<C>(
                s1,
                s2,
                q,
            )),
        ensures
            s2.spec_block_verifies::<C>(b),
    {
        if s2 != s1 {
            let k = C::hash_spec(crate::record::spec_qc_bytes(q.value));
            let prev = b.value.previous_quorum_certificate_hash;
            assert(s2.spec_blocks() == s1.spec_blocks());
            assert(s2.spec_qcs() == s1.spec_qcs().push((k, q)));
            if prev != s1.spec_initial_hash() {
                assert(spec_has_key(s1.spec_qcs(), prev.0));
                assert(prev.0 != k);
                crate::keyed::lemma_lookup_push(s1.spec_qcs(), k, q, prev.0);
                assert(s2.qc_at(prev.0) == s1.qc_at(prev.0));
                let i = choose|i: int|
                    0 <= i < s1.spec_qcs().len() && (#[trigger] s1.spec_qcs()[i]).0 == prev.0;
                assert(s2.spec_qcs()[i] == s1.spec_qcs()[i]);
                assert(spec_has_key(s2.spec_qcs(), prev.0));
            }
        }
    }

    /// An election is in exactly one of its three states.
    pub proof fn lemma_election_exclusive(self)
        ensures
            self.spec_election_is_ongoing() ==> !self.spec_election_is_won()
                && !self.spec_election_is_closed(),
            self.spec_election_is_won() ==> !self.spec_election_is_ongoing()
                && !self.spec_election_is_closed(),
            self.spec_election_is_closed() ==> !self.spec_election_is_ongoing()
                && !self.spec_election_is_won(),
    {
    }

    /// The elections of two stores are in the same state.
    pub open spec fn spec_same_election(old: Self, new: Self) -> bool {
        &&& new.spec_election_is_ongoing() == old.spec_election_is_ongoing()
        &&& new.spec_election_is_won() == old.spec_election_is_won()
        &&& new.spec_election_is_closed() == old.spec_election_is_closed()
        &&& new.spec_election_winner() == old.spec_election_winner()
    }

    /// The effect of storing a verified timeout: the timeout is retained and
    /// weighed; a quorum of timeouts materializes the timeout certificate
    /// and advances the round.
    pub open spec fn spec_insert_timeout_effect(old: Self, new: Self, t: Timeout) -> bool {
        let pushed = old.spec_current_timeouts().push(((t.value.author.0 as u64), t));
        let new_weight = old.spec_current_timeouts_weight() + spec_weight(
            old.spec_configuration().spec_authors(),
            t.value.author,
        );
        &&& Self::spec_timeout_frame(old, new)
        &&& if new_weight >= old.spec_quorum_threshold() {
            &&& new.spec_highest_timeout_certificate() == Some(spec_timeout_values(pushed))
            &&& new.spec_highest_timeout_certificate_round() == old.spec_current_round()
            &&& (old.spec_current_round().0 < usize::MAX ==> new.spec_current_round().0
                == old.spec_current_round().0 + 1 && new.spec_round_cleared())
            &&& (old.spec_current_round().0 == usize::MAX ==> new.spec_current_round() == old.spec_current_round()
                && new.spec_current_timeouts() == pushed && new.spec_current_timeouts_weight() == new_weight
                && new.spec_current_votes() == old.spec_current_votes()
                && Self::spec_same_election(old, new))
        } else {
            &&& new.spec_current_timeouts() == pushed
            &&& new.spec_current_timeouts_weight() == new_weight
            &&& new.spec_current_round() == old.spec_current_round()
            &&& new.spec_current_votes() == old.spec_current_votes()
            &&& new.spec_highest_timeout_certificate_round()
                == old.spec_highest_timeout_certificate_round()
            &&& new.spec_highest_timeout_certificate() == old.spec_highest_timeout_certificate()
            &&& Self::spec_same_election(old, new)
        }
    }

    /// The effect of storing a verified quorum certificate whose state this
    /// node reproduced locally: the certificate is added under its digest,
    /// the highest-certificate pointers, the current round and the 3-chain
    /// commit are updated. A certificate whose certified state cannot be
    /// reproduced is dropped and changes nothing.
    pub open spec fn spec_insert_qc_effect<C: SmrContext>(
        old: Self,
        new: Self,
        q: QuorumCertificate,
    ) -> bool {
        let h = C::hash_spec(crate::record::spec_qc_bytes(q.value));
        &&& new.spec_qcs() == old.spec_qcs().push((h, q))
        &&& new.spec_blocks() == old.spec_blocks()
        &&& new.spec_highest_timeout_certificate_round()
            == old.spec_highest_timeout_certificate_round()
        &&& new.spec_highest_timeout_certificate() == old.spec_highest_timeout_certificate()
        &&& (if q.value.round.0 > old.spec_highest_quorum_certificate_round().0 {
            new.spec_highest_quorum_certificate_round() == q.value.round
                && new.spec_highest_quorum_certificate_hash() == QuorumCertificateHash(h)
        } else {
            new.spec_highest_quorum_certificate_round()
                == old.spec_highest_quorum_certificate_round()
                && new.spec_highest_quorum_certificate_hash()
                == old.spec_highest_quorum_certificate_hash()
        })
        &&& ({
            let adv = if q.value.round.0 < usize::MAX {
                q.value.round.0 + 1
            } else {
                q.value.round.0 as int
            };
            if adv > old.spec_current_round().0 {
                new.spec_current_round().0 == adv && new.spec_round_cleared()
            } else {
                new.spec_current_round() == old.spec_current_round()
                    && new.spec_current_votes() == old.spec_current_votes()
                    && new.spec_current_timeouts() == old.spec_current_timeouts()
                    && new.spec_current_timeouts_weight() == old.spec_current_timeouts_weight()
                    && new.spec_current_proposed_block() == old.spec_current_proposed_block()
                    && new.spec_election_is_ongoing() == old.spec_election_is_ongoing()
                    && new.spec_election_is_won() == old.spec_election_is_won()
                    && new.spec_election_is_closed() == old.spec_election_is_closed()
                    && new.spec_election_winner() == old.spec_election_winner()
            }
        })
        &&& ({
            let c = new.spec_chain(h);
            if c.len() >= 3 && c[0].value.round.0 == c[1].value.round.0 + 1
                && c[1].value.round.0 == c[2].value.round.0 + 1 && c[2].value.round.0
                > old.spec_highest_committed_round().0 {
                new.spec_highest_committed_round() == c[2].value.round
                    && new.spec_highest_commit_certificate_hash() == Some(
                    QuorumCertificateHash(h),
                )
            } else {
                new.spec_highest_committed_round() == old.spec_highest_committed_round()
                    && new.spec_highest_commit_certificate_hash()
                    == old.spec_highest_commit_certificate_hash()
            }
        })
    }

    /// Execute the command of the block at `block_hash` on top of its
    /// parent's state, through the application's executor. The result is
    /// whatever the application answers.
    fn compute_state<C: SmrContext>(&self, block_hash: BlockHash, context: &mut C) -> (r: Option<
        State,
    >)
        requires
            self.wf(),
            self.block_at(block_hash.0) is Some,
        ensures
            final(context).author_spec() == old(context).author_spec(),
            final(context).delivered_spec() == old(context).delivered_spec(),
    {
        let block = match self.blocks.get(block_hash.0) {
            Some(b) => b,
            None => {
                proof {
                    assert(false);
                }
                return None;
            },
        };
        let prev = block.value.previous_quorum_certificate_hash;
        if prev.0 == self.initial_hash.0 {
            let base = self.initial_state;
            context.compute(&base, block.value.command, block.value.time, None, Vec::new())
        } else {
            proof {
                lemma_lookup_index(self.spec_blocks(), block_hash.0);
                let j = choose|j: int|
                    0 <= j < self.spec_blocks().len() && (#[trigger] self.spec_blocks()[j]).0
                        == block_hash.0 && self.spec_blocks()[j].1 == self.block_at(
                        block_hash.0,
                    ).unwrap();
                assert(self.qc_at(prev.0) is Some);
            }
            match self.quorum_certificates.get(prev.0) {
                Some(previous_qc) => {
                    let mut voters: Vec<Author> = Vec::new();
                    let n = previous_qc.value.votes.len();
                    let mut i: usize = 0;
                    while i < n
                        invariant
                            i <= n,
                            n == previous_qc.value.votes@.len(),
                        decreases n - i,
                    {
                        voters.push(previous_qc.value.votes[i].0);
                        i = i + 1;
                    }
                    let base = previous_qc.value.state;
                    let previous_author = previous_qc.value.author;
                    context.compute(
                        &base,
                        block.value.command,
                        block.value.time,
                        Some(previous_author),
                        voters,
                    )
                },
                None => {
                    proof {
                        assert(false);
                    }
                    None
                },
            }
        }
    }

    /// Verify a record and, when it passes, store it and update the derived
    /// values. A record that fails verification leaves the store unchanged;
    /// a certificate whose certified state cannot be reproduced locally is
    /// stored but does not advance the derived values.
    #[verifier::rlimit(100)]
    fn try_insert_network_record<C: SmrContext>(
        &mut self,
        record: Record,
        context: &mut C,
    ) -> (r: Result<(), RecordError>)
        requires
            old(self).wf(),
        ensures
            final(self).wf(),
            Self::spec_same_base(*old(self), *final(self)),
            Self::spec_rounds_monotone(*old(self), *final(self)),
            final(context).author_spec() == old(context).author_spec(),
            final(context).delivered_spec() == old(context).delivered_spec(),
            !old(self).spec_verifies::<C>(record) ==> *final(self) == *old(self) && r is Err,
            old(self).spec_verifies::<C>(record) ==> match record {
                Record::Block(b) => r is Ok && Self::spec_insert_block_effect::<C>(
                    *old(self),
                    *final(self),
                    b,
                ),
                Record::Vote(v) => r is Ok && Self::spec_insert_vote_effect(
                    *old(self),
                    *final(self),
                    v,
                ),
                Record::QuorumCertificate(q) => (r is Ok ==> Self::spec_insert_qc_effect::<C>(
                    *old(self),
                    *final(self),
                    q,
                )) && (r is Err ==> *final(self) == *old(self)),
                Record::Timeout(t) => r is Ok && Self::spec_insert_timeout_effect(
                    *old(self),
                    *final(self),
                    t,
                ),
            },
    {
        let hash = match self.verify_network_record(context, &record) {
            Ok(h) => h,
            Err(e) => {
                return Err(e);
            },
        };
        match record {
            Record::Block(block) => {
                proof {
                    lemma_lookup_has_key(self.spec_blocks(), hash);
                }
                if block.value.round.0 == self.current_round.0 {
                    let leader = self.pick_author(round_seed(block.value.round));
                    proof {
                        assert(leader == Author(leader.0));
                        assert(block.value.author == Author(block.value.author.0));
                        assert(block.value.round == self.spec_current_round());
                        assert(leader == spec_leader(
                            self.spec_configuration(),
                            block.value.round,
                        ));
                    }
                    if leader.0 == block.value.author.0 {
                        self.current_proposed_block = Some(BlockHash(hash));
                    }
                }
                let ghost b = block;
                self.blocks.insert_new(hash, block);
                proof {
                    let s0 = *old(self);
                    let s1 = *self;
                    assert(s1.wf_qcs()) by {
                        assert forall|i: int| 0 <= i < s1.spec_qcs().len() implies {
                            let qc = (#[trigger] s1.spec_qcs()[i]).1;
                            match s1.block_at(qc.value.certified_block_hash.0) {
                                Some(bb) => bb.value.round == qc.value.round && bb.value.author
                                    == qc.value.author,
                                None => false,
                            }
                        } by {
                            let qc = s1.spec_qcs()[i].1;
                            assert(s0.spec_qcs()[i].1 == qc);
                            let cbh = qc.value.certified_block_hash.0;
                            assert(s0.block_at(cbh) is Some);
                            lemma_lookup_has_key(s0.spec_blocks(), cbh);
                            assert(cbh != hash);
                        }
                    }
                    assert(s1.wf_blocks()) by {
                        assert forall|i: int| 0 <= i < s1.spec_blocks().len() implies {
                            let bb = (#[trigger] s1.spec_blocks()[i]).1;
                            &&& bb.value.round.0 >= 1
                            &&& (bb.value.previous_quorum_certificate_hash
                                == s1.spec_initial_hash() || (
                            match s1.qc_at(bb.value.previous_quorum_certificate_hash.0) {
                                Some(qc) => qc.value.round.0 < bb.value.round.0,
                                None => false,
                            }))
                        } by {
                            if i < s0.spec_blocks().len() {
                                assert(s0.spec_blocks()[i].1 == s1.spec_blocks()[i].1);
                            } else {
                                assert(s1.spec_blocks()[i] == (hash, b));
                                assert(b.value.previous_quorum_certificate_hash
                                    == QuorumCertificateHash(
                                    b.value.previous_quorum_certificate_hash.0,
                                ));
                            }
                        }
                    }
                    assert(s1.wf_pointers()) by {
                        if s1.spec_highest_quorum_certificate_hash() != s1.spec_initial_hash() {
                        }
                    }
                    assert(s1.wf_proposed()) by {
                        match s1.spec_current_proposed_block() {
                            Some(bh) => {
                                if bh.0 != hash {
                                    assert(s0.spec_current_proposed_block() == Some(bh));
                                    assert(s0.block_at(bh.0) is Some);
                                    lemma_lookup_has_key(s0.spec_blocks(), bh.0);
                                }
                            },
                            None => {},
                        }
                    }
                    assert(s1.wf_chain());
                    Self::lemma_commit_clauses_block_push(s0, s1, hash, b);
                    assert(s1.spec_current_round() == s0.spec_current_round());
                    assert(s1.spec_highest_committed_round() == s0.spec_highest_committed_round());
                    assert(s1.spec_highest_quorum_certificate_round()
                        == s0.spec_highest_quorum_certificate_round());
                    assert(s1.spec_highest_timeout_certificate_round()
                        == s0.spec_highest_timeout_certificate_round());
                    assert(Self::spec_rounds_monotone(s0, s1));
                }
                Ok(())
            },
            Record::Vote(vote) => {
                self.record_vote(vote);
                Ok(())
            },
            Record::QuorumCertificate(qc) => {
                proof {
                    lemma_lookup_has_key(self.spec_qcs(), hash);
                }
                let qc_round = qc.value.round;
                let qc_state = qc.value.state;
                let block_hash = qc.value.certified_block_hash;
                let ghost q = qc;
                let ghost s0 = *self;
                // Re-execute the certified block locally; a certificate
                // whose state this node cannot reproduce is dropped.
                proof {
                    assert(self.block_at(block_hash.0) is Some);
                }
                let computed = self.compute_state(block_hash, context);
                let state = match computed {
                    Some(state) => state,
                    None => {
                        return Err(RecordError::ComputeFailure);
                    },
                };
                if state.0 != qc_state.0 {
                    return Err(RecordError::StateMismatch);
                }
                self.quorum_certificates.insert_new(hash, qc);
                proof {
                    let s1 = *self;
                    assert(s1.wf_qcs()) by {
                        assert forall|i: int| 0 <= i < s1.spec_qcs().len() implies {
                            let qce = (#[trigger] s1.spec_qcs()[i]).1;
                            match s1.block_at(qce.value.certified_block_hash.0) {
                                Some(bb) => bb.value.round == qce.value.round && bb.value.author
                                    == qce.value.author,
                                None => false,
                            }
                        } by {
                            if i < s0.spec_qcs().len() {
                                assert(s0.spec_qcs()[i].1 == s1.spec_qcs()[i].1);
                            } else {
                                assert(s1.spec_qcs()[i] == (hash, q));
                            }
                        }
                    }
                    assert(s1.wf_blocks()) by {
                        assert forall|i: int| 0 <= i < s1.spec_blocks().len() implies {
                            let bb = (#[trigger] s1.spec_blocks()[i]).1;
                            &&& bb.value.round.0 >= 1
                            &&& (bb.value.previous_quorum_certificate_hash
                                == s1.spec_initial_hash() || (
                            match s1.qc_at(bb.value.previous_quorum_certificate_hash.0) {
                                Some(qce) => qce.value.round.0 < bb.value.round.0,
                                None => false,
                            }))
                        } by {
                            let bb = s1.spec_blocks()[i].1;
                            assert(s0.spec_blocks()[i].1 == bb);
                            let prev = bb.value.previous_quorum_certificate_hash;
                            if prev != s0.spec_initial_hash() {
                                assert(s0.qc_at(prev.0) is Some);
                                lemma_lookup_has_key(s0.spec_qcs(), prev.0);
                                assert(prev.0 != hash);
                            }
                        }
                    }
                    assert(s1.wf_pointers()) by {
                        if s1.spec_highest_quorum_certificate_hash() != s1.spec_initial_hash() {
                            let hh = s1.spec_highest_quorum_certificate_hash().0;
                            assert(s0.qc_at(hh) is Some);
                            lemma_lookup_has_key(s0.spec_qcs(), hh);
                            assert(hh != hash);
                        }
                        match s1.spec_highest_commit_certificate_hash() {
                            Some(ch) => {
                                assert(s0.qc_at(ch.0) is Some);
                                lemma_lookup_has_key(s0.spec_qcs(), ch.0);
                                assert(ch.0 != hash);
                            },
                            None => {},
                        }
                    }
                    assert(s1.wf_chain());
                    Self::lemma_commit_clauses_qc_push(s0, s1, hash, q);
                }
                let ghost s2pre = *self;
                if qc_round.0 > self.highest_quorum_certificate_round.0 {
                    self.highest_quorum_certificate_round = qc_round;
                    self.highest_quorum_certificate_hash = QuorumCertificateHash(hash);
                }
                proof {
                    assert(self.wf_pointers());
                    Self::lemma_commit_clauses_frame(s2pre, *self);
                }
                let succ = if qc_round.0 < usize::MAX {
                    Round(qc_round.0 + 1)
                } else {
                    qc_round
                };
                self.update_current_round(succ);
                let ghost s3 = *self;
                proof {
                    assert(self.qc_at(hash) == Some(q));
                    assert(self.spec_round_of(hash) == q.value.round.0 as nat);
                    assert(q.value.round.0 <= self.spec_highest_quorum_certificate_round().0);
                }
                self.update_commit_3chain_round(QuorumCertificateHash(hash));
                proof {
                    Self::lemma_chain_frame(s3, *self, hash);
                }
                Ok(())
            },
            Record::Timeout(timeout) => {
                self.record_timeout(timeout);
                Ok(())
            },
        }
    }

    /// Feed one record from the network into the store: verify it, and on
    /// success insert it and update the derived values. A record that does
    /// not verify, or that is already present, changes nothing, and a record
    /// accepted once does not verify a second time.
    #[verifier::rlimit(100)]
    pub fn insert_network_record<C: SmrContext>(&mut self, record: Record, context: &mut C)
        requires
            old(self).wf(),
        ensures
            final(self).wf(),
            Self::spec_same_base(*old(self), *final(self)),
            Self::spec_rounds_monotone(*old(self), *final(self)),
            final(context).author_spec() == old(context).author_spec(),
            final(context).delivered_spec() == old(context).delivered_spec(),
            !old(self).spec_verifies::<C>(record) ==> *final(self) == *old(self),
            old(self).spec_verifies::<C>(record) ==> (!final(self).spec_verifies::<C>(record)
                || *final(self) == *old(self)),
            old(self).spec_verifies::<C>(record) ==> match record {
                Record::Block(b) => Self::spec_insert_block_effect::<C>(
                    *old(self),
                    *final(self),
                    b,
                ),
                Record::Vote(v) => Self::spec_insert_vote_effect(*old(self), *final(self), v),
                Record::QuorumCertificate(q) => *final(self) == *old(self)
                    || Self::spec_insert_qc_effect::<C>(*old(self), *final(self), q),
                Record::Timeout(t) => Self::spec_insert_timeout_effect(*old(self), *final(self), t),
            },
    {
        let ghost s0 = *old(self);
        let ghost rec = record;
        let r = self.try_insert_network_record(record, context);
        proof {
            if s0.spec_verifies::<C>(rec) {
                match rec {
                    Record::Block(b) => {
                        let h = C::hash_spec(crate::record::spec_block_bytes(b.value));
                        assert(final(self).spec_blocks()[final(self).spec_blocks().len() - 1] == (
                        h,
                        b,
                        ));
                        assert(spec_has_key(final(self).spec_blocks(), h));
                    },
                    Record::Vote(v) => {
                        let k = v.value.author.0 as u64;
                        assert(final(self).spec_current_votes()[final(self).spec_current_votes().len() - 1] == (k, v));
                        assert(spec_has_key(final(self).spec_current_votes(), k));
                    },
                    Record::QuorumCertificate(q) => {
                        let h = C::hash_spec(crate::record::spec_qc_bytes(q.value));
                        if r is Ok {
                            assert(Self::spec_insert_qc_effect::<C>(s0, *final(self), q));
                            assert(final(self).spec_qcs()[final(self).spec_qcs().len() - 1] == (
                            h,
                            q,
                            ));
                            assert(spec_has_key(final(self).spec_qcs(), h));
                        } else {
                            assert(*final(self) == s0);
                        }
                    },
                    Record::Timeout(t) => {
                        assert(Self::spec_insert_timeout_effect(s0, *final(self), t));
                        let k = t.value.author.0 as u64;
                        let pushed = s0.spec_current_timeouts().push((k, t));
                        assert(pushed[pushed.len() - 1] == (k, t));
                        let new_weight = s0.spec_current_timeouts_weight() + spec_weight(
                            s0.spec_configuration().spec_authors(),
                            t.value.author,
                        );
                        if new_weight >= s0.spec_quorum_threshold() {
                            if s0.spec_current_round().0 < usize::MAX {
                                assert(final(self).spec_current_round().0 > t.value.round.0);
                            } else {
                                assert(final(self).spec_current_timeouts() == pushed);
                                assert(spec_has_key(final(self).spec_current_timeouts(), k));
                            }
                        } else {
                            assert(final(self).spec_current_timeouts() == pushed);
                            assert(spec_has_key(final(self).spec_current_timeouts(), k));
                        }
                    },
                }
            }
        }
    }

    /// Two certificates carry the same content: equal fields, with the
    /// votes compared as sequences.
    pub open spec fn spec_qc_eq(a: QuorumCertificate, b: QuorumCertificate) -> bool {
        &&& a.value.epoch_id == b.value.epoch_id
        &&& a.value.round == b.value.round
        &&& a.value.certified_block_hash == b.value.certified_block_hash
        &&& a.value.state == b.value.state
        &&& a.value.committed_state == b.value.committed_state
        &&& a.value.votes@ == b.value.votes@
        &&& a.value.author == b.value.author
        &&& a.signature == b.signature
    }

    /// Copy a quorum certificate field by field.
    pub fn copy_qc(qc: &QuorumCertificate) -> (r: QuorumCertificate)
        ensures
            Self::spec_qc_eq(r, *qc),
    {
        let mut votes: Vec<(Author, Signature)> = Vec::new();
        let n = qc.value.votes.len();
        let mut i: usize = 0;
        while i < n
            invariant
                i <= n,
                n == qc.value.votes@.len(),
                votes@ == qc.value.votes@.take(i as int),
            decreases n - i,
        {
            votes.push(qc.value.votes[i]);
            proof {
                assert(votes@ =~= qc.value.votes@.take(i + 1));
            }
            i = i + 1;
        }
        proof {
            assert(qc.value.votes@.take(n as int) =~= qc.value.votes@);
        }
        let value = crate::record::QuorumCertificate_ {
            epoch_id: qc.value.epoch_id,
            round: qc.value.round,
            certified_block_hash: qc.value.certified_block_hash,
            state: qc.value.state,
            committed_state: qc.value.committed_state,
            votes,
            author: qc.value.author,
        };
        SignedValue { value, signature: qc.signature }
    }

    /// The timeouts worth sharing: those of the highest timeout certificate,
    /// then those of the current round.
    pub fn timeouts(&self) -> (r: Vec<Timeout>)
        ensures
            r@ == (match self.spec_highest_timeout_certificate() {
                Some(l) => l,
                None => Seq::<Timeout>::empty(),
            }) + spec_timeout_values(self.spec_current_timeouts()),
    {
        let mut result: Vec<Timeout> = Vec::new();
        match &self.highest_timeout_certificate {
            Some(highest_tc) => {
                proof {
                    assert(self.spec_highest_timeout_certificate() == Some(highest_tc@));
                }
                let n = highest_tc.len();
                let mut i: usize = 0;
                while i < n
                    invariant
                        i <= n,
                        n == highest_tc@.len(),
                        self.spec_highest_timeout_certificate() == Some(highest_tc@),
                        result@ == highest_tc@.take(i as int),
                    decreases n - i,
                {
                    result.push(highest_tc[i]);
                    proof {
                        assert(result@ =~= highest_tc@.take(i + 1));
                    }
                    i = i + 1;
                }
                proof {
                    assert(highest_tc@.take(n as int) =~= highest_tc@);
                }
            },
            None => (),
        }
        let ghost head = result@;
        let current = self.collect_current_timeouts();
        let n2 = current.len();
        let mut j: usize = 0;
        while j < n2
            invariant
                j <= n2,
                n2 == current@.len(),
                current@ == spec_timeout_values(self.spec_current_timeouts()),
                result@ == head + current@.take(j as int),
            decreases n2 - j,
        {
            result.push(current[j]);
            proof {
                assert(result@ =~= head + current@.take(j + 1));
            }
            j = j + 1;
        }
        proof {
            assert(current@.take(n2 as int) =~= current@);
        }
        result
    }

    /// Create and record this node's timeout for `round`.
    pub fn create_timeout<C: SmrContext>(&mut self, author: Author, round: Round, context: &mut C)
        requires
            old(self).wf(),
            author == old(context).author_spec(),
        ensures
            final(self).wf(),
            Self::spec_same_base(*old(self), *final(self)),
            Self::spec_rounds_monotone(*old(self), *final(self)),
            ({
                let value = crate::record::Timeout_ {
                    epoch_id: old(self).spec_epoch_id(),
                    round,
                    highest_certified_block_round: old(self).spec_highest_quorum_certificate_round(),
                    author,
                };
                let t = SignedValue {
                    value,
                    signature: C::sign_spec(
                        author,
                        C::hash_spec(crate::record::spec_timeout_bytes(value)),
                    ),
                };
                &&& (!old(self).spec_verifies::<C>(Record::Timeout(t)) ==> *final(self) == *old(self))
                &&& (old(self).spec_verifies::<C>(Record::Timeout(t))
                    ==> Self::spec_insert_timeout_effect(*old(self), *final(self), t))
            }),
    {
        let value = crate::record::Timeout_ {
            epoch_id: self.epoch_id,
            round,
            highest_certified_block_round: self.highest_quorum_certificate_round,
            author,
        };
        let timeout = SignedValue::make(context, value);
        self.insert_network_record(Record::Timeout(timeout), context);
    }

    /// Fetch a command from the mempool and propose a block extending
    /// `previous_quorum_certificate_hash` at the current round. Whether a
    /// block is created is the mempool's choice.
    pub fn propose_block<C: SmrContext>(
        &mut self,
        context: &mut C,
        previous_quorum_certificate_hash: QuorumCertificateHash,
        time: NodeTime,
    )
        requires
            old(self).wf(),
        ensures
            final(self).wf(),
            Self::spec_same_base(*old(self), *final(self)),
            Self::spec_rounds_monotone(*old(self), *final(self)),
            *final(self) == *old(self) || exists|b: Block|
                {
                    &&& b.value.round == old(self).spec_current_round()
                    &&& b.value.previous_quorum_certificate_hash
                        == previous_quorum_certificate_hash
                    &&& b.value.time == time
                    &&& b.value.author == old(context).author_spec()
                    &&& b.signature == C::sign_spec(
                        old(context).author_spec(),
                        C::hash_spec(crate::record::spec_block_bytes(b.value)),
                    )
                    &&& old(self).spec_verifies::<C>(Record::Block(b))
                    &&& Self::spec_insert_block_effect::<C>(*old(self), *final(self), b)
                },
    {
        match context.fetch() {
            Some(command) => {
                let value = crate::record::Block_ {
                    command,
                    time,
                    previous_quorum_certificate_hash,
                    round: self.current_round,
                    author: context.author(),
                };
                let block = SignedValue::make(context, value);
                let ghost b = block;
                self.insert_network_record(Record::Block(block), context);
                proof {
                    if old(self).spec_verifies::<C>(Record::Block(b)) {
                        assert(Self::spec_insert_block_effect::<C>(*old(self), *final(self), b));
                    }
                }
            },
            None => (),
        }
    }

    /// The vote this node casts on a block: of this epoch and the block's
    /// round, carrying the commit-rule state, signed by this node, and fed
    /// through the insertion path: dropped only if verification refuses it,
    /// otherwise inserted with the vote effect.
    pub open spec fn spec_cast_vote_effect<C: SmrContext>(
        old: Self,
        new: Self,
        author: Author,
        certified_block_hash: BlockHash,
        v: Vote,
    ) -> bool {
        &&& v.value.epoch_id == old.spec_epoch_id()
        &&& v.value.round == old.block_at(certified_block_hash.0).unwrap().value.round
        &&& v.value.certified_block_hash == certified_block_hash
        &&& v.value.committed_state == old.spec_vote_committed_state(certified_block_hash)
        &&& v.value.author == author
        &&& v.signature == C::sign_spec(
            author,
            C::hash_spec(crate::record::spec_vote_bytes(v.value)),
        )
        &&& (!old.spec_verifies::<C>(Record::Vote(v)) ==> new == old)
        &&& (old.spec_verifies::<C>(Record::Vote(v)) ==> Self::spec_insert_vote_effect(
            old,
            new,
            v,
        ))
    }

    /// Execute the block's command and record a vote on the resulting state.
    /// Returns false when the application rejects the execution.
    pub fn create_vote<C: SmrContext>(
        &mut self,
        context: &mut C,
        certified_block_hash: BlockHash,
    ) -> (r: bool)
        requires
            old(self).wf(),
            old(self).block_at(certified_block_hash.0) is Some,
        ensures
            final(self).wf(),
            Self::spec_same_base(*old(self), *final(self)),
            Self::spec_rounds_monotone(*old(self), *final(self)),
            !r ==> *final(self) == *old(self),
            r ==> exists|v: Vote|
                Self::spec_cast_vote_effect::<C>(
                    *old(self),
                    *final(self),
                    old(context).author_spec(),
                    certified_block_hash,
                    v,
                ),
    {
        let committed_state = self.vote_committed_state(certified_block_hash);
        let round = match self.blocks.get(certified_block_hash.0) {
            Some(b) => b.value.round,
            None => {
                proof {
                    assert(false);
                }
                return false;
            },
        };
        match self.compute_state(certified_block_hash, context) {
            Some(state) => {
                let value = crate::record::Vote_ {
                    epoch_id: self.epoch_id,
                    round,
                    certified_block_hash,
                    state,
                    author: context.author(),
                    committed_state,
                };
                let vote = SignedValue::make(context, value);
                let ghost v = vote;
                self.insert_network_record(Record::Vote(vote), context);
                proof {
                    assert(Self::spec_cast_vote_effect::<C>(
                        *old(self),
                        *final(self),
                        old(context).author_spec(),
                        certified_block_hash,
                        v,
                    ));
                }
                true
            },
            None => false,
        }
    }

    /// Try to create a quorum certificate for the block this node proposed,
    /// once the election is won. Once created, the election closes and no
    /// further certificate is produced at this round by this node.
    pub fn check_for_new_quorum_certificate<C: SmrContext>(&mut self, context: &mut C) -> (r: bool)
        requires
            old(self).wf(),
        ensures
            final(self).wf(),
            Self::spec_same_base(*old(self), *final(self)),
            Self::spec_rounds_monotone(*old(self), *final(self)),
            // A certificate is produced exactly when the election was won
            // by a stored block this node authored.
            r == (old(self).spec_election_is_won() && old(self).block_at(
                old(self).spec_election_winner().0.0,
            ) is Some && old(self).block_at(old(self).spec_election_winner().0.0).unwrap().value.author
                == old(context).author_spec()),
            !r ==> *final(self) == *old(self),
            r ==> final(self).spec_election_is_closed() || final(self).spec_election_is_ongoing(),
            r ==> exists|q: QuorumCertificate|
                Self::spec_formed_certificate::<C>(
                    *old(self),
                    *final(self),
                    old(context).author_spec(),
                    q,
                ),
    {
        let (block_hash, state) = match &self.current_election {
            ElectionState::Won { block_hash, state } => (*block_hash, *state),
            _ => {
                return false;
            },
        };
        proof {
            assert(old(self).spec_election_winner() == (block_hash, state));
        }
        let author = match self.blocks.get(block_hash.0) {
            Some(b) => b.value.author,
            None => {
                return false;
            },
        };
        let local = context.author();
        if author.0 != local.0 {
            proof {
                assert(author == Author(author.0));
                assert(local == Author(local.0));
            }
            return false;
        }
        proof {
            assert(author == Author(author.0));
            assert(local == Author(local.0));
            assert(author == old(context).author_spec());
        }
        let committed_state = self.vote_committed_state_checked(block_hash);
        // Collect the signatures of the votes that agree with the winning
        // state.
        let mut authors_and_signatures: Vec<(Author, Signature)> = Vec::new();
        let n = self.current_votes.len();
        let mut i: usize = 0;
        proof {
            assert(self.spec_current_votes().take(0) =~= Seq::<(u64, Vote)>::empty());
        }
        while i < n
            invariant
                i <= n,
                n == self.spec_current_votes().len(),
                state == old(self).spec_election_winner().1,
                authors_and_signatures@ == spec_matching_votes(
                    self.spec_current_votes().take(i as int),
                    state,
                ),
            decreases n - i,
        {
            let entry = self.current_votes.entry_at(i);
            proof {
                lemma_matching_votes_take(self.spec_current_votes(), state, i as int);
                assert(entry.1.value.state == State(entry.1.value.state.0));
                assert(state == State(state.0));
            }
            if entry.1.value.state.0 == state.0 {
                authors_and_signatures.push((entry.1.value.author, entry.1.signature));
            }
            i = i + 1;
        }
        proof {
            assert(self.spec_current_votes().take(n as int) =~= self.spec_current_votes());
        }
        let value = crate::record::QuorumCertificate_ {
            epoch_id: self.epoch_id,
            round: self.current_round,
            certified_block_hash: block_hash,
            state,
            votes: authors_and_signatures,
            committed_state,
            author: local,
        };
        let quorum_certificate = SignedValue::make(context, value);
        let ghost q = quorum_certificate;
        self.current_election = ElectionState::Closed;
        proof {
            Self::lemma_commit_clauses_frame(*old(self), *self);
            assert(self.wf());
            assert(*self == Self::spec_with_closed_election(*old(self)));
        }
        let ghost mid = *self;
        self.insert_network_record(Record::QuorumCertificate(quorum_certificate), context);
        proof {
            let h = C::hash_spec(crate::record::spec_qc_bytes(q.value));
            if mid.spec_verifies::<C>(Record::QuorumCertificate(q)) && *self != mid {
                assert(Self::spec_insert_qc_effect::<C>(mid, *self, q));
                let fqcs = self.spec_qcs();
                assert((#[trigger] fqcs[fqcs.len() - 1]).0 == h);
                assert(spec_has_key(fqcs, h));
                lemma_lookup_has_key(fqcs, h);
                assert(self.qc_at(h) is Some);
            } else {
                assert(*self == mid);
            }
            assert(Self::spec_formed_certificate::<C>(
                *old(self),
                *self,
                old(context).author_spec(),
                q,
            ));
        }
        true
    }

    /// The store with its election closed and nothing else changed.
    pub closed spec fn spec_with_closed_election(s: Self) -> Self {
        RecordStoreState { current_election: ElectionState::Closed, ..s }
    }

    /// The certificate this node forms once its block wins the election: at
    /// the current round, over the winning block and state, carrying the
    /// commit-rule state and the signatures of the matching votes, signed by
    /// this node; the store then closes the election and feeds the
    /// certificate through the insertion path.
    pub open spec fn spec_formed_certificate<C: SmrContext>(
        old: Self,
        new: Self,
        author: Author,
        q: QuorumCertificate,
    ) -> bool {
        &&& q.value.epoch_id == old.spec_epoch_id()
        &&& q.value.round == old.spec_current_round()
        &&& q.value.certified_block_hash == old.spec_election_winner().0
        &&& q.value.state == old.spec_election_winner().1
        &&& q.value.committed_state == old.spec_vote_committed_state(old.spec_election_winner().0)
        &&& q.value.votes@ == spec_matching_votes(
            old.spec_current_votes(),
            old.spec_election_winner().1,
        )
        &&& q.value.author == author
        &&& q.signature == C::sign_spec(
            author,
            C::hash_spec(crate::record::spec_qc_bytes(q.value)),
        )
        &&& (Self::spec_insert_qc_effect::<C>(Self::spec_with_closed_election(old), new, q) || new
            == Self::spec_with_closed_election(old))
    }

    /// The commit-rule state for a stored block, or nothing for an unknown
    /// hash.
    fn vote_committed_state_checked(&self, block_hash: BlockHash) -> (r: Option<State>)
        requires
            self.wf(),
        ensures
            self.block_at(block_hash.0) is Some ==> r == self.spec_vote_committed_state(
                block_hash,
            ),
    {
        if self.blocks.contains_key(block_hash.0) {
            proof {
                lemma_lookup_has_key(self.spec_blocks(), block_hash.0);
            }
            self.vote_committed_state(block_hash)
        } else {
            proof {
                lemma_lookup_has_key(self.spec_blocks(), block_hash.0);
            }
            None
        }
    }

    /// The block proposed by the leader chosen by the pacemaker, if the
    /// pacemaker is on this store's epoch and round.
    pub fn proposed_block(&self, pacemaker: &crate::pacemaker::PacemakerState) -> (r: Option<
        (BlockHash, Round, Author),
    >)
        requires
            self.wf(),
        ensures
            match r {
                Some((bh, round, author)) => {
                    &&& self.spec_current_proposed_block() == Some(bh)
                    &&& round == self.spec_current_round()
                    &&& author == spec_leader(self.spec_configuration(), self.spec_current_round())
                    &&& pacemaker.spec_active_epoch() == self.spec_epoch_id()
                    &&& pacemaker.spec_active_round() == self.spec_current_round()
                    &&& pacemaker.spec_active_leader() is Some
                },
                None => self.spec_current_proposed_block() is None || pacemaker.spec_active_epoch()
                    != self.spec_epoch_id() || pacemaker.spec_active_round()
                    != self.spec_current_round() || pacemaker.spec_active_leader() is None,
            },
    {
        if self.epoch_id.0 != pacemaker.active_epoch().0 || self.current_round.0
            != pacemaker.active_round().0 {
            // The pacemaker is behind; proposals at this round were already
            // cleaned up.
            return None;
        }
        match pacemaker.active_leader() {
            Some(_) => {
                match self.current_proposed_block {
                    None => None,
                    Some(hash) => {
                        proof {
                            assert(self.block_at(hash.0) is Some);
                        }
                        match self.blocks.get(hash.0) {
                            Some(block) => Some((hash, block.value.round, block.value.author)),
                            None => {
                                proof {
                                    assert(false);
                                }
                                None
                            },
                        }
                    },
                }
            },
            None => None,
        }
    }

    /// A chain is no longer than the round it starts from: rounds strictly
    /// decrease along it and stay at 1 or above.
    proof fn lemma_chain_len(self, h: u64)
        requires
            self.wf(),
        ensures
            self.spec_chain(h).len() <= self.spec_round_of(h),
        decreases self.spec_chain_metric(h),
    {
        if h == self.spec_initial_hash().0 || !(self.qc_at(h) is Some) {
        } else {
            let qc = self.qc_at(h).unwrap();
            lemma_lookup_index(self.spec_qcs(), h);
            let i = choose|i: int|
                0 <= i < self.spec_qcs().len() && (#[trigger] self.spec_qcs()[i]).0 == h
                    && self.spec_qcs()[i].1 == qc;
            assert(self.spec_qcs()[i].1 == qc);
            assert(self.block_at(qc.value.certified_block_hash.0) is Some);
            let b = self.block_at(qc.value.certified_block_hash.0).unwrap();
            lemma_lookup_index(self.spec_blocks(), qc.value.certified_block_hash.0);
            let j = choose|j: int|
                0 <= j < self.spec_blocks().len() && (#[trigger] self.spec_blocks()[j]).0
                    == qc.value.certified_block_hash.0 && self.spec_blocks()[j].1 == b;
            assert(self.spec_blocks()[j].1 == b);
            let p = b.value.previous_quorum_certificate_hash.0;
            if p == self.spec_initial_hash().0 || !(self.qc_at(p) is Some) {
                assert(self.spec_chain(p).len() == 0);
            } else {
                assert(self.qc_at(p).unwrap().value.round.0 < b.value.round.0);
                assert(self.spec_round_of(p) < self.spec_round_of(h));
                self.lemma_chain_len(p);
            }
            assert(self.spec_chain(h) == seq![qc] + self.spec_chain(p));
        }
    }

    /// The rounds of a chain retained at the sparse positions `0`, `1`,
    /// `3`, `7`, ... counting from `i`, in walk order.
    pub open spec fn spec_sparse_desc(chain: Seq<QuorumCertificate>, i: nat) -> Seq<u64>
        decreases chain.len(),
    {
        if chain.len() == 0 {
            Seq::empty()
        } else {
            (if crate::util::spec_is_power2_minus1(i) {
                seq![chain[0].value.round.0 as u64]
            } else {
                Seq::<u64>::empty()
            }) + Self::spec_sparse_desc(chain.skip(1), i + 1)
        }
    }

    /// Walk the chain from `start`, collecting the rounds at the sparse
    /// positions, in walk order.
    fn collect_sparse_rounds(&self, start: u64) -> (r: Vec<u64>)
        requires
            self.wf(),
        ensures
            r@ == Self::spec_sparse_desc(self.spec_chain(start), 0),
    {
        let ghost full = self.spec_chain(start);
        let mut result: Vec<u64> = Vec::new();
        let mut cur: u64 = start;
        let mut i: usize = 0;
        proof {
            self.lemma_chain_len(start);
            assert(full.skip(0) =~= full);
        }
        loop
            invariant
                self.wf(),
                full == self.spec_chain(start),
                i <= full.len(),
                full.len() <= usize::MAX,
                self.spec_chain(cur) =~= full.skip(i as int),
                Self::spec_sparse_desc(full, 0) == result@ + Self::spec_sparse_desc(
                    full.skip(i as int),
                    i as nat,
                ),
            ensures
                result@ == Self::spec_sparse_desc(full, 0),
            decreases full.len() - i,
        {
            match self.chain_step(cur) {
                None => {
                    proof {
                        assert(full.skip(i as int).len() == 0);
                        assert(result@ =~= Self::spec_sparse_desc(full, 0));
                    }
                    break ;
                },
                Some((qc, next)) => {
                    proof {
                        assert(full.skip(i as int)[0] == *qc);
                        assert(full.skip(i as int).skip(1) =~= full.skip(i + 1));
                    }
                    if crate::util::is_power2_minus1(i) {
                        result.push(qc.value.round.0 as u64);
                    }
                    cur = next;
                    i = i + 1;
                    proof {
                        assert(Self::spec_sparse_desc(full, 0) =~= result@
                            + Self::spec_sparse_desc(full.skip(i as int), i as nat));
                    }
                },
            }
        }
        result
    }

    /// Reverse a vector of numbers.
    fn reverse_u64(v: Vec<u64>) -> (r: Vec<u64>)
        ensures
            r@ == v@.reverse(),
    {
        let mut result: Vec<u64> = Vec::new();
        let mut j: usize = v.len();
        while j > 0
            invariant
                j <= v@.len(),
                result@.len() == v@.len() - j,
                forall|i: int| 0 <= i < result@.len() ==> result@[i] == v@[v@.len() - 1 - i],
            decreases j,
        {
            j = j - 1;
            result.push(v[j]);
        }
        proof {
            assert(result@ =~= v@.reverse());
        }
        result
    }

    /// A compact digest of the known certificate rounds, used by data-sync
    /// requests: the rounds at sparse positions when walking back from the
    /// highest certificate and from the highest commit certificate, merged
    /// in ascending order.
    pub fn known_quorum_certificate_rounds(&self) -> (r: Vec<u64>)
        requires
            self.wf(),
        ensures
            r@ == crate::util::spec_merge(
                Self::spec_sparse_desc(
                    self.spec_chain(self.spec_highest_quorum_certificate_hash().0),
                    0,
                ).reverse(),
                Self::spec_sparse_desc(
                    self.spec_chain(
                        (match self.spec_highest_commit_certificate_hash() {
                            Some(h) => h,
                            None => self.spec_initial_hash(),
                        }).0,
                    ),
                    0,
                ).reverse(),
            ),
    {
        let highest_qc_hash = self.highest_quorum_certificate_hash;
        let highest_cc_hash = match self.highest_commit_certificate_hash {
            Some(h) => h,
            None => self.initial_hash,
        };
        let v1 = Self::reverse_u64(self.collect_sparse_rounds(highest_qc_hash.0));
        let v2 = Self::reverse_u64(self.collect_sparse_rounds(highest_cc_hash.0));
        crate::util::merge_sort(v1, v2)
    }

    /// The identity of a record on the wire: its value's canonical bytes
    /// followed by its signature. Records with equal identities carry the
    /// same content.
    pub open spec fn spec_record_ident(r: Record) -> Seq<u8> {
        match r {
            Record::Block(b) => crate::record::spec_block_bytes(b.value) + spec_u64_bytes(
                b.signature.0 as u64,
            ) + spec_u64_bytes(b.signature.1),
            Record::Vote(v) => crate::record::spec_vote_bytes(v.value) + spec_u64_bytes(
                v.signature.0 as u64,
            ) + spec_u64_bytes(v.signature.1),
            Record::QuorumCertificate(q) => crate::record::spec_qc_bytes(q.value) + spec_u64_bytes(
                q.signature.0 as u64,
            ) + spec_u64_bytes(q.signature.1),
            Record::Timeout(t) => crate::record::spec_timeout_bytes(t.value) + spec_u64_bytes(
                t.signature.0 as u64,
            ) + spec_u64_bytes(t.signature.1),
        }
    }

    /// The chain from `h`, cut at the first certificate whose round the
    /// peer already knows.
    pub open spec fn spec_chain_until(
        chain: Seq<QuorumCertificate>,
        known: Seq<u64>,
    ) -> Seq<QuorumCertificate>
        decreases chain.len(),
    {
        if chain.len() == 0 || known.contains(chain[0].value.round.0 as u64) {
            Seq::empty()
        } else {
            seq![chain[0]] + Self::spec_chain_until(chain.skip(1), known)
        }
    }

    /// The merge of two certificate chains by descending round, keeping one
    /// copy of entries present in both.
    pub open spec fn spec_merge_qcs(
        c1: Seq<QuorumCertificate>,
        c2: Seq<QuorumCertificate>,
    ) -> Seq<QuorumCertificate>
        decreases c1.len() + c2.len(),
    {
        if c1.len() == 0 {
            c2
        } else if c2.len() == 0 {
            c1
        } else if c1[0].value.round.0 > c2[0].value.round.0 {
            seq![c1[0]] + Self::spec_merge_qcs(c1.skip(1), c2)
        } else if c1[0].value.round.0 < c2[0].value.round.0 {
            seq![c2[0]] + Self::spec_merge_qcs(c1, c2.skip(1))
        } else if Self::spec_qc_eq(c1[0], c2[0]) {
            seq![c1[0]] + Self::spec_merge_qcs(c1.skip(1), c2.skip(1))
        } else {
            seq![c1[0], c2[0]] + Self::spec_merge_qcs(c1.skip(1), c2.skip(1))
        }
    }

    /// The identities of the block/certificate pairs of a merged chain, in
    /// ascending round order: for each certificate, its certified block then
    /// the certificate itself.
    pub open spec fn spec_pair_idents(self, qcs: Seq<QuorumCertificate>) -> Seq<Seq<u8>>
        decreases qcs.len(),
    {
        if qcs.len() == 0 {
            Seq::empty()
        } else {
            let qc = qcs[qcs.len() - 1];
            let blk = match self.block_at(qc.value.certified_block_hash.0) {
                Some(b) => seq![
                    Self::spec_record_ident(Record::Block(b)),
                    Self::spec_record_ident(Record::QuorumCertificate(qc)),
                ],
                None => seq![Self::spec_record_ident(Record::QuorumCertificate(qc))],
            };
            blk + self.spec_pair_idents(qcs.take(qcs.len() - 1))
        }
    }

    /// The identities of the shareable timeouts.
    pub open spec fn spec_timeout_idents(timeouts: Seq<Timeout>) -> Seq<Seq<u8>> {
        timeouts.map_values(|t: Timeout| Self::spec_record_ident(Record::Timeout(t)))
    }

    /// The identities of the records another node is missing, per the
    /// request's known rounds: the block/certificate pairs of the two cut
    /// chains merged by descending round, emitted in ascending order, then
    /// the shareable timeouts, then the proposed block. No votes.
    pub open spec fn spec_unknown_record_idents(self, known: Seq<u64>) -> Seq<Seq<u8>> {
        let c1 = Self::spec_chain_until(
            self.spec_chain(self.spec_highest_quorum_certificate_hash().0),
            known,
        );
        let c2 = Self::spec_chain_until(
            self.spec_chain(
                (match self.spec_highest_commit_certificate_hash() {
                    Some(h) => h,
                    None => self.spec_initial_hash(),
                }).0,
            ),
            known,
        );
        let pairs = self.spec_pair_idents(Self::spec_merge_qcs(c1, c2));
        let shared = (match self.spec_highest_timeout_certificate() {
            Some(l) => l,
            None => Seq::<Timeout>::empty(),
        }) + spec_timeout_values(self.spec_current_timeouts());
        let tail = match self.spec_current_proposed_block() {
            Some(bh) => match self.block_at(bh.0) {
                Some(b) => seq![Self::spec_record_ident(Record::Block(b))],
                None => Seq::<Seq<u8>>::empty(),
            },
            None => Seq::<Seq<u8>>::empty(),
        };
        pairs + Self::spec_timeout_idents(shared) + tail
    }

    /// The identities of a sequence of certificates.
    pub open spec fn spec_qc_idents(qcs: Seq<QuorumCertificate>) -> Seq<Seq<u8>> {
        qcs.map_values(|q: QuorumCertificate| Self::spec_record_ident(Record::QuorumCertificate(q)))
    }

    /// Certificates with the same content have the same identity.
    proof fn lemma_qc_eq_ident(a: QuorumCertificate, b: QuorumCertificate)
        requires
            Self::spec_qc_eq(a, b),
        ensures
            Self::spec_record_ident(Record::QuorumCertificate(a)) == Self::spec_record_ident(
                Record::QuorumCertificate(b),
            ),
    {
        crate::record::lemma_qc_bytes_congruent(a.value, b.value);
    }

    /// Sequences of pairwise same-content certificates yield the same
    /// block/certificate pair identities.
    proof fn lemma_pair_idents_congruent(self, a: Seq<QuorumCertificate>, b: Seq<QuorumCertificate>)
        requires
            a.len() == b.len(),
            forall|i: int| 0 <= i < a.len() ==> Self::spec_qc_eq(#[trigger] a[i], b[i]),
        ensures
            self.spec_pair_idents(a) == self.spec_pair_idents(b),
        decreases a.len(),
    {
        if a.len() > 0 {
            let n = a.len() - 1;
            assert(Self::spec_qc_eq(a[n], b[n]));
            Self::lemma_qc_eq_ident(a[n], b[n]);
            assert(a.take(n).len() == b.take(n).len());
            assert(forall|i: int|
                0 <= i < a.take(n).len() ==> Self::spec_qc_eq(
                    #[trigger] a.take(n)[i],
                    b.take(n)[i],
                ));
            self.lemma_pair_idents_congruent(a.take(n), b.take(n));
        }
    }

    /// Whether a record carries content stored in this record store: a
    /// stored block, a stored certificate, or a shareable timeout.
    pub open spec fn spec_record_from_store(self, r: Record) -> bool {
        match r {
            Record::Block(b) => exists|i: int|
                0 <= i < self.spec_blocks().len() && (#[trigger] self.spec_blocks()[i]).1 == b,
            Record::QuorumCertificate(q) => exists|i: int|
                0 <= i < self.spec_qcs().len() && Self::spec_qc_eq(
                    (#[trigger] self.spec_qcs()[i]).1,
                    q,
                ),
            Record::Vote(_) => false,
            Record::Timeout(t) => {
                (match self.spec_highest_timeout_certificate() {
                    Some(l) => exists|i: int| 0 <= i < l.len() && #[trigger] l[i] == t,
                    None => false,
                }) || exists|i: int|
                    0 <= i < spec_timeout_values(self.spec_current_timeouts()).len()
                        && #[trigger] spec_timeout_values(self.spec_current_timeouts())[i] == t
            },
        }
    }

    /// The records another node is missing: the blocks and certificates of
    /// the chains below the highest certificate and the highest commit
    /// certificate, cut at the rounds the peer already knows and merged in
    /// ascending round order, then the shareable timeouts, then the current
    /// proposed block. Votes are intentionally omitted: the leader
    /// aggregates them from direct sends.
    #[verifier::rlimit(100)]
    pub fn unknown_records(&self, known_qc_rounds: &Vec<u64>) -> (r: Vec<Record>)
        requires
            self.wf(),
        ensures
            self.spec_records_from_store(r@),
            r@.map_values(|x: Record| Self::spec_record_ident(x)) == self.spec_unknown_record_idents(
                known_qc_rounds@,
            ),
    {
        let chain1 = self.collect_chain_until(self.highest_quorum_certificate_hash.0, known_qc_rounds);
        let cc_hash = match self.highest_commit_certificate_hash {
            Some(h) => h,
            None => self.initial_hash,
        };
        let chain2 = self.collect_chain_until(cc_hash.0, known_qc_rounds);
        let ghost c1 = chain1@;
        let ghost c2 = chain2@;
        let ghost c1s = Self::spec_chain_until(
            self.spec_chain(self.spec_highest_quorum_certificate_hash().0),
            known_qc_rounds@,
        );
        let ghost c2s = Self::spec_chain_until(self.spec_chain(cc_hash.0), known_qc_rounds@);
        let ghost m_spec = Self::spec_merge_qcs(c1s, c2s);
        let qcs = Self::merge_qcs_desc(chain1, chain2);
        proof {
            assert(Self::spec_covered(qcs@, c1, c2));
            Self::lemma_merge_congruent(c1, c2, c1s, c2s);
            assert(qcs@.len() == m_spec.len());
            assert forall|i: int| 0 <= i < qcs@.len() implies Self::spec_qc_eq(
                #[trigger] qcs@[i],
                m_spec[i],
            ) by {
                assert(Self::spec_qc_eq(qcs@[i], Self::spec_merge_qcs(c1, c2)[i]));
                assert(Self::spec_qc_eq(Self::spec_merge_qcs(c1, c2)[i], m_spec[i]));
            }
            assert forall|i: int|
                0 <= i < qcs@.len() implies self.spec_record_from_store(
                Record::QuorumCertificate(#[trigger] qcs@[i]),
            ) by {
                let j = choose|j: int|
                    (0 <= j < c1.len() && Self::spec_qc_eq(#[trigger] qcs@[i], c1[j])) || (0 <= j
                        < c2.len() && Self::spec_qc_eq(qcs@[i], c2[j]));
                if 0 <= j < c1.len() && Self::spec_qc_eq(qcs@[i], c1[j]) {
                    assert(self.spec_record_from_store(Record::QuorumCertificate(c1[j])));
                    let w = choose|w: int|
                        0 <= w < self.spec_qcs().len() && Self::spec_qc_eq(
                            (#[trigger] self.spec_qcs()[w]).1,
                            c1[j],
                        );
                    assert(Self::spec_qc_eq(self.spec_qcs()[w].1, qcs@[i]));
                } else {
                    assert(self.spec_record_from_store(Record::QuorumCertificate(c2[j])));
                    let w = choose|w: int|
                        0 <= w < self.spec_qcs().len() && Self::spec_qc_eq(
                            (#[trigger] self.spec_qcs()[w]).1,
                            c2[j],
                        );
                    assert(Self::spec_qc_eq(self.spec_qcs()[w].1, qcs@[i]));
                }
            }
        }
        let mut result: Vec<Record> = Vec::new();
        let mut n: usize = qcs.len();
        proof {
            assert(qcs@.take(qcs@.len() as int) =~= qcs@);
            assert(result@.map_values(|x: Record| Self::spec_record_ident(x)) =~= Seq::<
                Seq<u8>,
            >::empty());
        }
        while n > 0
            invariant
                n <= qcs@.len(),
                self.wf(),
                forall|i: int|
                    0 <= i < qcs@.len() ==> self.spec_record_from_store(
                        Record::QuorumCertificate(#[trigger] qcs@[i]),
                    ),
                self.spec_records_from_store(result@),
                self.spec_pair_idents(qcs@) == result@.map_values(
                    |x: Record| Self::spec_record_ident(x),
                ) + self.spec_pair_idents(qcs@.take(n as int)),
            decreases n,
        {
            n = n - 1;
            let qc = &qcs[n];
            let ghost q0 = qcs@[n as int];
            let ghost pre = result@.map_values(|x: Record| Self::spec_record_ident(x));
            proof {
                assert(self.spec_record_from_store(Record::QuorumCertificate(q0)));
                let w = choose|i: int|
                    0 <= i < self.spec_qcs().len() && Self::spec_qc_eq(
                        (#[trigger] self.spec_qcs()[i]).1,
                        q0,
                    );
                lemma_lookup_at(self.spec_qcs(), w);
                lemma_lookup_has_key(self.spec_qcs(), self.spec_qcs()[w].0);
                assert(spec_has_key(self.spec_blocks(), q0.value.certified_block_hash.0)) by {
                    lemma_lookup_has_key(
                        self.spec_blocks(),
                        q0.value.certified_block_hash.0,
                    );
                }
                // Peel the last certificate of the unprocessed prefix.
                assert(qcs@.take(n + 1).len() == n + 1);
                assert(qcs@.take(n + 1)[n as int] == q0);
                assert(qcs@.take(n + 1).take(n as int) =~= qcs@.take(n as int));
            }
            match self.blocks.get(qc.value.certified_block_hash.0) {
                Some(block) => {
                    let b = *block;
                    proof {
                        lemma_lookup_index(self.spec_blocks(), q0.value.certified_block_hash.0);
                        assert(self.spec_record_from_store(Record::Block(b)));
                        self.lemma_push_from_store(result@, Record::Block(b));
                    }
                    result.push(Record::Block(b));
                },
                None => (),
            }
            let copy = Self::copy_qc(qc);
            proof {
                let w = choose|i: int|
                    0 <= i < self.spec_qcs().len() && Self::spec_qc_eq(
                        (#[trigger] self.spec_qcs()[i]).1,
                        q0,
                    );
                assert(Self::spec_qc_eq(self.spec_qcs()[w].1, copy));
                assert(self.spec_record_from_store(Record::QuorumCertificate(copy)));
                self.lemma_push_from_store(result@, Record::QuorumCertificate(copy));
            }
            result.push(Record::QuorumCertificate(copy));
            proof {
                Self::lemma_qc_eq_ident(copy, q0);
                assert(result@.map_values(|x: Record| Self::spec_record_ident(x)) =~= pre + (
                match self.block_at(q0.value.certified_block_hash.0) {
                    Some(bb) => seq![
                        Self::spec_record_ident(Record::Block(bb)),
                        Self::spec_record_ident(Record::QuorumCertificate(q0)),
                    ],
                    None => seq![Self::spec_record_ident(Record::QuorumCertificate(q0))],
                }));
                assert(self.spec_pair_idents(qcs@) =~= result@.map_values(
                    |x: Record| Self::spec_record_ident(x),
                ) + self.spec_pair_idents(qcs@.take(n as int)));
            }
        }
        let ghost pairs_part = result@.map_values(|x: Record| Self::spec_record_ident(x));
        proof {
            assert(qcs@.take(0) =~= Seq::<QuorumCertificate>::empty());
            assert(self.spec_pair_idents(qcs@.take(0)) + Seq::<Seq<u8>>::empty() =~= Seq::<
                Seq<u8>,
            >::empty());
            assert(pairs_part =~= self.spec_pair_idents(qcs@));
            self.lemma_pair_idents_congruent(qcs@, m_spec);
            assert(pairs_part == self.spec_pair_idents(m_spec));
        }
        // Share the timeouts again.
        let shared = self.timeouts();
        let m = shared.len();
        let mut j: usize = 0;
        proof {
            assert(shared@.take(0) =~= Seq::<Timeout>::empty());
            assert(Self::spec_timeout_idents(shared@.take(0)) =~= Seq::<Seq<u8>>::empty());
            assert(result@.map_values(|x: Record| Self::spec_record_ident(x)) =~= pairs_part
                + Self::spec_timeout_idents(shared@.take(0)));
        }
        while j < m
            invariant
                j <= m,
                self.wf(),
                m == shared@.len(),
                shared@ == (match self.spec_highest_timeout_certificate() {
                    Some(l) => l,
                    None => Seq::<Timeout>::empty(),
                }) + spec_timeout_values(self.spec_current_timeouts()),
                self.spec_records_from_store(result@),
                result@.map_values(|x: Record| Self::spec_record_ident(x)) == pairs_part
                    + Self::spec_timeout_idents(shared@.take(j as int)),
            decreases m - j,
        {
            let t = shared[j];
            let ghost pre = result@.map_values(|x: Record| Self::spec_record_ident(x));
            proof {
                let hl = match self.spec_highest_timeout_certificate() {
                    Some(l) => l,
                    None => Seq::<Timeout>::empty(),
                };
                let cv = spec_timeout_values(self.spec_current_timeouts());
                assert(shared@ == hl + cv);
                assert(self.spec_record_from_store(Record::Timeout(t))) by {
                    if j < hl.len() {
                        assert(hl[j as int] == t);
                    } else {
                        assert(cv[j - hl.len()] == t);
                    }
                }
                self.lemma_push_from_store(result@, Record::Timeout(t));
            }
            result.push(Record::Timeout(t));
            proof {
                assert(result@.map_values(|x: Record| Self::spec_record_ident(x)) =~= pre.push(
                    Self::spec_record_ident(Record::Timeout(t)),
                ));
                assert(shared@.take(j + 1) =~= shared@.take(j as int).push(t));
                assert(Self::spec_timeout_idents(shared@.take(j + 1))
                    =~= Self::spec_timeout_idents(shared@.take(j as int)).push(
                    Self::spec_record_ident(Record::Timeout(t)),
                ));
                assert(result@.map_values(|x: Record| Self::spec_record_ident(x)) =~= pairs_part
                    + Self::spec_timeout_idents(shared@.take(j + 1)));
            }
            j = j + 1;
        }
        proof {
            assert(shared@.take(m as int) =~= shared@);
        }
        // Skipping votes intentionally.
        match self.current_proposed_block {
            Some(block_hash) => {
                proof {
                    assert(self.block_at(block_hash.0) is Some);
                }
                match self.blocks.get(block_hash.0) {
                    Some(block) => {
                        let b = *block;
                        proof {
                            lemma_lookup_index(self.spec_blocks(), block_hash.0);
                            assert(self.spec_record_from_store(Record::Block(b)));
                            self.lemma_push_from_store(result@, Record::Block(b));
                        }
                        result.push(Record::Block(b));
                        proof {
                            assert(result@.map_values(|x: Record| Self::spec_record_ident(x))
                                =~= pairs_part + Self::spec_timeout_idents(shared@) + seq![
                                Self::spec_record_ident(Record::Block(b)),
                            ]);
                        }
                    },
                    None => (),
                }
            },
            None => (),
        }
        proof {
            assert(result@.map_values(|x: Record| Self::spec_record_ident(x))
                =~= self.spec_unknown_record_idents(known_qc_rounds@));
        }
        result
    }

    /// Collect the chain from `start` down to the first certificate whose
    /// round the peer already knows. Every collected certificate is stored.
    fn collect_chain_until(&self, start: u64, known: &Vec<u64>) -> (r: Vec<QuorumCertificate>)
        requires
            self.wf(),
        ensures
            forall|i: int|
                0 <= i < r@.len() ==> self.spec_record_from_store(
                    Record::QuorumCertificate(#[trigger] r@[i]),
                ),
            r@.len() == Self::spec_chain_until(self.spec_chain(start), known@).len(),
            forall|i: int|
                0 <= i < r@.len() ==> Self::spec_qc_eq(
                    #[trigger] r@[i],
                    Self::spec_chain_until(self.spec_chain(start), known@)[i],
                ),
    {
        let ghost full = self.spec_chain(start);
        let ghost cut = Self::spec_chain_until(full, known@);
        let mut result: Vec<QuorumCertificate> = Vec::new();
        let mut cur: u64 = start;
        let mut i: usize = 0;
        proof {
            self.lemma_chain_len(start);
            assert(full.skip(0) =~= full);
        }
        loop
            invariant
                self.wf(),
                i <= full.len(),
                full.len() <= usize::MAX,
                full == self.spec_chain(start),
                cut == Self::spec_chain_until(full, known@),
                self.spec_chain(cur) =~= full.skip(i as int),
                result@.len() == i,
                cut == full.take(i as int) + Self::spec_chain_until(full.skip(i as int), known@),
                forall|k: int| 0 <= k < i ==> #[trigger] full[k] == cut[k],
                forall|k: int|
                    0 <= k < result@.len() ==> Self::spec_qc_eq(#[trigger] result@[k], full[k]),
                forall|k: int|
                    0 <= k < result@.len() ==> self.spec_record_from_store(
                        Record::QuorumCertificate(#[trigger] result@[k]),
                    ),
            ensures
                result@.len() == cut.len(),
                forall|k: int|
                    0 <= k < result@.len() ==> Self::spec_qc_eq(#[trigger] result@[k], cut[k]),
                forall|k: int|
                    0 <= k < result@.len() ==> self.spec_record_from_store(
                        Record::QuorumCertificate(#[trigger] result@[k]),
                    ),
            decreases full.len() - i,
        {
            match self.chain_step(cur) {
                None => {
                    proof {
                        assert(full.skip(i as int).len() == 0);
                        assert(Self::spec_chain_until(full.skip(i as int), known@)
                            =~= Seq::<QuorumCertificate>::empty());
                        assert(cut =~= full.take(i as int));
                    }
                    break ;
                },
                Some((qc, next)) => {
                    proof {
                        assert(full.skip(i as int)[0] == *qc);
                    }
                    if Self::contains_u64(known, qc.value.round.0 as u64) {
                        proof {
                            assert(Self::spec_chain_until(full.skip(i as int), known@)
                                =~= Seq::<QuorumCertificate>::empty());
                            assert(cut =~= full.take(i as int));
                        }
                        break ;
                    }
                    let copy = Self::copy_qc(qc);
                    proof {
                        assert(self.qc_at(cur) == Some(*qc));
                        lemma_lookup_index(self.spec_qcs(), cur);
                        let w = choose|w: int|
                            0 <= w < self.spec_qcs().len() && (#[trigger] self.spec_qcs()[w]).0
                                == cur && self.spec_qcs()[w].1 == self.qc_at(cur).unwrap();
                        assert(Self::spec_qc_eq(self.spec_qcs()[w].1, copy));
                        assert(full.skip(i as int).skip(1) =~= full.skip(i + 1));
                        assert(Self::spec_chain_until(full.skip(i as int), known@) == seq![
                            full[i as int],
                        ] + Self::spec_chain_until(full.skip(i + 1), known@));
                        assert(full.take(i + 1) =~= full.take(i as int).push(full[i as int]));
                        assert(cut =~= full.take(i + 1) + Self::spec_chain_until(
                            full.skip(i + 1),
                            known@,
                        ));
                        assert(cut[i as int] == full[i as int]) by {
                            assert(Self::spec_chain_until(full.skip(i as int), known@).len() >= 1);
                        }
                    }
                    result.push(copy);
                    cur = next;
                    i = i + 1;
                },
            }
        }
        result
    }

    /// Whether `x` occurs in `v`.
    fn contains_u64(v: &Vec<u64>, x: u64) -> (r: bool)
        ensures
            r == v@.contains(x),
    {
        let n = v.len();
        let mut i: usize = 0;
        while i < n
            invariant
                i <= n,
                n == v@.len(),
                forall|k: int| 0 <= k < i ==> v@[k] != x,
            decreases n - i,
        {
            if v[i] == x {
                proof {
                    assert(v@.contains(x));
                }
                return true;
            }
            i = i + 1;
        }
        proof {
            assert(!v@.contains(x)) by {
                if v@.contains(x) {
                    let k = choose|k: int| 0 <= k < v@.len() && v@[k] == x;
                }
            }
        }
        false
    }

    /// Every certificate of `rs` carries the content of one of `v1` or
    /// `v2`.
    pub open spec fn spec_covered(
        rs: Seq<QuorumCertificate>,
        v1: Seq<QuorumCertificate>,
        v2: Seq<QuorumCertificate>,
    ) -> bool {
        forall|i: int|
            0 <= i < rs.len() ==> exists|j: int|
                (0 <= j < v1.len() && Self::spec_qc_eq(#[trigger] rs[i], v1[j])) || (0 <= j
                    < v2.len() && Self::spec_qc_eq(rs[i], v2[j]))
    }

    /// Every record of `rs` comes from this store, and none is a vote.
    pub open spec fn spec_records_from_store(self, rs: Seq<Record>) -> bool {
        forall|i: int|
            0 <= i < rs.len() ==> self.spec_record_from_store(#[trigger] rs[i]) && !(rs[i] is Vote)
    }

    /// Pushing a covered certificate keeps the merge output covered.
    proof fn lemma_push_covered(
        v1: Seq<QuorumCertificate>,
        v2: Seq<QuorumCertificate>,
        rs: Seq<QuorumCertificate>,
        c: QuorumCertificate,
    )
        requires
            Self::spec_covered(rs, v1, v2),
            exists|j: int|
                (0 <= j < v1.len() && Self::spec_qc_eq(c, v1[j])) || (0 <= j < v2.len()
                    && Self::spec_qc_eq(c, v2[j])),
        ensures
            Self::spec_covered(rs.push(c), v1, v2),
    {
        assert forall|i: int| 0 <= i < rs.push(c).len() implies exists|j: int|
            (0 <= j < v1.len() && Self::spec_qc_eq(#[trigger] rs.push(c)[i], v1[j])) || (0 <= j
                < v2.len() && Self::spec_qc_eq(rs.push(c)[i], v2[j])) by {
            if i < rs.len() {
                assert(rs.push(c)[i] == rs[i]);
            } else {
                assert(rs.push(c)[i] == c);
            }
        }
    }

    /// Pushing a record from the store keeps the output from the store and
    /// free of votes.
    proof fn lemma_push_from_store(self, rs: Seq<Record>, c: Record)
        requires
            self.spec_records_from_store(rs),
            self.spec_record_from_store(c),
            !(c is Vote),
        ensures
            self.spec_records_from_store(rs.push(c)),
    {
        assert forall|i: int| 0 <= i < rs.push(c).len() implies self.spec_record_from_store(
            #[trigger] rs.push(c)[i],
        ) && !(rs.push(c)[i] is Vote) by {
            if i < rs.len() {
                assert(rs.push(c)[i] == rs[i]);
            } else {
                assert(rs.push(c)[i] == c);
            }
        }
    }

    /// Same-content inputs merge to same-content outputs.
    proof fn lemma_merge_congruent(
        a1: Seq<QuorumCertificate>,
        a2: Seq<QuorumCertificate>,
        b1: Seq<QuorumCertificate>,
        b2: Seq<QuorumCertificate>,
    )
        requires
            a1.len() == b1.len(),
            a2.len() == b2.len(),
            forall|i: int| 0 <= i < a1.len() ==> Self::spec_qc_eq(#[trigger] a1[i], b1[i]),
            forall|i: int| 0 <= i < a2.len() ==> Self::spec_qc_eq(#[trigger] a2[i], b2[i]),
        ensures
            Self::spec_merge_qcs(a1, a2).len() == Self::spec_merge_qcs(b1, b2).len(),
            forall|i: int|
                0 <= i < Self::spec_merge_qcs(a1, a2).len() ==> Self::spec_qc_eq(
                    #[trigger] Self::spec_merge_qcs(a1, a2)[i],
                    Self::spec_merge_qcs(b1, b2)[i],
                ),
        decreases a1.len() + a2.len(),
    {
        if a1.len() == 0 {
        } else if a2.len() == 0 {
        } else {
            assert(Self::spec_qc_eq(a1[0], b1[0]));
            assert(Self::spec_qc_eq(a2[0], b2[0]));
            assert(forall|i: int|
                0 <= i < a1.skip(1).len() ==> #[trigger] a1.skip(1)[i] == a1[i + 1]
                    && b1.skip(1)[i] == b1[i + 1]);
            assert(forall|i: int|
                0 <= i < a2.skip(1).len() ==> #[trigger] a2.skip(1)[i] == a2[i + 1]
                    && b2.skip(1)[i] == b2[i + 1]);
            if a1[0].value.round.0 > a2[0].value.round.0 {
                Self::lemma_merge_congruent(a1.skip(1), a2, b1.skip(1), b2);
            } else if a1[0].value.round.0 < a2[0].value.round.0 {
                Self::lemma_merge_congruent(a1, a2.skip(1), b1, b2.skip(1));
            } else {
                assert(Self::spec_qc_eq(a1[0], a2[0]) == Self::spec_qc_eq(b1[0], b2[0]));
                Self::lemma_merge_congruent(a1.skip(1), a2.skip(1), b1.skip(1), b2.skip(1));
            }
        }
    }

    /// Merge two chains of certificates by descending round, keeping a
    /// single copy of entries present in both.
    fn merge_qcs_desc(v1: Vec<QuorumCertificate>, v2: Vec<QuorumCertificate>) -> (r: Vec<
        QuorumCertificate,
    >)
        ensures
            Self::spec_covered(r@, v1@, v2@),
            r@.len() == Self::spec_merge_qcs(v1@, v2@).len(),
            forall|i: int|
                0 <= i < r@.len() ==> Self::spec_qc_eq(
                    #[trigger] r@[i],
                    Self::spec_merge_qcs(v1@, v2@)[i],
                ),
    {
        let ghost m = Self::spec_merge_qcs(v1@, v2@);
        let mut result: Vec<QuorumCertificate> = Vec::new();
        let ghost mut done: Seq<QuorumCertificate> = Seq::empty();
        let mut i1: usize = 0;
        let mut i2: usize = 0;
        proof {
            assert(v1@.skip(0) =~= v1@);
            assert(v2@.skip(0) =~= v2@);
            assert(m =~= done + Self::spec_merge_qcs(v1@.skip(0), v2@.skip(0)));
        }
        while i1 < v1.len() && i2 < v2.len()
            invariant
                i1 <= v1@.len(),
                i2 <= v2@.len(),
                m == Self::spec_merge_qcs(v1@, v2@),
                m == done + Self::spec_merge_qcs(v1@.skip(i1 as int), v2@.skip(i2 as int)),
                result@.len() == done.len(),
                forall|k: int|
                    0 <= k < result@.len() ==> Self::spec_qc_eq(#[trigger] result@[k], done[k]),
                Self::spec_covered(result@, v1@, v2@),
            decreases v1@.len() - i1 + v2@.len() - i2,
        {
            let ghost s1 = v1@.skip(i1 as int);
            let ghost s2 = v2@.skip(i2 as int);
            proof {
                assert(s1[0] == v1@[i1 as int]);
                assert(s2[0] == v2@[i2 as int]);
            }
            let r1 = v1[i1].value.round.0;
            let r2 = v2[i2].value.round.0;
            if r1 > r2 {
                let c = Self::copy_qc_at(&v1, i1);
                proof {
                    assert(0 <= i1 < v1@.len() && Self::spec_qc_eq(c, v1@[i1 as int]));
                    Self::lemma_push_covered(v1@, v2@, result@, c);
                    assert(s1.skip(1) =~= v1@.skip(i1 + 1));
                    assert(m =~= done.push(s1[0]) + Self::spec_merge_qcs(
                        v1@.skip(i1 + 1),
                        v2@.skip(i2 as int),
                    ));
                    done = done.push(s1[0]);
                }
                result.push(c);
                i1 = i1 + 1;
            } else if r1 < r2 {
                let c = Self::copy_qc_at(&v2, i2);
                proof {
                    assert(0 <= i2 < v2@.len() && Self::spec_qc_eq(c, v2@[i2 as int]));
                    Self::lemma_push_covered(v1@, v2@, result@, c);
                    assert(s2.skip(1) =~= v2@.skip(i2 + 1));
                    assert(m =~= done.push(s2[0]) + Self::spec_merge_qcs(
                        v1@.skip(i1 as int),
                        v2@.skip(i2 + 1),
                    ));
                    done = done.push(s2[0]);
                }
                result.push(c);
                i2 = i2 + 1;
            } else {
                let c = Self::copy_qc_at(&v1, i1);
                proof {
                    assert(0 <= i1 < v1@.len() && Self::spec_qc_eq(c, v1@[i1 as int]));
                    Self::lemma_push_covered(v1@, v2@, result@, c);
                    assert(s1.skip(1) =~= v1@.skip(i1 + 1));
                    assert(s2.skip(1) =~= v2@.skip(i2 + 1));
                }
                if Self::qc_eq(&v1[i1], &v2[i2]) {
                    proof {
                        assert(m =~= done.push(s1[0]) + Self::spec_merge_qcs(
                            v1@.skip(i1 + 1),
                            v2@.skip(i2 + 1),
                        ));
                        done = done.push(s1[0]);
                    }
                    result.push(c);
                } else {
                    let c2 = Self::copy_qc_at(&v2, i2);
                    proof {
                        assert(m =~= done.push(s1[0]).push(s2[0]) + Self::spec_merge_qcs(
                            v1@.skip(i1 + 1),
                            v2@.skip(i2 + 1),
                        ));
                        done = done.push(s1[0]);
                    }
                    result.push(c);
                    proof {
                        assert(0 <= i2 < v2@.len() && Self::spec_qc_eq(c2, v2@[i2 as int]));
                        Self::lemma_push_covered(v1@, v2@, result@, c2);
                        done = done.push(s2[0]);
                    }
                    result.push(c2);
                }
                i1 = i1 + 1;
                i2 = i2 + 1;
            }
        }
        while i1 < v1.len()
            invariant
                i1 <= v1@.len(),
                i2 <= v2@.len(),
                i2 == v2@.len() || i1 == v1@.len(),
                m == Self::spec_merge_qcs(v1@, v2@),
                m == done + Self::spec_merge_qcs(v1@.skip(i1 as int), v2@.skip(i2 as int)),
                result@.len() == done.len(),
                forall|k: int|
                    0 <= k < result@.len() ==> Self::spec_qc_eq(#[trigger] result@[k], done[k]),
                Self::spec_covered(result@, v1@, v2@),
            decreases v1@.len() - i1,
        {
            let ghost s1 = v1@.skip(i1 as int);
            proof {
                assert(s1[0] == v1@[i1 as int]);
                assert(v2@.skip(i2 as int).len() == 0);
            }
            let c = Self::copy_qc_at(&v1, i1);
            proof {
                assert(0 <= i1 < v1@.len() && Self::spec_qc_eq(c, v1@[i1 as int]));
                Self::lemma_push_covered(v1@, v2@, result@, c);
                assert(s1.skip(1) =~= v1@.skip(i1 + 1));
                assert(Self::spec_merge_qcs(s1, v2@.skip(i2 as int)) == seq![s1[0]]
                    + Self::spec_merge_qcs(s1.skip(1), v2@.skip(i2 as int)));
                assert(m =~= done.push(s1[0]) + Self::spec_merge_qcs(
                    v1@.skip(i1 + 1),
                    v2@.skip(i2 as int),
                ));
                done = done.push(s1[0]);
            }
            result.push(c);
            i1 = i1 + 1;
        }
        while i2 < v2.len()
            invariant
                i1 == v1@.len(),
                i2 <= v2@.len(),
                m == Self::spec_merge_qcs(v1@, v2@),
                m == done + Self::spec_merge_qcs(v1@.skip(i1 as int), v2@.skip(i2 as int)),
                result@.len() == done.len(),
                forall|k: int|
                    0 <= k < result@.len() ==> Self::spec_qc_eq(#[trigger] result@[k], done[k]),
                Self::spec_covered(result@, v1@, v2@),
            decreases v2@.len() - i2,
        {
            let ghost s2 = v2@.skip(i2 as int);
            proof {
                assert(s2[0] == v2@[i2 as int]);
                assert(v1@.skip(i1 as int).len() == 0);
            }
            let c = Self::copy_qc_at(&v2, i2);
            proof {
                assert(0 <= i2 < v2@.len() && Self::spec_qc_eq(c, v2@[i2 as int]));
                Self::lemma_push_covered(v1@, v2@, result@, c);
                assert(s2.skip(1) =~= v2@.skip(i2 + 1));
                assert(m =~= done.push(s2[0]) + Self::spec_merge_qcs(
                    v1@.skip(i1 as int),
                    v2@.skip(i2 + 1),
                ));
                done = done.push(s2[0]);
            }
            result.push(c);
            i2 = i2 + 1;
        }
        proof {
            assert(v1@.skip(i1 as int).len() == 0);
            assert(v2@.skip(i2 as int).len() == 0);
            assert(Self::spec_merge_qcs(v1@.skip(i1 as int), v2@.skip(i2 as int)).len() == 0);
            assert(m =~= done);
        }
        result
    }

    /// Copy the certificate at one position.
    fn copy_qc_at(v: &Vec<QuorumCertificate>, i: usize) -> (r: QuorumCertificate)
        requires
            i < v@.len(),
        ensures
            Self::spec_qc_eq(r, v@[i as int]),
    {
        Self::copy_qc(&v[i])
    }

    /// Whether two certificates carry the same content.
    fn qc_eq(a: &QuorumCertificate, b: &QuorumCertificate) -> (r: bool)
        ensures
            r == Self::spec_qc_eq(*a, *b),
    {
        if a.value.epoch_id.0 != b.value.epoch_id.0 || a.value.round.0 != b.value.round.0
            || a.value.certified_block_hash.0 != b.value.certified_block_hash.0 || a.value.state.0
            != b.value.state.0 || a.value.author.0 != b.value.author.0 || a.signature.0
            != b.signature.0 || a.signature.1 != b.signature.1 {
            proof {
                assert(a.value.epoch_id == EpochId(a.value.epoch_id.0));
                assert(b.value.epoch_id == EpochId(b.value.epoch_id.0));
                assert(a.value.round == Round(a.value.round.0));
                assert(b.value.round == Round(b.value.round.0));
                assert(a.value.certified_block_hash == BlockHash(a.value.certified_block_hash.0));
                assert(b.value.certified_block_hash == BlockHash(b.value.certified_block_hash.0));
                assert(a.value.state == State(a.value.state.0));
                assert(b.value.state == State(b.value.state.0));
                assert(a.value.author == Author(a.value.author.0));
                assert(b.value.author == Author(b.value.author.0));
                assert(a.signature == Signature(a.signature.0, a.signature.1));
                assert(b.signature == Signature(b.signature.0, b.signature.1));
            }
            return false;
        }
        if !opt_state_eq(&a.value.committed_state, &b.value.committed_state) {
            return false;
        }
        if a.value.votes.len() != b.value.votes.len() {
            return false;
        }
        let n = a.value.votes.len();
        let mut i: usize = 0;
        while i < n
            invariant
                i <= n,
                n == a.value.votes@.len(),
                n == b.value.votes@.len(),
                forall|k: int| 0 <= k < i ==> a.value.votes@[k] == b.value.votes@[k],
            decreases n - i,
        {
            let (a1, s1) = a.value.votes[i];
            let (a2, s2) = b.value.votes[i];
            if a1.0 != a2.0 || s1.0 != s2.0 || s1.1 != s2.1 {
                proof {
                    assert(a1 == Author(a1.0));
                    assert(a2 == Author(a2.0));
                    assert(s1 == Signature(s1.0, s1.1));
                    assert(s2 == Signature(s2.0, s2.1));
                }
                return false;
            }
            i = i + 1;
        }
        proof {
            assert(a.value.votes@ =~= b.value.votes@);
            assert(a.value.epoch_id == EpochId(a.value.epoch_id.0));
            assert(b.value.epoch_id == EpochId(b.value.epoch_id.0));
            assert(a.value.round == Round(a.value.round.0));
            assert(b.value.round == Round(b.value.round.0));
            assert(a.value.certified_block_hash == BlockHash(a.value.certified_block_hash.0));
            assert(b.value.certified_block_hash == BlockHash(b.value.certified_block_hash.0));
            assert(a.value.state == State(a.value.state.0));
            assert(b.value.state == State(b.value.state.0));
            assert(a.value.author == Author(a.value.author.0));
            assert(b.value.author == Author(b.value.author.0));
            assert(a.signature == Signature(a.signature.0, a.signature.1));
            assert(b.signature == Signature(b.signature.0, b.signature.1));
        }
        true
    }

    /// Append the wire encoding of this store.
    pub fn encode(&self, out: &mut Vec<u8>) {
        crate::codec::encode_usize(out, self.epoch_id.0);
        self.configuration.encode(out);
        crate::codec::encode_u64(out, self.initial_hash.0);
        crate::codec::encode_u64(out, self.initial_state.0);
        Self::encode_block_map(out, &self.blocks);
        Self::encode_qc_map(out, &self.quorum_certificates);
        match self.current_proposed_block {
            None => crate::codec::encode_u64(out, 0),
            Some(h) => {
                crate::codec::encode_u64(out, 1);
                crate::codec::encode_u64(out, h.0);
            },
        }
        crate::codec::encode_usize(out, self.highest_quorum_certificate_round.0);
        crate::codec::encode_u64(out, self.highest_quorum_certificate_hash.0);
        crate::codec::encode_usize(out, self.highest_timeout_certificate_round.0);
        crate::codec::encode_usize(out, self.current_round.0);
        crate::codec::encode_usize(out, self.highest_committed_round.0);
        match self.highest_commit_certificate_hash {
            None => crate::codec::encode_u64(out, 0),
            Some(h) => {
                crate::codec::encode_u64(out, 1);
                crate::codec::encode_u64(out, h.0);
            },
        }
        match &self.highest_timeout_certificate {
            None => crate::codec::encode_u64(out, 0),
            Some(l) => {
                crate::codec::encode_u64(out, 1);
                crate::codec::encode_usize(out, l.len());
                let n = l.len();
                let mut i: usize = 0;
                while i < n
                    invariant
                        i <= n,
                        n == l@.len(),
                    decreases n - i,
                {
                    crate::record::encode_record(out, &Record::Timeout(l[i]));
                    i = i + 1;
                }
            },
        }
        Self::encode_timeout_map(out, &self.current_timeouts);
        Self::encode_vote_map(out, &self.current_votes);
        crate::codec::encode_usize(out, self.current_timeouts_weight);
        match &self.current_election {
            ElectionState::Ongoing { ballot } => {
                crate::codec::encode_u64(out, 0);
                crate::codec::encode_usize(out, ballot.len());
                let n = ballot.len();
                let mut i: usize = 0;
                while i < n
                    invariant
                        i <= n,
                        n == ballot@.len(),
                    decreases n - i,
                {
                    let (h, st, w) = ballot[i];
                    crate::codec::encode_u64(out, h.0);
                    crate::codec::encode_u64(out, st.0);
                    crate::codec::encode_usize(out, w);
                    i = i + 1;
                }
            },
            ElectionState::Won { block_hash, state } => {
                crate::codec::encode_u64(out, 1);
                crate::codec::encode_u64(out, block_hash.0);
                crate::codec::encode_u64(out, state.0);
            },
            ElectionState::Closed => {
                crate::codec::encode_u64(out, 2);
            },
        }
    }

    fn encode_block_map(out: &mut Vec<u8>, m: &KeyedVec<Block>) {
        crate::codec::encode_usize(out, m.len());
        let n = m.len();
        let mut i: usize = 0;
        while i < n
            invariant
                i <= n,
                n == m.entries_seq().len(),
            decreases n - i,
        {
            let e = m.entry_at(i);
            crate::codec::encode_u64(out, e.0);
            crate::record::encode_record(out, &Record::Block(e.1));
            i = i + 1;
        }
    }

    fn encode_qc_map(out: &mut Vec<u8>, m: &KeyedVec<QuorumCertificate>) {
        crate::codec::encode_usize(out, m.len());
        let n = m.len();
        let mut i: usize = 0;
        while i < n
            invariant
                i <= n,
                n == m.entries_seq().len(),
            decreases n - i,
        {
            let e = m.entry_at(i);
            crate::codec::encode_u64(out, e.0);
            let copy = Self::copy_qc(&e.1);
            crate::record::encode_record(out, &Record::QuorumCertificate(copy));
            i = i + 1;
        }
    }

    fn encode_timeout_map(out: &mut Vec<u8>, m: &KeyedVec<Timeout>) {
        crate::codec::encode_usize(out, m.len());
        let n = m.len();
        let mut i: usize = 0;
        while i < n
            invariant
                i <= n,
                n == m.entries_seq().len(),
            decreases n - i,
        {
            let e = m.entry_at(i);
            crate::codec::encode_u64(out, e.0);
            crate::record::encode_record(out, &Record::Timeout(e.1));
            i = i + 1;
        }
    }

    fn encode_vote_map(out: &mut Vec<u8>, m: &KeyedVec<Vote>) {
        crate::codec::encode_usize(out, m.len());
        let n = m.len();
        let mut i: usize = 0;
        while i < n
            invariant
                i <= n,
                n == m.entries_seq().len(),
            decreases n - i,
        {
            let e = m.entry_at(i);
            crate::codec::encode_u64(out, e.0);
            crate::record::encode_record(out, &Record::Vote(e.1));
            i = i + 1;
        }
    }

    /// Read back a store. The decoded value carries whatever the bytes
    /// said; callers validate it before relying on it.
    pub fn decode(bytes: &Vec<u8>, pos: usize) -> (r: Option<(RecordStoreState, usize)>) {
        let (epoch, p) = match crate::codec::decode_usize(bytes, pos) {
            Some(x) => x,
            None => {
                return None;
            },
        };
        let (configuration, p) = match EpochConfiguration::decode(bytes, p) {
            Some(x) => x,
            None => {
                return None;
            },
        };
        let (ih, p) = match crate::codec::decode_u64(bytes, p) {
            Some(x) => x,
            None => {
                return None;
            },
        };
        let (ist, p) = match crate::codec::decode_u64(bytes, p) {
            Some(x) => x,
            None => {
                return None;
            },
        };
        let (blocks, p) = match Self::decode_block_map(bytes, p) {
            Some(x) => x,
            None => {
                return None;
            },
        };
        let (quorum_certificates, p) = match Self::decode_qc_map(bytes, p) {
            Some(x) => x,
            None => {
                return None;
            },
        };
        let (cpb_tag, p) = match crate::codec::decode_u64(bytes, p) {
            Some(x) => x,
            None => {
                return None;
            },
        };
        let (current_proposed_block, p) = if cpb_tag == 1 {
            match crate::codec::decode_u64(bytes, p) {
                Some((h, p2)) => (Some(BlockHash(h)), p2),
                None => {
                    return None;
                },
            }
        } else {
            (None, p)
        };
        let (hqr, p) = match crate::codec::decode_usize(bytes, p) {
            Some(x) => x,
            None => {
                return None;
            },
        };
        let (hqh, p) = match crate::codec::decode_u64(bytes, p) {
            Some(x) => x,
            None => {
                return None;
            },
        };
        let (htr, p) = match crate::codec::decode_usize(bytes, p) {
            Some(x) => x,
            None => {
                return None;
            },
        };
        let (cr, p) = match crate::codec::decode_usize(bytes, p) {
            Some(x) => x,
            None => {
                return None;
            },
        };
        let (hcr, p) = match crate::codec::decode_usize(bytes, p) {
            Some(x) => x,
            None => {
                return None;
            },
        };
        let (hcc_tag, p) = match crate::codec::decode_u64(bytes, p) {
            Some(x) => x,
            None => {
                return None;
            },
        };
        let (highest_commit_certificate_hash, p) = if hcc_tag == 1 {
            match crate::codec::decode_u64(bytes, p) {
                Some((h, p2)) => (Some(QuorumCertificateHash(h)), p2),
                None => {
                    return None;
                },
            }
        } else {
            (None, p)
        };
        let (htc_tag, p) = match crate::codec::decode_u64(bytes, p) {
            Some(x) => x,
            None => {
                return None;
            },
        };
        let (highest_timeout_certificate, p) = if htc_tag == 1 {
            let (n, mut p2) = match crate::codec::decode_usize(bytes, p) {
                Some(x) => x,
                None => {
                    return None;
                },
            };
            let mut l: Vec<Timeout> = Vec::new();
            let mut i: usize = 0;
            let mut failed = false;
            while i < n
                invariant
                    i <= n,
                decreases n - i,
            {
                match crate::record::decode_record(bytes, p2) {
                    Some((Record::Timeout(t), q)) => {
                        l.push(t);
                        p2 = q;
                    },
                    _ => {
                        failed = true;
                        i = n;
                        continue ;
                    },
                }
                i = i + 1;
            }
            if failed {
                return None;
            }
            (Some(l), p2)
        } else {
            (None, p)
        };
        let (current_timeouts, p) = match Self::decode_timeout_map(bytes, p) {
            Some(x) => x,
            None => {
                return None;
            },
        };
        let (current_votes, p) = match Self::decode_vote_map(bytes, p) {
            Some(x) => x,
            None => {
                return None;
            },
        };
        let (current_timeouts_weight, p) = match crate::codec::decode_usize(bytes, p) {
            Some(x) => x,
            None => {
                return None;
            },
        };
        let (etag, p) = match crate::codec::decode_u64(bytes, p) {
            Some(x) => x,
            None => {
                return None;
            },
        };
        let (current_election, p) = if etag == 0 {
            let (n, mut p2) = match crate::codec::decode_usize(bytes, p) {
                Some(x) => x,
                None => {
                    return None;
                },
            };
            let mut ballot: Vec<(BlockHash, State, usize)> = Vec::new();
            let mut i: usize = 0;
            let mut failed = false;
            while i < n
                invariant
                    i <= n,
                decreases n - i,
            {
                let (h, q1) = match crate::codec::decode_u64(bytes, p2) {
                    Some(x) => x,
                    None => {
                        failed = true;
                        i = n;
                        continue ;
                    },
                };
                let (st, q2) = match crate::codec::decode_u64(bytes, q1) {
                    Some(x) => x,
                    None => {
                        failed = true;
                        i = n;
                        continue ;
                    },
                };
                let (w, q3) = match crate::codec::decode_usize(bytes, q2) {
                    Some(x) => x,
                    None => {
                        failed = true;
                        i = n;
                        continue ;
                    },
                };
                ballot.push((BlockHash(h), State(st), w));
                p2 = q3;
                i = i + 1;
            }
            if failed {
                return None;
            }
            (ElectionState::Ongoing { ballot }, p2)
        } else if etag == 1 {
            let (h, q1) = match crate::codec::decode_u64(bytes, p) {
                Some(x) => x,
                None => {
                    return None;
                },
            };
            let (st, q2) = match crate::codec::decode_u64(bytes, q1) {
                Some(x) => x,
                None => {
                    return None;
                },
            };
            (ElectionState::Won { block_hash: BlockHash(h), state: State(st) }, q2)
        } else if etag == 2 {
            (ElectionState::Closed, p)
        } else {
            return None;
        };
        Some(
            (
                RecordStoreState {
                    epoch_id: EpochId(epoch),
                    configuration,
                    initial_hash: QuorumCertificateHash(ih),
                    initial_state: State(ist),
                    blocks,
                    quorum_certificates,
                    current_proposed_block,
                    highest_quorum_certificate_round: Round(hqr),
                    highest_quorum_certificate_hash: QuorumCertificateHash(hqh),
                    highest_timeout_certificate_round: Round(htr),
                    current_round: Round(cr),
                    highest_committed_round: Round(hcr),
                    highest_commit_certificate_hash,
                    highest_timeout_certificate,
                    current_timeouts,
                    current_votes,
                    current_timeouts_weight,
                    current_election,
                },
                p,
            ),
        )
    }

    fn decode_block_map(bytes: &Vec<u8>, pos: usize) -> (r: Option<(KeyedVec<Block>, usize)>) {
        let (n, mut p) = match crate::codec::decode_usize(bytes, pos) {
            Some(x) => x,
            None => {
                return None;
            },
        };
        let mut m: KeyedVec<Block> = KeyedVec::new();
        let mut i: usize = 0;
        while i < n
            invariant
                i <= n,
            decreases n - i,
        {
            let (k, q1) = match crate::codec::decode_u64(bytes, p) {
                Some(x) => x,
                None => {
                    return None;
                },
            };
            match crate::record::decode_record(bytes, q1) {
                Some((Record::Block(b), q2)) => {
                    m.push_entry(k, b);
                    p = q2;
                },
                _ => {
                    return None;
                },
            }
            i = i + 1;
        }
        Some((m, p))
    }

    fn decode_qc_map(bytes: &Vec<u8>, pos: usize) -> (r: Option<
        (KeyedVec<QuorumCertificate>, usize),
    >) {
        let (n, mut p) = match crate::codec::decode_usize(bytes, pos) {
            Some(x) => x,
            None => {
                return None;
            },
        };
        let mut m: KeyedVec<QuorumCertificate> = KeyedVec::new();
        let mut i: usize = 0;
        while i < n
            invariant
                i <= n,
            decreases n - i,
        {
            let (k, q1) = match crate::codec::decode_u64(bytes, p) {
                Some(x) => x,
                None => {
                    return None;
                },
            };
            match crate::record::decode_record(bytes, q1) {
                Some((Record::QuorumCertificate(qc), q2)) => {
                    m.push_entry(k, qc);
                    p = q2;
                },
                _ => {
                    return None;
                },
            }
            i = i + 1;
        }
        Some((m, p))
    }

    fn decode_timeout_map(bytes: &Vec<u8>, pos: usize) -> (r: Option<(KeyedVec<Timeout>, usize)>) {
        let (n, mut p) = match crate::codec::decode_usize(bytes, pos) {
            Some(x) => x,
            None => {
                return None;
            },
        };
        let mut m: KeyedVec<Timeout> = KeyedVec::new();
        let mut i: usize = 0;
        while i < n
            invariant
                i <= n,
            decreases n - i,
        {
            let (k, q1) = match crate::codec::decode_u64(bytes, p) {
                Some(x) => x,
                None => {
                    return None;
                },
            };
            match crate::record::decode_record(bytes, q1) {
                Some((Record::Timeout(t), q2)) => {
                    m.push_entry(k, t);
                    p = q2;
                },
                _ => {
                    return None;
                },
            }
            i = i + 1;
        }
        Some((m, p))
    }

    fn decode_vote_map(bytes: &Vec<u8>, pos: usize) -> (r: Option<(KeyedVec<Vote>, usize)>) {
        let (n, mut p) = match crate::codec::decode_usize(bytes, pos) {
            Some(x) => x,
            None => {
                return None;
            },
        };
        let mut m: KeyedVec<Vote> = KeyedVec::new();
        let mut i: usize = 0;
        while i < n
            invariant
                i <= n,
            decreases n - i,
        {
            let (k, q1) = match crate::codec::decode_u64(bytes, p) {
                Some(x) => x,
                None => {
                    return None;
                },
            };
            match crate::record::decode_record(bytes, q1) {
                Some((Record::Vote(v), q2)) => {
                    m.push_entry(k, v);
                    p = q2;
                },
                _ => {
                    return None;
                },
            }
            i = i + 1;
        }
        Some((m, p))
    }

    /// In every well-formed store, each stored quorum certificate certifies
    /// a stored block whose round and author it repeats.
    pub proof fn lemma_stored_qc_matches_block(self, h: u64)
        requires
            self.wf(),
            self.qc_at(h) is Some,
        ensures
            self.block_at(self.qc_at(h).unwrap().value.certified_block_hash.0) is Some,
            self.block_at(self.qc_at(h).unwrap().value.certified_block_hash.0).unwrap().value.round
                == self.qc_at(h).unwrap().value.round,
            self.block_at(
                self.qc_at(h).unwrap().value.certified_block_hash.0,
            ).unwrap().value.author == self.qc_at(h).unwrap().value.author,
    {
        lemma_lookup_index(self.spec_qcs(), h);
        let i = choose|i: int|
            0 <= i < self.spec_qcs().len() && (#[trigger] self.spec_qcs()[i]).0 == h
                && self.spec_qcs()[i].1 == self.qc_at(h).unwrap();
        assert(self.spec_qcs()[i].1 == self.qc_at(h).unwrap());
    }

    /// In every well-formed store, no two votes retained at the current
    /// round share an author.
    pub proof fn lemma_one_vote_per_author(self, a: int, b: int)
        requires
            self.wf(),
            0 <= a < b < self.spec_current_votes().len(),
        ensures
            self.spec_current_votes()[a].1.value.author
                != self.spec_current_votes()[b].1.value.author,
            self.spec_current_votes()[a].1.value.round == self.spec_current_round(),
            self.spec_current_votes()[b].1.value.round == self.spec_current_round(),
    {
        assert(self.spec_current_votes()[a].0 != self.spec_current_votes()[b].0);
        assert(self.spec_current_votes()[a].0
            == self.spec_current_votes()[a].1.value.author.0 as u64);
        assert(self.spec_current_votes()[b].0
            == self.spec_current_votes()[b].1.value.author.0 as u64);
    }

    /// After a certificate commits through the 3-chain, the committed
    /// state it carries is the state of the certificate three rounds back,
    /// which is the topmost state `committed_states_after` exposes.
    pub proof fn lemma_commit_certificate_state(self, after: nat)
        requires
            self.wf(),
            self.spec_highest_commit_certificate_hash() is Some,
        ensures
            ({
                let h = self.spec_highest_commit_certificate_hash().unwrap();
                let c = self.spec_chain(h.0);
                &&& self.qc_at(h.0) is Some
                &&& c.len() >= 3
                &&& c[2].value.round == self.spec_highest_committed_round()
                &&& self.qc_at(h.0).unwrap().value.committed_state == Some(c[2].value.state)
                &&& (after < self.spec_highest_committed_round().0 ==> {
                    let cs = Self::spec_commits_above(self.spec_commit_queue(), after);
                    cs.len() >= 1 && cs[0] == (
                        self.spec_highest_committed_round(),
                        c[2].value.state,
                    )
                })
            }),
    {
        let h = self.spec_highest_commit_certificate_hash().unwrap();
        let c = self.spec_chain(h.0);
        let qc = self.qc_at(h.0).unwrap();
        // The certificate is stored, its block too, and the chain below the
        // block is the chain below the certificate without its head.
        lemma_lookup_index(self.spec_qcs(), h.0);
        let i = choose|i: int|
            0 <= i < self.spec_qcs().len() && (#[trigger] self.spec_qcs()[i]).0 == h.0
                && self.spec_qcs()[i].1 == qc;
        assert(self.spec_qcs()[i].1 == qc);
        assert(qc.value.committed_state == self.spec_vote_committed_state(
            qc.value.certified_block_hash,
        ));
        let cbh = qc.value.certified_block_hash;
        assert(self.block_at(cbh.0) is Some);
        let b = self.block_at(cbh.0).unwrap();
        assert(c == seq![qc] + self.spec_chain(b.value.previous_quorum_certificate_hash.0));
        let tail = self.spec_chain(b.value.previous_quorum_certificate_hash.0);
        assert(tail =~= c.skip(1));
        assert(b.value.round == qc.value.round);
        assert(c[0] == qc);
        assert(c[1] == tail[0]);
        assert(c[2] == tail[1]);
        // The three consecutive rounds make the commit rule fire on the
        // block, yielding the state two certificates down.
        assert(b.value.round.0 == tail[0].value.round.0 + 1);
        assert(tail[0].value.round.0 == tail[1].value.round.0 + 1);
        assert(self.spec_vote_committed_state(cbh) == Some(tail[1].value.state));
        // The commit queue starts at that same certificate.
        if after < self.spec_highest_committed_round().0 {
            let queue = self.spec_commit_queue();
            assert(queue =~= c.skip(2));
            assert(queue.len() >= 1);
            assert(queue[0] == c[2]);
            assert(Self::spec_commits_above(queue, after) == seq![
                (c[2].value.round, c[2].value.state),
            ] + Self::spec_commits_above(queue.skip(1), after));
        }
    }

    /// When no retained vote matches a pair, its tally is zero.
    proof fn lemma_tally_zero(
        cfg: Seq<(Author, usize)>,
        votes: Seq<(u64, Vote)>,
        h: BlockHash,
        st: State,
    )
        requires
            forall|i: int|
                0 <= i < votes.len() ==> !((#[trigger] votes[i]).1.value.certified_block_hash == h
                    && votes[i].1.value.state == st),
        ensures
            spec_tally(cfg, votes, h, st) == 0,
        decreases votes.len(),
    {
        if votes.len() > 0 {
            assert(forall|i: int|
                0 <= i < votes.skip(1).len() ==> #[trigger] votes.skip(1)[i] == votes[i + 1]);
            Self::lemma_tally_zero(cfg, votes.skip(1), h, st);
        }
    }
}

/// Appending a vote adds its weight to the tally of its pair and leaves
/// other tallies unchanged.
proof fn lemma_tally_snoc(
    cfg: Seq<(Author, usize)>,
    votes: Seq<(u64, Vote)>,
    e: (u64, Vote),
    h: BlockHash,
    st: State,
)
    ensures
        spec_tally(cfg, votes.push(e), h, st) == spec_tally(cfg, votes, h, st) + (
        if e.1.value.certified_block_hash == h && e.1.value.state == st {
            spec_weight(cfg, e.1.value.author)
        } else {
            0
        }),
    decreases votes.len(),
{
    if votes.len() == 0 {
        assert(votes.push(e)[0] == e);
        assert(votes.push(e).skip(1) =~= Seq::<(u64, Vote)>::empty());
        assert(spec_tally(cfg, Seq::<(u64, Vote)>::empty(), h, st) == 0);
    } else {
        assert(votes.push(e)[0] == votes[0]);
        assert(votes.push(e).skip(1) =~= votes.skip(1).push(e));
        lemma_tally_snoc(cfg, votes.skip(1), e, h, st);
    }
}

/// A tally is bounded by the combined weight of all voters.
proof fn lemma_tally_le_count(
    cfg: Seq<(Author, usize)>,
    votes: Seq<(u64, Vote)>,
    h: BlockHash,
    st: State,
)
    ensures
        spec_tally(cfg, votes, h, st) <= spec_count(cfg, spec_vote_authors(votes)),
    decreases votes.len(),
{
    if votes.len() > 0 {
        lemma_tally_le_count(cfg, votes.skip(1), h, st);
        assert(spec_vote_authors(votes.skip(1)) =~= spec_vote_authors(votes).skip(1));
        assert(spec_vote_authors(votes)[0] == votes[0].1.value.author);
    }
}

/// Appending an author adds that author's weight to the combined weight.
proof fn lemma_count_snoc(cfg: Seq<(Author, usize)>, authors: Seq<Author>, a: Author)
    ensures
        spec_count(cfg, authors.push(a)) == spec_count(cfg, authors) + spec_weight(cfg, a),
    decreases authors.len(),
{
    if authors.len() == 0 {
        assert(authors.push(a)[0] == a);
        assert(authors.push(a).skip(1) =~= Seq::<Author>::empty());
        assert(spec_count(cfg, Seq::<Author>::empty()) == 0);
    } else {
        assert(authors.push(a)[0] == authors[0]);
        assert(authors.push(a).skip(1) =~= authors.skip(1).push(a));
        lemma_count_snoc(cfg, authors.skip(1), a);
    }
}

/// Author-keyed entries with distinct keys name distinct authors.
proof fn lemma_vote_authors_distinct(s: Seq<(u64, Vote)>)
    requires
        spec_unique_keys(s),
        forall|i: int| 0 <= i < s.len() ==> (#[trigger] s[i]).0 == s[i].1.value.author.0 as u64,
    ensures
        crate::configuration::spec_distinct(spec_vote_authors(s)),
{
    assert forall|i: int, j: int|
        0 <= i < j < s.len() implies spec_vote_authors(s)[i] != spec_vote_authors(s)[j] by {
        assert(s[i].0 != s[j].0);
        assert(spec_vote_authors(s)[i] == s[i].1.value.author);
        assert(spec_vote_authors(s)[j] == s[j].1.value.author);
    }
}

/// Author-keyed timeouts with distinct keys name distinct authors.
proof fn lemma_timeout_authors_distinct(s: Seq<(u64, Timeout)>)
    requires
        spec_unique_keys(s),
        forall|i: int| 0 <= i < s.len() ==> (#[trigger] s[i]).0 == s[i].1.value.author.0 as u64,
    ensures
        crate::configuration::spec_distinct(spec_timeout_authors(s)),
{
    assert forall|i: int, j: int|
        0 <= i < j < s.len() implies spec_timeout_authors(s)[i] != spec_timeout_authors(s)[j] by {
        assert(s[i].0 != s[j].0);
        assert(spec_timeout_authors(s)[i] == s[i].1.value.author);
        assert(spec_timeout_authors(s)[j] == s[j].1.value.author);
    }
}

/// Appending a timeout entry appends its author.
proof fn lemma_timeout_authors_snoc(s: Seq<(u64, Timeout)>, e: (u64, Timeout))
    ensures
        spec_timeout_authors(s.push(e)) == spec_timeout_authors(s).push(e.1.value.author),
{
    assert(spec_timeout_authors(s.push(e)) =~= spec_timeout_authors(s).push(e.1.value.author));
}

} // verus!
