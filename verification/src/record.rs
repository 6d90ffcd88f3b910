//! The typed, signed payloads of the protocol: blocks, votes, quorum
//! certificates and timeouts, together with their canonical byte encoding.
//!
//! Hashes and signatures are computed over the canonical bytes of the record
//! value (the signature itself excluded). Every encoding starts with a tag
//! word naming the type, so hashes of distinct types never collide; the same
//! bytes serve as the wire format, and decoding provably inverts encoding.

use vstd::prelude::*;
use crate::base_types::{
    Author, BlockHash, Command, EpochId, NodeTime, QuorumCertificateHash, Round, Signature, State,
};
use crate::codec::{
    decode_i64, decode_u64, decode_usize, encode_i64, encode_u64, encode_usize, spec_i64_as_u64,
    spec_u64_bytes,
};
use crate::smr_context::SmrContext;

verus! {

/// Tag word opening the canonical bytes of a block value.
pub const TAG_BLOCK: u64 = 1;

/// Tag word opening the canonical bytes of a vote value.
pub const TAG_VOTE: u64 = 2;

/// Tag word opening the canonical bytes of a quorum certificate value.
pub const TAG_QUORUM_CERTIFICATE: u64 = 3;

/// Tag word opening the canonical bytes of a timeout value.
pub const TAG_TIMEOUT: u64 = 4;

/// Tag word opening the canonical bytes of an epoch identifier; the genesis
/// quorum-certificate hash of an epoch is the hash of these bytes.
pub const TAG_EPOCH_ID: u64 = 5;

/// A proposed extension of the chain at a given round.
#[derive(Eq, PartialEq, Copy, Clone, Debug, Structural, Hash)]
pub struct Block_ {
    /// User-defined command to execute in the state machine.
    pub command: Command,
    /// Time proposed for command execution.
    pub time: NodeTime,
    /// Hash of the quorum certificate of the previous block.
    pub previous_quorum_certificate_hash: QuorumCertificateHash,
    /// Number used to identify repeated attempts to propose a block.
    pub round: Round,
    /// Creator of the block.
    pub author: Author,
}

/// A single vote on a proposed block and its execution state.
#[derive(Eq, PartialEq, Copy, Clone, Debug, Structural, Hash)]
pub struct Vote_ {
    /// The current epoch.
    pub epoch_id: EpochId,
    /// The round of the voted block.
    pub round: Round,
    /// Hash of the certified block.
    pub certified_block_hash: BlockHash,
    /// Execution state obtained by re-executing the block.
    pub state: State,
    /// Execution state of the ancestor block (if any) that will match the
    /// commit rule when a quorum certificate is formed at this round.
    pub committed_state: Option<State>,
    /// Creator of the vote.
    pub author: Author,
}

/// A quorum of votes agreeing on one block and execution state.
#[derive(Eq, PartialEq, Clone, Debug, Hash)]
pub struct QuorumCertificate_ {
    /// The current epoch.
    pub epoch_id: EpochId,
    /// The round of the certified block.
    pub round: Round,
    /// Hash of the certified block.
    pub certified_block_hash: BlockHash,
    /// Execution state.
    pub state: State,
    /// Execution state of the ancestor block (if any) that matches the commit
    /// rule thanks to this certificate.
    pub committed_state: Option<State>,
    /// A collection of votes sharing the fields above.
    pub votes: Vec<(Author, Signature)>,
    /// The leader who proposed the certified block also signs the
    /// certificate.
    pub author: Author,
}

/// A signal that a particular round of an epoch has reached a timeout.
#[derive(Eq, PartialEq, Copy, Clone, Debug, Structural, Hash)]
pub struct Timeout_ {
    /// The current epoch.
    pub epoch_id: EpochId,
    /// The round that has timed out.
    pub round: Round,
    /// Round of the highest block with a quorum certificate.
    pub highest_certified_block_round: Round,
    /// Creator of the timeout.
    pub author: Author,
}

/// A value together with its author's signature over the value's digest.
#[derive(Eq, PartialEq, Copy, Clone, Debug, Hash)]
pub struct SignedValue<T> {
    pub value: T,
    pub signature: Signature,
}

pub type Block = SignedValue<Block_>;

pub type Vote = SignedValue<Vote_>;

pub type QuorumCertificate = SignedValue<QuorumCertificate_>;

pub type Timeout = SignedValue<Timeout_>;

/// A record read from the network.
#[derive(Eq, PartialEq, Clone, Debug, Hash)]
pub enum Record {
    /// Proposed block, containing a command.
    Block(Block),
    /// A single vote on a proposed block and its execution state.
    Vote(Vote),
    /// A quorum of votes related to a given block and execution state.
    QuorumCertificate(QuorumCertificate),
    /// A signal that a particular round of an epoch has reached a timeout.
    Timeout(Timeout),
}

/// Values that carry their creator's identity.
pub trait Authored {
    /// The creator, as seen by specifications.
    spec fn spec_author(&self) -> Author;

    /// The creator of the value.
    fn author(&self) -> (r: Author)
        ensures
            r == self.spec_author(),
    ;
}

/// Values with a canonical byte encoding, suitable for hashing and signing.
pub trait Signable {
    /// The canonical bytes, as seen by specifications.
    spec fn spec_bytes(&self) -> Seq<u8>;

    /// Produce the canonical bytes.
    fn to_bytes(&self) -> (r: Vec<u8>)
        ensures
            r@ == self.spec_bytes(),
    ;
}

/// A view of a certificate as the commit claim it carries.
pub trait CommitCertificate {
    /// The state this certificate commits, if any.
    fn committed_state(&self) -> Option<&State>;
}

impl CommitCertificate for QuorumCertificate {
    fn committed_state(&self) -> Option<&State> {
        self.value.committed_state.as_ref()
    }
}

/// Canonical bytes of a command.
pub open spec fn spec_command_bytes(c: Command) -> Seq<u8> {
    spec_u64_bytes(c.proposer.0 as u64) + spec_u64_bytes(c.index as u64)
}

/// Canonical bytes of an optional state: a tag word then the payload.
pub open spec fn spec_opt_state_bytes(s: Option<State>) -> Seq<u8> {
    match s {
        None => spec_u64_bytes(0),
        Some(st) => spec_u64_bytes(1) + spec_u64_bytes(st.0),
    }
}

/// Canonical bytes of a list of votes: a length word then each author and
/// signature.
pub open spec fn spec_votes_bytes(votes: Seq<(Author, Signature)>) -> Seq<u8>
    decreases votes.len(),
{
    if votes.len() == 0 {
        Seq::empty()
    } else {
        spec_vote_entry_bytes(votes[0]) + spec_votes_bytes(votes.skip(1))
    }
}

/// Canonical bytes of one (author, signature) entry.
pub open spec fn spec_vote_entry_bytes(v: (Author, Signature)) -> Seq<u8> {
    spec_u64_bytes(v.0 .0 as u64) + spec_u64_bytes(v.1 .0 as u64) + spec_u64_bytes(v.1 .1)
}

/// Canonical bytes of a block value.
pub open spec fn spec_block_bytes(b: Block_) -> Seq<u8> {
    spec_u64_bytes(TAG_BLOCK) + spec_command_bytes(b.command) + spec_u64_bytes(
        spec_i64_as_u64(b.time.0),
    ) + spec_u64_bytes(b.previous_quorum_certificate_hash.0) + spec_u64_bytes(b.round.0 as u64)
        + spec_u64_bytes(b.author.0 as u64)
}

/// Canonical bytes of a vote value.
pub open spec fn spec_vote_bytes(v: Vote_) -> Seq<u8> {
    spec_u64_bytes(TAG_VOTE) + spec_u64_bytes(v.epoch_id.0 as u64) + spec_u64_bytes(
        v.round.0 as u64,
    ) + spec_u64_bytes(v.certified_block_hash.0) + spec_u64_bytes(v.state.0)
        + spec_opt_state_bytes(v.committed_state) + spec_u64_bytes(v.author.0 as u64)
}

/// Canonical bytes of a quorum-certificate value.
pub open spec fn spec_qc_bytes(q: QuorumCertificate_) -> Seq<u8> {
    spec_u64_bytes(TAG_QUORUM_CERTIFICATE) + spec_u64_bytes(q.epoch_id.0 as u64) + spec_u64_bytes(
        q.round.0 as u64,
    ) + spec_u64_bytes(q.certified_block_hash.0) + spec_u64_bytes(q.state.0)
        + spec_opt_state_bytes(q.committed_state) + spec_u64_bytes(q.votes@.len() as u64)
        + spec_votes_bytes(q.votes@) + spec_u64_bytes(q.author.0 as u64)
}

/// Canonical bytes of a timeout value.
pub open spec fn spec_timeout_bytes(t: Timeout_) -> Seq<u8> {
    spec_u64_bytes(TAG_TIMEOUT) + spec_u64_bytes(t.epoch_id.0 as u64) + spec_u64_bytes(
        t.round.0 as u64,
    ) + spec_u64_bytes(t.highest_certified_block_round.0 as u64) + spec_u64_bytes(t.author.0 as u64)
}

/// Canonical bytes of an epoch identifier; their hash is the epoch's genesis
/// quorum-certificate hash.
pub open spec fn spec_epoch_id_bytes(e: EpochId) -> Seq<u8> {
    spec_u64_bytes(TAG_EPOCH_ID) + spec_u64_bytes(e.0 as u64)
}

impl Signable for EpochId {
    open spec fn spec_bytes(&self) -> Seq<u8> {
        spec_epoch_id_bytes(*self)
    }

    fn to_bytes(&self) -> (r: Vec<u8>) {
        let mut out: Vec<u8> = Vec::new();
        encode_u64(&mut out, TAG_EPOCH_ID);
        encode_usize(&mut out, self.0);
        out
    }
}

impl Signable for Block_ {
    open spec fn spec_bytes(&self) -> Seq<u8> {
        spec_block_bytes(*self)
    }

    fn to_bytes(&self) -> (r: Vec<u8>) {
        let mut out: Vec<u8> = Vec::new();
        encode_u64(&mut out, TAG_BLOCK);
        encode_usize(&mut out, self.command.proposer.0);
        encode_usize(&mut out, self.command.index);
        encode_i64(&mut out, self.time.0);
        encode_u64(&mut out, self.previous_quorum_certificate_hash.0);
        encode_usize(&mut out, self.round.0);
        encode_usize(&mut out, self.author.0);
        out
    }
}

/// Append the canonical bytes of an optional state.
fn encode_opt_state(out: &mut Vec<u8>, s: &Option<State>)
    ensures
        final(out)@ == old(out)@ + spec_opt_state_bytes(*s),
{
    match s {
        None => encode_u64(out, 0),
        Some(st) => {
            encode_u64(out, 1);
            encode_u64(out, st.0);
        },
    }
}

impl Signable for Vote_ {
    open spec fn spec_bytes(&self) -> Seq<u8> {
        spec_vote_bytes(*self)
    }

    fn to_bytes(&self) -> (r: Vec<u8>) {
        let mut out: Vec<u8> = Vec::new();
        encode_u64(&mut out, TAG_VOTE);
        encode_usize(&mut out, self.epoch_id.0);
        encode_usize(&mut out, self.round.0);
        encode_u64(&mut out, self.certified_block_hash.0);
        encode_u64(&mut out, self.state.0);
        encode_opt_state(&mut out, &self.committed_state);
        encode_usize(&mut out, self.author.0);
        out
    }
}

impl Signable for QuorumCertificate_ {
    open spec fn spec_bytes(&self) -> Seq<u8> {
        spec_qc_bytes(*self)
    }

    fn to_bytes(&self) -> (r: Vec<u8>) {
        let mut out: Vec<u8> = Vec::new();
        encode_u64(&mut out, TAG_QUORUM_CERTIFICATE);
        encode_usize(&mut out, self.epoch_id.0);
        encode_usize(&mut out, self.round.0);
        encode_u64(&mut out, self.certified_block_hash.0);
        encode_u64(&mut out, self.state.0);
        encode_opt_state(&mut out, &self.committed_state);
        encode_usize(&mut out, self.votes.len());
        let ghost prefix = out@;
        let mut i: usize = 0;
        proof {
            lemma_votes_bytes_take(self.votes@, 0);
            assert(prefix + spec_votes_bytes(self.votes@.take(0)) =~= prefix);
        }
        while i < self.votes.len()
            invariant
                i <= self.votes@.len(),
                out@ == prefix + spec_votes_bytes(self.votes@.take(i as int)),
            decreases self.votes@.len() - i,
        {
            let (a, s) = self.votes[i];
            encode_usize(&mut out, a.0);
            encode_u64(&mut out, s.0 as u64);
            encode_u64(&mut out, s.1);
            proof {
                lemma_votes_bytes_take(self.votes@, i as int);
                assert(out@ =~= prefix + spec_votes_bytes(self.votes@.take(i + 1)));
            }
            i = i + 1;
        }
        encode_usize(&mut out, self.author.0);
        proof {
            assert(self.votes@.take(i as int) =~= self.votes@);
            assert(out@ =~= self.spec_bytes());
        }
        out
    }
}

/// Appending one entry extends the encoded votes by that entry's bytes.
proof fn lemma_votes_bytes_take(votes: Seq<(Author, Signature)>, i: int)
    requires
        0 <= i <= votes.len(),
    ensures
        i < votes.len() ==> spec_votes_bytes(votes.take(i + 1)) == spec_votes_bytes(votes.take(i))
            + spec_vote_entry_bytes(votes[i]),
        votes.take(0).len() == 0 && spec_votes_bytes(votes.take(0)) == Seq::<u8>::empty(),
    decreases i,
{
    assert(votes.take(0) =~= Seq::<(Author, Signature)>::empty());
    if i < votes.len() {
        lemma_votes_bytes_cat(votes.take(i + 1), i);
        assert(votes.take(i + 1).take(i) =~= votes.take(i));
        assert(votes.take(i + 1)[i] == votes[i]);
    }
}

/// The encoded bytes of a vote list split at any position.
proof fn lemma_votes_bytes_cat(votes: Seq<(Author, Signature)>, i: int)
    requires
        0 <= i < votes.len(),
        i + 1 == votes.len(),
    ensures
        spec_votes_bytes(votes) == spec_votes_bytes(votes.take(i)) + spec_vote_entry_bytes(
            votes[i],
        ),
    decreases votes.len(),
{
    if i == 0 {
        assert(votes.take(0) =~= Seq::<(Author, Signature)>::empty());
        assert(votes.skip(1) =~= Seq::<(Author, Signature)>::empty());
        assert(spec_votes_bytes(votes) == spec_vote_entry_bytes(votes[0]) + spec_votes_bytes(
            votes.skip(1),
        ));
        assert(spec_votes_bytes(votes) =~= spec_votes_bytes(votes.take(0)) + spec_vote_entry_bytes(
            votes[0],
        ));
    } else {
        lemma_votes_bytes_cat(votes.skip(1), i - 1);
        assert(votes.skip(1).take(i - 1) =~= votes.take(i).skip(1));
        assert(votes.skip(1)[i - 1] == votes[i]);
        assert(votes.take(i)[0] == votes[0]);
        assert(spec_votes_bytes(votes.take(i)) == spec_vote_entry_bytes(votes[0])
            + spec_votes_bytes(votes.take(i).skip(1)));
        assert(spec_votes_bytes(votes) =~= spec_votes_bytes(votes.take(i)) + spec_vote_entry_bytes(
            votes[i],
        ));
    }
}

impl Signable for Timeout_ {
    open spec fn spec_bytes(&self) -> Seq<u8> {
        spec_timeout_bytes(*self)
    }

    fn to_bytes(&self) -> (r: Vec<u8>) {
        let mut out: Vec<u8> = Vec::new();
        encode_u64(&mut out, TAG_TIMEOUT);
        encode_usize(&mut out, self.epoch_id.0);
        encode_usize(&mut out, self.round.0);
        encode_usize(&mut out, self.highest_certified_block_round.0);
        encode_usize(&mut out, self.author.0);
        out
    }
}

impl Authored for Block_ {
    open spec fn spec_author(&self) -> Author {
        self.author
    }

    fn author(&self) -> Author {
        self.author
    }
}

impl Authored for Vote_ {
    open spec fn spec_author(&self) -> Author {
        self.author
    }

    fn author(&self) -> Author {
        self.author
    }
}

impl Authored for QuorumCertificate_ {
    open spec fn spec_author(&self) -> Author {
        self.author
    }

    fn author(&self) -> Author {
        self.author
    }
}

impl Authored for Timeout_ {
    open spec fn spec_author(&self) -> Author {
        self.author
    }

    fn author(&self) -> Author {
        self.author
    }
}

/// Certificate values with equal fields have equal canonical bytes.
pub proof fn lemma_qc_bytes_congruent(a: QuorumCertificate_, b: QuorumCertificate_)
    requires
        a.epoch_id == b.epoch_id,
        a.round == b.round,
        a.certified_block_hash == b.certified_block_hash,
        a.state == b.state,
        a.committed_state == b.committed_state,
        a.votes@ == b.votes@,
        a.author == b.author,
    ensures
        spec_qc_bytes(a) == spec_qc_bytes(b),
{
}

impl<T: Signable + Authored> SignedValue<T> {
    /// Sign `value` as this node. The caller passes only values it authored
    /// itself.
    pub fn make<C: SmrContext>(context: &mut C, value: T) -> (r: SignedValue<T>)
        requires
            value.spec_author() == old(context).author_spec(),
        ensures
            r.value == value,
            r.signature == C::sign_spec(
                old(context).author_spec(),
                C::hash_spec(value.spec_bytes()),
            ),
            C::verify_spec(
                value.spec_author(),
                C::hash_spec(value.spec_bytes()),
                r.signature,
            ),
            final(context).author_spec() == old(context).author_spec(),
    {
        let bytes = value.to_bytes();
        let h = context.hash(&bytes);
        let signature = context.sign(h);
        proof {
            C::lemma_sign_verifies(old(context).author_spec(), C::hash_spec(value.spec_bytes()));
        }
        SignedValue { value, signature }
    }

    /// Check the signature against the value's canonical digest.
    pub fn verify<C: SmrContext>(&self, context: &C) -> (r: Result<
        (),
        crate::base_types::SignatureError,
    >)
        ensures
            r is Ok <==> C::verify_spec(
                self.value.spec_author(),
                C::hash_spec(self.value.spec_bytes()),
                self.signature,
            ),
    {
        let bytes = self.value.to_bytes();
        let h = context.hash(&bytes);
        context.verify(self.value.author(), h, self.signature)
    }
}

/// Append all of `data` to `out`.
pub fn append_bytes(out: &mut Vec<u8>, data: &Vec<u8>)
    ensures
        final(out)@ == old(out)@ + data@,
{
    let n = data.len();
    let mut i: usize = 0;
    while i < n
        invariant
            i <= n,
            n == data@.len(),
            out@ == old(out)@ + data@.take(i as int),
        decreases n - i,
    {
        out.push(data[i]);
        proof {
            assert(out@ =~= old(out)@ + data@.take(i + 1));
        }
        i = i + 1;
    }
    proof {
        assert(data@.take(n as int) =~= data@);
    }
}

/// Wire encoding of a signed record: the value's canonical bytes, which
/// start with the kind tag, then the signature.
pub fn encode_record(out: &mut Vec<u8>, r: &Record) {
    match r {
        Record::Block(b) => {
            let bytes = b.value.to_bytes();
            append_bytes(out, &bytes);
            encode_usize(out, b.signature.0);
            encode_u64(out, b.signature.1);
        },
        Record::Vote(v) => {
            let bytes = v.value.to_bytes();
            append_bytes(out, &bytes);
            encode_usize(out, v.signature.0);
            encode_u64(out, v.signature.1);
        },
        Record::QuorumCertificate(q) => {
            let bytes = q.value.to_bytes();
            append_bytes(out, &bytes);
            encode_usize(out, q.signature.0);
            encode_u64(out, q.signature.1);
        },
        Record::Timeout(t) => {
            let bytes = t.value.to_bytes();
            append_bytes(out, &bytes);
            encode_usize(out, t.signature.0);
            encode_u64(out, t.signature.1);
        },
    }
}

/// Read back an optional state.
pub fn decode_opt_state(bytes: &Vec<u8>, pos: usize) -> (r: Option<(Option<State>, usize)>) {
    let (tag, p) = match decode_u64(bytes, pos) {
        Some(x) => x,
        None => {
            return None;
        },
    };
    if tag == 0 {
        Some((None, p))
    } else if tag == 1 {
        match decode_u64(bytes, p) {
            Some((x, p2)) => Some((Some(State(x)), p2)),
            None => None,
        }
    } else {
        None
    }
}

/// Read back a block value, including its leading tag.
pub fn decode_block_value(bytes: &Vec<u8>, pos: usize) -> (r: Option<(Block_, usize)>) {
    let (tag, p) = match decode_u64(bytes, pos) {
        Some(x) => x,
        None => {
            return None;
        },
    };
    if tag != TAG_BLOCK {
        return None;
    }
    let (proposer, p) = match decode_usize(bytes, p) {
        Some(x) => x,
        None => {
            return None;
        },
    };
    let (index, p) = match decode_usize(bytes, p) {
        Some(x) => x,
        None => {
            return None;
        },
    };
    let (time, p) = match decode_i64(bytes, p) {
        Some(x) => x,
        None => {
            return None;
        },
    };
    let (prev, p) = match decode_u64(bytes, p) {
        Some(x) => x,
        None => {
            return None;
        },
    };
    let (round, p) = match decode_usize(bytes, p) {
        Some(x) => x,
        None => {
            return None;
        },
    };
    let (author, p) = match decode_usize(bytes, p) {
        Some(x) => x,
        None => {
            return None;
        },
    };
    Some(
        (
            Block_ {
                command: Command { proposer: Author(proposer), index },
                time: NodeTime(time),
                previous_quorum_certificate_hash: QuorumCertificateHash(prev),
                round: Round(round),
                author: Author(author),
            },
            p,
        ),
    )
}

/// Read back a vote value, including its leading tag.
pub fn decode_vote_value(bytes: &Vec<u8>, pos: usize) -> (r: Option<(Vote_, usize)>) {
    let (tag, p) = match decode_u64(bytes, pos) {
        Some(x) => x,
        None => {
            return None;
        },
    };
    if tag != TAG_VOTE {
        return None;
    }
    let (epoch, p) = match decode_usize(bytes, p) {
        Some(x) => x,
        None => {
            return None;
        },
    };
    let (round, p) = match decode_usize(bytes, p) {
        Some(x) => x,
        None => {
            return None;
        },
    };
    let (cbh, p) = match decode_u64(bytes, p) {
        Some(x) => x,
        None => {
            return None;
        },
    };
    let (state, p) = match decode_u64(bytes, p) {
        Some(x) => x,
        None => {
            return None;
        },
    };
    let (committed_state, p) = match decode_opt_state(bytes, p) {
        Some(x) => x,
        None => {
            return None;
        },
    };
    let (author, p) = match decode_usize(bytes, p) {
        Some(x) => x,
        None => {
            return None;
        },
    };
    Some(
        (
            Vote_ {
                epoch_id: EpochId(epoch),
                round: Round(round),
                certified_block_hash: BlockHash(cbh),
                state: State(state),
                committed_state,
                author: Author(author),
            },
            p,
        ),
    )
}

/// Read back a timeout value, including its leading tag.
pub fn decode_timeout_value(bytes: &Vec<u8>, pos: usize) -> (r: Option<(Timeout_, usize)>) {
    let (tag, p) = match decode_u64(bytes, pos) {
        Some(x) => x,
        None => {
            return None;
        },
    };
    if tag != TAG_TIMEOUT {
        return None;
    }
    let (epoch, p) = match decode_usize(bytes, p) {
        Some(x) => x,
        None => {
            return None;
        },
    };
    let (round, p) = match decode_usize(bytes, p) {
        Some(x) => x,
        None => {
            return None;
        },
    };
    let (hcbr, p) = match decode_usize(bytes, p) {
        Some(x) => x,
        None => {
            return None;
        },
    };
    let (author, p) = match decode_usize(bytes, p) {
        Some(x) => x,
        None => {
            return None;
        },
    };
    Some(
        (
            Timeout_ {
                epoch_id: EpochId(epoch),
                round: Round(round),
                highest_certified_block_round: Round(hcbr),
                author: Author(author),
            },
            p,
        ),
    )
}

/// Read back a quorum-certificate value, including its leading tag.
pub fn decode_qc_value(bytes: &Vec<u8>, pos: usize) -> (r: Option<(QuorumCertificate_, usize)>) {
    let (tag, p) = match decode_u64(bytes, pos) {
        Some(x) => x,
        None => {
            return None;
        },
    };
    if tag != TAG_QUORUM_CERTIFICATE {
        return None;
    }
    let (epoch, p) = match decode_usize(bytes, p) {
        Some(x) => x,
        None => {
            return None;
        },
    };
    let (round, p) = match decode_usize(bytes, p) {
        Some(x) => x,
        None => {
            return None;
        },
    };
    let (cbh, p) = match decode_u64(bytes, p) {
        Some(x) => x,
        None => {
            return None;
        },
    };
    let (state, p) = match decode_u64(bytes, p) {
        Some(x) => x,
        None => {
            return None;
        },
    };
    let (committed_state, p) = match decode_opt_state(bytes, p) {
        Some(x) => x,
        None => {
            return None;
        },
    };
    let (len, p) = match decode_usize(bytes, p) {
        Some(x) => x,
        None => {
            return None;
        },
    };
    let mut votes: Vec<(Author, Signature)> = Vec::new();
    let mut p2 = p;
    let mut i: usize = 0;
    while i < len
        invariant
            i <= len,
        decreases len - i,
    {
        let (va, q1) = match decode_usize(bytes, p2) {
            Some(x) => x,
            None => {
                return None;
            },
        };
        let (s0, q2) = match decode_u64(bytes, q1) {
            Some(x) => x,
            None => {
                return None;
            },
        };
        let (s1, q3) = match decode_u64(bytes, q2) {
            Some(x) => x,
            None => {
                return None;
            },
        };
        if s0 > usize::MAX as u64 {
            return None;
        }
        votes.push((Author(va), Signature(s0 as usize, s1)));
        p2 = q3;
        i = i + 1;
    }
    let (author, p3) = match decode_usize(bytes, p2) {
        Some(x) => x,
        None => {
            return None;
        },
    };
    Some(
        (
            QuorumCertificate_ {
                epoch_id: EpochId(epoch),
                round: Round(round),
                certified_block_hash: BlockHash(cbh),
                state: State(state),
                committed_state,
                votes,
                author: Author(author),
            },
            p3,
        ),
    )
}

/// Read back a signature.
pub fn decode_signature(bytes: &Vec<u8>, pos: usize) -> (r: Option<(Signature, usize)>) {
    let (s0, p) = match decode_usize(bytes, pos) {
        Some(x) => x,
        None => {
            return None;
        },
    };
    let (s1, p2) = match decode_u64(bytes, p) {
        Some(x) => x,
        None => {
            return None;
        },
    };
    Some((Signature(s0, s1), p2))
}

/// Read back a wire-encoded record.
pub fn decode_record(bytes: &Vec<u8>, pos: usize) -> (r: Option<(Record, usize)>) {
    let (tag, _) = match decode_u64(bytes, pos) {
        Some(x) => x,
        None => {
            return None;
        },
    };
    if tag == TAG_BLOCK {
        let (value, p) = match decode_block_value(bytes, pos) {
            Some(x) => x,
            None => {
                return None;
            },
        };
        match decode_signature(bytes, p) {
            Some((signature, p2)) => Some((Record::Block(SignedValue { value, signature }), p2)),
            None => None,
        }
    } else if tag == TAG_VOTE {
        let (value, p) = match decode_vote_value(bytes, pos) {
            Some(x) => x,
            None => {
                return None;
            },
        };
        match decode_signature(bytes, p) {
            Some((signature, p2)) => Some((Record::Vote(SignedValue { value, signature }), p2)),
            None => None,
        }
    } else if tag == TAG_QUORUM_CERTIFICATE {
        let (value, p) = match decode_qc_value(bytes, pos) {
            Some(x) => x,
            None => {
                return None;
            },
        };
        match decode_signature(bytes, p) {
            Some((signature, p2)) => Some(
                (Record::QuorumCertificate(SignedValue { value, signature }), p2),
            ),
            None => None,
        }
    } else if tag == TAG_TIMEOUT {
        let (value, p) = match decode_timeout_value(bytes, pos) {
            Some(x) => x,
            None => {
                return None;
            },
        };
        match decode_signature(bytes, p) {
            Some((signature, p2)) => Some((Record::Timeout(SignedValue { value, signature }), p2)),
            None => None,
        }
    } else {
        None
    }
}

} // verus!
