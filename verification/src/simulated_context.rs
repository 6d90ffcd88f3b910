//! A deterministic application and cryptography for driving the consensus
//! core: commands are numbered, execution appends to a ledger, states are
//! digests of the ledger, and signatures pair the signer with the signed
//! digest.

use vstd::prelude::*;
use crate::base_types::{
    Author, Command, EpochId, NodeTime, Signature, SignatureError, State,
};
use crate::codec::{encode_i64, encode_usize, spec_i64_as_u64, spec_u64_bytes};
use crate::configuration::{spec_total, spec_unique_authors, EpochConfiguration};
use crate::hashing::{hash64_of, hash_bytes};
use crate::keyed::KeyedVec;
use crate::record::QuorumCertificate;
use crate::smr_context::SmrContext;

verus! {

/// The canonical bytes of an execution history.
pub open spec fn spec_history_bytes(h: Seq<(Command, NodeTime)>) -> Seq<u8>
    decreases h.len(),
{
    if h.len() == 0 {
        Seq::empty()
    } else {
        spec_entry_bytes(h[0]) + spec_history_bytes(h.skip(1))
    }
}

/// The canonical bytes of one executed command.
pub open spec fn spec_entry_bytes(e: (Command, NodeTime)) -> Seq<u8> {
    spec_u64_bytes(e.0.proposer.0 as u64) + spec_u64_bytes(e.0.index as u64) + spec_u64_bytes(
        spec_i64_as_u64(e.1.0),
    )
}

/// The simulated ledger: all executed commands with their execution times.
pub struct SimulatedLedgerState {
    execution_history: Vec<(Command, NodeTime)>,
}

impl SimulatedLedgerState {
    /// The executed commands, in order.
    pub closed spec fn spec_history(self) -> Seq<(Command, NodeTime)> {
        self.execution_history@
    }

    /// The empty ledger.
    pub fn new() -> (r: SimulatedLedgerState)
        ensures
            r.spec_history() == Seq::<(Command, NodeTime)>::empty(),
    {
        SimulatedLedgerState { execution_history: Vec::new() }
    }

    /// The state naming this ledger: the digest of its canonical bytes.
    pub fn key(&self) -> (r: State)
        ensures
            r == State(hash64_of(spec_history_bytes(self.spec_history()))),
    {
        let mut out: Vec<u8> = Vec::new();
        let n = self.execution_history.len();
        let mut i: usize = 0;
        proof {
            assert(self.spec_history().take(0) =~= Seq::<(Command, NodeTime)>::empty());
            assert(out@ =~= spec_history_bytes(self.spec_history().take(0)));
        }
        while i < n
            invariant
                i <= n,
                n == self.spec_history().len(),
                out@ == spec_history_bytes(self.spec_history().take(i as int)),
            decreases n - i,
        {
            let (c, t) = self.execution_history[i];
            encode_usize(&mut out, c.proposer.0);
            encode_usize(&mut out, c.index);
            encode_i64(&mut out, t.0);
            proof {
                Self::lemma_history_bytes_snoc(self.spec_history(), i as int);
                assert(out@ =~= spec_history_bytes(self.spec_history().take(i + 1)));
            }
            i = i + 1;
        }
        proof {
            assert(self.spec_history().take(n as int) =~= self.spec_history());
        }
        State(hash_bytes(out.as_slice()))
    }

    /// Encoding one more entry appends its bytes.
    proof fn lemma_history_bytes_snoc(h: Seq<(Command, NodeTime)>, i: int)
        requires
            0 <= i < h.len(),
        ensures
            spec_history_bytes(h.take(i + 1)) == spec_history_bytes(h.take(i)) + spec_entry_bytes(
                h[i],
            ),
        decreases i,
    {
        if i == 0 {
            assert(h.take(1)[0] == h[0]);
            assert(h.take(1).skip(1) =~= Seq::<(Command, NodeTime)>::empty());
            assert(h.take(0) =~= Seq::<(Command, NodeTime)>::empty());
            assert(spec_history_bytes(h.take(1)) =~= spec_history_bytes(h.take(0))
                + spec_entry_bytes(h[0]));
        } else {
            assert(h.take(i + 1)[0] == h[0]);
            assert(h.take(i)[0] == h[0]);
            assert(h.take(i + 1).skip(1) =~= h.skip(1).take(i));
            assert(h.take(i).skip(1) =~= h.skip(1).take(i - 1));
            Self::lemma_history_bytes_snoc(h.skip(1), i - 1);
            assert(h.skip(1)[i - 1] == h[i]);
        }
    }

    /// Number of executed commands.
    pub fn history_len(&self) -> (r: usize)
        ensures
            r == self.spec_history().len(),
    {
        self.execution_history.len()
    }

    /// Execute one command at one time.
    pub fn execute(&mut self, command: Command, time: NodeTime)
        ensures
            final(self).spec_history() == old(self).spec_history().push((command, time)),
    {
        self.execution_history.push((command, time));
    }

    /// Whether `other` is this ledger extended by exactly one command.
    pub fn happened_just_before(&self, other: &SimulatedLedgerState) -> (r: bool)
        ensures
            r == (self.spec_history().len() + 1 == other.spec_history().len() && forall|i: int|
                0 <= i < self.spec_history().len() ==> #[trigger] self.spec_history()[i]
                    == other.spec_history()[i]),
    {
        let n = self.execution_history.len();
        let m = other.execution_history.len();
        if n >= usize::MAX {
            proof {
                assert(other.spec_history().len() == m <= usize::MAX);
            }
            return false;
        }
        if n + 1 != m {
            return false;
        }
        let mut i: usize = 0;
        while i < n
            invariant
                i <= n,
                n == self.spec_history().len(),
                n + 1 == other.spec_history().len(),
                forall|k: int|
                    0 <= k < i ==> #[trigger] self.spec_history()[k] == other.spec_history()[k],
            decreases n - i,
        {
            let (c1, t1) = self.execution_history[i];
            let (c2, t2) = other.execution_history[i];
            if c1.proposer.0 != c2.proposer.0 || c1.index != c2.index || t1.0 != t2.0 {
                proof {
                    assert(c1 == Command { proposer: Author(c1.proposer.0), index: c1.index });
                    assert(c2 == Command { proposer: Author(c2.proposer.0), index: c2.index });
                    assert(t1 == NodeTime(t1.0));
                    assert(t2 == NodeTime(t2.0));
                    assert(self.spec_history()[i as int] != other.spec_history()[i as int]);
                }
                return false;
            }
            i = i + 1;
        }
        true
    }

    /// Copy a ledger entry by entry.
    fn copy(&self) -> (r: SimulatedLedgerState)
        ensures
            r.spec_history() == self.spec_history(),
    {
        let mut execution_history: Vec<(Command, NodeTime)> = Vec::new();
        let n = self.execution_history.len();
        let mut i: usize = 0;
        while i < n
            invariant
                i <= n,
                n == self.spec_history().len(),
                execution_history@ == self.spec_history().take(i as int),
            decreases n - i,
        {
            execution_history.push(self.execution_history[i]);
            proof {
                assert(execution_history@ =~= self.spec_history().take(i + 1));
            }
            i = i + 1;
        }
        proof {
            assert(self.spec_history().take(n as int) =~= self.spec_history());
        }
        SimulatedLedgerState { execution_history }
    }
}

/// The simulated application: a numbered command source, deterministic
/// execution, equal voting rights, and epochs that advance every fixed
/// number of commands.
pub struct SimulatedContext {
    author: Author,
    num_nodes: usize,
    max_command_per_epoch: usize,
    next_fetched_command_index: usize,
    last_committed_ledger_state: SimulatedLedgerState,
    pending_ledger_states: KeyedVec<SimulatedLedgerState>,
    delivered: Ghost<Seq<(State, bool)>>,
}

impl SimulatedContext {
    /// A context for one of `num_nodes` replicas, opening a new epoch every
    /// `max_command_per_epoch` commands.
    pub fn new(author: Author, num_nodes: usize, max_command_per_epoch: usize) -> (r:
        SimulatedContext)
        ensures
            r.author_spec() == author,
    {
        SimulatedContext {
            author,
            num_nodes,
            max_command_per_epoch,
            next_fetched_command_index: 0,
            last_committed_ledger_state: SimulatedLedgerState::new(),
            pending_ledger_states: KeyedVec::new(),
            delivered: Ghost(Seq::empty()),
        }
    }

    /// The committed commands, with their execution times.
    pub fn committed_history(&self) -> &Vec<(Command, NodeTime)> {
        &self.last_committed_ledger_state.execution_history
    }

    /// The history a state names, if this context knows it: the committed
    /// ledger when the state is its digest, otherwise the pending ledger
    /// stored under the state.
    pub closed spec fn spec_ledger_of(self, state: State) -> Option<Seq<(Command, NodeTime)>> {
        if state == State(
            hash64_of(spec_history_bytes(self.last_committed_ledger_state.spec_history())),
        ) {
            Some(self.last_committed_ledger_state.spec_history())
        } else {
            match crate::keyed::spec_lookup(self.pending_ledger_states.entries_seq(), state.0) {
                Some(l) => Some(l.spec_history()),
                None => None,
            }
        }
    }

    /// The ledger a state names, if this context knows it.
    fn get_ledger_state(&self, state: &State) -> (r: Option<&SimulatedLedgerState>)
        ensures
            match r {
                Some(l) => self.spec_ledger_of(*state) == Some(l.spec_history()),
                None => self.spec_ledger_of(*state) is None,
            },
    {
        let last_key = self.last_committed_ledger_state.key();
        proof {
            assert(*state == State(state.0));
            assert(last_key == State(last_key.0));
        }
        if state.0 == last_key.0 {
            Some(&self.last_committed_ledger_state)
        } else {
            self.pending_ledger_states.get(state.0)
        }
    }
}

impl SmrContext for SimulatedContext {
    /// The digest of canonical bytes.
    open spec fn hash_spec(data: Seq<u8>) -> u64 {
        hash64_of(data)
    }

    /// A signature checks out when it pairs the author with the digest.
    open spec fn verify_spec(author: Author, hash: u64, signature: Signature) -> bool {
        signature.0 == author.0 && signature.1 == hash
    }

    /// This context signs by pairing its identity with the digest.
    open spec fn sign_spec(author: Author, hash: u64) -> Signature {
        Signature(author.0, hash)
    }

    /// The configured identity.
    closed spec fn author_spec(&self) -> Author {
        self.author
    }

    /// The digest of the committed ledger.
    closed spec fn last_committed_state_spec(&self) -> State {
        State(hash64_of(spec_history_bytes(self.last_committed_ledger_state.spec_history())))
    }

    /// One epoch per block of `max_command_per_epoch` executed commands; an
    /// unknown state or a zero block size reads as the first epoch.
    closed spec fn read_epoch_id_spec(&self, state: State) -> EpochId {
        let n: nat = match self.spec_ledger_of(state) {
            Some(h) => h.len(),
            None => 0,
        };
        if self.max_command_per_epoch == 0 {
            EpochId(0)
        } else {
            EpochId((n / self.max_command_per_epoch as nat) as usize)
        }
    }

    /// One unit of voting weight per replica.
    closed spec fn configuration_spec(&self, state: State) -> Seq<(Author, usize)> {
        let n: int = if self.num_nodes == 0 {
            1
        } else {
            self.num_nodes as int
        };
        Seq::new(n as nat, |i: int| (Author(i as usize), 1usize))
    }

    /// The recorded delivery log.
    closed spec fn delivered_spec(&self) -> Seq<(State, bool)> {
        self.delivered@
    }

    proof fn lemma_sign_verifies(author: Author, hash: u64) {
    }

    fn hash(&self, data: &Vec<u8>) -> (r: u64) {
        hash_bytes(data.as_slice())
    }

    fn verify(&self, author: Author, hash: u64, signature: Signature) -> (r: Result<
        (),
        SignatureError,
    >) {
        signature.check(hash, author)
    }

    fn author(&self) -> (r: Author) {
        self.author
    }

    fn sign(&mut self, hash: u64) -> (r: Signature) {
        Signature::sign(hash, self.author)
    }

    fn fetch(&mut self) -> (r: Option<Command>) {
        let command = Command { proposer: self.author, index: self.next_fetched_command_index };
        if self.next_fetched_command_index < usize::MAX {
            self.next_fetched_command_index = self.next_fetched_command_index + 1;
        }
        Some(command)
    }

    fn compute(
        &mut self,
        base_state: &State,
        command: Command,
        time: NodeTime,
        previous_author: Option<Author>,
        previous_voters: Vec<Author>,
    ) -> (r: Option<State>) {
        let new_ledger_state = match self.get_ledger_state(base_state) {
            Some(ledger_state) => {
                let mut l = ledger_state.copy();
                l.execute(command, time);
                l
            },
            None => {
                return None;
            },
        };
        let new_state = new_ledger_state.key();
        if !self.pending_ledger_states.contains_key(new_state.0) {
            self.pending_ledger_states.push_entry(new_state.0, new_ledger_state);
        }
        Some(new_state)
    }

    fn commit(&mut self, state: &State, certificate: Option<&QuorumCertificate>) {
        proof {
            self.delivered = Ghost(self.delivered@.push((*state, certificate is Some)));
        }
        let ledger_state = match self.pending_ledger_states.get(state.0) {
            Some(l) => l.copy(),
            None => {
                // Unknown states are ignored; the store only commits states
                // it computed.
                return ;
            },
        };
        if self.last_committed_ledger_state.happened_just_before(&ledger_state) {
            self.last_committed_ledger_state = ledger_state;
        }
    }

    fn discard(&mut self, state: &State) {
    }

    fn last_committed_state(&self) -> (r: State) {
        self.last_committed_ledger_state.key()
    }

    fn read_epoch_id(&self, state: &State) -> (r: EpochId) {
        let num_commands = match self.get_ledger_state(state) {
            Some(l) => l.history_len(),
            None => 0,
        };
        if self.max_command_per_epoch == 0 {
            EpochId(0)
        } else {
            EpochId(num_commands / self.max_command_per_epoch)
        }
    }

    fn configuration(&self, state: &State) -> (r: EpochConfiguration) {
        // Equal voting rights; the simulation does not change them.
        let n = if self.num_nodes == 0 {
            1
        } else {
            self.num_nodes
        };
        let mut voting_rights: Vec<(Author, usize)> = Vec::new();
        let mut index: usize = 0;
        while index < n
            invariant
                index <= n,
                voting_rights@.len() == index,
                forall|i: int|
                    0 <= i < index ==> #[trigger] voting_rights@[i] == (Author(i as usize), 1usize),
            decreases n - index,
        {
            voting_rights.push((Author(index), 1));
            index = index + 1;
        }
        proof {
            assert(spec_unique_authors(voting_rights@)) by {
                assert forall|a: int, b: int|
                    0 <= a < b < voting_rights@.len() implies (#[trigger] voting_rights@[a]).0 != (
                    #[trigger] voting_rights@[b]).0 by {
                    assert(voting_rights@[a] == (Author(a as usize), 1usize));
                    assert(voting_rights@[b] == (Author(b as usize), 1usize));
                }
            }
            Self::lemma_unit_total(voting_rights@);
            assert(voting_rights@ =~= self.configuration_spec(*state));
        }
        let r = EpochConfiguration::new(voting_rights);
        proof {
            assert(r.spec_total_votes() == n as nat);
        }
        r
    }
}

impl SimulatedContext {
    /// The total weight of unit voting rights is the number of authors.
    proof fn lemma_unit_total(cfg: Seq<(Author, usize)>)
        requires
            forall|i: int| 0 <= i < cfg.len() ==> (#[trigger] cfg[i]).1 == 1usize,
        ensures
            spec_total(cfg) == cfg.len(),
        decreases cfg.len(),
    {
        if cfg.len() > 0 {
            assert(forall|i: int|
                0 <= i < cfg.skip(1).len() ==> #[trigger] cfg.skip(1)[i] == cfg[i + 1]);
            Self::lemma_unit_total(cfg.skip(1));
        }
    }
}

} // verus!
