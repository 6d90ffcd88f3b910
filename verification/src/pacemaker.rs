//! The liveness module: it decides, from the record store and the clock,
//! what the active round is, who leads it, when to propose, when to time out
//! and when to force a data-sync query.

use vstd::prelude::*;
use crate::base_types::{Author, Duration, EpochId, NodeTime, QuorumCertificateHash, Round};
use crate::codec::{encode_u64, spec_u64_bytes};
use crate::configuration::{sample_index, spec_pick, EpochConfiguration};
use crate::hashing::{hash64_of, hash_bytes};

verus! {

/// The 64-bit seed a round hashes to; the same on every replica.
pub open spec fn spec_round_seed(round: Round) -> u64 {
    hash64_of(spec_u64_bytes(round.0 as u64))
}

/// Hash a round number to a seed for leader election.
pub fn round_seed(round: Round) -> (r: u64)
    ensures
        r == spec_round_seed(round),
{
    let mut bytes: Vec<u8> = Vec::new();
    encode_u64(&mut bytes, round.0 as u64);
    proof {
        assert(bytes@ =~= spec_u64_bytes(round.0 as u64));
    }
    hash_bytes(bytes.as_slice())
}

/// The leader of a round under a configuration: the author picked by the
/// weighted scan for the round's seed. A pure function of the two arguments.
pub open spec fn spec_leader(cfg: EpochConfiguration, round: Round) -> Author {
    spec_pick(
        cfg.spec_authors(),
        sample_index(spec_round_seed(round), cfg.spec_total_votes() as u64) as nat,
    )
}

/// `n^k` as a mathematical integer.
pub open spec fn spec_pow_nat(n: nat, k: nat) -> nat
    decreases k,
{
    if k == 0 {
        1
    } else {
        n * spec_pow_nat(n, (k - 1) as nat)
    }
}

/// Actions decided by one pacemaker update.
pub struct PacemakerUpdateActions {
    /// Whether to propose a block and on top of which certificate hash.
    pub should_propose_block: Option<QuorumCertificateHash>,
    /// Whether to create a timeout object for the given round.
    pub should_create_timeout: Option<Round>,
    /// Whether to send our records to a subset of nodes.
    pub should_send: Vec<Author>,
    /// Whether to broadcast data to all other nodes.
    pub should_broadcast: bool,
    /// Whether to request data from all other nodes.
    pub should_query_all: bool,
    /// Time at which to update the pacemaker again, at the latest.
    pub next_scheduled_update: NodeTime,
}

impl Default for PacemakerUpdateActions {
    /// No actions, and no scheduled update.
    fn default() -> (r: PacemakerUpdateActions)
        ensures
            r.should_propose_block is None,
            r.should_create_timeout is None,
            r.should_send@ == Seq::<Author>::empty(),
            !r.should_broadcast,
            !r.should_query_all,
            r.next_scheduled_update.0 == i64::MAX,
    {
        PacemakerUpdateActions {
            next_scheduled_update: NodeTime::never(),
            should_create_timeout: None,
            should_send: Vec::new(),
            should_broadcast: false,
            should_query_all: false,
            should_propose_block: None,
        }
    }
}

/// The liveness state: the active round of the active epoch, its leader,
/// when it started and how long it may last.
pub struct PacemakerState {
    /// Active epoch.
    active_epoch: EpochId,
    /// Active round.
    active_round: Round,
    /// Leader of the active round.
    active_leader: Option<Author>,
    /// Time at which we entered the round.
    active_round_start_time: NodeTime,
    /// Maximal duration of the current round.
    active_round_duration: Duration,
    /// Maximal duration of the first round after a commit rule.
    delta: Duration,
    /// Exponent to increase round durations.
    gamma: u32,
    /// Numerator of the coefficient that controls the frequency of
    /// query-all actions.
    lambda_num: u64,
    /// Denominator of that coefficient.
    lambda_den: u64,
    /// The voting rights the active leader was computed from.
    leader_config: Ghost<EpochConfiguration>,
}

impl PacemakerState {
    /// The active epoch.
    pub closed spec fn spec_active_epoch(self) -> EpochId {
        self.active_epoch
    }

    /// The active round.
    pub closed spec fn spec_active_round(self) -> Round {
        self.active_round
    }

    /// The leader of the active round, once computed.
    pub closed spec fn spec_active_leader(self) -> Option<Author> {
        self.active_leader
    }

    /// When the active round was entered.
    pub closed spec fn spec_active_round_start_time(self) -> NodeTime {
        self.active_round_start_time
    }

    /// How long the active round may last.
    pub closed spec fn spec_active_round_duration(self) -> Duration {
        self.active_round_duration
    }

    /// The configured base round duration.
    pub closed spec fn spec_delta(self) -> Duration {
        self.delta
    }

    /// The configured duration exponent.
    pub closed spec fn spec_gamma(self) -> nat {
        self.gamma as nat
    }

    /// The configured query-all coefficient, as a fraction.
    pub closed spec fn spec_lambda(self) -> (nat, nat) {
        (self.lambda_num as nat, self.lambda_den as nat)
    }

    /// The voting rights the active leader was computed from.
    pub closed spec fn spec_leader_config(self) -> EpochConfiguration {
        self.leader_config@
    }

    /// The tuning values are usable and the recorded leader is the one the
    /// recorded configuration elects for the active round.
    pub open spec fn wf(self) -> bool {
        &&& self.spec_delta().0 >= 0
        &&& self.spec_lambda().1 >= 1
        &&& match self.spec_active_leader() {
            Some(a) => a == spec_leader(self.spec_leader_config(), self.spec_active_round()),
            None => true,
        }
    }

    /// A fresh pacemaker for `epoch_id`, before its first update.
    pub fn new(
        epoch_id: EpochId,
        node_time: NodeTime,
        delta: Duration,
        gamma: u32,
        lambda_num: u64,
        lambda_den: u64,
    ) -> (r: PacemakerState)
        requires
            delta.0 >= 0,
            lambda_den >= 1,
        ensures
            r.wf(),
            r.spec_active_epoch() == epoch_id,
            r.spec_active_round() == Round(0),
            r.spec_active_leader() is None,
            r.spec_active_round_start_time() == node_time,
            r.spec_active_round_duration() == Duration(0),
            r.spec_delta() == delta,
            r.spec_gamma() == gamma as nat,
            r.spec_lambda() == (lambda_num as nat, lambda_den as nat),
    {
        PacemakerState {
            active_epoch: epoch_id,
            active_round: Round(0),
            active_leader: None,
            active_round_start_time: node_time,
            active_round_duration: Duration(0),
            delta,
            gamma,
            lambda_num,
            lambda_den,
            leader_config: Ghost(arbitrary()),
        }
    }

    /// The active epoch.
    pub fn active_epoch(&self) -> (r: EpochId)
        ensures
            r == self.spec_active_epoch(),
    {
        self.active_epoch
    }

    /// The active round.
    pub fn active_round(&self) -> (r: Round)
        ensures
            r == self.spec_active_round(),
    {
        self.active_round
    }

    /// The leader of the active round, once computed.
    pub fn active_leader(&self) -> (r: Option<Author>)
        ensures
            r == self.spec_active_leader(),
    {
        self.active_leader
    }

    /// When the active round was entered.
    pub fn active_round_start_time(&self) -> (r: NodeTime)
        ensures
            r == self.spec_active_round_start_time(),
    {
        self.active_round_start_time
    }

    /// The leader of `round` under the store's configuration.
    pub fn leader(record_store: &crate::record_store::RecordStoreState, round: Round) -> (r:
        Author)
        requires
            record_store.wf(),
        ensures
            r == spec_leader(record_store.spec_configuration(), round),
            crate::configuration::spec_weight(
                record_store.spec_configuration().spec_authors(),
                r,
            ) > 0,
    {
        record_store.pick_author(round_seed(round))
    }

    /// The base of the round-duration formula: how far the round is past
    /// the highest commit.
    pub open spec fn spec_duration_base(highest_committed_round: nat, round: nat) -> nat {
        if highest_committed_round > 0 {
            (round - (highest_committed_round + 2)) as nat
        } else {
            round
        }
    }

    /// The round duration: `delta * n^gamma` for `n` rounds past the
    /// highest commit, saturated at the largest representable duration.
    pub open spec fn spec_round_duration(
        delta: nat,
        gamma: nat,
        highest_committed_round: nat,
        round: nat,
    ) -> int {
        let d = delta * spec_pow_nat(Self::spec_duration_base(highest_committed_round, round), gamma);
        if d <= i64::MAX {
            d as int
        } else {
            i64::MAX as int
        }
    }

    /// Compute the duration of `round` from the store's highest commit.
    pub fn duration(
        &self,
        record_store: &crate::record_store::RecordStoreState,
        round: Round,
    ) -> (r: Duration)
        requires
            self.wf(),
            record_store.wf(),
            record_store.spec_highest_committed_round().0 > 0 ==> round.0
                >= record_store.spec_highest_committed_round().0 + 2,
            round.0 >= 1,
        ensures
            r.0 == Self::spec_round_duration(
                self.spec_delta().0 as nat,
                self.spec_gamma(),
                record_store.spec_highest_committed_round().0 as nat,
                round.0 as nat,
            ),
    {
        let hcr = record_store.highest_committed_round();
        let n: usize = if hcr.0 > 0 {
            round.0 - (hcr.0 + 2)
        } else {
            round.0
        };
        let ghost nn = Self::spec_duration_base(hcr.0 as nat, round.0 as nat);
        proof {
            assert(n as nat == nn);
        }
        // `n^gamma`, saturated just above the representable maximum.
        let cap: u128 = i64::MAX as u128 + 1;
        let mut acc: u128 = 1;
        let mut k: u32 = 0;
        while k < self.gamma
            invariant
                k <= self.gamma,
                cap == i64::MAX as u128 + 1,
                n as nat == nn,
                (acc as nat == spec_pow_nat(nn, k as nat) && acc < cap) || (acc == cap
                    && spec_pow_nat(nn, k as nat) >= cap),
            decreases self.gamma - k,
        {
            let ghost p = spec_pow_nat(nn, k as nat);
            proof {
                assert(acc * (n as u128) <= u128::MAX) by (nonlinear_arith)
                    requires
                        0 <= acc < 0x8000000000000001u128,
                        0 <= n as u128 <= 0xFFFFFFFFFFFFFFFFu128,
                ;
            }
            let next: u128 = if acc >= cap || n == 0 {
                if n == 0 {
                    0
                } else {
                    cap
                }
            } else {
                let m = acc * (n as u128);
                if m >= cap {
                    cap
                } else {
                    m
                }
            };
            proof {
                assert(spec_pow_nat(nn, (k + 1) as nat) == nn * p);
                if acc >= cap && n > 0 {
                    assert(nn * p >= p) by (nonlinear_arith)
                        requires
                            nn >= 1,
                            p >= 0,
                    ;
                }
                if acc < cap && n > 0 {
                    assert(acc * (n as u128) == nn * p) by (nonlinear_arith)
                        requires
                            acc as nat == p,
                            n as nat == nn,
                    ;
                }
                if n == 0 {
                    assert(nn * p == 0) by (nonlinear_arith)
                        requires
                            nn == 0,
                    ;
                }
            }
            acc = next;
            k = k + 1;
        }
        // `delta * n^gamma`, saturated at the representable maximum.
        let d: u128 = self.delta.0 as u128;
        let ghost pw = spec_pow_nat(nn, self.gamma as nat);
        let product: u128 = if acc >= cap {
            if d == 0 {
                0
            } else {
                cap
            }
        } else {
            proof {
                assert(d * acc <= u128::MAX) by (nonlinear_arith)
                    requires
                        0 <= d <= 0x7FFFFFFFFFFFFFFFu128,
                        0 <= acc < 0x8000000000000001u128,
                ;
            }
            let m = d * acc;
            if m >= cap {
                cap
            } else {
                m
            }
        };
        proof {
            if acc >= cap {
                if d == 0 {
                    assert(d * pw == 0) by (nonlinear_arith)
                        requires
                            d == 0,
                    ;
                } else {
                    assert(d * pw >= pw) by (nonlinear_arith)
                        requires
                            d >= 1,
                            pw >= 0,
                    ;
                }
            } else {
                assert(d * acc == (self.delta.0 as nat) * spec_pow_nat(nn, self.gamma as nat));
                assert(d * acc < cap * cap) by (nonlinear_arith)
                    requires
                        d < cap,
                        acc < cap,
                        d >= 0,
                        acc >= 0,
                ;
                assert(cap * cap <= u128::MAX as int + 1);
            }
        }
        if product >= cap {
            Duration(i64::MAX)
        } else {
            Duration(product as i64)
        }
    }

    /// Update the pacemaker from the store and the clock and return the
    /// decided actions: whether to enter a new round, propose, time out, or
    /// force a data-sync query.
    pub fn update_pacemaker(
        &mut self,
        local_author: Author,
        epoch_id: EpochId,
        record_store: &crate::record_store::RecordStoreState,
        latest_query_all_time: NodeTime,
        clock: NodeTime,
    ) -> (actions: PacemakerUpdateActions)
        requires
            old(self).wf(),
            record_store.wf(),
            epoch_id == record_store.spec_epoch_id(),
            epoch_id.0 >= old(self).spec_active_epoch().0,
        ensures
            final(self).wf(),
            final(self).spec_delta() == old(self).spec_delta(),
            final(self).spec_gamma() == old(self).spec_gamma(),
            final(self).spec_lambda() == old(self).spec_lambda(),
            final(self).spec_active_epoch() == epoch_id,
            final(self).spec_active_round().0 >= old(self).spec_active_round().0 || epoch_id.0
                > old(self).spec_active_epoch().0,
            ({
                // The active round tracks the highest certificates.
                let target = Self::spec_target_round(*record_store);
                let entered = epoch_id.0 > old(self).spec_active_epoch().0 || (epoch_id == old(
                    self,
                ).spec_active_epoch() && target > old(self).spec_active_round().0);
                if entered {
                    &&& final(self).spec_active_round().0 == target
                    &&& final(self).spec_active_round_start_time() == clock
                    &&& final(self).spec_active_leader() == Some(
                        spec_leader(record_store.spec_configuration(), final(self).spec_active_round()),
                    )
                    &&& final(self).spec_leader_config() == record_store.spec_configuration()
                    &&& actions.should_send@ == (if final(self).spec_active_leader() != Some(
                        local_author,
                    ) {
                        seq![final(self).spec_active_leader().unwrap()]
                    } else {
                        Seq::<Author>::empty()
                    })
                } else {
                    &&& final(self).spec_active_round() == old(self).spec_active_round()
                    &&& final(self).spec_active_round_start_time() == old(
                        self,
                    ).spec_active_round_start_time()
                    &&& final(self).spec_active_leader() == old(self).spec_active_leader()
                    &&& final(self).spec_leader_config() == old(self).spec_leader_config()
                    &&& actions.should_send@ == Seq::<Author>::empty()
                }
            }),
            // Propose when this node leads and no proposal is retained.
            actions.should_propose_block == (if final(self).spec_active_leader() == Some(
                local_author,
            ) && Self::spec_no_proposal(*final(self), *record_store) {
                Some(record_store.spec_highest_quorum_certificate_hash())
            } else {
                None
            }),
            // Time out when the round outlived its duration; once a timeout
            // exists, force periodic query-all actions; a proposal forces an
            // immediate re-entry, a pending deadline schedules one.
            ({
                let deadline = Self::spec_timeout_deadline(*final(self));
                let base: int = if actions.should_propose_block is Some {
                    clock.0 as int
                } else {
                    i64::MAX as int
                };
                if !record_store.spec_has_timeout(local_author, final(self).spec_active_round()) {
                    &&& actions.should_create_timeout == (if clock.0 >= deadline {
                        Some(final(self).spec_active_round())
                    } else {
                        None
                    })
                    &&& actions.should_query_all == false
                    &&& actions.next_scheduled_update.0 == (if clock.0 >= deadline {
                        base
                    } else if base <= deadline {
                        base
                    } else {
                        deadline
                    })
                } else {
                    let period = Self::spec_query_period(*final(self));
                    let qd0 = crate::base_types::spec_sat_add(latest_query_all_time.0 as int, period);
                    let qd = if clock.0 >= qd0 {
                        crate::base_types::spec_sat_add(clock.0 as int, period)
                    } else {
                        qd0
                    };
                    &&& actions.should_create_timeout is None
                    &&& actions.should_query_all == (clock.0 >= qd0)
                    &&& actions.next_scheduled_update.0 == (if base <= qd {
                        base
                    } else {
                        qd
                    })
                }
            }),
            actions.should_broadcast == (actions.should_propose_block is Some
                || actions.should_create_timeout is Some),
    {
        let mut actions = PacemakerUpdateActions::default();
        // Compute the active round from the current record store.
        let hqc = record_store.highest_quorum_certificate_round();
        let htc = record_store.highest_timeout_certificate_round();
        let m = if hqc.0 >= htc.0 {
            hqc.0
        } else {
            htc.0
        };
        let active_round = if m < usize::MAX {
            Round(m + 1)
        } else {
            Round(m)
        };
        // If the epoch changed or the active round advanced, enter the
        // round: start its timer, compute its leader and duration, and
        // synchronize with the leader.
        if epoch_id.0 > self.active_epoch.0 || (epoch_id.0 == self.active_epoch.0 && active_round.0
            > self.active_round.0) {
            self.active_epoch = epoch_id;
            self.active_round = active_round;
            self.active_round_start_time = clock;
            let leader = Self::leader(record_store, active_round);
            self.active_leader = Some(leader);
            proof {
                self.leader_config = Ghost(record_store.spec_configuration());
            }
            self.active_round_duration = self.duration(record_store, active_round);
            if leader.0 != local_author.0 {
                actions.should_send.push(leader);
                proof {
                    assert(leader != local_author);
                    assert(actions.should_send@ =~= seq![leader]);
                }
            } else {
                proof {
                    assert(leader == Author(leader.0));
                    assert(local_author == Author(local_author.0));
                }
            }
        }
        // If this node leads and has not proposed yet, propose on top of
        // the highest certificate and come back at once to vote on it.
        let is_leader = match self.active_leader {
            Some(a) => a.0 == local_author.0,
            None => false,
        };
        proof {
            match self.active_leader {
                Some(a) => {
                    assert(a == Author(a.0));
                    assert(local_author == Author(local_author.0));
                },
                None => {},
            }
        }
        if is_leader {
            let no_proposal = match record_store.proposed_block(&*self) {
                Some(_) => false,
                None => true,
            };
            if no_proposal {
                actions.should_propose_block = Some(
                    record_store.highest_quorum_certificate_hash(),
                );
                actions.should_broadcast = true;
                actions.next_scheduled_update = clock;
            }
        }
        if !record_store.has_timeout(local_author, self.active_round) {
            let timeout_deadline = self.active_round_start_time.saturating_add(
                self.active_round_duration,
            );
            // Without a timeout of ours yet, either the round has outlived
            // its duration and we time out now, or we come back at the
            // deadline.
            if clock.0 >= timeout_deadline.0 {
                actions.should_create_timeout = Some(self.active_round);
                actions.should_broadcast = true;
            } else {
                actions.next_scheduled_update = actions.next_scheduled_update.min(
                    timeout_deadline,
                );
            }
        } else {
            // Otherwise enforce periodic query-all actions if we stay too
            // long on the same round.
            let period = self.query_all_period();
            let mut query_all_deadline = latest_query_all_time.saturating_add(period);
            if clock.0 >= query_all_deadline.0 {
                actions.should_query_all = true;
                query_all_deadline = clock.saturating_add(period);
            }
            actions.next_scheduled_update = actions.next_scheduled_update.min(query_all_deadline);
        }
        actions
    }

    /// The round the pacemaker should be on: one past the highest
    /// certificate of either kind.
    pub open spec fn spec_target_round(rs: crate::record_store::RecordStoreState) -> int {
        let m = if rs.spec_highest_quorum_certificate_round().0
            >= rs.spec_highest_timeout_certificate_round().0 {
            rs.spec_highest_quorum_certificate_round().0
        } else {
            rs.spec_highest_timeout_certificate_round().0
        };
        if m < usize::MAX {
            m + 1
        } else {
            m as int
        }
    }

    /// Whether the store holds no proposal the pacemaker would accept.
    pub open spec fn spec_no_proposal(
        pm: PacemakerState,
        rs: crate::record_store::RecordStoreState,
    ) -> bool {
        pm.spec_active_epoch() != rs.spec_epoch_id() || pm.spec_active_round()
            != rs.spec_current_round() || pm.spec_active_leader() is None
            || rs.spec_current_proposed_block() is None
    }

    /// When the active round times out.
    pub open spec fn spec_timeout_deadline(pm: PacemakerState) -> int {
        let t = pm.spec_active_round_start_time().0 + pm.spec_active_round_duration().0;
        if t > i64::MAX {
            i64::MAX as int
        } else if t < i64::MIN {
            i64::MIN as int
        } else {
            t
        }
    }

    /// The stored layout of a pacemaker that retains no leader: nine
    /// 64-bit little-endian words at `pos`, one per field in order, with a
    /// zero word where a leader would be tagged.
    pub open spec fn spec_pm_encoded_at(pm: PacemakerState, bytes: Seq<u8>, pos: int) -> bool {
        &&& pm.spec_active_leader() is None
        &&& 0 <= pos
        &&& pos + 72 <= bytes.len()
        &&& bytes.subrange(pos, pos + 8) == crate::codec::spec_u64_bytes(
            pm.spec_active_epoch().0 as u64,
        )
        &&& bytes.subrange(pos + 8, pos + 16) == crate::codec::spec_u64_bytes(
            pm.spec_active_round().0 as u64,
        )
        &&& bytes.subrange(pos + 16, pos + 24) == crate::codec::spec_u64_bytes(0)
        &&& bytes.subrange(pos + 24, pos + 32) == crate::codec::spec_u64_bytes(
            crate::codec::spec_i64_as_u64(pm.spec_active_round_start_time().0),
        )
        &&& bytes.subrange(pos + 32, pos + 40) == crate::codec::spec_u64_bytes(
            crate::codec::spec_i64_as_u64(pm.spec_active_round_duration().0),
        )
        &&& bytes.subrange(pos + 40, pos + 48) == crate::codec::spec_u64_bytes(
            crate::codec::spec_i64_as_u64(pm.spec_delta().0),
        )
        &&& bytes.subrange(pos + 48, pos + 56) == crate::codec::spec_u64_bytes(
            pm.spec_gamma() as u64,
        )
        &&& bytes.subrange(pos + 56, pos + 64) == crate::codec::spec_u64_bytes(
            pm.spec_lambda().0 as u64,
        )
        &&& bytes.subrange(pos + 64, pos + 72) == crate::codec::spec_u64_bytes(
            pm.spec_lambda().1 as u64,
        )
    }

    /// Append the wire encoding of this pacemaker.
    pub fn encode(&self, out: &mut Vec<u8>)
        ensures
            final(out)@.len() == old(out)@.len() + (if self.spec_active_leader() is Some {
                80int
            } else {
                72int
            }),
            self.spec_active_leader() is None ==> Self::spec_pm_encoded_at(
                *self,
                final(out)@,
                old(out)@.len() as int,
            ),
    {
        crate::codec::encode_usize(out, self.active_epoch.0);
        crate::codec::encode_usize(out, self.active_round.0);
        match self.active_leader {
            None => crate::codec::encode_u64(out, 0),
            Some(a) => {
                crate::codec::encode_u64(out, 1);
                crate::codec::encode_usize(out, a.0);
            },
        }
        crate::codec::encode_i64(out, self.active_round_start_time.0);
        crate::codec::encode_i64(out, self.active_round_duration.0);
        crate::codec::encode_i64(out, self.delta.0);
        crate::codec::encode_u64(out, self.gamma as u64);
        crate::codec::encode_u64(out, self.lambda_num);
        crate::codec::encode_u64(out, self.lambda_den);
        proof {
            let base = old(out)@.len() as int;
            if self.spec_active_leader() is None {
                assert(final(out)@.subrange(base, base + 8) =~= crate::codec::spec_u64_bytes(
                    self.spec_active_epoch().0 as u64,
                ));
                assert(final(out)@.subrange(base + 8, base + 16) =~= crate::codec::spec_u64_bytes(
                    self.spec_active_round().0 as u64,
                ));
                assert(final(out)@.subrange(base + 16, base + 24) =~= crate::codec::spec_u64_bytes(
                    0,
                ));
                assert(final(out)@.subrange(base + 24, base + 32) =~= crate::codec::spec_u64_bytes(
                    crate::codec::spec_i64_as_u64(self.spec_active_round_start_time().0),
                ));
                assert(final(out)@.subrange(base + 32, base + 40) =~= crate::codec::spec_u64_bytes(
                    crate::codec::spec_i64_as_u64(self.spec_active_round_duration().0),
                ));
                assert(final(out)@.subrange(base + 40, base + 48) =~= crate::codec::spec_u64_bytes(
                    crate::codec::spec_i64_as_u64(self.spec_delta().0),
                ));
                assert(final(out)@.subrange(base + 48, base + 56) =~= crate::codec::spec_u64_bytes(
                    self.spec_gamma() as u64,
                ));
                assert(final(out)@.subrange(base + 56, base + 64) =~= crate::codec::spec_u64_bytes(
                    self.spec_lambda().0 as u64,
                ));
                assert(final(out)@.subrange(base + 64, base + 72) =~= crate::codec::spec_u64_bytes(
                    self.spec_lambda().1 as u64,
                ));
            }
        }
    }

    /// Each stored word of an encoded pacemaker reads back as the field it
    /// was written from.
    proof fn lemma_pm_decode_chunks(pm: PacemakerState, bytes: Seq<u8>, pos: int)
        requires
            Self::spec_pm_encoded_at(pm, bytes, pos),
        ensures
            crate::codec::spec_u64_of_bytes(bytes.subrange(pos, pos + 8))
                == pm.spec_active_epoch().0 as u64,
            crate::codec::spec_u64_of_bytes(bytes.subrange(pos + 8, pos + 16))
                == pm.spec_active_round().0 as u64,
            crate::codec::spec_u64_of_bytes(bytes.subrange(pos + 16, pos + 24)) == 0,
            crate::codec::spec_u64_of_bytes(bytes.subrange(pos + 24, pos + 32))
                == crate::codec::spec_i64_as_u64(pm.spec_active_round_start_time().0),
            crate::codec::spec_u64_of_bytes(bytes.subrange(pos + 32, pos + 40))
                == crate::codec::spec_i64_as_u64(pm.spec_active_round_duration().0),
            crate::codec::spec_u64_of_bytes(bytes.subrange(pos + 40, pos + 48))
                == crate::codec::spec_i64_as_u64(pm.spec_delta().0),
            crate::codec::spec_u64_of_bytes(bytes.subrange(pos + 48, pos + 56))
                == pm.spec_gamma() as u64,
            crate::codec::spec_u64_of_bytes(bytes.subrange(pos + 56, pos + 64))
                == pm.spec_lambda().0 as u64,
            crate::codec::spec_u64_of_bytes(bytes.subrange(pos + 64, pos + 72))
                == pm.spec_lambda().1 as u64,
    {
        crate::codec::lemma_u64_bytes_roundtrip(pm.spec_active_epoch().0 as u64);
        crate::codec::lemma_u64_bytes_roundtrip(pm.spec_active_round().0 as u64);
        crate::codec::lemma_u64_bytes_roundtrip(0);
        crate::codec::lemma_u64_bytes_roundtrip(
            crate::codec::spec_i64_as_u64(pm.spec_active_round_start_time().0),
        );
        crate::codec::lemma_u64_bytes_roundtrip(
            crate::codec::spec_i64_as_u64(pm.spec_active_round_duration().0),
        );
        crate::codec::lemma_u64_bytes_roundtrip(
            crate::codec::spec_i64_as_u64(pm.spec_delta().0),
        );
        crate::codec::lemma_u64_bytes_roundtrip(pm.spec_gamma() as u64);
        crate::codec::lemma_u64_bytes_roundtrip(pm.spec_lambda().0 as u64);
        crate::codec::lemma_u64_bytes_roundtrip(pm.spec_lambda().1 as u64);
    }

    /// Read back a pacemaker. The recorded leader is re-derived at the next
    /// update. Reading where a leaderless pacemaker was written restores
    /// it, field for field.
    pub fn decode(bytes: &Vec<u8>, pos: usize) -> (r: Option<(PacemakerState, usize)>)
        ensures
            match r {
                Some((pm, _)) => pm.spec_active_leader() is None,
                None => true,
            },
            forall|pm: PacemakerState|
                #[trigger] Self::spec_pm_encoded_at(pm, bytes@, pos as int) ==> match r {
                    Some((out, next)) => {
                        &&& next == pos + 72
                        &&& out.spec_active_epoch() == pm.spec_active_epoch()
                        &&& out.spec_active_round() == pm.spec_active_round()
                        &&& out.spec_active_leader() is None
                        &&& out.spec_active_round_start_time()
                            == pm.spec_active_round_start_time()
                        &&& out.spec_active_round_duration()
                            == pm.spec_active_round_duration()
                        &&& out.spec_delta() == pm.spec_delta()
                        &&& out.spec_gamma() == pm.spec_gamma()
                        &&& out.spec_lambda() == pm.spec_lambda()
                    },
                    None => false,
                },
    {
        let (ae, p) = match crate::codec::decode_usize(bytes, pos) {
            Some(x) => x,
            None => {
                proof {
                    assert forall|pmx: PacemakerState| !Self::spec_pm_encoded_at(
                        pmx,
                        bytes@,
                        pos as int,
                    ) by {
                        if Self::spec_pm_encoded_at(pmx, bytes@, pos as int) {
                            Self::lemma_pm_decode_chunks(pmx, bytes@, pos as int);
                        }
                    }
                }
                return None;
            },
        };
        let (ar, p) = match crate::codec::decode_usize(bytes, p) {
            Some(x) => x,
            None => {
                proof {
                    assert forall|pmx: PacemakerState| !Self::spec_pm_encoded_at(
                        pmx,
                        bytes@,
                        pos as int,
                    ) by {
                        if Self::spec_pm_encoded_at(pmx, bytes@, pos as int) {
                            Self::lemma_pm_decode_chunks(pmx, bytes@, pos as int);
                        }
                    }
                }
                return None;
            },
        };
        let (ltag, p) = match crate::codec::decode_u64(bytes, p) {
            Some(x) => x,
            None => {
                proof {
                    assert forall|pmx: PacemakerState| !Self::spec_pm_encoded_at(
                        pmx,
                        bytes@,
                        pos as int,
                    ) by {
                        if Self::spec_pm_encoded_at(pmx, bytes@, pos as int) {
                            Self::lemma_pm_decode_chunks(pmx, bytes@, pos as int);
                        }
                    }
                }
                return None;
            },
        };
        // The leader is not restored: it is a function of the store and is
        // recomputed by the first update after loading.
        let p = if ltag == 1 {
            match crate::codec::decode_usize(bytes, p) {
                Some((_, p2)) => p2,
                None => {
                    proof {
                        assert forall|pmx: PacemakerState| !Self::spec_pm_encoded_at(
                            pmx,
                            bytes@,
                            pos as int,
                        ) by {
                            if Self::spec_pm_encoded_at(pmx, bytes@, pos as int) {
                                Self::lemma_pm_decode_chunks(pmx, bytes@, pos as int);
                            }
                        }
                    }
                    return None;
                },
            }
        } else {
            p
        };
        let (start, p) = match crate::codec::decode_i64(bytes, p) {
            Some(x) => x,
            None => {
                proof {
                    assert forall|pmx: PacemakerState| !Self::spec_pm_encoded_at(
                        pmx,
                        bytes@,
                        pos as int,
                    ) by {
                        if Self::spec_pm_encoded_at(pmx, bytes@, pos as int) {
                            Self::lemma_pm_decode_chunks(pmx, bytes@, pos as int);
                        }
                    }
                }
                return None;
            },
        };
        let (dur, p) = match crate::codec::decode_i64(bytes, p) {
            Some(x) => x,
            None => {
                proof {
                    assert forall|pmx: PacemakerState| !Self::spec_pm_encoded_at(
                        pmx,
                        bytes@,
                        pos as int,
                    ) by {
                        if Self::spec_pm_encoded_at(pmx, bytes@, pos as int) {
                            Self::lemma_pm_decode_chunks(pmx, bytes@, pos as int);
                        }
                    }
                }
                return None;
            },
        };
        let (delta, p) = match crate::codec::decode_i64(bytes, p) {
            Some(x) => x,
            None => {
                proof {
                    assert forall|pmx: PacemakerState| !Self::spec_pm_encoded_at(
                        pmx,
                        bytes@,
                        pos as int,
                    ) by {
                        if Self::spec_pm_encoded_at(pmx, bytes@, pos as int) {
                            Self::lemma_pm_decode_chunks(pmx, bytes@, pos as int);
                        }
                    }
                }
                return None;
            },
        };
        let (gamma, p) = match crate::codec::decode_u64(bytes, p) {
            Some(x) => x,
            None => {
                proof {
                    assert forall|pmx: PacemakerState| !Self::spec_pm_encoded_at(
                        pmx,
                        bytes@,
                        pos as int,
                    ) by {
                        if Self::spec_pm_encoded_at(pmx, bytes@, pos as int) {
                            Self::lemma_pm_decode_chunks(pmx, bytes@, pos as int);
                        }
                    }
                }
                return None;
            },
        };
        if gamma > u32::MAX as u64 {
            proof {
                assert forall|pmx: PacemakerState| !Self::spec_pm_encoded_at(
                    pmx,
                    bytes@,
                    pos as int,
                ) by {
                    if Self::spec_pm_encoded_at(pmx, bytes@, pos as int) {
                        Self::lemma_pm_decode_chunks(pmx, bytes@, pos as int);
                    }
                }
            }
            return None;
        }
        let (lambda_num, p) = match crate::codec::decode_u64(bytes, p) {
            Some(x) => x,
            None => {
                proof {
                    assert forall|pmx: PacemakerState| !Self::spec_pm_encoded_at(
                        pmx,
                        bytes@,
                        pos as int,
                    ) by {
                        if Self::spec_pm_encoded_at(pmx, bytes@, pos as int) {
                            Self::lemma_pm_decode_chunks(pmx, bytes@, pos as int);
                        }
                    }
                }
                return None;
            },
        };
        let (lambda_den, p) = match crate::codec::decode_u64(bytes, p) {
            Some(x) => x,
            None => {
                proof {
                    assert forall|pmx: PacemakerState| !Self::spec_pm_encoded_at(
                        pmx,
                        bytes@,
                        pos as int,
                    ) by {
                        if Self::spec_pm_encoded_at(pmx, bytes@, pos as int) {
                            Self::lemma_pm_decode_chunks(pmx, bytes@, pos as int);
                        }
                    }
                }
                return None;
            },
        };
        proof {
            assert forall|pmx: PacemakerState| Self::spec_pm_encoded_at(
                pmx,
                bytes@,
                pos as int,
            ) implies {
                &&& p == pos + 72
                &&& EpochId(ae) == pmx.spec_active_epoch()
                &&& Round(ar) == pmx.spec_active_round()
                &&& NodeTime(start) == pmx.spec_active_round_start_time()
                &&& Duration(dur) == pmx.spec_active_round_duration()
                &&& Duration(delta) == pmx.spec_delta()
                &&& (gamma as u32) as nat == pmx.spec_gamma()
                &&& lambda_num as nat == pmx.spec_lambda().0
                &&& lambda_den as nat == pmx.spec_lambda().1
            } by {
                Self::lemma_pm_decode_chunks(pmx, bytes@, pos as int);
                assert(pmx.spec_active_epoch() == EpochId(pmx.spec_active_epoch().0));
                assert(pmx.spec_active_round() == Round(pmx.spec_active_round().0));
                assert(pmx.spec_active_round_start_time() == NodeTime(
                    pmx.spec_active_round_start_time().0,
                ));
                assert(pmx.spec_active_round_duration() == Duration(
                    pmx.spec_active_round_duration().0,
                ));
                assert(pmx.spec_delta() == Duration(pmx.spec_delta().0));
                let s0: i64 = pmx.spec_active_round_start_time().0;
                let d0: i64 = pmx.spec_active_round_duration().0;
                let e0: i64 = pmx.spec_delta().0;
                assert(start == s0) by (bit_vector)
                    requires
                        start as u64 == s0 as u64,
                ;
                assert(dur == d0) by (bit_vector)
                    requires
                        dur as u64 == d0 as u64,
                ;
                assert(delta == e0) by (bit_vector)
                    requires
                        delta as u64 == e0 as u64,
                ;
            }
        }
        Some(
            (
                PacemakerState {
                    active_epoch: EpochId(ae),
                    active_round: Round(ar),
                    active_leader: None,
                    active_round_start_time: NodeTime(start),
                    active_round_duration: Duration(dur),
                    delta: Duration(delta),
                    gamma: gamma as u32,
                    lambda_num,
                    lambda_den,
                    leader_config: Ghost(arbitrary()),
                },
                p,
            ),
        )
    }

    /// The query-all period as a value: `lambda` times the active round
    /// duration, rounded down, zero for a non-positive duration, saturated
    /// at the representable maximum.
    pub open spec fn spec_query_period(pm: PacemakerState) -> int {
        let dur = pm.spec_active_round_duration().0 as int;
        if dur <= 0 {
            0
        } else {
            let scaled = dur * pm.spec_lambda().0 / pm.spec_lambda().1 as int;
            if scaled > i64::MAX {
                i64::MAX as int
            } else {
                scaled
            }
        }
    }

    /// The query-all period: `lambda` times the active round duration,
    /// rounded down, saturated at the representable maximum.
    fn query_all_period(&self) -> (r: Duration)
        requires
            self.wf(),
        ensures
            r.0 == Self::spec_query_period(*self),
    {
        let dur = self.active_round_duration.0;
        if dur <= 0 {
            return Duration(0);
        }
        proof {
            assert(dur as i128 * self.lambda_num as i128 <= i128::MAX) by (nonlinear_arith)
                requires
                    0 <= dur as i128 <= 0x7FFFFFFFFFFFFFFFi128,
                    0 <= self.lambda_num as i128 <= 0xFFFFFFFFFFFFFFFFi128,
            ;
        }
        let scaled: i128 = dur as i128 * self.lambda_num as i128 / self.lambda_den as i128;
        proof {
            assert(dur as i128 * self.lambda_num as i128 >= 0) by (nonlinear_arith)
                requires
                    dur >= 0,
                    self.lambda_num >= 0,
            ;
            vstd::arithmetic::div_mod::lemma_div_is_ordered(
                0,
                dur as int * self.lambda_num as int,
                self.lambda_den as int,
            );
        }
        if scaled > i64::MAX as i128 {
            Duration(i64::MAX)
        } else {
            Duration(scaled as i64)
        }
    }
}

} // verus!
