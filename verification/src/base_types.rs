//! Primitive types shared by every subsystem: rounds, epochs, clocks,
//! authors, signatures and content-addressed hashes.

use vstd::prelude::*;

verus! {

/// A monotonically increasing attempt to commit one block. Rounds start at 1;
/// round 0 stands for "before the first round".
#[derive(Eq, PartialEq, Copy, Clone, Debug, Structural, Hash)]
pub struct Round(pub usize);

/// Local time of a node in milliseconds. `NodeTime::never()` stands in for
/// "no deadline".
#[derive(Eq, PartialEq, Copy, Clone, Debug, Structural, Hash)]
pub struct NodeTime(pub i64);

/// A span of time in milliseconds.
#[derive(Eq, PartialEq, Copy, Clone, Debug, Structural, Hash)]
pub struct Duration(pub i64);

/// Identifier of a maximal span of rounds sharing one voting configuration.
#[derive(Eq, PartialEq, Copy, Clone, Debug, Structural, Hash)]
pub struct EpochId(pub usize);

/// Public-key identity of a replica.
#[derive(Eq, PartialEq, Copy, Clone, Debug, Structural, Hash)]
pub struct Author(pub usize);

/// A signature value: the signer's identity together with the signed digest.
#[derive(Eq, PartialEq, Copy, Clone, Debug, Structural, Hash)]
pub struct Signature(pub usize, pub u64);

/// Hash of a block, domain-separated from other record hashes by the
/// canonical encoding of the hashed value.
#[derive(Eq, PartialEq, Copy, Clone, Debug, Structural, Hash)]
pub struct BlockHash(pub u64);

/// Hash of a quorum certificate; the genesis hash of an epoch is the hash of
/// its epoch identifier.
#[derive(Eq, PartialEq, Copy, Clone, Debug, Structural, Hash)]
pub struct QuorumCertificateHash(pub u64);

/// Simulated global clock, used by runtimes that drive several nodes.
#[derive(Eq, PartialEq, Copy, Clone, Debug, Structural, Hash)]
pub struct GlobalTime(pub i64);

/// An execution state of the replicated application, named by its digest.
#[derive(Eq, PartialEq, Copy, Clone, Debug, Structural, Hash)]
pub struct State(pub u64);

/// A command for the replicated application to execute.
#[derive(Eq, PartialEq, Copy, Clone, Debug, Structural, Hash)]
pub struct Command {
    /// The replica that fetched the command from its mempool.
    pub proposer: Author,
    /// Position of the command in the proposer's mempool.
    pub index: usize,
}

impl Round {
    /// Raise `self` to `round` if the latter is larger.
    pub fn max_update(&mut self, round: Round)
        ensures
            final(self).0 == if round.0 > old(self).0 { round.0 } else { old(self).0 },
    {
        if round.0 > self.0 {
            *self = round;
        }
    }

    /// The round `rhs` steps ahead of this one.
    pub fn plus(self, rhs: usize) -> (r: Round)
        requires
            self.0 + rhs <= usize::MAX,
        ensures
            r.0 == self.0 + rhs,
    {
        Round(self.0 + rhs)
    }
}

impl NodeTime {
    /// The latest representable time, standing in for "no deadline".
    pub fn never() -> (r: NodeTime)
        ensures
            r.0 == i64::MAX,
    {
        NodeTime(i64::MAX)
    }

    /// The earlier of two times; `never()` is an identity element.
    pub fn min(self, other: NodeTime) -> (r: NodeTime)
        ensures
            r.0 == if self.0 <= other.0 { self.0 } else { other.0 },
            other.0 == i64::MAX ==> r == self,
    {
        if self.0 <= other.0 {
            self
        } else {
            other
        }
    }

    /// The later of two times.
    pub fn max(self, other: NodeTime) -> (r: NodeTime)
        ensures
            r.0 == if self.0 >= other.0 { self.0 } else { other.0 },
    {
        if self.0 >= other.0 {
            self
        } else {
            other
        }
    }

    /// Shift a time by a duration, saturating at the representable bounds so
    /// that shifting `never()` stays `never()`.
    pub fn saturating_add(self, rhs: Duration) -> (r: NodeTime)
        ensures
            i64::MIN <= self.0 + rhs.0 <= i64::MAX ==> r.0 == self.0 + rhs.0,
            self.0 + rhs.0 > i64::MAX ==> r.0 == i64::MAX,
            self.0 + rhs.0 < i64::MIN ==> r.0 == i64::MIN,
    {
        if rhs.0 >= 0 {
            if self.0 <= i64::MAX - rhs.0 {
                NodeTime(self.0 + rhs.0)
            } else {
                NodeTime(i64::MAX)
            }
        } else {
            if self.0 >= i64::MIN - rhs.0 {
                NodeTime(self.0 + rhs.0)
            } else {
                NodeTime(i64::MIN)
            }
        }
    }
}

/// Saturating signed addition, as used for deadlines.
pub open spec fn spec_sat_add(a: int, b: int) -> int {
    if a + b > i64::MAX {
        i64::MAX as int
    } else if a + b < i64::MIN {
        i64::MIN as int
    } else {
        a + b
    }
}

/// The larger of two integers.
pub open spec fn spec_int_max(a: int, b: int) -> int {
    if a >= b {
        a
    } else {
        b
    }
}

impl Default for NodeTime {
    /// The default time is "no deadline".
    fn default() -> (r: NodeTime)
        ensures
            r.0 == i64::MAX,
    {
        NodeTime::never()
    }
}

impl EpochId {
    /// The epoch directly before this one, if any.
    pub fn previous(self) -> (r: Option<EpochId>)
        ensures
            self.0 == 0 ==> r is None,
            self.0 > 0 ==> r == Some(EpochId((self.0 - 1) as usize)),
    {
        if self.0 == 0 {
            None
        } else {
            Some(EpochId(self.0 - 1))
        }
    }
}

impl Signature {
    /// Produce the simulated signature of `author` over `hash`.
    pub fn sign(hash: u64, author: Author) -> (r: Signature)
        ensures
            r == Signature(author.0, hash),
    {
        Signature(author.0, hash)
    }

    /// Check that `self` is `author`'s signature over `hash`.
    pub fn check(&self, hash: u64, author: Author) -> (r: Result<(), SignatureError>)
        ensures
            r is Ok <==> (self.0 == author.0 && self.1 == hash),
    {
        if self.0 == author.0 && self.1 == hash {
            Ok(())
        } else {
            Err(SignatureError)
        }
    }
}

/// Failure of a signature check.
#[derive(Eq, PartialEq, Copy, Clone, Debug, Structural)]
pub struct SignatureError;

impl GlobalTime {
    /// A node's local clock reads the global clock relative to its own
    /// startup time.
    pub fn to_node_time(self, startup_time: GlobalTime) -> (r: NodeTime)
        requires
            i64::MIN <= self.0 - startup_time.0 <= i64::MAX,
        ensures
            r.0 == self.0 - startup_time.0,
    {
        NodeTime(self.0 - startup_time.0)
    }

    /// Inverse of `to_node_time` for the same startup time.
    pub fn from_node_time(node_time: NodeTime, startup_time: GlobalTime) -> (r: GlobalTime)
        requires
            i64::MIN <= node_time.0 + startup_time.0 <= i64::MAX,
        ensures
            r.0 == node_time.0 + startup_time.0,
    {
        GlobalTime(node_time.0 + startup_time.0)
    }
}

/// View of rounds in a running replica, offered to monitoring runtimes.
pub trait ActiveRound {
    /// The round the replica is currently working on.
    fn active_round(&self) -> Round;
}

} // verus!
