//! State of one instance of the Synod (single-decree Paxos) protocol.
use vstd::prelude::*;
use vstd::std_specs::cmp::PartialOrdSpecImpl;
use core::cmp::Ordering;

pub mod follower;

verus! {

pub type InstanceId = u64;

pub type MemberId = u64;

/// BallotId represents the identifier for a Ballot
#[derive(Debug, Clone, Copy, PartialEq, Eq, Structural, Ord)]
pub struct BallotId {
    pub id: u64,
    pub initiator: MemberId,
}

/// How ballots compare: by id, the initiator breaking ties.
pub open spec fn ballot_cmp(a: BallotId, b: BallotId) -> Ordering {
    if a.id > b.id {
        Ordering::Greater
    } else if a.id < b.id {
        Ordering::Less
    } else if a.initiator > b.initiator {
        Ordering::Greater
    } else if a.initiator < b.initiator {
        Ordering::Less
    } else {
        Ordering::Equal
    }
}

/// `a` comes no earlier than `b` in ballot order.
pub open spec fn ballot_at_least(a: BallotId, b: BallotId) -> bool {
    a.id > b.id || (a.id == b.id && a.initiator >= b.initiator)
}

impl PartialOrd for BallotId {
    /// Ballot comparasion is given by comparing ids,
    /// initiator is a tie breaker.
    fn partial_cmp(&self, other: &Self) -> (r: Option<Ordering>) {
        if self.id > other.id {
            Some(Ordering::Greater)
        } else if self.id < other.id {
            Some(Ordering::Less)
        } else if self.initiator > other.initiator {
            Some(Ordering::Greater)
        } else if self.initiator < other.initiator {
            Some(Ordering::Less)
        } else {
            Some(Ordering::Equal)
        }
    }
}

impl PartialOrdSpecImpl for BallotId {
    open spec fn obeys_partial_cmp_spec() -> bool {
        true
    }

    open spec fn partial_cmp_spec(&self, other: &Self) -> Option<Ordering> {
        Some(ballot_cmp(*self, *other))
    }
}

/// Ballot order is a total order.
pub proof fn lemma_ballot_order(a: BallotId, b: BallotId, c: BallotId)
    ensures
        ballot_at_least(a, a),
        ballot_at_least(a, b) || ballot_at_least(b, a),
        ballot_at_least(a, b) && ballot_at_least(b, a) ==> a == b,
        ballot_at_least(a, b) && ballot_at_least(b, c) ==> ballot_at_least(a, c),
        ballot_at_least(a, b) <==> ballot_cmp(a, b) != Ordering::Less,
{
}

/// `a` comes no earlier than `b` exactly when its id is greater, or the ids
/// are equal and its initiator is no smaller; `partial_cmp` orders ballots
/// the same way.
pub proof fn lemma_ballot_at_least_by_fields(a: BallotId, b: BallotId)
    ensures
        ballot_at_least(a, b) <==> a.id > b.id || (a.id == b.id && a.initiator >= b.initiator),
        ballot_cmp(a, b) == Ordering::Less <==> a.id < b.id || (a.id == b.id && a.initiator
            < b.initiator),
        ballot_cmp(a, b) == Ordering::Equal <==> a == b,
{
}

/// Vote represents a vote cast by a protocol member during a Ballot
#[derive(Debug, Clone, Copy, PartialEq, Eq, Structural)]
pub struct Vote {
    pub ballot: BallotId,
    pub voter: MemberId,
}

/// Proposal represents a decree proposal sent by a leader during a Ballot.
pub struct Proposal<T> {
    pub ballot: BallotId,
    pub decree: T,
}

/// Ballot is a voting round which attempts to reach consensus
pub struct Ballot<T> {
    pub id: BallotId,
    pub decree: Option<T>,
    pub initiator: MemberId,
    pub votes: Vec<Vote>,
}

/// `b` is a clone of `a`, value by value.
pub open spec fn option_cloned<T: Clone>(a: Option<T>, b: Option<T>) -> bool {
    &&& a is None <==> b is None
    &&& a is Some ==> cloned::<T>(a.unwrap(), b.unwrap())
}

/// PaxosState represents an instance of the Synod protocol.
pub struct PaxosState<T> {
    /// Unique identifier for this member in the paxos quorum
    /// (ie current host identifier)
    pub member: MemberId,
    /// Unique identifier for this instance of the synod protocol.
    /// (effectively this represents the id of the decree in the complete ledger of decrees)
    pub instace_id: InstanceId,
    /// Promise made to a proposer of the minimum BallotId in which this instance will vote.
    pub promise: Option<BallotId>,
    /// Last vote cast by this instance in a previous ballot
    pub last_vote: Option<Vote>,
    /// Decree proposed for last voted ballot
    pub last_voted_decree: Option<T>,
    /// Decree which was decided for this instance
    pub decree: Option<T>,
}

impl<T> PaxosState<T> {
    pub fn new(member: MemberId, instace_id: InstanceId) -> (s: Self)
        ensures
            s.member == member,
            s.instace_id == instace_id,
            s.promise is None,
            s.last_vote is None,
            s.last_voted_decree is None,
            s.decree is None,
    {
        return Self {
            promise: None,
            last_vote: None,
            last_voted_decree: None,
            decree: None,
            member,
            instace_id,
        }
    }
}

impl<T: Clone> Clone for PaxosState<T> {
    fn clone(&self) -> (s: Self)
        ensures
            s.member == self.member,
            s.instace_id == self.instace_id,
            s.promise == self.promise,
            s.last_vote == self.last_vote,
            option_cloned(self.last_voted_decree, s.last_voted_decree),
            option_cloned(self.decree, s.decree),
    {
        PaxosState {
            member: self.member,
            instace_id: self.instace_id,
            promise: self.promise,
            last_vote: self.last_vote,
            last_voted_decree: self.last_voted_decree.clone(),
            decree: self.decree.clone(),
        }
    }
}

} // verus!
