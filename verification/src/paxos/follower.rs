//! The follower role of Paxos.
use vstd::prelude::*;
use super::{
    BallotId,
    InstanceId,
    MemberId,
    PaxosState,
    Proposal,
    Vote,
    ballot_at_least,
    ballot_cmp,
    option_cloned,
};
use core::cmp::Ordering;

verus! {

/// PaxosFollower models a follower member of paxos.
/// The behavior of a follower are roughly the following:
/// - Receive query for last vote cast
/// - Receive request to deny casting votes for ballots before a ballotId
/// - Decide on decree
pub struct PaxosFollower<T> {
    pub state: PaxosState<T>,
}

/// The ballot may become the follower's promise: there is none yet, or it
/// comes no earlier than the current one.
pub open spec fn may_promise<T>(state: PaxosState<T>, ballot_id: BallotId) -> bool {
    match state.promise {
        Some(id) => ballot_at_least(ballot_id, id),
        None => true,
    }
}

impl<T> PaxosFollower<T> {
    pub fn new(member: MemberId, instance_id: InstanceId) -> (f: Self)
        ensures
            f.state.member == member,
            f.state.instace_id == instance_id,
            f.state.promise is None,
            f.state.last_vote is None,
            f.state.last_voted_decree is None,
            f.state.decree is None,
    {
        let state = PaxosState::new(member, instance_id);
        Self { state: state }
    }

    /// Check whether the given ballot id is eligible to be the new promise.
    pub fn can_promise(&self, ballot_id: BallotId) -> (b: bool)
        ensures
            b == may_promise(self.state, ballot_id),
    {
        match self.state.promise {
            Some(id) => ballot_id >= id,
            None => true,  // lacking a promise, it can promise anythign
        }
    }

    /// Check whether the given ballot id is eligible to receive
    /// the instances vote, that is, it does not violate a previous promise.
    /// Voting without a promise violates the protocol, so a promise must
    /// have been made.
    pub fn can_vote(&self, ballot_id: BallotId) -> (b: bool)
        requires
            self.state.promise is Some,
        ensures
            b == ballot_at_least(ballot_id, self.state.promise.unwrap()),
    {
        let promise_id = self.state.promise.as_ref().unwrap();
        &ballot_id >= promise_id
    }

    /// Return whether Paxos instance has reached consensus
    pub fn has_decided(&self) -> (b: bool)
        ensures
            b == self.state.decree is Some,
    {
        self.state.decree.is_some()
    }
}

impl<T: Clone> PaxosFollower<T> {
    /// Set a new promise for the Follower.
    /// Setting a promises creates a new follower whose state is the same
    /// as this one, except for the promise.
    pub fn make_promise(&self, ballot_id: BallotId) -> (r: Option<PaxosFollower<T>>)
        ensures
            r is Some <==> may_promise(self.state, ballot_id),
            r matches Some(f) ==> {
                &&& f.state.promise == Some(ballot_id)
                &&& f.state.member == self.state.member
                &&& f.state.instace_id == self.state.instace_id
                &&& f.state.last_vote == self.state.last_vote
                &&& option_cloned(self.state.last_voted_decree, f.state.last_voted_decree)
                &&& option_cloned(self.state.decree, f.state.decree)
            },
    {
        if !self.can_promise(ballot_id) {
            return None;
        }
        let mut state = self.state.clone();
        state.promise = Some(ballot_id);
        let instance = PaxosFollower { state: state };
        Some(instance)
    }

    /// Return decided decree for instance
    pub fn get_decided_decree(&self) -> (r: Option<T>)
        ensures
            option_cloned(self.state.decree, r),
    {
        self.state.decree.clone()
    }

    /// Cast a vote for the received proposal.
    /// If the proposal can be accepted by the current instance,
    /// return an option containing a vote, otherwise return None
    pub fn cast_vote(&mut self, proposal: &Proposal<T>) -> (r: Option<Vote>)
        requires
            old(self).state.promise is Some,
        ensures
            r is Some <==> ballot_at_least(proposal.ballot, old(self).state.promise.unwrap()),
            r matches Some(vote) ==> {
                &&& vote == Vote { ballot: proposal.ballot, voter: old(self).state.member }
                &&& final(self).state.last_vote == Some(vote)
                &&& final(self).state.last_voted_decree is Some
                &&& cloned::<T>(proposal.decree, final(self).state.last_voted_decree.unwrap())
                &&& final(self).state.member == old(self).state.member
                &&& final(self).state.instace_id == old(self).state.instace_id
                &&& final(self).state.promise == old(self).state.promise
                &&& final(self).state.decree == old(self).state.decree
            },
            r is None ==> *final(self) == *old(self),
    {
        if !self.can_vote(proposal.ballot) {
            return None;
        }
        let vote = Vote { ballot: proposal.ballot, voter: self.state.member };
        self.state.last_vote = Some(vote);
        self.state.last_voted_decree = Some(proposal.decree.clone());
        Some(vote)
    }
}

} // verus!

verus! {

/// Promises only move forward: when a follower that promised `first` then
/// accepts `second` as its new promise, `second` comes no earlier than
/// `first`, nor than any promise made before `first`.
pub proof fn lemma_promises_move_forward<T>(
    before: PaxosState<T>,
    first: BallotId,
    after: PaxosState<T>,
    second: BallotId,
)
    requires
        may_promise(before, first),
        after.promise == Some(first),
        may_promise(after, second),
    ensures
        ballot_at_least(second, first),
        before.promise matches Some(p) ==> ballot_at_least(second, p),
{
}

/// A ballot may be promised exactly when there is no promise yet or it
/// comes no earlier than the promise in ballot order: a greater id, or the
/// same id and an initiator no smaller.  So `can_promise` answers and
/// `make_promise` succeeds on exactly these ballots.
pub proof fn lemma_promise_exactly_no_earlier<T>(state: PaxosState<T>, b: BallotId)
    ensures
        may_promise(state, b) <==> match state.promise {
            None => true,
            Some(p) => b.id > p.id || (b.id == p.id && b.initiator >= p.initiator),
        },
        state.promise matches Some(p) ==> (may_promise(state, b) <==> ballot_cmp(b, p)
            != Ordering::Less),
{
}

} // verus!
