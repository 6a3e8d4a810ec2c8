use rustlab::paxos::follower::PaxosFollower;
use rustlab::paxos::{BallotId, MemberId, PaxosState, Proposal, Vote};
use std::cmp::Ordering;

const LEADER_ID: MemberId = 10;

fn make_id(id: u64) -> BallotId {
    BallotId { id: id, initiator: LEADER_ID }
}

#[test]
fn test_new_follower_can_promise() {
    let follower = PaxosFollower::<u64>::new(1, 1);
    let id = make_id(10);

    let can_promise = follower.can_promise(id);

    assert!(can_promise);
}

#[test]
fn test_cast_vote_return_expected_vote() {
    let follower = PaxosFollower::new(1, 1);
    let id = make_id(10);
    let mut follower = follower.make_promise(id).unwrap();

    let prop = Proposal { ballot: id, decree: 1 };

    let vote_opt = follower.cast_vote(&prop);
    assert!(vote_opt.is_some());

    let expected = Vote { ballot: id, voter: follower.state.member };
    assert_eq!(expected, vote_opt.unwrap());
}

#[test]
fn test_follower_cannot_promise_for_ballot_less_than_current_promise() {
    let follower = PaxosFollower::new(1, 1);
    let id = make_id(10);
    let mut follower = follower.make_promise(id).unwrap();

    let id = make_id(5);
    let prop = Proposal { ballot: id, decree: 2 };
    let vote_opt = follower.cast_vote(&prop);
    assert!(vote_opt.is_none());
}

#[test]
fn test_follower_promise_return_new_follower_with_correct_promise() {
    let follower = PaxosFollower::<u64>::new(1, 1);
    let id = make_id(10);

    let new_follower = follower.make_promise(id);

    assert_eq!(follower.state.promise, None);
    assert_eq!(new_follower.unwrap().state.promise, Some(id));
}

#[test]
fn ballots_compare_by_id_then_initiator() {
    let a = BallotId { id: 3, initiator: 1 };
    let b = BallotId { id: 3, initiator: 2 };
    let c = BallotId { id: 4, initiator: 0 };
    assert_eq!(a.partial_cmp(&b), Some(Ordering::Less));
    assert_eq!(c.partial_cmp(&b), Some(Ordering::Greater));
    assert_eq!(a.partial_cmp(&a), Some(Ordering::Equal));
    assert!(c >= b && b >= a);
}

#[test]
fn promises_never_go_back() {
    let follower = PaxosFollower::<u64>::new(7, 2);
    let follower = follower.make_promise(make_id(10)).unwrap();
    assert!(follower.make_promise(make_id(9)).is_none());
    assert!(!follower.can_promise(make_id(9)));
    let same = follower.make_promise(make_id(10)).unwrap();
    assert_eq!(same.state.promise, Some(make_id(10)));
    let higher = BallotId { id: 10, initiator: LEADER_ID + 1 };
    assert!(follower.can_promise(higher));
    assert!(follower.can_vote(higher));
    assert!(!follower.can_vote(make_id(9)));
}

#[test]
fn a_vote_records_the_decree() {
    let follower = PaxosFollower::new(3, 9).make_promise(make_id(1)).unwrap();
    let mut follower = follower;
    assert!(!follower.has_decided());
    assert_eq!(follower.get_decided_decree(), None);
    let vote = follower.cast_vote(&Proposal { ballot: make_id(2), decree: String::from("x") });
    assert_eq!(vote, Some(Vote { ballot: make_id(2), voter: 3 }));
    assert_eq!(follower.state.last_vote, vote);
    assert_eq!(follower.state.last_voted_decree, Some(String::from("x")));
    assert_eq!(follower.state.instace_id, 9);
}

#[test]
fn new_state_is_empty() {
    let state = PaxosState::<u8>::new(4, 5);
    assert_eq!(state.member, 4);
    assert_eq!(state.instace_id, 5);
    assert!(state.promise.is_none() && state.last_vote.is_none());
    assert!(state.last_voted_decree.is_none() && state.decree.is_none());
}
