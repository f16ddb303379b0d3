use stellarflow::address::Address;
use stellarflow::ballot::{cast_vote, open_ballot, VotingBallot};
use stellarflow::governance::ContractError;

fn addr(s: &str) -> Address {
    Address::new(s.as_bytes().to_vec())
}

fn fresh() -> VotingBallot {
    open_ballot(&None, addr("old_key"), addr("new_key"), addr("alice"), 1234).unwrap()
}

#[test]
fn opened_ballot_has_no_votes() {
    let b = fresh();
    assert_eq!(b.proposed_at, 1234);
    assert!(b.votes.is_empty());
    assert_eq!(b.target.to_bytes(), b"old_key".to_vec());
    assert_eq!(b.replacement.to_bytes(), b"new_key".to_vec());
    assert_eq!(b.proposer.to_bytes(), b"alice".to_vec());
}

#[test]
fn second_ballot_is_refused() {
    let existing = Some(fresh());
    let r = open_ballot(&existing, addr("a"), addr("b"), addr("c"), 5);
    assert!(matches!(r, Err(ContractError::ProposalAlreadyActive)));
}

#[test]
fn vote_without_ballot_is_refused() {
    assert!(matches!(cast_vote(None, addr("bob")), Err(ContractError::NoActiveProposal)));
}

#[test]
fn each_voter_counts_once() {
    let b = cast_vote(Some(fresh()), addr("bob")).unwrap();
    assert_eq!(b.votes.len(), 1);
    let b = cast_vote(Some(b), addr("carol")).unwrap();
    assert_eq!(b.votes.len(), 2);
    assert_eq!(b.votes[0].to_bytes(), b"bob".to_vec());
    assert_eq!(b.votes[1].to_bytes(), b"carol".to_vec());
    assert!(matches!(cast_vote(Some(b), addr("bob")), Err(ContractError::AlreadyVoted)));
}
