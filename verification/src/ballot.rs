//! Voting ballots on the replacement of a key: opened once per proposal, and
//! each voter counted once.
use vstd::prelude::*;
use crate::address::{Address, ByteKey, contains_key, views};
use crate::governance::{ContractError, key_set};

verus! {

/// A ballot on replacing `target` with `replacement`, with the voters so far.
#[derive(Debug)]
pub struct VotingBallot {
    pub target: Address,
    pub replacement: Address,
    pub proposer: Address,
    pub proposed_at: u64,
    pub votes: Vec<Address>,
}

/// A ballot as mathematical values.
pub struct BallotModel {
    pub target: Seq<u8>,
    pub replacement: Seq<u8>,
    pub proposer: Seq<u8>,
    pub proposed_at: u64,
    pub votes: Set<Seq<u8>>,
}

impl View for VotingBallot {
    type V = BallotModel;

    open spec fn view(&self) -> BallotModel {
        BallotModel {
            target: self.target@,
            replacement: self.replacement@,
            proposer: self.proposer@,
            proposed_at: self.proposed_at,
            votes: key_set(views(self.votes@)),
        }
    }
}

pub open spec fn ballot_option_view(b: Option<VotingBallot>) -> Option<BallotModel> {
    match b {
        Some(x) => Some(x@),
        None => None,
    }
}

pub open spec fn ballot_result_view(r: Result<VotingBallot, ContractError>) -> Result<
    BallotModel,
    ContractError,
> {
    match r {
        Ok(b) => Ok(b@),
        Err(e) => Err(e),
    }
}

/// Opening a ballot where the proposal already has one is refused; else the
/// new ballot records its subject, proposer and time, with no votes.
pub open spec fn open_outcome(
    existing: Option<BallotModel>,
    target: Seq<u8>,
    replacement: Seq<u8>,
    proposer: Seq<u8>,
    now: u64,
) -> Result<BallotModel, ContractError> {
    if existing is Some {
        Err(ContractError::ProposalAlreadyActive)
    } else {
        Ok(
            BallotModel {
                target,
                replacement,
                proposer,
                proposed_at: now,
                votes: Set::empty(),
            },
        )
    }
}

/// A vote needs an open ballot, and counts once per voter: the ballot gains
/// the voter and is otherwise unchanged.
pub open spec fn vote_outcome(existing: Option<BallotModel>, voter: Seq<u8>) -> Result<
    BallotModel,
    ContractError,
> {
    match existing {
        None => Err(ContractError::NoActiveProposal),
        Some(b) => if b.votes.contains(voter) {
            Err(ContractError::AlreadyVoted)
        } else {
            Ok(BallotModel { votes: b.votes.insert(voter), ..b })
        },
    }
}

/// Opens a ballot for a proposal whose current ballot is `existing`.
pub fn open_ballot(
    existing: &Option<VotingBallot>,
    target: Address,
    replacement: Address,
    proposer: Address,
    now: u64,
) -> (r: Result<VotingBallot, ContractError>)
    ensures
        ballot_result_view(r) == open_outcome(
            ballot_option_view(*existing),
            target@,
            replacement@,
            proposer@,
            now,
        ),
        r matches Ok(b) ==> b.votes@.len() == 0,
{
    if existing.is_some() {
        return Err(ContractError::ProposalAlreadyActive);
    }
    let b = VotingBallot { target, replacement, proposer, proposed_at: now, votes: Vec::new() };
    assert(b@.votes =~= Set::<Seq<u8>>::empty());
    Ok(b)
}

/// Records `voter`'s vote on the ballot `existing`, returning the ballot as
/// it stands after the vote; the votes are listed in the order they were cast.
pub fn cast_vote(existing: Option<VotingBallot>, voter: Address) -> (r: Result<
    VotingBallot,
    ContractError,
>)
    ensures
        ballot_result_view(r) == vote_outcome(ballot_option_view(existing), voter@),
        r matches Ok(b) ==> existing matches Some(e) && views(b.votes@) == views(e.votes@).push(
            voter@,
        ),
{
    let mut ballot = match existing {
        Some(b) => b,
        None => {
            return Err(ContractError::NoActiveProposal);
        },
    };
    if contains_key(&ballot.votes, &voter) {
        return Err(ContractError::AlreadyVoted);
    }
    let ghost before = ballot@;
    let ghost vs = views(ballot.votes@);
    ballot.votes.push(voter);
    assert(views(ballot.votes@) =~= vs.push(voter@));
    assert forall|x: Seq<u8>| vs.push(voter@).contains(x) <==> (vs.contains(x) || x == voter@) by {
        if vs.push(voter@).contains(x) {
            let k = choose|k: int| 0 <= k < vs.len() + 1 && vs.push(voter@)[k] == x;
            if k < vs.len() {
                assert(vs[k] == x);
            }
        }
        if vs.contains(x) {
            let k = choose|k: int| 0 <= k < vs.len() && vs[k] == x;
            assert(vs.push(voter@)[k] == x);
        }
        assert(vs.push(voter@)[vs.len() as int] == voter@);
    }
    assert(ballot@.votes =~= before.votes.insert(voter@));
    Ok(ballot)
}

/// Each voter is counted once: after a vote is accepted, the same voter's
/// next vote on that ballot is refused with `AlreadyVoted`.
pub proof fn law_one_vote_per_voter(existing: Option<BallotModel>, voter: Seq<u8>)
    requires
        vote_outcome(existing, voter) is Ok,
    ensures
        vote_outcome(Some(vote_outcome(existing, voter)->Ok_0), voter) == Err::<
            BallotModel,
            ContractError,
        >(ContractError::AlreadyVoted),
{
}

/// A proposal has at most one ballot: once one is opened, opening another is
/// refused with `ProposalAlreadyActive`.
pub proof fn law_ballot_opened_once(
    existing: Option<BallotModel>,
    target: Seq<u8>,
    replacement: Seq<u8>,
    proposer: Seq<u8>,
    now: u64,
    later: u64,
)
    requires
        open_outcome(existing, target, replacement, proposer, now) is Ok,
    ensures
        open_outcome(
            Some(open_outcome(existing, target, replacement, proposer, now)->Ok_0),
            target,
            replacement,
            proposer,
            later,
        ) == Err::<BallotModel, ContractError>(ContractError::ProposalAlreadyActive),
{
}

/// A vote on an open ballot is refused exactly when the voter is already
/// among its votes; any other voter, the proposer included, is accepted and
/// added, with the rest of the ballot unchanged. Without a ballot every vote
/// is refused with `NoActiveProposal`.
pub proof fn law_vote_refused_only_for_repeat_voters(b: BallotModel, voter: Seq<u8>)
    ensures
        vote_outcome(Some(b), voter) is Err <==> b.votes.contains(voter),
        vote_outcome(Some(b), voter) is Err ==> vote_outcome(Some(b), voter) == Err::<
            BallotModel,
            ContractError,
        >(ContractError::AlreadyVoted),
        !b.votes.contains(voter) ==> {
            let r = vote_outcome(Some(b), voter)->Ok_0;
            &&& r.votes.contains(voter)
            &&& forall|x: Seq<u8>| x != voter ==> (r.votes.contains(x) <==> b.votes.contains(x))
            &&& r.target == b.target && r.replacement == b.replacement
            &&& r.proposer == b.proposer && r.proposed_at == b.proposed_at
        },
        vote_outcome(None, voter) == Err::<BallotModel, ContractError>(
            ContractError::NoActiveProposal,
        ),
{
}

/// Where no ballot is open for a proposal, opening one always succeeds and
/// records exactly the subject, the proposer and the time given, with no
/// votes.
pub proof fn law_open_ballot_records_its_inputs(
    target: Seq<u8>,
    replacement: Seq<u8>,
    proposer: Seq<u8>,
    now: u64,
)
    ensures
        ({
            let r = open_outcome(None, target, replacement, proposer, now);
            &&& r is Ok
            &&& r->Ok_0.target == target && r->Ok_0.replacement == replacement
            &&& r->Ok_0.proposer == proposer && r->Ok_0.proposed_at == now
            &&& forall|x: Seq<u8>| !r->Ok_0.votes.contains(x)
        }),
{
}

} // verus!
