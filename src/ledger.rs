//! The agreement ledger: circuit proposals in flight and the votes cast on
//! them.
//!
//! A proposal is accepted once every member of its circuit has voted Accept,
//! and rejected by the first Reject; a member votes at most once, and only
//! while the proposal is pending.

use vstd::prelude::*;
use crate::routing::{
    contains_string, nodes_view, strings_view, Circuit, CircuitModel, CircuitNode, NodeModel,
};

verus! {

/// What a proposal asks for.
#[derive(Clone, Copy, Debug, PartialEq, Eq, Structural)]
pub enum ProposalType {
    Create,
    Disband,
}

/// Where a proposal stands; `Accepted` and `Rejected` are final.
#[derive(Clone, Copy, Debug, PartialEq, Eq, Structural)]
pub enum ProposalStatus {
    Pending,
    Accepted,
    Rejected,
}

/// A member's answer to a proposal.
#[derive(Clone, Copy, Debug, PartialEq, Eq, Structural)]
pub enum Vote {
    Accept,
    Reject,
}

/// One member's vote on one proposal.
#[derive(Debug)]
pub struct VoteRecord {
    pub voter_public_key: Vec<u8>,
    pub voter_node_id: String,
    pub vote: Vote,
    pub timestamp: u64,
}

/// A candidate circuit, or the disbanding of one, awaiting agreement.
#[derive(Debug)]
pub struct Proposal {
    pub proposal_id: u64,
    pub proposal_type: ProposalType,
    pub circuit_id: String,
    /// Hash of the proposed circuit definition, as the requester gave it.
    pub circuit_hash: Vec<u8>,
    /// The circuit whose members vote, and which is committed on acceptance.
    pub circuit: Circuit,
    /// The member nodes to add along with the circuit.
    pub nodes: Vec<CircuitNode>,
    pub requester: Vec<u8>,
    pub requester_node_id: String,
    pub status: ProposalStatus,
    pub votes: Vec<VoteRecord>,
    pub created_time: u64,
    pub updated_time: u64,
}

/// Why the ledger refused a request.
#[derive(Debug)]
pub enum LedgerError {
    /// The circuit already has a pending proposal.
    ProposalInFlight { circuit_id: String },
    /// No proposal has this id.
    ProposalNotFound { proposal_id: u64 },
    /// The proposal is no longer pending.
    ProposalClosed { status: ProposalStatus },
    /// The voter is not a member of the proposed circuit.
    VoterNotMember { node_id: String },
    /// The voter has already voted on the proposal.
    DuplicateVote { node_id: String },
    /// The proposed circuit has no members to vote on it.
    NoMembers,
    /// The status cannot be set by hand: only the votes accept a proposal.
    InvalidTransition { from: ProposalStatus, to: ProposalStatus },
}

/// Some vote on record is a Reject.
pub open spec fn any_reject(votes: Seq<VoteRecord>) -> bool {
    exists|i: int| 0 <= i < votes.len() && votes[i].vote == Vote::Reject
}

/// `node` has a vote on record.
pub open spec fn has_voted(votes: Seq<VoteRecord>, node: Seq<char>) -> bool {
    exists|i: int| 0 <= i < votes.len() && votes[i].voter_node_id@ == node
}

/// `node` has an Accept on record.
pub open spec fn accepted_by(votes: Seq<VoteRecord>, node: Seq<char>) -> bool {
    exists|i: int| 0 <= i < votes.len() && votes[i].voter_node_id@ == node && votes[i].vote
        == Vote::Accept
}

/// The agreement rule: rejected by any Reject, accepted once every member
/// has accepted, pending until then.
pub open spec fn tally(votes: Seq<VoteRecord>, members: Seq<Seq<char>>) -> ProposalStatus {
    if any_reject(votes) {
        ProposalStatus::Rejected
    } else if forall|m: Seq<char>| #[trigger] members.contains(m) ==> accepted_by(votes, m) {
        ProposalStatus::Accepted
    } else {
        ProposalStatus::Pending
    }
}

impl Proposal {
    /// The node ids of the members who vote on the proposal.
    pub open spec fn members(&self) -> Seq<Seq<char>> {
        strings_view(self.circuit.members@)
    }

    /// The status is what the agreement rule makes of the votes, or the
    /// proposal was withdrawn (rejected) while the votes left it pending.
    pub open spec fn status_agrees(&self) -> bool {
        ||| self.status == tally(self.votes@, self.members())
        ||| self.status == ProposalStatus::Rejected && tally(self.votes@, self.members())
            == ProposalStatus::Pending
    }

    /// The votes on record come from distinct members, and the status agrees
    /// with them.
    pub open spec fn well_formed(&self) -> bool {
        &&& forall|a: int, b: int|
            0 <= a < b < self.votes@.len() ==> self.votes@[a].voter_node_id@
                != self.votes@[b].voter_node_id@
        &&& forall|i: int|
            0 <= i < self.votes@.len() ==> self.members().contains(
                #[trigger] self.votes@[i].voter_node_id@,
            )
        &&& self.status_agrees()
        &&& self.members().len() > 0
    }

    /// `q` is `self` with only its votes, status and update time changed.
    pub open spec fn same_but_votes(&self, q: &Proposal) -> bool {
        &&& q.proposal_id == self.proposal_id
        &&& q.proposal_type == self.proposal_type
        &&& q.circuit_id == self.circuit_id
        &&& q.circuit_hash == self.circuit_hash
        &&& q.circuit == self.circuit
        &&& q.nodes == self.nodes
        &&& q.requester == self.requester
        &&& q.requester_node_id == self.requester_node_id
        &&& q.created_time == self.created_time
    }
}

/// Whether circuit `circuit_id` has a pending proposal.
pub open spec fn in_flight(ps: Seq<Proposal>, circuit_id: Seq<char>) -> bool {
    exists|i: int|
        0 <= i < ps.len() && ps[i].circuit_id@ == circuit_id && ps[i].status
            == ProposalStatus::Pending
}

/// Under the agreement rule, with votes from distinct members, a proposal is
/// accepted exactly when every vote is an Accept and the voters are exactly
/// the members; and any Reject rejects it, whatever Accepts came before.
pub proof fn lemma_unanimity(p: Proposal)
    requires
        p.well_formed(),
    ensures
        p.status == ProposalStatus::Accepted <==> {
            &&& forall|i: int| 0 <= i < p.votes@.len() ==> #[trigger] p.votes@[i].vote == Vote::Accept
            &&& forall|m: Seq<char>| #[trigger]
                p.members().contains(m) <==> has_voted(p.votes@, m)
        },
        any_reject(p.votes@) ==> p.status == ProposalStatus::Rejected,
{
    let votes = p.votes@;
    if p.status == ProposalStatus::Accepted {
        assert forall|i: int| 0 <= i < votes.len() implies #[trigger] votes[i].vote == Vote::Accept by {
            if votes[i].vote == Vote::Reject {
                assert(any_reject(votes));
            }
        }
        assert forall|m: Seq<char>| #[trigger] p.members().contains(m) implies has_voted(votes, m) by {
            assert(accepted_by(votes, m));
        }
        assert forall|m: Seq<char>| has_voted(votes, m) implies #[trigger] p.members().contains(m) by {
            let i = choose|i: int| 0 <= i < votes.len() && votes[i].voter_node_id@ == m;
        }
    }
    if (forall|i: int| 0 <= i < votes.len() ==> #[trigger] votes[i].vote == Vote::Accept) && (
    forall|m: Seq<char>| #[trigger] p.members().contains(m) <==> has_voted(votes, m)) {
        assert forall|m: Seq<char>| #[trigger] p.members().contains(m) implies accepted_by(votes, m) by {
            assert(has_voted(votes, m));
            let i = choose|i: int| 0 <= i < votes.len() && votes[i].voter_node_id@ == m;
            assert(votes[i].vote == Vote::Accept);
        }
        assert(!any_reject(votes));
    }
}

/// What creating a proposal does to the ledger: refused, with nothing
/// changed, while the circuit has a pending proposal or if it has no members;
/// otherwise a pending proposal without votes is appended under the next id.
pub open spec fn create_outcome(
    before: Seq<Proposal>,
    after: Seq<Proposal>,
    r: Result<u64, LedgerError>,
    proposal_type: ProposalType,
    circuit: CircuitModel,
    nodes: Seq<NodeModel>,
    circuit_hash: Vec<u8>,
    requester: Vec<u8>,
    requester_node_id: String,
    timestamp: u64,
) -> bool {
    if in_flight(before, circuit.circuit_id) {
        after == before && (r matches Err(LedgerError::ProposalInFlight { circuit_id })
            && circuit_id@ == circuit.circuit_id)
    } else if circuit.members.len() == 0 {
        after == before && r matches Err(LedgerError::NoMembers)
    } else {
        r matches Ok(id) && id == before.len() && after.len() == before.len() + 1 && after.subrange(
            0,
            id as int,
        ) == before && {
            let p = after[id as int];
            &&& p.proposal_id == id
            &&& p.proposal_type == proposal_type
            &&& p.circuit_id@ == circuit.circuit_id
            &&& p.circuit@ == circuit
            &&& nodes_view(p.nodes@) == nodes
            &&& p.circuit_hash == circuit_hash
            &&& p.requester == requester
            &&& p.requester_node_id == requester_node_id
            &&& p.status == ProposalStatus::Pending
            &&& p.votes@.len() == 0
            &&& p.created_time == timestamp
            &&& p.updated_time == timestamp
        }
    }
}

/// What recording a vote does to the ledger: refused, with nothing changed,
/// for an unknown or closed proposal, a voter who is not a member, or one who
/// has voted; otherwise the vote is added and the proposal takes the status
/// the agreement rule gives, which is returned.
pub open spec fn vote_outcome(
    before: Seq<Proposal>,
    after: Seq<Proposal>,
    proposal_id: u64,
    vote: VoteRecord,
    r: Result<ProposalStatus, LedgerError>,
) -> bool {
    if proposal_id >= before.len() {
        after == before && (r matches Err(LedgerError::ProposalNotFound { proposal_id: id })
            && id == proposal_id)
    } else {
        let p = before[proposal_id as int];
        let voter = vote.voter_node_id@;
        if p.status != ProposalStatus::Pending {
            after == before && (r matches Err(LedgerError::ProposalClosed { status })
                && status == p.status)
        } else if !p.members().contains(voter) {
            after == before && (r matches Err(LedgerError::VoterNotMember { node_id })
                && node_id@ == voter)
        } else if has_voted(p.votes@, voter) {
            after == before && (r matches Err(LedgerError::DuplicateVote { node_id })
                && node_id@ == voter)
        } else {
            let q = after[proposal_id as int];
            &&& r == Ok::<ProposalStatus, LedgerError>(tally(p.votes@.push(vote), p.members()))
            &&& after.len() == before.len()
            &&& forall|j: int|
                0 <= j < before.len() && j != proposal_id ==> #[trigger] after[j] == before[j]
            &&& p.same_but_votes(&q)
            &&& q.votes@ == p.votes@.push(vote)
            &&& q.status == tally(p.votes@.push(vote), p.members())
            &&& q.updated_time == vote.timestamp
        }
    }
}

/// A Reject rejects, whatever votes came before it.
pub proof fn lemma_reject_rejects(votes: Seq<VoteRecord>, vote: VoteRecord, members: Seq<Seq<char>>)
    requires
        vote.vote == Vote::Reject,
    ensures
        tally(votes.push(vote), members) == ProposalStatus::Rejected,
{
    assert(votes.push(vote)[votes.len() as int] == vote);
}

/// What setting a proposal's status by hand does to the ledger: refused, with
/// nothing changed, for an unknown or closed proposal or a move to Accepted;
/// a move to Pending changes nothing; a move to Rejected withdraws the
/// proposal, leaving its votes as they are.
pub open spec fn transition_outcome(
    before: Seq<Proposal>,
    after: Seq<Proposal>,
    proposal_id: u64,
    new_status: ProposalStatus,
    r: Result<ProposalStatus, LedgerError>,
) -> bool {
    if proposal_id >= before.len() {
        after == before && (r matches Err(LedgerError::ProposalNotFound { proposal_id: id })
            && id == proposal_id)
    } else {
        let p = before[proposal_id as int];
        if p.status != ProposalStatus::Pending {
            after == before && (r matches Err(LedgerError::ProposalClosed { status })
                && status == p.status)
        } else {
            match new_status {
                ProposalStatus::Pending => after == before && r == Ok::<
                    ProposalStatus,
                    LedgerError,
                >(ProposalStatus::Pending),
                ProposalStatus::Accepted => after == before && r == Err::<
                    ProposalStatus,
                    LedgerError,
                >(
                    LedgerError::InvalidTransition {
                        from: ProposalStatus::Pending,
                        to: ProposalStatus::Accepted,
                    },
                ),
                ProposalStatus::Rejected => {
                    let q = after[proposal_id as int];
                    &&& r == Ok::<ProposalStatus, LedgerError>(ProposalStatus::Rejected)
                    &&& after.len() == before.len()
                    &&& forall|j: int|
                        0 <= j < before.len() && j != proposal_id ==> #[trigger] after[j]
                            == before[j]
                    &&& p.same_but_votes(&q)
                    &&& q.votes == p.votes
                    &&& q.updated_time == p.updated_time
                    &&& q.status == ProposalStatus::Rejected
                },
            }
        }
    }
}

/// The ledger: proposals in the order they were made; a proposal's id is its
/// position.
pub struct AgreementLedger {
    proposals: Vec<Proposal>,
}

impl View for AgreementLedger {
    type V = Seq<Proposal>;

    closed spec fn view(&self) -> Seq<Proposal> {
        self.proposals@
    }
}

/// Whether an earlier vote on record comes from `node_id`.
fn has_voted_exec(votes: &Vec<VoteRecord>, node_id: &String) -> (r: bool)
    ensures
        r == has_voted(votes@, node_id@),
{
    let mut i: usize = 0;
    while i < votes.len()
        invariant
            i <= votes@.len(),
            forall|k: int| 0 <= k < i ==> votes@[k].voter_node_id@ != node_id@,
        decreases votes@.len() - i,
    {
        if votes[i].voter_node_id == *node_id {
            return true;
        }
        i = i + 1;
    }
    false
}

/// Whether `node_id` has an Accept on record.
fn accepted_by_exec(votes: &Vec<VoteRecord>, node_id: &String) -> (r: bool)
    ensures
        r == accepted_by(votes@, node_id@),
{
    let mut i: usize = 0;
    while i < votes.len()
        invariant
            i <= votes@.len(),
            forall|k: int|
                0 <= k < i ==> !(votes@[k].voter_node_id@ == node_id@ && votes@[k].vote
                    == Vote::Accept),
        decreases votes@.len() - i,
    {
        if votes[i].voter_node_id == *node_id && votes[i].vote == Vote::Accept {
            return true;
        }
        i = i + 1;
    }
    false
}

/// Whether some vote on record is a Reject.
fn has_reject(votes: &Vec<VoteRecord>) -> (r: bool)
    ensures
        r == any_reject(votes@),
{
    let mut i: usize = 0;
    while i < votes.len()
        invariant
            i <= votes@.len(),
            forall|k: int| 0 <= k < i ==> votes@[k].vote != Vote::Reject,
        decreases votes@.len() - i,
    {
        if votes[i].vote == Vote::Reject {
            return true;
        }
        i = i + 1;
    }
    false
}

/// Whether every member has an Accept on record.
fn all_accepted(votes: &Vec<VoteRecord>, members: &Vec<String>) -> (r: bool)
    ensures
        r == forall|m: Seq<char>| #[trigger] strings_view(members@).contains(m) ==> accepted_by(
            votes@,
            m,
        ),
{
    let mut i: usize = 0;
    while i < members.len()
        invariant
            i <= members@.len(),
            forall|k: int| 0 <= k < i ==> accepted_by(votes@, #[trigger] members@[k]@),
        decreases members@.len() - i,
    {
        if !accepted_by_exec(votes, &members[i]) {
            assert(strings_view(members@)[i as int] == members@[i as int]@);
            assert(strings_view(members@).contains(members@[i as int]@));
            return false;
        }
        i = i + 1;
    }
    assert forall|m: Seq<char>| #[trigger] strings_view(members@).contains(m) implies accepted_by(
        votes@,
        m,
    ) by {
        let k = choose|k: int| 0 <= k < strings_view(members@).len() && strings_view(members@)[k] == m;
        assert(members@[k]@ == m);
    }
    true
}

impl AgreementLedger {
    /// Every proposal is well formed and sits at the position of its id, and
    /// no circuit has two pending proposals.
    pub closed spec fn well_formed(&self) -> bool {
        &&& forall|i: int| 0 <= i < self.proposals@.len() ==> #[trigger] self.proposals@[i].well_formed()
        &&& forall|i: int| 0 <= i < self.proposals@.len() ==> #[trigger] self.proposals@[i].proposal_id == i
        &&& forall|i: int, j: int|
            0 <= i < self.proposals@.len() && 0 <= j < self.proposals@.len() && i != j
                && self.proposals@[i].status == ProposalStatus::Pending && self.proposals@[j].status
                == ProposalStatus::Pending ==> self.proposals@[i].circuit_id@
                != self.proposals@[j].circuit_id@
    }

    /// An empty ledger.
    pub fn new() -> (r: Self)
        ensures
            r.well_formed(),
            r@ == Seq::<Proposal>::empty(),
    {
        AgreementLedger { proposals: Vec::new() }
    }

    /// The proposal with id `proposal_id`, if any.
    pub fn proposal(&self, proposal_id: u64) -> (r: Option<&Proposal>)
        requires
            self.well_formed(),
        ensures
            match r {
                Some(p) => proposal_id < self@.len() && *p == self@[proposal_id as int],
                None => proposal_id >= self@.len(),
            },
            forall|i: int| 0 <= i < self@.len() ==> (#[trigger] self@[i]).well_formed(),
            forall|i: int| 0 <= i < self@.len() ==> (#[trigger] self@[i]).proposal_id == i,
    {
        if proposal_id < self.proposals.len() as u64 {
            Some(&self.proposals[proposal_id as usize])
        } else {
            None
        }
    }

    /// What the agreement rule makes of the votes on a proposal; the status
    /// on record agrees with it.
    pub fn tally(&self, proposal_id: u64) -> (r: Result<ProposalStatus, LedgerError>)
        requires
            self.well_formed(),
        ensures
            proposal_id >= self@.len() ==> (r matches Err(
                LedgerError::ProposalNotFound { proposal_id: id },
            ) && id == proposal_id),
            proposal_id < self@.len() ==> {
                let p = self@[proposal_id as int];
                &&& r == Ok::<ProposalStatus, LedgerError>(tally(p.votes@, p.members()))
                &&& p.status_agrees()
            },
    {
        if proposal_id >= self.proposals.len() as u64 {
            return Err(LedgerError::ProposalNotFound { proposal_id });
        }
        let p = &self.proposals[proposal_id as usize];
        assert(self.proposals@[proposal_id as int].well_formed());
        if has_reject(&p.votes) {
            Ok(ProposalStatus::Rejected)
        } else if all_accepted(&p.votes, &p.circuit.members) {
            Ok(ProposalStatus::Accepted)
        } else {
            Ok(ProposalStatus::Pending)
        }
    }

    /// Sets the status of a pending proposal by hand: it can be withdrawn
    /// (rejected), never accepted, since only the members' votes accept.
    pub fn transition_status(&mut self, proposal_id: u64, new_status: ProposalStatus) -> (r: Result<
        ProposalStatus,
        LedgerError,
    >)
        requires
            old(self).well_formed(),
        ensures
            final(self).well_formed(),
            transition_outcome(old(self)@, final(self)@, proposal_id, new_status, r),
    {
        if proposal_id >= self.proposals.len() as u64 {
            return Err(LedgerError::ProposalNotFound { proposal_id });
        }
        let i = proposal_id as usize;
        let status = self.proposals[i].status;
        if status != ProposalStatus::Pending {
            return Err(LedgerError::ProposalClosed { status });
        }
        match new_status {
            ProposalStatus::Pending => Ok(ProposalStatus::Pending),
            ProposalStatus::Accepted => Err(
                LedgerError::InvalidTransition {
                    from: ProposalStatus::Pending,
                    to: ProposalStatus::Accepted,
                },
            ),
            ProposalStatus::Rejected => {
                let ghost before = self.proposals@;
                proof {
                    assert(before[i as int].well_formed());
                }
                let mut p = self.proposals.remove(i);
                p.status = ProposalStatus::Rejected;
                self.proposals.insert(i, p);
                proof {
                    let q = self.proposals@[i as int];
                    assert(self.proposals@ =~= before.update(i as int, q));
                    assert(q.well_formed());
                }
                Ok(ProposalStatus::Rejected)
            },
        }
    }

    /// Records a new pending proposal for `circuit` and returns its id;
    /// refused while the circuit has a pending proposal, or if the circuit
    /// has no members.
    pub fn create_proposal(
        &mut self,
        proposal_type: ProposalType,
        circuit: Circuit,
        nodes: Vec<CircuitNode>,
        circuit_hash: Vec<u8>,
        requester: Vec<u8>,
        requester_node_id: String,
        timestamp: u64,
    ) -> (r: Result<u64, LedgerError>)
        requires
            old(self).well_formed(),
        ensures
            final(self).well_formed(),
            create_outcome(
                old(self)@,
                final(self)@,
                r,
                proposal_type,
                circuit@,
                nodes_view(nodes@),
                circuit_hash,
                requester,
                requester_node_id,
                timestamp,
            ),
    {
        let mut i: usize = 0;
        while i < self.proposals.len()
            invariant
                self.well_formed(),
                i <= self.proposals@.len(),
                forall|k: int|
                    0 <= k < i ==> !(self.proposals@[k].circuit_id@ == circuit.circuit_id@
                        && self.proposals@[k].status == ProposalStatus::Pending),
            decreases self.proposals@.len() - i,
        {
            if self.proposals[i].circuit_id == circuit.circuit_id && self.proposals[i].status
                == ProposalStatus::Pending {
                return Err(LedgerError::ProposalInFlight { circuit_id: circuit.circuit_id.clone() });
            }
            i = i + 1;
        }
        if circuit.members.len() == 0 {
            return Err(LedgerError::NoMembers);
        }
        let proposal_id = self.proposals.len() as u64;
        let votes: Vec<VoteRecord> = Vec::new();
        let proposal = Proposal {
            proposal_id,
            proposal_type,
            circuit_id: circuit.circuit_id.clone(),
            circuit_hash,
            circuit,
            nodes,
            requester,
            requester_node_id,
            status: ProposalStatus::Pending,
            votes,
            created_time: timestamp,
            updated_time: timestamp,
        };
        proof {
            let p = proposal;
            assert(!any_reject(p.votes@));
            assert(p.members().len() > 0);
            assert(p.members().contains(p.members()[0]));
            assert(!accepted_by(p.votes@, p.members()[0]));
            assert(tally(p.votes@, p.members()) == ProposalStatus::Pending);
        }
        let ghost before = self.proposals@;
        self.proposals.push(proposal);
        proof {
            assert(self.proposals@.subrange(0, before.len() as int) =~= before);
        }
        Ok(proposal_id)
    }

    /// Records a member's vote on a pending proposal and returns the status
    /// that the agreement rule gives it now.
    pub fn record_vote(&mut self, proposal_id: u64, vote: VoteRecord) -> (r: Result<
        ProposalStatus,
        LedgerError,
    >)
        requires
            old(self).well_formed(),
        ensures
            final(self).well_formed(),
            vote_outcome(old(self)@, final(self)@, proposal_id, vote, r),
    {
        if proposal_id >= self.proposals.len() as u64 {
            return Err(LedgerError::ProposalNotFound { proposal_id });
        }
        let i = proposal_id as usize;
        let status = self.proposals[i].status;
        if status != ProposalStatus::Pending {
            return Err(LedgerError::ProposalClosed { status });
        }
        if !contains_string(&self.proposals[i].circuit.members, &vote.voter_node_id) {
            return Err(LedgerError::VoterNotMember { node_id: vote.voter_node_id.clone() });
        }
        if has_voted_exec(&self.proposals[i].votes, &vote.voter_node_id) {
            return Err(LedgerError::DuplicateVote { node_id: vote.voter_node_id.clone() });
        }
        let ghost before = self.proposals@;
        let ghost old_votes = before[i as int].votes@;
        let ghost voter = vote.voter_node_id@;
        proof {
            assert(before[i as int].well_formed());
            assert(!has_voted(old_votes, voter));
        }
        let timestamp = vote.timestamp;
        let rejected = vote.vote == Vote::Reject;
        let mut p = self.proposals.remove(i);
        p.votes.push(vote);
        let new_status = if rejected {
            ProposalStatus::Rejected
        } else if all_accepted(&p.votes, &p.circuit.members) {
            ProposalStatus::Accepted
        } else {
            ProposalStatus::Pending
        };
        proof {
            let votes = p.votes@;
            assert(votes == old_votes.push(votes.last()));
            assert(votes.last().voter_node_id@ == voter);
            assert(!any_reject(old_votes));
            if rejected {
                assert(votes[votes.len() - 1].vote == Vote::Reject);
                assert(any_reject(votes));
            } else {
                assert forall|k: int| 0 <= k < votes.len() implies votes[k].vote != Vote::Reject by {
                    if k < old_votes.len() {
                        assert(votes[k] == old_votes[k]);
                    }
                }
            }
        }
        p.status = new_status;
        p.updated_time = timestamp;
        self.proposals.insert(i, p);
        proof {
            let q = self.proposals@[i as int];
            assert(self.proposals@ =~= before.update(i as int, q));
            assert(q.circuit == before[i as int].circuit);
            assert(q.votes@ == old_votes.push(q.votes@.last()));
            assert(q.votes@.last().voter_node_id@ == voter);
            assert forall|a: int, b: int|
                0 <= a < b < q.votes@.len() implies q.votes@[a].voter_node_id@
                != q.votes@[b].voter_node_id@ by {
                assert(q.votes@[a] == old_votes[a]);
                if b < old_votes.len() {
                    assert(q.votes@[b] == old_votes[b]);
                } else {
                    assert(old_votes[a].voter_node_id@ != voter);
                }
            }
            assert forall|k: int| 0 <= k < q.votes@.len() implies q.members().contains(
                #[trigger] q.votes@[k].voter_node_id@,
            ) by {
                if k < old_votes.len() {
                    assert(q.votes@[k] == old_votes[k]);
                }
            }
            assert(q.well_formed());
        }
        Ok(new_status)
    }
}

} // verus!
