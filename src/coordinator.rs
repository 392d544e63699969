//! The circuit lifecycle coordinator: the one component that spans the
//! agreement ledger and the routing table.
//!
//! Payloads are checked before the ledger is touched; the signature check and
//! the hash of the circuit definition are done by the caller and handed in.
//! When a proposal becomes accepted the coordinator commits it to the routing
//! table; if that fails the proposal stays accepted and the failure is
//! returned.

use vstd::prelude::*;
use crate::ledger::{
    create_outcome, transition_outcome, vote_outcome, AgreementLedger, LedgerError, Proposal, ProposalStatus,
    ProposalType, VoteRecord,
};
use crate::routing::{
    clone_nodes, contains_string, nodes_view, strings_view, Circuit, CircuitNode,
};
use crate::routing::NodeModel;
use crate::routing_state::{RoutingErrorModel, RoutingState};
use crate::routing_table::{
    RoutingTable, RoutingTableError, RoutingTableModel, RoutingTableReader, RoutingTableWriter,
};

verus! {

/// The header of a management payload.
#[derive(Debug)]
pub struct PayloadHeader {
    /// Public key of the requester.
    pub requester: Vec<u8>,
    pub requester_node_id: String,
    /// Hash of the circuit definition, as the requester states it.
    pub content_hash: Vec<u8>,
}

/// The classes of coordinator errors.
#[derive(Clone, Copy, Debug, PartialEq, Eq, Structural)]
pub enum ErrorKind {
    /// Malformed or unauthenticated input; retrying it cannot succeed.
    Validation,
    /// The request clashes with recorded state; retrying reproduces it.
    Conflict,
    /// The proposal or circuit named does not exist.
    NotFound,
}

/// Why the coordinator refused a payload.
#[derive(Debug)]
pub enum CoordinatorError {
    /// The payload's signature did not verify against the requester's key.
    InvalidSignature,
    /// The hash of the circuit definition differs from the header's.
    ContentHashMismatch,
    /// A service of the roster allows a node that is not a member.
    NodeNotMember { service_id: String, node_id: String },
    /// The circuit is already in the routing table.
    CircuitAlreadyCommitted { circuit_id: String },
    /// The circuit is not in the routing table.
    CircuitNotFound { circuit_id: String },
    /// The proposal has not been accepted.
    ProposalNotAccepted { status: ProposalStatus },
    /// The ledger refused the request.
    Ledger(LedgerError),
    /// The routing table refused the commit.
    Commit(RoutingTableError),
}

impl CoordinatorError {
    /// The class the error belongs to.
    pub fn kind(&self) -> (r: ErrorKind)
        ensures
            r == match self {
                CoordinatorError::InvalidSignature => ErrorKind::Validation,
                CoordinatorError::ContentHashMismatch => ErrorKind::Validation,
                CoordinatorError::NodeNotMember { .. } => ErrorKind::Validation,
                CoordinatorError::CircuitAlreadyCommitted { .. } => ErrorKind::Conflict,
                CoordinatorError::CircuitNotFound { .. } => ErrorKind::NotFound,
                CoordinatorError::ProposalNotAccepted { .. } => ErrorKind::Conflict,
                CoordinatorError::Ledger(error) => match error {
                    LedgerError::ProposalInFlight { .. } => ErrorKind::Conflict,
                    LedgerError::ProposalNotFound { .. } => ErrorKind::NotFound,
                    LedgerError::ProposalClosed { .. } => ErrorKind::Conflict,
                    LedgerError::VoterNotMember { .. } => ErrorKind::Validation,
                    LedgerError::DuplicateVote { .. } => ErrorKind::Conflict,
                    LedgerError::NoMembers => ErrorKind::Validation,
                    LedgerError::InvalidTransition { .. } => ErrorKind::Conflict,
                },
                CoordinatorError::Commit(_) => ErrorKind::Conflict,
            },
    {
        match self {
            CoordinatorError::InvalidSignature => ErrorKind::Validation,
            CoordinatorError::ContentHashMismatch => ErrorKind::Validation,
            CoordinatorError::NodeNotMember { .. } => ErrorKind::Validation,
            CoordinatorError::CircuitAlreadyCommitted { .. } => ErrorKind::Conflict,
            CoordinatorError::CircuitNotFound { .. } => ErrorKind::NotFound,
            CoordinatorError::ProposalNotAccepted { .. } => ErrorKind::Conflict,
            CoordinatorError::Ledger(error) => match error {
                LedgerError::ProposalInFlight { .. } => ErrorKind::Conflict,
                LedgerError::ProposalNotFound { .. } => ErrorKind::NotFound,
                LedgerError::ProposalClosed { .. } => ErrorKind::Conflict,
                LedgerError::VoterNotMember { .. } => ErrorKind::Validation,
                LedgerError::DuplicateVote { .. } => ErrorKind::Conflict,
                LedgerError::NoMembers => ErrorKind::Validation,
                LedgerError::InvalidTransition { .. } => ErrorKind::Conflict,
            },
            CoordinatorError::Commit(_) => ErrorKind::Conflict,
        }
    }
}

/// The ledger's part of a coordinator result: its success, or the ledger's
/// own error; `None` for an error raised elsewhere.
pub open spec fn ledger_part<T>(r: Result<T, CoordinatorError>) -> Option<Result<T, LedgerError>> {
    match r {
        Ok(v) => Some(Ok(v)),
        Err(CoordinatorError::Ledger(error)) => Some(Err(error)),
        Err(_) => None,
    }
}

/// What committing an accepted proposal does to the routing table: a create
/// adds its circuit with its services and nodes, a disband removes it.
pub open spec fn commit_outcome(table: RoutingState, p: Proposal) -> Result<
    RoutingState,
    RoutingErrorModel,
> {
    match p.proposal_type {
        ProposalType::Create => table.add_circuit(p.circuit_id@, p.circuit@, nodes_view(p.nodes@)),
        ProposalType::Disband => Ok(table.remove_circuit(p.circuit_id@)),
    }
}

/// The routing table went from `before` to `after` as `commit_outcome`
/// says, and `r` reports it.
pub open spec fn committed(
    before: RoutingState,
    after: RoutingState,
    p: Proposal,
    r: Result<(), CoordinatorError>,
) -> bool {
    match commit_outcome(before, p) {
        Ok(next) => after == next && r is Ok,
        Err(e) => after == before && (r matches Err(CoordinatorError::Commit(error)) && error@ == e),
    }
}

/// The ledger's part of the result of a vote: the status it returned, which
/// a failed commit follows only after acceptance, or its own error; `None`
/// for an error raised elsewhere.
pub open spec fn vote_ledger_part(r: Result<ProposalStatus, CoordinatorError>) -> Option<
    Result<ProposalStatus, LedgerError>,
> {
    match r {
        Ok(status) => Some(Ok(status)),
        Err(CoordinatorError::Commit(_)) => Some(Ok(ProposalStatus::Accepted)),
        Err(CoordinatorError::Ledger(error)) => Some(Err(error)),
        Err(_) => None,
    }
}

/// The commit's part of the result of a vote.
pub open spec fn vote_commit_part(r: Result<ProposalStatus, CoordinatorError>) -> Result<
    (),
    CoordinatorError,
> {
    match r {
        Ok(_) => Ok(()),
        Err(e) => Err(e),
    }
}

/// Committing the same create proposal twice adds its circuit once: the
/// second commit is refused as a duplicate circuit, and the table keeps the
/// circuit as the first commit added it.
pub proof fn lemma_commit_twice(table: RoutingState, p: Proposal)
    requires
        p.proposal_type == ProposalType::Create,
    ensures
        commit_outcome(table, p) matches Ok(next) ==> {
            &&& next.circuits.contains_key(p.circuit_id@)
            &&& next.circuits[p.circuit_id@] == p.circuit@
            &&& commit_outcome(next, p) == Err::<RoutingState, RoutingErrorModel>(
                RoutingErrorModel::DuplicateCircuit(p.circuit_id@),
            )
        },
{
}

/// Whether every node allowed by a service of the roster is a member.
fn allowed_nodes_check(circuit: &Circuit) -> (r: Option<(usize, usize)>)
    ensures
        match r {
            None => circuit.allowed_nodes_are_members(),
            Some((i, j)) => {
                &&& !circuit.allowed_nodes_are_members()
                &&& i < circuit.roster@.len()
                &&& j < circuit.roster@[i as int].allowed_nodes@.len()
                &&& !circuit@.members.contains(circuit@.roster[i as int].allowed_nodes[j as int])
                &&& circuit@.roster[i as int].allowed_nodes[j as int]
                    == circuit.roster@[i as int].allowed_nodes@[j as int]@
                &&& circuit@.roster[i as int].service_id == circuit.roster@[i as int].service_id@
            },
        },
{
    let mut i: usize = 0;
    while i < circuit.roster.len()
        invariant
            i <= circuit.roster@.len(),
            forall|a: int, b: int|
                0 <= a < i && 0 <= b < circuit@.roster[a].allowed_nodes.len() ==> circuit@.members.contains(
                    #[trigger] circuit@.roster[a].allowed_nodes[b],
                ),
        decreases circuit.roster@.len() - i,
    {
        let mut j: usize = 0;
        while j < circuit.roster[i].allowed_nodes.len()
            invariant
                i < circuit.roster@.len(),
                j <= circuit.roster@[i as int].allowed_nodes@.len(),
                forall|a: int, b: int|
                    0 <= a < i && 0 <= b < circuit@.roster[a].allowed_nodes.len()
                        ==> circuit@.members.contains(#[trigger] circuit@.roster[a].allowed_nodes[b]),
                forall|b: int|
                    0 <= b < j ==> circuit@.members.contains(
                        #[trigger] circuit@.roster[i as int].allowed_nodes[b],
                    ),
            decreases circuit.roster@[i as int].allowed_nodes@.len() - j,
        {
            if !contains_string(&circuit.members, &circuit.roster[i].allowed_nodes[j]) {
                proof {
                    assert(circuit@.roster[i as int] == circuit.roster@[i as int]@);
                    assert(circuit@.roster[i as int].allowed_nodes[j as int]
                        == circuit.roster@[i as int].allowed_nodes@[j as int]@);
                }
                return Some((i, j));
            }
            proof {
                assert(circuit@.roster[i as int] == circuit.roster@[i as int]@);
                assert(circuit@.roster[i as int].allowed_nodes[j as int]
                    == circuit.roster@[i as int].allowed_nodes@[j as int]@);
            }
            j = j + 1;
        }
        proof {
            assert(circuit@.roster[i as int] == circuit.roster@[i as int]@);
        }
        i = i + 1;
    }
    None
}

/// Whether two byte strings are equal.
fn same_bytes(a: &Vec<u8>, b: &Vec<u8>) -> (r: bool)
    ensures
        r == (a@ == b@),
{
    if a.len() != b.len() {
        return false;
    }
    let mut i: usize = 0;
    while i < a.len()
        invariant
            a@.len() == b@.len(),
            i <= a@.len(),
            forall|k: int| 0 <= k < i ==> a@[k] == b@[k],
        decreases a@.len() - i,
    {
        if a[i] != b[i] {
            return false;
        }
        i = i + 1;
    }
    assert(a@ =~= b@);
    true
}

/// The coordinator: it owns the ledger and the only writer of the routing
/// table.
pub struct Coordinator {
    ledger: AgreementLedger,
    table: RoutingTable,
}

impl Coordinator {
    pub closed spec fn well_formed(&self) -> bool {
        self.ledger.well_formed() && self.table.well_formed()
    }

    /// The proposals on record.
    pub closed spec fn proposals(&self) -> Seq<Proposal> {
        self.ledger@
    }

    /// The committed topology.
    pub closed spec fn topology(&self) -> RoutingState {
        self.table.table()
    }

    /// A coordinator with no proposals and an empty routing table.
    pub fn new() -> (r: Self)
        ensures
            r.well_formed(),
            r.proposals() == Seq::<Proposal>::empty(),
            r.topology() == RoutingState::empty(),
    {
        Coordinator { ledger: AgreementLedger::new(), table: RoutingTable::new() }
    }

    /// The ledger, to read.
    pub fn ledger(&self) -> (r: &AgreementLedger)
        requires
            self.well_formed(),
        ensures
            r@ == self.proposals(),
            r.well_formed(),
    {
        &self.ledger
    }

    /// The reader capability of the routing table.
    pub fn reader(&self) -> (r: &RoutingTable)
        requires
            self.well_formed(),
        ensures
            r.table() == self.topology(),
            r.well_formed(),
    {
        &self.table
    }

    /// Handles a circuit-create payload: checks the signature, the content
    /// hash, that every allowed node is a member and that the circuit is not
    /// committed, then records a pending proposal and returns its id.
    pub fn propose_circuit(
        &mut self,
        header: PayloadHeader,
        circuit: Circuit,
        nodes: Vec<CircuitNode>,
        signature_verified: bool,
        computed_hash: &Vec<u8>,
        timestamp: u64,
    ) -> (r: Result<u64, CoordinatorError>)
        requires
            old(self).well_formed(),
        ensures
            final(self).well_formed(),
            final(self).topology() == old(self).topology(),
            !signature_verified ==> final(self).proposals() == old(self).proposals() && r matches Err(
                CoordinatorError::InvalidSignature,
            ),
            signature_verified && computed_hash@ != header.content_hash@ ==> final(self).proposals()
                == old(self).proposals() && r matches Err(CoordinatorError::ContentHashMismatch),
            signature_verified && computed_hash@ == header.content_hash@
                && !circuit.allowed_nodes_are_members() ==> final(self).proposals()
                == old(self).proposals() && (r matches Err(
                CoordinatorError::NodeNotMember { service_id, node_id },
            ) && !circuit@.members.contains(node_id@) && exists|i: int, j: int|
                0 <= i < circuit@.roster.len() && 0 <= j < circuit@.roster[i].allowed_nodes.len()
                    && circuit@.roster[i].service_id == service_id@
                    && circuit@.roster[i].allowed_nodes[j] == node_id@),
            signature_verified && computed_hash@ == header.content_hash@
                && circuit.allowed_nodes_are_members() && old(self).topology().circuits.contains_key(
                circuit.circuit_id@,
            ) ==> final(self).proposals() == old(self).proposals() && (r matches Err(
                CoordinatorError::CircuitAlreadyCommitted { circuit_id },
            ) && circuit_id@ == circuit.circuit_id@),
            signature_verified && computed_hash@ == header.content_hash@
                && circuit.allowed_nodes_are_members()
                && !old(self).topology().circuits.contains_key(circuit.circuit_id@) ==> (ledger_part(
                r,
            ) matches Some(lr) && create_outcome(
                old(self).proposals(),
                final(self).proposals(),
                lr,
                ProposalType::Create,
                circuit@,
                nodes_view(nodes@),
                header.content_hash,
                header.requester,
                header.requester_node_id,
                timestamp,
            )),
    {
        if !signature_verified {
            return Err(CoordinatorError::InvalidSignature);
        }
        if !same_bytes(computed_hash, &header.content_hash) {
            return Err(CoordinatorError::ContentHashMismatch);
        }
        match allowed_nodes_check(&circuit) {
            Some((i, j)) => {
                return Err(
                    CoordinatorError::NodeNotMember {
                        service_id: circuit.roster[i].service_id.clone(),
                        node_id: circuit.roster[i].allowed_nodes[j].clone(),
                    },
                );
            },
            None => {},
        }
        match self.table.fetch_circuit(circuit.circuit_id.as_str()) {
            Ok(Some(_)) => {
                return Err(
                    CoordinatorError::CircuitAlreadyCommitted {
                        circuit_id: circuit.circuit_id.clone(),
                    },
                );
            },
            _ => {},
        }
        let PayloadHeader { requester, requester_node_id, content_hash } = header;
        match self.ledger.create_proposal(
            ProposalType::Create,
            circuit,
            nodes,
            content_hash,
            requester,
            requester_node_id,
            timestamp,
        ) {
            Ok(id) => Ok(id),
            Err(error) => Err(CoordinatorError::Ledger(error)),
        }
    }

    /// Commits an accepted proposal to the routing table: a create adds the
    /// circuit with its services and nodes, a disband removes the circuit.
    pub fn commit(&mut self, proposal_id: u64) -> (r: Result<(), CoordinatorError>)
        requires
            old(self).well_formed(),
        ensures
            final(self).well_formed(),
            final(self).proposals() == old(self).proposals(),
            proposal_id >= old(self).proposals().len() ==> final(self).topology() == old(self).topology() && (r matches Err(
                CoordinatorError::Ledger(LedgerError::ProposalNotFound { proposal_id: id }),
            ) && id == proposal_id),
            proposal_id < old(self).proposals().len() ==> {
                let p = old(self).proposals()[proposal_id as int];
                &&& p.status != ProposalStatus::Accepted ==> (final(self).topology() == old(self).topology() && (r matches Err(CoordinatorError::ProposalNotAccepted { status })
                    && status == p.status))
                &&& p.status == ProposalStatus::Accepted ==> committed(
                    old(self).topology(),
                    final(self).topology(),
                    p,
                    r,
                )
            },
    {
        let (proposal_type, circuit_id, circuit, nodes) = match self.ledger.proposal(proposal_id) {
            None => {
                return Err(CoordinatorError::Ledger(LedgerError::ProposalNotFound { proposal_id }));
            },
            Some(p) => {
                if p.status != ProposalStatus::Accepted {
                    return Err(CoordinatorError::ProposalNotAccepted { status: p.status });
                }
                (p.proposal_type, p.circuit_id.clone(), p.circuit.clone(), clone_nodes(&p.nodes))
            },
        };
        match proposal_type {
            ProposalType::Create => match self.table.add_circuit(circuit_id, circuit, nodes) {
                Ok(()) => Ok(()),
                Err(error) => Err(CoordinatorError::Commit(error)),
            },
            ProposalType::Disband => {
                let _ = self.table.remove_circuit(circuit_id.as_str());
                Ok(())
            },
        }
    }

    /// Handles a vote payload: checks the signature, records the vote and,
    /// when the proposal becomes accepted, commits it. Returns the proposal's
    /// new status; a failed commit is returned as an error, and the proposal
    /// stays accepted.
    pub fn vote(&mut self, proposal_id: u64, vote: VoteRecord, signature_verified: bool) -> (r:
        Result<ProposalStatus, CoordinatorError>)
        requires
            old(self).well_formed(),
        ensures
            final(self).well_formed(),
            !signature_verified ==> final(self).proposals() == old(self).proposals() && final(self).topology() == old(self).topology() && r matches Err(
                CoordinatorError::InvalidSignature,
            ),
            signature_verified ==> {
                &&& vote_ledger_part(r) matches Some(lr) && vote_outcome(
                    old(self).proposals(),
                    final(self).proposals(),
                    proposal_id,
                    vote,
                    lr,
                )
                &&& vote_ledger_part(r) == Some(Ok::<ProposalStatus, LedgerError>(
                    ProposalStatus::Accepted,
                )) ==> committed(
                    old(self).topology(),
                    final(self).topology(),
                    old(self).proposals()[proposal_id as int],
                    vote_commit_part(r),
                )
                &&& vote_ledger_part(r) != Some(Ok::<ProposalStatus, LedgerError>(
                    ProposalStatus::Accepted,
                )) ==> final(self).topology() == old(self).topology()
            },
    {
        if !signature_verified {
            return Err(CoordinatorError::InvalidSignature);
        }
        match self.ledger.record_vote(proposal_id, vote) {
            Err(error) => Err(CoordinatorError::Ledger(error)),
            Ok(ProposalStatus::Accepted) => {
                match self.commit(proposal_id) {
                    Ok(()) => Ok(ProposalStatus::Accepted),
                    Err(error) => Err(error),
                }
            },
            Ok(status) => Ok(status),
        }
    }

    /// Withdraws a pending proposal: it becomes rejected, with its votes
    /// kept; the routing table is not touched.
    pub fn withdraw(&mut self, proposal_id: u64, signature_verified: bool) -> (r: Result<
        ProposalStatus,
        CoordinatorError,
    >)
        requires
            old(self).well_formed(),
        ensures
            final(self).well_formed(),
            final(self).topology() == old(self).topology(),
            !signature_verified ==> final(self).proposals() == old(self).proposals() && r matches Err(
                CoordinatorError::InvalidSignature,
            ),
            signature_verified ==> (ledger_part(r) matches Some(lr) && transition_outcome(
                old(self).proposals(),
                final(self).proposals(),
                proposal_id,
                ProposalStatus::Rejected,
                lr,
            )),
    {
        if !signature_verified {
            return Err(CoordinatorError::InvalidSignature);
        }
        match self.ledger.transition_status(proposal_id, ProposalStatus::Rejected) {
            Ok(status) => Ok(status),
            Err(error) => Err(CoordinatorError::Ledger(error)),
        }
    }

    /// Handles a disband payload: checks the signature and that the circuit
    /// is committed, then records a pending disband proposal, voted on by the
    /// circuit's current members, and returns its id.
    pub fn propose_disband(
        &mut self,
        header: PayloadHeader,
        circuit_id: &str,
        signature_verified: bool,
        timestamp: u64,
    ) -> (r: Result<u64, CoordinatorError>)
        requires
            old(self).well_formed(),
        ensures
            final(self).well_formed(),
            final(self).topology() == old(self).topology(),
            !signature_verified ==> final(self).proposals() == old(self).proposals() && r matches Err(
                CoordinatorError::InvalidSignature,
            ),
            signature_verified && !old(self).topology().circuits.contains_key(circuit_id@) ==> final(self).proposals() == old(self).proposals() && (r matches Err(
                CoordinatorError::CircuitNotFound { circuit_id: id },
            ) && id@ == circuit_id@),
            signature_verified && old(self).topology().circuits.contains_key(circuit_id@) ==> (
            ledger_part(r) matches Some(lr) && create_outcome(
                old(self).proposals(),
                final(self).proposals(),
                lr,
                ProposalType::Disband,
                old(self).topology().circuits[circuit_id@],
                Seq::<NodeModel>::empty(),
                header.content_hash,
                header.requester,
                header.requester_node_id,
                timestamp,
            )),
    {
        if !signature_verified {
            return Err(CoordinatorError::InvalidSignature);
        }
        let circuit = match self.table.fetch_circuit(circuit_id) {
            Ok(Some(circuit)) => circuit,
            _ => {
                return Err(CoordinatorError::CircuitNotFound { circuit_id: circuit_id.to_owned() });
            },
        };
        let no_nodes: Vec<CircuitNode> = Vec::new();
        proof {
            assert(nodes_view(no_nodes@) =~= Seq::<NodeModel>::empty());
        }
        let PayloadHeader { requester, requester_node_id, content_hash } = header;
        match self.ledger.create_proposal(
            ProposalType::Disband,
            circuit,
            no_nodes,
            content_hash,
            requester,
            requester_node_id,
            timestamp,
        ) {
            Ok(id) => Ok(id),
            Err(error) => Err(CoordinatorError::Ledger(error)),
        }
    }
}

} // verus!
