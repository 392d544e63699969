use splinter::coordinator::{Coordinator, CoordinatorError, ErrorKind, PayloadHeader};
use splinter::ledger::{AgreementLedger, LedgerError, ProposalStatus, ProposalType, Vote, VoteRecord};
use splinter::routing::{Circuit, CircuitNode, Service};
use splinter::routing_table::{RoutingTableError, RoutingTableReader};

const HASH: [u8; 4] = [1, 2, 3, 4];

fn header(node: &str) -> PayloadHeader {
    PayloadHeader {
        requester: node.as_bytes().to_vec(),
        requester_node_id: node.to_string(),
        content_hash: HASH.to_vec(),
    }
}

fn three_member_circuit(id: &str) -> Circuit {
    let services = ["a", "b", "c"]
        .iter()
        .map(|m| {
            Service::new(
                format!("{}-svc", m),
                "scabbard".to_string(),
                vec![m.to_string()],
                vec![],
            )
        })
        .collect();
    Circuit::new(
        id.to_string(),
        services,
        vec!["a".to_string(), "b".to_string(), "c".to_string()],
    )
}

fn nodes() -> Vec<CircuitNode> {
    ["a", "b", "c"]
        .iter()
        .map(|m| CircuitNode::new(m.to_string(), vec![format!("tcps://{}:8044", m)]))
        .collect()
}

fn ballot(node: &str, vote: Vote, timestamp: u64) -> VoteRecord {
    VoteRecord {
        voter_public_key: node.as_bytes().to_vec(),
        voter_node_id: node.to_string(),
        vote,
        timestamp,
    }
}

fn proposed(coordinator: &mut Coordinator) -> u64 {
    coordinator
        .propose_circuit(header("a"), three_member_circuit("c1"), nodes(), true, &HASH.to_vec(), 1)
        .unwrap()
}

#[test]
fn three_accepts_commit_the_circuit() {
    let mut coordinator = Coordinator::new();
    let id = proposed(&mut coordinator);
    assert_eq!(coordinator.vote(id, ballot("a", Vote::Accept, 2), true).unwrap(), ProposalStatus::Pending);
    assert_eq!(coordinator.vote(id, ballot("b", Vote::Accept, 3), true).unwrap(), ProposalStatus::Pending);
    assert_eq!(coordinator.reader().fetch_circuit("c1").unwrap(), None);
    assert_eq!(coordinator.vote(id, ballot("c", Vote::Accept, 4), true).unwrap(), ProposalStatus::Accepted);
    let committed = coordinator.reader().fetch_circuit("c1").unwrap().unwrap();
    assert_eq!(committed, three_member_circuit("c1"));
    assert_eq!(committed.roster.len(), 3);
    assert_eq!(coordinator.reader().list_service("c1").unwrap().len(), 3);
    assert_eq!(coordinator.reader().list_nodes().unwrap().len(), 3);
    let proposal = coordinator.ledger().proposal(id).unwrap();
    assert_eq!(proposal.status, ProposalStatus::Accepted);
    assert_eq!(proposal.votes.len(), 3);
    assert_eq!(proposal.updated_time, 4);
    assert_eq!(coordinator.ledger().tally(id).unwrap(), ProposalStatus::Accepted);
    assert!(matches!(
        coordinator.ledger().tally(id + 1),
        Err(LedgerError::ProposalNotFound { .. })
    ));
}

#[test]
fn reject_after_accept_closes_the_proposal() {
    let mut coordinator = Coordinator::new();
    let id = proposed(&mut coordinator);
    assert_eq!(coordinator.vote(id, ballot("a", Vote::Accept, 2), true).unwrap(), ProposalStatus::Pending);
    assert_eq!(coordinator.vote(id, ballot("b", Vote::Reject, 3), true).unwrap(), ProposalStatus::Rejected);
    match coordinator.vote(id, ballot("c", Vote::Accept, 4), true).unwrap_err() {
        CoordinatorError::Ledger(LedgerError::ProposalClosed { status }) => {
            assert_eq!(status, ProposalStatus::Rejected)
        }
        other => panic!("unexpected error {:?}", other),
    }
    let proposal = coordinator.ledger().proposal(id).unwrap();
    assert_eq!(proposal.status, ProposalStatus::Rejected);
    assert_eq!(proposal.votes.len(), 2);
    assert_eq!(coordinator.ledger().tally(id).unwrap(), ProposalStatus::Rejected);
    assert_eq!(coordinator.reader().fetch_circuit("c1").unwrap(), None);
    assert_eq!(coordinator.reader().list_circuits().unwrap().len(), 0);
}

#[test]
fn first_vote_reject_rejects() {
    let mut coordinator = Coordinator::new();
    let id = proposed(&mut coordinator);
    assert_eq!(coordinator.vote(id, ballot("c", Vote::Reject, 2), true).unwrap(), ProposalStatus::Rejected);
}

#[test]
fn second_commit_is_a_conflict() {
    let mut coordinator = Coordinator::new();
    let id = proposed(&mut coordinator);
    for (i, m) in ["a", "b", "c"].iter().enumerate() {
        coordinator.vote(id, ballot(m, Vote::Accept, i as u64), true).unwrap();
    }
    let err = coordinator.commit(id).unwrap_err();
    assert!(matches!(err, CoordinatorError::Commit(RoutingTableError::DuplicateCircuit { .. })));
    assert_eq!(err.kind(), ErrorKind::Conflict);
    assert_eq!(coordinator.reader().list_circuits().unwrap().len(), 1);
    assert_eq!(coordinator.reader().list_service("c1").unwrap().len(), 3);
}

#[test]
fn commit_of_pending_proposal_is_refused() {
    let mut coordinator = Coordinator::new();
    let id = proposed(&mut coordinator);
    assert!(matches!(
        coordinator.commit(id),
        Err(CoordinatorError::ProposalNotAccepted { status: ProposalStatus::Pending })
    ));
    assert!(matches!(
        coordinator.commit(id + 1),
        Err(CoordinatorError::Ledger(LedgerError::ProposalNotFound { proposal_id })) if proposal_id == id + 1
    ));
}

#[test]
fn duplicate_and_foreign_votes_are_refused() {
    let mut coordinator = Coordinator::new();
    let id = proposed(&mut coordinator);
    coordinator.vote(id, ballot("a", Vote::Accept, 2), true).unwrap();
    let dup = coordinator.vote(id, ballot("a", Vote::Accept, 3), true).unwrap_err();
    assert!(matches!(dup, CoordinatorError::Ledger(LedgerError::DuplicateVote { ref node_id }) if node_id == "a"));
    assert_eq!(dup.kind(), ErrorKind::Conflict);
    let foreign = coordinator.vote(id, ballot("z", Vote::Accept, 3), true).unwrap_err();
    assert!(matches!(foreign, CoordinatorError::Ledger(LedgerError::VoterNotMember { ref node_id }) if node_id == "z"));
    assert_eq!(foreign.kind(), ErrorKind::Validation);
    assert_eq!(coordinator.ledger().proposal(id).unwrap().votes.len(), 1);
}

#[test]
fn unsigned_vote_is_refused() {
    let mut coordinator = Coordinator::new();
    let id = proposed(&mut coordinator);
    assert!(matches!(
        coordinator.vote(id, ballot("a", Vote::Accept, 2), false),
        Err(CoordinatorError::InvalidSignature)
    ));
    assert_eq!(coordinator.ledger().proposal(id).unwrap().votes.len(), 0);
}

#[test]
fn vote_on_unknown_proposal() {
    let mut coordinator = Coordinator::new();
    let err = coordinator.vote(7, ballot("a", Vote::Accept, 2), true).unwrap_err();
    assert!(matches!(err, CoordinatorError::Ledger(LedgerError::ProposalNotFound { proposal_id: 7 })));
    assert_eq!(err.kind(), ErrorKind::NotFound);
}

#[test]
fn create_payload_validation() {
    let mut coordinator = Coordinator::new();
    let err = coordinator
        .propose_circuit(header("a"), three_member_circuit("c1"), nodes(), false, &HASH.to_vec(), 1)
        .unwrap_err();
    assert!(matches!(err, CoordinatorError::InvalidSignature));
    assert_eq!(err.kind(), ErrorKind::Validation);
    assert!(matches!(
        coordinator.propose_circuit(header("a"), three_member_circuit("c1"), nodes(), true, &vec![9], 1),
        Err(CoordinatorError::ContentHashMismatch)
    ));
    let mut circuit = three_member_circuit("c1");
    circuit.roster[1].allowed_nodes.push("mallory".to_string());
    match coordinator.propose_circuit(header("a"), circuit, nodes(), true, &HASH.to_vec(), 1) {
        Err(CoordinatorError::NodeNotMember { service_id, node_id }) => {
            assert_eq!(service_id, "b-svc");
            assert_eq!(node_id, "mallory");
        }
        other => panic!("unexpected result {:?}", other),
    }
    let empty = Circuit::new("c9".to_string(), vec![], vec![]);
    assert!(matches!(
        coordinator.propose_circuit(header("a"), empty, vec![], true, &HASH.to_vec(), 1),
        Err(CoordinatorError::Ledger(LedgerError::NoMembers))
    ));
    assert!(coordinator.ledger().proposal(0).is_none());
}

#[test]
fn one_pending_proposal_per_circuit() {
    let mut coordinator = Coordinator::new();
    let first = proposed(&mut coordinator);
    match coordinator
        .propose_circuit(header("b"), three_member_circuit("c1"), nodes(), true, &HASH.to_vec(), 2)
        .unwrap_err()
    {
        CoordinatorError::Ledger(LedgerError::ProposalInFlight { circuit_id }) => assert_eq!(circuit_id, "c1"),
        other => panic!("unexpected error {:?}", other),
    }
    coordinator.vote(first, ballot("a", Vote::Reject, 3), true).unwrap();
    let second = coordinator
        .propose_circuit(header("b"), three_member_circuit("c1"), nodes(), true, &HASH.to_vec(), 4)
        .unwrap();
    assert_eq!(second, first + 1);
    let proposal = coordinator.ledger().proposal(second).unwrap();
    assert_eq!(proposal.proposal_type, ProposalType::Create);
    assert_eq!(proposal.status, ProposalStatus::Pending);
    assert_eq!(proposal.requester_node_id, "b");
    assert_eq!(proposal.created_time, 4);
}

#[test]
fn committed_circuit_cannot_be_proposed_again_until_disbanded() {
    let mut coordinator = Coordinator::new();
    let id = proposed(&mut coordinator);
    for (i, m) in ["a", "b", "c"].iter().enumerate() {
        coordinator.vote(id, ballot(m, Vote::Accept, i as u64), true).unwrap();
    }
    match coordinator
        .propose_circuit(header("a"), three_member_circuit("c1"), nodes(), true, &HASH.to_vec(), 5)
        .unwrap_err()
    {
        CoordinatorError::CircuitAlreadyCommitted { circuit_id } => assert_eq!(circuit_id, "c1"),
        other => panic!("unexpected error {:?}", other),
    }
    let disband = coordinator.propose_disband(header("b"), "c1", true, 6).unwrap();
    assert_eq!(coordinator.ledger().proposal(disband).unwrap().proposal_type, ProposalType::Disband);
    assert_eq!(coordinator.vote(disband, ballot("a", Vote::Accept, 7), true).unwrap(), ProposalStatus::Pending);
    assert_eq!(coordinator.vote(disband, ballot("b", Vote::Accept, 8), true).unwrap(), ProposalStatus::Pending);
    assert_eq!(coordinator.reader().list_circuits().unwrap().len(), 1);
    assert_eq!(coordinator.vote(disband, ballot("c", Vote::Accept, 9), true).unwrap(), ProposalStatus::Accepted);
    assert_eq!(coordinator.reader().fetch_circuit("c1").unwrap(), None);
    assert_eq!(coordinator.reader().list_service("c1").unwrap().len(), 0);
    assert_eq!(coordinator.reader().list_nodes().unwrap().len(), 3);
    coordinator
        .propose_circuit(header("a"), three_member_circuit("c1"), nodes(), true, &HASH.to_vec(), 10)
        .unwrap();
}

#[test]
fn disband_of_unknown_circuit() {
    let mut coordinator = Coordinator::new();
    let err = coordinator.propose_disband(header("a"), "nope", true, 1).unwrap_err();
    assert!(matches!(err, CoordinatorError::CircuitNotFound { ref circuit_id } if circuit_id == "nope"));
    assert_eq!(err.kind(), ErrorKind::NotFound);
    assert!(matches!(
        coordinator.propose_disband(header("a"), "nope", false, 1),
        Err(CoordinatorError::InvalidSignature)
    ));
}

#[test]
fn withdrawn_proposal_is_rejected_and_keeps_its_votes() {
    let mut coordinator = Coordinator::new();
    let id = proposed(&mut coordinator);
    coordinator.vote(id, ballot("a", Vote::Accept, 2), true).unwrap();
    assert!(matches!(coordinator.withdraw(id, false), Err(CoordinatorError::InvalidSignature)));
    assert_eq!(coordinator.withdraw(id, true).unwrap(), ProposalStatus::Rejected);
    let proposal = coordinator.ledger().proposal(id).unwrap();
    assert_eq!(proposal.status, ProposalStatus::Rejected);
    assert_eq!(proposal.votes.len(), 1);
    assert_eq!(coordinator.ledger().tally(id).unwrap(), ProposalStatus::Pending);
    assert!(matches!(
        coordinator.vote(id, ballot("b", Vote::Accept, 3), true),
        Err(CoordinatorError::Ledger(LedgerError::ProposalClosed { status: ProposalStatus::Rejected }))
    ));
    assert!(matches!(
        coordinator.withdraw(id, true),
        Err(CoordinatorError::Ledger(LedgerError::ProposalClosed { .. }))
    ));
    assert_eq!(coordinator.reader().list_circuits().unwrap().len(), 0);
    let again = proposed(&mut coordinator);
    assert_eq!(again, id + 1);
}

#[test]
fn status_cannot_be_set_to_accepted() {
    let mut ledger = AgreementLedger::new();
    let id = ledger
        .create_proposal(
            ProposalType::Create,
            three_member_circuit("c1"),
            nodes(),
            HASH.to_vec(),
            b"a".to_vec(),
            "a".to_string(),
            1,
        )
        .unwrap();
    match ledger.transition_status(id, ProposalStatus::Accepted).unwrap_err() {
        LedgerError::InvalidTransition { from, to } => {
            assert_eq!(from, ProposalStatus::Pending);
            assert_eq!(to, ProposalStatus::Accepted);
        }
        other => panic!("unexpected error {:?}", other),
    }
    assert_eq!(ledger.transition_status(id, ProposalStatus::Pending).unwrap(), ProposalStatus::Pending);
    assert_eq!(ledger.proposal(id).unwrap().status, ProposalStatus::Pending);
    assert!(matches!(
        ledger.transition_status(id + 1, ProposalStatus::Rejected),
        Err(LedgerError::ProposalNotFound { .. })
    ));
    assert_eq!(ledger.transition_status(id, ProposalStatus::Rejected).unwrap(), ProposalStatus::Rejected);
    assert!(matches!(
        ledger.record_vote(id, ballot("a", Vote::Accept, 2)),
        Err(LedgerError::ProposalClosed { status: ProposalStatus::Rejected })
    ));
}
