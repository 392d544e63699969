use splinter::routing::{Circuit, CircuitNode, Service, ServiceId};
use splinter::routing_table::{
    RoutingTable, RoutingTableError, RoutingTableReader, RoutingTableWriter,
};

fn service(id: &str, node: &str) -> Service {
    Service::new(
        id.to_string(),
        "scabbard".to_string(),
        vec![node.to_string()],
        vec![("admin_keys".to_string(), "key".to_string())],
    )
}

fn circuit(id: &str) -> Circuit {
    Circuit::new(
        id.to_string(),
        vec![service("s-a", "a"), service("s-b", "b")],
        vec!["a".to_string(), "b".to_string()],
    )
}

fn node(id: &str) -> CircuitNode {
    CircuitNode::new(id.to_string(), vec![format!("tcps://{}:8044", id)])
}

#[test]
fn service_id_parts() {
    let id = ServiceId::new("c1".to_string(), "s1".to_string());
    assert_eq!(id.circuit(), "c1");
    assert_eq!(id.service_id(), "s1");
    assert_eq!(id.to_string(), "c1::s1");
    assert_eq!(id.into_parts(), ("c1".to_string(), "s1".to_string()));
}

#[test]
fn add_and_fetch_service() {
    let mut table = RoutingTable::new();
    let id = ServiceId::new("c1".to_string(), "s1".to_string());
    table.add_service(id.clone(), service("s1", "a")).unwrap();
    assert_eq!(table.fetch_service(&id).unwrap(), Some(service("s1", "a")));
    let other = ServiceId::new("c2".to_string(), "s1".to_string());
    assert_eq!(table.fetch_service(&other).unwrap(), None);
}

#[test]
fn duplicate_service_is_refused_and_table_unchanged() {
    let mut table = RoutingTable::new();
    let id = ServiceId::new("c1".to_string(), "s1".to_string());
    table.add_service(id.clone(), service("s1", "a")).unwrap();
    let err = table.add_service(id.clone(), service("s1", "b")).unwrap_err();
    match err {
        RoutingTableError::DuplicateService { service_id } => assert_eq!(service_id, id),
        other => panic!("unexpected error {:?}", other),
    }
    assert_eq!(table.fetch_service(&id).unwrap(), Some(service("s1", "a")));
    assert_eq!(table.list_service("c1").unwrap().len(), 1);
}

#[test]
fn same_service_id_in_two_circuits() {
    let mut table = RoutingTable::new();
    table.add_service(ServiceId::new("c1".to_string(), "s1".to_string()), service("s1", "a")).unwrap();
    table.add_service(ServiceId::new("c2".to_string(), "s1".to_string()), service("s1", "b")).unwrap();
    assert_eq!(table.list_service("c1").unwrap(), vec![service("s1", "a")]);
    assert_eq!(table.list_service("c2").unwrap(), vec![service("s1", "b")]);
}

#[test]
fn remove_service_is_idempotent() {
    let mut table = RoutingTable::new();
    let id = ServiceId::new("c1".to_string(), "s1".to_string());
    table.add_service(id.clone(), service("s1", "a")).unwrap();
    table.remove_service(&id).unwrap();
    assert_eq!(table.fetch_service(&id).unwrap(), None);
    table.remove_service(&id).unwrap();
    assert_eq!(table.fetch_service(&id).unwrap(), None);
}

#[test]
fn add_circuit_adds_roster_and_nodes() {
    let mut table = RoutingTable::new();
    table.add_circuit("c1".to_string(), circuit("c1"), vec![node("a"), node("b")]).unwrap();
    assert_eq!(table.fetch_circuit("c1").unwrap(), Some(circuit("c1")));
    let listed = table.list_service("c1").unwrap();
    assert_eq!(listed.len(), 2);
    assert!(listed.contains(&service("s-a", "a")));
    assert!(listed.contains(&service("s-b", "b")));
    assert_eq!(
        table.fetch_service(&ServiceId::new("c1".to_string(), "s-b".to_string())).unwrap(),
        Some(service("s-b", "b"))
    );
    assert_eq!(table.fetch_node("a").unwrap(), Some(node("a")));
    assert_eq!(table.list_nodes().unwrap().len(), 2);
    assert_eq!(table.list_circuits().unwrap(), vec![("c1".to_string(), circuit("c1"))]);
}

#[test]
fn add_circuit_keeps_known_nodes() {
    let mut table = RoutingTable::new();
    let first = CircuitNode::new("a".to_string(), vec!["tcps://first:8044".to_string()]);
    table.add_node("a".to_string(), first.clone()).unwrap();
    table.add_circuit("c1".to_string(), circuit("c1"), vec![node("a"), node("b")]).unwrap();
    assert_eq!(table.fetch_node("a").unwrap(), Some(first));
    assert_eq!(table.fetch_node("b").unwrap(), Some(node("b")));
}

#[test]
fn duplicate_circuit_is_refused() {
    let mut table = RoutingTable::new();
    table.add_circuit("c1".to_string(), circuit("c1"), vec![]).unwrap();
    let other = Circuit::new("c1".to_string(), vec![service("s-z", "z")], vec!["z".to_string()]);
    match table.add_circuit("c1".to_string(), other, vec![node("z")]).unwrap_err() {
        RoutingTableError::DuplicateCircuit { circuit_id } => assert_eq!(circuit_id, "c1"),
        other => panic!("unexpected error {:?}", other),
    }
    assert_eq!(table.fetch_circuit("c1").unwrap(), Some(circuit("c1")));
    assert_eq!(table.list_circuits().unwrap().len(), 1);
    assert_eq!(table.list_service("c1").unwrap().len(), 2);
    assert_eq!(table.fetch_node("z").unwrap(), None);
}

#[test]
fn roster_with_taken_service_key_adds_nothing() {
    let mut table = RoutingTable::new();
    table.add_service(ServiceId::new("c1".to_string(), "s-b".to_string()), service("s-b", "x")).unwrap();
    match table.add_circuit("c1".to_string(), circuit("c1"), vec![node("a")]).unwrap_err() {
        RoutingTableError::DuplicateService { service_id } => {
            assert_eq!(service_id, ServiceId::new("c1".to_string(), "s-b".to_string()))
        }
        other => panic!("unexpected error {:?}", other),
    }
    assert_eq!(table.fetch_circuit("c1").unwrap(), None);
    assert_eq!(table.list_service("c1").unwrap(), vec![service("s-b", "x")]);
    assert_eq!(table.fetch_node("a").unwrap(), None);
}

#[test]
fn roster_repeating_a_service_id_is_refused() {
    let mut table = RoutingTable::new();
    let c = Circuit::new(
        "c1".to_string(),
        vec![service("s", "a"), service("s", "b")],
        vec!["a".to_string(), "b".to_string()],
    );
    assert!(matches!(
        table.add_circuit("c1".to_string(), c, vec![]),
        Err(RoutingTableError::DuplicateService { .. })
    ));
    assert_eq!(table.list_circuits().unwrap().len(), 0);
    assert_eq!(table.list_service("c1").unwrap().len(), 0);
}

#[test]
fn remove_circuit_removes_roster_keeps_nodes() {
    let mut table = RoutingTable::new();
    table.add_circuit("c1".to_string(), circuit("c1"), vec![node("a")]).unwrap();
    table.add_circuit("c2".to_string(), circuit("c2"), vec![]).unwrap();
    table.remove_circuit("c1").unwrap();
    assert_eq!(table.fetch_circuit("c1").unwrap(), None);
    assert_eq!(table.list_service("c1").unwrap().len(), 0);
    assert_eq!(table.list_service("c2").unwrap().len(), 2);
    assert_eq!(table.fetch_node("a").unwrap(), Some(node("a")));
}

#[test]
fn remove_absent_circuit_changes_nothing() {
    let mut table = RoutingTable::new();
    table.add_circuit("c1".to_string(), circuit("c1"), vec![node("a")]).unwrap();
    table.remove_circuit("nope").unwrap();
    assert_eq!(table.list_circuits().unwrap(), vec![("c1".to_string(), circuit("c1"))]);
    assert_eq!(table.list_service("c1").unwrap().len(), 2);
    assert_eq!(table.list_nodes().unwrap().len(), 1);
}

#[test]
fn add_circuits_is_all_or_nothing() {
    let mut table = RoutingTable::new();
    table.add_circuits(vec![circuit("c1"), circuit("c2")]).unwrap();
    assert_eq!(table.list_circuits().unwrap().len(), 2);
    assert_eq!(table.list_service("c2").unwrap().len(), 2);
    match table.add_circuits(vec![circuit("c3"), circuit("c1")]).unwrap_err() {
        RoutingTableError::DuplicateCircuit { circuit_id } => assert_eq!(circuit_id, "c1"),
        other => panic!("unexpected error {:?}", other),
    }
    assert_eq!(table.fetch_circuit("c3").unwrap(), None);
    assert_eq!(table.list_service("c3").unwrap().len(), 0);
    assert_eq!(table.list_circuits().unwrap().len(), 2);
}

#[test]
fn add_circuits_refuses_repeat_within_batch() {
    let mut table = RoutingTable::new();
    assert!(matches!(
        table.add_circuits(vec![circuit("c1"), circuit("c1")]),
        Err(RoutingTableError::DuplicateCircuit { .. })
    ));
    assert_eq!(table.list_circuits().unwrap().len(), 0);
}

#[test]
fn nodes_add_and_remove() {
    let mut table = RoutingTable::new();
    table.add_node("a".to_string(), node("a")).unwrap();
    match table.add_node("a".to_string(), node("a")).unwrap_err() {
        RoutingTableError::DuplicateNode { node_id } => assert_eq!(node_id, "a"),
        other => panic!("unexpected error {:?}", other),
    }
    match table.add_nodes(vec![node("b"), node("c"), node("b")]).unwrap_err() {
        RoutingTableError::DuplicateNode { node_id } => assert_eq!(node_id, "b"),
        other => panic!("unexpected error {:?}", other),
    }
    assert_eq!(table.fetch_node("c").unwrap(), None);
    table.add_nodes(vec![node("b"), node("c")]).unwrap();
    assert_eq!(table.list_nodes().unwrap().len(), 3);
    table.remove_node("b").unwrap();
    table.remove_node("b").unwrap();
    assert_eq!(table.fetch_node("b").unwrap(), None);
    assert_eq!(table.list_nodes().unwrap().len(), 2);
}

#[test]
fn remove_absent_circuit_keeps_services_filed_under_its_id() {
    let mut table = RoutingTable::new();
    let id = ServiceId::new("c9".to_string(), "s1".to_string());
    table.add_service(id.clone(), service("s1", "a")).unwrap();
    table.remove_circuit("c9").unwrap();
    assert_eq!(table.fetch_service(&id).unwrap(), Some(service("s1", "a")));
    assert_eq!(table.list_service("c9").unwrap().len(), 1);
}

#[test]
fn remove_circuit_removes_only_its_roster() {
    let mut table = RoutingTable::new();
    table.add_circuit("c1".to_string(), circuit("c1"), vec![]).unwrap();
    let extra = ServiceId::new("c1".to_string(), "s-extra".to_string());
    table.add_service(extra.clone(), service("s-extra", "a")).unwrap();
    table.remove_circuit("c1").unwrap();
    assert_eq!(table.fetch_circuit("c1").unwrap(), None);
    assert_eq!(table.list_service("c1").unwrap(), vec![service("s-extra", "a")]);
    assert_eq!(table.fetch_service(&extra).unwrap(), Some(service("s-extra", "a")));
}
