//! The in-memory routing table, behind a reader and a writer capability.
//!
//! Each writer operation either applies fully or, on error, leaves the table
//! as it was; readers never see an error. Sharing one table between threads
//! (one writer at a time, many readers) is up to the holder, for instance
//! behind a readers-writer lock.

use vstd::prelude::*;
use crate::assoc::{
    differs_from, entries_map, lemma_keep_others, lemma_push_fresh, keep_keys, keys_unique, lemma_entries_map_contains, lemma_entries_map_keep_keys,
    lemma_entries_map_len, lemma_entries_map_push, lemma_entries_map_same_views,
    lemma_entries_map_value, lemma_keep_keys_step, lemma_keep_keys_unique,
};
use crate::routing::{
    circuits_view, nodes_view, services_view, Circuit, CircuitModel, CircuitNode, NodeModel,
    Service, ServiceId, ServiceModel,
};
use crate::routing_state::{
    filed_under, first_conflict, insert_missing_nodes, insert_roster, lemma_add_circuits_prefix,
    lemma_first_conflict_none, lemma_first_conflict_prefix, node_ids,
    roster_keys, RoutingErrorModel, RoutingState,
};

verus! {

/// Why an addition to the routing table was refused: the key already taken.
#[derive(Debug)]
pub enum RoutingTableError {
    DuplicateCircuit { circuit_id: String },
    DuplicateService { service_id: ServiceId },
    DuplicateNode { node_id: String },
}

impl View for RoutingTableError {
    type V = RoutingErrorModel;

    open spec fn view(&self) -> RoutingErrorModel {
        match self {
            RoutingTableError::DuplicateCircuit { circuit_id } => RoutingErrorModel::DuplicateCircuit(
                circuit_id@,
            ),
            RoutingTableError::DuplicateService { service_id } => RoutingErrorModel::DuplicateService(
                service_id@.0,
                service_id@.1,
            ),
            RoutingTableError::DuplicateNode { node_id } => RoutingErrorModel::DuplicateNode(
                node_id@,
            ),
        }
    }
}

/// A writer call took the table from `before` to `after` and returned `r` as
/// the transition `expected` says: its new state, or its error and no change.
pub open spec fn applied(
    before: RoutingState,
    after: RoutingState,
    r: Result<(), RoutingTableError>,
    expected: Result<RoutingState, RoutingErrorModel>,
) -> bool {
    match r {
        Ok(()) => expected == Ok::<RoutingState, RoutingErrorModel>(after),
        Err(e) => expected == Err::<RoutingState, RoutingErrorModel>(e@) && after == before,
    }
}

/// `found` is what `m` holds under `k`.
pub open spec fn found_as<K, V: View>(m: Map<K, V::V>, k: K, found: Option<V>) -> bool {
    match found {
        Some(v) => m.contains_key(k) && m[k] == v@,
        None => !m.contains_key(k),
    }
}

/// `listed` holds exactly the services filed under `circuit_id`: there is
/// an ordering of their keys, without repeats, that `listed` follows.
pub open spec fn lists_services_of(
    services: Map<(Seq<char>, Seq<char>), ServiceModel>,
    circuit_id: Seq<char>,
    listed: Seq<Service>,
) -> bool {
    exists|keys: Seq<(Seq<char>, Seq<char>)>| lists_services_by(services, circuit_id, listed, keys)
}

/// `listed[i]` is the service filed under `keys[i]`, and `keys` orders the
/// keys filed under `circuit_id`, each once.
pub open spec fn lists_services_by(
    services: Map<(Seq<char>, Seq<char>), ServiceModel>,
    circuit_id: Seq<char>,
    listed: Seq<Service>,
    keys: Seq<(Seq<char>, Seq<char>)>,
) -> bool {
    &&& keys.len() == listed.len()
    &&& keys.no_duplicates()
    &&& keys.to_set() == services.dom().filter(filed_under(circuit_id))
    &&& forall|i: int| 0 <= i < listed.len() ==> services[keys[i]] == (#[trigger] listed[i])@
}

/// The abstract content of a routing table, shared by both capabilities.
pub trait RoutingTableModel {
    spec fn table(&self) -> RoutingState;

    spec fn well_formed(&self) -> bool;
}

/// The capability to change the routing table.
pub trait RoutingTableWriter: RoutingTableModel + Send {
    /// Adds a service under `service_id`; refused if the key is taken.
    fn add_service(&mut self, service_id: ServiceId, service: Service) -> (r: Result<
        (),
        RoutingTableError,
    >)
        requires
            old(self).well_formed(),
        ensures
            final(self).well_formed(),
            applied(
                old(self).table(),
                final(self).table(),
                r,
                old(self).table().add_service(service_id@, service@),
            ),
    ;

    /// Removes the service under `service_id`, if any.
    fn remove_service(&mut self, service_id: &ServiceId) -> (r: Result<(), RoutingTableError>)
        requires
            old(self).well_formed(),
        ensures
            final(self).well_formed(),
            r is Ok,
            final(self).table() == old(self).table().remove_service(service_id@),
    ;

    /// Adds a circuit with the services of its roster and the nodes not yet
    /// known, all at once.
    fn add_circuit(&mut self, circuit_id: String, circuit: Circuit, nodes: Vec<CircuitNode>) -> (r:
        Result<(), RoutingTableError>)
        requires
            old(self).well_formed(),
        ensures
            final(self).well_formed(),
            applied(
                old(self).table(),
                final(self).table(),
                r,
                old(self).table().add_circuit(circuit_id@, circuit@, nodes_view(nodes@)),
            ),
    ;

    /// Adds circuits, each under its own id, with their services; all or none.
    fn add_circuits(&mut self, circuits: Vec<Circuit>) -> (r: Result<(), RoutingTableError>)
        requires
            old(self).well_formed(),
        ensures
            final(self).well_formed(),
            applied(
                old(self).table(),
                final(self).table(),
                r,
                old(self).table().add_circuits(circuits_view(circuits@)),
            ),
    ;

    /// Removes a circuit and its services, if present; nodes stay.
    fn remove_circuit(&mut self, circuit_id: &str) -> (r: Result<(), RoutingTableError>)
        requires
            old(self).well_formed(),
        ensures
            final(self).well_formed(),
            r is Ok,
            final(self).table() == old(self).table().remove_circuit(circuit_id@),
    ;

    /// Adds a node under `node_id`; refused if the id is taken.
    fn add_node(&mut self, node_id: String, node: CircuitNode) -> (r: Result<(), RoutingTableError>)
        requires
            old(self).well_formed(),
        ensures
            final(self).well_formed(),
            applied(
                old(self).table(),
                final(self).table(),
                r,
                old(self).table().add_node(node_id@, node@),
            ),
    ;

    /// Adds nodes under their own ids; all or none.
    fn add_nodes(&mut self, nodes: Vec<CircuitNode>) -> (r: Result<(), RoutingTableError>)
        requires
            old(self).well_formed(),
        ensures
            final(self).well_formed(),
            applied(
                old(self).table(),
                final(self).table(),
                r,
                old(self).table().add_nodes(nodes_view(nodes@)),
            ),
    ;

    /// Removes the node under `node_id`, if any.
    fn remove_node(&mut self, node_id: &str) -> (r: Result<(), RoutingTableError>)
        requires
            old(self).well_formed(),
        ensures
            final(self).well_formed(),
            r is Ok,
            final(self).table() == old(self).table().remove_node(node_id@),
    ;
}

/// The capability to read the routing table.
pub trait RoutingTableReader: RoutingTableModel + Send {
    /// The service under `service_id`, if any.
    fn fetch_service(&self, service_id: &ServiceId) -> (r: Result<Option<Service>, RoutingTableError>)
        requires
            self.well_formed(),
        ensures
            r matches Ok(found) && found_as(self.table().services, service_id@, found),
    ;

    /// The services filed under `circuit_id`.
    fn list_service(&self, circuit_id: &str) -> (r: Result<Vec<Service>, RoutingTableError>)
        requires
            self.well_formed(),
        ensures
            r matches Ok(listed) && lists_services_of(self.table().services, circuit_id@, listed@),
    ;

    /// Every node with its id.
    fn list_nodes(&self) -> (r: Result<Vec<(String, CircuitNode)>, RoutingTableError>)
        requires
            self.well_formed(),
        ensures
            r matches Ok(listed) && keys_unique(listed@) && entries_map(listed@)
                == self.table().nodes,
    ;

    /// The node under `node_id`, if any.
    fn fetch_node(&self, node_id: &str) -> (r: Result<Option<CircuitNode>, RoutingTableError>)
        requires
            self.well_formed(),
        ensures
            r matches Ok(found) && found_as(self.table().nodes, node_id@, found),
    ;

    /// Every circuit with its id.
    fn list_circuits(&self) -> (r: Result<Vec<(String, Circuit)>, RoutingTableError>)
        requires
            self.well_formed(),
        ensures
            r matches Ok(listed) && keys_unique(listed@) && entries_map(listed@)
                == self.table().circuits,
    ;

    /// The circuit under `circuit_id`, if any.
    fn fetch_circuit(&self, circuit_id: &str) -> (r: Result<Option<Circuit>, RoutingTableError>)
        requires
            self.well_formed(),
        ensures
            r matches Ok(found) && found_as(self.table().circuits, circuit_id@, found),
    ;
}

/// The routing table kept in memory, as three association lists.
pub struct RoutingTable {
    nodes: Vec<(String, CircuitNode)>,
    circuits: Vec<(String, Circuit)>,
    services: Vec<(ServiceId, Service)>,
}

impl RoutingTableModel for RoutingTable {
    closed spec fn table(&self) -> RoutingState {
        RoutingState {
            nodes: entries_map(self.nodes@),
            circuits: entries_map(self.circuits@),
            services: entries_map(self.services@),
        }
    }

    closed spec fn well_formed(&self) -> bool {
        &&& keys_unique(self.nodes@)
        &&& keys_unique(self.circuits@)
        &&& keys_unique(self.services@)
    }
}

impl RoutingTable {
    /// An empty routing table.
    pub fn new() -> (r: Self)
        ensures
            r.well_formed(),
            r.table() == RoutingState::empty(),
    {
        let r = RoutingTable { nodes: Vec::new(), circuits: Vec::new(), services: Vec::new() };
        assert(r.table().nodes =~= Map::empty());
        assert(r.table().circuits =~= Map::empty());
        assert(r.table().services =~= Map::empty());
        r
    }

    fn find_node(&self, node_id: &String) -> (r: Option<usize>)
        requires
            self.well_formed(),
        ensures
            match r {
                Some(i) => i < self.nodes@.len() && self.nodes@[i as int].0@ == node_id@
                    && self.table().nodes.contains_key(node_id@) && self.table().nodes[node_id@]
                    == self.nodes@[i as int].1@,
                None => !self.table().nodes.contains_key(node_id@),
            },
    {
        let mut i: usize = 0;
        while i < self.nodes.len()
            invariant
                self.well_formed(),
                i <= self.nodes@.len(),
                forall|j: int| 0 <= j < i ==> self.nodes@[j].0@ != node_id@,
            decreases self.nodes@.len() - i,
        {
            if self.nodes[i].0 == *node_id {
                proof {
                    lemma_entries_map_value(self.nodes@, i as int);
                }
                return Some(i);
            }
            i = i + 1;
        }
        proof {
            lemma_entries_map_contains(self.nodes@, node_id@);
        }
        None
    }

    fn find_circuit(&self, circuit_id: &String) -> (r: Option<usize>)
        requires
            self.well_formed(),
        ensures
            match r {
                Some(i) => i < self.circuits@.len() && self.circuits@[i as int].0@ == circuit_id@
                    && self.table().circuits.contains_key(circuit_id@)
                    && self.table().circuits[circuit_id@] == self.circuits@[i as int].1@,
                None => !self.table().circuits.contains_key(circuit_id@),
            },
    {
        let mut i: usize = 0;
        while i < self.circuits.len()
            invariant
                self.well_formed(),
                i <= self.circuits@.len(),
                forall|j: int| 0 <= j < i ==> self.circuits@[j].0@ != circuit_id@,
            decreases self.circuits@.len() - i,
        {
            if self.circuits[i].0 == *circuit_id {
                proof {
                    lemma_entries_map_value(self.circuits@, i as int);
                }
                return Some(i);
            }
            i = i + 1;
        }
        proof {
            lemma_entries_map_contains(self.circuits@, circuit_id@);
        }
        None
    }

    fn find_service(&self, service_id: &ServiceId) -> (r: Option<usize>)
        requires
            self.well_formed(),
        ensures
            match r {
                Some(i) => i < self.services@.len() && self.services@[i as int].0@ == service_id@
                    && self.table().services.contains_key(service_id@)
                    && self.table().services[service_id@] == self.services@[i as int].1@,
                None => !self.table().services.contains_key(service_id@),
            },
    {
        let mut i: usize = 0;
        while i < self.services.len()
            invariant
                self.well_formed(),
                i <= self.services@.len(),
                forall|j: int| 0 <= j < i ==> self.services@[j].0@ != service_id@,
            decreases self.services@.len() - i,
        {
            if self.services[i].0 == *service_id {
                proof {
                    lemma_entries_map_value(self.services@, i as int);
                }
                return Some(i);
            }
            i = i + 1;
        }
        proof {
            lemma_entries_map_contains(self.services@, service_id@);
        }
        None
    }
}


/// Whether an earlier service of the roster has the same id as `roster[j]`.
fn repeats_service_id(roster: &Vec<Service>, j: usize) -> (r: bool)
    requires
        j < roster@.len(),
    ensures
        r == exists|k: int| 0 <= k < j && roster@[k]@.service_id == roster@[j as int]@.service_id,
{
    let mut k: usize = 0;
    while k < j
        invariant
            j < roster@.len(),
            k <= j,
            forall|t: int| 0 <= t < k ==> roster@[t]@.service_id != roster@[j as int]@.service_id,
        decreases j - k,
    {
        if roster[k].service_id == roster[j].service_id {
            return true;
        }
        k = k + 1;
    }
    false
}

/// Whether an earlier node of the batch has the same id as `nodes[j]`.
fn repeats_node_id(nodes: &Vec<CircuitNode>, j: usize) -> (r: bool)
    requires
        j < nodes@.len(),
    ensures
        r == exists|k: int| 0 <= k < j && nodes@[k]@.node_id == nodes@[j as int]@.node_id,
{
    let mut k: usize = 0;
    while k < j
        invariant
            j < nodes@.len(),
            k <= j,
            forall|t: int| 0 <= t < k ==> nodes@[t]@.node_id != nodes@[j as int]@.node_id,
        decreases j - k,
    {
        if nodes[k].node_id == nodes[j].node_id {
            return true;
        }
        k = k + 1;
    }
    false
}

impl Clone for RoutingTable {
    fn clone(&self) -> (r: Self)
        ensures
            r.table() == self.table(),
            self.well_formed() ==> r.well_formed(),
    {
        let mut nodes: Vec<(String, CircuitNode)> = Vec::new();
        let mut i: usize = 0;
        while i < self.nodes.len()
            invariant
                i <= self.nodes@.len(),
                nodes@.len() == i,
                forall|j: int|
                    0 <= j < i ==> (#[trigger] nodes@[j]).0@ == self.nodes@[j].0@ && nodes@[j].1@
                        == self.nodes@[j].1@,
            decreases self.nodes@.len() - i,
        {
            nodes.push((self.nodes[i].0.clone(), self.nodes[i].1.clone()));
            i = i + 1;
        }
        let mut circuits: Vec<(String, Circuit)> = Vec::new();
        let mut i: usize = 0;
        while i < self.circuits.len()
            invariant
                i <= self.circuits@.len(),
                circuits@.len() == i,
                forall|j: int|
                    0 <= j < i ==> (#[trigger] circuits@[j]).0@ == self.circuits@[j].0@
                        && circuits@[j].1@ == self.circuits@[j].1@,
            decreases self.circuits@.len() - i,
        {
            circuits.push((self.circuits[i].0.clone(), self.circuits[i].1.clone()));
            i = i + 1;
        }
        let mut services: Vec<(ServiceId, Service)> = Vec::new();
        let mut i: usize = 0;
        while i < self.services.len()
            invariant
                i <= self.services@.len(),
                services@.len() == i,
                forall|j: int|
                    0 <= j < i ==> (#[trigger] services@[j]).0@ == self.services@[j].0@
                        && services@[j].1@ == self.services@[j].1@,
            decreases self.services@.len() - i,
        {
            services.push((self.services[i].0.clone(), self.services[i].1.clone()));
            i = i + 1;
        }
        proof {
            lemma_entries_map_same_views(self.nodes@, nodes@);
            lemma_entries_map_same_views(self.circuits@, circuits@);
            lemma_entries_map_same_views(self.services@, services@);
        }
        RoutingTable { nodes, circuits, services }
    }
}

impl RoutingTable {
    /// Adds each node whose id is not yet known, the first of a repeated id.
    fn insert_missing(&mut self, nodes: &Vec<CircuitNode>)
        requires
            old(self).well_formed(),
        ensures
            final(self).well_formed(),
            final(self).table() == (RoutingState {
                nodes: insert_missing_nodes(old(self).table().nodes, nodes_view(nodes@)),
                ..old(self).table()
            }),
    {
        let ghost start = self.table().nodes;
        let mut n: usize = 0;
        while n < nodes.len()
            invariant
                self.well_formed(),
                n <= nodes@.len(),
                self.table() == (RoutingState {
                    nodes: insert_missing_nodes(start, nodes_view(nodes@).subrange(0, n as int)),
                    ..old(self).table()
                }),
            decreases nodes@.len() - n,
        {
            let ghost before = self.nodes@;
            assert(nodes_view(nodes@).subrange(0, n + 1).drop_last() =~= nodes_view(nodes@).subrange(
                0,
                n as int,
            ));
            if self.find_node(&nodes[n].node_id).is_none() {
                self.nodes.push((nodes[n].node_id.clone(), nodes[n].clone()));
                proof {
                    lemma_push_fresh(before, self.nodes@.last());
                    assert(self.nodes@ == before.push(self.nodes@.last()));
                }
            }
            n = n + 1;
        }
        assert(nodes_view(nodes@).subrange(0, nodes@.len() as int) =~= nodes_view(nodes@));
    }

    /// Drops the service under `service_id`.
    fn drop_service(&mut self, service_id: &ServiceId)
        requires
            old(self).well_formed(),
        ensures
            final(self).well_formed(),
            final(self).nodes == old(self).nodes,
            final(self).circuits == old(self).circuits,
            final(self).table().services == old(self).table().services.remove(service_id@),
    {
        let ghost s = self.services@;
        let ghost p = differs_from(service_id@);
        let mut kept: Vec<(ServiceId, Service)> = Vec::new();
        let mut i: usize = 0;
        while i < self.services.len()
            invariant
                i <= s.len(),
                s == self.services@,
                p == differs_from(service_id@),
                kept@.len() == keep_keys(s.subrange(0, i as int), p).len(),
                forall|j: int|
                    0 <= j < kept@.len() ==> (#[trigger] kept@[j]).0@ == keep_keys(
                        s.subrange(0, i as int),
                        p,
                    )[j].0@ && kept@[j].1@ == keep_keys(s.subrange(0, i as int), p)[j].1@,
            decreases s.len() - i,
        {
            proof {
                lemma_keep_keys_step(s, p, i as int);
            }
            if self.services[i].0 != *service_id {
                kept.push((self.services[i].0.clone(), self.services[i].1.clone()));
            }
            i = i + 1;
        }
        proof {
            assert(s.subrange(0, s.len() as int) =~= s);
            lemma_keep_others(s, service_id@);
            lemma_entries_map_same_views(keep_keys(s, p), kept@);
        }
        self.services = kept;
    }

    /// Drops the node under `node_id`.
    fn retain_nodes(&mut self, node_id: &String)
        requires
            old(self).well_formed(),
        ensures
            final(self).well_formed(),
            final(self).table() == old(self).table().remove_node(node_id@),
    {
        let ghost s = self.nodes@;
        let ghost p = differs_from(node_id@);
        let mut kept: Vec<(String, CircuitNode)> = Vec::new();
        let mut i: usize = 0;
        while i < self.nodes.len()
            invariant
                i <= s.len(),
                s == self.nodes@,
                p == differs_from(node_id@),
                kept@.len() == keep_keys(s.subrange(0, i as int), p).len(),
                forall|j: int|
                    0 <= j < kept@.len() ==> (#[trigger] kept@[j]).0@ == keep_keys(
                        s.subrange(0, i as int),
                        p,
                    )[j].0@ && kept@[j].1@ == keep_keys(s.subrange(0, i as int), p)[j].1@,
            decreases s.len() - i,
        {
            proof {
                lemma_keep_keys_step(s, p, i as int);
            }
            if self.nodes[i].0 != *node_id {
                kept.push((self.nodes[i].0.clone(), self.nodes[i].1.clone()));
            }
            i = i + 1;
        }
        proof {
            assert(s.subrange(0, s.len() as int) =~= s);
            lemma_keep_others(s, node_id@);
            lemma_entries_map_same_views(keep_keys(s, p), kept@);
        }
        self.nodes = kept;
    }

    /// Drops the circuit under `circuit_id`, leaving its services.
    fn retain_circuits(&mut self, circuit_id: &String)
        requires
            old(self).well_formed(),
        ensures
            final(self).well_formed(),
            final(self).nodes == old(self).nodes,
            final(self).services == old(self).services,
            final(self).table().circuits == old(self).table().circuits.remove(circuit_id@),
    {
        let ghost s = self.circuits@;
        let ghost p = differs_from(circuit_id@);
        let mut kept: Vec<(String, Circuit)> = Vec::new();
        let mut i: usize = 0;
        while i < self.circuits.len()
            invariant
                i <= s.len(),
                s == self.circuits@,
                p == differs_from(circuit_id@),
                kept@.len() == keep_keys(s.subrange(0, i as int), p).len(),
                forall|j: int|
                    0 <= j < kept@.len() ==> (#[trigger] kept@[j]).0@ == keep_keys(
                        s.subrange(0, i as int),
                        p,
                    )[j].0@ && kept@[j].1@ == keep_keys(s.subrange(0, i as int), p)[j].1@,
            decreases s.len() - i,
        {
            proof {
                lemma_keep_keys_step(s, p, i as int);
            }
            if self.circuits[i].0 != *circuit_id {
                kept.push((self.circuits[i].0.clone(), self.circuits[i].1.clone()));
            }
            i = i + 1;
        }
        proof {
            assert(s.subrange(0, s.len() as int) =~= s);
            lemma_keep_others(s, circuit_id@);
            lemma_entries_map_same_views(keep_keys(s, p), kept@);
        }
        self.circuits = kept;
    }
}

impl RoutingTableWriter for RoutingTable {
    fn add_service(&mut self, service_id: ServiceId, service: Service) -> (r: Result<
        (),
        RoutingTableError,
    >) {
        if self.find_service(&service_id).is_some() {
            return Err(RoutingTableError::DuplicateService { service_id });
        }
        let ghost before = self.services@;
        self.services.push((service_id, service));
        proof {
            lemma_push_fresh(before, self.services@.last());
            assert(self.services@ == before.push(self.services@.last()));
        }
        Ok(())
    }

    fn remove_service(&mut self, service_id: &ServiceId) -> (r: Result<(), RoutingTableError>) {
        self.drop_service(service_id);
        Ok(())
    }

    fn add_circuit(&mut self, circuit_id: String, circuit: Circuit, nodes: Vec<CircuitNode>) -> (r:
        Result<(), RoutingTableError>) {
        if self.find_circuit(&circuit_id).is_some() {
            return Err(RoutingTableError::DuplicateCircuit { circuit_id });
        }
        let ghost keys = roster_keys(circuit_id@, circuit@.roster);
        let ghost existing = self.table().services.dom();
        let mut j: usize = 0;
        while j < circuit.roster.len()
            invariant
                self.well_formed(),
                j <= circuit.roster@.len(),
                keys == roster_keys(circuit_id@, circuit@.roster),
                existing == self.table().services.dom(),
                self.table() == old(self).table(),
                !old(self).table().circuits.contains_key(circuit_id@),
                first_conflict(existing, keys.subrange(0, j as int)) is None,
            decreases circuit.roster@.len() - j,
        {
            let service_id = ServiceId::new(circuit_id.clone(), circuit.roster[j].service_id.clone());
            let taken = self.find_service(&service_id).is_some();
            let repeated = repeats_service_id(&circuit.roster, j);
            proof {
                let sub = keys.subrange(0, j + 1);
                assert(sub.drop_last() =~= keys.subrange(0, j as int));
                assert(sub.last() == keys[j as int]);
                assert(keys[j as int] == service_id@);
                if repeated {
                    let k = choose|k: int|
                        0 <= k < j && circuit.roster@[k]@.service_id
                            == circuit.roster@[j as int]@.service_id;
                    assert(sub.drop_last()[k] == keys[j as int]);
                }
                if sub.drop_last().contains(keys[j as int]) {
                    let k = choose|k: int| 0 <= k < j && sub.drop_last()[k] == keys[j as int];
                    assert(circuit.roster@[k]@.service_id == circuit.roster@[j as int]@.service_id);
                }
            }
            if taken || repeated {
                proof {
                    assert(first_conflict(existing, keys.subrange(0, j + 1)) == Some(j as int));
                    lemma_first_conflict_prefix(existing, keys, j + 1);
                    assert(circuit@.roster[j as int].service_id == service_id@.1);
                }
                return Err(RoutingTableError::DuplicateService { service_id });
            }
            j = j + 1;
        }
        proof {
            assert(keys.subrange(0, keys.len() as int) =~= keys);
            lemma_first_conflict_none(existing, keys);
        }
        let ghost start = self.table().services;
        let mut j: usize = 0;
        while j < circuit.roster.len()
            invariant
                self.well_formed(),
                j <= circuit.roster@.len(),
                keys == roster_keys(circuit_id@, circuit@.roster),
                self.table().nodes == old(self).table().nodes,
                self.table().circuits == old(self).table().circuits,
                self.table().services == insert_roster(
                    start,
                    circuit_id@,
                    circuit@.roster.subrange(0, j as int),
                ),
                forall|t: int|
                    j <= t < keys.len() ==> !self.table().services.contains_key(#[trigger] keys[t]),
                forall|a: int, b: int| 0 <= a < b < keys.len() ==> keys[a] != keys[b],
            decreases circuit.roster@.len() - j,
        {
            let service_id = ServiceId::new(circuit_id.clone(), circuit.roster[j].service_id.clone());
            let service = circuit.roster[j].clone();
            let ghost before = self.services@;
            assert(keys[j as int] == service_id@);
            self.services.push((service_id, service));
            proof {
                lemma_push_fresh(before, self.services@.last());
                assert(self.services@ == before.push(self.services@.last()));
                let sub = circuit@.roster.subrange(0, j + 1);
                assert(sub.drop_last() =~= circuit@.roster.subrange(0, j as int));
                assert(sub.last() == circuit@.roster[j as int]);
            }
            j = j + 1;
        }
        proof {
            assert(circuit@.roster.subrange(0, circuit@.roster.len() as int) =~= circuit@.roster);
        }
        self.insert_missing(&nodes);
        let ghost before = self.circuits@;
        self.circuits.push((circuit_id, circuit));
        proof {
            lemma_push_fresh(before, self.circuits@.last());
            assert(self.circuits@ == before.push(self.circuits@.last()));
        }
        Ok(())
    }

    fn add_circuits(&mut self, circuits: Vec<Circuit>) -> (r: Result<(), RoutingTableError>) {
        let ghost batch = circuits_view(circuits@);
        let mut work = self.clone();
        let mut i: usize = 0;
        while i < circuits.len()
            invariant
                work.well_formed(),
                self.well_formed(),
                i <= circuits@.len(),
                batch == circuits_view(circuits@),
                self.table() == old(self).table(),
                old(self).table().add_circuits(batch.subrange(0, i as int)) == Ok::<
                    RoutingState,
                    RoutingErrorModel,
                >(work.table()),
            decreases circuits@.len() - i,
        {
            let circuit = circuits[i].clone();
            let circuit_id = circuit.circuit_id.clone();
            let no_nodes: Vec<CircuitNode> = Vec::new();
            proof {
                let sub = batch.subrange(0, i + 1);
                assert(sub.drop_last() =~= batch.subrange(0, i as int));
                assert(sub.last() == circuit@);
                assert(nodes_view(no_nodes@) =~= seq![]);
            }
            match work.add_circuit(circuit_id, circuit, no_nodes) {
                Ok(()) => {},
                Err(e) => {
                    proof {
                        lemma_add_circuits_prefix(old(self).table(), batch, i + 1);
                    }
                    return Err(e);
                },
            }
            i = i + 1;
        }
        proof {
            assert(batch.subrange(0, batch.len() as int) =~= batch);
        }
        *self = work;
        Ok(())
    }

    fn remove_circuit(&mut self, circuit_id: &str) -> (r: Result<(), RoutingTableError>) {
        let key = circuit_id.to_owned();
        let i = match self.find_circuit(&key) {
            Some(i) => i,
            None => {
                return Ok(());
            },
        };
        let ghost start = self.table();
        let ghost keys = roster_keys(key@, start.circuits[key@].roster);
        let mut service_ids: Vec<String> = Vec::new();
        let mut j: usize = 0;
        while j < self.circuits[i].1.roster.len()
            invariant
                self.well_formed(),
                i < self.circuits@.len(),
                self.circuits@[i as int].1@ == start.circuits[key@],
                keys == roster_keys(key@, start.circuits[key@].roster),
                j <= keys.len(),
                service_ids@.len() == j,
                forall|t: int| 0 <= t < j ==> keys[t] == (key@, (#[trigger] service_ids@[t])@),
            decreases keys.len() - j,
        {
            assert(self.circuits@[i as int].1@.roster[j as int]
                == self.circuits@[i as int].1.roster@[j as int]@);
            service_ids.push(self.circuits[i].1.roster[j].service_id.clone());
            j = j + 1;
        }
        self.retain_circuits(&key);
        assert(keys.subrange(0, 0).to_set() =~= Set::empty());
        assert(start.services.remove_keys(Set::empty()) =~= start.services);
        let mut j: usize = 0;
        while j < service_ids.len()
            invariant
                self.well_formed(),
                keys.len() == service_ids@.len(),
                j <= keys.len(),
                forall|t: int| 0 <= t < keys.len() ==> keys[t] == (key@, (#[trigger] service_ids@[t])@),
                self.table().nodes == start.nodes,
                self.table().circuits == start.circuits.remove(key@),
                self.table().services == start.services.remove_keys(
                    keys.subrange(0, j as int).to_set(),
                ),
            decreases keys.len() - j,
        {
            let service_id = ServiceId::new(key.clone(), service_ids[j].clone());
            assert(service_id@ == keys[j as int]);
            self.drop_service(&service_id);
            proof {
                let sub0 = keys.subrange(0, j as int);
                let sub1 = keys.subrange(0, j + 1);
                let before = sub0.to_set();
                let after = sub1.to_set();
                assert forall|k: (Seq<char>, Seq<char>)| after.contains(k) == before.insert(keys[j as int]).contains(k) by {
                    if after.contains(k) {
                        let t = choose|t: int| 0 <= t < sub1.len() && #[trigger] sub1[t] == k;
                        if t < j {
                            assert(sub0[t] == k);
                        }
                    }
                    if before.contains(k) {
                        let t = choose|t: int| 0 <= t < sub0.len() && #[trigger] sub0[t] == k;
                        assert(sub1[t] == k);
                    }
                    if k == keys[j as int] {
                        assert(sub1[j as int] == k);
                    }
                }
                assert(after =~= before.insert(keys[j as int]));
                assert(start.services.remove_keys(before).remove(keys[j as int])
                    =~= start.services.remove_keys(after));
            }
            j = j + 1;
        }
        assert(keys.subrange(0, keys.len() as int) =~= keys);
        Ok(())
    }

    fn add_node(&mut self, node_id: String, node: CircuitNode) -> (r: Result<(), RoutingTableError>) {
        if self.find_node(&node_id).is_some() {
            return Err(RoutingTableError::DuplicateNode { node_id });
        }
        let ghost before = self.nodes@;
        self.nodes.push((node_id, node));
        proof {
            lemma_push_fresh(before, self.nodes@.last());
            assert(self.nodes@ == before.push(self.nodes@.last()));
        }
        Ok(())
    }

    fn add_nodes(&mut self, nodes: Vec<CircuitNode>) -> (r: Result<(), RoutingTableError>) {
        let ghost keys = node_ids(nodes_view(nodes@));
        let ghost existing = self.table().nodes.dom();
        let mut j: usize = 0;
        while j < nodes.len()
            invariant
                self.well_formed(),
                j <= nodes@.len(),
                keys == node_ids(nodes_view(nodes@)),
                existing == self.table().nodes.dom(),
                first_conflict(existing, keys.subrange(0, j as int)) is None,
            decreases nodes@.len() - j,
        {
            let taken = self.find_node(&nodes[j].node_id).is_some();
            let repeated = repeats_node_id(&nodes, j);
            proof {
                let sub = keys.subrange(0, j + 1);
                assert(sub.drop_last() =~= keys.subrange(0, j as int));
                assert(sub.last() == keys[j as int]);
                assert(keys[j as int] == nodes@[j as int]@.node_id);
                if repeated {
                    let k = choose|k: int|
                        0 <= k < j && nodes@[k]@.node_id == nodes@[j as int]@.node_id;
                    assert(sub.drop_last()[k] == keys[j as int]);
                }
                if sub.drop_last().contains(keys[j as int]) {
                    let k = choose|k: int| 0 <= k < j && sub.drop_last()[k] == keys[j as int];
                    assert(nodes@[k]@.node_id == nodes@[j as int]@.node_id);
                }
            }
            if taken || repeated {
                proof {
                    lemma_first_conflict_prefix(existing, keys, j + 1);
                }
                return Err(RoutingTableError::DuplicateNode { node_id: nodes[j].node_id.clone() });
            }
            j = j + 1;
        }
        proof {
            assert(keys.subrange(0, keys.len() as int) =~= keys);
        }
        self.insert_missing(&nodes);
        Ok(())
    }

    fn remove_node(&mut self, node_id: &str) -> (r: Result<(), RoutingTableError>) {
        let key = node_id.to_owned();
        self.retain_nodes(&key);
        Ok(())
    }
}

impl RoutingTableReader for RoutingTable {
    fn fetch_service(&self, service_id: &ServiceId) -> (r: Result<Option<Service>, RoutingTableError>) {
        match self.find_service(service_id) {
            Some(i) => Ok(Some(self.services[i].1.clone())),
            None => Ok(None),
        }
    }

    fn list_service(&self, circuit_id: &str) -> (r: Result<Vec<Service>, RoutingTableError>) {
        let ghost p = filed_under(circuit_id@);
        let ghost s = self.services@;
        let key = circuit_id.to_owned();
        let mut listed: Vec<Service> = Vec::new();
        let mut i: usize = 0;
        while i < self.services.len()
            invariant
                i <= s.len(),
                s == self.services@,
                key@ == circuit_id@,
                p == filed_under(circuit_id@),
                listed@.len() == keep_keys(s.subrange(0, i as int), p).len(),
                forall|j: int|
                    0 <= j < listed@.len() ==> #[trigger] listed@[j]@ == keep_keys(
                        s.subrange(0, i as int),
                        p,
                    )[j].1@,
            decreases s.len() - i,
        {
            proof {
                lemma_keep_keys_step(s, p, i as int);
            }
            let ghost before = listed@;
            if self.services[i].0.is_in_circuit(&key) {
                let service = self.services[i].1.clone();
                listed.push(service);
                assert(p(s[i as int].0@));
                assert(listed@ == before.push(service));
            } else {
                assert(!p(s[i as int].0@));
            }
            i = i + 1;
        }
        proof {
            assert(s.subrange(0, s.len() as int) =~= s);
            let kept = keep_keys(s, p);
            let m = entries_map(s);
            lemma_keep_keys_unique(s, p);
            lemma_entries_map_keep_keys(s, p);
            lemma_entries_map_len(kept);
            let keys = kept.map_values(|e: (ServiceId, Service)| e.0@);
            assert(entries_map(kept).dom() =~= m.dom().filter(filed_under(circuit_id@)));
            assert(keys.no_duplicates());
            assert forall|k: (Seq<char>, Seq<char>)|
                keys.to_set().contains(k) == m.dom().filter(filed_under(circuit_id@)).contains(k) by {
                lemma_entries_map_contains(kept, k);
                if keys.to_set().contains(k) {
                    let j = choose|j: int| 0 <= j < keys.len() && keys[j] == k;
                    assert(kept[j].0@ == k);
                }
                if entries_map(kept).contains_key(k) {
                    let j = choose|j: int| 0 <= j < kept.len() && kept[j].0@ == k;
                    assert(keys[j] == k);
                }
            }
            assert(keys.to_set() =~= m.dom().filter(filed_under(circuit_id@)));
            assert forall|j: int| 0 <= j < listed@.len() implies m[keys[j]] == (
            #[trigger] listed@[j])@ by {
                lemma_entries_map_value(kept, j);
            }
            assert(lists_services_by(m, circuit_id@, listed@, keys));
        }
        Ok(listed)
    }

    fn list_nodes(&self) -> (r: Result<Vec<(String, CircuitNode)>, RoutingTableError>) {
        let mut listed: Vec<(String, CircuitNode)> = Vec::new();
        let mut i: usize = 0;
        while i < self.nodes.len()
            invariant
                i <= self.nodes@.len(),
                listed@.len() == i,
                forall|j: int|
                    0 <= j < i ==> (#[trigger] listed@[j]).0@ == self.nodes@[j].0@ && listed@[j].1@
                        == self.nodes@[j].1@,
            decreases self.nodes@.len() - i,
        {
            let entry = (self.nodes[i].0.clone(), self.nodes[i].1.clone());
            listed.push(entry);
            i = i + 1;
        }
        proof {
            lemma_entries_map_same_views(self.nodes@, listed@);
        }
        Ok(listed)
    }

    fn fetch_node(&self, node_id: &str) -> (r: Result<Option<CircuitNode>, RoutingTableError>) {
        let key = node_id.to_owned();
        match self.find_node(&key) {
            Some(i) => Ok(Some(self.nodes[i].1.clone())),
            None => Ok(None),
        }
    }

    fn list_circuits(&self) -> (r: Result<Vec<(String, Circuit)>, RoutingTableError>) {
        let mut listed: Vec<(String, Circuit)> = Vec::new();
        let mut i: usize = 0;
        while i < self.circuits.len()
            invariant
                i <= self.circuits@.len(),
                listed@.len() == i,
                forall|j: int|
                    0 <= j < i ==> (#[trigger] listed@[j]).0@ == self.circuits@[j].0@
                        && listed@[j].1@ == self.circuits@[j].1@,
            decreases self.circuits@.len() - i,
        {
            let entry = (self.circuits[i].0.clone(), self.circuits[i].1.clone());
            listed.push(entry);
            i = i + 1;
        }
        proof {
            lemma_entries_map_same_views(self.circuits@, listed@);
        }
        Ok(listed)
    }

    fn fetch_circuit(&self, circuit_id: &str) -> (r: Result<Option<Circuit>, RoutingTableError>) {
        let key = circuit_id.to_owned();
        match self.find_circuit(&key) {
            Some(i) => Ok(Some(self.circuits[i].1.clone())),
            None => Ok(None),
        }
    }
}

} // verus!
