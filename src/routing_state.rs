//! The routing table as a mathematical value, and what each writer operation
//! does to it.

use vstd::prelude::*;
use crate::routing::{CircuitModel, NodeModel, ServiceModel};

verus! {

/// The committed directory: nodes by node id, circuits by circuit id and
/// services by `(circuit id, service id)`.
pub ghost struct RoutingState {
    pub nodes: Map<Seq<char>, NodeModel>,
    pub circuits: Map<Seq<char>, CircuitModel>,
    pub services: Map<(Seq<char>, Seq<char>), ServiceModel>,
}

/// A refused addition, with the key that was already taken.
pub ghost enum RoutingErrorModel {
    DuplicateCircuit(Seq<char>),
    DuplicateService(Seq<char>, Seq<char>),
    DuplicateNode(Seq<char>),
}

/// The index of the first key that is in `existing` or repeats an earlier key.
pub open spec fn first_conflict<K>(existing: Set<K>, keys: Seq<K>) -> Option<int>
    decreases keys.len(),
{
    if keys.len() == 0 {
        None
    } else {
        match first_conflict(existing, keys.drop_last()) {
            Some(i) => Some(i),
            None => if existing.contains(keys.last()) || keys.drop_last().contains(keys.last()) {
                Some(keys.len() - 1)
            } else {
                None
            },
        }
    }
}

/// Whether a service key is filed under circuit `circuit_id`.
pub open spec fn filed_under(circuit_id: Seq<char>) -> spec_fn((Seq<char>, Seq<char>)) -> bool {
    |k: (Seq<char>, Seq<char>)| k.0 == circuit_id
}

/// The service keys that a roster takes in circuit `circuit_id`.
pub open spec fn roster_keys(circuit_id: Seq<char>, roster: Seq<ServiceModel>) -> Seq<
    (Seq<char>, Seq<char>),
> {
    roster.map_values(|s: ServiceModel| (circuit_id, s.service_id))
}

/// The node ids of a sequence of nodes.
pub open spec fn node_ids(nodes: Seq<NodeModel>) -> Seq<Seq<char>> {
    nodes.map_values(|n: NodeModel| n.node_id)
}

/// The services map with each service of `roster` added under `circuit_id`.
pub open spec fn insert_roster(
    services: Map<(Seq<char>, Seq<char>), ServiceModel>,
    circuit_id: Seq<char>,
    roster: Seq<ServiceModel>,
) -> Map<(Seq<char>, Seq<char>), ServiceModel>
    decreases roster.len(),
{
    if roster.len() == 0 {
        services
    } else {
        insert_roster(services, circuit_id, roster.drop_last()).insert(
            (circuit_id, roster.last().service_id),
            roster.last(),
        )
    }
}

/// The nodes map with each node of `new_nodes` whose id is not yet taken added;
/// of two new nodes with one id the first is kept.
pub open spec fn insert_missing_nodes(nodes: Map<Seq<char>, NodeModel>, new_nodes: Seq<NodeModel>) -> Map<
    Seq<char>,
    NodeModel,
>
    decreases new_nodes.len(),
{
    if new_nodes.len() == 0 {
        nodes
    } else {
        let m = insert_missing_nodes(nodes, new_nodes.drop_last());
        if m.contains_key(new_nodes.last().node_id) {
            m
        } else {
            m.insert(new_nodes.last().node_id, new_nodes.last())
        }
    }
}

/// A conflict found in a prefix of the keys is the first conflict of them all.
pub proof fn lemma_first_conflict_prefix<K>(existing: Set<K>, keys: Seq<K>, n: int)
    requires
        0 <= n <= keys.len(),
        first_conflict(existing, keys.subrange(0, n)) is Some,
    ensures
        first_conflict(existing, keys) == first_conflict(existing, keys.subrange(0, n)),
    decreases keys.len() - n,
{
    if n < keys.len() {
        assert(keys.subrange(0, n + 1).drop_last() =~= keys.subrange(0, n));
        lemma_first_conflict_prefix(existing, keys, n + 1);
    } else {
        assert(keys.subrange(0, n) =~= keys);
    }
}

/// Without a conflict the keys are fresh and pairwise distinct.
pub proof fn lemma_first_conflict_none<K>(existing: Set<K>, keys: Seq<K>)
    requires
        first_conflict(existing, keys) is None,
    ensures
        forall|j: int| 0 <= j < keys.len() ==> !existing.contains(#[trigger] keys[j]),
        forall|a: int, b: int| 0 <= a < b < keys.len() ==> keys[a] != keys[b],
    decreases keys.len(),
{
    if keys.len() > 0 {
        let t = keys.drop_last();
        lemma_first_conflict_none(existing, t);
        assert forall|j: int| 0 <= j < keys.len() implies !existing.contains(#[trigger] keys[j]) by {
            if j < t.len() {
                assert(keys[j] == t[j]);
            }
        }
        assert forall|a: int, b: int| 0 <= a < b < keys.len() implies keys[a] != keys[b] by {
            assert(keys[a] == t[a]);
            if b < t.len() {
                assert(keys[b] == t[b]);
            } else {
                assert(t.contains(t[a]));
            }
        }
    }
}

/// A refusal in a prefix of a batch of circuits refuses the whole batch.
pub proof fn lemma_add_circuits_prefix(st: RoutingState, batch: Seq<CircuitModel>, n: int)
    requires
        0 <= n <= batch.len(),
        st.add_circuits(batch.subrange(0, n)) is Err,
    ensures
        st.add_circuits(batch) == st.add_circuits(batch.subrange(0, n)),
    decreases batch.len() - n,
{
    if n < batch.len() {
        assert(batch.subrange(0, n + 1).drop_last() =~= batch.subrange(0, n));
        lemma_add_circuits_prefix(st, batch, n + 1);
    } else {
        assert(batch.subrange(0, n) =~= batch);
    }
}

impl RoutingState {
    pub open spec fn empty() -> RoutingState {
        RoutingState { nodes: Map::empty(), circuits: Map::empty(), services: Map::empty() }
    }

    pub open spec fn add_service(self, key: (Seq<char>, Seq<char>), service: ServiceModel) -> Result<
        RoutingState,
        RoutingErrorModel,
    > {
        if self.services.contains_key(key) {
            Err(RoutingErrorModel::DuplicateService(key.0, key.1))
        } else {
            Ok(RoutingState { services: self.services.insert(key, service), ..self })
        }
    }

    pub open spec fn remove_service(self, key: (Seq<char>, Seq<char>)) -> RoutingState {
        RoutingState { services: self.services.remove(key), ..self }
    }

    /// Adds a circuit, the services of its roster and the nodes not yet known;
    /// refused, with nothing changed, if the circuit id or one of the roster's
    /// service keys is taken, or if the roster repeats a service id.
    pub open spec fn add_circuit(
        self,
        circuit_id: Seq<char>,
        circuit: CircuitModel,
        nodes: Seq<NodeModel>,
    ) -> Result<RoutingState, RoutingErrorModel> {
        if self.circuits.contains_key(circuit_id) {
            Err(RoutingErrorModel::DuplicateCircuit(circuit_id))
        } else {
            match first_conflict(self.services.dom(), roster_keys(circuit_id, circuit.roster)) {
                Some(i) => Err(
                    RoutingErrorModel::DuplicateService(circuit_id, circuit.roster[i].service_id),
                ),
                None => Ok(
                    RoutingState {
                        nodes: insert_missing_nodes(self.nodes, nodes),
                        circuits: self.circuits.insert(circuit_id, circuit),
                        services: insert_roster(self.services, circuit_id, circuit.roster),
                    },
                ),
            }
        }
    }

    /// Adds the circuits one after the other, each under its own id; the first
    /// refusal refuses the whole batch.
    pub open spec fn add_circuits(self, batch: Seq<CircuitModel>) -> Result<
        RoutingState,
        RoutingErrorModel,
    >
        decreases batch.len(),
    {
        if batch.len() == 0 {
            Ok(self)
        } else {
            match self.add_circuits(batch.drop_last()) {
                Ok(st) => st.add_circuit(batch.last().circuit_id, batch.last(), seq![]),
                Err(e) => Err(e),
            }
        }
    }

    /// Removes a circuit and the services of its roster, if the circuit is
    /// present; nodes stay. Removing an absent circuit changes nothing.
    pub open spec fn remove_circuit(self, circuit_id: Seq<char>) -> RoutingState {
        if self.circuits.contains_key(circuit_id) {
            RoutingState {
                circuits: self.circuits.remove(circuit_id),
                services: self.services.remove_keys(
                    roster_keys(circuit_id, self.circuits[circuit_id].roster).to_set(),
                ),
                ..self
            }
        } else {
            self
        }
    }

    pub open spec fn add_node(self, node_id: Seq<char>, node: NodeModel) -> Result<
        RoutingState,
        RoutingErrorModel,
    > {
        if self.nodes.contains_key(node_id) {
            Err(RoutingErrorModel::DuplicateNode(node_id))
        } else {
            Ok(RoutingState { nodes: self.nodes.insert(node_id, node), ..self })
        }
    }

    /// Adds the nodes under their own ids; refused, with nothing changed, if an
    /// id is taken or repeated in the batch.
    pub open spec fn add_nodes(self, batch: Seq<NodeModel>) -> Result<
        RoutingState,
        RoutingErrorModel,
    > {
        match first_conflict(self.nodes.dom(), node_ids(batch)) {
            Some(i) => Err(RoutingErrorModel::DuplicateNode(batch[i].node_id)),
            None => Ok(RoutingState { nodes: insert_missing_nodes(self.nodes, batch), ..self }),
        }
    }

    pub open spec fn remove_node(self, node_id: Seq<char>) -> RoutingState {
        RoutingState { nodes: self.nodes.remove(node_id), ..self }
    }

    /// The circuit is present with every service of its roster.
    pub open spec fn circuit_complete(self, circuit_id: Seq<char>) -> bool {
        &&& self.circuits.contains_key(circuit_id)
        &&& forall|j: int|
            0 <= j < self.circuits[circuit_id].roster.len() ==> {
                let s = #[trigger] self.circuits[circuit_id].roster[j];
                &&& self.services.contains_key((circuit_id, s.service_id))
                &&& self.services[(circuit_id, s.service_id)] == s
            }
    }

    /// Neither the circuit nor any service filed under its id is present.
    pub open spec fn circuit_absent(self, circuit_id: Seq<char>) -> bool {
        &&& !self.circuits.contains_key(circuit_id)
        &&& forall|k: (Seq<char>, Seq<char>)| #[trigger]
            self.services.contains_key(k) ==> k.0 != circuit_id
    }

    /// Every circuit is complete, and every service belongs to the roster of a
    /// present circuit.
    pub open spec fn circuits_consistent(self) -> bool {
        &&& forall|c: Seq<char>| #[trigger] self.circuits.contains_key(c) ==> self.circuit_complete(c)
        &&& forall|k: (Seq<char>, Seq<char>)| #[trigger]
            self.services.contains_key(k) ==> {
                &&& self.circuits.contains_key(k.0)
                &&& exists|j: int|
                    0 <= j < self.circuits[k.0].roster.len()
                        && #[trigger] self.circuits[k.0].roster[j].service_id == k.1
            }
    }
}

/// Services of a roster with distinct ids land each under its own key; other
/// keys keep their service.
pub proof fn lemma_insert_roster(
    services: Map<(Seq<char>, Seq<char>), ServiceModel>,
    circuit_id: Seq<char>,
    roster: Seq<ServiceModel>,
)
    requires
        forall|a: int, b: int|
            0 <= a < b < roster.len() ==> roster[a].service_id != roster[b].service_id,
    ensures
        forall|k: (Seq<char>, Seq<char>)| #[trigger]
            insert_roster(services, circuit_id, roster).contains_key(k) <==> (services.contains_key(
                k,
            ) || (k.0 == circuit_id && exists|j: int|
                0 <= j < roster.len() && roster[j].service_id == k.1)),
        forall|j: int|
            0 <= j < roster.len() ==> insert_roster(services, circuit_id, roster)[(
                circuit_id,
                #[trigger] roster[j].service_id,
            )] == roster[j],
        forall|k: (Seq<char>, Seq<char>)|
            k.0 != circuit_id ==> #[trigger] insert_roster(services, circuit_id, roster)[k]
                == services[k],
    decreases roster.len(),
{
    if roster.len() > 0 {
        let t = roster.drop_last();
        lemma_insert_roster(services, circuit_id, t);
        let m = insert_roster(services, circuit_id, t);
        let last = roster.last();
        assert forall|k: (Seq<char>, Seq<char>)| #[trigger]
            insert_roster(services, circuit_id, roster).contains_key(k) <==> (services.contains_key(
                k,
            ) || (k.0 == circuit_id && exists|j: int|
                0 <= j < roster.len() && roster[j].service_id == k.1)) by {
            if k.0 == circuit_id && exists|j: int|
                0 <= j < roster.len() && roster[j].service_id == k.1 {
                let j = choose|j: int| 0 <= j < roster.len() && roster[j].service_id == k.1;
                if j < t.len() {
                    assert(t[j] == roster[j]);
                }
            }
            if m.contains_key(k) && !services.contains_key(k) {
                let j = choose|j: int| 0 <= j < t.len() && t[j].service_id == k.1;
                assert(t[j] == roster[j]);
            }
        }
        assert forall|j: int| 0 <= j < roster.len() implies insert_roster(
            services,
            circuit_id,
            roster,
        )[(circuit_id, #[trigger] roster[j].service_id)] == roster[j] by {
            if j < t.len() {
                assert(t[j] == roster[j]);
                assert(roster[j].service_id != last.service_id);
            }
        }
    }
}

/// Adding a circuit to a consistent table gives a consistent table in which
/// the circuit is complete; a refused addition changes nothing at all.
pub proof fn lemma_add_circuit_all_or_nothing(
    st: RoutingState,
    circuit_id: Seq<char>,
    circuit: CircuitModel,
    nodes: Seq<NodeModel>,
)
    requires
        st.circuits_consistent(),
    ensures
        st.add_circuit(circuit_id, circuit, nodes) matches Ok(next) ==> next.circuits_consistent()
            && next.circuit_complete(circuit_id),
{
    if let Ok(next) = st.add_circuit(circuit_id, circuit, nodes) {
        let keys = roster_keys(circuit_id, circuit.roster);
        lemma_first_conflict_none(st.services.dom(), keys);
        let roster = circuit.roster;
        assert forall|a: int, b: int| 0 <= a < b < roster.len() implies roster[a].service_id
            != roster[b].service_id by {
            assert(keys[a] != keys[b]);
        }
        lemma_insert_roster(st.services, circuit_id, roster);
        assert forall|c: Seq<char>| #[trigger] next.circuits.contains_key(c) implies next.circuit_complete(
            c,
        ) by {
            if c != circuit_id {
                assert(st.circuit_complete(c));
                assert forall|j: int| 0 <= j < next.circuits[c].roster.len() implies {
                    let s = #[trigger] next.circuits[c].roster[j];
                    &&& next.services.contains_key((c, s.service_id))
                    &&& next.services[(c, s.service_id)] == s
                } by {
                    let s = st.circuits[c].roster[j];
                    assert(st.services.contains_key((c, s.service_id)));
                    assert(next.services.contains_key((c, s.service_id)));
                    assert(next.services[(c, s.service_id)] == st.services[(c, s.service_id)]);
                }
            } else {
                assert forall|j: int| 0 <= j < next.circuits[c].roster.len() implies {
                    let s = #[trigger] next.circuits[c].roster[j];
                    &&& next.services.contains_key((c, s.service_id))
                    &&& next.services[(c, s.service_id)] == s
                } by {
                    assert(next.circuits[c].roster[j] == roster[j]);
                    assert(next.services.contains_key((c, roster[j].service_id)));
                }
            }
        }
        assert forall|k: (Seq<char>, Seq<char>)| #[trigger] next.services.contains_key(k) implies {
            &&& next.circuits.contains_key(k.0)
            &&& exists|j: int|
                0 <= j < next.circuits[k.0].roster.len()
                    && #[trigger] next.circuits[k.0].roster[j].service_id == k.1
        } by {
            if st.services.contains_key(k) {
                assert(st.circuits.contains_key(k.0));
                assert(k.0 != circuit_id);
                let j = choose|j: int|
                    0 <= j < st.circuits[k.0].roster.len()
                        && #[trigger] st.circuits[k.0].roster[j].service_id == k.1;
                assert(next.circuits[k.0] == st.circuits[k.0]);
                assert(next.circuits[k.0].roster[j].service_id == k.1);
            } else {
                let j = choose|j: int| 0 <= j < roster.len() && roster[j].service_id == k.1;
                assert(next.circuits[k.0].roster[j].service_id == k.1);
            }
        }
    }
}

/// Adding a batch of circuits to a consistent table gives a consistent table
/// in which every circuit of the batch is complete.
pub proof fn lemma_add_circuits_all_or_nothing(st: RoutingState, batch: Seq<CircuitModel>)
    requires
        st.circuits_consistent(),
    ensures
        st.add_circuits(batch) matches Ok(next) ==> next.circuits_consistent() && forall|i: int|
            0 <= i < batch.len() ==> next.circuit_complete(#[trigger] batch[i].circuit_id),
    decreases batch.len(),
{
    if batch.len() > 0 {
        let t = batch.drop_last();
        lemma_add_circuits_all_or_nothing(st, t);
        if let Ok(mid) = st.add_circuits(t) {
            lemma_add_circuit_all_or_nothing(mid, batch.last().circuit_id, batch.last(), seq![]);
            if let Ok(next) = st.add_circuits(batch) {
                assert forall|i: int| 0 <= i < batch.len() implies next.circuit_complete(
                    #[trigger] batch[i].circuit_id,
                ) by {
                    if i < t.len() {
                        assert(t[i] == batch[i]);
                        assert(mid.circuit_complete(t[i].circuit_id));
                        let c = batch[i].circuit_id;
                        assert(c != batch.last().circuit_id);
                        assert(next.circuits[c] == mid.circuits[c]);
                        assert forall|j: int| 0 <= j < next.circuits[c].roster.len() implies {
                            let s = #[trigger] next.circuits[c].roster[j];
                            &&& next.services.contains_key((c, s.service_id))
                            &&& next.services[(c, s.service_id)] == s
                        } by {
                            let s = mid.circuits[c].roster[j];
                            let keys = roster_keys(batch.last().circuit_id, batch.last().roster);
                            lemma_first_conflict_none(mid.services.dom(), keys);
                            assert forall|a: int, b: int|
                                0 <= a < b < batch.last().roster.len() implies batch.last().roster[a].service_id
                                != batch.last().roster[b].service_id by {
                                assert(keys[a] != keys[b]);
                            }
                            lemma_insert_roster(
                                mid.services,
                                batch.last().circuit_id,
                                batch.last().roster,
                            );
                        }
                    }
                }
            }
        }
    }
}

/// Removing a circuit from a consistent table leaves a consistent table
/// without any trace of the circuit.
pub proof fn lemma_remove_circuit_all_or_nothing(st: RoutingState, circuit_id: Seq<char>)
    requires
        st.circuits_consistent(),
    ensures
        st.remove_circuit(circuit_id).circuits_consistent(),
        st.remove_circuit(circuit_id).circuit_absent(circuit_id),
{
    let next = st.remove_circuit(circuit_id);
    if st.circuits.contains_key(circuit_id) {
        let gone = roster_keys(circuit_id, st.circuits[circuit_id].roster);
        assert forall|c: Seq<char>| #[trigger] next.circuits.contains_key(c) implies next.circuit_complete(
            c,
        ) by {
            assert(st.circuit_complete(c));
            assert forall|j: int| 0 <= j < next.circuits[c].roster.len() implies {
                let s = #[trigger] next.circuits[c].roster[j];
                &&& next.services.contains_key((c, s.service_id))
                &&& next.services[(c, s.service_id)] == s
            } by {
                let s = st.circuits[c].roster[j];
                assert(st.services.contains_key((c, s.service_id)));
                if gone.to_set().contains((c, s.service_id)) {
                    let t = choose|t: int| 0 <= t < gone.len() && gone[t] == (c, s.service_id);
                    assert(gone[t].0 == circuit_id);
                }
            }
        }
        assert forall|k: (Seq<char>, Seq<char>)| #[trigger] next.services.contains_key(k) implies {
            &&& next.circuits.contains_key(k.0)
            &&& exists|j: int|
                0 <= j < next.circuits[k.0].roster.len()
                    && #[trigger] next.circuits[k.0].roster[j].service_id == k.1
        } && k.0 != circuit_id by {
            assert(st.services.contains_key(k));
            let j = choose|j: int|
                0 <= j < st.circuits[k.0].roster.len()
                    && #[trigger] st.circuits[k.0].roster[j].service_id == k.1;
            if k.0 == circuit_id {
                assert(gone[j] == k);
                assert(gone.to_set().contains(k));
            }
            assert(next.circuits[k.0].roster[j].service_id == k.1);
        }
    } else {
        assert forall|k: (Seq<char>, Seq<char>)| #[trigger]
            next.services.contains_key(k) implies k.0 != circuit_id by {
            assert(st.circuits.contains_key(k.0));
        }
    }
}

/// A second addition of the same service key is refused as a duplicate.
pub proof fn lemma_add_service_twice(
    st: RoutingState,
    key: (Seq<char>, Seq<char>),
    first: ServiceModel,
    second: ServiceModel,
)
    ensures
        st.add_service(key, first) matches Ok(next) ==> next.add_service(key, second) == Err::<
            RoutingState,
            RoutingErrorModel,
        >(RoutingErrorModel::DuplicateService(key.0, key.1)),
{
}

/// Removing a circuit that is not there leaves the table as it is.
pub proof fn lemma_remove_absent_circuit(st: RoutingState, circuit_id: Seq<char>)
    requires
        !st.circuits.contains_key(circuit_id),
    ensures
        st.remove_circuit(circuit_id) == st,
{
}

/// A circuit id is added once: a second addition under it is refused, and
/// the circuit added first stays.
pub proof fn lemma_add_circuit_twice(
    st: RoutingState,
    circuit_id: Seq<char>,
    first: CircuitModel,
    second: CircuitModel,
    first_nodes: Seq<NodeModel>,
    second_nodes: Seq<NodeModel>,
)
    ensures
        st.add_circuit(circuit_id, first, first_nodes) matches Ok(next) ==> {
            &&& next.circuits.contains_key(circuit_id)
            &&& next.circuits[circuit_id] == first
            &&& next.add_circuit(circuit_id, second, second_nodes) == Err::<
                RoutingState,
                RoutingErrorModel,
            >(RoutingErrorModel::DuplicateCircuit(circuit_id))
        },
{
}

/// One circuit operation on the routing table.
pub ghost enum CircuitOp {
    Add(Seq<char>, CircuitModel, Seq<NodeModel>),
    Remove(Seq<char>),
}

/// The table after `op`; a refused addition leaves it as it was.
pub open spec fn apply_circuit_op(st: RoutingState, op: CircuitOp) -> RoutingState {
    match op {
        CircuitOp::Add(id, circuit, nodes) => match st.add_circuit(id, circuit, nodes) {
            Ok(next) => next,
            Err(_) => st,
        },
        CircuitOp::Remove(id) => st.remove_circuit(id),
    }
}

/// The table after the operations, in order.
pub open spec fn apply_circuit_ops(st: RoutingState, ops: Seq<CircuitOp>) -> RoutingState
    decreases ops.len(),
{
    if ops.len() == 0 {
        st
    } else {
        apply_circuit_op(apply_circuit_ops(st, ops.drop_last()), ops.last())
    }
}

/// After any sequence of circuit additions and removals, starting from an
/// empty table, every circuit present is there with its whole roster and no
/// service is left over from a circuit that is not; and the last operation
/// left its circuit complete if it added it, absent if it removed it, and
/// the table unchanged if the addition was refused.
pub proof fn lemma_circuit_ops_all_or_nothing(ops: Seq<CircuitOp>)
    ensures
        apply_circuit_ops(RoutingState::empty(), ops).circuits_consistent(),
        ops.len() > 0 ==> {
            let before = apply_circuit_ops(RoutingState::empty(), ops.drop_last());
            let after = apply_circuit_ops(RoutingState::empty(), ops);
            match ops.last() {
                CircuitOp::Add(id, circuit, nodes) => match before.add_circuit(id, circuit, nodes) {
                    Ok(_) => after.circuit_complete(id),
                    Err(_) => after == before,
                },
                CircuitOp::Remove(id) => after.circuit_absent(id),
            }
        },
    decreases ops.len(),
{
    if ops.len() > 0 {
        lemma_circuit_ops_all_or_nothing(ops.drop_last());
        let before = apply_circuit_ops(RoutingState::empty(), ops.drop_last());
        match ops.last() {
            CircuitOp::Add(id, circuit, nodes) => {
                lemma_add_circuit_all_or_nothing(before, id, circuit, nodes);
            },
            CircuitOp::Remove(id) => {
                lemma_remove_circuit_all_or_nothing(before, id);
            },
        }
    }
}

} // verus!
