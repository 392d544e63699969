//! The directory entities of the routing table: nodes, services, circuits and
//! the composite identifier of a service.

use vstd::prelude::*;

verus! {

/// What a `Service` holds, as mathematical values.
pub ghost struct ServiceModel {
    pub service_id: Seq<char>,
    pub service_type: Seq<char>,
    pub allowed_nodes: Seq<Seq<char>>,
    pub arguments: Seq<(Seq<char>, Seq<char>)>,
}

/// What a `Circuit` holds, as mathematical values.
pub ghost struct CircuitModel {
    pub circuit_id: Seq<char>,
    pub roster: Seq<ServiceModel>,
    pub members: Seq<Seq<char>>,
}

/// What a `CircuitNode` holds, as mathematical values.
pub ghost struct NodeModel {
    pub node_id: Seq<char>,
    pub endpoints: Seq<Seq<char>>,
}

pub open spec fn strings_view(v: Seq<String>) -> Seq<Seq<char>> {
    v.map_values(|s: String| s@)
}

pub open spec fn pairs_view(v: Seq<(String, String)>) -> Seq<(Seq<char>, Seq<char>)> {
    v.map_values(|p: (String, String)| (p.0@, p.1@))
}

pub open spec fn services_view(v: Seq<Service>) -> Seq<ServiceModel> {
    v.map_values(|s: Service| s@)
}

pub open spec fn nodes_view(v: Seq<CircuitNode>) -> Seq<NodeModel> {
    v.map_values(|n: CircuitNode| n@)
}

pub open spec fn circuits_view(v: Seq<Circuit>) -> Seq<CircuitModel> {
    v.map_values(|c: Circuit| c@)
}

/// The routing table representation of a circuit: only what routing needs.
#[derive(Debug, PartialEq, Eq)]
pub struct Circuit {
    pub circuit_id: String,
    pub roster: Vec<Service>,
    pub members: Vec<String>,
}

/// The routing table representation of a node.
#[derive(Debug, PartialEq, Eq)]
pub struct CircuitNode {
    pub node_id: String,
    pub endpoints: Vec<String>,
}

/// The routing table representation of a service.
#[derive(Debug, PartialEq, Eq)]
pub struct Service {
    pub service_id: String,
    pub service_type: String,
    pub allowed_nodes: Vec<String>,
    pub arguments: Vec<(String, String)>,
}

/// The unique id of a service: the circuit it belongs to and its id there.
#[derive(Debug, Hash, Eq)]
pub struct ServiceId {
    circuit_id: String,
    service_id: String,
}

impl View for Service {
    type V = ServiceModel;

    open spec fn view(&self) -> ServiceModel {
        ServiceModel {
            service_id: self.service_id@,
            service_type: self.service_type@,
            allowed_nodes: strings_view(self.allowed_nodes@),
            arguments: pairs_view(self.arguments@),
        }
    }
}

impl View for Circuit {
    type V = CircuitModel;

    open spec fn view(&self) -> CircuitModel {
        CircuitModel {
            circuit_id: self.circuit_id@,
            roster: services_view(self.roster@),
            members: strings_view(self.members@),
        }
    }
}

impl View for CircuitNode {
    type V = NodeModel;

    open spec fn view(&self) -> NodeModel {
        NodeModel { node_id: self.node_id@, endpoints: strings_view(self.endpoints@) }
    }
}

impl View for ServiceId {
    type V = (Seq<char>, Seq<char>);

    closed spec fn view(&self) -> (Seq<char>, Seq<char>) {
        (self.circuit_id@, self.service_id@)
    }
}

pub fn clone_strings(v: &Vec<String>) -> (r: Vec<String>)
    ensures
        r@ == v@,
{
    let mut r: Vec<String> = Vec::new();
    let mut i: usize = 0;
    while i < v.len()
        invariant
            i <= v.len(),
            r@ == v@.subrange(0, i as int),
        decreases v.len() - i,
    {
        r.push(v[i].clone());
        i = i + 1;
    }
    assert(r@ =~= v@);
    r
}

/// Whether `s` is among `v`.
pub fn contains_string(v: &Vec<String>, s: &String) -> (r: bool)
    ensures
        r == strings_view(v@).contains(s@),
{
    let mut i: usize = 0;
    while i < v.len()
        invariant
            i <= v@.len(),
            forall|k: int| 0 <= k < i ==> v@[k]@ != s@,
        decreases v@.len() - i,
    {
        if v[i] == *s {
            assert(strings_view(v@)[i as int] == s@);
            return true;
        }
        i = i + 1;
    }
    assert forall|k: int| 0 <= k < strings_view(v@).len() implies strings_view(v@)[k] != s@ by {
        assert(strings_view(v@)[k] == v@[k]@);
    }
    false
}

pub fn clone_nodes(v: &Vec<CircuitNode>) -> (r: Vec<CircuitNode>)
    ensures
        nodes_view(r@) == nodes_view(v@),
{
    let mut r: Vec<CircuitNode> = Vec::new();
    let mut i: usize = 0;
    while i < v.len()
        invariant
            i <= v.len(),
            r@.len() == i,
            forall|k: int| 0 <= k < i ==> #[trigger] r@[k]@ == v@[k]@,
        decreases v.len() - i,
    {
        r.push(v[i].clone());
        i = i + 1;
    }
    assert(nodes_view(r@) =~= nodes_view(v@));
    r
}

fn clone_pairs(v: &Vec<(String, String)>) -> (r: Vec<(String, String)>)
    ensures
        r@ == v@,
{
    let mut r: Vec<(String, String)> = Vec::new();
    let mut i: usize = 0;
    while i < v.len()
        invariant
            i <= v.len(),
            r@ == v@.subrange(0, i as int),
        decreases v.len() - i,
    {
        let pair = (v[i].0.clone(), v[i].1.clone());
        r.push(pair);
        i = i + 1;
    }
    assert(r@ =~= v@);
    r
}

fn clone_services(v: &Vec<Service>) -> (r: Vec<Service>)
    ensures
        services_view(r@) == services_view(v@),
{
    let mut r: Vec<Service> = Vec::new();
    let mut i: usize = 0;
    while i < v.len()
        invariant
            i <= v.len(),
            r@.len() == i,
            forall|k: int| 0 <= k < i ==> #[trigger] r@[k]@ == v@[k]@,
        decreases v.len() - i,
    {
        let s = v[i].clone();
        r.push(s);
        i = i + 1;
    }
    assert(services_view(r@) =~= services_view(v@));
    r
}

impl PartialEq for ServiceId {
    fn eq(&self, other: &ServiceId) -> (r: bool) {
        self.circuit_id == other.circuit_id && self.service_id == other.service_id
    }
}

impl vstd::std_specs::cmp::PartialEqSpecImpl for ServiceId {
    open spec fn obeys_eq_spec() -> bool {
        true
    }

    open spec fn eq_spec(&self, other: &ServiceId) -> bool {
        self@ == other@
    }
}

impl Clone for Service {
    fn clone(&self) -> (r: Self)
        ensures
            r@ == self@,
    {
        Service {
            service_id: self.service_id.clone(),
            service_type: self.service_type.clone(),
            allowed_nodes: clone_strings(&self.allowed_nodes),
            arguments: clone_pairs(&self.arguments),
        }
    }
}

impl Clone for Circuit {
    fn clone(&self) -> (r: Self)
        ensures
            r@ == self@,
    {
        Circuit {
            circuit_id: self.circuit_id.clone(),
            roster: clone_services(&self.roster),
            members: clone_strings(&self.members),
        }
    }
}

impl Clone for CircuitNode {
    fn clone(&self) -> (r: Self)
        ensures
            r@ == self@,
    {
        CircuitNode { node_id: self.node_id.clone(), endpoints: clone_strings(&self.endpoints) }
    }
}

impl Clone for ServiceId {
    fn clone(&self) -> (r: Self)
        ensures
            r@ == self@,
    {
        ServiceId { circuit_id: self.circuit_id.clone(), service_id: self.service_id.clone() }
    }
}

impl Circuit {
    /// Creates a circuit from its id, its roster of services and the node ids
    /// of its members.
    pub fn new(circuit_id: String, roster: Vec<Service>, members: Vec<String>) -> (r: Self)
        ensures
            r.circuit_id == circuit_id,
            r.roster == roster,
            r.members == members,
    {
        Circuit { circuit_id, roster, members }
    }

    /// Every node allowed to run a service of the roster is a member.
    pub open spec fn allowed_nodes_are_members(self) -> bool {
        forall|i: int, j: int|
            0 <= i < self@.roster.len() && 0 <= j < self@.roster[i].allowed_nodes.len()
                ==> self@.members.contains(#[trigger] self@.roster[i].allowed_nodes[j])
    }
}

impl CircuitNode {
    /// Creates a node from its id and the endpoints it can be reached at.
    pub fn new(node_id: String, endpoints: Vec<String>) -> (r: Self)
        ensures
            r.node_id == node_id,
            r.endpoints == endpoints,
    {
        CircuitNode { node_id, endpoints }
    }
}

impl Service {
    /// Creates a service from its id, its type, the nodes allowed to run it
    /// and the arguments handed to it.
    pub fn new(
        service_id: String,
        service_type: String,
        allowed_nodes: Vec<String>,
        arguments: Vec<(String, String)>,
    ) -> (r: Self)
        ensures
            r.service_id == service_id,
            r.service_type == service_type,
            r.allowed_nodes == allowed_nodes,
            r.arguments == arguments,
    {
        Service { service_id, service_type, allowed_nodes, arguments }
    }
}

impl ServiceId {
    /// Creates the id of service `service_id` in circuit `circuit_id`.
    pub fn new(circuit_id: String, service_id: String) -> (r: Self)
        ensures
            r@ == (circuit_id@, service_id@),
    {
        ServiceId { circuit_id, service_id }
    }

    /// The id of the circuit.
    pub fn circuit(&self) -> (r: &str)
        ensures
            r@ == self@.0,
    {
        self.circuit_id.as_str()
    }

    /// The id of the service within its circuit.
    pub fn service_id(&self) -> (r: &str)
        ensures
            r@ == self@.1,
    {
        self.service_id.as_str()
    }

    /// Whether the service belongs to circuit `circuit_id`.
    pub fn is_in_circuit(&self, circuit_id: &String) -> (r: bool)
        ensures
            r == (self@.0 == circuit_id@),
    {
        self.circuit_id == *circuit_id
    }

    /// Splits the id into `(circuit id, service id)`.
    pub fn into_parts(self) -> (r: (String, String))
        ensures
            (r.0@, r.1@) == self@,
    {
        (self.circuit_id, self.service_id)
    }

    /// The id written as `<circuit id>::<service id>`.
    pub fn to_string(&self) -> (r: String)
        ensures
            r@ == self@.0 + "::"@ + self@.1,
    {
        let r = self.circuit_id.clone().concat("::");
        r.concat(self.service_id.as_str())
    }
}

} // verus!
