//! Membership and topology core of a permissioned multi-organization network:
//! the committed routing table, the agreement ledger for circuit proposals and
//! the coordinator that moves agreed circuits into the routing table.

pub mod assoc;
pub mod coordinator;
pub mod credentials;
pub mod error;
pub mod ledger;
pub mod routing;
pub mod routing_state;
pub mod routing_table;
pub mod sessions;
pub mod template;
