//! A verified model of a social friendship graph: users connected by typed,
//! directed relationship edges (pending, accepted, declined, blocked), with
//! the state-machine rules that govern initiating a friend request,
//! responding to one, and listing a user's accepted friends.

pub mod edges;
pub mod graph;
pub mod laws;
pub mod service;
