//! The messages that a manager sends, and what it knows of the cluster.

use crate::common::{node_views, Heartbeat, Node, NodeId, NodeView};
use std::collections::HashMap;
use vstd::prelude::*;

verus! {

/// What a manager wants sent.
#[derive(Debug)]
pub enum ManagerProtocol {
    Heartbeat { id: NodeId, heartbeat: Heartbeat },
    GetClusterState { id: NodeId },
}

/// The part of a manager's state that heartbeats concern.
#[derive(Debug)]
pub struct State {
    pub nodes: HashMap<NodeId, Node>,
    pub elected_leader_id: Option<NodeId>,
}

/// What a [`State`] says.
#[verifier::ext_equal]
pub struct StateView {
    pub nodes: Map<NodeId, NodeView>,
    pub elected_leader_id: Option<NodeId>,
}

impl View for State {
    type V = StateView;

    open spec fn view(&self) -> StateView {
        StateView {
            nodes: node_views(self.nodes@),
            elected_leader_id: self.elected_leader_id,
        }
    }
}

} // verus!
