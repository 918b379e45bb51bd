//! Audio routing graph.
use vstd::prelude::*;
use arrayvec::ArrayString;
use crate::event::NodeId;
use crate::names::{decimal_chars, fitted, name16, name16_bytes, sampler_label_text};
use vstd::string::StringSliceAdditionalSpecFns;

verus! {

/// The audio processing graph.
#[derive(Clone, Debug, Default)]
pub struct AudioGraph {
    /// All nodes in the graph
    pub nodes: Vec<Node>,
    /// Connections between nodes
    pub connections: Vec<Connection>,
}

/// A node in the audio graph.
#[derive(Clone, Debug)]
pub struct Node {
    /// Unique identifier
    pub id: NodeId,
    /// What type of node this is
    pub node_type: NodeType,
    /// Automatable parameters
    pub parameters: Vec<Parameter>,
}

/// Type of audio graph node.
#[derive(Clone, Debug, PartialEq, Eq)]
pub enum NodeType {
    /// Master output node
    Master,
    /// Sample player
    Sampler { sample_id: u16 },
    /// Buzz machine (emulated)
    BuzzMachine { machine_name: String },
}

/// Connection between two nodes.
#[derive(Clone, Copy, Debug, PartialEq, Eq, Structural)]
pub struct Connection {
    /// Source node
    pub from: NodeId,
    /// Destination node
    pub to: NodeId,
    /// Source channel (for stereo/multi-channel)
    pub from_channel: u8,
    /// Destination channel
    pub to_channel: u8,
    /// Gain in fixed-point dB (0 = unity, positive = boost, negative = cut)
    pub gain: i16,
}

/// An automatable parameter on a node.
#[derive(Clone, Debug)]
pub struct Parameter {
    /// Parameter ID (unique within the node)
    pub id: u16,
    /// Display name
    pub name: ArrayString<16>,
    /// Current value
    pub value: i32,
    /// Minimum value
    pub min: i32,
    /// Maximum value
    pub max: i32,
    /// Default value
    pub default: i32,
}

impl Parameter {
    /// Create a new parameter whose current value is its default.
    pub fn new(id: u16, name: &str, min: i32, max: i32, default: i32) -> (r: Self)
        ensures
            r.id == id,
            name16_bytes(r.name) == fitted(name.spec_bytes(), 16),
            r.value == default,
            r.min == min,
            r.max == max,
            r.default == default,
    {
        Self { id, name: name16(name), value: default, min, max, default }
    }
}

/// The display label of a node type.
pub open spec fn label_spec(t: NodeType) -> Seq<char> {
    match t {
        NodeType::Master => "Master"@,
        NodeType::Sampler { sample_id } => "Smp "@ + decimal_chars(sample_id as nat),
        NodeType::BuzzMachine { machine_name } => machine_name@,
    }
}

impl NodeType {
    /// Short display label for UI rendering.
    pub fn label(&self) -> (r: String)
        ensures
            r@ == label_spec(*self),
    {
        match self {
            NodeType::Master => "Master".to_owned(),
            NodeType::Sampler { sample_id } => sampler_label_text(*sample_id),
            NodeType::BuzzMachine { machine_name } => machine_name.clone(),
        }
    }
}

impl AudioGraph {
    /// Create a graph with just a master output node (id 0).
    pub fn with_master() -> (r: Self)
        ensures
            r.nodes@.len() == 1,
            r.nodes@[0].id == 0,
            r.nodes@[0].node_type == NodeType::Master,
            r.nodes@[0].parameters@.len() == 0,
            r.connections@.len() == 0,
    {
        let mut nodes: Vec<Node> = Vec::new();
        nodes.push(Node { id: 0, node_type: NodeType::Master, parameters: Vec::new() });
        Self { nodes, connections: Vec::new() }
    }

    /// Add a node and return its id (its position, truncated to 16 bits).
    pub fn add_node(&mut self, node_type: NodeType) -> (r: NodeId)
        ensures
            r == old(self).nodes@.len() as u16,
            final(self).connections@ == old(self).connections@,
            final(self).nodes@.len() == old(self).nodes@.len() + 1,
            final(self).nodes@.subrange(0, old(self).nodes@.len() as int) == old(self).nodes@,
            final(self).nodes@.last().id == r,
            final(self).nodes@.last().node_type == node_type,
            final(self).nodes@.last().parameters@.len() == 0,
    {
        let id = self.nodes.len() as NodeId;
        self.nodes.push(Node { id, node_type, parameters: Vec::new() });
        assert(self.nodes@.subrange(0, old(self).nodes@.len() as int) =~= old(self).nodes@);
        id
    }

    /// Connect two nodes at unity gain.
    pub fn connect(&mut self, from: NodeId, to: NodeId)
        ensures
            final(self).nodes@ == old(self).nodes@,
            final(self).connections@ == old(self).connections@.push(
                Connection { from, to, from_channel: 0, to_channel: 0, gain: 0 },
            ),
    {
        self.connections.push(Connection { from, to, from_channel: 0, to_channel: 0, gain: 0 });
    }

    /// Get a node by id.
    pub fn node(&self, id: NodeId) -> (r: Option<&Node>)
        ensures
            r == (if (id as int) < self.nodes@.len() { Some(&self.nodes@[id as int]) } else { None }),
    {
        if (id as usize) < self.nodes.len() {
            Some(&self.nodes[id as usize])
        } else {
            None
        }
    }

    /// Get a mutable reference to a node by id.
    pub fn node_mut(&mut self, id: NodeId) -> (r: Option<&mut Node>)
        ensures
            final(self).connections@ == old(self).connections@,
            (id as int) < old(self).nodes@.len() ==> r.is_some() && *r.unwrap() == old(self).nodes@[id as int]
                && final(self).nodes@ == old(self).nodes@.update(id as int, *final(r.unwrap())),
            (id as int) >= old(self).nodes@.len() ==> r.is_none() && final(self).nodes@ == old(self).nodes@,
    {
        if (id as usize) < self.nodes.len() {
            Some(&mut self.nodes[id as usize])
        } else {
            None
        }
    }

    /// Append a parameter to node `id` (ignored when there is no such node).
    pub fn add_parameter(&mut self, id: NodeId, param: Parameter)
        ensures
            final(self).connections@ == old(self).connections@,
            final(self).nodes@.len() == old(self).nodes@.len(),
            forall|i: int| 0 <= i < old(self).nodes@.len() && i != id as int ==> final(self).nodes@[i] == old(self).nodes@[i],
            (id as int) < old(self).nodes@.len() ==> {
                &&& final(self).nodes@[id as int].id == old(self).nodes@[id as int].id
                &&& final(self).nodes@[id as int].node_type == old(self).nodes@[id as int].node_type
                &&& final(self).nodes@[id as int].parameters@ == old(self).nodes@[id as int].parameters@.push(param)
            },
    {
        if (id as usize) < self.nodes.len() {
            let node = &mut self.nodes[id as usize];
            node.parameters.push(param);
        }
    }
}

} // verus!
