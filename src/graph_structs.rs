use vstd::prelude::*;

verus! {

/// Semantic type given to an allocation by the annotation pass.
#[derive(Debug, PartialEq, Eq, Structural, Clone, Copy)]
pub enum DtnTypes {
    Unknown,
    SshStruct,
    SessionStateStruct,
    Keystruct,
}

/// One heap allocation, its header block included.
#[derive(Debug, PartialEq, Eq, Structural, Clone, Copy)]
pub struct DataStructureNode {
    pub addr: u64,
    pub byte_size: usize,
    pub nb_pointer_nodes: usize,
    pub nb_value_nodes: usize,
    pub dtn_type: DtnTypes,
}

/// A payload block whose content reads as an address inside the heap.
#[derive(Debug, PartialEq, Eq, Structural, Clone, Copy)]
pub struct BasePointerNode {
    pub addr: u64,
    pub points_to: u64,
    pub dtn_addr: u64,
}

#[derive(Debug, PartialEq, Eq, Structural, Clone, Copy)]
pub enum PointerNode {
    BasePointerNode(BasePointerNode),
}

/// A payload block holding plain data.
#[derive(Debug, Clone, Copy)]
pub struct BaseValueNode {
    pub addr: u64,
    pub value: [u8; 8],
    pub dtn_addr: u64,
}

/// Ground-truth description of one key, as listed in the sidecar.
#[derive(Debug, Clone)]
pub struct KeyData {
    pub name: String,
    pub len: usize,
    pub key: Vec<u8>,
}

/// The first block of a key whose bytes were found in the heap.
#[derive(Debug, Clone)]
pub struct KeyNode {
    pub addr: u64,
    pub value: [u8; 8],
    pub dtn_addr: u64,
    pub key: Vec<u8>,
    pub key_data: KeyData,
}

#[derive(Debug, Clone)]
pub enum ValueNode {
    BaseValueNode(BaseValueNode),
    KeyNode(KeyNode),
}

/// A node of the memory graph.
#[derive(Debug, Clone)]
pub enum Node {
    DataStructureNode(DataStructureNode),
    PointerNode(PointerNode),
    ValueNode(ValueNode),
}

/// Tag recorded for the addresses of the special structures of the sidecar.
#[derive(Debug, PartialEq, Eq, Structural, Clone, Copy)]
pub enum SpecialNodeAnnotation {
    SshStructNodeAnnotation(u64),
    SessionStateNodeAnnotation(u64),
}

impl Node {
    pub open spec fn spec_addr(&self) -> u64 {
        match self {
            Node::DataStructureNode(d) => d.addr,
            Node::PointerNode(PointerNode::BasePointerNode(p)) => p.addr,
            Node::ValueNode(ValueNode::BaseValueNode(v)) => v.addr,
            Node::ValueNode(ValueNode::KeyNode(k)) => k.addr,
        }
    }

    /// Address of the allocation that holds a pointer or value node.
    pub open spec fn spec_dtn_addr(&self) -> Option<u64> {
        match self {
            Node::DataStructureNode(_) => None,
            Node::PointerNode(PointerNode::BasePointerNode(p)) => Some(p.dtn_addr),
            Node::ValueNode(ValueNode::BaseValueNode(v)) => Some(v.dtn_addr),
            Node::ValueNode(ValueNode::KeyNode(k)) => Some(k.dtn_addr),
        }
    }

    pub open spec fn spec_value(&self) -> Option<[u8; 8]> {
        match self {
            Node::ValueNode(ValueNode::BaseValueNode(v)) => Some(v.value),
            Node::ValueNode(ValueNode::KeyNode(k)) => Some(k.value),
            _ => None,
        }
    }

    pub open spec fn spec_points_to(&self) -> Option<u64> {
        match self {
            Node::PointerNode(PointerNode::BasePointerNode(p)) => Some(p.points_to),
            _ => None,
        }
    }

    pub open spec fn is_dtn(&self) -> bool {
        self is DataStructureNode
    }

    pub open spec fn is_pointer_node(&self) -> bool {
        self is PointerNode
    }

    pub open spec fn is_value_node(&self) -> bool {
        self is ValueNode
    }

    pub open spec fn is_key_node(&self) -> bool {
        self is ValueNode && self->ValueNode_0 is KeyNode
    }

    pub fn get_address(&self) -> (r: u64)
        ensures
            r == self.spec_addr(),
    {
        match self {
            Node::DataStructureNode(d) => d.addr,
            Node::PointerNode(PointerNode::BasePointerNode(p)) => p.addr,
            Node::ValueNode(ValueNode::BaseValueNode(v)) => v.addr,
            Node::ValueNode(ValueNode::KeyNode(k)) => k.addr,
        }
    }

    pub fn get_dtn_addr(&self) -> (r: Option<u64>)
        ensures
            r == self.spec_dtn_addr(),
    {
        match self {
            Node::DataStructureNode(_) => None,
            Node::PointerNode(PointerNode::BasePointerNode(p)) => Some(p.dtn_addr),
            Node::ValueNode(ValueNode::BaseValueNode(v)) => Some(v.dtn_addr),
            Node::ValueNode(ValueNode::KeyNode(k)) => Some(k.dtn_addr),
        }
    }

    pub fn get_value(&self) -> (r: Option<[u8; 8]>)
        ensures
            r == self.spec_value(),
    {
        match self {
            Node::ValueNode(ValueNode::BaseValueNode(v)) => Some(v.value),
            Node::ValueNode(ValueNode::KeyNode(k)) => Some(k.value),
            _ => None,
        }
    }

    pub fn points_to(&self) -> (r: Option<u64>)
        ensures
            r == self.spec_points_to(),
    {
        match self {
            Node::PointerNode(PointerNode::BasePointerNode(p)) => Some(p.points_to),
            _ => None,
        }
    }

    pub fn is_value(&self) -> (r: bool)
        ensures
            r == self.is_value_node(),
    {
        match self {
            Node::ValueNode(_) => true,
            _ => false,
        }
    }

    pub fn is_pointer(&self) -> (r: bool)
        ensures
            r == self.is_pointer_node(),
    {
        match self {
            Node::PointerNode(_) => true,
            _ => false,
        }
    }

    pub fn is_key(&self) -> (r: bool)
        ensures
            r == self.is_key_node(),
    {
        match self {
            Node::ValueNode(ValueNode::KeyNode(_)) => true,
            _ => false,
        }
    }
}

} // verus!
