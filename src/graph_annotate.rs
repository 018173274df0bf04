use vstd::prelude::*;

use crate::graph_data::{built_from, graph_wf, is_header, keys_unique, reported_as, seq_of, sidecar_error, HeapDumpData, lemma_wf_slot, slot_at, slot_dtn, slot_is_dtn, GraphData};
use crate::graph_structs::{
    BaseValueNode, DataStructureNode, DtnTypes, KeyData, KeyNode, Node, SpecialNodeAnnotation, ValueNode,
};
use crate::json::{spec_json_get, JsonValue};
use crate::utils::{be_bytes, div_round_up, spec_json_addr, u64_to_bytes, ErrorKind};

verus! {

/// The bytes that a block gives to a key: a value's raw bytes, or a pointer's target
/// written back most significant byte first.
pub open spec fn key_block_bytes(node: Node) -> Option<Seq<u8>> {
    match node {
        Node::ValueNode(_) => Some(node.spec_value()->Some_0@),
        Node::PointerNode(_) => Some(be_bytes(node.spec_points_to()->Some_0)),
        Node::DataStructureNode(_) => None,
    }
}

/// Bytes of blocks `i..nb` of a key that starts at `addr`, up to the first block that
/// is missing or is an allocation header.
pub open spec fn gathered_key(nodes: Seq<Option<Node>>, min_addr: u64, addr: int, i: int, nb: int) -> Seq<u8>
    decreases nb - i,
{
    if i >= nb || i < 0 {
        seq![]
    } else {
        match slot_at(nodes, min_addr, addr + 8 * i) {
            Some(node) => match key_block_bytes(node) {
                Some(b) => b + gathered_key(nodes, min_addr, addr, i + 1, nb),
                None => seq![],
            },
            None => seq![],
        }
    }
}

/// The key of `len` bytes read from the heap at `addr`.
pub open spec fn reassembled_key(nodes: Seq<Option<Node>>, min_addr: u64, addr: int, len: int) -> Seq<u8> {
    let g = gathered_key(nodes, min_addr, addr, 0, (len + 7) / 8);
    if g.len() > len {
        g.take(len)
    } else {
        g
    }
}

/// Whether the sidecar's key at `addr` is found in the heap: the block there is a
/// value and the reassembled bytes equal the expected key.
pub open spec fn key_found(nodes: Seq<Option<Node>>, min_addr: u64, addr: u64, key_data: KeyData) -> bool {
    &&& slot_at(nodes, min_addr, addr as int) is Some
    &&& slot_at(nodes, min_addr, addr as int)->Some_0 is ValueNode
    &&& reassembled_key(nodes, min_addr, addr as int, key_data.len as int) == key_data.key@
}

/// Two nodes at the same place with the same address, allocation, size and content:
/// what annotation keeps of a node.
pub open spec fn same_shape(a: Node, b: Node) -> bool {
    &&& a.spec_addr() == b.spec_addr()
    &&& a.spec_dtn_addr() == b.spec_dtn_addr()
    &&& a.spec_points_to() == b.spec_points_to()
    &&& a.spec_value() == b.spec_value()
    &&& (a is DataStructureNode <==> b is DataStructureNode)
    &&& (a is PointerNode <==> b is PointerNode)
    &&& (a is ValueNode <==> b is ValueNode)
    &&& a is DataStructureNode ==> {
        &&& a->DataStructureNode_0.byte_size == b->DataStructureNode_0.byte_size
        &&& a->DataStructureNode_0.nb_pointer_nodes == b->DataStructureNode_0.nb_pointer_nodes
        &&& a->DataStructureNode_0.nb_value_nodes == b->DataStructureNode_0.nb_value_nodes
    }
}

pub open spec fn slots_same_shape(a: Seq<Option<Node>>, b: Seq<Option<Node>>) -> bool {
    &&& a.len() == b.len()
    &&& forall|k: int|
        #![trigger b[k]]
        0 <= k < a.len() ==> (a[k] is Some <==> b[k] is Some) && (a[k] is Some ==> same_shape(
            a[k]->Some_0,
            b[k]->Some_0,
        ))
}

proof fn lemma_same_shape_gathered(
    a: Seq<Option<Node>>,
    b: Seq<Option<Node>>,
    min_addr: u64,
    addr: int,
    i: int,
    nb: int,
)
    requires
        slots_same_shape(a, b),
    ensures
        gathered_key(a, min_addr, addr, i, nb) == gathered_key(b, min_addr, addr, i, nb),
    decreases nb - i,
{
    if i < nb && i >= 0 {
        let p = addr + 8 * i;
        if slot_at(a, min_addr, p) is Some {
            let k = (p - min_addr) / 8;
            assert(b[k] is Some);
        }
        lemma_same_shape_gathered(a, b, min_addr, addr, i + 1, nb);
    }
}

proof fn lemma_same_shape_wf(min_addr: u64, max_addr: u64, a: Seq<Option<Node>>, b: Seq<Option<Node>>, block_dtn: Seq<Option<u64>>)
    requires
        graph_wf(min_addr, max_addr, a, block_dtn),
        slots_same_shape(a, b),
    ensures
        graph_wf(min_addr, max_addr, b, block_dtn),
{
    reveal(graph_wf);
    assert forall|j: int| slot_is_dtn(a, j) <==> slot_is_dtn(b, j) by {
        if 0 <= j < a.len() {
            assert(a[j] is Some <==> b[j] is Some);
        }
    }
    assert forall|j: int| #![trigger slot_dtn(b, j)] slot_is_dtn(b, j) implies slot_dtn(a, j).byte_size == slot_dtn(b, j).byte_size
        && slot_dtn(a, j).nb_pointer_nodes == slot_dtn(b, j).nb_pointer_nodes
        && slot_dtn(a, j).nb_value_nodes == slot_dtn(b, j).nb_value_nodes by {
        assert(b[j] is Some);
    }
    assert forall|k: int|
        #![trigger block_dtn[k]]
        0 <= k < block_dtn.len() && block_dtn[k] is Some implies crate::graph_data::dtn_covers(b, min_addr, block_dtn[k]->Some_0, k) by {
        assert(crate::graph_data::dtn_covers(a, min_addr, block_dtn[k]->Some_0, k));
        let j = (block_dtn[k]->Some_0 - min_addr) / 8;
        assert(slot_is_dtn(a, j));
    }
    assert forall|j: int, k: int|
        #![trigger slot_dtn(b, j), block_dtn[k]]
        slot_is_dtn(b, j) && j <= k < j + slot_dtn(b, j).byte_size / 8 implies block_dtn[k] == Some(
            (min_addr + 8 * j) as u64,
        ) by {
        assert(slot_is_dtn(a, j));
        assert(slot_dtn(a, j).byte_size == slot_dtn(b, j).byte_size);
    }
    assert forall|k: int|
        #![trigger b[k]]
        0 <= k < b.len() && b[k] is Some implies ({
            let node = b[k]->Some_0;
            &&& node.spec_addr() == min_addr + 8 * k
            &&& !(node is DataStructureNode) ==> block_dtn[k] == node.spec_dtn_addr()
            &&& node is DataStructureNode ==> block_dtn[k] == Some(node.spec_addr())
            &&& node is PointerNode ==> min_addr <= node.spec_points_to()->Some_0 <= max_addr
        }) by {
        assert(a[k] is Some);
    }
}

/// Appends the eight bytes of a block.
fn append_block(v: &mut Vec<u8>, b: &[u8; 8])
    ensures
        final(v)@ == old(v)@ + b@,
{
    let ghost start = v@;
    let mut i: usize = 0;
    while i < 8
        invariant
            0 <= i <= 8,
            v@ == start + b@.subrange(0, i as int),
        decreases 8 - i,
    {
        v.push(b[i]);
        i = i + 1;
        assert(v@ =~= start + b@.subrange(0, i as int));
    }
    assert(b@.subrange(0, 8) =~= b@);
}

fn bytes_equal(a: &Vec<u8>, b: &Vec<u8>) -> (r: bool)
    ensures
        r == (a@ == b@),
{
    if a.len() != b.len() {
        return false;
    }
    let mut i: usize = 0;
    while i < a.len()
        invariant
            a@.len() == b@.len(),
            0 <= i <= a@.len(),
            a@.subrange(0, i as int) == b@.subrange(0, i as int),
        decreases a@.len() - i,
    {
        if a[i] != b[i] {
            assert(a@[i as int] != b@[i as int]);
            return false;
        }
        assert(a@.subrange(0, i + 1) =~= a@.subrange(0, i as int).push(a@[i as int]));
        assert(b@.subrange(0, i + 1) =~= b@.subrange(0, i as int).push(b@[i as int]));
        i = i + 1;
    }
    assert(a@ =~= a@.subrange(0, i as int));
    assert(b@ =~= b@.subrange(0, i as int));
    true
}

fn copy_bytes(a: &Vec<u8>) -> (r: Vec<u8>)
    ensures
        r@ == a@,
{
    let mut r: Vec<u8> = Vec::new();
    let mut i: usize = 0;
    while i < a.len()
        invariant
            0 <= i <= a@.len(),
            r@ == a@.subrange(0, i as int),
        decreases a@.len() - i,
    {
        r.push(a[i]);
        i = i + 1;
        assert(r@ =~= a@.subrange(0, i as int));
    }
    assert(a@ =~= a@.subrange(0, i as int));
    r
}

/// A copy of a sidecar key entry.
pub fn copy_key_data(k: &KeyData) -> (r: KeyData)
    ensures
        r.name@ == k.name@,
        r.len == k.len,
        r.key@ == k.key@,
{
    KeyData { name: k.name.clone(), len: k.len, key: copy_bytes(&k.key) }
}

pub(crate) fn node_at(nodes: &Vec<Option<Node>>, min_addr: u64, addr: u64) -> (r: Option<&Node>)
    ensures
        match r {
            Some(n) => slot_at(nodes@, min_addr, addr as int) == Some(*n),
            None => slot_at(nodes@, min_addr, addr as int) is None,
        },
{
    if addr < min_addr || (addr - min_addr) % 8 != 0 {
        return None;
    }
    let q = (addr - min_addr) / 8;
    if q >= nodes.len() as u64 {
        return None;
    }
    match &nodes[q as usize] {
        Some(node) => Some(node),
        None => None,
    }
}

/// Reads the `len` bytes of a key that starts at `addr`, block by block: a value gives
/// its raw bytes, a pointer its target in big-endian order; a missing block or an
/// allocation header ends the key early.
pub fn reassemble_key(nodes: &Vec<Option<Node>>, min_addr: u64, addr: u64, len: usize) -> (r: Vec<u8>)
    requires
        min_addr + 8 * nodes@.len() <= u64::MAX + 1,
    ensures
        r@ == reassembled_key(nodes@, min_addr, addr as int, len as int),
{
    let nb = div_round_up(len, 8);
    let mut agg: Vec<u8> = Vec::new();
    let mut i: usize = 0;
    let mut cur: u64 = addr;
    let mut stopped = false;
    let ghost all = gathered_key(nodes@, min_addr, addr as int, 0, nb as int);
    while i < nb && !stopped
        invariant
            nb == (len + 7) / 8,
            all == gathered_key(nodes@, min_addr, addr as int, 0, nb as int),
            min_addr + 8 * nodes@.len() <= u64::MAX + 1,
            0 <= i <= nb,
            !stopped && i < nb ==> cur == addr + 8 * i,
            !stopped ==> agg@ + gathered_key(nodes@, min_addr, addr as int, i as int, nb as int) == all,
            stopped ==> agg@ == all,
        decreases nb - i + (if stopped { 0int } else { 1int }),
    {
        let ghost before = agg@;
        let ghost rest = gathered_key(nodes@, min_addr, addr as int, i as int + 1, nb as int);
        match node_at(nodes, min_addr, cur) {
            Some(node) => match node {
                Node::ValueNode(_) => {
                    let value = node.get_value().unwrap();
                    append_block(&mut agg, &value);
                    assert(before + gathered_key(nodes@, min_addr, addr as int, i as int, nb as int) == all);
                    assert(gathered_key(nodes@, min_addr, addr as int, i as int, nb as int) == value@ + rest);
                    assert(before + (value@ + rest) =~= (before + value@) + rest);
                },
                Node::PointerNode(_) => {
                    let target = node.points_to().unwrap();
                    let bytes = u64_to_bytes(target);
                    append_block(&mut agg, &bytes);
                    assert(gathered_key(nodes@, min_addr, addr as int, i as int, nb as int) == bytes@ + rest);
                    assert(before + (bytes@ + rest) =~= (before + bytes@) + rest);
                },
                Node::DataStructureNode(_) => {
                    stopped = true;
                    assert(agg@ =~= agg@ + Seq::<u8>::empty());
                },
            },
            None => {
                stopped = true;
                assert(agg@ =~= agg@ + Seq::<u8>::empty());
            },
        }
        if !stopped {
            i = i + 1;
            if i < nb {
                if cur > u64::MAX - 8 {
                    stopped = true;
                    assert(slot_at(nodes@, min_addr, addr + 8 * i) is None);
                    assert(agg@ =~= agg@ + Seq::<u8>::empty());
                } else {
                    cur = cur + 8;
                }
            }
        }
    }
    if !stopped {
        assert(agg@ =~= agg@ + Seq::<u8>::empty());
    }
    if agg.len() > len {
        agg.truncate(len);
    }
    agg
}

/// Index of the allocation slot that the special-structure pass upgrades for the
/// address `a`: the allocation itself, or the allocation that holds the block at `a`.
pub open spec fn special_target(nodes: Seq<Option<Node>>, min_addr: u64, a: int) -> Option<int> {
    match slot_at(nodes, min_addr, a) {
        Some(node) => if node is DataStructureNode {
            Some((a - min_addr) / 8)
        } else {
            Some((node.spec_dtn_addr()->Some_0 - min_addr) / 8)
        },
        None => None,
    }
}

/// The allocation node `d` with its type replaced.
pub open spec fn with_type(d: DataStructureNode, t: DtnTypes) -> Node {
    Node::DataStructureNode(DataStructureNode { dtn_type: t, ..d })
}

/// What annotation leaves untouched besides the shape of the nodes.
pub open spec fn same_frame(a: GraphData, b: GraphData) -> bool {
    &&& a.heap_dump_data.min_addr == b.heap_dump_data.min_addr
    &&& a.heap_dump_data.max_addr == b.heap_dump_data.max_addr
    &&& a.heap_dump_data.block_size == b.heap_dump_data.block_size
    &&& a.heap_dump_data.addr_ssh_struct == b.heap_dump_data.addr_ssh_struct
    &&& a.heap_dump_data.addr_session_state == b.heap_dump_data.addr_session_state
    &&& a.heap_dump_data.addr_to_key_data@ == b.heap_dump_data.addr_to_key_data@
    &&& a.block_dtn@ == b.block_dtn@
    &&& a.value_node_addrs@ == b.value_node_addrs@
    &&& a.without_value_nodes == b.without_value_nodes
}

/// A graph, annotated from its sidecar.
pub struct GraphAnnotate {
    pub graph_data: GraphData,
    pub no_value_node: bool,
}

impl GraphAnnotate {
    /// Builds the memory graph of a dump and its sidecar, and annotates it when
    /// `annotation` is set. Fails with the sidecar's errors (see
    /// `HeapDumpData::from_json`), or with `InvalidHeapDump` for an empty dump or one
    /// that does not fit in the address space.
    pub fn new(
        dump: &Vec<u8>,
        sidecar: &JsonValue,
        pointer_byte_size: usize,
        annotation: bool,
        without_value_nodes: bool,
    ) -> (r: Result<GraphAnnotate, ErrorKind>)
        requires
            pointer_byte_size == 8,
        ensures
            r is Ok <==> sidecar_error(*sidecar) is None && dump@.len() >= 1
                && spec_json_addr(spec_json_get(*sidecar, seq_of("HEAP_START"))->Some_0)->Some_0 + dump@.len() - 1 <= u64::MAX,
            sidecar_error(*sidecar) is Some ==> r is Err && reported_as(r->Err_0, sidecar_error(*sidecar)->Some_0),
            sidecar_error(*sidecar) is None && !(r is Ok) ==> r is Err && r->Err_0 is InvalidHeapDump,
            match r {
                Ok(ga) => {
                    let g = ga.graph_data;
                    let mn = g.heap_dump_data.min_addr;
                    let entries = g.heap_dump_data.addr_to_key_data@;
                    &&& g.wf()
                    &&& ga.no_value_node == without_value_nodes
                    &&& g.without_value_nodes == without_value_nodes
                    &&& mn == spec_json_addr(spec_json_get(*sidecar, seq_of("HEAP_START"))->Some_0)->Some_0
                    &&& g.heap_dump_data.max_addr == mn + dump@.len() - 1
                    &&& g.heap_dump_data.block_size == 8
                    &&& g.heap_dump_data.addr_ssh_struct == spec_json_addr(spec_json_get(*sidecar, seq_of("addr_ssh_struct"))->Some_0)->Some_0
                    &&& g.heap_dump_data.addr_session_state == spec_json_addr(spec_json_get(*sidecar, seq_of("addr_session_state"))->Some_0)->Some_0
                    &&& keys_unique(entries)
                    &&& built_from(dump@, g.heap_dump_data, without_value_nodes, unannotated(g.nodes@), g.block_dtn@, g.value_node_addrs@)
                    &&& annotation ==> annotation_of(g, without_value_nodes, unannotated(g.nodes@), seq![], g)
                    &&& !annotation ==> g.nodes@ == unannotated(g.nodes@) && g.special_node_to_annotation@.len() == 0
                },
                Err(_) => true,
            },
    {
        let heap_dump_data = match HeapDumpData::from_json(sidecar, pointer_byte_size, dump.len()) {
            Ok(d) => d,
            Err(e) => {
                return Err(e);
            },
        };
        let graph_data = GraphData::new(dump, heap_dump_data, without_value_nodes);
        let ghost b = graph_data.nodes@;
        proof {
            assert forall|k: int| 0 <= k < b.len() && b[k] is Some implies !(#[trigger] b[k])->Some_0.is_key_node() by {
                lemma_wf_slot(graph_data, k);
            }
        }
        let mut graph_annotate = GraphAnnotate { graph_data, no_value_node: without_value_nodes };
        if annotation {
            let ghost g0 = graph_annotate.graph_data;
            graph_annotate.annotate();
            proof {
                let g = graph_annotate.graph_data;
                lemma_unannotated(b, g.nodes@);
                assert(g0.special_node_to_annotation@ =~= seq![]);
                assert(special_anchor(g0, without_value_nodes, g0.heap_dump_data.addr_ssh_struct)
                    == special_anchor(g, without_value_nodes, g.heap_dump_data.addr_ssh_struct));
                assert(special_anchor(g0, without_value_nodes, g0.heap_dump_data.addr_session_state)
                    == special_anchor(g, without_value_nodes, g.heap_dump_data.addr_session_state));
                assert forall|j: int| annotated_type(g0, without_value_nodes, b, j) == annotated_type(g, without_value_nodes, b, j) by {}
            }
        } else {
            proof {
                let g = graph_annotate.graph_data;
                assert(slots_same_shape(b, b));
                lemma_unannotated(b, b);
            }
        }
        Ok(graph_annotate)
    }
}

impl GraphAnnotate {
    /// The allocation node `dtn` with the type `new_dtn_type`; `None` when `dtn` is not
    /// an allocation.
    pub fn get_node_as_annotated_dtn(dtn: &Node, new_dtn_type: DtnTypes) -> (r: Option<Node>)
        ensures
            match dtn {
                Node::DataStructureNode(d) => r == Some(with_type(*d, new_dtn_type)),
                _ => r is None,
            },
    {
        match dtn {
            Node::DataStructureNode(dtn_node_info) => Some(
                Node::DataStructureNode(
                    DataStructureNode {
                        addr: dtn_node_info.addr,
                        byte_size: dtn_node_info.byte_size,
                        nb_pointer_nodes: dtn_node_info.nb_pointer_nodes,
                        nb_value_nodes: dtn_node_info.nb_value_nodes,
                        dtn_type: new_dtn_type,
                    },
                ),
            ),
            _ => None,
        }
    }

    /// Gives the type `dtn_type` to the allocation at `node_addr`, or to the allocation
    /// that holds the block at `node_addr`. Nothing changes when no node is there.
    pub fn annotate_special_dtn(&mut self, node_addr: u64, dtn_type: DtnTypes)
        requires
            old(self).graph_data.wf(),
        ensures
            final(self).graph_data.wf(),
            same_frame(old(self).graph_data, final(self).graph_data),
            final(self).graph_data.special_node_to_annotation@ == old(self).graph_data.special_node_to_annotation@,
            final(self).no_value_node == old(self).no_value_node,
            slots_same_shape(old(self).graph_data.nodes@, final(self).graph_data.nodes@),
            match special_target(old(self).graph_data.nodes@, old(self).graph_data.heap_dump_data.min_addr, node_addr as int) {
                Some(j) => final(self).graph_data.nodes@ == old(self).graph_data.nodes@.update(
                    j,
                    Some(with_type(slot_dtn(old(self).graph_data.nodes@, j), dtn_type)),
                ) && slot_is_dtn(old(self).graph_data.nodes@, j),
                None => final(self).graph_data.nodes@ == old(self).graph_data.nodes@,
            },
            forall|k: int|
                #![trigger final(self).graph_data.nodes@[k]]
                0 <= k < old(self).graph_data.nodes@.len() && !slot_is_dtn(old(self).graph_data.nodes@, k)
                    ==> final(self).graph_data.nodes@[k] == old(self).graph_data.nodes@[k],
    {
        let ghost g = self.graph_data;
        let mn = self.graph_data.heap_dump_data.min_addr;
        let target = match self.graph_data.get_node(node_addr) {
            Some(node) => match node {
                Node::DataStructureNode(_) => Some(node_addr),
                _ => {
                    proof {
                        lemma_wf_slot(g, (node_addr - mn) / 8);
                    }
                    node.get_dtn_addr()
                },
            },
            None => None,
        };
        match target {
            Some(dtn_addr) => {
                proof {
                    assert(special_target(g.nodes@, mn, node_addr as int) == Some((dtn_addr - mn) / 8));
                    let jj = (dtn_addr - mn) / 8;
                    assert(slot_is_dtn(g.nodes@, jj));
                }
                let nodes_len = self.graph_data.nodes.len();
                assert((dtn_addr - mn) / 8 < nodes_len);
                let j = ((dtn_addr - mn) / 8) as usize;
                let new_dtn = match &self.graph_data.nodes[j] {
                    Some(dtn_node) => Self::get_node_as_annotated_dtn(dtn_node, dtn_type),
                    None => None,
                };
                match new_dtn {
                    Some(n) => {
                        self.graph_data.nodes.set(j, Some(n));
                        proof {
                            assert(slots_same_shape(g.nodes@, self.graph_data.nodes@));
                            lemma_same_shape_wf(mn, g.heap_dump_data.max_addr, g.nodes@, self.graph_data.nodes@, g.block_dtn@);
                        }
                    },
                    None => {},
                }
            },
            None => {},
        }
    }

    /// Replaces the value node at `addr` with a key node when the key of `key_data` is
    /// found there, and gives its allocation the type `Keystruct`.
    pub fn annotate_key_entry(&mut self, addr: u64, key_data: &KeyData)
        requires
            old(self).graph_data.wf(),
        ensures
            final(self).graph_data.wf(),
            same_frame(old(self).graph_data, final(self).graph_data),
            final(self).graph_data.special_node_to_annotation@ == old(self).graph_data.special_node_to_annotation@,
            final(self).no_value_node == old(self).no_value_node,
            slots_same_shape(old(self).graph_data.nodes@, final(self).graph_data.nodes@),
            ({
                let mn = old(self).graph_data.heap_dump_data.min_addr;
                let before = old(self).graph_data.nodes@;
                let after = final(self).graph_data.nodes@;
                let q = (addr - mn) / 8;
                if key_found(before, mn, addr, *key_data) {
                    let j = (before[q]->Some_0.spec_dtn_addr()->Some_0 - mn) / 8;
                    &&& after[q] is Some
                    &&& after[q]->Some_0.is_key_node()
                    &&& after[q]->Some_0.spec_addr() == addr
                    &&& key_node_holds(after[q]->Some_0->ValueNode_0->KeyNode_0, *key_data)
                    &&& after[j] == Some(with_type(slot_dtn(before, j), DtnTypes::Keystruct))
                    &&& slot_is_dtn(before, j)
                    &&& forall|m: int| 0 <= m < after.len() && m != q && m != j ==> after[m] == before[m]
                } else {
                    after == before
                }
            }),
    {
        let ghost g = self.graph_data;
        let mn = self.graph_data.heap_dump_data.min_addr;
        proof {
            lemma_wf_slot(g, (addr - mn) / 8);
        }
        let aggregated_key = reassemble_key(&self.graph_data.nodes, mn, addr, key_data.len);
        let first = match self.graph_data.get_node(addr) {
            Some(node) => match node {
                Node::ValueNode(_) => Some((node.get_value().unwrap(), node.get_dtn_addr().unwrap())),
                _ => None,
            },
            None => None,
        };
        assert(first is Some <==> (slot_at(g.nodes@, mn, addr as int) is Some && slot_at(g.nodes@, mn, addr as int)->Some_0 is ValueNode));
        assert(first is Some ==> first->Some_0.0 == slot_at(g.nodes@, mn, addr as int)->Some_0.spec_value()->Some_0
            && Some(first->Some_0.1) == slot_at(g.nodes@, mn, addr as int)->Some_0.spec_dtn_addr());
        match first {
            Some((value, dtn_addr)) => {
                if bytes_equal(&aggregated_key, &key_data.key) {
                    let nodes_len = self.graph_data.nodes.len();
                    assert((addr - mn) / 8 < nodes_len);
                    let q = ((addr - mn) / 8) as usize;
                    proof {
                        lemma_wf_slot(g, q as int);
                    }
                    assert((dtn_addr - mn) / 8 < nodes_len);
                    let j = ((dtn_addr - mn) / 8) as usize;
                    let new_dtn = match &self.graph_data.nodes[j] {
                        Some(dtn_node) => Self::get_node_as_annotated_dtn(dtn_node, DtnTypes::Keystruct),
                        None => None,
                    };
                    let key_node = Node::ValueNode(
                        ValueNode::KeyNode(
                            KeyNode {
                                addr,
                                value,
                                dtn_addr,
                                key: aggregated_key,
                                key_data: copy_key_data(key_data),
                            },
                        ),
                    );
                    match new_dtn {
                        Some(n) => {
                            self.graph_data.nodes.set(j, Some(n));
                        },
                        None => {},
                    }
                    self.graph_data.nodes.set(q, Some(key_node));
                    proof {
                        assert(slots_same_shape(g.nodes@, self.graph_data.nodes@));
                        lemma_same_shape_wf(mn, g.heap_dump_data.max_addr, g.nodes@, self.graph_data.nodes@, g.block_dtn@);
                    }
                }
            },
            None => {},
        }
    }
}

/// A key node that carries the key of `key_data`, and `key_data` itself.
pub open spec fn key_node_holds(k: KeyNode, key_data: KeyData) -> bool {
    &&& k.key@ == key_data.key@
    &&& k.key_data.name@ == key_data.name@
    &&& k.key_data.len == key_data.len
    &&& k.key_data.key@ == key_data.key@
}

/// Whether the key pass may change slot `k`: entry `i` of the sidecar's key map is
/// found in `before`, and `k` is its first block or the allocation that holds it.
pub open spec fn touched_by_key(before: Seq<Option<Node>>, entries: Seq<(u64, KeyData)>, min_addr: u64, i: int, k: int) -> bool {
    let a = entries[i].0;
    let q = (a - min_addr) / 8;
    &&& 0 <= i < entries.len()
    &&& key_found(before, min_addr, a, entries[i].1)
    &&& (k == q || k == (before[q]->Some_0.spec_dtn_addr()->Some_0 - min_addr) / 8)
}

/// The key of `key_data` is annotated at `addr`: a key node holding it stands there,
/// in an allocation of type `Keystruct`.
pub open spec fn key_annotated(nodes: Seq<Option<Node>>, min_addr: u64, addr: u64, key_data: KeyData) -> bool {
    let node = slot_at(nodes, min_addr, addr as int);
    &&& node is Some
    &&& node->Some_0.is_key_node()
    &&& key_node_holds(node->Some_0->ValueNode_0->KeyNode_0, key_data)
    &&& ({
        let j = (node->Some_0.spec_dtn_addr()->Some_0 - min_addr) / 8;
        slot_is_dtn(nodes, j) && slot_dtn(nodes, j).dtn_type == DtnTypes::Keystruct
    })
}

proof fn lemma_same_shape_trans(a: Seq<Option<Node>>, b: Seq<Option<Node>>, c: Seq<Option<Node>>)
    requires
        slots_same_shape(a, b),
        slots_same_shape(b, c),
    ensures
        slots_same_shape(a, c),
{
    assert forall|k: int| #![trigger c[k]] 0 <= k < a.len() implies (a[k] is Some <==> c[k] is Some) && (a[k] is Some ==> same_shape(a[k]->Some_0, c[k]->Some_0)) by {
        assert(b[k] is Some <==> c[k] is Some);
        assert(a[k] is Some <==> b[k] is Some);
    }
}

proof fn lemma_same_shape_key_found(a: Seq<Option<Node>>, b: Seq<Option<Node>>, min_addr: u64, addr: u64, key_data: KeyData)
    requires
        slots_same_shape(a, b),
    ensures
        key_found(a, min_addr, addr, key_data) == key_found(b, min_addr, addr, key_data),
{
    lemma_same_shape_gathered(a, b, min_addr, addr as int, 0, (key_data.len + 7) / 8);
    let p = addr as int;
    if slot_at(a, min_addr, p) is Some || slot_at(b, min_addr, p) is Some {
        let k = (p - min_addr) / 8;
        assert(b[k] is Some <==> a[k] is Some);
    }
}

impl GraphAnnotate {
    /// Annotates every key of the sidecar that is found in the heap.
    pub fn annotate_graph_with_key_data(&mut self)
        requires
            old(self).graph_data.wf(),
            keys_unique(old(self).graph_data.heap_dump_data.addr_to_key_data@),
        ensures
            final(self).graph_data.wf(),
            same_frame(old(self).graph_data, final(self).graph_data),
            final(self).graph_data.special_node_to_annotation@ == old(self).graph_data.special_node_to_annotation@,
            final(self).no_value_node == old(self).no_value_node,
            slots_same_shape(old(self).graph_data.nodes@, final(self).graph_data.nodes@),
            forall|i: int|
                #![trigger old(self).graph_data.heap_dump_data.addr_to_key_data@[i]]
                0 <= i < old(self).graph_data.heap_dump_data.addr_to_key_data@.len() && key_found(
                    old(self).graph_data.nodes@,
                    old(self).graph_data.heap_dump_data.min_addr,
                    old(self).graph_data.heap_dump_data.addr_to_key_data@[i].0,
                    old(self).graph_data.heap_dump_data.addr_to_key_data@[i].1,
                ) ==> key_annotated(
                    final(self).graph_data.nodes@,
                    old(self).graph_data.heap_dump_data.min_addr,
                    old(self).graph_data.heap_dump_data.addr_to_key_data@[i].0,
                    old(self).graph_data.heap_dump_data.addr_to_key_data@[i].1,
                ),
            forall|k: int|
                #![trigger final(self).graph_data.nodes@[k]]
                0 <= k < old(self).graph_data.nodes@.len() && !(exists|i: int| #[trigger] touched_by_key(
                    old(self).graph_data.nodes@,
                    old(self).graph_data.heap_dump_data.addr_to_key_data@,
                    old(self).graph_data.heap_dump_data.min_addr,
                    i,
                    k,
                )) ==> final(self).graph_data.nodes@[k] == old(self).graph_data.nodes@[k],
    {
        let ghost orig = self.graph_data;
        let ghost entries = self.graph_data.heap_dump_data.addr_to_key_data@;
        let ghost mn = self.graph_data.heap_dump_data.min_addr;
        let nb_entries = self.graph_data.heap_dump_data.addr_to_key_data.len();
        let mut i: usize = 0;
        proof {
            assert(slots_same_shape(orig.nodes@, self.graph_data.nodes@));
        }
        while i < nb_entries
            invariant
                0 <= i <= nb_entries,
                nb_entries == entries.len(),
                entries == orig.heap_dump_data.addr_to_key_data@,
                mn == orig.heap_dump_data.min_addr,
                keys_unique(entries),
                self.graph_data.wf(),
                same_frame(orig, self.graph_data),
                self.graph_data.special_node_to_annotation@ == orig.special_node_to_annotation@,
                self.no_value_node == old(self).no_value_node,
                orig == old(self).graph_data,
                slots_same_shape(orig.nodes@, self.graph_data.nodes@),
                forall|i2: int|
                    #![trigger entries[i2]]
                    0 <= i2 < i && key_found(orig.nodes@, mn, entries[i2].0, entries[i2].1)
                        ==> key_annotated(self.graph_data.nodes@, mn, entries[i2].0, entries[i2].1),
                forall|k: int|
                    #![trigger self.graph_data.nodes@[k]]
                    0 <= k < orig.nodes@.len() && !(exists|i2: int| 0 <= i2 < i && #[trigger] touched_by_key(orig.nodes@, entries, mn, i2, k))
                        ==> self.graph_data.nodes@[k] == orig.nodes@[k],
            decreases nb_entries - i,
        {
            let addr = self.graph_data.heap_dump_data.addr_to_key_data[i].0;
            let key_data = copy_key_data(&self.graph_data.heap_dump_data.addr_to_key_data[i].1);
            let ghost before = self.graph_data.nodes@;
            proof {
                lemma_same_shape_key_found(orig.nodes@, before, mn, addr, key_data);
                assert(key_found(orig.nodes@, mn, addr, key_data) == key_found(orig.nodes@, mn, entries[i as int].0, entries[i as int].1));
            }
            self.annotate_key_entry(addr, &key_data);
            proof {
                let after = self.graph_data.nodes@;
                lemma_same_shape_trans(orig.nodes@, before, after);
                lemma_wf_slot(self.graph_data, 0);
                assert forall|i2: int|
                    #![trigger entries[i2]]
                    0 <= i2 < i + 1 && key_found(orig.nodes@, mn, entries[i2].0, entries[i2].1)
                        implies key_annotated(after, mn, entries[i2].0, entries[i2].1) by {
                    if i2 < i {
                        assert(key_annotated(before, mn, entries[i2].0, entries[i2].1));
                        assert(entries[i2].0 != entries[i as int].0);
                        let q2 = (entries[i2].0 - mn) / 8;
                        assert(before[q2] is Some);
                        assert(after[q2] is Some);
                        assert(after[q2] == before[q2]);
                        let j2 = (before[q2]->Some_0.spec_dtn_addr()->Some_0 - mn) / 8;
                        assert(slot_is_dtn(after, j2));
                    }
                }
                assert forall|k: int|
                    #![trigger after[k]]
                    0 <= k < orig.nodes@.len() && !(exists|i2: int| 0 <= i2 < i + 1 && #[trigger] touched_by_key(orig.nodes@, entries, mn, i2, k))
                        implies after[k] == orig.nodes@[k] by {
                    assert(!touched_by_key(orig.nodes@, entries, mn, i as int, k));
                    if exists|i2: int| 0 <= i2 < i && #[trigger] touched_by_key(orig.nodes@, entries, mn, i2, k) {
                        let i2 = choose|i2: int| 0 <= i2 < i && #[trigger] touched_by_key(orig.nodes@, entries, mn, i2, k);
                        assert(0 <= i2 < i + 1 && touched_by_key(orig.nodes@, entries, mn, i2, k));
                    }
                    assert(before[k] == orig.nodes@[k]);
                    if key_found(before, mn, addr, key_data) {
                        let q = (addr - mn) / 8;
                        assert(orig.nodes@[q] is Some <==> before[q] is Some);
                    }
                }
            }
            i = i + 1;
        }
    }
}

/// A key node holding the key of `key_data` stands at `addr`.
pub open spec fn key_node_at(nodes: Seq<Option<Node>>, min_addr: u64, addr: u64, key_data: KeyData) -> bool {
    let node = slot_at(nodes, min_addr, addr as int);
    &&& node is Some
    &&& node->Some_0.is_key_node()
    &&& key_node_holds(node->Some_0->ValueNode_0->KeyNode_0, key_data)
}

/// The slots after the special-structure pass gives the type `t` for the anchor `a`.
pub open spec fn apply_special(nodes: Seq<Option<Node>>, min_addr: u64, a: Option<u64>, t: DtnTypes) -> Seq<Option<Node>> {
    match a {
        Some(a) => match special_target(nodes, min_addr, a as int) {
            Some(j) => nodes.update(j, Some(with_type(slot_dtn(nodes, j), t))),
            None => nodes,
        },
        None => nodes,
    }
}

/// The anchor address used for a special structure at `a`: `a` itself, or the
/// allocation that holds it when value nodes are left out.
pub open spec fn special_anchor(g: GraphData, no_value_node: bool, a: u64) -> Option<u64> {
    if no_value_node {
        if g.heap_dump_data.min_addr <= a && (a - g.heap_dump_data.min_addr) / 8 < g.block_dtn@.len() {
            g.block_dtn@[(a - g.heap_dump_data.min_addr) / 8]
        } else {
            None
        }
    } else {
        Some(a)
    }
}

pub open spec fn tags_for(a: Option<u64>, tag: SpecialNodeAnnotation) -> Seq<SpecialNodeAnnotation> {
    match a {
        Some(_) => seq![tag],
        None => seq![],
    }
}

impl GraphAnnotate {
    /// Tags the SSH structure and the session state of the sidecar, and gives their
    /// allocations the types `SshStruct` and `SessionStateStruct`. When value nodes are
    /// left out, the allocation that holds each address stands for it; an address that
    /// no allocation holds is skipped.
    pub fn annotate_graph_with_special_node_annotation(&mut self)
        requires
            old(self).graph_data.wf(),
        ensures
            final(self).graph_data.wf(),
            same_frame(old(self).graph_data, final(self).graph_data),
            final(self).no_value_node == old(self).no_value_node,
            slots_same_shape(old(self).graph_data.nodes@, final(self).graph_data.nodes@),
            ({
                let g = old(self).graph_data;
                let mn = g.heap_dump_data.min_addr;
                let a1 = special_anchor(g, old(self).no_value_node, g.heap_dump_data.addr_ssh_struct);
                let a2 = special_anchor(g, old(self).no_value_node, g.heap_dump_data.addr_session_state);
                &&& final(self).graph_data.nodes@ == apply_special(
                    apply_special(g.nodes@, mn, a1, DtnTypes::SshStruct),
                    mn,
                    a2,
                    DtnTypes::SessionStateStruct,
                )
                &&& final(self).graph_data.special_node_to_annotation@ == g.special_node_to_annotation@
                    + tags_for(a1, SpecialNodeAnnotation::SshStructNodeAnnotation(a1->Some_0))
                    + tags_for(a2, SpecialNodeAnnotation::SessionStateNodeAnnotation(a2->Some_0))
            }),
            forall|k: int|
                #![trigger final(self).graph_data.nodes@[k]]
                0 <= k < old(self).graph_data.nodes@.len() && !slot_is_dtn(old(self).graph_data.nodes@, k)
                    ==> final(self).graph_data.nodes@[k] == old(self).graph_data.nodes@[k],
    {
        let ghost g = self.graph_data;
        let ssh = self.graph_data.heap_dump_data.addr_ssh_struct;
        let ssh_anchor = if self.no_value_node {
            self.graph_data.get_parent_dtn_addr(ssh)
        } else {
            Some(ssh)
        };
        match ssh_anchor {
            Some(a) => {
                self.graph_data.special_node_to_annotation.push(SpecialNodeAnnotation::SshStructNodeAnnotation(a));
                self.annotate_special_dtn(a, DtnTypes::SshStruct);
            },
            None => {},
        }
        assert(self.graph_data.special_node_to_annotation@ =~= g.special_node_to_annotation@
            + tags_for(ssh_anchor, SpecialNodeAnnotation::SshStructNodeAnnotation(ssh_anchor->Some_0)));
        let ghost g1 = self.graph_data;
        let session = self.graph_data.heap_dump_data.addr_session_state;
        let session_anchor = if self.no_value_node {
            self.graph_data.get_parent_dtn_addr(session)
        } else {
            Some(session)
        };
        assert(session_anchor == special_anchor(g, self.no_value_node, session));
        match session_anchor {
            Some(a) => {
                self.graph_data.special_node_to_annotation.push(SpecialNodeAnnotation::SessionStateNodeAnnotation(a));
                self.annotate_special_dtn(a, DtnTypes::SessionStateStruct);
            },
            None => {},
        }
        assert(self.graph_data.special_node_to_annotation@ =~= g1.special_node_to_annotation@
            + tags_for(session_anchor, SpecialNodeAnnotation::SessionStateNodeAnnotation(session_anchor->Some_0)));
        proof {
            lemma_same_shape_trans(g.nodes@, g1.nodes@, self.graph_data.nodes@);
        }
    }

    /// Annotates the keys first, then the special structures.
    pub fn annotate(&mut self)
        requires
            old(self).graph_data.wf(),
            keys_unique(old(self).graph_data.heap_dump_data.addr_to_key_data@),
        ensures
            final(self).graph_data.wf(),
            same_frame(old(self).graph_data, final(self).graph_data),
            final(self).no_value_node == old(self).no_value_node,
            slots_same_shape(old(self).graph_data.nodes@, final(self).graph_data.nodes@),
            annotation_of(
                old(self).graph_data,
                old(self).no_value_node,
                old(self).graph_data.nodes@,
                old(self).graph_data.special_node_to_annotation@,
                final(self).graph_data,
            ),
    {
        let ghost g = self.graph_data;
        let ghost nvn = self.no_value_node;
        self.annotate_graph_with_key_data();
        let ghost g1 = self.graph_data;
        self.annotate_graph_with_special_node_annotation();
        proof {
            lemma_same_shape_trans(g.nodes@, g1.nodes@, self.graph_data.nodes@);
            lemma_annotation(g, g1, self.graph_data, nvn);
        }
    }
}

/// A node as the builder made it: an allocation of type `Unknown`, a key node back
/// to the value node of its first block.
pub open spec fn unannotated_node(n: Node) -> Node {
    match n {
        Node::DataStructureNode(d) => with_type(d, DtnTypes::Unknown),
        Node::ValueNode(ValueNode::KeyNode(k)) => Node::ValueNode(
            ValueNode::BaseValueNode(BaseValueNode { addr: k.addr, value: k.value, dtn_addr: k.dtn_addr }),
        ),
        _ => n,
    }
}

pub open spec fn unannotated(nodes: Seq<Option<Node>>) -> Seq<Option<Node>> {
    Seq::new(nodes.len(), |k: int| match nodes[k] {
        Some(n) => Some(unannotated_node(n)),
        None => None,
    })
}

proof fn lemma_unannotated(b: Seq<Option<Node>>, f: Seq<Option<Node>>)
    requires
        slots_same_shape(b, f),
        forall|k: int| 0 <= k < b.len() && b[k] is Some ==> !(#[trigger] b[k])->Some_0.is_key_node(),
        forall|k: int| #![trigger slot_dtn(b, k)] slot_is_dtn(b, k) ==> slot_dtn(b, k).dtn_type == DtnTypes::Unknown,
    ensures
        unannotated(f) == b,
{
    assert forall|k: int| 0 <= k < b.len() implies #[trigger] unannotated(f)[k] == b[k] by {
        assert(f[k] is Some <==> b[k] is Some);
        if b[k] is Some {
            assert(same_shape(b[k]->Some_0, f[k]->Some_0));
            if slot_is_dtn(b, k) {
                assert(slot_dtn(b, k).dtn_type == DtnTypes::Unknown);
            }
        }
    }
    assert(unannotated(f) =~= b);
}

/// The slot that the special-structure pass upgrades for an anchor, if any.
pub open spec fn anchor_target(nodes: Seq<Option<Node>>, min_addr: u64, a: Option<u64>) -> Option<int> {
    match a {
        Some(a) => special_target(nodes, min_addr, a as int),
        None => None,
    }
}

/// The type that annotation gives to the allocation in slot `j` of `before`: the
/// session state's or the SSH structure's (the session state's wins), else
/// `Keystruct` when a found key lies in it, else its type before.
pub open spec fn annotated_type(g: GraphData, no_value_node: bool, before: Seq<Option<Node>>, j: int) -> DtnTypes {
    let mn = g.heap_dump_data.min_addr;
    let a1 = special_anchor(g, no_value_node, g.heap_dump_data.addr_ssh_struct);
    let a2 = special_anchor(g, no_value_node, g.heap_dump_data.addr_session_state);
    if anchor_target(before, mn, a2) == Some(j) {
        DtnTypes::SessionStateStruct
    } else if anchor_target(before, mn, a1) == Some(j) {
        DtnTypes::SshStruct
    } else if exists|i: int| #[trigger] touched_by_key(before, g.heap_dump_data.addr_to_key_data@, mn, i, j) {
        DtnTypes::Keystruct
    } else {
        slot_dtn(before, j).dtn_type
    }
}

/// `after` is the annotation of the slots `before` of a graph whose sidecar and
/// block map are those of `g`: each found key's first block holds its key node; each
/// allocation has its `annotated_type`; every other slot is unchanged; the two special
/// structures are tagged.
pub open spec fn annotation_of(
    g: GraphData,
    no_value_node: bool,
    before: Seq<Option<Node>>,
    tags_before: Seq<SpecialNodeAnnotation>,
    after: GraphData,
) -> bool {
    let mn = g.heap_dump_data.min_addr;
    let entries = g.heap_dump_data.addr_to_key_data@;
    let a1 = special_anchor(g, no_value_node, g.heap_dump_data.addr_ssh_struct);
    let a2 = special_anchor(g, no_value_node, g.heap_dump_data.addr_session_state);
    &&& after.nodes@.len() == before.len()
    &&& forall|i: int|
        #![trigger entries[i]]
        0 <= i < entries.len() && key_found(before, mn, entries[i].0, entries[i].1) ==> key_node_at(
            after.nodes@,
            mn,
            entries[i].0,
            entries[i].1,
        )
    &&& forall|j: int|
        #![trigger slot_dtn(before, j)]
        slot_is_dtn(before, j) ==> after.nodes@[j] == Some(with_type(slot_dtn(before, j), annotated_type(g, no_value_node, before, j)))
    &&& forall|k: int|
        #![trigger after.nodes@[k]]
        0 <= k < before.len() && !slot_is_dtn(before, k) && !(exists|i: int| #[trigger] touched_by_key(before, entries, mn, i, k))
            ==> after.nodes@[k] == before[k]
    &&& after.special_node_to_annotation@ == tags_before
        + tags_for(a1, SpecialNodeAnnotation::SshStructNodeAnnotation(a1->Some_0))
        + tags_for(a2, SpecialNodeAnnotation::SessionStateNodeAnnotation(a2->Some_0))
}

proof fn lemma_same_shape_target(a: Seq<Option<Node>>, b: Seq<Option<Node>>, min_addr: u64, x: Option<u64>)
    requires
        slots_same_shape(a, b),
    ensures
        anchor_target(a, min_addr, x) == anchor_target(b, min_addr, x),
{
    if x is Some {
        let p = x->Some_0 as int;
        if slot_at(a, min_addr, p) is Some || slot_at(b, min_addr, p) is Some {
            let k = (p - min_addr) / 8;
            assert(b[k] is Some <==> a[k] is Some);
        }
    }
}

proof fn lemma_target_is_dtn(g: GraphData, x: Option<u64>)
    requires
        g.wf(),
    ensures
        anchor_target(g.nodes@, g.heap_dump_data.min_addr, x) matches Some(j) ==> slot_is_dtn(g.nodes@, j),
{
    let mn = g.heap_dump_data.min_addr;
    if x is Some {
        let p = x->Some_0 as int;
        if slot_at(g.nodes@, mn, p) is Some {
            lemma_wf_slot(g, (p - mn) / 8);
        }
    }
}

proof fn lemma_retype_same_shape(n: Seq<Option<Node>>, j: int, t: DtnTypes)
    requires
        slot_is_dtn(n, j),
    ensures
        slots_same_shape(n, n.update(j, Some(with_type(slot_dtn(n, j), t)))),
{
    let m = n.update(j, Some(with_type(slot_dtn(n, j), t)));
    assert forall|k: int| #![trigger m[k]] 0 <= k < n.len() implies (n[k] is Some <==> m[k] is Some) && (n[k] is Some ==> same_shape(n[k]->Some_0, m[k]->Some_0)) by {
        if k == j {
            assert(n[k] == Some(Node::DataStructureNode(slot_dtn(n, j))));
        }
    }
}

proof fn lemma_annotation(g: GraphData, g1: GraphData, g2: GraphData, nvn: bool)
    requires
        g.wf(),
        g1.wf(),
        same_frame(g, g1),
        same_frame(g1, g2),
        g1.special_node_to_annotation@ == g.special_node_to_annotation@,
        slots_same_shape(g.nodes@, g1.nodes@),
        forall|i: int|
            #![trigger g.heap_dump_data.addr_to_key_data@[i]]
            0 <= i < g.heap_dump_data.addr_to_key_data@.len() && key_found(
                g.nodes@,
                g.heap_dump_data.min_addr,
                g.heap_dump_data.addr_to_key_data@[i].0,
                g.heap_dump_data.addr_to_key_data@[i].1,
            ) ==> key_annotated(
                g1.nodes@,
                g.heap_dump_data.min_addr,
                g.heap_dump_data.addr_to_key_data@[i].0,
                g.heap_dump_data.addr_to_key_data@[i].1,
            ),
        forall|k: int|
            #![trigger g1.nodes@[k]]
            0 <= k < g.nodes@.len() && !(exists|i: int| #[trigger] touched_by_key(
                g.nodes@,
                g.heap_dump_data.addr_to_key_data@,
                g.heap_dump_data.min_addr,
                i,
                k,
            )) ==> g1.nodes@[k] == g.nodes@[k],
        ({
            let mn = g1.heap_dump_data.min_addr;
            let a1 = special_anchor(g1, nvn, g1.heap_dump_data.addr_ssh_struct);
            let a2 = special_anchor(g1, nvn, g1.heap_dump_data.addr_session_state);
            &&& g2.nodes@ == apply_special(apply_special(g1.nodes@, mn, a1, DtnTypes::SshStruct), mn, a2, DtnTypes::SessionStateStruct)
            &&& g2.special_node_to_annotation@ == g1.special_node_to_annotation@
                + tags_for(a1, SpecialNodeAnnotation::SshStructNodeAnnotation(a1->Some_0))
                + tags_for(a2, SpecialNodeAnnotation::SessionStateNodeAnnotation(a2->Some_0))
            &&& forall|k: int|
                #![trigger g2.nodes@[k]]
                0 <= k < g1.nodes@.len() && !slot_is_dtn(g1.nodes@, k) ==> g2.nodes@[k] == g1.nodes@[k]
        }),
    ensures
        annotation_of(g, nvn, g.nodes@, g.special_node_to_annotation@, g2),
{
    let mn = g.heap_dump_data.min_addr;
    let entries = g.heap_dump_data.addr_to_key_data@;
    let b = g.nodes@;
    let n1 = g1.nodes@;
    let a1 = special_anchor(g, nvn, g.heap_dump_data.addr_ssh_struct);
    let a2 = special_anchor(g, nvn, g.heap_dump_data.addr_session_state);
    assert(a1 == special_anchor(g1, nvn, g1.heap_dump_data.addr_ssh_struct));
    assert(a2 == special_anchor(g1, nvn, g1.heap_dump_data.addr_session_state));
    let mid = apply_special(n1, mn, a1, DtnTypes::SshStruct);
    lemma_same_shape_target(b, n1, mn, a1);
    lemma_target_is_dtn(g, a1);
    lemma_target_is_dtn(g, a2);
    assert forall|j: int| slot_is_dtn(b, j) <==> slot_is_dtn(n1, j) by {
        if 0 <= j < b.len() {
            assert(b[j] is Some <==> n1[j] is Some);
        }
    }
    if anchor_target(n1, mn, a1) is Some {
        lemma_retype_same_shape(n1, anchor_target(n1, mn, a1)->Some_0, DtnTypes::SshStruct);
        assert(mid == n1.update(anchor_target(n1, mn, a1)->Some_0, Some(with_type(slot_dtn(n1, anchor_target(n1, mn, a1)->Some_0), DtnTypes::SshStruct))));
    } else {
        assert(mid == n1);
        assert forall|k: int| #![trigger mid[k]] 0 <= k < n1.len() implies (n1[k] is Some <==> mid[k] is Some) && (n1[k] is Some ==> same_shape(n1[k]->Some_0, mid[k]->Some_0)) by {}
    }
    lemma_same_shape_trans(b, n1, mid);
    lemma_same_shape_target(b, mid, mn, a2);
    lemma_same_shape_target(b, n1, mn, a2);
    assert forall|i: int|
        #![trigger entries[i]]
        0 <= i < entries.len() && key_found(b, mn, entries[i].0, entries[i].1) implies key_node_at(g2.nodes@, mn, entries[i].0, entries[i].1) by {
        assert(key_annotated(n1, mn, entries[i].0, entries[i].1));
        let q = (entries[i].0 - mn) / 8;
        assert(!slot_is_dtn(n1, q));
        assert(g2.nodes@[q] == n1[q]);
    }
    assert forall|j: int|
        #![trigger slot_dtn(b, j)]
        slot_is_dtn(b, j) implies g2.nodes@[j] == Some(with_type(slot_dtn(b, j), annotated_type(g, nvn, b, j))) by {
        assert(b[j] is Some && n1[j] is Some);
        assert(same_shape(b[j]->Some_0, n1[j]->Some_0));
        let d1 = if exists|i: int| #[trigger] touched_by_key(b, entries, mn, i, j) {
            let i = choose|i: int| #[trigger] touched_by_key(b, entries, mn, i, j);
            let q = (entries[i].0 - mn) / 8;
            assert(key_annotated(n1, mn, entries[i].0, entries[i].1));
            assert(n1[q] is Some && b[q] is Some);
            assert(same_shape(b[q]->Some_0, n1[q]->Some_0));
            assert(j != q);
            assert(slot_dtn(n1, j).dtn_type == DtnTypes::Keystruct);
            DtnTypes::Keystruct
        } else {
            assert(n1[j] == b[j]);
            slot_dtn(b, j).dtn_type
        };
        assert(n1[j] == Some(with_type(slot_dtn(b, j), d1)));
        if anchor_target(b, mn, a1) == Some(j) {
            assert(mid[j] == Some(with_type(slot_dtn(b, j), DtnTypes::SshStruct)));
        } else {
            assert(mid[j] == n1[j]);
        }
    }
    assert forall|k: int|
        #![trigger g2.nodes@[k]]
        0 <= k < b.len() && !slot_is_dtn(b, k) && !(exists|i: int| #[trigger] touched_by_key(b, entries, mn, i, k))
            implies g2.nodes@[k] == b[k] by {
        assert(n1[k] == b[k]);
    }
}

} // verus!
