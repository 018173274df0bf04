use vstd::prelude::*;

use crate::graph_data::{lemma_wf_block, lemma_wf_slot, slot_dtn, slot_is_dtn, GraphData};
use crate::graph_structs::{DtnTypes, Node};

verus! {

/// Whether slot `k` is a pointer node whose target lies in another allocation of the
/// graph: an edge between two allocations. Self-loops are not edges.
pub open spec fn is_edge(g: GraphData, k: int) -> bool {
    let n = g.nodes@.len();
    let mn = g.heap_dump_data.min_addr;
    &&& 0 <= k < n
    &&& g.nodes@[k] is Some
    &&& g.nodes@[k]->Some_0 is PointerNode
    &&& g.block_dtn@[k] is Some
    &&& ({
        let p = g.nodes@[k]->Some_0.spec_points_to()->Some_0;
        let t = (p - mn) / 8;
        &&& mn <= p
        &&& t < n
        &&& g.block_dtn@[t] is Some
        &&& g.block_dtn@[t] != g.block_dtn@[k]
    })
}

/// Slot of the allocation an edge leaves.
pub open spec fn edge_src(g: GraphData, k: int) -> int {
    (g.block_dtn@[k]->Some_0 - g.heap_dump_data.min_addr) / 8
}

/// Slot of the allocation an edge reaches.
pub open spec fn edge_dst(g: GraphData, k: int) -> int {
    let mn = g.heap_dump_data.min_addr;
    let t = (g.nodes@[k]->Some_0.spec_points_to()->Some_0 - mn) / 8;
    (g.block_dtn@[t]->Some_0 - mn) / 8
}

/// Whether edge `k` leads from an allocation of `prev` to the allocation in slot `j`,
/// followed forward (`forward`) or backward.
pub open spec fn edge_step(g: GraphData, prev: Set<int>, forward: bool, k: int, j: int) -> bool {
    is_edge(g, k) && if forward {
        prev.contains(edge_src(g, k)) && edge_dst(g, k) == j
    } else {
        prev.contains(edge_dst(g, k)) && edge_src(g, k) == j
    }
}

/// Allocations reached from those of `prev` by one edge.
pub open spec fn next_level(g: GraphData, prev: Set<int>, forward: bool) -> Set<int> {
    Set::new(|j: int| exists|k: int| #[trigger] edge_step(g, prev, forward, k, j))
}

/// Allocations reached from the allocation in slot `start` by exactly `i` edges.
pub open spec fn level(g: GraphData, start: int, i: nat, forward: bool) -> Set<int>
    decreases i,
{
    if i == 0 {
        set![start]
    } else {
        next_level(g, level(g, start, (i - 1) as nat, forward), forward)
    }
}

/// The slots marked in `marks`.
pub open spec fn marks_set(marks: Seq<bool>) -> Set<int> {
    Set::new(|j: int| 0 <= j < marks.len() && marks[j])
}

/// Number of edges among slots `0..upto` that leave (forward) or reach (backward) an
/// allocation of `prev`.
pub open spec fn edges_from(g: GraphData, prev: Set<int>, forward: bool, upto: int) -> nat
    decreases upto,
{
    if upto <= 0 {
        0
    } else {
        edges_from(g, prev, forward, upto - 1) + if is_edge(g, upto - 1) && prev.contains(
            if forward {
                edge_src(g, upto - 1)
            } else {
                edge_dst(g, upto - 1)
            },
        ) {
            1nat
        } else {
            0nat
        }
    }
}

/// Number of slots among `0..upto` in `s`.
pub open spec fn count_in(s: Set<int>, upto: int) -> nat
    decreases upto,
{
    if upto <= 0 {
        0
    } else {
        count_in(s, upto - 1) + if s.contains(upto - 1) {
            1nat
        } else {
            0nat
        }
    }
}

/// Pairs of counts for hops `1..=depth`: allocations reached, and pointers followed
/// on the last hop.
pub open spec fn hop_features(g: GraphData, start: int, depth: nat, forward: bool) -> Seq<u64> {
    Seq::new(
        2 * depth,
        |x: int|
            if x % 2 == 0 {
                count_in(level(g, start, (x / 2 + 1) as nat, forward), g.nodes@.len() as int) as u64
            } else {
                edges_from(g, level(g, start, (x / 2) as nat, forward), forward, g.nodes@.len() as int) as u64
            },
    )
}

pub open spec fn dtn_type_code(t: DtnTypes) -> u64 {
    match t {
        DtnTypes::Unknown => 0,
        DtnTypes::SshStruct => 1,
        DtnTypes::SessionStateStruct => 2,
        DtnTypes::Keystruct => 3,
    }
}

/// Offset added to the label of a block that is itself the first block of a key.
pub const KEY_NODE_LABEL_OFFSET: u64 = 4;

/// Label of payload block `k`: the type of its allocation, plus an offset when the
/// block is a key node.
pub open spec fn spec_label(g: GraphData, k: int) -> u64 {
    let j = edge_src(g, k);
    (dtn_type_code(slot_dtn(g.nodes@, j).dtn_type) + if g.nodes@[k] is Some && g.nodes@[k]->Some_0.is_key_node() {
        KEY_NODE_LABEL_OFFSET
    } else {
        0
    }) as u64
}

/// Whether slot `k` is a payload block of an allocation.
pub open spec fn is_payload(g: GraphData, k: int) -> bool {
    0 <= k < g.nodes@.len() && g.block_dtn@[k] is Some && !slot_is_dtn(g.nodes@, k)
}

/// The feature row of payload block `k`.
pub open spec fn spec_row(g: GraphData, k: int, depth: nat) -> Seq<u64> {
    let j = edge_src(g, k);
    seq![
        (g.heap_dump_data.min_addr + 8 * k) as u64,
        8u64,
        if g.nodes@[k] is Some && g.nodes@[k]->Some_0 is PointerNode { 1u64 } else { 0u64 },
    ] + hop_features(g, j, depth, false) + hop_features(g, j, depth, true) + seq![spec_label(g, k)]
}

/// Whether every ancestor and descendant count of a row is zero.
pub open spec fn trivial_row(row: Seq<u64>) -> bool {
    forall|x: int| 3 <= x < row.len() - 1 ==> row[x] == 0
}

/// Rows of the payload blocks among slots `0..upto`, by ascending address.
pub open spec fn spec_rows(g: GraphData, depth: nat, remove_trivial_zero_samples: bool, upto: int) -> Seq<Seq<u64>>
    decreases upto,
{
    if upto <= 0 {
        seq![]
    } else {
        let k = upto - 1;
        let prev = spec_rows(g, depth, remove_trivial_zero_samples, k);
        if is_payload(g, k) && !(remove_trivial_zero_samples && trivial_row(spec_row(g, k, depth))) {
            prev.push(spec_row(g, k, depth))
        } else {
            prev
        }
    }
}

/// The two allocation slots of edge `k`, if slot `k` is an edge.
fn edge_at(g: &GraphData, k: usize) -> (r: Option<(usize, usize)>)
    requires
        g.wf(),
        k < g.nodes@.len(),
    ensures
        r is Some <==> is_edge(*g, k as int),
        r matches Some((s, d)) ==> s == edge_src(*g, k as int) && d == edge_dst(*g, k as int)
            && s < g.nodes@.len() && d < g.nodes@.len(),
{
    proof {
        lemma_wf_slot(*g, k as int);
    }
    let mn = g.heap_dump_data.min_addr;
    let n = g.nodes.len();
    match &g.nodes[k] {
        Some(Node::PointerNode(_)) => {},
        _ => {
            return None;
        },
    }
    let own = match g.block_dtn[k] {
        Some(d) => d,
        None => {
            return None;
        },
    };
    let p = g.nodes[k].as_ref().unwrap().points_to().unwrap();
    if p < mn || (p - mn) / 8 >= n as u64 {
        return None;
    }
    let t = ((p - mn) / 8) as usize;
    let target = match g.block_dtn[t] {
        Some(d) => d,
        None => {
            return None;
        },
    };
    if target == own {
        return None;
    }
    proof {
        lemma_wf_block(*g, k as int);
        lemma_wf_block(*g, t as int);
    }
    Some((((own - mn) / 8) as usize, ((target - mn) / 8) as usize))
}

/// Moves one hop from the allocations marked in `prev`: marks the allocations reached
/// and counts the edges followed.
fn step(g: &GraphData, prev: &Vec<bool>, forward: bool) -> (r: (Vec<bool>, u64))
    requires
        g.wf(),
        prev@.len() == g.nodes@.len(),
    ensures
        r.0@.len() == g.nodes@.len(),
        marks_set(r.0@) == next_level(*g, marks_set(prev@), forward),
        r.1 == edges_from(*g, marks_set(prev@), forward, g.nodes@.len() as int),
{
    let n = g.nodes.len();
    let ghost ps = marks_set(prev@);
    let mut next: Vec<bool> = Vec::new();
    let mut i: usize = 0;
    while i < n
        invariant
            0 <= i <= n,
            n == g.nodes@.len(),
            next@.len() == i,
            forall|j: int| 0 <= j < i ==> !next@[j],
        decreases n - i,
    {
        next.push(false);
        i = i + 1;
    }
    let mut ptrs: u64 = 0;
    let mut k: usize = 0;
    while k < n
        invariant
            0 <= k <= n,
            n == g.nodes@.len(),
            g.wf(),
            prev@.len() == n,
            ps == marks_set(prev@),
            next@.len() == n,
            ptrs == edges_from(*g, ps, forward, k as int),
            ptrs <= k,
            forall|j: int| #![trigger next@[j]] 0 <= j < n ==> (next@[j] <==> exists|k2: int| 0 <= k2 < k && #[trigger] edge_step(*g, ps, forward, k2, j)),
        decreases n - k,
    {
        let ghost before = next@;
        match edge_at(g, k) {
            Some((s, d)) => {
                if forward {
                    if prev[s] {
                        next.set(d, true);
                        ptrs = ptrs + 1;
                    }
                } else {
                    if prev[d] {
                        next.set(s, true);
                        ptrs = ptrs + 1;
                    }
                }
            },
            None => {},
        }
        proof {
            assert forall|j: int| #![trigger next@[j]] 0 <= j < n implies (next@[j] <==> exists|k2: int| 0 <= k2 < k + 1 && #[trigger] edge_step(*g, ps, forward, k2, j)) by {
                if next@[j] && !before[j] {
                    assert(edge_step(*g, ps, forward, k as int, j));
                }
                if exists|k2: int| 0 <= k2 < k + 1 && #[trigger] edge_step(*g, ps, forward, k2, j) {
                    let k2 = choose|k2: int| 0 <= k2 < k + 1 && #[trigger] edge_step(*g, ps, forward, k2, j);
                    if k2 < k {
                        assert(before[j]);
                    }
                }
            }
        }
        k = k + 1;
    }
    proof {
        assert forall|j: int| marks_set(next@).contains(j) <==> next_level(*g, ps, forward).contains(j) by {
            if next_level(*g, ps, forward).contains(j) {
                let k2 = choose|k2: int| #[trigger] edge_step(*g, ps, forward, k2, j);
                lemma_wf_slot(*g, 0);
                lemma_wf_block(*g, k2);
                let mn = g.heap_dump_data.min_addr;
                let t = (g.nodes@[k2]->Some_0.spec_points_to()->Some_0 - mn) / 8;
                lemma_wf_block(*g, t);
                assert(0 <= j < n);
                assert(next@[j]);
            }
        }
        assert(marks_set(next@) =~= next_level(*g, ps, forward));
    }
    (next, ptrs)
}

/// Number of marked slots.
fn count_marked(marks: &Vec<bool>) -> (r: u64)
    ensures
        r == count_in(marks_set(marks@), marks@.len() as int),
{
    let mut c: u64 = 0;
    let mut i: usize = 0;
    while i < marks.len()
        invariant
            0 <= i <= marks@.len(),
            c <= i,
            c == count_in(marks_set(marks@), i as int),
        decreases marks@.len() - i,
    {
        if marks[i] {
            c = c + 1;
        }
        i = i + 1;
    }
    c
}

/// Ancestor (`forward == false`) or descendant features of the allocation in slot
/// `start`, for hops `1..=depth`.
fn hop_features_of(g: &GraphData, start: usize, depth: usize, forward: bool) -> (r: Vec<u64>)
    requires
        g.wf(),
        start < g.nodes@.len(),
    ensures
        r@ == hop_features(*g, start as int, depth as nat, forward),
{
    let n = g.nodes.len();
    let mut marks: Vec<bool> = Vec::new();
    let mut i: usize = 0;
    while i < n
        invariant
            0 <= i <= n,
            n == g.nodes@.len(),
            start < n,
            marks@.len() == i,
            forall|j: int| 0 <= j < i ==> marks@[j] == (j == start),
        decreases n - i,
    {
        marks.push(i == start);
        i = i + 1;
    }
    assert(marks_set(marks@) =~= set![start as int]);
    let ghost hf = hop_features(*g, start as int, depth as nat, forward);
    let mut r: Vec<u64> = Vec::new();
    let mut h: usize = 0;
    while h < depth
        invariant
            0 <= h <= depth,
            g.wf(),
            n == g.nodes@.len(),
            marks@.len() == n,
            marks_set(marks@) == level(*g, start as int, h as nat, forward),
            hf == hop_features(*g, start as int, depth as nat, forward),
            r@.len() == 2 * h,
            forall|x: int| 0 <= x < 2 * h ==> r@[x] == hf[x],
        decreases depth - h,
    {
        let (next, ptrs) = step(g, &marks, forward);
        let chns = count_marked(&next);
        proof {
            assert(level(*g, start as int, (h + 1) as nat, forward) == next_level(*g, level(*g, start as int, h as nat, forward), forward));
            assert((2 * h) / 2 + 1 == h + 1);
            assert((2 * h + 1) / 2 == h);
        }
        r.push(chns);
        r.push(ptrs);
        marks = next;
        h = h + 1;
    }
    assert(r@ =~= hf);
    r
}

fn append_all(v: &mut Vec<u64>, w: &Vec<u64>)
    ensures
        final(v)@ == old(v)@ + w@,
{
    let ghost start = v@;
    let mut i: usize = 0;
    while i < w.len()
        invariant
            0 <= i <= w@.len(),
            v@ == start + w@.subrange(0, i as int),
        decreases w@.len() - i,
    {
        v.push(w[i]);
        i = i + 1;
        assert(v@ =~= start + w@.subrange(0, i as int));
    }
    assert(w@.subrange(0, w@.len() as int) =~= w@);
}

fn is_trivial(row: &Vec<u64>) -> (r: bool)
    requires
        row@.len() >= 4,
    ensures
        r == trivial_row(row@),
{
    let mut x: usize = 3;
    while x < row.len() - 1
        invariant
            3 <= x <= row@.len() - 1,
            row@.len() >= 4,
            forall|y: int| 3 <= y < x ==> row@[y] == 0,
        decreases row@.len() - x,
    {
        if row[x] != 0 {
            return false;
        }
        x = x + 1;
    }
    true
}

fn dtn_type_code_of(t: DtnTypes) -> (r: u64)
    ensures
        r == dtn_type_code(t),
{
    match t {
        DtnTypes::Unknown => 0,
        DtnTypes::SshStruct => 1,
        DtnTypes::SessionStateStruct => 2,
        DtnTypes::Keystruct => 3,
    }
}

/// One feature row per payload block of the graph, by ascending address: the block's
/// address, the block size, whether it is a pointer, the ancestor and then the
/// descendant counts of its allocation for hops `1..=depth`, and its label. With
/// `remove_trivial_zero_samples`, rows whose counts are all zero are left out.
pub fn generate_semantic_samples_for_all_chunks(
    g: &GraphData,
    depth: usize,
    remove_trivial_zero_samples: bool,
) -> (r: Vec<Vec<u64>>)
    requires
        g.wf(),
    ensures
        r@.len() == spec_rows(*g, depth as nat, remove_trivial_zero_samples, g.nodes@.len() as int).len(),
        forall|x: int|
            #![trigger r@[x]]
            0 <= x < r@.len() ==> r@[x]@ == spec_rows(*g, depth as nat, remove_trivial_zero_samples, g.nodes@.len() as int)[x],
{
    proof {
        lemma_wf_slot(*g, 0);
    }
    let n = g.nodes.len();
    let mn = g.heap_dump_data.min_addr;
    let mut rows: Vec<Vec<u64>> = Vec::new();
    let mut cache_j: usize = 0;
    let mut cache_valid = false;
    let mut cache_anc: Vec<u64> = Vec::new();
    let mut cache_chi: Vec<u64> = Vec::new();
    let mut k: usize = 0;
    while k < n
        invariant
            0 <= k <= n,
            n == g.nodes@.len(),
            n == g.block_dtn@.len(),
            mn == g.heap_dump_data.min_addr,
            mn + 8 * n <= g.heap_dump_data.max_addr + 1,
            g.wf(),
            cache_valid ==> cache_anc@ == hop_features(*g, cache_j as int, depth as nat, false)
                && cache_chi@ == hop_features(*g, cache_j as int, depth as nat, true),
            rows@.len() == spec_rows(*g, depth as nat, remove_trivial_zero_samples, k as int).len(),
            forall|x: int|
                #![trigger rows@[x]]
                0 <= x < rows@.len() ==> rows@[x]@ == spec_rows(*g, depth as nat, remove_trivial_zero_samples, k as int)[x],
        decreases n - k,
    {
        let ghost before = rows@;
        let payload = match g.block_dtn[k] {
            Some(d) => match &g.nodes[k] {
                Some(Node::DataStructureNode(_)) => None,
                _ => Some(d),
            },
            None => None,
        };
        match payload {
            Some(d) => {
                proof {
                    lemma_wf_block(*g, k as int);
                }
                let j = ((d - mn) / 8) as usize;
                if !cache_valid || cache_j != j {
                    cache_anc = hop_features_of(g, j, depth, false);
                    cache_chi = hop_features_of(g, j, depth, true);
                    cache_j = j;
                    cache_valid = true;
                }
                let addr = crate::utils::index_to_addr(k, mn, 8);
                let is_ptr: u64 = match &g.nodes[k] {
                    Some(Node::PointerNode(_)) => 1,
                    _ => 0,
                };
                let type_code = match &g.nodes[j] {
                    Some(Node::DataStructureNode(dtn)) => dtn_type_code_of(dtn.dtn_type),
                    _ => 0,
                };
                let key_offset = match &g.nodes[k] {
                    Some(node) => if node.is_key() {
                        KEY_NODE_LABEL_OFFSET
                    } else {
                        0
                    },
                    None => 0,
                };
                let mut row: Vec<u64> = Vec::new();
                row.push(addr);
                row.push(8);
                row.push(is_ptr);
                append_all(&mut row, &cache_anc);
                append_all(&mut row, &cache_chi);
                row.push(type_code + key_offset);
                proof {
                    assert(row@ =~= spec_row(*g, k as int, depth as nat));
                }
                if remove_trivial_zero_samples && is_trivial(&row) {
                    assert(spec_rows(*g, depth as nat, remove_trivial_zero_samples, k + 1) == spec_rows(*g, depth as nat, remove_trivial_zero_samples, k as int));
                } else {
                    rows.push(row);
                    proof {
                        let sr = spec_rows(*g, depth as nat, remove_trivial_zero_samples, k as int);
                        assert(spec_rows(*g, depth as nat, remove_trivial_zero_samples, k + 1) == sr.push(spec_row(*g, k as int, depth as nat)));
                        assert forall|x: int| #![trigger rows@[x]] 0 <= x < rows@.len() implies rows@[x]@ == sr.push(spec_row(*g, k as int, depth as nat))[x] by {
                            if x < before.len() {
                                assert(rows@[x] == before[x]);
                            }
                        }
                    }
                }
            },
            None => {
                assert(!is_payload(*g, k as int));
                assert(spec_rows(*g, depth as nat, remove_trivial_zero_samples, k + 1) == spec_rows(*g, depth as nat, remove_trivial_zero_samples, k as int));
            },
        }
        k = k + 1;
    }
    rows
}

} // verus!
