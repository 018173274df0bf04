use mem_to_graph::chunk_runner::{collect_shard, csv_header, is_recoverable, shards_to_process};
use mem_to_graph::graph_annotate::GraphAnnotate;
use mem_to_graph::graph_embedding::generate_semantic_samples_for_all_chunks;
use mem_to_graph::graph_structs::{DtnTypes, Node, SpecialNodeAnnotation, ValueNode};
use mem_to_graph::json::JsonValue;
use mem_to_graph::utils::ErrorKind;

const BASE: u64 = 0x1000;

fn s(text: &str) -> JsonValue {
    JsonValue::Str(text.to_string())
}

fn obj(members: Vec<(&str, JsonValue)>) -> JsonValue {
    JsonValue::Object(members.into_iter().map(|(k, v)| (k.to_string(), v)).collect())
}

fn hex(bytes: &[u8]) -> String {
    bytes.iter().map(|b| format!("{:02x}", b)).collect()
}

/// A dump of 0x100 bytes at 0x1000 whose first blocks are `blocks`, read little-endian.
fn dump_of(blocks: &[u64]) -> Vec<u8> {
    let mut dump = Vec::new();
    for b in blocks {
        dump.extend_from_slice(&b.to_le_bytes());
    }
    dump.resize(0x100, 0);
    dump
}

fn dump_of_bytes(blocks: &[[u8; 8]]) -> Vec<u8> {
    let mut dump = Vec::new();
    for b in blocks {
        dump.extend_from_slice(b);
    }
    dump.resize(0x100, 0);
    dump
}

fn sidecar(ssh: u64, session: u64, keys: Vec<(u64, &str, usize, &[u8])>) -> JsonValue {
    let key_members = keys
        .into_iter()
        .map(|(addr, name, len, key)| {
            (
                format!("{:x}", addr),
                obj(vec![("name", s(name)), ("len", JsonValue::UInt(len as u64)), ("key", s(&hex(key)))]),
            )
        })
        .collect();
    obj(vec![
        ("HEAP_START", s("1000")),
        ("pointer_byte_size", JsonValue::UInt(8)),
        ("addr_ssh_struct", s(&format!("{:x}", ssh))),
        ("addr_session_state", JsonValue::UInt(session)),
        ("keys", JsonValue::Object(key_members)),
    ])
}

fn build(dump: &Vec<u8>, json: &JsonValue) -> GraphAnnotate {
    GraphAnnotate::new(dump, json, 8, true, false).unwrap()
}

fn rows(ga: &GraphAnnotate) -> Vec<Vec<u64>> {
    generate_semantic_samples_for_all_chunks(&ga.graph_data, 1, false)
}

const KEY_F: [u8; 9] = [1, 2, 3, 4, 5, 6, 7, 8, 9];

fn key_dump() -> Vec<u8> {
    // allocation at 0x1000 of 0x20 bytes holding the key, then one at 0x1020 of 0x10
    dump_of_bytes(&[
        [0x21, 0, 0, 0, 0, 0, 0, 0],
        [1, 2, 3, 4, 5, 6, 7, 8],
        [9, 0xEE, 0xEE, 0xEE, 0xEE, 0xEE, 0xEE, 0xEE],
        [0xCC; 8],
        [0x11, 0, 0, 0, 0, 0, 0, 0],
        [0xDD; 8],
    ])
}

#[test]
fn test_annotation() {
    let dump = key_dump();
    let json = sidecar(0x1008, 0x1028, vec![(0x1008, "KEY_F", 9, &KEY_F)]);
    let graph_annotate = build(&dump, &json);
    let specials = &graph_annotate.graph_data.special_node_to_annotation;

    let ssh_struct_annotation = specials.iter().find(|a| match a {
        SpecialNodeAnnotation::SshStructNodeAnnotation(x) => *x == 0x1008,
        _ => false,
    });
    assert!(ssh_struct_annotation.is_some());
    assert!(matches!(ssh_struct_annotation.unwrap(), SpecialNodeAnnotation::SshStructNodeAnnotation(_)));
    assert!(graph_annotate.graph_data.get_node(0x1008).is_some());

    let session_state_annotation = specials.iter().find(|a| match a {
        SpecialNodeAnnotation::SessionStateNodeAnnotation(x) => *x == 0x1028,
        _ => false,
    });
    assert!(session_state_annotation.is_some());
    assert!(matches!(session_state_annotation.unwrap(), SpecialNodeAnnotation::SessionStateNodeAnnotation(_)));
    match graph_annotate.graph_data.get_node(0x1020) {
        Some(Node::DataStructureNode(d)) => assert_eq!(d.dtn_type, DtnTypes::SessionStateStruct),
        _ => panic!("no allocation at 0x1020"),
    }
}

#[test]
fn test_key_annotation() {
    let dump = key_dump();
    let json = sidecar(0x1030, 0x1030, vec![(0x1008, "KEY_F", 9, &KEY_F)]);
    let graph_annotate = build(&dump, &json);

    assert!(graph_annotate
        .graph_data
        .nodes
        .iter()
        .any(|node| matches!(node, Some(Node::ValueNode(ValueNode::KeyNode(_))))));

    let test_key_node = graph_annotate.graph_data.get_node(0x1008).unwrap();
    match test_key_node {
        Node::ValueNode(ValueNode::KeyNode(key_node)) => {
            assert_eq!(key_node.key, KEY_F.to_vec());
            assert_eq!(key_node.key_data.name, "KEY_F");
            assert_eq!(key_node.key_data.len, 9);
        },
        _ => panic!("Node is not a KeyNode"),
    }
}

#[test]
fn single_allocation_without_pointers() {
    let dump = dump_of(&[0x11, 0xAAAA_AAAA_AAAA_AAAA]);
    let ga = build(&dump, &sidecar(0x1080, 0x1080, vec![]));
    match ga.graph_data.get_node(0x1000) {
        Some(Node::DataStructureNode(d)) => {
            assert_eq!(d.addr, 0x1000);
            assert_eq!(d.byte_size, 0x10);
            assert_eq!(d.nb_value_nodes, 1);
            assert_eq!(d.nb_pointer_nodes, 0);
        },
        _ => panic!("no allocation at 0x1000"),
    }
    let r = rows(&ga);
    assert_eq!(r.len(), 1);
    assert_eq!(r[0], vec![0x1008, 8, 0, 0, 0, 0, 0, 0]);
}

#[test]
fn ssh_struct_allocation_is_labelled() {
    let dump = dump_of(&[0x11, 0xAAAA_AAAA_AAAA_AAAA]);
    let ga = build(&dump, &sidecar(0x1008, 0x1080, vec![]));
    let r = rows(&ga);
    assert_eq!(r, vec![vec![0x1008, 8, 0, 0, 0, 0, 0, 1]]);
    assert_eq!(ga.graph_data.special_node_to_annotation.len(), 2);
}

#[test]
fn self_pointer_is_not_a_child() {
    let dump = dump_of(&[0x11, 0x1008]);
    let ga = GraphAnnotate::new(&dump, &sidecar(0x1000, 0x1000, vec![]), 8, false, false).unwrap();
    match ga.graph_data.get_node(0x1008) {
        Some(node) => assert_eq!(node.points_to(), Some(0x1008)),
        None => panic!("no node at 0x1008"),
    }
    let r = rows(&ga);
    assert_eq!(r, vec![vec![0x1008, 8, 1, 0, 0, 0, 0, 0]]);
}

#[test]
fn forward_pointer_between_two_allocations() {
    let dump = dump_of(&[0x11, 0x1018, 0x11, 0xAAAA_AAAA_AAAA_AAAA]);
    let ga = GraphAnnotate::new(&dump, &sidecar(0x1000, 0x1000, vec![]), 8, false, false).unwrap();
    let r = rows(&ga);
    assert_eq!(r.len(), 2);
    assert_eq!(r[0], vec![0x1008, 8, 1, 0, 0, 1, 1, 0]);
    assert_eq!(r[1], vec![0x1018, 8, 0, 1, 1, 0, 0, 0]);
}

#[test]
fn depth_two_follows_two_hops() {
    // A -> B -> C
    let dump = dump_of(&[0x11, 0x1018, 0x11, 0x1028, 0x11, 0xAAAA_AAAA_AAAA_AAAA]);
    let ga = GraphAnnotate::new(&dump, &sidecar(0x1000, 0x1000, vec![]), 8, false, false).unwrap();
    let r = generate_semantic_samples_for_all_chunks(&ga.graph_data, 2, false);
    assert_eq!(r.len(), 3);
    assert_eq!(r[0], vec![0x1008, 8, 1, 0, 0, 0, 0, 1, 1, 1, 1, 0]);
    assert_eq!(r[2], vec![0x1028, 8, 0, 1, 1, 1, 1, 0, 0, 0, 0, 0]);
}

#[test]
fn trivial_rows_are_removed() {
    let dump = dump_of(&[0x11, 0x1018, 0x11, 0xAAAA_AAAA_AAAA_AAAA, 0x11, 0xBBBB_BBBB_BBBB_BBBB]);
    let ga = GraphAnnotate::new(&dump, &sidecar(0x1000, 0x1000, vec![]), 8, false, false).unwrap();
    let all = generate_semantic_samples_for_all_chunks(&ga.graph_data, 1, false);
    let kept = generate_semantic_samples_for_all_chunks(&ga.graph_data, 1, true);
    assert_eq!(all.len(), 3);
    assert_eq!(kept.len(), 2);
    assert_eq!(kept[0][0], 0x1008);
    assert_eq!(kept[1][0], 0x1018);
}

#[test]
fn key_reassembly_over_two_blocks() {
    let dump = key_dump();
    let ga = build(&dump, &sidecar(0x1030, 0x1030, vec![(0x1008, "KEY_F", 9, &KEY_F)]));
    match ga.graph_data.get_node(0x1000) {
        Some(Node::DataStructureNode(d)) => assert_eq!(d.dtn_type, DtnTypes::Keystruct),
        _ => panic!("no allocation at 0x1000"),
    }
    let r = rows(&ga);
    assert_eq!(r[0], vec![0x1008, 8, 0, 0, 0, 0, 0, 7]);
    assert_eq!(r[1], vec![0x1010, 8, 0, 0, 0, 0, 0, 3]);
}

#[test]
fn key_block_read_as_pointer_is_written_back_big_endian() {
    let dump = dump_of_bytes(&[
        [0x21, 0, 0, 0, 0, 0, 0, 0],
        [1, 2, 3, 4, 5, 6, 7, 8],
        [0x08, 0x10, 0, 0, 0, 0, 0, 0],
        [0xCC; 8],
    ]);
    let key: [u8; 12] = [1, 2, 3, 4, 5, 6, 7, 8, 0, 0, 0, 0];
    let ga = build(&dump, &sidecar(0x1030, 0x1030, vec![(0x1008, "K", 12, &key)]));
    assert!(matches!(ga.graph_data.get_node(0x1008), Some(Node::ValueNode(ValueNode::KeyNode(_)))));
}

#[test]
fn mismatched_key_is_not_annotated() {
    let dump = key_dump();
    let wrong: [u8; 9] = [1, 2, 3, 4, 5, 6, 7, 8, 10];
    let ga = build(&dump, &sidecar(0x1030, 0x1030, vec![(0x1008, "K", 9, &wrong)]));
    assert!(matches!(ga.graph_data.get_node(0x1008), Some(Node::ValueNode(ValueNode::BaseValueNode(_)))));
}

#[test]
fn without_value_nodes_keeps_addresses_and_counters() {
    let dump = dump_of(&[0x11, 0xAAAA_AAAA_AAAA_AAAA]);
    let ga = GraphAnnotate::new(&dump, &sidecar(0x1008, 0x1008, vec![]), 8, true, true).unwrap();
    assert!(ga.graph_data.get_node(0x1008).is_none());
    assert_eq!(ga.graph_data.value_node_addrs, vec![0x1008]);
    match ga.graph_data.get_node(0x1000) {
        Some(Node::DataStructureNode(d)) => {
            assert_eq!(d.nb_value_nodes, 1);
            assert_eq!(d.dtn_type, DtnTypes::SessionStateStruct);
        },
        _ => panic!("no allocation at 0x1000"),
    }
    assert_eq!(ga.graph_data.special_node_to_annotation.len(), 2);
}

#[test]
fn zero_size_header_stops_the_walk() {
    let dump = dump_of(&[0x11, 0xAAAA_AAAA_AAAA_AAAA, 0x0, 0x11]);
    let ga = GraphAnnotate::new(&dump, &sidecar(0x1000, 0x1000, vec![]), 8, false, false).unwrap();
    assert!(ga.graph_data.get_node(0x1018).is_none());
    assert_eq!(rows(&ga).len(), 1);
}

#[test]
fn allocation_past_the_end_is_not_built() {
    let dump = dump_of(&[0x11, 0xAAAA_AAAA_AAAA_AAAA, 0x1000]);
    let ga = GraphAnnotate::new(&dump, &sidecar(0x1000, 0x1000, vec![]), 8, false, false).unwrap();
    assert!(ga.graph_data.get_node(0x1010).is_none());
}

#[test]
fn missing_sidecar_member_is_reported() {
    let dump = dump_of(&[0x11, 0]);
    let json = obj(vec![("HEAP_START", s("1000"))]);
    match GraphAnnotate::new(&dump, &json, 8, true, false) {
        Err(ErrorKind::MissingJsonKeyError(k)) => assert_eq!(k, "pointer_byte_size"),
        _ => panic!("expected a missing key"),
    }
}

#[test]
fn malformed_sidecar_member_is_reported() {
    let dump = dump_of(&[0x11, 0]);
    let json = obj(vec![
        ("HEAP_START", s("zz")),
        ("pointer_byte_size", JsonValue::UInt(8)),
    ]);
    assert!(matches!(GraphAnnotate::new(&dump, &json, 8, true, false), Err(ErrorKind::InvalidJsonValue(_))));
}

#[test]
fn empty_dump_is_rejected() {
    let dump: Vec<u8> = Vec::new();
    let r = GraphAnnotate::new(&dump, &sidecar(0x1000, 0x1000, vec![]), 8, true, false);
    assert!(matches!(r, Err(ErrorKind::InvalidHeapDump)));
}

#[test]
fn missing_sidecar_gives_header_only_and_rerun_does_nothing() {
    assert!(is_recoverable(&ErrorKind::JsonFileNotFound("x.json".to_string())));
    assert!(is_recoverable(&ErrorKind::MissingJsonKeyError("HEAP_START".to_string())));
    assert!(!is_recoverable(&ErrorKind::InvalidHeapDump));
    let (samples, paths) = collect_shard(vec![(Vec::new(), String::new())]);
    assert!(samples.is_empty());
    assert!(paths.is_empty());
    assert_eq!(csv_header(1).len(), 9);
    assert!(shards_to_process(&vec![true]).is_empty());
}

#[test]
fn restart_resumes_at_first_missing_shard() {
    assert_eq!(shards_to_process(&vec![true, false]), vec![1]);
    assert_eq!(shards_to_process(&vec![false, true, false]), vec![0, 2]);
}

#[test]
fn shard_rows_keep_file_order() {
    let (samples, paths) = collect_shard(vec![
        (vec![vec![1], vec![2]], "a".to_string()),
        (Vec::new(), String::new()),
        (vec![vec![3]], "b".to_string()),
    ]);
    assert_eq!(samples, vec![vec![1], vec![2], vec![3]]);
    assert_eq!(paths, vec!["a".to_string(), "a".to_string(), "b".to_string()]);
}

#[test]
fn later_key_member_for_an_address_wins() {
    let entry = |name: &str| obj(vec![("name", s(name)), ("len", s("2")), ("key", s("0102"))]);
    let json = obj(vec![
        ("HEAP_START", JsonValue::UInt(0x1000)),
        ("pointer_byte_size", s("8")),
        ("addr_ssh_struct", s("1000")),
        ("addr_session_state", s("1000")),
        ("keys", obj(vec![("1008", entry("first")), ("1010", entry("other")), ("01008", entry("second"))])),
    ]);
    let d = mem_to_graph::graph_data::HeapDumpData::from_json(&json, 8, 0x100).unwrap();
    assert_eq!(d.min_addr, 0x1000);
    assert_eq!(d.max_addr, 0x10FF);
    assert_eq!(d.addr_to_key_data.len(), 2);
    let first = d.addr_to_key_data.iter().find(|(a, _)| *a == 0x1008).unwrap();
    assert_eq!(first.1.name, "second");
    assert_eq!(first.1.key, vec![1, 2]);
    assert_eq!(first.1.len, 2);
}

#[test]
fn key_entry_without_key_member_is_a_missing_key() {
    let dump = dump_of(&[0x11, 0]);
    let json = obj(vec![
        ("HEAP_START", s("1000")),
        ("pointer_byte_size", JsonValue::UInt(8)),
        ("addr_ssh_struct", s("1000")),
        ("addr_session_state", s("1000")),
        ("keys", obj(vec![("1008", obj(vec![("name", s("K")), ("len", JsonValue::UInt(2))]))])),
    ]);
    match GraphAnnotate::new(&dump, &json, 8, true, false) {
        Err(ErrorKind::MissingJsonKeyError(k)) => assert_eq!(k, "key"),
        _ => panic!("expected a missing key"),
    }
}

#[test]
fn missing_keys_map_is_reported_after_scalars() {
    let dump = dump_of(&[0x11, 0]);
    let json = obj(vec![
        ("HEAP_START", s("1000")),
        ("pointer_byte_size", JsonValue::UInt(8)),
        ("addr_ssh_struct", JsonValue::Null),
    ]);
    match GraphAnnotate::new(&dump, &json, 8, true, false) {
        Err(ErrorKind::InvalidJsonValue(k)) => assert_eq!(k, "addr_ssh_struct"),
        _ => panic!("expected an invalid member"),
    }
    let json = obj(vec![
        ("HEAP_START", s("1000")),
        ("pointer_byte_size", JsonValue::UInt(8)),
        ("addr_ssh_struct", s("1000")),
        ("addr_session_state", s("1000")),
    ]);
    match GraphAnnotate::new(&dump, &json, 8, true, false) {
        Err(ErrorKind::MissingJsonKeyError(k)) => assert_eq!(k, "keys"),
        _ => panic!("expected a missing key"),
    }
}

#[test]
fn counters_count_each_kind() {
    let dump = dump_of(&[0x21, 0x1018, 0xAAAA_AAAA_AAAA_AAAA, 0xBBBB_BBBB_BBBB_BBBB]);
    let ga = GraphAnnotate::new(&dump, &sidecar(0x1080, 0x1080, vec![]), 8, false, false).unwrap();
    match ga.graph_data.get_node(0x1000) {
        Some(Node::DataStructureNode(d)) => {
            assert_eq!(d.nb_pointer_nodes, 1);
            assert_eq!(d.nb_value_nodes, 2);
        },
        _ => panic!("no allocation at 0x1000"),
    }
}
