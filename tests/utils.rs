use mem_to_graph::chunk_runner::{csv_file_name, csv_header, nb_shards, shard_range};
use mem_to_graph::graph_structs::Node;
use mem_to_graph::json::JsonValue;
use mem_to_graph::text::{generate_bit_combinations, to_decimal, to_n_bits_binary, truncate_path_to_last_n_dirs};
use mem_to_graph::utils::{
    addr_to_index, block_bytes_to_addr, convert_block_to_pointer_if_possible, create_node_from_bytes,
    div_round_up, heap_dump_path_to_json_path, hex_str_to_addr, hex_str_to_block_bytes, index_to_addr,
    json_value_for_key, json_value_to_addr, json_value_to_usize, u64_to_bytes, Endianness, ErrorKind,
};

#[test]
fn div_round_up_boundaries() {
    assert_eq!(div_round_up(0, 8), 0);
    assert_eq!(div_round_up(1, 8), 1);
    assert_eq!(div_round_up(8, 8), 1);
    assert_eq!(div_round_up(9, 8), 2);
    assert_eq!(div_round_up(11, 4), 3);
}

#[test]
fn block_endianness() {
    let block = [1u8, 0, 0, 0, 0, 0, 0, 0];
    assert_eq!(block_bytes_to_addr(&block, Endianness::Little), 0x0000000000000001);
    assert_eq!(block_bytes_to_addr(&block, Endianness::Big), 0x0100000000000000);
    let block = [0x08u8, 0x10, 0, 0, 0, 0, 0, 0x7f];
    assert_eq!(block_bytes_to_addr(&block, Endianness::Little), 0x7f00000000001008);
}

#[test]
fn pointer_range_is_inclusive() {
    let max: u64 = 0x10FF;
    assert_eq!(convert_block_to_pointer_if_possible(&max.to_le_bytes(), 0x1000, max), Some(max));
    assert_eq!(convert_block_to_pointer_if_possible(&(max + 1).to_le_bytes(), 0x1000, max), None);
    assert_eq!(convert_block_to_pointer_if_possible(&0x1000u64.to_le_bytes(), 0x1000, max), Some(0x1000));
    assert_eq!(convert_block_to_pointer_if_possible(&0xFFFu64.to_le_bytes(), 0x1000, max), None);
}

#[test]
fn node_from_bytes() {
    let ptr = create_node_from_bytes(&0x1010u64.to_le_bytes(), 0x1008, 0x1000, 0x1000, 0x10FF);
    assert_eq!(ptr.points_to(), Some(0x1010));
    assert_eq!(ptr.get_dtn_addr(), Some(0x1000));
    let val = create_node_from_bytes(&[0xAA; 8], 0x1008, 0x1000, 0x1000, 0x10FF);
    assert!(matches!(val, Node::ValueNode(_)));
    assert_eq!(val.get_value(), Some([0xAA; 8]));
}

#[test]
fn u64_bytes_big_endian() {
    assert_eq!(u64_to_bytes(0x0102030405060708), [1, 2, 3, 4, 5, 6, 7, 8]);
    assert_eq!(u64_to_bytes(0), [0; 8]);
}

#[test]
fn index_and_address() {
    assert_eq!(index_to_addr(3, 0x1000, 8), 0x1018);
    assert_eq!(addr_to_index(0x1018, 0x1000, 8), 3);
}

#[test]
fn hex_addresses() {
    assert_eq!(hex_str_to_addr("1000", Endianness::Big).unwrap(), 0x1000);
    assert_eq!(hex_str_to_addr("+ff", Endianness::Big).unwrap(), 0xff);
    assert_eq!(hex_str_to_addr("0810", Endianness::Little).unwrap(), 0x1008);
    assert_eq!(hex_str_to_addr("0810000000000000", Endianness::Little).unwrap(), 0x1008);
    assert!(hex_str_to_addr("zz", Endianness::Big).is_err());
    assert!(hex_str_to_addr("", Endianness::Big).is_err());
    assert!(hex_str_to_addr("10000000000000000", Endianness::Big).is_err());
}

#[test]
fn hex_block_bytes() {
    assert_eq!(hex_str_to_block_bytes("0810000000000000"), [0x08, 0x10, 0, 0, 0, 0, 0, 0]);
    assert_eq!(hex_str_to_block_bytes("FFfe000000000001"), [0xff, 0xfe, 0, 0, 0, 0, 0, 1]);
}

#[test]
fn sidecar_values() {
    assert_eq!(json_value_to_addr(&JsonValue::Str("55a6d2a7a000".to_string())), Some(0x55a6d2a7a000));
    assert_eq!(json_value_to_addr(&JsonValue::UInt(4096)), Some(4096));
    assert_eq!(json_value_to_addr(&JsonValue::Null), None);
    assert_eq!(json_value_to_usize(&JsonValue::Str("16".to_string())), Some(16));
    assert_eq!(json_value_to_usize(&JsonValue::Str("1a".to_string())), None);
    assert_eq!(json_value_to_usize(&JsonValue::UInt(32)), Some(32));
    let json = JsonValue::Object(vec![("a".to_string(), JsonValue::UInt(1))]);
    assert!(matches!(json_value_for_key(&json, "a"), Ok(JsonValue::UInt(1))));
    match json_value_for_key(&json, "b") {
        Err(ErrorKind::MissingJsonKeyError(k)) => assert_eq!(k, "b"),
        _ => panic!("expected a missing key"),
    }
}

#[test]
fn sidecar_path_of_dump() {
    assert_eq!(heap_dump_path_to_json_path("data/17016-1643962152-heap.raw"), "data/17016-1643962152.json");
    assert_eq!(heap_dump_path_to_json_path("data/other.bin"), "data/other.bin");
}

#[test]
fn binary_strings() {
    assert_eq!(to_n_bits_binary(5, 4), "0101");
    assert_eq!(to_n_bits_binary(5, 2), "101");
    assert_eq!(to_n_bits_binary(0, 0), "0");
    assert_eq!(generate_bit_combinations(2), vec!["00", "01", "10", "11"]);
    assert_eq!(generate_bit_combinations(0), vec!["0"]);
    assert_eq!(to_decimal(1234), "1234");
}

#[test]
fn shard_file_names() {
    let tail = truncate_path_to_last_n_dirs("/home/u/phdtrack_data/Training/basic/V_7_8_P1/16", 5);
    assert_eq!(tail, "phdtrack_data/Training/basic/V_7_8_P1/16");
    assert_eq!(truncate_path_to_last_n_dirs("a/b", 5), "a/b");
    assert_eq!(csv_file_name(tail, 3), "phdtrack_data_Training_basic_V_7_8_P1_16_chunck_idx-3_samples.csv");
}

#[test]
fn csv_header_for_depth_two() {
    let h = csv_header(2);
    let expected = vec![
        "file_path", "f_chn_addr", "f_chunk_byte_size", "f_chunk_ptrs", "f_chns_ancestor_1", "f_ptrs_ancestor_1",
        "f_chns_ancestor_2", "f_ptrs_ancestor_2", "f_chns_children_1", "f_ptrs_children_1", "f_chns_children_2",
        "f_ptrs_children_2", "label",
    ];
    assert_eq!(h, expected);
}

#[test]
fn shards() {
    assert_eq!(nb_shards(25, 10), 3);
    assert_eq!(shard_range(2, 10, 25), (20, 25));
    assert_eq!(shard_range(1, 10, 25), (10, 20));
}
