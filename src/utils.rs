use vstd::prelude::*;

use crate::graph_structs::{BasePointerNode, BaseValueNode, Node, PointerNode, ValueNode};
use crate::json::{spec_json_get, JsonValue};

pub use crate::text::{generate_bit_combinations, to_n_bits_binary};

verus! {

/// Width in bytes of one block of the heap dump.
pub const BLOCK_BYTE_SIZE: usize = 8;

/// Byte order used to read a block as an integer.
#[derive(Debug, PartialEq, Eq, Structural, Clone, Copy)]
pub enum Endianness {
    Big,
    Little,
}

/// Integer value of eight bytes read with the least significant byte first.
pub open spec fn le_u64(b: Seq<u8>) -> int {
    b[0] as int + b[1] as int * 0x100 + b[2] as int * 0x10000 + b[3] as int * 0x1000000
        + b[4] as int * 0x100000000 + b[5] as int * 0x10000000000
        + b[6] as int * 0x1000000000000 + b[7] as int * 0x100000000000000
}

/// Integer value of eight bytes read with the most significant byte first.
pub open spec fn be_u64(b: Seq<u8>) -> int {
    b[7] as int + b[6] as int * 0x100 + b[5] as int * 0x10000 + b[4] as int * 0x1000000
        + b[3] as int * 0x100000000 + b[2] as int * 0x10000000000
        + b[1] as int * 0x1000000000000 + b[0] as int * 0x100000000000000
}

pub open spec fn endian_u64(b: Seq<u8>, endianness: Endianness) -> int {
    match endianness {
        Endianness::Big => be_u64(b),
        Endianness::Little => le_u64(b),
    }
}

/// Reads eight bytes as an unsigned integer in the given byte order.
pub fn block_bytes_to_addr(block_bytes: &[u8; 8], endianness: Endianness) -> (r: u64)
    ensures
        r == endian_u64(block_bytes@, endianness),
{
    let b0 = block_bytes[0] as u64;
    let b1 = block_bytes[1] as u64;
    let b2 = block_bytes[2] as u64;
    let b3 = block_bytes[3] as u64;
    let b4 = block_bytes[4] as u64;
    let b5 = block_bytes[5] as u64;
    let b6 = block_bytes[6] as u64;
    let b7 = block_bytes[7] as u64;
    match endianness {
        Endianness::Big => b7 + b6 * 0x100 + b5 * 0x10000 + b4 * 0x1000000 + b3 * 0x100000000
            + b2 * 0x10000000000 + b1 * 0x1000000000000 + b0 * 0x100000000000000,
        Endianness::Little => b0 + b1 * 0x100 + b2 * 0x10000 + b3 * 0x1000000 + b4 * 0x100000000
            + b5 * 0x10000000000 + b6 * 0x1000000000000 + b7 * 0x100000000000000,
    }
}

/// The eight bytes of an integer, most significant first.
pub open spec fn be_bytes(v: u64) -> Seq<u8> {
    seq![
        (v / 0x100000000000000) as u8,
        (v / 0x1000000000000 % 0x100) as u8,
        (v / 0x10000000000 % 0x100) as u8,
        (v / 0x100000000 % 0x100) as u8,
        (v / 0x1000000 % 0x100) as u8,
        (v / 0x10000 % 0x100) as u8,
        (v / 0x100 % 0x100) as u8,
        (v % 0x100) as u8,
    ]
}

/// Splits an integer into its eight bytes, most significant first.
pub fn u64_to_bytes(value: u64) -> (r: [u8; 8])
    ensures
        r@ == be_bytes(value),
        be_u64(r@) == value,
{
    let b7 = (value % 0x100) as u8;
    let v1 = value / 0x100;
    let b6 = (v1 % 0x100) as u8;
    let v2 = v1 / 0x100;
    let b5 = (v2 % 0x100) as u8;
    let v3 = v2 / 0x100;
    let b4 = (v3 % 0x100) as u8;
    let v4 = v3 / 0x100;
    let b3 = (v4 % 0x100) as u8;
    let v5 = v4 / 0x100;
    let b2 = (v5 % 0x100) as u8;
    let v6 = v5 / 0x100;
    let b1 = (v6 % 0x100) as u8;
    let v7 = v6 / 0x100;
    let b0 = v7 as u8;
    assert(v7 < 0x100);
    let r = [b0, b1, b2, b3, b4, b5, b6, b7];
    assert(r@ =~= seq![b0, b1, b2, b3, b4, b5, b6, b7]);
    r
}

/// Byte order in which a block is read when it may hold a pointer.
pub const PTR_ENDIANNESS: Endianness = Endianness::Little;

/// Address of the block of index `index`.
pub fn index_to_addr(index: usize, min_addr: u64, block_size: usize) -> (r: u64)
    requires
        min_addr + index * block_size <= u64::MAX,
    ensures
        r == min_addr + index * block_size,
{
    proof {
        assert(0 <= index * block_size) by (nonlinear_arith);
    }
    (index as u64) * (block_size as u64) + min_addr
}

/// Index of the block that starts at `addr`.
pub fn addr_to_index(addr: u64, min_addr: u64, block_size: usize) -> (r: usize)
    requires
        min_addr <= addr,
        block_size > 0,
        (addr - min_addr) / (block_size as int) <= usize::MAX,
    ensures
        r == (addr - min_addr) / (block_size as int),
{
    ((addr - min_addr) / block_size as u64) as usize
}

/// Target of a block read as a pointer, when it falls inside `[min_addr, max_addr]`.
pub open spec fn spec_pointer_of(b: Seq<u8>, min_addr: u64, max_addr: u64) -> Option<u64> {
    let v = le_u64(b);
    if min_addr <= v <= max_addr {
        Some(v as u64)
    } else {
        None
    }
}

/// Reads eight bytes as a little-endian address and keeps it when it lies in the heap.
pub fn convert_block_to_pointer_if_possible(data: &[u8], min_addr: u64, max_addr: u64) -> (r:
    Option<u64>)
    requires
        data@.len() == 8,
    ensures
        r == spec_pointer_of(data@, min_addr, max_addr),
{
    let block: [u8; 8] = [data[0], data[1], data[2], data[3], data[4], data[5], data[6], data[7]];
    assert(block@ =~= data@);
    let potential_ptr_int = block_bytes_to_addr(&block, PTR_ENDIANNESS);
    if potential_ptr_int >= min_addr && potential_ptr_int <= max_addr {
        Some(potential_ptr_int)
    } else {
        None
    }
}

/// The node that a payload block becomes: a pointer when its little-endian value lies
/// in the heap, else a value.
pub open spec fn spec_node_from_block(
    block: [u8; 8],
    addr: u64,
    dtn_addr: u64,
    min_addr: u64,
    max_addr: u64,
) -> Node {
    match spec_pointer_of(block@, min_addr, max_addr) {
        Some(p) => Node::PointerNode(
            PointerNode::BasePointerNode(BasePointerNode { addr, points_to: p, dtn_addr }),
        ),
        None => Node::ValueNode(
            ValueNode::BaseValueNode(BaseValueNode { addr, value: block, dtn_addr }),
        ),
    }
}

/// Builds the pointer or value node of a payload block.
pub fn create_node_from_bytes(
    block: &[u8; 8],
    addr: u64,
    dtn_addr: u64,
    min_addr: u64,
    max_addr: u64,
) -> (r: Node)
    ensures
        r == spec_node_from_block(*block, addr, dtn_addr, min_addr, max_addr),
{
    let potential_ptr = convert_block_to_pointer_if_possible(block.as_slice(), min_addr, max_addr);
    match potential_ptr {
        Some(points_to) => Node::PointerNode(
            PointerNode::BasePointerNode(BasePointerNode { addr, points_to, dtn_addr }),
        ),
        None => Node::ValueNode(
            ValueNode::BaseValueNode(BaseValueNode { addr, value: *block, dtn_addr }),
        ),
    }
}

/// Number of blocks of `denominator` bytes needed to hold `numerator` bytes.
pub fn div_round_up(numerator: usize, denominator: usize) -> (r: usize)
    requires
        denominator > 0,
    ensures
        r == (numerator + denominator - 1) / (denominator as int),
{
    let q = numerator / denominator;
    let m = numerator % denominator;
    proof {
        let n = numerator as int;
        let d = denominator as int;
        assert(n == q * d + m) by (nonlinear_arith)
            requires q == n / d, m == n % d, d > 0;
        assert(m > 0 ==> (n + d - 1) / d == q + 1) by (nonlinear_arith)
            requires n == q * d + m, 0 <= m < d, d > 0;
        assert(m == 0 ==> (n + d - 1) / d == q) by (nonlinear_arith)
            requires n == q * d + m, 0 <= m < d, d > 0;
        assert(m > 0 ==> q < n) by (nonlinear_arith)
            requires n == q * d + m, 0 <= m < d, d > 0;
    }
    if m != 0 { q + 1 } else { q }
}

/// The failures of building a graph from a dump and its sidecar.
#[derive(Debug)]
pub enum ErrorKind {
    /// Reading a file failed.
    Io(String),
    /// The sidecar is not valid JSON.
    Json(String),
    /// A required member of the sidecar is absent.
    MissingJsonKeyError(String),
    /// The sidecar of a dump does not exist.
    JsonFileNotFound(String),
    /// A member of the sidecar has a value of the wrong shape.
    InvalidJsonValue(String),
    /// The dump is empty or does not fit in the address space.
    InvalidHeapDump,
}

#[verifier::external_type_specification]
#[verifier::external_body]
pub struct ExParseIntError(std::num::ParseIntError);

/// Value of a digit in the given radix, digits past 9 being letters of either case.
pub open spec fn digit_value(c: char, radix: int) -> Option<int> {
    let v = if '0' <= c && c <= '9' {
        c as int - '0' as int
    } else if 'a' <= c && c <= 'z' {
        c as int - 'a' as int + 10
    } else if 'A' <= c && c <= 'Z' {
        c as int - 'A' as int + 10
    } else {
        36
    };
    if v < radix {
        Some(v)
    } else {
        None
    }
}

/// Value of a string of digits in the given radix, most significant first.
pub open spec fn digits_value(s: Seq<char>, radix: int) -> Option<int>
    decreases s.len(),
{
    if s.len() == 0 {
        Some(0)
    } else {
        match (digits_value(s.drop_last(), radix), digit_value(s.last(), radix)) {
            (Some(a), Some(d)) => Some(a * radix + d),
            _ => None,
        }
    }
}

/// An unsigned integer written as an optional `+` and one or more digits of the
/// radix, whose value is at most `max`.
pub open spec fn spec_from_str_radix(s: Seq<char>, radix: int, max: int) -> Option<int> {
    let d = if s.len() > 0 && s[0] == '+' {
        s.drop_first()
    } else {
        s
    };
    if d.len() == 0 {
        None
    } else {
        match digits_value(d, radix) {
            Some(v) => if v <= max {
                Some(v)
            } else {
                None
            },
            None => None,
        }
    }
}

/// Relies on `u64::from_str_radix`: an optional `+` followed by digits of the radix,
/// an error on anything else and on a value past `u64::MAX`.
#[verifier::external_body]
fn u64_from_str_radix(s: &str, radix: u32) -> (r: Result<u64, std::num::ParseIntError>)
    requires
        2 <= radix <= 36,
    ensures
        match r {
            Ok(v) => spec_from_str_radix(s@, radix as int, u64::MAX as int) == Some(v as int),
            Err(_) => spec_from_str_radix(s@, radix as int, u64::MAX as int) is None,
        },
{
    u64::from_str_radix(s, radix)
}

/// Relies on `usize::from_str_radix`: an optional `+` followed by digits of the radix,
/// an error on anything else and on a value past `usize::MAX`.
#[verifier::external_body]
fn usize_from_str_radix(s: &str, radix: u32) -> (r: Result<usize, std::num::ParseIntError>)
    requires
        2 <= radix <= 36,
    ensures
        match r {
            Ok(v) => spec_from_str_radix(s@, radix as int, usize::MAX as int) == Some(v as int),
            Err(_) => spec_from_str_radix(s@, radix as int, usize::MAX as int) is None,
        },
{
    usize::from_str_radix(s, radix)
}

/// A string padded on the right with `0` up to sixteen characters.
pub open spec fn pad16(s: Seq<char>) -> Seq<char> {
    if s.len() < 16 {
        s + Seq::new((16 - s.len()) as nat, |i: int| '0')
    } else {
        s
    }
}

/// The address written in hexadecimal in `hex_str`. In big-endian order the string is
/// read as it stands; in little-endian order it is first padded with `0` on the right
/// to sixteen digits and its bytes are then reversed.
pub fn hex_str_to_addr(hex_str: &str, endianness: Endianness) -> (r: Result<u64, std::num::ParseIntError>)
    ensures
        endianness == Endianness::Big ==> match spec_from_str_radix(hex_str@, 16, u64::MAX as int) {
            Some(v) => r == Ok::<u64, std::num::ParseIntError>(v as u64),
            None => r is Err,
        },
        endianness == Endianness::Little ==> match spec_from_str_radix(pad16(hex_str@), 16, u64::MAX as int) {
            Some(v) => r == Ok::<u64, std::num::ParseIntError>(le_u64(be_bytes(v as u64)) as u64),
            None => r is Err,
        },
{
    match endianness {
        Endianness::Big => u64_from_str_radix(hex_str, 16),
        Endianness::Little => {
            let mut padded_hex_str = hex_str.to_owned();
            let ghost start = padded_hex_str@;
            assert(padded_hex_str@ =~= start + Seq::new(0, |i: int| '0'));
            while padded_hex_str.unicode_len() < 16
                invariant
                    start == hex_str@,
                    start.len() <= padded_hex_str@.len(),
                    padded_hex_str@.len() > start.len() ==> padded_hex_str@.len() <= 16,
                    padded_hex_str@ == start + Seq::new((padded_hex_str@.len() - start.len()) as nat, |i: int| '0'),
                decreases 16 - padded_hex_str@.len(),
            {
                proof {
                    reveal_strlit("0");
                }
                padded_hex_str.append("0");
                assert("0"@ =~= seq!['0']);
                assert(padded_hex_str@ =~= start + Seq::new((padded_hex_str@.len() - start.len()) as nat, |i: int| '0'));
            }
            assert(padded_hex_str@ =~= pad16(hex_str@));
            match u64_from_str_radix(padded_hex_str.as_str(), 16) {
                Ok(addr) => {
                    let bytes = u64_to_bytes(addr);
                    Ok(block_bytes_to_addr(&bytes, Endianness::Little))
                },
                Err(e) => Err(e),
            }
        },
    }
}

/// Value of one hexadecimal digit.
pub open spec fn hex_digit(c: char) -> int {
    digit_value(c, 16)->Some_0
}

pub open spec fn is_hex_digits(s: Seq<char>) -> bool {
    forall|i: int| 0 <= i < s.len() ==> (#[trigger] digit_value(s[i], 16)) is Some
}

pub(crate) fn hex_digit_checked(c: char) -> (r: Option<u8>)
    ensures
        match r {
            Some(v) => digit_value(c, 16) == Some(v as int),
            None => digit_value(c, 16) is None,
        },
{
    if '0' <= c && c <= '9' {
        Some((c as u32 - '0' as u32) as u8)
    } else if 'a' <= c && c <= 'f' {
        Some((c as u32 - 'a' as u32 + 10) as u8)
    } else if 'A' <= c && c <= 'F' {
        Some((c as u32 - 'A' as u32 + 10) as u8)
    } else {
        None
    }
}

/// The eight bytes written as sixteen hexadecimal digits, two per byte.
pub fn hex_str_to_block_bytes(hex_str: &str) -> (r: [u8; 8])
    requires
        hex_str@.len() == 16,
        is_hex_digits(hex_str@),
    ensures
        forall|i: int| 0 <= i < 8 ==> #[trigger] r@[i] == 16 * hex_digit(hex_str@[2 * i]) + hex_digit(hex_str@[2 * i + 1]),
{
    let mut block_bytes: [u8; 8] = [0u8; 8];
    let mut i: usize = 0;
    while i < 8
        invariant
            0 <= i <= 8,
            hex_str@.len() == 16,
            is_hex_digits(hex_str@),
            forall|j: int| 0 <= j < i ==> #[trigger] block_bytes@[j] == 16 * hex_digit(hex_str@[2 * j]) + hex_digit(hex_str@[2 * j + 1]),
        decreases 8 - i,
    {
        let hi = hex_digit_checked(hex_str.get_char(2 * i)).unwrap();
        let lo = hex_digit_checked(hex_str.get_char(2 * i + 1)).unwrap();
        block_bytes[i] = hi * 16 + lo;
        i = i + 1;
    }
    block_bytes
}

/// The address that a sidecar value gives: hexadecimal text, most significant digit
/// first, or a plain integer.
pub open spec fn spec_json_addr(v: JsonValue) -> Option<u64> {
    match v {
        JsonValue::Str(s) => match spec_from_str_radix(s@, 16, u64::MAX as int) {
            Some(a) => Some(a as u64),
            None => None,
        },
        JsonValue::UInt(n) => Some(n),
        _ => None,
    }
}

/// The size that a sidecar value gives: decimal text, or a plain integer.
pub open spec fn spec_json_usize(v: JsonValue) -> Option<usize> {
    match v {
        JsonValue::Str(s) => match spec_from_str_radix(s@, 10, usize::MAX as int) {
            Some(a) => Some(a as usize),
            None => None,
        },
        JsonValue::UInt(n) => if n <= usize::MAX {
            Some(n as usize)
        } else {
            None
        },
        _ => None,
    }
}

/// Reads a sidecar address; `None` when the value is neither hexadecimal text nor an
/// integer.
pub fn json_value_to_addr(json_value: &JsonValue) -> (r: Option<u64>)
    ensures
        r == spec_json_addr(*json_value),
{
    match json_value {
        JsonValue::Str(s) => match hex_str_to_addr(s.as_str(), Endianness::Big) {
            Ok(a) => Some(a),
            Err(_) => None,
        },
        JsonValue::UInt(n) => Some(*n),
        _ => None,
    }
}

/// Reads a sidecar size; `None` when the value is neither decimal text nor an integer
/// that fits.
pub fn json_value_to_usize(json_value: &JsonValue) -> (r: Option<usize>)
    ensures
        r == spec_json_usize(*json_value),
{
    match json_value {
        JsonValue::Str(s) => match usize_from_str_radix(s.as_str(), 10) {
            Ok(a) => Some(a),
            Err(_) => None,
        },
        JsonValue::UInt(n) => if *n <= usize::MAX as u64 {
            Some(*n as usize)
        } else {
            None
        },
        _ => None,
    }
}

/// The member `key` of the sidecar, or `MissingJsonKeyError(key)`.
pub fn json_value_for_key<'a>(json: &'a JsonValue, key: &str) -> (r: Result<&'a JsonValue, ErrorKind>)
    ensures
        match r {
            Ok(v) => spec_json_get(*json, key@) == Some(*v),
            Err(e) => spec_json_get(*json, key@) is None && e is MissingJsonKeyError
                && e->MissingJsonKeyError_0@ == key@,
        },
{
    match json.get(key) {
        Some(v) => Ok(v),
        None => Err(ErrorKind::MissingJsonKeyError(key.to_owned())),
    }
}

/// A block whose little-endian value is `max_addr` is a pointer to it; one whose value
/// is `max_addr + 1` is a value: the heap range is inclusive at both ends.
pub proof fn lemma_pointer_range_inclusive(b: Seq<u8>, c: Seq<u8>, min_addr: u64, max_addr: u64)
    requires
        min_addr <= max_addr,
        le_u64(b) == max_addr,
        le_u64(c) == max_addr + 1,
    ensures
        spec_pointer_of(b, min_addr, max_addr) == Some(max_addr),
        spec_pointer_of(c, min_addr, max_addr) is None,
{
}

/// Path of the sidecar of a dump: `X-heap.raw` becomes `X.json`; any other path is
/// kept as it is.
pub open spec fn spec_json_path(path: Seq<char>) -> Seq<char> {
    let suffix = "-heap.raw"@;
    if path.len() >= suffix.len() && path.subrange(path.len() - suffix.len(), path.len() as int) == suffix {
        path.subrange(0, path.len() - suffix.len()) + ".json"@
    } else {
        path
    }
}

/// The path of the sidecar that belongs to a dump path.
pub fn heap_dump_path_to_json_path(heap_dump_raw_file_path: &str) -> (r: String)
    ensures
        r@ == spec_json_path(heap_dump_raw_file_path@),
{
    proof {
        reveal_strlit("-heap.raw");
    }
    let suffix = "-heap.raw";
    let n = heap_dump_raw_file_path.unicode_len();
    let m = suffix.unicode_len();
    if n >= m && crate::json::str_eq(heap_dump_raw_file_path.substring_char(n - m, n), suffix) {
        let mut r = heap_dump_raw_file_path.substring_char(0, n - m).to_owned();
        r.append(".json");
        r
    } else {
        heap_dump_raw_file_path.to_owned()
    }
}

} // verus!
