use vstd::prelude::*;

use crate::graph_structs::{
    BaseValueNode, DataStructureNode, DtnTypes, KeyData, Node, SpecialNodeAnnotation, ValueNode,
};
use crate::json::{spec_json_get, JsonValue};
use crate::utils::{
    block_bytes_to_addr, convert_block_to_pointer_if_possible, hex_digit_checked, create_node_from_bytes, digit_value, hex_digit, index_to_addr,
    json_value_for_key, json_value_to_addr, json_value_to_usize, le_u64, spec_json_addr,
    spec_json_usize, spec_pointer_of, Endianness, ErrorKind,
};

verus! {

/// What the sidecar tells of a heap dump, with the address range of the dump.
#[derive(Debug, Clone)]
pub struct HeapDumpData {
    pub min_addr: u64,
    pub max_addr: u64,
    pub block_size: usize,
    pub addr_ssh_struct: u64,
    pub addr_session_state: u64,
    pub addr_to_key_data: Vec<(u64, KeyData)>,
}

/// Bytes written as hexadecimal text, two digits per byte.
pub open spec fn spec_hex_bytes(s: Seq<char>) -> Option<Seq<u8>> {
    if s.len() % 2 == 0 && forall|i: int| 0 <= i < s.len() ==> (#[trigger] digit_value(s[i], 16)) is Some {
        Some(Seq::new((s.len() / 2) as nat, |i: int| (16 * hex_digit(s[2 * i]) + hex_digit(s[2 * i + 1])) as u8))
    } else {
        None
    }
}

/// Decodes hexadecimal text, two digits per byte.
pub fn hex_str_to_bytes(s: &str) -> (r: Option<Vec<u8>>)
    ensures
        match r {
            Some(v) => spec_hex_bytes(s@) == Some(v@),
            None => spec_hex_bytes(s@) is None,
        },
{
    let n = s.unicode_len();
    if n % 2 != 0 {
        return None;
    }
    let mut out: Vec<u8> = Vec::new();
    let mut i: usize = 0;
    while i < n / 2
        invariant
            n == s@.len(),
            n % 2 == 0,
            0 <= i <= n / 2,
            out@.len() == i,
            forall|j: int| 0 <= j < 2 * i ==> (#[trigger] digit_value(s@[j], 16)) is Some,
            forall|j: int| 0 <= j < i ==> #[trigger] out@[j] == (16 * hex_digit(s@[2 * j]) + hex_digit(s@[2 * j + 1])) as u8,
        decreases n / 2 - i,
    {
        let hi = hex_digit_checked(s.get_char(2 * i));
        let lo = hex_digit_checked(s.get_char(2 * i + 1));
        match (hi, lo) {
            (Some(h), Some(l)) => {
                out.push(h * 16 + l);
            },
            _ => {
                return None;
            },
        }
        i = i + 1;
    }
    assert(out@ =~= spec_hex_bytes(s@)->Some_0);
    Some(out)
}

#[verifier::opaque]
/// What one member of the sidecar's key map gives: the member's name is the key's
/// address in hexadecimal, its value an object with `name`, `len` and `key`.
pub open spec fn spec_key_entry(addr_text: Seq<char>, v: JsonValue) -> Option<(u64, Seq<char>, usize, Seq<u8>)> {
    let name = spec_json_get(v, seq_of("name"));
    let len = spec_json_get(v, seq_of("len"));
    let key = spec_json_get(v, seq_of("key"));
    if name is Some && name->Some_0 is Str && len is Some && spec_json_usize(len->Some_0) is Some
        && key is Some && key->Some_0 is Str && spec_hex_bytes(key->Some_0->Str_0@) is Some {
        match crate::utils::spec_from_str_radix(addr_text, 16, u64::MAX as int) {
            Some(a) => Some((a as u64, name->Some_0->Str_0@, spec_json_usize(len->Some_0)->Some_0, spec_hex_bytes(key->Some_0->Str_0@)->Some_0)),
            None => None,
        }
    } else {
        None
    }
}

#[verifier::opaque]
/// The failure of reading one member of the key map, if any: `(true, m)` when its
/// object lacks the member `m` (`name`, `len` and `key` are looked at in this order),
/// `(false, addr_text)` when a value has the wrong shape or the address does not parse.
pub open spec fn spec_key_error(addr_text: Seq<char>, v: JsonValue) -> Option<(bool, Seq<char>)> {
    let name = spec_json_get(v, seq_of("name"));
    let len = spec_json_get(v, seq_of("len"));
    let key = spec_json_get(v, seq_of("key"));
    if name is None {
        Some((true, seq_of("name")))
    } else if !(name->Some_0 is Str) {
        Some((false, addr_text))
    } else if len is None {
        Some((true, seq_of("len")))
    } else if spec_json_usize(len->Some_0) is None {
        Some((false, addr_text))
    } else if key is None {
        Some((true, seq_of("key")))
    } else if !(key->Some_0 is Str) || spec_hex_bytes(key->Some_0->Str_0@) is None {
        Some((false, addr_text))
    } else if crate::utils::spec_from_str_radix(addr_text, 16, u64::MAX as int) is None {
        Some((false, addr_text))
    } else {
        None
    }
}

/// The error that a failure `(missing, name)` is reported as.
pub open spec fn reported_as(e: ErrorKind, failure: (bool, Seq<char>)) -> bool {
    if failure.0 {
        e is MissingJsonKeyError && e->MissingJsonKeyError_0@ == failure.1
    } else {
        e is InvalidJsonValue && e->InvalidJsonValue_0@ == failure.1
    }
}

/// Reads one member of the sidecar's key map.
pub fn key_entry_from_json(addr_text: &String, v: &JsonValue) -> (r: Result<(u64, KeyData), ErrorKind>)
    ensures
        spec_key_error(addr_text@, *v) is None <==> spec_key_entry(addr_text@, *v) is Some,
        match r {
            Ok((a, k)) => spec_key_entry(addr_text@, *v) == Some((a, k.name@, k.len, k.key@)),
            Err(e) => spec_key_error(addr_text@, *v) is Some && reported_as(e, spec_key_error(addr_text@, *v)->Some_0),
        },
{
    reveal(spec_key_error);
    reveal(spec_key_entry);
    proof {
        reveal_strlit("name");
        reveal_strlit("len");
        reveal_strlit("key");
    }
    assert(seq_of("name") =~= seq!['n', 'a', 'm', 'e']);
    assert(seq_of("len") =~= seq!['l', 'e', 'n']);
    assert(seq_of("key") =~= seq!['k', 'e', 'y']);
    let name = match v.get("name") {
        Some(JsonValue::Str(s)) => s.clone(),
        Some(_) => {
            return Err(ErrorKind::InvalidJsonValue(addr_text.clone()));
        },
        None => {
            return Err(ErrorKind::MissingJsonKeyError("name".to_owned()));
        },
    };
    let len = match v.get("len") {
        Some(l) => match json_value_to_usize(l) {
            Some(n) => n,
            None => {
                return Err(ErrorKind::InvalidJsonValue(addr_text.clone()));
            },
        },
        None => {
            return Err(ErrorKind::MissingJsonKeyError("len".to_owned()));
        },
    };
    let key = match v.get("key") {
        Some(JsonValue::Str(s)) => match hex_str_to_bytes(s.as_str()) {
            Some(b) => b,
            None => {
                return Err(ErrorKind::InvalidJsonValue(addr_text.clone()));
            },
        },
        Some(_) => {
            return Err(ErrorKind::InvalidJsonValue(addr_text.clone()));
        },
        None => {
            return Err(ErrorKind::MissingJsonKeyError("key".to_owned()));
        },
    };
    let addr = match crate::utils::hex_str_to_addr(addr_text.as_str(), Endianness::Big) {
        Ok(a) => a,
        Err(_) => {
            return Err(ErrorKind::InvalidJsonValue(addr_text.clone()));
        },
    };
    Ok((addr, KeyData { name, len, key }))
}

pub open spec fn keys_unique(entries: Seq<(u64, KeyData)>) -> bool {
    forall|i: int, j: int|
        0 <= i < j < entries.len() ==> #[trigger] entries[i].0 != #[trigger] entries[j].0
}

pub open spec fn key_entry_view(e: (u64, KeyData)) -> (u64, Seq<char>, usize, Seq<u8>) {
    (e.0, e.1.name@, e.1.len, e.1.key@)
}

/// Each entry is what the last of the first `upto` members of the key map at its
/// address gives.
pub open spec fn entries_come_from(entries: Seq<(u64, KeyData)>, members: Seq<(String, JsonValue)>, upto: int) -> bool {
    forall|i: int|
        #![trigger entries[i]]
        0 <= i < entries.len() ==> exists|m: int|
            0 <= m < upto && spec_key_entry(#[trigger] members[m].0@, members[m].1) == Some(key_entry_view(entries[i]))
                && forall|m2: int|
                m < m2 < upto ==> (#[trigger] spec_key_entry(members[m2].0@, members[m2].1))->Some_0.0 != entries[i].0
}

proof fn lemma_upsert_keeps_provenance(
    old_entries: Seq<(u64, KeyData)>,
    entries: Seq<(u64, KeyData)>,
    members: Seq<(String, JsonValue)>,
    m: int,
    addr: u64,
    key_data: KeyData,
    found: bool,
    p: int,
)
    requires
        entries_come_from(old_entries, members, m),
        0 <= m < members.len(),
        spec_key_entry(members[m].0@, members[m].1) == Some(key_entry_view((addr, key_data))),
        found ==> 0 <= p < old_entries.len() && old_entries[p].0 == addr && entries == old_entries.update(p, (addr, key_data)),
        found ==> forall|i: int| 0 <= i < old_entries.len() && i != p ==> (#[trigger] old_entries[i]).0 != addr,
        !found ==> (forall|i: int| 0 <= i < old_entries.len() ==> (#[trigger] old_entries[i]).0 != addr)
            && entries == old_entries.push((addr, key_data)),
    ensures
        entries_come_from(entries, members, m + 1),
{
    assert forall|i: int|
        #![trigger entries[i]]
        0 <= i < entries.len() implies exists|w: int|
            0 <= w < m + 1 && spec_key_entry(#[trigger] members[w].0@, members[w].1) == Some(key_entry_view(entries[i]))
                && forall|m2: int|
                w < m2 < m + 1 ==> (#[trigger] spec_key_entry(members[m2].0@, members[m2].1))->Some_0.0 != entries[i].0 by {
        if entries[i].0 == addr {
            assert(entries[i] == (addr, key_data));
            assert(spec_key_entry(members[m].0@, members[m].1) == Some(key_entry_view(entries[i])));
        } else {
            assert(old_entries[i] == entries[i]);
            let w = choose|w: int|
                0 <= w < m && spec_key_entry(#[trigger] members[w].0@, members[w].1) == Some(key_entry_view(old_entries[i]))
                    && forall|m2: int|
                    w < m2 < m ==> (#[trigger] spec_key_entry(members[m2].0@, members[m2].1))->Some_0.0 != old_entries[i].0;
            assert forall|m2: int|
                w < m2 < m + 1 implies (#[trigger] spec_key_entry(members[m2].0@, members[m2].1))->Some_0.0 != entries[i].0 by {
                if m2 == m {
                    assert(spec_key_entry(members[m2].0@, members[m2].1)->Some_0.0 == addr);
                }
            }
        }
    }
}

/// Each of the first `upto` members of the key map has an entry at its address.
pub open spec fn members_covered(entries: Seq<(u64, KeyData)>, members: Seq<(String, JsonValue)>, upto: int) -> bool {
    forall|m: int|
        #![trigger members[m]]
        0 <= m < upto ==> exists|i: int|
            0 <= i < entries.len() && (#[trigger] entries[i]).0 == spec_key_entry(members[m].0@, members[m].1)->Some_0.0
}

pub open spec fn seq_of(s: &str) -> Seq<char> {
    s@
}

/// The first failing member of the key map from member `m` on, if any.
pub open spec fn members_error(members: Seq<(String, JsonValue)>, m: int) -> Option<(bool, Seq<char>)>
    decreases members.len() - m,
{
    if m < 0 || m >= members.len() {
        None
    } else {
        match spec_key_error(members[m].0@, members[m].1) {
            Some(e) => Some(e),
            None => members_error(members, m + 1),
        }
    }
}

/// The first failure of reading a sidecar, if any: `(true, m)` for a required member
/// `m` that is absent, `(false, m)` for one whose value has the wrong shape. The
/// members are looked at in the order `HEAP_START`, `pointer_byte_size`,
/// `addr_ssh_struct`, `addr_session_state`, `keys`, then the key map's members in
/// their order.
pub open spec fn sidecar_error(json: JsonValue) -> Option<(bool, Seq<char>)> {
    let heap_start = spec_json_get(json, seq_of("HEAP_START"));
    let ptr_size = spec_json_get(json, seq_of("pointer_byte_size"));
    let ssh = spec_json_get(json, seq_of("addr_ssh_struct"));
    let session = spec_json_get(json, seq_of("addr_session_state"));
    let keys = spec_json_get(json, seq_of("keys"));
    if heap_start is None {
        Some((true, seq_of("HEAP_START")))
    } else if spec_json_addr(heap_start->Some_0) is None {
        Some((false, seq_of("HEAP_START")))
    } else if ptr_size is None {
        Some((true, seq_of("pointer_byte_size")))
    } else if spec_json_usize(ptr_size->Some_0) is None {
        Some((false, seq_of("pointer_byte_size")))
    } else if ssh is None {
        Some((true, seq_of("addr_ssh_struct")))
    } else if spec_json_addr(ssh->Some_0) is None {
        Some((false, seq_of("addr_ssh_struct")))
    } else if session is None {
        Some((true, seq_of("addr_session_state")))
    } else if spec_json_addr(session->Some_0) is None {
        Some((false, seq_of("addr_session_state")))
    } else if keys is None {
        Some((true, seq_of("keys")))
    } else if !(keys->Some_0 is Object) {
        Some((false, seq_of("keys")))
    } else {
        members_error(keys->Some_0->Object_0@, 0)
    }
}

fn addr_member(json: &JsonValue, key: &str) -> (r: Result<u64, ErrorKind>)
    ensures
        match r {
            Ok(a) => spec_json_get(*json, key@) is Some && spec_json_addr(spec_json_get(*json, key@)->Some_0) == Some(a),
            Err(e) => spec_json_get(*json, key@) is None && reported_as(e, (true, key@))
                || spec_json_get(*json, key@) is Some && spec_json_addr(spec_json_get(*json, key@)->Some_0) is None
                && reported_as(e, (false, key@)),
        },
{
    let v = match json_value_for_key(json, key) {
        Ok(v) => v,
        Err(e) => {
            return Err(e);
        },
    };
    match json_value_to_addr(v) {
        Some(a) => Ok(a),
        None => Err(ErrorKind::InvalidJsonValue(key.to_owned())),
    }
}

/// Reads the sidecar's key map, member by member; a later member for an address
/// replaces an earlier one.
#[verifier::rlimit(80)]
fn read_key_map(members: &Vec<(String, JsonValue)>) -> (r: Result<Vec<(u64, KeyData)>, ErrorKind>)
    ensures
        r is Ok <==> members_error(members@, 0) is None,
        r matches Err(e) ==> reported_as(e, members_error(members@, 0)->Some_0),
        r matches Ok(entries) ==> keys_unique(entries@) && members_covered(entries@, members@, members@.len() as int)
            && entries_come_from(entries@, members@, members@.len() as int),
{
    let mut addr_to_key_data: Vec<(u64, KeyData)> = Vec::new();
    let mut m: usize = 0;
    while m < members.len()
        invariant
            0 <= m <= members@.len(),
            members_error(members@, 0) == members_error(members@, m as int),
            keys_unique(addr_to_key_data@),
            entries_come_from(addr_to_key_data@, members@, m as int),
            members_covered(addr_to_key_data@, members@, m as int),
        decreases members@.len() - m,
    {
        let (addr, key_data) = match key_entry_from_json(&members[m].0, &members[m].1) {
            Ok(entry) => entry,
            Err(e) => {
                assert(members_error(members@, m as int) == spec_key_error(members@[m as int].0@, members@[m as int].1));
                return Err(e);
            },
        };
        assert(members_error(members@, m as int) == members_error(members@, m + 1));
        let ghost witness = m as int;
        assert(spec_key_entry(members@[witness].0@, members@[witness].1) == Some(key_entry_view((addr, key_data))));
        let mut p: usize = 0;
        let mut found = false;
        while p < addr_to_key_data.len() && !found
            invariant
                0 <= p <= addr_to_key_data@.len(),
                !found ==> forall|i: int| 0 <= i < p ==> (#[trigger] addr_to_key_data@[i]).0 != addr,
                found ==> p > 0 && addr_to_key_data@[p - 1].0 == addr,
            decreases addr_to_key_data@.len() - p + (if found { 0int } else { 1int }),
        {
            if addr_to_key_data[p].0 == addr {
                found = true;
            }
            p = p + 1;
        }
        let ghost old_entries = addr_to_key_data@;
        if found {
            addr_to_key_data.set(p - 1, (addr, key_data));
        } else {
            addr_to_key_data.push((addr, key_data));
        }
        proof {
            lemma_upsert_keeps_provenance(old_entries, addr_to_key_data@, members@, m as int, addr, key_data, found, p as int - 1);
            assert forall|m2: int|
                #![trigger members@[m2]]
                0 <= m2 < m + 1 implies exists|i: int|
                    0 <= i < addr_to_key_data@.len() && (#[trigger] addr_to_key_data@[i]).0 == spec_key_entry(members@[m2].0@, members@[m2].1)->Some_0.0 by {
                if m2 < m {
                    let i = choose|i: int|
                        0 <= i < old_entries.len() && (#[trigger] old_entries[i]).0 == spec_key_entry(members@[m2].0@, members@[m2].1)->Some_0.0;
                    assert(addr_to_key_data@[i].0 == old_entries[i].0);
                } else if found {
                    assert(addr_to_key_data@[p - 1].0 == addr);
                } else {
                    assert(addr_to_key_data@[old_entries.len() as int].0 == addr);
                }
            }
        }
        m = m + 1;
    }
    Ok(addr_to_key_data)
}

impl HeapDumpData {
    /// Reads the sidecar of a dump of `dump_len` bytes. The members `HEAP_START`,
    /// `pointer_byte_size`, `addr_ssh_struct`, `addr_session_state` and `keys` are
    /// required; `keys` maps each key's address, in hexadecimal, to an object with
    /// `name`, `len` and `key` (hexadecimal bytes). A later member of `keys` for an
    /// address replaces an earlier one.
    pub fn from_json(json: &JsonValue, pointer_byte_size: usize, dump_len: usize) -> (r: Result<HeapDumpData, ErrorKind>)
        ensures
            r is Ok <==> sidecar_error(*json) is None && dump_len >= 1
                && spec_json_addr(spec_json_get(*json, seq_of("HEAP_START"))->Some_0)->Some_0 + dump_len - 1 <= u64::MAX,
            sidecar_error(*json) is Some ==> r is Err && reported_as(r->Err_0, sidecar_error(*json)->Some_0),
            sidecar_error(*json) is None && !(r is Ok) ==> r == Err::<HeapDumpData, ErrorKind>(ErrorKind::InvalidHeapDump),
            r is Ok ==> r->Ok_0.min_addr == spec_json_addr(spec_json_get(*json, seq_of("HEAP_START"))->Some_0)->Some_0,
            r is Ok ==> r->Ok_0.max_addr == r->Ok_0.min_addr + dump_len - 1,
            r is Ok ==> r->Ok_0.block_size == pointer_byte_size,
            r is Ok ==> r->Ok_0.addr_ssh_struct == spec_json_addr(spec_json_get(*json, seq_of("addr_ssh_struct"))->Some_0)->Some_0,
            r is Ok ==> r->Ok_0.addr_session_state == spec_json_addr(spec_json_get(*json, seq_of("addr_session_state"))->Some_0)->Some_0,
            r is Ok ==> keys_unique(r->Ok_0.addr_to_key_data@),
            r is Ok ==> members_covered(
                r->Ok_0.addr_to_key_data@,
                spec_json_get(*json, seq_of("keys"))->Some_0->Object_0@,
                spec_json_get(*json, seq_of("keys"))->Some_0->Object_0@.len() as int,
            ),
            r is Ok ==> entries_come_from(
                r->Ok_0.addr_to_key_data@,
                spec_json_get(*json, seq_of("keys"))->Some_0->Object_0@,
                spec_json_get(*json, seq_of("keys"))->Some_0->Object_0@.len() as int,
            ),
    {
        let min_addr = match addr_member(json, "HEAP_START") {
            Ok(a) => a,
            Err(e) => {
                return Err(e);
            },
        };
        match json_value_for_key(json, "pointer_byte_size") {
            Ok(v) => match json_value_to_usize(v) {
                Some(_) => {},
                None => {
                    return Err(ErrorKind::InvalidJsonValue("pointer_byte_size".to_owned()));
                },
            },
            Err(e) => {
                return Err(e);
            },
        }
        let addr_ssh_struct = match addr_member(json, "addr_ssh_struct") {
            Ok(a) => a,
            Err(e) => {
                return Err(e);
            },
        };
        let addr_session_state = match addr_member(json, "addr_session_state") {
            Ok(a) => a,
            Err(e) => {
                return Err(e);
            },
        };
        let members = match json_value_for_key(json, "keys") {
            Ok(JsonValue::Object(members)) => members,
            Ok(_) => {
                return Err(ErrorKind::InvalidJsonValue("keys".to_owned()));
            },
            Err(e) => {
                return Err(e);
            },
        };
        assert(spec_json_get(*json, seq_of("keys"))->Some_0->Object_0@ == members@);
        assert(sidecar_error(*json) == members_error(members@, 0));
        let addr_to_key_data = match read_key_map(members) {
            Ok(entries) => entries,
            Err(e) => {
                return Err(e);
            },
        };
        if dump_len == 0 || dump_len as u64 - 1 > u64::MAX - min_addr {
            return Err(ErrorKind::InvalidHeapDump);
        }
        let d = HeapDumpData {
            min_addr,
            max_addr: min_addr + (dump_len as u64 - 1),
            block_size: pointer_byte_size,
            addr_ssh_struct,
            addr_session_state,
            addr_to_key_data,
        };
        assert(entries_come_from(addr_to_key_data@, members@, members@.len() as int));
        assert(members_covered(addr_to_key_data@, members@, members@.len() as int));
        Ok(d)
    }
}

/// The eight bytes of block `k` of a dump.
pub open spec fn block_of(bytes: Seq<u8>, k: int) -> Seq<u8> {
    bytes.subrange(8 * k, 8 * k + 8)
}

/// Size in bytes of the allocation whose malloc header is block `k`: the header's
/// little-endian value without its three flag bits.
pub open spec fn chunk_size(bytes: Seq<u8>, k: int) -> int {
    let v = le_u64(block_of(bytes, k));
    v - v % 8
}

pub open spec fn chunk_blocks(bytes: Seq<u8>, k: int) -> int {
    chunk_size(bytes, k) / 8
}

/// Whether block `k` is a malloc header of the chain of allocations that starts at
/// block `i` of a dump of `n` blocks. The chain stops at a zero size or at an
/// allocation that would run past the end of the dump.
pub open spec fn is_header_from(bytes: Seq<u8>, n: int, i: int, k: int) -> bool
    decreases n - i,
{
    if i < 0 || i >= n || chunk_blocks(bytes, i) <= 0 || i + chunk_blocks(bytes, i) > n {
        false
    } else if k == i {
        true
    } else {
        is_header_from(bytes, n, i + chunk_blocks(bytes, i), k)
    }
}

/// Whether block `k` of the dump is a malloc header, walking from the first block.
pub open spec fn is_header(bytes: Seq<u8>, k: int) -> bool {
    is_header_from(bytes, (bytes.len() / 8) as int, 0, k)
}

/// A payload node read from block `k` of the dump, in the allocation at `dtn_addr`.
pub open spec fn node_matches_block(
    node: Node,
    bytes: Seq<u8>,
    k: int,
    addr: u64,
    dtn_addr: u64,
    min_addr: u64,
    max_addr: u64,
) -> bool {
    match spec_pointer_of(block_of(bytes, k), min_addr, max_addr) {
        Some(p) => node == Node::PointerNode(
            crate::graph_structs::PointerNode::BasePointerNode(
                crate::graph_structs::BasePointerNode { addr, points_to: p, dtn_addr },
            ),
        ),
        None => node is ValueNode && node->ValueNode_0 is BaseValueNode && ({
            let v = node->ValueNode_0->BaseValueNode_0;
            v.addr == addr && v.value@ == block_of(bytes, k) && v.dtn_addr == dtn_addr
        }),
    }
}

pub open spec fn slot_is_dtn(nodes: Seq<Option<Node>>, j: int) -> bool {
    0 <= j < nodes.len() && nodes[j] is Some && nodes[j]->Some_0 is DataStructureNode
}

pub open spec fn slot_dtn(nodes: Seq<Option<Node>>, j: int) -> DataStructureNode {
    nodes[j]->Some_0->DataStructureNode_0
}

/// Whether the allocation at address `d` exists and covers block `k`.
pub open spec fn dtn_covers(nodes: Seq<Option<Node>>, min_addr: u64, d: u64, k: int) -> bool {
    let j = (d - min_addr) / 8;
    &&& min_addr <= d
    &&& (d - min_addr) % 8 == 0
    &&& slot_is_dtn(nodes, j)
    &&& j <= k < j + slot_dtn(nodes, j).byte_size / 8
}

#[verifier::opaque]
/// The invariants of a memory graph whose slot `k` holds the node at
/// `min_addr + 8 * k`, and `block_dtn[k]` the allocation that covers that block.
pub open spec fn graph_wf(
    min_addr: u64,
    max_addr: u64,
    nodes: Seq<Option<Node>>,
    block_dtn: Seq<Option<u64>>,
) -> bool {
    &&& nodes.len() == block_dtn.len()
    &&& min_addr + 8 * nodes.len() <= max_addr + 1
    &&& forall|k: int|
        #![trigger nodes[k]]
        0 <= k < nodes.len() && nodes[k] is Some ==> {
            let node = nodes[k]->Some_0;
            &&& node.spec_addr() == min_addr + 8 * k
            &&& !(node is DataStructureNode) ==> block_dtn[k] == node.spec_dtn_addr()
            &&& node is DataStructureNode ==> block_dtn[k] == Some(node.spec_addr())
            &&& node is PointerNode ==> min_addr <= node.spec_points_to()->Some_0 <= max_addr
        }
    &&& forall|k: int|
        #![trigger block_dtn[k]]
        0 <= k < block_dtn.len() && block_dtn[k] is Some ==> dtn_covers(
            nodes,
            min_addr,
            block_dtn[k]->Some_0,
            k,
        )
    &&& forall|j: int|
        #![trigger slot_dtn(nodes, j)]
        slot_is_dtn(nodes, j) ==> {
            let d = slot_dtn(nodes, j);
            &&& d.byte_size % 8 == 0
            &&& d.byte_size / 8 >= 1
            &&& j + d.byte_size / 8 <= nodes.len()
            &&& d.nb_pointer_nodes + d.nb_value_nodes == d.byte_size / 8 - 1
        }
    &&& forall|j: int, k: int|
        #![trigger slot_dtn(nodes, j), block_dtn[k]]
        slot_is_dtn(nodes, j) && j <= k < j + slot_dtn(nodes, j).byte_size / 8 ==> block_dtn[k] == Some(
            (min_addr + 8 * j) as u64,
        )
}

/// Addresses of the payload blocks among `0..upto` that read as values, ascending.
pub open spec fn value_addrs_upto(
    bytes: Seq<u8>,
    nodes: Seq<Option<Node>>,
    block_dtn: Seq<Option<u64>>,
    min_addr: u64,
    max_addr: u64,
    upto: int,
) -> Seq<u64>
    decreases upto,
{
    if upto <= 0 {
        seq![]
    } else {
        let k = upto - 1;
        let prev = value_addrs_upto(bytes, nodes, block_dtn, min_addr, max_addr, k);
        if block_dtn[k] is Some && !slot_is_dtn(nodes, k) && spec_pointer_of(block_of(bytes, k), min_addr, max_addr) is None {
            prev.push((min_addr + 8 * k) as u64)
        } else {
            prev
        }
    }
}

fn value_addrs_of(
    dump: &Vec<u8>,
    nodes: &Vec<Option<Node>>,
    block_dtn: &Vec<Option<u64>>,
    min_addr: u64,
    max_addr: u64,
) -> (r: Vec<u64>)
    requires
        nodes@.len() == block_dtn@.len(),
        8 * nodes@.len() <= dump@.len(),
        min_addr + 8 * nodes@.len() <= u64::MAX + 1,
    ensures
        r@ == value_addrs_upto(dump@, nodes@, block_dtn@, min_addr, max_addr, nodes@.len() as int),
{
    let mut r: Vec<u64> = Vec::new();
    let mut k: usize = 0;
    while k < nodes.len()
        invariant
            0 <= k <= nodes@.len(),
            nodes@.len() == block_dtn@.len(),
            8 * nodes@.len() <= dump@.len(),
            min_addr + 8 * nodes@.len() <= u64::MAX + 1,
            r@ == value_addrs_upto(dump@, nodes@, block_dtn@, min_addr, max_addr, k as int),
        decreases nodes@.len() - k,
    {
        let is_dtn = match &nodes[k] {
            Some(Node::DataStructureNode(_)) => true,
            _ => false,
        };
        if block_dtn[k].is_some() && !is_dtn {
            let block = block_at(dump, k);
            if convert_block_to_pointer_if_possible(block.as_slice(), min_addr, max_addr).is_none() {
                r.push(index_to_addr(k, min_addr, 8));
            }
        }
        k = k + 1;
    }
    r
}

/// The eight bytes of block `k`.
fn block_at(dump: &Vec<u8>, k: usize) -> (r: [u8; 8])
    requires
        8 * k + 8 <= dump@.len(),
    ensures
        r@ == block_of(dump@, k as int),
{
    let len = dump.len();
    let o = 8 * k;
    let r = [
        dump[o],
        dump[o + 1],
        dump[o + 2],
        dump[o + 3],
        dump[o + 4],
        dump[o + 5],
        dump[o + 6],
        dump[o + 7],
    ];
    assert(r@ =~= block_of(dump@, k as int));
    r
}

/// Number of blocks among `from..to` of the dump that read as pointers (`pointer`)
/// or as values.
pub open spec fn count_blocks(bytes: Seq<u8>, min_addr: u64, max_addr: u64, from: int, to: int, pointer: bool) -> nat
    decreases to - from,
{
    if to <= from {
        0
    } else {
        count_blocks(bytes, min_addr, max_addr, from, to - 1, pointer) + if (spec_pointer_of(
            block_of(bytes, to - 1),
            min_addr,
            max_addr,
        ) is Some) == pointer {
            1nat
        } else {
            0nat
        }
    }
}

/// The slots, block map and value addresses that the builder makes of a dump: an
/// allocation for each header of the chain, of the header's size, with its payload
/// counted by kind; a pointer or value node read from each payload block (value nodes
/// left out when `without_value_nodes` is set); nothing elsewhere; and the addresses
/// of the value blocks, ascending.
pub open spec fn built_from(
    dump: Seq<u8>,
    d: HeapDumpData,
    without_value_nodes: bool,
    nodes: Seq<Option<Node>>,
    block_dtn: Seq<Option<u64>>,
    value_node_addrs: Seq<u64>,
) -> bool {
    let mn = d.min_addr;
    let mx = d.max_addr;
    &&& nodes.len() == dump.len() / 8
    &&& nodes.len() == block_dtn.len()
    &&& forall|k: int| 0 <= k < nodes.len() ==> (slot_is_dtn(nodes, k) <==> is_header(dump, k))
    &&& forall|k: int|
        #![trigger slot_dtn(nodes, k)]
        slot_is_dtn(nodes, k) ==> {
            let t = slot_dtn(nodes, k);
            &&& t.byte_size == chunk_size(dump, k)
            &&& t.dtn_type == DtnTypes::Unknown
            &&& t.nb_pointer_nodes == count_blocks(dump, mn, mx, k + 1, k + t.byte_size / 8, true)
            &&& t.nb_value_nodes == count_blocks(dump, mn, mx, k + 1, k + t.byte_size / 8, false)
        }
    &&& forall|k: int|
        #![trigger block_dtn[k]]
        0 <= k < nodes.len() && block_dtn[k] is Some && !slot_is_dtn(nodes, k) ==> {
            let class = spec_pointer_of(block_of(dump, k), mn, mx);
            if without_value_nodes && class is None {
                nodes[k] is None
            } else {
                nodes[k] is Some && node_matches_block(nodes[k]->Some_0, dump, k, (mn + 8 * k) as u64, block_dtn[k]->Some_0, mn, mx)
            }
        }
    &&& forall|k: int| 0 <= k < nodes.len() && block_dtn[k] is None ==> nodes[k] is None
    &&& value_node_addrs == value_addrs_upto(dump, nodes, block_dtn, mn, mx, nodes.len() as int)
}

/// The memory graph of one heap dump. Slot `k` of `nodes` holds the node at address
/// `min_addr + 8 * k`, if any; slot `k` of `block_dtn` the allocation that holds it.
#[derive(Debug, Clone)]
pub struct GraphData {
    pub heap_dump_data: HeapDumpData,
    pub nodes: Vec<Option<Node>>,
    pub block_dtn: Vec<Option<u64>>,
    pub value_node_addrs: Vec<u64>,
    pub special_node_to_annotation: Vec<SpecialNodeAnnotation>,
    pub without_value_nodes: bool,
}

impl GraphData {
    pub open spec fn wf(&self) -> bool {
        &&& self.heap_dump_data.block_size == 8
        &&& graph_wf(
            self.heap_dump_data.min_addr,
            self.heap_dump_data.max_addr,
            self.nodes@,
            self.block_dtn@,
        )
    }

    /// Walks the dump from its first block, one allocation at a time, and makes an
    /// allocation node for each malloc header and a pointer or value node for each of
    /// its payload blocks. Value nodes are left out of `nodes` when
    /// `without_value_nodes` is set; their addresses are kept in `value_node_addrs`.
    #[verifier::rlimit(80)]
    pub fn new(dump: &Vec<u8>, heap_dump_data: HeapDumpData, without_value_nodes: bool) -> (r:
        GraphData)
        requires
            heap_dump_data.block_size == 8,
            dump@.len() >= 1,
            heap_dump_data.max_addr == heap_dump_data.min_addr + dump@.len() - 1,
        ensures
            r.wf(),
            r.heap_dump_data == heap_dump_data,
            r.without_value_nodes == without_value_nodes,
            r.special_node_to_annotation@.len() == 0,
            built_from(dump@, heap_dump_data, without_value_nodes, r.nodes@, r.block_dtn@, r.value_node_addrs@),
    {
        reveal(graph_wf);
        let mn = heap_dump_data.min_addr;
        let mx = heap_dump_data.max_addr;
        let len = dump.len();
        let n = len / 8;
        let mut nodes: Vec<Option<Node>> = Vec::new();
        let mut block_dtn: Vec<Option<u64>> = Vec::new();
        let mut i: usize = 0;
        let mut done = false;
        while i < n && !done
            invariant
                nodes@.len() == i,
                i <= n,
                n == dump@.len() / 8,
                len == dump@.len(),
                mn == heap_dump_data.min_addr,
                mx == heap_dump_data.max_addr,
                mx == mn + dump@.len() - 1,
                graph_wf(mn, mx, nodes@, block_dtn@),
                forall|k: int| 0 <= k < i ==> (slot_is_dtn(nodes@, k) <==> is_header(dump@, k)),
                forall|k: int|
                    #![trigger slot_dtn(nodes@, k)]
                    slot_is_dtn(nodes@, k) ==> slot_dtn(nodes@, k).byte_size == chunk_size(dump@, k)
                        && slot_dtn(nodes@, k).dtn_type == DtnTypes::Unknown
                        && slot_dtn(nodes@, k).nb_pointer_nodes == count_blocks(dump@, mn, mx, k + 1, k + slot_dtn(nodes@, k).byte_size / 8, true)
                        && slot_dtn(nodes@, k).nb_value_nodes == count_blocks(dump@, mn, mx, k + 1, k + slot_dtn(nodes@, k).byte_size / 8, false),
                forall|k: int|
                    #![trigger block_dtn@[k]]
                    0 <= k < i && block_dtn@[k] is Some && !slot_is_dtn(nodes@, k) ==> {
                        let d = block_dtn@[k]->Some_0;
                        let class = spec_pointer_of(block_of(dump@, k), mn, mx);
                        if without_value_nodes && class is None {
                            nodes@[k] is None
                        } else {
                            nodes@[k] is Some && node_matches_block(nodes@[k]->Some_0, dump@, k, (mn + 8 * k) as u64, d, mn, mx)
                        }
                    },
                forall|k: int| 0 <= k < i && block_dtn@[k] is None ==> nodes@[k] is None,
                !done ==> forall|k: int| #![trigger is_header(dump@, k)] i <= k ==> is_header(dump@, k) == is_header_from(dump@, n as int, i as int, k),
                done ==> forall|k: int| #![trigger is_header(dump@, k)] i <= k ==> !is_header(dump@, k),
            decreases n - i + (if done { 0int } else { 1int }),
        {
            reveal(graph_wf);
            let header = block_at(dump, i);
            let raw = block_bytes_to_addr(&header, Endianness::Little);
            let size = raw & !7u64;
            assert(raw & !7u64 == raw - raw % 8) by (bit_vector);
            let blocks = size / 8;
            assert(size % 8 == 0);
            assert(size == 8 * blocks);
            if blocks == 0 || blocks > (n - i) as u64 {
                done = true;
                assert(!is_header_from(dump@, n as int, i as int, i as int));
            } else {
                let nb = blocks as usize;
                let dtn_addr = index_to_addr(i, mn, 8);
                let ghost prefix = nodes@;
                let ghost prefix_dtn = block_dtn@;
                nodes.push(None);
                block_dtn.push(Some(dtn_addr));
                let mut nb_pointer_nodes: usize = 0;
                let mut nb_value_nodes: usize = 0;
                let end = i + nb;
                let mut k = i + 1;
                while k < end
                    invariant
                        i < k <= end,
                        end == i + nb,
                        nb == blocks,
                        size == 8 * blocks,
                        8 * n <= dump@.len(),
                        len == dump@.len(),
                        end <= n,
                        n == dump@.len() / 8,
                        mx == mn + dump@.len() - 1,
                        dtn_addr == mn + 8 * i,
                        nodes@.len() == k,
                        block_dtn@.len() == k,
                        nodes@.subrange(0, i as int) == prefix,
                        block_dtn@.subrange(0, i as int) == prefix_dtn,
                        nodes@[i as int] is None,
                        block_dtn@[i as int] == Some(dtn_addr),
                        nb_pointer_nodes + nb_value_nodes == k - i - 1,
                        nb_pointer_nodes == count_blocks(dump@, mn, mx, i + 1, k as int, true),
                        nb_value_nodes == count_blocks(dump@, mn, mx, i + 1, k as int, false),
                        forall|m: int|
                            #![trigger block_dtn@[m]]
                            i < m < k ==> block_dtn@[m] == Some(dtn_addr) && {
                                let class = spec_pointer_of(block_of(dump@, m), mn, mx);
                                if without_value_nodes && class is None {
                                    nodes@[m] is None
                                } else {
                                    nodes@[m] is Some && node_matches_block(nodes@[m]->Some_0, dump@, m, (mn + 8 * m) as u64, dtn_addr, mn, mx)
                                }
                            },
                    decreases end - k,
                {
                    let ghost old_nodes = nodes@;
                    let ghost old_dtn = block_dtn@;
                    let block = block_at(dump, k);
                    let addr = index_to_addr(k, mn, 8);
                    let node = create_node_from_bytes(&block, addr, dtn_addr, mn, mx);
                    if node.is_pointer() {
                        nb_pointer_nodes = nb_pointer_nodes + 1;
                        nodes.push(Some(node));
                    } else {
                        nb_value_nodes = nb_value_nodes + 1;
                        if without_value_nodes {
                            nodes.push(None);
                        } else {
                            nodes.push(Some(node));
                        }
                    }
                    block_dtn.push(Some(dtn_addr));
                    proof {
                        assert forall|m: int| 0 <= m < k implies nodes@[m] == old_nodes[m] && block_dtn@[m] == old_dtn[m] by {}
                        assert(nodes@.subrange(0, i as int) =~= old_nodes.subrange(0, i as int));
                        assert(block_dtn@.subrange(0, i as int) =~= old_dtn.subrange(0, i as int));
                        assert(block@ == block_of(dump@, k as int));
                    }
                    k = k + 1;
                }
                assert(size <= len);
                let dtn = DataStructureNode {
                    addr: dtn_addr,
                    byte_size: size as usize,
                    nb_pointer_nodes,
                    nb_value_nodes,
                    dtn_type: DtnTypes::Unknown,
                };
                let ghost inner_nodes = nodes@;
                nodes.set(i, Some(Node::DataStructureNode(dtn)));
                proof {
                    assert forall|m: int| 0 <= m < end && m != i implies nodes@[m] == inner_nodes[m] by {}
                    assert(slot_is_dtn(nodes@, i as int));
                    assert(slot_dtn(nodes@, i as int) == dtn);
                    assert(dtn.byte_size / 8 == nb);
                    assert(chunk_size(dump@, i as int) == size);
                    assert(chunk_blocks(dump@, i as int) == nb);
                    assert(is_header_from(dump@, n as int, i as int, i as int));
                    assert forall|k: int| 0 <= k < i implies nodes@[k] == prefix[k] && block_dtn@[k] == prefix_dtn[k] by {
                        assert(nodes@[k] == nodes@.subrange(0, i as int)[k]);
                        assert(block_dtn@[k] == block_dtn@.subrange(0, i as int)[k]);
                    }
                    assert forall|k: int| i < k < end implies !is_header(dump@, k) by {
                        if is_header_from(dump@, n as int, end as int, k) {
                            lemma_header_from_ge(dump@, n as int, end as int, k);
                        }
                    }
                    assert forall|k: int| #![trigger is_header(dump@, k)] end <= k implies is_header(dump@, k) == is_header_from(dump@, n as int, end as int, k) by {
                    }
                    assert forall|k: int|
                        #![trigger block_dtn@[k]]
                        0 <= k < block_dtn@.len() && block_dtn@[k] is Some implies dtn_covers(nodes@, mn, block_dtn@[k]->Some_0, k) by {
                        if k < i {
                            assert(prefix_dtn[k] is Some);
                            assert(dtn_covers(prefix, mn, prefix_dtn[k]->Some_0, k));
                            let j = (prefix_dtn[k]->Some_0 - mn) / 8;
                            assert(nodes@[j] == prefix[j]);
                        } else {
                            assert(block_dtn@[k] == Some(dtn_addr));
                            assert((dtn_addr - mn) / 8 == i);
                        }
                    }
                    assert forall|k: int|
                        #![trigger nodes@[k]]
                        0 <= k < nodes@.len() && nodes@[k] is Some implies ({
                            let node = nodes@[k]->Some_0;
                            &&& node.spec_addr() == mn + 8 * k
                            &&& !(node is DataStructureNode) ==> block_dtn@[k] == node.spec_dtn_addr()
                            &&& node is DataStructureNode ==> block_dtn@[k] == Some(node.spec_addr())
                            &&& node is PointerNode ==> mn <= node.spec_points_to()->Some_0 <= mx
                        }) by {
                        if k < i {
                            assert(prefix[k] is Some);
                        } else if k > i {
                            assert(block_dtn@[k] == Some(dtn_addr));
                        }
                    }
                    assert forall|j: int|
                        #![trigger slot_dtn(nodes@, j)]
                        slot_is_dtn(nodes@, j) implies ({
                            let d = slot_dtn(nodes@, j);
                            &&& d.byte_size % 8 == 0
                            &&& d.byte_size / 8 >= 1
                            &&& j + d.byte_size / 8 <= nodes@.len()
                            &&& d.nb_pointer_nodes + d.nb_value_nodes == d.byte_size / 8 - 1
                            &&& d.byte_size == chunk_size(dump@, j)
                            &&& d.dtn_type == DtnTypes::Unknown
                            &&& d.nb_pointer_nodes == count_blocks(dump@, mn, mx, j + 1, j + d.byte_size / 8, true)
                            &&& d.nb_value_nodes == count_blocks(dump@, mn, mx, j + 1, j + d.byte_size / 8, false)
                        }) by {
                        if j < i {
                            assert(slot_is_dtn(prefix, j));
                            assert(slot_dtn(prefix, j) == slot_dtn(nodes@, j));
                        } else if j > i {
                            assert(block_dtn@[j] == Some(dtn_addr));
                        }
                    }
                    assert forall|j: int, k: int|
                        #![trigger slot_dtn(nodes@, j), block_dtn@[k]]
                        slot_is_dtn(nodes@, j) && j <= k < j + slot_dtn(nodes@, j).byte_size / 8 implies block_dtn@[k] == Some(
                            (mn + 8 * j) as u64,
                        ) by {
                        if j < i {
                            assert(slot_is_dtn(prefix, j));
                            assert(slot_dtn(prefix, j) == slot_dtn(nodes@, j));
                            assert(block_dtn@[k] == prefix_dtn[k]);
                        } else if j > i {
                            assert(block_dtn@[j] == Some(dtn_addr));
                        }
                    }
                    assert(graph_wf(mn, mx, nodes@, block_dtn@));
                    assert forall|k: int| 0 <= k < end implies (slot_is_dtn(nodes@, k) <==> is_header(dump@, k)) by {
                        if k < i {
                            assert(slot_is_dtn(prefix, k) == slot_is_dtn(nodes@, k));
                        }
                    }
                    assert forall|k: int|
                        #![trigger block_dtn@[k]]
                        0 <= k < end && block_dtn@[k] is Some && !slot_is_dtn(nodes@, k) implies ({
                            let d = block_dtn@[k]->Some_0;
                            let class = spec_pointer_of(block_of(dump@, k), mn, mx);
                            if without_value_nodes && class is None {
                                nodes@[k] is None
                            } else {
                                nodes@[k] is Some && node_matches_block(nodes@[k]->Some_0, dump@, k, (mn + 8 * k) as u64, d, mn, mx)
                            }
                        }) by {
                        if k < i {
                            assert(slot_is_dtn(prefix, k) == slot_is_dtn(nodes@, k));
                            assert(prefix_dtn[k] is Some);
                        }
                    }
                }
                i = end;
            }
        }
        let ghost stop = i;
        assert forall|k: int| #![trigger is_header(dump@, k)] stop <= k implies !is_header(dump@, k) by {
            if !done {
                assert(!is_header_from(dump@, n as int, i as int, k));
            }
        }
        while i < n
            invariant
                nodes@.len() == i,
                block_dtn@.len() == i,
                stop <= i <= n,
                n == dump@.len() / 8,
                mx == mn + dump@.len() - 1,
                graph_wf(mn, mx, nodes@, block_dtn@),
                forall|k: int| 0 <= k < stop ==> (slot_is_dtn(nodes@, k) <==> is_header(dump@, k)),
                forall|k: int| stop <= k < i ==> nodes@[k] is None && block_dtn@[k] is None,
                forall|k: int| #![trigger is_header(dump@, k)] stop <= k ==> !is_header(dump@, k),
                forall|k: int|
                    #![trigger slot_dtn(nodes@, k)]
                    slot_is_dtn(nodes@, k) ==> slot_dtn(nodes@, k).byte_size == chunk_size(dump@, k)
                        && slot_dtn(nodes@, k).dtn_type == DtnTypes::Unknown
                        && slot_dtn(nodes@, k).nb_pointer_nodes == count_blocks(dump@, mn, mx, k + 1, k + slot_dtn(nodes@, k).byte_size / 8, true)
                        && slot_dtn(nodes@, k).nb_value_nodes == count_blocks(dump@, mn, mx, k + 1, k + slot_dtn(nodes@, k).byte_size / 8, false),
                forall|k: int|
                    #![trigger block_dtn@[k]]
                    0 <= k < stop && block_dtn@[k] is Some && !slot_is_dtn(nodes@, k) ==> {
                        let d = block_dtn@[k]->Some_0;
                        let class = spec_pointer_of(block_of(dump@, k), mn, mx);
                        if without_value_nodes && class is None {
                            nodes@[k] is None
                        } else {
                            nodes@[k] is Some && node_matches_block(nodes@[k]->Some_0, dump@, k, (mn + 8 * k) as u64, d, mn, mx)
                        }
                    },
                forall|k: int| 0 <= k < stop && block_dtn@[k] is None ==> nodes@[k] is None,
            decreases n - i,
        {
            reveal(graph_wf);
            let ghost old_nodes = nodes@;
            let ghost old_dtn = block_dtn@;
            nodes.push(None);
            block_dtn.push(None);
            proof {
                assert forall|k: int| 0 <= k < i implies nodes@[k] == old_nodes[k] && block_dtn@[k] == old_dtn[k] by {}
                assert forall|j: int| slot_is_dtn(nodes@, j) <==> slot_is_dtn(old_nodes, j) by {}
                assert forall|j: int| #![trigger slot_dtn(nodes@, j)] slot_is_dtn(nodes@, j) ==> slot_dtn(nodes@, j) == slot_dtn(old_nodes, j) by {}
                assert forall|j: int, k: int|
                    #![trigger slot_dtn(nodes@, j), block_dtn@[k]]
                    slot_is_dtn(nodes@, j) && j <= k < j + slot_dtn(nodes@, j).byte_size / 8 implies block_dtn@[k] == Some(
                        (mn + 8 * j) as u64,
                    ) by {
                    assert(slot_is_dtn(old_nodes, j));
                    assert(block_dtn@[k] == old_dtn[k]);
                }
                assert forall|k: int|
                    #![trigger block_dtn@[k]]
                    0 <= k < block_dtn@.len() && block_dtn@[k] is Some implies dtn_covers(nodes@, mn, block_dtn@[k]->Some_0, k) by {
                    assert(dtn_covers(old_nodes, mn, old_dtn[k]->Some_0, k));
                }
            }
            i = i + 1;
        }
        let value_node_addrs = value_addrs_of(dump, &nodes, &block_dtn, mn, mx);
        GraphData {
            heap_dump_data,
            nodes,
            block_dtn,
            value_node_addrs,
            special_node_to_annotation: Vec::new(),
            without_value_nodes,
        }
    }
}

/// The node at address `a`, if `a` is a block of the graph that holds one.
pub open spec fn slot_at(nodes: Seq<Option<Node>>, min_addr: u64, a: int) -> Option<Node> {
    if min_addr <= a && (a - min_addr) % 8 == 0 && (a - min_addr) / 8 < nodes.len() {
        nodes[(a - min_addr) / 8]
    } else {
        None
    }
}

impl GraphData {
    pub open spec fn spec_node_at(&self, a: int) -> Option<Node> {
        slot_at(self.nodes@, self.heap_dump_data.min_addr, a)
    }

    /// The node at address `addr`.
    pub fn get_node(&self, addr: u64) -> (r: Option<&Node>)
        ensures
            match r {
                Some(n) => self.spec_node_at(addr as int) == Some(*n),
                None => self.spec_node_at(addr as int) is None,
            },
    {
        crate::graph_annotate::node_at(&self.nodes, self.heap_dump_data.min_addr, addr)
    }

    /// The allocation that holds the block at address `addr`.
    pub fn get_parent_dtn_addr(&self, addr: u64) -> (r: Option<u64>)
        ensures
            r == (if self.heap_dump_data.min_addr <= addr && (addr - self.heap_dump_data.min_addr)
                / 8 < self.block_dtn@.len() {
                self.block_dtn@[(addr - self.heap_dump_data.min_addr) / 8]
            } else {
                None
            }),
    {
        let mn = self.heap_dump_data.min_addr;
        if addr < mn {
            return None;
        }
        let q = (addr - mn) / 8;
        if q >= self.block_dtn.len() as u64 {
            return None;
        }
        self.block_dtn[q as usize]
    }
}

/// What the invariants say of the node in slot `k`.
pub proof fn lemma_wf_slot(g: GraphData, k: int)
    requires
        g.wf(),
    ensures
        g.nodes@.len() == g.block_dtn@.len(),
        g.heap_dump_data.min_addr + 8 * g.nodes@.len() <= g.heap_dump_data.max_addr + 1,
        0 <= k < g.nodes@.len() && g.nodes@[k] is Some ==> {
            let node = g.nodes@[k]->Some_0;
            &&& node.spec_addr() == g.heap_dump_data.min_addr + 8 * k
            &&& !(node is DataStructureNode) ==> g.block_dtn@[k] == node.spec_dtn_addr()
                && dtn_covers(g.nodes@, g.heap_dump_data.min_addr, node.spec_dtn_addr()->Some_0, k)
        },
{
    reveal(graph_wf);
}

/// What the invariants say of the allocation recorded for block `k`.
pub proof fn lemma_wf_block(g: GraphData, k: int)
    requires
        g.wf(),
        0 <= k < g.block_dtn@.len(),
        g.block_dtn@[k] is Some,
    ensures
        dtn_covers(g.nodes@, g.heap_dump_data.min_addr, g.block_dtn@[k]->Some_0, k),
        g.nodes@.len() == g.block_dtn@.len(),
{
    reveal(graph_wf);
}

/// Allocations do not overlap: each block lies in at most one of them.
pub proof fn lemma_dtns_disjoint(g: GraphData, j1: int, j2: int)
    requires
        g.wf(),
        slot_is_dtn(g.nodes@, j1),
        slot_is_dtn(g.nodes@, j2),
        j1 < j2,
    ensures
        j1 + slot_dtn(g.nodes@, j1).byte_size / 8 <= j2,
{
    reveal(graph_wf);
    let mn = g.heap_dump_data.min_addr;
    if j2 < j1 + slot_dtn(g.nodes@, j1).byte_size / 8 {
        assert(g.block_dtn@[j2] == Some((mn + 8 * j1) as u64));
        assert(g.nodes@[j2] is Some);
        assert(g.block_dtn@[j2] == Some(g.nodes@[j2]->Some_0.spec_addr()));
    }
}

/// Every pointer or value node lies inside the allocation it names, and that allocation
/// exists in the graph.
pub proof fn lemma_node_inside_its_dtn(g: GraphData, k: int)
    requires
        g.wf(),
        0 <= k < g.nodes@.len(),
        g.nodes@[k] is Some,
        !(g.nodes@[k]->Some_0 is DataStructureNode),
    ensures
        ({
            let node = g.nodes@[k]->Some_0;
            let d = node.spec_dtn_addr()->Some_0;
            let dtn = g.spec_node_at(d as int);
            &&& dtn is Some
            &&& dtn->Some_0 is DataStructureNode
            &&& d <= node.spec_addr() < d + dtn->Some_0->DataStructureNode_0.byte_size
        }),
{
    reveal(graph_wf);
    let node = g.nodes@[k]->Some_0;
    assert(g.block_dtn@[k] is Some);
    assert(dtn_covers(g.nodes@, g.heap_dump_data.min_addr, g.block_dtn@[k]->Some_0, k));
}

/// The pointer and value blocks counted by an allocation fill it, its header aside.
pub proof fn lemma_dtn_children_fill_it(g: GraphData, j: int)
    requires
        g.wf(),
        slot_is_dtn(g.nodes@, j),
    ensures
        slot_dtn(g.nodes@, j).nb_pointer_nodes + slot_dtn(g.nodes@, j).nb_value_nodes
            == slot_dtn(g.nodes@, j).byte_size / 8 - 1,
{
    reveal(graph_wf);
}

/// Every pointer node points inside the heap.
pub proof fn lemma_pointer_targets_in_heap(g: GraphData, k: int)
    requires
        g.wf(),
        0 <= k < g.nodes@.len(),
        g.nodes@[k] is Some,
        g.nodes@[k]->Some_0 is PointerNode,
    ensures
        g.heap_dump_data.min_addr <= g.nodes@[k]->Some_0.spec_points_to()->Some_0
            <= g.heap_dump_data.max_addr,
{
    reveal(graph_wf);
}

proof fn lemma_header_from_ge(bytes: Seq<u8>, n: int, i: int, k: int)
    requires
        is_header_from(bytes, n, i, k),
    ensures
        i <= k < n,
    decreases n - i,
{
    if k != i {
        lemma_header_from_ge(bytes, n, i + chunk_blocks(bytes, i), k);
    }
}

} // verus!
