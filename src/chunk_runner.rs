use vstd::prelude::*;

use crate::text::{decimal, slashes_to_underscores, replace_slashes, to_decimal};
use crate::utils::ErrorKind;

verus! {

/// Name of the CSV file of shard `chunk_index` for inputs under `dir_tail`.
pub open spec fn spec_csv_file_name(dir_tail: Seq<char>, chunk_index: nat) -> Seq<char> {
    slashes_to_underscores(dir_tail) + "_chunck_idx-"@ + decimal(chunk_index) + "_samples.csv"@
}

/// The name of the CSV file of shard `chunk_index`: `dir_tail` with `/` turned into
/// `_`, then `_chunck_idx-`, the shard index and `_samples.csv`.
pub fn csv_file_name(dir_tail: &str, chunk_index: u64) -> (r: String)
    ensures
        r@ == spec_csv_file_name(dir_tail@, chunk_index as nat),
{
    let mut name = replace_slashes(dir_tail);
    name.append("_chunck_idx-");
    let idx = to_decimal(chunk_index);
    name.append(idx.as_str());
    name.append("_samples.csv");
    name
}

/// The column names of the feature CSV for embedding depth `depth`.
pub open spec fn spec_header(depth: nat) -> Seq<Seq<char>> {
    seq!["file_path"@, "f_chn_addr"@, "f_chunk_byte_size"@, "f_chunk_ptrs"@]
        + Seq::new(2 * depth, |x: int| if x % 2 == 0 { "f_chns_ancestor_"@ + decimal((x / 2 + 1) as nat) } else { "f_ptrs_ancestor_"@ + decimal((x / 2 + 1) as nat) })
        + Seq::new(2 * depth, |x: int| if x % 2 == 0 { "f_chns_children_"@ + decimal((x / 2 + 1) as nat) } else { "f_ptrs_children_"@ + decimal((x / 2 + 1) as nat) })
        + seq!["label"@]
}

fn named(prefix: &str, i: u64) -> (r: String)
    ensures
        r@ == prefix@ + decimal(i as nat),
{
    let mut s = prefix.to_owned();
    let d = to_decimal(i);
    s.append(d.as_str());
    s
}

fn push_pairs(header: &mut Vec<String>, depth: usize, first: &str, second: &str)
    requires
        depth < u64::MAX,
    ensures
        final(header)@.len() == old(header)@.len() + 2 * depth,
        forall|x: int| 0 <= x < old(header)@.len() ==> #[trigger] final(header)@[x] == old(header)@[x],
        forall|x: int|
            0 <= x < 2 * depth ==> #[trigger] final(header)@[old(header)@.len() + x]@ == if x % 2 == 0 {
                first@ + decimal((x / 2 + 1) as nat)
            } else {
                second@ + decimal((x / 2 + 1) as nat)
            },
{
    let ghost start = header@;
    let mut i: usize = 0;
    while i < depth
        invariant
            0 <= i <= depth,
            depth < u64::MAX,
            header@.len() == start.len() + 2 * i,
            forall|x: int| 0 <= x < start.len() ==> #[trigger] header@[x] == start[x],
            forall|x: int|
                0 <= x < 2 * i ==> #[trigger] header@[start.len() + x]@ == if x % 2 == 0 {
                    first@ + decimal((x / 2 + 1) as nat)
                } else {
                    second@ + decimal((x / 2 + 1) as nat)
                },
        decreases depth - i,
    {
        header.push(named(first, i as u64 + 1));
        header.push(named(second, i as u64 + 1));
        proof {
            assert((2 * i) / 2 + 1 == i + 1);
            assert((2 * i + 1) / 2 + 1 == i + 1);
        }
        i = i + 1;
    }
}

/// The column names of the feature CSV: `file_path`, `f_chn_addr`,
/// `f_chunk_byte_size`, `f_chunk_ptrs`, the ancestor pairs and the descendant pairs
/// for hops `1..=depth`, and `label`.
pub fn csv_header(depth: usize) -> (r: Vec<String>)
    requires
        depth < u64::MAX,
    ensures
        r@.len() == spec_header(depth as nat).len(),
        forall|x: int| 0 <= x < r@.len() ==> #[trigger] r@[x]@ == spec_header(depth as nat)[x],
{
    let mut header: Vec<String> = Vec::new();
    header.push("file_path".to_owned());
    header.push("f_chn_addr".to_owned());
    header.push("f_chunk_byte_size".to_owned());
    header.push("f_chunk_ptrs".to_owned());
    push_pairs(&mut header, depth, "f_chns_ancestor_", "f_ptrs_ancestor_");
    push_pairs(&mut header, depth, "f_chns_children_", "f_ptrs_children_");
    header.push("label".to_owned());
    proof {
        let h = spec_header(depth as nat);
        assert forall|x: int| 0 <= x < header@.len() implies #[trigger] header@[x]@ == h[x] by {
            if x >= 4 && x < 4 + 2 * depth {
                assert(header@[4 + (x - 4)] == header@[x]);
            } else if x >= 4 + 2 * depth && x < 4 + 4 * depth {
                assert(header@[4 + 2 * depth + (x - 4 - 2 * depth)] == header@[x]);
            }
        }
    }
    header
}

/// Shards among `0..upto` whose CSV file does not exist yet, in increasing order.
pub open spec fn pending(existing: Seq<bool>, upto: int) -> Seq<usize>
    decreases upto,
{
    if upto <= 0 {
        seq![]
    } else if existing[upto - 1] {
        pending(existing, upto - 1)
    } else {
        pending(existing, upto - 1).push((upto - 1) as usize)
    }
}

/// The shards to process, given for each shard whether its CSV file exists: a shard
/// whose file exists is skipped unchanged.
pub fn shards_to_process(existing: &Vec<bool>) -> (r: Vec<usize>)
    ensures
        r@ == pending(existing@, existing@.len() as int),
{
    let mut r: Vec<usize> = Vec::new();
    let mut k: usize = 0;
    while k < existing.len()
        invariant
            0 <= k <= existing@.len(),
            r@ == pending(existing@, k as int),
        decreases existing@.len() - k,
    {
        if !existing[k] {
            r.push(k);
        }
        k = k + 1;
    }
    r
}

proof fn lemma_pending_bounds(existing: Seq<bool>, upto: int, x: int)
    requires
        0 <= upto <= existing.len(),
        existing.len() <= usize::MAX,
        0 <= x < pending(existing, upto).len(),
    ensures
        pending(existing, upto)[x] < upto,
        !existing[pending(existing, upto)[x] as int],
    decreases upto,
{
    if upto > 0 {
        if existing[upto - 1] || x < pending(existing, upto - 1).len() {
            lemma_pending_bounds(existing, upto - 1, x);
        }
    }
}

proof fn lemma_pending_complete(existing: Seq<bool>, upto: int, k: int)
    requires
        existing.len() <= usize::MAX,
        0 <= k < upto <= existing.len(),
        !existing[k],
    ensures
        pending(existing, upto).contains(k as usize),
    decreases upto,
{
    if k < upto - 1 {
        lemma_pending_complete(existing, upto - 1, k);
        let x = choose|x: int| 0 <= x < pending(existing, upto - 1).len() && #[trigger] pending(existing, upto - 1)[x] == k as usize;
        if !existing[upto - 1] {
            assert(pending(existing, upto)[x] == k as usize);
        }
    } else {
        assert(pending(existing, upto).last() == k as usize);
    }
}

/// A shard is processed exactly when its CSV file does not exist: once every shard
/// has been written, a second run rebuilds nothing.
pub proof fn lemma_shard_processed_iff_missing(existing: Seq<bool>, k: int)
    requires
        existing.len() <= usize::MAX,
        0 <= k < existing.len(),
    ensures
        pending(existing, existing.len() as int).contains(k as usize) <==> !existing[k],
        (forall|j: int| 0 <= j < existing.len() ==> existing[j]) ==> pending(existing, existing.len() as int).len() == 0,
{
    let p = pending(existing, existing.len() as int);
    if !existing[k] {
        lemma_pending_complete(existing, existing.len() as int, k);
    }
    if p.contains(k as usize) {
        let x = choose|x: int| 0 <= x < p.len() && #[trigger] p[x] == k as usize;
        lemma_pending_bounds(existing, existing.len() as int, x);
    }
    if forall|j: int| 0 <= j < existing.len() ==> existing[j] {
        if p.len() > 0 {
            lemma_pending_bounds(existing, existing.len() as int, 0);
        }
    }
}

/// Whether a per-file error leaves that file with no rows and lets the shard go on:
/// a missing sidecar or a missing sidecar member.
pub open spec fn spec_recoverable(e: ErrorKind) -> bool {
    e is MissingJsonKeyError || e is JsonFileNotFound
}

pub fn is_recoverable(e: &ErrorKind) -> (r: bool)
    ensures
        r == spec_recoverable(*e),
{
    match e {
        ErrorKind::MissingJsonKeyError(_) => true,
        ErrorKind::JsonFileNotFound(_) => true,
        _ => false,
    }
}

/// First file index and end of shard `k` for `nb_files` files in shards of
/// `chunk_size`.
pub fn shard_range(k: usize, chunk_size: usize, nb_files: usize) -> (r: (usize, usize))
    requires
        chunk_size > 0,
        k * chunk_size <= nb_files,
    ensures
        r.0 == k * chunk_size,
        r.1 == if k * chunk_size + chunk_size <= nb_files { k * chunk_size + chunk_size } else { nb_files as int },
{
    let start = k * chunk_size;
    let end = if chunk_size <= nb_files - start { start + chunk_size } else { nb_files };
    (start, end)
}

/// Number of shards of `chunk_size` files for `nb_files` files.
pub fn nb_shards(nb_files: usize, chunk_size: usize) -> (r: usize)
    requires
        chunk_size > 0,
    ensures
        r == (nb_files + chunk_size - 1) / (chunk_size as int),
{
    crate::utils::div_round_up(nb_files, chunk_size)
}

/// The rows of a shard's files, file after file, each row with its file's path.
pub open spec fn flat_rows(results: Seq<(Vec<Vec<u64>>, String)>) -> Seq<(Seq<u64>, Seq<char>)>
    decreases results.len(),
{
    if results.len() == 0 {
        seq![]
    } else {
        let last = results.last();
        flat_rows(results.drop_last()) + Seq::new(last.0@.len(), |i: int| (last.0@[i]@, last.1@))
    }
}

/// Gathers the rows of a shard's files in file order, and the path of each row.
pub fn collect_shard(results: Vec<(Vec<Vec<u64>>, String)>) -> (r: (Vec<Vec<u64>>, Vec<String>))
    ensures
        r.0@.len() == r.1@.len(),
        r.0@.len() == flat_rows(results@).len(),
        forall|x: int| 0 <= x < r.0@.len() ==> (#[trigger] r.0@[x])@ == flat_rows(results@)[x].0 && r.1@[x]@ == flat_rows(results@)[x].1,
{
    let mut samples: Vec<Vec<u64>> = Vec::new();
    let mut paths: Vec<String> = Vec::new();
    let mut f: usize = 0;
    while f < results.len()
        invariant
            0 <= f <= results@.len(),
            samples@.len() == paths@.len(),
            samples@.len() == flat_rows(results@.subrange(0, f as int)).len(),
            forall|x: int| 0 <= x < samples@.len() ==> (#[trigger] samples@[x])@ == flat_rows(results@.subrange(0, f as int))[x].0
                && paths@[x]@ == flat_rows(results@.subrange(0, f as int))[x].1,
        decreases results@.len() - f,
    {
        let ghost before_len = samples@.len();
        let ghost prefix = flat_rows(results@.subrange(0, f as int));
        let rows = &results[f].0;
        let path = &results[f].1;
        let mut i: usize = 0;
        while i < rows.len()
            invariant
                0 <= i <= rows@.len(),
                samples@.len() == paths@.len(),
                samples@.len() == before_len + i,
                before_len == prefix.len(),
                forall|x: int| 0 <= x < before_len ==> (#[trigger] samples@[x])@ == prefix[x].0 && paths@[x]@ == prefix[x].1,
                forall|x: int| 0 <= x < i ==> (#[trigger] samples@[before_len + x])@ == rows@[x]@ && paths@[before_len + x]@ == path@,
            decreases rows@.len() - i,
        {
            let ghost old_samples = samples@;
            let ghost old_paths = paths@;
            samples.push(copy_row(&rows[i]));
            paths.push(path.clone());
            proof {
                assert forall|x: int| 0 <= x < before_len + i implies samples@[x] == old_samples[x] && paths@[x] == old_paths[x] by {}
            }
            i = i + 1;
        }
        proof {
            let sub = results@.subrange(0, f + 1);
            assert(sub.drop_last() =~= results@.subrange(0, f as int));
            assert(sub.last() == results@[f as int]);
            let flat = flat_rows(sub);
            assert forall|x: int| 0 <= x < samples@.len() implies (#[trigger] samples@[x])@ == flat[x].0 && paths@[x]@ == flat[x].1 by {
                if x >= before_len {
                    assert(samples@[before_len + (x - before_len)] == samples@[x]);
                }
            }
        }
        f = f + 1;
    }
    assert(results@.subrange(0, results@.len() as int) =~= results@);
    (samples, paths)
}

fn copy_row(row: &Vec<u64>) -> (r: Vec<u64>)
    ensures
        r@ == row@,
{
    let mut r: Vec<u64> = Vec::new();
    let mut i: usize = 0;
    while i < row.len()
        invariant
            0 <= i <= row@.len(),
            r@ == row@.subrange(0, i as int),
        decreases row@.len() - i,
    {
        r.push(row[i]);
        i = i + 1;
        assert(r@ =~= row@.subrange(0, i as int));
    }
    assert(row@.subrange(0, row@.len() as int) =~= row@);
    r
}

} // verus!
