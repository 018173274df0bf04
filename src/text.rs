use vstd::prelude::*;


verus! {

pub open spec fn digit_char(d: int) -> char {
    (48 + d) as char
}

/// Decimal digits of `n`, most significant first.
pub open spec fn decimal(n: nat) -> Seq<char>
    decreases n,
{
    if n < 10 {
        seq![digit_char(n as int)]
    } else {
        decimal(n / 10).push(digit_char((n % 10) as int))
    }
}

/// Binary digits of `n`, most significant first.
pub open spec fn binary(n: nat) -> Seq<char>
    decreases n,
{
    if n < 2 {
        seq![digit_char(n as int)]
    } else {
        binary(n / 2).push(digit_char((n % 2) as int))
    }
}

/// `s` padded on the left with `0` up to `width` characters.
pub open spec fn zero_padded(s: Seq<char>, width: nat) -> Seq<char> {
    if s.len() < width {
        Seq::new((width - s.len()) as nat, |i: int| '0') + s
    } else {
        s
    }
}

fn digit_str(d: u64) -> (r: &'static str)
    requires
        d < 10,
    ensures
        r@ == seq![digit_char(d as int)],
{
    proof {
        reveal_strlit("0");
        reveal_strlit("1");
        reveal_strlit("2");
        reveal_strlit("3");
        reveal_strlit("4");
        reveal_strlit("5");
        reveal_strlit("6");
        reveal_strlit("7");
        reveal_strlit("8");
        reveal_strlit("9");
    }
    let r = if d == 0 {
        "0"
    } else if d == 1 {
        "1"
    } else if d == 2 {
        "2"
    } else if d == 3 {
        "3"
    } else if d == 4 {
        "4"
    } else if d == 5 {
        "5"
    } else if d == 6 {
        "6"
    } else if d == 7 {
        "7"
    } else if d == 8 {
        "8"
    } else {
        "9"
    };
    assert(r@ =~= seq![digit_char(d as int)]);
    r
}

/// The decimal writing of `n`.
pub fn to_decimal(n: u64) -> (r: String)
    ensures
        r@ == decimal(n as nat),
    decreases n,
{
    if n < 10 {
        digit_str(n).to_owned()
    } else {
        let mut s = to_decimal(n / 10);
        s.append(digit_str(n % 10));
        s
    }
}

fn to_binary(n: u64) -> (r: String)
    ensures
        r@ == binary(n as nat),
    decreases n,
{
    if n < 2 {
        digit_str(n).to_owned()
    } else {
        let mut s = to_binary(n / 2);
        s.append(digit_str(n % 2));
        s
    }
}

/// `value` in binary, padded on the left with `0` up to `n` digits.
pub fn to_n_bits_binary(value: u64, n: usize) -> (r: String)
    ensures
        r@ == zero_padded(binary(value as nat), n as nat),
{
    let digits = to_binary(value);
    let len = digits.unicode_len();
    let mut r = String::new();
    if len < n {
        let mut i: usize = 0;
        while i < n - len
            invariant
                0 <= i <= n - len,
                len < n,
                r@ == Seq::new(i as nat, |j: int| '0'),
            decreases n - len - i,
        {
            proof {
                reveal_strlit("0");
            }
            r.append("0");
            i = i + 1;
            assert(r@ =~= Seq::new(i as nat, |j: int| '0'));
        }
    }
    r.append(digits.as_str());
    assert(r@ =~= zero_padded(binary(value as nat), n as nat));
    r
}

/// All `n`-digit binary numbers, in increasing order.
pub fn generate_bit_combinations(n: usize) -> (r: Vec<String>)
    requires
        n < 64,
    ensures
        r@.len() == (1u64 << n),
        forall|i: int| 0 <= i < r@.len() ==> #[trigger] r@[i]@ == zero_padded(binary(i as nat), n as nat),
{
    let max: u64 = 1u64 << n as u64;
    let mut result: Vec<String> = Vec::new();
    let mut i: u64 = 0;
    while i < max
        invariant
            0 <= i <= max,
            max == (1u64 << n),
            result@.len() == i,
            forall|j: int| 0 <= j < i ==> #[trigger] result@[j]@ == zero_padded(binary(j as nat), n as nat),
        decreases max - i,
    {
        result.push(to_n_bits_binary(i, n));
        i = i + 1;
    }
    result
}

/// `s` with every `/` replaced by `_`.
pub open spec fn slashes_to_underscores(s: Seq<char>) -> Seq<char> {
    Seq::new(s.len(), |i: int| if s[i] == '/' { '_' } else { s[i] })
}

/// Replaces every `/` of `s` with `_`.
pub fn replace_slashes(s: &str) -> (r: String)
    ensures
        r@ == slashes_to_underscores(s@),
{
    proof {
        reveal_strlit("_");
    }
    let n = s.unicode_len();
    let mut r = String::new();
    let mut start: usize = 0;
    let mut i: usize = 0;
    while i < n
        invariant
            0 <= start <= i <= n,
            n == s@.len(),
            r@ == slashes_to_underscores(s@.subrange(0, start as int)),
            forall|j: int| start <= j < i ==> s@[j] != '/',
        decreases n - i,
    {
        if s.get_char(i) == '/' {
            let ghost before = r@;
            r.append(s.substring_char(start, i));
            r.append("_");
            proof {
                reveal_strlit("_");
            }
            assert("_"@ =~= seq!['_']);
            assert(r@ == before + s@.subrange(start as int, i as int) + seq!['_']);
            assert forall|j: int| 0 <= j < i + 1 implies r@[j] == slashes_to_underscores(s@.subrange(0, i + 1))[j] by {
                if j < start {
                    assert(r@[j] == before[j]);
                    assert(before[j] == slashes_to_underscores(s@.subrange(0, start as int))[j]);
                } else if j < i {
                    assert(r@[j] == s@[j]);
                }
            }
            assert(r@ =~= slashes_to_underscores(s@.subrange(0, i + 1)));
            start = i + 1;
        }
        i = i + 1;
    }
    r.append(s.substring_char(start, n));
    assert(r@ =~= slashes_to_underscores(s@.subrange(0, n as int)));
    assert(s@.subrange(0, n as int) =~= s@);
    r
}

/// Start of the part of `s[..i]` that holds its last `n` segments, segments being
/// separated by `/`.
pub open spec fn last_segments_start(s: Seq<char>, n: nat, i: int) -> int
    decreases i,
{
    if i <= 0 {
        0
    } else if s[i - 1] == '/' {
        if n <= 1 {
            i
        } else {
            last_segments_start(s, (n - 1) as nat, i - 1)
        }
    } else {
        last_segments_start(s, n, i - 1)
    }
}

/// The last `n` segments of a path, the whole path when it has fewer.
pub fn truncate_path_to_last_n_dirs(path: &str, n: usize) -> (r: &str)
    requires
        n >= 1,
    ensures
        r@ == path@.subrange(last_segments_start(path@, n as nat, path@.len() as int), path@.len() as int),
{
    let len = path.unicode_len();
    let mut i: usize = len;
    let mut left: usize = n;
    while i > 0 && !(path.get_char(i - 1) == '/' && left <= 1)
        invariant
            0 <= i <= len,
            len == path@.len(),
            1 <= left <= n,
            last_segments_start(path@, n as nat, len as int) == last_segments_start(path@, left as nat, i as int),
        decreases i,
    {
        if path.get_char(i - 1) == '/' {
            left = left - 1;
        }
        i = i - 1;
    }
    path.substring_char(i, len)
}

} // verus!
