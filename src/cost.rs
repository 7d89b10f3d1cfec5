//! Cost resolver: maps a free-form algorithm identifier such as `"bcrypt-12"`
//! to the work factor named by its last `-`-separated segment.

use vstd::prelude::*;
use vstd::string::*;

verus! {

/// Work factor used when an identifier names none.
pub const DEFAULT_COST: u32 = 4;

/// Separator between the algorithm name and its cost.
pub const SEPARATOR: char = '-';

pub open spec fn is_digit(c: char) -> bool {
    '0' <= c && c <= '9'
}

pub open spec fn digit_value(c: char) -> int {
    c as int - '0' as int
}

/// The number written by a sequence of decimal digits, most significant first.
pub open spec fn digits_value(s: Seq<char>) -> int
    decreases s.len(),
{
    if s.len() == 0 {
        0
    } else {
        digits_value(s.drop_last()) * 10 + digit_value(s.last())
    }
}

pub open spec fn all_digits(s: Seq<char>) -> bool {
    forall|i: int| 0 <= i < s.len() ==> is_digit(#[trigger] s[i])
}

/// The digits of an unsigned number: an optional leading `+` is dropped.
pub open spec fn unsigned_body(s: Seq<char>) -> Seq<char> {
    if s.len() > 0 && s[0] == '+' {
        s.drop_first()
    } else {
        s
    }
}

/// The `u32` that `s` denotes in decimal (an optional `+`, then at least one
/// digit), or `None` when it denotes none or the value exceeds `u32::MAX`.
pub open spec fn parse_u32_spec(s: Seq<char>) -> Option<u32> {
    let d = unsigned_body(s);
    if d.len() > 0 && all_digits(d) && digits_value(d) <= u32::MAX {
        Some(digits_value(d) as u32)
    } else {
        None
    }
}

/// Index of the last separator among the first `k` characters of `s`, or -1.
pub open spec fn last_separator_before(s: Seq<char>, k: int) -> int
    decreases k,
{
    if k <= 0 {
        -1
    } else if s[k - 1] == SEPARATOR {
        k - 1
    } else {
        last_separator_before(s, k - 1)
    }
}

/// Index of the last separator of `s`, or -1 when it has none.
pub open spec fn last_separator(s: Seq<char>) -> int {
    last_separator_before(s, s.len() as int)
}

/// The cost an identifier resolves to: the number after its last separator,
/// or `default_cost` when there is no separator or that segment is no number.
pub open spec fn resolve_cost_spec(id: Seq<char>, default_cost: u32) -> u32 {
    let k = last_separator(id);
    if k < 0 {
        default_cost
    } else {
        match parse_u32_spec(id.subrange(k + 1, id.len() as int)) {
            Some(n) => n,
            None => default_cost,
        }
    }
}

proof fn lemma_digits_value_nonneg(s: Seq<char>)
    requires
        all_digits(s),
    ensures
        digits_value(s) >= 0,
    decreases s.len(),
{
    if s.len() > 0 {
        lemma_digits_value_nonneg(s.drop_last());
    }
}

/// Parses `s` as a decimal `u32`, the way `str::parse::<u32>` reads it.
pub fn parse_u32(s: &str) -> (r: Option<u32>)
    ensures
        r == parse_u32_spec(s@),
{
    let n = s.unicode_len();
    let mut start: usize = 0;
    if n > 0 && s.get_char(0) == '+' {
        start = 1;
    }
    let ghost d = unsigned_body(s@);
    assert(d == s@.subrange(start as int, n as int));
    if start == n {
        return None;
    }
    let limit: u64 = 0x1_0000_0000;
    let mut acc: u64 = 0;
    let mut j: usize = start;
    while j < n
        invariant
            n == s@.len(),
            start <= j <= n,
            d == s@.subrange(start as int, n as int),
            d == unsigned_body(s@),
            limit == 0x1_0000_0000,
            all_digits(d.subrange(0, j - start)),
            acc == if digits_value(d.subrange(0, j - start)) < limit {
                digits_value(d.subrange(0, j - start))
            } else {
                limit as int
            },
        decreases n - j,
    {
        let c = s.get_char(j);
        if !('0' <= c && c <= '9') {
            assert(d[j - start] == c);
            assert(!all_digits(d));
            return None;
        }
        let ghost prev = d.subrange(0, j - start);
        let ghost next = d.subrange(0, j + 1 - start);
        assert(next.drop_last() =~= prev);
        assert(next.last() == c);
        assert(all_digits(next)) by {
            assert forall|i: int| 0 <= i < next.len() implies is_digit(#[trigger] next[i]) by {
                if i < prev.len() {
                    assert(next[i] == prev[i]);
                }
            }
        }
        proof {
            lemma_digits_value_nonneg(prev);
        }
        let dv: u64 = (c as u32 - '0' as u32) as u64;
        assert(dv == digit_value(c));
        if acc >= limit {
            assert(digits_value(next) >= limit) by (nonlinear_arith)
                requires
                    digits_value(next) == digits_value(prev) * 10 + dv,
                    digits_value(prev) >= limit,
                    dv >= 0,
            ;
        } else {
            assert(acc * 10 + dv < 0x10_0000_0000) by (nonlinear_arith)
                requires
                    acc < limit,
                    limit == 0x1_0000_0000,
                    dv <= 9,
            ;
            let v: u64 = acc * 10 + dv;
            acc = if v < limit { v } else { limit };
        }
        j = j + 1;
    }
    assert(d.subrange(0, n - start) =~= d);
    if acc < limit {
        Some(acc as u32)
    } else {
        None
    }
}

/// Resolves the cost named by `id`, falling back to `default_cost`.
pub fn resolve_cost(id: &str, default_cost: u32) -> (r: u32)
    ensures
        r == resolve_cost_spec(id@, default_cost),
{
    let n = id.unicode_len();
    let mut i: usize = n;
    while i > 0
        invariant
            n == id@.len(),
            i <= n,
            last_separator(id@) == last_separator_before(id@, i as int),
        ensures
            i <= n,
            last_separator(id@) == last_separator_before(id@, i as int),
            i == 0 || id@[i - 1] == SEPARATOR,
        decreases i,
    {
        if id.get_char(i - 1) == SEPARATOR {
            break;
        }
        i = i - 1;
    }
    if i == 0 {
        return default_cost;
    }
    assert(last_separator(id@) == i - 1);
    let tail = id.substring_char(i, n);
    match parse_u32(tail) {
        Some(c) => c,
        None => default_cost,
    }
}

/// Resolves the cost named by an algorithm identifier, with [`DEFAULT_COST`]
/// as the fallback.
pub fn hash_cost(hashing_algorithm: &String) -> (r: u32)
    ensures
        r == resolve_cost_spec(hashing_algorithm@, DEFAULT_COST),
{
    resolve_cost(hashing_algorithm.as_str(), DEFAULT_COST)
}

proof fn lemma_last_separator_of_suffix(prefix: Seq<char>, segment: Seq<char>, k: int)
    requires
        !segment.contains(SEPARATOR),
        prefix.len() < k <= prefix.len() + 1 + segment.len(),
    ensures
        last_separator_before(prefix + seq![SEPARATOR] + segment, k) == prefix.len(),
    decreases k,
{
    let s = prefix + seq![SEPARATOR] + segment;
    if k > prefix.len() + 1 {
        assert(s[k - 1] == segment[k - 1 - prefix.len() - 1]);
        lemma_last_separator_of_suffix(prefix, segment, k - 1);
    } else {
        assert(s[k - 1] == SEPARATOR);
    }
}

/// An identifier whose last separator is followed by `segment` resolves as
/// `segment` alone decides: the part before that separator plays no role.
pub proof fn lemma_last_segment_decides(a: Seq<char>, b: Seq<char>, segment: Seq<char>, default_cost: u32)
    requires
        !segment.contains(SEPARATOR),
    ensures
        resolve_cost_spec(a + seq![SEPARATOR] + segment, default_cost)
            == resolve_cost_spec(b + seq![SEPARATOR] + segment, default_cost),
        resolve_cost_spec(a + seq![SEPARATOR] + segment, default_cost) == match parse_u32_spec(segment) {
            Some(n) => n,
            None => default_cost,
        },
{
    lemma_segment_cost(a, segment, default_cost);
    lemma_segment_cost(b, segment, default_cost);
}

proof fn lemma_segment_cost(a: Seq<char>, segment: Seq<char>, default_cost: u32)
    requires
        !segment.contains(SEPARATOR),
    ensures
        resolve_cost_spec(a + seq![SEPARATOR] + segment, default_cost) == match parse_u32_spec(segment) {
            Some(n) => n,
            None => default_cost,
        },
{
    let s = a + seq![SEPARATOR] + segment;
    lemma_last_separator_of_suffix(a, segment, s.len() as int);
    assert(s.subrange(a.len() + 1 as int, s.len() as int) =~= segment);
}

/// An identifier `"<alg>-<n>"` whose trailing segment `n` reads as a `u32`
/// resolves to that number, whatever `alg` holds.
pub proof fn lemma_numeric_suffix_is_cost(alg: Seq<char>, n: Seq<char>, default_cost: u32)
    requires
        parse_u32_spec(n) is Some,
    ensures
        resolve_cost_spec(alg + seq![SEPARATOR] + n, default_cost) == parse_u32_spec(n)->Some_0,
{
    assert(!n.contains(SEPARATOR)) by {
        if n.contains(SEPARATOR) {
            let i = choose|i: int| 0 <= i < n.len() && n[i] == SEPARATOR;
            let d = unsigned_body(n);
            if n[0] == '+' {
                assert(i > 0);
                assert(d[i - 1] == n[i]);
            } else {
                assert(d[i] == n[i]);
            }
        }
    }
    lemma_segment_cost(alg, n, default_cost);
}

/// An identifier without a separator resolves to the default cost.
pub proof fn lemma_no_separator_is_default(id: Seq<char>, default_cost: u32)
    requires
        !id.contains(SEPARATOR),
    ensures
        resolve_cost_spec(id, default_cost) == default_cost,
{
    lemma_no_separator_before(id, id.len() as int);
}

proof fn lemma_no_separator_before(id: Seq<char>, k: int)
    requires
        !id.contains(SEPARATOR),
        k <= id.len(),
    ensures
        last_separator_before(id, k) == -1,
    decreases k,
{
    if k > 0 {
        assert(id[k - 1] != SEPARATOR);
        lemma_no_separator_before(id, k - 1);
    }
}

/// An identifier whose segment after the last separator does not read as a
/// `u32` resolves to the default cost.
pub proof fn lemma_unreadable_suffix_is_default(a: Seq<char>, segment: Seq<char>, default_cost: u32)
    requires
        !segment.contains(SEPARATOR),
        parse_u32_spec(segment) is None,
    ensures
        resolve_cost_spec(a + seq![SEPARATOR] + segment, default_cost) == default_cost,
{
    lemma_segment_cost(a, segment, default_cost);
}

} // verus!
