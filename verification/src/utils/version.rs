//! Dotted version numbers such as `10.0.19041.1`, and the order among them
//! that decides which of two matching drivers is preferred.
use vstd::prelude::*;
use crate::text::{split_at_char, split_chars, pieces_view, chars_of};

verus! {

pub open spec fn is_digit(c: char) -> bool {
    '0' <= c && c <= '9'
}

pub open spec fn digit_value(c: char) -> int {
    (c as int) - ('0' as int)
}

pub open spec fn all_digits(s: Seq<char>) -> bool {
    forall|i: int| 0 <= i < s.len() ==> is_digit(#[trigger] s[i])
}

/// The number that a run of decimal digits spells.
pub open spec fn decimal_value(s: Seq<char>) -> int
    decreases s.len(),
{
    if s.len() == 0 {
        0
    } else {
        10 * decimal_value(s.drop_last()) + digit_value(s.last())
    }
}

/// What `str::parse::<i32>` accepts and gives: an optional `+` or `-`, then
/// one or more ASCII digits, whose value fits in an `i32`.
pub open spec fn parse_i32_spec(s: Seq<char>) -> Option<int> {
    if s.len() == 0 {
        None
    } else if (s[0] == '+' || s[0] == '-') && s.len() == 1 {
        None
    } else {
        let digits = if s[0] == '+' || s[0] == '-' {
            s.drop_first()
        } else {
            s
        };
        if !all_digits(digits) {
            None
        } else {
            let v = if s[0] == '-' {
                -decimal_value(digits)
            } else {
                decimal_value(digits)
            };
            if i32::MIN <= v <= i32::MAX {
                Some(v)
            } else {
                None
            }
        }
    }
}

proof fn lemma_decimal_nonneg(s: Seq<char>)
    requires
        all_digits(s),
    ensures
        decimal_value(s) >= 0,
    decreases s.len(),
{
    if s.len() > 0 {
        assert(all_digits(s.drop_last()));
        lemma_decimal_nonneg(s.drop_last());
        assert(is_digit(s[s.len() - 1]));
    }
}

proof fn lemma_decimal_prefix_le(s: Seq<char>, k: int)
    requires
        all_digits(s),
        0 <= k <= s.len(),
    ensures
        decimal_value(s.take(k)) <= decimal_value(s),
    decreases s.len(),
{
    if k < s.len() {
        let d = s.drop_last();
        assert(all_digits(d));
        assert(d.take(k) =~= s.take(k));
        lemma_decimal_prefix_le(d, k);
        lemma_decimal_nonneg(d);
        assert(is_digit(s[s.len() - 1]));
    } else {
        assert(s.take(k) =~= s);
    }
}

/// `str::parse::<i32>` on the characters `s`.
pub fn parse_i32(s: &Vec<char>) -> (r: Option<i32>)
    ensures
        match r {
            Some(v) => parse_i32_spec(s@) == Some(v as int),
            None => parse_i32_spec(s@) is None,
        },
{
    let n = s.len();
    if n == 0 {
        return None;
    }
    let first = s[0];
    let signed = first == '+' || first == '-';
    if signed && n == 1 {
        return None;
    }
    let start: usize = if signed { 1 } else { 0 };
    let ghost digits = if signed { s@.drop_first() } else { s@ };
    assert(digits =~= s@.subrange(start as int, n as int));
    let mut acc: i64 = 0;
    let mut j: usize = start;
    while j < n
        invariant
            n >= 1,
            first == s@[0],
            signed == (first == '+' || first == '-'),
            start == (if signed { 1usize } else { 0usize }),
            signed ==> n >= 2,
            digits == (if signed { s@.drop_first() } else { s@ }),
            start <= j <= n,
            n == s@.len(),
            digits =~= s@.subrange(start as int, n as int),
            all_digits(s@.subrange(start as int, j as int)),
            acc as int == decimal_value(s@.subrange(start as int, j as int)),
            0 <= acc <= 2147483648,
        decreases n - j,
    {
        let c = s[j];
        if !('0' <= c && c <= '9') {
            assert(digits[j - start] == c);
            return None;
        }
        let d = (c as u32 - '0' as u32) as i64;
        let ghost prev = s@.subrange(start as int, j as int);
        let ghost next = s@.subrange(start as int, j + 1);
        assert(next.drop_last() =~= prev);
        assert(next.last() == c);
        acc = acc * 10 + d;
        j = j + 1;
        assert(all_digits(next)) by {
            assert forall|i: int| 0 <= i < next.len() implies is_digit(#[trigger] next[i]) by {
                if i < next.len() - 1 {
                    assert(next[i] == prev[i]);
                }
            }
        }
        assert(acc as int == decimal_value(next));
        if acc > 2147483648 {
            proof {
                if all_digits(digits) {
                    assert(digits.take((j - start) as int) =~= next);
                    lemma_decimal_prefix_le(digits, (j - start) as int);
                    assert(decimal_value(digits) > 2147483648);
                }
            }
            return None;
        }
    }
    assert(s@.subrange(start as int, n as int) =~= digits);
    let v: i64 = if first == '-' { -acc } else { acc };
    if v < -2147483648 || v > 2147483647 {
        return None;
    }
    Some(v as i32)
}

// ---------------------------------------------------------------------------
// The order among versions
// ---------------------------------------------------------------------------

/// The numeric value of the `i`-th component; a missing component counts as `0`.
pub open spec fn component_value(parts: Seq<Seq<char>>, i: int) -> int {
    if 0 <= i < parts.len() {
        match parse_i32_spec(parts[i]) {
            Some(v) => v,
            None => 0,
        }
    } else {
        0
    }
}

/// The `i`-th component is missing or parses as an `i32`.
pub open spec fn component_defined(parts: Seq<Seq<char>>, i: int) -> bool {
    i >= parts.len() || parse_i32_spec(parts[i]) is Some
}

pub open spec fn max_len(p1: Seq<Seq<char>>, p2: Seq<Seq<char>>) -> int {
    if p1.len() > p2.len() {
        p1.len() as int
    } else {
        p2.len() as int
    }
}

/// Lexicographic comparison of the component values from index `i` on:
/// `1` when the first side is greater, `-1` when it is smaller, `0` when equal.
pub open spec fn order_from(p1: Seq<Seq<char>>, p2: Seq<Seq<char>>, i: int) -> int
    decreases max_len(p1, p2) - i,
{
    if i < 0 || i >= max_len(p1, p2) {
        0
    } else {
        let a = component_value(p1, i);
        let b = component_value(p2, i);
        if a > b {
            1
        } else if a < b {
            -1
        } else {
            order_from(p1, p2, i + 1)
        }
    }
}

/// Every component that the comparison from index `i` on reads (up to and
/// including the first one that differs) parses as an `i32`.
pub open spec fn defined_from(p1: Seq<Seq<char>>, p2: Seq<Seq<char>>, i: int) -> bool
    decreases max_len(p1, p2) - i,
{
    if i < 0 || i >= max_len(p1, p2) {
        true
    } else {
        &&& component_defined(p1, i)
        &&& component_defined(p2, i)
        &&& (component_value(p1, i) != component_value(p2, i) || defined_from(p1, p2, i + 1))
    }
}

/// The order of two versions: `1`, `-1` or `0`.
pub open spec fn version_order(v1: Seq<char>, v2: Seq<char>) -> int {
    order_from(split_at_char(v1, '.'), split_at_char(v2, '.'), 0)
}

/// The comparison of `v1` with `v2` reads only components that parse.
pub open spec fn version_comparable(v1: Seq<char>, v2: Seq<char>) -> bool {
    defined_from(split_at_char(v1, '.'), split_at_char(v2, '.'), 0)
}

/// Every component of `v` parses as an `i32`.
pub open spec fn version_well_formed(v: Seq<char>) -> bool {
    forall|i: int|
        0 <= i < split_at_char(v, '.').len() ==> #[trigger] parse_i32_spec(
            split_at_char(v, '.')[i],
        ) is Some
}

/// Compares two versions component by component: `1` when `v1` is the
/// greater, `-1` when it is the smaller, `0` when they are equal.
pub fn compare_versions(v1: &str, v2: &str) -> (r: i8)
    requires
        version_comparable(v1@, v2@),
    ensures
        r as int == version_order(v1@, v2@),
{
    let c1 = chars_of(v1);
    let c2 = chars_of(v2);
    let nums1 = split_chars(&c1, '.');
    let nums2 = split_chars(&c2, '.');
    let ghost p1 = pieces_view(nums1@);
    let ghost p2 = pieces_view(nums2@);
    let n1 = nums1.len();
    let n2 = nums2.len();
    let n = if n1 > n2 { n1 } else { n2 };
    let mut i: usize = 0;
    while i < n
        invariant
            n1 == p1.len(),
            n2 == p2.len(),
            n as int == max_len(p1, p2),
            i <= n,
            p1 == pieces_view(nums1@),
            p2 == pieces_view(nums2@),
            defined_from(p1, p2, i as int),
            order_from(p1, p2, 0) == order_from(p1, p2, i as int),
            version_order(v1@, v2@) == order_from(p1, p2, 0),
        decreases n - i,
    {
        let x1: i32 = if i < n1 {
            assert(nums1@[i as int]@ == p1[i as int]);
            match parse_i32(&nums1[i]) {
                Some(v) => v,
                None => {
                    return 0;
                },
            }
        } else {
            0
        };
        let x2: i32 = if i < n2 {
            assert(nums2@[i as int]@ == p2[i as int]);
            match parse_i32(&nums2[i]) {
                Some(v) => v,
                None => {
                    return 0;
                },
            }
        } else {
            0
        };
        assert(x1 as int == component_value(p1, i as int));
        assert(x2 as int == component_value(p2, i as int));
        if x1 != x2 {
            proof {
                lemma_order_unfold(p1, p2, i as int);
            }
            return if x1 > x2 {
                1
            } else {
                -1
            };
        }
        i = i + 1;
    }
    0
}


/// Whether comparing `v1` with `v2` reads only components that parse.
pub fn comparable_versions(v1: &str, v2: &str) -> (r: bool)
    ensures
        r == version_comparable(v1@, v2@),
{
    let c1 = chars_of(v1);
    let c2 = chars_of(v2);
    let nums1 = split_chars(&c1, '.');
    let nums2 = split_chars(&c2, '.');
    let ghost p1 = pieces_view(nums1@);
    let ghost p2 = pieces_view(nums2@);
    let n1 = nums1.len();
    let n2 = nums2.len();
    let n = if n1 > n2 { n1 } else { n2 };
    let mut i: usize = 0;
    while i < n
        invariant
            n1 == p1.len(),
            n2 == p2.len(),
            n as int == max_len(p1, p2),
            i <= n,
            p1 == pieces_view(nums1@),
            p2 == pieces_view(nums2@),
            version_comparable(v1@, v2@) == defined_from(p1, p2, i as int),
        decreases n - i,
    {
        assert(i < n1 ==> nums1@[i as int]@ == p1[i as int]);
        assert(i < n2 ==> nums2@[i as int]@ == p2[i as int]);
        let x1 = if i < n1 {
            parse_i32(&nums1[i])
        } else {
            Some(0)
        };
        let x2 = if i < n2 {
            parse_i32(&nums2[i])
        } else {
            Some(0)
        };
        match (x1, x2) {
            (Some(a), Some(b)) => {
                assert(a as int == component_value(p1, i as int));
                assert(b as int == component_value(p2, i as int));
                if a != b {
                    return true;
                }
            },
            _ => {
                return false;
            },
        }
        i = i + 1;
    }
    true
}

// ---------------------------------------------------------------------------
// Laws of the order
// ---------------------------------------------------------------------------

proof fn lemma_order_unfold(p1: Seq<Seq<char>>, p2: Seq<Seq<char>>, i: int)
    requires
        i >= 0,
    ensures
        order_from(p1, p2, i) == (if component_value(p1, i) > component_value(p2, i) {
            1
        } else if component_value(p1, i) < component_value(p2, i) {
            -1
        } else {
            order_from(p1, p2, i + 1)
        }),
{
}

proof fn lemma_order_reflexive_from(p: Seq<Seq<char>>, i: int)
    requires
        i >= 0,
    ensures
        order_from(p, p, i) == 0,
    decreases p.len() - i,
{
    if i < p.len() {
        lemma_order_reflexive_from(p, i + 1);
    }
}

proof fn lemma_order_antisymmetric_from(p1: Seq<Seq<char>>, p2: Seq<Seq<char>>, i: int)
    requires
        i >= 0,
    ensures
        order_from(p1, p2, i) == -order_from(p2, p1, i),
    decreases max_len(p1, p2) - i,
{
    if i < max_len(p1, p2) {
        lemma_order_antisymmetric_from(p1, p2, i + 1);
    }
}

proof fn lemma_order_transitive_from(
    a: Seq<Seq<char>>,
    b: Seq<Seq<char>>,
    c: Seq<Seq<char>>,
    i: int,
    bound: int,
)
    requires
        0 <= i,
        bound >= a.len(),
        bound >= b.len(),
        bound >= c.len(),
        order_from(a, b, i) >= 0,
        order_from(b, c, i) >= 0,
    ensures
        order_from(a, c, i) >= 0,
        (order_from(a, b, i) > 0 || order_from(b, c, i) > 0) ==> order_from(a, c, i) > 0,
    decreases bound - i,
{
    lemma_order_unfold(a, b, i);
    lemma_order_unfold(b, c, i);
    lemma_order_unfold(a, c, i);
    if i < bound {
        let x = component_value(a, i);
        let y = component_value(b, i);
        let z = component_value(c, i);
        if x == y && y == z {
            lemma_order_transitive_from(a, b, c, i + 1, bound);
        }
    } else {
        lemma_order_reflexive_from(a, i);
    }
}

/// Every version is equal to itself.
pub proof fn law_version_order_reflexive(v: Seq<char>)
    ensures
        version_order(v, v) == 0,
{
    lemma_order_reflexive_from(split_at_char(v, '.'), 0);
}

/// Swapping the two versions swaps the answer: `a > b` exactly when `b < a`.
pub proof fn law_version_order_antisymmetric(a: Seq<char>, b: Seq<char>)
    ensures
        version_order(a, b) == -version_order(b, a),
{
    lemma_order_antisymmetric_from(split_at_char(a, '.'), split_at_char(b, '.'), 0);
}

/// The order is transitive: `a >= b` and `b >= c` give `a >= c`, strictly
/// when either step is strict.
pub proof fn law_version_order_transitive(a: Seq<char>, b: Seq<char>, c: Seq<char>)
    requires
        version_order(a, b) >= 0,
        version_order(b, c) >= 0,
    ensures
        version_order(a, c) >= 0,
        (version_order(a, b) > 0 || version_order(b, c) > 0) ==> version_order(a, c) > 0,
{
    let pa = split_at_char(a, '.');
    let pb = split_at_char(b, '.');
    let pc = split_at_char(c, '.');
    let bound: int = (pa.len() + pb.len() + pc.len()) as int;
    lemma_order_transitive_from(pa, pb, pc, 0, bound);
}

/// The answer is always one of `-1`, `0` and `1`.
pub proof fn law_version_order_range(a: Seq<char>, b: Seq<char>)
    ensures
        -1 <= version_order(a, b) <= 1,
{
    lemma_order_range_from(split_at_char(a, '.'), split_at_char(b, '.'), 0);
}

proof fn lemma_order_range_from(p1: Seq<Seq<char>>, p2: Seq<Seq<char>>, i: int)
    ensures
        -1 <= order_from(p1, p2, i) <= 1,
    decreases max_len(p1, p2) - i,
{
    if 0 <= i < max_len(p1, p2) {
        lemma_order_range_from(p1, p2, i + 1);
    }
}

/// Two well-formed versions can always be compared.
pub proof fn lemma_well_formed_comparable(v1: Seq<char>, v2: Seq<char>)
    requires
        version_well_formed(v1),
        version_well_formed(v2),
    ensures
        version_comparable(v1, v2),
{
    lemma_defined_from(split_at_char(v1, '.'), split_at_char(v2, '.'), 0, v1, v2);
}

proof fn lemma_defined_from(p1: Seq<Seq<char>>, p2: Seq<Seq<char>>, i: int, v1: Seq<char>, v2: Seq<char>)
    requires
        p1 == split_at_char(v1, '.'),
        p2 == split_at_char(v2, '.'),
        version_well_formed(v1),
        version_well_formed(v2),
    ensures
        defined_from(p1, p2, i),
    decreases max_len(p1, p2) - i,
{
    if 0 <= i < max_len(p1, p2) {
        if i < p1.len() {
            assert(parse_i32_spec(p1[i]) is Some);
        }
        if i < p2.len() {
            assert(parse_i32_spec(p2[i]) is Some);
        }
        lemma_defined_from(p1, p2, i + 1, v1, v2);
    }
}

} // verus!
