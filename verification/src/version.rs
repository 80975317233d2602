//! Semantic version labels.
//!
//! A release bucket's directory name is its version label.  A label of the
//! shape `1.2.3`, optionally prefixed with `v`, parses to a semantic
//! version; each numeric part is a non-empty run of at most nineteen
//! decimal digits, so its value always fits in a `u64`.  Labels that do
//! not parse are still valid bucket names; they merely sort differently.

use vstd::prelude::*;

verus! {

/// A parsed semantic version.
#[derive(Clone, Copy, Debug, PartialEq, Eq, Structural)]
pub struct Version {
    pub major: u64,
    pub minor: u64,
    pub patch: u64,
}

/// Whether `c` is a decimal digit.
pub open spec fn is_digit(c: char) -> bool {
    '0' <= c && c <= '9'
}

/// The numeric value of a digit character.
pub open spec fn digit_val(c: char) -> int {
    (c as int) - ('0' as int)
}

/// The numeric value of a run of digit characters, most significant first.
pub open spec fn digits_value(s: Seq<char>) -> int
    decreases s.len(),
{
    if s.len() == 0 {
        0
    } else {
        digits_value(s.drop_last()) * 10 + digit_val(s.last())
    }
}

/// The largest number of digits a version part may have; any such run of
/// digits has a value below `10^19`, which fits in a `u64`.
pub open spec fn max_part_digits() -> int {
    19
}

/// A valid numeric version part: a non-empty, bounded run of digits.
pub open spec fn valid_num(s: Seq<char>) -> bool {
    1 <= s.len() <= max_part_digits() && forall|i: int| 0 <= i < s.len() ==> is_digit(#[trigger] s[i])
}

/// The label with a single leading `v` removed, if one is there.
pub open spec fn strip_v(s: Seq<char>) -> Seq<char> {
    if s.len() > 0 && s[0] == 'v' {
        s.drop_first()
    } else {
        s
    }
}

/// Whether dots at positions `i` and `j` split `t` into three valid
/// numeric parts.
pub open spec fn split_ok(t: Seq<char>, i: int, j: int) -> bool {
    &&& 0 <= i < j < t.len()
    &&& t[i] == '.'
    &&& t[j] == '.'
    &&& valid_num(t.subrange(0, i))
    &&& valid_num(t.subrange(i + 1, j))
    &&& valid_num(t.subrange(j + 1, t.len() as int))
}

/// Whether the label `s` parses as a semantic version.
pub open spec fn version_ok(s: Seq<char>) -> bool {
    exists|ij: (int, int)| split_ok(strip_v(s), ij.0, ij.1)
}

/// The version a parseable label denotes.
pub open spec fn version_of(s: Seq<char>) -> Version {
    let t = strip_v(s);
    let ij = choose|ij: (int, int)| split_ok(t, ij.0, ij.1);
    Version {
        major: digits_value(t.subrange(0, ij.0)) as u64,
        minor: digits_value(t.subrange(ij.0 + 1, ij.1)) as u64,
        patch: digits_value(t.subrange(ij.1 + 1, t.len() as int)) as u64,
    }
}

/// What parsing the label `s` yields.
pub open spec fn parse_spec(s: Seq<char>) -> Option<Version> {
    if version_ok(s) {
        Some(version_of(s))
    } else {
        None
    }
}

/// Strict order on versions: major, then minor, then patch.
pub open spec fn ver_lt(a: Version, b: Version) -> bool {
    ||| a.major < b.major
    ||| (a.major == b.major && a.minor < b.minor)
    ||| (a.major == b.major && a.minor == b.minor && a.patch < b.patch)
}

/// Ten to the power `n`.
pub open spec fn pow10(n: int) -> int
    decreases n,
{
    if n <= 0 {
        1
    } else {
        10 * pow10(n - 1)
    }
}

/// `pow10` grows with its argument.
pub proof fn lemma_pow10_le(m: int, n: int)
    requires
        m <= n,
    ensures
        pow10(m) <= pow10(n),
    decreases n - m,
{
    if m < n {
        lemma_pow10_le(m, n - 1);
        assert(pow10(n - 1) >= 1) by {
            lemma_pow10_pos(n - 1);
        }
    }
}

/// `pow10` is positive.
pub proof fn lemma_pow10_pos(n: int)
    ensures
        pow10(n) >= 1,
    decreases n,
{
    if n > 0 {
        lemma_pow10_pos(n - 1);
    }
}

/// The value of `10^19`, the bound on any version part.
proof fn lemma_pow10_19()
    ensures
        pow10(19) == 10000000000000000000,
{
    reveal_with_fuel(pow10, 21);
}

/// Parse the digit run `t[a..b]` as a number, or report that it is not a
/// valid version part.
fn parse_digits(t: &str, a: usize, b: usize) -> (r: Option<u64>)
    requires
        a <= b <= t@.len(),
    ensures
        match r {
            Some(v) => valid_num(t@.subrange(a as int, b as int)) && v == digits_value(
                t@.subrange(a as int, b as int),
            ),
            None => !valid_num(t@.subrange(a as int, b as int)),
        },
{
    let ghost seg = t@.subrange(a as int, b as int);
    if b == a || b - a > 19 {
        return None;
    }
    let mut val: u64 = 0;
    let mut k: usize = a;
    while k < b
        invariant
            a <= k <= b <= t@.len(),
            b - a <= 19,
            seg == t@.subrange(a as int, b as int),
            forall|p: int| 0 <= p < k - a ==> is_digit(#[trigger] seg[p]),
            val == digits_value(t@.subrange(a as int, k as int)),
            0 <= val < pow10(k - a),
        decreases b - k,
    {
        let c = t.get_char(k);
        if c < '0' || c > '9' {
            proof {
                assert(seg[k - a] == t@[k as int]);
                assert(!is_digit(seg[k - a]));
            }
            return None;
        }
        proof {
            lemma_pow10_le(k - a, 18);
            lemma_pow10_19();
            assert(t@.subrange(a as int, k + 1).drop_last() =~= t@.subrange(
                a as int,
                k as int,
            ));
            assert(t@.subrange(a as int, k + 1).last() == t@[k as int]);
            assert(seg[k - a] == t@[k as int]);
        }
        let d: u64 = (c as u32 as u64) - ('0' as u32 as u64);
        val = val * 10 + d;
        k += 1;
    }
    proof {
        assert(forall|p: int| 0 <= p < seg.len() ==> is_digit(#[trigger] seg[p]));
    }
    Some(val)
}

/// Parse the label `s` as a semantic version, accepting an optional
/// leading `v`; yields nothing when the label has another shape.
pub fn parse_version(s: &str) -> (r: Option<Version>)
    ensures
        r == parse_spec(s@),
{
    let n = s.unicode_len();
    let start: usize = if n > 0 && s.get_char(0) == 'v' {
        1
    } else {
        0
    };
    let t = s.substring_char(start, n);
    proof {
        if start == 1 {
            assert(t@ =~= strip_v(s@));
        } else {
            assert(t@ =~= strip_v(s@));
        }
    }
    let m = t.unicode_len();

    // The first dot: any valid split has its first dot here.
    let mut i: usize = 0;
    let mut found_i = false;
    while i < m && !found_i
        invariant
            0 <= i <= m,
            m == t@.len(),
            forall|p: int| 0 <= p < i ==> t@[p] != '.',
            found_i ==> i < m && t@[i as int] == '.',
        decreases m - i + (if found_i { 0int } else { 1int }),
    {
        if t.get_char(i) == '.' {
            found_i = true;
        } else {
            i += 1;
        }
    }
    if !found_i {
        proof {
            assert forall|ij: (int, int)| !split_ok(t@, ij.0, ij.1) by {
                if split_ok(t@, ij.0, ij.1) {
                    assert(t@[ij.0] == '.');
                }
            };
        }
        return None;
    }

    // The second dot: any valid split has its second dot here.
    let mut j: usize = i + 1;
    let mut found_j = false;
    while j < m && !found_j
        invariant
            i < j <= m,
            m == t@.len(),
            forall|p: int| i < p < j ==> t@[p] != '.',
            found_j ==> j < m && t@[j as int] == '.',
            forall|p: int| 0 <= p < i ==> t@[p] != '.',
            t@[i as int] == '.',
        decreases m - j + (if found_j { 0int } else { 1int }),
    {
        if t.get_char(j) == '.' {
            found_j = true;
        } else {
            j += 1;
        }
    }
    if !found_j {
        proof {
            assert forall|ij: (int, int)| !split_ok(t@, ij.0, ij.1) by {
                if split_ok(t@, ij.0, ij.1) {
                    // The split's first dot must be the first dot found.
                    if ij.0 < i {
                        assert(is_digit(t@.subrange(0, ij.0)[ij.0] )) by {};
                    }
                    lemma_first_dot(t@, ij.0, ij.1, i as int);
                    assert(t@[ij.1] == '.');
                }
            };
        }
        return None;
    }

    let major = parse_digits(t, 0, i);
    let minor = parse_digits(t, i + 1, j);
    let patch = parse_digits(t, j + 1, m);
    proof {
        assert forall|ij: (int, int)| split_ok(t@, ij.0, ij.1) implies ij.0 == i as int
            && ij.1 == j as int by {
            lemma_first_dot(t@, ij.0, ij.1, i as int);
            lemma_second_dot(t@, ij.0, ij.1, i as int, j as int);
        };
    }
    match (major, minor, patch) {
        (Some(ma), Some(mi), Some(pa)) => {
            proof {
                assert(split_ok(t@, i as int, j as int));
                assert(version_ok(s@)) by {
                    assert(split_ok(strip_v(s@), (i as int, j as int).0, (i as int, j as int).1));
                }
                let ij = choose|ij: (int, int)| split_ok(t@, ij.0, ij.1);
                assert(ij.0 == i as int && ij.1 == j as int);
            }
            Some(Version { major: ma, minor: mi, patch: pa })
        },
        _ => {
            proof {
                if version_ok(s@) {
                    let ij = choose|ij: (int, int)| split_ok(t@, ij.0, ij.1);
                    assert(ij.0 == i as int && ij.1 == j as int);
                }
            }
            None
        },
    }
}

/// In a valid split, the first dot of the split is the first dot of the
/// label.
proof fn lemma_first_dot(t: Seq<char>, i: int, j: int, i0: int)
    requires
        split_ok(t, i, j),
        0 <= i0 < t.len(),
        t[i0] == '.',
        forall|p: int| 0 <= p < i0 ==> t[p] != '.',
    ensures
        i == i0,
{
    if i < i0 {
        assert(t[i] == '.');
    } else if i0 < i {
        assert(is_digit(t.subrange(0, i)[i0]));
        assert(t.subrange(0, i)[i0] == t[i0]);
    }
}

/// In a valid split, the second dot of the split is the next dot after the
/// first.
proof fn lemma_second_dot(t: Seq<char>, i: int, j: int, i0: int, j0: int)
    requires
        split_ok(t, i, j),
        i == i0,
        i0 < j0 < t.len(),
        t[j0] == '.',
        forall|p: int| i0 < p < j0 ==> t[p] != '.',
    ensures
        j == j0,
{
    if j < j0 {
        assert(t[j] == '.');
    } else if j0 < j {
        assert(is_digit(t.subrange(i + 1, j)[j0 - i - 1]));
        assert(t.subrange(i + 1, j)[j0 - i - 1] == t[j0]);
    }
}

/// Whether `a` is a strictly smaller version than `b`.
pub fn version_lt(a: &Version, b: &Version) -> (r: bool)
    ensures
        r == ver_lt(*a, *b),
{
    if a.major != b.major {
        a.major < b.major
    } else if a.minor != b.minor {
        a.minor < b.minor
    } else {
        a.patch < b.patch
    }
}

} // verus!
