//! CIDR parsing: turning text of the form `"A.B.C.D"` or `"A.B.C.D/P"`
//! into a [`Network`], with the classful default prefix applied when no
//! `/P` part is present.
//!
//! The specification is stated over the character sequence of the input:
//! a valid address is four dot-separated octet fields, each one to three
//! digits without a leading zero and at most 255; a valid prefix field is
//! a non-empty digit string whose value is at most 32.

use crate::errors::NetworkError;
use crate::network::{default_mask, default_prefix_of, Network};
use vstd::prelude::*;
use vstd::string::StrSliceExecFns;

verus! {

/// The character is a decimal digit.
pub open spec fn is_digit(c: char) -> bool {
    48 <= c as u32 <= 57
}

/// The numeric value of a digit character.
pub open spec fn digit_val(c: char) -> int
    recommends
        is_digit(c),
{
    c as u32 - 48
}

/// Every character of the sequence is a decimal digit.
pub open spec fn all_digits(s: Seq<char>) -> bool {
    forall|q: int| 0 <= q < s.len() ==> is_digit(#[trigger] s[q])
}

/// The numeric value of a digit string read in base 10.
pub open spec fn dec_value(s: Seq<char>) -> int
    recommends
        all_digits(s),
    decreases s.len(),
{
    if s.len() == 0 {
        0
    } else {
        dec_value(s.drop_last()) * 10 + digit_val(s.last())
    }
}

/// A valid octet field: one to three digits, no leading zero on a
/// multi-digit field, and a value of at most 255.
pub open spec fn valid_octet(s: Seq<char>) -> bool {
    1 <= s.len() <= 3 && all_digits(s) && (s.len() == 1 || s[0] != '0') && dec_value(s) <= 255
}

/// A valid prefix field: a non-empty digit string whose value is at
/// most 32.
pub open spec fn valid_prefix_part(s: Seq<char>) -> bool {
    s.len() >= 1 && all_digits(s) && dec_value(s) <= 32
}

/// The index of the first occurrence of `c` in `s`, or `s.len()` when
/// `c` does not occur.
pub open spec fn first_of(s: Seq<char>, c: char) -> int
    decreases s.len(),
{
    if s.len() == 0 {
        0
    } else if s[0] == c {
        0
    } else {
        1 + first_of(s.subrange(1, s.len() as int), c)
    }
}

/// The positions `i < j < k` carry dots that split `s` into four valid
/// octet fields.
pub open spec fn ipv4_split(s: Seq<char>, i: int, j: int, k: int) -> bool {
    &&& 0 <= i < j < k < s.len()
    &&& s[i] == '.'
    &&& s[j] == '.'
    &&& s[k] == '.'
    &&& valid_octet(s.subrange(0, i))
    &&& valid_octet(s.subrange(i + 1, j))
    &&& valid_octet(s.subrange(j + 1, k))
    &&& valid_octet(s.subrange(k + 1, s.len() as int))
}

/// The sequence is a valid dotted-quad address.
pub open spec fn valid_ipv4(s: Seq<char>) -> bool {
    exists|i: int, j: int, k: int| ipv4_split(s, i, j, k)
}

/// The 32-bit value assembled from four octet values, first octet in
/// the top byte.
pub open spec fn combine_octets(o0: int, o1: int, o2: int, o3: int) -> u32 {
    (o0 * 0x100_0000 + o1 * 0x1_0000 + o2 * 0x100 + o3) as u32
}

/// The address value of a valid dotted-quad sequence.
pub open spec fn ipv4_value(s: Seq<char>) -> u32
    recommends
        valid_ipv4(s),
{
    let (i, j, k) = choose|i: int, j: int, k: int| ipv4_split(s, i, j, k);
    combine_octets(
        dec_value(s.subrange(0, i)),
        dec_value(s.subrange(i + 1, j)),
        dec_value(s.subrange(j + 1, k)),
        dec_value(s.subrange(k + 1, s.len() as int)),
    )
}

/// What parsing returns. The input is split at the first `/`, if any.
/// An invalid address part is rejected with `InvalidIpFormat`. With no
/// `/`, or with nothing after it, the prefix defaults by address class;
/// otherwise an invalid prefix field is rejected with
/// `InvalidMaskFormat`.
pub open spec fn parse_network_spec(s: Seq<char>) -> Result<Network, NetworkError> {
    let e = first_of(s, '/');
    let ip_part = s.subrange(0, e);
    if !valid_ipv4(ip_part) {
        Err(NetworkError::InvalidIpFormat)
    } else if e >= s.len() - 1 {
        Ok(Network { ip: ipv4_value(ip_part), prefix: default_prefix_of(ipv4_value(ip_part)) })
    } else {
        let mask_part = s.subrange(e + 1, s.len() as int);
        if valid_prefix_part(mask_part) {
            Ok(Network { ip: ipv4_value(ip_part), prefix: dec_value(mask_part) as u32 })
        } else {
            Err(NetworkError::InvalidMaskFormat)
        }
    }
}

proof fn lemma_first_of(s: Seq<char>, c: char)
    ensures
        0 <= first_of(s, c) <= s.len(),
        first_of(s, c) < s.len() ==> s[first_of(s, c)] == c,
        forall|q: int| 0 <= q < first_of(s, c) ==> #[trigger] s[q] != c,
    decreases s.len(),
{
    if s.len() > 0 && s[0] != c {
        let tail = s.subrange(1, s.len() as int);
        lemma_first_of(tail, c);
        assert forall|q: int| 0 <= q < first_of(s, c) implies #[trigger] s[q] != c by {
            if q > 0 {
                assert(tail[q - 1] == s[q]);
            }
        }
    }
}

proof fn lemma_split_dots_exact(s: Seq<char>, i: int, j: int, k: int)
    requires
        ipv4_split(s, i, j, k),
    ensures
        forall|p: int| 0 <= p < s.len() ==> ((#[trigger] s[p]) == '.' <==> (p == i || p == j || p
            == k)),
{
    assert forall|p: int|
        0 <= p < s.len() && p != i && p != j && p != k implies (#[trigger] s[p]) != '.' by {
        if p < i {
            assert(s.subrange(0, i)[p] == s[p]);
            assert(is_digit(s[p]));
        } else if p < j {
            assert(s.subrange(i + 1, j)[p - i - 1] == s[p]);
            assert(is_digit(s[p]));
        } else if p < k {
            assert(s.subrange(j + 1, k)[p - j - 1] == s[p]);
            assert(is_digit(s[p]));
        } else {
            assert(s.subrange(k + 1, s.len() as int)[p - k - 1] == s[p]);
            assert(is_digit(s[p]));
        }
    }
}

/// A valid dotted quad whose dots are exactly the three given positions
/// is split by exactly those positions.
proof fn lemma_split_pinned(s: Seq<char>, d1: int, d2: int, d3: int)
    requires
        valid_ipv4(s),
        0 <= d1 < d2 < d3 < s.len(),
        s[d1] == '.',
        s[d2] == '.',
        s[d3] == '.',
        forall|q: int|
            0 <= q < s.len() && (#[trigger] s[q]) == '.' ==> q == d1 || q == d2 || q == d3,
    ensures
        ipv4_split(s, d1, d2, d3),
        ipv4_value(s) == combine_octets(
            dec_value(s.subrange(0, d1)),
            dec_value(s.subrange(d1 + 1, d2)),
            dec_value(s.subrange(d2 + 1, d3)),
            dec_value(s.subrange(d3 + 1, s.len() as int)),
        ),
{
    let (i, j, k) = choose|i: int, j: int, k: int| ipv4_split(s, i, j, k);
    assert(ipv4_split(s, i, j, k));
    lemma_split_dots_exact(s, i, j, k);
    assert(i == d1 && j == d2 && k == d3);
}

/// A split at given dot positions certifies validity and determines the
/// address value.
proof fn lemma_ipv4_value_at(s: Seq<char>, i: int, j: int, k: int)
    requires
        ipv4_split(s, i, j, k),
    ensures
        valid_ipv4(s),
        ipv4_value(s) == combine_octets(
            dec_value(s.subrange(0, i)),
            dec_value(s.subrange(i + 1, j)),
            dec_value(s.subrange(j + 1, k)),
            dec_value(s.subrange(k + 1, s.len() as int)),
        ),
{
    assert(valid_ipv4(s));
    lemma_split_dots_exact(s, i, j, k);
    lemma_split_pinned(s, i, j, k);
}

fn parse_octet(s: &str, start: usize, end: usize) -> (r: Option<u32>)
    requires
        start <= end,
        end <= s@.len(),
    ensures
        ({
            let f = s@.subrange(start as int, end as int);
            match r {
                Some(v) => valid_octet(f) && v == dec_value(f),
                None => !valid_octet(f),
            }
        }),
{
    let len: usize = end - start;
    if len == 0 || len > 3 {
        return None;
    }
    let first: char = s.get_char(start);
    if len > 1 && first == '0' {
        return None;
    }
    let mut v: u32 = 0;
    let mut i: usize = 0;
    while i < len
        invariant
            start + len == end,
            end <= s@.len(),
            len <= 3,
            i <= len,
            all_digits(s@.subrange(start as int, (start + i) as int)),
            v == dec_value(s@.subrange(start as int, (start + i) as int)),
            i == 0 ==> v == 0,
            i == 1 ==> v <= 9,
            i == 2 ==> v <= 99,
            i == 3 ==> v <= 999,
        decreases len - i,
    {
        let c: char = s.get_char(start + i);
        let u: u32 = c as u32;
        if u < 48 || u > 57 {
            proof {
                let f = s@.subrange(start as int, end as int);
                assert(f[i as int] == s@[(start + i) as int]);
                assert(!is_digit(f[i as int]));
            }
            return None;
        }
        v = v * 10 + (u - 48);
        i += 1;
        proof {
            let pre = s@.subrange(start as int, (start + i - 1) as int);
            let cur = s@.subrange(start as int, (start + i) as int);
            assert(cur.drop_last() =~= pre);
            assert(cur.last() == s@[(start + i - 1) as int]);
            assert(is_digit(cur.last()));
            assert(all_digits(cur));
        }
    }
    proof {
        assert(s@.subrange(start as int, (start + i) as int) =~= s@.subrange(
            start as int,
            end as int,
        ));
    }
    if v > 255 {
        None
    } else {
        Some(v)
    }
}

fn parse_prefix(s: &str, start: usize, n: usize) -> (r: Option<u32>)
    requires
        start < n,
        n == s@.len(),
    ensures
        ({
            let m = s@.subrange(start as int, s@.len() as int);
            match r {
                Some(v) => valid_prefix_part(m) && v == dec_value(m) && v <= 32,
                None => !valid_prefix_part(m),
            }
        }),
{
    let mut v: u32 = 0;
    let mut big: bool = false;
    let mut i: usize = start;
    while i < n
        invariant
            start <= i <= n,
            n == s@.len(),
            start < n,
            all_digits(s@.subrange(start as int, i as int)),
            big <==> dec_value(s@.subrange(start as int, i as int)) > 32,
            !big ==> v == dec_value(s@.subrange(start as int, i as int)),
            v <= 329,
        decreases n - i,
    {
        let c: char = s.get_char(i);
        let u: u32 = c as u32;
        if u < 48 || u > 57 {
            proof {
                let m = s@.subrange(start as int, s@.len() as int);
                assert(m[i - start] == s@[i as int]);
                assert(!is_digit(m[i - start]));
            }
            return None;
        }
        proof {
            let pre = s@.subrange(start as int, i as int);
            let cur = s@.subrange(start as int, (i + 1) as int);
            assert(cur.drop_last() =~= pre);
            assert(cur.last() == s@[i as int]);
            assert(is_digit(cur.last()));
            assert(all_digits(cur));
            if big {
                // once past 32, appending digits keeps the value past 32
                assert(dec_value(cur) == dec_value(pre) * 10 + digit_val(cur.last()));
                assert(dec_value(pre) * 10 > 32 * 10);
            }
        }
        if !big {
            v = v * 10 + (u - 48);
            if v > 32 {
                big = true;
            }
        }
        i += 1;
    }
    proof {
        assert(s@.subrange(start as int, i as int) =~= s@.subrange(start as int, s@.len() as int));
    }
    if big {
        None
    } else {
        Some(v)
    }
}

impl Network {
    /// Parse `"A.B.C.D"` or `"A.B.C.D/P"` into a network (see
    /// [`parse_network_spec`]). When no prefix part is present, the
    /// classful default prefix of the address is used.
    pub fn from_str(s: &str) -> (r: Result<Network, NetworkError>)
        ensures
            r == parse_network_spec(s@),
            r matches Ok(net) ==> net.wf(),
    {
        let n: usize = s.unicode_len();
        // find the first '/', if any
        let mut e: usize = 0;
        while e < n && s.get_char(e) != '/'
            invariant
                e <= n,
                n == s@.len(),
                forall|q: int| 0 <= q < e ==> #[trigger] s@[q] != '/',
            decreases n - e,
        {
            e += 1;
        }
        proof {
            lemma_first_of(s@, '/');
            if first_of(s@, '/') < e {
                assert(s@[first_of(s@, '/')] != '/');
            }
            if first_of(s@, '/') > e {
                assert(e < n && s@[e as int] == '/');
                assert(s@[e as int] != '/');
            }
            assert(first_of(s@, '/') == e);
        }
        let ghost ip_part = s@.subrange(0, e as int);
        // record the dot positions of the address part
        let mut count: usize = 0;
        let mut d1: usize = 0;
        let mut d2: usize = 0;
        let mut d3: usize = 0;
        let mut p: usize = 0;
        while p < e
            invariant
                p <= e,
                e <= n,
                n == s@.len(),
                first_of(s@, '/') == e,
                ip_part == s@.subrange(0, e as int),
                count <= 3,
                count >= 1 ==> d1 < p && s@[d1 as int] == '.',
                count >= 2 ==> d1 < d2 && d2 < p && s@[d2 as int] == '.',
                count >= 3 ==> d2 < d3 && d3 < p && s@[d3 as int] == '.',
                forall|q: int|
                    0 <= q < p && (#[trigger] s@[q]) == '.' ==> ((count >= 1 && q == d1) || (count
                        >= 2 && q == d2) || (count >= 3 && q == d3)),
            decreases e - p,
        {
            let c: char = s.get_char(p);
            if c == '.' {
                if count == 0 {
                    d1 = p;
                    count = 1;
                } else if count == 1 {
                    d2 = p;
                    count = 2;
                } else if count == 2 {
                    d3 = p;
                    count = 3;
                } else {
                    // a fourth dot: the address part cannot be four octets
                    proof {
                        if valid_ipv4(ip_part) {
                            let (i, j, k) = choose|i: int, j: int, k: int|
                                ipv4_split(ip_part, i, j, k);
                            lemma_split_dots_exact(ip_part, i, j, k);
                            assert(ip_part[d1 as int] == s@[d1 as int]);
                            assert(ip_part[d2 as int] == s@[d2 as int]);
                            assert(ip_part[d3 as int] == s@[d3 as int]);
                            assert(ip_part[p as int] == s@[p as int]);
                            assert(false);
                        }
                    }
                    return Err(NetworkError::InvalidIpFormat);
                }
            }
            p += 1;
        }
        if count != 3 {
            // fewer than three dots: not four octet fields
            proof {
                if valid_ipv4(ip_part) {
                    let (i, j, k) = choose|i: int, j: int, k: int| ipv4_split(ip_part, i, j, k);
                    lemma_split_dots_exact(ip_part, i, j, k);
                    assert(ip_part[i] == s@[i]);
                    assert(ip_part[j] == s@[j]);
                    assert(ip_part[k] == s@[k]);
                    assert(false);
                }
            }
            return Err(NetworkError::InvalidIpFormat);
        }
        proof {
            assert(ip_part[d1 as int] == s@[d1 as int]);
            assert(ip_part[d2 as int] == s@[d2 as int]);
            assert(ip_part[d3 as int] == s@[d3 as int]);
            assert forall|q: int|
                0 <= q < ip_part.len() && (#[trigger] ip_part[q]) == '.' implies q == d1 || q == d2
                || q == d3 by {
                assert(ip_part[q] == s@[q]);
            }
        }
        let o0 = parse_octet(s, 0, d1);
        let o1 = parse_octet(s, d1 + 1, d2);
        let o2 = parse_octet(s, d2 + 1, d3);
        let o3 = parse_octet(s, d3 + 1, e);
        proof {
            assert(ip_part.subrange(0, d1 as int) =~= s@.subrange(0, d1 as int));
            assert(ip_part.subrange(d1 + 1, d2 as int) =~= s@.subrange(d1 + 1, d2 as int));
            assert(ip_part.subrange(d2 + 1, d3 as int) =~= s@.subrange(d2 + 1, d3 as int));
            assert(ip_part.subrange(d3 + 1, ip_part.len() as int) =~= s@.subrange(
                d3 + 1,
                e as int,
            ));
        }
        let (v0, v1, v2, v3) = match (o0, o1, o2, o3) {
            (Some(v0), Some(v1), Some(v2), Some(v3)) => (v0, v1, v2, v3),
            _ => {
                // some octet field is invalid
                proof {
                    if valid_ipv4(ip_part) {
                        lemma_split_pinned(ip_part, d1 as int, d2 as int, d3 as int);
                        assert(false);
                    }
                }
                return Err(NetworkError::InvalidIpFormat);
            },
        };
        let value: u32 = v0 * 0x100_0000 + v1 * 0x1_0000 + v2 * 0x100 + v3;
        proof {
            assert(ipv4_split(ip_part, d1 as int, d2 as int, d3 as int));
            lemma_ipv4_value_at(ip_part, d1 as int, d2 as int, d3 as int);
            assert(value == ipv4_value(ip_part));
        }
        if e == n || e + 1 == n {
            // no '/' part: the prefix defaults by address class
            let prefix: u32 = default_mask(value);
            return Ok(Network { ip: value, prefix });
        }
        match parse_prefix(s, e + 1, n) {
            Some(prefix) => Ok(Network { ip: value, prefix }),
            None => Err(NetworkError::InvalidMaskFormat),
        }
    }
}

} // verus!
