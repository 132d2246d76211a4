use vstd::prelude::*;

use crate::address::IpAddress;
use crate::candidate::{split, split_chars};

verus! {

/// The value of a hexadecimal digit, or -1 for any other character.
pub open spec fn hex_digit_value(c: char) -> int {
    if '0' <= c <= '9' {
        c as u32 - '0' as u32
    } else if 'a' <= c <= 'f' {
        c as u32 - 'a' as u32 + 10
    } else if 'A' <= c <= 'F' {
        c as u32 - 'A' as u32 + 10
    } else {
        -1
    }
}

/// The number written by the hexadecimal digits `s`.
pub open spec fn hex_value(s: Seq<char>) -> int
    decreases s.len(),
{
    if s.len() == 0 {
        0
    } else {
        hex_value(s.drop_last()) * 16 + hex_digit_value(s.last())
    }
}

/// The 16-bit group written by `s`: one to four hexadecimal digits.
pub open spec fn hex_group(s: Seq<char>) -> Option<int> {
    if 1 <= s.len() <= 4 && (forall|i: int| 0 <= i < s.len() ==> hex_digit_value(#[trigger] s[i]) >= 0) {
        Some(hex_value(s))
    } else {
        None
    }
}

/// Where the first `::` of `s` starts, looking from `from` on; -1 when
/// there is none.
pub open spec fn find_gap(s: Seq<char>, from: int) -> int
    decreases s.len() - from,
{
    if from < 0 || from + 1 >= s.len() {
        -1
    } else if s[from] == ':' && s[from + 1] == ':' {
        from
    } else {
        find_gap(s, from + 1)
    }
}

/// The `:`-separated pieces of `s`; none for empty text.
pub open spec fn pieces(s: Seq<char>) -> Seq<Seq<char>> {
    if s.len() == 0 {
        Seq::empty()
    } else {
        split(s, ':')
    }
}

/// The groups written before and after the `::` of an IPv6 literal; without
/// `::`, all eight groups stand before it.
pub open spec fn ipv6_layout(s: Seq<char>) -> Option<(Seq<Seq<char>>, Seq<Seq<char>>)> {
    let k = find_gap(s, 0);
    if k < 0 {
        if split(s, ':').len() == 8 {
            Some((split(s, ':'), Seq::empty()))
        } else {
            None
        }
    } else {
        let left = pieces(s.take(k));
        let right = pieces(s.skip(k + 2));
        if left.len() + right.len() <= 7 {
            Some((left, right))
        } else {
            None
        }
    }
}

pub open spec fn all_groups(ps: Seq<Seq<char>>) -> bool {
    forall|i: int| 0 <= i < ps.len() ==> (#[trigger] hex_group(ps[i])) is Some
}

/// The eight groups of the address: the left ones, zeros for the gap, then
/// the right ones.
pub open spec fn expand(left: Seq<Seq<char>>, right: Seq<Seq<char>>) -> Seq<int> {
    Seq::new(
        8,
        |j: int|
            if j < left.len() {
                hex_group(left[j])->0
            } else if j < 8 - right.len() {
                0
            } else {
                hex_group(right[j - (8 - right.len())])->0
            },
    )
}

/// The 128-bit number whose 16-bit groups, most significant first, are `g`.
pub open spec fn groups_value(g: Seq<int>) -> int
    decreases g.len(),
{
    if g.len() == 0 {
        0
    } else {
        groups_value(g.drop_last()) * 65536 + g.last()
    }
}

/// The IPv6 address written by `s` in the text form of RFC 4291: eight
/// groups of one to four hexadecimal digits separated by `:`, where one run
/// of zero groups may be written `::`. Embedded IPv4 and zone suffixes are
/// not part of this form.
pub open spec fn ipv6_of(s: Seq<char>) -> Option<IpAddress> {
    match ipv6_layout(s) {
        Some((left, right)) => if all_groups(left) && all_groups(right) {
            Some(IpAddress::V6(groups_value(expand(left, right)) as u128))
        } else {
            None
        },
        None => None,
    }
}

pub open spec fn views_match(v: Seq<Vec<char>>, p: Seq<Seq<char>>) -> bool {
    &&& v.len() == p.len()
    &&& forall|i: int| 0 <= i < v.len() ==> (#[trigger] v[i])@ == p[i]
}

pub open spec fn pow16(n: nat) -> int
    decreases n,
{
    if n == 0 {
        1
    } else {
        16 * pow16((n - 1) as nat)
    }
}

pub open spec fn pow65536(n: nat) -> int
    decreases n,
{
    if n == 0 {
        1
    } else {
        65536 * pow65536((n - 1) as nat)
    }
}

proof fn lemma_pow16_bound(n: nat)
    requires
        n <= 3,
    ensures
        pow16(n) <= 4096,
{
    reveal_with_fuel(pow16, 4);
}

proof fn lemma_pow65536_bound(n: nat)
    requires
        n <= 7,
    ensures
        pow65536(n) <= 0x1_0000_0000_0000_0000_0000_0000_0000,
{
    reveal_with_fuel(pow65536, 8);
}

/// The group written by `s`, when it is one.
fn hex(s: &Vec<char>) -> (r: Option<u32>)
    ensures
        match hex_group(s@) {
            Some(v) => r matches Some(x) && x as int == v && v < 65536,
            None => r is None,
        },
{
    let n = s.len();
    if n == 0 || n > 4 {
        return None;
    }
    let mut value: u32 = 0;
    let mut bound: u32 = 1;
    let mut i: usize = 0;
    assert(s@.take(0) =~= Seq::<char>::empty());
    while i < n
        invariant
            n == s@.len(),
            1 <= n <= 4,
            0 <= i <= n,
            bound as int == pow16(i as nat),
            bound <= 65536,
            value as int == hex_value(s@.take(i as int)),
            value < bound,
            forall|k: int| 0 <= k < i ==> hex_digit_value(#[trigger] s@[k]) >= 0,
        decreases n - i,
    {
        let c = s[i];
        let digit: u32 = if '0' <= c && c <= '9' {
            (c as u32) - ('0' as u32)
        } else if 'a' <= c && c <= 'f' {
            (c as u32) - ('a' as u32) + 10
        } else if 'A' <= c && c <= 'F' {
            (c as u32) - ('A' as u32) + 10
        } else {
            return None;
        };
        proof {
            assert(s@.take(i + 1).drop_last() =~= s@.take(i as int));
            lemma_pow16_bound(i as nat);
        }
        assert(value * 16 + digit < bound * 16) by (nonlinear_arith)
            requires
                value < bound,
                digit <= 15,
        ;
        value = value * 16 + digit;
        bound = bound * 16;
        i = i + 1;
    }
    assert(s@.take(n as int) =~= s@);
    Some(value)
}

/// Where the first `::` of `s` starts, if anywhere.
fn find_gap_in(s: &Vec<char>) -> (r: Option<usize>)
    ensures
        match r {
            Some(k) => find_gap(s@, 0) == k && k + 2 <= s@.len(),
            None => find_gap(s@, 0) == -1,
        },
{
    let n = s.len();
    let mut i: usize = 0;
    while i < n && n - i > 1
        invariant
            n == s@.len(),
            i <= n,
            find_gap(s@, 0) == find_gap(s@, i as int),
        decreases n - i,
    {
        if s[i] == ':' && s[i + 1] == ':' {
            return Some(i);
        }
        i = i + 1;
    }
    None
}

/// The characters of `s` from `from` up to `to`.
fn sub_chars(s: &Vec<char>, from: usize, to: usize) -> (r: Vec<char>)
    requires
        from <= to <= s@.len(),
    ensures
        r@ == s@.subrange(from as int, to as int),
{
    let mut r: Vec<char> = Vec::new();
    let mut i: usize = from;
    while i < to
        invariant
            from <= i <= to <= s@.len(),
            r@ == s@.subrange(from as int, i as int),
        decreases to - i,
    {
        r.push(s[i]);
        i = i + 1;
        assert(r@ =~= s@.subrange(from as int, i as int));
    }
    r
}

/// The `:`-separated pieces of `s`; none for empty text.
fn pieces_of(s: &Vec<char>) -> (r: Vec<Vec<char>>)
    ensures
        views_match(r@, pieces(s@)),
{
    if s.len() == 0 {
        Vec::new()
    } else {
        split_chars(s, ':')
    }
}

/// The groups written by `ps`, when every piece is one.
fn hex_all(ps: &Vec<Vec<char>>) -> (r: Option<Vec<u32>>)
    ensures
        r is Some <==> all_groups(ps@.map_values(|v: Vec<char>| v@)),
        r matches Some(v) ==> v@.len() == ps@.len() && forall|i: int|
            0 <= i < v@.len() ==> (#[trigger] v@[i]) as int == hex_group(ps@[i]@)->0 && v@[i]
                < 65536,
{
    let ghost views = ps@.map_values(|v: Vec<char>| v@);
    let mut out: Vec<u32> = Vec::new();
    let mut i: usize = 0;
    while i < ps.len()
        invariant
            views == ps@.map_values(|v: Vec<char>| v@),
            i <= ps@.len(),
            out@.len() == i,
            forall|k: int| 0 <= k < i ==> (#[trigger] hex_group(views[k])) is Some,
            forall|k: int|
                0 <= k < i ==> (#[trigger] out@[k]) as int == hex_group(ps@[k]@)->0 && out@[k]
                    < 65536,
        decreases ps@.len() - i,
    {
        assert(views[i as int] == ps@[i as int]@);
        match hex(&ps[i]) {
            Some(g) => {
                out.push(g);
            },
            None => {
                assert(!all_groups(views));
                return None;
            },
        }
        i = i + 1;
    }
    Some(out)
}

/// The eight groups: `left`, zeros, then `right`.
fn expand_groups(left: &Vec<u32>, right: &Vec<u32>) -> (r: Vec<u32>)
    requires
        left@.len() + right@.len() <= 8,
    ensures
        r@.len() == 8,
        forall|j: int|
            0 <= j < 8 ==> #[trigger] r@[j] == if j < left@.len() {
                left@[j]
            } else if j < 8 - right@.len() {
                0
            } else {
                right@[j - (8 - right@.len())]
            },
{
    let mut out: Vec<u32> = Vec::new();
    let mut j: usize = 0;
    let l = left.len();
    let gap_end = 8 - right.len();
    while j < 8
        invariant
            l == left@.len(),
            gap_end == 8 - right@.len(),
            l <= gap_end,
            j <= 8,
            out@.len() == j,
            forall|k: int|
                0 <= k < j ==> #[trigger] out@[k] == if k < left@.len() {
                    left@[k]
                } else if k < 8 - right@.len() {
                    0
                } else {
                    right@[k - (8 - right@.len())]
                },
        decreases 8 - j,
    {
        if j < l {
            out.push(left[j]);
        } else if j < gap_end {
            out.push(0);
        } else {
            out.push(right[j - gap_end]);
        }
        j = j + 1;
    }
    out
}

/// The 128-bit number whose groups are `g`, most significant first.
fn fold_groups(g: &Vec<u32>, Ghost(t): Ghost<Seq<int>>) -> (r: u128)
    requires
        g@.len() == 8,
        t.len() == 8,
        forall|j: int| 0 <= j < 8 ==> (#[trigger] g@[j]) as int == t[j] && g@[j] < 65536,
    ensures
        r as int == groups_value(t),
{
    let mut acc: u128 = 0;
    let mut j: usize = 0;
    let ghost mut p: int = 1;
    assert(t.take(0) =~= Seq::<int>::empty());
    while j < 8
        invariant
            g@.len() == 8,
            t.len() == 8,
            forall|k: int| 0 <= k < 8 ==> (#[trigger] g@[k]) as int == t[k] && g@[k] < 65536,
            j <= 8,
            p == pow65536(j as nat),
            acc as int == groups_value(t.take(j as int)),
            acc < p,
        decreases 8 - j,
    {
        let x = g[j];
        proof {
            lemma_pow65536_bound(j as nat);
            assert(t.take(j + 1).drop_last() =~= t.take(j as int));
            assert(t.take(j + 1).last() == t[j as int]);
        }
        assert(acc * 65536 + x < p * 65536 && p * 65536 <= 0x1_0000_0000_0000_0000_0000_0000_0000_0000)
            by (nonlinear_arith)
            requires
                acc < p,
                x < 65536,
                p <= 0x1_0000_0000_0000_0000_0000_0000_0000,
        ;
        acc = acc * 65536 + x as u128;
        proof {
            p = p * 65536;
        }
        j = j + 1;
    }
    assert(t.take(8) =~= t);
    acc
}

/// The IPv6 address written by `s`, as `ipv6_of` describes.
pub fn parse_ipv6(s: &Vec<char>) -> (r: Option<IpAddress>)
    ensures
        r == ipv6_of(s@),
{
    let ghost layout = ipv6_layout(s@);
    let (left, right) = match find_gap_in(s) {
        None => {
            let all = split_chars(s, ':');
            if all.len() != 8 {
                return None;
            }
            (all, Vec::new())
        },
        Some(k) => {
            let n = s.len();
            let left = pieces_of(&sub_chars(s, 0, k));
            let right = pieces_of(&sub_chars(s, k + 2, n));
            proof {
                assert(s@.subrange(0, k as int) =~= s@.take(k as int));
                assert(s@.subrange(k + 2, s@.len() as int) =~= s@.skip(k + 2));
            }
            if left.len() > 7 || right.len() > 7 - left.len() {
                return None;
            }
            (left, right)
        },
    };
    let ghost lp = match layout {
        Some(parts) => parts.0,
        None => Seq::empty(),
    };
    let ghost rp = match layout {
        Some(parts) => parts.1,
        None => Seq::empty(),
    };
    proof {
        assert(layout is Some);
        assert(views_match(left@, lp));
        assert(views_match(right@, rp));
        assert(left@.map_values(|v: Vec<char>| v@) =~= lp);
        assert(right@.map_values(|v: Vec<char>| v@) =~= rp);
    }
    let lv = match hex_all(&left) {
        Some(v) => v,
        None => {
            return None;
        },
    };
    let rv = match hex_all(&right) {
        Some(v) => v,
        None => {
            return None;
        },
    };
    let groups = expand_groups(&lv, &rv);
    let ghost t = expand(lp, rp);
    proof {
        assert forall|j: int| 0 <= j < 8 implies (#[trigger] groups@[j]) as int == t[j] && groups@[j]
            < 65536 by {
            if j < lv@.len() {
                assert(left@[j]@ == lp[j]);
            } else if j < 8 - rv@.len() {
            } else {
                assert(right@[j - (8 - rv@.len())]@ == rp[j - (8 - rp.len())]);
            }
        }
    }
    let value = fold_groups(&groups, Ghost(t));
    Some(IpAddress::V6(value))
}

} // verus!
