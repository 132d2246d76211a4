use vstd::prelude::*;

use crate::address::{IpAddress, PeerAddress, ServerAddr};
use crate::ipv6::{ipv6_of, parse_ipv6};

verus! {

/// The pieces of `s` between occurrences of `sep`, in order; there is always
/// at least one, and neighbouring separators give empty pieces.
pub open spec fn split(s: Seq<char>, sep: char) -> Seq<Seq<char>>
    decreases s.len(),
{
    if s.len() == 0 {
        seq![Seq::empty()]
    } else {
        let head = split(s.drop_last(), sep);
        if s.last() == sep {
            head.push(Seq::empty())
        } else {
            head.update(head.len() - 1, head.last().push(s.last()))
        }
    }
}

pub open spec fn is_digit(c: char) -> bool {
    '0' <= c <= '9'
}

/// The number written by the decimal digits `s`.
pub open spec fn decimal_value(s: Seq<char>) -> int
    decreases s.len(),
{
    if s.len() == 0 {
        0
    } else {
        decimal_value(s.drop_last()) * 10 + (s.last() as u32 - '0' as u32)
    }
}

/// The number written by `s`, when `s` is one to `max_len` decimal digits
/// writing a number of at most `max`.
pub open spec fn decimal_field(s: Seq<char>, max_len: nat, max: int) -> Option<int> {
    if 1 <= s.len() <= max_len && (forall|i: int| 0 <= i < s.len() ==> is_digit(#[trigger] s[i]))
        && decimal_value(s) <= max {
        Some(decimal_value(s))
    } else {
        None
    }
}

/// The IPv4 address written in dotted form by `s`: four decimal octets of
/// at most three digits each.
pub open spec fn ipv4_of(s: Seq<char>) -> Option<IpAddress> {
    let parts = split(s, '.');
    if parts.len() == 4 && decimal_field(parts[0], 3, 255) is Some && decimal_field(parts[1], 3, 255) is Some
        && decimal_field(parts[2], 3, 255) is Some && decimal_field(parts[3], 3, 255) is Some {
        Some(
            IpAddress::V4(
                decimal_field(parts[0], 3, 255)->0 as u8,
                decimal_field(parts[1], 3, 255)->0 as u8,
                decimal_field(parts[2], 3, 255)->0 as u8,
                decimal_field(parts[3], 3, 255)->0 as u8,
            ),
        )
    } else {
        None
    }
}

/// The IP address written by `s`: dotted IPv4, or else IPv6.
pub open spec fn ip_of(s: Seq<char>) -> Option<IpAddress> {
    if ipv4_of(s) is Some {
        ipv4_of(s)
    } else {
        ipv6_of(s)
    }
}

/// The address an ICE candidate line announces. Its fields are separated by
/// single spaces (`candidate:<foundation> <component> <transport>
/// <priority> <address> <port> typ <type> ...`); when the fifth is an IP
/// address (dotted IPv4, or IPv6 as `ipv6_of` reads it) and the sixth a
/// port, the result is that address, and otherwise (a hostname, say) no
/// address is known.
pub open spec fn candidate_address(s: Seq<char>) -> ServerAddr {
    let fields = split(s, ' ');
    if fields.len() >= 6 && ip_of(fields[4]) is Some && decimal_field(fields[5], 5, 65535) is Some {
        ServerAddr::Found(
            PeerAddress {
                ip: ip_of(fields[4])->0,
                port: decimal_field(fields[5], 5, 65535)->0 as u16,
            },
        )
    } else {
        ServerAddr::Finding
    }
}

proof fn lemma_split_len(s: Seq<char>, sep: char)
    ensures
        split(s, sep).len() >= 1,
    decreases s.len(),
{
    if s.len() > 0 {
        lemma_split_len(s.drop_last(), sep);
    }
}

/// The characters of `s`.
fn chars_of(s: &str) -> (r: Vec<char>)
    ensures
        r@ == s@,
{
    let n = s.unicode_len();
    let mut r: Vec<char> = Vec::new();
    let mut i: usize = 0;
    while i < n
        invariant
            n == s@.len(),
            0 <= i <= n,
            r@ == s@.take(i as int),
        decreases n - i,
    {
        let c = s.get_char(i);
        r.push(c);
        i = i + 1;
        assert(r@ =~= s@.take(i as int));
    }
    assert(s@.take(n as int) =~= s@);
    r
}

/// The pieces of `s` between occurrences of `sep`.
pub(crate) fn split_chars(s: &Vec<char>, sep: char) -> (r: Vec<Vec<char>>)
    ensures
        r@.len() == split(s@, sep).len(),
        forall|k: int| 0 <= k < r@.len() ==> (#[trigger] r@[k])@ == split(s@, sep)[k],
{
    let n = s.len();
    let mut done: Vec<Vec<char>> = Vec::new();
    let mut cur: Vec<char> = Vec::new();
    let mut i: usize = 0;
    assert(s@.take(0) =~= Seq::<char>::empty());
    while i < n
        invariant
            n == s@.len(),
            0 <= i <= n,
            done@.len() + 1 == split(s@.take(i as int), sep).len(),
            forall|k: int| 0 <= k < done@.len() ==> (#[trigger] done@[k])@ == split(s@.take(i as int), sep)[k],
            cur@ == split(s@.take(i as int), sep).last(),
        decreases n - i,
    {
        let c = s[i];
        let ghost prev = split(s@.take(i as int), sep);
        proof {
            assert(s@.take(i + 1).drop_last() =~= s@.take(i as int));
            assert(s@.take(i + 1).last() == c);
            lemma_split_len(s@.take(i as int), sep);
        }
        if c == sep {
            let mut piece: Vec<char> = Vec::new();
            std::mem::swap(&mut piece, &mut cur);
            done.push(piece);
        } else {
            cur.push(c);
        }
        i = i + 1;
        proof {
            let next = split(s@.take(i as int), sep);
            assert forall|k: int| 0 <= k < done@.len() implies (#[trigger] done@[k])@ == next[k] by {
                if k < prev.len() - 1 {
                    assert(next[k] == prev[k]);
                }
            }
        }
    }
    done.push(cur);
    proof {
        assert(s@.take(n as int) =~= s@);
        let all = split(s@, sep);
        assert forall|k: int| 0 <= k < done@.len() implies (#[trigger] done@[k])@ == all[k] by {}
    }
    done
}

/// The number written by `s` when it is one to `max_len` decimal digits
/// writing at most `max`.
fn decimal(s: &Vec<char>, max_len: usize, max: u32) -> (r: Option<u32>)
    requires
        max_len <= 5,
    ensures
        match decimal_field(s@, max_len as nat, max as int) {
            Some(v) => r matches Some(x) && x as int == v && v <= max,
            None => r is None,
        },
{
    let n = s.len();
    if n == 0 || n > max_len {
        return None;
    }
    let mut value: u32 = 0;
    let mut bound: u32 = 1;
    let mut i: usize = 0;
    assert(s@.take(0) =~= Seq::<char>::empty());
    while i < n
        invariant
            n == s@.len(),
            1 <= n <= 5,
            0 <= i <= n,
            bound <= 100000,
            bound == 1 || i >= 1,
            i == 0 ==> bound == 1,
            i >= 1 ==> bound >= 10,
            bound as int == pow10(i as nat),
            value as int == decimal_value(s@.take(i as int)),
            value < bound,
            forall|k: int| 0 <= k < i ==> is_digit(#[trigger] s@[k]),
        decreases n - i,
    {
        let c = s[i];
        if !('0' <= c && c <= '9') {
            return None;
        }
        proof {
            assert(s@.take(i + 1).drop_last() =~= s@.take(i as int));
            lemma_pow10_bound(i as nat);
        }
        let digit = (c as u32) - ('0' as u32);
        assert(value * 10 + digit < bound * 10) by (nonlinear_arith)
            requires
                value < bound,
                digit <= 9,
        ;
        value = value * 10 + digit;
        bound = bound * 10;
        i = i + 1;
    }
    assert(s@.take(n as int) =~= s@);
    if value > max {
        return None;
    }
    Some(value)
}

pub open spec fn pow10(n: nat) -> int
    decreases n,
{
    if n == 0 {
        1
    } else {
        10 * pow10((n - 1) as nat)
    }
}

proof fn lemma_pow10_bound(n: nat)
    requires
        n <= 4,
    ensures
        pow10(n) <= 10000,
{
    reveal_with_fuel(pow10, 5);
}

/// The dotted IPv4 address written by `s`.
fn parse_ipv4(s: &Vec<char>) -> (r: Option<IpAddress>)
    ensures
        r == ipv4_of(s@),
{
    let parts = split_chars(s, '.');
    if parts.len() != 4 {
        return None;
    }
    let a = match decimal(&parts[0], 3, 255) {
        Some(v) => v,
        None => {
            return None;
        },
    };
    let b = match decimal(&parts[1], 3, 255) {
        Some(v) => v,
        None => {
            return None;
        },
    };
    let c = match decimal(&parts[2], 3, 255) {
        Some(v) => v,
        None => {
            return None;
        },
    };
    let d = match decimal(&parts[3], 3, 255) {
        Some(v) => v,
        None => {
            return None;
        },
    };
    Some(IpAddress::V4(a as u8, b as u8, c as u8, d as u8))
}

/// The address announced by an ICE candidate line, as `candidate_address`
/// describes; `Finding` when the line announces no IP address and port.
pub fn candidate_to_addr(candidate_str: &str) -> (r: ServerAddr)
    ensures
        r == candidate_address(candidate_str@),
{
    let chars = chars_of(candidate_str);
    let fields = split_chars(&chars, ' ');
    if fields.len() < 6 {
        return ServerAddr::Finding;
    }
    let ip = match parse_ipv4(&fields[4]) {
        Some(ip) => ip,
        None => match parse_ipv6(&fields[4]) {
            Some(ip) => ip,
            None => {
                return ServerAddr::Finding;
            },
        },
    };
    let port = match decimal(&fields[5], 5, 65535) {
        Some(port) => port,
        None => {
            return ServerAddr::Finding;
        },
    };
    ServerAddr::Found(PeerAddress { ip, port: port as u16 })
}

} // verus!
