//! Where the reverse proxy may forward to.

use vstd::prelude::*;

use crate::error::DenError;
#[allow(unused_imports)]
use crate::error::ErrorView;
#[allow(unused_imports)]
use crate::text;
use crate::text::{chars_of, find_from, join3, render_decimal};

verus! {

/// An IPv4 address in dotted decimal.
pub open spec fn dotted(a: u8, b: u8, c: u8, d: u8) -> Seq<char> {
    text::decimal(a as nat) + seq!['.'] + (text::decimal(b as nat) + seq!['.'] + (text::decimal(
        c as nat,
    ) + seq!['.'] + text::decimal(d as nat)))
}

/// Whether an address that starts with these two octets belongs to the ranges
/// of Docker bridges: 172.16.0.0 to 172.31.255.255, and 192.168.0.0 to
/// 192.168.255.255.
pub open spec fn bridge_range(a: u8, b: u8) -> bool {
    (a == 172 && 16 <= b <= 31) || (a == 192 && b == 168)
}

/// Whether `ip` is the dotted decimal form of an address in the Docker ranges.
pub open spec fn safe_target(ip: Seq<char>) -> bool {
    exists|a: u8, b: u8, c: u8, d: u8| #[trigger] dotted(a, b, c, d) == ip && bridge_range(a, b)
}

/// The digits of an octet.
proof fn lemma_octet(v: nat)
    requires
        v < 256,
    ensures
        v < 10 ==> text::decimal(v) == seq![text::digit(v)],
        10 <= v < 100 ==> text::decimal(v) == seq![text::digit(v / 10), text::digit(v % 10)],
        100 <= v ==> text::decimal(v) == seq![
            text::digit(v / 100),
            text::digit(v / 10 % 10),
            text::digit(v % 10),
        ],
        text::decimal(v).len() > 0,
        !text::decimal(v).contains('.'),
{
    reveal_with_fuel(text::decimal, 4);
    if v >= 100 {
        assert(v / 10 / 10 == v / 100);
        assert(text::decimal(v) =~= seq![
            text::digit(v / 100),
            text::digit(v / 10 % 10),
            text::digit(v % 10),
        ]);
    } else if v >= 10 {
        assert(text::decimal(v) =~= seq![text::digit(v / 10), text::digit(v % 10)]);
    }
}

proof fn lemma_octet_injective(v: u8, w: u8)
    requires
        text::decimal(v as nat) == text::decimal(w as nat),
    ensures
        v == w,
{
    lemma_octet(v as nat);
    lemma_octet(w as nat);
    let s = text::decimal(v as nat);
    if v < 10 {
        assert(s[0] == text::digit(v as nat));
        assert(s[0] == text::digit(w as nat));
    } else if v < 100 {
        assert(s[0] == text::digit(v as nat / 10) && s[1] == text::digit(v as nat % 10));
        assert(s[0] == text::digit(w as nat / 10) && s[1] == text::digit(w as nat % 10));
    } else {
        assert(s[0] == text::digit(v as nat / 100) && s[1] == text::digit(v as nat / 10 % 10)
            && s[2] == text::digit(v as nat % 10));
        assert(s[0] == text::digit(w as nat / 100) && s[1] == text::digit(w as nat / 10 % 10)
            && s[2] == text::digit(w as nat % 10));
    }
}

/// A text with its first dot behind `x` falls apart there.
proof fn lemma_cut(x: Seq<char>, rest: Seq<char>)
    requires
        !x.contains('.'),
    ensures
        text::first_index(x + seq!['.'] + rest, '.') == x.len(),
        (x + seq!['.'] + rest).take(x.len() as int) == x,
        (x + seq!['.'] + rest).skip(x.len() as int + 1) == rest,
{
    let s = x + seq!['.'] + rest;
    assert forall|k: int| 0 <= k < x.len() implies s[k] != '.' by {
        assert(s[k] == x[k]);
    }
    text::lemma_first_index_is(s, '.', x.len() as int);
    assert(s.take(x.len() as int) =~= x);
    assert(s.skip(x.len() as int + 1) =~= rest);
}

/// The parts of a dotted address.
proof fn lemma_dotted(a: u8, b: u8, c: u8, d: u8)
    ensures
        ({
            let s = dotted(a, b, c, d);
            let i = text::first_index(s, '.') as int;
            let s1 = s.skip(i + 1);
            let j = text::first_index(s1, '.') as int;
            let s2 = s1.skip(j + 1);
            let k = text::first_index(s2, '.') as int;
            &&& i < s.len() && s.take(i) == text::decimal(a as nat)
            &&& j < s1.len() && s1.take(j) == text::decimal(b as nat)
            &&& k < s2.len() && s2.take(k) == text::decimal(c as nat)
            &&& s2.skip(k + 1) == text::decimal(d as nat)
        }),
{
    lemma_octet(a as nat);
    lemma_octet(b as nat);
    lemma_octet(c as nat);
    let t2 = text::decimal(c as nat) + seq!['.'] + text::decimal(d as nat);
    let t1 = text::decimal(b as nat) + seq!['.'] + t2;
    lemma_cut(text::decimal(a as nat), t1);
    lemma_cut(text::decimal(b as nat), t2);
    lemma_cut(text::decimal(c as nat), text::decimal(d as nat));
}

fn digit_value(c: char) -> (r: Option<u32>)
    ensures
        match r {
            Some(d) => d < 10 && c == text::digit(d as nat),
            None => forall|d: nat| d < 10 ==> c != #[trigger] text::digit(d),
        },
{
    if '0' <= c && c <= '9' {
        Some(c as u32 - '0' as u32)
    } else {
        None
    }
}

/// The octet that a part of an address holds, written without leading zeros.
fn octet(chars: &Vec<char>, from: usize, to: usize) -> (r: Option<u8>)
    requires
        from <= to <= chars.len(),
    ensures
        match r {
            Some(v) => chars@.subrange(from as int, to as int) == text::decimal(v as nat),
            None => forall|v: u8|
                chars@.subrange(from as int, to as int) != #[trigger] text::decimal(v as nat),
        },
{
    let ghost s = chars@.subrange(from as int, to as int);
    let len = to - from;
    proof {
        assert forall|v: u8| s == #[trigger] text::decimal(v as nat) implies 1 <= len <= 3 by {
            lemma_octet(v as nat);
        }
    }
    if len == 0 || len > 3 {
        return None;
    }
    let mut value: u32 = 0;
    let mut i: usize = from;
    while i < to
        invariant
            from <= i <= to <= chars.len(),
            1 <= len <= 3,
            len == to - from,
            s == chars@.subrange(from as int, to as int),
            i == from ==> value == 0,
            i == from + 1 ==> value < 10 && s[0] == text::digit(value as nat),
            i == from + 2 ==> value < 100 && s[0] == text::digit(value as nat / 10) && s[1]
                == text::digit(value as nat % 10),
            i == from + 3 ==> value < 1000 && s[0] == text::digit(value as nat / 100) && s[1]
                == text::digit(value as nat / 10 % 10) && s[2] == text::digit(value as nat % 10),
        decreases to - i,
    {
        assert(s[i - from] == chars@[i as int]);
        match digit_value(chars[i]) {
            Some(d) => {
                value = value * 10 + d;
            },
            None => {
                proof {
                    assert forall|v: u8| s != #[trigger] text::decimal(v as nat) by {
                        lemma_octet(v as nat);
                        let w = v as nat;
                        if s == text::decimal(w) {
                            assert(w % 10 < 10 && w / 10 % 10 < 10);
                            if w < 10 {
                                assert(s[i - from] == text::digit(w));
                            } else if w < 100 {
                                assert(w / 10 < 10);
                                assert(s[0] == text::digit(w / 10));
                                assert(s[1] == text::digit(w % 10));
                            } else {
                                assert(w / 100 < 10);
                                assert(s[0] == text::digit(w / 100));
                                assert(s[1] == text::digit(w / 10 % 10));
                                assert(s[2] == text::digit(w % 10));
                            }
                        }
                    }
                }
                return None;
            },
        }
        i += 1;
    }
    let least: u32 = if len == 1 {
        0
    } else if len == 2 {
        10
    } else {
        100
    };
    proof {
        assert forall|v: u8| s == #[trigger] text::decimal(v as nat) implies v == value && value
            >= least by {
            lemma_octet(v as nat);
        }
    }
    if value < least || value > 255 {
        return None;
    }
    proof {
        lemma_octet(value as nat);
        assert(s =~= text::decimal(value as nat));
    }
    Some(value as u8)
}

/// Whether an address is safe to forward to: a Docker bridge address, and so
/// neither loopback nor link-local nor public.
#[verifier::spinoff_prover]
#[verifier::rlimit(40)]
pub fn is_safe_proxy_target(ip: &str) -> (r: bool)
    ensures
        r == safe_target(ip@),
{
    let chars = chars_of(ip);
    let n = chars.len();
    proof {
        assert forall|a: u8, b: u8, c: u8, d: u8| #[trigger] dotted(a, b, c, d) == ip@ implies {
            let i = text::first_index(ip@, '.') as int;
            let s1 = ip@.skip(i + 1);
            let j = text::first_index(s1, '.') as int;
            let s2 = s1.skip(j + 1);
            let k = text::first_index(s2, '.') as int;
            &&& i < ip@.len() && ip@.take(i) == text::decimal(a as nat)
            &&& j < s1.len() && s1.take(j) == text::decimal(b as nat)
            &&& k < s2.len() && s2.take(k) == text::decimal(c as nat)
            &&& s2.skip(k + 1) == text::decimal(d as nat)
        } by {
            lemma_dotted(a, b, c, d);
        }
    }
    assert(ip@.skip(0) =~= ip@);
    let i = find_from(&chars, 0, '.');
    if i >= n {
        return false;
    }
    let ghost s1 = ip@.skip(i + 1);
    let j = find_from(&chars, i + 1, '.');
    if j >= n {
        return false;
    }
    let ghost s2 = s1.skip(j - i);
    assert(s2 =~= ip@.skip(j + 1));
    let k = find_from(&chars, j + 1, '.');
    if k >= n {
        return false;
    }
    proof {
        assert(ip@.subrange(0, i as int) =~= ip@.take(i as int));
        assert(ip@.subrange(i + 1, j as int) =~= s1.take(j - i - 1));
        assert(ip@.subrange(j + 1, k as int) =~= s2.take(k - j - 1));
        assert(ip@.subrange(k + 1, n as int) =~= s2.skip(k - j));
    }
    match (octet(&chars, 0, i), octet(&chars, i + 1, j), octet(&chars, j + 1, k), octet(
        &chars,
        k + 1,
        n,
    )) {
        (Some(a), Some(b), Some(c), Some(d)) => {
            proof {
                text::lemma_first_index(ip@, '.');
                text::lemma_first_index(s1, '.');
                text::lemma_first_index(s2, '.');
                assert(ip@ =~= dotted(a, b, c, d));
                assert forall|x: u8, y: u8, z: u8, w: u8| #[trigger]
                    dotted(x, y, z, w) == ip@ implies x == a && y == b by {
                    lemma_octet_injective(x, a);
                    lemma_octet_injective(y, b);
                }
            }
            (a == 172 && 16 <= b && b <= 31) || (a == 192 && b == 168)
        },
        _ => false,
    }
}

/// Address that a proxied request is sent to: `http://ip:port/rest`. A container
/// address outside the Docker ranges is refused.
pub fn proxy_uri(ip: &str, port: u16, rest: &str) -> (r: Result<String, DenError>)
    ensures
        safe_target(ip@) ==> r is Ok && r->Ok_0@ == "http://"@ + ip@ + ":"@ + text::decimal(
            port as nat,
        ) + "/"@ + rest@,
        !safe_target(ip@) ==> r is Err && r->Err_0@ == ErrorView::Proxy(
            "container IP "@ + ip@ + " is not in an allowed range"@,
        ),
{
    if !is_safe_proxy_target(ip) {
        return Err(
            DenError::Proxy(join3("container IP ", ip, " is not in an allowed range")),
        );
    }
    let mut out = join3("http://", ip, ":");
    out.append(render_decimal(port as u64).as_str());
    out.append("/");
    out.append(rest);
    Ok(out)
}

/// No request is ever forwarded to a loopback address, to a link-local address
/// (where clouds serve their metadata) or to any address but those of Docker
/// bridges.
pub proof fn only_bridges_are_reached(a: u8, b: u8, c: u8, d: u8)
    ensures
        safe_target(dotted(a, b, c, d)) <==> bridge_range(a, b),
        a == 127 ==> !safe_target(dotted(a, b, c, d)),
        a == 169 && b == 254 ==> !safe_target(dotted(a, b, c, d)),
        a == 10 ==> !safe_target(dotted(a, b, c, d)),
{
    let s = dotted(a, b, c, d);
    lemma_dotted(a, b, c, d);
    if safe_target(s) {
        let (x, y, z, w) = choose|x: u8, y: u8, z: u8, w: u8| #[trigger]
            dotted(x, y, z, w) == s && bridge_range(x, y);
        lemma_dotted(x, y, z, w);
        lemma_octet_injective(x, a);
        lemma_octet_injective(y, b);
    }
}

proof fn lemma_no_colon(v: u8, rest: Seq<char>)
    requires
        !rest.contains(':'),
    ensures
        !(text::decimal(v as nat) + seq!['.'] + rest).contains(':'),
{
    let x = text::decimal(v as nat);
    let s = x + seq!['.'] + rest;
    lemma_octet(v as nat);
    assert forall|i: int| 0 <= i < s.len() implies s[i] != ':' by {
        if i < x.len() {
            assert(s[i] == x[i]);
        } else if i > x.len() {
            assert(s[i] == rest[i - x.len() - 1]);
        }
    }
}

/// An address with a colon, as every IPv6 address has, is never safe.
pub proof fn no_ipv6_target(ip: Seq<char>)
    requires
        ip.contains(':'),
    ensures
        !safe_target(ip),
{
    if safe_target(ip) {
        let (a, b, c, d) = choose|a: u8, b: u8, c: u8, d: u8| #[trigger]
            dotted(a, b, c, d) == ip && bridge_range(a, b);
        let t3 = text::decimal(d as nat);
        let t2 = text::decimal(c as nat) + seq!['.'] + t3;
        let t1 = text::decimal(b as nat) + seq!['.'] + t2;
        lemma_octet(d as nat);
        lemma_no_colon(c, t3);
        lemma_no_colon(b, t2);
        lemma_no_colon(a, t1);
    }
}

/// Exactly the addresses from 172.16.0.0 to 172.31.255.255 and from 192.168.0.0 to
/// 192.168.255.255 are forwarded to, each of them in dotted decimal.
pub proof fn every_bridge_address_is_reached(a: u8, b: u8, c: u8, d: u8)
    ensures
        safe_target(
            text::decimal(a as nat) + seq!['.'] + text::decimal(b as nat) + seq!['.']
                + text::decimal(c as nat) + seq!['.'] + text::decimal(d as nat),
        ) <==> (a == 172 && b / 16 == 1) || (a == 192 && b == 168),
{
    let s = text::decimal(a as nat) + seq!['.'] + text::decimal(b as nat) + seq!['.']
        + text::decimal(c as nat) + seq!['.'] + text::decimal(d as nat);
    assert(s =~= dotted(a, b, c, d));
    only_bridges_are_reached(a, b, c, d);
}

/// What is forwarded to has the form of an IPv4 address: no text but the dotted
/// decimal of four octets is.
pub proof fn only_addresses_are_reached(ip: Seq<char>)
    requires
        safe_target(ip),
    ensures
        exists|a: u8, b: u8, c: u8, d: u8|
            #![trigger text::decimal(a as nat), text::decimal(b as nat), text::decimal(c as nat),
                text::decimal(d as nat)]
            ip == text::decimal(a as nat) + seq!['.'] + text::decimal(b as nat) + seq!['.']
                + text::decimal(c as nat) + seq!['.'] + text::decimal(d as nat),
{
    let (a, b, c, d) = choose|a: u8, b: u8, c: u8, d: u8| #[trigger]
        dotted(a, b, c, d) == ip && bridge_range(a, b);
    let s = text::decimal(a as nat) + seq!['.'] + text::decimal(b as nat) + seq!['.']
        + text::decimal(c as nat) + seq!['.'] + text::decimal(d as nat);
    assert(s =~= dotted(a, b, c, d));
}

/// A request goes to the container's own address and port, with the rest of its path,
/// where that address is one of a Docker bridge, and nowhere else.
pub proof fn where_requests_are_sent(
    ip: &str,
    port: u16,
    rest: &str,
    r: Result<String, DenError>,
    a: u8,
    b: u8,
    c: u8,
    d: u8,
)
    requires
        call_ensures(proxy_uri, (ip, port, rest), r),
        ip@ == text::decimal(a as nat) + seq!['.'] + text::decimal(b as nat) + seq!['.']
            + text::decimal(c as nat) + seq!['.'] + text::decimal(d as nat),
    ensures
        r is Ok <==> (a == 172 && 16 <= b <= 31) || (a == 192 && b == 168),
        r is Ok ==> r->Ok_0@ == "http://"@ + ip@ + ":"@ + text::decimal(port as nat) + "/"@ + rest@,
        r is Err ==> r->Err_0@ == ErrorView::Proxy(
            "container IP "@ + ip@ + " is not in an allowed range"@,
        ),
{
    every_bridge_address_is_reached(a, b, c, d);
}

/// What is no IPv4 address in dotted decimal is never sent anything.
pub proof fn requests_go_to_addresses_only(
    ip: &str,
    port: u16,
    rest: &str,
    r: Result<String, DenError>,
)
    requires
        call_ensures(proxy_uri, (ip, port, rest), r),
        r is Ok,
    ensures
        exists|a: u8, b: u8, c: u8, d: u8|
            #![trigger text::decimal(a as nat), text::decimal(b as nat), text::decimal(c as nat),
                text::decimal(d as nat)]
            ip@ == text::decimal(a as nat) + seq!['.'] + text::decimal(b as nat) + seq!['.']
                + text::decimal(c as nat) + seq!['.'] + text::decimal(d as nat),
{
    only_addresses_are_reached(ip@);
}

/// An address is safe exactly where it is one of a Docker bridge.
pub proof fn which_addresses_are_safe(ip: &str, r: bool, a: u8, b: u8, c: u8, d: u8)
    requires
        call_ensures(is_safe_proxy_target, (ip,), r),
        ip@ == text::decimal(a as nat) + seq!['.'] + text::decimal(b as nat) + seq!['.']
            + text::decimal(c as nat) + seq!['.'] + text::decimal(d as nat),
    ensures
        r <==> (a == 172 && 16 <= b <= 31) || (a == 192 && b == 168),
{
    every_bridge_address_is_reached(a, b, c, d);
}

} // verus!
