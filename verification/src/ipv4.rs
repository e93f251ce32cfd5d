//! IPv4 addresses held as `u32` in network order (`a.b.c.d` is `a << 24 | b << 16 | c << 8 | d`,
//! as std's `u32::from(Ipv4Addr)` gives it).
use vstd::prelude::*;
use crate::text::{decimal, digit_char, lacks, lemma_split_concat, lemma_split_plain, push_char, push_decimal, split_on};
use crate::number::{all_digits, digit_value, digits_value};

verus! {

/// The four octets of an address, most significant first.
pub open spec fn octets(ip: u32) -> Seq<u8> {
    seq![(ip >> 24u32) as u8, ((ip >> 16u32) & 0xffu32) as u8, ((ip >> 8u32) & 0xffu32) as u8, (ip & 0xffu32) as u8]
}

/// The address `a.b.c.d`.
pub open spec fn from_octets(a: u8, b: u8, c: u8, d: u8) -> u32 {
    ((a as u32) << 24u32) | ((b as u32) << 16u32) | ((c as u32) << 8u32) | (d as u32)
}

/// The address with the given octets.
pub fn ipv4_from_octets(a: u8, b: u8, c: u8, d: u8) -> (ip: u32)
    ensures
        ip == from_octets(a, b, c, d),
{
    ((a as u32) << 24u32) | ((b as u32) << 16u32) | ((c as u32) << 8u32) | (d as u32)
}

/// The four octets of an address.
pub fn ipv4_octets(ip: u32) -> (o: [u8; 4])
    ensures
        o@ == octets(ip),
{
    let o: [u8; 4] = [(ip >> 24u32) as u8, ((ip >> 16u32) & 0xffu32) as u8, ((ip >> 8u32) & 0xffu32) as u8, (ip & 0xffu32) as u8];
    assert(o@ =~= octets(ip));
    o
}

/// Loopback (`127.0.0.0/8`), link-local (`169.254.0.0/16`) or unspecified (`0.0.0.0`),
/// as std's `Ipv4Addr::is_loopback`, `is_link_local` and `is_unspecified` document them.
pub open spec fn is_ignored(ip: u32) -> bool {
    let o = octets(ip);
    o[0] == 127 || (o[0] == 169 && o[1] == 254) || ip == 0
}

/// Whether an interface address is skipped when collecting subnets.
pub fn ignored_ipv4(ip: u32) -> (r: bool)
    ensures
        r == is_ignored(ip),
{
    let o = ipv4_octets(ip);
    o[0] == 127 || (o[0] == 169 && o[1] == 254) || ip == 0
}

/// The text `a.b.c` of an address's first three octets, which names its `/24` subnet.
pub open spec fn subnet_key(ip: u32) -> Seq<char> {
    let o = octets(ip);
    decimal(o[0] as nat) + seq!['.'] + decimal(o[1] as nat) + seq!['.'] + decimal(o[2] as nat)
}

/// The dotted-decimal text `a.b.c.d` of an address.
pub open spec fn dotted(ip: u32) -> Seq<char> {
    subnet_key(ip) + seq!['.'] + decimal(octets(ip)[3] as nat)
}

/// The key `a.b.c` of an address's `/24` subnet.
pub fn subnet_key_of(ip: u32) -> (s: String)
    ensures
        s@ == subnet_key(ip),
{
    let o = ipv4_octets(ip);
    let mut s = String::new();
    push_decimal(&mut s, o[0] as u64);
    push_char(&mut s, '.');
    push_decimal(&mut s, o[1] as u64);
    push_char(&mut s, '.');
    push_decimal(&mut s, o[2] as u64);
    assert(s@ =~= subnet_key(ip));
    s
}

/// The dotted-decimal text of an address (std's `Display` for `Ipv4Addr`).
pub fn ipv4_to_string(ip: u32) -> (s: String)
    ensures
        s@ == dotted(ip),
{
    let mut s = subnet_key_of(ip);
    let o = ipv4_octets(ip);
    push_char(&mut s, '.');
    push_decimal(&mut s, o[3] as u64);
    assert(s@ =~= dotted(ip));
    s
}

/// The directed broadcast address of `addr` under `netmask`: every host bit set.
pub open spec fn broadcast_of(addr: u32, netmask: u32) -> u32 {
    addr | !netmask
}

/// The broadcast address of an interface address and its netmask.
pub fn broadcast_address(addr: u32, netmask: u32) -> (b: u32)
    ensures
        b == broadcast_of(addr, netmask),
{
    addr | !netmask
}

/// How a dotted-decimal octet is read in the strict form: one to three decimal digits,
/// no leading zero unless the octet is `0`, value at most 255.
pub open spec fn decimal_octet(p: Seq<char>) -> Option<nat> {
    if 1 <= p.len() <= 3 && (p.len() == 1 || p[0] != '0') && all_digits(p, 10) && digits_value(p, 10) <= 255 {
        Some(digits_value(p, 10))
    } else {
        None
    }
}

/// The address that a strict dotted-decimal text names: four octets separated by `.`.
pub open spec fn dotted_reading(s: Seq<char>) -> Option<u32> {
    let p = split_on(s, '.');
    if p.len() == 4 && forall|i: int| 0 <= i < 4 ==> (#[trigger] decimal_octet(p[i])) is Some {
        Some(
            from_octets(
                decimal_octet(p[0])->0 as u8,
                decimal_octet(p[1])->0 as u8,
                decimal_octet(p[2])->0 as u8,
                decimal_octet(p[3])->0 as u8,
            ),
        )
    } else {
        None
    }
}

pub(crate) proof fn lemma_decimal(n: nat)
    ensures
        decimal(n).len() >= 1,
        all_digits(decimal(n), 10),
        digits_value(decimal(n), 10) == n,
        lacks(decimal(n), '.'),
        decimal(n)[0] == '0' ==> n == 0,
        n < 10 ==> decimal(n).len() == 1,
        n < 100 ==> decimal(n).len() <= 2,
        n < 1000 ==> decimal(n).len() <= 3,
    decreases n,
{
    reveal_with_fuel(digits_value, 2);
    let d = decimal(n);
    if n < 10 {
        assert(digit_value(digit_char(n), 10) == Some(n));
        assert(d.drop_last() =~= Seq::<char>::empty());
        assert(all_digits(d, 10)) by {
            assert forall|i: int| 0 <= i < d.len() implies (#[trigger] digit_value(d[i], 10)) is Some by {}
        }
    } else {
        let q = decimal(n / 10);
        lemma_decimal(n / 10);
        assert(d == q.push(digit_char(n % 10)));
        assert(d.drop_last() =~= q);
        assert(digit_value(digit_char(n % 10), 10) == Some(n % 10));
        assert(digits_value(d, 10) == (n / 10) * 10 + n % 10);
        assert forall|i: int| 0 <= i < d.len() implies (#[trigger] digit_value(d[i], 10)) is Some by {
            if i < q.len() {
                assert(d[i] == q[i]);
            }
        }
        assert forall|i: int| 0 <= i < d.len() implies #[trigger] d[i] != '.' by {
            if i < q.len() {
                assert(d[i] == q[i]);
            }
        }
        assert(d[0] == q[0]);
    }
}

/// Law: the dotted-decimal text of an address is in the strict form and reads back as
/// that address.
pub proof fn dotted_reads_back(ip: u32)
    ensures
        dotted_reading(dotted(ip)) == Some(ip),
{
    let o = octets(ip);
    let d0 = decimal(o[0] as nat);
    let d1 = decimal(o[1] as nat);
    let d2 = decimal(o[2] as nat);
    let d3 = decimal(o[3] as nat);
    lemma_decimal(o[0] as nat);
    lemma_decimal(o[1] as nat);
    lemma_decimal(o[2] as nat);
    lemma_decimal(o[3] as nat);
    lemma_split_plain(d0, '.');
    lemma_split_concat(d0, d1, '.');
    lemma_split_concat(d0 + seq!['.'] + d1, d2, '.');
    lemma_split_concat(d0 + seq!['.'] + d1 + seq!['.'] + d2, d3, '.');
    let p = split_on(dotted(ip), '.');
    assert(p =~= seq![d0, d1, d2, d3]);
    assert forall|i: int| 0 <= i < 4 implies (#[trigger] decimal_octet(p[i])) is Some && decimal_octet(p[i]) == Some(o[i] as nat) by {
        lemma_decimal(o[i] as nat);
    }
    assert(from_octets(
        (ip >> 24u32) as u8,
        ((ip >> 16u32) & 0xffu32) as u8,
        ((ip >> 8u32) & 0xffu32) as u8,
        (ip & 0xffu32) as u8,
    ) == ip) by (bit_vector);
}

} // verus!
