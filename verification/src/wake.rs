//! Wake-on-LAN: MAC address parsing, magic packets, where they are sent and how a
//! broadcast round is summed up.
use vstd::prelude::*;
use crate::text::{chars_of, pieces_view, push_str, split_chars, split_on, trim, trim_chars, trim_end, trim_start, white_space};
use crate::number::{parse_unsigned, parse_unsigned_chars};
use crate::ipv4::{from_octets, ipv4_from_octets, ipv4_octets, octets};
use crate::adapters::{Subnet, subnets_view, SubnetView};

verus! {

/// `s` with every `-` replaced by `:`.
pub open spec fn dashes_to_colons(s: Seq<char>) -> Seq<char> {
    s.map_values(|c: char| if c == '-' { ':' } else { c })
}

/// The pieces of a MAC address text: trimmed, `-` read as `:`, split at `:`.
pub open spec fn mac_parts(s: Seq<char>) -> Seq<Seq<char>> {
    split_on(dashes_to_colons(trim(s)), ':')
}

/// The value of one MAC piece: a hexadecimal number up to 255, as std
/// `u8::from_str_radix(piece, 16)` reads it.
pub open spec fn mac_octet(p: Seq<char>) -> Option<nat> {
    parse_unsigned(p, 16, 255)
}

/// The MAC address that `s` writes: exactly six pieces, each a valid octet.
pub open spec fn mac_of(s: Seq<char>) -> Option<Seq<u8>> {
    let parts = mac_parts(s);
    if parts.len() == 6 && forall|i: int| 0 <= i < 6 ==> (#[trigger] mac_octet(parts[i])) is Some {
        Some(Seq::new(6, |i: int| mac_octet(parts[i])->0 as u8))
    } else {
        None
    }
}

/// Parses a MAC address such as `aa:bb:cc:dd:ee:ff` or `AA-BB-CC-DD-EE-FF`,
/// ignoring surrounding white space.
pub fn parse_mac(s: &str) -> (r: Option<[u8; 6]>)
    ensures
        match r {
            Some(m) => mac_of(s@) == Some(m@),
            None => mac_of(s@) is None,
        },
{
    let raw = chars_of(s);
    let trimmed = trim_chars(&raw);
    let mut text: Vec<char> = Vec::new();
    for i in 0..trimmed.len()
        invariant
            text@ == dashes_to_colons(trimmed@.take(i as int)),
    {
        let c = trimmed[i];
        text.push(if c == '-' { ':' } else { c });
        assert(text@ =~= dashes_to_colons(trimmed@.take(i + 1)));
    }
    assert(trimmed@.take(trimmed@.len() as int) =~= trimmed@);
    let parts = split_chars(&text, ':');
    let ghost pv = pieces_view(parts@);
    assert(pv == mac_parts(s@));
    if parts.len() != 6 {
        return None;
    }
    let mut mac: [u8; 6] = [0u8; 6];
    for i in 0..6usize
        invariant
            parts@.len() == 6,
            pv == pieces_view(parts@),
            pv == mac_parts(s@),
            forall|j: int| 0 <= j < i ==> (#[trigger] mac_octet(pv[j])) is Some && mac@[j] == mac_octet(pv[j])->0 as u8,
    {
        assert(parts@[i as int]@ == pv[i as int]);
        match parse_unsigned_chars(parts[i].as_slice(), 16, 255) {
            Some(v) => {
                mac[i] = v as u8;
            },
            None => {
                assert(mac_octet(pv[i as int]) is None);
                return None;
            },
        }
    }
    assert(mac@ =~= Seq::new(6, |i: int| mac_octet(pv[i])->0 as u8));
    Some(mac)
}

/// The Wake-on-LAN magic packet for `mac`: six `0xFF` bytes, then the address sixteen times.
pub open spec fn is_magic_packet(p: Seq<u8>, mac: Seq<u8>) -> bool {
    &&& p.len() == 102
    &&& forall|i: int| 0 <= i < 6 ==> p[i] == 0xFF
    &&& forall|i: int| 6 <= i < 102 ==> p[i] == mac[(i - 6) % 6]
}

/// Builds the magic packet that wakes the machine with address `mac`.
pub fn create_magic_packet(mac: [u8; 6]) -> (packet: [u8; 102])
    ensures
        is_magic_packet(packet@, mac@),
{
    let mut packet: [u8; 102] = [0xFFu8; 102];
    let mut k: usize = 6;
    let mut m: usize = 0;
    while k < 102
        invariant
            6 <= k <= 102,
            m < 6,
            m == (k - 6) % 6,
            forall|i: int| 0 <= i < 6 ==> packet@[i] == 0xFF,
            forall|i: int| 6 <= i < k ==> packet@[i] == mac@[(i - 6) % 6],
        decreases 102 - k,
    {
        packet[k] = mac[m];
        k = k + 1;
        m = if m == 5 {
            0
        } else {
            m + 1
        };
    }
    packet
}

/// Where one magic packet goes: an IPv4 address and a UDP port.
#[derive(Clone, Copy, Debug, PartialEq, Eq, Structural)]
pub struct WakeTarget {
    pub ip: u32,
    pub port: u16,
}

/// The limited broadcast address `255.255.255.255`.
pub const GLOBAL_BROADCAST: u32 = 0xFFFF_FFFFu32;

/// `ip` on port 9 `reps` times, then on port 7 `reps` times (the two Wake-on-LAN ports).
pub open spec fn on_both_ports(ip: u32, reps: nat) -> Seq<WakeTarget> {
    Seq::new(2 * reps, |k: int| WakeTarget { ip, port: if k < reps { 9u16 } else { 7u16 } })
}

/// Each candidate address in turn, on both ports, `reps` times each.
pub open spec fn targets_for(cands: Seq<u32>, reps: nat) -> Seq<WakeTarget>
    decreases cands.len(),
{
    if cands.len() == 0 {
        Seq::empty()
    } else {
        targets_for(cands.drop_last(), reps) + on_both_ports(cands.last(), reps)
    }
}

/// The broadcast candidates tried for a subnet from the unbound socket: its broadcast
/// address, then the `/24`, `/16`, `/22` and `/23` broadcasts around the interface address.
pub open spec fn wide_candidates(iface_ip: u32, bcast: u32) -> Seq<u32> {
    let o = octets(iface_ip);
    seq![
        bcast,
        from_octets(o[0], o[1], o[2], 255),
        from_octets(o[0], o[1], 255, 255),
        from_octets(o[0], o[1], o[2] | 3, 255),
        from_octets(o[0], o[1], o[2] | 1, 255),
    ]
}

/// The broadcast candidates tried for a subnet from a socket bound to its interface:
/// its broadcast address, then the `/24` and `/16` broadcasts.
pub open spec fn bound_candidates(iface_ip: u32, bcast: u32) -> Seq<u32> {
    wide_candidates(iface_ip, bcast).take(3)
}

/// The sends made from the unbound socket for the subnets `subs`, after the global ones.
pub open spec fn subnet_sends(subs: Seq<SubnetView>) -> Seq<WakeTarget>
    decreases subs.len(),
{
    if subs.len() == 0 {
        Seq::empty()
    } else {
        subnet_sends(subs.drop_last()) + targets_for(wide_candidates(subs.last().1, subs.last().2), 2)
    }
}

/// All sends from the unbound socket: the global broadcast three times per port, then
/// every subnet's candidates twice per port.
pub open spec fn unbound_sends(subs: Seq<SubnetView>) -> Seq<WakeTarget> {
    on_both_ports(GLOBAL_BROADCAST, 3) + subnet_sends(subs)
}

/// Appends `ip` on both ports, `reps` times each.
fn push_both_ports(out: &mut Vec<WakeTarget>, ip: u32, reps: usize)
    requires
        reps <= 3,
    ensures
        final(out)@ == old(out)@ + on_both_ports(ip, reps as nat),
{
    let ghost start = out@;
    let ghost all = on_both_ports(ip, reps as nat);
    for r in 0..reps
        invariant
            reps <= 3,
            all == on_both_ports(ip, reps as nat),
            out@ == start + all.take(r as int),
    {
        out.push(WakeTarget { ip, port: 9u16 });
        assert(out@ =~= start + all.take(r + 1));
    }
    for r in 0..reps
        invariant
            reps <= 3,
            all == on_both_ports(ip, reps as nat),
            out@ == start + all.take(reps + r),
    {
        out.push(WakeTarget { ip, port: 7u16 });
        assert(out@ =~= start + all.take(reps + r + 1));
    }
    assert(all.take(reps + reps) =~= all);
}

/// Appends each candidate on both ports, `reps` times each.
fn push_candidates(out: &mut Vec<WakeTarget>, cands: &Vec<u32>, reps: usize)
    requires
        reps <= 3,
    ensures
        final(out)@ == old(out)@ + targets_for(cands@, reps as nat),
{
    let ghost start = out@;
    for i in 0..cands.len()
        invariant
            reps <= 3,
            out@ == start + targets_for(cands@.take(i as int), reps as nat),
    {
        assert(cands@.take(i + 1).drop_last() =~= cands@.take(i as int));
        push_both_ports(out, cands[i], reps);
        assert(out@ =~= start + targets_for(cands@.take(i + 1), reps as nat));
    }
    assert(cands@.take(cands@.len() as int) =~= cands@);
}

/// The five broadcast candidates of a subnet for the unbound socket.
pub fn subnet_candidates(iface_ip: u32, bcast: u32) -> (c: Vec<u32>)
    ensures
        c@ == wide_candidates(iface_ip, bcast),
{
    let o = ipv4_octets(iface_ip);
    let c = vec![
        bcast,
        ipv4_from_octets(o[0], o[1], o[2], 255),
        ipv4_from_octets(o[0], o[1], 255, 255),
        ipv4_from_octets(o[0], o[1], o[2] | 3, 255),
        ipv4_from_octets(o[0], o[1], o[2] | 1, 255),
    ];
    assert(c@ =~= wide_candidates(iface_ip, bcast));
    c
}

/// Every send made from the unbound socket, in order, for the collected subnets.
pub fn unbound_targets(subnets: &Vec<Subnet>) -> (t: Vec<WakeTarget>)
    ensures
        t@ == unbound_sends(subnets_view(subnets@)),
{
    let mut t: Vec<WakeTarget> = Vec::new();
    push_both_ports(&mut t, GLOBAL_BROADCAST, 3);
    let ghost head = t@;
    assert(head =~= on_both_ports(GLOBAL_BROADCAST, 3));
    for i in 0..subnets.len()
        invariant
            head == on_both_ports(GLOBAL_BROADCAST, 3),
            t@ == head + subnet_sends(subnets_view(subnets@).take(i as int)),
    {
        let ghost sv = subnets_view(subnets@);
        assert(sv.take(i + 1).drop_last() =~= sv.take(i as int));
        assert(sv[i as int] == (subnets@[i as int].0@, subnets@[i as int].1, subnets@[i as int].2));
        let cands = subnet_candidates(subnets[i].1, subnets[i].2);
        push_candidates(&mut t, &cands, 2);
        assert(t@ =~= head + subnet_sends(sv.take(i + 1)));
    }
    assert(subnets_view(subnets@).take(subnets@.len() as int) =~= subnets_view(subnets@));
    t
}

/// The sends made from a socket bound to a subnet's interface address.
pub fn bound_targets(iface_ip: u32, bcast: u32) -> (t: Vec<WakeTarget>)
    ensures
        t@ == targets_for(bound_candidates(iface_ip, bcast), 1),
{
    let all = subnet_candidates(iface_ip, bcast);
    let cands = vec![all[0], all[1], all[2]];
    assert(cands@ =~= bound_candidates(iface_ip, bcast));
    let mut t: Vec<WakeTarget> = Vec::new();
    push_candidates(&mut t, &cands, 1);
    assert(t@ =~= targets_for(bound_candidates(iface_ip, bcast), 1));
    t
}

/// What a broadcast round has gathered so far: MACs woken and the last error text.
pub open spec fn tally_step(sent: nat, last_err: Seq<char>, mac: Seq<char>, packets: nat) -> (nat, Seq<char>) {
    if mac_of(mac) is None {
        (sent, "invalid MAC address: "@ + mac)
    } else if packets > 0 {
        (sent + 1, last_err)
    } else if last_err.len() == 0 {
        (sent, "Failed to send magic packet for MAC "@ + mac)
    } else {
        (sent, last_err)
    }
}

/// The round summed over `attempts`: each MAC text with the number of packets that left for it.
pub open spec fn tally(attempts: Seq<(Seq<char>, nat)>) -> (nat, Seq<char>)
    decreases attempts.len(),
{
    if attempts.len() == 0 {
        (0, Seq::empty())
    } else {
        let t = tally(attempts.drop_last());
        tally_step(t.0, t.1, attempts.last().0, attempts.last().1)
    }
}

/// The outcome of a round: the number of MACs woken, or the last error when none was
/// woken and something went wrong.
pub open spec fn round_outcome(attempts: Seq<(Seq<char>, nat)>) -> Result<nat, Seq<char>> {
    let t = tally(attempts);
    if t.0 == 0 && t.1.len() > 0 {
        Err(t.1)
    } else {
        Ok(t.0)
    }
}

/// The attempts as values.
pub open spec fn attempts_view(a: Seq<(String, usize)>) -> Seq<(Seq<char>, nat)> {
    a.map_values(|t: (String, usize)| (t.0@, t.1 as nat))
}

/// Sums up a broadcast round. `attempts` holds each MAC text, in the order given, with the
/// number of magic packets that were sent for it (ignored for a text that is no MAC).
pub fn broadcast_outcome(attempts: &Vec<(String, usize)>) -> (r: Result<usize, String>)
    ensures
        match r {
            Ok(n) => round_outcome(attempts_view(attempts@)) == Ok::<nat, Seq<char>>(n as nat),
            Err(e) => round_outcome(attempts_view(attempts@)) == Err::<nat, Seq<char>>(e@),
        },
{
    let mut sent: usize = 0;
    let mut last_err = String::new();
    for i in 0..attempts.len()
        invariant
            sent <= i,
            tally(attempts_view(attempts@).take(i as int)) == (sent as nat, last_err@),
    {
        let ghost av = attempts_view(attempts@);
        assert(av.take(i + 1).drop_last() =~= av.take(i as int));
        assert(av[i as int] == (attempts@[i as int].0@, attempts@[i as int].1 as nat));
        let mac_text = &attempts[i].0;
        let packets = attempts[i].1;
        match parse_mac(mac_text.as_str()) {
            None => {
                let mut e = String::new();
                push_str(&mut e, "invalid MAC address: ");
                push_str(&mut e, mac_text.as_str());
                last_err = e;
            },
            Some(_) => {
                if packets > 0 {
                    sent = sent + 1;
                } else if last_err.as_str().is_empty() {
                    let mut e = String::new();
                    push_str(&mut e, "Failed to send magic packet for MAC ");
                    push_str(&mut e, mac_text.as_str());
                    last_err = e;
                }
            },
        }
    }
    assert(attempts_view(attempts@).take(attempts@.len() as int) =~= attempts_view(attempts@));
    if sent == 0 && !last_err.as_str().is_empty() {
        Err(last_err)
    } else {
        Ok(sent)
    }
}

/// The number of attempts whose MAC is valid and for which some packet left.
pub open spec fn woken_count(attempts: Seq<(Seq<char>, nat)>) -> nat
    decreases attempts.len(),
{
    if attempts.len() == 0 {
        0
    } else {
        woken_count(attempts.drop_last()) + if mac_of(attempts.last().0) is Some && attempts.last().1 > 0 {
            1nat
        } else {
            0nat
        }
    }
}

/// Some attempt failed: its text is no MAC, or no packet left for it.
pub open spec fn some_attempt_failed(attempts: Seq<(Seq<char>, nat)>) -> bool {
    exists|i: int| 0 <= i < attempts.len() && (mac_of((#[trigger] attempts[i]).0) is None || attempts[i].1 == 0)
}

proof fn lemma_tally(attempts: Seq<(Seq<char>, nat)>)
    ensures
        tally(attempts).0 == woken_count(attempts),
        tally(attempts).1.len() > 0 <==> some_attempt_failed(attempts),
    decreases attempts.len(),
{
    if attempts.len() > 0 {
        let init = attempts.drop_last();
        lemma_tally(init);
        let last = attempts.last();
        reveal_strlit("invalid MAC address: ");
        reveal_strlit("Failed to send magic packet for MAC ");
        if some_attempt_failed(init) {
            let i = choose|i: int| 0 <= i < init.len() && (mac_of((#[trigger] init[i]).0) is None || init[i].1 == 0);
            assert(attempts[i] == init[i]);
        }
        if some_attempt_failed(attempts) && !(mac_of(last.0) is None || last.1 == 0) {
            let i = choose|i: int| 0 <= i < attempts.len() && (mac_of((#[trigger] attempts[i]).0) is None || attempts[i].1 == 0);
            assert(i < init.len());
            assert(init[i] == attempts[i]);
        }
        if mac_of(last.0) is None || last.1 == 0 {
            assert(attempts[attempts.len() - 1] == last);
        }
    }
}

/// Law: a broadcast round reports the number of valid MACs for which some packet left,
/// and fails only when that number is zero and some MAC was invalid or could not be sent.
pub proof fn round_outcome_counts_woken(attempts: Seq<(Seq<char>, nat)>)
    ensures
        round_outcome(attempts) is Err <==> (woken_count(attempts) == 0 && some_attempt_failed(attempts)),
        round_outcome(attempts) is Ok ==> round_outcome(attempts) == Ok::<nat, Seq<char>>(woken_count(attempts)),
{
    lemma_tally(attempts);
}

proof fn lemma_trim_start_commutes(s: Seq<char>)
    ensures
        trim_start(dashes_to_colons(s)) == dashes_to_colons(trim_start(s)),
    decreases s.len(),
{
    let m = dashes_to_colons(s);
    if s.len() > 0 && white_space(s[0]) {
        assert(m[0] == s[0]);
        assert(m.drop_first() =~= dashes_to_colons(s.drop_first()));
        lemma_trim_start_commutes(s.drop_first());
    } else if s.len() > 0 {
        assert(!white_space(m[0]));
    }
}

proof fn lemma_trim_end_commutes(s: Seq<char>)
    ensures
        trim_end(dashes_to_colons(s)) == dashes_to_colons(trim_end(s)),
    decreases s.len(),
{
    let m = dashes_to_colons(s);
    if s.len() > 0 && white_space(s.last()) {
        assert(m.last() == s.last());
        assert(m.drop_last() =~= dashes_to_colons(s.drop_last()));
        lemma_trim_end_commutes(s.drop_last());
    } else if s.len() > 0 {
        assert(!white_space(m.last()));
    }
}

/// Law: a MAC address text reads the same whether its pieces are separated by `-` or by
/// `:`: writing every `-` as `:` first changes nothing.
pub proof fn mac_separators_are_interchangeable(s: Seq<char>)
    ensures
        mac_of(dashes_to_colons(s)) == mac_of(s),
{
    lemma_trim_start_commutes(s);
    lemma_trim_end_commutes(trim_start(s));
    let t = trim(s);
    assert(dashes_to_colons(dashes_to_colons(t)) =~= dashes_to_colons(t));
    assert(mac_parts(dashes_to_colons(s)) == mac_parts(s));
}

proof fn lemma_targets_for_contains(cands: Seq<u32>, reps: nat, c: int)
    requires
        0 <= c < cands.len(),
        reps >= 1,
    ensures
        targets_for(cands, reps).contains(WakeTarget { ip: cands[c], port: 9u16 }),
        targets_for(cands, reps).contains(WakeTarget { ip: cands[c], port: 7u16 }),
    decreases cands.len(),
{
    let init = targets_for(cands.drop_last(), reps);
    let last = on_both_ports(cands.last(), reps);
    assert(targets_for(cands, reps) == init + last);
    if c < cands.len() - 1 {
        lemma_targets_for_contains(cands.drop_last(), reps, c);
        assert(cands.drop_last()[c] == cands[c]);
        let i = choose|i: int| 0 <= i < init.len() && init[i] == WakeTarget { ip: cands[c], port: 9u16 };
        assert((init + last)[i] == init[i]);
        let k = choose|k: int| 0 <= k < init.len() && init[k] == WakeTarget { ip: cands[c], port: 7u16 };
        assert((init + last)[k] == init[k]);
    } else {
        assert((init + last)[init.len() as int] == last[0]);
        assert((init + last)[(init.len() + reps) as int] == last[reps as int]);
    }
}

proof fn lemma_subnet_sends_contains(subs: Seq<SubnetView>, i: int)
    requires
        0 <= i < subs.len(),
    ensures
        subnet_sends(subs).contains(WakeTarget { ip: subs[i].2, port: 9u16 }),
        subnet_sends(subs).contains(WakeTarget { ip: subs[i].2, port: 7u16 }),
    decreases subs.len(),
{
    let init = subnet_sends(subs.drop_last());
    let last = targets_for(wide_candidates(subs.last().1, subs.last().2), 2);
    assert(subnet_sends(subs) == init + last);
    if i < subs.len() - 1 {
        lemma_subnet_sends_contains(subs.drop_last(), i);
        assert(subs.drop_last()[i] == subs[i]);
        let a = choose|a: int| 0 <= a < init.len() && init[a] == WakeTarget { ip: subs[i].2, port: 9u16 };
        assert((init + last)[a] == init[a]);
        let b = choose|b: int| 0 <= b < init.len() && init[b] == WakeTarget { ip: subs[i].2, port: 7u16 };
        assert((init + last)[b] == init[b]);
    } else {
        lemma_targets_for_contains(wide_candidates(subs.last().1, subs.last().2), 2, 0);
        let a = choose|a: int| 0 <= a < last.len() && last[a] == WakeTarget { ip: subs[i].2, port: 9u16 };
        assert((init + last)[init.len() + a] == last[a]);
        let b = choose|b: int| 0 <= b < last.len() && last[b] == WakeTarget { ip: subs[i].2, port: 7u16 };
        assert((init + last)[init.len() + b] == last[b]);
    }
}

/// Law: the unbound socket sends to the global broadcast address and to every collected
/// subnet's broadcast address, each on both Wake-on-LAN ports (9 and 7).
pub proof fn every_subnet_broadcast_is_targeted(subs: Seq<SubnetView>)
    ensures
        unbound_sends(subs).contains(WakeTarget { ip: GLOBAL_BROADCAST, port: 9u16 }),
        unbound_sends(subs).contains(WakeTarget { ip: GLOBAL_BROADCAST, port: 7u16 }),
        forall|i: int| 0 <= i < subs.len() ==> unbound_sends(subs).contains(WakeTarget { ip: (#[trigger] subs[i]).2, port: 9u16 })
            && unbound_sends(subs).contains(WakeTarget { ip: subs[i].2, port: 7u16 }),
{
    let g = on_both_ports(GLOBAL_BROADCAST, 3);
    let rest = subnet_sends(subs);
    assert((g + rest)[0] == g[0]);
    assert((g + rest)[3] == g[3]);
    assert forall|i: int| 0 <= i < subs.len() implies unbound_sends(subs).contains(WakeTarget { ip: (#[trigger] subs[i]).2, port: 9u16 })
        && unbound_sends(subs).contains(WakeTarget { ip: subs[i].2, port: 7u16 }) by {
        lemma_subnet_sends_contains(subs, i);
        let a = choose|a: int| 0 <= a < rest.len() && rest[a] == WakeTarget { ip: subs[i].2, port: 9u16 };
        assert((g + rest)[g.len() + a] == rest[a]);
        let b = choose|b: int| 0 <= b < rest.len() && rest[b] == WakeTarget { ip: subs[i].2, port: 7u16 };
        assert((g + rest)[g.len() + b] == rest[b]);
    }
}

/// Two rounds whose MAC texts read as the same addresses, one by one, with the same
/// numbers of packets sent.
pub open spec fn rounds_alike(a: Seq<(Seq<char>, nat)>, b: Seq<(Seq<char>, nat)>) -> bool {
    a.len() == b.len() && forall|i: int| 0 <= i < a.len() ==> mac_of((#[trigger] a[i]).0) == mac_of(b[i].0) && a[i].1 == b[i].1
}

proof fn lemma_rounds_alike(a: Seq<(Seq<char>, nat)>, b: Seq<(Seq<char>, nat)>)
    requires
        rounds_alike(a, b),
    ensures
        woken_count(a) == woken_count(b),
        some_attempt_failed(a) == some_attempt_failed(b),
    decreases a.len(),
{
    if a.len() > 0 {
        assert(rounds_alike(a.drop_last(), b.drop_last())) by {
            assert forall|i: int| 0 <= i < a.drop_last().len() implies mac_of((#[trigger] a.drop_last()[i]).0)
                == mac_of(b.drop_last()[i].0) && a.drop_last()[i].1 == b.drop_last()[i].1 by {
                assert(a.drop_last()[i] == a[i]);
                assert(b.drop_last()[i] == b[i]);
            }
        }
        lemma_rounds_alike(a.drop_last(), b.drop_last());
        assert(a[a.len() - 1] == a.last());
        if some_attempt_failed(a) {
            let i = choose|i: int| 0 <= i < a.len() && (mac_of((#[trigger] a[i]).0) is None || a[i].1 == 0);
            assert(mac_of(b[i].0) is None || b[i].1 == 0);
        }
        if some_attempt_failed(b) {
            let i = choose|i: int| 0 <= i < b.len() && (mac_of((#[trigger] b[i]).0) is None || b[i].1 == 0);
            assert(mac_of(a[i].0) == mac_of(b[i].0));
            assert(mac_of(a[i].0) is None || a[i].1 == 0);
        }
    }
}

/// Law: how MAC texts are written does not change a round's outcome. When the texts of
/// two rounds read as the same addresses one by one (for instance they differ only in
/// separators, letter case or surrounding white space) and the same numbers of packets
/// left for them, both rounds succeed with the same count or both fail (the error texts
/// quote the MAC texts as given).
pub proof fn round_outcome_ignores_mac_spelling(a: Seq<(Seq<char>, nat)>, b: Seq<(Seq<char>, nat)>)
    requires
        rounds_alike(a, b),
    ensures
        round_outcome(a) is Ok <==> round_outcome(b) is Ok,
        round_outcome(a) is Ok ==> round_outcome(a) == round_outcome(b),
{
    lemma_rounds_alike(a, b);
    round_outcome_counts_woken(a);
    round_outcome_counts_woken(b);
}

/// `c` is the broadcast address of the prefix under `mask` that holds `ip`: same network
/// bits as `ip`, every host bit set.
pub open spec fn broadcast_of_prefix(c: u32, ip: u32, mask: u32) -> bool {
    c & mask == ip & mask && c | mask == 0xFFFF_FFFFu32
}

/// Law: a subnet's broadcast candidates are the given broadcast address, then the
/// broadcast addresses of the `/24`, `/16`, `/22` and `/23` prefixes that hold the interface
/// address; the bound socket uses the first three of them.
pub proof fn candidates_are_broadcasts_around_interface(iface_ip: u32, bcast: u32)
    ensures
        wide_candidates(iface_ip, bcast).len() == 5,
        wide_candidates(iface_ip, bcast)[0] == bcast,
        broadcast_of_prefix(wide_candidates(iface_ip, bcast)[1], iface_ip, 0xFFFF_FF00u32),
        broadcast_of_prefix(wide_candidates(iface_ip, bcast)[2], iface_ip, 0xFFFF_0000u32),
        broadcast_of_prefix(wide_candidates(iface_ip, bcast)[3], iface_ip, 0xFFFF_FC00u32),
        broadcast_of_prefix(wide_candidates(iface_ip, bcast)[4], iface_ip, 0xFFFF_FE00u32),
        bound_candidates(iface_ip, bcast) == wide_candidates(iface_ip, bcast).take(3),
{
    let ip = iface_ip;
    let a: u8 = (ip >> 24u32) as u8;
    let b: u8 = ((ip >> 16u32) & 0xffu32) as u8;
    let c: u8 = ((ip >> 8u32) & 0xffu32) as u8;
    assert(octets(ip) == seq![a, b, c, (ip & 0xffu32) as u8]);
    let c1 = from_octets(a, b, c, 255);
    let c2 = from_octets(a, b, 255, 255);
    let c3 = from_octets(a, b, c | 3, 255);
    let c4 = from_octets(a, b, c | 1, 255);
    assert(wide_candidates(ip, bcast) == seq![bcast, c1, c2, c3, c4]);
    assert(c1 & 0xFFFF_FF00u32 == ip & 0xFFFF_FF00u32 && c1 | 0xFFFF_FF00u32 == 0xFFFF_FFFFu32) by (bit_vector)
        requires
            a == (ip >> 24u32) as u8,
            b == ((ip >> 16u32) & 0xffu32) as u8,
            c == ((ip >> 8u32) & 0xffu32) as u8,
            c1 == ((a as u32) << 24u32) | ((b as u32) << 16u32) | ((c as u32) << 8u32) | (255u8 as u32),
    ;
    assert(c2 & 0xFFFF_0000u32 == ip & 0xFFFF_0000u32 && c2 | 0xFFFF_0000u32 == 0xFFFF_FFFFu32) by (bit_vector)
        requires
            a == (ip >> 24u32) as u8,
            b == ((ip >> 16u32) & 0xffu32) as u8,
            c2 == ((a as u32) << 24u32) | ((b as u32) << 16u32) | ((255u8 as u32) << 8u32) | (255u8 as u32),
    ;
    assert(c3 & 0xFFFF_FC00u32 == ip & 0xFFFF_FC00u32 && c3 | 0xFFFF_FC00u32 == 0xFFFF_FFFFu32) by (bit_vector)
        requires
            a == (ip >> 24u32) as u8,
            b == ((ip >> 16u32) & 0xffu32) as u8,
            c == ((ip >> 8u32) & 0xffu32) as u8,
            c3 == ((a as u32) << 24u32) | ((b as u32) << 16u32) | (((c | 3u8) as u32) << 8u32) | (255u8 as u32),
    ;
    assert(c4 & 0xFFFF_FE00u32 == ip & 0xFFFF_FE00u32 && c4 | 0xFFFF_FE00u32 == 0xFFFF_FFFFu32) by (bit_vector)
        requires
            a == (ip >> 24u32) as u8,
            b == ((ip >> 16u32) & 0xffu32) as u8,
            c == ((ip >> 8u32) & 0xffu32) as u8,
            c4 == ((a as u32) << 24u32) | ((b as u32) << 16u32) | (((c | 1u8) as u32) << 8u32) | (255u8 as u32),
    ;
}

} // verus!
