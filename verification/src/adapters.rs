//! Network adapters: telling virtual adapters apart and collecting usable IPv4 subnets.
use vstd::prelude::*;
use crate::text::{chars_of, contains, contains_chars, lowercase_of, push_char, push_str, to_lowercase};
use crate::ipv4::{broadcast_address, broadcast_of, dotted, dotted_reading, dotted_reads_back, ignored_ipv4, ipv4_to_string, is_ignored, subnet_key, subnet_key_of};

verus! {

/// Words that mark an adapter as virtual (hypervisors, VPNs, tunnels, containers).
pub open spec fn virtual_keywords() -> Seq<Seq<char>> {
    seq![
        "virtual"@, "vbox"@, "vmware"@, "hyper-v"@, "vethernet"@, "wsl"@,
        "npcap"@, "loopback"@, "tunnel"@, "tap"@, "tun"@, "bluetooth"@,
        "tailscale"@, "zerotier"@, "wireguard"@, "openvpn"@, "anyconnect"@,
        "fortinet"@, "hamachi"@, "docker"@, "container"@, "parallels"@, "qemu"@, "xen"@,
    ]
}

/// Some virtual-adapter keyword occurs in `lowered`.
pub open spec fn names_virtual_adapter(lowered: Seq<char>) -> bool {
    exists|i: int| 0 <= i < virtual_keywords().len() && #[trigger] contains(lowered, virtual_keywords()[i])
}

/// The text `"{name} {desc} {friendly}"` that adapters are judged by.
pub open spec fn adapter_label(name: Seq<char>, desc: Seq<char>, friendly: Seq<char>) -> Seq<char> {
    name + seq![' '] + desc + seq![' '] + friendly
}

/// An adapter is virtual when its lowercased label holds a virtual-adapter keyword.
pub open spec fn is_virtual(name: Seq<char>, desc: Seq<char>, friendly: Seq<char>) -> bool {
    names_virtual_adapter(lowercase_of(adapter_label(name, desc, friendly)))
}

/// Whether an already lowercased adapter label holds a virtual-adapter keyword.
pub fn matches_virtual_keyword(lowered: &str) -> (r: bool)
    ensures
        r == names_virtual_adapter(lowered@),
{
    let hay = chars_of(lowered);
    let keywords: Vec<&str> = vec![
        "virtual", "vbox", "vmware", "hyper-v", "vethernet", "wsl",
        "npcap", "loopback", "tunnel", "tap", "tun", "bluetooth",
        "tailscale", "zerotier", "wireguard", "openvpn", "anyconnect",
        "fortinet", "hamachi", "docker", "container", "parallels", "qemu", "xen",
    ];
    assert(keywords@.len() == virtual_keywords().len());
    assert(forall|i: int| 0 <= i < keywords@.len() ==> #[trigger] keywords@[i]@ == virtual_keywords()[i]);
    let mut i: usize = 0;
    while i < keywords.len()
        invariant
            i <= keywords@.len(),
            hay@ == lowered@,
            keywords@.len() == virtual_keywords().len(),
            forall|j: int| 0 <= j < keywords@.len() ==> #[trigger] keywords@[j]@ == virtual_keywords()[j],
            forall|j: int| 0 <= j < i ==> !contains(lowered@, #[trigger] virtual_keywords()[j]),
        decreases keywords@.len() - i,
    {
        let needle = chars_of(keywords[i]);
        if contains_chars(&hay, &needle) {
            assert(keywords@[i as int]@ == virtual_keywords()[i as int]);
            return true;
        }
        i = i + 1;
    }
    false
}

/// Whether an adapter, given by its name, description and friendly name, is virtual.
pub fn is_virtual_adapter(name: &str, desc: &str, friendly: &str) -> (r: bool)
    ensures
        r == is_virtual(name@, desc@, friendly@),
{
    let mut label = String::new();
    push_str(&mut label, name);
    push_char(&mut label, ' ');
    push_str(&mut label, desc);
    push_char(&mut label, ' ');
    push_str(&mut label, friendly);
    assert(label@ =~= adapter_label(name@, desc@, friendly@));
    let lowered = to_lowercase(label.as_str());
    matches_virtual_keyword(lowered.as_str())
}

/// Law: an already lowercased label names a virtual adapter exactly when it contains one of
/// the words virtual, vbox, vmware, hyper-v, vethernet, wsl, npcap, loopback, tunnel, tap,
/// tun, bluetooth, tailscale, zerotier, wireguard, openvpn, anyconnect, fortinet, hamachi,
/// docker, container, parallels, qemu or xen.
pub proof fn virtual_keywords_are_the_listed_words(lowered: Seq<char>)
    ensures
        names_virtual_adapter(lowered) <==> {
            ||| contains(lowered, "virtual"@)
            ||| contains(lowered, "vbox"@)
            ||| contains(lowered, "vmware"@)
            ||| contains(lowered, "hyper-v"@)
            ||| contains(lowered, "vethernet"@)
            ||| contains(lowered, "wsl"@)
            ||| contains(lowered, "npcap"@)
            ||| contains(lowered, "loopback"@)
            ||| contains(lowered, "tunnel"@)
            ||| contains(lowered, "tap"@)
            ||| contains(lowered, "tun"@)
            ||| contains(lowered, "bluetooth"@)
            ||| contains(lowered, "tailscale"@)
            ||| contains(lowered, "zerotier"@)
            ||| contains(lowered, "wireguard"@)
            ||| contains(lowered, "openvpn"@)
            ||| contains(lowered, "anyconnect"@)
            ||| contains(lowered, "fortinet"@)
            ||| contains(lowered, "hamachi"@)
            ||| contains(lowered, "docker"@)
            ||| contains(lowered, "container"@)
            ||| contains(lowered, "parallels"@)
            ||| contains(lowered, "qemu"@)
            ||| contains(lowered, "xen"@)
        },
{
    let k = virtual_keywords();
    assert(k.len() == 24);
    assert(k[0] == "virtual"@);
    assert(k[1] == "vbox"@);
    assert(k[2] == "vmware"@);
    assert(k[3] == "hyper-v"@);
    assert(k[4] == "vethernet"@);
    assert(k[5] == "wsl"@);
    assert(k[6] == "npcap"@);
    assert(k[7] == "loopback"@);
    assert(k[8] == "tunnel"@);
    assert(k[9] == "tap"@);
    assert(k[10] == "tun"@);
    assert(k[11] == "bluetooth"@);
    assert(k[12] == "tailscale"@);
    assert(k[13] == "zerotier"@);
    assert(k[14] == "wireguard"@);
    assert(k[15] == "openvpn"@);
    assert(k[16] == "anyconnect"@);
    assert(k[17] == "fortinet"@);
    assert(k[18] == "hamachi"@);
    assert(k[19] == "docker"@);
    assert(k[20] == "container"@);
    assert(k[21] == "parallels"@);
    assert(k[22] == "qemu"@);
    assert(k[23] == "xen"@);
    if names_virtual_adapter(lowered) {
        let i = choose|i: int| 0 <= i < k.len() && #[trigger] contains(lowered, k[i]);
        assert(i == 0 || i == 1 || i == 2 || i == 3 || i == 4 || i == 5 || i == 6 || i == 7 || i == 8 || i == 9 || i == 10 || i == 11 || i == 12 || i == 13 || i == 14 || i == 15 || i == 16 || i == 17 || i == 18 || i == 19 || i == 20 || i == 21 || i == 22 || i == 23);
    }
    if contains(lowered, "virtual"@) { assert(contains(lowered, k[0])); }
    if contains(lowered, "vbox"@) { assert(contains(lowered, k[1])); }
    if contains(lowered, "vmware"@) { assert(contains(lowered, k[2])); }
    if contains(lowered, "hyper-v"@) { assert(contains(lowered, k[3])); }
    if contains(lowered, "vethernet"@) { assert(contains(lowered, k[4])); }
    if contains(lowered, "wsl"@) { assert(contains(lowered, k[5])); }
    if contains(lowered, "npcap"@) { assert(contains(lowered, k[6])); }
    if contains(lowered, "loopback"@) { assert(contains(lowered, k[7])); }
    if contains(lowered, "tunnel"@) { assert(contains(lowered, k[8])); }
    if contains(lowered, "tap"@) { assert(contains(lowered, k[9])); }
    if contains(lowered, "tun"@) { assert(contains(lowered, k[10])); }
    if contains(lowered, "bluetooth"@) { assert(contains(lowered, k[11])); }
    if contains(lowered, "tailscale"@) { assert(contains(lowered, k[12])); }
    if contains(lowered, "zerotier"@) { assert(contains(lowered, k[13])); }
    if contains(lowered, "wireguard"@) { assert(contains(lowered, k[14])); }
    if contains(lowered, "openvpn"@) { assert(contains(lowered, k[15])); }
    if contains(lowered, "anyconnect"@) { assert(contains(lowered, k[16])); }
    if contains(lowered, "fortinet"@) { assert(contains(lowered, k[17])); }
    if contains(lowered, "hamachi"@) { assert(contains(lowered, k[18])); }
    if contains(lowered, "docker"@) { assert(contains(lowered, k[19])); }
    if contains(lowered, "container"@) { assert(contains(lowered, k[20])); }
    if contains(lowered, "parallels"@) { assert(contains(lowered, k[21])); }
    if contains(lowered, "qemu"@) { assert(contains(lowered, k[22])); }
    if contains(lowered, "xen"@) { assert(contains(lowered, k[23])); }
}

/// Law: an adapter whose lowercased label (name, description and friendly name joined by
/// spaces) contains one of the listed words is virtual, and no other adapter is.
pub proof fn adapter_is_virtual_by_listed_words(name: Seq<char>, desc: Seq<char>, friendly: Seq<char>)
    ensures
        is_virtual(name, desc, friendly) <==> {
            let lowered = lowercase_of(adapter_label(name, desc, friendly));
            ||| contains(lowered, "virtual"@)
            ||| contains(lowered, "vbox"@)
            ||| contains(lowered, "vmware"@)
            ||| contains(lowered, "hyper-v"@)
            ||| contains(lowered, "vethernet"@)
            ||| contains(lowered, "wsl"@)
            ||| contains(lowered, "npcap"@)
            ||| contains(lowered, "loopback"@)
            ||| contains(lowered, "tunnel"@)
            ||| contains(lowered, "tap"@)
            ||| contains(lowered, "tun"@)
            ||| contains(lowered, "bluetooth"@)
            ||| contains(lowered, "tailscale"@)
            ||| contains(lowered, "zerotier"@)
            ||| contains(lowered, "wireguard"@)
            ||| contains(lowered, "openvpn"@)
            ||| contains(lowered, "anyconnect"@)
            ||| contains(lowered, "fortinet"@)
            ||| contains(lowered, "hamachi"@)
            ||| contains(lowered, "docker"@)
            ||| contains(lowered, "container"@)
            ||| contains(lowered, "parallels"@)
            ||| contains(lowered, "qemu"@)
            ||| contains(lowered, "xen"@)
        },
{
    virtual_keywords_are_the_listed_words(lowercase_of(adapter_label(name, desc, friendly)));
}

/// The kind of a network interface, as far as subnet collection cares.
#[derive(Clone, Copy, Debug, PartialEq, Eq, Structural)]
pub enum AdapterKind {
    Loopback,
    Tunnel,
    Other,
}

/// One IPv4 address of an interface with its netmask.
#[derive(Clone, Copy, Debug, PartialEq, Eq, Structural)]
pub struct Ipv4Net {
    pub addr: u32,
    pub netmask: u32,
}

/// A network interface as the operating system reports it.
#[derive(Debug)]
pub struct NetInterface {
    pub name: String,
    pub friendly_name: Option<String>,
    pub description: Option<String>,
    pub if_type: AdapterKind,
    pub ipv4: Vec<Ipv4Net>,
}

/// A collected subnet: its `a.b.c` key, the interface address and the broadcast address.
pub type Subnet = (String, u32, u32);

/// A subnet as a value: key text, interface address, broadcast address.
pub type SubnetView = (Seq<char>, u32, u32);

/// The text of an optional string, empty when absent.
pub open spec fn text_or_empty(o: Option<String>) -> Seq<char> {
    match o {
        Some(s) => s@,
        None => Seq::empty(),
    }
}

/// An interface whose label marks it as virtual.
pub open spec fn interface_is_virtual(i: NetInterface) -> bool {
    is_virtual(i.name@, text_or_empty(i.description), text_or_empty(i.friendly_name))
}

/// An interface that the scan of physical interfaces keeps.
pub open spec fn is_physical(i: NetInterface) -> bool {
    i.if_type != AdapterKind::Loopback && i.if_type != AdapterKind::Tunnel && !interface_is_virtual(i)
}

/// The subnets as values.
pub open spec fn subnets_view(v: Seq<Subnet>) -> Seq<SubnetView> {
    v.map_values(|t: Subnet| (t.0@, t.1, t.2))
}

/// The entry that an address contributes.
pub open spec fn subnet_entry(n: Ipv4Net) -> SubnetView {
    (subnet_key(n.addr), n.addr, broadcast_of(n.addr, n.netmask))
}

/// Some collected subnet already has this key.
pub open spec fn has_key(acc: Seq<SubnetView>, key: Seq<char>) -> bool {
    exists|j: int| 0 <= j < acc.len() && (#[trigger] acc[j]).0 == key
}

/// One address offered to the collection: kept unless ignored or its subnet is already there.
pub open spec fn offer(acc: Seq<SubnetView>, n: Ipv4Net) -> Seq<SubnetView> {
    if is_ignored(n.addr) || has_key(acc, subnet_key(n.addr)) {
        acc
    } else {
        acc.push(subnet_entry(n))
    }
}

/// The addresses offered in order.
pub open spec fn offer_all(acc: Seq<SubnetView>, nets: Seq<Ipv4Net>) -> Seq<SubnetView>
    decreases nets.len(),
{
    if nets.len() == 0 {
        acc
    } else {
        offer(offer_all(acc, nets.drop_last()), nets.last())
    }
}

/// The addresses of the default interface, when it is not virtual.
pub open spec fn default_nets(default_iface: Option<NetInterface>) -> Seq<Ipv4Net> {
    match default_iface {
        Some(d) => if interface_is_virtual(d) {
            Seq::empty()
        } else {
            d.ipv4@
        },
        None => Seq::empty(),
    }
}

/// The addresses of the physical interfaces, in order.
pub open spec fn physical_nets(ifaces: Seq<NetInterface>) -> Seq<Ipv4Net>
    decreases ifaces.len(),
{
    if ifaces.len() == 0 {
        Seq::empty()
    } else {
        physical_nets(ifaces.drop_last()) + if is_physical(ifaces.last()) {
            ifaces.last().ipv4@
        } else {
            Seq::empty()
        }
    }
}

/// The addresses of all interfaces, in order.
pub open spec fn all_nets(ifaces: Seq<NetInterface>) -> Seq<Ipv4Net>
    decreases ifaces.len(),
{
    if ifaces.len() == 0 {
        Seq::empty()
    } else {
        all_nets(ifaces.drop_last()) + ifaces.last().ipv4@
    }
}

/// The subnets collected: the default interface first, then the physical interfaces;
/// when that yields nothing, every interface's usable addresses.
pub open spec fn collected_subnets(default_iface: Option<NetInterface>, ifaces: Seq<NetInterface>) -> Seq<SubnetView> {
    let preferred = offer_all(Seq::empty(), default_nets(default_iface) + physical_nets(ifaces));
    if preferred.len() == 0 {
        offer_all(Seq::empty(), all_nets(ifaces))
    } else {
        preferred
    }
}

proof fn lemma_offer_all_concat(acc: Seq<SubnetView>, a: Seq<Ipv4Net>, b: Seq<Ipv4Net>)
    ensures
        offer_all(acc, a + b) == offer_all(offer_all(acc, a), b),
    decreases b.len(),
{
    if b.len() == 0 {
        assert(a + b =~= a);
    } else {
        lemma_offer_all_concat(acc, a, b.drop_last());
        assert((a + b).drop_last() =~= a + b.drop_last());
        assert((a + b).last() == b.last());
    }
}

/// Whether some collected subnet already has `key`.
fn key_taken(out: &Vec<Subnet>, key: &String) -> (r: bool)
    ensures
        r == has_key(subnets_view(out@), key@),
{
    let mut j: usize = 0;
    while j < out.len()
        invariant
            j <= out@.len(),
            forall|k: int| 0 <= k < j ==> (#[trigger] subnets_view(out@)[k]).0 != key@,
        decreases out@.len() - j,
    {
        if out[j].0 == *key {
            assert(subnets_view(out@)[j as int].0 == key@);
            return true;
        }
        j = j + 1;
    }
    false
}

/// Offers each address of `nets` to the collection, in order.
fn offer_nets(out: &mut Vec<Subnet>, nets: &Vec<Ipv4Net>)
    ensures
        subnets_view(final(out)@) == offer_all(subnets_view(old(out)@), nets@),
{
    let ghost start = subnets_view(out@);
    for i in 0..nets.len()
        invariant
            subnets_view(out@) == offer_all(start, nets@.take(i as int)),
    {
        let n = nets[i];
        assert(nets@.take(i + 1).drop_last() =~= nets@.take(i as int));
        if !ignored_ipv4(n.addr) {
            let key = subnet_key_of(n.addr);
            if !key_taken(out, &key) {
                let b = broadcast_address(n.addr, n.netmask);
                let ghost before = out@;
                out.push((key, n.addr, b));
                assert(subnets_view(out@) =~= subnets_view(before).push(subnet_entry(n)));
            }
        }
    }
    assert(nets@.take(nets@.len() as int) =~= nets@);
}

/// The label text of an optional string.
fn text_of(o: &Option<String>) -> (s: &str)
    ensures
        s@ == text_or_empty(*o),
{
    match o {
        Some(t) => t.as_str(),
        None => {
            let e = "";
            proof {
                reveal_strlit("");
            }
            assert(e@ =~= Seq::<char>::empty());
            e
        },
    }
}

/// Whether an interface is virtual.
fn interface_virtual(i: &NetInterface) -> (r: bool)
    ensures
        r == interface_is_virtual(*i),
{
    is_virtual_adapter(i.name.as_str(), text_of(&i.description), text_of(&i.friendly_name))
}

/// The usable physical IPv4 subnets: `(key, interface address, broadcast address)` per
/// `/24` subnet, the default interface's first when it is not virtual.
pub fn local_subnets(default_iface: &Option<NetInterface>, interfaces: &Vec<NetInterface>) -> (out: Vec<Subnet>)
    ensures
        subnets_view(out@) == collected_subnets(*default_iface, interfaces@),
{
    let mut out: Vec<Subnet> = Vec::new();
    assert(subnets_view(out@) =~= Seq::<SubnetView>::empty());
    match default_iface {
        Some(d) => {
            if !interface_virtual(d) {
                offer_nets(&mut out, &d.ipv4);
            }
        },
        None => {},
    }
    assert(offer_all(Seq::empty(), default_nets(*default_iface)) == subnets_view(out@)) by {
        if default_nets(*default_iface).len() == 0 {
            assert(default_nets(*default_iface) =~= Seq::<Ipv4Net>::empty());
        }
    }
    let ghost after_default = subnets_view(out@);
    for k in 0..interfaces.len()
        invariant
            subnets_view(out@) == offer_all(after_default, physical_nets(interfaces@.take(k as int))),
    {
        let iface = &interfaces[k];
        let ghost before = subnets_view(out@);
        assert(interfaces@.take(k + 1).drop_last() =~= interfaces@.take(k as int));
        let skip = match iface.if_type {
            AdapterKind::Loopback => true,
            AdapterKind::Tunnel => true,
            AdapterKind::Other => false,
        };
        if !skip && !interface_virtual(iface) {
            offer_nets(&mut out, &iface.ipv4);
            proof {
                lemma_offer_all_concat(after_default, physical_nets(interfaces@.take(k as int)), iface.ipv4@);
            }
        } else {
            assert(physical_nets(interfaces@.take(k + 1)) =~= physical_nets(interfaces@.take(k as int)));
        }
    }
    assert(interfaces@.take(interfaces@.len() as int) =~= interfaces@);
    proof {
        lemma_offer_all_concat(Seq::empty(), default_nets(*default_iface), physical_nets(interfaces@));
    }
    if out.len() == 0 {
        assert(subnets_view(out@).len() == 0);
        for k in 0..interfaces.len()
            invariant
                subnets_view(out@) == offer_all(Seq::empty(), all_nets(interfaces@.take(k as int))),
        {
            assert(interfaces@.take(k + 1).drop_last() =~= interfaces@.take(k as int));
            offer_nets(&mut out, &interfaces[k].ipv4);
            proof {
                lemma_offer_all_concat(Seq::empty(), all_nets(interfaces@.take(k as int)), interfaces@[k as int].ipv4@);
            }
        }
        assert(interfaces@.take(interfaces@.len() as int) =~= interfaces@);
    }
    out
}

/// The primary local IPv4 address, for heartbeat reporting: the address of the first
/// collected subnet, in dotted-decimal text.
pub fn primary_ipv4(subnets: &Vec<Subnet>) -> (r: Option<String>)
    ensures
        match r {
            Some(s) => subnets@.len() > 0 && s@ == dotted(subnets@[0].1),
            None => subnets@.len() == 0,
        },
{
    if subnets.len() == 0 {
        None
    } else {
        Some(ipv4_to_string(subnets[0].1))
    }
}

/// The collected subnets are usable and each comes from one offered address of `pool`,
/// with no key twice.
pub open spec fn well_collected(acc: Seq<SubnetView>, pool: Seq<Ipv4Net>) -> bool {
    &&& forall|i: int, j: int| 0 <= i < j < acc.len() ==> (#[trigger] acc[i]).0 != (#[trigger] acc[j]).0
    &&& forall|i: int| 0 <= i < acc.len() ==> !is_ignored((#[trigger] acc[i]).1)
    &&& forall|i: int| 0 <= i < acc.len() ==> exists|n: Ipv4Net| pool.contains(n) && #[trigger] acc[i] == subnet_entry(n)
}

proof fn lemma_offer_all_well_collected(acc: Seq<SubnetView>, nets: Seq<Ipv4Net>, pool: Seq<Ipv4Net>)
    requires
        well_collected(acc, pool),
        forall|k: int| 0 <= k < nets.len() ==> pool.contains(#[trigger] nets[k]),
    ensures
        well_collected(offer_all(acc, nets), pool),
    decreases nets.len(),
{
    if nets.len() > 0 {
        lemma_offer_all_well_collected(acc, nets.drop_last(), pool);
        let a = offer_all(acc, nets.drop_last());
        let n = nets.last();
        assert(pool.contains(nets[nets.len() - 1]));
        if !(is_ignored(n.addr) || has_key(a, subnet_key(n.addr))) {
            let b = a.push(subnet_entry(n));
            assert forall|i: int, j: int| 0 <= i < j < b.len() implies (#[trigger] b[i]).0 != (#[trigger] b[j]).0 by {
                if j == a.len() {
                    if b[i].0 == b[j].0 {
                        assert(a[i].0 == subnet_key(n.addr));
                    }
                } else {
                    assert(b[i] == a[i] && b[j] == a[j]);
                }
            }
            assert forall|i: int| 0 <= i < b.len() implies exists|m: Ipv4Net| pool.contains(m) && #[trigger] b[i] == subnet_entry(m) by {
                if i < a.len() {
                    assert(b[i] == a[i]);
                } else {
                    assert(b[i] == subnet_entry(n));
                }
            }
        }
    }
}

proof fn lemma_offer_all_keeps_prefix(acc: Seq<SubnetView>, nets: Seq<Ipv4Net>)
    ensures
        acc.len() <= offer_all(acc, nets).len(),
        forall|i: int| 0 <= i < acc.len() ==> #[trigger] offer_all(acc, nets)[i] == acc[i],
    decreases nets.len(),
{
    if nets.len() > 0 {
        lemma_offer_all_keeps_prefix(acc, nets.drop_last());
    }
}

proof fn lemma_offer_all_first(nets: Seq<Ipv4Net>, j: int)
    requires
        0 <= j < nets.len(),
        !is_ignored(nets[j].addr),
        forall|k: int| 0 <= k < j ==> is_ignored(#[trigger] nets[k].addr),
    ensures
        offer_all(Seq::empty(), nets).len() > 0,
        offer_all(Seq::empty(), nets)[0] == subnet_entry(nets[j]),
{
    lemma_offer_all_ignored(nets.take(j));
    assert(nets.take(j + 1).drop_last() =~= nets.take(j));
    let first = offer_all(Seq::empty(), nets.take(j + 1));
    assert(first =~= seq![subnet_entry(nets[j])]);
    lemma_offer_all_concat(Seq::empty(), nets.take(j + 1), nets.skip(j + 1));
    assert(nets.take(j + 1) + nets.skip(j + 1) =~= nets);
    lemma_offer_all_keeps_prefix(first, nets.skip(j + 1));
}

proof fn lemma_offer_all_ignored(nets: Seq<Ipv4Net>)
    requires
        forall|k: int| 0 <= k < nets.len() ==> is_ignored(#[trigger] nets[k].addr),
    ensures
        offer_all(Seq::empty(), nets) == Seq::<SubnetView>::empty(),
    decreases nets.len(),
{
    if nets.len() > 0 {
        assert forall|k: int| 0 <= k < nets.drop_last().len() implies is_ignored(#[trigger] nets.drop_last()[k].addr) by {
            assert(nets.drop_last()[k] == nets[k]);
        }
        lemma_offer_all_ignored(nets.drop_last());
        assert(is_ignored(nets[nets.len() - 1].addr));
    }
}

/// Every address that local subnet collection may use.
pub open spec fn offered_pool(default_iface: Option<NetInterface>, ifaces: Seq<NetInterface>) -> Seq<Ipv4Net> {
    default_nets(default_iface) + physical_nets(ifaces) + all_nets(ifaces)
}

/// Law: the collected subnets never repeat a `/24` key, never use a loopback, link-local or
/// unspecified address, and each is the entry of one interface address: the key of its
/// `/24` subnet, the address itself, and the address with every host bit of its netmask set.
pub proof fn local_subnets_well_formed(default_iface: Option<NetInterface>, ifaces: Seq<NetInterface>)
    ensures
        well_collected(collected_subnets(default_iface, ifaces), offered_pool(default_iface, ifaces)),
{
    let pool = offered_pool(default_iface, ifaces);
    let pref = default_nets(default_iface) + physical_nets(ifaces);
    let all = all_nets(ifaces);
    assert(well_collected(Seq::empty(), pool));
    assert forall|k: int| 0 <= k < pref.len() implies pool.contains(#[trigger] pref[k]) by {
        assert(pool[k] == pref[k]);
    }
    assert forall|k: int| 0 <= k < all.len() implies pool.contains(#[trigger] all[k]) by {
        assert(pool[pref.len() + k] == all[k]);
    }
    lemma_offer_all_well_collected(Seq::empty(), pref, pool);
    lemma_offer_all_well_collected(Seq::empty(), all, pool);
}

/// Law: when the default interface is not virtual and has a usable address, the first
/// collected subnet is that of its first usable address, so the primary IPv4 is that address.
pub proof fn default_interface_comes_first(d: NetInterface, ifaces: Seq<NetInterface>, j: int)
    requires
        !interface_is_virtual(d),
        0 <= j < d.ipv4@.len(),
        !is_ignored(d.ipv4@[j].addr),
        forall|k: int| 0 <= k < j ==> is_ignored(#[trigger] d.ipv4@[k].addr),
    ensures
        collected_subnets(Some(d), ifaces).len() > 0,
        collected_subnets(Some(d), ifaces)[0] == subnet_entry(d.ipv4@[j]),
{
    let nets = default_nets(Some(d)) + physical_nets(ifaces);
    assert forall|k: int| 0 <= k < j implies is_ignored(#[trigger] nets[k].addr) by {
        assert(nets[k] == d.ipv4@[k]);
    }
    assert(nets[j] == d.ipv4@[j]);
    lemma_offer_all_first(nets, j);
}

proof fn lemma_offer_all_empty(nets: Seq<Ipv4Net>)
    ensures
        offer_all(Seq::empty(), nets).len() == 0 <==> forall|k: int| 0 <= k < nets.len() ==> is_ignored(#[trigger] nets[k].addr),
{
    if forall|k: int| 0 <= k < nets.len() ==> is_ignored(#[trigger] nets[k].addr) {
        lemma_offer_all_ignored(nets);
    } else {
        let j = choose|j: int| 0 <= j < nets.len() && !is_ignored(#[trigger] nets[j].addr);
        lemma_first_usable(nets, j);
    }
}

proof fn lemma_first_usable(nets: Seq<Ipv4Net>, j: int)
    requires
        0 <= j < nets.len(),
        !is_ignored(nets[j].addr),
    ensures
        offer_all(Seq::empty(), nets).len() > 0,
    decreases j,
{
    if exists|k: int| 0 <= k < j && !is_ignored(#[trigger] nets[k].addr) {
        let k = choose|k: int| 0 <= k < j && !is_ignored(#[trigger] nets[k].addr);
        lemma_first_usable(nets, k);
    } else {
        lemma_offer_all_first(nets, j);
    }
}

/// Law: local subnet collection comes back empty only when no address of the default
/// interface or of any interface is usable (all are loopback, link-local or unspecified).
pub proof fn local_subnets_empty_only_without_usable_address(default_iface: Option<NetInterface>, ifaces: Seq<NetInterface>)
    ensures
        collected_subnets(default_iface, ifaces).len() == 0 <==> (
            (forall|k: int| 0 <= k < default_nets(default_iface).len() ==> is_ignored(#[trigger] default_nets(default_iface)[k].addr))
            && (forall|k: int| 0 <= k < all_nets(ifaces).len() ==> is_ignored(#[trigger] all_nets(ifaces)[k].addr))),
{
    let d = default_nets(default_iface);
    let pref = d + physical_nets(ifaces);
    let all = all_nets(ifaces);
    lemma_offer_all_empty(pref);
    lemma_offer_all_empty(all);
    if offer_all(Seq::empty(), pref).len() == 0 {
        assert forall|k: int| 0 <= k < d.len() implies is_ignored(#[trigger] d[k].addr) by {
            assert(pref[k] == d[k]);
        }
    } else {
        let j = choose|j: int| 0 <= j < pref.len() && !is_ignored(#[trigger] pref[j].addr);
        if j < d.len() {
            assert(d[j] == pref[j]);
        } else {
            lemma_physical_in_all(ifaces, j - d.len());
        }
    }
}

proof fn lemma_physical_in_all(ifaces: Seq<NetInterface>, i: int)
    requires
        0 <= i < physical_nets(ifaces).len(),
    ensures
        exists|m: int| 0 <= m < all_nets(ifaces).len() && all_nets(ifaces)[m] == physical_nets(ifaces)[i],
    decreases ifaces.len(),
{
    if ifaces.len() > 0 {
        let p = physical_nets(ifaces.drop_last());
        let a = all_nets(ifaces.drop_last());
        if i < p.len() {
            lemma_physical_in_all(ifaces.drop_last(), i);
            let m = choose|m: int| 0 <= m < a.len() && a[m] == p[i];
            assert(all_nets(ifaces)[m] == a[m]);
            assert(physical_nets(ifaces)[i] == p[i]);
        } else {
            assert(is_physical(ifaces.last()));
            assert(physical_nets(ifaces)[i] == ifaces.last().ipv4@[i - p.len()]);
            assert(all_nets(ifaces)[a.len() + i - p.len()] == ifaces.last().ipv4@[i - p.len()]);
        }
    }
}

/// The addresses of the kept interfaces: the default interface's when it is not virtual,
/// then every physical interface's.
pub open spec fn preferred_nets(default_iface: Option<NetInterface>, ifaces: Seq<NetInterface>) -> Seq<Ipv4Net> {
    default_nets(default_iface) + physical_nets(ifaces)
}

proof fn lemma_offer_all_covers(acc: Seq<SubnetView>, nets: Seq<Ipv4Net>)
    ensures
        forall|k: int| 0 <= k < nets.len() && !is_ignored(#[trigger] nets[k].addr) ==> has_key(
            offer_all(acc, nets),
            subnet_key(nets[k].addr),
        ),
    decreases nets.len(),
{
    if nets.len() > 0 {
        let init = nets.drop_last();
        lemma_offer_all_covers(acc, init);
        let a = offer_all(acc, init);
        let n = nets.last();
        let r = offer_all(acc, nets);
        assert(r == offer(a, n));
        assert forall|k: int| 0 <= k < nets.len() && !is_ignored(#[trigger] nets[k].addr) implies has_key(
            r,
            subnet_key(nets[k].addr),
        ) by {
            if k < init.len() {
                assert(init[k] == nets[k]);
                let j = choose|j: int| 0 <= j < a.len() && (#[trigger] a[j]).0 == subnet_key(nets[k].addr);
                if r != a {
                    assert(r[j] == a[j]);
                }
            } else {
                assert(nets[k] == n);
                if !has_key(a, subnet_key(n.addr)) {
                    assert(r[a.len() as int] == subnet_entry(n));
                }
            }
        }
    }
}

/// Law: every usable address of a kept interface (the default interface when it is not
/// virtual, and each physical interface) has its `/24` subnet in the collection; when no
/// kept interface has a usable address, the same holds of every interface's addresses.
pub proof fn local_subnets_cover_usable_addresses(default_iface: Option<NetInterface>, ifaces: Seq<NetInterface>)
    ensures
        forall|k: int| 0 <= k < preferred_nets(default_iface, ifaces).len()
            && !is_ignored(#[trigger] preferred_nets(default_iface, ifaces)[k].addr) ==> has_key(
            collected_subnets(default_iface, ifaces),
            subnet_key(preferred_nets(default_iface, ifaces)[k].addr),
        ),
        offer_all(Seq::empty(), preferred_nets(default_iface, ifaces)).len() == 0 ==> forall|k: int| 0 <= k < all_nets(ifaces).len()
            && !is_ignored(#[trigger] all_nets(ifaces)[k].addr) ==> has_key(
            collected_subnets(default_iface, ifaces),
            subnet_key(all_nets(ifaces)[k].addr),
        ),
{
    let pref = preferred_nets(default_iface, ifaces);
    lemma_offer_all_covers(Seq::empty(), pref);
    lemma_offer_all_covers(Seq::empty(), all_nets(ifaces));
    if offer_all(Seq::empty(), pref).len() == 0 {
        assert forall|k: int| 0 <= k < pref.len() && !is_ignored(#[trigger] pref[k].addr) implies has_key(
            collected_subnets(default_iface, ifaces),
            subnet_key(pref[k].addr),
        ) by {
            assert(has_key(offer_all(Seq::empty(), pref), subnet_key(pref[k].addr)));
        }
    }
}

/// Law: the primary IPv4 text, that of the first collected subnet, is in the strict
/// dotted-decimal form, reads back as that subnet's address, and that address is usable.
pub proof fn primary_ipv4_reads_back(default_iface: Option<NetInterface>, ifaces: Seq<NetInterface>)
    ensures
        collected_subnets(default_iface, ifaces).len() > 0 ==> {
            let a = collected_subnets(default_iface, ifaces)[0].1;
            dotted_reading(dotted(a)) == Some(a) && !is_ignored(a)
        },
{
    local_subnets_well_formed(default_iface, ifaces);
    if collected_subnets(default_iface, ifaces).len() > 0 {
        let a = collected_subnets(default_iface, ifaces)[0].1;
        dotted_reads_back(a);
    }
}

} // verus!
