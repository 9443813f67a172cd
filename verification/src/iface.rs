//! Choosing the network to sweep from the machine's interfaces, preferring
//! LAN interfaces over VPN tunnels.

use vstd::prelude::*;

use crate::ipv4::{
    exec_is_loopback, exec_is_private, is_loopback, is_private, octet0, octet1, pow2, Subnet,
};
use crate::text::{ascii_lower, chars_of};

verus! {

// ---------------------------------------------------------------------------
// Interface names
// ---------------------------------------------------------------------------

/// What `str::to_lowercase` makes of a text (Unicode lowercase mapping).
pub uninterp spec fn lowercase(s: Seq<char>) -> Seq<char>;

/// `str::to_lowercase`. Claimed: the result is `lowercase` of the text, and
/// for an all-ASCII text it maps `A`..`Z` to `a`..`z` and keeps every other
/// character, as the Unicode lowercase mapping does for ASCII.
#[verifier::external_body]
fn to_lowercase(s: &str) -> (r: String)
    ensures
        r@ == lowercase(s@),
        (forall|i: int| 0 <= i < s@.len() ==> (s@[i] as u32) < 128) ==> r@ == s@.map_values(
            |c: char| ascii_lower(c),
        ),
{
    s.to_lowercase()
}

/// Words in an interface name that mark a VPN tunnel (or loopback).
pub open spec fn vpn_name_hints() -> Seq<Seq<char>> {
    seq![
        "vpn"@,
        "tunnel"@,
        "tap-"@,
        "nordlynx"@,
        "nordvpn"@,
        "wireguard"@,
        "openvpn"@,
        "expressvpn"@,
        "mullvad"@,
        "protonvpn"@,
        "surfshark"@,
        "windscribe"@,
        "loopback"@,
    ]
}

fn vpn_hints() -> (r: Vec<&'static str>)
    ensures
        r@.len() == vpn_name_hints().len(),
        forall|i: int| 0 <= i < r@.len() ==> #[trigger] r@[i]@ == vpn_name_hints()[i],
{
    let mut v: Vec<&'static str> = Vec::new();
    v.push("vpn");
    v.push("tunnel");
    v.push("tap-");
    v.push("nordlynx");
    v.push("nordvpn");
    v.push("wireguard");
    v.push("openvpn");
    v.push("expressvpn");
    v.push("mullvad");
    v.push("protonvpn");
    v.push("surfshark");
    v.push("windscribe");
    v.push("loopback");
    v
}

/// Whether `needle` occurs in `hay` as a contiguous run.
pub open spec fn contains_run(hay: Seq<char>, needle: Seq<char>) -> bool {
    exists|i: int|
        0 <= i && i + needle.len() <= hay.len() && #[trigger] hay.subrange(i, i + needle.len())
            == needle
}

fn matches_at(hay: &Vec<char>, needle: &Vec<char>, i: usize) -> (r: bool)
    requires
        i + needle@.len() <= hay@.len(),
    ensures
        r == (hay@.subrange(i as int, i + needle@.len()) == needle@),
{
    let mut j: usize = 0;
    while j < needle.len()
        invariant
            i + needle@.len() <= hay.len(),
            j <= needle@.len(),
            forall|k: int| 0 <= k < j ==> hay@[i + k] == needle@[k],
        decreases needle.len() - j,
    {
        if hay[i + j] != needle[j] {
            assert(hay@.subrange(i as int, i + needle@.len())[j as int] != needle@[j as int]);
            return false;
        }
        j = j + 1;
    }
    assert(hay@.subrange(i as int, i + needle@.len()) =~= needle@);
    true
}

fn contains_chars(hay: &Vec<char>, needle: &Vec<char>) -> (r: bool)
    ensures
        r == contains_run(hay@, needle@),
{
    if needle.len() > hay.len() {
        return false;
    }
    let last = hay.len() - needle.len();
    let mut i: usize = 0;
    while i < last
        invariant
            last + needle@.len() == hay@.len(),
            i <= last,
            forall|k: int| 0 <= k < i ==> #[trigger] hay@.subrange(k, k + needle@.len()) != needle@,
        decreases last - i,
    {
        if matches_at(hay, needle, i) {
            return true;
        }
        i = i + 1;
    }
    matches_at(hay, needle, last)
}

/// Whether a (lowercase) text holds one of the VPN hints.
pub open spec fn has_vpn_hint_spec(lower: Seq<char>) -> bool {
    exists|k: int| 0 <= k < vpn_name_hints().len() && contains_run(lower, #[trigger] vpn_name_hints()[k])
}

/// Whether an interface name marks a VPN tunnel: its lowercase form holds
/// one of the hints.
pub open spec fn is_vpn_name(name: Seq<char>) -> bool {
    has_vpn_hint_spec(lowercase(name))
}

/// Whether the lowercase interface name `lower` holds one of the VPN hints.
pub fn has_vpn_hint(lower: &str) -> (r: bool)
    ensures
        r == has_vpn_hint_spec(lower@),
{
    let lc = chars_of(lower);
    let hints = vpn_hints();
    let mut k: usize = 0;
    while k < hints.len()
        invariant
            hints@.len() == vpn_name_hints().len(),
            forall|i: int| 0 <= i < hints@.len() ==> #[trigger] hints@[i]@ == vpn_name_hints()[i],
            lc@ == lower@,
            k <= hints@.len(),
            forall|i: int| 0 <= i < k ==> !contains_run(lc@, #[trigger] vpn_name_hints()[i]),
        decreases hints.len() - k,
    {
        let h = chars_of(hints[k]);
        if contains_chars(&lc, &h) {
            assert(contains_run(lower@, vpn_name_hints()[k as int]));
            return true;
        }
        k = k + 1;
    }
    false
}

/// Whether the interface called `name` is a VPN tunnel (see `is_vpn_name`).
pub fn is_vpn_iface(name: &str) -> (r: bool)
    ensures
        r == is_vpn_name(name@),
        (forall|i: int| 0 <= i < name@.len() ==> (name@[i] as u32) < 128) ==> r == has_vpn_hint_spec(
            name@.map_values(|c: char| ascii_lower(c)),
        ),
{
    let lower = to_lowercase(name);
    has_vpn_hint(lower.as_str())
}

// ---------------------------------------------------------------------------
// Choosing the network
// ---------------------------------------------------------------------------

/// A network interface and its IPv4 addresses.
pub struct Interface {
    pub name: String,
    pub ipv4: Vec<u32>,
}

/// An address worth sweeping around: private and not loopback.
pub open spec fn is_usable_addr(ip: u32) -> bool {
    !is_loopback(ip) && is_private(ip)
}

/// The usable addresses of `ips`, in order.
pub open spec fn usable_addrs(ips: Seq<u32>) -> Seq<u32>
    decreases ips.len(),
{
    if ips.len() == 0 {
        Seq::empty()
    } else if is_usable_addr(ips.last()) {
        usable_addrs(ips.drop_last()).push(ips.last())
    } else {
        usable_addrs(ips.drop_last())
    }
}

/// The usable addresses of the VPN interfaces (`vpn`) or of the other ones
/// (`!vpn`), interface by interface.
pub open spec fn class_addrs(ifaces: Seq<Interface>, vpn: bool) -> Seq<u32>
    decreases ifaces.len(),
{
    if ifaces.len() == 0 {
        Seq::empty()
    } else if is_vpn_name(ifaces.last().name@) == vpn {
        class_addrs(ifaces.drop_last(), vpn) + usable_addrs(ifaces.last().ipv4@)
    } else {
        class_addrs(ifaces.drop_last(), vpn)
    }
}

/// The first address of `s` in `lo..=hi`.
pub open spec fn first_in_range(s: Seq<u32>, lo: u32, hi: u32) -> Option<u32>
    decreases s.len(),
{
    if s.len() == 0 {
        None
    } else if lo <= s[0] <= hi {
        Some(s[0])
    } else {
        first_in_range(s.drop_first(), lo, hi)
    }
}

/// The local address to sweep from: the first LAN address in
/// `192.168.0.0/16`, else in `172.0.0.0/8`, else in `10.0.0.0/8`, else the
/// first VPN address.
pub open spec fn chosen_addr(ifaces: Seq<Interface>) -> Option<u32> {
    let lan = class_addrs(ifaces, false);
    let vpn = class_addrs(ifaces, true);
    if first_in_range(lan, 0xc0a80000, 0xc0a8ffff) is Some {
        first_in_range(lan, 0xc0a80000, 0xc0a8ffff)
    } else if first_in_range(lan, 0xac000000, 0xacffffff) is Some {
        first_in_range(lan, 0xac000000, 0xacffffff)
    } else if first_in_range(lan, 0x0a000000, 0x0affffff) is Some {
        first_in_range(lan, 0x0a000000, 0x0affffff)
    } else {
        first_in_range(vpn, 0, 0xffffffff)
    }
}

fn find_in_range(s: &Vec<u32>, lo: u32, hi: u32) -> (r: Option<u32>)
    ensures
        r == first_in_range(s@, lo, hi),
{
    let mut i: usize = 0;
    assert(s@.skip(0) =~= s@);
    while i < s.len()
        invariant
            i <= s@.len(),
            first_in_range(s@, lo, hi) == first_in_range(s@.skip(i as int), lo, hi),
        decreases s.len() - i,
    {
        assert(s@.skip(i as int)[0] == s@[i as int]);
        assert(s@.skip(i as int).drop_first() =~= s@.skip(i + 1));
        if lo <= s[i] && s[i] <= hi {
            return Some(s[i]);
        }
        i = i + 1;
    }
    assert(s@.skip(i as int).len() == 0);
    None
}

fn push_usable(out: &mut Vec<u32>, ips: &Vec<u32>)
    ensures
        final(out)@ == old(out)@ + usable_addrs(ips@),
{
    let mut i: usize = 0;
    assert(ips@.take(0) =~= Seq::<u32>::empty());
    while i < ips.len()
        invariant
            i <= ips@.len(),
            out@ == old(out)@ + usable_addrs(ips@.take(i as int)),
        decreases ips.len() - i,
    {
        let ip = ips[i];
        assert(ips@.take(i + 1).drop_last() =~= ips@.take(i as int));
        assert(ips@.take(i + 1).last() == ip);
        if !exec_is_loopback(ip) && exec_is_private(ip) {
            out.push(ip);
        }
        i = i + 1;
        assert(out@ =~= old(out)@ + usable_addrs(ips@.take(i as int)));
    }
    assert(ips@.take(ips.len() as int) =~= ips@);
}

/// The local address and the `/24` network around it to sweep: see
/// `chosen_addr`. `None` when no interface has a usable address.
pub fn detect_subnet(ifaces: &Vec<Interface>) -> (r: Option<(u32, Subnet)>)
    ensures
        match chosen_addr(ifaces@) {
            None => r is None,
            Some(ip) => r matches Some((p, s)) && p == ip && s.addr() == ip - ip % 256
                && s.prefix_len() == 24,
        },
        (exists|a: u32| has_class_addr(ifaces@, false, a)) ==> (r matches Some((p, _))
            && has_class_addr(ifaces@, false, p)),
{
    let mut lan: Vec<u32> = Vec::new();
    let mut vpn: Vec<u32> = Vec::new();
    let mut i: usize = 0;
    assert(ifaces@.take(0) =~= Seq::<Interface>::empty());
    while i < ifaces.len()
        invariant
            i <= ifaces@.len(),
            lan@ == class_addrs(ifaces@.take(i as int), false),
            vpn@ == class_addrs(ifaces@.take(i as int), true),
        decreases ifaces.len() - i,
    {
        let iface = &ifaces[i];
        assert(ifaces@.take(i + 1).drop_last() =~= ifaces@.take(i as int));
        assert(ifaces@.take(i + 1).last() == ifaces@[i as int]);
        if is_vpn_iface(iface.name.as_str()) {
            push_usable(&mut vpn, &iface.ipv4);
        } else {
            push_usable(&mut lan, &iface.ipv4);
        }
        i = i + 1;
    }
    assert(ifaces@.take(ifaces.len() as int) =~= ifaces@);
    let pick = match find_in_range(&lan, 0xc0a80000, 0xc0a8ffff) {
        Some(ip) => Some(ip),
        None => match find_in_range(&lan, 0xac000000, 0xacffffff) {
            Some(ip) => Some(ip),
            None => match find_in_range(&lan, 0x0a000000, 0x0affffff) {
                Some(ip) => Some(ip),
                None => find_in_range(&vpn, 0, 0xffffffff),
            },
        },
    };
    let r = match pick {
        Some(ip) => {
            let base = ip - ip % 256;
            match Subnet::new(base, 24) {
                Some(s) => Some((ip, s)),
                None => None,
            }
        },
        None => None,
    };
    proof {
        if exists|a: u32| has_class_addr(ifaces@, false, a) {
            let a = choose|a: u32| has_class_addr(ifaces@, false, a);
            let k = choose|k: int|
                0 <= k < ifaces@.len() && !is_vpn_name(#[trigger] ifaces@[k].name@)
                    && ifaces@[k].ipv4@.contains(a) && is_usable_addr(a);
            lemma_lan_preferred_over_vpn(ifaces@, k, a);
        }
    }
    r
}


/// The detected network is the `/24` around the chosen address, so it
/// holds that address.
pub proof fn lemma_detected_subnet_holds_addr(ip: u32, s: Subnet)
    requires
        s.addr() == ip - ip % 256,
        s.prefix_len() == 24,
    ensures
        s.size() == 256,
        s.network_addr() == ip - ip % 256,
        s.contains_addr(ip),
{
    reveal_with_fuel(pow2, 9);
    assert(s.size() == 256);
    assert((ip - ip % 256) % 256 == 0);
}


// ---------------------------------------------------------------------------
// Laws of the choice
// ---------------------------------------------------------------------------

/// Whether some interface of the class (`vpn` or not) has `x` as a usable
/// address.
pub open spec fn has_class_addr(ifaces: Seq<Interface>, vpn: bool, x: u32) -> bool {
    exists|k: int|
        0 <= k < ifaces.len() && is_vpn_name(#[trigger] ifaces[k].name@) == vpn
            && ifaces[k].ipv4@.contains(x) && is_usable_addr(x)
}

proof fn lemma_usable_addrs_mem(ips: Seq<u32>, x: u32)
    ensures
        usable_addrs(ips).contains(x) <==> (ips.contains(x) && is_usable_addr(x)),
    decreases ips.len(),
{
    if ips.len() > 0 {
        let p = ips.drop_last();
        lemma_usable_addrs_mem(p, x);
        if ips.contains(x) && is_usable_addr(x) {
            let i = choose|i: int| 0 <= i < ips.len() && ips[i] == x;
            if i < ips.len() - 1 {
                assert(p[i] == x);
                assert(p.contains(x));
            }
        }
        if p.contains(x) {
            let i = choose|i: int| 0 <= i < p.len() && p[i] == x;
            assert(ips[i] == x);
        }
        if usable_addrs(ips).contains(x) && is_usable_addr(ips.last()) {
            let u = usable_addrs(p);
            let i = choose|i: int| 0 <= i < u.push(ips.last()).len() && u.push(ips.last())[i] == x;
            if i < u.len() {
                assert(u[i] == x);
            } else {
                assert(ips[ips.len() - 1] == x);
            }
        }
        if usable_addrs(p).contains(x) && is_usable_addr(ips.last()) {
            let u = usable_addrs(p);
            let i = choose|i: int| 0 <= i < u.len() && u[i] == x;
            assert(u.push(ips.last())[i] == x);
        }
        if ips.last() == x && is_usable_addr(x) {
            let u = usable_addrs(p);
            assert(u.push(ips.last())[u.len() as int] == x);
        }
    }
}

proof fn lemma_class_addrs_mem(ifaces: Seq<Interface>, vpn: bool, x: u32)
    ensures
        class_addrs(ifaces, vpn).contains(x) <==> has_class_addr(ifaces, vpn, x),
    decreases ifaces.len(),
{
    if ifaces.len() > 0 {
        let p = ifaces.drop_last();
        let last = ifaces.last();
        lemma_class_addrs_mem(p, vpn, x);
        lemma_usable_addrs_mem(last.ipv4@, x);
        let c = class_addrs(p, vpn);
        let u = usable_addrs(last.ipv4@);
        if has_class_addr(ifaces, vpn, x) {
            let k = choose|k: int|
                0 <= k < ifaces.len() && is_vpn_name(#[trigger] ifaces[k].name@) == vpn
                    && ifaces[k].ipv4@.contains(x) && is_usable_addr(x);
            if k < ifaces.len() - 1 {
                assert(p[k] == ifaces[k]);
                assert(has_class_addr(p, vpn, x));
                let i = choose|i: int| 0 <= i < c.len() && c[i] == x;
                if is_vpn_name(last.name@) == vpn {
                    assert((c + u)[i] == x);
                }
            } else {
                assert(u.contains(x));
                let i = choose|i: int| 0 <= i < u.len() && u[i] == x;
                assert((c + u)[c.len() + i] == x);
            }
        }
        if class_addrs(ifaces, vpn).contains(x) {
            if is_vpn_name(last.name@) == vpn {
                let i = choose|i: int| 0 <= i < (c + u).len() && (c + u)[i] == x;
                if i < c.len() {
                    assert(c[i] == x);
                    assert(c.contains(x));
                    let k = choose|k: int|
                        0 <= k < p.len() && is_vpn_name(#[trigger] p[k].name@) == vpn
                            && p[k].ipv4@.contains(x) && is_usable_addr(x);
                    assert(ifaces[k] == p[k]);
                } else {
                    assert(u[i - c.len()] == x);
                    assert(u.contains(x));
                    assert(ifaces[ifaces.len() - 1] == last);
                }
            } else {
                let k = choose|k: int|
                    0 <= k < p.len() && is_vpn_name(#[trigger] p[k].name@) == vpn
                        && p[k].ipv4@.contains(x) && is_usable_addr(x);
                assert(ifaces[k] == p[k]);
            }
        }
    }
}

proof fn lemma_first_in_range(s: Seq<u32>, lo: u32, hi: u32)
    ensures
        first_in_range(s, lo, hi) is Some <==> exists|i: int| 0 <= i < s.len() && lo <= #[trigger] s[i] <= hi,
        first_in_range(s, lo, hi) matches Some(x) ==> s.contains(x) && lo <= x <= hi,
    decreases s.len(),
{
    if s.len() > 0 {
        let t = s.drop_first();
        lemma_first_in_range(t, lo, hi);
        if exists|i: int| 0 <= i < s.len() && lo <= #[trigger] s[i] <= hi {
            let i = choose|i: int| 0 <= i < s.len() && lo <= #[trigger] s[i] <= hi;
            if i > 0 {
                assert(t[i - 1] == s[i]);
            }
        }
        if first_in_range(t, lo, hi) is Some && !(lo <= s[0] <= hi) {
            let i = choose|i: int| 0 <= i < t.len() && lo <= #[trigger] t[i] <= hi;
            assert(s[i + 1] == t[i]);
            let x = first_in_range(t, lo, hi)->0;
            let j = choose|j: int| 0 <= j < t.len() && t[j] == x;
            assert(s[j + 1] == x);
        }
        if lo <= s[0] <= hi {
            assert(s[0] == s[0]);
        }
    }
}

/// LAN before VPN: when some interface that is not a VPN tunnel has a
/// usable (private, non-loopback) address, the chosen address is a usable
/// address of such an interface; a VPN address is chosen only when no LAN
/// interface has one. Whatever is chosen is a usable address of some
/// interface.
pub proof fn lemma_lan_preferred_over_vpn(ifaces: Seq<Interface>, k: int, a: u32)
    requires
        0 <= k < ifaces.len(),
        !is_vpn_name(ifaces[k].name@),
        ifaces[k].ipv4@.contains(a),
        is_usable_addr(a),
    ensures
        chosen_addr(ifaces) matches Some(ip) && has_class_addr(ifaces, false, ip),
{
    let lan = class_addrs(ifaces, false);
    assert(has_class_addr(ifaces, false, a));
    lemma_class_addrs_mem(ifaces, false, a);
    let i = choose|i: int| 0 <= i < lan.len() && lan[i] == a;
    assert(octet0(a) == 10 || octet0(a) == 172 || octet0(a) == 192 && octet1(a) == 168);
    if octet0(a) == 192 {
        assert(0xc0a80000 <= lan[i] <= 0xc0a8ffff);
    } else if octet0(a) == 172 {
        assert(0xac000000 <= lan[i] <= 0xacffffff);
    } else {
        assert(0x0a000000 <= lan[i] <= 0x0affffff);
    }
    lemma_first_in_range(lan, 0xc0a80000, 0xc0a8ffff);
    lemma_first_in_range(lan, 0xac000000, 0xacffffff);
    lemma_first_in_range(lan, 0x0a000000, 0x0affffff);
    let ip = chosen_addr(ifaces)->0;
    lemma_class_addrs_mem(ifaces, false, ip);
}

/// Whatever address is chosen is a usable address of one of the
/// interfaces; with no usable address anywhere, none is chosen.
pub proof fn lemma_chosen_is_usable(ifaces: Seq<Interface>)
    ensures
        chosen_addr(ifaces) matches Some(ip) ==> (has_class_addr(ifaces, false, ip) || has_class_addr(
            ifaces,
            true,
            ip,
        )),
        (forall|x: u32| !has_class_addr(ifaces, false, x) && !has_class_addr(ifaces, true, x))
            ==> chosen_addr(ifaces) is None,
{
    let lan = class_addrs(ifaces, false);
    let vpn = class_addrs(ifaces, true);
    lemma_first_in_range(lan, 0xc0a80000, 0xc0a8ffff);
    lemma_first_in_range(lan, 0xac000000, 0xacffffff);
    lemma_first_in_range(lan, 0x0a000000, 0x0affffff);
    lemma_first_in_range(vpn, 0, 0xffffffff);
    if chosen_addr(ifaces) is Some {
        let ip = chosen_addr(ifaces)->0;
        lemma_class_addrs_mem(ifaces, false, ip);
        lemma_class_addrs_mem(ifaces, true, ip);
    }
    if forall|x: u32| !has_class_addr(ifaces, false, x) && !has_class_addr(ifaces, true, x) {
        if lan.len() > 0 {
            assert(lan.contains(lan[0]));
            lemma_class_addrs_mem(ifaces, false, lan[0]);
        }
        if vpn.len() > 0 {
            assert(vpn.contains(vpn[0]));
            lemma_class_addrs_mem(ifaces, true, vpn[0]);
        }
    }
}

} // verus!
