//! The scan state shared by the sweep and the dashboard, and the decisions
//! the sweep makes: what to probe, how a probe result or the ARP cache
//! changes the host list, when to sweep again.

use std::collections::HashMap;

use vstd::prelude::*;

use crate::ipv4::Subnet;
use vstd::string::StringExecFns;
use crate::mac::{format_mac, mac_text, mac_vendor, vendor_of_mac_text};
use crate::oui::Vendor;

verus! {

broadcast use vstd::std_specs::hash::group_hash_axioms;

/// What is known of one device on the network.
#[derive(Debug)]
pub struct HostInfo {
    pub ip: u32,
    pub hostname: Option<String>,
    pub mac: Option<[u8; 6]>,
    pub vendor: Option<Vendor>,
    /// Round-trip time of the last answered ping, in microseconds.
    pub latency_us: Option<u64>,
    pub online: bool,
    /// Joined after the first sweep had finished.
    pub is_new: bool,
    /// Milliseconds on the scan clock.
    pub first_seen: u64,
    /// Milliseconds on the scan clock when the device last answered.
    pub last_seen: u64,
}

/// Hosts ordered by strictly increasing address (so each address occurs
/// once).
pub open spec fn hosts_sorted(hosts: Seq<HostInfo>) -> bool {
    forall|i: int, j: int| 0 <= i < j < hosts.len() ==> hosts[i].ip < hosts[j].ip
}

/// The host recorded for `ip`, if any (the last one with that address).
pub open spec fn host_for(hosts: Seq<HostInfo>, ip: u32) -> Option<HostInfo>
    decreases hosts.len(),
{
    if hosts.len() == 0 {
        None
    } else if hosts.last().ip == ip {
        Some(hosts.last())
    } else {
        host_for(hosts.drop_last(), ip)
    }
}

/// `host_for` finds a host exactly when one has the address, and what it
/// finds is one of them.
pub proof fn lemma_host_for(hosts: Seq<HostInfo>, ip: u32)
    ensures
        host_for(hosts, ip) is Some <==> exists|k: int| 0 <= k < hosts.len() && #[trigger] hosts[k].ip == ip,
        host_for(hosts, ip) matches Some(h) ==> exists|k: int|
            0 <= k < hosts.len() && #[trigger] hosts[k] == h && h.ip == ip,
    decreases hosts.len(),
{
    if hosts.len() > 0 {
        let p = hosts.drop_last();
        lemma_host_for(p, ip);
        if hosts.last().ip == ip {
            assert(hosts[hosts.len() - 1] == hosts.last());
        } else {
            if exists|k: int| 0 <= k < hosts.len() && #[trigger] hosts[k].ip == ip {
                let k = choose|k: int| 0 <= k < hosts.len() && #[trigger] hosts[k].ip == ip;
                assert(k < hosts.len() - 1);
                assert(p[k].ip == ip);
            }
            if host_for(p, ip) is Some {
                let k = choose|k: int| 0 <= k < p.len() && #[trigger] p[k] == host_for(p, ip)->0 && p[k].ip == ip;
                assert(hosts[k] == p[k]);
            }
        }
    }
}

/// In a sorted host list the host found for an address is the one at its
/// position.
pub proof fn lemma_host_for_sorted(hosts: Seq<HostInfo>, k: int)
    requires
        hosts_sorted(hosts),
        0 <= k < hosts.len(),
    ensures
        host_for(hosts, hosts[k].ip) == Some(hosts[k]),
{
    lemma_host_for(hosts, hosts[k].ip);
    let h = host_for(hosts, hosts[k].ip)->0;
    let j = choose|j: int| 0 <= j < hosts.len() && #[trigger] hosts[j] == h && h.ip == hosts[k].ip;
    assert(j == k);
}

/// Two sorted host lists that hold the same host for every address are the
/// same list.
pub proof fn lemma_sorted_hosts_determined(a: Seq<HostInfo>, b: Seq<HostInfo>)
    requires
        hosts_sorted(a),
        hosts_sorted(b),
        forall|ip: u32| #[trigger] host_for(a, ip) == host_for(b, ip),
    ensures
        a == b,
    decreases a.len() + b.len(),
{
    if a.len() == 0 || b.len() == 0 {
        if a.len() > 0 {
            lemma_host_for_sorted(a, 0);
            lemma_host_for(b, a[0].ip);
            assert(host_for(a, a[0].ip) == host_for(b, a[0].ip));
        }
        if b.len() > 0 {
            lemma_host_for_sorted(b, 0);
            lemma_host_for(a, b[0].ip);
            assert(host_for(a, b[0].ip) == host_for(b, b[0].ip));
        }
        assert(a =~= b);
    } else {
        let la = a.last();
        let lb = b.last();
        lemma_host_for_sorted(a, a.len() - 1);
        lemma_host_for_sorted(b, b.len() - 1);
        assert(host_for(a, la.ip) == host_for(b, la.ip));
        assert(host_for(a, lb.ip) == host_for(b, lb.ip));
        lemma_host_for(a, lb.ip);
        lemma_host_for(b, la.ip);
        let ka = choose|k: int| 0 <= k < b.len() && #[trigger] b[k] == la && la.ip == la.ip;
        let kb = choose|k: int| 0 <= k < a.len() && #[trigger] a[k] == lb && lb.ip == lb.ip;
        assert(la.ip <= lb.ip) by {
            if ka < b.len() - 1 {
                assert(b[ka].ip < b[b.len() - 1].ip);
            }
        }
        assert(lb.ip <= la.ip) by {
            if kb < a.len() - 1 {
                assert(a[kb].ip < a[a.len() - 1].ip);
            }
        }
        assert(la == lb);
        let pa = a.drop_last();
        let pb = b.drop_last();
        assert forall|ip: u32| #[trigger] host_for(pa, ip) == host_for(pb, ip) by {
            if ip == la.ip {
                lemma_host_for(pa, ip);
                lemma_host_for(pb, ip);
                if host_for(pa, ip) is Some {
                    let k = choose|k: int| 0 <= k < pa.len() && #[trigger] pa[k].ip == ip;
                    assert(a[k].ip < a[a.len() - 1].ip);
                }
                if host_for(pb, ip) is Some {
                    let k = choose|k: int| 0 <= k < pb.len() && #[trigger] pb[k].ip == ip;
                    assert(b[k].ip < b[b.len() - 1].ip);
                }
            } else {
                assert(host_for(a, ip) == host_for(pa, ip));
                assert(host_for(b, ip) == host_for(pb, ip));
            }
        }
        lemma_sorted_hosts_determined(pa, pb);
        assert(a =~= pa.push(la));
        assert(b =~= pb.push(lb));
    }
}


/// Inserting a host with a new address into a sorted list keeps it sorted
/// and adds exactly that host.
proof fn lemma_insert_host(old: Seq<HostInfo>, pos: int, h: HostInfo)
    requires
        hosts_sorted(old),
        0 <= pos <= old.len(),
        forall|k: int| 0 <= k < pos ==> old[k].ip < h.ip,
        forall|k: int| pos <= k < old.len() ==> old[k].ip > h.ip,
    ensures
        hosts_sorted(old.insert(pos, h)),
        forall|x: u32| #[trigger] host_for(old.insert(pos, h), x) == (if x == h.ip {
            Some(h)
        } else {
            host_for(old, x)
        }),
{
    let new = old.insert(pos, h);
    assert(hosts_sorted(new)) by {
        assert forall|i: int, j: int| 0 <= i < j < new.len() implies new[i].ip < new[j].ip by {
            if j < pos {
            } else if i < pos && j == pos {
            } else if i < pos {
                assert(new[j] == old[j - 1]);
            } else if i == pos {
                assert(new[j] == old[j - 1]);
            } else {
                assert(new[i] == old[i - 1]);
                assert(new[j] == old[j - 1]);
            }
        }
    }
    assert forall|x: u32| #[trigger] host_for(new, x) == (if x == h.ip {
        Some(h)
    } else {
        host_for(old, x)
    }) by {
        if x == h.ip {
            lemma_host_for_sorted(new, pos);
        } else {
            lemma_host_for(old, x);
            lemma_host_for(new, x);
            if host_for(old, x) is Some {
                let k = choose|k: int| 0 <= k < old.len() && #[trigger] old[k].ip == x;
                lemma_host_for_sorted(old, k);
                let j = if k < pos {
                    k
                } else {
                    k + 1
                };
                assert(new[j] == old[k]);
                lemma_host_for_sorted(new, j);
            } else if host_for(new, x) is Some {
                let j = choose|j: int| 0 <= j < new.len() && #[trigger] new[j].ip == x;
                assert(j != pos);
                let j2 = if j < pos {
                    j
                } else {
                    j - 1
                };
                assert(old[j2].ip == x);
            }
        }
    }
}

/// Replacing a host by one with the same address keeps the list sorted and
/// changes only that address's host.
proof fn lemma_update_host(old: Seq<HostInfo>, k: int, h: HostInfo)
    requires
        hosts_sorted(old),
        0 <= k < old.len(),
        old[k].ip == h.ip,
    ensures
        hosts_sorted(old.update(k, h)),
        forall|x: u32| #[trigger] host_for(old.update(k, h), x) == (if x == h.ip {
            Some(h)
        } else {
            host_for(old, x)
        }),
{
    let new = old.update(k, h);
    assert(hosts_sorted(new)) by {
        assert forall|i: int, j: int| 0 <= i < j < new.len() implies new[i].ip < new[j].ip by {
            assert(new[i].ip == old[i].ip);
            assert(new[j].ip == old[j].ip);
        }
    }
    assert forall|x: u32| #[trigger] host_for(new, x) == (if x == h.ip {
        Some(h)
    } else {
        host_for(old, x)
    }) by {
        if x == h.ip {
            lemma_host_for_sorted(new, k);
        } else {
            lemma_host_for(old, x);
            lemma_host_for(new, x);
            if host_for(old, x) is Some {
                let j = choose|j: int| 0 <= j < old.len() && #[trigger] old[j].ip == x;
                lemma_host_for_sorted(old, j);
                assert(new[j] == old[j]);
                lemma_host_for_sorted(new, j);
            } else if host_for(new, x) is Some {
                let j = choose|j: int| 0 <= j < new.len() && #[trigger] new[j].ip == x;
                assert(old[j].ip == x);
            }
        }
    }
}

/// The position of the host with address `ip`, or `None` if there is none.
fn find_host(hosts: &Vec<HostInfo>, ip: u32) -> (r: Option<usize>)
    requires
        hosts_sorted(hosts@),
    ensures
        match r {
            Some(k) => k < hosts@.len() && hosts@[k as int].ip == ip && host_for(hosts@, ip)
                == Some(hosts@[k as int]),
            None => host_for(hosts@, ip) is None,
        },
{
    let mut k: usize = 0;
    while k < hosts.len()
        invariant
            k <= hosts@.len(),
            hosts_sorted(hosts@),
            forall|j: int| 0 <= j < k ==> hosts@[j].ip != ip,
        decreases hosts.len() - k,
    {
        if hosts[k].ip == ip {
            proof {
                lemma_host_for_sorted(hosts@, k as int);
            }
            return Some(k);
        }
        k = k + 1;
    }
    proof {
        lemma_host_for(hosts@, ip);
    }
    None
}

/// Adds a host whose address is not yet listed, at its place in the order.
fn insert_host(hosts: &mut Vec<HostInfo>, h: HostInfo)
    requires
        hosts_sorted(old(hosts)@),
        host_for(old(hosts)@, h.ip) is None,
    ensures
        hosts_sorted(final(hosts)@),
        forall|x: u32| #[trigger] host_for(final(hosts)@, x) == (if x == h.ip {
            Some(h)
        } else {
            host_for(old(hosts)@, x)
        }),
{
    proof {
        lemma_host_for(old(hosts)@, h.ip);
    }
    let mut pos: usize = 0;
    while pos < hosts.len() && hosts[pos].ip < h.ip
        invariant
            pos <= hosts@.len(),
            hosts_sorted(hosts@),
            forall|k: int| 0 <= k < pos ==> hosts@[k].ip < h.ip,
        decreases hosts.len() - pos,
    {
        pos = pos + 1;
    }
    proof {
        assert forall|k: int| pos <= k < hosts@.len() implies hosts@[k].ip > h.ip by {
            assert(hosts@[k].ip != h.ip);
            if k > pos {
                assert(hosts@[pos as int].ip < hosts@[k].ip);
            }
        }
        lemma_insert_host(hosts@, pos as int, h);
    }
    hosts.insert(pos, h);
}

/// Replaces the host at position `k` by `h`, which has the same address.
fn replace_host(hosts: &mut Vec<HostInfo>, k: usize, h: HostInfo)
    requires
        hosts_sorted(old(hosts)@),
        k < old(hosts)@.len(),
        old(hosts)@[k as int].ip == h.ip,
    ensures
        final(hosts)@ == old(hosts)@.update(k as int, h),
        hosts_sorted(final(hosts)@),
        forall|x: u32| #[trigger] host_for(final(hosts)@, x) == (if x == h.ip {
            Some(h)
        } else {
            host_for(old(hosts)@, x)
        }),
{
    proof {
        lemma_update_host(hosts@, k as int, h);
    }
    let _ = hosts.remove(k);
    hosts.insert(k, h);
    assert(hosts@ =~= old(hosts)@.update(k as int, h));
}


// ---------------------------------------------------------------------------
// Scan state
// ---------------------------------------------------------------------------

/// How long the sweep waits between two sweeps, in milliseconds.
pub const RESCAN_INTERVAL_MS: u64 = 30000;

/// How often a waiting sweep looks for a rescan request, in milliseconds.
pub const RESCAN_POLL_MS: u64 = 500;

/// How long a ping waits for its reply, in milliseconds.
pub const PING_TIMEOUT_MS: u64 = 1000;

/// Bytes of payload in each echo request (some devices ignore empty ones).
pub const PING_PAYLOAD_LEN: usize = 16;

/// The state shared by the sweep (its only writer of `hosts`) and the
/// dashboard.
pub struct ScanState {
    /// Known hosts, by increasing address.
    pub hosts: Vec<HostInfo>,
    pub subnet: Option<Subnet>,
    pub local_ip: Option<u32>,
    pub scanning: bool,
    pub scan_progress: usize,
    pub scan_total: usize,
    /// Milliseconds on the scan clock when the last sweep finished.
    pub last_scan: Option<u64>,
    pub error: Option<String>,
    pub rescan_requested: bool,
}

/// A host after a probe: online exactly when the ping was answered, with
/// that latency; last seen now if it answered; a found hostname replaces
/// the old one.
pub open spec fn probed_host(
    h: HostInfo,
    latency: Option<u64>,
    hostname: Option<String>,
    now: u64,
) -> HostInfo {
    HostInfo {
        hostname: if hostname is Some {
            hostname
        } else {
            h.hostname
        },
        latency_us: latency,
        online: latency is Some,
        last_seen: if latency is Some {
            now
        } else {
            h.last_seen
        },
        ..h
    }
}

/// A host first found by answering a ping.
pub open spec fn answering_host(
    ip: u32,
    latency: Option<u64>,
    hostname: Option<String>,
    now: u64,
    is_new: bool,
) -> HostInfo {
    HostInfo {
        ip,
        hostname,
        mac: None,
        vendor: None,
        latency_us: latency,
        online: true,
        is_new,
        first_seen: now,
        last_seen: now,
    }
}

/// What a probe of `ip` leaves recorded for it: a known host is updated; an
/// unknown one is added only if it answered.
pub open spec fn probe_outcome(
    prev: Option<HostInfo>,
    ip: u32,
    latency: Option<u64>,
    hostname: Option<String>,
    now: u64,
    is_new: bool,
) -> Option<HostInfo> {
    match prev {
        Some(h) => Some(probed_host(h, latency, hostname, now)),
        None => if latency is Some {
            Some(answering_host(ip, latency, hostname, now, is_new))
        } else {
            None
        },
    }
}

/// A known host whose address is in the ARP cache: it has that MAC address
/// and its vendor, and counts as online and seen now.
pub open spec fn arp_seen_host(h: HostInfo, m: [u8; 6], now: u64) -> HostInfo {
    HostInfo { mac: Some(m), vendor: mac_vendor(mac_text(m@)), online: true, last_seen: now, ..h }
}

/// A host that did not answer the ping but is in the ARP cache.
pub open spec fn silent_host(ip: u32, m: [u8; 6], now: u64, is_new: bool) -> HostInfo {
    HostInfo {
        ip,
        hostname: None,
        mac: Some(m),
        vendor: mac_vendor(mac_text(m@)),
        latency_us: None,
        online: true,
        is_new,
        first_seen: now,
        last_seen: now,
    }
}

impl ScanState {
    /// Hosts are kept by strictly increasing address.
    pub open spec fn wf(&self) -> bool {
        hosts_sorted(self.hosts@)
    }

    /// Whether the sweep probes `ip`.
    pub open spec fn is_target(&self, ip: u32) -> bool {
        match (self.subnet, self.local_ip) {
            (Some(s), Some(l)) => s.is_sweep_target(l, ip),
            _ => false,
        }
    }

    /// What merging the ARP cache `arp` leaves recorded for `ip`.
    pub open spec fn arp_outcome(&self, arp: Map<u32, [u8; 6]>, ip: u32, now: u64) -> Option<
        HostInfo,
    > {
        match host_for(self.hosts@, ip) {
            Some(h) => if arp.contains_key(ip) {
                Some(arp_seen_host(h, arp[ip], now))
            } else {
                Some(h)
            },
            None => if arp.contains_key(ip) && self.is_target(ip) {
                Some(silent_host(ip, arp[ip], now, self.last_scan is Some))
            } else {
                None
            },
        }
    }

    /// Everything but the hosts and the sweep progress is as in `other`.
    pub open spec fn same_settings(&self, other: &ScanState) -> bool {
        &&& self.subnet == other.subnet
        &&& self.local_ip == other.local_ip
        &&& self.scanning == other.scanning
        &&& self.scan_total == other.scan_total
        &&& self.last_scan == other.last_scan
        &&& self.error == other.error
        &&& self.rescan_requested == other.rescan_requested
    }

    /// Sets up the sweep from the detected local address and network: the
    /// network is the one given beforehand (`--subnet`) or else the
    /// detected one; the local address is the detected one either way.
    /// Without a detected address an error is recorded and `false` comes
    /// back.
    pub fn configure(&mut self, detected: Option<(u32, Subnet)>) -> (r: bool)
        ensures
            r == detected is Some,
            final(self).hosts == old(self).hosts,
            final(self).scanning == old(self).scanning,
            final(self).scan_progress == old(self).scan_progress,
            final(self).scan_total == old(self).scan_total,
            final(self).rescan_requested == old(self).rescan_requested,
            final(self).last_scan == old(self).last_scan,
            match detected {
                Some((ip, net)) => {
                    &&& final(self).local_ip == Some(ip)
                    &&& final(self).subnet == Some(
                        if old(self).subnet is Some {
                            old(self).subnet->0
                        } else {
                            net
                        },
                    )
                    &&& final(self).error == old(self).error
                },
                None => {
                    &&& final(self).local_ip == old(self).local_ip
                    &&& final(self).subnet == old(self).subnet
                    &&& final(self).error matches Some(e) && e@
                        == "Could not detect local IP. Try: lanmap --subnet 192.168.1.0/24"@
                },
            },
    {
        match detected {
            Some((ip, net)) => {
                self.local_ip = Some(ip);
                if self.subnet.is_none() {
                    self.subnet = Some(net);
                }
                true
            },
            None => {
                self.error = Some(
                    String::from_str("Could not detect local IP. Try: lanmap --subnet 192.168.1.0/24"),
                );
                false
            },
        }
    }

    /// Starts a sweep of `total` addresses; a pending rescan request is
    /// consumed.
    pub fn begin_sweep(&mut self, total: usize)
        ensures
            final(self).hosts == old(self).hosts,
            final(self).scanning,
            final(self).scan_progress == 0,
            final(self).scan_total == total,
            !final(self).rescan_requested,
            final(self).subnet == old(self).subnet,
            final(self).local_ip == old(self).local_ip,
            final(self).last_scan == old(self).last_scan,
            final(self).error == old(self).error,
    {
        self.scanning = true;
        self.scan_progress = 0;
        self.scan_total = total;
        self.rescan_requested = false;
    }

    /// Records the result of probing `ip`: the ping latency (`None` if it
    /// went unanswered) and the hostname found for it, at `now`.
    pub fn record_probe(
        &mut self,
        ip: u32,
        latency_us: Option<u64>,
        hostname: Option<String>,
        now: u64,
    )
        requires
            old(self).wf(),
            old(self).scan_progress < usize::MAX,
        ensures
            final(self).wf(),
            final(self).scan_progress == old(self).scan_progress + 1,
            final(self).same_settings(old(self)),
            forall|x: u32| #[trigger] host_for(final(self).hosts@, x) == (if x == ip {
                probe_outcome(
                    host_for(old(self).hosts@, ip),
                    ip,
                    latency_us,
                    hostname,
                    now,
                    old(self).last_scan is Some,
                )
            } else {
                host_for(old(self).hosts@, x)
            }),
    {
        self.scan_progress = self.scan_progress + 1;
        let online = latency_us.is_some();
        match find_host(&self.hosts, ip) {
            Some(k) => {
                let mut h = self.hosts.remove(k);
                let ghost old_h = old(self).hosts@[k as int];
                h.online = online;
                h.latency_us = latency_us;
                if online {
                    h.last_seen = now;
                }
                if hostname.is_some() {
                    h.hostname = hostname;
                }
                assert(h == probed_host(old_h, latency_us, hostname, now));
                proof {
                    lemma_update_host(old(self).hosts@, k as int, h);
                }
                self.hosts.insert(k, h);
                assert(self.hosts@ =~= old(self).hosts@.update(k as int, h));
            },
            None => {
                if online {
                    let h = HostInfo {
                        ip,
                        hostname,
                        mac: None,
                        vendor: None,
                        latency_us,
                        online: true,
                        is_new: self.last_scan.is_some(),
                        first_seen: now,
                        last_seen: now,
                    };
                    insert_host(&mut self.hosts, h);
                }
            },
        }
    }

    /// Merges the ARP cache read after a sweep, at `now`: every known host
    /// listed there gets its MAC address and vendor and counts as online;
    /// every sweep target listed there that is not known yet is added as a
    /// silent host (it blocks ping but answered ARP). Hands back the added
    /// addresses, in increasing order, for hostname lookup.
    pub fn merge_arp(&mut self, arp: &HashMap<u32, [u8; 6]>, now: u64) -> (r: Vec<u32>)
        requires
            old(self).wf(),
        ensures
            final(self).wf(),
            final(self).same_settings(old(self)),
            final(self).scan_progress == old(self).scan_progress,
            forall|x: u32| #[trigger] host_for(final(self).hosts@, x) == old(self).arp_outcome(
                arp@,
                x,
                now,
            ),
            forall|i: int, j: int| 0 <= i < j < r@.len() ==> r@[i] < r@[j],
            forall|x: u32| r@.contains(x) <==> (host_for(old(self).hosts@, x) is None
                && arp@.contains_key(x) && old(self).is_target(x)),
    {
        let ghost old_hosts = self.hosts@;
        // Known hosts: take the MAC address and vendor from the cache.
        let mut k: usize = 0;
        while k < self.hosts.len()
            invariant
                old_hosts == old(self).hosts@,
                hosts_sorted(old_hosts),
                self.same_settings(old(self)),
                self.scan_progress == old(self).scan_progress,
                self.hosts@.len() == old_hosts.len(),
                k <= self.hosts@.len(),
                forall|j: int| 0 <= j < k ==> #[trigger] self.hosts@[j] == (if arp@.contains_key(
                    old_hosts[j].ip,
                ) {
                    arp_seen_host(old_hosts[j], arp@[old_hosts[j].ip], now)
                } else {
                    old_hosts[j]
                }),
                forall|j: int| k <= j < self.hosts@.len() ==> #[trigger] self.hosts@[j] == old_hosts[j],
            decreases self.hosts.len() - k,
        {
            let ip = self.hosts[k].ip;
            match arp.get(&ip) {
                Some(m) => {
                    let m: [u8; 6] = *m;
                    let text = format_mac(&m);
                    let vendor = vendor_of_mac_text(text.as_str());
                    let mut h = self.hosts.remove(k);
                    h.mac = Some(m);
                    h.vendor = vendor;
                    h.online = true;
                    h.last_seen = now;
                    self.hosts.insert(k, h);
                },
                None => {},
            }
            k = k + 1;
        }
        let ghost mid = self.hosts@;
        proof {
            assert(hosts_sorted(mid)) by {
                assert forall|i: int, j: int| 0 <= i < j < mid.len() implies mid[i].ip < mid[j].ip by {
                    assert(mid[i].ip == old_hosts[i].ip);
                    assert(mid[j].ip == old_hosts[j].ip);
                }
            }
            assert forall|x: u32| #[trigger] host_for(mid, x) == (match host_for(old_hosts, x) {
                Some(h) => if arp@.contains_key(x) {
                    Some(arp_seen_host(h, arp@[x], now))
                } else {
                    Some(h)
                },
                None => None,
            }) by {
                lemma_host_for(old_hosts, x);
                lemma_host_for(mid, x);
                if host_for(old_hosts, x) is Some {
                    let j = choose|j: int| 0 <= j < old_hosts.len() && #[trigger] old_hosts[j].ip == x;
                    lemma_host_for_sorted(old_hosts, j);
                    assert(mid[j].ip == x);
                    lemma_host_for_sorted(mid, j);
                } else if host_for(mid, x) is Some {
                    let j = choose|j: int| 0 <= j < mid.len() && #[trigger] mid[j].ip == x;
                    assert(old_hosts[j].ip == x);
                }
            }
        }
        // Unknown targets in the cache: silent hosts.
        let mut added: Vec<u32> = Vec::new();
        let is_new = self.last_scan.is_some();
        let targets: Vec<u32> = match (&self.subnet, self.local_ip) {
            (Some(net), Some(local)) => net.sweep_targets(local),
            _ => Vec::new(),
        };
        assert forall|x: u32| old(self).is_target(x) <==> targets@.contains(x) by {
            match (old(self).subnet, old(self).local_ip) {
                (Some(s), Some(l)) => {
                    if targets@.contains(x) {
                        let j = choose|j: int| 0 <= j < targets@.len() && #[trigger] targets@[j] == x;
                        assert(s.is_sweep_target(l, targets@[j]));
                    }
                },
                _ => {},
            }
        }
        let mut i: usize = 0;
        while i < targets.len()
            invariant
                forall|a: int, b: int| 0 <= a < b < targets@.len() ==> targets@[a] < targets@[b],
                forall|x: u32| old(self).is_target(x) <==> targets@.contains(x),
                hosts_sorted(mid),
                hosts_sorted(self.hosts@),
                self.same_settings(old(self)),
                self.scan_progress == old(self).scan_progress,
                is_new == (old(self).last_scan is Some),
                i <= targets@.len(),
                forall|x: u32| #[trigger] host_for(mid, x) is None <==> host_for(old_hosts, x) is None,
                forall|x: u32| #[trigger] host_for(self.hosts@, x) == (if host_for(mid, x) is None
                    && arp@.contains_key(x) && targets@.take(i as int).contains(x) {
                    Some(silent_host(x, arp@[x], now, is_new))
                } else {
                    host_for(mid, x)
                }),
                forall|a: int, b: int| 0 <= a < b < added@.len() ==> added@[a] < added@[b],
                forall|a: int| 0 <= a < added@.len() ==> targets@.take(i as int).contains(#[trigger] added@[a]),
                forall|x: u32| added@.contains(x) <==> (host_for(mid, x) is None
                    && arp@.contains_key(x) && targets@.take(i as int).contains(x)),
            decreases targets.len() - i,
        {
            let t = targets[i];
            let ghost prev_added = added@;
            assert(targets@.take(i + 1) =~= targets@.take(i as int).push(t));
            assert(!targets@.take(i as int).contains(t)) by {
                if targets@.take(i as int).contains(t) {
                    let j = choose|j: int| 0 <= j < i && #[trigger] targets@.take(i as int)[j] == t;
                    assert(targets@[j] < targets@[i as int]);
                }
            }
            match arp.get(&t) {
                Some(m) => {
                    match find_host(&self.hosts, t) {
                        Some(_) => {},
                        None => {
                            let m: [u8; 6] = *m;
                            let text = format_mac(&m);
                            let vendor = vendor_of_mac_text(text.as_str());
                            let h = HostInfo {
                                ip: t,
                                hostname: None,
                                mac: Some(m),
                                vendor,
                                latency_us: None,
                                online: true,
                                is_new,
                                first_seen: now,
                                last_seen: now,
                            };
                            insert_host(&mut self.hosts, h);
                            added.push(t);
                            assert forall|a: int| 0 <= a < added@.len() implies targets@.take(i + 1).contains(
                                #[trigger] added@[a],
                            ) by {
                                if a < prev_added.len() {
                                    assert(targets@.take(i as int).contains(prev_added[a]));
                                    let j = choose|j: int| 0 <= j < i && #[trigger] targets@.take(i as int)[j] == prev_added[a];
                                    assert(targets@.take(i + 1)[j] == prev_added[a]);
                                } else {
                                    assert(targets@.take(i + 1)[i as int] == t);
                                }
                            }
                            assert forall|a: int, b: int| 0 <= a < b < added@.len() implies added@[a] < added@[b] by {
                                if b == added@.len() - 1 {
                                    assert(targets@.take(i as int).contains(prev_added[a]));
                                    let j = choose|j: int| 0 <= j < i && #[trigger] targets@.take(i as int)[j] == prev_added[a];
                                    assert(targets@[j] < targets@[i as int]);
                                }
                            }
                            assert forall|x: u32| added@.contains(x) <==> (host_for(mid, x) is None
                                && arp@.contains_key(x) && targets@.take(i + 1).contains(x)) by {
                                if x == t {
                                    assert(added@[added@.len() - 1] == t);
                                } else {
                                    if added@.contains(x) {
                                        let a = choose|a: int| 0 <= a < added@.len() && #[trigger] added@[a] == x;
                                        assert(prev_added[a] == x);
                                    }
                                    if prev_added.contains(x) {
                                        let a = choose|a: int| 0 <= a < prev_added.len() && #[trigger] prev_added[a] == x;
                                        assert(added@[a] == x);
                                    }
                                    if targets@.take(i + 1).contains(x) {
                                        let j = choose|j: int| 0 <= j < i + 1 && #[trigger] targets@.take(i + 1)[j] == x;
                                        assert(j < i);
                                        assert(targets@.take(i as int)[j] == x);
                                    }
                                }
                            }
                        },
                    }
                },
                None => {},
            }
            assert forall|x: u32| #[trigger] host_for(self.hosts@, x) == (if host_for(mid, x) is None
                && arp@.contains_key(x) && targets@.take(i + 1).contains(x) {
                Some(silent_host(x, arp@[x], now, is_new))
            } else {
                host_for(mid, x)
            }) by {
                if x != t {
                    if targets@.take(i + 1).contains(x) {
                        let j = choose|j: int| 0 <= j < i + 1 && #[trigger] targets@.take(i + 1)[j] == x;
                        assert(j < i);
                        assert(targets@.take(i as int)[j] == x);
                    }
                    if targets@.take(i as int).contains(x) {
                        let j = choose|j: int| 0 <= j < i && #[trigger] targets@.take(i as int)[j] == x;
                        assert(targets@.take(i + 1)[j] == x);
                    }
                } else {
                    assert(targets@.take(i + 1)[i as int] == t);
                }
            }
            assert forall|x: u32| added@.contains(x) <==> (host_for(mid, x) is None
                && arp@.contains_key(x) && targets@.take(i + 1).contains(x)) by {
                if x != t {
                    if targets@.take(i + 1).contains(x) {
                        let j = choose|j: int| 0 <= j < i + 1 && #[trigger] targets@.take(i + 1)[j] == x;
                        assert(j < i);
                        assert(targets@.take(i as int)[j] == x);
                    }
                    if targets@.take(i as int).contains(x) {
                        let j = choose|j: int| 0 <= j < i && #[trigger] targets@.take(i as int)[j] == x;
                        assert(targets@.take(i + 1)[j] == x);
                    }
                } else {
                    assert(targets@.take(i + 1)[i as int] == t);
                }
            }
            i = i + 1;
        }
        assert(targets@.take(targets.len() as int) =~= targets@);
        added
    }

    /// Records the hostname found for `ip` (a silent host added by
    /// `merge_arp`); `None` or an unknown address changes nothing.
    pub fn set_hostname(&mut self, ip: u32, hostname: Option<String>)
        requires
            old(self).wf(),
        ensures
            final(self).wf(),
            final(self).same_settings(old(self)),
            final(self).scan_progress == old(self).scan_progress,
            forall|x: u32| #[trigger] host_for(final(self).hosts@, x) == (if x == ip && hostname is Some
                && host_for(old(self).hosts@, ip) is Some {
                Some(HostInfo { hostname, ..host_for(old(self).hosts@, ip)->0 })
            } else {
                host_for(old(self).hosts@, x)
            }),
    {
        if hostname.is_none() {
            return;
        }
        match find_host(&self.hosts, ip) {
            Some(k) => {
                let mut h = self.hosts.remove(k);
                h.hostname = hostname;
                proof {
                    lemma_update_host(old(self).hosts@, k as int, h);
                }
                self.hosts.insert(k, h);
                assert(self.hosts@ =~= old(self).hosts@.update(k as int, h));
            },
            None => {},
        }
    }

    /// Ends a sweep at `now`.
    pub fn finish_sweep(&mut self, now: u64)
        ensures
            final(self).hosts == old(self).hosts,
            !final(self).scanning,
            final(self).last_scan == Some(now),
            final(self).scan_progress == old(self).scan_progress,
            final(self).scan_total == old(self).scan_total,
            final(self).subnet == old(self).subnet,
            final(self).local_ip == old(self).local_ip,
            final(self).error == old(self).error,
            final(self).rescan_requested == old(self).rescan_requested,
    {
        self.scanning = false;
        self.last_scan = Some(now);
    }
}

impl Default for ScanState {
    fn default() -> (r: ScanState)
        ensures
            r.wf(),
            r.hosts@.len() == 0,
            r.subnet is None,
            r.local_ip is None,
            !r.scanning,
            r.scan_progress == 0,
            r.scan_total == 0,
            r.last_scan is None,
            r.error is None,
            !r.rescan_requested,
    {
        ScanState {
            hosts: Vec::new(),
            subnet: None,
            local_ip: None,
            scanning: false,
            scan_progress: 0,
            scan_total: 0,
            last_scan: None,
            error: None,
            rescan_requested: false,
        }
    }
}

/// Whether the next sweep is due after waiting `waited_ms` since the last
/// one ended: a rescan was requested or the rescan interval has passed.
pub open spec fn rescan_due(rescan_requested: bool, waited_ms: int) -> bool {
    rescan_requested || waited_ms >= RESCAN_INTERVAL_MS
}

/// Whether a waiting sweep starts again (see `rescan_due`).
pub fn should_rescan(rescan_requested: bool, waited_ms: u64) -> (r: bool)
    ensures
        r == rescan_due(rescan_requested, waited_ms as int),
{
    rescan_requested || waited_ms >= RESCAN_INTERVAL_MS
}

/// The ICMP identifier for pinging `ip`: its low 16 bits, so replies to the
/// pings of one sweep are told apart by address.
pub fn ping_identifier(ip: u32) -> (r: u16)
    ensures
        r == ip % 65536,
{
    (ip % 65536) as u16
}

/// Within a network no larger than a `/16`, different addresses get
/// different ping identifiers.
pub proof fn lemma_ping_identifiers_distinct(net: Subnet, x: u32, y: u32)
    requires
        16 <= net.prefix_len() <= 32,
        net.contains_addr(x),
        net.contains_addr(y),
        x != y,
    ensures
        x % 65536 != y % 65536,
{
    net.lemma_bounds();
}


/// A known host is never dropped: probing it, merging the ARP cache or
/// naming it leaves a host recorded for its address, with the same address
/// and first-seen time.
pub proof fn lemma_hosts_never_dropped(
    state: ScanState,
    h: HostInfo,
    arp: Map<u32, [u8; 6]>,
    latency: Option<u64>,
    hostname: Option<String>,
    now: u64,
)
    requires
        host_for(state.hosts@, h.ip) == Some(h),
    ensures
        (probe_outcome(Some(h), h.ip, latency, hostname, now, state.last_scan is Some) matches Some(
            g,
        ) && g.ip == h.ip && g.first_seen == h.first_seen),
        (state.arp_outcome(arp, h.ip, now) matches Some(g) && g.ip == h.ip && g.first_seen
            == h.first_seen),
{
}

/// A host is marked new only if it is found after the first sweep finished.
pub proof fn lemma_new_only_after_first_sweep(
    state: ScanState,
    ip: u32,
    arp: Map<u32, [u8; 6]>,
    latency: Option<u64>,
    hostname: Option<String>,
    now: u64,
)
    requires
        host_for(state.hosts@, ip) is None,
        state.last_scan is None,
    ensures
        probe_outcome(None, ip, latency, hostname, now, state.last_scan is Some) matches Some(g)
            ==> !g.is_new,
        state.arp_outcome(arp, ip, now) matches Some(g) ==> !g.is_new,
{
}

/// Liveness of the rescan: after a sweep ends (`finish_sweep`), the wait
/// polls every `RESCAN_POLL_MS` and asks `should_rescan` with the time
/// waited, `polls * RESCAN_POLL_MS`. A requested rescan is due at the first
/// poll after the request; without one, the next sweep is due exactly from
/// the 60th poll on, when 30 seconds have passed.
pub proof fn lemma_rescan_liveness(requested: bool, polls: nat)
    ensures
        RESCAN_INTERVAL_MS / RESCAN_POLL_MS == 60,
        requested ==> rescan_due(requested, polls * RESCAN_POLL_MS),
        polls >= RESCAN_INTERVAL_MS / RESCAN_POLL_MS ==> rescan_due(
            requested,
            polls * RESCAN_POLL_MS,
        ),
        !requested && polls < RESCAN_INTERVAL_MS / RESCAN_POLL_MS ==> !rescan_due(
            requested,
            polls * RESCAN_POLL_MS,
        ),
{
}

/// Probing a known host changes only what a probe learns: whether it is
/// online, its latency, when it was last seen (now, if it answered) and a
/// hostname that was found. Its address, MAC address, vendor, new badge and
/// first-seen time stay as they were, also when the ping goes unanswered.
pub proof fn lemma_probe_keeps_identity(
    h: HostInfo,
    ip: u32,
    latency: Option<u64>,
    hostname: Option<String>,
    now: u64,
    is_new: bool,
)
    ensures
        probe_outcome(Some(h), ip, latency, hostname, now, is_new) matches Some(g) && {
            &&& g.ip == h.ip
            &&& g.mac == h.mac
            &&& g.vendor == h.vendor
            &&& g.is_new == h.is_new
            &&& g.first_seen == h.first_seen
            &&& g.online == latency is Some
            &&& g.latency_us == latency
            &&& g.last_seen == (if latency is Some { now } else { h.last_seen })
            &&& g.hostname == (if hostname is Some { hostname } else { h.hostname })
        },
{
}

/// A sweep target that is not known yet but is listed in the ARP cache is
/// recorded as an online host with that MAC address (and its vendor), no
/// latency or hostname, first and last seen now, and marked new exactly
/// when the first sweep has already finished.
pub proof fn lemma_silent_host_recorded(
    state: ScanState,
    arp: Map<u32, [u8; 6]>,
    x: u32,
    now: u64,
)
    requires
        host_for(state.hosts@, x) is None,
        arp.contains_key(x),
        state.is_target(x),
    ensures
        state.arp_outcome(arp, x, now) matches Some(g) && {
            &&& g.ip == x
            &&& g.mac == Some(arp[x])
            &&& g.vendor == mac_vendor(mac_text(arp[x]@))
            &&& g.online
            &&& g.latency_us is None
            &&& g.hostname is None
            &&& g.first_seen == now
            &&& g.last_seen == now
            &&& g.is_new == state.last_scan is Some
        },
{
}

/// After the first sweep has finished, every device found for the first
/// time is marked new: one that answers a ping and a sweep target seen
/// only in the ARP cache.
pub proof fn lemma_new_after_first_sweep(
    state: ScanState,
    ip: u32,
    arp: Map<u32, [u8; 6]>,
    latency: u64,
    hostname: Option<String>,
    now: u64,
)
    requires
        host_for(state.hosts@, ip) is None,
        state.last_scan is Some,
    ensures
        probe_outcome(None, ip, Some(latency), hostname, now, state.last_scan is Some) matches Some(
            g,
        ) && g.is_new && g.online,
        arp.contains_key(ip) && state.is_target(ip) ==> (state.arp_outcome(arp, ip, now) matches Some(
            g,
        ) && g.is_new && g.online),
{
}

} // verus!
