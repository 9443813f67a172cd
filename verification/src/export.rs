//! JSON export of a scan snapshot.

use vstd::prelude::*;

use crate::ipv4::{ipv4_text, push_ipv4, subnet_text};
use crate::mac::{mac_text, push_mac};
use crate::oui::vendor_name;
use crate::scanner::{HostInfo, ScanState};
use crate::text::{chars_of, decimal, hex_char, push_char, push_decimal};
use crate::view::elapsed_secs;
use vstd::string::StringExecFns;

verus! {

/// One character inside a JSON string: quote, backslash and control
/// characters escaped, everything else as it is.
pub open spec fn json_escape_char(c: char) -> Seq<char> {
    if c == '"' {
        seq!['\\', '"']
    } else if c == '\\' {
        seq!['\\', '\\']
    } else if c == '\n' {
        seq!['\\', 'n']
    } else if c == '\r' {
        seq!['\\', 'r']
    } else if c == '\t' {
        seq!['\\', 't']
    } else if (c as u32) < 0x20 {
        seq!['\\', 'u', '0', '0', hex_char((c as u32 / 16) as nat), hex_char((c as u32 % 16) as nat)]
    } else {
        seq![c]
    }
}

/// The escaped characters of `s`.
pub open spec fn json_escape(s: Seq<char>) -> Seq<char>
    decreases s.len(),
{
    if s.len() == 0 {
        Seq::empty()
    } else {
        json_escape(s.drop_last()) + json_escape_char(s.last())
    }
}

/// `s` as a JSON string literal.
pub open spec fn json_str(s: Seq<char>) -> Seq<char> {
    seq!['"'] + json_escape(s) + seq!['"']
}

/// An optional text as a JSON string or `null`.
pub open spec fn json_opt_str(o: Option<Seq<char>>) -> Seq<char> {
    match o {
        Some(s) => json_str(s),
        None => "null"@,
    }
}

pub open spec fn json_bool(b: bool) -> Seq<char> {
    if b {
        "true"@
    } else {
        "false"@
    }
}

/// The address member that opens a host object.
pub open spec fn ip_part(h: HostInfo) -> Seq<char> {
    "{\"ip\":"@ + json_str(ipv4_text(h.ip))
}

/// The MAC address member.
pub open spec fn mac_part(h: HostInfo) -> Seq<char> {
    ",\"mac\":"@ + json_opt_str(
        match h.mac {
            Some(m) => Some(mac_text(m@)),
            None => None,
        },
    )
}

/// The vendor member.
pub open spec fn vendor_part(h: HostInfo) -> Seq<char> {
    ",\"vendor\":"@ + json_opt_str(
        match h.vendor {
            Some(v) => Some(vendor_name(v)),
            None => None,
        },
    )
}

/// The hostname member.
pub open spec fn hostname_part(h: HostInfo) -> Seq<char> {
    ",\"hostname\":"@ + json_opt_str(
        match h.hostname {
            Some(n) => Some(n@),
            None => None,
        },
    )
}

/// The latency member, in microseconds.
pub open spec fn latency_part(h: HostInfo) -> Seq<char> {
    ",\"latency_us\":"@ + (match h.latency_us {
        Some(us) => decimal(us as nat),
        None => "null"@,
    })
}

/// The status members, with how many seconds ago the host was first and
/// last seen at `now`, closing the object.
pub open spec fn flags_part(h: HostInfo, now: u64) -> Seq<char> {
    ",\"online\":"@ + json_bool(h.online) + ",\"new\":"@ + json_bool(h.is_new)
        + ",\"first_seen_secs_ago\":"@ + decimal(elapsed_secs(now, h.first_seen))
        + ",\"last_seen_secs_ago\":"@ + decimal(elapsed_secs(now, h.last_seen)) + "}"@
}

/// One host as a JSON object.
pub open spec fn host_json(h: HostInfo, now: u64) -> Seq<char> {
    ip_part(h) + mac_part(h) + vendor_part(h) + hostname_part(h) + latency_part(h) + flags_part(
        h,
        now,
    )
}

/// Hosts as the elements of a JSON array, separated by commas.
pub open spec fn hosts_json(hs: Seq<HostInfo>, now: u64) -> Seq<char>
    decreases hs.len(),
{
    if hs.len() == 0 {
        Seq::empty()
    } else if hs.len() == 1 {
        host_json(hs[0], now)
    } else {
        hosts_json(hs.drop_last(), now) + ","@ + host_json(hs.last(), now)
    }
}

/// The scan state at `now` as one JSON object: the network, the local
/// address and the hosts in address order.
pub open spec fn scan_json(state: ScanState, now: u64) -> Seq<char> {
    "{\"subnet\":"@ + json_opt_str(
        match state.subnet {
            Some(n) => Some(subnet_text(n.addr(), n.prefix_len())),
            None => None,
        },
    ) + ",\"local_ip\":"@ + json_opt_str(
        match state.local_ip {
            Some(ip) => Some(ipv4_text(ip)),
            None => None,
        },
    ) + ",\"hosts\":["@ + hosts_json(state.hosts@, now) + "]}"@
}

fn push_json_escaped(s: &mut String, t: &Vec<char>)
    ensures
        final(s)@ == old(s)@ + json_escape(t@),
{
    let mut i: usize = 0;
    assert(t@.take(0) =~= Seq::<char>::empty());
    while i < t.len()
        invariant
            i <= t@.len(),
            s@ == old(s)@ + json_escape(t@.take(i as int)),
        decreases t.len() - i,
    {
        let c = t[i];
        let ghost before = s@;
        if c == '"' {
            push_char(s, '\\');
            push_char(s, '"');
        } else if c == '\\' {
            push_char(s, '\\');
            push_char(s, '\\');
        } else if c == '\n' {
            push_char(s, '\\');
            push_char(s, 'n');
        } else if c == '\r' {
            push_char(s, '\\');
            push_char(s, 'r');
        } else if c == '\t' {
            push_char(s, '\\');
            push_char(s, 't');
        } else if (c as u32) < 0x20 {
            let v = c as u32;
            push_char(s, '\\');
            push_char(s, 'u');
            push_char(s, '0');
            push_char(s, '0');
            push_char(s, crate::text::exec_hex_char((v / 16) as u8));
            push_char(s, crate::text::exec_hex_char((v % 16) as u8));
        } else {
            push_char(s, c);
        }
        assert(s@ =~= before + json_escape_char(c));
        assert(t@.take(i + 1).drop_last() =~= t@.take(i as int));
        assert(t@.take(i + 1).last() == c);
        i = i + 1;
        assert(s@ =~= old(s)@ + json_escape(t@.take(i as int)));
    }
    assert(t@.take(t.len() as int) =~= t@);
}

fn push_json_str(s: &mut String, t: &Vec<char>)
    ensures
        final(s)@ == old(s)@ + json_str(t@),
{
    push_char(s, '"');
    push_json_escaped(s, t);
    push_char(s, '"');
    assert(s@ =~= old(s)@ + json_str(t@));
}

fn push_json_opt(s: &mut String, t: Option<Vec<char>>)
    ensures
        final(s)@ == old(s)@ + json_opt_str(
            match t {
                Some(v) => Some(v@),
                None => None,
            },
        ),
{
    match t {
        Some(v) => push_json_str(s, &v),
        None => s.append("null"),
    }
}

fn push_json_bool(s: &mut String, b: bool)
    ensures
        final(s)@ == old(s)@ + json_bool(b),
{
    if b {
        s.append("true");
    } else {
        s.append("false");
    }
}

fn secs_since(now: u64, then: u64) -> (r: u64)
    ensures
        r == elapsed_secs(now, then),
{
    if now >= then {
        (now - then) / 1000
    } else {
        0
    }
}

fn push_ip_field(s: &mut String, h: &HostInfo)
    ensures
        final(s)@ == old(s)@ + ip_part(*h),
{
    s.append("{\"ip\":");
    let mut ip = String::new();
    push_ipv4(&mut ip, h.ip);
    assert(ip@ =~= ipv4_text(h.ip));
    push_json_str(s, &chars_of(ip.as_str()));
}

fn push_mac_field(s: &mut String, h: &HostInfo)
    ensures
        final(s)@ == old(s)@ + mac_part(*h),
{
    s.append(",\"mac\":");
    let mac = match &h.mac {
        Some(m) => {
            let mut t = String::new();
            push_mac(&mut t, m);
            assert(t@ =~= mac_text(m@));
            Some(chars_of(t.as_str()))
        },
        None => None,
    };
    push_json_opt(s, mac);
}

fn push_vendor_field(s: &mut String, h: &HostInfo)
    ensures
        final(s)@ == old(s)@ + vendor_part(*h),
{
    s.append(",\"vendor\":");
    let vendor = match &h.vendor {
        Some(v) => Some(chars_of(v.name())),
        None => None,
    };
    push_json_opt(s, vendor);
}

fn push_hostname_field(s: &mut String, h: &HostInfo)
    ensures
        final(s)@ == old(s)@ + hostname_part(*h),
{
    s.append(",\"hostname\":");
    let name = match &h.hostname {
        Some(n) => Some(chars_of(n.as_str())),
        None => None,
    };
    push_json_opt(s, name);
}

fn push_latency_field(s: &mut String, h: &HostInfo)
    ensures
        final(s)@ == old(s)@ + latency_part(*h),
{
    s.append(",\"latency_us\":");
    match h.latency_us {
        Some(us) => push_decimal(s, us),
        None => s.append("null"),
    }
}

fn push_flags_field(s: &mut String, h: &HostInfo, now: u64)
    ensures
        final(s)@ == old(s)@ + flags_part(*h, now),
{
    s.append(",\"online\":");
    push_json_bool(s, h.online);
    s.append(",\"new\":");
    push_json_bool(s, h.is_new);
    s.append(",\"first_seen_secs_ago\":");
    push_decimal(s, secs_since(now, h.first_seen));
    s.append(",\"last_seen_secs_ago\":");
    push_decimal(s, secs_since(now, h.last_seen));
    s.append("}");
}

fn push_host_json(s: &mut String, h: &HostInfo, now: u64)
    ensures
        final(s)@ == old(s)@ + host_json(*h, now),
{
    let ghost s0 = s@;
    let ghost p1 = ip_part(*h);
    let ghost p2 = mac_part(*h);
    let ghost p3 = vendor_part(*h);
    let ghost p4 = hostname_part(*h);
    let ghost p5 = latency_part(*h);
    let ghost p6 = flags_part(*h, now);
    push_ip_field(s, h);
    push_mac_field(s, h);
    proof {
        vstd::seq_lib::lemma_concat_associative(s0, p1, p2);
    }
    push_vendor_field(s, h);
    proof {
        vstd::seq_lib::lemma_concat_associative(s0, p1 + p2, p3);
    }
    push_hostname_field(s, h);
    proof {
        vstd::seq_lib::lemma_concat_associative(s0, p1 + p2 + p3, p4);
    }
    push_latency_field(s, h);
    proof {
        vstd::seq_lib::lemma_concat_associative(s0, p1 + p2 + p3 + p4, p5);
    }
    push_flags_field(s, h, now);
    proof {
        vstd::seq_lib::lemma_concat_associative(s0, p1 + p2 + p3 + p4 + p5, p6);
    }
}

/// The scan state at `now` as JSON (see `scan_json`), for the export file.
pub fn export_json(state: &ScanState, now: u64) -> (r: String)
    ensures
        r@ == scan_json(*state, now),
{
    let mut s = String::from_str("{\"subnet\":");
    let subnet = match &state.subnet {
        Some(n) => Some(chars_of(n.to_string().as_str())),
        None => None,
    };
    push_json_opt(&mut s, subnet);
    s.append(",\"local_ip\":");
    let local = match state.local_ip {
        Some(ip) => {
            let mut t = String::new();
            push_ipv4(&mut t, ip);
            assert(t@ =~= ipv4_text(ip));
            Some(chars_of(t.as_str()))
        },
        None => None,
    };
    push_json_opt(&mut s, local);
    s.append(",\"hosts\":[");
    let ghost head = s@;
    let hosts = &state.hosts;
    let mut i: usize = 0;
    assert(hosts@.take(0) =~= Seq::<HostInfo>::empty());
    while i < hosts.len()
        invariant
            i <= hosts@.len(),
            s@ == head + hosts_json(hosts@.take(i as int), now),
        decreases hosts.len() - i,
    {
        assert(hosts@.take(i + 1).drop_last() =~= hosts@.take(i as int));
        assert(hosts@.take(i + 1).last() == hosts@[i as int]);
        if i > 0 {
            s.append(",");
        } else {
            assert(hosts@.take(1)[0] == hosts@[0]);
        }
        push_host_json(&mut s, &hosts[i], now);
        i = i + 1;
        assert(s@ =~= head + hosts_json(hosts@.take(i as int), now));
    }
    assert(hosts@.take(hosts.len() as int) =~= hosts@);
    s.append("]}");
    assert(s@ =~= scan_json(*state, now));
    s
}

/// The export file's name for the Unix time `unix_secs`:
/// `lanmap-<seconds>.json`.
pub fn export_file_name(unix_secs: u64) -> (r: String)
    ensures
        r@ == "lanmap-"@ + decimal(unix_secs as nat) + ".json"@,
{
    let mut s = String::from_str("lanmap-");
    push_decimal(&mut s, unix_secs);
    s.append(".json");
    s
}

/// The status line after a successful export.
pub fn export_message(file_name: &str) -> (r: String)
    ensures
        r@ == "exported to "@ + file_name@,
{
    let mut s = String::from_str("exported to ");
    s.append(file_name);
    s
}

} // verus!
