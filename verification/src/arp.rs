//! The ARP cache as `arp -a` (Windows, Linux net-tools) and `/proc/net/arp`
//! print it: which IPv4 address answered with which MAC address.

use std::collections::HashMap;

use vstd::prelude::*;

use crate::ipv4::{ipv4_text, lemma_ipv4_text_roundtrip, octet0, octet1, octet2, octet3, parse_ipv4_chars, parse_ipv4_spec};
use crate::mac::{
    exec_is_unicast_mac, is_unicast_mac, is_mac_sep, lemma_mac_text_roundtrip, mac_text, parse_mac_chars,
    parse_mac_spec,
};
use crate::text::{
    chars_of, decimal, hex_char, is_digit, is_whitespace, lemma_decimal_props, split_by,
    split_chars, split_words, views, words,
};

verus! {

broadcast use vstd::std_specs::hash::group_hash_axioms;

/// An IPv4 address as ARP listings print it: a dotted quad, bare
/// (`192.168.1.1` on Windows and in `/proc/net/arp`) or in parentheses
/// (`(192.168.1.1)` in `arp -a` on Linux).
pub open spec fn arp_ip_token(t: Seq<char>) -> Option<u32> {
    if t.len() >= 2 && t[0] == '(' && t.last() == ')' {
        parse_ipv4_spec(t.subrange(1, t.len() - 1))
    } else {
        parse_ipv4_spec(t)
    }
}

/// The address of the first word that is one.
pub open spec fn first_ip(ws: Seq<Seq<char>>) -> Option<u32>
    decreases ws.len(),
{
    if ws.len() == 0 {
        None
    } else if arp_ip_token(ws[0]) is Some {
        arp_ip_token(ws[0])
    } else {
        first_ip(ws.drop_first())
    }
}

/// The MAC address of the first word that is one.
pub open spec fn first_mac(ws: Seq<Seq<char>>) -> Option<Seq<u8>>
    decreases ws.len(),
{
    if ws.len() == 0 {
        None
    } else if parse_mac_spec(ws[0]) is Some {
        parse_mac_spec(ws[0])
    } else {
        first_mac(ws.drop_first())
    }
}

/// The entry a line of an ARP listing holds: its first IPv4 address and
/// its first MAC address, kept only when the MAC address identifies one
/// device (multicast, broadcast and the all-zero placeholder of incomplete
/// entries are dropped). Header lines, `<incomplete>` entries and blank
/// lines hold none.
pub open spec fn arp_line_entry(line: Seq<char>) -> Option<(u32, Seq<u8>)> {
    let ws = words(line);
    match (first_ip(ws), first_mac(ws)) {
        (Some(ip), Some(m)) => if is_unicast_mac(m) {
            Some((ip, m))
        } else {
            None
        },
        _ => None,
    }
}

/// The table built from lines in order; a later line for the same address
/// replaces an earlier one.
pub open spec fn arp_from_lines(lines: Seq<Seq<char>>) -> Map<u32, Seq<u8>>
    decreases lines.len(),
{
    if lines.len() == 0 {
        Map::empty()
    } else {
        let m = arp_from_lines(lines.drop_last());
        match arp_line_entry(lines.last()) {
            Some((ip, mac)) => m.insert(ip, mac),
            None => m,
        }
    }
}

/// The ARP table that the text of a listing describes, line by line.
pub open spec fn arp_table(text: Seq<char>) -> Map<u32, Seq<u8>> {
    arp_from_lines(split_by(text, '\n', '\n'))
}

/// A map to MAC arrays that holds exactly the entries of `t`.
pub open spec fn same_table(m: Map<u32, [u8; 6]>, t: Map<u32, Seq<u8>>) -> bool {
    &&& forall|ip: u32| m.contains_key(ip) <==> t.contains_key(ip)
    &&& forall|ip: u32| #[trigger] m.contains_key(ip) ==> m[ip]@ == t[ip]
}

fn ip_token(t: &Vec<char>) -> (r: Option<u32>)
    ensures
        r == arp_ip_token(t@),
{
    let n = t.len();
    if n >= 2 && t[0] == '(' && t[n - 1] == ')' {
        let mut inner: Vec<char> = Vec::new();
        let mut i: usize = 1;
        while i < n - 1
            invariant
                n == t@.len(),
                n >= 2,
                1 <= i <= n - 1,
                inner@ == t@.subrange(1, i as int),
            decreases n - 1 - i,
        {
            inner.push(t[i]);
            i = i + 1;
            assert(inner@ =~= t@.subrange(1, i as int));
        }
        parse_ipv4_chars(&inner)
    } else {
        parse_ipv4_chars(t)
    }
}

fn line_entry(line: &Vec<char>) -> (r: Option<(u32, [u8; 6])>)
    ensures
        match arp_line_entry(line@) {
            Some((ip, m)) => r matches Some((rip, rm)) && rip == ip && rm@ == m,
            None => r is None,
        },
{
    let ws = split_words(line);
    let ghost wv = views(ws@);
    assert(wv == words(line@));
    let mut ip: Option<u32> = None;
    let mut i: usize = 0;
    assert(wv.skip(0) =~= wv);
    while i < ws.len()
        invariant_except_break
            ip is None,
        invariant
            wv == views(ws@),
            i <= ws@.len(),
            first_ip(wv) == first_ip(wv.skip(i as int)),
        ensures
            ip == first_ip(wv),
        decreases ws.len() - i,
    {
        let t = ip_token(&ws[i]);
        assert(wv.skip(i as int)[0] == ws@[i as int]@);
        assert(wv.skip(i as int).drop_first() =~= wv.skip(i + 1));
        if t.is_some() {
            ip = t;
            break;
        }
        i = i + 1;
        if i == ws.len() {
            assert(wv.skip(i as int).len() == 0);
        }
    }
    let mut mac: Option<[u8; 6]> = None;
    let mut j: usize = 0;
    assert(wv.skip(0) =~= wv);
    while j < ws.len()
        invariant_except_break
            mac is None,
        invariant
            wv == views(ws@),
            j <= ws@.len(),
            first_mac(wv) == first_mac(wv.skip(j as int)),
        ensures
            match first_mac(wv) {
                Some(m) => mac matches Some(a) && a@ == m,
                None => mac is None,
            },
        decreases ws.len() - j,
    {
        let m = parse_mac_chars(&ws[j]);
        assert(wv.skip(j as int)[0] == ws@[j as int]@);
        assert(wv.skip(j as int).drop_first() =~= wv.skip(j + 1));
        if m.is_some() {
            mac = m;
            break;
        }
        j = j + 1;
        if j == ws.len() {
            assert(wv.skip(j as int).len() == 0);
        }
    }
    match (ip, mac) {
        (Some(ip), Some(m)) => {
            if exec_is_unicast_mac(&m) {
                Some((ip, m))
            } else {
                None
            }
        },
        _ => None,
    }
}

/// The ARP table that the text of `arp -a` or `/proc/net/arp` lists.
pub fn parse_arp_table(text: &str) -> (r: HashMap<u32, [u8; 6]>)
    ensures
        same_table(r@, arp_table(text@)),
{
    let cs = chars_of(text);
    let lines = split_chars(&cs, '\n', '\n');
    let ghost lv = views(lines@);
    assert(lv == split_by(text@, '\n', '\n'));
    let mut map: HashMap<u32, [u8; 6]> = HashMap::new();
    let mut i: usize = 0;
    assert(lv.take(0) =~= Seq::<Seq<char>>::empty());
    while i < lines.len()
        invariant
            lv == views(lines@),
            i <= lines@.len(),
            same_table(map@, arp_from_lines(lv.take(i as int))),
        decreases lines.len() - i,
    {
        let e = line_entry(&lines[i]);
        assert(lv.take(i + 1).drop_last() =~= lv.take(i as int));
        assert(lv.take(i + 1).last() == lines@[i as int]@);
        match e {
            Some((ip, m)) => {
                map.insert(ip, m);
            },
            None => {},
        }
        i = i + 1;
    }
    assert(lv.take(lines.len() as int) =~= lv);
    map
}


/// Every entry of an ARP table identifies one device: group (multicast,
/// broadcast) and all-zero addresses never make it in.
pub proof fn lemma_arp_entries_unicast(lines: Seq<Seq<char>>)
    ensures
        forall|ip: u32| #[trigger] arp_from_lines(lines).contains_key(ip) ==> is_unicast_mac(
            arp_from_lines(lines)[ip],
        ),
    decreases lines.len(),
{
    if lines.len() > 0 {
        let prev = arp_from_lines(lines.drop_last());
        lemma_arp_entries_unicast(lines.drop_last());
        match arp_line_entry(lines.last()) {
            Some((k, m)) => {
                assert(is_unicast_mac(m));
                assert forall|ip: u32| #[trigger] arp_from_lines(lines).contains_key(ip) implies is_unicast_mac(
                    arp_from_lines(lines)[ip],
                ) by {
                    if ip != k {
                        assert(prev.contains_key(ip));
                    }
                }
            },
            None => {},
        }
    }
}

/// A later line for the same address wins: the entry of the last line of a
/// listing, if it has one, is in the table.
pub proof fn lemma_arp_last_line_wins(lines: Seq<Seq<char>>)
    requires
        lines.len() > 0,
    ensures
        arp_line_entry(lines.last()) matches Some((ip, m)) ==> (arp_from_lines(lines).contains_key(ip)
            && arp_from_lines(lines)[ip] == m),
{
}


/// A run of characters without whitespace after nothing or after
/// whitespace is one more word.
proof fn lemma_words_append_word(s: Seq<char>, t: Seq<char>)
    requires
        t.len() > 0,
        forall|i: int| 0 <= i < t.len() ==> !is_whitespace(#[trigger] t[i]),
        s.len() == 0 || is_whitespace(s.last()),
    ensures
        words(s + t) == words(s).push(t),
    decreases t.len(),
{
    let c = t.last();
    let t0 = t.drop_last();
    assert((s + t).drop_last() =~= s + t0);
    assert((s + t).last() == c);
    assert(!is_whitespace(c));
    if t0.len() == 0 {
        assert(s + t0 =~= s);
        assert(t =~= seq![c]);
        if s.len() > 0 {
            assert((s + t)[(s + t).len() - 2] == s.last());
        }
    } else {
        lemma_words_append_word(s, t0);
        assert((s + t)[(s + t).len() - 2] == t0.last());
        assert(!is_whitespace(t0.last())) by {
            assert(t0.last() == t[t0.len() - 1]);
        }
        let prev = words(s + t0);
        assert(prev == words(s).push(t0));
        assert(t0.push(c) =~= t);
        assert(prev.update(prev.len() - 1, prev.last().push(c)) =~= words(s).push(t));
    }
}

proof fn lemma_ipv4_text_chars(ip: u32)
    ensures
        ipv4_text(ip).len() > 0,
        is_digit(ipv4_text(ip)[0]),
        forall|i: int| 0 <= i < ipv4_text(ip).len() ==> #[trigger] is_digit(ipv4_text(ip)[i]) || ipv4_text(ip)[i] == '.',
{
    let d0 = decimal(octet0(ip));
    let d1 = decimal(octet1(ip));
    let d2 = decimal(octet2(ip));
    let d3 = decimal(octet3(ip));
    lemma_decimal_props(octet0(ip));
    lemma_decimal_props(octet1(ip));
    lemma_decimal_props(octet2(ip));
    lemma_decimal_props(octet3(ip));
    let t = ipv4_text(ip);
    assert(t =~= d0 + seq!['.'] + d1 + seq!['.'] + d2 + seq!['.'] + d3);
    assert(t[0] == d0[0]);
    assert(is_digit(d0[0]));
    assert forall|i: int| 0 <= i < t.len() implies #[trigger] is_digit(t[i]) || t[i] == '.' by {
        let a = d0.len() as int;
        let b = a + 1 + d1.len();
        let c = b + 1 + d2.len();
        if i < a {
            assert(t[i] == d0[i]);
            assert(is_digit(d0[i]));
        } else if i == a {
        } else if i < b {
            assert(t[i] == d1[i - a - 1]);
            assert(is_digit(d1[i - a - 1]));
        } else if i == b {
        } else if i < c {
            assert(t[i] == d2[i - b - 1]);
            assert(is_digit(d2[i - b - 1]));
        } else if i == c {
        } else {
            assert(t[i] == d3[i - c - 1]);
            assert(is_digit(d3[i - c - 1]));
        }
    }
}

proof fn lemma_hex_char_plain(d: nat)
    requires
        d < 16,
    ensures
        !is_whitespace(hex_char(d)),
        hex_char(d) != '\n',
{
}

/// Two runs without whitespace separated by a space are two words.
proof fn lemma_two_words(a: Seq<char>, b: Seq<char>)
    requires
        a.len() > 0,
        b.len() > 0,
        forall|i: int| 0 <= i < a.len() ==> !is_whitespace(#[trigger] a[i]),
        forall|i: int| 0 <= i < b.len() ==> !is_whitespace(#[trigger] b[i]),
    ensures
        words(a + seq![' '] + b) == seq![a, b],
{
    let e = Seq::<char>::empty();
    lemma_words_append_word(e, a);
    assert(e + a =~= a);
    assert(words(e) =~= Seq::<Seq<char>>::empty());
    assert(words(a + seq![' ']) == words(a)) by {
        assert((a + seq![' ']).drop_last() =~= a);
    }
    lemma_words_append_word(a + seq![' '], b);
    assert(words(a + seq![' '] + b) =~= seq![a, b]);
}

/// Text without a newline is a single line.
proof fn lemma_single_line(line: Seq<char>)
    requires
        forall|i: int| 0 <= i < line.len() ==> #[trigger] line[i] != '\n',
    ensures
        split_by(line, '\n', '\n') == seq![line],
{
    let e = Seq::<char>::empty();
    crate::text::lemma_split_by_append_plain(e, line, '\n', '\n');
    assert(e + line =~= line);
    assert(split_by(e, '\n', '\n') =~= seq![e]);
    assert(split_by(line, '\n', '\n') =~= seq![line]);
}

/// The characters of the texts of an address and of a MAC address: no
/// whitespace, no newline; the address starts with a digit and is no MAC
/// address.
proof fn lemma_entry_texts(ip: u32, m: Seq<u8>)
    requires
        m.len() == 6,
    ensures
        ipv4_text(ip).len() > 0,
        mac_text(m).len() > 0,
        forall|i: int| 0 <= i < ipv4_text(ip).len() ==> !is_whitespace(#[trigger] ipv4_text(ip)[i])
            && ipv4_text(ip)[i] != '\n',
        forall|i: int| 0 <= i < mac_text(m).len() ==> !is_whitespace(#[trigger] mac_text(m)[i])
            && mac_text(m)[i] != '\n',
        arp_ip_token(ipv4_text(ip)) == Some(ip),
        parse_mac_spec(ipv4_text(ip)) is None,
        parse_mac_spec(mac_text(m)) == Some(m),
{
    let a = ipv4_text(ip);
    let b = mac_text(m);
    lemma_ipv4_text_chars(ip);
    lemma_ipv4_text_roundtrip(ip);
    lemma_mac_text_roundtrip(m);
    assert forall|i: int| 0 <= i < a.len() implies !is_whitespace(#[trigger] a[i]) && a[i] != '\n' by {
        assert(is_digit(a[i]) || a[i] == '.');
    }
    assert forall|i: int| 0 <= i < b.len() implies !is_whitespace(#[trigger] b[i]) && b[i] != '\n' by {
        if i % 3 != 2 {
            lemma_hex_char_plain((m[i / 3] / 16) as nat);
            lemma_hex_char_plain((m[i / 3] % 16) as nat);
        }
    }
    assert(a[0] != '(') by {
        assert(is_digit(a[0]));
    }
    assert(parse_mac_spec(a) is None) by {
        if a.len() == 17 {
            assert(is_digit(a[2]) || a[2] == '.');
            assert(!is_mac_sep(a[3 * 0int + 2]));
        }
    }
}

/// An ARP listing of one line, an address and a MAC address that
/// identifies one device (as `arp -a` prints on Windows, with the
/// normalized MAC text), reads back as exactly that entry.
pub proof fn lemma_arp_line_roundtrip(ip: u32, m: Seq<u8>)
    requires
        m.len() == 6,
        is_unicast_mac(m),
    ensures
        arp_table(ipv4_text(ip) + seq![' '] + mac_text(m)) == Map::<u32, Seq<u8>>::empty().insert(
            ip,
            m,
        ),
{
    let a = ipv4_text(ip);
    let b = mac_text(m);
    let line = a + seq![' '] + b;
    lemma_entry_texts(ip, m);
    lemma_two_words(a, b);
    let ws = words(line);
    assert(ws[0] == a);
    assert(ws.drop_first() =~= seq![b]);
    assert(seq![b].drop_first() =~= Seq::<Seq<char>>::empty());
    assert(first_mac(ws.drop_first()) == Some(m));
    assert(first_mac(ws) == Some(m));
    assert(first_ip(ws) == Some(ip));
    assert(arp_line_entry(line) == Some((ip, m)));
    assert forall|i: int| 0 <= i < line.len() implies #[trigger] line[i] != '\n' by {
        if i < a.len() {
            assert(line[i] == a[i]);
        } else if i > a.len() {
            assert(line[i] == b[i - a.len() - 1]);
        }
    }
    lemma_single_line(line);
    assert(seq![line].drop_last() =~= Seq::<Seq<char>>::empty());
    assert(seq![line].last() == line);
    let empty_lines = Seq::<Seq<char>>::empty();
    assert(arp_from_lines(empty_lines) == Map::<u32, Seq<u8>>::empty());
    assert(arp_from_lines(seq![line]) == arp_from_lines(empty_lines).insert(ip, m));
    assert(arp_table(line) =~= Map::<u32, Seq<u8>>::empty().insert(ip, m));
}

} // verus!
