//! MAC addresses: parsing the forms ARP tables print, the normalized
//! lowercase text, and vendor lookup.

use vstd::prelude::*;

use crate::oui::{lookup_oui, oui_vendor, vendor_name, Vendor};
use crate::text::{
    ascii_lower,
    chars_of, exec_hex_char, exec_hex_value, hex_char, hex_value, lemma_split_by_append_plain,
    lemma_split_by_append_sep,
    push_char, split_by, split_chars, views,
};

verus! {

/// A separator between the octets of a MAC address (`aa:bb:..` on Linux,
/// `aa-bb-..` on Windows).
pub open spec fn is_mac_sep(c: char) -> bool {
    c == ':' || c == '-'
}

/// The octet written by the two hexadecimal digits `hi` and `lo`.
pub open spec fn hex_pair_value(hi: char, lo: char) -> Option<u8> {
    match (hex_value(hi), hex_value(lo)) {
        (Some(h), Some(l)) => Some((h * 16 + l) as u8),
        _ => None,
    }
}

/// A MAC address written as six two-digit hexadecimal octets (either case)
/// separated by `:` or `-`: its six octets.
pub open spec fn parse_mac_spec(t: Seq<char>) -> Option<Seq<u8>> {
    if t.len() == 17 && (forall|k: int| 0 <= k < 5 ==> #[trigger] is_mac_sep(t[3 * k + 2])) && (
    forall|k: int| 0 <= k < 6 ==> (#[trigger] hex_pair_value(t[3 * k], t[3 * k + 1])) is Some) {
        Some(Seq::new(6, |k: int| hex_pair_value(t[3 * k], t[3 * k + 1])->0))
    } else {
        None
    }
}

/// The normalized text of a MAC address: lowercase, colon-separated, such
/// as `a4:5e:60:01:02:03`.
pub open spec fn mac_text(m: Seq<u8>) -> Seq<char> {
    Seq::new(
        17,
        |i: int|
            if i % 3 == 2 {
                ':'
            } else if i % 3 == 0 {
                hex_char((m[i / 3] / 16) as nat)
            } else {
                hex_char((m[i / 3] % 16) as nat)
            },
    )
}

/// A group (multicast or broadcast) address: the lowest bit of the first
/// octet is set.
pub open spec fn is_group_mac(m: Seq<u8>) -> bool {
    m[0] & 1 == 1
}

/// The all-zero address that Linux lists for incomplete ARP entries.
pub open spec fn is_zero_mac(m: Seq<u8>) -> bool {
    forall|k: int| 0 <= k < 6 ==> #[trigger] m[k] == 0
}

/// A MAC address that identifies one device: neither a group address nor
/// all zeros.
pub open spec fn is_unicast_mac(m: Seq<u8>) -> bool {
    !is_group_mac(m) && !is_zero_mac(m)
}

fn hex_pair(hi: char, lo: char) -> (r: Option<u8>)
    ensures
        r == hex_pair_value(hi, lo),
{
    match (exec_hex_value(hi), exec_hex_value(lo)) {
        (Some(h), Some(l)) => Some(h * 16 + l),
        _ => None,
    }
}

/// The octets of a MAC address written as `t` (see `parse_mac_spec`).
pub fn parse_mac_chars(t: &Vec<char>) -> (r: Option<[u8; 6]>)
    ensures
        match parse_mac_spec(t@) {
            Some(m) => r matches Some(a) && a@ == m,
            None => r is None,
        },
{
    if t.len() != 17 {
        return None;
    }
    let mut k: usize = 0;
    while k < 5
        invariant
            t@.len() == 17,
            k <= 5,
            forall|j: int| 0 <= j < k ==> #[trigger] is_mac_sep(t@[3 * j + 2]),
        decreases 5 - k,
    {
        let c = t[3 * k + 2];
        if !(c == ':' || c == '-') {
            assert(!is_mac_sep(t@[3 * (k as int) + 2]));
            return None;
        }
        k = k + 1;
    }
    let mut out: [u8; 6] = [0u8; 6];
    let mut k: usize = 0;
    while k < 6
        invariant
            t@.len() == 17,
            k <= 6,
            out@.len() == 6,
            forall|j: int| 0 <= j < k ==> (#[trigger] hex_pair_value(t@[3 * j], t@[3 * j + 1])) is Some,
            forall|j: int| 0 <= j < k ==> out@[j] == hex_pair_value(t@[3 * j], t@[3 * j + 1])->0,
        decreases 6 - k,
    {
        match hex_pair(t[3 * k], t[3 * k + 1]) {
            Some(v) => {
                out[k] = v;
            },
            None => {
                return None;
            },
        }
        k = k + 1;
    }
    assert(out@ =~= Seq::new(6, |j: int| hex_pair_value(t@[3 * j], t@[3 * j + 1])->0));
    Some(out)
}

/// Appends the normalized text of `m` to `s`.
pub fn push_mac(s: &mut String, m: &[u8; 6])
    ensures
        final(s)@ == old(s)@ + mac_text(m@),
{
    let mut k: usize = 0;
    while k < 6
        invariant
            k <= 6,
            m@.len() == 6,
            s@.len() == old(s)@.len() + (if k == 0 { 0 } else { 3 * k - 1 }),
            forall|i: int| 0 <= i < old(s)@.len() ==> s@[i] == old(s)@[i],
            forall|i: int|
                0 <= i < (if k == 0 { 0int } else { 3 * k - 1 }) ==> s@[old(s)@.len() + i]
                    == #[trigger] mac_text(m@)[i],
        decreases 6 - k,
    {
        let b = m[k];
        if k > 0 {
            push_char(s, ':');
        }
        push_char(s, exec_hex_char(b / 16));
        push_char(s, exec_hex_char(b % 16));
        k = k + 1;
    }
    assert(s@ =~= old(s)@ + mac_text(m@));
}

/// The normalized text of `m`.
pub fn format_mac(m: &[u8; 6]) -> (r: String)
    ensures
        r@ == mac_text(m@),
{
    let mut s = String::new();
    push_mac(&mut s, m);
    assert(s@ =~= mac_text(m@));
    s
}

/// Whether `m` identifies one device (see `is_unicast_mac`).
pub fn exec_is_unicast_mac(m: &[u8; 6]) -> (r: bool)
    ensures
        r == is_unicast_mac(m@),
{
    if m[0] & 1 == 1 {
        return false;
    }
    let mut k: usize = 0;
    while k < 6
        invariant
            k <= 6,
            m@.len() == 6,
            m@[0] & 1 != 1,
            forall|j: int| 0 <= j < k ==> m@[j] == 0,
        decreases 6 - k,
    {
        if m[k] != 0 {
            assert(!is_zero_mac(m@)) by {
                assert(m@[k as int] != 0);
            }
            return true;
        }
        k = k + 1;
    }
    false
}

/// Hexadecimal digit values make up the digit again.
proof fn lemma_hex_char_value(d: nat)
    requires
        d < 16,
    ensures
        hex_value(hex_char(d)) == Some(d as u8),
{
}

/// Formatting a MAC address and parsing the text gives the address back.
pub proof fn lemma_mac_text_roundtrip(m: Seq<u8>)
    requires
        m.len() == 6,
    ensures
        parse_mac_spec(mac_text(m)) == Some(m),
{
    let t = mac_text(m);
    assert forall|k: int| 0 <= k < 5 implies #[trigger] is_mac_sep(t[3 * k + 2]) by {
        assert((3 * k + 2) % 3 == 2);
    }
    assert forall|k: int| 0 <= k < 6 implies (#[trigger] hex_pair_value(t[3 * k], t[3 * k + 1]))
        == Some(m[k]) by {
        assert((3 * k) % 3 == 0 && (3 * k) / 3 == k);
        assert((3 * k + 1) % 3 == 1 && (3 * k + 1) / 3 == k);
        lemma_hex_char_value((m[k] / 16) as nat);
        lemma_hex_char_value((m[k] % 16) as nat);
    }
    assert(Seq::new(6, |k: int| hex_pair_value(t[3 * k], t[3 * k + 1])->0) =~= m);
}

// ---------------------------------------------------------------------------
// Vendor lookup on MAC text
// ---------------------------------------------------------------------------

/// Value of a string of hexadecimal digits.
pub open spec fn hex_digits_value(s: Seq<char>) -> nat
    decreases s.len(),
{
    if s.len() == 0 {
        0
    } else {
        hex_digits_value(s.drop_last()) * 16 + (hex_value(s.last())->0) as nat
    }
}

pub open spec fn all_hex(s: Seq<char>) -> bool {
    forall|i: int| 0 <= i < s.len() ==> (#[trigger] hex_value(s[i])) is Some
}

/// What `u8::from_str_radix(s, 16)` accepts: an optional `+`, then one or
/// more hexadecimal digits (either case, leading zeros allowed) whose value
/// is at most 255.
pub open spec fn parse_hex_u8_spec(s: Seq<char>) -> Option<u8> {
    let d = if s.len() > 0 && s[0] == '+' {
        s.drop_first()
    } else {
        s
    };
    if d.len() > 0 && all_hex(d) && hex_digits_value(d) <= 255 {
        Some(hex_digits_value(d) as u8)
    } else {
        None
    }
}

fn parse_hex_u8(s: &Vec<char>) -> (r: Option<u8>)
    ensures
        r == parse_hex_u8_spec(s@),
{
    let start: usize = if s.len() > 0 && s[0] == '+' {
        1
    } else {
        0
    };
    let ghost d = if s@.len() > 0 && s@[0] == '+' {
        s@.drop_first()
    } else {
        s@
    };
    assert(d =~= s@.subrange(start as int, s@.len() as int));
    if s.len() == start {
        return None;
    }
    let mut v: u64 = 0;
    let mut i: usize = start;
    assert(d.take(0) =~= Seq::<char>::empty());
    while i < s.len()
        invariant
            start <= i <= s@.len(),
            d =~= s@.subrange(start as int, s@.len() as int),
            d == (if s@.len() > 0 && s@[0] == '+' {
                s@.drop_first()
            } else {
                s@
            }),
            all_hex(d.take(i - start)),
            v == (if hex_digits_value(d.take(i - start)) < 256 {
                hex_digits_value(d.take(i - start))
            } else {
                256
            }),
        decreases s.len() - i,
    {
        let ghost j = i - start;
        match exec_hex_value(s[i]) {
            Some(h) => {
                assert(d.take(j + 1).drop_last() =~= d.take(j));
                assert(d.take(j + 1).last() == s@[i as int]);
                let nv = v * 16 + h as u64;
                v = if nv > 256 {
                    256
                } else {
                    nv
                };
                assert(all_hex(d.take(j + 1))) by {
                    assert forall|k: int| 0 <= k < j + 1 implies (#[trigger] hex_value(
                        d.take(j + 1)[k],
                    )) is Some by {
                        if k < j {
                            assert(d.take(j + 1)[k] == d.take(j)[k]);
                        }
                    }
                }
            },
            None => {
                assert(d[j] == s@[i as int]);
                assert(hex_value(d[j]) is None);
                assert(!all_hex(d));
                return None;
            },
        }
        i = i + 1;
    }
    assert(d.take(s.len() - start) =~= d);
    if v > 255 {
        None
    } else {
        Some(v as u8)
    }
}

/// Two hexadecimal digits, either case: the octet they write.
pub open spec fn hex_octet_part(p: Seq<char>) -> Option<u8> {
    if p.len() == 2 {
        hex_pair_value(p[0], p[1])
    } else {
        None
    }
}

/// The vendor of a MAC address written as `mac`: the text is split at `:`
/// and `-`; with fewer than three parts there is none. If the first part
/// reads as a hexadecimal byte with the locally administered bit set, the
/// address is randomized. Otherwise the first three parts must each be two
/// hexadecimal digits (either case), and the OUI they spell is looked up.
pub open spec fn mac_vendor(mac: Seq<char>) -> Option<Vendor> {
    let parts = split_by(mac, ':', '-');
    if parts.len() < 3 {
        None
    } else if parse_hex_u8_spec(parts[0]) matches Some(b) && b & 2 != 0 {
        Some(Vendor::Randomized)
    } else {
        match (hex_octet_part(parts[0]), hex_octet_part(parts[1]), hex_octet_part(parts[2])) {
            (Some(a), Some(b), Some(c)) => oui_vendor(
                (a as int * 65536 + b as int * 256 + c as int) as u32,
            ),
            _ => None,
        }
    }
}

fn octet_part(p: &Vec<char>) -> (r: Option<u8>)
    ensures
        r == hex_octet_part(p@),
{
    if p.len() == 2 {
        hex_pair(p[0], p[1])
    } else {
        None
    }
}

/// The vendor name of the MAC address written as `mac` (see `mac_vendor`).
pub fn lookup_vendor(mac: &str) -> (r: Option<&'static str>)
    ensures
        match mac_vendor(mac@) {
            Some(v) => r matches Some(n) && n@ == vendor_name(v),
            None => r is None,
        },
{
    match vendor_of_mac_text(mac) {
        Some(v) => Some(v.name()),
        None => None,
    }
}

/// The vendor of the MAC address written as `mac` (see `mac_vendor`).
pub fn vendor_of_mac_text(mac: &str) -> (r: Option<Vendor>)
    ensures
        r == mac_vendor(mac@),
{
    let cs = chars_of(mac);
    let parts = split_chars(&cs, ':', '-');
    if parts.len() < 3 {
        return None;
    }
    assert(views(parts@)[0] == parts@[0]@);
    assert(views(parts@)[1] == parts@[1]@);
    assert(views(parts@)[2] == parts@[2]@);
    if let Some(first) = parse_hex_u8(&parts[0]) {
        if first & 2 != 0 {
            return Some(Vendor::Randomized);
        }
    }
    match (octet_part(&parts[0]), octet_part(&parts[1]), octet_part(&parts[2])) {
        (Some(a), Some(b), Some(c)) => lookup_oui((a as u32) * 65536 + (b as u32) * 256 + (c as u32)),
        _ => None,
    }
}

/// The OUI of a MAC address: its first three octets.
pub open spec fn oui_of(m: Seq<u8>) -> u32 {
    (m[0] as int * 65536 + m[1] as int * 256 + m[2] as int) as u32
}

/// The two lowercase hexadecimal digits of an octet.
pub open spec fn hex_octet_text(b: u8) -> Seq<char> {
    seq![hex_char((b / 16) as nat), hex_char((b % 16) as nat)]
}

proof fn lemma_hex_octet_text(b: u8)
    ensures
        hex_octet_part(hex_octet_text(b)) == Some(b),
        parse_hex_u8_spec(hex_octet_text(b)) == Some(b),
        forall|i: int| 0 <= i < 2 ==> #[trigger] hex_octet_text(b)[i] != ':' && hex_octet_text(b)[i] != '-',
{
    let t = hex_octet_text(b);
    lemma_hex_char_value((b / 16) as nat);
    lemma_hex_char_value((b % 16) as nat);
    assert(t.drop_last() =~= seq![t[0]]);
    assert(t.drop_last().drop_last() =~= Seq::<char>::empty());
    let t1 = t.drop_last();
    assert(t1.last() == t[0]);
    assert(hex_digits_value(t1.drop_last()) == 0);
    assert(hex_digits_value(t1) == hex_digits_value(t1.drop_last()) * 16 + (hex_value(t1.last())->0) as nat);
    assert(hex_digits_value(t1) == (b / 16) as nat);
    assert(hex_digits_value(t) == (b / 16) as nat * 16 + (b % 16) as nat);
    assert(all_hex(t)) by {
        assert forall|i: int| 0 <= i < t.len() implies (#[trigger] hex_value(t[i])) is Some by {
            if i == 0 {
            } else {
            }
        }
    }
}

/// The vendor read from the normalized text of a MAC address: randomized
/// when the locally administered bit is set, else the vendor of its OUI.
pub proof fn lemma_vendor_of_mac_text(m: Seq<u8>)
    requires
        m.len() == 6,
    ensures
        mac_vendor(mac_text(m)) == (if m[0] & 2 != 0 {
            Some(Vendor::Randomized)
        } else {
            oui_vendor(oui_of(m))
        }),
{
    let h0 = hex_octet_text(m[0]);
    let h1 = hex_octet_text(m[1]);
    let h2 = hex_octet_text(m[2]);
    let h3 = hex_octet_text(m[3]);
    let h4 = hex_octet_text(m[4]);
    let h5 = hex_octet_text(m[5]);
    lemma_hex_octet_text(m[0]);
    lemma_hex_octet_text(m[1]);
    lemma_hex_octet_text(m[2]);
    lemma_hex_octet_text(m[3]);
    lemma_hex_octet_text(m[4]);
    lemma_hex_octet_text(m[5]);
    let c = seq![':'];
    let t = h0 + c + h1 + c + h2 + c + h3 + c + h4 + c + h5;
    assert(t =~= mac_text(m)) by {
        assert forall|i: int| 0 <= i < 17 implies t[i] == mac_text(m)[i] by {
            assert(i / 3 == 0 || i / 3 == 1 || i / 3 == 2 || i / 3 == 3 || i / 3 == 4 || i / 3 == 5);
        }
    }
    let e = Seq::<char>::empty();
    lemma_split_by_append_plain(e, h0, ':', '-');
    assert(e + h0 =~= h0);
    assert(split_by(e, ':', '-') =~= seq![e]);
    assert(split_by(h0, ':', '-') =~= seq![h0]);
    let s1 = h0 + c;
    lemma_split_by_append_sep(h0, ':', '-');
    lemma_split_by_append_plain(s1, h1, ':', '-');
    let s2 = s1 + h1;
    assert(split_by(s2, ':', '-') =~= seq![h0, h1]);
    lemma_split_by_append_sep(s2, ':', '-');
    let s3 = s2 + c;
    lemma_split_by_append_plain(s3, h2, ':', '-');
    let s4 = s3 + h2;
    assert(split_by(s4, ':', '-') =~= seq![h0, h1, h2]);
    lemma_split_by_append_sep(s4, ':', '-');
    let s5 = s4 + c;
    lemma_split_by_append_plain(s5, h3, ':', '-');
    let s6 = s5 + h3;
    assert(split_by(s6, ':', '-') =~= seq![h0, h1, h2, h3]);
    lemma_split_by_append_sep(s6, ':', '-');
    let s7 = s6 + c;
    lemma_split_by_append_plain(s7, h4, ':', '-');
    let s8 = s7 + h4;
    assert(split_by(s8, ':', '-') =~= seq![h0, h1, h2, h3, h4]);
    lemma_split_by_append_sep(s8, ':', '-');
    let s9 = s8 + c;
    lemma_split_by_append_plain(s9, h5, ':', '-');
    let s10 = s9 + h5;
    assert(split_by(s10, ':', '-') =~= seq![h0, h1, h2, h3, h4, h5]);
    assert(s10 =~= t);
}

/// ASCII lowercase of every character of `s`.
pub open spec fn ascii_lowercase(s: Seq<char>) -> Seq<char> {
    s.map_values(|c: char| ascii_lower(c))
}

proof fn lemma_hex_value_lower(c: char)
    ensures
        hex_value(ascii_lower(c)) == hex_value(c),
{
}

proof fn lemma_hex_digits_lower(d: Seq<char>)
    ensures
        all_hex(ascii_lowercase(d)) == all_hex(d),
        hex_digits_value(ascii_lowercase(d)) == hex_digits_value(d),
    decreases d.len(),
{
    let l = ascii_lowercase(d);
    assert forall|i: int| 0 <= i < d.len() implies #[trigger] hex_value(l[i]) == hex_value(d[i]) by {
        lemma_hex_value_lower(d[i]);
    }
    if all_hex(d) {
        assert forall|i: int| 0 <= i < l.len() implies (#[trigger] hex_value(l[i])) is Some by {
            assert(hex_value(l[i]) == hex_value(d[i]));
        }
    }
    if all_hex(l) {
        assert forall|i: int| 0 <= i < d.len() implies (#[trigger] hex_value(d[i])) is Some by {
            assert(hex_value(l[i]) == hex_value(d[i]));
        }
    }
    if d.len() > 0 {
        lemma_hex_digits_lower(d.drop_last());
        assert(l.drop_last() =~= ascii_lowercase(d.drop_last()));
        assert(hex_value(l.last()) == hex_value(d.last()));
    }
}

/// Reading a part as a hexadecimal byte, or as two hexadecimal digits,
/// does not depend on the case of its letters.
proof fn lemma_parts_ignore_case(p: Seq<char>)
    ensures
        parse_hex_u8_spec(ascii_lowercase(p)) == parse_hex_u8_spec(p),
        hex_octet_part(ascii_lowercase(p)) == hex_octet_part(p),
{
    let l = ascii_lowercase(p);
    if p.len() > 0 {
        lemma_hex_value_lower(p[0]);
        assert(l[0] == ascii_lower(p[0]));
        assert((l[0] == '+') == (p[0] == '+'));
        assert(l.drop_first() =~= ascii_lowercase(p.drop_first()));
        lemma_hex_digits_lower(p.drop_first());
    }
    lemma_hex_digits_lower(p);
    if p.len() == 2 {
        lemma_hex_value_lower(p[0]);
        lemma_hex_value_lower(p[1]);
    }
}

/// The vendor of a MAC text depends only on its first three parts, and not
/// on the case of their letters: the later octets and the separators (`:`
/// or `-`) make no difference.
pub proof fn lemma_vendor_depends_on_oui_text(m1: Seq<char>, m2: Seq<char>)
    requires
        split_by(m1, ':', '-').len() >= 3,
        split_by(m2, ':', '-').len() >= 3,
        forall|i: int| 0 <= i < 3 ==> #[trigger] ascii_lowercase(split_by(m1, ':', '-')[i])
            == ascii_lowercase(split_by(m2, ':', '-')[i]),
    ensures
        mac_vendor(m1) == mac_vendor(m2),
{
    let p1 = split_by(m1, ':', '-');
    let p2 = split_by(m2, ':', '-');
    assert(ascii_lowercase(p1[0]) == ascii_lowercase(p2[0]));
    assert(ascii_lowercase(p1[1]) == ascii_lowercase(p2[1]));
    assert(ascii_lowercase(p1[2]) == ascii_lowercase(p2[2]));
    lemma_parts_ignore_case(p1[0]);
    lemma_parts_ignore_case(p2[0]);
    lemma_parts_ignore_case(p1[1]);
    lemma_parts_ignore_case(p2[1]);
    lemma_parts_ignore_case(p1[2]);
    lemma_parts_ignore_case(p2[2]);
}

} // verus!
