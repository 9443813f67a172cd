//! IPv4 addresses (as `u32`, most significant octet first), dotted-quad
//! parsing and formatting, and subnets in CIDR notation.

use vstd::prelude::*;

use crate::text::{
    all_digits, chars_of, decimal, decimal_value, is_digit, lemma_decimal_props,
    lemma_split_by_append_plain, lemma_split_by_append_sep, push_char, push_decimal, split_by, split_chars, views,
};

verus! {

// ---------------------------------------------------------------------------
// Addresses
// ---------------------------------------------------------------------------

/// The address `a.b.c.d`.
pub open spec fn ipv4(a: nat, b: nat, c: nat, d: nat) -> u32 {
    (a * 16777216 + b * 65536 + c * 256 + d) as u32
}

pub open spec fn octet0(ip: u32) -> nat {
    (ip / 16777216) as nat
}

pub open spec fn octet1(ip: u32) -> nat {
    ((ip / 65536) % 256) as nat
}

pub open spec fn octet2(ip: u32) -> nat {
    ((ip / 256) % 256) as nat
}

pub open spec fn octet3(ip: u32) -> nat {
    (ip % 256) as nat
}

pub proof fn lemma_octets(ip: u32)
    ensures
        octet0(ip) < 256,
        octet1(ip) < 256,
        octet2(ip) < 256,
        octet3(ip) < 256,
        ipv4(octet0(ip), octet1(ip), octet2(ip), octet3(ip)) == ip,
{
}

/// The address `a.b.c.d`.
pub fn ipv4_from_octets(a: u8, b: u8, c: u8, d: u8) -> (r: u32)
    ensures
        r == ipv4(a as nat, b as nat, c as nat, d as nat),
        octet0(r) == a,
        octet1(r) == b,
        octet2(r) == c,
        octet3(r) == d,
{
    let r = (a as u32) * 16777216 + (b as u32) * 65536 + (c as u32) * 256 + (d as u32);
    let ghost (ai, bi, ci, di) = (a as int, b as int, c as int, d as int);
    assert(r / 16777216 == ai && (r / 65536) % 256 == bi && (r / 256) % 256 == ci && r % 256 == di)
        by (nonlinear_arith)
        requires
            r == ai * 16777216 + bi * 65536 + ci * 256 + di,
            0 <= ai < 256,
            0 <= bi < 256,
            0 <= ci < 256,
            0 <= di < 256,
    ;
    r
}

/// The four octets of `ip`, most significant first.
pub fn ipv4_octets(ip: u32) -> (r: [u8; 4])
    ensures
        r@ == seq![octet0(ip) as u8, octet1(ip) as u8, octet2(ip) as u8, octet3(ip) as u8],
{
    [(ip / 16777216) as u8, ((ip / 65536) % 256) as u8, ((ip / 256) % 256) as u8, (ip % 256) as u8]
}

/// `127.0.0.0/8` (what `Ipv4Addr::is_loopback` tests).
pub open spec fn is_loopback(ip: u32) -> bool {
    octet0(ip) == 127
}

/// `10.0.0.0/8`, `172.16.0.0/12` and `192.168.0.0/16` (what
/// `Ipv4Addr::is_private` tests).
pub open spec fn is_private(ip: u32) -> bool {
    ||| octet0(ip) == 10
    ||| (octet0(ip) == 172 && 16 <= octet1(ip) <= 31)
    ||| (octet0(ip) == 192 && octet1(ip) == 168)
}

pub fn exec_is_loopback(ip: u32) -> (r: bool)
    ensures
        r == is_loopback(ip),
{
    ip / 16777216 == 127
}

pub fn exec_is_private(ip: u32) -> (r: bool)
    ensures
        r == is_private(ip),
{
    let a = ip / 16777216;
    let b = (ip / 65536) % 256;
    a == 10 || (a == 172 && 16 <= b && b <= 31) || (a == 192 && b == 168)
}

// ---------------------------------------------------------------------------
// Dotted-quad text
// ---------------------------------------------------------------------------

/// One octet of a dotted quad: one to three decimal digits, no leading zero
/// (but `0` itself), value at most 255.
pub open spec fn valid_octet(p: Seq<char>) -> bool {
    &&& 1 <= p.len() <= 3
    &&& all_digits(p)
    &&& !(p.len() > 1 && p[0] == '0')
    &&& decimal_value(p) <= 255
}

/// The address written as `s` in dotted-quad notation, if `s` is one
/// (the notation that `Ipv4Addr`'s `FromStr` accepts).
pub open spec fn parse_ipv4_spec(s: Seq<char>) -> Option<u32> {
    let parts = split_by(s, '.', '.');
    if parts.len() == 4 && valid_octet(parts[0]) && valid_octet(parts[1]) && valid_octet(parts[2])
        && valid_octet(parts[3]) {
        Some(
            ipv4(
                decimal_value(parts[0]),
                decimal_value(parts[1]),
                decimal_value(parts[2]),
                decimal_value(parts[3]),
            ),
        )
    } else {
        None
    }
}

/// The dotted-quad text of `ip`, such as `192.168.1.20`.
pub open spec fn ipv4_text(ip: u32) -> Seq<char> {
    decimal(octet0(ip)) + seq!['.'] + decimal(octet1(ip)) + seq!['.'] + decimal(octet2(ip))
        + seq!['.'] + decimal(octet3(ip))
}

fn parse_octet(p: &Vec<char>) -> (r: Option<u8>)
    ensures
        r is Some <==> valid_octet(p@),
        r matches Some(v) ==> v == decimal_value(p@),
{
    let n = p.len();
    if n < 1 || n > 3 {
        return None;
    }
    if n > 1 && p[0] == '0' {
        return None;
    }
    let mut v: u32 = 0;
    let mut i: usize = 0;
    assert(p@.take(0) == Seq::<char>::empty());
    while i < n
        invariant
            n == p@.len(),
            1 <= n <= 3,
            i <= n,
            all_digits(p@.take(i as int)),
            v == decimal_value(p@.take(i as int)),
            v < 1000,
            i < 3 ==> v < 100,
            i < 2 ==> v < 10,
            i == 0 ==> v == 0,
        decreases n - i,
    {
        let c = p[i];
        if !('0' <= c && c <= '9') {
            assert(!all_digits(p@)) by {
                assert(!is_digit(p@[i as int]));
            }
            return None;
        }
        assert(p@.take(i + 1).drop_last() == p@.take(i as int));
        assert(p@.take(i + 1).last() == c);
        v = v * 10 + (c as u32 - '0' as u32);
        i = i + 1;
        assert(all_digits(p@.take(i as int))) by {
            assert forall|k: int| 0 <= k < i implies #[trigger] is_digit(p@.take(i as int)[k]) by {
                if k < i - 1 {
                    assert(p@.take(i as int)[k] == p@.take(i - 1)[k]);
                }
            }
        }
    }
    assert(p@.take(n as int) == p@);
    if v > 255 {
        None
    } else {
        Some(v as u8)
    }
}

/// The address written as `s` in dotted-quad notation.
pub fn parse_ipv4_chars(s: &Vec<char>) -> (r: Option<u32>)
    ensures
        r == parse_ipv4_spec(s@),
{
    let parts = split_chars(s, '.', '.');
    assert(views(parts@).len() == parts@.len());
    if parts.len() != 4 {
        return None;
    }
    assert(views(parts@)[0] == parts@[0]@);
    assert(views(parts@)[1] == parts@[1]@);
    assert(views(parts@)[2] == parts@[2]@);
    assert(views(parts@)[3] == parts@[3]@);
    let a = parse_octet(&parts[0]);
    let b = parse_octet(&parts[1]);
    let c = parse_octet(&parts[2]);
    let d = parse_octet(&parts[3]);
    match (a, b, c, d) {
        (Some(a), Some(b), Some(c), Some(d)) => Some(ipv4_from_octets(a, b, c, d)),
        _ => None,
    }
}

/// The address written as `s` in dotted-quad notation, such as
/// `192.168.1.20`; `None` if `s` is not one.
pub fn parse_ipv4(s: &str) -> (r: Option<u32>)
    ensures
        r == parse_ipv4_spec(s@),
{
    let cs = chars_of(s);
    parse_ipv4_chars(&cs)
}

/// Appends the dotted-quad text of `ip` to `s`.
pub fn push_ipv4(s: &mut String, ip: u32)
    ensures
        final(s)@ == old(s)@ + ipv4_text(ip),
{
    push_decimal(s, (ip / 16777216) as u64);
    push_char(s, '.');
    push_decimal(s, ((ip / 65536) % 256) as u64);
    push_char(s, '.');
    push_decimal(s, ((ip / 256) % 256) as u64);
    push_char(s, '.');
    push_decimal(s, (ip % 256) as u64);
    assert(s@ =~= old(s)@ + ipv4_text(ip));
}

/// The dotted-quad text of `ip`.
pub fn format_ipv4(ip: u32) -> (r: String)
    ensures
        r@ == ipv4_text(ip),
{
    let mut s = String::new();
    push_ipv4(&mut s, ip);
    assert(s@ =~= ipv4_text(ip));
    s
}

proof fn lemma_digits_no_dot(d: Seq<char>)
    requires
        all_digits(d),
    ensures
        forall|i: int| 0 <= i < d.len() ==> d[i] != '.' && d[i] != '.',
{
    assert forall|i: int| 0 <= i < d.len() implies d[i] != '.' by {
        assert(is_digit(d[i]));
    }
}

/// Formatting an address and parsing the text gives the address back.
pub proof fn lemma_ipv4_text_roundtrip(ip: u32)
    ensures
        parse_ipv4_spec(ipv4_text(ip)) == Some(ip),
{
    let d0 = decimal(octet0(ip));
    let d1 = decimal(octet1(ip));
    let d2 = decimal(octet2(ip));
    let d3 = decimal(octet3(ip));
    lemma_decimal_props(octet0(ip));
    lemma_decimal_props(octet1(ip));
    lemma_decimal_props(octet2(ip));
    lemma_decimal_props(octet3(ip));
    lemma_digits_no_dot(d0);
    lemma_digits_no_dot(d1);
    lemma_digits_no_dot(d2);
    lemma_digits_no_dot(d3);
    let e = Seq::<char>::empty();
    lemma_split_by_append_plain(e, d0, '.', '.');
    assert(e + d0 =~= d0);
    assert(split_by(e, '.', '.') =~= seq![e]);
    assert(split_by(d0, '.', '.') =~= seq![d0]);
    let s1 = d0 + seq!['.'];
    lemma_split_by_append_sep(d0, '.', '.');
    let s2 = s1 + d1;
    lemma_split_by_append_plain(s1, d1, '.', '.');
    assert(split_by(s2, '.', '.') =~= seq![d0, d1]);
    let s3 = s2 + seq!['.'];
    lemma_split_by_append_sep(s2, '.', '.');
    let s4 = s3 + d2;
    lemma_split_by_append_plain(s3, d2, '.', '.');
    assert(split_by(s4, '.', '.') =~= seq![d0, d1, d2]);
    let s5 = s4 + seq!['.'];
    lemma_split_by_append_sep(s4, '.', '.');
    let s6 = s5 + d3;
    lemma_split_by_append_plain(s5, d3, '.', '.');
    assert(split_by(s6, '.', '.') =~= seq![d0, d1, d2, d3]);
    assert(s6 =~= ipv4_text(ip));
    lemma_octets(ip);
}

} // verus!

verus! {

/// `2` to the power `n`.
pub open spec fn pow2(n: nat) -> nat
    decreases n,
{
    if n == 0 {
        1
    } else {
        2 * pow2((n - 1) as nat)
    }
}

pub proof fn lemma_pow2_monotone(m: nat, n: nat)
    requires
        m <= n,
    ensures
        1 <= pow2(m) <= pow2(n),
    decreases n,
{
    if n > 0 && m < n {
        lemma_pow2_monotone(m, (n - 1) as nat);
    } else if n > 0 {
        lemma_pow2_monotone((n - 1) as nat, (n - 1) as nat);
    }
}

pub proof fn lemma_pow2_values()
    ensures
        pow2(16) == 65536,
        pow2(32) == 4294967296,
{
    reveal_with_fuel(pow2, 33);
}

pub proof fn lemma_pow2_add(a: nat, b: nat)
    ensures
        pow2(a + b) == pow2(a) * pow2(b),
    decreases a,
{
    if a > 0 {
        lemma_pow2_add((a - 1) as nat, b);
        assert(pow2(a + b) == 2 * pow2((a - 1 + b) as nat));
        assert(2 * (pow2((a - 1) as nat) * pow2(b)) == (2 * pow2((a - 1) as nat)) * pow2(b))
            by (nonlinear_arith);
        assert(pow2(a) == 2 * pow2((a - 1) as nat));
    } else {
        assert(pow2(0) == 1);
        assert(a + b == b);
    }
}

/// An IPv4 network in CIDR notation: an address and a prefix length of at
/// most 32 (the model of `ipnetwork::Ipv4Network`).
#[derive(Clone, Copy, Debug, PartialEq, Eq)]
pub struct Subnet {
    ip: u32,
    prefix: u8,
}

impl Subnet {
    #[verifier::type_invariant]
    spec fn inv(self) -> bool {
        self.prefix <= 32
    }

    /// The address the subnet was written with.
    pub closed spec fn addr(self) -> u32 {
        self.ip
    }

    /// The prefix length.
    pub closed spec fn prefix_len(self) -> nat {
        self.prefix as nat
    }

    /// Number of addresses in the network.
    pub open spec fn size(self) -> nat {
        pow2((32 - self.prefix_len()) as nat)
    }

    /// The lowest address of the network (host bits cleared).
    pub open spec fn network_addr(self) -> int {
        self.addr() as int - (self.addr() as int) % (self.size() as int)
    }

    /// The highest address of the network (host bits set).
    pub open spec fn broadcast_addr(self) -> int {
        self.network_addr() + self.size() - 1
    }

    /// Whether `x` lies in the network.
    pub open spec fn contains_addr(self, x: u32) -> bool {
        self.network_addr() <= x <= self.broadcast_addr()
    }

    /// The bounds of a subnet with a prefix of at most 32.
    pub proof fn lemma_bounds(self)
        requires
            self.prefix_len() <= 32,
        ensures
            1 <= self.size() <= 4294967296,
            self.prefix_len() >= 16 ==> self.size() <= 65536,
            0 <= self.network_addr() <= self.addr() <= self.broadcast_addr() <= 4294967295,
            self.network_addr() % (self.size() as int) == 0,
    {
        let h = (32 - self.prefix_len()) as nat;
        let k = self.prefix_len();
        let size = self.size() as int;
        lemma_pow2_monotone(h, 32);
        lemma_pow2_monotone(0, k);
        lemma_pow2_values();
        if self.prefix_len() >= 16 {
            lemma_pow2_monotone(h, 16);
        }
        lemma_pow2_add(h, k);
        assert(h + k == 32);
        let a = self.addr() as int;
        vstd::arithmetic::div_mod::lemma_fundamental_div_mod(a, size);
        vstd::arithmetic::div_mod::lemma_mod_bound(a, size);
        let q = a / size;
        let r = a % size;
        let kk = pow2(k) as int;
        assert(size * kk == 4294967296);
        assert(a == size * q + r);
        assert(q >= 0) by (nonlinear_arith)
            requires
                a == size * q + r,
                0 <= r < size,
                a >= 0,
                size > 0,
        ;
        assert(q + 1 <= kk) by (nonlinear_arith)
            requires
                a == size * q + r,
                0 <= r,
                a < 4294967296,
                size * kk == 4294967296,
                size > 0,
        ;
        assert(size * q + size <= 4294967296) by (nonlinear_arith)
            requires
                q + 1 <= kk,
                size * kk == 4294967296,
                size > 0,
        ;
        assert(self.network_addr() == size * q);
        vstd::arithmetic::div_mod::lemma_mod_multiples_basic(q, size);
        assert((q * size) % size == 0);
        assert(size * q == q * size) by (nonlinear_arith);
    }

    /// The subnet `ip/prefix`, if `prefix` is at most 32 (as
    /// `Ipv4Network::new`).
    pub fn new(ip: u32, prefix: u8) -> (r: Option<Subnet>)
        ensures
            r is Some <==> prefix <= 32,
            r matches Some(s) ==> s.addr() == ip && s.prefix_len() == prefix,
    {
        if prefix > 32 {
            None
        } else {
            Some(Subnet { ip, prefix })
        }
    }

    /// The address the subnet was written with.
    pub fn ip(&self) -> (r: u32)
        ensures
            r == self.addr(),
    {
        self.ip
    }

    /// The prefix length.
    pub fn prefix(&self) -> (r: u8)
        ensures
            r == self.prefix_len(),
            r <= 32,
    {
        proof {
            use_type_invariant(self);
        }
        self.prefix
    }

    fn size_u64(&self) -> (r: u64)
        ensures
            r == self.size(),
            1 <= r <= 4294967296,
    {
        proof {
            use_type_invariant(self);
            self.lemma_bounds();
        }
        let h: u8 = 32 - self.prefix;
        let mut size: u64 = 1;
        let mut k: u8 = 0;
        while k < h
            invariant
                k <= h <= 32,
                size == pow2(k as nat),
            decreases h - k,
        {
            proof {
                lemma_pow2_monotone((k + 1) as nat, 32);
                lemma_pow2_values();
            }
            size = size * 2;
            k = k + 1;
        }
        size
    }

    /// The lowest address of the network.
    pub fn network(&self) -> (r: u32)
        ensures
            r == self.network_addr(),
    {
        proof {
            use_type_invariant(self);
            self.lemma_bounds();
        }
        let size = self.size_u64();
        let ip = self.ip as u64;
        (ip - ip % size) as u32
    }

    /// The highest address of the network.
    pub fn broadcast(&self) -> (r: u32)
        ensures
            r == self.broadcast_addr(),
    {
        proof {
            use_type_invariant(self);
            self.lemma_bounds();
        }
        let size = self.size_u64();
        let ip = self.ip as u64;
        (ip - ip % size + (size - 1)) as u32
    }

    /// Whether `x` lies in the network.
    pub fn contains(&self, x: u32) -> (r: bool)
        ensures
            r == self.contains_addr(x),
    {
        let n = self.network();
        let b = self.broadcast();
        n <= x && x <= b
    }

    /// Whether `x` is probed when sweeping the network from `local`: an
    /// address of the network other than `local`, the network address and
    /// the broadcast address.
    pub open spec fn is_sweep_target(self, local: u32, x: u32) -> bool {
        &&& self.contains_addr(x)
        &&& x != local
        &&& x != self.network_addr()
        &&& x != self.broadcast_addr()
    }

    /// The addresses probed by a sweep from `local`, in increasing order.
    pub fn sweep_targets(&self, local: u32) -> (r: Vec<u32>)
        ensures
            forall|i: int, j: int| 0 <= i < j < r@.len() ==> r@[i] < r@[j],
            forall|i: int| 0 <= i < r@.len() ==> self.is_sweep_target(local, #[trigger] r@[i]),
            forall|x: u32| self.is_sweep_target(local, x) ==> r@.contains(x),
    {
        proof {
            use_type_invariant(self);
            self.lemma_bounds();
        }
        let size = self.size_u64();
        let net = self.network();
        let bc = self.broadcast();
        let mut r: Vec<u32> = Vec::new();
        let mut i: u64 = 0;
        while i < size
            invariant
                size == self.size(),
                net == self.network_addr(),
                bc == self.broadcast_addr(),
                0 <= self.network_addr() <= self.broadcast_addr() <= 4294967295,
                i <= size,
                forall|a: int, b: int| 0 <= a < b < r@.len() ==> r@[a] < r@[b],
                forall|a: int| 0 <= a < r@.len() ==> r@[a] < net + i,
                forall|a: int| 0 <= a < r@.len() ==> self.is_sweep_target(local, #[trigger] r@[a]),
                forall|x: u32| self.is_sweep_target(local, x) && x < net + i ==> r@.contains(x),
            decreases size - i,
        {
            let x = (net as u64 + i) as u32;
            if x != local && x != net && x != bc {
                let ghost old_r = r@;
                r.push(x);
                assert forall|y: u32| self.is_sweep_target(local, y) && y < net + i + 1 implies r@.contains(y) by {
                    if y < net + i {
                        assert(old_r.contains(y));
                        let k = choose|k: int| 0 <= k < old_r.len() && old_r[k] == y;
                        assert(r@[k] == y);
                    } else {
                        assert(r@[r@.len() - 1] == y);
                    }
                }
            } else {
                assert forall|y: u32| self.is_sweep_target(local, y) && y < net + i + 1 implies r@.contains(y) by {
                    if y < net + i {
                    } else {
                        assert(y == x);
                    }
                }
            }
            i = i + 1;
        }
        r
    }

    /// The CIDR text, such as `192.168.1.0/24` (the `Display` of
    /// `Ipv4Network`: the address as written, a slash, the prefix).
    pub fn to_string(&self) -> (r: String)
        ensures
            r@ == subnet_text(self.addr(), self.prefix_len()),
    {
        let mut s = String::new();
        push_ipv4(&mut s, self.ip);
        push_char(&mut s, '/');
        push_decimal(&mut s, self.prefix as u64);
        assert(s@ =~= subnet_text(self.addr(), self.prefix_len()));
        s
    }
}

/// `ip/prefix` as text.
pub open spec fn subnet_text(ip: u32, prefix: nat) -> Seq<char> {
    ipv4_text(ip) + seq!['/'] + decimal(prefix)
}


// ---------------------------------------------------------------------------
// Subnet arguments
// ---------------------------------------------------------------------------

/// The error that `ipnetwork` reports for text that is no IPv4 network.
#[verifier::external_type_specification]
#[verifier::external_body]
pub struct ExIpNetworkError(ipnetwork::IpNetworkError);

/// What `<ipnetwork::Ipv4Network as FromStr>::from_str` makes of a text: the
/// address and the prefix length, or `None` where it reports an error.
pub uninterp spec fn ipnetwork_parse(s: Seq<char>) -> Option<(u32, u8)>;

/// Parses `s` with `<ipnetwork::Ipv4Network as FromStr>::from_str` and hands
/// back the network's address (`ip()`) and prefix length (`prefix()`), or
/// the crate's error. Claimed: the outcome is `ipnetwork_parse` of the text,
/// and a prefix that comes back is at most 32 (the crate builds the network
/// with `Ipv4Network::new`, which refuses larger ones). Which texts the
/// crate accepts is left to the name.
#[verifier::external_body]
fn parse_ipv4_network(s: &str) -> (r: Result<(u32, u8), ipnetwork::IpNetworkError>)
    ensures
        r is Ok <==> ipnetwork_parse(s@) is Some,
        r matches Ok(v) ==> ipnetwork_parse(s@) == Some(v) && v.1 <= 32,
{
    match s.parse::<ipnetwork::Ipv4Network>() {
        Ok(n) => Ok((u32::from(n.ip()), n.prefix())),
        Err(e) => Err(e),
    }
}

/// The largest network that a sweep accepts is a `/16`.
pub const MIN_SWEEP_PREFIX: u8 = 16;

/// Why a `--subnet` value is refused.
#[derive(Debug)]
pub enum SubnetArgError {
    /// The text is no IPv4 network.
    Invalid(ipnetwork::IpNetworkError),
    /// The network is larger than a `/16`.
    TooLarge(Subnet),
}

/// Accepts the network `ip/prefix` for a sweep if it is no larger than a
/// `/16`; otherwise reports it as too large.
pub fn sweepable_subnet(ip: u32, prefix: u8) -> (r: Result<Subnet, SubnetArgError>)
    requires
        prefix <= 32,
    ensures
        prefix >= MIN_SWEEP_PREFIX ==> (r matches Ok(s) && s.addr() == ip && s.prefix_len() == prefix),
        prefix < MIN_SWEEP_PREFIX ==> (r matches Err(SubnetArgError::TooLarge(s)) && s.addr() == ip
            && s.prefix_len() == prefix),
{
    let s = Subnet { ip, prefix };
    if prefix >= MIN_SWEEP_PREFIX {
        Ok(s)
    } else {
        Err(SubnetArgError::TooLarge(s))
    }
}

/// The value of `--subnet`: a network in CIDR notation, at most a `/16`.
pub fn parse_subnet_arg(raw: &str) -> (r: Result<Subnet, SubnetArgError>)
    ensures
        ipnetwork_parse(raw@) is None ==> r matches Err(SubnetArgError::Invalid(_)),
        ipnetwork_parse(raw@) matches Some((ip, p)) ==> {
            &&& p >= MIN_SWEEP_PREFIX ==> (r matches Ok(s) && s.addr() == ip && s.prefix_len() == p)
            &&& p < MIN_SWEEP_PREFIX ==> (r matches Err(SubnetArgError::TooLarge(s)) && s.addr()
                == ip && s.prefix_len() == p)
        },
{
    match parse_ipv4_network(raw) {
        Ok((ip, prefix)) => sweepable_subnet(ip, prefix),
        Err(e) => Err(SubnetArgError::Invalid(e)),
    }
}


/// A network accepted for a sweep has at most 65536 addresses.
pub proof fn lemma_sweepable_size(s: Subnet)
    requires
        MIN_SWEEP_PREFIX <= s.prefix_len() <= 32,
    ensures
        s.size() <= 65536,
{
    s.lemma_bounds();
}

} // verus!
