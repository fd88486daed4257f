use vstd::prelude::*;
use crate::text::{decimal_digits, push_char, push_decimal};
use crate::hashing::hex_char;
use vstd::string::StringExecFns;

verus! {

/// An IP address: four octets, or eight 16-bit segments.
#[derive(Debug, Clone, Copy, PartialEq, Eq)]
pub enum IpAddr {
    V4([u8; 4]),
    V6([u16; 8]),
}

/// 10/8, 172.16/12, 192.168/16 and the link-local 169.254/16.
pub open spec fn is_private_ipv4_spec(o: Seq<u8>) -> bool {
    ||| o[0] == 10
    ||| o[0] == 172 && 16 <= o[1] <= 31
    ||| o[0] == 192 && o[1] == 168
    ||| o[0] == 169 && o[1] == 254
}

/// fe80::/10: the first segment lies between fe80 and febf.
pub open spec fn is_link_local_ipv6_spec(s: Seq<u16>) -> bool {
    0xfe80 <= s[0] <= 0xfebf
}

/// 127/8.
pub open spec fn is_loopback_ipv4_spec(o: Seq<u8>) -> bool {
    o[0] == 127
}

/// 0.0.0.0.
pub open spec fn is_unspecified_ipv4_spec(o: Seq<u8>) -> bool {
    o[0] == 0 && o[1] == 0 && o[2] == 0 && o[3] == 0
}

/// ::1.
pub open spec fn is_loopback_ipv6_spec(s: Seq<u16>) -> bool {
    forall|i: int| 0 <= i < 8 ==> #[trigger] s[i] == (if i == 7 { 1u16 } else { 0u16 })
}

/// ::.
pub open spec fn is_unspecified_ipv6_spec(s: Seq<u16>) -> bool {
    forall|i: int| 0 <= i < 8 ==> #[trigger] s[i] == 0
}

pub open spec fn is_private_lan_ip_spec(ip: IpAddr) -> bool {
    match ip {
        IpAddr::V4(o) => is_private_ipv4_spec(o@),
        IpAddr::V6(s) => is_link_local_ipv6_spec(s@),
    }
}

pub open spec fn is_allowed_bind_ip_spec(ip: IpAddr) -> bool {
    match ip {
        IpAddr::V4(o) => is_private_ipv4_spec(o@) && !is_loopback_ipv4_spec(o@) && !is_unspecified_ipv4_spec(o@),
        IpAddr::V6(s) => is_link_local_ipv6_spec(s@) && !is_loopback_ipv6_spec(s@) && !is_unspecified_ipv6_spec(s@),
    }
}

fn is_private_ipv4(octets: [u8; 4]) -> (b: bool)
    ensures
        b == is_private_ipv4_spec(octets@),
{
    if octets[0] == 10 {
        true
    } else if octets[0] == 172 {
        16 <= octets[1] && octets[1] <= 31
    } else if octets[0] == 192 {
        octets[1] == 168
    } else if octets[0] == 169 {
        octets[1] == 254
    } else {
        false
    }
}

fn is_link_local_ipv6(segments: [u16; 8]) -> (b: bool)
    ensures
        b == is_link_local_ipv6_spec(segments@),
{
    let first = segments[0];
    let b = (first & 0xffc0) == 0xfe80;
    assert(b == (0xfe80 <= first <= 0xfebf)) by (bit_vector)
        requires
            b == ((first & 0xffc0) == 0xfe80);
    b
}

fn is_loopback_ipv4(octets: [u8; 4]) -> (b: bool)
    ensures
        b == is_loopback_ipv4_spec(octets@),
{
    octets[0] == 127
}

fn is_unspecified_ipv4(octets: [u8; 4]) -> (b: bool)
    ensures
        b == is_unspecified_ipv4_spec(octets@),
{
    octets[0] == 0 && octets[1] == 0 && octets[2] == 0 && octets[3] == 0
}

fn segments_equal(segments: [u16; 8], expected: [u16; 8]) -> (b: bool)
    ensures
        b == (forall|i: int| 0 <= i < 8 ==> #[trigger] segments@[i] == expected@[i]),
{
    let mut i: usize = 0;
    while i < 8
        invariant
            i <= 8,
            forall|k: int| 0 <= k < i ==> #[trigger] segments@[k] == expected@[k],
        decreases 8 - i,
    {
        if segments[i] != expected[i] {
            return false;
        }
        i = i + 1;
    }
    true
}

fn is_loopback_ipv6(segments: [u16; 8]) -> (b: bool)
    ensures
        b == is_loopback_ipv6_spec(segments@),
{
    let expected: [u16; 8] = [0, 0, 0, 0, 0, 0, 0, 1];
    let b = segments_equal(segments, expected);
    assert(forall|i: int| 0 <= i < 8 ==> #[trigger] expected@[i] == (if i == 7 { 1u16 } else { 0u16 }));
    b
}

fn is_unspecified_ipv6(segments: [u16; 8]) -> (b: bool)
    ensures
        b == is_unspecified_ipv6_spec(segments@),
{
    let expected: [u16; 8] = [0, 0, 0, 0, 0, 0, 0, 0];
    let b = segments_equal(segments, expected);
    assert(forall|i: int| 0 <= i < 8 ==> #[trigger] expected@[i] == 0u16);
    b
}

/// Whether `ip` lies in a private IPv4 range or is an IPv6 link-local address.
pub fn is_private_lan_ip(ip: IpAddr) -> (b: bool)
    ensures
        b == is_private_lan_ip_spec(ip),
{
    match ip {
        IpAddr::V4(o) => is_private_ipv4(o),
        IpAddr::V6(s) => is_link_local_ipv6(s),
    }
}

/// Whether a listener may bind to `ip`: a private LAN address that is neither
/// loopback nor the unspecified (wildcard) address.
pub fn is_allowed_bind_ip(ip: IpAddr) -> (b: bool)
    ensures
        b == is_allowed_bind_ip_spec(ip),
{
    match ip {
        IpAddr::V4(o) => is_private_ipv4(o) && !is_loopback_ipv4(o) && !is_unspecified_ipv4(o),
        IpAddr::V6(s) => is_link_local_ipv6(s) && !is_loopback_ipv6(s) && !is_unspecified_ipv6(s),
    }
}

/// Refusal of a bind target that is not a private LAN address.
#[derive(Debug, Clone, Copy, PartialEq, Eq)]
pub struct BindGuardError(pub IpAddr);

/// Hands back `ip` when a listener may bind to it, and refuses it otherwise.
pub fn guard_bind_ip(ip: IpAddr) -> (r: Result<IpAddr, BindGuardError>)
    ensures
        r == (if is_allowed_bind_ip_spec(ip) { Ok(ip) } else { Err(BindGuardError(ip)) }),
{
    if is_allowed_bind_ip(ip) {
        Ok(ip)
    } else {
        Err(BindGuardError(ip))
    }
}

/// Every address a listener may bind to is a private LAN address; loopback,
/// wildcard and public addresses are never bind targets.
pub proof fn lemma_bind_targets_are_private(ip: IpAddr)
    ensures
        is_allowed_bind_ip_spec(ip) ==> is_private_lan_ip_spec(ip),
        ip matches IpAddr::V4(o) && (is_loopback_ipv4_spec(o@) || is_unspecified_ipv4_spec(o@))
            ==> !is_allowed_bind_ip_spec(ip),
        ip matches IpAddr::V6(s) && (is_loopback_ipv6_spec(s@) || is_unspecified_ipv6_spec(s@))
            ==> !is_allowed_bind_ip_spec(ip),
        !is_private_lan_ip_spec(ip) ==> !is_allowed_bind_ip_spec(ip),
{
}

/// The private LAN ranges are whole: every IPv4 address 10.a.b.c, 172.16.a.b to
/// 172.31.a.b, 192.168.a.b and 169.254.a.b (any a, b, c) is a private LAN address
/// and a bind target; an address whose first octet is none of 10, 172, 192, 169,
/// or a 172.x outside 16 to 31, or a 192.x other than 168, or a 169.x other than
/// 254, is neither.
pub proof fn lemma_private_ranges_are_whole(w: u8, x: u8, y: u8, z: u8)
    ensures
        is_private_lan_ip_spec(IpAddr::V4([10, x, y, z])) && is_allowed_bind_ip_spec(IpAddr::V4([10, x, y, z])),
        is_private_lan_ip_spec(IpAddr::V4([192, 168, y, z])) && is_allowed_bind_ip_spec(IpAddr::V4([192, 168, y, z])),
        is_private_lan_ip_spec(IpAddr::V4([169, 254, y, z])) && is_allowed_bind_ip_spec(IpAddr::V4([169, 254, y, z])),
        16 <= x <= 31 ==> is_private_lan_ip_spec(IpAddr::V4([172, x, y, z]))
            && is_allowed_bind_ip_spec(IpAddr::V4([172, x, y, z])),
        w != 10 && w != 172 && w != 192 && w != 169 ==> !is_private_lan_ip_spec(IpAddr::V4([w, x, y, z]))
            && !is_allowed_bind_ip_spec(IpAddr::V4([w, x, y, z])),
        !(16 <= x <= 31) ==> !is_private_lan_ip_spec(IpAddr::V4([172, x, y, z])),
        x != 168 ==> !is_private_lan_ip_spec(IpAddr::V4([192, x, y, z])),
        x != 254 ==> !is_private_lan_ip_spec(IpAddr::V4([169, x, y, z])),
{
    assert([10u8, x, y, z]@[0] == 10);
    assert([192u8, 168u8, y, z]@[0] == 192 && [192u8, 168u8, y, z]@[1] == 168);
    assert([169u8, 254u8, y, z]@[0] == 169 && [169u8, 254u8, y, z]@[1] == 254);
    assert([172u8, x, y, z]@[0] == 172 && [172u8, x, y, z]@[1] == x);
    assert([w, x, y, z]@[0] == w);
    assert([192u8, x, y, z]@[1] == x && [169u8, x, y, z]@[1] == x);
}

/// IPv6 link-local addresses (fe80::/10) are exactly the IPv6 private LAN
/// addresses: any address whose first segment lies in fe80 to febf is one, and
/// any other IPv6 address is not; and each of them is a bind target.
pub proof fn lemma_link_local_range_is_whole(s: [u16; 8])
    ensures
        is_private_lan_ip_spec(IpAddr::V6(s)) <==> 0xfe80 <= s@[0] <= 0xfebf,
        0xfe80 <= s@[0] <= 0xfebf ==> is_allowed_bind_ip_spec(IpAddr::V6(s)),
{
}

/// Lowercase hexadecimal digits of `n`, without leading zeros ("0" for zero).
pub open spec fn hex_digits(n: nat) -> Seq<char>
    decreases n,
{
    if n < 16 {
        seq![hex_char(n as int)]
    } else {
        hex_digits(n / 16).push(hex_char((n % 16) as int))
    }
}

/// Dotted-decimal text of four octets.
pub open spec fn ipv4_text(o: Seq<u8>) -> Seq<char> {
    decimal_digits(o[0] as nat) + seq!['.'] + decimal_digits(o[1] as nat) + seq!['.']
        + decimal_digits(o[2] as nat) + seq!['.'] + decimal_digits(o[3] as nat)
}

/// Segments in hexadecimal, separated by colons.
pub open spec fn hex_groups(s: Seq<u16>) -> Seq<char>
    decreases s.len(),
{
    if s.len() == 0 {
        Seq::empty()
    } else if s.len() == 1 {
        hex_digits(s[0] as nat)
    } else {
        hex_groups(s.drop_last()) + seq![':'] + hex_digits(s.last() as nat)
    }
}

/// How many zero segments follow from position `i` on.
pub open spec fn zero_run(s: Seq<u16>, i: int) -> nat
    decreases s.len() - i,
{
    if i < 0 || i >= s.len() || s[i] != 0 {
        0
    } else {
        1 + zero_run(s, i + 1)
    }
}

/// Among the first `n` positions, the first one where the longest run of zero
/// segments starts.
pub open spec fn longest_zero_run_start(s: Seq<u16>, n: nat) -> int
    decreases n,
{
    if n <= 1 {
        0
    } else {
        let b = longest_zero_run_start(s, (n - 1) as nat);
        if zero_run(s, n - 1) > zero_run(s, b) { n - 1 } else { b }
    }
}

/// IPv6 text as the standard library writes it: an IPv4-mapped address as
/// "::ffff:a.b.c.d"; otherwise hexadecimal groups, with the first longest run of
/// two or more zero groups written "::".
pub open spec fn ipv6_text(s: Seq<u16>) -> Seq<char> {
    if s[0] == 0 && s[1] == 0 && s[2] == 0 && s[3] == 0 && s[4] == 0 && s[5] == 0xffff {
        seq![':', ':', 'f', 'f', 'f', 'f', ':'] + ipv4_text(
            seq![(s[6] / 256) as u8, (s[6] % 256) as u8, (s[7] / 256) as u8, (s[7] % 256) as u8],
        )
    } else {
        let start = longest_zero_run_start(s, 8);
        let len = zero_run(s, start);
        if len > 1 {
            hex_groups(s.take(start)) + seq![':', ':'] + hex_groups(s.skip(start + len))
        } else {
            hex_groups(s)
        }
    }
}

pub open spec fn ip_text_spec(ip: IpAddr) -> Seq<char> {
    match ip {
        IpAddr::V4(o) => ipv4_text(o@),
        IpAddr::V6(s) => ipv6_text(s@),
    }
}

fn push_hex(s: &mut String, n: u64)
    ensures
        final(s)@ == old(s)@ + hex_digits(n as nat),
    decreases n,
{
    if n >= 16 {
        push_hex(s, n / 16);
    }
    let d = (n % 16) as u8;
    push_char(s, crate::hashing::hex_digit(d));
    proof {
        if n >= 16 {
            assert(hex_digits(n as nat) == hex_digits((n / 16) as nat).push(hex_char((n % 16) as int)));
        }
    }
}

fn push_ipv4(s: &mut String, o: [u8; 4])
    ensures
        final(s)@ == old(s)@ + ipv4_text(o@),
{
    push_decimal(s, o[0] as u64);
    push_char(s, '.');
    push_decimal(s, o[1] as u64);
    push_char(s, '.');
    push_decimal(s, o[2] as u64);
    push_char(s, '.');
    push_decimal(s, o[3] as u64);
    assert(s@ =~= old(s)@ + ipv4_text(o@));
}

fn push_hex_groups(s: &mut String, seg: [u16; 8], from: usize, to: usize)
    requires
        from <= to <= 8,
    ensures
        final(s)@ == old(s)@ + hex_groups(seg@.subrange(from as int, to as int)),
{
    let mut i = from;
    while i < to
        invariant
            from <= i <= to <= 8,
            s@ == old(s)@ + hex_groups(seg@.subrange(from as int, i as int)),
        decreases to - i,
    {
        if i > from {
            push_char(s, ':');
        }
        push_hex(s, seg[i] as u64);
        proof {
            let t = seg@.subrange(from as int, i as int + 1);
            assert(t.drop_last() =~= seg@.subrange(from as int, i as int));
            if i == from {
                assert(t.len() == 1);
            }
        }
        i = i + 1;
    }
}

fn zero_run_at(seg: [u16; 8], i: usize) -> (n: usize)
    requires
        i <= 8,
    ensures
        n == zero_run(seg@, i as int),
        n <= 8 - i,
    decreases 8 - i,
{
    if i >= 8 || seg[i] != 0 {
        0
    } else {
        1 + zero_run_at(seg, i + 1)
    }
}

fn push_ipv6(s: &mut String, seg: [u16; 8])
    ensures
        final(s)@ == old(s)@ + ipv6_text(seg@),
{
    if seg[0] == 0 && seg[1] == 0 && seg[2] == 0 && seg[3] == 0 && seg[4] == 0 && seg[5] == 0xffff {
        push_char(s, ':');
        push_char(s, ':');
        push_char(s, 'f');
        push_char(s, 'f');
        push_char(s, 'f');
        push_char(s, 'f');
        push_char(s, ':');
        let o: [u8; 4] = [(seg[6] / 256) as u8, (seg[6] % 256) as u8, (seg[7] / 256) as u8, (seg[7] % 256) as u8];
        push_ipv4(s, o);
        assert(o@ =~= seq![(seg@[6] / 256) as u8, (seg@[6] % 256) as u8, (seg@[7] / 256) as u8, (seg@[7] % 256) as u8]);
        assert(s@ =~= old(s)@ + ipv6_text(seg@));
        return;
    }
    let mut best: usize = 0;
    let mut best_len: usize = zero_run_at(seg, 0);
    let mut i: usize = 1;
    while i < 8
        invariant
            1 <= i <= 8,
            best < 8,
            best == longest_zero_run_start(seg@, i as nat),
            best_len == zero_run(seg@, best as int),
            best_len <= 8 - best,
        decreases 8 - i,
    {
        let run = zero_run_at(seg, i);
        if run > best_len {
            best = i;
            best_len = run;
        }
        i = i + 1;
    }
    let ghost start = longest_zero_run_start(seg@, 8);
    if best_len > 1 {
        push_hex_groups(s, seg, 0, best);
        push_char(s, ':');
        push_char(s, ':');
        let after = best + best_len;
        push_hex_groups(s, seg, after, 8);
        proof {
            assert(seg@.subrange(0, best as int) =~= seg@.take(start));
            assert(seg@.subrange(after as int, 8) =~= seg@.skip(start + best_len));
        }
    } else {
        push_hex_groups(s, seg, 0, 8);
        assert(seg@.subrange(0, 8) =~= seg@);
    }
    assert(s@ =~= old(s)@ + ipv6_text(seg@));
}

/// The text of an IP address, as the standard library writes it.
pub fn ip_text(ip: IpAddr) -> (s: String)
    ensures
        s@ == ip_text_spec(ip),
{
    let mut s = String::new();
    match ip {
        IpAddr::V4(o) => push_ipv4(&mut s, o),
        IpAddr::V6(seg) => push_ipv6(&mut s, seg),
    }
    assert(s@ =~= ip_text_spec(ip));
    s
}

impl BindGuardError {
    /// "<ip> is not a private LAN bind target".
    pub fn message(&self) -> (m: String)
        ensures
            m@ == ip_text_spec(self.0) + " is not a private LAN bind target"@,
    {
        let mut m = ip_text(self.0);
        crate::text::push_str(&mut m, " is not a private LAN bind target");
        m
    }
}

/// One network interface as shown to the user.
#[derive(Debug)]
pub struct NetworkInterfaceSummary {
    pub name: String,
    pub ip: String,
    pub allowed_for_bind: bool,
}

/// The summary of the interface `name` with address `ip`.
pub fn interface_summary(name: String, ip: IpAddr) -> (s: NetworkInterfaceSummary)
    ensures
        s.name == name,
        s.ip@ == ip_text_spec(ip),
        s.allowed_for_bind == is_allowed_bind_ip_spec(ip),
{
    NetworkInterfaceSummary { name, ip: ip_text(ip), allowed_for_bind: is_allowed_bind_ip(ip) }
}

/// The summaries of a list of interfaces, in order.
pub fn interface_summaries(interfaces: Vec<(String, IpAddr)>) -> (r: Vec<NetworkInterfaceSummary>)
    ensures
        r@.len() == interfaces@.len(),
        forall|i: int| 0 <= i < r@.len() ==> {
            &&& (#[trigger] r@[i]).name == interfaces@[i].0
            &&& r@[i].ip@ == ip_text_spec(interfaces@[i].1)
            &&& r@[i].allowed_for_bind == is_allowed_bind_ip_spec(interfaces@[i].1)
        },
{
    let mut rest = interfaces;
    let ghost original = rest@;
    let mut r: Vec<NetworkInterfaceSummary> = Vec::new();
    while rest.len() > 0
        invariant
            rest@.len() <= original.len(),
            rest@ == original.skip(original.len() - rest@.len()),
            r@.len() == original.len() - rest@.len(),
            forall|i: int| 0 <= i < r@.len() ==> {
                &&& (#[trigger] r@[i]).name == original[i].0
                &&& r@[i].ip@ == ip_text_spec(original[i].1)
                &&& r@[i].allowed_for_bind == is_allowed_bind_ip_spec(original[i].1)
            },
        decreases rest@.len(),
    {
        let ghost n: int = r@.len() as int;
        let (name, ip) = rest.remove(0);
        proof {
            assert(original[n] == (name, ip));
            assert(rest@ =~= original.skip(n + 1 as int));
        }
        r.push(interface_summary(name, ip));
    }
    r
}

/// Why a listener was not bound.
#[derive(Debug)]
pub enum BindTcpListenerError {
    Guard(BindGuardError),
    UnscopedIpv6LinkLocal,
    Bind(std::io::Error),
}

/// The address a listener binds to: only an allowed bind target, and not an IPv6
/// link-local address, which would need an interface scope.
pub fn listener_bind_ip(ip: IpAddr) -> (r: Result<IpAddr, BindTcpListenerError>)
    ensures
        !is_allowed_bind_ip_spec(ip) ==> (r matches Err(BindTcpListenerError::Guard(e)) && e == BindGuardError(ip)),
        is_allowed_bind_ip_spec(ip) && ip is V6 ==> r matches Err(BindTcpListenerError::UnscopedIpv6LinkLocal),
        is_allowed_bind_ip_spec(ip) && ip is V4 ==> (r matches Ok(a) && a == ip),
{
    match guard_bind_ip(ip) {
        Err(e) => Err(BindTcpListenerError::Guard(e)),
        Ok(IpAddr::V6(_)) => Err(BindTcpListenerError::UnscopedIpv6LinkLocal),
        Ok(a) => Ok(a),
    }
}

impl BindTcpListenerError {
    /// The message of a refusal decided before binding (`None` for a failed bind,
    /// whose message is the operating system's).
    pub fn refusal_message(&self) -> (m: Option<String>)
        ensures
            self matches BindTcpListenerError::Guard(e) ==> (m matches Some(t)
                && t@ == ip_text_spec(e.0) + " is not a private LAN bind target"@),
            self is UnscopedIpv6LinkLocal ==> (m matches Some(t)
                && t@ == "IPv6 link-local listener binding requires an interface scope"@),
            self is Bind ==> m is None,
    {
        match self {
            BindTcpListenerError::Guard(e) => Some(e.message()),
            BindTcpListenerError::UnscopedIpv6LinkLocal => Some(
                String::from_str("IPv6 link-local listener binding requires an interface scope"),
            ),
            BindTcpListenerError::Bind(_) => None,
        }
    }
}

} // verus!
