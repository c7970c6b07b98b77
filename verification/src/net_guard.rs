//! The address guard of the `did:web` resolver: which IP addresses it must never contact.
use vstd::prelude::*;

verus! {

/// An IP address: four IPv4 octets or eight IPv6 16-bit segments, most significant first.
#[derive(Debug, Clone, Copy, PartialEq, Eq)]
pub enum IpAddress {
    V4([u8; 4]),
    V6([u16; 8]),
}

impl IpAddress {
    /// The IPv4 address `a.b.c.d`.
    pub fn v4(a: u8, b: u8, c: u8, d: u8) -> (r: IpAddress)
        ensures
            r matches IpAddress::V4(o) && o@ == seq![a, b, c, d],
    {
        IpAddress::V4([a, b, c, d])
    }

    /// The IPv6 address with the given segments.
    pub fn v6(segments: [u16; 8]) -> (r: IpAddress)
        ensures
            r == IpAddress::V6(segments),
    {
        IpAddress::V6(segments)
    }
}

/// 127.0.0.0/8.
pub open spec fn v4_loopback(o: Seq<u8>) -> bool {
    o[0] == 127
}

/// 10.0.0.0/8, 172.16.0.0/12 and 192.168.0.0/16 (RFC 1918).
pub open spec fn v4_private(o: Seq<u8>) -> bool {
    o[0] == 10 || (o[0] == 172 && 16 <= o[1] <= 31) || (o[0] == 192 && o[1] == 168)
}

/// 169.254.0.0/16, which holds the cloud metadata endpoint 169.254.169.254.
pub open spec fn v4_link_local(o: Seq<u8>) -> bool {
    o[0] == 169 && o[1] == 254
}

/// 0.0.0.0.
pub open spec fn v4_unspecified(o: Seq<u8>) -> bool {
    o[0] == 0 && o[1] == 0 && o[2] == 0 && o[3] == 0
}

/// 224.0.0.0/4.
pub open spec fn v4_multicast(o: Seq<u8>) -> bool {
    224 <= o[0] <= 239
}

/// 255.255.255.255.
pub open spec fn v4_broadcast(o: Seq<u8>) -> bool {
    o[0] == 255 && o[1] == 255 && o[2] == 255 && o[3] == 255
}

/// 192.0.2.0/24, 198.51.100.0/24 and 203.0.113.0/24 (RFC 5737).
pub open spec fn v4_documentation(o: Seq<u8>) -> bool {
    (o[0] == 192 && o[1] == 0 && o[2] == 2) || (o[0] == 198 && o[1] == 51 && o[2] == 100) || (
    o[0] == 203 && o[1] == 0 && o[2] == 113)
}

/// An IPv4 address that the resolver must never contact.
pub open spec fn v4_disallowed(o: Seq<u8>) -> bool {
    v4_loopback(o) || v4_private(o) || v4_link_local(o) || v4_unspecified(o) || v4_multicast(o)
        || v4_broadcast(o) || v4_documentation(o)
}

/// `::1`.
pub open spec fn v6_loopback(s: Seq<u16>) -> bool {
    s[0] == 0 && s[1] == 0 && s[2] == 0 && s[3] == 0 && s[4] == 0 && s[5] == 0 && s[6] == 0 && s[7]
        == 1
}

/// `::`.
pub open spec fn v6_unspecified(s: Seq<u16>) -> bool {
    s[0] == 0 && s[1] == 0 && s[2] == 0 && s[3] == 0 && s[4] == 0 && s[5] == 0 && s[6] == 0 && s[7]
        == 0
}

/// `ff00::/8`.
pub open spec fn v6_multicast(s: Seq<u16>) -> bool {
    s[0] >= 0xff00
}

/// `fc00::/7` (unique local).
pub open spec fn v6_unique_local(s: Seq<u16>) -> bool {
    0xfc00 <= s[0] <= 0xfdff
}

/// `fe80::/10` (unicast link-local).
pub open spec fn v6_link_local(s: Seq<u16>) -> bool {
    0xfe80 <= s[0] <= 0xfebf
}

/// The address carries an IPv4 address: `::ffff:a.b.c.d` (mapped) or `::a.b.c.d` (compatible).
pub open spec fn v6_embeds_v4(s: Seq<u16>) -> bool {
    s[0] == 0 && s[1] == 0 && s[2] == 0 && s[3] == 0 && s[4] == 0 && (s[5] == 0 || s[5] == 0xffff)
}

/// The IPv4 octets in the last two segments.
pub open spec fn v6_embedded_v4(s: Seq<u16>) -> Seq<u8> {
    seq![(s[6] / 256) as u8, (s[6] % 256) as u8, (s[7] / 256) as u8, (s[7] % 256) as u8]
}

/// An IPv6 address that the resolver must never contact: loopback, unspecified, multicast,
/// unique local, link-local, or an embedded IPv4 address that is itself disallowed.
pub open spec fn v6_disallowed(s: Seq<u16>) -> bool {
    v6_loopback(s) || v6_unspecified(s) || v6_multicast(s) || v6_unique_local(s) || v6_link_local(s)
        || (v6_embeds_v4(s) && v4_disallowed(v6_embedded_v4(s)))
}

/// An address that the resolver must never contact.
pub open spec fn disallowed(ip: IpAddress) -> bool {
    match ip {
        IpAddress::V4(o) => v4_disallowed(o@),
        IpAddress::V6(s) => v6_disallowed(s@),
    }
}

fn is_disallowed_v4(o: [u8; 4]) -> (b: bool)
    ensures
        b == v4_disallowed(o@),
{
    let (a, b, c, d) = (o[0], o[1], o[2], o[3]);
    a == 127 || a == 10 || (a == 172 && 16 <= b && b <= 31) || (a == 192 && b == 168) || (a == 169
        && b == 254) || (a == 0 && b == 0 && c == 0 && d == 0) || (224 <= a && a <= 239) || (a
        == 255 && b == 255 && c == 255 && d == 255) || (a == 192 && b == 0 && c == 2) || (a == 198
        && b == 51 && c == 100) || (a == 203 && b == 0 && c == 113)
}

/// Returns `true` if `ip` must never be contacted by the `did:web` resolver: loopback,
/// private (RFC 1918), link-local (including cloud metadata), unspecified, multicast,
/// broadcast and documentation IPv4 ranges; IPv6 loopback, unspecified, multicast,
/// unique-local and link-local ranges; and IPv4-mapped or IPv4-compatible IPv6 forms of any
/// disallowed IPv4 address.
pub fn is_disallowed_target(ip: IpAddress) -> (b: bool)
    ensures
        b == disallowed(ip),
{
    match ip {
        IpAddress::V4(o) => is_disallowed_v4(o),
        IpAddress::V6(s) => {
            let s0 = s[0];
            let is_unique_local = (s0 & 0xfe00) == 0xfc00;
            let is_unicast_link_local = (s0 & 0xffc0) == 0xfe80;
            let is_multicast = (s0 & 0xff00) == 0xff00;
            proof {
                assert(((s0 & 0xfe00) == 0xfc00) == (0xfc00 <= s0 <= 0xfdff)) by (bit_vector);
                assert(((s0 & 0xffc0) == 0xfe80) == (0xfe80 <= s0 <= 0xfebf)) by (bit_vector);
                assert(((s0 & 0xff00) == 0xff00) == (s0 >= 0xff00)) by (bit_vector);
            }
            let head_zero = s[0] == 0 && s[1] == 0 && s[2] == 0 && s[3] == 0 && s[4] == 0;
            let loopback = head_zero && s[5] == 0 && s[6] == 0 && s[7] == 1;
            let unspecified = head_zero && s[5] == 0 && s[6] == 0 && s[7] == 0;
            if loopback || unspecified || is_multicast || is_unique_local || is_unicast_link_local {
                return true;
            }
            if head_zero && (s[5] == 0 || s[5] == 0xffff) {
                let o = [(s[6] / 256) as u8, (s[6] % 256) as u8, (s[7] / 256) as u8, (s[7] % 256) as u8];
                return is_disallowed_v4(o);
            }
            false
        },
    }
}

/// Why the resolver refuses to connect after resolving a host.
#[derive(Debug, Clone, Copy, PartialEq, Eq)]
pub enum ResolutionRefusal {
    /// The DNS lookup returned no address.
    NoAddresses,
    /// The address at this index of the lookup result is disallowed.
    Disallowed(usize),
}

/// Checks the addresses that a `did:web` host resolved to before any connection is made:
/// there must be at least one, and unless private targets are explicitly allowed none may be
/// disallowed; the first disallowed one is reported.
pub fn check_resolved_addresses(addrs: &Vec<IpAddress>, allow_private: bool) -> (res: Result<(), ResolutionRefusal>)
    ensures
        addrs@.len() == 0 ==> res == Err::<(), ResolutionRefusal>(ResolutionRefusal::NoAddresses),
        addrs@.len() > 0 && allow_private ==> res is Ok,
        addrs@.len() > 0 && !allow_private ==> match res {
            Ok(()) => forall|i: int| 0 <= i < addrs@.len() ==> !disallowed(#[trigger] addrs@[i]),
            Err(ResolutionRefusal::Disallowed(i)) => i < addrs@.len() && disallowed(addrs@[i as int])
                && forall|k: int| 0 <= k < i ==> !disallowed(#[trigger] addrs@[k]),
            Err(ResolutionRefusal::NoAddresses) => false,
        },
{
    if addrs.len() == 0 {
        return Err(ResolutionRefusal::NoAddresses);
    }
    if allow_private {
        return Ok(());
    }
    let mut i: usize = 0;
    while i < addrs.len()
        invariant
            i <= addrs@.len(),
            !allow_private,
            forall|k: int| 0 <= k < i ==> !disallowed(#[trigger] addrs@[k]),
        decreases addrs@.len() - i,
    {
        if is_disallowed_target(addrs[i]) {
            return Err(ResolutionRefusal::Disallowed(i));
        }
        i = i + 1;
    }
    Ok(())
}

} // verus!
