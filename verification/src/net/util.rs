//! Netmasks and MAC address helpers.

use crate::net::addr::Ipv4Addr;
use crate::net::ethernet;
use crate::net::ethernet::{display_mac, MacAddr};
use sha2::{Digest, Sha256};
use vstd::prelude::*;

verus! {

/// The mask of `prefix` leading ones.
pub open spec fn prefix_mask(prefix: u8) -> u32 {
    if prefix == 0 {
        0
    } else {
        0xffff_ffffu32 << ((32 - prefix) as u32)
    }
}

/// True of masks that are contiguous ones followed by zeros.
pub open spec fn is_netmask(mask: u32) -> bool {
    exists|p: u8| p <= 32 && mask == #[trigger] prefix_mask(p)
}

/// A valid IPv4 netmask: contiguous ones followed by zeros.
#[derive(Copy, Clone, Eq, PartialEq, Structural, Debug)]
pub struct Netmask {
    mask: Ipv4Addr,
}

impl Netmask {
    /// The mask as an address.
    pub closed spec fn spec_netmask(self) -> Ipv4Addr {
        self.mask
    }

    #[verifier::type_invariant]
    spec fn valid(self) -> bool {
        is_netmask(self.mask.bits)
    }

    /// `netmask` as a netmask; `None` unless it is contiguous ones followed by
    /// zeros.
    pub fn new(netmask: Ipv4Addr) -> (r: Option<Self>)
        ensures
            r is Some <==> is_netmask(netmask.bits),
            r matches Some(m) ==> m.spec_netmask() == netmask,
    {
        match netmask_to_prefix(netmask) {
            Some(_) => Some(Netmask { mask: netmask }),
            None => None,
        }
    }

    /// The number of leading ones.
    pub fn prefix(&self) -> (r: u8)
        ensures
            r <= 32,
            self.spec_netmask().bits == prefix_mask(r),
    {
        proof {
            use_type_invariant(self);
        }
        match netmask_to_prefix(self.mask) {
            Some(p) => p,
            None => {
                assert(false);
                0
            },
        }
    }

    pub fn netmask(&self) -> (r: Ipv4Addr)
        ensures
            r == self.spec_netmask(),
            is_netmask(r.bits),
    {
        proof {
            use_type_invariant(self);
        }
        self.mask
    }

    /// The network that `ip` belongs to: `ip` with the host bits cleared.
    pub fn network(&self, ip: Ipv4Addr) -> (r: Ipv4Addr)
        ensures
            r.bits == ip.bits & self.spec_netmask().bits,
    {
        Ipv4Addr { bits: ip.bits & self.mask.bits }
    }
}

/// The mask of `prefix` leading ones; `None` if there are more than 32.
pub fn prefix_to_netmask(prefix: u8) -> (r: Option<Ipv4Addr>)
    ensures
        r == if prefix > 32 {
            None
        } else {
            Some(Ipv4Addr { bits: prefix_mask(prefix) })
        },
{
    if prefix > 32 {
        return None;
    }
    let mask: u32 = if prefix == 0 {
        0
    } else {
        0xffff_ffffu32 << ((32 - prefix) as u32)
    };
    Some(Ipv4Addr { bits: mask })
}

/// The number of leading ones of a netmask; `None` if it is not one.
pub fn netmask_to_prefix(netmask: Ipv4Addr) -> (r: Option<u8>)
    ensures
        r is Some <==> is_netmask(netmask.bits),
        r matches Some(p) ==> p <= 32 && netmask.bits == prefix_mask(p),
{
    let mut p: u8 = 0;
    while p <= 32
        invariant
            p <= 33,
            forall|q: u8| q < p ==> netmask.bits != #[trigger] prefix_mask(q),
        decreases 33 - p,
    {
        let mask: u32 = if p == 0 {
            0
        } else {
            0xffff_ffffu32 << ((32 - p) as u32)
        };
        assert(mask == prefix_mask(p));
        if netmask.bits == mask {
            return Some(p);
        }
        p = p + 1;
    }
    None
}

/// Different prefixes have different masks, so prefix and netmask determine
/// each other.
pub proof fn law_prefix_netmask_inverse(p: u8, q: u8)
    requires
        p <= 32,
        q <= 32,
    ensures
        is_netmask(prefix_mask(p)),
        prefix_mask(p) == prefix_mask(q) ==> p == q,
{
    let a: u32 = (32 - p) as u32;
    let b: u32 = (32 - q) as u32;
    assert(a < 32 && b < 32 && 0xffff_ffffu32 << a == 0xffff_ffffu32 << b ==> a == b)
        by (bit_vector);
    assert(a < 32 ==> 0xffff_ffffu32 << a != 0) by (bit_vector);
    assert(b < 32 ==> 0xffff_ffffu32 << b != 0) by (bit_vector);
}

/// The SHA-256 digest of `data`.
pub uninterp spec fn sha256_digest(data: Seq<u8>) -> Seq<u8>;

/// `Sha256::new`, `update` with `data`, `finalize`: the SHA-256 digest of
/// `data`, which is a function of `data` alone. What the digest is on given
/// bytes is not stated.
#[verifier::external_body]
fn sha256(data: &[u8]) -> (r: [u8; 32])
    ensures
        r@ == sha256_digest(data@),
{
    let mut hasher = Sha256::new();
    hasher.update(data);
    hasher.finalize().into()
}

/// The MAC address made of a digest: its first six bytes, with the locally
/// administered bit set and the multicast bit cleared.
pub open spec fn digest_mac(digest: Seq<u8>) -> Seq<u8> {
    seq![
        (digest[0] | 0x02) & 0xfe,
        digest[1],
        digest[2],
        digest[3],
        digest[4],
        digest[5],
    ]
}

/// The MAC address made of a digest: its first six bytes, with the locally
/// administered bit set and the multicast bit cleared.
pub fn mac_from_digest(digest: &[u8; 32]) -> (r: MacAddr)
    ensures
        r@ == digest_mac(digest@),
{
    let mut mac: MacAddr = [digest[0], digest[1], digest[2], digest[3], digest[4], digest[5]];
    // Set locally administered bit (bit 1)
    mac[0] = mac[0] | 0x02;
    // Clear multicast bit (bit 0)
    mac[0] = mac[0] & 0xfe;
    assert(mac@ =~= digest_mac(digest@));
    mac
}

/// The MAC address that stands for `ip`.
pub open spec fn spec_software_defined_mac(ip: Ipv4Addr) -> Seq<u8> {
    digest_mac(sha256_digest(vstd::utf8::encode_utf8(ip.dotted())))
}

/// Generate a software defined locally administered MAC address from an IP
/// address, for use in ARP replies when we don't have a real MAC to reply with.
pub fn software_defined_mac(ip: Ipv4Addr) -> (r: MacAddr)
    ensures
        r@ == spec_software_defined_mac(ip),
{
    let text = ip.to_string();
    let digest = sha256(text.as_str().as_bytes());
    mac_from_digest(&digest)
}

/// A software defined MAC address is locally administered and not a group
/// address.
pub proof fn law_software_defined_mac_is_local_unicast(ip: Ipv4Addr)
    ensures
        spec_software_defined_mac(ip)[0] & 0x02 != 0,
        spec_software_defined_mac(ip)[0] & ethernet::MULTICAST_BIT == 0,
{
    let b: u8 = sha256_digest(vstd::utf8::encode_utf8(ip.dotted()))[0];
    assert(((b | 0x02) & 0xfe) & 0x02 != 0 && ((b | 0x02) & 0xfe) & 0x01 == 0) by (bit_vector);
}

/// `mac` in the usual notation, as in `02:00:5e:10:00:01`.
pub fn format_mac(mac: &[u8; 6]) -> (r: String)
    ensures
        r@ == ethernet::mac_text(mac@, 6),
{
    display_mac(mac)
}

/// Bit `b` of the mask of a prefix, counted from the left, is set exactly if it
/// belongs to the prefix.
pub proof fn law_prefix_counts_leading_ones(p: u8, b: u32)
    requires
        p <= 32,
        b < 32,
    ensures
        (prefix_mask(p) >> ((31 - b) as u32)) & 1 == 1 <==> b < p,
{
    let a: u32 = (32 - p) as u32;
    let c: u32 = (31 - b) as u32;
    assert(a < 32 && c < 32 ==> (((0xffff_ffffu32 << a) >> c) & 1 == 1 <==> c >= a)) by (bit_vector);
    assert((0u32 >> c) & 1 == 0) by (bit_vector);
}

/// A digest gives an address of six bytes: its own first six, but for the two
/// lowest bits of the first, which say locally administered and unicast.
pub proof fn law_digest_gives_the_address(d: Seq<u8>)
    ensures
        digest_mac(d).len() == 6,
        digest_mac(d)[0] / 4 == d[0] / 4,
        digest_mac(d)[0] % 4 == 2,
        forall|i: int| 1 <= i < 6 ==> #[trigger] digest_mac(d)[i] == d[i],
{
    let b: u8 = d[0];
    assert(((b | 0x02) & 0xfe) / 4 == b / 4 && ((b | 0x02) & 0xfe) % 4 == 2) by (bit_vector);
}

} // verus!
