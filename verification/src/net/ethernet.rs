//! Ethernet II framing.

use crate::net::wire::{Pod, U16Be};
use crate::table::Key;
use crate::text;
use crate::text::push_hex2;
use vstd::prelude::*;

pub mod ethertype;

verus! {

/// A 48-bit MAC address.
pub type MacAddr = [u8; 6];

/// All-ones destination MAC: the Ethernet broadcast address.
pub const BROADCAST: MacAddr = [0xff, 0xff, 0xff, 0xff, 0xff, 0xff];

/// The I/G (individual/group) bit, i.e. the least-significant bit of a MAC's
/// first octet. When set, the address is a group (multicast) address.
pub const MULTICAST_BIT: u8 = 0x01;

/// The first `n` octets of a MAC address as lower-case hexadecimal pairs,
/// separated by colons.
pub open spec fn mac_text(mac: Seq<u8>, n: nat) -> Seq<char>
    decreases n,
{
    if n == 0 {
        seq![]
    } else {
        let rest = mac_text(mac, (n - 1) as nat);
        let sep = if n == 1 {
            rest
        } else {
            rest.push(':')
        };
        sep + text::hex2(mac[n - 1])
    }
}

/// `mac` in the usual notation, as in `02:00:5e:10:00:01`.
pub fn display_mac(mac: &MacAddr) -> (r: String)
    ensures
        r@ == mac_text(mac@, 6),
{
    let mut s = String::new();
    let mut i: usize = 0;
    while i < 6
        invariant
            i <= 6,
            s@ == mac_text(mac@, i as nat),
        decreases 6 - i,
    {
        if i != 0 {
            s.push(':');
        }
        push_hex2(&mut s, mac[i]);
        i = i + 1;
    }
    s
}

/// The MAC address at `i`.
pub open spec fn mac_at(s: Seq<u8>, i: int) -> MacAddr {
    [s[i], s[i + 1], s[i + 2], s[i + 3], s[i + 4], s[i + 5]]
}

/// The 48-bit number of a MAC address, first octet most significant.
pub open spec fn mac_code(m: MacAddr) -> u64 {
    (m[0] * 0x100_0000_0000 + m[1] * 0x1_0000_0000 + m[2] * 0x100_0000 + m[3] * 0x1_0000 + m[4]
        * 0x100 + m[5]) as u64
}

/// The octets of a MAC address, taken apart from its number.
proof fn lemma_mac_code(m: MacAddr)
    ensures
        ({
            let c = mac_code(m);
            &&& m[5] == c % 0x100
            &&& m[4] == c / 0x100 % 0x100
            &&& m[3] == c / 0x1_0000 % 0x100
            &&& m[2] == c / 0x100_0000 % 0x100
            &&& m[1] == c / 0x1_0000_0000 % 0x100
            &&& m[0] == c / 0x100_0000_0000
        }),
{
    let c = mac_code(m);
    assert(c / 0x100 == m[0] * 0x1_0000_0000 + m[1] * 0x100_0000 + m[2] * 0x1_0000 + m[3] * 0x100
        + m[4]);
    assert(c / 0x1_0000 == m[0] * 0x100_0000 + m[1] * 0x1_0000 + m[2] * 0x100 + m[3]);
    assert(c / 0x100_0000 == m[0] * 0x1_0000 + m[1] * 0x100 + m[2]);
    assert(c / 0x1_0000_0000 == m[0] * 0x100 + m[1]);
    assert(c / 0x100_0000_0000 == m[0]);
}

/// Different MAC addresses have different numbers.
pub proof fn lemma_mac_code_injective(a: MacAddr, b: MacAddr)
    requires
        mac_code(a) == mac_code(b),
    ensures
        a == b,
{
    lemma_mac_code(a);
    lemma_mac_code(b);
    assert(a =~= b);
}

/// The 48-bit number of a MAC address, first octet most significant.
pub fn mac_to_u64(m: &MacAddr) -> (r: u64)
    ensures
        r == mac_code(*m),
{
    m[0] as u64 * 0x100_0000_0000 + m[1] as u64 * 0x1_0000_0000 + m[2] as u64 * 0x100_0000
        + m[3] as u64 * 0x1_0000 + m[4] as u64 * 0x100 + m[5] as u64
}

impl Key for MacAddr {
    open spec fn code(self) -> u128 {
        mac_code(self) as u128
    }

    proof fn lemma_code_injective(self, other: Self) {
        lemma_mac_code_injective(self, other);
    }

    fn encode(&self) -> (r: u128) {
        mac_to_u64(self) as u128
    }
}

/// True if the two addresses are the same.
pub fn same_mac(a: &MacAddr, b: &MacAddr) -> (r: bool)
    ensures
        r == (a@ == b@),
        r == (*a == *b),
{
    let r = a[0] == b[0] && a[1] == b[1] && a[2] == b[2] && a[3] == b[3] && a[4] == b[4] && a[5]
        == b[5];
    proof {
        if r {
            assert(a@ =~= b@);
            assert(*a =~= *b);
        }
    }
    r
}

/// Ethernet II header: `dst | src | ethertype`.
#[derive(Clone, Copy, Debug)]
pub struct EthernetHeader {
    pub dst: MacAddr,
    pub src: MacAddr,
    pub ethertype: U16Be,
}

impl Pod for EthernetHeader {
    open spec fn wire_len() -> nat {
        14
    }

    open spec fn bytes(self) -> Seq<u8> {
        seq![
            self.dst[0],
            self.dst[1],
            self.dst[2],
            self.dst[3],
            self.dst[4],
            self.dst[5],
            self.src[0],
            self.src[1],
            self.src[2],
            self.src[3],
            self.src[4],
            self.src[5],
            self.ethertype.hi,
            self.ethertype.lo,
        ]
    }

    proof fn lemma_len(self) {
    }

    proof fn lemma_injective(self, other: Self) {
        assert(self.bytes()[0] == other.bytes()[0]);
        assert(self.bytes()[1] == other.bytes()[1]);
        assert(self.bytes()[2] == other.bytes()[2]);
        assert(self.bytes()[3] == other.bytes()[3]);
        assert(self.bytes()[4] == other.bytes()[4]);
        assert(self.bytes()[5] == other.bytes()[5]);
        assert(self.dst =~= other.dst);
        assert(self.bytes()[6] == other.bytes()[6]);
        assert(self.bytes()[7] == other.bytes()[7]);
        assert(self.bytes()[8] == other.bytes()[8]);
        assert(self.bytes()[9] == other.bytes()[9]);
        assert(self.bytes()[10] == other.bytes()[10]);
        assert(self.bytes()[11] == other.bytes()[11]);
        assert(self.src =~= other.src);
        assert(self.bytes()[12] == other.bytes()[12]);
        assert(self.bytes()[13] == other.bytes()[13]);
    }

    fn size() -> (n: usize) {
        14
    }

    fn load(buf: &[u8]) -> (r: Self) {
        let r = EthernetHeader {
            dst: [buf[0], buf[1], buf[2], buf[3], buf[4], buf[5]],
            src: [buf[6], buf[7], buf[8], buf[9], buf[10], buf[11]],
            ethertype: U16Be { hi: buf[12], lo: buf[13] },
        };
        assert(r.bytes() =~= buf@);
        r
    }

    fn store(&self, buf: &mut [u8]) {
        buf[0] = self.dst[0];
        buf[1] = self.dst[1];
        buf[2] = self.dst[2];
        buf[3] = self.dst[3];
        buf[4] = self.dst[4];
        buf[5] = self.dst[5];
        buf[6] = self.src[0];
        buf[7] = self.src[1];
        buf[8] = self.src[2];
        buf[9] = self.src[3];
        buf[10] = self.src[4];
        buf[11] = self.src[5];
        buf[12] = self.ethertype.hi;
        buf[13] = self.ethertype.lo;
        assert(buf@ =~= self.bytes());
    }
}

impl Default for EthernetHeader {
    /// The all-zero header.
    fn default() -> (r: Self)
        ensures
            r.bytes() == Seq::new(14, |i: int| 0u8),
    {
        let r = EthernetHeader {
            dst: [0, 0, 0, 0, 0, 0],
            src: [0, 0, 0, 0, 0, 0],
            ethertype: U16Be { hi: 0, lo: 0 },
        };
        assert(r.bytes() =~= Seq::new(14, |i: int| 0u8));
        r
    }
}

impl EthernetHeader {
    pub const LEN: usize = 14;

    pub fn ethertype(&self) -> (r: u16)
        ensures
            r == self.ethertype.value(),
    {
        self.ethertype.get()
    }

    pub fn set_ethertype(&mut self, v: u16)
        ensures
            *final(self) == (Self { ethertype: U16Be::spec_new(v), ..*old(self) }),
            final(self).ethertype.value() == v,
    {
        self.ethertype.set(v);
    }

    pub fn is_broadcast(&self) -> (r: bool)
        ensures
            r == (self.dst@ == BROADCAST@),
    {
        same_mac(&self.dst, &BROADCAST)
    }

    pub fn is_multicast(&self) -> (r: bool)
        ensures
            r == (self.dst@[0] & MULTICAST_BIT != 0),
    {
        // Index 0 = first transmitted octet, which carries the I/G bit.
        self.dst[0] & MULTICAST_BIT != 0
    }
}

/// Bit position of the 3-bit Priority Code Point within the 16-bit TCI.
pub const TCI_PCP_SHIFT: u32 = 13;

/// Mask for the Priority Code Point after it has been shifted to the low bits.
pub const TCI_PCP_MASK: u8 = 0x07;

/// Drop-Eligible Indicator bit within the TCI.
pub const TCI_DEI_BIT: u16 = 0x1000;

/// Mask for the 12-bit VLAN identifier within the TCI.
pub const TCI_VID_MASK: u16 = 0x0fff;

/// 802.1Q VLAN tag, sitting between `src` and the (inner) ethertype when the
/// outer ethertype is [`ethertype::VLAN`].
#[derive(Clone, Copy, Debug)]
pub struct VlanTag {
    pub tci: U16Be,
    pub inner_ethertype: U16Be,
}

impl Pod for VlanTag {
    open spec fn wire_len() -> nat {
        4
    }

    open spec fn bytes(self) -> Seq<u8> {
        seq![
            self.tci.hi,
            self.tci.lo,
            self.inner_ethertype.hi,
            self.inner_ethertype.lo,
        ]
    }

    proof fn lemma_len(self) {
    }

    proof fn lemma_injective(self, other: Self) {
        assert(self.bytes()[0] == other.bytes()[0]);
        assert(self.bytes()[1] == other.bytes()[1]);
        assert(self.bytes()[2] == other.bytes()[2]);
        assert(self.bytes()[3] == other.bytes()[3]);
    }

    fn size() -> (n: usize) {
        4
    }

    fn load(buf: &[u8]) -> (r: Self) {
        let r = VlanTag {
            tci: U16Be { hi: buf[0], lo: buf[1] },
            inner_ethertype: U16Be { hi: buf[2], lo: buf[3] },
        };
        assert(r.bytes() =~= buf@);
        r
    }

    fn store(&self, buf: &mut [u8]) {
        buf[0] = self.tci.hi;
        buf[1] = self.tci.lo;
        buf[2] = self.inner_ethertype.hi;
        buf[3] = self.inner_ethertype.lo;
        assert(buf@ =~= self.bytes());
    }
}

impl Default for VlanTag {
    /// The all-zero header.
    fn default() -> (r: Self)
        ensures
            r.bytes() == Seq::new(4, |i: int| 0u8),
    {
        let r = VlanTag {
            tci: U16Be { hi: 0, lo: 0 },
            inner_ethertype: U16Be { hi: 0, lo: 0 },
        };
        assert(r.bytes() =~= Seq::new(4, |i: int| 0u8));
        r
    }
}

impl VlanTag {
    pub const LEN: usize = 4;

    /// Priority code point (3 bits).
    pub fn pcp(&self) -> (r: u8)
        ensures
            r == self.tci.value() / 0x2000,
    {
        let tci: u16 = self.tci.get();
        assert((tci >> TCI_PCP_SHIFT) as u8 & TCI_PCP_MASK == tci / 0x2000) by (bit_vector);
        (tci >> TCI_PCP_SHIFT) as u8 & TCI_PCP_MASK
    }

    /// Drop-eligible indicator (1 bit).
    pub fn dei(&self) -> (r: bool)
        ensures
            r == (self.tci.value() & TCI_DEI_BIT != 0),
    {
        self.tci.get() & TCI_DEI_BIT != 0
    }

    /// VLAN identifier (12 bits).
    pub fn vid(&self) -> (r: u16)
        ensures
            r == self.tci.value() % 0x1000,
    {
        let tci: u16 = self.tci.get();
        assert(tci & TCI_VID_MASK == tci % 0x1000) by (bit_vector);
        tci & TCI_VID_MASK
    }

    /// Set the low 12 bits to those of `vid`, keeping the priority and
    /// drop-eligible bits above them.
    pub fn set_vid(&mut self, vid: u16)
        ensures
            final(self).tci.value() == old(self).tci.value() / 0x1000 * 0x1000 + vid % 0x1000,
            final(self).inner_ethertype == old(self).inner_ethertype,
    {
        let tci: u16 = self.tci.get();
        assert((tci & !TCI_VID_MASK) | (vid & TCI_VID_MASK) == tci / 0x1000 * 0x1000 + vid % 0x1000)
            by (bit_vector);
        self.tci.set((tci & !TCI_VID_MASK) | (vid & TCI_VID_MASK));
    }

    pub fn inner_ethertype(&self) -> (r: u16)
        ensures
            r == self.inner_ethertype.value(),
    {
        self.inner_ethertype.get()
    }
}

} // verus!
