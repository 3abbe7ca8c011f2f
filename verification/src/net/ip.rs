//! IPv4 header.

use crate::net::addr::Ipv4Addr;
use crate::net::wire::{Pod, U16Be, U32Be, WORD_BYTES};
use vstd::prelude::*;

pub mod proto;

verus! {

/// Bit shift to extract the 4-bit version from the combined version/IHL byte.
pub const VERSION_SHIFT: u8 = 4;

/// Mask for the IHL nibble in the combined version/IHL byte.
pub const IHL_MASK: u8 = 0x0f;

/// Don't Fragment flag within the 16-bit flags/fragment-offset field.
pub const FLAG_DONT_FRAGMENT: u16 = 0x4000;

/// More Fragments flag within the 16-bit flags/fragment-offset field.
pub const FLAG_MORE_FRAGMENTS: u16 = 0x2000;

/// Mask for the 13-bit fragment offset within the flags/fragment field.
pub const FRAGMENT_OFFSET_MASK: u16 = 0x1fff;

/// Fixed 20-byte IPv4 header. Options (when `ihl > 5`) follow it.
#[derive(Clone, Copy, Debug)]
pub struct Ipv4Header {
    /// High nibble: version. Low nibble: IHL (header length in 32-bit words).
    pub version_ihl: u8,
    /// High 6 bits DSCP, low 2 bits ECN.
    pub dscp_ecn: u8,
    pub total_len: U16Be,
    pub identification: U16Be,
    pub flags_fragment: U16Be,
    pub ttl: u8,
    pub protocol: u8,
    pub checksum: U16Be,
    pub src: U32Be,
    pub dst: U32Be,
}

impl Pod for Ipv4Header {
    open spec fn wire_len() -> nat {
        20
    }

    open spec fn bytes(self) -> Seq<u8> {
        seq![
            self.version_ihl,
            self.dscp_ecn,
            self.total_len.hi,
            self.total_len.lo,
            self.identification.hi,
            self.identification.lo,
            self.flags_fragment.hi,
            self.flags_fragment.lo,
            self.ttl,
            self.protocol,
            self.checksum.hi,
            self.checksum.lo,
            self.src.b0,
            self.src.b1,
            self.src.b2,
            self.src.b3,
            self.dst.b0,
            self.dst.b1,
            self.dst.b2,
            self.dst.b3,
        ]
    }

    proof fn lemma_len(self) {
    }

    proof fn lemma_injective(self, other: Self) {
        assert(self.bytes()[0] == other.bytes()[0]);
        assert(self.bytes()[1] == other.bytes()[1]);
        assert(self.bytes()[2] == other.bytes()[2]);
        assert(self.bytes()[3] == other.bytes()[3]);
        assert(self.bytes()[4] == other.bytes()[4]);
        assert(self.bytes()[5] == other.bytes()[5]);
        assert(self.bytes()[6] == other.bytes()[6]);
        assert(self.bytes()[7] == other.bytes()[7]);
        assert(self.bytes()[8] == other.bytes()[8]);
        assert(self.bytes()[9] == other.bytes()[9]);
        assert(self.bytes()[10] == other.bytes()[10]);
        assert(self.bytes()[11] == other.bytes()[11]);
        assert(self.bytes()[12] == other.bytes()[12]);
        assert(self.bytes()[13] == other.bytes()[13]);
        assert(self.bytes()[14] == other.bytes()[14]);
        assert(self.bytes()[15] == other.bytes()[15]);
        assert(self.bytes()[16] == other.bytes()[16]);
        assert(self.bytes()[17] == other.bytes()[17]);
        assert(self.bytes()[18] == other.bytes()[18]);
        assert(self.bytes()[19] == other.bytes()[19]);
    }

    fn size() -> (n: usize) {
        20
    }

    fn load(buf: &[u8]) -> (r: Self) {
        let r = Ipv4Header {
            version_ihl: buf[0],
            dscp_ecn: buf[1],
            total_len: U16Be { hi: buf[2], lo: buf[3] },
            identification: U16Be { hi: buf[4], lo: buf[5] },
            flags_fragment: U16Be { hi: buf[6], lo: buf[7] },
            ttl: buf[8],
            protocol: buf[9],
            checksum: U16Be { hi: buf[10], lo: buf[11] },
            src: U32Be { b0: buf[12], b1: buf[13], b2: buf[14], b3: buf[15] },
            dst: U32Be { b0: buf[16], b1: buf[17], b2: buf[18], b3: buf[19] },
        };
        assert(r.bytes() =~= buf@);
        r
    }

    fn store(&self, buf: &mut [u8]) {
        buf[0] = self.version_ihl;
        buf[1] = self.dscp_ecn;
        buf[2] = self.total_len.hi;
        buf[3] = self.total_len.lo;
        buf[4] = self.identification.hi;
        buf[5] = self.identification.lo;
        buf[6] = self.flags_fragment.hi;
        buf[7] = self.flags_fragment.lo;
        buf[8] = self.ttl;
        buf[9] = self.protocol;
        buf[10] = self.checksum.hi;
        buf[11] = self.checksum.lo;
        buf[12] = self.src.b0;
        buf[13] = self.src.b1;
        buf[14] = self.src.b2;
        buf[15] = self.src.b3;
        buf[16] = self.dst.b0;
        buf[17] = self.dst.b1;
        buf[18] = self.dst.b2;
        buf[19] = self.dst.b3;
        assert(buf@ =~= self.bytes());
    }
}

impl Default for Ipv4Header {
    /// The all-zero header.
    fn default() -> (r: Self)
        ensures
            r.bytes() == Seq::new(20, |i: int| 0u8),
    {
        let r = Ipv4Header {
            version_ihl: 0,
            dscp_ecn: 0,
            total_len: U16Be { hi: 0, lo: 0 },
            identification: U16Be { hi: 0, lo: 0 },
            flags_fragment: U16Be { hi: 0, lo: 0 },
            ttl: 0,
            protocol: 0,
            checksum: U16Be { hi: 0, lo: 0 },
            src: U32Be { b0: 0, b1: 0, b2: 0, b3: 0 },
            dst: U32Be { b0: 0, b1: 0, b2: 0, b3: 0 },
        };
        assert(r.bytes() =~= Seq::new(20, |i: int| 0u8));
        r
    }
}

impl Ipv4Header {
    /// Length of the fixed header, without options.
    pub const MIN_LEN: usize = 20;

    pub fn version(&self) -> (r: u8)
        ensures
            r == self.version_ihl / 16,
    {
        let v: u8 = self.version_ihl;
        assert(v >> VERSION_SHIFT == v / 16) by (bit_vector);
        v >> VERSION_SHIFT
    }

    /// Internet Header Length, in 32-bit words.
    pub fn ihl(&self) -> (r: u8)
        ensures
            r == self.version_ihl % 16,
    {
        let v: u8 = self.version_ihl;
        assert(v & IHL_MASK == v % 16) by (bit_vector);
        v & IHL_MASK
    }

    /// Total header length in bytes (`ihl * WORD_BYTES`); where the L4 payload
    /// begins.
    pub fn header_len(&self) -> (r: usize)
        ensures
            r == self.version_ihl % 16 * 4,
    {
        self.ihl() as usize * WORD_BYTES
    }

    /// Set the version to the low four bits of `version` and the IHL to those
    /// of `ihl`.
    pub fn set_version_ihl(&mut self, version: u8, ihl: u8)
        ensures
            *final(self) == (Self {
                version_ihl: (version % 16 * 16 + ihl % 16) as u8,
                ..*old(self)
            }),
    {
        assert((version << VERSION_SHIFT) | (ihl & IHL_MASK) == version % 16 * 16 + ihl % 16)
            by (bit_vector);
        self.version_ihl = (version << VERSION_SHIFT) | (ihl & IHL_MASK);
    }

    pub fn total_len(&self) -> (r: u16)
        ensures
            r == self.total_len.value(),
    {
        self.total_len.get()
    }

    pub fn set_total_len(&mut self, v: u16)
        ensures
            *final(self) == (Self { total_len: U16Be::spec_new(v), ..*old(self) }),
            final(self).total_len.value() == v,
    {
        self.total_len.set(v);
    }

    pub fn dont_fragment(&self) -> (r: bool)
        ensures
            r == (self.flags_fragment.value() & FLAG_DONT_FRAGMENT != 0),
    {
        self.flags_fragment.get() & FLAG_DONT_FRAGMENT != 0
    }

    pub fn more_fragments(&self) -> (r: bool)
        ensures
            r == (self.flags_fragment.value() & FLAG_MORE_FRAGMENTS != 0),
    {
        self.flags_fragment.get() & FLAG_MORE_FRAGMENTS != 0
    }

    /// Fragment offset in 8-byte units.
    pub fn fragment_offset(&self) -> (r: u16)
        ensures
            r == self.flags_fragment.value() & FRAGMENT_OFFSET_MASK,
    {
        self.flags_fragment.get() & FRAGMENT_OFFSET_MASK
    }

    pub fn checksum(&self) -> (r: u16)
        ensures
            r == self.checksum.value(),
    {
        self.checksum.get()
    }

    pub fn set_checksum(&mut self, v: u16)
        ensures
            *final(self) == (Self { checksum: U16Be::spec_new(v), ..*old(self) }),
            final(self).checksum.value() == v,
    {
        self.checksum.set(v);
    }

    pub fn src(&self) -> (r: Ipv4Addr)
        ensures
            r.bits == self.src.value(),
    {
        Ipv4Addr { bits: self.src.get() }
    }

    pub fn dst(&self) -> (r: Ipv4Addr)
        ensures
            r.bits == self.dst.value(),
    {
        Ipv4Addr { bits: self.dst.get() }
    }

    pub fn set_src(&mut self, addr: Ipv4Addr)
        ensures
            *final(self) == (Self { src: U32Be::spec_new(addr.bits), ..*old(self) }),
            final(self).src.value() == addr.bits,
    {
        self.src.set(addr.bits);
    }

    pub fn set_dst(&mut self, addr: Ipv4Addr)
        ensures
            *final(self) == (Self { dst: U32Be::spec_new(addr.bits), ..*old(self) }),
            final(self).dst.value() == addr.bits,
    {
        self.dst.set(addr.bits);
    }

    /// Pseudo-header words used by TCP/UDP checksum computation.
    pub fn src_words(&self) -> (r: U32Be)
        ensures
            r == self.src,
    {
        self.src
    }

    pub fn dst_words(&self) -> (r: U32Be)
        ensures
            r == self.dst,
    {
        self.dst
    }
}

} // verus!
