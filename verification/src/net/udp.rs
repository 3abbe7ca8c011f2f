//! UDP header.

use crate::net::wire::{Pod, U16Be};
use vstd::prelude::*;

verus! {

/// Fixed 8-byte UDP header.
#[derive(Clone, Copy, Debug)]
pub struct UdpHeader {
    pub src_port: U16Be,
    pub dst_port: U16Be,
    pub length: U16Be,
    pub checksum: U16Be,
}

impl Pod for UdpHeader {
    open spec fn wire_len() -> nat {
        8
    }

    open spec fn bytes(self) -> Seq<u8> {
        seq![
            self.src_port.hi,
            self.src_port.lo,
            self.dst_port.hi,
            self.dst_port.lo,
            self.length.hi,
            self.length.lo,
            self.checksum.hi,
            self.checksum.lo,
        ]
    }

    proof fn lemma_len(self) {
    }

    proof fn lemma_injective(self, other: Self) {
        assert(self.bytes()[0] == other.bytes()[0]);
        assert(self.bytes()[1] == other.bytes()[1]);
        assert(self.bytes()[2] == other.bytes()[2]);
        assert(self.bytes()[3] == other.bytes()[3]);
        assert(self.bytes()[4] == other.bytes()[4]);
        assert(self.bytes()[5] == other.bytes()[5]);
        assert(self.bytes()[6] == other.bytes()[6]);
        assert(self.bytes()[7] == other.bytes()[7]);
    }

    fn size() -> (n: usize) {
        8
    }

    fn load(buf: &[u8]) -> (r: Self) {
        let r = UdpHeader {
            src_port: U16Be { hi: buf[0], lo: buf[1] },
            dst_port: U16Be { hi: buf[2], lo: buf[3] },
            length: U16Be { hi: buf[4], lo: buf[5] },
            checksum: U16Be { hi: buf[6], lo: buf[7] },
        };
        assert(r.bytes() =~= buf@);
        r
    }

    fn store(&self, buf: &mut [u8]) {
        buf[0] = self.src_port.hi;
        buf[1] = self.src_port.lo;
        buf[2] = self.dst_port.hi;
        buf[3] = self.dst_port.lo;
        buf[4] = self.length.hi;
        buf[5] = self.length.lo;
        buf[6] = self.checksum.hi;
        buf[7] = self.checksum.lo;
        assert(buf@ =~= self.bytes());
    }
}

impl Default for UdpHeader {
    /// The all-zero header.
    fn default() -> (r: Self)
        ensures
            r.bytes() == Seq::new(8, |i: int| 0u8),
    {
        let r = UdpHeader {
            src_port: U16Be { hi: 0, lo: 0 },
            dst_port: U16Be { hi: 0, lo: 0 },
            length: U16Be { hi: 0, lo: 0 },
            checksum: U16Be { hi: 0, lo: 0 },
        };
        assert(r.bytes() =~= Seq::new(8, |i: int| 0u8));
        r
    }
}

impl UdpHeader {
    pub const LEN: usize = 8;

    pub fn src_port(&self) -> (r: u16)
        ensures
            r == self.src_port.value(),
    {
        self.src_port.get()
    }

    pub fn set_src_port(&mut self, v: u16)
        ensures
            *final(self) == (Self { src_port: U16Be::spec_new(v), ..*old(self) }),
            final(self).src_port.value() == v,
    {
        self.src_port.set(v);
    }

    pub fn dst_port(&self) -> (r: u16)
        ensures
            r == self.dst_port.value(),
    {
        self.dst_port.get()
    }

    pub fn set_dst_port(&mut self, v: u16)
        ensures
            *final(self) == (Self { dst_port: U16Be::spec_new(v), ..*old(self) }),
            final(self).dst_port.value() == v,
    {
        self.dst_port.set(v);
    }

    /// Length of the UDP header plus payload, in bytes.
    pub fn length(&self) -> (r: u16)
        ensures
            r == self.length.value(),
    {
        self.length.get()
    }

    pub fn set_length(&mut self, v: u16)
        ensures
            *final(self) == (Self { length: U16Be::spec_new(v), ..*old(self) }),
            final(self).length.value() == v,
    {
        self.length.set(v);
    }

    pub fn checksum(&self) -> (r: u16)
        ensures
            r == self.checksum.value(),
    {
        self.checksum.get()
    }

    pub fn set_checksum(&mut self, v: u16)
        ensures
            *final(self) == (Self { checksum: U16Be::spec_new(v), ..*old(self) }),
            final(self).checksum.value() == v,
    {
        self.checksum.set(v);
    }
}

} // verus!
