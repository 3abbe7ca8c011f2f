//! TCP header.

use crate::net::wire::{Pod, U16Be, U32Be, WORD_BYTES};
use vstd::prelude::*;

pub mod flag;

verus! {

/// Bit shift for the 4-bit data offset in the high nibble of byte 12.
pub const DATA_OFFSET_SHIFT: u8 = 4;

/// Mask for the low nibble of byte 12 (reserved bits + the NS flag), preserved
/// when rewriting the data offset.
pub const DATA_OFFSET_LOW_NIBBLE_MASK: u8 = 0x0f;

/// Fixed 20-byte TCP header. Options (when `data_offset > 5`) follow it.
#[derive(Clone, Copy, Debug)]
pub struct TcpHeader {
    pub src_port: U16Be,
    pub dst_port: U16Be,
    pub seq: U32Be,
    pub ack: U32Be,
    /// High nibble: data offset (header length in 32-bit words).
    /// Low nibble: reserved bits + the NS flag (bit 0).
    pub data_offset_reserved: u8,
    pub flags: u8,
    pub window: U16Be,
    pub checksum: U16Be,
    pub urgent_ptr: U16Be,
}

impl Pod for TcpHeader {
    open spec fn wire_len() -> nat {
        20
    }

    open spec fn bytes(self) -> Seq<u8> {
        seq![
            self.src_port.hi,
            self.src_port.lo,
            self.dst_port.hi,
            self.dst_port.lo,
            self.seq.b0,
            self.seq.b1,
            self.seq.b2,
            self.seq.b3,
            self.ack.b0,
            self.ack.b1,
            self.ack.b2,
            self.ack.b3,
            self.data_offset_reserved,
            self.flags,
            self.window.hi,
            self.window.lo,
            self.checksum.hi,
            self.checksum.lo,
            self.urgent_ptr.hi,
            self.urgent_ptr.lo,
        ]
    }

    proof fn lemma_len(self) {
    }

    proof fn lemma_injective(self, other: Self) {
        assert(self.bytes()[0] == other.bytes()[0]);
        assert(self.bytes()[1] == other.bytes()[1]);
        assert(self.bytes()[2] == other.bytes()[2]);
        assert(self.bytes()[3] == other.bytes()[3]);
        assert(self.bytes()[4] == other.bytes()[4]);
        assert(self.bytes()[5] == other.bytes()[5]);
        assert(self.bytes()[6] == other.bytes()[6]);
        assert(self.bytes()[7] == other.bytes()[7]);
        assert(self.bytes()[8] == other.bytes()[8]);
        assert(self.bytes()[9] == other.bytes()[9]);
        assert(self.bytes()[10] == other.bytes()[10]);
        assert(self.bytes()[11] == other.bytes()[11]);
        assert(self.bytes()[12] == other.bytes()[12]);
        assert(self.bytes()[13] == other.bytes()[13]);
        assert(self.bytes()[14] == other.bytes()[14]);
        assert(self.bytes()[15] == other.bytes()[15]);
        assert(self.bytes()[16] == other.bytes()[16]);
        assert(self.bytes()[17] == other.bytes()[17]);
        assert(self.bytes()[18] == other.bytes()[18]);
        assert(self.bytes()[19] == other.bytes()[19]);
    }

    fn size() -> (n: usize) {
        20
    }

    fn load(buf: &[u8]) -> (r: Self) {
        let r = TcpHeader {
            src_port: U16Be { hi: buf[0], lo: buf[1] },
            dst_port: U16Be { hi: buf[2], lo: buf[3] },
            seq: U32Be { b0: buf[4], b1: buf[5], b2: buf[6], b3: buf[7] },
            ack: U32Be { b0: buf[8], b1: buf[9], b2: buf[10], b3: buf[11] },
            data_offset_reserved: buf[12],
            flags: buf[13],
            window: U16Be { hi: buf[14], lo: buf[15] },
            checksum: U16Be { hi: buf[16], lo: buf[17] },
            urgent_ptr: U16Be { hi: buf[18], lo: buf[19] },
        };
        assert(r.bytes() =~= buf@);
        r
    }

    fn store(&self, buf: &mut [u8]) {
        buf[0] = self.src_port.hi;
        buf[1] = self.src_port.lo;
        buf[2] = self.dst_port.hi;
        buf[3] = self.dst_port.lo;
        buf[4] = self.seq.b0;
        buf[5] = self.seq.b1;
        buf[6] = self.seq.b2;
        buf[7] = self.seq.b3;
        buf[8] = self.ack.b0;
        buf[9] = self.ack.b1;
        buf[10] = self.ack.b2;
        buf[11] = self.ack.b3;
        buf[12] = self.data_offset_reserved;
        buf[13] = self.flags;
        buf[14] = self.window.hi;
        buf[15] = self.window.lo;
        buf[16] = self.checksum.hi;
        buf[17] = self.checksum.lo;
        buf[18] = self.urgent_ptr.hi;
        buf[19] = self.urgent_ptr.lo;
        assert(buf@ =~= self.bytes());
    }
}

impl Default for TcpHeader {
    /// The all-zero header.
    fn default() -> (r: Self)
        ensures
            r.bytes() == Seq::new(20, |i: int| 0u8),
    {
        let r = TcpHeader {
            src_port: U16Be { hi: 0, lo: 0 },
            dst_port: U16Be { hi: 0, lo: 0 },
            seq: U32Be { b0: 0, b1: 0, b2: 0, b3: 0 },
            ack: U32Be { b0: 0, b1: 0, b2: 0, b3: 0 },
            data_offset_reserved: 0,
            flags: 0,
            window: U16Be { hi: 0, lo: 0 },
            checksum: U16Be { hi: 0, lo: 0 },
            urgent_ptr: U16Be { hi: 0, lo: 0 },
        };
        assert(r.bytes() =~= Seq::new(20, |i: int| 0u8));
        r
    }
}

impl TcpHeader {
    pub const MIN_LEN: usize = 20;

    pub fn src_port(&self) -> (r: u16)
        ensures
            r == self.src_port.value(),
    {
        self.src_port.get()
    }

    pub fn set_src_port(&mut self, v: u16)
        ensures
            *final(self) == (Self { src_port: U16Be::spec_new(v), ..*old(self) }),
            final(self).src_port.value() == v,
    {
        self.src_port.set(v);
    }

    pub fn dst_port(&self) -> (r: u16)
        ensures
            r == self.dst_port.value(),
    {
        self.dst_port.get()
    }

    pub fn set_dst_port(&mut self, v: u16)
        ensures
            *final(self) == (Self { dst_port: U16Be::spec_new(v), ..*old(self) }),
            final(self).dst_port.value() == v,
    {
        self.dst_port.set(v);
    }

    pub fn seq(&self) -> (r: u32)
        ensures
            r == self.seq.value(),
    {
        self.seq.get()
    }

    pub fn set_seq(&mut self, v: u32)
        ensures
            *final(self) == (Self { seq: U32Be::spec_new(v), ..*old(self) }),
            final(self).seq.value() == v,
    {
        self.seq.set(v);
    }

    pub fn ack(&self) -> (r: u32)
        ensures
            r == self.ack.value(),
    {
        self.ack.get()
    }

    pub fn set_ack(&mut self, v: u32)
        ensures
            *final(self) == (Self { ack: U32Be::spec_new(v), ..*old(self) }),
            final(self).ack.value() == v,
    {
        self.ack.set(v);
    }

    /// Data offset in 32-bit words.
    pub fn data_offset(&self) -> (r: u8)
        ensures
            r == self.data_offset_reserved / 16,
    {
        let v: u8 = self.data_offset_reserved;
        assert(v >> DATA_OFFSET_SHIFT == v / 16) by (bit_vector);
        v >> DATA_OFFSET_SHIFT
    }

    /// Header length in bytes (`data_offset * WORD_BYTES`); where the payload
    /// begins.
    pub fn header_len(&self) -> (r: usize)
        ensures
            r == self.data_offset_reserved / 16 * 4,
    {
        self.data_offset() as usize * WORD_BYTES
    }

    /// Set the data offset to the low four bits of `words`, keeping the
    /// reserved/NS bits in the low nibble intact.
    pub fn set_data_offset(&mut self, words: u8)
        ensures
            *final(self) == (Self {
                data_offset_reserved: (words % 16 * 16 + old(self).data_offset_reserved
                    % 16) as u8,
                ..*old(self)
            }),
    {
        let v: u8 = self.data_offset_reserved;
        assert((words << DATA_OFFSET_SHIFT) | (v & DATA_OFFSET_LOW_NIBBLE_MASK) == words % 16 * 16
            + v % 16) by (bit_vector);
        self.data_offset_reserved = (words << DATA_OFFSET_SHIFT) | (v
            & DATA_OFFSET_LOW_NIBBLE_MASK);
    }

    pub fn has_flag(&self, flag: u8) -> (r: bool)
        ensures
            r == (self.flags & flag != 0),
    {
        self.flags & flag != 0
    }

    pub fn set_flag(&mut self, flag: u8, on: bool)
        ensures
            *final(self) == (Self {
                flags: if on {
                    old(self).flags | flag
                } else {
                    old(self).flags & !flag
                },
                ..*old(self)
            }),
    {
        if on {
            self.flags = self.flags | flag;
        } else {
            self.flags = self.flags & !flag;
        }
    }

    pub fn window(&self) -> (r: u16)
        ensures
            r == self.window.value(),
    {
        self.window.get()
    }

    pub fn set_window(&mut self, v: u16)
        ensures
            *final(self) == (Self { window: U16Be::spec_new(v), ..*old(self) }),
            final(self).window.value() == v,
    {
        self.window.set(v);
    }

    pub fn checksum(&self) -> (r: u16)
        ensures
            r == self.checksum.value(),
    {
        self.checksum.get()
    }

    pub fn set_checksum(&mut self, v: u16)
        ensures
            *final(self) == (Self { checksum: U16Be::spec_new(v), ..*old(self) }),
            final(self).checksum.value() == v,
    {
        self.checksum.set(v);
    }

    pub fn urgent_ptr(&self) -> (r: u16)
        ensures
            r == self.urgent_ptr.value(),
    {
        self.urgent_ptr.get()
    }
}

/// Raising a set of flags makes `has_flag` true of it (unless it is empty), and
/// lowering it makes `has_flag` false.
pub proof fn law_set_flag(flags: u8, flag: u8)
    ensures
        flag != 0 ==> (flags | flag) & flag != 0,
        (flags & !flag) & flag == 0,
{
    assert(flag != 0 ==> (flags | flag) & flag != 0) by (bit_vector);
    assert((flags & !flag) & flag == 0) by (bit_vector);
}

} // verus!
