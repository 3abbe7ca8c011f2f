//! DNS message header.
//!
//! Only the fixed 12-byte header is a struct; questions and resource records
//! are variable-length and use name compression, so they are parsed from the
//! bytes that follow.

use crate::net::wire::{Pod, U16Be};
use vstd::prelude::*;

pub mod opcode;
pub mod qr;
pub mod rcode;
pub mod record_type;

verus! {

// Layout of the 16-bit flags field:
//   QR(1) | Opcode(4) | AA(1) | TC(1) | RD(1) | RA(1) | Z(3) | RCODE(4)
/// QR bit set => message is a response.
pub const FLAG_QR_RESPONSE: u16 = 0x8000;

/// Bit shift to the 4-bit opcode field.
pub const OPCODE_SHIFT: u32 = 11;

/// Mask for the opcode once shifted to the low bits.
pub const OPCODE_MASK: u16 = 0x0f;

/// Authoritative Answer bit.
pub const FLAG_AUTHORITATIVE: u16 = 0x0400;

/// TrunCation bit.
pub const FLAG_TRUNCATED: u16 = 0x0200;

/// Recursion Desired bit.
pub const FLAG_RECURSION_DESIRED: u16 = 0x0100;

/// Recursion Available bit.
pub const FLAG_RECURSION_AVAILABLE: u16 = 0x0080;

/// Mask for the 4-bit response code in the low bits.
pub const RCODE_MASK: u16 = 0x000f;

/// Fixed 12-byte DNS header.
#[derive(Clone, Copy, Debug)]
pub struct DnsHeader {
    pub id: U16Be,
    /// Packed flags: QR(1) OPCODE(4) AA(1) TC(1) RD(1) RA(1) Z(3) RCODE(4).
    pub flags: U16Be,
    pub qdcount: U16Be,
    pub ancount: U16Be,
    pub nscount: U16Be,
    pub arcount: U16Be,
}

impl Pod for DnsHeader {
    open spec fn wire_len() -> nat {
        12
    }

    open spec fn bytes(self) -> Seq<u8> {
        seq![
            self.id.hi,
            self.id.lo,
            self.flags.hi,
            self.flags.lo,
            self.qdcount.hi,
            self.qdcount.lo,
            self.ancount.hi,
            self.ancount.lo,
            self.nscount.hi,
            self.nscount.lo,
            self.arcount.hi,
            self.arcount.lo,
        ]
    }

    proof fn lemma_len(self) {
    }

    proof fn lemma_injective(self, other: Self) {
        assert(self.bytes()[0] == other.bytes()[0]);
        assert(self.bytes()[1] == other.bytes()[1]);
        assert(self.bytes()[2] == other.bytes()[2]);
        assert(self.bytes()[3] == other.bytes()[3]);
        assert(self.bytes()[4] == other.bytes()[4]);
        assert(self.bytes()[5] == other.bytes()[5]);
        assert(self.bytes()[6] == other.bytes()[6]);
        assert(self.bytes()[7] == other.bytes()[7]);
        assert(self.bytes()[8] == other.bytes()[8]);
        assert(self.bytes()[9] == other.bytes()[9]);
        assert(self.bytes()[10] == other.bytes()[10]);
        assert(self.bytes()[11] == other.bytes()[11]);
    }

    fn size() -> (n: usize) {
        12
    }

    fn load(buf: &[u8]) -> (r: Self) {
        let r = DnsHeader {
            id: U16Be { hi: buf[0], lo: buf[1] },
            flags: U16Be { hi: buf[2], lo: buf[3] },
            qdcount: U16Be { hi: buf[4], lo: buf[5] },
            ancount: U16Be { hi: buf[6], lo: buf[7] },
            nscount: U16Be { hi: buf[8], lo: buf[9] },
            arcount: U16Be { hi: buf[10], lo: buf[11] },
        };
        assert(r.bytes() =~= buf@);
        r
    }

    fn store(&self, buf: &mut [u8]) {
        buf[0] = self.id.hi;
        buf[1] = self.id.lo;
        buf[2] = self.flags.hi;
        buf[3] = self.flags.lo;
        buf[4] = self.qdcount.hi;
        buf[5] = self.qdcount.lo;
        buf[6] = self.ancount.hi;
        buf[7] = self.ancount.lo;
        buf[8] = self.nscount.hi;
        buf[9] = self.nscount.lo;
        buf[10] = self.arcount.hi;
        buf[11] = self.arcount.lo;
        assert(buf@ =~= self.bytes());
    }
}

impl Default for DnsHeader {
    /// The all-zero header.
    fn default() -> (r: Self)
        ensures
            r.bytes() == Seq::new(12, |i: int| 0u8),
    {
        let r = DnsHeader {
            id: U16Be { hi: 0, lo: 0 },
            flags: U16Be { hi: 0, lo: 0 },
            qdcount: U16Be { hi: 0, lo: 0 },
            ancount: U16Be { hi: 0, lo: 0 },
            nscount: U16Be { hi: 0, lo: 0 },
            arcount: U16Be { hi: 0, lo: 0 },
        };
        assert(r.bytes() =~= Seq::new(12, |i: int| 0u8));
        r
    }
}

impl DnsHeader {
    pub const LEN: usize = 12;

    pub fn id(&self) -> (r: u16)
        ensures
            r == self.id.value(),
    {
        self.id.get()
    }

    pub fn set_id(&mut self, v: u16)
        ensures
            *final(self) == (Self { id: U16Be::spec_new(v), ..*old(self) }),
            final(self).id.value() == v,
    {
        self.id.set(v);
    }

    /// `false` for a query, `true` for a response.
    pub fn is_response(&self) -> (r: bool)
        ensures
            r == (self.flags.value() & FLAG_QR_RESPONSE != 0),
    {
        self.flags.get() & FLAG_QR_RESPONSE != 0
    }

    pub fn opcode(&self) -> (r: u8)
        ensures
            r == self.flags.value() / 0x800 % 16,
    {
        let f: u16 = self.flags.get();
        assert((f >> OPCODE_SHIFT) & OPCODE_MASK == f / 0x800 % 16) by (bit_vector);
        ((f >> OPCODE_SHIFT) & OPCODE_MASK) as u8
    }

    /// Authoritative answer.
    pub fn authoritative(&self) -> (r: bool)
        ensures
            r == (self.flags.value() & FLAG_AUTHORITATIVE != 0),
    {
        self.flags.get() & FLAG_AUTHORITATIVE != 0
    }

    /// Truncation.
    pub fn truncated(&self) -> (r: bool)
        ensures
            r == (self.flags.value() & FLAG_TRUNCATED != 0),
    {
        self.flags.get() & FLAG_TRUNCATED != 0
    }

    /// Recursion desired.
    pub fn recursion_desired(&self) -> (r: bool)
        ensures
            r == (self.flags.value() & FLAG_RECURSION_DESIRED != 0),
    {
        self.flags.get() & FLAG_RECURSION_DESIRED != 0
    }

    /// Recursion available.
    pub fn recursion_available(&self) -> (r: bool)
        ensures
            r == (self.flags.value() & FLAG_RECURSION_AVAILABLE != 0),
    {
        self.flags.get() & FLAG_RECURSION_AVAILABLE != 0
    }

    pub fn rcode(&self) -> (r: u8)
        ensures
            r == self.flags.value() % 16,
    {
        let f: u16 = self.flags.get();
        assert(f & RCODE_MASK == f % 16) by (bit_vector);
        (f & RCODE_MASK) as u8
    }

    pub fn set_flags(&mut self, v: u16)
        ensures
            *final(self) == (Self { flags: U16Be::spec_new(v), ..*old(self) }),
            final(self).flags.value() == v,
    {
        self.flags.set(v);
    }

    pub fn flags(&self) -> (r: u16)
        ensures
            r == self.flags.value(),
    {
        self.flags.get()
    }

    /// Number of entries in the question section.
    pub fn question_count(&self) -> (r: u16)
        ensures
            r == self.qdcount.value(),
    {
        self.qdcount.get()
    }

    /// Number of resource records in the answer section.
    pub fn answer_count(&self) -> (r: u16)
        ensures
            r == self.ancount.value(),
    {
        self.ancount.get()
    }

    /// Number of name-server resource records in the authority section.
    pub fn authority_count(&self) -> (r: u16)
        ensures
            r == self.nscount.value(),
    {
        self.nscount.get()
    }

    /// Number of resource records in the additional section.
    pub fn additional_count(&self) -> (r: u16)
        ensures
            r == self.arcount.value(),
    {
        self.arcount.get()
    }

    pub fn set_question_count(&mut self, v: u16)
        ensures
            *final(self) == (Self { qdcount: U16Be::spec_new(v), ..*old(self) }),
            final(self).qdcount.value() == v,
    {
        self.qdcount.set(v);
    }

    pub fn set_answer_count(&mut self, v: u16)
        ensures
            *final(self) == (Self { ancount: U16Be::spec_new(v), ..*old(self) }),
            final(self).ancount.value() == v,
    {
        self.ancount.set(v);
    }
}

} // verus!
