//! IPv4 addresses.

use crate::net::wire;
use crate::table::Key;
use crate::text;
use crate::text::push_decimal;
use vstd::prelude::*;

verus! {

/// An IPv4 address, held as its 32-bit value in host order: the first octet of
/// the dotted form is the most significant byte.
#[derive(Clone, Copy, PartialEq, Eq, Structural, PartialOrd, Ord, Hash, Debug)]
pub struct Ipv4Addr {
    pub bits: u32,
}

/// The 32-bit value of four octets, most significant first.
pub open spec fn octets_to_bits(a: u8, b: u8, c: u8, d: u8) -> u32 {
    (a * 0x100_0000 + b * 0x1_0000 + c * 0x100 + d) as u32
}

impl Ipv4Addr {
    /// The four octets of the address as a sequence, in transmission order.
    pub open spec fn spec_octets(self) -> Seq<u8> {
        seq![
            (self.bits / 0x100_0000) as u8,
            (self.bits / 0x1_0000 % 0x100) as u8,
            (self.bits / 0x100 % 0x100) as u8,
            (self.bits % 0x100) as u8,
        ]
    }

    /// The address `a.b.c.d`.
    pub fn new(a: u8, b: u8, c: u8, d: u8) -> (r: Self)
        ensures
            r.bits == octets_to_bits(a, b, c, d),
            r.spec_octets() == seq![a, b, c, d],
    {
        let bits: u32 = a as u32 * 0x100_0000 + b as u32 * 0x1_0000 + c as u32 * 0x100 + d as u32;
        let r = Ipv4Addr { bits };
        proof {
            wire::lemma_be32_digits(a, b, c, d);
        }
        assert(r.spec_octets() =~= seq![a, b, c, d]);
        r
    }

    /// The address whose octets are `octets`.
    pub fn from_octets(octets: [u8; 4]) -> (r: Self)
        ensures
            r.spec_octets() == octets@,
            r.bits == octets_to_bits(octets@[0], octets@[1], octets@[2], octets@[3]),
    {
        let r = Ipv4Addr::new(octets[0], octets[1], octets[2], octets[3]);
        assert(r.spec_octets() =~= octets@);
        r
    }

    /// The four octets, in transmission order.
    pub fn octets(&self) -> (r: [u8; 4])
        ensures
            r@ == self.spec_octets(),
    {
        let r = [
            (self.bits / 0x100_0000) as u8,
            (self.bits / 0x1_0000 % 0x100) as u8,
            (self.bits / 0x100 % 0x100) as u8,
            (self.bits % 0x100) as u8,
        ];
        assert(r@ =~= self.spec_octets());
        r
    }

    /// The address in dotted decimal notation.
    pub open spec fn dotted(self) -> Seq<char> {
        let o = self.spec_octets();
        text::decimal(o[0] as nat) + seq!['.'] + text::decimal(o[1] as nat) + seq!['.']
            + text::decimal(o[2] as nat) + seq!['.'] + text::decimal(o[3] as nat)
    }

    /// The address in dotted decimal notation.
    pub fn to_string(&self) -> (r: String)
        ensures
            r@ == self.dotted(),
    {
        let o = self.octets();
        let mut s = String::new();
        push_decimal(&mut s, o[0] as u64);
        s.push('.');
        push_decimal(&mut s, o[1] as u64);
        s.push('.');
        push_decimal(&mut s, o[2] as u64);
        s.push('.');
        push_decimal(&mut s, o[3] as u64);
        assert(s@ =~= self.dotted());
        s
    }

    /// The all-zero address `0.0.0.0`.
    pub fn unspecified() -> (r: Self)
        ensures
            r.bits == 0,
    {
        Ipv4Addr { bits: 0 }
    }

    /// The limited broadcast address `255.255.255.255`.
    pub fn broadcast() -> (r: Self)
        ensures
            r.bits == 0xffff_ffff,
    {
        Ipv4Addr { bits: 0xffff_ffff }
    }

    /// True for `0.0.0.0`.
    pub fn is_unspecified(&self) -> (r: bool)
        ensures
            r == (self.bits == 0),
    {
        self.bits == 0
    }
}

/// Address and octets determine each other: the octets of an address give its
/// value back, and any four octets are those of the address made of them.
pub proof fn law_octets_round_trip(x: Ipv4Addr, a: u8, b: u8, c: u8, d: u8)
    ensures
        ({
            let o = x.spec_octets();
            x.bits == octets_to_bits(o[0], o[1], o[2], o[3])
        }),
        (Ipv4Addr { bits: octets_to_bits(a, b, c, d) }).spec_octets() == seq![a, b, c, d],
{
    wire::lemma_be32_value(x.bits);
    assert((Ipv4Addr { bits: octets_to_bits(a, b, c, d) }).spec_octets() =~= seq![a, b, c, d]);
}

impl Key for Ipv4Addr {
    open spec fn code(self) -> u128 {
        self.bits as u128
    }

    proof fn lemma_code_injective(self, other: Self) {
    }

    fn encode(&self) -> (r: u128) {
        self.bits as u128
    }
}

} // verus!
