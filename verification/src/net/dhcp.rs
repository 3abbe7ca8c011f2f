//! DHCPv4 / BOOTP fixed header.
//!
//! The variable-length options trailer (after [`DhcpHeader::MAGIC_COOKIE`]) is
//! not part of the fixed struct; treat the bytes following the header as the
//! options region and walk them with [`OptionsIter`].

use crate::net::addr::Ipv4Addr;
use crate::net::wire;
use crate::net::wire::{Pod, U16Be, U32Be};
use vstd::prelude::*;

pub mod message_type;
pub mod op;
pub mod option;

verus! {

/// The broadcast-flag bit (the top bit of the 16-bit `flags` field). When set,
/// the server must broadcast its reply instead of unicasting it.
pub const BROADCAST_FLAG: u16 = 0x8000;

/// Hardware type for Ethernet in the `htype` field (the same value ARP uses).
pub const HTYPE_ETHERNET: u8 = 1;

/// Hardware address length for Ethernet: a MAC is 6 bytes.
pub const HLEN_ETHERNET: u8 = 6;

/// Fixed 240-byte DHCPv4 header (236-byte BOOTP frame + 4-byte magic cookie).
#[derive(Clone, Copy)]
pub struct DhcpHeader {
    pub op: u8,
    pub htype: u8,
    pub hlen: u8,
    pub hops: u8,
    pub xid: U32Be,
    pub secs: U16Be,
    pub flags: U16Be,
    pub ciaddr: U32Be,
    pub yiaddr: U32Be,
    pub siaddr: U32Be,
    pub giaddr: U32Be,
    /// Client hardware address (first `hlen` bytes are meaningful).
    pub chaddr: [u8; 16],
    /// Optional server host name, null-terminated.
    pub sname: [u8; 64],
    /// Optional boot file name, null-terminated.
    pub file: [u8; 128],
    pub magic_cookie: U32Be,
}

impl Pod for DhcpHeader {
    open spec fn wire_len() -> nat {
        240
    }

    open spec fn bytes(self) -> Seq<u8> {
        seq![
            self.op,
            self.htype,
            self.hlen,
            self.hops,
            self.xid.b0,
            self.xid.b1,
            self.xid.b2,
            self.xid.b3,
            self.secs.hi,
            self.secs.lo,
            self.flags.hi,
            self.flags.lo,
            self.ciaddr.b0,
            self.ciaddr.b1,
            self.ciaddr.b2,
            self.ciaddr.b3,
            self.yiaddr.b0,
            self.yiaddr.b1,
            self.yiaddr.b2,
            self.yiaddr.b3,
            self.siaddr.b0,
            self.siaddr.b1,
            self.siaddr.b2,
            self.siaddr.b3,
            self.giaddr.b0,
            self.giaddr.b1,
            self.giaddr.b2,
            self.giaddr.b3,
        ] + self.chaddr@ + self.sname@ + self.file@ + seq![
            self.magic_cookie.b0,
            self.magic_cookie.b1,
            self.magic_cookie.b2,
            self.magic_cookie.b3,
        ]
    }

    proof fn lemma_len(self) {
    }

    proof fn lemma_injective(self, other: Self) {
        assert(self.op == other.op) by {
            assert(self.bytes()[0] == self.op);
            assert(other.bytes()[0] == other.op);
        }
        assert(self.htype == other.htype) by {
            assert(self.bytes()[1] == self.htype);
            assert(other.bytes()[1] == other.htype);
        }
        assert(self.hlen == other.hlen) by {
            assert(self.bytes()[2] == self.hlen);
            assert(other.bytes()[2] == other.hlen);
        }
        assert(self.hops == other.hops) by {
            assert(self.bytes()[3] == self.hops);
            assert(other.bytes()[3] == other.hops);
        }
        assert(self.xid.b0 == other.xid.b0) by {
            assert(self.bytes()[4] == self.xid.b0);
            assert(other.bytes()[4] == other.xid.b0);
        }
        assert(self.xid.b1 == other.xid.b1) by {
            assert(self.bytes()[5] == self.xid.b1);
            assert(other.bytes()[5] == other.xid.b1);
        }
        assert(self.xid.b2 == other.xid.b2) by {
            assert(self.bytes()[6] == self.xid.b2);
            assert(other.bytes()[6] == other.xid.b2);
        }
        assert(self.xid.b3 == other.xid.b3) by {
            assert(self.bytes()[7] == self.xid.b3);
            assert(other.bytes()[7] == other.xid.b3);
        }
        assert(self.secs.hi == other.secs.hi) by {
            assert(self.bytes()[8] == self.secs.hi);
            assert(other.bytes()[8] == other.secs.hi);
        }
        assert(self.secs.lo == other.secs.lo) by {
            assert(self.bytes()[9] == self.secs.lo);
            assert(other.bytes()[9] == other.secs.lo);
        }
        assert(self.flags.hi == other.flags.hi) by {
            assert(self.bytes()[10] == self.flags.hi);
            assert(other.bytes()[10] == other.flags.hi);
        }
        assert(self.flags.lo == other.flags.lo) by {
            assert(self.bytes()[11] == self.flags.lo);
            assert(other.bytes()[11] == other.flags.lo);
        }
        assert(self.ciaddr.b0 == other.ciaddr.b0) by {
            assert(self.bytes()[12] == self.ciaddr.b0);
            assert(other.bytes()[12] == other.ciaddr.b0);
        }
        assert(self.ciaddr.b1 == other.ciaddr.b1) by {
            assert(self.bytes()[13] == self.ciaddr.b1);
            assert(other.bytes()[13] == other.ciaddr.b1);
        }
        assert(self.ciaddr.b2 == other.ciaddr.b2) by {
            assert(self.bytes()[14] == self.ciaddr.b2);
            assert(other.bytes()[14] == other.ciaddr.b2);
        }
        assert(self.ciaddr.b3 == other.ciaddr.b3) by {
            assert(self.bytes()[15] == self.ciaddr.b3);
            assert(other.bytes()[15] == other.ciaddr.b3);
        }
        assert(self.yiaddr.b0 == other.yiaddr.b0) by {
            assert(self.bytes()[16] == self.yiaddr.b0);
            assert(other.bytes()[16] == other.yiaddr.b0);
        }
        assert(self.yiaddr.b1 == other.yiaddr.b1) by {
            assert(self.bytes()[17] == self.yiaddr.b1);
            assert(other.bytes()[17] == other.yiaddr.b1);
        }
        assert(self.yiaddr.b2 == other.yiaddr.b2) by {
            assert(self.bytes()[18] == self.yiaddr.b2);
            assert(other.bytes()[18] == other.yiaddr.b2);
        }
        assert(self.yiaddr.b3 == other.yiaddr.b3) by {
            assert(self.bytes()[19] == self.yiaddr.b3);
            assert(other.bytes()[19] == other.yiaddr.b3);
        }
        assert(self.siaddr.b0 == other.siaddr.b0) by {
            assert(self.bytes()[20] == self.siaddr.b0);
            assert(other.bytes()[20] == other.siaddr.b0);
        }
        assert(self.siaddr.b1 == other.siaddr.b1) by {
            assert(self.bytes()[21] == self.siaddr.b1);
            assert(other.bytes()[21] == other.siaddr.b1);
        }
        assert(self.siaddr.b2 == other.siaddr.b2) by {
            assert(self.bytes()[22] == self.siaddr.b2);
            assert(other.bytes()[22] == other.siaddr.b2);
        }
        assert(self.siaddr.b3 == other.siaddr.b3) by {
            assert(self.bytes()[23] == self.siaddr.b3);
            assert(other.bytes()[23] == other.siaddr.b3);
        }
        assert(self.giaddr.b0 == other.giaddr.b0) by {
            assert(self.bytes()[24] == self.giaddr.b0);
            assert(other.bytes()[24] == other.giaddr.b0);
        }
        assert(self.giaddr.b1 == other.giaddr.b1) by {
            assert(self.bytes()[25] == self.giaddr.b1);
            assert(other.bytes()[25] == other.giaddr.b1);
        }
        assert(self.giaddr.b2 == other.giaddr.b2) by {
            assert(self.bytes()[26] == self.giaddr.b2);
            assert(other.bytes()[26] == other.giaddr.b2);
        }
        assert(self.giaddr.b3 == other.giaddr.b3) by {
            assert(self.bytes()[27] == self.giaddr.b3);
            assert(other.bytes()[27] == other.giaddr.b3);
        }
        assert(self.chaddr =~= other.chaddr) by {
            assert forall|i: int| 0 <= i < 16 implies self.chaddr[i] == other.chaddr[i] by {
                assert(self.bytes()[28 + i] == self.chaddr[i]);
                assert(other.bytes()[28 + i] == other.chaddr[i]);
            }
        }
        assert(self.sname =~= other.sname) by {
            assert forall|i: int| 0 <= i < 64 implies self.sname[i] == other.sname[i] by {
                assert(self.bytes()[44 + i] == self.sname[i]);
                assert(other.bytes()[44 + i] == other.sname[i]);
            }
        }
        assert(self.file =~= other.file) by {
            assert forall|i: int| 0 <= i < 128 implies self.file[i] == other.file[i] by {
                assert(self.bytes()[108 + i] == self.file[i]);
                assert(other.bytes()[108 + i] == other.file[i]);
            }
        }
        assert(self.magic_cookie.b0 == other.magic_cookie.b0) by {
            assert(self.bytes()[236] == self.magic_cookie.b0);
            assert(other.bytes()[236] == other.magic_cookie.b0);
        }
        assert(self.magic_cookie.b1 == other.magic_cookie.b1) by {
            assert(self.bytes()[237] == self.magic_cookie.b1);
            assert(other.bytes()[237] == other.magic_cookie.b1);
        }
        assert(self.magic_cookie.b2 == other.magic_cookie.b2) by {
            assert(self.bytes()[238] == self.magic_cookie.b2);
            assert(other.bytes()[238] == other.magic_cookie.b2);
        }
        assert(self.magic_cookie.b3 == other.magic_cookie.b3) by {
            assert(self.bytes()[239] == self.magic_cookie.b3);
            assert(other.bytes()[239] == other.magic_cookie.b3);
        }
    }

    fn size() -> (n: usize) {
        240
    }

    fn load(buf: &[u8]) -> (r: Self) {
        let r = DhcpHeader {
            op: buf[0],
            htype: buf[1],
            hlen: buf[2],
            hops: buf[3],
            xid: U32Be { b0: buf[4], b1: buf[5], b2: buf[6], b3: buf[7] },
            secs: U16Be { hi: buf[8], lo: buf[9] },
            flags: U16Be { hi: buf[10], lo: buf[11] },
            ciaddr: U32Be { b0: buf[12], b1: buf[13], b2: buf[14], b3: buf[15] },
            yiaddr: U32Be { b0: buf[16], b1: buf[17], b2: buf[18], b3: buf[19] },
            siaddr: U32Be { b0: buf[20], b1: buf[21], b2: buf[22], b3: buf[23] },
            giaddr: U32Be { b0: buf[24], b1: buf[25], b2: buf[26], b3: buf[27] },
            chaddr: wire::array_at::<16>(buf, 28),
            sname: wire::array_at::<64>(buf, 44),
            file: wire::array_at::<128>(buf, 108),
            magic_cookie: U32Be { b0: buf[236], b1: buf[237], b2: buf[238], b3: buf[239] },
        };
        assert(r.bytes() =~= buf@);
        r
    }

    fn store(&self, buf: &mut [u8]) {
        buf[0] = self.op;
        buf[1] = self.htype;
        buf[2] = self.hlen;
        buf[3] = self.hops;
        buf[4] = self.xid.b0;
        buf[5] = self.xid.b1;
        buf[6] = self.xid.b2;
        buf[7] = self.xid.b3;
        buf[8] = self.secs.hi;
        buf[9] = self.secs.lo;
        buf[10] = self.flags.hi;
        buf[11] = self.flags.lo;
        buf[12] = self.ciaddr.b0;
        buf[13] = self.ciaddr.b1;
        buf[14] = self.ciaddr.b2;
        buf[15] = self.ciaddr.b3;
        buf[16] = self.yiaddr.b0;
        buf[17] = self.yiaddr.b1;
        buf[18] = self.yiaddr.b2;
        buf[19] = self.yiaddr.b3;
        buf[20] = self.siaddr.b0;
        buf[21] = self.siaddr.b1;
        buf[22] = self.siaddr.b2;
        buf[23] = self.siaddr.b3;
        buf[24] = self.giaddr.b0;
        buf[25] = self.giaddr.b1;
        buf[26] = self.giaddr.b2;
        buf[27] = self.giaddr.b3;
        wire::store_at(buf, 28, &self.chaddr);
        wire::store_at(buf, 44, &self.sname);
        wire::store_at(buf, 108, &self.file);
        buf[236] = self.magic_cookie.b0;
        buf[237] = self.magic_cookie.b1;
        buf[238] = self.magic_cookie.b2;
        buf[239] = self.magic_cookie.b3;
        assert(buf@ =~= self.bytes());
    }
}

impl Default for DhcpHeader {
    /// The all-zero header.
    fn default() -> (r: Self)
        ensures
            r.bytes() == Seq::new(240, |i: int| 0u8),
    {
        let r = DhcpHeader {
            op: 0,
            htype: 0,
            hlen: 0,
            hops: 0,
            xid: U32Be { b0: 0, b1: 0, b2: 0, b3: 0 },
            secs: U16Be { hi: 0, lo: 0 },
            flags: U16Be { hi: 0, lo: 0 },
            ciaddr: U32Be { b0: 0, b1: 0, b2: 0, b3: 0 },
            yiaddr: U32Be { b0: 0, b1: 0, b2: 0, b3: 0 },
            siaddr: U32Be { b0: 0, b1: 0, b2: 0, b3: 0 },
            giaddr: U32Be { b0: 0, b1: 0, b2: 0, b3: 0 },
            chaddr: [0u8; 16],
            sname: [0u8; 64],
            file: [0u8; 128],
            magic_cookie: U32Be { b0: 0, b1: 0, b2: 0, b3: 0 },
        };
        assert(r.bytes() =~= Seq::new(240, |i: int| 0u8));
        r
    }
}

/// The bytes of a client hardware address field that holds `mac`: as much of it
/// as fits, and zeros after it.
pub open spec fn hardware_addr_field(mac: Seq<u8>) -> Seq<u8> {
    Seq::new(
        16,
        |i: int| {
            if i < mac.len() {
                mac[i]
            } else {
                0
            }
        },
    )
}

/// The part of a client hardware address field of which `hlen` says that it is
/// meaningful.
pub open spec fn hardware_addr(chaddr: Seq<u8>, hlen: u8) -> Seq<u8> {
    chaddr.subrange(
        0,
        if hlen < 16 {
            hlen as int
        } else {
            16
        },
    )
}

impl DhcpHeader {
    pub const LEN: usize = 240;

    /// The DHCP magic cookie that precedes the options region.
    pub const MAGIC_COOKIE: u32 = 0x6382_5363;

    pub fn xid(&self) -> (r: u32)
        ensures
            r == self.xid.value(),
    {
        self.xid.get()
    }

    pub fn set_xid(&mut self, v: u32)
        ensures
            *final(self) == (Self { xid: U32Be::spec_new(v), ..*old(self) }),
            final(self).xid.value() == v,
    {
        self.xid.set(v);
    }

    pub fn secs(&self) -> (r: u16)
        ensures
            r == self.secs.value(),
    {
        self.secs.get()
    }

    /// The broadcast-flag bit.
    pub fn broadcast(&self) -> (r: bool)
        ensures
            r == (self.flags.value() & BROADCAST_FLAG != 0),
    {
        self.flags.get() & BROADCAST_FLAG != 0
    }

    pub fn set_broadcast(&mut self, on: bool)
        ensures
            *final(self) == (Self {
                flags: U16Be::spec_new(
                    if on {
                        old(self).flags.value() | BROADCAST_FLAG
                    } else {
                        old(self).flags.value() & !BROADCAST_FLAG
                    },
                ),
                ..*old(self)
            }),
    {
        let f: u16 = if on {
            self.flags.get() | BROADCAST_FLAG
        } else {
            self.flags.get() & !BROADCAST_FLAG
        };
        self.flags.set(f);
    }

    pub fn client_ip(&self) -> (r: Ipv4Addr)
        ensures
            r.bits == self.ciaddr.value(),
    {
        Ipv4Addr { bits: self.ciaddr.get() }
    }

    /// "Your" address - the IP the server is assigning.
    pub fn your_ip(&self) -> (r: Ipv4Addr)
        ensures
            r.bits == self.yiaddr.value(),
    {
        Ipv4Addr { bits: self.yiaddr.get() }
    }

    pub fn server_ip(&self) -> (r: Ipv4Addr)
        ensures
            r.bits == self.siaddr.value(),
    {
        Ipv4Addr { bits: self.siaddr.get() }
    }

    pub fn gateway_ip(&self) -> (r: Ipv4Addr)
        ensures
            r.bits == self.giaddr.value(),
    {
        Ipv4Addr { bits: self.giaddr.get() }
    }

    pub fn set_secs(&mut self, v: u16)
        ensures
            *final(self) == (Self { secs: U16Be::spec_new(v), ..*old(self) }),
            final(self).secs.value() == v,
    {
        self.secs.set(v);
    }

    pub fn set_client_ip(&mut self, addr: Ipv4Addr)
        ensures
            *final(self) == (Self { ciaddr: U32Be::spec_new(addr.bits), ..*old(self) }),
            final(self).ciaddr.value() == addr.bits,
    {
        self.ciaddr.set(addr.bits);
    }

    /// Set `yiaddr`, the address being assigned to the client.
    pub fn set_your_ip(&mut self, addr: Ipv4Addr)
        ensures
            *final(self) == (Self { yiaddr: U32Be::spec_new(addr.bits), ..*old(self) }),
            final(self).yiaddr.value() == addr.bits,
    {
        self.yiaddr.set(addr.bits);
    }

    pub fn set_server_ip(&mut self, addr: Ipv4Addr)
        ensures
            *final(self) == (Self { siaddr: U32Be::spec_new(addr.bits), ..*old(self) }),
            final(self).siaddr.value() == addr.bits,
    {
        self.siaddr.set(addr.bits);
    }

    pub fn set_gateway_ip(&mut self, addr: Ipv4Addr)
        ensures
            *final(self) == (Self { giaddr: U32Be::spec_new(addr.bits), ..*old(self) }),
            final(self).giaddr.value() == addr.bits,
    {
        self.giaddr.set(addr.bits);
    }

    /// Set the client hardware address and `hlen` from a MAC, zero-padding the
    /// rest of `chaddr` and truncating if `mac` is longer than the field.
    pub fn set_client_hardware_addr(&mut self, mac: &[u8])
        ensures
            *final(self) == (Self {
                hlen: if mac@.len() < 16 {
                    mac@.len() as u8
                } else {
                    16
                },
                chaddr: final(self).chaddr,
                ..*old(self)
            }),
            final(self).chaddr@ == hardware_addr_field(mac@),
    {
        let len: usize = if mac.len() < 16 {
            mac.len()
        } else {
            16
        };
        let mut field = [0u8; 16];
        let mut i: usize = 0;
        while i < len
            invariant
                i <= len,
                len <= 16,
                len <= mac@.len(),
                forall|j: int| 0 <= j < i ==> field@[j] == mac@[j],
                forall|j: int| i <= j < 16 ==> field@[j] == 0,
            decreases len - i,
        {
            field[i] = mac[i];
            i = i + 1;
        }
        assert(field@ =~= hardware_addr_field(mac@));
        self.chaddr = field;
        self.hlen = len as u8;
    }

    /// Initialise the fixed fields for an Ethernet BOOTP frame: `op`, the
    /// Ethernet hardware type/length, and the magic cookie. Call the address
    /// and `chaddr` setters afterwards.
    pub fn init_ethernet(&mut self, op: u8)
        ensures
            *final(self) == (Self {
                op,
                htype: HTYPE_ETHERNET,
                hlen: HLEN_ETHERNET,
                magic_cookie: U32Be::spec_new(DhcpHeader::MAGIC_COOKIE),
                ..*old(self)
            }),
    {
        self.op = op;
        self.htype = HTYPE_ETHERNET;
        self.hlen = HLEN_ETHERNET;
        self.set_magic_cookie();
    }

    pub fn has_magic_cookie(&self) -> (r: bool)
        ensures
            r == (self.magic_cookie.value() == DhcpHeader::MAGIC_COOKIE),
    {
        self.magic_cookie.get() == DhcpHeader::MAGIC_COOKIE
    }

    pub fn set_magic_cookie(&mut self)
        ensures
            *final(self) == (Self {
                magic_cookie: U32Be::spec_new(DhcpHeader::MAGIC_COOKIE),
                ..*old(self)
            }),
            final(self).magic_cookie.value() == DhcpHeader::MAGIC_COOKIE,
    {
        self.magic_cookie.set(DhcpHeader::MAGIC_COOKIE);
    }
}

/// The `(code, value)` options that a region holds: `PAD` is skipped, and the
/// list ends at `END`, at the end of the region, or at an option that does not
/// fit in it.
pub open spec fn options_of(s: Seq<u8>) -> Seq<(u8, Seq<u8>)>
    decreases s.len(),
{
    if s.len() == 0 || s[0] == option::END {
        seq![]
    } else if s[0] == option::PAD {
        options_of(s.subrange(1, s.len() as int))
    } else if s.len() < 2 || s.len() < 2 + s[1] {
        seq![]
    } else {
        seq![(s[0], s.subrange(2, 2 + s[1]))] + options_of(s.subrange(2 + s[1], s.len() as int))
    }
}

/// First value for `code` in a list of options.
pub open spec fn first_value(opts: Seq<(u8, Seq<u8>)>, code: u8) -> Option<Seq<u8>>
    decreases opts.len(),
{
    if opts.len() == 0 {
        None
    } else if opts[0].0 == code {
        Some(opts[0].1)
    } else {
        first_value(opts.subrange(1, opts.len() as int), code)
    }
}

/// First value for `code` in an options region.
pub open spec fn option_value(s: Seq<u8>, code: u8) -> Option<Seq<u8>> {
    first_value(options_of(s), code)
}

/// Iterator over the `(code, value)` TLV options that follow a [`DhcpHeader`].
///
/// `PAD` options are skipped and iteration stops at `END` or when the buffer is
/// exhausted. Pass the bytes *after* the fixed header.
pub struct OptionsIter<'a> {
    buf: &'a [u8],
}

impl<'a> View for OptionsIter<'a> {
    /// The options still to come.
    type V = Seq<(u8, Seq<u8>)>;

    closed spec fn view(&self) -> Seq<(u8, Seq<u8>)> {
        options_of(self.buf@)
    }
}

impl<'a> OptionsIter<'a> {
    pub fn new(options: &'a [u8]) -> (r: Self)
        ensures
            r@ == options_of(options@),
    {
        OptionsIter { buf: options }
    }

    /// The next option, or `None` when there is none left.
    pub fn next(&mut self) -> (r: Option<(u8, &'a [u8])>)
        ensures
            match r {
                Some((code, value)) => old(self)@ == seq![(code, value@)] + final(self)@,
                None => old(self)@.len() == 0 && final(self)@.len() == 0,
            },
    {
        let ghost start = self@;
        loop
            invariant
                self@ == start,
                old(self)@ == start,
            decreases self.buf@.len(),
        {
            let n: usize = self.buf.len();
            if n == 0 {
                return None;
            }
            let code: u8 = self.buf[0];
            if code == option::PAD {
                self.buf = &self.buf[1..n];
            } else if code == option::END {
                self.buf = &self.buf[n..n];
                return None;
            } else {
                if n < 2 {
                    return None;
                }
                let len: usize = self.buf[1] as usize;
                if n - 2 < len {
                    self.buf = &self.buf[n..n];
                    return None;
                }
                let value: &'a [u8] = &self.buf[2..2 + len];
                self.buf = &self.buf[2 + len..n];
                return Some((code, value));
            }
        }
    }
}

/// Length in bytes of an IPv4 address carried in an option value.
pub const IPV4_LEN: usize = 4;

/// Length in bytes of a 32-bit seconds value (lease / renewal / rebinding).
pub const SECONDS_LEN: usize = 4;

/// An option value read as a single IPv4 address: only four bytes are one.
pub open spec fn spec_opt_ipv4(value: Option<Seq<u8>>) -> Option<Ipv4Addr> {
    match value {
        Some(v) => if v.len() == IPV4_LEN {
            Some(Ipv4Addr { bits: wire::be32(v, 0) })
        } else {
            None
        },
        None => None,
    }
}

/// An option value read as a number of seconds: only four bytes are one.
pub open spec fn spec_opt_seconds(value: Option<Seq<u8>>) -> Option<u32> {
    match value {
        Some(v) => if v.len() == SECONDS_LEN {
            Some(wire::be32(v, 0))
        } else {
            None
        },
        None => None,
    }
}

/// Parse an option value as a single IPv4 address (`None` unless exactly 4 bytes).
fn opt_ipv4(value: &[u8]) -> (r: Option<Ipv4Addr>)
    ensures
        r == spec_opt_ipv4(Some(value@)),
{
    if value.len() == IPV4_LEN {
        Some(Ipv4Addr::new(value[0], value[1], value[2], value[3]))
    } else {
        None
    }
}

/// Parse an option value as a big-endian `u32` of seconds (`None` unless 4 bytes).
fn opt_seconds(value: &[u8]) -> (r: Option<u32>)
    ensures
        r == spec_opt_seconds(Some(value@)),
{
    if value.len() == SECONDS_LEN {
        Some(U32Be { b0: value[0], b1: value[1], b2: value[2], b3: value[3] }.get())
    } else {
        None
    }
}

/// The DHCP message type (option 53), as a closed set.
#[derive(Clone, Copy, PartialEq, Eq, Structural, Debug)]
pub enum MessageType {
    Discover,
    Offer,
    Request,
    Decline,
    Ack,
    Nak,
    Release,
    Inform,
}

impl MessageType {
    /// The variant that the option-53 byte `v` stands for.
    pub open spec fn spec_from_u8(v: u8) -> Option<Self> {
        if v == message_type::DISCOVER {
            Some(MessageType::Discover)
        } else if v == message_type::OFFER {
            Some(MessageType::Offer)
        } else if v == message_type::REQUEST {
            Some(MessageType::Request)
        } else if v == message_type::DECLINE {
            Some(MessageType::Decline)
        } else if v == message_type::ACK {
            Some(MessageType::Ack)
        } else if v == message_type::NAK {
            Some(MessageType::Nak)
        } else if v == message_type::RELEASE {
            Some(MessageType::Release)
        } else if v == message_type::INFORM {
            Some(MessageType::Inform)
        } else {
            None
        }
    }

    /// The wire byte for this message type.
    pub open spec fn spec_to_u8(self) -> u8 {
        match self {
            MessageType::Discover => message_type::DISCOVER,
            MessageType::Offer => message_type::OFFER,
            MessageType::Request => message_type::REQUEST,
            MessageType::Decline => message_type::DECLINE,
            MessageType::Ack => message_type::ACK,
            MessageType::Nak => message_type::NAK,
            MessageType::Release => message_type::RELEASE,
            MessageType::Inform => message_type::INFORM,
        }
    }

    /// Map the option-53 byte to a variant.
    pub fn from_u8(v: u8) -> (r: Option<Self>)
        ensures
            r == Self::spec_from_u8(v),
    {
        match v {
            message_type::DISCOVER => Some(MessageType::Discover),
            message_type::OFFER => Some(MessageType::Offer),
            message_type::REQUEST => Some(MessageType::Request),
            message_type::DECLINE => Some(MessageType::Decline),
            message_type::ACK => Some(MessageType::Ack),
            message_type::NAK => Some(MessageType::Nak),
            message_type::RELEASE => Some(MessageType::Release),
            message_type::INFORM => Some(MessageType::Inform),
            _ => None,
        }
    }

    /// The wire byte for this message type.
    pub fn to_u8(self) -> (r: u8)
        ensures
            r == self.spec_to_u8(),
    {
        match self {
            MessageType::Discover => message_type::DISCOVER,
            MessageType::Offer => message_type::OFFER,
            MessageType::Request => message_type::REQUEST,
            MessageType::Decline => message_type::DECLINE,
            MessageType::Ack => message_type::ACK,
            MessageType::Nak => message_type::NAK,
            MessageType::Release => message_type::RELEASE,
            MessageType::Inform => message_type::INFORM,
        }
    }
}

/// Every message type reads back from its wire byte, and a byte that stands for
/// a message type is the wire byte of it.
pub proof fn law_message_type_round_trip(t: MessageType, v: u8)
    ensures
        MessageType::spec_from_u8(t.spec_to_u8()) == Some(t),
        MessageType::spec_from_u8(v) matches Some(m) ==> m.spec_to_u8() == v,
{
}

/// The IPv4 addresses that `s` holds one after the other; bytes after the last
/// whole address are left out.
pub open spec fn ipv4_list_of(s: Seq<u8>) -> Seq<Ipv4Addr> {
    Seq::new(s.len() / 4, |i: int| Ipv4Addr { bits: wire::be32(s, 4 * i) })
}

/// Iterator over a concatenated list of IPv4 addresses, as carried by options
/// such as Router (3) and DNS Server (6).
#[derive(Clone, Copy)]
pub struct Ipv4ListIter<'a> {
    bytes: &'a [u8],
}

impl<'a> View for Ipv4ListIter<'a> {
    /// The addresses still to come.
    type V = Seq<Ipv4Addr>;

    closed spec fn view(&self) -> Seq<Ipv4Addr> {
        ipv4_list_of(self.bytes@)
    }
}

impl<'a> Ipv4ListIter<'a> {
    /// The next address, or `None` when there is none left.
    pub fn next(&mut self) -> (r: Option<Ipv4Addr>)
        ensures
            match r {
                Some(addr) => old(self)@ == seq![addr] + final(self)@,
                None => old(self)@.len() == 0 && final(self)@.len() == 0,
            },
    {
        let n: usize = self.bytes.len();
        if n < IPV4_LEN {
            return None;
        }
        let ghost before = self.bytes@;
        let addr = Ipv4Addr::new(self.bytes[0], self.bytes[1], self.bytes[2], self.bytes[3]);
        self.bytes = &self.bytes[4..n];
        assert(ipv4_list_of(before) =~= seq![addr] + self@);
        Some(addr)
    }

    /// All the addresses still to come.
    pub fn collect(self) -> (r: Vec<Ipv4Addr>)
        ensures
            r@ == self@,
    {
        let mut it = self;
        let mut out: Vec<Ipv4Addr> = Vec::new();
        loop
            invariant
                out@ + it@ == self@,
            ensures
                out@ == self@,
            decreases it@.len(),
        {
            let ghost before = it@;
            match it.next() {
                Some(addr) => {
                    let ghost taken = out@;
                    out.push(addr);
                    assert(out@ + it@ =~= taken + before);
                },
                None => {
                    assert(out@ + before =~= out@);
                    break;
                },
            }
        }
        out
    }
}

/// The message type that an options region states.
pub open spec fn spec_message_type(s: Seq<u8>) -> Option<MessageType> {
    match option_value(s, option::MESSAGE_TYPE) {
        Some(v) => if v.len() > 0 {
            MessageType::spec_from_u8(v[0])
        } else {
            None
        },
        None => None,
    }
}

/// The addresses that an options region lists under `code`.
pub open spec fn spec_ipv4_list(s: Seq<u8>, code: u8) -> Seq<Ipv4Addr> {
    match option_value(s, code) {
        Some(v) => ipv4_list_of(v),
        None => seq![],
    }
}

/// Typed read access over a DHCP options region (the bytes after the magic
/// cookie). Cheap to copy; every getter is a fresh scan, which is fine for the
/// handful of options a message carries.
#[derive(Clone, Copy)]
pub struct Options<'a> {
    bytes: &'a [u8],
}

impl<'a> View for Options<'a> {
    /// The bytes of the region.
    type V = Seq<u8>;

    closed spec fn view(&self) -> Seq<u8> {
        self.bytes@
    }
}

impl<'a> Options<'a> {
    pub fn new(bytes: &'a [u8]) -> (r: Self)
        ensures
            r@ == bytes@,
    {
        Options { bytes }
    }

    pub fn iter(&self) -> (r: OptionsIter<'a>)
        ensures
            r@ == options_of(self@),
    {
        OptionsIter::new(self.bytes)
    }

    /// First value for `code`, if present.
    pub fn get(&self, code: u8) -> (r: Option<&'a [u8]>)
        ensures
            option_value(self@, code) == match r {
                Some(value) => Some(value@),
                None => None,
            },
    {
        let mut it = self.iter();
        loop
            invariant
                first_value(it@, code) == option_value(self@, code),
            decreases it@.len(),
        {
            let ghost before = it@;
            match it.next() {
                Some((c, value)) => {
                    assert(before.subrange(1, before.len() as int) =~= it@);
                    if c == code {
                        return Some(value);
                    }
                },
                None => {
                    return None;
                },
            }
        }
    }

    pub fn message_type(&self) -> (r: Option<MessageType>)
        ensures
            r == spec_message_type(self@),
    {
        match self.get(option::MESSAGE_TYPE) {
            Some(value) => if value.len() > 0 {
                MessageType::from_u8(value[0])
            } else {
                None
            },
            None => None,
        }
    }

    pub fn server_id(&self) -> (r: Option<Ipv4Addr>)
        ensures
            r == spec_opt_ipv4(option_value(self@, option::SERVER_ID)),
    {
        match self.get(option::SERVER_ID) {
            Some(value) => opt_ipv4(value),
            None => None,
        }
    }

    pub fn requested_ip(&self) -> (r: Option<Ipv4Addr>)
        ensures
            r == spec_opt_ipv4(option_value(self@, option::REQUESTED_IP)),
    {
        match self.get(option::REQUESTED_IP) {
            Some(value) => opt_ipv4(value),
            None => None,
        }
    }

    pub fn subnet_mask(&self) -> (r: Option<Ipv4Addr>)
        ensures
            r == spec_opt_ipv4(option_value(self@, option::SUBNET_MASK)),
    {
        match self.get(option::SUBNET_MASK) {
            Some(value) => opt_ipv4(value),
            None => None,
        }
    }

    /// Lease duration in seconds (option 51).
    pub fn lease_time(&self) -> (r: Option<u32>)
        ensures
            r == spec_opt_seconds(option_value(self@, option::LEASE_TIME)),
    {
        match self.get(option::LEASE_TIME) {
            Some(value) => opt_seconds(value),
            None => None,
        }
    }

    /// Renewal (T1) time in seconds (option 58).
    pub fn renewal_time(&self) -> (r: Option<u32>)
        ensures
            r == spec_opt_seconds(option_value(self@, option::RENEWAL_TIME)),
    {
        match self.get(option::RENEWAL_TIME) {
            Some(value) => opt_seconds(value),
            None => None,
        }
    }

    /// Rebinding (T2) time in seconds (option 59).
    pub fn rebinding_time(&self) -> (r: Option<u32>)
        ensures
            r == spec_opt_seconds(option_value(self@, option::REBINDING_TIME)),
    {
        match self.get(option::REBINDING_TIME) {
            Some(value) => opt_seconds(value),
            None => None,
        }
    }

    /// The addresses listed under `code`.
    fn ipv4_list(&self, code: u8) -> (r: Ipv4ListIter<'a>)
        ensures
            r@ == spec_ipv4_list(self@, code),
    {
        match self.get(code) {
            Some(value) => Ipv4ListIter { bytes: value },
            None => {
                let r = Ipv4ListIter { bytes: &self.bytes[0..0] };
                assert(r@ =~= Seq::<Ipv4Addr>::empty());
                r
            },
        }
    }

    /// Default gateways (option 3).
    pub fn routers(&self) -> (r: Ipv4ListIter<'a>)
        ensures
            r@ == spec_ipv4_list(self@, option::ROUTER),
    {
        self.ipv4_list(option::ROUTER)
    }

    /// DNS servers (option 6).
    pub fn dns_servers(&self) -> (r: Ipv4ListIter<'a>)
        ensures
            r@ == spec_ipv4_list(self@, option::DNS_SERVER),
    {
        self.ipv4_list(option::DNS_SERVER)
    }
}

/// A parsed DHCPOFFER: the address and parameters a server is offering.
#[derive(Clone, Copy)]
pub struct Offer<'a> {
    pub header: DhcpHeader,
    pub options: Options<'a>,
}

impl<'a> Offer<'a> {
    /// Interpret `(header, options)` as an offer; `None` unless option 53 says
    /// [`MessageType::Offer`].
    pub fn parse(header: &DhcpHeader, options: &'a [u8]) -> (r: Option<Self>)
        ensures
            r is Some <==> spec_message_type(options@) == Some(MessageType::Offer),
            r matches Some(m) ==> m.header == *header && m.options@ == options@,
    {
        let options = Options::new(options);
        match options.message_type() {
            Some(MessageType::Offer) => Some(Offer { header: *header, options }),
            _ => None,
        }
    }

    /// Transaction id tying this offer to the client's discover.
    pub fn transaction_id(&self) -> (r: u32)
        ensures
            r == self.header.xid.value(),
    {
        self.header.xid()
    }

    /// Client hardware address the offer is for (`hlen` bytes of `chaddr`).
    pub fn client_hardware_addr(&self) -> (r: &[u8])
        ensures
            r@ == hardware_addr(self.header.chaddr@, self.header.hlen),
    {
        let len: usize = if self.header.hlen < 16 {
            self.header.hlen as usize
        } else {
            16
        };
        let field: &[u8] = &self.header.chaddr;
        &field[0..len]
    }

    /// The offered address (`yiaddr`).
    pub fn offered_ip(&self) -> (r: Ipv4Addr)
        ensures
            r.bits == self.header.yiaddr.value(),
    {
        self.header.your_ip()
    }

    pub fn server_id(&self) -> (r: Option<Ipv4Addr>)
        ensures
            r == spec_opt_ipv4(option_value(self.options@, option::SERVER_ID)),
    {
        self.options.server_id()
    }

    pub fn lease_time(&self) -> (r: Option<u32>)
        ensures
            r == spec_opt_seconds(option_value(self.options@, option::LEASE_TIME)),
    {
        self.options.lease_time()
    }

    pub fn subnet_mask(&self) -> (r: Option<Ipv4Addr>)
        ensures
            r == spec_opt_ipv4(option_value(self.options@, option::SUBNET_MASK)),
    {
        self.options.subnet_mask()
    }

    pub fn routers(&self) -> (r: Ipv4ListIter<'a>)
        ensures
            r@ == spec_ipv4_list(self.options@, option::ROUTER),
    {
        self.options.routers()
    }

    pub fn dns_servers(&self) -> (r: Ipv4ListIter<'a>)
        ensures
            r@ == spec_ipv4_list(self.options@, option::DNS_SERVER),
    {
        self.options.dns_servers()
    }

    /// Raw typed options, for anything not surfaced above.
    pub fn options(&self) -> (r: Options<'a>)
        ensures
            r@ == self.options@,
    {
        self.options
    }
}

/// A parsed DHCPREQUEST: a client committing to (or renewing) an address.
#[derive(Clone, Copy)]
pub struct Request<'a> {
    pub header: DhcpHeader,
    pub options: Options<'a>,
}

impl<'a> Request<'a> {
    /// `None` unless option 53 says [`MessageType::Request`].
    pub fn parse(header: &DhcpHeader, options: &'a [u8]) -> (r: Option<Self>)
        ensures
            r is Some <==> spec_message_type(options@) == Some(MessageType::Request),
            r matches Some(m) ==> m.header == *header && m.options@ == options@,
    {
        let options = Options::new(options);
        match options.message_type() {
            Some(MessageType::Request) => Some(Request { header: *header, options }),
            _ => None,
        }
    }

    pub fn transaction_id(&self) -> (r: u32)
        ensures
            r == self.header.xid.value(),
    {
        self.header.xid()
    }

    pub fn client_hardware_addr(&self) -> (r: &[u8])
        ensures
            r@ == hardware_addr(self.header.chaddr@, self.header.hlen),
    {
        let len: usize = if self.header.hlen < 16 {
            self.header.hlen as usize
        } else {
            16
        };
        let field: &[u8] = &self.header.chaddr;
        &field[0..len]
    }

    /// The address the client wants (option 50). During a renewal the client
    /// omits this and uses `ciaddr` instead: see [`Self::client_ip`].
    pub fn requested_ip(&self) -> (r: Option<Ipv4Addr>)
        ensures
            r == spec_opt_ipv4(option_value(self.options@, option::REQUESTED_IP)),
    {
        self.options.requested_ip()
    }

    /// `ciaddr`: the client's current address, set when renewing.
    pub fn client_ip(&self) -> (r: Ipv4Addr)
        ensures
            r.bits == self.header.ciaddr.value(),
    {
        self.header.client_ip()
    }

    /// The server this request is directed at (option 54), set when selecting
    /// among multiple offers.
    pub fn server_id(&self) -> (r: Option<Ipv4Addr>)
        ensures
            r == spec_opt_ipv4(option_value(self.options@, option::SERVER_ID)),
    {
        self.options.server_id()
    }

    pub fn options(&self) -> (r: Options<'a>)
        ensures
            r@ == self.options@,
    {
        self.options
    }
}

/// A parsed lease, taken from a DHCPACK: the bound address and its parameters.
#[derive(Clone, Copy)]
pub struct Lease<'a> {
    pub header: DhcpHeader,
    pub options: Options<'a>,
}

impl<'a> Lease<'a> {
    /// `None` unless option 53 says [`MessageType::Ack`] (the message that
    /// actually grants the lease).
    pub fn parse(header: &DhcpHeader, options: &'a [u8]) -> (r: Option<Self>)
        ensures
            r is Some <==> spec_message_type(options@) == Some(MessageType::Ack),
            r matches Some(m) ==> m.header == *header && m.options@ == options@,
    {
        let options = Options::new(options);
        match options.message_type() {
            Some(MessageType::Ack) => Some(Lease { header: *header, options }),
            _ => None,
        }
    }

    pub fn transaction_id(&self) -> (r: u32)
        ensures
            r == self.header.xid.value(),
    {
        self.header.xid()
    }

    pub fn client_hardware_addr(&self) -> (r: &[u8])
        ensures
            r@ == hardware_addr(self.header.chaddr@, self.header.hlen),
    {
        let len: usize = if self.header.hlen < 16 {
            self.header.hlen as usize
        } else {
            16
        };
        let field: &[u8] = &self.header.chaddr;
        &field[0..len]
    }

    /// The bound address (`yiaddr`).
    pub fn assigned_ip(&self) -> (r: Ipv4Addr)
        ensures
            r.bits == self.header.yiaddr.value(),
    {
        self.header.your_ip()
    }

    pub fn server_id(&self) -> (r: Option<Ipv4Addr>)
        ensures
            r == spec_opt_ipv4(option_value(self.options@, option::SERVER_ID)),
    {
        self.options.server_id()
    }

    /// Lease duration in seconds.
    pub fn lease_time(&self) -> (r: Option<u32>)
        ensures
            r == spec_opt_seconds(option_value(self.options@, option::LEASE_TIME)),
    {
        self.options.lease_time()
    }

    /// Renewal time T1 in seconds.
    pub fn renewal_time(&self) -> (r: Option<u32>)
        ensures
            r == spec_opt_seconds(option_value(self.options@, option::RENEWAL_TIME)),
    {
        self.options.renewal_time()
    }

    /// Rebinding time T2 in seconds.
    pub fn rebinding_time(&self) -> (r: Option<u32>)
        ensures
            r == spec_opt_seconds(option_value(self.options@, option::REBINDING_TIME)),
    {
        self.options.rebinding_time()
    }

    pub fn subnet_mask(&self) -> (r: Option<Ipv4Addr>)
        ensures
            r == spec_opt_ipv4(option_value(self.options@, option::SUBNET_MASK)),
    {
        self.options.subnet_mask()
    }

    pub fn routers(&self) -> (r: Ipv4ListIter<'a>)
        ensures
            r@ == spec_ipv4_list(self.options@, option::ROUTER),
    {
        self.options.routers()
    }

    pub fn dns_servers(&self) -> (r: Ipv4ListIter<'a>)
        ensures
            r@ == spec_ipv4_list(self.options@, option::DNS_SERVER),
    {
        self.options.dns_servers()
    }

    pub fn options(&self) -> (r: Options<'a>)
        ensures
            r@ == self.options@,
    {
        self.options
    }
}

/// One option as it stands in an options region.
pub open spec fn encoded_option(code: u8, value: Seq<u8>) -> Seq<u8> {
    seq![code, value.len() as u8] + value
}

/// A list of addresses as it stands in an option's value.
pub open spec fn encoded_ipv4_list(addrs: Seq<Ipv4Addr>) -> Seq<u8>
    decreases addrs.len(),
{
    if addrs.len() == 0 {
        seq![]
    } else {
        encoded_ipv4_list(addrs.drop_last()) + wire::bytes32(addrs.last().bits)
    }
}

/// Writes DHCP option TLVs into the region *after* the magic cookie, tracking
/// how many bytes were used. Each writer method returns `false` (without
/// advancing) if the option wouldn't fit, so a caller can detect truncation;
/// finish with [`OptionsWriter::end`] to emit the `END` marker.
pub struct OptionsWriter<'a> {
    pub buf: &'a mut [u8],
    pub len: usize,
}

impl<'a> OptionsWriter<'a> {
    /// The bytes in use lie within the region.
    pub open spec fn wf(self) -> bool {
        self.len <= self.buf@.len()
    }

    /// What has been written so far.
    pub open spec fn written(self) -> Seq<u8> {
        self.buf@.subrange(0, self.len as int)
    }

    /// `self` is `before` with `bytes` written after what was there.
    pub open spec fn extends(self, before: Self, bytes: Seq<u8>) -> bool {
        &&& self.wf()
        &&& self.len == before.len + bytes.len()
        &&& self.buf@ == wire::splice(before.buf@, before.len as int, bytes)
        &&& self.written() == before.written() + bytes
    }

    pub fn new(buf: &'a mut [u8]) -> (r: Self)
        ensures
            r.wf(),
            r.len == 0,
            r.buf@ == old(buf)@,
            final(r.buf)@ == final(buf)@,
    {
        OptionsWriter { buf, len: 0 }
    }

    /// Write one `code`/`value` option. Fails if `value` exceeds 255 bytes or
    /// the buffer is full.
    #[must_use]
    pub fn option(&mut self, code: u8, value: &[u8]) -> (r: bool)
        requires
            old(self).wf(),
        ensures
            final(final(self).buf)@ == final(old(self).buf)@,
            r == (value@.len() <= 255 && old(self).len + 2 + value@.len() <= old(self).buf@.len()),
            r ==> final(self).extends(*old(self), encoded_option(code, value@)),
            !r ==> *final(self) == *old(self),
    {
        if value.len() > 255 || self.buf.len() - self.len < 2 + value.len() {
            return false;
        }
        let ghost before = *self;
        let n: usize = value.len();
        let at: usize = self.len;
        self.buf[at] = code;
        self.buf[at + 1] = n as u8;
        wire::store_at(self.buf, at + 2, value);
        self.len = at + 2 + n;
        assert(self.buf@ =~= wire::splice(
            before.buf@,
            at as int,
            encoded_option(code, value@),
        ));
        assert(self.written() =~= before.written() + encoded_option(code, value@));
        true
    }

    /// Bytes written so far (including a trailing `END` once emitted).
    pub fn len(&self) -> (r: usize)
        ensures
            r == self.len,
    {
        self.len
    }

    pub fn is_empty(&self) -> (r: bool)
        ensures
            r == (self.len == 0),
    {
        self.len == 0
    }

    /// Write option 53 with the byte of `t`.
    #[must_use]
    pub fn message_type(&mut self, t: MessageType) -> (r: bool)
        requires
            old(self).wf(),
        ensures
            final(final(self).buf)@ == final(old(self).buf)@,
            r == (old(self).len + 3 <= old(self).buf@.len()),
            r ==> final(self).extends(
                *old(self),
                encoded_option(option::MESSAGE_TYPE, seq![t.spec_to_u8()]),
            ),
            !r ==> *final(self) == *old(self),
    {
        let value = [t.to_u8()];
        assert(value@ =~= seq![t.spec_to_u8()]);
        self.option(option::MESSAGE_TYPE, &value)
    }

    /// Write an option that holds one address.
    #[must_use]
    pub fn ipv4(&mut self, code: u8, addr: Ipv4Addr) -> (r: bool)
        requires
            old(self).wf(),
        ensures
            final(final(self).buf)@ == final(old(self).buf)@,
            r == (old(self).len + 6 <= old(self).buf@.len()),
            r ==> final(self).extends(
                *old(self),
                encoded_option(code, wire::bytes32(addr.bits)),
            ),
            !r ==> *final(self) == *old(self),
    {
        let value = addr.octets();
        assert(value@ =~= wire::bytes32(addr.bits));
        self.option(code, &value)
    }

    /// Write an option that holds a number of seconds.
    #[must_use]
    pub fn seconds(&mut self, code: u8, secs: u32) -> (r: bool)
        requires
            old(self).wf(),
        ensures
            final(final(self).buf)@ == final(old(self).buf)@,
            r == (old(self).len + 6 <= old(self).buf@.len()),
            r ==> final(self).extends(*old(self), encoded_option(code, wire::bytes32(secs))),
            !r ==> *final(self) == *old(self),
    {
        let be = U32Be::new(secs);
        let value = [be.b0, be.b1, be.b2, be.b3];
        assert(value@ =~= wire::bytes32(secs));
        self.option(code, &value)
    }

    /// Write an option that holds a list of addresses. Fails if the list
    /// exceeds 255 bytes or the buffer is full.
    #[must_use]
    pub fn ipv4_list(&mut self, code: u8, addrs: &[Ipv4Addr]) -> (r: bool)
        requires
            old(self).wf(),
        ensures
            final(final(self).buf)@ == final(old(self).buf)@,
            r == (4 * addrs@.len() <= 255 && old(self).len + 2 + 4 * addrs@.len()
                <= old(self).buf@.len()),
            r ==> final(self).extends(
                *old(self),
                encoded_option(code, encoded_ipv4_list(addrs@)),
            ),
            !r ==> *final(self) == *old(self),
    {
        proof {
            lemma_encoded_ipv4_list_len(addrs@);
        }
        if addrs.len() > 63 {
            return false;
        }
        let mut value: Vec<u8> = Vec::new();
        let mut i: usize = 0;
        while i < addrs.len()
            invariant
                i <= addrs@.len() <= 63,
                value@ == encoded_ipv4_list(addrs@.subrange(0, i as int)),
            decreases addrs@.len() - i,
        {
            let be = U32Be::new(addrs[i].bits);
            proof {
                let upto = addrs@.subrange(0, i + 1);
                assert(upto.drop_last() =~= addrs@.subrange(0, i as int));
            }
            value.push(be.b0);
            value.push(be.b1);
            value.push(be.b2);
            value.push(be.b3);
            i = i + 1;
            assert(value@ =~= encoded_ipv4_list(addrs@.subrange(0, i as int)));
        }
        assert(addrs@.subrange(0, i as int) =~= addrs@);
        self.option(code, value.as_slice())
    }

    /// Emit the terminating `END` option.
    #[must_use]
    pub fn end(&mut self) -> (r: bool)
        requires
            old(self).wf(),
        ensures
            final(final(self).buf)@ == final(old(self).buf)@,
            r == (old(self).len + 1 <= old(self).buf@.len()),
            r ==> final(self).extends(*old(self), seq![option::END]),
            !r ==> *final(self) == *old(self),
    {
        if self.buf.len() - self.len < 1 {
            return false;
        }
        let ghost before = *self;
        let at: usize = self.len;
        self.buf[at] = option::END;
        self.len = at + 1;
        assert(self.buf@ =~= wire::splice(before.buf@, at as int, seq![option::END]));
        assert(self.written() =~= before.written() + seq![option::END]);
        true
    }
}

/// A list of addresses takes four bytes for each.
pub proof fn lemma_encoded_ipv4_list_len(addrs: Seq<Ipv4Addr>)
    ensures
        encoded_ipv4_list(addrs).len() == 4 * addrs.len(),
    decreases addrs.len(),
{
    if addrs.len() > 0 {
        lemma_encoded_ipv4_list_len(addrs.drop_last());
    }
}

/// A list of addresses reads back from its bytes.
pub proof fn law_ipv4_list_round_trip(addrs: Seq<Ipv4Addr>)
    ensures
        ipv4_list_of(encoded_ipv4_list(addrs)) == addrs,
    decreases addrs.len(),
{
    let bytes = encoded_ipv4_list(addrs);
    lemma_encoded_ipv4_list_len(addrs);
    if addrs.len() > 0 {
        let init = addrs.drop_last();
        let last = addrs.last();
        law_ipv4_list_round_trip(init);
        lemma_encoded_ipv4_list_len(init);
        wire::lemma_be32_value(last.bits);
        assert forall|i: int| 0 <= i < addrs.len() implies #[trigger] ipv4_list_of(bytes)[i]
            == addrs[i] by {
            if i < init.len() {
                assert(ipv4_list_of(encoded_ipv4_list(init))[i] == init[i]);
            }
        }
    }
    assert(ipv4_list_of(bytes) =~= addrs);
}

/// Options that a region can hold: a code other than `PAD` and `END`, and a
/// value of at most 255 bytes.
pub open spec fn encodable(opts: Seq<(u8, Seq<u8>)>) -> bool {
    forall|i: int|
        0 <= i < opts.len() ==> {
            let (code, value) = #[trigger] opts[i];
            code != option::PAD && code != option::END && value.len() <= 255
        }
}

/// The options of a list, written one after the other.
pub open spec fn encoded_options(opts: Seq<(u8, Seq<u8>)>) -> Seq<u8>
    decreases opts.len(),
{
    if opts.len() == 0 {
        seq![]
    } else {
        encoded_option(opts[0].0, opts[0].1) + encoded_options(
            opts.subrange(1, opts.len() as int),
        )
    }
}

/// Options written one after the other and closed by `END` read back as the
/// options that were written, whatever follows them in the region.
pub proof fn law_options_round_trip(opts: Seq<(u8, Seq<u8>)>, rest: Seq<u8>)
    requires
        encodable(opts),
    ensures
        options_of(encoded_options(opts) + seq![option::END] + rest) == opts,
    decreases opts.len(),
{
    let s = encoded_options(opts) + seq![option::END] + rest;
    if opts.len() == 0 {
        assert(s[0] == option::END);
        assert(opts =~= seq![]);
    } else {
        let (code, value) = opts[0];
        let others = opts.subrange(1, opts.len() as int);
        assert(encodable(others)) by {
            assert forall|i: int| 0 <= i < others.len() implies {
                let (code, value) = #[trigger] others[i];
                code != option::PAD && code != option::END && value.len() <= 255
            } by {
                assert(others[i] == opts[i + 1]);
            }
        }
        law_options_round_trip(others, rest);
        let enc = encoded_option(code, value);
        assert(s =~= enc + (encoded_options(others) + seq![option::END] + rest));
        assert(s[0] == code && s[1] == value.len());
        assert(s.subrange(2, 2 + s[1]) =~= value);
        assert(s.subrange(2 + s[1], s.len() as int) =~= encoded_options(others) + seq![option::END]
            + rest);
        assert(opts =~= seq![(code, value)] + others);
    }
}

/// Appending an option to a list appends its bytes.
pub proof fn lemma_encoded_options_push(opts: Seq<(u8, Seq<u8>)>, code: u8, value: Seq<u8>)
    ensures
        encoded_options(opts.push((code, value))) == encoded_options(opts) + encoded_option(
            code,
            value,
        ),
    decreases opts.len(),
{
    let all = opts.push((code, value));
    let tail = all.subrange(1, all.len() as int);
    if opts.len() == 0 {
        assert(tail =~= seq![]);
        assert(encoded_options(tail) =~= seq![]);
        assert(encoded_options(all) =~= encoded_options(opts) + encoded_option(code, value));
    } else {
        let others = opts.subrange(1, opts.len() as int);
        lemma_encoded_options_push(others, code, value);
        assert(tail =~= others.push((code, value)));
        assert(encoded_options(all) =~= encoded_options(opts) + encoded_option(code, value));
    }
}

/// How a region of options is read, option by option: `0` is skipped, `255` ends
/// the list, and any other byte is a code, followed by the length of its value
/// and the value. What does not fit in the region ends the list too.
pub proof fn law_options_are_read(s: Seq<u8>, code: u8, value: Seq<u8>, rest: Seq<u8>)
    ensures
        s.len() == 0 ==> options_of(s) == Seq::<(u8, Seq<u8>)>::empty(),
        options_of(seq![255u8] + rest) == Seq::<(u8, Seq<u8>)>::empty(),
        options_of(seq![0u8] + rest) == options_of(rest),
        code != 0 && code != 255 && value.len() <= 255 ==> options_of(
            seq![code, value.len() as u8] + value + rest,
        ) == seq![(code, value)] + options_of(rest),
        s.len() > 0 && s[0] != 0 && s[0] != 255 && (s.len() == 1 || s.len() < 2 + s[1])
            ==> options_of(s) == Seq::<(u8, Seq<u8>)>::empty(),
{
    let padded = seq![0u8] + rest;
    assert(padded.subrange(1, padded.len() as int) =~= rest);
    if code != 0 && code != 255 && value.len() <= 255 {
        let t = seq![code, value.len() as u8] + value + rest;
        assert(t.subrange(2, 2 + value.len() as int) =~= value);
        assert(t.subrange(2 + value.len() as int, t.len() as int) =~= rest);
    }
}

/// Of options with the same code the first one counts.
pub proof fn law_first_option_counts(
    code: u8,
    other: u8,
    value: Seq<u8>,
    rest: Seq<(u8, Seq<u8>)>,
)
    requires
        other != code,
    ensures
        first_value(Seq::<(u8, Seq<u8>)>::empty(), code) is None,
        first_value(seq![(code, value)] + rest, code) == Some(value),
        first_value(seq![(other, value)] + rest, code) == first_value(rest, code),
{
    let t = seq![(other, value)] + rest;
    assert(t.subrange(1, t.len() as int) =~= rest);
}

/// What the values of options stand for: an address and a number of seconds
/// are four bytes exactly; a list of addresses is as many as fit, in order.
pub proof fn law_option_values(v: Seq<u8>, i: int)
    ensures
        spec_opt_ipv4(None) is None,
        spec_opt_seconds(None) is None,
        spec_opt_ipv4(Some(v)) is Some <==> v.len() == 4,
        spec_opt_seconds(Some(v)) is Some <==> v.len() == 4,
        v.len() == 4 ==> spec_opt_ipv4(Some(v))->0.bits == 16777216 * v[0] + 65536 * v[1] + 256
            * v[2] + v[3],
        v.len() == 4 ==> spec_opt_seconds(Some(v))->0 == 16777216 * v[0] + 65536 * v[1] + 256
            * v[2] + v[3],
        ipv4_list_of(v).len() == v.len() / 4,
        0 <= i < v.len() / 4 ==> ipv4_list_of(v)[i].bits == 16777216 * v[4 * i] + 65536 * v[4 * i
            + 1] + 256 * v[4 * i + 2] + v[4 * i + 3],
{
}

/// The numbers of the message types.
pub proof fn law_message_type_numbers(n: u8)
    ensures
        MessageType::spec_from_u8(1) == Some(MessageType::Discover),
        MessageType::spec_from_u8(2) == Some(MessageType::Offer),
        MessageType::spec_from_u8(3) == Some(MessageType::Request),
        MessageType::spec_from_u8(4) == Some(MessageType::Decline),
        MessageType::spec_from_u8(5) == Some(MessageType::Ack),
        MessageType::spec_from_u8(6) == Some(MessageType::Nak),
        MessageType::spec_from_u8(7) == Some(MessageType::Release),
        MessageType::spec_from_u8(8) == Some(MessageType::Inform),
        n == 0 || n > 8 ==> MessageType::spec_from_u8(n) is None,
        MessageType::Discover.spec_to_u8() == 1,
        MessageType::Offer.spec_to_u8() == 2,
        MessageType::Request.spec_to_u8() == 3,
        MessageType::Decline.spec_to_u8() == 4,
        MessageType::Ack.spec_to_u8() == 5,
        MessageType::Nak.spec_to_u8() == 6,
        MessageType::Release.spec_to_u8() == 7,
        MessageType::Inform.spec_to_u8() == 8,
{
}

/// What a region says is what its options say: the type of the message is the
/// first byte of option 53, and the addresses under a code are those of the
/// first option with that code.
pub proof fn law_regions_speak_by_their_options(s: Seq<u8>, code: u8)
    ensures
        option_value(s, code) == first_value(options_of(s), code),
        spec_message_type(s) == match first_value(options_of(s), 53) {
            Some(v) => if v.len() > 0 {
                MessageType::spec_from_u8(v[0])
            } else {
                None
            },
            None => None,
        },
        spec_ipv4_list(s, code) == match first_value(options_of(s), code) {
            Some(v) => ipv4_list_of(v),
            None => seq![],
        },
{
}

/// How options are written: the code, the length of the value and the value,
/// one option after the other.
pub proof fn law_options_are_written(
    code: u8,
    value: Seq<u8>,
    rest: Seq<(u8, Seq<u8>)>,
    addrs: Seq<Ipv4Addr>,
    i: int,
)
    requires
        value.len() <= 255,
    ensures
        encoded_options(Seq::<(u8, Seq<u8>)>::empty()) == Seq::<u8>::empty(),
        encoded_options(seq![(code, value)] + rest) == seq![code, value.len() as u8] + value
            + encoded_options(rest),
        encoded_option(code, value) == seq![code, value.len() as u8] + value,
        encoded_ipv4_list(addrs).len() == 4 * addrs.len(),
        0 <= i < addrs.len() ==> addrs[i].bits == 16777216 * encoded_ipv4_list(addrs)[4 * i]
            + 65536 * encoded_ipv4_list(addrs)[4 * i + 1] + 256 * encoded_ipv4_list(addrs)[4 * i
            + 2] + encoded_ipv4_list(addrs)[4 * i + 3],
{
    let t = seq![(code, value)] + rest;
    assert(t.subrange(1, t.len() as int) =~= rest);
    lemma_encoded_ipv4_list_len(addrs);
    law_ipv4_list_round_trip(addrs);
    if 0 <= i < addrs.len() {
        law_option_values(encoded_ipv4_list(addrs), i);
    }
}

/// A hardware address of up to 16 bytes is found again in the field that it was
/// written to, which is zero behind it.
pub proof fn law_hardware_address_round_trip(mac: Seq<u8>, i: int)
    requires
        mac.len() <= 16,
    ensures
        hardware_addr_field(mac).len() == 16,
        hardware_addr(hardware_addr_field(mac), mac.len() as u8) == mac,
        mac.len() <= i < 16 ==> hardware_addr_field(mac)[i] == 0,
{
    assert(hardware_addr(hardware_addr_field(mac), mac.len() as u8) =~= mac);
}

} // verus!
