//! Wire-format primitives shared by every header in this module.
//!
//! [`U16Be`] and [`U32Be`] hold integers in network byte order; the host value
//! is only reachable through `get`. [`Pod`] marks a header as plain bytes: it
//! can be read from, and written to, any offset of a packet buffer, and every
//! bit pattern of the right length is a valid header.

use vstd::prelude::*;

verus! {

/// Number of bytes in a 32-bit word. Several headers (IPv4 IHL, TCP data
/// offset) express their length as a count of these words.
pub const WORD_BYTES: usize = 4;

/// The 16-bit number at `i`, most significant byte first.
pub open spec fn be16(s: Seq<u8>, i: int) -> u16 {
    (s[i] * 0x100 + s[i + 1]) as u16
}

/// The 32-bit number at `i`, most significant byte first.
pub open spec fn be32(s: Seq<u8>, i: int) -> u32 {
    (s[i] * 0x100_0000 + s[i + 1] * 0x1_0000 + s[i + 2] * 0x100 + s[i + 3]) as u32
}

/// The two bytes of `v` in network order.
pub open spec fn bytes16(v: u16) -> Seq<u8> {
    seq![(v / 0x100) as u8, (v % 0x100) as u8]
}

/// The four bytes of `v` in network order.
pub open spec fn bytes32(v: u32) -> Seq<u8> {
    seq![
        (v / 0x100_0000) as u8,
        (v / 0x1_0000 % 0x100) as u8,
        (v / 0x100 % 0x100) as u8,
        (v % 0x100) as u8,
    ]
}

/// The bytes of a 32-bit number, taken apart again.
pub proof fn lemma_be32_digits(a: u8, b: u8, c: u8, d: u8)
    ensures
        ({
            let v = (a * 0x100_0000 + b * 0x1_0000 + c * 0x100 + d) as u32;
            &&& v == a * 0x100_0000 + b * 0x1_0000 + c * 0x100 + d
            &&& v / 0x100_0000 == a
            &&& v / 0x1_0000 % 0x100 == b
            &&& v / 0x100 % 0x100 == c
            &&& v % 0x100 == d
        }),
{
    let v = (a * 0x100_0000 + b * 0x1_0000 + c * 0x100 + d) as u32;
    assert(v / 0x100 == a * 0x1_0000 + b * 0x100 + c);
    assert(v / 0x1_0000 == a * 0x100 + b);
    assert(v / 0x100_0000 == a);
}

/// A 32-bit number is put together from its bytes.
pub proof fn lemma_be32_value(v: u32)
    ensures
        v == (v / 0x100_0000) * 0x100_0000 + (v / 0x1_0000 % 0x100) * 0x1_0000 + (v / 0x100 % 0x100)
            * 0x100 + v % 0x100,
        v / 0x100_0000 < 0x100,
{
    assert(v / 0x1_0000 == v / 0x100_0000 * 0x100 + v / 0x1_0000 % 0x100) by {
        assert(v / 0x1_0000 / 0x100 == v / 0x100_0000);
    }
    assert(v / 0x100 == v / 0x1_0000 * 0x100 + v / 0x100 % 0x100) by {
        assert(v / 0x100 / 0x100 == v / 0x1_0000);
    }
}

/// `s` with the bytes from `off` on replaced by `b`.
pub open spec fn splice(s: Seq<u8>, off: int, b: Seq<u8>) -> Seq<u8> {
    Seq::new(
        s.len(),
        |i: int| {
            if off <= i < off + b.len() {
                b[i - off]
            } else {
                s[i]
            }
        },
    )
}

/// A `u16` stored in network (big-endian) byte order.
#[derive(Clone, Copy, PartialEq, Eq, Structural, Hash, Debug)]
pub struct U16Be {
    pub hi: u8,
    pub lo: u8,
}

impl U16Be {
    /// The value in host byte order.
    pub open spec fn value(self) -> u16 {
        (self.hi * 0x100 + self.lo) as u16
    }

    /// The stored bytes.
    pub open spec fn bytes(self) -> Seq<u8> {
        seq![self.hi, self.lo]
    }

    /// The network-order form of `host`.
    pub open spec fn spec_new(host: u16) -> Self {
        U16Be { hi: (host / 0x100) as u8, lo: (host % 0x100) as u8 }
    }

    pub fn new(host: u16) -> (r: Self)
        ensures
            r == Self::spec_new(host),
            r.value() == host,
    {
        U16Be { hi: (host / 0x100) as u8, lo: (host % 0x100) as u8 }
    }

    /// The value in host byte order.
    pub fn get(self) -> (r: u16)
        ensures
            r == self.value(),
    {
        self.hi as u16 * 0x100 + self.lo as u16
    }

    pub fn set(&mut self, host: u16)
        ensures
            *final(self) == Self::spec_new(host),
            final(self).value() == host,
    {
        self.hi = (host / 0x100) as u8;
        self.lo = (host % 0x100) as u8;
    }
}

impl Default for U16Be {
    fn default() -> (r: Self)
        ensures
            r.value() == 0,
    {
        U16Be { hi: 0, lo: 0 }
    }
}

impl From<u16> for U16Be {
    fn from(v: u16) -> (r: Self) {
        U16Be::new(v)
    }
}

impl vstd::std_specs::convert::FromSpecImpl<u16> for U16Be {
    open spec fn obeys_from_spec() -> bool {
        true
    }

    open spec fn from_spec(v: u16) -> Self {
        U16Be::spec_new(v)
    }
}

impl From<U16Be> for u16 {
    fn from(v: U16Be) -> (r: u16) {
        v.get()
    }
}

impl vstd::std_specs::convert::FromSpecImpl<U16Be> for u16 {
    open spec fn obeys_from_spec() -> bool {
        true
    }

    open spec fn from_spec(v: U16Be) -> u16 {
        v.value()
    }
}

/// A `u32` stored in network (big-endian) byte order.
#[derive(Clone, Copy, PartialEq, Eq, Structural, Hash, Debug)]
pub struct U32Be {
    pub b0: u8,
    pub b1: u8,
    pub b2: u8,
    pub b3: u8,
}

impl U32Be {
    /// The value in host byte order.
    pub open spec fn value(self) -> u32 {
        (self.b0 * 0x100_0000 + self.b1 * 0x1_0000 + self.b2 * 0x100 + self.b3) as u32
    }

    /// The stored bytes.
    pub open spec fn bytes(self) -> Seq<u8> {
        seq![self.b0, self.b1, self.b2, self.b3]
    }

    /// The network-order form of `host`.
    pub open spec fn spec_new(host: u32) -> Self {
        U32Be {
            b0: (host / 0x100_0000) as u8,
            b1: (host / 0x1_0000 % 0x100) as u8,
            b2: (host / 0x100 % 0x100) as u8,
            b3: (host % 0x100) as u8,
        }
    }

    pub fn new(host: u32) -> (r: Self)
        ensures
            r == Self::spec_new(host),
            r.value() == host,
    {
        proof {
            lemma_be32_value(host);
        }
        U32Be {
            b0: (host / 0x100_0000) as u8,
            b1: (host / 0x1_0000 % 0x100) as u8,
            b2: (host / 0x100 % 0x100) as u8,
            b3: (host % 0x100) as u8,
        }
    }

    /// The value in host byte order.
    pub fn get(self) -> (r: u32)
        ensures
            r == self.value(),
    {
        self.b0 as u32 * 0x100_0000 + self.b1 as u32 * 0x1_0000 + self.b2 as u32 * 0x100
            + self.b3 as u32
    }

    pub fn set(&mut self, host: u32)
        ensures
            *final(self) == Self::spec_new(host),
            final(self).value() == host,
    {
        *self = U32Be::new(host);
    }
}

impl Default for U32Be {
    fn default() -> (r: Self)
        ensures
            r.value() == 0,
    {
        U32Be { b0: 0, b1: 0, b2: 0, b3: 0 }
    }
}

impl From<u32> for U32Be {
    fn from(v: u32) -> (r: Self) {
        U32Be::new(v)
    }
}

impl vstd::std_specs::convert::FromSpecImpl<u32> for U32Be {
    open spec fn obeys_from_spec() -> bool {
        true
    }

    open spec fn from_spec(v: u32) -> Self {
        U32Be::spec_new(v)
    }
}

impl From<U32Be> for u32 {
    fn from(v: U32Be) -> (r: u32) {
        v.get()
    }
}

impl vstd::std_specs::convert::FromSpecImpl<U32Be> for u32 {
    open spec fn obeys_from_spec() -> bool {
        true
    }

    open spec fn from_spec(v: U32Be) -> u32 {
        v.value()
    }
}

/// Storing a number and reading it back gives the number; so does reading
/// stored bytes and storing them again.
pub proof fn law_byte_order_round_trip(x: u16, y: u32, a: U16Be, b: U32Be)
    ensures
        U16Be::spec_new(x).value() == x,
        U32Be::spec_new(y).value() == y,
        U16Be::spec_new(a.value()) == a,
        U32Be::spec_new(b.value()) == b,
        be16(bytes16(x), 0) == x,
        be32(bytes32(y), 0) == y,
{
    lemma_be32_value(y);
    lemma_be32_digits(b.b0, b.b1, b.b2, b.b3);
}

/// Header types that are plain bytes.
///
/// A header has a fixed length, a byte image of that length, and every image
/// of that length belongs to exactly one header.
pub trait Pod: Sized {
    /// Length of the header in bytes.
    spec fn wire_len() -> nat;

    /// The header as it stands in a packet.
    spec fn bytes(self) -> Seq<u8>;

    /// The byte image has the header's length.
    proof fn lemma_len(self)
        ensures
            self.bytes().len() == Self::wire_len(),
    ;

    /// Two headers with the same byte image are the same header.
    proof fn lemma_injective(self, other: Self)
        requires
            self.bytes() == other.bytes(),
        ensures
            self == other,
    ;

    /// Length of the header in bytes.
    fn size() -> (n: usize)
        ensures
            n == Self::wire_len(),
    ;

    /// The header whose byte image is `buf`.
    fn load(buf: &[u8]) -> (r: Self)
        requires
            buf@.len() == Self::wire_len(),
        ensures
            r.bytes() == buf@,
    ;

    /// Write the header's byte image over `buf`.
    fn store(&self, buf: &mut [u8])
        requires
            old(buf)@.len() == Self::wire_len(),
        ensures
            final(buf)@ == self.bytes(),
    ;
}

/// The `N` bytes of `buf` from `off` on.
pub fn array_at<const N: usize>(buf: &[u8], off: usize) -> (r: [u8; N])
    requires
        off + N <= buf@.len(),
    ensures
        r@ == buf@.subrange(off as int, off + N),
{
    let mut r: [u8; N] = [0u8; N];
    let mut i: usize = 0;
    let len: usize = buf.len();
    while i < N
        invariant
            i <= N,
            len == buf@.len(),
            off + N <= len,
            forall|j: int| 0 <= j < i ==> r@[j] == buf@[off + j],
        decreases N - i,
    {
        r[i] = buf[off + i];
        i = i + 1;
    }
    assert(r@ =~= buf@.subrange(off as int, off + N));
    r
}

/// Write `src` over the bytes of `buf` from `off` on.
pub fn store_at(buf: &mut [u8], off: usize, src: &[u8])
    requires
        off + src@.len() <= old(buf)@.len(),
    ensures
        final(buf)@ == splice(old(buf)@, off as int, src@),
{
    let mut i: usize = 0;
    let n: usize = src.len();
    let len: usize = buf.len();
    let ghost before = buf@;
    while i < n
        invariant
            i <= n,
            n == src@.len(),
            len == before.len(),
            off + n <= len,
            buf@.len() == before.len(),
            forall|j: int|
                0 <= j < before.len() ==> #[trigger] buf@[j] == if off <= j < off + i {
                    src@[j - off]
                } else {
                    before[j]
                },
        decreases n - i,
    {
        buf[off + i] = src[i];
        i = i + 1;
    }
    assert(buf@ =~= splice(before, off as int, src@));
}

/// Read the start of `buf` as a `T`. Returns `None` if `buf` is shorter than
/// `T`.
pub fn ref_from<T: Pod>(buf: &[u8]) -> (r: Option<T>)
    ensures
        r is Some <==> buf@.len() >= T::wire_len(),
        r matches Some(hdr) ==> hdr.bytes() == buf@.subrange(0, T::wire_len() as int),
{
    match ref_from_prefix(buf) {
        Some((hdr, _)) => Some(hdr),
        None => None,
    }
}

/// Like [`ref_from`] but also returns the bytes that follow the header, which
/// is convenient for peeling successive layers (eth -> ip -> tcp -> payload).
pub fn ref_from_prefix<T: Pod>(buf: &[u8]) -> (r: Option<(T, &[u8])>)
    ensures
        r is Some <==> buf@.len() >= T::wire_len(),
        r matches Some((hdr, tail)) ==> {
            &&& hdr.bytes() == buf@.subrange(0, T::wire_len() as int)
            &&& tail@ == buf@.subrange(T::wire_len() as int, buf@.len() as int)
        },
{
    let n: usize = T::size();
    if buf.len() < n {
        return None;
    }
    let (head, tail) = buf.split_at(n);
    Some((T::load(head), tail))
}

/// The header-sized window at the start of a mutable buffer: what is put into
/// it lands in the buffer it was taken from.
pub struct PodMut<'a> {
    pub window: &'a mut [u8],
}

impl<'a> PodMut<'a> {
    /// The header that the window currently holds.
    pub fn get<T: Pod>(&self) -> (r: T)
        requires
            self.window@.len() == T::wire_len(),
        ensures
            r.bytes() == old(self.window)@,
    {
        T::load(&*self.window)
    }

    /// Replace the header that the window holds.
    pub fn put<T: Pod>(self, hdr: &T)
        requires
            self.window@.len() == T::wire_len(),
        ensures
            final(self.window)@ == hdr.bytes(),
    {
        hdr.store(self.window);
    }
}

/// Take the start of `buf` as a writable window of the length of `T`. Returns
/// `None`, with `buf` unchanged, if `buf` is shorter than `T`.
pub fn mut_from<'a, T: Pod>(buf: &'a mut [u8]) -> (r: Option<PodMut<'a>>)
    ensures
        r is Some <==> old(buf)@.len() >= T::wire_len(),
        r is None ==> final(buf)@ == old(buf)@,
        r matches Some(hdr) ==> {
            &&& hdr.window@ == old(buf)@.subrange(0, T::wire_len() as int)
            &&& final(buf)@ == final(hdr.window)@ + old(buf)@.subrange(
                T::wire_len() as int,
                old(buf)@.len() as int,
            )
        },
{
    match mut_from_prefix::<T>(buf) {
        Some((hdr, _)) => Some(hdr),
        None => None,
    }
}

/// Take the start of `buf` as a writable window of the length of `T`, with the
/// bytes that follow it. Returns `None`, with `buf` unchanged, if `buf` is
/// shorter than `T`. What is put into the window, or written to the rest,
/// changes `buf` in place.
pub fn mut_from_prefix<'a, T: Pod>(buf: &'a mut [u8]) -> (r: Option<(PodMut<'a>, &'a mut [u8])>)
    ensures
        r is Some <==> old(buf)@.len() >= T::wire_len(),
        r is None ==> final(buf)@ == old(buf)@,
        r matches Some((hdr, tail)) ==> {
            &&& hdr.window@ == old(buf)@.subrange(0, T::wire_len() as int)
            &&& tail@ == old(buf)@.subrange(T::wire_len() as int, old(buf)@.len() as int)
            &&& final(buf)@ == final(hdr.window)@ + final(tail)@
        },
{
    let n: usize = T::size();
    if buf.len() < n {
        return None;
    }
    let (head, tail) = buf.split_at_mut(n);
    Some((PodMut { window: head }, tail))
}

} // verus!
