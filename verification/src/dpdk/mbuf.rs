//! A packet buffer: the bytes of one packet and the room it has to grow in.
//!
//! This type does NOT implement Clone: a buffer is a unique resource that is
//! moved from the port it was received on to the queue or port it leaves
//! through, and is given back when it is dropped.
//!
//! The byte slices returned by [`Mbuf::data`] / [`Mbuf::data_mut`] borrow
//! directly into the buffer. Read and edit them in place with the header views
//! in [`crate::net`].

use crate::net::view;
use crate::net::view::EthernetView;
use crate::net::wire::{mut_from, Pod, PodMut};
use vstd::prelude::*;

verus! {

/// One packet.
pub struct Mbuf {
    pub bytes: Vec<u8>,
    /// How many bytes the buffer can hold.
    pub room: usize,
}

impl View for Mbuf {
    /// The bytes of the packet.
    type V = Seq<u8>;

    open spec fn view(&self) -> Seq<u8> {
        self.bytes@
    }
}

impl Mbuf {
    /// An empty buffer with room for `room` bytes.
    pub fn with_room(room: usize) -> (r: Self)
        ensures
            r@ == Seq::<u8>::empty(),
            r.room == room,
    {
        Mbuf { bytes: Vec::new(), room }
    }

    /// A buffer that holds `bytes` and has no room for more.
    pub fn from_bytes(bytes: Vec<u8>) -> (r: Self)
        ensures
            r@ == bytes@,
            r.room == bytes@.len(),
    {
        let room: usize = bytes.len();
        Mbuf { bytes, room }
    }

    /// Length of the data, in bytes.
    pub fn data_len(&self) -> (r: usize)
        ensures
            r == self@.len(),
    {
        self.bytes.len()
    }

    /// Total length of the packet, in bytes. A packet is one segment.
    pub fn pkt_len(&self) -> (r: usize)
        ensures
            r == self@.len(),
    {
        self.bytes.len()
    }

    /// Immutable view of the data.
    pub fn data(&self) -> (r: &[u8])
        ensures
            r@ == self@,
    {
        self.bytes.as_slice()
    }

    /// Mutable view of the data. Edits land in the packet buffer.
    pub fn data_mut(&mut self) -> (r: &mut [u8])
        ensures
            r@ == old(self)@,
            final(self)@ == final(r)@,
            final(self).room == old(self).room,
    {
        self.bytes.as_mut_slice()
    }

    /// Interpret the packet as an Ethernet frame: the entry point for the
    /// layered views in [`crate::net::view`]. From the returned view you can
    /// descend: `eth.ipv4()?.udp()?.dns()`, `eth.arp()`, etc. Returns `None`
    /// if there aren't enough bytes for an Ethernet header.
    pub fn ethernet(&self) -> (r: Option<EthernetView<'_>>)
        ensures
            r is Some <==> view::ethernet_layout(self@, 0) is Some,
            r matches Some(v) ==> v.wf() && v.buf@ == self@ && v.start == 0,
    {
        EthernetView::parse(self.data())
    }

    /// A window on the header of type `T` at byte `offset` for in-place
    /// editing; `None`, with the packet unchanged, if the packet is too short.
    ///
    /// Pair it with a view's `header_offset()` to edit a layer you located via
    /// [`Self::ethernet`].
    pub fn header_at_mut<T: Pod>(&mut self, offset: usize) -> (r: Option<PodMut<'_>>)
        ensures
            r is Some <==> offset + T::wire_len() <= old(self)@.len(),
            r is None ==> final(self)@ == old(self)@,
            r matches Some(hdr) ==> {
                &&& hdr.window@ == old(self)@.subrange(offset as int, offset + T::wire_len())
                &&& final(self)@ == old(self)@.subrange(0, offset as int) + final(hdr.window)@
                    + old(self)@.subrange(offset + T::wire_len(), old(self)@.len() as int)
            },
            final(self).room == old(self).room,
    {
        let ghost before = self@;
        if offset > self.bytes.len() {
            return None;
        }
        let (head, tail) = self.bytes.as_mut_slice().split_at_mut(offset);
        let ghost rest = tail@;
        let r = mut_from::<T>(tail);
        proof {
            let n = T::wire_len() as int;
            if n <= rest.len() {
                assert(rest.subrange(0, n) =~= before.subrange(offset as int, offset + n));
                assert(rest.subrange(n, rest.len() as int) =~= before.subrange(
                    offset + n,
                    before.len() as int,
                ));
            }
        }
        r
    }

    /// Append `len` zero bytes to the tail of the packet and return a mutable
    /// slice over them, or `None` if there isn't enough tailroom. Useful when
    /// building a packet to transmit.
    pub fn append(&mut self, len: u16) -> (r: Option<&mut [u8]>)
        ensures
            r is Some <==> old(self)@.len() + len <= old(self).room,
            r is None ==> final(self)@ == old(self)@,
            r matches Some(tail) ==> {
                &&& tail@ == Seq::new(len as nat, |i: int| 0u8)
                &&& final(self)@ == old(self)@ + final(tail)@
            },
            final(self).room == old(self).room,
    {
        let n: usize = self.bytes.len();
        if n > self.room || self.room - n < len as usize {
            return None;
        }
        let ghost before = self@;
        let mut i: u16 = 0;
        while i < len
            invariant
                i <= len,
                before.len() == n,
                self.room == old(self).room,
                self@ == before + Seq::new(i as nat, |j: int| 0u8),
            decreases len - i,
        {
            self.bytes.push(0);
            i = i + 1;
            assert(self@ =~= before + Seq::new(i as nat, |j: int| 0u8));
        }
        let (head, tail) = self.bytes.as_mut_slice().split_at_mut(n);
        assert(head@ =~= before);
        assert(tail@ =~= Seq::new(len as nat, |j: int| 0u8));
        Some(tail)
    }
}

} // verus!
