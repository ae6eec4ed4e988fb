//! Bounds-checked access to a packet buffer.

use vstd::prelude::*;

verus! {

/// A read that would reach past the end of the packet.
#[derive(Clone, Copy, Debug, PartialEq, Eq, Structural)]
pub struct OutOfBounds;

/// The byte window of one packet, as handed over by the receive path.
///
/// The window is borrowed for the length of one decision and never changed.
#[derive(Clone, Copy, Debug)]
pub struct RawPacket<'a> {
    bytes: &'a [u8],
}

impl<'a> View for RawPacket<'a> {
    type V = Seq<u8>;

    closed spec fn view(&self) -> Seq<u8> {
        self.bytes@
    }
}

/// True when `len` bytes starting at `offset` lie inside a buffer of `total` bytes.
pub open spec fn in_bounds(total: nat, offset: nat, len: nat) -> bool {
    offset + len <= total
}

impl<'a> RawPacket<'a> {
    /// Wraps a byte window.
    pub fn new(bytes: &'a [u8]) -> (packet: Self)
        ensures
            packet@ == bytes@,
    {
        RawPacket { bytes }
    }

    /// The number of bytes in the window.
    pub fn len(&self) -> (n: usize)
        ensures
            n == self@.len(),
    {
        self.bytes.len()
    }
}

/// Returns the `len` bytes at `offset`, or `OutOfBounds` when they do not all
/// lie inside the packet. The sum `offset + len` is formed without wrapping.
pub fn ptr_at<'a>(packet: &RawPacket<'a>, offset: usize, len: usize) -> (view: Result<
    &'a [u8],
    OutOfBounds,
>)
    ensures
        view is Ok <==> in_bounds(packet@.len(), offset as nat, len as nat),
        view matches Ok(bytes) ==> bytes@ == packet@.subrange(offset as int, offset + len),
{
    let total = packet.bytes.len();
    match offset.checked_add(len) {
        Some(end) => {
            if end <= total {
                Ok(&packet.bytes[offset..end])
            } else {
                Err(OutOfBounds)
            }
        },
        None => Err(OutOfBounds),
    }
}

} // verus!
