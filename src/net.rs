//! Fixed-size Ethernet frame buffers.

use vstd::prelude::*;

verus! {

/// Size of a frame buffer, in bytes.
pub const USPI_FRAME_BUFFER_SIZE: u32 = 1600;

/// A fixed-size buffer with a current length.
pub struct Frame {
    buf: Vec<u8>,
    len: u32,
}

impl Frame {
    /// All the bytes of the buffer.
    pub closed spec fn bytes(&self) -> Seq<u8> {
        self.buf@
    }

    /// The current length.
    pub closed spec fn length(&self) -> u32 {
        self.len
    }

    pub open spec fn wf(&self) -> bool {
        &&& self.bytes().len() == USPI_FRAME_BUFFER_SIZE
        &&& self.length() <= USPI_FRAME_BUFFER_SIZE
    }

    /// A zeroed buffer whose length is the whole buffer.
    pub fn new() -> (r: Frame)
        ensures
            r.wf(),
            r.length() == USPI_FRAME_BUFFER_SIZE,
            forall|i: int| 0 <= i < USPI_FRAME_BUFFER_SIZE ==> r.bytes()[i] == 0,
    {
        let mut buf: Vec<u8> = Vec::new();
        let mut i: u32 = 0;
        while i < USPI_FRAME_BUFFER_SIZE
            invariant
                i <= USPI_FRAME_BUFFER_SIZE,
                buf@.len() == i,
                forall|j: int| 0 <= j < i ==> buf@[j] == 0,
            decreases USPI_FRAME_BUFFER_SIZE - i,
        {
            buf.push(0);
            i = i + 1;
        }
        Frame { buf, len: USPI_FRAME_BUFFER_SIZE }
    }

    pub fn len(&self) -> (r: u32)
        ensures
            r == self.length(),
    {
        self.len
    }

    /// Sets the length, which must fit the buffer.
    pub fn set_len(&mut self, len: u32)
        requires
            len <= USPI_FRAME_BUFFER_SIZE,
        ensures
            final(self).length() == len,
            final(self).bytes() == old(self).bytes(),
    {
        self.len = len;
    }

    /// The first `len()` bytes.
    pub fn as_slice(&self) -> (r: &[u8])
        requires
            self.wf(),
        ensures
            r@ == self.bytes().subrange(0, self.length() as int),
    {
        let (head, _) = self.buf.as_slice().split_at(self.len as usize);
        head
    }
}

} // verus!
