//! The outbound write buffer and the little-endian byte encodings used
//! by the wire format.
//!
//! The buffer is an append-only byte sink; the connection layer flushes
//! its contents to the network outside this library.

use vstd::prelude::*;

verus! {

/// Little-endian bytes of a `u16`.
pub open spec fn u16_le(v: u16) -> Seq<u8> {
    seq![(v & 0xff) as u8, ((v >> 8) & 0xff) as u8]
}

/// Little-endian bytes of a `u32`.
pub open spec fn u32_le(v: u32) -> Seq<u8> {
    seq![
        (v & 0xff) as u8,
        ((v >> 8) & 0xff) as u8,
        ((v >> 16) & 0xff) as u8,
        ((v >> 24) & 0xff) as u8,
    ]
}

/// Little-endian bytes of an `i32` in two's complement.
pub open spec fn i32_le(v: i32) -> Seq<u8> {
    u32_le(v as u32)
}

/// Little-endian bytes of a `u64`.
pub open spec fn u64_le(v: u64) -> Seq<u8> {
    seq![
        (v & 0xff) as u8,
        ((v >> 8) & 0xff) as u8,
        ((v >> 16) & 0xff) as u8,
        ((v >> 24) & 0xff) as u8,
        ((v >> 32) & 0xff) as u8,
        ((v >> 40) & 0xff) as u8,
        ((v >> 48) & 0xff) as u8,
        ((v >> 56) & 0xff) as u8,
    ]
}

/// An append-only byte buffer; its view is the bytes written so far.
pub struct WriteBuffer {
    data: Vec<u8>,
}

impl View for WriteBuffer {
    type V = Seq<u8>;

    closed spec fn view(&self) -> Seq<u8> {
        self.data@
    }
}

impl WriteBuffer {
    /// An empty buffer.
    pub fn new() -> (r: WriteBuffer)
        ensures
            r@ == Seq::<u8>::empty(),
    {
        let r = WriteBuffer { data: Vec::new() };
        proof {
            assert(r@ =~= Seq::<u8>::empty());
        }
        r
    }

    /// Bytes written so far.
    pub fn len(&self) -> (r: usize)
        ensures
            r == self@.len(),
    {
        self.data.len()
    }

    /// Borrows everything written so far.
    pub fn get_written(&self) -> (r: &Vec<u8>)
        ensures
            r@ == self@,
    {
        &self.data
    }

    /// Appends one byte.
    pub fn write_u8(&mut self, b: u8)
        ensures
            final(self)@ == old(self)@.push(b),
    {
        self.data.push(b);
    }

    /// Appends a whole byte vector.
    pub fn write_all(&mut self, bytes: &Vec<u8>)
        ensures
            final(self)@ == old(self)@ + bytes@,
    {
        let mut i: usize = 0;
        while i < bytes.len()
            invariant
                i <= bytes@.len(),
                self@ == old(self)@ + bytes@.take(i as int),
            decreases bytes@.len() - i,
        {
            let ghost pre = self@;
            self.data.push(bytes[i]);
            proof {
                assert(self@ =~= pre.push(bytes@[i as int]));
                assert(bytes@.take(i + 1) =~= bytes@.take(i as int).push(bytes@[i as int]));
                assert(self@ =~= old(self)@ + bytes@.take(i + 1));
            }
            i = i + 1;
        }
        proof {
            assert(bytes@.take(bytes@.len() as int) =~= bytes@);
        }
    }

    /// Appends a `u16`, low byte first.
    pub fn write_u16_le(&mut self, v: u16)
        ensures
            final(self)@ == old(self)@ + u16_le(v),
    {
        self.data.push((v & 0xff) as u8);
        self.data.push(((v >> 8) & 0xff) as u8);
        proof {
            assert(self@ =~= old(self)@ + u16_le(v));
        }
    }

    /// Appends a `u32`, low byte first.
    pub fn write_u32_le(&mut self, v: u32)
        ensures
            final(self)@ == old(self)@ + u32_le(v),
    {
        self.data.push((v & 0xff) as u8);
        self.data.push(((v >> 8) & 0xff) as u8);
        self.data.push(((v >> 16) & 0xff) as u8);
        self.data.push(((v >> 24) & 0xff) as u8);
        proof {
            assert(self@ =~= old(self)@ + u32_le(v));
        }
    }

    /// Appends an `i32` in two's complement, low byte first.
    pub fn write_i32_le(&mut self, v: i32)
        ensures
            final(self)@ == old(self)@ + i32_le(v),
    {
        self.write_u32_le(v as u32);
    }

    /// Appends a `u64`, low byte first.
    pub fn write_u64_le(&mut self, v: u64)
        ensures
            final(self)@ == old(self)@ + u64_le(v),
    {
        self.data.push((v & 0xff) as u8);
        self.data.push(((v >> 8) & 0xff) as u8);
        self.data.push(((v >> 16) & 0xff) as u8);
        self.data.push(((v >> 24) & 0xff) as u8);
        self.data.push(((v >> 32) & 0xff) as u8);
        self.data.push(((v >> 40) & 0xff) as u8);
        self.data.push(((v >> 48) & 0xff) as u8);
        self.data.push(((v >> 56) & 0xff) as u8);
        proof {
            assert(self@ =~= old(self)@ + u64_le(v));
        }
    }
}

} // verus!
