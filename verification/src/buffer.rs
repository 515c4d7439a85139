//! The packet buffer: 512 bytes and a cursor, read and written in sequence
//! or at a given place.

use crate::error::BytePacketBufferError;
use vstd::prelude::*;

verus! {

/// Size in bytes of every packet buffer.
pub const MAX_BUFFER_SIZE: usize = 512;

/// A fixed 512-byte region with a cursor.
#[derive(Debug)]
pub struct BytePacketBuffer {
    pub buffer: [u8; 512],
    pub position: usize,
}

/// `bytes` with `data` laid over it from index `at` on, as far as it fits.
#[verifier::opaque]
pub open spec fn stored(bytes: Seq<u8>, at: int, data: Seq<u8>) -> Seq<u8> {
    Seq::new(
        bytes.len(),
        |i: int|
            if at <= i < at + data.len() {
                data[i - at]
            } else {
                bytes[i]
            },
    )
}

/// The mathematical content of a [`BytePacketBuffer`]: its 512 bytes and
/// the place of its cursor.
pub struct BufferState {
    pub bytes: Seq<u8>,
    pub position: int,
}

impl BufferState {
    /// Whether `n` more bytes can be read or written at the cursor, one by
    /// one. Asking for no byte at all never fails.
    pub open spec fn fits(self, n: int) -> bool {
        n <= 0 || self.position + n <= 512
    }

    /// The cursor after `n` bytes were asked for one by one: it stops at the
    /// end of the buffer when they do not all fit.
    pub open spec fn advanced(self, n: int) -> int {
        if self.position + n <= 512 {
            self.position + n
        } else if self.position <= 512 {
            512
        } else {
            self.position
        }
    }

    /// The state after `data` was written byte by byte at the cursor; bytes
    /// that do not fit are dropped.
    pub open spec fn write(self, data: Seq<u8>) -> BufferState {
        BufferState {
            bytes: stored(self.bytes, self.position, data),
            position: self.advanced(data.len() as int),
        }
    }

    /// The same buffer with its cursor at `position`.
    pub open spec fn at(self, position: int) -> BufferState {
        BufferState { bytes: self.bytes, position }
    }

    /// The state after `n` bytes were read one by one at the cursor.
    pub open spec fn skip(self, n: int) -> BufferState {
        BufferState { bytes: self.bytes, position: self.advanced(n) }
    }
}

/// The 16-bit number whose big-endian form starts at index `at` of `bytes`.
pub open spec fn word16(bytes: Seq<u8>, at: int) -> u16 {
    (bytes[at] as int * 0x100 + bytes[at + 1] as int) as u16
}

/// The 32-bit number whose big-endian form starts at index `at` of `bytes`.
pub open spec fn word32(bytes: Seq<u8>, at: int) -> u32 {
    (bytes[at] as int * 0x100_0000 + bytes[at + 1] as int * 0x1_0000 + bytes[at + 2] as int * 0x100
        + bytes[at + 3] as int) as u32
}

/// The two bytes of `value`, most significant first.
pub open spec fn u16_bytes(value: u16) -> Seq<u8> {
    seq![(value / 0x100) as u8, (value % 0x100) as u8]
}

/// The four bytes of `value`, most significant first.
pub open spec fn u32_bytes(value: u32) -> Seq<u8> {
    seq![
        (value / 0x100_0000) as u8,
        (value / 0x1_0000 % 0x100) as u8,
        (value / 0x100 % 0x100) as u8,
        (value % 0x100) as u8,
    ]
}

/// What `stored` holds at each index.
pub proof fn lemma_stored(bytes: Seq<u8>, at: int, data: Seq<u8>)
    ensures
        stored(bytes, at, data).len() == bytes.len(),
        forall|i: int|
            0 <= i < bytes.len() ==> #[trigger] stored(bytes, at, data)[i] == if at <= i < at
                + data.len() {
                data[i - at]
            } else {
                bytes[i]
            },
{
    reveal(stored);
}

/// Writing `a` and then `b` is writing `a + b`, whether or not they fit;
/// and once `a` does not fit, what is written after it changes nothing.
pub proof fn lemma_write_write(st: BufferState, a: Seq<u8>, b: Seq<u8>)
    requires
        st.bytes.len() == 512,
        0 <= st.position,
    ensures
        st.write(a).write(b) == st.write(a + b),
        !st.fits(a.len() as int) ==> st.write(a) == st.write(a + b),
        st.fits((a + b).len() as int) ==> st.fits(a.len() as int) && st.write(a).fits(
            b.len() as int,
        ),
        st.fits(a.len() as int) ==> (st.write(a).fits(b.len() as int) <==> st.fits(
            (a + b).len() as int,
        )),
        st.write(a).bytes.len() == 512,
{
    reveal(stored);
    assert(st.write(a).write(b).bytes =~= st.write(a + b).bytes);
    if !st.fits(a.len() as int) {
        assert(st.write(a).bytes =~= st.write(a + b).bytes);
    }
}

/// Writing nothing changes nothing.
pub proof fn lemma_write_empty(st: BufferState)
    requires
        st.bytes.len() == 512,
        0 <= st.position,
    ensures
        st.write(Seq::<u8>::empty()) == st,
{
    reveal(stored);
    assert(st.write(Seq::<u8>::empty()).bytes =~= st.bytes);
}

impl View for BytePacketBuffer {
    type V = BufferState;

    open spec fn view(&self) -> BufferState {
        BufferState { bytes: self.buffer@, position: self.position as int }
    }
}

impl Default for BytePacketBuffer {
    fn default() -> (r: Self)
        ensures
            r@.position == 0,
            r@.bytes == Seq::new(512, |i: int| 0u8),
    {
        BytePacketBuffer { buffer: [0u8; 512], position: 0 }
    }
}

impl BytePacketBuffer {
    /// An all-zero buffer with the cursor at its start.
    pub fn new() -> (r: Self)
        ensures
            r@.position == 0,
            r@.bytes == Seq::new(512, |i: int| 0u8),
    {
        Self::default()
    }

    /// Moves the cursor forward by `steps`, without any bounds check.
    pub fn step(&mut self, steps: usize) -> (r: Result<(), BytePacketBufferError>)
        requires
            old(self).position + steps <= usize::MAX,
        ensures
            r is Ok,
            final(self).buffer == old(self).buffer,
            final(self).position == old(self).position + steps,
    {
        self.position += steps;
        Ok(())
    }

    /// Reads the byte under the cursor and moves the cursor past it.
    pub fn read(&mut self) -> (r: Result<u8, BytePacketBufferError>)
        ensures
            final(self)@ == old(self)@.skip(1),
            r == if old(self)@.fits(1) {
                Ok::<u8, BytePacketBufferError>(old(self)@.bytes[old(self)@.position])
            } else {
                Err(BytePacketBufferError::EndOfBuffer)
            },
    {
        if self.position >= MAX_BUFFER_SIZE {
            return Err(BytePacketBufferError::EndOfBuffer);
        }
        let result = self.buffer[self.position];
        self.position += 1;
        Ok(result)
    }

    /// Reads the byte at `position`, leaving the cursor where it is.
    pub fn get(&mut self, position: usize) -> (r: Result<u8, BytePacketBufferError>)
        ensures
            *final(self) == *old(self),
            r == if position < 512 {
                Ok::<u8, BytePacketBufferError>(old(self)@.bytes[position as int])
            } else {
                Err(BytePacketBufferError::EndOfBuffer)
            },
    {
        if position >= MAX_BUFFER_SIZE {
            return Err(BytePacketBufferError::EndOfBuffer);
        }
        Ok(self.buffer[position])
    }

    /// Borrows the `len` bytes that start at `start`, leaving the cursor
    /// where it is. The range has to end before the last byte of the buffer.
    pub fn get_range(&mut self, start: usize, len: usize) -> (r: Result<&[u8], BytePacketBufferError>)
        ensures
            *final(self) == *old(self),
            start + len >= 512 <==> r == Err::<&[u8], BytePacketBufferError>(BytePacketBufferError::EndOfBuffer),
            start + len < 512 ==> r is Ok && r->Ok_0@ == old(self)@.bytes.subrange(start as int, start + len),
    {
        if start >= MAX_BUFFER_SIZE || len >= MAX_BUFFER_SIZE - start {
            return Err(BytePacketBufferError::EndOfBuffer);
        }
        Ok(vstd::slice::slice_subrange(self.buffer.as_slice(), start, start + len))
    }

    /// Writes one byte under the cursor and moves the cursor past it.
    pub fn write(&mut self, value: u8) -> (r: Result<(), BytePacketBufferError>)
        ensures
            final(self)@ == old(self)@.write(seq![value]),
            r == if old(self)@.fits(1) {
                Ok::<(), BytePacketBufferError>(())
            } else {
                Err(BytePacketBufferError::EndOfBuffer)
            },
    {
        proof {
            reveal(stored);
        }
        if self.position >= MAX_BUFFER_SIZE {
            assert(self@.write(seq![value]).bytes =~= self@.bytes);
            return Err(BytePacketBufferError::EndOfBuffer);
        }
        self.buffer[self.position] = value;
        self.position += 1;
        assert(self@.bytes =~= old(self)@.write(seq![value]).bytes);
        Ok(())
    }

    /// Moves the cursor to `position`, without any bounds check.
    pub fn seek(&mut self, position: usize) -> (r: Result<(), BytePacketBufferError>)
        ensures
            r is Ok,
            final(self).buffer == old(self).buffer,
            final(self).position == position,
    {
        self.position = position;
        Ok(())
    }

    /// Reads a big-endian 16-bit number at the cursor.
    pub fn read_u16(&mut self) -> (r: Result<u16, BytePacketBufferError>)
        ensures
            final(self)@ == old(self)@.skip(2),
            r == if old(self)@.fits(2) {
                Ok::<u16, BytePacketBufferError>(word16(old(self)@.bytes, old(self)@.position))
            } else {
                Err(BytePacketBufferError::EndOfBuffer)
            },
    {
        let hi = self.read()?;
        let lo = self.read()?;
        assert(((hi as u16) << 8) | (lo as u16) == (hi as u16) * 0x100 + (lo as u16))
            by (bit_vector);
        Ok(((hi as u16) << 8) | (lo as u16))
    }

    /// Reads a big-endian 32-bit number at the cursor.
    pub fn read_u32(&mut self) -> (r: Result<u32, BytePacketBufferError>)
        ensures
            final(self)@ == old(self)@.skip(4),
            r == if old(self)@.fits(4) {
                Ok::<u32, BytePacketBufferError>(word32(old(self)@.bytes, old(self)@.position))
            } else {
                Err(BytePacketBufferError::EndOfBuffer)
            },
    {
        let b0 = self.read()?;
        let b1 = self.read()?;
        let b2 = self.read()?;
        let b3 = self.read()?;
        assert(((b0 as u32) << 24) | ((b1 as u32) << 16) | ((b2 as u32) << 8) | (b3 as u32) == (
        b0 as u32) * 0x100_0000 + (b1 as u32) * 0x1_0000 + (b2 as u32) * 0x100 + (b3 as u32))
            by (bit_vector);
        Ok(((b0 as u32) << 24) | ((b1 as u32) << 16) | ((b2 as u32) << 8) | (b3 as u32))
    }

    /// Writes one byte at the cursor.
    pub fn write_u8(&mut self, value: u8) -> (r: Result<(), BytePacketBufferError>)
        ensures
            final(self)@ == old(self)@.write(seq![value]),
            r == if old(self)@.fits(1) {
                Ok::<(), BytePacketBufferError>(())
            } else {
                Err(BytePacketBufferError::EndOfBuffer)
            },
    {
        self.write(value)?;
        Ok(())
    }

    /// Writes `value` at the cursor, most significant byte first.
    pub fn write_u16(&mut self, value: u16) -> (r: Result<(), BytePacketBufferError>)
        ensures
            final(self)@ == old(self)@.write(u16_bytes(value)),
            r == if old(self)@.fits(2) {
                Ok::<(), BytePacketBufferError>(())
            } else {
                Err(BytePacketBufferError::EndOfBuffer)
            },
    {
        proof {
            assert((value >> 8) == value / 0x100 && (value & 0xFF) == value % 0x100
                && value / 0x100 < 0x100) by (bit_vector);
            lemma_write_write(self@, seq![(value / 0x100) as u8], seq![(value % 0x100) as u8]);
            assert(seq![(value / 0x100) as u8] + seq![(value % 0x100) as u8] =~= u16_bytes(value));
        }
        self.write((value >> 8) as u8)?;
        self.write((value & 0xFF) as u8)?;
        Ok(())
    }

    /// Writes `value` at the cursor, most significant byte first.
    pub fn write_u32(&mut self, value: u32) -> (r: Result<(), BytePacketBufferError>)
        ensures
            final(self)@ == old(self)@.write(u32_bytes(value)),
            r == if old(self)@.fits(4) {
                Ok::<(), BytePacketBufferError>(())
            } else {
                Err(BytePacketBufferError::EndOfBuffer)
            },
    {
        proof {
            assert(((value >> 24) & 0xFF) == value / 0x100_0000 && ((value >> 16) & 0xFF) == value
                / 0x1_0000 % 0x100 && ((value >> 8) & 0xFF) == value / 0x100 % 0x100 && (value
                & 0xFF) == value % 0x100 && value / 0x100_0000 < 0x100) by (bit_vector);
            let b0 = seq![(value / 0x100_0000) as u8];
            let b1 = seq![(value / 0x1_0000 % 0x100) as u8];
            let b2 = seq![(value / 0x100 % 0x100) as u8];
            let b3 = seq![(value % 0x100) as u8];
            lemma_write_write(self@, b0, b1);
            lemma_write_write(self@, b0 + b1, b2);
            lemma_write_write(self@, b0 + b1 + b2, b3);
            assert(b0 + b1 + b2 + b3 =~= u32_bytes(value));
        }
        self.write(((value >> 24) & 0xFF) as u8)?;
        self.write(((value >> 16) & 0xFF) as u8)?;
        self.write(((value >> 8) & 0xFF) as u8)?;
        self.write((value & 0xFF) as u8)?;
        Ok(())
    }

    /// Overwrites the byte at `position`, leaving the cursor where it is.
    pub fn set(&mut self, position: usize, value: u8) -> (r: Result<(), BytePacketBufferError>)
        requires
            position < 512,
        ensures
            r is Ok,
            final(self)@.bytes == old(self)@.bytes.update(position as int, value),
            final(self).position == old(self).position,
    {
        self.buffer[position] = value;
        assert(self@.bytes =~= old(self)@.bytes.update(position as int, value));
        Ok(())
    }

    /// Overwrites the two bytes at `position` with `value`, most significant
    /// byte first, leaving the cursor where it is.
    pub fn set_u16(&mut self, position: usize, value: u16) -> (r: Result<(), BytePacketBufferError>)
        requires
            position + 1 < 512,
        ensures
            r is Ok,
            final(self)@.bytes == old(self)@.bytes.update(position as int, u16_bytes(value)[0]).update(
                position + 1,
                u16_bytes(value)[1],
            ),
            final(self).position == old(self).position,
    {
        proof {
            assert((value >> 8) == value / 0x100 && (value & 0xFF) == value % 0x100
                && value / 0x100 < 0x100) by (bit_vector);
        }
        self.set(position, (value >> 8) as u8)?;
        self.set(position + 1, (value & 0xFF) as u8)?;
        Ok(())
    }
}

} // verus!
