//! The bounded packet buffer: a fixed 512-byte array with a read/write
//! cursor.  Every operation checks its byte range against the capacity and
//! fails with `DnsError::OutOfBounds` rather than touch a byte outside it;
//! a multi-byte operation whose range does not fit leaves the buffer and
//! the cursor exactly as they were.
use vstd::prelude::*;

use crate::BUF_SIZE;
use crate::DnsError;
use crate::u16_of;
use crate::u32_of;
use crate::u16_bytes;
use crate::u32_bytes;
use crate::splice;

verus! {

/// A fixed-capacity byte buffer with a cursor.  The cursor may run past
/// the capacity (a skip over a long unrecognized record can push it
/// there); every read and write checks its own range.
pub struct PacketBuffer {
    pub buf: [u8; BUF_SIZE],
    pub pos: usize,
}

impl PacketBuffer {
    /// A zeroed buffer with the cursor at the start.
    pub fn new() -> (r: PacketBuffer)
        ensures
            r.buf@ == Seq::new(BUF_SIZE as nat, |i: int| 0u8),
            r.pos == 0,
    {
        let b = PacketBuffer { buf: [0; BUF_SIZE], pos: 0 };
        proof {
            assert(b.buf@ =~= Seq::new(BUF_SIZE as nat, |i: int| 0u8));
        }
        b
    }

    /// The current cursor offset.
    pub fn pos(&self) -> (r: usize)
        ensures
            r == self.pos,
    {
        self.pos
    }

    /// Move the cursor forward by `steps` offsets.
    pub fn step(&mut self, steps: usize) -> (r: Result<(), DnsError>)
        ensures
            final(self).buf@ == old(self).buf@,
            match r {
                Ok(()) => old(self).pos + steps <= usize::MAX
                    && final(self).pos == old(self).pos + steps,
                Err(e) => e == DnsError::OutOfBounds
                    && old(self).pos + steps > usize::MAX
                    && final(self).pos == old(self).pos,
            },
    {
        if steps > usize::MAX - self.pos {
            return Err(DnsError::OutOfBounds);
        }
        self.pos += steps;
        Ok(())
    }

    /// Move the cursor to an absolute offset.
    pub fn move_to_pos(&mut self, pos: usize) -> (r: Result<(), DnsError>)
        ensures
            r is Ok,
            final(self).pos == pos,
            final(self).buf@ == old(self).buf@,
    {
        self.pos = pos;
        Ok(())
    }

    /// Read the byte under the cursor and step one forward.
    pub fn read_u8(&mut self) -> (r: Result<u8, DnsError>)
        ensures
            final(self).buf@ == old(self).buf@,
            match r {
                Ok(v) => old(self).pos < BUF_SIZE
                    && v == old(self).buf@[old(self).pos as int]
                    && final(self).pos == old(self).pos + 1,
                Err(e) => e == DnsError::OutOfBounds
                    && old(self).pos >= BUF_SIZE
                    && final(self).pos == old(self).pos,
            },
    {
        if self.pos >= BUF_SIZE {
            return Err(DnsError::OutOfBounds);
        }
        let res = self.buf[self.pos];
        self.pos += 1;
        Ok(res)
    }

    /// Read the byte at an absolute offset without moving the cursor.
    pub fn get_u8(&mut self, pos: usize) -> (r: Result<u8, DnsError>)
        ensures
            *final(self) == *old(self),
            match r {
                Ok(v) => pos < BUF_SIZE && v == old(self).buf@[pos as int],
                Err(e) => e == DnsError::OutOfBounds && pos >= BUF_SIZE,
            },
    {
        if pos >= BUF_SIZE {
            return Err(DnsError::OutOfBounds);
        }
        Ok(self.buf[pos])
    }

    /// Borrow `len` bytes starting at an absolute offset, without moving
    /// the cursor.  The range may end exactly at the capacity; only a
    /// range that runs past it is refused.
    pub fn get_range(&mut self, start: usize, len: usize) -> (r: Result<&[u8], DnsError>)
        ensures
            *final(self) == *old(self),
            match r {
                Ok(bytes) => start + len <= BUF_SIZE
                    && bytes@ == old(self).buf@.subrange(start as int, start + len),
                Err(e) => e == DnsError::OutOfBounds && start + len > BUF_SIZE,
            },
    {
        if start > BUF_SIZE || len > BUF_SIZE || start + len > BUF_SIZE {
            return Err(DnsError::OutOfBounds);
        }
        Ok(vstd::slice::slice_subrange(self.buf.as_slice(), start, start + len))
    }

    /// Read two bytes as a big-endian 16-bit value, stepping two forward.
    pub fn read_u16(&mut self) -> (r: Result<u16, DnsError>)
        ensures
            final(self).buf@ == old(self).buf@,
            match r {
                Ok(v) => old(self).pos + 2 <= BUF_SIZE
                    && v == u16_of(
                        old(self).buf@[old(self).pos as int],
                        old(self).buf@[old(self).pos + 1],
                    )
                    && final(self).pos == old(self).pos + 2,
                Err(e) => e == DnsError::OutOfBounds
                    && old(self).pos + 2 > BUF_SIZE
                    && final(self).pos == old(self).pos,
            },
    {
        if self.pos > BUF_SIZE - 2 {
            return Err(DnsError::OutOfBounds);
        }
        let hi = self.read_u8()?;
        let lo = self.read_u8()?;
        Ok((hi as u16) * 256 + (lo as u16))
    }

    /// Read four bytes as a big-endian 32-bit value, stepping four forward.
    pub fn read_u32(&mut self) -> (r: Result<u32, DnsError>)
        ensures
            final(self).buf@ == old(self).buf@,
            match r {
                Ok(v) => old(self).pos + 4 <= BUF_SIZE
                    && v == u32_of(
                        old(self).buf@[old(self).pos as int],
                        old(self).buf@[old(self).pos + 1],
                        old(self).buf@[old(self).pos + 2],
                        old(self).buf@[old(self).pos + 3],
                    )
                    && final(self).pos == old(self).pos + 4,
                Err(e) => e == DnsError::OutOfBounds
                    && old(self).pos + 4 > BUF_SIZE
                    && final(self).pos == old(self).pos,
            },
    {
        if self.pos > BUF_SIZE - 4 {
            return Err(DnsError::OutOfBounds);
        }
        let b0 = self.read_u8()?;
        let b1 = self.read_u8()?;
        let b2 = self.read_u8()?;
        let b3 = self.read_u8()?;
        Ok((b0 as u32) * 0x1000000 + (b1 as u32) * 0x10000 + (b2 as u32) * 256 + (b3 as u32))
    }

    /// Write one byte at the cursor and step one forward.
    pub fn write(&mut self, val: u8) -> (r: Result<(), DnsError>)
        ensures
            match r {
                Ok(()) => old(self).pos < BUF_SIZE
                    && final(self).buf@ == old(self).buf@.update(old(self).pos as int, val)
                    && final(self).pos == old(self).pos + 1,
                Err(e) => e == DnsError::OutOfBounds
                    && old(self).pos >= BUF_SIZE
                    && *final(self) == *old(self),
            },
    {
        if self.pos >= BUF_SIZE {
            return Err(DnsError::OutOfBounds);
        }
        self.buf[self.pos] = val;
        self.pos += 1;
        Ok(())
    }

    /// Write one byte at the cursor; same contract as `write`.
    pub fn write_u8(&mut self, val: u8) -> (r: Result<(), DnsError>)
        ensures
            match r {
                Ok(()) => old(self).pos < BUF_SIZE
                    && final(self).buf@ == old(self).buf@.update(old(self).pos as int, val)
                    && final(self).pos == old(self).pos + 1,
                Err(e) => e == DnsError::OutOfBounds
                    && old(self).pos >= BUF_SIZE
                    && *final(self) == *old(self),
            },
    {
        self.write(val)?;
        Ok(())
    }

    /// Write a 16-bit value as two big-endian bytes at the cursor.
    pub fn write_u16(&mut self, val: u16) -> (r: Result<(), DnsError>)
        ensures
            match r {
                Ok(()) => old(self).pos + 2 <= BUF_SIZE
                    && final(self).buf@ == splice(old(self).buf@, old(self).pos as int, u16_bytes(val))
                    && final(self).pos == old(self).pos + 2,
                Err(e) => e == DnsError::OutOfBounds
                    && old(self).pos + 2 > BUF_SIZE
                    && *final(self) == *old(self),
            },
    {
        if self.pos > BUF_SIZE - 2 {
            return Err(DnsError::OutOfBounds);
        }
        let ghost start = self.pos as int;
        let ghost buf0 = self.buf@;
        self.write((val / 256) as u8)?;
        self.write((val % 256) as u8)?;
        proof {
            assert(self.buf@ =~= splice(buf0, start, u16_bytes(val)));
        }
        Ok(())
    }

    /// Write a 32-bit value as four big-endian bytes at the cursor.
    pub fn write_u32(&mut self, val: u32) -> (r: Result<(), DnsError>)
        ensures
            match r {
                Ok(()) => old(self).pos + 4 <= BUF_SIZE
                    && final(self).buf@ == splice(old(self).buf@, old(self).pos as int, u32_bytes(val))
                    && final(self).pos == old(self).pos + 4,
                Err(e) => e == DnsError::OutOfBounds
                    && old(self).pos + 4 > BUF_SIZE
                    && *final(self) == *old(self),
            },
    {
        if self.pos > BUF_SIZE - 4 {
            return Err(DnsError::OutOfBounds);
        }
        let ghost start = self.pos as int;
        let ghost buf0 = self.buf@;
        self.write((val / 0x1000000) as u8)?;
        self.write(((val / 0x10000) % 256) as u8)?;
        self.write(((val / 256) % 256) as u8)?;
        self.write((val % 256) as u8)?;
        proof {
            assert(self.buf@ =~= splice(buf0, start, u32_bytes(val)));
        }
        Ok(())
    }

    /// Overwrite the byte at an already-written absolute offset without
    /// moving the cursor.
    pub fn set_u8(&mut self, pos: usize, val: u8) -> (r: Result<(), DnsError>)
        ensures
            final(self).pos == old(self).pos,
            match r {
                Ok(()) => pos < BUF_SIZE
                    && final(self).buf@ == old(self).buf@.update(pos as int, val),
                Err(e) => e == DnsError::OutOfBounds
                    && pos >= BUF_SIZE
                    && final(self).buf@ == old(self).buf@,
            },
    {
        if pos >= BUF_SIZE {
            return Err(DnsError::OutOfBounds);
        }
        self.buf[pos] = val;
        Ok(())
    }

    /// Overwrite two bytes at an already-written absolute offset with a
    /// big-endian 16-bit value, without moving the cursor.  Used to patch
    /// a record-length field once the record body has been written.
    pub fn set_u16(&mut self, pos: usize, val: u16) -> (r: Result<(), DnsError>)
        ensures
            final(self).pos == old(self).pos,
            match r {
                Ok(()) => pos + 1 < BUF_SIZE
                    && final(self).buf@ == splice(old(self).buf@, pos as int, u16_bytes(val)),
                Err(e) => e == DnsError::OutOfBounds
                    && pos + 1 >= BUF_SIZE
                    && final(self).buf@ == old(self).buf@,
            },
    {
        if pos >= BUF_SIZE - 1 {
            return Err(DnsError::OutOfBounds);
        }
        let ghost buf0 = self.buf@;
        self.set_u8(pos, (val / 256) as u8)?;
        self.set_u8(pos + 1, (val % 256) as u8)?;
        proof {
            assert(self.buf@ =~= splice(buf0, pos as int, u16_bytes(val)));
        }
        Ok(())
    }
}

} // verus!
