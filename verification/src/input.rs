//! The bytes that have arrived from the server.
use vstd::prelude::*;

verus! {

/// Why reading a value from the input came to a stop.
#[derive(Debug, Clone, Copy, PartialEq, Eq, Structural)]
pub enum Stop {
    /// The input ends before the value does.
    Short,
    /// The input holds something that the format does not have.
    Invalid,
    /// The value cannot be worked out: a color is taken from beyond the end of
    /// its palette, or a pixel format or position is out of range.
    Fault,
}

/// What reading a value comes to: the value and the bytes behind it, or a stop.
pub enum Parse<T> {
    Done(T, Seq<u8>),
    Stopped(Stop),
}

/// The number that two bytes stand for, the high byte first.
pub open spec fn be_u16(bytes: Seq<u8>) -> int {
    bytes[0] * 0x100 + bytes[1]
}

/// The number that four bytes stand for, the high byte first.
pub open spec fn be_u32(bytes: Seq<u8>) -> int {
    bytes[0] * 0x1000000 + bytes[1] * 0x10000 + bytes[2] * 0x100 + bytes[3]
}

/// Puts two bytes together, the high byte first.
pub fn join_u16(high: u8, low: u8) -> (joined: u16)
    ensures
        joined == high * 0x100 + low,
{
    assert((high as u16) << 8 | low as u16 == high * 0x100 + low) by (bit_vector);
    (high as u16) << 8 | low as u16
}

/// Puts four bytes together, the high byte first.
pub fn join_u32(b0: u8, b1: u8, b2: u8, b3: u8) -> (joined: u32)
    ensures
        joined == b0 * 0x1000000 + b1 * 0x10000 + b2 * 0x100 + b3,
{
    assert((b0 as u32) << 24 | (b1 as u32) << 16 | (b2 as u32) << 8 | b3 as u32 == b0 * 0x1000000
        + b1 * 0x10000 + b2 * 0x100 + b3) by (bit_vector);
    (b0 as u32) << 24 | (b1 as u32) << 16 | (b2 as u32) << 8 | b3 as u32
}

/// A buffer of bytes that is read from the front. Reading more than there is uses up all
/// that there is.
pub struct ByteReader {
    data: Vec<u8>,
    pos: usize,
    ended: bool,
}

impl ByteReader {
    #[verifier::type_invariant]
    spec fn in_bounds(self) -> bool {
        self.pos <= self.data@.len()
    }

    /// All bytes of the buffer, those that have been read too.
    pub closed spec fn bytes(&self) -> Seq<u8> {
        self.data@
    }

    /// How many bytes have been read.
    pub closed spec fn offset(&self) -> int {
        self.pos as int
    }

    /// The bytes that are still to be read.
    pub open spec fn remaining(&self) -> Seq<u8> {
        self.bytes().skip(self.offset())
    }

    /// Whether no more bytes will arrive.
    pub closed spec fn ended(&self) -> bool {
        self.ended
    }

    /// Whether `self` is `before` with nothing but the reading position changed.
    pub open spec fn same_buffer(&self, before: &ByteReader) -> bool {
        self.bytes() == before.bytes() && self.ended() == before.ended()
    }

    pub fn new(data: Vec<u8>) -> (reader: ByteReader)
        ensures
            reader.bytes() == data@,
            reader.offset() == 0,
            reader.remaining() == data@,
            !reader.ended(),
    {
        let reader = ByteReader { data, pos: 0, ended: false };
        assert(reader.remaining() =~= data@);
        reader
    }

    /// The place that has been reached, to come back to.
    pub fn position(&self) -> (mark: usize)
        ensures
            mark == self.offset(),
            mark <= self.bytes().len(),
    {
        proof {
            use_type_invariant(self);
        }
        self.pos
    }

    /// Goes to a place that was reached before.
    pub fn rewind(&mut self, mark: usize)
        requires
            mark <= old(self).bytes().len(),
        ensures
            final(self).same_buffer(old(self)),
            final(self).offset() == mark,
            final(self).remaining() == old(self).bytes().skip(mark as int),
    {
        self.pos = mark;
    }

    /// How many bytes are still to be read.
    pub fn left(&self) -> (count: usize)
        ensures
            count == self.remaining().len(),
    {
        proof {
            use_type_invariant(self);
        }
        self.data.len() - self.pos
    }

    /// Puts bytes that have just arrived behind those that are there, and lets
    /// go of those that have been read.
    pub fn feed(&mut self, more: &[u8])
        ensures
            final(self).remaining() == old(self).remaining() + more@,
            final(self).offset() == 0,
            final(self).ended() == old(self).ended(),
    {
        let ended: bool = self.ended;
        let mut data: Vec<u8> = Vec::new();
        proof {
            use_type_invariant(&*self);
        }
        data.extend_from_slice(&self.data[self.pos..self.data.len()]);
        data.extend_from_slice(more);
        assert(data@ =~= self.remaining() + more@);
        *self = ByteReader::new(data);
        self.ended = ended;
    }

    /// Takes note that no more bytes will arrive.
    pub fn end(&mut self)
        ensures
            final(self).bytes() == old(self).bytes(),
            final(self).offset() == old(self).offset(),
            final(self).ended(),
    {
        proof {
            use_type_invariant(&*self);
        }
        self.ended = true;
    }

    /// Says whether no more bytes will arrive.
    pub fn has_ended(&self) -> (ended: bool)
        ensures
            ended == self.ended(),
    {
        self.ended
    }

    /// Passes over all bytes that are still to be read.
    fn use_up(&mut self)
        ensures
            final(self).same_buffer(old(self)),
            final(self).remaining() == Seq::<u8>::empty(),
    {
        self.pos = self.data.len();
        assert(self.remaining() =~= Seq::<u8>::empty());
    }

    /// Reads one byte.
    pub fn read_u8(&mut self) -> (byte: Result<u8, Stop>)
        ensures
            final(self).same_buffer(old(self)),
            old(self).remaining().len() < 1 ==> byte == Err::<u8, Stop>(Stop::Short)
                && final(self).remaining() == Seq::<u8>::empty(),
            old(self).remaining().len() >= 1 ==> byte == Ok::<u8, Stop>(old(self).remaining()[0])
                && final(self).remaining() == old(self).remaining().skip(1),
    {
        proof {
            use_type_invariant(&*self);
        }
        if self.pos < self.data.len() {
            let byte: u8 = self.data[self.pos];
            self.pos = self.pos + 1;
            assert(self.remaining() =~= old(self).remaining().skip(1));
            Ok(byte)
        } else {
            assert(self.remaining() =~= Seq::<u8>::empty());
            Err(Stop::Short)
        }
    }

    /// Reads a number of two bytes, the high byte first.
    pub fn read_u16(&mut self) -> (number: Result<u16, Stop>)
        ensures
            final(self).same_buffer(old(self)),
            old(self).remaining().len() < 2 ==> number == Err::<u16, Stop>(Stop::Short)
                && final(self).remaining() == Seq::<u8>::empty(),
            old(self).remaining().len() >= 2 ==> number is Ok && number->Ok_0 == be_u16(
                old(self).remaining(),
            ) && final(self).remaining() == old(self).remaining().skip(2),
    {
        proof {
            use_type_invariant(&*self);
        }
        if self.data.len() - self.pos < 2 {
            self.use_up();
            return Err(Stop::Short);
        }
        let number: u16 = join_u16(self.data[self.pos], self.data[self.pos + 1]);
        self.pos = self.pos + 2;
        assert(self.remaining() =~= old(self).remaining().skip(2));
        Ok(number)
    }

    /// Reads a number of four bytes, the high byte first.
    pub fn read_u32(&mut self) -> (number: Result<u32, Stop>)
        ensures
            final(self).same_buffer(old(self)),
            old(self).remaining().len() < 4 ==> number == Err::<u32, Stop>(Stop::Short)
                && final(self).remaining() == Seq::<u8>::empty(),
            old(self).remaining().len() >= 4 ==> number is Ok && number->Ok_0 == be_u32(
                old(self).remaining(),
            ) && final(self).remaining() == old(self).remaining().skip(4),
    {
        proof {
            use_type_invariant(&*self);
        }
        if self.data.len() - self.pos < 4 {
            self.use_up();
            return Err(Stop::Short);
        }
        let number: u32 = join_u32(
            self.data[self.pos],
            self.data[self.pos + 1],
            self.data[self.pos + 2],
            self.data[self.pos + 3],
        );
        self.pos = self.pos + 4;
        assert(self.remaining() =~= old(self).remaining().skip(4));
        Ok(number)
    }

    /// Reads as many bytes as are asked for.
    pub fn read_exact(&mut self, count: usize) -> (bytes: Result<Vec<u8>, Stop>)
        ensures
            final(self).same_buffer(old(self)),
            old(self).remaining().len() < count ==> bytes == Err::<Vec<u8>, Stop>(Stop::Short)
                && final(self).remaining() == Seq::<u8>::empty(),
            old(self).remaining().len() >= count ==> bytes is Ok && bytes->Ok_0@
                == old(self).remaining().take(count as int) && final(self).remaining()
                == old(self).remaining().skip(count as int),
    {
        proof {
            use_type_invariant(&*self);
        }
        if self.data.len() - self.pos < count {
            self.use_up();
            return Err(Stop::Short);
        }
        let mut bytes: Vec<u8> = Vec::new();
        bytes.extend_from_slice(&self.data[self.pos..self.pos + count]);
        self.pos = self.pos + count;
        assert(bytes@ =~= old(self).remaining().take(count as int));
        assert(self.remaining() =~= old(self).remaining().skip(count as int));
        Ok(bytes)
    }

    /// Passes over as many bytes as are asked for.
    pub fn skip(&mut self, count: usize) -> (passed: Result<(), Stop>)
        ensures
            final(self).same_buffer(old(self)),
            old(self).remaining().len() < count ==> passed == Err::<(), Stop>(Stop::Short)
                && final(self).remaining() == Seq::<u8>::empty(),
            old(self).remaining().len() >= count ==> passed == Ok::<(), Stop>(())
                && final(self).remaining() == old(self).remaining().skip(count as int),
    {
        proof {
            use_type_invariant(&*self);
        }
        if self.data.len() - self.pos < count {
            self.use_up();
            return Err(Stop::Short);
        }
        self.pos = self.pos + count;
        assert(self.remaining() =~= old(self).remaining().skip(count as int));
        Ok(())
    }
}

} // verus!
