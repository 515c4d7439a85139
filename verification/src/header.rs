//! The fixed twelve-byte header of a message.

use crate::buffer::{lemma_write_write, u16_bytes, word16, BufferState, BytePacketBuffer};
use crate::error::BytePacketBufferError;
use vstd::prelude::*;
use vstd::std_specs::convert::FromSpecImpl;

verus! {

/// The outcome that a response reports in the low four bits of its flags.
#[derive(Debug, Clone, Copy, PartialEq, Eq, Structural)]
pub enum ResultCode {
    NoError,
    FormErr,
    ServFail,
    NxDomain,
    NotImp,
    Refused,
}

impl ResultCode {
    /// The number that stands for this code on the wire.
    pub open spec fn number(self) -> u8 {
        match self {
            ResultCode::NoError => 0,
            ResultCode::FormErr => 1,
            ResultCode::ServFail => 2,
            ResultCode::NxDomain => 3,
            ResultCode::NotImp => 4,
            ResultCode::Refused => 5,
        }
    }

    /// The code that `num` stands for; a number that stands for none is
    /// taken as `NoError`.
    pub open spec fn of_number(num: u8) -> ResultCode {
        if num == 1 {
            ResultCode::FormErr
        } else if num == 2 {
            ResultCode::ServFail
        } else if num == 3 {
            ResultCode::NxDomain
        } else if num == 4 {
            ResultCode::NotImp
        } else if num == 5 {
            ResultCode::Refused
        } else {
            ResultCode::NoError
        }
    }

    /// The number that stands for this code on the wire.
    pub fn to_num(self) -> (r: u8)
        ensures
            r == self.number(),
    {
        match self {
            ResultCode::NoError => 0,
            ResultCode::FormErr => 1,
            ResultCode::ServFail => 2,
            ResultCode::NxDomain => 3,
            ResultCode::NotImp => 4,
            ResultCode::Refused => 5,
        }
    }
}

impl From<u8> for ResultCode {
    /// The code that `num` stands for; a number that stands for none is
    /// taken as `NoError`.
    fn from(num: u8) -> (r: Self) {
        match num {
            1 => ResultCode::FormErr,
            2 => ResultCode::ServFail,
            3 => ResultCode::NxDomain,
            4 => ResultCode::NotImp,
            5 => ResultCode::Refused,
            _ => ResultCode::NoError,
        }
    }
}

impl FromSpecImpl<u8> for ResultCode {
    open spec fn obeys_from_spec() -> bool {
        true
    }

    open spec fn from_spec(num: u8) -> Self {
        ResultCode::of_number(num)
    }
}

/// Every result code is written as a number that stands for it; the numbers
/// from 6 on stand for `NoError`.
pub proof fn law_result_code_numbers(code: ResultCode, num: u8)
    ensures
        ResultCode::of_number(code.number()) == code,
        code.number() <= 5,
        num > 5 ==> ResultCode::of_number(num) == ResultCode::NoError,
{
}

/// The header of a message: its id, its flags and the sizes of its four
/// sections.
#[derive(Debug, Clone, Copy, PartialEq, Eq)]
pub struct DnsHeader {
    pub id: u16,
    pub recursion_desired: bool,
    pub truncated_message: bool,
    pub authoritative_answer: bool,
    pub opcode: u8,
    pub response: bool,
    pub rescode: ResultCode,
    pub checking_disabled: bool,
    pub authentic_data: bool,
    pub z: bool,
    pub recursion_available: bool,
    pub questions: u16,
    pub answers: u16,
    pub authoritative_entries: u16,
    pub resource_entries: u16,
}

/// A flag as a number: one when set.
pub open spec fn bit(flag: bool) -> u8 {
    if flag {
        1
    } else {
        0
    }
}

/// A flag as a number: one when set.
fn flag_bit(flag: bool) -> (r: u8)
    ensures
        r == bit(flag),
{
    if flag {
        1
    } else {
        0
    }
}

impl Default for DnsHeader {
    fn default() -> (r: Self)
        ensures
            r == DnsHeader::blank(),
    {
        DnsHeader {
            id: 0,
            recursion_desired: false,
            truncated_message: false,
            authoritative_answer: false,
            opcode: 0,
            response: false,
            rescode: ResultCode::NoError,
            checking_disabled: false,
            authentic_data: false,
            z: false,
            recursion_available: false,
            questions: 0,
            answers: 0,
            authoritative_entries: 0,
            resource_entries: 0,
        }
    }
}

impl DnsHeader {
    /// The header with id zero, no flag set, `NoError` and empty sections.
    pub open spec fn blank() -> DnsHeader {
        DnsHeader {
            id: 0,
            recursion_desired: false,
            truncated_message: false,
            authoritative_answer: false,
            opcode: 0,
            response: false,
            rescode: ResultCode::NoError,
            checking_disabled: false,
            authentic_data: false,
            z: false,
            recursion_available: false,
            questions: 0,
            answers: 0,
            authoritative_entries: 0,
            resource_entries: 0,
        }
    }

    /// The first flag byte: RD in bit 0, TC in bit 1, AA in bit 2, the
    /// opcode from bit 3 on, QR in bit 7.
    pub open spec fn flags_high(self) -> u8 {
        bit(self.recursion_desired) | (bit(self.truncated_message) << 1) | (bit(
            self.authoritative_answer,
        ) << 2) | (self.opcode << 3) | (bit(self.response) << 7)
    }

    /// The second flag byte: the result code in bits 0 to 3, CD in bit 4,
    /// AD in bit 5, Z in bit 6, RA in bit 7.
    pub open spec fn flags_low(self) -> u8 {
        self.rescode.number() | (bit(self.checking_disabled) << 4) | (bit(self.authentic_data)
            << 5) | (bit(self.z) << 6) | (bit(self.recursion_available) << 7)
    }

    /// The twelve bytes of the header.
    pub open spec fn wire(self) -> Seq<u8> {
        u16_bytes(self.id) + seq![self.flags_high(), self.flags_low()] + u16_bytes(self.questions)
            + u16_bytes(self.answers) + u16_bytes(self.authoritative_entries) + u16_bytes(
            self.resource_entries,
        )
    }

    /// `self` with the ten flag fields taken from the two flag bytes.
    pub open spec fn with_flags(self, a: u8, b: u8) -> DnsHeader {
        DnsHeader {
            recursion_desired: a & 0x01 != 0,
            truncated_message: a & 0x02 != 0,
            authoritative_answer: a & 0x04 != 0,
            opcode: (a >> 3) & 0x0F,
            response: a & 0x80 != 0,
            rescode: ResultCode::of_number(b & 0x0F),
            checking_disabled: b & 0x10 != 0,
            authentic_data: b & 0x20 != 0,
            z: b & 0x40 != 0,
            recursion_available: b & 0x80 != 0,
            ..self
        }
    }

    /// The header that reading at the cursor of `st` makes of `self`: each
    /// of the six two-byte words that lies inside the buffer is taken over
    /// (the id, the flags, the four counts), and the fields of the words
    /// that do not are left as they were.
    pub open spec fn parsed(self, st: BufferState) -> DnsHeader {
        let p = st.position;
        let flags = if p + 4 <= 512 {
            self.with_flags(st.bytes[p + 2], st.bytes[p + 3])
        } else {
            self
        };
        DnsHeader {
            id: if p + 2 <= 512 {
                word16(st.bytes, p)
            } else {
                self.id
            },
            questions: if p + 6 <= 512 {
                word16(st.bytes, p + 4)
            } else {
                self.questions
            },
            answers: if p + 8 <= 512 {
                word16(st.bytes, p + 6)
            } else {
                self.answers
            },
            authoritative_entries: if p + 10 <= 512 {
                word16(st.bytes, p + 8)
            } else {
                self.authoritative_entries
            },
            resource_entries: if p + 12 <= 512 {
                word16(st.bytes, p + 10)
            } else {
                self.resource_entries
            },
            ..flags
        }
    }

    /// A header with id zero, no flag set, `NoError` and empty sections.
    pub fn new() -> (r: Self)
        ensures
            r == DnsHeader::blank(),
    {
        Self::default()
    }

    /// Sets the ten flag fields from the two flag bytes.
    fn set_flags(&mut self, a: u8, b: u8)
        ensures
            *final(self) == old(self).with_flags(a, b),
    {
        self.recursion_desired = (a & 0x01) != 0;
        self.truncated_message = (a & 0x02) != 0;
        self.authoritative_answer = (a & 0x04) != 0;
        self.opcode = (a >> 3) & 0x0F;
        self.response = (a & 0x80) != 0;
        self.rescode = ResultCode::from(b & 0x0F);
        self.checking_disabled = (b & 0x10) != 0;
        self.authentic_data = (b & 0x20) != 0;
        self.z = (b & 0x40) != 0;
        self.recursion_available = (b & 0x80) != 0;
    }

    /// The two flag bytes.
    fn flags(&self) -> (r: (u8, u8))
        ensures
            r.0 == self.flags_high(),
            r.1 == self.flags_low(),
    {
        (
            flag_bit(self.recursion_desired) | (flag_bit(self.truncated_message) << 1) | (flag_bit(
                self.authoritative_answer,
            ) << 2) | (self.opcode << 3) | (flag_bit(self.response) << 7),
            self.rescode.to_num() | (flag_bit(self.checking_disabled) << 4) | (flag_bit(
                self.authentic_data,
            ) << 5) | (flag_bit(self.z) << 6) | (flag_bit(self.recursion_available) << 7),
        )
    }

    /// Reads the twelve bytes at the cursor into `self`, word by word, and
    /// stops at the first word that lies outside the buffer.
    #[verifier::rlimit(50)]
    pub fn read(&mut self, buffer: &mut BytePacketBuffer) -> (r: Result<(), BytePacketBufferError>)
        ensures
            final(buffer)@ == old(buffer)@.skip(12),
            *final(self) == old(self).parsed(old(buffer)@),
            r == if old(buffer)@.fits(12) {
                Ok::<(), BytePacketBufferError>(())
            } else {
                Err(BytePacketBufferError::EndOfBuffer)
            },
    {
        let ghost st = buffer@;
        let ghost p = st.position;
        self.id = buffer.read_u16()?;
        assert(buffer@ == st.at(p + 2));

        let flags = buffer.read_u16()?;
        assert(buffer@ == st.at(p + 4));
        let a = (flags >> 8) as u8;
        let b = (flags & 0xFF) as u8;
        proof {
            let hi = st.bytes[p + 2];
            let lo = st.bytes[p + 3];
            assert(((((hi as u16) * 0x100 + (lo as u16)) as u16) >> 8) as u8 == hi && ((((hi as u16)
                * 0x100 + (lo as u16)) as u16) & 0xFF) as u8 == lo) by (bit_vector);
        }
        self.set_flags(a, b);

        self.questions = buffer.read_u16()?;
        assert(buffer@ == st.at(p + 6));
        self.answers = buffer.read_u16()?;
        assert(buffer@ == st.at(p + 8));
        self.authoritative_entries = buffer.read_u16()?;
        assert(buffer@ == st.at(p + 10));
        self.resource_entries = buffer.read_u16()?;
        assert(buffer@ == st.at(p + 12));

        Ok(())
    }

    /// Writes the twelve bytes of the header at the cursor.
    #[verifier::rlimit(50)]
    pub fn write(&mut self, buffer: &mut BytePacketBuffer) -> (r: Result<(), BytePacketBufferError>)
        ensures
            *final(self) == *old(self),
            final(buffer)@ == old(buffer)@.write(old(self).wire()),
            r == if old(buffer)@.fits(12) {
                Ok::<(), BytePacketBufferError>(())
            } else {
                Err(BytePacketBufferError::EndOfBuffer)
            },
    {
        let ghost st = buffer@;
        let ghost w0 = u16_bytes(self.id);
        let ghost w1 = w0 + seq![self.flags_high()];
        let ghost w2 = w1 + seq![self.flags_low()];
        let ghost w3 = w2 + u16_bytes(self.questions);
        let ghost w4 = w3 + u16_bytes(self.answers);
        let ghost w5 = w4 + u16_bytes(self.authoritative_entries);
        let ghost w6 = w5 + u16_bytes(self.resource_entries);
        proof {
            lemma_write_write(st, w0, seq![self.flags_high()]);
            lemma_write_write(st, w1, seq![self.flags_low()]);
            lemma_write_write(st, w2, u16_bytes(self.questions));
            lemma_write_write(st, w3, u16_bytes(self.answers));
            lemma_write_write(st, w4, u16_bytes(self.authoritative_entries));
            lemma_write_write(st, w5, u16_bytes(self.resource_entries));
            lemma_write_write(st, w0, w6.skip(2));
            lemma_write_write(st, w1, w6.skip(3));
            lemma_write_write(st, w2, w6.skip(4));
            lemma_write_write(st, w3, w6.skip(6));
            lemma_write_write(st, w4, w6.skip(8));
            lemma_write_write(st, w5, w6.skip(10));
            assert(w0 + w6.skip(2) =~= w6);
            assert(w1 + w6.skip(3) =~= w6);
            assert(w2 + w6.skip(4) =~= w6);
            assert(w3 + w6.skip(6) =~= w6);
            assert(w4 + w6.skip(8) =~= w6);
            assert(w5 + w6.skip(10) =~= w6);
            assert(w6 =~= self.wire());
        }
        let (high, low) = self.flags();
        buffer.write_u16(self.id)?;
        buffer.write_u8(high)?;
        buffer.write_u8(low)?;
        buffer.write_u16(self.questions)?;
        buffer.write_u16(self.answers)?;
        buffer.write_u16(self.authoritative_entries)?;
        buffer.write_u16(self.resource_entries)?;

        Ok(())
    }
}

} // verus!
