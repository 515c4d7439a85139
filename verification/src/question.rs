//! Query types and the question section.

use crate::buffer::{lemma_write_write, u16_bytes, word16, BufferState, BytePacketBuffer};
use crate::error::BytePacketBufferError;
use crate::name::{emit_result, name_emit, name_ok, read_name};
use vstd::prelude::*;
use vstd::std_specs::convert::FromSpecImpl;
use vstd::utf8::encode_utf8;

verus! {

/// The type of a query or of a record: one of the five that are understood,
/// or any other number.
#[derive(Debug, Clone, Copy, PartialEq, Eq, Structural)]
pub enum QueryType {
    A,
    Ns,
    Cname,
    Mx,
    Aaaa,
    Unknown(u16),
}

impl QueryType {
    /// The type that `num` stands for.
    pub open spec fn of_number(num: u16) -> QueryType {
        if num == 1 {
            QueryType::A
        } else if num == 2 {
            QueryType::Ns
        } else if num == 5 {
            QueryType::Cname
        } else if num == 15 {
            QueryType::Mx
        } else if num == 28 {
            QueryType::Aaaa
        } else {
            QueryType::Unknown(num)
        }
    }

    /// The number that stands for this type on the wire.
    pub open spec fn number(self) -> u16 {
        match self {
            QueryType::A => 1,
            QueryType::Ns => 2,
            QueryType::Cname => 5,
            QueryType::Mx => 15,
            QueryType::Aaaa => 28,
            QueryType::Unknown(num) => num,
        }
    }
}

impl From<u16> for QueryType {
    fn from(num: u16) -> (r: Self) {
        match num {
            1 => QueryType::A,
            2 => QueryType::Ns,
            5 => QueryType::Cname,
            15 => QueryType::Mx,
            28 => QueryType::Aaaa,
            _ => QueryType::Unknown(num),
        }
    }
}

impl FromSpecImpl<u16> for QueryType {
    open spec fn obeys_from_spec() -> bool {
        true
    }

    open spec fn from_spec(num: u16) -> Self {
        QueryType::of_number(num)
    }
}

impl From<QueryType> for u16 {
    fn from(qtype: QueryType) -> (r: Self) {
        match qtype {
            QueryType::A => 1,
            QueryType::Ns => 2,
            QueryType::Cname => 5,
            QueryType::Mx => 15,
            QueryType::Aaaa => 28,
            QueryType::Unknown(num) => num,
        }
    }
}

impl FromSpecImpl<QueryType> for u16 {
    open spec fn obeys_from_spec() -> bool {
        true
    }

    open spec fn from_spec(qtype: QueryType) -> Self {
        qtype.number()
    }
}

/// Every number stands for a type that is written as that number; and every
/// type is written as a number that stands for it, unless it is one of the
/// five known numbers held as `Unknown`.
pub proof fn law_query_type_numbers(num: u16, qtype: QueryType)
    ensures
        QueryType::of_number(num).number() == num,
        !(qtype matches QueryType::Unknown(n) && (n == 1 || n == 2 || n == 5 || n == 15 || n == 28))
            ==> QueryType::of_number(qtype.number()) == qtype,
{
}

/// The bytes of a name's text.
pub open spec fn name_bytes(name: Seq<char>) -> Seq<u8> {
    encode_utf8(name)
}

/// One entry of the question section. The class is not kept: it is always
/// written as 1 (IN) and skipped when read.
#[derive(Debug, Clone, PartialEq, Eq)]
pub struct DnsQuestion {
    pub name: String,
    pub qtype: QueryType,
}

/// The mathematical content of a [`DnsQuestion`].
pub struct QuestionView {
    pub name: Seq<char>,
    pub qtype: QueryType,
}

impl View for DnsQuestion {
    type V = QuestionView;

    open spec fn view(&self) -> QuestionView {
        QuestionView { name: self.name@, qtype: self.qtype }
    }
}

/// What reading a question ends in: the question as it then is, the cursor,
/// and whether all of it was read.
pub struct QuestionRead {
    pub question: QuestionView,
    pub position: int,
    pub result: Result<(), BytePacketBufferError>,
}

impl QuestionView {
    /// The bytes that writing this question emits: the name, then the type
    /// and the class 1; but from a label on that is too long, nothing.
    pub open spec fn emit(self) -> Seq<u8> {
        if name_ok(name_bytes(self.name)) {
            name_emit(name_bytes(self.name)) + u16_bytes(self.qtype.number()) + u16_bytes(1)
        } else {
            name_emit(name_bytes(self.name))
        }
    }

    /// Whether no label of the name is too long to be written.
    pub open spec fn ok(self) -> bool {
        name_ok(name_bytes(self.name))
    }

    /// Reading a question at the cursor of `st` into `self`: the name is
    /// appended to the name that is there, then the type is taken, then the
    /// class is skipped.
    pub open spec fn read(self, st: BufferState) -> QuestionRead {
        let name = read_name(st, self.name);
        let then = st.at(name.position);
        if name.result is Err {
            QuestionRead {
                question: QuestionView { name: name.text, qtype: self.qtype },
                position: name.position,
                result: name.result,
            }
        } else {
            QuestionRead {
                question: QuestionView {
                    name: name.text,
                    qtype: if then.fits(2) {
                        QueryType::of_number(word16(st.bytes, name.position))
                    } else {
                        self.qtype
                    },
                },
                position: then.advanced(4),
                result: if then.fits(4) {
                    Ok(())
                } else {
                    Err(BytePacketBufferError::EndOfBuffer)
                },
            }
        }
    }
}

impl DnsQuestion {
    /// A question for the records of type `qtype` of `name`.
    pub fn new(name: String, qtype: QueryType) -> (r: Self)
        ensures
            r.name == name,
            r.qtype == qtype,
    {
        DnsQuestion { name, qtype }
    }

    /// Reads a question at the cursor. The name read is appended to
    /// `self.name`.
    pub fn read(&mut self, buffer: &mut BytePacketBuffer) -> (r: Result<(), BytePacketBufferError>)
        ensures
            final(buffer).buffer == old(buffer).buffer,
            final(buffer).position == old(self)@.read(old(buffer)@).position,
            final(self)@ == old(self)@.read(old(buffer)@).question,
            r == old(self)@.read(old(buffer)@).result,
    {
        let ghost st = buffer@;
        buffer.read_qname(&mut self.name)?;
        let ghost then = buffer@;
        assert(then == st.at(then.position));
        self.qtype = QueryType::from(buffer.read_u16()?);
        assert(buffer@ == then.at(then.position + 2));
        let _ = buffer.read_u16()?;
        Ok(())
    }

    /// Writes the question at the cursor: its name, its type and the
    /// class 1.
    pub fn write(&self, buffer: &mut BytePacketBuffer) -> (r: Result<(), BytePacketBufferError>)
        ensures
            final(buffer)@ == old(buffer)@.write(self@.emit()),
            r == emit_result(old(buffer)@, self@.emit(), self@.ok()),
    {
        let ghost st = buffer@;
        let ghost name = name_emit(name_bytes(self.name@));
        let ghost typ = u16_bytes(self.qtype.number());
        proof {
            lemma_write_write(st, name, typ + u16_bytes(1));
            lemma_write_write(st, name, typ);
            lemma_write_write(st, name + typ, u16_bytes(1));
            assert(name + (typ + u16_bytes(1)) =~= name + typ + u16_bytes(1));
        }
        buffer.write_qname(self.name.as_str())?;

        let type_num: u16 = self.qtype.into();
        buffer.write_u16(type_num)?;
        buffer.write_u16(1)?;

        Ok(())
    }
}

} // verus!
