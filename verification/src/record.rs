//! Resource records: the entries of the answer, authority and additional
//! sections.

use crate::buffer::{
    lemma_stored, lemma_write_empty, lemma_write_write, stored, u16_bytes, u32_bytes, word16,
    word32, BufferState, BytePacketBuffer,
};
use crate::error::BytePacketBufferError;
use crate::name::{emit_result, name_emit, name_ok, read_name};
use crate::question::{name_bytes, QueryType};
use vstd::prelude::*;

verus! {

/// An IPv4 address as its four octets.
#[derive(Debug, Clone, Copy, PartialEq, Eq)]
pub struct Ipv4Address {
    pub octets: [u8; 4],
}

/// An IPv6 address as its eight 16-bit segments.
#[derive(Debug, Clone, Copy, PartialEq, Eq)]
pub struct Ipv6Address {
    pub segments: [u16; 8],
}

/// A resource record. Of a record whose type is not understood only the
/// type and the length of its data are kept.
#[derive(Debug, Clone, PartialEq, Eq)]
#[allow(inconsistent_fields)]
pub enum DnsRecord {
    A { domain: String, addr: Ipv4Address, ttl: u32 },
    Ns { domain: String, host: String, ttl: u32 },
    Cname { domain: String, host: String, ttl: u32 },
    Mx { domain: String, priority: u16, host: String, ttl: u32 },
    Aaaa { domain: String, addr: Ipv6Address, ttl: u32 },
    Unknown { domain: String, qtype: u16, data_len: u16, ttl: u32 },
}

/// The mathematical content of a [`DnsRecord`]: names as their text,
/// addresses as their four octets or eight segments.
#[allow(inconsistent_fields)]
pub enum RecordView {
    A { domain: Seq<char>, addr: Seq<u8>, ttl: u32 },
    Ns { domain: Seq<char>, host: Seq<char>, ttl: u32 },
    Cname { domain: Seq<char>, host: Seq<char>, ttl: u32 },
    Mx { domain: Seq<char>, priority: u16, host: Seq<char>, ttl: u32 },
    Aaaa { domain: Seq<char>, addr: Seq<u16>, ttl: u32 },
    Unknown { domain: Seq<char>, qtype: u16, data_len: u16, ttl: u32 },
}

impl View for DnsRecord {
    type V = RecordView;

    open spec fn view(&self) -> RecordView {
        match *self {
            DnsRecord::A { domain, addr, ttl } => RecordView::A {
                domain: domain@,
                addr: addr.octets@,
                ttl,
            },
            DnsRecord::Ns { domain, host, ttl } => RecordView::Ns {
                domain: domain@,
                host: host@,
                ttl,
            },
            DnsRecord::Cname { domain, host, ttl } => RecordView::Cname {
                domain: domain@,
                host: host@,
                ttl,
            },
            DnsRecord::Mx { domain, priority, host, ttl } => RecordView::Mx {
                domain: domain@,
                priority,
                host: host@,
                ttl,
            },
            DnsRecord::Aaaa { domain, addr, ttl } => RecordView::Aaaa {
                domain: domain@,
                addr: addr.segments@,
                ttl,
            },
            DnsRecord::Unknown { domain, qtype, data_len, ttl } => RecordView::Unknown {
                domain: domain@,
                qtype,
                data_len,
                ttl,
            },
        }
    }
}

/// What reading a record ends in: the record or the error, and the cursor.
pub struct RecordRead {
    pub result: Result<RecordView, BytePacketBufferError>,
    pub position: int,
}

/// The bytes of eight segments, each most significant byte first.
pub open spec fn segment_bytes(segments: Seq<u16>) -> Seq<u8> {
    Seq::new(16, |i: int| u16_bytes(segments[i / 2])[i % 2])
}

/// The bytes that open every record: the owner's name, then the type, the
/// class 1 and the time to live; but from a label on that is too long,
/// nothing.
pub open spec fn emit_head(domain: Seq<char>, qtype: u16, ttl: u32) -> Seq<u8> {
    if name_ok(name_bytes(domain)) {
        name_emit(name_bytes(domain)) + u16_bytes(qtype) + u16_bytes(1) + u32_bytes(ttl)
    } else {
        name_emit(name_bytes(domain))
    }
}

/// Record data that ends in the name `host`, behind `fixed` and the two
/// bytes of `length`.
pub open spec fn emit_host(length: u16, fixed: Seq<u8>, host: Seq<char>) -> Seq<u8> {
    u16_bytes(length) + fixed + name_emit(name_bytes(host))
}

impl RecordView {
    /// The name that owns the record.
    pub open spec fn domain(self) -> Seq<char> {
        match self {
            RecordView::A { domain, .. } => domain,
            RecordView::Ns { domain, .. } => domain,
            RecordView::Cname { domain, .. } => domain,
            RecordView::Mx { domain, .. } => domain,
            RecordView::Aaaa { domain, .. } => domain,
            RecordView::Unknown { domain, .. } => domain,
        }
    }

    /// Whether no label of a name in the record is too long to be written.
    pub open spec fn ok(self) -> bool {
        match self {
            RecordView::A { domain, .. } => name_ok(name_bytes(domain)),
            RecordView::Ns { domain, host, .. } => name_ok(name_bytes(domain)) && name_ok(
                name_bytes(host),
            ),
            RecordView::Cname { domain, host, .. } => name_ok(name_bytes(domain)) && name_ok(
                name_bytes(host),
            ),
            RecordView::Mx { domain, host, .. } => name_ok(name_bytes(domain)) && name_ok(
                name_bytes(host),
            ),
            RecordView::Aaaa { domain, .. } => name_ok(name_bytes(domain)),
            RecordView::Unknown { .. } => true,
        }
    }

    /// The length of the record's data where that ends in a name: it is
    /// known only once the name is written.
    pub open spec fn data_length(self) -> int {
        match self {
            RecordView::Ns { host, .. } => name_emit(name_bytes(host)).len() as int,
            RecordView::Cname { host, .. } => name_emit(name_bytes(host)).len() as int,
            RecordView::Mx { host, .. } => 2 + name_emit(name_bytes(host)).len() as int,
            _ => 0,
        }
    }

    /// The bytes of the record's data, behind those of its length. Where
    /// the length depends on a name, it is zero until the record is
    /// `closed`.
    pub open spec fn emit_data(self, closed: bool) -> Seq<u8> {
        let length = if closed {
            self.data_length() as u16
        } else {
            0u16
        };
        match self {
            RecordView::A { addr, .. } => u16_bytes(4) + addr,
            RecordView::Ns { host, .. } => emit_host(length, Seq::empty(), host),
            RecordView::Cname { host, .. } => emit_host(length, Seq::empty(), host),
            RecordView::Mx { priority, host, .. } => emit_host(length, u16_bytes(priority), host),
            RecordView::Aaaa { addr, .. } => u16_bytes(16) + segment_bytes(addr),
            RecordView::Unknown { .. } => Seq::empty(),
        }
    }

    /// The record's leading bytes: its owner, type, class and time to live.
    /// A record of unknown type has none: it is not written at all.
    pub open spec fn emit_lead(self) -> Seq<u8> {
        match self {
            RecordView::A { domain, ttl, .. } => emit_head(domain, 1, ttl),
            RecordView::Ns { domain, ttl, .. } => emit_head(domain, 2, ttl),
            RecordView::Cname { domain, ttl, .. } => emit_head(domain, 5, ttl),
            RecordView::Mx { domain, ttl, .. } => emit_head(domain, 15, ttl),
            RecordView::Aaaa { domain, ttl, .. } => emit_head(domain, 28, ttl),
            RecordView::Unknown { .. } => Seq::empty(),
        }
    }

    /// The bytes that writing the record emits, up to the first label that
    /// is too long. The data length of a record that ends in a name is
    /// filled in only when the record is `closed`, which is when all of it
    /// was written.
    pub open spec fn emit(self, closed: bool) -> Seq<u8> {
        if name_ok(name_bytes(self.domain())) {
            self.emit_lead() + self.emit_data(closed)
        } else {
            self.emit_lead()
        }
    }

    /// How writing the record at `st` ends: with the number of bytes
    /// written, or with the first thing that went wrong.
    pub open spec fn write_result(self, st: BufferState) -> Result<usize, BytePacketBufferError> {
        match emit_result(st, self.emit(false), self.ok()) {
            Ok(_) => Ok(self.emit(false).len() as usize),
            Err(e) => Err(e),
        }
    }

    /// The buffer after the record was written at `st`.
    pub open spec fn written(self, st: BufferState) -> BufferState {
        st.write(self.emit(self.write_result(st) is Ok))
    }
}

/// Reading the data of a record at the cursor of `st`, once its owner
/// `domain`, its type, its time to live and the length of its data are
/// known. The length counts only for a type that is not understood: that
/// many bytes are then skipped, wherever that leads.
pub open spec fn read_data(
    st: BufferState,
    domain: Seq<char>,
    qtype: u16,
    ttl: u32,
    data_len: u16,
) -> RecordRead {
    let p = st.position;
    let host = read_name(st, Seq::empty());
    let mx_host = read_name(st.at(p + 2), Seq::empty());
    match QueryType::of_number(qtype) {
        QueryType::A => RecordRead {
            result: if st.fits(4) {
                Ok(RecordView::A { domain, addr: st.bytes.subrange(p, p + 4), ttl })
            } else {
                Err(BytePacketBufferError::EndOfBuffer)
            },
            position: st.advanced(4),
        },
        QueryType::Ns => RecordRead {
            result: match host.result {
                Ok(_) => Ok(RecordView::Ns { domain, host: host.text, ttl }),
                Err(e) => Err(e),
            },
            position: host.position,
        },
        QueryType::Cname => RecordRead {
            result: match host.result {
                Ok(_) => Ok(RecordView::Cname { domain, host: host.text, ttl }),
                Err(e) => Err(e),
            },
            position: host.position,
        },
        QueryType::Mx => if st.fits(2) {
            RecordRead {
                result: match mx_host.result {
                    Ok(_) => Ok(
                        RecordView::Mx {
                            domain,
                            priority: word16(st.bytes, p),
                            host: mx_host.text,
                            ttl,
                        },
                    ),
                    Err(e) => Err(e),
                },
                position: mx_host.position,
            }
        } else {
            RecordRead {
                result: Err(BytePacketBufferError::EndOfBuffer),
                position: st.advanced(2),
            }
        },
        QueryType::Aaaa => RecordRead {
            result: if st.fits(16) {
                Ok(
                    RecordView::Aaaa {
                        domain,
                        addr: Seq::new(8, |i: int| word16(st.bytes, p + 2 * i)),
                        ttl,
                    },
                )
            } else {
                Err(BytePacketBufferError::EndOfBuffer)
            },
            position: st.advanced(16),
        },
        QueryType::Unknown(_) => RecordRead {
            result: Ok(RecordView::Unknown { domain, qtype, data_len, ttl }),
            position: p + data_len,
        },
    }
}

/// Reading a record at the cursor of `st`: the owner's name, the type, the
/// class (which is skipped), the time to live, the length of the data, and
/// the data.
pub open spec fn read_record(st: BufferState) -> RecordRead {
    let domain = read_name(st, Seq::empty());
    let p = domain.position;
    let fixed = st.at(p);
    if domain.result is Err {
        RecordRead { result: Err(domain.result->Err_0), position: p }
    } else if !fixed.fits(10) {
        RecordRead {
            result: Err(BytePacketBufferError::EndOfBuffer),
            position: fixed.advanced(10),
        }
    } else {
        read_data(
            st.at(p + 10),
            domain.text,
            word16(st.bytes, p),
            word32(st.bytes, p + 4),
            word16(st.bytes, p + 8),
        )
    }
}

/// Filling in the two bytes of a length behind `head`.
pub proof fn lemma_patch(bytes: Seq<u8>, at: int, head: Seq<u8>, length: u16, tail: Seq<u8>)
    requires
        bytes.len() == 512,
        0 <= at,
        at + head.len() + 2 + tail.len() <= 512,
    ensures
        stored(bytes, at, head + u16_bytes(0) + tail).update(
            at + head.len(),
            u16_bytes(length)[0],
        ).update(at + head.len() + 1, u16_bytes(length)[1]) == stored(
            bytes,
            at,
            head + u16_bytes(length) + tail,
        ),
{
    lemma_stored(bytes, at, head + u16_bytes(0) + tail);
    lemma_stored(bytes, at, head + u16_bytes(length) + tail);
    assert(stored(bytes, at, head + u16_bytes(0) + tail).update(
        at + head.len(),
        u16_bytes(length)[0],
    ).update(at + head.len() + 1, u16_bytes(length)[1]) =~= stored(
        bytes,
        at,
        head + u16_bytes(length) + tail,
    ));
}

/// A record is written in two steps: what opens it, and its data. Where
/// the first step fails, that is how writing the record ends; if not, the
/// second step decides.
pub proof fn lemma_written_in_two(record: RecordView, st: BufferState)
    requires
        st.bytes.len() == 512,
        0 <= st.position,
    ensures
        ({
            let lead = record.emit_lead();
            let then = st.write(lead);
            let head = emit_result(st, lead, name_ok(name_bytes(record.domain())));
            let data = emit_result(then, record.emit_data(false), record.ok());
            &&& record is Unknown ==> record.written(st) == st && record.write_result(st) == Ok::<
                usize,
                BytePacketBufferError,
            >(0)
            &&& head is Err && !(record is Unknown) ==> record.written(st) == then
                && record.write_result(st) == Err::<usize, BytePacketBufferError>(head->Err_0)
            &&& head is Ok && !(record is Unknown) ==> {
                &&& record.written(st) == then.write(record.emit_data(data is Ok))
                &&& data is Err ==> record.write_result(st) == Err::<
                    usize,
                    BytePacketBufferError,
                >(data->Err_0)
                &&& data is Ok ==> record.write_result(st) == Ok::<usize, BytePacketBufferError>(
                    (then.write(record.emit_data(true)).position - st.position) as usize,
                )
            }
        }),
{
    lemma_write_write(st, record.emit_lead(), record.emit_data(false));
    lemma_write_write(st, record.emit_lead(), record.emit_data(true));
    lemma_write_empty(st);
}

/// Writes what opens every record: owner, type, class 1, time to live.
fn write_head(buffer: &mut BytePacketBuffer, domain: &str, qtype: u16, ttl: u32) -> (r: Result<
    (),
    BytePacketBufferError,
>)
    ensures
        final(buffer)@ == old(buffer)@.write(emit_head(domain@, qtype, ttl)),
        r == emit_result(
            old(buffer)@,
            emit_head(domain@, qtype, ttl),
            name_ok(name_bytes(domain@)),
        ),
{
    let ghost st = buffer@;
    let ghost name = name_emit(name_bytes(domain@));
    let ghost a = u16_bytes(qtype);
    let ghost b = u16_bytes(1);
    let ghost c = u32_bytes(ttl);
    proof {
        lemma_write_write(st, name, a + b + c);
        lemma_write_write(st, name, a);
        lemma_write_write(st, name + a, b + c);
        lemma_write_write(st, name + a, b);
        lemma_write_write(st, name + a + b, c);
        assert(name + (a + b + c) =~= name + a + b + c);
        assert(name + a + (b + c) =~= name + a + b + c);
    }
    buffer.write_qname(domain)?;
    buffer.write_u16(qtype)?;
    buffer.write_u16(1)?;
    buffer.write_u32(ttl)?;
    Ok(())
}

/// Writes record data that ends in a name: two bytes for its length, then
/// `priority` if there is one, then `host`; and when all is written, fills
/// in the length.
fn write_host(buffer: &mut BytePacketBuffer, priority: Option<u16>, host: &str) -> (r: Result<
    (),
    BytePacketBufferError,
>)
    ensures
        ({
            let fixed = match priority {
                Some(p) => u16_bytes(p),
                None => Seq::<u8>::empty(),
            };
            let length = (fixed.len() + name_emit(name_bytes(host@)).len()) as u16;
            &&& r == emit_result(
                old(buffer)@,
                emit_host(0, fixed, host@),
                name_ok(name_bytes(host@)),
            )
            &&& final(buffer)@ == old(buffer)@.write(
                emit_host(
                    if r is Ok {
                        length
                    } else {
                        0
                    },
                    fixed,
                    host@,
                ),
            )
        }),
{
    let ghost st = buffer@;
    let ghost fixed = match priority {
        Some(p) => u16_bytes(p),
        None => Seq::<u8>::empty(),
    };
    let ghost name = name_emit(name_bytes(host@));
    let ghost zero = u16_bytes(0);
    proof {
        lemma_write_write(st, zero, fixed + name);
        lemma_write_write(st, zero, fixed);
        lemma_write_write(st, zero + fixed, name);
        lemma_write_empty(st.write(zero));
        assert(zero + (fixed + name) =~= zero + fixed + name);
        assert(zero + Seq::<u8>::empty() =~= zero);
    }
    let position = buffer.position;
    buffer.write_u16(0)?;
    match priority {
        Some(p) => {
            buffer.write_u16(p)?;
        },
        None => {},
    }
    assert(buffer@ == st.write(zero + fixed));
    buffer.write_qname(host)?;

    let size = buffer.position - (position + 2);
    proof {
        lemma_patch(st.bytes, st.position, Seq::empty(), size as u16, fixed + name);
        assert(Seq::<u8>::empty() + u16_bytes(0) + (fixed + name) =~= zero + fixed + name);
        assert(Seq::<u8>::empty() + u16_bytes(size as u16) + (fixed + name) =~= u16_bytes(
            size as u16,
        ) + fixed + name);
    }
    buffer.set_u16(position, size as u16)?;
    Ok(())
}

/// The four bytes of a 32-bit number that was read most significant
/// byte first.
proof fn lemma_word32_parts(b0: u8, b1: u8, b2: u8, b3: u8)
    ensures
        ({
            let raw = ((b0 as int) * 0x100_0000 + (b1 as int) * 0x1_0000 + (b2 as int) * 0x100 + (
            b3 as int)) as u32;
            &&& ((raw >> 24) & 0xFF) as u8 == b0
            &&& ((raw >> 16) & 0xFF) as u8 == b1
            &&& ((raw >> 8) & 0xFF) as u8 == b2
            &&& (raw & 0xFF) as u8 == b3
            &&& ((raw >> 16) & 0xFFFF) as u16 == ((b0 as int) * 0x100 + (b1 as int)) as u16
            &&& (raw & 0xFFFF) as u16 == ((b2 as int) * 0x100 + (b3 as int)) as u16
        }),
{
    let raw = ((b0 as u32) * 0x100_0000 + (b1 as u32) * 0x1_0000 + (b2 as u32) * 0x100 + (
    b3 as u32)) as u32;
    assert(((raw >> 24) & 0xFF) as u8 == b0 && ((raw >> 16) & 0xFF) as u8 == b1 && ((raw >> 8)
        & 0xFF) as u8 == b2 && (raw & 0xFF) as u8 == b3 && ((raw >> 16) & 0xFFFF) as u16 == ((
    b0 as u16) * 0x100 + (b1 as u16)) as u16 && (raw & 0xFFFF) as u16 == ((b2 as u16) * 0x100 + (
    b3 as u16)) as u16) by (bit_vector)
        requires
            raw == ((b0 as u32) * 0x100_0000 + (b1 as u32) * 0x1_0000 + (b2 as u32) * 0x100 + (
            b3 as u32)) as u32,
    ;
}

/// Reads a name at the cursor into a fresh string.
fn read_host(buffer: &mut BytePacketBuffer) -> (r: Result<String, BytePacketBufferError>)
    ensures
        final(buffer).buffer == old(buffer).buffer,
        final(buffer).position == read_name(old(buffer)@, Seq::empty()).position,
        match r {
            Ok(host) => read_name(old(buffer)@, Seq::empty()).result is Ok && host@ == read_name(
                old(buffer)@,
                Seq::empty(),
            ).text,
            Err(e) => read_name(old(buffer)@, Seq::empty()).result == Err::<
                (),
                BytePacketBufferError,
            >(e),
        },
{
    let mut host = String::new();
    buffer.read_qname(&mut host)?;
    Ok(host)
}

impl DnsRecord {
    /// Reads a record at the cursor.
    #[verifier::rlimit(50)]
    pub fn read(buffer: &mut BytePacketBuffer) -> (r: Result<DnsRecord, BytePacketBufferError>)
        ensures
            final(buffer).buffer == old(buffer).buffer,
            final(buffer).position == read_record(old(buffer)@).position,
            match r {
                Ok(record) => read_record(old(buffer)@).result == Ok::<
                    RecordView,
                    BytePacketBufferError,
                >(record@),
                Err(e) => read_record(old(buffer)@).result == Err::<
                    RecordView,
                    BytePacketBufferError,
                >(e),
            },
    {
        let ghost st = buffer@;
        let domain = read_host(buffer)?;
        let ghost p = buffer@.position;
        assert(buffer@ == st.at(p));

        let qtype_num = buffer.read_u16()?;
        let qtype: QueryType = qtype_num.into();
        assert(buffer@ == st.at(p + 2));
        let _ = buffer.read_u16()?;
        assert(buffer@ == st.at(p + 4));
        let ttl = buffer.read_u32()?;
        assert(buffer@ == st.at(p + 8));
        let data_len = buffer.read_u16()?;
        assert(buffer@ == st.at(p + 10));
        let ghost d = p + 10;

        match qtype {
            QueryType::A => {
                let raw_addr = buffer.read_u32()?;
                proof {
                    lemma_word32_parts(
                        st.bytes[d],
                        st.bytes[d + 1],
                        st.bytes[d + 2],
                        st.bytes[d + 3],
                    );
                }
                let addr = Ipv4Address {
                    octets: [
                        ((raw_addr >> 24) & 0xFF) as u8,
                        ((raw_addr >> 16) & 0xFF) as u8,
                        ((raw_addr >> 8) & 0xFF) as u8,
                        (raw_addr & 0xFF) as u8,
                    ],
                };
                assert(addr.octets@ =~= st.bytes.subrange(d, d + 4));
                Ok(DnsRecord::A { domain, addr, ttl })
            },
            QueryType::Ns => {
                let ns = read_host(buffer)?;
                Ok(DnsRecord::Ns { domain, host: ns, ttl })
            },
            QueryType::Cname => {
                let cname = read_host(buffer)?;
                Ok(DnsRecord::Cname { domain, host: cname, ttl })
            },
            QueryType::Mx => {
                let priority = buffer.read_u16()?;
                assert(buffer@ == st.at(d + 2));
                let mx = read_host(buffer)?;
                Ok(DnsRecord::Mx { domain, priority, host: mx, ttl })
            },
            QueryType::Aaaa => {
                let raw_addr1 = buffer.read_u32()?;
                assert(buffer@ == st.at(d + 4));
                let raw_addr2 = buffer.read_u32()?;
                assert(buffer@ == st.at(d + 8));
                let raw_addr3 = buffer.read_u32()?;
                assert(buffer@ == st.at(d + 12));
                let raw_addr4 = buffer.read_u32()?;
                proof {
                    lemma_word32_parts(
                        st.bytes[d],
                        st.bytes[d + 1],
                        st.bytes[d + 2],
                        st.bytes[d + 3],
                    );
                    lemma_word32_parts(
                        st.bytes[d + 4],
                        st.bytes[d + 5],
                        st.bytes[d + 6],
                        st.bytes[d + 7],
                    );
                    lemma_word32_parts(
                        st.bytes[d + 8],
                        st.bytes[d + 9],
                        st.bytes[d + 10],
                        st.bytes[d + 11],
                    );
                    lemma_word32_parts(
                        st.bytes[d + 12],
                        st.bytes[d + 13],
                        st.bytes[d + 14],
                        st.bytes[d + 15],
                    );
                }
                let addr = Ipv6Address {
                    segments: [
                        ((raw_addr1 >> 16) & 0xFFFF) as u16,
                        (raw_addr1 & 0xFFFF) as u16,
                        ((raw_addr2 >> 16) & 0xFFFF) as u16,
                        (raw_addr2 & 0xFFFF) as u16,
                        ((raw_addr3 >> 16) & 0xFFFF) as u16,
                        (raw_addr3 & 0xFFFF) as u16,
                        ((raw_addr4 >> 16) & 0xFFFF) as u16,
                        (raw_addr4 & 0xFFFF) as u16,
                    ],
                };
                assert(addr.segments@ =~= Seq::new(8, |i: int| word16(st.bytes, d + 2 * i)));
                Ok(DnsRecord::Aaaa { domain, addr, ttl })
            },
            QueryType::Unknown(_) => {
                buffer.step(data_len as usize)?;
                Ok(DnsRecord::Unknown { domain, qtype: qtype_num, data_len, ttl })
            },
        }
    }

    /// Writes a record at the cursor and returns the number of bytes
    /// written. A record of unknown type is passed over: nothing is written
    /// for it.
    #[verifier::rlimit(50)]
    pub fn write(&self, buffer: &mut BytePacketBuffer) -> (r: Result<usize, BytePacketBufferError>)
        ensures
            final(buffer)@ == self@.written(old(buffer)@),
            r == self@.write_result(old(buffer)@),
    {
        let start = buffer.position;
        proof {
            lemma_written_in_two(self@, buffer@);
        }

        match self {
            DnsRecord::A { domain, addr, ttl } => {
                assert(self@ == RecordView::A { domain: domain@, addr: addr.octets@, ttl: *ttl });
                write_head(buffer, domain.as_str(), QueryType::A.into(), *ttl)?;
                write_octets(buffer, addr)?;
            },
            DnsRecord::Ns { domain, host, ttl } => {
                assert(self@ == RecordView::Ns { domain: domain@, host: host@, ttl: *ttl });
                write_head(buffer, domain.as_str(), QueryType::Ns.into(), *ttl)?;
                write_host(buffer, None, host.as_str())?;
            },
            DnsRecord::Cname { domain, host, ttl } => {
                assert(self@ == RecordView::Cname { domain: domain@, host: host@, ttl: *ttl });
                write_head(buffer, domain.as_str(), QueryType::Cname.into(), *ttl)?;
                write_host(buffer, None, host.as_str())?;
            },
            DnsRecord::Mx { domain, priority, host, ttl } => {
                assert(self@ == RecordView::Mx {
                    domain: domain@,
                    priority: *priority,
                    host: host@,
                    ttl: *ttl,
                });
                write_head(buffer, domain.as_str(), QueryType::Mx.into(), *ttl)?;
                write_host(buffer, Some(*priority), host.as_str())?;
            },
            DnsRecord::Aaaa { domain, addr, ttl } => {
                assert(self@ == RecordView::Aaaa { domain: domain@, addr: addr.segments@, ttl: *ttl });
                write_head(buffer, domain.as_str(), QueryType::Aaaa.into(), *ttl)?;
                write_segments(buffer, addr)?;
            },
            DnsRecord::Unknown { .. } => {
                assert(self@ is Unknown);
            },
        }

        Ok(buffer.position - start)
    }
}

/// Writes the data of an A record: the length 4 and the four octets.
fn write_octets(buffer: &mut BytePacketBuffer, addr: &Ipv4Address) -> (r: Result<
    (),
    BytePacketBufferError,
>)
    ensures
        final(buffer)@ == old(buffer)@.write(u16_bytes(4) + addr.octets@),
        r == emit_result(old(buffer)@, u16_bytes(4) + addr.octets@, true),
{
    let ghost then = buffer@;
    let ghost data = u16_bytes(4) + addr.octets@;
    let ghost len = u16_bytes(4);
    let ghost o0 = seq![addr.octets@[0]];
    let ghost o1 = seq![addr.octets@[1]];
    let ghost o2 = seq![addr.octets@[2]];
    let ghost o3 = seq![addr.octets@[3]];
    proof {
        assert(data =~= len + o0 + o1 + o2 + o3);
        lemma_write_write(then, len, o0 + o1 + o2 + o3);
        lemma_write_write(then, len, o0);
        lemma_write_write(then, len + o0, o1 + o2 + o3);
        lemma_write_write(then, len + o0, o1);
        lemma_write_write(then, len + o0 + o1, o2 + o3);
        lemma_write_write(then, len + o0 + o1, o2);
        lemma_write_write(then, len + o0 + o1 + o2, o3);
        assert(len + (o0 + o1 + o2 + o3) =~= data);
        assert(len + o0 + (o1 + o2 + o3) =~= data);
        assert(len + o0 + o1 + (o2 + o3) =~= data);
    }
    buffer.write_u16(4)?;

    let octets = addr.octets;
    buffer.write_u8(octets[0])?;
    buffer.write_u8(octets[1])?;
    buffer.write_u8(octets[2])?;
    buffer.write_u8(octets[3])?;
    Ok(())
}

/// Writes the data of an AAAA record: the length 16 and the eight segments.
fn write_segments(buffer: &mut BytePacketBuffer, addr: &Ipv6Address) -> (r: Result<
    (),
    BytePacketBufferError,
>)
    ensures
        final(buffer)@ == old(buffer)@.write(u16_bytes(16) + segment_bytes(addr.segments@)),
        r == emit_result(old(buffer)@, u16_bytes(16) + segment_bytes(addr.segments@), true),
{
    let ghost then = buffer@;
    let ghost segments = segment_bytes(addr.segments@);
    proof {
        lemma_write_write(then, u16_bytes(16), segments);
        assert(segments.skip(0) =~= segments);
    }
    buffer.write_u16(16)?;

    let mut i: usize = 0;
    while i < 8
        invariant
            i <= 8,
            segments == segment_bytes(addr.segments@),
            buffer@.bytes.len() == 512,
            then == old(buffer)@,
            then.write(u16_bytes(16) + segments) == buffer@.write(segments.skip(2 * i)),
            emit_result(then, u16_bytes(16) + segments, true) == emit_result(
                buffer@,
                segments.skip(2 * i),
                true,
            ),
        decreases 8 - i,
    {
        proof {
            let word = u16_bytes(addr.segments@[i as int]);
            lemma_write_write(buffer@, word, segments.skip(2 * i + 2));
            assert(segments.skip(2 * i) =~= word + segments.skip(2 * i + 2));
        }
        buffer.write_u16(addr.segments[i])?;
        i += 1;
    }
    proof {
        lemma_write_empty(buffer@);
        assert(segments.skip(16) =~= Seq::<u8>::empty());
    }
    Ok(())
}

} // verus!
