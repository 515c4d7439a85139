//! What is written can be read back.

use crate::buffer::{
    lemma_stored, lemma_write_empty, lemma_write_write, u16_bytes, u32_bytes, word16, word32,
    BufferState,
};
use crate::header::{bit, DnsHeader, ResultCode};
use crate::name::{
    emit_labels, first_dot, join_labels, labels_filled, labels_ok, name_emit, name_ok, name_text,
    plain_name, read_name, split_labels, walk_name, NameWalk, DOT, MAX_LABEL_LEN,
};
use crate::packet::{
    fresh_question, read_packet, read_questions, read_records, write_questions, write_records,
    PacketRead, PacketView, QuestionsRead, RecordsRead,
};
use crate::question::{name_bytes, QueryType, QuestionRead, QuestionView};
use crate::record::{emit_head, read_record, segment_bytes, RecordRead, RecordView};
use crate::text::{is_ascii_bytes, label_text, lower_byte, lower_char, lowercase_ascii, lowered};
use vstd::prelude::*;
use vstd::utf8::{is_ascii_chars, is_ascii_chars_encode_utf8};

verus! {

/// Labels that are written end in the closing zero.
pub proof fn lemma_emit_labels_len(labels: Seq<Seq<u8>>)
    requires
        labels_ok(labels),
    ensures
        emit_labels(labels).len() >= 1 + labels.len(),
    decreases labels.len(),
{
    if labels.len() > 0 {
        assert(labels[0].len() <= MAX_LABEL_LEN);
        assert forall|i: int| 0 <= i < labels.drop_first().len() implies (
        #[trigger] labels.drop_first()[i]).len() <= MAX_LABEL_LEN by {
            assert(labels.drop_first()[i] == labels[i + 1]);
        }
        lemma_emit_labels_len(labels.drop_first());
    }
}

/// Reading labels where they were written gives their texts, with dots
/// between them, and ends behind the closing zero.
pub proof fn lemma_read_labels(
    bytes: Seq<u8>,
    at: int,
    labels: Seq<Seq<u8>>,
    jumps: int,
    cursor: int,
    text: Seq<char>,
    first: bool,
)
    requires
        bytes.len() == 512,
        0 <= at,
        0 <= jumps <= 5,
        labels.len() > 0,
        labels_ok(labels),
        labels_filled(labels),
        at + emit_labels(labels).len() <= 512,
        bytes.subrange(at, at + emit_labels(labels).len()) == emit_labels(labels),
    ensures
        walk_name(bytes, at, jumps, cursor, false, text, first) == (NameWalk {
            text: if first {
                text + join_labels(labels)
            } else {
                text.push('.') + join_labels(labels)
            },
            position: at + emit_labels(labels).len(),
            result: Ok(()),
        }),
    decreases labels.len(),
{
    let label = labels[0];
    let n = label.len() as int;
    let rest = labels.drop_first();
    let wire = emit_labels(labels);
    let tail = emit_labels(rest);
    assert(1 <= n <= 63);
    assert forall|i: int| 0 <= i < rest.len() implies (#[trigger] rest[i]).len() <= MAX_LABEL_LEN
        && rest[i].len() > 0 by {
        assert(rest[i] == labels[i + 1]);
    }
    lemma_emit_labels_len(rest);
    assert(wire == seq![n as u8] + label + tail);
    let found = bytes.subrange(at, at + wire.len());
    assert(bytes[at] == found[0]);
    assert(bytes[at] == n as u8);
    assert(bytes.subrange(at + 1, at + 1 + n) =~= label) by {
        assert forall|i: int| 0 <= i < n implies bytes[at + 1 + i] == label[i] by {
            assert(bytes[at + 1 + i] == found[1 + i]);
        }
    }
    let text1 = if first {
        text
    } else {
        text.push('.')
    };
    let text2 = text1 + label_text(label);
    assert(bytes.subrange(at + 1 + n, at + 1 + n + tail.len()) =~= tail) by {
        assert forall|i: int| 0 <= i < tail.len() implies bytes[at + 1 + n + i] == tail[i] by {
            assert(bytes[at + 1 + n + i] == found[1 + n + i]);
        }
    }
    if rest.len() == 0 {
        assert(tail == seq![0u8]);
        assert(bytes[at + 1 + n] == found[1 + n]);
        assert(bytes[at + 1 + n] == 0);
        assert(walk_name(bytes, at + 1 + n, jumps, cursor, false, text2, false) == (NameWalk {
            text: text2,
            position: at + 1 + n + 1,
            result: Ok(()),
        }));
        assert(join_labels(labels) == label_text(label));
    } else {
        lemma_read_labels(bytes, at + 1 + n, rest, jumps, cursor, text2, false);
        assert(join_labels(labels) == label_text(label) + seq!['.'] + join_labels(rest));
        assert(text2.push('.') + join_labels(rest) =~= text1 + join_labels(labels));
    }
}

/// Reading a name where it was written gives its text and ends behind it.
pub proof fn lemma_read_written_name(
    bytes: Seq<u8>,
    at: int,
    name: Seq<u8>,
    jumps: int,
    cursor: int,
    text: Seq<char>,
)
    requires
        bytes.len() == 512,
        0 <= at,
        0 <= jumps <= 5,
        name_ok(name),
        plain_name(name),
        at + name_emit(name).len() <= 512,
        bytes.subrange(at, at + name_emit(name).len()) == name_emit(name),
    ensures
        walk_name(bytes, at, jumps, cursor, false, text, true) == (NameWalk {
            text: text + name_text(name),
            position: at + name_emit(name).len(),
            result: Ok(()),
        }),
{
    if name.len() == 0 {
        assert(bytes[at] == bytes.subrange(at, at + 1)[0]);
        assert(text + name_text(name) =~= text);
    } else {
        lemma_read_labels(bytes, at, split_labels(name), jumps, cursor, text, true);
    }
}

/// The first dot of a name is inside it or at its end.
pub proof fn lemma_first_dot_bound(name: Seq<u8>)
    ensures
        first_dot(name) <= name.len(),
        first_dot(name) < name.len() ==> name[first_dot(name) as int] == DOT,
    decreases name.len(),
{
    if name.len() > 0 && name[0] != DOT {
        lemma_first_dot_bound(name.drop_first());
    }
}

/// The labels of an ASCII name, read back and joined, are the name in
/// lower case.
pub proof fn lemma_ascii_labels(name: Seq<u8>)
    requires
        is_ascii_bytes(name),
    ensures
        join_labels(split_labels(name)) == lowered(name),
        split_labels(name).len() >= 1,
    decreases name.len(),
{
    let n = first_dot(name) as int;
    lemma_first_dot_bound(name);
    if n >= name.len() {
        assert(split_labels(name) == seq![name]);
    } else {
        let label = name.take(n);
        let after = name.skip(n + 1);
        let rest = split_labels(after);
        lemma_ascii_labels(after);
        let labels = seq![label] + rest;
        assert(split_labels(name) == labels);
        assert(labels[0] == label);
        assert(labels.drop_first() =~= rest);
        assert(join_labels(labels) == label_text(label) + seq!['.'] + join_labels(rest));
        assert(lower_byte(DOT) as char == '.');
        assert(lowered(label) + seq!['.'] + lowered(after) =~= lowered(name));
    }
}

/// The text that an ASCII name is read back as is the name in lower case.
pub proof fn lemma_ascii_name_text(name: Seq<char>)
    requires
        is_ascii_chars(name),
    ensures
        name_text(name_bytes(name)) == lowercase_ascii(name),
{
    is_ascii_chars_encode_utf8(name);
    let bytes = name_bytes(name);
    assert(is_ascii_bytes(bytes)) by {
        assert forall|i: int| 0 <= i < bytes.len() implies bytes[i] < 0x80 by {
            assert(name[i] as u8 == bytes[i]);
        }
    }
    if name.len() > 0 {
        lemma_ascii_labels(bytes);
    }
    assert(lowered(bytes) =~= lowercase_ascii(name)) by {
        assert forall|i: int| 0 <= i < name.len() implies lower_byte(bytes[i]) as char
            == lower_char(name[i]) by {
            assert(name[i] as u8 == bytes[i]);
        }
    }
}

/// A name of ASCII text without an empty label and without a label longer
/// than 63 bytes, written where the buffer has room for it and then read
/// where it was written, is read as itself in lower case; and reading ends
/// where writing ended.
pub proof fn law_name_round_trip(buffer: BufferState, name: Seq<char>, out: Seq<char>)
    requires
        buffer.bytes.len() == 512,
        0 <= buffer.position,
        is_ascii_chars(name),
        plain_name(name_bytes(name)),
        name_ok(name_bytes(name)),
        buffer.fits(name_emit(name_bytes(name)).len() as int),
    ensures
        read_name(buffer.write(name_emit(name_bytes(name))).at(buffer.position), out) == (
        NameWalk {
            text: out + lowercase_ascii(name),
            position: buffer.write(name_emit(name_bytes(name))).position,
            result: Ok(()),
        }),
{
    let wire = name_emit(name_bytes(name));
    let written = buffer.write(wire);
    lemma_stored(buffer.bytes, buffer.position, wire);
    if name_bytes(name).len() > 0 {
        lemma_ascii_name_text(name);
        lemma_emit_labels_len(split_labels(name_bytes(name)));
    }
    assert(written.bytes.subrange(buffer.position, buffer.position + wire.len()) =~= wire);
    lemma_read_written_name(
        written.bytes,
        buffer.position,
        name_bytes(name),
        0,
        buffer.position,
        out,
    );
    lemma_ascii_name_text(name);
}

/// Whether `bytes` hold `wire` from index `at` on.
#[verifier::opaque]
pub open spec fn found_at(bytes: Seq<u8>, at: int, wire: Seq<u8>) -> bool {
    0 <= at && at + wire.len() <= bytes.len() && bytes.subrange(at, at + wire.len()) == wire
}

/// Where `a + b` is found, `a` is found, and `b` behind it.
pub proof fn lemma_found_parts(bytes: Seq<u8>, at: int, a: Seq<u8>, b: Seq<u8>)
    requires
        found_at(bytes, at, a + b),
    ensures
        found_at(bytes, at, a),
        found_at(bytes, at + a.len(), b),
{
    reveal(found_at);    let whole = bytes.subrange(at, at + (a + b).len());
    assert(bytes.subrange(at, at + a.len()) =~= a) by {
        assert forall|i: int| 0 <= i < a.len() implies bytes[at + i] == a[i] by {
            assert(whole[i] == (a + b)[i]);
        }
    }
    assert(bytes.subrange(at + a.len(), at + a.len() + b.len()) =~= b) by {
        assert forall|i: int| 0 <= i < b.len() implies bytes[at + a.len() + i] == b[i] by {
            assert(whole[a.len() + i] == (a + b)[a.len() + i]);
        }
    }
}

/// The number that is read where the two bytes of `value` are found.
pub proof fn lemma_word16_found(bytes: Seq<u8>, at: int, value: u16)
    requires
        found_at(bytes, at, u16_bytes(value)),
    ensures
        word16(bytes, at) == value,
{
    reveal(found_at);    let found = bytes.subrange(at, at + 2);
    assert(bytes[at] == found[0] && bytes[at + 1] == found[1]);
}

/// The number that is read where the four bytes of `value` are found.
pub proof fn lemma_word32_found(bytes: Seq<u8>, at: int, value: u32)
    requires
        found_at(bytes, at, u32_bytes(value)),
    ensures
        word32(bytes, at) == value,
{
    reveal(found_at);    let found = bytes.subrange(at, at + 4);
    assert(bytes[at] == found[0] && bytes[at + 1] == found[1] && bytes[at + 2] == found[2]
        && bytes[at + 3] == found[3]);
    assert(value == (value / 0x100_0000) * 0x100_0000 + (value / 0x1_0000 % 0x100) * 0x1_0000 + (
    value / 0x100 % 0x100) * 0x100 + value % 0x100) by (bit_vector);
    assert(value / 0x100_0000 < 0x100) by (bit_vector);
}

/// The flags that are read from the two flag bytes of a header.
pub proof fn lemma_flags_round_trip(header: DnsHeader, other: DnsHeader)
    requires
        header.opcode < 16,
    ensures
        other.with_flags(header.flags_high(), header.flags_low()) == (DnsHeader {
            id: other.id,
            questions: other.questions,
            answers: other.answers,
            authoritative_entries: other.authoritative_entries,
            resource_entries: other.resource_entries,
            ..header
        }),
{
    let r = bit(header.recursion_desired);
    let t = bit(header.truncated_message);
    let a = bit(header.authoritative_answer);
    let o = header.opcode;
    let q = bit(header.response);
    let high = r | (t << 1) | (a << 2) | (o << 3) | (q << 7);
    assert(((high & 0x01 != 0) <==> r == 1) && ((high & 0x02 != 0) <==> t == 1) && ((high & 0x04
        != 0) <==> a == 1) && (high >> 3) & 0x0F == o && ((high & 0x80 != 0) <==> q == 1))
        by (bit_vector)
        requires
            high == r | (t << 1) | (a << 2) | (o << 3) | (q << 7),
            r <= 1,
            t <= 1,
            a <= 1,
            q <= 1,
            o < 16,
    ;
    let c = header.rescode.number();
    let d = bit(header.checking_disabled);
    let u = bit(header.authentic_data);
    let z = bit(header.z);
    let v = bit(header.recursion_available);
    let low = c | (d << 4) | (u << 5) | (z << 6) | (v << 7);
    assert(low & 0x0F == c && ((low & 0x10 != 0) <==> d == 1) && ((low & 0x20 != 0) <==> u == 1)
        && ((low & 0x40 != 0) <==> z == 1) && ((low & 0x80 != 0) <==> v == 1)) by (bit_vector)
        requires
            low == c | (d << 4) | (u << 5) | (z << 6) | (v << 7),
            c <= 5,
            d <= 1,
            u <= 1,
            z <= 1,
            v <= 1,
    ;
    assert(ResultCode::of_number(c) == header.rescode);
}

/// Reading a header where it was written gives that header, whatever was
/// there before, as long as its opcode fits in its four bits.
pub proof fn lemma_read_written_header(bytes: Seq<u8>, at: int, header: DnsHeader, other: DnsHeader)
    requires
        bytes.len() == 512,
        found_at(bytes, at, header.wire()),
        header.opcode < 16,
    ensures
        other.parsed(BufferState { bytes, position: at }) == header,
{
    reveal(found_at);    let w0 = u16_bytes(header.id);
    let w1 = seq![header.flags_high(), header.flags_low()];
    let w2 = u16_bytes(header.questions);
    let w3 = u16_bytes(header.answers);
    let w4 = u16_bytes(header.authoritative_entries);
    let w5 = u16_bytes(header.resource_entries);
    assert(header.wire() == w0 + w1 + w2 + w3 + w4 + w5);
    lemma_found_parts(bytes, at, w0 + w1 + w2 + w3 + w4, w5);
    lemma_found_parts(bytes, at, w0 + w1 + w2 + w3, w4);
    lemma_found_parts(bytes, at, w0 + w1 + w2, w3);
    lemma_found_parts(bytes, at, w0 + w1, w2);
    lemma_found_parts(bytes, at, w0, w1);
    lemma_word16_found(bytes, at, header.id);
    lemma_word16_found(bytes, at + 4, header.questions);
    lemma_word16_found(bytes, at + 6, header.answers);
    lemma_word16_found(bytes, at + 8, header.authoritative_entries);
    lemma_word16_found(bytes, at + 10, header.resource_entries);
    let flags = bytes.subrange(at + 2, at + 4);
    assert(bytes[at + 2] == flags[0] && bytes[at + 3] == flags[1]);
    lemma_flags_round_trip(header, DnsHeader { id: header.id, ..other });
}

/// Whether a question is read back as it was written, but for the case of
/// its name: its name has no empty label, and its type is not written as
/// unknown where it is one of the five that are known.
pub open spec fn plain_question(question: QuestionView) -> bool {
    plain_name(name_bytes(question.name)) && QueryType::of_number(question.qtype.number())
        == question.qtype
}

impl QuestionView {
    /// The question as it is read back once written: its name label by
    /// label as reading makes it.
    pub open spec fn read_back(self) -> QuestionView {
        QuestionView { name: name_text(name_bytes(self.name)), qtype: self.qtype }
    }
}

/// Reading a question where it was written.
pub proof fn lemma_read_written_question(bytes: Seq<u8>, at: int, question: QuestionView)
    requires
        bytes.len() == 512,
        found_at(bytes, at, question.emit()),
        question.ok(),
        plain_question(question),
    ensures
        fresh_question().read(BufferState { bytes, position: at }) == (QuestionRead {
            question: question.read_back(),
            position: at + question.emit().len(),
            result: Ok(()),
        }),
{
    reveal(found_at);    let name = name_emit(name_bytes(question.name));
    let typ = u16_bytes(question.qtype.number());
    let class = u16_bytes(1);
    assert(question.emit() == name + typ + class);
    lemma_found_parts(bytes, at, name + typ, class);
    lemma_found_parts(bytes, at, name, typ);
    lemma_read_written_name(bytes, at, name_bytes(question.name), 0, at, Seq::empty());
    lemma_word16_found(bytes, at + name.len(), question.qtype.number());
    assert(Seq::<char>::empty() + name_text(name_bytes(question.name)) =~= name_text(
        name_bytes(question.name),
    ));
}

/// Whether a record is read back as it was written, but for the case of
/// its names: no name in it has an empty label, its type is one of the five
/// that are known, and its address has four octets or eight segments.
pub open spec fn plain_record(record: RecordView) -> bool {
    match record {
        RecordView::A { domain, addr, .. } => plain_name(name_bytes(domain)) && addr.len() == 4,
        RecordView::Ns { domain, host, .. } => plain_name(name_bytes(domain)) && plain_name(
            name_bytes(host),
        ),
        RecordView::Cname { domain, host, .. } => plain_name(name_bytes(domain)) && plain_name(
            name_bytes(host),
        ),
        RecordView::Mx { domain, host, .. } => plain_name(name_bytes(domain)) && plain_name(
            name_bytes(host),
        ),
        RecordView::Aaaa { domain, addr, .. } => plain_name(name_bytes(domain)) && addr.len() == 8,
        RecordView::Unknown { .. } => false,
    }
}

impl RecordView {
    /// The record as it is read back once written: its names label by
    /// label as reading makes them.
    pub open spec fn read_back(self) -> RecordView {
        match self {
            RecordView::A { domain, addr, ttl } => RecordView::A {
                domain: name_text(name_bytes(domain)),
                addr,
                ttl,
            },
            RecordView::Ns { domain, host, ttl } => RecordView::Ns {
                domain: name_text(name_bytes(domain)),
                host: name_text(name_bytes(host)),
                ttl,
            },
            RecordView::Cname { domain, host, ttl } => RecordView::Cname {
                domain: name_text(name_bytes(domain)),
                host: name_text(name_bytes(host)),
                ttl,
            },
            RecordView::Mx { domain, priority, host, ttl } => RecordView::Mx {
                domain: name_text(name_bytes(domain)),
                priority,
                host: name_text(name_bytes(host)),
                ttl,
            },
            RecordView::Aaaa { domain, addr, ttl } => RecordView::Aaaa {
                domain: name_text(name_bytes(domain)),
                addr,
                ttl,
            },
            RecordView::Unknown { domain, qtype, data_len, ttl } => RecordView::Unknown {
                domain: name_text(name_bytes(domain)),
                qtype,
                data_len,
                ttl,
            },
        }
    }
}

/// Reading what opens a record where it was written, with the length of
/// the data behind it.
pub proof fn lemma_read_written_head(
    bytes: Seq<u8>,
    at: int,
    domain: Seq<char>,
    qtype: u16,
    ttl: u32,
    length: u16,
    data: Seq<u8>,
)
    requires
        bytes.len() == 512,
        found_at(bytes, at, emit_head(domain, qtype, ttl) + (u16_bytes(length) + data)),
        name_ok(name_bytes(domain)),
        plain_name(name_bytes(domain)),
    ensures
        ({
            let name = read_name(BufferState { bytes, position: at }, Seq::empty());
            let p = at + name_emit(name_bytes(domain)).len();
            &&& name == NameWalk { text: name_text(name_bytes(domain)), position: p, result: Ok(()) }
            &&& p + 10 <= 512
            &&& word16(bytes, p) == qtype
            &&& word32(bytes, p + 4) == ttl
            &&& word16(bytes, p + 8) == length
            &&& found_at(bytes, p + 10, data)
            &&& p + 10 == at + emit_head(domain, qtype, ttl).len() + 2
        }),
{
    reveal(found_at);    let name = name_emit(name_bytes(domain));
    let a = u16_bytes(qtype);
    let b = u16_bytes(1);
    let c = u32_bytes(ttl);
    let d = u16_bytes(length);
    let head = emit_head(domain, qtype, ttl);
    assert(head == name + a + b + c);
    lemma_found_parts(bytes, at, head, d + data);
    lemma_found_parts(bytes, at + head.len(), d, data);
    lemma_found_parts(bytes, at, name + a + b, c);
    lemma_found_parts(bytes, at, name + a, b);
    lemma_found_parts(bytes, at, name, a);
    lemma_read_written_name(bytes, at, name_bytes(domain), 0, at, Seq::empty());
    lemma_word16_found(bytes, at + name.len(), qtype);
    lemma_word32_found(bytes, at + name.len() + 4, ttl);
    lemma_word16_found(bytes, at + name.len() + 8, length);
    assert(Seq::<char>::empty() + name_text(name_bytes(domain)) =~= name_text(name_bytes(domain)));
}

/// Reading a name where it was written, into a fresh string.
pub proof fn lemma_read_written_host(bytes: Seq<u8>, at: int, host: Seq<char>)
    requires
        bytes.len() == 512,
        found_at(bytes, at, name_emit(name_bytes(host))),
        name_ok(name_bytes(host)),
        plain_name(name_bytes(host)),
    ensures
        read_name(BufferState { bytes, position: at }, Seq::empty()) == (NameWalk {
            text: name_text(name_bytes(host)),
            position: at + name_emit(name_bytes(host)).len(),
            result: Ok(()),
        }),
{
    reveal(found_at);    lemma_read_written_name(bytes, at, name_bytes(host), 0, at, Seq::empty());
    assert(Seq::<char>::empty() + name_text(name_bytes(host)) =~= name_text(name_bytes(host)));
}

/// Reading an A record where it was written.
proof fn lemma_read_written_a(bytes: Seq<u8>, at: int, record: RecordView)
    requires
        bytes.len() == 512,
        found_at(bytes, at, record.emit(true)),
        record.ok(),
        plain_record(record),
        record is A,
    ensures
        read_record(BufferState { bytes, position: at }) == (RecordRead {
            result: Ok(record.read_back()),
            position: at + record.emit(true).len(),
        }),
{
    match record {
        RecordView::A { domain, addr, ttl } => {
            assert(record.emit(true) == emit_head(domain, 1, ttl) + (u16_bytes(4) + addr));
            lemma_read_written_head(bytes, at, domain, 1, ttl, 4, addr);
            let d = at + emit_head(domain, 1, ttl).len() + 2;
            assert(bytes.subrange(d, d + 4) == addr && d + 4 <= 512) by {
                reveal(found_at);
            }
        },
        _ => {},
    }
}

/// Reading an AAAA record where it was written.
proof fn lemma_read_written_aaaa(bytes: Seq<u8>, at: int, record: RecordView)
    requires
        bytes.len() == 512,
        found_at(bytes, at, record.emit(true)),
        record.ok(),
        plain_record(record),
        record is Aaaa,
    ensures
        read_record(BufferState { bytes, position: at }) == (RecordRead {
            result: Ok(record.read_back()),
            position: at + record.emit(true).len(),
        }),
{
    match record {
        RecordView::Aaaa { domain, addr, ttl } => {
            let data = segment_bytes(addr);
            assert(record.emit(true) == emit_head(domain, 28, ttl) + (u16_bytes(16) + data));
            lemma_read_written_head(bytes, at, domain, 28, ttl, 16, data);
            let d = at + emit_head(domain, 28, ttl).len() + 2;
            assert(Seq::new(8, |i: int| word16(bytes, d + 2 * i)) =~= addr) by {
                reveal(found_at);
                let found = bytes.subrange(d, d + 16);
                assert forall|i: int| 0 <= i < 8 implies word16(bytes, d + 2 * i) == addr[i] by {
                    assert(bytes[d + 2 * i] == found[2 * i]);
                    assert(bytes[d + 2 * i + 1] == found[2 * i + 1]);
                    assert(found[2 * i] == u16_bytes(addr[(2 * i) / 2])[(2 * i) % 2]);
                    assert(found[2 * i + 1] == u16_bytes(addr[(2 * i + 1) / 2])[(2 * i + 1) % 2]);
                }
            }
            assert(d + 16 <= 512) by {
                reveal(found_at);
            }
        },
        _ => {},
    }
}

/// Reading a record that ends in a name where it was written.
proof fn lemma_read_written_named(bytes: Seq<u8>, at: int, record: RecordView)
    requires
        bytes.len() == 512,
        found_at(bytes, at, record.emit(true)),
        record.ok(),
        plain_record(record),
        record is Ns || record is Cname || record is Mx,
    ensures
        read_record(BufferState { bytes, position: at }) == (RecordRead {
            result: Ok(record.read_back()),
            position: at + record.emit(true).len(),
        }),
{
    let length = record.data_length() as u16;
    match record {
        RecordView::Ns { domain, host, ttl } => {
            let data = name_emit(name_bytes(host));
            assert(record.emit(true) =~= emit_head(domain, 2, ttl) + (u16_bytes(length) + data));
            lemma_read_written_head(bytes, at, domain, 2, ttl, length, data);
            lemma_read_written_host(bytes, at + emit_head(domain, 2, ttl).len() + 2, host);
        },
        RecordView::Cname { domain, host, ttl } => {
            let data = name_emit(name_bytes(host));
            assert(record.emit(true) =~= emit_head(domain, 5, ttl) + (u16_bytes(length) + data));
            lemma_read_written_head(bytes, at, domain, 5, ttl, length, data);
            lemma_read_written_host(bytes, at + emit_head(domain, 5, ttl).len() + 2, host);
        },
        RecordView::Mx { domain, priority, host, ttl } => {
            let data = u16_bytes(priority) + name_emit(name_bytes(host));
            assert(record.emit(true) =~= emit_head(domain, 15, ttl) + (u16_bytes(length) + data));
            lemma_read_written_head(bytes, at, domain, 15, ttl, length, data);
            let d = at + emit_head(domain, 15, ttl).len() + 2;
            lemma_found_parts(bytes, d, u16_bytes(priority), name_emit(name_bytes(host)));
            lemma_word16_found(bytes, d, priority);
            lemma_read_written_host(bytes, d + 2, host);
            assert(d + 2 <= 512) by {
                reveal(found_at);
            }
        },
        _ => {},
    }
}

/// Reading a record where it was written.
pub proof fn lemma_read_written_record(bytes: Seq<u8>, at: int, record: RecordView)
    requires
        bytes.len() == 512,
        found_at(bytes, at, record.emit(true)),
        record.ok(),
        plain_record(record),
    ensures
        read_record(BufferState { bytes, position: at }) == (RecordRead {
            result: Ok(record.read_back()),
            position: at + record.emit(true).len(),
        }),
{
    if record is A {
        lemma_read_written_a(bytes, at, record);
    } else if record is Aaaa {
        lemma_read_written_aaaa(bytes, at, record);
    } else {
        lemma_read_written_named(bytes, at, record);
    }
}

/// The bytes of a run of questions.
pub open spec fn questions_wire(questions: Seq<QuestionView>) -> Seq<u8>
    decreases questions.len(),
{
    if questions.len() == 0 {
        Seq::empty()
    } else {
        questions[0].emit() + questions_wire(questions.drop_first())
    }
}

/// The bytes of a run of records, each with the length of its data filled
/// in.
pub open spec fn records_wire(records: Seq<RecordView>) -> Seq<u8>
    decreases records.len(),
{
    if records.len() == 0 {
        Seq::empty()
    } else {
        records[0].emit(true) + records_wire(records.drop_first())
    }
}

/// Each question as it is read back.
pub open spec fn questions_read_back(questions: Seq<QuestionView>) -> Seq<QuestionView> {
    Seq::new(questions.len(), |i: int| questions[i].read_back())
}

/// Each record as it is read back.
pub open spec fn records_read_back(records: Seq<RecordView>) -> Seq<RecordView> {
    Seq::new(records.len(), |i: int| records[i].read_back())
}

/// Whether each question is read back as it was written.
pub open spec fn plain_questions(questions: Seq<QuestionView>) -> bool {
    forall|i: int| 0 <= i < questions.len() ==> plain_question(#[trigger] questions[i])
}

/// Whether each record is read back as it was written.
pub open spec fn plain_records(records: Seq<RecordView>) -> bool {
    forall|i: int| 0 <= i < records.len() ==> plain_record(#[trigger] records[i])
}

/// Whether no label of a name in a question is too long to be written.
pub open spec fn questions_ok(questions: Seq<QuestionView>) -> bool {
    forall|i: int| 0 <= i < questions.len() ==> (#[trigger] questions[i]).ok()
}

/// Whether no label of a name in a record is too long to be written.
pub open spec fn records_ok(records: Seq<RecordView>) -> bool {
    forall|i: int| 0 <= i < records.len() ==> (#[trigger] records[i]).ok()
}

impl PacketView {
    /// The bytes of the message.
    pub open spec fn wire(self) -> Seq<u8> {
        self.header.wire() + questions_wire(self.questions) + records_wire(self.answers)
            + records_wire(self.authorities) + records_wire(self.resources)
    }

    /// The message as it is read back once written: every name label by
    /// label as reading makes it.
    pub open spec fn read_back(self) -> PacketView {
        PacketView {
            header: self.header,
            questions: questions_read_back(self.questions),
            answers: records_read_back(self.answers),
            authorities: records_read_back(self.authorities),
            resources: records_read_back(self.resources),
        }
    }

    /// Whether the message is read back as it was written, but for the
    /// counts in its header and the case of its names: the opcode fits in
    /// four bits, no name has an empty label, and no type is unknown or
    /// written as unknown.
    pub open spec fn plain(self) -> bool {
        &&& self.header.opcode < 16
        &&& plain_questions(self.questions)
        &&& plain_records(self.answers)
        &&& plain_records(self.authorities)
        &&& plain_records(self.resources)
    }
}

/// A record takes the same room whether or not the length of its data is
/// filled in.
pub proof fn lemma_emit_len(record: RecordView)
    ensures
        record.emit(true).len() == record.emit(false).len(),
{
}

/// A question takes at least five bytes.
pub proof fn lemma_question_len(question: QuestionView)
    requires
        question.ok(),
    ensures
        question.emit().len() >= 5,
{
    let name = name_bytes(question.name);
    if name.len() > 0 {
        lemma_emit_labels_len(split_labels(name));
    }
}

/// A record of a known type takes at least eleven bytes.
pub proof fn lemma_record_len(record: RecordView)
    requires
        record.ok(),
        !(record is Unknown),
    ensures
        record.emit(true).len() >= 11,
{
    let name = name_bytes(record.domain());
    if name.len() > 0 {
        lemma_emit_labels_len(split_labels(name));
    }
}

/// Questions that were all written fill the buffer with their bytes.
pub proof fn lemma_written_questions(st: BufferState, questions: Seq<QuestionView>)
    requires
        st.bytes.len() == 512,
        0 <= st.position,
        write_questions(st, questions).result is Ok,
    ensures
        write_questions(st, questions).buffer == st.write(questions_wire(questions)),
        st.fits(questions_wire(questions).len() as int),
        questions_ok(questions),
        questions_wire(questions).len() >= 5 * questions.len(),
    decreases questions.len(),
{
    if questions.len() == 0 {
        lemma_write_empty(st);
    } else {
        let first = questions[0].emit();
        let rest = questions.drop_first();
        lemma_write_write(st, first, questions_wire(rest));
        lemma_written_questions(st.write(first), rest);
        lemma_question_len(questions[0]);
        assert forall|i: int| 0 <= i < questions.len() implies (#[trigger] questions[i]).ok() by {
            if i > 0 {
                assert(questions[i] == rest[i - 1]);
            }
        }
    }
}

/// Records that were all written fill the buffer with their bytes.
pub proof fn lemma_written_records(st: BufferState, records: Seq<RecordView>)
    requires
        st.bytes.len() == 512,
        0 <= st.position,
        write_records(st, records).result is Ok,
    ensures
        write_records(st, records).buffer == st.write(records_wire(records)),
        st.fits(records_wire(records).len() as int),
        records_ok(records),
    decreases records.len(),
{
    if records.len() == 0 {
        lemma_write_empty(st);
    } else {
        let first = records[0].emit(true);
        let rest = records.drop_first();
        lemma_emit_len(records[0]);
        lemma_write_write(st, first, records_wire(rest));
        lemma_written_records(st.write(first), rest);
        assert forall|i: int| 0 <= i < records.len() implies (#[trigger] records[i]).ok() by {
            if i > 0 {
                assert(records[i] == rest[i - 1]);
            }
        }
    }
}

/// Records of known types take at least eleven bytes each.
pub proof fn lemma_records_len(records: Seq<RecordView>)
    requires
        records_ok(records),
        plain_records(records),
    ensures
        records_wire(records).len() >= 11 * records.len(),
    decreases records.len(),
{
    if records.len() > 0 {
        let rest = records.drop_first();
        assert(plain_record(records[0]));
        lemma_record_len(records[0]);
        assert forall|i: int| 0 <= i < rest.len() implies (#[trigger] rest[i]).ok()
            && plain_record(rest[i]) by {
            assert(rest[i] == records[i + 1]);
        }
        lemma_records_len(rest);
    }
}

/// Reading a run of questions where it was written.
pub proof fn lemma_read_written_questions(bytes: Seq<u8>, at: int, questions: Seq<QuestionView>)
    requires
        bytes.len() == 512,
        found_at(bytes, at, questions_wire(questions)),
        questions_ok(questions),
        plain_questions(questions),
    ensures
        read_questions(BufferState { bytes, position: at }, questions.len()) == (QuestionsRead {
            result: Ok(questions_read_back(questions)),
            position: at + questions_wire(questions).len(),
        }),
    decreases questions.len(),
{
    if questions.len() == 0 {
        assert(questions_read_back(questions) =~= Seq::<QuestionView>::empty());
    } else {
        let first = questions[0];
        let rest = questions.drop_first();
        assert(first.ok() && plain_question(first));
        assert forall|i: int| 0 <= i < rest.len() implies (#[trigger] rest[i]).ok()
            && plain_question(rest[i]) by {
            assert(rest[i] == questions[i + 1]);
        }
        lemma_found_parts(bytes, at, first.emit(), questions_wire(rest));
        lemma_read_written_question(bytes, at, first);
        lemma_read_written_questions(bytes, at + first.emit().len(), rest);
        assert(seq![first.read_back()] + questions_read_back(rest) =~= questions_read_back(
            questions,
        ));
        assert((questions.len() - 1) as nat == rest.len());
    }
}

/// Reading a run of records where it was written.
pub proof fn lemma_read_written_records(bytes: Seq<u8>, at: int, records: Seq<RecordView>)
    requires
        bytes.len() == 512,
        found_at(bytes, at, records_wire(records)),
        records_ok(records),
        plain_records(records),
    ensures
        read_records(BufferState { bytes, position: at }, records.len()) == (RecordsRead {
            result: Ok(records_read_back(records)),
            position: at + records_wire(records).len(),
        }),
    decreases records.len(),
{
    if records.len() == 0 {
        assert(records_read_back(records) =~= Seq::<RecordView>::empty());
    } else {
        let first = records[0];
        let rest = records.drop_first();
        assert(first.ok() && plain_record(first));
        assert forall|i: int| 0 <= i < rest.len() implies (#[trigger] rest[i]).ok()
            && plain_record(rest[i]) by {
            assert(rest[i] == records[i + 1]);
        }
        lemma_found_parts(bytes, at, first.emit(true), records_wire(rest));
        lemma_read_written_record(bytes, at, first);
        lemma_read_written_records(bytes, at + first.emit(true).len(), rest);
        assert(seq![first.read_back()] + records_read_back(rest) =~= records_read_back(records));
        assert((records.len() - 1) as nat == rest.len());
    }
}

/// A message that was written whole fills the buffer with its bytes.
pub proof fn lemma_written_packet(packet: PacketView, buffer: BufferState)
    requires
        buffer.bytes.len() == 512,
        0 <= buffer.position,
        packet.write(buffer).result is Ok,
    ensures
        packet.write(buffer).buffer == buffer.write(packet.wire()),
        buffer.position + packet.wire().len() <= 512,
        questions_ok(packet.questions),
        records_ok(packet.answers),
        records_ok(packet.authorities),
        records_ok(packet.resources),
        questions_wire(packet.questions).len() >= 5 * packet.questions.len(),
{
    let h = packet.header.wire();
    let q = questions_wire(packet.questions);
    let a = records_wire(packet.answers);
    let n = records_wire(packet.authorities);
    let r = records_wire(packet.resources);
    let st1 = buffer.write(h);
    lemma_write_write(buffer, h, q);
    lemma_written_questions(st1, packet.questions);
    let st2 = st1.write(q);
    lemma_write_write(st1, q, a);
    lemma_written_records(st2, packet.answers);
    let st3 = st2.write(a);
    lemma_write_write(st2, a, n);
    lemma_written_records(st3, packet.authorities);
    let st4 = st3.write(n);
    lemma_write_write(st3, n, r);
    lemma_written_records(st4, packet.resources);
    lemma_write_write(buffer, h + q, a);
    lemma_write_write(buffer, h + q + a, n);
    lemma_write_write(buffer, h + q + a + n, r);
}

/// Where the bytes of a message are found, those of its header and of
/// each of its sections are found one behind the other.
pub proof fn lemma_found_sections(bytes: Seq<u8>, at: int, packet: PacketView)
    requires
        found_at(bytes, at, packet.wire()),
    ensures
        ({
            let q = at + 12;
            let a = q + questions_wire(packet.questions).len();
            let n = a + records_wire(packet.answers).len();
            let r = n + records_wire(packet.authorities).len();
            &&& found_at(bytes, at, packet.header.wire())
            &&& found_at(bytes, q, questions_wire(packet.questions))
            &&& found_at(bytes, a, records_wire(packet.answers))
            &&& found_at(bytes, n, records_wire(packet.authorities))
            &&& found_at(bytes, r, records_wire(packet.resources))
            &&& at + packet.wire().len() == r + records_wire(packet.resources).len()
            &&& 0 <= at
            &&& at + packet.wire().len() <= bytes.len()
        }),
{
    let h = packet.header.wire();
    let q = questions_wire(packet.questions);
    let a = records_wire(packet.answers);
    let n = records_wire(packet.authorities);
    let r = records_wire(packet.resources);
    lemma_found_parts(bytes, at, h + q + a + n, r);
    lemma_found_parts(bytes, at, h + q + a, n);
    lemma_found_parts(bytes, at, h + q, a);
    lemma_found_parts(bytes, at, h, q);
    assert(h.len() == 12);
    reveal(found_at);
}

/// Reading a message where its bytes are found.
pub proof fn lemma_read_written_packet(bytes: Seq<u8>, at: int, packet: PacketView)
    requires
        bytes.len() == 512,
        found_at(bytes, at, packet.wire()),
        packet.plain(),
        questions_ok(packet.questions),
        records_ok(packet.answers),
        records_ok(packet.authorities),
        records_ok(packet.resources),
        packet.header.questions as nat == packet.questions.len(),
        packet.header.answers as nat == packet.answers.len(),
        packet.header.authoritative_entries as nat == packet.authorities.len(),
        packet.header.resource_entries as nat == packet.resources.len(),
    ensures
        read_packet(BufferState { bytes, position: at }) == (PacketRead {
            result: Ok(packet.read_back()),
            position: at + packet.wire().len(),
        }),
{
    let q = questions_wire(packet.questions);
    let a = records_wire(packet.answers);
    let n = records_wire(packet.authorities);
    let r = records_wire(packet.resources);
    lemma_found_sections(bytes, at, packet);
    let st = BufferState { bytes, position: at };
    let header = DnsHeader::blank().parsed(st);
    assert(header == packet.header) by {
        lemma_read_written_header(bytes, at, packet.header, DnsHeader::blank());
    }
    let at_questions = at + 12;
    let questions = read_questions(st.at(st.position + 12), header.questions as nat);
    assert(questions == QuestionsRead {
        result: Ok(questions_read_back(packet.questions)),
        position: at_questions + q.len(),
    }) by {
        lemma_read_written_questions(bytes, at_questions, packet.questions);
    }
    let at_answers = at_questions + q.len();
    let answers = read_records(st.at(questions.position), header.answers as nat);
    assert(answers == RecordsRead {
        result: Ok(records_read_back(packet.answers)),
        position: at_answers + a.len(),
    }) by {
        lemma_read_written_records(bytes, at_answers, packet.answers);
    }
    let at_authorities = at_answers + a.len();
    let authorities = read_records(st.at(answers.position), header.authoritative_entries as nat);
    assert(authorities == RecordsRead {
        result: Ok(records_read_back(packet.authorities)),
        position: at_authorities + n.len(),
    }) by {
        lemma_read_written_records(bytes, at_authorities, packet.authorities);
    }
    let at_resources = at_authorities + n.len();
    let resources = read_records(st.at(authorities.position), header.resource_entries as nat);
    assert(resources == RecordsRead {
        result: Ok(records_read_back(packet.resources)),
        position: at_resources + r.len(),
    }) by {
        lemma_read_written_records(bytes, at_resources, packet.resources);
    }
    assert(st.fits(12));
}

/// What was written where it fits is found where it was written.
pub proof fn lemma_found_written(buffer: BufferState, wire: Seq<u8>)
    requires
        buffer.bytes.len() == 512,
        0 <= buffer.position,
        buffer.position + wire.len() <= 512,
    ensures
        found_at(buffer.write(wire).bytes, buffer.position, wire),
        buffer.write(wire).bytes.len() == 512,
        buffer.write(wire).position == buffer.position + wire.len(),
{
    reveal(found_at);
    lemma_stored(buffer.bytes, buffer.position, wire);
    assert(buffer.write(wire).bytes.subrange(buffer.position, buffer.position + wire.len())
        =~= wire);
}

/// A message that fits in the buffer has fewer entries in each section
/// than sixteen bits count.
pub proof fn lemma_counts_fit(packet: PacketView)
    requires
        packet.wire().len() <= 512,
        questions_ok(packet.questions),
        records_ok(packet.answers),
        records_ok(packet.authorities),
        records_ok(packet.resources),
        questions_wire(packet.questions).len() >= 5 * packet.questions.len(),
        plain_records(packet.answers),
        plain_records(packet.authorities),
        plain_records(packet.resources),
    ensures
        packet.questions.len() < 0x1_0000,
        packet.answers.len() < 0x1_0000,
        packet.authorities.len() < 0x1_0000,
        packet.resources.len() < 0x1_0000,
{
    lemma_records_len(packet.answers);
    lemma_records_len(packet.authorities);
    lemma_records_len(packet.resources);
}

/// A message is read back as it was written, but for the counts in its
/// header, which are those of its sections, and for the case of its names.
///
/// Let a message hold no record of unknown type, no name with an empty
/// label, no type written as unknown that is known, and an opcode of four
/// bits. If writing it succeeds, with the counts of its header set, then
/// reading where it was written succeeds, ends where writing ended, and
/// gives the message that was written with every name as reading makes it
/// (see `lemma_ascii_name_text`: in lower case, where it is ASCII).
pub proof fn law_packet_round_trip(packet: PacketView, buffer: BufferState)
    requires
        buffer.bytes.len() == 512,
        0 <= buffer.position,
        packet.plain(),
        packet.counted().write(buffer).result is Ok,
    ensures
        read_packet(packet.counted().write(buffer).buffer.at(buffer.position)) == (PacketRead {
            result: Ok(packet.counted().read_back()),
            position: packet.counted().write(buffer).buffer.position,
        }),
{
    let m = packet.counted();
    lemma_written_packet(m, buffer);
    lemma_found_written(buffer, m.wire());
    lemma_counts_fit(m);
    lemma_read_written_packet(buffer.write(m.wire()).bytes, buffer.position, m);
}

impl QuestionView {
    /// The question with its name in lower case.
    pub open spec fn lowercased(self) -> QuestionView {
        QuestionView { name: lowercase_ascii(self.name), qtype: self.qtype }
    }

    /// Whether the name of the question is ASCII.
    pub open spec fn ascii(self) -> bool {
        is_ascii_chars(self.name)
    }
}

impl RecordView {
    /// The host that the data of the record names; the empty name where it
    /// names none.
    pub open spec fn host(self) -> Seq<char> {
        match self {
            RecordView::Ns { host, .. } => host,
            RecordView::Cname { host, .. } => host,
            RecordView::Mx { host, .. } => host,
            _ => Seq::empty(),
        }
    }

    /// The record with its names in lower case.
    pub open spec fn lowercased(self) -> RecordView {
        match self {
            RecordView::A { domain, addr, ttl } => RecordView::A {
                domain: lowercase_ascii(domain),
                addr,
                ttl,
            },
            RecordView::Ns { domain, host, ttl } => RecordView::Ns {
                domain: lowercase_ascii(domain),
                host: lowercase_ascii(host),
                ttl,
            },
            RecordView::Cname { domain, host, ttl } => RecordView::Cname {
                domain: lowercase_ascii(domain),
                host: lowercase_ascii(host),
                ttl,
            },
            RecordView::Mx { domain, priority, host, ttl } => RecordView::Mx {
                domain: lowercase_ascii(domain),
                priority,
                host: lowercase_ascii(host),
                ttl,
            },
            RecordView::Aaaa { domain, addr, ttl } => RecordView::Aaaa {
                domain: lowercase_ascii(domain),
                addr,
                ttl,
            },
            RecordView::Unknown { domain, qtype, data_len, ttl } => RecordView::Unknown {
                domain: lowercase_ascii(domain),
                qtype,
                data_len,
                ttl,
            },
        }
    }

    /// Whether the names of the record are ASCII.
    pub open spec fn ascii(self) -> bool {
        is_ascii_chars(self.domain()) && is_ascii_chars(self.host())
    }
}

/// Whether the names of all of `records` are ASCII.
pub open spec fn ascii_records(records: Seq<RecordView>) -> bool {
    forall|i: int| 0 <= i < records.len() ==> (#[trigger] records[i]).ascii()
}

impl PacketView {
    /// The message with every name in lower case.
    pub open spec fn lowercased(self) -> PacketView {
        PacketView {
            header: self.header,
            questions: Seq::new(self.questions.len(), |i: int| self.questions[i].lowercased()),
            answers: Seq::new(self.answers.len(), |i: int| self.answers[i].lowercased()),
            authorities: Seq::new(
                self.authorities.len(),
                |i: int| self.authorities[i].lowercased(),
            ),
            resources: Seq::new(self.resources.len(), |i: int| self.resources[i].lowercased()),
        }
    }

    /// Whether every name in the message is ASCII.
    pub open spec fn ascii(self) -> bool {
        &&& forall|i: int| 0 <= i < self.questions.len() ==> (#[trigger] self.questions[i]).ascii()
        &&& ascii_records(self.answers)
        &&& ascii_records(self.authorities)
        &&& ascii_records(self.resources)
    }
}

/// A record with ASCII names is read back in lower case.
pub proof fn lemma_ascii_record(record: RecordView)
    requires
        record.ascii(),
    ensures
        record.read_back() == record.lowercased(),
{
    lemma_ascii_name_text(record.domain());
    lemma_ascii_name_text(record.host());
}

/// Records with ASCII names are read back in lower case.
pub proof fn lemma_ascii_records(records: Seq<RecordView>)
    requires
        ascii_records(records),
    ensures
        records_read_back(records) == Seq::new(records.len(), |i: int| records[i].lowercased()),
{
    assert forall|i: int| 0 <= i < records.len() implies (#[trigger] records[i]).read_back()
        == records[i].lowercased() by {
        lemma_ascii_record(records[i]);
    }
    assert(records_read_back(records) =~= Seq::new(
        records.len(),
        |i: int| records[i].lowercased(),
    ));
}

/// A message whose names are all ASCII is read back as it was written, but
/// for the counts in its header, which are those of its sections, and for
/// its names, which are in lower case.
///
/// This holds of a message without a record of unknown type, a name with an
/// empty label, a known type written as unknown, or an opcode beyond four
/// bits, where writing it succeeds.
pub proof fn law_ascii_packet_round_trip(packet: PacketView, buffer: BufferState)
    requires
        buffer.bytes.len() == 512,
        0 <= buffer.position,
        packet.plain(),
        packet.ascii(),
        packet.counted().write(buffer).result is Ok,
    ensures
        read_packet(packet.counted().write(buffer).buffer.at(buffer.position)) == (PacketRead {
            result: Ok(packet.counted().lowercased()),
            position: packet.counted().write(buffer).buffer.position,
        }),
{
    let m = packet.counted();
    law_packet_round_trip(packet, buffer);
    lemma_ascii_records(m.answers);
    lemma_ascii_records(m.authorities);
    lemma_ascii_records(m.resources);
    assert forall|i: int| 0 <= i < m.questions.len() implies (#[trigger] m.questions[i]).read_back()
        == m.questions[i].lowercased() by {
        lemma_ascii_name_text(m.questions[i].name);
    }
    assert(questions_read_back(m.questions) =~= m.lowercased().questions);
}

} // verus!
