//! What reading does at most, whatever the buffer holds.

use crate::buffer::BufferState;
use crate::error::BytePacketBufferError;
use crate::name::{is_pointer, pointer_target, read_name, walk_name, NameWalk, MAX_JUMPS};
use crate::packet::{fresh_question, read_packet, read_questions, read_records};
use crate::question::QuestionView;
use crate::record::read_record;
use vstd::prelude::*;

verus! {

/// Whether `e` is an error that reading can end in.
pub open spec fn read_error(e: BytePacketBufferError) -> bool {
    e == BytePacketBufferError::EndOfBuffer || e == BytePacketBufferError::LimitOfJumpsExceeded(
        MAX_JUMPS,
    )
}

/// The number of pointers that reading a name has met when it ends, having
/// met `jumps` of them before it reads on at `at`.
pub open spec fn pointers_met(bytes: Seq<u8>, at: int, jumps: int) -> int
    decreases 6 - jumps, 512 - at,
{
    if jumps > MAX_JUMPS || !(0 <= at < 512) {
        jumps
    } else if is_pointer(bytes[at]) {
        if at + 1 >= 512 {
            jumps
        } else {
            pointers_met(bytes, pointer_target(bytes[at], bytes[at + 1]), jumps + 1)
        }
    } else if bytes[at] == 0 || at + 1 + bytes[at] >= 512 {
        jumps
    } else {
        pointers_met(bytes, at + 1 + bytes[at], jumps)
    }
}

/// Reading a name ends at the sixth pointer it meets, with an error and
/// before anything is read where that pointer leads: a name that is read to
/// its end has at most five pointers.
pub proof fn law_pointer_limit(
    bytes: Seq<u8>,
    at: int,
    jumps: int,
    cursor: int,
    jumped: bool,
    text: Seq<char>,
    first: bool,
)
    requires
        0 <= jumps <= MAX_JUMPS + 1,
    ensures
        jumps <= pointers_met(bytes, at, jumps) <= MAX_JUMPS + 1,
        walk_name(bytes, at, jumps, cursor, jumped, text, first).result is Ok ==> pointers_met(
            bytes,
            at,
            jumps,
        ) <= MAX_JUMPS,
        pointers_met(bytes, at, jumps) > MAX_JUMPS ==> walk_name(
            bytes,
            at,
            jumps,
            cursor,
            jumped,
            text,
            first,
        ).result == Err::<(), BytePacketBufferError>(
            BytePacketBufferError::LimitOfJumpsExceeded(MAX_JUMPS),
        ),
    decreases 6 - jumps, 512 - at,
{
    if jumps > MAX_JUMPS || !(0 <= at < 512) {
    } else if is_pointer(bytes[at]) {
        if at + 1 < 512 {
            let cursor = if jumped {
                cursor
            } else {
                at + 2
            };
            law_pointer_limit(
                bytes,
                pointer_target(bytes[at], bytes[at + 1]),
                jumps + 1,
                cursor,
                true,
                text,
                first,
            );
        }
    } else if bytes[at] == 0 || at + 1 + bytes[at] >= 512 {
    } else {
        let len = bytes[at] as int;
        let text = if first {
            text
        } else {
            text.push('.')
        };
        law_pointer_limit(
            bytes,
            at + 1 + len,
            jumps,
            cursor,
            jumped,
            text + crate::text::label_text(bytes.subrange(at + 1, at + 1 + len)),
            false,
        );
    }
}

/// A pointer that points at itself is followed until the limit of jumps is
/// exceeded. The cursor then stands behind the pointer, and no text was
/// read.
pub proof fn law_self_pointer(buffer: BufferState, out: Seq<char>)
    requires
        buffer.bytes.len() == 512,
        0 <= buffer.position < 511,
        is_pointer(buffer.bytes[buffer.position]),
        pointer_target(buffer.bytes[buffer.position], buffer.bytes[buffer.position + 1])
            == buffer.position,
    ensures
        read_name(buffer, out) == (NameWalk {
            text: out,
            position: buffer.position + 2,
            result: Err(BytePacketBufferError::LimitOfJumpsExceeded(MAX_JUMPS)),
        }),
{
    let b = buffer.bytes;
    let p = buffer.position;
    let end = NameWalk {
        text: out,
        position: p + 2,
        result: Err(BytePacketBufferError::LimitOfJumpsExceeded(MAX_JUMPS)),
    };
    assert(walk_name(b, p, 6, p + 2, true, out, true) == end);
    assert(walk_name(b, p, 5, p + 2, true, out, true) == end);
    assert(walk_name(b, p, 4, p + 2, true, out, true) == end);
    assert(walk_name(b, p, 3, p + 2, true, out, true) == end);
    assert(walk_name(b, p, 2, p + 2, true, out, true) == end);
    assert(walk_name(b, p, 1, p + 2, true, out, true) == end);
}

/// Reading a name fails only where the name leaves the buffer or has too
/// many pointers. Where it succeeds, the cursor has moved forward and is
/// inside the buffer or at its end.
pub proof fn lemma_walk_ends(
    bytes: Seq<u8>,
    at: int,
    jumps: int,
    cursor: int,
    jumped: bool,
    text: Seq<char>,
    first: bool,
)
    ensures
        ({
            let walk = walk_name(bytes, at, jumps, cursor, jumped, text, first);
            &&& walk.result matches Err(e) ==> read_error(e)
            &&& walk.result is Ok && jumped ==> walk.position == cursor
            &&& walk.result is Ok && !jumped ==> at < walk.position <= 512
        }),
    decreases 6 - jumps, 512 - at,
{
    if jumps > MAX_JUMPS || !(0 <= at < 512) {
    } else if is_pointer(bytes[at]) {
        if at + 1 < 512 {
            let cursor = if jumped {
                cursor
            } else {
                at + 2
            };
            lemma_walk_ends(
                bytes,
                pointer_target(bytes[at], bytes[at + 1]),
                jumps + 1,
                cursor,
                true,
                text,
                first,
            );
        }
    } else if bytes[at] == 0 || at + 1 + bytes[at] >= 512 {
    } else {
        let len = bytes[at] as int;
        let text = if first {
            text
        } else {
            text.push('.')
        };
        lemma_walk_ends(
            bytes,
            at + 1 + len,
            jumps,
            cursor,
            jumped,
            text + crate::text::label_text(bytes.subrange(at + 1, at + 1 + len)),
            false,
        );
    }
}

/// Reading a question fails only with an error of reading, and where it
/// succeeds it has taken at least five bytes inside the buffer.
pub proof fn lemma_question_ends(question: QuestionView, st: BufferState)
    ensures
        question.read(st).result matches Err(e) ==> read_error(e),
        question.read(st).result is Ok ==> st.position + 5 <= question.read(st).position <= 512,
{
    lemma_walk_ends(st.bytes, st.position, 0, st.position, false, question.name, true);
}

/// Reading a record fails only with an error of reading, and where it
/// succeeds it began inside the buffer and has taken at least eleven bytes.
pub proof fn lemma_record_ends(st: BufferState)
    ensures
        read_record(st).result matches Err(e) ==> read_error(e),
        read_record(st).result is Ok ==> 0 <= st.position < 512 && st.position + 11 <= read_record(
            st,
        ).position,
{
    let empty = Seq::<char>::empty();
    lemma_walk_ends(st.bytes, st.position, 0, st.position, false, empty, true);
    let p = read_name(st, empty).position;
    lemma_walk_ends(st.bytes, p + 10, 0, p + 10, false, empty, true);
    lemma_walk_ends(st.bytes, p + 12, 0, p + 12, false, empty, true);
}

/// Reading a run of questions fails only with an error of reading, and
/// where it succeeds each question has taken at least five bytes inside the
/// buffer.
pub proof fn lemma_questions_end(st: BufferState, count: nat)
    ensures
        read_questions(st, count).result matches Err(e) ==> read_error(e),
        read_questions(st, count).result matches Ok(questions) ==> questions.len() == count
            && st.position + 5 * count <= read_questions(st, count).position,
        read_questions(st, count).result is Ok && count > 0 ==> read_questions(
            st,
            count,
        ).position <= 512,
    decreases count,
{
    if count > 0 {
        lemma_question_ends(fresh_question(), st);
        let first = fresh_question().read(st);
        lemma_questions_end(st.at(first.position), (count - 1) as nat);
    }
}

/// Reading a run of records fails only with an error of reading, and where
/// it succeeds each record but the last has taken at least eleven bytes
/// inside the buffer.
pub proof fn lemma_records_end(st: BufferState, count: nat)
    ensures
        read_records(st, count).result matches Err(e) ==> read_error(e),
        read_records(st, count).result matches Ok(records) ==> records.len() == count
            && st.position + 11 * count <= read_records(st, count).position,
        read_records(st, count).result is Ok && count > 0 ==> 0 <= st.position && st.position + 11
            * (count - 1) < 512,
    decreases count,
{
    if count > 0 {
        lemma_record_ends(st);
        let first = read_record(st);
        lemma_records_end(st.at(first.position), (count - 1) as nat);
    }
}

/// Reading a message, whatever the buffer holds, gives a message or fails
/// with the end of the buffer or the limit of jumps. A message that is read
/// has as many entries in each section as its header counts, and no more
/// than fit in the buffer: five bytes to a question, eleven to a record.
pub proof fn law_read_bounded(st: BufferState)
    requires
        0 <= st.position,
    ensures
        read_packet(st).result matches Err(e) ==> read_error(e),
        read_packet(st).result matches Ok(packet) ==> {
            &&& packet.questions.len() == packet.header.questions
            &&& packet.answers.len() == packet.header.answers
            &&& packet.authorities.len() == packet.header.authoritative_entries
            &&& packet.resources.len() == packet.header.resource_entries
            &&& 12 + 5 * packet.questions.len() + 11 * (packet.answers.len()
                + packet.authorities.len() + packet.resources.len()) <= 512 + 11
        },
{
    let header = crate::header::DnsHeader::blank().parsed(st);
    let start = st.at(st.position + 12);
    lemma_questions_end(start, header.questions as nat);
    let questions = read_questions(start, header.questions as nat);
    lemma_records_end(st.at(questions.position), header.answers as nat);
    let answers = read_records(st.at(questions.position), header.answers as nat);
    lemma_records_end(st.at(answers.position), header.authoritative_entries as nat);
    let authorities = read_records(st.at(answers.position), header.authoritative_entries as nat);
    lemma_records_end(st.at(authorities.position), header.resource_entries as nat);
}

} // verus!
