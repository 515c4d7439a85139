//! Domain names on the wire: labels, each behind its length, closed by a
//! zero byte, and on reading also pointers back into the packet.

use crate::buffer::{lemma_write_empty, lemma_write_write, BufferState, BytePacketBuffer};
use crate::error::BytePacketBufferError;
use crate::text::{decode_label, label_text};
use vstd::prelude::*;
use vstd::string::{StringExecFns, StringSliceAdditionalSpecFns};

verus! {

/// The longest chain of pointers that is followed while reading one name.
pub const MAX_JUMPS: usize = 5;

/// The longest label that is written.
pub const MAX_LABEL_LEN: usize = 63;

/// The byte that separates the labels of a name in its text form.
pub const DOT: u8 = 0x2E;

/// Number of bytes of `name` before its first dot; its length when it has none.
pub open spec fn first_dot(name: Seq<u8>) -> nat
    decreases name.len(),
{
    if name.len() == 0 || name[0] == DOT {
        0
    } else {
        1 + first_dot(name.drop_first())
    }
}

/// The labels of `name`: the pieces between its dots, of which there is
/// always at least one.
pub open spec fn split_labels(name: Seq<u8>) -> Seq<Seq<u8>>
    decreases name.len(),
{
    let n = first_dot(name);
    if n >= name.len() {
        seq![name]
    } else {
        seq![name.take(n as int)] + split_labels(name.skip(n as int + 1))
    }
}

/// Whether no label is longer than 63 bytes.
pub open spec fn labels_ok(labels: Seq<Seq<u8>>) -> bool {
    forall|i: int| 0 <= i < labels.len() ==> (#[trigger] labels[i]).len() <= MAX_LABEL_LEN
}

/// The bytes that writing `labels` emits: each label behind its length and
/// a closing zero; but nothing from the first label on that is too long.
pub open spec fn emit_labels(labels: Seq<Seq<u8>>) -> Seq<u8>
    decreases labels.len(),
{
    if labels.len() == 0 {
        seq![0u8]
    } else if labels[0].len() > MAX_LABEL_LEN {
        Seq::empty()
    } else {
        seq![labels[0].len() as u8] + labels[0] + emit_labels(labels.drop_first())
    }
}

/// The bytes that writing the name with the text bytes `name` emits. The
/// empty name is the root and is a single zero byte.
pub open spec fn name_emit(name: Seq<u8>) -> Seq<u8> {
    if name.len() == 0 {
        seq![0u8]
    } else {
        emit_labels(split_labels(name))
    }
}

/// Whether no label of `name` is too long to be written.
pub open spec fn name_ok(name: Seq<u8>) -> bool {
    labels_ok(split_labels(name))
}

/// The texts of `labels`, with a dot between each two.
pub open spec fn join_labels(labels: Seq<Seq<u8>>) -> Seq<char>
    decreases labels.len(),
{
    if labels.len() == 0 {
        Seq::empty()
    } else if labels.len() == 1 {
        label_text(labels[0])
    } else {
        label_text(labels[0]) + seq!['.'] + join_labels(labels.drop_first())
    }
}

/// The text that a name with the text bytes `name` is read back as, once
/// written: label by label, each as reading makes it.
pub open spec fn name_text(name: Seq<u8>) -> Seq<char> {
    if name.len() == 0 {
        Seq::empty()
    } else {
        join_labels(split_labels(name))
    }
}

/// Whether no label is empty.
pub open spec fn labels_filled(labels: Seq<Seq<u8>>) -> bool {
    forall|i: int| 0 <= i < labels.len() ==> (#[trigger] labels[i]).len() > 0
}

/// Whether `name` is the empty name or has no empty label: no dot at its
/// start or end, and no two dots in a row.
pub open spec fn plain_name(name: Seq<u8>) -> bool {
    name.len() == 0 || labels_filled(split_labels(name))
}

/// How a write that emits `emitted` ends: it runs out of room, or else it
/// stops at a label that is too long, or else it succeeds.
pub open spec fn emit_result(st: BufferState, emitted: Seq<u8>, ok: bool) -> Result<
    (),
    BytePacketBufferError,
> {
    if !st.fits(emitted.len() as int) {
        Err(BytePacketBufferError::EndOfBuffer)
    } else if !ok {
        Err(BytePacketBufferError::SingleLabelExceedsCharactersOfLength)
    } else {
        Ok(())
    }
}

/// Whether a length byte is the first byte of a pointer.
pub open spec fn is_pointer(b: u8) -> bool {
    b >= 0xC0
}

/// The offset that the two bytes of a pointer name.
pub open spec fn pointer_target(b1: u8, b2: u8) -> int {
    (b1 - 0xC0) * 0x100 + b2
}

/// Where the reading of a name ends: the text gathered, the cursor of the
/// buffer, and whether the name was read to its end.
pub struct NameWalk {
    pub text: Seq<char>,
    pub position: int,
    pub result: Result<(), BytePacketBufferError>,
}

/// Reads on in a name from index `at`, after `jumps` pointers were followed.
/// `cursor` is the buffer's cursor, which moves only at the first pointer
/// (to just behind it) or, with no pointer, at the end of the name (to just
/// behind its closing zero). `text` is what was gathered so far and `first`
/// says that no label was read yet.
pub open spec fn walk_name(
    bytes: Seq<u8>,
    at: int,
    jumps: int,
    cursor: int,
    jumped: bool,
    text: Seq<char>,
    first: bool,
) -> NameWalk
    decreases 6 - jumps, 512 - at,
{
    if jumps > MAX_JUMPS {
        NameWalk {
            text,
            position: cursor,
            result: Err(BytePacketBufferError::LimitOfJumpsExceeded(MAX_JUMPS)),
        }
    } else if !(0 <= at < 512) {
        NameWalk { text, position: cursor, result: Err(BytePacketBufferError::EndOfBuffer) }
    } else if is_pointer(bytes[at]) {
        let cursor = if jumped {
            cursor
        } else {
            at + 2
        };
        if at + 1 >= 512 {
            NameWalk { text, position: cursor, result: Err(BytePacketBufferError::EndOfBuffer) }
        } else {
            walk_name(
                bytes,
                pointer_target(bytes[at], bytes[at + 1]),
                jumps + 1,
                cursor,
                true,
                text,
                first,
            )
        }
    } else if bytes[at] == 0 {
        NameWalk {
            text,
            position: if jumped {
                cursor
            } else {
                at + 1
            },
            result: Ok(()),
        }
    } else {
        let len = bytes[at] as int;
        let text = if first {
            text
        } else {
            text.push('.')
        };
        if at + 1 + len >= 512 {
            NameWalk { text, position: cursor, result: Err(BytePacketBufferError::EndOfBuffer) }
        } else {
            walk_name(
                bytes,
                at + 1 + len,
                jumps,
                cursor,
                jumped,
                text + label_text(bytes.subrange(at + 1, at + 1 + len)),
                false,
            )
        }
    }
}

/// The reading of the name at the cursor of `st`, appended to `text`.
pub open spec fn read_name(st: BufferState, text: Seq<char>) -> NameWalk {
    walk_name(st.bytes, st.position, 0, st.position, false, text, true)
}

/// The first dot of `name` is at `n` when no byte before `n` is a dot and
/// `n` is a dot or the end.
pub proof fn lemma_first_dot(name: Seq<u8>, n: nat)
    requires
        n <= name.len(),
        forall|k: int| 0 <= k < n ==> name[k] != DOT,
        n == name.len() || name[n as int] == DOT,
    ensures
        first_dot(name) == n,
    decreases n,
{
    if n > 0 {
        lemma_first_dot(name.drop_first(), (n - 1) as nat);
    }
}

/// What a name emits, label by label: `name` from `start` on has its first
/// label end at `end`.
pub proof fn lemma_emit_step(name: Seq<u8>, start: int, end: int)
    requires
        0 <= start <= end <= name.len(),
        forall|k: int| start <= k < end ==> name[k] != DOT,
        end == name.len() || name[end] == DOT,
    ensures
        ({
            let rest = name.skip(start);
            let label = name.subrange(start, end);
            let tail = if end == name.len() {
                Seq::<Seq<u8>>::empty()
            } else {
                split_labels(name.skip(end + 1))
            };
            &&& split_labels(rest) == seq![label] + tail
            &&& labels_ok(split_labels(rest)) <==> label.len() <= MAX_LABEL_LEN && labels_ok(tail)
            &&& emit_labels(split_labels(rest)) == if label.len() > MAX_LABEL_LEN {
                Seq::<u8>::empty()
            } else {
                seq![label.len() as u8] + label + emit_labels(tail)
            }
        }),
{
    let rest = name.skip(start);
    let label = name.subrange(start, end);
    let tail = if end == name.len() {
        Seq::<Seq<u8>>::empty()
    } else {
        split_labels(name.skip(end + 1))
    };
    lemma_first_dot(rest, (end - start) as nat);
    if end == name.len() {
        assert(rest =~= label);
        assert(split_labels(rest) =~= seq![label] + tail);
    } else {
        assert(rest.take(end - start) =~= label);
        assert(rest.skip(end - start + 1) =~= name.skip(end + 1));
    }
    let labels = seq![label] + tail;
    assert(labels[0] == label);
    assert(labels.drop_first() =~= tail);
    assert(labels_ok(labels) <==> label.len() <= MAX_LABEL_LEN && labels_ok(tail)) by {
        if label.len() <= MAX_LABEL_LEN && labels_ok(tail) {
            assert forall|i: int| 0 <= i < labels.len() implies (#[trigger] labels[i]).len()
                <= MAX_LABEL_LEN by {
                if i > 0 {
                    assert(labels[i] == tail[i - 1]);
                }
            }
        }
        if labels_ok(labels) {
            assert forall|i: int| 0 <= i < tail.len() implies (#[trigger] tail[i]).len()
                <= MAX_LABEL_LEN by {
                assert(tail[i] == labels[i + 1]);
            }
        }
    }
}

impl BytePacketBuffer {
    /// Reads the name at the cursor and appends its text to `out`: the
    /// labels in lower case, with a dot between them. A pointer is followed
    /// wherever it leads; the cursor then stays just behind the first one.
    /// Reading fails once more than five pointers were met, or where the
    /// name leaves the buffer.
    pub fn read_qname(&mut self, out: &mut String) -> (r: Result<(), BytePacketBufferError>)
        ensures
            final(self).buffer == old(self).buffer,
            final(self).position == read_name(old(self)@, old(out)@).position,
            final(out)@ == read_name(old(self)@, old(out)@).text,
            r == read_name(old(self)@, old(out)@).result,
            r matches Err(e) ==> e == BytePacketBufferError::EndOfBuffer || e
                == BytePacketBufferError::LimitOfJumpsExceeded(MAX_JUMPS),
    {
        let ghost goal = read_name(self@, out@);
        proof {
            crate::bounds::lemma_walk_ends(
                self@.bytes,
                self@.position,
                0,
                self@.position,
                false,
                out@,
                true,
            );
        }
        let ghost bytes = self@.bytes;
        let mut position = self.position;
        let mut jumped = false;
        let mut jump_performed: usize = 0;
        let mut first = true;
        loop
            invariant_except_break
                goal == walk_name(
                    bytes,
                    position as int,
                    jump_performed as int,
                    self.position as int,
                    jumped,
                    out@,
                    first,
                ),
            invariant
                self.buffer == old(self).buffer,
                bytes == old(self)@.bytes,
                goal == read_name(old(self)@, old(out)@),
                jump_performed <= MAX_JUMPS + 1,
            ensures
                goal == (NameWalk {
                    text: out@,
                    position: if jumped {
                        self.position as int
                    } else {
                        position as int
                    },
                    result: Ok(()),
                }),
                !jumped ==> position <= 512,
            decreases 6 - jump_performed, 0x300 - position,
        {
            if jump_performed > MAX_JUMPS {
                return Err(BytePacketBufferError::LimitOfJumpsExceeded(MAX_JUMPS));
            }
            let len = self.get(position)?;
            assert((len & 0xC0) == 0xC0 <==> len >= 0xC0) by (bit_vector);
            if (len & 0xC0) == 0xC0 {
                if !jumped {
                    self.seek(position + 2)?;
                }
                let b2 = self.get(position + 1)? as u16;
                let offset = (((len as u16) ^ 0xC0) << 8) | b2;
                assert((((len as u16) ^ 0xC0) << 8) | b2 == (len - 0xC0) * 0x100 + b2) by (bit_vector)
                    requires
                        len >= 0xC0,
                        b2 < 0x100,
                ;
                position = offset as usize;
                jumped = true;
                jump_performed += 1;
                continue ;
            } else {
                position += 1;
                if len == 0 {
                    break ;
                }
                if !first {
                    out.push('.');
                }
                let label = self.get_range(position, len as usize)?;
                let text = decode_label(label);
                out.append(text.as_str());
                first = false;
                position += len as usize;
            }
        }
        if !jumped {
            self.seek(position)?;
        }
        Ok(())
    }

    /// Writes `qname` at the cursor: each of its labels behind a length
    /// byte, then a zero byte. The empty name is written as the zero byte
    /// alone. Stops with an error at the first label longer than 63 bytes,
    /// or where the buffer is full.
    pub fn write_qname(&mut self, qname: &str) -> (r: Result<(), BytePacketBufferError>)
        ensures
            final(self)@ == old(self)@.write(name_emit(qname.spec_bytes())),
            r == emit_result(
                old(self)@,
                name_emit(qname.spec_bytes()),
                name_ok(qname.spec_bytes()),
            ),
    {
        let name = qname.as_bytes();
        let n = name.len();
        if n == 0 {
            self.write_u8(0)?;
            return Ok(());
        }
        let ghost goal = self@.write(name_emit(name@));
        let ghost goal_r = emit_result(self@, name_emit(name@), name_ok(name@));
        let mut start: usize = 0;
        assert(name@.skip(0) =~= name@);
        loop
            invariant_except_break
                start <= n,
                goal == self@.write(emit_labels(split_labels(name@.skip(start as int)))),
                goal_r == emit_result(
                    self@,
                    emit_labels(split_labels(name@.skip(start as int))),
                    labels_ok(split_labels(name@.skip(start as int))),
                ),
            invariant
                n == name@.len(),
                goal == old(self)@.write(name_emit(qname.spec_bytes())),
                goal_r == emit_result(
                    old(self)@,
                    name_emit(qname.spec_bytes()),
                    name_ok(qname.spec_bytes()),
                ),
            ensures
                goal == self@.write(seq![0u8]),
                goal_r == emit_result(self@, seq![0u8], true),
            decreases n - start,
        {
            let mut end = start;
            while end < n && name[end] != DOT
                invariant
                    start <= end <= n,
                    n == name@.len(),
                    forall|k: int| start <= k < end ==> name@[k] != DOT,
                decreases n - end,
            {
                end += 1;
            }
            let len = end - start;
            let ghost label = name@.subrange(start as int, end as int);
            let ghost tail = emit_labels(
                if end == n {
                    Seq::<Seq<u8>>::empty()
                } else {
                    split_labels(name@.skip(end + 1))
                },
            );
            let ghost tail_ok = labels_ok(
                if end == n {
                    Seq::<Seq<u8>>::empty()
                } else {
                    split_labels(name@.skip(end + 1))
                },
            );
            proof {
                lemma_emit_step(name@, start as int, end as int);
                lemma_write_empty(self@);
            }
            if len > MAX_LABEL_LEN {
                return Err(BytePacketBufferError::SingleLabelExceedsCharactersOfLength);
            }
            proof {
                lemma_write_write(self@, seq![len as u8], label + tail);
                assert(seq![len as u8] + label + tail =~= seq![len as u8] + (label + tail));
            }
            self.write_u8(len as u8)?;
            let mut k = start;
            assert(name@.subrange(k as int, end as int) =~= label);
            while k < end
                invariant
                    start <= k <= end <= n,
                    n == name@.len(),
                    goal == old(self)@.write(name_emit(qname.spec_bytes())),
                    goal_r == emit_result(
                        old(self)@,
                        name_emit(qname.spec_bytes()),
                        name_ok(qname.spec_bytes()),
                    ),
                    goal == self@.write(name@.subrange(k as int, end as int) + tail),
                    goal_r == emit_result(
                        self@,
                        name@.subrange(k as int, end as int) + tail,
                        tail_ok,
                    ),
                decreases end - k,
            {
                proof {
                    let rest = name@.subrange(k + 1, end as int) + tail;
                    lemma_write_write(self@, seq![name@[k as int]], rest);
                    assert(name@.subrange(k as int, end as int) + tail =~= seq![name@[k as int]]
                        + rest);
                }
                self.write_u8(name[k])?;
                k += 1;
            }
            assert(name@.subrange(end as int, end as int) + tail =~= tail);
            if end == n {
                break ;
            }
            start = end + 1;
        }
        self.write_u8(0)?;
        Ok(())
    }
}

} // verus!
