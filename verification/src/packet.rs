//! A whole message: the header and the four sections.

use crate::bounds::{law_read_bounded, read_error};
use crate::buffer::{BufferState, BytePacketBuffer};
use crate::error::BytePacketBufferError;
use crate::header::DnsHeader;
use crate::name::emit_result;
use crate::question::{name_bytes, DnsQuestion, QueryType, QuestionView};
use crate::record::{read_record, DnsRecord, Ipv4Address, RecordView};
use vstd::prelude::*;
use vstd::string::StringSliceAdditionalSpecFns;

verus! {

/// A message: its header, its questions and its three sections of records,
/// each in the order of the wire.
#[derive(Debug, Clone, PartialEq, Eq)]
pub struct DnsPacket {
    pub header: DnsHeader,
    pub questions: Vec<DnsQuestion>,
    pub answers: Vec<DnsRecord>,
    pub authorities: Vec<DnsRecord>,
    pub resources: Vec<DnsRecord>,
}

/// The mathematical content of a [`DnsPacket`].
pub struct PacketView {
    pub header: DnsHeader,
    pub questions: Seq<QuestionView>,
    pub answers: Seq<RecordView>,
    pub authorities: Seq<RecordView>,
    pub resources: Seq<RecordView>,
}

/// The contents of a list of questions.
pub open spec fn question_views(questions: Seq<DnsQuestion>) -> Seq<QuestionView> {
    Seq::new(questions.len(), |i: int| questions[i]@)
}

/// The contents of a list of records.
pub open spec fn record_views(records: Seq<DnsRecord>) -> Seq<RecordView> {
    Seq::new(records.len(), |i: int| records[i]@)
}

impl View for DnsPacket {
    type V = PacketView;

    open spec fn view(&self) -> PacketView {
        PacketView {
            header: self.header,
            questions: question_views(self.questions@),
            answers: record_views(self.answers@),
            authorities: record_views(self.authorities@),
            resources: record_views(self.resources@),
        }
    }
}

/// What reading a run of questions ends in.
pub struct QuestionsRead {
    pub result: Result<Seq<QuestionView>, BytePacketBufferError>,
    pub position: int,
}

/// What reading a run of records ends in.
pub struct RecordsRead {
    pub result: Result<Seq<RecordView>, BytePacketBufferError>,
    pub position: int,
}

/// What reading a message ends in.
pub struct PacketRead {
    pub result: Result<PacketView, BytePacketBufferError>,
    pub position: int,
}

/// What writing ends in: the buffer as it then is, and whether all was
/// written.
pub struct Written {
    pub buffer: BufferState,
    pub result: Result<(), BytePacketBufferError>,
}

/// The question that each entry of the question section is read into.
pub open spec fn fresh_question() -> QuestionView {
    QuestionView { name: Seq::empty(), qtype: QueryType::Unknown(0) }
}

/// Reading `count` questions one after the other from the cursor of `st`,
/// up to the first that fails.
pub open spec fn read_questions(st: BufferState, count: nat) -> QuestionsRead
    decreases count,
{
    if count == 0 {
        QuestionsRead { result: Ok(Seq::empty()), position: st.position }
    } else {
        let first = fresh_question().read(st);
        let rest = read_questions(st.at(first.position), (count - 1) as nat);
        match first.result {
            Err(e) => QuestionsRead { result: Err(e), position: first.position },
            Ok(_) => QuestionsRead {
                result: match rest.result {
                    Ok(questions) => Ok(seq![first.question] + questions),
                    Err(e) => Err(e),
                },
                position: rest.position,
            },
        }
    }
}

/// Reading `count` records one after the other from the cursor of `st`, up
/// to the first that fails.
pub open spec fn read_records(st: BufferState, count: nat) -> RecordsRead
    decreases count,
{
    if count == 0 {
        RecordsRead { result: Ok(Seq::empty()), position: st.position }
    } else {
        let first = read_record(st);
        let rest = read_records(st.at(first.position), (count - 1) as nat);
        match first.result {
            Err(e) => RecordsRead { result: Err(e), position: first.position },
            Ok(record) => RecordsRead {
                result: match rest.result {
                    Ok(records) => Ok(seq![record] + records),
                    Err(e) => Err(e),
                },
                position: rest.position,
            },
        }
    }
}

/// Reading a message at the cursor of `st`: the header, then as many
/// questions, answers, authority records and additional records as the
/// header counts, up to the first read that fails.
pub open spec fn read_packet(st: BufferState) -> PacketRead {
    let header = DnsHeader::blank().parsed(st);
    let questions = read_questions(st.at(st.position + 12), header.questions as nat);
    let answers = read_records(st.at(questions.position), header.answers as nat);
    let authorities = read_records(st.at(answers.position), header.authoritative_entries as nat);
    let resources = read_records(st.at(authorities.position), header.resource_entries as nat);
    if !st.fits(12) {
        PacketRead {
            result: Err(BytePacketBufferError::EndOfBuffer),
            position: st.advanced(12),
        }
    } else if questions.result is Err {
        PacketRead { result: Err(questions.result->Err_0), position: questions.position }
    } else if answers.result is Err {
        PacketRead { result: Err(answers.result->Err_0), position: answers.position }
    } else if authorities.result is Err {
        PacketRead { result: Err(authorities.result->Err_0), position: authorities.position }
    } else if resources.result is Err {
        PacketRead { result: Err(resources.result->Err_0), position: resources.position }
    } else {
        PacketRead {
            result: Ok(
                PacketView {
                    header,
                    questions: questions.result->Ok_0,
                    answers: answers.result->Ok_0,
                    authorities: authorities.result->Ok_0,
                    resources: resources.result->Ok_0,
                },
            ),
            position: resources.position,
        }
    }
}

/// Writing `questions` one after the other at the cursor of `st`, up to the
/// first that fails.
pub open spec fn write_questions(st: BufferState, questions: Seq<QuestionView>) -> Written
    decreases questions.len(),
{
    if questions.len() == 0 {
        Written { buffer: st, result: Ok(()) }
    } else {
        let first = emit_result(st, questions[0].emit(), questions[0].ok());
        let then = st.write(questions[0].emit());
        if first is Err {
            Written { buffer: then, result: first }
        } else {
            write_questions(then, questions.drop_first())
        }
    }
}

/// Writing `records` one after the other at the cursor of `st`, up to the
/// first that fails.
pub open spec fn write_records(st: BufferState, records: Seq<RecordView>) -> Written
    decreases records.len(),
{
    if records.len() == 0 {
        Written { buffer: st, result: Ok(()) }
    } else {
        match records[0].write_result(st) {
            Err(e) => Written { buffer: records[0].written(st), result: Err(e) },
            Ok(_) => write_records(records[0].written(st), records.drop_first()),
        }
    }
}

impl PacketView {
    /// The message with a blank header and four empty sections.
    pub open spec fn blank() -> PacketView {
        PacketView {
            header: DnsHeader::blank(),
            questions: Seq::empty(),
            answers: Seq::empty(),
            authorities: Seq::empty(),
            resources: Seq::empty(),
        }
    }

    /// The message with the four counts of its header set to the lengths of
    /// its sections, as far as 16 bits hold them.
    pub open spec fn counted(self) -> PacketView {
        PacketView {
            header: DnsHeader {
                questions: self.questions.len() as u16,
                answers: self.answers.len() as u16,
                authoritative_entries: self.authorities.len() as u16,
                resource_entries: self.resources.len() as u16,
                ..self.header
            },
            ..self
        }
    }

    /// Writing the message at the cursor of `st`: the header as it is, then
    /// the questions and the three sections of records, up to the first
    /// write that fails.
    pub open spec fn write(self, st: BufferState) -> Written {
        let header = Written {
            buffer: st.write(self.header.wire()),
            result: if st.fits(12) {
                Ok(())
            } else {
                Err(BytePacketBufferError::EndOfBuffer)
            },
        };
        let questions = write_questions(header.buffer, self.questions);
        let answers = write_records(questions.buffer, self.answers);
        let authorities = write_records(answers.buffer, self.authorities);
        let resources = write_records(authorities.buffer, self.resources);
        if header.result is Err {
            header
        } else if questions.result is Err {
            questions
        } else if answers.result is Err {
            answers
        } else if authorities.result is Err {
            authorities
        } else {
            resources
        }
    }
}

/// Whether the bytes `text` end with the bytes `suffix`.
pub open spec fn ends_with(text: Seq<u8>, suffix: Seq<u8>) -> bool {
    suffix.len() <= text.len() && text.skip(text.len() - suffix.len()) == suffix
}

/// The address of the first A record among `records`.
pub open spec fn first_a(records: Seq<RecordView>) -> Option<Seq<u8>>
    decreases records.len(),
{
    if records.len() == 0 {
        None
    } else {
        match records[0] {
            RecordView::A { addr, .. } => Some(addr),
            _ => first_a(records.drop_first()),
        }
    }
}

/// The address of the first A record among `records` that `host` owns.
pub open spec fn address_of(records: Seq<RecordView>, host: Seq<char>) -> Option<Seq<u8>>
    decreases records.len(),
{
    if records.len() == 0 {
        None
    } else {
        match records[0] {
            RecordView::A { domain, addr, .. } if domain == host => Some(addr),
            _ => address_of(records.drop_first(), host),
        }
    }
}

/// The name servers that `records` offer for `qname`: of each NS record
/// whose owner's name ends `qname`, the owner and the host, in the order of
/// the records.
pub open spec fn name_servers(records: Seq<RecordView>, qname: Seq<char>) -> Seq<
    (Seq<char>, Seq<char>),
>
    decreases records.len(),
{
    if records.len() == 0 {
        Seq::empty()
    } else {
        let before = name_servers(records.drop_last(), qname);
        match records.last() {
            RecordView::Ns { domain, host, .. } if ends_with(
                name_bytes(qname),
                name_bytes(domain),
            ) => before.push((domain, host)),
            _ => before,
        }
    }
}

/// The address that `resources` give for the first of `servers` that they
/// give an address for.
pub open spec fn glued_address(
    servers: Seq<(Seq<char>, Seq<char>)>,
    resources: Seq<RecordView>,
) -> Option<Seq<u8>>
    decreases servers.len(),
{
    if servers.len() == 0 {
        None
    } else {
        match address_of(resources, servers[0].1) {
            Some(addr) => Some(addr),
            None => glued_address(servers.drop_first(), resources),
        }
    }
}

impl PacketView {
    /// The address of the first A record among the answers.
    pub open spec fn random_a(self) -> Option<Seq<u8>> {
        first_a(self.answers)
    }

    /// The name servers that the authority section offers for `qname`.
    pub open spec fn ns(self, qname: Seq<char>) -> Seq<(Seq<char>, Seq<char>)> {
        name_servers(self.authorities, qname)
    }

    /// The address of a name server for `qname` that the additional section
    /// gives: that of the first server, in the order of the authority
    /// section, for which there is one, and of its addresses the first.
    pub open spec fn resolved_ns(self, qname: Seq<char>) -> Option<Seq<u8>> {
        glued_address(self.ns(qname), self.resources)
    }

    /// The host of the first name server that the authority section offers
    /// for `qname`.
    pub open spec fn unresolved_ns(self, qname: Seq<char>) -> Option<Seq<char>> {
        if self.ns(qname).len() > 0 {
            Some(self.ns(qname)[0].1)
        } else {
            None
        }
    }
}

/// The texts of pairs of strings.
pub open spec fn pair_views(pairs: Seq<(&String, &String)>) -> Seq<(Seq<char>, Seq<char>)> {
    Seq::new(pairs.len(), |i: int| (pairs[i].0@, pairs[i].1@))
}

/// Whether `text` ends with `suffix`, byte for byte.
pub fn str_ends_with(text: &str, suffix: &str) -> (r: bool)
    ensures
        r == ends_with(text.spec_bytes(), suffix.spec_bytes()),
{
    let t = text.as_bytes();
    let s = suffix.as_bytes();
    if s.len() > t.len() {
        return false;
    }
    let offset = t.len() - s.len();
    let mut i: usize = 0;
    while i < s.len()
        invariant
            i <= s.len(),
            offset + s.len() == t.len(),
            t@ == text.spec_bytes(),
            s@ == suffix.spec_bytes(),
            forall|k: int| 0 <= k < i ==> t@[offset + k] == s@[k],
        decreases s.len() - i,
    {
        if t[offset + i] != s[i] {
            assert(t@.skip(offset as int)[i as int] != s@[i as int]);
            return false;
        }
        i += 1;
    }
    assert(t@.skip(offset as int) =~= s@);
    true
}

/// A run of questions read, behind those in `done`.
pub open spec fn after_questions(done: Seq<QuestionView>, rest: QuestionsRead) -> QuestionsRead {
    QuestionsRead {
        result: match rest.result {
            Ok(questions) => Ok(done + questions),
            Err(e) => Err(e),
        },
        position: rest.position,
    }
}

/// A run of records read, behind those in `done`.
pub open spec fn after_records(done: Seq<RecordView>, rest: RecordsRead) -> RecordsRead {
    RecordsRead {
        result: match rest.result {
            Ok(records) => Ok(done + records),
            Err(e) => Err(e),
        },
        position: rest.position,
    }
}

/// Reads `count` questions at the cursor.
fn read_question_section(buffer: &mut BytePacketBuffer, count: u16) -> (r: Result<
    Vec<DnsQuestion>,
    BytePacketBufferError,
>)
    ensures
        final(buffer).buffer == old(buffer).buffer,
        final(buffer).position == read_questions(old(buffer)@, count as nat).position,
        match r {
            Ok(questions) => read_questions(old(buffer)@, count as nat).result == Ok::<
                Seq<QuestionView>,
                BytePacketBufferError,
            >(question_views(questions@)),
            Err(e) => read_questions(old(buffer)@, count as nat).result == Err::<
                Seq<QuestionView>,
                BytePacketBufferError,
            >(e),
        },
{
    let ghost st = buffer@;
    let ghost goal = read_questions(st, count as nat);
    let mut questions: Vec<DnsQuestion> = Vec::new();
    let mut i: u16 = 0;
    assert(Seq::<QuestionView>::empty() + Seq::<QuestionView>::empty() =~= Seq::<
        QuestionView,
    >::empty());
    assert(question_views(questions@) =~= Seq::<QuestionView>::empty());
    while i < count
        invariant
            i <= count,
            buffer.buffer == old(buffer).buffer,
            st == old(buffer)@,
            goal == read_questions(st, count as nat),
            goal == after_questions(
                question_views(questions@),
                read_questions(buffer@, (count - i) as nat),
            ),
        decreases count - i,
    {
        let ghost done = question_views(questions@);
        let ghost now = buffer@;
        let mut question = DnsQuestion::new(String::new(), QueryType::Unknown(0));
        question.read(buffer)?;
        assert(buffer@ == now.at(buffer@.position));
        questions.push(question);
        i += 1;
        proof {
            let rest = read_questions(buffer@, (count - i) as nat);
            assert(question_views(questions@) =~= done + seq![question@]);
            if rest.result is Ok {
                assert(done + (seq![question@] + rest.result->Ok_0) =~= question_views(questions@)
                    + rest.result->Ok_0);
            }
        }
    }
    assert(question_views(questions@) + Seq::<QuestionView>::empty() =~= question_views(
        questions@,
    ));
    Ok(questions)
}

/// Reads `count` records at the cursor.
fn read_record_section(buffer: &mut BytePacketBuffer, count: u16) -> (r: Result<
    Vec<DnsRecord>,
    BytePacketBufferError,
>)
    ensures
        final(buffer).buffer == old(buffer).buffer,
        final(buffer).position == read_records(old(buffer)@, count as nat).position,
        match r {
            Ok(records) => read_records(old(buffer)@, count as nat).result == Ok::<
                Seq<RecordView>,
                BytePacketBufferError,
            >(record_views(records@)),
            Err(e) => read_records(old(buffer)@, count as nat).result == Err::<
                Seq<RecordView>,
                BytePacketBufferError,
            >(e),
        },
{
    let ghost st = buffer@;
    let ghost goal = read_records(st, count as nat);
    let mut records: Vec<DnsRecord> = Vec::new();
    let mut i: u16 = 0;
    assert(Seq::<RecordView>::empty() + Seq::<RecordView>::empty() =~= Seq::<RecordView>::empty());
    assert(record_views(records@) =~= Seq::<RecordView>::empty());
    while i < count
        invariant
            i <= count,
            buffer.buffer == old(buffer).buffer,
            st == old(buffer)@,
            goal == read_records(st, count as nat),
            goal == after_records(
                record_views(records@),
                read_records(buffer@, (count - i) as nat),
            ),
        decreases count - i,
    {
        let ghost done = record_views(records@);
        let ghost now = buffer@;
        let record = DnsRecord::read(buffer)?;
        assert(buffer@ == now.at(buffer@.position));
        records.push(record);
        i += 1;
        proof {
            let rest = read_records(buffer@, (count - i) as nat);
            assert(record_views(records@) =~= done + seq![record@]);
            if rest.result is Ok {
                assert(done + (seq![record@] + rest.result->Ok_0) =~= record_views(records@)
                    + rest.result->Ok_0);
            }
        }
    }
    assert(record_views(records@) + Seq::<RecordView>::empty() =~= record_views(records@));
    Ok(records)
}

/// Writes `questions` at the cursor, one after the other.
fn write_question_section(buffer: &mut BytePacketBuffer, questions: &Vec<DnsQuestion>) -> (r:
    Result<(), BytePacketBufferError>)
    ensures
        final(buffer)@ == write_questions(old(buffer)@, question_views(questions@)).buffer,
        r == write_questions(old(buffer)@, question_views(questions@)).result,
{
    let ghost all = question_views(questions@);
    let ghost goal = write_questions(buffer@, all);
    let mut i: usize = 0;
    assert(all.skip(0) =~= all);
    while i < questions.len()
        invariant
            i <= questions.len(),
            all == question_views(questions@),
            goal == write_questions(old(buffer)@, all),
            goal == write_questions(buffer@, all.skip(i as int)),
        decreases questions.len() - i,
    {
        assert(all.skip(i as int).drop_first() =~= all.skip(i + 1));
        questions[i].write(buffer)?;
        i += 1;
    }
    Ok(())
}

/// Writes `records` at the cursor, one after the other.
fn write_record_section(buffer: &mut BytePacketBuffer, records: &Vec<DnsRecord>) -> (r: Result<
    (),
    BytePacketBufferError,
>)
    ensures
        final(buffer)@ == write_records(old(buffer)@, record_views(records@)).buffer,
        r == write_records(old(buffer)@, record_views(records@)).result,
{
    let ghost all = record_views(records@);
    let ghost goal = write_records(buffer@, all);
    let mut i: usize = 0;
    assert(all.skip(0) =~= all);
    while i < records.len()
        invariant
            i <= records.len(),
            all == record_views(records@),
            goal == write_records(old(buffer)@, all),
            goal == write_records(buffer@, all.skip(i as int)),
        decreases records.len() - i,
    {
        assert(all.skip(i as int).drop_first() =~= all.skip(i + 1));
        records[i].write(buffer)?;
        i += 1;
    }
    Ok(())
}

impl Default for DnsPacket {
    fn default() -> (r: Self)
        ensures
            r@ == PacketView::blank(),
    {
        let r = DnsPacket {
            header: DnsHeader::new(),
            questions: Vec::new(),
            answers: Vec::new(),
            authorities: Vec::new(),
            resources: Vec::new(),
        };
        assert(r@.questions =~= Seq::<QuestionView>::empty());
        assert(r@.answers =~= Seq::<RecordView>::empty());
        assert(r@.authorities =~= Seq::<RecordView>::empty());
        assert(r@.resources =~= Seq::<RecordView>::empty());
        r
    }
}

impl DnsPacket {
    /// A message with a blank header and four empty sections.
    pub fn new() -> (r: Self)
        ensures
            r@ == PacketView::blank(),
    {
        Self::default()
    }

    /// Reads a message at the cursor. Whatever the buffer holds, this gives
    /// a message or fails with the end of the buffer or the limit of jumps;
    /// and the message has no more entries than fit in the buffer.
    pub fn from_buffer(buffer: &mut BytePacketBuffer) -> (r: Result<
        DnsPacket,
        BytePacketBufferError,
    >)
        ensures
            final(buffer).buffer == old(buffer).buffer,
            final(buffer).position == read_packet(old(buffer)@).position,
            match r {
                Ok(packet) => read_packet(old(buffer)@).result == Ok::<
                    PacketView,
                    BytePacketBufferError,
                >(packet@),
                Err(e) => read_packet(old(buffer)@).result == Err::<
                    PacketView,
                    BytePacketBufferError,
                >(e),
            },
            r matches Err(e) ==> read_error(e),
            r matches Ok(packet) ==> 12 + 5 * packet.questions.len() + 11 * (packet.answers.len()
                + packet.authorities.len() + packet.resources.len()) <= 512 + 11,
    {
        let ghost st = buffer@;
        proof {
            law_read_bounded(st);
        }
        let mut result = DnsPacket::new();
        result.header.read(buffer)?;
        assert(buffer@ == st.at(st.position + 12));

        result.questions = read_question_section(buffer, result.header.questions)?;
        assert(buffer@ == st.at(buffer@.position));
        result.answers = read_record_section(buffer, result.header.answers)?;
        assert(buffer@ == st.at(buffer@.position));
        result.authorities = read_record_section(buffer, result.header.authoritative_entries)?;
        assert(buffer@ == st.at(buffer@.position));
        result.resources = read_record_section(buffer, result.header.resource_entries)?;

        Ok(result)
    }

    /// Sets the four counts of the header to the lengths of the sections
    /// and writes the message at the cursor.
    pub fn write(&mut self, buffer: &mut BytePacketBuffer) -> (r: Result<
        (),
        BytePacketBufferError,
    >)
        ensures
            final(self)@ == old(self)@.counted(),
            final(buffer)@ == old(self)@.counted().write(old(buffer)@).buffer,
            r == old(self)@.counted().write(old(buffer)@).result,
    {
        self.header.questions = self.questions.len() as u16;
        self.header.answers = self.answers.len() as u16;
        self.header.authoritative_entries = self.authorities.len() as u16;
        self.header.resource_entries = self.resources.len() as u16;

        self.header.write(buffer)?;
        write_question_section(buffer, &self.questions)?;
        write_record_section(buffer, &self.answers)?;
        write_record_section(buffer, &self.authorities)?;
        write_record_section(buffer, &self.resources)?;

        Ok(())
    }

    /// The address of the first A record among the answers.
    pub fn get_random_a(&self) -> (r: Option<Ipv4Address>)
        ensures
            match r {
                Some(addr) => self@.random_a() == Some(addr.octets@),
                None => self@.random_a() is None,
            },
    {
        let ghost all = record_views(self.answers@);
        let mut i: usize = 0;
        assert(all.skip(0) =~= all);
        while i < self.answers.len()
            invariant
                i <= self.answers.len(),
                all == record_views(self.answers@),
                first_a(all) == first_a(all.skip(i as int)),
            decreases self.answers.len() - i,
        {
            assert(all.skip(i as int).drop_first() =~= all.skip(i + 1));
            match &self.answers[i] {
                DnsRecord::A { addr, .. } => {
                    return Some(*addr);
                },
                _ => {},
            }
            i += 1;
        }
        None
    }

    /// The name servers that the authority section offers for `qname`: of
    /// each NS record whose owner's name ends `qname`, the owner and the
    /// host.
    pub fn get_ns<'a>(&'a self, qname: &str) -> (r: Vec<(&'a String, &'a String)>)
        ensures
            pair_views(r@) == self@.ns(qname@),
    {
        let ghost all = record_views(self.authorities@);
        let mut servers: Vec<(&'a String, &'a String)> = Vec::new();
        let mut i: usize = 0;
        assert(all.take(0) =~= Seq::<RecordView>::empty());
        assert(pair_views(servers@) =~= Seq::<(Seq<char>, Seq<char>)>::empty());
        while i < self.authorities.len()
            invariant
                i <= self.authorities.len(),
                all == record_views(self.authorities@),
                pair_views(servers@) == name_servers(all.take(i as int), qname@),
            decreases self.authorities.len() - i,
        {
            let ghost before = pair_views(servers@);
            assert(all.take(i + 1).drop_last() =~= all.take(i as int));
            assert(all.take(i + 1).last() == all[i as int]);
            match &self.authorities[i] {
                DnsRecord::Ns { domain, host, .. } => {
                    if str_ends_with(qname, domain.as_str()) {
                        servers.push((domain, host));
                        assert(pair_views(servers@) =~= before.push((domain@, host@)));
                    }
                },
                _ => {},
            }
            i += 1;
        }
        assert(all.take(i as int) =~= all);
        servers
    }

    /// The address of a name server for `qname` that the additional section
    /// gives.
    pub fn get_resolved_ns(&self, qname: &str) -> (r: Option<Ipv4Address>)
        ensures
            match r {
                Some(addr) => self@.resolved_ns(qname@) == Some(addr.octets@),
                None => self@.resolved_ns(qname@) is None,
            },
    {
        let servers = self.get_ns(qname);
        let ghost all = pair_views(servers@);
        let ghost glue = record_views(self.resources@);
        let mut i: usize = 0;
        assert(all.skip(0) =~= all);
        while i < servers.len()
            invariant
                i <= servers.len(),
                all == pair_views(servers@),
                all == self@.ns(qname@),
                glue == record_views(self.resources@),
                glued_address(all, glue) == glued_address(all.skip(i as int), glue),
            decreases servers.len() - i,
        {
            let host = servers[i].1;
            assert(all.skip(i as int).drop_first() =~= all.skip(i + 1));
            assert(all.skip(i as int)[0].1 == host@);
            let mut k: usize = 0;
            assert(glue.skip(0) =~= glue);
            while k < self.resources.len()
                invariant
                    k <= self.resources.len(),
                    glue == record_views(self.resources@),
                    all == self@.ns(qname@),
                    address_of(glue, host@) == address_of(glue.skip(k as int), host@),
                    glued_address(all, glue) == glued_address(all.skip(i as int), glue),
                    0 <= i < all.len(),
                    all.skip(i as int)[0].1 == host@,
                decreases self.resources.len() - k,
            {
                assert(glue.skip(k as int).drop_first() =~= glue.skip(k + 1));
                match &self.resources[k] {
                    DnsRecord::A { domain, addr, .. } => {
                        if *domain == *host {
                            return Some(*addr);
                        }
                    },
                    _ => {},
                }
                k += 1;
            }
            i += 1;
        }
        None
    }

    /// The host of the first name server that the authority section offers
    /// for `qname`.
    pub fn get_unresolved_ns<'a>(&'a self, qname: &str) -> (r: Option<&'a str>)
        ensures
            match r {
                Some(host) => self@.unresolved_ns(qname@) == Some(host@),
                None => self@.unresolved_ns(qname@) is None,
            },
    {
        let servers = self.get_ns(qname);
        if servers.len() > 0 {
            Some(servers[0].1.as_str())
        } else {
            None
        }
    }
}

} // verus!
