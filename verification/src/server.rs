//! The decisions of the query handler, free of I/O: what to answer to a
//! request at once, and how to make the response of what a resolution
//! brought.

use crate::header::{DnsHeader, ResultCode};
use crate::packet::{DnsPacket, PacketView};
use crate::question::{DnsQuestion, QuestionView};
use vstd::prelude::*;

verus! {

/// What is to be done with a request.
#[derive(Debug, Clone, PartialEq, Eq)]
pub enum Handling {
    /// The response is ready.
    Reply(DnsPacket),
    /// The question has to be resolved; the response waits for the result.
    Resolve(DnsPacket, DnsQuestion),
}

/// The mathematical content of a [`Handling`].
pub enum HandlingView {
    Reply(PacketView),
    Resolve(PacketView, QuestionView),
}

impl View for Handling {
    type V = HandlingView;

    open spec fn view(&self) -> HandlingView {
        match *self {
            Handling::Reply(response) => HandlingView::Reply(response@),
            Handling::Resolve(response, question) => HandlingView::Resolve(response@, question@),
        }
    }
}

/// The response to `request` before anything is known: the id of the
/// request, marked as a response, recursion desired and available, and
/// nothing in any section.
pub open spec fn response_seed(request: PacketView) -> PacketView {
    PacketView {
        header: DnsHeader {
            id: request.header.id,
            recursion_desired: true,
            recursion_available: true,
            response: true,
            ..DnsHeader::blank()
        },
        questions: Seq::empty(),
        answers: Seq::empty(),
        authorities: Seq::empty(),
        resources: Seq::empty(),
    }
}

/// What is to be done with `request`: without a question it is answered
/// with `FormErr`; otherwise its last question is to be resolved.
pub open spec fn accepted(request: PacketView) -> HandlingView {
    let seed = response_seed(request);
    if request.questions.len() == 0 {
        HandlingView::Reply(
            PacketView { header: DnsHeader { rescode: ResultCode::FormErr, ..seed.header }, ..seed },
        )
    } else {
        HandlingView::Resolve(seed, request.questions.last())
    }
}

/// The response once the resolution of `question` has ended. With a result,
/// the response takes the question, the result code and the records of the
/// three sections; without one it reports `ServFail` and stays empty.
pub open spec fn completed(
    response: PacketView,
    question: QuestionView,
    result: Option<PacketView>,
) -> PacketView {
    match result {
        Some(found) => PacketView {
            header: DnsHeader { rescode: found.header.rescode, ..response.header },
            questions: response.questions.push(question),
            answers: response.answers + found.answers,
            authorities: response.authorities + found.authorities,
            resources: response.resources + found.resources,
        },
        None => PacketView {
            header: DnsHeader { rescode: ResultCode::ServFail, ..response.header },
            ..response
        },
    }
}

/// Decides what is to be done with a request.
pub fn accept_query(request: DnsPacket) -> (r: Handling)
    ensures
        r@ == accepted(request@),
{
    let mut req_packet = request;
    let ghost asked = req_packet@.questions;

    let mut res_packet = DnsPacket::new();
    res_packet.header.id = req_packet.header.id;
    res_packet.header.recursion_desired = true;
    res_packet.header.recursion_available = true;
    res_packet.header.response = true;
    assert(res_packet@.questions =~= Seq::<QuestionView>::empty());
    assert(res_packet@.answers =~= response_seed(request@).answers);
    assert(res_packet@.authorities =~= response_seed(request@).authorities);
    assert(res_packet@.resources =~= response_seed(request@).resources);

    if let Some(question) = req_packet.questions.pop() {
        assert(asked.last() == question@);
        Handling::Resolve(res_packet, question)
    } else {
        res_packet.header.rescode = ResultCode::FormErr;
        Handling::Reply(res_packet)
    }
}

/// Makes the response of what the resolution of `question` brought; `None`
/// stands for a resolution that failed.
pub fn finish_query(response: DnsPacket, question: DnsQuestion, result: Option<DnsPacket>) -> (r:
    DnsPacket)
    ensures
        r@ == completed(
            response@,
            question@,
            match result {
                Some(found) => Some(found@),
                None => None,
            },
        ),
{
    let mut res_packet = response;
    let ghost before = res_packet@;
    match result {
        Some(found) => {
            let mut result = found;
            res_packet.questions.push(question);
            res_packet.header.rescode = result.header.rescode;
            res_packet.answers.append(&mut result.answers);
            res_packet.authorities.append(&mut result.authorities);
            res_packet.resources.append(&mut result.resources);
            assert(res_packet@.questions =~= before.questions.push(question@));
            assert(res_packet@.answers =~= before.answers + found@.answers);
            assert(res_packet@.authorities =~= before.authorities + found@.authorities);
            assert(res_packet@.resources =~= before.resources + found@.resources);
        },
        None => {
            res_packet.header.rescode = ResultCode::ServFail;
        },
    }
    res_packet
}

} // verus!
