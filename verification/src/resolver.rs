//! The decisions of an iterative lookup, free of I/O.
//!
//! A [`Resolver`] says which question to send to which server, is told the
//! response, and then either has the final response or says what to send
//! next. It starts at a root server and follows referrals: to the address
//! that a referral gives for a name server, or, where it gives none, first
//! through a lookup of its own for the address of the name server.

use crate::header::{DnsHeader, ResultCode};
use crate::packet::{DnsPacket, PacketView};
use crate::question::{DnsQuestion, QueryType, QuestionView};
use crate::record::Ipv4Address;
use vstd::prelude::*;
use vstd::string::StringExecFns;

verus! {

/// The id of every query that a lookup sends.
pub const QUERY_ID: u16 = 6666;

/// The port of the servers that a lookup asks.
pub const SERVER_PORT: u16 = 53;

/// The four octets of the root server at which every lookup starts.
pub open spec fn root_octets() -> Seq<u8> {
    seq![198u8, 41u8, 0u8, 4u8]
}

/// The address of the root server at which every lookup starts.
pub fn root_server() -> (r: Ipv4Address)
    ensures
        r.octets@ == root_octets(),
{
    let r = Ipv4Address { octets: [198, 41, 0, 4] };
    assert(r.octets@ =~= root_octets());
    r
}

/// One lookup under way: the question, and the server to ask next.
#[derive(Debug, Clone, PartialEq, Eq)]
pub struct Lookup {
    pub qname: String,
    pub qtype: QueryType,
    pub ns: Ipv4Address,
}

/// The mathematical content of a [`Lookup`].
pub struct LookupView {
    pub qname: Seq<char>,
    pub qtype: QueryType,
    pub ns: Seq<u8>,
}

impl View for Lookup {
    type V = LookupView;

    open spec fn view(&self) -> LookupView {
        LookupView { qname: self.qname@, qtype: self.qtype, ns: self.ns.octets@ }
    }
}

/// A lookup that waits for the address of a name server, and the referral
/// that named that server.
#[derive(Debug, Clone, PartialEq, Eq)]
pub struct Suspended {
    pub lookup: Lookup,
    pub referral: DnsPacket,
}

/// The mathematical content of a [`Suspended`].
pub struct SuspendedView {
    pub lookup: LookupView,
    pub referral: PacketView,
}

impl View for Suspended {
    type V = SuspendedView;

    open spec fn view(&self) -> SuspendedView {
        SuspendedView { lookup: self.lookup@, referral: self.referral@ }
    }
}

/// A resolution under way: the lookup whose query is sent next, and below
/// it the lookups that wait for it, the first of all at the bottom.
#[derive(Debug, Clone, PartialEq, Eq)]
pub struct Resolver {
    pub current: Lookup,
    pub waiting: Vec<Suspended>,
}

/// The mathematical content of a [`Resolver`].
pub struct ResolverView {
    pub current: LookupView,
    pub waiting: Seq<SuspendedView>,
}

/// The contents of a stack of waiting lookups.
pub open spec fn suspended_views(waiting: Seq<Suspended>) -> Seq<SuspendedView> {
    Seq::new(waiting.len(), |i: int| waiting[i]@)
}

impl View for Resolver {
    type V = ResolverView;

    open spec fn view(&self) -> ResolverView {
        ResolverView { current: self.current@, waiting: suspended_views(self.waiting@) }
    }
}

/// Where a resolution stands after a response: there is a query to send, or
/// the final response is there.
#[derive(Debug, Clone, PartialEq, Eq)]
pub enum Progress {
    Ask(Resolver),
    Done(DnsPacket),
}

/// The mathematical content of a [`Progress`].
pub enum ProgressView {
    Ask(ResolverView),
    Done(PacketView),
}

impl View for Progress {
    type V = ProgressView;

    open spec fn view(&self) -> ProgressView {
        match *self {
            Progress::Ask(resolver) => ProgressView::Ask(resolver@),
            Progress::Done(packet) => ProgressView::Done(packet@),
        }
    }
}

/// What a response means to the lookup that asked.
pub enum Verdict {
    /// The response is the lookup's result.
    Final,
    /// The response refers to a name server and gives its address.
    Follow(Seq<u8>),
    /// The response refers to a name server by name only.
    Resolve(Seq<char>),
}

/// What `response` means to a lookup of `qname`. It is final if it holds an
/// answer and reports no error, or reports that the name does not exist. If
/// not, the lookup goes on at a name server that the response offers for
/// `qname`: at an address that the response gives for one; if it gives
/// none, at the first of them, whose address has to be looked up. A
/// response that offers no name server is final too.
pub open spec fn verdict(response: PacketView, qname: Seq<char>) -> Verdict {
    if response.answers.len() > 0 && response.header.rescode == ResultCode::NoError {
        Verdict::Final
    } else if response.header.rescode == ResultCode::NxDomain {
        Verdict::Final
    } else {
        match response.resolved_ns(qname) {
            Some(addr) => Verdict::Follow(addr),
            None => match response.unresolved_ns(qname) {
                Some(host) => Verdict::Resolve(host),
                None => Verdict::Final,
            },
        }
    }
}

/// The query of a lookup: id 6666, recursion desired, one question.
pub open spec fn request_view(qname: Seq<char>, qtype: QueryType) -> PacketView {
    PacketView {
        header: DnsHeader { id: QUERY_ID, questions: 1, recursion_desired: true, ..DnsHeader::blank() },
        questions: seq![QuestionView { name: qname, qtype }],
        answers: Seq::empty(),
        authorities: Seq::empty(),
        resources: Seq::empty(),
    }
}

/// Where a resolution stands once a lookup has ended with `result`, with
/// `waiting` below it. The lookup on top of `waiting` was waiting for the
/// address of a name server: if `result` holds one, it goes on there; if
/// not, it ends itself, with the referral that it had kept. When no lookup
/// waits, `result` is the result of the whole.
pub open spec fn resumed(waiting: Seq<SuspendedView>, result: PacketView) -> ProgressView
    decreases waiting.len(),
{
    if waiting.len() == 0 {
        ProgressView::Done(result)
    } else {
        let top = waiting.last();
        match result.random_a() {
            Some(addr) => ProgressView::Ask(
                ResolverView {
                    current: LookupView { ns: addr, ..top.lookup },
                    waiting: waiting.drop_last(),
                },
            ),
            None => resumed(waiting.drop_last(), top.referral),
        }
    }
}

impl ResolverView {
    /// The resolution of `qname` and `qtype` at its start.
    pub open spec fn start(qname: Seq<char>, qtype: QueryType) -> ResolverView {
        ResolverView {
            current: LookupView { qname, qtype, ns: root_octets() },
            waiting: Seq::empty(),
        }
    }

    /// Where the resolution stands after `response` has come in for the
    /// query of the current lookup.
    pub open spec fn step(self, response: PacketView) -> ProgressView {
        match verdict(response, self.current.qname) {
            Verdict::Final => resumed(self.waiting, response),
            Verdict::Follow(addr) => ProgressView::Ask(
                ResolverView {
                    current: LookupView { ns: addr, ..self.current },
                    waiting: self.waiting,
                },
            ),
            Verdict::Resolve(host) => ProgressView::Ask(
                ResolverView {
                    current: LookupView { qname: host, qtype: QueryType::A, ns: root_octets() },
                    waiting: self.waiting.push(
                        SuspendedView { lookup: self.current, referral: response },
                    ),
                },
            ),
        }
    }
}

/// A response that holds an answer and reports no error ends the whole
/// resolution at once when no lookup waits, as at the start: after one
/// exchange the resolution is done, with that response.
pub proof fn law_answer_ends(resolver: ResolverView, response: PacketView)
    requires
        resolver.waiting.len() == 0,
        response.answers.len() > 0,
        response.header.rescode == ResultCode::NoError,
    ensures
        resolver.step(response) == ProgressView::Done(response),
        ResolverView::start(resolver.current.qname, resolver.current.qtype).step(response)
            == ProgressView::Done(response),
{
}

/// Where a referral gives the address of a name server that it offers for
/// the name asked, the lookup goes on at that address with the same
/// question, and no lookup is begun for the name server.
pub proof fn law_glue_followed(resolver: ResolverView, response: PacketView, addr: Seq<u8>)
    requires
        !(response.answers.len() > 0 && response.header.rescode == ResultCode::NoError),
        response.header.rescode != ResultCode::NxDomain,
        response.resolved_ns(resolver.current.qname) == Some(addr),
    ensures
        resolver.step(response) == ProgressView::Ask(
            ResolverView {
                current: LookupView {
                    qname: resolver.current.qname,
                    qtype: resolver.current.qtype,
                    ns: addr,
                },
                waiting: resolver.waiting,
            },
        ),
{
}

/// Where a referral offers name servers for the name asked but gives no
/// address for any of them, the lookup waits, and a lookup for the address
/// of the first of them begins at the root server. Once that lookup ends
/// with a response that holds an address, the first lookup goes on there;
/// if it ends with a response that holds none, the first lookup ends with
/// the referral.
pub proof fn law_name_server_resolved(
    resolver: ResolverView,
    response: PacketView,
    host: Seq<char>,
    found: PacketView,
)
    requires
        !(response.answers.len() > 0 && response.header.rescode == ResultCode::NoError),
        response.header.rescode != ResultCode::NxDomain,
        response.resolved_ns(resolver.current.qname) is None,
        response.unresolved_ns(resolver.current.qname) == Some(host),
    ensures
        resolver.step(response) == ProgressView::Ask(
            ResolverView {
                current: LookupView { qname: host, qtype: QueryType::A, ns: root_octets() },
                waiting: resolver.waiting.push(
                    SuspendedView { lookup: resolver.current, referral: response },
                ),
            },
        ),
        match found.random_a() {
            Some(addr) => resumed(resolver.step(response)->Ask_0.waiting, found)
                == ProgressView::Ask(
                ResolverView {
                    current: LookupView { ns: addr, ..resolver.current },
                    waiting: resolver.waiting,
                },
            ),
            None => resumed(resolver.step(response)->Ask_0.waiting, found) == resumed(
                resolver.waiting,
                response,
            ),
        },
{
    let pushed = resolver.waiting.push(
        SuspendedView { lookup: resolver.current, referral: response },
    );
    assert(pushed.drop_last() =~= resolver.waiting);
    assert(pushed.last() == SuspendedView { lookup: resolver.current, referral: response });
}

/// The query that a lookup of `qname` and `qtype` sends.
pub fn lookup_request(qname: &str, qtype: QueryType) -> (r: DnsPacket)
    ensures
        r@ == request_view(qname@, qtype),
{
    let mut req_packet = DnsPacket::new();
    req_packet.header.id = QUERY_ID;
    req_packet.header.questions = 1;
    req_packet.header.recursion_desired = true;
    req_packet.questions.push(DnsQuestion::new(String::from_str(qname), qtype));
    assert(req_packet@.questions =~= request_view(qname@, qtype).questions);
    assert(req_packet@.answers =~= request_view(qname@, qtype).answers);
    assert(req_packet@.authorities =~= request_view(qname@, qtype).authorities);
    assert(req_packet@.resources =~= request_view(qname@, qtype).resources);
    req_packet
}

/// Hands the result of a lookup that has ended to the lookups that wait.
fn resume(waiting: Vec<Suspended>, result: DnsPacket) -> (r: Progress)
    ensures
        r@ == resumed(suspended_views(waiting@), result@),
{
    let mut stack = waiting;
    let mut outcome = result;
    loop
        invariant
            resumed(suspended_views(waiting@), result@) == resumed(
                suspended_views(stack@),
                outcome@,
            ),
        decreases stack.len(),
    {
        let ghost below = suspended_views(stack@);
        match stack.pop() {
            None => {
                return Progress::Done(outcome);
            },
            Some(top) => {
                assert(suspended_views(stack@) =~= below.drop_last());
                assert(below.last() == top@);
                match outcome.get_random_a() {
                    Some(addr) => {
                        let mut lookup = top.lookup;
                        lookup.ns = addr;
                        return Progress::Ask(Resolver { current: lookup, waiting: stack });
                    },
                    None => {
                        outcome = top.referral;
                    },
                }
            },
        }
    }
}

impl Resolver {
    /// The resolution of `qname` and `qtype`, about to ask the root server.
    pub fn new(qname: &str, qtype: QueryType) -> (r: Self)
        ensures
            r@ == ResolverView::start(qname@, qtype),
    {
        let r = Resolver {
            current: Lookup { qname: String::from_str(qname), qtype, ns: root_server() },
            waiting: Vec::new(),
        };
        assert(r@.waiting =~= Seq::<SuspendedView>::empty());
        r
    }

    /// The server that the next query goes to.
    pub fn server(&self) -> (r: Ipv4Address)
        ensures
            r.octets@ == self@.current.ns,
    {
        self.current.ns
    }

    /// The next query.
    pub fn request(&self) -> (r: DnsPacket)
        ensures
            r@ == request_view(self@.current.qname, self@.current.qtype),
    {
        lookup_request(self.current.qname.as_str(), self.current.qtype)
    }

    /// Takes in the response to the query of the current lookup.
    pub fn advance(self, response: DnsPacket) -> (r: Progress)
        ensures
            r@ == self@.step(response@),
    {
        let mut current = self.current;
        let mut waiting = self.waiting;

        if !response.answers.is_empty() && response.header.rescode == ResultCode::NoError {
            return resume(waiting, response);
        }
        if response.header.rescode == ResultCode::NxDomain {
            return resume(waiting, response);
        }
        if let Some(new_ns) = response.get_resolved_ns(current.qname.as_str()) {
            current.ns = new_ns;
            return Progress::Ask(Resolver { current, waiting });
        }
        let new_ns = match response.get_unresolved_ns(current.qname.as_str()) {
            Some(ns) => String::from_str(ns),
            None => {
                return resume(waiting, response);
            },
        };
        let ghost below = suspended_views(waiting@);
        let suspended = Suspended { lookup: current, referral: response };
        waiting.push(suspended);
        assert(suspended_views(waiting@) =~= below.push(suspended@));
        Progress::Ask(
            Resolver { current: Lookup { qname: new_ns, qtype: QueryType::A, ns: root_server() }, waiting },
        )
    }
}

} // verus!
