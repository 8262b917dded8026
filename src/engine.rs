//! The resolution state machine.
//!
//! A resolution keeps a stack of frames, one per name being resolved: the
//! name asked for at the bottom, and above it the nameservers whose own
//! addresses are needed first. The top frame is the one being queried.

use vstd::prelude::*;
use vstd::string::*;

use crate::message::{
    answer_of, build_query, decoded, encodable, first_address, first_nameserver, get_additional,
    get_answer, get_ns, name_bytes, parse_response, query_message, Response, ResponseModel,
};

verus! {

/// The root server that every resolution starts from, 198.41.0.4.
pub const ROOT_SERVER: u32 = 0xC629_0004;

/// Why a resolution failed.
#[derive(Clone, Copy, Debug, PartialEq, Eq, Structural)]
pub enum ResolveError {
    /// The name cannot be put in a query.
    Encode,
    /// A reply is no well-formed DNS packet.
    Decode,
    /// A server answered with this non-zero response code.
    Status(u8),
    /// A reply held no answer, no glue address and no delegation.
    Exhausted,
}

/// A name being resolved and the server that is asked for it.
#[derive(Debug)]
pub struct Frame {
    pub name: String,
    pub server: u32,
}

impl View for Frame {
    type V = (Seq<char>, u32);

    open spec fn view(&self) -> (Seq<char>, u32) {
        (self.name@, self.server)
    }
}

/// What the caller is to do next.
#[derive(Clone, Debug, PartialEq, Eq)]
pub enum Action {
    /// Send `message`, the query for `name`, to `server` on port 53 and hand
    /// the reply back.
    Query { server: u32, name: String, message: Vec<u8> },
    /// The resolution is over with this address.
    Resolved(u32),
    /// The resolution is over with this error.
    Failed(ResolveError),
}

pub ghost enum ActionModel {
    Query { server: u32, name: Seq<char>, message: Seq<u8> },
    Resolved(u32),
    Failed(ResolveError),
}

impl View for Action {
    type V = ActionModel;

    open spec fn view(&self) -> ActionModel {
        match self {
            Action::Query { server, name, message } => ActionModel::Query {
                server: *server,
                name: name@,
                message: message@,
            },
            Action::Resolved(ip) => ActionModel::Resolved(*ip),
            Action::Failed(e) => ActionModel::Failed(*e),
        }
    }
}

/// The stack of a resolution: pairs of a name and the server asked for it.
pub type Frames = Seq<(Seq<char>, u32)>;

/// Query the top frame's server for its name; a name that cannot be put in
/// a query ends the resolution.
pub open spec fn ask(frames: Frames) -> (Frames, ActionModel) {
    let (name, server) = frames.last();
    if encodable(name_bytes(name)) {
        (frames, ActionModel::Query { server, name, message: query_message(name_bytes(name)) })
    } else {
        (Seq::empty(), ActionModel::Failed(ResolveError::Encode))
    }
}

/// The step on a parsed response to the top frame's query.
pub open spec fn respond(frames: Frames, r: ResponseModel) -> (Frames, ActionModel) {
    let (name, server) = frames.last();
    if r.rcode != 0 {
        (Seq::empty(), ActionModel::Failed(ResolveError::Status(r.rcode)))
    } else if answer_of(r.answers) is Some {
        let ip = answer_of(r.answers)->0;
        let rest = frames.drop_last();
        if rest.len() == 0 {
            (Seq::empty(), ActionModel::Resolved(ip))
        } else {
            ask(rest.update(rest.len() - 1, (rest.last().0, ip)))
        }
    } else if first_address(r.additional) is Some {
        ask(frames.update(frames.len() - 1, (name, first_address(r.additional)->0)))
    } else if first_nameserver(r.nameservers) is Some {
        ask(frames.push((first_nameserver(r.nameservers)->0, ROOT_SERVER)))
    } else {
        (Seq::empty(), ActionModel::Failed(ResolveError::Exhausted))
    }
}

/// The step on the bytes of a reply to the top frame's query.
pub open spec fn receive(frames: Frames, b: Seq<u8>) -> (Frames, ActionModel) {
    match decoded(b) {
        Some(r) => respond(frames, r),
        None => (Seq::empty(), ActionModel::Failed(ResolveError::Decode)),
    }
}

/// The state of one resolution.
#[derive(Debug)]
pub struct Resolver {
    frames: Vec<Frame>,
}

impl View for Resolver {
    type V = Frames;

    closed spec fn view(&self) -> Frames {
        self.frames@.map_values(|f: Frame| f@)
    }
}

impl Resolver {
    /// A resolution of `name`, starting at the root server.
    pub fn new(name: &str) -> (r: Resolver)
        ensures
            r@ == seq![(name@, ROOT_SERVER)],
    {
        let mut frames: Vec<Frame> = Vec::new();
        frames.push(Frame { name: String::from_str(name), server: ROOT_SERVER });
        let r = Resolver { frames };
        assert(r@ =~= seq![(name@, ROOT_SERVER)]);
        r
    }

    /// Whether the resolution is over.
    pub fn is_finished(&self) -> (r: bool)
        ensures
            r == (self@.len() == 0),
    {
        self.frames.len() == 0
    }

    /// How many names are being resolved, the one asked for included.
    pub fn depth(&self) -> (r: usize)
        ensures
            r == self@.len(),
    {
        self.frames.len()
    }

    fn stop(&mut self, e: ResolveError) -> (r: Action)
        ensures
            final(self)@ == Seq::<(Seq<char>, u32)>::empty(),
            r@ == ActionModel::Failed(e),
    {
        self.frames = Vec::new();
        assert(self@ =~= Seq::<(Seq<char>, u32)>::empty());
        Action::Failed(e)
    }

    /// The query for the top frame.
    pub fn query(&mut self) -> (r: Action)
        requires
            old(self)@.len() > 0,
        ensures
            (final(self)@, r@) == ask(old(self)@),
    {
        let top = self.frames.len() - 1;
        let name = self.frames[top].name.as_str();
        match build_query(name) {
            Some(message) => {
                let server = self.frames[top].server;
                Action::Query { server, name: self.frames[top].name.clone(), message }
            },
            None => self.stop(ResolveError::Encode),
        }
    }

    /// The step on a parsed response to the last query.
    pub fn handle_response(&mut self, response: &Response) -> (r: Action)
        requires
            old(self)@.len() > 0,
        ensures
            (final(self)@, r@) == respond(old(self)@, response@),
    {
        let ghost frames = self@;
        if response.rcode != 0 {
            return self.stop(ResolveError::Status(response.rcode));
        }
        if let Some(ip) = get_answer(response) {
            let done = self.frames.pop();
            assert(self@ =~= frames.drop_last());
            if self.frames.len() == 0 {
                return Action::Resolved(ip);
            }
            let parent = self.frames.pop();
            match parent {
                Some(p) => {
                    self.frames.push(Frame { name: p.name, server: ip });
                },
                None => {},
            }
            assert(self@ =~= frames.drop_last().update(frames.len() - 2, (frames.drop_last().last().0, ip)));
            return self.query();
        }
        if let Some(glue) = get_additional(response) {
            let top = self.frames.pop();
            match top {
                Some(t) => {
                    self.frames.push(Frame { name: t.name, server: glue });
                },
                None => {},
            }
            assert(self@ =~= frames.update(frames.len() - 1, (frames.last().0, glue)));
            return self.query();
        }
        if let Some(ns) = get_ns(response) {
            self.frames.push(Frame { name: ns, server: ROOT_SERVER });
            assert(self@ =~= frames.push((first_nameserver(response@.nameservers)->0, ROOT_SERVER)));
            return self.query();
        }
        self.stop(ResolveError::Exhausted)
    }

    /// The step on the bytes of a reply to the last query.
    pub fn handle_reply(&mut self, reply: &[u8]) -> (r: Action)
        requires
            old(self)@.len() > 0,
        ensures
            (final(self)@, r@) == receive(old(self)@, reply@),
    {
        match parse_response(reply) {
            Some(response) => self.handle_response(&response),
            None => self.stop(ResolveError::Decode),
        }
    }
}

/// An answer that is an address ends the resolution of the name asked for
/// with that address, and no further query is made.
pub proof fn lemma_answer_resolves(frames: Frames, r: ResponseModel, ip: u32)
    requires
        frames.len() == 1,
        r.rcode == 0,
        r.answers.len() > 0,
        r.answers[0] == crate::message::RecordModel::Address(ip),
    ensures
        respond(frames, r) == (Seq::<(Seq<char>, u32)>::empty(), ActionModel::Resolved(ip)),
{
}

/// An address found for a delegated nameserver becomes the server that the
/// name beneath it is asked of next.
pub proof fn lemma_answer_returns_to_parent(frames: Frames, r: ResponseModel, ip: u32)
    requires
        frames.len() > 1,
        r.rcode == 0,
        r.answers.len() > 0,
        r.answers[0] == crate::message::RecordModel::Address(ip),
    ensures
        respond(frames, r) == ask(frames.drop_last().update(frames.len() - 2, (frames[frames.len() - 2].0, ip))),
{
}

/// With no answers, the first glue address among the additional records is
/// the server of the one next query, for the same name.
pub proof fn lemma_glue_redirects(frames: Frames, r: ResponseModel, glue: u32)
    requires
        frames.len() > 0,
        encodable(name_bytes(frames.last().0)),
        r.rcode == 0,
        r.answers.len() == 0,
        first_address(r.additional) == Some(glue),
    ensures
        respond(frames, r) == (
            frames.update(frames.len() - 1, (frames.last().0, glue)),
            ActionModel::Query {
                server: glue,
                name: frames.last().0,
                message: query_message(name_bytes(frames.last().0)),
            },
        ),
{
}

/// With no answers and no additional records, the first delegation's name is
/// resolved first, by a resolution of its own that starts at the root server.
pub proof fn lemma_delegation_recurses(frames: Frames, r: ResponseModel, ns: Seq<char>)
    requires
        frames.len() > 0,
        r.rcode == 0,
        r.answers.len() == 0,
        r.additional.len() == 0,
        first_nameserver(r.nameservers) == Some(ns),
    ensures
        encodable(name_bytes(ns)) ==> respond(frames, r) == (
            frames.push((ns, ROOT_SERVER)),
            ActionModel::Query { server: ROOT_SERVER, name: ns, message: query_message(name_bytes(ns)) },
        ),
        !encodable(name_bytes(ns)) ==> respond(frames, r) == (
            Seq::<(Seq<char>, u32)>::empty(),
            ActionModel::Failed(ResolveError::Encode),
        ),
{
    assert(first_address(r.additional) is None);
    assert(frames.push((ns, ROOT_SERVER)).last() == (ns, ROOT_SERVER));
}

/// A response code other than success ends the whole resolution with that
/// code, and no further query is made.
pub proof fn lemma_status_fails(frames: Frames, r: ResponseModel)
    requires
        frames.len() > 0,
        r.rcode != 0,
    ensures
        respond(frames, r) == (
            Seq::<(Seq<char>, u32)>::empty(),
            ActionModel::Failed(ResolveError::Status(r.rcode)),
        ),
{
}

/// A successful response with no usable answer, no glue address and no
/// delegation ends the resolution as exhausted.
pub proof fn lemma_nothing_found(frames: Frames, r: ResponseModel)
    requires
        frames.len() > 0,
        r.rcode == 0,
        answer_of(r.answers) is None,
        first_address(r.additional) is None,
        first_nameserver(r.nameservers) is None,
    ensures
        respond(frames, r) == (
            Seq::<(Seq<char>, u32)>::empty(),
            ActionModel::Failed(ResolveError::Exhausted),
        ),
{
}

/// The actions of a resolution from `start`, its state and first action,
/// against `server`, which gives the reply of a server address to a query;
/// at most `fuel` of them.
pub open spec fn trace(
    start: (Frames, ActionModel),
    server: spec_fn(u32, Seq<u8>) -> Seq<u8>,
    fuel: nat,
) -> Seq<ActionModel>
    decreases fuel,
{
    if fuel == 0 {
        Seq::empty()
    } else {
        match start.1 {
            ActionModel::Query { server: s, name: _, message } => seq![start.1] + trace(
                receive(start.0, server(s, message)),
                server,
                (fuel - 1) as nat,
            ),
            _ => seq![start.1],
        }
    }
}

/// The actions of a resolution of `name` against `server`, at most `fuel`.
pub open spec fn resolution(
    name: Seq<char>,
    server: spec_fn(u32, Seq<u8>) -> Seq<u8>,
    fuel: nat,
) -> Seq<ActionModel> {
    trace(ask(seq![(name, ROOT_SERVER)]), server, fuel)
}

/// `a` is `b` cut short, or `b` itself.
pub open spec fn is_prefix(a: Seq<ActionModel>, b: Seq<ActionModel>) -> bool {
    a.len() <= b.len() && a == b.subrange(0, a.len() as int)
}

proof fn lemma_trace_prefix(
    start: (Frames, ActionModel),
    server: spec_fn(u32, Seq<u8>) -> Seq<u8>,
    f1: nat,
    f2: nat,
)
    requires
        f1 <= f2,
    ensures
        is_prefix(trace(start, server, f1), trace(start, server, f2)),
    decreases f1,
{
    let t1 = trace(start, server, f1);
    let t2 = trace(start, server, f2);
    if f1 == 0 {
        assert(t1 =~= t2.subrange(0, 0));
    } else {
        match start.1 {
            ActionModel::Query { server: s, name: _, message } => {
                let next = receive(start.0, server(s, message));
                lemma_trace_prefix(next, server, (f1 - 1) as nat, (f2 - 1) as nat);
                assert(t1 =~= t2.subrange(0, t1.len() as int));
            },
            _ => {
                assert(t1 =~= t2.subrange(0, t1.len() as int));
            },
        }
    }
}

/// Resolving a name twice against the same deterministic server repeats the
/// whole exchange, nothing being kept between the two: each run starts with
/// the query for the name at the root server, and two runs agree on every
/// action that both reach.
pub proof fn lemma_resolution_repeats(
    name: Seq<char>,
    server: spec_fn(u32, Seq<u8>) -> Seq<u8>,
    f1: nat,
    f2: nat,
)
    requires
        f1 <= f2,
    ensures
        is_prefix(resolution(name, server, f1), resolution(name, server, f2)),
        f1 > 0 && encodable(name_bytes(name)) ==> resolution(name, server, f1)[0] == (
        ActionModel::Query { server: ROOT_SERVER, name, message: query_message(name_bytes(name)) }),
{
    lemma_trace_prefix(ask(seq![(name, ROOT_SERVER)]), server, f1, f2);
    assert(seq![(name, ROOT_SERVER)].last() == (name, ROOT_SERVER));
}

} // verus!
