//! The DNS messages that resolution sends and reads.

use vstd::prelude::*;
use vstd::string::*;
use vstd::utf8::encode_utf8;

use dns_parser::{Packet, RData, ResourceRecord};

verus! {

/// The byte that separates the labels of a domain name.
pub const DOT: u8 = 0x2e;

/// The longest datagram that a query may take.
pub const MAX_QUERY_LEN: usize = 512;

/// Number of bytes of the label that starts at `i`: the run of bytes up to
/// the next dot or the end of the name.
pub open spec fn label_len_at(b: Seq<u8>, i: int) -> nat
    decreases b.len() - i,
{
    if i < 0 || i >= b.len() || b[i] == DOT {
        0
    } else {
        1 + label_len_at(b, i + 1)
    }
}

/// Position `i` is where a label of `b` starts.
pub open spec fn is_label_start(b: Seq<u8>, i: int) -> bool {
    0 <= i <= b.len() && (i == 0 || b[i - 1] == DOT)
}

/// Every label of the name is shorter than 63 bytes.
pub open spec fn labels_fit(b: Seq<u8>) -> bool {
    forall|i: int| is_label_start(b, i) ==> #[trigger] label_len_at(b, i) < 63
}

/// The name in wire format: each label preceded by its length, then a zero.
pub open spec fn wire_name(b: Seq<u8>) -> Seq<u8> {
    seq![label_len_at(b, 0) as u8] + Seq::new(
        b.len(),
        |i: int|
            if b[i] == DOT {
                label_len_at(b, i + 1) as u8
            } else {
                b[i]
            },
    ) + seq![0u8]
}

/// A query with id 1 and recursion desired, holding one question for the
/// address records of the name whose bytes are `b`, in class Internet.
pub open spec fn query_message(b: Seq<u8>) -> Seq<u8> {
    seq![0u8, 1, 1, 0, 0, 1, 0, 0, 0, 0, 0, 0] + wire_name(b) + seq![0u8, 1, 0, 1]
}

/// The name whose bytes are `b` can be sent as a query.
pub open spec fn encodable(b: Seq<u8>) -> bool {
    labels_fit(b) && query_message(b).len() <= MAX_QUERY_LEN
}

/// The bytes of the name `name`, as UTF-8.
pub open spec fn name_bytes(name: Seq<char>) -> Seq<u8> {
    encode_utf8(name)
}

proof fn lemma_label_len_bound(b: Seq<u8>, i: int)
    requires
        0 <= i <= b.len(),
    ensures
        label_len_at(b, i) <= b.len() - i,
    decreases b.len() - i,
{
    if i < b.len() {
        lemma_label_len_bound(b, i + 1);
    }
}

/// Whether every label of `b` is shorter than 63 bytes.
pub fn check_labels(b: &Vec<u8>) -> (r: bool)
    ensures
        r == labels_fit(b@),
{
    let mut i: usize = b.len();
    let mut run: usize = 0;
    loop
        invariant
            i <= b.len(),
            run == label_len_at(b@, i as int),
            forall|j: int| i < j <= b.len() && is_label_start(b@, j) ==> #[trigger] label_len_at(b@, j) < 63,
        decreases i,
    {
        let start = i == 0 || b[i - 1] == DOT;
        if start && run >= 63 {
            assert(is_label_start(b@, i as int));
            return false;
        }
        if i == 0 {
            return true;
        }
        if b[i - 1] == DOT {
            run = 0;
        } else {
            proof {
                lemma_label_len_bound(b@, i as int);
            }
            run = run + 1;
        }
        i = i - 1;
    }
}

/// Relies on dns_parser's `Builder::new_query`, `Builder::add_question` and
/// `Builder::build`: the query for address records of `name`, in class
/// Internet, with id 1 and recursion desired. `build` returns `Err` when the
/// message is longer than 512 bytes; `add_question` panics on a label of 63
/// bytes or more.
#[verifier::external_body]
fn encode_query(name: &str) -> (r: Result<Vec<u8>, Vec<u8>>)
    requires
        labels_fit(name.spec_bytes()),
    ensures
        r is Ok <==> query_message(name.spec_bytes()).len() <= MAX_QUERY_LEN,
        r is Ok ==> r->Ok_0@ == query_message(name.spec_bytes()),
{
    let mut query = dns_parser::Builder::new_query(1, true);
    query.add_question(name, false, dns_parser::QueryType::A, dns_parser::QueryClass::IN);
    query.build()
}

/// The query message asking for the address records of `name`, or `None`
/// when the name cannot be sent: a label of 63 bytes or more, or a message
/// over 512 bytes.
pub fn build_query(name: &str) -> (r: Option<Vec<u8>>)
    ensures
        r is Some <==> encodable(name_bytes(name@)),
        r is Some ==> r->Some_0@ == query_message(name_bytes(name@)),
{
    let bytes = name.as_bytes_vec();
    if !check_labels(&bytes) {
        return None;
    }
    match encode_query(name) {
        Ok(m) => Some(m),
        Err(_) => None,
    }
}

/// A record of a response, reduced to what resolution reads.
#[derive(Clone, Debug, PartialEq, Eq)]
pub enum Record {
    /// An address record, with the IPv4 address as `u32::from(Ipv4Addr)`.
    Address(u32),
    /// A nameserver record, with the server's name.
    NameServer(String),
    /// Any other kind of record.
    Other,
}

/// What a record stands for.
pub ghost enum RecordModel {
    Address(u32),
    NameServer(Seq<char>),
    Other,
}

impl View for Record {
    type V = RecordModel;

    open spec fn view(&self) -> RecordModel {
        match self {
            Record::Address(ip) => RecordModel::Address(*ip),
            Record::NameServer(n) => RecordModel::NameServer(n@),
            Record::Other => RecordModel::Other,
        }
    }
}

/// A parsed response: its status code and its three sections of records.
#[derive(Clone, Debug, PartialEq, Eq)]
pub struct Response {
    /// The response code; 0 is success.
    pub rcode: u8,
    pub answers: Vec<Record>,
    pub nameservers: Vec<Record>,
    pub additional: Vec<Record>,
}

/// What a response stands for.
pub ghost struct ResponseModel {
    pub rcode: u8,
    pub answers: Seq<RecordModel>,
    pub nameservers: Seq<RecordModel>,
    pub additional: Seq<RecordModel>,
}

/// What each of the records `v` stands for.
pub open spec fn records_view(v: Seq<Record>) -> Seq<RecordModel> {
    v.map_values(|r: Record| r@)
}

impl View for Response {
    type V = ResponseModel;

    open spec fn view(&self) -> ResponseModel {
        ResponseModel {
            rcode: self.rcode,
            answers: records_view(self.answers@),
            nameservers: records_view(self.nameservers@),
            additional: records_view(self.additional@),
        }
    }
}

/// The response that the bytes `b` parse to, with its records reduced as
/// `Record` does; `None` where they are no well-formed DNS packet.
pub uninterp spec fn decoded(b: Seq<u8>) -> Option<ResponseModel>;

#[verifier::external_type_specification]
#[verifier::external_body]
pub struct ExParseError(dns_parser::Error);

/// Relies on dns_parser's `Packet::parse`, which fails on bytes that are no
/// well-formed DNS packet and otherwise depends on the bytes alone; and on
/// the response code's conversion to `u8` and the `Display` of a `Name`.
#[verifier::external_body]
fn parse_packet(buf: &[u8]) -> (r: Result<Response, dns_parser::Error>)
    ensures
        r is Ok <==> decoded(buf@) is Some,
        r is Ok ==> r->Ok_0@ == decoded(buf@)->0,
{
    let p = Packet::parse(buf)?;
    let records = |rs: &Vec<ResourceRecord>| -> Vec<Record> {
        rs.iter().map(|rr| match &rr.data {
            RData::A(a) => Record::Address(u32::from(a.0)),
            RData::NS(ns) => Record::NameServer(ns.0.to_string()),
            _ => Record::Other,
        }).collect()
    };
    let rcode = p.header.response_code.into();
    Ok(Response { rcode, answers: records(&p.answers), nameservers: records(&p.nameservers), additional: records(&p.additional) })
}

/// The response that the datagram `buf` holds, or `None` where it is no
/// well-formed DNS packet.
pub fn parse_response(buf: &[u8]) -> (r: Option<Response>)
    ensures
        r is Some <==> decoded(buf@) is Some,
        r is Some ==> r->Some_0@ == decoded(buf@)->0,
{
    match parse_packet(buf) {
        Ok(resp) => Some(resp),
        Err(_) => None,
    }
}

/// The address of the first answer, where that answer is an address record.
/// A first answer of another kind gives `None`, whatever follows it.
pub open spec fn answer_of(answers: Seq<RecordModel>) -> Option<u32> {
    if answers.len() > 0 {
        match answers[0] {
            RecordModel::Address(ip) => Some(ip),
            _ => None,
        }
    } else {
        None
    }
}

/// The address of the first address record among `s`.
pub open spec fn first_address(s: Seq<RecordModel>) -> Option<u32>
    decreases s.len(),
{
    if s.len() == 0 {
        None
    } else {
        match s[0] {
            RecordModel::Address(ip) => Some(ip),
            _ => first_address(s.drop_first()),
        }
    }
}

/// The name of the first nameserver record among `s`.
pub open spec fn first_nameserver(s: Seq<RecordModel>) -> Option<Seq<char>>
    decreases s.len(),
{
    if s.len() == 0 {
        None
    } else {
        match s[0] {
            RecordModel::NameServer(n) => Some(n),
            _ => first_nameserver(s.drop_first()),
        }
    }
}

/// The address in the first answer, where it is an address record.
pub fn get_answer(response: &Response) -> (r: Option<u32>)
    ensures
        r == answer_of(response@.answers),
{
    if response.answers.len() > 0 {
        match &response.answers[0] {
            Record::Address(ip) => Some(*ip),
            _ => None,
        }
    } else {
        None
    }
}

/// The first glue address among the additional records.
pub fn get_additional(response: &Response) -> (r: Option<u32>)
    ensures
        r == first_address(response@.additional),
{
    let v = &response.additional;
    let ghost s = records_view(v@);
    let mut i: usize = 0;
    assert(s.subrange(0, s.len() as int) =~= s);
    while i < v.len()
        invariant
            i <= v.len(),
            s == records_view(v@),
            s == response@.additional,
            first_address(s) == first_address(s.subrange(i as int, s.len() as int)),
        decreases v.len() - i,
    {
        assert(s.subrange(i as int, s.len() as int).drop_first() =~= s.subrange(i + 1, s.len() as int));
        assert(s[i as int] == v@[i as int]@);
        assert(s.subrange(i as int, s.len() as int)[0] == s[i as int]);
        if let Record::Address(ip) = &v[i] {
            return Some(*ip);
        }
        i = i + 1;
    }
    None
}

/// The name of the first delegation among the authority records.
pub fn get_ns(response: &Response) -> (r: Option<String>)
    ensures
        r is Some <==> first_nameserver(response@.nameservers) is Some,
        r is Some ==> r->Some_0@ == first_nameserver(response@.nameservers)->0,
{
    let v = &response.nameservers;
    let ghost s = records_view(v@);
    let mut i: usize = 0;
    assert(s.subrange(0, s.len() as int) =~= s);
    while i < v.len()
        invariant
            i <= v.len(),
            s == records_view(v@),
            s == response@.nameservers,
            first_nameserver(s) == first_nameserver(s.subrange(i as int, s.len() as int)),
        decreases v.len() - i,
    {
        assert(s.subrange(i as int, s.len() as int).drop_first() =~= s.subrange(i + 1, s.len() as int));
        assert(s[i as int] == v@[i as int]@);
        assert(s.subrange(i as int, s.len() as int)[0] == s[i as int]);
        if let Record::NameServer(n) = &v[i] {
            return Some(n.clone());
        }
        i = i + 1;
    }
    None
}

} // verus!
