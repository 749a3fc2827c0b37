//! The resolver: a query is answered from the local record table where it
//! holds matching records, and handed to an upstream resolver where it does
//! not. The server itself sends and receives nothing: it says what is to be
//! sent, and is told what came back.

use crate::error::DnsError;
use crate::header::DnsHeader;
use crate::name::{name_ok, DnsName};
use crate::packet::{
    count_of, counted, decode_message, encode_message, packet_fits, packet_names_ok, packet_ok,
    records_fit, records_fit_wire, records_names_ok, records_valid, DnsPacket, PacketModel,
};
use crate::question::{question_ok, questions_view, DnsQuestion, QuestionModel};
use crate::record::{record_fits, record_names_ok, records_view, DnsRecord, RecordModel};
use crate::types::{DnsQueryType, DnsResponseCode};
use rand::seq::SliceRandom;
use vstd::prelude::*;

verus! {

/// The port on which upstream resolvers are asked.
pub const UPSTREAM_PORT: u16 = 53;

/// A resolver with its ports, its upstream resolvers and its local records.
pub struct DnsServer {
    listen_port: u16,
    backup_port: u16,
    servers: Vec<String>,
    records: Vec<DnsRecord>,
}

/// A resolver over sequences.
pub struct ServerModel {
    pub listen_port: u16,
    pub backup_port: u16,
    pub servers: Seq<String>,
    pub records: Seq<RecordModel>,
}

/// What is to be done with a datagram that came in.
pub enum QueryStep {
    /// The datagram is no message: nothing is sent back.
    Drop(DnsError),
    /// The reply to send back to where the datagram came from.
    Reply(Vec<u8>),
    /// An upstream resolver is to be asked before the reply can be made.
    Forward(PendingQuery),
}

/// What the resolution of a question gives.
pub enum Lookup {
    /// The answer from the local records.
    Local(DnsPacket),
    /// The host and port of an upstream resolver, and the query to send it.
    Forward { server: String, port: u16, query: Vec<u8> },
}

/// A query that waits for an upstream resolver's answer.
pub struct PendingQuery {
    request: DnsPacket,
    server: String,
    query: Vec<u8>,
}

/// The record answers a question for `name` and `query_type`.
pub open spec fn answers_question(
    r: RecordModel,
    name: Seq<Seq<u8>>,
    query_type: DnsQueryType,
) -> bool {
    r.name == name && r.data.record_type().code() == query_type.code()
}

/// The records of the table that answer the question, in the table's order.
pub open spec fn local_answers(
    table: Seq<RecordModel>,
    name: Seq<Seq<u8>>,
    query_type: DnsQueryType,
) -> Seq<RecordModel>
    decreases table.len(),
{
    if table.len() == 0 {
        Seq::empty()
    } else if answers_question(table.last(), name, query_type) {
        local_answers(table.drop_last(), name, query_type).push(table.last())
    } else {
        local_answers(table.drop_last(), name, query_type)
    }
}

/// The message that answers from the local records: the id of the request,
/// `NOERROR`, and the records in the answer section.
pub open spec fn local_result(id: u16, answers: Seq<RecordModel>) -> PacketModel {
    counted(
        PacketModel {
            header: DnsHeader { id, ..DnsHeader::blank() },
            questions: Seq::empty(),
            answers,
            authorities: Seq::empty(),
            additionals: Seq::empty(),
        },
    )
}

/// The query that is sent upstream: recursion desired, and the one question.
pub open spec fn outbound_query(name: Seq<Seq<u8>>, query_type: DnsQueryType) -> PacketModel {
    counted(
        PacketModel {
            header: DnsHeader { recurse_desired: true, ..DnsHeader::blank() },
            questions: seq![QuestionModel { name, query_type }],
            answers: Seq::empty(),
            authorities: Seq::empty(),
            additionals: Seq::empty(),
        },
    )
}

/// The header of every reply: the id of the request, and the flags for a
/// response, recursion desired and recursion available.
pub open spec fn reply_header(request: PacketModel, code: DnsResponseCode) -> DnsHeader {
    DnsHeader {
        id: request.header.id,
        query_response: true,
        recurse_desired: true,
        recurse_available: true,
        response_code: code,
        ..DnsHeader::blank()
    }
}

/// A reply without any question or record.
pub open spec fn bare_reply(request: PacketModel, code: DnsResponseCode) -> PacketModel {
    counted(
        PacketModel {
            header: reply_header(request, code),
            questions: Seq::empty(),
            answers: Seq::empty(),
            authorities: Seq::empty(),
            additionals: Seq::empty(),
        },
    )
}

/// The reply to a request. A request without a question is answered with
/// `FORMERR`. Else only the first question is looked at: where its
/// resolution gave a message, the reply repeats the question and carries
/// that message's response code and its three record sections; where it
/// failed, the reply is `SERVFAIL` without any question or record.
pub open spec fn reply_for(request: PacketModel, outcome: Result<PacketModel, DnsError>) -> PacketModel {
    if request.questions.len() == 0 {
        bare_reply(request, DnsResponseCode::FORMERR)
    } else {
        match outcome {
            Ok(result) => counted(
                PacketModel {
                    header: reply_header(request, result.header.response_code),
                    questions: seq![request.questions[0]],
                    answers: result.answers,
                    authorities: result.authorities,
                    additionals: result.additionals,
                },
            ),
            Err(_) => bare_reply(request, DnsResponseCode::SERVFAIL),
        }
    }
}

/// What an upstream exchange gave: the message that the response holds, or
/// `ResolutionFailed` where nothing came back or what came back is no message.
pub open spec fn upstream_outcome(response: Option<Seq<u8>>) -> Result<PacketModel, DnsError> {
    match response {
        None => Err(DnsError::ResolutionFailed),
        Some(bytes) => match decode_message(bytes) {
            Ok(m) => Ok(m),
            Err(_) => Err(DnsError::ResolutionFailed),
        },
    }
}

/// `chosen` is one of the upstream resolvers, or the fixed public resolver
/// where there is none.
pub open spec fn upstream_choice(servers: Seq<String>, chosen: String) -> bool {
    if servers.len() == 0 {
        chosen@ == "8.8.8.8"@
    } else {
        servers.contains(chosen)
    }
}

/// What a response datagram is, over sequences.
pub open spec fn response_view(response: Option<&[u8]>) -> Option<Seq<u8>> {
    match response {
        Some(bytes) => Some(bytes@),
        None => None,
    }
}

/// One of `servers` picked at random, each with the same chance: the call
/// `choose` of `rand::seq::SliceRandom` on the slice, with the generator
/// that `rand::thread_rng` returns. It gives nothing for an empty slice and
/// an element of the slice otherwise; which one is not said.
#[verifier::external_body]
fn choose_upstream(servers: &Vec<String>) -> (r: Option<&String>)
    ensures
        servers@.len() == 0 <==> r is None,
        r matches Some(s) ==> servers@.contains(*s),
{
    servers.choose(&mut rand::thread_rng())
}

/// The reply to `request`, given what the resolution of its first question gave.
pub fn make_reply(request: &DnsPacket, outcome: Result<DnsPacket, DnsError>) -> (reply: DnsPacket)
    ensures
        reply@ == reply_for(request@, crate::packet::packet_result_view(outcome)),
{
    let mut header = DnsHeader::new();
    header.id = request.header.id;
    header.query_response = true;
    header.recurse_desired = true;
    header.recurse_available = true;
    let mut reply = DnsPacket {
        header,
        question_section: Vec::new(),
        answer_section: Vec::new(),
        authority_section: Vec::new(),
        additional_section: Vec::new(),
    };
    assert(reply@.questions =~= Seq::empty());
    assert(reply@.answers =~= Seq::empty());
    assert(reply@.authorities =~= Seq::empty());
    assert(reply@.additionals =~= Seq::empty());
    if request.question_section.len() == 0 {
        reply.header.response_code = DnsResponseCode::FORMERR;
        return reply;
    }
    match outcome {
        Ok(result) => {
            let question = request.question_section[0].clone();
            reply.header.response_code = result.header.response_code;
            reply.header.question_count = 1;
            reply.header.answer_count = count_of(result.answer_section.len());
            reply.header.authority_count = count_of(result.authority_section.len());
            reply.header.additional_count = count_of(result.additional_section.len());
            reply.question_section.push(question);
            reply.answer_section = result.answer_section;
            reply.authority_section = result.authority_section;
            reply.additional_section = result.additional_section;
            assert(reply@.questions =~= seq![request@.questions[0]]);
            reply
        },
        Err(_) => {
            reply.header.response_code = DnsResponseCode::SERVFAIL;
            reply
        },
    }
}

/// A reply to a valid request whose resolution gave a valid message, or
/// failed, can be written.
pub proof fn lemma_reply_can_be_written(request: PacketModel, outcome: Result<PacketModel, DnsError>)
    requires
        packet_ok(request),
        outcome matches Ok(result) ==> packet_fits(result) && packet_names_ok(result),
    ensures
        packet_fits(reply_for(request, outcome)),
        packet_names_ok(reply_for(request, outcome)),
{
    if request.questions.len() > 0 {
        assert(question_ok(request.questions[0]));
    }
}

impl View for DnsServer {
    type V = ServerModel;

    closed spec fn view(&self) -> ServerModel {
        ServerModel {
            listen_port: self.listen_port,
            backup_port: self.backup_port,
            servers: self.servers@,
            records: records_view(self.records@),
        }
    }
}

impl PendingQuery {
    #[verifier::type_invariant]
    spec fn well_formed(self) -> bool {
        packet_ok(self.request@) && self.request@.questions.len() > 0
    }

    /// The request that waits for its answer.
    pub closed spec fn request(&self) -> PacketModel {
        self.request@
    }

    /// The upstream resolver to ask.
    pub closed spec fn upstream(&self) -> String {
        self.server
    }

    /// The query to send upstream.
    pub closed spec fn outbound(&self) -> Seq<u8> {
        self.query@
    }

    /// The host of the upstream resolver to ask.
    pub fn server(&self) -> (s: &String)
        ensures
            *s == self.upstream(),
    {
        &self.server
    }

    /// The port of the upstream resolver to ask.
    pub fn port(&self) -> (p: u16)
        ensures
            p == 53,
    {
        UPSTREAM_PORT
    }

    /// The datagram to send to the upstream resolver.
    pub fn query(&self) -> (q: &Vec<u8>)
        ensures
            q@ == self.outbound(),
    {
        &self.query
    }

    /// The id of the request that waits.
    pub fn request_id(&self) -> (id: u16)
        ensures
            id == self.request().header.id,
    {
        self.request.header.id
    }

    /// The question that is being resolved: the first of the request.
    pub fn question(&self) -> (q: &DnsQuestion)
        ensures
            self.request().questions.len() > 0,
            q@ == self.request().questions[0],
    {
        proof {
            use_type_invariant(self);
        }
        &self.request.question_section[0]
    }

    /// The reply to the request, given the datagram that the upstream
    /// resolver sent back, or nothing where the exchange failed. The reply
    /// carries the id of the request, whatever id the response has, and the
    /// response's code and records; where the exchange failed or the response
    /// is no message it is `SERVFAIL`.
    pub fn finish(&self, response: Option<&[u8]>) -> (reply: Vec<u8>)
        ensures
            reply@ == encode_message(
                reply_for(self.request(), upstream_outcome(response_view(response))),
            ),
    {
        proof {
            use_type_invariant(self);
        }
        let outcome = match response {
            None => Err(DnsError::ResolutionFailed),
            Some(bytes) => match DnsPacket::from_bytes(bytes) {
                Ok(m) => Ok(m),
                Err(_) => Err(DnsError::ResolutionFailed),
            },
        };
        proof {
            lemma_reply_can_be_written(self.request@, crate::packet::packet_result_view(outcome));
        }
        let reply = make_reply(&self.request, outcome);
        reply.encode()
    }
}

impl DnsServer {
    #[verifier::type_invariant]
    spec fn well_formed(self) -> bool {
        records_names_ok(records_view(self.records@)) && records_fit(records_view(self.records@))
    }

    /// Whether `records` can serve as the local record table: there are at
    /// most 65535 of them, and each can be written.
    pub fn accepts(records: &Vec<DnsRecord>) -> (ok: bool)
        ensures
            ok == (records_names_ok(records_view(records@)) && records_fit(records_view(records@))),
    {
        records_valid(records) && records_fit_wire(records)
    }

    /// A resolver that listens on `listen_port`, asks upstream resolvers
    /// from `backup_port`, forwards to one of `servers` and answers from
    /// `records` what they hold.
    pub fn new(listen_port: u16, backup_port: u16, servers: Vec<String>, records: Vec<DnsRecord>) -> (s:
        DnsServer)
        requires
            records_names_ok(records_view(records@)),
            records_fit(records_view(records@)),
        ensures
            s@ == (ServerModel {
                listen_port,
                backup_port,
                servers: servers@,
                records: records_view(records@),
            }),
    {
        DnsServer { listen_port, backup_port, servers, records }
    }

    /// The port on which queries come in.
    pub fn listen_port(&self) -> (p: u16)
        ensures
            p == self@.listen_port,
    {
        self.listen_port
    }

    /// The port from which upstream resolvers are asked.
    pub fn backup_port(&self) -> (p: u16)
        ensures
            p == self@.backup_port,
    {
        self.backup_port
    }

    /// The local records that answer a question for `name` and
    /// `query_type`, in the table's order.
    pub fn find_local(&self, name: &DnsName, query_type: DnsQueryType) -> (found: Vec<DnsRecord>)
        ensures
            records_view(found@) == local_answers(self@.records, name@, query_type),
            records_names_ok(records_view(found@)),
            records_fit(records_view(found@)),
    {
        proof {
            use_type_invariant(self);
        }
        let ghost table = records_view(self.records@);
        let mut found: Vec<DnsRecord> = Vec::new();
        let mut i: usize = 0;
        assert(records_view(found@) =~= Seq::<RecordModel>::empty());
        assert(table.subrange(0, 0) =~= Seq::<RecordModel>::empty());
        while i < self.records.len()
            invariant
                i <= self.records.len(),
                table == records_view(self.records@),
                records_names_ok(table),
                records_fit(table),
                found.len() <= i,
                records_view(found@) == local_answers(table.subrange(0, i as int), name@, query_type),
                records_names_ok(records_view(found@)),
                forall|k: int| 0 <= k < found.len() ==> record_fits(#[trigger] records_view(found@)[k]),
            decreases self.records.len() - i,
        {
            let record = &self.records[i];
            let ghost before = records_view(found@);
            proof {
                assert(table.subrange(0, i + 1).drop_last() =~= table.subrange(0, i as int));
                assert(table.subrange(0, i + 1).last() == table[i as int]);
                assert(record_names_ok(table[i as int]));
                assert(record_fits(table[i as int]));
            }
            if record.name.same_as(name) && record.record_type().same_as(query_type) {
                let copy = record.clone();
                found.push(copy);
                assert(records_view(found@) =~= before.push(table[i as int]));
            }
            i = i + 1;
        }
        assert(table.subrange(0, i as int) =~= table);
        found
    }

    /// Resolves a question. Where local records answer it, the result is a
    /// message with the id `request_id`, `NOERROR` and those records as
    /// answers. Else it is the query to send to an upstream resolver, picked
    /// at random from the configured ones, or the fixed public resolver
    /// where none is configured. Fails with `ResolutionFailed` where the
    /// query cannot be written.
    pub fn lookup(&self, request_id: u16, query_name: &DnsName, query_type: DnsQueryType) -> (r:
        Result<Lookup, DnsError>)
        ensures
            ({
                let local = local_answers(self@.records, query_name@, query_type);
                if local.len() > 0 {
                    r matches Ok(Lookup::Local(p)) && p@ == local_result(request_id, local)
                        && packet_fits(p@) && packet_names_ok(p@)
                } else if name_ok(query_name@) {
                    r matches Ok(Lookup::Forward { server, port, query }) && port == 53 && query@
                        == encode_message(outbound_query(query_name@, query_type))
                        && upstream_choice(self@.servers, server)
                } else {
                    r matches Err(e) && e == DnsError::ResolutionFailed
                }
            }),
    {
        let found = self.find_local(query_name, query_type);
        if found.len() > 0 {
            let mut packet = DnsPacket::new();
            packet.header.id = request_id;
            packet.header.answer_count = count_of(found.len());
            packet.answer_section = found;
            assert(packet@.questions =~= Seq::empty());
            assert(packet@.authorities =~= Seq::empty());
            assert(packet@.additionals =~= Seq::empty());
            return Ok(Lookup::Local(packet));
        }
        if !query_name.is_valid() {
            return Err(DnsError::ResolutionFailed);
        }
        let server = match choose_upstream(&self.servers) {
            Some(s) => s.clone(),
            None => "8.8.8.8".to_owned(),
        };
        let mut packet = DnsPacket::new();
        packet.header.recurse_desired = true;
        packet.add_question(DnsQuestion::new(query_name.clone(), query_type));
        assert(packet@.questions =~= seq![
            QuestionModel { name: query_name@, query_type },
        ]);
        assert(packet@ == outbound_query(query_name@, query_type));
        let query = packet.encode();
        Ok(Lookup::Forward { server, port: UPSTREAM_PORT, query })
    }

    /// Takes a datagram that came in and says what to do with it.
    ///
    /// A datagram that is no message is dropped, with the reason. A message
    /// without a question gets the reply `FORMERR`. Else the first question
    /// is resolved: where local records answer it, the reply carries them;
    /// where none does, the query is handed on, to be finished with the
    /// upstream resolver's answer.
    pub fn handle_query(&self, datagram: &[u8]) -> (step: QueryStep)
        ensures
            match decode_message(datagram@) {
                Err(e) => step matches QueryStep::Drop(err) && err == e,
                Ok(request) => if request.questions.len() == 0 {
                    step matches QueryStep::Reply(bytes) && bytes@ == encode_message(
                        bare_reply(request, DnsResponseCode::FORMERR),
                    )
                } else {
                    let q = request.questions[0];
                    let local = local_answers(self@.records, q.name, q.query_type);
                    if local.len() > 0 {
                        step matches QueryStep::Reply(bytes) && bytes@ == encode_message(
                            reply_for(
                                request,
                                Ok::<PacketModel, DnsError>(local_result(request.header.id, local)),
                            ),
                        )
                    } else {
                        step matches QueryStep::Forward(pending) && pending.request() == request
                            && pending.outbound() == encode_message(
                            outbound_query(q.name, q.query_type),
                        ) && upstream_choice(self@.servers, pending.upstream())
                    }
                },
            },
    {
        let request = match DnsPacket::from_bytes(datagram) {
            Err(e) => {
                return QueryStep::Drop(e);
            },
            Ok(p) => p,
        };
        if request.question_section.len() == 0 {
            proof {
                lemma_reply_can_be_written(
                    request@,
                    Err::<PacketModel, DnsError>(DnsError::ResolutionFailed),
                );
            }
            let reply = make_reply(&request, Err(DnsError::ResolutionFailed));
            return QueryStep::Reply(reply.encode());
        }
        assert(question_ok(request@.questions[0]));
        let outcome = self.lookup(
            request.header.id,
            &request.question_section[0].name,
            request.question_section[0].query_type,
        );
        match outcome {
            Ok(Lookup::Local(result)) => {
                proof {
                    lemma_reply_can_be_written(request@, Ok::<PacketModel, DnsError>(result@));
                }
                let reply = make_reply(&request, Ok(result));
                QueryStep::Reply(reply.encode())
            },
            Ok(Lookup::Forward { server, port, query }) => QueryStep::Forward(
                PendingQuery { request, server, query },
            ),
            Err(e) => {
                proof {
                    lemma_reply_can_be_written(request@, Err::<PacketModel, DnsError>(e));
                }
                let reply = make_reply(&request, Err(e));
                QueryStep::Reply(reply.encode())
            },
        }
    }
}

} // verus!
