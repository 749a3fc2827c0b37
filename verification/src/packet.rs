//! Whole messages: a header and the four sections, written to and read from
//! the wire.

use crate::error::DnsError;
use crate::header::{decode_header, encode_header, header_ok, DnsHeader};
use crate::name::{name_ok, prepend};
use crate::question::{
    decode_question, decode_questions, encode_question, encode_questions, question_ok,
    questions_view, DnsQuestion, QuestionModel,
};
use crate::record::{
    decode_record, decode_records, encode_record, encode_records, record_fits, record_names_ok,
    record_ok, records_view, DnsRecord, RecordModel,
};
use vstd::prelude::*;

verus! {

/// A message: the header, the questions, and the answer, authority and
/// additional records.
#[derive(Debug, PartialEq, Eq)]
pub struct DnsPacket {
    pub header: DnsHeader,
    pub question_section: Vec<DnsQuestion>,
    pub answer_section: Vec<DnsRecord>,
    pub authority_section: Vec<DnsRecord>,
    pub additional_section: Vec<DnsRecord>,
}

/// A message over sequences.
pub struct PacketModel {
    pub header: DnsHeader,
    pub questions: Seq<QuestionModel>,
    pub answers: Seq<RecordModel>,
    pub authorities: Seq<RecordModel>,
    pub additionals: Seq<RecordModel>,
}

impl View for DnsPacket {
    type V = PacketModel;

    open spec fn view(&self) -> PacketModel {
        PacketModel {
            header: self.header,
            questions: questions_view(self.question_section@),
            answers: records_view(self.answer_section@),
            authorities: records_view(self.authority_section@),
            additionals: records_view(self.additional_section@),
        }
    }
}

/// The count that the header shows for a section of `len` entries: `len`
/// where it fits in 16 bits, else 65535.
pub open spec fn shown_count(len: nat) -> u16 {
    if len <= 0xFFFF {
        len as u16
    } else {
        0xFFFFu16
    }
}

/// The header of `m` with each count set to the length of its section.
pub open spec fn counted_header(m: PacketModel) -> DnsHeader {
    DnsHeader {
        question_count: shown_count(m.questions.len()),
        answer_count: shown_count(m.answers.len()),
        authority_count: shown_count(m.authorities.len()),
        additional_count: shown_count(m.additionals.len()),
        ..m.header
    }
}

/// The message `m` with each count of the header set to the length of its section.
pub open spec fn counted(m: PacketModel) -> PacketModel {
    PacketModel { header: counted_header(m), ..m }
}

/// The counts of the header are the lengths of the sections.
pub open spec fn counts_match(m: PacketModel) -> bool {
    &&& m.header.question_count == m.questions.len()
    &&& m.header.answer_count == m.answers.len()
    &&& m.header.authority_count == m.authorities.len()
    &&& m.header.additional_count == m.additionals.len()
}

/// A message on the wire: the header with the counts taken from the
/// sections, then the questions and the three record sections.
pub open spec fn encode_message(m: PacketModel) -> Seq<u8> {
    encode_header(counted_header(m)) + encode_questions(m.questions) + encode_records(m.answers)
        + encode_records(m.authorities) + encode_records(m.additionals)
}

/// The message that `buf` holds: the header, then as many entries of each
/// section as the header's count says. Octets behind the last section are
/// read over.
pub open spec fn decode_message(buf: Seq<u8>) -> Result<PacketModel, DnsError> {
    if buf.len() < 12 {
        Err(DnsError::TruncatedMessage)
    } else {
        let header = decode_header(buf);
        match decode_questions(buf, 12, header.question_count as nat) {
            Err(e) => Err(e),
            Ok((questions, p1)) => match decode_records(buf, p1, header.answer_count as nat) {
                Err(e) => Err(e),
                Ok((answers, p2)) => match decode_records(
                    buf,
                    p2,
                    header.authority_count as nat,
                ) {
                    Err(e) => Err(e),
                    Ok((authorities, p3)) => match decode_records(
                        buf,
                        p3,
                        header.additional_count as nat,
                    ) {
                        Err(e) => Err(e),
                        Ok((additionals, p4)) => Ok(
                            PacketModel { header, questions, answers, authorities, additionals },
                        ),
                    },
                },
            },
        }
    }
}

/// The names of all the questions can be written.
pub open spec fn questions_names_ok(qs: Seq<QuestionModel>) -> bool {
    forall|i: int| 0 <= i < qs.len() ==> name_ok((#[trigger] qs[i]).name)
}

/// The names of all the records can be written.
pub open spec fn records_names_ok(rs: Seq<RecordModel>) -> bool {
    forall|i: int| 0 <= i < rs.len() ==> record_names_ok(#[trigger] rs[i])
}

/// The section has at most 65535 records, each with a payload whose length
/// fits in 16 bits.
pub open spec fn records_fit(rs: Seq<RecordModel>) -> bool {
    &&& rs.len() <= 0xFFFF
    &&& forall|i: int| 0 <= i < rs.len() ==> record_fits(#[trigger] rs[i])
}

/// Every question can be written and reads back as itself.
pub open spec fn questions_ok(qs: Seq<QuestionModel>) -> bool {
    forall|i: int| 0 <= i < qs.len() ==> question_ok(#[trigger] qs[i])
}

/// Every record can be written and reads back as itself.
pub open spec fn records_ok(rs: Seq<RecordModel>) -> bool {
    forall|i: int| 0 <= i < rs.len() ==> record_ok(#[trigger] rs[i])
}

/// All the names of the message can be written.
pub open spec fn packet_names_ok(m: PacketModel) -> bool {
    &&& questions_names_ok(m.questions)
    &&& records_names_ok(m.answers)
    &&& records_names_ok(m.authorities)
    &&& records_names_ok(m.additionals)
}

/// The lengths of the sections and of the payloads fit in the 16 bits that
/// the wire has for them.
pub open spec fn packet_fits(m: PacketModel) -> bool {
    &&& m.questions.len() <= 0xFFFF
    &&& records_fit(m.answers)
    &&& records_fit(m.authorities)
    &&& records_fit(m.additionals)
}

/// A valid message: it can be written, and reads back as itself.
pub open spec fn packet_ok(m: PacketModel) -> bool {
    &&& header_ok(m.header)
    &&& packet_fits(m)
    &&& questions_ok(m.questions)
    &&& records_ok(m.answers)
    &&& records_ok(m.authorities)
    &&& records_ok(m.additionals)
}

/// What reading a message returns, over the model.
pub open spec fn packet_result_view(r: Result<DnsPacket, DnsError>) -> Result<
    PacketModel,
    DnsError,
> {
    match r {
        Ok(p) => Ok(p@),
        Err(e) => Err(e),
    }
}

/// What reading a section of questions returns, over the model.
pub open spec fn questions_result_view(r: Result<(Vec<DnsQuestion>, usize), DnsError>) -> Result<
    (Seq<QuestionModel>, int),
    DnsError,
> {
    match r {
        Ok((qs, end)) => Ok((questions_view(qs@), end as int)),
        Err(e) => Err(e),
    }
}

/// What reading a section of records returns, over the model.
pub open spec fn records_result_view(r: Result<(Vec<DnsRecord>, usize), DnsError>) -> Result<
    (Seq<RecordModel>, int),
    DnsError,
> {
    match r {
        Ok((rs, end)) => Ok((records_view(rs@), end as int)),
        Err(e) => Err(e),
    }
}

/// Questions written one after the other are the questions of the joined sequence.
pub proof fn lemma_encode_questions_concat(a: Seq<QuestionModel>, b: Seq<QuestionModel>)
    ensures
        encode_questions(a + b) == encode_questions(a) + encode_questions(b),
    decreases a.len(),
{
    if a.len() == 0 {
        assert(a + b =~= b);
        assert(encode_questions(a) + encode_questions(b) =~= encode_questions(b));
    } else {
        lemma_encode_questions_concat(a.drop_first(), b);
        assert((a + b).drop_first() =~= a.drop_first() + b);
        assert(encode_questions(a + b) =~= encode_questions(a) + encode_questions(b));
    }
}

/// One more question at the end adds its octets.
pub proof fn lemma_encode_questions_push(a: Seq<QuestionModel>, q: QuestionModel)
    ensures
        encode_questions(a.push(q)) == encode_questions(a) + encode_question(q),
{
    let one = seq![q];
    lemma_encode_questions_concat(a, one);
    assert(a.push(q) =~= a + one);
    assert(encode_questions(one.drop_first()) =~= Seq::<u8>::empty());
    assert(encode_questions(one) =~= encode_question(q));
}

/// Records written one after the other are the records of the joined sequence.
pub proof fn lemma_encode_records_concat(a: Seq<RecordModel>, b: Seq<RecordModel>)
    ensures
        encode_records(a + b) == encode_records(a) + encode_records(b),
    decreases a.len(),
{
    if a.len() == 0 {
        assert(a + b =~= b);
        assert(encode_records(a) + encode_records(b) =~= encode_records(b));
    } else {
        lemma_encode_records_concat(a.drop_first(), b);
        assert((a + b).drop_first() =~= a.drop_first() + b);
        assert(encode_records(a + b) =~= encode_records(a) + encode_records(b));
    }
}

/// One more record at the end adds its octets.
pub proof fn lemma_encode_records_push(a: Seq<RecordModel>, r: RecordModel)
    ensures
        encode_records(a.push(r)) == encode_records(a) + encode_record(r),
{
    let one = seq![r];
    lemma_encode_records_concat(a, one);
    assert(a.push(r) =~= a + one);
    assert(encode_records(one.drop_first()) =~= Seq::<u8>::empty());
    assert(encode_records(one) =~= encode_record(r));
}

/// Appends the questions as they stand on the wire.
pub fn write_questions(qs: &Vec<DnsQuestion>, out: &mut Vec<u8>)
    requires
        questions_names_ok(questions_view(qs@)),
    ensures
        final(out)@ == old(out)@ + encode_questions(questions_view(qs@)),
{
    let ghost all = questions_view(qs@);
    let mut i: usize = 0;
    while i < qs.len()
        invariant
            i <= qs.len(),
            all == questions_view(qs@),
            questions_names_ok(all),
            out@ == old(out)@ + encode_questions(all.subrange(0, i as int)),
        decreases qs.len() - i,
    {
        assert(name_ok(all[i as int].name));
        qs[i].write_to(out);
        proof {
            lemma_encode_questions_push(all.subrange(0, i as int), all[i as int]);
            assert(all.subrange(0, i + 1) =~= all.subrange(0, i as int).push(all[i as int]));
            assert(out@ =~= old(out)@ + encode_questions(all.subrange(0, i + 1)));
        }
        i = i + 1;
    }
    assert(all.subrange(0, i as int) =~= all);
}

/// Appends the records as they stand on the wire.
pub fn write_records(rs: &Vec<DnsRecord>, out: &mut Vec<u8>)
    requires
        records_names_ok(records_view(rs@)),
        records_fit(records_view(rs@)),
    ensures
        final(out)@ == old(out)@ + encode_records(records_view(rs@)),
{
    let ghost all = records_view(rs@);
    let mut i: usize = 0;
    while i < rs.len()
        invariant
            i <= rs.len(),
            all == records_view(rs@),
            records_names_ok(all),
            records_fit(all),
            out@ == old(out)@ + encode_records(all.subrange(0, i as int)),
        decreases rs.len() - i,
    {
        assert(record_names_ok(all[i as int]));
        assert(record_fits(all[i as int]));
        rs[i].write_to(out);
        proof {
            lemma_encode_records_push(all.subrange(0, i as int), all[i as int]);
            assert(all.subrange(0, i + 1) =~= all.subrange(0, i as int).push(all[i as int]));
            assert(out@ =~= old(out)@ + encode_records(all.subrange(0, i + 1)));
        }
        i = i + 1;
    }
    assert(all.subrange(0, i as int) =~= all);
}

/// Reads `count` questions from `pos` on and returns them with the offset
/// behind the last. Nothing is reserved for questions that have not been read.
pub fn read_questions(buf: &[u8], pos: usize, count: u16) -> (r: Result<
    (Vec<DnsQuestion>, usize),
    DnsError,
>)
    requires
        pos <= buf.len(),
    ensures
        questions_result_view(r) == decode_questions(buf@, pos as int, count as nat),
        r matches Ok((qs, end)) ==> {
            &&& qs.len() == count
            &&& questions_ok(questions_view(qs@))
            &&& pos + 5 * count <= end <= buf.len()
        },
{
    let mut qs: Vec<DnsQuestion> = Vec::new();
    let mut at: usize = pos;
    let mut i: u16 = 0;
    proof {
        lemma_prepend_nothing(decode_questions(buf@, pos as int, count as nat));
        assert(questions_view(qs@) =~= Seq::<QuestionModel>::empty());
    }
    while i < count
        invariant
            i <= count,
            qs.len() == i,
            pos + 5 * i <= at <= buf.len(),
            questions_ok(questions_view(qs@)),
            decode_questions(buf@, pos as int, count as nat) == prepend(
                questions_view(qs@),
                decode_questions(buf@, at as int, (count - i) as nat),
            ),
        decreases count - i,
    {
        match DnsQuestion::read(buf, at) {
            Err(e) => {
                return Err(e);
            },
            Ok((q, next)) => {
                proof {
                    let front = questions_view(qs@);
                    let after = decode_questions(buf@, next as int, (count - i - 1) as nat);
                    assert(questions_view(qs@.push(q)) =~= front.push(q@));
                    match after {
                        Ok((rest, end)) => {
                            assert(front + (seq![q@] + rest) =~= front.push(q@) + rest);
                        },
                        Err(e) => {},
                    }
                }
                qs.push(q);
                at = next;
                i = i + 1;
            },
        }
    }
    proof {
        assert(questions_view(qs@) + Seq::<QuestionModel>::empty() =~= questions_view(qs@));
    }
    Ok((qs, at))
}

/// Reads `count` records from `pos` on and returns them with the offset
/// behind the last. Nothing is reserved for records that have not been read.
pub fn read_records(buf: &[u8], pos: usize, count: u16) -> (r: Result<
    (Vec<DnsRecord>, usize),
    DnsError,
>)
    requires
        pos <= buf.len(),
    ensures
        records_result_view(r) == decode_records(buf@, pos as int, count as nat),
        r matches Ok((rs, end)) ==> {
            &&& rs.len() == count
            &&& records_ok(records_view(rs@))
            &&& records_fit(records_view(rs@))
            &&& pos + 11 * count <= end <= buf.len()
        },
{
    let mut rs: Vec<DnsRecord> = Vec::new();
    let mut at: usize = pos;
    let mut i: u16 = 0;
    proof {
        lemma_prepend_nothing(decode_records(buf@, pos as int, count as nat));
        assert(records_view(rs@) =~= Seq::<RecordModel>::empty());
    }
    while i < count
        invariant
            i <= count,
            rs.len() == i,
            pos + 11 * i <= at <= buf.len(),
            records_ok(records_view(rs@)),
            decode_records(buf@, pos as int, count as nat) == prepend(
                records_view(rs@),
                decode_records(buf@, at as int, (count - i) as nat),
            ),
        decreases count - i,
    {
        match DnsRecord::read(buf, at) {
            Err(e) => {
                return Err(e);
            },
            Ok((rec, next)) => {
                proof {
                    let front = records_view(rs@);
                    let after = decode_records(buf@, next as int, (count - i - 1) as nat);
                    assert(records_view(rs@.push(rec)) =~= front.push(rec@));
                    match after {
                        Ok((rest, end)) => {
                            assert(front + (seq![rec@] + rest) =~= front.push(rec@) + rest);
                        },
                        Err(e) => {},
                    }
                }
                rs.push(rec);
                at = next;
                i = i + 1;
            },
        }
    }
    proof {
        assert(records_view(rs@) + Seq::<RecordModel>::empty() =~= records_view(rs@));
    }
    Ok((rs, at))
}

/// Nothing put before a result leaves it as it is.
pub proof fn lemma_prepend_nothing<T>(r: Result<(Seq<T>, int), DnsError>)
    ensures
        prepend(Seq::<T>::empty(), r) == r,
{
    match r {
        Ok((rest, end)) => {
            assert(Seq::<T>::empty() + rest =~= rest);
        },
        Err(e) => {},
    }
}

/// Whether the names of all the questions can be written.
pub fn questions_valid(qs: &Vec<DnsQuestion>) -> (ok: bool)
    ensures
        ok == questions_names_ok(questions_view(qs@)),
{
    let mut i: usize = 0;
    while i < qs.len()
        invariant
            i <= qs.len(),
            forall|k: int| 0 <= k < i ==> name_ok((#[trigger] questions_view(qs@)[k]).name),
        decreases qs.len() - i,
    {
        if !qs[i].name.is_valid() {
            assert(!name_ok(questions_view(qs@)[i as int].name));
            return false;
        }
        i = i + 1;
    }
    true
}

/// Whether the names of all the records can be written.
pub fn records_valid(rs: &Vec<DnsRecord>) -> (ok: bool)
    ensures
        ok == records_names_ok(records_view(rs@)),
{
    let mut i: usize = 0;
    while i < rs.len()
        invariant
            i <= rs.len(),
            forall|k: int| 0 <= k < i ==> record_names_ok(#[trigger] records_view(rs@)[k]),
        decreases rs.len() - i,
    {
        if !rs[i].names_valid() {
            assert(!record_names_ok(records_view(rs@)[i as int]));
            return false;
        }
        i = i + 1;
    }
    true
}

/// Whether the section has at most 65535 records, each with a payload whose
/// length fits in 16 bits.
pub fn records_fit_wire(rs: &Vec<DnsRecord>) -> (ok: bool)
    ensures
        ok == records_fit(records_view(rs@)),
{
    if rs.len() > 0xFFFF {
        return false;
    }
    let mut i: usize = 0;
    while i < rs.len()
        invariant
            i <= rs.len(),
            rs.len() <= 0xFFFF,
            forall|k: int| 0 <= k < i ==> record_fits(#[trigger] records_view(rs@)[k]),
        decreases rs.len() - i,
    {
        if !rs[i].fits_wire() {
            assert(!record_fits(records_view(rs@)[i as int]));
            return false;
        }
        i = i + 1;
    }
    true
}

/// The count that the header shows for a section of `len` entries.
pub fn count_of(len: usize) -> (c: u16)
    ensures
        c == shown_count(len as nat),
{
    if len <= 0xFFFF {
        len as u16
    } else {
        0xFFFF
    }
}

/// A copy of the questions.
pub fn clone_questions(qs: &Vec<DnsQuestion>) -> (r: Vec<DnsQuestion>)
    ensures
        questions_view(r@) == questions_view(qs@),
{
    let mut r: Vec<DnsQuestion> = Vec::new();
    let mut i: usize = 0;
    while i < qs.len()
        invariant
            i <= qs.len(),
            r.len() == i,
            forall|k: int| 0 <= k < i ==> (#[trigger] r@[k])@ == qs@[k]@,
        decreases qs.len() - i,
    {
        r.push(qs[i].clone());
        i = i + 1;
    }
    assert(questions_view(r@) =~= questions_view(qs@));
    r
}

/// A copy of the records.
pub fn clone_records(rs: &Vec<DnsRecord>) -> (r: Vec<DnsRecord>)
    ensures
        records_view(r@) == records_view(rs@),
{
    let mut r: Vec<DnsRecord> = Vec::new();
    let mut i: usize = 0;
    while i < rs.len()
        invariant
            i <= rs.len(),
            r.len() == i,
            forall|k: int| 0 <= k < i ==> (#[trigger] r@[k])@ == rs@[k]@,
        decreases rs.len() - i,
    {
        r.push(rs[i].clone());
        i = i + 1;
    }
    assert(records_view(r@) =~= records_view(rs@));
    r
}

impl Clone for DnsPacket {
    /// A copy of the message.
    fn clone(&self) -> (r: DnsPacket)
        ensures
            r@ == self@,
    {
        DnsPacket {
            header: self.header,
            question_section: clone_questions(&self.question_section),
            answer_section: clone_records(&self.answer_section),
            authority_section: clone_records(&self.authority_section),
            additional_section: clone_records(&self.additional_section),
        }
    }
}

impl DnsPacket {
    /// A message with a blank header and empty sections.
    pub fn new() -> (p: DnsPacket)
        ensures
            p@ == (PacketModel {
                header: DnsHeader::blank(),
                questions: Seq::empty(),
                answers: Seq::empty(),
                authorities: Seq::empty(),
                additionals: Seq::empty(),
            }),
    {
        let p = DnsPacket {
            header: DnsHeader::new(),
            question_section: Vec::new(),
            answer_section: Vec::new(),
            authority_section: Vec::new(),
            additional_section: Vec::new(),
        };
        assert(p@.questions =~= Seq::empty());
        assert(p@.answers =~= Seq::empty());
        assert(p@.authorities =~= Seq::empty());
        assert(p@.additionals =~= Seq::empty());
        p
    }

    /// Puts a question at the end of the question section, and the section's
    /// length in the header.
    pub fn add_question(&mut self, question: DnsQuestion)
        ensures
            final(self)@.questions == old(self)@.questions.push(question@),
            final(self)@.answers == old(self)@.answers,
            final(self)@.authorities == old(self)@.authorities,
            final(self)@.additionals == old(self)@.additionals,
            final(self)@.header == (DnsHeader {
                question_count: shown_count(old(self)@.questions.len() + 1),
                ..old(self)@.header
            }),
    {
        self.question_section.push(question);
        self.header.question_count = count_of(self.question_section.len());
        assert(self@.questions =~= old(self)@.questions.push(question@));
    }

    /// Puts a record at the end of the answer section, and the section's
    /// length in the header.
    pub fn add_answer(&mut self, record: DnsRecord)
        ensures
            final(self)@.questions == old(self)@.questions,
            final(self)@.answers == old(self)@.answers.push(record@),
            final(self)@.authorities == old(self)@.authorities,
            final(self)@.additionals == old(self)@.additionals,
            final(self)@.header == (DnsHeader {
                answer_count: shown_count(old(self)@.answers.len() + 1),
                ..old(self)@.header
            }),
    {
        self.answer_section.push(record);
        self.header.answer_count = count_of(self.answer_section.len());
        assert(self@.answers =~= old(self)@.answers.push(record@));
    }

    /// Puts a record at the end of the authority section, and the section's
    /// length in the header.
    pub fn add_authority(&mut self, record: DnsRecord)
        ensures
            final(self)@.questions == old(self)@.questions,
            final(self)@.answers == old(self)@.answers,
            final(self)@.authorities == old(self)@.authorities.push(record@),
            final(self)@.additionals == old(self)@.additionals,
            final(self)@.header == (DnsHeader {
                authority_count: shown_count(old(self)@.authorities.len() + 1),
                ..old(self)@.header
            }),
    {
        self.authority_section.push(record);
        self.header.authority_count = count_of(self.authority_section.len());
        assert(self@.authorities =~= old(self)@.authorities.push(record@));
    }

    /// Puts a record at the end of the additional section, and the section's
    /// length in the header.
    pub fn add_additional(&mut self, record: DnsRecord)
        ensures
            final(self)@.questions == old(self)@.questions,
            final(self)@.answers == old(self)@.answers,
            final(self)@.authorities == old(self)@.authorities,
            final(self)@.additionals == old(self)@.additionals.push(record@),
            final(self)@.header == (DnsHeader {
                additional_count: shown_count(old(self)@.additionals.len() + 1),
                ..old(self)@.header
            }),
    {
        self.additional_section.push(record);
        self.header.additional_count = count_of(self.additional_section.len());
        assert(self@.additionals =~= old(self)@.additionals.push(record@));
    }

    /// Whether all the names of the message can be written.
    pub fn names_valid(&self) -> (ok: bool)
        ensures
            ok == packet_names_ok(self@),
    {
        questions_valid(&self.question_section) && records_valid(&self.answer_section)
            && records_valid(&self.authority_section) && records_valid(&self.additional_section)
    }

    /// Whether the lengths of the sections and of the payloads fit in the 16
    /// bits that the wire has for them.
    pub fn fits_wire(&self) -> (ok: bool)
        ensures
            ok == packet_fits(self@),
    {
        self.question_section.len() <= 0xFFFF && records_fit_wire(&self.answer_section)
            && records_fit_wire(&self.authority_section) && records_fit_wire(
            &self.additional_section,
        )
    }

    /// The message on the wire, for a message whose names can be written.
    /// The counts of the header are written from the lengths of the sections,
    /// whatever the header holds.
    pub fn encode(&self) -> (out: Vec<u8>)
        requires
            packet_fits(self@),
            packet_names_ok(self@),
        ensures
            out@ == encode_message(self@),
    {
        let header = DnsHeader {
            id: self.header.id,
            query_response: self.header.query_response,
            opcode: self.header.opcode,
            authoritative_answer: self.header.authoritative_answer,
            truncation: self.header.truncation,
            recurse_desired: self.header.recurse_desired,
            recurse_available: self.header.recurse_available,
            authenticated_data: self.header.authenticated_data,
            checking_disabled: self.header.checking_disabled,
            response_code: self.header.response_code,
            question_count: count_of(self.question_section.len()),
            answer_count: count_of(self.answer_section.len()),
            authority_count: count_of(self.authority_section.len()),
            additional_count: count_of(self.additional_section.len()),
        };
        assert(header == counted_header(self@));
        let mut out: Vec<u8> = Vec::new();
        header.write_to(&mut out);
        write_questions(&self.question_section, &mut out);
        write_records(&self.answer_section, &mut out);
        write_records(&self.authority_section, &mut out);
        write_records(&self.additional_section, &mut out);
        assert(out@ =~= encode_message(self@));
        out
    }

    /// The message on the wire. The counts of the header are written from the
    /// lengths of the sections, whatever the header holds. Fails with
    /// `InvalidLabel` where a name of the message cannot be written. The
    /// length of the result is not capped.
    pub fn to_bytes(&self) -> (r: Result<Vec<u8>, DnsError>)
        requires
            packet_fits(self@),
        ensures
            packet_names_ok(self@) ==> r is Ok && r->Ok_0@ == encode_message(self@),
            !packet_names_ok(self@) ==> r == Err::<Vec<u8>, DnsError>(DnsError::InvalidLabel),
    {
        if !self.names_valid() {
            return Err(DnsError::InvalidLabel);
        }
        Ok(self.encode())
    }

    /// Reads a message. Each section is read entry by entry, as many as the
    /// header's count says, and every read is checked against the length of
    /// the buffer. Octets behind the last section are read over.
    pub fn from_bytes(buf: &[u8]) -> (r: Result<DnsPacket, DnsError>)
        ensures
            packet_result_view(r) == decode_message(buf@),
            r matches Ok(p) ==> packet_ok(p@) && counts_match(p@),
    {
        if buf.len() < 12 {
            return Err(DnsError::TruncatedMessage);
        }
        let header = DnsHeader::read(buf);
        let (question_section, p1) = match read_questions(buf, 12, header.question_count) {
            Err(e) => {
                return Err(e);
            },
            Ok(v) => v,
        };
        let (answer_section, p2) = match read_records(buf, p1, header.answer_count) {
            Err(e) => {
                return Err(e);
            },
            Ok(v) => v,
        };
        let (authority_section, p3) = match read_records(buf, p2, header.authority_count) {
            Err(e) => {
                return Err(e);
            },
            Ok(v) => v,
        };
        let (additional_section, p4) = match read_records(buf, p3, header.additional_count) {
            Err(e) => {
                return Err(e);
            },
            Ok(v) => v,
        };
        Ok(DnsPacket { header, question_section, answer_section, authority_section, additional_section })
    }
}

} // verus!
