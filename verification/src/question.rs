//! The question section: a name and a query type, of class IN.

use crate::error::DnsError;
use crate::name::{decode_name, encode_name, name_ok, prepend, DnsName};
use crate::name_laws::lemma_decoded_name_ok;
use crate::types::DnsQueryType;
use crate::wire::{get_u16, put_u16, read_u16, u16_bytes};
use vstd::prelude::*;

verus! {

/// A question: the name asked for and the type of record wanted. The class
/// is always IN.
#[derive(Debug, PartialEq, Eq)]
pub struct DnsQuestion {
    pub name: DnsName,
    pub query_type: DnsQueryType,
}

/// A question over the octets of its name's labels.
pub struct QuestionModel {
    pub name: Seq<Seq<u8>>,
    pub query_type: DnsQueryType,
}

impl View for DnsQuestion {
    type V = QuestionModel;

    open spec fn view(&self) -> QuestionModel {
        QuestionModel { name: self.name@, query_type: self.query_type }
    }
}

/// The questions of a section, each as its model.
pub open spec fn questions_view(qs: Seq<DnsQuestion>) -> Seq<QuestionModel> {
    Seq::new(qs.len(), |i: int| qs[i]@)
}

/// A question on the wire: the name, the type's number and the number 1 of
/// the class IN.
pub open spec fn encode_question(q: QuestionModel) -> Seq<u8> {
    encode_name(q.name) + u16_bytes(q.query_type.code()) + u16_bytes(1)
}

/// The question that starts at `pos`, and the offset behind it. The class on
/// the wire is read over.
pub open spec fn decode_question(buf: Seq<u8>, pos: int) -> Result<(QuestionModel, int), DnsError> {
    match decode_name(buf, pos) {
        Err(e) => Err(e),
        Ok((name, end)) => if end + 4 > buf.len() {
            Err(DnsError::TruncatedMessage)
        } else {
            Ok(
                (
                    QuestionModel { name, query_type: DnsQueryType::of_code(read_u16(buf, end)) },
                    end + 4,
                ),
            )
        },
    }
}

/// The questions on the wire, one after the other.
pub open spec fn encode_questions(qs: Seq<QuestionModel>) -> Seq<u8>
    decreases qs.len(),
{
    if qs.len() == 0 {
        Seq::empty()
    } else {
        encode_question(qs[0]) + encode_questions(qs.drop_first())
    }
}

/// The `count` questions that start at `pos`, and the offset behind the last.
pub open spec fn decode_questions(buf: Seq<u8>, pos: int, count: nat) -> Result<
    (Seq<QuestionModel>, int),
    DnsError,
>
    decreases count,
{
    if count == 0 {
        Ok((Seq::empty(), pos))
    } else {
        match decode_question(buf, pos) {
            Err(e) => Err(e),
            Ok((q, next)) => prepend(seq![q], decode_questions(buf, next, (count - 1) as nat)),
        }
    }
}

/// The name of the question can be written.
pub open spec fn question_names_ok(q: QuestionModel) -> bool {
    name_ok(q.name)
}

/// The question can be written and reads back as itself.
pub open spec fn question_ok(q: QuestionModel) -> bool {
    name_ok(q.name) && q.query_type.canonical()
}

/// What reading a question returns, over the model.
pub open spec fn question_result_view(r: Result<(DnsQuestion, usize), DnsError>) -> Result<
    (QuestionModel, int),
    DnsError,
> {
    match r {
        Ok((q, end)) => Ok((q@, end as int)),
        Err(e) => Err(e),
    }
}

/// Every question read can be written and reads back as itself, takes at
/// least five octets and ends inside the buffer.
pub proof fn lemma_decoded_question_ok(buf: Seq<u8>, pos: int)
    requires
        decode_question(buf, pos) is Ok,
    ensures
        question_ok(decode_question(buf, pos)->Ok_0.0),
        pos + 5 <= decode_question(buf, pos)->Ok_0.1 <= buf.len(),
{
    lemma_decoded_name_ok(buf, pos);
}

impl Clone for DnsQuestion {
    /// A copy of the question.
    fn clone(&self) -> (r: DnsQuestion)
        ensures
            r@ == self@,
    {
        DnsQuestion { name: self.name.clone(), query_type: self.query_type }
    }
}

impl DnsQuestion {
    /// A question for `name` and `query_type`.
    pub fn new(name: DnsName, query_type: DnsQueryType) -> (q: DnsQuestion)
        ensures
            q.name == name,
            q.query_type == query_type,
    {
        DnsQuestion { name, query_type }
    }

    /// Appends the question as it stands on the wire.
    pub fn write_to(&self, out: &mut Vec<u8>)
        requires
            name_ok(self@.name),
        ensures
            final(out)@ == old(out)@ + encode_question(self@),
    {
        self.name.write_to(out);
        put_u16(out, self.query_type.to_num());
        put_u16(out, 1);
        assert(out@ =~= old(out)@ + encode_question(self@));
    }

    /// Reads the question that starts at `pos` and returns it with the offset behind it.
    pub fn read(buf: &[u8], pos: usize) -> (r: Result<(DnsQuestion, usize), DnsError>)
        ensures
            question_result_view(r) == decode_question(buf@, pos as int),
            r matches Ok((q, end)) ==> question_ok(q@) && pos + 5 <= end <= buf.len(),
    {
        match DnsName::decode(buf, pos) {
            Err(e) => Err(e),
            Ok((name, end)) => {
                proof {
                    lemma_decoded_name_ok(buf@, pos as int);
                }
                if buf.len() - end < 4 {
                    Err(DnsError::TruncatedMessage)
                } else {
                    let query_type = DnsQueryType::from_num(get_u16(buf, end));
                    Ok((DnsQuestion { name, query_type }, end + 4))
                }
            },
        }
    }
}

} // verus!
