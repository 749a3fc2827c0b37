//! What holds of the message codec: a valid message that is written reads
//! back as itself, a message that is read is valid, and a buffer that ends
//! before the records its header announces is reported as truncated.

use crate::error::DnsError;
use crate::header::{
    decode_header, encode_header, header_ok, lemma_header_round_trip, DnsHeader,
};
use crate::name::{decode_name, encode_name, lemma_encode_labels_len, name_ok, prepend};
use crate::name_laws::{lemma_decode_cut_name, lemma_decode_encoded_name};
use crate::packet::{
    counted, counted_header, counts_match, decode_message, encode_message, packet_ok,
    questions_ok, records_ok, PacketModel,
};
use crate::question::{
    decode_question, decode_questions, encode_question, encode_questions,
    lemma_decoded_question_ok, question_ok, QuestionModel,
};
use crate::record::{
    decode_rdata, decode_record, decode_records, encode_record, encode_records,
    lemma_decoded_record_ok, lemma_rdata_len, record_ok, RecordDataModel, RecordModel,
};
use crate::types::{DnsClass, DnsQueryType};
use crate::wire::{
    lemma_u16_round_trip, lemma_u32_round_trip, read_u16, read_u32, u16_bytes, u32_bytes,
};
use vstd::prelude::*;

verus! {

/// Where `x` followed by `y` stands at `pos`, `x` stands at `pos` and `y` behind it.
pub proof fn lemma_split(buf: Seq<u8>, pos: int, x: Seq<u8>, y: Seq<u8>)
    requires
        0 <= pos,
        pos + x.len() + y.len() <= buf.len(),
        buf.subrange(pos, pos + x.len() + y.len()) == x + y,
    ensures
        buf.subrange(pos, pos + x.len()) == x,
        buf.subrange(pos + x.len(), pos + x.len() + y.len()) == y,
{
    let whole = buf.subrange(pos, pos + x.len() + y.len());
    assert(buf.subrange(pos, pos + x.len()) =~= x) by {
        assert forall|k: int| 0 <= k < x.len() implies buf.subrange(pos, pos + x.len())[k]
            == x[k] by {
            assert(whole[k] == (x + y)[k]);
        }
    }
    assert(buf.subrange(pos + x.len(), pos + x.len() + y.len()) =~= y) by {
        assert forall|k: int| 0 <= k < y.len() implies buf.subrange(
            pos + x.len(),
            pos + x.len() + y.len(),
        )[k] == y[k] by {
            assert(whole[k + x.len()] == (x + y)[k + x.len()]);
        }
    }
}

/// A question that can be written reads back as itself, wherever it stands.
pub proof fn lemma_question_round_trip(buf: Seq<u8>, pos: int, q: QuestionModel)
    requires
        question_ok(q),
        0 <= pos,
        pos + encode_question(q).len() <= buf.len(),
        buf.subrange(pos, pos + encode_question(q).len()) == encode_question(q),
    ensures
        decode_question(buf, pos) == Ok::<(QuestionModel, int), DnsError>(
            (q, pos + encode_question(q).len()),
        ),
{
    let name = encode_name(q.name);
    let kind = u16_bytes(q.query_type.code());
    let class = u16_bytes(1);
    lemma_split(buf, pos, name + kind, class);
    lemma_split(buf, pos, name, kind);
    lemma_decode_encoded_name(buf, pos, q.name);
    lemma_u16_round_trip(buf, pos + name.len(), q.query_type.code());
}

/// Questions that can be written read back as themselves.
pub proof fn lemma_questions_round_trip(buf: Seq<u8>, pos: int, qs: Seq<QuestionModel>)
    requires
        questions_ok(qs),
        0 <= pos,
        pos + encode_questions(qs).len() <= buf.len(),
        buf.subrange(pos, pos + encode_questions(qs).len()) == encode_questions(qs),
    ensures
        decode_questions(buf, pos, qs.len()) == Ok::<(Seq<QuestionModel>, int), DnsError>(
            (qs, pos + encode_questions(qs).len()),
        ),
    decreases qs.len(),
{
    if qs.len() == 0 {
        assert(qs =~= Seq::<QuestionModel>::empty());
    } else {
        let first = qs[0];
        let rest = qs.drop_first();
        assert(question_ok(first));
        assert forall|i: int| 0 <= i < rest.len() implies question_ok(#[trigger] rest[i]) by {
            assert(rest[i] == qs[i + 1]);
        }
        lemma_split(buf, pos, encode_question(first), encode_questions(rest));
        lemma_question_round_trip(buf, pos, first);
        lemma_questions_round_trip(buf, pos + encode_question(first).len(), rest);
        assert(seq![first] + rest =~= qs);
    }
}

/// A payload that can be written reads back as itself from the octets it takes.
pub proof fn lemma_rdata_round_trip(buf: Seq<u8>, start: int, d: RecordDataModel)
    requires
        d.names_ok(),
        d.fits(),
        d.canonical(),
        0 <= start,
        start + d.encode().len() <= buf.len(),
        buf.subrange(start, start + d.encode().len()) == d.encode(),
    ensures
        decode_rdata(buf, d.record_type(), start, start + d.encode().len()) == Ok::<
            RecordDataModel,
            DnsError,
        >(d),
{
    match d {
        RecordDataModel::A(a) => {},
        RecordDataModel::AAAA(a) => {},
        RecordDataModel::CNAME(n) => {
            lemma_decode_encoded_name(buf, start, n);
        },
        RecordDataModel::NS(n) => {
            lemma_decode_encoded_name(buf, start, n);
        },
        RecordDataModel::MX { preference, exchange } => {
            lemma_split(buf, start, u16_bytes(preference), encode_name(exchange));
            lemma_u16_round_trip(buf, start, preference);
            lemma_decode_encoded_name(buf, start + 2, exchange);
        },
        RecordDataModel::Unknown { record_type, data } => {},
    }
}

/// A record that can be written reads back as itself, wherever it stands.
pub proof fn lemma_record_round_trip(buf: Seq<u8>, pos: int, r: RecordModel)
    requires
        record_ok(r),
        0 <= pos,
        pos + encode_record(r).len() <= buf.len(),
        buf.subrange(pos, pos + encode_record(r).len()) == encode_record(r),
    ensures
        decode_record(buf, pos) == Ok::<(RecordModel, int), DnsError>(
            (r, pos + encode_record(r).len()),
        ),
{
    let name = encode_name(r.name);
    let kind = u16_bytes(r.data.record_type().code());
    let class = u16_bytes(r.class.code());
    let ttl = u32_bytes(r.ttl);
    let payload = r.data.encode();
    let size = u16_bytes(payload.len() as u16);
    lemma_rdata_len(r.data);
    lemma_split(buf, pos, name + kind + class + ttl + size, payload);
    lemma_split(buf, pos, name + kind + class + ttl, size);
    lemma_split(buf, pos, name + kind + class, ttl);
    lemma_split(buf, pos, name + kind, class);
    lemma_split(buf, pos, name, kind);
    lemma_decode_encoded_name(buf, pos, r.name);
    let p = pos + name.len();
    lemma_u16_round_trip(buf, p, r.data.record_type().code());
    lemma_u16_round_trip(buf, p + 2, r.class.code());
    lemma_u32_round_trip(buf, p + 4, r.ttl);
    lemma_u16_round_trip(buf, p + 8, payload.len() as u16);
    lemma_rdata_round_trip(buf, p + 10, r.data);
    assert(DnsQueryType::of_code(r.data.record_type().code()) == r.data.record_type());
}

/// Records that can be written read back as themselves.
pub proof fn lemma_records_round_trip(buf: Seq<u8>, pos: int, rs: Seq<RecordModel>)
    requires
        records_ok(rs),
        0 <= pos,
        pos + encode_records(rs).len() <= buf.len(),
        buf.subrange(pos, pos + encode_records(rs).len()) == encode_records(rs),
    ensures
        decode_records(buf, pos, rs.len()) == Ok::<(Seq<RecordModel>, int), DnsError>(
            (rs, pos + encode_records(rs).len()),
        ),
    decreases rs.len(),
{
    if rs.len() == 0 {
        assert(rs =~= Seq::<RecordModel>::empty());
    } else {
        let first = rs[0];
        let rest = rs.drop_first();
        assert(record_ok(first));
        assert forall|i: int| 0 <= i < rest.len() implies record_ok(#[trigger] rest[i]) by {
            assert(rest[i] == rs[i + 1]);
        }
        lemma_split(buf, pos, encode_record(first), encode_records(rest));
        lemma_record_round_trip(buf, pos, first);
        lemma_records_round_trip(buf, pos + encode_record(first).len(), rest);
        assert(seq![first] + rest =~= rs);
    }
}

/// Where five parts and a tail are joined, each part stands behind the ones before it.
pub proof fn lemma_parts(h: Seq<u8>, q: Seq<u8>, a: Seq<u8>, n: Seq<u8>, x: Seq<u8>, tail: Seq<u8>)
    ensures
        ({
            let buf = h + q + a + n + x + tail;
            let p1 = h.len() as int;
            let p2 = p1 + q.len();
            let p3 = p2 + a.len();
            let p4 = p3 + n.len();
            let p5 = p4 + x.len();
            &&& buf.len() == p5 + tail.len()
            &&& buf.subrange(0, p1) == h
            &&& buf.subrange(p1, p2) == q
            &&& buf.subrange(p2, p3) == a
            &&& buf.subrange(p3, p4) == n
            &&& buf.subrange(p4, p5) == x
        }),
{
    let buf = h + q + a + n + x + tail;
    let p1 = h.len() as int;
    let p2 = p1 + q.len();
    let p3 = p2 + a.len();
    let p4 = p3 + n.len();
    let p5 = p4 + x.len();
    assert(buf.subrange(0, p1) =~= h);
    assert(buf.subrange(p1, p2) =~= q);
    assert(buf.subrange(p2, p3) =~= a);
    assert(buf.subrange(p3, p4) =~= n);
    assert(buf.subrange(p4, p5) =~= x);
}

/// A buffer whose header and four sections read well reads as the message
/// that they make up.
pub proof fn lemma_decode_message_steps(
    buf: Seq<u8>,
    questions: Seq<QuestionModel>,
    answers: Seq<RecordModel>,
    authorities: Seq<RecordModel>,
    additionals: Seq<RecordModel>,
    p1: int,
    p2: int,
    p3: int,
    p4: int,
)
    requires
        buf.len() >= 12,
        decode_questions(buf, 12, decode_header(buf).question_count as nat) == Ok::<
            (Seq<QuestionModel>, int),
            DnsError,
        >((questions, p1)),
        decode_records(buf, p1, decode_header(buf).answer_count as nat) == Ok::<
            (Seq<RecordModel>, int),
            DnsError,
        >((answers, p2)),
        decode_records(buf, p2, decode_header(buf).authority_count as nat) == Ok::<
            (Seq<RecordModel>, int),
            DnsError,
        >((authorities, p3)),
        decode_records(buf, p3, decode_header(buf).additional_count as nat) == Ok::<
            (Seq<RecordModel>, int),
            DnsError,
        >((additionals, p4)),
    ensures
        decode_message(buf) == Ok::<PacketModel, DnsError>(
            PacketModel { header: decode_header(buf), questions, answers, authorities, additionals },
        ),
{
}

/// Round trip, with octets behind the message: a valid message that is
/// written and followed by any octets reads back as itself, with the counts
/// of the header being the lengths of the sections.
pub proof fn lemma_round_trip_padded(m: PacketModel, tail: Seq<u8>)
    requires
        packet_ok(m),
    ensures
        decode_message(encode_message(m) + tail) == Ok::<PacketModel, DnsError>(counted(m)),
        counts_match(counted(m)),
{
    let head = counted_header(m);
    let h = encode_header(head);
    let q = encode_questions(m.questions);
    let a = encode_records(m.answers);
    let n = encode_records(m.authorities);
    let x = encode_records(m.additionals);
    let buf = encode_message(m) + tail;
    let p1 = 12 + q.len();
    let p2 = p1 + a.len();
    let p3 = p2 + n.len();
    let p4 = p3 + x.len();
    assert(h.len() == 12) by {
        crate::header::lemma_header_len(head);
    }
    lemma_parts(h, q, a, n, x, tail);
    assert(decode_header(buf) == head) by {
        lemma_header_round_trip(buf, head);
    }
    assert(decode_questions(buf, 12, m.questions.len()) == Ok::<
        (Seq<QuestionModel>, int),
        DnsError,
    >((m.questions, p1 as int))) by {
        lemma_questions_round_trip(buf, 12, m.questions);
    }
    assert(decode_records(buf, p1 as int, m.answers.len()) == Ok::<
        (Seq<RecordModel>, int),
        DnsError,
    >((m.answers, p2 as int))) by {
        lemma_records_round_trip(buf, p1 as int, m.answers);
    }
    assert(decode_records(buf, p2 as int, m.authorities.len()) == Ok::<
        (Seq<RecordModel>, int),
        DnsError,
    >((m.authorities, p3 as int))) by {
        lemma_records_round_trip(buf, p2 as int, m.authorities);
    }
    assert(decode_records(buf, p3 as int, m.additionals.len()) == Ok::<
        (Seq<RecordModel>, int),
        DnsError,
    >((m.additionals, p4 as int))) by {
        lemma_records_round_trip(buf, p3 as int, m.additionals);
    }
    lemma_decode_message_steps(
        buf,
        m.questions,
        m.answers,
        m.authorities,
        m.additionals,
        p1 as int,
        p2 as int,
        p3 as int,
        p4 as int,
    );
}

/// Round trip: a valid message that is written reads back as itself, with
/// the counts of the header being the lengths of the sections.
pub proof fn lemma_round_trip(m: PacketModel)
    requires
        packet_ok(m),
    ensures
        decode_message(encode_message(m)) == Ok::<PacketModel, DnsError>(counted(m)),
        counts_match(counted(m)),
{
    lemma_round_trip_padded(m, Seq::empty());
    assert(encode_message(m) + Seq::<u8>::empty() =~= encode_message(m));
}

/// Where fewer records than `count` stand at `pos` and the buffer ends
/// behind them, reading `count` records fails with `TruncatedMessage`.
pub proof fn lemma_records_missing(buf: Seq<u8>, pos: int, rs: Seq<RecordModel>, count: nat)
    requires
        records_ok(rs),
        rs.len() < count,
        0 <= pos,
        pos + encode_records(rs).len() == buf.len(),
        buf.subrange(pos, buf.len() as int) == encode_records(rs),
    ensures
        decode_records(buf, pos, count) == Err::<(Seq<RecordModel>, int), DnsError>(
            DnsError::TruncatedMessage,
        ),
    decreases rs.len(),
{
    if rs.len() == 0 {
        assert(decode_name(buf, pos) == Err::<(Seq<Seq<u8>>, int), DnsError>(
            DnsError::TruncatedMessage,
        ));
    } else {
        let first = rs[0];
        let rest = rs.drop_first();
        assert(record_ok(first));
        assert forall|i: int| 0 <= i < rest.len() implies record_ok(#[trigger] rest[i]) by {
            assert(rest[i] == rs[i + 1]);
        }
        lemma_split(buf, pos, encode_record(first), encode_records(rest));
        lemma_record_round_trip(buf, pos, first);
        lemma_records_missing(buf, pos + encode_record(first).len(), rest, (count - 1) as nat);
    }
}

/// Bounds safety: a buffer that holds a header, the questions that the
/// header counts, and fewer answer records than the header counts, and then
/// ends, reads as `TruncatedMessage`, whatever count up to 65535 the header
/// claims.
pub proof fn lemma_missing_answers_are_truncation(
    h: DnsHeader,
    qs: Seq<QuestionModel>,
    rs: Seq<RecordModel>,
)
    requires
        header_ok(h),
        questions_ok(qs),
        records_ok(rs),
        qs.len() == h.question_count,
        rs.len() < h.answer_count,
    ensures
        decode_message(encode_header(h) + encode_questions(qs) + encode_records(rs)) == Err::<
            PacketModel,
            DnsError,
        >(DnsError::TruncatedMessage),
{
    let e = encode_header(h);
    let q = encode_questions(qs);
    let a = encode_records(rs);
    let buf = e + q + a;
    let none = Seq::<u8>::empty();
    let p1 = 12 + q.len();
    assert(e.len() == 12) by {
        crate::header::lemma_header_len(h);
    }
    lemma_parts(e, q, a, none, none, none);
    assert(e + q + a + none + none + none =~= buf);
    assert(decode_header(buf) == h) by {
        lemma_header_round_trip(buf, h);
    }
    assert(decode_questions(buf, 12, qs.len()) == Ok::<(Seq<QuestionModel>, int), DnsError>(
        (qs, p1 as int),
    )) by {
        lemma_questions_round_trip(buf, 12, qs);
    }
    assert(decode_records(buf, p1 as int, h.answer_count as nat) == Err::<
        (Seq<RecordModel>, int),
        DnsError,
    >(DnsError::TruncatedMessage)) by {
        lemma_records_missing(buf, p1 as int, rs, h.answer_count as nat);
    }
}

/// Questions that were read are as many as were asked for, can be written,
/// and took at least five octets each inside the buffer.
pub proof fn lemma_decoded_questions_ok(buf: Seq<u8>, pos: int, count: nat)
    requires
        0 <= pos <= buf.len(),
        decode_questions(buf, pos, count) is Ok,
    ensures
        ({
            let (qs, end) = decode_questions(buf, pos, count)->Ok_0;
            &&& qs.len() == count
            &&& questions_ok(qs)
            &&& pos + 5 * count <= end <= buf.len()
        }),
    decreases count,
{
    if count > 0 {
        lemma_decoded_question_ok(buf, pos);
        let (q, next) = decode_question(buf, pos)->Ok_0;
        lemma_decoded_questions_ok(buf, next, (count - 1) as nat);
        let (rest, end) = decode_questions(buf, next, (count - 1) as nat)->Ok_0;
        let qs = seq![q] + rest;
        assert forall|i: int| 0 <= i < qs.len() implies question_ok(#[trigger] qs[i]) by {
            if i > 0 {
                assert(qs[i] == rest[i - 1]);
            }
        }
    }
}

/// Records that were read are as many as were asked for, can be written,
/// and took at least eleven octets each inside the buffer.
pub proof fn lemma_decoded_records_ok(buf: Seq<u8>, pos: int, count: nat)
    requires
        0 <= pos <= buf.len(),
        decode_records(buf, pos, count) is Ok,
    ensures
        ({
            let (rs, end) = decode_records(buf, pos, count)->Ok_0;
            &&& rs.len() == count
            &&& records_ok(rs)
            &&& pos + 11 * count <= end <= buf.len()
        }),
    decreases count,
{
    if count > 0 {
        lemma_decoded_record_ok(buf, pos);
        let (r, next) = decode_record(buf, pos)->Ok_0;
        lemma_decoded_records_ok(buf, next, (count - 1) as nat);
        let (rest, end) = decode_records(buf, next, (count - 1) as nat)->Ok_0;
        let rs = seq![r] + rest;
        assert forall|i: int| 0 <= i < rs.len() implies record_ok(#[trigger] rs[i]) by {
            if i > 0 {
                assert(rs[i] == rest[i - 1]);
            }
        }
    }
}

/// A message that was read is valid, its sections have the lengths that the
/// header counts, and the buffer holds at least twelve octets for the
/// header, five for each question and eleven for each record. So a buffer
/// shorter than its header's counts ask for is never read as a message.
pub proof fn lemma_decoded_message_ok(buf: Seq<u8>)
    requires
        decode_message(buf) is Ok,
    ensures
        packet_ok(decode_message(buf)->Ok_0),
        counts_match(decode_message(buf)->Ok_0),
        decode_message(buf)->Ok_0.header == decode_header(buf),
        12 + 5 * decode_header(buf).question_count + 11 * (decode_header(buf).answer_count
            + decode_header(buf).authority_count + decode_header(buf).additional_count)
            <= buf.len(),
{
    let h = decode_header(buf);
    lemma_decoded_questions_ok(buf, 12, h.question_count as nat);
    let p1 = decode_questions(buf, 12, h.question_count as nat)->Ok_0.1;
    lemma_decoded_records_ok(buf, p1, h.answer_count as nat);
    let p2 = decode_records(buf, p1, h.answer_count as nat)->Ok_0.1;
    lemma_decoded_records_ok(buf, p2, h.authority_count as nat);
    let p3 = decode_records(buf, p2, h.authority_count as nat)->Ok_0.1;
    lemma_decoded_records_ok(buf, p3, h.additional_count as nat);
}

/// A message that was read is written and read back as itself.
pub proof fn lemma_read_message_round_trip(buf: Seq<u8>)
    requires
        decode_message(buf) is Ok,
    ensures
        decode_message(encode_message(decode_message(buf)->Ok_0)) == decode_message(buf),
{
    let m = decode_message(buf)->Ok_0;
    lemma_decoded_message_ok(buf);
    lemma_round_trip(m);
    assert(counted_header(m) == m.header);
}

/// Where the end of the buffer cuts `x` followed by `y` that stand at `pos`:
/// a cut inside `x` leaves a part of `x`, a cut behind it leaves `x` and a
/// part of `y`.
pub proof fn lemma_cut(buf: Seq<u8>, pos: int, x: Seq<u8>, y: Seq<u8>)
    requires
        0 <= pos <= buf.len(),
        buf.len() - pos <= x.len() + y.len(),
        buf.subrange(pos, buf.len() as int) == (x + y).subrange(0, buf.len() - pos),
    ensures
        buf.len() - pos < x.len() ==> buf.subrange(pos, buf.len() as int) == x.subrange(
            0,
            buf.len() - pos,
        ),
        buf.len() - pos >= x.len() ==> buf.subrange(pos, pos + x.len()) == x && buf.subrange(
            pos + x.len(),
            buf.len() as int,
        ) == y.subrange(0, buf.len() - pos - x.len()),
{
    let k = buf.len() - pos;
    let part = buf.subrange(pos, buf.len() as int);
    if k < x.len() {
        assert(part =~= x.subrange(0, k));
    } else {
        assert(buf.subrange(pos, pos + x.len()) =~= x) by {
            assert forall|j: int| 0 <= j < x.len() implies buf.subrange(pos, pos + x.len())[j]
                == x[j] by {
                assert(part[j] == (x + y).subrange(0, k)[j]);
            }
        }
        assert(buf.subrange(pos + x.len(), buf.len() as int) =~= y.subrange(0, k - x.len())) by {
            assert forall|j: int| 0 <= j < k - x.len() implies buf.subrange(
                pos + x.len(),
                buf.len() as int,
            )[j] == y[j] by {
                assert(part[j + x.len()] == (x + y).subrange(0, k)[j + x.len()]);
            }
        }
    }
}

/// A question that was written and then cut short by the end of the buffer
/// reads as `TruncatedMessage`.
pub proof fn lemma_question_cut(buf: Seq<u8>, pos: int, q: QuestionModel)
    requires
        question_ok(q),
        0 <= pos <= buf.len(),
        buf.len() - pos < encode_question(q).len(),
        buf.subrange(pos, buf.len() as int) == encode_question(q).subrange(0, buf.len() - pos),
    ensures
        decode_question(buf, pos) == Err::<(QuestionModel, int), DnsError>(
            DnsError::TruncatedMessage,
        ),
{
    let name = encode_name(q.name);
    let rest = u16_bytes(q.query_type.code()) + u16_bytes(1);
    assert(encode_question(q) =~= name + rest);
    lemma_cut(buf, pos, name, rest);
    if buf.len() - pos < name.len() {
        lemma_decode_cut_name(buf, pos, q.name);
    } else {
        lemma_decode_encoded_name(buf, pos, q.name);
    }
}

/// Questions that were written and then cut short by the end of the buffer
/// read as `TruncatedMessage`.
pub proof fn lemma_questions_cut(buf: Seq<u8>, pos: int, qs: Seq<QuestionModel>)
    requires
        questions_ok(qs),
        0 <= pos <= buf.len(),
        buf.len() - pos < encode_questions(qs).len(),
        buf.subrange(pos, buf.len() as int) == encode_questions(qs).subrange(0, buf.len() - pos),
    ensures
        decode_questions(buf, pos, qs.len()) == Err::<(Seq<QuestionModel>, int), DnsError>(
            DnsError::TruncatedMessage,
        ),
    decreases qs.len(),
{
    if qs.len() > 0 {
        let first = qs[0];
        let rest = qs.drop_first();
        assert(question_ok(first));
        assert forall|i: int| 0 <= i < rest.len() implies question_ok(#[trigger] rest[i]) by {
            assert(rest[i] == qs[i + 1]);
        }
        lemma_cut(buf, pos, encode_question(first), encode_questions(rest));
        if buf.len() - pos < encode_question(first).len() {
            lemma_question_cut(buf, pos, first);
        } else {
            lemma_question_round_trip(buf, pos, first);
            lemma_questions_cut(buf, pos + encode_question(first).len(), rest);
        }
    }
}

/// A record that was written and then cut short by the end of the buffer
/// reads as `TruncatedMessage`.
pub proof fn lemma_record_cut(buf: Seq<u8>, pos: int, r: RecordModel)
    requires
        record_ok(r),
        0 <= pos <= buf.len(),
        buf.len() - pos < encode_record(r).len(),
        buf.subrange(pos, buf.len() as int) == encode_record(r).subrange(0, buf.len() - pos),
    ensures
        decode_record(buf, pos) == Err::<(RecordModel, int), DnsError>(DnsError::TruncatedMessage),
{
    let name = encode_name(r.name);
    let payload = r.data.encode();
    let fixed = u16_bytes(r.data.record_type().code()) + u16_bytes(r.class.code()) + u32_bytes(
        r.ttl,
    ) + u16_bytes(payload.len() as u16);
    lemma_rdata_len(r.data);
    assert(encode_record(r) =~= name + (fixed + payload));
    lemma_cut(buf, pos, name, fixed + payload);
    if buf.len() - pos < name.len() {
        lemma_decode_cut_name(buf, pos, r.name);
    } else {
        lemma_decode_encoded_name(buf, pos, r.name);
        let p = pos + name.len();
        lemma_cut(buf, p, fixed, payload);
        if buf.len() - p >= 10 {
            let size = u16_bytes(payload.len() as u16);
            let got = buf.subrange(p + 8, p + 10);
            assert(buf.subrange(p, p + 10)[8] == fixed[8]);
            assert(buf.subrange(p, p + 10)[9] == fixed[9]);
            assert(got[0] == size[0] && got[1] == size[1]);
            assert(got =~= size);
            lemma_u16_round_trip(buf, p + 8, payload.len() as u16);
        }
    }
}

/// Records that were written and then cut short by the end of the buffer
/// read as `TruncatedMessage`.
pub proof fn lemma_records_cut(buf: Seq<u8>, pos: int, rs: Seq<RecordModel>)
    requires
        records_ok(rs),
        0 <= pos <= buf.len(),
        buf.len() - pos < encode_records(rs).len(),
        buf.subrange(pos, buf.len() as int) == encode_records(rs).subrange(0, buf.len() - pos),
    ensures
        decode_records(buf, pos, rs.len()) == Err::<(Seq<RecordModel>, int), DnsError>(
            DnsError::TruncatedMessage,
        ),
    decreases rs.len(),
{
    if rs.len() > 0 {
        let first = rs[0];
        let rest = rs.drop_first();
        assert(record_ok(first));
        assert forall|i: int| 0 <= i < rest.len() implies record_ok(#[trigger] rest[i]) by {
            assert(rest[i] == rs[i + 1]);
        }
        lemma_cut(buf, pos, encode_record(first), encode_records(rest));
        if buf.len() - pos < encode_record(first).len() {
            lemma_record_cut(buf, pos, first);
        } else {
            lemma_record_round_trip(buf, pos, first);
            lemma_records_cut(buf, pos + encode_record(first).len(), rest);
        }
    }
}

/// A section of records that stands at `pos` whole reads as itself; one that
/// the end of the buffer cuts short reads as `TruncatedMessage`.
pub proof fn lemma_records_whole_or_cut(buf: Seq<u8>, pos: int, rs: Seq<RecordModel>, rest: Seq<u8>)
    requires
        records_ok(rs),
        0 <= pos <= buf.len(),
        buf.len() - pos <= encode_records(rs).len() + rest.len(),
        buf.subrange(pos, buf.len() as int) == (encode_records(rs) + rest).subrange(
            0,
            buf.len() - pos,
        ),
    ensures
        buf.len() - pos < encode_records(rs).len() ==> decode_records(buf, pos, rs.len()) == Err::<
            (Seq<RecordModel>, int),
            DnsError,
        >(DnsError::TruncatedMessage),
        buf.len() - pos >= encode_records(rs).len() ==> decode_records(buf, pos, rs.len()) == Ok::<
            (Seq<RecordModel>, int),
            DnsError,
        >((rs, pos + encode_records(rs).len())) && buf.subrange(
            pos + encode_records(rs).len(),
            buf.len() as int,
        ) == rest.subrange(0, buf.len() - pos - encode_records(rs).len()),
{
    lemma_cut(buf, pos, encode_records(rs), rest);
    if buf.len() - pos < encode_records(rs).len() {
        lemma_records_cut(buf, pos, rs);
    } else {
        lemma_records_round_trip(buf, pos, rs);
    }
}

/// Truncation is detected: a valid message that was written and of which
/// only the first `n` octets are there, for any `n` below its length, reads
/// as `TruncatedMessage`.
pub proof fn lemma_cut_message_is_truncation(m: PacketModel, n: int)
    requires
        packet_ok(m),
        0 <= n < encode_message(m).len(),
    ensures
        decode_message(encode_message(m).subrange(0, n)) == Err::<PacketModel, DnsError>(
            DnsError::TruncatedMessage,
        ),
{
    let head = counted_header(m);
    let h = encode_header(head);
    let q = encode_questions(m.questions);
    let a = encode_records(m.answers);
    let s = encode_records(m.authorities);
    let x = encode_records(m.additionals);
    let buf = encode_message(m).subrange(0, n);
    let none = Seq::<u8>::empty();
    assert(h.len() == 12) by {
        crate::header::lemma_header_len(head);
    }
    if n >= 12 {
        assert(encode_message(m) =~= h + (q + (a + (s + (x + none)))));
        assert(buf.subrange(0, n) =~= buf);
        lemma_cut(buf, 0, h, q + (a + (s + (x + none))));
        assert(decode_header(buf) == head) by {
            lemma_header_round_trip(buf, head);
        }
        lemma_cut(buf, 12, q, a + (s + (x + none)));
        if n - 12 < q.len() {
            assert(decode_questions(buf, 12, m.questions.len()) == Err::<
                (Seq<QuestionModel>, int),
                DnsError,
            >(DnsError::TruncatedMessage)) by {
                lemma_questions_cut(buf, 12, m.questions);
            }
        } else {
            let p1 = 12 + q.len();
            assert(decode_questions(buf, 12, m.questions.len()) == Ok::<
                (Seq<QuestionModel>, int),
                DnsError,
            >((m.questions, p1 as int))) by {
                lemma_questions_round_trip(buf, 12, m.questions);
            }
            lemma_records_whole_or_cut(buf, p1 as int, m.answers, s + (x + none));
            if n - p1 >= a.len() {
                let p2 = p1 + a.len();
                lemma_records_whole_or_cut(buf, p2 as int, m.authorities, x + none);
                if n - p2 >= s.len() {
                    let p3 = p2 + s.len();
                    lemma_records_whole_or_cut(buf, p3 as int, m.additionals, none);
                }
            }
        }
    }
}

} // verus!
