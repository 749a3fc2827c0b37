//! The fixed twelve-octet header of a message.

use crate::types::DnsResponseCode;
use crate::wire::{get_u16, put_u16, read_u16, u16_bytes};
use vstd::prelude::*;

verus! {

/// The number of octets of a header on the wire.
pub const HEADER_LEN: usize = 12;

/// The header of a message. The four counts are written from the lengths of
/// the sections when a message is encoded, and hold what the wire said after
/// a message was decoded.
#[derive(Clone, Copy, Debug, PartialEq, Eq, Structural)]
pub struct DnsHeader {
    pub id: u16,
    pub query_response: bool,
    pub opcode: u8,
    pub authoritative_answer: bool,
    pub truncation: bool,
    pub recurse_desired: bool,
    pub recurse_available: bool,
    pub authenticated_data: bool,
    pub checking_disabled: bool,
    pub response_code: DnsResponseCode,
    pub question_count: u16,
    pub answer_count: u16,
    pub authority_count: u16,
    pub additional_count: u16,
}

/// One for a flag that is set, zero for one that is not.
pub open spec fn bit(flag: bool) -> int {
    if flag {
        1
    } else {
        0
    }
}

/// The first octet of the flags: query/response, the opcode's four bits,
/// authoritative answer, truncation, recursion desired.
pub open spec fn flags_high(h: DnsHeader) -> u8 {
    (bit(h.query_response) * 128 + (h.opcode % 16) * 8 + bit(h.authoritative_answer) * 4 + bit(
        h.truncation,
    ) * 2 + bit(h.recurse_desired)) as u8
}

/// The second octet of the flags: recursion available, a zero bit,
/// authenticated data, checking disabled, and the response code's four bits.
pub open spec fn flags_low(h: DnsHeader) -> u8 {
    (bit(h.recurse_available) * 128 + bit(h.authenticated_data) * 32 + bit(h.checking_disabled)
        * 16 + h.response_code.code()) as u8
}

/// The header on the wire.
pub open spec fn encode_header(h: DnsHeader) -> Seq<u8> {
    u16_bytes(h.id) + seq![flags_high(h), flags_low(h)] + u16_bytes(h.question_count) + u16_bytes(
        h.answer_count,
    ) + u16_bytes(h.authority_count) + u16_bytes(h.additional_count)
}

/// The header that the first twelve octets of `buf` hold.
pub open spec fn decode_header(buf: Seq<u8>) -> DnsHeader {
    DnsHeader {
        id: read_u16(buf, 0),
        query_response: buf[2] >= 128,
        opcode: (buf[2] / 8) % 16,
        authoritative_answer: (buf[2] / 4) % 2 == 1,
        truncation: (buf[2] / 2) % 2 == 1,
        recurse_desired: buf[2] % 2 == 1,
        recurse_available: buf[3] >= 128,
        authenticated_data: (buf[3] / 32) % 2 == 1,
        checking_disabled: (buf[3] / 16) % 2 == 1,
        response_code: DnsResponseCode::of_code(buf[3] % 16),
        question_count: read_u16(buf, 4),
        answer_count: read_u16(buf, 6),
        authority_count: read_u16(buf, 8),
        additional_count: read_u16(buf, 10),
    }
}

/// The opcode fits in its four bits.
pub open spec fn header_ok(h: DnsHeader) -> bool {
    h.opcode < 16
}

/// A header takes twelve octets.
pub proof fn lemma_header_len(h: DnsHeader)
    ensures
        encode_header(h).len() == 12,
{
}

/// A header that stands at the start of a buffer reads back as itself.
pub proof fn lemma_header_round_trip(buf: Seq<u8>, h: DnsHeader)
    requires
        header_ok(h),
        buf.len() >= 12,
        buf.subrange(0, 12) == encode_header(h),
    ensures
        decode_header(buf) == h,
{
    let e = encode_header(h);
    let s = buf.subrange(0, 12);
    assert forall|k: int| 0 <= k < 12 implies buf[k] == e[k] by {
        assert(s[k] == buf[k]);
    }
    assert(e[0] == (h.id / 256) as u8 && e[1] == (h.id % 256) as u8);
    assert(e[2] == flags_high(h) && e[3] == flags_low(h));
    assert(e[4] == (h.question_count / 256) as u8 && e[5] == (h.question_count % 256) as u8);
    assert(e[6] == (h.answer_count / 256) as u8 && e[7] == (h.answer_count % 256) as u8);
    assert(e[8] == (h.authority_count / 256) as u8 && e[9] == (h.authority_count % 256) as u8);
    assert(e[10] == (h.additional_count / 256) as u8 && e[11] == (h.additional_count % 256) as u8);
    let d = decode_header(buf);
    assert(d.id == h.id);
    assert(d.query_response == h.query_response);
    assert(d.opcode == h.opcode);
    assert(d.authoritative_answer == h.authoritative_answer);
    assert(d.truncation == h.truncation);
    assert(d.recurse_desired == h.recurse_desired);
    assert(d.recurse_available == h.recurse_available);
    assert(d.authenticated_data == h.authenticated_data);
    assert(d.checking_disabled == h.checking_disabled);
    assert(d.response_code == h.response_code);
}

impl DnsHeader {
    /// A header with the id zero, no flag set, opcode zero, `NOERROR` and
    /// empty sections.
    pub fn new() -> (h: DnsHeader)
        ensures
            h == Self::blank(),
    {
        DnsHeader {
            id: 0,
            query_response: false,
            opcode: 0,
            authoritative_answer: false,
            truncation: false,
            recurse_desired: false,
            recurse_available: false,
            authenticated_data: false,
            checking_disabled: false,
            response_code: DnsResponseCode::NOERROR,
            question_count: 0,
            answer_count: 0,
            authority_count: 0,
            additional_count: 0,
        }
    }

    /// The header that `new` returns.
    pub open spec fn blank() -> DnsHeader {
        DnsHeader {
            id: 0,
            query_response: false,
            opcode: 0,
            authoritative_answer: false,
            truncation: false,
            recurse_desired: false,
            recurse_available: false,
            authenticated_data: false,
            checking_disabled: false,
            response_code: DnsResponseCode::NOERROR,
            question_count: 0,
            answer_count: 0,
            authority_count: 0,
            additional_count: 0,
        }
    }

    /// Appends the twelve octets of the header.
    pub fn write_to(&self, out: &mut Vec<u8>)
        ensures
            final(out)@ == old(out)@ + encode_header(*self),
    {
        put_u16(out, self.id);
        let qr: u8 = if self.query_response { 128 } else { 0 };
        let aa: u8 = if self.authoritative_answer { 4 } else { 0 };
        let tc: u8 = if self.truncation { 2 } else { 0 };
        let rd: u8 = if self.recurse_desired { 1 } else { 0 };
        let high: u8 = qr + (self.opcode % 16) * 8 + aa + tc + rd;
        let ra: u8 = if self.recurse_available { 128 } else { 0 };
        let ad: u8 = if self.authenticated_data { 32 } else { 0 };
        let cd: u8 = if self.checking_disabled { 16 } else { 0 };
        let low: u8 = ra + ad + cd + self.response_code.to_num();
        out.push(high);
        out.push(low);
        put_u16(out, self.question_count);
        put_u16(out, self.answer_count);
        put_u16(out, self.authority_count);
        put_u16(out, self.additional_count);
        assert(out@ =~= old(out)@ + encode_header(*self));
    }

    /// Reads the header from the first twelve octets of `buf`.
    pub fn read(buf: &[u8]) -> (h: DnsHeader)
        requires
            buf.len() >= 12,
        ensures
            h == decode_header(buf@),
            header_ok(h),
    {
        let high = buf[2];
        let low = buf[3];
        DnsHeader {
            id: get_u16(buf, 0),
            query_response: high >= 128,
            opcode: (high / 8) % 16,
            authoritative_answer: (high / 4) % 2 == 1,
            truncation: (high / 2) % 2 == 1,
            recurse_desired: high % 2 == 1,
            recurse_available: low >= 128,
            authenticated_data: (low / 32) % 2 == 1,
            checking_disabled: (low / 16) % 2 == 1,
            response_code: DnsResponseCode::from_num(low % 16),
            question_count: get_u16(buf, 4),
            answer_count: get_u16(buf, 6),
            authority_count: get_u16(buf, 8),
            additional_count: get_u16(buf, 10),
        }
    }
}

} // verus!
