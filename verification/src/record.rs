//! Resource records: a name, a class, a time to live and a payload whose
//! shape the record's type fixes.

use crate::error::DnsError;
use crate::name::{decode_name, encode_name, name_ok, prepend, DnsName};
use crate::name_laws::lemma_decoded_name_ok;
use crate::types::{DnsClass, DnsQueryType};
use crate::wire::{
    copy_range, get_u16, get_u32, put_bytes, put_u16, put_u32, read_u16, read_u32, u16_bytes,
    u32_bytes,
};
use vstd::prelude::*;

verus! {

/// The payload of a record.
#[derive(Debug, PartialEq, Eq)]
pub enum RecordData {
    /// An IPv4 address.
    A([u8; 4]),
    /// An IPv6 address.
    AAAA([u8; 16]),
    /// The canonical name of an alias.
    CNAME(DnsName),
    /// The name of a name server.
    NS(DnsName),
    /// A mail exchange and its preference.
    MX { preference: u16, exchange: DnsName },
    /// The octets of a record of any other type.
    Unknown { record_type: DnsQueryType, data: Vec<u8> },
}

/// A payload over sequences of octets.
pub enum RecordDataModel {
    A(Seq<u8>),
    AAAA(Seq<u8>),
    CNAME(Seq<Seq<u8>>),
    NS(Seq<Seq<u8>>),
    MX { preference: u16, exchange: Seq<Seq<u8>> },
    Unknown { record_type: DnsQueryType, data: Seq<u8> },
}

impl View for RecordData {
    type V = RecordDataModel;

    open spec fn view(&self) -> RecordDataModel {
        match self {
            RecordData::A(a) => RecordDataModel::A(a@),
            RecordData::AAAA(a) => RecordDataModel::AAAA(a@),
            RecordData::CNAME(n) => RecordDataModel::CNAME(n@),
            RecordData::NS(n) => RecordDataModel::NS(n@),
            RecordData::MX { preference, exchange } => RecordDataModel::MX {
                preference: *preference,
                exchange: exchange@,
            },
            RecordData::Unknown { record_type, data } => RecordDataModel::Unknown {
                record_type: *record_type,
                data: data@,
            },
        }
    }
}

/// Whether a type has a payload variant of its own.
pub open spec fn is_typed(t: DnsQueryType) -> bool {
    t.code() == 1 || t.code() == 2 || t.code() == 5 || t.code() == 15 || t.code() == 28
}

impl RecordDataModel {
    /// The type of the record that carries this payload.
    pub open spec fn record_type(self) -> DnsQueryType {
        match self {
            RecordDataModel::A(_) => DnsQueryType::A,
            RecordDataModel::AAAA(_) => DnsQueryType::AAAA,
            RecordDataModel::CNAME(_) => DnsQueryType::CNAME,
            RecordDataModel::NS(_) => DnsQueryType::NS,
            RecordDataModel::MX { .. } => DnsQueryType::MX,
            RecordDataModel::Unknown { record_type, .. } => record_type,
        }
    }

    /// The payload on the wire. Names in it are written uncompressed.
    pub open spec fn encode(self) -> Seq<u8> {
        match self {
            RecordDataModel::A(a) => a,
            RecordDataModel::AAAA(a) => a,
            RecordDataModel::CNAME(n) => encode_name(n),
            RecordDataModel::NS(n) => encode_name(n),
            RecordDataModel::MX { preference, exchange } => u16_bytes(preference) + encode_name(
                exchange,
            ),
            RecordDataModel::Unknown { data, .. } => data,
        }
    }

    /// The names in the payload can be written.
    pub open spec fn names_ok(self) -> bool {
        match self {
            RecordDataModel::CNAME(n) => name_ok(n),
            RecordDataModel::NS(n) => name_ok(n),
            RecordDataModel::MX { exchange, .. } => name_ok(exchange),
            _ => true,
        }
    }

    /// The payload has the size of its type, and a length that fits in 16 bits.
    pub open spec fn fits(self) -> bool {
        match self {
            RecordDataModel::A(a) => a.len() == 4,
            RecordDataModel::AAAA(a) => a.len() == 16,
            RecordDataModel::Unknown { data, .. } => data.len() <= 0xFFFF,
            _ => true,
        }
    }

    /// The payload is held by the variant of its type: `Unknown` holds a
    /// type without a variant of its own.
    pub open spec fn canonical(self) -> bool {
        match self {
            RecordDataModel::Unknown { record_type, .. } => record_type.canonical() && !is_typed(
                record_type,
            ),
            _ => true,
        }
    }
}

/// A resource record.
#[derive(Debug, PartialEq, Eq)]
pub struct DnsRecord {
    pub name: DnsName,
    pub class: DnsClass,
    pub ttl: u32,
    pub data: RecordData,
}

/// A record over sequences of octets.
pub struct RecordModel {
    pub name: Seq<Seq<u8>>,
    pub class: DnsClass,
    pub ttl: u32,
    pub data: RecordDataModel,
}

impl View for DnsRecord {
    type V = RecordModel;

    open spec fn view(&self) -> RecordModel {
        RecordModel { name: self.name@, class: self.class, ttl: self.ttl, data: self.data@ }
    }
}

/// The records of a section, each as its model.
pub open spec fn records_view(rs: Seq<DnsRecord>) -> Seq<RecordModel> {
    Seq::new(rs.len(), |i: int| rs[i]@)
}

/// The names of the record can be written.
pub open spec fn record_names_ok(r: RecordModel) -> bool {
    name_ok(r.name) && r.data.names_ok()
}

/// The payload of the record has a size that can be written.
pub open spec fn record_fits(r: RecordModel) -> bool {
    r.data.fits()
}

/// The record can be written and reads back as itself.
pub open spec fn record_ok(r: RecordModel) -> bool {
    &&& record_names_ok(r)
    &&& record_fits(r)
    &&& r.class.canonical()
    &&& r.data.canonical()
}

/// A record on the wire: the name, the numbers of type and class, the time
/// to live, the length of the payload and the payload.
pub open spec fn encode_record(r: RecordModel) -> Seq<u8> {
    encode_name(r.name) + u16_bytes(r.data.record_type().code()) + u16_bytes(r.class.code())
        + u32_bytes(r.ttl) + u16_bytes(r.data.encode().len() as u16) + r.data.encode()
}

/// The payload of type `record_type` that the octets from `start` up to
/// `end` hold. A payload that does not hold all that its type asks for gives
/// `TruncatedMessage`; octets behind what the type asks for are read over.
pub open spec fn decode_rdata(buf: Seq<u8>, record_type: DnsQueryType, start: int, end: int) -> Result<
    RecordDataModel,
    DnsError,
> {
    match record_type {
        DnsQueryType::A => if end - start < 4 {
            Err(DnsError::TruncatedMessage)
        } else {
            Ok(RecordDataModel::A(buf.subrange(start, start + 4)))
        },
        DnsQueryType::AAAA => if end - start < 16 {
            Err(DnsError::TruncatedMessage)
        } else {
            Ok(RecordDataModel::AAAA(buf.subrange(start, start + 16)))
        },
        DnsQueryType::CNAME => match decode_name(buf, start) {
            Err(e) => Err(e),
            Ok((n, stop)) => if stop > end {
                Err(DnsError::TruncatedMessage)
            } else {
                Ok(RecordDataModel::CNAME(n))
            },
        },
        DnsQueryType::NS => match decode_name(buf, start) {
            Err(e) => Err(e),
            Ok((n, stop)) => if stop > end {
                Err(DnsError::TruncatedMessage)
            } else {
                Ok(RecordDataModel::NS(n))
            },
        },
        DnsQueryType::MX => if end - start < 2 {
            Err(DnsError::TruncatedMessage)
        } else {
            match decode_name(buf, start + 2) {
                Err(e) => Err(e),
                Ok((n, stop)) => if stop > end {
                    Err(DnsError::TruncatedMessage)
                } else {
                    Ok(RecordDataModel::MX { preference: read_u16(buf, start), exchange: n })
                },
            }
        },
        _ => Ok(RecordDataModel::Unknown { record_type, data: buf.subrange(start, end) }),
    }
}

/// The record that starts at `pos`, and the offset behind its payload.
pub open spec fn decode_record(buf: Seq<u8>, pos: int) -> Result<(RecordModel, int), DnsError> {
    match decode_name(buf, pos) {
        Err(e) => Err(e),
        Ok((name, p)) => if p + 10 > buf.len() {
            Err(DnsError::TruncatedMessage)
        } else if p + 10 + read_u16(buf, p + 8) > buf.len() {
            Err(DnsError::TruncatedMessage)
        } else {
            match decode_rdata(
                buf,
                DnsQueryType::of_code(read_u16(buf, p)),
                p + 10,
                p + 10 + read_u16(buf, p + 8),
            ) {
                Err(e) => Err(e),
                Ok(data) => Ok(
                    (
                        RecordModel {
                            name,
                            class: DnsClass::of_code(read_u16(buf, p + 2)),
                            ttl: read_u32(buf, p + 4),
                            data,
                        },
                        p + 10 + read_u16(buf, p + 8),
                    ),
                ),
            }
        },
    }
}

/// The records on the wire, one after the other.
pub open spec fn encode_records(rs: Seq<RecordModel>) -> Seq<u8>
    decreases rs.len(),
{
    if rs.len() == 0 {
        Seq::empty()
    } else {
        encode_record(rs[0]) + encode_records(rs.drop_first())
    }
}

/// The `count` records that start at `pos`, and the offset behind the last.
pub open spec fn decode_records(buf: Seq<u8>, pos: int, count: nat) -> Result<
    (Seq<RecordModel>, int),
    DnsError,
>
    decreases count,
{
    if count == 0 {
        Ok((Seq::empty(), pos))
    } else {
        match decode_record(buf, pos) {
            Err(e) => Err(e),
            Ok((r, next)) => prepend(seq![r], decode_records(buf, next, (count - 1) as nat)),
        }
    }
}

/// What reading a payload returns, over the model.
pub open spec fn rdata_result_view(r: Result<RecordData, DnsError>) -> Result<
    RecordDataModel,
    DnsError,
> {
    match r {
        Ok(d) => Ok(d@),
        Err(e) => Err(e),
    }
}

/// What reading a record returns, over the model.
pub open spec fn record_result_view(r: Result<(DnsRecord, usize), DnsError>) -> Result<
    (RecordModel, int),
    DnsError,
> {
    match r {
        Ok((rec, end)) => Ok((rec@, end as int)),
        Err(e) => Err(e),
    }
}

/// Every payload read can be written and is held by the variant of its type.
pub proof fn lemma_decoded_rdata_ok(buf: Seq<u8>, record_type: DnsQueryType, start: int, end: int)
    requires
        0 <= start <= end <= buf.len(),
        end - start <= 0xFFFF,
        record_type.canonical(),
        decode_rdata(buf, record_type, start, end) is Ok,
    ensures
        ({
            let d = decode_rdata(buf, record_type, start, end)->Ok_0;
            &&& d.names_ok()
            &&& d.fits()
            &&& d.canonical()
            &&& d.record_type() == record_type
        }),
{
    match record_type {
        DnsQueryType::CNAME => {
            lemma_decoded_name_ok(buf, start);
        },
        DnsQueryType::NS => {
            lemma_decoded_name_ok(buf, start);
        },
        DnsQueryType::MX => {
            lemma_decoded_name_ok(buf, start + 2);
        },
        _ => {},
    }
}

/// Every record read can be written and reads back as itself, takes at least
/// eleven octets and ends inside the buffer.
pub proof fn lemma_decoded_record_ok(buf: Seq<u8>, pos: int)
    requires
        decode_record(buf, pos) is Ok,
    ensures
        record_ok(decode_record(buf, pos)->Ok_0.0),
        pos + 11 <= decode_record(buf, pos)->Ok_0.1 <= buf.len(),
{
    lemma_decoded_name_ok(buf, pos);
    let p = decode_name(buf, pos)->Ok_0.1;
    lemma_decoded_rdata_ok(
        buf,
        DnsQueryType::of_code(read_u16(buf, p)),
        p + 10,
        p + 10 + read_u16(buf, p + 8),
    );
}

impl Clone for RecordData {
    /// A copy of the payload.
    fn clone(&self) -> (r: RecordData)
        ensures
            r@ == self@,
    {
        match self {
            RecordData::A(a) => RecordData::A(*a),
            RecordData::AAAA(a) => RecordData::AAAA(*a),
            RecordData::CNAME(n) => RecordData::CNAME(n.clone()),
            RecordData::NS(n) => RecordData::NS(n.clone()),
            RecordData::MX { preference, exchange } => RecordData::MX {
                preference: *preference,
                exchange: exchange.clone(),
            },
            RecordData::Unknown { record_type, data } => {
                let copy = copy_range(data.as_slice(), 0, data.len());
                assert(copy@ =~= data@);
                RecordData::Unknown { record_type: *record_type, data: copy }
            },
        }
    }
}

impl RecordData {
    /// The type of the record that carries this payload.
    pub fn record_type(&self) -> (t: DnsQueryType)
        ensures
            t == self@.record_type(),
    {
        match self {
            RecordData::A(_) => DnsQueryType::A,
            RecordData::AAAA(_) => DnsQueryType::AAAA,
            RecordData::CNAME(_) => DnsQueryType::CNAME,
            RecordData::NS(_) => DnsQueryType::NS,
            RecordData::MX { .. } => DnsQueryType::MX,
            RecordData::Unknown { record_type, .. } => *record_type,
        }
    }

    /// Whether the names in the payload can be written.
    pub fn names_valid(&self) -> (ok: bool)
        ensures
            ok == self@.names_ok(),
    {
        match self {
            RecordData::CNAME(n) => n.is_valid(),
            RecordData::NS(n) => n.is_valid(),
            RecordData::MX { exchange, .. } => exchange.is_valid(),
            _ => true,
        }
    }

    /// Whether the payload has a length that fits in 16 bits.
    pub fn fits_wire(&self) -> (ok: bool)
        ensures
            ok == self@.fits(),
    {
        match self {
            RecordData::Unknown { data, .. } => data.len() <= 0xFFFF,
            _ => true,
        }
    }

    /// Appends the payload as it stands on the wire.
    pub fn write_to(&self, out: &mut Vec<u8>)
        requires
            self@.names_ok(),
        ensures
            final(out)@ == old(out)@ + self@.encode(),
    {
        match self {
            RecordData::A(a) => {
                put_bytes(out, a.as_slice());
            },
            RecordData::AAAA(a) => {
                put_bytes(out, a.as_slice());
            },
            RecordData::CNAME(n) => {
                n.write_to(out);
            },
            RecordData::NS(n) => {
                n.write_to(out);
            },
            RecordData::MX { preference, exchange } => {
                put_u16(out, *preference);
                exchange.write_to(out);
                assert(out@ =~= old(out)@ + self@.encode());
            },
            RecordData::Unknown { data, .. } => {
                put_bytes(out, data.as_slice());
            },
        }
    }

    /// Reads the payload of a record of type `record_type` from the octets
    /// from `start` up to `end`.
    pub fn read(buf: &[u8], record_type: DnsQueryType, start: usize, end: usize) -> (r: Result<
        RecordData,
        DnsError,
    >)
        requires
            start <= end <= buf.len(),
        ensures
            rdata_result_view(r) == decode_rdata(buf@, record_type, start as int, end as int),
    {
        match record_type {
            DnsQueryType::A => {
                if end - start < 4 {
                    return Err(DnsError::TruncatedMessage);
                }
                let a: [u8; 4] = [buf[start], buf[start + 1], buf[start + 2], buf[start + 3]];
                assert(a@ =~= buf@.subrange(start as int, start + 4));
                Ok(RecordData::A(a))
            },
            DnsQueryType::AAAA => {
                if end - start < 16 {
                    return Err(DnsError::TruncatedMessage);
                }
                let mut a: [u8; 16] = [0u8; 16];
                let mut i: usize = 0;
                while i < 16
                    invariant
                        i <= 16,
                        start + 16 <= buf.len(),
                        forall|k: int| 0 <= k < i ==> a@[k] == buf@[start + k],
                    decreases 16 - i,
                {
                    a[i] = buf[start + i];
                    i = i + 1;
                }
                assert(a@ =~= buf@.subrange(start as int, start + 16));
                Ok(RecordData::AAAA(a))
            },
            DnsQueryType::CNAME => match DnsName::decode(buf, start) {
                Err(e) => Err(e),
                Ok((n, stop)) => if stop > end {
                    Err(DnsError::TruncatedMessage)
                } else {
                    Ok(RecordData::CNAME(n))
                },
            },
            DnsQueryType::NS => match DnsName::decode(buf, start) {
                Err(e) => Err(e),
                Ok((n, stop)) => if stop > end {
                    Err(DnsError::TruncatedMessage)
                } else {
                    Ok(RecordData::NS(n))
                },
            },
            DnsQueryType::MX => {
                if end - start < 2 {
                    return Err(DnsError::TruncatedMessage);
                }
                let preference = get_u16(buf, start);
                match DnsName::decode(buf, start + 2) {
                    Err(e) => Err(e),
                    Ok((n, stop)) => if stop > end {
                        Err(DnsError::TruncatedMessage)
                    } else {
                        Ok(RecordData::MX { preference, exchange: n })
                    },
                }
            },
            _ => Ok(RecordData::Unknown { record_type, data: copy_range(buf, start, end) }),
        }
    }
}

impl Clone for DnsRecord {
    /// A copy of the record.
    fn clone(&self) -> (r: DnsRecord)
        ensures
            r@ == self@,
    {
        DnsRecord {
            name: self.name.clone(),
            class: self.class,
            ttl: self.ttl,
            data: self.data.clone(),
        }
    }
}

impl DnsRecord {
    /// A record of class IN.
    pub fn new(name: DnsName, ttl: u32, data: RecordData) -> (r: DnsRecord)
        ensures
            r.name == name,
            r.class == DnsClass::IN,
            r.ttl == ttl,
            r.data == data,
    {
        DnsRecord { name, class: DnsClass::IN, ttl, data }
    }

    /// The type of the record.
    pub fn record_type(&self) -> (t: DnsQueryType)
        ensures
            t == self@.data.record_type(),
    {
        self.data.record_type()
    }

    /// Whether the names of the record can be written.
    pub fn names_valid(&self) -> (ok: bool)
        ensures
            ok == record_names_ok(self@),
    {
        self.name.is_valid() && self.data.names_valid()
    }

    /// Whether the payload has a length that fits in 16 bits.
    pub fn fits_wire(&self) -> (ok: bool)
        ensures
            ok == record_fits(self@),
    {
        self.data.fits_wire()
    }

    /// Appends the record as it stands on the wire.
    pub fn write_to(&self, out: &mut Vec<u8>)
        requires
            record_names_ok(self@),
            record_fits(self@),
        ensures
            final(out)@ == old(out)@ + encode_record(self@),
    {
        let mut payload: Vec<u8> = Vec::new();
        self.data.write_to(&mut payload);
        assert(payload@ =~= self@.data.encode());
        proof {
            lemma_rdata_len(self@.data);
        }
        self.name.write_to(out);
        put_u16(out, self.data.record_type().to_num());
        put_u16(out, self.class.to_num());
        put_u32(out, self.ttl);
        put_u16(out, payload.len() as u16);
        put_bytes(out, payload.as_slice());
        assert(out@ =~= old(out)@ + encode_record(self@));
    }

    /// Reads the record that starts at `pos` and returns it with the offset
    /// behind its payload.
    pub fn read(buf: &[u8], pos: usize) -> (r: Result<(DnsRecord, usize), DnsError>)
        ensures
            record_result_view(r) == decode_record(buf@, pos as int),
            r matches Ok((rec, end)) ==> record_ok(rec@) && pos + 11 <= end <= buf.len(),
    {
        match DnsName::decode(buf, pos) {
            Err(e) => Err(e),
            Ok((name, p)) => {
                proof {
                    lemma_decoded_name_ok(buf@, pos as int);
                }
                if buf.len() - p < 10 {
                    return Err(DnsError::TruncatedMessage);
                }
                let record_type = DnsQueryType::from_num(get_u16(buf, p));
                let class = DnsClass::from_num(get_u16(buf, p + 2));
                let ttl = get_u32(buf, p + 4);
                let len = get_u16(buf, p + 8) as usize;
                let start = p + 10;
                if buf.len() - start < len {
                    return Err(DnsError::TruncatedMessage);
                }
                let end = start + len;
                match RecordData::read(buf, record_type, start, end) {
                    Err(e) => Err(e),
                    Ok(data) => {
                        proof {
                            lemma_decoded_record_ok(buf@, pos as int);
                        }
                        Ok((DnsRecord { name, class, ttl, data }, end))
                    },
                }
            },
        }
    }
}

/// A payload that can be written takes at most 65535 octets.
pub proof fn lemma_rdata_len(d: RecordDataModel)
    requires
        d.names_ok(),
        d.fits(),
    ensures
        d.encode().len() <= 0xFFFF,
{
    match d {
        RecordDataModel::CNAME(n) => {
            crate::name::lemma_encode_labels_len(n);
        },
        RecordDataModel::NS(n) => {
            crate::name::lemma_encode_labels_len(n);
        },
        RecordDataModel::MX { preference, exchange } => {
            crate::name::lemma_encode_labels_len(exchange);
        },
        _ => {},
    }
}

} // verus!
