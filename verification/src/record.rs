//! The wire-level record: a 16-bit byte count (which includes its own
//! 4-byte header), a record-type tag, a data-type tag and a payload of
//! data values, all big-endian.
//!
//! Real-valued payloads are carried here as their raw stream bytes
//! (as big-endian numbers); `reals` converts them to and from IEEE-754
//! bit patterns where the object model consumes them.

use vstd::prelude::*;
use vstd::utf8::{decode_utf8, encode_utf8, valid_utf8};
use crate::constants;
use crate::constants::spec_data_size;
use crate::utils::{
    be2, be2_val, be4, be4_val, be8, be8_val, i16_of_u16, i32_of_u32, u16_of_i16, u32_of_i32,
};

verus! {

/// A failure of reading or writing a stream, each variant a distinct
/// condition.
#[derive(Clone, Copy, Debug, PartialEq, Eq, Structural)]
pub enum GdsError {
    /// The stream ends before a record's declared byte count.
    Truncated,
    /// A record declares a byte count below its own header's size.
    BadRecordLength,
    /// A record declares a data-type tag outside the defined set.
    UnknownDataType,
    /// A string payload is not valid UTF-8.
    InvalidUtf8,
    /// The stream ends at a record boundary with no library
    /// terminator.
    UnterminatedLibrary,
    /// The library terminator comes while a structure is open.
    UnterminatedStructure,
    /// A structure or library terminator comes while an element is
    /// open.
    UnterminatedElement,
    /// A real value's magnitude falls outside the storable range.
    UnencodableReal,
    /// A record's payload does not fit the 16-bit byte count.
    OversizeRecord,
}

/// One data value of a record.  `Real32` and `Real64` hold the raw
/// payload bytes as a big-endian number.
#[derive(Clone, Debug)]
pub enum RecordData {
    /// No data.
    NoData,
    /// 16 bits of flags.
    Bit(u16),
    /// 16-bit signed integer.
    Int16(i16),
    /// 32-bit signed integer.
    Int32(i32),
    /// 32-bit real, as its 4 stream bytes big-endian.
    Real32(u32),
    /// 64-bit real, as its 8 stream bytes big-endian.
    Real64(u64),
    /// Text.
    Str(String),
}

/// Mathematical value of a `RecordData`.
pub enum RecordDataV {
    NoData,
    Bit(u16),
    Int16(i16),
    Int32(i32),
    Real32(u32),
    Real64(u64),
    Str(Seq<char>),
}

impl View for RecordData {
    type V = RecordDataV;

    open spec fn view(&self) -> RecordDataV {
        match self {
            RecordData::NoData => RecordDataV::NoData,
            RecordData::Bit(x) => RecordDataV::Bit(*x),
            RecordData::Int16(x) => RecordDataV::Int16(*x),
            RecordData::Int32(x) => RecordDataV::Int32(*x),
            RecordData::Real32(x) => RecordDataV::Real32(*x),
            RecordData::Real64(x) => RecordDataV::Real64(*x),
            RecordData::Str(s) => RecordDataV::Str(s@),
        }
    }
}

impl DeepView for RecordData {
    type V = RecordDataV;

    open spec fn deep_view(&self) -> RecordDataV {
        self.view()
    }
}

/// One self-delimiting record of the stream.
#[derive(Debug)]
pub struct Record {
    /// Byte count of the record, its 4-byte header included.
    pub size: u16,
    /// Record-type tag.
    pub rec_type: u8,
    /// Data-type tag.
    pub data_type: u8,
    /// The data values.
    pub data: Vec<RecordData>,
}

/// Mathematical value of a `Record`.
pub struct RecordV {
    pub size: u16,
    pub rec_type: u8,
    pub data_type: u8,
    pub data: Seq<RecordDataV>,
}

impl View for Record {
    type V = RecordV;

    open spec fn view(&self) -> RecordV {
        RecordV {
            size: self.size,
            rec_type: self.rec_type,
            data_type: self.data_type,
            data: self.data.deep_view(),
        }
    }
}

impl DeepView for Record {
    type V = RecordV;

    open spec fn deep_view(&self) -> RecordV {
        self.view()
    }
}

/// The bytes one data value contributes to a payload.
pub open spec fn data_value_bytes(v: RecordDataV) -> Seq<u8> {
    match v {
        RecordDataV::NoData => Seq::empty(),
        RecordDataV::Bit(x) => be2(x),
        RecordDataV::Int16(x) => be2(u16_of_i16(x)),
        RecordDataV::Int32(x) => be4(u32_of_i32(x)),
        RecordDataV::Real32(x) => be4(x),
        RecordDataV::Real64(x) => be8(x),
        RecordDataV::Str(s) => encode_utf8(s),
    }
}

/// The payload bytes of a data value sequence, in order.
pub open spec fn payload_bytes(data: Seq<RecordDataV>) -> Seq<u8>
    decreases data.len(),
{
    if data.len() == 0 {
        Seq::empty()
    } else {
        data_value_bytes(data[0]) + payload_bytes(data.drop_first())
    }
}

pub proof fn lemma_payload_bytes_push(data: Seq<RecordDataV>, v: RecordDataV)
    ensures
        payload_bytes(data.push(v)) == payload_bytes(data) + data_value_bytes(v),
    decreases data.len(),
{
    if data.len() == 0 {
        assert(data.push(v).drop_first() =~= Seq::<RecordDataV>::empty());
        assert(data.push(v)[0] == v);
        assert(payload_bytes(data.push(v)) == data_value_bytes(v) + payload_bytes(
            Seq::<RecordDataV>::empty(),
        ));
        assert(payload_bytes(data.push(v)) =~= data_value_bytes(v));
        assert(payload_bytes(data) + data_value_bytes(v) =~= data_value_bytes(v));
    } else {
        assert(data.push(v).drop_first() =~= data.drop_first().push(v));
        assert(data.push(v)[0] == data[0]);
        assert(payload_bytes(data.push(v)) == data_value_bytes(data[0]) + payload_bytes(
            data.drop_first().push(v),
        ));
        lemma_payload_bytes_push(data.drop_first(), v);
        assert(payload_bytes(data.push(v)) =~= payload_bytes(data) + data_value_bytes(v));
    }
}

/// The full wire form of a record: byte count, the two tags, payload.
pub open spec fn record_bytes(r: RecordV) -> Seq<u8> {
    be2(r.size) + seq![r.rec_type, r.data_type] + payload_bytes(r.data)
}

/// Byte length of the string values of a record, as the byte count
/// computation sees them; values of any other shape count nothing.
pub open spec fn str_bytes_total(data: Seq<RecordDataV>) -> int
    decreases data.len(),
{
    if data.len() == 0 {
        0
    } else {
        (match data[0] {
            RecordDataV::Str(s) => encode_utf8(s).len() as int,
            _ => 0,
        }) + str_bytes_total(data.drop_first())
    }
}

pub proof fn lemma_str_bytes_total_push(data: Seq<RecordDataV>, v: RecordDataV)
    ensures
        str_bytes_total(data.push(v)) == str_bytes_total(data) + (match v {
            RecordDataV::Str(s) => encode_utf8(s).len() as int,
            _ => 0,
        }),
    decreases data.len(),
{
    if data.len() == 0 {
        assert(data.push(v).drop_first() =~= Seq::<RecordDataV>::empty());
        assert(data.push(v)[0] == v);
        assert(str_bytes_total(Seq::<RecordDataV>::empty()) == 0);
    } else {
        assert(data.push(v).drop_first() =~= data.drop_first().push(v));
        assert(data.push(v)[0] == data[0]);
        lemma_str_bytes_total_push(data.drop_first(), v);
    }
}

/// The byte count a record's fields imply: 4 header bytes, then the
/// raw string bytes for the string data type, or the data type's
/// fixed width per value for every other.
pub open spec fn computed_size(data_type: u8, data: Seq<RecordDataV>) -> int {
    if data_type == constants::DATA_TYPE_STR {
        4 + str_bytes_total(data)
    } else {
        4 + spec_data_size(data_type) * data.len()
    }
}

/// The byte count of a record holding one data value.
pub proof fn lemma_computed_size_single(dt: u8, v: RecordDataV)
    ensures
        computed_size(dt, seq![v]) == (if dt == constants::DATA_TYPE_STR {
            4 + (match v {
                RecordDataV::Str(s) => encode_utf8(s).len() as int,
                _ => 0,
            })
        } else {
            4 + spec_data_size(dt)
        }),
{
    assert(seq![v].drop_first() =~= Seq::<RecordDataV>::empty());
    assert(str_bytes_total(Seq::<RecordDataV>::empty()) == 0);
    assert(seq![v].len() == 1);
    assert(spec_data_size(dt) * 1 == spec_data_size(dt)) by (nonlinear_arith);
}

/// One parsed fixed-width data value.
pub open spec fn parse_value(data_type: u8, chunk: Seq<u8>) -> RecordDataV {
    if data_type == constants::DATA_TYPE_BIT {
        RecordDataV::Bit(be2_val(chunk))
    } else if data_type == constants::DATA_TYPE_INT16 {
        RecordDataV::Int16(i16_of_u16(be2_val(chunk)))
    } else if data_type == constants::DATA_TYPE_INT32 {
        RecordDataV::Int32(i32_of_u32(be4_val(chunk)))
    } else if data_type == constants::DATA_TYPE_REAL32 {
        RecordDataV::Real32(be4_val(chunk))
    } else {
        RecordDataV::Real64(be8_val(chunk))
    }
}

/// The data values of a payload: none for the "no data" type; one
/// decoded string for the string type, valid UTF-8 required; for a
/// fixed-width type, as many full values as fit, a trailing partial
/// value discarded.  An unknown data-type tag is refused.
pub open spec fn parse_data(data_type: u8, payload: Seq<u8>) -> Result<Seq<RecordDataV>, GdsError> {
    if data_type == constants::DATA_TYPE_NONE {
        Ok(Seq::empty())
    } else if data_type == constants::DATA_TYPE_STR {
        if valid_utf8(payload) {
            Ok(seq![RecordDataV::Str(decode_utf8(payload))])
        } else {
            Err(GdsError::InvalidUtf8)
        }
    } else if data_type <= constants::DATA_TYPE_REAL64 {
        let w: int = spec_data_size(data_type) as int;
        Ok(
            Seq::new((payload.len() as int / w) as nat, |i: int| parse_value(
                data_type,
                payload.subrange(i * w, (i + 1) * w),
            )),
        )
    } else {
        Err(GdsError::UnknownDataType)
    }
}

pub proof fn lemma_str_bytes_total_nonneg(data: Seq<RecordDataV>)
    ensures
        str_bytes_total(data) >= 0,
    decreases data.len(),
{
    if data.len() > 0 {
        lemma_str_bytes_total_nonneg(data.drop_first());
    }
}

pub proof fn lemma_str_bytes_total_take(data: Seq<RecordDataV>, i: int)
    requires
        0 <= i <= data.len(),
    ensures
        0 <= str_bytes_total(data.take(i)) <= str_bytes_total(data),
    decreases data.len() - i,
{
    lemma_str_bytes_total_nonneg(data.take(i));
    if i == data.len() {
        assert(data.take(i) =~= data);
    } else {
        assert(data.take(i + 1) =~= data.take(i).push(data[i]));
        lemma_str_bytes_total_push(data.take(i), data[i]);
        lemma_str_bytes_total_take(data, i + 1);
    }
}

/// One record read from the front of `b`: its declared byte count
/// must be at least 4 and fully available, and its payload must parse.
/// On success the record and its byte count are returned.
pub open spec fn spec_parse_record(b: Seq<u8>) -> Result<(RecordV, int), GdsError> {
    if b.len() < 4 {
        Err(GdsError::Truncated)
    } else {
        let size: u16 = be2_val(b.subrange(0, 2));
        if size < 4 {
            Err(GdsError::BadRecordLength)
        } else if b.len() < size {
            Err(GdsError::Truncated)
        } else {
            match parse_data(b[3], b.subrange(4, size as int)) {
                Ok(d) => Ok(
                    (
                        RecordV { size, rec_type: b[2], data_type: b[3], data: d },
                        size as int,
                    ),
                ),
                Err(e) => Err(e),
            }
        }
    }
}

/// Relies on str::len: the byte length of a string's UTF-8 encoding,
/// which always fits a machine word.
#[verifier::external_body]
pub(crate) fn str_byte_len(s: &str) -> (r: usize)
    ensures
        r == encode_utf8(s@).len(),
{
    s.len()
}

/// Relies on String::from_utf8: it returns the string whose UTF-8
/// encoding is the given bytes exactly when they are valid UTF-8, and
/// an error otherwise.
#[verifier::external_body]
fn string_from_utf8(v: Vec<u8>) -> (r: Option<String>)
    ensures
        (match r {
            Some(s) => valid_utf8(v@) && s@ == decode_utf8(v@),
            None => !valid_utf8(v@),
        }),
{
    String::from_utf8(v).ok()
}

fn read_u16_at(data: &[u8], p: usize) -> (r: u16)
    requires
        p + 2 <= data@.len(),
    ensures
        r == be2_val(data@.subrange(p as int, p + 2)),
{
    let _n: usize = data.len();
    proof {
        assert(data@.subrange(p as int, p + 2) =~= seq![data@[p as int], data@[p + 1]]);
    }
    (data[p] as u16) * 0x100 + (data[p + 1] as u16)
}

fn read_u32_at(data: &[u8], p: usize) -> (r: u32)
    requires
        p + 4 <= data@.len(),
    ensures
        r == be4_val(data@.subrange(p as int, p + 4)),
{
    let _n: usize = data.len();
    let hi: u16 = read_u16_at(data, p);
    let lo: u16 = read_u16_at(data, p + 2);
    proof {
        assert(data@.subrange(p as int, p + 4).subrange(0, 2) =~= data@.subrange(p as int, p + 2));
        assert(data@.subrange(p as int, p + 4).subrange(2, 4) =~= data@.subrange(p + 2, p + 4));
    }
    (hi as u32) * 0x10000 + (lo as u32)
}

fn read_u64_at(data: &[u8], p: usize) -> (r: u64)
    requires
        p + 8 <= data@.len(),
    ensures
        r == be8_val(data@.subrange(p as int, p + 8)),
{
    let _n: usize = data.len();
    let hi: u32 = read_u32_at(data, p);
    let lo: u32 = read_u32_at(data, p + 4);
    proof {
        assert(data@.subrange(p as int, p + 8).subrange(0, 4) =~= data@.subrange(p as int, p + 4));
        assert(data@.subrange(p as int, p + 8).subrange(4, 8) =~= data@.subrange(p + 4, p + 8));
    }
    (hi as u64) * 0x100000000 + (lo as u64)
}

impl Record {
    /// A record of the given type tags over the given data values;
    /// the byte count comes from the data type's fixed width.
    pub fn new(rec_type: u8, data_type: u8, data: Vec<RecordData>) -> (r: Record)
        requires
            4 + spec_data_size(data_type) * data@.len() <= 0xFFFF,
        ensures
            r.rec_type == rec_type,
            r.data_type == data_type,
            r@.data == data.deep_view(),
            r.size == 4 + spec_data_size(data_type) * data@.len(),
    {
        let size: u16 = (4 + constants::data_size(data_type) * data.len()) as u16;
        Record { size, rec_type, data_type, data }
    }

    /// A record with no payload: the "no data" type and a placeholder
    /// data value.
    pub fn new_none(rec_type: u8) -> (r: Record)
        ensures
            r.rec_type == rec_type,
            r.data_type == constants::DATA_TYPE_NONE,
            r@.data =~= seq![RecordDataV::NoData],
            r.size == 4,
    {
        let mut data: Vec<RecordData> = Vec::new();
        data.push(RecordData::NoData);
        Record { size: 4, rec_type, data_type: constants::DATA_TYPE_NONE, data }
    }

    /// A record holding one data value, with its byte count computed.
    pub fn new_single(rec_type: u8, data_type: u8, data: RecordData) -> (r: Record)
        requires
            computed_size(data_type, seq![data@]) <= 0xFFFF,
        ensures
            r.rec_type == rec_type,
            r.data_type == data_type,
            r@.data =~= seq![data@],
            r.size == computed_size(data_type, seq![data@]),
    {
        let ghost dv: RecordDataV = data@;
        let mut vec: Vec<RecordData> = Vec::new();
        vec.push(data);
        proof {
            assert(vec.deep_view() =~= seq![dv]);
        }
        let mut rec = Record { size: 0, rec_type, data_type, data: vec };
        rec.update_size();
        rec
    }

    /// Appends a data value and recomputes the byte count.
    pub fn push_data(&mut self, data: RecordData)
        requires
            computed_size(old(self).data_type, old(self)@.data.push(data@)) <= 0xFFFF,
        ensures
            final(self).rec_type == old(self).rec_type,
            final(self).data_type == old(self).data_type,
            final(self)@.data == old(self)@.data.push(data@),
            final(self).size == computed_size(old(self).data_type, old(self)@.data.push(data@)),
    {
        let ghost dv: RecordDataV = data@;
        self.data.push(data);
        proof {
            assert(self@.data =~= old(self)@.data.push(dv));
        }
        self.update_size();
    }

    /// Recomputes the byte count from the data type and the data:
    /// 4 header bytes plus the raw string bytes for the string type,
    /// or the fixed width per value for every other type.
    pub fn update_size(&mut self)
        requires
            computed_size(old(self).data_type, old(self)@.data) <= 0xFFFF,
        ensures
            final(self).rec_type == old(self).rec_type,
            final(self).data_type == old(self).data_type,
            final(self)@.data == old(self)@.data,
            final(self).size == computed_size(old(self).data_type, old(self)@.data),
    {
        if self.data_type == constants::DATA_TYPE_STR {
            let ghost all: Seq<RecordDataV> = self@.data;
            let mut total: u64 = 0;
            let mut i: usize = 0;
            proof {
                assert(all.take(0) =~= Seq::<RecordDataV>::empty());
            }
            while i < self.data.len()
                invariant
                    i <= self.data.len(),
                    all == self@.data,
                    self == old(self),
                    total == str_bytes_total(all.take(i as int)),
                    computed_size(old(self).data_type, all) <= 0xFFFF,
                    old(self).data_type == constants::DATA_TYPE_STR,
                decreases self.data.len() - i,
            {
                proof {
                    assert(all.take(i + 1) =~= all.take(i as int).push(all[i as int]));
                    lemma_str_bytes_total_push(all.take(i as int), all[i as int]);
                    lemma_str_bytes_total_take(all, i + 1);
                }
                match &self.data[i] {
                    RecordData::Str(s) => {
                        total = total + (s.as_str().len() as u64);
                    },
                    _ => {},
                }
                i = i + 1;
            }
            proof {
                assert(all.take(self.data.len() as int) =~= all);
            }
            self.size = (4 + total) as u16;
        } else {
            let w: usize = constants::data_size(self.data_type);
            let n: usize = self.data.len();
            self.size = (4 + (w as u64) * (n as u64)) as u16;
        }
    }

    /// Appends the wire form of the record: byte count, the two tags,
    /// then each data value's bytes.
    pub fn write(&self, out: &mut Vec<u8>)
        ensures
            final(out)@ == old(out)@ + record_bytes(self@),
    {
        let ghost start: Seq<u8> = out@;
        let mut head = crate::utils::u16_to_vec(self.size);
        out.append(&mut head);
        out.push(self.rec_type);
        out.push(self.data_type);
        proof {
            assert(self@.data.take(0) =~= Seq::<RecordDataV>::empty());
            assert(out@ =~= start + be2(self@.size) + seq![self@.rec_type, self@.data_type]
                + payload_bytes(self@.data.take(0)));
        }
        let mut i: usize = 0;
        while i < self.data.len()
            invariant
                i <= self.data.len(),
                out@ == start + be2(self@.size) + seq![self@.rec_type, self@.data_type]
                    + payload_bytes(self@.data.take(i as int)),
            decreases self.data.len() - i,
        {
            proof {
                assert(self@.data.take(i + 1) =~= self@.data.take(i as int).push(
                    self@.data[i as int],
                ));
                lemma_payload_bytes_push(self@.data.take(i as int), self@.data[i as int]);
            }
            match &self.data[i] {
                RecordData::NoData => {
                    proof {
                        assert(data_value_bytes(self@.data[i as int]) =~= Seq::<u8>::empty());
                    }
                },
                RecordData::Bit(x) => {
                    let mut b = crate::utils::u16_to_vec(*x);
                    out.append(&mut b);
                },
                RecordData::Int16(x) => {
                    let mut b = crate::utils::i16_to_vec(*x);
                    out.append(&mut b);
                },
                RecordData::Int32(x) => {
                    let mut b = crate::utils::i32_to_vec(*x);
                    out.append(&mut b);
                },
                RecordData::Real32(x) => {
                    let mut b = crate::utils::u32_to_vec(*x);
                    out.append(&mut b);
                },
                RecordData::Real64(x) => {
                    let mut b = crate::utils::u64_to_vec(*x);
                    out.append(&mut b);
                },
                RecordData::Str(s) => {
                    let mut b = vstd::slice::slice_to_vec(s.as_str().as_bytes());
                    out.append(&mut b);
                },
            }
            proof {
                assert(out@ =~= start + be2(self@.size) + seq![self@.rec_type, self@.data_type]
                    + payload_bytes(self@.data.take(i + 1)));
            }
            i = i + 1;
        }
        proof {
            assert(self@.data.take(self.data.len() as int) =~= self@.data);
            assert(out@ =~= start + record_bytes(self@));
        }
    }

    /// Reads one record starting at `pos`: the declared byte count
    /// must be at least 4 and fully available, and the payload must
    /// parse under its data type.  Returns the record and the
    /// position just past it.
    pub fn read(data: &[u8], pos: usize) -> (r: Result<(Record, usize), GdsError>)
        requires
            pos <= data@.len(),
        ensures
            (match (r, spec_parse_record(data@.skip(pos as int))) {
                (Ok(rp), Ok(sp)) => rp.0@ == sp.0 && rp.1 == pos + sp.1,
                (Err(e1), Err(e2)) => e1 == e2,
                _ => false,
            }),
    {
        let ghost b: Seq<u8> = data@.skip(pos as int);
        if data.len() - pos < 4 {
            return Err(GdsError::Truncated);
        }
        let size: u16 = read_u16_at(data, pos);
        proof {
            assert(data@.subrange(pos as int, pos + 2) =~= b.subrange(0, 2));
        }
        if size < 4 {
            return Err(GdsError::BadRecordLength);
        }
        if data.len() - pos < size as usize {
            return Err(GdsError::Truncated);
        }
        let rec_type: u8 = data[pos + 2];
        let data_type: u8 = data[pos + 3];
        let ghost payload: Seq<u8> = b.subrange(4, size as int);
        let newpos: usize = pos + size as usize;
        if data_type == constants::DATA_TYPE_NONE {
            let rec = Record { size, rec_type, data_type, data: Vec::new() };
            proof {
                assert(rec@.data =~= parse_data(b[3], payload).unwrap());
            }
            Ok((rec, newpos))
        } else if data_type == constants::DATA_TYPE_STR {
            let mut sb: Vec<u8> = Vec::new();
            let mut j: usize = 0;
            let count: usize = size as usize - 4;
            proof {
                assert(sb@ =~= payload.take(0));
            }
            while j < count
                invariant
                    j <= count,
                    count == size - 4,
                    pos + size <= data@.len(),
                    data@.len() <= usize::MAX,
                    size >= 4,
                    b == data@.skip(pos as int),
                    payload == b.subrange(4, size as int),
                    sb@ == payload.take(j as int),
                decreases count - j,
            {
                sb.push(data[pos + 4 + j]);
                proof {
                    assert(sb@ =~= payload.take(j + 1));
                }
                j = j + 1;
            }
            proof {
                assert(sb@ =~= payload);
            }
            match string_from_utf8(sb) {
                Some(s) => {
                    let mut vals: Vec<RecordData> = Vec::new();
                    vals.push(RecordData::Str(s));
                    let rec = Record { size, rec_type, data_type, data: vals };
                    proof {
                        assert(rec@.data =~= parse_data(b[3], payload).unwrap());
                    }
                    Ok((rec, newpos))
                },
                None => Err(GdsError::InvalidUtf8),
            }
        } else if data_type <= constants::DATA_TYPE_REAL64 {
            let ghost spec_vals: Seq<RecordDataV> = parse_data(b[3], payload).unwrap();
            let mut vals: Vec<RecordData> = Vec::new();
            proof {
                assert(vals.deep_view() =~= spec_vals.take(0));
            }
            if data_type == constants::DATA_TYPE_BIT || data_type == constants::DATA_TYPE_INT16 {
                let n: usize = (size as usize - 4) / 2;
                let mut i: usize = 0;
                while i < n
                    invariant
                        i <= n,
                        n == (size - 4) as int / 2,
                        pos + size <= data@.len(),
                        data@.len() <= usize::MAX,
                        size >= 4,
                        b == data@.skip(pos as int),
                        payload == b.subrange(4, size as int),
                        data_type == constants::DATA_TYPE_BIT || data_type
                            == constants::DATA_TYPE_INT16,
                        spec_vals == parse_data(data_type, payload).unwrap(),
                        vals.deep_view() == spec_vals.take(i as int),
                    decreases n - i,
                {
                    let off: usize = pos + 4 + 2 * i;
                    let v: u16 = read_u16_at(data, off);
                    proof {
                        assert(data@.subrange(off as int, off + 2) =~= payload.subrange(
                            2 * i,
                            2 * i + 2,
                        ));
                    }
                    if data_type == constants::DATA_TYPE_BIT {
                        vals.push(RecordData::Bit(v));
                    } else {
                        vals.push(RecordData::Int16(crate::utils::i16_of_bits(v)));
                    }
                    proof {
                        assert(spec_vals.take(i + 1) =~= spec_vals.take(i as int).push(
                            spec_vals[i as int],
                        ));
                        assert(vals.deep_view() =~= spec_vals.take(i + 1));
                    }
                    i = i + 1;
                }
                proof {
                    assert(vals.deep_view() =~= spec_vals);
                }
            } else if data_type == constants::DATA_TYPE_INT32 || data_type
                == constants::DATA_TYPE_REAL32 {
                let n: usize = (size as usize - 4) / 4;
                let mut i: usize = 0;
                while i < n
                    invariant
                        i <= n,
                        n == (size - 4) as int / 4,
                        pos + size <= data@.len(),
                        data@.len() <= usize::MAX,
                        size >= 4,
                        b == data@.skip(pos as int),
                        payload == b.subrange(4, size as int),
                        data_type == constants::DATA_TYPE_INT32 || data_type
                            == constants::DATA_TYPE_REAL32,
                        spec_vals == parse_data(data_type, payload).unwrap(),
                        vals.deep_view() == spec_vals.take(i as int),
                    decreases n - i,
                {
                    let off: usize = pos + 4 + 4 * i;
                    let v: u32 = read_u32_at(data, off);
                    proof {
                        assert(data@.subrange(off as int, off + 4) =~= payload.subrange(
                            4 * i,
                            4 * i + 4,
                        ));
                    }
                    if data_type == constants::DATA_TYPE_INT32 {
                        vals.push(RecordData::Int32(crate::utils::i32_of_bits(v)));
                    } else {
                        vals.push(RecordData::Real32(v));
                    }
                    proof {
                        assert(spec_vals.take(i + 1) =~= spec_vals.take(i as int).push(
                            spec_vals[i as int],
                        ));
                        assert(vals.deep_view() =~= spec_vals.take(i + 1));
                    }
                    i = i + 1;
                }
                proof {
                    assert(vals.deep_view() =~= spec_vals);
                }
            } else {
                let n: usize = (size as usize - 4) / 8;
                let mut i: usize = 0;
                while i < n
                    invariant
                        i <= n,
                        n == (size - 4) as int / 8,
                        pos + size <= data@.len(),
                        data@.len() <= usize::MAX,
                        size >= 4,
                        b == data@.skip(pos as int),
                        payload == b.subrange(4, size as int),
                        data_type == constants::DATA_TYPE_REAL64,
                        spec_vals == parse_data(data_type, payload).unwrap(),
                        vals.deep_view() == spec_vals.take(i as int),
                    decreases n - i,
                {
                    let off: usize = pos + 4 + 8 * i;
                    let v: u64 = read_u64_at(data, off);
                    proof {
                        assert(data@.subrange(off as int, off + 8) =~= payload.subrange(
                            8 * i,
                            8 * i + 8,
                        ));
                    }
                    vals.push(RecordData::Real64(v));
                    proof {
                        assert(spec_vals.take(i + 1) =~= spec_vals.take(i as int).push(
                            spec_vals[i as int],
                        ));
                        assert(vals.deep_view() =~= spec_vals.take(i + 1));
                    }
                    i = i + 1;
                }
                proof {
                    assert(vals.deep_view() =~= spec_vals);
                }
            }
            let rec = Record { size, rec_type, data_type, data: vals };
            Ok((rec, newpos))
        } else {
            Err(GdsError::UnknownDataType)
        }
    }
}

} // verus!
