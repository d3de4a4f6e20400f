//! The object-model-to-record encoder: a stateless flatten of a
//! library into the exact record grammar the decoder consumes, in a
//! fixed order: the four header records, then for each structure its
//! begin, name, elements and end, and finally the library terminator.
//!
//! Writing fails — before anything is produced — when a real value's
//! magnitude falls outside the storable range, or when a name, text,
//! coordinate list or column/row list would overflow a record's
//! 16-bit byte count.

use vstd::prelude::*;
use vstd::utf8::encode_utf8;
use crate::constants;
use crate::model::{Date, Element, ElementParameter, ElementType, ElementV, Library, LibraryV,
    ParamV, Structure, StructureV};
use crate::record::{GdsError, Record, RecordData, RecordDataV, RecordV, record_bytes, str_bytes_total};
use crate::constants::spec_data_size;
use crate::reals::{real64_encodable, real64_to_gds};

verus! {

/// The six 16-bit values of one date.
pub open spec fn date_data_one(d: Date) -> Seq<RecordDataV> {
    seq![
        RecordDataV::Int16(d.year),
        RecordDataV::Int16(d.month),
        RecordDataV::Int16(d.day),
        RecordDataV::Int16(d.hour),
        RecordDataV::Int16(d.minute),
        RecordDataV::Int16(d.second),
    ]
}

/// The twelve 16-bit values of a modified/accessed date pair.
pub open spec fn date_pair_data(m: Date, a: Date) -> Seq<RecordDataV> {
    date_data_one(m) + date_data_one(a)
}

/// Coordinate pairs flattened to 32-bit values, x before y.
pub open spec fn xy_data(pts: Seq<(i32, i32)>) -> Seq<RecordDataV> {
    Seq::new(
        2 * pts.len(),
        |i: int|
            RecordDataV::Int32(
                if i % 2 == 0 {
                    pts[i / 2].0
                } else {
                    pts[i / 2].1
                },
            ),
    )
}

/// Column/row values as 16-bit values.
pub open spec fn colrow_data(v: Seq<i16>) -> Seq<RecordDataV> {
    Seq::new(v.len(), |i: int| RecordDataV::Int16(v[i]))
}

/// A record with no payload.
pub open spec fn none_rec(tag: u8) -> RecordV {
    RecordV {
        size: 4,
        rec_type: tag,
        data_type: constants::DATA_TYPE_NONE,
        data: seq![RecordDataV::NoData],
    }
}

/// A record holding one 16-bit integer.
pub open spec fn i16_rec(tag: u8, x: i16) -> RecordV {
    RecordV {
        size: 6,
        rec_type: tag,
        data_type: constants::DATA_TYPE_INT16,
        data: seq![RecordDataV::Int16(x)],
    }
}

/// A record holding one 32-bit integer.
pub open spec fn i32_rec(tag: u8, x: i32) -> RecordV {
    RecordV {
        size: 8,
        rec_type: tag,
        data_type: constants::DATA_TYPE_INT32,
        data: seq![RecordDataV::Int32(x)],
    }
}

/// A record holding one 16-bit flag field.
pub open spec fn bit_rec(tag: u8, x: u16) -> RecordV {
    RecordV {
        size: 6,
        rec_type: tag,
        data_type: constants::DATA_TYPE_BIT,
        data: seq![RecordDataV::Bit(x)],
    }
}

/// A record holding one string, its byte count the raw string bytes.
pub open spec fn str_rec(tag: u8, s: Seq<char>) -> RecordV {
    RecordV {
        size: (4 + encode_utf8(s).len()) as u16,
        rec_type: tag,
        data_type: constants::DATA_TYPE_STR,
        data: seq![RecordDataV::Str(s)],
    }
}

/// A record holding one 64-bit real, encoded to its stream form.
pub open spec fn real_rec(tag: u8, bits: u64) -> RecordV {
    RecordV {
        size: 12,
        rec_type: tag,
        data_type: constants::DATA_TYPE_REAL64,
        data: seq![RecordDataV::Real64(real64_to_gds(bits))],
    }
}

/// The record one element parameter flattens to.
pub open spec fn param_record(p: ParamV) -> RecordV {
    match p {
        ParamV::Layer(x) => i16_rec(constants::REC_TYPE_LAYER, x),
        ParamV::XY(pts) => RecordV {
            size: (4 + 8 * pts.len()) as u16,
            rec_type: constants::REC_TYPE_XY,
            data_type: constants::DATA_TYPE_INT32,
            data: xy_data(pts),
        },
        ParamV::Datatype(x) => i16_rec(constants::REC_TYPE_DATATYPE, x),
        ParamV::Width(x) => i32_rec(constants::REC_TYPE_WIDTH, x),
        ParamV::StructureName(s) => str_rec(constants::REC_TYPE_SNAME, s),
        ParamV::ColRow(v) => RecordV {
            size: (4 + 2 * v.len()) as u16,
            rec_type: constants::REC_TYPE_COLROW,
            data_type: constants::DATA_TYPE_INT16,
            data: colrow_data(v),
        },
        ParamV::TextType(x) => i16_rec(constants::REC_TYPE_TEXTTYPE, x),
        ParamV::Presentation(x) => bit_rec(constants::REC_TYPE_PRESENTATION, x),
        ParamV::Str(s) => str_rec(constants::REC_TYPE_STRING, s),
        ParamV::StrTransf(x) => bit_rec(constants::REC_TYPE_STRANS, x),
        ParamV::Magnification(b) => real_rec(constants::REC_TYPE_MAG, b),
        ParamV::Angle(b) => real_rec(constants::REC_TYPE_ANGLE, b),
        ParamV::Pathtype(x) => i16_rec(constants::REC_TYPE_PATHTYPE, x),
        ParamV::EFlags(x) => bit_rec(constants::REC_TYPE_EFLAGS, x),
        ParamV::Nodetype(x) => i16_rec(constants::REC_TYPE_NODETYPE, x),
        ParamV::BeginExt(x) => i32_rec(constants::REC_TYPE_BGNEXTN, x),
    }
}

/// The type-tag record of an element; the placeholder type carries
/// the degenerate tag 0.
pub open spec fn elem_type_tag(t: ElementType) -> u8 {
    match t {
        ElementType::Unset => 0,
        ElementType::Boundary => constants::REC_TYPE_BOUNDARY,
        ElementType::Path => constants::REC_TYPE_PATH,
        ElementType::StructureRef => constants::REC_TYPE_SREF,
        ElementType::ArrayRef => constants::REC_TYPE_AREF,
        ElementType::Text => constants::REC_TYPE_TEXT,
        ElementType::Node => constants::REC_TYPE_NODE,
        ElementType::Box => constants::REC_TYPE_BOX,
    }
}

/// The records of a parameter list, in order.
pub open spec fn param_records(ps: Seq<ParamV>) -> Seq<RecordV>
    decreases ps.len(),
{
    if ps.len() == 0 {
        Seq::empty()
    } else {
        seq![param_record(ps[0])] + param_records(ps.drop_first())
    }
}

/// The records of one element: its type tag, its parameters in
/// order, its terminator.
pub open spec fn elem_records(e: ElementV) -> Seq<RecordV> {
    seq![none_rec(elem_type_tag(e.element_type))] + param_records(e.parameters) + seq![
        none_rec(constants::REC_TYPE_ENDEL),
    ]
}

/// The records of an element list, in order.
pub open spec fn elems_records(es: Seq<ElementV>) -> Seq<RecordV>
    decreases es.len(),
{
    if es.len() == 0 {
        Seq::empty()
    } else {
        elem_records(es[0]) + elems_records(es.drop_first())
    }
}

/// The begin record of a structure: its date pair as twelve 16-bit
/// values.
pub open spec fn bgnstr_rec(s: StructureV) -> RecordV {
    RecordV {
        size: 28,
        rec_type: constants::REC_TYPE_BGNSTR,
        data_type: constants::DATA_TYPE_INT16,
        data: date_pair_data(s.date_mod, s.date_acc),
    }
}

/// The records of one structure: begin, name, elements, end.
pub open spec fn struct_records(s: StructureV) -> Seq<RecordV> {
    seq![bgnstr_rec(s), str_rec(constants::REC_TYPE_STRNAME, s.name)] + elems_records(s.elements)
        + seq![none_rec(constants::REC_TYPE_ENDSTR)]
}

/// The records of a structure list, in order.
pub open spec fn structs_records(ss: Seq<StructureV>) -> Seq<RecordV>
    decreases ss.len(),
{
    if ss.len() == 0 {
        Seq::empty()
    } else {
        struct_records(ss[0]) + structs_records(ss.drop_first())
    }
}

/// The four header records of a library: version, date pair, name,
/// unit factors.
pub open spec fn header_records(l: LibraryV) -> Seq<RecordV> {
    seq![
        i16_rec(constants::REC_TYPE_HEADER, l.version),
        RecordV {
            size: 28,
            rec_type: constants::REC_TYPE_BGNLIB,
            data_type: constants::DATA_TYPE_INT16,
            data: date_pair_data(l.date_mod, l.date_acc),
        },
        str_rec(constants::REC_TYPE_LIBNAME, l.name),
        RecordV {
            size: 20,
            rec_type: constants::REC_TYPE_UNITS,
            data_type: constants::DATA_TYPE_REAL64,
            data: seq![
                RecordDataV::Real64(real64_to_gds(l.units_user)),
                RecordDataV::Real64(real64_to_gds(l.units_m)),
            ],
        },
    ]
}

/// Every record of a library, in its on-stream order.
pub open spec fn lib_records(l: LibraryV) -> Seq<RecordV> {
    header_records(l) + structs_records(l.structures) + seq![
        none_rec(constants::REC_TYPE_ENDLIB),
    ]
}

/// The wire form of a record list.
pub open spec fn records_bytes(rs: Seq<RecordV>) -> Seq<u8>
    decreases rs.len(),
{
    if rs.len() == 0 {
        Seq::empty()
    } else {
        record_bytes(rs[0]) + records_bytes(rs.drop_first())
    }
}

pub proof fn lemma_records_bytes_concat(rs1: Seq<RecordV>, rs2: Seq<RecordV>)
    ensures
        records_bytes(rs1 + rs2) == records_bytes(rs1) + records_bytes(rs2),
    decreases rs1.len(),
{
    if rs1.len() == 0 {
        assert(rs1 + rs2 =~= rs2);
        assert(records_bytes(rs1) + records_bytes(rs2) =~= records_bytes(rs2));
    } else {
        assert((rs1 + rs2).drop_first() =~= rs1.drop_first() + rs2);
        assert((rs1 + rs2)[0] == rs1[0]);
        assert((rs1 + rs2).len() > 0);
        lemma_records_bytes_concat(rs1.drop_first(), rs2);
        assert(records_bytes(rs1 + rs2) =~= records_bytes(rs1) + records_bytes(rs2));
    }
}

pub proof fn lemma_records_bytes_push(rs: Seq<RecordV>, r: RecordV)
    ensures
        records_bytes(rs.push(r)) == records_bytes(rs) + record_bytes(r),
{
    assert(rs.push(r) =~= rs + seq![r]);
    lemma_records_bytes_concat(rs, seq![r]);
    assert(seq![r].drop_first() =~= Seq::<RecordV>::empty());
    assert(records_bytes(Seq::<RecordV>::empty()) == Seq::<u8>::empty());
    assert(records_bytes(seq![r]) == record_bytes(seq![r][0]) + records_bytes(
        Seq::<RecordV>::empty(),
    ));
    assert(records_bytes(seq![r]) =~= record_bytes(r));
    assert(records_bytes(rs) + records_bytes(seq![r]) =~= records_bytes(rs) + record_bytes(r));
}

pub proof fn lemma_param_records_push(ps: Seq<ParamV>, p: ParamV)
    ensures
        param_records(ps.push(p)) == param_records(ps) + seq![param_record(p)],
    decreases ps.len(),
{
    if ps.len() == 0 {
        assert(ps =~= Seq::<ParamV>::empty());
        assert(ps.push(p).drop_first() =~= Seq::<ParamV>::empty());
        assert(ps.push(p)[0] == p);
        assert(param_records(ps.push(p)) == seq![param_record(p)] + param_records(ps));
        assert(param_records(ps.push(p)) =~= param_records(ps) + seq![param_record(p)]);
    } else {
        assert(ps.push(p).drop_first() =~= ps.drop_first().push(p));
        assert(ps.push(p)[0] == ps[0]);
        assert(param_records(ps.push(p)) == seq![param_record(ps[0])] + param_records(
            ps.drop_first().push(p),
        ));
        lemma_param_records_push(ps.drop_first(), p);
        assert(param_records(ps.push(p)) =~= param_records(ps) + seq![param_record(p)]);
    }
}

pub proof fn lemma_elems_records_push(es: Seq<ElementV>, e: ElementV)
    ensures
        elems_records(es.push(e)) == elems_records(es) + elem_records(e),
    decreases es.len(),
{
    if es.len() == 0 {
        assert(es =~= Seq::<ElementV>::empty());
        assert(es.push(e).drop_first() =~= Seq::<ElementV>::empty());
        assert(es.push(e)[0] == e);
        assert(elems_records(es.push(e)) == elem_records(e) + elems_records(es));
        assert(elems_records(es.push(e)) =~= elems_records(es) + elem_records(e));
    } else {
        assert(es.push(e).drop_first() =~= es.drop_first().push(e));
        assert(es.push(e)[0] == es[0]);
        assert(elems_records(es.push(e)) == elem_records(es[0]) + elems_records(
            es.drop_first().push(e),
        ));
        lemma_elems_records_push(es.drop_first(), e);
        assert(elems_records(es.push(e)) =~= elems_records(es) + elem_records(e));
    }
}

pub proof fn lemma_structs_records_push(ss: Seq<StructureV>, s: StructureV)
    ensures
        structs_records(ss.push(s)) == structs_records(ss) + struct_records(s),
    decreases ss.len(),
{
    if ss.len() == 0 {
        assert(ss =~= Seq::<StructureV>::empty());
        assert(ss.push(s).drop_first() =~= Seq::<StructureV>::empty());
        assert(ss.push(s)[0] == s);
        assert(structs_records(ss.push(s)) == struct_records(s) + structs_records(ss));
        assert(structs_records(ss.push(s)) =~= structs_records(ss) + struct_records(s));
    } else {
        assert(ss.push(s).drop_first() =~= ss.drop_first().push(s));
        assert(ss.push(s)[0] == ss[0]);
        assert(structs_records(ss.push(s)) == struct_records(ss[0]) + structs_records(
            ss.drop_first().push(s),
        ));
        lemma_structs_records_push(ss.drop_first(), s);
        assert(structs_records(ss.push(s)) =~= structs_records(ss) + struct_records(s));
    }
}

/// The wire form of a whole library.
pub open spec fn lib_bytes(l: LibraryV) -> Seq<u8> {
    records_bytes(lib_records(l))
}

/// Whether a parameter's real value, if it has one, is storable.
pub open spec fn param_real_ok(p: ParamV) -> bool {
    match p {
        ParamV::Magnification(b) => real64_encodable(b),
        ParamV::Angle(b) => real64_encodable(b),
        _ => true,
    }
}

/// Whether a parameter's payload fits a record's 16-bit byte count.
pub open spec fn param_size_ok(p: ParamV) -> bool {
    match p {
        ParamV::XY(pts) => pts.len() <= 8191,
        ParamV::ColRow(v) => v.len() <= 32765,
        ParamV::StructureName(s) => encode_utf8(s).len() <= 65531,
        ParamV::Str(s) => encode_utf8(s).len() <= 65531,
        _ => true,
    }
}

/// Whether every real value of an element is storable.
pub open spec fn elem_reals_ok(e: ElementV) -> bool {
    forall|i: int| 0 <= i < e.parameters.len() ==> param_real_ok(#[trigger] e.parameters[i])
}

/// Whether every payload of an element fits its record.
pub open spec fn elem_sizes_ok(e: ElementV) -> bool {
    forall|i: int| 0 <= i < e.parameters.len() ==> param_size_ok(#[trigger] e.parameters[i])
}

/// Whether every real value of a structure is storable.
pub open spec fn struct_reals_ok(s: StructureV) -> bool {
    forall|j: int| 0 <= j < s.elements.len() ==> elem_reals_ok(#[trigger] s.elements[j])
}

/// Whether every payload of a structure fits its record.
pub open spec fn struct_sizes_ok(s: StructureV) -> bool {
    encode_utf8(s.name).len() <= 65531 && forall|j: int|
        0 <= j < s.elements.len() ==> elem_sizes_ok(#[trigger] s.elements[j])
}

/// Whether every real value of a library — the two unit factors and
/// every magnification and angle — is storable.
pub open spec fn lib_reals_ok(l: LibraryV) -> bool {
    real64_encodable(l.units_user) && real64_encodable(l.units_m) && forall|k: int|
        0 <= k < l.structures.len() ==> struct_reals_ok(#[trigger] l.structures[k])
}

/// Whether every name, text and list of a library fits its record.
pub open spec fn lib_sizes_ok(l: LibraryV) -> bool {
    encode_utf8(l.name).len() <= 65531 && forall|k: int|
        0 <= k < l.structures.len() ==> struct_sizes_ok(#[trigger] l.structures[k])
}

fn param_real_ok_exec(p: &ElementParameter) -> (r: bool)
    ensures
        r == param_real_ok(p@),
{
    match p {
        ElementParameter::Magnification(b) => crate::reals::real64_is_encodable(*b),
        ElementParameter::Angle(b) => crate::reals::real64_is_encodable(*b),
        _ => true,
    }
}

fn param_size_ok_exec(p: &ElementParameter) -> (r: bool)
    ensures
        r == param_size_ok(p@),
{
    match p {
        ElementParameter::XY(pts) => pts.len() <= 8191,
        ElementParameter::ColRow(v) => v.len() <= 32765,
        ElementParameter::StructureName(s) => crate::record::str_byte_len(s.as_str()) <= 65531,
        ElementParameter::Str(s) => crate::record::str_byte_len(s.as_str()) <= 65531,
        _ => true,
    }
}

fn elem_reals_ok_exec(e: &Element) -> (r: bool)
    ensures
        r == elem_reals_ok(e@),
{
    let mut i: usize = 0;
    while i < e.parameters.len()
        invariant
            i <= e.parameters.len(),
            forall|k: int| 0 <= k < i ==> param_real_ok(#[trigger] e@.parameters[k]),
        decreases e.parameters.len() - i,
    {
        if !param_real_ok_exec(&e.parameters[i]) {
            proof {
                assert(!param_real_ok(e@.parameters[i as int]));
                assert(!elem_reals_ok(e@));
            }
            return false;
        }
        i = i + 1;
    }
    true
}

fn elem_sizes_ok_exec(e: &Element) -> (r: bool)
    ensures
        r == elem_sizes_ok(e@),
{
    let mut i: usize = 0;
    while i < e.parameters.len()
        invariant
            i <= e.parameters.len(),
            forall|k: int| 0 <= k < i ==> param_size_ok(#[trigger] e@.parameters[k]),
        decreases e.parameters.len() - i,
    {
        if !param_size_ok_exec(&e.parameters[i]) {
            proof {
                assert(!param_size_ok(e@.parameters[i as int]));
                assert(!elem_sizes_ok(e@));
            }
            return false;
        }
        i = i + 1;
    }
    true
}

fn struct_reals_ok_exec(s: &Structure) -> (r: bool)
    ensures
        r == struct_reals_ok(s@),
{
    let mut j: usize = 0;
    while j < s.elements.len()
        invariant
            j <= s.elements.len(),
            forall|k: int| 0 <= k < j ==> elem_reals_ok(#[trigger] s@.elements[k]),
        decreases s.elements.len() - j,
    {
        if !elem_reals_ok_exec(&s.elements[j]) {
            proof {
                assert(!elem_reals_ok(s@.elements[j as int]));
                assert(!struct_reals_ok(s@));
            }
            return false;
        }
        j = j + 1;
    }
    true
}

fn struct_sizes_ok_exec(s: &Structure) -> (r: bool)
    ensures
        r == struct_sizes_ok(s@),
{
    let nm: &str = s.name.as_str();
    if crate::record::str_byte_len(nm) > 65531 {
        return false;
    }
    let mut j: usize = 0;
    while j < s.elements.len()
        invariant
            j <= s.elements.len(),
            encode_utf8(s@.name).len() <= 65531,
            forall|k: int| 0 <= k < j ==> elem_sizes_ok(#[trigger] s@.elements[k]),
        decreases s.elements.len() - j,
    {
        if !elem_sizes_ok_exec(&s.elements[j]) {
            proof {
                assert(!elem_sizes_ok(s@.elements[j as int]));
                assert(!struct_sizes_ok(s@));
            }
            return false;
        }
        j = j + 1;
    }
    true
}

fn lib_reals_ok_exec(l: &Library) -> (r: bool)
    ensures
        r == lib_reals_ok(l@),
{
    if !crate::reals::real64_is_encodable(l.units_user) {
        return false;
    }
    if !crate::reals::real64_is_encodable(l.units_m) {
        return false;
    }
    let mut k: usize = 0;
    while k < l.structures.len()
        invariant
            k <= l.structures.len(),
            real64_encodable(l@.units_user),
            real64_encodable(l@.units_m),
            forall|m: int| 0 <= m < k ==> struct_reals_ok(#[trigger] l@.structures[m]),
        decreases l.structures.len() - k,
    {
        if !struct_reals_ok_exec(&l.structures[k]) {
            proof {
                assert(!struct_reals_ok(l@.structures[k as int]));
                assert(!lib_reals_ok(l@));
            }
            return false;
        }
        k = k + 1;
    }
    true
}

fn lib_sizes_ok_exec(l: &Library) -> (r: bool)
    ensures
        r == lib_sizes_ok(l@),
{
    let nm: &str = l.name.as_str();
    if crate::record::str_byte_len(nm) > 65531 {
        return false;
    }
    let mut k: usize = 0;
    while k < l.structures.len()
        invariant
            k <= l.structures.len(),
            encode_utf8(l@.name).len() <= 65531,
            forall|m: int| 0 <= m < k ==> struct_sizes_ok(#[trigger] l@.structures[m]),
        decreases l.structures.len() - k,
    {
        if !struct_sizes_ok_exec(&l.structures[k]) {
            proof {
                assert(!struct_sizes_ok(l@.structures[k as int]));
                assert(!lib_sizes_ok(l@));
            }
            return false;
        }
        k = k + 1;
    }
    true
}

/// The record one parameter flattens to.
fn param_to_record(p: &ElementParameter) -> (r: Record)
    requires
        param_real_ok(p@),
        param_size_ok(p@),
    ensures
        r@ == param_record(p@),
{
    let ghost pv: ParamV = p@;
    let rec: Record = match p {
        ElementParameter::Layer(x) => {
            let r = Record::new_single(
                constants::REC_TYPE_LAYER,
                constants::DATA_TYPE_INT16,
                RecordData::Int16(*x),
            );
            proof {
                assert(pv == ParamV::Layer(*x));
                crate::record::lemma_computed_size_single(constants::DATA_TYPE_INT16, RecordDataV::Int16(*x));
                assert(r@ == param_record(pv));
            }
            r
        },
        ElementParameter::XY(pts) => {
            proof {
                assert(pv == ParamV::XY(pts@));
                assert(param_size_ok(pv));
            }
            let mut xd: Vec<RecordData> = Vec::new();
            let mut j: usize = 0;
            proof {
                assert(xd.deep_view() =~= xy_data(pts@).take(0));
            }
            while j < pts.len()
                invariant
                    j <= pts.len(),
                    pts@.len() <= 8191,
                    xd.deep_view() == xy_data(pts@).take(2 * j as int),
                decreases pts.len() - j,
            {
                let pair: (i32, i32) = pts[j];
                xd.push(RecordData::Int32(pair.0));
                xd.push(RecordData::Int32(pair.1));
                proof {
                    assert((2 * (j as int)) % 2 == 0);
                    assert((2 * (j as int) + 1) % 2 == 1);
                    assert((2 * (j as int)) / 2 == j as int);
                    assert((2 * (j as int) + 1) / 2 == j as int);
                    assert(xy_data(pts@)[2 * (j as int)] == RecordDataV::Int32(pair.0));
                    assert(xy_data(pts@)[2 * (j as int) + 1] == RecordDataV::Int32(
                        pair.1,
                    ));
                    assert(xy_data(pts@).take(2 * (j + 1) as int) =~= xy_data(
                        pts@,
                    ).take(2 * j as int).push(xy_data(pts@)[2 * (j as int)]).push(
                        xy_data(pts@)[2 * (j as int) + 1],
                    ));
                    assert(xd.deep_view() =~= xy_data(pts@).take(2 * (j + 1) as int));
                }
                j = j + 1;
            }
            proof {
                assert(xd.deep_view() =~= xy_data(pts@));
                assert(xd@.len() == xd.deep_view().len());
                assert(xd@.len() == 2 * pts@.len());
                assert(pts@.len() <= 8191);
                assert(spec_data_size(constants::DATA_TYPE_INT32) == 4);
                assert(xd@.len() <= 16382);
                assert(4 + 4 * xd@.len() <= 0xFFFF);
                assert(4 + spec_data_size(constants::DATA_TYPE_INT32) * xd@.len()
                    <= 0xFFFF);
                assert(pv == ParamV::XY(pts@));
            }
            let r = Record::new(constants::REC_TYPE_XY, constants::DATA_TYPE_INT32, xd);
            proof {
                assert(r@.data == xy_data(pts@));
                assert(r.size == (4 + 8 * pts@.len()) as u16);
                assert(param_record(pv) == (RecordV {
                    size: (4 + 8 * pts@.len()) as u16,
                    rec_type: constants::REC_TYPE_XY,
                    data_type: constants::DATA_TYPE_INT32,
                    data: xy_data(pts@),
                }));
                assert(r@ == param_record(pv));
            }
            r
        },
        ElementParameter::Datatype(x) => {
            let r = Record::new_single(
                constants::REC_TYPE_DATATYPE,
                constants::DATA_TYPE_INT16,
                RecordData::Int16(*x),
            );
            proof {
                assert(pv == ParamV::Datatype(*x));
                crate::record::lemma_computed_size_single(constants::DATA_TYPE_INT16, RecordDataV::Int16(*x));
                assert(r@ == param_record(pv));
            }
            r
        },
        ElementParameter::Width(x) => {
            let r = Record::new_single(
                constants::REC_TYPE_WIDTH,
                constants::DATA_TYPE_INT32,
                RecordData::Int32(*x),
            );
            proof {
                assert(pv == ParamV::Width(*x));
                crate::record::lemma_computed_size_single(constants::DATA_TYPE_INT32, RecordDataV::Int32(*x));
                assert(r@ == param_record(pv));
            }
            r
        },
        ElementParameter::StructureName(s) => {
            proof {
                assert(pv == ParamV::StructureName(s@));
                assert(param_size_ok(pv));
            }
            proof {
                assert(seq![RecordDataV::Str(s@)].drop_first()
                    =~= Seq::<RecordDataV>::empty());
                assert(str_bytes_total(Seq::<RecordDataV>::empty()) == 0);
                assert(str_bytes_total(seq![RecordDataV::Str(s@)]) == encode_utf8(s@).len());
                crate::record::lemma_computed_size_single(
                    constants::DATA_TYPE_STR,
                    RecordDataV::Str(s@),
                );
            }
            let r = Record::new_single(
                constants::REC_TYPE_SNAME,
                constants::DATA_TYPE_STR,
                RecordData::Str(s.clone()),
            );
            proof {
                assert(r@ == param_record(pv));
            }
            r
        },
        ElementParameter::ColRow(v) => {
            proof {
                assert(pv == ParamV::ColRow(v@));
                assert(param_size_ok(pv));
            }
            let mut cd: Vec<RecordData> = Vec::new();
            let mut j: usize = 0;
            proof {
                assert(cd.deep_view() =~= colrow_data(v@).take(0));
            }
            while j < v.len()
                invariant
                    j <= v.len(),
                    v@.len() <= 32765,
                    cd.deep_view() == colrow_data(v@).take(j as int),
                decreases v.len() - j,
            {
                cd.push(RecordData::Int16(v[j]));
                proof {
                    assert(colrow_data(v@)[j as int] == RecordDataV::Int16(v@[j as int]));
                    assert(colrow_data(v@).take(j + 1) =~= colrow_data(v@).take(
                        j as int,
                    ).push(colrow_data(v@)[j as int]));
                    assert(cd.deep_view() =~= colrow_data(v@).take(j + 1));
                }
                j = j + 1;
            }
            proof {
                assert(cd.deep_view() =~= colrow_data(v@));
                assert(cd@.len() == cd.deep_view().len());
                assert(cd@.len() == v@.len());
                assert(4 + spec_data_size(constants::DATA_TYPE_INT16) * cd@.len()
                    <= 0xFFFF);
                assert(pv == ParamV::ColRow(v@));
            }
            let r = Record::new(
                constants::REC_TYPE_COLROW,
                constants::DATA_TYPE_INT16,
                cd,
            );
            proof {
                assert(r@.data == colrow_data(v@));
                assert(r.size == (4 + 2 * v@.len()) as u16);
                assert(param_record(pv) == (RecordV {
                    size: (4 + 2 * v@.len()) as u16,
                    rec_type: constants::REC_TYPE_COLROW,
                    data_type: constants::DATA_TYPE_INT16,
                    data: colrow_data(v@),
                }));
                assert(r@ == param_record(pv));
            }
            r
        },
        ElementParameter::TextType(x) => {
            let r = Record::new_single(
                constants::REC_TYPE_TEXTTYPE,
                constants::DATA_TYPE_INT16,
                RecordData::Int16(*x),
            );
            proof {
                assert(pv == ParamV::TextType(*x));
                crate::record::lemma_computed_size_single(constants::DATA_TYPE_INT16, RecordDataV::Int16(*x));
                assert(r@ == param_record(pv));
            }
            r
        },
        ElementParameter::Presentation(x) => {
            let r = Record::new_single(
                constants::REC_TYPE_PRESENTATION,
                constants::DATA_TYPE_BIT,
                RecordData::Bit(*x),
            );
            proof {
                assert(pv == ParamV::Presentation(*x));
                crate::record::lemma_computed_size_single(constants::DATA_TYPE_BIT, RecordDataV::Bit(*x));
                assert(r@ == param_record(pv));
            }
            r
        },
        ElementParameter::Str(s) => {
            proof {
                assert(pv == ParamV::Str(s@));
                assert(param_size_ok(pv));
            }
            proof {
                assert(seq![RecordDataV::Str(s@)].drop_first()
                    =~= Seq::<RecordDataV>::empty());
                assert(str_bytes_total(Seq::<RecordDataV>::empty()) == 0);
                assert(str_bytes_total(seq![RecordDataV::Str(s@)]) == encode_utf8(s@).len());
                crate::record::lemma_computed_size_single(
                    constants::DATA_TYPE_STR,
                    RecordDataV::Str(s@),
                );
            }
            let r = Record::new_single(
                constants::REC_TYPE_STRING,
                constants::DATA_TYPE_STR,
                RecordData::Str(s.clone()),
            );
            proof {
                assert(r@ == param_record(pv));
            }
            r
        },
        ElementParameter::StrTransf(x) => {
            let r = Record::new_single(
                constants::REC_TYPE_STRANS,
                constants::DATA_TYPE_BIT,
                RecordData::Bit(*x),
            );
            proof {
                assert(pv == ParamV::StrTransf(*x));
                crate::record::lemma_computed_size_single(constants::DATA_TYPE_BIT, RecordDataV::Bit(*x));
                assert(r@ == param_record(pv));
            }
            r
        },
        ElementParameter::Magnification(b) => {
            proof {
                assert(pv == ParamV::Magnification(*b));
                assert(param_real_ok(pv));
                crate::record::lemma_computed_size_single(
                    constants::DATA_TYPE_REAL64,
                    RecordDataV::Real64(real64_to_gds(*b)),
                );
            }
            let r = Record::new_single(
                constants::REC_TYPE_MAG,
                constants::DATA_TYPE_REAL64,
                RecordData::Real64(crate::reals::gds_real_encode(*b)),
            );
            proof {
                assert(r@ == param_record(pv));
            }
            r
        },
        ElementParameter::Angle(b) => {
            proof {
                assert(pv == ParamV::Angle(*b));
                assert(param_real_ok(pv));
                crate::record::lemma_computed_size_single(
                    constants::DATA_TYPE_REAL64,
                    RecordDataV::Real64(real64_to_gds(*b)),
                );
            }
            let r = Record::new_single(
                constants::REC_TYPE_ANGLE,
                constants::DATA_TYPE_REAL64,
                RecordData::Real64(crate::reals::gds_real_encode(*b)),
            );
            proof {
                assert(r@ == param_record(pv));
            }
            r
        },
        ElementParameter::Pathtype(x) => {
            let r = Record::new_single(
                constants::REC_TYPE_PATHTYPE,
                constants::DATA_TYPE_INT16,
                RecordData::Int16(*x),
            );
            proof {
                assert(pv == ParamV::Pathtype(*x));
                crate::record::lemma_computed_size_single(constants::DATA_TYPE_INT16, RecordDataV::Int16(*x));
                assert(r@ == param_record(pv));
            }
            r
        },
        ElementParameter::EFlags(x) => {
            let r = Record::new_single(
                constants::REC_TYPE_EFLAGS,
                constants::DATA_TYPE_BIT,
                RecordData::Bit(*x),
            );
            proof {
                assert(pv == ParamV::EFlags(*x));
                crate::record::lemma_computed_size_single(constants::DATA_TYPE_BIT, RecordDataV::Bit(*x));
                assert(r@ == param_record(pv));
            }
            r
        },
        ElementParameter::Nodetype(x) => {
            let r = Record::new_single(
                constants::REC_TYPE_NODETYPE,
                constants::DATA_TYPE_INT16,
                RecordData::Int16(*x),
            );
            proof {
                assert(pv == ParamV::Nodetype(*x));
                crate::record::lemma_computed_size_single(constants::DATA_TYPE_INT16, RecordDataV::Int16(*x));
                assert(r@ == param_record(pv));
            }
            r
        },
        ElementParameter::BeginExt(x) => {
            let r = Record::new_single(
                constants::REC_TYPE_BGNEXTN,
                constants::DATA_TYPE_INT32,
                RecordData::Int32(*x),
            );
            proof {
                assert(pv == ParamV::BeginExt(*x));
                crate::record::lemma_computed_size_single(constants::DATA_TYPE_INT32, RecordDataV::Int32(*x));
                assert(r@ == param_record(pv));
            }
            r
        },
    };
    proof {
        assert(rec@ == param_record(pv));
    }
    rec
}

impl Date {
    /// The date as six 16-bit data values, for writing.
    pub fn to_record_data(&self) -> (r: Vec<RecordData>)
        ensures
            r.deep_view() == date_data_one(*self),
    {
        let mut vec: Vec<RecordData> = Vec::new();
        vec.push(RecordData::Int16(self.year));
        vec.push(RecordData::Int16(self.month));
        vec.push(RecordData::Int16(self.day));
        vec.push(RecordData::Int16(self.hour));
        vec.push(RecordData::Int16(self.minute));
        vec.push(RecordData::Int16(self.second));
        proof {
            assert(vec.deep_view() =~= date_data_one(*self));
        }
        vec
    }
}

impl Element {
    /// The records of this element: its type-tag record, one record
    /// per parameter in order, and its terminator.
    pub fn to_records(&self) -> (r: Vec<Record>)
        requires
            elem_reals_ok(self@),
            elem_sizes_ok(self@),
        ensures
            r.deep_view() == elem_records(self@),
    {
        let mut res: Vec<Record> = Vec::new();
        let tag: u8 = match self.element_type {
            ElementType::Boundary => constants::REC_TYPE_BOUNDARY,
            ElementType::Path => constants::REC_TYPE_PATH,
            ElementType::StructureRef => constants::REC_TYPE_SREF,
            ElementType::ArrayRef => constants::REC_TYPE_AREF,
            ElementType::Text => constants::REC_TYPE_TEXT,
            ElementType::Node => constants::REC_TYPE_NODE,
            ElementType::Box => constants::REC_TYPE_BOX,
            ElementType::Unset => 0,
        };
        let first: Record = Record::new_none(tag);
        proof {
            assert(tag == elem_type_tag(self@.element_type));
            assert(first@.data == seq![RecordDataV::NoData]);
            assert(first@ == none_rec(elem_type_tag(self@.element_type)));
        }
        res.push(first);
        proof {
            assert(res.deep_view() =~= seq![none_rec(elem_type_tag(self@.element_type))]);
        }
        let mut i: usize = 0;
        while i < self.parameters.len()
            invariant
                i <= self.parameters.len(),
                elem_reals_ok(self@),
                elem_sizes_ok(self@),
                res.deep_view() == seq![none_rec(elem_type_tag(self@.element_type))]
                    + param_records(self@.parameters.take(i as int)),
            decreases self.parameters.len() - i,
        {
            proof {
                assert(param_real_ok(self@.parameters[i as int]));
                assert(param_size_ok(self@.parameters[i as int]));
            }
            let rec: Record = param_to_record(&self.parameters[i]);
            proof {
                assert(rec@ == param_record(self@.parameters[i as int]));
            }
            let ghost rdv: Seq<RecordV> = res.deep_view();
            let ghost recv: RecordV = rec@;
            res.push(rec);
            proof {
                assert(res.deep_view() =~= rdv.push(recv));
                assert(self@.parameters.take(i + 1) =~= self@.parameters.take(i as int).push(
                    self@.parameters[i as int],
                ));
                lemma_param_records_push(
                    self@.parameters.take(i as int),
                    self@.parameters[i as int],
                );
                assert(res.deep_view() =~= seq![none_rec(elem_type_tag(self@.element_type))]
                    + param_records(self@.parameters.take(i + 1)));
            }
            i = i + 1;
        }
        res.push(Record::new_none(constants::REC_TYPE_ENDEL));
        proof {
            assert(self@.parameters.take(self.parameters.len() as int) =~= self@.parameters);
            assert(res.deep_view() =~= elem_records(self@));
        }
        res
    }
}

impl Library {
    /// Flattens the library to its wire form.  Every record of the
    /// fixed grammar is produced in order, or the first obstacle is
    /// reported: an unstorable real value, else an oversize payload.
    pub fn write(&self) -> (r: Result<Vec<u8>, GdsError>)
        ensures
            (match r {
                Ok(out) => lib_reals_ok(self@) && lib_sizes_ok(self@) && out@ == lib_bytes(self@),
                Err(e) => (e == GdsError::UnencodableReal && !lib_reals_ok(self@)) || (e
                    == GdsError::OversizeRecord && lib_reals_ok(self@) && !lib_sizes_ok(self@)),
            }),
    {
        if !lib_reals_ok_exec(self) {
            return Err(GdsError::UnencodableReal);
        }
        if !lib_sizes_ok_exec(self) {
            return Err(GdsError::OversizeRecord);
        }
        let mut recs: Vec<Record> = Vec::new();
        proof {
            crate::record::lemma_computed_size_single(
                constants::DATA_TYPE_INT16,
                RecordDataV::Int16(self@.version),
            );
        }
        let r_header = Record::new_single(
            constants::REC_TYPE_HEADER,
            constants::DATA_TYPE_INT16,
            RecordData::Int16(self.version),
        );
        proof {
            assert(r_header@ == header_records(self@)[0]);
        }
        recs.push(r_header);
        let mut dd = self.date_mod.to_record_data();
        let mut dd2 = self.date_acc.to_record_data();
        dd.append(&mut dd2);
        proof {
            assert(dd.deep_view() =~= date_pair_data(self@.date_mod, self@.date_acc));
            assert(dd@.len() == 12);
        }
        let r_bgnlib = Record::new(constants::REC_TYPE_BGNLIB, constants::DATA_TYPE_INT16, dd);
        proof {
            assert(r_bgnlib@ == header_records(self@)[1]);
        }
        recs.push(r_bgnlib);
        proof {
            assert(seq![RecordDataV::Str(self@.name)].drop_first()
                =~= Seq::<RecordDataV>::empty());
            assert(str_bytes_total(Seq::<RecordDataV>::empty()) == 0);
            assert(str_bytes_total(seq![RecordDataV::Str(self@.name)]) == encode_utf8(
                self@.name,
            ).len());
            crate::record::lemma_computed_size_single(
                constants::DATA_TYPE_STR,
                RecordDataV::Str(self@.name),
            );
        }
        let r_libname = Record::new_single(
            constants::REC_TYPE_LIBNAME,
            constants::DATA_TYPE_STR,
            RecordData::Str(self.name.clone()),
        );
        proof {
            assert(r_libname@ == header_records(self@)[2]);
        }
        recs.push(r_libname);
        let mut ud: Vec<RecordData> = Vec::new();
        ud.push(RecordData::Real64(crate::reals::gds_real_encode(self.units_user)));
        ud.push(RecordData::Real64(crate::reals::gds_real_encode(self.units_m)));
        proof {
            assert(ud.deep_view() =~= seq![
                RecordDataV::Real64(real64_to_gds(self@.units_user)),
                RecordDataV::Real64(real64_to_gds(self@.units_m)),
            ]);
            assert(ud@.len() == 2);
        }
        let r_units = Record::new(constants::REC_TYPE_UNITS, constants::DATA_TYPE_REAL64, ud);
        proof {
            assert(r_units@ == header_records(self@)[3]);
        }
        recs.push(r_units);
        proof {
            assert(recs.deep_view() =~= header_records(self@));
            assert(self@.structures.take(0) =~= Seq::<StructureV>::empty());
            assert(recs.deep_view() =~= header_records(self@) + structs_records(
                self@.structures.take(0),
            ));
        }
        let mut k: usize = 0;
        while k < self.structures.len()
            invariant
                k <= self.structures.len(),
                lib_reals_ok(self@),
                lib_sizes_ok(self@),
                recs.deep_view() == header_records(self@) + structs_records(
                    self@.structures.take(k as int),
                ),
            decreases self.structures.len() - k,
        {
            proof {
                assert(struct_reals_ok(self@.structures[k as int]));
                assert(struct_sizes_ok(self@.structures[k as int]));
            }
            let ghost base: Seq<RecordV> = recs.deep_view();
            let mut sd = self.structures[k].date_mod.to_record_data();
            let mut sd2 = self.structures[k].date_acc.to_record_data();
            sd.append(&mut sd2);
            proof {
                assert(sd.deep_view() =~= date_pair_data(
                    self@.structures[k as int].date_mod,
                    self@.structures[k as int].date_acc,
                ));
            }
            let r_bgnstr = Record::new(
                constants::REC_TYPE_BGNSTR,
                constants::DATA_TYPE_INT16,
                sd,
            );
            proof {
                assert(r_bgnstr@ == bgnstr_rec(self@.structures[k as int]));
            }
            recs.push(r_bgnstr);
            proof {
                assert(seq![RecordDataV::Str(self@.structures[k as int].name)].drop_first()
                    =~= Seq::<RecordDataV>::empty());
                assert(str_bytes_total(Seq::<RecordDataV>::empty()) == 0);
                assert(str_bytes_total(seq![RecordDataV::Str(self@.structures[k as int].name)])
                    == encode_utf8(self@.structures[k as int].name).len());
                crate::record::lemma_computed_size_single(
                    constants::DATA_TYPE_STR,
                    RecordDataV::Str(self@.structures[k as int].name),
                );
            }
            let r_strname = Record::new_single(
                constants::REC_TYPE_STRNAME,
                constants::DATA_TYPE_STR,
                RecordData::Str(self.structures[k].name.clone()),
            );
            proof {
                assert(r_strname@ == str_rec(
                    constants::REC_TYPE_STRNAME,
                    self@.structures[k as int].name,
                ));
            }
            recs.push(r_strname);
            proof {
                assert(self@.structures[k as int].elements.take(0) =~= Seq::<ElementV>::empty());
                assert(recs.deep_view() =~= base + seq![
                    bgnstr_rec(self@.structures[k as int]),
                    str_rec(constants::REC_TYPE_STRNAME, self@.structures[k as int].name),
                ] + elems_records(self@.structures[k as int].elements.take(0)));
            }
            let mut j: usize = 0;
            while j < self.structures[k].elements.len()
                invariant
                    j <= self.structures[k as int].elements.len(),
                    k < self.structures.len(),
                    struct_reals_ok(self@.structures[k as int]),
                    struct_sizes_ok(self@.structures[k as int]),
                    recs.deep_view() == base + seq![
                        bgnstr_rec(self@.structures[k as int]),
                        str_rec(constants::REC_TYPE_STRNAME, self@.structures[k as int].name),
                    ] + elems_records(self@.structures[k as int].elements.take(j as int)),
                decreases self.structures[k as int].elements.len() - j,
            {
                proof {
                    assert(elem_reals_ok(self@.structures[k as int].elements[j as int]));
                    assert(elem_sizes_ok(self@.structures[k as int].elements[j as int]));
                }
                let mut ers = self.structures[k].elements[j].to_records();
                let ghost edv: Seq<RecordV> = ers.deep_view();
                let ghost rdv: Seq<RecordV> = recs.deep_view();
                recs.append(&mut ers);
                proof {
                    assert(recs.deep_view() =~= rdv + edv);
                    assert(self@.structures[k as int].elements.take(j + 1)
                        =~= self@.structures[k as int].elements.take(j as int).push(
                        self@.structures[k as int].elements[j as int],
                    ));
                    lemma_elems_records_push(
                        self@.structures[k as int].elements.take(j as int),
                        self@.structures[k as int].elements[j as int],
                    );
                    assert(recs.deep_view() =~= base + seq![
                        bgnstr_rec(self@.structures[k as int]),
                        str_rec(constants::REC_TYPE_STRNAME, self@.structures[k as int].name),
                    ] + elems_records(self@.structures[k as int].elements.take(j + 1)));
                }
                j = j + 1;
            }
            let r_endstr = Record::new_none(constants::REC_TYPE_ENDSTR);
            proof {
                assert(r_endstr@ == none_rec(constants::REC_TYPE_ENDSTR));
            }
            let ghost rdv2: Seq<RecordV> = recs.deep_view();
            recs.push(r_endstr);
            proof {
                assert(recs.deep_view() =~= rdv2.push(none_rec(constants::REC_TYPE_ENDSTR)));
                assert(self@.structures[k as int].elements.take(
                    self.structures[k as int].elements.len() as int,
                ) =~= self@.structures[k as int].elements);
                assert(recs.deep_view() =~= base + struct_records(self@.structures[k as int]));
                assert(self@.structures.take(k + 1) =~= self@.structures.take(k as int).push(
                    self@.structures[k as int],
                ));
                lemma_structs_records_push(
                    self@.structures.take(k as int),
                    self@.structures[k as int],
                );
                assert(recs.deep_view() =~= header_records(self@) + structs_records(
                    self@.structures.take(k + 1),
                ));
            }
            k = k + 1;
        }
        let r_endlib = Record::new_none(constants::REC_TYPE_ENDLIB);
        proof {
            assert(r_endlib@ == none_rec(constants::REC_TYPE_ENDLIB));
        }
        let ghost rdv3: Seq<RecordV> = recs.deep_view();
        recs.push(r_endlib);
        proof {
            assert(recs.deep_view() =~= rdv3.push(none_rec(constants::REC_TYPE_ENDLIB)));
            assert(self@.structures.take(self.structures.len() as int) =~= self@.structures);
            assert(recs.deep_view() =~= lib_records(self@));
        }
        let mut out: Vec<u8> = Vec::new();
        let mut i: usize = 0;
        proof {
            assert(out@ =~= records_bytes(recs.deep_view().take(0)));
        }
        while i < recs.len()
            invariant
                i <= recs.len(),
                recs.deep_view() == lib_records(self@),
                out@ == records_bytes(recs.deep_view().take(i as int)),
            decreases recs.len() - i,
        {
            recs[i].write(&mut out);
            proof {
                assert(recs.deep_view().take(i + 1) =~= recs.deep_view().take(i as int).push(
                    recs.deep_view()[i as int],
                ));
                lemma_records_bytes_push(recs.deep_view().take(i as int), recs.deep_view()[i as int]);
                assert(out@ =~= records_bytes(recs.deep_view().take(i + 1)));
            }
            i = i + 1;
        }
        proof {
            assert(recs.deep_view().take(recs.len() as int) =~= recs.deep_view());
        }
        Ok(out)
    }
}

} // verus!
