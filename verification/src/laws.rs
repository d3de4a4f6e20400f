//! Round-trip laws of the codec: decoding an encoded library restores
//! it field for field, and the encoding is a stable normal form.

use vstd::prelude::*;
use vstd::utf8::encode_utf8;
use crate::constants;
use crate::constants::spec_data_size;
use crate::decoder::{
    DecStateV, colrow_vals, date_at, init_state, int32_at, fresh_elem, fresh_struct, push_param,
    real64_at, set_elem_type, spec_read, spec_run, step, xy_pairs,
};
use crate::encoder::{
    bgnstr_rec, colrow_data, date_pair_data, elem_records, elem_type_tag, elems_records, i16_rec,
    lib_bytes, lib_records, none_rec, param_record, param_records, records_bytes, str_rec,
    struct_records, structs_records, xy_data, lemma_records_bytes_concat,
};
use crate::model::{Date, ElementType, ElementV, LibraryV, ParamV, StructureV};
use crate::record::{
    GdsError, RecordDataV, RecordV, data_value_bytes, payload_bytes, record_bytes,
    spec_parse_record, parse_data, parse_value,
};
use crate::reals::{real64_round_trip_safe, real64_to_gds, lemma_real64_round_trip};
use crate::utils::{
    be2, be2_val, u16_of_i16, u32_of_i32, lemma_be2_roundtrip, lemma_be4_roundtrip,
    lemma_be8_roundtrip, lemma_i16_bits_roundtrip, lemma_i32_bits_roundtrip,
};

verus! {

/// Whether a data value has the shape of the given fixed-width data
/// type.
pub open spec fn data_matches(dt: u8, v: RecordDataV) -> bool {
    if dt == constants::DATA_TYPE_BIT {
        v is Bit
    } else if dt == constants::DATA_TYPE_INT16 {
        v is Int16
    } else if dt == constants::DATA_TYPE_INT32 {
        v is Int32
    } else if dt == constants::DATA_TYPE_REAL32 {
        v is Real32
    } else if dt == constants::DATA_TYPE_REAL64 {
        v is Real64
    } else {
        false
    }
}

proof fn lemma_dvb_len(dt: u8, v: RecordDataV)
    requires
        data_matches(dt, v),
    ensures
        data_value_bytes(v).len() == spec_data_size(dt),
{
}

proof fn lemma_payload_len(dt: u8, data: Seq<RecordDataV>)
    requires
        forall|i: int| 0 <= i < data.len() ==> data_matches(dt, #[trigger] data[i]),
    ensures
        payload_bytes(data).len() == spec_data_size(dt) * data.len(),
    decreases data.len(),
{
    let w: int = spec_data_size(dt) as int;
    if data.len() == 0 {
        assert(w * 0 == 0) by (nonlinear_arith);
    } else {
        assert(data_matches(dt, data[0]));
        lemma_dvb_len(dt, data[0]);
        assert(forall|i: int|
            0 <= i < data.drop_first().len() ==> data_matches(
                dt,
                #[trigger] data.drop_first()[i],
            ));
        lemma_payload_len(dt, data.drop_first());
        assert(w + w * (data.len() - 1) == w * data.len()) by (nonlinear_arith);
    }
}

proof fn lemma_payload_chunk(dt: u8, data: Seq<RecordDataV>, i: int)
    requires
        forall|k: int| 0 <= k < data.len() ==> data_matches(dt, #[trigger] data[k]),
        0 <= i < data.len(),
    ensures
        payload_bytes(data).subrange(
            spec_data_size(dt) * i,
            spec_data_size(dt) * i + spec_data_size(dt),
        ) == data_value_bytes(data[i]),
    decreases i,
{
    let w: int = spec_data_size(dt) as int;
    lemma_payload_len(dt, data);
    lemma_dvb_len(dt, data[0]);
    assert(payload_bytes(data) == data_value_bytes(data[0]) + payload_bytes(data.drop_first()));
    if i == 0 {
        assert(w * 0 == 0) by (nonlinear_arith);
        assert(payload_bytes(data).subrange(0, w) =~= data_value_bytes(data[0]));
    } else {
        assert(forall|k: int|
            0 <= k < data.drop_first().len() ==> data_matches(
                dt,
                #[trigger] data.drop_first()[k],
            ));
        lemma_payload_chunk(dt, data.drop_first(), i - 1);
        lemma_payload_len(dt, data.drop_first());
        assert(w * (i - 1) == w * i - w) by (nonlinear_arith);
        assert(w * (i - 1) + w == w * i) by (nonlinear_arith);
        assert(0 <= w * (i - 1)) by (nonlinear_arith)
            requires
                w >= 0,
                i >= 1,
        ;
        assert(w * i + w <= w * data.len()) by (nonlinear_arith)
            requires
                w >= 0,
                i + 1 <= data.len(),
        ;
        assert(payload_bytes(data).subrange(w * i, w * i + w) =~= payload_bytes(
            data.drop_first(),
        ).subrange(w * (i - 1), w * (i - 1) + w));
        assert(data.drop_first()[i - 1] == data[i]);
    }
}

proof fn lemma_parse_value_rt(dt: u8, v: RecordDataV)
    requires
        data_matches(dt, v),
    ensures
        parse_value(dt, data_value_bytes(v)) == v,
{
    if dt == constants::DATA_TYPE_BIT {
        lemma_be2_roundtrip(v->Bit_0);
    } else if dt == constants::DATA_TYPE_INT16 {
        lemma_be2_roundtrip(u16_of_i16(v->Int16_0));
        lemma_i16_bits_roundtrip(v->Int16_0);
    } else if dt == constants::DATA_TYPE_INT32 {
        lemma_be4_roundtrip(u32_of_i32(v->Int32_0));
        lemma_i32_bits_roundtrip(v->Int32_0);
    } else if dt == constants::DATA_TYPE_REAL32 {
        lemma_be4_roundtrip(v->Real32_0);
    } else {
        lemma_be8_roundtrip(v->Real64_0);
    }
}

proof fn lemma_parse_data_fixed(dt: u8, data: Seq<RecordDataV>)
    requires
        constants::DATA_TYPE_BIT <= dt <= constants::DATA_TYPE_REAL64,
        forall|k: int| 0 <= k < data.len() ==> data_matches(dt, #[trigger] data[k]),
    ensures
        parse_data(dt, payload_bytes(data)) == Ok::<Seq<RecordDataV>, GdsError>(data),
{
    let w: int = spec_data_size(dt) as int;
    lemma_payload_len(dt, data);
    let payload = payload_bytes(data);
    assert(w >= 2);
    assert((w * data.len()) / w == data.len()) by (nonlinear_arith)
        requires
            w >= 2,
    ;
    let parsed = parse_data(dt, payload).unwrap();
    assert forall|i: int| 0 <= i < data.len() implies parsed[i] == data[i] by {
        lemma_payload_chunk(dt, data, i);
        lemma_parse_value_rt(dt, data[i]);
        assert(payload.subrange(i * w, (i + 1) * w) == payload.subrange(w * i, w * i + w))
            by (nonlinear_arith);
    }
    assert(parsed =~= data);
}

/// Parsing the wire form of a record whose byte count states its
/// payload length exactly: the byte count, tags and payload come
/// back, and the rest of the stream is untouched.
proof fn lemma_parse_gen(r: RecordV, rest: Seq<u8>)
    requires
        r.size == 4 + payload_bytes(r.data).len(),
    ensures
        spec_parse_record(record_bytes(r) + rest) == (match parse_data(
            r.data_type,
            payload_bytes(r.data),
        ) {
            Ok(d) => Ok::<(RecordV, int), GdsError>(
                (
                    RecordV {
                        size: r.size,
                        rec_type: r.rec_type,
                        data_type: r.data_type,
                        data: d,
                    },
                    r.size as int,
                ),
            ),
            Err(e) => Err(e),
        }),
        (record_bytes(r) + rest).skip(r.size as int) == rest,
{
    let b = record_bytes(r) + rest;
    let payload = payload_bytes(r.data);
    assert(record_bytes(r).len() == 4 + payload.len());
    assert(b.len() >= r.size);
    assert(b.subrange(0, 2) =~= be2(r.size));
    lemma_be2_roundtrip(r.size);
    assert(be2_val(b.subrange(0, 2)) == r.size);
    assert(b[2] == r.rec_type);
    assert(b[3] == r.data_type);
    assert(b.subrange(4, r.size as int) =~= payload);
    assert(b.skip(r.size as int) =~= rest);
}

proof fn lemma_payload_single(v: RecordDataV)
    ensures
        payload_bytes(seq![v]) == data_value_bytes(v),
{
    assert(seq![v].drop_first() =~= Seq::<RecordDataV>::empty());
    assert(payload_bytes(Seq::<RecordDataV>::empty()) == Seq::<u8>::empty());
    assert(payload_bytes(seq![v]) =~= data_value_bytes(v));
}

proof fn lemma_xy_pairs_data(pts: Seq<(i32, i32)>)
    ensures
        xy_pairs(xy_data(pts)) == pts,
{
    let d = xy_data(pts);
    assert(d.len() == 2 * pts.len());
    assert(d.len() / 2 == pts.len());
    assert forall|i: int| 0 <= i < pts.len() implies xy_pairs(d)[i] == pts[i] by {
        assert((2 * i) % 2 == 0);
        assert((2 * i + 1) % 2 == 1);
        assert((2 * i) / 2 == i);
        assert((2 * i + 1) / 2 == i);
        assert(d[2 * i] == RecordDataV::Int32(pts[i].0));
        assert(d[2 * i + 1] == RecordDataV::Int32(pts[i].1));
        assert(int32_at(d, 2 * i) == pts[i].0);
        assert(int32_at(d, 2 * i + 1) == pts[i].1);
        assert(xy_pairs(d)[i] == (pts[i].0, pts[i].1));
    }
    assert(xy_pairs(d) =~= pts);
}

proof fn lemma_colrow_vals_data(v: Seq<i16>)
    ensures
        colrow_vals(colrow_data(v)) == v,
{
    let d = colrow_data(v);
    assert forall|i: int| 0 <= i < v.len() implies colrow_vals(d)[i] == v[i] by {
        assert(d[i] == RecordDataV::Int16(v[i]));
    }
    assert(colrow_vals(d) =~= v);
}

proof fn lemma_date_pair(m: Date, a: Date)
    ensures
        date_at(date_pair_data(m, a), 0) == m,
        date_at(date_pair_data(m, a), 6) == a,
{
    let d = date_pair_data(m, a);
    assert(d[0] == RecordDataV::Int16(m.year));
    assert(d[1] == RecordDataV::Int16(m.month));
    assert(d[2] == RecordDataV::Int16(m.day));
    assert(d[3] == RecordDataV::Int16(m.hour));
    assert(d[4] == RecordDataV::Int16(m.minute));
    assert(d[5] == RecordDataV::Int16(m.second));
    assert(d[6] == RecordDataV::Int16(a.year));
    assert(d[7] == RecordDataV::Int16(a.month));
    assert(d[8] == RecordDataV::Int16(a.day));
    assert(d[9] == RecordDataV::Int16(a.hour));
    assert(d[10] == RecordDataV::Int16(a.minute));
    assert(d[11] == RecordDataV::Int16(a.second));
}

proof fn lemma_parse_str_data(s: Seq<char>)
    ensures
        parse_data(constants::DATA_TYPE_STR, encode_utf8(s)) == Ok::<Seq<RecordDataV>, GdsError>(
            seq![RecordDataV::Str(s)],
        ),
{
    vstd::utf8::encode_utf8_valid_utf8(s);
    vstd::utf8::encode_utf8_decode_utf8(s);
}

/// All stream bytes of a parameter list, then a rest.
proof fn lemma_run_one(s: DecStateV, r: RecordV, s2: DecStateV, rest: Seq<u8>)
    requires
        r.size == 4 + payload_bytes(r.data).len(),
        r.rec_type != constants::REC_TYPE_ENDLIB,
        (match parse_data(r.data_type, payload_bytes(r.data)) {
            Ok(d) => step(
                s,
                RecordV { size: r.size, rec_type: r.rec_type, data_type: r.data_type, data: d },
            ) == Ok::<DecStateV, GdsError>(s2),
            Err(e) => false,
        }),
    ensures
        spec_run(s, record_bytes(r) + rest) == spec_run(s2, rest),
{
    lemma_parse_gen(r, rest);
    let b = record_bytes(r) + rest;
    assert(b.len() > 0);
    assert(4 <= r.size <= b.len());
}

/// The parameters whose record round-trips exactly: lists and texts
/// that fit their record's byte count, and real values that are
/// stable under the real codec.
pub open spec fn param_round_trippable(p: ParamV) -> bool {
    match p {
        ParamV::XY(pts) => pts.len() <= 8191,
        ParamV::ColRow(v) => v.len() <= 32765,
        ParamV::StructureName(s) => encode_utf8(s).len() <= 65531,
        ParamV::Str(s) => encode_utf8(s).len() <= 65531,
        ParamV::Magnification(b) => real64_round_trip_safe(b),
        ParamV::Angle(b) => real64_round_trip_safe(b),
        _ => true,
    }
}

/// The elements whose records round-trip exactly: a set element type
/// and round-trippable parameters.
pub open spec fn elem_round_trippable(e: ElementV) -> bool {
    e.element_type != ElementType::Unset && forall|i: int|
        0 <= i < e.parameters.len() ==> param_round_trippable(#[trigger] e.parameters[i])
}

/// The structures whose records round-trip exactly.
pub open spec fn struct_round_trippable(s: StructureV) -> bool {
    encode_utf8(s.name).len() <= 65531 && forall|j: int|
        0 <= j < s.elements.len() ==> elem_round_trippable(#[trigger] s.elements[j])
}

/// The libraries whose encoding round-trips exactly: stable unit
/// factors, a name that fits its record, round-trippable structures.
pub open spec fn lib_round_trippable(l: LibraryV) -> bool {
    real64_round_trip_safe(l.units_user) && real64_round_trip_safe(l.units_m) && encode_utf8(
        l.name,
    ).len() <= 65531 && forall|k: int|
        0 <= k < l.structures.len() ==> struct_round_trippable(#[trigger] l.structures[k])
}

#[verifier::spinoff_prover]
#[verifier::rlimit(100)]
proof fn lemma_run_param(s: DecStateV, p: ParamV, rest: Seq<u8>)
    requires
        param_round_trippable(p),
    ensures
        spec_run(s, record_bytes(param_record(p)) + rest) == spec_run(push_param(s, p), rest),
{
    let r = param_record(p);
    match p {
        ParamV::Layer(x) => {
            lemma_payload_single(RecordDataV::Int16(x));
            lemma_parse_data_fixed(constants::DATA_TYPE_INT16, seq![RecordDataV::Int16(x)]);
            lemma_run_one(s, r, push_param(s, p), rest);
        },
        ParamV::XY(pts) => {
            assert(forall|k: int|
                0 <= k < xy_data(pts).len() ==> data_matches(
                    constants::DATA_TYPE_INT32,
                    #[trigger] xy_data(pts)[k],
                ));
            lemma_payload_len(constants::DATA_TYPE_INT32, xy_data(pts));
            assert(4 * (2 * pts.len()) == 8 * pts.len()) by (nonlinear_arith);
            lemma_parse_data_fixed(constants::DATA_TYPE_INT32, xy_data(pts));
            lemma_xy_pairs_data(pts);
            lemma_run_one(s, r, push_param(s, p), rest);
        },
        ParamV::Datatype(x) => {
            lemma_payload_single(RecordDataV::Int16(x));
            lemma_parse_data_fixed(constants::DATA_TYPE_INT16, seq![RecordDataV::Int16(x)]);
            lemma_run_one(s, r, push_param(s, p), rest);
        },
        ParamV::Width(x) => {
            lemma_payload_single(RecordDataV::Int32(x));
            lemma_parse_data_fixed(constants::DATA_TYPE_INT32, seq![RecordDataV::Int32(x)]);
            lemma_run_one(s, r, push_param(s, p), rest);
        },
        ParamV::StructureName(t) => {
            lemma_payload_single(RecordDataV::Str(t));
            lemma_parse_str_data(t);
            lemma_run_one(s, r, push_param(s, p), rest);
        },
        ParamV::ColRow(v) => {
            assert(forall|k: int|
                0 <= k < colrow_data(v).len() ==> data_matches(
                    constants::DATA_TYPE_INT16,
                    #[trigger] colrow_data(v)[k],
                ));
            lemma_payload_len(constants::DATA_TYPE_INT16, colrow_data(v));
            lemma_parse_data_fixed(constants::DATA_TYPE_INT16, colrow_data(v));
            lemma_colrow_vals_data(v);
            lemma_run_one(s, r, push_param(s, p), rest);
        },
        ParamV::TextType(x) => {
            lemma_payload_single(RecordDataV::Int16(x));
            lemma_parse_data_fixed(constants::DATA_TYPE_INT16, seq![RecordDataV::Int16(x)]);
            lemma_run_one(s, r, push_param(s, p), rest);
        },
        ParamV::Presentation(x) => {
            lemma_payload_single(RecordDataV::Bit(x));
            lemma_parse_data_fixed(constants::DATA_TYPE_BIT, seq![RecordDataV::Bit(x)]);
            lemma_run_one(s, r, push_param(s, p), rest);
        },
        ParamV::Str(t) => {
            lemma_payload_single(RecordDataV::Str(t));
            lemma_parse_str_data(t);
            lemma_run_one(s, r, push_param(s, p), rest);
        },
        ParamV::StrTransf(x) => {
            lemma_payload_single(RecordDataV::Bit(x));
            lemma_parse_data_fixed(constants::DATA_TYPE_BIT, seq![RecordDataV::Bit(x)]);
            lemma_run_one(s, r, push_param(s, p), rest);
        },
        ParamV::Magnification(b) => {
            lemma_payload_single(RecordDataV::Real64(real64_to_gds(b)));
            lemma_parse_data_fixed(
                constants::DATA_TYPE_REAL64,
                seq![RecordDataV::Real64(real64_to_gds(b))],
            );
            lemma_real64_round_trip(b);
            lemma_run_one(s, r, push_param(s, p), rest);
        },
        ParamV::Angle(b) => {
            lemma_payload_single(RecordDataV::Real64(real64_to_gds(b)));
            lemma_parse_data_fixed(
                constants::DATA_TYPE_REAL64,
                seq![RecordDataV::Real64(real64_to_gds(b))],
            );
            lemma_real64_round_trip(b);
            lemma_run_one(s, r, push_param(s, p), rest);
        },
        ParamV::Pathtype(x) => {
            lemma_payload_single(RecordDataV::Int16(x));
            lemma_parse_data_fixed(constants::DATA_TYPE_INT16, seq![RecordDataV::Int16(x)]);
            lemma_run_one(s, r, push_param(s, p), rest);
        },
        ParamV::EFlags(x) => {
            lemma_payload_single(RecordDataV::Bit(x));
            lemma_parse_data_fixed(constants::DATA_TYPE_BIT, seq![RecordDataV::Bit(x)]);
            lemma_run_one(s, r, push_param(s, p), rest);
        },
        ParamV::Nodetype(x) => {
            lemma_payload_single(RecordDataV::Int16(x));
            lemma_parse_data_fixed(constants::DATA_TYPE_INT16, seq![RecordDataV::Int16(x)]);
            lemma_run_one(s, r, push_param(s, p), rest);
        },
        ParamV::BeginExt(x) => {
            lemma_payload_single(RecordDataV::Int32(x));
            lemma_parse_data_fixed(constants::DATA_TYPE_INT32, seq![RecordDataV::Int32(x)]);
            lemma_run_one(s, r, push_param(s, p), rest);
        },
    }
}

/// The state after appending a whole parameter list.
pub open spec fn push_params(s: DecStateV, ps: Seq<ParamV>) -> DecStateV
    decreases ps.len(),
{
    if ps.len() == 0 {
        s
    } else {
        push_params(push_param(s, ps[0]), ps.drop_first())
    }
}

proof fn lemma_push_params_fields(s: DecStateV, ps: Seq<ParamV>)
    ensures
        push_params(s, ps).cur_elem.element_type == s.cur_elem.element_type,
        push_params(s, ps).cur_elem.parameters == s.cur_elem.parameters + ps,
        push_params(s, ps).version == s.version,
        push_params(s, ps).name == s.name,
        push_params(s, ps).date_mod == s.date_mod,
        push_params(s, ps).date_acc == s.date_acc,
        push_params(s, ps).units_user == s.units_user,
        push_params(s, ps).units_m == s.units_m,
        push_params(s, ps).structures == s.structures,
        push_params(s, ps).cur_struct == s.cur_struct,
        push_params(s, ps).struct_open == s.struct_open,
        push_params(s, ps).elem_open == (s.elem_open || ps.len() > 0),
    decreases ps.len(),
{
    if ps.len() == 0 {
        assert(s.cur_elem.parameters + ps =~= s.cur_elem.parameters);
    } else {
        lemma_push_params_fields(push_param(s, ps[0]), ps.drop_first());
        assert(s.cur_elem.parameters.push(ps[0]) + ps.drop_first() =~= s.cur_elem.parameters
            + ps);
    }
}

proof fn lemma_run_params(s: DecStateV, ps: Seq<ParamV>, rest: Seq<u8>)
    requires
        forall|i: int| 0 <= i < ps.len() ==> param_round_trippable(#[trigger] ps[i]),
    ensures
        spec_run(s, records_bytes(param_records(ps)) + rest) == spec_run(push_params(s, ps), rest),
    decreases ps.len(),
{
    if ps.len() == 0 {
        assert(records_bytes(param_records(ps)) + rest =~= rest);
    } else {
        let p = ps[0];
        assert(param_records(ps) == seq![param_record(p)] + param_records(ps.drop_first()));
        lemma_records_bytes_concat(seq![param_record(p)], param_records(ps.drop_first()));
        assert(seq![param_record(p)].drop_first() =~= Seq::<RecordV>::empty());
        assert(records_bytes(Seq::<RecordV>::empty()) == Seq::<u8>::empty());
        assert(records_bytes(seq![param_record(p)]) =~= record_bytes(param_record(p)));
        assert(records_bytes(param_records(ps)) + rest =~= record_bytes(param_record(p)) + (
        records_bytes(param_records(ps.drop_first())) + rest));
        lemma_run_param(s, p, records_bytes(param_records(ps.drop_first())) + rest);
        assert(forall|i: int|
            0 <= i < ps.drop_first().len() ==> param_round_trippable(
                #[trigger] ps.drop_first()[i],
            ));
        lemma_run_params(push_param(s, p), ps.drop_first(), rest);
    }
}

proof fn lemma_records_bytes_cons(r: RecordV, rs: Seq<RecordV>)
    ensures
        records_bytes(seq![r] + rs) == record_bytes(r) + records_bytes(rs),
{
    assert((seq![r] + rs)[0] == r);
    assert((seq![r] + rs).drop_first() =~= rs);
    assert((seq![r] + rs).len() > 0);
    assert(records_bytes(seq![r] + rs) == record_bytes((seq![r] + rs)[0]) + records_bytes(
        (seq![r] + rs).drop_first(),
    ));
}

/// The state after one whole element: it joins the structure in
/// progress and the element accumulator is fresh again.
pub open spec fn after_elem(s: DecStateV, e: ElementV) -> DecStateV {
    DecStateV {
        cur_struct: StructureV {
            elements: s.cur_struct.elements.push(e),
            ..s.cur_struct
        },
        cur_elem: fresh_elem(),
        elem_open: false,
        ..s
    }
}

#[verifier::spinoff_prover]
#[verifier::rlimit(100)]
proof fn lemma_run_elem(s: DecStateV, e: ElementV, rest: Seq<u8>)
    requires
        elem_round_trippable(e),
        s.cur_elem == fresh_elem(),
    ensures
        spec_run(s, records_bytes(elem_records(e)) + rest) == spec_run(after_elem(s, e), rest),
{
    let tr = none_rec(elem_type_tag(e.element_type));
    let endel = none_rec(constants::REC_TYPE_ENDEL);
    let prs = param_records(e.parameters);
    assert(elem_records(e) =~= seq![tr] + (prs + seq![endel]));
    lemma_records_bytes_cons(tr, prs + seq![endel]);
    lemma_records_bytes_concat(prs, seq![endel]);
    assert(seq![endel].drop_first() =~= Seq::<RecordV>::empty());
    assert(records_bytes(Seq::<RecordV>::empty()) == Seq::<u8>::empty());
    assert(records_bytes(seq![endel]) =~= record_bytes(endel));
    let rest2 = record_bytes(endel) + rest;
    let rest1 = records_bytes(prs) + rest2;
    assert(records_bytes(elem_records(e)) + rest =~= record_bytes(tr) + rest1);
    // the type-tag record sets the element type
    lemma_payload_single(RecordDataV::NoData);
    let s1 = set_elem_type(s, e.element_type);
    lemma_run_one(s, tr, s1, rest1);
    // the parameter records append the parameters in order
    assert(forall|i: int|
        0 <= i < e.parameters.len() ==> param_round_trippable(#[trigger] e.parameters[i]));
    lemma_run_params(s1, e.parameters, rest2);
    let s2 = push_params(s1, e.parameters);
    lemma_push_params_fields(s1, e.parameters);
    // the terminator pushes the finished element
    assert(s2.cur_elem.parameters =~= e.parameters);
    assert(s2.cur_elem == (ElementV { element_type: e.element_type, parameters: e.parameters }));
    assert(s2.cur_elem == e);
    let s3 = after_elem(s, e);
    lemma_run_one(s2, endel, s3, rest);
    assert(spec_run(s, records_bytes(elem_records(e)) + rest) == spec_run(s3, rest));
}

/// The state after a list of elements.
pub open spec fn after_elems(s: DecStateV, es: Seq<ElementV>) -> DecStateV
    decreases es.len(),
{
    if es.len() == 0 {
        s
    } else {
        after_elems(after_elem(s, es[0]), es.drop_first())
    }
}

proof fn lemma_after_elems_fields(s: DecStateV, es: Seq<ElementV>)
    ensures
        after_elems(s, es).cur_struct.name == s.cur_struct.name,
        after_elems(s, es).cur_struct.date_mod == s.cur_struct.date_mod,
        after_elems(s, es).cur_struct.date_acc == s.cur_struct.date_acc,
        after_elems(s, es).cur_struct.elements == s.cur_struct.elements + es,
        after_elems(s, es).cur_elem == (if es.len() == 0 {
            s.cur_elem
        } else {
            fresh_elem()
        }),
        after_elems(s, es).elem_open == (if es.len() == 0 {
            s.elem_open
        } else {
            false
        }),
        after_elems(s, es).version == s.version,
        after_elems(s, es).name == s.name,
        after_elems(s, es).date_mod == s.date_mod,
        after_elems(s, es).date_acc == s.date_acc,
        after_elems(s, es).units_user == s.units_user,
        after_elems(s, es).units_m == s.units_m,
        after_elems(s, es).structures == s.structures,
        after_elems(s, es).struct_open == s.struct_open,
    decreases es.len(),
{
    if es.len() == 0 {
        assert(s.cur_struct.elements + es =~= s.cur_struct.elements);
    } else {
        lemma_after_elems_fields(after_elem(s, es[0]), es.drop_first());
        assert(s.cur_struct.elements.push(es[0]) + es.drop_first() =~= s.cur_struct.elements
            + es);
    }
}

proof fn lemma_run_elems(s: DecStateV, es: Seq<ElementV>, rest: Seq<u8>)
    requires
        forall|j: int| 0 <= j < es.len() ==> elem_round_trippable(#[trigger] es[j]),
        s.cur_elem == fresh_elem(),
    ensures
        spec_run(s, records_bytes(elems_records(es)) + rest) == spec_run(after_elems(s, es), rest),
    decreases es.len(),
{
    if es.len() == 0 {
        assert(records_bytes(elems_records(es)) + rest =~= rest);
    } else {
        let e = es[0];
        assert(elems_records(es) == elem_records(e) + elems_records(es.drop_first()));
        lemma_records_bytes_concat(elem_records(e), elems_records(es.drop_first()));
        let rest1 = records_bytes(elems_records(es.drop_first())) + rest;
        assert(records_bytes(elems_records(es)) + rest =~= records_bytes(elem_records(e))
            + rest1);
        lemma_run_elem(s, e, rest1);
        assert(forall|j: int|
            0 <= j < es.drop_first().len() ==> elem_round_trippable(
                #[trigger] es.drop_first()[j],
            ));
        lemma_run_elems(after_elem(s, e), es.drop_first(), rest);
    }
}

#[verifier::spinoff_prover]
proof fn lemma_run_bgnstr(s: DecStateV, st: StructureV, rest: Seq<u8>)
    ensures
        spec_run(s, record_bytes(bgnstr_rec(st)) + rest) == spec_run(
            DecStateV {
                cur_struct: StructureV {
                    date_mod: st.date_mod,
                    date_acc: st.date_acc,
                    ..s.cur_struct
                },
                struct_open: true,
                ..s
            },
            rest,
        ),
{
    assert(forall|k: int|
        0 <= k < date_pair_data(st.date_mod, st.date_acc).len() ==> data_matches(
            constants::DATA_TYPE_INT16,
            #[trigger] date_pair_data(st.date_mod, st.date_acc)[k],
        ));
    lemma_payload_len(constants::DATA_TYPE_INT16, date_pair_data(st.date_mod, st.date_acc));
    lemma_parse_data_fixed(constants::DATA_TYPE_INT16, date_pair_data(st.date_mod, st.date_acc));
    lemma_date_pair(st.date_mod, st.date_acc);
    lemma_run_one(
        s,
        bgnstr_rec(st),
        DecStateV {
            cur_struct: StructureV {
                date_mod: st.date_mod,
                date_acc: st.date_acc,
                ..s.cur_struct
            },
            struct_open: true,
            ..s
        },
        rest,
    );
}

#[verifier::spinoff_prover]
proof fn lemma_run_strname(s: DecStateV, nm: Seq<char>, rest: Seq<u8>)
    requires
        encode_utf8(nm).len() <= 65531,
    ensures
        spec_run(s, record_bytes(str_rec(constants::REC_TYPE_STRNAME, nm)) + rest) == spec_run(
            DecStateV {
                cur_struct: StructureV { name: nm, ..s.cur_struct },
                struct_open: true,
                ..s
            },
            rest,
        ),
{
    lemma_payload_single(RecordDataV::Str(nm));
    lemma_parse_str_data(nm);
    lemma_run_one(
        s,
        str_rec(constants::REC_TYPE_STRNAME, nm),
        DecStateV {
            cur_struct: StructureV { name: nm, ..s.cur_struct },
            struct_open: true,
            ..s
        },
        rest,
    );
}

#[verifier::spinoff_prover]
proof fn lemma_run_endstr(s: DecStateV, rest: Seq<u8>)
    requires
        !s.elem_open,
    ensures
        spec_run(s, record_bytes(none_rec(constants::REC_TYPE_ENDSTR)) + rest) == spec_run(
            DecStateV {
                structures: s.structures.push(s.cur_struct),
                cur_struct: fresh_struct(),
                struct_open: false,
                ..s
            },
            rest,
        ),
{
    lemma_payload_single(RecordDataV::NoData);
    lemma_run_one(
        s,
        none_rec(constants::REC_TYPE_ENDSTR),
        DecStateV {
            structures: s.structures.push(s.cur_struct),
            cur_struct: fresh_struct(),
            struct_open: false,
            ..s
        },
        rest,
    );
}

/// The state after one whole structure: it joins the finished list
/// and both accumulators are fresh again.
pub open spec fn after_struct(s: DecStateV, st: StructureV) -> DecStateV {
    DecStateV {
        structures: s.structures.push(st),
        cur_struct: fresh_struct(),
        struct_open: false,
        ..s
    }
}

#[verifier::spinoff_prover]
#[verifier::rlimit(100)]
proof fn lemma_run_struct(s: DecStateV, st: StructureV, rest: Seq<u8>)
    requires
        struct_round_trippable(st),
        s.cur_struct == fresh_struct(),
        s.cur_elem == fresh_elem(),
        s.elem_open == false,
    ensures
        spec_run(s, records_bytes(struct_records(st)) + rest) == spec_run(
            after_struct(s, st),
            rest,
        ),
{
    let bg = bgnstr_rec(st);
    let sn = str_rec(constants::REC_TYPE_STRNAME, st.name);
    let endstr = none_rec(constants::REC_TYPE_ENDSTR);
    let ers = elems_records(st.elements);
    assert(struct_records(st) =~= seq![bg] + (seq![sn] + (ers + seq![endstr])));
    lemma_records_bytes_cons(bg, seq![sn] + (ers + seq![endstr]));
    lemma_records_bytes_cons(sn, ers + seq![endstr]);
    lemma_records_bytes_concat(ers, seq![endstr]);
    assert(seq![endstr].drop_first() =~= Seq::<RecordV>::empty());
    assert(records_bytes(Seq::<RecordV>::empty()) == Seq::<u8>::empty());
    assert(records_bytes(seq![endstr]) =~= record_bytes(endstr));
    let rest3 = record_bytes(endstr) + rest;
    let rest2 = records_bytes(ers) + rest3;
    let rest1 = record_bytes(sn) + rest2;
    assert(records_bytes(struct_records(st)) + rest =~= record_bytes(bg) + rest1);
    // the begin record sets the date pair
    lemma_run_bgnstr(s, st, rest1);
    let s1 = DecStateV {
        cur_struct: StructureV {
            date_mod: st.date_mod,
            date_acc: st.date_acc,
            ..s.cur_struct
        },
        struct_open: true,
        ..s
    };
    // the name record sets the name
    lemma_run_strname(s1, st.name, rest2);
    let s2 = DecStateV {
        cur_struct: StructureV { name: st.name, ..s1.cur_struct },
        struct_open: true,
        ..s1
    };
    // the elements join in order
    assert(forall|j: int|
        0 <= j < st.elements.len() ==> elem_round_trippable(#[trigger] st.elements[j]));
    lemma_run_elems(s2, st.elements, rest3);
    let s3 = after_elems(s2, st.elements);
    lemma_after_elems_fields(s2, st.elements);
    // the terminator pushes the finished structure
    assert(s3.cur_struct.elements =~= st.elements);
    assert(s3.cur_struct == (StructureV {
        name: st.name,
        date_mod: st.date_mod,
        date_acc: st.date_acc,
        elements: st.elements,
    }));
    assert(s3.cur_struct == st);
    assert(s3.elem_open == false);
    lemma_run_endstr(s3, rest);
    assert(DecStateV {
        structures: s3.structures.push(s3.cur_struct),
        cur_struct: fresh_struct(),
        struct_open: false,
        ..s3
    } == after_struct(s, st));
}

/// The state after a list of structures.
pub open spec fn after_structs(s: DecStateV, ss: Seq<StructureV>) -> DecStateV
    decreases ss.len(),
{
    if ss.len() == 0 {
        s
    } else {
        after_structs(after_struct(s, ss[0]), ss.drop_first())
    }
}

proof fn lemma_after_structs_fields(s: DecStateV, ss: Seq<StructureV>)
    ensures
        after_structs(s, ss).structures == s.structures + ss,
        after_structs(s, ss).cur_struct == (if ss.len() == 0 {
            s.cur_struct
        } else {
            fresh_struct()
        }),
        after_structs(s, ss).struct_open == (if ss.len() == 0 {
            s.struct_open
        } else {
            false
        }),
        after_structs(s, ss).cur_elem == s.cur_elem,
        after_structs(s, ss).elem_open == s.elem_open,
        after_structs(s, ss).version == s.version,
        after_structs(s, ss).name == s.name,
        after_structs(s, ss).date_mod == s.date_mod,
        after_structs(s, ss).date_acc == s.date_acc,
        after_structs(s, ss).units_user == s.units_user,
        after_structs(s, ss).units_m == s.units_m,
    decreases ss.len(),
{
    if ss.len() == 0 {
        assert(s.structures + ss =~= s.structures);
    } else {
        lemma_after_structs_fields(after_struct(s, ss[0]), ss.drop_first());
        assert(s.structures.push(ss[0]) + ss.drop_first() =~= s.structures + ss);
    }
}

proof fn lemma_run_structs(s: DecStateV, ss: Seq<StructureV>, rest: Seq<u8>)
    requires
        forall|k: int| 0 <= k < ss.len() ==> struct_round_trippable(#[trigger] ss[k]),
        s.cur_struct == fresh_struct(),
        s.cur_elem == fresh_elem(),
        s.elem_open == false,
    ensures
        spec_run(s, records_bytes(structs_records(ss)) + rest) == spec_run(
            after_structs(s, ss),
            rest,
        ),
    decreases ss.len(),
{
    if ss.len() == 0 {
        assert(records_bytes(structs_records(ss)) + rest =~= rest);
    } else {
        let st = ss[0];
        assert(structs_records(ss) == struct_records(st) + structs_records(ss.drop_first()));
        lemma_records_bytes_concat(struct_records(st), structs_records(ss.drop_first()));
        let rest1 = records_bytes(structs_records(ss.drop_first())) + rest;
        assert(records_bytes(structs_records(ss)) + rest =~= records_bytes(struct_records(st))
            + rest1);
        lemma_run_struct(s, st, rest1);
        assert(forall|k: int|
            0 <= k < ss.drop_first().len() ==> struct_round_trippable(
                #[trigger] ss.drop_first()[k],
            ));
        lemma_run_structs(after_struct(s, st), ss.drop_first(), rest);
    }
}

/// Round trip: decoding the encoding of any round-trippable library
/// restores it field for field — version, name, both date pairs, both
/// unit factors, and every structure, element and parameter in order.
#[verifier::spinoff_prover]
#[verifier::rlimit(100)]
pub proof fn lemma_library_round_trip(l: LibraryV)
    requires
        lib_round_trippable(l),
    ensures
        spec_read(lib_bytes(l)) == Ok::<LibraryV, GdsError>(l),
{
    let h0 = i16_rec(constants::REC_TYPE_HEADER, l.version);
    let h1 = RecordV {
        size: 28,
        rec_type: constants::REC_TYPE_BGNLIB,
        data_type: constants::DATA_TYPE_INT16,
        data: date_pair_data(l.date_mod, l.date_acc),
    };
    let h2 = str_rec(constants::REC_TYPE_LIBNAME, l.name);
    let h3 = RecordV {
        size: 20,
        rec_type: constants::REC_TYPE_UNITS,
        data_type: constants::DATA_TYPE_REAL64,
        data: seq![
            RecordDataV::Real64(real64_to_gds(l.units_user)),
            RecordDataV::Real64(real64_to_gds(l.units_m)),
        ],
    };
    let endlib = none_rec(constants::REC_TYPE_ENDLIB);
    let srs = structs_records(l.structures);
    assert(lib_records(l) =~= seq![h0] + (seq![h1] + (seq![h2] + (seq![h3] + (srs + seq![
        endlib,
    ])))));
    lemma_records_bytes_cons(h0, seq![h1] + (seq![h2] + (seq![h3] + (srs + seq![endlib]))));
    lemma_records_bytes_cons(h1, seq![h2] + (seq![h3] + (srs + seq![endlib])));
    lemma_records_bytes_cons(h2, seq![h3] + (srs + seq![endlib]));
    lemma_records_bytes_cons(h3, srs + seq![endlib]);
    lemma_records_bytes_concat(srs, seq![endlib]);
    assert(seq![endlib].drop_first() =~= Seq::<RecordV>::empty());
    assert(records_bytes(Seq::<RecordV>::empty()) == Seq::<u8>::empty());
    assert(records_bytes(seq![endlib]) =~= record_bytes(endlib));
    let rest5 = record_bytes(endlib);
    let rest4 = records_bytes(srs) + rest5;
    let rest3 = record_bytes(h3) + rest4;
    let rest2 = record_bytes(h2) + rest3;
    let rest1 = record_bytes(h1) + rest2;
    assert(lib_bytes(l) =~= record_bytes(h0) + rest1);
    let s0 = init_state();
    // version
    lemma_payload_single(RecordDataV::Int16(l.version));
    lemma_parse_data_fixed(constants::DATA_TYPE_INT16, seq![RecordDataV::Int16(l.version)]);
    let s1 = DecStateV { version: l.version, ..s0 };
    lemma_run_one(s0, h0, s1, rest1);
    // date pair
    assert(forall|k: int|
        0 <= k < date_pair_data(l.date_mod, l.date_acc).len() ==> data_matches(
            constants::DATA_TYPE_INT16,
            #[trigger] date_pair_data(l.date_mod, l.date_acc)[k],
        ));
    lemma_payload_len(constants::DATA_TYPE_INT16, date_pair_data(l.date_mod, l.date_acc));
    lemma_parse_data_fixed(constants::DATA_TYPE_INT16, date_pair_data(l.date_mod, l.date_acc));
    lemma_date_pair(l.date_mod, l.date_acc);
    let s2 = DecStateV { date_mod: l.date_mod, date_acc: l.date_acc, ..s1 };
    lemma_run_one(s1, h1, s2, rest2);
    // name
    lemma_payload_single(RecordDataV::Str(l.name));
    lemma_parse_str_data(l.name);
    let s3 = DecStateV { name: l.name, ..s2 };
    lemma_run_one(s2, h2, s3, rest3);
    // unit factors, stable under the real codec
    assert(forall|k: int|
        0 <= k < h3.data.len() ==> data_matches(
            constants::DATA_TYPE_REAL64,
            #[trigger] h3.data[k],
        ));
    lemma_payload_len(constants::DATA_TYPE_REAL64, h3.data);
    lemma_parse_data_fixed(constants::DATA_TYPE_REAL64, h3.data);
    lemma_real64_round_trip(l.units_user);
    lemma_real64_round_trip(l.units_m);
    let s4 = DecStateV { units_user: l.units_user, units_m: l.units_m, ..s3 };
    assert(real64_at(h3.data, 0) == l.units_user);
    assert(real64_at(h3.data, 1) == l.units_m);
    lemma_run_one(s3, h3, s4, rest4);
    // structures
    assert(forall|k: int|
        0 <= k < l.structures.len() ==> struct_round_trippable(#[trigger] l.structures[k]));
    lemma_run_structs(s4, l.structures, rest5);
    let s5 = after_structs(s4, l.structures);
    lemma_after_structs_fields(s4, l.structures);
    // the terminator finishes the library
    lemma_payload_single(RecordDataV::NoData);
    lemma_parse_gen(endlib, Seq::<u8>::empty());
    assert(record_bytes(endlib) + Seq::<u8>::empty() =~= rest5);
    assert(s5.elem_open == false);
    assert(s5.struct_open == false);
    assert(rest5.len() > 0);
    assert(spec_run(s5, rest5) == Ok::<LibraryV, GdsError>(crate::decoder::finish(s5)));
    assert(s5.structures =~= l.structures);
    assert(crate::decoder::finish(s5) == l);
}

/// Lenient parameter skip: a layer record whose first data value is
/// missing or does not decode as a 16-bit integer leaves the decoding
/// state — in particular the element's parameter sequence — unchanged,
/// and decoding proceeds without error.
pub proof fn lemma_mistyped_layer_skipped(s: DecStateV, r: RecordV)
    requires
        r.rec_type == constants::REC_TYPE_LAYER,
        r.data.len() == 0 || !(r.data[0] is Int16),
    ensures
        step(s, r) == Ok::<DecStateV, GdsError>(s),
{
}

/// Stable normal form: decoding an encoding and encoding the decoded
/// library again yields byte-identical output to the first encoding.
pub proof fn lemma_stable_normal_form(l: LibraryV)
    requires
        lib_round_trippable(l),
    ensures
        (match spec_read(lib_bytes(l)) {
            Ok(l2) => lib_bytes(l2) == lib_bytes(l),
            Err(_) => false,
        }),
{
    lemma_library_round_trip(l);
}

} // verus!
