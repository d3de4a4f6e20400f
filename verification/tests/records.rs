use gds::constants;
use gds::model::{Date, Element, ElementParameter, ElementType, Library, Structure};
use gds::record::{GdsError, Record, RecordData};

fn rec(size: u16, rec_type: u8, data_type: u8, payload: &[u8]) -> Vec<u8> {
    let mut v: Vec<u8> = Vec::new();
    v.extend_from_slice(&size.to_be_bytes());
    v.push(rec_type);
    v.push(data_type);
    v.extend_from_slice(payload);
    v
}

fn wrap_element(body: &[u8]) -> Vec<u8> {
    // HEADER .. UNITS, then BGNSTR/STRNAME, one element body, ENDSTR, ENDLIB
    let mut v = rec(6, constants::REC_TYPE_HEADER, constants::DATA_TYPE_INT16, &[0, 5]);
    v.extend(rec(4, constants::REC_TYPE_BGNLIB, constants::DATA_TYPE_INT16, &[]));
    v.extend(rec(5, constants::REC_TYPE_LIBNAME, constants::DATA_TYPE_STR, b"L"));
    v.extend(rec(4, constants::REC_TYPE_UNITS, constants::DATA_TYPE_REAL64, &[]));
    v.extend(rec(4, constants::REC_TYPE_BGNSTR, constants::DATA_TYPE_INT16, &[]));
    v.extend(rec(5, constants::REC_TYPE_STRNAME, constants::DATA_TYPE_STR, b"T"));
    v.extend_from_slice(body);
    v.extend(rec(4, constants::REC_TYPE_ENDSTR, constants::DATA_TYPE_NONE, &[]));
    v.extend(rec(4, constants::REC_TYPE_ENDLIB, constants::DATA_TYPE_NONE, &[]));
    v
}

#[test]
fn framing_trailing_partial_element_is_discarded() {
    // length 10 with 4-byte elements: one full value, two bytes dropped
    let bytes = rec(10, constants::REC_TYPE_XY, constants::DATA_TYPE_INT32, &[
        0,
        0,
        0,
        7,
        0xAA,
        0xBB,
    ]);
    let (record, newpos) = Record::read(&bytes, 0).unwrap();
    assert_eq!(newpos, 10);
    assert_eq!(record.size, 10);
    assert_eq!(record.data.len(), 1);
    match &record.data[0] {
        RecordData::Int32(x) => assert_eq!(*x, 7),
        _ => panic!("expected a 32-bit integer"),
    }
}

#[test]
fn lenient_skip_of_mistyped_layer() {
    // a LAYER record carrying an int32 payload appends no parameter
    let mut body = rec(4, constants::REC_TYPE_BOUNDARY, constants::DATA_TYPE_NONE, &[]);
    body.extend(rec(8, constants::REC_TYPE_LAYER, constants::DATA_TYPE_INT32, &[0, 0, 0, 1]));
    body.extend(rec(4, constants::REC_TYPE_ENDEL, constants::DATA_TYPE_NONE, &[]));
    let lib = Library::read(&wrap_element(&body)).unwrap();
    let elem = &lib.structures[0].elements[0];
    assert!(matches!(elem.element_type, ElementType::Boundary));
    assert_eq!(elem.parameters.len(), 0);
}

#[test]
fn well_typed_layer_is_kept() {
    let mut body = rec(4, constants::REC_TYPE_BOUNDARY, constants::DATA_TYPE_NONE, &[]);
    body.extend(rec(6, constants::REC_TYPE_LAYER, constants::DATA_TYPE_INT16, &[0xFF, 0xFE]));
    body.extend(rec(4, constants::REC_TYPE_ENDEL, constants::DATA_TYPE_NONE, &[]));
    let lib = Library::read(&wrap_element(&body)).unwrap();
    let elem = &lib.structures[0].elements[0];
    assert_eq!(elem.parameters.len(), 1);
    match &elem.parameters[0] {
        ElementParameter::Layer(x) => assert_eq!(*x, -2),
        _ => panic!("expected a layer parameter"),
    }
}

#[test]
fn unknown_record_types_are_ignored() {
    // tag 0x14 has no decode rule; its record is consumed whole
    let mut body = rec(4, constants::REC_TYPE_BOUNDARY, constants::DATA_TYPE_NONE, &[]);
    body.extend(rec(8, 0x14, constants::DATA_TYPE_INT16, &[0, 1, 0, 2]));
    body.extend(rec(4, constants::REC_TYPE_ENDEL, constants::DATA_TYPE_NONE, &[]));
    let lib = Library::read(&wrap_element(&body)).unwrap();
    assert_eq!(lib.structures[0].elements[0].parameters.len(), 0);
}

#[test]
fn error_truncated_record() {
    let bytes = rec(12, constants::REC_TYPE_XY, constants::DATA_TYPE_INT32, &[0, 0, 0, 7]);
    assert_eq!(Record::read(&bytes, 0).unwrap_err(), GdsError::Truncated);
    assert_eq!(Library::read(&bytes).unwrap_err(), GdsError::Truncated);
}

#[test]
fn error_bad_record_length() {
    let bytes = vec![0, 3, 0, 0];
    assert_eq!(Record::read(&bytes, 0).unwrap_err(), GdsError::BadRecordLength);
}

#[test]
fn error_unknown_data_type() {
    let bytes = rec(6, constants::REC_TYPE_LAYER, 0x07, &[0, 1]);
    assert_eq!(Record::read(&bytes, 0).unwrap_err(), GdsError::UnknownDataType);
}

#[test]
fn error_invalid_utf8_string() {
    let bytes = rec(6, constants::REC_TYPE_LIBNAME, constants::DATA_TYPE_STR, &[0xFF, 0xFE]);
    assert_eq!(Record::read(&bytes, 0).unwrap_err(), GdsError::InvalidUtf8);
}

#[test]
fn error_unterminated_library() {
    let bytes = rec(6, constants::REC_TYPE_HEADER, constants::DATA_TYPE_INT16, &[0, 5]);
    assert_eq!(Library::read(&bytes).unwrap_err(), GdsError::UnterminatedLibrary);
    assert_eq!(Library::read(&[]).unwrap_err(), GdsError::UnterminatedLibrary);
}

#[test]
fn error_unterminated_structure() {
    let mut bytes = rec(4, constants::REC_TYPE_BGNSTR, constants::DATA_TYPE_INT16, &[]);
    bytes.extend(rec(4, constants::REC_TYPE_ENDLIB, constants::DATA_TYPE_NONE, &[]));
    assert_eq!(Library::read(&bytes).unwrap_err(), GdsError::UnterminatedStructure);
}

#[test]
fn error_unterminated_element() {
    let mut bytes = rec(4, constants::REC_TYPE_BOUNDARY, constants::DATA_TYPE_NONE, &[]);
    bytes.extend(rec(4, constants::REC_TYPE_ENDLIB, constants::DATA_TYPE_NONE, &[]));
    assert_eq!(Library::read(&bytes).unwrap_err(), GdsError::UnterminatedElement);

    // an open element at a structure terminator is the same fault
    let mut bytes = rec(4, constants::REC_TYPE_BGNSTR, constants::DATA_TYPE_INT16, &[]);
    bytes.extend(rec(4, constants::REC_TYPE_BOUNDARY, constants::DATA_TYPE_NONE, &[]));
    bytes.extend(rec(4, constants::REC_TYPE_ENDSTR, constants::DATA_TYPE_NONE, &[]));
    bytes.extend(rec(4, constants::REC_TYPE_ENDLIB, constants::DATA_TYPE_NONE, &[]));
    assert_eq!(Library::read(&bytes).unwrap_err(), GdsError::UnterminatedElement);
}

#[test]
fn error_unencodable_real() {
    let mut lib = Library::new(5, String::from("BIG"));
    lib.units_user = f64::MAX.to_bits();
    assert_eq!(lib.write().unwrap_err(), GdsError::UnencodableReal);

    let mut lib = Library::new(5, String::from("NAN"));
    lib.units_m = f64::NAN.to_bits();
    assert_eq!(lib.write().unwrap_err(), GdsError::UnencodableReal);
}

#[test]
fn error_oversize_record() {
    let name: String = std::iter::repeat('N').take(65532).collect();
    let lib = Library::new(5, name);
    assert_eq!(lib.write().unwrap_err(), GdsError::OversizeRecord);
}

#[test]
fn record_sizes_follow_payload() {
    let r = Record::new_single(
        constants::REC_TYPE_LAYER,
        constants::DATA_TYPE_INT16,
        RecordData::Int16(3),
    );
    assert_eq!(r.size, 6);
    let r = Record::new_single(
        constants::REC_TYPE_LIBNAME,
        constants::DATA_TYPE_STR,
        RecordData::Str(String::from("ABCD")),
    );
    assert_eq!(r.size, 8);
    let mut r = Record::new(
        constants::REC_TYPE_XY,
        constants::DATA_TYPE_INT32,
        vec![RecordData::Int32(1), RecordData::Int32(2)],
    );
    assert_eq!(r.size, 12);
    r.push_data(RecordData::Int32(3));
    assert_eq!(r.size, 16);
    let r = Record::new_none(constants::REC_TYPE_ENDLIB);
    assert_eq!(r.size, 4);
    assert_eq!(r.data.len(), 1);
}

#[test]
fn record_write_then_read() {
    let r = Record::new_single(
        constants::REC_TYPE_STRING,
        constants::DATA_TYPE_STR,
        RecordData::Str(String::from("text")),
    );
    let mut out: Vec<u8> = Vec::new();
    r.write(&mut out);
    assert_eq!(out, rec(8, constants::REC_TYPE_STRING, constants::DATA_TYPE_STR, b"text"));
    let (back, used) = Record::read(&out, 0).unwrap();
    assert_eq!(used, out.len());
    assert_eq!(back.size, 8);
    match &back.data[0] {
        RecordData::Str(s) => assert_eq!(s, "text"),
        _ => panic!("expected a string"),
    }
}

#[test]
fn data_size_table() {
    assert_eq!(gds::constants::data_size(constants::DATA_TYPE_NONE), 0);
    assert_eq!(gds::constants::data_size(constants::DATA_TYPE_BIT), 2);
    assert_eq!(gds::constants::data_size(constants::DATA_TYPE_INT16), 2);
    assert_eq!(gds::constants::data_size(constants::DATA_TYPE_INT32), 4);
    assert_eq!(gds::constants::data_size(constants::DATA_TYPE_REAL32), 4);
    assert_eq!(gds::constants::data_size(constants::DATA_TYPE_REAL64), 8);
    assert_eq!(gds::constants::data_size(constants::DATA_TYPE_STR), 0);
    assert_eq!(gds::constants::data_size(0x09), 0);
}

#[test]
fn multibyte_names_round_trip() {
    // the name has 2 chars but a 3-byte UTF-8 encoding
    let mut lib = Library::new(5, String::from("µm"));
    let bytes = lib.write().unwrap();
    // LIBNAME record: 4 header bytes plus 3 payload bytes
    assert!(bytes
        .windows(7)
        .any(|w| w == [0, 7, constants::REC_TYPE_LIBNAME, constants::DATA_TYPE_STR, 0xC2, 0xB5, b'm']));
    let back = Library::read(&bytes).unwrap();
    assert_eq!(back.name, "µm");
    lib.name = String::from("ok");
    assert_eq!(Library::read(&lib.write().unwrap()).unwrap().name, "ok");
}

#[test]
fn element_to_records_layout() {
    let elem = Element {
        element_type: ElementType::Path,
        parameters: vec![ElementParameter::Width(9), ElementParameter::Pathtype(1)],
    };
    let recs = elem.to_records();
    assert_eq!(recs.len(), 4);
    assert_eq!(recs[0].rec_type, constants::REC_TYPE_PATH);
    assert_eq!(recs[0].size, 4);
    assert_eq!(recs[1].rec_type, constants::REC_TYPE_WIDTH);
    assert_eq!(recs[1].size, 8);
    assert_eq!(recs[2].rec_type, constants::REC_TYPE_PATHTYPE);
    assert_eq!(recs[2].size, 6);
    assert_eq!(recs[3].rec_type, constants::REC_TYPE_ENDEL);
}

#[test]
fn date_to_record_data_is_six_int16() {
    let d = Date { year: 2001, month: 2, day: 3, hour: 4, minute: 5, second: 6 };
    let vals = d.to_record_data();
    assert_eq!(vals.len(), 6);
    match &vals[0] {
        RecordData::Int16(x) => assert_eq!(*x, 2001),
        _ => panic!("expected an int16"),
    }
    match &vals[5] {
        RecordData::Int16(x) => assert_eq!(*x, 6),
        _ => panic!("expected an int16"),
    }
}

#[test]
fn colrow_of_any_length_round_trips() {
    let elem = Element {
        element_type: ElementType::ArrayRef,
        parameters: vec![ElementParameter::ColRow(vec![1, 2, 3])],
    };
    let mut lib = Library::new(5, String::from("CR"));
    lib.structures.push(Structure {
        name: String::from("S"),
        date_mod: Date::new(),
        date_acc: Date::new(),
        elements: vec![elem],
    });
    let back = Library::read(&lib.write().unwrap()).unwrap();
    match &back.structures[0].elements[0].parameters[0] {
        ElementParameter::ColRow(v) => assert_eq!(v, &vec![1, 2, 3]),
        _ => panic!("expected column/row values"),
    }
}

#[test]
fn odd_xy_value_is_dropped() {
    // an XY record with three int32 values decodes to one pair
    let mut body = rec(4, constants::REC_TYPE_BOUNDARY, constants::DATA_TYPE_NONE, &[]);
    body.extend(rec(
        16,
        constants::REC_TYPE_XY,
        constants::DATA_TYPE_INT32,
        &[0, 0, 0, 1, 0, 0, 0, 2, 0, 0, 0, 3],
    ));
    body.extend(rec(4, constants::REC_TYPE_ENDEL, constants::DATA_TYPE_NONE, &[]));
    let lib = Library::read(&wrap_element(&body)).unwrap();
    match &lib.structures[0].elements[0].parameters[0] {
        ElementParameter::XY(pts) => assert_eq!(pts, &vec![(1, 2)]),
        _ => panic!("expected coordinates"),
    }
}
