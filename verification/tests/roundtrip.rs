use gds::model::{Date, Element, ElementParameter, ElementType, Library, Structure};

fn boundary_library() -> Library {
    let elem = Element {
        element_type: ElementType::Boundary,
        parameters: vec![
            ElementParameter::Layer(1),
            ElementParameter::XY(vec![(0, 0), (100, 0), (100, 100), (0, 100), (0, 0)]),
        ],
    };
    let stru = Structure {
        name: String::from("TOP"),
        date_mod: Date::new(),
        date_acc: Date::new(),
        elements: vec![elem],
    };
    let mut lib = Library::new(5, String::from("LIB1"));
    lib.structures.push(stru);
    lib
}

#[test]
fn minimal_boundary_round_trip() {
    let lib = boundary_library();
    let bytes = lib.write().unwrap();
    let back = Library::read(&bytes).unwrap();
    assert_eq!(back.version, 5);
    assert_eq!(back.name, "LIB1");
    assert_eq!(back.structures.len(), 1);
    let stru = &back.structures[0];
    assert_eq!(stru.name, "TOP");
    assert_eq!(stru.elements.len(), 1);
    let elem = &stru.elements[0];
    assert!(matches!(elem.element_type, ElementType::Boundary));
    assert_eq!(elem.parameters.len(), 2);
    match &elem.parameters[0] {
        ElementParameter::Layer(x) => assert_eq!(*x, 1),
        _ => panic!("expected a layer parameter"),
    }
    match &elem.parameters[1] {
        ElementParameter::XY(pts) => {
            assert_eq!(pts, &vec![(0, 0), (100, 0), (100, 100), (0, 100), (0, 0)]);
        },
        _ => panic!("expected a coordinate parameter"),
    }
}

#[test]
fn empty_library_exact_bytes() {
    let lib = Library::new(3, String::from("L"));
    let bytes = lib.write().unwrap();
    let mut expected: Vec<u8> = Vec::new();
    // HEADER, one int16 value
    expected.extend_from_slice(&[0, 6, 0x00, 0x02, 0, 3]);
    // BGNLIB, twelve int16 values: two 1970-01-01 00:00:00 dates
    expected.extend_from_slice(&[0, 28, 0x01, 0x02]);
    for _ in 0..2 {
        expected.extend_from_slice(&[0x07, 0xB2, 0, 1, 0, 1, 0, 0, 0, 0, 0, 0]);
    }
    // LIBNAME, one string value
    expected.extend_from_slice(&[0, 5, 0x02, 0x06, b'L']);
    // UNITS, two real64 values, both zero
    expected.extend_from_slice(&[0, 20, 0x03, 0x05]);
    expected.extend_from_slice(&[0x40, 0, 0, 0, 0, 0, 0, 0]);
    expected.extend_from_slice(&[0x40, 0, 0, 0, 0, 0, 0, 0]);
    // ENDLIB
    expected.extend_from_slice(&[0, 4, 0x04, 0x00]);
    assert_eq!(bytes, expected);
    let back = Library::read(&bytes).unwrap();
    assert_eq!(back.structures.len(), 0);
    assert_eq!(back.name, "L");
    assert_eq!(back.version, 3);
}

#[test]
fn encoding_is_stable_normal_form() {
    let mut lib = boundary_library();
    lib.units_user = 0.001f64.to_bits();
    lib.units_m = 1e-9f64.to_bits();
    let first = lib.write().unwrap();
    let decoded = Library::read(&first).unwrap();
    let second = decoded.write().unwrap();
    assert_eq!(first, second);
}

#[test]
fn units_round_trip_to_exact_doubles() {
    let mut lib = Library::new(5, String::from("U"));
    lib.units_user = 0.001f64.to_bits();
    lib.units_m = 1e-9f64.to_bits();
    let bytes = lib.write().unwrap();
    let back = Library::read(&bytes).unwrap();
    assert_eq!(f64::from_bits(back.units_user), 0.001);
    assert_eq!(f64::from_bits(back.units_m), 1e-9);
}

#[test]
fn all_parameter_kinds_round_trip() {
    let elem = Element {
        element_type: ElementType::Text,
        parameters: vec![
            ElementParameter::Layer(7),
            ElementParameter::Datatype(-3),
            ElementParameter::Width(-200),
            ElementParameter::StructureName(String::from("SUB")),
            ElementParameter::ColRow(vec![4, 9]),
            ElementParameter::TextType(2),
            ElementParameter::Presentation(0x0C00),
            ElementParameter::Str(String::from("hello")),
            ElementParameter::StrTransf(0x8000),
            ElementParameter::Magnification(2.5f64.to_bits()),
            ElementParameter::Angle((-90.0f64).to_bits()),
            ElementParameter::Pathtype(4),
            ElementParameter::EFlags(0x4000),
            ElementParameter::Nodetype(1),
            ElementParameter::BeginExt(-17),
            ElementParameter::XY(vec![(i32::MIN, i32::MAX), (-1, 1)]),
        ],
    };
    let stru = Structure {
        name: String::from("S"),
        date_mod: Date {
            year: 2024,
            month: 12,
            day: 31,
            hour: 23,
            minute: 59,
            second: 58,
        },
        date_acc: Date::new(),
        elements: vec![elem],
    };
    let mut lib = Library::new(600, String::from("ALL"));
    lib.date_mod = Date { year: 1999, month: 1, day: 2, hour: 3, minute: 4, second: 5 };
    lib.structures.push(stru);
    let bytes = lib.write().unwrap();
    let back = Library::read(&bytes).unwrap();
    assert_eq!(back.version, 600);
    assert_eq!(back.date_mod.year, 1999);
    let stru = &back.structures[0];
    assert_eq!(stru.date_mod.year, 2024);
    assert_eq!(stru.date_mod.second, 58);
    let elem = &stru.elements[0];
    assert!(matches!(elem.element_type, ElementType::Text));
    assert_eq!(elem.parameters.len(), 16);
    match &elem.parameters[3] {
        ElementParameter::StructureName(s) => assert_eq!(s, "SUB"),
        _ => panic!("expected a structure name"),
    }
    match &elem.parameters[9] {
        ElementParameter::Magnification(b) => assert_eq!(f64::from_bits(*b), 2.5),
        _ => panic!("expected a magnification"),
    }
    match &elem.parameters[10] {
        ElementParameter::Angle(b) => assert_eq!(f64::from_bits(*b), -90.0),
        _ => panic!("expected an angle"),
    }
    match &elem.parameters[15] {
        ElementParameter::XY(pts) => assert_eq!(pts, &vec![(i32::MIN, i32::MAX), (-1, 1)]),
        _ => panic!("expected coordinates"),
    }
    // a second pass is byte-identical
    assert_eq!(back.write().unwrap(), bytes);
}

#[test]
fn multiple_structures_keep_order() {
    let mut lib = Library::new(5, String::from("ORDER"));
    for name in ["A", "B", "C"] {
        lib.structures.push(Structure {
            name: String::from(name),
            date_mod: Date::new(),
            date_acc: Date::new(),
            elements: Vec::new(),
        });
    }
    let bytes = lib.write().unwrap();
    let back = Library::read(&bytes).unwrap();
    let names: Vec<&str> = back.structures.iter().map(|s| s.name.as_str()).collect();
    assert_eq!(names, vec!["A", "B", "C"]);
}
