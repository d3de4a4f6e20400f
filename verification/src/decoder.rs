//! The record-to-object-model decoder: one forward pass over the
//! record stream, folding each record into three accumulators (the
//! library fields, the structure in progress, the element in
//! progress), driven by the record-type tag.
//!
//! A mistyped or missing single parameter value is skipped silently,
//! by design: the format is long-lived and written by many encoders
//! with fields this codec does not model.  Framing faults, invalid
//! UTF-8 and missing terminators are hard errors.

use vstd::prelude::*;
use crate::constants;
use crate::model::{Date, Element, ElementParameter, ElementType, ElementV, Library, LibraryV,
    ParamV, Structure, StructureV};
use crate::record::{GdsError, Record, RecordData, RecordDataV, RecordV, spec_parse_record};
use crate::reals::real64_from_gds;

verus! {

/// The decoding accumulators.
pub struct DecStateV {
    pub version: i16,
    pub name: Seq<char>,
    pub date_mod: Date,
    pub date_acc: Date,
    pub units_user: u64,
    pub units_m: u64,
    pub structures: Seq<StructureV>,
    pub cur_struct: StructureV,
    pub cur_elem: ElementV,
    pub struct_open: bool,
    pub elem_open: bool,
}

/// A fresh structure accumulator.
pub open spec fn fresh_struct() -> StructureV {
    StructureV {
        name: Seq::empty(),
        date_mod: crate::model::spec_epoch_date(),
        date_acc: crate::model::spec_epoch_date(),
        elements: Seq::empty(),
    }
}

/// A fresh element accumulator.
pub open spec fn fresh_elem() -> ElementV {
    ElementV { element_type: ElementType::Unset, parameters: Seq::empty() }
}

/// The state a decode starts from.
pub open spec fn init_state() -> DecStateV {
    DecStateV {
        version: 0,
        name: Seq::empty(),
        date_mod: crate::model::spec_epoch_date(),
        date_acc: crate::model::spec_epoch_date(),
        units_user: 0,
        units_m: 0,
        structures: Seq::empty(),
        cur_struct: fresh_struct(),
        cur_elem: fresh_elem(),
        struct_open: false,
        elem_open: false,
    }
}

/// The 16-bit integer at position `i` of a record's data; 0 when it
/// is missing or of another shape.
pub open spec fn int16_at(data: Seq<RecordDataV>, i: int) -> i16 {
    if 0 <= i < data.len() {
        match data[i] {
            RecordDataV::Int16(x) => x,
            _ => 0,
        }
    } else {
        0
    }
}

/// The 32-bit integer at position `i` of a record's data; 0 when it
/// is missing or of another shape.
pub open spec fn int32_at(data: Seq<RecordDataV>, i: int) -> i32 {
    if 0 <= i < data.len() {
        match data[i] {
            RecordDataV::Int32(x) => x,
            _ => 0,
        }
    } else {
        0
    }
}

/// The decoded 64-bit real at position `i` of a record's data, as
/// IEEE-754 bits; 0 when it is missing or of another shape.
pub open spec fn real64_at(data: Seq<RecordDataV>, i: int) -> u64 {
    if 0 <= i < data.len() {
        match data[i] {
            RecordDataV::Real64(raw) => real64_from_gds(raw),
            _ => 0,
        }
    } else {
        0
    }
}

/// The string at the front of a record's data; empty when it is
/// missing or of another shape.
pub open spec fn first_str(data: Seq<RecordDataV>) -> Seq<char> {
    if data.len() > 0 {
        match data[0] {
            RecordDataV::Str(s) => s,
            _ => Seq::empty(),
        }
    } else {
        Seq::empty()
    }
}

/// A date from six consecutive 16-bit values, absent fields 0.
pub open spec fn date_at(data: Seq<RecordDataV>, off: int) -> Date {
    Date {
        year: int16_at(data, off),
        month: int16_at(data, off + 1),
        day: int16_at(data, off + 2),
        hour: int16_at(data, off + 3),
        minute: int16_at(data, off + 4),
        second: int16_at(data, off + 5),
    }
}

/// Coordinate pairs from a record's data, in order; an odd trailing
/// value is dropped, a value of another shape reads as 0.
pub open spec fn xy_pairs(data: Seq<RecordDataV>) -> Seq<(i32, i32)> {
    Seq::new((data.len() / 2) as nat, |i: int| (int32_at(data, 2 * i), int32_at(data, 2 * i + 1)))
}

/// Column/row values from a record's data, all of them, a value of
/// another shape reading as 0.
pub open spec fn colrow_vals(data: Seq<RecordDataV>) -> Seq<i16> {
    Seq::new(data.len(), |i: int| int16_at(data, i))
}

/// Appends a parameter to the element in progress and marks it open.
pub open spec fn push_param(s: DecStateV, p: ParamV) -> DecStateV {
    DecStateV {
        cur_elem: ElementV {
            element_type: s.cur_elem.element_type,
            parameters: s.cur_elem.parameters.push(p),
        },
        elem_open: true,
        ..s
    }
}

/// Sets the type of the element in progress and marks it open.
pub open spec fn set_elem_type(s: DecStateV, t: ElementType) -> DecStateV {
    DecStateV {
        cur_elem: ElementV { element_type: t, parameters: s.cur_elem.parameters },
        elem_open: true,
        ..s
    }
}

/// One transition of the decoder on any record but the library
/// terminator.  A parameter record whose first value is missing or of
/// the wrong shape changes nothing.  A structure terminator with an
/// element still open is an error; an unknown record type changes
/// nothing.
pub open spec fn step(s: DecStateV, r: RecordV) -> Result<DecStateV, GdsError> {
    let t = r.rec_type;
    let d = r.data;
    if t == constants::REC_TYPE_HEADER {
        Ok(DecStateV { version: int16_at(d, 0), ..s })
    } else if t == constants::REC_TYPE_BGNLIB {
        Ok(DecStateV { date_mod: date_at(d, 0), date_acc: date_at(d, 6), ..s })
    } else if t == constants::REC_TYPE_LIBNAME {
        Ok(DecStateV { name: first_str(d), ..s })
    } else if t == constants::REC_TYPE_UNITS {
        Ok(DecStateV { units_user: real64_at(d, 0), units_m: real64_at(d, 1), ..s })
    } else if t == constants::REC_TYPE_BGNSTR {
        Ok(
            DecStateV {
                cur_struct: StructureV {
                    date_mod: date_at(d, 0),
                    date_acc: date_at(d, 6),
                    ..s.cur_struct
                },
                struct_open: true,
                ..s
            },
        )
    } else if t == constants::REC_TYPE_STRNAME {
        Ok(
            DecStateV {
                cur_struct: StructureV { name: first_str(d), ..s.cur_struct },
                struct_open: true,
                ..s
            },
        )
    } else if t == constants::REC_TYPE_ENDSTR {
        if s.elem_open {
            Err(GdsError::UnterminatedElement)
        } else {
            Ok(
                DecStateV {
                    structures: s.structures.push(s.cur_struct),
                    cur_struct: fresh_struct(),
                    struct_open: false,
                    ..s
                },
            )
        }
    } else if t == constants::REC_TYPE_BOUNDARY {
        Ok(set_elem_type(s, ElementType::Boundary))
    } else if t == constants::REC_TYPE_PATH {
        Ok(set_elem_type(s, ElementType::Path))
    } else if t == constants::REC_TYPE_SREF {
        Ok(set_elem_type(s, ElementType::StructureRef))
    } else if t == constants::REC_TYPE_AREF {
        Ok(set_elem_type(s, ElementType::ArrayRef))
    } else if t == constants::REC_TYPE_TEXT {
        Ok(set_elem_type(s, ElementType::Text))
    } else if t == constants::REC_TYPE_NODE {
        Ok(set_elem_type(s, ElementType::Node))
    } else if t == constants::REC_TYPE_BOX {
        Ok(set_elem_type(s, ElementType::Box))
    } else if t == constants::REC_TYPE_ENDEL {
        Ok(
            DecStateV {
                cur_struct: StructureV {
                    elements: s.cur_struct.elements.push(s.cur_elem),
                    ..s.cur_struct
                },
                cur_elem: fresh_elem(),
                elem_open: false,
                ..s
            },
        )
    } else if t == constants::REC_TYPE_XY {
        Ok(push_param(s, ParamV::XY(xy_pairs(d))))
    } else if t == constants::REC_TYPE_COLROW {
        Ok(push_param(s, ParamV::ColRow(colrow_vals(d))))
    } else if t == constants::REC_TYPE_LAYER {
        if d.len() > 0 && d[0] is Int16 {
            Ok(push_param(s, ParamV::Layer(d[0]->Int16_0)))
        } else {
            Ok(s)
        }
    } else if t == constants::REC_TYPE_DATATYPE {
        if d.len() > 0 && d[0] is Int16 {
            Ok(push_param(s, ParamV::Datatype(d[0]->Int16_0)))
        } else {
            Ok(s)
        }
    } else if t == constants::REC_TYPE_WIDTH {
        if d.len() > 0 && d[0] is Int32 {
            Ok(push_param(s, ParamV::Width(d[0]->Int32_0)))
        } else {
            Ok(s)
        }
    } else if t == constants::REC_TYPE_SNAME {
        if d.len() > 0 && d[0] is Str {
            Ok(push_param(s, ParamV::StructureName(d[0]->Str_0)))
        } else {
            Ok(s)
        }
    } else if t == constants::REC_TYPE_TEXTTYPE {
        if d.len() > 0 && d[0] is Int16 {
            Ok(push_param(s, ParamV::TextType(d[0]->Int16_0)))
        } else {
            Ok(s)
        }
    } else if t == constants::REC_TYPE_PRESENTATION {
        if d.len() > 0 && d[0] is Bit {
            Ok(push_param(s, ParamV::Presentation(d[0]->Bit_0)))
        } else {
            Ok(s)
        }
    } else if t == constants::REC_TYPE_STRING {
        if d.len() > 0 && d[0] is Str {
            Ok(push_param(s, ParamV::Str(d[0]->Str_0)))
        } else {
            Ok(s)
        }
    } else if t == constants::REC_TYPE_STRANS {
        if d.len() > 0 && d[0] is Bit {
            Ok(push_param(s, ParamV::StrTransf(d[0]->Bit_0)))
        } else {
            Ok(s)
        }
    } else if t == constants::REC_TYPE_MAG {
        if d.len() > 0 && d[0] is Real64 {
            Ok(push_param(s, ParamV::Magnification(real64_from_gds(d[0]->Real64_0))))
        } else {
            Ok(s)
        }
    } else if t == constants::REC_TYPE_ANGLE {
        if d.len() > 0 && d[0] is Real64 {
            Ok(push_param(s, ParamV::Angle(real64_from_gds(d[0]->Real64_0))))
        } else {
            Ok(s)
        }
    } else if t == constants::REC_TYPE_PATHTYPE {
        if d.len() > 0 && d[0] is Int16 {
            Ok(push_param(s, ParamV::Pathtype(d[0]->Int16_0)))
        } else {
            Ok(s)
        }
    } else if t == constants::REC_TYPE_EFLAGS {
        if d.len() > 0 && d[0] is Bit {
            Ok(push_param(s, ParamV::EFlags(d[0]->Bit_0)))
        } else {
            Ok(s)
        }
    } else if t == constants::REC_TYPE_NODETYPE {
        if d.len() > 0 && d[0] is Int16 {
            Ok(push_param(s, ParamV::Nodetype(d[0]->Int16_0)))
        } else {
            Ok(s)
        }
    } else if t == constants::REC_TYPE_BGNEXTN {
        if d.len() > 0 && d[0] is Int32 {
            Ok(push_param(s, ParamV::BeginExt(d[0]->Int32_0)))
        } else {
            Ok(s)
        }
    } else {
        Ok(s)
    }
}

/// The library the accumulated fields describe.
pub open spec fn finish(s: DecStateV) -> LibraryV {
    LibraryV {
        version: s.version,
        name: s.name,
        date_mod: s.date_mod,
        date_acc: s.date_acc,
        units_user: s.units_user,
        units_m: s.units_m,
        structures: s.structures,
    }
}

/// The decode of a byte stream from a given state: records are read
/// and folded until the library terminator; a stream that ends
/// without one, or ends it with a structure or element still open,
/// is an error.
pub open spec fn spec_run(s: DecStateV, b: Seq<u8>) -> Result<LibraryV, GdsError>
    decreases b.len(),
{
    if b.len() == 0 {
        Err(GdsError::UnterminatedLibrary)
    } else {
        match spec_parse_record(b) {
            Err(e) => Err(e),
            Ok((r, c)) => {
                if r.rec_type == constants::REC_TYPE_ENDLIB {
                    if s.elem_open {
                        Err(GdsError::UnterminatedElement)
                    } else if s.struct_open {
                        Err(GdsError::UnterminatedStructure)
                    } else {
                        Ok(finish(s))
                    }
                } else {
                    match step(s, r) {
                        Err(e) => Err(e),
                        Ok(s2) => spec_run(s2, b.skip(c)),
                    }
                }
            },
        }
    }
}

/// The decode of a whole byte stream.
pub open spec fn spec_read(b: Seq<u8>) -> Result<LibraryV, GdsError> {
    spec_run(init_state(), b)
}

/// The decoding accumulators.
struct DecState {
    version: i16,
    name: String,
    date_mod: Date,
    date_acc: Date,
    units_user: u64,
    units_m: u64,
    structures: Vec<Structure>,
    cur_struct: Structure,
    cur_elem: Element,
    struct_open: bool,
    elem_open: bool,
}

impl View for DecState {
    type V = DecStateV;

    closed spec fn view(&self) -> DecStateV {
        DecStateV {
            version: self.version,
            name: self.name@,
            date_mod: self.date_mod,
            date_acc: self.date_acc,
            units_user: self.units_user,
            units_m: self.units_m,
            structures: self.structures.deep_view(),
            cur_struct: self.cur_struct@,
            cur_elem: self.cur_elem@,
            struct_open: self.struct_open,
            elem_open: self.elem_open,
        }
    }
}

fn int16_at_exec(data: &Vec<RecordData>, i: usize) -> (r: i16)
    ensures
        r == int16_at(data.deep_view(), i as int),
{
    if i < data.len() {
        match &data[i] {
            RecordData::Int16(x) => *x,
            _ => 0,
        }
    } else {
        0
    }
}

fn int32_at_exec(data: &Vec<RecordData>, i: usize) -> (r: i32)
    ensures
        r == int32_at(data.deep_view(), i as int),
{
    if i < data.len() {
        match &data[i] {
            RecordData::Int32(x) => *x,
            _ => 0,
        }
    } else {
        0
    }
}

fn real64_at_exec(data: &Vec<RecordData>, i: usize) -> (r: u64)
    ensures
        r == real64_at(data.deep_view(), i as int),
{
    if i < data.len() {
        match &data[i] {
            RecordData::Real64(raw) => crate::reals::gds_real_decode(*raw),
            _ => 0,
        }
    } else {
        0
    }
}

fn first_str_exec(data: &Vec<RecordData>) -> (r: String)
    ensures
        r@ == first_str(data.deep_view()),
{
    if data.len() > 0 {
        match &data[0] {
            RecordData::Str(s) => s.clone(),
            _ => String::new(),
        }
    } else {
        String::new()
    }
}

fn date_at_exec(data: &Vec<RecordData>, off: usize) -> (r: Date)
    requires
        off + 5 <= usize::MAX,
    ensures
        r == date_at(data.deep_view(), off as int),
{
    Date {
        year: int16_at_exec(data, off),
        month: int16_at_exec(data, off + 1),
        day: int16_at_exec(data, off + 2),
        hour: int16_at_exec(data, off + 3),
        minute: int16_at_exec(data, off + 4),
        second: int16_at_exec(data, off + 5),
    }
}

fn xy_pairs_exec(data: &Vec<RecordData>) -> (r: Vec<(i32, i32)>)
    ensures
        r@ == xy_pairs(data.deep_view()),
{
    let n: usize = data.len() / 2;
    let mut out: Vec<(i32, i32)> = Vec::new();
    let mut i: usize = 0;
    proof {
        assert(out@ =~= xy_pairs(data.deep_view()).take(0));
    }
    while i < n
        invariant
            i <= n,
            n == data.deep_view().len() / 2,
            data.deep_view().len() <= usize::MAX,
            out@ == xy_pairs(data.deep_view()).take(i as int),
        decreases n - i,
    {
        let x: i32 = int32_at_exec(data, 2 * i);
        let y: i32 = int32_at_exec(data, 2 * i + 1);
        out.push((x, y));
        proof {
            assert(out@ =~= xy_pairs(data.deep_view()).take(i + 1));
        }
        i = i + 1;
    }
    proof {
        assert(out@ =~= xy_pairs(data.deep_view()));
    }
    out
}

fn colrow_exec(data: &Vec<RecordData>) -> (r: Vec<i16>)
    ensures
        r@ == colrow_vals(data.deep_view()),
{
    let n: usize = data.len();
    let mut out: Vec<i16> = Vec::new();
    let mut i: usize = 0;
    proof {
        assert(out@ =~= colrow_vals(data.deep_view()).take(0));
    }
    while i < n
        invariant
            i <= n,
            n == data.deep_view().len(),
            out@ == colrow_vals(data.deep_view()).take(i as int),
        decreases n - i,
    {
        out.push(int16_at_exec(data, i));
        proof {
            assert(out@ =~= colrow_vals(data.deep_view()).take(i + 1));
        }
        i = i + 1;
    }
    proof {
        assert(out@ =~= colrow_vals(data.deep_view()));
    }
    out
}

impl DecState {
    fn init() -> (r: DecState)
        ensures
            r@ == init_state(),
    {
        let r = DecState {
            version: 0,
            name: String::new(),
            date_mod: Date::new(),
            date_acc: Date::new(),
            units_user: 0,
            units_m: 0,
            structures: Vec::new(),
            cur_struct: Structure::new(),
            cur_elem: Element::new(),
            struct_open: false,
            elem_open: false,
        };
        proof {
            assert(r@.structures =~= init_state().structures);
            assert(r@.cur_struct.elements =~= fresh_struct().elements);
            assert(r@.cur_struct.name =~= fresh_struct().name);
            assert(r@.cur_elem.parameters =~= fresh_elem().parameters);
            assert(r@.name =~= init_state().name);
        }
        r
    }

    fn push_parameter(&mut self, p: ElementParameter)
        ensures
            final(self)@ == push_param(old(self)@, p@),
    {
        let ghost pv: ParamV = p@;
        self.cur_elem.parameters.push(p);
        self.elem_open = true;
        proof {
            assert(self@.cur_elem.parameters =~= old(self)@.cur_elem.parameters.push(pv));
        }
    }

    fn set_type(&mut self, t: ElementType)
        ensures
            final(self)@ == set_elem_type(old(self)@, t),
    {
        self.cur_elem.element_type = t;
        self.elem_open = true;
    }

    /// One transition on any record but the library terminator.
    fn apply_record(&mut self, rec: &Record) -> (r: Result<(), GdsError>)
        ensures
            (match (r, step(old(self)@, rec@)) {
                (Ok(()), Ok(s2)) => final(self)@ == s2,
                (Err(e1), Err(e2)) => e1 == e2,
                _ => false,
            }),
    {
        let t: u8 = rec.rec_type;
        if t == constants::REC_TYPE_HEADER {
            self.version = int16_at_exec(&rec.data, 0);
            Ok(())
        } else if t == constants::REC_TYPE_BGNLIB {
            self.date_mod = date_at_exec(&rec.data, 0);
            self.date_acc = date_at_exec(&rec.data, 6);
            Ok(())
        } else if t == constants::REC_TYPE_LIBNAME {
            self.name = first_str_exec(&rec.data);
            Ok(())
        } else if t == constants::REC_TYPE_UNITS {
            self.units_user = real64_at_exec(&rec.data, 0);
            self.units_m = real64_at_exec(&rec.data, 1);
            Ok(())
        } else if t == constants::REC_TYPE_BGNSTR {
            self.cur_struct.date_mod = date_at_exec(&rec.data, 0);
            self.cur_struct.date_acc = date_at_exec(&rec.data, 6);
            self.struct_open = true;
            Ok(())
        } else if t == constants::REC_TYPE_STRNAME {
            self.cur_struct.name = first_str_exec(&rec.data);
            self.struct_open = true;
            Ok(())
        } else if t == constants::REC_TYPE_ENDSTR {
            if self.elem_open {
                Err(GdsError::UnterminatedElement)
            } else {
                let mut done = Structure::new();
                core::mem::swap(&mut done, &mut self.cur_struct);
                let ghost dv: StructureV = done@;
                self.structures.push(done);
                self.struct_open = false;
                proof {
                    assert(self@.structures =~= old(self)@.structures.push(dv));
                    assert(self@.cur_struct.elements =~= fresh_struct().elements);
                    assert(self@.cur_struct.name =~= fresh_struct().name);
                }
                Ok(())
            }
        } else if t == constants::REC_TYPE_BOUNDARY {
            self.set_type(ElementType::Boundary);
            Ok(())
        } else if t == constants::REC_TYPE_PATH {
            self.set_type(ElementType::Path);
            Ok(())
        } else if t == constants::REC_TYPE_SREF {
            self.set_type(ElementType::StructureRef);
            Ok(())
        } else if t == constants::REC_TYPE_AREF {
            self.set_type(ElementType::ArrayRef);
            Ok(())
        } else if t == constants::REC_TYPE_TEXT {
            self.set_type(ElementType::Text);
            Ok(())
        } else if t == constants::REC_TYPE_NODE {
            self.set_type(ElementType::Node);
            Ok(())
        } else if t == constants::REC_TYPE_BOX {
            self.set_type(ElementType::Box);
            Ok(())
        } else if t == constants::REC_TYPE_ENDEL {
            let mut done = Element::new();
            core::mem::swap(&mut done, &mut self.cur_elem);
            let ghost ev: ElementV = done@;
            self.cur_struct.elements.push(done);
            self.elem_open = false;
            proof {
                assert(self@.cur_struct.elements =~= old(self)@.cur_struct.elements.push(ev));
                assert(self@.cur_elem.parameters =~= fresh_elem().parameters);
            }
            Ok(())
        } else if t == constants::REC_TYPE_XY {
            self.push_parameter(ElementParameter::XY(xy_pairs_exec(&rec.data)));
            Ok(())
        } else if t == constants::REC_TYPE_COLROW {
            self.push_parameter(ElementParameter::ColRow(colrow_exec(&rec.data)));
            Ok(())
        } else if t == constants::REC_TYPE_LAYER {
            if rec.data.len() > 0 {
                match &rec.data[0] {
                    RecordData::Int16(x) => self.push_parameter(ElementParameter::Layer(*x)),
                    _ => {},
                }
            }
            Ok(())
        } else if t == constants::REC_TYPE_DATATYPE {
            if rec.data.len() > 0 {
                match &rec.data[0] {
                    RecordData::Int16(x) => self.push_parameter(ElementParameter::Datatype(*x)),
                    _ => {},
                }
            }
            Ok(())
        } else if t == constants::REC_TYPE_WIDTH {
            if rec.data.len() > 0 {
                match &rec.data[0] {
                    RecordData::Int32(x) => self.push_parameter(ElementParameter::Width(*x)),
                    _ => {},
                }
            }
            Ok(())
        } else if t == constants::REC_TYPE_SNAME {
            if rec.data.len() > 0 {
                match &rec.data[0] {
                    RecordData::Str(s) => self.push_parameter(
                        ElementParameter::StructureName(s.clone()),
                    ),
                    _ => {},
                }
            }
            Ok(())
        } else if t == constants::REC_TYPE_TEXTTYPE {
            if rec.data.len() > 0 {
                match &rec.data[0] {
                    RecordData::Int16(x) => self.push_parameter(ElementParameter::TextType(*x)),
                    _ => {},
                }
            }
            Ok(())
        } else if t == constants::REC_TYPE_PRESENTATION {
            if rec.data.len() > 0 {
                match &rec.data[0] {
                    RecordData::Bit(x) => self.push_parameter(ElementParameter::Presentation(*x)),
                    _ => {},
                }
            }
            Ok(())
        } else if t == constants::REC_TYPE_STRING {
            if rec.data.len() > 0 {
                match &rec.data[0] {
                    RecordData::Str(s) => self.push_parameter(ElementParameter::Str(s.clone())),
                    _ => {},
                }
            }
            Ok(())
        } else if t == constants::REC_TYPE_STRANS {
            if rec.data.len() > 0 {
                match &rec.data[0] {
                    RecordData::Bit(x) => self.push_parameter(ElementParameter::StrTransf(*x)),
                    _ => {},
                }
            }
            Ok(())
        } else if t == constants::REC_TYPE_MAG {
            if rec.data.len() > 0 {
                match &rec.data[0] {
                    RecordData::Real64(raw) => self.push_parameter(
                        ElementParameter::Magnification(crate::reals::gds_real_decode(*raw)),
                    ),
                    _ => {},
                }
            }
            Ok(())
        } else if t == constants::REC_TYPE_ANGLE {
            if rec.data.len() > 0 {
                match &rec.data[0] {
                    RecordData::Real64(raw) => self.push_parameter(
                        ElementParameter::Angle(crate::reals::gds_real_decode(*raw)),
                    ),
                    _ => {},
                }
            }
            Ok(())
        } else if t == constants::REC_TYPE_PATHTYPE {
            if rec.data.len() > 0 {
                match &rec.data[0] {
                    RecordData::Int16(x) => self.push_parameter(ElementParameter::Pathtype(*x)),
                    _ => {},
                }
            }
            Ok(())
        } else if t == constants::REC_TYPE_EFLAGS {
            if rec.data.len() > 0 {
                match &rec.data[0] {
                    RecordData::Bit(x) => self.push_parameter(ElementParameter::EFlags(*x)),
                    _ => {},
                }
            }
            Ok(())
        } else if t == constants::REC_TYPE_NODETYPE {
            if rec.data.len() > 0 {
                match &rec.data[0] {
                    RecordData::Int16(x) => self.push_parameter(ElementParameter::Nodetype(*x)),
                    _ => {},
                }
            }
            Ok(())
        } else if t == constants::REC_TYPE_BGNEXTN {
            if rec.data.len() > 0 {
                match &rec.data[0] {
                    RecordData::Int32(x) => self.push_parameter(ElementParameter::BeginExt(*x)),
                    _ => {},
                }
            }
            Ok(())
        } else {
            Ok(())
        }
    }
}

impl Library {
    /// Decodes a whole byte stream into a library: one forward pass
    /// over its records, ending at the library terminator.  Exactly
    /// the streams `spec_read` accepts are accepted, with its errors.
    pub fn read(data: &[u8]) -> (r: Result<Library, GdsError>)
        ensures
            (match (r, spec_read(data@)) {
                (Ok(lib), Ok(lv)) => lib@ == lv,
                (Err(e1), Err(e2)) => e1 == e2,
                _ => false,
            }),
    {
        let mut st: DecState = DecState::init();
        let mut pos: usize = 0;
        let _n: usize = data.len();
        proof {
            assert(data@.skip(0) =~= data@);
        }
        loop
            invariant
                pos <= data@.len(),
                data@.len() <= usize::MAX,
                spec_run(st@, data@.skip(pos as int)) == spec_read(data@),
            decreases data@.len() - pos,
        {
            let ghost b: Seq<u8> = data@.skip(pos as int);
            if pos == data.len() {
                return Err(GdsError::UnterminatedLibrary);
            }
            match Record::read(data, pos) {
                Err(e) => {
                    return Err(e);
                },
                Ok((rec, newpos)) => {
                    proof {
                        assert(b.len() > 0);
                    }
                    if rec.rec_type == constants::REC_TYPE_ENDLIB {
                        if st.elem_open {
                            return Err(GdsError::UnterminatedElement);
                        }
                        if st.struct_open {
                            return Err(GdsError::UnterminatedStructure);
                        }
                        let lib = Library {
                            version: st.version,
                            name: st.name,
                            date_mod: st.date_mod,
                            date_acc: st.date_acc,
                            units_user: st.units_user,
                            units_m: st.units_m,
                            structures: st.structures,
                        };
                        return Ok(lib);
                    }
                    match st.apply_record(&rec) {
                        Err(e) => {
                            return Err(e);
                        },
                        Ok(()) => {
                            proof {
                                let c = spec_parse_record(b).unwrap().1;
                                assert(data@.skip(newpos as int) =~= b.skip(c));
                            }
                            pos = newpos;
                        },
                    }
                },
            }
        }
    }
}

} // verus!
