//! The in-memory object model: a library of structures, each a list of
//! elements, each an element type with an ordered parameter list.
//!
//! Real-valued fields (the two unit scale factors, magnification and
//! angle parameters) carry the IEEE-754 bit pattern of the 64-bit
//! value; `reals` converts between those bit patterns and the stream's
//! excess-64, base-16 layout.

use vstd::prelude::*;

verus! {

/// A calendar timestamp of six 16-bit fields.  The year is the
/// absolute year number, not an offset.
#[derive(Clone, Copy, Debug, PartialEq, Eq, Structural)]
pub struct Date {
    pub year: i16,
    pub month: i16,
    pub day: i16,
    pub hour: i16,
    pub minute: i16,
    pub second: i16,
}

/// The kind of an element.  `Unset` is the pre-population placeholder
/// of a decoder accumulator and is never valid in a finished element.
#[derive(Clone, Copy, Debug, PartialEq, Eq, Structural)]
pub enum ElementType {
    Unset,
    Boundary,
    Path,
    StructureRef,
    ArrayRef,
    Text,
    Node,
    Box,
}

/// One typed attribute of an element, in its on-stream order.
/// `Magnification` and `Angle` hold the IEEE-754 bit pattern of the
/// 64-bit real value.
#[derive(Clone, Debug)]
pub enum ElementParameter {
    /// Layer number.
    Layer(i16),
    /// Coordinate pairs, x then y.
    XY(Vec<(i32, i32)>),
    /// User-defined data number.
    Datatype(i16),
    /// Width of the element.
    Width(i32),
    /// Name of the referenced structure.
    StructureName(String),
    /// Column count then row count of an array reference.
    ColRow(Vec<i16>),
    /// Kind of a text element.
    TextType(i16),
    /// Text presentation flags: bits 10-11 font, bits 12-13 vertical
    /// position.
    Presentation(u16),
    /// Text content.
    Str(String),
    /// Text transformation flags.
    StrTransf(u16),
    /// Magnification factor, as IEEE-754 64-bit real bits.
    Magnification(u64),
    /// Angle in degrees, counterclockwise, as IEEE-754 64-bit real
    /// bits.
    Angle(u64),
    /// End style of a path: 0 square, 1 round, 2 square extended by
    /// half the width, 4 variable extension.
    Pathtype(i16),
    /// Element flags: bit 15 template data, bit 14 external data.
    EFlags(u16),
    /// Kind of a node element.
    Nodetype(i16),
    /// Extension of the first point of a path, with path type 4.
    BeginExt(i32),
}

/// One geometry or annotation item with its ordered parameters.
#[derive(Clone, Debug)]
pub struct Element {
    pub element_type: ElementType,
    pub parameters: Vec<ElementParameter>,
}

/// A named, reusable collection of elements.
#[derive(Clone, Debug)]
pub struct Structure {
    pub name: String,
    pub date_mod: Date,
    pub date_acc: Date,
    pub elements: Vec<Element>,
}

/// The root container: format version, name, timestamps, the two unit
/// scale factors as IEEE-754 64-bit real bits, and the ordered
/// structures.
#[derive(Clone, Debug)]
pub struct Library {
    pub version: i16,
    pub name: String,
    pub date_mod: Date,
    pub date_acc: Date,
    /// Database units per user unit, IEEE-754 64-bit real bits.
    pub units_user: u64,
    /// Database units per metre, IEEE-754 64-bit real bits.
    pub units_m: u64,
    pub structures: Vec<Structure>,
}

/// Mathematical value of an `ElementParameter`.
pub enum ParamV {
    Layer(i16),
    XY(Seq<(i32, i32)>),
    Datatype(i16),
    Width(i32),
    StructureName(Seq<char>),
    ColRow(Seq<i16>),
    TextType(i16),
    Presentation(u16),
    Str(Seq<char>),
    StrTransf(u16),
    Magnification(u64),
    Angle(u64),
    Pathtype(i16),
    EFlags(u16),
    Nodetype(i16),
    BeginExt(i32),
}

/// Mathematical value of an `Element`.
pub struct ElementV {
    pub element_type: ElementType,
    pub parameters: Seq<ParamV>,
}

/// Mathematical value of a `Structure`.
pub struct StructureV {
    pub name: Seq<char>,
    pub date_mod: Date,
    pub date_acc: Date,
    pub elements: Seq<ElementV>,
}

/// Mathematical value of a `Library`.
pub struct LibraryV {
    pub version: i16,
    pub name: Seq<char>,
    pub date_mod: Date,
    pub date_acc: Date,
    pub units_user: u64,
    pub units_m: u64,
    pub structures: Seq<StructureV>,
}

impl View for ElementParameter {
    type V = ParamV;

    open spec fn view(&self) -> ParamV {
        match self {
            ElementParameter::Layer(x) => ParamV::Layer(*x),
            ElementParameter::XY(v) => ParamV::XY(v@),
            ElementParameter::Datatype(x) => ParamV::Datatype(*x),
            ElementParameter::Width(x) => ParamV::Width(*x),
            ElementParameter::StructureName(s) => ParamV::StructureName(s@),
            ElementParameter::ColRow(v) => ParamV::ColRow(v@),
            ElementParameter::TextType(x) => ParamV::TextType(*x),
            ElementParameter::Presentation(x) => ParamV::Presentation(*x),
            ElementParameter::Str(s) => ParamV::Str(s@),
            ElementParameter::StrTransf(x) => ParamV::StrTransf(*x),
            ElementParameter::Magnification(x) => ParamV::Magnification(*x),
            ElementParameter::Angle(x) => ParamV::Angle(*x),
            ElementParameter::Pathtype(x) => ParamV::Pathtype(*x),
            ElementParameter::EFlags(x) => ParamV::EFlags(*x),
            ElementParameter::Nodetype(x) => ParamV::Nodetype(*x),
            ElementParameter::BeginExt(x) => ParamV::BeginExt(*x),
        }
    }
}

impl View for Element {
    type V = ElementV;

    open spec fn view(&self) -> ElementV {
        ElementV { element_type: self.element_type, parameters: self.parameters.deep_view() }
    }
}

impl View for Structure {
    type V = StructureV;

    open spec fn view(&self) -> StructureV {
        StructureV {
            name: self.name@,
            date_mod: self.date_mod,
            date_acc: self.date_acc,
            elements: self.elements.deep_view(),
        }
    }
}

impl View for Library {
    type V = LibraryV;

    open spec fn view(&self) -> LibraryV {
        LibraryV {
            version: self.version,
            name: self.name@,
            date_mod: self.date_mod,
            date_acc: self.date_acc,
            units_user: self.units_user,
            units_m: self.units_m,
            structures: self.structures.deep_view(),
        }
    }
}

impl DeepView for ElementParameter {
    type V = ParamV;

    open spec fn deep_view(&self) -> ParamV {
        self.view()
    }
}

impl DeepView for Element {
    type V = ElementV;

    open spec fn deep_view(&self) -> ElementV {
        self.view()
    }
}

impl DeepView for Structure {
    type V = StructureV;

    open spec fn deep_view(&self) -> StructureV {
        self.view()
    }
}

impl DeepView for Library {
    type V = LibraryV;

    open spec fn deep_view(&self) -> LibraryV {
        self.view()
    }
}

/// The default timestamp, 1970-01-01 00:00:00.
pub open spec fn spec_epoch_date() -> Date {
    Date { year: 1970, month: 1, day: 1, hour: 0, minute: 0, second: 0 }
}

impl Date {
    /// A date holding the default value 1970-01-01 00:00:00.
    pub fn new() -> (r: Date)
        ensures
            r == spec_epoch_date(),
    {
        Date { year: 1970, month: 1, day: 1, hour: 0, minute: 0, second: 0 }
    }
}

impl Element {
    /// An element with the placeholder type and no parameters.
    pub fn new() -> (r: Element)
        ensures
            r@.element_type == ElementType::Unset,
            r@.parameters == Seq::<ParamV>::empty(),
    {
        let r = Element { element_type: ElementType::Unset, parameters: Vec::new() };
        proof {
            assert(r@.parameters =~= Seq::<ParamV>::empty());
        }
        r
    }
}

impl Structure {
    /// A structure with an empty name, no elements, and default dates.
    pub fn new() -> (r: Structure)
        ensures
            r@.name == Seq::<char>::empty(),
            r@.date_mod == spec_epoch_date(),
            r@.date_acc == spec_epoch_date(),
            r@.elements == Seq::<ElementV>::empty(),
    {
        let r = Structure {
            name: String::new(),
            elements: Vec::new(),
            date_mod: Date::new(),
            date_acc: Date::new(),
        };
        proof {
            assert(r@.elements =~= Seq::<ElementV>::empty());
        }
        r
    }
}

impl Library {
    /// A library with the given version and name, default dates, zero
    /// unit factors and no structures.
    pub fn new(v: i16, n: String) -> (r: Library)
        ensures
            r@.version == v,
            r@.name == n@,
            r@.date_mod == spec_epoch_date(),
            r@.date_acc == spec_epoch_date(),
            r@.units_user == 0u64,
            r@.units_m == 0u64,
            r@.structures == Seq::<StructureV>::empty(),
    {
        let r = Library {
            version: v,
            name: n,
            date_mod: Date::new(),
            date_acc: Date::new(),
            units_user: 0,
            units_m: 0,
            structures: Vec::new(),
        };
        proof {
            assert(r@.structures =~= Seq::<StructureV>::empty());
        }
        r
    }
}

} // verus!
