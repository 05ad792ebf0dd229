//! The flat value domain: the scalar kinds that a resolved property may hold,
//! and the boundary at which a general TOML value is narrowed down to them.

use vstd::prelude::*;

verus! {

/// `toml::value::Datetime`, carried through as an opaque value.
#[verifier::external_type_specification]
#[verifier::external_body]
pub struct ExDatetime(toml::value::Datetime);

/// `toml::Value`, carried through as an opaque value. What it holds is read
/// through [`toml_shape`].
#[verifier::external_type_specification]
#[verifier::external_body]
pub struct ExTomlValue(toml::Value);

/// `Clone::clone` of `toml::value::Datetime`, which the crate derives: the
/// copy is the same datetime.
pub assume_specification[ <toml::value::Datetime as Clone>::clone ](
    d: &toml::value::Datetime,
) -> (r: toml::value::Datetime)
    ensures
        r == *d,
;

/// The two kinds of TOML value that hold other values.
#[derive(Clone, Copy, Debug, PartialEq, Eq, Hash, Structural)]
pub enum NestedKind {
    Array,
    Table,
}

/// A TOML value without nested structure.
#[derive(Debug, PartialEq)]
pub enum FlatTomlValue {
    /// A TOML string.
    String(String),
    /// A TOML integer.
    Integer(i64),
    /// A TOML float, held as the bit pattern of its IEEE 754 binary64 form.
    Float(u64),
    /// A TOML boolean.
    Boolean(bool),
    /// A TOML datetime.
    Datetime(toml::value::Datetime),
}

/// Mathematical model of a [`FlatTomlValue`].
pub enum FlatValueView {
    String(Seq<char>),
    Integer(i64),
    Float(u64),
    Boolean(bool),
    Datetime(toml::value::Datetime),
}

impl View for FlatTomlValue {
    type V = FlatValueView;

    open spec fn view(&self) -> FlatValueView {
        match *self {
            FlatTomlValue::String(s) => FlatValueView::String(s@),
            FlatTomlValue::Integer(i) => FlatValueView::Integer(i),
            FlatTomlValue::Float(bits) => FlatValueView::Float(bits),
            FlatTomlValue::Boolean(b) => FlatValueView::Boolean(b),
            FlatTomlValue::Datetime(d) => FlatValueView::Datetime(d),
        }
    }
}

impl Clone for FlatTomlValue {
    fn clone(&self) -> (r: FlatTomlValue)
        ensures
            r@ == self@,
    {
        match self {
            FlatTomlValue::String(s) => FlatTomlValue::String(s.clone()),
            FlatTomlValue::Integer(i) => FlatTomlValue::Integer(*i),
            FlatTomlValue::Float(bits) => FlatTomlValue::Float(*bits),
            FlatTomlValue::Boolean(b) => FlatTomlValue::Boolean(*b),
            FlatTomlValue::Datetime(d) => FlatTomlValue::Datetime(d.clone()),
        }
    }
}

/// What a general TOML value is at its top level: one of the five scalars
/// with its payload, or one of the two nested kinds.
#[derive(Debug, PartialEq)]
pub enum TomlShape {
    String(String),
    Integer(i64),
    Float(u64),
    Boolean(bool),
    Datetime(toml::value::Datetime),
    Array,
    Table,
}

/// Mathematical model of a [`TomlShape`].
pub enum ShapeView {
    String(Seq<char>),
    Integer(i64),
    Float(u64),
    Boolean(bool),
    Datetime(toml::value::Datetime),
    Array,
    Table,
}

impl View for TomlShape {
    type V = ShapeView;

    open spec fn view(&self) -> ShapeView {
        match *self {
            TomlShape::String(s) => ShapeView::String(s@),
            TomlShape::Integer(i) => ShapeView::Integer(i),
            TomlShape::Float(bits) => ShapeView::Float(bits),
            TomlShape::Boolean(b) => ShapeView::Boolean(b),
            TomlShape::Datetime(d) => ShapeView::Datetime(d),
            TomlShape::Array => ShapeView::Array,
            TomlShape::Table => ShapeView::Table,
        }
    }
}

/// The top-level shape of a `toml::Value`.
pub uninterp spec fn toml_shape(v: toml::Value) -> ShapeView;

/// Tells the seven variants of `toml::Value` apart. A scalar comes back with
/// a copy of its payload, a float as its bit pattern; of an array or a table
/// only the kind comes back.
#[verifier::external_body]
fn shape_of(v: &toml::Value) -> (r: TomlShape)
    ensures
        r@ == toml_shape(*v),
{
    match v {
        toml::Value::String(s) => TomlShape::String(s.clone()),
        toml::Value::Integer(i) => TomlShape::Integer(*i),
        toml::Value::Float(x) => TomlShape::Float(x.to_bits()),
        toml::Value::Boolean(b) => TomlShape::Boolean(*b),
        toml::Value::Datetime(d) => TomlShape::Datetime(d.clone()),
        toml::Value::Array(_) => TomlShape::Array,
        toml::Value::Table(_) => TomlShape::Table,
    }
}

/// The flat value that a shape stands for, or the nested kind that has none.
pub open spec fn flat_of(shape: ShapeView) -> Result<FlatValueView, NestedKind> {
    match shape {
        ShapeView::String(s) => Ok(FlatValueView::String(s)),
        ShapeView::Integer(i) => Ok(FlatValueView::Integer(i)),
        ShapeView::Float(bits) => Ok(FlatValueView::Float(bits)),
        ShapeView::Boolean(b) => Ok(FlatValueView::Boolean(b)),
        ShapeView::Datetime(d) => Ok(FlatValueView::Datetime(d)),
        ShapeView::Array => Err(NestedKind::Array),
        ShapeView::Table => Err(NestedKind::Table),
    }
}

/// The model of the outcome of a conversion to a flat value.
pub open spec fn flat_result_view(r: Result<FlatTomlValue, NestedKind>) -> Result<
    FlatValueView,
    NestedKind,
> {
    match r {
        Ok(v) => Ok(v@),
        Err(k) => Err(k),
    }
}

impl FlatTomlValue {
    /// Narrows a shape down to a flat value. A scalar is kept as it is; an
    /// array or a table is refused, with its kind.
    pub fn from_shape(shape: TomlShape) -> (r: Result<FlatTomlValue, NestedKind>)
        ensures
            flat_result_view(r) == flat_of(shape@),
    {
        match shape {
            TomlShape::String(s) => Ok(FlatTomlValue::String(s)),
            TomlShape::Integer(i) => Ok(FlatTomlValue::Integer(i)),
            TomlShape::Float(bits) => Ok(FlatTomlValue::Float(bits)),
            TomlShape::Boolean(b) => Ok(FlatTomlValue::Boolean(b)),
            TomlShape::Datetime(d) => Ok(FlatTomlValue::Datetime(d)),
            TomlShape::Array => Err(NestedKind::Array),
            TomlShape::Table => Err(NestedKind::Table),
        }
    }

    /// Narrows a general TOML value down to a flat value: the value's shape,
    /// handed to [`FlatTomlValue::from_shape`].
    pub fn from_toml(value: &toml::Value) -> (r: Result<FlatTomlValue, NestedKind>)
        ensures
            flat_result_view(r) == flat_of(toml_shape(*value)),
    {
        FlatTomlValue::from_shape(shape_of(value))
    }
}

/// A property: a name and the flat value given to it.
#[derive(Debug, PartialEq)]
pub struct FlatTomlProperty {
    pub name: String,
    pub value: FlatTomlValue,
}

/// Mathematical model of a [`FlatTomlProperty`].
pub struct PropertyView {
    pub name: Seq<char>,
    pub value: FlatValueView,
}

impl View for FlatTomlProperty {
    type V = PropertyView;

    open spec fn view(&self) -> PropertyView {
        PropertyView { name: self.name@, value: self.value@ }
    }
}

impl Clone for FlatTomlProperty {
    fn clone(&self) -> (r: FlatTomlProperty)
        ensures
            r@ == self@,
    {
        FlatTomlProperty { name: self.name.clone(), value: self.value.clone() }
    }
}

impl FlatTomlProperty {
    /// A property is well formed when it has a name.
    pub open spec fn wf(&self) -> bool {
        self.name@.len() > 0
    }

    pub fn new(name: String, value: FlatTomlValue) -> (r: FlatTomlProperty)
        requires
            name@.len() > 0,
        ensures
            r.wf(),
            r.name == name,
            r.value == value,
    {
        FlatTomlProperty { name, value }
    }
}

} // verus!
