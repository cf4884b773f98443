//! Structured program values, as a self-describing data model, and the shapes
//! that a decoder is asked to rebuild.
use vstd::prelude::*;

verus! {

broadcast use vstd::std_specs::vec::group_vec_axioms;

/// A structured value: a record, a tagged union, a sequence, a map, an
/// optional or a scalar, reported by shape.
#[derive(Debug, PartialEq)]
pub enum Value {
    Bool(bool),
    /// Any signed integer, widened.
    Int(i64),
    /// Any unsigned integer, widened.
    UInt(u64),
    Char(char),
    Str(String),
    Bytes(Vec<u8>),
    Unit,
    Absent,
    Present(Box<Value>),
    /// A sequence, a tuple or a tuple struct.
    List(Vec<Value>),
    Mapping(Vec<(Value, Value)>),
    /// A record: field names with their values, in declaration order.
    Struct(Vec<(String, Value)>),
    UnitVariant(String),
    NewtypeVariant(String, Box<Value>),
    TupleVariant(String, Vec<Value>),
    StructVariant(String, Vec<(String, Value)>),
}

/// The mathematical model of a [`Value`].
pub ghost enum Val {
    Bool(bool),
    Int(i64),
    UInt(u64),
    Char(char),
    Str(Seq<char>),
    Bytes(Seq<u8>),
    Unit,
    Absent,
    Present(Box<Val>),
    List(Seq<Val>),
    Mapping(Seq<(Val, Val)>),
    Struct(Seq<(Seq<char>, Val)>),
    UnitVariant(Seq<char>),
    NewtypeVariant(Seq<char>, Box<Val>),
    TupleVariant(Seq<char>, Seq<Val>),
    StructVariant(Seq<char>, Seq<(Seq<char>, Val)>),
}

/// The width and signedness of an integer target.
#[derive(Clone, Copy, Debug, PartialEq, Eq, Structural)]
pub enum IntKind {
    I8,
    I16,
    I32,
    I64,
    U8,
    U16,
    U32,
    U64,
}

/// The shape of the value that a decoder is asked to rebuild.
#[derive(Debug)]
pub enum Shape {
    /// Whatever the populated payload says.
    Any,
    Bool,
    Int(IntKind),
    /// A single character, held as text of length one.
    Char,
    Str,
    Bytes,
    Unit,
    Option(Box<Shape>),
    /// A sequence of any length, each element of the given shape.
    List(Box<Shape>),
    /// A tuple: one shape per position.
    Tuple(Vec<Shape>),
    /// A map with text keys, each value of the given shape.
    Mapping(Box<Shape>),
    /// A record: its field names and their shapes.
    Struct(Vec<(String, Shape)>),
    /// A tagged union: its variant names and their shapes.
    Enum(Vec<(String, VariantShape)>),
}

/// The shape of one variant of a tagged union.
#[derive(Debug)]
pub enum VariantShape {
    Unit,
    Newtype(Shape),
    Tuple(Vec<Shape>),
    Struct(Vec<(String, Shape)>),
}

impl IntKind {
    pub open spec fn is_signed(self) -> bool {
        self is I8 || self is I16 || self is I32 || self is I64
    }

    pub open spec fn min(self) -> int {
        match self {
            IntKind::I8 => i8::MIN as int,
            IntKind::I16 => i16::MIN as int,
            IntKind::I32 => i32::MIN as int,
            IntKind::I64 => i64::MIN as int,
            _ => 0,
        }
    }

    pub open spec fn max(self) -> int {
        match self {
            IntKind::I8 => i8::MAX as int,
            IntKind::I16 => i16::MAX as int,
            IntKind::I32 => i32::MAX as int,
            IntKind::I64 => i64::MAX as int,
            IntKind::U8 => u8::MAX as int,
            IntKind::U16 => u16::MAX as int,
            IntKind::U32 => u32::MAX as int,
            IntKind::U64 => u64::MAX as int,
        }
    }

    pub fn signed(&self) -> (r: bool)
        ensures
            r == self.is_signed(),
    {
        match self {
            IntKind::I8 | IntKind::I16 | IntKind::I32 | IntKind::I64 => true,
            _ => false,
        }
    }

    pub fn lowest(&self) -> (r: i64)
        ensures
            r == self.min(),
    {
        match self {
            IntKind::I8 => i8::MIN as i64,
            IntKind::I16 => i16::MIN as i64,
            IntKind::I32 => i32::MIN as i64,
            IntKind::I64 => i64::MIN,
            _ => 0,
        }
    }

    pub fn highest(&self) -> (r: u64)
        ensures
            r == self.max(),
    {
        match self {
            IntKind::I8 => i8::MAX as u64,
            IntKind::I16 => i16::MAX as u64,
            IntKind::I32 => i32::MAX as u64,
            IntKind::I64 => i64::MAX as u64,
            IntKind::U8 => u8::MAX as u64,
            IntKind::U16 => u16::MAX as u64,
            IntKind::U32 => u32::MAX as u64,
            IntKind::U64 => u64::MAX,
        }
    }
}

pub open spec fn values_model(v: Vec<Value>) -> Seq<Val>
    decreases v,
{
    Seq::new(v@.len(), |i: int| if 0 <= i < v@.len() { v@[i].model() } else { Val::Unit })
}

pub open spec fn fields_model(v: Vec<(String, Value)>) -> Seq<(Seq<char>, Val)>
    decreases v,
{
    Seq::new(
        v@.len(),
        |i: int|
            if 0 <= i < v@.len() {
                (v@[i].0@, v@[i].1.model())
            } else {
                (Seq::empty(), Val::Unit)
            },
    )
}

pub open spec fn pairs_model(v: Vec<(Value, Value)>) -> Seq<(Val, Val)>
    decreases v,
{
    Seq::new(
        v@.len(),
        |i: int|
            if 0 <= i < v@.len() {
                (v@[i].0.model(), v@[i].1.model())
            } else {
                (Val::Unit, Val::Unit)
            },
    )
}

impl Value {
    pub open spec fn model(&self) -> Val
        decreases self,
    {
        match self {
            Value::Bool(b) => Val::Bool(*b),
            Value::Int(x) => Val::Int(*x),
            Value::UInt(x) => Val::UInt(*x),
            Value::Char(c) => Val::Char(*c),
            Value::Str(s) => Val::Str(s@),
            Value::Bytes(b) => Val::Bytes(b@),
            Value::Unit => Val::Unit,
            Value::Absent => Val::Absent,
            Value::Present(x) => Val::Present(Box::new((**x).model())),
            Value::List(v) => Val::List(values_model(*v)),
            Value::Mapping(v) => Val::Mapping(pairs_model(*v)),
            Value::Struct(v) => Val::Struct(fields_model(*v)),
            Value::UnitVariant(n) => Val::UnitVariant(n@),
            Value::NewtypeVariant(n, x) => Val::NewtypeVariant(n@, Box::new((**x).model())),
            Value::TupleVariant(n, v) => Val::TupleVariant(n@, values_model(*v)),
            Value::StructVariant(n, v) => Val::StructVariant(n@, fields_model(*v)),
        }
    }
}

} // verus!
