//! The structured-data model the codec reads and writes: a flat record of
//! named fields, each a scalar, an optional scalar, or a list of lines.

use vstd::prelude::*;

verus! {

/// A single scalar value.
#[derive(Debug, Clone, PartialEq)]
pub enum Scalar {
    Bool(bool),
    Unsigned(u64),
    Signed(i64),
    Text(String),
}

/// The value of one field.
#[derive(Debug, Clone, PartialEq)]
pub enum Value {
    /// Exactly one scalar.
    Scalar(Scalar),
    /// A scalar that may be absent; absence is written as an empty block.
    Optional(Option<Scalar>),
    /// Zero or more lines, one element per line.
    List(Vec<String>),
}

/// One named field.
#[derive(Debug, Clone, PartialEq)]
pub struct Field {
    /// The field name; written upper-cased, matched case-insensitively.
    pub name: String,
    /// The field value.
    pub value: Value,
}

/// A flat record: the only document shape the format can carry.
#[derive(Debug, Clone, PartialEq)]
pub struct Record {
    pub fields: Vec<Field>,
}

/// The shape of a scalar a reader expects.
#[derive(Debug, Clone, Copy, PartialEq, Eq, Structural)]
pub enum ScalarShape {
    Bool,
    Unsigned,
    Signed,
    Text,
}

/// The shape of a field a reader expects.
#[derive(Debug, Clone, Copy, PartialEq, Eq, Structural)]
pub enum Shape {
    Scalar(ScalarShape),
    Optional(ScalarShape),
    List,
}

/// One expected field of a record.
#[derive(Debug, Clone)]
pub struct SchemaField {
    pub name: String,
    pub shape: Shape,
}

/// The mathematical value of a `Scalar`.
pub enum ScalarV {
    Bool(bool),
    Unsigned(u64),
    Signed(i64),
    Text(Seq<char>),
}

/// The mathematical value of a `Value`.
pub enum ValueV {
    Scalar(ScalarV),
    Optional(Option<ScalarV>),
    List(Seq<Seq<char>>),
}

/// The mathematical value of a `Field`.
pub struct FieldV {
    pub name: Seq<char>,
    pub value: ValueV,
}

impl View for Scalar {
    type V = ScalarV;

    open spec fn view(&self) -> ScalarV {
        match self {
            Scalar::Bool(b) => ScalarV::Bool(*b),
            Scalar::Unsigned(v) => ScalarV::Unsigned(*v),
            Scalar::Signed(v) => ScalarV::Signed(*v),
            Scalar::Text(s) => ScalarV::Text(s@),
        }
    }
}

impl View for Value {
    type V = ValueV;

    open spec fn view(&self) -> ValueV {
        match self {
            Value::Scalar(s) => ValueV::Scalar(s@),
            Value::Optional(o) => ValueV::Optional(
                match o {
                    Some(s) => Some(s@),
                    None => None,
                },
            ),
            Value::List(es) => ValueV::List(es@.map_values(|e: String| e@)),
        }
    }
}

impl View for Field {
    type V = FieldV;

    open spec fn view(&self) -> FieldV {
        FieldV { name: self.name@, value: self.value@ }
    }
}

impl View for Record {
    type V = Seq<FieldV>;

    open spec fn view(&self) -> Seq<FieldV> {
        self.fields@.map_values(|f: Field| f@)
    }
}

/// The mathematical value of one schema entry.
pub struct SchemaFieldV {
    pub name: Seq<char>,
    pub shape: Shape,
}

impl View for SchemaField {
    type V = SchemaFieldV;

    open spec fn view(&self) -> SchemaFieldV {
        SchemaFieldV { name: self.name@, shape: self.shape }
    }
}

/// The shape a value has.
pub open spec fn shape_of(v: ValueV) -> Shape {
    match v {
        ValueV::Scalar(s) => Shape::Scalar(scalar_shape_of(s)),
        ValueV::Optional(o) => match o {
            Some(s) => Shape::Optional(scalar_shape_of(s)),
            None => Shape::Optional(ScalarShape::Text),
        },
        ValueV::List(_) => Shape::List,
    }
}

/// The shape a scalar has.
pub open spec fn scalar_shape_of(s: ScalarV) -> ScalarShape {
    match s {
        ScalarV::Bool(_) => ScalarShape::Bool,
        ScalarV::Unsigned(_) => ScalarShape::Unsigned,
        ScalarV::Signed(_) => ScalarShape::Signed,
        ScalarV::Text(_) => ScalarShape::Text,
    }
}

impl Record {
    /// An empty record.
    pub fn new() -> (r: Record)
        ensures
            r@ =~= Seq::<FieldV>::empty(),
    {
        let r = Record { fields: Vec::new() };
        proof {
            assert(r@ =~= Seq::<FieldV>::empty());
        }
        r
    }

    /// Append one field.
    pub fn push_field(&mut self, name: String, value: Value)
        ensures
            final(self)@ =~= old(self)@.push(FieldV { name: name@, value: value@ }),
    {
        let f = Field { name, value };
        self.fields.push(f);
    }
}


/// The text a field holds, when it is a text scalar.
pub open spec fn as_text(v: ValueV) -> Result<Seq<char>, ()> {
    match v {
        ValueV::Scalar(s) => match s {
            ScalarV::Text(t) => Ok(t),
            _ => Err(()),
        },
        _ => Err(()),
    }
}

/// The optional text a field holds, when it is an optional text scalar.
pub open spec fn as_opt_text(v: ValueV) -> Result<Option<Seq<char>>, ()> {
    match v {
        ValueV::Optional(o) => match o {
            None => Ok(None),
            Some(s) => match s {
                ScalarV::Text(t) => Ok(Some(t)),
                _ => Err(()),
            },
        },
        _ => Err(()),
    }
}

/// The lines a field holds, when it is a list.
pub open spec fn as_list(v: ValueV) -> Result<Seq<Seq<char>>, ()> {
    match v {
        ValueV::List(es) => Ok(es),
        _ => Err(()),
    }
}

/// The number a field holds, when it is an unsigned scalar.
pub open spec fn as_unsigned(v: ValueV) -> Result<u64, ()> {
    match v {
        ValueV::Scalar(s) => match s {
            ScalarV::Unsigned(u) => Ok(u),
            _ => Err(()),
        },
        _ => Err(()),
    }
}

/// Exec counterpart of `as_text`.
pub fn get_text(v: &Value) -> (r: Result<String, ()>)
    ensures
        match as_text(v@) {
            Ok(t) => r is Ok && r->Ok_0@ == t,
            Err(_) => r is Err,
        },
{
    match v {
        Value::Scalar(s) => match s {
            Scalar::Text(t) => Ok(t.clone()),
            _ => Err(()),
        },
        _ => Err(()),
    }
}

/// Exec counterpart of `as_opt_text`.
pub fn get_opt_text(v: &Value) -> (r: Result<Option<String>, ()>)
    ensures
        match as_opt_text(v@) {
            Ok(o) => r is Ok && (match o {
                Some(t) => r->Ok_0 is Some && (r->Ok_0)->0@ == t,
                None => r->Ok_0 is None,
            }),
            Err(_) => r is Err,
        },
{
    match v {
        Value::Optional(o) => match o {
            None => Ok(None),
            Some(s) => match s {
                Scalar::Text(t) => Ok(Some(t.clone())),
                _ => Err(()),
            },
        },
        _ => Err(()),
    }
}

/// The strings a string vector stands for.
pub open spec fn strings_view(v: Seq<String>) -> Seq<Seq<char>> {
    v.map_values(|s: String| s@)
}

/// Clone a vector of strings.
pub fn clone_strings(v: &Vec<String>) -> (r: Vec<String>)
    ensures
        strings_view(r@) == strings_view(v@),
{
    let mut out: Vec<String> = Vec::new();
    let mut k: usize = 0;
    while k < v.len()
        invariant
            k <= v@.len(),
            out@.len() == k,
            forall|j: int| 0 <= j < k ==> #[trigger] out@[j]@ == v@[j]@,
        decreases v@.len() - k,
    {
        out.push(v[k].clone());
        k += 1;
    }
    proof {
        assert(strings_view(out@) =~= strings_view(v@));
    }
    out
}

/// Exec counterpart of `as_list`.
pub fn get_list(v: &Value) -> (r: Result<Vec<String>, ()>)
    ensures
        match as_list(v@) {
            Ok(es) => r is Ok && strings_view(r->Ok_0@) == es,
            Err(_) => r is Err,
        },
{
    match v {
        Value::List(es) => Ok(clone_strings(es)),
        _ => Err(()),
    }
}

/// Exec counterpart of `as_unsigned`.
pub fn get_unsigned(v: &Value) -> (r: Result<u64, ()>)
    ensures
        match as_unsigned(v@) {
            Ok(u) => r is Ok && r->Ok_0 == u,
            Err(_) => r is Err,
        },
{
    match v {
        Value::Scalar(s) => match s {
            Scalar::Unsigned(u) => Ok(*u),
            _ => Err(()),
        },
        _ => Err(()),
    }
}

} // verus!
