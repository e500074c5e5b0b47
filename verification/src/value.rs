use vstd::prelude::*;

verus! {

/// An in-memory value described through the visitation protocol, re-expressed
/// as a closed set of descriptor kinds.  A value of this type is what the
/// encode side walks; the decode side rebuilds one from a wire value and a
/// target `Shape`.
///
/// Floating-point numbers do not appear here: a float enters the codec as the
/// decimal text of its shortest round-trippable rendering, which callers
/// produce at the boundary.
#[derive(Debug, PartialEq)]
pub enum Value {
    Bool(bool),
    Int(i64),
    UInt(u64),
    Char(char),
    Str(String),
    Bytes(Vec<u8>),
    /// An absent optional.
    Absent,
    /// A present optional, carrying the inner value.
    Present(Box<Value>),
    /// The unit value, or a unit-typed named shape.
    Unit,
    /// A newtype wrapper: a single-field transparent struct.
    Newtype(Box<Value>),
    /// A sequence, a tuple or a tuple struct: ordered elements.
    List(Vec<Value>),
    /// A map: ordered key/value entries; keys must encode to wire strings.
    Dict(Vec<(Value, Value)>),
    /// A record with named fields.
    Record(Vec<(String, Value)>),
    UnitVariant(String),
    NewtypeVariant(String, Box<Value>),
    TupleVariant(String, Vec<Value>),
    StructVariant(String, Vec<(String, Value)>),
}

/// The mathematical model of a `Value`.
pub enum ValueModel {
    Bool(bool),
    Int(i64),
    UInt(u64),
    Char(char),
    Str(Seq<char>),
    Bytes(Seq<u8>),
    Absent,
    Present(Box<ValueModel>),
    Unit,
    Newtype(Box<ValueModel>),
    List(Seq<ValueModel>),
    Dict(Seq<(ValueModel, ValueModel)>),
    Record(Seq<(Seq<char>, ValueModel)>),
    UnitVariant(Seq<char>),
    NewtypeVariant(Seq<char>, Box<ValueModel>),
    TupleVariant(Seq<char>, Seq<ValueModel>),
    StructVariant(Seq<char>, Seq<(Seq<char>, ValueModel)>),
}

pub open spec fn value_model(v: Value) -> ValueModel
    decreases v,
{
    match v {
        Value::Bool(b) => ValueModel::Bool(b),
        Value::Int(i) => ValueModel::Int(i),
        Value::UInt(u) => ValueModel::UInt(u),
        Value::Char(c) => ValueModel::Char(c),
        Value::Str(t) => ValueModel::Str(t@),
        Value::Bytes(bs) => ValueModel::Bytes(bs.deep_view()),
        Value::Absent => ValueModel::Absent,
        Value::Present(x) => ValueModel::Present(Box::new(value_model(*x))),
        Value::Unit => ValueModel::Unit,
        Value::Newtype(x) => ValueModel::Newtype(Box::new(value_model(*x))),
        Value::List(items) => ValueModel::List(value_models(items@)),
        Value::Dict(pairs) => ValueModel::Dict(value_model_entries(pairs@)),
        Value::Record(fields) => ValueModel::Record(value_model_fields(fields@)),
        Value::UnitVariant(t) => ValueModel::UnitVariant(t@),
        Value::NewtypeVariant(t, x) => ValueModel::NewtypeVariant(t@, Box::new(value_model(*x))),
        Value::TupleVariant(t, items) => ValueModel::TupleVariant(t@, value_models(items@)),
        Value::StructVariant(t, fields) => ValueModel::StructVariant(
            t@,
            value_model_fields(fields@),
        ),
    }
}

pub open spec fn value_models(items: Seq<Value>) -> Seq<ValueModel>
    decreases items,
{
    if items.len() == 0 {
        Seq::empty()
    } else {
        seq![value_model(items[0])] + value_models(items.drop_first())
    }
}

pub open spec fn value_model_entries(pairs: Seq<(Value, Value)>) -> Seq<(ValueModel, ValueModel)>
    decreases pairs,
{
    if pairs.len() == 0 {
        Seq::empty()
    } else {
        seq![(value_model(pairs[0].0), value_model(pairs[0].1))] + value_model_entries(
            pairs.drop_first(),
        )
    }
}

pub open spec fn value_model_fields(fields: Seq<(String, Value)>) -> Seq<(Seq<char>, ValueModel)>
    decreases fields,
{
    if fields.len() == 0 {
        Seq::empty()
    } else {
        seq![(fields[0].0@, value_model(fields[0].1))] + value_model_fields(fields.drop_first())
    }
}

impl DeepView for Value {
    type V = ValueModel;

    open spec fn deep_view(&self) -> ValueModel {
        value_model(*self)
    }
}

pub proof fn lemma_value_models_index(items: Seq<Value>)
    ensures
        value_models(items).len() == items.len(),
        forall|i: int| 0 <= i < items.len() ==> value_models(items)[i] == value_model(items[i]),
    decreases items,
{
    if items.len() > 0 {
        lemma_value_models_index(items.drop_first());
    }
}

pub proof fn lemma_value_model_entries_index(pairs: Seq<(Value, Value)>)
    ensures
        value_model_entries(pairs).len() == pairs.len(),
        forall|i: int|
            0 <= i < pairs.len() ==> value_model_entries(pairs)[i] == (
                value_model(pairs[i].0),
                value_model(pairs[i].1),
            ),
    decreases pairs,
{
    if pairs.len() > 0 {
        lemma_value_model_entries_index(pairs.drop_first());
    }
}

pub proof fn lemma_value_model_fields_index(fields: Seq<(String, Value)>)
    ensures
        value_model_fields(fields).len() == fields.len(),
        forall|i: int|
            0 <= i < fields.len() ==> value_model_fields(fields)[i] == (
                fields[i].0@,
                value_model(fields[i].1),
            ),
    decreases fields,
{
    if fields.len() > 0 {
        lemma_value_model_fields_index(fields.drop_first());
    }
}

pub proof fn lemma_value_models_push(items: Seq<Value>, x: Value)
    ensures
        value_models(items.push(x)) == value_models(items).push(value_model(x)),
{
    lemma_value_models_index(items.push(x));
    lemma_value_models_index(items);
    assert(value_models(items.push(x)) =~= value_models(items).push(value_model(x)));
}

pub proof fn lemma_value_model_entries_push(pairs: Seq<(Value, Value)>, k: Value, v: Value)
    ensures
        value_model_entries(pairs.push((k, v))) == value_model_entries(pairs).push(
            (value_model(k), value_model(v)),
        ),
{
    lemma_value_model_entries_index(pairs.push((k, v)));
    lemma_value_model_entries_index(pairs);
    assert(value_model_entries(pairs.push((k, v))) =~= value_model_entries(pairs).push(
        (value_model(k), value_model(v)),
    ));
}

pub proof fn lemma_value_model_fields_push(fields: Seq<(String, Value)>, k: String, v: Value)
    ensures
        value_model_fields(fields.push((k, v))) == value_model_fields(fields).push(
            (k@, value_model(v)),
        ),
{
    lemma_value_model_fields_index(fields.push((k, v)));
    lemma_value_model_fields_index(fields);
    assert(value_model_fields(fields.push((k, v))) =~= value_model_fields(fields).push(
        (k@, value_model(v)),
    ));
}

/// The statically known target shape that directs a decode.  `Any` asks for
/// self-describing dispatch: the populated wire field alone picks the result.
#[derive(Debug, PartialEq)]
pub enum Shape {
    Bool,
    Int,
    UInt,
    Char,
    Str,
    Bytes,
    Optional(Box<Shape>),
    Unit,
    Newtype(Box<Shape>),
    List(Box<Shape>),
    Tuple(Vec<Shape>),
    /// A string-keyed map with values of one shape.
    Dict(Box<Shape>),
    Record(Vec<(String, Shape)>),
    /// A tagged union: the named variants and their payload shapes.
    Union(Vec<(String, VariantShape)>),
    Any,
}

/// The payload kind of one variant of a tagged union.
#[derive(Debug, PartialEq)]
pub enum VariantShape {
    Unit,
    Newtype(Box<Shape>),
    Tuple(Vec<Shape>),
    Record(Vec<(String, Shape)>),
}

} // verus!
