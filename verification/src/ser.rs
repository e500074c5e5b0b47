use vstd::prelude::*;

use crate::error::Error;
use crate::numbers::{dec_i64, dec_u64};
use crate::value::Value;
use crate::wire::{
    attr_model, attr_model_pairs, attr_models, lemma_attr_model_pairs_index,
    lemma_attr_models_index, model_b, model_bool, model_l, model_m, model_n, model_null, model_s,
    AttrModel, AttributeValue,
};

verus! {

// The wire encoding of an in-memory value, as a function of its model.  The
// only failures the encode side can produce are a map key that does not
// encode to a wire string, and a map value reached while no key is set (the
// latter also covers a map value whose own encoding failed, whose error the
// map builder replaces).
pub open spec fn spec_encode(v: Value) -> Result<AttrModel, Seq<char>>
    decreases v,
{
    match v {
        Value::Bool(b) => Ok(model_bool(b)),
        Value::Int(i) => Ok(model_n(dec_i64(i))),
        Value::UInt(u) => Ok(model_n(dec_u64(u))),
        Value::Char(c) => Ok(model_s(seq![c])),
        Value::Str(t) => Ok(model_s(t@)),
        Value::Bytes(bs) => Ok(model_b(bs.deep_view())),
        Value::Absent => Ok(model_null()),
        Value::Present(x) => spec_encode(*x),
        Value::Unit => Ok(model_null()),
        Value::Newtype(x) => spec_encode(*x),
        Value::List(items) => match spec_encode_items(items@) {
            Ok(ws) => Ok(model_l(ws)),
            Err(m) => Err(m),
        },
        Value::Dict(pairs) => match spec_encode_entries(pairs@) {
            Ok(ps) => Ok(model_m(ps)),
            Err(m) => Err(m),
        },
        Value::Record(fields) => match spec_encode_fields(fields@) {
            Ok(ps) => Ok(model_m(ps)),
            Err(m) => Err(m),
        },
        Value::UnitVariant(t) => Ok(model_m(seq![(t@, model_null())])),
        Value::NewtypeVariant(t, x) => match spec_encode(*x) {
            Ok(w) => Ok(model_m(seq![(t@, w)])),
            Err(m) => Err(m),
        },
        Value::TupleVariant(t, items) => match spec_encode_items(items@) {
            Ok(ws) => Ok(model_m(seq![(t@, model_l(ws))])),
            Err(m) => Err(m),
        },
        Value::StructVariant(t, fields) => match spec_encode_fields(fields@) {
            Ok(ps) => Ok(model_m(seq![(t@, model_m(ps))])),
            Err(m) => Err(m),
        },
    }
}

pub open spec fn spec_encode_items(items: Seq<Value>) -> Result<Seq<AttrModel>, Seq<char>>
    decreases items,
{
    if items.len() == 0 {
        Ok(Seq::empty())
    } else {
        match spec_encode_items(items.drop_last()) {
            Err(m) => Err(m),
            Ok(ws) => match spec_encode(items.last()) {
                Err(m) => Err(m),
                Ok(w) => Ok(ws.push(w)),
            },
        }
    }
}

pub open spec fn spec_encode_entries(pairs: Seq<(Value, Value)>) -> Result<
    Seq<(Seq<char>, AttrModel)>,
    Seq<char>,
>
    decreases pairs,
{
    if pairs.len() == 0 {
        Ok(Seq::empty())
    } else {
        match spec_encode_entries(pairs.drop_last()) {
            Err(m) => Err(m),
            Ok(ps) => {
                let kw = spec_encode(pairs.last().0);
                if !(kw is Ok && kw->Ok_0.s is Some) {
                    Err("Key Must Be String"@)
                } else {
                    match spec_encode(pairs.last().1) {
                        Err(_) => Err("Key Must Be Set and Value Must Be Serializable"@),
                        Ok(vw) => Ok(spec_upsert(ps, kw->Ok_0.s->0, vw)),
                    }
                }
            },
        }
    }
}

pub open spec fn spec_encode_fields(fields: Seq<(String, Value)>) -> Result<
    Seq<(Seq<char>, AttrModel)>,
    Seq<char>,
>
    decreases fields,
{
    if fields.len() == 0 {
        Ok(Seq::empty())
    } else {
        match spec_encode_fields(fields.drop_last()) {
            Err(m) => Err(m),
            Ok(ps) => match spec_encode(fields.last().1) {
                Err(m) => Err(m),
                Ok(w) => Ok(spec_upsert(ps, fields.last().0@, w)),
            },
        }
    }
}

// Inserting into an insertion-ordered map: replace the value of the first
// entry with the same key, else append a new entry.
pub open spec fn first_key_index(pairs: Seq<(Seq<char>, AttrModel)>, k: Seq<char>) -> int
    decreases pairs,
{
    if pairs.len() == 0 {
        -1
    } else if pairs[0].0 == k {
        0
    } else {
        let r = first_key_index(pairs.drop_first(), k);
        if r == -1 {
            -1
        } else {
            r + 1
        }
    }
}

pub open spec fn spec_upsert(
    pairs: Seq<(Seq<char>, AttrModel)>,
    k: Seq<char>,
    v: AttrModel,
) -> Seq<(Seq<char>, AttrModel)> {
    let j = first_key_index(pairs, k);
    if j == -1 {
        pairs.push((k, v))
    } else {
        pairs.update(j, (k, v))
    }
}

pub proof fn lemma_first_key_index(pairs: Seq<(Seq<char>, AttrModel)>, k: Seq<char>)
    ensures
        first_key_index(pairs, k) == -1 ==> forall|i: int|
            0 <= i < pairs.len() ==> (#[trigger] pairs[i]).0 != k,
        first_key_index(pairs, k) != -1 ==> {
            let j = first_key_index(pairs, k);
            &&& 0 <= j < pairs.len()
            &&& pairs[j].0 == k
            &&& forall|i: int| 0 <= i < j ==> (#[trigger] pairs[i]).0 != k
        },
    decreases pairs,
{
    if pairs.len() > 0 && pairs[0].0 != k {
        lemma_first_key_index(pairs.drop_first(), k);
        let r = first_key_index(pairs.drop_first(), k);
        if r == -1 {
            assert forall|i: int| 0 <= i < pairs.len() implies (#[trigger] pairs[i]).0 != k by {
                if i > 0 {
                    assert(pairs.drop_first()[i - 1] == pairs[i]);
                }
            }
        } else {
            assert(pairs.drop_first()[r] == pairs[r + 1]);
            assert forall|i: int| 0 <= i < r + 1 implies (#[trigger] pairs[i]).0 != k by {
                if i > 0 {
                    assert(pairs.drop_first()[i - 1] == pairs[i]);
                }
            }
        }
    }
}

// Trusted formatting wrappers around the fast integer formatter.
/// Relies on itoa::Buffer::format for i64: the shortest decimal digits of the
/// value, preceded by a minus sign when it is negative.
#[verifier::external_body]
fn format_i64(v: i64) -> (r: String)
    ensures
        r@ == dec_i64(v),
{
    let mut buf = itoa::Buffer::new();
    buf.format(v).to_owned()
}

/// Relies on itoa::Buffer::format for u64: the shortest decimal digits of the
/// value.
#[verifier::external_body]
fn format_u64(v: u64) -> (r: String)
    ensures
        r@ == dec_u64(v),
{
    let mut buf = itoa::Buffer::new();
    buf.format(v).to_owned()
}

/// Relies on String::push: appends one character to the string.
#[verifier::external_body]
fn push_char(s: &mut String, c: char)
    ensures
        final(s)@ == old(s)@.push(c),
{
    s.push(c);
}

// Leaf serializers: one wire value per scalar shape.
pub fn serialize_bool(v: bool) -> (r: AttributeValue)
    ensures
        r.deep_view() == model_bool(v),
{
    AttributeValue::of_bool(v)
}

/// A signed integer becomes decimal text in the number field.
pub fn serialize_i64(v: i64) -> (r: AttributeValue)
    ensures
        r.deep_view() == model_n(dec_i64(v)),
{
    AttributeValue::of_n(format_i64(v))
}

/// An unsigned integer becomes decimal text in the number field.
pub fn serialize_u64(v: u64) -> (r: AttributeValue)
    ensures
        r.deep_view() == model_n(dec_u64(v)),
{
    AttributeValue::of_n(format_u64(v))
}

/// A character becomes a one-character wire string.
pub fn serialize_char(v: char) -> (r: AttributeValue)
    ensures
        r.deep_view() == model_s(seq![v]),
{
    let mut t = String::new();
    push_char(&mut t, v);
    proof {
        assert(t@ =~= seq![v]);
    }
    AttributeValue::of_s(t)
}

pub fn serialize_str(text: &str) -> (r: AttributeValue)
    ensures
        r.deep_view() == model_s(text@),
{
    AttributeValue::of_s(text.to_owned())
}

pub fn serialize_bytes(bytes: &Vec<u8>) -> (r: AttributeValue)
    ensures
        r.deep_view() == model_b(bytes.deep_view()),
{
    let copy = crate::wire::clone_bytes(bytes);
    proof {
        assert(copy.deep_view() =~= bytes.deep_view());
    }
    AttributeValue::of_b(copy)
}

/// The unit value, a unit struct and an absent optional all become the null
/// flag set to true.
pub fn serialize_unit() -> (r: AttributeValue)
    ensures
        r.deep_view() == model_null(),
{
    AttributeValue::of_null()
}

/// A unit variant becomes a single-entry map: the tag mapped to null.
pub fn serialize_unit_variant(variant: &str) -> (r: AttributeValue)
    ensures
        r.deep_view() == model_m(seq![(variant@, model_null())]),
{
    let tag = variant.to_owned();
    let inner = AttributeValue::of_null();
    let pairs: Vec<(String, AttributeValue)> = vec![(tag, inner)];
    proof {
        assert(pairs@.drop_first() =~= Seq::<(String, AttributeValue)>::empty());
        assert(attr_model_pairs(Seq::<(String, AttributeValue)>::empty())
            =~= Seq::<(Seq<char>, AttrModel)>::empty());
        assert(attr_model_pairs(pairs@) =~= seq![(variant@, model_null())]);
    }
    AttributeValue::of_m(pairs)
}

pub proof fn lemma_attr_models_push(items: Seq<AttributeValue>, x: AttributeValue)
    ensures
        attr_models(items.push(x)) == attr_models(items).push(attr_model(x)),
{
    lemma_attr_models_index(items.push(x));
    lemma_attr_models_index(items);
    assert(attr_models(items.push(x)) =~= attr_models(items).push(attr_model(x)));
}

pub proof fn lemma_attr_model_pairs_push(
    pairs: Seq<(String, AttributeValue)>,
    k: String,
    v: AttributeValue,
)
    ensures
        attr_model_pairs(pairs.push((k, v))) == attr_model_pairs(pairs).push((k@, attr_model(v))),
{
    lemma_attr_model_pairs_index(pairs.push((k, v)));
    lemma_attr_model_pairs_index(pairs);
    assert(attr_model_pairs(pairs.push((k, v))) =~= attr_model_pairs(pairs).push(
        (k@, attr_model(v)),
    ));
}

/// Replace the value of the first entry with this key, else append the entry.
fn map_upsert(pairs: &mut Vec<(String, AttributeValue)>, k: String, v: AttributeValue)
    ensures
        attr_model_pairs(final(pairs)@) == spec_upsert(
            attr_model_pairs(old(pairs)@),
            k@,
            attr_model(v),
        ),
{
    let ghost orig = old(pairs)@;
    let ghost models = attr_model_pairs(old(pairs)@);
    proof {
        lemma_attr_model_pairs_index(orig);
        lemma_first_key_index(models, k@);
    }
    let mut i: usize = 0;
    while i < pairs.len()
        invariant
            orig == old(pairs)@,
            models == attr_model_pairs(old(pairs)@),
            pairs@ == orig,
            models == attr_model_pairs(orig),
            models.len() == orig.len(),
            forall|j: int| 0 <= j < orig.len() ==> #[trigger] models[j] == (
                orig[j].0@,
                attr_model(orig[j].1),
            ),
            i <= orig.len(),
            forall|j: int| 0 <= j < i ==> (#[trigger] models[j]).0 != k@,
        decreases pairs.len() - i,
    {
        if pairs[i].0 == k {
            proof {
                lemma_first_key_index(models, k@);
                assert(models[i as int].0 == k@);
                assert(first_key_index(models, k@) == i);
            }
            pairs[i] = (k, v);
            proof {
                lemma_attr_model_pairs_index(pairs@);
                assert(attr_model_pairs(pairs@) =~= models.update(
                    i as int,
                    (pairs@[i as int].0@, attr_model(pairs@[i as int].1)),
                ));
            }
            return ;
        }
        i = i + 1;
    }
    proof {
        lemma_first_key_index(models, k@);
        assert(first_key_index(models, k@) == -1) by {
            if first_key_index(models, k@) != -1 {
                let j = first_key_index(models, k@);
                assert(models[j].0 != k@);
            }
        }
    }
    pairs.push((k, v));
    proof {
        lemma_attr_model_pairs_push(orig, k, v);
    }
}

// Compound builders: simple accumulators finalized into one wire value.
// Each one is consumed by `end` and cannot be reused.
/// Accumulates the elements of a sequence, a tuple or a tuple struct into an
/// ordered wire list.
pub struct AttributeValueSeqTupleAndTupleStructSerializer {
    values: Vec<AttributeValue>,
}

impl View for AttributeValueSeqTupleAndTupleStructSerializer {
    type V = Seq<AttrModel>;

    closed spec fn view(&self) -> Seq<AttrModel> {
        attr_models(self.values@)
    }
}

impl AttributeValueSeqTupleAndTupleStructSerializer {
    pub fn new() -> (r: Self)
        ensures
            r@ == Seq::<AttrModel>::empty(),
    {
        AttributeValueSeqTupleAndTupleStructSerializer { values: Vec::new() }
    }

    pub fn serialize_element(&mut self, elem: AttributeValue)
        ensures
            final(self)@ == old(self)@.push(elem.deep_view()),
    {
        proof {
            lemma_attr_models_push(self.values@, elem);
        }
        self.values.push(elem);
    }

    pub fn end(self) -> (r: AttributeValue)
        ensures
            r.deep_view() == model_l(self@),
    {
        AttributeValue::of_l(self.values)
    }
}

/// Accumulates string-keyed entries into a wire map.  A key must itself have
/// encoded to a wire string; a value may only follow a set key.
pub struct AttributeValueMapSerializer {
    key: Option<String>,
    values: Vec<(String, AttributeValue)>,
}

impl View for AttributeValueMapSerializer {
    type V = (Option<Seq<char>>, Seq<(Seq<char>, AttrModel)>);

    closed spec fn view(&self) -> (Option<Seq<char>>, Seq<(Seq<char>, AttrModel)>) {
        (
            match self.key {
                Some(k) => Some(k@),
                None => None,
            },
            attr_model_pairs(self.values@),
        )
    }
}

impl AttributeValueMapSerializer {
    pub fn new() -> (r: Self)
        ensures
            r@ == (None::<Seq<char>>, Seq::<(Seq<char>, AttrModel)>::empty()),
    {
        AttributeValueMapSerializer { key: None, values: Vec::new() }
    }

    /// Record the next key: the encoding of the key value must have its
    /// string field populated, else the entry is rejected.  On rejection the
    /// builder is unchanged (an error from the key's own encoding is replaced
    /// by the key rejection).
    pub fn serialize_key(&mut self, key: Result<AttributeValue, Error>) -> (r: Result<(), Error>)
        ensures
            key is Ok && key->Ok_0.deep_view().s is Some ==> r is Ok && final(self)@.0 == Some(
                key->Ok_0.deep_view().s->Some_0,
            ) && final(self)@.1 == old(self)@.1,
            !(key is Ok && key->Ok_0.deep_view().s is Some) ==> r is Err && r->Err_0@
                == "Key Must Be String"@ && final(self)@ == old(self)@,
    {
        match key {
            Ok(AttributeValue { s: Some(text), .. }) => {
                self.key = Some(text);
                Ok(())
            },
            _ => Err(Error::new("Key Must Be String")),
        }
    }

    /// Insert the next value under the most recently recorded key.  Without a
    /// set key, or when the value's own encoding failed, the entry is
    /// rejected and the builder is unchanged.
    pub fn serialize_value(&mut self, value: Result<AttributeValue, Error>) -> (r: Result<
        (),
        Error,
    >)
        ensures
            old(self)@.0 is Some && value is Ok ==> r is Ok && final(self)@.0 == old(self)@.0
                && final(self)@.1 == spec_upsert(
                old(self)@.1,
                old(self)@.0->Some_0,
                value->Ok_0.deep_view(),
            ),
            !(old(self)@.0 is Some && value is Ok) ==> r is Err && r->Err_0@
                == "Key Must Be Set and Value Must Be Serializable"@ && final(self)@ == old(
                self,
            )@,
    {
        match value {
            Ok(av) => match &self.key {
                Some(k) => {
                    let kk = k.clone();
                    map_upsert(&mut self.values, kk, av);
                    Ok(())
                },
                None => Err(Error::new("Key Must Be Set and Value Must Be Serializable")),
            },
            Err(_) => Err(Error::new("Key Must Be Set and Value Must Be Serializable")),
        }
    }

    pub fn end(self) -> (r: AttributeValue)
        ensures
            r.deep_view() == model_m(self@.1),
    {
        AttributeValue::of_m(self.values)
    }
}

/// Accumulates the named fields of a record into a wire map keyed by field
/// name.
pub struct AttributeValueStructSerializer {
    values: Vec<(String, AttributeValue)>,
}

impl View for AttributeValueStructSerializer {
    type V = Seq<(Seq<char>, AttrModel)>;

    closed spec fn view(&self) -> Seq<(Seq<char>, AttrModel)> {
        attr_model_pairs(self.values@)
    }
}

impl AttributeValueStructSerializer {
    pub fn new() -> (r: Self)
        ensures
            r@ == Seq::<(Seq<char>, AttrModel)>::empty(),
    {
        AttributeValueStructSerializer { values: Vec::new() }
    }

    pub fn serialize_field(&mut self, key: &str, value: AttributeValue)
        ensures
            final(self)@ == spec_upsert(old(self)@, key@, value.deep_view()),
    {
        map_upsert(&mut self.values, key.to_owned(), value);
    }

    pub fn end(self) -> (r: AttributeValue)
        ensures
            r.deep_view() == model_m(self@),
    {
        AttributeValue::of_m(self.values)
    }
}

/// Accumulates the named fields of a struct variant; finalizing wraps them in
/// a single-entry map keyed by the variant name.
pub struct AttributeValueStructVariantSerializer {
    values: Vec<(String, AttributeValue)>,
    variant: String,
}

impl View for AttributeValueStructVariantSerializer {
    type V = (Seq<char>, Seq<(Seq<char>, AttrModel)>);

    closed spec fn view(&self) -> (Seq<char>, Seq<(Seq<char>, AttrModel)>) {
        (self.variant@, attr_model_pairs(self.values@))
    }
}

impl AttributeValueStructVariantSerializer {
    pub fn new(variant: String) -> (r: Self)
        ensures
            r@ == (variant@, Seq::<(Seq<char>, AttrModel)>::empty()),
    {
        AttributeValueStructVariantSerializer { values: Vec::new(), variant }
    }

    pub fn serialize_field(&mut self, key: &str, value: AttributeValue)
        ensures
            final(self)@.0 == old(self)@.0,
            final(self)@.1 == spec_upsert(old(self)@.1, key@, value.deep_view()),
    {
        map_upsert(&mut self.values, key.to_owned(), value);
    }

    pub fn end(self) -> (r: AttributeValue)
        ensures
            r.deep_view() == model_m(seq![(self@.0, model_m(self@.1))]),
    {
        let ghost fields = attr_model_pairs(self.values@);
        let inner = AttributeValue::of_m(self.values);
        let pairs: Vec<(String, AttributeValue)> = vec![(self.variant, inner)];
        proof {
            assert(pairs@.drop_first() =~= Seq::<(String, AttributeValue)>::empty());
            assert(attr_model_pairs(Seq::<(String, AttributeValue)>::empty()) =~= Seq::<
                (Seq<char>, AttrModel),
            >::empty());
            assert(attr_model_pairs(pairs@) =~= seq![(pairs@[0].0@, model_m(fields))]);
        }
        AttributeValue::of_m(pairs)
    }
}

/// Accumulates the positional fields of a tuple variant; finalizing wraps
/// them in a single-entry map keyed by the variant name.
pub struct AttributeValueTupleVariantSerializer {
    values: Vec<AttributeValue>,
    variant: String,
}

impl View for AttributeValueTupleVariantSerializer {
    type V = (Seq<char>, Seq<AttrModel>);

    closed spec fn view(&self) -> (Seq<char>, Seq<AttrModel>) {
        (self.variant@, attr_models(self.values@))
    }
}

impl AttributeValueTupleVariantSerializer {
    pub fn new(variant: String) -> (r: Self)
        ensures
            r@ == (variant@, Seq::<AttrModel>::empty()),
    {
        AttributeValueTupleVariantSerializer { values: Vec::new(), variant }
    }

    pub fn serialize_field(&mut self, value: AttributeValue)
        ensures
            final(self)@.0 == old(self)@.0,
            final(self)@.1 == old(self)@.1.push(value.deep_view()),
    {
        proof {
            lemma_attr_models_push(self.values@, value);
        }
        self.values.push(value);
    }

    pub fn end(self) -> (r: AttributeValue)
        ensures
            r.deep_view() == model_m(seq![(self@.0, model_l(self@.1))]),
    {
        let ghost items = attr_models(self.values@);
        let inner = AttributeValue::of_l(self.values);
        let pairs: Vec<(String, AttributeValue)> = vec![(self.variant, inner)];
        proof {
            assert(pairs@.drop_first() =~= Seq::<(String, AttributeValue)>::empty());
            assert(attr_model_pairs(Seq::<(String, AttributeValue)>::empty()) =~= Seq::<
                (Seq<char>, AttrModel),
            >::empty());
            assert(attr_model_pairs(pairs@) =~= seq![(pairs@[0].0@, model_l(items))]);
        }
        AttributeValue::of_m(pairs)
    }
}

// A failed prefix decides the whole encoding.
proof fn lemma_encode_items_prefix_err(items: Seq<Value>, j: int)
    requires
        0 <= j <= items.len(),
        spec_encode_items(items.take(j)) is Err,
    ensures
        spec_encode_items(items) == spec_encode_items(items.take(j)),
    decreases items.len(),
{
    if j == items.len() {
        assert(items.take(j) =~= items);
    } else {
        assert(items.drop_last().take(j) =~= items.take(j));
        lemma_encode_items_prefix_err(items.drop_last(), j);
    }
}

proof fn lemma_encode_entries_prefix_err(pairs: Seq<(Value, Value)>, j: int)
    requires
        0 <= j <= pairs.len(),
        spec_encode_entries(pairs.take(j)) is Err,
    ensures
        spec_encode_entries(pairs) == spec_encode_entries(pairs.take(j)),
    decreases pairs.len(),
{
    if j == pairs.len() {
        assert(pairs.take(j) =~= pairs);
    } else {
        assert(pairs.drop_last().take(j) =~= pairs.take(j));
        lemma_encode_entries_prefix_err(pairs.drop_last(), j);
    }
}

proof fn lemma_encode_fields_prefix_err(fields: Seq<(String, Value)>, j: int)
    requires
        0 <= j <= fields.len(),
        spec_encode_fields(fields.take(j)) is Err,
    ensures
        spec_encode_fields(fields) == spec_encode_fields(fields.take(j)),
    decreases fields.len(),
{
    if j == fields.len() {
        assert(fields.take(j) =~= fields);
    } else {
        assert(fields.drop_last().take(j) =~= fields.take(j));
        lemma_encode_fields_prefix_err(fields.drop_last(), j);
    }
}

/// Encode a self-described value as one wire value.  Encoding fails only on a
/// map key that does not encode to a wire string, or on a map entry whose
/// value could not be encoded (reported as a missing key/value pair, as the
/// map builder does).
#[verifier::loop_isolation(false)]
pub fn to_attribute_value(v: &Value) -> (r: Result<AttributeValue, Error>)
    ensures
        match spec_encode(*v) {
            Ok(w) => r is Ok && r->Ok_0.deep_view() == w,
            Err(m) => r is Err && r->Err_0@ == m,
        },
    decreases *v,
{
    match v {
        Value::Bool(b) => Ok(serialize_bool(*b)),
        Value::Int(i) => Ok(serialize_i64(*i)),
        Value::UInt(u) => Ok(serialize_u64(*u)),
        Value::Char(c) => Ok(serialize_char(*c)),
        Value::Str(t) => Ok(serialize_str(t.as_str())),
        Value::Bytes(bs) => Ok(serialize_bytes(bs)),
        Value::Absent => Ok(serialize_unit()),
        Value::Unit => Ok(serialize_unit()),
        Value::Present(x) => to_attribute_value(x),
        Value::Newtype(x) => to_attribute_value(x),
        Value::List(items) => {
            let mut b = AttributeValueSeqTupleAndTupleStructSerializer::new();
            let mut i: usize = 0;
            while i < items.len()
                invariant
                    i <= items.len(),
                    spec_encode_items(items@.take(i as int)) == Ok::<Seq<AttrModel>, Seq<char>>(
                        b@,
                    ),
                decreases items.len() - i,
            {
                proof {
                    assert(items@.take(i + 1).drop_last() =~= items@.take(i as int));
                    assert(items@.take(i + 1).last() == items@[i as int]);
                }
                match to_attribute_value(&items[i]) {
                    Ok(w) => b.serialize_element(w),
                    Err(e) => {
                        proof {
                            lemma_encode_items_prefix_err(items@, i + 1);
                        }
                        return Err(e);
                    },
                }
                i = i + 1;
            }
            proof {
                assert(items@.take(items@.len() as int) =~= items@);
            }
            Ok(b.end())
        },
        Value::Dict(pairs) => {
            let mut b = AttributeValueMapSerializer::new();
            let mut i: usize = 0;
            while i < pairs.len()
                invariant
                    i <= pairs.len(),
                    spec_encode_entries(pairs@.take(i as int)) == Ok::<
                        Seq<(Seq<char>, AttrModel)>,
                        Seq<char>,
                    >(b@.1),
                decreases pairs.len() - i,
            {
                proof {
                    assert(pairs@.take(i + 1).drop_last() =~= pairs@.take(i as int));
                    assert(pairs@.take(i + 1).last() == pairs@[i as int]);
                }
                let kr = to_attribute_value(&pairs[i].0);
                match b.serialize_key(kr) {
                    Ok(()) => {},
                    Err(e) => {
                        proof {
                            lemma_encode_entries_prefix_err(pairs@, i + 1);
                        }
                        return Err(e);
                    },
                }
                let vr = to_attribute_value(&pairs[i].1);
                match b.serialize_value(vr) {
                    Ok(()) => {},
                    Err(e) => {
                        proof {
                            lemma_encode_entries_prefix_err(pairs@, i + 1);
                        }
                        return Err(e);
                    },
                }
                i = i + 1;
            }
            proof {
                assert(pairs@.take(pairs@.len() as int) =~= pairs@);
            }
            Ok(b.end())
        },
        Value::Record(fields) => {
            let mut b = AttributeValueStructSerializer::new();
            let mut i: usize = 0;
            while i < fields.len()
                invariant
                    i <= fields.len(),
                    spec_encode_fields(fields@.take(i as int)) == Ok::<
                        Seq<(Seq<char>, AttrModel)>,
                        Seq<char>,
                    >(b@),
                decreases fields.len() - i,
            {
                proof {
                    assert(fields@.take(i + 1).drop_last() =~= fields@.take(i as int));
                    assert(fields@.take(i + 1).last() == fields@[i as int]);
                }
                match to_attribute_value(&fields[i].1) {
                    Ok(w) => b.serialize_field(fields[i].0.as_str(), w),
                    Err(e) => {
                        proof {
                            lemma_encode_fields_prefix_err(fields@, i + 1);
                        }
                        return Err(e);
                    },
                }
                i = i + 1;
            }
            proof {
                assert(fields@.take(fields@.len() as int) =~= fields@);
            }
            Ok(b.end())
        },
        Value::UnitVariant(t) => Ok(serialize_unit_variant(t.as_str())),
        Value::NewtypeVariant(t, x) => match to_attribute_value(x) {
            Ok(w) => {
                let ghost inner = w.deep_view();
                let pairs: Vec<(String, AttributeValue)> = vec![(t.clone(), w)];
                proof {
                    assert(pairs@.drop_first() =~= Seq::<(String, AttributeValue)>::empty());
                    assert(attr_model_pairs(Seq::<(String, AttributeValue)>::empty()) =~= Seq::<
                        (Seq<char>, AttrModel),
                    >::empty());
                    assert(attr_model_pairs(pairs@) =~= seq![(t@, inner)]);
                }
                Ok(AttributeValue::of_m(pairs))
            },
            Err(e) => Err(e),
        },
        Value::TupleVariant(t, items) => {
            let mut b = AttributeValueTupleVariantSerializer::new(t.clone());
            let mut i: usize = 0;
            while i < items.len()
                invariant
                    i <= items.len(),
                    b@.0 == t@,
                    spec_encode_items(items@.take(i as int)) == Ok::<Seq<AttrModel>, Seq<char>>(
                        b@.1,
                    ),
                decreases items.len() - i,
            {
                proof {
                    assert(items@.take(i + 1).drop_last() =~= items@.take(i as int));
                    assert(items@.take(i + 1).last() == items@[i as int]);
                }
                match to_attribute_value(&items[i]) {
                    Ok(w) => b.serialize_field(w),
                    Err(e) => {
                        proof {
                            lemma_encode_items_prefix_err(items@, i + 1);
                        }
                        return Err(e);
                    },
                }
                i = i + 1;
            }
            proof {
                assert(items@.take(items@.len() as int) =~= items@);
            }
            Ok(b.end())
        },
        Value::StructVariant(t, fields) => {
            let mut b = AttributeValueStructVariantSerializer::new(t.clone());
            let mut i: usize = 0;
            while i < fields.len()
                invariant
                    i <= fields.len(),
                    b@.0 == t@,
                    spec_encode_fields(fields@.take(i as int)) == Ok::<
                        Seq<(Seq<char>, AttrModel)>,
                        Seq<char>,
                    >(b@.1),
                decreases fields.len() - i,
            {
                proof {
                    assert(fields@.take(i + 1).drop_last() =~= fields@.take(i as int));
                    assert(fields@.take(i + 1).last() == fields@[i as int]);
                }
                match to_attribute_value(&fields[i].1) {
                    Ok(w) => b.serialize_field(fields[i].0.as_str(), w),
                    Err(e) => {
                        proof {
                            lemma_encode_fields_prefix_err(fields@, i + 1);
                        }
                        return Err(e);
                    },
                }
                i = i + 1;
            }
            proof {
                assert(fields@.take(fields@.len() as int) =~= fields@);
            }
            Ok(b.end())
        },
    }
}

} // verus!
