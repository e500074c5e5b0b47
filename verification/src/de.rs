use vstd::prelude::*;

use crate::error::Error;
use crate::numbers::{parse_i64, parse_i64_spec};
use crate::value::{
    value_model, value_model_entries, value_model_fields, value_models, Shape, Value, ValueModel,
    VariantShape,
};
use crate::wire::{
    attr_model, attr_model_pairs, attr_models, lemma_attr_model_pairs_index,
    lemma_attr_models_index, AttrModel, AttributeValue,
};

verus! {

// Self-describing dispatch: which wire field is populated, inspected in the
// fixed precedence boolean, list, map, number, null flag, string.  Number
// text is parsed as a signed 64-bit integer first; text that does not parse
// that way is left to the caller (a float parse happens outside this crate).
pub enum AnyDispatch {
    Boolean(bool),
    ListOf(Seq<AttrModel>),
    MapOf(Seq<(Seq<char>, AttrModel)>),
    Integer(i64),
    OtherNumber(Seq<char>),
    NullMarker,
    Text(Seq<char>),
    NoField,
}

pub open spec fn spec_any(w: AttrModel) -> AnyDispatch {
    if w.boolean is Some {
        AnyDispatch::Boolean(w.boolean->Some_0)
    } else if w.l is Some {
        AnyDispatch::ListOf(w.l->Some_0)
    } else if w.m is Some {
        AnyDispatch::MapOf(w.m->Some_0)
    } else if w.n is Some {
        match parse_i64_spec(w.n->Some_0) {
            Some(i) => AnyDispatch::Integer(i),
            None => AnyDispatch::OtherNumber(w.n->Some_0),
        }
    } else if w.null is Some {
        AnyDispatch::NullMarker
    } else if w.s is Some {
        AnyDispatch::Text(w.s->Some_0)
    } else {
        AnyDispatch::NoField
    }
}

/// The first index whose name equals `k`, or -1.
pub open spec fn find_named<T>(entries: Seq<(String, T)>, k: Seq<char>) -> int
    decreases entries,
{
    if entries.len() == 0 {
        -1
    } else if entries[0].0@ == k {
        0
    } else {
        let r = find_named(entries.drop_first(), k);
        if r == -1 {
            -1
        } else {
            r + 1
        }
    }
}

pub proof fn lemma_find_named<T>(entries: Seq<(String, T)>, k: Seq<char>)
    ensures
        find_named(entries, k) == -1 ==> forall|i: int|
            0 <= i < entries.len() ==> (#[trigger] entries[i]).0@ != k,
        find_named(entries, k) != -1 ==> {
            let j = find_named(entries, k);
            &&& 0 <= j < entries.len()
            &&& entries[j].0@ == k
            &&& forall|i: int| 0 <= i < j ==> (#[trigger] entries[i]).0@ != k
        },
    decreases entries,
{
    if entries.len() > 0 && entries[0].0@ != k {
        lemma_find_named(entries.drop_first(), k);
        let r = find_named(entries.drop_first(), k);
        if r == -1 {
            assert forall|i: int| 0 <= i < entries.len() implies (#[trigger] entries[i]).0@
                != k by {
                if i > 0 {
                    assert(entries.drop_first()[i - 1] == entries[i]);
                }
            }
        } else {
            assert(entries.drop_first()[r] == entries[r + 1]);
            assert forall|i: int| 0 <= i < r + 1 implies (#[trigger] entries[i]).0@ != k by {
                if i > 0 {
                    assert(entries.drop_first()[i - 1] == entries[i]);
                }
            }
        }
    }
}

// Decoding a record: wire entries are read in order; a key that names a
// declared field fills it (at most once), any other key has its value read
// self-describingly and dropped; at the end every field must be filled.
pub open spec fn record_init(n: nat) -> Seq<Option<ValueModel>> {
    Seq::new(n, |i: int| None::<ValueModel>)
}

pub open spec fn record_all_set(filled: Seq<Option<ValueModel>>) -> bool {
    forall|i: int| 0 <= i < filled.len() ==> (#[trigger] filled[i]) is Some
}

pub open spec fn record_assemble(
    fields: Seq<(String, Shape)>,
    filled: Seq<Option<ValueModel>>,
) -> Seq<(Seq<char>, ValueModel)> {
    Seq::new(fields.len(), |i: int| (fields[i].0@, filled[i]->Some_0))
}

// What decoding a wire value at a target shape yields: the decoded value's
// model, or the message of the first failure.
pub open spec fn spec_decode(s: Shape, w: AttrModel) -> Result<ValueModel, Seq<char>>
    decreases w, s,
{
    match s {
        Shape::Bool => match spec_any(w) {
            AnyDispatch::Boolean(b) => Ok(ValueModel::Bool(b)),
            AnyDispatch::OtherNumber(_) => Err("Numeric Value Expected"@),
            AnyDispatch::NoField => Err("Supported Value Expected"@),
            _ => Err("Boolean Value Expected"@),
        },
        Shape::Int => match spec_any(w) {
            AnyDispatch::Integer(i) => Ok(ValueModel::Int(i)),
            AnyDispatch::OtherNumber(_) => Err("Numeric Value Expected"@),
            AnyDispatch::NoField => Err("Supported Value Expected"@),
            _ => Err("Numeric Value Expected"@),
        },
        Shape::UInt => match spec_any(w) {
            AnyDispatch::Integer(i) => if i >= 0 {
                Ok(ValueModel::UInt(i as u64))
            } else {
                Err("Numeric Value Expected"@)
            },
            AnyDispatch::OtherNumber(_) => Err("Numeric Value Expected"@),
            AnyDispatch::NoField => Err("Supported Value Expected"@),
            _ => Err("Numeric Value Expected"@),
        },
        Shape::Str => match spec_any(w) {
            AnyDispatch::Text(t) => Ok(ValueModel::Str(t)),
            AnyDispatch::OtherNumber(_) => Err("Numeric Value Expected"@),
            AnyDispatch::NoField => Err("Supported Value Expected"@),
            _ => Err("String Value Expected"@),
        },
        Shape::Unit => match spec_any(w) {
            AnyDispatch::NullMarker => Ok(ValueModel::Unit),
            AnyDispatch::OtherNumber(_) => Err("Numeric Value Expected"@),
            AnyDispatch::NoField => Err("Supported Value Expected"@),
            _ => Err("Null Value Expected"@),
        },
        Shape::Char => if w.s is Some {
            if w.s->Some_0.len() == 0 {
                Err("Non-Zero Length String Expected"@)
            } else {
                Ok(ValueModel::Char(w.s->Some_0[0]))
            }
        } else {
            Err("String Value Expected (Char)"@)
        },
        Shape::Bytes => if w.b is Some {
            Ok(ValueModel::Bytes(w.b->Some_0))
        } else {
            Err("Byte Vector Value Expected"@)
        },
        Shape::Optional(inner) => if w.null == Some(true) {
            Ok(ValueModel::Absent)
        } else {
            match spec_decode(*inner, w) {
                Ok(x) => Ok(ValueModel::Present(Box::new(x))),
                Err(m) => Err(m),
            }
        },
        Shape::Newtype(inner) => match spec_decode(*inner, w) {
            Ok(x) => Ok(ValueModel::Newtype(Box::new(x))),
            Err(m) => Err(m),
        },
        Shape::List(es) => match spec_any(w) {
            AnyDispatch::ListOf(ws) => match spec_decode_items(*es, ws) {
                Ok(xs) => Ok(ValueModel::List(xs)),
                Err(m) => Err(m),
            },
            AnyDispatch::OtherNumber(_) => Err("Numeric Value Expected"@),
            AnyDispatch::NoField => Err("Supported Value Expected"@),
            _ => Err("List Value Expected"@),
        },
        Shape::Tuple(shapes) => match spec_any(w) {
            AnyDispatch::ListOf(ws) => match spec_decode_tuple(shapes@, ws) {
                Ok(xs) => Ok(ValueModel::List(xs)),
                Err(m) => Err(m),
            },
            AnyDispatch::OtherNumber(_) => Err("Numeric Value Expected"@),
            AnyDispatch::NoField => Err("Supported Value Expected"@),
            _ => Err("List Value Expected"@),
        },
        Shape::Dict(vs) => match spec_any(w) {
            AnyDispatch::MapOf(ps) => match spec_decode_entries(*vs, ps) {
                Ok(xs) => Ok(ValueModel::Dict(xs)),
                Err(m) => Err(m),
            },
            AnyDispatch::OtherNumber(_) => Err("Numeric Value Expected"@),
            AnyDispatch::NoField => Err("Supported Value Expected"@),
            _ => Err("Map Value Expected"@),
        },
        Shape::Record(fields) => match spec_any(w) {
            AnyDispatch::MapOf(ps) => match spec_decode_record(
                fields@,
                ps,
                record_init(fields@.len() as nat),
            ) {
                Err(m) => Err(m),
                Ok(filled) => if record_all_set(filled) {
                    Ok(ValueModel::Record(record_assemble(fields@, filled)))
                } else {
                    Err("Missing Field"@)
                },
            },
            AnyDispatch::OtherNumber(_) => Err("Numeric Value Expected"@),
            AnyDispatch::NoField => Err("Supported Value Expected"@),
            _ => Err("Map Value Expected"@),
        },
        Shape::Union(variants) => if w.m is Some {
            let ps = w.m->Some_0;
            if ps.len() == 0 {
                Err("Key/Value Expected"@)
            } else {
                let k = ps[0].0;
                let wv = ps[0].1;
                let j = find_named(variants@, k);
                if j == -1 {
                    Err("Unknown Variant"@)
                } else {
                    spec_decode_variant(k, variants@[j].1, wv)
                }
            }
        } else {
            Err("Map Value Expected"@)
        },
        Shape::Any => match spec_any(w) {
            AnyDispatch::Boolean(b) => Ok(ValueModel::Bool(b)),
            AnyDispatch::ListOf(ws) => match spec_decode_items(Shape::Any, ws) {
                Ok(xs) => Ok(ValueModel::List(xs)),
                Err(m) => Err(m),
            },
            AnyDispatch::MapOf(ps) => match spec_decode_entries(Shape::Any, ps) {
                Ok(xs) => Ok(ValueModel::Dict(xs)),
                Err(m) => Err(m),
            },
            AnyDispatch::Integer(i) => Ok(ValueModel::Int(i)),
            AnyDispatch::OtherNumber(_) => Err("Numeric Value Expected"@),
            AnyDispatch::NullMarker => Ok(ValueModel::Unit),
            AnyDispatch::Text(t) => Ok(ValueModel::Str(t)),
            AnyDispatch::NoField => Err("Supported Value Expected"@),
        },
    }
}

/// Decode every element of a wire list at one element shape.
pub open spec fn spec_decode_items(es: Shape, ws: Seq<AttrModel>) -> Result<
    Seq<ValueModel>,
    Seq<char>,
>
    decreases ws, es,
{
    if ws.len() == 0 {
        Ok(Seq::empty())
    } else {
        match spec_decode_items(es, ws.drop_last()) {
            Err(m) => Err(m),
            Ok(xs) => match spec_decode(es, ws.last()) {
                Err(m) => Err(m),
                Ok(x) => Ok(xs.push(x)),
            },
        }
    }
}

/// Decode the elements of a wire list positionally against tuple shapes; a
/// missing element fails, extra elements are left unread.
pub open spec fn spec_decode_tuple(shapes: Seq<Shape>, ws: Seq<AttrModel>) -> Result<
    Seq<ValueModel>,
    Seq<char>,
>
    decreases ws, shapes,
{
    if shapes.len() == 0 {
        Ok(Seq::empty())
    } else {
        match spec_decode_tuple(shapes.drop_last(), ws) {
            Err(m) => Err(m),
            Ok(xs) => if ws.len() < shapes.len() {
                Err("Element Value Expected"@)
            } else {
                match spec_decode(shapes.last(), ws[shapes.len() - 1]) {
                    Err(m) => Err(m),
                    Ok(x) => Ok(xs.push(x)),
                }
            },
        }
    }
}

/// Decode wire map entries in order: every key becomes a string value, every
/// value is decoded at one value shape.
pub open spec fn spec_decode_entries(vs: Shape, ps: Seq<(Seq<char>, AttrModel)>) -> Result<
    Seq<(ValueModel, ValueModel)>,
    Seq<char>,
>
    decreases ps, vs,
{
    if ps.len() == 0 {
        Ok(Seq::empty())
    } else {
        match spec_decode_entries(vs, ps.drop_last()) {
            Err(m) => Err(m),
            Ok(xs) => match spec_decode(vs, ps.last().1) {
                Err(m) => Err(m),
                Ok(x) => Ok(xs.push((ValueModel::Str(ps.last().0), x))),
            },
        }
    }
}

/// One pass over a record's wire entries, filling declared fields by name.
pub open spec fn spec_decode_record(
    fields: Seq<(String, Shape)>,
    ps: Seq<(Seq<char>, AttrModel)>,
    filled: Seq<Option<ValueModel>>,
) -> Result<Seq<Option<ValueModel>>, Seq<char>>
    decreases ps, fields,
{
    if ps.len() == 0 {
        Ok(filled)
    } else {
        let k = ps[0].0;
        let wv = ps[0].1;
        let j = find_named(fields, k);
        if j == -1 {
            match spec_decode(Shape::Any, wv) {
                Err(m) => Err(m),
                Ok(_) => spec_decode_record(fields, ps.drop_first(), filled),
            }
        } else if filled[j] is Some {
            Err("Duplicate Field"@)
        } else {
            match spec_decode(fields[j].1, wv) {
                Err(m) => Err(m),
                Ok(x) => spec_decode_record(fields, ps.drop_first(), filled.update(j, Some(x))),
            }
        }
    }
}

/// What decoding the payload of one tagged-union variant yields.
pub open spec fn spec_decode_variant(k: Seq<char>, vs: VariantShape, w: AttrModel) -> Result<
    ValueModel,
    Seq<char>,
>
    decreases w, vs,
{
    match vs {
        VariantShape::Unit => if w.null == Some(true) {
            Ok(ValueModel::UnitVariant(k))
        } else {
            Err("Null Value Expected"@)
        },
        VariantShape::Newtype(inner) => match spec_decode(*inner, w) {
            Ok(x) => Ok(ValueModel::NewtypeVariant(k, Box::new(x))),
            Err(m) => Err(m),
        },
        VariantShape::Tuple(shapes) => if w.l is Some {
            match spec_decode_tuple(shapes@, w.l->Some_0) {
                Ok(xs) => Ok(ValueModel::TupleVariant(k, xs)),
                Err(m) => Err(m),
            }
        } else {
            Err("List Value Expected"@)
        },
        VariantShape::Record(fields) => if w.m is Some {
            match spec_decode_record(fields@, w.m->Some_0, record_init(fields@.len() as nat)) {
                Err(m) => Err(m),
                Ok(filled) => if record_all_set(filled) {
                    Ok(ValueModel::StructVariant(k, record_assemble(fields@, filled)))
                } else {
                    Err("Missing Field"@)
                },
            }
        } else {
            Err("Map Value Expected"@)
        },
    }
}

// The exec mirror of self-describing dispatch, shared by every shape that
// reads through it.
#[derive(Debug, PartialEq)]
pub enum AnyKind {
    Boolean(bool),
    ListKind,
    MapKind,
    Integer(i64),
    OtherNumber,
    NullKind,
    TextKind,
    NoField,
}

/// Which wire field is populated, in the fixed precedence, with number text
/// already parsed as a signed 64-bit integer where it is one.
pub fn dispatch_any(w: &AttributeValue) -> (r: AnyKind)
    ensures
        match spec_any(w.deep_view()) {
            AnyDispatch::Boolean(b) => r == AnyKind::Boolean(b),
            AnyDispatch::ListOf(_) => r == AnyKind::ListKind,
            AnyDispatch::MapOf(_) => r == AnyKind::MapKind,
            AnyDispatch::Integer(i) => r == AnyKind::Integer(i),
            AnyDispatch::OtherNumber(_) => r == AnyKind::OtherNumber,
            AnyDispatch::NullMarker => r == AnyKind::NullKind,
            AnyDispatch::Text(_) => r == AnyKind::TextKind,
            AnyDispatch::NoField => r == AnyKind::NoField,
        },
{
    match &w.boolean {
        Some(b) => AnyKind::Boolean(*b),
        None => match &w.l {
            Some(_) => AnyKind::ListKind,
            None => match &w.m {
                Some(_) => AnyKind::MapKind,
                None => match &w.n {
                    Some(text) => match parse_i64(text.as_str()) {
                        Some(i) => AnyKind::Integer(i),
                        None => AnyKind::OtherNumber,
                    },
                    None => match &w.null {
                        Some(_) => AnyKind::NullKind,
                        None => match &w.s {
                            Some(_) => AnyKind::TextKind,
                            None => AnyKind::NoField,
                        },
                    },
                },
            },
        },
    }
}

// Cursor readers over a wire list and a wire map, which the decode walk
// drives: each yields one element per call and signals exhaustion.
/// Yields the elements of a wire list in stored order.
pub struct AttributeValueSeqDeserializer {
    values: Vec<AttributeValue>,
}

impl View for AttributeValueSeqDeserializer {
    type V = Seq<AttrModel>;

    closed spec fn view(&self) -> Seq<AttrModel> {
        attr_models(self.values@)
    }
}

impl AttributeValueSeqDeserializer {
    pub fn new(values: Vec<AttributeValue>) -> (r: Self)
        ensures
            r@ == attr_models(values@),
    {
        AttributeValueSeqDeserializer { values }
    }

    /// The next element, or nothing once the list is exhausted.
    pub fn next_element(&mut self) -> (r: Option<AttributeValue>)
        ensures
            old(self)@.len() == 0 ==> r is None && final(self)@ == old(self)@,
            old(self)@.len() > 0 ==> {
                &&& r is Some
                &&& r->Some_0.deep_view() == old(self)@[0]
                &&& final(self)@ == old(self)@.drop_first()
            },
    {
        proof {
            lemma_attr_models_index(self.values@);
        }
        if self.values.len() == 0 {
            None
        } else {
            let first = self.values.remove(0);
            proof {
                lemma_attr_models_index(self.values@);
                assert(self.values@ =~= old(self).values@.drop_first());
                assert(attr_models(self.values@) =~= attr_models(old(self).values@).drop_first());
            }
            Some(first)
        }
    }
}

/// Yields the keys and values of a wire map through two synchronized
/// cursors: a value may be requested only after its key.
pub struct AttributeValueMapDeserializer {
    keys: Vec<String>,
    values: Vec<AttributeValue>,
}

impl View for AttributeValueMapDeserializer {
    type V = (Seq<Seq<char>>, Seq<AttrModel>);

    closed spec fn view(&self) -> (Seq<Seq<char>>, Seq<AttrModel>) {
        (
            Seq::new(self.keys@.len(), |i: int| self.keys@[i]@),
            attr_models(self.values@),
        )
    }
}

impl AttributeValueMapDeserializer {
    pub fn new(pairs: Vec<(String, AttributeValue)>) -> (r: Self)
        ensures
            r@.0.len() == pairs@.len(),
            r@.1.len() == pairs@.len(),
            forall|i: int|
                0 <= i < pairs@.len() ==> r@.0[i] == attr_model_pairs(pairs@)[i].0 && r@.1[i]
                    == attr_model_pairs(pairs@)[i].1,
    {
        let ghost orig = pairs@;
        proof {
            lemma_attr_model_pairs_index(orig);
        }
        let mut rest = pairs;
        let mut keys: Vec<String> = Vec::new();
        let mut values: Vec<AttributeValue> = Vec::new();
        while rest.len() > 0
            invariant
                keys@.len() == values@.len(),
                keys@.len() + rest@.len() == orig.len(),
                rest@ =~= orig.skip(keys@.len() as int),
                forall|j: int|
                    0 <= j < keys@.len() ==> (#[trigger] keys@[j])@ == orig[j].0@ && values@[j]
                        == orig[j].1,
            decreases rest.len(),
        {
            let ghost done = keys@.len() as int;
            let (k, v) = rest.remove(0);
            proof {
                assert(orig.skip(done)[0] == orig[done]);
                assert(rest@ =~= orig.skip(done).drop_first());
                assert(orig.skip(done).drop_first() =~= orig.skip(done + 1));
            }
            keys.push(k);
            values.push(v);
        }
        proof {
            lemma_attr_models_index(values@);
        }
        AttributeValueMapDeserializer { keys, values }
    }

    /// The next key, or nothing once the keys are exhausted.  The value
    /// cursor is untouched.
    pub fn next_key(&mut self) -> (r: Option<String>)
        ensures
            old(self)@.0.len() == 0 ==> r is None && final(self)@ == old(self)@,
            old(self)@.0.len() > 0 ==> {
                &&& r is Some
                &&& r->Some_0@ == old(self)@.0[0]
                &&& final(self)@.0 == old(self)@.0.drop_first()
                &&& final(self)@.1 == old(self)@.1
            },
    {
        if self.keys.len() == 0 {
            None
        } else {
            let first = self.keys.remove(0);
            proof {
                assert(Seq::new(self.keys@.len(), |i: int| self.keys@[i]@) =~= Seq::new(
                    old(self).keys@.len(),
                    |i: int| old(self).keys@[i]@,
                ).drop_first());
            }
            Some(first)
        }
    }

    /// The next value.  Requesting a value before its key, or more values
    /// than keys, fails: a value is owed only while strictly more values
    /// than keys remain.
    pub fn next_value(&mut self) -> (r: Result<AttributeValue, Error>)
        ensures
            old(self)@.1.len() > old(self)@.0.len() ==> r is Ok && r->Ok_0.deep_view() == old(
                self,
            )@.1[0] && final(self)@.1 == old(self)@.1.drop_first() && final(self)@.0 == old(
                self,
            )@.0,
            old(self)@.1.len() <= old(self)@.0.len() ==> r is Err && r->Err_0@
                == "Value Expected"@ && final(self)@ == old(self)@,
    {
        proof {
            lemma_attr_models_index(self.values@);
        }
        if self.values.len() > self.keys.len() {
            let first = self.values.remove(0);
            proof {
                lemma_attr_models_index(self.values@);
                assert(self.values@ =~= old(self).values@.drop_first());
                assert(attr_models(self.values@) =~= attr_models(old(self).values@).drop_first());
            }
            Ok(first)
        } else {
            Err(Error::new("Value Expected"))
        }
    }
}

/// Reads a tagged union: the first key/value entry of a wire map, the key
/// being the variant tag.
pub struct AttributeValueEnumDeserializer {
    key: String,
    value: AttributeValue,
}

impl View for AttributeValueEnumDeserializer {
    type V = (Seq<char>, AttrModel);

    closed spec fn view(&self) -> (Seq<char>, AttrModel) {
        (self.key@, attr_model(self.value))
    }
}

impl AttributeValueEnumDeserializer {
    pub fn new(key: String, value: AttributeValue) -> (r: Self)
        ensures
            r@ == (key@, value.deep_view()),
    {
        AttributeValueEnumDeserializer { key, value }
    }

    /// The variant tag and a reader for the variant's payload.
    pub fn variant(self) -> (r: (String, AttributeValueVariantDeserializer))
        ensures
            r.0@ == self@.0,
            r.1@ == self@.1,
    {
        let AttributeValueEnumDeserializer { key, value } = self;
        (key, AttributeValueVariantDeserializer::new(value))
    }
}

/// Take a wire value apart as a tagged union: it must be a map with at least
/// one entry, whose first entry carries the variant tag and payload.
pub fn open_variant(w: AttributeValue) -> (r: Result<AttributeValueEnumDeserializer, Error>)
    ensures
        w.deep_view().m is None ==> r is Err && r->Err_0@ == "Map Value Expected"@,
        w.deep_view().m is Some && w.deep_view().m->Some_0.len() == 0 ==> r is Err && r->Err_0@
            == "Key/Value Expected"@,
        w.deep_view().m is Some && w.deep_view().m->Some_0.len() > 0 ==> r is Ok && r->Ok_0@
            == w.deep_view().m->Some_0[0],
{
    match w.m {
        Some(pairs) => {
            proof {
                lemma_attr_model_pairs_index(pairs@);
            }
            if pairs.len() == 0 {
                Err(Error::new("Key/Value Expected"))
            } else {
                let mut rest = pairs;
                let (k, v) = rest.remove(0);
                Ok(AttributeValueEnumDeserializer::new(k, v))
            }
        },
        None => Err(Error::new("Map Value Expected")),
    }
}

/// Reads the payload of one tagged-union variant, according to the payload
/// kind the target declares.
pub struct AttributeValueVariantDeserializer {
    value: AttributeValue,
}

impl View for AttributeValueVariantDeserializer {
    type V = AttrModel;

    closed spec fn view(&self) -> AttrModel {
        attr_model(self.value)
    }
}

impl AttributeValueVariantDeserializer {
    pub fn new(value: AttributeValue) -> (r: Self)
        ensures
            r@ == value.deep_view(),
    {
        AttributeValueVariantDeserializer { value }
    }

    /// A unit variant's payload must be the null flag set to true.
    pub fn unit_variant(self) -> (r: Result<(), Error>)
        ensures
            self@.null == Some(true) ==> r is Ok,
            self@.null != Some(true) ==> r is Err && r->Err_0@ == "Null Value Expected"@,
    {
        match self.value.null {
            Some(true) => Ok(()),
            _ => Err(Error::new("Null Value Expected")),
        }
    }

    /// A newtype variant's payload is the wire value itself.
    pub fn newtype_variant(self) -> (r: AttributeValue)
        ensures
            r.deep_view() == self@,
    {
        self.value
    }

    /// A tuple variant's payload must be a wire list; its elements are
    /// positional.
    pub fn tuple_variant(self) -> (r: Result<Vec<AttributeValue>, Error>)
        ensures
            self@.l is Some ==> r is Ok && attr_models(r->Ok_0@) == self@.l->Some_0,
            self@.l is None ==> r is Err && r->Err_0@ == "List Value Expected"@,
    {
        match self.value.l {
            Some(items) => Ok(items),
            None => Err(Error::new("List Value Expected")),
        }
    }

    /// A struct variant's payload must be a wire map; its entries are read
    /// by field name.
    pub fn struct_variant(self) -> (r: Result<Vec<(String, AttributeValue)>, Error>)
        ensures
            self@.m is Some ==> r is Ok && attr_model_pairs(r->Ok_0@) == self@.m->Some_0,
            self@.m is None ==> r is Err && r->Err_0@ == "Map Value Expected"@,
    {
        match self.value.m {
            Some(pairs) => Ok(pairs),
            None => Err(Error::new("Map Value Expected")),
        }
    }
}

// A failed prefix decides the whole of a sequence decode.
proof fn lemma_decode_items_prefix_err(es: Shape, ws: Seq<AttrModel>, j: int)
    requires
        0 <= j <= ws.len(),
        spec_decode_items(es, ws.take(j)) is Err,
    ensures
        spec_decode_items(es, ws) == spec_decode_items(es, ws.take(j)),
    decreases ws.len(),
{
    if j == ws.len() {
        assert(ws.take(j) =~= ws);
    } else {
        assert(ws.drop_last().take(j) =~= ws.take(j));
        lemma_decode_items_prefix_err(es, ws.drop_last(), j);
    }
}

proof fn lemma_decode_tuple_prefix_err(shapes: Seq<Shape>, ws: Seq<AttrModel>, j: int)
    requires
        0 <= j <= shapes.len(),
        spec_decode_tuple(shapes.take(j), ws) is Err,
    ensures
        spec_decode_tuple(shapes, ws) == spec_decode_tuple(shapes.take(j), ws),
    decreases shapes.len(),
{
    if j == shapes.len() {
        assert(shapes.take(j) =~= shapes);
    } else {
        assert(shapes.drop_last().take(j) =~= shapes.take(j));
        lemma_decode_tuple_prefix_err(shapes.drop_last(), ws, j);
    }
}

proof fn lemma_decode_entries_prefix_err(vs: Shape, ps: Seq<(Seq<char>, AttrModel)>, j: int)
    requires
        0 <= j <= ps.len(),
        spec_decode_entries(vs, ps.take(j)) is Err,
    ensures
        spec_decode_entries(vs, ps) == spec_decode_entries(vs, ps.take(j)),
    decreases ps.len(),
{
    if j == ps.len() {
        assert(ps.take(j) =~= ps);
    } else {
        assert(ps.drop_last().take(j) =~= ps.take(j));
        lemma_decode_entries_prefix_err(vs, ps.drop_last(), j);
    }
}

pub open spec fn opts_model(s: Seq<Option<Value>>) -> Seq<Option<ValueModel>> {
    Seq::new(
        s.len(),
        |i: int|
            match s[i] {
                Some(v) => Some(value_model(v)),
                None => None,
            },
    )
}

// Borrow the payload behind a populated wire field.
fn borrow_l<'a>(w: &'a AttributeValue) -> (r: &'a Vec<AttributeValue>)
    requires
        w.deep_view().l is Some,
    ensures
        w.l == Some(*r),
        attr_models(r@) == w.deep_view().l->Some_0,
{
    match &w.l {
        Some(items) => items,
        None => vstd::pervasive::unreached(),
    }
}

fn borrow_m<'a>(w: &'a AttributeValue) -> (r: &'a Vec<(String, AttributeValue)>)
    requires
        w.deep_view().m is Some,
    ensures
        w.m == Some(*r),
        attr_model_pairs(r@) == w.deep_view().m->Some_0,
{
    match &w.m {
        Some(pairs) => pairs,
        None => vstd::pervasive::unreached(),
    }
}

fn borrow_s<'a>(w: &'a AttributeValue) -> (r: &'a String)
    requires
        w.deep_view().s is Some,
    ensures
        w.s == Some(*r),
        r@ == w.deep_view().s->Some_0,
{
    match &w.s {
        Some(text) => text,
        None => vstd::pervasive::unreached(),
    }
}

/// The first entry with this name, scanning in order.
fn find_by_name<T>(entries: &Vec<(String, T)>, k: &String) -> (r: Option<usize>)
    ensures
        r is None ==> find_named(entries@, k@) == -1,
        r is Some ==> find_named(entries@, k@) == r->Some_0 && r->Some_0 < entries@.len(),
{
    proof {
        lemma_find_named(entries@, k@);
    }
    let mut i: usize = 0;
    while i < entries.len()
        invariant
            i <= entries.len(),
            forall|j: int| 0 <= j < i ==> (#[trigger] entries@[j]).0@ != k@,
        decreases entries.len() - i,
    {
        if entries[i].0 == *k {
            proof {
                lemma_find_named(entries@, k@);
                let j = find_named(entries@, k@);
                if j == -1 {
                    assert(entries@[i as int].0@ != k@);
                }
                if j < i {
                    assert(entries@[j].0@ != k@);
                }
                if j > i {
                    assert(entries@[i as int].0@ != k@);
                }
            }
            return Some(i);
        }
        i = i + 1;
    }
    proof {
        lemma_find_named(entries@, k@);
        if find_named(entries@, k@) != -1 {
            let j = find_named(entries@, k@);
            assert(entries@[j].0@ != k@);
        }
    }
    None
}

/// Decode every element of a wire list at one element shape.
#[verifier::loop_isolation(false)]
fn decode_items(es: &Shape, items: &Vec<AttributeValue>) -> (r: Result<Vec<Value>, Error>)
    ensures
        match spec_decode_items(*es, attr_models(items@)) {
            Ok(xs) => r is Ok && value_models(r->Ok_0@) == xs,
            Err(m) => r is Err && r->Err_0@ == m,
        },
    decreases *items, *es,
{
    let ghost ws = attr_models(items@);
    proof {
        lemma_attr_models_index(items@);
    }
    let mut out: Vec<Value> = Vec::new();
    let mut i: usize = 0;
    while i < items.len()
        invariant
            i <= items.len(),
            spec_decode_items(*es, ws.take(i as int)) == Ok::<Seq<ValueModel>, Seq<char>>(
                value_models(out@),
            ),
        decreases items.len() - i,
    {
        proof {
            assert(ws.take(i + 1).drop_last() =~= ws.take(i as int));
            assert(ws.take(i + 1).last() == ws[i as int]);
        }
        match from_attribute_value(&items[i], es) {
            Ok(x) => {
                proof {
                    crate::value::lemma_value_models_push(out@, x);
                }
                out.push(x);
            },
            Err(e) => {
                proof {
                    lemma_decode_items_prefix_err(*es, ws, i + 1);
                }
                return Err(e);
            },
        }
        i = i + 1;
    }
    proof {
        assert(ws.take(items@.len() as int) =~= ws);
    }
    Ok(out)
}

/// Decode the elements of a wire list positionally against tuple shapes.
#[verifier::loop_isolation(false)]
fn decode_tuple(shapes: &Vec<Shape>, items: &Vec<AttributeValue>) -> (r: Result<Vec<Value>, Error>)
    ensures
        match spec_decode_tuple(shapes@, attr_models(items@)) {
            Ok(xs) => r is Ok && value_models(r->Ok_0@) == xs,
            Err(m) => r is Err && r->Err_0@ == m,
        },
    decreases *items, *shapes,
{
    let ghost ws = attr_models(items@);
    proof {
        lemma_attr_models_index(items@);
    }
    let mut out: Vec<Value> = Vec::new();
    let mut j: usize = 0;
    while j < shapes.len()
        invariant
            j <= shapes.len(),
            spec_decode_tuple(shapes@.take(j as int), ws) == Ok::<Seq<ValueModel>, Seq<char>>(
                value_models(out@),
            ),
        decreases shapes.len() - j,
    {
        proof {
            assert(shapes@.take(j + 1).drop_last() =~= shapes@.take(j as int));
            assert(shapes@.take(j + 1).last() == shapes@[j as int]);
        }
        if j >= items.len() {
            proof {
                lemma_decode_tuple_prefix_err(shapes@, ws, j + 1);
            }
            return Err(Error::new("Element Value Expected"));
        }
        match from_attribute_value(&items[j], &shapes[j]) {
            Ok(x) => {
                proof {
                    crate::value::lemma_value_models_push(out@, x);
                }
                out.push(x);
            },
            Err(e) => {
                proof {
                    lemma_decode_tuple_prefix_err(shapes@, ws, j + 1);
                }
                return Err(e);
            },
        }
        j = j + 1;
    }
    proof {
        assert(shapes@.take(shapes@.len() as int) =~= shapes@);
    }
    Ok(out)
}

/// Decode wire map entries in order at one value shape; every key becomes a
/// string value.
#[verifier::loop_isolation(false)]
fn decode_entries(vs: &Shape, pairs: &Vec<(String, AttributeValue)>) -> (r: Result<
    Vec<(Value, Value)>,
    Error,
>)
    ensures
        match spec_decode_entries(*vs, attr_model_pairs(pairs@)) {
            Ok(xs) => r is Ok && value_model_entries(r->Ok_0@) == xs,
            Err(m) => r is Err && r->Err_0@ == m,
        },
    decreases *pairs, *vs,
{
    let ghost ps = attr_model_pairs(pairs@);
    proof {
        lemma_attr_model_pairs_index(pairs@);
    }
    let mut out: Vec<(Value, Value)> = Vec::new();
    let mut i: usize = 0;
    while i < pairs.len()
        invariant
            i <= pairs.len(),
            spec_decode_entries(*vs, ps.take(i as int)) == Ok::<
                Seq<(ValueModel, ValueModel)>,
                Seq<char>,
            >(value_model_entries(out@)),
        decreases pairs.len() - i,
    {
        proof {
            assert(ps.take(i + 1).drop_last() =~= ps.take(i as int));
            assert(ps.take(i + 1).last() == ps[i as int]);
        }
        match from_attribute_value(&pairs[i].1, vs) {
            Ok(x) => {
                let k = pairs[i].0.clone();
                proof {
                    crate::value::lemma_value_model_entries_push(out@, Value::Str(k), x);
                }
                out.push((Value::Str(k), x));
            },
            Err(e) => {
                proof {
                    lemma_decode_entries_prefix_err(*vs, ps, i + 1);
                }
                return Err(e);
            },
        }
        i = i + 1;
    }
    proof {
        assert(ps.take(pairs@.len() as int) =~= ps);
    }
    Ok(out)
}

/// Decode a record's wire entries against its declared fields: entries fill
/// fields by name, unknown entries are read self-describingly and dropped,
/// and at the end every declared field must be filled, in declared order.
#[verifier::loop_isolation(false)]
fn decode_record(fields: &Vec<(String, Shape)>, pairs: &Vec<(String, AttributeValue)>) -> (r:
    Result<Vec<(String, Value)>, Error>)
    ensures
        ({
            let steps = spec_decode_record(
                fields@,
                attr_model_pairs(pairs@),
                record_init(fields@.len() as nat),
            );
            match steps {
                Err(m) => r is Err && r->Err_0@ == m,
                Ok(filled) => if record_all_set(filled) {
                    r is Ok && value_model_fields(r->Ok_0@) == record_assemble(fields@, filled)
                } else {
                    r is Err && r->Err_0@ == "Missing Field"@
                },
            }
        }),
    decreases *pairs, *fields,
{
    let ghost ps = attr_model_pairs(pairs@);
    proof {
        lemma_attr_model_pairs_index(pairs@);
    }
    let mut filled: Vec<Option<Value>> = Vec::new();
    let mut setup: usize = 0;
    while setup < fields.len()
        invariant
            filled@.len() == setup <= fields.len(),
            forall|idx: int| 0 <= idx < setup ==> (#[trigger] filled@[idx]) is None,
        decreases fields.len() - setup,
    {
        filled.push(None);
        setup = setup + 1;
    }
    proof {
        assert(opts_model(filled@) =~= record_init(fields@.len() as nat));
    }
    let ghost full = spec_decode_record(fields@, ps, record_init(fields@.len() as nat));
    proof {
        assert(ps.skip(0) =~= ps);
    }
    let mut i: usize = 0;
    while i < pairs.len()
        invariant
            i <= pairs.len(),
            filled@.len() == fields@.len(),
            spec_decode_record(fields@, ps.skip(i as int), opts_model(filled@)) == full,
        decreases pairs.len() - i,
    {
        proof {
            assert(ps.skip(i as int)[0] == ps[i as int]);
            assert(ps.skip(i as int).drop_first() =~= ps.skip(i + 1));
        }
        let wv: &AttributeValue = &pairs[i].1;
        match find_by_name(fields, &pairs[i].0) {
            None => {
                let any_shape = Shape::Any;
                match from_attribute_value(wv, &any_shape) {
                    Ok(_) => {},
                    Err(e) => {
                        return Err(e);
                    },
                }
            },
            Some(fj) => {
                if filled[fj].is_some() {
                    return Err(Error::new("Duplicate Field"));
                }
                match from_attribute_value(wv, &fields[fj].1) {
                    Ok(x) => {
                        let ghost before = opts_model(filled@);
                        filled[fj] = Some(x);
                        proof {
                            assert(opts_model(filled@) =~= before.update(
                                fj as int,
                                Some(value_model(x)),
                            ));
                        }
                    },
                    Err(e) => {
                        return Err(e);
                    },
                }
            },
        }
        i = i + 1;
    }
    proof {
        assert(ps.skip(pairs@.len() as int) =~= Seq::<(Seq<char>, AttrModel)>::empty());
        assert(full == Ok::<Seq<Option<ValueModel>>, Seq<char>>(opts_model(filled@)));
    }
    let ghost filled_m = opts_model(filled@);
    let mut check: usize = 0;
    while check < filled.len()
        invariant
            check <= filled@.len(),
            forall|idx: int| 0 <= idx < check ==> (#[trigger] filled_m[idx]) is Some,
            filled_m == opts_model(filled@),
        decreases filled.len() - check,
    {
        if filled[check].is_none() {
            proof {
                assert(filled_m[check as int] is None);
            }
            return Err(Error::new("Missing Field"));
        }
        check = check + 1;
    }
    proof {
        assert(record_all_set(filled_m));
    }
    let mut out: Vec<(String, Value)> = Vec::new();
    let mut rest = filled;
    while rest.len() > 0
        invariant
            out@.len() + rest@.len() == fields@.len(),
            opts_model(rest@) =~= filled_m.skip(out@.len() as int),
            value_model_fields(out@) =~= record_assemble(fields@, filled_m).take(
                out@.len() as int,
            ),
        decreases rest.len(),
    {
        let ghost done = out@.len() as int;
        let ghost rest0 = rest@;
        let name = fields[out.len()].0.clone();
        match rest.remove(0) {
            Some(x) => {
                proof {
                    assert(rest@ =~= rest0.drop_first());
                    assert(opts_model(rest@) =~= opts_model(rest0).drop_first());
                    assert(opts_model(rest0).drop_first() =~= filled_m.skip(done + 1));
                    assert(opts_model(rest@) =~= filled_m.skip(done + 1));
                    assert(filled_m.skip(done)[0] == filled_m[done]);
                    assert(opts_model(rest0)[0] == Some(value_model(x)));
                    assert(value_model(x) == filled_m[done]->Some_0);
                    crate::value::lemma_value_model_fields_push(out@, name, x);
                    assert(value_model_fields(out@.push((name, x))) =~= record_assemble(
                        fields@,
                        filled_m,
                    ).take(done + 1));
                }
                out.push((name, x));
            },
            None => {
                proof {
                    assert(filled_m.skip(done)[0] == filled_m[done]);
                    assert(false);
                }
                return Err(Error::new("Missing Field"));
            },
        }
    }
    proof {
        assert(value_model_fields(out@) =~= record_assemble(fields@, filled_m));
    }
    Ok(out)
}

/// Decode one wire value at a target shape, rebuilding the described value.
/// Every failure is fail-fast with the message the corresponding check
/// carries; the input wire value is never changed.
#[verifier::loop_isolation(false)]
pub fn from_attribute_value(w: &AttributeValue, shape: &Shape) -> (r: Result<Value, Error>)
    ensures
        match spec_decode(*shape, w.deep_view()) {
            Ok(m) => r is Ok && r->Ok_0.deep_view() == m,
            Err(msg) => r is Err && r->Err_0@ == msg,
        },
    decreases *w, *shape,
{
    match shape {
        Shape::Bool => match dispatch_any(w) {
            AnyKind::Boolean(b) => Ok(Value::Bool(b)),
            AnyKind::OtherNumber => Err(Error::new("Numeric Value Expected")),
            AnyKind::NoField => Err(Error::new("Supported Value Expected")),
            _ => Err(Error::new("Boolean Value Expected")),
        },
        Shape::Int => match dispatch_any(w) {
            AnyKind::Integer(i) => Ok(Value::Int(i)),
            AnyKind::OtherNumber => Err(Error::new("Numeric Value Expected")),
            AnyKind::NoField => Err(Error::new("Supported Value Expected")),
            _ => Err(Error::new("Numeric Value Expected")),
        },
        Shape::UInt => match dispatch_any(w) {
            AnyKind::Integer(i) => if i >= 0 {
                Ok(Value::UInt(i as u64))
            } else {
                Err(Error::new("Numeric Value Expected"))
            },
            AnyKind::OtherNumber => Err(Error::new("Numeric Value Expected")),
            AnyKind::NoField => Err(Error::new("Supported Value Expected")),
            _ => Err(Error::new("Numeric Value Expected")),
        },
        Shape::Str => match dispatch_any(w) {
            AnyKind::TextKind => {
                let text = borrow_s(w);
                Ok(Value::Str(text.clone()))
            },
            AnyKind::OtherNumber => Err(Error::new("Numeric Value Expected")),
            AnyKind::NoField => Err(Error::new("Supported Value Expected")),
            _ => Err(Error::new("String Value Expected")),
        },
        Shape::Unit => match dispatch_any(w) {
            AnyKind::NullKind => Ok(Value::Unit),
            AnyKind::OtherNumber => Err(Error::new("Numeric Value Expected")),
            AnyKind::NoField => Err(Error::new("Supported Value Expected")),
            _ => Err(Error::new("Null Value Expected")),
        },
        Shape::Char => match &w.s {
            Some(t) => {
                if t.as_str().unicode_len() == 0 {
                    Err(Error::new("Non-Zero Length String Expected"))
                } else {
                    Ok(Value::Char(t.as_str().get_char(0)))
                }
            },
            None => Err(Error::new("String Value Expected (Char)")),
        },
        Shape::Bytes => match &w.b {
            Some(bs) => Ok(Value::Bytes(crate::wire::clone_bytes(bs))),
            None => Err(Error::new("Byte Vector Value Expected")),
        },
        Shape::Optional(inner) => {
            let is_null = match &w.null {
                Some(flag) => *flag,
                None => false,
            };
            if is_null {
                Ok(Value::Absent)
            } else {
                match from_attribute_value(w, inner) {
                    Ok(x) => Ok(Value::Present(Box::new(x))),
                    Err(e) => Err(e),
                }
            }
        },
        Shape::Newtype(inner) => match from_attribute_value(w, inner) {
            Ok(x) => Ok(Value::Newtype(Box::new(x))),
            Err(e) => Err(e),
        },
        Shape::List(es) => match dispatch_any(w) {
            AnyKind::ListKind => {
                let items = borrow_l(w);
                match decode_items(es, items) {
                    Ok(xs) => Ok(Value::List(xs)),
                    Err(e) => Err(e),
                }
            },
            AnyKind::OtherNumber => Err(Error::new("Numeric Value Expected")),
            AnyKind::NoField => Err(Error::new("Supported Value Expected")),
            _ => Err(Error::new("List Value Expected")),
        },
        Shape::Tuple(shapes) => match dispatch_any(w) {
            AnyKind::ListKind => {
                let items = borrow_l(w);
                match decode_tuple(shapes, items) {
                    Ok(xs) => Ok(Value::List(xs)),
                    Err(e) => Err(e),
                }
            },
            AnyKind::OtherNumber => Err(Error::new("Numeric Value Expected")),
            AnyKind::NoField => Err(Error::new("Supported Value Expected")),
            _ => Err(Error::new("List Value Expected")),
        },
        Shape::Dict(vs) => match dispatch_any(w) {
            AnyKind::MapKind => {
                let pairs = borrow_m(w);
                match decode_entries(vs, pairs) {
                    Ok(xs) => Ok(Value::Dict(xs)),
                    Err(e) => Err(e),
                }
            },
            AnyKind::OtherNumber => Err(Error::new("Numeric Value Expected")),
            AnyKind::NoField => Err(Error::new("Supported Value Expected")),
            _ => Err(Error::new("Map Value Expected")),
        },
        Shape::Record(fields) => match dispatch_any(w) {
            AnyKind::MapKind => {
                let pairs = borrow_m(w);
                match decode_record(fields, pairs) {
                    Ok(fs) => Ok(Value::Record(fs)),
                    Err(e) => Err(e),
                }
            },
            AnyKind::OtherNumber => Err(Error::new("Numeric Value Expected")),
            AnyKind::NoField => Err(Error::new("Supported Value Expected")),
            _ => Err(Error::new("Map Value Expected")),
        },
        Shape::Union(variants) => match &w.m {
            None => Err(Error::new("Map Value Expected")),
            Some(pairs) => {
                proof {
                    lemma_attr_model_pairs_index(pairs@);
                }
                if pairs.len() == 0 {
                    Err(Error::new("Key/Value Expected"))
                } else {
                    let wv: &AttributeValue = &pairs[0].1;
                    match find_by_name(variants, &pairs[0].0) {
                        None => Err(Error::new("Unknown Variant")),
                        Some(j) => match &variants[j].1 {
                            VariantShape::Unit => {
                                let is_null = match &wv.null {
                                    Some(flag) => *flag,
                                    None => false,
                                };
                                if is_null {
                                    let tag = pairs[0].0.clone();
                                    proof {
                                        assert(wv.deep_view().null == Some(true));
                                        assert(spec_decode_variant(
                                            pairs@[0].0@,
                                            variants@[j as int].1,
                                            wv.deep_view(),
                                        ) == Ok::<ValueModel, Seq<char>>(
                                            ValueModel::UnitVariant(pairs@[0].0@),
                                        ));
                                        assert(spec_decode(*shape, w.deep_view()) == Ok::<
                                            ValueModel,
                                            Seq<char>,
                                        >(ValueModel::UnitVariant(pairs@[0].0@)));
                                        assert(value_model(Value::UnitVariant(tag))
                                            == ValueModel::UnitVariant(pairs@[0].0@));
                                    }
                                    Ok(Value::UnitVariant(tag))
                                } else {
                                    Err(Error::new("Null Value Expected"))
                                }
                            },
                            VariantShape::Newtype(inner) => match from_attribute_value(wv, inner) {
                                Ok(x) => Ok(
                                    Value::NewtypeVariant(pairs[0].0.clone(), Box::new(x)),
                                ),
                                Err(e) => Err(e),
                            },
                            VariantShape::Tuple(shapes) => match &wv.l {
                                Some(items) => match decode_tuple(shapes, items) {
                                    Ok(xs) => Ok(Value::TupleVariant(pairs[0].0.clone(), xs)),
                                    Err(e) => Err(e),
                                },
                                None => Err(Error::new("List Value Expected")),
                            },
                            VariantShape::Record(rfields) => match &wv.m {
                                Some(rp) => match decode_record(rfields, rp) {
                                    Ok(fs) => Ok(Value::StructVariant(pairs[0].0.clone(), fs)),
                                    Err(e) => Err(e),
                                },
                                None => Err(Error::new("Map Value Expected")),
                            },
                        },
                    }
                }
            },
        },
        Shape::Any => match dispatch_any(w) {
            AnyKind::Boolean(b) => Ok(Value::Bool(b)),
            AnyKind::ListKind => {
                let items = borrow_l(w);
                let any_shape = Shape::Any;
                match decode_items(&any_shape, items) {
                    Ok(xs) => Ok(Value::List(xs)),
                    Err(e) => Err(e),
                }
            },
            AnyKind::MapKind => {
                let pairs = borrow_m(w);
                let any_shape = Shape::Any;
                match decode_entries(&any_shape, pairs) {
                    Ok(xs) => Ok(Value::Dict(xs)),
                    Err(e) => Err(e),
                }
            },
            AnyKind::Integer(i) => Ok(Value::Int(i)),
            AnyKind::OtherNumber => Err(Error::new("Numeric Value Expected")),
            AnyKind::NullKind => Ok(Value::Unit),
            AnyKind::TextKind => {
                let text = borrow_s(w);
                Ok(Value::Str(text.clone()))
            },
            AnyKind::NoField => Err(Error::new("Supported Value Expected")),
        },
    }
}

} // verus!
