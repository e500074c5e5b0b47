use vstd::prelude::*;

verus! {

/// A wire value for the remote key/attribute store: a record whose fields are
/// all optional.  A well-formed value has exactly one field populated, but a
/// consumer must tolerate any combination (decoding treats "none matched" as
/// an error).  The `m` field keeps its entries in insertion order.
#[derive(Debug, PartialEq)]
pub struct AttributeValue {
    pub b: Option<Vec<u8>>,
    pub boolean: Option<bool>,
    pub l: Option<Vec<AttributeValue>>,
    pub m: Option<Vec<(String, AttributeValue)>>,
    pub n: Option<String>,
    pub null: Option<bool>,
    pub s: Option<String>,
}

/// The mathematical model of a wire value.
pub struct AttrModel {
    pub b: Option<Seq<u8>>,
    pub boolean: Option<bool>,
    pub l: Option<Seq<AttrModel>>,
    pub m: Option<Seq<(Seq<char>, AttrModel)>>,
    pub n: Option<Seq<char>>,
    pub null: Option<bool>,
    pub s: Option<Seq<char>>,
}

pub open spec fn attr_model(a: AttributeValue) -> AttrModel
    decreases a,
{
    AttrModel {
        b: match a.b {
            Some(bytes) => Some(bytes.deep_view()),
            None => None,
        },
        boolean: a.boolean,
        l: match a.l {
            Some(items) => Some(attr_models(items@)),
            None => None,
        },
        m: match a.m {
            Some(pairs) => Some(attr_model_pairs(pairs@)),
            None => None,
        },
        n: match a.n {
            Some(text) => Some(text@),
            None => None,
        },
        null: a.null,
        s: match a.s {
            Some(text) => Some(text@),
            None => None,
        },
    }
}

pub open spec fn attr_models(items: Seq<AttributeValue>) -> Seq<AttrModel>
    decreases items,
{
    if items.len() == 0 {
        Seq::empty()
    } else {
        seq![attr_model(items[0])] + attr_models(items.drop_first())
    }
}

pub open spec fn attr_model_pairs(pairs: Seq<(String, AttributeValue)>) -> Seq<
    (Seq<char>, AttrModel),
>
    decreases pairs,
{
    if pairs.len() == 0 {
        Seq::empty()
    } else {
        seq![(pairs[0].0@, attr_model(pairs[0].1))] + attr_model_pairs(pairs.drop_first())
    }
}

impl DeepView for AttributeValue {
    type V = AttrModel;

    open spec fn deep_view(&self) -> AttrModel {
        attr_model(*self)
    }
}

/// `attr_models` is the pointwise image of `attr_model`.
pub proof fn lemma_attr_models_index(items: Seq<AttributeValue>)
    ensures
        attr_models(items).len() == items.len(),
        forall|i: int|
            0 <= i < items.len() ==> attr_models(items)[i] == attr_model(items[i]),
    decreases items,
{
    if items.len() > 0 {
        lemma_attr_models_index(items.drop_first());
    }
}

/// `attr_model_pairs` is the pointwise image of the models of key and value.
pub proof fn lemma_attr_model_pairs_index(pairs: Seq<(String, AttributeValue)>)
    ensures
        attr_model_pairs(pairs).len() == pairs.len(),
        forall|i: int|
            0 <= i < pairs.len() ==> attr_model_pairs(pairs)[i] == (
                pairs[i].0@,
                attr_model(pairs[i].1),
            ),
    decreases pairs,
{
    if pairs.len() > 0 {
        lemma_attr_model_pairs_index(pairs.drop_first());
    }
}

// Model-level constructors: an all-absent record with one field set.
pub open spec fn model_empty() -> AttrModel {
    AttrModel { b: None, boolean: None, l: None, m: None, n: None, null: None, s: None }
}

pub open spec fn model_bool(v: bool) -> AttrModel {
    AttrModel { boolean: Some(v), ..model_empty() }
}

pub open spec fn model_n(text: Seq<char>) -> AttrModel {
    AttrModel { n: Some(text), ..model_empty() }
}

pub open spec fn model_s(text: Seq<char>) -> AttrModel {
    AttrModel { s: Some(text), ..model_empty() }
}

pub open spec fn model_b(bytes: Seq<u8>) -> AttrModel {
    AttrModel { b: Some(bytes), ..model_empty() }
}

pub open spec fn model_null() -> AttrModel {
    AttrModel { null: Some(true), ..model_empty() }
}

pub open spec fn model_l(items: Seq<AttrModel>) -> AttrModel {
    AttrModel { l: Some(items), ..model_empty() }
}

pub open spec fn model_m(pairs: Seq<(Seq<char>, AttrModel)>) -> AttrModel {
    AttrModel { m: Some(pairs), ..model_empty() }
}

impl Clone for AttributeValue {
    /// A deep copy with the same model.
    fn clone(&self) -> (r: Self)
        ensures
            r.deep_view() == self.deep_view(),
    {
        clone_attr(self)
    }
}

/// A deep copy of a wire value: same model, freshly owned.
#[verifier::loop_isolation(false)]
pub fn clone_attr(a: &AttributeValue) -> (r: AttributeValue)
    ensures
        r.deep_view() == a.deep_view(),
    decreases *a,
{
    let b: Option<Vec<u8>> = match &a.b {
        Some(bytes) => Some(clone_bytes(bytes)),
        None => None,
    };
    let boolean = a.boolean;
    let l: Option<Vec<AttributeValue>> = match &a.l {
        Some(items) => {
            let mut out: Vec<AttributeValue> = Vec::new();
            let mut i: usize = 0;
            while i < items.len()
                invariant
                    i <= items@.len(),
                    out@.len() == i,
                    forall|j: int|
                        0 <= j < i ==> attr_model(#[trigger] out@[j]) == attr_model(items@[j]),
                decreases items.len() - i,
            {
                out.push(clone_attr(&items[i]));
                i = i + 1;
            }
            proof {
                lemma_attr_models_index(out@);
                lemma_attr_models_index(items@);
                assert(attr_models(out@) =~= attr_models(items@));
            }
            Some(out)
        },
        None => None,
    };
    let m: Option<Vec<(String, AttributeValue)>> = match &a.m {
        Some(pairs) => {
            let mut out: Vec<(String, AttributeValue)> = Vec::new();
            let mut i: usize = 0;
            while i < pairs.len()
                invariant
                    i <= pairs@.len(),
                    out@.len() == i,
                    forall|j: int|
                        0 <= j < i ==> (#[trigger] out@[j]).0@ == pairs@[j].0@ && attr_model(
                            out@[j].1,
                        ) == attr_model(pairs@[j].1),
                decreases pairs.len() - i,
            {
                let key = pairs[i].0.clone();
                out.push((key, clone_attr(&pairs[i].1)));
                i = i + 1;
            }
            proof {
                lemma_attr_model_pairs_index(out@);
                lemma_attr_model_pairs_index(pairs@);
                assert(attr_model_pairs(out@) =~= attr_model_pairs(pairs@));
            }
            Some(out)
        },
        None => None,
    };
    let n: Option<String> = match &a.n {
        Some(text) => Some(text.clone()),
        None => None,
    };
    let null = a.null;
    let s: Option<String> = match &a.s {
        Some(text) => Some(text.clone()),
        None => None,
    };
    AttributeValue { b, boolean, l, m, n, null, s }
}

/// An element-for-element copy of a byte vector.
pub fn clone_bytes(bytes: &Vec<u8>) -> (r: Vec<u8>)
    ensures
        r@ == bytes@,
{
    let mut copy: Vec<u8> = Vec::new();
    let mut i: usize = 0;
    while i < bytes.len()
        invariant
            i <= bytes.len(),
            copy@ == bytes@.take(i as int),
        decreases bytes.len() - i,
    {
        copy.push(bytes[i]);
        proof {
            assert(bytes@.take(i + 1) =~= bytes@.take(i as int).push(bytes@[i as int]));
        }
        i = i + 1;
    }
    proof {
        assert(bytes@.take(bytes@.len() as int) =~= bytes@);
    }
    copy
}

impl AttributeValue {
    /// The all-absent record.
    pub fn empty() -> (r: AttributeValue)
        ensures
            r.deep_view() == model_empty(),
    {
        AttributeValue { b: None, boolean: None, l: None, m: None, n: None, null: None, s: None }
    }

    pub fn of_bool(v: bool) -> (r: AttributeValue)
        ensures
            r.deep_view() == model_bool(v),
    {
        AttributeValue { boolean: Some(v), ..AttributeValue::empty() }
    }

    pub fn of_n(text: String) -> (r: AttributeValue)
        ensures
            r.deep_view() == model_n(text@),
    {
        AttributeValue { n: Some(text), ..AttributeValue::empty() }
    }

    pub fn of_s(text: String) -> (r: AttributeValue)
        ensures
            r.deep_view() == model_s(text@),
    {
        AttributeValue { s: Some(text), ..AttributeValue::empty() }
    }

    pub fn of_b(bytes: Vec<u8>) -> (r: AttributeValue)
        ensures
            r.deep_view() == model_b(bytes.deep_view()),
    {
        AttributeValue { b: Some(bytes), ..AttributeValue::empty() }
    }

    /// The wire form of a null value: the null flag, populated with `true`.
    pub fn of_null() -> (r: AttributeValue)
        ensures
            r.deep_view() == model_null(),
    {
        AttributeValue { null: Some(true), ..AttributeValue::empty() }
    }

    pub fn of_l(items: Vec<AttributeValue>) -> (r: AttributeValue)
        ensures
            r.deep_view() == model_l(attr_models(items@)),
    {
        AttributeValue { l: Some(items), ..AttributeValue::empty() }
    }

    pub fn of_m(pairs: Vec<(String, AttributeValue)>) -> (r: AttributeValue)
        ensures
            r.deep_view() == model_m(attr_model_pairs(pairs@)),
    {
        AttributeValue { m: Some(pairs), ..AttributeValue::empty() }
    }
}

} // verus!
