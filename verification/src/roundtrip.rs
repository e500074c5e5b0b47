use vstd::prelude::*;

use crate::de::{
    find_named, lemma_find_named, record_all_set, record_assemble, record_init, spec_decode,
    spec_decode_entries, spec_decode_items, spec_decode_record, spec_decode_tuple,
    spec_decode_variant,
};
use crate::numbers::{lemma_parse_dec_i64, lemma_parse_dec_u64};
use crate::ser::{
    first_key_index, lemma_first_key_index, spec_encode, spec_encode_entries, spec_encode_fields,
    spec_encode_items,
};
use crate::value::{
    lemma_value_model_entries_index, lemma_value_model_fields_index, lemma_value_models_index,
    value_model, value_model_entries, value_model_fields, value_models, Shape, Value, ValueModel,
    VariantShape,
};
use crate::wire::{model_l, model_m, model_null, model_s, AttrModel};

verus! {

/// `v` matches the target shape `s`: decoding what `v` encodes to is asked
/// for at a shape that describes `v`.
pub open spec fn fits(v: Value, s: Shape) -> bool
    decreases v, s,
{
    match s {
        Shape::Bool => v is Bool,
        Shape::Int => v is Int,
        Shape::UInt => v is UInt,
        Shape::Char => v is Char,
        Shape::Str => v is Str,
        Shape::Bytes => v is Bytes,
        Shape::Unit => v is Unit,
        Shape::Optional(inner) => match v {
            Value::Absent => true,
            Value::Present(x) => fits(*x, *inner),
            _ => false,
        },
        Shape::Newtype(inner) => match v {
            Value::Newtype(x) => fits(*x, *inner),
            _ => false,
        },
        Shape::List(es) => match v {
            Value::List(items) => forall|i: int| #![auto]
                0 <= i < items@.len() ==> fits(items@[i], *es),
            _ => false,
        },
        Shape::Tuple(shapes) => match v {
            Value::List(items) => items@.len() == shapes@.len() && forall|i: int| #![auto]
                0 <= i < items@.len() ==> fits(items@[i], shapes@[i]),
            _ => false,
        },
        Shape::Dict(vs) => match v {
            Value::Dict(pairs) => forall|i: int| #![auto]
                0 <= i < pairs@.len() ==> pairs@[i].0 is Str && fits(
                    pairs@[i].1,
                    *vs,
                ),
            _ => false,
        },
        Shape::Record(fields) => match v {
            Value::Record(vfs) => vfs@.len() == fields@.len() && forall|i: int| #![auto]
                0 <= i < vfs@.len() ==> vfs@[i].0@ == fields@[i].0@ && fits(
                    vfs@[i].1,
                    fields@[i].1,
                ),
            _ => false,
        },
        Shape::Union(variants) => match v {
            Value::UnitVariant(t) => {
                let j = find_named(variants@, t@);
                j != -1 && variants@[j].1 is Unit
            },
            Value::NewtypeVariant(t, x) => {
                let j = find_named(variants@, t@);
                &&& j != -1
                &&& variants@[j].1 is Newtype
                &&& fits(*x, *(variants@[j].1->Newtype_0))
            },
            Value::TupleVariant(t, items) => {
                let j = find_named(variants@, t@);
                &&& j != -1
                &&& variants@[j].1 is Tuple
                &&& items@.len() == variants@[j].1->Tuple_0@.len()
                &&& forall|i: int| #![auto]
                    0 <= i < items@.len() ==> fits(
                        items@[i],
                        variants@[j].1->Tuple_0@[i],
                    )
            },
            Value::StructVariant(t, vfs) => {
                let j = find_named(variants@, t@);
                &&& j != -1
                &&& variants@[j].1 is Record
                &&& vfs@.len() == variants@[j].1->Record_0@.len()
                &&& forall|i: int| #![auto]
                    0 <= i < vfs@.len() ==> vfs@[i].0@
                        == variants@[j].1->Record_0@[i].0@ && fits(
                        vfs@[i].1,
                        variants@[j].1->Record_0@[i].1,
                    )
            },
            _ => false,
        },
        Shape::Any => match v {
            Value::Bool(_) => true,
            Value::Int(_) => true,
            Value::Str(_) => true,
            Value::Unit => true,
            Value::List(items) => forall|i: int| #![auto]
                0 <= i < items@.len() ==> fits(items@[i], Shape::Any),
            Value::Dict(pairs) => forall|i: int| #![auto]
                0 <= i < pairs@.len() ==> pairs@[i].0 is Str && fits(
                    pairs@[i].1,
                    Shape::Any,
                ),
            _ => false,
        },
    }
}

/// Entry names are pairwise distinct.
pub open spec fn distinct_names<T>(entries: Seq<(String, T)>) -> bool {
    forall|i: int, j: int|
        0 <= i < j < entries.len() ==> (#[trigger] entries[i]).0@ != (#[trigger] entries[j]).0@
}

/// Map keys (string values) are pairwise distinct.
pub open spec fn distinct_keys(pairs: Seq<(Value, Value)>) -> bool {
    forall|i: int, j: int|
        0 <= i < j < pairs.len() ==> (#[trigger] pairs[i]).0->Str_0@ != (
        #[trigger] pairs[j]).0->Str_0@
}

/// `v` survives the round trip.  This excludes what the wire format folds
/// together: an unsigned number beyond the signed range (its text no longer
/// parses as a signed 64-bit integer), a present optional whose inner value
/// encodes to the null flag (read back as absent), duplicate map keys and
/// duplicate record field names (the wire map keeps one entry per key).
pub open spec fn trippable(v: Value) -> bool
    decreases v,
{
    match v {
        Value::UInt(u) => u <= i64::MAX as u64,
        Value::Present(x) => trippable(*x) && spec_encode(*x) is Ok && spec_encode(
            *x,
        )->Ok_0.null is None,
        Value::Newtype(x) => trippable(*x),
        Value::List(items) => forall|i: int| #![auto]
            0 <= i < items@.len() ==> trippable(items@[i]),
        Value::Dict(pairs) => distinct_keys(pairs@) && forall|i: int| #![auto]
            0 <= i < pairs@.len() ==> trippable(pairs@[i].1),
        Value::Record(vfs) => distinct_names(vfs@) && forall|i: int| #![auto]
            0 <= i < vfs@.len() ==> trippable(vfs@[i].1),
        Value::NewtypeVariant(_, x) => trippable(*x),
        Value::TupleVariant(_, items) => forall|i: int| #![auto]
            0 <= i < items@.len() ==> trippable(items@[i]),
        Value::StructVariant(_, vfs) => distinct_names(vfs@) && forall|i: int| #![auto]
            0 <= i < vfs@.len() ==> trippable(vfs@[i].1),
        _ => true,
    }
}

// Tuple decoding reads only the first `shapes.len()` elements.
proof fn lemma_decode_tuple_agrees(shapes: Seq<Shape>, ws1: Seq<AttrModel>, ws2: Seq<AttrModel>)
    requires
        shapes.len() <= ws1.len(),
        shapes.len() <= ws2.len(),
        ws1.take(shapes.len() as int) == ws2.take(shapes.len() as int),
    ensures
        spec_decode_tuple(shapes, ws1) == spec_decode_tuple(shapes, ws2),
    decreases shapes,
{
    if shapes.len() > 0 {
        let k = shapes.len() as int;
        assert(ws1.take(k - 1) =~= ws1.take(k).take(k - 1));
        assert(ws2.take(k - 1) =~= ws2.take(k).take(k - 1));
        lemma_decode_tuple_agrees(shapes.drop_last(), ws1, ws2);
        assert(ws1[k - 1] == ws1.take(k)[k - 1]);
        assert(ws2[k - 1] == ws2.take(k)[k - 1]);
    }
}

/// The partially filled field table after the first `k` fields.
pub open spec fn filled_at(vfs: Seq<(String, Value)>, k: int) -> Seq<Option<ValueModel>> {
    Seq::new(
        vfs.len(),
        |j: int|
            if j < k {
                Some(value_model(vfs[j].1))
            } else {
                None
            },
    )
}

// Replaying encoded record entries fills the declared fields one by one.
proof fn lemma_record_steps(
    fields_sh: Seq<(String, Shape)>,
    vfs: Seq<(String, Value)>,
    ps: Seq<(Seq<char>, AttrModel)>,
    k: int,
)
    requires
        vfs.len() == fields_sh.len(),
        ps.len() == vfs.len(),
        distinct_names(fields_sh),
        forall|j: int| 0 <= j < vfs.len() ==> (#[trigger] vfs[j]).0@ == fields_sh[j].0@,
        forall|j: int| 0 <= j < ps.len() ==> (#[trigger] ps[j]).0 == vfs[j].0@,
        forall|j: int|
            0 <= j < ps.len() ==> spec_decode(fields_sh[j].1, (#[trigger] ps[j]).1) == Ok::<
                ValueModel,
                Seq<char>,
            >(value_model(vfs[j].1)),
        0 <= k <= ps.len(),
    ensures
        spec_decode_record(fields_sh, ps.skip(k), filled_at(vfs, k)) == Ok::<
            Seq<Option<ValueModel>>,
            Seq<char>,
        >(filled_at(vfs, vfs.len() as int)),
    decreases ps.len() - k,
{
    if k == ps.len() {
        assert(ps.skip(k) =~= Seq::<(Seq<char>, AttrModel)>::empty());
        assert(filled_at(vfs, k) =~= filled_at(vfs, vfs.len() as int));
    } else {
        assert(ps.skip(k)[0] == ps[k]);
        lemma_find_named(fields_sh, ps[k].0);
        let j = find_named(fields_sh, ps[k].0);
        assert(fields_sh[k].0@ == ps[k].0);
        if j == -1 {
            assert(fields_sh[k].0@ != ps[k].0);
            assert(false);
        }
        if j != k {
            if j < k {
                assert(fields_sh[j].0@ != fields_sh[k].0@);
            } else {
                assert(fields_sh[k].0@ != ps[k].0);
            }
            assert(false);
        }
        assert(filled_at(vfs, k)[k] is None);
        lemma_record_steps(fields_sh, vfs, ps, k + 1);
        assert(ps.skip(k).drop_first() =~= ps.skip(k + 1));
        assert(filled_at(vfs, k).update(k, Some(value_model(vfs[k].1))) =~= filled_at(
            vfs,
            k + 1,
        ));
    }
}

// Encoding a record's fields with distinct names appends one wire entry per
// field; each entry decodes back to its field's value.
proof fn lemma_encode_fields_rt(vfs: Seq<(String, Value)>, fields_sh: Seq<(String, Shape)>)
    requires
        vfs.len() == fields_sh.len(),
        distinct_names(vfs),
        forall|i: int| 0 <= i < vfs.len() ==> (#[trigger] vfs[i]).0@ == fields_sh[i].0@,
        forall|i: int| #![auto]
            0 <= i < vfs.len() ==> fits(vfs[i].1, fields_sh[i].1) && trippable(
                vfs[i].1,
            ),
    ensures
        spec_encode_fields(vfs) is Ok,
        spec_encode_fields(vfs)->Ok_0.len() == vfs.len(),
        forall|i: int|
            0 <= i < vfs.len() ==> (#[trigger] spec_encode_fields(vfs)->Ok_0[i]) == (
                vfs[i].0@,
                spec_encode(vfs[i].1)->Ok_0,
            ),
        forall|i: int|
            0 <= i < vfs.len() ==> spec_decode(
                fields_sh[i].1,
                (#[trigger] spec_encode_fields(vfs)->Ok_0[i]).1,
            ) == Ok::<ValueModel, Seq<char>>(value_model(vfs[i].1)),
    decreases vfs, fields_sh, 0int,
{
    if vfs.len() > 0 {
        let n = vfs.len() as int;
        lemma_encode_fields_rt(vfs.drop_last(), fields_sh.drop_last());
        lemma_round_trip(vfs.last().1, fields_sh.last().1);
        let ps0 = spec_encode_fields(vfs.drop_last())->Ok_0;
        let kv = vfs.last().0@;
        let w = spec_encode(vfs.last().1)->Ok_0;
        lemma_first_key_index(ps0, kv);
        if first_key_index(ps0, kv) != -1 {
            let j = first_key_index(ps0, kv);
            assert(ps0[j].0 == vfs.drop_last()[j].0@);
            assert(vfs[j].0@ != vfs[n - 1].0@);
            assert(false);
        }
        assert(spec_encode_fields(vfs)->Ok_0 == ps0.push((kv, w)));
        assert forall|i: int| 0 <= i < n implies (#[trigger] spec_encode_fields(vfs)->Ok_0[i])
            == (vfs[i].0@, spec_encode(vfs[i].1)->Ok_0) by {
            if i < n - 1 {
                assert(ps0[i] == (vfs.drop_last()[i].0@, spec_encode(vfs.drop_last()[i].1)->Ok_0));
            }
        }
    }
}

// The per-shape sequence lemmas: encode then decode is the identity on every
// element.
proof fn lemma_round_trip_items(items: Seq<Value>, es: Shape)
    requires
        forall|i: int| #![auto] 0 <= i < items.len() ==> fits(items[i], es) && trippable(items[i]),
    ensures
        spec_encode_items(items) is Ok,
        spec_encode_items(items)->Ok_0.len() == items.len(),
        spec_decode_items(es, spec_encode_items(items)->Ok_0) == Ok::<Seq<ValueModel>, Seq<char>>(
            value_models(items),
        ),
    decreases items, es, 0int,
{
    lemma_value_models_index(items);
    if items.len() == 0 {
        assert(value_models(items) =~= Seq::<ValueModel>::empty());
    } else {
        lemma_round_trip_items(items.drop_last(), es);
        lemma_round_trip(items.last(), es);
        lemma_value_models_index(items.drop_last());
        let ws0 = spec_encode_items(items.drop_last())->Ok_0;
        let w = spec_encode(items.last())->Ok_0;
        let ws = spec_encode_items(items)->Ok_0;
        assert(ws == ws0.push(w));
        assert(ws.drop_last() =~= ws0);
        assert(ws.last() == w);
        assert(value_models(items) =~= value_models(items.drop_last()).push(
            value_model(items.last()),
        ));
    }
}

proof fn lemma_round_trip_tuple(items: Seq<Value>, shapes: Seq<Shape>)
    requires
        items.len() == shapes.len(),
        forall|i: int| #![auto]
            0 <= i < items.len() ==> fits(items[i], shapes[i]) && trippable(items[i]),
    ensures
        spec_encode_items(items) is Ok,
        spec_encode_items(items)->Ok_0.len() == items.len(),
        spec_decode_tuple(shapes, spec_encode_items(items)->Ok_0) == Ok::<
            Seq<ValueModel>,
            Seq<char>,
        >(value_models(items)),
    decreases items, shapes, 0int,
{
    lemma_value_models_index(items);
    if items.len() == 0 {
        assert(value_models(items) =~= Seq::<ValueModel>::empty());
    } else {
        let n = items.len() as int;
        lemma_round_trip_tuple(items.drop_last(), shapes.drop_last());
        lemma_round_trip(items.last(), shapes.last());
        lemma_value_models_index(items.drop_last());
        let ws0 = spec_encode_items(items.drop_last())->Ok_0;
        let w = spec_encode(items.last())->Ok_0;
        let ws = spec_encode_items(items)->Ok_0;
        assert(ws == ws0.push(w));
        assert(ws.take(n - 1) =~= ws0);
        assert(ws0.take(n - 1) =~= ws0);
        lemma_decode_tuple_agrees(shapes.drop_last(), ws0, ws);
        assert(ws[n - 1] == w);
        assert(value_models(items) =~= value_models(items.drop_last()).push(
            value_model(items.last()),
        ));
    }
}

proof fn lemma_round_trip_entries(pairs: Seq<(Value, Value)>, vs: Shape)
    requires
        distinct_keys(pairs),
        forall|i: int| #![auto]
            0 <= i < pairs.len() ==> pairs[i].0 is Str && fits(pairs[i].1, vs)
                && trippable(pairs[i].1),
    ensures
        spec_encode_entries(pairs) is Ok,
        spec_encode_entries(pairs)->Ok_0.len() == pairs.len(),
        forall|i: int|
            0 <= i < pairs.len() ==> (#[trigger] spec_encode_entries(pairs)->Ok_0[i]).0 == pairs[
                i
            ].0->Str_0@,
        spec_decode_entries(vs, spec_encode_entries(pairs)->Ok_0) == Ok::<
            Seq<(ValueModel, ValueModel)>,
            Seq<char>,
        >(value_model_entries(pairs)),
    decreases pairs, vs, 0int,
{
    lemma_value_model_entries_index(pairs);
    if pairs.len() == 0 {
        assert(value_model_entries(pairs) =~= Seq::<(ValueModel, ValueModel)>::empty());
    } else {
        let n = pairs.len() as int;
        lemma_round_trip_entries(pairs.drop_last(), vs);
        lemma_round_trip(pairs.last().1, vs);
        lemma_value_model_entries_index(pairs.drop_last());
        let ps0 = spec_encode_entries(pairs.drop_last())->Ok_0;
        let kv = pairs.last().0->Str_0@;
        let w = spec_encode(pairs.last().1)->Ok_0;
        assert(spec_encode(pairs.last().0) == Ok::<AttrModel, Seq<char>>(model_s(kv)));
        lemma_first_key_index(ps0, kv);
        if first_key_index(ps0, kv) != -1 {
            let j = first_key_index(ps0, kv);
            assert(ps0[j].0 == pairs.drop_last()[j].0->Str_0@);
            assert(pairs[j].0->Str_0@ != pairs[n - 1].0->Str_0@);
            assert(false);
        }
        let ps = spec_encode_entries(pairs)->Ok_0;
        assert(ps == ps0.push((kv, w)));
        assert(ps.drop_last() =~= ps0);
        assert(ps.last() == (kv, w));
        assert(value_model_entries(pairs) =~= value_model_entries(pairs.drop_last()).push(
            (value_model(pairs.last().0), value_model(pairs.last().1)),
        ));
    }
}

/// The round-trip law: decoding an encoded value at a shape that describes
/// it gives the value back.  `fits` ties the value to the shape; `trippable`
/// excludes only what the wire format itself folds together (an unsigned
/// number beyond the signed range, a present optional encoding to null,
/// duplicate map keys or field names).  Encoding itself cannot fail here.
pub proof fn lemma_round_trip(v: Value, s: Shape)
    requires
        fits(v, s),
        trippable(v),
    ensures
        spec_encode(v) is Ok,
        spec_decode(s, spec_encode(v)->Ok_0) == Ok::<ValueModel, Seq<char>>(value_model(v)),
    decreases v, s, 0int,
{
    match s {
        Shape::Bool => {},
        Shape::Int => {
            let i = v->Int_0;
            lemma_parse_dec_i64(i);
        },
        Shape::UInt => {
            let u = v->UInt_0;
            lemma_parse_dec_u64(u);
        },
        Shape::Char => {
            let c = v->Char_0;
            assert(seq![c].len() == 1);
            assert(seq![c][0] == c);
        },
        Shape::Str => {},
        Shape::Bytes => {},
        Shape::Unit => {},
        Shape::Optional(inner) => match v {
            Value::Absent => {},
            Value::Present(x) => {
                lemma_round_trip(*x, *inner);
            },
            _ => {},
        },
        Shape::Newtype(inner) => match v {
            Value::Newtype(x) => {
                lemma_round_trip(*x, *inner);
            },
            _ => {},
        },
        Shape::List(es) => match v {
            Value::List(items) => {
                lemma_round_trip_items(items@, *es);
            },
            _ => {},
        },
        Shape::Tuple(shapes) => match v {
            Value::List(items) => {
                lemma_round_trip_tuple(items@, shapes@);
            },
            _ => {},
        },
        Shape::Dict(vs) => match v {
            Value::Dict(pairs) => {
                lemma_round_trip_entries(pairs@, *vs);
            },
            _ => {},
        },
        Shape::Record(fields) => match v {
            Value::Record(vfs) => {
                lemma_round_trip_record(vfs@, fields@);
                let ps = spec_encode_fields(vfs@)->Ok_0;
                assert(spec_encode(v) == Ok::<AttrModel, Seq<char>>(model_m(ps)));
            },
            _ => {},
        },
        Shape::Union(variants) => match v {
            Value::UnitVariant(t) => {
                lemma_find_named(variants@, t@);
                let ps = seq![(t@, model_null())];
                assert(ps[0] == (t@, model_null()));
                assert(ps.len() == 1);
                let w_enc = spec_encode(v)->Ok_0;
                assert(w_enc == model_m(ps));
                assert(w_enc.m == Some(ps));
                let j2 = find_named(variants@, t@);
                assert(j2 != -1);
                assert(variants@[j2].1 is Unit);
                assert(ps[0].1.null == Some(true));
                assert(spec_decode_variant(t@, variants@[j2].1, ps[0].1) == Ok::<
                    ValueModel,
                    Seq<char>,
                >(ValueModel::UnitVariant(t@)));
                assert(spec_decode(s, w_enc) == spec_decode_variant(
                    t@,
                    variants@[j2].1,
                    ps[0].1,
                ));
                assert(value_model(v) == ValueModel::UnitVariant(t@));
            },
            Value::NewtypeVariant(t, x) => {
                lemma_find_named(variants@, t@);
                let j = find_named(variants@, t@);
                lemma_round_trip(*x, *(variants@[j].1->Newtype_0));
                let w = spec_encode(*x)->Ok_0;
                let ps = seq![(t@, w)];
                assert(ps[0] == (t@, w));
                assert(ps.len() == 1);
                let w_enc = spec_encode(v)->Ok_0;
                assert(w_enc == model_m(ps));
                assert(w_enc.m == Some(ps));
                assert(spec_decode_variant(t@, variants@[j].1, w) == Ok::<ValueModel, Seq<char>>(
                    ValueModel::NewtypeVariant(t@, Box::new(value_model(*x))),
                ));
                assert(spec_decode(s, w_enc) == spec_decode_variant(t@, variants@[j].1, ps[0].1));
                assert(value_model(v) == ValueModel::NewtypeVariant(
                    t@,
                    Box::new(value_model(*x)),
                ));
            },
            Value::TupleVariant(t, items) => {
                lemma_find_named(variants@, t@);
                let j = find_named(variants@, t@);
                lemma_round_trip_tuple(items@, variants@[j].1->Tuple_0@);
                let ws = spec_encode_items(items@)->Ok_0;
                let ps = seq![(t@, model_l(ws))];
                assert(ps[0] == (t@, model_l(ws)));
                assert(ps.len() == 1);
                let w_enc = spec_encode(v)->Ok_0;
                assert(w_enc == model_m(ps));
                assert(w_enc.m == Some(ps));
                assert(ps[0].1.l == Some(ws));
                assert(spec_decode_variant(t@, variants@[j].1, ps[0].1) == Ok::<
                    ValueModel,
                    Seq<char>,
                >(ValueModel::TupleVariant(t@, value_models(items@))));
                assert(spec_decode(s, w_enc) == spec_decode_variant(t@, variants@[j].1, ps[0].1));
                assert(value_model(v) == ValueModel::TupleVariant(t@, value_models(items@)));
            },
            Value::StructVariant(t, vfs) => {
                lemma_find_named(variants@, t@);
                let j = find_named(variants@, t@);
                lemma_round_trip_record(vfs@, variants@[j].1->Record_0@);
                let ps0 = spec_encode_fields(vfs@)->Ok_0;
                let ps = seq![(t@, model_m(ps0))];
                assert(ps[0] == (t@, model_m(ps0)));
                assert(ps.len() == 1);
                let w_enc = spec_encode(v)->Ok_0;
                assert(w_enc == model_m(ps));
                assert(w_enc.m == Some(ps));
                assert(ps[0].1.m == Some(ps0));
                assert(spec_decode_variant(t@, variants@[j].1, ps[0].1) == Ok::<
                    ValueModel,
                    Seq<char>,
                >(ValueModel::StructVariant(t@, value_model_fields(vfs@))));
                assert(spec_decode(s, w_enc) == spec_decode_variant(t@, variants@[j].1, ps[0].1));
                assert(value_model(v) == ValueModel::StructVariant(t@, value_model_fields(vfs@)));
            },
            _ => {},
        },
        Shape::Any => match v {
            Value::Bool(_) => {
            },
            Value::Int(i) => {
                lemma_parse_dec_i64(i);
            },
            Value::Str(_) => {
            },
            Value::Unit => {
            },
            Value::List(items) => {
                lemma_round_trip_items(items@, Shape::Any);
            },
            Value::Dict(pairs) => {
                lemma_round_trip_entries(pairs@, Shape::Any);
            },
            _ => {},
        },
    }
}

// A record value round-trips through the wire map of its fields.
proof fn lemma_round_trip_record(vfs: Seq<(String, Value)>, fields_sh: Seq<(String, Shape)>)
    requires
        vfs.len() == fields_sh.len(),
        distinct_names(vfs),
        forall|i: int| 0 <= i < vfs.len() ==> (#[trigger] vfs[i]).0@ == fields_sh[i].0@,
        forall|i: int| #![auto]
            0 <= i < vfs.len() ==> fits(vfs[i].1, fields_sh[i].1) && trippable(
                vfs[i].1,
            ),
    ensures
        spec_encode_fields(vfs) is Ok,
        spec_decode_record(
            fields_sh,
            spec_encode_fields(vfs)->Ok_0,
            record_init(fields_sh.len() as nat),
        ) == Ok::<Seq<Option<ValueModel>>, Seq<char>>(filled_at(vfs, vfs.len() as int)),
        record_all_set(filled_at(vfs, vfs.len() as int)),
        record_assemble(fields_sh, filled_at(vfs, vfs.len() as int)) == value_model_fields(vfs),
    decreases vfs, fields_sh, 1int,
{
    lemma_encode_fields_rt(vfs, fields_sh);
    let ps = spec_encode_fields(vfs)->Ok_0;
    assert(distinct_names(fields_sh)) by {
        assert forall|i: int, j: int| 0 <= i < j < fields_sh.len() implies (
        #[trigger] fields_sh[i]).0@ != (#[trigger] fields_sh[j]).0@ by {
            assert(vfs[i].0@ != vfs[j].0@);
        }
    }
    assert(ps.skip(0) =~= ps);
    assert(filled_at(vfs, 0) =~= record_init(fields_sh.len() as nat));
    lemma_record_steps(fields_sh, vfs, ps, 0);
    lemma_value_model_fields_index(vfs);
    assert(record_assemble(fields_sh, filled_at(vfs, vfs.len() as int)) =~= value_model_fields(
        vfs,
    ));
}


} // verus!
