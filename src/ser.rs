//! The writer: a structured value to one tagged value.
use vstd::prelude::*;
use crate::data::{fields_model, pairs_model, values_model, Val, Value};
use crate::number::{decimal_int, i64_text, u64_text};
use crate::value::{entries_insert, list_model, AttributeValue, Attributes, Av};

verus! {

broadcast use vstd::std_specs::vec::group_vec_axioms;

/// Why a value could not be written.
#[derive(Clone, Debug, PartialEq)]
pub enum SerError {
    /// A failure raised by a converter, with its message.
    Message(String),
    /// A map key that is not text.
    ExpectedStr,
}

/// Entries written one after another into an empty mapping: a later key equal
/// to an earlier one replaces its value in place.
pub open spec fn insert_all(es: Seq<(Seq<char>, Av)>) -> Seq<(Seq<char>, Av)>
    decreases es.len(),
{
    if es.len() == 0 {
        Seq::empty()
    } else {
        entries_insert(insert_all(es.drop_last()), es.last().0, es.last().1)
    }
}

/// The text of a map key; only text keys can be written.
pub open spec fn key_text(k: Val) -> Seq<char> {
    match k {
        Val::Str(s) => s,
        _ => Seq::empty(),
    }
}

/// Whether a value can be written: every map key in it is text.
pub open spec fn encodable(v: Val) -> bool
    decreases v,
{
    match v {
        Val::Present(x) => encodable(*x),
        Val::List(vs) => forall|i: int| 0 <= i < vs.len() ==> encodable(#[trigger] vs[i]),
        Val::Mapping(es) => forall|i: int|
            0 <= i < es.len() ==> (#[trigger] es[i]).0 is Str && encodable(es[i].1),
        Val::Struct(fs) => forall|i: int| 0 <= i < fs.len() ==> encodable((#[trigger] fs[i]).1),
        Val::NewtypeVariant(_, x) => encodable(*x),
        Val::TupleVariant(_, vs) => forall|i: int| 0 <= i < vs.len() ==> encodable(#[trigger] vs[i]),
        Val::StructVariant(_, fs) => forall|i: int|
            0 <= i < fs.len() ==> encodable((#[trigger] fs[i]).1),
        _ => true,
    }
}

/// The list payload of a sequence of values.
pub open spec fn encode_items(vs: Seq<Val>) -> Seq<Av>
    decreases vs,
{
    Seq::new(vs.len(), |i: int| if 0 <= i < vs.len() { encode(vs[i]) } else { Av::empty() })
}

/// Each field's name with its encoded value, before they are written.
pub open spec fn field_entries(fs: Seq<(Seq<char>, Val)>) -> Seq<(Seq<char>, Av)>
    decreases fs,
{
    Seq::new(
        fs.len(),
        |i: int|
            if 0 <= i < fs.len() {
                (fs[i].0, encode(fs[i].1))
            } else {
                (Seq::empty(), Av::empty())
            },
    )
}

/// Each map key's text with its encoded value, before they are written.
pub open spec fn pair_entries(ps: Seq<(Val, Val)>) -> Seq<(Seq<char>, Av)>
    decreases ps,
{
    Seq::new(
        ps.len(),
        |i: int|
            if 0 <= i < ps.len() {
                (key_text(ps[i].0), encode(ps[i].1))
            } else {
                (Seq::empty(), Av::empty())
            },
    )
}

/// The map payload of a record: each field written under its name.
pub open spec fn encode_fields(fs: Seq<(Seq<char>, Val)>) -> Seq<(Seq<char>, Av)> {
    insert_all(field_entries(fs))
}

/// The tagged value that a structured value is written as. Unit variants are
/// their name as text; other variants are a map of one entry, from the
/// variant's name to its payload.
pub open spec fn encode(v: Val) -> Av
    decreases v,
{
    match v {
        Val::Bool(b) => Av::of_bool(b),
        Val::Int(x) => Av::of_n(decimal_int(x as int)),
        Val::UInt(x) => Av::of_n(decimal_int(x as int)),
        Val::Char(c) => Av::of_s(seq![c]),
        Val::Str(s) => Av::of_s(s),
        Val::Bytes(b) => Av::of_b(b),
        Val::Unit => Av::null_value(),
        Val::Absent => Av::null_value(),
        Val::Present(x) => encode(*x),
        Val::List(vs) => Av::of_l(encode_items(vs)),
        Val::Mapping(ps) => Av::of_m(insert_all(pair_entries(ps))),
        Val::Struct(fs) => Av::of_m(insert_all(field_entries(fs))),
        Val::UnitVariant(n) => Av::of_s(n),
        Val::NewtypeVariant(n, x) => Av::of_m(seq![(n, encode(*x))]),
        Val::TupleVariant(n, vs) => Av::of_m(seq![(n, Av::of_l(encode_items(vs)))]),
        Val::StructVariant(n, fs) => Av::of_m(seq![(n, Av::of_m(insert_all(field_entries(fs))))]),
    }
}

/// Relies on `char`'s `ToString`: the text of exactly that one character.
#[verifier::external_body]
fn char_text(c: char) -> (r: String)
    ensures
        r@ == seq![c],
{
    c.to_string()
}

fn encode_list(vs: &Vec<Value>) -> (r: Result<Vec<AttributeValue>, SerError>)
    ensures
        r is Ok <== (forall|i: int| 0 <= i < vs@.len() ==> encodable(#[trigger] values_model(*vs)[i])),
        r is Err ==> (r matches Err(e) && e is ExpectedStr),
        r matches Ok(l) ==> list_model(l) == encode_items(values_model(*vs)),
        r is Ok ==> (forall|i: int| 0 <= i < vs@.len() ==> encodable(#[trigger] values_model(*vs)[i])),
    decreases vs,
{
    let ghost m = values_model(*vs);
    let mut out: Vec<AttributeValue> = Vec::new();
    let mut i: usize = 0;
    while i < vs.len()
        invariant
            i <= vs@.len(),
            m == values_model(*vs),
            out@.len() == i,
            forall|j: int| 0 <= j < i ==> encodable(#[trigger] m[j]),
            forall|j: int| 0 <= j < i ==> (#[trigger] out@[j]).model() == encode(m[j]),
        decreases vs@.len() - i,
    {
        assert(m[i as int] == vs@[i as int].model());
        match to_av(&vs[i]) {
            Ok(a) => {
                out.push(a);
            },
            Err(e) => {
                return Err(e);
            },
        }
        i = i + 1;
    }
    assert(list_model(out) =~= encode_items(m));
    Ok(out)
}

/// Writes each (name, value) pair into a fresh mapping, in order.
fn encode_record(fs: &Vec<(String, Value)>) -> (r: Result<Attributes, SerError>)
    ensures
        r is Ok <==> (forall|i: int| 0 <= i < fs@.len() ==> encodable((#[trigger] fields_model(*fs)[i]).1)),
        r is Err ==> (r matches Err(e) && e is ExpectedStr),
        r matches Ok(a) ==> a.model() == encode_fields(fields_model(*fs)),
    decreases fs,
{
    let ghost m = fields_model(*fs);
    let ghost es = field_entries(m);
    let mut out = Attributes::new();
    let mut i: usize = 0;
    assert(es.take(0) =~= Seq::<(Seq<char>, Av)>::empty());
    while i < fs.len()
        invariant
            i <= fs@.len(),
            m == fields_model(*fs),
            es.len() == m.len(),
            forall|j: int| 0 <= j < m.len() ==> #[trigger] es[j] == (m[j].0, encode(m[j].1)),
            forall|j: int| 0 <= j < i ==> encodable((#[trigger] m[j]).1),
            out.model() == insert_all(es.take(i as int)),
        decreases fs@.len() - i,
    {
        assert(m[i as int] == (fs@[i as int].0@, fs@[i as int].1.model()));
        match to_av(&fs[i].1) {
            Ok(a) => {
                let k = fs[i].0.clone();
                out.insert(k, a);
                assert(es.take(i + 1).drop_last() =~= es.take(i as int));
            },
            Err(e) => {
                return Err(e);
            },
        }
        i = i + 1;
    }
    assert(es.take(fs@.len() as int) =~= es);
    Ok(out)
}

/// Writes each (key, value) pair into a fresh mapping, in order; a key must be text.
fn encode_map(ps: &Vec<(Value, Value)>) -> (r: Result<Attributes, SerError>)
    ensures
        r is Ok <==> (forall|i: int|
            0 <= i < ps@.len() ==> (#[trigger] pairs_model(*ps)[i]).0 is Str && encodable(
                pairs_model(*ps)[i].1,
            )),
        r is Err ==> (r matches Err(e) && e is ExpectedStr),
        r matches Ok(a) ==> a.model() == insert_all(pair_entries(pairs_model(*ps))),
    decreases ps,
{
    let ghost m = pairs_model(*ps);
    let ghost es = pair_entries(m);
    let mut out = Attributes::new();
    let mut i: usize = 0;
    assert(es.take(0) =~= Seq::<(Seq<char>, Av)>::empty());
    while i < ps.len()
        invariant
            i <= ps@.len(),
            m == pairs_model(*ps),
            es.len() == m.len(),
            forall|j: int|
                0 <= j < m.len() ==> #[trigger] es[j] == (key_text(m[j].0), encode(m[j].1)),
            forall|j: int| 0 <= j < i ==> (#[trigger] m[j]).0 is Str && encodable(m[j].1),
            out.model() == insert_all(es.take(i as int)),
        decreases ps@.len() - i,
    {
        assert(m[i as int] == (ps@[i as int].0.model(), ps@[i as int].1.model()));
        let k = match &ps[i].0 {
            Value::Str(s) => s.clone(),
            _ => {
                return Err(SerError::ExpectedStr);
            },
        };
        match to_av(&ps[i].1) {
            Ok(a) => {
                out.insert(k, a);
                assert(es.take(i + 1).drop_last() =~= es.take(i as int));
            },
            Err(e) => {
                return Err(e);
            },
        }
        i = i + 1;
    }
    assert(es.take(ps@.len() as int) =~= es);
    Ok(out)
}

/// A map of one entry: `name` to `a`.
fn single_entry(name: &String, a: AttributeValue) -> (r: Attributes)
    ensures
        r.model() == seq![(name@, a.model())],
{
    let mut m = Attributes::new();
    m.insert(name.clone(), a);
    m
}

/// Writes a structured value as one tagged value. Fails only where a map key
/// is not text.
pub fn to_av(v: &Value) -> (r: Result<AttributeValue, SerError>)
    ensures
        r is Ok <==> encodable(v.model()),
        r matches Ok(a) ==> a.model() == encode(v.model()),
        r matches Err(e) ==> e is ExpectedStr,
    decreases v,
{
    match v {
        Value::Bool(b) => Ok(AttributeValue::from_bool(*b)),
        Value::Int(x) => Ok(AttributeValue::from_n(i64_text(*x))),
        Value::UInt(x) => Ok(AttributeValue::from_n(u64_text(*x))),
        Value::Char(c) => Ok(AttributeValue::from_s(char_text(*c))),
        Value::Str(s) => Ok(AttributeValue::from_s(s.clone())),
        Value::Bytes(b) => Ok(AttributeValue::from_b(b.clone())),
        Value::Unit => Ok(AttributeValue::null_value()),
        Value::Absent => Ok(AttributeValue::null_value()),
        Value::Present(x) => to_av(x),
        Value::List(vs) => {
            let l = encode_list(vs)?;
            Ok(AttributeValue::from_l(l))
        },
        Value::Mapping(ps) => {
            let m = encode_map(ps)?;
            Ok(AttributeValue::from_m(m))
        },
        Value::Struct(fs) => {
            let m = encode_record(fs)?;
            Ok(AttributeValue::from_m(m))
        },
        Value::UnitVariant(n) => Ok(AttributeValue::from_s(n.clone())),
        Value::NewtypeVariant(n, x) => {
            let a = to_av(x)?;
            Ok(AttributeValue::from_m(single_entry(n, a)))
        },
        Value::TupleVariant(n, vs) => {
            let l = encode_list(vs)?;
            Ok(AttributeValue::from_m(single_entry(n, AttributeValue::from_l(l))))
        },
        Value::StructVariant(n, fs) => {
            let m = encode_record(fs)?;
            Ok(AttributeValue::from_m(single_entry(n, AttributeValue::from_m(m))))
        },
    }
}

} // verus!
