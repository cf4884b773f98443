//! The reader: one tagged value and a target shape to a structured value.
use vstd::prelude::*;
use vstd::string::StrSliceExecFns;
use crate::data::{fields_model, pairs_model, values_model, IntKind, Shape, Val, Value, VariantShape};
use crate::number::{parse_i64, parse_u64, text_int, text_nat};
use crate::value::{find_key, lemma_list_model_drop_first, list_model, AttributeValue, Attributes, Av};

verus! {

broadcast use vstd::std_specs::vec::group_vec_axioms;

/// How deeply shapes may nest before decoding gives up.
pub const MAX_DEPTH: usize = 128;

/// Why a tagged value could not be read as the requested shape.
#[derive(Clone, Debug, PartialEq)]
pub enum Error {
    /// A failure with a message: an enum map without exactly one entry, an
    /// unknown variant name, a variant with data named by text alone, a tuple
    /// too short, text of other than one character read as a character.
    Message(String),
    /// The expected payload slot is absent and no other slot is set; or a
    /// record lacks a field; or a unit variant came with data.
    MissingField,
    /// The expected payload slot is absent and another slot is set.
    IncorrectType,
    /// A sequence was expected and no list or set payload is set.
    ExpectedArray,
    /// The number text does not read as an integer of the requested width.
    ParseIntError,
    /// The shapes nest deeper than the decoder allows.
    DepthLimit,
}

/// The kind of a decoding error.
pub ghost enum DeErr {
    Message,
    MissingField,
    IncorrectType,
    ExpectedArray,
    ParseIntError,
    DepthLimit,
}

impl Error {
    pub open spec fn kind(&self) -> DeErr {
        match self {
            Error::Message(_) => DeErr::Message,
            Error::MissingField => DeErr::MissingField,
            Error::IncorrectType => DeErr::IncorrectType,
            Error::ExpectedArray => DeErr::ExpectedArray,
            Error::ParseIntError => DeErr::ParseIntError,
            Error::DepthLimit => DeErr::DepthLimit,
        }
    }
}

/// The message for an enum map whose number of entries `n` is not one.
pub open spec fn arity_text(n: nat) -> Seq<char> {
    if n == 0 {
        "no values in map for enum"@
    } else {
        "too many values in map for enum"@
    }
}

/// Whether `r` is the arity error for a tagged union read from `a`: `a` has no
/// text payload and a map payload with other than one entry.
pub open spec fn arity_failure(a: Av) -> bool {
    &&& a.s is None
    &&& a.m is Some
    &&& a.m->0.len() != 1
}

/// The error for an enum map without exactly one entry.
fn arity_error(n: usize) -> (r: Error)
    ensures
        (r matches Error::Message(t) && t@ == arity_text(n as nat)),
{
    if n == 0 {
        Error::Message("no values in map for enum".to_owned())
    } else {
        Error::Message("too many values in map for enum".to_owned())
    }
}

/// What a decoding result is, over the models.
pub open spec fn result_model(r: Result<Value, Error>) -> Result<Val, DeErr> {
    match r {
        Ok(v) => Ok(v.model()),
        Err(e) => Err(e.kind()),
    }
}

/// The error for an expected payload slot that is absent.
pub open spec fn absent(a: Av) -> DeErr {
    if a.has_payload() {
        DeErr::IncorrectType
    } else {
        DeErr::MissingField
    }
}

/// The elements of a sequence-like payload, the set kinds lifted to scalars;
/// the slots are tried in the order binary-set, list, number-set, string-set.
pub open spec fn list_items(a: Av) -> Option<Seq<Av>> {
    if a.bs is Some {
        Some(a.bs->0.map_values(|x: Seq<u8>| Av::of_b(x)))
    } else if a.l is Some {
        a.l
    } else if a.ns is Some {
        Some(a.ns->0.map_values(|x: Seq<char>| Av::of_n(x)))
    } else if a.ss is Some {
        Some(a.ss->0.map_values(|x: Seq<char>| Av::of_s(x)))
    } else {
        None
    }
}

/// Number text read as an integer of the given kind.
pub open spec fn read_int(t: Seq<char>, k: IntKind) -> Result<Val, DeErr> {
    if k.is_signed() {
        match text_int(t) {
            Some(x) => if k.min() <= x <= k.max() {
                Ok(Val::Int(x as i64))
            } else {
                Err(DeErr::ParseIntError)
            },
            None => Err(DeErr::ParseIntError),
        }
    } else {
        match text_nat(t) {
            Some(x) => if x <= k.max() {
                Ok(Val::UInt(x as u64))
            } else {
                Err(DeErr::ParseIntError)
            },
            None => Err(DeErr::ParseIntError),
        }
    }
}

/// The index of the first variant named `n`.
pub open spec fn find_variant(vs: Seq<(String, VariantShape)>, n: Seq<char>) -> Option<int> {
    if exists|i: int| 0 <= i < vs.len() && vs[i].0@ == n {
        Some(choose|i: int| 0 <= i < vs.len() && vs[i].0@ == n && forall|j: int| 0 <= j < i ==> vs[j].0@ != n)
    } else {
        None
    }
}

/// Reads a tagged value as the given shape, with `d` levels of nesting allowed.
/// Each shape inside another takes one level.
pub open spec fn decode(a: Av, sh: Shape, d: nat) -> Result<Val, DeErr>
    decreases d, 2nat, 0nat,
{
    if d == 0 {
        Err(DeErr::DepthLimit)
    } else {
        let e = (d - 1) as nat;
        match sh {
            Shape::Any => if a.l is Some || a.bs is Some || a.ns is Some || a.ss is Some {
                match decode_items(list_items(a)->0, Shape::Any, e) {
                    Ok(xs) => Ok(Val::List(xs)),
                    Err(err) => Err(err),
                }
            } else if a.b is Some {
                Ok(Val::Bytes(a.b->0))
            } else if a.bool is Some {
                Ok(Val::Bool(a.bool->0))
            } else if a.m is Some {
                match decode_entries(a.m->0, Shape::Any, e) {
                    Ok(ps) => Ok(Val::Mapping(ps)),
                    Err(err) => Err(err),
                }
            } else if a.n is Some {
                read_int(a.n->0, IntKind::I64)
            } else if a.null is Some {
                if a.null == Some(true) {
                    Ok(Val::Unit)
                } else {
                    Err(DeErr::IncorrectType)
                }
            } else if a.s is Some {
                Ok(Val::Str(a.s->0))
            } else {
                Err(DeErr::MissingField)
            },
            Shape::Bool => match a.bool {
                Some(b) => Ok(Val::Bool(b)),
                None => Err(absent(a)),
            },
            Shape::Int(k) => match a.n {
                Some(t) => read_int(t, k),
                None => Err(absent(a)),
            },
            Shape::Char => match a.s {
                Some(t) => if t.len() == 1 {
                    Ok(Val::Char(t[0]))
                } else {
                    Err(DeErr::Message)
                },
                None => Err(absent(a)),
            },
            Shape::Str => match a.s {
                Some(t) => Ok(Val::Str(t)),
                None => Err(absent(a)),
            },
            Shape::Bytes => match a.b {
                Some(x) => Ok(Val::Bytes(x)),
                None => Err(absent(a)),
            },
            Shape::Unit => if a.null == Some(true) {
                Ok(Val::Unit)
            } else {
                Err(absent(a))
            },
            Shape::Option(inner) => if a.null == Some(true) {
                Ok(Val::Absent)
            } else {
                match decode(a, *inner, e) {
                    Ok(x) => Ok(Val::Present(Box::new(x))),
                    Err(err) => Err(err),
                }
            },
            Shape::List(inner) => match list_items(a) {
                Some(items) => match decode_items(items, *inner, e) {
                    Ok(xs) => Ok(Val::List(xs)),
                    Err(err) => Err(err),
                },
                None => Err(DeErr::ExpectedArray),
            },
            Shape::Tuple(shs) => match list_items(a) {
                Some(items) => match decode_tuple(items, shs@, e) {
                    Ok(xs) => Ok(Val::List(xs)),
                    Err(err) => Err(err),
                },
                None => Err(DeErr::ExpectedArray),
            },
            Shape::Mapping(inner) => match a.m {
                Some(es) => match decode_entries(es, *inner, e) {
                    Ok(ps) => Ok(Val::Mapping(ps)),
                    Err(err) => Err(err),
                },
                None => Err(absent(a)),
            },
            Shape::Struct(fs) => match a.m {
                Some(es) => match decode_fields(es, fs@, e) {
                    Ok(xs) => Ok(Val::Struct(xs)),
                    Err(err) => Err(err),
                },
                None => Err(absent(a)),
            },
            Shape::Enum(vs) => decode_enum(a, vs@, d),
        }
    }
}

/// Reads a tagged union: a unit variant is its name as text, any other a map
/// of exactly one entry from the variant's name to its payload.
pub open spec fn decode_enum(a: Av, vs: Seq<(String, VariantShape)>, d: nat) -> Result<Val, DeErr>
    decreases d, 1nat, 0nat,
{
    let e = (d - 1) as nat;
    if d == 0 {
        Err(DeErr::DepthLimit)
    } else if a.s is Some {
        let n = a.s->0;
        match find_variant(vs, n) {
            Some(j) => match vs[j].1 {
                VariantShape::Unit => Ok(Val::UnitVariant(n)),
                _ => Err(DeErr::Message),
            },
            None => Err(DeErr::Message),
        }
    } else if a.m is Some {
        let es = a.m->0;
        if es.len() != 1 {
            Err(DeErr::Message)
        } else {
            let n = es[0].0;
            let inner = es[0].1;
            match find_variant(vs, n) {
                Some(j) => match vs[j].1 {
                    VariantShape::Unit => Err(DeErr::MissingField),
                    VariantShape::Newtype(sh) => match decode(inner, sh, e) {
                        Ok(x) => Ok(Val::NewtypeVariant(n, Box::new(x))),
                        Err(err) => Err(err),
                    },
                    VariantShape::Tuple(shs) => match list_items(inner) {
                        Some(items) => match decode_tuple(items, shs@, e) {
                            Ok(xs) => Ok(Val::TupleVariant(n, xs)),
                            Err(err) => Err(err),
                        },
                        None => Err(DeErr::ExpectedArray),
                    },
                    VariantShape::Struct(fs) => match inner.m {
                        Some(fes) => match decode_fields(fes, fs@, e) {
                            Ok(xs) => Ok(Val::StructVariant(n, xs)),
                            Err(err) => Err(err),
                        },
                        None => Err(absent(inner)),
                    },
                },
                None => Err(DeErr::Message),
            }
        }
    } else {
        Err(absent(a))
    }
}

/// Reads each element in stored order; the first failure is the result.
pub open spec fn decode_items(items: Seq<Av>, sh: Shape, d: nat) -> Result<Seq<Val>, DeErr>
    decreases d, 3nat, items.len(),
{
    if items.len() == 0 {
        Ok(Seq::empty())
    } else {
        match decode_items(items.drop_last(), sh, d) {
            Ok(xs) => match decode(items.last(), sh, d) {
                Ok(x) => Ok(xs.push(x)),
                Err(err) => Err(err),
            },
            Err(err) => Err(err),
        }
    }
}

/// Reads the positions of a tuple in order; too few elements is an error,
/// elements past the last position are not read.
pub open spec fn decode_tuple(items: Seq<Av>, shs: Seq<Shape>, d: nat) -> Result<Seq<Val>, DeErr>
    decreases d, 3nat, shs.len(),
{
    if shs.len() == 0 {
        Ok(Seq::empty())
    } else {
        match decode_tuple(items, shs.drop_last(), d) {
            Ok(xs) => if shs.len() <= items.len() {
                match decode(items[shs.len() - 1], shs.last(), d) {
                    Ok(x) => Ok(xs.push(x)),
                    Err(err) => Err(err),
                }
            } else {
                Err(DeErr::Message)
            },
            Err(err) => Err(err),
        }
    }
}

/// Reads each map entry in stored order, keys as text.
pub open spec fn decode_entries(es: Seq<(Seq<char>, Av)>, sh: Shape, d: nat) -> Result<
    Seq<(Val, Val)>,
    DeErr,
>
    decreases d, 3nat, es.len(),
{
    if es.len() == 0 {
        Ok(Seq::empty())
    } else {
        match decode_entries(es.drop_last(), sh, d) {
            Ok(ps) => match decode(es.last().1, sh, d) {
                Ok(x) => Ok(ps.push((Val::Str(es.last().0), x))),
                Err(err) => Err(err),
            },
            Err(err) => Err(err),
        }
    }
}

/// Reads the declared fields of a record in order, each taken out of the
/// entries by name; a field with no entry is `MissingField`. Entries for no
/// declared field are not read.
pub open spec fn decode_fields(es: Seq<(Seq<char>, Av)>, fs: Seq<(String, Shape)>, d: nat) -> Result<
    Seq<(Seq<char>, Val)>,
    DeErr,
>
    decreases d, 3nat, fs.len(),
{
    if fs.len() == 0 {
        Ok(Seq::empty())
    } else {
        let name = fs[0].0@;
        match find_key(es, name) {
            Some(i) => match decode(es[i].1, fs[0].1, d) {
                Ok(x) => match decode_fields(es.remove(i), fs.drop_first(), d) {
                    Ok(rest) => Ok(seq![(name, x)] + rest),
                    Err(err) => Err(err),
                },
                Err(err) => Err(err),
            },
            None => Err(DeErr::MissingField),
        }
    }
}

/// A failed prefix of the elements decides the whole list.
proof fn lemma_items_prefix(items: Seq<Av>, n: int, sh: Shape, d: nat)
    requires
        0 <= n <= items.len(),
        decode_items(items.take(n), sh, d) is Err,
    ensures
        decode_items(items, sh, d) == decode_items(items.take(n), sh, d),
    decreases items.len(),
{
    if n < items.len() {
        assert(items.drop_last().take(n) =~= items.take(n));
        lemma_items_prefix(items.drop_last(), n, sh, d);
    } else {
        assert(items.take(n) =~= items);
    }
}

/// A failed prefix of the entries decides the whole map.
proof fn lemma_entries_prefix(es: Seq<(Seq<char>, Av)>, n: int, sh: Shape, d: nat)
    requires
        0 <= n <= es.len(),
        decode_entries(es.take(n), sh, d) is Err,
    ensures
        decode_entries(es, sh, d) == decode_entries(es.take(n), sh, d),
    decreases es.len(),
{
    if n < es.len() {
        assert(es.drop_last().take(n) =~= es.take(n));
        lemma_entries_prefix(es.drop_last(), n, sh, d);
    } else {
        assert(es.take(n) =~= es);
    }
}

/// A failed prefix of the positions decides the whole tuple.
proof fn lemma_tuple_prefix(items: Seq<Av>, shs: Seq<Shape>, n: int, d: nat)
    requires
        0 <= n <= shs.len(),
        decode_tuple(items, shs.take(n), d) is Err,
    ensures
        decode_tuple(items, shs, d) == decode_tuple(items, shs.take(n), d),
    decreases shs.len(),
{
    if n < shs.len() {
        assert(shs.drop_last().take(n) =~= shs.take(n));
        lemma_tuple_prefix(items, shs.drop_last(), n, d);
    } else {
        assert(shs.take(n) =~= shs);
    }
}

/// Reads decimal text as an integer of the given kind.
fn read_int_exec(t: &String, k: IntKind) -> (r: Result<Value, Error>)
    ensures
        result_model(r) == read_int(t@, k),
{
    if k.signed() {
        match parse_i64(t.as_str()) {
            Some(v) => {
                if v >= k.lowest() && (v < 0 || v as u64 <= k.highest()) {
                    Ok(Value::Int(v))
                } else {
                    Err(Error::ParseIntError)
                }
            },
            None => Err(Error::ParseIntError),
        }
    } else {
        match parse_u64(t.as_str()) {
            Some(v) => {
                if v <= k.highest() {
                    Ok(Value::UInt(v))
                } else {
                    Err(Error::ParseIntError)
                }
            },
            None => Err(Error::ParseIntError),
        }
    }
}

fn lift_strings(v: Vec<String>, number: bool) -> (r: Vec<AttributeValue>)
    ensures
        number ==> list_model(r) == v@.map_values(|x: String| x@).map_values(|x: Seq<char>| Av::of_n(x)),
        !number ==> list_model(r) == v@.map_values(|x: String| x@).map_values(|x: Seq<char>| Av::of_s(x)),
{
    let ghost orig = v@;
    let n = v.len();
    let mut v = v;
    let mut out: Vec<AttributeValue> = Vec::new();
    let mut i: usize = 0;
    while v.len() > 0
        invariant
            n == orig.len(),
            i + v@.len() == orig.len(),
            v@ == orig.skip(i as int),
            out@.len() == i,
            forall|j: int| 0 <= j < i ==> (#[trigger] out@[j]).model() == (if number {
                Av::of_n(orig[j]@)
            } else {
                Av::of_s(orig[j]@)
            }),
        decreases v@.len(),
    {
        let x = v.remove(0);
        assert(x == orig[i as int]);
        if number {
            out.push(AttributeValue::from_n(x));
        } else {
            out.push(AttributeValue::from_s(x));
        }
        i = i + 1;
        assert(v@ =~= orig.skip(i as int));
    }
    if number {
        assert(list_model(out) =~= orig.map_values(|x: String| x@).map_values(|x: Seq<char>| Av::of_n(x)));
    } else {
        assert(list_model(out) =~= orig.map_values(|x: String| x@).map_values(|x: Seq<char>| Av::of_s(x)));
    }
    out
}

fn lift_buffers(v: Vec<Vec<u8>>) -> (r: Vec<AttributeValue>)
    ensures
        list_model(r) == v@.map_values(|x: Vec<u8>| x@).map_values(|x: Seq<u8>| Av::of_b(x)),
{
    let ghost orig = v@;
    let n = v.len();
    let mut v = v;
    let mut out: Vec<AttributeValue> = Vec::new();
    let mut i: usize = 0;
    while v.len() > 0
        invariant
            n == orig.len(),
            i + v@.len() == orig.len(),
            v@ == orig.skip(i as int),
            out@.len() == i,
            forall|j: int| 0 <= j < i ==> (#[trigger] out@[j]).model() == Av::of_b(orig[j]@),
        decreases v@.len(),
    {
        let x = v.remove(0);
        assert(x == orig[i as int]);
        out.push(AttributeValue::from_b(x));
        i = i + 1;
        assert(v@ =~= orig.skip(i as int));
    }
    assert(list_model(out) =~= orig.map_values(|x: Vec<u8>| x@).map_values(|x: Seq<u8>| Av::of_b(x)));
    out
}

/// Takes out the sequence-like payload, the set kinds lifted to scalars.
pub fn take_list_items(a: AttributeValue) -> (r: Option<Vec<AttributeValue>>)
    ensures
        match list_items(a.model()) {
            Some(items) => (r matches Some(v) && list_model(v) == items),
            None => r is None,
        },
{
    let AttributeValue { bs, l, ns, ss, .. } = a;
    if let Some(x) = bs {
        Some(lift_buffers(x))
    } else if let Some(x) = l {
        Some(x)
    } else if let Some(x) = ns {
        Some(lift_strings(x, true))
    } else if let Some(x) = ss {
        Some(lift_strings(x, false))
    } else {
        None
    }
}

fn decode_items_exec(items: Vec<AttributeValue>, sh: &Shape, d: usize) -> (r: Result<Vec<Value>, Error>)
    ensures
        match decode_items(list_model(items), *sh, d as nat) {
            Ok(xs) => (r matches Ok(v) && values_model(v) == xs),
            Err(e) => (r matches Err(er) && er.kind() == e),
        },
    decreases d, 3nat,
{
    let ghost m = list_model(items);
    let n = items.len();
    let mut rest = items;
    let mut out: Vec<Value> = Vec::new();
    let mut i: usize = 0;
    assert(m.take(0) =~= Seq::<Av>::empty());
    assert(values_model(out) =~= Seq::<Val>::empty());
    while rest.len() > 0
        invariant
            m == list_model(items),
            n == m.len(),
            i + rest@.len() == m.len(),
            list_model(rest) == m.skip(i as int),
            decode_items(m.take(i as int), *sh, d as nat) == Ok::<Seq<Val>, DeErr>(values_model(out)),
        decreases rest@.len(),
    {
        let ghost old_rest = rest;
        let x = rest.remove(0);
        proof {
            lemma_list_model_drop_first(old_rest, rest);
            assert(m.skip(i as int).drop_first() =~= m.skip(i + 1));
        }
        assert(m.take(i + 1).drop_last() =~= m.take(i as int));
        assert(m.take(i + 1).last() == x.model());
        match decode_value(x, sh, d) {
            Ok(v) => {
                let ghost prev = values_model(out);
                out.push(v);
                assert(values_model(out) =~= prev.push(v.model()));
            },
            Err(e) => {
                assert(decode_items(m.take(i + 1), *sh, d as nat) == Err::<Seq<Val>, DeErr>(e.kind()));
                proof {
                    lemma_items_prefix(m, i + 1, *sh, d as nat);
                }
                return Err(e);
            },
        }
        i = i + 1;
    }
    assert(m.take(i as int) =~= m);
    Ok(out)
}

fn decode_tuple_exec(items: Vec<AttributeValue>, shs: &Vec<Shape>, d: usize) -> (r: Result<Vec<Value>, Error>)
    ensures
        match decode_tuple(list_model(items), shs@, d as nat) {
            Ok(xs) => (r matches Ok(v) && values_model(v) == xs),
            Err(e) => (r matches Err(er) && er.kind() == e),
        },
    decreases d, 3nat,
{
    let ghost m = list_model(items);
    let mut rest = items;
    let mut out: Vec<Value> = Vec::new();
    let mut j: usize = 0;
    assert(shs@.take(0) =~= Seq::<Shape>::empty());
    assert(values_model(out) =~= Seq::<Val>::empty());
    assert(m.skip(0) =~= m);
    while j < shs.len()
        invariant
            m == list_model(items),
            j <= shs@.len(),
            j <= m.len() ==> j + rest@.len() == m.len() && list_model(rest) == m.skip(j as int),
            j <= m.len(),
            decode_tuple(m, shs@.take(j as int), d as nat) == Ok::<Seq<Val>, DeErr>(values_model(out)),
        decreases shs@.len() - j,
    {
        assert(shs@.take(j + 1).drop_last() =~= shs@.take(j as int));
        assert(shs@.take(j + 1).last() == shs@[j as int]);
        if rest.len() == 0 {
            assert(decode_tuple(m, shs@.take(j + 1), d as nat) == Err::<Seq<Val>, DeErr>(DeErr::Message));
            proof {
                lemma_tuple_prefix(m, shs@, j + 1, d as nat);
            }
            return Err(Error::Message("invalid length".to_owned()));
        }
        let ghost old_rest = rest;
        let x = rest.remove(0);
        proof {
            lemma_list_model_drop_first(old_rest, rest);
            assert(m.skip(j as int).drop_first() =~= m.skip(j + 1));
            assert(m.skip(j as int)[0] == m[j as int]);
        }
        assert(x.model() == m[j as int]);
        match decode_value(x, &shs[j], d) {
            Ok(v) => {
                let ghost prev = values_model(out);
                out.push(v);
                assert(values_model(out) =~= prev.push(v.model()));
            },
            Err(e) => {
                assert(decode_tuple(m, shs@.take(j + 1), d as nat) == Err::<Seq<Val>, DeErr>(e.kind()));
                proof {
                    lemma_tuple_prefix(m, shs@, j + 1, d as nat);
                }
                return Err(e);
            },
        }
        j = j + 1;
    }
    assert(shs@.take(j as int) =~= shs@);
    Ok(out)
}

fn decode_entries_exec(es: Attributes, sh: &Shape, d: usize) -> (r: Result<Vec<(Value, Value)>, Error>)
    ensures
        match decode_entries(es.model(), *sh, d as nat) {
            Ok(ps) => (r matches Ok(v) && pairs_model(v) == ps),
            Err(e) => (r matches Err(er) && er.kind() == e),
        },
    decreases d, 3nat,
{
    let ghost m = es.model();
    let n = es.len();
    let mut rest = es;
    let mut out: Vec<(Value, Value)> = Vec::new();
    let mut i: usize = 0;
    assert(m.take(0) =~= Seq::<(Seq<char>, Av)>::empty());
    assert(pairs_model(out) =~= Seq::<(Val, Val)>::empty());
    assert(m.skip(0) =~= m);
    while rest.len() > 0
        invariant
            m == es.model(),
            n == m.len(),
            i + rest.model().len() == m.len(),
            rest.model() == m.skip(i as int),
            decode_entries(m.take(i as int), *sh, d as nat) == Ok::<Seq<(Val, Val)>, DeErr>(pairs_model(out)),
        decreases rest.model().len(),
    {
        let (k, x) = match rest.pop_first() {
            Some(e) => e,
            None => {
                return Err(Error::MissingField);
            },
        };
        assert(m.skip(i as int).drop_first() =~= m.skip(i + 1));
        assert(m.skip(i as int)[0] == m[i as int]);
        assert(m.take(i + 1).drop_last() =~= m.take(i as int));
        assert(m.take(i + 1).last() == m[i as int]);
        assert(m[i as int] == (k@, x.model()));
        match decode_value(x, sh, d) {
            Ok(v) => {
                let ghost prev = pairs_model(out);
                out.push((Value::Str(k), v));
                assert(pairs_model(out) =~= prev.push((Val::Str(k@), v.model())));
            },
            Err(e) => {
                assert(decode_entries(m.take(i + 1), *sh, d as nat) == Err::<Seq<(Val, Val)>, DeErr>(e.kind()));
                proof {
                    lemma_entries_prefix(m, i + 1, *sh, d as nat);
                }
                return Err(e);
            },
        }
        i = i + 1;
    }
    assert(m.take(i as int) =~= m);
    Ok(out)
}

/// The fields decoded so far, put before what the remaining fields give.
pub open spec fn after_prefix(acc: Seq<(Seq<char>, Val)>, r: Result<Seq<(Seq<char>, Val)>, DeErr>) -> Result<
    Seq<(Seq<char>, Val)>,
    DeErr,
> {
    match r {
        Ok(rest) => Ok(acc + rest),
        Err(e) => Err(e),
    }
}

#[verifier::rlimit(50)]
fn decode_fields_exec(es: Attributes, fs: &Vec<(String, Shape)>, d: usize) -> (r: Result<Vec<(String, Value)>, Error>)
    ensures
        match decode_fields(es.model(), fs@, d as nat) {
            Ok(xs) => (r matches Ok(v) && fields_model(v) == xs),
            Err(e) => (r matches Err(er) && er.kind() == e),
        },
    decreases d, 3nat,
{
    let ghost m = es.model();
    let mut rest = es;
    let mut out: Vec<(String, Value)> = Vec::new();
    let mut j: usize = 0;
    assert(fs@.skip(0) =~= fs@);
    assert(fields_model(out) =~= Seq::<(Seq<char>, Val)>::empty());
    while j < fs.len()
        invariant
            m == es.model(),
            j <= fs@.len(),
            decode_fields(m, fs@, d as nat) == after_prefix(
                fields_model(out),
                decode_fields(rest.model(), fs@.skip(j as int), d as nat),
            ),
        decreases fs@.len() - j,
    {
        let ghost cur = rest.model();
        let ghost tail = fs@.skip(j as int);
        assert(tail[0] == fs@[j as int]);
        assert(tail.drop_first() =~= fs@.skip(j + 1));
        match rest.remove(fs[j].0.as_str()) {
            Some(x) => {
                let ghost k = find_key(cur, fs@[j as int].0@)->0;
                assert(cur[k].1 == x.model());
                match decode_value(x, &fs[j].1, d) {
                    Ok(v) => {
                        let ghost prev = fields_model(out);
                        let name = fs[j].0.clone();
                        out.push((name, v));
                        assert(fields_model(out) =~= prev.push((fs@[j as int].0@, v.model())));
                        assert(prev + (seq![(fs@[j as int].0@, v.model())] + Seq::empty()) =~= fields_model(out));
                        proof {
                            let r2 = decode_fields(rest.model(), fs@.skip(j + 1), d as nat);
                            match r2 {
                                Ok(more) => {
                                    assert(prev + (seq![(fs@[j as int].0@, v.model())] + more) =~= fields_model(out) + more);
                                },
                                Err(_) => {},
                            }
                        }
                    },
                    Err(e) => {
                        assert(decode_fields(cur, tail, d as nat) == Err::<Seq<(Seq<char>, Val)>, DeErr>(e.kind()));
                        return Err(e);
                    },
                }
            },
            None => {
                assert(decode_fields(cur, tail, d as nat) == Err::<Seq<(Seq<char>, Val)>, DeErr>(DeErr::MissingField));
                return Err(Error::MissingField);
            },
        }
        j = j + 1;
    }
    assert(fs@.skip(j as int) =~= Seq::<(String, Shape)>::empty());
    assert(fields_model(out) + Seq::<(Seq<char>, Val)>::empty() =~= fields_model(out));
    Ok(out)
}

/// The position of the first variant named `n`.
fn variant_position(vs: &Vec<(String, VariantShape)>, n: &String) -> (r: Option<usize>)
    ensures
        match r {
            Some(i) => i < vs@.len() && find_variant(vs@, n@) == Some(i as int),
            None => find_variant(vs@, n@) is None,
        },
{
    let mut i: usize = 0;
    while i < vs.len()
        invariant
            i <= vs@.len(),
            forall|j: int| 0 <= j < i ==> vs@[j].0@ != n@,
        decreases vs@.len() - i,
    {
        if vs[i].0 == *n {
            return Some(i);
        }
        i = i + 1;
    }
    None
}

#[verifier::rlimit(50)]
fn decode_enum_exec(a: AttributeValue, vs: &Vec<(String, VariantShape)>, d: usize) -> (r: Result<Value, Error>)
    ensures
        result_model(r) == decode_enum(a.model(), vs@, d as nat),
        d > 0 && arity_failure(a.model()) ==> (r matches Err(Error::Message(t)) && t@ == arity_text(
            a.model().m->0.len(),
        )),
    decreases d, 1nat,
{
    if d == 0 {
        return Err(Error::DepthLimit);
    }
    let e = d - 1;
    let has = has_payload(&a);
    let AttributeValue { s, m, .. } = a;
    if let Some(n) = s {
        match variant_position(vs, &n) {
            Some(j) => match &vs[j].1 {
                VariantShape::Unit => Ok(Value::UnitVariant(n)),
                _ => Err(Error::Message("expected a unit variant".to_owned())),
            },
            None => Err(Error::Message("unknown variant".to_owned())),
        }
    } else if let Some(mut es) = m {
        if es.len() != 1 {
            return Err(arity_error(es.len()));
        }
        let (n, inner) = match es.pop_first() {
            Some(x) => x,
            None => {
                return Err(Error::MissingField);
            },
        };
        match variant_position(vs, &n) {
            Some(j) => match &vs[j].1 {
                VariantShape::Unit => Err(Error::MissingField),
                VariantShape::Newtype(sh) => match decode_value(inner, sh, e) {
                    Ok(x) => Ok(Value::NewtypeVariant(n, Box::new(x))),
                    Err(err) => Err(err),
                },
                VariantShape::Tuple(shs) => match take_list_items(inner) {
                    Some(items) => match decode_tuple_exec(items, shs, e) {
                        Ok(xs) => Ok(Value::TupleVariant(n, xs)),
                        Err(err) => Err(err),
                    },
                    None => Err(Error::ExpectedArray),
                },
                VariantShape::Struct(fs) => {
                    let inner_has = has_payload(&inner);
                    match inner.m {
                        Some(fes) => match decode_fields_exec(fes, fs, e) {
                            Ok(xs) => Ok(Value::StructVariant(n, xs)),
                            Err(err) => Err(err),
                        },
                        None => Err(absent_error(inner_has)),
                    }
                },
            },
            None => Err(Error::Message("unknown variant".to_owned())),
        }
    } else {
        Err(absent_error(has))
    }
}

fn has_payload(a: &AttributeValue) -> (r: bool)
    ensures
        r == a.model().has_payload(),
{
    a.s.is_some() || a.n.is_some() || a.b.is_some() || a.bool.is_some() || a.null.is_some()
        || a.m.is_some() || a.l.is_some() || a.ss.is_some() || a.ns.is_some() || a.bs.is_some()
}

fn absent_error(has: bool) -> (r: Error)
    ensures
        r.kind() == (if has { DeErr::IncorrectType } else { DeErr::MissingField }),
{
    if has {
        Error::IncorrectType
    } else {
        Error::MissingField
    }
}

fn decode_value(a: AttributeValue, sh: &Shape, d: usize) -> (r: Result<Value, Error>)
    ensures
        result_model(r) == decode(a.model(), *sh, d as nat),
        sh is Enum && d > 0 && arity_failure(a.model()) ==> (r matches Err(Error::Message(t)) && t@
            == arity_text(a.model().m->0.len())),
    decreases d, 2nat,
{
    if d == 0 {
        return Err(Error::DepthLimit);
    }
    let e = d - 1;
    let has = has_payload(&a);
    match sh {
        Shape::Any => {
            if a.l.is_some() || a.bs.is_some() || a.ns.is_some() || a.ss.is_some() {
                match take_list_items(a) {
                    Some(items) => match decode_items_exec(items, sh, e) {
                        Ok(xs) => Ok(Value::List(xs)),
                        Err(err) => Err(err),
                    },
                    None => Err(Error::ExpectedArray),
                }
            } else if let Some(b) = a.b {
                Ok(Value::Bytes(b))
            } else if let Some(b) = a.bool {
                Ok(Value::Bool(b))
            } else if let Some(m) = a.m {
                match decode_entries_exec(m, sh, e) {
                    Ok(ps) => Ok(Value::Mapping(ps)),
                    Err(err) => Err(err),
                }
            } else if let Some(t) = a.n {
                read_int_exec(&t, IntKind::I64)
            } else if let Some(x) = a.null {
                if x {
                    Ok(Value::Unit)
                } else {
                    Err(Error::IncorrectType)
                }
            } else if let Some(t) = a.s {
                Ok(Value::Str(t))
            } else {
                Err(Error::MissingField)
            }
        },
        Shape::Bool => match a.bool {
            Some(b) => Ok(Value::Bool(b)),
            None => Err(absent_error(has)),
        },
        Shape::Int(k) => match a.n {
            Some(t) => read_int_exec(&t, *k),
            None => Err(absent_error(has)),
        },
        Shape::Char => match a.s {
            Some(t) => if t.as_str().unicode_len() == 1 {
                Ok(Value::Char(t.as_str().get_char(0)))
            } else {
                Err(Error::Message("expected a single character".to_owned()))
            },
            None => Err(absent_error(has)),
        },
        Shape::Str => match a.s {
            Some(t) => Ok(Value::Str(t)),
            None => Err(absent_error(has)),
        },
        Shape::Bytes => match a.b {
            Some(x) => Ok(Value::Bytes(x)),
            None => Err(absent_error(has)),
        },
        Shape::Unit => if a.null == Some(true) {
            Ok(Value::Unit)
        } else {
            Err(absent_error(has))
        },
        Shape::Option(inner) => if a.null == Some(true) {
            Ok(Value::Absent)
        } else {
            match decode_value(a, inner, e) {
                Ok(x) => Ok(Value::Present(Box::new(x))),
                Err(err) => Err(err),
            }
        },
        Shape::List(inner) => match take_list_items(a) {
            Some(items) => match decode_items_exec(items, inner, e) {
                Ok(xs) => Ok(Value::List(xs)),
                Err(err) => Err(err),
            },
            None => Err(Error::ExpectedArray),
        },
        Shape::Tuple(shs) => match take_list_items(a) {
            Some(items) => match decode_tuple_exec(items, shs, e) {
                Ok(xs) => Ok(Value::List(xs)),
                Err(err) => Err(err),
            },
            None => Err(Error::ExpectedArray),
        },
        Shape::Mapping(inner) => match a.m {
            Some(es) => match decode_entries_exec(es, inner, e) {
                Ok(ps) => Ok(Value::Mapping(ps)),
                Err(err) => Err(err),
            },
            None => Err(absent_error(has)),
        },
        Shape::Struct(fs) => match a.m {
            Some(es) => match decode_fields_exec(es, fs, e) {
                Ok(xs) => Ok(Value::Struct(xs)),
                Err(err) => Err(err),
            },
            None => Err(absent_error(has)),
        },
        Shape::Enum(vs) => decode_enum_exec(a, vs, d),
    }
}

/// Reads the optional layer of a value: `None` where `null` is set to true,
/// else the value as it came, for the inner type to read.
pub fn split_option(a: AttributeValue) -> (r: Option<AttributeValue>)
    ensures
        a.model().null == Some(true) ==> r is None,
        a.model().null != Some(true) ==> (r matches Some(b) && b.model() == a.model()),
{
    if a.null == Some(true) {
        None
    } else {
        Some(a)
    }
}

/// Takes out the map payload of a record or map.
pub fn take_entries(a: AttributeValue) -> (r: Result<Attributes, Error>)
    ensures
        match a.model().m {
            Some(es) => (r matches Ok(m) && m.model() == es),
            None => (r matches Err(e) && e.kind() == absent(a.model())),
        },
{
    let has = has_payload(&a);
    match a.m {
        Some(m) => Ok(m),
        None => Err(absent_error(has)),
    }
}

/// The variant name of a tagged union and its payload, if any: text names a
/// unit variant; a map of exactly one entry names a variant with data.
pub open spec fn enum_parts_spec(a: Av) -> Result<(Seq<char>, Option<Av>), DeErr> {
    if a.s is Some {
        Ok((a.s->0, None))
    } else if a.m is Some {
        if a.m->0.len() == 1 {
            Ok((a.m->0[0].0, Some(a.m->0[0].1)))
        } else {
            Err(DeErr::Message)
        }
    } else {
        Err(absent(a))
    }
}

/// Splits a tagged union into its variant name and its payload.
pub fn enum_parts(a: AttributeValue) -> (r: Result<(String, Option<AttributeValue>), Error>)
    ensures
        match enum_parts_spec(a.model()) {
            Ok((n, p)) => (r matches Ok((rn, rp)) && rn@ == n && match p {
                Some(x) => (rp matches Some(y) && y.model() == x),
                None => rp is None,
            }),
            Err(k) => (r matches Err(e) && e.kind() == k),
        },
        arity_failure(a.model()) ==> (r matches Err(Error::Message(t)) && t@ == arity_text(
            a.model().m->0.len(),
        )),
{
    let has = has_payload(&a);
    let AttributeValue { s, m, .. } = a;
    if let Some(n) = s {
        Ok((n, None))
    } else if let Some(mut es) = m {
        if es.len() != 1 {
            return Err(arity_error(es.len()));
        }
        match es.pop_first() {
            Some((n, inner)) => Ok((n, Some(inner))),
            None => Err(Error::MissingField),
        }
    } else {
        Err(absent_error(has))
    }
}

/// Reads a tagged value as the given shape. Fails fast: the first offending
/// node gives the error, and nothing of the partly built value is kept.
pub fn from_av(a: AttributeValue, sh: &Shape) -> (r: Result<Value, Error>)
    ensures
        result_model(r) == decode(a.model(), *sh, MAX_DEPTH as nat),
        sh is Enum && arity_failure(a.model()) ==> (r matches Err(Error::Message(t)) && t@ == arity_text(
            a.model().m->0.len(),
        )),
{
    decode_value(a, sh, MAX_DEPTH)
}

} // verus!
