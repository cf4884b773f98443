//! What holds between the writer and the reader.
use vstd::prelude::*;
use crate::data::{IntKind, Shape, Val, VariantShape};
use crate::de::{decode, decode_entries, decode_enum, decode_fields, decode_items, decode_tuple, find_variant, list_items, DeErr};
use crate::convert::{number_in, number_value};
use crate::number::{decimal_int, lemma_decimal_round_trip};
use crate::ser::{encodable, encode, encode_items, field_entries, insert_all, key_text, pair_entries};
use crate::value::{find_key, keys_unique, lemma_find_key, Av};

verus! {

broadcast use vstd::std_specs::vec::group_vec_axioms;

/// Whether a structured value has the given shape, within `d` levels of
/// nesting, such that reading back what it is written as gives it again:
/// map keys are text and distinct, record fields come in declaration order,
/// and an optional's present value is not itself written as `null`.
pub open spec fn conforms(v: Val, sh: Shape, d: nat) -> bool
    decreases d, 0nat,
{
    if d == 0 {
        false
    } else {
        let e = (d - 1) as nat;
        match sh {
            Shape::Any => false,
            Shape::Bool => v is Bool,
            Shape::Int(k) => match v {
                Val::Int(x) => k.is_signed() && k.min() <= x <= k.max(),
                Val::UInt(x) => !k.is_signed() && x <= k.max(),
                _ => false,
            },
            Shape::Char => v is Char,
            Shape::Str => v is Str,
            Shape::Bytes => v is Bytes,
            Shape::Unit => v is Unit,
            Shape::Option(inner) => match v {
                Val::Absent => true,
                Val::Present(x) => conforms(*x, *inner, e) && encode(*x).null is None,
                _ => false,
            },
            Shape::List(inner) => match v {
                Val::List(xs) => forall|i: int| 0 <= i < xs.len() ==> conforms(#[trigger] xs[i], *inner, e),
                _ => false,
            },
            Shape::Tuple(shs) => match v {
                Val::List(xs) => conforms_all(xs, shs@, e),
                _ => false,
            },
            Shape::Mapping(inner) => match v {
                Val::Mapping(ps) => {
                    &&& forall|i: int|
                        0 <= i < ps.len() ==> (#[trigger] ps[i]).0 is Str && conforms(ps[i].1, *inner, e)
                    &&& forall|i: int, j: int|
                        0 <= i < j < ps.len() ==> key_text(ps[i].0) != key_text(ps[j].0)
                },
                _ => false,
            },
            Shape::Struct(fs) => match v {
                Val::Struct(xs) => conforms_fields(xs, fs@, e),
                _ => false,
            },
            Shape::Enum(vs) => match v {
                Val::UnitVariant(n) => find_variant(vs@, n) matches Some(j) && vs@[j].1 is Unit,
                Val::NewtypeVariant(n, x) => find_variant(vs@, n) matches Some(j) && (match vs@[j].1 {
                    VariantShape::Newtype(s) => conforms(*x, s, e),
                    _ => false,
                }),
                Val::TupleVariant(n, xs) => find_variant(vs@, n) matches Some(j) && (match vs@[j].1 {
                    VariantShape::Tuple(shs) => conforms_all(xs, shs@, e),
                    _ => false,
                }),
                Val::StructVariant(n, xs) => find_variant(vs@, n) matches Some(j) && (match vs@[j].1 {
                    VariantShape::Struct(fs) => conforms_fields(xs, fs@, e),
                    _ => false,
                }),
                _ => false,
            },
        }
    }
}

/// Position by position, the values have the shapes.
pub open spec fn conforms_all(xs: Seq<Val>, shs: Seq<Shape>, d: nat) -> bool
    decreases d, 1nat,
{
    &&& xs.len() == shs.len()
    &&& forall|i: int| 0 <= i < xs.len() ==> conforms(#[trigger] xs[i], shs[i], d)
}

/// The record's fields are the declared ones, in order, with distinct names.
pub open spec fn conforms_fields(xs: Seq<(Seq<char>, Val)>, fs: Seq<(String, Shape)>, d: nat) -> bool
    decreases d, 1nat,
{
    &&& xs.len() == fs.len()
    &&& forall|i: int| 0 <= i < xs.len() ==> (#[trigger] xs[i]).0 == fs[i].0@ && conforms(xs[i].1, fs[i].1, d)
    &&& keys_unique(xs)
}

/// Distinct keys are written as they come: nothing is replaced.
pub proof fn lemma_insert_all_unique(es: Seq<(Seq<char>, Av)>)
    requires
        keys_unique(es),
    ensures
        insert_all(es) == es,
    decreases es.len(),
{
    if es.len() > 0 {
        let p = es.drop_last();
        assert(keys_unique(p));
        lemma_insert_all_unique(p);
        assert(!(exists|i: int| 0 <= i < p.len() && p[i].0 == es.last().0)) by {
            assert forall|i: int| 0 <= i < p.len() implies p[i].0 != es.last().0 by {
                assert(es[i] == p[i]);
            }
        }
        assert(find_key(p, es.last().0) is None);
        assert(p.push(es.last()) =~= es);
    }
}

proof fn lemma_items(xs: Seq<Val>, sh: Shape, e: nat)
    requires
        forall|i: int| 0 <= i < xs.len() ==> conforms(#[trigger] xs[i], sh, e),
    ensures
        forall|i: int| 0 <= i < xs.len() ==> encodable(#[trigger] xs[i]),
        decode_items(encode_items(xs), sh, e) == Ok::<Seq<Val>, DeErr>(xs),
    decreases e, 1nat, xs.len(),
{
    if xs.len() == 0 {
        assert(encode_items(xs) =~= Seq::<Av>::empty());
        assert(xs =~= Seq::<Val>::empty());
    } else {
        let p = xs.drop_last();
        assert forall|i: int| 0 <= i < p.len() implies conforms(#[trigger] p[i], sh, e) by {
            assert(p[i] == xs[i]);
        }
        lemma_items(p, sh, e);
        assert(encode_items(xs).drop_last() =~= encode_items(p));
        lemma_round_trip(xs.last(), sh, e);
        assert(p.push(xs.last()) =~= xs);
        assert forall|i: int| 0 <= i < xs.len() implies encodable(#[trigger] xs[i]) by {
            if i < p.len() {
                assert(p[i] == xs[i]);
            }
        }
    }
}

proof fn lemma_tuple(xs: Seq<Val>, shs: Seq<Shape>, e: nat, n: int)
    requires
        conforms_all(xs, shs, e),
        0 <= n <= shs.len(),
    ensures
        forall|i: int| 0 <= i < n ==> encodable(#[trigger] xs[i]),
        decode_tuple(encode_items(xs), shs.take(n), e) == Ok::<Seq<Val>, DeErr>(xs.take(n)),
    decreases e, 1nat, n,
{
    if n == 0 {
        assert(shs.take(0) =~= Seq::<Shape>::empty());
        assert(xs.take(0) =~= Seq::<Val>::empty());
    } else {
        lemma_tuple(xs, shs, e, n - 1);
        assert(shs.take(n).drop_last() =~= shs.take(n - 1));
        assert(shs.take(n).last() == shs[n - 1]);
        lemma_round_trip(xs[n - 1], shs[n - 1], e);
        assert(xs.take(n - 1).push(xs[n - 1]) =~= xs.take(n));
    }
}

proof fn lemma_fields(xs: Seq<(Seq<char>, Val)>, fs: Seq<(String, Shape)>, e: nat)
    requires
        conforms_fields(xs, fs, e),
    ensures
        forall|i: int| 0 <= i < xs.len() ==> encodable((#[trigger] xs[i]).1),
        decode_fields(field_entries(xs), fs, e) == Ok::<Seq<(Seq<char>, Val)>, DeErr>(xs),
    decreases e, 1nat, fs.len(),
{
    let es = field_entries(xs);
    if fs.len() == 0 {
        assert(xs =~= Seq::<(Seq<char>, Val)>::empty());
    } else {
        let k = fs[0].0@;
        assert(es[0].0 == k);
        assert(find_key(es, k) == Some(0int));
        lemma_round_trip(xs[0].1, fs[0].1, e);
        let rx = xs.drop_first();
        let rf = fs.drop_first();
        assert(es.remove(0) =~= field_entries(rx));
        assert forall|i: int| 0 <= i < rx.len() implies (#[trigger] rx[i]).0 == rf[i].0@ && conforms(
            rx[i].1,
            rf[i].1,
            e,
        ) by {
            assert(rx[i] == xs[i + 1]);
            assert(rf[i] == fs[i + 1]);
        }
        assert(keys_unique(rx));
        lemma_fields(rx, rf, e);
        assert(seq![(k, xs[0].1)] + rx =~= xs);
        assert forall|i: int| 0 <= i < xs.len() implies encodable((#[trigger] xs[i]).1) by {
            if i > 0 {
                assert(xs[i] == rx[i - 1]);
            }
        }
    }
}

proof fn lemma_entries(ps: Seq<(Val, Val)>, sh: Shape, e: nat)
    requires
        forall|i: int| 0 <= i < ps.len() ==> (#[trigger] ps[i]).0 is Str && conforms(ps[i].1, sh, e),
    ensures
        forall|i: int| 0 <= i < ps.len() ==> encodable((#[trigger] ps[i]).1),
        decode_entries(pair_entries(ps), sh, e) == Ok::<Seq<(Val, Val)>, DeErr>(ps),
    decreases e, 1nat, ps.len(),
{
    if ps.len() == 0 {
        assert(pair_entries(ps) =~= Seq::<(Seq<char>, Av)>::empty());
        assert(ps =~= Seq::<(Val, Val)>::empty());
    } else {
        let p = ps.drop_last();
        assert forall|i: int| 0 <= i < p.len() implies (#[trigger] p[i]).0 is Str && conforms(p[i].1, sh, e) by {
            assert(p[i] == ps[i]);
        }
        lemma_entries(p, sh, e);
        assert(pair_entries(ps).drop_last() =~= pair_entries(p));
        lemma_round_trip(ps.last().1, sh, e);
        assert(p.push(ps.last()) =~= ps);
        assert forall|i: int| 0 <= i < ps.len() implies encodable((#[trigger] ps[i]).1) by {
            if i < p.len() {
                assert(p[i] == ps[i]);
            }
        }
    }
}

proof fn lemma_rt_option(v: Val, inner: Shape, d: nat)
    requires
        d > 0,
        conforms(v, Shape::Option(Box::new(inner)), d),
    ensures
        encodable(v),
        decode(encode(v), Shape::Option(Box::new(inner)), d) == Ok::<Val, DeErr>(v),
    decreases (d - 1) as nat, 2nat, 0nat,
{
    let e = (d - 1) as nat;
    match v {
        Val::Present(x) => {
            lemma_round_trip(*x, inner, e);
        },
        _ => {},
    }
}

proof fn lemma_rt_list(xs: Seq<Val>, inner: Shape, d: nat)
    requires
        d > 0,
        conforms(Val::List(xs), Shape::List(Box::new(inner)), d),
    ensures
        encodable(Val::List(xs)),
        decode(encode(Val::List(xs)), Shape::List(Box::new(inner)), d) == Ok::<Val, DeErr>(Val::List(xs)),
    decreases (d - 1) as nat, 2nat, 0nat,
{
    lemma_items(xs, inner, (d - 1) as nat);
    assert(list_items(encode(Val::List(xs))) == Some(encode_items(xs)));
}

#[verifier::rlimit(40)]
proof fn lemma_rt_tuple(xs: Seq<Val>, shs: Vec<Shape>, d: nat)
    requires
        d > 0,
        conforms(Val::List(xs), Shape::Tuple(shs), d),
    ensures
        encodable(Val::List(xs)),
        decode(encode(Val::List(xs)), Shape::Tuple(shs), d) == Ok::<Val, DeErr>(Val::List(xs)),
    decreases (d - 1) as nat, 2nat, 0nat,
{
    assert(conforms_all(xs, shs@, (d - 1) as nat));
    assert(encode(Val::List(xs)) == Av::of_l(encode_items(xs)));
    lemma_tuple(xs, shs@, (d - 1) as nat, shs@.len() as int);
    assert(shs@.take(shs@.len() as int) =~= shs@);
    assert(xs.take(xs.len() as int) =~= xs);
    assert(list_items(encode(Val::List(xs))) == Some(encode_items(xs)));
}

proof fn lemma_rt_mapping(ps: Seq<(Val, Val)>, inner: Shape, d: nat)
    requires
        d > 0,
        conforms(Val::Mapping(ps), Shape::Mapping(Box::new(inner)), d),
    ensures
        encodable(Val::Mapping(ps)),
        decode(encode(Val::Mapping(ps)), Shape::Mapping(Box::new(inner)), d) == Ok::<Val, DeErr>(
            Val::Mapping(ps),
        ),
    decreases (d - 1) as nat, 2nat, 0nat,
{
    lemma_entries(ps, inner, (d - 1) as nat);
    let es = pair_entries(ps);
    assert forall|i: int, j: int| 0 <= i < j < es.len() implies es[i].0 != es[j].0 by {
        assert(es[i].0 == key_text(ps[i].0));
        assert(es[j].0 == key_text(ps[j].0));
    }
    lemma_insert_all_unique(es);
}

#[verifier::rlimit(40)]
proof fn lemma_rt_struct(xs: Seq<(Seq<char>, Val)>, fs: Vec<(String, Shape)>, d: nat)
    requires
        d > 0,
        conforms(Val::Struct(xs), Shape::Struct(fs), d),
    ensures
        encodable(Val::Struct(xs)),
        decode(encode(Val::Struct(xs)), Shape::Struct(fs), d) == Ok::<Val, DeErr>(Val::Struct(xs)),
    decreases (d - 1) as nat, 2nat, 0nat,
{
    assert(conforms_fields(xs, fs@, (d - 1) as nat));
    assert(encode(Val::Struct(xs)) == Av::of_m(insert_all(field_entries(xs))));
    lemma_fields(xs, fs@, (d - 1) as nat);
    let es = field_entries(xs);
    assert forall|i: int, j: int| 0 <= i < j < es.len() implies es[i].0 != es[j].0 by {
        assert(es[i].0 == xs[i].0);
        assert(es[j].0 == xs[j].0);
    }
    lemma_insert_all_unique(es);
}

proof fn lemma_rt_newtype_variant(n: Seq<char>, x: Val, vs: Vec<(String, VariantShape)>, d: nat)
    requires
        d > 0,
        conforms(Val::NewtypeVariant(n, Box::new(x)), Shape::Enum(vs), d),
    ensures
        encodable(Val::NewtypeVariant(n, Box::new(x))),
        decode_enum(encode(Val::NewtypeVariant(n, Box::new(x))), vs@, d) == Ok::<Val, DeErr>(
            Val::NewtypeVariant(n, Box::new(x)),
        ),
    decreases (d - 1) as nat, 2nat, 0nat,
{
    let j = find_variant(vs@, n)->0;
    match vs@[j].1 {
        VariantShape::Newtype(s) => {
            lemma_round_trip(x, s, (d - 1) as nat);
        },
        _ => {},
    }
}

proof fn lemma_rt_tuple_variant(n: Seq<char>, xs: Seq<Val>, vs: Vec<(String, VariantShape)>, d: nat)
    requires
        d > 0,
        conforms(Val::TupleVariant(n, xs), Shape::Enum(vs), d),
    ensures
        encodable(Val::TupleVariant(n, xs)),
        decode_enum(encode(Val::TupleVariant(n, xs)), vs@, d) == Ok::<Val, DeErr>(Val::TupleVariant(n, xs)),
    decreases (d - 1) as nat, 2nat, 0nat,
{
    let j = find_variant(vs@, n)->0;
    let a = encode(Val::TupleVariant(n, xs));
    assert(a == Av::of_m(seq![(n, Av::of_l(encode_items(xs)))]));
    match vs@[j].1 {
        VariantShape::Tuple(shs) => {
            assert(conforms_all(xs, shs@, (d - 1) as nat));
            lemma_tuple(xs, shs@, (d - 1) as nat, shs@.len() as int);
            assert(shs@.take(shs@.len() as int) =~= shs@);
            assert(xs.take(xs.len() as int) =~= xs);
            assert(list_items(Av::of_l(encode_items(xs))) == Some(encode_items(xs)));
        },
        _ => {},
    }
}

#[verifier::rlimit(40)]
proof fn lemma_rt_struct_variant(
    n: Seq<char>,
    xs: Seq<(Seq<char>, Val)>,
    vs: Vec<(String, VariantShape)>,
    d: nat,
)
    requires
        d > 0,
        conforms(Val::StructVariant(n, xs), Shape::Enum(vs), d),
    ensures
        encodable(Val::StructVariant(n, xs)),
        decode_enum(encode(Val::StructVariant(n, xs)), vs@, d) == Ok::<Val, DeErr>(
            Val::StructVariant(n, xs),
        ),
    decreases (d - 1) as nat, 2nat, 0nat,
{
    let j = find_variant(vs@, n)->0;
    let a = encode(Val::StructVariant(n, xs));
    assert(a == Av::of_m(seq![(n, Av::of_m(insert_all(field_entries(xs))))]));
    match vs@[j].1 {
        VariantShape::Struct(fs) => {
            assert(conforms_fields(xs, fs@, (d - 1) as nat));
            lemma_fields(xs, fs@, (d - 1) as nat);
            let es = field_entries(xs);
            assert forall|a: int, b: int| 0 <= a < b < es.len() implies es[a].0 != es[b].0 by {
                assert(es[a].0 == xs[a].0);
                assert(es[b].0 == xs[b].0);
            }
            lemma_insert_all_unique(es);
        },
        _ => {},
    }
}

proof fn lemma_rt_enum(v: Val, vs: Vec<(String, VariantShape)>, d: nat)
    requires
        d > 0,
        conforms(v, Shape::Enum(vs), d),
    ensures
        encodable(v),
        decode(encode(v), Shape::Enum(vs), d) == Ok::<Val, DeErr>(v),
    decreases (d - 1) as nat, 3nat, 0nat,
{
    assert(decode(encode(v), Shape::Enum(vs), d) == decode_enum(encode(v), vs@, d));
    match v {
        Val::NewtypeVariant(n, x) => {
            assert(v == Val::NewtypeVariant(n, Box::new(*x)));
            lemma_rt_newtype_variant(n, *x, vs, d);
        },
        Val::TupleVariant(n, xs) => lemma_rt_tuple_variant(n, xs, vs, d),
        Val::StructVariant(n, xs) => lemma_rt_struct_variant(n, xs, vs, d),
        _ => {},
    }
}

proof fn lemma_rt_scalar(v: Val, sh: Shape, d: nat)
    requires
        d > 0,
        conforms(v, sh, d),
        sh is Bool || sh is Int || sh is Char || sh is Str || sh is Bytes || sh is Unit,
    ensures
        encodable(v),
        decode(encode(v), sh, d) == Ok::<Val, DeErr>(v),
{
    match v {
        Val::Int(x) => lemma_decimal_round_trip(x as int),
        Val::UInt(x) => lemma_decimal_round_trip(x as int),
        _ => {},
    }
}

/// Reading back what a value is written as gives the value: for every value
/// that has the target shape (see [`conforms`]), writing succeeds and reading
/// the result as that shape returns the value unchanged.
pub proof fn lemma_round_trip(v: Val, sh: Shape, d: nat)
    requires
        conforms(v, sh, d),
    ensures
        encodable(v),
        decode(encode(v), sh, d) == Ok::<Val, DeErr>(v),
    decreases d, 0nat, 0nat,
{
    match sh {
        Shape::Option(inner) => lemma_rt_option(v, *inner, d),
        Shape::List(inner) => lemma_rt_list(v->List_0, *inner, d),
        Shape::Tuple(shs) => lemma_rt_tuple(v->List_0, shs, d),
        Shape::Mapping(inner) => lemma_rt_mapping(v->Mapping_0, *inner, d),
        Shape::Struct(fs) => lemma_rt_struct(v->Struct_0, fs, d),
        Shape::Enum(vs) => lemma_rt_enum(v, vs, d),
        Shape::Any => {},
        _ => lemma_rt_scalar(v, sh, d),
    }
}

/// The integer converters read back what they write: the decimal text of an
/// integer in a type's range is accepted by that type and reads as the integer.
pub proof fn lemma_number_converter_round_trip(x: int, signed: bool, lo: int, hi: int)
    requires
        lo <= x <= hi,
        !signed ==> 0 <= x,
    ensures
        number_in(Av::of_n(decimal_int(x)), signed, lo, hi),
        number_value(Av::of_n(decimal_int(x)), signed) == x,
{
    lemma_decimal_round_trip(x);
}

/// Tagged unions are written externally tagged: a unit variant as its name in
/// the `string` slot, any other as a map of one entry from its name to its
/// payload (the inner value, a list of the positional values, or a map of the
/// named fields).
pub proof fn lemma_enum_tagging(n: Seq<char>, x: Val, xs: Seq<Val>, fs: Seq<(Seq<char>, Val)>)
    ensures
        encode(Val::UnitVariant(n)) == Av::of_s(n),
        encode(Val::NewtypeVariant(n, Box::new(x))) == Av::of_m(seq![(n, encode(x))]),
        encode(Val::TupleVariant(n, xs)) == Av::of_m(seq![(n, Av::of_l(encode_items(xs)))]),
        encode(Val::StructVariant(n, fs)) == Av::of_m(seq![(n, encode(Val::Struct(fs)))]),
{
}

/// An absent optional is written as `null` set to true and read back as
/// absent; a present one is written as its value alone, with no wrapper.
pub proof fn lemma_option_law(x: Val, sh: Shape, d: nat)
    requires
        d > 0,
    ensures
        encode(Val::Absent) == Av::null_value(),
        encode(Val::Present(Box::new(x))) == encode(x),
        decode(Av::null_value(), Shape::Option(Box::new(sh)), d) == Ok::<Val, DeErr>(Val::Absent),
{
}

/// A record that holds no entry for a declared field, read after the fields
/// declared before it were read without error, fails with `MissingField`.
pub proof fn lemma_missing_field(es: Seq<(Seq<char>, Av)>, fs: Seq<(String, Shape)>, d: nat, j: int)
    requires
        0 <= j < fs.len(),
        forall|k: int| 0 <= k < es.len() ==> (#[trigger] es[k]).0 != fs[j].0@,
        decode_fields(es, fs.take(j), d) is Ok,
    ensures
        decode_fields(es, fs, d) == Err::<Seq<(Seq<char>, Val)>, DeErr>(DeErr::MissingField),
    decreases j,
{
    if j == 0 {
        assert(!(exists|i: int| 0 <= i < es.len() && es[i].0 == fs[0].0@));
    } else {
        let t = fs.take(j);
        assert(t[0] == fs[0]);
        lemma_find_key(es, fs[0].0@);
        let i = find_key(es, fs[0].0@)->0;
        let es2 = es.remove(i);
        let fs2 = fs.drop_first();
        assert(t.drop_first() =~= fs2.take(j - 1));
        assert forall|k: int| 0 <= k < es2.len() implies (#[trigger] es2[k]).0 != fs2[j - 1].0@ by {
            if k < i {
                assert(es2[k] == es[k]);
            } else {
                assert(es2[k] == es[k + 1]);
            }
        }
        lemma_missing_field(es2, fs2, d, j - 1);
    }
}

/// Reading an integer from a value whose `number` slot is absent but whose
/// `string` slot is set fails with `IncorrectType`.
pub proof fn lemma_shape_mismatch(a: Av, k: IntKind, d: nat)
    requires
        d > 0,
        a.n is None,
        a.s is Some,
    ensures
        decode(a, Shape::Int(k), d) == Err::<Val, DeErr>(DeErr::IncorrectType),
{
}

/// A tagged union read from a map payload with no entry or with more than one
/// fails; no entry is picked.
pub proof fn lemma_ambiguous_enum_map(a: Av, vs: Vec<(String, VariantShape)>, d: nat)
    requires
        d > 0,
        a.s is None,
        a.m matches Some(es) && es.len() != 1,
    ensures
        decode(a, Shape::Enum(vs), d) == Err::<Val, DeErr>(DeErr::Message),
{
    assert(decode(a, Shape::Enum(vs), d) == decode_enum(a, vs@, d));
}

/// A string-set payload read as a sequence of text gives its members, in the
/// order in which they are stored.
pub proof fn lemma_string_set_members(xs: Seq<Seq<char>>, d: nat)
    requires
        d > 1,
    ensures
        decode(
            Av { ss: Some(xs), ..Av::empty() },
            Shape::List(Box::new(Shape::Str)),
            d,
        ) == Ok::<Val, DeErr>(Val::List(xs.map_values(|x: Seq<char>| Val::Str(x)))),
{
    let a = Av { ss: Some(xs), ..Av::empty() };
    let items = xs.map_values(|x: Seq<char>| Av::of_s(x));
    assert(list_items(a) == Some(items));
    lemma_string_items(xs, (d - 1) as nat);
}

proof fn lemma_string_items(xs: Seq<Seq<char>>, e: nat)
    requires
        e > 0,
    ensures
        decode_items(xs.map_values(|x: Seq<char>| Av::of_s(x)), Shape::Str, e) == Ok::<Seq<Val>, DeErr>(
            xs.map_values(|x: Seq<char>| Val::Str(x)),
        ),
    decreases xs.len(),
{
    let items = xs.map_values(|x: Seq<char>| Av::of_s(x));
    if xs.len() == 0 {
        assert(xs.map_values(|x: Seq<char>| Val::Str(x)) =~= Seq::<Val>::empty());
    } else {
        let p = xs.drop_last();
        lemma_string_items(p, e);
        assert(items.last() == Av::of_s(xs.last()));
        assert(decode(items.last(), Shape::Str, e) == Ok::<Val, DeErr>(Val::Str(xs.last())));
        assert(items.drop_last() =~= p.map_values(|x: Seq<char>| Av::of_s(x)));
        assert(p.map_values(|x: Seq<char>| Val::Str(x)).push(Val::Str(xs.last())) =~= xs.map_values(
            |x: Seq<char>| Val::Str(x),
        ));
    }
}

} // verus!
