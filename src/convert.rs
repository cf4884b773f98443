//! Converters between single program types and tagged values, and the helper
//! that takes one field out of a record.
use vstd::prelude::*;
use crate::number::{decimal_int, i64_text, parse_i64, parse_u64, text_int, text_nat, u64_text};
use crate::value::{find_key, list_model, AttributeValue, Attributes, Av};

verus! {

broadcast use vstd::std_specs::vec::group_vec_axioms;

/// Why a tagged value could not be converted.
#[derive(Clone, Debug, PartialEq)]
pub enum AttributeError {
    /// No item came back where one was expected.
    MissingAttributes,
    /// The record has no entry under this field name.
    MissingField(String),
    /// The expected payload slot is absent.
    IncorrectType,
    /// A sequence was expected and the list slot is absent.
    ExpectedArray,
    /// The payload is there but its text does not parse.
    ParseError,
}

/// A type that can be written as a tagged value. Writing never fails.
pub trait IntoAttributeValue: Sized {
    /// The tagged value that `self` is written as.
    spec fn written(&self) -> Av;

    fn into_av(self) -> (r: AttributeValue)
        ensures
            r.model() == self.written(),
    ;
}

/// A type that can be read from a tagged value.
pub trait FromAttributeValue: Sized {
    /// Whether reading the value succeeds.
    spec fn accepts(a: Av) -> bool;

    /// Whether `v` is what an accepted value reads as.
    spec fn read_as(a: Av, v: Self) -> bool;

    /// The error for a value that is not accepted.
    spec fn read_error(a: Av) -> AttributeError;

    fn try_from_av(av: AttributeValue) -> (r: Result<Self, AttributeError>)
        ensures
            match r {
                Ok(v) => Self::accepts(av.model()) && Self::read_as(av.model(), v),
                Err(e) => !Self::accepts(av.model()) && e == Self::read_error(av.model()),
            },
    ;
}

/// The error for a number slot: absent, or its text out of the grammar or range.
pub open spec fn number_error(a: Av) -> AttributeError {
    if a.n is None {
        AttributeError::IncorrectType
    } else {
        AttributeError::ParseError
    }
}

/// Whether the number slot holds the decimal text of a value in `[lo, hi]`,
/// under the grammar of a signed or an unsigned type.
pub open spec fn number_in(a: Av, signed: bool, lo: int, hi: int) -> bool {
    a.n matches Some(t) && (if signed {
        text_int(t) matches Some(x) && lo <= x <= hi
    } else {
        text_nat(t) matches Some(x) && lo <= x <= hi
    })
}

/// The value that the number slot reads as.
pub open spec fn number_value(a: Av, signed: bool) -> int {
    if signed {
        text_int(a.n->0)->0
    } else {
        text_nat(a.n->0)->0
    }
}

/// Reads the number slot as a signed integer in `[lo, hi]`.
fn read_signed(av: AttributeValue, lo: i64, hi: i64) -> (r: Result<i64, AttributeError>)
    ensures
        match r {
            Ok(v) => number_in(av.model(), true, lo as int, hi as int) && v == number_value(av.model(), true),
            Err(e) => !number_in(av.model(), true, lo as int, hi as int) && e == number_error(av.model()),
        },
{
    match av.n {
        Some(t) => match parse_i64(t.as_str()) {
            Some(v) => if lo <= v && v <= hi {
                Ok(v)
            } else {
                Err(AttributeError::ParseError)
            },
            None => Err(AttributeError::ParseError),
        },
        None => Err(AttributeError::IncorrectType),
    }
}

/// Reads the number slot as an unsigned integer no larger than `hi`.
fn read_unsigned(av: AttributeValue, hi: u64) -> (r: Result<u64, AttributeError>)
    ensures
        match r {
            Ok(v) => number_in(av.model(), false, 0, hi as int) && v == number_value(av.model(), false),
            Err(e) => !number_in(av.model(), false, 0, hi as int) && e == number_error(av.model()),
        },
{
    match av.n {
        Some(t) => match parse_u64(t.as_str()) {
            Some(v) => if v <= hi {
                Ok(v)
            } else {
                Err(AttributeError::ParseError)
            },
            None => Err(AttributeError::ParseError),
        },
        None => Err(AttributeError::IncorrectType),
    }
}

impl IntoAttributeValue for i8 {
    open spec fn written(&self) -> Av {
        Av::of_n(decimal_int(*self as int))
    }

    fn into_av(self) -> (r: AttributeValue) {
        AttributeValue::from_n(i64_text(self as i64))
    }
}

impl FromAttributeValue for i8 {
    open spec fn accepts(a: Av) -> bool {
        number_in(a, true, i8::MIN as int, i8::MAX as int)
    }

    open spec fn read_as(a: Av, v: i8) -> bool {
        v as int == number_value(a, true)
    }

    open spec fn read_error(a: Av) -> AttributeError {
        number_error(a)
    }

    fn try_from_av(av: AttributeValue) -> (r: Result<i8, AttributeError>) {
        match read_signed(av, i8::MIN as i64, i8::MAX as i64) {
            Ok(v) => Ok(v as i8),
            Err(e) => Err(e),
        }
    }
}

impl IntoAttributeValue for i16 {
    open spec fn written(&self) -> Av {
        Av::of_n(decimal_int(*self as int))
    }

    fn into_av(self) -> (r: AttributeValue) {
        AttributeValue::from_n(i64_text(self as i64))
    }
}

impl FromAttributeValue for i16 {
    open spec fn accepts(a: Av) -> bool {
        number_in(a, true, i16::MIN as int, i16::MAX as int)
    }

    open spec fn read_as(a: Av, v: i16) -> bool {
        v as int == number_value(a, true)
    }

    open spec fn read_error(a: Av) -> AttributeError {
        number_error(a)
    }

    fn try_from_av(av: AttributeValue) -> (r: Result<i16, AttributeError>) {
        match read_signed(av, i16::MIN as i64, i16::MAX as i64) {
            Ok(v) => Ok(v as i16),
            Err(e) => Err(e),
        }
    }
}

impl IntoAttributeValue for i32 {
    open spec fn written(&self) -> Av {
        Av::of_n(decimal_int(*self as int))
    }

    fn into_av(self) -> (r: AttributeValue) {
        AttributeValue::from_n(i64_text(self as i64))
    }
}

impl FromAttributeValue for i32 {
    open spec fn accepts(a: Av) -> bool {
        number_in(a, true, i32::MIN as int, i32::MAX as int)
    }

    open spec fn read_as(a: Av, v: i32) -> bool {
        v as int == number_value(a, true)
    }

    open spec fn read_error(a: Av) -> AttributeError {
        number_error(a)
    }

    fn try_from_av(av: AttributeValue) -> (r: Result<i32, AttributeError>) {
        match read_signed(av, i32::MIN as i64, i32::MAX as i64) {
            Ok(v) => Ok(v as i32),
            Err(e) => Err(e),
        }
    }
}

impl IntoAttributeValue for i64 {
    open spec fn written(&self) -> Av {
        Av::of_n(decimal_int(*self as int))
    }

    fn into_av(self) -> (r: AttributeValue) {
        AttributeValue::from_n(i64_text(self))
    }
}

impl FromAttributeValue for i64 {
    open spec fn accepts(a: Av) -> bool {
        number_in(a, true, i64::MIN as int, i64::MAX as int)
    }

    open spec fn read_as(a: Av, v: i64) -> bool {
        v as int == number_value(a, true)
    }

    open spec fn read_error(a: Av) -> AttributeError {
        number_error(a)
    }

    fn try_from_av(av: AttributeValue) -> (r: Result<i64, AttributeError>) {
        match read_signed(av, i64::MIN as i64, i64::MAX as i64) {
            Ok(v) => Ok(v as i64),
            Err(e) => Err(e),
        }
    }
}

impl IntoAttributeValue for u8 {
    open spec fn written(&self) -> Av {
        Av::of_n(decimal_int(*self as int))
    }

    fn into_av(self) -> (r: AttributeValue) {
        AttributeValue::from_n(u64_text(self as u64))
    }
}

impl FromAttributeValue for u8 {
    open spec fn accepts(a: Av) -> bool {
        number_in(a, false, 0, u8::MAX as int)
    }

    open spec fn read_as(a: Av, v: u8) -> bool {
        v as int == number_value(a, false)
    }

    open spec fn read_error(a: Av) -> AttributeError {
        number_error(a)
    }

    fn try_from_av(av: AttributeValue) -> (r: Result<u8, AttributeError>) {
        match read_unsigned(av, u8::MAX as u64) {
            Ok(v) => Ok(v as u8),
            Err(e) => Err(e),
        }
    }
}

impl IntoAttributeValue for u16 {
    open spec fn written(&self) -> Av {
        Av::of_n(decimal_int(*self as int))
    }

    fn into_av(self) -> (r: AttributeValue) {
        AttributeValue::from_n(u64_text(self as u64))
    }
}

impl FromAttributeValue for u16 {
    open spec fn accepts(a: Av) -> bool {
        number_in(a, false, 0, u16::MAX as int)
    }

    open spec fn read_as(a: Av, v: u16) -> bool {
        v as int == number_value(a, false)
    }

    open spec fn read_error(a: Av) -> AttributeError {
        number_error(a)
    }

    fn try_from_av(av: AttributeValue) -> (r: Result<u16, AttributeError>) {
        match read_unsigned(av, u16::MAX as u64) {
            Ok(v) => Ok(v as u16),
            Err(e) => Err(e),
        }
    }
}

impl IntoAttributeValue for u32 {
    open spec fn written(&self) -> Av {
        Av::of_n(decimal_int(*self as int))
    }

    fn into_av(self) -> (r: AttributeValue) {
        AttributeValue::from_n(u64_text(self as u64))
    }
}

impl FromAttributeValue for u32 {
    open spec fn accepts(a: Av) -> bool {
        number_in(a, false, 0, u32::MAX as int)
    }

    open spec fn read_as(a: Av, v: u32) -> bool {
        v as int == number_value(a, false)
    }

    open spec fn read_error(a: Av) -> AttributeError {
        number_error(a)
    }

    fn try_from_av(av: AttributeValue) -> (r: Result<u32, AttributeError>) {
        match read_unsigned(av, u32::MAX as u64) {
            Ok(v) => Ok(v as u32),
            Err(e) => Err(e),
        }
    }
}

impl IntoAttributeValue for u64 {
    open spec fn written(&self) -> Av {
        Av::of_n(decimal_int(*self as int))
    }

    fn into_av(self) -> (r: AttributeValue) {
        AttributeValue::from_n(u64_text(self))
    }
}

impl FromAttributeValue for u64 {
    open spec fn accepts(a: Av) -> bool {
        number_in(a, false, 0, u64::MAX as int)
    }

    open spec fn read_as(a: Av, v: u64) -> bool {
        v as int == number_value(a, false)
    }

    open spec fn read_error(a: Av) -> AttributeError {
        number_error(a)
    }

    fn try_from_av(av: AttributeValue) -> (r: Result<u64, AttributeError>) {
        match read_unsigned(av, u64::MAX as u64) {
            Ok(v) => Ok(v as u64),
            Err(e) => Err(e),
        }
    }
}

impl IntoAttributeValue for isize {
    open spec fn written(&self) -> Av {
        Av::of_n(decimal_int(*self as int))
    }

    fn into_av(self) -> (r: AttributeValue) {
        AttributeValue::from_n(i64_text(self as i64))
    }
}

impl FromAttributeValue for isize {
    open spec fn accepts(a: Av) -> bool {
        number_in(a, true, isize::MIN as int, isize::MAX as int)
    }

    open spec fn read_as(a: Av, v: isize) -> bool {
        v as int == number_value(a, true)
    }

    open spec fn read_error(a: Av) -> AttributeError {
        number_error(a)
    }

    fn try_from_av(av: AttributeValue) -> (r: Result<isize, AttributeError>) {
        match read_signed(av, isize::MIN as i64, isize::MAX as i64) {
            Ok(v) => Ok(v as isize),
            Err(e) => Err(e),
        }
    }
}

impl IntoAttributeValue for usize {
    open spec fn written(&self) -> Av {
        Av::of_n(decimal_int(*self as int))
    }

    fn into_av(self) -> (r: AttributeValue) {
        AttributeValue::from_n(u64_text(self as u64))
    }
}

impl FromAttributeValue for usize {
    open spec fn accepts(a: Av) -> bool {
        number_in(a, false, 0, usize::MAX as int)
    }

    open spec fn read_as(a: Av, v: usize) -> bool {
        v as int == number_value(a, false)
    }

    open spec fn read_error(a: Av) -> AttributeError {
        number_error(a)
    }

    fn try_from_av(av: AttributeValue) -> (r: Result<usize, AttributeError>) {
        match read_unsigned(av, usize::MAX as u64) {
            Ok(v) => Ok(v as usize),
            Err(e) => Err(e),
        }
    }
}

impl IntoAttributeValue for String {
    open spec fn written(&self) -> Av {
        Av::of_s(self@)
    }

    fn into_av(self) -> (r: AttributeValue) {
        AttributeValue::from_s(self)
    }
}

impl FromAttributeValue for String {
    open spec fn accepts(a: Av) -> bool {
        a.s is Some
    }

    open spec fn read_as(a: Av, v: String) -> bool {
        v@ == a.s->0
    }

    open spec fn read_error(a: Av) -> AttributeError {
        AttributeError::IncorrectType
    }

    fn try_from_av(av: AttributeValue) -> (r: Result<String, AttributeError>) {
        match av.s {
            Some(s) => Ok(s),
            None => Err(AttributeError::IncorrectType),
        }
    }
}

impl IntoAttributeValue for bool {
    open spec fn written(&self) -> Av {
        Av::of_bool(*self)
    }

    fn into_av(self) -> (r: AttributeValue) {
        AttributeValue::from_bool(self)
    }
}

impl FromAttributeValue for bool {
    open spec fn accepts(a: Av) -> bool {
        a.bool is Some
    }

    open spec fn read_as(a: Av, v: bool) -> bool {
        v == a.bool->0
    }

    open spec fn read_error(a: Av) -> AttributeError {
        AttributeError::IncorrectType
    }

    fn try_from_av(av: AttributeValue) -> (r: Result<bool, AttributeError>) {
        match av.bool {
            Some(b) => Ok(b),
            None => Err(AttributeError::IncorrectType),
        }
    }
}

impl<T: IntoAttributeValue> IntoAttributeValue for Option<T> {
    open spec fn written(&self) -> Av {
        match self {
            Some(x) => x.written(),
            None => Av::null_value(),
        }
    }

    fn into_av(self) -> (r: AttributeValue) {
        match self {
            Some(x) => x.into_av(),
            None => AttributeValue::null_value(),
        }
    }
}

impl<T: FromAttributeValue> FromAttributeValue for Option<T> {
    open spec fn accepts(a: Av) -> bool {
        a.null == Some(true) || T::accepts(a)
    }

    open spec fn read_as(a: Av, v: Option<T>) -> bool {
        if a.null == Some(true) {
            v is None
        } else {
            v matches Some(x) && T::read_as(a, x)
        }
    }

    open spec fn read_error(a: Av) -> AttributeError {
        T::read_error(a)
    }

    fn try_from_av(av: AttributeValue) -> (r: Result<Option<T>, AttributeError>) {
        if av.null == Some(true) {
            Ok(None)
        } else {
            match T::try_from_av(av) {
                Ok(x) => Ok(Some(x)),
                Err(e) => Err(e),
            }
        }
    }
}

/// The list payload written from a sequence of values.
pub open spec fn written_items<T: IntoAttributeValue>(v: Seq<T>) -> Seq<Av> {
    v.map_values(|x: T| x.written())
}

/// The error of the first element that is not accepted.
pub open spec fn first_read_error<T: FromAttributeValue>(items: Seq<Av>) -> AttributeError
    decreases items.len(),
{
    if items.len() == 0 {
        AttributeError::IncorrectType
    } else if !T::accepts(items[0]) {
        T::read_error(items[0])
    } else {
        first_read_error::<T>(items.drop_first())
    }
}

impl<T: IntoAttributeValue> IntoAttributeValue for Vec<T> {
    open spec fn written(&self) -> Av {
        Av::of_l(written_items(self@))
    }

    fn into_av(self) -> (r: AttributeValue) {
        let ghost orig = self@;
        let mut rest = self;
        let mut out: Vec<AttributeValue> = Vec::new();
        let mut i: usize = 0;
        let n = rest.len();
        while rest.len() > 0
            invariant
                n == orig.len(),
                i + rest@.len() == orig.len(),
                rest@ == orig.skip(i as int),
                out@.len() == i,
                forall|j: int| 0 <= j < i ==> (#[trigger] out@[j]).model() == orig[j].written(),
            decreases rest@.len(),
        {
            let x = rest.remove(0);
            assert(x == orig[i as int]);
            out.push(x.into_av());
            i = i + 1;
            assert(rest@ =~= orig.skip(i as int));
        }
        assert(list_model(out) =~= written_items(orig));
        AttributeValue::from_l(out)
    }
}

impl<T: FromAttributeValue> FromAttributeValue for Vec<T> {
    open spec fn accepts(a: Av) -> bool {
        a.l matches Some(items) && forall|i: int| 0 <= i < items.len() ==> T::accepts(#[trigger] items[i])
    }

    open spec fn read_as(a: Av, v: Vec<T>) -> bool {
        a.l matches Some(items) && v@.len() == items.len() && forall|i: int|
            0 <= i < items.len() ==> T::read_as(#[trigger] items[i], v@[i])
    }

    open spec fn read_error(a: Av) -> AttributeError {
        match a.l {
            Some(items) => first_read_error::<T>(items),
            None => AttributeError::ExpectedArray,
        }
    }

    fn try_from_av(av: AttributeValue) -> (r: Result<Vec<T>, AttributeError>) {
        let ghost am = av.model();
        let items = match av.l {
            Some(l) => l,
            None => {
                return Err(AttributeError::ExpectedArray);
            },
        };
        let ghost m = list_model(items);
        let n = items.len();
        let mut rest = items;
        let mut out: Vec<T> = Vec::new();
        let mut i: usize = 0;
        assert(m.skip(0) =~= m);
        while rest.len() > 0
            invariant
                am == av.model(),
                am.l == Some(m),
                n == m.len(),
                i + rest@.len() == m.len(),
                list_model(rest) == m.skip(i as int),
                out@.len() == i,
                forall|j: int| 0 <= j < i ==> T::accepts(#[trigger] m[j]),
                forall|j: int| 0 <= j < i ==> T::read_as(#[trigger] m[j], out@[j]),
                first_read_error::<T>(m) == first_read_error::<T>(m.skip(i as int)),
            decreases rest@.len(),
        {
            let ghost old_rest = rest;
            let x = rest.remove(0);
            proof {
                crate::value::lemma_list_model_drop_first(old_rest, rest);
                assert(m.skip(i as int).drop_first() =~= m.skip(i + 1));
                assert(m.skip(i as int)[0] == m[i as int]);
            }
            let ghost tail = m.skip(i as int);
            match T::try_from_av(x) {
                Ok(v) => {
                    assert(first_read_error::<T>(tail) == first_read_error::<T>(tail.drop_first()));
                    out.push(v);
                },
                Err(e) => {
                    assert(first_read_error::<T>(tail) == T::read_error(m[i as int]));
                    return Err(e);
                },
            }
            i = i + 1;
        }
        Ok(out)
    }
}

/// Takes the entry under `key` out of a record and reads it as a `T`.
pub fn extract<T: FromAttributeValue>(map: &mut Attributes, key: &str) -> (r: Result<T, AttributeError>)
    ensures
        match find_key(old(map).model(), key@) {
            Some(i) => final(map).model() == old(map).model().remove(i) && match r {
                Ok(v) => T::accepts(old(map).model()[i].1) && T::read_as(old(map).model()[i].1, v),
                Err(e) => !T::accepts(old(map).model()[i].1) && e == T::read_error(old(map).model()[i].1),
            },
            None => final(map).model() == old(map).model() && (r matches Err(e) && e matches AttributeError::MissingField(name) && name@ == key@),
        },
{
    match map.remove(key) {
        Some(av) => T::try_from_av(av),
        None => Err(AttributeError::MissingField(key.to_owned())),
    }
}

} // verus!
