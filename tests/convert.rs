use nitroglycerin::convert::{extract, AttributeError, FromAttributeValue, IntoAttributeValue};
use nitroglycerin::value::{AttributeValue, Attributes};

#[test]
fn text_converts_both_ways() {
    let av = "hello".to_string().into_av();
    assert_eq!(av.s, Some("hello".to_string()));
    assert_eq!(String::try_from_av(av), Ok("hello".to_string()));
}

#[test]
fn boolean_converts_both_ways() {
    let av = true.into_av();
    assert_eq!(av.bool, Some(true));
    assert_eq!(bool::try_from_av(av), Ok(true));
}

#[test]
fn integers_convert_as_decimal_text() {
    let av = (-17i32).into_av();
    assert_eq!(av.n, Some("-17".to_string()));
    assert_eq!(i32::try_from_av(av), Ok(-17));
    assert_eq!(u8::try_from_av(255u8.into_av()), Ok(255));
    assert_eq!(i64::try_from_av(i64::MIN.into_av()), Ok(i64::MIN));
    assert_eq!(u64::try_from_av(u64::MAX.into_av()), Ok(u64::MAX));
    assert_eq!(i8::try_from_av(i8::MIN.into_av()), Ok(i8::MIN));
    assert_eq!(u16::try_from_av(40000u16.into_av()), Ok(40000));
    assert_eq!(i16::try_from_av((-300i16).into_av()), Ok(-300));
    assert_eq!(u32::try_from_av(7u32.into_av()), Ok(7));
    assert_eq!(isize::try_from_av((-5isize).into_av()), Ok(-5));
    assert_eq!(usize::try_from_av(12usize.into_av()), Ok(12));
}

#[test]
fn integer_from_wrong_slot() {
    assert_eq!(i32::try_from_av("1".to_string().into_av()), Err(AttributeError::IncorrectType));
}

#[test]
fn integer_text_that_does_not_parse() {
    assert_eq!(u8::try_from_av(300i32.into_av()), Err(AttributeError::ParseError));
    assert_eq!(u32::try_from_av((-1i32).into_av()), Err(AttributeError::ParseError));
    assert_eq!(
        i64::try_from_av(AttributeValue::from_n("12x".to_string())),
        Err(AttributeError::ParseError)
    );
}

#[test]
fn text_from_wrong_slot() {
    assert_eq!(String::try_from_av(5u8.into_av()), Err(AttributeError::IncorrectType));
}

#[test]
fn optional_converts_through_null() {
    let none: Option<u32> = None;
    let av = none.into_av();
    assert_eq!(av.null, Some(true));
    assert_eq!(Option::<u32>::try_from_av(av), Ok(None));
    let av = Some(9u32).into_av();
    assert_eq!(av.n, Some("9".to_string()));
    assert_eq!(Option::<u32>::try_from_av(av), Ok(Some(9)));
}

#[test]
fn sequence_converts_in_order() {
    let v = vec!["b".to_string(), "a".to_string(), "c".to_string()];
    let av = v.clone().into_av();
    assert_eq!(av.l.as_ref().map(|l| l.len()), Some(3));
    assert_eq!(Vec::<String>::try_from_av(av), Ok(v));
}

#[test]
fn sequence_from_scalar() {
    assert_eq!(Vec::<u32>::try_from_av(1u32.into_av()), Err(AttributeError::ExpectedArray));
}

#[test]
fn sequence_with_bad_element() {
    let av = AttributeValue::from_l(vec![1u32.into_av(), "x".to_string().into_av(), 3u32.into_av()]);
    assert_eq!(Vec::<u32>::try_from_av(av), Err(AttributeError::IncorrectType));
}

#[test]
fn extract_takes_the_field_out() {
    let mut map = Attributes::new();
    map.insert("id".to_string(), "foo".to_string().into_av());
    map.insert("time".to_string(), 42i64.into_av());
    let id: String = extract(&mut map, "id").unwrap();
    assert_eq!(id, "foo");
    assert_eq!(map.len(), 1);
    let time: i64 = extract(&mut map, "time").unwrap();
    assert_eq!(time, 42);
    assert_eq!(map.len(), 0);
}

#[test]
fn extract_missing_field() {
    let mut map = Attributes::new();
    map.insert("id".to_string(), "foo".to_string().into_av());
    let r: Result<String, AttributeError> = extract(&mut map, "name");
    assert_eq!(r, Err(AttributeError::MissingField("name".to_string())));
    assert_eq!(map.len(), 1);
}

#[test]
fn extract_wrong_shape() {
    let mut map = Attributes::new();
    map.insert("time".to_string(), "soon".to_string().into_av());
    let r: Result<i64, AttributeError> = extract(&mut map, "time");
    assert_eq!(r, Err(AttributeError::IncorrectType));
}

#[test]
fn insert_replaces_value_under_same_key() {
    let mut map = Attributes::new();
    map.insert("k".to_string(), 1u8.into_av());
    map.insert("k".to_string(), 2u8.into_av());
    assert_eq!(map.len(), 1);
    let k: u8 = extract(&mut map, "k").unwrap();
    assert_eq!(k, 2);
}
