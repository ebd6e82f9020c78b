use jed::{Iter, Source};
use rustc_serialize::json::Json;
use std::collections::BTreeMap;

fn source(text: &str) -> Source {
    Source::new(text.as_bytes().to_vec())
}

#[test]
fn test_not_json_iter() {
    let reader = source("bogus");
    assert_eq!(Iter::new(reader).count(), 0);
}

#[test]
fn test_empty_iter() {
    assert_eq!(Iter::new(Source::new(Vec::new())).count(), 0);
}

#[test]
fn test_ary_iter() {
    let reader = source("[][]");
    assert_eq!(Iter::new(reader).count(), 2)
}

#[test]
fn test_obj_iter() {
    let reader = source("{}{}");
    assert_eq!(Iter::new(reader).count(), 2)
}

#[test]
fn empty_arrays_are_empty_arrays() {
    let all = Iter::new(source("[][]")).collect();
    assert_eq!(all, vec![Json::Array(Vec::new()), Json::Array(Vec::new())]);
}

#[test]
fn empty_objects_are_empty_objects() {
    let all = Iter::new(source("{}{}")).collect();
    assert_eq!(all, vec![Json::Object(BTreeMap::new()), Json::Object(BTreeMap::new())]);
}

#[test]
fn trailing_garbage_is_dropped() {
    let mut iter = Iter::new(source("[1,2] and then some"));
    assert_eq!(iter.next(), Some(Json::Array(vec![Json::U64(1), Json::U64(2)])));
    assert_eq!(iter.next(), None);
    assert_eq!(iter.next(), None);
}

#[test]
fn nested_value_is_one_value() {
    let all = Iter::new(source("[{\"a\":[1,{}]}]")).collect();
    let mut inner = BTreeMap::new();
    inner.insert(
        "a".to_string(),
        Json::Array(vec![Json::U64(1), Json::Object(BTreeMap::new())]),
    );
    assert_eq!(all, vec![Json::Array(vec![Json::Object(inner)])]);
}

#[test]
fn closer_inside_string_does_not_end_the_value() {
    let all = Iter::new(source("{\"k\":\"}]\"}[\"]\"]")).collect();
    let mut object = BTreeMap::new();
    object.insert("k".to_string(), Json::String("}]".to_string()));
    assert_eq!(
        all,
        vec![Json::Object(object), Json::Array(vec![Json::String("]".to_string())])]
    );
}

#[test]
fn separators_between_values_are_dropped() {
    let all = Iter::new(source(" [1]\n\t{} \r\n[2] ")).collect();
    assert_eq!(
        all,
        vec![
            Json::Array(vec![Json::U64(1)]),
            Json::Object(BTreeMap::new()),
            Json::Array(vec![Json::U64(2)]),
        ]
    );
}

#[test]
fn unfinished_value_gives_nothing() {
    assert_eq!(Iter::new(source("[1,2")).count(), 0);
    assert_eq!(Iter::new(source("{\"a\":{}")).count(), 0);
}

#[test]
fn value_without_closer_gives_nothing() {
    assert_eq!(Iter::new(source("12 \"text\" null true")).count(), 0);
}

#[test]
fn leading_garbage_spoils_the_value_behind_it() {
    assert_eq!(Iter::new(source("x[1]")).count(), 0);
    assert_eq!(Iter::new(source("][]")).count(), 0);
}

#[test]
fn malformed_bytes_are_passed_over() {
    let mut bytes = b"[1".to_vec();
    bytes.push(0xff);
    bytes.extend_from_slice(b",2]");
    bytes.push(0x80);
    bytes.extend_from_slice(b"{}");
    let all = Iter::new(Source::new(bytes)).collect();
    assert_eq!(
        all,
        vec![Json::Array(vec![Json::U64(1), Json::U64(2)]), Json::Object(BTreeMap::new())]
    );
}

#[test]
fn values_with_long_characters() {
    let text = "[\"\u{e9}\u{20ac}\u{1f600}\"]{\"\u{e9}\":1}";
    let all = Iter::new(source(text)).collect();
    let mut object = BTreeMap::new();
    object.insert("\u{e9}".to_string(), Json::U64(1));
    assert_eq!(
        all,
        vec![
            Json::Array(vec![Json::String("\u{e9}\u{20ac}\u{1f600}".to_string())]),
            Json::Object(object),
        ]
    );
}

#[test]
fn written_value_repeated_comes_back_each_time() {
    let mut object = BTreeMap::new();
    object.insert("name".to_string(), Json::String("a}b]c".to_string()));
    object.insert("list".to_string(), Json::Array(vec![Json::I64(-3), Json::Null]));
    object.insert("flag".to_string(), Json::Boolean(true));
    let value = Json::Object(object);
    let written = value.to_string();
    for n in 0..5 {
        let all = Iter::new(source(&written.repeat(n))).collect();
        assert_eq!(all.len(), n);
        for found in all {
            assert_eq!(found, value);
        }
    }
}

#[test]
fn count_after_next_counts_the_rest() {
    let mut iter = Iter::new(source("[1][2][3]"));
    assert_eq!(iter.next(), Some(Json::Array(vec![Json::U64(1)])));
    assert_eq!(iter.count(), 2);
}

#[test]
fn value_with_a_fraction_or_an_exponent_is_found() {
    let mut iter = Iter::new(source("[1.5][25e-1]{\"e\":true}"));
    for expected in [1.5f64, 2.5f64] {
        match iter.next() {
            Some(Json::Array(items)) => match items.as_slice() {
                [Json::F64(x)] => assert!((x - expected).abs() < 1e-9),
                _ => panic!("not one number"),
            },
            _ => panic!("not an array"),
        }
    }
    let mut object = BTreeMap::new();
    object.insert("e".to_string(), Json::Boolean(true));
    assert_eq!(iter.next(), Some(Json::Object(object)));
    assert_eq!(iter.next(), None);
}
