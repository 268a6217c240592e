use tlang::{Array, Level, Number, Value};

fn text(s: &str) -> Value {
    Value::Text(s.to_string())
}

fn num(i: i64) -> Value {
    Value::Number(Number::from_int(i))
}

#[test]
fn test_level_split_into() {
    assert_eq!(Level::File.split_into(), Level::Line);
    assert_eq!(Level::Line.split_into(), Level::Word);
    assert_eq!(Level::Word.split_into(), Level::Char);
    assert_eq!(Level::Char.split_into(), Level::Char);
}

#[test]
fn test_level_join_delimiter() {
    assert_eq!(Level::File.join_delimiter(), "\n");
    assert_eq!(Level::Line.join_delimiter(), "\n");
    assert_eq!(Level::Word.join_delimiter(), " ");
    assert_eq!(Level::Char.join_delimiter(), "");
}

#[test]
fn test_level_parent() {
    assert_eq!(Level::File.parent(), Level::File);
    assert_eq!(Level::Line.parent(), Level::File);
    assert_eq!(Level::Word.parent(), Level::Line);
    assert_eq!(Level::Char.parent(), Level::Word);
}

#[test]
fn test_value_ordering() {
    let a = num(1);
    let b = text("hello");
    let c = Value::Array(Array::from((vec![], Level::Line)));
    assert_eq!(tlang::value_cmp(&a, &b), -1);
    assert_eq!(tlang::value_cmp(&b, &c), -1);
    assert_eq!(tlang::value_cmp(&a, &c), -1);
}

#[test]
fn test_number_comparison() {
    let a = num(1);
    let b = num(2);
    let c = num(1);
    assert_eq!(tlang::value_cmp(&a, &b), -1);
    assert_eq!(a, c);
}

#[test]
fn test_text_comparison() {
    let a = text("bar");
    let b = text("foo");
    assert_eq!(tlang::value_cmp(&a, &b), -1);
}

#[test]
fn test_value_replace() {
    let mut from = text("a");
    let to = text("b");
    let to_copy = to.deep_copy();
    from.replace(to);
    assert_eq!(from, to_copy);
}

#[test]
fn test_value_replace_across_kinds() {
    let mut from = num(1);
    let to = Value::Array(Array::new(Level::Line));
    let to_copy = to.deep_copy();
    from.replace(to);
    assert_eq!(from, to_copy);
}

#[test]
fn test_value_is_empty() {
    assert!(text("").is_empty());
    assert!(!text("a").is_empty());
    assert!(Value::Array(Array::new(Level::Line)).is_empty());
    assert!(!num(0).is_empty());
}

#[test]
fn test_array_lexicographic_sort() {
    let mut arr = Array::from((
        vec![
            Value::Array(Array::from((vec![num(1), text("foo")], Level::Line))),
            Value::Array(Array::from((vec![num(1), text("bar")], Level::Line))),
            Value::Array(Array::from((vec![num(3), text("bar")], Level::Line))),
        ],
        Level::Line,
    ));
    arr.sort(false);
    let elements = &arr.elements;
    if let Value::Array(first) = &elements[0] {
        assert_eq!(first.elements[0], num(1));
        assert_eq!(first.elements[1], text("bar"));
    } else {
        panic!("expected array");
    }
    if let Value::Array(second) = &elements[1] {
        assert_eq!(second.elements[0], num(1));
        assert_eq!(second.elements[1], text("foo"));
    } else {
        panic!("expected array");
    }
    if let Value::Array(third) = &elements[2] {
        assert_eq!(third.elements[0], num(3));
    } else {
        panic!("expected array");
    }
}

#[test]
fn test_array_from_tuple() {
    let arr = Array::from((vec![text("a"), text("b")], Level::Line));
    assert_eq!(arr.len(), 2);
    assert_eq!(arr.elements[0], text("a"));
}

#[test]
fn test_array_get_positive_index() {
    let arr = Array::from((vec![text("a"), text("b"), text("c")], Level::Line));
    assert_eq!(arr.get(0), Some(&text("a")));
    assert_eq!(arr.get(1), Some(&text("b")));
    assert_eq!(arr.get(2), Some(&text("c")));
    assert_eq!(arr.get(3), None);
}

#[test]
fn test_array_get_negative_index() {
    let arr = Array::from((vec![text("a"), text("b"), text("c")], Level::Line));
    assert_eq!(arr.get(-1), Some(&text("c")));
    assert_eq!(arr.get(-2), Some(&text("b")));
    assert_eq!(arr.get(-3), Some(&text("a")));
    assert_eq!(arr.get(-4), None);
}

#[test]
fn test_array_sort_descending() {
    let mut arr = Array::from((vec![num(1), num(3), num(2)], Level::Line));
    arr.sort(true);
    assert_eq!(arr.elements[0], num(3));
    assert_eq!(arr.elements[1], num(2));
    assert_eq!(arr.elements[2], num(1));
}

#[test]
fn test_array_sort_ascending() {
    let mut arr = Array::from((vec![num(3), num(1), num(2)], Level::Line));
    arr.sort(false);
    assert_eq!(arr.elements[0], num(1));
    assert_eq!(arr.elements[1], num(2));
    assert_eq!(arr.elements[2], num(3));
}

#[test]
fn test_sort_twice_is_idempotent() {
    let mut once = Array::from((vec![num(3), num(1), text("b"), num(2), text("a")], Level::Line));
    once.sort(false);
    let mut twice = once.deep_copy();
    twice.sort(false);
    assert_eq!(once, twice);
}

#[test]
fn test_sort_of_sorted_is_noop() {
    let mut arr = Array::from((vec![num(1), num(2), text("a"), text("b")], Level::Line));
    let before = arr.deep_copy();
    arr.sort(false);
    assert_eq!(arr, before);
}

#[test]
fn test_array_new() {
    let arr = Array::new(Level::Line);
    assert!(arr.is_empty());
    assert_eq!(arr.level, Level::Line);
}

#[test]
fn test_array_is_empty() {
    let empty = Array::new(Level::Line);
    assert!(empty.is_empty());
    let non_empty = Array::from((vec![text("a")], Level::Line));
    assert!(!non_empty.is_empty());
}

#[test]
fn test_deep_copy_is_structural() {
    let v = Value::Array(Array::from((
        vec![text("a"), num(5), Value::Array(Array::from((vec![text("x")], Level::Word)))],
        Level::Line,
    )));
    let c = v.deep_copy();
    assert_eq!(v, c);
}

#[test]
fn test_render_joins_by_level() {
    let v = Value::Array(Array::from((vec![text("a"), text("b")], Level::Word)));
    assert_eq!(tlang::render_value(&v), "a b");
    let l = Value::Array(Array::from((vec![text("x"), text("y")], Level::Line)));
    assert_eq!(tlang::render_value(&l), "x\ny");
    let ch = Value::Array(Array::from((vec![text("x"), text("y")], Level::Char)));
    assert_eq!(tlang::render_value(&ch), "xy");
}

#[test]
fn test_value_to_key_tags_types() {
    assert_eq!(tlang::value_to_key(&text("a")), "T:a");
    assert_eq!(tlang::value_to_key(&num(1)), "N:1");
    let arr = Value::Array(Array::from((vec![text("a"), num(1)], Level::Word)));
    assert_eq!(tlang::value_to_key(&arr), "A:[T:a,N:1]");
}
