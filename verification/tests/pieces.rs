use botwire::chars::{chars_of, string_of};
use botwire::json::{write_escaped, write_quoted, Json};
use botwire::number::{digit, push_int, push_nat, scan_digits, scan_number, Number};
use botwire::parse::{read_value, skip_ws, MAX_DEPTH};
use botwire::payloads::{object_of, Field};
use botwire::types::{read_i32, read_i64, read_text, True, Wire};

#[test]
fn chars_and_strings() {
    let v = chars_of("a☃b");
    assert_eq!(v, vec!['a', '☃', 'b']);
    assert_eq!(string_of(&v, 1, 3), "☃b");
    assert_eq!(string_of(&v, 2, 2), "");
    assert!(chars_of("").is_empty());
}

#[test]
fn digits_are_scanned_up_to_the_first_other_character() {
    let v = chars_of("ab123.45x");
    assert!(digit('0') && digit('9') && !digit('a') && !digit('/') && !digit(':'));
    assert_eq!(scan_digits(&v, 0, 2), 5);
    assert_eq!(scan_digits(&v, 2, 6), 8);
    assert_eq!(scan_digits(&v, 0, 0), 0);
    assert_eq!(scan_digits(&v, 0, 9), 9);
}

#[test]
fn numbers_are_scanned_where_they_stand() {
    let v = chars_of("[-12.5e3,07]");
    assert_eq!(scan_number(&v, 1), Some(8));
    assert_eq!(scan_number(&v, 9), Some(10));
    assert_eq!(scan_number(&v, 0), None);
    assert_eq!(scan_number(&v, 12), None);
    let (n, end) = Number::scan(&v, 1).unwrap();
    assert_eq!((n.as_str(), end), ("-12.5e3", 8));
    assert!(Number::scan(&v, 8).is_none());
}

#[test]
fn integers_are_pushed_in_decimal() {
    let mut s = String::from("n=");
    push_nat(&mut s, 0);
    push_nat(&mut s, u64::MAX);
    push_int(&mut s, -40);
    assert_eq!(s, "n=018446744073709551615-40");
}

#[test]
fn strings_are_quoted_behind_what_is_there() {
    let mut s = String::from(">");
    write_escaped(&mut s, '\n');
    write_escaped(&mut s, 'x');
    write_escaped(&mut s, '\u{1b}');
    write_quoted(&mut s, "a\"b");
    assert_eq!(s, ">\\nx\\u001b\"a\\\"b\"");
}

#[test]
fn values_are_read_where_they_stand() {
    let v = chars_of("  [1, \"x\"] tail");
    assert_eq!(skip_ws(&v, 0), 2);
    assert_eq!(skip_ws(&v, 2), 2);
    assert_eq!(skip_ws(&v, v.len()), v.len());
    let (json, end) = read_value(&v, 2, MAX_DEPTH).unwrap();
    assert_eq!((json.to_text().as_str(), end), ("[1,\"x\"]", 10));
    assert!(read_value(&v, 2, 0).is_none());
    assert!(read_value(&v, 0, MAX_DEPTH).is_none());
    let (json, end) = read_value(&v, 3, 0).unwrap();
    assert_eq!((json.to_text().as_str(), end), ("1", 4));
}

#[test]
fn an_object_holds_the_fields_that_have_a_value() {
    let fields = vec![
        Field::optional("a", None),
        Field::required("b", Json::Bool(true)),
        Field::optional("c", Some(Json::Null)),
        Field::optional("d", None),
    ];
    assert!(!fields[0].required && fields[1].required);
    assert_eq!(object_of(fields).to_text(), "{\"b\":true,\"c\":null}");
    assert_eq!(object_of(Vec::new()).to_text(), "{}");
}

#[test]
fn plain_values_are_read_from_json() {
    let n = Json::Number(Number::from_i64(2147483648));
    let t = Json::Text("x".to_string());
    assert_eq!(read_i64(Some(&n)), Some(2147483648));
    assert_eq!(read_i32(Some(&n)), None);
    assert_eq!(read_i32(Some(&Json::Number(Number::from_i64(-2147483648)))), Some(i32::MIN));
    assert_eq!(read_i64(Some(&t)), None);
    assert_eq!(read_i64(None), None);
    assert_eq!(read_text(Some(&t)).as_deref(), Some("x"));
    assert_eq!(read_text(Some(&n)), None);
    assert_eq!(read_text(None), None);
}

#[test]
fn the_success_marker_is_true_on_the_wire() {
    assert_eq!(True.to_json().to_text(), "true");
    assert!(True::from_json(&Json::Bool(true)).is_some());
    assert!(True::from_json(&Json::Bool(false)).is_none());
    assert!(True::from_json(&Json::Null).is_none());
}
