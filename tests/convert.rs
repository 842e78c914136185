use bson::raw::{RawArrayBuf, RawBson, RawDocumentBuf};
use bson2json::escape::{plan_string, EscapeCode, StringPiece};
use bson2json::{traverse_document, traverse_value, JsonWriter, TraverseError, Value};

fn compact(doc: &RawDocumentBuf) -> Result<String, TraverseError> {
    let mut w = JsonWriter::new(serde_json::ser::CompactFormatter, Vec::new());
    traverse_document(doc, &mut w)?;
    Ok(String::from_utf8(w.writer).unwrap())
}

fn pretty(doc: &RawDocumentBuf) -> String {
    let mut w = JsonWriter::new(serde_json::ser::PrettyFormatter::new(), Vec::new());
    assert!(traverse_document(doc, &mut w).is_ok());
    String::from_utf8(w.writer).unwrap()
}

fn string_doc(s: &str) -> RawDocumentBuf {
    let mut doc = RawDocumentBuf::new();
    doc.append("s", s);
    doc
}

#[test]
fn scalars_transcode() {
    let mut doc = RawDocumentBuf::new();
    doc.append("a", true);
    doc.append("b", RawBson::Null);
    doc.append("c", 42i32);
    assert_eq!(compact(&doc).unwrap(), r#"{"a":true,"b":null,"c":42}"#);
}

#[test]
fn every_supported_type_transcodes() {
    let mut doc = RawDocumentBuf::new();
    doc.append("d", 1.5f64);
    doc.append("s", "q\"b\\n\nt\t\u{1}");
    doc.append("t", true);
    doc.append("f", false);
    doc.append("n", RawBson::Null);
    doc.append("i", -7i32);
    doc.append("l", 9_007_199_254_740_993i64);
    doc.append("dt", bson::DateTime::from_millis(0));
    assert_eq!(
        compact(&doc).unwrap(),
        r#"{"d":1.5,"s":"q\"b\\n\nt\t\u0001","t":true,"f":false,"n":null,"i":-7,"l":9007199254740993,"dt":"1970-01-01T00:00:00Z"}"#
    );
}

#[test]
fn double_keeps_formatter_policy() {
    let mut doc = RawDocumentBuf::new();
    doc.append("x", 3.0f64);
    assert_eq!(compact(&doc).unwrap(), r#"{"x":3.0}"#);
}

#[test]
fn datetime_with_millis() {
    let mut doc = RawDocumentBuf::new();
    doc.append("t", bson::DateTime::from_millis(1_500_000_000_123));
    assert_eq!(compact(&doc).unwrap(), r#"{"t":"2017-07-14T02:40:00.123Z"}"#);
}

#[test]
fn binary_field_is_rejected() {
    let mut doc = RawDocumentBuf::new();
    doc.append("ok", 1i32);
    doc.append(
        "blob",
        bson::Binary { subtype: bson::spec::BinarySubtype::Generic, bytes: vec![1, 2, 3] },
    );
    match compact(&doc) {
        Err(TraverseError::UnexpectedBsonType(t)) => assert_eq!(t, bson::spec::ElementType::Binary),
        _ => panic!("expected an unexpected type"),
    }
}

#[test]
fn object_id_inside_array_is_rejected() {
    let mut arr = RawArrayBuf::new();
    arr.push(1i32);
    arr.push(bson::oid::ObjectId::from_bytes([7; 12]));
    let mut doc = RawDocumentBuf::new();
    doc.append("a", arr);
    match compact(&doc) {
        Err(TraverseError::UnexpectedBsonType(t)) => assert_eq!(t, bson::spec::ElementType::ObjectId),
        _ => panic!("expected an unexpected type"),
    }
}

#[test]
fn empty_containers() {
    assert_eq!(compact(&RawDocumentBuf::new()).unwrap(), "{}");
    let mut doc = RawDocumentBuf::new();
    doc.append("a", RawArrayBuf::new());
    doc.append("o", RawDocumentBuf::new());
    assert_eq!(compact(&doc).unwrap(), r#"{"a":[],"o":{}}"#);
    assert_eq!(pretty(&RawDocumentBuf::new()), "{}");
}

fn nested() -> RawDocumentBuf {
    let mut inner_arr = RawArrayBuf::new();
    inner_arr.push(1i32);
    inner_arr.push("two");
    let mut inner_doc = RawDocumentBuf::new();
    inner_doc.append("k", inner_arr);
    inner_doc.append("z", RawBson::Null);
    let mut outer = RawArrayBuf::new();
    outer.push(inner_doc);
    outer.push(RawDocumentBuf::new());
    let mut doc = RawDocumentBuf::new();
    doc.append("list", outer);
    doc.append("n", 5i64);
    doc
}

#[test]
fn nesting_compact() {
    assert_eq!(
        compact(&nested()).unwrap(),
        r#"{"list":[{"k":[1,"two"],"z":null},{}],"n":5}"#
    );
}

#[test]
fn nesting_matches_serde_json_pretty() {
    let mut k = serde_json::Map::new();
    k.insert(
        "k".to_string(),
        serde_json::Value::Array(vec![serde_json::Value::from(1), serde_json::Value::from("two")]),
    );
    k.insert("z".to_string(), serde_json::Value::Null);
    let mut top = serde_json::Map::new();
    top.insert(
        "list".to_string(),
        serde_json::Value::Array(vec![
            serde_json::Value::Object(k),
            serde_json::Value::Object(serde_json::Map::new()),
        ]),
    );
    top.insert("n".to_string(), serde_json::Value::from(5));
    let expected = serde_json::to_string_pretty(&serde_json::Value::Object(top)).unwrap();
    assert_eq!(pretty(&nested()), expected);
}

#[test]
fn duplicate_keys_kept_in_order() {
    let mut doc = RawDocumentBuf::new();
    doc.append("b", 1i32);
    doc.append("a", 2i32);
    doc.append("b", 3i32);
    assert_eq!(compact(&doc).unwrap(), r#"{"b":1,"a":2,"b":3}"#);
}

#[test]
fn escaped_strings_parse_back() {
    for s in ["", "plain", "\"", "\\", "a\u{0}b", "\u{1f}\u{7f}", "tab\there", "caf\u{e9} \u{1f600}", "\r\n\u{8}\u{c}"] {
        let out = compact(&string_doc(s)).unwrap();
        let v: serde_json::Value = serde_json::from_str(&out).unwrap();
        assert_eq!(v["s"].as_str().unwrap(), s);
    }
}

#[test]
fn keys_are_escaped() {
    let mut doc = RawDocumentBuf::new();
    doc.append("k\"1", 1i32);
    assert_eq!(compact(&doc).unwrap(), r#"{"k\"1":1}"#);
}

#[test]
fn plan_cuts_fragments_and_escapes() {
    let plan = plan_string("ab\"c\n");
    assert_eq!(
        plan,
        vec![
            StringPiece::Fragment { start: 0, end: 2 },
            StringPiece::Escape(EscapeCode::Quote),
            StringPiece::Fragment { start: 3, end: 4 },
            StringPiece::Escape(EscapeCode::LineFeed),
        ]
    );
    assert_eq!(plan_string(""), vec![]);
    assert_eq!(plan_string("\u{1}"), vec![StringPiece::Escape(EscapeCode::AsciiControl(1))]);
    assert_eq!(plan_string("\u{e9}"), vec![StringPiece::Fragment { start: 0, end: 2 }]);
}

#[test]
fn every_escape_code() {
    let plan = plan_string("\\\u{8}\u{c}\r\t\u{2}");
    assert_eq!(
        plan,
        vec![
            StringPiece::Escape(EscapeCode::ReverseSolidus),
            StringPiece::Escape(EscapeCode::Backspace),
            StringPiece::Escape(EscapeCode::FormFeed),
            StringPiece::Escape(EscapeCode::CarriageReturn),
            StringPiece::Escape(EscapeCode::Tab),
            StringPiece::Escape(EscapeCode::AsciiControl(2)),
        ]
    );
}

struct Refusing;

impl std::io::Write for Refusing {
    fn write(&mut self, _buf: &[u8]) -> std::io::Result<usize> {
        Err(std::io::Error::new(std::io::ErrorKind::BrokenPipe, "closed"))
    }
    fn flush(&mut self) -> std::io::Result<()> {
        Ok(())
    }
}

#[test]
fn write_failure_is_io_error() {
    let mut w = JsonWriter::new(serde_json::ser::CompactFormatter, Refusing);
    let doc = string_doc("x");
    assert!(matches!(traverse_document(&doc, &mut w), Err(TraverseError::IoError(_))));
}

#[test]
fn malformed_nested_document_is_raw_error() {
    // {"d": <embedded document whose length claims more bytes than are there>}
    let bytes: Vec<u8> = vec![
        16, 0, 0, 0, 0x03, b'd', 0, 9, 0, 0, 0, 0x10, b'x', 0, 0, 0,
    ];
    let doc = bson::RawDocument::from_bytes(&bytes).unwrap();
    let mut w = JsonWriter::new(serde_json::ser::CompactFormatter, Vec::new());
    assert!(matches!(traverse_document(doc, &mut w), Err(TraverseError::BsonRawError(_))));
}

fn one_value(v: Value) -> (Result<(), TraverseError>, String) {
    let mut w = JsonWriter::new(serde_json::ser::CompactFormatter, Vec::new());
    let r = traverse_value(v, &mut w);
    (r, String::from_utf8(w.writer).unwrap())
}

#[test]
fn value_dispatch_writes_scalars() {
    assert_eq!(one_value(Value::Int32(-5)).1, "-5");
    assert_eq!(one_value(Value::Int64(i64::MIN)).1, "-9223372036854775808");
    assert_eq!(one_value(Value::Boolean(false)).1, "false");
    assert_eq!(one_value(Value::Null).1, "null");
    assert_eq!(one_value(Value::String("a\\b")).1, r#""a\\b""#);
    assert_eq!(one_value(Value::DateTime(86_400_000)).1, r#""1970-01-02T00:00:00Z""#);
    
}

#[test]
fn value_dispatch_writes_containers() {
    let mut arr = RawArrayBuf::new();
    arr.push(true);
    arr.push("x");
    assert_eq!(one_value(Value::Array(&arr)).1, r#"[true,"x"]"#);
    let doc = string_doc("y");
    assert_eq!(one_value(Value::Document(&doc)).1, r#"{"s":"y"}"#);
}

#[test]
fn value_dispatch_refuses_other_types_and_writes_nothing() {
    let (r, out) = one_value(Value::Other(bson::spec::ElementType::RegularExpression));
    match r {
        Err(TraverseError::UnexpectedBsonType(t)) => {
            assert_eq!(t, bson::spec::ElementType::RegularExpression)
        }
        _ => panic!("expected an unexpected type"),
    }
    assert_eq!(out, "");
}

#[test]
fn datetime_before_year_zero_is_datetime_error() {
    let mut doc = RawDocumentBuf::new();
    doc.append("t", bson::DateTime::from_millis(i64::MIN));
    assert!(matches!(compact(&doc), Err(TraverseError::BsonDatetimeError(_))));
    let (r, _) = one_value(Value::DateTime(-70_000_000_000_000));
    assert!(matches!(r, Err(TraverseError::BsonDatetimeError(_))));
}

#[test]
fn datetime_range_bounds() {
    assert_eq!(one_value(Value::DateTime(253_402_300_799_999)).1, r#""9999-12-31T23:59:59.999Z""#);
    assert_eq!(one_value(Value::DateTime(-62_167_219_200_000)).1, r#""0000-01-01T00:00:00Z""#);
    let (r, out) = one_value(Value::DateTime(253_402_300_800_000));
    assert!(matches!(r, Err(TraverseError::BsonDatetimeError(_))));
    assert_eq!(out, "");
    let (r, out) = one_value(Value::DateTime(-62_167_219_200_001));
    assert!(matches!(r, Err(TraverseError::BsonDatetimeError(_))));
    assert_eq!(out, "");
}

#[test]
fn array_keeps_element_order() {
    let mut arr = RawArrayBuf::new();
    arr.push(1i32);
    arr.push("x");
    arr.push(true);
    assert_eq!(one_value(Value::Array(&arr)).1, r#"[1,"x",true]"#);
    let mut inner = RawArrayBuf::new();
    inner.push(2i32);
    let mut b = RawArrayBuf::new();
    b.push(1i32);
    b.push(inner);
    let mut d = RawDocumentBuf::new();
    d.append("b", b);
    let mut outer = RawArrayBuf::new();
    outer.push(d);
    assert_eq!(one_value(Value::Array(&outer)).1, r#"[{"b":[1,[2]]}]"#);
    assert_eq!(one_value(Value::Array(&RawArrayBuf::new())).1, "[]");
}

#[test]
fn malformed_element_stops_before_its_key() {
    // {"a": 1, then an element with the unknown type tag 0x7e}
    let bytes: Vec<u8> = vec![
        19, 0, 0, 0, 0x10, b'a', 0, 1, 0, 0, 0, 0x7e, b'b', 0, 0, 0, 0, 0, 0,
    ];
    let doc = bson::RawDocument::from_bytes(&bytes).unwrap();
    let mut w = JsonWriter::new(serde_json::ser::CompactFormatter, Vec::new());
    assert!(matches!(traverse_document(doc, &mut w), Err(TraverseError::BsonRawError(_))));
    assert_eq!(String::from_utf8(w.writer).unwrap(), r#"{"a":1"#);
}

#[test]
fn object_id_field_cuts_output_before_its_value() {
    let mut doc = RawDocumentBuf::new();
    doc.append("a", 1i32);
    doc.append("b", bson::oid::ObjectId::from_bytes([0u8; 12]));
    let mut w = JsonWriter::new(serde_json::ser::CompactFormatter, Vec::new());
    match traverse_document(&doc, &mut w) {
        Err(TraverseError::UnexpectedBsonType(t)) => assert_eq!(t, bson::spec::ElementType::ObjectId),
        _ => panic!("expected an unexpected type"),
    }
    assert_eq!(String::from_utf8(w.writer).unwrap(), r#"{"a":1,"b":"#);
}

#[test]
fn binary_at_depth_three_cuts_output() {
    let mut inner = RawDocumentBuf::new();
    inner.append(
        "y",
        bson::Binary { subtype: bson::spec::BinarySubtype::Generic, bytes: vec![1] },
    );
    let mut arr = RawArrayBuf::new();
    arr.push(inner);
    let mut doc = RawDocumentBuf::new();
    doc.append("x", arr);
    let mut w = JsonWriter::new(serde_json::ser::CompactFormatter, Vec::new());
    match traverse_document(&doc, &mut w) {
        Err(TraverseError::UnexpectedBsonType(t)) => assert_eq!(t, bson::spec::ElementType::Binary),
        _ => panic!("expected an unexpected type"),
    }
    assert_eq!(String::from_utf8(w.writer).unwrap(), r#"{"x":[{"y":"#);
}

#[test]
fn invalid_utf8_string_writes_only_the_opening_brace() {
    let bytes: Vec<u8> = vec![14, 0, 0, 0, 0x02, 0x61, 0, 2, 0, 0, 0, 0xFF, 0, 0];
    let doc = bson::RawDocument::from_bytes(&bytes).unwrap();
    let mut w = JsonWriter::new(serde_json::ser::CompactFormatter, Vec::new());
    assert!(matches!(traverse_document(doc, &mut w), Err(TraverseError::BsonRawError(_))));
    assert_eq!(String::from_utf8(w.writer).unwrap(), "{");
}

#[test]
fn each_plain_run_is_one_fragment() {
    assert_eq!(
        plan_string("a\"b\"ab"),
        vec![
            StringPiece::Fragment { start: 0, end: 1 },
            StringPiece::Escape(EscapeCode::Quote),
            StringPiece::Fragment { start: 2, end: 3 },
            StringPiece::Escape(EscapeCode::Quote),
            StringPiece::Fragment { start: 4, end: 6 },
        ]
    );
}
