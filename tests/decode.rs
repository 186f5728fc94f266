use nrbf_rs::projection::{
    array_lengths, as_bool, as_elements, as_f64_bits, as_i32, as_string, as_u8,
};
use nrbf_rs::schema::{PrimitiveType, RecordType};
use nrbf_rs::{parse_nrbf, DecodeError, DecoderState, Value};

fn i32le(n: i32) -> Vec<u8> {
    n.to_le_bytes().to_vec()
}

fn lps(s: &str) -> Vec<u8> {
    assert!(s.len() < 128);
    let mut out = vec![s.len() as u8];
    out.extend_from_slice(s.as_bytes());
    out
}

fn header(root: i32, major: i32, minor: i32) -> Vec<u8> {
    let mut out = vec![0u8];
    out.extend(i32le(root));
    out.extend(i32le(0));
    out.extend(i32le(major));
    out.extend(i32le(minor));
    out
}

fn object_string(id: i32, text: &str) -> Vec<u8> {
    let mut out = vec![6u8];
    out.extend(i32le(id));
    out.extend(lps(text));
    out
}

fn member_reference(id: i32) -> Vec<u8> {
    let mut out = vec![9u8];
    out.extend(i32le(id));
    out
}

/// A class record whose fields are all records of their own.
fn class_with_members(id: i32, name: &str, fields: &[&str]) -> Vec<u8> {
    let mut out = vec![3u8];
    out.extend(i32le(id));
    out.extend(lps(name));
    out.extend(i32le(fields.len() as i32));
    for f in fields {
        out.extend(lps(f));
    }
    out.extend(i32le(2));
    out
}

/// A class record with typed fields: (name, binary type, additional info bytes).
fn class_with_types(id: i32, name: &str, fields: &[(&str, u8, Vec<u8>)]) -> Vec<u8> {
    let mut out = vec![5u8];
    out.extend(i32le(id));
    out.extend(lps(name));
    out.extend(i32le(fields.len() as i32));
    for f in fields {
        out.extend(lps(f.0));
    }
    for f in fields {
        out.push(f.1);
    }
    for f in fields {
        out.extend(f.2.iter().copied());
    }
    out.extend(i32le(2));
    out
}

fn s(text: &str) -> String {
    text.to_string()
}

fn point_stream() -> Vec<u8> {
    let mut b = header(1, 1, 0);
    b.extend(class_with_types(1, "Point", &[("X", 0, vec![8]), ("Y", 0, vec![8])]));
    b.extend(i32le(3));
    b.extend(i32le(4));
    b.push(11);
    b
}

#[test]
fn point_object_end_to_end() {
    let root = parse_nrbf(point_stream()).unwrap();
    assert_eq!(
        root,
        Value::Object(s("Point"), vec![(s("X"), Value::I32(3)), (s("Y"), Value::I32(4))])
    );
}

#[test]
fn decoding_twice_gives_equal_trees() {
    let first = parse_nrbf(point_stream());
    let second = parse_nrbf(point_stream());
    assert_eq!(first, second);
    assert!(first.is_ok());
}

#[test]
fn shared_string_resolves_in_both_fields() {
    let mut b = header(1, 1, 0);
    b.extend(class_with_types(1, "Pair", &[("a", 1, vec![]), ("b", 1, vec![])]));
    b.extend(object_string(2, "hi"));
    b.extend(member_reference(2));
    b.push(11);
    let root = parse_nrbf(b).unwrap();
    assert_eq!(
        root,
        Value::Object(
            s("Pair"),
            vec![(s("a"), Value::String(s("hi"))), (s("b"), Value::String(s("hi")))]
        )
    );
}

#[test]
fn single_primitive_array() {
    let mut b = header(3, 1, 0);
    b.push(15);
    b.extend(i32le(3));
    b.extend(i32le(3));
    b.push(8);
    for v in [1, 2, 3] {
        b.extend(i32le(v));
    }
    b.push(11);
    let root = parse_nrbf(b).unwrap();
    assert_eq!(
        root,
        Value::Array(vec![3], vec![0], vec![Value::I32(1), Value::I32(2), Value::I32(3)])
    );
}

fn three_field_stream(nulls: &[u8]) -> Vec<u8> {
    let mut b = header(1, 1, 0);
    b.extend(class_with_members(1, "T", &["a", "b", "c"]));
    b.extend_from_slice(nulls);
    b.extend(object_string(4, "z"));
    b.push(11);
    b
}

#[test]
fn null_run_equals_single_nulls() {
    let run = parse_nrbf(three_field_stream(&[13, 2])).unwrap();
    let singles = parse_nrbf(three_field_stream(&[10, 10])).unwrap();
    let mut wide = vec![14u8];
    wide.extend(i32le(2));
    let wide_run = parse_nrbf(three_field_stream(&wide)).unwrap();
    let expected = Value::Object(
        s("T"),
        vec![(s("a"), Value::Null), (s("b"), Value::Null), (s("c"), Value::String(s("z")))],
    );
    assert_eq!(run, expected);
    assert_eq!(singles, expected);
    assert_eq!(wide_run, expected);
}

#[test]
fn forward_reference_resolves_like_backward() {
    let mut forward = header(1, 1, 0);
    forward.extend(class_with_members(1, "A", &["f"]));
    forward.extend(member_reference(5));
    forward.extend(object_string(5, "later"));
    forward.push(11);

    let mut backward = header(1, 1, 0);
    backward.extend(object_string(5, "later"));
    backward.extend(class_with_members(1, "A", &["f"]));
    backward.extend(member_reference(5));
    backward.push(11);

    let expected = Value::Object(s("A"), vec![(s("f"), Value::String(s("later")))]);
    assert_eq!(parse_nrbf(forward).unwrap(), expected);
    assert_eq!(parse_nrbf(backward).unwrap(), expected);
}

#[test]
fn unknown_record_tag_aborts() {
    assert_eq!(parse_nrbf(vec![30, 0, 0]), Err(DecodeError::UnknownRecordType(30)));
    let mut b = header(1, 1, 0);
    b.push(19);
    assert_eq!(parse_nrbf(b), Err(DecodeError::UnknownRecordType(19)));
}

#[test]
fn wrong_versions_abort() {
    assert_eq!(parse_nrbf(header(1, 2, 0)), Err(DecodeError::WrongMajorVersion(2)));
    assert_eq!(parse_nrbf(header(1, 1, 3)), Err(DecodeError::WrongMinorVersion(3)));
}

#[test]
fn unknown_class_id_aborts() {
    let mut b = header(2, 1, 0);
    b.push(1);
    b.extend(i32le(2));
    b.extend(i32le(7));
    b.push(11);
    assert_eq!(parse_nrbf(b), Err(DecodeError::UnknownClass(7)));
}

#[test]
fn class_with_id_reuses_schema() {
    let mut b = header(1, 1, 0);
    b.extend(class_with_types(1, "Pair", &[("l", 1, vec![]), ("r", 1, vec![])]));
    b.extend(object_string(2, "x"));
    b.push(1);
    b.extend(i32le(3));
    b.extend(i32le(1));
    b.extend(object_string(4, "y"));
    b.push(10);
    b.push(11);
    let root = parse_nrbf(b).unwrap();
    let inner = Value::Object(s("Pair"), vec![(s("l"), Value::String(s("y"))), (s("r"), Value::Null)]);
    assert_eq!(root, Value::Object(s("Pair"), vec![(s("l"), Value::String(s("x"))), (s("r"), inner)]));
}

#[test]
fn rectangular_array_has_product_of_lengths() {
    let mut b = header(1, 1, 0);
    b.push(7);
    b.extend(i32le(1));
    b.push(2);
    b.extend(i32le(2));
    b.extend(i32le(2));
    b.extend(i32le(3));
    b.push(1);
    b.extend([13, 6]);
    b.push(11);
    let root = parse_nrbf(b).unwrap();
    let nulls = (0..6).map(|_| Value::Null).collect::<Vec<_>>();
    assert_eq!(root, Value::Array(vec![2, 3], vec![0, 0], nulls));
}

#[test]
fn offset_array_reads_lower_bounds() {
    let mut b = header(1, 1, 0);
    b.push(7);
    b.extend(i32le(1));
    b.push(3);
    b.extend(i32le(1));
    b.extend(i32le(2));
    b.extend(i32le(5));
    b.push(7);
    b.push(8);
    b.extend(object_string(2, "p"));
    b.push(10);
    b.push(11);
    let root = parse_nrbf(b).unwrap();
    assert_eq!(root, Value::Array(vec![2], vec![5], vec![Value::String(s("p")), Value::Null]));
}

#[test]
fn first_write_wins_for_an_id() {
    let mut b = header(1, 1, 0);
    b.extend(class_with_types(1, "Pair", &[("a", 1, vec![]), ("b", 1, vec![])]));
    b.extend(object_string(2, "first"));
    b.extend(object_string(2, "second"));
    b.push(11);
    let root = parse_nrbf(b).unwrap();
    assert_eq!(
        root,
        Value::Object(
            s("Pair"),
            vec![(s("a"), Value::String(s("first"))), (s("b"), Value::String(s("first")))]
        )
    );
}

#[test]
fn scalar_kinds_decode_with_their_widths() {
    let mut b = header(1, 1, 0);
    b.extend(class_with_types(
        1,
        "S",
        &[
            ("t", 0, vec![1]),
            ("u", 0, vec![2]),
            ("v", 0, vec![7]),
            ("w", 0, vec![14]),
            ("x", 0, vec![11]),
            ("y", 0, vec![10]),
            ("z", 0, vec![18]),
        ],
    ));
    b.push(2);
    b.push(200);
    b.extend([0xfe, 0xff]);
    b.extend([0xff, 0xff]);
    b.extend(1.5f32.to_bits().to_le_bytes());
    b.push(0x80);
    b.extend(lps("ok"));
    b.push(11);
    let root = parse_nrbf(b).unwrap();
    assert_eq!(
        root,
        Value::Object(
            s("S"),
            vec![
                (s("t"), Value::Bool(true)),
                (s("u"), Value::U8(200)),
                (s("v"), Value::I32(-2)),
                (s("w"), Value::U32(0xffff)),
                (s("x"), Value::F32(1.5f32.to_bits())),
                (s("y"), Value::I8(-128)),
                (s("z"), Value::String(s("ok"))),
            ]
        )
    );
}

#[test]
fn unsupported_primitive_aborts() {
    let mut b = header(1, 1, 0);
    b.extend(class_with_types(1, "C", &[("c", 0, vec![3])]));
    b.extend([0, 0]);
    assert_eq!(parse_nrbf(b), Err(DecodeError::UnsupportedPrimitive(PrimitiveType::Char)));
}

#[test]
fn unsupported_record_aborts() {
    let mut b = header(1, 1, 0);
    b.push(21);
    assert_eq!(parse_nrbf(b), Err(DecodeError::UnsupportedRecord(RecordType::MethodCall)));
}

#[test]
fn unknown_sub_tags_abort() {
    let mut b = header(1, 1, 0);
    b.extend(class_with_types(1, "C", &[("c", 9, vec![])]));
    assert_eq!(parse_nrbf(b), Err(DecodeError::UnknownBinaryType(9)));
    let mut b = header(1, 1, 0);
    b.extend(class_with_types(1, "C", &[("c", 0, vec![4])]));
    assert_eq!(parse_nrbf(b), Err(DecodeError::UnknownPrimitiveType(4)));
    let mut b = header(1, 1, 0);
    b.push(7);
    b.extend(i32le(1));
    b.push(6);
    assert_eq!(parse_nrbf(b), Err(DecodeError::UnknownArrayType(6)));
}

#[test]
fn field_without_decoder_aborts() {
    let mut b = header(1, 1, 0);
    b.extend(class_with_types(1, "C", &[("c", 5, vec![])]));
    b.push(10);
    assert_eq!(parse_nrbf(b), Err(DecodeError::NoParser));
}

#[test]
fn negative_length_aborts() {
    let mut b = header(1, 1, 0);
    b.push(15);
    b.extend(i32le(1));
    b.extend(i32le(-1));
    b.push(8);
    assert_eq!(parse_nrbf(b), Err(DecodeError::NegativeLength(-1)));
}

#[test]
fn huge_array_is_refused() {
    let mut b = header(1, 1, 0);
    b.push(7);
    b.extend(i32le(1));
    b.push(2);
    b.extend(i32le(3));
    for _ in 0..3 {
        b.extend(i32le(i32::MAX));
    }
    b.push(1);
    assert_eq!(parse_nrbf(b), Err(DecodeError::ArrayTooLarge));
}

#[test]
fn reference_cycle_is_refused() {
    let mut b = header(1, 1, 0);
    b.extend(class_with_members(1, "Loop", &["me"]));
    b.extend(member_reference(1));
    b.push(11);
    assert_eq!(parse_nrbf(b), Err(DecodeError::ReferenceCycle(1)));
}

#[test]
fn value_after_root_is_refused() {
    let mut b = header(2, 1, 0);
    b.extend(object_string(2, "x"));
    b.push(10);
    assert_eq!(parse_nrbf(b), Err(DecodeError::MissingEnd));
}

#[test]
fn truncated_stream_aborts() {
    let mut b = point_stream();
    b.truncate(b.len() - 3);
    assert_eq!(parse_nrbf(b), Err(DecodeError::UnexpectedEnd));
}

#[test]
fn missing_reference_runs_out_of_stream() {
    let mut b = header(9, 1, 0);
    b.push(11);
    assert_eq!(parse_nrbf(b), Err(DecodeError::UnexpectedEnd));
}

#[test]
fn projections_match_only_their_variant() {
    assert_eq!(as_i32(&Value::I32(7)), Some(7));
    assert_eq!(as_i32(&Value::U32(7)), None);
    assert_eq!(as_bool(&Value::Bool(false)), Some(false));
    assert_eq!(as_bool(&Value::Null), None);
    assert_eq!(as_u8(&Value::U8(9)), Some(9));
    assert_eq!(as_u8(&Value::Byte(9)), None);
    assert_eq!(as_string(&Value::String(s("hi"))), Some(s("hi")));
    assert_eq!(as_string(&Value::I32(1)), None);
    assert_eq!(as_f64_bits(&Value::F64(2.5f64.to_bits())).map(f64::from_bits), Some(2.5));
    let arr = Value::Array(vec![2], vec![0], vec![Value::I32(1), Value::I32(2)]);
    assert_eq!(as_elements(&arr), Some(vec![Value::I32(1), Value::I32(2)]));
    assert_eq!(array_lengths(&arr), Some(vec![2]));
    assert_eq!(as_elements(&Value::Null), None);
}

#[test]
fn deep_copy_is_equal() {
    let v = Value::Object(
        s("O"),
        vec![(s("a"), Value::Array(vec![1], vec![0], vec![Value::String(s("q"))])), (s("b"), Value::Reference(3))],
    );
    assert_eq!(v.deep_copy(), v);
}

#[test]
fn negative_rank_aborts() {
    let mut b = header(1, 1, 0);
    b.push(7);
    b.extend(i32le(1));
    b.push(0);
    b.extend(i32le(-2));
    assert_eq!(parse_nrbf(b), Err(DecodeError::NegativeLength(-2)));
}

#[test]
fn session_steps_one_record_at_a_time() {
    let mut b = header(1, 1, 0);
    b.extend(object_string(1, "r"));
    b.push(11);
    let mut d = DecoderState::new(b);
    assert_eq!(d.next_value_record(), Ok(Value::Bottom));
    assert_eq!(d.next_value_record(), Ok(Value::Reference(1)));
    assert_eq!(d.resolve_references(&Value::Reference(1), 10), Ok(Value::String(s("r"))));
    assert_eq!(d.next_value_record(), Ok(Value::Bottom));
    assert_eq!(d.next_value_record(), Err(DecodeError::UnexpectedEnd));
}

fn library(id: i32, name: &str) -> Vec<u8> {
    let mut out = vec![12u8];
    out.extend(i32le(id));
    out.extend(lps(name));
    out
}

#[test]
fn control_record_as_a_member_is_refused() {
    let mut b = header(1, 1, 0);
    b.extend(class_with_members(1, "Holder", &["inner"]));
    b.extend(library(2, "Lib"));
    b.push(11);
    assert_eq!(parse_nrbf(b), Err(DecodeError::MisplacedControlRecord));
}

#[test]
fn member_value_is_exactly_the_next_record() {
    let mut b = header(1, 1, 0);
    b.extend(class_with_members(1, "Holder", &["inner"]));
    b.extend(library(2, "Lib"));
    b.push(11);
    let mut d = DecoderState::new(b);
    assert_eq!(d.next_value_record(), Ok(Value::Bottom));
    assert_eq!(d.next_value_record(), Ok(Value::Reference(1)));
    let held = d.resolve_references(&Value::Reference(1), 50);
    assert_eq!(held, Ok(Value::Object(s("Holder"), vec![(s("inner"), Value::Bottom)])));
}

#[test]
fn resolving_passes_scalars_and_bottom_through() {
    let mut d = DecoderState::new(vec![]);
    assert_eq!(d.resolve_references(&Value::Bottom, 3), Ok(Value::Bottom));
    assert_eq!(d.resolve_references(&Value::I64(4), 3), Ok(Value::I64(4)));
    assert_eq!(d.resolve_references(&Value::Null, 0), Ok(Value::Null));
}

#[test]
fn duplicate_field_names_are_all_kept() {
    let mut b = header(1, 1, 0);
    b.extend(class_with_types(1, "D", &[("x", 0, vec![8]), ("x", 0, vec![8])]));
    b.extend(i32le(1));
    b.extend(i32le(2));
    b.push(11);
    assert_eq!(
        parse_nrbf(b).unwrap(),
        Value::Object(s("D"), vec![(s("x"), Value::I32(1)), (s("x"), Value::I32(2))])
    );
}

#[test]
fn negative_lower_bound_is_kept() {
    let mut b = header(1, 1, 0);
    b.push(7);
    b.extend(i32le(1));
    b.push(3);
    b.extend(i32le(1));
    b.extend(i32le(1));
    b.extend(i32le(-1));
    b.push(1);
    b.push(10);
    b.push(11);
    let root = parse_nrbf(b).unwrap();
    assert_eq!(root, Value::Array(vec![1], vec![(-1i32) as usize], vec![Value::Null]));
}

#[test]
fn clone_is_equal() {
    let v = Value::Array(vec![1], vec![0], vec![Value::Object(s("C"), vec![(s("x"), Value::I64(-5))])]);
    assert_eq!(v.clone(), v);
}
