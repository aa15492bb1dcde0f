use pipeline_preview::literal::{parse_literal, Literal};
use pipeline_preview::model::{PreviewResponse, SchemaField};
use pipeline_preview::render::{render_integer, render_response, Batch, Column, ColumnData};

fn column(name: &str, data: ColumnData) -> Column {
    Column { name: name.to_string(), data }
}

fn strings(items: &[&str]) -> Vec<String> {
    items.iter().map(|s| s.to_string()).collect()
}

fn field(name: &str, data_type: &str) -> SchemaField {
    SchemaField { name: name.to_string(), data_type: data_type.to_string() }
}

#[test]
fn integer_and_text_columns_round_trip() {
    let batch = Batch::new(
        vec![
            column("id", ColumnData::Int64(vec![1, 2])),
            column("label", ColumnData::Utf8(strings(&["x", "y"]))),
        ],
        2,
    )
    .unwrap();
    let incoming = vec![field("id", "Int64"), field("label", "Utf8"), field("extra", "Float64")];
    let response = render_response(incoming.clone(), &vec![batch]);
    assert_eq!(
        response,
        PreviewResponse {
            incoming_schema: incoming,
            schema: vec![field("id", "Int64"), field("label", "Utf8")],
            data: vec![strings(&["1", "x"]), strings(&["2", "y"])],
        }
    );
}

#[test]
fn no_batches_give_an_empty_response() {
    let response = render_response(vec![field("a", "Utf8")], &vec![]);
    assert_eq!(
        response,
        PreviewResponse { incoming_schema: vec![], schema: vec![], data: vec![] }
    );
}

#[test]
fn every_supported_type_is_rendered() {
    let batch = Batch::new(
        vec![
            column("s", ColumnData::Utf8(strings(&["a"]))),
            column("f", ColumnData::Float32(strings(&["1.5"]))),
            column("d", ColumnData::Float64(strings(&["-0.25"]))),
            column("i", ColumnData::Int32(vec![-12])),
            column("l", ColumnData::Int64(vec![9_000_000_000])),
            column("t", ColumnData::Other("Timestamp(Nanosecond, None)".to_string())),
        ],
        1,
    )
    .unwrap();
    let response = render_response(vec![], &vec![batch]);
    assert_eq!(
        response.schema,
        vec![
            field("s", "Utf8"),
            field("f", "Float32"),
            field("d", "Float64"),
            field("i", "Int32"),
            field("l", "Int64"),
            field("t", "Timestamp(Nanosecond, None)"),
        ]
    );
    assert_eq!(
        response.data,
        vec![strings(&["a", "1.5", "-0.25", "-12", "9000000000", "<unsupported type>"])]
    );
}

#[test]
fn rows_of_all_batches_follow_each_other() {
    let first = Batch::new(vec![column("n", ColumnData::Int32(vec![1, 2]))], 2).unwrap();
    let empty = Batch::new(vec![column("n", ColumnData::Int32(vec![]))], 0).unwrap();
    let last = Batch::new(vec![column("n", ColumnData::Int32(vec![3]))], 1).unwrap();
    let response = render_response(vec![], &vec![first, empty, last]);
    assert_eq!(response.schema, vec![field("n", "Int32")]);
    assert_eq!(response.data, vec![strings(&["1"]), strings(&["2"]), strings(&["3"])]);
}

#[test]
fn batch_without_columns_has_empty_rows() {
    let batch = Batch::new(vec![], 2).unwrap();
    let response = render_response(vec![], &vec![batch]);
    assert_eq!(response.schema, vec![]);
    assert_eq!(response.data, vec![Vec::<String>::new(), Vec::<String>::new()]);
}

#[test]
fn batch_rejects_columns_of_another_length() {
    assert_eq!(Batch::new(vec![column("n", ColumnData::Int32(vec![1, 2]))], 3), None);
    assert_eq!(
        Batch::new(
            vec![column("a", ColumnData::Utf8(strings(&["x"]))), column("b", ColumnData::Int64(vec![]))],
            1
        ),
        None
    );
    assert!(Batch::new(vec![column("o", ColumnData::Other("Date32".to_string()))], 7).is_some());
}

#[test]
fn integers_are_written_in_decimal() {
    assert_eq!(render_integer(0), "0");
    assert_eq!(render_integer(7), "7");
    assert_eq!(render_integer(10), "10");
    assert_eq!(render_integer(-1), "-1");
    assert_eq!(render_integer(1234567890), "1234567890");
    assert_eq!(render_integer(i64::MAX), "9223372036854775807");
    assert_eq!(render_integer(i64::MIN), "-9223372036854775808");
}

#[test]
fn written_integers_read_back() {
    for value in [0, 1, -1, 9, 10, -10, 99, 100, 4096, -65535, i64::MAX, i64::MIN, i64::MAX - 1, i64::MIN + 1] {
        assert_eq!(render_integer(value), value.to_string());
        assert_eq!(parse_literal(&render_integer(value)), Literal::Int(value));
    }
}
