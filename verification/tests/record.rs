use elastic_importer::{dict_to_json, CsvIter};

fn float_forms(row: &[(String, String)]) -> Vec<Option<String>> {
    row.iter().map(|(_, v)| v.parse::<f64>().ok().map(|f| f.to_string())).collect()
}

fn encode(row: &[(String, String)]) -> String {
    dict_to_json(row, &float_forms(row))
}

fn pair(name: &str, value: &str) -> (String, String) {
    (name.to_string(), value.to_string())
}

#[test]
fn short_record_is_filled_with_empty_values() {
    let mut rows = CsvIter::from_reader("a,b,c\n1\n");
    assert_eq!(rows.next(), Some(vec![pair("a", "1"), pair("b", ""), pair("c", "")]));
    assert_eq!(rows.next(), None);
}

#[test]
fn long_record_loses_its_excess_fields() {
    let mut rows = CsvIter::from_reader("a,b\n1,2,3,4\n");
    assert_eq!(rows.next(), Some(vec![pair("a", "1"), pair("b", "2")]));
    assert_eq!(rows.next(), None);
}

#[test]
fn values_are_trimmed_and_names_are_not() {
    let mut rows = CsvIter::from_reader(" a ,b\n  x y \t, \n");
    assert_eq!(rows.next(), Some(vec![pair(" a ", "x y"), pair("b", "")]));
}

#[test]
fn header_alone_gives_no_rows() {
    let mut rows = CsvIter::from_reader("a,b\n");
    assert_eq!(rows.next(), None);
    let mut rows = CsvIter::from_reader("a,b");
    assert_eq!(rows.next(), None);
}

#[test]
fn empty_text_gives_no_columns_and_no_rows() {
    let mut rows = CsvIter::from_reader("");
    assert_eq!(rows.next(), None);
}

#[test]
fn blank_line_is_a_row_of_empty_values() {
    let mut rows = CsvIter::from_reader("a,b\n\n1,2\n");
    assert_eq!(rows.next(), Some(vec![pair("a", ""), pair("b", "")]));
    assert_eq!(rows.next(), Some(vec![pair("a", "1"), pair("b", "2")]));
    assert_eq!(rows.next(), None);
}

#[test]
fn quoted_values_are_trimmed_too() {
    let mut rows = CsvIter::from_reader("a\n\" x, y \"\n");
    assert_eq!(rows.next(), Some(vec![pair("a", "x, y")]));
}

#[test]
fn object_keeps_the_order_of_the_columns() {
    let row = vec![pair("zeta", "1"), pair("alpha", "x"), pair("mid", "")];
    assert_eq!(encode(&row), "{\"zeta\":1,\"alpha\":\"x\",\"mid\":null}");
}

#[test]
fn object_of_no_fields() {
    assert_eq!(encode(&[]), "{}");
}

#[test]
fn object_of_every_type() {
    let row = vec![
        pair("n", ""),
        pair("i", "-12"),
        pair("f", "0.50"),
        pair("b", "True"),
        pair("s", "a\"b"),
    ];
    assert_eq!(encode(&row), "{\"n\":null,\"i\":-12,\"f\":0.5,\"b\":true,\"s\":\"a\\\"b\"}");
}

#[test]
fn names_are_escaped() {
    let row = vec![pair("a\"b\n", "1")];
    assert_eq!(encode(&row), "{\"a\\\"b\\n\":1}");
}

#[test]
fn duplicate_names_are_both_written() {
    let row = vec![pair("k", "1"), pair("k", "2")];
    assert_eq!(encode(&row), "{\"k\":1,\"k\":2}");
}

#[test]
fn missing_float_readings_count_as_none() {
    let row = vec![pair("a", "1.5"), pair("b", "2.5")];
    assert_eq!(dict_to_json(&row, &[Some("1.5".to_string())]), "{\"a\":1.5,\"b\":\"2.5\"}");
    assert_eq!(dict_to_json(&row, &[]), "{\"a\":\"1.5\",\"b\":\"2.5\"}");
}

#[test]
fn encoding_twice_gives_the_same_text() {
    let row = vec![pair("id", "7"), pair("name", " Zoë \"Z\" "), pair("ratio", "1e-3")];
    let first = encode(&row);
    let second = encode(&row);
    assert_eq!(first.as_bytes(), second.as_bytes());
    assert_eq!(first, "{\"id\":7,\"name\":\" Zoë \\\"Z\\\" \",\"ratio\":0.001}");
}
