use checkpoint_tailer::numbers::parse_i64;
use checkpoint_tailer::queries::{discovery_query, forward_page_query};
use checkpoint_tailer::search::find_from;
use checkpoint_tailer::tailer::QueryManager;

#[test]
fn amount_parse_accepts_plain_values() {
    assert_eq!(parse_i64("0"), Some(0));
    assert_eq!(parse_i64("100"), Some(100));
    assert_eq!(parse_i64("-50"), Some(-50));
    assert_eq!(parse_i64("+7"), Some(7));
    assert_eq!(parse_i64("007"), Some(7));
    assert_eq!(parse_i64("-18446744073"), Some(-18446744073));
}

#[test]
fn amount_parse_covers_the_full_i64_range() {
    assert_eq!(parse_i64("9223372036854775807"), Some(i64::MAX));
    assert_eq!(parse_i64("-9223372036854775808"), Some(i64::MIN));
    assert_eq!(parse_i64("0009223372036854775807"), Some(i64::MAX));
}

#[test]
fn amount_parse_rejects_out_of_range_values() {
    assert_eq!(parse_i64("9223372036854775808"), None);
    assert_eq!(parse_i64("-9223372036854775809"), None);
    assert_eq!(parse_i64("99999999999999999999999999"), None);
    assert_eq!(parse_i64("-99999999999999999999999999"), None);
}

#[test]
fn amount_parse_rejects_non_numeric_values() {
    assert_eq!(parse_i64(""), None);
    assert_eq!(parse_i64("-"), None);
    assert_eq!(parse_i64("+"), None);
    assert_eq!(parse_i64("--5"), None);
    assert_eq!(parse_i64("12a"), None);
    assert_eq!(parse_i64(" 5"), None);
    assert_eq!(parse_i64("5 "), None);
    assert_eq!(parse_i64("1.5"), None);
}

#[test]
fn find_from_returns_the_first_occurrence() {
    assert_eq!(find_from("abcabc", 0, "bc"), Some(1));
    assert_eq!(find_from("abcabc", 2, "bc"), Some(4));
    assert_eq!(find_from("abcabc", 0, "zz"), None);
    assert_eq!(find_from("abcabc", 5, "bc"), None);
    assert_eq!(find_from("abc", 0, ""), Some(0));
}

#[test]
fn discovery_query_has_the_documented_body() {
    assert_eq!(
        discovery_query(),
        "{\"query\":\"query ($before: String) { checkpoints(last: 10, before: $before) { pageInfo { startCursor } nodes { digest timestamp } }}\"}"
    );
}

#[test]
fn forward_page_query_interpolates_the_cursor() {
    let q = forward_page_query("A");
    assert!(q.starts_with("{\"query\":\"query ($after: String) { checkpoints(first: 1, after: $after) {"));
    assert!(q.ends_with("\"variables\":{\"after\":\"A\"}}"));
}

#[test]
fn anchor_extraction_reads_start_cursor_and_digest() {
    let m = QueryManager {};
    let body = String::from(
        "{\"data\":{\"checkpoints\":{\"pageInfo\":{\"startCursor\":\"A\"},\"nodes\":[{\"digest\":\"D1\",\"timestamp\":\"t\"}]}}}",
    );
    assert_eq!(
        m.parse_start_checkpoint(&body),
        Some((String::from("A"), String::from("D1")))
    );
}

#[test]
fn anchor_extraction_fails_without_the_fields() {
    let m = QueryManager {};
    assert_eq!(m.parse_start_checkpoint(&String::from("{}")), None);
    let no_digest = String::from("{\"pageInfo\":{\"startCursor\":\"A\"}}");
    assert_eq!(m.parse_start_checkpoint(&no_digest), None);
}

#[test]
fn page_extraction_keeps_document_order() {
    let m = QueryManager {};
    let body = String::from(
        "{\"pageInfo\":{\"endCursor\":\"B\"},\"nodes\":[\
         {\"owner\":{\"address\":\"0xa\"},\"amount\":\"1\"},\
         {\"owner\":{\"address\":\"0xb\"},\"amount\":\"2\"},\
         {\"owner\":{\"address\":\"0xc\"},\"amount\":\"3\"}]}",
    );
    let (cursor, txs) = m.parse_checkpoint_query_for_transaction_info(&body).unwrap();
    assert_eq!(cursor, "B");
    let pairs: Vec<(String, i64)> = txs.iter().map(|t| (t.address.clone(), t.amount)).collect();
    assert_eq!(
        pairs,
        vec![
            (String::from("0xa"), 1),
            (String::from("0xb"), 2),
            (String::from("0xc"), 3),
        ]
    );
}

#[test]
fn page_extraction_fails_without_end_cursor() {
    let m = QueryManager {};
    let body = String::from("{\"nodes\":[{\"owner\":{\"address\":\"0xa\"},\"amount\":\"1\"}]}");
    assert_eq!(m.parse_checkpoint_query_for_transaction_info(&body), None);
}

#[test]
fn page_extraction_rejects_unparseable_amounts() {
    let m = QueryManager {};
    let body = String::from(
        "{\"pageInfo\":{\"endCursor\":\"B\"},\"nodes\":[{\"owner\":{\"address\":\"0xa\"},\"amount\":\"oops\"}]}",
    );
    assert_eq!(m.parse_checkpoint_query_for_transaction_info(&body), None);
}

#[test]
fn page_extraction_rejects_an_address_without_an_amount() {
    let m = QueryManager {};
    let body =
        String::from("{\"pageInfo\":{\"endCursor\":\"B\"},\"nodes\":[{\"owner\":{\"address\":\"0xa\"}}]}");
    assert_eq!(m.parse_checkpoint_query_for_transaction_info(&body), None);
}

#[test]
fn empty_page_extracts_no_records() {
    let m = QueryManager {};
    let body = String::from("{\"pageInfo\":{\"endCursor\":\"Z\"},\"nodes\":[]}");
    let (cursor, txs) = m.parse_checkpoint_query_for_transaction_info(&body).unwrap();
    assert_eq!(cursor, "Z");
    assert!(txs.is_empty());
}
