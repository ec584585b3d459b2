use checkpoint_tailer::queries::{discovery_query, forward_page_query};
use checkpoint_tailer::replay::{RecordingSink, ScriptedHttp};
use checkpoint_tailer::tailer::QueryManager;
use checkpoint_tailer::transaction::Transaction;
use checkpoint_tailer::{CHECKPOINTS_TO_READ, HTTP_RETRY_LIMIT};

fn discovery_response(start_cursor: &str, digest: &str) -> String {
    format!(
        "{{\"data\":{{\"checkpoints\":{{\"pageInfo\":{{\"startCursor\":\"{}\"}},\"nodes\":[{{\"digest\":\"{}\",\"timestamp\":\"t\"}}]}}}}}}",
        start_cursor, digest
    )
}

fn page_response(end_cursor: &str, nodes: &[(&str, &str)]) -> String {
    let mut body = format!(
        "{{\"data\":{{\"checkpoints\":{{\"pageInfo\":{{\"hasNextPage\":true,\"endCursor\":\"{}\"}},\"nodes\":[",
        end_cursor
    );
    for (i, (address, amount)) in nodes.iter().enumerate() {
        if i > 0 {
            body.push(',');
        }
        body.push_str(&format!(
            "{{\"owner\":{{\"address\":\"{}\"}},\"amount\":\"{}\"}}",
            address, amount
        ));
    }
    body.push_str("]}}}");
    body
}

fn tx(address: &str, amount: i64) -> Transaction {
    Transaction { address: String::from(address), amount }
}

#[test]
fn s1_happy_path_one_page() {
    let manager = QueryManager {};
    let mut http = ScriptedHttp::new(vec![Some(discovery_response("A", "D1"))]);
    let anchor = manager.query_latest_checkpoint(&mut http).unwrap();
    assert_eq!(anchor.0, "A");
    assert_eq!(anchor.1, "D1");
    assert_eq!(http.calls()[0].0, discovery_query());

    let mut http = ScriptedHttp::new(vec![Some(page_response(
        "B",
        &[("0xa", "100"), ("0xb", "-50")],
    ))]);
    let mut sink = RecordingSink::new();
    let next = manager.query_checkpoints(String::from("A"), &mut sink, &mut http);
    assert_eq!(next, "B");
    assert_eq!(http.calls().len(), 1);
    assert_eq!(http.calls()[0].0, forward_page_query("A"));
    assert_eq!(sink.received(), &vec![vec![tx("0xa", 100), tx("0xb", -50)]]);
}

#[test]
fn s2_retry_then_succeed() {
    let manager = QueryManager {};
    let mut http = ScriptedHttp::new(vec![
        None,
        Some(page_response("B", &[("0xc", "7")])),
    ]);
    let mut sink = RecordingSink::new();
    let next = manager.query_checkpoints(String::from("A"), &mut sink, &mut http);
    assert_eq!(http.calls().len(), 2);
    assert_eq!(next, "B");
    assert_eq!(sink.received(), &vec![vec![tx("0xc", 7)]]);
}

#[test]
fn s3_retry_exhaustion_on_forward_page() {
    let manager = QueryManager {};
    let mut http = ScriptedHttp::new(vec![None, None, None, None, None]);
    let mut sink = RecordingSink::new();
    let next = manager.query_checkpoints(String::from("A"), &mut sink, &mut http);
    assert_eq!(http.calls().len(), HTTP_RETRY_LIMIT as usize);
    assert_eq!(next, "A");
    assert!(sink.received().is_empty());
    for call in http.calls() {
        assert_eq!(call.0, forward_page_query("A"));
    }
    // The next round re-queries with the same, unadvanced cursor.
    let mut http2 = ScriptedHttp::new(vec![Some(page_response("B", &[]))]);
    let next2 = manager.query_checkpoints(next, &mut sink, &mut http2);
    assert_eq!(http2.calls()[0].0, forward_page_query("A"));
    assert_eq!(next2, "B");
}

#[test]
fn s4_discovery_exhaustion_is_fatal() {
    let manager = QueryManager {};
    let mut http = ScriptedHttp::new(vec![None, None, None, None, None]);
    let mut sink = RecordingSink::new();
    let completed = manager.start(&mut sink, &mut http);
    assert!(!completed);
    assert_eq!(http.calls().len(), HTTP_RETRY_LIMIT as usize);
    for call in http.calls() {
        assert_eq!(call.0, discovery_query());
    }
    assert!(sink.received().is_empty());
}

#[test]
fn s5_empty_page_advances_the_cursor() {
    let manager = QueryManager {};
    let mut http = ScriptedHttp::new(vec![Some(page_response("Z", &[]))]);
    let mut sink = RecordingSink::new();
    let next = manager.query_checkpoints(String::from("A"), &mut sink, &mut http);
    assert_eq!(next, "Z");
    assert_eq!(sink.received(), &vec![Vec::<Transaction>::new()]);
}

#[test]
fn s6_negative_amount_is_signed() {
    let manager = QueryManager {};
    let body = page_response("B", &[("0xa", "-18446744073")]);
    let (_, txs) = manager.parse_checkpoint_query_for_transaction_info(&body).unwrap();
    assert_eq!(txs.len(), 1);
    assert_eq!(txs[0].amount, -18446744073);
}

#[test]
fn retry_attempt_count_is_first_success() {
    let manager = QueryManager {};
    let mut http = ScriptedHttp::new(vec![
        None,
        None,
        Some(page_response("B", &[])),
        Some(page_response("C", &[])),
    ]);
    let mut sink = RecordingSink::new();
    let next = manager.query_checkpoints(String::from("A"), &mut sink, &mut http);
    assert_eq!(http.calls().len(), 3);
    assert_eq!(next, "B");
}

#[test]
fn tailing_loop_follows_the_cursor_chain() {
    let manager = QueryManager {};
    let mut responses = vec![Some(discovery_response("c0", "D"))];
    for i in 0..CHECKPOINTS_TO_READ {
        let end = format!("c{}", i + 1);
        let addr = format!("0x{}", i);
        responses.push(Some(page_response(&end, &[(&addr, "1")])));
    }
    let mut http = ScriptedHttp::new(responses);
    let mut sink = RecordingSink::new();
    let completed = manager.start(&mut sink, &mut http);
    assert!(completed);
    // One discovery call, then one successful call per page, each at the
    // cursor the page before it produced: no repeats and no skips.
    assert_eq!(http.calls().len(), 1 + CHECKPOINTS_TO_READ as usize);
    assert_eq!(http.calls()[0].0, discovery_query());
    for i in 0..CHECKPOINTS_TO_READ {
        let expected_cursor = format!("c{}", i);
        assert_eq!(
            http.calls()[1 + i as usize].0,
            forward_page_query(&expected_cursor)
        );
    }
    assert_eq!(sink.received().len(), CHECKPOINTS_TO_READ as usize);
    for i in 0..CHECKPOINTS_TO_READ {
        assert_eq!(sink.received()[i as usize], vec![tx(&format!("0x{}", i), 1)]);
    }
}

#[test]
fn iteration_bound_holds_under_total_failure() {
    let manager = QueryManager {};
    let responses = vec![Some(discovery_response("c0", "D"))];
    let mut http = ScriptedHttp::new(responses);
    let mut sink = RecordingSink::new();
    let completed = manager.start(&mut sink, &mut http);
    assert!(completed);
    // Every forward page exhausts its retries against the stale cursor.
    assert_eq!(
        http.calls().len(),
        1 + (HTTP_RETRY_LIMIT * CHECKPOINTS_TO_READ) as usize
    );
    assert!(sink.received().is_empty());
    for call in &http.calls()[1..] {
        assert_eq!(call.0, forward_page_query("c0"));
    }
}

#[test]
fn discovery_retries_until_a_good_response() {
    let manager = QueryManager {};
    let mut responses = vec![None, None, Some(discovery_response("c0", "D"))];
    // Every page reports endCursor "c1": the first round queries at "c0",
    // every later round at "c1".
    for _ in 0..CHECKPOINTS_TO_READ {
        responses.push(Some(page_response("c1", &[])));
    }
    let mut http = ScriptedHttp::new(responses);
    let mut sink = RecordingSink::new();
    let completed = manager.start(&mut sink, &mut http);
    assert!(completed);
    assert_eq!(http.calls().len(), 3 + CHECKPOINTS_TO_READ as usize);
    assert_eq!(http.calls()[2].0, discovery_query());
    assert_eq!(http.calls()[3].0, forward_page_query("c0"));
    assert_eq!(http.calls()[4].0, forward_page_query("c1"));
}

#[test]
fn discovery_is_idempotent_against_a_replay_fixture() {
    let manager = QueryManager {};
    let fixture = discovery_response("A", "D1");
    let mut http = ScriptedHttp::new(vec![Some(fixture.clone()), Some(fixture)]);
    let first = manager.query_latest_checkpoint(&mut http).unwrap();
    let second = manager.query_latest_checkpoint(&mut http).unwrap();
    assert_eq!(first.0, second.0);
}
