use canvas_downloader::request::{decide, ApiCall, Decision, NextStep, FORBIDDEN};

/// What came of an attempt that was answered with `status`.
fn answered(status: u16) -> Result<(u16, &'static str), &'static str> {
    Ok((status, "response"))
}

fn call(url: &str) -> ApiCall {
    ApiCall::start(url.to_string()).unwrap()
}

#[test]
fn a_request_begins_with_the_pairs_of_its_query() {
    let call = call("https://canvas.example/api/v1/x?include%5B%5D=email&q=a+b%26c&flag");
    assert_eq!(call.retry, 0);
    assert_eq!(
        call.url,
        "https://canvas.example/api/v1/x?include%5B%5D=email&q=a+b%26c&flag"
    );
    assert_eq!(
        call.query_pairs,
        vec![
            ("include[]".to_string(), "email".to_string()),
            ("q".to_string(), "a b&c".to_string()),
            ("flag".to_string(), "".to_string()),
        ]
    );
}

#[test]
fn an_address_without_a_query_has_no_pairs() {
    assert!(call("https://canvas.example/api/v1/x").query_pairs.is_empty());
}

#[test]
fn a_text_that_is_no_address_is_refused() {
    assert_eq!(
        ApiCall::start("api/v1/x".to_string()),
        Err("relative URL without a base".to_string())
    );
}

#[test]
fn the_wait_doubles() {
    assert_eq!(decide(0, FORBIDDEN), Decision::RetryWithin(1000));
    assert_eq!(decide(1, FORBIDDEN), Decision::RetryWithin(2000));
    assert_eq!(decide(2, FORBIDDEN), Decision::Return);
    assert_eq!(decide(0, 200), Decision::Return);
    assert_eq!(decide(1, 404), Decision::Return);
}

#[test]
fn the_first_response_that_is_not_forbidden_is_handed_out() {
    let mut call = call("https://canvas.example/");
    match call.receive(answered(403)) {
        NextStep::Retry { wait } => assert!(wait < 1000),
        other => panic!("{:?}", other),
    }
    assert_eq!(call.retry, 1);
    assert_eq!(call.receive(answered(500)), NextStep::Return("response"));
    assert_eq!(call.retry, 1);
}

#[test]
fn the_third_response_is_handed_out_in_any_case() {
    let mut call = call("https://canvas.example/");
    assert!(matches!(call.receive(answered(403)), NextStep::Retry { wait } if wait < 1000));
    assert!(matches!(call.receive(answered(403)), NextStep::Retry { wait } if wait < 2000));
    assert_eq!(call.receive(answered(403)), NextStep::Return("response"));
}

#[test]
fn waits_are_drawn_at_random() {
    let mut waits: Vec<u64> = Vec::new();
    for _ in 0..200 {
        if let NextStep::Retry { wait } = call("https://canvas.example/").receive(answered(403)) {
            assert!(wait < 1000);
            waits.push(wait);
        }
    }
    assert_eq!(waits.len(), 200);
    waits.sort();
    waits.dedup();
    assert!(waits.len() > 1);
}

#[test]
fn a_request_that_cannot_be_sent_is_not_sent_again() {
    let mut first = call("https://canvas.example/");
    let outcome: Result<(u16, &str), &str> = Err("no route");
    assert_eq!(first.receive(outcome), NextStep::Fail("no route"));
    assert_eq!(first.retry, 0);

    let mut second = call("https://canvas.example/");
    assert!(matches!(second.receive(answered(403)), NextStep::Retry { .. }));
    assert_eq!(second.receive(outcome), NextStep::Fail("no route"));
    assert_eq!(second.retry, 1);
}
