use backup_util::hook::EditStep;
use backup_util::hook::Message;
use backup_util::hook::MessageBuilder;
use backup_util::hook::SendOutcome;
use backup_util::hook::SendStep;
use backup_util::hook::Webhook;
use backup_util::hook::handle_edit_outcome;
use backup_util::hook::handle_send_outcome;
use backup_util::hook::prepare_send;
use backup_util::text::parse_u64;

/// A channel stub that fails transport exactly `failures` times, then
/// answers with a well-formed delivery response.
struct FlakyChannel {
    failures: usize,
    calls: usize,
}

impl FlakyChannel {
    fn attempt(&mut self, _body: &[u8]) -> SendOutcome {
        self.calls += 1;
        if self.calls <= self.failures {
            SendOutcome::TransportFailure
        } else {
            SendOutcome::Response("{\"id\":\"123456789\"}".to_string())
        }
    }
}

#[test]
fn send_succeeds_after_n_transport_retries() {
    for n in [0usize, 1, 3, 7] {
        let message = MessageBuilder::new().content("hi".to_string()).0;
        let prepared = prepare_send(&message).unwrap();
        let mut channel = FlakyChannel { failures: n, calls: 0 };
        let mut sleeps: Vec<u64> = Vec::new();
        let id = loop {
            let outcome = channel.attempt(&prepared.body);
            match handle_send_outcome(&outcome) {
                SendStep::RetryTransport { delay_secs } => sleeps.push(delay_secs),
                SendStep::RetryProtocol { .. } => panic!("the stub never answers malformed"),
                SendStep::Delivered { id } => break id,
            }
        };
        assert_eq!(id, 123456789);
        assert_eq!(channel.calls, n + 1, "send succeeds after exactly n retries");
        assert_eq!(sleeps, vec![60u64; n], "one fixed sleep between attempts");
    }
}

#[test]
fn malformed_responses_retry_the_whole_send() {
    let cases = [
        "",
        "not json",
        "[1,2,3]",
        "{\"id\":123}",
        "{\"other\":\"1\"}",
        "{\"id\":\"\"}",
        "{\"id\":\"zero?\"}",
        "{\"id\":\"12x\"}",
        "{\"id\":\"0\"}",
        "{\"id\":\"99999999999999999999999\"}",
    ];
    for body in cases {
        match handle_send_outcome(&SendOutcome::Response(body.to_string())) {
            SendStep::RetryProtocol { delay_secs } => assert_eq!(delay_secs, 300),
            _ => panic!("a malformed response must retry the whole send: {body}"),
        }
    }
}

#[test]
fn oversized_responses_retry_without_being_parsed() {
    // Deeply nested JSON would otherwise drive the parser's recursion; a
    // body over the cap is refused on length alone.
    let deep = "[".repeat(200_000);
    match handle_send_outcome(&SendOutcome::Response(deep)) {
        SendStep::RetryProtocol { delay_secs } => assert_eq!(delay_secs, 300),
        _ => panic!("an oversized response must retry the whole send"),
    }
    let long_id = format!("{{\"id\":\"1{}\"}}", "2".repeat(8192));
    match handle_send_outcome(&SendOutcome::Response(long_id)) {
        SendStep::RetryProtocol { delay_secs } => assert_eq!(delay_secs, 300),
        _ => panic!("an oversized response must retry the whole send"),
    }
}

#[test]
fn well_formed_response_is_delivered() {
    match handle_send_outcome(&SendOutcome::Response(" { \"id\" : \"42\" } ".to_string())) {
        SendStep::Delivered { id } => assert_eq!(id, 42),
        _ => panic!("a well-formed response must deliver"),
    }
}

#[test]
fn transport_failure_retries_after_a_minute() {
    match handle_send_outcome(&SendOutcome::TransportFailure) {
        SendStep::RetryTransport { delay_secs } => assert_eq!(delay_secs, 60),
        _ => panic!("a transport failure must retry the same body"),
    }
}

#[test]
fn edit_without_id_fails_immediately_with_zero_network_calls() {
    let hook = Webhook::new("http://h".to_string());
    let mut message = Message { id: None, content: Some("old".to_string()), files: Vec::new() };
    let request = message.try_edit_request(&hook, "new");
    assert!(request.is_none(), "no identifier, no request, no network call");
    assert_eq!(message.content.as_deref(), Some("old"), "the message is left alone");
}

#[test]
fn edit_builds_the_patch_in_place() {
    let hook = Webhook::new("http://h/api".to_string());
    let mut message = Message { id: Some(908), content: None, files: Vec::new() };
    let request = message.edit_request(&hook, "All \"done\"\nnow");
    assert_eq!(request.url, "http://h/api/messages/908");
    assert_eq!(request.body, b"{\"content\":\"All \\\"done\\\"\\nnow\"}".to_vec());
    assert_eq!(message.content.as_deref(), Some("All \"done\"\nnow"));
    assert_eq!(message.id, Some(908));
}

#[test]
fn edit_outcome_policy() {
    assert!(matches!(handle_edit_outcome(true), EditStep::Done));
    match handle_edit_outcome(false) {
        EditStep::Retry { delay_secs } => assert_eq!(delay_secs, 10),
        EditStep::Done => panic!("a failed edit must retry"),
    }
}

#[test]
fn webhook_urls() {
    let hook = Webhook::new("https://x.example/api/webhooks/1/t".to_string());
    assert_eq!(hook.url(), "https://x.example/api/webhooks/1/t");
    assert_eq!(hook.post_url(), "https://x.example/api/webhooks/1/t?wait=true");
    assert_eq!(hook.message_url(55), "https://x.example/api/webhooks/1/t/messages/55");
}

#[test]
fn parse_u64_accepts_digits_only() {
    assert_eq!(parse_u64("0"), Some(0));
    assert_eq!(parse_u64("123456789"), Some(123456789));
    assert_eq!(parse_u64("18446744073709551615"), Some(u64::MAX));
    assert_eq!(parse_u64("18446744073709551616"), None);
    assert_eq!(parse_u64(""), None);
    assert_eq!(parse_u64("+1"), None);
    assert_eq!(parse_u64("12a"), None);
    assert_eq!(parse_u64("-5"), None);
}
