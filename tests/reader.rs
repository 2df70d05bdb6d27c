use sqs_reader::{
    disposal_config, forward_ack, full_record, parse_queue_size, plan_disposal, resolve_target,
    Action, CollectAction, CollectedMessage, Collector, CountMode, DeletePolicy, DisposalConfig,
    DisposalRun, Field, PrintMode, ReadError, ReceivedMessage, StopReason, LEASE_SECONDS,
};

fn delivery(id: &str, body: &str, handle: &str) -> ReceivedMessage {
    ReceivedMessage {
        message_id: Some(id.to_string()),
        body: Some(body.to_string()),
        receipt_handle: Some(handle.to_string()),
        md5_of_body: Some(format!("md5-{}", body)),
        attributes: vec![],
    }
}

/// Polls `c` against a queue that answers from `batches` in turn and is
/// empty afterwards; returns how many receives were made.
fn drive(c: &mut Collector, mut batches: Vec<Vec<ReceivedMessage>>, budget: usize) -> usize {
    let mut polls = 0;
    while let CollectAction::Receive { .. } = c.next_action() {
        if polls == budget {
            break;
        }
        polls += 1;
        let batch = if batches.is_empty() { vec![] } else { batches.remove(0) };
        c.record_receive(batch).unwrap();
    }
    polls
}

#[test]
fn resolve_fixed_ignores_size() {
    assert_eq!(resolve_target(CountMode::Fixed(5), false, Some(2)), Ok(5));
    assert_eq!(resolve_target(CountMode::Fixed(5), true, None), Ok(5));
    assert_eq!(resolve_target(CountMode::Fixed(0), false, None), Ok(0));
}

#[test]
fn resolve_all_takes_size() {
    assert_eq!(resolve_target(CountMode::All, false, Some(37)), Ok(37));
    assert_eq!(resolve_target(CountMode::All, true, Some(37)), Ok(37));
    assert_eq!(resolve_target(CountMode::All, true, None), Err(ReadError::SizeUnavailable));
}

#[test]
fn resolve_unspecified() {
    assert_eq!(resolve_target(CountMode::Unspecified, false, Some(0)), Ok(0));
    assert_eq!(resolve_target(CountMode::Unspecified, false, Some(9)), Ok(1));
    assert_eq!(resolve_target(CountMode::Unspecified, true, Some(0)), Ok(1));
    assert_eq!(resolve_target(CountMode::Unspecified, true, None), Ok(1));
    assert_eq!(resolve_target(CountMode::Unspecified, false, None), Err(ReadError::SizeUnavailable));
}

#[test]
fn queue_size_text() {
    assert_eq!(parse_queue_size("37"), Some(37));
    assert_eq!(parse_queue_size("0"), Some(0));
    assert_eq!(parse_queue_size("+5"), Some(5));
    assert_eq!(parse_queue_size("007"), Some(7));
    assert_eq!(parse_queue_size("4294967295"), Some(4294967295));
    assert_eq!(parse_queue_size("4294967296"), None);
    assert_eq!(parse_queue_size(""), None);
    assert_eq!(parse_queue_size("+"), None);
    assert_eq!(parse_queue_size("-1"), None);
    assert_eq!(parse_queue_size(" 1"), None);
    assert_eq!(parse_queue_size("12a"), None);
}

#[test]
fn redelivery_keeps_last_handle() {
    let mut c = Collector::new(5, true, true);
    for h in ["h1", "h2", "h3", "h4"] {
        c.record_receive(vec![delivery("a", "body", h)]).unwrap();
    }
    assert_eq!(c.collected_len(), 1);
    let msgs = c.into_messages();
    assert_eq!(msgs.len(), 1);
    assert_eq!(msgs[0].message_id, "a");
    assert_eq!(msgs[0].receipt_handle, "h4");
}

#[test]
fn duplicates_within_one_batch() {
    let mut c = Collector::new(5, true, false);
    c.record_receive(vec![delivery("a", "x", "h1"), delivery("b", "y", "h2"), delivery("a", "x", "h3")])
        .unwrap();
    assert_eq!(c.collected_len(), 2);
    let msgs = c.into_messages();
    let a = msgs.iter().find(|m| m.message_id == "a").unwrap();
    assert_eq!(a.receipt_handle, "h3");
}

#[test]
fn nonblocking_stops_within_target_plus_one() {
    let mut c = Collector::new(4, false, false);
    let batches = vec![vec![delivery("x", "1", "h")], vec![delivery("y", "2", "h")]];
    let polls = drive(&mut c, batches, 1000);
    assert!(polls <= 5);
    assert_eq!(polls, 3);
    assert_eq!(c.next_action(), CollectAction::Stop(StopReason::Starved));
    assert_eq!(c.collected_len(), 2);
}

#[test]
fn nonblocking_satisfied() {
    let mut c = Collector::new(2, false, false);
    let batches = vec![vec![delivery("x", "1", "h")], vec![delivery("y", "2", "h")], vec![delivery("z", "3", "h")]];
    let polls = drive(&mut c, batches, 1000);
    assert_eq!(polls, 2);
    assert!(c.is_finished());
    assert_eq!(c.next_action(), CollectAction::Stop(StopReason::Satisfied));
}

#[test]
fn blocking_keeps_polling_empty_queue() {
    let mut c = Collector::new(1, true, true);
    let polls = drive(&mut c, vec![], 500);
    assert_eq!(polls, 500);
    assert!(!c.is_finished());
    assert_eq!(c.next_action(), CollectAction::Receive { visibility_timeout: LEASE_SECONDS });
}

#[test]
fn zero_target_needs_no_poll() {
    let mut c = Collector::new(0, false, false);
    assert_eq!(drive(&mut c, vec![], 10), 0);
    assert_eq!(c.next_action(), CollectAction::Stop(StopReason::Satisfied));
}

#[test]
fn lease_only_when_draining() {
    assert_eq!(LEASE_SECONDS, 60);
    assert_eq!(Collector::new(1, false, true).next_action(), CollectAction::Receive { visibility_timeout: 60 });
    assert_eq!(Collector::new(1, false, false).next_action(), CollectAction::Receive { visibility_timeout: 0 });
}

#[test]
fn missing_identity_refuses_batch() {
    let mut c = Collector::new(3, false, false);
    let mut bad = delivery("b", "y", "h");
    bad.message_id = None;
    let r = c.record_receive(vec![delivery("a", "x", "h"), bad]);
    assert_eq!(r, Err(ReadError::MissingField(Field::MessageId)));
    assert_eq!(c.collected_len(), 0);
    assert!(!c.is_finished());
}

#[test]
fn missing_body_and_handle() {
    let mut c = Collector::new(3, false, false);
    let mut no_body = delivery("a", "x", "h");
    no_body.body = None;
    assert_eq!(c.record_receive(vec![no_body]), Err(ReadError::MissingField(Field::Body)));
    let mut no_handle = delivery("a", "x", "h");
    no_handle.receipt_handle = None;
    assert_eq!(c.record_receive(vec![no_handle]), Err(ReadError::MissingField(Field::ReceiptHandle)));
}

#[test]
fn config_needs_an_output() {
    assert_eq!(disposal_config(None, false, true, false), Err(ReadError::NoOutput));
    assert_eq!(
        disposal_config(Some(PrintMode::Body), false, true, false),
        Ok(DisposalConfig { print: Some(PrintMode::Body), forward: false, delete: DeletePolicy::AfterHandling })
    );
    assert_eq!(
        disposal_config(None, true, true, true),
        Ok(DisposalConfig { print: None, forward: true, delete: DeletePolicy::BeforeHandling })
    );
    assert_eq!(
        disposal_config(Some(PrintMode::FullRecord), true, false, true),
        Ok(DisposalConfig { print: Some(PrintMode::FullRecord), forward: true, delete: DeletePolicy::Keep })
    );
}

#[test]
fn forward_comes_before_delete() {
    let config = DisposalConfig { print: Some(PrintMode::Body), forward: true, delete: DeletePolicy::AfterHandling };
    let plan = plan_disposal(2, config);
    assert_eq!(
        plan,
        vec![
            Action::Emit(0),
            Action::Forward(0),
            Action::Delete(0),
            Action::Emit(1),
            Action::Forward(1),
            Action::Delete(1)
        ]
    );
}

#[test]
fn drain_first_deletes_up_front() {
    let config = DisposalConfig { print: None, forward: true, delete: DeletePolicy::BeforeHandling };
    assert_eq!(
        plan_disposal(2, config),
        vec![Action::Delete(0), Action::Delete(1), Action::Forward(0), Action::Forward(1)]
    );
    let keep = DisposalConfig { print: Some(PrintMode::FullRecord), forward: false, delete: DeletePolicy::Keep };
    assert_eq!(plan_disposal(2, keep), vec![Action::Emit(0), Action::Emit(1)]);
    assert_eq!(plan_disposal(0, config), vec![]);
}

#[test]
fn failed_forward_prevents_delete() {
    let config = DisposalConfig { print: None, forward: true, delete: DeletePolicy::AfterHandling };
    let mut run = DisposalRun::new(plan_disposal(2, config));
    let mut log = vec![];
    while let Some(a) = run.next_action() {
        log.push(a);
        let ok = a != Action::Forward(1);
        run.record_outcome(ok);
    }
    assert_eq!(log, vec![Action::Forward(0), Action::Delete(0), Action::Forward(1)]);
    assert!(!log.contains(&Action::Delete(1)));
    assert_eq!(run.next_action(), None);
}

#[test]
fn three_distinct_with_duplicate_drained() {
    let mut c = Collector::new(3, false, true);
    let batches = vec![
        vec![delivery("a", "body-a", "ha1")],
        vec![delivery("b", "body-b", "hb")],
        vec![delivery("a", "body-a", "ha2")],
        vec![delivery("c", "body-c", "hc")],
    ];
    drive(&mut c, batches, 1000);
    assert_eq!(c.next_action(), CollectAction::Stop(StopReason::Satisfied));
    let msgs = c.into_messages();
    assert_eq!(msgs.len(), 3);
    let config = disposal_config(Some(PrintMode::Body), false, true, false).unwrap();
    let plan = plan_disposal(msgs.len(), config);
    let emits: Vec<&String> =
        plan.iter().filter_map(|a| if let Action::Emit(i) = a { Some(&msgs[*i].body) } else { None }).collect();
    let mut lines: Vec<&str> = emits.iter().map(|s| s.as_str()).collect();
    lines.sort();
    assert_eq!(lines, vec!["body-a", "body-b", "body-c"]);
    let deletes: Vec<&String> = plan
        .iter()
        .filter_map(|a| if let Action::Delete(i) = a { Some(&msgs[*i].receipt_handle) } else { None })
        .collect();
    assert_eq!(deletes.len(), 3);
    assert!(deletes.iter().any(|h| h.as_str() == "ha2"));
    assert!(!deletes.iter().any(|h| h.as_str() == "ha1"));
    assert_eq!(plan.iter().filter(|a| matches!(a, Action::Forward(_))).count(), 0);
}

#[test]
fn starved_run_still_disposes() {
    let mut c = Collector::new(2, false, false);
    drive(&mut c, vec![vec![delivery("only", "payload", "h")]], 1000);
    assert_eq!(c.next_action(), CollectAction::Stop(StopReason::Starved));
    assert_eq!(c.collected_len(), 1);
    let msgs = c.into_messages();
    let config = disposal_config(Some(PrintMode::Body), false, false, false).unwrap();
    assert_eq!(plan_disposal(msgs.len(), config), vec![Action::Emit(0)]);
    assert_eq!(msgs[0].body, "payload");
}

#[test]
fn full_record_line() {
    let m = CollectedMessage {
        message_id: "id-1".to_string(),
        body: "say \"hi\"\n".to_string(),
        receipt_handle: "rh".to_string(),
        md5_of_body: Some("abc".to_string()),
        attributes: vec![
            ("ApproximateReceiveCount".to_string(), "2".to_string()),
            ("SenderId".to_string(), "x\\y".to_string()),
        ],
    };
    assert_eq!(
        full_record(&m).unwrap(),
        "{\"Attributes\":{\"ApproximateReceiveCount\":\"2\",\"SenderId\":\"x\\\\y\"},\"Body\":\"say \\\"hi\\\"\\n\",\"MD5OfBody\":\"abc\",\"MessageId\":\"id-1\",\"ReceiptHandle\":\"rh\"}"
    );
}

#[test]
fn full_record_control_and_missing_checksum() {
    let mut m = CollectedMessage {
        message_id: "i".to_string(),
        body: "\u{1}\té".to_string(),
        receipt_handle: "r".to_string(),
        md5_of_body: Some("m".to_string()),
        attributes: vec![],
    };
    assert_eq!(
        full_record(&m).unwrap(),
        "{\"Attributes\":{},\"Body\":\"\\u0001\\té\",\"MD5OfBody\":\"m\",\"MessageId\":\"i\",\"ReceiptHandle\":\"r\"}"
    );
    m.md5_of_body = None;
    assert_eq!(full_record(&m), Err(ReadError::MissingField(Field::BodyChecksum)));
}

#[test]
fn forward_ack_line() {
    assert_eq!(forward_ack("d41d", "m-\"1\""), "{\"MD5OfMessageBody\":\"d41d\",\"MessageId\":\"m-\\\"1\\\"\"}");
}
