use atp_router::messages::{
    ack_frame, adapter_error_json, make_header, notice_json, partial_frame, Notice,
    PROVISIONAL_EXPIRY_MS, SUGGESTED_WAIT_MS,
};
use atp_router::processor::{
    is_final_kind, Accuracy, Estimate, Event, Fault, Output, Phase, Processor, Ratio,
    PROVISIONAL_DEADLINE_MS,
};
use atp_router::{CostEst, Frame, Meta, Payload, Score, Window, WindowState, WindowTable};

fn frame(qos: &str, window: Window) -> Frame {
    Frame {
        v: 1,
        session_id: "sess".into(),
        stream_id: "stream".into(),
        msg_seq: 7,
        frag_seq: 3,
        flags: vec!["MORE".into()],
        qos: qos.into(),
        ttl: 5,
        window,
        meta: Meta {
            task_type: Some("ask".into()),
            languages: None,
            risk: None,
            data_scope: None,
            trace: None,
            tool_permissions: None,
            environment_id: None,
            security_groups: None,
        },
        payload: Payload {
            kind: "text".into(),
            content: serde_json::Value::String("prompt".into()),
            confidence: None,
            cost_est: None,
            checksum: None,
            expiry_ms: None,
        },
        sig: None,
        checksum: None,
    }
}

fn wide() -> Window {
    Window { max_parallel: 4, max_tokens: 1000, max_usd_micros: 1000 }
}

fn estimate(adapter: &str, cost: Option<(u64, u64, u64)>) -> Estimate {
    Estimate {
        adapter: adapter.into(),
        cost: cost.map(|(i, o, u)| CostEst { in_tokens: i, out_tokens: o, usd_micros: u }),
    }
}

fn two_estimates() -> Vec<Estimate> {
    vec![estimate("a", Some((10, 20, 5))), estimate("b", None), estimate("c", Some((1, 2, 3)))]
}

fn streaming(table: &mut WindowTable, qos: &str) -> Processor {
    let p = Processor::start(frame(qos, wide())).expect("started");
    let s = p.step(table, Event::Policy { allowed: true });
    assert!(s.outputs.is_empty());
    let s = s.next.step(table, Event::Estimates { estimates: two_estimates(), now: 0 });
    assert_eq!(s.outputs.len(), 1);
    assert!(matches!(s.outputs[0], Output::Ack(_)));
    assert_eq!(s.next.phase(), Phase::Streaming);
    s.next
}

fn message(kind: &str, content: &str, elapsed_ms: u64) -> Event {
    Event::AdapterMessage {
        kind: kind.into(),
        content_json: content.into(),
        confidence: None,
        elapsed_ms,
    }
}

fn failed() -> Event {
    Event::AdapterFailed {
        error: "connect".into(),
        adapter: "http://a:1".into(),
        reason: "refused \"now\"".into(),
    }
}

fn router_ack() -> serde_json::Value {
    let mut members = serde_json::Map::new();
    members.insert("router".to_string(), serde_json::Value::String("ack".to_string()));
    serde_json::Value::Object(members)
}

#[test]
fn constants_of_the_protocol() {
    assert_eq!(SUGGESTED_WAIT_MS, 200);
    assert_eq!(PROVISIONAL_EXPIRY_MS, 1500);
    assert_eq!(PROVISIONAL_DEADLINE_MS, 700);
}

#[test]
fn start_refuses_what_cannot_be_answered() {
    let mut f = frame("gold", wide());
    f.ttl = 0;
    assert!(Processor::start(f).is_none());
    let mut f = frame("gold", wide());
    f.msg_seq = u64::MAX - 1;
    assert!(Processor::start(f).is_none());
    let mut f = frame("gold", wide());
    f.msg_seq = u64::MAX - 2;
    let p = Processor::start(f).expect("started");
    assert_eq!(p.phase(), Phase::Policy);
    assert_eq!(p.request().msg_seq, u64::MAX - 2);
    assert_eq!(p.answers(), 0);
}

#[test]
fn policy_denial_ends_the_request() {
    let mut table = WindowTable::new();
    let p = Processor::start(frame("gold", wide())).unwrap();
    let s = p.step(&mut table, Event::Policy { allowed: false });
    assert_eq!(s.outputs.len(), 1);
    assert!(matches!(s.outputs[0], Output::Notice(Notice::PolicyDenied)));
    assert_eq!(s.next.phase(), Phase::Done);
    assert_eq!(table.state("sess", "stream"), None);
}

#[test]
fn admission_reserves_the_sum_of_the_estimates() {
    let mut table = WindowTable::new();
    let p = Processor::start(frame("gold", wide())).unwrap();
    let s = p.step(&mut table, Event::Policy { allowed: true });
    assert_eq!(s.next.phase(), Phase::Estimates);
    let s = s.next.step(&mut table, Event::Estimates { estimates: two_estimates(), now: 9 });
    assert_eq!(s.outputs.len(), 1);
    match &s.outputs[0] {
        Output::Ack(h) => {
            assert_eq!(h.v, 1);
            assert_eq!(h.session_id, "sess");
            assert_eq!(h.stream_id, "stream");
            assert_eq!(h.msg_seq, 7);
            assert_eq!(h.frag_seq, 3);
            assert_eq!(h.flags, vec!["ACK".to_string()]);
            assert_eq!(h.qos, "gold");
            assert_eq!(h.ttl, 4);
            assert_eq!(h.window, wide());
            assert_eq!(h.meta.task_type.as_deref(), Some("ask"));
            assert_eq!(h.payload.kind, "agent.result.partial");
            assert_eq!(h.payload.content, router_ack());
            assert_eq!(h.payload.confidence, None);
            assert_eq!(h.payload.expiry_ms, None);
            assert_eq!(h.sig, None);
            assert_eq!(h.checksum, None);
        }
        _ => panic!("an acknowledgment"),
    }
    assert_eq!(
        table.state("sess", "stream"),
        Some(WindowState { inflight: 1, tokens: 33, usd: 8, last_backpressure: None })
    );
}

#[test]
fn rejection_marks_backpressure() {
    let mut table = WindowTable::new();
    let tight = Window { max_parallel: 1, max_tokens: 32, max_usd_micros: 100 };
    let p = Processor::start(frame("gold", tight)).unwrap();
    let s = p.step(&mut table, Event::Policy { allowed: true });
    let s = s.next.step(&mut table, Event::Estimates { estimates: two_estimates(), now: 77 });
    assert_eq!(s.outputs.len(), 1);
    assert!(matches!(s.outputs[0], Output::Notice(Notice::Busy { suggested_wait_ms: 200 })));
    assert_eq!(s.next.phase(), Phase::Done);
    assert_eq!(
        table.state("sess", "stream"),
        Some(WindowState { inflight: 0, tokens: 0, usd: 0, last_backpressure: Some(77) })
    );
}

#[test]
fn pressure_drop() {
    let mut table = WindowTable::new();
    assert!(!table.try_admit("sess", "stream", &wide(), 5000, 0));
    table.mark_backpressure("sess", "stream", 1000);

    let p = Processor::start(frame("Bronze", wide())).unwrap();
    let s = p.step(&mut table, Event::Policy { allowed: true });
    let s = s.next.step(&mut table, Event::Estimates { estimates: two_estimates(), now: 2500 });
    assert_eq!(s.outputs.len(), 1);
    assert!(matches!(s.outputs[0], Output::Notice(Notice::Dropped)));
    assert_eq!(s.next.phase(), Phase::Done);
    assert_eq!(
        table.state("sess", "stream"),
        Some(WindowState { inflight: 0, tokens: 0, usd: 0, last_backpressure: Some(1000) })
    );

    let p = Processor::start(frame("gold", wide())).unwrap();
    let s = p.step(&mut table, Event::Policy { allowed: true });
    let s = s.next.step(&mut table, Event::Estimates { estimates: two_estimates(), now: 2500 });
    assert!(matches!(s.outputs[0], Output::Ack(_)));
    assert_eq!(s.next.phase(), Phase::Streaming);

    let p = Processor::start(frame("bronze", wide())).unwrap();
    let s = p.step(&mut table, Event::Policy { allowed: true });
    let s = s.next.step(&mut table, Event::Estimates { estimates: two_estimates(), now: 3000 });
    assert!(matches!(s.outputs[0], Output::Ack(_)));
    assert_eq!(table.state("sess", "stream").unwrap().inflight, 2);
}

#[test]
fn unknown_class_is_shed_as_bronze() {
    let mut table = WindowTable::new();
    assert!(!table.try_admit("sess", "stream", &wide(), 5000, 0));
    table.mark_backpressure("sess", "stream", 1000);
    for qos in ["platinum", "", "BRONZE", "copper"] {
        let p = Processor::start(frame(qos, wide())).unwrap();
        let s = p.step(&mut table, Event::Policy { allowed: true });
        let s = s.next.step(&mut table, Event::Estimates { estimates: two_estimates(), now: 1001 });
        assert_eq!(s.outputs.len(), 1);
        assert!(matches!(s.outputs[0], Output::Notice(Notice::Dropped)));
        assert_eq!(s.next.phase(), Phase::Done);
        assert_eq!(
            table.state("sess", "stream"),
            Some(WindowState { inflight: 0, tokens: 0, usd: 0, last_backpressure: Some(1000) })
        );
    }
    for qos in ["Silver", "GOLD"] {
        let p = Processor::start(frame(qos, wide())).unwrap();
        let s = p.step(&mut table, Event::Policy { allowed: true });
        let s = s.next.step(&mut table, Event::Estimates { estimates: two_estimates(), now: 1001 });
        assert!(matches!(s.outputs[0], Output::Ack(_)));
    }
}

#[test]
fn estimates_that_overflow_are_a_fault() {
    let mut table = WindowTable::new();
    let p = Processor::start(frame("gold", wide())).unwrap();
    let s = p.step(&mut table, Event::Policy { allowed: true });
    let estimates = vec![estimate("a", Some((u64::MAX, 0, 0))), estimate("b", Some((0, 1, 0)))];
    let s = s.next.step(&mut table, Event::Estimates { estimates, now: 0 });
    assert_eq!(s.outputs.len(), 1);
    assert!(matches!(s.outputs[0], Output::Fault(Fault::Overflow)));
    assert_eq!(s.next.phase(), Phase::Done);
    assert_eq!(table.state("sess", "stream"), None);
}

#[test]
fn events_out_of_phase_are_refused() {
    let mut table = WindowTable::new();
    let p = Processor::start(frame("gold", wide())).unwrap();
    let s = p.step(&mut table, Event::Drained);
    assert_eq!(s.outputs.len(), 1);
    assert!(matches!(s.outputs[0], Output::Fault(Fault::OutOfPhase)));
    assert_eq!(s.next.phase(), Phase::Policy);
    let s = s.next.step(&mut table, failed());
    assert!(matches!(s.outputs[0], Output::Fault(Fault::OutOfPhase)));
    let p = streaming(&mut table, "gold");
    let s = p.step(&mut table, Event::Policy { allowed: true });
    assert!(matches!(s.outputs[0], Output::Fault(Fault::OutOfPhase)));
    assert_eq!(s.next.phase(), Phase::Streaming);
}

#[test]
fn adapter_failure_is_passed_on() {
    let mut table = WindowTable::new();
    let p = streaming(&mut table, "gold");
    let s = p.step(&mut table, failed());
    assert_eq!(s.outputs.len(), 1);
    match &s.outputs[0] {
        Output::AdapterError(text) => assert_eq!(
            text,
            "{\"payload\":{\"type\":\"agent.result.partial\",\"content\":{\"adapter_error\":{\"error\":\"connect\",\"adapter\":\"http://a:1\",\"reason\":\"refused \\\"now\\\"\"}}}}"
        ),
        _ => panic!("an adapter error"),
    }
    assert_eq!(s.next.phase(), Phase::Streaming);
}

#[test]
fn stats_give_the_accuracy_of_the_prediction() {
    let mut table = WindowTable::new();
    let p = streaming(&mut table, "gold");
    let s = p.step(
        &mut table,
        Event::AdapterStats { adapter: "a".into(), observed_tokens: 45, observed_usd: 4 },
    );
    assert_eq!(s.outputs.len(), 1);
    match &s.outputs[0] {
        Output::Accuracy(a) => assert_eq!(
            *a,
            Accuracy {
                tokens: Ratio { num: 15, den: 30 },
                usd: Ratio { num: 1, den: 5 },
                under_tokens: true,
                under_usd: false,
            }
        ),
        _ => panic!("an accuracy"),
    }
    let s = s.next.step(
        &mut table,
        Event::AdapterStats { adapter: "b".into(), observed_tokens: 1, observed_usd: 1 },
    );
    assert!(s.outputs.is_empty());
}

#[test]
fn nothing_predicted_counts_as_no_deviation() {
    let mut table = WindowTable::new();
    let p = Processor::start(frame("gold", wide())).unwrap();
    let s = p.step(&mut table, Event::Policy { allowed: true });
    let estimates = vec![estimate("a", Some((0, 0, 0))), estimate("a", Some((1, 1, 0)))];
    let s = s.next.step(&mut table, Event::Estimates { estimates, now: 0 });
    let s = s.next.step(
        &mut table,
        Event::AdapterStats { adapter: "a".into(), observed_tokens: 2, observed_usd: 9 },
    );
    match &s.outputs[0] {
        Output::Accuracy(a) => assert_eq!(
            *a,
            Accuracy {
                tokens: Ratio { num: 0, den: 2 },
                usd: Ratio { num: 0, den: 1 },
                under_tokens: false,
                under_usd: true,
            }
        ),
        _ => panic!("an accuracy"),
    }
}

#[test]
fn chunks_are_passed_on_under_the_partial_header() {
    let mut table = WindowTable::new();
    let p = streaming(&mut table, "gold");
    let s = p.step(
        &mut table,
        Event::AdapterMessage {
            kind: "agent.result.partial".into(),
            content_json: "{\"t\":1}".into(),
            confidence: Some(serde_json::Value::from(0.5f32)),
            elapsed_ms: 5,
        },
    );
    assert_eq!(s.outputs.len(), 1);
    match &s.outputs[0] {
        Output::Partial(h) => {
            assert_eq!(h.msg_seq, 8);
            assert_eq!(h.flags, vec!["MORE".to_string()]);
            assert_eq!(h.ttl, 4);
            assert_eq!(h.frag_seq, 3);
            assert_eq!(h.session_id, "sess");
            assert_eq!(h.payload.kind, "agent.result.partial");
            assert_eq!(h.payload.content, serde_json::Value::String("{\"t\":1}".into()));
            assert_eq!(h.payload.confidence, Some(serde_json::Value::from(0.5f32)));
            assert_eq!(h.checksum, None);
        }
        _ => panic!("a partial"),
    }
    assert_eq!(s.next.answers(), 0);
}

#[test]
fn consensus_early_provisional() {
    let mut table = WindowTable::new();
    let p = streaming(&mut table, "gold");
    let s = p.step(&mut table, message("agent.result.final", "the answer is 42", 10));
    assert_eq!(s.outputs.len(), 1);
    assert!(matches!(s.outputs[0], Output::Partial(_)));
    assert_eq!(s.next.answers(), 1);
    let s = s.next.step(&mut table, message("agent.result.final", "the answer is 42", 20));
    assert_eq!(s.outputs.len(), 2);
    assert!(matches!(s.outputs[0], Output::Partial(_)));
    match &s.outputs[1] {
        Output::Provisional { header, kind, consensus, expiry_ms } => {
            assert_eq!(kind, "agent.result.provisional");
            assert_eq!(header.msg_seq, 8);
            assert_eq!(header.flags, vec!["MORE".to_string()]);
            assert_eq!(header.ttl, 4);
            assert_eq!(*expiry_ms, 1500);
            assert_eq!(consensus.groups, vec![vec![0, 1]]);
            assert_eq!(consensus.scores, vec![Score { members: 2, total: 2 }]);
            assert_eq!(
                consensus.finals,
                vec!["\"the answer is 42\"".to_string(), "\"the answer is 42\"".to_string()]
            );
        }
        _ => panic!("a provisional"),
    }
    let s = s.next.step(&mut table, message("agent.result.final", "the answer is 42", 30));
    assert_eq!(s.outputs.len(), 1);
    assert_eq!(s.next.answers(), 3);
    let s = s.next.step(&mut table, Event::Drained);
    assert_eq!(s.outputs.len(), 1);
    match &s.outputs[0] {
        Output::Final { header, kind, consensus } => {
            assert_eq!(kind, "agent.result.final");
            assert_eq!(header.msg_seq, 9);
            assert_eq!(header.flags, vec!["FIN".to_string()]);
            assert_eq!(header.ttl, 4);
            assert_eq!(consensus.groups, vec![vec![0, 1, 2]]);
            assert_eq!(consensus.scores, vec![Score { members: 3, total: 3 }]);
            assert_eq!(consensus.representatives, vec![(0, "\"the answer is 42\"".to_string())]);
        }
        _ => panic!("a final"),
    }
    assert_eq!(s.next.phase(), Phase::Done);
    assert_eq!(
        table.state("sess", "stream"),
        Some(WindowState { inflight: 0, tokens: 0, usd: 0, last_backpressure: None })
    );
}

#[test]
fn no_provisional_below_the_confidence_before_the_deadline() {
    let mut table = WindowTable::new();
    let p = streaming(&mut table, "gold");
    let s = p.step(&mut table, message("final", "paris", 10));
    let s = s.next.step(&mut table, message("final", "london", 700));
    assert_eq!(s.outputs.len(), 1);
    let s = s.next.step(&mut table, message("x.final", "delta", 700));
    assert_eq!(s.outputs.len(), 1);
    let s = s.next.step(&mut table, message("x.final", "Paris", 700));
    assert_eq!(s.outputs.len(), 1);
    assert_eq!(s.next.answers(), 4);
}

#[test]
fn provisional_after_the_deadline() {
    let mut table = WindowTable::new();
    let p = streaming(&mut table, "gold");
    let s = p.step(&mut table, message("final", "paris", 701));
    assert_eq!(s.outputs.len(), 1);
    let s = s.next.step(&mut table, message("final", "london", 701));
    assert_eq!(s.outputs.len(), 2);
    match &s.outputs[1] {
        Output::Provisional { consensus, .. } => {
            assert_eq!(consensus.groups, vec![vec![0], vec![1]]);
        }
        _ => panic!("a provisional"),
    }
    let s = s.next.step(&mut table, message("final", "london", 9000));
    assert_eq!(s.outputs.len(), 1);
}

#[test]
fn provisional_at_two_of_three() {
    let mut table = WindowTable::new();
    let p = streaming(&mut table, "gold");
    let s = p.step(&mut table, message("final", "paris", 1));
    let s = s.next.step(&mut table, message("final", "london", 2));
    assert_eq!(s.outputs.len(), 1);
    let s = s.next.step(&mut table, message("final", "paris", 3));
    assert_eq!(s.outputs.len(), 2);
    assert!(matches!(s.outputs[1], Output::Provisional { .. }));
}

#[test]
fn downgrade_precedes_the_final() {
    let mut table = WindowTable::new();
    let p = streaming(&mut table, "gold");
    let s = p.step(&mut table, message("final", "yes", 1));
    let s = s.next.step(&mut table, message("final", "yes", 2));
    assert!(matches!(s.outputs[1], Output::Provisional { .. }));
    let s = s.next.step(&mut table, message("final", "no", 3));
    let s = s.next.step(&mut table, message("final", "maybe", 4));
    let s = s.next.step(&mut table, Event::Drained);
    assert_eq!(s.outputs.len(), 2);
    match &s.outputs[0] {
        Output::Downgraded { kind, from, to } => {
            assert_eq!(kind, "control.status");
            assert_eq!(*from, Score { members: 2, total: 2 });
            assert_eq!(*to, Score { members: 2, total: 4 });
        }
        _ => panic!("a downgrade"),
    }
    match &s.outputs[1] {
        Output::Final { consensus, .. } => {
            assert_eq!(consensus.groups, vec![vec![0, 1], vec![2], vec![3]]);
        }
        _ => panic!("a final"),
    }
}

#[test]
fn a_drop_within_the_margin_is_no_downgrade() {
    let mut table = WindowTable::new();
    let p = streaming(&mut table, "gold");
    let mut s = p.step(&mut table, message("final", "paris", 1));
    s = s.next.step(&mut table, message("final", "london", 2));
    s = s.next.step(&mut table, message("final", "paris", 3));
    assert!(matches!(s.outputs[1], Output::Provisional { .. }));
    for text in ["paris", "paris", "paris", "delta", "gamma"] {
        s = s.next.step(&mut table, message("final", text, 4));
        assert_eq!(s.outputs.len(), 1);
    }
    let s = s.next.step(&mut table, Event::Drained);
    assert_eq!(s.outputs.len(), 1);
    match &s.outputs[0] {
        Output::Final { consensus, .. } => {
            assert_eq!(consensus.scores[0], Score { members: 5, total: 8 });
        }
        _ => panic!("a final"),
    }
}

#[test]
fn a_drop_beyond_the_margin_is_a_downgrade() {
    let mut table = WindowTable::new();
    let p = streaming(&mut table, "gold");
    let mut s = p.step(&mut table, message("final", "paris", 1));
    s = s.next.step(&mut table, message("final", "london", 2));
    s = s.next.step(&mut table, message("final", "paris", 3));
    for text in ["paris", "delta"] {
        s = s.next.step(&mut table, message("final", text, 4));
    }
    let s = s.next.step(&mut table, Event::Drained);
    assert_eq!(s.outputs.len(), 2);
    match &s.outputs[0] {
        Output::Downgraded { from, to, .. } => {
            assert_eq!(*from, Score { members: 2, total: 3 });
            assert_eq!(*to, Score { members: 3, total: 5 });
        }
        _ => panic!("a downgrade"),
    }
}

#[test]
fn no_answers_give_an_empty_final() {
    let mut table = WindowTable::new();
    let p = streaming(&mut table, "gold");
    let s = p.step(&mut table, failed());
    let s = s.next.step(&mut table, failed());
    let s = s.next.step(&mut table, Event::Drained);
    assert_eq!(s.outputs.len(), 1);
    match &s.outputs[0] {
        Output::Final { header, consensus, .. } => {
            assert_eq!(header.flags, vec!["FIN".to_string()]);
            assert!(consensus.scores.is_empty());
            assert!(consensus.groups.is_empty());
            assert!(consensus.finals.is_empty());
        }
        _ => panic!("a final"),
    }
    assert_eq!(table.state("sess", "stream").unwrap().inflight, 0);
}

#[test]
fn final_kinds() {
    assert!(is_final_kind("agent.result.final"));
    assert!(is_final_kind("final"));
    assert!(!is_final_kind("inal"));
    assert!(!is_final_kind("agent.result.final "));
    assert!(!is_final_kind("agent.result.partial"));
    assert!(!is_final_kind("FINAL"));
    assert!(!is_final_kind(""));
}

#[test]
fn headers_count_on_from_the_request() {
    let f = frame("silver", wide());
    let h = make_header(&f, 2, "FIN");
    assert_eq!(h.msg_seq, 9);
    assert_eq!(h.ttl, 4);
    assert_eq!(h.flags, vec!["FIN".to_string()]);
    assert_eq!(h.qos, "silver");
    assert_eq!(h.session_id, "sess");
    assert_eq!(h.stream_id, "stream");
}

#[test]
fn acknowledgment_and_partial_frames() {
    let f = frame("silver", wide());
    let a = ack_frame(&f);
    assert_eq!(a.msg_seq, 7);
    assert_eq!(a.flags, vec!["ACK".to_string()]);
    assert_eq!(a.ttl, 4);
    assert_eq!(a.payload.content, router_ack());
    let p = partial_frame(&f, "agent.result.final".into(), "[1,2]", None);
    assert_eq!(p.msg_seq, 8);
    assert_eq!(p.flags, vec!["MORE".to_string()]);
    assert_eq!(p.payload.kind, "agent.result.final");
    assert_eq!(p.payload.content, serde_json::Value::String("[1,2]".into()));
    assert_eq!(p.qos, "silver");
}

#[test]
fn notices_as_json() {
    assert_eq!(notice_json(Notice::InvalidFrame), "{\"error\":\"invalid_frame\"}");
    assert_eq!(notice_json(Notice::BinaryNotSupported), "{\"error\":\"binary_not_supported\"}");
    assert_eq!(notice_json(Notice::TtlExpired), "{\"error\":\"ttl_expired\"}");
    assert_eq!(notice_json(Notice::PolicyDenied), "{\"error\":\"policy_denied\"}");
    assert_eq!(
        notice_json(Notice::Busy { suggested_wait_ms: 200 }),
        "{\"control.status\":\"BUSY\",\"suggested_wait_ms\":200}"
    );
    assert_eq!(
        notice_json(Notice::Dropped),
        "{\"control.status\":\"ECN\",\"action\":\"drop\",\"reason\":\"pressure\"}"
    );
}

#[test]
fn adapter_error_as_json() {
    let text = adapter_error_json("rpc", "b", "gone");
    let value: serde_json::Value = serde_json::from_str(&text).unwrap();
    let inner = &value["payload"]["content"]["adapter_error"];
    assert_eq!(value["payload"]["type"], "agent.result.partial");
    assert_eq!(inner["error"], "rpc");
    assert_eq!(inner["adapter"], "b");
    assert_eq!(inner["reason"], "gone");
}
