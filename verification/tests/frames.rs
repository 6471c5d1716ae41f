use atp_router::canonical::{encode_cost, encode_frame, encode_meta, encode_payload, encode_window};
use atp_router::digest::to_hex;
use atp_router::fragment::carries_more;
use atp_router::{
    fragment_text_frame, reassemble_text, validate_fragment_checksums, CostEst, Finding, Frame,
    Meta, Payload, Reassembler, Window, DEFAULT_MAX_FRAGMENT_BYTES,
};
use serde_json::Value;
use sha2::{Digest, Sha256};

fn text_value(text: &str) -> Value {
    let mut members = serde_json::Map::new();
    members.insert("text".to_string(), Value::String(text.to_string()));
    Value::Object(members)
}

fn sample_frame() -> Frame {
    Frame {
        v: 1,
        session_id: "sess1".into(),
        stream_id: "streamA".into(),
        msg_seq: 42,
        frag_seq: 0,
        flags: vec!["MORE".into()],
        qos: "gold".into(),
        ttl: 5,
        window: Window { max_parallel: 4, max_tokens: 10_000, max_usd_micros: 2_000_000 },
        meta: Meta {
            task_type: Some("ask".into()),
            languages: None,
            risk: None,
            data_scope: None,
            trace: None,
            tool_permissions: None,
            environment_id: None,
            security_groups: None,
        },
        payload: Payload {
            kind: "text".into(),
            content: text_value("hello"),
            confidence: Some(Value::from(0.9f32)),
            cost_est: None,
            checksum: None,
            expiry_ms: None,
        },
        sig: None,
        checksum: None,
    }
}

const SAMPLE_CANONICAL: &str = "{\"v\":1,\"session_id\":\"sess1\",\"stream_id\":\"streamA\",\"msg_seq\":42,\"frag_seq\":0,\"flags\":[\"MORE\"],\"qos\":\"gold\",\"ttl\":5,\"window\":{\"max_parallel\":4,\"max_tokens\":10000,\"max_usd_micros\":2000000},\"meta\":{\"task_type\":\"ask\",\"languages\":null,\"risk\":null,\"data_scope\":null,\"trace\":null,\"tool_permissions\":null,\"environment_id\":null,\"security_groups\":null},\"payload\":{\"type\":\"text\",\"content\":{\"text\":\"hello\"},\"confidence\":0.8999999761581421,\"cost_est\":null,\"checksum\":null,\"expiry_ms\":null}}";

fn has_more(f: &Frame) -> bool {
    f.flags.iter().any(|x| x == "MORE")
}

#[test]
fn checksum_changes_on_mutation() {
    let mut frame = sample_frame().with_computed_checksum();
    let orig = frame.checksum.clone();
    frame.payload.content = text_value("hello world");
    let new_sum = frame.compute_checksum();
    assert_ne!(orig.unwrap(), new_sum);
}

#[test]
fn fragmentation_and_reassembly() {
    let base = sample_frame();
    let text = "a".repeat(2050);
    let frags = fragment_text_frame(base, &text, 800);
    assert!(frags.len() >= 3);
    for (i, f) in frags.iter().enumerate() {
        if i < frags.len() - 1 {
            assert!(f.flags.iter().any(|x| x == "MORE"));
        } else {
            assert!(!f.flags.iter().any(|x| x == "MORE"));
        }
    }
    let mut r = Reassembler::default();
    let mut collected = Vec::new();
    for f in frags.clone() {
        if let Some(done) = r.push(f) {
            collected = done;
        }
    }
    assert!(!collected.is_empty());
    let re_text = reassemble_text(&collected).expect("reassembled");
    assert_eq!(re_text, text);
    assert!(validate_fragment_checksums(&collected));
    let mut r2 = Reassembler::default();
    let mut out_none = 0;
    let mut rev = frags.clone();
    rev.reverse();
    for f in rev {
        if r2.push(f).is_none() {
            out_none += 1;
        }
    }
    assert!(out_none > 0);
}

#[test]
fn fragmentation_missing_last_never_completes() {
    let base = sample_frame();
    let text = "b".repeat(1500);
    let mut frags = fragment_text_frame(base, &text, 600);
    assert!(frags.len() > 2);
    frags.pop();
    let mut r = Reassembler::default();
    for f in frags {
        assert!(r.push(f).is_none());
    }
}

#[test]
fn fragmentation_mid_fragment_missing_more_flag_detected() {
    let base = sample_frame();
    let text = "c".repeat(1700);
    let mut frags = fragment_text_frame(base, &text, 500);
    assert!(frags.len() >= 3);
    if frags.len() > 2 {
        frags[1].flags.retain(|x| x != "MORE");
    }
    assert!(reassemble_text(&frags).is_none());
}

#[test]
fn canonical_encoding_of_the_sample_frame() {
    assert_eq!(encode_frame(&sample_frame()), SAMPLE_CANONICAL);
}

#[test]
fn canonical_encoding_is_json_with_the_frame_fields() {
    let text = encode_frame(&sample_frame());
    let value: Value = serde_json::from_str(&text).unwrap();
    assert_eq!(value.get("msg_seq").and_then(|x| x.as_u64()), Some(42));
    assert_eq!(value.get("session_id").and_then(|x| x.as_str()), Some("sess1"));
    assert_eq!(value.get("payload").and_then(|p| p.get("type")).and_then(|x| x.as_str()), Some("text"));
    assert!(value.get("checksum").is_none());
    assert!(value.get("sig").is_none());
}

#[test]
fn canonical_encoding_ignores_checksum_and_sig() {
    let mut frame = sample_frame();
    frame.checksum = Some("00".into());
    frame.sig = Some("signature".into());
    assert_eq!(encode_frame(&frame), SAMPLE_CANONICAL);
}

#[test]
fn canonical_encoding_escapes_strings() {
    let mut frame = sample_frame();
    frame.session_id = "a\"b\\c\n".into();
    let text = encode_frame(&frame);
    assert!(text.starts_with("{\"v\":1,\"session_id\":\"a\\\"b\\\\c\\n\",\"stream_id\""));
}

#[test]
fn encode_window_writes_decimal_numbers() {
    let w = Window { max_parallel: 0, max_tokens: 18_446_744_073_709_551_615, max_usd_micros: 10 };
    assert_eq!(
        encode_window(&w),
        "{\"max_parallel\":0,\"max_tokens\":18446744073709551615,\"max_usd_micros\":10}"
    );
}

#[test]
fn encode_cost_writes_its_three_members() {
    let c = CostEst { in_tokens: 7, out_tokens: 105, usd_micros: 9001 };
    assert_eq!(encode_cost(&c), "{\"in_tokens\":7,\"out_tokens\":105,\"usd_micros\":9001}");
}

#[test]
fn encode_meta_writes_lists_and_embedded_values() {
    let meta = Meta {
        task_type: None,
        languages: Some(vec!["en".into(), "de".into()]),
        risk: Some("low".into()),
        data_scope: Some(vec![]),
        trace: Some(text_value("t")),
        tool_permissions: Some(vec!["read".into()]),
        environment_id: None,
        security_groups: None,
    };
    assert_eq!(
        encode_meta(&meta),
        "{\"task_type\":null,\"languages\":[\"en\",\"de\"],\"risk\":\"low\",\"data_scope\":[],\"trace\":{\"text\":\"t\"},\"tool_permissions\":[\"read\"],\"environment_id\":null,\"security_groups\":null}"
    );
}

#[test]
fn encode_payload_writes_all_members() {
    let p = Payload {
        kind: "agent.result.final".into(),
        content: Value::String("done".into()),
        confidence: None,
        cost_est: Some(CostEst { in_tokens: 1, out_tokens: 2, usd_micros: 3 }),
        checksum: Some("abc".into()),
        expiry_ms: Some(1500),
    };
    assert_eq!(
        encode_payload(&p),
        "{\"type\":\"agent.result.final\",\"content\":\"done\",\"confidence\":null,\"cost_est\":{\"in_tokens\":1,\"out_tokens\":2,\"usd_micros\":3},\"checksum\":\"abc\",\"expiry_ms\":1500}"
    );
}

#[test]
fn to_hex_is_lowercase_with_two_digits_per_byte() {
    assert_eq!(to_hex(&[]), "");
    assert_eq!(to_hex(&[0x00, 0x0f, 0xa0, 0xff, 0x7b]), "000fa0ff7b");
}

#[test]
fn checksum_of_the_sample_frame() {
    let frame = sample_frame();
    assert_eq!(
        frame.compute_checksum(),
        "c5d241aa30770a025d148d07c511d842f3bf20d9115a1189b2861b86477ceb63"
    );
}

#[test]
fn checksum_is_the_sha256_of_the_canonical_encoding() {
    let mut frame = sample_frame();
    frame.payload.content = text_value("other");
    let expected = format!("{:x}", Sha256::digest(encode_frame(&frame).as_bytes()));
    assert_eq!(frame.compute_checksum(), expected);
    assert_eq!(expected.len(), 64);
}

#[test]
fn computed_checksum_verifies() {
    let frame = sample_frame();
    assert!(!frame.verify_checksum());
    let frame = frame.with_computed_checksum();
    assert!(frame.verify_checksum());
    assert_eq!(frame.msg_seq, 42);
    assert_eq!(frame.session_id, "sess1");
}

#[test]
fn wrong_checksum_does_not_verify() {
    let mut frame = sample_frame().with_computed_checksum();
    frame.checksum = Some("c5d241aa30770a025d148d07c511d842f3bf20d9115a1189b2861b86477ceb64".into());
    assert!(!frame.verify_checksum());
    frame.checksum = None;
    assert!(!frame.verify_checksum());
}

#[test]
fn checksum_does_not_depend_on_sig() {
    let mut frame = sample_frame();
    let before = frame.compute_checksum();
    frame.sig = Some("x".into());
    frame.checksum = Some("y".into());
    assert_eq!(frame.compute_checksum(), before);
}

#[test]
fn validate_fragment_checksums_wants_every_frame_to_verify() {
    let good = sample_frame().with_computed_checksum();
    let bad = sample_frame();
    assert!(validate_fragment_checksums(&[]));
    assert!(validate_fragment_checksums(&[good.clone(), good.clone()]));
    assert!(!validate_fragment_checksums(&[good, bad]));
}

#[test]
fn clone_keeps_every_field() {
    let frame = sample_frame().with_computed_checksum();
    let copy = frame.clone();
    assert_eq!(encode_frame(&copy), encode_frame(&frame));
    assert_eq!(copy.checksum, frame.checksum);
    assert_eq!(copy.sig, frame.sig);
    assert!(copy.verify_checksum());
}

#[test]
fn single_fragment_round_trip() {
    let base = sample_frame();
    let frags = fragment_text_frame(base, "hello", 8192);
    assert_eq!(frags.len(), 1);
    assert!(!has_more(&frags[0]));
    assert!(frags[0].verify_checksum());
    assert_eq!(frags[0].frag_seq, 0);
    assert_eq!(reassemble_text(&frags), Some("hello".to_string()));
    assert_eq!(
        frags[0].checksum.as_deref(),
        Some("14ef2639f109fa776d98fefd227fefaab59f191ff569f3b92c93e7fd3b7c158b")
    );
}

#[test]
fn single_fragment_carries_the_text() {
    let mut base = sample_frame();
    base.payload.content = text_value("kept");
    base.frag_seq = 7;
    let frags = fragment_text_frame(base, "other", DEFAULT_MAX_FRAGMENT_BYTES);
    assert_eq!(frags.len(), 1);
    assert_eq!(frags[0].frag_seq, 0);
    assert_eq!(frags[0].payload.content, text_value("other"));
    assert!(!has_more(&frags[0]));
    assert!(frags[0].verify_checksum());
    assert_eq!(reassemble_text(&frags), Some("other".to_string()));
}

#[test]
fn single_fragment_of_a_text_as_long_as_the_limit() {
    let frags = fragment_text_frame(sample_frame(), "hi", 2);
    assert_eq!(frags.len(), 1);
    assert_eq!(frags[0].payload.content, text_value("hi"));
    assert_eq!(reassemble_text(&frags), Some("hi".to_string()));
}

#[test]
fn multi_fragment_scenario() {
    let text = "a".repeat(2050);
    let frags = fragment_text_frame(sample_frame(), &text, 800);
    assert_eq!(frags.len(), 3);
    assert!(has_more(&frags[0]));
    assert!(has_more(&frags[1]));
    assert!(!has_more(&frags[2]));
    assert_eq!(frags[0].frag_seq, 0);
    assert_eq!(frags[1].frag_seq, 1);
    assert_eq!(frags[2].frag_seq, 2);
    assert_eq!(frags[0].payload.content, text_value(&"a".repeat(800)));
    assert_eq!(frags[2].payload.content, text_value(&"a".repeat(450)));
    assert_eq!(frags[1].flags, vec!["MORE".to_string()]);
    assert!(validate_fragment_checksums(&frags));
    assert_eq!(reassemble_text(&frags), Some(text));
}

#[test]
fn fragments_of_an_exact_multiple() {
    let text = "z".repeat(1600);
    let frags = fragment_text_frame(sample_frame(), &text, 800);
    assert_eq!(frags.len(), 2);
    assert_eq!(reassemble_text(&frags), Some(text));
}

#[test]
fn more_is_added_where_the_base_has_none() {
    let mut base = sample_frame();
    base.flags = vec!["URGENT".into()];
    let frags = fragment_text_frame(base, "abcdef", 4);
    assert_eq!(frags.len(), 2);
    assert_eq!(frags[0].flags, vec!["URGENT".to_string(), "MORE".to_string()]);
    assert_eq!(frags[1].flags, vec!["URGENT".to_string()]);
}

#[test]
fn empty_text_gives_one_frame() {
    let frags = fragment_text_frame(sample_frame(), "", 0);
    assert_eq!(frags.len(), 1);
    assert!(!has_more(&frags[0]));
    assert!(frags[0].verify_checksum());
    assert_eq!(frags[0].payload.content, text_value(""));
    assert_eq!(reassemble_text(&frags), Some(String::new()));
}

#[test]
fn checksum_has_64_hexadecimal_digits() {
    let c = sample_frame().compute_checksum();
    assert_eq!(c.len(), 64);
    assert!(c.chars().all(|x| x.is_ascii_digit() || ('a'..='f').contains(&x)));
    for f in fragment_text_frame(sample_frame(), "abcdefgh", 3) {
        let c = f.checksum.expect("checksum");
        assert_eq!(c.len(), 64);
        assert!(c.chars().all(|x| x.is_ascii_digit() || ('a'..='f').contains(&x)));
    }
}

#[test]
fn fragments_hold_the_pieces_of_the_text() {
    let frags = fragment_text_frame(sample_frame(), "abcdefgh", 3);
    assert_eq!(frags[0].payload.content, text_value("abc"));
    assert_eq!(frags[1].payload.content, text_value("def"));
    assert_eq!(frags[2].payload.content, text_value("gh"));
    let frags = fragment_text_frame(sample_frame(), &"a".repeat(2050), 800);
    assert_eq!(frags[1].payload.content, text_value(&"a".repeat(800)));
}

#[test]
fn text_cut_between_characters_reassembles() {
    let text = "\u{e9}\u{e9}\u{e9}".to_string();
    let frags = fragment_text_frame(sample_frame(), &text, 2);
    assert_eq!(frags.len(), 3);
    assert_eq!(reassemble_text(&frags), Some(text));
}

#[test]
fn text_cut_through_a_character_is_not_restored() {
    let text = "\u{e9}".to_string();
    let frags = fragment_text_frame(sample_frame(), &text, 1);
    assert_eq!(frags.len(), 2);
    assert_eq!(frags[0].payload.content, text_value("\u{fffd}"));
    assert_eq!(reassemble_text(&frags), Some("\u{fffd}\u{fffd}".to_string()));
    assert!(validate_fragment_checksums(&frags));
}

#[test]
fn reassemble_text_rejects_the_empty_sequence() {
    assert_eq!(reassemble_text(&[]), None);
}

#[test]
fn reassemble_text_rejects_a_wrong_index() {
    let mut frags = fragment_text_frame(sample_frame(), "abcdef", 3);
    frags[1].frag_seq = 5;
    assert_eq!(reassemble_text(&frags), None);
    let mut frags = fragment_text_frame(sample_frame(), "abcdef", 3);
    frags.swap(0, 1);
    assert_eq!(reassemble_text(&frags), None);
}

#[test]
fn reassemble_text_rejects_a_last_frame_with_more() {
    let mut frags = fragment_text_frame(sample_frame(), "abcdef", 3);
    frags[1].flags.push("MORE".into());
    assert_eq!(reassemble_text(&frags), None);
}

#[test]
fn reassemble_text_skips_content_without_text() {
    let mut frags = fragment_text_frame(sample_frame(), "abcdef", 3);
    frags[0].payload.content = Value::Null;
    assert_eq!(reassemble_text(&frags), Some("def".to_string()));
}

#[test]
fn carries_more_looks_for_the_flag() {
    assert!(carries_more(&vec!["A".to_string(), "MORE".to_string()]));
    assert!(!carries_more(&vec!["more".to_string()]));
    assert!(!carries_more(&vec![]));
}

#[test]
fn reassembler_hands_out_the_fragments_in_order() {
    let frags = fragment_text_frame(sample_frame(), "abcdefgh", 3);
    assert_eq!(frags.len(), 3);
    let mut r = Reassembler::new();
    assert!(r.push(frags[0].clone()).is_none());
    assert!(r.push(frags[1].clone()).is_none());
    let done = r.push(frags[2].clone()).expect("complete");
    assert_eq!(done.len(), 3);
    assert_eq!(reassemble_text(&done), Some("abcdefgh".to_string()));
    assert!(r.push(frags[0].clone()).is_none());
    assert!(r.push(frags[2].clone()).is_none());
}

#[test]
fn reassembler_drops_duplicates_and_frames_out_of_order() {
    let frags = fragment_text_frame(sample_frame(), "abcdefgh", 3);
    let mut r = Reassembler::new();
    assert!(r.push(frags[1].clone()).is_none());
    assert!(r.push(frags[0].clone()).is_none());
    assert!(r.push(frags[0].clone()).is_none());
    assert!(r.push(frags[2].clone()).is_none());
    assert!(r.push(frags[1].clone()).is_none());
    let done = r.push(frags[2].clone()).expect("complete");
    assert_eq!(done.len(), 3);
}

#[test]
fn reverse_order_yields_nothing_for_every_push() {
    let mut frags = fragment_text_frame(sample_frame(), &"a".repeat(2050), 800);
    frags.reverse();
    let mut r = Reassembler::default();
    for f in frags {
        assert!(r.push(f).is_none());
    }
}

#[test]
fn finding_is_cloned_field_by_field() {
    let f = Finding {
        id: "f1".into(),
        severity: Some("high".into()),
        claim: "c".into(),
        confidence: Some(Value::from(0.5f32)),
        provenance: Some(vec!["a".into()]),
    };
    let g = f.clone();
    assert_eq!(g.id, "f1");
    assert_eq!(g.severity.as_deref(), Some("high"));
    assert_eq!(g.claim, "c");
    assert_eq!(g.confidence, f.confidence);
    assert_eq!(g.provenance, f.provenance);
}
