use ts_rubberstamp::classify::Verdict;
use ts_rubberstamp::codec::{decode_response, encode_response};

#[test]
fn defer_encodes_as_empty_object() {
    let doc = encode_response(&Verdict::Defer);
    assert_eq!(doc, "{}");
}

#[test]
fn approve_encodes_with_decision_and_reason() {
    let v = Verdict::Approve { reason: String::from("Auto-approved: Safe edit detected") };
    let doc = encode_response(&v);
    assert_eq!(
        doc,
        "{\"decision\":\"approve\",\"reason\":\"Auto-approved: Safe edit detected\"}"
    );
}

#[test]
fn defer_round_trips() {
    let doc = encode_response(&Verdict::Defer);
    match decode_response(&doc) {
        Some(Verdict::Defer) => {}
        _ => panic!("expected the deferral to come back"),
    }
}

#[test]
fn approve_round_trips() {
    let v = Verdict::Approve { reason: String::from("Auto-approved: Safe edit detected") };
    let doc = encode_response(&v);
    match decode_response(&doc) {
        Some(Verdict::Approve { reason }) => {
            assert_eq!(reason, "Auto-approved: Safe edit detected");
        }
        _ => panic!("expected the approval to come back"),
    }
}

#[test]
fn awkward_reason_round_trips() {
    let original = "a \"quoted\" \\ back\nslash\ttab\u{1}end";
    let v = Verdict::Approve { reason: String::from(original) };
    let doc = encode_response(&v);
    match decode_response(&doc) {
        Some(Verdict::Approve { reason }) => assert_eq!(reason, original),
        _ => panic!("expected the approval to come back"),
    }
}

#[test]
fn control_characters_are_escaped() {
    let v = Verdict::Approve { reason: String::from("a\nb") };
    let doc = encode_response(&v);
    assert_eq!(doc, "{\"decision\":\"approve\",\"reason\":\"a\\u000ab\"}");
}

#[test]
fn decode_rejects_foreign_documents() {
    assert!(decode_response("").is_none());
    assert!(decode_response("nonsense").is_none());
    assert!(decode_response("{\"decision\":\"approve\"}").is_none());
    assert!(decode_response("{\"decision\":\"approve\",\"reason\":\"x").is_none());
    assert!(decode_response("{\"decision\":\"approve\",\"reason\":\"\\x\"}").is_none());
}

#[test]
fn decode_accepts_escaped_document() {
    match decode_response("{\"decision\":\"approve\",\"reason\":\"say \\\"hi\\\"\"}") {
        Some(Verdict::Approve { reason }) => assert_eq!(reason, "say \"hi\""),
        _ => panic!("expected an approval"),
    }
}
