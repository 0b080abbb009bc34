use tunet::acid::{ac_id_of_body, candidate_ids, fixed_ac_ids, parse_ac_id, try_candidates};
use tunet::jsonp::{challenge_of_body, parse_response, unwrap_jsonp};
use tunet::types::NetError;

#[test]
fn jsonp_unwrap_strips_the_wrapper() {
    assert_eq!(unwrap_jsonp("callback({})"), Some("{}"));
    assert_eq!(unwrap_jsonp("callback({\"a\":1})"), Some("{\"a\":1}"));
    assert_eq!(unwrap_jsonp("callbac({})"), None);
    assert_eq!(unwrap_jsonp("callback({}"), None);
    assert_eq!(unwrap_jsonp("short"), None);
}

#[test]
fn challenge_scenario() {
    let r = challenge_of_body("callback({\"challenge\":\"abcd1234\"})").unwrap();
    assert_eq!(r, "abcd1234");
}

#[test]
fn challenge_missing_field_is_empty_not_an_error() {
    assert_eq!(challenge_of_body("callback({})").unwrap(), "");
    assert_eq!(challenge_of_body("callback({\"challenge\":5})").unwrap(), "");
}

#[test]
fn challenge_malformed_is_a_decode_error() {
    assert!(matches!(challenge_of_body("callback(}{)"), Err(NetError::Decode(_))));
    assert!(matches!(challenge_of_body("no wrapper at all"), Err(NetError::Decode(_))));
}

#[test]
fn response_success_scenario() {
    let (suc, msg) = parse_response("callback({\"error\":\"ok\",\"error_msg\":\"login success\"})")
        .unwrap();
    assert!(suc);
    assert!(msg.contains("ok"));
    assert!(msg.contains("login success"));
    assert_eq!(msg, "error: ok; error_msg: login success");
}

#[test]
fn response_rejection_scenario() {
    let (suc, msg) = parse_response("callback({\"error\":\"fail\",\"error_msg\":\"bad password\"})")
        .unwrap();
    assert!(!suc);
    assert_eq!(msg, "error: fail; error_msg: bad password");
}

#[test]
fn response_without_fields_fails_quietly() {
    let (suc, msg) = parse_response("callback({\"error\":1})").unwrap();
    assert!(!suc);
    assert_eq!(msg, "");
}

#[test]
fn response_malformed_is_a_decode_error() {
    assert!(matches!(parse_response("callback(nonsense)"), Err(NetError::Decode(_))));
}

#[test]
fn fixed_candidates_in_priority_order() {
    assert_eq!(fixed_ac_ids(), vec![1, 25, 33, 35, 37]);
}

#[test]
fn candidates_append_the_callers_identifiers() {
    assert_eq!(candidate_ids(&vec![6, 2]), vec![1, 25, 33, 35, 37, 6, 2]);
    assert_eq!(candidate_ids(&Vec::new()), vec![1, 25, 33, 35, 37]);
}

#[test]
fn resolution_selects_the_first_accepted_candidate() {
    let cands = candidate_ids(&Vec::new());
    let action = |id: i32| -> Result<String, NetError> {
        if id == 37 {
            Ok("accepted".to_string())
        } else {
            Err(NetError::Rejected(format!("no {}", id)))
        }
    };
    let (msg, tried) = try_candidates(&cands, &action);
    assert_eq!(msg, Some("accepted".to_string()));
    assert_eq!(tried, 4);
}

#[test]
fn resolution_prefers_earlier_candidates() {
    let cands = candidate_ids(&vec![37]);
    let action = |id: i32| -> Result<String, NetError> {
        if id == 25 || id == 37 {
            Ok(format!("ok {}", id))
        } else {
            Err(NetError::Rejected("no".to_string()))
        }
    };
    let (msg, tried) = try_candidates(&cands, &action);
    assert_eq!(msg, Some("ok 25".to_string()));
    assert_eq!(tried, 1);
}

#[test]
fn resolution_reports_exhaustion() {
    let cands = candidate_ids(&Vec::new());
    let action = |_id: i32| -> Result<String, NetError> { Err(NetError::Rejected("no".to_string())) };
    let (msg, tried) = try_candidates(&cands, &action);
    assert_eq!(msg, None);
    assert_eq!(tried, 5);
}

#[test]
fn discovery_pattern_captures_the_digits() {
    assert_eq!(ac_id_of_body("<a href=\"http://g/index_25.html\">here</a>"), Some(25));
    assert_eq!(ac_id_of_body("/index_7.html"), Some(7));
    assert_eq!(ac_id_of_body("index7.html nothing"), None);
    assert_eq!(ac_id_of_body("/index_99999999999.html"), None);
}

#[test]
fn identifier_parsing_respects_the_range() {
    assert_eq!(parse_ac_id("37"), Some(37));
    assert_eq!(parse_ac_id("2147483647"), Some(i32::MAX));
    assert_eq!(parse_ac_id("2147483648"), None);
    assert_eq!(parse_ac_id("99999999999"), None);
}

#[test]
fn error_texts() {
    assert_eq!(NetError::Transport("down".to_string()).text(), "down");
    assert_eq!(NetError::Decode("bad".to_string()).text(), "bad");
    assert_eq!(NetError::Rejected("denied".to_string()).text(), "denied");
    assert_eq!(NetError::NoAcId.text(), "no gateway identifier found");
}
