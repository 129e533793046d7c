use kv_gateway::request::parse_write_request;
use kv_gateway::respond::{Body, HttpReply, WritePlan};
use kv_gateway::respond::plan_write;

fn parse(body: &str) -> Option<(Vec<u8>, Vec<u8>, Option<u64>)> {
    let bytes: Vec<u8> = body.as_bytes().to_vec();
    parse_write_request(&bytes).map(|w| (w.key, w.value, w.ttl))
}

fn assert_rejected(body: &str) {
    let bytes: Vec<u8> = body.as_bytes().to_vec();
    match plan_write(&bytes) {
        WritePlan::Reject(HttpReply { status, body: Body::BadPayload }) => {
            assert_eq!(status, 400);
        },
        _ => panic!("payload was not rejected: {body}"),
    }
}

#[test]
fn plain_body_parses() {
    let w = parse(r#"{"key":"a","value":"b"}"#).unwrap();
    assert_eq!(w.0, b"a".to_vec());
    assert_eq!(w.1, b"b".to_vec());
    assert_eq!(w.2, None);
}

#[test]
fn ttl_is_carried_through() {
    let w = parse(r#"{"key":"session-1","value":"abc","options":{"ttl":60}}"#).unwrap();
    assert_eq!(w.0, b"session-1".to_vec());
    assert_eq!(w.1, b"abc".to_vec());
    assert_eq!(w.2, Some(60));
}

#[test]
fn ttl_zero_is_accepted() {
    let w = parse(r#"{"key":"k","value":"v","options":{"ttl":0}}"#).unwrap();
    assert_eq!(w.2, Some(0));
}

#[test]
fn ttl_max_is_accepted() {
    let w = parse(r#"{"key":"k","value":"v","options":{"ttl":18446744073709551615}}"#).unwrap();
    assert_eq!(w.2, Some(u64::MAX));
}

#[test]
fn absent_options_leave_no_expiration() {
    let w = parse(r#"{"key":"k","value":"v"}"#).unwrap();
    assert_eq!(w.2, None);
}

#[test]
fn null_options_leave_no_expiration() {
    let w = parse(r#"{"key":"k","value":"v","options":null}"#).unwrap();
    assert_eq!(w.2, None);
}

#[test]
fn empty_options_leave_no_expiration() {
    let w = parse(r#"{"key":"k","value":"v","options":{}}"#).unwrap();
    assert_eq!(w.2, None);
}

#[test]
fn null_ttl_leaves_no_expiration() {
    let w = parse(r#"{"key":"k","value":"v","options":{"ttl":null}}"#).unwrap();
    assert_eq!(w.2, None);
}

#[test]
fn whitespace_is_insignificant() {
    let w = parse(" {\t\"key\" : \"k\" ,\n\"value\"\r:\n\"v\" } ").unwrap();
    assert_eq!(w.0, b"k".to_vec());
    assert_eq!(w.1, b"v".to_vec());
}

#[test]
fn member_order_does_not_matter() {
    let w = parse(r#"{"options":{"ttl":7},"value":"v","key":"k"}"#).unwrap();
    assert_eq!(w.0, b"k".to_vec());
    assert_eq!(w.1, b"v".to_vec());
    assert_eq!(w.2, Some(7));
}

#[test]
fn unknown_members_are_ignored() {
    let w = parse(
        r#"{"key":"k","extra":[1,2,{"deep":[true,null,-1.5e3]}],"value":"v","more":"x"}"#,
    )
    .unwrap();
    assert_eq!(w.0, b"k".to_vec());
    assert_eq!(w.1, b"v".to_vec());
}

#[test]
fn unknown_members_inside_options_are_ignored() {
    let w = parse(r#"{"key":"k","value":"v","options":{"note":"n","ttl":9}}"#).unwrap();
    assert_eq!(w.2, Some(9));
}

#[test]
fn escapes_are_decoded() {
    let w = parse(r#"{"key":"a\u0041\n","value":"q\"\\\/"}"#).unwrap();
    assert_eq!(w.0, b"aA\n".to_vec());
    assert_eq!(w.1, b"q\"\\/".to_vec());
}

#[test]
fn surrogate_pairs_become_utf8() {
    let w = parse(r#"{"key":"k","value":"\uD83D\uDE00"}"#).unwrap();
    assert_eq!(w.1, vec![0xF0, 0x9F, 0x98, 0x80]);
}

#[test]
fn multibyte_text_passes_through() {
    let w = parse("{\"key\":\"k\",\"value\":\"caf\u{e9}\"}").unwrap();
    assert_eq!(w.1, "caf\u{e9}".as_bytes().to_vec());
}

#[test]
fn missing_value_is_rejected() {
    assert_rejected(r#"{"key":"a"}"#);
}

#[test]
fn missing_key_is_rejected() {
    assert_rejected(r#"{"value":"b"}"#);
}

#[test]
fn empty_object_is_rejected() {
    assert_rejected("{}");
}

#[test]
fn malformed_json_is_rejected() {
    assert_rejected("");
    assert_rejected("{");
    assert_rejected(r#"{"key":"a","value":"b""#);
    assert_rejected(r#"{"key":"a" "value":"b"}"#);
    assert_rejected(r#"{"key":"a","value":"b",}"#);
    assert_rejected("[]");
    assert_rejected("null");
    assert_rejected("\"text\"");
}

#[test]
fn trailing_text_is_rejected() {
    assert_rejected(r#"{"key":"a","value":"b"} x"#);
    assert_rejected(r#"{"key":"a","value":"b"}{}"#);
}

#[test]
fn non_string_ttl_is_rejected() {
    assert_rejected(r#"{"key":"a","value":"b","options":{"ttl":"soon"}}"#);
    assert_rejected(r#"{"key":"a","value":"b","options":{"ttl":true}}"#);
    assert_rejected(r#"{"key":"a","value":"b","options":{"ttl":[60]}}"#);
}

#[test]
fn fractional_or_signed_ttl_is_rejected() {
    assert_rejected(r#"{"key":"a","value":"b","options":{"ttl":1.5}}"#);
    assert_rejected(r#"{"key":"a","value":"b","options":{"ttl":-60}}"#);
    assert_rejected(r#"{"key":"a","value":"b","options":{"ttl":6e1}}"#);
}

#[test]
fn oversized_ttl_is_rejected() {
    assert_rejected(r#"{"key":"a","value":"b","options":{"ttl":18446744073709551616}}"#);
}

#[test]
fn non_string_key_or_value_is_rejected() {
    assert_rejected(r#"{"key":1,"value":"b"}"#);
    assert_rejected(r#"{"key":"a","value":2}"#);
    assert_rejected(r#"{"key":null,"value":"b"}"#);
    assert_rejected(r#"{"key":"a","value":["b"]}"#);
}

#[test]
fn wrongly_typed_options_are_rejected() {
    assert_rejected(r#"{"key":"a","value":"b","options":5}"#);
    assert_rejected(r#"{"key":"a","value":"b","options":"ttl"}"#);
    assert_rejected(r#"{"key":"a","value":"b","options":[{"ttl":60}]}"#);
}

#[test]
fn duplicate_known_members_are_rejected() {
    assert_rejected(r#"{"key":"a","key":"b","value":"v"}"#);
    assert_rejected(r#"{"key":"a","value":"v","value":"w"}"#);
    assert_rejected(r#"{"key":"a","value":"v","options":null,"options":null}"#);
    assert_rejected(r#"{"key":"a","value":"v","options":{"ttl":1,"ttl":2}}"#);
}

#[test]
fn duplicate_unknown_members_are_ignored() {
    let w = parse(r#"{"x":1,"x":2,"key":"k","value":"v"}"#).unwrap();
    assert_eq!(w.0, b"k".to_vec());
}

#[test]
fn leading_zeros_are_rejected() {
    assert_rejected(r#"{"key":"a","value":"b","options":{"ttl":01}}"#);
}

#[test]
fn bare_control_characters_are_rejected() {
    assert_rejected("{\"key\":\"a\u{1}\",\"value\":\"b\"}");
}

#[test]
fn lone_surrogates_are_rejected() {
    assert_rejected(r#"{"key":"k","value":"\uD83D"}"#);
    assert_rejected(r#"{"key":"k","value":"\uDE00"}"#);
    assert_rejected(r#"{"key":"k","value":"\uD83Dx"}"#);
}

#[test]
fn unknown_escapes_are_rejected() {
    assert_rejected(r#"{"key":"k","value":"\x41"}"#);
    assert_rejected(r#"{"key":"k","value":"\u00G1"}"#);
}
