use device_dashboard::device::{decode_body, i64_of_raw, Device, OnlineState};
use device_dashboard::gateway::{
    classify, init_config, respond, respond_now, ErrorKind, FetchOutcome, StartupError,
};
use device_dashboard::json::{parse_json, Json};
use device_dashboard::render::render_page;

fn count_occurrences(haystack: &[u8], needle: &[u8]) -> usize {
    if needle.is_empty() || haystack.len() < needle.len() {
        return 0;
    }
    let mut n = 0;
    for i in 0..=(haystack.len() - needle.len()) {
        if &haystack[i..i + needle.len()] == needle {
            n += 1;
        }
    }
    n
}

fn find_pos(haystack: &[u8], needle: &[u8]) -> Option<usize> {
    if needle.is_empty() || haystack.len() < needle.len() {
        return None;
    }
    (0..=(haystack.len() - needle.len())).find(|&i| &haystack[i..i + needle.len()] == needle)
}

fn devices_of(body: &str) -> Vec<Device> {
    decode_body(body.as_bytes()).expect("body should decode")
}

#[test]
fn missing_online_state_resolves_offline() {
    let ds = devices_of(r#"{"devices":[{"alias":"a"}]}"#);
    assert_eq!(ds.len(), 1);
    assert!(ds[0].online_state == OnlineState::Offline);
}

#[test]
fn unrecognized_online_state_resolves_offline() {
    let ds = devices_of(r#"{"devices":[{"online_state":"Away"}]}"#);
    assert!(ds[0].online_state == OnlineState::Offline);
    let ds = devices_of(r#"{"devices":[{"online_state":42}]}"#);
    assert!(ds[0].online_state == OnlineState::Offline);
    let ds = devices_of(r#"{"devices":[{"online_state":null}]}"#);
    assert!(ds[0].online_state == OnlineState::Offline);
}

#[test]
fn recognized_online_states_resolve_as_given() {
    let ds = devices_of(r#"{"devices":[{"online_state":"Online"},{"online_state":"Offline"}]}"#);
    assert!(ds[0].online_state == OnlineState::Online);
    assert!(ds[1].online_state == OnlineState::Offline);
}

#[test]
fn missing_devices_key_is_empty_list_not_error() {
    assert_eq!(devices_of(r#"{}"#).len(), 0);
    assert_eq!(devices_of(r#"{"something_else":[1,2,3]}"#).len(), 0);
}

#[test]
fn fields_pass_through() {
    let ds = devices_of(
        r#"{"devices":[{"remotecontrol_id":"r1","device_id":"d1","userid":"u1",
            "alias":"Desk","groupid":"g1","description":"desk box","policy_id":"p1",
            "assigned_to":true,"supported_features":"remote_control",
            "last_seen":"2024-03-04T05:06:07Z","teamviewer_id":123456789,
            "online_state":"Online"}]}"#,
    );
    let d = &ds[0];
    assert_eq!(d.remotecontrol_id.as_deref(), Some(b"r1".as_slice()));
    assert_eq!(d.device_id.as_deref(), Some(b"d1".as_slice()));
    assert_eq!(d.userid.as_deref(), Some(b"u1".as_slice()));
    assert_eq!(d.alias.as_deref(), Some(b"Desk".as_slice()));
    assert_eq!(d.groupid.as_deref(), Some(b"g1".as_slice()));
    assert_eq!(d.description.as_deref(), Some(b"desk box".as_slice()));
    assert_eq!(d.policy_id.as_deref(), Some(b"p1".as_slice()));
    assert_eq!(d.assigned_to, Some(true));
    assert_eq!(d.supported_features.as_deref(), Some(b"remote_control".as_slice()));
    assert_eq!(d.last_seen.as_deref(), Some(b"2024-03-04T05:06:07Z".as_slice()));
    assert_eq!(d.teamviewer_id, Some(123456789));
    assert!(d.online_state == OnlineState::Online);
}

#[test]
fn absent_fields_stay_absent() {
    let ds = devices_of(r#"{"devices":[{}]}"#);
    let d = &ds[0];
    assert!(d.alias.is_none());
    assert!(d.teamviewer_id.is_none());
    assert!(d.assigned_to.is_none());
    assert!(d.last_seen.is_none());
    assert!(d.online_state == OnlineState::Offline);
}

#[test]
fn wrong_shape_of_known_field_is_decode_failure() {
    assert!(decode_body(br#"{"devices":[{"alias":5}]}"#).is_none());
    assert!(decode_body(br#"{"devices":[{"assigned_to":"yes"}]}"#).is_none());
    assert!(decode_body(br#"{"devices":[{"teamviewer_id":"123"}]}"#).is_none());
    assert!(decode_body(br#"{"devices":[{"teamviewer_id":1.5}]}"#).is_none());
    assert!(decode_body(br#"{"devices":"none"}"#).is_none());
    assert!(decode_body(br#"{"devices":[17]}"#).is_none());
    assert!(decode_body(br#"[1,2]"#).is_none());
}

#[test]
fn unknown_fields_are_ignored() {
    let ds = devices_of(r#"{"devices":[{"alias":"a","extra":{"deep":[1,{"x":null}]}}]}"#);
    assert_eq!(ds[0].alias.as_deref(), Some(b"a".as_slice()));
}

#[test]
fn malformed_json_is_decode_failure() {
    assert!(decode_body(b"not json at all").is_none());
    assert!(decode_body(b"{\"devices\":[").is_none());
    assert!(decode_body(b"{} trailing").is_none());
    assert!(decode_body(b"").is_none());
    assert!(decode_body(br#"{"devices":[{"alias":"a"},]}"#).is_none());
    assert!(decode_body(br#"{"n":01}"#).is_none());
}

#[test]
fn parser_reads_literals_strings_numbers() {
    assert!(matches!(parse_json(b" null "), Some(Json::Null)));
    assert!(matches!(parse_json(b"true"), Some(Json::Bool(true))));
    assert!(matches!(parse_json(b"false"), Some(Json::Bool(false))));
    match parse_json(br#""a\"b\\c\nd""#) {
        Some(Json::Str(s)) => assert_eq!(s, b"a\"b\\c\nd".to_vec()),
        _ => panic!("expected a string"),
    }
    match parse_json(b"-12.5e3") {
        Some(Json::Num(raw)) => assert_eq!(raw, b"-12.5e3".to_vec()),
        _ => panic!("expected a number"),
    }
    assert!(parse_json(b"nul").is_none());
    assert!(parse_json(br#""unterminated"#).is_none());
}

#[test]
fn unicode_escapes_become_utf8() {
    match parse_json(br#""A\u0041\u00e9\u4e2d""#) {
        Some(Json::Str(s)) => assert_eq!(s, vec![0x41, 0x41, 0xC3, 0xA9, 0xE4, 0xB8, 0xAD]),
        _ => panic!("expected a string"),
    }
    assert!(parse_json(br#""\ud83d""#).is_none());
    assert!(parse_json(br#""\u12""#).is_none());
    assert!(parse_json(br#""\uzzzz""#).is_none());
}

#[test]
fn i64_bounds_are_exact() {
    assert_eq!(i64_of_raw(&b"9223372036854775807".to_vec()), Some(i64::MAX));
    assert_eq!(i64_of_raw(&b"-9223372036854775808".to_vec()), Some(i64::MIN));
    assert_eq!(i64_of_raw(&b"9223372036854775808".to_vec()), None);
    assert_eq!(i64_of_raw(&b"-9223372036854775809".to_vec()), None);
    assert_eq!(i64_of_raw(&b"0".to_vec()), Some(0));
    assert_eq!(i64_of_raw(&b"1.5".to_vec()), None);
    assert_eq!(i64_of_raw(&b"1e3".to_vec()), None);
    assert_eq!(i64_of_raw(&b"-".to_vec()), None);
    assert_eq!(i64_of_raw(&b"".to_vec()), None);
}

#[test]
fn rendered_page_has_one_entry_per_device_in_order() {
    let ds = devices_of(
        r#"{"devices":[{"alias":"One"},{"alias":"Two"},{"alias":"Three"}]}"#,
    );
    let page = render_page(&ds, b"2024-01-01T00:00:00+00:00");
    assert_eq!(count_occurrences(&page, b"<li>"), 3);
    assert_eq!(count_occurrences(&page, b"</li>"), 3);
    let p1 = find_pos(&page, b"One").unwrap();
    let p2 = find_pos(&page, b"Two").unwrap();
    let p3 = find_pos(&page, b"Three").unwrap();
    assert!(p1 < p2 && p2 < p3);
}

#[test]
fn rendered_page_is_deterministic() {
    let ds = devices_of(r#"{"devices":[{"alias":"One"}]}"#);
    let a = render_page(&ds, b"t");
    let b = render_page(&ds, b"t");
    assert_eq!(a, b);
}

#[test]
fn render_uses_placeholder_and_last_seen() {
    let ds = devices_of(
        r#"{"devices":[{"last_seen":"2024-03-04T05:06:07Z"}]}"#,
    );
    let page = render_page(&ds, b"now");
    assert!(find_pos(&page, b"(unnamed)").is_some());
    assert!(find_pos(&page, b", last seen 2024-03-04T05:06:07Z").is_some());
}

#[test]
fn upstream_text_is_html_escaped() {
    let ds = devices_of(r#"{"devices":[{"alias":"<script>&\"x'"}]}"#);
    let page = render_page(&ds, b"now");
    assert!(find_pos(&page, b"&lt;script&gt;&amp;&quot;x&#39;").is_some());
    assert!(find_pos(&page, b"<script>").is_none());
}

#[test]
fn transport_failure_is_500_and_distinguishable_from_decode() {
    let transport = respond(&FetchOutcome::TransportFailure, b"now");
    assert_eq!(transport.status, 500);
    assert!(!transport.html);
    assert_eq!(
        transport.body,
        b"transport error: the upstream exchange did not complete".to_vec()
    );
    assert!(classify(&FetchOutcome::TransportFailure) == Some(ErrorKind::Transport));

    let decode = respond(&FetchOutcome::Body(b"not json".to_vec()), b"now");
    assert_eq!(decode.status, 500);
    assert_ne!(transport.body, decode.body);
}

#[test]
fn invalid_body_is_500_decode_error() {
    let outcome = FetchOutcome::Body(b"<html>oops</html>".to_vec());
    let reply = respond(&outcome, b"now");
    assert_eq!(reply.status, 500);
    assert!(!reply.html);
    assert_eq!(
        reply.body,
        b"decode error: the upstream response did not match the expected schema".to_vec()
    );
    assert!(classify(&outcome) == Some(ErrorKind::Decode));
}

#[test]
fn successful_body_is_200_html() {
    let outcome = FetchOutcome::Body(br#"{"devices":[{"alias":"a"}]}"#.to_vec());
    let reply = respond(&outcome, b"now");
    assert_eq!(reply.status, 200);
    assert!(reply.html);
    assert!(classify(&outcome).is_none());
    let timed = respond_now(&outcome);
    assert_eq!(timed.status, 200);
    assert!(timed.html);
}

#[test]
fn missing_credential_refuses_startup() {
    match init_config(None) {
        Err(e) => assert!(e == StartupError::MissingCredential),
        Ok(_) => panic!("startup must be refused without a credential"),
    }
    let ok = init_config(Some("token-value".to_string())).unwrap();
    assert_eq!(ok.token, "token-value");
}

#[test]
fn scenario_two_laptops() {
    let body =
        br#"{"devices":[{"alias":"Laptop1","online_state":"Online"},{"alias":"Laptop2"}]}"#;
    let ds = decode_body(body).expect("scenario body decodes");
    assert_eq!(ds.len(), 2);
    assert_eq!(ds[0].alias.as_deref(), Some(b"Laptop1".as_slice()));
    assert!(ds[0].online_state == OnlineState::Online);
    assert_eq!(ds[1].alias.as_deref(), Some(b"Laptop2".as_slice()));
    assert!(ds[1].online_state == OnlineState::Offline);

    let page = render_page(&ds, b"now");
    let p1 = find_pos(&page, b"Laptop1 - Online").unwrap();
    let p2 = find_pos(&page, b"Laptop2 - Offline").unwrap();
    assert!(p1 < p2);
}
