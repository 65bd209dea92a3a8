use rtwkit::web::{
    append_bounded_output, content_type, encode_ws_frame, header_has_token, normalize_asset_path,
    request_header, route_http_request, upgrade_response, split_asset_root, take_websocket_frame, validate_config,
    websocket_origin_allowed, Client, ClientMode, HeaderField, HttpRoute, ProvidedContractConfig,
    TargetError, WebLayerConfig, MAX_CLIENT_BUFFER_BYTES, WEB_BRIDGE_PROTOCOL_MAJOR,
    convert_action_revision_to_number, convert_surface_revisions_to_strings,
};
use rtwkit::tavern_card::JsonValue;

fn masked_frame(first: u8, payload: &[u8]) -> Vec<u8> {
    let mask = [1_u8, 2, 3, 4];
    let mut frame = vec![first, 0x80 | u8::try_from(payload.len()).unwrap()];
    frame.extend_from_slice(&mask);
    frame.extend(
        payload
            .iter()
            .enumerate()
            .map(|(index, byte)| byte ^ mask[index % mask.len()]),
    );
    frame
}

fn test_client() -> Client {
    Client {
        socket: 1,
        inbound: Vec::new(),
        outbound: Vec::new(),
        outbound_offset: 0,
        pending_asset: None,
        last_state_digest: None,
        mode: ClientMode::WebSocket {
            hello_complete: true,
        },
        close_after_write: false,
    }
}

fn base_config() -> WebLayerConfig {
    WebLayerConfig {
        schema: 1,
        bridge_protocol_major: WEB_BRIDGE_PROTOCOL_MAJOR,
        entry: String::from("web/index.html"),
        listen_port: 44719,
        provides: Vec::new(),
        ui_layer: None,
    }
}

fn role() -> ProvidedContractConfig {
    ProvidedContractConfig {
        id: String::from("example.role"),
        version: 1,
        required_secret_read: Vec::new(),
    }
}

#[test]
fn test_should_allow_only_same_origin_websocket_requests() {
    assert!(websocket_origin_allowed(
        "127.0.0.1:44719",
        Some("http://127.0.0.1:44719")
    ));
    assert!(websocket_origin_allowed("127.0.0.1:44719", None));
    assert!(!websocket_origin_allowed(
        "127.0.0.1:44719",
        Some("https://evil.example")
    ));
    assert!(!websocket_origin_allowed(
        "127.0.0.1:44719",
        Some("http://127.0.0.1:44720")
    ));
    assert!(!websocket_origin_allowed(
        "evil.example:44719",
        Some("http://evil.example:44719")
    ));
    assert!(websocket_origin_allowed(
        "localhost:44719",
        Some("http://localhost:44719")
    ));
}

#[test]
fn test_should_match_comma_separated_http_tokens_case_insensitively() {
    assert!(header_has_token("keep-alive, Upgrade", "upgrade"));
    assert!(header_has_token("WebSocket", "websocket"));
    assert!(!header_has_token("keep-alive", "upgrade"));
}

#[test]
fn test_should_normalize_only_safe_asset_paths() {
    assert_eq!(normalize_asset_path("/"), None);
    assert_eq!(
        normalize_asset_path("/assets/app.js?cache=1"),
        Some(String::from("assets/app.js"))
    );
    assert_eq!(normalize_asset_path("/../secret"), Some(String::new()));
    assert_eq!(normalize_asset_path("/a//b"), Some(String::new()));
    assert_eq!(normalize_asset_path("/a\\b"), Some(String::new()));
}

#[test]
fn test_should_decode_one_masked_final_text_frame() {
    let mut frame = masked_frame(0x81, b"hello");
    let decoded = take_websocket_frame(&mut frame)
        .expect("valid masked frame should parse")
        .expect("complete frame should be returned");
    assert_eq!(decoded.opcode, 1);
    assert_eq!(decoded.payload, b"hello");
    assert!(frame.is_empty());
}

#[test]
fn test_should_reject_unmasked_fragmented_and_oversized_control_frames() {
    let mut unmasked = vec![0x81, 1, b'x'];
    assert!(take_websocket_frame(&mut unmasked).is_err());

    let mut fragmented = masked_frame(0x01, b"x");
    assert!(take_websocket_frame(&mut fragmented).is_err());

    let mut oversized_control = vec![0x89, 0x80 | 126, 0, 126];
    oversized_control.extend_from_slice(&[1, 2, 3, 4]);
    oversized_control.extend(std::iter::repeat_n(0_u8, 126));
    assert!(take_websocket_frame(&mut oversized_control).is_err());
}

#[test]
fn test_should_bound_slow_client_output() {
    let mut client = test_client();
    assert!(append_bounded_output(
        &mut client,
        &vec![0_u8; MAX_CLIENT_BUFFER_BYTES]
    ));
    assert!(!append_bounded_output(&mut client, &[1]));
    assert!(client.outbound.is_empty());
    assert!(client.close_after_write);
}

#[test]
fn test_should_compact_consumed_output_before_appending() {
    let mut client = test_client();
    client.outbound = vec![1, 2, 3];
    client.outbound_offset = 2;

    assert!(append_bounded_output(&mut client, &[4, 5]));
    assert_eq!(client.outbound, vec![3, 4, 5]);
    assert_eq!(client.outbound_offset, 0);
}

#[test]
fn test_should_allow_web_component_without_product_roles() {
    assert!(validate_config(&base_config()).is_ok());
}

#[test]
fn test_should_reject_duplicate_provided_contracts() {
    let mut config = base_config();
    config.provides = vec![role(), role()];
    assert!(matches!(
        validate_config(&config),
        Err(TargetError::InvalidDescriptor)
    ));
}

#[test]
fn partial_frame_waits_for_more_bytes() {
    let full = masked_frame(0x81, b"hello");
    let mut partial = full[..4].to_vec();
    let outcome = take_websocket_frame(&mut partial).expect("a prefix is not an error");
    assert!(outcome.is_none());
    assert_eq!(partial, full[..4].to_vec());
}

#[test]
fn second_frame_stays_buffered_after_the_first() {
    let mut buffer = masked_frame(0x81, b"one");
    buffer.extend(masked_frame(0x82, b"two"));
    let first = take_websocket_frame(&mut buffer).unwrap().unwrap();
    assert_eq!(first.opcode, 1);
    assert_eq!(first.payload, b"one");
    let second = take_websocket_frame(&mut buffer).unwrap().unwrap();
    assert_eq!(second.opcode, 2);
    assert_eq!(second.payload, b"two");
    assert!(buffer.is_empty());
}

#[test]
fn encoded_server_frame_has_header_and_payload() {
    assert_eq!(encode_ws_frame(1, b"hi"), vec![0x81, 2, b'h', b'i']);
    let long = vec![7_u8; 200];
    let frame = encode_ws_frame(2, &long);
    assert_eq!(&frame[..4], &[0x82, 126, 0, 200]);
    assert_eq!(frame.len(), 204);
}

#[test]
fn header_token_ignores_surrounding_spaces_and_rejects_substrings() {
    assert!(header_has_token("  upgrade  ", "UPGRADE"));
    assert!(!header_has_token("upgrades", "upgrade"));
    assert!(!header_has_token("", "upgrade"));
}

#[test]
fn asset_root_and_content_types() {
    assert_eq!(
        split_asset_root("web/index.html"),
        Some((String::from("web"), String::from("index.html")))
    );
    assert_eq!(content_type("app.js"), "text/javascript; charset=utf-8");
    assert_eq!(content_type("index.html"), "text/html; charset=utf-8");
}

#[test]
fn origin_without_header_host_port_mismatch_is_refused() {
    assert!(!websocket_origin_allowed("127.0.0.1:44719", Some("")));
    assert!(!websocket_origin_allowed(
        "127.0.0.1:44719",
        Some("http://localhost:44719")
    ));
}

#[test]
fn request_header_lookup_is_case_insensitive() {
    let headers = vec![
        HeaderField {
            name: String::from("Host"),
            value: b"127.0.0.1:44719".to_vec(),
        },
        HeaderField {
            name: String::from("Upgrade"),
            value: b"websocket".to_vec(),
        },
    ];
    assert_eq!(
        request_header(&headers, "upgrade"),
        Some(String::from("websocket"))
    );
    assert_eq!(request_header(&headers, "origin"), None);
}

#[test]
fn plain_get_routes_to_an_asset() {
    let request = b"GET /assets/app.js HTTP/1.1\r\nHost: 127.0.0.1:44719\r\n\r\n";
    match route_http_request(request) {
        HttpRoute::Asset { key } => assert_eq!(key, Some(String::from("assets/app.js"))),
        _ => panic!("expected an asset route"),
    }
}

#[test]
fn zero_port_config_is_refused() {
    let mut config = base_config();
    config.listen_port = 0;
    assert!(validate_config(&config).is_err());
}

#[test]
fn upgrade_response_carries_the_rfc_accept_key() {
    let response = upgrade_response("dGhlIHNhbXBsZSBub25jZQ==");
    let text = String::from_utf8(response).unwrap();
    assert_eq!(
        text,
        "HTTP/1.1 101 Switching Protocols\r\nUpgrade: websocket\r\nConnection: Upgrade\r\nSec-WebSocket-Accept: s3pPLMBiTxaQ9kYGzzhZRbK+xOo=\r\n\r\n"
    );
}

fn surface_with(revision: JsonValue) -> JsonValue {
    JsonValue::Object(vec![
        (String::from("id"), JsonValue::String(String::from("main"))),
        (
            String::from("snapshot"),
            JsonValue::Object(vec![
                (String::from("nodes"), JsonValue::Array(Vec::new())),
                (String::from("revision"), revision),
            ]),
        ),
    ])
}

fn snapshot_revision_of(surface: &JsonValue) -> &JsonValue {
    match surface {
        JsonValue::Object(entries) => {
            let snapshot = entries.iter().find(|(k, _)| k == "snapshot").unwrap();
            match &snapshot.1 {
                JsonValue::Object(inner) => &inner.iter().find(|(k, _)| k == "revision").unwrap().1,
                _ => panic!("snapshot is not an object"),
            }
        }
        _ => panic!("surface is not an object"),
    }
}

fn surface_revision_field(event: &JsonValue) -> &JsonValue {
    match event {
        JsonValue::Object(entries) => &entries.iter().find(|(k, _)| k == "surface_revision").unwrap().1,
        _ => panic!("event is not an object"),
    }
}

#[test]
fn test_should_convert_portable_ui_revisions_across_browser_wire_boundary() {
    let mut surfaces = JsonValue::Array(vec![JsonValue::Object(vec![(
        String::from("snapshot"),
        JsonValue::Object(vec![(String::from("revision"), JsonValue::Number(String::from("18446744073709551615")))]),
    )])]);
    assert_eq!(convert_surface_revisions_to_strings(&mut surfaces), Some(()));
    match &surfaces {
        JsonValue::Array(items) => {
            assert!(matches!(snapshot_revision_of(&items[0]), JsonValue::String(t) if t == "18446744073709551615"));
        }
        _ => panic!("surfaces are not an array"),
    }

    let mut action = JsonValue::Object(vec![(
        String::from("surface_revision"),
        JsonValue::String(String::from("18446744073709551615")),
    )]);
    assert!(convert_action_revision_to_number(&mut action).is_ok());
    assert!(matches!(
        surface_revision_field(&action),
        JsonValue::Number(t) if t.parse::<u64>() == Ok(18_446_744_073_709_551_615_u64)
    ));
}

#[test]
fn surface_revision_conversion_keeps_other_fields_and_stops_at_first_bad_surface() {
    let mut surfaces = JsonValue::Array(vec![
        surface_with(JsonValue::Number(String::from("7"))),
        surface_with(JsonValue::Number(String::from("-1"))),
        surface_with(JsonValue::Number(String::from("9"))),
    ]);
    assert_eq!(convert_surface_revisions_to_strings(&mut surfaces), None);
    match &surfaces {
        JsonValue::Array(items) => {
            assert_eq!(items.len(), 3);
            assert!(matches!(snapshot_revision_of(&items[0]), JsonValue::String(t) if t == "7"));
            assert!(matches!(snapshot_revision_of(&items[1]), JsonValue::Number(t) if t == "-1"));
            assert!(matches!(snapshot_revision_of(&items[2]), JsonValue::Number(t) if t == "9"));
            match &items[0] {
                JsonValue::Object(entries) => {
                    assert_eq!(entries.len(), 2);
                    assert!(matches!(&entries[0], (k, JsonValue::String(v)) if k == "id" && v == "main"));
                }
                _ => panic!("surface is not an object"),
            }
        }
        _ => panic!("surfaces are not an array"),
    }
}

#[test]
fn surface_revision_conversion_refuses_non_arrays_and_non_integer_revisions() {
    let mut not_array = JsonValue::Object(Vec::new());
    assert_eq!(convert_surface_revisions_to_strings(&mut not_array), None);
    assert!(matches!(&not_array, JsonValue::Object(e) if e.is_empty()));

    let mut fractional = JsonValue::Array(vec![surface_with(JsonValue::Number(String::from("1.0")))]);
    assert_eq!(convert_surface_revisions_to_strings(&mut fractional), None);

    let mut textual = JsonValue::Array(vec![surface_with(JsonValue::String(String::from("3")))]);
    assert_eq!(convert_surface_revisions_to_strings(&mut textual), None);

    let mut empty = JsonValue::Array(Vec::new());
    assert_eq!(convert_surface_revisions_to_strings(&mut empty), Some(()));
}

#[test]
fn action_revision_conversion_reads_text_as_str_parse_does() {
    let mut plus = JsonValue::Object(vec![(String::from("surface_revision"), JsonValue::String(String::from("+42")))]);
    assert_eq!(convert_action_revision_to_number(&mut plus), Ok(()));
    assert!(matches!(surface_revision_field(&plus), JsonValue::Number(t) if t == "42"));

    let mut overflow = JsonValue::Object(vec![(
        String::from("surface_revision"),
        JsonValue::String(String::from("18446744073709551616")),
    )]);
    assert_eq!(convert_action_revision_to_number(&mut overflow), Err(()));
    assert!(matches!(surface_revision_field(&overflow), JsonValue::String(t) if t == "18446744073709551616"));

    let mut number = JsonValue::Object(vec![(String::from("surface_revision"), JsonValue::Number(String::from("5")))]);
    assert_eq!(convert_action_revision_to_number(&mut number), Err(()));

    let mut missing = JsonValue::Object(Vec::new());
    assert_eq!(convert_action_revision_to_number(&mut missing), Err(()));

    let mut array = JsonValue::Array(Vec::new());
    assert_eq!(convert_action_revision_to_number(&mut array), Err(()));
}
