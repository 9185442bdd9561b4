use plurk::comet::PlurkComet;
use plurk::json::{comet_server_of, parse_api_response};

#[test]
fn bootstrap_url_parses_into_a_descriptor() {
    let c = PlurkComet::new("https://x/comet?channel=priv_5-abc&offset=0").unwrap();
    assert_eq!(c.base_url, "https://x/comet");
    assert_eq!(c.channel, "priv_5-abc");
    assert_eq!(c.offset, 0);
    assert_eq!(c.as_str(), "https://x/comet?channel=priv_5-abc&offset=0");
}

#[test]
fn end_to_end_poll_scenario() {
    let mut c = PlurkComet::new("https://x/comet?channel=priv_5-abc&offset=0").unwrap();
    assert_eq!(c.as_str(), "https://x/comet?channel=priv_5-abc&offset=0");

    let data = c
        .apply_poll_response("CometChannel.scriptCallback({\"new_offset\": 10, \"data\": []});")
        .unwrap();
    assert_eq!(data, serde_json::from_str::<serde_json::Value>("[]").unwrap());
    assert_eq!(c.offset, 10);
    assert_eq!(c.as_str(), "https://x/comet?channel=priv_5-abc&offset=10");

    let _ = c
        .apply_poll_response("CometChannel.scriptCallback({\"new_offset\": 25, \"data\": 1});")
        .unwrap();
    assert_eq!(c.offset, 25);
    assert_eq!(c.as_str(), "https://x/comet?channel=priv_5-abc&offset=25");
}

#[test]
fn jsonp_unwrap_yields_offset_and_data() {
    let mut c = PlurkComet::new("https://x/comet?channel=a&offset=1").unwrap();
    let data = c
        .apply_poll_response(
            "CometChannel.scriptCallback({\"new_offset\": 42, \"data\": {\"x\": 1}});",
        )
        .unwrap();
    let expected = serde_json::from_str::<serde_json::Value>("{\"x\": 1}").unwrap();
    assert_eq!(data, expected);
    assert_eq!(c.offset, 42);
}

#[test]
fn missing_wrapper_is_a_protocol_error() {
    let mut c = PlurkComet::new("https://x/comet?channel=a&offset=1").unwrap();
    let e = c
        .apply_poll_response("<html><body>Service Unavailable</body></html>")
        .unwrap_err();
    assert_eq!(e.code(), 6);
    assert_eq!(c.offset, 1);
}

#[test]
fn malformed_payload_is_a_decode_error() {
    let mut c = PlurkComet::new("https://x/comet?channel=a&offset=7").unwrap();
    let e = c
        .apply_poll_response("CometChannel.scriptCallback(not json);")
        .unwrap_err();
    assert_eq!(e.code(), 3);
    assert_eq!(c.offset, 7);

    let e = c
        .apply_poll_response("CometChannel.scriptCallback({\"data\": 1});")
        .unwrap_err();
    assert_eq!(e.code(), 3);
    let e = c
        .apply_poll_response("CometChannel.scriptCallback({\"new_offset\": 9});")
        .unwrap_err();
    assert_eq!(e.code(), 3);
    assert_eq!(c.offset, 7);
}

#[test]
fn wrapper_boundaries() {
    // The bare wrapper holds an empty payload: the pattern is present but
    // its inside is not JSON.
    let e = PlurkComet::query("CometChannel.scriptCallback();").unwrap_err();
    assert_eq!(e.code(), 3);
    // A body shorter than prefix plus suffix cannot carry the wrapper.
    let e = PlurkComet::query("CometChannel.scriptCallback(").unwrap_err();
    assert_eq!(e.code(), 6);
    // The wrapper must be the whole body, not an embedded fragment.
    let e = PlurkComet::query("xCometChannel.scriptCallback({\"new_offset\": 1, \"data\": 2});")
        .unwrap_err();
    assert_eq!(e.code(), 6);
}

#[test]
fn query_unwraps_the_literal_pattern() {
    let v = PlurkComet::query("CometChannel.scriptCallback({\"new_offset\": 3, \"data\": null});")
        .unwrap();
    let expected =
        serde_json::from_str::<serde_json::Value>("{\"new_offset\": 3, \"data\": null}").unwrap();
    assert_eq!(v, expected);
}

#[test]
fn bootstrap_url_without_required_fields_is_a_config_error() {
    assert_eq!(PlurkComet::new("https://x/comet").unwrap_err().code(), 7);
    assert_eq!(PlurkComet::new("https://x/comet?offset=0").unwrap_err().code(), 7);
    assert_eq!(PlurkComet::new("https://x/comet?channel=a").unwrap_err().code(), 7);
    assert_eq!(
        PlurkComet::new("https://x/comet?channel=a&offset=abc").unwrap_err().code(),
        7
    );
    assert_eq!(PlurkComet::new("no-scheme?channel=a&offset=0").unwrap_err().code(), 7);
}

#[test]
fn comet_base_replaces_the_last_path_segment() {
    let c = PlurkComet::new(
        "https://ch.plurk.example/comet2/hello?channel=a&offset=3#frag",
    )
    .unwrap();
    assert_eq!(c.base_url, "https://ch.plurk.example/comet2/comet");
    assert_eq!(c.offset, 3);

    let c = PlurkComet::new("https://host?channel=a&offset=0").unwrap();
    assert_eq!(c.base_url, "https://host/comet");
}

#[test]
fn update_offset_replaces_only_the_offset() {
    let c = PlurkComet::new("https://x/comet?channel=a&offset=5").unwrap();
    let c = c.update_offset(99);
    assert_eq!(c.base_url, "https://x/comet");
    assert_eq!(c.channel, "a");
    assert_eq!(c.offset, 99);
}

#[test]
fn unicode_channel_round_trip() {
    let c = PlurkComet::new("https://x/comet?channel=caf%C3%A9&offset=2").unwrap();
    assert_eq!(c.channel, "caf\u{e9}");
    assert_eq!(c.as_str(), "https://x/comet?channel=caf%C3%A9&offset=2");
}

#[test]
fn poll_url_encodes_the_channel() {
    let c = PlurkComet::new("https://x/comet?channel=a%20b&offset=-1").unwrap();
    assert_eq!(c.channel, "a b");
    assert_eq!(c.offset, -1);
    assert_eq!(c.as_str(), "https://x/comet?channel=a+b&offset=-1");
}

#[test]
fn comet_server_field_extraction() {
    let v = parse_api_response(
        "{\"comet_server\": \"https://x/comet?channel=a&offset=0\", \"channel_name\": \"a\"}",
    )
    .unwrap();
    assert_eq!(comet_server_of(&v).unwrap(), "https://x/comet?channel=a&offset=0");

    let v = parse_api_response("{\"channel_name\": \"a\"}").unwrap();
    assert_eq!(comet_server_of(&v).unwrap_err().code(), 3);

    let v = parse_api_response("{\"comet_server\": 5}").unwrap();
    assert_eq!(comet_server_of(&v).unwrap_err().code(), 3);
}

#[test]
fn api_response_must_be_json() {
    assert!(parse_api_response("{\"ok\": true}").is_ok());
    assert_eq!(parse_api_response("not json").unwrap_err().code(), 3);
}
