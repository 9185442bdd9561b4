use plurk::plurk::{select_encoding, Plurk, AuthDecision, RequestBody};
use plurk::sign::sort_params;

fn demo_creds() -> Plurk {
    Plurk::new(
        "consumer_key",
        "consumer_secret",
        Some("token".to_string()),
        Some("token_secret".to_string()),
    )
}

#[test]
fn signing_is_deterministic() {
    let p = demo_creds();
    let data = vec![("content".to_string(), "hi".to_string())];
    let (u1, h1) =
        p.api_request_header("/APP/Timeline/plurkAdd", &data, "fixednonce", 1234567890).unwrap();
    let (u2, h2) =
        p.api_request_header("/APP/Timeline/plurkAdd", &data, "fixednonce", 1234567890).unwrap();
    assert_eq!(u1, u2);
    assert_eq!(h1, h2);
}

#[test]
fn signed_header_matches_known_vector() {
    // Known-good header for these fixed inputs, produced independently by
    // the oauth1-request crate's own documented example.
    let p = demo_creds();
    let data = vec![
        ("article_id".to_string(), "123456789".to_string()),
        (
            "text".to_string(),
            "A request signed with OAuth & Rust \u{1f980} \u{1f50f}".to_string(),
        ),
    ];
    let (url, header) = p
        .api_request_header(
            "https://example.com/api/v1/comments/create.json",
            &data,
            "Dk-OGluFEQ4f",
            1234567890,
        )
        .unwrap();
    assert_eq!(url, "https://example.com/api/v1/comments/create.json");
    assert_eq!(
        header,
        "OAuth oauth_consumer_key=\"consumer_key\",\
         oauth_nonce=\"Dk-OGluFEQ4f\",\
         oauth_signature_method=\"HMAC-SHA1\",\
         oauth_timestamp=\"1234567890\",\
         oauth_token=\"token\",\
         oauth_signature=\"n%2FrUgos4CFFZbZK8Z8wFR7drU4c%3D\"",
    );
}

#[test]
fn parameter_order_is_canonical() {
    let forward = vec![
        ("oauth_verifier".to_string(), "v".to_string()),
        ("content".to_string(), "hi".to_string()),
    ];
    let backward = vec![
        ("content".to_string(), "hi".to_string()),
        ("oauth_verifier".to_string(), "v".to_string()),
    ];
    let s1 = sort_params(&forward);
    let s2 = sort_params(&backward);
    assert_eq!(s1, s2);
    assert_eq!(s1[0].0, "content");
    assert_eq!(s1[1].0, "oauth_verifier");

    let p = demo_creds();
    let (_, h1) = p.api_request_header("/APP/Timeline/plurkAdd", &forward, "n", 2).unwrap();
    let (_, h2) = p.api_request_header("/APP/Timeline/plurkAdd", &backward, "n", 2).unwrap();
    assert_eq!(h1, h2);
}

#[test]
fn request_and_access_headers_name_their_oauth_fields() {
    let p = demo_creds();
    let h = p.request_token_header("nonce123", 17);
    assert!(h.starts_with("OAuth "));
    assert!(h.contains("oauth_consumer_key=\"consumer_key\""));
    assert!(h.contains("oauth_nonce=\"nonce123\""));
    assert!(h.contains("oauth_signature_method=\"HMAC-SHA1\""));
    assert!(h.contains("oauth_timestamp=\"17\""));
    assert!(h.contains("oauth_signature="));

    let h2 = p.access_token_header("verif", "nonce456", 18);
    assert!(h2.contains("oauth_verifier=\"verif\""));
    assert!(h2.contains("oauth_nonce=\"nonce456\""));
}

#[test]
fn authorization_is_idempotent_for_authorized_credentials() {
    let p = demo_creds();
    assert!(p.is_authed());
    match p.ensure_authorized_step() {
        AuthDecision::Authorized(q) => {
            assert_eq!(q.client, "consumer_key");
            assert_eq!(q.client_secret, "consumer_secret");
            assert_eq!(q.token, "token");
            assert_eq!(q.token_secret, "token_secret");
            assert!(q.authed);
        },
        AuthDecision::NeedsRequestToken(_) => panic!("authorized credentials must pass through"),
    }
}

#[test]
fn unauthorized_credentials_start_the_flow() {
    let p = Plurk::new("ck", "cs", None, None);
    assert!(!p.is_authed());
    match p.ensure_authorized_step() {
        AuthDecision::Authorized(_) => panic!("unauthorized credentials cannot pass through"),
        AuthDecision::NeedsRequestToken(q) => {
            assert_eq!(q.token, "");
            assert_eq!(q.token_secret, "");
        },
    }
}

#[test]
fn credentials_round_trip() {
    let p = Plurk::from_keys(
        "ck".to_string(),
        "cs".to_string(),
        "tk".to_string(),
        "ts".to_string(),
    );
    assert_eq!(p.client, "ck");
    assert_eq!(p.client_secret, "cs");
    assert_eq!(p.token, "tk");
    assert_eq!(p.token_secret, "ts");
    assert!(p.authed);

    let empty = Plurk::from_keys(
        "ck".to_string(),
        "cs".to_string(),
        String::new(),
        String::new(),
    );
    assert!(!empty.authed);

    let half = Plurk::new("ck", "cs", Some(String::new()), Some(String::new()));
    assert!(!half.authed);
}

#[test]
fn auth_url_carries_the_request_token() {
    let p = Plurk::new("ck", "cs", Some("reqtok".to_string()), Some("reqsec".to_string()));
    assert_eq!(
        p.get_auth_url(),
        "https://www.plurk.com/OAuth/authorize?oauth_token=reqtok"
    );
}

#[test]
fn token_response_application() {
    let p = Plurk::new("ck", "cs", None, None);
    let p = p
        .apply_token_response("oauth_token=abc&oauth_token_secret=def", false)
        .unwrap();
    assert_eq!(p.token, "abc");
    assert_eq!(p.token_secret, "def");
    assert!(!p.authed);

    let p = p
        .apply_token_response("oauth_token=ghi&oauth_token_secret=jkl", true)
        .unwrap();
    assert_eq!(p.token, "ghi");
    assert_eq!(p.token_secret, "jkl");
    assert!(p.authed);
    assert_eq!(p.client, "ck");
    assert_eq!(p.client_secret, "cs");
}

#[test]
fn three_legged_flow_transitions() {
    // Unauthorized credentials walk the whole handshake: request token,
    // human-facing authorization URL, verifier exchange, authorized state.
    let p = Plurk::new("ck", "cs", None, None);
    let p = match p.ensure_authorized_step() {
        AuthDecision::NeedsRequestToken(p) => p,
        AuthDecision::Authorized(_) => panic!("fresh credentials cannot be authorized"),
    };
    let h = p.request_token_header("n1", 100);
    assert!(h.contains("oauth_token=\"\""));
    let p = p
        .apply_token_response("oauth_token=reqtok&oauth_token_secret=reqsec", false)
        .unwrap();
    assert!(!p.is_authed());
    assert_eq!(
        p.get_auth_url(),
        "https://www.plurk.com/OAuth/authorize?oauth_token=reqtok"
    );
    let h = p.access_token_header("the-verifier", "n2", 101);
    assert!(h.contains("oauth_verifier=\"the-verifier\""));
    assert!(h.contains("oauth_token=\"reqtok\""));
    let p = p
        .apply_token_response("oauth_token=acctok&oauth_token_secret=accsec", true)
        .unwrap();
    assert!(p.is_authed());
    assert_eq!(p.token, "acctok");
    assert_eq!(p.token_secret, "accsec");
    // Running the flow again is now a no-op.
    match p.ensure_authorized_step() {
        AuthDecision::Authorized(q) => assert_eq!(q.token, "acctok"),
        AuthDecision::NeedsRequestToken(_) => panic!("authorized credentials must pass through"),
    }
}

#[test]
fn token_response_missing_field_is_an_auth_error() {
    let p = Plurk::new("ck", "cs", None, None);
    let e = p.apply_token_response("oauth_token=abc", false).unwrap_err();
    assert_eq!(e.code(), 8);

    let p = Plurk::new("ck", "cs", None, None);
    let e = p.apply_token_response("<html>error</html>", true).unwrap_err();
    assert_eq!(e.code(), 8);
}

#[test]
fn api_paths_resolve_against_the_base_origin() {
    let p = demo_creds();
    let data: Vec<(String, String)> = Vec::new();
    let (url, _) = p.api_request_header("/APP/Users/me", &data, "n", 1).unwrap();
    assert_eq!(url, "https://www.plurk.com/APP/Users/me");
    let (url, _) = p.api_request_header("APP/Users/me", &data, "n", 1).unwrap();
    assert_eq!(url, "https://www.plurk.com/APP/Users/me");
}

#[test]
fn a_path_with_a_query_part_cannot_be_signed() {
    let p = demo_creds();
    let data: Vec<(String, String)> = Vec::new();
    let e = p.api_request_header("/APP/Users/me?x=1", &data, "n", 1).unwrap_err();
    assert_eq!(e.code(), 4);
    let e = p
        .api_request_header("https://example.com/path?q=2", &data, "n", 1)
        .unwrap_err();
    assert_eq!(e.code(), 4);
}

#[test]
fn encoding_selection_policy() {
    assert_eq!(select_encoding(false, false).unwrap(), RequestBody::Empty);
    assert_eq!(select_encoding(true, false).unwrap(), RequestBody::Form);
    assert_eq!(select_encoding(false, true).unwrap(), RequestBody::Multipart);
    let e = select_encoding(true, true).unwrap_err();
    assert_eq!(e.code(), 7);
}
