use ani_dl::sidecar::{
    authorized, command_words, episode_resolve_refusal, http_response, http_route, parse_http,
    route, source_name, HeldMaterial, HttpParseError, HttpRoute, Route, SidecarState,
};

fn held(json: &str, part_b: Option<&str>, mask: Option<&str>, epoch: Option<u64>) -> HeldMaterial {
    HeldMaterial {
        json: json.to_string(),
        part_b: part_b.map(String::from),
        mask: mask.map(String::from),
        epoch,
        build_id: Some("bid".to_string()),
        expires_at: Some("1700000000000".to_string()),
    }
}

#[test]
fn http_requests_are_read() {
    let raw = "POST /rpc HTTP/1.1\r\nHost: x\r\nAuthorization:  Bearer abc \r\nAuthorization: Bearer tok\r\n\r\n{\"id\":1}\r\n\r\ntrailer";
    let r = parse_http(raw).ok().unwrap();
    assert_eq!(r.method, "POST");
    assert_eq!(r.path, "/rpc");
    assert_eq!(r.auth.as_deref(), Some("Bearer tok"));
    assert_eq!(r.body, "{\"id\":1}");
    let r = parse_http("GET  /  HTTP/1.1\r\nAuthorization: Bearer a\r\n\r\nAuthorization: Bearer b").ok().unwrap();
    assert_eq!((r.method.as_str(), r.path.as_str()), ("GET", "/"));
    assert_eq!(r.auth.as_deref(), Some("Bearer a"));
    let r = parse_http("GET /x").ok().unwrap();
    assert_eq!((r.auth, r.body.as_str()), (None, ""));
}

#[test]
fn http_requests_need_method_and_path() {
    assert_eq!(parse_http("").err(), Some(HttpParseError::Method));
    assert_eq!(parse_http("   \r\nx").err(), Some(HttpParseError::Method));
    assert_eq!(parse_http("POST\r\n\r\nbody").err(), Some(HttpParseError::Path));
}

#[test]
fn endpoints_and_tokens() {
    assert_eq!(http_route("POST", "/ingest"), HttpRoute::Ingest);
    assert_eq!(http_route("POST", "/rpc"), HttpRoute::Rpc);
    assert_eq!(http_route("GET", "/rpc"), HttpRoute::NotFound);
    assert!(authorized(&Some("Bearer t0k".to_string()), "t0k"));
    assert!(!authorized(&Some("Bearer other".to_string()), "t0k"));
    assert!(!authorized(&None, "t0k"));
    assert_eq!(source_name(&None), "allanime");
    assert_eq!(source_name(&Some("x".to_string())), "x");
}

#[test]
fn http_responses_count_bytes() {
    assert_eq!(
        http_response(200, "{\"ok\":true}"),
        "HTTP/1.1 200 OK\r\nContent-Type: application/json\r\nContent-Length: 11\r\nConnection: close\r\n\r\n{\"ok\":true}"
    );
    assert!(http_response(401, "é").starts_with("HTTP/1.1 401 Unauthorized\r\n"));
    assert!(http_response(401, "é").contains("Content-Length: 2\r\n"));
    assert!(http_response(404, "").starts_with("HTTP/1.1 404 Not Found\r\n"));
}

#[test]
fn methods_are_routed() {
    assert!(matches!(route(1, "hello"), Route::Hello));
    assert!(matches!(route(1, "ping"), Route::Ping));
    assert!(matches!(route(1, "material.get"), Route::MaterialGet));
    assert!(matches!(route(1, "token.sign"), Route::TokenSign));
    assert!(matches!(route(1, "episode.resolve"), Route::EpisodeResolve));
    match route(2, "hello") {
        Route::Refuse(f) => {
            assert_eq!(f.code, "METHOD_NOT_FOUND");
            assert_eq!(f.message, "protocol v2 != v1");
        },
        _ => panic!("expected a refusal"),
    }
    match route(1, "nope") {
        Route::Refuse(f) => assert_eq!(f.message, "unknown method nope"),
        _ => panic!("expected a refusal"),
    }
    let r = episode_resolve_refusal();
    assert_eq!(r.code, "LEVEL_UNSUPPORTED");
}

#[test]
fn material_get_prefers_ingested() {
    let mut st = SidecarState { fixture: Some(held("{\"f\":1}", None, None, None)), ingested: Vec::new() };
    assert_eq!(st.material_get(None, None).ok().as_deref(), Some("{\"f\":1}"));
    st.ingest("allanime", held("{\"i\":1}", None, None, None));
    assert_eq!(st.material_get(None, Some(false)).ok().as_deref(), Some("{\"i\":1}"));
    st.ingest("allanime", held("{\"i\":2}", None, None, None));
    assert_eq!(st.material_get(Some("allanime".to_string()), None).ok().as_deref(), Some("{\"i\":2}"));
    assert_eq!(st.material_get(Some("other".to_string()), None).ok().as_deref(), Some("{\"f\":1}"));
    let forced = st.material_get(None, Some(true)).err().unwrap();
    assert_eq!(forced.code, "BROWSER_UNAVAILABLE");
    let empty = SidecarState { fixture: None, ingested: Vec::new() };
    assert_eq!(empty.material_get(None, None).err().unwrap().code, "BROWSER_UNAVAILABLE");
}

#[test]
fn token_sign_answers() {
    let st = SidecarState {
        fixture: Some(held("{}", Some("AAAA"), Some("00"), Some(9))),
        ingested: Vec::new(),
    };
    let missing = st.token_sign(None, None, None, 0).err().unwrap();
    assert_eq!((missing.code.as_str(), missing.message.as_str()), ("INTERNAL", "missing queryHash"));
    let t = st.token_sign(None, Some("qh".to_string()), Some(600_000), 0).ok().unwrap();
    assert_eq!(t.epoch, 9);
    assert_eq!(t.expires_at.as_deref(), Some("1700000000000"));
    let want = ani_dl::recipe::sign_aa_req("AAAA", "00", 9, "bid", "qh", 600_000).unwrap();
    assert_eq!(t.aa_req, want);
    // Without `ts` the bucket of `now` is used.
    let t2 = st.token_sign(None, Some("qh".to_string()), None, 600_123).ok().unwrap();
    assert_eq!(t2.aa_req, want);
    let none = SidecarState { fixture: None, ingested: Vec::new() };
    assert_eq!(none.token_sign(None, Some("q".to_string()), None, 0).err().unwrap().code, "STALE");
    let bad = SidecarState { fixture: Some(held("{}", Some("%%"), None, None)), ingested: Vec::new() };
    let e = bad.token_sign(None, Some("q".to_string()), None, 0).err().unwrap();
    assert_eq!(e.code, "INTERNAL");
    // The message is the decoder's own.
    let text = base64::Engine::decode(&base64::engine::general_purpose::STANDARD, "%%").unwrap_err().to_string();
    assert_eq!(e.message, text);
    let odd = SidecarState { fixture: Some(held("{}", Some("AAAA"), Some("abc"), None)), ingested: Vec::new() };
    let e2 = odd.token_sign(None, Some("q".to_string()), None, 0).err().unwrap();
    assert_eq!((e2.code.as_str(), e2.message.as_str()), ("INTERNAL", "Odd number of digits"));
}

#[test]
fn command_lines_split_on_whitespace() {
    assert_eq!(command_words("  node  minter.js\t--level 2 "), ["node", "minter.js", "--level", "2"]);
    assert!(command_words("   ").is_empty());
}
