use ani_dl::api::TranslationType;
use ani_dl::minter::{
    bucket_ts, build_request, check_capabilities, parse_response, redact_secret, rpc_err,
    transport_kind, Capabilities, InitError, Material, MaterialCache, MaterialProvider,
    NullProvider, PersistedContext, ProviderError, ReplyError, RpcError, RpcResponse, Token,
    Transport, PROTOCOL_VERSION,
};
use ani_dl::recipe::{aa_plaintext, iv_input, sign_aa_req, xor_key, SignError};
use base64::Engine;
use aes_gcm::aead::{Aead, KeyInit};
use sha2::Digest;

fn caps(protocol: u32, levels: Vec<u8>, sources: &[&str]) -> Capabilities {
    Capabilities {
        minter: "m".to_string(),
        protocol,
        levels,
        sources: sources.iter().map(|s| s.to_string()).collect(),
        browser: None,
    }
}

fn material(expires_at: i64, grace_ms: u64) -> Material {
    Material {
        epoch: 1,
        part_b: "p".to_string(),
        mask: "m".to_string(),
        build_id: "b".to_string(),
        referer: "r".to_string(),
        api_base: "a".to_string(),
        cdn_base: "c".to_string(),
        expires_at,
        grace_ms,
    }
}

fn rpc_error(code: &str) -> RpcError {
    RpcError {
        code: code.to_string(),
        message: "m".to_string(),
        retry_after_ms: None,
    }
}

#[test]
fn levels_and_freshness() {
    let c = caps(1, vec![0, 2], &["allanime"]);
    assert!(c.supports_level(2));
    assert!(!c.supports_level(1));
    let m = material(10_000, 1_000);
    assert!(m.is_fresh(8_999));
    assert!(!m.is_fresh(9_000));
}

#[test]
fn rpc_error_kinds() {
    assert!(rpc_error("EXPIRED").is_expired());
    assert!(rpc_error("STALE").is_expired());
    assert!(!rpc_error("INTERNAL").is_expired());
    assert!(rpc_error("LEVEL_UNSUPPORTED").is_level_unsupported());
    assert!(!rpc_error("STALE").is_level_unsupported());
}

#[test]
fn rpc_error_messages() {
    let e = RpcError {
        code: "EXPIRED".to_string(),
        message: "old material".to_string(),
        retry_after_ms: Some(500),
    };
    assert_eq!(rpc_err(e), "EXPIRED: old material (retry after 500ms)");
    assert_eq!(rpc_err(rpc_error("STALE")), "STALE: m");
}

#[test]
fn secrets_are_shortened() {
    assert_eq!(redact_secret("abcdefghijkl"), "abcdefgh… (12 chars)");
    assert_eq!(redact_secret("abc"), "abc… (3 chars)");
    assert_eq!(redact_secret(""), "… (0 chars)");
    assert_eq!(redact_secret("ééééé"), "éééé… (10 chars)");
    // Only the head and the length reach the output.
    assert_eq!(redact_secret("abcdefghSECRET"), redact_secret("abcdefghOTHERS"));
    assert_eq!(redact_secret("éééé-tail"), redact_secret("éééé+rest"));
}

#[test]
fn buckets_are_five_minutes() {
    assert_eq!(bucket_ts(0), 0);
    assert_eq!(bucket_ts(299_999), 0);
    assert_eq!(bucket_ts(300_001), 300_000);
    assert_eq!(bucket_ts(1_700_000_123_456), 1_700_000_100_000);
    assert_eq!(bucket_ts(-1), 0);
    assert_eq!(bucket_ts(-300_001), -300_000);
    assert_eq!(bucket_ts(bucket_ts(1_700_000_123_456)), bucket_ts(1_700_000_123_456));
}

#[test]
fn requests_and_replies() {
    let r = build_request(42, "ping", "{}".to_string());
    assert_eq!((r.id, r.v, r.method.as_str(), r.params.as_str()), (42, PROTOCOL_VERSION, "ping", "{}"));
    let ok = RpcResponse { id: 42, v: 1, result: Some("{\"ok\":true}".to_string()), error: None };
    assert_eq!(parse_response(42, ok).ok().as_deref(), Some("{\"ok\":true}"));
    let other = RpcResponse { id: 41, v: 1, result: None, error: None };
    assert!(matches!(parse_response(42, other), Err(ReplyError::IdMismatch(42, 41))));
    let v2 = RpcResponse { id: 42, v: 2, result: None, error: None };
    assert!(matches!(parse_response(42, v2), Err(ReplyError::ProtocolMismatch(2))));
    let err = RpcResponse { id: 42, v: 1, result: Some("1".to_string()), error: Some(rpc_error("STALE")) };
    match parse_response(42, err) {
        Err(ReplyError::Minter(m)) => assert_eq!(m, "STALE: m"),
        _ => panic!("expected a minter error"),
    }
    let empty = RpcResponse { id: 42, v: 1, result: None, error: None };
    assert!(matches!(parse_response(42, empty), Err(ReplyError::MissingResult)));
}

#[test]
fn capabilities_are_checked() {
    assert_eq!(check_capabilities(&caps(1, vec![], &["x", "allanime"]), "allanime"), Ok(()));
    assert_eq!(check_capabilities(&caps(2, vec![], &["allanime"]), "allanime"), Err(InitError::Protocol(2)));
    assert_eq!(check_capabilities(&caps(1, vec![], &["x"]), "allanime"), Err(InitError::Source));
}

#[test]
fn transports_by_name() {
    assert_eq!(transport_kind(""), Some(Transport::Null));
    assert_eq!(transport_kind("none"), Some(Transport::Null));
    assert_eq!(transport_kind("stdio"), Some(Transport::Stdio));
    assert_eq!(transport_kind("http"), Some(Transport::Http));
    assert_eq!(transport_kind("carrier-pigeon"), None);
}

#[test]
fn cache_reads_back_fresh_material() {
    let mut c = MaterialCache::new();
    assert!(c.get("allanime", 0).is_none());
    c.set("allanime", material(10_000, 1_000));
    assert_eq!(c.get("allanime", 5_000).map(|m| m.expires_at), Some(10_000));
    assert!(c.get("allanime", 9_500).is_none());
    assert!(c.get("other", 5_000).is_none());
    c.set("allanime", material(20_000, 0));
    assert_eq!(c.get("allanime", 15_000).map(|m| m.expires_at), Some(20_000));
    c.set("other", material(30_000, 0));
    c.invalidate("allanime");
    assert!(c.get("allanime", 0).is_none());
    assert_eq!(c.get("other", 0).map(|m| m.expires_at), Some(30_000));
}

#[test]
fn null_provider_is_disabled_but_answers() {
    let p = NullProvider;
    let h = p.hello().ok().unwrap();
    assert_eq!((h.minter.as_str(), h.protocol), ("null", PROTOCOL_VERSION));
    assert!(h.levels.is_empty() && h.sources.is_empty() && h.browser.is_none());
    assert!(matches!(p.material("allanime", false), Err(ProviderError::Disabled)));
    assert!(matches!(p.sign("allanime", "q", None), Err(ProviderError::Disabled)));
    assert!(matches!(p.resolve("allanime", "s", "1", TranslationType::Sub), Err(ProviderError::Disabled)));
    assert!(p.ping().is_ok());
}

#[test]
fn persisted_context_defaults_empty() {
    let c = PersistedContext::default();
    assert!(c.mask.is_empty() && c.build_id.is_empty() && c.updated_at.is_empty());
    let t = Token { aa_req: "x".to_string(), epoch: 1, expires_at: 2 };
    assert_eq!(t.aa_req, "x");
}

fn serde_plaintext(epoch: u64, build_id: &str, qh: &str, ts: i64) -> String {
    let mut m = serde_json::Map::new();
    m.insert("v".to_string(), serde_json::Value::from(1));
    m.insert("ts".to_string(), serde_json::Value::from(ts));
    m.insert("epoch".to_string(), serde_json::Value::from(epoch));
    m.insert("buildId".to_string(), serde_json::Value::from(build_id));
    m.insert("qh".to_string(), serde_json::Value::from(qh));
    serde_json::to_string(&serde_json::Value::Object(m)).unwrap()
}

#[test]
fn plaintext_matches_serde_json() {
    for (e, b, q, t) in [
        (3u64, "build-1", "hash", 1_700_000_000_000i64),
        (0, "quote\"back\\slash", "ctl\u{1}\n\t\u{7f}é", -5),
        (u64::MAX, "", "", i64::MIN),
    ] {
        assert_eq!(aa_plaintext(e, b, q, t), serde_plaintext(e, b, q, t));
    }
    assert_eq!(iv_input(3, "b", "q", -7), "3:b:q:-7");
}

#[test]
fn keys_xor_with_zero_padding() {
    let k = xor_key(&[0xff, 0x0f], &[0x0f]);
    assert_eq!(k.len(), 32);
    assert_eq!(&k[..3], &[0xf0, 0x0f, 0x00]);
}

#[test]
fn signed_tokens_open_with_the_derived_key() {
    let part_b = [0x11u8; 32];
    let mask = [0x22u8; 32];
    let part_b_b64 = base64::engine::general_purpose::STANDARD.encode(part_b);
    let mask_hex = hex::encode(mask);
    let token = sign_aa_req(&format!(" {part_b_b64}\n"), &mask_hex, 5, "bid", "qh", 600_000).unwrap();
    let raw = base64::engine::general_purpose::STANDARD.decode(token).unwrap();
    assert_eq!(raw[0], 1);
    let digest = sha2::Sha256::digest(b"5:bid:qh:600000");
    assert_eq!(&raw[1..13], &digest[..12]);
    let key = [0x33u8; 32];
    let cipher = aes_gcm::Aes256Gcm::new_from_slice(&key).unwrap();
    let plain = cipher
        .decrypt(aes_gcm::Nonce::from_slice(&raw[1..13]), &raw[13..])
        .unwrap();
    assert_eq!(String::from_utf8(plain).unwrap(), serde_plaintext(5, "bid", "qh", 600_000));
}

#[test]
fn signing_reports_bad_inputs() {
    let b64_text = base64::engine::general_purpose::STANDARD.decode("%%%").unwrap_err().to_string();
    assert_eq!(sign_aa_req("%%%", "00", 1, "b", "q", 0), Err(SignError::PartB(b64_text)));
    assert_eq!(
        sign_aa_req("AAAA", "0g", 1, "b", "q", 0),
        Err(SignError::Mask("Invalid character 'g' at position 1".to_string()))
    );
    assert_eq!(
        sign_aa_req("AAAA", "abc", 1, "b", "q", 0),
        Err(SignError::Mask("Odd number of digits".to_string()))
    );
    assert_eq!(
        sign_aa_req("AAAA", "abc", 1, "b", "q", 0).unwrap_err().text(),
        "decoding mask: Odd number of digits"
    );
    assert_eq!(SignError::Encrypt.text(), "AES-GCM encrypt: aead::Error");
}
