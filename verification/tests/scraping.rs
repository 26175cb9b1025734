use ani_dl::api::{
    check_response, deobfuscate_blob, episode_list_url, extract_embed_blob, find_episode_id,
    is_cloudflare_challenge, origin_referer, parse_embed_config, parse_episode_maps,
    parse_search_results, parse_zoko_embed, search_url, servers_url, show_numeric_id,
    strip_backslashes, BlobError, EmbedError, EmbedFields, FetchError, SubtitleTrack,
    TranslationType,
};

fn embed_fields(json: &str) -> EmbedFields {
    let v: serde_json::Value = serde_json::from_str(json).unwrap();
    EmbedFields {
        src: v.get("src").and_then(|s| s.as_str()).map(String::from),
        subtitles: v.get("subtitles").and_then(|s| s.as_array()).map(|arr| {
            arr.iter()
                .map(|t| SubtitleTrack {
                    default: t.get("default").and_then(|d| d.as_bool()),
                    src: t.get("src").and_then(|s| s.as_str()).map(String::from),
                })
                .collect()
        }),
    }
}

#[test]
fn search_reads_film_name_and_cuts_sidebar() {
    let html = r#"
            <div class="film-detail">
                <h3 class="film-name">
                    <a href="https://hianime.at/sousou-no-frieren-1234"
                        title="Sousou no Frieren">Sousou no Frieren</a>
                </h3>
                <div class="fd-infor"><span class="fdi-item">TV (28 eps)</span></div>
            </div>
            <div id="main-sidebar">
                <div class="film-detail">
                    <h3 class="film-name">
                        <a href="https://hianime.at/junk-1" title="Sidebar Junk">nope</a>
                    </h3>
                </div>
            </div>"#;
    let out = parse_search_results(html);
    assert_eq!(out.len(), 1);
    assert_eq!(out[0].id, "sousou-no-frieren-1234");
    assert_eq!(out[0].name, "Sousou no Frieren");
    assert_eq!(out[0].episodes, 28);
}

#[test]
fn search_unescapes_title_entities() {
    let html = r#"<div class="film-detail">
            <h3 class="film-name">
                <a href="https://hianime.at/fruits-basket-99"
                    title="Fruits Basket &amp; Friends">x</a>
            </h3></div>"#;
    let out = parse_search_results(html);
    assert_eq!(out.len(), 1);
    assert_eq!(out[0].name, "Fruits Basket & Friends");
}

#[test]
fn search_dedupes() {
    let html = r#"
            <div class="film-detail">
                <h3 class="film-name">
                    <a href="https://hianime.at/bocchi-the-rock-7" title="Bocchi the Rock!">a</a>
                </h3>
            </div>
            <div class="film-detail">
                <h3 class="film-name">
                    <a href="https://hianime.at/bocchi-the-rock-7" title="Bocchi the Rock!">a</a>
                </h3>
            </div>"#;
    let out = parse_search_results(html);
    assert_eq!(out.len(), 1);
    assert_eq!(out[0].id, "bocchi-the-rock-7");
}

#[test]
fn episode_maps_require_matching_slug() {
    let html = r#"
            <a class="ep-item" data-number="1" data-id="17575"
               href="https://hianime.at/watch/cyberpunk-edgerunners-1048?ep=17575"></a>
            <a class="ep-item" data-number="6" data-id="99"
               href="https://hianime.at/watch/one-piece-100?ep=99"></a>"#;
    let maps = parse_episode_maps(html, "cyberpunk-edgerunners-1048");
    assert_eq!(maps, vec![(17575, "1".to_string())]);
    assert!(parse_episode_maps(html, "one-piece-1").is_empty());
}

#[test]
fn zoko_embed_picks_requested_mode() {
    let html = r#"
            <div class="server-item" data-type="sub" data-id="4"
                data-server-name="ZokoAnime"
                data-hash="aHR0cHM6Ly96b2tvYW5pbWUudmlkZW8vc3Vi">x</div>
            <div class="server-item" data-type="dub"
                data-server-name="ZokoAnime"
                data-hash="aHR0cHM6Ly96b2tvYW5pbWUudmlkZW8vZHVi">x</div>
            <div class="server-item" data-type="sub"
                data-server-name="HD-1"
                data-hash="aHR0cHM6Ly9tZWdhcGxheS5idXp6L3N1Yg">x</div>"#;
    assert_eq!(
        parse_zoko_embed(html, "sub").as_deref(),
        Some("https://zokoanime.video/sub")
    );
    assert_eq!(
        parse_zoko_embed(html, "dub").as_deref(),
        Some("https://zokoanime.video/dub")
    );
}

#[test]
fn deobfuscate_round_trips_otaku_embed_key() {
    let b64 = "FFYSGRYPX08KERBdBQtAWwQTFEAVAQdLB0IbHgIVEh8QX0sAURBcD1oTHAEDHxxZCQgRR152DRMcBgJJTw8NGRYVFxdZHgoMAAYFQQBDAQoJAhNfQQIVH1cBRwkHAwVYGkVNThUZAEgYQRlHF18VE1VWCR8BXRZXTUoBVRdcHxgERRZCCEIHFkpbAkVNWEMPEEsEGA4RRhcQUAMHBBYoUA==";
    let json = deobfuscate_blob(b64).unwrap();
    let (src, sub) = parse_embed_config(&embed_fields(&json)).unwrap();
    assert_eq!(src, "https://example.com/master.m3u8");
    assert_eq!(sub.as_deref(), Some("https://example.com/en.vtt"));
}

#[test]
fn origin_referer_keeps_scheme_and_host() {
    assert_eq!(
        origin_referer("https://zokoanime.video/stream/mal/1/sub"),
        "https://zokoanime.video/"
    );
}

#[test]
fn cloudflare_challenge_is_recognised() {
    assert!(is_cloudflare_challenge("<title>Just a moment...</title>"));
    assert!(is_cloudflare_challenge("cf-mitigated: challenge"));
    assert!(!is_cloudflare_challenge("<html>Under Maintenance</html>"));
}

// ---------------------------------------------------------------------------
// Further cases
// ---------------------------------------------------------------------------

#[test]
fn translation_type_names() {
    assert_eq!(TranslationType::Sub.as_str(), "sub");
    assert_eq!(TranslationType::Dub.as_str(), "dub");
}

#[test]
fn search_results_have_distinct_slugs() {
    let card = |slug: &str| {
        format!(
            r#"<div class="film-detail"><h3 class="film-name"><a href="https://hianime.at/{slug}" title="T {slug}">x</a></h3></div>"#
        )
    };
    let html = format!("{}{}{}{}", card("a-1"), card("b-2"), card("a-1"), card("c-3"));
    let out = parse_search_results(&html);
    let ids: Vec<&str> = out.iter().map(|s| s.id.as_str()).collect();
    assert_eq!(ids, ["a-1", "b-2", "c-3"]);
}

#[test]
fn deobfuscate_reports_bad_base64_and_bad_utf8() {
    assert_eq!(deobfuscate_blob("!!!!"), Err(BlobError::Base64));
    // "7w" decodes to 0xEF; XOR with 'o' (0x6F) gives 0x80, a lone continuation byte.
    assert_eq!(deobfuscate_blob("7w"), Err(BlobError::NotUtf8));
}

#[test]
fn deobfuscate_undoes_the_embed_xor() {
    // base64 of "otaku" XOR "otaku" is five zero bytes.
    assert_eq!(deobfuscate_blob("AAAAAAA=").unwrap(), "otaku");
}

#[test]
fn embed_config_requires_m3u8_source() {
    let f = embed_fields(r#"{"src":"https://example.com/video.mp4"}"#);
    assert_eq!(parse_embed_config(&f), Err(EmbedError::SrcNotM3u8));
    let f = embed_fields(r#"{"subtitles":[]}"#);
    assert_eq!(parse_embed_config(&f), Err(EmbedError::SrcNotM3u8));
}

#[test]
fn embed_config_tolerates_bad_subtitles() {
    let f = embed_fields(
        r#"{"src":"https://x/m.m3u8","subtitles":[{"default":"yes","src":"a.vtt"},{"default":true,"src":""}]}"#,
    );
    assert_eq!(
        parse_embed_config(&f),
        Ok(("https://x/m.m3u8".to_string(), None))
    );
    let f = embed_fields(
        r#"{"src":"https://x/m.m3u8","subtitles":[{"default":false,"src":"a.vtt"},{"default":true,"src":"b.vtt"}]}"#,
    );
    assert_eq!(
        parse_embed_config(&f),
        Ok(("https://x/m.m3u8".to_string(), Some("b.vtt".to_string())))
    );
}

#[test]
fn origin_referer_without_scheme_is_the_site() {
    assert_eq!(origin_referer("zokoanime.video/x"), "https://hianime.at/");
    assert_eq!(origin_referer("https://host"), "https://host/");
}

#[test]
fn numeric_show_id_is_the_slug_tail() {
    assert_eq!(show_numeric_id("cyberpunk-edgerunners-1048").as_deref(), Some("1048"));
    assert_eq!(show_numeric_id("one-piece-x1"), None);
    assert_eq!(show_numeric_id("123").as_deref(), Some("123"));
}

#[test]
fn response_checks_come_in_order() {
    assert_eq!(check_response(200, "<html>ok</html>"), Ok(()));
    assert_eq!(check_response(503, "<title>Just a moment...</title>"), Err(FetchError::Cloudflare));
    assert_eq!(check_response(404, "gone"), Err(FetchError::Status(404)));
    assert_eq!(check_response(200, "  \n "), Err(FetchError::Empty));
}

#[test]
fn provider_urls() {
    assert_eq!(search_url("  frieren season 2 "), "https://hianime.at/search?keyword=frieren+season+2");
    assert_eq!(
        episode_list_url("cyberpunk-edgerunners-1048").as_deref(),
        Some("https://hianime.at/api/theme/episode/list/1048")
    );
    assert_eq!(episode_list_url("no-number-x"), None);
    assert_eq!(servers_url(17575), "https://hianime.at/api/theme/episode/servers?episodeId=17575");
}

#[test]
fn episode_id_lookup() {
    let maps = vec![(10u64, "1".to_string()), (11, "2".to_string())];
    assert_eq!(find_episode_id(&maps, "2"), Some(11));
    assert_eq!(find_episode_id(&maps, "3"), None);
}

#[test]
fn embed_blob_and_envelope_text() {
    let page = r#"<script>window.__P="QUJD";</script>"#;
    assert_eq!(extract_embed_blob(page).as_deref(), Some("QUJD"));
    assert_eq!(extract_embed_blob("<html></html>"), None);
    assert_eq!(strip_backslashes(r#"<a href=\"x\">"#), r#"<a href="x">"#);
}

#[test]
fn any_text_obfuscated_the_embed_way_comes_back() {
    let key = b"otaku-embed-v1";
    for text in ["", "{\"src\":\"x\"}", "Frieren — 葬送のフリーレン", "a b\tc\n"] {
        let xored: Vec<u8> = text.bytes().enumerate().map(|(i, b)| b ^ key[i % key.len()]).collect();
        let blob = base64::Engine::encode(&base64::engine::general_purpose::STANDARD, &xored);
        assert_eq!(deobfuscate_blob(&blob).unwrap(), text);
        // Padding dropped and whitespace around it do not matter.
        let loose = format!("  {}\n", blob.trim_end_matches('='));
        assert_eq!(deobfuscate_blob(&loose).unwrap(), text);
    }
}
