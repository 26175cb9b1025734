use ani_dl::hls::{
    base_url, check_media, decrypt_segment, download_truncated, is_hls_url, join_url,
    keys_to_fetch, media_playlist, order_segments, pick_variant, plan_segments,
    resolve_media_playlist, retry_delay_ms, segment_iv, sort_by_height, HlsError, Playlist,
    SegmentJob, SegmentKey,
};
use cbc::cipher::block_padding::Pkcs7;
use cbc::cipher::{BlockEncryptMut, KeyIvInit};

const MASTER: &str = "#EXTM3U
#EXT-X-STREAM-INF:BANDWIDTH=800000,RESOLUTION=640x360
360/index.m3u8
#EXT-X-STREAM-INF:BANDWIDTH=2800000,RESOLUTION=1280x720
720/index.m3u8
#EXT-X-STREAM-INF:BANDWIDTH=5000000,RESOLUTION=1920x1080
https://other.cdn/1080.m3u8
";

const MEDIA: &str = "#EXTM3U
#EXT-X-VERSION:3
#EXT-X-TARGETDURATION:10
#EXT-X-MEDIA-SEQUENCE:7
#EXTINF:10.0,
seg0.ts
#EXT-X-KEY:METHOD=AES-128,URI=\"key1.bin\"
#EXTINF:10.0,
seg1.ts
#EXTINF:10.0,
/abs/seg2.ts
#EXT-X-KEY:METHOD=AES-128,URI=\"key2.bin\",IV=0x000102030405060708090a0b0c0d0e0f
#EXTINF:10.0,
https://elsewhere/seg3.ts
#EXT-X-KEY:METHOD=AES-128,URI=\"key1.bin\"
#EXTINF:10.0,
seg4.ts
#EXT-X-ENDLIST
";

fn pairs(v: &[(u64, &str)]) -> Vec<(u64, String)> {
    v.iter().map(|(h, u)| (*h, u.to_string())).collect()
}

#[test]
fn base_url_drops_query_and_file() {
    assert_eq!(base_url("https://cdn.x/a/b/master.m3u8?token=1/2"), "https://cdn.x/a/b");
    assert_eq!(base_url("noslash"), "");
}

#[test]
fn join_url_forms() {
    let base = "https://cdn.x/a/b";
    assert_eq!(join_url(base, "https://o/x.ts"), "https://o/x.ts");
    assert_eq!(join_url(base, "http://o/x.ts"), "http://o/x.ts");
    assert_eq!(join_url(base, "/root/x.ts"), "https://cdn.x/root/x.ts");
    assert_eq!(join_url(base, "x.ts"), "https://cdn.x/a/b/x.ts");
    assert_eq!(join_url("local/dir", "/x.ts"), "local/dir/x.ts");
}

#[test]
fn hls_urls_are_recognised() {
    assert!(is_hls_url("https://x/master.m3u8?a=1"));
    assert!(!is_hls_url("https://x/video.mp4"));
}

#[test]
fn variants_sort_highest_first_keeping_ties() {
    let v = pairs(&[(360, "a"), (1080, "b"), (0, "c"), (1080, "d"), (720, "e")]);
    let s = sort_by_height(&v);
    assert_eq!(s, pairs(&[(1080, "b"), (1080, "d"), (720, "e"), (360, "a"), (0, "c")]));
}

#[test]
fn pick_variant_by_quality() {
    let v = pairs(&[(1080, "hd"), (720, "mid"), (360, "low"), (0, "unknown")]);
    assert_eq!(pick_variant(&v, "best"), "hd");
    assert_eq!(pick_variant(&v, "worst"), "unknown");
    assert_eq!(pick_variant(&v, "720"), "mid");
    assert_eq!(pick_variant(&v, "480"), "low");
    assert_eq!(pick_variant(&v, "100"), "hd");
    assert_eq!(pick_variant(&v, "720p"), "hd");
    assert_eq!(pick_variant(&v, "0"), "unknown");
}

#[test]
fn master_playlist_resolves_to_a_variant() {
    let url = "https://cdn.x/v/master.m3u8?t=9";
    let t = MASTER.as_bytes();
    assert_eq!(resolve_media_playlist(t, url, "best").unwrap(), "https://other.cdn/1080.m3u8");
    assert_eq!(resolve_media_playlist(t, url, "worst").unwrap(), "https://cdn.x/v/360/index.m3u8");
    assert_eq!(resolve_media_playlist(t, url, "720").unwrap(), "https://cdn.x/v/720/index.m3u8");
    assert_eq!(resolve_media_playlist(t, url, "480").unwrap(), "https://cdn.x/v/360/index.m3u8");
}

#[test]
fn media_playlist_is_used_as_is() {
    let url = "https://cdn.x/v/index.m3u8";
    assert_eq!(resolve_media_playlist(MEDIA.as_bytes(), url, "best").unwrap(), url);
}

#[test]
fn unparsable_playlists_are_errors() {
    assert_eq!(
        resolve_media_playlist(b"not a playlist", "u", "best"),
        Err(HlsError::MasterUnparsable)
    );
    assert_eq!(media_playlist(b"not a playlist").err(), Some(HlsError::MediaUnparsable));
    assert_eq!(media_playlist(MASTER.as_bytes()).err(), Some(HlsError::NotMedia));
}

#[test]
fn master_without_variants_is_an_error() {
    assert_eq!(
        check_media(Some(Playlist::Master(Vec::new()))).err(),
        Some(HlsError::NotMedia)
    );
    let r = ani_dl::hls::choose_media_url(&Some(Playlist::Master(Vec::new())), "u", "best");
    assert_eq!(r, Err(HlsError::NoVariants));
}

#[test]
fn fmp4_and_byte_ranges_are_refused() {
    let fmp4 = "#EXTM3U
#EXT-X-TARGETDURATION:10
#EXT-X-MAP:URI=\"init.mp4\"
#EXTINF:10.0,
seg0.m4s
";
    assert_eq!(media_playlist(fmp4.as_bytes()).err(), Some(HlsError::Unsupported));
    let ranged = "#EXTM3U
#EXT-X-TARGETDURATION:10
#EXTINF:10.0,
#EXT-X-BYTERANGE:1000@0
all.ts
";
    assert_eq!(media_playlist(ranged.as_bytes()).err(), Some(HlsError::Unsupported));
}

#[test]
fn segment_jobs_carry_sticky_keys_and_sequence_numbers() {
    let (first, segs) = media_playlist(MEDIA.as_bytes()).unwrap();
    assert_eq!(first, 7);
    let jobs = plan_segments(first, &segs, "https://cdn.x/v");
    assert_eq!(jobs.len(), 5);
    let urls: Vec<&str> = jobs.iter().map(|j| j.url.as_str()).collect();
    assert_eq!(
        urls,
        [
            "https://cdn.x/v/seg0.ts",
            "https://cdn.x/v/seg1.ts",
            "https://cdn.x/abs/seg2.ts",
            "https://elsewhere/seg3.ts",
            "https://cdn.x/v/seg4.ts"
        ]
    );
    let seqs: Vec<u64> = jobs.iter().map(|j| j.seq).collect();
    assert_eq!(seqs, [7, 8, 9, 10, 11]);
    let key_uris: Vec<Option<&str>> = jobs
        .iter()
        .map(|j| j.key.as_ref().and_then(|k| k.1.as_deref()))
        .collect();
    assert_eq!(
        key_uris,
        [None, Some("key1.bin"), Some("key1.bin"), Some("key2.bin"), Some("key1.bin")]
    );
    assert_eq!(keys_to_fetch(&segs), ["key1.bin", "key2.bin"]);
}

#[test]
fn iv_from_attribute_or_sequence() {
    let iv = segment_iv(&Some("0x000102030405060708090a0b0c0d0e0f".to_string()), 5).unwrap();
    assert_eq!(iv, (0u8..16).collect::<Vec<u8>>());
    let iv = segment_iv(&Some("0X0A0b".to_string()), 5).unwrap();
    assert_eq!(iv, [10, 11]);
    let iv = segment_iv(&None, 0x0102).unwrap();
    let mut want = vec![0u8; 14];
    want.extend([1, 2]);
    assert_eq!(iv, want);
    assert_eq!(segment_iv(&Some("0xzz".to_string()), 0), Err(HlsError::BadIv));
    assert_eq!(segment_iv(&Some("abc".to_string()), 0), Err(HlsError::BadIv));
}

fn job(key: Option<SegmentKey>, seq: u64) -> SegmentJob {
    SegmentJob {
        index: 0,
        url: "u".to_string(),
        key,
        seq,
    }
}

fn encrypt(key: &[u8], iv: &[u8], pt: &[u8]) -> Vec<u8> {
    cbc::Encryptor::<aes::Aes128>::new(key.into(), iv.into()).encrypt_padded_vec_mut::<Pkcs7>(pt)
}

#[test]
fn segments_decrypt_with_their_key() {
    let key = [7u8; 16];
    let keys = vec![("k.bin".to_string(), key.to_vec())];
    let plain = b"transport stream bytes".to_vec();
    // IV from the sequence number.
    let mut iv = vec![0u8; 15];
    iv.push(9);
    let ct = encrypt(&key, &iv, &plain);
    let j = job(Some(SegmentKey(true, Some("k.bin".to_string()), None)), 9);
    assert_eq!(decrypt_segment(ct.clone(), &j, &keys).unwrap(), plain);
    // Explicit IV.
    let iv2: Vec<u8> = (0u8..16).collect();
    let ct2 = encrypt(&key, &iv2, &plain);
    let j2 = job(
        Some(SegmentKey(
            true,
            Some("k.bin".to_string()),
            Some("0x000102030405060708090a0b0c0d0e0f".to_string()),
        )),
        1,
    );
    assert_eq!(decrypt_segment(ct2, &j2, &keys).unwrap(), plain);
    // A wrong IV breaks the padding or the text.
    let j3 = job(Some(SegmentKey(true, Some("k.bin".to_string()), None)), 10);
    assert_ne!(decrypt_segment(ct, &j3, &keys).ok(), Some(plain));
}

#[test]
fn unencrypted_segments_pass_through_and_errors_are_named() {
    let data = b"abc".to_vec();
    assert_eq!(decrypt_segment(data.clone(), &job(None, 0), &[]).unwrap(), data);
    let sample = job(Some(SegmentKey(false, Some("k".to_string()), None)), 0);
    assert_eq!(decrypt_segment(data.clone(), &sample, &[]).unwrap(), data);
    let no_uri = job(Some(SegmentKey(true, None, None)), 0);
    assert_eq!(decrypt_segment(data.clone(), &no_uri, &[]).unwrap(), data);
    let missing = job(Some(SegmentKey(true, Some("k".to_string()), None)), 0);
    assert_eq!(decrypt_segment(data.clone(), &missing, &[]), Err(HlsError::KeyNotPrefetched));
    let short = vec![("k".to_string(), vec![1u8; 8])];
    assert_eq!(decrypt_segment(data.clone(), &missing, &short), Err(HlsError::KeyLength(8)));
    let keys = vec![("k".to_string(), vec![1u8; 16])];
    let short_iv = job(Some(SegmentKey(true, Some("k".to_string()), Some("0x0102".to_string()))), 0);
    assert_eq!(decrypt_segment(data.clone(), &short_iv, &keys), Err(HlsError::IvLength));
    assert_eq!(decrypt_segment(data, &missing, &keys), Err(HlsError::Decrypt));
}

#[test]
fn segments_are_put_back_in_order() {
    let parts = vec![(2usize, vec![2u8]), (0, vec![0]), (1, vec![1, 1])];
    assert_eq!(order_segments(parts), vec![vec![0u8], vec![1, 1], vec![2]]);
}

#[test]
fn retries_back_off_linearly() {
    assert_eq!(retry_delay_ms(0, 3), Some(300));
    assert_eq!(retry_delay_ms(2, 3), Some(900));
    assert_eq!(retry_delay_ms(3, 3), None);
    assert_eq!(retry_delay_ms(0, 0), None);
}

#[test]
fn truncated_progressive_downloads() {
    assert!(download_truncated(100, 99));
    assert!(!download_truncated(100, 100));
    assert!(!download_truncated(0, 5));
}
