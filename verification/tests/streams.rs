use ani_dl::api::{expand_master_playlist, html_unescape, PlaylistError};
use ani_dl::providers::{parse_quality_height, quality_missing, select_quality, Stream};

fn stream(provider: &str, height: u32) -> Stream {
    Stream {
        height,
        url: format!("https://cdn/{provider}"),
        referer: String::new(),
        provider: provider.to_string(),
        subtitle: None,
    }
}

fn pick(streams: &[Stream], q: &str) -> Option<String> {
    select_quality(streams, q).map(|s| s.provider.clone())
}

#[test]
fn quality_heights() {
    assert_eq!(parse_quality_height("720"), Some(720));
    assert_eq!(parse_quality_height("720p"), Some(720));
    assert_eq!(parse_quality_height(" 1080P "), Some(1080));
    assert_eq!(parse_quality_height("0"), None);
    assert_eq!(parse_quality_height("best"), None);
    assert_eq!(parse_quality_height("p"), None);
}

#[test]
fn quality_selection() {
    let s = vec![stream("a", 480), stream("b", 1080), stream("c", 0), stream("d", 1080), stream("e", 720)];
    assert_eq!(pick(&s, "best").as_deref(), Some("b"));
    assert_eq!(pick(&s, "worst").as_deref(), Some("a"));
    assert_eq!(pick(&s, "720p").as_deref(), Some("e"));
    assert_eq!(pick(&s, "900").as_deref(), Some("e"));
    assert_eq!(pick(&s, "360").as_deref(), Some("b"));
    assert_eq!(pick(&s, "whatever").as_deref(), Some("b"));
    assert_eq!(pick(&[], "best"), None);
    let unknown = vec![stream("x", 0), stream("y", 0)];
    assert_eq!(pick(&unknown, "worst").as_deref(), Some("y"));
}

#[test]
fn missing_quality_is_reported() {
    let s = vec![stream("a", 480), stream("b", 1080)];
    assert!(quality_missing(&s, "360"));
    assert!(!quality_missing(&s, "720"));
    assert!(!quality_missing(&s, "best"));
    assert!(!quality_missing(&s, "junk"));
    assert!(!quality_missing(&[], "360"));
}

#[test]
fn master_playlists_expand_into_streams() {
    let text = "#EXTM3U\r\n#EXT-X-STREAM-INF:BANDWIDTH=1,RESOLUTION=1920x1080\r\nhd/index.m3u8\r\n#EXT-X-I-FRAME-STREAM-INF:RESOLUTION=640x360,URI=\"x\"\r\n#EXT-X-STREAM-INF:BANDWIDTH=1\r\nhttps://o/sd.m3u8\r\n";
    let streams = expand_master_playlist(text, "https://cdn/v/master.m3u8", "https://ref/", Some("en.vtt".to_string())).unwrap();
    assert_eq!(streams.len(), 2);
    assert_eq!((streams[0].height, streams[0].url.as_str()), (1080, "https://cdn/v/hd/index.m3u8"));
    assert_eq!((streams[1].height, streams[1].url.as_str()), (0, "https://o/sd.m3u8"));
    assert_eq!(streams[0].referer, "https://ref/");
    assert_eq!(streams[1].subtitle.as_deref(), Some("en.vtt"));
    assert_eq!(streams[0].provider, "hianime");
}

#[test]
fn playlists_without_variants_are_streams_themselves() {
    let streams = expand_master_playlist("#EXTM3U\n#EXTINF:10,\nseg.ts\n", "https://cdn/m.m3u8", "r", None).unwrap();
    assert_eq!(streams.len(), 1);
    assert_eq!((streams[0].height, streams[0].url.as_str()), (0, "https://cdn/m.m3u8"));
    assert_eq!(expand_master_playlist("<html>", "u", "r", None).err(), Some(PlaylistError::NotM3u8));
}

#[test]
fn entities_are_decoded_in_order() {
    assert_eq!(html_unescape("Tom &amp; Jerry &#039;s &lt;b&gt; &quot;x&quot; &#39;"), "Tom & Jerry 's <b> \"x\" '");
    assert_eq!(html_unescape("&amp;lt;"), "<");
}
