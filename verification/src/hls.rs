//! HLS: choosing a variant of a master playlist, planning the segment
//! downloads of a media playlist with the AES-128 key and IV of each segment,
//! decrypting segments and putting them back in playlist order.
use vstd::prelude::*;
use crate::text::{
    append_chars, chars_eq, parse_u64, parse_u64_exec, before_first, chars_of, contains, contains_exec, find_exec, find_from,
    lemma_find_from, matches_at, slice_vec, starts_with_exec, string_of,
};
use crate::api::opt_bytes;
use crate::providers::opt_string;
use vstd::utf8::encode_utf8;
use crate::titles::strings_view;
use m3u8_rs::{parse_playlist_res, KeyMethod, Playlist as M3u8};
use cbc::cipher::block_padding::Pkcs7;
use cbc::cipher::{BlockDecryptMut, KeyIvInit};
use crate::scan::{lemma_rfind_char, rfind_char, rfind_char_exec};

verus! {

// ---------------------------------------------------------------------------
// URLs
// ---------------------------------------------------------------------------

/// The directory of a URL: the query dropped, then everything from the last
/// `/` on (empty when there is no `/`).
pub open spec fn base_url_spec(url: Seq<char>) -> Seq<char> {
    let no_query = before_first(url, "?"@);
    match rfind_char(no_query, '/') {
        Some(k) => no_query.subrange(0, k),
        None => Seq::empty(),
    }
}

/// Directory of a playlist URL, against which its relative URIs resolve.
pub fn base_url(url: &str) -> (r: String)
    ensures
        r@ == base_url_spec(url@),
{
    let u = chars_of(url);
    let q = chars_of("?");
    let no_query = match find_exec(&u, &q, 0) {
        Some(k) => {
            proof {
                lemma_find_from(u@, q@, 0);
            }
            slice_vec(&u, 0, k)
        },
        None => slice_vec(&u, 0, u.len()),
    };
    assert(u@.subrange(0, u@.len() as int) =~= u@);
    assert(no_query@ == before_first(url@, "?"@));
    match rfind_char_exec(&no_query, '/') {
        Some(k) => {
            proof {
                lemma_rfind_char(no_query@, '/');
            }
            string_of(&slice_vec(&no_query, 0, k))
        },
        None => String::new(),
    }
}

/// `uri` made absolute against `base`: kept when it has an `http(s)` scheme,
/// put under the scheme and host of `base` when it starts with `/`, and
/// appended to `base` otherwise.
pub open spec fn join_url_spec(base: Seq<char>, uri: Seq<char>) -> Seq<char> {
    if matches_at(uri, "http://"@, 0) || matches_at(uri, "https://"@, 0) {
        uri
    } else if uri.len() > 0 && uri[0] == '/' {
        let rest = uri.subrange(1, uri.len() as int);
        match find_from(base, "://"@, 0) {
            Some(k) => base.subrange(0, k) + "://"@ + before_first(
                base.subrange(k + 3, base.len() as int),
                "/"@,
            ) + "/"@ + rest,
            None => base + "/"@ + rest,
        }
    } else {
        base + "/"@ + uri
    }
}

/// Resolves a playlist URI against the playlist's directory.
pub fn join_url(base: &str, uri: &str) -> (r: String)
    ensures
        r@ == join_url_spec(base@, uri@),
{
    let b = chars_of(base);
    let u = chars_of(uri);
    let http = chars_of("http://");
    let https = chars_of("https://");
    let slash = chars_of("/");
    proof {
        reveal_strlit("/");
    }
    if starts_with_exec(&u, &http) || starts_with_exec(&u, &https) {
        return String::from_str(uri);
    }
    let mut out: Vec<char>;
    if u.len() > 0 && u[0] == '/' {
        let rest = slice_vec(&u, 1, u.len());
        let sep = chars_of("://");
        proof {
            reveal_strlit("://");
        }
        match find_exec(&b, &sep, 0) {
            Some(k) => {
                proof {
                    lemma_find_from(b@, sep@, 0);
                    assert(sep@.len() == 3);
                }
                assert(k + 3 <= b.len());
                let after = slice_vec(&b, k + 3, b.len());
                let host = match find_exec(&after, &slash, 0) {
                    Some(h) => {
                        proof {
                            lemma_find_from(after@, slash@, 0);
                        }
                        slice_vec(&after, 0, h)
                    },
                    None => slice_vec(&after, 0, after.len()),
                };
                assert(after@.subrange(0, after@.len() as int) =~= after@);
                assert(host@ == before_first(b@.subrange(k + 3, b@.len() as int), "/"@));
                out = slice_vec(&b, 0, k);
                append_chars(&mut out, &sep);
                append_chars(&mut out, &host);
                out.push('/');
                append_chars(&mut out, &rest);
                assert(out@ =~= join_url_spec(b@, u@));
            },
            None => {
                out = slice_vec(&b, 0, b.len());
                out.push('/');
                append_chars(&mut out, &rest);
                assert(b@.subrange(0, b@.len() as int) =~= b@);
                assert(out@ =~= join_url_spec(b@, u@));
            },
        }
    } else {
        out = slice_vec(&b, 0, b.len());
        out.push('/');
        append_chars(&mut out, &u);
        assert(b@.subrange(0, b@.len() as int) =~= b@);
        assert(out@ =~= join_url_spec(b@, u@));
    }
    string_of(&out)
}

/// Whether a stream URL is an HLS playlist rather than a progressive file.
pub fn is_hls_url(url: &str) -> (b: bool)
    ensures
        b == contains(url@, ".m3u8"@),
{
    let u = chars_of(url);
    let pat = chars_of(".m3u8");
    contains_exec(&u, &pat)
}

// ---------------------------------------------------------------------------
// Variants of a master playlist
// ---------------------------------------------------------------------------

/// The views of `(height, url)` variant pairs.
pub open spec fn pairs_view(v: Seq<(u64, String)>) -> Seq<(u64, Seq<char>)> {
    v.map_values(|p: (u64, String)| (p.0, p.1@))
}

/// Index of the first pair at or after `k` whose height is below `h` (the
/// length when there is none).
pub open spec fn first_below(s: Seq<(u64, Seq<char>)>, h: u64, k: int) -> int
    decreases s.len() - k,
{
    if k < 0 || k >= s.len() {
        s.len() as int
    } else if s[k].0 < h {
        k
    } else {
        first_below(s, h, k + 1)
    }
}

/// `x` inserted after every pair at least as high, before the first lower one.
pub open spec fn insert_by_height(s: Seq<(u64, Seq<char>)>, x: (u64, Seq<char>)) -> Seq<
    (u64, Seq<char>),
> {
    s.insert(first_below(s, x.0, 0), x)
}

/// The pairs ordered by height, highest first; pairs of equal height keep
/// their order (a stable sort, built by inserting the pairs one by one).
pub open spec fn sorted_by_height(s: Seq<(u64, Seq<char>)>) -> Seq<(u64, Seq<char>)>
    decreases s.len(),
{
    if s.len() == 0 {
        s
    } else {
        insert_by_height(sorted_by_height(s.drop_last()), s.last())
    }
}

/// Variants ordered by height, highest first, ties in playlist order.
pub fn sort_by_height(v: &Vec<(u64, String)>) -> (r: Vec<(u64, String)>)
    ensures
        pairs_view(r@) == sorted_by_height(pairs_view(v@)),
{
    let mut r: Vec<(u64, String)> = Vec::new();
    let mut i: usize = 0;
    assert(pairs_view(v@).subrange(0, 0) =~= Seq::<(u64, Seq<char>)>::empty());
    assert(pairs_view(r@) =~= Seq::<(u64, Seq<char>)>::empty());
    while i < v.len()
        invariant
            i <= v.len(),
            pairs_view(r@) == sorted_by_height(pairs_view(v@).subrange(0, i as int)),
        decreases v.len() - i,
    {
        let h = v[i].0;
        let mut k: usize = 0;
        while k < r.len() && r[k].0 >= h
            invariant
                k <= r.len(),
                first_below(pairs_view(r@), h, 0) == first_below(pairs_view(r@), h, k as int),
            decreases r.len() - k,
        {
            k = k + 1;
        }
        let ghost before = pairs_view(r@);
        let x = (h, v[i].1.clone());
        r.insert(k, x);
        proof {
            let pre = pairs_view(v@).subrange(0, i as int);
            let nxt = pairs_view(v@).subrange(0, i + 1);
            assert(nxt.drop_last() =~= pre);
            assert(nxt.last() == (h, v@[i as int].1@));
            assert(first_below(before, h, 0) == k);
            assert(pairs_view(r@) =~= before.insert(k as int, (h, v@[i as int].1@)));
        }
        i = i + 1;
    }
    assert(pairs_view(v@).subrange(0, v.len() as int) =~= pairs_view(v@));
    r
}

/// Index of the first pair at or after `i` whose height is `want` (`exact`)
/// or is known and at most `want` (not `exact`).
pub open spec fn first_fit(s: Seq<(u64, Seq<char>)>, want: u64, exact: bool, i: int) -> Option<int>
    decreases s.len() - i,
{
    if i < 0 || i >= s.len() {
        None
    } else if (if exact {
        s[i].0 == want
    } else {
        0 < s[i].0 && s[i].0 <= want
    }) {
        Some(i)
    } else {
        first_fit(s, want, exact, i + 1)
    }
}

/// Which of the variants (ordered highest first) a quality string picks:
/// `best` the first, `worst` the last, a number the first of that height,
/// else the first known height below it, else the first.
pub open spec fn pick_variant_index(s: Seq<(u64, Seq<char>)>, quality: Seq<char>) -> int {
    if quality == "best"@ {
        0
    } else if quality == "worst"@ {
        s.len() - 1
    } else {
        match parse_u64(quality) {
            Some(want) => match first_fit(s, want, true, 0) {
                Some(i) => i,
                None => match first_fit(s, want, false, 0) {
                    Some(i) => i,
                    None => 0,
                },
            },
            None => 0,
        }
    }
}

/// Executable [`first_fit`] from the start.
fn first_fit_exec(v: &[(u64, String)], want: u64, exact: bool) -> (r: Option<usize>)
    ensures
        match r {
            Some(i) => first_fit(pairs_view(v@), want, exact, 0) == Some(i as int),
            None => first_fit(pairs_view(v@), want, exact, 0) is None,
        },
{
    let ghost s = pairs_view(v@);
    let mut i: usize = 0;
    while i < v.len()
        invariant
            i <= v.len(),
            s == pairs_view(v@),
            first_fit(s, want, exact, 0) == first_fit(s, want, exact, i as int),
        decreases v.len() - i,
    {
        let h = v[i].0;
        assert(s[i as int].0 == h);
        let fits = if exact {
            h == want
        } else {
            0 < h && h <= want
        };
        if fits {
            return Some(i);
        }
        i = i + 1;
    }
    None
}

/// The URL of the variant a quality string picks, from variants ordered
/// highest first.
pub fn pick_variant(variants: &[(u64, String)], quality: &str) -> (r: String)
    requires
        variants@.len() > 0,
    ensures
        r@ == pairs_view(variants@)[pick_variant_index(pairs_view(variants@), quality@)].1,
{
    let q = chars_of(quality);
    let best = chars_of("best");
    let worst = chars_of("worst");
    let ghost s = pairs_view(variants@);
    let idx: usize = if chars_eq(&q, &best) {
        0
    } else if chars_eq(&q, &worst) {
        variants.len() - 1
    } else {
        match parse_u64_exec(&q) {
            Some(want) => match first_fit_exec(variants, want, true) {
                Some(i) => i,
                None => match first_fit_exec(variants, want, false) {
                    Some(i) => i,
                    None => 0,
                },
            },
            None => 0,
        }
    };
    proof {
        if let Some(want) = parse_u64(quality@) {
            if let Some(i) = first_fit(s, want, true, 0) {
                lemma_first_fit_bound(s, want, true, 0);
            }
            if let Some(i) = first_fit(s, want, false, 0) {
                lemma_first_fit_bound(s, want, false, 0);
            }
        }
    }
    assert(idx as int == pick_variant_index(s, quality@));
    variants[idx].1.clone()
}

/// What `first_fit` finds lies at or after `i` and inside the sequence.
pub proof fn lemma_first_fit_bound(s: Seq<(u64, Seq<char>)>, want: u64, exact: bool, i: int)
    ensures
        first_fit(s, want, exact, i) matches Some(k) ==> i <= k < s.len(),
    decreases s.len() - i,
{
    if 0 <= i < s.len() {
        lemma_first_fit_bound(s, want, exact, i + 1);
    }
}

// ---------------------------------------------------------------------------
// Playlist model
// ---------------------------------------------------------------------------

/// An `#EXT-X-KEY` in force for a segment: whether its METHOD is `AES-128`,
/// its URI, and its IV attribute as written (hex, usually `0x`-prefixed).
pub struct SegmentKey(pub bool, pub Option<String>, pub Option<String>);

/// One media segment.
pub struct Segment {
    pub uri: String,
    /// The `#EXT-X-KEY` given on this segment.
    pub key: Option<SegmentKey>,
    /// The `#EXT-X-MAP` URI, if any.
    pub map_uri: Option<String>,
    /// The `#EXT-X-BYTERANGE` as length and offset, if any.
    pub byte_range: Option<(u64, Option<u64>)>,
}

/// One variant stream of a master playlist: its URI and the height of its
/// RESOLUTION, if given.
pub struct Variant(pub String, pub Option<u64>);

/// A parsed playlist: the variants of a master playlist, or the media
/// sequence number (`#EXT-X-MEDIA-SEQUENCE`) and segments of a media playlist.
pub enum Playlist {
    Master(Vec<Variant>),
    Media(u64, Vec<Segment>),
}

/// The content of a [`SegmentKey`].
pub struct KeyInfo {
    pub aes128: bool,
    pub uri: Option<Seq<char>>,
    pub iv: Option<Seq<char>>,
}

/// The content of a [`Segment`].
pub struct SegmentInfo {
    pub uri: Seq<char>,
    pub key: Option<KeyInfo>,
    pub map_uri: Option<Seq<char>>,
    pub byte_range: Option<(u64, Option<u64>)>,
}

/// The content of a [`Variant`].
pub struct VariantInfo {
    pub uri: Seq<char>,
    pub height: Option<u64>,
}

/// The content of a [`Playlist`].
pub enum PlaylistInfo {
    Master(Seq<VariantInfo>),
    Media(u64, Seq<SegmentInfo>),
}

impl View for SegmentKey {
    type V = KeyInfo;

    open spec fn view(&self) -> KeyInfo {
        KeyInfo { aes128: self.0, uri: opt_string(self.1), iv: opt_string(self.2) }
    }
}

/// The view of an optional key.
pub open spec fn opt_key(k: Option<SegmentKey>) -> Option<KeyInfo> {
    match k {
        Some(k) => Some(k@),
        None => None,
    }
}

impl View for Segment {
    type V = SegmentInfo;

    open spec fn view(&self) -> SegmentInfo {
        SegmentInfo {
            uri: self.uri@,
            key: opt_key(self.key),
            map_uri: opt_string(self.map_uri),
            byte_range: self.byte_range,
        }
    }
}

impl View for Variant {
    type V = VariantInfo;

    open spec fn view(&self) -> VariantInfo {
        VariantInfo { uri: self.0@, height: self.1 }
    }
}

impl View for Playlist {
    type V = PlaylistInfo;

    open spec fn view(&self) -> PlaylistInfo {
        match self {
            Playlist::Master(v) => PlaylistInfo::Master(v@.map_values(|x: Variant| x@)),
            Playlist::Media(n, v) => PlaylistInfo::Media(*n, segments_view(v@)),
        }
    }
}

/// The views of a list of segments.
pub open spec fn segments_view(v: Seq<Segment>) -> Seq<SegmentInfo> {
    v.map_values(|s: Segment| s@)
}

/// The view of an optional playlist.
pub open spec fn opt_playlist(p: Option<Playlist>) -> Option<PlaylistInfo> {
    match p {
        Some(p) => Some(p@),
        None => None,
    }
}

/// What `m3u8_rs::parse_playlist_res` makes of playlist bytes, as far as this
/// library reads it; `None` when it rejects them.
pub uninterp spec fn m3u8_playlist(text: Seq<u8>) -> Option<PlaylistInfo>;

/// Parses playlist bytes with `m3u8_rs::parse_playlist_res`, keeping what the
/// downloader reads of the result.
#[verifier::external_body]
fn parse_m3u8(text: &[u8]) -> (r: Option<Playlist>)
    ensures
        opt_playlist(r) == m3u8_playlist(text@),
{
    match parse_playlist_res(text) {
        Ok(M3u8::MasterPlaylist(m)) => Some(Playlist::Master(m.variants.into_iter()
            .map(|v| Variant(v.uri, v.resolution.map(|r| r.height))).collect())),
        Ok(M3u8::MediaPlaylist(m)) => Some(Playlist::Media(m.media_sequence, m.segments
            .into_iter().map(|s| Segment { uri: s.uri,
                key: s.key.map(|k| SegmentKey(k.method == KeyMethod::AES128, k.uri, k.iv)),
                map_uri: s.map.map(|x| x.uri), byte_range: s.byte_range.map(|b| (b.length, b.offset))
            }).collect())),
        _ => None,
    }
}

// ---------------------------------------------------------------------------
// From playlist to media playlist
// ---------------------------------------------------------------------------

/// Why an HLS download cannot go on.
#[derive(Clone, Copy, PartialEq, Eq, Structural, Debug)]
pub enum HlsError {
    /// The first playlist is not one the parser accepts.
    MasterUnparsable,
    /// The master playlist lists no variant.
    NoVariants,
    /// The media playlist is not one the parser accepts.
    MediaUnparsable,
    /// A media playlist was expected and another master playlist came.
    NotMedia,
    /// fMP4 (`#EXT-X-MAP`) or byte-range segments, which plain concatenation
    /// would corrupt.
    Unsupported,
    /// A segment's AES-128 key URI has no fetched key.
    KeyNotPrefetched,
    /// The fetched key is not 16 bytes long (its length).
    KeyLength(usize),
    /// The IV attribute is not hex.
    BadIv,
    /// The IV is not 16 bytes long.
    IvLength,
    /// AES-128-CBC decryption or its padding failed.
    Decrypt,
}

/// `(height, absolute URL)` of each variant; an unknown height counts as 0.
pub open spec fn variant_pairs(vs: Seq<VariantInfo>, base: Seq<char>) -> Seq<(u64, Seq<char>)> {
    vs.map_values(
        |v: VariantInfo|
            (
                match v.height {
                    Some(h) => h,
                    None => 0,
                },
                join_url_spec(base, v.uri),
            ),
    )
}

/// The media playlist URL to download for a parsed first playlist: the
/// variant the quality picks among the variants ordered highest first, or the
/// URL itself when it already is a media playlist.
pub open spec fn media_url_spec(p: Option<PlaylistInfo>, url: Seq<char>, quality: Seq<char>) -> Result<
    Seq<char>,
    HlsError,
> {
    match p {
        None => Err(HlsError::MasterUnparsable),
        Some(PlaylistInfo::Media(_, _)) => Ok(url),
        Some(PlaylistInfo::Master(vs)) => if vs.len() == 0 {
            Err(HlsError::NoVariants)
        } else {
            let sorted = sorted_by_height(variant_pairs(vs, base_url_spec(url)));
            Ok(sorted[pick_variant_index(sorted, quality)].1)
        },
    }
}

/// `first_below` stays within the sequence.
pub proof fn lemma_first_below_bound(s: Seq<(u64, Seq<char>)>, h: u64, k: int)
    requires
        0 <= k,
    ensures
        k <= first_below(s, h, k) <= s.len() || (k > s.len() && first_below(s, h, k) == s.len()),
    decreases s.len() - k,
{
    if k < s.len() && s[k].0 >= h {
        lemma_first_below_bound(s, h, k + 1);
    }
}

/// Sorting keeps the number of pairs.
pub proof fn lemma_sorted_len(s: Seq<(u64, Seq<char>)>)
    ensures
        sorted_by_height(s).len() == s.len(),
    decreases s.len(),
{
    if s.len() > 0 {
        lemma_sorted_len(s.drop_last());
        lemma_first_below_bound(sorted_by_height(s.drop_last()), s.last().0, 0);
    }
}

/// The view of a result carrying a string.
pub open spec fn result_chars(r: Result<String, HlsError>) -> Result<Seq<char>, HlsError> {
    match r {
        Ok(s) => Ok(s@),
        Err(e) => Err(e),
    }
}

/// The media playlist URL for a parsed first playlist (see [`media_url_spec`]).
pub fn choose_media_url(parsed: &Option<Playlist>, url: &str, quality: &str) -> (r: Result<
    String,
    HlsError,
>)
    ensures
        result_chars(r) == media_url_spec(opt_playlist(*parsed), url@, quality@),
{
    match parsed {
        None => Err(HlsError::MasterUnparsable),
        Some(Playlist::Media(_, _)) => Ok(String::from_str(url)),
        Some(Playlist::Master(vs)) => {
            if vs.len() == 0 {
                return Err(HlsError::NoVariants);
            }
            let base = base_url(url);
            let ghost vv = vs@.map_values(|x: Variant| x@);
            let mut pairs: Vec<(u64, String)> = Vec::new();
            let mut i: usize = 0;
            while i < vs.len()
                invariant
                    i <= vs.len(),
                    vv == vs@.map_values(|x: Variant| x@),
                    pairs_view(pairs@) == variant_pairs(vv, base@).subrange(0, i as int),
                decreases vs.len() - i,
            {
                let h: u64 = match vs[i].1 {
                    Some(h) => h,
                    None => 0,
                };
                let u = join_url(base.as_str(), vs[i].0.as_str());
                let ghost before = pairs_view(pairs@);
                pairs.push((h, u));
                assert(vv[i as int] == vs@[i as int]@);
                assert(pairs_view(pairs@) =~= before.push((h, u@)));
                assert(pairs_view(pairs@) =~= variant_pairs(vv, base@).subrange(0, i + 1));
                i = i + 1;
            }
            assert(variant_pairs(vv, base@).subrange(0, vs.len() as int) =~= variant_pairs(vv, base@));
            let sorted = sort_by_height(&pairs);
            proof {
                lemma_sorted_len(pairs_view(pairs@));
            }
            assert(sorted@.len() == pairs_view(sorted@).len());
            let chosen = pick_variant(sorted.as_slice(), quality);
            Ok(chosen)
        },
    }
}

/// Parses the first playlist and gives the media playlist URL to download.
pub fn resolve_media_playlist(text: &[u8], url: &str, quality: &str) -> (r: Result<
    String,
    HlsError,
>)
    ensures
        result_chars(r) == media_url_spec(m3u8_playlist(text@), url@, quality@),
{
    let parsed = parse_m3u8(text);
    choose_media_url(&parsed, url, quality)
}

/// A segment that plain concatenation cannot handle: fMP4 (`#EXT-X-MAP`) or
/// a byte range.
pub open spec fn unsupported_segment(s: SegmentInfo) -> bool {
    s.map_uri is Some || s.byte_range is Some
}

/// The media sequence number and segments of a parsed media playlist, or why
/// it cannot be downloaded.
pub open spec fn media_spec(p: Option<PlaylistInfo>) -> Result<(u64, Seq<SegmentInfo>), HlsError> {
    match p {
        None => Err(HlsError::MediaUnparsable),
        Some(PlaylistInfo::Master(_)) => Err(HlsError::NotMedia),
        Some(PlaylistInfo::Media(n, segs)) => if exists|i: int|
            0 <= i < segs.len() && unsupported_segment(#[trigger] segs[i]) {
            Err(HlsError::Unsupported)
        } else {
            Ok((n, segs))
        },
    }
}

/// The view of a media check's result.
pub open spec fn media_result(r: Result<(u64, Vec<Segment>), HlsError>) -> Result<
    (u64, Seq<SegmentInfo>),
    HlsError,
> {
    match r {
        Ok((n, v)) => Ok((n, segments_view(v@))),
        Err(e) => Err(e),
    }
}

/// The media playlist a parse gave, refused when it is a master playlist or
/// holds segments that concatenation would corrupt.
pub fn check_media(parsed: Option<Playlist>) -> (r: Result<(u64, Vec<Segment>), HlsError>)
    ensures
        media_result(r) == media_spec(opt_playlist(parsed)),
{
    let ghost whole = opt_playlist(parsed);
    match parsed {
        None => Err(HlsError::MediaUnparsable),
        Some(Playlist::Master(_)) => Err(HlsError::NotMedia),
        Some(Playlist::Media(n, segs)) => {
            let ghost sv = segments_view(segs@);
            let mut i: usize = 0;
            while i < segs.len()
                invariant
                    i <= segs.len(),
                    sv == segments_view(segs@),
                    whole == Some(PlaylistInfo::Media(n, sv)),
                    whole == opt_playlist(parsed),
                    forall|j: int| 0 <= j < i ==> !unsupported_segment(#[trigger] sv[j]),
                decreases segs.len() - i,
            {
                assert(sv[i as int] == segs@[i as int]@);
                if segs[i].map_uri.is_some() || segs[i].byte_range.is_some() {
                    assert(unsupported_segment(sv[i as int]));
                    assert(exists|j: int| 0 <= j < sv.len() && unsupported_segment(#[trigger] sv[j]));
                    return Err(HlsError::Unsupported);
                }
                i = i + 1;
            }
            Ok((n, segs))
        },
    }
}

/// Parses a media playlist and checks that it can be downloaded.
pub fn media_playlist(text: &[u8]) -> (r: Result<(u64, Vec<Segment>), HlsError>)
    ensures
        media_result(r) == media_spec(m3u8_playlist(text@)),
{
    let parsed = parse_m3u8(text);
    check_media(parsed)
}

// ---------------------------------------------------------------------------
// Segment jobs and keys
// ---------------------------------------------------------------------------

/// The key in force for segment `i`: `#EXT-X-KEY` applies to every later
/// segment until the next one.
pub open spec fn key_in_force(segs: Seq<SegmentInfo>, i: int) -> Option<KeyInfo>
    decreases i + 1,
{
    if i < 0 || i >= segs.len() {
        None
    } else if segs[i].key is Some {
        segs[i].key
    } else {
        key_in_force(segs, i - 1)
    }
}

/// One segment to fetch: its position, absolute URL, key in force and media
/// sequence number.
pub struct SegmentJob {
    pub index: usize,
    pub url: String,
    pub key: Option<SegmentKey>,
    pub seq: u64,
}

/// The content of a [`SegmentJob`].
pub struct JobInfo {
    pub index: int,
    pub url: Seq<char>,
    pub key: Option<KeyInfo>,
    pub seq: int,
}

impl View for SegmentJob {
    type V = JobInfo;

    open spec fn view(&self) -> JobInfo {
        JobInfo { index: self.index as int, url: self.url@, key: opt_key(self.key), seq: self.seq as int }
    }
}

/// The job for segment `i` of a media playlist whose first segment has
/// sequence number `first`, with URIs resolved against `base`.
pub open spec fn job_spec(first: u64, segs: Seq<SegmentInfo>, base: Seq<char>, i: int) -> JobInfo {
    JobInfo {
        index: i,
        url: join_url_spec(base, segs[i].uri),
        key: key_in_force(segs, i),
        seq: first + i,
    }
}

fn clone_opt(o: &Option<String>) -> (r: Option<String>)
    ensures
        opt_string(r) == opt_string(*o),
{
    match o {
        Some(s) => Some(s.clone()),
        None => None,
    }
}

fn clone_key(k: &SegmentKey) -> (r: SegmentKey)
    ensures
        r@ == k@,
{
    SegmentKey(k.0, clone_opt(&k.1), clone_opt(&k.2))
}

fn clone_opt_key(k: &Option<SegmentKey>) -> (r: Option<SegmentKey>)
    ensures
        opt_key(r) == opt_key(*k),
{
    match k {
        Some(k) => Some(clone_key(k)),
        None => None,
    }
}

/// One job per segment, in playlist order, each with the key in force.
pub fn plan_segments(first: u64, segments: &Vec<Segment>, seg_base: &str) -> (r: Vec<SegmentJob>)
    requires
        first + segments.len() <= u64::MAX + 1,
    ensures
        r@.len() == segments.len(),
        forall|i: int|
            0 <= i < r@.len() ==> #[trigger] r@[i]@ == job_spec(
                first,
                segments_view(segments@),
                seg_base@,
                i,
            ),
{
    let ghost sv = segments_view(segments@);
    let mut current: Option<SegmentKey> = None;
    let mut jobs: Vec<SegmentJob> = Vec::new();
    let mut i: usize = 0;
    while i < segments.len()
        invariant
            i <= segments.len(),
            first + segments.len() <= u64::MAX + 1,
            sv == segments_view(segments@),
            opt_key(current) == key_in_force(sv, i - 1),
            jobs@.len() == i,
            forall|j: int| 0 <= j < i ==> #[trigger] jobs@[j]@ == job_spec(first, sv, seg_base@, j),
        decreases segments.len() - i,
    {
        let seg = &segments[i];
        assert(sv[i as int] == seg@);
        if seg.key.is_some() {
            current = clone_opt_key(&seg.key);
        }
        assert(opt_key(current) == key_in_force(sv, i as int));
        let job = SegmentJob {
            index: i,
            url: join_url(seg_base, seg.uri.as_str()),
            key: clone_opt_key(&current),
            seq: first + i as u64,
        };
        jobs.push(job);
        i = i + 1;
    }
    jobs
}

/// The AES-128 key URI segment `i` needs, if any.
pub open spec fn key_uri_at(segs: Seq<SegmentInfo>, i: int) -> Option<Seq<char>> {
    match key_in_force(segs, i) {
        Some(k) => if k.aes128 {
            k.uri
        } else {
            None
        },
        None => None,
    }
}

/// The distinct AES-128 key URIs the first `n` segments need, in order of
/// first use.
pub open spec fn keys_to_fetch_spec(segs: Seq<SegmentInfo>, n: int) -> Seq<Seq<char>>
    decreases n,
{
    if n <= 0 {
        Seq::empty()
    } else {
        let prev = keys_to_fetch_spec(segs, n - 1);
        match key_uri_at(segs, n - 1) {
            Some(u) => if prev.contains(u) {
                prev
            } else {
                prev.push(u)
            },
            None => prev,
        }
    }
}

/// Whether `v` holds a string equal to `u`.
fn holds_string(v: &Vec<String>, u: &String) -> (b: bool)
    ensures
        b == strings_view(v@).contains(u@),
{
    let mut i: usize = 0;
    while i < v.len()
        invariant
            i <= v.len(),
            forall|j: int| 0 <= j < i ==> #[trigger] v@[j]@ != u@,
        decreases v.len() - i,
    {
        if v[i] == *u {
            assert(strings_view(v@)[i as int] == u@);
            return true;
        }
        i = i + 1;
    }
    proof {
        if strings_view(v@).contains(u@) {
            let j = choose|j: int| 0 <= j < strings_view(v@).len() && strings_view(v@)[j] == u@;
            assert(v@[j]@ == u@);
        }
    }
    false
}

/// The AES-128 key URIs to fetch before downloading, each once, in order of
/// first use.
pub fn keys_to_fetch(segments: &Vec<Segment>) -> (r: Vec<String>)
    ensures
        strings_view(r@) == keys_to_fetch_spec(segments_view(segments@), segments.len() as int),
{
    let ghost sv = segments_view(segments@);
    let mut current: Option<SegmentKey> = None;
    let mut uris: Vec<String> = Vec::new();
    let mut i: usize = 0;
    while i < segments.len()
        invariant
            i <= segments.len(),
            sv == segments_view(segments@),
            opt_key(current) == key_in_force(sv, i - 1),
            strings_view(uris@) == keys_to_fetch_spec(sv, i as int),
        decreases segments.len() - i,
    {
        let seg = &segments[i];
        assert(sv[i as int] == seg@);
        if seg.key.is_some() {
            current = clone_opt_key(&seg.key);
        }
        assert(opt_key(current) == key_in_force(sv, i as int));
        let ghost before = strings_view(uris@);
        match &current {
            Some(k) => {
                if k.0 {
                    match &k.1 {
                        Some(u) => {
                            if !holds_string(&uris, u) {
                                uris.push(u.clone());
                                assert(strings_view(uris@) =~= before.push(u@));
                            }
                        },
                        None => {},
                    }
                }
            },
            None => {},
        }
        i = i + 1;
    }
    uris
}

// ---------------------------------------------------------------------------
// IVs and decryption
// ---------------------------------------------------------------------------

/// `s` with every leading repetition of `p` removed (`str::trim_start_matches`).
pub open spec fn strip_prefixes(s: Seq<char>, p: Seq<char>) -> Seq<char>
    decreases s.len(),
{
    if p.len() > 0 && matches_at(s, p, 0) {
        strip_prefixes(s.subrange(p.len() as int, s.len() as int), p)
    } else {
        s
    }
}

/// Executable [`strip_prefixes`].
fn strip_prefixes_exec(s: &Vec<char>, p: &Vec<char>) -> (r: Vec<char>)
    ensures
        r@ == strip_prefixes(s@, p@),
{
    let mut start: usize = 0;
    if p.len() == 0 {
        return slice_vec(s, 0, s.len());
    }
    assert(s@.subrange(0, s@.len() as int) =~= s@);
    while p.len() <= s.len() - start && crate::text::matches_at_exec(s, p, start)
        invariant
            p.len() > 0,
            start <= s.len(),
            strip_prefixes(s@, p@) == strip_prefixes(s@.subrange(start as int, s@.len() as int), p@),
        decreases s.len() - start,
    {
        let ghost t = s@.subrange(start as int, s@.len() as int);
        assert(t.subrange(0, p@.len() as int) =~= s@.subrange(start as int, start + p@.len()));
        assert(t.subrange(p@.len() as int, t.len() as int) =~= s@.subrange(
            start + p@.len(),
            s@.len() as int,
        ));
        start = start + p.len();
    }
    proof {
        let t = s@.subrange(start as int, s@.len() as int);
        if matches_at(t, p@, 0) {
            assert(t.subrange(0, p@.len() as int) =~= s@.subrange(start as int, start + p@.len()));
        }
    }
    slice_vec(s, start, s.len())
}

/// Value of an ASCII hex digit.
pub open spec fn hex_value(b: u8) -> Option<u8> {
    if 48 <= b <= 57 {
        Some((b - 48) as u8)
    } else if 65 <= b <= 70 {
        Some((b - 55) as u8)
    } else if 97 <= b <= 102 {
        Some((b - 87) as u8)
    } else {
        None
    }
}

/// What `hex::decode` gives: for an even number of hex digits (either case),
/// one byte per pair, high nibble first; `None` otherwise.
pub open spec fn hex_decode_spec(d: Seq<u8>) -> Option<Seq<u8>> {
    if d.len() % 2 == 0 && forall|i: int| 0 <= i < d.len() ==> #[trigger] hex_value(d[i]) is Some {
        Some(
            Seq::new(
                d.len() / 2,
                |i: int|
                    (hex_value(d[2 * i]).unwrap() * 16 + hex_value(d[2 * i + 1]).unwrap()) as u8,
            ),
        )
    } else {
        None
    }
}

/// The message (`Display`) of the error `hex::decode` reports for `d`.
pub uninterp spec fn hex_decode_error_text(d: Seq<u8>) -> Seq<char>;

/// Decodes hex text with `hex::decode`; a refusal carries the text of the
/// crate's error, which for an odd number of digits is "Odd number of
/// digits".
#[verifier::external_body]
pub(crate) fn hex_decode(data: &[u8]) -> (r: Result<Vec<u8>, String>)
    ensures
        match r {
            Ok(v) => hex_decode_spec(data@) == Some(v@),
            Err(t) => hex_decode_spec(data@) is None && t@ == hex_decode_error_text(data@) && (
            data@.len() % 2 == 1 ==> t@ == "Odd number of digits"@),
        },
{
    match hex::decode(data) {
        Ok(v) => Ok(v),
        Err(e) => Err(format!("{e}")),
    }
}

/// `x` as `n` big-endian bytes (the low `n` bytes of it).
pub open spec fn be_bytes(x: nat, n: nat) -> Seq<u8>
    decreases n,
{
    if n == 0 {
        Seq::empty()
    } else {
        be_bytes(x / 256, (n - 1) as nat).push((x % 256) as u8)
    }
}

/// The IV implied by a media sequence number: eight zero bytes, then the
/// number big-endian.
pub open spec fn sequence_iv(seq: u64) -> Seq<u8> {
    Seq::new(8, |i: int| 0u8) + be_bytes(seq as nat, 8)
}

fn push_be(out: &mut Vec<u8>, x: u64, n: u32)
    ensures
        final(out)@ == old(out)@ + be_bytes(x as nat, n as nat),
    decreases n,
{
    if n > 0 {
        push_be(out, x / 256, n - 1);
        out.push((x % 256) as u8);
        assert(be_bytes(x as nat, n as nat) == be_bytes((x / 256) as nat, (n - 1) as nat).push(
            (x % 256) as u8,
        ));
    } else {
        assert(old(out)@ + be_bytes(x as nat, 0) =~= old(out)@);
    }
}

/// The IV of a segment: the key's IV attribute decoded from hex (after any
/// `0x` or `0X` prefixes), or else derived from the sequence number.
pub open spec fn iv_spec(iv: Option<Seq<char>>, seq: u64) -> Result<Seq<u8>, HlsError> {
    match iv {
        Some(h) => match hex_decode_spec(encode_utf8(strip_prefixes(strip_prefixes(h, "0x"@), "0X"@))) {
            Some(b) => Ok(b),
            None => Err(HlsError::BadIv),
        },
        None => Ok(sequence_iv(seq)),
    }
}

/// The bytes of a result.
pub open spec fn result_bytes(r: Result<Vec<u8>, HlsError>) -> Result<Seq<u8>, HlsError> {
    match r {
        Ok(v) => Ok(v@),
        Err(e) => Err(e),
    }
}

/// The IV a segment decrypts with.
pub fn segment_iv(iv: &Option<String>, seq: u64) -> (r: Result<Vec<u8>, HlsError>)
    ensures
        result_bytes(r) == iv_spec(opt_string(*iv), seq),
{
    match iv {
        Some(h) => {
            let hv = chars_of(h.as_str());
            let p1 = chars_of("0x");
            let p2 = chars_of("0X");
            let t = strip_prefixes_exec(&strip_prefixes_exec(&hv, &p1), &p2);
            let ts = string_of(&t);
            let bytes = ts.as_str().as_bytes();
            assert(bytes@ == encode_utf8(t@));
            match hex_decode(bytes) {
                Ok(b) => Ok(b),
                Err(_) => Err(HlsError::BadIv),
            }
        },
        None => {
            let mut out: Vec<u8> = Vec::new();
            let mut k: usize = 0;
            while k < 8
                invariant
                    k <= 8,
                    out@ == Seq::new(k as nat, |i: int| 0u8),
                decreases 8 - k,
            {
                out.push(0u8);
                k = k + 1;
                assert(out@ =~= Seq::new(k as nat, |i: int| 0u8));
            }
            push_be(&mut out, seq, 8);
            Ok(out)
        },
    }
}

/// What AES-128-CBC decryption with PKCS#7 unpadding (`cbc` over `aes`)
/// yields for a 16-byte key and IV; `None` when the length or the padding is
/// wrong.
pub uninterp spec fn aes128_cbc_pkcs7_decrypt(key: Seq<u8>, iv: Seq<u8>, data: Seq<u8>) -> Option<
    Seq<u8>,
>;

/// What AES-128-CBC encryption with PKCS#7 padding (`cbc::Encryptor` over
/// `aes`, the counterpart of the decryptor) makes of `plain` under a 16-byte
/// key and IV.
pub uninterp spec fn aes128_cbc_pkcs7_encrypt(key: Seq<u8>, iv: Seq<u8>, plain: Seq<u8>) -> Seq<u8>;

/// Decrypts with `cbc::Decryptor<aes::Aes128>` and PKCS#7 unpadding. Bytes
/// encrypted with the same key and IV decrypt back to what was encrypted.
#[verifier::external_body]
fn aes128_cbc_decrypt(key: &[u8], iv: &[u8], data: &[u8]) -> (r: Option<Vec<u8>>)
    requires
        key@.len() == 16,
        iv@.len() == 16,
    ensures
        opt_bytes(r) == aes128_cbc_pkcs7_decrypt(key@, iv@, data@),
        r is None ==> forall|p: Seq<u8>| data@ != #[trigger] aes128_cbc_pkcs7_encrypt(key@, iv@, p),
        r matches Some(v) ==> forall|p: Seq<u8>|
            data@ == #[trigger] aes128_cbc_pkcs7_encrypt(key@, iv@, p) ==> v@ == p,
{
    cbc::Decryptor::<aes::Aes128>::new(key.into(), iv.into()).decrypt_padded_vec_mut::<Pkcs7>(
        data,
    ).ok()
}

/// The views of fetched `(key URI, key bytes)` pairs.
pub open spec fn keys_view(keys: Seq<(String, Vec<u8>)>) -> Seq<(Seq<char>, Seq<u8>)> {
    keys.map_values(|p: (String, Vec<u8>)| (p.0@, p.1@))
}

/// The bytes fetched for a key URI (the first pair with that URI).
pub open spec fn lookup_key(keys: Seq<(Seq<char>, Seq<u8>)>, uri: Seq<char>) -> Option<Seq<u8>>
    decreases keys.len(),
{
    if keys.len() == 0 {
        None
    } else if keys[0].0 == uri {
        Some(keys[0].1)
    } else {
        lookup_key(keys.drop_first(), uri)
    }
}

/// A downloaded segment made ready to concatenate: decrypted when its key in
/// force is AES-128 with a URI, unchanged otherwise.
pub open spec fn decrypt_spec(
    data: Seq<u8>,
    key: Option<KeyInfo>,
    seq: u64,
    keys: Seq<(Seq<char>, Seq<u8>)>,
) -> Result<Seq<u8>, HlsError> {
    match key {
        None => Ok(data),
        Some(k) => if !k.aes128 {
            Ok(data)
        } else {
            match k.uri {
                None => Ok(data),
                Some(u) => match lookup_key(keys, u) {
                    None => Err(HlsError::KeyNotPrefetched),
                    Some(kb) => if kb.len() != 16 {
                        Err(HlsError::KeyLength(kb.len() as usize))
                    } else {
                        match iv_spec(k.iv, seq) {
                            Err(e) => Err(e),
                            Ok(iv) => if iv.len() != 16 {
                                Err(HlsError::IvLength)
                            } else {
                                match aes128_cbc_pkcs7_decrypt(kb, iv, data) {
                                    Some(p) => Ok(p),
                                    None => Err(HlsError::Decrypt),
                                }
                            },
                        }
                    },
                },
            }
        },
    }
}

/// `data` is `plain` encrypted for its segment: the key in force is AES-128
/// with a URI whose fetched key has 16 bytes, the segment's IV has 16 bytes,
/// and `data` is the AES-128-CBC/PKCS#7 encryption of `plain` under them.
pub open spec fn sealed_segment(
    data: Seq<u8>,
    key: Option<KeyInfo>,
    seq: u64,
    keys: Seq<(Seq<char>, Seq<u8>)>,
    plain: Seq<u8>,
) -> bool {
    &&& key matches Some(k)
    &&& k.aes128
    &&& k.uri matches Some(u)
    &&& lookup_key(keys, u) matches Some(kb)
    &&& kb.len() == 16
    &&& iv_spec(k.iv, seq) matches Ok(iv)
    &&& iv.len() == 16
    &&& data == aes128_cbc_pkcs7_encrypt(kb, iv, plain)
}

/// Finds the fetched key for a URI.
fn find_key<'a>(keys: &'a [(String, Vec<u8>)], uri: &String) -> (r: Option<&'a Vec<u8>>)
    ensures
        match r {
            Some(b) => lookup_key(keys_view(keys@), uri@) == Some(b@),
            None => lookup_key(keys_view(keys@), uri@) is None,
        },
{
    let ghost kv = keys_view(keys@);
    let mut i: usize = 0;
    assert(kv.skip(0) =~= kv);
    while i < keys.len()
        invariant
            i <= keys.len(),
            kv == keys_view(keys@),
            lookup_key(kv, uri@) == lookup_key(kv.skip(i as int), uri@),
        decreases keys.len() - i,
    {
        assert(kv.skip(i as int)[0] == kv[i as int]);
        assert(kv.skip(i as int).drop_first() =~= kv.skip(i + 1));
        if keys[i].0 == *uri {
            return Some(&keys[i].1);
        }
        i = i + 1;
    }
    None
}

/// Decrypts a downloaded segment with the key in force for it, if it needs
/// decrypting.
pub fn decrypt_segment(data: Vec<u8>, job: &SegmentJob, keys: &[(String, Vec<u8>)]) -> (r: Result<
    Vec<u8>,
    HlsError,
>)
    ensures
        result_bytes(r) == decrypt_spec(data@, opt_key(job.key), job.seq, keys_view(keys@)),
        forall|plain: Seq<u8>|
            #[trigger] sealed_segment(data@, opt_key(job.key), job.seq, keys_view(keys@), plain) ==> (
            r matches Ok(v) && v@ == plain),
{
    let ghost d = data@;
    let k = match &job.key {
        None => return Ok(data),
        Some(k) => k,
    };
    if !k.0 {
        return Ok(data);
    }
    let u = match &k.1 {
        None => return Ok(data),
        Some(u) => u,
    };
    let kb = match find_key(keys, u) {
        None => return Err(HlsError::KeyNotPrefetched),
        Some(kb) => kb,
    };
    if kb.len() != 16 {
        return Err(HlsError::KeyLength(kb.len()));
    }
    let iv = match segment_iv(&k.2, job.seq) {
        Err(e) => return Err(e),
        Ok(iv) => iv,
    };
    if iv.len() != 16 {
        return Err(HlsError::IvLength);
    }
    let r = match aes128_cbc_decrypt(kb.as_slice(), iv.as_slice(), data.as_slice()) {
        Some(p) => Ok(p),
        None => Err(HlsError::Decrypt),
    };
    proof {
        assert forall|plain: Seq<u8>|
            #[trigger] sealed_segment(d, opt_key(job.key), job.seq, keys_view(keys@), plain) implies (
            r matches Ok(v) && v@ == plain) by {
            assert(d == aes128_cbc_pkcs7_encrypt(kb@, iv@, plain));
        }
    }
    r
}

// ---------------------------------------------------------------------------
// Reassembly, retries, progressive downloads
// ---------------------------------------------------------------------------

/// Downloaded segments, which arrive in any order tagged with their
/// position, put back in playlist order.
pub fn order_segments(parts: Vec<(usize, Vec<u8>)>) -> (r: Vec<Vec<u8>>)
    requires
        forall|i: int| 0 <= i < parts@.len() ==> (#[trigger] parts@[i]).0 < parts@.len(),
        forall|i: int, j: int|
            0 <= i < j < parts@.len() ==> (#[trigger] parts@[i]).0 != (#[trigger] parts@[j]).0,
    ensures
        r@.len() == parts@.len(),
        forall|i: int| 0 <= i < parts@.len() ==> r@[(#[trigger] parts@[i]).0 as int]@ == parts@[i].1@,
{
    let n = parts.len();
    let ghost orig = parts@;
    let mut slots: Vec<Vec<u8>> = Vec::new();
    let mut k: usize = 0;
    while k < n
        invariant
            k <= n,
            slots@.len() == k,
        decreases n - k,
    {
        slots.push(Vec::new());
        k = k + 1;
    }
    let mut rest = parts;
    while rest.len() > 0
        invariant
            n == orig.len(),
            slots@.len() == n,
            rest@.len() <= n,
            rest@ == orig.subrange(0, rest@.len() as int),
            forall|i: int| 0 <= i < orig.len() ==> (#[trigger] orig[i]).0 < n,
            forall|i: int, j: int|
                0 <= i < j < orig.len() ==> (#[trigger] orig[i]).0 != (#[trigger] orig[j]).0,
            forall|i: int|
                rest@.len() <= i < n ==> slots@[(#[trigger] orig[i]).0 as int]@ == orig[i].1@,
        decreases rest.len(),
    {
        let ghost m = rest@.len() - 1;
        let (idx, data) = rest.pop().unwrap();
        assert(orig[m] == (idx, data));
        slots[idx] = data;
        assert forall|i: int| rest@.len() <= i < n implies slots@[(#[trigger] orig[i]).0 as int]@
            == orig[i].1@ by {
            if i != m {
                assert(orig[i].0 != orig[m].0);
            }
        }
    }
    slots
}

/// How long to wait before trying a segment again after attempt `attempt`
/// (counted from 0) failed; `None` once the retries are used up.
pub fn retry_delay_ms(attempt: u32, retries: u32) -> (r: Option<u64>)
    ensures
        r == (if attempt < retries {
            Some((300 * (attempt + 1)) as u64)
        } else {
            None::<u64>
        }),
{
    if attempt < retries {
        Some(300 * (attempt as u64 + 1))
    } else {
        None
    }
}

/// A progressive download stopped short of the announced length.
pub fn download_truncated(total: u64, downloaded: u64) -> (b: bool)
    ensures
        b == (total > 0 && downloaded < total),
{
    total > 0 && downloaded < total
}

} // verus!
