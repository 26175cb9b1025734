//! Scraping logic for the hianime.at provider: search cards, episode lists,
//! server lists, the obfuscated embed blob and the master playlist.
use vstd::prelude::*;
use crate::scan::{
    first_quoted, first_quoted_exec, lemma_first_quoted_ok, value_ok, ValueKind, is_decimal_digit, digit_run_end, digit_run_end_exec, find_char, lemma_digit_run_end, lemma_rfind_char,
    lemma_space_run_end, rfind_char, rfind_char_exec, space_run_end, space_run_end_exec,
};
use crate::text::{
    append_chars, chars_eq, chars_of, find_exec, find_from, lemma_find_from, matches_at,
    matches_at_exec, parse_digits, parse_u32, replace_all, replace_lit, slice_vec, split_exec,
    split_seq, string_of, before_first, all_ascii_digits, digits_value, lemma_split_nonempty,
    append_str, contains, contains_exec, decimal, push_decimal, starts_with_exec, parse_u64, trim, trim_exec, trim_bounds, is_ascii_digit,
    trim_start, trim_end,
};
use crate::providers::{opt_string, streams_view, Stream, StreamInfo};
use vstd::utf8::{
    decode_utf8, encode_utf8, encode_utf8_decode_utf8, encode_utf8_valid_utf8, is_ascii_chars,
    is_ascii_chars_encode_utf8, valid_utf8,
};
use crate::recipe::{b64_encode_spec, is_b64_text_char, lemma_b64_encode_shape};
use base64::Engine;

verus! {

/// Subtitled or dubbed release.
#[derive(Clone, Copy, PartialEq, Eq, Structural, Debug)]
pub enum TranslationType {
    Sub,
    Dub,
}

/// The mode name the provider uses in its server list.
pub open spec fn mode_name(t: TranslationType) -> Seq<char> {
    match t {
        TranslationType::Sub => "sub"@,
        TranslationType::Dub => "dub"@,
    }
}

impl TranslationType {
    /// `"sub"` or `"dub"`.
    pub fn as_str(self) -> (s: &'static str)
        ensures
            s@ == mode_name(self),
    {
        match self {
            TranslationType::Sub => "sub",
            TranslationType::Dub => "dub",
        }
    }
}

/// One search hit.
#[derive(Clone, Debug)]
pub struct ShowResult {
    /// Slug id, e.g. `cyberpunk-edgerunners-1048`.
    pub id: String,
    pub name: String,
    /// From the search card (`(N eps)`); 0 if the card does not show a count.
    pub episodes: u32,
    /// Not available from search cards; always 0 for now.
    pub year: u32,
}

/// The mathematical content of a [`ShowResult`].
pub struct ShowInfo {
    pub id: Seq<char>,
    pub name: Seq<char>,
    pub episodes: u32,
    pub year: u32,
}

impl View for ShowResult {
    type V = ShowInfo;

    open spec fn view(&self) -> ShowInfo {
        ShowInfo { id: self.id@, name: self.name@, episodes: self.episodes, year: self.year }
    }
}

/// The views of a list of search hits.
pub open spec fn shows_view(v: Seq<ShowResult>) -> Seq<ShowInfo> {
    v.map_values(|r: ShowResult| r@)
}

// ---------------------------------------------------------------------------
// HTML entities
// ---------------------------------------------------------------------------

/// The six entities the search page escapes, decoded in this order.
pub open spec fn html_unescape_spec(s: Seq<char>) -> Seq<char> {
    replace_all(
        replace_all(
            replace_all(
                replace_all(replace_all(replace_all(s, "&#039;"@, "'"@), "&#39;"@, "'"@), "&amp;"@, "&"@),
                "&quot;"@,
                "\""@,
            ),
            "&lt;"@,
            "<"@,
        ),
        "&gt;"@,
        ">"@,
    )
}

/// Decodes `&#039;`, `&#39;`, `&amp;`, `&quot;`, `&lt;` and `&gt;`.
pub fn html_unescape_chars(s: &Vec<char>) -> (r: Vec<char>)
    ensures
        r@ == html_unescape_spec(s@),
{
    proof {
        reveal_strlit("&#039;");
        reveal_strlit("&#39;");
        reveal_strlit("&amp;");
        reveal_strlit("&quot;");
        reveal_strlit("&lt;");
        reveal_strlit("&gt;");
    }
    let a = replace_lit(s, "&#039;", "'");
    let b = replace_lit(&a, "&#39;", "'");
    let c = replace_lit(&b, "&amp;", "&");
    let d = replace_lit(&c, "&quot;", "\"");
    let e = replace_lit(&d, "&lt;", "<");
    replace_lit(&e, "&gt;", ">")
}

/// Decodes the HTML entities that appear in show titles.
pub fn html_unescape(s: &str) -> (r: String)
    ensures
        r@ == html_unescape_spec(s@),
{
    let v = chars_of(s);
    let u = html_unescape_chars(&v);
    string_of(&u)
}

// ---------------------------------------------------------------------------
// Search page
// ---------------------------------------------------------------------------

/// Marker of the "Top 10" sidebar; everything after it is ignored.
pub open spec fn sidebar_marker() -> Seq<char> {
    "id=\"main-sidebar\""@
}

/// Opening of a search card.
pub open spec fn card_marker() -> Seq<char> {
    "<div class=\"film-detail\">"@
}

/// The `(slug, title)` of a card whose film-name heading starts at `p`:
/// `<h3 class="film-name">\s*<a href="[^"]*/([^"/]+)"\s+title="([^"]+)"`.
pub open spec fn film_name_at(s: Seq<char>, p: int) -> Option<(Seq<char>, Seq<char>)> {
    let h3 = "<h3 class=\"film-name\">"@;
    let a = "<a href=\""@;
    let t = "title=\""@;
    if !matches_at(s, h3, p) {
        None
    } else {
        let q = space_run_end(s, p + h3.len());
        if !matches_at(s, a, q) {
            None
        } else {
            let hs = q + a.len();
            match find_from(s, seq!['"'], hs) {
                None => None,
                Some(he) => {
                    let href = s.subrange(hs, he);
                    match rfind_char(href, '/') {
                        None => None,
                        Some(sl) => {
                            let id = href.subrange(sl + 1, href.len() as int);
                            let w = space_run_end(s, he + 1);
                            if id.len() == 0 || w == he + 1 || !matches_at(s, t, w) {
                                None
                            } else {
                                let ts = w + t.len();
                                match find_from(s, seq!['"'], ts) {
                                    None => None,
                                    Some(te) => if te == ts {
                                        None
                                    } else {
                                        Some((id, s.subrange(ts, te)))
                                    },
                                }
                            }
                        },
                    }
                },
            }
        }
    }
}

/// The leftmost film-name heading at or after `p`.
pub open spec fn first_film_name(s: Seq<char>, p: int) -> Option<(Seq<char>, Seq<char>)>
    decreases s.len() + 1 - p,
{
    if p < 0 || p > s.len() {
        None
    } else {
        match film_name_at(s, p) {
            Some(r) => Some(r),
            None => first_film_name(s, p + 1),
        }
    }
}

/// The digits of an episode count `(N eps)` starting at `p`: `\((\d+) eps\)`.
pub open spec fn eps_at(s: Seq<char>, p: int) -> Option<Seq<char>> {
    if 0 <= p < s.len() && s[p] == '(' {
        let e = digit_run_end(s, p + 1);
        if e > p + 1 && matches_at(s, " eps)"@, e) {
            Some(s.subrange(p + 1, e))
        } else {
            None
        }
    } else {
        None
    }
}

/// The leftmost episode count at or after `p`.
pub open spec fn first_eps(s: Seq<char>, p: int) -> Option<Seq<char>>
    decreases s.len() + 1 - p,
{
    if p < 0 || p > s.len() {
        None
    } else {
        match eps_at(s, p) {
            Some(r) => Some(r),
            None => first_eps(s, p + 1),
        }
    }
}

/// The episode count a card shows, 0 when it shows none (or one that does not
/// fit a `u32`).
pub open spec fn card_episodes(card: Seq<char>) -> u32 {
    match first_eps(card, 0) {
        Some(d) => match parse_u32(d) {
            Some(n) => n,
            None => 0,
        },
        None => 0,
    }
}

/// The show a card describes, if its heading can be read.
pub open spec fn card_show(card: Seq<char>) -> Option<ShowInfo> {
    match first_film_name(card, 0) {
        None => None,
        Some((id, title)) => Some(
            ShowInfo { id, name: html_unescape_spec(title), episodes: card_episodes(card), year: 0 },
        ),
    }
}

/// Some hit in `v` has slug `id`.
pub open spec fn has_id(v: Seq<ShowInfo>, id: Seq<char>) -> bool {
    exists|j: int| 0 <= j < v.len() && (#[trigger] v[j]).id == id
}

/// The shows of the cards, in card order, the first card of each slug only.
pub open spec fn collect_shows(cards: Seq<Seq<char>>) -> Seq<ShowInfo>
    decreases cards.len(),
{
    if cards.len() == 0 {
        Seq::empty()
    } else {
        let prev = collect_shows(cards.drop_last());
        match card_show(cards.last()) {
            None => prev,
            Some(sh) => if has_id(prev, sh.id) {
                prev
            } else {
                prev.push(sh)
            },
        }
    }
}

/// The search hits of a search page: cards before the sidebar, one per slug.
pub open spec fn search_results(html: Seq<char>) -> Seq<ShowInfo> {
    collect_shows(split_seq(before_first(html, sidebar_marker()), card_marker()).drop_first())
}

/// Executable [`film_name_at`], giving the bounds of slug and title.
fn film_name_at_exec(s: &Vec<char>, p: usize, h3: &Vec<char>, a: &Vec<char>, t: &Vec<char>) -> (r:
    Option<(usize, usize, usize, usize)>)
    requires
        h3@ == "<h3 class=\"film-name\">"@,
        a@ == "<a href=\""@,
        t@ == "title=\""@,
    ensures
        match r {
            Some((i0, i1, t0, t1)) => i0 <= i1 <= s.len() && t0 <= t1 <= s.len() && film_name_at(
                s@,
                p as int,
            ) == Some((s@.subrange(i0 as int, i1 as int), s@.subrange(t0 as int, t1 as int))),
            None => film_name_at(s@, p as int) is None,
        },
{
    if !matches_at_exec(s, h3, p) {
        return None;
    }
    assert(p + h3.len() <= s.len());
    let q = space_run_end_exec(s, p + h3.len());
    if !matches_at_exec(s, a, q) {
        return None;
    }
    assert(q + a.len() <= s.len());
    let hs = q + a.len();
    let he = match find_char(s, '"', hs) {
        None => return None,
        Some(he) => he,
    };
    proof {
        lemma_find_from(s@, seq!['"'], hs as int);
    }
    let href = slice_vec(s, hs, he);
    let sl = match rfind_char_exec(&href, '/') {
        None => return None,
        Some(sl) => sl,
    };
    proof {
        lemma_rfind_char(href@, '/');
    }
    let i0 = hs + sl + 1;
    let i1 = he;
    assert(href@.subrange(sl + 1, href@.len() as int) =~= s@.subrange(i0 as int, i1 as int));
    if i0 == i1 {
        return None;
    }
    let w = space_run_end_exec(s, he + 1);
    if w == he + 1 || !matches_at_exec(s, t, w) {
        return None;
    }
    assert(w + t.len() <= s.len());
    let ts = w + t.len();
    match find_char(s, '"', ts) {
        None => None,
        Some(te) => {
            proof {
                lemma_find_from(s@, seq!['"'], ts as int);
            }
            if te == ts {
                None
            } else {
                Some((i0, i1, ts, te))
            }
        },
    }
}

/// Executable [`first_film_name`] from the start of `s`.
fn first_film_name_exec(s: &Vec<char>) -> (r: Option<(Vec<char>, Vec<char>)>)
    ensures
        match r {
            Some((id, title)) => first_film_name(s@, 0) == Some((id@, title@)),
            None => first_film_name(s@, 0) is None,
        },
{
    let h3 = chars_of("<h3 class=\"film-name\">");
    let a = chars_of("<a href=\"");
    let t = chars_of("title=\"");
    let mut p: usize = 0;
    loop
        invariant
            p <= s.len(),
            h3@ == "<h3 class=\"film-name\">"@,
            a@ == "<a href=\""@,
            t@ == "title=\""@,
            first_film_name(s@, 0) == first_film_name(s@, p as int),
        decreases s.len() - p,
    {
        match film_name_at_exec(s, p, &h3, &a, &t) {
            Some((i0, i1, t0, t1)) => {
                let id = slice_vec(s, i0, i1);
                let title = slice_vec(s, t0, t1);
                return Some((id, title));
            },
            None => {},
        }
        if p == s.len() {
            assert(first_film_name(s@, p + 1) is None);
            return None;
        }
        p = p + 1;
    }
}

/// Executable [`eps_at`], giving the bounds of the digits.
fn eps_at_exec(s: &Vec<char>, p: usize, tail: &Vec<char>) -> (r: Option<(usize, usize)>)
    requires
        tail@ == " eps)"@,
    ensures
        match r {
            Some((d0, d1)) => d0 == p + 1 && d1 == digit_run_end(s@, p + 1) && d0 < d1 <= s.len()
                && eps_at(s@, p as int) == Some(s@.subrange(d0 as int, d1 as int)),
            None => eps_at(s@, p as int) is None,
        },
{
    if p < s.len() && s[p] == '(' {
        let e = digit_run_end_exec(s, p + 1);
        if e > p + 1 && matches_at_exec(s, tail, e) {
            Some((p + 1, e))
        } else {
            None
        }
    } else {
        None
    }
}

/// The episode count a card shows (0 when none).
fn card_episodes_exec(s: &Vec<char>) -> (n: u32)
    ensures
        n == card_episodes(s@),
{
    let tail = chars_of(" eps)");
    let mut p: usize = 0;
    loop
        invariant
            p <= s.len(),
            tail@ == " eps)"@,
            first_eps(s@, 0) == first_eps(s@, p as int),
        decreases s.len() - p,
    {
        match eps_at_exec(s, p, &tail) {
            Some((d0, d1)) => {
                proof {
                    lemma_digit_run_end(s@, (p + 1) as int);
                    let d = s@.subrange(d0 as int, d1 as int);
                    assert(d[0] == s@[d0 as int]);
                    assert(is_decimal_digit(s@[d0 as int]));
                    assert(d.len() > 0 && d[0] != '+');
                }
                return match parse_digits(s, d0, d1, 0xffff_ffff) {
                    Some(v) => v as u32,
                    None => 0,
                };
            },
            None => {},
        }
        if p == s.len() {
            assert(first_eps(s@, p + 1) is None);
            return 0;
        }
        p = p + 1;
    }
}

/// Pull the shows out of a search page. The "Top 10" sidebar is cut off first,
/// then the page is split on film-detail cards so a neighbouring card cannot
/// donate its title; a slug seen before is skipped.
pub fn parse_search_results(html: &str) -> (r: Vec<ShowResult>)
    ensures
        shows_view(r@) == search_results(html@),
{
    let page = chars_of(html);
    let side = chars_of("id=\"main-sidebar\"");
    let card = chars_of("<div class=\"film-detail\">");
    proof {
        reveal_strlit("<div class=\"film-detail\">");
    }
    let main = match find_exec(&page, &side, 0) {
        Some(k) => {
            proof {
                lemma_find_from(page@, side@, 0);
            }
            slice_vec(&page, 0, k)
        },
        None => slice_vec(&page, 0, page.len()),
    };
    assert(page@.subrange(0, page@.len() as int) =~= page@);
    assert(main@ == before_first(html@, sidebar_marker()));
    let pieces = split_exec(&main, &card);
    proof {
        lemma_split_nonempty(main@, card@);
    }
    let ghost cards = split_seq(main@, card@).drop_first();
    let mut out: Vec<ShowResult> = Vec::new();
    let mut ids: Vec<Vec<char>> = Vec::new();
    let mut i: usize = 1;
    assert(cards.take(0) =~= Seq::<Seq<char>>::empty());
    while i < pieces.len()
        invariant
            1 <= i <= pieces.len(),
            pieces@.len() == split_seq(main@, card@).len(),
            forall|j: int| 0 <= j < pieces@.len() ==> #[trigger] pieces@[j]@ == split_seq(
                main@,
                card@,
            )[j],
            cards == split_seq(main@, card@).drop_first(),
            shows_view(out@) == collect_shows(cards.take(i - 1)),
            ids@.len() == out@.len(),
            forall|j: int| 0 <= j < ids@.len() ==> #[trigger] ids@[j]@ == out@[j].id@,
        decreases pieces.len() - i,
    {
        let piece = &pieces[i];
        let ghost prev = cards.take(i - 1);
        assert(cards.take(i as int).drop_last() =~= prev);
        assert(cards.take(i as int).last() == piece@);
        match first_film_name_exec(piece) {
            None => {},
            Some((id, title)) => {
                let mut seen = false;
                let mut j: usize = 0;
                while j < ids.len()
                    invariant
                        j <= ids@.len(),
                        ids@.len() == out@.len(),
                        forall|t: int| 0 <= t < ids@.len() ==> #[trigger] ids@[t]@ == out@[t].id@,
                        seen == exists|t: int| 0 <= t < j && (#[trigger] out@[t]).id@ == id@,
                    decreases ids.len() - j,
                {
                    if chars_eq(&ids[j], &id) {
                        seen = true;
                    }
                    j = j + 1;
                }
                proof {
                    let sv = shows_view(out@);
                    assert(seen == has_id(sv, id@)) by {
                        if seen {
                            let t = choose|t: int| 0 <= t < j && (#[trigger] out@[t]).id@ == id@;
                            assert(sv[t].id == id@);
                        }
                        if has_id(sv, id@) {
                            let t = choose|t: int| 0 <= t < sv.len() && (#[trigger] sv[t]).id == id@;
                            assert(out@[t].id@ == id@);
                        }
                    }
                }
                if !seen {
                    let episodes = card_episodes_exec(piece);
                    let name = html_unescape_chars(&title);
                    let ghost before = out@;
                    out.push(
                        ShowResult { id: string_of(&id), name: string_of(&name), episodes, year: 0 },
                    );
                    ids.push(id);
                    assert(shows_view(out@) =~= shows_view(before).push(out@.last()@));
                }
            },
        }
        i = i + 1;
    }
    assert(cards.take(pieces.len() - 1) =~= cards);
    out
}

// ---------------------------------------------------------------------------
// Episode list
// ---------------------------------------------------------------------------

/// The `(episode id, episode number)` of one `ep-item` fragment, when it links
/// to `show_id` and carries both attributes and the id fits a `u64`.
pub open spec fn episode_entry(item: Seq<char>, show_id: Seq<char>) -> Option<(u64, Seq<char>)> {
    let needle = "/watch/"@ + show_id + "?ep="@;
    if !contains(item, needle) {
        None
    } else {
        match first_quoted(item, "data-number=\""@, ValueKind::Any, 0) {
            None => None,
            Some(num) => match first_quoted(item, "data-id=\""@, ValueKind::AsciiDigits, 0) {
                None => None,
                Some(id) => match parse_u64(id) {
                    None => None,
                    Some(n) => Some((n, num)),
                },
            },
        }
    }
}

/// The entries of the fragments, in page order.
pub open spec fn collect_entries(items: Seq<Seq<char>>, show_id: Seq<char>) -> Seq<(u64, Seq<char>)>
    decreases items.len(),
{
    if items.len() == 0 {
        Seq::empty()
    } else {
        let prev = collect_entries(items.drop_last(), show_id);
        match episode_entry(items.last(), show_id) {
            None => prev,
            Some(e) => prev.push(e),
        }
    }
}

/// The episode entries of an episode-list page, in page order.
pub open spec fn episode_maps_spec(html: Seq<char>, show_id: Seq<char>) -> Seq<(u64, Seq<char>)> {
    collect_entries(split_seq(html, "ep-item"@).drop_first(), show_id)
}

/// The views of a list of episode entries.
pub open spec fn entries_view(v: Seq<(u64, String)>) -> Seq<(u64, Seq<char>)> {
    v.map_values(|e: (u64, String)| (e.0, e.1@))
}

/// `(episode_id, episode_number)` pairs for a show slug, in the order the page
/// lists them; only items that link to this slug count.
pub fn parse_episode_maps(html: &str, show_id: &str) -> (r: Vec<(u64, String)>)
    ensures
        entries_view(r@) == episode_maps_spec(html@, show_id@),
{
    let page = chars_of(html);
    let mut needle = chars_of("/watch/");
    append_str(&mut needle, show_id);
    append_str(&mut needle, "?ep=");
    let sep = chars_of("ep-item");
    let num_attr = chars_of("data-number=\"");
    let id_attr = chars_of("data-id=\"");
    proof {
        reveal_strlit("ep-item");
    }
    let pieces = split_exec(&page, &sep);
    proof {
        lemma_split_nonempty(page@, sep@);
    }
    let ghost items = split_seq(page@, sep@).drop_first();
    let mut out: Vec<(u64, String)> = Vec::new();
    let mut i: usize = 1;
    assert(items.take(0) =~= Seq::<Seq<char>>::empty());
    while i < pieces.len()
        invariant
            1 <= i <= pieces.len(),
            pieces@.len() == split_seq(page@, sep@).len(),
            forall|j: int| 0 <= j < pieces@.len() ==> #[trigger] pieces@[j]@ == split_seq(
                page@,
                sep@,
            )[j],
            items == split_seq(page@, sep@).drop_first(),
            needle@ == "/watch/"@ + show_id@ + "?ep="@,
            num_attr@ == "data-number=\""@,
            id_attr@ == "data-id=\""@,
            entries_view(out@) == collect_entries(items.take(i - 1), show_id@),
        decreases pieces.len() - i,
    {
        let item = &pieces[i];
        let ghost prev = items.take(i - 1);
        assert(items.take(i as int).drop_last() =~= prev);
        assert(items.take(i as int).last() == item@);
        let ghost before = out@;
        if contains_exec(item, &needle) {
            match first_quoted_exec(item, &num_attr, ValueKind::Any) {
                None => {},
                Some(num) => match first_quoted_exec(item, &id_attr, ValueKind::AsciiDigits) {
                    None => {},
                    Some(id) => {
                        proof {
                            lemma_first_quoted_ok(item@, id_attr@, ValueKind::AsciiDigits, 0);
                            assert(is_ascii_digit(id@[0]));
                        }
                        match parse_digits(&id, 0, id.len(), 0xffff_ffff_ffff_ffff) {
                            None => {
                                assert(id@.subrange(0, id@.len() as int) =~= id@);
                            },
                            Some(n) => {
                                assert(id@.subrange(0, id@.len() as int) =~= id@);
                                out.push((n, string_of(&num)));
                                assert(entries_view(out@) =~= entries_view(before).push(
                                    (n, num@),
                                ));
                            },
                        }
                    },
                },
            }
        }
        i = i + 1;
    }
    assert(items.take(pieces.len() - 1) =~= items);
    out
}

// ---------------------------------------------------------------------------
// Server list and embed
// ---------------------------------------------------------------------------

/// What `base64::engine::general_purpose::STANDARD.decode` yields for `input`
/// (`None` when the engine rejects it).
pub uninterp spec fn base64_standard_decode(input: Seq<u8>) -> Option<Seq<u8>>;

/// The view of optional bytes.
pub open spec fn opt_bytes(o: Option<Vec<u8>>) -> Option<Seq<u8>> {
    match o {
        Some(v) => Some(v@),
        None => None,
    }
}

/// The message (`Display`) of the error that
/// `base64::engine::general_purpose::STANDARD.decode` reports for `input`.
pub uninterp spec fn base64_decode_error_text(input: Seq<u8>) -> Seq<char>;

/// Decodes standard base64 (`base64` crate, `STANDARD` engine); a refusal
/// carries the text of the crate's error. Text that the same engine encodes
/// decodes back to the bytes it was made from.
#[verifier::external_body]
pub(crate) fn base64_decode(input: &[u8]) -> (r: Result<Vec<u8>, String>)
    ensures
        match r {
            Ok(v) => base64_standard_decode(input@) == Some(v@),
            Err(t) => base64_standard_decode(input@) is None && t@ == base64_decode_error_text(
                input@,
            ),
        },
        r matches Err(_) ==> forall|x: Seq<u8>| input@ != encode_utf8(#[trigger] b64_encode_spec(x)),
        r matches Ok(v) ==> forall|x: Seq<u8>|
            input@ == encode_utf8(#[trigger] b64_encode_spec(x)) ==> v@ == x,
{
    match base64::engine::general_purpose::STANDARD.decode(input) {
        Ok(v) => Ok(v),
        Err(e) => Err(format!("{e}")),
    }
}

/// `b` followed by `=` until its length is a multiple of four.
pub open spec fn pad_base64(b: Seq<u8>) -> Seq<u8> {
    b + Seq::new(((4 - b.len() % 4) % 4) as nat, |i: int| 61u8)
}

/// The bytes base64 text decodes to: trimmed, padded with `=`, then decoded.
pub open spec fn b64_decode_spec(s: Seq<char>) -> Option<Seq<u8>> {
    base64_standard_decode(pad_base64(encode_utf8(trim(s))))
}

/// Standard base64 text is its own trimmed, padded form, and its UTF-8
/// bytes are its characters.
proof fn lemma_b64_text_is_canonical(x: Seq<u8>)
    ensures
        trim(b64_encode_spec(x)) == b64_encode_spec(x),
        pad_base64(encode_utf8(b64_encode_spec(x))) == encode_utf8(b64_encode_spec(x)),
{
    let t = b64_encode_spec(x);
    lemma_b64_encode_shape(x);
    if t.len() > 0 {
        assert(is_b64_text_char(t[0]));
        assert(is_b64_text_char(t[t.len() - 1]));
        assert(trim_start(t) == t);
        assert(trim_end(t) == t);
    } else {
        assert(trim_start(t) == t);
        assert(trim_end(t) == t);
    }
    assert(is_ascii_chars(t));
    is_ascii_chars_encode_utf8(t);
    let b = encode_utf8(t);
    assert(b.len() % 4 == 0);
    assert(pad_base64(b) =~= b);
}

/// `t` followed by `=` until its length is a multiple of four.
pub open spec fn pad_b64_text(t: Seq<char>) -> Seq<char> {
    t + Seq::new(((4 - t.len() % 4) % 4) as nat, |i: int| '=')
}

/// Text that, trimmed and padded, is standard base64: its UTF-8 bytes padded
/// with `=` are the bytes of that base64 text.
proof fn lemma_padded_b64_bytes(t: Seq<char>, x: Seq<u8>)
    requires
        pad_b64_text(t) == b64_encode_spec(x),
    ensures
        pad_base64(encode_utf8(t)) == encode_utf8(b64_encode_spec(x)),
{
    let e = b64_encode_spec(x);
    lemma_b64_encode_shape(x);
    assert forall|i: int| 0 <= i < t.len() implies '\0' <= #[trigger] t[i] <= '\u{7f}' by {
        assert(t[i] == pad_b64_text(t)[i]);
        assert(is_b64_text_char(e[i]));
    }
    assert(is_ascii_chars(t));
    assert forall|i: int| 0 <= i < e.len() implies '\0' <= #[trigger] e[i] <= '\u{7f}' by {
        assert(is_b64_text_char(e[i]));
    }
    assert(is_ascii_chars(e));
    is_ascii_chars_encode_utf8(t);
    is_ascii_chars_encode_utf8(e);
    let b = encode_utf8(t);
    let eb = encode_utf8(e);
    assert(pad_base64(b).len() == eb.len());
    assert forall|i: int| 0 <= i < eb.len() implies #[trigger] pad_base64(b)[i] == eb[i] by {
        if i < t.len() {
            assert(t[i] == e[i]);
            assert(b[i] == t[i] as u8);
            assert(eb[i] == e[i] as u8);
        } else {
            assert(e[i] == pad_b64_text(t)[i]);
            assert(e[i] == '=');
            assert(eb[i] == e[i] as u8);
        }
    }
    assert(pad_base64(b) =~= eb);
}

/// Decodes base64 that may have lost its `=` padding. Text that the
/// standard engine encodes decodes back to its bytes, also with whitespace
/// around it or with its `=` padding dropped.
pub fn b64_decode(s: &str) -> (r: Option<Vec<u8>>)
    ensures
        opt_bytes(r) == b64_decode_spec(s@),
        forall|x: Seq<u8>| s@ == #[trigger] b64_encode_spec(x) ==> opt_bytes(r) == Some(x),
        forall|x: Seq<u8>|
            pad_b64_text(trim(s@)) == #[trigger] b64_encode_spec(x) ==> opt_bytes(r) == Some(x),
{
    let v = chars_of(s);
    let t = trim_exec(&v);
    let st = string_of(&t);
    let bytes = st.as_str().as_bytes();
    let mut padded: Vec<u8> = Vec::new();
    let mut i: usize = 0;
    while i < bytes.len()
        invariant
            i <= bytes@.len(),
            padded@ == bytes@.subrange(0, i as int),
        decreases bytes.len() - i,
    {
        padded.push(bytes[i]);
        i = i + 1;
        assert(padded@ =~= bytes@.subrange(0, i as int));
    }
    assert(bytes@.subrange(0, bytes@.len() as int) =~= bytes@);
    let ghost base = padded@;
    let extra = (4 - padded.len() % 4) % 4;
    let mut k: usize = 0;
    while k < extra
        invariant
            k <= extra,
            extra == (4 - base.len() % 4) % 4,
            padded@ == base + Seq::new(k as nat, |i: int| 61u8),
        decreases extra - k,
    {
        padded.push(61u8);
        k = k + 1;
        assert(padded@ =~= base + Seq::new(k as nat, |i: int| 61u8));
    }
    assert(base == encode_utf8(trim(s@)));
    let r = match base64_decode(padded.as_slice()) {
        Ok(v) => Some(v),
        Err(_) => None,
    };
    proof {
        assert forall|x: Seq<u8>| s@ == #[trigger] b64_encode_spec(x) implies opt_bytes(r) == Some(
            x,
        ) by {
            lemma_b64_text_is_canonical(x);
        }
        assert forall|x: Seq<u8>| pad_b64_text(trim(s@)) == #[trigger] b64_encode_spec(x) implies opt_bytes(r)
            == Some(x) by {
            lemma_padded_b64_bytes(trim(s@), x);
        }
    }
    r
}

/// Decodes UTF-8 (`String::from_utf8`): `None` exactly when the bytes are not
/// valid UTF-8.
#[verifier::external_body]
fn utf8_string(bytes: Vec<u8>) -> (r: Option<String>)
    ensures
        r is Some <==> valid_utf8(bytes@),
        r matches Some(s) ==> s@ == decode_utf8(bytes@),
{
    String::from_utf8(bytes).ok()
}

/// What `parse_zoko_embed` decides for one server item: `None` to move on to
/// the next item, `Some(result)` to stop with `result`.
pub open spec fn server_item_choice(item: Seq<char>, mode: Seq<char>) -> Option<Option<Seq<char>>> {
    let dtype = first_quoted(item, "data-type=\""@, ValueKind::NonEmpty, 0);
    let name = first_quoted(item, "data-server-name=\""@, ValueKind::NonEmpty, 0);
    let hash = first_quoted(item, "data-hash=\""@, ValueKind::NonEmpty, 0);
    if dtype != Some(mode) || name != Some("ZokoAnime"@) {
        None
    } else {
        match hash {
            None => None,
            Some(h) => Some(
                match b64_decode_spec(h) {
                    None => None,
                    Some(b) => if valid_utf8(b) && decode_utf8(b).len() > 0 {
                        Some(decode_utf8(b))
                    } else {
                        None
                    },
                },
            ),
        }
    }
}

/// The decision of the first server item that makes one.
pub open spec fn first_server_choice(items: Seq<Seq<char>>, mode: Seq<char>) -> Option<Seq<char>>
    decreases items.len(),
{
    if items.len() == 0 {
        None
    } else {
        match server_item_choice(items[0], mode) {
            Some(r) => r,
            None => first_server_choice(items.drop_first(), mode),
        }
    }
}

/// The ZokoAnime embed URL of a server-list page for `mode`.
pub open spec fn zoko_embed_spec(html: Seq<char>, mode: Seq<char>) -> Option<Seq<char>> {
    first_server_choice(split_seq(html, "server-item"@).drop_first(), mode)
}

/// The ZokoAnime embed URL for `mode` (`"sub"`/`"dub"`) in a server-list page.
/// Items are read attribute by attribute, so extra `data-*` fields cannot hide
/// the server; the first matching item with a hash decides.
pub fn parse_zoko_embed(html: &str, mode: &str) -> (r: Option<String>)
    ensures
        opt_string(r) == zoko_embed_spec(html@, mode@),
{
    let page = chars_of(html);
    let m = chars_of(mode);
    let sep = chars_of("server-item");
    let type_attr = chars_of("data-type=\"");
    let name_attr = chars_of("data-server-name=\"");
    let hash_attr = chars_of("data-hash=\"");
    let zoko = chars_of("ZokoAnime");
    proof {
        reveal_strlit("server-item");
    }
    let pieces = split_exec(&page, &sep);
    proof {
        lemma_split_nonempty(page@, sep@);
    }
    let ghost items = split_seq(page@, sep@).drop_first();
    let mut i: usize = 1;
    assert(items.skip(0) =~= items);
    while i < pieces.len()
        invariant
            1 <= i <= pieces.len(),
            pieces@.len() == split_seq(page@, sep@).len(),
            forall|j: int| 0 <= j < pieces@.len() ==> #[trigger] pieces@[j]@ == split_seq(
                page@,
                sep@,
            )[j],
            items == split_seq(page@, sep@).drop_first(),
            type_attr@ == "data-type=\""@,
            name_attr@ == "data-server-name=\""@,
            hash_attr@ == "data-hash=\""@,
            zoko@ == "ZokoAnime"@,
            m@ == mode@,
            zoko_embed_spec(html@, mode@) == first_server_choice(items.skip(i - 1), mode@),
            page@ == html@,
        decreases pieces.len() - i,
    {
        let item = &pieces[i];
        let ghost rest = items.skip(i - 1);
        assert(rest[0] == item@);
        assert(rest.drop_first() =~= items.skip(i as int));
        let dtype = first_quoted_exec(item, &type_attr, ValueKind::NonEmpty);
        let name = first_quoted_exec(item, &name_attr, ValueKind::NonEmpty);
        let hash = first_quoted_exec(item, &hash_attr, ValueKind::NonEmpty);
        let type_ok = match &dtype {
            Some(d) => chars_eq(d, &m),
            None => false,
        };
        let name_ok = match &name {
            Some(n) => chars_eq(n, &zoko),
            None => false,
        };
        if type_ok && name_ok {
            match hash {
                None => {},
                Some(h) => {
                    let hs = string_of(&h);
                    let decoded = b64_decode(hs.as_str());
                    return match decoded {
                        None => None,
                        Some(b) => match utf8_string(b) {
                            None => None,
                            Some(u) => if u.as_str().is_empty() {
                                None
                            } else {
                                Some(u)
                            },
                        },
                    };
                },
            }
        }
        i = i + 1;
    }
    assert(items.skip(pieces.len() - 1) =~= Seq::<Seq<char>>::empty());
    None
}

/// Repeating XOR key of the embed's `window.__P` blob (ASCII `otaku-embed-v1`).
pub open spec fn embed_xor_key() -> Seq<u8> {
    seq![111u8, 116u8, 97u8, 107u8, 117u8, 45u8, 101u8, 109u8, 98u8, 101u8, 100u8, 45u8, 118u8, 49u8]
}

/// `raw` XORed with the repeating embed key.
pub open spec fn xor_embed(raw: Seq<u8>) -> Seq<u8> {
    Seq::new(raw.len(), |i: int| raw[i] ^ embed_xor_key()[i % 14])
}

/// Why a blob could not be deobfuscated.
#[derive(Clone, Copy, PartialEq, Eq, Structural, Debug)]
pub enum BlobError {
    /// The blob is not base64.
    Base64,
    /// The deobfuscated bytes are not UTF-8.
    NotUtf8,
}

/// The JSON text hidden in a `window.__P` blob.
pub open spec fn deobfuscate_spec(b64: Seq<char>) -> Result<Seq<char>, BlobError> {
    match b64_decode_spec(b64) {
        None => Err(BlobError::Base64),
        Some(raw) => if valid_utf8(xor_embed(raw)) {
            Ok(decode_utf8(xor_embed(raw)))
        } else {
            Err(BlobError::NotUtf8)
        },
    }
}

fn embed_key_byte(i: usize) -> (b: u8)
    requires
        i < 14,
    ensures
        b == embed_xor_key()[i as int],
{
    let key: [u8; 14] = [111, 116, 97, 107, 117, 45, 101, 109, 98, 101, 100, 45, 118, 49];
    key[i]
}

/// XORs `raw` with the repeating embed key.
pub fn xor_embed_exec(raw: &Vec<u8>) -> (r: Vec<u8>)
    ensures
        r@ == xor_embed(raw@),
{
    let mut out: Vec<u8> = Vec::new();
    let mut i: usize = 0;
    while i < raw.len()
        invariant
            i <= raw.len(),
            out@.len() == i,
            forall|t: int| 0 <= t < i ==> out@[t] == raw@[t] ^ embed_xor_key()[t % 14],
        decreases raw.len() - i,
    {
        let k = embed_key_byte(i % 14);
        out.push(raw[i] ^ k);
        i = i + 1;
    }
    assert(out@ =~= xor_embed(raw@));
    out
}

/// Applying the embed XOR twice gives the bytes back.
pub proof fn lemma_xor_embed_involution(raw: Seq<u8>)
    ensures
        xor_embed(xor_embed(raw)) == raw,
{
    assert forall|i: int| 0 <= i < raw.len() implies #[trigger] xor_embed(xor_embed(raw))[i]
        == raw[i] by {
        let a = raw[i];
        let k = embed_xor_key()[i % 14];
        assert((a ^ k) ^ k == a) by (bit_vector);
    }
    assert(xor_embed(xor_embed(raw)) =~= raw);
}

/// Decode the `window.__P` blob of the ZokoAnime embed: base64, then a
/// repeating XOR with `otaku-embed-v1`, then UTF-8.
pub fn deobfuscate_blob(b64: &str) -> (r: Result<String, BlobError>)
    ensures
        match r {
            Ok(s) => deobfuscate_spec(b64@) == Ok::<Seq<char>, BlobError>(s@),
            Err(e) => deobfuscate_spec(b64@) == Err::<Seq<char>, BlobError>(e),
        },
        forall|text: Seq<char>|
            b64@ == #[trigger] b64_encode_spec(xor_embed(encode_utf8(text))) ==> (r matches Ok(s)
                && s@ == text),
        forall|text: Seq<char>|
            pad_b64_text(trim(b64@)) == #[trigger] b64_encode_spec(xor_embed(encode_utf8(text)))
                ==> (r matches Ok(s) && s@ == text),
{
    let raw = match b64_decode(b64) {
        None => return Err(BlobError::Base64),
        Some(raw) => raw,
    };
    let ghost raw_v = raw@;
    let x = xor_embed_exec(&raw);
    let r = match utf8_string(x) {
        None => Err(BlobError::NotUtf8),
        Some(s) => Ok(s),
    };
    proof {
        assert forall|text: Seq<char>|
            b64@ == #[trigger] b64_encode_spec(xor_embed(encode_utf8(text))) implies (r matches Ok(s)
                && s@ == text) by {
            assert(raw_v == xor_embed(encode_utf8(text)));
            lemma_xor_embed_involution(encode_utf8(text));
            encode_utf8_valid_utf8(text);
            encode_utf8_decode_utf8(text);
        }
        assert forall|text: Seq<char>|
            pad_b64_text(trim(b64@)) == #[trigger] b64_encode_spec(xor_embed(encode_utf8(text)))
                implies (r matches Ok(s) && s@ == text) by {
            assert(raw_v == xor_embed(encode_utf8(text)));
            lemma_xor_embed_involution(encode_utf8(text));
            encode_utf8_valid_utf8(text);
            encode_utf8_decode_utf8(text);
        }
    }
    r
}

// ---------------------------------------------------------------------------
// Small decisions
// ---------------------------------------------------------------------------

/// Referer used when an embed URL has no scheme.
pub open spec fn hianime_referer() -> Seq<char> {
    "https://hianime.at/"@
}

/// `scheme://host/` of a URL, or the site referer when there is no scheme.
pub open spec fn origin_referer_spec(url: Seq<char>) -> Seq<char> {
    match find_from(url, "://"@, 0) {
        Some(k) => url.subrange(0, k + 3) + before_first(url.subrange(k + 3, url.len() as int), "/"@)
            + "/"@,
        None => hianime_referer(),
    }
}

/// The origin of a URL as a referer: `https://host/`.
pub fn origin_referer(url: &str) -> (r: String)
    ensures
        r@ == origin_referer_spec(url@),
{
    let u = chars_of(url);
    let sep = chars_of("://");
    proof {
        reveal_strlit("://");
    }
    match find_exec(&u, &sep, 0) {
        Some(k) => {
            proof {
                lemma_find_from(u@, sep@, 0);
                assert(sep@.len() == 3);
                assert(k + sep@.len() <= u@.len());
                assert(k + sep.len() <= u.len());
            }
            let start = k + sep.len();
            let after = slice_vec(&u, start, u.len());
            let slash = chars_of("/");
            let host = match find_exec(&after, &slash, 0) {
                Some(h) => {
                    proof {
                        lemma_find_from(after@, slash@, 0);
                    }
                    slice_vec(&after, 0, h)
                },
                None => slice_vec(&after, 0, after.len()),
            };
            assert(after@.subrange(0, after@.len() as int) =~= after@);
            let mut out = slice_vec(&u, 0, start);
            append_chars(&mut out, &host);
            out.push('/');
            proof {
                reveal_strlit("/");
            }
            assert(out@ =~= u@.subrange(0, k + 3) + host@ + "/"@);
            assert(start == k + 3);
            string_of(&out)
        },
        None => {
            let r = String::from_str("https://hianime.at/");
            r
        },
    }
}

/// The page is a Cloudflare interstitial rather than content.
pub open spec fn cloudflare_spec(body: Seq<char>) -> bool {
    contains(body, "<title>Just a moment"@) || contains(body, "cf-mitigated"@)
}

/// Whether a response body is a Cloudflare challenge page.
pub fn is_cloudflare_challenge(body: &str) -> (b: bool)
    ensures
        b == cloudflare_spec(body@),
{
    let s = chars_of(body);
    let a = chars_of("<title>Just a moment");
    let c = chars_of("cf-mitigated");
    contains_exec(&s, &a) || contains_exec(&s, &c)
}

/// The part of a slug after its last `-`, when it is all ASCII digits.
pub open spec fn show_numeric_id_spec(show_id: Seq<char>) -> Option<Seq<char>> {
    let tail = match rfind_char(show_id, '-') {
        Some(k) => show_id.subrange(k + 1, show_id.len() as int),
        None => show_id,
    };
    if all_ascii_digits(tail) {
        Some(tail)
    } else {
        None
    }
}

/// The numeric id at the end of a slug such as `cyberpunk-edgerunners-1048`.
#[verifier::loop_isolation(false)]
pub fn show_numeric_id(show_id: &str) -> (r: Option<String>)
    ensures
        opt_string(r) == show_numeric_id_spec(show_id@),
{
    let s = chars_of(show_id);
    let start = match rfind_char_exec(&s, '-') {
        Some(k) => {
            proof {
                lemma_rfind_char(s@, '-');
            }
            k + 1
        },
        None => 0,
    };
    assert(s@.subrange(0, s@.len() as int) =~= s@);
    let tail = slice_vec(&s, start, s.len());
    let mut i: usize = 0;
    while i < tail.len()
        invariant
            i <= tail@.len(),
            forall|t: int| 0 <= t < i ==> is_ascii_digit(#[trigger] tail@[t]),
        decreases tail.len() - i,
    {
        if !('0' <= tail[i] && tail[i] <= '9') {
            assert(!is_ascii_digit(tail@[i as int]));
            assert(!all_ascii_digits(tail@));
            return None;
        }
        i = i + 1;
    }
    Some(string_of(&tail))
}

/// Why a fetched page is refused, in the order the checks run.
#[derive(Clone, Copy, PartialEq, Eq, Structural, Debug)]
pub enum FetchError {
    /// The body is a Cloudflare interstitial.
    Cloudflare,
    /// The status is not 2xx.
    Status(u16),
    /// The body is empty or only whitespace.
    Empty,
}

/// The verdict on a response: Cloudflare first, then the status, then an
/// empty body.
pub open spec fn check_response_spec(status: u16, body: Seq<char>) -> Result<(), FetchError> {
    if cloudflare_spec(body) {
        Err(FetchError::Cloudflare)
    } else if !(200 <= status <= 299) {
        Err(FetchError::Status(status))
    } else if trim(body).len() == 0 {
        Err(FetchError::Empty)
    } else {
        Ok(())
    }
}

/// Decide whether a fetched page can be used (a transport failure, a non-2xx
/// status, a Cloudflare interstitial and an empty body are distinct errors).
pub fn check_response(status: u16, body: &str) -> (r: Result<(), FetchError>)
    ensures
        r == check_response_spec(status, body@),
{
    if is_cloudflare_challenge(body) {
        return Err(FetchError::Cloudflare);
    }
    if !(200 <= status && status <= 299) {
        return Err(FetchError::Status(status));
    }
    let s = chars_of(body);
    let (a, b) = trim_bounds(&s);
    if a == b {
        return Err(FetchError::Empty);
    }
    Ok(())
}

// ---------------------------------------------------------------------------
// Request URLs and lookups
// ---------------------------------------------------------------------------

/// Base URL of the provider.
pub open spec fn hianime_base() -> Seq<char> {
    "https://hianime.at"@
}

/// The search URL for a query: trimmed, spaces as `+`.
pub open spec fn search_url_spec(query: Seq<char>) -> Seq<char> {
    hianime_base() + "/search?keyword="@ + replace_all(trim(query), " "@, "+"@)
}

/// The search URL for `query`.
pub fn search_url(query: &str) -> (r: String)
    ensures
        r@ == search_url_spec(query@),
{
    let q = chars_of(query);
    let t = trim_exec(&q);
    proof {
        reveal_strlit(" ");
    }
    let plus = replace_lit(&t, " ", "+");
    let mut out = chars_of("https://hianime.at");
    append_str(&mut out, "/search?keyword=");
    append_chars(&mut out, &plus);
    string_of(&out)
}

/// The episode-list URL of a slug, when the slug ends in a numeric id.
pub open spec fn episode_list_url_spec(show_id: Seq<char>) -> Option<Seq<char>> {
    match show_numeric_id_spec(show_id) {
        Some(n) => Some(hianime_base() + "/api/theme/episode/list/"@ + n),
        None => None,
    }
}

/// The episode-list URL of a slug (`None`: the slug has no numeric id).
pub fn episode_list_url(show_id: &str) -> (r: Option<String>)
    ensures
        opt_string(r) == episode_list_url_spec(show_id@),
{
    match show_numeric_id(show_id) {
        None => None,
        Some(n) => {
            let mut out = chars_of("https://hianime.at");
            append_str(&mut out, "/api/theme/episode/list/");
            append_str(&mut out, n.as_str());
            Some(string_of(&out))
        },
    }
}

/// The server-list URL of an episode id.
pub open spec fn servers_url_spec(ep_id: u64) -> Seq<char> {
    hianime_base() + "/api/theme/episode/servers?episodeId="@ + decimal(ep_id as nat)
}

/// The server-list URL of an episode id.
pub fn servers_url(ep_id: u64) -> (r: String)
    ensures
        r@ == servers_url_spec(ep_id),
{
    let mut out = chars_of("https://hianime.at");
    append_str(&mut out, "/api/theme/episode/servers?episodeId=");
    push_decimal(&mut out, ep_id);
    string_of(&out)
}

/// The id of the first entry numbered `ep`.
pub open spec fn find_episode_id_spec(maps: Seq<(u64, Seq<char>)>, ep: Seq<char>) -> Option<u64>
    decreases maps.len(),
{
    if maps.len() == 0 {
        None
    } else if maps[0].1 == ep {
        Some(maps[0].0)
    } else {
        find_episode_id_spec(maps.drop_first(), ep)
    }
}

/// The episode id of episode number `ep`, if listed.
pub fn find_episode_id(maps: &Vec<(u64, String)>, ep: &str) -> (r: Option<u64>)
    ensures
        r == find_episode_id_spec(entries_view(maps@), ep@),
{
    let e = chars_of(ep);
    let mut i: usize = 0;
    assert(entries_view(maps@).skip(0) =~= entries_view(maps@));
    while i < maps.len()
        invariant
            i <= maps@.len(),
            e@ == ep@,
            find_episode_id_spec(entries_view(maps@), ep@) == find_episode_id_spec(
                entries_view(maps@).skip(i as int),
                ep@,
            ),
        decreases maps.len() - i,
    {
        let ghost rest = entries_view(maps@).skip(i as int);
        assert(rest[0] == (maps@[i as int].0, maps@[i as int].1@));
        assert(rest.drop_first() =~= entries_view(maps@).skip(i + 1));
        let n = chars_of(maps[i].1.as_str());
        if chars_eq(&n, &e) {
            return Some(maps[i].0);
        }
        i = i + 1;
    }
    None
}

/// The `window.__P="..."` blob of an embed page.
pub open spec fn embed_blob_spec(html: Seq<char>) -> Option<Seq<char>> {
    first_quoted(html, "window.__P=\""@, ValueKind::Any, 0)
}

/// The obfuscated `window.__P` blob of an embed page.
pub fn extract_embed_blob(html: &str) -> (r: Option<String>)
    ensures
        opt_string(r) == embed_blob_spec(html@),
{
    let s = chars_of(html);
    let prefix = chars_of("window.__P=\"");
    match first_quoted_exec(&s, &prefix, ValueKind::Any) {
        Some(v) => Some(string_of(&v)),
        None => None,
    }
}

/// A response that is not the `{"html": ...}` envelope is used with its
/// backslashes removed.
pub fn strip_backslashes(text: &str) -> (r: String)
    ensures
        r@ == replace_all(text@, "\\"@, ""@),
{
    let s = chars_of(text);
    proof {
        reveal_strlit("\\");
    }
    let t = replace_lit(&s, "\\", "");
    string_of(&t)
}

// ---------------------------------------------------------------------------
// Embed configuration
// ---------------------------------------------------------------------------

/// One subtitle track of the embed configuration, as read from its JSON
/// (`default` when it is a boolean, `src` when it is a string).
#[derive(Clone, Debug)]
pub struct SubtitleTrack {
    pub default: Option<bool>,
    pub src: Option<String>,
}

/// The fields of the deobfuscated embed JSON that the library reads: `src`
/// when it is a string, `subtitles` when it is an array.
#[derive(Clone, Debug)]
pub struct EmbedFields {
    pub src: Option<String>,
    pub subtitles: Option<Vec<SubtitleTrack>>,
}

/// The embed configuration is unusable.
#[derive(Clone, Copy, PartialEq, Eq, Structural, Debug)]
pub enum EmbedError {
    /// `src` is missing or does not name an `.m3u8` playlist.
    SrcNotM3u8,
}

/// Index of the first track marked `default: true`.
pub open spec fn first_default_track(tracks: Seq<SubtitleTrack>) -> Option<int> {
    if exists|i: int| 0 <= i < tracks.len() && (#[trigger] tracks[i]).default == Some(true) {
        Some(
            choose|i: int|
                0 <= i < tracks.len() && (#[trigger] tracks[i]).default == Some(true) && forall|
                    j: int,
                | 0 <= j < i ==> tracks[j].default != Some(true),
        )
    } else {
        None
    }
}

/// The default subtitle: the `src` of the first default track, when non-empty.
pub open spec fn default_subtitle(fields: EmbedFields) -> Option<Seq<char>> {
    match fields.subtitles {
        None => None,
        Some(tracks) => match first_default_track(tracks@) {
            None => None,
            Some(i) => match tracks@[i].src {
                Some(s) => if s@.len() > 0 {
                    Some(s@)
                } else {
                    None
                },
                None => None,
            },
        },
    }
}

/// The master playlist and default subtitle of an embed, or why there is none.
pub open spec fn embed_config_spec(fields: EmbedFields) -> Result<
    (Seq<char>, Option<Seq<char>>),
    EmbedError,
> {
    match fields.src {
        Some(s) => if contains(s@, ".m3u8"@) {
            Ok((s@, default_subtitle(fields)))
        } else {
            Err(EmbedError::SrcNotM3u8)
        },
        None => Err(EmbedError::SrcNotM3u8),
    }
}

/// Read the video source (required to be an `.m3u8` URL) and the default
/// subtitle of an embed. A malformed subtitle entry never fails the episode.
pub fn parse_embed_config(fields: &EmbedFields) -> (r: Result<(String, Option<String>), EmbedError>)
    ensures
        match r {
            Ok((src, sub)) => embed_config_spec(*fields) == Ok::<
                (Seq<char>, Option<Seq<char>>),
                EmbedError,
            >((src@, opt_string(sub))),
            Err(e) => embed_config_spec(*fields) == Err::<
                (Seq<char>, Option<Seq<char>>),
                EmbedError,
            >(e),
        },
{
    let src = match &fields.src {
        None => return Err(EmbedError::SrcNotM3u8),
        Some(s) => s,
    };
    let sv = chars_of(src.as_str());
    let m3u8 = chars_of(".m3u8");
    if !contains_exec(&sv, &m3u8) {
        return Err(EmbedError::SrcNotM3u8);
    }
    let mut subtitle: Option<String> = None;
    match &fields.subtitles {
        None => {},
        Some(tracks) => {
            let mut i: usize = 0;
            let mut found = false;
            while i < tracks.len() && !found
                invariant
                    i <= tracks@.len(),
                    fields.subtitles == Some(*tracks),
                    !found ==> forall|j: int| 0 <= j < i ==> tracks@[j].default != Some(true),
                    !found ==> subtitle is None,
                    found ==> i > 0 && tracks@[i - 1].default == Some(true) && (forall|j: int|
                        0 <= j < i - 1 ==> tracks@[j].default != Some(true)) && opt_string(
                        subtitle,
                    ) == default_subtitle(*fields),
                decreases tracks.len() - i + if found { 0int } else { 1int },
            {
                let is_default = match tracks[i].default {
                    Some(b) => b,
                    None => false,
                };
                if is_default {
                    proof {
                        let k = i as int;
                        assert(tracks@[k].default == Some(true));
                        assert(first_default_track(tracks@) == Some(k)) by {
                            let c = choose|c: int|
                                0 <= c < tracks@.len() && (#[trigger] tracks@[c]).default == Some(
                                    true,
                                ) && forall|j: int| 0 <= j < c ==> tracks@[j].default != Some(true);
                            assert(0 <= c < tracks@.len() && tracks@[c].default == Some(true)
                                && forall|j: int| 0 <= j < c ==> tracks@[j].default != Some(true));
                            if c < k {
                            } else if c > k {
                                assert(tracks@[k].default != Some(true));
                            }
                        }
                    }
                    subtitle = match &tracks[i].src {
                        Some(t) => if t.as_str().is_empty() {
                            None
                        } else {
                            Some(t.clone())
                        },
                        None => None,
                    };
                    found = true;
                }
                i = i + 1;
            }
            proof {
                if !found {
                    assert(first_default_track(tracks@) is None);
                }
            }
        },
    }
    Ok((src.clone(), subtitle))
}

// ---------------------------------------------------------------------------
// Master playlist
// ---------------------------------------------------------------------------

/// A line without its `\r` terminator.
pub open spec fn strip_cr(l: Seq<char>) -> Seq<char> {
    if l.len() > 0 && l.last() == '\r' {
        l.drop_last()
    } else {
        l
    }
}

/// The lines of a text (`str::lines`): split at `\n`, a `\r` before the `\n`
/// dropped, and no empty line after a final `\n`.
pub open spec fn text_lines(t: Seq<char>) -> Seq<Seq<char>> {
    let p = split_seq(t, seq!['\n']);
    let body = p.drop_last().map_values(|l: Seq<char>| strip_cr(l));
    if p.last().len() == 0 {
        body
    } else {
        body.push(p.last())
    }
}

/// The height of a `RESOLUTION=WxH` attribute at `p`: `RESOLUTION=\d+x(\d+)`.
pub open spec fn resolution_at(s: Seq<char>, p: int) -> Option<Seq<char>> {
    let lit = "RESOLUTION="@;
    if !matches_at(s, lit, p) {
        None
    } else {
        let a = p + lit.len();
        let e1 = digit_run_end(s, a);
        if e1 == a || e1 >= s.len() || s[e1] != 'x' {
            None
        } else {
            let e2 = digit_run_end(s, e1 + 1);
            if e2 == e1 + 1 {
                None
            } else {
                Some(s.subrange(e1 + 1, e2))
            }
        }
    }
}

/// The leftmost resolution at or after `p`.
pub open spec fn first_resolution(s: Seq<char>, p: int) -> Option<Seq<char>>
    decreases s.len() + 1 - p,
{
    if p < 0 || p > s.len() {
        None
    } else {
        match resolution_at(s, p) {
            Some(r) => Some(r),
            None => first_resolution(s, p + 1),
        }
    }
}

/// The height a `#EXT-X-STREAM-INF` line announces, 0 when unknown.
pub open spec fn line_height(line: Seq<char>) -> u32 {
    match first_resolution(line, 0) {
        Some(d) => match parse_u32(d) {
            Some(n) => n,
            None => 0,
        },
        None => 0,
    }
}

/// The master URL up to (not including) its last `/`, or empty.
pub open spec fn master_base(m: Seq<char>) -> Seq<char> {
    match rfind_char(m, '/') {
        Some(k) => m.subrange(0, k),
        None => Seq::empty(),
    }
}

/// The stream announced by line `i`, when it is a (non I-frame) stream
/// header followed by a URI line.
pub open spec fn variant_at(
    lines: Seq<Seq<char>>,
    i: int,
    master: Seq<char>,
    referer: Seq<char>,
    subtitle: Option<Seq<char>>,
) -> Option<StreamInfo> {
    let line = lines[i];
    if !matches_at(line, "#EXT-X-STREAM-INF"@, 0) || contains(line, "EXT-X-I-FRAME"@) {
        None
    } else if i + 1 >= lines.len() {
        None
    } else {
        let v = trim(lines[i + 1]);
        if v.len() == 0 || v[0] == '#' {
            None
        } else {
            Some(
                StreamInfo {
                    height: line_height(line),
                    url: if matches_at(v, "http"@, 0) {
                        v
                    } else {
                        master_base(master) + "/"@ + v
                    },
                    referer,
                    provider: "hianime"@,
                    subtitle,
                },
            )
        }
    }
}

/// The streams announced by the first `n` lines.
pub open spec fn collect_variants(
    lines: Seq<Seq<char>>,
    n: int,
    master: Seq<char>,
    referer: Seq<char>,
    subtitle: Option<Seq<char>>,
) -> Seq<StreamInfo>
    decreases n,
{
    if n <= 0 {
        Seq::empty()
    } else {
        let prev = collect_variants(lines, n - 1, master, referer, subtitle);
        match variant_at(lines, n - 1, master, referer, subtitle) {
            Some(v) => prev.push(v),
            None => prev,
        }
    }
}

/// The streams of a master playlist: one per variant, or the master itself
/// when it lists none; `None` when the text is not an m3u8 playlist.
pub open spec fn master_streams(
    text: Seq<char>,
    master: Seq<char>,
    referer: Seq<char>,
    subtitle: Option<Seq<char>>,
) -> Option<Seq<StreamInfo>> {
    if !contains(text, "EXTM3U"@) {
        None
    } else {
        let lines = text_lines(text);
        let s = collect_variants(lines, lines.len() as int, master, referer, subtitle);
        if s.len() == 0 {
            Some(
                seq![StreamInfo { height: 0, url: master, referer, provider: "hianime"@, subtitle }],
            )
        } else {
            Some(s)
        }
    }
}

/// The lines of `t` (`str::lines`).
pub fn lines_exec(t: &Vec<char>) -> (r: Vec<Vec<char>>)
    ensures
        r@.len() == text_lines(t@).len(),
        forall|i: int| 0 <= i < r@.len() ==> #[trigger] r@[i]@ == text_lines(t@)[i],
{
    let mut nl: Vec<char> = Vec::new();
    nl.push('\n');
    assert(nl@ =~= seq!['\n']);
    let pieces = split_exec(t, &nl);
    proof {
        lemma_split_nonempty(t@, nl@);
    }
    let ghost p = split_seq(t@, seq!['\n']);
    let mut out: Vec<Vec<char>> = Vec::new();
    let n = pieces.len();
    let mut i: usize = 0;
    while i + 1 < n
        invariant
            n == pieces@.len() == p.len(),
            n >= 1,
            i + 1 <= n,
            forall|j: int| 0 <= j < n ==> #[trigger] pieces@[j]@ == p[j],
            out@.len() == i,
            forall|j: int| 0 <= j < i ==> #[trigger] out@[j]@ == strip_cr(p[j]),
        decreases n - i,
    {
        let l = &pieces[i];
        if l.len() > 0 && l[l.len() - 1] == '\r' {
            let c = slice_vec(l, 0, l.len() - 1);
            assert(c@ =~= l@.drop_last());
            out.push(c);
        } else {
            let c = slice_vec(l, 0, l.len());
            assert(c@ =~= l@);
            out.push(c);
        }
        i = i + 1;
    }
    let last = &pieces[n - 1];
    let ghost body = p.drop_last().map_values(|l: Seq<char>| strip_cr(l));
    if last.len() > 0 {
        let c = slice_vec(last, 0, last.len());
        assert(c@ =~= last@);
        out.push(c);
        assert forall|j: int| 0 <= j < out@.len() implies #[trigger] out@[j]@ == text_lines(t@)[j] by {
            if j < n - 1 {
                assert(body[j] == strip_cr(p[j]));
            }
        }
    } else {
        assert forall|j: int| 0 <= j < out@.len() implies #[trigger] out@[j]@ == text_lines(t@)[j] by {
            assert(body[j] == strip_cr(p[j]));
        }
    }
    out
}

/// The playlist is not an m3u8 master playlist.
#[derive(Clone, Copy, PartialEq, Eq, Structural, Debug)]
pub enum PlaylistError {
    NotM3u8,
}

/// Executable [`resolution_at`], giving the bounds of the height digits.
fn resolution_at_exec(s: &Vec<char>, p: usize, lit: &Vec<char>) -> (r: Option<(usize, usize)>)
    requires
        lit@ == "RESOLUTION="@,
    ensures
        match r {
            Some((d0, d1)) => d0 < d1 <= s.len() && d1 == digit_run_end(s@, d0 as int)
                && resolution_at(s@, p as int) == Some(s@.subrange(d0 as int, d1 as int)),
            None => resolution_at(s@, p as int) is None,
        },
{
    if !matches_at_exec(s, lit, p) {
        return None;
    }
    assert(p + lit.len() <= s.len());
    let a = p + lit.len();
    let e1 = digit_run_end_exec(s, a);
    if e1 == a || e1 >= s.len() || s[e1] != 'x' {
        return None;
    }
    let e2 = digit_run_end_exec(s, e1 + 1);
    if e2 == e1 + 1 {
        return None;
    }
    Some((e1 + 1, e2))
}

/// Executable [`line_height`].
fn line_height_exec(s: &Vec<char>) -> (h: u32)
    ensures
        h == line_height(s@),
{
    let lit = chars_of("RESOLUTION=");
    let mut p: usize = 0;
    loop
        invariant
            p <= s.len(),
            lit@ == "RESOLUTION="@,
            first_resolution(s@, 0) == first_resolution(s@, p as int),
        decreases s.len() - p,
    {
        match resolution_at_exec(s, p, &lit) {
            Some((d0, d1)) => {
                proof {
                    lemma_digit_run_end(s@, d0 as int);
                    let d = s@.subrange(d0 as int, d1 as int);
                    assert(d[0] == s@[d0 as int]);
                    assert(is_decimal_digit(s@[d0 as int]));
                }
                return match parse_digits(s, d0, d1, 0xffff_ffff) {
                    Some(v) => v as u32,
                    None => 0,
                };
            },
            None => {},
        }
        if p == s.len() {
            assert(first_resolution(s@, p + 1) is None);
            return 0;
        }
        p = p + 1;
    }
}

fn clone_opt(o: &Option<String>) -> (r: Option<String>)
    ensures
        opt_string(r) == opt_string(*o),
{
    match o {
        Some(s) => Some(s.clone()),
        None => None,
    }
}

/// Expand a master playlist into one stream per variant (absolute or
/// relative to the master URL), falling back to the master itself when it
/// lists no variant.
pub fn expand_master_playlist(
    text: &str,
    master_url: &str,
    referer: &str,
    subtitle: Option<String>,
) -> (r: Result<Vec<Stream>, PlaylistError>)
    ensures
        match r {
            Ok(v) => master_streams(text@, master_url@, referer@, opt_string(subtitle)) == Some(
                streams_view(v@),
            ),
            Err(_) => master_streams(text@, master_url@, referer@, opt_string(subtitle)) is None,
        },
{
    let t = chars_of(text);
    let tag = chars_of("EXTM3U");
    if !contains_exec(&t, &tag) {
        return Err(PlaylistError::NotM3u8);
    }
    let lines = lines_exec(&t);
    let ghost ls = text_lines(t@);
    let master = chars_of(master_url);
    let ghost m = master_url@;
    let ghost sub = opt_string(subtitle);
    let base = match rfind_char_exec(&master, '/') {
        Some(k) => {
            proof {
                lemma_rfind_char(master@, '/');
            }
            slice_vec(&master, 0, k)
        },
        None => Vec::new(),
    };
    assert(base@ == master_base(m));
    let inf = chars_of("#EXT-X-STREAM-INF");
    let iframe = chars_of("EXT-X-I-FRAME");
    let http = chars_of("http");
    let mut streams: Vec<Stream> = Vec::new();
    let mut i: usize = 0;
    while i < lines.len()
        invariant
            i <= lines@.len(),
            lines@.len() == ls.len(),
            forall|j: int| 0 <= j < lines@.len() ==> #[trigger] lines@[j]@ == ls[j],
            inf@ == "#EXT-X-STREAM-INF"@,
            iframe@ == "EXT-X-I-FRAME"@,
            http@ == "http"@,
            base@ == master_base(m),
            sub == opt_string(subtitle),
            streams_view(streams@) == collect_variants(ls, i as int, m, referer@, sub),
        decreases lines.len() - i,
    {
        let line = &lines[i];
        let ghost before = streams@;
        let head = starts_with_exec(line, &inf) && !contains_exec(line, &iframe);
        if head && i + 1 < lines.len() {
            let v = trim_exec(&lines[i + 1]);
            if !(v.len() == 0 || v[0] == '#') {
                let height = line_height_exec(line);
                let url = if starts_with_exec(&v, &http) {
                    string_of(&v)
                } else {
                    let mut u = slice_vec(&base, 0, base.len());
                    assert(base@.subrange(0, base@.len() as int) =~= base@);
                    u.push('/');
                    append_chars(&mut u, &v);
                    proof {
                        reveal_strlit("/");
                    }
                    assert(u@ =~= master_base(m) + "/"@ + v@);
                    string_of(&u)
                };
                streams.push(
                    Stream {
                        height,
                        url,
                        referer: String::from_str(referer),
                        provider: String::from_str("hianime"),
                        subtitle: clone_opt(&subtitle),
                    },
                );
                assert(streams_view(streams@) =~= streams_view(before).push(streams@.last()@));
            }
        }
        i = i + 1;
    }
    if streams.len() == 0 {
        streams.push(
            Stream {
                height: 0,
                url: String::from_str(master_url),
                referer: String::from_str(referer),
                provider: String::from_str("hianime"),
                subtitle: clone_opt(&subtitle),
            },
        );
        assert(streams_view(streams@) =~= seq![streams@[0]@]);
    }
    Ok(streams)
}

} // verus!
