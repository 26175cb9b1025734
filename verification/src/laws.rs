//! Properties that span the library's functions, proved over the
//! specifications their contracts use.
use vstd::prelude::*;
use crate::api::{card_show, collect_shows, search_results, ShowInfo};
use crate::hls::{first_below, insert_by_height, sorted_by_height};
use crate::minter::{cache_lookup, fresh_at, redact_spec, shown_bytes, trunc_div, Material, BUCKET_MS};
use vstd::utf8::{
    encode_utf8, encode_utf8_valid_utf8, is_char_boundary, length_of_first_scalar, pop_first_scalar,
    valid_utf8,
};
use crate::sidecar::{latest, HeldInfo};
use crate::text::{contains, find_from, lemma_find_from, lemma_find_from_skip, matches_at};
use crate::titles::{
    base_title_spec, count_before, count_cousins, franchise_key_of_lower, franchise_key_spec,
    franchise_rank_spec, is_cousin, is_rank_anchor, seq_lt, show_lt, subtitle_cut,
    ordinal_season_pattern, regex_replace_leftmost, season_num_pattern, trim_end_chars,
};
use crate::hls::{first_fit, pick_variant_index};
use crate::api::{b64_decode_spec, first_server_choice, server_item_choice, zoko_embed_spec};
use crate::scan::{first_quoted, ValueKind};
use crate::text::{decimal, is_ascii_digit, parse_u64, split_seq};
use crate::tui::{listed, show_listed};
use vstd::utf8::decode_utf8;
use crate::tui::move_sel_spec;
use crate::titles::{chosen_episodes, first_index, picks_in_order, seq_has, unicode_lowercase};

verus! {

// ---------------------------------------------------------------------------
// Titles
// ---------------------------------------------------------------------------

/// One of the subtitle separators `": "`, `"? "`, `"! "`.
pub open spec fn is_subtitle_sep(sep: Seq<char>) -> bool {
    sep == ": "@ || sep == "? "@ || sep == "! "@
}

/// `a` holds no subtitle separator.
pub open spec fn has_no_separator(a: Seq<char>) -> bool {
    !contains(a, ": "@) && !contains(a, "? "@) && !contains(a, "! "@)
}

/// In `a + sep + x`, a separator pattern `p` first occurs at `a.len()` or
/// later, and `sep` itself exactly there.
proof fn lemma_first_sep(a: Seq<char>, sep: Seq<char>, x: Seq<char>, p: Seq<char>)
    requires
        has_no_separator(a),
        is_subtitle_sep(sep),
        is_subtitle_sep(p),
    ensures
        match find_from(a + sep + x, p, 0) {
            Some(k) => k >= a.len(),
            None => true,
        },
        p == sep ==> find_from(a + sep + x, p, 0) == Some(a.len() as int),
{
    reveal_strlit(": ");
    reveal_strlit("? ");
    reveal_strlit("! ");
    let s = a + sep + x;
    lemma_find_from(a, p, 0);
    assert forall|t: int| 0 <= t < a.len() implies !matches_at(s, p, t) by {
        if matches_at(s, p, t) {
            if t + 2 <= a.len() {
                assert(a.subrange(t, t + 2) =~= s.subrange(t, t + 2));
                assert(matches_at(a, p, t));
            } else {
                assert(s[t + 1] == sep[0]);
                assert(s.subrange(t, t + 2)[1] == p[1]);
            }
        }
    }
    lemma_find_from_skip(s, p, 0, a.len() as int);
    lemma_find_from(s, p, a.len() as int);
    if p == sep {
        assert(s.subrange(a.len() as int, a.len() as int + 2) =~= sep);
    }
}

/// A title with no separator before its first one is cut right there.
proof fn lemma_cut_at_first_sep(a: Seq<char>, sep: Seq<char>, x: Seq<char>)
    requires
        has_no_separator(a),
        is_subtitle_sep(sep),
    ensures
        subtitle_cut(a + sep + x) == a.len(),
{
    reveal_strlit(": ");
    reveal_strlit("? ");
    reveal_strlit("! ");
    lemma_first_sep(a, sep, x, ": "@);
    lemma_first_sep(a, sep, x, "? "@);
    lemma_first_sep(a, sep, x, "! "@);
}

/// Titles that share everything up to their first subtitle separator share
/// their base title, whichever separator (`:`, `?` or `!`) and subtitle
/// follow.
pub proof fn law_base_title_ignores_subtitle(
    a: Seq<char>,
    sep1: Seq<char>,
    x: Seq<char>,
    sep2: Seq<char>,
    y: Seq<char>,
)
    requires
        has_no_separator(a),
        is_subtitle_sep(sep1),
        is_subtitle_sep(sep2),
    ensures
        base_title_spec(a + sep1 + x) == base_title_spec(a + sep2 + y),
{
    lemma_cut_at_first_sep(a, sep1, x);
    lemma_cut_at_first_sep(a, sep2, y);
    assert((a + sep1 + x).subrange(0, a.len() as int) =~= a);
    assert((a + sep2 + y).subrange(0, a.len() as int) =~= a);
}

/// Lowercased titles that share everything up to their first subtitle
/// separator share their franchise key (Kaguya's `": "` first season and
/// `"? "` second season collapse together).
pub proof fn law_franchise_key_ignores_subtitle(
    a: Seq<char>,
    sep1: Seq<char>,
    x: Seq<char>,
    sep2: Seq<char>,
    y: Seq<char>,
)
    requires
        has_no_separator(a),
        is_subtitle_sep(sep1),
        is_subtitle_sep(sep2),
    ensures
        franchise_key_of_lower(a + sep1 + x) == franchise_key_of_lower(a + sep2 + y),
{
    lemma_cut_at_first_sep(a, sep1, x);
    lemma_cut_at_first_sep(a, sep2, y);
    assert((a + sep1 + x).subrange(0, a.len() as int) =~= a);
    assert((a + sep2 + y).subrange(0, a.len() as int) =~= a);
}

// ---------------------------------------------------------------------------
// Redacted secrets
// ---------------------------------------------------------------------------

/// Two valid UTF-8 texts that share their first `k` bytes, the first with a
/// character boundary at `k`, have one there too.
proof fn lemma_boundary_shared_prefix(b1: Seq<u8>, b2: Seq<u8>, k: int)
    requires
        valid_utf8(b1),
        valid_utf8(b2),
        0 <= k <= b1.len(),
        k <= b2.len(),
        b1.subrange(0, k) == b2.subrange(0, k),
        is_char_boundary(b1, k),
    ensures
        is_char_boundary(b2, k),
    decreases b1.len(),
{
    if k > 0 {
        assert(b1[0] == b1.subrange(0, k)[0]);
        assert(b2[0] == b2.subrange(0, k)[0]);
        let l = length_of_first_scalar(b1);
        assert(length_of_first_scalar(b2) == l);
        assert(1 <= l <= 4);
        let p1 = pop_first_scalar(b1);
        let p2 = pop_first_scalar(b2);
        assert(valid_utf8(p1));
        assert(valid_utf8(p2));
        assert(is_char_boundary(p1, k - l));
        assert(k >= l);
        assert(l <= b2.len());
        assert(p1.subrange(0, k - l) =~= b1.subrange(0, k).subrange(l, k));
        assert(p2.subrange(0, k - l) =~= b2.subrange(0, k).subrange(l, k));
        lemma_boundary_shared_prefix(p1, p2, k - l);
    }
}

/// Only the first eight bytes of a secret and its length reach its redacted
/// form: secrets of one length that share those bytes redact alike, and
/// where the first can be redacted (its cut falls between characters) so can
/// the second.
pub proof fn law_redaction_shows_only_the_head(s1: Seq<char>, s2: Seq<char>)
    requires
        encode_utf8(s1).len() == encode_utf8(s2).len(),
        encode_utf8(s1).subrange(0, shown_bytes(encode_utf8(s1).len())) == encode_utf8(
            s2,
        ).subrange(0, shown_bytes(encode_utf8(s2).len())),
        is_char_boundary(encode_utf8(s1), shown_bytes(encode_utf8(s1).len())),
    ensures
        is_char_boundary(encode_utf8(s2), shown_bytes(encode_utf8(s2).len())),
        redact_spec(s1) == redact_spec(s2),
{
    encode_utf8_valid_utf8(s1);
    encode_utf8_valid_utf8(s2);
    lemma_boundary_shared_prefix(
        encode_utf8(s1),
        encode_utf8(s2),
        shown_bytes(encode_utf8(s1).len()),
    );
}

// ---------------------------------------------------------------------------
// Search hits and season ranks
// ---------------------------------------------------------------------------

proof fn lemma_collect_distinct(cards: Seq<Seq<char>>)
    ensures
        forall|i: int, j: int|
            0 <= i < j < collect_shows(cards).len() ==> (#[trigger] collect_shows(cards)[i]).id
                != (#[trigger] collect_shows(cards)[j]).id,
    decreases cards.len(),
{
    if cards.len() > 0 {
        lemma_collect_distinct(cards.drop_last());
        let prev = collect_shows(cards.drop_last());
        match card_show(cards.last()) {
            None => {},
            Some(sh) => {
                if !crate::api::has_id(prev, sh.id) {
                    let r = prev.push(sh);
                    assert forall|i: int, j: int| 0 <= i < j < r.len() implies (#[trigger] r[i]).id
                        != (#[trigger] r[j]).id by {
                        if j == prev.len() {
                            assert(prev[i] == r[i]);
                            if r[i].id == sh.id {
                                assert(crate::api::has_id(prev, sh.id));
                            }
                        } else {
                            assert(prev[i] == r[i] && prev[j] == r[j]);
                        }
                    }
                }
            },
        }
    }
}

/// A search page never lists the same show twice.
pub proof fn law_search_results_distinct(html: Seq<char>)
    ensures
        forall|i: int, j: int|
            0 <= i < j < search_results(html).len() ==> (#[trigger] search_results(html)[i]).id
                != (#[trigger] search_results(html)[j]).id,
{
    lemma_collect_distinct(
        crate::text::split_seq(
            crate::text::before_first(html, crate::api::sidebar_marker()),
            crate::api::card_marker(),
        ).drop_first(),
    );
}

proof fn lemma_seq_lt_irreflexive(a: Seq<char>)
    ensures
        !seq_lt(a, a),
    decreases a.len(),
{
    if a.len() > 0 {
        lemma_seq_lt_irreflexive(a.drop_first());
    }
}

proof fn lemma_count_before_lt(rs: Seq<ShowInfo>, key: Seq<char>, t: int, n: int)
    requires
        0 <= t < rs.len(),
        is_cousin(rs[t], key),
        0 <= n <= rs.len(),
    ensures
        count_before(rs, key, rs[t], n) + (if t < n {
            1nat
        } else {
            0nat
        }) <= count_cousins(rs, key, n),
    decreases n,
{
    if n > 0 {
        lemma_count_before_lt(rs, key, t, n - 1);
        if n - 1 == t {
            lemma_seq_lt_irreflexive(rs[t].name);
            lemma_seq_lt_irreflexive(rs[t].id);
            assert(!show_lt(rs[t], rs[t]));
        }
    }
}

/// A season found by franchise rank is at least 1 and at most the number of
/// seasons of the franchise among the hits; a franchise with at most one
/// season among the hits gives no rank.
pub proof fn law_rank_within_franchise(show: ShowInfo, rs: Seq<ShowInfo>)
    requires
        count_cousins(rs, franchise_key_spec(show.name), rs.len() as int) < u32::MAX,
    ensures
        match franchise_rank_spec(show, rs) {
            Some(n) => 1 <= n <= count_cousins(rs, franchise_key_spec(show.name), rs.len() as int),
            None => true,
        },
        count_cousins(rs, franchise_key_spec(show.name), rs.len() as int) <= 1
            ==> franchise_rank_spec(show, rs) is None,
{
    let key = franchise_key_spec(show.name);
    if count_cousins(rs, key, rs.len() as int) > 1 && exists|t: int|
        is_rank_anchor(rs, key, show.id, t) {
        let t = choose|t: int| is_rank_anchor(rs, key, show.id, t);
        lemma_count_before_lt(rs, key, t, rs.len() as int);
    }
}

proof fn lemma_seq_lt_trans(a: Seq<char>, b: Seq<char>, c: Seq<char>)
    requires
        seq_lt(a, b),
        seq_lt(b, c),
    ensures
        seq_lt(a, c),
    decreases a.len(),
{
    if a.len() > 0 && b.len() > 0 && c.len() > 0 && a[0] == b[0] && b[0] == c[0] {
        lemma_seq_lt_trans(a.drop_first(), b.drop_first(), c.drop_first());
    }
}

proof fn lemma_show_lt_trans(a: ShowInfo, b: ShowInfo, c: ShowInfo)
    requires
        show_lt(a, b),
        show_lt(b, c),
    ensures
        show_lt(a, c),
{
    if a.year == b.year && b.year == c.year {
        if seq_lt(a.name, b.name) && seq_lt(b.name, c.name) {
            lemma_seq_lt_trans(a.name, b.name, c.name);
        } else if a.name == b.name && b.name == c.name {
            lemma_seq_lt_trans(a.id, b.id, c.id);
        }
    }
}

proof fn lemma_count_before_mono(rs: Seq<ShowInfo>, key: Seq<char>, x: int, y: ShowInfo, n: int)
    requires
        0 <= x < rs.len(),
        0 <= n <= rs.len(),
        is_cousin(rs[x], key),
        show_lt(rs[x], y),
    ensures
        count_before(rs, key, rs[x], n) + (if x < n {
            1nat
        } else {
            0nat
        }) <= count_before(rs, key, y, n),
    decreases n,
{
    if n > 0 {
        lemma_count_before_mono(rs, key, x, y, n - 1);
        let z = rs[n - 1];
        if is_cousin(z, key) && show_lt(z, rs[x]) {
            lemma_show_lt_trans(z, rs[x], y);
        }
        if n - 1 == x {
            lemma_seq_lt_irreflexive(rs[x].name);
            lemma_seq_lt_irreflexive(rs[x].id);
            assert(!show_lt(rs[x], rs[x]));
        }
    }
}

/// Seasons are numbered in release order: a season of the franchise that
/// comes before another (by year, then title, then slug) has fewer seasons
/// before it among the hits, so a smaller rank.
pub proof fn law_rank_follows_release_order(rs: Seq<ShowInfo>, key: Seq<char>, x: int, y: int)
    requires
        0 <= x < rs.len(),
        0 <= y < rs.len(),
        is_cousin(rs[x], key),
        is_cousin(rs[y], key),
        show_lt(rs[x], rs[y]),
    ensures
        count_before(rs, key, rs[x], rs.len() as int) < count_before(
            rs,
            key,
            rs[y],
            rs.len() as int,
        ),
{
    lemma_count_before_mono(rs, key, x, rs[y], rs.len() as int);
}

// ---------------------------------------------------------------------------
// Variant order
// ---------------------------------------------------------------------------

proof fn lemma_first_below_prefix(s: Seq<(u64, Seq<char>)>, h: u64, k: int)
    requires
        0 <= k <= s.len(),
        forall|i: int| 0 <= i < k ==> s[i].0 >= h,
    ensures
        k <= first_below(s, h, k) <= s.len(),
        forall|i: int| 0 <= i < first_below(s, h, k) ==> s[i].0 >= h,
        first_below(s, h, k) < s.len() ==> s[first_below(s, h, k)].0 < h,
    decreases s.len() - k,
{
    if k < s.len() && s[k].0 >= h {
        lemma_first_below_prefix(s, h, k + 1);
    }
}

/// Variants sorted by height come highest first and are the same variants.
pub proof fn law_sorted_by_height(s: Seq<(u64, Seq<char>)>)
    ensures
        sorted_by_height(s).len() == s.len(),
        forall|i: int, j: int|
            0 <= i < j < s.len() ==> (#[trigger] sorted_by_height(s)[i]).0 >= (
            #[trigger] sorted_by_height(s)[j]).0,
        sorted_by_height(s).to_multiset() == s.to_multiset(),
    decreases s.len(),
{
    broadcast use vstd::seq_lib::group_to_multiset_ensures;

    if s.len() > 0 {
        let pre = s.drop_last();
        let x = s.last();
        law_sorted_by_height(pre);
        let r0 = sorted_by_height(pre);
        lemma_first_below_prefix(r0, x.0, 0);
        let k = first_below(r0, x.0, 0);
        let r = r0.insert(k, x);
        assert(r == sorted_by_height(s));
        assert forall|i: int, j: int| 0 <= i < j < r.len() implies (#[trigger] r[i]).0 >= (
        #[trigger] r[j]).0 by {
            if j < k {
                assert(r[i] == r0[i] && r[j] == r0[j]);
            } else if j == k {
                assert(r[i] == r0[i]);
            } else if i < k {
                assert(r[i] == r0[i] && r[j] == r0[j - 1]);
            } else if i == k {
                assert(r[j] == r0[j - 1]);
                assert(r0[k].0 < x.0);
                if j - 1 > k {
                    assert(r0[k].0 >= r0[j - 1].0);
                }
            } else {
                assert(r[i] == r0[i - 1] && r[j] == r0[j - 1]);
            }
        }
        assert(r.remove(k) =~= r0);
        assert(s =~= pre.push(x));
        assert(r[k] == x);
        assert(r.to_multiset() =~= r0.to_multiset().insert(x)) by {
            assert(r.remove(k).to_multiset() =~= r.to_multiset().remove(x));
            assert(r.to_multiset().count(x) > 0) by {
                assert(r.contains(x));
            }
        }
    }
}

/// The pairs of height `h`, in order.
pub open spec fn with_height(s: Seq<(u64, Seq<char>)>, h: u64) -> Seq<(u64, Seq<char>)>
    decreases s.len(),
{
    if s.len() == 0 {
        s
    } else {
        with_height(s.drop_last(), h) + if s.last().0 == h {
            seq![s.last()]
        } else {
            Seq::empty()
        }
    }
}

proof fn lemma_with_height_add(a: Seq<(u64, Seq<char>)>, b: Seq<(u64, Seq<char>)>, h: u64)
    ensures
        with_height(a + b, h) == with_height(a, h) + with_height(b, h),
    decreases b.len(),
{
    if b.len() == 0 {
        assert(a + b =~= a);
        assert(with_height(a, h) + with_height(b, h) =~= with_height(a, h));
    } else {
        lemma_with_height_add(a, b.drop_last(), h);
        assert((a + b).drop_last() =~= a + b.drop_last());
        assert((a + b).last() == b.last());
        let tail = if b.last().0 == h {
            seq![b.last()]
        } else {
            Seq::empty()
        };
        assert(with_height(a, h) + with_height(b.drop_last(), h) + tail =~= with_height(a, h) + (
        with_height(b.drop_last(), h) + tail));
    }
}

proof fn lemma_with_height_none(t: Seq<(u64, Seq<char>)>, h: u64)
    requires
        forall|i: int| 0 <= i < t.len() ==> #[trigger] t[i].0 < h,
    ensures
        with_height(t, h) == Seq::<(u64, Seq<char>)>::empty(),
    decreases t.len(),
{
    if t.len() > 0 {
        lemma_with_height_none(t.drop_last(), h);
        assert(t.last().0 < h);
        assert(with_height(t, h) =~= Seq::<(u64, Seq<char>)>::empty());
    }
}

/// Sorting by height keeps variants of equal height in playlist order: the
/// variants of any one height come out as they went in.
pub proof fn law_sorted_by_height_stable(s: Seq<(u64, Seq<char>)>, h: u64)
    ensures
        with_height(sorted_by_height(s), h) == with_height(s, h),
    decreases s.len(),
{
    if s.len() > 0 {
        let pre = s.drop_last();
        let x = s.last();
        law_sorted_by_height_stable(pre, h);
        law_sorted_by_height(pre);
        let r0 = sorted_by_height(pre);
        lemma_first_below_prefix(r0, x.0, 0);
        let k = first_below(r0, x.0, 0);
        let head = r0.subrange(0, k);
        let rest = r0.subrange(k, r0.len() as int);
        assert(r0 =~= head + rest);
        assert(r0.insert(k, x) =~= head + seq![x] + rest);
        assert forall|i: int| 0 <= i < rest.len() implies #[trigger] rest[i].0 < x.0 by {
            assert(rest[i] == r0[k + i]);
            if i > 0 {
                assert(r0[k].0 >= r0[k + i].0);
            }
        }
        lemma_with_height_add(head + seq![x], rest, h);
        lemma_with_height_add(head, seq![x], h);
        lemma_with_height_add(head, rest, h);
        assert(seq![x].drop_last() =~= Seq::<(u64, Seq<char>)>::empty());
        assert(with_height(Seq::<(u64, Seq<char>)>::empty(), h) =~= Seq::<(u64, Seq<char>)>::empty());
        assert(s.drop_last() =~= pre);
        if x.0 == h {
            lemma_with_height_none(rest, h);
            assert(with_height(seq![x], h) =~= seq![x]);
            assert(with_height(r0, h) =~= with_height(head, h));
            assert(with_height(sorted_by_height(s), h) =~= with_height(head, h) + seq![x]);
        } else {
            assert(with_height(seq![x], h) =~= Seq::<(u64, Seq<char>)>::empty());
            assert(with_height(sorted_by_height(s), h) =~= with_height(head, h) + with_height(rest, h));
        }
    }
}

/// The `best` variant is the highest of them all, the `worst` the lowest.
pub proof fn law_best_and_worst_variant(s: Seq<(u64, Seq<char>)>)
    requires
        s.len() > 0,
    ensures
        forall|i: int|
            0 <= i < s.len() ==> sorted_by_height(s)[0].0 >= #[trigger] s[i].0
                && sorted_by_height(s)[s.len() - 1].0 <= s[i].0,
{
    broadcast use vstd::seq_lib::group_to_multiset_ensures;

    law_sorted_by_height(s);
    let r = sorted_by_height(s);
    assert forall|i: int| 0 <= i < s.len() implies r[0].0 >= #[trigger] s[i].0 && r[s.len() - 1].0
        <= s[i].0 by {
        assert(s.contains(s[i]));
        assert(s.to_multiset().count(s[i]) > 0);
        assert(r.to_multiset().count(s[i]) > 0);
        assert(r.contains(s[i]));
        let j = choose|j: int| 0 <= j < r.len() && r[j] == s[i];
        if j > 0 {
            assert(r[0].0 >= r[j].0);
        }
        if j < s.len() - 1 {
            assert(r[j].0 >= r[s.len() - 1].0);
        }
    }
}

// ---------------------------------------------------------------------------
// Caches
// ---------------------------------------------------------------------------

/// Reading a source back after caching a material for it gives that
/// material while it is fresh and nothing after; other sources are as they
/// were.
pub proof fn law_cache_read_after_write(
    c: Map<Seq<char>, Material>,
    source: Seq<char>,
    m: Material,
    other: Seq<char>,
    now_ms: i64,
)
    ensures
        cache_lookup(c.insert(source, m), source, now_ms) == (if fresh_at(m, now_ms) {
            Some(m)
        } else {
            None::<Material>
        }),
        other != source ==> cache_lookup(c.insert(source, m), other, now_ms) == cache_lookup(
            c,
            other,
            now_ms,
        ),
{
}

/// After invalidating a source nothing is read back for it; other sources
/// are as they were.
pub proof fn law_cache_invalidate(
    c: Map<Seq<char>, Material>,
    source: Seq<char>,
    other: Seq<char>,
    now_ms: i64,
)
    ensures
        cache_lookup(c.remove(source), source, now_ms) is None,
        other != source ==> cache_lookup(c.remove(source), other, now_ms) == cache_lookup(
            c,
            other,
            now_ms,
        ),
{
}

/// The sidecar serves the material ingested last for a source.
pub proof fn law_ingest_then_read(
    ingested: Seq<(Seq<char>, HeldInfo)>,
    source: Seq<char>,
    m: HeldInfo,
    other: Seq<char>,
)
    ensures
        latest(ingested.push((source, m)), source) == Some(m),
        other != source ==> latest(ingested.push((source, m)), other) == latest(ingested, other),
{
    assert(ingested.push((source, m)).drop_last() =~= ingested);
}

// ---------------------------------------------------------------------------
// Signing buckets
// ---------------------------------------------------------------------------

/// The start of a signing bucket is a multiple of five minutes within five
/// minutes of the time, on the side of zero, and is its own bucket.
pub proof fn law_bucket(now_ms: int)
    ensures
        ({
            let b = trunc_div(now_ms, BUCKET_MS as int) * BUCKET_MS;
            &&& b % (BUCKET_MS as int) == 0
            &&& now_ms >= 0 ==> b <= now_ms < b + BUCKET_MS
            &&& now_ms < 0 ==> b - BUCKET_MS < now_ms <= b
            &&& trunc_div(b, BUCKET_MS as int) * BUCKET_MS == b
        }),
{
    let m = BUCKET_MS as int;
    let b = trunc_div(now_ms, m) * m;
    if now_ms >= 0 {
        let q = now_ms / m;
        let r = now_ms % m;
        vstd::arithmetic::div_mod::lemma_fundamental_div_mod_converse(now_ms, m, q, r);
        assert(now_ms == q * m + r) by (nonlinear_arith)
            requires
                q == now_ms / m,
                r == now_ms % m,
                m > 0,
        ;
        assert(q >= 0) by (nonlinear_arith)
            requires
                q == now_ms / m,
                now_ms >= 0,
                m > 0,
        ;
        assert(q * m >= 0) by (nonlinear_arith)
            requires
                q >= 0,
                m > 0,
        ;
        vstd::arithmetic::div_mod::lemma_fundamental_div_mod_converse(q * m, m, q, 0);
    } else {
        let p = -now_ms;
        let q = p / m;
        let r = p % m;
        assert(p == q * m + r) by (nonlinear_arith)
            requires
                q == p / m,
                r == p % m,
                m > 0,
        ;
        assert(0 <= r < m) by (nonlinear_arith)
            requires
                r == p % m,
                m > 0,
        ;
        assert(q >= 0) by (nonlinear_arith)
            requires
                q == p / m,
                p > 0,
                m > 0,
        ;
        assert(b == -(q * m));
        assert(b == (-q) * m) by (nonlinear_arith)
            requires
                b == -(q * m),
        ;
        vstd::arithmetic::div_mod::lemma_fundamental_div_mod_converse(b, m, -q, 0);
        assert(q * m >= 0) by (nonlinear_arith)
            requires
                q >= 0,
                m > 0,
        ;
        if b < 0 {
            vstd::arithmetic::div_mod::lemma_fundamental_div_mod_converse(-b, m, q, 0);
        } else {
            assert(b == 0);
        }
    }
}

// ---------------------------------------------------------------------------
// Selection screens
// ---------------------------------------------------------------------------

/// Moving the cursor down and then up comes back to the same row, and the
/// cursor always stays on the list.
pub proof fn law_move_down_then_up(c: usize, len: usize)
    requires
        c < len <= i32::MAX,
    ensures
        move_sel_spec(Some(c), len, 1) matches Some(d) && d < len,
        move_sel_spec(move_sel_spec(Some(c), len, 1), len, -1i32) == Some(c),
{
    let n = len as int;
    let d = (c as int + 1) % n;
    assert(0 <= d < n) by (nonlinear_arith)
        requires
            n > 0,
            d == (c as int + 1) % n,
    ;
    if c as int + 1 < n {
        assert(d == c + 1) by (nonlinear_arith)
            requires
                0 <= c as int + 1 < n,
                d == (c as int + 1) % n,
        ;
        assert((d - 1) % n == c as int) by (nonlinear_arith)
            requires
                d - 1 == c as int,
                0 <= c < n,
        ;
    } else {
        assert(d == 0) by (nonlinear_arith)
            requires
                c as int + 1 == n,
                d == (c as int + 1) % n,
        ;
        assert((d - 1) % n == n - 1) by (nonlinear_arith)
            requires
                d == 0,
                n > 0,
        ;
    }
}

/// Toggling the same row twice leaves every mark as it was.
pub proof fn law_toggle_twice(marked: Seq<bool>, i: int)
    requires
        0 <= i < marked.len(),
    ensures
        marked.update(i, !marked[i]).update(i, !marked.update(i, !marked[i])[i]) == marked,
{
    assert(marked.update(i, !marked[i]).update(i, !marked.update(i, !marked[i])[i]) =~= marked);
}

// ---------------------------------------------------------------------------
// Episode picks
// ---------------------------------------------------------------------------

/// A picked episode is picked again in any longer pick list.
proof fn lemma_has_in_longer(q: Seq<Seq<char>>, p: Seq<Seq<char>>, e: Seq<char>)
    requires
        q == p.drop_last(),
        p.len() > 0,
        seq_has(q, e),
    ensures
        seq_has(p, e),
{
    let w = choose|i: int| 0 <= i < q.len() && q[i] == e;
    assert(p[w] == e);
}

/// A picked episode's first pick is an index of it.
proof fn lemma_first_index(p: Seq<Seq<char>>, e: Seq<char>)
    requires
        seq_has(p, e),
    ensures
        0 <= first_index(p, e) < p.len(),
    decreases p.len(),
{
    let q = p.drop_last();
    if seq_has(q, e) {
        lemma_first_index(q, e);
    } else {
        let w = choose|i: int| 0 <= i < p.len() && p[i] == e;
        if w < p.len() - 1 {
            assert(q[w] == e);
        }
    }
}

/// The episodes kept from a pick are all available and were picked, none is
/// kept twice, every available pick is kept, and they come in the order in
/// which they were first picked.
pub proof fn law_chosen_episodes(picked: Seq<Seq<char>>, avail: Seq<Seq<char>>)
    ensures
        picks_in_order(chosen_episodes(picked, avail), picked, avail),
    decreases picked.len(),
{
    if picked.len() > 0 {
        let q = picked.drop_last();
        law_chosen_episodes(q, avail);
        let prev = chosen_episodes(q, avail);
        let ep = picked.last();
        let n = picked.len() - 1;
        assert(picked[n] == ep);
        let r = chosen_episodes(picked, avail);
        let pushed = seq_has(avail, ep) && !seq_has(prev, ep);
        assert forall|i: int| 0 <= i < prev.len() implies seq_has(picked, #[trigger] prev[i])
            && first_index(picked, prev[i]) == first_index(q, prev[i]) && first_index(q, prev[i])
            < n by {
            assert(seq_has(q, prev[i]));
            lemma_has_in_longer(q, picked, prev[i]);
            lemma_first_index(q, prev[i]);
        }
        // An available episode picked earlier is already kept.
        if pushed {
            if seq_has(q, ep) {
                let w = choose|k: int| 0 <= k < q.len() && q[k] == ep;
                assert(seq_has(avail, q[w]));
                assert(seq_has(prev, q[w]));
                assert(false);
            }
            assert(first_index(picked, ep) == n);
            assert(r == prev.push(ep));
            assert forall|i: int| 0 <= i < r.len() implies seq_has(avail, #[trigger] r[i])
                && seq_has(picked, r[i]) by {
                if i < prev.len() {
                    assert(r[i] == prev[i]);
                } else {
                    assert(r[i] == ep);
                }
            }
            assert forall|i: int, j: int| 0 <= i < j < r.len() implies #[trigger] r[i]
                != #[trigger] r[j] by {
                if j == prev.len() {
                    assert(r[i] == prev[i]);
                    if prev[i] == ep {
                        assert(seq_has(prev, ep));
                    }
                } else {
                    assert(r[i] == prev[i] && r[j] == prev[j]);
                }
            }
            assert forall|k: int| 0 <= k < picked.len() && seq_has(avail, #[trigger] picked[k])
                implies seq_has(r, picked[k]) by {
                if k < n {
                    assert(picked[k] == q[k]);
                    let w = choose|t: int| 0 <= t < prev.len() && prev[t] == q[k];
                    assert(r[w] == prev[w]);
                } else {
                    assert(r[prev.len() as int] == ep);
                }
            }
            assert forall|i: int, j: int| 0 <= i < j < r.len() implies first_index(
                picked,
                #[trigger] r[i],
            ) < first_index(picked, #[trigger] r[j]) by {
                assert(r[i] == prev[i]);
                if j < prev.len() {
                    assert(r[j] == prev[j]);
                } else {
                    assert(r[j] == ep);
                }
            }
        } else {
            assert(r == prev);
            assert forall|k: int| 0 <= k < picked.len() && seq_has(avail, #[trigger] picked[k])
                implies seq_has(r, picked[k]) by {
                if k < n {
                    assert(picked[k] == q[k]);
                }
            }
        }
    }
}

// ---------------------------------------------------------------------------
// Variant choice
// ---------------------------------------------------------------------------

/// A variant height fits a request: exactly the requested height (`exact`),
/// or known and at most the request.
pub open spec fn height_fits(h: u64, want: u64, exact: bool) -> bool {
    if exact {
        h == want
    } else {
        0 < h && h <= want
    }
}

/// Variants ordered tallest first.
pub open spec fn tallest_first(s: Seq<(u64, Seq<char>)>) -> bool {
    forall|i: int, j: int| 0 <= i < j < s.len() ==> #[trigger] s[i].0 >= #[trigger] s[j].0
}

/// What the scan for a fitting variant finds from `i` on: the first that
/// fits, every one before it not; or, finding none, that none fits.
proof fn lemma_first_fit_finds(s: Seq<(u64, Seq<char>)>, want: u64, exact: bool, i: int)
    requires
        0 <= i,
    ensures
        match first_fit(s, want, exact, i) {
            Some(k) => i <= k < s.len() && height_fits(s[k].0, want, exact) && forall|j: int|
                i <= j < k ==> !height_fits(#[trigger] s[j].0, want, exact),
            None => forall|j: int| i <= j < s.len() ==> !height_fits(#[trigger] s[j].0, want, exact),
        },
    decreases s.len() - i,
{
    if i < s.len() {
        lemma_first_fit_finds(s, want, exact, i + 1);
    }
}

/// Picking a variant for a numeric quality, from variants ordered tallest
/// first: a variant of exactly that height is picked when there is one;
/// otherwise, when some variant of known height is at or below the request,
/// the picked one is at or below it and no such variant is taller; with
/// neither, the first (tallest) variant is picked.
pub proof fn law_variant_for_height(s: Seq<(u64, Seq<char>)>, quality: Seq<char>, want: u64)
    requires
        s.len() > 0,
        tallest_first(s),
        parse_u64(quality) == Some(want),
    ensures
        0 <= pick_variant_index(s, quality) < s.len(),
        (exists|j: int| 0 <= j < s.len() && #[trigger] s[j].0 == want) ==> s[pick_variant_index(
            s,
            quality,
        )].0 == want,
        (forall|j: int| 0 <= j < s.len() ==> #[trigger] s[j].0 != want) && (exists|j: int|
            0 <= j < s.len() && 0 < #[trigger] s[j].0 <= want) ==> {
            let k = pick_variant_index(s, quality);
            &&& 0 < s[k].0 <= want
            &&& forall|j: int| 0 <= j < s.len() && 0 < #[trigger] s[j].0 <= want ==> s[j].0 <= s[k].0
        },
        (forall|j: int| 0 <= j < s.len() ==> #[trigger] s[j].0 != want && !(0 < s[j].0 <= want))
            ==> pick_variant_index(s, quality) == 0,
{
    reveal_strlit("best");
    reveal_strlit("worst");
    assert(quality != "best"@ && quality != "worst"@) by {
        if quality == "best"@ {
            assert(!is_ascii_digit(quality[0]));
        }
        if quality == "worst"@ {
            assert(!is_ascii_digit(quality[0]));
        }
    }
    lemma_first_fit_finds(s, want, true, 0);
    lemma_first_fit_finds(s, want, false, 0);
    if let Some(k) = first_fit(s, want, false, 0) {
        assert forall|j: int| 0 <= j < s.len() && 0 < #[trigger] s[j].0 <= want implies s[j].0
            <= s[k].0 by {
            if j < k {
                assert(!height_fits(s[j].0, want, false));
            } else if j > k {
                assert(s[k].0 >= s[j].0);
            }
        }
    }
    if exists|j: int| 0 <= j < s.len() && #[trigger] s[j].0 == want {
        let j = choose|j: int| 0 <= j < s.len() && #[trigger] s[j].0 == want;
        assert(height_fits(s[j].0, want, true));
    }
    if exists|j: int| 0 <= j < s.len() && 0 < #[trigger] s[j].0 <= want {
        let j = choose|j: int| 0 <= j < s.len() && 0 < #[trigger] s[j].0 <= want;
        assert(height_fits(s[j].0, want, false));
    }
}

// ---------------------------------------------------------------------------
// Embed servers
// ---------------------------------------------------------------------------

/// `item` is a ZokoAnime server item for `mode` whose hash decodes, as
/// base64 then UTF-8, to the non-empty URL `u`.
pub open spec fn zoko_item_gives(item: Seq<char>, mode: Seq<char>, u: Seq<char>) -> bool {
    &&& first_quoted(item, "data-type=\""@, ValueKind::NonEmpty, 0) == Some(mode)
    &&& first_quoted(item, "data-server-name=\""@, ValueKind::NonEmpty, 0) == Some("ZokoAnime"@)
    &&& first_quoted(item, "data-hash=\""@, ValueKind::NonEmpty, 0) matches Some(h)
    &&& b64_decode_spec(h) matches Some(b)
    &&& valid_utf8(b)
    &&& decode_utf8(b) == u
    &&& u.len() > 0
}

proof fn lemma_server_choice_source(items: Seq<Seq<char>>, mode: Seq<char>)
    ensures
        first_server_choice(items, mode) matches Some(u) ==> exists|i: int|
            0 <= i < items.len() && zoko_item_gives(#[trigger] items[i], mode, u),
    decreases items.len(),
{
    if items.len() > 0 {
        lemma_server_choice_source(items.drop_first(), mode);
        if let Some(u) = first_server_choice(items, mode) {
            match server_item_choice(items[0], mode) {
                Some(r) => {
                    assert(zoko_item_gives(items[0], mode, u));
                },
                None => {
                    let i = choose|i: int|
                        0 <= i < items.drop_first().len() && zoko_item_gives(
                            #[trigger] items.drop_first()[i],
                            mode,
                            u,
                        );
                    assert(items[i + 1] == items.drop_first()[i]);
                },
            }
        }
    }
}

/// The embed found on a server-list page comes from a ZokoAnime server item
/// of the requested mode: it is what that item's hash decodes to. Items of
/// other servers, or of the other mode, never decide it: putting one in
/// front of the list changes nothing.
pub proof fn law_embed_from_zoko_item(html: Seq<char>, mode: Seq<char>, item: Seq<char>, rest: Seq<Seq<char>>)
    ensures
        zoko_embed_spec(html, mode) matches Some(u) ==> exists|i: int|
            0 <= i < split_seq(html, "server-item"@).drop_first().len() && zoko_item_gives(
                #[trigger] split_seq(html, "server-item"@).drop_first()[i],
                mode,
                u,
            ),
        first_quoted(item, "data-server-name=\""@, ValueKind::NonEmpty, 0) != Some("ZokoAnime"@)
            || first_quoted(item, "data-type=\""@, ValueKind::NonEmpty, 0) != Some(mode)
            ==> first_server_choice(seq![item] + rest, mode) == first_server_choice(rest, mode),
{
    lemma_server_choice_source(split_seq(html, "server-item"@).drop_first(), mode);
    assert((seq![item] + rest)[0] == item);
    assert((seq![item] + rest).drop_first() =~= rest);
}

// ---------------------------------------------------------------------------
// Name order
// ---------------------------------------------------------------------------

/// Names are ordered as strings are: the first position where they differ
/// decides by the smaller character, and a proper prefix comes first.
pub proof fn law_name_order_is_string_order(a: Seq<char>, b: Seq<char>, k: int)
    ensures
        0 <= k < a.len() && k < b.len() && a.subrange(0, k) == b.subrange(0, k) && a[k] < b[k]
            ==> seq_lt(a, b) && !seq_lt(b, a),
        a.len() < b.len() && b.subrange(0, a.len() as int) == a ==> seq_lt(a, b) && !seq_lt(b, a),
        !seq_lt(a, a),
    decreases a.len(),
{
    if a.len() > 0 {
        let a1 = a.drop_first();
        law_name_order_is_string_order(a1, a1, 0);
        if b.len() > 0 {
            let b1 = b.drop_first();
            law_name_order_is_string_order(a1, b1, k - 1);
            if 0 < k < a.len() && k < b.len() && a.subrange(0, k) == b.subrange(0, k) && a[k] < b[k] {
                assert(a[0] == a.subrange(0, k)[0]);
                assert(b[0] == b.subrange(0, k)[0]);
                assert(a1.subrange(0, k - 1) =~= a.subrange(0, k).drop_first());
                assert(b1.subrange(0, k - 1) =~= b.subrange(0, k).drop_first());
                assert(a1[k - 1] == a[k]);
                assert(b1[k - 1] == b[k]);
                assert(seq_lt(a1, b1) && !seq_lt(b1, a1));
            }
            if a.len() < b.len() && b.subrange(0, a.len() as int) == a {
                assert(b[0] == b.subrange(0, a.len() as int)[0]);
                assert(b1.subrange(0, a1.len() as int) =~= b.subrange(0, a.len() as int).drop_first());
                assert(seq_lt(a1, b1) && !seq_lt(b1, a1));
            }
        }
    }
}

/// Of two seasons of a franchise released in the same year, the one whose
/// name is smaller as a string (first differing character smaller) has fewer
/// seasons ranked before it, so the smaller season number.
pub proof fn law_same_year_ranked_by_name(rs: Seq<ShowInfo>, key: Seq<char>, x: int, y: int, k: int)
    requires
        0 <= x < rs.len(),
        0 <= y < rs.len(),
        is_cousin(rs[x], key),
        is_cousin(rs[y], key),
        rs[x].year == rs[y].year,
        0 <= k < rs[x].name.len(),
        k < rs[y].name.len(),
        rs[x].name.subrange(0, k) == rs[y].name.subrange(0, k),
        rs[x].name[k] < rs[y].name[k],
    ensures
        count_before(rs, key, rs[x], rs.len() as int) < count_before(
            rs,
            key,
            rs[y],
            rs.len() as int,
        ),
{
    law_name_order_is_string_order(rs[x].name, rs[y].name, k);
    law_rank_follows_release_order(rs, key, x, y);
}

// ---------------------------------------------------------------------------
// Search filter
// ---------------------------------------------------------------------------

proof fn lemma_listed_members(shows: Seq<ShowInfo>, input: Seq<char>, n: int)
    requires
        0 <= n <= shows.len(),
        shows.len() <= usize::MAX,
    ensures
        forall|i: int|
            0 <= i < n ==> (listed(shows, input, n).contains(i as usize) <==> show_listed(
                #[trigger] shows[i].name,
                input,
            )),
        forall|p: int| 0 <= p < listed(shows, input, n).len() ==> #[trigger] listed(shows, input, n)[p] < n,
    decreases n,
{
    if n > 0 {
        lemma_listed_members(shows, input, n - 1);
        let prev = listed(shows, input, n - 1);
        let cur = listed(shows, input, n);
        let last = (n - 1) as usize;
        if show_listed(shows[n - 1].name, input) {
            assert(cur == prev.push(last));
            assert forall|p: int| 0 <= p < cur.len() implies #[trigger] cur[p] < n by {
                if p < prev.len() {
                    assert(cur[p] == prev[p]);
                }
            }
            assert forall|i: int| 0 <= i < n implies (cur.contains(i as usize) <==> show_listed(
                #[trigger] shows[i].name,
                input,
            )) by {
                if i < n - 1 {
                    if cur.contains(i as usize) {
                        let p = choose|p: int| 0 <= p < cur.len() && cur[p] == i as usize;
                        assert(p < prev.len());
                        assert(prev[p] == cur[p]);
                        assert(prev.contains(i as usize));
                    }
                    if prev.contains(i as usize) {
                        let p = choose|p: int| 0 <= p < prev.len() && prev[p] == i as usize;
                        assert(cur[p] == prev[p]);
                    }
                } else {
                    assert(cur[prev.len() as int] == last);
                }
            }
        } else {
            assert(cur == prev);
            assert forall|i: int| 0 <= i < n implies (cur.contains(i as usize) <==> show_listed(
                #[trigger] shows[i].name,
                input,
            )) by {
                if i == n - 1 && prev.contains(i as usize) {
                    let p = choose|p: int| 0 <= p < prev.len() && prev[p] == i as usize;
                    assert(prev[p] < n - 1);
                }
            }
        }
    }
}

/// The search screen lists exactly the shows whose lowercased name holds
/// the lowercased filter somewhere (at any position), and all shows when the
/// filter is empty.
pub proof fn law_filter_finds_name_anywhere(shows: Seq<ShowInfo>, input: Seq<char>, i: int)
    requires
        0 <= i < shows.len(),
        shows.len() <= usize::MAX,
    ensures
        listed(shows, input, shows.len() as int).contains(i as usize) <==> (input.len() == 0
            || exists|k: int|
            0 <= k && k + unicode_lowercase(input).len() <= unicode_lowercase(shows[i].name).len()
                && #[trigger] unicode_lowercase(shows[i].name).subrange(
                k,
                k + unicode_lowercase(input).len(),
            ) == unicode_lowercase(input)),
{
    lemma_listed_members(shows, input, shows.len() as int);
    let h = unicode_lowercase(shows[i].name);
    let f = unicode_lowercase(input);
    lemma_find_from(h, f, 0);
    if exists|k: int| 0 <= k && k + f.len() <= h.len() && #[trigger] h.subrange(k, k + f.len()) == f {
        let k = choose|k: int| 0 <= k && k + f.len() <= h.len() && #[trigger] h.subrange(k, k + f.len()) == f;
        assert(matches_at(h, f, k));
    }
    if let Some(k) = find_from(h, f, 0) {
        assert(matches_at(h, f, k));
        assert(h.subrange(k, k + f.len()) == f);
    }
}

// ---------------------------------------------------------------------------
// Season markers in base titles
// ---------------------------------------------------------------------------

/// An ordinal suffix: `st`, `nd`, `rd` or `th`.
pub open spec fn ordinal_suffix(sfx: Seq<char>) -> bool {
    sfx == "st"@ || sfx == "nd"@ || sfx == "rd"@ || sfx == "th"@
}

/// A base title holds no `Nth Season` marker: for a title `a` with no
/// subtitle separator, `a` followed by ` Nth Season` has the base title of
/// `a` whenever the regular-expression engine finds no `Season N` in either
/// and removes exactly `Nth Season` as the leftmost ordinal marker (leaving
/// `a` and its trailing space), and finds no marker in `a`.
pub proof fn law_base_title_drops_ordinal_season(a: Seq<char>, n: nat, sfx: Seq<char>)
    requires
        ordinal_suffix(sfx),
        has_no_separator(a + " "@ + decimal(n) + sfx + " Season"@),
        has_no_separator(a),
        regex_replace_leftmost(
            season_num_pattern(),
            a + " "@ + decimal(n) + sfx + " Season"@,
            Seq::empty(),
        ) == Some(a + " "@ + decimal(n) + sfx + " Season"@),
        regex_replace_leftmost(
            ordinal_season_pattern(),
            a + " "@ + decimal(n) + sfx + " Season"@,
            Seq::empty(),
        ) == Some(a + " "@),
        regex_replace_leftmost(season_num_pattern(), a, Seq::empty()) == Some(a),
        regex_replace_leftmost(ordinal_season_pattern(), a, Seq::empty()) == Some(a),
    ensures
        base_title_spec(a + " "@ + decimal(n) + sfx + " Season"@) == base_title_spec(a),
{
    let t = a + " "@ + decimal(n) + sfx + " Season"@;
    lemma_no_separator_cut(t);
    lemma_no_separator_cut(a);
    assert(t.subrange(0, t.len() as int) =~= t);
    assert(a.subrange(0, a.len() as int) =~= a);
    let set = seq!['?', '!', ':', '.', '-', ' '];
    let a1 = a + " "@;
    reveal_strlit(" ");
    assert(a1.last() == ' ');
    assert(set.contains(' ')) by {
        assert(set[5] == ' ');
    }
    assert(a1.drop_last() =~= a);
    assert(trim_end_chars(a1, set) == trim_end_chars(a, set));
}

/// A title without subtitle separators is cut at its end.
proof fn lemma_no_separator_cut(s: Seq<char>)
    requires
        has_no_separator(s),
    ensures
        subtitle_cut(s) == s.len(),
{
}

} // verus!
