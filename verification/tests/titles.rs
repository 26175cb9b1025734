use ani_dl::api::ShowResult;
use ani_dl::providers::Stream;
use ani_dl::titles::{
    base_title, episode_tokens, explicit_season_in_title, file_title, filter_available,
    fmt_height, franchise_key, infer_season_local, is_special_entry, pick_show_choice,
    prefix_search_worthwhile, season_by_franchise_rank, split_range, summarize_streams, ShowPick,
};

fn show(id: &str, name: &str, episodes: u32, year: u32) -> ShowResult {
    ShowResult {
        id: id.to_string(),
        name: name.to_string(),
        episodes,
        year,
    }
}

fn stream(provider: &str, height: u32) -> Stream {
    Stream {
        height,
        url: format!("https://cdn/{provider}/{height}.m3u8"),
        referer: "https://r/".to_string(),
        provider: provider.to_string(),
        subtitle: None,
    }
}

#[test]
fn franchise_key_collapses_separator_punctuation() {
    // Kaguya S1 uses ": ", S2 uses "? " — both must map to the same key.
    let k1 = franchise_key("Kaguya-sama wa Kokurasetai: Tensai-tachi no Renai Zunousen");
    let k2 = franchise_key("Kaguya-sama wa Kokurasetai? Tensai-tachi no Renai Zunousen");
    let k3 = franchise_key("Kaguya-sama wa Kokurasetai: Ultra Romantic");
    assert_eq!(k1, "kaguya-sama wa kokurasetai");
    assert_eq!(k1, k2);
    assert_eq!(k1, k3);
}

#[test]
fn franchise_key_strips_trailing_punctuation_and_season_markers() {
    assert_eq!(franchise_key("Haikyuu!!"), "haikyuu");
    assert_eq!(franchise_key("Haikyuu!! 2nd Season"), "haikyuu");
    assert_eq!(franchise_key("Bocchi the Rock! 2"), "bocchi the rock");
    assert_eq!(franchise_key("Dr. STONE Season 2"), "dr. stone");
}

#[test]
fn kaguya_season_two_ranks_second() {
    let s1 = show(
        "a",
        "Kaguya-sama wa Kokurasetai: Tensai-tachi no Renai Zunousen",
        12,
        2019,
    );
    let s2 = show(
        "b",
        "Kaguya-sama wa Kokurasetai? Tensai-tachi no Renai Zunousen",
        12,
        2020,
    );
    let s3 = show("c", "Kaguya-sama wa Kokurasetai: Ultra Romantic", 13, 2022);
    let ova = show(
        "d",
        "Kaguya-sama wa Kokurasetai: Tensai-tachi no Renai Zunousen OVA",
        1,
        2021,
    );
    let results = vec![s1.clone(), s2.clone(), s3.clone(), ova];
    assert_eq!(season_by_franchise_rank(&s1, &results), Some(1));
    assert_eq!(season_by_franchise_rank(&s2, &results), Some(2));
    assert_eq!(season_by_franchise_rank(&s3, &results), Some(3));
}

#[test]
fn lone_result_gives_no_rank() {
    let s1 = show("a", "Sousou no Frieren", 28, 2023);
    assert_eq!(
        season_by_franchise_rank(&s1, std::slice::from_ref(&s1)),
        None
    );
}

#[test]
fn base_title_keeps_case_and_drops_subtitle() {
    assert_eq!(
        base_title("Kaguya-sama wa Kokurasetai? Tensai-tachi no Renai Zunousen"),
        "Kaguya-sama wa Kokurasetai"
    );
    assert_eq!(
        base_title("Kaguya-sama wa Kokurasetai: Ultra Romantic"),
        "Kaguya-sama wa Kokurasetai"
    );
    assert_eq!(base_title("Mob Psycho 100 Season 3"), "Mob Psycho 100");
    assert_eq!(base_title("Haikyuu!! 2nd Season"), "Haikyuu");
    assert_eq!(base_title("Sousou no Frieren"), "Sousou no Frieren");
}

#[test]
fn explicit_markers_win() {
    assert_eq!(explicit_season_in_title("Mob Psycho 100 Season 3"), Some(3));
    assert_eq!(explicit_season_in_title("Haikyuu!! 2nd Season"), Some(2));
    assert_eq!(
        explicit_season_in_title("Kaguya-sama wa Kokurasetai? Tensai-tachi no Renai Zunousen"),
        None
    );
}

// ---------------------------------------------------------------------------
// Further cases
// ---------------------------------------------------------------------------

#[test]
fn season_markers_are_case_blind_and_positive() {
    assert_eq!(explicit_season_in_title("Attack on Titan SEASON 4"), Some(4));
    assert_eq!(explicit_season_in_title("Show season2"), Some(2));
    assert_eq!(explicit_season_in_title("Show 3rd season"), Some(3));
    assert_eq!(explicit_season_in_title("Show Season 0"), None);
}

#[test]
fn subtitle_separator_does_not_change_base_or_key() {
    // Same head, any separator, any subtitle.
    let a = "Oshi no Ko";
    for sep in [": ", "? ", "! "] {
        let t = format!("{a}{sep}Whatever Comes Next");
        assert_eq!(base_title(&t), "Oshi no Ko");
        assert_eq!(franchise_key(&t), "oshi no ko");
    }
}

#[test]
fn specials_are_short_or_named() {
    assert!(is_special_entry("Anything", 5));
    assert!(is_special_entry("Frieren OVA", 12));
    assert!(is_special_entry("Haikyuu Movie", 24));
    assert!(!is_special_entry("Frieren", 28));
}

#[test]
fn explicit_season_beats_rank() {
    let s = show("x", "Mob Psycho 100 Season 3", 12, 2022);
    let other = show("y", "Mob Psycho 100", 12, 2016);
    assert_eq!(infer_season_local(&s, &[s.clone(), other]), Some(3));
}

#[test]
fn rank_stays_within_franchise() {
    let a = show("a", "Frieren", 28, 2023);
    let b = show("b", "Frieren: Part 2", 12, 2026);
    let c = show("c", "Other Show", 12, 2001);
    let hits = vec![a.clone(), b.clone(), c.clone()];
    assert_eq!(season_by_franchise_rank(&a, &hits), Some(1));
    assert_eq!(season_by_franchise_rank(&b, &hits), Some(2));
    assert_eq!(season_by_franchise_rank(&c, &hits), None);
}

#[test]
fn prefix_search_needs_eight_chars() {
    assert!(prefix_search_worthwhile("kaguya-sama"));
    assert!(!prefix_search_worthwhile("haikyuu"));
}

#[test]
fn file_title_uses_base_only_for_known_seasons() {
    let name = "Kaguya-sama wa Kokurasetai? Tensai-tachi no Renai Zunousen";
    assert_eq!(file_title(Some(2), name), "Kaguya-sama wa Kokurasetai");
    assert_eq!(file_title(None, name), name);
    assert_eq!(file_title(Some(1), "Season 2"), "Season 2");
}

#[test]
fn heights_and_stream_summaries() {
    assert_eq!(fmt_height(1080), "1080p");
    assert_eq!(fmt_height(0), "???");
    assert_eq!(summarize_streams(&[]), "(none)");
    assert_eq!(
        summarize_streams(&[stream("yt", 1080), stream("hls", 720), stream("mp4upload", 0)]),
        "yt (1080p), hls (720p), mp4upload (???)"
    );
}

#[test]
fn show_pick_from_flags() {
    assert_eq!(pick_show_choice(Some(2), false, 3), ShowPick::Chosen(1));
    assert_eq!(pick_show_choice(Some(0), false, 3), ShowPick::OutOfRange);
    assert_eq!(pick_show_choice(Some(4), true, 3), ShowPick::OutOfRange);
    assert_eq!(pick_show_choice(None, true, 3), ShowPick::ListOnly);
    assert_eq!(pick_show_choice(None, false, 3), ShowPick::Interactive);
}

#[test]
fn episode_tokens_split_on_commas_and_spaces() {
    assert_eq!(episode_tokens(" 1, 2  5,,7 "), ["1", "2", "5", "7"]);
    assert!(episode_tokens(" , ").is_empty());
}

#[test]
fn range_tokens_split_after_the_first_character() {
    assert_eq!(split_range("1-12"), Some(("1".to_string(), "12".to_string())));
    assert_eq!(split_range("12--1"), Some(("12".to_string(), "-1".to_string())));
    assert_eq!(split_range("-1"), None);
    assert_eq!(
        split_range("ワンピース-1"),
        Some(("ワンピース".to_string(), "1".to_string()))
    );
    assert_eq!(split_range(""), None);
}

#[test]
fn picks_are_filtered_and_deduplicated() {
    let avail: Vec<String> = ["1", "2", "3"].iter().map(|s| s.to_string()).collect();
    let picked: Vec<String> = ["3", "9", "1", "3"].iter().map(|s| s.to_string()).collect();
    let r = filter_available(&picked, &avail);
    assert_eq!(r.chosen, ["3", "1"]);
    assert_eq!(r.unavailable, ["9"]);
}

fn strings(v: &[&str]) -> Vec<String> {
    v.iter().map(|s| s.to_string()).collect()
}

fn pair(a: &str, b: &str) -> Option<(String, String)> {
    Some((a.to_string(), b.to_string()))
}

#[test]
fn episode_argument_range_forms_split_as_ani_cli_reads_them() {
    let eps = strings(&["2", "3", "4", "5"]);
    // "0" as a start and "-1" as an end survive the split as written.
    assert_eq!(episode_tokens("0--1"), ["0--1"]);
    assert_eq!(split_range("0--1"), pair("0", "-1"));
    assert_eq!(split_range("3--1"), pair("3", "-1"));
    assert_eq!(split_range("0-3"), pair("0", "3"));
    assert_eq!(split_range("3-4"), pair("3", "4"));
    assert_eq!(split_range("8-9"), pair("8", "9"));
    // "-1" alone is no range.
    assert_eq!(episode_tokens("-1"), ["-1"]);
    assert_eq!(split_range("-1"), None);
    // Plain lists keep their order through the availability filter.
    assert_eq!(episode_tokens("5 3"), ["5", "3"]);
    assert_eq!(filter_available(&strings(&["5", "3"]), &eps).chosen, ["5", "3"]);
    assert_eq!(episode_tokens("2,4"), ["2", "4"]);
    assert_eq!(filter_available(&strings(&["2", "4"]), &eps).chosen, ["2", "4"]);
    // A whole-show range expands to every available episode, once each.
    assert_eq!(filter_available(&eps, &eps).chosen, eps);
}

#[test]
fn episode_argument_odd_tokens_are_split_safely_and_dropped() {
    let eps = strings(&["1", "2"]);
    // A multi-byte first character is kept whole.
    assert_eq!(split_range("ワンピース-1"), pair("ワンピース", "1"));
    assert_eq!(split_range("-"), None);
    assert_eq!(split_range("a-b"), pair("a", "b"));
    // Tokens whose bounds are no numbers are passed through and found unavailable.
    let r = filter_available(&strings(&["ワンピース-1", "-", "a-b"]), &eps);
    assert!(r.chosen.is_empty());
    assert_eq!(r.unavailable, ["ワンピース-1", "-", "a-b"]);
}

#[test]
fn episode_argument_decimal_episodes_are_kept() {
    let eps = strings(&["1", "1.5", "2"]);
    assert_eq!(split_range("1-2"), pair("1", "2"));
    assert_eq!(episode_tokens("1.5"), ["1.5"]);
    assert_eq!(filter_available(&strings(&["1.5"]), &eps).chosen, ["1.5"]);
    assert_eq!(filter_available(&strings(&["1", "1.5", "2", "1.5"]), &eps).chosen, ["1", "1.5", "2"]);
}
