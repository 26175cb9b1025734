use ani_dl::naming::build_filename;
use ani_dl::titles::base_title;

/// The episode as a whole number when it reads as one (what the downloader
/// passes along with the episode string).
fn whole_number(episode: &str) -> Option<u64> {
    match episode.parse::<f64>() {
        Ok(f) if f.fract() == 0.0 => Some(f as u64),
        _ => None,
    }
}

fn filename(name: &str, season: u32, episode: &str) -> String {
    build_filename(name, season, episode, whole_number(episode))
}

#[test]
fn filename_uses_base_title_for_known_season() {
    let base = base_title("Kaguya-sama wa Kokurasetai? Tensai-tachi no Renai Zunousen");
    assert_eq!(filename(&base, 2, "1"), "Kaguya-sama.wa.Kokurasetai.S02E01");
}

#[test]
fn documented_filename_shape() {
    assert_eq!(
        filename("Tongari Boushi no Atelier", 1, "13"),
        "Tongari.Boushi.no.Atelier.S01E13"
    );
}

#[test]
fn unsafe_characters_and_gaps() {
    assert_eq!(filename("Re:Zero - Starting Life", 1, "1"), "ReZero.-.Starting.Life.S01E01");
    assert_eq!(filename("  __Dr.   STONE__ ", 3, "2"), "Dr.STONE.S03E02");
    assert_eq!(filename("Sōsō no Frieren", 1, "1"), "Sōsō.no.Frieren.S01E01");
    assert_eq!(filename("!!!", 1, "1"), "anime.S01E01");
    assert_eq!(filename("...", 1, "1"), "anime.S01E01");
}

#[test]
fn fractional_and_odd_episodes_are_kept() {
    assert_eq!(filename("X", 1, "1.5"), "X.S01E1.5");
    assert_eq!(filename("X", 1, "7.0"), "X.S01E07");
    assert_eq!(filename("X", 12, "120"), "X.S12E120");
    assert_eq!(filename("X", 1, "SP"), "X.S01ESP");
}

#[test]
fn cleaned_names_only_get_dotted() {
    assert_eq!(
        ani_dl::naming::cleaned_filename(" Mob Psycho 100 ", 3, "12", Some(12)),
        "Mob.Psycho.100.S03E12"
    );
    assert_eq!(ani_dl::naming::cleaned_filename("", 1, "OVA", None), "anime.S01EOVA");
}
