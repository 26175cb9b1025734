use ani_dl::api::{ShowResult, TranslationType};
use ani_dl::cli::{
    download_settings, listing_line, query_ok, run_verdict, should_download, Cli, Command, EpisodeOutcome,
    RunTally, RunVerdict,
};
use ani_dl::config::{config_dir, config_file, config_path, Config, DownloadConfig, MinterConfig, SyncConfig};
use ani_dl::version::{long, short};

fn cli() -> Cli {
    Cli {
        query: None,
        download_dir: None,
        quality: None,
        episodes: None,
        dubbed: false,
        season: None,
        number: None,
        concurrency: None,
        list_providers: false,
        no_tui: false,
        force: false,
        command: Some(Command::Config),
    }
}

#[test]
fn defaults() {
    let c = Config::default();
    assert_eq!(c.download.directory, ".");
    assert_eq!(c.download.quality, "best");
    assert_eq!(c.download.concurrency, 16);
    assert_eq!(c.download.retries, 3);
    assert_eq!(c.sync.interval_hours, 24);
    assert_eq!(c.sync.test_query, "cyberpunk edgerunners");
    assert_eq!(c.sync.test_episode, "1");
    assert_eq!(DownloadConfig::default().quality, "best");
    assert_eq!(SyncConfig::default().interval_hours, 24);
    assert!(MinterConfig::default().transport.is_empty());
}

#[test]
fn config_locations() {
    assert_eq!(config_dir("/home/u"), "/home/u/.config/ani-dl");
    assert_eq!(config_dir("/home/u/"), "/home/u/.config/ani-dl");
    assert_eq!(config_path("/home/u"), "/home/u/.config/ani-dl/config.toml");
    assert_eq!(config_file("/root", "sync.log"), "/root/.config/ani-dl/sync.log");
}

#[test]
fn version_lines() {
    assert_eq!(short("1.0.0", "unknown"), "1.0.0");
    assert_eq!(short("1.0.0", "a1b2c3d45"), "1.0.0 (a1b2c3d45)");
    assert_eq!(
        long("1.0.0", "a1b2c3d45", "aarch64-apple-darwin"),
        "1.0.0\ncommit:         a1b2c3d45\ntarget:         aarch64-apple-darwin\nani-cli parity: 5.0.4\nprovider:       https://anidb.app"
    );
}

#[test]
fn settings_prefer_the_command_line() {
    let cfg = Config::default();
    let s = download_settings(&cli(), &cfg);
    assert_eq!(s.mode, TranslationType::Sub);
    assert_eq!((s.concurrency, s.quality.as_str(), s.out_dir.as_str()), (16, "best", "."));
    let mut c = cli();
    c.dubbed = true;
    c.concurrency = Some(4);
    c.quality = Some("720".to_string());
    c.download_dir = Some("/tmp/anime".to_string());
    let s = download_settings(&c, &cfg);
    assert_eq!(s.mode, TranslationType::Dub);
    assert_eq!((s.concurrency, s.quality.as_str(), s.out_dir.as_str()), (4, "720", "/tmp/anime"));
}

#[test]
fn queries_and_listings() {
    assert!(query_ok(" frieren "));
    assert!(!query_ok(" \t "));
    let s = ShowResult { id: "x".to_string(), name: "Frieren".to_string(), episodes: 28, year: 2023 };
    assert_eq!(listing_line(0, &s), "1\tFrieren (28 episodes) (2023)");
    let s = ShowResult { id: "x".to_string(), name: "Frieren".to_string(), episodes: 0, year: 0 };
    assert_eq!(listing_line(9, &s), "10\tFrieren");
}

#[test]
fn run_verdicts() {
    assert_eq!(run_verdict(0, 0), RunVerdict::Done);
    assert_eq!(run_verdict(0, 2), RunVerdict::Skipped(2));
    assert_eq!(run_verdict(1, 2), RunVerdict::Failed(1));
}

#[test]
fn parity_text() {
    assert_eq!(ani_dl::version::parity(), "5.0.4");
}

#[test]
fn existing_files_are_kept_unless_forced() {
    assert!(should_download(false, false));
    assert!(!should_download(true, false));
    assert!(should_download(true, true));
}

#[test]
fn a_run_counts_failures_and_skips_and_goes_on() {
    let mut t = RunTally::new();
    assert_eq!(t.verdict(), RunVerdict::Done);
    t.record(EpisodeOutcome::Downloaded);
    t.record(EpisodeOutcome::Skipped);
    t.record(EpisodeOutcome::Listed);
    assert_eq!(t.verdict(), RunVerdict::Skipped(1));
    t.record(EpisodeOutcome::Failed);
    t.record(EpisodeOutcome::Skipped);
    assert_eq!((t.failures, t.skipped), (1, 2));
    assert_eq!(t.verdict(), RunVerdict::Failed(1));
}
