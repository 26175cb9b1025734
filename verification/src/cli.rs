//! The command line and the settings a download run derives from it.
use vstd::prelude::*;
use crate::api::{ShowResult, TranslationType};
use crate::config::Config;
use crate::text::{append_str, chars_of, decimal, push_decimal, string_of, trim, trim_exec};

verus! {

/// What the user asked for on the command line.
pub struct Cli {
    /// Search term; prompted for when absent.
    pub query: Option<String>,
    /// Download directory (default: the configured one).
    pub download_dir: Option<String>,
    /// `best`, `worst` or a height (default: the configured one).
    pub quality: Option<String>,
    /// Episode range such as `1`, `1-12`, `1 2 5`.
    pub episodes: Option<String>,
    /// Download the dubbed version.
    pub dubbed: bool,
    /// Season number for the `SxxExx` tag (inferred when absent).
    pub season: Option<u32>,
    /// Pick the nth search result.
    pub number: Option<usize>,
    /// Parallel HLS segment downloads.
    pub concurrency: Option<usize>,
    /// Print the resolved stream URLs instead of downloading.
    pub list_providers: bool,
    /// Plain-text output without the TUI.
    pub no_tui: bool,
    /// Download again even when the file exists.
    pub force: bool,
    pub command: Option<Command>,
}

/// Subcommands.
pub enum Command {
    /// Provider health check, once or as a daemon.
    Sync { daemon: bool },
    /// Print the configuration path and contents.
    Config,
    /// Download a raw HLS or mp4 URL.
    Hls { url: String, out: String, concurrency: usize, quality: String, referer: String },
}

/// The settings of a download run.
pub struct DownloadSettings {
    pub mode: TranslationType,
    pub concurrency: usize,
    pub quality: String,
    pub out_dir: String,
}

/// A command-line value, else the configured one.
pub open spec fn or_config(flag: Option<Seq<char>>, configured: Seq<char>) -> Seq<char> {
    match flag {
        Some(v) => v,
        None => configured,
    }
}

fn pick_text(flag: &Option<String>, configured: &String) -> (r: String)
    ensures
        r@ == or_config(crate::providers::opt_string(*flag), configured@),
{
    match flag {
        Some(v) => v.clone(),
        None => configured.clone(),
    }
}

/// Settings for a download run: dubbed or subbed, and each of concurrency,
/// quality and directory from the command line when given, else from the
/// configuration.
pub fn download_settings(cli: &Cli, cfg: &Config) -> (r: DownloadSettings)
    ensures
        r.mode == (if cli.dubbed {
            TranslationType::Dub
        } else {
            TranslationType::Sub
        }),
        r.concurrency == (match cli.concurrency {
            Some(c) => c,
            None => cfg.download.concurrency,
        }),
        r.quality@ == or_config(crate::providers::opt_string(cli.quality), cfg.download.quality@),
        r.out_dir@ == or_config(
            crate::providers::opt_string(cli.download_dir),
            cfg.download.directory@,
        ),
{
    DownloadSettings {
        mode: if cli.dubbed {
            TranslationType::Dub
        } else {
            TranslationType::Sub
        },
        concurrency: match cli.concurrency {
            Some(c) => c,
            None => cfg.download.concurrency,
        },
        quality: pick_text(&cli.quality, &cfg.download.quality),
        out_dir: pick_text(&cli.download_dir, &cfg.download.directory),
    }
}

/// A query worth searching: not blank.
pub fn query_ok(query: &str) -> (b: bool)
    ensures
        b == (trim(query@).len() > 0),
{
    trim_exec(&chars_of(query)).len() > 0
}

/// One line of the plain-text result list: the 1-based number, a tab, the
/// name, then the episode count and the year when known.
pub open spec fn listing_spec(i: usize, name: Seq<char>, episodes: u32, year: u32) -> Seq<char> {
    decimal((i + 1) as nat) + "\t"@ + name + (if episodes > 0 {
        " ("@ + decimal(episodes as nat) + " episodes)"@
    } else {
        Seq::empty()
    }) + (if year > 0 {
        " ("@ + decimal(year as nat) + ")"@
    } else {
        Seq::empty()
    })
}

/// The plain-text listing line of search result `i` (0-based).
pub fn listing_line(i: usize, show: &ShowResult) -> (r: String)
    requires
        i < usize::MAX,
    ensures
        r@ == listing_spec(i, show.name@, show.episodes, show.year),
{
    let mut out: Vec<char> = Vec::new();
    push_decimal(&mut out, (i + 1) as u64);
    out.push('\t');
    append_str(&mut out, show.name.as_str());
    let ghost mid = out@;
    if show.episodes > 0 {
        append_str(&mut out, " (");
        push_decimal(&mut out, show.episodes as u64);
        append_str(&mut out, " episodes)");
    }
    let ghost mid2 = out@;
    if show.year > 0 {
        append_str(&mut out, " (");
        push_decimal(&mut out, show.year as u64);
        append_str(&mut out, ")");
    }
    proof {
        reveal_strlit("\t");
        reveal_strlit(" (");
        reveal_strlit(" episodes)");
        reveal_strlit(")");
    }
    assert(out@ =~= listing_spec(i, show.name@, show.episodes, show.year));
    string_of(&out)
}

/// How a download run ends.
#[derive(Clone, Copy, PartialEq, Eq, Structural, Debug)]
pub enum RunVerdict {
    /// Everything asked for was downloaded.
    Done,
    /// Done, but this many files already existed and were skipped.
    Skipped(usize),
    /// This many episodes failed.
    Failed(usize),
}

/// The verdict of a run from its failure and skip counts: failures win.
pub fn run_verdict(failures: usize, skipped: usize) -> (r: RunVerdict)
    ensures
        r == (if failures > 0 {
            RunVerdict::Failed(failures)
        } else if skipped > 0 {
            RunVerdict::Skipped(skipped)
        } else {
            RunVerdict::Done
        }),
{
    if failures > 0 {
        RunVerdict::Failed(failures)
    } else if skipped > 0 {
        RunVerdict::Skipped(skipped)
    } else {
        RunVerdict::Done
    }
}

/// Whether an episode's file is (re)downloaded: always with `--force`,
/// otherwise only when it does not exist yet.
pub fn should_download(file_exists: bool, force: bool) -> (b: bool)
    ensures
        b == (!file_exists || force),
{
    !file_exists || force
}

/// What became of one episode of a run.
#[derive(Clone, Copy, PartialEq, Eq, Structural, Debug)]
pub enum EpisodeOutcome {
    /// No stream, or resolving or downloading it failed.
    Failed,
    /// Its file already existed and `--force` was not given.
    Skipped,
    /// Saved.
    Downloaded,
    /// Its streams were only listed.
    Listed,
}

/// The failures and skips of a run so far.
#[derive(Clone, Copy, PartialEq, Eq, Structural, Debug)]
pub struct RunTally {
    pub failures: usize,
    pub skipped: usize,
}

impl RunTally {
    /// A run before its first episode.
    pub fn new() -> (t: RunTally)
        ensures
            t.failures == 0,
            t.skipped == 0,
    {
        RunTally { failures: 0, skipped: 0 }
    }

    /// Counts one episode's outcome: a failure or a skip adds one to its
    /// count, anything else leaves the tally as it was; a run goes on after
    /// either.
    pub fn record(&mut self, outcome: EpisodeOutcome)
        requires
            old(self).failures < usize::MAX,
            old(self).skipped < usize::MAX,
        ensures
            final(self).failures == old(self).failures + (if outcome == EpisodeOutcome::Failed {
                1int
            } else {
                0int
            }),
            final(self).skipped == old(self).skipped + (if outcome == EpisodeOutcome::Skipped {
                1int
            } else {
                0int
            }),
    {
        match outcome {
            EpisodeOutcome::Failed => self.failures = self.failures + 1,
            EpisodeOutcome::Skipped => self.skipped = self.skipped + 1,
            _ => {},
        }
    }

    /// The verdict of the run so far.
    pub fn verdict(&self) -> (r: RunVerdict)
        ensures
            r == (if self.failures > 0 {
                RunVerdict::Failed(self.failures)
            } else if self.skipped > 0 {
                RunVerdict::Skipped(self.skipped)
            } else {
                RunVerdict::Done
            }),
    {
        run_verdict(self.failures, self.skipped)
    }
}

} // verus!
