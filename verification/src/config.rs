//! User configuration (`~/.config/ani-dl/config.toml`) and where it lives.
use vstd::prelude::*;
use crate::text::{append_str, chars_of, string_of};

verus! {

// ---------------------------------------------------------------------------
// Configuration
// ---------------------------------------------------------------------------

/// Download settings.
pub struct DownloadConfig {
    pub directory: String,
    pub quality: String,
    pub concurrency: usize,
    pub retries: u32,
}

/// Settings of the `sync` health check.
pub struct SyncConfig {
    pub interval_hours: u64,
    /// Search query used by the health check.
    pub test_query: String,
    pub test_episode: String,
}

/// The whole configuration file.
pub struct Config {
    pub download: DownloadConfig,
    pub sync: SyncConfig,
}

/// How the core reaches a minter: `transport` is `none`, `stdio` or `http`;
/// `command` is the program line a `stdio` minter is started with.
pub struct MinterConfig {
    pub transport: String,
    pub command: String,
}

impl Default for DownloadConfig {
    fn default() -> (r: DownloadConfig)
        ensures
            r.directory@ == "."@,
            r.quality@ == "best"@,
            r.concurrency == 16,
            r.retries == 3,
    {
        DownloadConfig {
            directory: String::from_str("."),
            quality: String::from_str("best"),
            concurrency: 16,
            retries: 3,
        }
    }
}

impl Default for SyncConfig {
    fn default() -> (r: SyncConfig)
        ensures
            r.interval_hours == 24,
            r.test_query@ == "cyberpunk edgerunners"@,
            r.test_episode@ == "1"@,
    {
        SyncConfig {
            interval_hours: 24,
            test_query: String::from_str("cyberpunk edgerunners"),
            test_episode: String::from_str("1"),
        }
    }
}

impl Default for Config {
    fn default() -> (r: Config)
        ensures
            r.download.directory@ == "."@,
            r.download.quality@ == "best"@,
            r.download.concurrency == 16,
            r.download.retries == 3,
            r.sync.interval_hours == 24,
            r.sync.test_query@ == "cyberpunk edgerunners"@,
            r.sync.test_episode@ == "1"@,
    {
        Config { download: DownloadConfig::default(), sync: SyncConfig::default() }
    }
}

impl Default for MinterConfig {
    fn default() -> (r: MinterConfig)
        ensures
            r.transport@ == Seq::<char>::empty(),
            r.command@ == Seq::<char>::empty(),
    {
        MinterConfig { transport: String::new(), command: String::new() }
    }
}

/// `base` joined with a relative path component, as `PathBuf::push` does on
/// Unix: a `/` is put between them unless `base` is empty or ends with one.
pub open spec fn join_path(base: Seq<char>, part: Seq<char>) -> Seq<char> {
    if base.len() == 0 || base.last() == '/' {
        base + part
    } else {
        base + "/"@ + part
    }
}

fn join_path_exec(base: &Vec<char>, part: &str) -> (r: Vec<char>)
    ensures
        r@ == join_path(base@, part@),
{
    let mut out = crate::text::slice_vec(base, 0, base.len());
    assert(base@.subrange(0, base@.len() as int) =~= base@);
    if !(base.len() == 0 || base[base.len() - 1] == '/') {
        out.push('/');
    }
    let ghost mid = out@;
    append_str(&mut out, part);
    proof {
        reveal_strlit("/");
    }
    assert(out@ =~= join_path(base@, part@));
    out
}

/// The configuration directory under a home directory.
pub open spec fn config_dir_spec(home: Seq<char>) -> Seq<char> {
    join_path(join_path(home, ".config"@), "ani-dl"@)
}

/// `~/.config/ani-dl` for the given home directory.
pub fn config_dir(home: &str) -> (r: String)
    ensures
        r@ == config_dir_spec(home@),
{
    let h = chars_of(home);
    let c = join_path_exec(&h, ".config");
    string_of(&join_path_exec(&c, "ani-dl"))
}

/// `~/.config/ani-dl/config.toml` for the given home directory.
pub fn config_path(home: &str) -> (r: String)
    ensures
        r@ == join_path(config_dir_spec(home@), "config.toml"@),
{
    let d = chars_of(config_dir(home).as_str());
    string_of(&join_path_exec(&d, "config.toml"))
}

/// A file in the configuration directory.
pub fn config_file(home: &str, name: &str) -> (r: String)
    ensures
        r@ == join_path(config_dir_spec(home@), name@),
{
    let d = chars_of(config_dir(home).as_str());
    string_of(&join_path_exec(&d, name))
}

} // verus!
