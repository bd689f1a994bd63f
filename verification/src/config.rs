//! Settings and the places where the daemon keeps its files.
//!
//! Directories come in as plain strings (the platform's answer for the user's
//! configuration, data and runtime directories, and `$HOME`); the functions here
//! decide the fallbacks and build the paths.
use vstd::prelude::*;

use crate::db::opt_ref_view;
use crate::text::{chars_of, push_str, string_of};

verus! {

/// `rel` appended to `base` as std's `Path::join` appends a relative path:
/// `rel` alone when `base` is empty, else one `/` between them unless `base`
/// already ends with one.
pub open spec fn join_path(base: Seq<char>, rel: Seq<char>) -> Seq<char> {
    if base.len() == 0 {
        rel
    } else if base.last() == '/' {
        base + rel
    } else {
        base + "/"@ + rel
    }
}

/// Joins a relative path onto a base path.
pub fn join(base: &str, rel: &str) -> (r: String)
    ensures
        r@ == join_path(base@, rel@),
{
    let mut out = chars_of(base);
    let n = out.len();
    if n > 0 && out[n - 1] != '/' {
        out.push('/');
    }
    push_str(&mut out, rel);
    let r = string_of(&out);
    proof {
        reveal_strlit("/");
    }
    assert(r@ =~= join_path(base@, rel@));
    r
}

/// The directory a platform directory stands for: the one given, or `fallback`
/// under the home directory.
pub open spec fn dir_or_home(dir: Option<Seq<char>>, home: Seq<char>, fallback: Seq<char>) -> Seq<char> {
    match dir {
        Some(d) => d,
        None => join_path(home, fallback),
    }
}

/// The directory given, or `fallback` under the home directory.
fn dir_or_home_exec(dir: Option<&str>, home: &str, fallback: &str) -> (r: String)
    ensures
        r@ == dir_or_home(opt_ref_view(dir), home@, fallback@),
{
    match dir {
        Some(d) => d.to_owned(),
        None => join(home, fallback),
    }
}

/// The configuration file: `clypse/config.toml` under the configuration
/// directory, which defaults to `.config` under the home directory.
pub open spec fn config_file(config_dir: Option<Seq<char>>, home: Seq<char>) -> Seq<char> {
    join_path(dir_or_home(config_dir, home, ".config"@), "clypse/config.toml"@)
}

/// The daemon's data directory: `clypse` under the local data directory, which
/// defaults to `.local/share` under the home directory.
pub open spec fn data_directory(data_local_dir: Option<Seq<char>>, home: Seq<char>) -> Seq<char> {
    join_path(dir_or_home(data_local_dir, home, ".local/share"@), "clypse"@)
}

/// The daemon's socket: `clypse/daemon.sock` under the runtime directory, or
/// under the temporary directory when there is none.
pub open spec fn socket_file(runtime_dir: Option<Seq<char>>, temp_dir: Seq<char>) -> Seq<char> {
    join_path(
        match runtime_dir {
            Some(d) => d,
            None => temp_dir,
        },
        "clypse/daemon.sock"@,
    )
}

/// The daemon's settings.
#[derive(Debug, Clone, Copy, PartialEq, Eq)]
pub struct Config {
    /// The most entries kept; older ones that are neither favorite nor pinned go.
    pub max_history_items: usize,
    /// Images larger than this are not captured.
    pub max_image_size_bytes: u64,
    /// Entries older than this many days may be cleared; `None` keeps them.
    pub auto_clear_days: Option<u32>,
    /// Whether images are captured.
    pub enable_images: bool,
    /// The least time between two captures, in milliseconds.
    pub debounce_ms: u64,
}

/// The settings a fresh installation starts with.
pub open spec fn default_config() -> Config {
    Config {
        max_history_items: 500,
        max_image_size_bytes: 10485760u64,
        auto_clear_days: None,
        enable_images: true,
        debounce_ms: 50,
    }
}

impl Default for Config {
    /// Five hundred entries, images up to 10 MiB, no automatic clearing,
    /// images on, 50 ms between captures.
    fn default() -> (r: Self)
        ensures
            r == default_config(),
    {
        Config {
            max_history_items: 500,
            max_image_size_bytes: 10 * 1024 * 1024,
            auto_clear_days: None,
            enable_images: true,
            debounce_ms: 50,
        }
    }
}

impl Config {
    /// The configuration file's path.
    pub fn config_path(config_dir: Option<&str>, home: &str) -> (r: String)
        ensures
            r@ == config_file(opt_ref_view(config_dir), home@),
    {
        let dir = dir_or_home_exec(config_dir, home, ".config");
        join(dir.as_str(), "clypse/config.toml")
    }

    /// The data directory's path.
    pub fn data_dir(data_local_dir: Option<&str>, home: &str) -> (r: String)
        ensures
            r@ == data_directory(opt_ref_view(data_local_dir), home@),
    {
        let dir = dir_or_home_exec(data_local_dir, home, ".local/share");
        join(dir.as_str(), "clypse")
    }

    /// The history database: `history.db` in the data directory.
    pub fn db_path(data_local_dir: Option<&str>, home: &str) -> (r: String)
        ensures
            r@ == join_path(data_directory(opt_ref_view(data_local_dir), home@), "history.db"@),
    {
        let dir = Self::data_dir(data_local_dir, home);
        join(dir.as_str(), "history.db")
    }

    /// Where image payloads are stored: `images` in the data directory.
    pub fn images_dir(data_local_dir: Option<&str>, home: &str) -> (r: String)
        ensures
            r@ == join_path(data_directory(opt_ref_view(data_local_dir), home@), "images"@),
    {
        let dir = Self::data_dir(data_local_dir, home);
        join(dir.as_str(), "images")
    }

    /// The daemon's socket path.
    pub fn socket_path(runtime_dir: Option<&str>, temp_dir: &str) -> (r: String)
        ensures
            r@ == socket_file(opt_ref_view(runtime_dir), temp_dir@),
    {
        match runtime_dir {
            Some(d) => join(d, "clypse/daemon.sock"),
            None => join(temp_dir, "clypse/daemon.sock"),
        }
    }
}

// ─── The settings the window edits ────────────────────────────────────────────

/// The settings as the window reads and writes them; a field missing from the
/// file takes its default.
#[derive(Debug, Clone, Copy, PartialEq, Eq)]
pub struct GuiConfig {
    pub max_history_items: usize,
    pub max_image_size_bytes: u64,
    pub auto_clear_days: Option<u32>,
    pub enable_images: bool,
    pub debounce_ms: u64,
}

/// The default for a missing `max_history_items`.
pub fn default_max_history() -> (r: usize)
    ensures
        r == 500,
{
    500
}

/// The default for a missing `max_image_size_bytes`: 10 MiB.
pub fn default_max_image_size() -> (r: u64)
    ensures
        r == 10 * 1024 * 1024,
{
    10 * 1024 * 1024
}

/// The default for a missing `enable_images`.
pub fn default_true() -> (r: bool)
    ensures
        r,
{
    true
}

/// The default for a missing `debounce_ms`.
pub fn default_debounce() -> (r: u64)
    ensures
        r == 50,
{
    50
}

impl Default for GuiConfig {
    /// The same defaults as the daemon's.
    fn default() -> (r: Self)
        ensures
            r.max_history_items == 500,
            r.max_image_size_bytes == 10 * 1024 * 1024,
            r.auto_clear_days is None,
            r.enable_images,
            r.debounce_ms == 50,
    {
        GuiConfig {
            max_history_items: default_max_history(),
            max_image_size_bytes: default_max_image_size(),
            auto_clear_days: None,
            enable_images: default_true(),
            debounce_ms: default_debounce(),
        }
    }
}

/// The automatic clearing a day count sets: zero days turns it off.
pub open spec fn clear_after(days: u32) -> Option<u32> {
    if days == 0 {
        None
    } else {
        Some(days)
    }
}

impl GuiConfig {
    /// The configuration file's path, the same file the daemon reads.
    pub fn path(config_dir: Option<&str>, home: &str) -> (r: String)
        ensures
            r@ == config_file(opt_ref_view(config_dir), home@),
    {
        Config::config_path(config_dir, home)
    }

    /// The settings the preferences dialog leaves: its values as they stand,
    /// with zero days of automatic clearing meaning none.
    pub fn from_dialog(
        max_history_items: usize,
        max_image_size_bytes: u64,
        auto_clear_days: u32,
        enable_images: bool,
        debounce_ms: u64,
    ) -> (r: GuiConfig)
        ensures
            r.max_history_items == max_history_items,
            r.max_image_size_bytes == max_image_size_bytes,
            r.auto_clear_days == clear_after(auto_clear_days),
            r.enable_images == enable_images,
            r.debounce_ms == debounce_ms,
    {
        GuiConfig {
            max_history_items,
            max_image_size_bytes,
            auto_clear_days: if auto_clear_days == 0 { None } else { Some(auto_clear_days) },
            enable_images,
            debounce_ms,
        }
    }
}

} // verus!
