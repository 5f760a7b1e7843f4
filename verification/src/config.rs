//! The config file: its shape, where it is found, and what its absence means.

use vstd::prelude::*;

use crate::double::Double;
use crate::error::Error;

verus! {

/// On-disk config shape. All fields optional so an empty file is valid.
#[derive(Debug)]
pub struct FileConfig {
    pub inactive: InactiveConfig,
    pub underutilized: UnderutilizedConfig,
    pub long_lived: LongLivedConfig,
    pub warn: WarnConfig,
    pub slack: SlackConfig,
}

#[derive(Debug)]
pub struct InactiveConfig {
    /// Days since last activity below which the rule does not fire.
    pub low_days: Option<i64>,
    /// Days at or above which the verdict severity is Medium.
    pub medium_days: Option<i64>,
    /// Days at or above which the verdict severity is High.
    pub high_days: Option<i64>,
    /// CloudWatch sample floor. Below this the rule does not fire.
    pub min_samples: Option<usize>,
}

#[derive(Debug)]
pub struct LongLivedConfig {
    /// Total instance age at or above which the `long_lived` verdict fires.
    pub age_days: Option<i64>,
}

#[derive(Debug)]
pub struct UnderutilizedConfig {
    /// p95 CPU % below which the `underutilized` warning fires.
    pub p95_threshold_pct: Option<Double>,
}

#[derive(Debug)]
pub struct WarnConfig {
    /// Lead-time before `ExpiresAt` for the `expiring_soon` verdict.
    pub window_hours: Option<i64>,
}

#[derive(Debug)]
pub struct SlackConfig {
    /// Where reports are posted; `$GASLEAK_SLACK_WEBHOOK` where it is unset.
    pub webhook_url: Option<String>,
    /// Severity from which owners are mentioned.
    pub mention_owner_at_severity: Option<String>,
    /// Low-severity rows that are shown in full.
    pub max_flagged_rows: Option<usize>,
    /// Where the full report is found.
    pub report_url: Option<String>,
}

impl Default for InactiveConfig {
    fn default() -> (r: InactiveConfig)
        ensures
            r.low_days is None,
            r.medium_days is None,
            r.high_days is None,
            r.min_samples is None,
    {
        InactiveConfig { low_days: None, medium_days: None, high_days: None, min_samples: None }
    }
}

impl Default for LongLivedConfig {
    fn default() -> (r: LongLivedConfig)
        ensures
            r.age_days is None,
    {
        LongLivedConfig { age_days: None }
    }
}

impl Default for UnderutilizedConfig {
    fn default() -> (r: UnderutilizedConfig)
        ensures
            r.p95_threshold_pct is None,
    {
        UnderutilizedConfig { p95_threshold_pct: None }
    }
}

impl Default for WarnConfig {
    fn default() -> (r: WarnConfig)
        ensures
            r.window_hours is None,
    {
        WarnConfig { window_hours: None }
    }
}

impl Default for SlackConfig {
    fn default() -> (r: SlackConfig)
        ensures
            r.webhook_url is None,
            r.mention_owner_at_severity is None,
            r.max_flagged_rows is None,
            r.report_url is None,
    {
        SlackConfig {
            webhook_url: None,
            mention_owner_at_severity: None,
            max_flagged_rows: None,
            report_url: None,
        }
    }
}

impl FileConfig {
    /// Whether nothing is set.
    pub open spec fn unset(self) -> bool {
        &&& self.inactive.low_days is None
        &&& self.inactive.medium_days is None
        &&& self.inactive.high_days is None
        &&& self.inactive.min_samples is None
        &&& self.underutilized.p95_threshold_pct is None
        &&& self.long_lived.age_days is None
        &&& self.warn.window_hours is None
        &&& self.slack.webhook_url is None
        &&& self.slack.mention_owner_at_severity is None
        &&& self.slack.max_flagged_rows is None
        &&& self.slack.report_url is None
    }
}

impl Default for FileConfig {
    fn default() -> (r: FileConfig)
        ensures
            r.unset(),
    {
        FileConfig {
            inactive: InactiveConfig::default(),
            underutilized: UnderutilizedConfig::default(),
            long_lived: LongLivedConfig::default(),
            warn: WarnConfig::default(),
            slack: SlackConfig::default(),
        }
    }
}

/// Resolved config source, plus whether it was explicitly requested by the
/// user. Explicit paths (CLI `--config` or `$GASLEAK_CONFIG`) error on missing
/// file. The default HOME path silently falls back to the defaults.
#[derive(Debug)]
pub struct ConfigPath {
    pub path: String,
    pub is_explicit: bool,
}

/// The path of the config file below a home directory.
pub open spec fn home_path(home: Seq<char>) -> Seq<char> {
    if home.last() == '/' {
        home + ".config/gasleak/gasleak.toml"@
    } else {
        home + "/.config/gasleak/gasleak.toml"@
    }
}

/// The config file to use, and whether it was asked for: the CLI flag; then
/// the environment variable, unless empty; then the home directory.
pub open spec fn config_source(
    cli_override: Option<Seq<char>>,
    env: Option<Seq<char>>,
    home: Option<Seq<char>>,
) -> Option<(Seq<char>, bool)> {
    if cli_override is Some {
        Some((cli_override->0, true))
    } else if env is Some && env->0.len() > 0 {
        Some((env->0, true))
    } else if home is Some && home->0.len() > 0 {
        Some((home_path(home->0), false))
    } else {
        None
    }
}

/// Resolve which config file to load.
///
/// Precedence, highest first:
/// 1. `--config <PATH>` CLI flag. Explicit, errors if missing.
/// 2. `$GASLEAK_CONFIG` env var. Explicit, errors if missing.
/// 3. `$HOME/.config/gasleak/gasleak.toml`. Default, silent if missing.
pub fn resolve(cli_override: Option<&str>, env: Option<&str>, home: Option<&str>) -> (r: Option<
    ConfigPath,
>)
    ensures
        (match r {
            Some(p) => Some((p.path@, p.is_explicit)),
            None => None,
        }) == config_source(
            crate::model::option_slice(cli_override),
            crate::model::option_slice(env),
            crate::model::option_slice(home),
        ),
{
    if let Some(p) = cli_override {
        return Some(ConfigPath { path: p.to_string(), is_explicit: true });
    }
    if let Some(explicit) = env {
        if explicit.unicode_len() > 0 {
            return Some(ConfigPath { path: explicit.to_string(), is_explicit: true });
        }
    }
    let home: &str = match home {
        Some(h) => h,
        None => return None,
    };
    let n: usize = home.unicode_len();
    if n == 0 {
        return None;
    }
    let path: String = if home.get_char(n - 1) == '/' {
        home.to_string().concat(".config/gasleak/gasleak.toml")
    } else {
        home.to_string().concat("/.config/gasleak/gasleak.toml")
    };
    Some(ConfigPath { path, is_explicit: false })
}

/// What is to be done about the config file.
#[derive(Debug)]
pub enum LoadStep {
    /// There is none, and none was asked for.
    UseDefaults,
    /// It is to be read from this path.
    Read(String),
    /// It was asked for and is missing.
    Fail(Error),
}

/// Decide what to do about the config file:
///
/// - No path resolves (no `HOME`, no override) -> defaults.
/// - The file exists -> read it.
/// - The default path is missing -> silently use defaults.
/// - An explicit path (`--config` or `$GASLEAK_CONFIG`) is missing -> error.
pub fn load_step(source: Option<ConfigPath>, exists: bool) -> (r: LoadStep)
    ensures
        match source {
            None => r is UseDefaults,
            Some(p) => if exists {
                r matches LoadStep::Read(path) && path == p.path
            } else if p.is_explicit {
                r matches LoadStep::Fail(Error::ConfigMissing { path }) && path == p.path
            } else {
                r is UseDefaults
            },
        },
{
    match source {
        None => LoadStep::UseDefaults,
        Some(p) => if exists {
            LoadStep::Read(p.path)
        } else if p.is_explicit {
            LoadStep::Fail(Error::ConfigMissing { path: p.path })
        } else {
            LoadStep::UseDefaults
        },
    }
}

} // verus!
