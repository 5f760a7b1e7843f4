//! The command line, once parsed, and the decisions that hang on it.

use vstd::prelude::*;

verus! {

/// What the user asked for.
#[derive(Debug)]
pub struct Cli {
    pub command: Option<Command>,
    /// Verbosity: -v=info, -vv=debug.
    pub verbose: u8,
    /// Write JSON in place of tables.
    pub json: bool,
    /// Also post a report to Slack.
    pub slack: bool,
    /// Post a report to Slack and print nothing.
    pub slack_only: bool,
    /// Scan every region that the account has enabled.
    pub all_regions: bool,
    /// Config file in place of the usual one.
    pub config: Option<String>,
    /// Rewrite the price table and stop.
    pub regenerate_pricing_table: bool,
    /// Where the price offer comes from.
    pub pricing_offer_source: Option<String>,
}

#[derive(Debug)]
pub enum Command {
    /// List running EC2 instances with owner and uptime.
    List(ListArgs),
    /// Evaluate staleness rules and exit non-zero on High/Medium verdicts.
    Stale(StaleArgs),
    /// Show what every rule makes of one instance.
    Explain(ExplainArgs),
}

#[derive(Debug)]
pub struct ListArgs {
    /// Fetch CloudWatch CPU metrics per instance (incurs GetMetricData cost).
    pub with_cpu: bool,
}

#[derive(Debug)]
pub struct StaleArgs {
    /// Skip CloudWatch CPU fetching (the `idle` rule will be silenced).
    pub no_cpu: bool,
    /// Migration deadline (RFC 3339). After this date, `non_compliant` upgrades to High.
    pub migration_deadline: Option<String>,
}

#[derive(Debug)]
pub struct ExplainArgs {
    pub instance_id: String,
}

impl Default for ListArgs {
    fn default() -> (r: ListArgs)
        ensures
            !r.with_cpu,
    {
        ListArgs { with_cpu: false }
    }
}

impl Default for StaleArgs {
    fn default() -> (r: StaleArgs)
        ensures
            !r.no_cpu,
            r.migration_deadline is None,
    {
        StaleArgs { no_cpu: false, migration_deadline: None }
    }
}

impl Command {
    /// Whether the command looks at CPU load: `list` where asked to, `stale`
    /// unless told not to, `explain` always.
    pub open spec fn looks_at_cpu(self) -> bool {
        match self {
            Command::List(args) => args.with_cpu,
            Command::Stale(args) => !args.no_cpu,
            Command::Explain(_) => true,
        }
    }

    pub fn wants_cpu(&self) -> (r: bool)
        ensures
            r == self.looks_at_cpu(),
    {
        match self {
            Command::List(args) => args.with_cpu,
            Command::Stale(args) => !args.no_cpu,
            Command::Explain(_) => true,
        }
    }
}

/// The command to run: `list` where none is given.
pub fn command_or_default(command: Option<Command>) -> (r: Command)
    ensures
        match command {
            Some(c) => r == c,
            None => r matches Command::List(args) && !args.with_cpu,
        },
{
    match command {
        Some(c) => c,
        None => Command::List(ListArgs::default()),
    }
}

/// Whether a Slack report is asked for.
pub fn wants_slack(cli: &Cli) -> (r: bool)
    ensures
        r == (cli.slack || cli.slack_only),
{
    cli.slack || cli.slack_only
}

/// The log level for a verbosity.
pub open spec fn level_name(verbose: int) -> Seq<char> {
    if verbose == 0 {
        "warn"@
    } else if verbose == 1 {
        "info"@
    } else {
        "debug"@
    }
}

/// The log level for a verbosity.
pub fn log_level(verbose: u8) -> (r: &'static str)
    ensures
        r@ == level_name(verbose as int),
{
    match verbose {
        0 => "warn",
        1 => "info",
        _ => "debug",
    }
}

} // verus!
