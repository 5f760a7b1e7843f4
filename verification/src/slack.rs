//! Slack Block Kit reporting for `list`, `stale`, and `explain`.
//!
//! Design anchors:
//! - **Severity is the primary visual anchor.** Each severity bucket becomes
//!   its own `attachment` with a colored left bar.
//! - **Money above the fold.** The money-first section block sits right
//!   under the header.
//! - **No silent drops for urgent findings.** High- and Medium-severity rows
//!   always render as full section blocks. Only the Low-severity tail
//!   compresses into a rollup block past `max_flagged_rows`.
//!
//! This module hosts the typed [`SlackRuntimeConfig`] / [`MentionThreshold`]
//! and what is made of the webhook's reply. The render layer lives in
//! [`render`].

use vstd::prelude::*;

use crate::config::SlackConfig;
use crate::error::Error;
use crate::model::{option_slice, option_text};
use crate::staleness::Severity;
use crate::text::{lower, lowercase, same, trim, trimmed};

pub mod render;

verus! {

/// Exit code when posting fails and nothing else was asked for. Distinct from
/// severity codes (0/1/2) so cron wrappers can distinguish "scan succeeded,
/// Slack broke" from "scan itself flagged severity N".
pub const SLACK_POST_FAILED_EXIT: i32 = 3;

/// Low-severity rows that are shown in full where the file does not say.
pub const DEFAULT_FLAGGED_ROWS: usize = 10;

/// The text with quotes that the standard library writes to debug a text.
pub uninterp spec fn quoted_text(text: Seq<char>) -> Seq<char>;

/// The `Debug` text of a `str` of the standard library: a function of the
/// text.
#[verifier::external_body]
fn quoted(text: &str) -> (r: String)
    ensures
        r@ == quoted_text(text@),
{
    format!("{text:?}")
}

/// At-or-above threshold for rendering `OwnerSlack` as a raw `@handle`
/// (Slack auto-pings) vs. code-formatted (no ping).
#[derive(Clone, Copy, Debug, PartialEq, Eq, Structural)]
pub enum MentionThreshold {
    Low,
    Medium,
    High,
    Never,
}

/// The message about a threshold that is none, with its text in quotes.
pub open spec fn bad_threshold_text(quotation: Seq<char>) -> Seq<char> {
    "mention_owner_at_severity = "@ + quotation + "; expected one of: low, medium, high, never"@
}

/// The error about a threshold that is none, with its text in quotes.
pub fn bad_threshold(quotation: &str) -> (r: Error)
    ensures
        r matches Error::SlackConfigInvalid(m) && m@ == bad_threshold_text(quotation@),
{
    Error::SlackConfigInvalid(
        "mention_owner_at_severity = ".to_string().concat(quotation).concat(
            "; expected one of: low, medium, high, never",
        ),
    )
}

impl MentionThreshold {
    /// The threshold with this name, in any case; without a name, `High`.
    pub open spec fn named(raw: Option<Seq<char>>) -> Option<MentionThreshold> {
        match raw {
            None => Some(MentionThreshold::High),
            Some(t) => if lower(t) == "low"@ {
                Some(MentionThreshold::Low)
            } else if lower(t) == "medium"@ {
                Some(MentionThreshold::Medium)
            } else if lower(t) == "high"@ {
                Some(MentionThreshold::High)
            } else if lower(t) == "never"@ {
                Some(MentionThreshold::Never)
            } else {
                None
            },
        }
    }

    /// Parse the `mention_owner_at_severity` config value. `None` defaults
    /// to `High`. Unknown values are rejected with a message that lists the
    /// four valid options — typos don't silently fall through to default.
    pub fn parse(raw: Option<&str>) -> (r: Result<MentionThreshold, Error>)
        ensures
            r is Ok == MentionThreshold::named(option_slice(raw)) is Some,
            r matches Ok(t) ==> MentionThreshold::named(option_slice(raw)) == Some(t),
            r matches Err(e) ==> e matches Error::SlackConfigInvalid(m) && m@
                == bad_threshold_text(quoted_text(lower(raw->0@))),
    {
        let text: &str = match raw {
            None => return Ok(MentionThreshold::High),
            Some(t) => t,
        };
        let name: String = lowercase(text);
        if same(name.as_str(), "low") {
            Ok(MentionThreshold::Low)
        } else if same(name.as_str(), "medium") {
            Ok(MentionThreshold::Medium)
        } else if same(name.as_str(), "high") {
            Ok(MentionThreshold::High)
        } else if same(name.as_str(), "never") {
            Ok(MentionThreshold::Never)
        } else {
            Err(bad_threshold(quoted(name.as_str()).as_str()))
        }
    }

    /// Whether the owner of a finding of this severity is mentioned.
    pub open spec fn mentions(self, actual: Severity) -> bool {
        match self {
            MentionThreshold::Low => actual.rank() >= Severity::Low.rank(),
            MentionThreshold::Medium => actual.rank() >= Severity::Medium.rank(),
            MentionThreshold::High => actual.rank() >= Severity::High.rank(),
            MentionThreshold::Never => false,
        }
    }

    pub fn should_mention(self, actual: Severity) -> (r: bool)
        ensures
            r == self.mentions(actual),
    {
        match self {
            MentionThreshold::Low => actual.level() >= 1,
            MentionThreshold::Medium => actual.level() >= 2,
            MentionThreshold::High => actual.level() >= 3,
            MentionThreshold::Never => false,
        }
    }
}

/// A threshold that mentions the owner of a finding mentions the owners of
/// all that are worse.
pub proof fn mentions_grow_with_severity(t: MentionThreshold, a: Severity, b: Severity)
    requires
        t.mentions(a),
        a.rank() <= b.rank(),
    ensures
        t.mentions(b),
{
}

/// Resolved runtime config: the file-shape [`SlackConfig`] merged with the
/// env-var webhook fallback, with values validated so the render path can
/// trust them.
#[derive(Clone, Debug)]
pub struct SlackRuntimeConfig {
    pub webhook_url: String,
    pub max_flagged_rows: usize,
    pub report_url: Option<String>,
    pub mention_threshold: MentionThreshold,
}

/// The webhook: that of the file, else that of the environment.
pub open spec fn webhook_of(file: Option<Seq<char>>, env: Option<Seq<char>>) -> Option<Seq<char>> {
    match file {
        Some(url) => Some(url),
        None => env,
    }
}

impl SlackRuntimeConfig {
    /// Merge the file config with `$GASLEAK_SLACK_WEBHOOK`. Returns a typed
    /// [`Error::SlackWebhookMissing`] if neither source surfaces a URL, or
    /// [`Error::SlackConfigInvalid`] if any field fails validation — so
    /// config typos are loud rather than silently defaulted.
    pub fn resolve(file_cfg: &SlackConfig, env_webhook: Option<String>) -> (r: Result<
        SlackRuntimeConfig,
        Error,
    >)
        ensures
            ({
                let url = webhook_of(
                    option_text(file_cfg.webhook_url),
                    option_text(env_webhook),
                );
                let name = option_text(file_cfg.mention_owner_at_severity);
                let threshold = MentionThreshold::named(name);
                match r {
                    Ok(c) => url == Some(c.webhook_url@) && threshold == Some(c.mention_threshold)
                        && c.max_flagged_rows == (match file_cfg.max_flagged_rows {
                        Some(n) => n,
                        None => DEFAULT_FLAGGED_ROWS,
                    }) && option_text(c.report_url) == option_text(file_cfg.report_url),
                    Err(Error::SlackWebhookMissing) => url is None,
                    Err(Error::SlackConfigInvalid(m)) => url is Some && threshold is None && m@
                        == bad_threshold_text(quoted_text(lower(name->0))),
                    Err(_) => false,
                }
            }),
    {
        let webhook_url: String = match &file_cfg.webhook_url {
            Some(url) => url.clone(),
            None => match env_webhook {
                Some(url) => url,
                None => return Err(Error::SlackWebhookMissing),
            },
        };
        let name: Option<&str> = match &file_cfg.mention_owner_at_severity {
            Some(s) => Some(s.as_str()),
            None => None,
        };
        let mention_threshold: MentionThreshold = match MentionThreshold::parse(name) {
            Ok(t) => t,
            Err(e) => return Err(e),
        };
        let max_flagged_rows: usize = match file_cfg.max_flagged_rows {
            Some(n) => n,
            None => DEFAULT_FLAGGED_ROWS,
        };
        let report_url: Option<String> = match &file_cfg.report_url {
            Some(url) => Some(url.clone()),
            None => None,
        };
        Ok(SlackRuntimeConfig { webhook_url, max_flagged_rows, report_url, mention_threshold })
    }
}

/// Whether a reply says that the payload was taken: a success status, and the
/// body `ok`, whatever white space stands around it.
pub open spec fn accepted(status: int, body: Seq<char>) -> bool {
    200 <= status < 300 && trimmed(body) == "ok"@
}

/// What is made of the webhook's reply. On a non-success status or any body
/// other than `ok` the reply is passed on, so that schema violations reach the
/// operator intact.
pub fn check_reply(status: u16, status_text: &str, body: &str) -> (r: Result<(), String>)
    ensures
        r is Ok == accepted(status as int, body@),
        r matches Err(m) ==> m@ == "Slack webhook rejected payload: "@ + status_text@ + " — "@
            + body@,
{
    if status < 200 || status >= 300 || !same(trim(body).as_str(), "ok") {
        return Err(
            "Slack webhook rejected payload: ".to_string().concat(status_text).concat(
                " — ",
            ).concat(body),
        );
    }
    Ok(())
}

/// The exit code that a failed post calls for, in place of that of the scan:
/// one of its own where nothing but the post was asked for.
pub fn post_exit_code(posted: bool, slack_only: bool) -> (r: Option<i32>)
    ensures
        r == (if !posted && slack_only {
            Some(SLACK_POST_FAILED_EXIT)
        } else {
            None
        }),
{
    if !posted && slack_only {
        Some(SLACK_POST_FAILED_EXIT)
    } else {
        None
    }
}

/// White space around the body of a reply changes nothing.
pub proof fn white_space_around_ok_is_ignored(before: Seq<char>, after: Seq<char>, status: int)
    requires
        crate::text::is_blank(before),
        crate::text::is_blank(after),
        200 <= status < 300,
    ensures
        accepted(status, before + "ok"@ + after),
{
    reveal_strlit("ok");
    crate::text::lemma_trimmed_core(before, "ok"@, after);
}

} // verus!
