//! Library error type.
//!
//! Each variant carries the data it needs to format a good message. Causes
//! are kept as their messages, the outermost first.

use vstd::prelude::*;

use crate::text::strings;

verus! {

/// What can go wrong.
#[derive(Debug)]
pub enum Error {
    Aws { context: String, causes: Vec<String> },
    InvalidTimestamp(String),
    ConfigMissing { path: String },
    ConfigRead { path: String, cause: String },
    ConfigParse { path: String, cause: String },
    InstanceNotFound { id: String, region: String },
    RegionNotConfigured,
    SlackWebhookMissing,
    SlackConfigInvalid(String),
}

/// The message of an AWS error: what was called, and the outermost cause.
pub open spec fn aws_text(context: Seq<char>, causes: Seq<Seq<char>>) -> Seq<char> {
    if causes.len() == 0 {
        context + ": "@
    } else {
        context + ": "@ + causes[0]
    }
}

impl Error {
    /// The message.
    pub open spec fn shown(self) -> Seq<char> {
        match self {
            Error::Aws { context, causes } => aws_text(context@, strings(causes@)),
            Error::InvalidTimestamp(m) => "invalid timestamp from AWS SDK: "@ + m@,
            Error::ConfigMissing { path } => "config file not found: "@ + path@,
            Error::ConfigRead { path, .. } => "failed to read config file "@ + path@,
            Error::ConfigParse { path, .. } => "failed to parse config file "@ + path@,
            Error::InstanceNotFound { id, region } => "instance '"@ + id@
                + "' not found in region '"@ + region@ + "'"@,
            Error::RegionNotConfigured =>
                "no AWS region configured. Set AWS_REGION, export an AWS_PROFILE whose config defines a region, or pass one in a gasleak config file."@,
            Error::SlackWebhookMissing =>
                "Slack is enabled but no webhook URL was resolved. Set `[slack] webhook_url` in gasleak.toml, or export $GASLEAK_SLACK_WEBHOOK. Never pass the URL as a CLI flag."@,
            Error::SlackConfigInvalid(m) => "invalid Slack config: "@ + m@,
        }
    }

    /// The messages of the causes.
    pub open spec fn cause_texts(self) -> Seq<Seq<char>> {
        match self {
            Error::Aws { causes, .. } => strings(causes@),
            Error::ConfigRead { cause, .. } => seq![cause@],
            Error::ConfigParse { cause, .. } => seq![cause@],
            _ => Seq::empty(),
        }
    }

    /// An error of the AWS SDK: what was called, and the messages of the
    /// error and of what caused it.
    pub fn aws(context: &str, causes: Vec<String>) -> (r: Error)
        ensures
            r matches Error::Aws { context: c, causes: l } && c@ == context@ && l == causes,
    {
        Error::Aws { context: context.to_string(), causes }
    }

    /// The message.
    pub fn message(&self) -> (r: String)
        ensures
            r@ == self.shown(),
    {
        match self {
            Error::Aws { context, causes } => {
                let head: String = context.clone().concat(": ");
                if causes.len() == 0 {
                    head
                } else {
                    head.concat(causes[0].as_str())
                }
            },
            Error::InvalidTimestamp(m) => "invalid timestamp from AWS SDK: ".to_string().concat(
                m.as_str(),
            ),
            Error::ConfigMissing { path } => "config file not found: ".to_string().concat(
                path.as_str(),
            ),
            Error::ConfigRead { path, .. } => "failed to read config file ".to_string().concat(
                path.as_str(),
            ),
            Error::ConfigParse { path, .. } => "failed to parse config file ".to_string().concat(
                path.as_str(),
            ),
            Error::InstanceNotFound { id, region } => "instance '".to_string().concat(
                id.as_str(),
            ).concat("' not found in region '").concat(region.as_str()).concat("'"),
            Error::RegionNotConfigured =>
                "no AWS region configured. Set AWS_REGION, export an AWS_PROFILE whose config defines a region, or pass one in a gasleak config file.".to_string(),
            Error::SlackWebhookMissing =>
                "Slack is enabled but no webhook URL was resolved. Set `[slack] webhook_url` in gasleak.toml, or export $GASLEAK_SLACK_WEBHOOK. Never pass the URL as a CLI flag.".to_string(),
            Error::SlackConfigInvalid(m) => "invalid Slack config: ".to_string().concat(m.as_str()),
        }
    }

    /// The message, followed by those of the causes.
    pub fn chain(&self) -> (r: Vec<String>)
        ensures
            strings(r@) == seq![self.shown()] + self.cause_texts(),
    {
        let mut out: Vec<String> = Vec::new();
        out.push(self.message());
        match self {
            Error::Aws { causes, .. } => {
                let n: usize = causes.len();
                let mut i: usize = 0;
                let ghost head = seq![self.shown()];
                let ghost all = strings(causes@);
                assert(strings(out@) =~= head + all.take(0));
                while i < n
                    invariant
                        n == causes@.len(),
                        i <= n,
                        all == strings(causes@),
                        strings(out@) == head + all.take(i as int),
                    decreases n - i,
                {
                    let ghost before = strings(out@);
                    out.push(causes[i].clone());
                    proof {
                        assert(strings(out@) =~= before.push(causes@[i as int]@));
                        assert(head + all.take(i + 1) =~= (head + all.take(i as int)).push(
                            causes@[i as int]@,
                        ));
                    }
                    i += 1;
                }
                assert(all.take(n as int) =~= all);
            },
            Error::ConfigRead { cause, .. } => {
                out.push(cause.clone());
                assert(strings(out@) =~= seq![self.shown()] + seq![cause@]);
            },
            Error::ConfigParse { cause, .. } => {
                out.push(cause.clone());
                assert(strings(out@) =~= seq![self.shown()] + seq![cause@]);
            },
            _ => {
                assert(strings(out@) =~= seq![self.shown()] + Seq::<Seq<char>>::empty());
            },
        }
        out
    }
}

} // verus!
