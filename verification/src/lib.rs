//! Surfaces stale EC2 instances: who launched them, how long they have been
//! running, whether they carry the tagging contract, and what they cost.
//!
//! - [`aws`]: what the AWS services answer, and what is made of it.
//! - [`cli`], [`config`]: the command line and the config file.
//! - [`contract`]: the tags that an instance is to carry.
//! - [`staleness`]: rules, verdicts and severities.
//! - [`pricing`], [`costs`]: rates, and what instances and volumes cost.
//! - [`run`]: the order of the rows, exit codes, regions.
//! - [`report`], [`json`], [`slack`]: tables, JSON and Slack messages.
//! - [`error`], [`model`], [`tags`], [`timestamp`]: the types they share.
//! - [`double`], [`rounding`], [`decimal`], [`format`]: binary64 numbers by
//!   their bits, and their texts.
//! - [`laws`]: what holds of all of this, for all inputs.
//! - [`order`], [`table`], [`text`], [`value`]: sorting, columns, strings, JSON
//!   values.

pub mod aws;
pub mod cli;
pub mod config;
pub mod contract;
pub mod costs;
pub mod decimal;
pub mod double;
pub mod error;
pub mod format;
pub mod json;
pub mod laws;
pub mod model;
pub mod order;
pub mod pricing;
pub mod report;
pub mod rounding;
pub mod run;
pub mod slack;
pub mod staleness;
pub mod table;
pub mod tags;
pub mod text;
pub mod timestamp;
pub mod value;
