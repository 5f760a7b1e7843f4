//! What the library promises as a whole: laws over the inputs and results of
//! its operations, each proved for all inputs.
//!
//! - [`verdicts`]: when each rule fires, and what it says.
//! - [`amounts`]: how numbers, amounts and dates are written.
//! - [`cpu`]: what a CPU summary tells of the samples.
//! - [`decisions`]: order of the rows, exit codes, settings, failures.
//! - [`messages`]: what a Slack message shows of the findings.
//! - [`output`]: what the JSON output says.
//! - [`prices`]: which products of an offer count, and what becomes of their rates.
//! - [`records`]: what a record tells of the instance that it is made of.
//! - [`spending`]: what volumes, instances and fleets cost.
//! - [`tables`]: what the tables and the lines of `explain` show.

pub mod amounts;
pub mod cpu;
pub mod decisions;
pub mod messages;
pub mod output;
pub mod prices;
pub mod records;
pub mod spending;
pub mod tables;
pub mod verdicts;
