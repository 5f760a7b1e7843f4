//! The rules, each by itself.

use vstd::prelude::*;

use crate::contract::ContractView;
use crate::model::{CpuSummary, InstanceRecord};
use crate::staleness::{Config, SkipReason, Verdict, VerdictView};
use crate::text::slices;
use crate::timestamp::Timestamp;

verus! {

/// What came of a rule.
pub open spec fn outcome(r: Result<Verdict, SkipReason>) -> Result<VerdictView, SkipReason> {
    match r {
        Ok(v) => Ok(v@),
        Err(reason) => Err(reason),
    }
}

/// The verdict, where the rule gave one.
pub open spec fn fired(r: Result<VerdictView, SkipReason>) -> Option<VerdictView> {
    match r {
        Ok(v) => Some(v),
        Err(_) => None,
    }
}

/// What an optional verdict says.
pub open spec fn option_view(v: Option<Verdict>) -> Option<VerdictView> {
    match v {
        Some(v) => Some(v@),
        None => None,
    }
}

/// The controller that owns an instance with these tags. A node of an EKS
/// group also carries the tag of the group below it; EKS tells more.
pub open spec fn controller(tags: Map<Seq<char>, Seq<char>>) -> Option<Seq<char>> {
    if tags.contains_key("eks:cluster-name"@) {
        Some("eks"@)
    } else if tags.contains_key("aws:autoscaling:groupName"@) {
        Some("asg"@)
    } else if tags.contains_key("aws:ec2spot:fleet-request-id"@) {
        Some("spot-fleet"@)
    } else {
        None
    }
}

/// Owned by a controller.
pub open spec fn managed_outcome(tags: Map<Seq<char>, Seq<char>>) -> Result<
    VerdictView,
    SkipReason,
> {
    match controller(tags) {
        Some(controller) => Ok(VerdictView::Managed { controller }),
        None => Err(SkipReason::NoControllerTags),
    }
}

/// Past the declared deadline.
pub open spec fn expired_outcome(c: ContractView, cfg: Config) -> Result<VerdictView, SkipReason> {
    match c.expires_at {
        None => Err(SkipReason::ExpiresAtUnset),
        Some(at) => if at.seconds() < cfg.now.seconds() {
            Ok(VerdictView::Expired { at, overdue_secs: cfg.now.seconds() - at.seconds() })
        } else {
            Err(SkipReason::NotExpired)
        },
    }
}

/// Shortly before the declared deadline.
pub open spec fn expiring_soon_outcome(c: ContractView, cfg: Config) -> Result<
    VerdictView,
    SkipReason,
> {
    match c.expires_at {
        None => Err(SkipReason::ExpiresAtUnset),
        Some(at) => {
            let delta = at.seconds() - cfg.now.seconds();
            if 0 < delta <= cfg.warn_window_secs {
                Ok(VerdictView::ExpiringSoon { at, within_secs: delta })
            } else {
                Err(SkipReason::OutsideWarnWindow)
            }
        },
    }
}

/// Whether the owner has declared a deadline that is still to come.
pub open spec fn committed(c: ContractView, cfg: Config) -> bool {
    c.expires_at matches Some(at) && at.seconds() > cfg.now.seconds()
}

/// Enough samples, and nearly all of them low. A deadline to come stands
/// above this: the owner has already answered.
pub open spec fn idle_outcome(cpu: Option<CpuSummary>, c: ContractView, cfg: Config) -> Result<
    VerdictView,
    SkipReason,
> {
    if committed(c, cfg) {
        Err(SkipReason::DeadlineCommitted)
    } else if cpu is None {
        Err(SkipReason::NoCpuData)
    } else if cpu->0.samples < cfg.min_cpu_samples {
        Err(SkipReason::TooFewSamples)
    } else if cpu->0.p95_pct is None {
        Err(SkipReason::NoPercentile)
    } else if cfg.p95_idle_threshold.at_most(cpu->0.p95_pct->0) {
        Err(SkipReason::AboveThreshold)
    } else {
        Ok(
            VerdictView::Idle {
                p95_pct: cpu->0.p95_pct->0,
                samples: cpu->0.samples as nat,
                window_secs: cfg.idle_lookback_secs as int,
            },
        )
    }
}

/// The contract tags that are missing or malformed.
pub open spec fn missing_tags(tags: Map<Seq<char>, Seq<char>>, c: ContractView) -> Seq<Seq<char>> {
    let marker = if c.managed_by_gasleak {
        Seq::<Seq<char>>::empty()
    } else if tags.contains_key("ManagedBy"@) {
        seq!["ManagedBy(wrong-prefix)"@]
    } else {
        seq!["ManagedBy"@]
    };
    let owner = if c.owner is None {
        marker.push("Owner"@)
    } else {
        marker
    };
    let slack = if c.owner_slack is None {
        owner.push("OwnerSlack"@)
    } else {
        owner
    };
    if c.expires_at is None {
        slack.push("ExpiresAt"@)
    } else {
        slack
    }
}

/// Whether the migration deadline has passed.
pub open spec fn is_past_deadline(cfg: Config) -> bool {
    cfg.migration_deadline matches Some(d) && cfg.now.seconds() > d.seconds()
}

/// Some contract tag is missing. With the marker in place something was taken
/// away after launch.
pub open spec fn non_compliant_outcome(
    tags: Map<Seq<char>, Seq<char>>,
    c: ContractView,
    cfg: Config,
) -> Result<VerdictView, SkipReason> {
    if missing_tags(tags, c).len() == 0 {
        Err(SkipReason::TagsComplete)
    } else {
        Ok(
            VerdictView::NonCompliant {
                missing: missing_tags(tags, c),
                tampered: c.managed_by_gasleak,
                past_deadline: is_past_deadline(cfg),
            },
        )
    }
}

pub fn check_managed(r: &InstanceRecord) -> (res: Result<Verdict, SkipReason>)
    ensures
        outcome(res) == managed_outcome(r.tags@),
{
    if r.tags.contains_key("eks:cluster-name") {
        Ok(Verdict::Managed { controller: "eks" })
    } else if r.tags.contains_key("aws:autoscaling:groupName") {
        Ok(Verdict::Managed { controller: "asg" })
    } else if r.tags.contains_key("aws:ec2spot:fleet-request-id") {
        Ok(Verdict::Managed { controller: "spot-fleet" })
    } else {
        Err(SkipReason::NoControllerTags)
    }
}

pub fn check_expired(c: &ContractView, cfg: &Config) -> (res: Result<Verdict, SkipReason>)
    ensures
        outcome(res) == expired_outcome(*c, *cfg),
{
    let at: Timestamp = match c.expires_at {
        Some(at) => at,
        None => return Err(SkipReason::ExpiresAtUnset),
    };
    let now_s: i64 = cfg.now.as_second();
    let at_s: i64 = at.as_second();
    if at_s < now_s {
        Ok(Verdict::Expired { at, overdue_secs: now_s - at_s })
    } else {
        Err(SkipReason::NotExpired)
    }
}

pub fn check_expiring_soon(c: &ContractView, cfg: &Config) -> (res: Result<Verdict, SkipReason>)
    ensures
        outcome(res) == expiring_soon_outcome(*c, *cfg),
{
    let at: Timestamp = match c.expires_at {
        Some(at) => at,
        None => return Err(SkipReason::ExpiresAtUnset),
    };
    let delta: i64 = at.as_second() - cfg.now.as_second();
    if delta > 0 && delta <= cfg.warn_window_secs {
        Ok(Verdict::ExpiringSoon { at, within_secs: delta })
    } else {
        Err(SkipReason::OutsideWarnWindow)
    }
}

pub fn check_idle(r: &InstanceRecord, c: &ContractView, cfg: &Config) -> (res: Result<
    Verdict,
    SkipReason,
>)
    ensures
        outcome(res) == idle_outcome(r.cpu, *c, *cfg),
{
    if let Some(exp) = c.expires_at {
        if exp.as_second() > cfg.now.as_second() {
            return Err(SkipReason::DeadlineCommitted);
        }
    }
    let cpu: CpuSummary = match r.cpu {
        Some(cpu) => cpu,
        None => return Err(SkipReason::NoCpuData),
    };
    if cpu.samples < cfg.min_cpu_samples {
        return Err(SkipReason::TooFewSamples);
    }
    match cpu.p95_pct {
        None => Err(SkipReason::NoPercentile),
        Some(p95) => {
            if cfg.p95_idle_threshold.le(p95) {
                return Err(SkipReason::AboveThreshold);
            }
            Ok(
                Verdict::Idle {
                    p95_pct: p95,
                    samples: cpu.samples,
                    window_secs: cfg.idle_lookback_secs,
                },
            )
        },
    }
}

pub fn check_non_compliant(r: &InstanceRecord, c: &ContractView, cfg: &Config) -> (res: Result<
    Verdict,
    SkipReason,
>)
    ensures
        outcome(res) == non_compliant_outcome(r.tags@, *c, *cfg),
{
    let mut missing: Vec<&'static str> = Vec::new();
    if !c.managed_by_gasleak {
        if r.tags.contains_key("ManagedBy") {
            missing.push("ManagedBy(wrong-prefix)");
        } else {
            missing.push("ManagedBy");
        }
    }
    if c.owner.is_none() {
        missing.push("Owner");
    }
    if c.owner_slack.is_none() {
        missing.push("OwnerSlack");
    }
    if c.expires_at.is_none() {
        missing.push("ExpiresAt");
    }
    assert(slices(missing@) =~= missing_tags(r.tags@, *c));
    if missing.len() == 0 {
        return Err(SkipReason::TagsComplete);
    }
    Ok(
        Verdict::NonCompliant {
            missing,
            tampered: c.managed_by_gasleak,
            past_deadline: past_deadline(cfg),
        },
    )
}

fn past_deadline(cfg: &Config) -> (r: bool)
    ensures
        r == is_past_deadline(*cfg),
{
    match cfg.migration_deadline {
        Some(d) => cfg.now.as_second() > d.as_second(),
        None => false,
    }
}

/// The verdict of a rule, where it gave one.
fn verdict_of(r: Result<Verdict, SkipReason>) -> (v: Option<Verdict>)
    ensures
        option_view(v) == fired(outcome(r)),
{
    match r {
        Ok(v) => Some(v),
        Err(_) => None,
    }
}

pub fn managed(r: &InstanceRecord) -> (v: Option<Verdict>)
    ensures
        option_view(v) == fired(managed_outcome(r.tags@)),
{
    verdict_of(check_managed(r))
}

pub fn expired(_r: &InstanceRecord, c: &ContractView, cfg: &Config) -> (v: Option<Verdict>)
    ensures
        option_view(v) == fired(expired_outcome(*c, *cfg)),
{
    verdict_of(check_expired(c, cfg))
}

pub fn expiring_soon(_r: &InstanceRecord, c: &ContractView, cfg: &Config) -> (v: Option<Verdict>)
    ensures
        option_view(v) == fired(expiring_soon_outcome(*c, *cfg)),
{
    verdict_of(check_expiring_soon(c, cfg))
}

pub fn idle(r: &InstanceRecord, c: &ContractView, cfg: &Config) -> (v: Option<Verdict>)
    ensures
        option_view(v) == fired(idle_outcome(r.cpu, *c, *cfg)),
{
    verdict_of(check_idle(r, c, cfg))
}

pub fn non_compliant(r: &InstanceRecord, c: &ContractView, cfg: &Config) -> (v: Option<Verdict>)
    ensures
        option_view(v) == fired(non_compliant_outcome(r.tags@, *c, *cfg)),
{
    verdict_of(check_non_compliant(r, c, cfg))
}

} // verus!
