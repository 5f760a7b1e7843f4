//! Rule engine, verdicts, severity.

use vstd::prelude::*;

use crate::contract::ContractView;
use crate::double::Double;
use crate::model::InstanceRecord;
use crate::staleness::rules::{
    committed, controller, expired_outcome, expiring_soon_outcome, idle_outcome, is_past_deadline,
    managed_outcome, non_compliant_outcome, outcome,
};
use crate::text::slices;
use crate::timestamp::Timestamp;

pub mod rules;

verus! {

pub const SECS_PER_DAY: i64 = 86_400;

pub const SECS_PER_HOUR: i64 = 3_600;

/// Why an instance may be stale.
#[derive(Clone, Debug)]
pub enum Verdict {
    Managed { controller: &'static str },
    Expired { at: Timestamp, overdue_secs: i64 },
    ExpiringSoon { at: Timestamp, within_secs: i64 },
    Idle { p95_pct: Double, samples: usize, window_secs: i64 },
    Inactive {
        idle_for_secs: Option<i64>,
        samples: usize,
        window_secs: i64,
        severity: Severity,
    },
    LongLived { age_secs: i64 },
    Underutilized { p95_pct: Double, samples: usize, window_secs: i64 },
    /// Instance tags don't meet the contract.
    ///
    /// - `tampered = true` means `ManagedBy=gasleak/*` is present but other
    ///   required tags are missing. Someone ran `ec2:DeleteTags` on a
    ///   compliant instance. Always High severity.
    /// - `tampered = false` means no valid `ManagedBy` tag (pre-contract /
    ///   legacy). Low severity until the migration deadline passes.
    NonCompliant { missing: Vec<&'static str>, tampered: bool, past_deadline: bool },
}

/// What a verdict says.
pub ghost enum VerdictView {
    Managed { controller: Seq<char> },
    Expired { at: Timestamp, overdue_secs: int },
    ExpiringSoon { at: Timestamp, within_secs: int },
    Idle { p95_pct: Double, samples: nat, window_secs: int },
    Inactive { idle_for_secs: Option<i64>, samples: nat, window_secs: int, severity: Severity },
    LongLived { age_secs: int },
    Underutilized { p95_pct: Double, samples: nat, window_secs: int },
    NonCompliant { missing: Seq<Seq<char>>, tampered: bool, past_deadline: bool },
}

impl View for Verdict {
    type V = VerdictView;

    open spec fn view(&self) -> VerdictView {
        match *self {
            Verdict::Managed { controller } => VerdictView::Managed { controller: controller@ },
            Verdict::Expired { at, overdue_secs } => VerdictView::Expired {
                at,
                overdue_secs: overdue_secs as int,
            },
            Verdict::ExpiringSoon { at, within_secs } => VerdictView::ExpiringSoon {
                at,
                within_secs: within_secs as int,
            },
            Verdict::Idle { p95_pct, samples, window_secs } => VerdictView::Idle {
                p95_pct,
                samples: samples as nat,
                window_secs: window_secs as int,
            },
            Verdict::Inactive { idle_for_secs, samples, window_secs, severity } => {
                VerdictView::Inactive {
                    idle_for_secs,
                    samples: samples as nat,
                    window_secs: window_secs as int,
                    severity,
                }
            },
            Verdict::LongLived { age_secs } => VerdictView::LongLived { age_secs: age_secs as int },
            Verdict::Underutilized { p95_pct, samples, window_secs } => {
                VerdictView::Underutilized {
                    p95_pct,
                    samples: samples as nat,
                    window_secs: window_secs as int,
                }
            },
            Verdict::NonCompliant { missing, tampered, past_deadline } => {
                VerdictView::NonCompliant { missing: slices(missing@), tampered, past_deadline }
            },
        }
    }
}

/// How urgent a verdict is.
#[derive(Clone, Copy, Debug, PartialEq, Eq, PartialOrd, Ord, Structural)]
pub enum Severity {
    Info,
    Low,
    Medium,
    High,
}

impl Severity {
    /// Position from the least to the most urgent.
    pub open spec fn rank(self) -> int {
        match self {
            Severity::Info => 0,
            Severity::Low => 1,
            Severity::Medium => 2,
            Severity::High => 3,
        }
    }

    /// Position from the least to the most urgent.
    pub fn level(self) -> (r: i32)
        ensures
            r == self.rank(),
    {
        match self {
            Severity::Info => 0,
            Severity::Low => 1,
            Severity::Medium => 2,
            Severity::High => 3,
        }
    }

    /// The exit code that reports this severity.
    pub open spec fn code(self) -> int {
        match self {
            Severity::Info => 0,
            Severity::Low => 0,
            Severity::Medium => 1,
            Severity::High => 2,
        }
    }

    pub fn exit_code(self) -> (r: i32)
        ensures
            r == self.code(),
    {
        match self {
            Severity::Info | Severity::Low => 0,
            Severity::Medium => 1,
            Severity::High => 2,
        }
    }

    /// The label of the severity.
    pub open spec fn label(self) -> Seq<char> {
        match self {
            Severity::Info => "INFO"@,
            Severity::Low => "LOW"@,
            Severity::Medium => "MED"@,
            Severity::High => "HIGH"@,
        }
    }

    pub fn as_str(self) -> (r: &'static str)
        ensures
            r@ == self.label(),
    {
        match self {
            Severity::Info => "INFO",
            Severity::Low => "LOW",
            Severity::Medium => "MED",
            Severity::High => "HIGH",
        }
    }
}

impl VerdictView {
    pub open spec fn severity(self) -> Severity {
        match self {
            VerdictView::Managed { .. } => Severity::Info,
            VerdictView::Expired { .. } => Severity::High,
            VerdictView::ExpiringSoon { .. } => Severity::Medium,
            VerdictView::Idle { .. } => Severity::Low,
            VerdictView::Inactive { severity, .. } => severity,
            VerdictView::LongLived { .. } => Severity::Low,
            VerdictView::Underutilized { .. } => Severity::Low,
            VerdictView::NonCompliant { tampered, past_deadline, .. } => {
                if tampered || past_deadline {
                    Severity::High
                } else {
                    Severity::Low
                }
            },
        }
    }

    /// The name of the rule that gives such a verdict.
    pub open spec fn kind(self) -> Seq<char> {
        match self {
            VerdictView::Managed { .. } => "managed"@,
            VerdictView::Expired { .. } => "expired"@,
            VerdictView::ExpiringSoon { .. } => "expiring_soon"@,
            VerdictView::Idle { .. } => "idle"@,
            VerdictView::Inactive { .. } => "inactive"@,
            VerdictView::LongLived { .. } => "long_lived"@,
            VerdictView::Underutilized { .. } => "underutilized"@,
            VerdictView::NonCompliant { .. } => "non_compliant"@,
        }
    }
}

impl Verdict {
    pub fn severity(&self) -> (r: Severity)
        ensures
            r == self@.severity(),
    {
        match self {
            Verdict::Managed { .. } => Severity::Info,
            Verdict::Expired { .. } => Severity::High,
            Verdict::ExpiringSoon { .. } => Severity::Medium,
            Verdict::Idle { .. } => Severity::Low,
            Verdict::Inactive { severity, .. } => *severity,
            Verdict::LongLived { .. } => Severity::Low,
            Verdict::Underutilized { .. } => Severity::Low,
            Verdict::NonCompliant { tampered, past_deadline, .. } => {
                if *tampered || *past_deadline {
                    Severity::High
                } else {
                    Severity::Low
                }
            },
        }
    }

    pub fn kind_label(&self) -> (r: &'static str)
        ensures
            r@ == self@.kind(),
    {
        match self {
            Verdict::Managed { .. } => "managed",
            Verdict::Expired { .. } => "expired",
            Verdict::ExpiringSoon { .. } => "expiring_soon",
            Verdict::Idle { .. } => "idle",
            Verdict::Inactive { .. } => "inactive",
            Verdict::LongLived { .. } => "long_lived",
            Verdict::Underutilized { .. } => "underutilized",
            Verdict::NonCompliant { .. } => "non_compliant",
        }
    }
}

/// What the verdicts of a list say.
pub open spec fn verdict_views(verdicts: Seq<Verdict>) -> Seq<VerdictView> {
    verdicts.map_values(|v: Verdict| v@)
}

/// The thresholds that the rules go by.
#[derive(Clone, Debug)]
pub struct Config {
    pub now: Timestamp,
    pub warn_window_secs: i64,
    pub min_cpu_samples: usize,
    pub p95_idle_threshold: Double,
    pub idle_lookback_secs: i64,
    pub migration_deadline: Option<Timestamp>,
    /// Time since the last activity from which an instance counts as inactive.
    pub inactive_low_secs: Option<i64>,
    /// Time since the last activity from which that is of Medium severity.
    pub inactive_medium_secs: Option<i64>,
    /// Time since the last activity from which that is of High severity.
    pub inactive_high_secs: Option<i64>,
    /// Age from which an instance counts as long-lived.
    pub long_lived_age_secs: Option<i64>,
    /// p95 CPU % below which an instance counts as underutilized.
    pub p95_underutilized_threshold: Option<Double>,
}

impl Config {
    pub fn defaults(now: Timestamp) -> (r: Config)
        ensures
            r.now == now,
            r.warn_window_secs == 72 * SECS_PER_HOUR,
            r.min_cpu_samples == 168,
            r.p95_idle_threshold == Double::of_int(10),
            r.idle_lookback_secs == 14 * SECS_PER_DAY,
            r.migration_deadline is None,
            r.inactive_low_secs is None,
            r.inactive_medium_secs is None,
            r.inactive_high_secs is None,
            r.long_lived_age_secs is None,
            r.p95_underutilized_threshold is None,
    {
        Config {
            now,
            warn_window_secs: 72 * SECS_PER_HOUR,
            // 7 days of hourly data
            min_cpu_samples: 168,
            p95_idle_threshold: Double::from_i64(10),
            idle_lookback_secs: 14 * SECS_PER_DAY,
            migration_deadline: None,
            inactive_low_secs: None,
            inactive_medium_secs: None,
            inactive_high_secs: None,
            long_lived_age_secs: None,
            p95_underutilized_threshold: None,
        }
    }

    /// How far back CPU load is looked at.
    pub open spec fn lookback(self) -> i64 {
        match self.inactive_high_secs {
            Some(secs) => secs,
            None => self.idle_lookback_secs,
        }
    }

    pub fn cpu_lookback_secs(&self) -> (r: i64)
        ensures
            r == self.lookback(),
    {
        match self.inactive_high_secs {
            Some(secs) => secs,
            None => self.idle_lookback_secs,
        }
    }
}

/// Why a rule gave no verdict.
#[derive(Clone, Copy, Debug, PartialEq, Eq, Structural)]
pub enum SkipReason {
    NoControllerTags,
    PreemptedByController,
    ExpiresAtUnset,
    NotExpired,
    OutsideWarnWindow,
    DeadlineCommitted,
    NoCpuData,
    TooFewSamples,
    NoPercentile,
    AboveThreshold,
    TagsComplete,
}

impl SkipReason {
    /// The name of the reason.
    pub open spec fn name(self) -> Seq<char> {
        match self {
            SkipReason::NoControllerTags => "no_controller_tags"@,
            SkipReason::PreemptedByController => "preempted_by_controller"@,
            SkipReason::ExpiresAtUnset => "expires_at_unset"@,
            SkipReason::NotExpired => "not_expired"@,
            SkipReason::OutsideWarnWindow => "outside_warn_window"@,
            SkipReason::DeadlineCommitted => "deadline_committed"@,
            SkipReason::NoCpuData => "no_cpu_data"@,
            SkipReason::TooFewSamples => "too_few_samples"@,
            SkipReason::NoPercentile => "no_percentile"@,
            SkipReason::AboveThreshold => "above_threshold"@,
            SkipReason::TagsComplete => "tags_complete"@,
        }
    }

    pub fn as_str(self) -> (r: &'static str)
        ensures
            r@ == self.name(),
    {
        match self {
            SkipReason::NoControllerTags => "no_controller_tags",
            SkipReason::PreemptedByController => "preempted_by_controller",
            SkipReason::ExpiresAtUnset => "expires_at_unset",
            SkipReason::NotExpired => "not_expired",
            SkipReason::OutsideWarnWindow => "outside_warn_window",
            SkipReason::DeadlineCommitted => "deadline_committed",
            SkipReason::NoCpuData => "no_cpu_data",
            SkipReason::TooFewSamples => "too_few_samples",
            SkipReason::NoPercentile => "no_percentile",
            SkipReason::AboveThreshold => "above_threshold",
            SkipReason::TagsComplete => "tags_complete",
        }
    }
}

/// The verdict of a rule as a list of at most one.
pub open spec fn as_list(r: Result<VerdictView, SkipReason>) -> Seq<VerdictView> {
    match r {
        Ok(v) => seq![v],
        Err(_) => Seq::empty(),
    }
}

/// The verdicts on an instance: its controller alone, where it has one; else
/// those of all other rules that fire.
pub open spec fn verdicts_of(r: InstanceRecord, c: ContractView, cfg: Config) -> Seq<VerdictView> {
    match managed_outcome(r.tags@) {
        Ok(v) => seq![v],
        Err(_) => as_list(expired_outcome(c, cfg)) + as_list(expiring_soon_outcome(c, cfg))
            + as_list(idle_outcome(r.cpu, c, cfg)) + as_list(
            non_compliant_outcome(r.tags@, c, cfg),
        ),
    }
}

pub fn evaluate(r: &InstanceRecord, c: &ContractView, cfg: &Config) -> (out: Vec<Verdict>)
    ensures
        verdict_views(out@) == verdicts_of(*r, *c, *cfg),
{
    let mut out: Vec<Verdict> = Vec::new();
    if let Some(v) = rules::managed(r) {
        out.push(v);
        assert(verdict_views(out@) =~= seq![v@]);
        return out;
    }
    if let Some(v) = rules::expired(r, c, cfg) {
        out.push(v);
    }
    if let Some(v) = rules::expiring_soon(r, c, cfg) {
        out.push(v);
    }
    if let Some(v) = rules::idle(r, c, cfg) {
        out.push(v);
    }
    if let Some(v) = rules::non_compliant(r, c, cfg) {
        out.push(v);
    }
    assert(verdict_views(out@) =~= verdicts_of(*r, *c, *cfg));
    out
}

/// What one rule made of an instance.
#[derive(Debug)]
pub struct RuleTrace {
    pub rule: &'static str,
    pub result: Result<Verdict, SkipReason>,
}

impl View for RuleTrace {
    type V = (Seq<char>, Result<VerdictView, SkipReason>);

    open spec fn view(&self) -> (Seq<char>, Result<VerdictView, SkipReason>) {
        (self.rule@, outcome(self.result))
    }
}

/// What the entries of a trace say.
pub open spec fn trace_views(trace: Seq<RuleTrace>) -> Seq<
    (Seq<char>, Result<VerdictView, SkipReason>),
> {
    trace.map_values(|t: RuleTrace| t@)
}

/// What every rule makes of an instance. Below a controller no other rule is
/// asked.
pub open spec fn rule_outcomes(r: InstanceRecord, c: ContractView, cfg: Config) -> Seq<
    (Seq<char>, Result<VerdictView, SkipReason>),
> {
    let m = managed_outcome(r.tags@);
    let preempted = Err(SkipReason::PreemptedByController);
    seq![
        ("managed"@, m),
        ("expired"@, if m is Ok { preempted } else { expired_outcome(c, cfg) }),
        ("expiring_soon"@, if m is Ok { preempted } else { expiring_soon_outcome(c, cfg) }),
        ("idle"@, if m is Ok { preempted } else { idle_outcome(r.cpu, c, cfg) }),
        (
            "non_compliant"@,
            if m is Ok { preempted } else { non_compliant_outcome(r.tags@, c, cfg) },
        ),
    ]
}

/// Every rule with its verdict or the reason why it gave none.
pub fn trace(r: &InstanceRecord, c: &ContractView, cfg: &Config) -> (out: Vec<RuleTrace>)
    ensures
        trace_views(out@) == rule_outcomes(*r, *c, *cfg),
{
    let mut out: Vec<RuleTrace> = Vec::new();
    let managed: Result<Verdict, SkipReason> = rules::check_managed(r);
    let preempted: bool = managed.is_ok();
    out.push(RuleTrace { rule: "managed", result: managed });
    if preempted {
        out.push(RuleTrace { rule: "expired", result: Err(SkipReason::PreemptedByController) });
        out.push(
            RuleTrace { rule: "expiring_soon", result: Err(SkipReason::PreemptedByController) },
        );
        out.push(RuleTrace { rule: "idle", result: Err(SkipReason::PreemptedByController) });
        out.push(
            RuleTrace { rule: "non_compliant", result: Err(SkipReason::PreemptedByController) },
        );
    } else {
        out.push(RuleTrace { rule: "expired", result: rules::check_expired(c, cfg) });
        out.push(RuleTrace { rule: "expiring_soon", result: rules::check_expiring_soon(c, cfg) });
        out.push(RuleTrace { rule: "idle", result: rules::check_idle(r, c, cfg) });
        out.push(
            RuleTrace { rule: "non_compliant", result: rules::check_non_compliant(r, c, cfg) },
        );
    }
    assert(trace_views(out@) =~= rule_outcomes(*r, *c, *cfg));
    out
}

/// The verdicts in a trace, in its order.
pub open spec fn fired_in(trace: Seq<(Seq<char>, Result<VerdictView, SkipReason>)>) -> Seq<
    VerdictView,
>
    decreases trace.len(),
{
    if trace.len() == 0 {
        Seq::empty()
    } else {
        fired_in(trace.drop_last()) + as_list(trace.last().1)
    }
}

/// The verdicts in a trace, in its order.
pub fn fired_verdicts(trace: &[RuleTrace]) -> (out: Vec<&Verdict>)
    ensures
        out@.map_values(|v: &Verdict| v@) == fired_in(trace_views(trace@)),
{
    let n: usize = trace.len();
    let mut out: Vec<&Verdict> = Vec::new();
    let mut i: usize = 0;
    let ghost all = trace_views(trace@);
    assert(out@.map_values(|v: &Verdict| v@) =~= fired_in(all.take(0)));
    while i < n
        invariant
            n == trace@.len(),
            i <= n,
            all == trace_views(trace@),
            out@.map_values(|v: &Verdict| v@) == fired_in(all.take(i as int)),
        decreases n - i,
    {
        let ghost before = out@;
        proof {
            assert(all.take(i + 1).drop_last() =~= all.take(i as int));
            assert(all.take(i + 1).last() == trace@[i as int]@);
        }
        match &trace[i].result {
            Ok(v) => {
                out.push(v);
                assert(out@.map_values(|v: &Verdict| v@) =~= before.map_values(|v: &Verdict| v@)
                    + seq![v@]);
            },
            Err(_) => {
                assert(out@.map_values(|v: &Verdict| v@) =~= before.map_values(|v: &Verdict| v@)
                    + Seq::<VerdictView>::empty());
            },
        }
        i += 1;
    }
    assert(all.take(n as int) =~= all);
    out
}

/// The more urgent of two severities.
pub open spec fn worse(a: Option<Severity>, b: Severity) -> Severity {
    match a {
        Some(s) => if s.rank() >= b.rank() {
            s
        } else {
            b
        },
        None => b,
    }
}

/// The most urgent severity of some verdicts.
pub open spec fn worst(verdicts: Seq<VerdictView>) -> Option<Severity>
    decreases verdicts.len(),
{
    if verdicts.len() == 0 {
        None
    } else {
        Some(worse(worst(verdicts.drop_last()), verdicts.last().severity()))
    }
}

pub fn worst_severity(verdicts: &[Verdict]) -> (r: Option<Severity>)
    ensures
        r == worst(verdict_views(verdicts@)),
{
    let n: usize = verdicts.len();
    let mut r: Option<Severity> = None;
    let mut i: usize = 0;
    let ghost all = verdict_views(verdicts@);
    while i < n
        invariant
            n == verdicts@.len(),
            i <= n,
            all == verdict_views(verdicts@),
            r == worst(all.take(i as int)),
        decreases n - i,
    {
        proof {
            assert(all.take(i + 1).drop_last() =~= all.take(i as int));
            assert(all.take(i + 1).last() == verdicts@[i as int]@);
        }
        r = Some(worse_of(r, verdicts[i].severity()));
        i += 1;
    }
    assert(all.take(n as int) =~= all);
    r
}

/// The more urgent of two severities.
pub fn worse_of(a: Option<Severity>, b: Severity) -> (r: Severity)
    ensures
        r == worse(a, b),
{
    match a {
        Some(s) => if s.level() >= b.level() {
            s
        } else {
            b
        },
        None => b,
    }
}

/// Whether some verdict is not that of a controller.
pub open spec fn flagged(verdicts: Seq<VerdictView>) -> bool {
    exists|i: int| 0 <= i < verdicts.len() && !(#[trigger] verdicts[i] is Managed)
}

/// An instance is "flagged" when it carries at least one verdict that isn't `Managed`.
/// `Managed` means the controller owns lifecycle and is not a user-actionable concern.
pub fn is_flagged(verdicts: &[Verdict]) -> (r: bool)
    ensures
        r == flagged(verdict_views(verdicts@)),
{
    let n: usize = verdicts.len();
    let mut i: usize = 0;
    let ghost all = verdict_views(verdicts@);
    while i < n
        invariant
            n == verdicts@.len(),
            i <= n,
            all == verdict_views(verdicts@),
            forall|j: int| 0 <= j < i ==> #[trigger] all[j] is Managed,
        decreases n - i,
    {
        assert(all[i as int] == verdicts@[i as int]@);
        if !matches!(&verdicts[i], Verdict::Managed { .. }) {
            return true;
        }
        i += 1;
    }
    false
}

/// Whether a verdict has a severity that its kind can have. An `Inactive`
/// verdict brings its own, which is above Info.
pub open spec fn graded(v: VerdictView) -> bool {
    v matches VerdictView::Inactive { severity, .. } ==> severity != Severity::Info
}

/// A list of verdicts is flagged exactly where its worst severity is above
/// Info. So neither the empty list nor one of `Managed` alone is.
pub proof fn flagged_means_above_info(verdicts: Seq<VerdictView>)
    requires
        forall|i: int| 0 <= i < verdicts.len() ==> graded(#[trigger] verdicts[i]),
    ensures
        flagged(verdicts) <==> worst(verdicts) is Some && worst(verdicts)->0 != Severity::Info,
    decreases verdicts.len(),
{
    if verdicts.len() > 0 {
        let front = verdicts.drop_last();
        assert forall|i: int| 0 <= i < front.len() implies graded(#[trigger] front[i]) by {
            assert(front[i] == verdicts[i]);
        }
        flagged_means_above_info(front);
        if flagged(front) {
            let i = choose|i: int| 0 <= i < front.len() && !(#[trigger] front[i] is Managed);
            assert(verdicts[i] == front[i]);
        } else {
            assert forall|i: int| 0 <= i < front.len() implies #[trigger] verdicts[i] is Managed by {
                assert(front[i] == verdicts[i]);
            }
        }
        assert(graded(verdicts[verdicts.len() - 1]));
    }
}

/// An instance is flagged exactly where the worst of its verdicts is above
/// Info.
pub proof fn flagged_instances_are_above_info(r: InstanceRecord, c: ContractView, cfg: Config)
    ensures
        flagged(verdicts_of(r, c, cfg)) <==> worst(verdicts_of(r, c, cfg)) is Some && worst(
            verdicts_of(r, c, cfg),
        )->0 != Severity::Info,
{
    let verdicts = verdicts_of(r, c, cfg);
    assert forall|i: int| 0 <= i < verdicts.len() implies graded(#[trigger] verdicts[i]) by {
        assert(!(verdicts[i] is Inactive));
    }
    flagged_means_above_info(verdicts);
}

/// A trace fires exactly the verdicts that the evaluation gives.
pub proof fn trace_fires_the_verdicts(r: InstanceRecord, c: ContractView, cfg: Config)
    ensures
        fired_in(rule_outcomes(r, c, cfg)) == verdicts_of(r, c, cfg),
{
    let t = rule_outcomes(r, c, cfg);
    reveal_with_fuel(fired_in, 6);
    assert(t.drop_last().drop_last().drop_last().drop_last().drop_last() =~= Seq::empty());
    assert(fired_in(t) =~= as_list(t[0].1) + as_list(t[1].1) + as_list(t[2].1) + as_list(t[3].1)
        + as_list(t[4].1));
    assert(fired_in(t) =~= verdicts_of(r, c, cfg));
}

/// An instance below a controller carries that verdict alone, and is not
/// flagged.
pub proof fn controller_preempts(r: InstanceRecord, c: ContractView, cfg: Config)
    requires
        controller(r.tags@) is Some,
    ensures
        verdicts_of(r, c, cfg) == seq![VerdictView::Managed { controller: controller(r.tags@)->0 }],
        !flagged(verdicts_of(r, c, cfg)),
        worst(verdicts_of(r, c, cfg)) == Some(Severity::Info),
{
    reveal_with_fuel(worst, 2);
}

/// An instance with a deadline to come is not called idle.
pub proof fn deadline_vetoes_idle(r: InstanceRecord, c: ContractView, cfg: Config, i: int)
    requires
        committed(c, cfg),
        0 <= i < verdicts_of(r, c, cfg).len(),
    ensures
        !(verdicts_of(r, c, cfg)[i] is Idle),
{
}

/// Without CPU data, or with too little of it, nothing is called idle.
pub proof fn missing_data_is_not_idleness(
    r: InstanceRecord,
    c: ContractView,
    cfg: Config,
    i: int,
)
    requires
        r.cpu is None || r.cpu->0.samples < cfg.min_cpu_samples || r.cpu->0.p95_pct is None,
        0 <= i < verdicts_of(r, c, cfg).len(),
    ensures
        !(verdicts_of(r, c, cfg)[i] is Idle),
{
}

/// No deadline is both missed and about to come.
pub proof fn expired_excludes_expiring(c: ContractView, cfg: Config)
    ensures
        !(expired_outcome(c, cfg) is Ok && expiring_soon_outcome(c, cfg) is Ok),
{
}

/// An instance that carries all four contract tags complies, and one that
/// lacks any does not.
pub proof fn complete_tags_comply(tags: Map<Seq<char>, Seq<char>>, c: ContractView, cfg: Config)
    ensures
        non_compliant_outcome(tags, c, cfg) is Err <==> c.managed_by_gasleak && c.owner is Some
            && c.owner_slack is Some && c.expires_at is Some,
{
}

/// Tags that were taken away, and legacy tags past the migration deadline, are
/// urgent; legacy tags before it are not.
pub proof fn compliance_severity(tags: Map<Seq<char>, Seq<char>>, c: ContractView, cfg: Config)
    requires
        non_compliant_outcome(tags, c, cfg) is Ok,
    ensures
        non_compliant_outcome(tags, c, cfg)->Ok_0.severity() == (if c.managed_by_gasleak
            || is_past_deadline(cfg) {
            Severity::High
        } else {
            Severity::Low
        }),
{
}

/// The worst severity is that of one of the verdicts, and none is worse.
pub proof fn worst_is_the_maximum(verdicts: Seq<VerdictView>)
    ensures
        worst(verdicts) is None <==> verdicts.len() == 0,
        forall|i: int|
            0 <= i < verdicts.len() ==> (#[trigger] verdicts[i]).severity().rank() <= worst(
                verdicts,
            )->0.rank(),
        verdicts.len() > 0 ==> exists|i: int|
            0 <= i < verdicts.len() && (#[trigger] verdicts[i]).severity() == worst(verdicts)->0,
    decreases verdicts.len(),
{
    if verdicts.len() > 0 {
        let front = verdicts.drop_last();
        worst_is_the_maximum(front);
        assert forall|i: int| 0 <= i < verdicts.len() implies (
        #[trigger] verdicts[i]).severity().rank() <= worst(verdicts)->0.rank() by {
            if i < front.len() {
                assert(front[i] == verdicts[i]);
            }
        }
        if front.len() > 0 && worst(verdicts) == worst(front) {
            let k = choose|i: int|
                0 <= i < front.len() && (#[trigger] front[i]).severity() == worst(front)->0;
            assert(verdicts[k] == front[k]);
        } else {
            assert(verdicts[verdicts.len() - 1].severity() == worst(verdicts)->0);
        }
    }
}

/// The exit code of some verdicts.
pub open spec fn exit_code_of(verdicts: Seq<VerdictView>) -> int {
    match worst(verdicts) {
        Some(s) => s.code(),
        None => 0,
    }
}

/// The exit code is 2 where some verdict is High, 1 where the worst is
/// Medium, and 0 where there is nothing above Low.
pub proof fn exit_code_reflects_the_worst(verdicts: Seq<VerdictView>)
    ensures
        exit_code_of(verdicts) == 2 <==> exists|i: int|
            0 <= i < verdicts.len() && (#[trigger] verdicts[i]).severity() == Severity::High,
        exit_code_of(verdicts) == 0 <==> forall|i: int|
            0 <= i < verdicts.len() ==> (#[trigger] verdicts[i]).severity() == Severity::Info
                || verdicts[i].severity() == Severity::Low,
        0 <= exit_code_of(verdicts) <= 2,
{
    worst_is_the_maximum(verdicts);
    if exists|i: int|
        0 <= i < verdicts.len() && (#[trigger] verdicts[i]).severity() == Severity::High {
        let k = choose|i: int|
            0 <= i < verdicts.len() && (#[trigger] verdicts[i]).severity() == Severity::High;
        assert(verdicts[k].severity().rank() <= worst(verdicts)->0.rank());
    }
    if exit_code_of(verdicts) == 0 {
        assert forall|i: int| 0 <= i < verdicts.len() implies (#[trigger] verdicts[i]).severity()
            == Severity::Info || verdicts[i].severity() == Severity::Low by {
            assert(verdicts[i].severity().rank() <= worst(verdicts)->0.rank());
        }
    }
}

} // verus!
