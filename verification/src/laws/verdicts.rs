//! When each rule fires, and what its verdict says.

use vstd::prelude::*;

use crate::contract::{declared_expiry, ContractView};
use crate::model::InstanceRecord;
use crate::staleness::rules::missing_tags;
use crate::staleness::{
    exit_code_of, flagged, rule_outcomes, verdicts_of, worst, worst_is_the_maximum, Config,
    Severity, SkipReason, VerdictView,
};
use crate::text::begins_with;
use crate::timestamp::{read_instant, written_instant};

verus! {

/// Whether EKS, an auto scaling group or a spot fleet has tagged the instance.
pub open spec fn has_controller_tag(r: InstanceRecord) -> bool {
    ||| r.tags@.contains_key("eks:cluster-name"@)
    ||| r.tags@.contains_key("aws:autoscaling:groupName"@)
    ||| r.tags@.contains_key("aws:ec2spot:fleet-request-id"@)
}

/// A controller's tag gives one `Managed` verdict and nothing else; without
/// such a tag there is none. EKS is named before the group below it, and the
/// group before the spot fleet.
pub proof fn managed_comes_from_a_controller_tag(r: InstanceRecord, c: ContractView, cfg: Config)
    ensures
        has_controller_tag(r) ==> verdicts_of(r, c, cfg).len() == 1 && verdicts_of(r, c, cfg)[0] is Managed,
        !has_controller_tag(r) ==> forall|i: int|
            0 <= i < verdicts_of(r, c, cfg).len() ==> !(#[trigger] verdicts_of(r, c, cfg)[i] is Managed),
        r.tags@.contains_key("eks:cluster-name"@) ==> verdicts_of(r, c, cfg)[0]->controller == "eks"@,
        !r.tags@.contains_key("eks:cluster-name"@) && r.tags@.contains_key(
            "aws:autoscaling:groupName"@,
        ) ==> verdicts_of(r, c, cfg)[0]->controller == "asg"@,
        !r.tags@.contains_key("eks:cluster-name"@) && !r.tags@.contains_key(
            "aws:autoscaling:groupName"@,
        ) && r.tags@.contains_key("aws:ec2spot:fleet-request-id"@) ==> verdicts_of(
            r,
            c,
            cfg,
        )[0]->controller == "spot-fleet"@,
{
}

/// `Expired` comes exactly where the deadline lies in the past, and tells by
/// how much: deadline and overdue time add up to the present.
pub proof fn expired_means_past_the_deadline(r: InstanceRecord, c: ContractView, cfg: Config)
    requires
        !has_controller_tag(r),
    ensures
        (exists|i: int|
            0 <= i < verdicts_of(r, c, cfg).len() && #[trigger] verdicts_of(r, c, cfg)[i] is Expired)
            <==> c.expires_at is Some && c.expires_at->0.seconds() < cfg.now.seconds(),
        forall|i: int|
            0 <= i < verdicts_of(r, c, cfg).len() && #[trigger] verdicts_of(r, c, cfg)[i] is Expired
                ==> {
                let v = verdicts_of(r, c, cfg)[i];
                &&& v->Expired_at == c.expires_at->0
                &&& v->overdue_secs > 0
                &&& v->Expired_at.seconds() + v->overdue_secs == cfg.now.seconds()
            },
{
    let v = verdicts_of(r, c, cfg);
    if c.expires_at is Some && c.expires_at->0.seconds() < cfg.now.seconds() {
        assert(v[0] is Expired);
    }
}

/// `ExpiringSoon` comes exactly where the deadline lies ahead by no more than
/// the warning window, and tells by how much.
pub proof fn expiring_means_close_to_the_deadline(r: InstanceRecord, c: ContractView, cfg: Config)
    requires
        !has_controller_tag(r),
    ensures
        (exists|i: int|
            0 <= i < verdicts_of(r, c, cfg).len() && #[trigger] verdicts_of(r, c, cfg)[i] is ExpiringSoon)
            <==> c.expires_at is Some && cfg.now.seconds() < c.expires_at->0.seconds()
            && c.expires_at->0.seconds() <= cfg.now.seconds() + cfg.warn_window_secs,
        forall|i: int|
            0 <= i < verdicts_of(r, c, cfg).len() && #[trigger] verdicts_of(r, c, cfg)[i] is ExpiringSoon
                ==> {
                let v = verdicts_of(r, c, cfg)[i];
                &&& v->ExpiringSoon_at == c.expires_at->0
                &&& cfg.now.seconds() + v->within_secs == v->ExpiringSoon_at.seconds()
            },
{
    let v = verdicts_of(r, c, cfg);
    if c.expires_at is Some && cfg.now.seconds() < c.expires_at->0.seconds()
        && c.expires_at->0.seconds() <= cfg.now.seconds() + cfg.warn_window_secs {
        assert(v[0] is ExpiringSoon);
    }
}

/// `Idle` comes exactly where no deadline lies ahead, there are enough samples
/// and their percentile does not reach the threshold. Average, maximum and last
/// activity do not count. The verdict tells the percentile, the number of
/// samples and the window.
pub proof fn idle_means_a_low_percentile(r: InstanceRecord, c: ContractView, cfg: Config)
    ensures
        (exists|i: int|
            0 <= i < verdicts_of(r, c, cfg).len() && #[trigger] verdicts_of(r, c, cfg)[i] is Idle)
            <==> {
            &&& !has_controller_tag(r)
            &&& (c.expires_at is None || c.expires_at->0.seconds() <= cfg.now.seconds())
            &&& r.cpu is Some
            &&& r.cpu->0.samples >= cfg.min_cpu_samples
            &&& r.cpu->0.p95_pct is Some
            &&& !cfg.p95_idle_threshold.at_most(r.cpu->0.p95_pct->0)
        },
        forall|i: int|
            0 <= i < verdicts_of(r, c, cfg).len() && #[trigger] verdicts_of(r, c, cfg)[i] is Idle ==> {
                let v = verdicts_of(r, c, cfg)[i];
                &&& Some(v->Idle_p95_pct) == r.cpu->0.p95_pct
                &&& v->Idle_samples == r.cpu->0.samples
                &&& v->Idle_window_secs == cfg.idle_lookback_secs
            },
{
    let v = verdicts_of(r, c, cfg);
    if !has_controller_tag(r) && (c.expires_at is None || c.expires_at->0.seconds()
        <= cfg.now.seconds()) && r.cpu is Some && r.cpu->0.samples >= cfg.min_cpu_samples
        && r.cpu->0.p95_pct is Some && !cfg.p95_idle_threshold.at_most(r.cpu->0.p95_pct->0) {
        if c.expires_at is Some && c.expires_at->0.seconds() < cfg.now.seconds() {
            assert(v[1] is Idle);
        } else {
            assert(v[0] is Idle);
        }
    }
}

/// The verdicts read the tags, the number of samples and the percentile, and
/// nothing else of a record.
pub proof fn verdicts_depend_on_tags_and_percentile(
    a: InstanceRecord,
    b: InstanceRecord,
    c: ContractView,
    cfg: Config,
)
    requires
        a.tags@ == b.tags@,
        a.cpu is Some <==> b.cpu is Some,
        a.cpu is Some ==> a.cpu->0.samples == b.cpu->0.samples && a.cpu->0.p95_pct
            == b.cpu->0.p95_pct,
    ensures
        verdicts_of(a, c, cfg) == verdicts_of(b, c, cfg),
{
}

/// Of a higher percentile nothing else changes than that the instance may no
/// longer be idle: where the higher one is called idle, so is the lower.
pub proof fn a_lower_percentile_stays_idle(
    a: InstanceRecord,
    b: InstanceRecord,
    c: ContractView,
    cfg: Config,
    i: int,
)
    requires
        a.tags@ == b.tags@,
        a.cpu is Some,
        b.cpu is Some,
        a.cpu->0.samples <= b.cpu->0.samples,
        a.cpu->0.p95_pct is Some,
        b.cpu->0.p95_pct is Some,
        b.cpu->0.p95_pct->0.at_most(a.cpu->0.p95_pct->0),
        0 <= i < verdicts_of(a, c, cfg).len(),
        verdicts_of(a, c, cfg)[i] is Idle,
    ensures
        exists|j: int|
            0 <= j < verdicts_of(b, c, cfg).len() && #[trigger] verdicts_of(b, c, cfg)[j] is Idle,
{
    idle_means_a_low_percentile(a, c, cfg);
    idle_means_a_low_percentile(b, c, cfg);
}

/// `NonCompliant` comes exactly where the marker or another contract tag is
/// missing. It names each missing tag and no other: a marker with a wrong
/// value is told from none. It is called tampered with where the marker is
/// right, and past the deadline where the migration deadline is over.
pub proof fn non_compliant_names_what_is_missing(r: InstanceRecord, c: ContractView, cfg: Config)
    requires
        !has_controller_tag(r),
    ensures
        (exists|i: int|
            0 <= i < verdicts_of(r, c, cfg).len() && #[trigger] verdicts_of(r, c, cfg)[i] is NonCompliant)
            <==> !c.managed_by_gasleak || c.owner is None || c.owner_slack is None
            || c.expires_at is None,
        forall|i: int|
            0 <= i < verdicts_of(r, c, cfg).len() && #[trigger] verdicts_of(r, c, cfg)[i] is NonCompliant
                ==> {
                let v = verdicts_of(r, c, cfg)[i];
                &&& v->missing.contains("Owner"@) <==> c.owner is None
                &&& v->missing.contains("OwnerSlack"@) <==> c.owner_slack is None
                &&& v->missing.contains("ExpiresAt"@) <==> c.expires_at is None
                &&& v->missing.contains("ManagedBy"@) <==> !c.managed_by_gasleak
                    && !r.tags@.contains_key("ManagedBy"@)
                &&& v->missing.contains("ManagedBy(wrong-prefix)"@) <==> !c.managed_by_gasleak
                    && r.tags@.contains_key("ManagedBy"@)
                &&& v->missing.len() == (if c.managed_by_gasleak {
                    0int
                } else {
                    1
                }) + (if c.owner is None {
                    1int
                } else {
                    0
                }) + (if c.owner_slack is None {
                    1int
                } else {
                    0
                }) + (if c.expires_at is None {
                    1int
                } else {
                    0
                })
                &&& v->tampered <==> c.managed_by_gasleak
                &&& v->past_deadline <==> cfg.migration_deadline is Some
                    && cfg.migration_deadline->0.seconds() < cfg.now.seconds()
            },
{
    lemma_missing(r.tags@, c);
    let v = verdicts_of(r, c, cfg);
    if !c.managed_by_gasleak || c.owner is None || c.owner_slack is None || c.expires_at is None {
        assert(v[v.len() - 1] is NonCompliant);
    }
    assert forall|i: int| 0 <= i < v.len() && #[trigger] v[i] is NonCompliant implies v[i]->missing
        == missing_tags(r.tags@, c) by {
    }
}

proof fn lemma_missing(tags: Map<Seq<char>, Seq<char>>, c: ContractView)
    ensures
        ({
            let missing = missing_tags(tags, c);
            &&& missing.contains("Owner"@) <==> c.owner is None
            &&& missing.contains("OwnerSlack"@) <==> c.owner_slack is None
            &&& missing.contains("ExpiresAt"@) <==> c.expires_at is None
            &&& missing.contains("ManagedBy"@) <==> !c.managed_by_gasleak && !tags.contains_key(
                "ManagedBy"@,
            )
            &&& missing.contains("ManagedBy(wrong-prefix)"@) <==> !c.managed_by_gasleak
                && tags.contains_key("ManagedBy"@)
        }),
{
    reveal_strlit("Owner");
    reveal_strlit("OwnerSlack");
    reveal_strlit("ExpiresAt");
    reveal_strlit("ManagedBy");
    reveal_strlit("ManagedBy(wrong-prefix)");
    assert("Owner"@.len() == 5 && "OwnerSlack"@.len() == 10 && "ManagedBy(wrong-prefix)"@.len()
        == 23);
    assert("ManagedBy"@.len() == 9 && "ManagedBy"@[0] == 'M');
    assert("ExpiresAt"@.len() == 9 && "ExpiresAt"@[0] == 'E');
    let missing = missing_tags(tags, c);
    let a: int = if c.managed_by_gasleak {
        0
    } else {
        1
    };
    let b: int = if c.owner is None {
        a + 1
    } else {
        a
    };
    let d: int = if c.owner_slack is None {
        b + 1
    } else {
        b
    };
    if !c.managed_by_gasleak {
        assert(missing[0] == if tags.contains_key("ManagedBy"@) {
            "ManagedBy(wrong-prefix)"@
        } else {
            "ManagedBy"@
        });
    }
    if c.owner is None {
        assert(missing[a] == "Owner"@);
    }
    if c.owner_slack is None {
        assert(missing[b] == "OwnerSlack"@);
    }
    if c.expires_at is None {
        assert(missing[d] == "ExpiresAt"@);
    }
}

/// The place of a kind of verdict in a list.
pub open spec fn place(v: VerdictView) -> int {
    match v {
        VerdictView::Managed { .. } => 0,
        VerdictView::Expired { .. } => 1,
        VerdictView::ExpiringSoon { .. } => 2,
        VerdictView::Idle { .. } => 3,
        VerdictView::NonCompliant { .. } => 4,
        _ => 5,
    }
}

/// Each rule gives at most one verdict, and the verdicts stand in the order of
/// the rules. Of the kinds that no rule gives there is none.
pub proof fn each_rule_speaks_once(r: InstanceRecord, c: ContractView, cfg: Config)
    ensures
        forall|i: int, j: int|
            0 <= i < j < verdicts_of(r, c, cfg).len() ==> place(#[trigger] verdicts_of(r, c, cfg)[i])
                < place(#[trigger] verdicts_of(r, c, cfg)[j]),
        forall|i: int|
            0 <= i < verdicts_of(r, c, cfg).len() ==> place(#[trigger] verdicts_of(r, c, cfg)[i]) < 5,
{
}

/// Where a rule does not fire, the trace gives the first thing that stood in
/// its way. A controller stands in the way of every other rule.
pub proof fn the_trace_gives_the_first_reason(r: InstanceRecord, c: ContractView, cfg: Config)
    ensures
        rule_outcomes(r, c, cfg).len() == 5,
        rule_outcomes(r, c, cfg)[0].0 == "managed"@,
        rule_outcomes(r, c, cfg)[1].0 == "expired"@,
        rule_outcomes(r, c, cfg)[2].0 == "expiring_soon"@,
        rule_outcomes(r, c, cfg)[3].0 == "idle"@,
        rule_outcomes(r, c, cfg)[4].0 == "non_compliant"@,
        has_controller_tag(r) ==> forall|k: int|
            1 <= k < 5 ==> (#[trigger] rule_outcomes(r, c, cfg)[k]).1 == Err::<
                VerdictView,
                SkipReason,
            >(SkipReason::PreemptedByController),
        !has_controller_tag(r) ==> {
            let t = rule_outcomes(r, c, cfg);
            let ahead = c.expires_at is Some && c.expires_at->0.seconds() > cfg.now.seconds();
            &&& t[0].1 == Err::<VerdictView, SkipReason>(SkipReason::NoControllerTags)
            &&& c.expires_at is None ==> t[1].1 == Err::<VerdictView, SkipReason>(
                SkipReason::ExpiresAtUnset,
            ) && t[2].1 == t[1].1
            &&& c.expires_at is Some && t[1].1 is Err ==> t[1].1->Err_0 == SkipReason::NotExpired
            &&& c.expires_at is Some && t[2].1 is Err ==> t[2].1->Err_0
                == SkipReason::OutsideWarnWindow
            &&& t[3].1 == Err::<VerdictView, SkipReason>(SkipReason::DeadlineCommitted) <==> ahead
            &&& t[3].1 == Err::<VerdictView, SkipReason>(SkipReason::NoCpuData) <==> !ahead
                && r.cpu is None
            &&& t[3].1 == Err::<VerdictView, SkipReason>(SkipReason::TooFewSamples) <==> !ahead
                && r.cpu is Some && r.cpu->0.samples < cfg.min_cpu_samples
            &&& t[3].1 == Err::<VerdictView, SkipReason>(SkipReason::NoPercentile) <==> !ahead
                && r.cpu is Some && r.cpu->0.samples >= cfg.min_cpu_samples && r.cpu->0.p95_pct is None
            &&& t[4].1 is Err ==> t[4].1->Err_0 == SkipReason::TagsComplete
        },
{
}

/// How severe each verdict is. What is over or tampered with is urgent, what
/// is about to end less so, and what is merely unused or untagged least.
pub proof fn severities_follow_the_kind(v: VerdictView)
    ensures
        v is Managed <==> v.severity() == Severity::Info && !(v is Inactive),
        v is Expired ==> v.severity() == Severity::High,
        v is ExpiringSoon ==> v.severity() == Severity::Medium,
        v is Idle || v is LongLived || v is Underutilized ==> v.severity() == Severity::Low,
        v is Inactive ==> v.severity() == v->severity,
        v is NonCompliant && (v->tampered || v->past_deadline) ==> v.severity() == Severity::High,
        v is NonCompliant && !v->tampered && !v->past_deadline ==> v.severity() == Severity::Low,
{
}

/// The process fails hardest on what is over: the exit code is 2 exactly where
/// an unmanaged instance is past its deadline, or lacks tags that it had or
/// should have by now.
pub proof fn overdue_instances_give_the_hardest_exit(r: InstanceRecord, c: ContractView, cfg: Config)
    ensures
        exit_code_of(verdicts_of(r, c, cfg)) == 2 <==> !has_controller_tag(r) && {
            ||| c.expires_at is Some && c.expires_at->0.seconds() < cfg.now.seconds()
            ||| {
                &&& !c.managed_by_gasleak || c.owner is None || c.owner_slack is None
                    || c.expires_at is None
                &&& c.managed_by_gasleak || (cfg.migration_deadline is Some
                    && cfg.migration_deadline->0.seconds() < cfg.now.seconds())
            }
        },
        exit_code_of(verdicts_of(r, c, cfg)) >= 1 <== !has_controller_tag(r) && c.expires_at is Some
            && cfg.now.seconds() < c.expires_at->0.seconds() <= cfg.now.seconds()
            + cfg.warn_window_secs,
        flagged(verdicts_of(r, c, cfg)) <==> !has_controller_tag(r) && verdicts_of(r, c, cfg).len()
            > 0,
{
    let v = verdicts_of(r, c, cfg);
    worst_is_the_maximum(v);
    crate::staleness::exit_code_reflects_the_worst(v);
    if v.len() > 0 {
        assert(v[0].severity().rank() <= worst(v)->0.rank());
        assert(v[v.len() - 1].severity().rank() <= worst(v)->0.rank());
    }
    let k = choose|i: int| 0 <= i < v.len() && (#[trigger] v[i]).severity() == worst(v)->0;
    if v.len() > 0 {
        assert(v[k].severity() == worst(v)->0);
    }
}

/// The contract reads the tags as they stand: the marker by its prefix, owner
/// and channel word for word, and nothing where there is no tag.
pub proof fn the_contract_reads_the_tags(c: ContractView, tags: Map<Seq<char>, Seq<char>>)
    requires
        c.reads(tags),
    ensures
        c.managed_by_gasleak <==> tags.contains_key("ManagedBy"@) && exists|rest: Seq<char>|
            tags["ManagedBy"@] == #[trigger] ("gasleak/"@ + rest),
        tags.contains_key("Owner"@) <==> c.owner is Some,
        tags.contains_key("Owner"@) ==> c.owner->0@ == tags["Owner"@],
        tags.contains_key("OwnerSlack"@) <==> c.owner_slack is Some,
        tags.contains_key("OwnerSlack"@) ==> c.owner_slack->0@ == tags["OwnerSlack"@],
{
    let p = "gasleak/"@;
    if tags.contains_key("ManagedBy"@) {
        let v = tags["ManagedBy"@];
        if begins_with(v, p) {
            assert(v =~= p + v.skip(p.len() as int));
        }
        if exists|rest: Seq<char>| v == #[trigger] (p + rest) {
            let rest = choose|rest: Seq<char>| v == #[trigger] (p + rest);
            assert(v.take(p.len() as int) =~= p);
        }
    }
}

/// The deadline is what the tag `ExpiresAt` writes; without the tag, or where
/// it writes no instant, there is none.
pub proof fn the_deadline_is_what_the_tag_writes(tags: Map<Seq<char>, Seq<char>>)
    ensures
        !tags.contains_key("ExpiresAt"@) ==> declared_expiry(tags) is None,
        tags.contains_key("ExpiresAt"@) ==> declared_expiry(tags) == written_instant(
            tags["ExpiresAt"@],
        ),
        tags.contains_key("ExpiresAt"@) && !begins_with(tags["ExpiresAt"@], "-009999"@)
            ==> declared_expiry(tags) == read_instant(tags["ExpiresAt"@]),
{
}

} // verus!
