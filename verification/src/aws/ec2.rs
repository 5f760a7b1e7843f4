//! Instances as EC2 describes them, and the records made of them: filtered by
//! state, with the launcher resolved, and with `created_at` taken from the
//! attach time of the root volume so that stop/start cycles don't reset the
//! "how old is this box?" signal.

use vstd::prelude::*;

use crate::aws::{
    clamp, clamped, conversion_error, convert_instant, converts_to, convertible, SdkInstant,
};
use crate::error::Error;
use crate::model::{
    launcher, option_slice, option_text, resolve_launched_by, InstanceRecord, InstanceState,
};
use crate::order::{sorted, stable_sort, Order, WeakOrder};
use crate::tags::{collected, Tags};
use crate::text::{before, precedes, same};
use crate::timestamp::Timestamp;

verus! {

/// A device of an instance, with the time at which its volume was attached.
#[derive(Debug)]
pub struct DeviceMapping {
    pub device_name: Option<String>,
    pub attach_time: Option<SdkInstant>,
}

/// What EC2 says of an instance.
#[derive(Debug)]
pub struct RawInstance {
    pub instance_id: Option<String>,
    pub state_name: Option<String>,
    pub launch_time: Option<SdkInstant>,
    pub root_device_name: Option<String>,
    pub mappings: Vec<DeviceMapping>,
    pub instance_type: Option<String>,
    pub availability_zone: Option<String>,
    pub iam_profile_arn: Option<String>,
    pub key_name: Option<String>,
    pub tags: Vec<(Option<String>, Option<String>)>,
}

/// The attach time of the first device with that name that has one.
pub open spec fn attach_time_of(
    mappings: Seq<DeviceMapping>,
    root: Seq<char>,
) -> Option<SdkInstant>
    decreases mappings.len(),
{
    if mappings.len() == 0 {
        None
    } else if option_text(mappings[0].device_name) == Some(root) && mappings[0].attach_time
        is Some {
        mappings[0].attach_time
    } else {
        attach_time_of(mappings.drop_first(), root)
    }
}

/// The attach time of the root volume.
pub open spec fn root_attach_time(i: RawInstance) -> Option<SdkInstant> {
    match i.root_device_name {
        Some(root) => attach_time_of(i.mappings@, root@),
        None => None,
    }
}

fn root_volume_attach_time(i: &RawInstance) -> (r: Option<SdkInstant>)
    ensures
        r == root_attach_time(*i),
{
    let root: &String = match &i.root_device_name {
        Some(root) => root,
        None => return None,
    };
    let n: usize = i.mappings.len();
    let mut k: usize = 0;
    assert(i.mappings@.skip(0) =~= i.mappings@);
    while k < n
        invariant
            n == i.mappings@.len(),
            k <= n,
            root_attach_time(*i) == attach_time_of(i.mappings@.skip(k as int), root@),
        decreases n - k,
    {
        proof {
            let rest = i.mappings@.skip(k as int);
            assert(rest[0] == i.mappings@[k as int]);
            assert(rest.drop_first() =~= i.mappings@.skip(k + 1));
        }
        let m: &DeviceMapping = &i.mappings[k];
        if let Some(name) = &m.device_name {
            if same(name.as_str(), root.as_str()) {
                if let Some(t) = m.attach_time {
                    return Some(t);
                }
            }
        }
        k += 1;
    }
    None
}

/// The tags that have both key and value.
pub open spec fn complete_tags(tags: Seq<(Option<String>, Option<String>)>) -> Seq<
    (Seq<char>, Seq<char>),
>
    decreases tags.len(),
{
    if tags.len() == 0 {
        Seq::empty()
    } else {
        let front = complete_tags(tags.drop_last());
        match tags.last() {
            (Some(k), Some(v)) => front.push((k@, v@)),
            _ => front,
        }
    }
}

fn collect_tags(tags: &Vec<(Option<String>, Option<String>)>) -> (r: Tags)
    ensures
        r@ == collected(complete_tags(tags@)),
{
    let n: usize = tags.len();
    let mut r: Tags = Tags::new();
    let mut i: usize = 0;
    while i < n
        invariant
            n == tags@.len(),
            i <= n,
            r@ == collected(complete_tags(tags@.take(i as int))),
        decreases n - i,
    {
        proof {
            assert(tags@.take(i + 1).drop_last() =~= tags@.take(i as int));
            assert(tags@.take(i + 1).last() == tags@[i as int]);
        }
        if let (Some(k), Some(v)) = (&tags[i].0, &tags[i].1) {
            proof {
                let front = complete_tags(tags@.take(i as int));
                assert(front.push((k@, v@)).drop_last() =~= front);
            }
            r = r.with(k.clone(), v.clone());
        }
        i += 1;
    }
    assert(tags@.take(n as int) =~= tags@);
    r
}

/// Whether a record is made of an instance.
pub open spec fn is_kept(i: RawInstance, keep_states: Seq<InstanceState>) -> bool {
    &&& i.instance_id is Some
    &&& keep_states.contains(InstanceState::named(option_text(i.state_name)))
    &&& i.launch_time is Some
}

/// The first instant of an instance that cannot be converted.
pub open spec fn bad_instant(i: RawInstance) -> Option<SdkInstant> {
    if !convertible(i.launch_time->0) {
        i.launch_time
    } else if root_attach_time(i) is Some && !convertible(root_attach_time(i)->0) {
        root_attach_time(i)
    } else {
        None
    }
}

/// The instances of which records are made.
pub open spec fn kept(instances: Seq<RawInstance>, keep_states: Seq<InstanceState>) -> Seq<
    RawInstance,
>
    decreases instances.len(),
{
    if instances.len() == 0 {
        Seq::empty()
    } else if is_kept(instances.last(), keep_states) {
        kept(instances.drop_last(), keep_states).push(instances.last())
    } else {
        kept(instances.drop_last(), keep_states)
    }
}

/// The first instant, over all instances that are kept, that cannot be
/// converted.
pub open spec fn first_bad(instances: Seq<RawInstance>, keep_states: Seq<InstanceState>) -> Option<
    SdkInstant,
>
    decreases instances.len(),
{
    if instances.len() == 0 {
        None
    } else if first_bad(instances.drop_last(), keep_states) is Some {
        first_bad(instances.drop_last(), keep_states)
    } else if is_kept(instances.last(), keep_states) {
        bad_instant(instances.last())
    } else {
        None
    }
}

/// The creation time: that of the root volume, else the launch time.
pub open spec fn creation(i: RawInstance) -> SdkInstant {
    match root_attach_time(i) {
        Some(t) => t,
        None => i.launch_time->0,
    }
}

/// The type of an instance.
pub open spec fn kind_of_instance(i: RawInstance) -> Seq<char> {
    match i.instance_type {
        Some(t) => t@,
        None => "unknown"@,
    }
}

/// Whether `r` is the record of the instance `i`.
pub open spec fn is_record(
    r: InstanceRecord,
    i: RawInstance,
    region: Seq<char>,
    now: Timestamp,
) -> bool {
    &&& r.instance_id@ == i.instance_id->0@
    &&& (option_text(r.launched_by), r.launched_by_source) == launcher(
        collected(complete_tags(i.tags@)),
        option_text(i.iam_profile_arn),
        option_text(i.key_name),
    )
    &&& converts_to(i.launch_time->0, r.launch_time)
    &&& converts_to(creation(i), r.created_at)
    &&& r.last_uptime_seconds == clamped(now.seconds() - r.launch_time.seconds())
    &&& r.total_age_seconds == clamped(now.seconds() - r.created_at.seconds())
    &&& r.instance_type@ == kind_of_instance(i)
    &&& r.state == InstanceState::named(option_text(i.state_name))
    &&& r.region@ == region
    &&& option_text(r.az) == option_text(i.availability_zone)
    &&& option_text(r.iam_instance_profile) == option_text(i.iam_profile_arn)
    &&& option_text(r.key_name) == option_text(i.key_name)
    &&& r.tags@ == collected(complete_tags(i.tags@))
    &&& r.estimated_cost_usd is None
    &&& r.cost_breakdown is None
    &&& r.cpu is None
}

/// Whether the records are those of the instances, one by one.
pub open spec fn are_records(
    records: Seq<InstanceRecord>,
    instances: Seq<RawInstance>,
    region: Seq<char>,
    now: Timestamp,
) -> bool {
    &&& records.len() == instances.len()
    &&& forall|k: int|
        0 <= k < records.len() ==> is_record(#[trigger] records[k], instances[k], region, now)
}

/// Records from the oldest to the newest; those of one age by their ids.
pub struct OldestFirst;

impl Order<InstanceRecord> for OldestFirst {
    open spec fn before(a: InstanceRecord, b: InstanceRecord) -> bool {
        a.total_age_seconds > b.total_age_seconds || (a.total_age_seconds == b.total_age_seconds
            && precedes(a.instance_id@, b.instance_id@))
    }

    fn less(a: &InstanceRecord, b: &InstanceRecord) -> (r: bool) {
        a.total_age_seconds > b.total_age_seconds || (a.total_age_seconds == b.total_age_seconds
            && before(a.instance_id.as_str(), b.instance_id.as_str()))
    }
}

impl WeakOrder<InstanceRecord> for OldestFirst {
    proof fn asymmetric(a: InstanceRecord, b: InstanceRecord) {
        if a.total_age_seconds == b.total_age_seconds {
            crate::text::lemma_precedes_asymmetric(a.instance_id@, b.instance_id@);
        }
    }

    proof fn transitive(a: InstanceRecord, b: InstanceRecord, c: InstanceRecord) {
        if a.total_age_seconds == b.total_age_seconds && b.total_age_seconds
            == c.total_age_seconds {
            crate::text::lemma_follows_transitive(a.instance_id@, b.instance_id@, c.instance_id@);
        }
    }
}

fn state_is_kept(state: InstanceState, keep_states: &[InstanceState]) -> (r: bool)
    ensures
        r == keep_states@.contains(state),
{
    let n: usize = keep_states.len();
    let mut i: usize = 0;
    while i < n
        invariant
            n == keep_states@.len(),
            i <= n,
            forall|j: int| 0 <= j < i ==> keep_states@[j] != state,
        decreases n - i,
    {
        if keep_states[i] == state {
            assert(keep_states@[i as int] == state);
            return true;
        }
        i += 1;
    }
    false
}

fn copy_option(o: &Option<String>) -> (r: Option<String>)
    ensures
        option_text(r) == option_text(*o),
{
    match o {
        Some(s) => Some(s.clone()),
        None => None,
    }
}

fn as_slice(o: &Option<String>) -> (r: Option<&str>)
    ensures
        option_slice(r) == option_text(*o),
{
    match o {
        Some(s) => Some(s.as_str()),
        None => None,
    }
}

/// The record of an instance that is kept, or the error of its first instant
/// that cannot be converted.
fn to_record(i: &RawInstance, id: &String, launch: SdkInstant, region: &str, now: Timestamp) -> (r:
    Result<InstanceRecord, Error>)
    requires
        i.instance_id matches Some(s) && s@ == id@,
        i.launch_time == Some(launch),
    ensures
        r is Ok == bad_instant(*i) is None,
        r matches Ok(rec) ==> is_record(rec, *i, region@, now),
        r matches Err(e) ==> e matches Error::InvalidTimestamp(m) && m@ == conversion_error(
            bad_instant(*i)->0,
        ),
{
    let launch_time: Timestamp = match convert_instant(launch) {
        Ok(t) => t,
        Err(e) => return Err(e),
    };
    let created_at: Timestamp = match root_volume_attach_time(i) {
        Some(dt) => match convert_instant(dt) {
            Ok(t) => t,
            Err(e) => return Err(e),
        },
        None => launch_time,
    };
    let now_secs: i64 = now.as_second();
    let last_uptime_seconds: i64 = clamp(now_secs as i128 - launch_time.as_second() as i128);
    let total_age_seconds: i64 = clamp(now_secs as i128 - created_at.as_second() as i128);
    let instance_type: String = match &i.instance_type {
        Some(t) => t.clone(),
        None => "unknown".to_string(),
    };
    let tags: Tags = collect_tags(&i.tags);
    let (launched_by, launched_by_source) = resolve_launched_by(
        &tags,
        as_slice(&i.iam_profile_arn),
        as_slice(&i.key_name),
    );
    let name: Option<&str> = as_slice(&i.state_name);
    Ok(
        InstanceRecord {
            instance_id: id.clone(),
            launched_by,
            launched_by_source,
            launch_time,
            created_at,
            last_uptime_seconds,
            total_age_seconds,
            instance_type,
            state: InstanceState::from_sdk(name),
            region: region.to_string(),
            az: copy_option(&i.availability_zone),
            iam_instance_profile: copy_option(&i.iam_profile_arn),
            key_name: copy_option(&i.key_name),
            tags,
            estimated_cost_usd: None,
            cost_breakdown: None,
            cpu: None,
        },
    )
}

/// Whether `out` holds the records of the instances that are kept, the oldest
/// first.
pub open spec fn lists_records(
    out: Seq<InstanceRecord>,
    instances: Seq<RawInstance>,
    region: Seq<char>,
    now: Timestamp,
    keep_states: Seq<InstanceState>,
) -> bool {
    exists|made: Seq<InstanceRecord>|
        #[trigger] are_records(made, kept(instances, keep_states), region, now) && out
            == sorted::<InstanceRecord, OldestFirst>(made)
}

pub fn to_records(
    instances: &Vec<RawInstance>,
    region: &str,
    now: Timestamp,
    keep_states: &[InstanceState],
) -> (r: Result<Vec<InstanceRecord>, Error>)
    ensures
        r is Ok == first_bad(instances@, keep_states@) is None,
        r matches Ok(out) ==> lists_records(out@, instances@, region@, now, keep_states@),
        r matches Err(e) ==> e matches Error::InvalidTimestamp(m) && m@ == conversion_error(
            first_bad(instances@, keep_states@)->0,
        ),
{
    let n: usize = instances.len();
    let mut out: Vec<InstanceRecord> = Vec::new();
    let mut i: usize = 0;
    while i < n
        invariant
            n == instances@.len(),
            i <= n,
            first_bad(instances@.take(i as int), keep_states@) is None,
            are_records(out@, kept(instances@.take(i as int), keep_states@), region@, now),
        decreases n - i,
    {
        let ghost front = instances@.take(i + 1);
        proof {
            assert(front.drop_last() =~= instances@.take(i as int));
            assert(front.last() == instances@[i as int]);
        }
        let instance: &RawInstance = &instances[i];
        if let Some(id) = &instance.instance_id {
            let state: InstanceState = InstanceState::from_sdk(as_slice(&instance.state_name));
            if state_is_kept(state, keep_states) {
                if let Some(launch) = instance.launch_time {
                    match to_record(instance, id, launch, region, now) {
                        Ok(record) => {
                            let ghost made = out@;
                            out.push(record);
                            proof {
                                let list = kept(front, keep_states@);
                                assert forall|k: int| 0 <= k < out@.len() implies is_record(
                                    #[trigger] out@[k],
                                    list[k],
                                    region@,
                                    now,
                                ) by {
                                    if k < made.len() {
                                        assert(out@[k] == made[k]);
                                    }
                                }
                            }
                        },
                        Err(e) => {
                            proof {
                                lemma_first_bad_stays(instances@, keep_states@, i + 1);
                            }
                            return Err(e);
                        },
                    }
                }
            }
        }
        i += 1;
    }
    proof {
        assert(instances@.take(n as int) =~= instances@);
    }
    let ghost made = out@;
    let in_order: Vec<InstanceRecord> = stable_sort::<InstanceRecord, OldestFirst>(out);
    assert(are_records(made, kept(instances@, keep_states@), region@, now));
    Ok(in_order)
}

proof fn lemma_first_bad_stays(
    instances: Seq<RawInstance>,
    keep_states: Seq<InstanceState>,
    k: int,
)
    requires
        0 <= k <= instances.len(),
        first_bad(instances.take(k), keep_states) is Some,
    ensures
        first_bad(instances, keep_states) == first_bad(instances.take(k), keep_states),
    decreases instances.len() - k,
{
    if k == instances.len() {
        assert(instances.take(k) =~= instances);
    } else {
        assert(instances.take(k + 1).drop_last() =~= instances.take(k));
        lemma_first_bad_stays(instances, keep_states, k + 1);
    }
}

/// Records come with the oldest first.
pub proof fn records_come_oldest_first(made: Seq<InstanceRecord>, i: int, j: int)
    requires
        0 <= i < j < sorted::<InstanceRecord, OldestFirst>(made).len(),
    ensures
        sorted::<InstanceRecord, OldestFirst>(made)[i].total_age_seconds >= sorted::<
            InstanceRecord,
            OldestFirst,
        >(made)[j].total_age_seconds,
{
    crate::order::sorting_orders::<InstanceRecord, OldestFirst>(made);
    let rows = sorted::<InstanceRecord, OldestFirst>(made);
    assert(!OldestFirst::before(rows[j], rows[i]));
}

/// What is kept is in a state that is looked at.
proof fn lemma_kept_states(instances: Seq<RawInstance>, keep_states: Seq<InstanceState>, k: int)
    requires
        0 <= k < kept(instances, keep_states).len(),
    ensures
        is_kept(kept(instances, keep_states)[k], keep_states),
    decreases instances.len(),
{
    let front = kept(instances.drop_last(), keep_states);
    if k < front.len() {
        lemma_kept_states(instances.drop_last(), keep_states, k);
    }
}

/// Every record is of an instance in a state that is looked at. So an id that
/// only instances in other states have, such as terminated ones for `explain`,
/// is that of no record.
pub proof fn records_are_in_the_states_asked_for(
    out: Seq<InstanceRecord>,
    instances: Seq<RawInstance>,
    region: Seq<char>,
    now: Timestamp,
    keep_states: Seq<InstanceState>,
    k: int,
)
    requires
        lists_records(out, instances, region, now, keep_states),
        0 <= k < out.len(),
    ensures
        keep_states.contains(out[k].state),
{
    broadcast use vstd::seq_lib::group_to_multiset_ensures;

    let made = choose|made: Seq<InstanceRecord>|
        #[trigger] are_records(made, kept(instances, keep_states), region, now) && out
            == sorted::<InstanceRecord, OldestFirst>(made);
    crate::order::sorting_keeps_elements::<InstanceRecord, OldestFirst>(made);
    assert(out.contains(out[k]));
    assert(out.to_multiset().count(out[k]) > 0);
    assert(made.contains(out[k]));
    let j = choose|j: int| 0 <= j < made.len() && made[j] == out[k];
    assert(is_record(made[j], kept(instances, keep_states)[j], region, now));
    lemma_kept_states(instances, keep_states, j);
}

} // verus!
