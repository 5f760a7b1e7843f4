//! What a record tells of the instance that it is made of.

use vstd::prelude::*;

use crate::aws::ec2::{
    are_records, attach_time_of, complete_tags, creation, first_bad, is_record, kept, lists_records,
    root_attach_time, DeviceMapping, OldestFirst, RawInstance,
};
use crate::aws::{clamped, convertible, converts_to, SdkInstant};
use crate::model::{
    after_last_slash, first_tag, launcher, option_text, preferred_tag_keys, uptime_text,
    InstanceRecord, InstanceState, LaunchedBySource,
};
use crate::order::{sorted, sorting_keeps_elements};
use crate::tags::collected;
use crate::text::nat_text;
use crate::timestamp::{Timestamp, MAX_SECOND, MIN_SECOND};

verus! {

/// Whether an instance has an id, a launch time, and one of the states that are
/// looked at.
pub open spec fn wanted(i: RawInstance, keep_states: Seq<InstanceState>) -> bool {
    &&& i.instance_id is Some
    &&& i.launch_time is Some
    &&& keep_states.contains(InstanceState::named(option_text(i.state_name)))
}

/// A state has one of the names that EC2 gives it; whatever else it is called,
/// it is some other state.
pub proof fn states_go_by_their_names(name: Seq<char>)
    ensures
        InstanceState::named(Some(name)) != InstanceState::Other ==> InstanceState::named(
            Some(name),
        ).name() == name,
        InstanceState::named(None) == InstanceState::Other,
        name == "running"@ <==> InstanceState::named(Some(name)) == InstanceState::Running,
        name == "terminated"@ <==> InstanceState::named(Some(name)) == InstanceState::Terminated,
{
    crate::model::state_names_lead_back(InstanceState::Running);
    crate::model::state_names_lead_back(InstanceState::Terminated);
}

proof fn lemma_kept(instances: Seq<RawInstance>, keep_states: Seq<InstanceState>, i: RawInstance)
    ensures
        kept(instances, keep_states).contains(i) <==> instances.contains(i) && wanted(
            i,
            keep_states,
        ),
    decreases instances.len(),
{
    let list = kept(instances, keep_states);
    if instances.len() > 0 {
        let front = instances.drop_last();
        let n = instances.len() - 1;
        let some = kept(front, keep_states);
        assert(instances[n] == instances.last());
        lemma_kept(front, keep_states, i);
        if list.contains(i) {
            let k = choose|k: int| 0 <= k < list.len() && list[k] == i;
            if k < some.len() {
                assert(some[k] == i);
                assert(some.contains(i));
                let j = choose|j: int| 0 <= j < front.len() && front[j] == i;
                assert(instances[j] == i);
            }
        }
        if instances.contains(i) && wanted(i, keep_states) {
            let j = choose|j: int| 0 <= j < instances.len() && instances[j] == i;
            if j < n {
                assert(front[j] == i);
                assert(some.contains(i));
                let k = choose|k: int| 0 <= k < some.len() && some[k] == i;
                assert(list[k] == i);
            } else {
                assert(list[some.len() as int] == i);
            }
        }
    }
}

/// Every instance in a state that is looked at, with an id and a launch time,
/// has a record; and every record is that of such an instance.
pub proof fn every_wanted_instance_has_a_record(
    out: Seq<InstanceRecord>,
    instances: Seq<RawInstance>,
    region: Seq<char>,
    now: Timestamp,
    keep_states: Seq<InstanceState>,
)
    requires
        lists_records(out, instances, region, now, keep_states),
    ensures
        forall|i: RawInstance|
            #[trigger] instances.contains(i) && wanted(i, keep_states) ==> exists|r: InstanceRecord|
                #[trigger] out.contains(r) && is_record(r, i, region, now),
        forall|r: InstanceRecord|
            #[trigger] out.contains(r) ==> exists|i: RawInstance|
                #[trigger] instances.contains(i) && wanted(i, keep_states) && is_record(
                    r,
                    i,
                    region,
                    now,
                ),
        forall|j: int, k: int|
            0 <= j < k < out.len() ==> (#[trigger] out[j]).total_age_seconds >= (
            #[trigger] out[k]).total_age_seconds,
{
    broadcast use vstd::seq_lib::group_to_multiset_ensures;

    let list = kept(instances, keep_states);
    let made = choose|made: Seq<InstanceRecord>|
        #[trigger] are_records(made, list, region, now) && out == sorted::<
            InstanceRecord,
            OldestFirst,
        >(made);
    sorting_keeps_elements::<InstanceRecord, OldestFirst>(made);
    assert forall|r: InstanceRecord| #[trigger] out.contains(r) <==> made.contains(r) by {
        assert(out.contains(r) <==> out.to_multiset().count(r) > 0);
        assert(made.contains(r) <==> made.to_multiset().count(r) > 0);
    }
    assert forall|i: RawInstance| #[trigger] instances.contains(i) && wanted(
        i,
        keep_states,
    ) implies exists|r: InstanceRecord| #[trigger] out.contains(r) && is_record(r, i, region, now) by {
        lemma_kept(instances, keep_states, i);
        let k = choose|k: int| 0 <= k < list.len() && list[k] == i;
        assert(is_record(made[k], list[k], region, now));
        assert(made.contains(made[k]));
        assert(out.contains(made[k]));
    }
    assert forall|r: InstanceRecord| #[trigger] out.contains(r) implies exists|i: RawInstance|
        #[trigger] instances.contains(i) && wanted(i, keep_states) && is_record(
            r,
            i,
            region,
            now,
        ) by {
        assert(made.contains(r));
        let k = choose|k: int| 0 <= k < made.len() && made[k] == r;
        assert(is_record(made[k], list[k], region, now));
        assert(list.contains(list[k]));
        lemma_kept(instances, keep_states, list[k]);
        assert(instances.contains(list[k]));
    }
    assert forall|j: int, k: int| 0 <= j < k < out.len() implies (
    #[trigger] out[j]).total_age_seconds >= (#[trigger] out[k]).total_age_seconds by {
        crate::aws::ec2::records_come_oldest_first(made, j, k);
    }
}

/// A record repeats what EC2 says of the instance, and says of its own the
/// region; its uptime counts from the launch to the present, its age from its
/// creation.
pub proof fn a_record_describes_the_instance(
    r: InstanceRecord,
    i: RawInstance,
    region: Seq<char>,
    now: Timestamp,
)
    requires
        is_record(r, i, region, now),
        i.instance_id is Some,
        i.launch_time is Some,
    ensures
        r.instance_id@ == i.instance_id->0@,
        r.region@ == region,
        i.instance_type is Some ==> r.instance_type@ == i.instance_type->0@,
        i.instance_type is None ==> r.instance_type@ == "unknown"@,
        i.availability_zone is Some <==> r.az is Some,
        i.availability_zone is Some ==> r.az->0@ == i.availability_zone->0@,
        i.iam_profile_arn is Some <==> r.iam_instance_profile is Some,
        i.iam_profile_arn is Some ==> r.iam_instance_profile->0@ == i.iam_profile_arn->0@,
        i.key_name is Some <==> r.key_name is Some,
        i.key_name is Some ==> r.key_name->0@ == i.key_name->0@,
        i.launch_time->0.secs >= 0 ==> r.launch_time.seconds() == i.launch_time->0.secs,
        i64::MIN <= now.seconds() - r.launch_time.seconds() <= i64::MAX
            ==> r.launch_time.seconds() + r.last_uptime_seconds == now.seconds(),
        i64::MIN <= now.seconds() - r.created_at.seconds() <= i64::MAX ==> r.created_at.seconds()
            + r.total_age_seconds == now.seconds(),
        r.state == InstanceState::named(option_text(i.state_name)),
        r.tags@ == collected(complete_tags(i.tags@)),
        (option_text(r.launched_by), r.launched_by_source) == launcher(
            collected(complete_tags(i.tags@)),
            option_text(i.iam_profile_arn),
            option_text(i.key_name),
        ),
        r.cpu is None,
        r.estimated_cost_usd is None,
        r.cost_breakdown is None,
{
}

/// The first device of a name that has an attach time gives it.
proof fn lemma_attach_time(mappings: Seq<DeviceMapping>, root: Seq<char>)
    ensures
        attach_time_of(mappings, root) is Some <==> exists|k: int|
            0 <= k < mappings.len() && (#[trigger] mappings[k]).attach_time is Some
                && mappings[k].device_name is Some && mappings[k].device_name->0@ == root,
        attach_time_of(mappings, root) is Some ==> exists|k: int|
            0 <= k < mappings.len() && attach_time_of(mappings, root) == (
            #[trigger] mappings[k]).attach_time && mappings[k].device_name is Some
                && mappings[k].device_name->0@ == root,
    decreases mappings.len(),
{
    if mappings.len() > 0 {
        let rest = mappings.drop_first();
        lemma_attach_time(rest, root);
        if option_text(mappings[0].device_name) == Some(root) && mappings[0].attach_time is Some {
            assert(mappings[0].attach_time is Some);
        } else {
            if attach_time_of(rest, root) is Some {
                let k = choose|k: int|
                    0 <= k < rest.len() && attach_time_of(rest, root) == (
                    #[trigger] rest[k]).attach_time && rest[k].device_name is Some
                        && rest[k].device_name->0@ == root;
                assert(mappings[k + 1] == rest[k]);
            }
            if exists|k: int|
                0 <= k < mappings.len() && (#[trigger] mappings[k]).attach_time is Some
                    && mappings[k].device_name is Some && mappings[k].device_name->0@ == root {
                let k = choose|k: int|
                    0 <= k < mappings.len() && (#[trigger] mappings[k]).attach_time is Some
                        && mappings[k].device_name is Some && mappings[k].device_name->0@ == root;
                assert(rest[k - 1] == mappings[k]);
            }
        }
    }
}

/// An instance counts as created when its root volume was attached; without
/// such a time, when it was launched.
pub proof fn creation_is_when_the_root_volume_was_attached(i: RawInstance)
    ensures
        (exists|k: int|
            0 <= k < i.mappings@.len() && (#[trigger] i.mappings@[k]).attach_time is Some
                && i.root_device_name is Some && i.mappings@[k].device_name is Some
                && i.mappings@[k].device_name->0@ == i.root_device_name->0@) ==> exists|k: int|
            0 <= k < i.mappings@.len() && Some(creation(i)) == (
            #[trigger] i.mappings@[k]).attach_time && i.mappings@[k].device_name is Some
                && i.mappings@[k].device_name->0@ == i.root_device_name->0@,
        (forall|k: int|
            0 <= k < i.mappings@.len() ==> (#[trigger] i.mappings@[k]).attach_time is None
                || i.root_device_name is None || i.mappings@[k].device_name is None
                || i.mappings@[k].device_name->0@ != i.root_device_name->0@) ==> creation(i)
            == i.launch_time->0,
{
    if i.root_device_name is Some {
        lemma_attach_time(i.mappings@, i.root_device_name->0@);
    }
}

/// Stopping and starting an instance resets its uptime, not its age: two
/// records that differ in the launch time alone tell the same age, where the
/// root volume has an attach time.
pub proof fn a_restart_keeps_the_age(
    a: InstanceRecord,
    b: InstanceRecord,
    i: RawInstance,
    later: SdkInstant,
    region: Seq<char>,
    now: Timestamp,
)
    requires
        is_record(a, i, region, now),
        is_record(b, (RawInstance { launch_time: Some(later), ..i }), region, now),
        root_attach_time(i) is Some,
    ensures
        a.total_age_seconds == b.total_age_seconds,
        a.created_at.seconds() == b.created_at.seconds(),
{
}

/// Records can be made exactly where every instant that they need can be
/// converted.
pub proof fn bad_instants_are_found(instances: Seq<RawInstance>, keep_states: Seq<InstanceState>)
    ensures
        first_bad(instances, keep_states) is None <==> forall|i: RawInstance|
            #[trigger] instances.contains(i) && wanted(i, keep_states) ==> convertible(
                i.launch_time->0,
            ) && convertible(creation(i)),
        first_bad(instances, keep_states) is Some ==> !convertible(
            first_bad(instances, keep_states)->0,
        ),
    decreases instances.len(),
{
    if instances.len() > 0 {
        let front = instances.drop_last();
        let n = instances.len() - 1;
        let last = instances[n];
        assert(instances.last() == last);
        bad_instants_are_found(front, keep_states);
        assert(instances.contains(last));
        if first_bad(instances, keep_states) is None {
            assert forall|i: RawInstance| #[trigger] instances.contains(i) && wanted(
                i,
                keep_states,
            ) implies convertible(i.launch_time->0) && convertible(creation(i)) by {
                let k = choose|k: int| 0 <= k < instances.len() && instances[k] == i;
                if k < n {
                    assert(front[k] == i);
                    assert(front.contains(i));
                }
            }
        } else if first_bad(front, keep_states) is Some {
            let i = choose|i: RawInstance|
                #[trigger] front.contains(i) && wanted(i, keep_states) && !(convertible(
                    i.launch_time->0,
                ) && convertible(creation(i)));
            let k = choose|k: int| 0 <= k < front.len() && front[k] == i;
            assert(instances[k] == i);
            assert(instances.contains(i));
        }
    }
}

/// The tags of a record are those that have both key and value, of two with
/// the same key the later one.
pub proof fn incomplete_tags_are_left_out(
    tags: Seq<(Option<String>, Option<String>)>,
    key: Seq<char>,
)
    ensures
        collected(complete_tags(tags)).contains_key(key) <==> exists|k: int|
            0 <= k < tags.len() && (#[trigger] tags[k]).0 is Some && tags[k].1 is Some
                && (tags[k].0)->0@ == key,
        collected(complete_tags(tags)).contains_key(key) ==> exists|k: int|
            0 <= k < tags.len() && (#[trigger] tags[k]).0 is Some && tags[k].1 is Some
                && (tags[k].0)->0@ == key && (tags[k].1)->0@ == collected(complete_tags(tags))[key]
                && forall|j: int|
                k < j < tags.len() && (#[trigger] tags[j]).0 is Some && tags[j].1 is Some
                    ==> (tags[j].0)->0@ != key,
    decreases tags.len(),
{
    if tags.len() > 0 {
        let front = tags.drop_last();
        let n = tags.len() - 1;
        let last = tags[n];
        assert(tags.last() == last);
        incomplete_tags_are_left_out(front, key);
        let pairs = complete_tags(tags);
        if last.0 is Some && last.1 is Some {
            assert(pairs.drop_last() =~= complete_tags(front));
        }
        let map = collected(pairs);
        if last.0 is Some && last.1 is Some && (last.0)->0@ == key {
            assert((tags[n].1)->0@ == map[key]);
        } else {
            let before = collected(complete_tags(front));
            assert(map.contains_key(key) == before.contains_key(key));
            if before.contains_key(key) {
                assert(map[key] == before[key]);
                let k = choose|k: int|
                    0 <= k < front.len() && (#[trigger] front[k]).0 is Some && front[k].1 is Some
                        && (front[k].0)->0@ == key && (front[k].1)->0@ == before[key] && forall|
                        j: int,
                    |
                        k < j < front.len() && (#[trigger] front[j]).0 is Some && front[j].1 is Some
                            ==> (front[j].0)->0@ != key;
                assert(tags[k] == front[k]);
                assert forall|j: int|
                    k < j < tags.len() && (#[trigger] tags[j]).0 is Some && tags[j].1
                        is Some implies (tags[j].0)->0@ != key by {
                    if j < n {
                        assert(front[j] == tags[j]);
                    }
                }
            } else {
                assert forall|k: int|
                    0 <= k < tags.len() && (#[trigger] tags[k]).0 is Some && tags[k].1
                        is Some implies (tags[k].0)->0@ != key by {
                    if k < n {
                        assert(front[k] == tags[k]);
                    }
                }
            }
        }
    }
}

// ───────────────────────── The launcher ─────────────────────────

proof fn lemma_first_tag(tags: Map<Seq<char>, Seq<char>>, keys: Seq<Seq<char>>, k: int)
    requires
        0 <= k < keys.len(),
        tags.contains_key(keys[k]),
        forall|j: int| 0 <= j < k ==> !tags.contains_key(#[trigger] keys[j]),
    ensures
        first_tag(tags, keys) == Some(tags[keys[k]]),
    decreases keys.len(),
{
    if k > 0 {
        let rest = keys.drop_first();
        assert(!tags.contains_key(keys[0]));
        assert(rest[k - 1] == keys[k]);
        assert forall|j: int| 0 <= j < k - 1 implies !tags.contains_key(#[trigger] rest[j]) by {
            assert(keys[j + 1] == rest[j]);
        }
        lemma_first_tag(tags, rest, k - 1);
    }
}

proof fn lemma_no_tag(tags: Map<Seq<char>, Seq<char>>, keys: Seq<Seq<char>>)
    requires
        forall|j: int| 0 <= j < keys.len() ==> !tags.contains_key(#[trigger] keys[j]),
    ensures
        first_tag(tags, keys) is None,
    decreases keys.len(),
{
    if keys.len() > 0 {
        let rest = keys.drop_first();
        assert(!tags.contains_key(keys[0]));
        assert forall|j: int| 0 <= j < rest.len() implies !tags.contains_key(#[trigger] rest[j]) by {
            assert(keys[j + 1] == rest[j]);
        }
        lemma_no_tag(tags, rest);
    }
}

/// The tags that tell the launcher, in the order in which they are asked.
pub open spec fn telling_keys() -> Seq<Seq<char>> {
    Seq::empty()
        .push("launched_by"@)
        .push("LaunchedBy"@)
        .push("launched-by"@)
        .push("CreatedBy"@)
        .push("created_by"@)
        .push("created-by"@)
        .push("Owner"@)
        .push("owner"@)
}

/// A tag tells the launcher before anything else: the first of the telling
/// keys that the instance has.
pub proof fn tags_tell_the_launcher_first(
    tags: Map<Seq<char>, Seq<char>>,
    arn: Option<Seq<char>>,
    key_name: Option<Seq<char>>,
    k: int,
)
    requires
        0 <= k < telling_keys().len(),
        tags.contains_key(telling_keys()[k]),
        forall|j: int| 0 <= j < k ==> !tags.contains_key(#[trigger] telling_keys()[j]),
    ensures
        launcher(tags, arn, key_name) == (
            Some(tags[telling_keys()[k]]),
            LaunchedBySource::Tag,
        ),
{
    assert(preferred_tag_keys() =~= telling_keys());
    lemma_first_tag(tags, telling_keys(), k);
}

proof fn lemma_after_slash(s: Seq<char>)
    ensures
        after_last_slash(s) is Some <==> s.contains('/'),
        after_last_slash(s) is Some ==> exists|front: Seq<char>|
            s == #[trigger] front.push('/') + after_last_slash(s)->0,
        after_last_slash(s) is Some ==> !after_last_slash(s)->0.contains('/'),
    decreases s.len(),
{
    if s.len() > 0 {
        let n = s.len() - 1;
        let most = s.drop_last();
        lemma_after_slash(most);
        if s.last() == '/' {
            assert(s[n] == '/');
            assert(s =~= most.push('/') + Seq::<char>::empty());
        } else {
            if most.contains('/') {
                let k = choose|k: int| 0 <= k < most.len() && most[k] == '/';
                assert(s[k] == '/');
                let front = choose|front: Seq<char>|
                    most == #[trigger] front.push('/') + after_last_slash(most)->0;
                let rest = after_last_slash(most)->0;
                assert(s =~= most.push(s.last()));
                assert(most.push(s.last()) =~= front.push('/') + rest.push(s.last()));
                assert(!rest.push(s.last()).contains('/')) by {
                    if rest.push(s.last()).contains('/') {
                        let m = choose|m: int|
                            0 <= m < rest.push(s.last()).len() && rest.push(s.last())[m] == '/';
                        assert(rest[m] == '/');
                    }
                }
            } else if s.contains('/') {
                let k = choose|k: int| 0 <= k < s.len() && s[k] == '/';
                assert(most[k] == '/');
            }
        }
    }
}

/// Without a telling tag the launcher is the role of the instance profile, which
/// is what stands behind the last slash of its name; without one the key pair;
/// and else it is not known.
pub proof fn role_and_key_pair_come_next(
    tags: Map<Seq<char>, Seq<char>>,
    arn: Option<Seq<char>>,
    key_name: Option<Seq<char>>,
)
    requires
        forall|j: int|
            0 <= j < telling_keys().len() ==> !tags.contains_key(#[trigger] telling_keys()[j]),
    ensures
        ({
            let (who, how) = launcher(tags, arn, key_name);
            let has_role = arn is Some && arn->0.contains('/') && arn->0.last() != '/';
            let has_key = key_name is Some && key_name->0.len() > 0;
            &&& has_role ==> how == LaunchedBySource::IamRole && who is Some && who->0.len() > 0
                && !who->0.contains('/') && exists|front: Seq<char>|
                arn->0 == #[trigger] front.push('/') + who->0
            &&& !has_role && has_key ==> how == LaunchedBySource::KeyName && who == key_name
            &&& !has_role && !has_key ==> how == LaunchedBySource::Unknown && who is None
        }),
{
    assert(preferred_tag_keys() =~= telling_keys());
    lemma_no_tag(tags, telling_keys());
    if arn is Some {
        let s = arn->0;
        lemma_after_slash(s);
        if after_last_slash(s) is Some {
            let rest = after_last_slash(s)->0;
            let front = choose|front: Seq<char>| s == #[trigger] front.push('/') + rest;
            if rest.len() == 0 {
                assert(s.last() == '/');
            } else {
                assert(s.last() == rest.last());
                assert(rest[rest.len() - 1] == rest.last());
            }
        }
    }
}

/// An uptime is told in days, hours and minutes that add up to it, but for the
/// seconds; days and hours are left out where there are none in front.
pub proof fn uptimes_add_up(seconds: int)
    requires
        seconds >= 0,
    ensures
        exists|d: nat, h: nat, m: nat|
            #![trigger nat_text(d), nat_text(h), nat_text(m)]
            h < 24 && m < 60 && d * 86_400 + h * 3_600 + m * 60 <= seconds < d * 86_400 + h * 3_600
                + m * 60 + 60 && uptime_text(seconds) == (if d > 0 {
                nat_text(d) + "d "@ + nat_text(h) + "h "@ + nat_text(m) + "m"@
            } else if h > 0 {
                nat_text(h) + "h "@ + nat_text(m) + "m"@
            } else {
                nat_text(m) + "m"@
            }),
{
    let d = (seconds / 86_400) as nat;
    let h = ((seconds % 86_400) / 3_600) as nat;
    let m = ((seconds % 3_600) / 60) as nat;
    assert(nat_text(d) == nat_text(d) && nat_text(h) == nat_text(h) && nat_text(m) == nat_text(m));
    assert((seconds % 86_400) % 3_600 == seconds % 3_600);
}

/// Converting keeps the instant to the nanosecond, and every instant of the
/// years that a record can tell is converted.
pub proof fn converting_keeps_the_instant(dt: SdkInstant, t: Timestamp)
    ensures
        converts_to(dt, t) ==> t.seconds() * 1_000_000_000 + t.nanoseconds() == dt.secs
            * 1_000_000_000 + dt.subsec_nanos,
        converts_to(dt, t) ==> dt.subsec_nanos < 1_000_000_000,
        MIN_SECOND <= dt.secs <= MAX_SECOND && dt.subsec_nanos < 1_000_000_000 <==> convertible(dt),
{
}

/// A difference of two instants is told as it is where it fits in 64 bits, and
/// two of them never change places.
pub proof fn differences_keep_their_order(a: int, b: int)
    requires
        a <= b,
    ensures
        i64::MIN <= clamped(a) <= clamped(b) <= i64::MAX,
        i64::MIN <= a <= i64::MAX ==> clamped(a) == a,
{
}

} // verus!
