//! Core domain types.

use vstd::prelude::*;

use crate::double::Double;
use crate::tags::Tags;
use crate::text::{nat_text, same, slices, text_of, unsigned};
use crate::timestamp::Timestamp;

verus! {

/// One EC2 instance with what was derived from it.
#[derive(Debug)]
pub struct InstanceRecord {
    pub instance_id: String,
    pub launched_by: Option<String>,
    pub launched_by_source: LaunchedBySource,
    /// Time of the most recent start. Resets on stop/start.
    pub launch_time: Timestamp,
    /// Time the instance was originally created (root EBS volume `AttachTime`).
    /// Falls back to `launch_time` for instance-store / missing-data cases.
    pub created_at: Timestamp,
    /// `now - launch_time`. Time since the most recent start.
    pub last_uptime_seconds: i64,
    /// `now - created_at`. Time since original creation; survives stop/start.
    pub total_age_seconds: i64,
    pub instance_type: String,
    pub state: InstanceState,
    pub region: String,
    pub az: Option<String>,
    pub iam_instance_profile: Option<String>,
    pub key_name: Option<String>,
    pub tags: Tags,
    /// Compute cost so far, with storage where the volumes are known.
    pub estimated_cost_usd: Option<Double>,
    /// Where the cost comes from; unknown where the volumes are.
    pub cost_breakdown: Option<CostBreakdown>,
    pub cpu: Option<CpuSummary>,
}

/// How the launcher of an instance was found.
#[derive(Clone, Copy, Debug, PartialEq, Eq, Structural)]
pub enum LaunchedBySource {
    Tag,
    IamRole,
    KeyName,
    Unknown,
}

impl LaunchedBySource {
    /// The name of the source.
    pub open spec fn name(self) -> Seq<char> {
        match self {
            LaunchedBySource::Tag => "tag"@,
            LaunchedBySource::IamRole => "iam-role"@,
            LaunchedBySource::KeyName => "key-name"@,
            LaunchedBySource::Unknown => "unknown"@,
        }
    }

    pub fn as_str(self) -> (r: &'static str)
        ensures
            r@ == self.name(),
    {
        match self {
            LaunchedBySource::Tag => "tag",
            LaunchedBySource::IamRole => "iam-role",
            LaunchedBySource::KeyName => "key-name",
            LaunchedBySource::Unknown => "unknown",
        }
    }
}

/// The power state of an instance.
#[derive(Clone, Copy, Debug, PartialEq, Eq, Structural)]
pub enum InstanceState {
    Pending,
    Running,
    ShuttingDown,
    Terminated,
    Stopping,
    Stopped,
    Other,
}

impl InstanceState {
    /// The name of the state.
    pub open spec fn name(self) -> Seq<char> {
        match self {
            InstanceState::Pending => "pending"@,
            InstanceState::Running => "running"@,
            InstanceState::ShuttingDown => "shutting-down"@,
            InstanceState::Terminated => "terminated"@,
            InstanceState::Stopping => "stopping"@,
            InstanceState::Stopped => "stopped"@,
            InstanceState::Other => "other"@,
        }
    }

    /// The state with the name that EC2 gives it; every other name, and none,
    /// is `Other`.
    pub open spec fn named(name: Option<Seq<char>>) -> InstanceState {
        match name {
            None => InstanceState::Other,
            Some(n) => if n == "pending"@ {
                InstanceState::Pending
            } else if n == "running"@ {
                InstanceState::Running
            } else if n == "shutting-down"@ {
                InstanceState::ShuttingDown
            } else if n == "terminated"@ {
                InstanceState::Terminated
            } else if n == "stopping"@ {
                InstanceState::Stopping
            } else if n == "stopped"@ {
                InstanceState::Stopped
            } else {
                InstanceState::Other
            },
        }
    }

    pub fn from_sdk(name: Option<&str>) -> (r: InstanceState)
        ensures
            r == InstanceState::named(
                match name {
                    Some(n) => Some(n@),
                    None => None,
                },
            ),
    {
        let n: &str = match name {
            Some(n) => n,
            None => return InstanceState::Other,
        };
        if same(n, "pending") {
            InstanceState::Pending
        } else if same(n, "running") {
            InstanceState::Running
        } else if same(n, "shutting-down") {
            InstanceState::ShuttingDown
        } else if same(n, "terminated") {
            InstanceState::Terminated
        } else if same(n, "stopping") {
            InstanceState::Stopping
        } else if same(n, "stopped") {
            InstanceState::Stopped
        } else {
            InstanceState::Other
        }
    }

    pub fn as_str(self) -> (r: &'static str)
        ensures
            r@ == self.name(),
    {
        match self {
            InstanceState::Pending => "pending",
            InstanceState::Running => "running",
            InstanceState::ShuttingDown => "shutting-down",
            InstanceState::Terminated => "terminated",
            InstanceState::Stopping => "stopping",
            InstanceState::Stopped => "stopped",
            InstanceState::Other => "other",
        }
    }

    pub fn is_billable(self) -> (r: bool)
        ensures
            r == (self == InstanceState::Pending || self == InstanceState::Running || self
                == InstanceState::Stopping),
    {
        matches!(
            self,
            InstanceState::Pending | InstanceState::Running | InstanceState::Stopping
        )
    }
}

/// The name of a state leads back to the state.
pub proof fn state_names_lead_back(s: InstanceState)
    ensures
        InstanceState::named(Some(s.name())) == s,
{
    reveal_strlit("pending");
    reveal_strlit("running");
    reveal_strlit("shutting-down");
    reveal_strlit("terminated");
    reveal_strlit("stopping");
    reveal_strlit("stopped");
    reveal_strlit("other");
    assert("pending"@[0] == 'p' && "running"@[0] == 'r' && "terminated"@[0] == 't'
        && "other"@[0] == 'o' && "shutting-down"@[1] == 'h' && "stopping"@[5] == 'i'
        && "stopped"@[5] == 'e' && "stopping"@[1] == 't' && "stopped"@[1] == 't');
    assert("pending"@.len() == 7 && "running"@.len() == 7 && "terminated"@.len() == 10);
    assert("shutting-down"@[0] == 's' && "stopping"@[0] == 's' && "stopped"@[0] == 's');
}

/// CPU load over the lookback window.
#[derive(Clone, Copy, Debug)]
pub struct CpuSummary {
    pub avg_pct: Option<Double>,
    pub p95_pct: Option<Double>,
    pub max_pct: Option<Double>,
    pub samples: usize,
    /// Most recent hour (within the lookback window) whose *maximum* CPU was
    /// at or above the activity threshold. `None` if the instance was never
    /// active in the window, or if CloudWatch returned no data.
    pub last_active_at: Option<Timestamp>,
    /// Length of the window that was looked at.
    pub window_secs: i64,
}

/// One EBS volume.
#[derive(Debug)]
pub struct VolumeInfo {
    pub volume_id: String,
    pub volume_type: String,
    pub size_gib: i32,
    pub iops: Option<i32>,
    pub throughput_mibps: Option<i32>,
    pub create_time: Timestamp,
    pub attached_instance_ids: Vec<String>,
}

/// What one volume has cost so far.
#[derive(Debug)]
pub struct VolumeCost {
    pub volume_id: String,
    pub volume_type: String,
    pub size_gib: i32,
    pub iops: Option<i32>,
    pub throughput_mibps: Option<i32>,
    pub age_secs: i64,
    pub capacity_usd: Double,
    pub iops_usd: Double,
    pub throughput_usd: Double,
    pub total_usd: Double,
    /// Why the figure is known to be incomplete.
    pub excluded_reason: Option<&'static str>,
}

/// Where the cost of an instance comes from.
#[derive(Debug)]
pub struct CostBreakdown {
    pub compute_usd: Double,
    pub storage_usd: Double,
    pub storage_run_rate_usd_per_month: Double,
    pub volumes: Vec<VolumeCost>,
}

/// Projected spend, in five units of time.
#[derive(Clone, Copy, Debug, PartialEq, Eq, Structural)]
pub struct BurnRate {
    pub hour: Double,
    pub day: Double,
    pub week: Double,
    pub month: Double,
    pub year: Double,
}

impl BurnRate {
    /// The rates that belong to an hourly rate: 24-hour days, 7-day weeks,
    /// 730-hour months and 8760-hour years.
    pub open spec fn of_hourly(hour: Double) -> BurnRate {
        BurnRate {
            hour,
            day: hour.product(Double::of_int(24)),
            week: hour.product(Double::of_int(168)),
            month: hour.product(Double::of_int(730)),
            year: hour.product(Double::of_int(8760)),
        }
    }

    pub fn from_hourly(hour: Double) -> (r: BurnRate)
        ensures
            r == BurnRate::of_hourly(hour),
    {
        BurnRate {
            hour,
            day: hour.times(Double::from_i64(24)),
            week: hour.times(Double::from_i64(168)),
            month: hour.times(Double::from_i64(730)),
            year: hour.times(Double::from_i64(8760)),
        }
    }
}

/// A duration in days, hours and minutes, from the largest that is not zero.
pub open spec fn uptime_text(seconds: int) -> Seq<char> {
    let d = (seconds / 86_400) as nat;
    let h = ((seconds % 86_400) / 3_600) as nat;
    let m = ((seconds % 3_600) / 60) as nat;
    if seconds < 0 {
        "-"@
    } else if d > 0 {
        nat_text(d) + "d "@ + nat_text(h) + "h "@ + nat_text(m) + "m"@
    } else if h > 0 {
        nat_text(h) + "h "@ + nat_text(m) + "m"@
    } else {
        nat_text(m) + "m"@
    }
}

pub fn format_uptime(seconds: i64) -> (r: String)
    ensures
        r@ == uptime_text(seconds as int),
{
    if seconds < 0 {
        return "-".to_string();
    }
    let s: u64 = seconds as u64;
    let d: u64 = s / 86_400;
    let h: u64 = (s % 86_400) / 3_600;
    let m: u64 = (s % 3_600) / 60;
    if d > 0 {
        unsigned(d).concat("d ").concat(unsigned(h).as_str()).concat("h ").concat(
            unsigned(m).as_str(),
        ).concat("m")
    } else if h > 0 {
        unsigned(h).concat("h ").concat(unsigned(m).as_str()).concat("m")
    } else {
        unsigned(m).concat("m")
    }
}

/// The tags that name the launcher of an instance, the most telling first.
pub open spec fn preferred_tag_keys() -> Seq<Seq<char>> {
    seq![
        "launched_by"@,
        "LaunchedBy"@,
        "launched-by"@,
        "CreatedBy"@,
        "created_by"@,
        "created-by"@,
        "Owner"@,
        "owner"@,
    ]
}

fn preferred_keys() -> (r: Vec<&'static str>)
    ensures
        slices(r@) == preferred_tag_keys(),
{
    let mut r: Vec<&'static str> = Vec::new();
    r.push("launched_by");
    r.push("LaunchedBy");
    r.push("launched-by");
    r.push("CreatedBy");
    r.push("created_by");
    r.push("created-by");
    r.push("Owner");
    r.push("owner");
    assert(slices(r@) =~= preferred_tag_keys());
    r
}

/// The value of the first of `keys` that is a tag.
pub open spec fn first_tag(
    tags: Map<Seq<char>, Seq<char>>,
    keys: Seq<Seq<char>>,
) -> Option<Seq<char>>
    decreases keys.len(),
{
    if keys.len() == 0 {
        None
    } else if tags.contains_key(keys[0]) {
        Some(tags[keys[0]])
    } else {
        first_tag(tags, keys.drop_first())
    }
}

/// What stands after the last slash of `s`.
pub open spec fn after_last_slash(s: Seq<char>) -> Option<Seq<char>>
    decreases s.len(),
{
    if s.len() == 0 {
        None
    } else if s.last() == '/' {
        Some(Seq::empty())
    } else {
        match after_last_slash(s.drop_last()) {
            Some(rest) => Some(rest.push(s.last())),
            None => None,
        }
    }
}

fn last_segment(s: &str) -> (r: Option<String>)
    ensures
        r is Some == after_last_slash(s@) is Some,
        r matches Some(t) ==> after_last_slash(s@) == Some(t@),
{
    let chars: Vec<char> = crate::text::chars_of(s);
    let n: usize = chars.len();
    let mut i: usize = n;
    assert(chars@.take(n as int) =~= s@);
    proof {
        if let Some(t) = after_last_slash(s@) {
            assert(t + chars@.skip(n as int) =~= t);
        }
    }
    while i > 0
        invariant
            n == chars@.len(),
            chars@ == s@,
            i <= n,
            after_last_slash(s@) == (match after_last_slash(chars@.take(i as int)) {
                Some(t) => Some(t + chars@.skip(i as int)),
                None => None,
            }),
        decreases i,
    {
        let ghost front = chars@.take(i as int);
        assert(front.last() == chars@[i - 1]);
        assert(front.drop_last() =~= chars@.take(i - 1));
        if chars[i - 1] == '/' {
            assert(Seq::<char>::empty() + chars@.skip(i as int) =~= chars@.subrange(
                i as int,
                n as int,
            ));
            return Some(text_of(&chars, i, n));
        }
        proof {
            if let Some(t) = after_last_slash(front.drop_last()) {
                assert(t.push(chars@[i - 1]) + chars@.skip(i as int) =~= t + chars@.skip(i - 1));
            }
        }
        i -= 1;
    }
    None
}

/// Who launched an instance, and how that is known: the first preferred tag;
/// the role name of the instance profile; the key-pair name.
pub open spec fn launcher(
    tags: Map<Seq<char>, Seq<char>>,
    iam_profile_arn: Option<Seq<char>>,
    key_name: Option<Seq<char>>,
) -> (Option<Seq<char>>, LaunchedBySource) {
    let role = match iam_profile_arn {
        Some(arn) => after_last_slash(arn),
        None => None,
    };
    if first_tag(tags, preferred_tag_keys()) is Some {
        (first_tag(tags, preferred_tag_keys()), LaunchedBySource::Tag)
    } else if role is Some && role->0.len() > 0 {
        (role, LaunchedBySource::IamRole)
    } else if key_name is Some && key_name->0.len() > 0 {
        (key_name, LaunchedBySource::KeyName)
    } else {
        (None, LaunchedBySource::Unknown)
    }
}

/// The characters of an optional text.
pub open spec fn option_text(o: Option<String>) -> Option<Seq<char>> {
    match o {
        Some(s) => Some(s@),
        None => None,
    }
}

/// The characters of an optional text.
pub open spec fn option_slice(o: Option<&str>) -> Option<Seq<char>> {
    match o {
        Some(s) => Some(s@),
        None => None,
    }
}

pub fn resolve_launched_by(
    tags: &Tags,
    iam_profile_arn: Option<&str>,
    key_name: Option<&str>,
) -> (r: (Option<String>, LaunchedBySource))
    ensures
        (option_text(r.0), r.1) == launcher(
            tags@,
            option_slice(iam_profile_arn),
            option_slice(key_name),
        ),
{
    let keys: Vec<&'static str> = preferred_keys();
    let n: usize = keys.len();
    let mut i: usize = 0;
    let ghost all = preferred_tag_keys();
    assert(all.skip(0) =~= all);
    while i < n
        invariant
            n == keys@.len(),
            i <= n,
            all == slices(keys@),
            all == preferred_tag_keys(),
            first_tag(tags@, all) == first_tag(tags@, all.skip(i as int)),
        decreases n - i,
    {
        assert(all.skip(i as int)[0] == keys@[i as int]@);
        if let Some(value) = tags.get(keys[i]) {
            return (Some(value.clone()), LaunchedBySource::Tag);
        }
        assert(all.skip(i as int).drop_first() =~= all.skip(i + 1));
        i += 1;
    }
    if let Some(arn) = iam_profile_arn {
        if let Some(role) = last_segment(arn) {
            if role.as_str().unicode_len() > 0 {
                return (Some(role), LaunchedBySource::IamRole);
            }
        }
    }
    if let Some(key) = key_name {
        if key.unicode_len() > 0 {
            return (Some(key.to_string()), LaunchedBySource::KeyName);
        }
    }
    (None, LaunchedBySource::Unknown)
}

} // verus!
