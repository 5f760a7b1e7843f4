//! The tag contract: who owns an instance, how to reach them, and when they
//! have committed it should die.

use vstd::prelude::*;

use crate::model::option_text;
use crate::tags::Tags;
use crate::text::{begins_with, starts_with};
use crate::timestamp::{written_instant, Timestamp};

verus! {

/// Parsed view of the contract tags on an EC2 instance.
#[derive(Debug)]
pub struct ContractView {
    /// `true` when the `ManagedBy` tag starts with `gasleak/`.
    pub managed_by_gasleak: bool,
    /// Free-form attribution (usually the caller's IAM principal ARN or team name).
    pub owner: Option<String>,
    /// Where to send confirmation nudges: `@handle` for a person, `#channel` for a team.
    pub owner_slack: Option<String>,
    /// Declared end-of-life timestamp. Treated as authoritative by the rules.
    pub expires_at: Option<Timestamp>,
}

/// The value of a tag.
pub open spec fn tag_value(tags: Map<Seq<char>, Seq<char>>, key: Seq<char>) -> Option<Seq<char>> {
    if tags.contains_key(key) {
        Some(tags[key])
    } else {
        None
    }
}

/// Seconds and nanoseconds of an optional instant.
pub open spec fn instant_parts(t: Option<Timestamp>) -> Option<(i64, i32)> {
    match t {
        Some(t) => Some((t.seconds(), t.nanoseconds())),
        None => None,
    }
}

/// The instant that the `ExpiresAt` tag declares.
pub open spec fn declared_expiry(tags: Map<Seq<char>, Seq<char>>) -> Option<(i64, i32)> {
    match tag_value(tags, "ExpiresAt"@) {
        Some(v) => written_instant(v),
        None => None,
    }
}

impl ContractView {
    /// Whether this is what the tags say of marker and owner.
    pub open spec fn reads(self, tags: Map<Seq<char>, Seq<char>>) -> bool {
        &&& self.managed_by_gasleak == (tags.contains_key("ManagedBy"@) && begins_with(
            tags["ManagedBy"@],
            "gasleak/"@,
        ))
        &&& option_text(self.owner) == tag_value(tags, "Owner"@)
        &&& option_text(self.owner_slack) == tag_value(tags, "OwnerSlack"@)
    }

    /// The contract of `tags` with an expiry that was read before.
    pub fn with_expiry(tags: &Tags, expires_at: Option<Timestamp>) -> (r: ContractView)
        ensures
            r.reads(tags@),
            r.expires_at == expires_at,
    {
        let managed_by_gasleak: bool = match tags.get("ManagedBy") {
            Some(v) => starts_with(v.as_str(), "gasleak/"),
            None => false,
        };
        let owner: Option<String> = match tags.get("Owner") {
            Some(v) => Some(v.clone()),
            None => None,
        };
        let owner_slack: Option<String> = match tags.get("OwnerSlack") {
            Some(v) => Some(v.clone()),
            None => None,
        };
        ContractView { managed_by_gasleak, owner, owner_slack, expires_at }
    }

    pub fn from_tags(tags: &Tags) -> (r: ContractView)
        ensures
            r.reads(tags@),
            instant_parts(r.expires_at) == declared_expiry(tags@),
    {
        let expires_at: Option<Timestamp> = match tags.get("ExpiresAt") {
            Some(v) => Timestamp::parse(v.as_str()),
            None => None,
        };
        ContractView::with_expiry(tags, expires_at)
    }
}

} // verus!
