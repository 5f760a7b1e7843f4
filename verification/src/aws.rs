//! What the AWS services answer, and what is made of it.
//!
//! - [`ec2`]: instances to records.
//! - [`cloudwatch`]: metric queries and CPU summarization.
//! - [`errors`]: user-facing classification of SDK errors (expired creds,
//!   missing creds, etc.).

use vstd::prelude::*;

use crate::error::Error;
use crate::timestamp::{balanced, makes_instant, refusal, Timestamp};

pub mod cloudwatch;
pub mod ec2;
pub mod errors;

verus! {

/// `n`, as far as it fits in 64 bits with a sign.
pub open spec fn clamped(n: int) -> int {
    if n < i64::MIN {
        i64::MIN as int
    } else if n > i64::MAX {
        i64::MAX as int
    } else {
        n
    }
}

/// `n`, as far as it fits in 64 bits with a sign.
pub(crate) fn clamp(n: i128) -> (r: i64)
    ensures
        r == clamped(n as int),
{
    if n < -0x8000_0000_0000_0000 {
        i64::MIN
    } else if n > 0x7fff_ffff_ffff_ffff {
        i64::MAX
    } else {
        n as i64
    }
}

/// An instant as the AWS SDK gives it: seconds since the Unix epoch, and the
/// nanoseconds after them.
#[derive(Clone, Copy, Debug, PartialEq, Eq, Structural)]
pub struct SdkInstant {
    pub secs: i64,
    pub subsec_nanos: u32,
}

/// Whether the instant can be converted.
pub open spec fn convertible(dt: SdkInstant) -> bool {
    dt.subsec_nanos <= i32::MAX && makes_instant(dt.secs as int, dt.subsec_nanos as int)
}

/// Whether `t` is the instant `dt`.
pub open spec fn converts_to(dt: SdkInstant, t: Timestamp) -> bool {
    convertible(dt) && (t.seconds() as int, t.nanoseconds() as int) == balanced(
        dt.secs as int,
        dt.subsec_nanos as int,
    )
}

/// Why the instant cannot be converted.
pub open spec fn conversion_error(dt: SdkInstant) -> Seq<char> {
    if dt.subsec_nanos <= i32::MAX {
        refusal(dt.secs, dt.subsec_nanos as i32)
    } else {
        "subsec_nanos out of range: out of range integral type conversion attempted"@
    }
}

/// The instant, or why there is none.
pub fn convert_instant(dt: SdkInstant) -> (r: Result<Timestamp, Error>)
    ensures
        r is Ok == convertible(dt),
        r matches Ok(t) ==> converts_to(dt, t),
        r matches Err(e) ==> e matches Error::InvalidTimestamp(m) && m@ == conversion_error(dt),
{
    if dt.subsec_nanos > 0x7fff_ffff {
        return Err(
            Error::InvalidTimestamp(
                "subsec_nanos out of range: out of range integral type conversion attempted".to_string(),
            ),
        );
    }
    match Timestamp::new(dt.secs, dt.subsec_nanos as i32) {
        Ok(t) => Ok(t),
        Err(m) => Err(Error::InvalidTimestamp(m)),
    }
}

} // verus!
