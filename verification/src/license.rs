//! The license decisions: what a validated claim set allows.
//!
//! Issuing and checking the token signature itself is outside work (a
//! JWT library's); the decisions over the decoded claims - expiration,
//! subject, usage against entitlements - are pure functions and live
//! here.

use vstd::prelude::*;

verus! {

/// Why a license is refused.
#[derive(Clone, Copy, PartialEq, Eq, Structural, Debug)]
pub enum LicenseError {
    /// A self-hosted licensor cannot issue licenses.
    SelfHosted,
    /// The license has expired.
    Expired,
    /// The license was issued to another organization.
    Subject { provided: u128, license: u128 },
    /// The metered usage exceeds what the license entitles to.
    Entitlements { usage: u32, entitlements: u64 },
    /// The clock reports a time before the Unix epoch.
    NegativeTime,
}

/// The current Unix time in seconds, as license checks count it;
/// refused when the clock stands before the epoch.
pub fn now() -> (r: Result<u64, LicenseError>)
    ensures
        r is Err ==> r == Result::<u64, LicenseError>::Err(LicenseError::NegativeTime),
{
    let t = crate::statistic::utc_now_timestamp();
    if t >= 0 {
        Ok(t as u64)
    } else {
        Err(LicenseError::NegativeTime)
    }
}

/// A license expiring before `now` is refused, any other is kept.
pub fn check_expiration(time: u64, now: u64) -> (r: Result<(), LicenseError>)
    ensures
        r is Ok <==> time >= now,
        r is Err ==> r == Result::<(), LicenseError>::Err(LicenseError::Expired),
{
    if time < now {
        Err(LicenseError::Expired)
    } else {
        Ok(())
    }
}

/// A license speaks only for the organization it was issued to.
pub fn check_subject(subject: u128, organization: u128) -> (r: Result<(), LicenseError>)
    ensures
        r is Ok <==> subject == organization,
        subject != organization ==> r == Result::<(), LicenseError>::Err(
            LicenseError::Subject { provided: organization, license: subject },
        ),
{
    if subject == organization {
        Ok(())
    } else {
        Err(LicenseError::Subject { provided: organization, license: subject })
    }
}

/// Usage within the entitled amount passes and hands the entitlement
/// back; anything above is refused.
pub fn validate_usage(entitlements: u64, usage: u32) -> (r: Result<u64, LicenseError>)
    ensures
        r is Ok <==> usage as u64 <= entitlements,
        r is Ok ==> r == Result::<u64, LicenseError>::Ok(entitlements),
        usage as u64 > entitlements ==> r == Result::<u64, LicenseError>::Err(
            LicenseError::Entitlements { usage, entitlements },
        ),
{
    if usage as u64 > entitlements {
        Err(LicenseError::Entitlements { usage, entitlements })
    } else {
        Ok(entitlements)
    }
}

} // verus!
