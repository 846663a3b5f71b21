//! The worker's decisions: what one refresh cycle does with a fetched
//! response. The surrounding application runs the loop, sleeps, and makes
//! the network calls; every decision between them is taken here.

use vstd::prelude::*;
use crate::credential::NewCredential;
use crate::cloudpass::model::ResolvedCredentials;
use crate::pool::PoolError;
use crate::strutil::opt_view;

verus! {

/// What the worker does with a freshly fetched response.
#[derive(Clone, Copy, Debug, PartialEq, Eq, Structural)]
pub enum FetchDecision {
    /// The response carries credentials: inject them into the pool.
    Inject,
    /// The device was kicked and eviction is allowed and not yet tried:
    /// claim the slot, then fetch again with the reassign flag.
    ClaimAndRefetch,
    /// The device was kicked and nothing more can be done this cycle.
    FailKicked,
}

/// Decides the step after a fetch: credentials are injected unless the
/// device was kicked; a kicked device claims the slot and refetches once
/// when eviction is enabled, and otherwise the cycle fails.
pub fn decide_after_fetch(kicked: bool, reassign: bool, already_retried: bool) -> (r:
    FetchDecision)
    ensures
        r == (if !kicked {
            FetchDecision::Inject
        } else if reassign && !already_retried {
            FetchDecision::ClaimAndRefetch
        } else {
            FetchDecision::FailKicked
        }),
{
    if !kicked {
        FetchDecision::Inject
    } else if reassign && !already_retried {
        FetchDecision::ClaimAndRefetch
    } else {
        FetchDecision::FailKicked
    }
}

/// Why a resolved response cannot be injected.
#[derive(Clone, Copy, Debug, PartialEq, Eq, Structural)]
pub enum InjectBuildError {
    /// The server returned no refresh token.
    MissingRefreshToken,
}

/// Builds the credential request an injection hands to the pool: the
/// fetched fields verbatim, the authentication method fixed to "idc",
/// priority zero, and the machine id taken from configuration when fixed
/// there, else from the device id.
pub fn build_injected_credential(
    creds: ResolvedCredentials,
    configured_machine_id: Option<String>,
    device_id: &str,
) -> (r: Result<NewCredential, InjectBuildError>)
    ensures
        match r {
            Ok(n) => {
                &&& creds.refresh_token is Some
                &&& opt_view(Some(n.refresh_token)) == opt_view(creds.refresh_token)
                &&& opt_view(n.access_token) == opt_view(creds.access_token)
                &&& opt_view(n.profile_arn) == opt_view(creds.profile_arn)
                &&& opt_view(n.expires_at) == opt_view(creds.expires_at)
                &&& n.auth_method@ == "idc"@
                &&& opt_view(n.client_id) == opt_view(creds.client_id)
                &&& opt_view(n.client_secret) == opt_view(creds.client_secret)
                &&& n.priority == 0
                &&& opt_view(n.region) == opt_view(creds.region)
                &&& n.auth_region is None
                &&& n.api_region is None
                &&& opt_view(n.machine_id) == (if configured_machine_id is Some {
                    opt_view(configured_machine_id)
                } else {
                    Some(device_id@)
                })
                &&& n.proxy_url is None
                &&& n.proxy_username is None
                &&& n.proxy_password is None
                &&& n.email is None
            },
            Err(e) => e == InjectBuildError::MissingRefreshToken && creds.refresh_token is None,
        },
{
    let refresh_token = match creds.refresh_token {
        Some(t) => t,
        None => {
            return Err(InjectBuildError::MissingRefreshToken);
        },
    };
    let machine_id: Option<String> = match configured_machine_id {
        Some(m) => Some(m),
        None => Some(device_id.to_owned()),
    };
    Ok(
        NewCredential {
            refresh_token,
            access_token: creds.access_token,
            profile_arn: creds.profile_arn,
            expires_at: creds.expires_at,
            auth_method: String::from_str("idc"),
            client_id: creds.client_id,
            client_secret: creds.client_secret,
            priority: 0,
            region: creds.region,
            auth_region: None,
            api_region: None,
            machine_id,
            proxy_url: None,
            proxy_username: None,
            proxy_password: None,
            email: None,
        },
    )
}

/// What one injection attempt amounted to.
#[derive(Clone, Copy, Debug, PartialEq, Eq, Structural)]
pub enum InjectionOutcome {
    /// The pool stored the credential under this id.
    Injected { id: u64 },
    /// The pool already holds this refresh token: the credential did not
    /// change since the last cycle, which counts as success without a new
    /// injection.
    UnchangedDuplicate,
    /// The injection failed for this reason.
    Failed { error: PoolError },
}

/// Classifies the pool's answer to an injection: a duplicate refresh token
/// is success without change; every other error fails the cycle.
pub fn classify_injection(outcome: Result<u64, PoolError>) -> (r: InjectionOutcome)
    ensures
        r == (match outcome {
            Ok(id) => InjectionOutcome::Injected { id },
            Err(PoolError::DuplicateRefreshToken) => InjectionOutcome::UnchangedDuplicate,
            Err(e) => InjectionOutcome::Failed { error: e },
        }),
{
    match outcome {
        Ok(id) => InjectionOutcome::Injected { id },
        Err(PoolError::DuplicateRefreshToken) => InjectionOutcome::UnchangedDuplicate,
        Err(e) => InjectionOutcome::Failed { error: e },
    }
}

} // verus!
