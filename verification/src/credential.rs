//! The credential record of the pool and the shape rules for new
//! refresh tokens.

use vstd::prelude::*;
use crate::strutil::{
    plain, opt_plain, opt_view, has_mask, ends_truncated, is_plain, opt_is_plain, contains_mask,
    ends_with_dots,
};

verus! {

/// A stored upstream OAuth credential with its scheduling metadata.
#[derive(Clone, Debug)]
pub struct Credential {
    /// Unique id, assigned in insertion order, never reused.
    pub id: u64,
    /// The secret refresh token; immutable after creation and unique
    /// across the pool.
    pub refresh_token: String,
    /// Derived access token, if one has been obtained.
    pub access_token: Option<String>,
    pub profile_arn: Option<String>,
    /// Expiry of the access token, as an RFC 3339 timestamp.
    pub expires_at: Option<String>,
    /// Authentication method tag, such as "social" or "idc".
    pub auth_method: String,
    pub client_id: Option<String>,
    pub client_secret: Option<String>,
    /// Scheduling priority; lower is preferred.
    pub priority: u32,
    pub region: Option<String>,
    /// Region override for token refresh.
    pub auth_region: Option<String>,
    /// Region override for API requests.
    pub api_region: Option<String>,
    pub machine_id: Option<String>,
    /// A disabled credential is never selected for client traffic.
    pub disabled: bool,
    /// Consecutive refresh failures; bounded by the pool's threshold.
    pub failure_count: u32,
    pub success_count: u64,
    /// When the credential last served a successful refresh, RFC 3339.
    pub last_used_at: Option<String>,
    pub subscription_title: Option<String>,
    pub proxy_url: Option<String>,
    pub proxy_username: Option<String>,
    pub proxy_password: Option<String>,
    /// Display only.
    pub email: Option<String>,
}

/// The mathematical value of a credential: every field as a sequence of
/// characters or a plain value.
pub struct CredentialV {
    pub id: u64,
    pub refresh_token: Seq<char>,
    pub access_token: Option<Seq<char>>,
    pub profile_arn: Option<Seq<char>>,
    pub expires_at: Option<Seq<char>>,
    pub auth_method: Seq<char>,
    pub client_id: Option<Seq<char>>,
    pub client_secret: Option<Seq<char>>,
    pub priority: u32,
    pub region: Option<Seq<char>>,
    pub auth_region: Option<Seq<char>>,
    pub api_region: Option<Seq<char>>,
    pub machine_id: Option<Seq<char>>,
    pub disabled: bool,
    pub failure_count: u32,
    pub success_count: u64,
    pub last_used_at: Option<Seq<char>>,
    pub subscription_title: Option<Seq<char>>,
    pub proxy_url: Option<Seq<char>>,
    pub proxy_username: Option<Seq<char>>,
    pub proxy_password: Option<Seq<char>>,
    pub email: Option<Seq<char>>,
}

impl View for Credential {
    type V = CredentialV;

    open spec fn view(&self) -> CredentialV {
        CredentialV {
            id: self.id,
            refresh_token: self.refresh_token@,
            access_token: opt_view(self.access_token),
            profile_arn: opt_view(self.profile_arn),
            expires_at: opt_view(self.expires_at),
            auth_method: self.auth_method@,
            client_id: opt_view(self.client_id),
            client_secret: opt_view(self.client_secret),
            priority: self.priority,
            region: opt_view(self.region),
            auth_region: opt_view(self.auth_region),
            api_region: opt_view(self.api_region),
            machine_id: opt_view(self.machine_id),
            disabled: self.disabled,
            failure_count: self.failure_count,
            success_count: self.success_count,
            last_used_at: opt_view(self.last_used_at),
            subscription_title: opt_view(self.subscription_title),
            proxy_url: opt_view(self.proxy_url),
            proxy_username: opt_view(self.proxy_username),
            proxy_password: opt_view(self.proxy_password),
            email: opt_view(self.email),
        }
    }
}

/// Every string field of the credential is plain, so the record can be
/// persisted verbatim.
pub open spec fn cred_plain(c: CredentialV) -> bool {
    &&& plain(c.refresh_token)
    &&& opt_plain(c.access_token)
    &&& opt_plain(c.profile_arn)
    &&& opt_plain(c.expires_at)
    &&& plain(c.auth_method)
    &&& opt_plain(c.client_id)
    &&& opt_plain(c.client_secret)
    &&& opt_plain(c.region)
    &&& opt_plain(c.auth_region)
    &&& opt_plain(c.api_region)
    &&& opt_plain(c.machine_id)
    &&& opt_plain(c.last_used_at)
    &&& opt_plain(c.subscription_title)
    &&& opt_plain(c.proxy_url)
    &&& opt_plain(c.proxy_username)
    &&& opt_plain(c.proxy_password)
    &&& opt_plain(c.email)
}

/// The fields a caller supplies when adding a credential; ids and counters
/// are the pool's to assign.
#[derive(Clone, Debug)]
pub struct NewCredential {
    pub refresh_token: String,
    pub access_token: Option<String>,
    pub profile_arn: Option<String>,
    pub expires_at: Option<String>,
    pub auth_method: String,
    pub client_id: Option<String>,
    pub client_secret: Option<String>,
    pub priority: u32,
    pub region: Option<String>,
    pub auth_region: Option<String>,
    pub api_region: Option<String>,
    pub machine_id: Option<String>,
    pub proxy_url: Option<String>,
    pub proxy_username: Option<String>,
    pub proxy_password: Option<String>,
    pub email: Option<String>,
}

/// The refresh token has an acceptable shape: non-empty, not visibly
/// truncated, and without an embedded mask.
pub open spec fn token_shape_ok(t: Seq<char>) -> bool {
    t.len() > 0 && !has_mask(t) && !ends_truncated(t)
}

/// Every string field of the request is plain.
pub open spec fn new_cred_plain(n: &NewCredential) -> bool {
    &&& plain(n.refresh_token@)
    &&& opt_plain(opt_view(n.access_token))
    &&& opt_plain(opt_view(n.profile_arn))
    &&& opt_plain(opt_view(n.expires_at))
    &&& plain(n.auth_method@)
    &&& opt_plain(opt_view(n.client_id))
    &&& opt_plain(opt_view(n.client_secret))
    &&& opt_plain(opt_view(n.region))
    &&& opt_plain(opt_view(n.auth_region))
    &&& opt_plain(opt_view(n.api_region))
    &&& opt_plain(opt_view(n.machine_id))
    &&& opt_plain(opt_view(n.proxy_url))
    &&& opt_plain(opt_view(n.proxy_username))
    &&& opt_plain(opt_view(n.proxy_password))
    &&& opt_plain(opt_view(n.email))
}

/// Whether every string field of the request is plain.
pub fn new_cred_is_plain(n: &NewCredential) -> (r: bool)
    ensures
        r == new_cred_plain(n),
{
    is_plain(n.refresh_token.as_str()) && opt_is_plain(&n.access_token) && opt_is_plain(
        &n.profile_arn,
    ) && opt_is_plain(&n.expires_at) && is_plain(n.auth_method.as_str()) && opt_is_plain(
        &n.client_id,
    ) && opt_is_plain(&n.client_secret) && opt_is_plain(&n.region) && opt_is_plain(&n.auth_region)
        && opt_is_plain(&n.api_region) && opt_is_plain(&n.machine_id) && opt_is_plain(&n.proxy_url)
        && opt_is_plain(&n.proxy_username) && opt_is_plain(&n.proxy_password) && opt_is_plain(
        &n.email,
    )
}

/// Whether every string field of a stored credential is plain.
pub fn cred_is_plain(c: &Credential) -> (r: bool)
    ensures
        r == cred_plain(c@),
{
    is_plain(c.refresh_token.as_str()) && opt_is_plain(&c.access_token) && opt_is_plain(
        &c.profile_arn,
    ) && opt_is_plain(&c.expires_at) && is_plain(c.auth_method.as_str()) && opt_is_plain(
        &c.client_id,
    ) && opt_is_plain(&c.client_secret) && opt_is_plain(&c.region) && opt_is_plain(&c.auth_region)
        && opt_is_plain(&c.api_region) && opt_is_plain(&c.machine_id) && opt_is_plain(
        &c.last_used_at,
    ) && opt_is_plain(&c.subscription_title) && opt_is_plain(&c.proxy_url) && opt_is_plain(
        &c.proxy_username,
    ) && opt_is_plain(&c.proxy_password) && opt_is_plain(&c.email)
}

/// The findings of the refresh-token shape check, worst first.
pub enum TokenShape {
    /// The token is empty.
    Empty,
    /// The token ends in three dots: it was visibly truncated by a display.
    Truncated,
    /// The token embeds a three-star mask: it was copied from masked output.
    Masked,
    /// The token shape is acceptable.
    Acceptable,
}

/// Checks the shape of a refresh token.
pub fn check_token_shape(t: &str) -> (r: TokenShape)
    requires
        plain(t@),
    ensures
        r is Empty <==> t@.len() == 0,
        r is Truncated <==> t@.len() > 0 && ends_truncated(t@),
        r is Masked <==> t@.len() > 0 && !ends_truncated(t@) && has_mask(t@),
        r is Acceptable <==> token_shape_ok(t@),
{
    if t.unicode_len() == 0 {
        TokenShape::Empty
    } else if ends_with_dots(t) {
        TokenShape::Truncated
    } else if contains_mask(t) {
        TokenShape::Masked
    } else {
        TokenShape::Acceptable
    }
}

/// Builds the stored record for a freshly assigned id: counters start at
/// zero and the credential starts enabled.
pub fn materialize(n: NewCredential, id: u64) -> (r: Credential)
    ensures
        r@ == (CredentialV {
            id,
            refresh_token: n.refresh_token@,
            access_token: opt_view(n.access_token),
            profile_arn: opt_view(n.profile_arn),
            expires_at: opt_view(n.expires_at),
            auth_method: n.auth_method@,
            client_id: opt_view(n.client_id),
            client_secret: opt_view(n.client_secret),
            priority: n.priority,
            region: opt_view(n.region),
            auth_region: opt_view(n.auth_region),
            api_region: opt_view(n.api_region),
            machine_id: opt_view(n.machine_id),
            disabled: false,
            failure_count: 0u32,
            success_count: 0u64,
            last_used_at: None,
            subscription_title: None,
            proxy_url: opt_view(n.proxy_url),
            proxy_username: opt_view(n.proxy_username),
            proxy_password: opt_view(n.proxy_password),
            email: opt_view(n.email),
        }),
{
    Credential {
        id,
        refresh_token: n.refresh_token,
        access_token: n.access_token,
        profile_arn: n.profile_arn,
        expires_at: n.expires_at,
        auth_method: n.auth_method,
        client_id: n.client_id,
        client_secret: n.client_secret,
        priority: n.priority,
        region: n.region,
        auth_region: n.auth_region,
        api_region: n.api_region,
        machine_id: n.machine_id,
        disabled: false,
        failure_count: 0,
        success_count: 0,
        last_used_at: None,
        subscription_title: None,
        proxy_url: n.proxy_url,
        proxy_username: n.proxy_username,
        proxy_password: n.proxy_password,
        email: n.email,
    }
}

impl Credential {
    /// Region used to refresh this credential: its override when set, else
    /// the fallback the caller resolved from global configuration.
    pub fn effective_auth_region<'a>(&'a self, fallback: &'a str) -> (r: &'a str)
        ensures
            r@ == match opt_view(self.auth_region) {
                Some(a) => a,
                None => fallback@,
            },
    {
        match &self.auth_region {
            Some(a) => a.as_str(),
            None => fallback,
        }
    }

    /// Region used for API requests with this credential.
    pub fn effective_api_region<'a>(&'a self, fallback: &'a str) -> (r: &'a str)
        ensures
            r@ == match opt_view(self.api_region) {
                Some(a) => a,
                None => fallback@,
            },
    {
        match &self.api_region {
            Some(a) => a.as_str(),
            None => fallback,
        }
    }
}

} // verus!
