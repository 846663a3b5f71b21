//! The Cloud Pass wire model and the resolution of its nested response
//! shapes into one flat credential record.

use vstd::prelude::*;
use crate::strutil::opt_view;

verus! {

/// The request body of a credentials fetch.
#[derive(Clone, Debug)]
pub struct GetCredentialsRequest {
    pub code: String,
    pub device_id: String,
    pub client_version: String,
    /// Sent only when the client asks to evict a prior holder.
    pub reassign: Option<bool>,
}

/// The request body of a heartbeat or a claim.
#[derive(Clone, Debug)]
pub struct HeartbeatRequest {
    pub code: String,
    pub device_id: String,
}

/// The innermost credentials object a response may nest.
#[derive(Clone, Debug)]
pub struct CloudPassCredentials {
    pub access_token: Option<String>,
    pub refresh_token: Option<String>,
    pub client_id: Option<String>,
    pub client_secret: Option<String>,
    pub expires_at: Option<String>,
    pub region: Option<String>,
    pub profile_arn: Option<String>,
}

/// The `data` object a response may carry.
#[derive(Clone, Debug)]
pub struct CloudPassData {
    pub access_token: Option<String>,
    pub refresh_token: Option<String>,
    pub client_id: Option<String>,
    pub client_secret: Option<String>,
    pub expires_at: Option<String>,
    pub region: Option<String>,
    pub profile_arn: Option<String>,
    pub kicked: Option<bool>,
    pub license_expires_at: Option<String>,
    pub credentials: Option<CloudPassCredentials>,
}

/// A decoded Cloud Pass response: fields may appear at the top level, under
/// `data`, or under a nested credentials object.
#[derive(Clone, Debug)]
pub struct CloudPassResponse {
    pub success: bool,
    pub message: Option<String>,
    pub access_token: Option<String>,
    pub refresh_token: Option<String>,
    pub client_id: Option<String>,
    pub client_secret: Option<String>,
    pub expires_at: Option<String>,
    pub region: Option<String>,
    pub profile_arn: Option<String>,
    pub kicked: Option<bool>,
    pub license_expires_at: Option<String>,
    pub credentials: Option<CloudPassCredentials>,
    pub data: Option<CloudPassData>,
}

/// The flat record a response resolves to.
#[derive(Clone, Debug)]
pub struct ResolvedCredentials {
    pub access_token: Option<String>,
    pub refresh_token: Option<String>,
    pub client_id: Option<String>,
    pub client_secret: Option<String>,
    pub expires_at: Option<String>,
    pub region: Option<String>,
    pub profile_arn: Option<String>,
    pub kicked: bool,
    pub license_expires_at: Option<String>,
}

/// The first present value wins.
pub open spec fn pick3(
    a: Option<Seq<char>>,
    b: Option<Seq<char>>,
    c: Option<Seq<char>>,
) -> Option<Seq<char>> {
    if a is Some {
        a
    } else if b is Some {
        b
    } else {
        c
    }
}

/// The first present value of four wins.
pub open spec fn pick4(
    a: Option<Seq<char>>,
    b: Option<Seq<char>>,
    c: Option<Seq<char>>,
    d: Option<Seq<char>>,
) -> Option<Seq<char>> {
    if a is Some {
        a
    } else {
        pick3(b, c, d)
    }
}

/// A field of the credentials object nested under `data`, viewed.
pub open spec fn data_cred_field(
    d: Option<CloudPassData>,
    f: spec_fn(CloudPassCredentials) -> Option<String>,
) -> Option<Seq<char>> {
    match d {
        Some(dd) => nested_field(dd.credentials, f),
        None => None,
    }
}

/// A field of the nested credentials object, viewed.
pub open spec fn nested_field(
    n: Option<CloudPassCredentials>,
    f: spec_fn(CloudPassCredentials) -> Option<String>,
) -> Option<Seq<char>> {
    match n {
        Some(c) => opt_view(f(c)),
        None => None,
    }
}

/// A field of the data object, viewed.
pub open spec fn data_field(
    d: Option<CloudPassData>,
    f: spec_fn(CloudPassData) -> Option<String>,
) -> Option<Seq<char>> {
    match d {
        Some(c) => opt_view(f(c)),
        None => None,
    }
}

impl CloudPassResponse {
    /// Flattens the response. Per field the first present value wins, in
    /// the order: the top-level `credentials` object, the credentials
    /// object under `data`, the `data` object itself, the top level. The
    /// kicked flag and the license expiry live on `data` or the top level
    /// only; an absent kicked flag reads as not kicked.
    pub fn resolve(&self) -> (r: ResolvedCredentials)
        ensures
            opt_view(r.access_token) == pick4(
                nested_field(self.credentials, |c: CloudPassCredentials| c.access_token),
                data_cred_field(self.data, |c: CloudPassCredentials| c.access_token),
                data_field(self.data, |d: CloudPassData| d.access_token),
                opt_view(self.access_token),
            ),
            opt_view(r.refresh_token) == pick4(
                nested_field(self.credentials, |c: CloudPassCredentials| c.refresh_token),
                data_cred_field(self.data, |c: CloudPassCredentials| c.refresh_token),
                data_field(self.data, |d: CloudPassData| d.refresh_token),
                opt_view(self.refresh_token),
            ),
            opt_view(r.client_id) == pick4(
                nested_field(self.credentials, |c: CloudPassCredentials| c.client_id),
                data_cred_field(self.data, |c: CloudPassCredentials| c.client_id),
                data_field(self.data, |d: CloudPassData| d.client_id),
                opt_view(self.client_id),
            ),
            opt_view(r.client_secret) == pick4(
                nested_field(self.credentials, |c: CloudPassCredentials| c.client_secret),
                data_cred_field(self.data, |c: CloudPassCredentials| c.client_secret),
                data_field(self.data, |d: CloudPassData| d.client_secret),
                opt_view(self.client_secret),
            ),
            opt_view(r.expires_at) == pick4(
                nested_field(self.credentials, |c: CloudPassCredentials| c.expires_at),
                data_cred_field(self.data, |c: CloudPassCredentials| c.expires_at),
                data_field(self.data, |d: CloudPassData| d.expires_at),
                opt_view(self.expires_at),
            ),
            opt_view(r.region) == pick4(
                nested_field(self.credentials, |c: CloudPassCredentials| c.region),
                data_cred_field(self.data, |c: CloudPassCredentials| c.region),
                data_field(self.data, |d: CloudPassData| d.region),
                opt_view(self.region),
            ),
            opt_view(r.profile_arn) == pick4(
                nested_field(self.credentials, |c: CloudPassCredentials| c.profile_arn),
                data_cred_field(self.data, |c: CloudPassCredentials| c.profile_arn),
                data_field(self.data, |d: CloudPassData| d.profile_arn),
                opt_view(self.profile_arn),
            ),
            r.kicked == {
                let dk = match self.data {
                    Some(d) => d.kicked,
                    None => None,
                };
                match dk {
                    Some(k) => k,
                    None => match self.kicked {
                        Some(k) => k,
                        None => false,
                    },
                }
            },
            opt_view(r.license_expires_at) == {
                let dl = match self.data {
                    Some(d) => opt_view(d.license_expires_at),
                    None => None,
                };
                if dl is Some {
                    dl
                } else {
                    opt_view(self.license_expires_at)
                }
            },
    {

        let access_token = pick_field(
            match &self.credentials {
                Some(c) => &c.access_token,
                None => &None,
            },
            match &self.data {
                Some(d) => match &d.credentials {
                    Some(c) => &c.access_token,
                    None => &None,
                },
                None => &None,
            },
            match &self.data {
                Some(d) => &d.access_token,
                None => &None,
            },
            &self.access_token,
        );
        let refresh_token = pick_field(
            match &self.credentials {
                Some(c) => &c.refresh_token,
                None => &None,
            },
            match &self.data {
                Some(d) => match &d.credentials {
                    Some(c) => &c.refresh_token,
                    None => &None,
                },
                None => &None,
            },
            match &self.data {
                Some(d) => &d.refresh_token,
                None => &None,
            },
            &self.refresh_token,
        );
        let client_id = pick_field(
            match &self.credentials {
                Some(c) => &c.client_id,
                None => &None,
            },
            match &self.data {
                Some(d) => match &d.credentials {
                    Some(c) => &c.client_id,
                    None => &None,
                },
                None => &None,
            },
            match &self.data {
                Some(d) => &d.client_id,
                None => &None,
            },
            &self.client_id,
        );
        let client_secret = pick_field(
            match &self.credentials {
                Some(c) => &c.client_secret,
                None => &None,
            },
            match &self.data {
                Some(d) => match &d.credentials {
                    Some(c) => &c.client_secret,
                    None => &None,
                },
                None => &None,
            },
            match &self.data {
                Some(d) => &d.client_secret,
                None => &None,
            },
            &self.client_secret,
        );
        let expires_at = pick_field(
            match &self.credentials {
                Some(c) => &c.expires_at,
                None => &None,
            },
            match &self.data {
                Some(d) => match &d.credentials {
                    Some(c) => &c.expires_at,
                    None => &None,
                },
                None => &None,
            },
            match &self.data {
                Some(d) => &d.expires_at,
                None => &None,
            },
            &self.expires_at,
        );
        let region = pick_field(
            match &self.credentials {
                Some(c) => &c.region,
                None => &None,
            },
            match &self.data {
                Some(d) => match &d.credentials {
                    Some(c) => &c.region,
                    None => &None,
                },
                None => &None,
            },
            match &self.data {
                Some(d) => &d.region,
                None => &None,
            },
            &self.region,
        );
        let profile_arn = pick_field(
            match &self.credentials {
                Some(c) => &c.profile_arn,
                None => &None,
            },
            match &self.data {
                Some(d) => match &d.credentials {
                    Some(c) => &c.profile_arn,
                    None => &None,
                },
                None => &None,
            },
            match &self.data {
                Some(d) => &d.profile_arn,
                None => &None,
            },
            &self.profile_arn,
        );
        let kicked: bool = {
            let dk: Option<bool> = match &self.data {
                Some(d) => d.kicked,
                None => None,
            };
            match dk {
                Some(k) => k,
                None => match self.kicked {
                    Some(k) => k,
                    None => false,
                },
            }
        };
        let license_expires_at: Option<String> = {
            let dl: Option<String> = match &self.data {
                Some(d) => clone_opt(&d.license_expires_at),
                None => None,
            };
            match dl {
                Some(s) => Some(s),
                None => clone_opt(&self.license_expires_at),
            }
        };
        ResolvedCredentials {
            access_token,
            refresh_token,
            client_id,
            client_secret,
            expires_at,
            region,
            profile_arn,
            kicked,
            license_expires_at,
        }
    }
}

/// The first present of four optional strings, cloned.
fn pick_field(
    a: &Option<String>,
    b: &Option<String>,
    c: &Option<String>,
    d: &Option<String>,
) -> (r: Option<String>)
    ensures
        opt_view(r) == pick4(opt_view(*a), opt_view(*b), opt_view(*c), opt_view(*d)),
{
    match a {
        Some(s) => Some(s.clone()),
        None => match b {
            Some(s) => Some(s.clone()),
            None => match c {
                Some(s) => Some(s.clone()),
                None => match d {
                    Some(s) => Some(s.clone()),
                    None => None,
                },
            },
        },
    }
}

/// Clones an optional string.
fn clone_opt(o: &Option<String>) -> (r: Option<String>)
    ensures
        opt_view(r) == opt_view(*o),
{
    match o {
        Some(s) => Some(s.clone()),
        None => None,
    }
}

} // verus!
