//! Persistence of the pool and the balance cache as canonical JSON.
//!
//! The pool file is an array of flat credential objects; the cache file is
//! an array of flat entry objects. Writing then parsing hands back the
//! very pool or cache that was written: the restart law of the broker.

use vstd::prelude::*;
use crate::credential::{Credential, CredentialV, cred_plain};
use crate::pool::{creds_view, str_eq};
use crate::balance::{CachedBalance, CachedBalanceV, BalanceResponse, cache_view, balance_plain};
use crate::strutil::{opt_view, plain};
use crate::json::{
    JsonVal, JsonValV, FieldV, fields_v, objs_v, field_wf, fields_wf, objs_wf, spec_enc_arr,
    encode_json_array, parse_json_array, full_arr_parse, entries_v, spec_enc_map, spec_enc_u64,
    encode_json_map, parse_json_map, full_map_parse, entry_wf, entries_wf,
};

verus! {

/// The JSON value of an optional string: the string or null.
pub open spec fn opt_sv(o: Option<Seq<char>>) -> JsonValV {
    match o {
        Some(s) => JsonValV::S(s),
        None => JsonValV::Null,
    }
}

/// Clones an optional string into its JSON value.
fn opt_jv(o: &Option<String>) -> (r: JsonVal)
    ensures
        r@ == opt_sv(opt_view(*o)),
{
    match o {
        Some(s) => JsonVal::S(s.clone()),
        None => JsonVal::Null,
    }
}

/// The canonical field list of a stored credential.
#[verifier::opaque]
pub open spec fn spec_cred_fields(c: CredentialV) -> Seq<FieldV> {
    seq![
        ("id"@, JsonValV::U(c.id)),
        ("refreshToken"@, JsonValV::S(c.refresh_token)),
        ("accessToken"@, opt_sv(c.access_token)),
        ("profileArn"@, opt_sv(c.profile_arn)),
        ("expiresAt"@, opt_sv(c.expires_at)),
        ("authMethod"@, JsonValV::S(c.auth_method)),
        ("clientId"@, opt_sv(c.client_id)),
        ("clientSecret"@, opt_sv(c.client_secret)),
        ("priority"@, JsonValV::U(c.priority as u64)),
        ("region"@, opt_sv(c.region)),
        ("authRegion"@, opt_sv(c.auth_region)),
        ("apiRegion"@, opt_sv(c.api_region)),
        ("machineId"@, opt_sv(c.machine_id)),
        ("disabled"@, JsonValV::B(c.disabled)),
        ("failureCount"@, JsonValV::U(c.failure_count as u64)),
        ("successCount"@, JsonValV::U(c.success_count)),
        ("lastUsedAt"@, opt_sv(c.last_used_at)),
        ("subscriptionTitle"@, opt_sv(c.subscription_title)),
        ("proxyUrl"@, opt_sv(c.proxy_url)),
        ("proxyUsername"@, opt_sv(c.proxy_username)),
        ("proxyPassword"@, opt_sv(c.proxy_password)),
        ("email"@, opt_sv(c.email))
    ]
}

/// The length and every indexed field of the canonical list.
proof fn lemma_cred_fields_shape(cv: CredentialV)
    ensures
        spec_cred_fields(cv).len() == 22,
        spec_cred_fields(cv)[0] == ("id"@, JsonValV::U(cv.id)),
        spec_cred_fields(cv)[1] == ("refreshToken"@, JsonValV::S(cv.refresh_token)),
        spec_cred_fields(cv)[2] == ("accessToken"@, opt_sv(cv.access_token)),
        spec_cred_fields(cv)[3] == ("profileArn"@, opt_sv(cv.profile_arn)),
        spec_cred_fields(cv)[4] == ("expiresAt"@, opt_sv(cv.expires_at)),
        spec_cred_fields(cv)[5] == ("authMethod"@, JsonValV::S(cv.auth_method)),
        spec_cred_fields(cv)[6] == ("clientId"@, opt_sv(cv.client_id)),
        spec_cred_fields(cv)[7] == ("clientSecret"@, opt_sv(cv.client_secret)),
        spec_cred_fields(cv)[8] == ("priority"@, JsonValV::U(cv.priority as u64)),
        spec_cred_fields(cv)[9] == ("region"@, opt_sv(cv.region)),
        spec_cred_fields(cv)[10] == ("authRegion"@, opt_sv(cv.auth_region)),
        spec_cred_fields(cv)[11] == ("apiRegion"@, opt_sv(cv.api_region)),
        spec_cred_fields(cv)[12] == ("machineId"@, opt_sv(cv.machine_id)),
        spec_cred_fields(cv)[13] == ("disabled"@, JsonValV::B(cv.disabled)),
        spec_cred_fields(cv)[14] == ("failureCount"@, JsonValV::U(cv.failure_count as u64)),
        spec_cred_fields(cv)[15] == ("successCount"@, JsonValV::U(cv.success_count)),
        spec_cred_fields(cv)[16] == ("lastUsedAt"@, opt_sv(cv.last_used_at)),
        spec_cred_fields(cv)[17] == ("subscriptionTitle"@, opt_sv(cv.subscription_title)),
        spec_cred_fields(cv)[18] == ("proxyUrl"@, opt_sv(cv.proxy_url)),
        spec_cred_fields(cv)[19] == ("proxyUsername"@, opt_sv(cv.proxy_username)),
        spec_cred_fields(cv)[20] == ("proxyPassword"@, opt_sv(cv.proxy_password)),
        spec_cred_fields(cv)[21] == ("email"@, opt_sv(cv.email)),
{
    reveal(spec_cred_fields);
}

/// Reveals every key literal of the credential object.
proof fn reveal_cred_keys()
    ensures
        plain("id"@),
        plain("refreshToken"@),
        plain("accessToken"@),
        plain("profileArn"@),
        plain("expiresAt"@),
        plain("authMethod"@),
        plain("clientId"@),
        plain("clientSecret"@),
        plain("priority"@),
        plain("region"@),
        plain("authRegion"@),
        plain("apiRegion"@),
        plain("machineId"@),
        plain("disabled"@),
        plain("failureCount"@),
        plain("successCount"@),
        plain("lastUsedAt"@),
        plain("subscriptionTitle"@),
        plain("proxyUrl"@),
        plain("proxyUsername"@),
        plain("proxyPassword"@),
        plain("email"@),
{
    reveal_strlit("id");
    reveal_strlit("refreshToken");
    reveal_strlit("accessToken");
    reveal_strlit("profileArn");
    reveal_strlit("expiresAt");
    reveal_strlit("authMethod");
    reveal_strlit("clientId");
    reveal_strlit("clientSecret");
    reveal_strlit("priority");
    reveal_strlit("region");
    reveal_strlit("authRegion");
    reveal_strlit("apiRegion");
    reveal_strlit("machineId");
    reveal_strlit("disabled");
    reveal_strlit("failureCount");
    reveal_strlit("successCount");
    reveal_strlit("lastUsedAt");
    reveal_strlit("subscriptionTitle");
    reveal_strlit("proxyUrl");
    reveal_strlit("proxyUsername");
    reveal_strlit("proxyPassword");
    reveal_strlit("email");
}

/// Every field of a plain credential is writable.
proof fn lemma_cred_fields_wf(c: CredentialV)
    requires
        cred_plain(c),
    ensures
        fields_wf(spec_cred_fields(c)),
{
    reveal(spec_cred_fields);
    reveal_cred_keys();
    let fs = spec_cred_fields(c);
    assert forall|k: int| 0 <= k < fs.len() implies field_wf(#[trigger] fs[k]) by {}
}

/// Builds the field list of a stored credential.
pub fn cred_to_fields(c: &Credential) -> (r: Vec<(String, JsonVal)>)
    ensures
        fields_v(r@) == spec_cred_fields(c@),
{
    proof {
        reveal(spec_cred_fields);
    }
    let mut fields: Vec<(String, JsonVal)> = Vec::new();
    fields.push((String::from_str("id"), JsonVal::U(c.id)));
    fields.push((String::from_str("refreshToken"), JsonVal::S(c.refresh_token.clone())));
    fields.push((String::from_str("accessToken"), opt_jv(&c.access_token)));
    fields.push((String::from_str("profileArn"), opt_jv(&c.profile_arn)));
    fields.push((String::from_str("expiresAt"), opt_jv(&c.expires_at)));
    fields.push((String::from_str("authMethod"), JsonVal::S(c.auth_method.clone())));
    fields.push((String::from_str("clientId"), opt_jv(&c.client_id)));
    fields.push((String::from_str("clientSecret"), opt_jv(&c.client_secret)));
    fields.push((String::from_str("priority"), JsonVal::U(c.priority as u64)));
    fields.push((String::from_str("region"), opt_jv(&c.region)));
    fields.push((String::from_str("authRegion"), opt_jv(&c.auth_region)));
    fields.push((String::from_str("apiRegion"), opt_jv(&c.api_region)));
    fields.push((String::from_str("machineId"), opt_jv(&c.machine_id)));
    fields.push((String::from_str("disabled"), JsonVal::B(c.disabled)));
    fields.push((String::from_str("failureCount"), JsonVal::U(c.failure_count as u64)));
    fields.push((String::from_str("successCount"), JsonVal::U(c.success_count)));
    fields.push((String::from_str("lastUsedAt"), opt_jv(&c.last_used_at)));
    fields.push((String::from_str("subscriptionTitle"), opt_jv(&c.subscription_title)));
    fields.push((String::from_str("proxyUrl"), opt_jv(&c.proxy_url)));
    fields.push((String::from_str("proxyUsername"), opt_jv(&c.proxy_username)));
    fields.push((String::from_str("proxyPassword"), opt_jv(&c.proxy_password)));
    fields.push((String::from_str("email"), opt_jv(&c.email)));
    proof {
        assert(fields_v(fields@) =~= spec_cred_fields(c@));
    }
    fields
}

/// Reads a credential back from its field list: the exact canonical keys,
/// order and value kinds; anything else is rejected, and the caller skips
/// the entry.
#[verifier::rlimit(100)]
#[verifier::spinoff_prover]
pub fn cred_of_fields(fs: &Vec<(String, JsonVal)>) -> (r: Option<Credential>)
    ensures
        match r {
            Some(c) => fields_v(fs@) == spec_cred_fields(c@),
            None => true,
        },
        forall|cv: CredentialV|
            fields_v(fs@) == spec_cred_fields(cv) ==> r is Some && r->Some_0@ == cv,
{
    if fs.len() != 22 {
        proof {
            assert forall|cv: CredentialV|
                fields_v(fs@) == spec_cred_fields(cv) implies false by {
                lemma_cred_fields_shape(cv);
            }
        }
        return None;
    }
    if !str_eq(fs[0].0.as_str(), "id") {
        proof {
            assert forall|cv: CredentialV|
                fields_v(fs@) == spec_cred_fields(cv) implies false by {
                lemma_cred_fields_shape(cv);
                assert(fields_v(fs@)[0] == spec_cred_fields(cv)[0]);
                assert(fields_v(fs@)[0] == ((fs@[0].0)@, (fs@[0].1)@));
            }
        }
        return None;
    }
    let id: u64 = match &fs[0].1 {
        JsonVal::U(v) => *v,
        _ => {
        proof {
            assert forall|cv: CredentialV|
                fields_v(fs@) == spec_cred_fields(cv) implies false by {
                lemma_cred_fields_shape(cv);
                assert(fields_v(fs@)[0] == spec_cred_fields(cv)[0]);
                assert(fields_v(fs@)[0] == ((fs@[0].0)@, (fs@[0].1)@));
            }
        }
        return None;
    },
    };
    if !str_eq(fs[1].0.as_str(), "refreshToken") {
        proof {
            assert forall|cv: CredentialV|
                fields_v(fs@) == spec_cred_fields(cv) implies false by {
                lemma_cred_fields_shape(cv);
                assert(fields_v(fs@)[1] == spec_cred_fields(cv)[1]);
                assert(fields_v(fs@)[1] == ((fs@[1].0)@, (fs@[1].1)@));
            }
        }
        return None;
    }
    let refresh_token: String = match &fs[1].1 {
        JsonVal::S(v) => v.clone(),
        _ => {
        proof {
            assert forall|cv: CredentialV|
                fields_v(fs@) == spec_cred_fields(cv) implies false by {
                lemma_cred_fields_shape(cv);
                assert(fields_v(fs@)[1] == spec_cred_fields(cv)[1]);
                assert(fields_v(fs@)[1] == ((fs@[1].0)@, (fs@[1].1)@));
            }
        }
        return None;
    },
    };
    if !str_eq(fs[2].0.as_str(), "accessToken") {
        proof {
            assert forall|cv: CredentialV|
                fields_v(fs@) == spec_cred_fields(cv) implies false by {
                lemma_cred_fields_shape(cv);
                assert(fields_v(fs@)[2] == spec_cred_fields(cv)[2]);
                assert(fields_v(fs@)[2] == ((fs@[2].0)@, (fs@[2].1)@));
            }
        }
        return None;
    }
    let access_token: Option<String> = match &fs[2].1 {
        JsonVal::S(v) => Some(v.clone()),
        JsonVal::Null => None,
        _ => {
        proof {
            assert forall|cv: CredentialV|
                fields_v(fs@) == spec_cred_fields(cv) implies false by {
                lemma_cred_fields_shape(cv);
                assert(fields_v(fs@)[2] == spec_cred_fields(cv)[2]);
                assert(fields_v(fs@)[2] == ((fs@[2].0)@, (fs@[2].1)@));
            }
        }
        return None;
    },
    };
    if !str_eq(fs[3].0.as_str(), "profileArn") {
        proof {
            assert forall|cv: CredentialV|
                fields_v(fs@) == spec_cred_fields(cv) implies false by {
                lemma_cred_fields_shape(cv);
                assert(fields_v(fs@)[3] == spec_cred_fields(cv)[3]);
                assert(fields_v(fs@)[3] == ((fs@[3].0)@, (fs@[3].1)@));
            }
        }
        return None;
    }
    let profile_arn: Option<String> = match &fs[3].1 {
        JsonVal::S(v) => Some(v.clone()),
        JsonVal::Null => None,
        _ => {
        proof {
            assert forall|cv: CredentialV|
                fields_v(fs@) == spec_cred_fields(cv) implies false by {
                lemma_cred_fields_shape(cv);
                assert(fields_v(fs@)[3] == spec_cred_fields(cv)[3]);
                assert(fields_v(fs@)[3] == ((fs@[3].0)@, (fs@[3].1)@));
            }
        }
        return None;
    },
    };
    if !str_eq(fs[4].0.as_str(), "expiresAt") {
        proof {
            assert forall|cv: CredentialV|
                fields_v(fs@) == spec_cred_fields(cv) implies false by {
                lemma_cred_fields_shape(cv);
                assert(fields_v(fs@)[4] == spec_cred_fields(cv)[4]);
                assert(fields_v(fs@)[4] == ((fs@[4].0)@, (fs@[4].1)@));
            }
        }
        return None;
    }
    let expires_at: Option<String> = match &fs[4].1 {
        JsonVal::S(v) => Some(v.clone()),
        JsonVal::Null => None,
        _ => {
        proof {
            assert forall|cv: CredentialV|
                fields_v(fs@) == spec_cred_fields(cv) implies false by {
                lemma_cred_fields_shape(cv);
                assert(fields_v(fs@)[4] == spec_cred_fields(cv)[4]);
                assert(fields_v(fs@)[4] == ((fs@[4].0)@, (fs@[4].1)@));
            }
        }
        return None;
    },
    };
    if !str_eq(fs[5].0.as_str(), "authMethod") {
        proof {
            assert forall|cv: CredentialV|
                fields_v(fs@) == spec_cred_fields(cv) implies false by {
                lemma_cred_fields_shape(cv);
                assert(fields_v(fs@)[5] == spec_cred_fields(cv)[5]);
                assert(fields_v(fs@)[5] == ((fs@[5].0)@, (fs@[5].1)@));
            }
        }
        return None;
    }
    let auth_method: String = match &fs[5].1 {
        JsonVal::S(v) => v.clone(),
        _ => {
        proof {
            assert forall|cv: CredentialV|
                fields_v(fs@) == spec_cred_fields(cv) implies false by {
                lemma_cred_fields_shape(cv);
                assert(fields_v(fs@)[5] == spec_cred_fields(cv)[5]);
                assert(fields_v(fs@)[5] == ((fs@[5].0)@, (fs@[5].1)@));
            }
        }
        return None;
    },
    };
    if !str_eq(fs[6].0.as_str(), "clientId") {
        proof {
            assert forall|cv: CredentialV|
                fields_v(fs@) == spec_cred_fields(cv) implies false by {
                lemma_cred_fields_shape(cv);
                assert(fields_v(fs@)[6] == spec_cred_fields(cv)[6]);
                assert(fields_v(fs@)[6] == ((fs@[6].0)@, (fs@[6].1)@));
            }
        }
        return None;
    }
    let client_id: Option<String> = match &fs[6].1 {
        JsonVal::S(v) => Some(v.clone()),
        JsonVal::Null => None,
        _ => {
        proof {
            assert forall|cv: CredentialV|
                fields_v(fs@) == spec_cred_fields(cv) implies false by {
                lemma_cred_fields_shape(cv);
                assert(fields_v(fs@)[6] == spec_cred_fields(cv)[6]);
                assert(fields_v(fs@)[6] == ((fs@[6].0)@, (fs@[6].1)@));
            }
        }
        return None;
    },
    };
    if !str_eq(fs[7].0.as_str(), "clientSecret") {
        proof {
            assert forall|cv: CredentialV|
                fields_v(fs@) == spec_cred_fields(cv) implies false by {
                lemma_cred_fields_shape(cv);
                assert(fields_v(fs@)[7] == spec_cred_fields(cv)[7]);
                assert(fields_v(fs@)[7] == ((fs@[7].0)@, (fs@[7].1)@));
            }
        }
        return None;
    }
    let client_secret: Option<String> = match &fs[7].1 {
        JsonVal::S(v) => Some(v.clone()),
        JsonVal::Null => None,
        _ => {
        proof {
            assert forall|cv: CredentialV|
                fields_v(fs@) == spec_cred_fields(cv) implies false by {
                lemma_cred_fields_shape(cv);
                assert(fields_v(fs@)[7] == spec_cred_fields(cv)[7]);
                assert(fields_v(fs@)[7] == ((fs@[7].0)@, (fs@[7].1)@));
            }
        }
        return None;
    },
    };
    if !str_eq(fs[8].0.as_str(), "priority") {
        proof {
            assert forall|cv: CredentialV|
                fields_v(fs@) == spec_cred_fields(cv) implies false by {
                lemma_cred_fields_shape(cv);
                assert(fields_v(fs@)[8] == spec_cred_fields(cv)[8]);
                assert(fields_v(fs@)[8] == ((fs@[8].0)@, (fs@[8].1)@));
            }
        }
        return None;
    }
    let priority: u32 = match &fs[8].1 {
        JsonVal::U(v) => if *v <= u32::MAX as u64 {
            *v as u32
        } else {
        proof {
            assert forall|cv: CredentialV|
                fields_v(fs@) == spec_cred_fields(cv) implies false by {
                lemma_cred_fields_shape(cv);
                assert(fields_v(fs@)[8] == spec_cred_fields(cv)[8]);
                assert(fields_v(fs@)[8] == ((fs@[8].0)@, (fs@[8].1)@));
            }
        }
        return None;
    },
        _ => {
        proof {
            assert forall|cv: CredentialV|
                fields_v(fs@) == spec_cred_fields(cv) implies false by {
                lemma_cred_fields_shape(cv);
                assert(fields_v(fs@)[8] == spec_cred_fields(cv)[8]);
                assert(fields_v(fs@)[8] == ((fs@[8].0)@, (fs@[8].1)@));
            }
        }
        return None;
    },
    };
    if !str_eq(fs[9].0.as_str(), "region") {
        proof {
            assert forall|cv: CredentialV|
                fields_v(fs@) == spec_cred_fields(cv) implies false by {
                lemma_cred_fields_shape(cv);
                assert(fields_v(fs@)[9] == spec_cred_fields(cv)[9]);
                assert(fields_v(fs@)[9] == ((fs@[9].0)@, (fs@[9].1)@));
            }
        }
        return None;
    }
    let region: Option<String> = match &fs[9].1 {
        JsonVal::S(v) => Some(v.clone()),
        JsonVal::Null => None,
        _ => {
        proof {
            assert forall|cv: CredentialV|
                fields_v(fs@) == spec_cred_fields(cv) implies false by {
                lemma_cred_fields_shape(cv);
                assert(fields_v(fs@)[9] == spec_cred_fields(cv)[9]);
                assert(fields_v(fs@)[9] == ((fs@[9].0)@, (fs@[9].1)@));
            }
        }
        return None;
    },
    };
    if !str_eq(fs[10].0.as_str(), "authRegion") {
        proof {
            assert forall|cv: CredentialV|
                fields_v(fs@) == spec_cred_fields(cv) implies false by {
                lemma_cred_fields_shape(cv);
                assert(fields_v(fs@)[10] == spec_cred_fields(cv)[10]);
                assert(fields_v(fs@)[10] == ((fs@[10].0)@, (fs@[10].1)@));
            }
        }
        return None;
    }
    let auth_region: Option<String> = match &fs[10].1 {
        JsonVal::S(v) => Some(v.clone()),
        JsonVal::Null => None,
        _ => {
        proof {
            assert forall|cv: CredentialV|
                fields_v(fs@) == spec_cred_fields(cv) implies false by {
                lemma_cred_fields_shape(cv);
                assert(fields_v(fs@)[10] == spec_cred_fields(cv)[10]);
                assert(fields_v(fs@)[10] == ((fs@[10].0)@, (fs@[10].1)@));
            }
        }
        return None;
    },
    };
    if !str_eq(fs[11].0.as_str(), "apiRegion") {
        proof {
            assert forall|cv: CredentialV|
                fields_v(fs@) == spec_cred_fields(cv) implies false by {
                lemma_cred_fields_shape(cv);
                assert(fields_v(fs@)[11] == spec_cred_fields(cv)[11]);
                assert(fields_v(fs@)[11] == ((fs@[11].0)@, (fs@[11].1)@));
            }
        }
        return None;
    }
    let api_region: Option<String> = match &fs[11].1 {
        JsonVal::S(v) => Some(v.clone()),
        JsonVal::Null => None,
        _ => {
        proof {
            assert forall|cv: CredentialV|
                fields_v(fs@) == spec_cred_fields(cv) implies false by {
                lemma_cred_fields_shape(cv);
                assert(fields_v(fs@)[11] == spec_cred_fields(cv)[11]);
                assert(fields_v(fs@)[11] == ((fs@[11].0)@, (fs@[11].1)@));
            }
        }
        return None;
    },
    };
    if !str_eq(fs[12].0.as_str(), "machineId") {
        proof {
            assert forall|cv: CredentialV|
                fields_v(fs@) == spec_cred_fields(cv) implies false by {
                lemma_cred_fields_shape(cv);
                assert(fields_v(fs@)[12] == spec_cred_fields(cv)[12]);
                assert(fields_v(fs@)[12] == ((fs@[12].0)@, (fs@[12].1)@));
            }
        }
        return None;
    }
    let machine_id: Option<String> = match &fs[12].1 {
        JsonVal::S(v) => Some(v.clone()),
        JsonVal::Null => None,
        _ => {
        proof {
            assert forall|cv: CredentialV|
                fields_v(fs@) == spec_cred_fields(cv) implies false by {
                lemma_cred_fields_shape(cv);
                assert(fields_v(fs@)[12] == spec_cred_fields(cv)[12]);
                assert(fields_v(fs@)[12] == ((fs@[12].0)@, (fs@[12].1)@));
            }
        }
        return None;
    },
    };
    if !str_eq(fs[13].0.as_str(), "disabled") {
        proof {
            assert forall|cv: CredentialV|
                fields_v(fs@) == spec_cred_fields(cv) implies false by {
                lemma_cred_fields_shape(cv);
                assert(fields_v(fs@)[13] == spec_cred_fields(cv)[13]);
                assert(fields_v(fs@)[13] == ((fs@[13].0)@, (fs@[13].1)@));
            }
        }
        return None;
    }
    let disabled: bool = match &fs[13].1 {
        JsonVal::B(v) => *v,
        _ => {
        proof {
            assert forall|cv: CredentialV|
                fields_v(fs@) == spec_cred_fields(cv) implies false by {
                lemma_cred_fields_shape(cv);
                assert(fields_v(fs@)[13] == spec_cred_fields(cv)[13]);
                assert(fields_v(fs@)[13] == ((fs@[13].0)@, (fs@[13].1)@));
            }
        }
        return None;
    },
    };
    if !str_eq(fs[14].0.as_str(), "failureCount") {
        proof {
            assert forall|cv: CredentialV|
                fields_v(fs@) == spec_cred_fields(cv) implies false by {
                lemma_cred_fields_shape(cv);
                assert(fields_v(fs@)[14] == spec_cred_fields(cv)[14]);
                assert(fields_v(fs@)[14] == ((fs@[14].0)@, (fs@[14].1)@));
            }
        }
        return None;
    }
    let failure_count: u32 = match &fs[14].1 {
        JsonVal::U(v) => if *v <= u32::MAX as u64 {
            *v as u32
        } else {
        proof {
            assert forall|cv: CredentialV|
                fields_v(fs@) == spec_cred_fields(cv) implies false by {
                lemma_cred_fields_shape(cv);
                assert(fields_v(fs@)[14] == spec_cred_fields(cv)[14]);
                assert(fields_v(fs@)[14] == ((fs@[14].0)@, (fs@[14].1)@));
            }
        }
        return None;
    },
        _ => {
        proof {
            assert forall|cv: CredentialV|
                fields_v(fs@) == spec_cred_fields(cv) implies false by {
                lemma_cred_fields_shape(cv);
                assert(fields_v(fs@)[14] == spec_cred_fields(cv)[14]);
                assert(fields_v(fs@)[14] == ((fs@[14].0)@, (fs@[14].1)@));
            }
        }
        return None;
    },
    };
    if !str_eq(fs[15].0.as_str(), "successCount") {
        proof {
            assert forall|cv: CredentialV|
                fields_v(fs@) == spec_cred_fields(cv) implies false by {
                lemma_cred_fields_shape(cv);
                assert(fields_v(fs@)[15] == spec_cred_fields(cv)[15]);
                assert(fields_v(fs@)[15] == ((fs@[15].0)@, (fs@[15].1)@));
            }
        }
        return None;
    }
    let success_count: u64 = match &fs[15].1 {
        JsonVal::U(v) => *v,
        _ => {
        proof {
            assert forall|cv: CredentialV|
                fields_v(fs@) == spec_cred_fields(cv) implies false by {
                lemma_cred_fields_shape(cv);
                assert(fields_v(fs@)[15] == spec_cred_fields(cv)[15]);
                assert(fields_v(fs@)[15] == ((fs@[15].0)@, (fs@[15].1)@));
            }
        }
        return None;
    },
    };
    if !str_eq(fs[16].0.as_str(), "lastUsedAt") {
        proof {
            assert forall|cv: CredentialV|
                fields_v(fs@) == spec_cred_fields(cv) implies false by {
                lemma_cred_fields_shape(cv);
                assert(fields_v(fs@)[16] == spec_cred_fields(cv)[16]);
                assert(fields_v(fs@)[16] == ((fs@[16].0)@, (fs@[16].1)@));
            }
        }
        return None;
    }
    let last_used_at: Option<String> = match &fs[16].1 {
        JsonVal::S(v) => Some(v.clone()),
        JsonVal::Null => None,
        _ => {
        proof {
            assert forall|cv: CredentialV|
                fields_v(fs@) == spec_cred_fields(cv) implies false by {
                lemma_cred_fields_shape(cv);
                assert(fields_v(fs@)[16] == spec_cred_fields(cv)[16]);
                assert(fields_v(fs@)[16] == ((fs@[16].0)@, (fs@[16].1)@));
            }
        }
        return None;
    },
    };
    if !str_eq(fs[17].0.as_str(), "subscriptionTitle") {
        proof {
            assert forall|cv: CredentialV|
                fields_v(fs@) == spec_cred_fields(cv) implies false by {
                lemma_cred_fields_shape(cv);
                assert(fields_v(fs@)[17] == spec_cred_fields(cv)[17]);
                assert(fields_v(fs@)[17] == ((fs@[17].0)@, (fs@[17].1)@));
            }
        }
        return None;
    }
    let subscription_title: Option<String> = match &fs[17].1 {
        JsonVal::S(v) => Some(v.clone()),
        JsonVal::Null => None,
        _ => {
        proof {
            assert forall|cv: CredentialV|
                fields_v(fs@) == spec_cred_fields(cv) implies false by {
                lemma_cred_fields_shape(cv);
                assert(fields_v(fs@)[17] == spec_cred_fields(cv)[17]);
                assert(fields_v(fs@)[17] == ((fs@[17].0)@, (fs@[17].1)@));
            }
        }
        return None;
    },
    };
    if !str_eq(fs[18].0.as_str(), "proxyUrl") {
        proof {
            assert forall|cv: CredentialV|
                fields_v(fs@) == spec_cred_fields(cv) implies false by {
                lemma_cred_fields_shape(cv);
                assert(fields_v(fs@)[18] == spec_cred_fields(cv)[18]);
                assert(fields_v(fs@)[18] == ((fs@[18].0)@, (fs@[18].1)@));
            }
        }
        return None;
    }
    let proxy_url: Option<String> = match &fs[18].1 {
        JsonVal::S(v) => Some(v.clone()),
        JsonVal::Null => None,
        _ => {
        proof {
            assert forall|cv: CredentialV|
                fields_v(fs@) == spec_cred_fields(cv) implies false by {
                lemma_cred_fields_shape(cv);
                assert(fields_v(fs@)[18] == spec_cred_fields(cv)[18]);
                assert(fields_v(fs@)[18] == ((fs@[18].0)@, (fs@[18].1)@));
            }
        }
        return None;
    },
    };
    if !str_eq(fs[19].0.as_str(), "proxyUsername") {
        proof {
            assert forall|cv: CredentialV|
                fields_v(fs@) == spec_cred_fields(cv) implies false by {
                lemma_cred_fields_shape(cv);
                assert(fields_v(fs@)[19] == spec_cred_fields(cv)[19]);
                assert(fields_v(fs@)[19] == ((fs@[19].0)@, (fs@[19].1)@));
            }
        }
        return None;
    }
    let proxy_username: Option<String> = match &fs[19].1 {
        JsonVal::S(v) => Some(v.clone()),
        JsonVal::Null => None,
        _ => {
        proof {
            assert forall|cv: CredentialV|
                fields_v(fs@) == spec_cred_fields(cv) implies false by {
                lemma_cred_fields_shape(cv);
                assert(fields_v(fs@)[19] == spec_cred_fields(cv)[19]);
                assert(fields_v(fs@)[19] == ((fs@[19].0)@, (fs@[19].1)@));
            }
        }
        return None;
    },
    };
    if !str_eq(fs[20].0.as_str(), "proxyPassword") {
        proof {
            assert forall|cv: CredentialV|
                fields_v(fs@) == spec_cred_fields(cv) implies false by {
                lemma_cred_fields_shape(cv);
                assert(fields_v(fs@)[20] == spec_cred_fields(cv)[20]);
                assert(fields_v(fs@)[20] == ((fs@[20].0)@, (fs@[20].1)@));
            }
        }
        return None;
    }
    let proxy_password: Option<String> = match &fs[20].1 {
        JsonVal::S(v) => Some(v.clone()),
        JsonVal::Null => None,
        _ => {
        proof {
            assert forall|cv: CredentialV|
                fields_v(fs@) == spec_cred_fields(cv) implies false by {
                lemma_cred_fields_shape(cv);
                assert(fields_v(fs@)[20] == spec_cred_fields(cv)[20]);
                assert(fields_v(fs@)[20] == ((fs@[20].0)@, (fs@[20].1)@));
            }
        }
        return None;
    },
    };
    if !str_eq(fs[21].0.as_str(), "email") {
        proof {
            assert forall|cv: CredentialV|
                fields_v(fs@) == spec_cred_fields(cv) implies false by {
                lemma_cred_fields_shape(cv);
                assert(fields_v(fs@)[21] == spec_cred_fields(cv)[21]);
                assert(fields_v(fs@)[21] == ((fs@[21].0)@, (fs@[21].1)@));
            }
        }
        return None;
    }
    let email: Option<String> = match &fs[21].1 {
        JsonVal::S(v) => Some(v.clone()),
        JsonVal::Null => None,
        _ => {
        proof {
            assert forall|cv: CredentialV|
                fields_v(fs@) == spec_cred_fields(cv) implies false by {
                lemma_cred_fields_shape(cv);
                assert(fields_v(fs@)[21] == spec_cred_fields(cv)[21]);
                assert(fields_v(fs@)[21] == ((fs@[21].0)@, (fs@[21].1)@));
            }
        }
        return None;
    },
    };
    let c = Credential {
        id,
        refresh_token,
        access_token,
        profile_arn,
        expires_at,
        auth_method,
        client_id,
        client_secret,
        priority,
        region,
        auth_region,
        api_region,
        machine_id,
        disabled,
        failure_count,
        success_count,
        last_used_at,
        subscription_title,
        proxy_url,
        proxy_username,
        proxy_password,
        email,
    };
    proof {
        reveal(spec_cred_fields);
        assert(fields_v(fs@) =~= spec_cred_fields(c@));
        assert forall|cv: CredentialV|
            fields_v(fs@) == spec_cred_fields(cv) implies c@ == cv by {
            lemma_cred_fields_inj(c@, cv);
        }
    }
    Some(c)
}

/// The canonical field list determines the credential.
#[verifier::rlimit(100)]
proof fn lemma_cred_fields_inj(a: CredentialV, b: CredentialV)
    requires
        spec_cred_fields(a) == spec_cred_fields(b),
    ensures
        a == b,
{
    reveal(spec_cred_fields);
    let fa = spec_cred_fields(a);
    let fb = spec_cred_fields(b);
    assert(fa[0] == fb[0]);
    assert(fa[1] == fb[1]);
    assert(fa[2] == fb[2]);
    assert(fa[3] == fb[3]);
    assert(fa[4] == fb[4]);
    assert(fa[5] == fb[5]);
    assert(fa[6] == fb[6]);
    assert(fa[7] == fb[7]);
    assert(fa[8] == fb[8]);
    assert(fa[9] == fb[9]);
    assert(fa[10] == fb[10]);
    assert(fa[11] == fb[11]);
    assert(fa[12] == fb[12]);
    assert(fa[13] == fb[13]);
    assert(fa[14] == fb[14]);
    assert(fa[15] == fb[15]);
    assert(fa[16] == fb[16]);
    assert(fa[17] == fb[17]);
    assert(fa[18] == fb[18]);
    assert(fa[19] == fb[19]);
    assert(fa[20] == fb[20]);
    assert(fa[21] == fb[21]);
    assert(a.access_token == b.access_token) by {
        assert(opt_sv(a.access_token) == opt_sv(b.access_token));
        match a.access_token {
            Some(x) => {},
            None => {},
        }
    }
}


/// The field lists of a whole pool, one object per credential.
pub open spec fn pool_objs(cs: Seq<CredentialV>) -> Seq<Seq<FieldV>> {
    cs.map_values(|c: CredentialV| spec_cred_fields(c))
}

/// The canonical text of a whole pool.
pub open spec fn spec_enc_pool(cs: Seq<CredentialV>) -> Seq<char> {
    spec_enc_arr(pool_objs(cs))
}

/// Every credential of the pool is plain.
pub open spec fn pool_plain(cs: Seq<CredentialV>) -> bool {
    forall|k: int| 0 <= k < cs.len() ==> cred_plain(#[trigger] cs[k])
}

/// Writes the canonical pool file text.
pub fn encode_pool(creds: &Vec<Credential>) -> (r: String)
    requires
        pool_plain(creds_view(creds@)),
    ensures
        r@ == spec_enc_pool(creds_view(creds@)),
{
    let n = creds.len();
    let mut objs: Vec<Vec<(String, JsonVal)>> = Vec::new();
    let mut i: usize = 0;
    while i < n
        invariant
            i <= n,
            n == creds@.len(),
            pool_plain(creds_view(creds@)),
            objs@.len() == i,
            forall|k: int|
                0 <= k < i ==> fields_v(#[trigger] objs@[k]@) == spec_cred_fields(
                    creds_view(creds@)[k],
                ),
        decreases n - i,
    {
        let fields = cred_to_fields(&creds[i]);
        objs.push(fields);
        i = i + 1;
    }
    proof {
        assert(objs_v(objs@) =~= pool_objs(creds_view(creds@)));
        assert forall|k: int|
            0 <= k < objs_v(objs@).len() implies fields_wf(#[trigger] objs_v(objs@)[k]) by {
            lemma_cred_fields_wf(creds_view(creds@)[k]);
        }
    }
    encode_json_array(&objs)
}

/// The credentials an object list denotes: each object that is the
/// canonical field list of some credential contributes that credential, in
/// order; the rest contribute nothing.
#[verifier::opaque]
pub open spec fn creds_of_objs(os: Seq<Seq<FieldV>>) -> Seq<CredentialV>
    decreases os.len(),
{
    if os.len() == 0 {
        Seq::empty()
    } else if exists|cv: CredentialV| os[0] == spec_cred_fields(cv) {
        seq![choose|cv: CredentialV| os[0] == spec_cred_fields(cv)] + creds_of_objs(os.skip(1))
    } else {
        creds_of_objs(os.skip(1))
    }
}

/// Reads a pool file: the text parses as an array of objects, each object
/// that is a canonical credential is kept and the rest are skipped.
///
/// The first clause pins the log-and-skip behaviour: the kept credentials
/// are exactly `creds_of_objs` of the parsed array, in order. The last
/// clause is the restart law: the canonical text of any plain pool parses
/// back to exactly that pool, credential for credential.
pub fn parse_pool(s: &str) -> (r: Option<Vec<Credential>>)
    ensures
        match r {
            Some(v) => exists|os: Seq<Seq<FieldV>>|
                #[trigger] full_arr_parse(s@, os) && creds_view(v@) == creds_of_objs(os),
            None => !vstd::utf8::is_ascii_chars(s@) || forall|os: Seq<Seq<FieldV>>|
                !#[trigger] full_arr_parse(s@, os),
        },
        forall|cs: Seq<CredentialV>|
            pool_plain(cs) && s@ == spec_enc_pool(cs) ==> r is Some && creds_view(r->Some_0@)
                == cs,
{
    let objs = match parse_json_array(s) {
        Some(v) => v,
        None => {
            proof {
                assert forall|cs: Seq<CredentialV>|
                    pool_plain(cs) && s@ == spec_enc_pool(cs) implies false by {
                    assert forall|k: int|
                        0 <= k < pool_objs(cs).len() implies fields_wf(
                        #[trigger] pool_objs(cs)[k],
                    ) by {
                        lemma_cred_fields_wf(cs[k]);
                    }
                    assert(objs_wf(pool_objs(cs)));
                }
            }
            return None;
        },
    };
    let n = objs.len();
    let mut out: Vec<Credential> = Vec::new();
    let mut i: usize = 0;
    proof {
        reveal(creds_of_objs);
        assert(objs_v(objs@).skip(0) =~= objs_v(objs@));
        assert(creds_view(out@) =~= Seq::<CredentialV>::empty());
    }
    while i < n
        invariant
            i <= n,
            n == objs@.len(),
            creds_of_objs(objs_v(objs@)) =~= creds_view(out@) + creds_of_objs(
                objs_v(objs@).skip(i as int),
            ),
            forall|cs: Seq<CredentialV>|
                #[trigger] pool_objs(cs) == objs_v(objs@) ==> out@.len() == i && creds_view(out@)
                    =~= cs.take(i as int),
        decreases n - i,
    {
        let ghost out0 = out@;
        let ghost ov = objs_v(objs@);
        match cred_of_fields(&objs[i]) {
            Some(c) => {
                out.push(c);
                proof {
                    reveal(creds_of_objs);
                    assert(ov.skip(i as int)[0] == ov[i as int]);
                    assert(ov[i as int] == fields_v(objs@[i as int]@));
                    assert(ov.skip(i as int).skip(1) =~= ov.skip(i + 1));
                    assert(exists|cv: CredentialV| ov.skip(i as int)[0] == spec_cred_fields(cv))
                        by {
                        assert(ov.skip(i as int)[0] == spec_cred_fields(c@));
                    }
                    let picked = choose|cv: CredentialV|
                        ov.skip(i as int)[0] == spec_cred_fields(cv);
                    lemma_cred_fields_inj(picked, c@);
                    assert(creds_of_objs(ov.skip(i as int)) == seq![c@] + creds_of_objs(
                        ov.skip(i + 1),
                    ));
                    assert(creds_view(out@) =~= creds_view(out0).push(c@));
                    assert(creds_of_objs(ov) =~= creds_view(out@) + creds_of_objs(
                        ov.skip(i + 1),
                    ));
                    assert forall|cs: Seq<CredentialV>|
                        #[trigger] pool_objs(cs) == objs_v(objs@) implies out@.len() == i + 1
                        && creds_view(out@) =~= cs.take(i + 1) by {
                        assert(pool_objs(cs).len() == cs.len());
                        assert(objs_v(objs@).len() == objs@.len());
                        assert(cs.len() == objs@.len());
                        assert(creds_view(out0) =~= cs.take(i as int));
                        assert(pool_objs(cs)[i as int] == spec_cred_fields(cs[i as int]));
                        assert(objs_v(objs@)[i as int] == fields_v(objs@[i as int]@));
                        assert(c@ == cs[i as int]);
                        assert(creds_view(out@) =~= creds_view(out0).push(c@));
                        assert(cs.take(i + 1) =~= cs.take(i as int).push(cs[i as int]));
                        assert(creds_view(out@) =~= cs.take(i + 1));
                    }
                }
            },
            None => {
                proof {
                    reveal(creds_of_objs);
                    assert(ov.skip(i as int)[0] == ov[i as int]);
                    assert(ov[i as int] == fields_v(objs@[i as int]@));
                    assert(ov.skip(i as int).skip(1) =~= ov.skip(i + 1));
                    assert(!exists|cv: CredentialV|
                        ov.skip(i as int)[0] == spec_cred_fields(cv)) by {
                        if exists|cv: CredentialV| ov.skip(i as int)[0] == spec_cred_fields(cv) {
                            let cv = choose|cv: CredentialV|
                                ov.skip(i as int)[0] == spec_cred_fields(cv);
                            assert(fields_v(objs@[i as int]@) == spec_cred_fields(cv));
                        }
                    }
                    assert(creds_of_objs(ov.skip(i as int)) == creds_of_objs(ov.skip(i + 1)));
                    assert forall|cs: Seq<CredentialV>|
                        #[trigger] pool_objs(cs) == objs_v(objs@) implies false by {
                        assert(pool_objs(cs).len() == cs.len());
                        assert(objs_v(objs@).len() == objs@.len());
                        assert(cs.len() == objs@.len());
                        assert(pool_objs(cs)[i as int] == spec_cred_fields(cs[i as int]));
                        assert(objs_v(objs@)[i as int] == fields_v(objs@[i as int]@));
                    }
                }
            },
        }
        i = i + 1;
    }
    proof {
        reveal(creds_of_objs);
        assert(objs_v(objs@).skip(n as int) =~= Seq::<Seq<FieldV>>::empty());
        assert(creds_of_objs(objs_v(objs@)) =~= creds_view(out@));
        assert(#[trigger] full_arr_parse(s@, objs_v(objs@)) && creds_view(out@) == creds_of_objs(
            objs_v(objs@),
        ));
        assert forall|cs: Seq<CredentialV>|
            pool_plain(cs) && s@ == spec_enc_pool(cs) implies creds_view(out@) == cs by {
            assert forall|k: int|
                0 <= k < pool_objs(cs).len() implies fields_wf(#[trigger] pool_objs(cs)[k]) by {
                lemma_cred_fields_wf(cs[k]);
            }
            assert(objs_wf(pool_objs(cs)));
            assert(objs_v(objs@) == pool_objs(cs));
            assert(creds_view(out@) =~= cs.take(n as int));
            assert(cs.take(n as int) =~= cs);
        }
    }
    Some(out)
}

/// The canonical field list of a cache entry.
pub open spec fn spec_entry_fields(e: (u64, CachedBalanceV)) -> Seq<FieldV> {
    seq![
        ("id"@, JsonValV::U(e.0)),
        ("cachedAt"@, JsonValV::U(e.1.cached_at)),
        ("subscriptionTitle"@, opt_sv(e.1.data.subscription_title)),
        ("currentUsage"@, JsonValV::U(e.1.data.current_usage)),
        ("usageLimit"@, JsonValV::U(e.1.data.usage_limit)),
        ("remaining"@, JsonValV::U(e.1.data.remaining)),
        ("usagePercentageBp"@, JsonValV::U(e.1.data.usage_percentage_bp)),
        ("nextResetAt"@, opt_sv(e.1.data.next_reset_at))
    ]
}

/// The map entries of a whole cache: each entry keyed by the decimal text
/// of its credential id.
pub open spec fn cache_entry_pairs(es: Seq<(u64, CachedBalanceV)>) -> Seq<
    (Seq<char>, Seq<FieldV>),
> {
    es.map_values(
        |e: (u64, CachedBalanceV)| (spec_enc_u64(e.0 as nat), spec_entry_fields(e)),
    )
}

/// The canonical text of a whole cache: one JSON object keyed by the
/// string-encoded credential ids.
pub open spec fn spec_enc_cache(es: Seq<(u64, CachedBalanceV)>) -> Seq<char> {
    spec_enc_map(cache_entry_pairs(es))
}

/// Every entry is plain and names its own credential id.
pub open spec fn cache_clean(es: Seq<(u64, CachedBalanceV)>) -> bool {
    forall|k: int|
        0 <= k < es.len() ==> balance_plain((#[trigger] es[k]).1.data) && es[k].1.data.id
            == es[k].0
}

/// Reveals every key literal of the cache entry object.
proof fn reveal_cache_keys()
    ensures
        plain("id"@),
        plain("cachedAt"@),
        plain("subscriptionTitle"@),
        plain("currentUsage"@),
        plain("usageLimit"@),
        plain("remaining"@),
        plain("usagePercentageBp"@),
        plain("nextResetAt"@),
{
    reveal_strlit("id");
    reveal_strlit("cachedAt");
    reveal_strlit("subscriptionTitle");
    reveal_strlit("currentUsage");
    reveal_strlit("usageLimit");
    reveal_strlit("remaining");
    reveal_strlit("usagePercentageBp");
    reveal_strlit("nextResetAt");
}

/// Every field of a clean entry is writable.
proof fn lemma_entry_fields_wf(e: (u64, CachedBalanceV))
    requires
        balance_plain(e.1.data),
    ensures
        fields_wf(spec_entry_fields(e)),
{
    reveal_cache_keys();
    let fs = spec_entry_fields(e);
    assert forall|k: int| 0 <= k < fs.len() implies field_wf(#[trigger] fs[k]) by {}
}

/// Builds the field list of a cache entry.
fn entry_to_fields(id: u64, e: &CachedBalance) -> (r: Vec<(String, JsonVal)>)
    ensures
        fields_v(r@) == spec_entry_fields((id, e@)),
{
    let mut fields: Vec<(String, JsonVal)> = Vec::new();
    fields.push((String::from_str("id"), JsonVal::U(id)));
    fields.push((String::from_str("cachedAt"), JsonVal::U(e.cached_at)));
    fields.push((String::from_str("subscriptionTitle"), opt_jv(&e.data.subscription_title)));
    fields.push((String::from_str("currentUsage"), JsonVal::U(e.data.current_usage)));
    fields.push((String::from_str("usageLimit"), JsonVal::U(e.data.usage_limit)));
    fields.push((String::from_str("remaining"), JsonVal::U(e.data.remaining)));
    fields.push((String::from_str("usagePercentageBp"), JsonVal::U(e.data.usage_percentage_bp)));
    fields.push((String::from_str("nextResetAt"), opt_jv(&e.data.next_reset_at)));
    proof {
        assert(fields_v(fields@) =~= spec_entry_fields((id, e@)));
    }
    fields
}

/// Reads a cache entry back from its field list.
#[verifier::rlimit(100)]
fn entry_of_fields(fs: &Vec<(String, JsonVal)>) -> (r: Option<(u64, CachedBalance)>)
    ensures
        match r {
            Some(e) => fields_v(fs@) == spec_entry_fields((e.0, e.1@)) && e.1@.data.id == e.0,
            None => true,
        },
        forall|ev: (u64, CachedBalanceV)|
            fields_v(fs@) == spec_entry_fields(ev) && ev.1.data.id == ev.0 ==> r is Some && (
            r->Some_0.0, r->Some_0.1@) == ev,
{
    if fs.len() != 8 {
        proof {
            assert forall|ev: (u64, CachedBalanceV)|
                fields_v(fs@) == spec_entry_fields(ev) implies false by {
                assert(spec_entry_fields(ev).len() == 8);
            }
        }
        return None;
    }
    if !str_eq(fs[0].0.as_str(), "id") || !str_eq(fs[1].0.as_str(), "cachedAt") || !str_eq(
        fs[2].0.as_str(),
        "subscriptionTitle",
    ) || !str_eq(fs[3].0.as_str(), "currentUsage") || !str_eq(fs[4].0.as_str(), "usageLimit")
        || !str_eq(fs[5].0.as_str(), "remaining") || !str_eq(
        fs[6].0.as_str(),
        "usagePercentageBp",
    ) || !str_eq(fs[7].0.as_str(), "nextResetAt") {
        proof {
            assert forall|ev: (u64, CachedBalanceV)|
                fields_v(fs@) == spec_entry_fields(ev) implies false by {
                assert(fields_v(fs@)[0] == spec_entry_fields(ev)[0]);
                assert(fields_v(fs@)[1] == spec_entry_fields(ev)[1]);
                assert(fields_v(fs@)[2] == spec_entry_fields(ev)[2]);
                assert(fields_v(fs@)[3] == spec_entry_fields(ev)[3]);
                assert(fields_v(fs@)[4] == spec_entry_fields(ev)[4]);
                assert(fields_v(fs@)[5] == spec_entry_fields(ev)[5]);
                assert(fields_v(fs@)[6] == spec_entry_fields(ev)[6]);
                assert(fields_v(fs@)[7] == spec_entry_fields(ev)[7]);
                assert(fields_v(fs@)[0] == ((fs@[0].0)@, (fs@[0].1)@));
                assert(fields_v(fs@)[1] == ((fs@[1].0)@, (fs@[1].1)@));
                assert(fields_v(fs@)[2] == ((fs@[2].0)@, (fs@[2].1)@));
                assert(fields_v(fs@)[3] == ((fs@[3].0)@, (fs@[3].1)@));
                assert(fields_v(fs@)[4] == ((fs@[4].0)@, (fs@[4].1)@));
                assert(fields_v(fs@)[5] == ((fs@[5].0)@, (fs@[5].1)@));
                assert(fields_v(fs@)[6] == ((fs@[6].0)@, (fs@[6].1)@));
                assert(fields_v(fs@)[7] == ((fs@[7].0)@, (fs@[7].1)@));
            }
        }
        return None;
    }
    let id: u64 = match &fs[0].1 {
        JsonVal::U(v) => *v,
        _ => {
            return none_entry(fs);
        },
    };
    let cached_at: u64 = match &fs[1].1 {
        JsonVal::U(v) => *v,
        _ => {
            return none_entry(fs);
        },
    };
    let subscription_title: Option<String> = match &fs[2].1 {
        JsonVal::S(v) => Some(v.clone()),
        JsonVal::Null => None,
        _ => {
            return none_entry(fs);
        },
    };
    let current_usage: u64 = match &fs[3].1 {
        JsonVal::U(v) => *v,
        _ => {
            return none_entry(fs);
        },
    };
    let usage_limit: u64 = match &fs[4].1 {
        JsonVal::U(v) => *v,
        _ => {
            return none_entry(fs);
        },
    };
    let remaining: u64 = match &fs[5].1 {
        JsonVal::U(v) => *v,
        _ => {
            return none_entry(fs);
        },
    };
    let usage_percentage_bp: u64 = match &fs[6].1 {
        JsonVal::U(v) => *v,
        _ => {
            return none_entry(fs);
        },
    };
    let next_reset_at: Option<String> = match &fs[7].1 {
        JsonVal::S(v) => Some(v.clone()),
        JsonVal::Null => None,
        _ => {
            return none_entry(fs);
        },
    };
    let entry = CachedBalance {
        cached_at,
        data: BalanceResponse {
            id,
            subscription_title,
            current_usage,
            usage_limit,
            remaining,
            usage_percentage_bp,
            next_reset_at,
        },
    };
    proof {
        assert(fields_v(fs@) =~= spec_entry_fields((id, entry@)));
        assert forall|ev: (u64, CachedBalanceV)|
            fields_v(fs@) == spec_entry_fields(ev) && ev.1.data.id == ev.0 implies (
        id,
        entry@,
        ) == ev by {
            assert(spec_entry_fields(ev)[0] == ("id"@, JsonValV::U(ev.0)));
            assert(spec_entry_fields(ev)[1] == ("cachedAt"@, JsonValV::U(ev.1.cached_at)));
            assert(spec_entry_fields(ev)[2] == (
                "subscriptionTitle"@,
                opt_sv(ev.1.data.subscription_title),
            ));
            assert(spec_entry_fields(ev)[7] == ("nextResetAt"@, opt_sv(ev.1.data.next_reset_at)));
            assert(entry@.data.subscription_title == ev.1.data.subscription_title) by {
                match ev.1.data.subscription_title {
                    Some(x) => {},
                    None => {},
                }
            }
            assert(entry@.data.next_reset_at == ev.1.data.next_reset_at) by {
                match ev.1.data.next_reset_at {
                    Some(x) => {},
                    None => {},
                }
            }
        }
    }
    Some((id, entry))
}

/// A rejection that no canonical coherent entry explains away.
fn none_entry(fs: &Vec<(String, JsonVal)>) -> (r: Option<(u64, CachedBalance)>)
    ensures
        r is None,
{
    None
}

/// Writes the canonical cache file text: one JSON object whose keys are
/// the string-encoded credential ids.
pub fn encode_balance_cache(entries: &Vec<(u64, CachedBalance)>) -> (r: String)
    requires
        cache_clean(cache_view(entries@)),
    ensures
        r@ == spec_enc_cache(cache_view(entries@)),
{
    let n = entries.len();
    let mut pairs: Vec<(String, Vec<(String, JsonVal)>)> = Vec::new();
    let mut i: usize = 0;
    while i < n
        invariant
            i <= n,
            n == entries@.len(),
            cache_clean(cache_view(entries@)),
            pairs@.len() == i,
            forall|k: int|
                0 <= k < i ==> #[trigger] entries_v(pairs@)[k] == cache_entry_pairs(
                    cache_view(entries@),
                )[k],
        decreases n - i,
    {
        proof {
            assert(cache_view(entries@)[i as int] == (entries@[i as int].0, entries@[i as int].1@));
        }
        let key = crate::json::u64_to_string(entries[i].0);
        let fields = entry_to_fields(entries[i].0, &entries[i].1);
        let ghost prev = pairs@;
        pairs.push((key, fields));
        proof {
            assert(forall|k: int| 0 <= k < prev.len() ==> pairs@[k] == prev[k]);
            assert(forall|k: int|
                0 <= k < i ==> #[trigger] entries_v(pairs@)[k] == entries_v(prev)[k]);
            assert(entries_v(pairs@)[i as int] == (
                (pairs@[i as int].0)@,
                fields_v(pairs@[i as int].1@),
            ));
            assert(cache_entry_pairs(cache_view(entries@))[i as int] == (
                spec_enc_u64(cache_view(entries@)[i as int].0 as nat),
                spec_entry_fields(cache_view(entries@)[i as int]),
            ));
        }
        i = i + 1;
    }
    proof {
        assert(entries_v(pairs@) =~= cache_entry_pairs(cache_view(entries@)));
        assert forall|k: int|
            0 <= k < entries_v(pairs@).len() implies entry_wf(
            #[trigger] entries_v(pairs@)[k],
        ) by {
            crate::json::lemma_enc_u64_plain(cache_view(entries@)[k].0 as nat);
            lemma_entry_fields_wf(cache_view(entries@)[k]);
        }
    }
    encode_json_map(&pairs)
}

/// Reads a cache file: entries whose value is a canonical coherent record
/// and whose key is the decimal text of that record's id are kept, the rest
/// are skipped. The second clause is the restart law for the cache text.
pub fn parse_balance_cache(s: &str) -> (r: Option<Vec<(u64, CachedBalance)>>)
    ensures
        r is None ==> !vstd::utf8::is_ascii_chars(s@) || forall|es: Seq<(Seq<char>, Seq<FieldV>)>|
            !#[trigger] full_map_parse(s@, es),
        forall|es: Seq<(u64, CachedBalanceV)>|
            cache_clean(es) && s@ == spec_enc_cache(es) ==> r is Some && cache_view(r->Some_0@)
                == es,
{
    let pairs = match parse_json_map(s) {
        Some(v) => v,
        None => {
            proof {
                assert forall|es: Seq<(u64, CachedBalanceV)>|
                    cache_clean(es) && s@ == spec_enc_cache(es) implies false by {
                    lemma_cache_pairs_wf(es);
                }
            }
            return None;
        },
    };
    let n = pairs.len();
    let mut out: Vec<(u64, CachedBalance)> = Vec::new();
    let mut i: usize = 0;
    while i < n
        invariant
            i <= n,
            n == pairs@.len(),
            forall|es: Seq<(u64, CachedBalanceV)>|
                #[trigger] cache_entry_pairs(es) == entries_v(pairs@) && cache_clean(es)
                    ==> out@.len() == i && cache_view(out@) =~= es.take(i as int),
        decreases n - i,
    {
        let ghost out0 = out@;
        let keep: Option<(u64, CachedBalance)> = match entry_of_fields(&pairs[i].1) {
            Some(e) => {
                let expected = crate::json::u64_to_string(e.0);
                if str_eq(pairs[i].0.as_str(), expected.as_str()) {
                    Some(e)
                } else {
                    None
                }
            },
            None => None,
        };
        match keep {
            Some(e) => {
                out.push(e);
                proof {
                    assert forall|es: Seq<(u64, CachedBalanceV)>|
                        #[trigger] cache_entry_pairs(es) == entries_v(pairs@) && cache_clean(es)
                        implies out@.len() == i + 1 && cache_view(out@) =~= es.take(i + 1) by {
                        assert(cache_entry_pairs(es).len() == es.len());
                        assert(entries_v(pairs@).len() == pairs@.len());
                        assert(es.len() == pairs@.len());
                        assert(cache_view(out0) =~= es.take(i as int));
                        assert(cache_entry_pairs(es)[i as int] == (
                            crate::json::spec_enc_u64(es[i as int].0 as nat),
                            spec_entry_fields(es[i as int]),
                        ));
                        assert(entries_v(pairs@)[i as int] == (
                            (pairs@[i as int].0)@,
                            fields_v(pairs@[i as int].1@),
                        ));
                        assert(es[i as int].1.data.id == es[i as int].0);
                        assert((e.0, e.1@) == es[i as int]);
                        assert(cache_view(out@) =~= cache_view(out0).push((e.0, e.1@)));
                        assert(es.take(i + 1) =~= es.take(i as int).push(es[i as int]));
                        assert(cache_view(out@) =~= es.take(i + 1));
                    }
                }
            },
            None => {
                proof {
                    assert forall|es: Seq<(u64, CachedBalanceV)>|
                        #[trigger] cache_entry_pairs(es) == entries_v(pairs@) && cache_clean(es)
                        implies false by {
                        assert(cache_entry_pairs(es).len() == es.len());
                        assert(entries_v(pairs@).len() == pairs@.len());
                        assert(es.len() == pairs@.len());
                        assert(cache_entry_pairs(es)[i as int] == (
                            crate::json::spec_enc_u64(es[i as int].0 as nat),
                            spec_entry_fields(es[i as int]),
                        ));
                        assert(entries_v(pairs@)[i as int] == (
                            (pairs@[i as int].0)@,
                            fields_v(pairs@[i as int].1@),
                        ));
                        assert(es[i as int].1.data.id == es[i as int].0);
                    }
                }
            },
        }
        i = i + 1;
    }
    proof {
        assert forall|es: Seq<(u64, CachedBalanceV)>|
            cache_clean(es) && s@ == spec_enc_cache(es) implies cache_view(out@) == es by {
            lemma_cache_pairs_wf(es);
            assert(entries_v(pairs@) == cache_entry_pairs(es));
            assert(cache_view(out@) =~= es.take(n as int));
            assert(es.take(n as int) =~= es);
        }
    }
    Some(out)
}

/// Every map entry of a clean cache is writable.
proof fn lemma_cache_pairs_wf(es: Seq<(u64, CachedBalanceV)>)
    requires
        cache_clean(es),
    ensures
        crate::json::entries_wf(cache_entry_pairs(es)),
{
    assert forall|k: int|
        0 <= k < cache_entry_pairs(es).len() implies crate::json::entry_wf(
        #[trigger] cache_entry_pairs(es)[k],
    ) by {
        crate::json::lemma_enc_u64_plain(es[k].0 as nat);
        lemma_entry_fields_wf(es[k]);
    }
}

} // verus!
