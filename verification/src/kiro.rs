//! The credential-file model of the upstream IDE: a flat JSON object of
//! optional string fields.

use vstd::prelude::*;
use crate::strutil::{opt_view, opt_plain, opt_is_plain};
use crate::json::{
    JsonVal, JsonValV, FieldV, fields_v, full_obj_parse, find_sv, parse_json_object,
    find_string_field, encode_json_object, spec_enc_obj, field_wf, fields_wf,
};

verus! {

/// A credential record as the IDE's file stores it.
#[derive(Clone, Debug)]
pub struct KiroCredentials {
    pub access_token: Option<String>,
    pub refresh_token: Option<String>,
    pub profile_arn: Option<String>,
    /// RFC 3339.
    pub expires_at: Option<String>,
    pub auth_method: Option<String>,
    pub provider: Option<String>,
}

/// The mathematical value of the record.
pub struct KiroCredentialsV {
    pub access_token: Option<Seq<char>>,
    pub refresh_token: Option<Seq<char>>,
    pub profile_arn: Option<Seq<char>>,
    pub expires_at: Option<Seq<char>>,
    pub auth_method: Option<Seq<char>>,
    pub provider: Option<Seq<char>>,
}

impl View for KiroCredentials {
    type V = KiroCredentialsV;

    open spec fn view(&self) -> KiroCredentialsV {
        KiroCredentialsV {
            access_token: opt_view(self.access_token),
            refresh_token: opt_view(self.refresh_token),
            profile_arn: opt_view(self.profile_arn),
            expires_at: opt_view(self.expires_at),
            auth_method: opt_view(self.auth_method),
            provider: opt_view(self.provider),
        }
    }
}

/// The record a parsed object denotes: each field is the first string
/// stored under its camel-case key; unknown keys are ignored.
pub open spec fn kiro_of_fields(fs: Seq<FieldV>) -> KiroCredentialsV {
    KiroCredentialsV {
        access_token: find_sv(fs, "accessToken"@),
        refresh_token: find_sv(fs, "refreshToken"@),
        profile_arn: find_sv(fs, "profileArn"@),
        expires_at: find_sv(fs, "expiresAt"@),
        auth_method: find_sv(fs, "authMethod"@),
        provider: find_sv(fs, "provider"@),
    }
}

/// The field list the record serializes to: absent fields are left out.
pub open spec fn kiro_fields(c: KiroCredentialsV) -> Seq<FieldV> {
    opt_field("accessToken"@, c.access_token) + opt_field("refreshToken"@, c.refresh_token)
        + opt_field("profileArn"@, c.profile_arn) + opt_field("expiresAt"@, c.expires_at)
        + opt_field("authMethod"@, c.auth_method) + opt_field("provider"@, c.provider)
}

/// One field when the value is present, nothing otherwise.
pub open spec fn opt_field(key: Seq<char>, v: Option<Seq<char>>) -> Seq<FieldV> {
    match v {
        Some(s) => seq![(key, JsonValV::S(s))],
        None => Seq::empty(),
    }
}

impl KiroCredentials {
    /// Default location of the credential file.
    pub fn default_credentials_path() -> (r: &'static str)
        ensures
            r@ == "credentials.json"@,
    {
        "credentials.json"
    }

    /// Parses a credential record from JSON text: the object's known keys
    /// are picked up, unknown keys are ignored.
    pub fn from_json(json_string: &str) -> (r: Option<KiroCredentials>)
        ensures
            match r {
                Some(c) => exists|fs: Seq<FieldV>|
                    #[trigger] full_obj_parse(json_string@, fs) && c@ == kiro_of_fields(fs),
                None => !vstd::utf8::is_ascii_chars(json_string@) || forall|fs: Seq<FieldV>|
                    !#[trigger] full_obj_parse(json_string@, fs),
            },
            forall|fs: Seq<FieldV>|
                fields_wf(fs) && json_string@ == spec_enc_obj(fs) ==> r is Some && r->Some_0@
                    == kiro_of_fields(fs),
    {
        let fields = match parse_json_object(json_string) {
            Some(v) => v,
            None => {
                return None;
            },
        };
        let c = KiroCredentials {
            access_token: find_string_field(&fields, "accessToken"),
            refresh_token: find_string_field(&fields, "refreshToken"),
            profile_arn: find_string_field(&fields, "profileArn"),
            expires_at: find_string_field(&fields, "expiresAt"),
            auth_method: find_string_field(&fields, "authMethod"),
            provider: find_string_field(&fields, "provider"),
        };
        proof {
            assert(c@ == kiro_of_fields(fields_v(fields@)));
        }
        Some(c)
    }

    /// Serializes the record: one JSON object holding exactly the present
    /// fields, in a fixed order. Fields with characters the codec cannot
    /// write are refused.
    pub fn to_pretty_json(&self) -> (r: Option<String>)
        ensures
            match r {
                Some(out) => out@ == spec_enc_obj(kiro_fields(self@)),
                None => !(opt_plain(opt_view(self.access_token)) && opt_plain(
                    opt_view(self.refresh_token),
                ) && opt_plain(opt_view(self.profile_arn)) && opt_plain(
                    opt_view(self.expires_at),
                ) && opt_plain(opt_view(self.auth_method)) && opt_plain(
                    opt_view(self.provider),
                )),
            },
    {
        if !(opt_is_plain(&self.access_token) && opt_is_plain(&self.refresh_token)
            && opt_is_plain(&self.profile_arn) && opt_is_plain(&self.expires_at) && opt_is_plain(
            &self.auth_method,
        ) && opt_is_plain(&self.provider)) {
            return None;
        }
        let mut fields: Vec<(String, JsonVal)> = Vec::new();
        push_opt(&mut fields, "accessToken", &self.access_token);
        push_opt(&mut fields, "refreshToken", &self.refresh_token);
        push_opt(&mut fields, "profileArn", &self.profile_arn);
        push_opt(&mut fields, "expiresAt", &self.expires_at);
        push_opt(&mut fields, "authMethod", &self.auth_method);
        push_opt(&mut fields, "provider", &self.provider);
        proof {
            assert(fields_v(fields@) =~= kiro_fields(self@));
            reveal_strlit("accessToken");
            reveal_strlit("refreshToken");
            reveal_strlit("profileArn");
            reveal_strlit("expiresAt");
            reveal_strlit("authMethod");
            reveal_strlit("provider");
            assert forall|k: int|
                0 <= k < fields_v(fields@).len() implies field_wf(
                #[trigger] fields_v(fields@)[k],
            ) by {}
        }
        Some(encode_json_object(&fields))
    }
}

/// Every field the record serializes to is writable, provided the record's
/// fields are plain.
pub proof fn lemma_kiro_fields_wf(c: KiroCredentialsV)
    requires
        opt_plain(c.access_token),
        opt_plain(c.refresh_token),
        opt_plain(c.profile_arn),
        opt_plain(c.expires_at),
        opt_plain(c.auth_method),
        opt_plain(c.provider),
    ensures
        fields_wf(kiro_fields(c)),
{
    reveal_strlit("accessToken");
    reveal_strlit("refreshToken");
    reveal_strlit("profileArn");
    reveal_strlit("expiresAt");
    reveal_strlit("authMethod");
    reveal_strlit("provider");
    let fs = kiro_fields(c);
    assert forall|k: int| 0 <= k < fs.len() implies field_wf(#[trigger] fs[k]) by {
        lemma_opt_field_wf("accessToken"@, c.access_token);
        lemma_opt_field_wf("refreshToken"@, c.refresh_token);
        lemma_opt_field_wf("profileArn"@, c.profile_arn);
        lemma_opt_field_wf("expiresAt"@, c.expires_at);
        lemma_opt_field_wf("authMethod"@, c.auth_method);
        lemma_opt_field_wf("provider"@, c.provider);
    }
}

/// An optional field of a plain key and a plain value is writable.
proof fn lemma_opt_field_wf(key: Seq<char>, v: Option<Seq<char>>)
    requires
        crate::strutil::plain(key),
        opt_plain(v),
    ensures
        forall|k: int| 0 <= k < opt_field(key, v).len() ==> field_wf(#[trigger] opt_field(key, v)[k]),
{
}

/// Looking a key up in an optional field block and a remainder: a present
/// field answers for its own key; everything else falls through.
proof fn lemma_find_sv_prepend(
    key0: Seq<char>,
    v0: Option<Seq<char>>,
    rest: Seq<FieldV>,
    k: Seq<char>,
)
    ensures
        find_sv(opt_field(key0, v0) + rest, k) == (if k == key0 && v0 is Some {
            v0
        } else {
            find_sv(rest, k)
        }),
{
    match v0 {
        Some(s) => {
            let fs = opt_field(key0, v0) + rest;
            assert(fs.len() == 1 + rest.len());
            assert(fs[0] == (key0, JsonValV::S(s)));
            if k == key0 {
            } else {
                assert(fs.skip(1) =~= rest);
            }
        },
        None => {
            assert(opt_field(key0, v0) + rest =~= rest);
        },
    }
}

/// Serializing a record and reading the canonical fields back recovers the
/// record: with `to_pretty_json`'s and `from_json`'s contracts this is the
/// serialize-then-parse identity for one credential record.
pub proof fn lemma_kiro_round_trip(c: KiroCredentialsV)
    ensures
        kiro_of_fields(kiro_fields(c)) == c,
{
    reveal_strlit("accessToken");
    reveal_strlit("refreshToken");
    reveal_strlit("profileArn");
    reveal_strlit("expiresAt");
    reveal_strlit("authMethod");
    reveal_strlit("provider");
    let b1 = opt_field("accessToken"@, c.access_token);
    let b2 = opt_field("refreshToken"@, c.refresh_token);
    let b3 = opt_field("profileArn"@, c.profile_arn);
    let b4 = opt_field("expiresAt"@, c.expires_at);
    let b5 = opt_field("authMethod"@, c.auth_method);
    let b6 = opt_field("provider"@, c.provider);
    let fs = kiro_fields(c);
    assert(fs =~= b1 + (b2 + (b3 + (b4 + (b5 + (b6 + Seq::<FieldV>::empty()))))));
    assert(b6 + Seq::<FieldV>::empty() =~= b6);
    assert forall|k: Seq<char>| true implies #[trigger] find_sv(fs, k) == (if k == "accessToken"@
        && c.access_token is Some {
        c.access_token
    } else if k == "refreshToken"@ && c.refresh_token is Some {
        c.refresh_token
    } else if k == "profileArn"@ && c.profile_arn is Some {
        c.profile_arn
    } else if k == "expiresAt"@ && c.expires_at is Some {
        c.expires_at
    } else if k == "authMethod"@ && c.auth_method is Some {
        c.auth_method
    } else if k == "provider"@ && c.provider is Some {
        c.provider
    } else {
        None
    }) by {
        lemma_find_sv_prepend("accessToken"@, c.access_token, b2 + (b3 + (b4 + (b5 + b6))), k);
        lemma_find_sv_prepend("refreshToken"@, c.refresh_token, b3 + (b4 + (b5 + b6)), k);
        lemma_find_sv_prepend("profileArn"@, c.profile_arn, b4 + (b5 + b6), k);
        lemma_find_sv_prepend("expiresAt"@, c.expires_at, b5 + b6, k);
        lemma_find_sv_prepend("authMethod"@, c.auth_method, b6, k);
        lemma_find_sv_prepend("provider"@, c.provider, Seq::<FieldV>::empty(), k);
        assert(fs =~= b1 + (b2 + (b3 + (b4 + (b5 + b6)))));
        assert(find_sv(Seq::<FieldV>::empty(), k) is None);
    }
    broadcast use vstd::string::group_string_axioms;

    assert("accessToken"@.len() == 11);
    assert("refreshToken"@.len() == 12);
    assert("profileArn"@.len() == 10);
    assert("expiresAt"@.len() == 9);
    assert("authMethod"@.len() == 10);
    assert("provider"@.len() == 8);
    assert("profileArn"@[0] == 'p');
    assert("authMethod"@[0] == 'a');
    assert("accessToken"@ != "refreshToken"@);
    assert("accessToken"@ != "profileArn"@);
    assert("accessToken"@ != "expiresAt"@);
    assert("accessToken"@ != "authMethod"@);
    assert("accessToken"@ != "provider"@);
    assert("refreshToken"@ != "profileArn"@);
    assert("refreshToken"@ != "expiresAt"@);
    assert("refreshToken"@ != "authMethod"@);
    assert("refreshToken"@ != "provider"@);
    assert("profileArn"@ != "expiresAt"@);
    assert("profileArn"@ != "authMethod"@);
    assert("profileArn"@ != "provider"@);
    assert("expiresAt"@ != "authMethod"@);
    assert("expiresAt"@ != "provider"@);
    assert("authMethod"@ != "provider"@);
    assert(kiro_of_fields(fs).access_token == find_sv(fs, "accessToken"@));
    assert(kiro_of_fields(fs).refresh_token == find_sv(fs, "refreshToken"@));
    assert(kiro_of_fields(fs).profile_arn == find_sv(fs, "profileArn"@));
    assert(kiro_of_fields(fs).expires_at == find_sv(fs, "expiresAt"@));
    assert(kiro_of_fields(fs).auth_method == find_sv(fs, "authMethod"@));
    assert(kiro_of_fields(fs).provider == find_sv(fs, "provider"@));
    assert(kiro_of_fields(fs).access_token == c.access_token);
    assert(kiro_of_fields(fs).refresh_token == c.refresh_token);
    assert(kiro_of_fields(fs).profile_arn == c.profile_arn);
    assert(kiro_of_fields(fs).expires_at == c.expires_at);
    assert(kiro_of_fields(fs).auth_method == c.auth_method);
    assert(kiro_of_fields(fs).provider == c.provider);
}

/// Appends one field when the value is present.
fn push_opt(fields: &mut Vec<(String, JsonVal)>, key: &str, v: &Option<String>)
    ensures
        fields_v(final(fields)@) == fields_v(old(fields)@) + opt_field(key@, opt_view(*v)),
{
    match v {
        Some(s) => {
            let ghost prev = fields@;
            fields.push((key.to_owned(), JsonVal::S(s.clone())));
            proof {
                assert(fields_v(fields@) =~= fields_v(prev) + opt_field(key@, opt_view(*v)));
            }
        },
        None => {
            proof {
                assert(fields_v(fields@) =~= fields_v(fields@) + opt_field(key@, opt_view(*v)));
            }
        },
    }
}

} // verus!
