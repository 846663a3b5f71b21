//! The observable Cloud Pass worker state: written by the worker, read by
//! the administrative surface. The surrounding application shares it behind
//! a reader-writer lock; this module carries the record and its
//! transitions.

use vstd::prelude::*;
use crate::strutil::opt_view;
use crate::clock::now_rfc3339;

verus! {

/// The worker's observable status.
#[derive(Clone, Debug)]
pub struct CloudPassStatusInner {
    /// Whether Cloud Pass is configured at all.
    pub enabled: bool,
    /// Whether at least one refresh succeeded.
    pub connected: bool,
    pub server_url: String,
    pub device_id: String,
    /// The license code, masked: its first six characters and three stars.
    pub license_code_masked: String,
    /// Scheduled refresh interval in seconds.
    pub refresh_interval: u64,
    pub reassign: bool,
    pub client_version: String,
    /// When the last refresh finished, RFC 3339.
    pub last_refresh_at: Option<String>,
    pub last_refresh_ok: bool,
    pub last_refresh_error: Option<String>,
    pub refresh_success_count: u64,
    pub refresh_failure_count: u64,
    pub license_expires_at: Option<String>,
    /// Whether the server reported another device took the license slot.
    pub kicked: bool,
    /// The credential id of the most recent injection.
    pub injected_credential_id: Option<u64>,
}

/// The mask of a license code: its first six characters, or all of a
/// shorter code, then three stars.
pub open spec fn spec_masked(code: Seq<char>) -> Seq<char> {
    (if code.len() > 6 {
        code.subrange(0, 6)
    } else {
        code
    }) + "***"@
}

/// Masks a license code for display.
pub fn mask_license_code(code: &str) -> (r: String)
    ensures
        r@ == spec_masked(code@),
{
    let len = code.unicode_len();
    let prefix = if len > 6 {
        code.substring_char(0, 6)
    } else {
        code.substring_char(0, len)
    };
    let mut out = prefix.to_owned();
    out.append("***");
    proof {
        assert(code@.subrange(0, code@.len() as int) =~= code@);
    }
    out
}

impl CloudPassStatusInner {
    /// The status of an instance without Cloud Pass configured.
    pub fn disabled() -> (r: Self)
        ensures
            !r.enabled,
            !r.connected,
            r.server_url@.len() == 0,
            r.device_id@.len() == 0,
            r.license_code_masked@.len() == 0,
            r.refresh_interval == 0,
            !r.reassign,
            r.client_version@.len() == 0,
            r.last_refresh_at is None,
            !r.last_refresh_ok,
            r.last_refresh_error is None,
            r.refresh_success_count == 0,
            r.refresh_failure_count == 0,
            r.license_expires_at is None,
            !r.kicked,
            r.injected_credential_id is None,
    {
        CloudPassStatusInner {
            enabled: false,
            connected: false,
            server_url: String::new(),
            device_id: String::new(),
            license_code_masked: String::new(),
            refresh_interval: 0,
            reassign: false,
            client_version: String::new(),
            last_refresh_at: None,
            last_refresh_ok: false,
            last_refresh_error: None,
            refresh_success_count: 0,
            refresh_failure_count: 0,
            license_expires_at: None,
            kicked: false,
            injected_credential_id: None,
        }
    }

    /// The initial status of a configured instance: enabled, not yet
    /// connected, with the license code masked.
    pub fn from_config(
        server_url: &str,
        device_id: &str,
        license_code: &str,
        refresh_interval: u64,
        reassign: bool,
        client_version: &str,
    ) -> (r: Self)
        ensures
            r.enabled,
            !r.connected,
            r.server_url@ == server_url@,
            r.device_id@ == device_id@,
            r.license_code_masked@ == spec_masked(license_code@),
            r.refresh_interval == refresh_interval,
            r.reassign == reassign,
            r.client_version@ == client_version@,
            r.last_refresh_at is None,
            !r.last_refresh_ok,
            r.last_refresh_error is None,
            r.refresh_success_count == 0,
            r.refresh_failure_count == 0,
            r.license_expires_at is None,
            !r.kicked,
            r.injected_credential_id is None,
    {
        CloudPassStatusInner {
            enabled: true,
            connected: false,
            server_url: server_url.to_owned(),
            device_id: device_id.to_owned(),
            license_code_masked: mask_license_code(license_code),
            refresh_interval,
            reassign,
            client_version: client_version.to_owned(),
            last_refresh_at: None,
            last_refresh_ok: false,
            last_refresh_error: None,
            refresh_success_count: 0,
            refresh_failure_count: 0,
            license_expires_at: None,
            kicked: false,
            injected_credential_id: None,
        }
    }

    /// Records a successful refresh at a given time: the instance counts as
    /// connected, the error clears, the success count grows, the kicked
    /// flag takes the server's word, and the injected id and license expiry
    /// are replaced only when the refresh carried them.
    pub fn record_success_at(
        &mut self,
        credential_id: Option<u64>,
        license_expires_at: Option<String>,
        kicked: bool,
        at: String,
    )
        ensures
            final(self).connected,
            opt_view(final(self).last_refresh_at) == Some(at@),
            final(self).last_refresh_ok,
            final(self).last_refresh_error is None,
            final(self).refresh_success_count == (if old(self).refresh_success_count < u64::MAX {
                old(self).refresh_success_count + 1
            } else {
                old(self).refresh_success_count as int
            }),
            final(self).kicked == kicked,
            final(self).injected_credential_id == (if credential_id is Some {
                credential_id
            } else {
                old(self).injected_credential_id
            }),
            opt_view(final(self).license_expires_at) == (if license_expires_at is Some {
                opt_view(license_expires_at)
            } else {
                opt_view(old(self).license_expires_at)
            }),
            final(self).enabled == old(self).enabled,
            final(self).server_url@ == old(self).server_url@,
            final(self).device_id@ == old(self).device_id@,
            final(self).license_code_masked@ == old(self).license_code_masked@,
            final(self).refresh_interval == old(self).refresh_interval,
            final(self).reassign == old(self).reassign,
            final(self).client_version@ == old(self).client_version@,
            final(self).refresh_failure_count == old(self).refresh_failure_count,
    {
        self.connected = true;
        self.last_refresh_at = Some(at);
        self.last_refresh_ok = true;
        self.last_refresh_error = None;
        if self.refresh_success_count < u64::MAX {
            self.refresh_success_count = self.refresh_success_count + 1;
        }
        self.kicked = kicked;
        if let Some(id) = credential_id {
            self.injected_credential_id = Some(id);
        }
        if license_expires_at.is_some() {
            self.license_expires_at = license_expires_at;
        }
    }

    /// Records a successful refresh at the present wall-clock time.
    pub fn record_success(
        &mut self,
        credential_id: Option<u64>,
        license_expires_at: Option<String>,
        kicked: bool,
    )
        ensures
            final(self).connected,
            final(self).last_refresh_at is Some,
            final(self).last_refresh_ok,
            final(self).last_refresh_error is None,
            final(self).refresh_success_count == (if old(self).refresh_success_count < u64::MAX {
                old(self).refresh_success_count + 1
            } else {
                old(self).refresh_success_count as int
            }),
            final(self).kicked == kicked,
            final(self).injected_credential_id == (if credential_id is Some {
                credential_id
            } else {
                old(self).injected_credential_id
            }),
            opt_view(final(self).license_expires_at) == (if license_expires_at is Some {
                opt_view(license_expires_at)
            } else {
                opt_view(old(self).license_expires_at)
            }),
            final(self).enabled == old(self).enabled,
            final(self).server_url@ == old(self).server_url@,
            final(self).device_id@ == old(self).device_id@,
            final(self).license_code_masked@ == old(self).license_code_masked@,
            final(self).refresh_interval == old(self).refresh_interval,
            final(self).reassign == old(self).reassign,
            final(self).client_version@ == old(self).client_version@,
            final(self).refresh_failure_count == old(self).refresh_failure_count,
    {
        let at = now_rfc3339();
        self.record_success_at(credential_id, license_expires_at, kicked, at);
    }

    /// Records a failed refresh at a given time: the failure count grows
    /// and the error is remembered.
    pub fn record_failure_at(&mut self, error: String, at: String)
        ensures
            opt_view(final(self).last_refresh_at) == Some(at@),
            !final(self).last_refresh_ok,
            opt_view(final(self).last_refresh_error) == Some(error@),
            final(self).refresh_failure_count == (if old(self).refresh_failure_count < u64::MAX {
                old(self).refresh_failure_count + 1
            } else {
                old(self).refresh_failure_count as int
            }),
            final(self).connected == old(self).connected,
            final(self).enabled == old(self).enabled,
            final(self).kicked == old(self).kicked,
            final(self).injected_credential_id == old(self).injected_credential_id,
            final(self).refresh_success_count == old(self).refresh_success_count,
            opt_view(final(self).license_expires_at) == opt_view(old(self).license_expires_at),
            final(self).server_url@ == old(self).server_url@,
            final(self).device_id@ == old(self).device_id@,
            final(self).license_code_masked@ == old(self).license_code_masked@,
            final(self).refresh_interval == old(self).refresh_interval,
            final(self).reassign == old(self).reassign,
            final(self).client_version@ == old(self).client_version@,
    {
        self.last_refresh_at = Some(at);
        self.last_refresh_ok = false;
        self.last_refresh_error = Some(error);
        if self.refresh_failure_count < u64::MAX {
            self.refresh_failure_count = self.refresh_failure_count + 1;
        }
    }

    /// Records a failed refresh at the present wall-clock time.
    pub fn record_failure(&mut self, error: String)
        ensures
            final(self).last_refresh_at is Some,
            !final(self).last_refresh_ok,
            opt_view(final(self).last_refresh_error) == Some(error@),
            final(self).refresh_failure_count == (if old(self).refresh_failure_count < u64::MAX {
                old(self).refresh_failure_count + 1
            } else {
                old(self).refresh_failure_count as int
            }),
            final(self).connected == old(self).connected,
            final(self).enabled == old(self).enabled,
            final(self).kicked == old(self).kicked,
            final(self).refresh_success_count == old(self).refresh_success_count,
            final(self).injected_credential_id == old(self).injected_credential_id,
            opt_view(final(self).license_expires_at) == opt_view(old(self).license_expires_at),
            final(self).server_url@ == old(self).server_url@,
            final(self).device_id@ == old(self).device_id@,
            final(self).license_code_masked@ == old(self).license_code_masked@,
            final(self).refresh_interval == old(self).refresh_interval,
            final(self).reassign == old(self).reassign,
            final(self).client_version@ == old(self).client_version@,
    {
        let at = now_rfc3339();
        self.record_failure_at(error, at);
    }

    /// Records that the server kicked this device.
    pub fn record_kicked(&mut self)
        ensures
            final(self).kicked,
            final(self).connected == old(self).connected,
            final(self).enabled == old(self).enabled,
            final(self).last_refresh_ok == old(self).last_refresh_ok,
            final(self).refresh_success_count == old(self).refresh_success_count,
            final(self).refresh_failure_count == old(self).refresh_failure_count,
            final(self).injected_credential_id == old(self).injected_credential_id,
    {
        self.kicked = true;
    }
}

} // verus!
