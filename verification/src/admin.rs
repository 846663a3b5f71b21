//! The administrative service: business rules over the pool and the
//! balance cache, and the stable error taxonomy.

use vstd::prelude::*;
use crate::pool::{
    MultiTokenManager, PoolError, PoolSnapshot, SnapshotEntry, LoadBalancingMode, has_id, idx_of,
    enabled, some_enabled, is_best_enabled, count_enabled, token_taken, new_cred_view,
    is_rotation_target,
};
use crate::balance::{BalanceCache, BalanceResponse, entry_fresh, cache_has, cache_idx,
    spec_entry_of, balance_plain};
use crate::credential::{NewCredential, new_cred_plain, token_shape_ok};

verus! {

/// The stable error taxonomy every administrative surface reports.
#[derive(Clone, Copy, Debug, PartialEq, Eq, Structural)]
pub enum AdminError {
    /// Client-supplied data violates a rule.
    InvalidCredential,
    /// No credential has the id.
    NotFound { id: u64 },
    /// The upstream service failed.
    Upstream,
    /// Everything else.
    Internal,
}

/// What the upstream refresh or usage probe reported, as a typed kind.
#[derive(Clone, Copy, Debug, PartialEq, Eq, Structural)]
pub enum UpstreamError {
    /// The credential is expired or invalid.
    ExpiredOrInvalid,
    /// The upstream denied permission.
    PermissionDenied,
    /// The upstream rate-limited the credential.
    RateLimited,
    /// The upstream reported a server error.
    ServerError,
    /// The upstream is temporarily unavailable.
    TemporarilyUnavailable,
    /// The token refresh failed for another reported reason.
    RefreshFailed,
    /// The connection could not be established.
    ConnectFailed,
    /// The request timed out.
    Timeout,
    /// Anything else.
    Other,
}

/// Classifies a pool error from a simple mutator: a missing id is not
/// found; everything else is internal.
pub fn classify_error(e: PoolError, id: u64) -> (r: AdminError)
    ensures
        r == match e {
            PoolError::NotFound { id: n } => AdminError::NotFound { id },
            _ => AdminError::Internal,
        },
{
    match e {
        PoolError::NotFound { .. } => AdminError::NotFound { id },
        _ => AdminError::Internal,
    }
}

/// Classifies an upstream failure of a balance probe: every reported
/// upstream condition maps to the upstream kind; an unrecognized failure is
/// internal.
pub fn classify_balance_upstream(e: UpstreamError) -> (r: AdminError)
    ensures
        r == match e {
            UpstreamError::Other => AdminError::Internal,
            _ => AdminError::Upstream,
        },
{
    match e {
        UpstreamError::Other => AdminError::Internal,
        _ => AdminError::Upstream,
    }
}

/// Classifies a validation failure of an add: every shape or duplicate
/// finding is the client's; an exhausted id space is internal.
pub fn classify_add_pool_error(e: PoolError) -> (r: AdminError)
    ensures
        r == match e {
            PoolError::EmptyRefreshToken => AdminError::InvalidCredential,
            PoolError::TruncatedRefreshToken => AdminError::InvalidCredential,
            PoolError::MaskedRefreshToken => AdminError::InvalidCredential,
            PoolError::NonPlainField => AdminError::InvalidCredential,
            PoolError::DuplicateRefreshToken => AdminError::InvalidCredential,
            _ => AdminError::Internal,
        },
{
    match e {
        PoolError::EmptyRefreshToken => AdminError::InvalidCredential,
        PoolError::TruncatedRefreshToken => AdminError::InvalidCredential,
        PoolError::MaskedRefreshToken => AdminError::InvalidCredential,
        PoolError::NonPlainField => AdminError::InvalidCredential,
        PoolError::DuplicateRefreshToken => AdminError::InvalidCredential,
        _ => AdminError::Internal,
    }
}

/// Classifies an upstream failure of the one-shot probe an add performs:
/// an expired, denied or rate-limited credential is the client's; network
/// conditions and upstream server failures are the upstream kind, since the
/// taxonomy reports every upstream fault that way; the rest is internal.
pub fn classify_add_upstream(e: UpstreamError) -> (r: AdminError)
    ensures
        r == match e {
            UpstreamError::ExpiredOrInvalid => AdminError::InvalidCredential,
            UpstreamError::PermissionDenied => AdminError::InvalidCredential,
            UpstreamError::RateLimited => AdminError::InvalidCredential,
            UpstreamError::ConnectFailed => AdminError::Upstream,
            UpstreamError::Timeout => AdminError::Upstream,
            UpstreamError::ServerError => AdminError::Upstream,
            UpstreamError::TemporarilyUnavailable => AdminError::Upstream,
            UpstreamError::RefreshFailed => AdminError::Upstream,
            UpstreamError::Other => AdminError::Internal,
        },
{
    match e {
        UpstreamError::ExpiredOrInvalid => AdminError::InvalidCredential,
        UpstreamError::PermissionDenied => AdminError::InvalidCredential,
        UpstreamError::RateLimited => AdminError::InvalidCredential,
        UpstreamError::ConnectFailed => AdminError::Upstream,
        UpstreamError::Timeout => AdminError::Upstream,
        UpstreamError::ServerError => AdminError::Upstream,
        UpstreamError::TemporarilyUnavailable => AdminError::Upstream,
        UpstreamError::RefreshFailed => AdminError::Upstream,
        UpstreamError::Other => AdminError::Internal,
    }
}

/// One credential as the administrative surface reports it.
#[derive(Clone, Debug)]
pub struct CredentialStatusItem {
    pub id: u64,
    pub priority: u32,
    pub disabled: bool,
    pub failure_count: u32,
    pub is_current: bool,
    pub expires_at: Option<String>,
    pub auth_method: String,
    pub has_profile_arn: bool,
    pub success_count: u64,
    pub last_used_at: Option<String>,
    pub subscription_title: Option<String>,
    pub email: Option<String>,
}

/// The full status report: totals and one item per credential, ordered by
/// priority, ties by id.
#[derive(Clone, Debug)]
pub struct CredentialsStatusResponse {
    pub total: usize,
    pub available: usize,
    pub current_id: u64,
    pub credentials: Vec<CredentialStatusItem>,
}

/// The item projects this snapshot entry, with the cursor comparison.
pub open spec fn item_of_entry(it: CredentialStatusItem, e: SnapshotEntry, current_id: u64) -> bool {
    &&& it.id == e.id
    &&& it.priority == e.priority
    &&& it.disabled == e.disabled
    &&& it.failure_count == e.failure_count
    &&& it.is_current == (e.id == current_id)
    &&& crate::strutil::opt_view(it.expires_at) == crate::strutil::opt_view(e.expires_at)
    &&& it.auth_method@ == e.auth_method@
    &&& it.has_profile_arn == e.has_profile_arn
    &&& it.success_count == e.success_count
    &&& crate::strutil::opt_view(it.last_used_at) == crate::strutil::opt_view(e.last_used_at)
    &&& crate::strutil::opt_view(it.subscription_title) == crate::strutil::opt_view(
        e.subscription_title,
    )
    &&& crate::strutil::opt_view(it.email) == crate::strutil::opt_view(e.email)
}

/// Items ordered by priority, ties by id.
pub open spec fn items_sorted(s: Seq<CredentialStatusItem>) -> bool {
    forall|i: int, j: int|
        0 <= i < j < s.len() ==> ((#[trigger] s[i]).priority < (#[trigger] s[j]).priority || (
        s[i].priority == s[j].priority && s[i].id <= s[j].id))
}

/// The item occurs in the sequence.
pub open spec fn appears_in(s: Seq<CredentialStatusItem>, x: CredentialStatusItem) -> bool {
    exists|j: int| 0 <= j < s.len() && #[trigger] s[j] == x
}

/// The administrative service: the pool and the balance cache under one
/// roof. The surrounding application serializes calls and performs the
/// network probes between the two halves of a balance read.
#[derive(Debug)]
pub struct AdminService {
    pub pool: MultiTokenManager,
    pub cache: BalanceCache,
}

impl AdminService {
    /// Both halves are well-formed.
    pub open spec fn wf(&self) -> bool {
        self.pool.wf() && self.cache.wf()
    }

    /// Wraps a pool and a cache.
    pub fn new(pool: MultiTokenManager, cache: BalanceCache) -> (r: Self)
        ensures
            r.pool@ == pool@,
            r.cache@ == cache@,
    {
        AdminService { pool, cache }
    }

    /// The status report: one item per credential, sorted by priority with
    /// ties broken by id, each projecting its credential exactly.
    pub fn get_all_credentials(&self) -> (r: CredentialsStatusResponse)
        requires
            self.wf(),
        ensures
            r.total == self.pool@.creds.len(),
            r.available as int == count_enabled(self.pool@.creds),
            r.current_id == self.pool@.current_id,
            r.credentials@.len() == self.pool@.creds.len(),
            items_sorted(r.credentials@),
            forall|i: int|
                0 <= i < r.credentials@.len() ==> exists|k: int|
                    0 <= k < self.pool@.creds.len() && item_matches_cred(
                        #[trigger] r.credentials@[i],
                        self.pool@.creds[k],
                        self.pool@.current_id,
                    ),
            forall|k: int|
                0 <= k < self.pool@.creds.len() ==> exists|i: int|
                    0 <= i < r.credentials@.len() && item_matches_cred(
                        r.credentials@[i],
                        #[trigger] self.pool@.creds[k],
                        self.pool@.current_id,
                    ),
    {
        let snap: PoolSnapshot = self.pool.snapshot();
        let current_id = snap.current_id;
        let n = snap.entries.len();
        let mut items: Vec<CredentialStatusItem> = Vec::new();
        let mut entries = snap.entries;
        let ghost entries0 = entries@;
        let mut i: usize = 0;
        while i < n
            invariant
                i <= n,
                n == entries@.len(),
                entries@ == entries0,
                items@.len() == i,
                current_id == snap.current_id,
                forall|j: int|
                    0 <= j < i ==> item_of_entry(#[trigger] items@[j], entries0[j], current_id),
            decreases n - i,
        {
            let e = &entries[i];
            let it = CredentialStatusItem {
                id: e.id,
                priority: e.priority,
                disabled: e.disabled,
                failure_count: e.failure_count,
                is_current: e.id == current_id,
                expires_at: clone_opt(&e.expires_at),
                auth_method: e.auth_method.clone(),
                has_profile_arn: e.has_profile_arn,
                success_count: e.success_count,
                last_used_at: clone_opt(&e.last_used_at),
                subscription_title: clone_opt(&e.subscription_title),
                email: clone_opt(&e.email),
            };
            items.push(it);
            i = i + 1;
        }
        let ghost items_v = items@;
        let sorted = sort_items(items);
        proof {
            assert(forall|j: int|
                0 <= j < items_v.len() ==> item_matches_cred(
                    #[trigger] items_v[j],
                    self.pool@.creds[j],
                    self.pool@.current_id,
                ));
            assert forall|ix: int| 0 <= ix < sorted@.len() implies exists|k: int|
                0 <= k < self.pool@.creds.len() && item_matches_cred(
                    #[trigger] sorted@[ix],
                    self.pool@.creds[k],
                    self.pool@.current_id,
                ) by {
                assert(appears_in(items_v, sorted@[ix]));
                let j = choose|j: int| 0 <= j < items_v.len() && #[trigger] items_v[j]
                    == sorted@[ix];
                assert(item_matches_cred(sorted@[ix], self.pool@.creds[j], self.pool@.current_id));
            }
            assert forall|k: int| 0 <= k < self.pool@.creds.len() implies exists|i: int|
                0 <= i < sorted@.len() && item_matches_cred(
                    sorted@[i],
                    #[trigger] self.pool@.creds[k],
                    self.pool@.current_id,
                ) by {
                assert(appears_in(sorted@, items_v[k]));
                let i = choose|i: int| 0 <= i < sorted@.len() && #[trigger] sorted@[i]
                    == items_v[k];
                assert(item_matches_cred(sorted@[i], self.pool@.creds[k], self.pool@.current_id));
            }
        }
        CredentialsStatusResponse {
            total: snap.total,
            available: snap.available,
            current_id,
            credentials: sorted,
        }
    }
}

/// The item projects this credential, with the cursor comparison.
pub open spec fn item_matches_cred(
    it: CredentialStatusItem,
    c: crate::credential::CredentialV,
    current_id: u64,
) -> bool {
    &&& it.id == c.id
    &&& it.priority == c.priority
    &&& it.disabled == c.disabled
    &&& it.failure_count == c.failure_count
    &&& it.is_current == (c.id == current_id)
    &&& crate::strutil::opt_view(it.expires_at) == c.expires_at
    &&& it.auth_method@ == c.auth_method
    &&& it.has_profile_arn == (c.profile_arn is Some)
    &&& it.success_count == c.success_count
    &&& crate::strutil::opt_view(it.last_used_at) == c.last_used_at
    &&& crate::strutil::opt_view(it.subscription_title) == c.subscription_title
    &&& crate::strutil::opt_view(it.email) == c.email
}

impl AdminService {
    /// Sets or clears the disabled flag; when the current credential is
    /// disabled, the cursor rotates away from it. Afterwards the cursor is
    /// never the freshly disabled credential: it is cleared when nothing
    /// else is selectable, and otherwise points at an enabled credential
    /// with a different id.
    pub fn set_disabled(&mut self, id: u64, disabled: bool) -> (r: Result<(), AdminError>)
        requires
            old(self).wf(),
        ensures
            final(self).wf(),
            final(self).cache@ == old(self).cache@,
            final(self).pool@.next_id == old(self).pool@.next_id,
            final(self).pool@.mode == old(self).pool@.mode,
            final(self).pool@.failure_threshold == old(self).pool@.failure_threshold,
            match r {
                Ok(()) => {
                    &&& has_id(old(self).pool@.creds, id)
                    &&& {
                        let i = idx_of(old(self).pool@.creds, id);
                        let c = old(self).pool@.creds[i];
                        final(self).pool@.creds =~= old(self).pool@.creds.update(
                            i,
                            crate::credential::CredentialV {
                                disabled,
                                failure_count: if !disabled && c.failure_count == old(self).pool@.failure_threshold {
                                    0u32
                                } else {
                                    c.failure_count
                                },
                                ..c
                            },
                        )
                    }
                    &&& (disabled && id == old(self).pool@.current_id ==> final(self).pool@.current_id == 0 || (final(self).pool@.current_id != id && has_id(
                        final(self).pool@.creds,
                        final(self).pool@.current_id,
                    ) && enabled(
                        final(self).pool@.creds[idx_of(
                            final(self).pool@.creds,
                            final(self).pool@.current_id,
                        )],
                    )))
                    &&& (!(disabled && id == old(self).pool@.current_id) ==> final(self).pool@.current_id == old(self).pool@.current_id)
                },
                Err(e) => {
                    &&& e == (AdminError::NotFound { id })
                    &&& !has_id(old(self).pool@.creds, id)
                    &&& final(self).pool@ =~= old(self).pool@
                },
            },
    {
        let was_current = self.pool.current_id == id;
        match self.pool.set_disabled(id, disabled) {
            Ok(()) => {
                if disabled && was_current {
                    let ghost p1 = self.pool@;
                    let moved = self.pool.switch_to_next();
                    proof {
                        match moved {
                            Some(rid) => {
                                assert(exists|i: int|
                                    #[trigger] is_rotation_target(p1, i) && p1.creds[i].id
                                        == rid);
                                let i = choose|i: int|
                                    #[trigger] is_rotation_target(p1, i) && p1.creds[i].id
                                        == rid;
                                assert(enabled(p1.creds[i]));
                                assert(has_id(p1.creds, id));
                                let j = idx_of(p1.creds, id);
                                assert(0 <= j < p1.creds.len() && p1.creds[j].id == id);
                                assert(p1.creds[j].disabled) by {
                                    let i0 = idx_of(old(self).pool@.creds, id);
                                    assert(p1.creds[i0].id == id && p1.creds[i0].disabled);
                                    if j != i0 {
                                        assert(p1.creds[j].id != p1.creds[i0].id);
                                    }
                                }
                                if rid == id {
                                    if i != j {
                                        assert(p1.creds[i].id != p1.creds[j].id);
                                    }
                                    assert(false);
                                }
                                let k = idx_of(self.pool@.creds, rid);
                                assert(0 <= k < p1.creds.len() && p1.creds[k].id == rid);
                                if k != i {
                                    assert(p1.creds[k].id != p1.creds[i].id);
                                }
                                assert(enabled(self.pool@.creds[k]));
                            },
                            None => {},
                        }
                    }
                }
                Ok(())
            },
            Err(e) => Err(classify_error(e, id)),
        }
    }

    /// Sets the scheduling priority.
    pub fn set_priority(&mut self, id: u64, priority: u32) -> (r: Result<(), AdminError>)
        requires
            old(self).wf(),
        ensures
            final(self).wf(),
            final(self).cache@ == old(self).cache@,
            final(self).pool@.next_id == old(self).pool@.next_id,
            final(self).pool@.current_id == old(self).pool@.current_id,
            final(self).pool@.mode == old(self).pool@.mode,
            final(self).pool@.failure_threshold == old(self).pool@.failure_threshold,
            match r {
                Ok(()) => {
                    &&& has_id(old(self).pool@.creds, id)
                    &&& {
                        let i = idx_of(old(self).pool@.creds, id);
                        final(self).pool@.creds =~= old(self).pool@.creds.update(
                            i,
                            crate::credential::CredentialV {
                                priority,
                                ..old(self).pool@.creds[i]
                            },
                        )
                    }
                },
                Err(e) => {
                    &&& e == (AdminError::NotFound { id })
                    &&& !has_id(old(self).pool@.creds, id)
                    &&& final(self).pool@ =~= old(self).pool@
                },
            },
    {
        match self.pool.set_priority(id, priority) {
            Ok(()) => Ok(()),
            Err(e) => Err(classify_error(e, id)),
        }
    }

    /// Clears the failure count and re-enables the credential.
    pub fn reset_and_enable(&mut self, id: u64) -> (r: Result<(), AdminError>)
        requires
            old(self).wf(),
        ensures
            final(self).wf(),
            final(self).cache@ == old(self).cache@,
            final(self).pool@.next_id == old(self).pool@.next_id,
            final(self).pool@.current_id == old(self).pool@.current_id,
            final(self).pool@.mode == old(self).pool@.mode,
            final(self).pool@.failure_threshold == old(self).pool@.failure_threshold,
            match r {
                Ok(()) => {
                    &&& has_id(old(self).pool@.creds, id)
                    &&& {
                        let i = idx_of(old(self).pool@.creds, id);
                        final(self).pool@.creds =~= old(self).pool@.creds.update(
                            i,
                            crate::credential::CredentialV {
                                disabled: false,
                                failure_count: 0u32,
                                ..old(self).pool@.creds[i]
                            },
                        )
                    }
                },
                Err(e) => {
                    &&& e == (AdminError::NotFound { id })
                    &&& !has_id(old(self).pool@.creds, id)
                    &&& final(self).pool@ =~= old(self).pool@
                },
            },
    {
        match self.pool.reset_and_enable(id) {
            Ok(()) => Ok(()),
            Err(e) => Err(classify_error(e, id)),
        }
    }

    /// Removes a credential and purges its cached balance.
    pub fn delete_credential(&mut self, id: u64) -> (r: Result<(), AdminError>)
        requires
            old(self).wf(),
        ensures
            final(self).wf(),
            final(self).pool@.next_id == old(self).pool@.next_id,
            final(self).pool@.mode == old(self).pool@.mode,
            final(self).pool@.failure_threshold == old(self).pool@.failure_threshold,
            match r {
                Ok(()) => {
                    &&& has_id(old(self).pool@.creds, id)
                    &&& final(self).pool@.creds =~= old(self).pool@.creds.remove(
                        idx_of(old(self).pool@.creds, id),
                    )
                    &&& if old(self).pool@.current_id == id {
                        &&& (some_enabled(final(self).pool@.creds) ==> exists|k: int|
                            #[trigger] is_best_enabled(final(self).pool@.creds, k) && final(self).pool@.current_id == final(self).pool@.creds[k].id)
                        &&& (!some_enabled(final(self).pool@.creds) ==> final(self).pool@.current_id == 0)
                    } else {
                        final(self).pool@.current_id == old(self).pool@.current_id
                    }
                    &&& !cache_has(final(self).cache@, id)
                    &&& forall|other: u64|
                        other != id ==> spec_entry_of(final(self).cache@, other) == spec_entry_of(
                            old(self).cache@,
                            other,
                        )
                },
                Err(e) => {
                    &&& e == (AdminError::NotFound { id })
                    &&& !has_id(old(self).pool@.creds, id)
                    &&& final(self).pool@ =~= old(self).pool@
                    &&& final(self).cache@ == old(self).cache@
                },
            },
    {
        match self.pool.delete_credential(id) {
            Ok(()) => {
                self.cache.purge(id);
                Ok(())
            },
            Err(e) => Err(classify_error(e, id)),
        }
    }

    /// Validates and stores a new credential; the surrounding application
    /// probes the upstream with it before calling, and classifies probe
    /// failures with `classify_add_upstream`.
    pub fn add_credential(&mut self, n: NewCredential) -> (r: Result<u64, AdminError>)
        requires
            old(self).wf(),
        ensures
            final(self).wf(),
            final(self).cache@ == old(self).cache@,
            final(self).pool@.current_id == old(self).pool@.current_id,
            final(self).pool@.mode == old(self).pool@.mode,
            final(self).pool@.failure_threshold == old(self).pool@.failure_threshold,
            match r {
                Ok(id) => {
                    &&& new_cred_plain(&n)
                    &&& token_shape_ok(n.refresh_token@)
                    &&& !token_taken(old(self).pool@.creds, n.refresh_token@)
                    &&& id == old(self).pool@.next_id
                    &&& final(self).pool@.next_id == old(self).pool@.next_id + 1
                    &&& final(self).pool@.creds =~= old(self).pool@.creds.push(
                        new_cred_view(n, id),
                    )
                },
                Err(e) => {
                    &&& final(self).pool@ =~= old(self).pool@
                    &&& (e == AdminError::InvalidCredential || e == AdminError::Internal)
                    &&& (!new_cred_plain(&n) || !token_shape_ok(n.refresh_token@) || token_taken(
                        old(self).pool@.creds,
                        n.refresh_token@,
                    ) || old(self).pool@.next_id == u64::MAX)
                    &&& (e == AdminError::InvalidCredential <==> (!new_cred_plain(&n)
                        || !token_shape_ok(n.refresh_token@) || token_taken(
                        old(self).pool@.creds,
                        n.refresh_token@,
                    )))
                    &&& (e == AdminError::Internal <==> (new_cred_plain(&n) && token_shape_ok(
                        n.refresh_token@,
                    ) && !token_taken(old(self).pool@.creds, n.refresh_token@) && old(self).pool@.next_id == u64::MAX))
                },
            },
    {
        match self.pool.add_credential(n) {
            Ok(id) => Ok(id),
            Err(e) => Err(classify_add_pool_error(e)),
        }
    }

    /// The scheduling mode, as its wire word.
    pub fn get_load_balancing_mode(&self) -> (r: String)
        ensures
            self.pool@.mode == LoadBalancingMode::Priority ==> r@ == "priority"@,
            self.pool@.mode == LoadBalancingMode::Balanced ==> r@ == "balanced"@,
    {
        self.pool.get_load_balancing_mode()
    }

    /// Sets the scheduling mode from its wire word; any other word is the
    /// client's error.
    pub fn set_load_balancing_mode(&mut self, mode: &str) -> (r: Result<(), AdminError>)
        requires
            old(self).wf(),
        ensures
            final(self).wf(),
            final(self).cache@ == old(self).cache@,
            final(self).pool@.creds == old(self).pool@.creds,
            final(self).pool@.next_id == old(self).pool@.next_id,
            final(self).pool@.current_id == old(self).pool@.current_id,
            final(self).pool@.failure_threshold == old(self).pool@.failure_threshold,
            match r {
                Ok(()) => {
                    &&& (mode@ == "priority"@ || mode@ == "balanced"@)
                    &&& final(self).pool@.mode == (if mode@ == "priority"@ {
                        LoadBalancingMode::Priority
                    } else {
                        LoadBalancingMode::Balanced
                    })
                },
                Err(e) => {
                    &&& e == AdminError::InvalidCredential
                    &&& mode@ != "priority"@ && mode@ != "balanced"@
                    &&& final(self).pool@ =~= old(self).pool@
                },
            },
    {
        match self.pool.set_load_balancing_mode(mode) {
            Ok(()) => Ok(()),
            Err(_) => Err(AdminError::InvalidCredential),
        }
    }

    /// The cached balance for the id, only while its entry is younger than
    /// the TTL at `now`. A missing or stale entry yields nothing: the
    /// caller then probes the upstream and repopulates the cache with
    /// `record_balance`.
    pub fn get_balance_cached(&self, id: u64, now: u64) -> (r: Option<BalanceResponse>)
        requires
            self.wf(),
        ensures
            match r {
                Some(b) => {
                    &&& cache_has(self.cache@, id)
                    &&& {
                        let e = self.cache@[cache_idx(self.cache@, id)].1;
                        entry_fresh(e, now) && b@ == e.data
                    }
                },
                None => !cache_has(self.cache@, id) || !entry_fresh(
                    self.cache@[cache_idx(self.cache@, id)].1,
                    now,
                ),
            },
    {
        self.cache.lookup(id, now)
    }

    /// Stores a freshly probed balance at `now`.
    pub fn record_balance(&mut self, id: u64, data: BalanceResponse, now: u64)
        requires
            old(self).wf(),
            balance_plain(data@),
            data@.id == id,
        ensures
            final(self).wf(),
            final(self).pool@ == old(self).pool@,
            cache_has(final(self).cache@, id),
            final(self).cache@[cache_idx(final(self).cache@, id)].1
                == (crate::balance::CachedBalanceV { cached_at: now, data: data@ }),
            forall|other: u64|
                other != id ==> spec_entry_of(final(self).cache@, other) == spec_entry_of(
                    old(self).cache@,
                    other,
                ),
    {
        self.cache.upsert(id, data, now);
    }
}

/// Clones an optional string.
fn clone_opt(o: &Option<String>) -> (r: Option<String>)
    ensures
        crate::strutil::opt_view(r) == crate::strutil::opt_view(*o),
{
    match o {
        Some(s) => Some(s.clone()),
        None => None,
    }
}

/// The first position whose item follows `x` in (priority, id) order;
/// everything before it precedes or ties `x`.
fn find_insert_pos(out: &Vec<CredentialStatusItem>, x: &CredentialStatusItem) -> (p: usize)
    requires
        items_sorted(out@),
    ensures
        p <= out@.len(),
        forall|q: int|
            0 <= q < p ==> ((#[trigger] out@[q]).priority < x.priority || (out@[q].priority
                == x.priority && out@[q].id <= x.id)),
        forall|q: int|
            p <= q < out@.len() ==> ((#[trigger] out@[q]).priority > x.priority || (
            out@[q].priority == x.priority && out@[q].id > x.id)),
{
    let m = out.len();
    let mut p: usize = 0;
    while p < m && !(out[p].priority > x.priority || (out[p].priority == x.priority && out[p].id
        > x.id))
        invariant
            p <= m,
            m == out@.len(),
            items_sorted(out@),
            forall|q: int|
                0 <= q < p ==> ((#[trigger] out@[q]).priority < x.priority || (out@[q].priority
                    == x.priority && out@[q].id <= x.id)),
        decreases m - p,
    {
        p = p + 1;
    }
    proof {
        if p < m {
            assert forall|q: int| p <= q < out@.len() implies ((#[trigger] out@[q]).priority
                > x.priority || (out@[q].priority == x.priority && out@[q].id > x.id)) by {
                if q > p as int {
                    assert(out@[p as int].priority < out@[q].priority || (out@[p as int].priority
                        == out@[q].priority && out@[p as int].id <= out@[q].id));
                }
            }
        }
    }
    p
}

/// Sorts status items by priority, ties by id, by insertion; every output
/// item is an input item and the other way round.
#[verifier::rlimit(100)]
fn sort_items(v: Vec<CredentialStatusItem>) -> (r: Vec<CredentialStatusItem>)
    ensures
        r@.len() == v@.len(),
        items_sorted(r@),
        forall|i: int| 0 <= i < r@.len() ==> appears_in(v@, #[trigger] r@[i]),
        forall|j: int| 0 <= j < v@.len() ==> appears_in(r@, #[trigger] v@[j]),
    {
    let mut out: Vec<CredentialStatusItem> = Vec::new();
    let mut rest = v;
    let n = rest.len();
    let mut taken: usize = 0;
    while taken < n
        invariant
            taken <= n,
            n == v@.len(),
            rest@ == v@.skip(taken as int),
            out@.len() == taken,
            items_sorted(out@),
            forall|i: int| 0 <= i < out@.len() ==> appears_in(v@, #[trigger] out@[i]),
            forall|j: int| 0 <= j < taken ==> appears_in(out@, #[trigger] v@[j]),
        decreases n - taken,
    {
        proof {
            assert(rest@.len() == v@.len() - taken);
            assert(rest@[0] == v@[taken as int]);
        }
        let x = rest.remove(0);
        proof {
            assert(rest@ =~= v@.skip(taken as int + 1));
        }
        let p = find_insert_pos(&out, &x);
        let ghost out_before = out@;
        out.insert(p, x);
        proof {
            assert(out@ =~= out_before.insert(p as int, x));
            assert(forall|q: int| 0 <= q < p ==> #[trigger] out@[q] == out_before[q]);
            assert(out@[p as int] == x);
            assert(forall|q: int|
                p < q < out@.len() ==> #[trigger] out@[q] == out_before[q - 1]);
            assert(items_sorted(out@)) by {
                assert forall|a: int, b: int| 0 <= a < b < out@.len() implies ((
                #[trigger] out@[a]).priority < (#[trigger] out@[b]).priority || (out@[a].priority
                    == out@[b].priority && out@[a].id <= out@[b].id)) by {
                    if b < p as int {
                    } else if a < p as int && b == p as int {
                        assert(out@[a] == out_before[a]);
                    } else if a < p as int && b > p as int {
                        assert(out@[a] == out_before[a] && out@[b] == out_before[b - 1]);
                    } else if a == p as int && b > p as int {
                        assert(out@[b] == out_before[b - 1]);
                    } else {
                        assert(out@[a] == out_before[a - 1] && out@[b] == out_before[b - 1]);
                    }
                }
            }
            assert forall|i2: int| 0 <= i2 < out@.len() implies appears_in(
                v@,
                #[trigger] out@[i2],
            ) by {
                if i2 == p as int {
                    assert(v@[taken as int] == out@[i2]);
                } else if i2 < p as int {
                    assert(appears_in(v@, out_before[i2]));
                    assert(out@[i2] == out_before[i2]);
                } else {
                    assert(appears_in(v@, out_before[i2 - 1]));
                    assert(out@[i2] == out_before[i2 - 1]);
                }
            }
            assert forall|j: int| 0 <= j < taken + 1 implies appears_in(
                out@,
                #[trigger] v@[j],
            ) by {
                if j == taken as int {
                    assert(out@[p as int] == v@[j]);
                } else {
                    assert(appears_in(out_before, v@[j]));
                    let i0 = choose|i: int|
                        0 <= i < out_before.len() && #[trigger] out_before[i] == v@[j];
                    if i0 < p as int {
                        assert(out@[i0] == v@[j]);
                    } else {
                        assert(out@[i0 + 1] == v@[j]);
                    }
                }
            }
        }
        taken = taken + 1;
    }
    out
}

} // verus!
