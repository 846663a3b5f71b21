//! The multi-credential token pool: scheduling, selection, failure
//! accounting and rotation.

use vstd::prelude::*;
use crate::credential::{
    Credential, CredentialV, NewCredential, TokenShape, cred_plain, new_cred_plain, token_shape_ok,
    check_token_shape, new_cred_is_plain, materialize,
};
use crate::clock::rfc3339_epoch_of;

verus! {

/// An access token is refreshed when it is within this many seconds of its
/// expiry.
pub const REFRESH_SKEW_SECS: i64 = 300;

/// Consecutive refresh failures a credential may accumulate before it is
/// disabled.
pub const DEFAULT_FAILURE_THRESHOLD: u32 = 3;

/// How the pool selects among enabled credentials.
#[derive(Clone, Copy, Debug, PartialEq, Eq, Structural)]
pub enum LoadBalancingMode {
    /// Stick with the enabled credential of lowest priority value; ties go
    /// to the lowest id.
    Priority,
    /// Round-robin over enabled credentials in (priority, id) order.
    Balanced,
}

/// The errors of the pool's mutators.
#[derive(Clone, Copy, Debug, PartialEq, Eq, Structural)]
pub enum PoolError {
    /// No credential has the id.
    NotFound { id: u64 },
    /// The refresh token is empty.
    EmptyRefreshToken,
    /// The refresh token ends in three dots.
    TruncatedRefreshToken,
    /// The refresh token embeds a three-star mask.
    MaskedRefreshToken,
    /// A string field holds a character the pool cannot persist.
    NonPlainField,
    /// Another credential already holds this refresh token.
    DuplicateRefreshToken,
    /// Every id below the allocator bound is spent.
    IdSpaceExhausted,
    /// The load-balancing mode is neither "priority" nor "balanced".
    InvalidMode,
}

/// The mathematical value of the pool.
#[verifier::ext_equal]
pub struct PoolV {
    pub creds: Seq<CredentialV>,
    pub next_id: u64,
    pub current_id: u64,
    pub mode: LoadBalancingMode,
    pub failure_threshold: u32,
}

/// The pool of upstream credentials, with its id allocator, its selection
/// cursor and its scheduling mode.
#[derive(Debug)]
pub struct MultiTokenManager {
    pub creds: Vec<Credential>,
    pub next_id: u64,
    pub current_id: u64,
    pub mode: LoadBalancingMode,
    pub failure_threshold: u32,
}

/// The views of the stored credentials, in storage order.
pub open spec fn creds_view(s: Seq<Credential>) -> Seq<CredentialV> {
    s.map_values(|c: Credential| c@)
}

impl View for MultiTokenManager {
    type V = PoolV;

    open spec fn view(&self) -> PoolV {
        PoolV {
            creds: creds_view(self.creds@),
            next_id: self.next_id,
            current_id: self.current_id,
            mode: self.mode,
            failure_threshold: self.failure_threshold,
        }
    }
}

/// Some credential has the id.
pub open spec fn has_id(s: Seq<CredentialV>, id: u64) -> bool {
    exists|i: int| 0 <= i < s.len() && (#[trigger] s[i]).id == id
}

/// The index of the credential with the id.
pub open spec fn idx_of(s: Seq<CredentialV>, id: u64) -> int {
    choose|i: int| 0 <= i < s.len() && (#[trigger] s[i]).id == id
}

/// Another credential already holds this refresh token.
pub open spec fn token_taken(s: Seq<CredentialV>, t: Seq<char>) -> bool {
    exists|i: int| 0 <= i < s.len() && (#[trigger] s[i]).refresh_token == t
}

/// A credential that may serve client traffic.
pub open spec fn enabled(c: CredentialV) -> bool {
    !c.disabled
}

/// Scheduling order: lower priority value first, ties to the lower id.
pub open spec fn key_lt(a: CredentialV, b: CredentialV) -> bool {
    a.priority < b.priority || (a.priority == b.priority && a.id < b.id)
}

/// Some credential is enabled.
pub open spec fn some_enabled(s: Seq<CredentialV>) -> bool {
    exists|i: int| 0 <= i < s.len() && enabled(#[trigger] s[i])
}

/// `i` is the enabled credential first in scheduling order.
pub open spec fn is_best_enabled(s: Seq<CredentialV>, i: int) -> bool {
    &&& 0 <= i < s.len()
    &&& enabled(s[i])
    &&& forall|j: int|
        0 <= j < s.len() && enabled(#[trigger] s[j]) && j != i ==> key_lt(s[i], s[j])
}

/// Some enabled credential follows `cur` in scheduling order.
pub open spec fn some_enabled_after(s: Seq<CredentialV>, cur: CredentialV) -> bool {
    exists|i: int| 0 <= i < s.len() && enabled(#[trigger] s[i]) && key_lt(cur, s[i])
}

/// `i` is the first enabled credential after `cur` in scheduling order.
pub open spec fn is_next_enabled_after(s: Seq<CredentialV>, cur: CredentialV, i: int) -> bool {
    &&& 0 <= i < s.len()
    &&& enabled(s[i])
    &&& key_lt(cur, s[i])
    &&& forall|j: int|
        0 <= j < s.len() && enabled(#[trigger] s[j]) && key_lt(cur, s[j]) && j != i ==> key_lt(
            s[i],
            s[j],
        )
}

/// The credential the pool rotates to: under priority scheduling the best
/// enabled credential; under balanced scheduling the next enabled one after
/// the current cursor in ring order, wrapping to the best.
pub open spec fn is_rotation_target(p: PoolV, i: int) -> bool {
    if p.mode == LoadBalancingMode::Balanced && p.current_id != 0 && has_id(
        p.creds,
        p.current_id,
    ) {
        let cur = p.creds[idx_of(p.creds, p.current_id)];
        if some_enabled_after(p.creds, cur) {
            is_next_enabled_after(p.creds, cur, i)
        } else {
            is_best_enabled(p.creds, i)
        }
    } else {
        is_best_enabled(p.creds, i)
    }
}

/// The access token may still be used at `now`: it exists and its expiry
/// parses to a time more than the refresh skew away.
pub open spec fn token_fresh(c: CredentialV, now: i64) -> bool {
    &&& c.access_token is Some
    &&& match c.expires_at {
        Some(e) => match rfc3339_epoch_of(e) {
            Some(t) => t - now > REFRESH_SKEW_SECS,
            None => false,
        },
        None => false,
    }
}

/// How many credentials are enabled.
pub open spec fn count_enabled(s: Seq<CredentialV>) -> int
    decreases s.len(),
{
    if s.len() == 0 {
        0
    } else {
        count_enabled(s.drop_last()) + if enabled(s.last()) {
            1int
        } else {
            0int
        }
    }
}

/// Well-formedness of the pool.
///
/// Ids are at least one, strictly increasing in storage order and below the
/// allocator bound, so a fresh id never collides with a stored one and ids
/// are never reused. Refresh tokens are unique across the pool. Failure
/// counts never exceed the threshold, and a count at the threshold implies
/// the credential is disabled. Every field is plain, so the pool can be
/// persisted. The cursor is zero or the id of a stored credential.
pub open spec fn wf_pool(p: PoolV) -> bool {
    &&& p.next_id >= 1
    &&& p.failure_threshold >= 1
    &&& forall|i: int| 0 <= i < p.creds.len() ==> 1 <= (#[trigger] p.creds[i]).id < p.next_id
    &&& forall|i: int, j: int|
        0 <= i < j < p.creds.len() ==> (#[trigger] p.creds[i]).id < (#[trigger] p.creds[j]).id
    &&& forall|i: int, j: int|
        0 <= i < p.creds.len() && 0 <= j < p.creds.len() && i != j ==> (
        #[trigger] p.creds[i]).refresh_token != (#[trigger] p.creds[j]).refresh_token
    &&& forall|i: int|
        0 <= i < p.creds.len() ==> (#[trigger] p.creds[i]).failure_count <= p.failure_threshold
    &&& forall|i: int|
        0 <= i < p.creds.len() && (#[trigger] p.creds[i]).failure_count == p.failure_threshold
            ==> p.creds[i].disabled
    &&& forall|i: int| 0 <= i < p.creds.len() ==> cred_plain(#[trigger] p.creds[i])
    &&& (p.current_id != 0 ==> has_id(p.creds, p.current_id))
}

/// Replacing one credential by another with the same id and refresh token
/// keeps the pool well-formed, provided the replacement is plain and its
/// failure count respects the threshold.
proof fn lemma_wf_update_same_identity(p: PoolV, q: PoolV, i: int, c: CredentialV)
    requires
        wf_pool(p),
        0 <= i < p.creds.len(),
        q.creds =~= p.creds.update(i, c),
        q.next_id == p.next_id,
        q.current_id == p.current_id,
        q.mode == p.mode,
        q.failure_threshold == p.failure_threshold,
        c.id == p.creds[i].id,
        c.refresh_token == p.creds[i].refresh_token,
        cred_plain(c),
        c.failure_count <= p.failure_threshold,
        c.failure_count == p.failure_threshold ==> c.disabled,
    ensures
        wf_pool(q),
{
    assert(forall|k: int| 0 <= k < q.creds.len() && k != i ==> q.creds[k] =~= p.creds[k]);
    assert(q.creds[i] == c);
    if q.current_id != 0 {
        let w = choose|k: int|
            0 <= k < p.creds.len() && (#[trigger] p.creds[k]).id == p.current_id;
        assert(q.creds[w].id == q.current_id);
    }
}

impl MultiTokenManager {
    /// Well-formedness, stated over the view.
    pub open spec fn wf(&self) -> bool {
        wf_pool(self@)
    }

    /// An empty pool: ids start at one, nothing is selected.
    pub fn new(mode: LoadBalancingMode, failure_threshold: u32) -> (r: Self)
        requires
            failure_threshold >= 1,
        ensures
            r.wf(),
            r@.creds =~= Seq::<CredentialV>::empty(),
            r@.next_id == 1,
            r@.current_id == 0,
            r@.mode == mode,
            r@.failure_threshold == failure_threshold,
    {
        MultiTokenManager {
            creds: Vec::new(),
            next_id: 1,
            current_id: 0,
            mode,
            failure_threshold,
        }
    }

    /// The storage index of the credential with the id.
    fn find_index(&self, id: u64) -> (r: Option<usize>)
        ensures
            match r {
                Some(i) => i < self@.creds.len() && self@.creds[i as int].id == id,
                None => !has_id(self@.creds, id),
            },
    {
        let n = self.creds.len();
        let mut i: usize = 0;
        while i < n
            invariant
                i <= n,
                n == self@.creds.len(),
                forall|j: int| 0 <= j < i ==> (#[trigger] self@.creds[j]).id != id,
            decreases n - i,
        {
            if self.creds[i].id == id {
                return Some(i);
            }
            i = i + 1;
        }
        None
    }

    /// Replaces the credential at a storage index.
    fn put_at(&mut self, i: usize, c: Credential)
        requires
            i < old(self)@.creds.len(),
        ensures
            final(self)@.creds =~= old(self)@.creds.update(i as int, c@),
            final(self)@.next_id == old(self)@.next_id,
            final(self)@.current_id == old(self)@.current_id,
            final(self)@.mode == old(self)@.mode,
            final(self)@.failure_threshold == old(self)@.failure_threshold,
    {
        self.creds.set(i, c);
    }

    /// Sets or clears the disabled flag. Re-enabling a credential that
    /// tripped the failure threshold clears its failure count, so the bound
    /// on failure counts is kept.
    pub fn set_disabled(&mut self, id: u64, disabled: bool) -> (r: Result<(), PoolError>)
        requires
            old(self).wf(),
        ensures
            final(self).wf(),
            final(self)@.next_id == old(self)@.next_id,
            final(self)@.current_id == old(self)@.current_id,
            final(self)@.mode == old(self)@.mode,
            final(self)@.failure_threshold == old(self)@.failure_threshold,
            match r {
                Ok(()) => {
                    &&& has_id(old(self)@.creds, id)
                    &&& {
                        let i = idx_of(old(self)@.creds, id);
                        let c = old(self)@.creds[i];
                        final(self)@.creds =~= old(self)@.creds.update(
                            i,
                            CredentialV {
                                disabled,
                                failure_count: if !disabled && c.failure_count
                                    == old(self)@.failure_threshold {
                                    0u32
                                } else {
                                    c.failure_count
                                },
                                ..c
                            },
                        )
                    }
                },
                Err(e) => {
                    &&& e == (PoolError::NotFound { id })
                    &&& !has_id(old(self)@.creds, id)
                    &&& final(self)@ =~= old(self)@
                },
            },
    {
        match self.find_index(id) {
            Some(i) => {
                let c = self.creds.remove(i);
                let cleared = !disabled && c.failure_count == self.failure_threshold;
                let updated = Credential {
                    disabled,
                    failure_count: if cleared {
                        0
                    } else {
                        c.failure_count
                    },
                    ..c
                };
                self.creds.insert(i, updated);
                proof {
                    let oc = old(self)@.creds;
                    assert(0 <= i < oc.len() && oc[i as int].id == id);
                    assert(idx_of(oc, id) == i as int) by {
                        let k = idx_of(oc, id);
                        assert(0 <= k < oc.len() && oc[k].id == id);
                        if k != i as int {
                            assert(oc[k].id != oc[i as int].id);
                        }
                    }
                    assert(self@.creds =~= oc.update(i as int, updated@));
                    lemma_wf_update_same_identity(old(self)@, self@, i as int, updated@);
                }
                Ok(())
            },
            None => Err(PoolError::NotFound { id }),
        }
    }

    /// Sets the scheduling priority.
    pub fn set_priority(&mut self, id: u64, priority: u32) -> (r: Result<(), PoolError>)
        requires
            old(self).wf(),
        ensures
            final(self).wf(),
            final(self)@.next_id == old(self)@.next_id,
            final(self)@.current_id == old(self)@.current_id,
            final(self)@.mode == old(self)@.mode,
            final(self)@.failure_threshold == old(self)@.failure_threshold,
            match r {
                Ok(()) => {
                    &&& has_id(old(self)@.creds, id)
                    &&& {
                        let i = idx_of(old(self)@.creds, id);
                        final(self)@.creds =~= old(self)@.creds.update(
                            i,
                            CredentialV { priority, ..old(self)@.creds[i] },
                        )
                    }
                },
                Err(e) => {
                    &&& e == (PoolError::NotFound { id })
                    &&& !has_id(old(self)@.creds, id)
                    &&& final(self)@ =~= old(self)@
                },
            },
    {
        match self.find_index(id) {
            Some(i) => {
                let c = self.creds.remove(i);
                let updated = Credential { priority, ..c };
                self.creds.insert(i, updated);
                proof {
                    let oc = old(self)@.creds;
                    assert(idx_of(oc, id) == i as int) by {
                        let k = idx_of(oc, id);
                        assert(0 <= k < oc.len() && oc[k].id == id);
                        if k != i as int {
                            assert(oc[k].id != oc[i as int].id);
                        }
                    }
                    assert(self@.creds =~= oc.update(i as int, updated@));
                    lemma_wf_update_same_identity(old(self)@, self@, i as int, updated@);
                }
                Ok(())
            },
            None => Err(PoolError::NotFound { id }),
        }
    }

    /// Clears the failure count and re-enables the credential.
    pub fn reset_and_enable(&mut self, id: u64) -> (r: Result<(), PoolError>)
        requires
            old(self).wf(),
        ensures
            final(self).wf(),
            final(self)@.next_id == old(self)@.next_id,
            final(self)@.current_id == old(self)@.current_id,
            final(self)@.mode == old(self)@.mode,
            final(self)@.failure_threshold == old(self)@.failure_threshold,
            match r {
                Ok(()) => {
                    &&& has_id(old(self)@.creds, id)
                    &&& {
                        let i = idx_of(old(self)@.creds, id);
                        final(self)@.creds =~= old(self)@.creds.update(
                            i,
                            CredentialV {
                                disabled: false,
                                failure_count: 0u32,
                                ..old(self)@.creds[i]
                            },
                        )
                    }
                },
                Err(e) => {
                    &&& e == (PoolError::NotFound { id })
                    &&& !has_id(old(self)@.creds, id)
                    &&& final(self)@ =~= old(self)@
                },
            },
    {
        match self.find_index(id) {
            Some(i) => {
                let c = self.creds.remove(i);
                let updated = Credential { disabled: false, failure_count: 0, ..c };
                self.creds.insert(i, updated);
                proof {
                    let oc = old(self)@.creds;
                    assert(idx_of(oc, id) == i as int) by {
                        let k = idx_of(oc, id);
                        assert(0 <= k < oc.len() && oc[k].id == id);
                        if k != i as int {
                            assert(oc[k].id != oc[i as int].id);
                        }
                    }
                    assert(self@.creds =~= oc.update(i as int, updated@));
                    lemma_wf_update_same_identity(old(self)@, self@, i as int, updated@);
                }
                Ok(())
            },
            None => Err(PoolError::NotFound { id }),
        }
    }

    /// The scheduling mode, as its wire word.
    pub fn get_load_balancing_mode(&self) -> (r: String)
        ensures
            self@.mode == LoadBalancingMode::Priority ==> r@ == "priority"@,
            self@.mode == LoadBalancingMode::Balanced ==> r@ == "balanced"@,
    {
        match self.mode {
            LoadBalancingMode::Priority => String::from_str("priority"),
            LoadBalancingMode::Balanced => String::from_str("balanced"),
        }
    }

    /// Sets the scheduling mode from its wire word; any other word is
    /// rejected.
    pub fn set_load_balancing_mode(&mut self, mode: &str) -> (r: Result<(), PoolError>)
        requires
            old(self).wf(),
        ensures
            final(self).wf(),
            final(self)@.creds == old(self)@.creds,
            final(self)@.next_id == old(self)@.next_id,
            final(self)@.current_id == old(self)@.current_id,
            final(self)@.failure_threshold == old(self)@.failure_threshold,
            match r {
                Ok(()) => {
                    &&& (mode@ == "priority"@ || mode@ == "balanced"@)
                    &&& final(self)@.mode == (if mode@ == "priority"@ {
                        LoadBalancingMode::Priority
                    } else {
                        LoadBalancingMode::Balanced
                    })
                },
                Err(e) => {
                    &&& e == PoolError::InvalidMode
                    &&& mode@ != "priority"@ && mode@ != "balanced"@
                    &&& final(self)@ =~= old(self)@
                },
            },
    {
        if str_eq(mode, "priority") {
            self.mode = LoadBalancingMode::Priority;
            Ok(())
        } else if str_eq(mode, "balanced") {
            self.mode = LoadBalancingMode::Balanced;
            Ok(())
        } else {
            Err(PoolError::InvalidMode)
        }
    }
}

/// Relies on str's PartialEq: equal strings have equal character sequences.
#[verifier::external_body]
pub fn str_eq(a: &str, b: &str) -> (r: bool)
    ensures
        r == (a@ == b@),
{
    a == b
}

/// What a client request should use: a still-fresh access token, a
/// credential whose token must be refreshed first, or nothing.
pub enum CurrentDecision {
    /// No enabled credential exists.
    NoCredentials,
    /// The selected credential's access token is fresh.
    Fresh { id: u64, access_token: String },
    /// The selected credential needs a refresh before use.
    NeedsRefresh { id: u64 },
}

/// The credential a `current` call settles on: the sticky cursor while it
/// points at an enabled credential, else the rotation target.
pub open spec fn selected_for_traffic(p: PoolV, id: u64) -> bool {
    if p.current_id != 0 && has_id(p.creds, p.current_id) && enabled(
        p.creds[idx_of(p.creds, p.current_id)],
    ) {
        id == p.current_id
    } else {
        exists|i: int| #[trigger] is_rotation_target(p, i) && p.creds[i].id == id
    }
}

/// Removing one credential keeps the pool well-formed when the cursor is
/// cleared or still stored.
proof fn lemma_wf_remove(p: PoolV, q: PoolV, i: int)
    requires
        wf_pool(p),
        0 <= i < p.creds.len(),
        q.creds =~= p.creds.remove(i),
        q.next_id == p.next_id,
        q.mode == p.mode,
        q.failure_threshold == p.failure_threshold,
        q.current_id == 0 || (q.current_id == p.current_id && p.current_id != p.creds[i].id),
    ensures
        wf_pool(q),
{
    assert(forall|k: int| 0 <= k < i ==> q.creds[k] =~= p.creds[k]);
    assert(forall|k: int| i <= k < q.creds.len() ==> q.creds[k] =~= p.creds[k + 1]);
    if q.current_id != 0 {
        let w = choose|k: int|
            0 <= k < p.creds.len() && (#[trigger] p.creds[k]).id == p.current_id;
        if w < i {
            assert(q.creds[w].id == q.current_id);
        } else {
            assert(p.creds[w].id != p.creds[i].id);
            assert(w > i);
            assert(q.creds[w - 1].id == q.current_id);
        }
    }
}

/// Appending a fresh credential keeps the pool well-formed.
proof fn lemma_wf_push(p: PoolV, q: PoolV, c: CredentialV)
    requires
        wf_pool(p),
        q.creds =~= p.creds.push(c),
        q.next_id == p.next_id + 1,
        q.current_id == p.current_id,
        q.mode == p.mode,
        q.failure_threshold == p.failure_threshold,
        c.id == p.next_id,
        p.next_id < u64::MAX,
        !token_taken(p.creds, c.refresh_token),
        cred_plain(c),
        c.failure_count == 0,
        !c.disabled,
    ensures
        wf_pool(q),
{
    assert(forall|k: int| 0 <= k < p.creds.len() ==> q.creds[k] =~= p.creds[k]);
    assert(q.creds[p.creds.len() as int] == c);
    assert(forall|k: int|
        0 <= k < p.creds.len() ==> (#[trigger] p.creds[k]).refresh_token != c.refresh_token);
    if q.current_id != 0 {
        let w = choose|k: int|
            0 <= k < p.creds.len() && (#[trigger] p.creds[k]).id == p.current_id;
        assert(q.creds[w].id == q.current_id);
    }
}

impl MultiTokenManager {
    /// The index of the enabled credential first in scheduling order.
    fn best_enabled_index(&self) -> (r: Option<usize>)
        requires
            self.wf(),
        ensures
            match r {
                Some(i) => is_best_enabled(self@.creds, i as int),
                None => !some_enabled(self@.creds),
            },
    {
        let n = self.creds.len();
        let mut best: Option<usize> = None;
        let mut i: usize = 0;
        while i < n
            invariant
                i <= n,
                n == self@.creds.len(),
                self.wf(),
                match best {
                    Some(b) => b < i && enabled(self@.creds[b as int]) && forall|j: int|
                        0 <= j < i && enabled(#[trigger] self@.creds[j]) && j != b as int
                            ==> key_lt(self@.creds[b as int], self@.creds[j]),
                    None => forall|j: int| 0 <= j < i ==> !enabled(#[trigger] self@.creds[j]),
                },
            decreases n - i,
        {
            if !self.creds[i].disabled {
                match best {
                    Some(b) => {
                        let swap = self.creds[i].priority < self.creds[b].priority || (
                        self.creds[i].priority == self.creds[b].priority && self.creds[i].id
                            < self.creds[b].id);
                        proof {
                            assert(self@.creds[i as int].id != self@.creds[b as int].id);
                        }
                        if swap {
                            best = Some(i);
                        }
                    },
                    None => {
                        best = Some(i);
                    },
                }
            }
            i = i + 1;
        }
        best
    }

    /// The index of the first enabled credential after the one at `cur` in
    /// scheduling order.
    fn next_enabled_index_after(&self, cur: usize) -> (r: Option<usize>)
        requires
            self.wf(),
            cur < self@.creds.len(),
        ensures
            match r {
                Some(i) => is_next_enabled_after(
                    self@.creds,
                    self@.creds[cur as int],
                    i as int,
                ),
                None => !some_enabled_after(self@.creds, self@.creds[cur as int]),
            },
    {
        let n = self.creds.len();
        let mut best: Option<usize> = None;
        let mut i: usize = 0;
        while i < n
            invariant
                i <= n,
                cur < n,
                n == self@.creds.len(),
                self.wf(),
                match best {
                    Some(b) => b < i && enabled(self@.creds[b as int]) && key_lt(
                        self@.creds[cur as int],
                        self@.creds[b as int],
                    ) && forall|j: int|
                        0 <= j < i && enabled(#[trigger] self@.creds[j]) && key_lt(
                            self@.creds[cur as int],
                            self@.creds[j],
                        ) && j != b as int ==> key_lt(self@.creds[b as int], self@.creds[j]),
                    None => forall|j: int|
                        0 <= j < i ==> !(enabled(#[trigger] self@.creds[j]) && key_lt(
                            self@.creds[cur as int],
                            self@.creds[j],
                        )),
                },
            decreases n - i,
        {
            let after_cur = self.creds[cur].priority < self.creds[i].priority || (
            self.creds[cur].priority == self.creds[i].priority && self.creds[cur].id
                < self.creds[i].id);
            if !self.creds[i].disabled && after_cur {
                match best {
                    Some(b) => {
                        let swap = self.creds[i].priority < self.creds[b].priority || (
                        self.creds[i].priority == self.creds[b].priority && self.creds[i].id
                            < self.creds[b].id);
                        proof {
                            assert(self@.creds[i as int].id != self@.creds[b as int].id);
                        }
                        if swap {
                            best = Some(i);
                        }
                    },
                    None => {
                        best = Some(i);
                    },
                }
            }
            i = i + 1;
        }
        best
    }

    /// Moves the cursor to the rotation target and returns its storage
    /// index, or clears the cursor when nothing is enabled.
    fn rotate_to_target(&mut self) -> (r: Option<usize>)
        requires
            old(self).wf(),
        ensures
            final(self).wf(),
            final(self)@.creds == old(self)@.creds,
            final(self)@.next_id == old(self)@.next_id,
            final(self)@.mode == old(self)@.mode,
            final(self)@.failure_threshold == old(self)@.failure_threshold,
            match r {
                Some(i) => is_rotation_target(old(self)@, i as int) && final(self)@.current_id
                    == old(self)@.creds[i as int].id,
                None => !some_enabled(old(self)@.creds) && final(self)@.current_id == 0,
            },
    {
        let target: Option<usize> = if matches!(self.mode, LoadBalancingMode::Balanced)
            && self.current_id != 0 {
            match self.find_index(self.current_id) {
                Some(ci) => {
                    proof {
                        let oc = self@.creds;
                        assert(idx_of(oc, self@.current_id) == ci as int) by {
                            let k = idx_of(oc, self@.current_id);
                            assert(0 <= k < oc.len() && oc[k].id == self@.current_id);
                            if k != ci as int {
                                assert(oc[k].id != oc[ci as int].id);
                            }
                        }
                    }
                    match self.next_enabled_index_after(ci) {
                        Some(t) => Some(t),
                        None => self.best_enabled_index(),
                    }
                },
                None => self.best_enabled_index(),
            }
        } else {
            self.best_enabled_index()
        };
        match target {
            Some(i) => {
                let id = self.creds[i].id;
                self.current_id = id;
                proof {
                    assert(has_id(self@.creds, id));
                }
                Some(i)
            },
            None => {
                self.current_id = 0;
                None
            },
        }
    }

    /// Rotates to the next selectable credential under the active policy
    /// and returns its id, or clears the cursor when nothing is enabled.
    pub fn switch_to_next(&mut self) -> (r: Option<u64>)
        requires
            old(self).wf(),
        ensures
            final(self).wf(),
            final(self)@.creds == old(self)@.creds,
            final(self)@.next_id == old(self)@.next_id,
            final(self)@.mode == old(self)@.mode,
            final(self)@.failure_threshold == old(self)@.failure_threshold,
            match r {
                Some(id) => exists|i: int|
                    #[trigger] is_rotation_target(old(self)@, i) && old(self)@.creds[i].id == id
                        && final(self)@.current_id == id,
                None => !some_enabled(old(self)@.creds) && final(self)@.current_id == 0,
            },
    {
        match self.rotate_to_target() {
            Some(i) => Some(self.creds[i].id),
            None => None,
        }
    }

    /// Settles which credential the next client request uses and whether
    /// its access token is still fresh at `now`. The cursor sticks while it
    /// points at an enabled credential and rotates otherwise.
    pub fn current_decision(&mut self, now: i64) -> (r: CurrentDecision)
        requires
            old(self).wf(),
        ensures
            final(self).wf(),
            final(self)@.creds == old(self)@.creds,
            final(self)@.next_id == old(self)@.next_id,
            final(self)@.mode == old(self)@.mode,
            final(self)@.failure_threshold == old(self)@.failure_threshold,
            match r {
                CurrentDecision::NoCredentials => !some_enabled(old(self)@.creds)
                    && final(self)@.current_id == 0,
                CurrentDecision::Fresh { id, access_token } => {
                    &&& selected_for_traffic(old(self)@, id)
                    &&& final(self)@.current_id == id
                    &&& has_id(old(self)@.creds, id)
                    &&& {
                        let c = old(self)@.creds[idx_of(old(self)@.creds, id)];
                        enabled(c) && token_fresh(c, now) && c.access_token == Some(
                            access_token@,
                        )
                    }
                },
                CurrentDecision::NeedsRefresh { id } => {
                    &&& selected_for_traffic(old(self)@, id)
                    &&& final(self)@.current_id == id
                    &&& has_id(old(self)@.creds, id)
                    &&& {
                        let c = old(self)@.creds[idx_of(old(self)@.creds, id)];
                        enabled(c) && !token_fresh(c, now)
                    }
                },
            },
    {
        let sticky: Option<usize> = if self.current_id != 0 {
            match self.find_index(self.current_id) {
                Some(i) => {
                    if !self.creds[i].disabled {
                        proof {
                            let oc = self@.creds;
                            assert(idx_of(oc, self@.current_id) == i as int) by {
                                let k = idx_of(oc, self@.current_id);
                                assert(0 <= k < oc.len() && oc[k].id == self@.current_id);
                                if k != i as int {
                                    assert(oc[k].id != oc[i as int].id);
                                }
                            }
                        }
                        Some(i)
                    } else {
                        None
                    }
                },
                None => None,
            }
        } else {
            None
        };
        let chosen: Option<usize> = match sticky {
            Some(i) => Some(i),
            None => self.rotate_to_target(),
        };
        match chosen {
            Some(i) => {
                let id = self.creds[i].id;
                proof {
                    let oc = old(self)@.creds;
                    assert(idx_of(oc, id) == i as int) by {
                        let k = idx_of(oc, id);
                        assert(0 <= k < oc.len() && oc[k].id == id);
                        if k != i as int {
                            assert(oc[k].id != oc[i as int].id);
                        }
                    }
                }
                let fresh: bool = match (&self.creds[i].access_token, &self.creds[i].expires_at) {
                    (Some(_), Some(e)) => {
                        match crate::clock::parse_rfc3339_epoch(e.as_str()) {
                            Some(t) => (t as i128) - (now as i128) > REFRESH_SKEW_SECS as i128,
                            None => false,
                        }
                    },
                    _ => false,
                };
                if fresh {
                    let token: String = match &self.creds[i].access_token {
                        Some(t) => t.clone(),
                        None => String::new(),
                    };
                    CurrentDecision::Fresh { id, access_token: token }
                } else {
                    CurrentDecision::NeedsRefresh { id }
                }
            },
            None => CurrentDecision::NoCredentials,
        }
    }

    /// Whether a stored credential already holds this refresh token.
    pub fn token_exists(&self, t: &str) -> (r: bool)
        ensures
            r == token_taken(self@.creds, t@),
    {
        let n = self.creds.len();
        let mut i: usize = 0;
        while i < n
            invariant
                i <= n,
                n == self@.creds.len(),
                forall|j: int| 0 <= j < i ==> (#[trigger] self@.creds[j]).refresh_token != t@,
            decreases n - i,
        {
            if str_eq(self.creds[i].refresh_token.as_str(), t) {
                proof {
                    assert((#[trigger] self@.creds[i as int]).refresh_token == t@);
                }
                return true;
            }
            i = i + 1;
        }
        false
    }

    /// Validates and stores a new credential: the refresh token must be
    /// plain, non-empty, not visibly truncated, without an embedded mask and
    /// not already stored. On success the credential gets the next id.
    ///
    /// Together with `wf`, the returned id is strictly greater than every
    /// id the pool ever assigned, so ids are strictly increasing and an id
    /// is never reused, also after a delete.
    pub fn add_credential(&mut self, n: NewCredential) -> (r: Result<u64, PoolError>)
        requires
            old(self).wf(),
        ensures
            final(self).wf(),
            final(self)@.current_id == old(self)@.current_id,
            final(self)@.mode == old(self)@.mode,
            final(self)@.failure_threshold == old(self)@.failure_threshold,
            match r {
                Ok(id) => {
                    &&& new_cred_plain(&n)
                    &&& token_shape_ok(n.refresh_token@)
                    &&& !token_taken(old(self)@.creds, n.refresh_token@)
                    &&& old(self)@.next_id < u64::MAX
                    &&& id == old(self)@.next_id
                    &&& final(self)@.next_id == old(self)@.next_id + 1
                    &&& final(self)@.creds.len() == old(self)@.creds.len() + 1
                    &&& final(self)@.creds =~= old(self)@.creds.push(new_cred_view(n, id))
                },
                Err(e) => {
                    &&& final(self)@ =~= old(self)@
                    &&& match e {
                        PoolError::NonPlainField => !new_cred_plain(&n),
                        PoolError::EmptyRefreshToken => new_cred_plain(&n)
                            && n.refresh_token@.len() == 0,
                        PoolError::TruncatedRefreshToken => new_cred_plain(&n)
                            && n.refresh_token@.len() > 0 && crate::strutil::ends_truncated(
                            n.refresh_token@,
                        ),
                        PoolError::MaskedRefreshToken => new_cred_plain(&n)
                            && n.refresh_token@.len() > 0 && !crate::strutil::ends_truncated(
                            n.refresh_token@,
                        ) && crate::strutil::has_mask(n.refresh_token@),
                        PoolError::DuplicateRefreshToken => new_cred_plain(&n)
                            && token_shape_ok(n.refresh_token@) && token_taken(
                            old(self)@.creds,
                            n.refresh_token@,
                        ),
                        PoolError::IdSpaceExhausted => new_cred_plain(&n) && token_shape_ok(
                            n.refresh_token@,
                        ) && !token_taken(old(self)@.creds, n.refresh_token@) && old(self)@.next_id == u64::MAX,
                        _ => false,
                    }
                },
            },
    {
        if !new_cred_is_plain(&n) {
            return Err(PoolError::NonPlainField);
        }
        match check_token_shape(n.refresh_token.as_str()) {
            TokenShape::Empty => {
                return Err(PoolError::EmptyRefreshToken);
            },
            TokenShape::Truncated => {
                return Err(PoolError::TruncatedRefreshToken);
            },
            TokenShape::Masked => {
                return Err(PoolError::MaskedRefreshToken);
            },
            TokenShape::Acceptable => {},
        }
        if self.token_exists(n.refresh_token.as_str()) {
            return Err(PoolError::DuplicateRefreshToken);
        }
        if self.next_id == u64::MAX {
            return Err(PoolError::IdSpaceExhausted);
        }
        let id = self.next_id;
        let ghost nv = n;
        let cred = materialize(n, id);
        self.creds.push(cred);
        self.next_id = id + 1;
        proof {
            assert(self@.creds =~= old(self)@.creds.push(new_cred_view(nv, id)));
            lemma_wf_push(old(self)@, self@, new_cred_view(nv, id));
        }
        Ok(id)
    }

    /// Removes a credential. When it was the current one, the cursor moves
    /// to the best enabled credential that remains, or to nothing.
    pub fn delete_credential(&mut self, id: u64) -> (r: Result<(), PoolError>)
        requires
            old(self).wf(),
        ensures
            final(self).wf(),
            final(self)@.next_id == old(self)@.next_id,
            final(self)@.mode == old(self)@.mode,
            final(self)@.failure_threshold == old(self)@.failure_threshold,
            match r {
                Ok(()) => {
                    &&& has_id(old(self)@.creds, id)
                    &&& final(self)@.creds =~= old(self)@.creds.remove(
                        idx_of(old(self)@.creds, id),
                    )
                    &&& if old(self)@.current_id == id {
                        &&& (some_enabled(final(self)@.creds) ==> exists|k: int|
                            #[trigger] is_best_enabled(final(self)@.creds, k) && final(self)@.current_id == final(self)@.creds[k].id)
                        &&& (!some_enabled(final(self)@.creds) ==> final(self)@.current_id == 0)
                    } else {
                        final(self)@.current_id == old(self)@.current_id
                    }
                },
                Err(e) => {
                    &&& e == (PoolError::NotFound { id })
                    &&& !has_id(old(self)@.creds, id)
                    &&& final(self)@ =~= old(self)@
                },
            },
    {
        match self.find_index(id) {
            Some(i) => {
                let was_current = self.current_id == id;
                let removed = self.creds.remove(i);
                proof {
                    let oc = old(self)@.creds;
                    assert(idx_of(oc, id) == i as int) by {
                        let k = idx_of(oc, id);
                        assert(0 <= k < oc.len() && oc[k].id == id);
                        if k != i as int {
                            assert(oc[k].id != oc[i as int].id);
                        }
                    }
                }
                if was_current {
                    self.current_id = 0;
                    proof {
                        assert(self@.creds =~= old(self)@.creds.remove(i as int));
                        lemma_wf_remove(old(self)@, self@, i as int);
                    }
                    match self.best_enabled_index() {
                        Some(t) => {
                            let tid = self.creds[t].id;
                            self.current_id = tid;
                            proof {
                                assert(has_id(self@.creds, tid));
                            }
                        },
                        None => {},
                    }
                } else {
                    proof {
                        assert(self@.creds =~= old(self)@.creds.remove(i as int));
                        lemma_wf_remove(old(self)@, self@, i as int);
                    }
                }
                Ok(())
            },
            None => Err(PoolError::NotFound { id }),
        }
    }

    /// Records a successful refresh: the access token and its expiry are
    /// replaced, the failure count clears, the success count grows and the
    /// use is timestamped. Returns whether the credential exists.
    pub fn record_refresh_success(
        &mut self,
        id: u64,
        access_token: String,
        expires_at: Option<String>,
        last_used_at: String,
    ) -> (r: bool)
        requires
            old(self).wf(),
            crate::strutil::plain(access_token@),
            crate::strutil::opt_plain(crate::strutil::opt_view(expires_at)),
            crate::strutil::plain(last_used_at@),
        ensures
            final(self).wf(),
            final(self)@.next_id == old(self)@.next_id,
            final(self)@.current_id == old(self)@.current_id,
            final(self)@.mode == old(self)@.mode,
            final(self)@.failure_threshold == old(self)@.failure_threshold,
            r == has_id(old(self)@.creds, id),
            r ==> {
                let i = idx_of(old(self)@.creds, id);
                let c = old(self)@.creds[i];
                final(self)@.creds =~= old(self)@.creds.update(
                    i,
                    CredentialV {
                        access_token: Some(access_token@),
                        expires_at: crate::strutil::opt_view(expires_at),
                        failure_count: 0u32,
                        success_count: if c.success_count < u64::MAX {
                            (c.success_count + 1) as u64
                        } else {
                            c.success_count
                        },
                        last_used_at: Some(last_used_at@),
                        ..c
                    },
                )
            },
            !r ==> final(self)@ =~= old(self)@,
    {
        match self.find_index(id) {
            Some(i) => {
                let c = self.creds.remove(i);
                let bumped: u64 = if c.success_count < u64::MAX {
                    c.success_count + 1
                } else {
                    c.success_count
                };
                let updated = Credential {
                    access_token: Some(access_token),
                    expires_at,
                    failure_count: 0,
                    success_count: bumped,
                    last_used_at: Some(last_used_at),
                    ..c
                };
                self.creds.insert(i, updated);
                proof {
                    let oc = old(self)@.creds;
                    assert(idx_of(oc, id) == i as int) by {
                        let k = idx_of(oc, id);
                        assert(0 <= k < oc.len() && oc[k].id == id);
                        if k != i as int {
                            assert(oc[k].id != oc[i as int].id);
                        }
                    }
                    assert(self@.creds =~= oc.update(i as int, updated@));
                    lemma_wf_update_same_identity(old(self)@, self@, i as int, updated@);
                }
                true
            },
            None => false,
        }
    }

    /// Records a failed refresh: the failure count grows, saturating at the
    /// threshold; reaching the threshold disables the credential, and when
    /// the disabled credential was current the cursor rotates away from it.
    /// Returns whether the credential is now disabled.
    #[verifier::rlimit(30)]
    pub fn record_refresh_failure(&mut self, id: u64) -> (r: bool)
        requires
            old(self).wf(),
        ensures
            final(self).wf(),
            final(self)@.next_id == old(self)@.next_id,
            final(self)@.mode == old(self)@.mode,
            final(self)@.failure_threshold == old(self)@.failure_threshold,
            !has_id(old(self)@.creds, id) ==> final(self)@ =~= old(self)@ && r == false,
            has_id(old(self)@.creds, id) ==> r == failed_update(old(self)@, id).creds[idx_of(
                old(self)@.creds,
                id,
            )].disabled,
            has_id(old(self)@.creds, id) ==> final(self)@.creds =~= failed_update(
                old(self)@,
                id,
            ).creds,
            has_id(old(self)@.creds, id) && r && id == old(self)@.current_id ==> rotated_cursor(
                failed_update(old(self)@, id),
                final(self)@.current_id,
            ),
            has_id(old(self)@.creds, id) && !(r && id == old(self)@.current_id) ==> final(self)@.current_id == old(self)@.current_id,
    {
        match self.find_index(id) {
            Some(i) => {
                let c = self.creds.remove(i);
                let fc: u32 = if c.failure_count < self.failure_threshold {
                    c.failure_count + 1
                } else {
                    c.failure_count
                };
                let dis = c.disabled || fc == self.failure_threshold;
                let updated = Credential { failure_count: fc, disabled: dis, ..c };
                self.creds.insert(i, updated);
                proof {
                    let oc = old(self)@.creds;
                    assert(idx_of(oc, id) == i as int) by {
                        let k = idx_of(oc, id);
                        assert(0 <= k < oc.len() && oc[k].id == id);
                        if k != i as int {
                            assert(oc[k].id != oc[i as int].id);
                        }
                    }
                    assert(self@.creds =~= oc.update(i as int, updated@));
                    lemma_wf_update_same_identity(old(self)@, self@, i as int, updated@);
                }
                let ghost p1 = failed_update(old(self)@, id);
                proof {
                    assert(p1.creds =~= old(self)@.creds.update(i as int, updated@));
                    assert(self@ =~= p1);
                }
                if dis && self.current_id == id {
                    let moved = self.rotate_to_target();
                    proof {
                        match moved {
                            Some(t) => {
                                assert(is_rotation_target(p1, t as int));
                            },
                            None => {
                                assert(self@.current_id == 0);
                            },
                        }
                    }
                }
                dis
            },
            None => false,
        }
    }
}

/// The pool after one refresh failure of the credential with the id: its
/// failure count grows, saturating at the threshold, and reaching the
/// threshold disables it.
pub open spec fn failed_update(p: PoolV, id: u64) -> PoolV {
    let i = idx_of(p.creds, id);
    let c = p.creds[i];
    let fc = if c.failure_count < p.failure_threshold {
        (c.failure_count + 1) as u32
    } else {
        c.failure_count
    };
    let dis = c.disabled || fc == p.failure_threshold;
    PoolV { creds: p.creds.update(i, CredentialV { failure_count: fc, disabled: dis, ..c }), ..p }
}

/// The cursor after a rotation away from the current credential of `p`.
pub open spec fn rotated_cursor(p: PoolV, new_current: u64) -> bool {
    &&& (some_enabled(p.creds) ==> exists|k: int|
        #[trigger] is_rotation_target(p, k) && new_current == p.creds[k].id)
    &&& (!some_enabled(p.creds) ==> new_current == 0)
}

/// One credential of a point-in-time snapshot.
#[derive(Clone, Debug)]
pub struct SnapshotEntry {
    pub id: u64,
    pub priority: u32,
    pub disabled: bool,
    pub failure_count: u32,
    pub expires_at: Option<String>,
    pub auth_method: String,
    pub has_profile_arn: bool,
    pub success_count: u64,
    pub last_used_at: Option<String>,
    pub subscription_title: Option<String>,
    pub email: Option<String>,
}

/// A point-in-time projection of the pool.
#[derive(Clone, Debug)]
pub struct PoolSnapshot {
    /// How many credentials are stored.
    pub total: usize,
    /// How many are enabled.
    pub available: usize,
    pub current_id: u64,
    /// One entry per stored credential, in storage order.
    pub entries: Vec<SnapshotEntry>,
}

/// The snapshot entry projects exactly these fields of the credential.
pub open spec fn entry_matches(e: SnapshotEntry, c: CredentialV) -> bool {
    &&& e.id == c.id
    &&& e.priority == c.priority
    &&& e.disabled == c.disabled
    &&& e.failure_count == c.failure_count
    &&& crate::strutil::opt_view(e.expires_at) == c.expires_at
    &&& e.auth_method@ == c.auth_method
    &&& e.has_profile_arn == (c.profile_arn is Some)
    &&& e.success_count == c.success_count
    &&& crate::strutil::opt_view(e.last_used_at) == c.last_used_at
    &&& crate::strutil::opt_view(e.subscription_title) == c.subscription_title
    &&& crate::strutil::opt_view(e.email) == c.email
}

/// Clones an optional string.
fn clone_opt_string(o: &Option<String>) -> (r: Option<String>)
    ensures
        crate::strutil::opt_view(r) == crate::strutil::opt_view(*o),
{
    match o {
        Some(s) => Some(s.clone()),
        None => None,
    }
}

impl MultiTokenManager {
    /// A non-blocking projection of the whole pool: totals, the cursor and
    /// one entry per credential in storage order.
    pub fn snapshot(&self) -> (r: PoolSnapshot)
        ensures
            r.total == self@.creds.len(),
            r.available as int == count_enabled(self@.creds),
            r.current_id == self@.current_id,
            r.entries@.len() == self@.creds.len(),
            forall|i: int|
                0 <= i < self@.creds.len() ==> entry_matches(
                    #[trigger] r.entries@[i],
                    self@.creds[i],
                ),
    {
        let n = self.creds.len();
        let mut entries: Vec<SnapshotEntry> = Vec::new();
        let mut available: usize = 0;
        let mut i: usize = 0;
        while i < n
            invariant
                i <= n,
                n == self@.creds.len(),
                entries@.len() == i,
                available as int == count_enabled(self@.creds.take(i as int)),
                available <= i,
                forall|j: int|
                    0 <= j < i ==> entry_matches(#[trigger] entries@[j], self@.creds[j]),
            decreases n - i,
        {
            let c = &self.creds[i];
            let e = SnapshotEntry {
                id: c.id,
                priority: c.priority,
                disabled: c.disabled,
                failure_count: c.failure_count,
                expires_at: clone_opt_string(&c.expires_at),
                auth_method: c.auth_method.clone(),
                has_profile_arn: c.profile_arn.is_some(),
                success_count: c.success_count,
                last_used_at: clone_opt_string(&c.last_used_at),
                subscription_title: clone_opt_string(&c.subscription_title),
                email: clone_opt_string(&c.email),
            };
            entries.push(e);
            proof {
                assert(self@.creds.take(i + 1).drop_last() =~= self@.creds.take(i as int));
                assert(self@.creds.take(i + 1).last() == self@.creds[i as int]);
            }
            if !c.disabled {
                available = available + 1;
            }
            i = i + 1;
        }
        proof {
            assert(self@.creds.take(n as int) =~= self@.creds);
        }
        PoolSnapshot { total: n, available, current_id: self.current_id, entries }
    }
}

/// A loaded credential list that a well-formed pool could have written:
/// ids at least one, strictly increasing and below the allocator maximum,
/// refresh tokens unique, failure counts within the threshold and fields
/// plain.
pub open spec fn creds_clean(s: Seq<CredentialV>, threshold: u32) -> bool {
    &&& forall|i: int| 0 <= i < s.len() ==> 1 <= (#[trigger] s[i]).id < u64::MAX
    &&& forall|i: int, j: int|
        0 <= i < j < s.len() ==> (#[trigger] s[i]).id < (#[trigger] s[j]).id
    &&& forall|i: int, j: int|
        0 <= i < s.len() && 0 <= j < s.len() && i != j ==> (#[trigger] s[i]).refresh_token != (
        #[trigger] s[j]).refresh_token
    &&& forall|i: int| 0 <= i < s.len() ==> (#[trigger] s[i]).failure_count <= threshold
    &&& forall|i: int|
        0 <= i < s.len() && (#[trigger] s[i]).failure_count == threshold ==> s[i].disabled
    &&& forall|i: int| 0 <= i < s.len() ==> cred_plain(#[trigger] s[i])
}

/// Whether a loaded credential joins what the scan already kept: its id is
/// positive, strictly above the last kept id and below the allocator
/// maximum, its failure count respects the threshold, its fields are plain
/// and its refresh token is not already kept.
pub open spec fn load_keeps(
    c: CredentialV,
    kept: Seq<CredentialV>,
    last_id: u64,
    threshold: u32,
) -> bool {
    &&& 1 <= c.id
    &&& c.id > last_id
    &&& c.id < u64::MAX
    &&& (c.failure_count < threshold || (c.failure_count == threshold && c.disabled))
    &&& cred_plain(c)
    &&& !token_taken(kept, c.refresh_token)
}

/// The credentials a load keeps: one left-to-right scan over the list,
/// keeping each entry exactly when `load_keeps` admits it.
pub open spec fn spec_load_pool(
    s: Seq<CredentialV>,
    i: int,
    kept: Seq<CredentialV>,
    last_id: u64,
    threshold: u32,
) -> Seq<CredentialV>
    decreases s.len() - i,
{
    if i < 0 || i >= s.len() {
        kept
    } else if load_keeps(s[i], kept, last_id, threshold) {
        spec_load_pool(s, i + 1, kept.push(s[i]), s[i].id, threshold)
    } else {
        spec_load_pool(s, i + 1, kept, last_id, threshold)
    }
}

impl MultiTokenManager {
    /// Rebuilds a pool from a list read off disk. The kept credentials are
    /// exactly the `spec_load_pool` scan: entries a well-formed pool could
    /// not have written are skipped and the good ones around them are kept;
    /// a clean list is taken over unchanged, so a pool reloaded right after
    /// a save equals the saved one credential for credential. The id
    /// allocator resumes past the highest id kept and nothing is selected
    /// yet.
    pub fn from_loaded(
        creds: Vec<Credential>,
        mode: LoadBalancingMode,
        failure_threshold: u32,
    ) -> (r: Self)
        requires
            failure_threshold >= 1,
        ensures
            r.wf(),
            r@.mode == mode,
            r@.failure_threshold == failure_threshold,
            r@.current_id == 0,
            r@.creds =~= spec_load_pool(
                creds_view(creds@),
                0,
                Seq::empty(),
                0,
                failure_threshold,
            ),
            creds_clean(creds_view(creds@), failure_threshold) ==> r@.creds =~= creds_view(
                creds@,
            ),
    {
        let n = creds.len();
        let mut kept: Vec<Credential> = Vec::new();
        let mut last_id: u64 = 0;
        let mut i: usize = 0;
        let mut creds = creds;
        proof {
            assert(creds_view(creds@).take(0) =~= Seq::<CredentialV>::empty());
            assert(creds_view(kept@) =~= Seq::<CredentialV>::empty());
        }
        while i < n
            invariant
                i <= n,
                n == creds@.len(),
                kept@.len() <= i,
                last_id < u64::MAX,
                spec_load_pool(creds_view(creds@), 0, Seq::empty(), 0, failure_threshold)
                    == spec_load_pool(
                    creds_view(creds@),
                    i as int,
                    creds_view(kept@),
                    last_id,
                    failure_threshold,
                ),
                forall|k: int|
                    0 <= k < kept@.len() ==> 1 <= (#[trigger] creds_view(kept@)[k]).id <= last_id,
                kept@.len() == 0 ==> last_id == 0,
                kept@.len() > 0 ==> creds_view(kept@)[kept@.len() - 1].id == last_id,
                forall|k: int, l: int|
                    0 <= k < l < kept@.len() ==> (#[trigger] creds_view(kept@)[k]).id < (
                    #[trigger] creds_view(kept@)[l]).id,
                forall|k: int, l: int|
                    0 <= k < kept@.len() && 0 <= l < kept@.len() && k != l ==> (#[trigger] creds_view(
                        kept@,
                    )[k]).refresh_token != (#[trigger] creds_view(kept@)[l]).refresh_token,
                forall|k: int|
                    0 <= k < kept@.len() ==> (#[trigger] creds_view(kept@)[k]).failure_count
                        <= failure_threshold,
                forall|k: int|
                    0 <= k < kept@.len() && (#[trigger] creds_view(kept@)[k]).failure_count
                        == failure_threshold ==> creds_view(kept@)[k].disabled,
                forall|k: int| 0 <= k < kept@.len() ==> cred_plain(#[trigger] creds_view(kept@)[k]),
                creds_clean(creds_view(creds@), failure_threshold) ==> creds_view(kept@)
                    =~= creds_view(creds@).take(i as int),
            decreases n - i,
        {
            let c = &creds[i];
            let id_ok = c.id >= 1 && c.id > last_id && c.id < u64::MAX;
            let fc_ok = c.failure_count < failure_threshold || (c.failure_count
                == failure_threshold && c.disabled);
            let keep = id_ok && fc_ok && crate::credential::cred_is_plain(c)
                && !token_in(&kept, c.refresh_token.as_str());
            proof {
                assert(keep == load_keeps(
                    creds_view(creds@)[i as int],
                    creds_view(kept@),
                    last_id,
                    failure_threshold,
                ));
            }
            proof {
                if creds_clean(creds_view(creds@), failure_threshold) {
                    let cv = creds_view(creds@);
                    assert(cv[i as int] == creds@[i as int]@);
                    if i > 0 {
                        assert(creds_view(kept@)[i - 1] == cv.take(i as int)[i - 1]);
                        assert(cv.take(i as int)[i - 1] == cv[i - 1]);
                    }
                    assert(keep);
                }
            }
            if keep {
                let ghost prev = kept@;
                let ghost prev_last = last_id;
                let owned = copy_credential(c);
                last_id = owned.id;
                kept.push(owned);
                proof {
                    assert(creds_view(kept@) =~= creds_view(prev).push(creds@[i as int]@));
                    assert(forall|k: int|
                        0 <= k < prev.len() ==> #[trigger] creds_view(kept@)[k] == creds_view(
                            prev,
                        )[k]);
                    assert(creds_view(kept@)[prev.len() as int] == creds@[i as int]@);
                    assert(forall|k: int|
                        0 <= k < prev.len() ==> (#[trigger] creds_view(prev)[k]).id <= prev_last);
                }
            }
            proof {
                if creds_clean(creds_view(creds@), failure_threshold) {
                    assert(creds_view(kept@) =~= creds_view(creds@).take(i + 1));
                }
                assert(spec_load_pool(creds_view(creds@), 0, Seq::empty(), 0, failure_threshold)
                    == spec_load_pool(
                    creds_view(creds@),
                    i + 1,
                    creds_view(kept@),
                    last_id,
                    failure_threshold,
                ));
            }
            i = i + 1;
        }
        proof {
            assert(creds_view(creds@).take(n as int) =~= creds_view(creds@));
        }
        MultiTokenManager {
            creds: kept,
            next_id: last_id + 1,
            current_id: 0,
            mode,
            failure_threshold,
        }
    }
}

/// Whether any credential of the list holds this refresh token.
fn token_in(creds: &Vec<Credential>, t: &str) -> (r: bool)
    ensures
        r == token_taken(creds_view(creds@), t@),
{
    let n = creds.len();
    let mut i: usize = 0;
    while i < n
        invariant
            i <= n,
            n == creds@.len(),
            forall|j: int| 0 <= j < i ==> (#[trigger] creds_view(creds@)[j]).refresh_token != t@,
        decreases n - i,
    {
        if str_eq(creds[i].refresh_token.as_str(), t) {
            proof {
                assert((#[trigger] creds_view(creds@)[i as int]).refresh_token == t@);
            }
            return true;
        }
        i = i + 1;
    }
    false
}

/// Copies a stored credential field for field.
fn copy_credential(c: &Credential) -> (r: Credential)
    ensures
        r@ == c@,
{
    Credential {
        id: c.id,
        refresh_token: c.refresh_token.clone(),
        access_token: clone_opt_string(&c.access_token),
        profile_arn: clone_opt_string(&c.profile_arn),
        expires_at: clone_opt_string(&c.expires_at),
        auth_method: c.auth_method.clone(),
        client_id: clone_opt_string(&c.client_id),
        client_secret: clone_opt_string(&c.client_secret),
        priority: c.priority,
        region: clone_opt_string(&c.region),
        auth_region: clone_opt_string(&c.auth_region),
        api_region: clone_opt_string(&c.api_region),
        machine_id: clone_opt_string(&c.machine_id),
        disabled: c.disabled,
        failure_count: c.failure_count,
        success_count: c.success_count,
        last_used_at: clone_opt_string(&c.last_used_at),
        subscription_title: clone_opt_string(&c.subscription_title),
        proxy_url: clone_opt_string(&c.proxy_url),
        proxy_username: clone_opt_string(&c.proxy_username),
        proxy_password: clone_opt_string(&c.proxy_password),
        email: clone_opt_string(&c.email),
    }
}

/// The refresh tokens of two enabled credentials always differ; they differ
/// across the whole pool, disabled ones included.
pub proof fn lemma_refresh_tokens_unique(p: PoolV, i: int, j: int)
    requires
        wf_pool(p),
        0 <= i < p.creds.len(),
        0 <= j < p.creds.len(),
        i != j,
    ensures
        p.creds[i].refresh_token != p.creds[j].refresh_token,
{
}

/// Every stored id is below the allocator bound and ids grow strictly in
/// storage order, so the id an add assigns is strictly greater than every
/// id the pool ever stored: ids are never reused, also after a delete.
pub proof fn lemma_ids_strictly_increasing(p: PoolV, i: int, j: int)
    requires
        wf_pool(p),
        0 <= i < j < p.creds.len(),
    ensures
        p.creds[i].id < p.creds[j].id,
        p.creds[j].id < p.next_id,
{
}

/// A failure count never exceeds the threshold, and a count at the
/// threshold always comes with the disabled flag.
pub proof fn lemma_failure_count_bounded(p: PoolV, i: int)
    requires
        wf_pool(p),
        0 <= i < p.creds.len(),
    ensures
        p.creds[i].failure_count <= p.failure_threshold,
        p.creds[i].failure_count == p.failure_threshold ==> p.creds[i].disabled,
{
}

/// The stored record an accepted request materializes into, in spec form.
pub open spec fn new_cred_view(n: NewCredential, id: u64) -> CredentialV {
    CredentialV {
        id,
        refresh_token: n.refresh_token@,
        access_token: crate::strutil::opt_view(n.access_token),
        profile_arn: crate::strutil::opt_view(n.profile_arn),
        expires_at: crate::strutil::opt_view(n.expires_at),
        auth_method: n.auth_method@,
        client_id: crate::strutil::opt_view(n.client_id),
        client_secret: crate::strutil::opt_view(n.client_secret),
        priority: n.priority,
        region: crate::strutil::opt_view(n.region),
        auth_region: crate::strutil::opt_view(n.auth_region),
        api_region: crate::strutil::opt_view(n.api_region),
        machine_id: crate::strutil::opt_view(n.machine_id),
        disabled: false,
        failure_count: 0u32,
        success_count: 0u64,
        last_used_at: None,
        subscription_title: None,
        proxy_url: crate::strutil::opt_view(n.proxy_url),
        proxy_username: crate::strutil::opt_view(n.proxy_username),
        proxy_password: crate::strutil::opt_view(n.proxy_password),
        email: crate::strutil::opt_view(n.email),
    }
}

} // verus!
