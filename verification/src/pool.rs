//! The credential pool: single source of truth for the record set and the
//! "current" pointer. Composes the selector, the failure tracker and the
//! refresh write-back, and exposes the operational API.

use vstd::prelude::*;
use crate::admin::{AddCredentialRequest, CredentialStatusItem, CredentialsStatusResponse};
use crate::decimal::dec_seq;
use crate::decimal::u64_to_dec;
use crate::record::{
    clone_opt_string, method_name, method_of_name, auth_method_name, AuthMethod, CredentialRecord,
};
use crate::selector::{enabled_at, has_enabled, ids_unique, is_best_idx, select_best};
use crate::tracker::{apply_outcome, apply_outcome_spec, PoolConfig, ReportOutcome};

verus! {

/// The error taxonomy of the pool's operations.
#[derive(Clone, Copy, PartialEq, Eq, Structural, Debug)]
pub enum PoolError {
    /// Unknown id (operator error); reported synchronously, never retried.
    NotFound,
    /// Malformed add or import entry.
    InvalidRequest,
    /// No enabled credential is available; terminal for the request.
    PoolExhausted,
    /// The token exchange was rejected or timed out.
    RefreshFailed,
    /// The usage query against the upstream service failed.
    UpstreamError,
}

/// What `acquire` hands to a request handler: everything needed to use the
/// credential and to refresh it, without exposing the pool's bookkeeping.
#[derive(Debug)]
pub struct CredentialHandle {
    pub id: u64,
    pub auth_method: AuthMethod,
    pub access_token: Option<String>,
    pub refresh_token: String,
    pub csrf_token: Option<String>,
    pub client_id: Option<String>,
    pub client_secret: Option<String>,
    pub expires_at: Option<u64>,
}

/// The handle cut from a record.
pub open spec fn handle_of(rec: CredentialRecord) -> CredentialHandle {
    CredentialHandle {
        id: rec.id,
        auth_method: rec.auth_method,
        access_token: rec.access_token,
        refresh_token: rec.refresh_token,
        csrf_token: rec.csrf_token,
        client_id: rec.client_id,
        client_secret: rec.client_secret,
        expires_at: rec.expires_at,
    }
}

fn make_handle(rec: &CredentialRecord) -> (h: CredentialHandle)
    ensures
        h == handle_of(*rec),
{
    CredentialHandle {
        id: rec.id,
        auth_method: rec.auth_method,
        access_token: clone_opt_string(&rec.access_token),
        refresh_token: rec.refresh_token.clone(),
        csrf_token: clone_opt_string(&rec.csrf_token),
        client_id: clone_opt_string(&rec.client_id),
        client_secret: clone_opt_string(&rec.client_secret),
        expires_at: rec.expires_at,
    }
}

/// Some record carries this id.
pub open spec fn has_id(s: Seq<CredentialRecord>, id: u64) -> bool {
    exists|i: int| 0 <= i < s.len() && (#[trigger] s[i]).id == id
}

/// The index of the record carrying this id (meaningful under `has_id` and
/// unique ids).
pub open spec fn idx_of_id(s: Seq<CredentialRecord>, id: u64) -> int {
    choose|i: int| 0 <= i < s.len() && (#[trigger] s[i]).id == id
}

/// The record carrying this id.
pub open spec fn record_with_id(s: Seq<CredentialRecord>, id: u64) -> CredentialRecord {
    s[idx_of_id(s, id)]
}

proof fn lemma_idx_of_id(s: Seq<CredentialRecord>, id: u64, i: int)
    requires
        ids_unique(s),
        0 <= i < s.len(),
        s[i].id == id,
    ensures
        idx_of_id(s, id) == i,
        record_with_id(s, id) == s[i],
{
    assert(has_id(s, id));
    let k = idx_of_id(s, id);
    assert(0 <= k < s.len() && s[k].id == id);
    if k != i {
        if k < i {
            assert(s[k].id != s[i].id);
        } else {
            assert(s[i].id != s[k].id);
        }
    }
}

/// All ids lie below the bound (the next id to hand out).
pub open spec fn ids_below(s: Seq<CredentialRecord>, bound: u64) -> bool {
    forall|i: int| 0 <= i < s.len() ==> (#[trigger] s[i]).id < bound
}

/// The "current" pointer names an existing, enabled record, or nothing.
pub open spec fn current_ok(s: Seq<CredentialRecord>, cur: Option<u64>) -> bool {
    match cur {
        Option::Some(c) => exists|i: int|
            0 <= i < s.len() && (#[trigger] s[i]).id == c && !s[i].disabled,
        Option::None => true,
    }
}

/// How many records are enabled.
pub open spec fn num_enabled(s: Seq<CredentialRecord>) -> nat
    decreases s.len(),
{
    if s.len() == 0 {
        0
    } else {
        num_enabled(s.drop_last()) + if s.last().disabled {
            0nat
        } else {
            1nat
        }
    }
}

/// One status line faithfully renders one record: counters copied, the
/// expiry as a decimal Unix timestamp, the auth method by name, and the
/// current marker set exactly on the current record.
pub open spec fn item_matches(
    it: CredentialStatusItem,
    rec: CredentialRecord,
    cur: Option<u64>,
) -> bool {
    &&& it.id == rec.id
    &&& it.priority == rec.priority
    &&& it.disabled == rec.disabled
    &&& it.failure_count == rec.failure_count
    &&& it.is_current == (cur == Option::Some(rec.id))
    &&& match (rec.expires_at, it.expires_at) {
        (Option::Some(t), Option::Some(s)) => s@ == dec_seq(t as nat),
        (Option::None, Option::None) => true,
        _ => false,
    }
    &&& match it.auth_method {
        Option::Some(s) => s@ == method_name(rec.auth_method),
        Option::None => false,
    }
    &&& it.has_profile_arn == (rec.profile_arn is Some)
}

/// An add request is valid when the refresh token is non-empty and an IdC
/// method supplies its client credentials.
pub open spec fn add_request_valid(req: AddCredentialRequest) -> bool {
    &&& req.refresh_token@.len() > 0
    &&& (method_of_name(req.auth_method@) == AuthMethod::IdC ==> req.client_id is Some
        && req.client_secret is Some)
}

/// The credential pool. All reads and writes of the record set go through
/// its methods; under the concurrency discipline the whole pool sits behind
/// one lock whose critical sections never perform network I/O.
pub struct CredentialPool {
    pub records: Vec<CredentialRecord>,
    pub next_id: u64,
    pub current: Option<u64>,
    pub config: PoolConfig,
}

impl CredentialPool {
    /// Pool invariant: unique ids below `next_id`, a sane policy, and a
    /// "current" pointer that names an existing enabled record or nothing.
    pub open spec fn wf(self) -> bool {
        &&& ids_unique(self.records@)
        &&& ids_below(self.records@, self.next_id)
        &&& current_ok(self.records@, self.current)
        &&& self.config.wf()
    }

    /// An empty pool. Ids start at 1, so 0 can stand for "no current
    /// record" in status views.
    pub fn new(config: PoolConfig) -> (r: Self)
        requires
            config.wf(),
        ensures
            r.wf(),
            r.records@.len() == 0,
            r.next_id == 1,
            r.current is None,
            r.config == config,
    {
        CredentialPool { records: Vec::new(), next_id: 1, current: None, config }
    }

    fn find_index(&self, id: u64) -> (r: Option<usize>)
        ensures
            match r {
                Option::Some(i) => i < self.records@.len() && self.records@[i as int].id == id,
                Option::None => !has_id(self.records@, id),
            },
    {
        let mut k: usize = 0;
        while k < self.records.len()
            invariant
                k <= self.records@.len(),
                forall|j: int| 0 <= j < k ==> (#[trigger] self.records@[j]).id != id,
            decreases self.records@.len() - k,
        {
            if self.records[k].id == id {
                return Some(k);
            }
            k = k + 1;
        }
        None
    }

    /// Insert a record: it gets the next fresh id, starts enabled and with
    /// a clean failure history, whatever the caller passed in those fields.
    pub fn add_record(&mut self, rec: CredentialRecord) -> (id: u64)
        requires
            old(self).wf(),
            old(self).next_id < u64::MAX,
        ensures
            final(self).wf(),
            id == old(self).next_id,
            final(self).next_id == old(self).next_id + 1,
            final(self).current == old(self).current,
            final(self).config == old(self).config,
            final(self).records@ == old(self).records@.push(
                CredentialRecord { id: id, disabled: false, failure_count: 0, ..rec },
            ),
    {
        let id = self.next_id;
        self.next_id = id + 1;
        let rec2 = CredentialRecord { id: id, disabled: false, failure_count: 0, ..rec };
        self.records.push(rec2);
        proof {
            let s = self.records@;
            let olds = old(self).records@;
            assert forall|i: int, j: int|
                #![trigger s[i].id, s[j].id]
                0 <= i < j < s.len() implies s[i].id != s[j].id by {
                if j < olds.len() {
                    assert(olds[i].id != olds[j].id);
                } else {
                    assert(olds[i].id < old(self).next_id);
                }
            }
            match old(self).current {
                Option::Some(c) => {
                    let w = choose|i: int|
                        0 <= i < olds.len() && (#[trigger] olds[i]).id == c && !olds[i].disabled;
                    assert(s[w].id == c && !s[w].disabled);
                },
                Option::None => {},
            }
        }
        id
    }

    /// Operator add: validate the request, then insert. Fails with
    /// `InvalidRequest` exactly when the refresh token is empty or an IdC
    /// request misses its client credentials; on success returns the fresh
    /// id of a record built from the request.
    pub fn add_credential(&mut self, req: AddCredentialRequest) -> (r: Result<u64, PoolError>)
        requires
            old(self).wf(),
            old(self).next_id < u64::MAX,
        ensures
            final(self).wf(),
            r is Ok <==> add_request_valid(req),
            match r {
                Result::Ok(id) => {
                    &&& id == old(self).next_id
                    &&& final(self).next_id == old(self).next_id + 1
                    &&& final(self).current == old(self).current
                    &&& final(self).config == old(self).config
                    &&& final(self).records@.len() == old(self).records@.len() + 1
                    &&& forall|i: int|
                        0 <= i < old(self).records@.len() ==> final(self).records@[i] == old(
                            self,
                        ).records@[i]
                    &&& ({
                        let rec = final(self).records@.last();
                        &&& rec.id == id
                        &&& rec.priority == req.priority
                        &&& !rec.disabled
                        &&& rec.failure_count == 0
                        &&& rec.auth_method == method_of_name(req.auth_method@)
                        &&& rec.refresh_token == req.refresh_token
                        &&& rec.client_id == req.client_id
                        &&& rec.client_secret == req.client_secret
                        &&& rec.access_token is None
                        &&& rec.expires_at is None
                        &&& rec.tags@.len() == 0
                    })
                },
                Result::Err(e) => e == PoolError::InvalidRequest && *final(self) == *old(self),
            },
    {
        if req.refresh_token.as_str().is_empty() {
            return Err(PoolError::InvalidRequest);
        }
        let method = crate::record::parse_auth_method(req.auth_method.as_str());
        if method == AuthMethod::IdC && (req.client_id.is_none() || req.client_secret.is_none()) {
            return Err(PoolError::InvalidRequest);
        }
        let rec = CredentialRecord {
            id: 0,
            priority: req.priority,
            disabled: false,
            failure_count: 0,
            auth_method: method,
            access_token: None,
            refresh_token: req.refresh_token,
            csrf_token: None,
            client_id: req.client_id,
            client_secret: req.client_secret,
            expires_at: None,
            email: None,
            user_id: None,
            nickname: None,
            provider: None,
            idp: None,
            region: None,
            profile_arn: None,
            tags: Vec::new(),
            status: None,
            subscription_info: None,
            usage_info: None,
        };
        let id = self.add_record(rec);
        Ok(id)
    }

    /// Report the outcome of using credential `id`. An unknown id is a
    /// no-op (the record may have been removed concurrently). Success
    /// resets the failure count; a counted failure bumps it and disables
    /// the record at the threshold; if that record was current, the pointer
    /// is cleared so the next `acquire` re-selects.
    pub fn report(&mut self, id: u64, o: ReportOutcome)
        requires
            old(self).wf(),
        ensures
            final(self).wf(),
            final(self).next_id == old(self).next_id,
            final(self).config == old(self).config,
            final(self).records@.len() == old(self).records@.len(),
            forall|j: int|
                0 <= j < old(self).records@.len() && (#[trigger] old(self).records@[j]).id != id
                    ==> final(self).records@[j] == old(self).records@[j],
            forall|j: int|
                0 <= j < old(self).records@.len() && (#[trigger] old(self).records@[j]).id == id
                    ==> final(self).records@[j] == apply_outcome_spec(
                    old(self).records@[j],
                    o,
                    old(self).config,
                ),
            final(self).current == (
            if old(self).current == Option::<u64>::Some(id) && has_id(old(self).records@, id)
                && apply_outcome_spec(
                record_with_id(old(self).records@, id),
                o,
                old(self).config,
            ).disabled {
                Option::<u64>::None
            } else {
                old(self).current
            }),
    {
        let found = self.find_index(id);
        match found {
            Option::None => {},
            Option::Some(i) => {
                let ghost olds = old(self).records@;
                let mut rec = self.records.remove(i);
                apply_outcome(&mut rec, o, self.config);
                let now_disabled = rec.disabled;
                self.records.insert(i, rec);
                proof {
                    assert(self.records@ =~= olds.update(
                        i as int,
                        apply_outcome_spec(olds[i as int], o, old(self).config),
                    ));
                    lemma_idx_of_id(olds, id, i as int);
                    assert forall|j: int|
                        0 <= j < olds.len() && (#[trigger] olds[j]).id == id implies j == i
                        as int by {
                        if j != i as int {
                            if j < i as int {
                                assert(olds[j].id != olds[i as int].id);
                            } else {
                                assert(olds[i as int].id != olds[j].id);
                            }
                        }
                    }
                }
                if now_disabled {
                    let clear = match self.current {
                        Option::Some(c) => c == id,
                        Option::None => false,
                    };
                    if clear {
                        self.current = None;
                    }
                }
                proof {
                    let s = self.records@;
                    let olds = old(self).records@;
                    assert forall|k: int| 0 <= k < s.len() implies (#[trigger] s[k]).id
                        == olds[k].id by {}
                    assert forall|a: int, b: int|
                        #![trigger s[a].id, s[b].id]
                        0 <= a < b < s.len() implies s[a].id != s[b].id by {
                        assert(olds[a].id != olds[b].id);
                    }
                    match self.current {
                        Option::Some(c) => {
                            let w = choose|k: int|
                                0 <= k < olds.len() && (#[trigger] olds[k]).id == c
                                    && !olds[k].disabled;
                            if w == i as int {
                                assert(s[w].id == c && !s[w].disabled);
                            } else {
                                assert(s[w] == olds[w]);
                            }
                        },
                        Option::None => {},
                    }
                }
            },
        }
    }

    /// Operator override of the disabled flag. Fails with `NotFound`
    /// exactly when the id is unknown. Disabling the current record clears
    /// the "current" pointer so the next `acquire` re-selects.
    pub fn set_disabled(&mut self, id: u64, disabled: bool) -> (r: Result<(), PoolError>)
        requires
            old(self).wf(),
        ensures
            final(self).wf(),
            final(self).next_id == old(self).next_id,
            final(self).config == old(self).config,
            r is Ok <==> has_id(old(self).records@, id),
            match r {
                Result::Ok(_) => {
                    &&& final(self).records@.len() == old(self).records@.len()
                    &&& forall|j: int|
                        0 <= j < old(self).records@.len() && (#[trigger] old(
                            self,
                        ).records@[j]).id != id ==> final(self).records@[j] == old(
                            self,
                        ).records@[j]
                    &&& forall|j: int|
                        0 <= j < old(self).records@.len() && (#[trigger] old(
                            self,
                        ).records@[j]).id == id ==> final(self).records@[j] == (CredentialRecord {
                            disabled,
                            ..old(self).records@[j]
                        })
                    &&& final(self).current == (
                    if disabled && old(self).current == Option::<u64>::Some(id) {
                        Option::<u64>::None
                    } else {
                        old(self).current
                    })
                },
                Result::Err(e) => e == PoolError::NotFound && *final(self) == *old(self),
            },
    {
        let found = self.find_index(id);
        match found {
            Option::None => Err(PoolError::NotFound),
            Option::Some(i) => {
                let ghost olds = old(self).records@;
                let mut rec = self.records.remove(i);
                rec.disabled = disabled;
                self.records.insert(i, rec);
                proof {
                    assert(self.records@ =~= olds.update(
                        i as int,
                        CredentialRecord { disabled, ..olds[i as int] },
                    ));
                    assert forall|j: int|
                        0 <= j < olds.len() && (#[trigger] olds[j]).id == id implies j == i
                        as int by {
                        if j != i as int {
                            if j < i as int {
                                assert(olds[j].id != olds[i as int].id);
                            } else {
                                assert(olds[i as int].id != olds[j].id);
                            }
                        }
                    }
                }
                if disabled {
                    let clear = match self.current {
                        Option::Some(c) => c == id,
                        Option::None => false,
                    };
                    if clear {
                        self.current = None;
                    }
                }
                proof {
                    let s = self.records@;
                    assert forall|a: int, b: int|
                        #![trigger s[a].id, s[b].id]
                        0 <= a < b < s.len() implies s[a].id != s[b].id by {
                        assert(olds[a].id != olds[b].id);
                    }
                    match self.current {
                        Option::Some(c) => {
                            let w = choose|k: int|
                                0 <= k < olds.len() && (#[trigger] olds[k]).id == c
                                    && !olds[k].disabled;
                            if w == i as int {
                                assert(s[w].id == c && !s[w].disabled);
                            } else {
                                assert(s[w] == olds[w]);
                            }
                        },
                        Option::None => {},
                    }
                }
                Ok(())
            },
        }
    }

    /// Operator override of the priority. Fails with `NotFound` exactly
    /// when the id is unknown. The next `acquire` re-selects under the new
    /// priorities.
    pub fn set_priority(&mut self, id: u64, priority: u32) -> (r: Result<(), PoolError>)
        requires
            old(self).wf(),
        ensures
            final(self).wf(),
            final(self).next_id == old(self).next_id,
            final(self).config == old(self).config,
            final(self).current == old(self).current,
            r is Ok <==> has_id(old(self).records@, id),
            match r {
                Result::Ok(_) => {
                    &&& final(self).records@.len() == old(self).records@.len()
                    &&& forall|j: int|
                        0 <= j < old(self).records@.len() && (#[trigger] old(
                            self,
                        ).records@[j]).id != id ==> final(self).records@[j] == old(
                            self,
                        ).records@[j]
                    &&& forall|j: int|
                        0 <= j < old(self).records@.len() && (#[trigger] old(
                            self,
                        ).records@[j]).id == id ==> final(self).records@[j] == (CredentialRecord {
                            priority,
                            ..old(self).records@[j]
                        })
                },
                Result::Err(e) => e == PoolError::NotFound && *final(self) == *old(self),
            },
    {
        let found = self.find_index(id);
        match found {
            Option::None => Err(PoolError::NotFound),
            Option::Some(i) => {
                let ghost olds = old(self).records@;
                let mut rec = self.records.remove(i);
                rec.priority = priority;
                self.records.insert(i, rec);
                proof {
                    assert(self.records@ =~= olds.update(
                        i as int,
                        CredentialRecord { priority, ..olds[i as int] },
                    ));
                    assert forall|j: int|
                        0 <= j < olds.len() && (#[trigger] olds[j]).id == id implies j == i
                        as int by {
                        if j != i as int {
                            if j < i as int {
                                assert(olds[j].id != olds[i as int].id);
                            } else {
                                assert(olds[i as int].id != olds[j].id);
                            }
                        }
                    }
                    let s = self.records@;
                    assert forall|a: int, b: int|
                        #![trigger s[a].id, s[b].id]
                        0 <= a < b < s.len() implies s[a].id != s[b].id by {
                        assert(olds[a].id != olds[b].id);
                    }
                    match self.current {
                        Option::Some(c) => {
                            let w = choose|k: int|
                                0 <= k < olds.len() && (#[trigger] olds[k]).id == c
                                    && !olds[k].disabled;
                            if w == i as int {
                                assert(s[w].id == c && !s[w].disabled);
                            } else {
                                assert(s[w] == olds[w]);
                            }
                        },
                        Option::None => {},
                    }
                }
                Ok(())
            },
        }
    }

    /// Select and return the best enabled credential: lowest priority
    /// value, ties broken by lowest id; it becomes current. Fails with
    /// `PoolExhausted` exactly when no enabled record exists.
    pub fn acquire(&mut self) -> (r: Result<CredentialHandle, PoolError>)
        requires
            old(self).wf(),
        ensures
            final(self).wf(),
            final(self).records@ == old(self).records@,
            final(self).next_id == old(self).next_id,
            final(self).config == old(self).config,
            r is Ok <==> has_enabled(old(self).records@),
            match r {
                Result::Ok(h) => {
                    &&& final(self).current == Option::<u64>::Some(h.id)
                    &&& exists|i: int|
                        0 <= i < old(self).records@.len() && is_best_idx(old(self).records@, i)
                            && h == handle_of(#[trigger] old(self).records@[i])
                },
                Result::Err(e) => e == PoolError::PoolExhausted && final(self).current is None,
            },
    {
        let best = select_best(&self.records);
        match best {
            Option::Some(i) => {
                let h = make_handle(&self.records[i]);
                self.current = Some(h.id);
                proof {
                    assert(enabled_at(self.records@, i as int));
                    assert(self.records@[i as int].id == h.id && !self.records@[i as int].disabled);
                }
                Ok(h)
            },
            Option::None => {
                self.current = None;
                Err(PoolError::PoolExhausted)
            },
        }
    }

    /// Write back a successful token refresh: the access token and expiry
    /// are updated together; health state and everything else stay as they
    /// were (a refresh success is not a usage success). Fails with
    /// `NotFound` exactly when the id is unknown.
    pub fn store_refreshed_token(&mut self, id: u64, access_token: String, expires_at: u64) -> (r:
        Result<(), PoolError>)
        requires
            old(self).wf(),
        ensures
            final(self).wf(),
            final(self).next_id == old(self).next_id,
            final(self).config == old(self).config,
            final(self).current == old(self).current,
            r is Ok <==> has_id(old(self).records@, id),
            match r {
                Result::Ok(_) => {
                    &&& final(self).records@.len() == old(self).records@.len()
                    &&& forall|j: int|
                        0 <= j < old(self).records@.len() && (#[trigger] old(
                            self,
                        ).records@[j]).id != id ==> final(self).records@[j] == old(
                            self,
                        ).records@[j]
                    &&& forall|j: int|
                        0 <= j < old(self).records@.len() && (#[trigger] old(
                            self,
                        ).records@[j]).id == id ==> final(self).records@[j] == (CredentialRecord {
                            access_token: Option::Some(access_token),
                            expires_at: Option::Some(expires_at),
                            ..old(self).records@[j]
                        })
                },
                Result::Err(e) => e == PoolError::NotFound && *final(self) == *old(self),
            },
    {
        let found = self.find_index(id);
        match found {
            Option::None => Err(PoolError::NotFound),
            Option::Some(i) => {
                let ghost olds = old(self).records@;
                let mut rec = self.records.remove(i);
                rec.access_token = Some(access_token);
                rec.expires_at = Some(expires_at);
                self.records.insert(i, rec);
                proof {
                    assert(self.records@ =~= olds.update(
                        i as int,
                        CredentialRecord {
                            access_token: Option::Some(access_token),
                            expires_at: Option::Some(expires_at),
                            ..olds[i as int]
                        },
                    ));
                    assert forall|j: int|
                        0 <= j < olds.len() && (#[trigger] olds[j]).id == id implies j == i
                        as int by {
                        if j != i as int {
                            if j < i as int {
                                assert(olds[j].id != olds[i as int].id);
                            } else {
                                assert(olds[i as int].id != olds[j].id);
                            }
                        }
                    }
                    let s = self.records@;
                    assert forall|a: int, b: int|
                        #![trigger s[a].id, s[b].id]
                        0 <= a < b < s.len() implies s[a].id != s[b].id by {
                        assert(olds[a].id != olds[b].id);
                    }
                    match self.current {
                        Option::Some(c) => {
                            let w = choose|k: int|
                                0 <= k < olds.len() && (#[trigger] olds[k]).id == c
                                    && !olds[k].disabled;
                            if w == i as int {
                                assert(s[w].id == c && !s[w].disabled);
                            } else {
                                assert(s[w] == olds[w]);
                            }
                        },
                        Option::None => {},
                    }
                }
                Ok(())
            },
        }
    }

    /// Point-in-time view of the pool for status reporting: totals, the
    /// current id (0 when none), and one faithful line per record.
    pub fn snapshot(&self) -> (r: CredentialsStatusResponse)
        ensures
            r.total == self.records@.len(),
            r.available == num_enabled(self.records@),
            r.current_id == (match self.current {
                Option::Some(c) => c,
                Option::None => 0u64,
            }),
            r.credentials@.len() == self.records@.len(),
            forall|i: int|
                0 <= i < self.records@.len() ==> item_matches(
                    #[trigger] r.credentials@[i],
                    self.records@[i],
                    self.current,
                ),
    {
        let mut items: Vec<CredentialStatusItem> = Vec::new();
        let mut avail: usize = 0;
        let mut k: usize = 0;
        while k < self.records.len()
            invariant
                k <= self.records@.len(),
                items@.len() == k,
                avail <= k,
                avail == num_enabled(self.records@.take(k as int)),
                forall|i: int|
                    0 <= i < k ==> item_matches(
                        #[trigger] items@[i],
                        self.records@[i],
                        self.current,
                    ),
            decreases self.records@.len() - k,
        {
            let rec = &self.records[k];
            let exp: Option<String> = match rec.expires_at {
                Option::Some(t) => Some(u64_to_dec(t)),
                Option::None => None,
            };
            let isc: bool = match self.current {
                Option::Some(c) => c == rec.id,
                Option::None => false,
            };
            let item = CredentialStatusItem {
                id: rec.id,
                priority: rec.priority,
                disabled: rec.disabled,
                failure_count: rec.failure_count,
                is_current: isc,
                expires_at: exp,
                auth_method: Some(auth_method_name(rec.auth_method)),
                has_profile_arn: rec.profile_arn.is_some(),
            };
            if !rec.disabled {
                avail = avail + 1;
            }
            items.push(item);
            proof {
                assert(self.records@.take(k as int + 1).drop_last() =~= self.records@.take(
                    k as int,
                ));
                assert(self.records@.take(k as int + 1).last() == self.records@[k as int]);
            }
            k = k + 1;
        }
        proof {
            assert(self.records@.take(self.records@.len() as int) =~= self.records@);
        }
        let cur: u64 = match self.current {
            Option::Some(c) => c,
            Option::None => 0,
        };
        CredentialsStatusResponse {
            total: self.records.len(),
            available: avail,
            current_id: cur,
            credentials: items,
        }
    }
}

} // verus!
