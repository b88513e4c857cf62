//! The batch reconciler: merges an externally supplied account list into
//! the pool without destroying existing health or priority state. Entries
//! are deduplicated by refresh token; each entry is processed independently
//! and one entry's failure never aborts the batch.

use vstd::prelude::*;
use crate::decimal::{dec_seq, u64_to_dec};
use crate::pool::CredentialPool;
use crate::record::{method_of_name, parse_auth_method, AuthMethod, CredentialRecord};
use vstd::string::StringExecFns;

verus! {

/// Credentials of one imported account.
pub struct ImportCredentials {
    pub access_token: Option<String>,
    pub csrf_token: Option<String>,
    pub refresh_token: Option<String>,
    pub client_id: Option<String>,
    pub client_secret: Option<String>,
    pub region: Option<String>,
    pub expires_at: Option<u64>,
    pub auth_method: Option<String>,
    pub provider: Option<String>,
}

/// One account from an exported account list. The subscription and usage
/// blobs are preserved opaquely (as their serialized text) for downstream
/// display; the core never interprets them.
pub struct ImportAccount {
    pub email: Option<String>,
    pub user_id: Option<String>,
    pub nickname: Option<String>,
    pub idp: Option<String>,
    pub credentials: ImportCredentials,
    pub subscription: Option<String>,
    pub usage: Option<String>,
    pub tags: Vec<String>,
    pub status: Option<String>,
}

/// Per-entry line of the import report.
pub struct ImportResult {
    pub identifier: String,
    pub success: bool,
    pub message: String,
    pub credential_id: Option<u64>,
}

/// The import report: counts plus one line per entry.
pub struct BatchImportResponse {
    pub success: bool,
    pub message: String,
    pub imported_count: usize,
    pub skipped_count: usize,
    pub failed_count: usize,
    pub results: Vec<ImportResult>,
}

/// The auth method of an imported account; absent means `Social`.
pub open spec fn credentials_method(c: ImportCredentials) -> AuthMethod {
    match c.auth_method {
        Option::Some(s) => method_of_name(s@),
        Option::None => AuthMethod::Social,
    }
}

/// An entry is valid when it carries a non-empty refresh token and, for the
/// IdC method, client credentials.
pub open spec fn entry_valid(a: ImportAccount) -> bool {
    match a.credentials.refresh_token {
        Option::Some(t) => t@.len() > 0 && (credentials_method(a.credentials) == AuthMethod::IdC
            ==> a.credentials.client_id is Some && a.credentials.client_secret is Some),
        Option::None => false,
    }
}

/// The dedup key of an entry: its refresh token text.
pub open spec fn entry_key(a: ImportAccount) -> Seq<char> {
    match a.credentials.refresh_token {
        Option::Some(t) => t@,
        Option::None => Seq::empty(),
    }
}

/// Some record carries this refresh token.
pub open spec fn has_key(s: Seq<CredentialRecord>, k: Seq<char>) -> bool {
    exists|i: int| 0 <= i < s.len() && (#[trigger] s[i]).refresh_token@ == k
}

/// The first index at or after `from` whose record carries the key, or the
/// length when none does.
pub open spec fn first_key_idx(s: Seq<CredentialRecord>, k: Seq<char>, from: int) -> int
    decreases s.len() - from,
{
    if from < 0 || from >= s.len() {
        s.len() as int
    } else if s[from].refresh_token@ == k {
        from
    } else {
        first_key_idx(s, k, from + 1)
    }
}

proof fn lemma_fki_props(s: Seq<CredentialRecord>, k: Seq<char>, from: int)
    requires
        0 <= from <= s.len(),
    ensures
        from <= first_key_idx(s, k, from) <= s.len(),
        first_key_idx(s, k, from) < s.len() ==> s[first_key_idx(s, k, from)].refresh_token@ == k,
        forall|m: int|
            from <= m < first_key_idx(s, k, from) ==> (#[trigger] s[m]).refresh_token@ != k,
    decreases s.len() - from,
{
    if from < s.len() && s[from].refresh_token@ != k {
        lemma_fki_props(s, k, from + 1);
    }
}

proof fn lemma_fki_of_has_key(s: Seq<CredentialRecord>, k: Seq<char>)
    requires
        has_key(s, k),
    ensures
        0 <= first_key_idx(s, k, 0) < s.len(),
        s[first_key_idx(s, k, 0)].refresh_token@ == k,
{
    lemma_fki_props(s, k, 0);
    if first_key_idx(s, k, 0) == s.len() {
        let w = choose|i: int| 0 <= i < s.len() && (#[trigger] s[i]).refresh_token@ == k;
        assert(s[w].refresh_token@ != k);
    }
}

/// The record after its descriptive metadata is overwritten by an entry:
/// identity, priority, health, tokens and expiry stay as they were.
pub open spec fn merged_record(rec: CredentialRecord, a: ImportAccount) -> CredentialRecord {
    CredentialRecord {
        email: a.email,
        user_id: a.user_id,
        nickname: a.nickname,
        idp: a.idp,
        provider: a.credentials.provider,
        region: a.credentials.region,
        tags: a.tags,
        status: a.status,
        subscription_info: a.subscription,
        usage_info: a.usage,
        ..rec
    }
}

/// The record created for a new entry: enabled, clean history, default
/// priority, everything else from the entry.
pub open spec fn imported_record(a: ImportAccount, id: u64) -> CredentialRecord {
    CredentialRecord {
        id: id,
        priority: 0,
        disabled: false,
        failure_count: 0,
        auth_method: credentials_method(a.credentials),
        access_token: a.credentials.access_token,
        refresh_token: a.credentials.refresh_token->0,
        csrf_token: a.credentials.csrf_token,
        client_id: a.credentials.client_id,
        client_secret: a.credentials.client_secret,
        expires_at: a.credentials.expires_at,
        email: a.email,
        user_id: a.user_id,
        nickname: a.nickname,
        provider: a.credentials.provider,
        idp: a.idp,
        region: a.credentials.region,
        profile_arn: Option::None,
        tags: a.tags,
        status: a.status,
        subscription_info: a.subscription,
        usage_info: a.usage,
    }
}

/// Ghost state of an import in progress: the record set, the next fresh id,
/// and the running counts.
pub struct ImportModel {
    pub records: Seq<CredentialRecord>,
    pub next: int,
    pub imported: int,
    pub skipped: int,
    pub failed: int,
}

/// One entry's effect: an invalid entry only counts as failed; an entry
/// whose key is present merges metadata into the first matching record and
/// counts as skipped; a new key appends a fresh record and counts as
/// imported.
pub open spec fn import_step(m: ImportModel, a: ImportAccount) -> ImportModel {
    if !entry_valid(a) {
        ImportModel { failed: m.failed + 1, ..m }
    } else {
        let i = first_key_idx(m.records, entry_key(a), 0);
        if i < m.records.len() {
            ImportModel {
                records: m.records.update(i, merged_record(m.records[i], a)),
                skipped: m.skipped + 1,
                ..m
            }
        } else {
            ImportModel {
                records: m.records.push(imported_record(a, m.next as u64)),
                next: m.next + 1,
                imported: m.imported + 1,
                ..m
            }
        }
    }
}

/// A whole batch's effect, first entry first.
pub open spec fn import_fold(m: ImportModel, accs: Seq<ImportAccount>) -> ImportModel
    decreases accs.len(),
{
    if accs.len() == 0 {
        m
    } else {
        import_fold(import_step(m, accs[0]), accs.drop_first())
    }
}

proof fn lemma_import_fold_snoc(m: ImportModel, accs: Seq<ImportAccount>, a: ImportAccount)
    ensures
        import_fold(m, accs.push(a)) == import_step(import_fold(m, accs), a),
    decreases accs.len(),
{
    if accs.len() == 0 {
        assert(accs.push(a)[0] == a);
        assert(accs.push(a).drop_first() =~= Seq::<ImportAccount>::empty());
        assert(import_fold(m, accs) == m);
        assert(import_fold(m, accs.push(a)) == import_fold(
            import_step(m, a),
            accs.push(a).drop_first(),
        ));
    } else {
        assert(accs.push(a)[0] == accs[0]);
        assert(accs.push(a).drop_first() =~= accs.drop_first().push(a));
        lemma_import_fold_snoc(import_step(m, accs[0]), accs.drop_first(), a);
        assert(import_fold(m, accs.push(a)) == import_fold(
            import_step(m, accs[0]),
            accs.drop_first().push(a),
        ));
        assert(import_fold(m, accs) == import_fold(import_step(m, accs[0]), accs.drop_first()));
    }
}

/// Identity and health of a record are untouched: same id, priority,
/// disabled flag, failure count, and refresh token.
pub open spec fn keeps_health(a: CredentialRecord, b: CredentialRecord) -> bool {
    &&& b.id == a.id
    &&& b.priority == a.priority
    &&& b.disabled == a.disabled
    &&& b.failure_count == a.failure_count
    &&& b.refresh_token == a.refresh_token
}

/// Law: an import, whatever its entries, never removes a record and never
/// mutates an existing record's id, priority, disabled state, failure
/// count, or refresh token — operator tuning and health history survive.
pub proof fn lemma_import_preserves_health(m: ImportModel, accs: Seq<ImportAccount>)
    ensures
        import_fold(m, accs).records.len() >= m.records.len(),
        forall|j: int|
            0 <= j < m.records.len() ==> keeps_health(
                m.records[j],
                #[trigger] import_fold(m, accs).records[j],
            ),
        import_fold(m, accs).next >= m.next,
    decreases accs.len(),
{
    if accs.len() > 0 {
        let m1 = import_step(m, accs[0]);
        if entry_valid(accs[0]) {
            lemma_fki_props(m.records, entry_key(accs[0]), 0);
        }
        assert(m1.records.len() >= m.records.len());
        assert(forall|j: int|
            0 <= j < m.records.len() ==> keeps_health(m.records[j], #[trigger] m1.records[j]));
        lemma_import_preserves_health(m1, accs.drop_first());
    }
}

proof fn lemma_fold_keeps_key(m: ImportModel, accs: Seq<ImportAccount>, k: Seq<char>)
    requires
        has_key(m.records, k),
    ensures
        has_key(import_fold(m, accs).records, k),
    decreases accs.len(),
{
    if accs.len() > 0 {
        let a = accs[0];
        let m1 = import_step(m, a);
        let w = choose|i: int| 0 <= i < m.records.len() && (#[trigger] m.records[i]).refresh_token@
            == k;
        if entry_valid(a) {
            let f = first_key_idx(m.records, entry_key(a), 0);
            lemma_fki_props(m.records, entry_key(a), 0);
            if f < m.records.len() {
                assert(m1.records == m.records.update(f, merged_record(m.records[f], a)));
                if w == f {
                    assert(m1.records[w].refresh_token == m.records[f].refresh_token);
                } else {
                    assert(m1.records[w] == m.records[w]);
                }
            } else {
                assert(m1.records[w] == m.records[w]);
            }
        } else {
            assert(m1.records[w] == m.records[w]);
        }
        assert(m1.records[w].refresh_token@ == k);
        assert(has_key(m1.records, k));
        lemma_fold_keeps_key(m1, accs.drop_first(), k);
    }
}

proof fn lemma_fold_adds_keys(m: ImportModel, accs: Seq<ImportAccount>)
    requires
        forall|i: int| 0 <= i < accs.len() ==> entry_valid(#[trigger] accs[i]),
    ensures
        forall|i: int|
            0 <= i < accs.len() ==> has_key(
                import_fold(m, accs).records,
                entry_key(#[trigger] accs[i]),
            ),
    decreases accs.len(),
{
    if accs.len() > 0 {
        let a = accs[0];
        let k = entry_key(a);
        let m1 = import_step(m, a);
        let i = first_key_idx(m.records, k, 0);
        lemma_fki_props(m.records, k, 0);
        if i < m.records.len() {
            assert(m1.records[i].refresh_token@ == k);
        } else {
            assert(m1.records.last().refresh_token@ == k);
        }
        assert(has_key(m1.records, k));
        lemma_fold_keeps_key(m1, accs.drop_first(), k);
        assert forall|j: int| 0 <= j < accs.drop_first().len() implies entry_valid(
            #[trigger] accs.drop_first()[j],
        ) by {
            assert(accs.drop_first()[j] == accs[j + 1]);
        }
        lemma_fold_adds_keys(m1, accs.drop_first());
        assert forall|j: int| 0 <= j < accs.len() implies has_key(
            import_fold(m, accs).records,
            entry_key(#[trigger] accs[j]),
        ) by {
            if j == 0 {
            } else {
                assert(accs.drop_first()[j - 1] == accs[j]);
                assert(has_key(
                    import_fold(m1, accs.drop_first()).records,
                    entry_key(accs.drop_first()[j - 1]),
                ));
            }
        }
    }
}

proof fn lemma_import_all_present(m: ImportModel, accs: Seq<ImportAccount>)
    requires
        forall|i: int| 0 <= i < accs.len() ==> entry_valid(#[trigger] accs[i]),
        forall|i: int| 0 <= i < accs.len() ==> has_key(m.records, entry_key(#[trigger] accs[i])),
    ensures
        ({
            let m1 = import_fold(m, accs);
            &&& m1.imported == m.imported
            &&& m1.skipped == m.skipped + accs.len()
            &&& m1.failed == m.failed
            &&& m1.next == m.next
            &&& m1.records.len() == m.records.len()
            &&& forall|j: int|
                0 <= j < m.records.len() ==> keeps_health(m.records[j], #[trigger] m1.records[j])
        }),
    decreases accs.len(),
{
    if accs.len() > 0 {
        let a = accs[0];
        let k = entry_key(a);
        lemma_fki_of_has_key(m.records, k);
        let m1 = import_step(m, a);
        assert(m1.records.len() == m.records.len());
        assert(forall|j: int|
            0 <= j < m.records.len() ==> (#[trigger] m1.records[j]).refresh_token
                == m.records[j].refresh_token);
        assert forall|i: int| 0 <= i < accs.drop_first().len() implies has_key(
            m1.records,
            entry_key(#[trigger] accs.drop_first()[i]),
        ) by {
            assert(accs.drop_first()[i] == accs[i + 1]);
            let kk = entry_key(accs[i + 1]);
            let w = choose|x: int|
                0 <= x < m.records.len() && (#[trigger] m.records[x]).refresh_token@ == kk;
            assert(m1.records[w].refresh_token@ == kk);
        }
        assert forall|i: int| 0 <= i < accs.drop_first().len() implies entry_valid(
            #[trigger] accs.drop_first()[i],
        ) by {
            assert(accs.drop_first()[i] == accs[i + 1]);
        }
        lemma_import_all_present(m1, accs.drop_first());
    }
}

/// Law (idempotent import): importing a batch of valid accounts and then
/// importing the identical batch again yields, on the second run, no
/// imports and no failures — every entry is counted as skipped — creates
/// no record, assigns no id, and never mutates any record's id, priority,
/// disabled state, failure count, or refresh token.
pub proof fn lemma_import_idempotent(m: ImportModel, accs: Seq<ImportAccount>)
    requires
        forall|i: int| 0 <= i < accs.len() ==> entry_valid(#[trigger] accs[i]),
    ensures
        ({
            let m1 = import_fold(m, accs);
            let m2 = import_fold(
                ImportModel { records: m1.records, next: m1.next, imported: 0, skipped: 0, failed: 0 },
                accs,
            );
            &&& m2.imported == 0
            &&& m2.skipped == accs.len()
            &&& m2.failed == 0
            &&& m2.next == m1.next
            &&& m2.records.len() == m1.records.len()
            &&& forall|j: int|
                0 <= j < m1.records.len() ==> keeps_health(m1.records[j], #[trigger] m2.records[j])
        }),
{
    lemma_fold_adds_keys(m, accs);
    let m1 = import_fold(m, accs);
    let mstart = ImportModel {
        records: m1.records,
        next: m1.next,
        imported: 0,
        skipped: 0,
        failed: 0,
    };
    lemma_import_all_present(mstart, accs);
}

/// The identifier reported for an entry: its email, else its nickname,
/// else a generated placeholder from the entry's position.
pub open spec fn identifier_spec(a: ImportAccount, idx: int) -> Seq<char> {
    match a.email {
        Option::Some(e) => e@,
        Option::None => match a.nickname {
            Option::Some(n) => n@,
            Option::None => "entry-"@ + dec_seq(idx as nat),
        },
    }
}

/// One report line is faithful to its entry, given the ghost state `m`
/// reached before the entry was processed.
pub open spec fn result_matches(
    res: ImportResult,
    a: ImportAccount,
    idx: int,
    m: ImportModel,
) -> bool {
    &&& res.identifier@ == identifier_spec(a, idx)
    &&& res.message@.len() > 0
    &&& if !entry_valid(a) {
        !res.success && res.credential_id is None
    } else if first_key_idx(m.records, entry_key(a), 0) < m.records.len() {
        res.success && res.credential_id is None
    } else {
        res.success && res.credential_id == Option::<u64>::Some(m.next as u64)
    }
}

fn find_by_key(records: &Vec<CredentialRecord>, key: &String) -> (r: Option<usize>)
    ensures
        match r {
            Option::Some(i) => i < records@.len() && first_key_idx(records@, key@, 0) == i as int,
            Option::None => first_key_idx(records@, key@, 0) == records@.len() as int,
        },
{
    let mut j: usize = 0;
    while j < records.len()
        invariant
            j <= records@.len(),
            forall|m: int| 0 <= m < j ==> (#[trigger] records@[m]).refresh_token@ != key@,
        decreases records@.len() - j,
    {
        if records[j].refresh_token == *key {
            proof {
                lemma_fki_props(records@, key@, 0);
                let f = first_key_idx(records@, key@, 0);
                if f < j as int {
                    assert(records@[f].refresh_token@ != key@);
                }
                if f > j as int {
                    assert(records@[j as int].refresh_token@ != key@);
                }
            }
            return Some(j);
        }
        j = j + 1;
    }
    proof {
        lemma_fki_props(records@, key@, 0);
        let f = first_key_idx(records@, key@, 0);
        if f < records@.len() {
            assert(records@[f].refresh_token@ != key@);
        }
    }
    None
}

/// Merge a batch of imported accounts into the pool. Each entry is handled
/// independently: an invalid entry is counted as failed, an entry whose
/// refresh token is already known updates descriptive metadata only (and is
/// counted as skipped), and a new refresh token creates a fresh enabled
/// record. One entry's failure never aborts the batch.
pub fn import_batch(pool: &mut CredentialPool, accounts: Vec<ImportAccount>) -> (r:
    BatchImportResponse)
    requires
        old(pool).wf(),
        old(pool).next_id as int + accounts@.len() < u64::MAX as int,
    ensures
        final(pool).wf(),
        final(pool).config == old(pool).config,
        final(pool).current == old(pool).current,
        ({
            let m0 = ImportModel {
                records: old(pool).records@,
                next: old(pool).next_id as int,
                imported: 0,
                skipped: 0,
                failed: 0,
            };
            let m1 = import_fold(m0, accounts@);
            &&& final(pool).records@ == m1.records
            &&& final(pool).next_id as int == m1.next
            &&& r.imported_count as int == m1.imported
            &&& r.skipped_count as int == m1.skipped
            &&& r.failed_count as int == m1.failed
            &&& r.success == (m1.failed == 0)
            &&& r.message@.len() > 0
            &&& r.results@.len() == accounts@.len()
            &&& forall|i: int|
                0 <= i < accounts@.len() ==> result_matches(
                    #[trigger] r.results@[i],
                    accounts@[i],
                    i,
                    import_fold(m0, accounts@.take(i)),
                )
        }),
{
    let ghost orig = accounts@;
    let ghost m0 = ImportModel {
        records: old(pool).records@,
        next: old(pool).next_id as int,
        imported: 0,
        skipped: 0,
        failed: 0,
    };
    let mut remaining = accounts;
    let total: usize = remaining.len();
    let mut imported: usize = 0;
    let mut skipped: usize = 0;
    let mut failed: usize = 0;
    let mut results: Vec<ImportResult> = Vec::new();
    let mut idx: usize = 0;
    while remaining.len() > 0
        invariant
            pool.wf(),
            total as int == orig.len(),
            idx <= total,
            remaining@ == orig.skip(idx as int),
            pool.config == old(pool).config,
            pool.current == old(pool).current,
            old(pool).next_id as int + orig.len() < u64::MAX as int,
            ({
                let m = import_fold(m0, orig.take(idx as int));
                &&& pool.records@ == m.records
                &&& pool.next_id as int == m.next
                &&& imported as int == m.imported
                &&& skipped as int == m.skipped
                &&& failed as int == m.failed
            }),
            imported + skipped + failed == idx,
            pool.next_id as int <= old(pool).next_id as int + idx,
            results@.len() == idx,
            forall|i: int|
                0 <= i < idx ==> result_matches(
                    #[trigger] results@[i],
                    orig[i],
                    i,
                    import_fold(m0, orig.take(i)),
                ),
        decreases remaining@.len(),
    {
        let ghost m_pre = import_fold(m0, orig.take(idx as int));
        proof {
            assert(remaining@.len() == orig.len() - idx as int);
            assert(idx < orig.len());
        }
        let a = remaining.remove(0);
        let ghost a0 = a;
        proof {
            assert(orig.skip(idx as int)[0] == orig[idx as int]);
            assert(remaining@ =~= orig.skip(idx as int + 1));
        }
        let identifier: String = match &a.email {
            Option::Some(e) => e.clone(),
            Option::None => match &a.nickname {
                Option::Some(n) => n.clone(),
                Option::None => {
                    let mut s = "entry-".to_owned();
                    let num = u64_to_dec(idx as u64);
                    s.append(num.as_str());
                    proof {
                        assert((idx as u64) as nat == idx as nat);
                    }
                    s
                },
            },
        };
        proof {
            assert(identifier@ == identifier_spec(a0, idx as int));
        }
        let method: AuthMethod = match &a.credentials.auth_method {
            Option::Some(s) => parse_auth_method(s.as_str()),
            Option::None => AuthMethod::Social,
        };
        let valid: bool = match &a.credentials.refresh_token {
            Option::Some(t) => {
                if t.as_str().is_empty() {
                    false
                } else if method == AuthMethod::IdC && (a.credentials.client_id.is_none()
                    || a.credentials.client_secret.is_none()) {
                    false
                } else {
                    true
                }
            },
            Option::None => false,
        };
        proof {
            assert(method == credentials_method(a0.credentials));
            assert(valid == entry_valid(a0));
        }
        if !valid {
            failed = failed + 1;
            results.push(
                ImportResult {
                    identifier,
                    success: false,
                    message: "invalid account entry".to_owned(),
                    credential_id: None,
                },
            );
            proof {
                reveal_strlit("invalid account entry");
            }
        } else {
            let found: Option<usize> = match &a.credentials.refresh_token {
                Option::Some(t) => find_by_key(&pool.records, t),
                Option::None => None,
            };
            let ImportAccount {
                email,
                user_id,
                nickname,
                idp,
                credentials,
                subscription,
                usage,
                tags,
                status,
            } = a;
            let ImportCredentials {
                access_token,
                csrf_token,
                refresh_token,
                client_id,
                client_secret,
                region,
                expires_at,
                auth_method: _,
                provider,
            } = credentials;
            match found {
                Option::Some(i) => {
                    let ghost prev = pool.records@;
                    let mut rec = pool.records.remove(i);
                    rec.email = email;
                    rec.user_id = user_id;
                    rec.nickname = nickname;
                    rec.idp = idp;
                    rec.provider = provider;
                    rec.region = region;
                    rec.tags = tags;
                    rec.status = status;
                    rec.subscription_info = subscription;
                    rec.usage_info = usage;
                    pool.records.insert(i, rec);
                    skipped = skipped + 1;
                    results.push(
                        ImportResult {
                            identifier,
                            success: true,
                            message: "updated existing credential".to_owned(),
                            credential_id: None,
                        },
                    );
                    proof {
                        reveal_strlit("updated existing credential");
                        assert(pool.records@ =~= prev.update(
                            i as int,
                            merged_record(prev[i as int], a0),
                        ));
                        let s = pool.records@;
                        assert forall|p: int, q: int|
                            #![trigger s[p].id, s[q].id]
                            0 <= p < q < s.len() implies s[p].id != s[q].id by {
                            assert(prev[p].id != prev[q].id);
                        }
                        assert forall|x: int| 0 <= x < s.len() implies (#[trigger] s[x]).id
                            < pool.next_id by {
                            assert(prev[x].id < pool.next_id);
                        }
                        match pool.current {
                            Option::Some(c) => {
                                let w = choose|k: int|
                                    0 <= k < prev.len() && (#[trigger] prev[k]).id == c
                                        && !prev[k].disabled;
                                assert(s[w].id == c && !s[w].disabled);
                            },
                            Option::None => {},
                        }
                    }
                },
                Option::None => {
                    let rt: String = match refresh_token {
                        Option::Some(t) => t,
                        Option::None => String::new(),
                    };
                    proof {
                        assert(a0.credentials.refresh_token is Some);
                        assert(rt == a0.credentials.refresh_token->0);
                    }
                    let rec = CredentialRecord {
                        id: 0,
                        priority: 0,
                        disabled: false,
                        failure_count: 0,
                        auth_method: method,
                        access_token,
                        refresh_token: rt,
                        csrf_token,
                        client_id,
                        client_secret,
                        expires_at,
                        email,
                        user_id,
                        nickname,
                        provider,
                        idp,
                        region,
                        profile_arn: None,
                        tags,
                        status,
                        subscription_info: subscription,
                        usage_info: usage,
                    };
                    let newid = pool.add_record(rec);
                    imported = imported + 1;
                    results.push(
                        ImportResult {
                            identifier,
                            success: true,
                            message: "imported new credential".to_owned(),
                            credential_id: Some(newid),
                        },
                    );
                    proof {
                        reveal_strlit("imported new credential");
                        assert(pool.records@ == m_pre.records.push(
                            imported_record(a0, m_pre.next as u64),
                        ));
                    }
                },
            }
        }
        proof {
            assert(orig.take(idx as int + 1) =~= orig.take(idx as int).push(orig[idx as int]));
            lemma_import_fold_snoc(m0, orig.take(idx as int), orig[idx as int]);
        }
        idx = idx + 1;
    }
    proof {
        assert(orig.skip(idx as int).len() == 0);
        assert(idx as int == orig.len());
        assert(orig.take(idx as int) =~= orig);
        reveal_strlit("import finished");
    }
    BatchImportResponse {
        success: failed == 0,
        message: "import finished".to_owned(),
        imported_count: imported,
        skipped_count: skipped,
        failed_count: failed,
        results,
    }
}

} // verus!
