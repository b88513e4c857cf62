//! The selector: deterministic choice of the best enabled record — lowest
//! priority value, ties broken by lowest id.

use vstd::prelude::*;
use crate::record::CredentialRecord;

verus! {

/// Ids are pairwise distinct.
pub open spec fn ids_unique(s: Seq<CredentialRecord>) -> bool {
    forall|i: int, j: int|
        #![trigger s[i].id, s[j].id]
        0 <= i < j < s.len() ==> s[i].id != s[j].id
}

/// `a` is strictly preferred to `b`: lower priority value, ties broken by
/// lower id. Failure counts play no part; health acts only through the
/// disabled flag.
pub open spec fn prefer(a: CredentialRecord, b: CredentialRecord) -> bool {
    a.priority < b.priority || (a.priority == b.priority && a.id < b.id)
}

/// `i` is a valid index of an enabled record.
pub open spec fn enabled_at(s: Seq<CredentialRecord>, i: int) -> bool {
    0 <= i < s.len() && !s[i].disabled
}

/// Some record is enabled.
pub open spec fn has_enabled(s: Seq<CredentialRecord>) -> bool {
    exists|i: int| enabled_at(s, i)
}

/// `i` is the selector's choice: enabled and preferred to every other
/// enabled record.
pub open spec fn is_best_idx(s: Seq<CredentialRecord>, i: int) -> bool {
    enabled_at(s, i) && forall|j: int|
        enabled_at(s, j) && j != i ==> prefer(s[i], #[trigger] s[j])
}

/// Pick the index of the best enabled record, if any record is enabled.
pub fn select_best(records: &Vec<CredentialRecord>) -> (r: Option<usize>)
    requires
        ids_unique(records@),
    ensures
        match r {
            Some(i) => i < records@.len() && is_best_idx(records@, i as int),
            None => !has_enabled(records@),
        },
{
    let mut best: Option<usize> = None;
    let mut k: usize = 0;
    while k < records.len()
        invariant
            k <= records@.len(),
            ids_unique(records@),
            match best {
                Some(b) => b < k && enabled_at(records@, b as int) && forall|j: int|
                    enabled_at(records@, j) && j < k && j != b ==> prefer(
                        records@[b as int],
                        #[trigger] records@[j],
                    ),
                None => forall|j: int| 0 <= j < k ==> !enabled_at(records@, j),
            },
        decreases records@.len() - k,
    {
        if !records[k].disabled {
            match best {
                None => {
                    best = Some(k);
                },
                Some(b) => {
                    if records[k].priority < records[b].priority || (records[k].priority
                        == records[b].priority && records[k].id < records[b].id) {
                        best = Some(k);
                    }
                },
            }
        }
        k = k + 1;
    }
    best
}

/// Law: with unique ids the selector's choice is unique — `acquire` is
/// deterministic.
pub proof fn lemma_best_unique(s: Seq<CredentialRecord>, i: int, j: int)
    requires
        ids_unique(s),
        is_best_idx(s, i),
        is_best_idx(s, j),
    ensures
        i == j,
{
    if i != j {
        assert(prefer(s[i], s[j]));
        assert(prefer(s[j], s[i]));
    }
}

/// Law: disabling the selector's current choice changes the selection — a
/// choice made afterwards, if any, is a different (still enabled) record.
pub proof fn lemma_disable_current_reselects(s: Seq<CredentialRecord>, i: int, j: int)
    requires
        ids_unique(s),
        is_best_idx(s, i),
        is_best_idx(s.update(i, CredentialRecord { disabled: true, ..s[i] }), j),
    ensures
        j != i,
        s.update(i, CredentialRecord { disabled: true, ..s[i] })[j].id != s[i].id,
        !s.update(i, CredentialRecord { disabled: true, ..s[i] })[j].disabled,
{
    let s2 = s.update(i, CredentialRecord { disabled: true, ..s[i] });
    assert(s2[i].disabled);
    assert(j != i);
    assert(s2[j] == s[j]);
    if j < i {
        assert(s[j].id != s[i].id);
    } else {
        assert(s[i].id != s[j].id);
    }
}

} // verus!
