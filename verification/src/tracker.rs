//! The failure tracker: turns reported success/failure signals into
//! health-state transitions on a record.

use vstd::prelude::*;
use crate::record::CredentialRecord;

verus! {

/// Classification of a failed use of a credential. Authentication rejections
/// always count toward auto-disable; transient network timeouts count only
/// if the policy says so.
#[derive(Clone, Copy, PartialEq, Eq, Structural, Debug)]
pub enum FailureKind {
    AuthRejected,
    NetworkTimeout,
}

/// The outcome a caller reports after using a credential.
#[derive(Clone, Copy, PartialEq, Eq, Structural, Debug)]
pub enum ReportOutcome {
    Success,
    Failure(FailureKind),
}

/// Pool policy: the consecutive-failure threshold at which a record is
/// auto-disabled, whether network timeouts count toward it, and the safety
/// margin (seconds) before token expiry at which a refresh is triggered.
#[derive(Clone, Copy, PartialEq, Eq, Structural, Debug)]
pub struct PoolConfig {
    pub disable_threshold: u32,
    pub count_network_failures: bool,
    pub refresh_margin_secs: u64,
}

impl PoolConfig {
    /// A usable policy has a positive threshold.
    pub open spec fn wf(self) -> bool {
        self.disable_threshold >= 1
    }
}

/// Whether a failure of this kind counts toward the disable threshold.
pub open spec fn failure_counts(k: FailureKind, cfg: PoolConfig) -> bool {
    match k {
        FailureKind::AuthRejected => true,
        FailureKind::NetworkTimeout => cfg.count_network_failures,
    }
}

/// The failure count after one more counted failure (saturating).
pub open spec fn bumped(fc: u32) -> u32 {
    if fc == u32::MAX {
        fc
    } else {
        (fc + 1) as u32
    }
}

/// The record after one reported outcome: success resets the failure count;
/// a counted failure bumps it and disables the record once the bumped count
/// reaches the threshold; an uncounted failure changes nothing. No outcome
/// ever re-enables a record.
pub open spec fn apply_outcome_spec(
    rec: CredentialRecord,
    o: ReportOutcome,
    cfg: PoolConfig,
) -> CredentialRecord {
    match o {
        ReportOutcome::Success => CredentialRecord { failure_count: 0, ..rec },
        ReportOutcome::Failure(k) => {
            if failure_counts(k, cfg) {
                CredentialRecord {
                    failure_count: bumped(rec.failure_count),
                    disabled: rec.disabled || bumped(rec.failure_count) >= cfg.disable_threshold,
                    ..rec
                }
            } else {
                rec
            }
        },
    }
}

/// Apply one reported outcome to a record.
pub fn apply_outcome(rec: &mut CredentialRecord, o: ReportOutcome, cfg: PoolConfig)
    ensures
        *final(rec) == apply_outcome_spec(*old(rec), o, cfg),
{
    match o {
        ReportOutcome::Success => {
            rec.failure_count = 0;
        },
        ReportOutcome::Failure(k) => {
            let counted: bool = match k {
                FailureKind::AuthRejected => true,
                FailureKind::NetworkTimeout => cfg.count_network_failures,
            };
            if counted {
                if rec.failure_count < u32::MAX {
                    rec.failure_count = rec.failure_count + 1;
                }
                if rec.failure_count >= cfg.disable_threshold {
                    rec.disabled = true;
                }
            }
        },
    }
}

/// A record after a whole run of reported outcomes, earliest first.
pub open spec fn apply_outcomes_spec(
    rec: CredentialRecord,
    outs: Seq<ReportOutcome>,
    cfg: PoolConfig,
) -> CredentialRecord
    decreases outs.len(),
{
    if outs.len() == 0 {
        rec
    } else {
        apply_outcomes_spec(apply_outcome_spec(rec, outs[0], cfg), outs.drop_first(), cfg)
    }
}

proof fn lemma_apply_outcomes_snoc(
    rec: CredentialRecord,
    outs: Seq<ReportOutcome>,
    o: ReportOutcome,
    cfg: PoolConfig,
)
    ensures
        apply_outcomes_spec(rec, outs.push(o), cfg) == apply_outcome_spec(
            apply_outcomes_spec(rec, outs, cfg),
            o,
            cfg,
        ),
    decreases outs.len(),
{
    if outs.len() == 0 {
        assert(outs.push(o)[0] == o);
        assert(outs.push(o).drop_first() =~= Seq::<ReportOutcome>::empty());
        assert(apply_outcomes_spec(rec, outs, cfg) == rec);
        assert(apply_outcomes_spec(rec, outs.push(o), cfg) == apply_outcomes_spec(
            apply_outcome_spec(rec, o, cfg),
            outs.push(o).drop_first(),
            cfg,
        ));
    } else {
        assert(outs.push(o)[0] == outs[0]);
        assert(outs.push(o).drop_first() =~= outs.drop_first().push(o));
        lemma_apply_outcomes_snoc(apply_outcome_spec(rec, outs[0], cfg), outs.drop_first(), o, cfg);
        assert(apply_outcomes_spec(rec, outs.push(o), cfg) == apply_outcomes_spec(
            apply_outcome_spec(rec, outs[0], cfg),
            outs.drop_first().push(o),
            cfg,
        ));
        assert(apply_outcomes_spec(rec, outs, cfg) == apply_outcomes_spec(
            apply_outcome_spec(rec, outs[0], cfg),
            outs.drop_first(),
            cfg,
        ));
    }
}

/// Law: a success report always leaves the failure count at zero, whatever
/// its value before the call, and touches neither identity nor the
/// disabled flag.
pub proof fn lemma_success_resets(rec: CredentialRecord, cfg: PoolConfig)
    ensures
        apply_outcome_spec(rec, ReportOutcome::Success, cfg).failure_count == 0,
        apply_outcome_spec(rec, ReportOutcome::Success, cfg).disabled == rec.disabled,
        apply_outcome_spec(rec, ReportOutcome::Success, cfg).id == rec.id,
        apply_outcome_spec(rec, ReportOutcome::Success, cfg).priority == rec.priority,
{
}

/// Law: a failure of a kind the policy does not count leaves the record
/// exactly as it was — an unrelated outage never pushes a credential
/// toward auto-disable.
pub proof fn lemma_uncounted_failure_no_change(
    rec: CredentialRecord,
    k: FailureKind,
    cfg: PoolConfig,
)
    requires
        !failure_counts(k, cfg),
    ensures
        apply_outcome_spec(rec, ReportOutcome::Failure(k), cfg) == rec,
{
}

/// Law: no reported outcome ever re-enables a disabled record; re-enabling
/// takes an operator action.
pub proof fn lemma_no_self_reenable(rec: CredentialRecord, o: ReportOutcome, cfg: PoolConfig)
    requires
        rec.disabled,
    ensures
        apply_outcome_spec(rec, o, cfg).disabled,
{
}

/// Law: starting from an enabled record with a zero failure count, a run of
/// counted failures with no intervening success leaves the failure count
/// equal to the run's length (saturating) and disables the record exactly
/// when the length reaches the configured threshold.
pub proof fn lemma_disabled_iff_threshold(
    rec: CredentialRecord,
    outs: Seq<ReportOutcome>,
    cfg: PoolConfig,
)
    requires
        cfg.wf(),
        !rec.disabled,
        rec.failure_count == 0,
        forall|i: int|
            0 <= i < outs.len() ==> ((#[trigger] outs[i]) matches ReportOutcome::Failure(k)
                && failure_counts(k, cfg)),
    ensures
        ({
            let fin = apply_outcomes_spec(rec, outs, cfg);
            &&& fin.failure_count == if outs.len() <= u32::MAX {
                outs.len() as u32
            } else {
                u32::MAX
            }
            &&& (fin.disabled <==> outs.len() >= cfg.disable_threshold)
        }),
    decreases outs.len(),
{
    if outs.len() > 0 {
        let prefix = outs.drop_last();
        let o = outs.last();
        assert forall|i: int| 0 <= i < prefix.len() implies ((#[trigger] prefix[i])
            matches ReportOutcome::Failure(k) && failure_counts(k, cfg)) by {
            assert(prefix[i] == outs[i]);
        }
        lemma_disabled_iff_threshold(rec, prefix, cfg);
        assert(prefix.push(o) =~= outs);
        lemma_apply_outcomes_snoc(rec, prefix, o, cfg);
        assert(outs[outs.len() - 1] matches ReportOutcome::Failure(k) && failure_counts(k, cfg));
    }
}

} // verus!
