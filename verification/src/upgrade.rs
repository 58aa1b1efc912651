//! The upgrade pass: deciding which reconciled packages the install
//! mechanism may be invoked for. The invocation itself is process I/O and
//! lives outside the library; callers consult these decisions package by
//! package, in order, and stop at the first failed invocation.
use vstd::prelude::*;

use crate::reconcile::{contains_name, spec_excluded, spec_is_local, Krate, KrateView};
use crate::status::KrateStatus;
use crate::text::views_of;

verus! {

/// The packages one upgrade pass may touch: flagged `Outdated` and not
/// covered by the exclusion policy — the same predicate, over the same
/// fields, that reconciliation uses to mark a package `Ignored`, re-checked
/// here so report-time and upgrade-time exclusion can never diverge.
pub open spec fn spec_should_upgrade(
    k: KrateView,
    ignored: Seq<Seq<char>>,
    ignore_local: bool,
) -> bool {
    !spec_excluded(k.installed.name, k.installed.from, ignored, ignore_local) && k.status
        == KrateStatus::Outdated
}

/// Decide whether the upgrade pass invokes the install mechanism for `k`.
pub fn should_upgrade(k: &Krate, ignored: &Vec<String>, ignore_local: bool) -> (r: bool)
    ensures
        r == spec_should_upgrade(k@, views_of(ignored@), ignore_local),
{
    if contains_name(ignored, &k.installed.name) {
        return false;
    }
    if !(k.status == KrateStatus::Outdated) {
        return false;
    }
    if ignore_local && k.is_local() {
        return false;
    }
    true
}

impl Krate {
    /// Whether a direct upgrade request for this one package may proceed:
    /// a package already at its latest known version is never reinstalled.
    pub fn upgrade_allowed(&self) -> (r: bool)
        ensures
            r == (self@.status != KrateStatus::UpToDate),
    {
        !(self.status == KrateStatus::UpToDate)
    }
}

/// Upgrade skip-safety: the upgrade pass never touches a package whose
/// status is not `Outdated`.
pub proof fn lemma_upgrade_skip_safety(k: KrateView, ignored: Seq<Seq<char>>, ignore_local: bool)
    ensures
        spec_should_upgrade(k, ignored, ignore_local) ==> k.status == KrateStatus::Outdated,
{
}

/// Local-exclusion consistency: with local exclusion enabled, a locally
/// sourced package is `Ignored` by reconciliation and skipped by the
/// upgrade pass, under the identical condition.
pub proof fn lemma_local_exclusion_consistent(
    k: crate::inventory::KrateModel,
    kv: KrateView,
    ignored: Seq<Seq<char>>,
    body: Option<Seq<char>>,
)
    requires
        spec_is_local(k.from),
        kv.installed == k,
    ensures
        crate::reconcile::spec_reconcile_one(k, ignored, true, body).status == KrateStatus::Ignored,
        !spec_should_upgrade(kv, ignored, true),
{
}

} // verus!
