//! Reconciliation: classifying every installed package against the
//! registry's latest published version under the exclusion policy.
use vstd::prelude::*;

use crate::inventory::{InstalledKrate, KrateModel};
use crate::status::{spec_label, KrateStatus};
use crate::text::{string_eq, views_of};
use crate::version::{
    lemma_version_lt_irrefl, parse_semver, semver_parts, version_lt, version_lt_parts,
};

verus! {

/// A package whose origin descriptor denotes a filesystem path.
pub open spec fn spec_is_local(from: Option<Seq<char>>) -> bool {
    match from {
        Some(f) => f.len() > 0 && f[0] == '/',
        None => false,
    }
}

/// The exclusion policy: a package is excluded when its name is explicitly
/// listed, or when it is locally sourced and local exclusion is enabled.
/// Reconciliation and the upgrade pass both go through this one predicate.
pub open spec fn spec_excluded(
    name: Seq<char>,
    from: Option<Seq<char>>,
    ignored: Seq<Seq<char>>,
    ignore_local: bool,
) -> bool {
    ignored.contains(name) || (ignore_local && spec_is_local(from))
}

impl InstalledKrate {
    /// Whether this package was installed from a filesystem path.
    pub fn is_local(&self) -> (r: bool)
        ensures
            r == spec_is_local(self@.from),
    {
        match &self.from {
            Some(f) => f.as_str().unicode_len() > 0 && f.as_str().get_char(0) == '/',
            None => false,
        }
    }
}

/// Membership of `name` in the explicit exclusion list.
pub fn contains_name(list: &Vec<String>, name: &String) -> (r: bool)
    ensures
        r == views_of(list@).contains(name@),
{
    let mut i: usize = 0;
    while i < list.len()
        invariant
            i <= list@.len(),
            forall|k: int| 0 <= k < i ==> views_of(list@)[k] != name@,
        decreases list@.len() - i,
    {
        if string_eq(&list[i], name) {
            proof {
                assert(views_of(list@)[i as int] == name@);
            }
            return true;
        }
        i = i + 1;
    }
    proof {
        assert forall|k: int| 0 <= k < views_of(list@).len() implies views_of(list@)[k] != name@
        by {}
    }
    false
}

/// Whether reconciliation may query the registry for this package: exactly
/// the packages the exclusion policy does not cover.
pub fn needs_lookup(k: &InstalledKrate, ignored: &Vec<String>, ignore_local: bool) -> (r: bool)
    ensures
        r == !spec_excluded(k@.name, k@.from, views_of(ignored@), ignore_local),
{
    !(contains_name(ignored, &k.name) || (ignore_local && k.is_local()))
}

/// A reconciled package: the installed record, the text shown in the
/// "latest" column, and the classification outcome.
#[derive(Debug)]
pub struct Krate {
    pub installed: InstalledKrate,
    pub latest: String,
    pub status: KrateStatus,
}

/// Mathematical model of one reconciled package.
pub struct KrateView {
    pub installed: KrateModel,
    pub latest: Seq<char>,
    pub status: KrateStatus,
}

impl View for Krate {
    type V = KrateView;

    open spec fn view(&self) -> KrateView {
        KrateView { installed: self.installed@, latest: self.latest@, status: self.status }
    }
}

impl Krate {
    /// Name of the underlying installed package.
    pub fn name(&self) -> (r: &str)
        ensures
            r@ == self@.installed.name,
    {
        self.installed.name.as_str()
    }

    /// Installed version text.
    pub fn version(&self) -> (r: &str)
        ensures
            r@ == self@.installed.version,
    {
        self.installed.version.as_str()
    }

    /// Whether the underlying package is locally sourced.
    pub fn is_local(&self) -> (r: bool)
        ensures
            r == spec_is_local(self@.installed.from),
    {
        self.installed.is_local()
    }
}

/// The latest version the registry's versions document names: the textual
/// form of `versions[0].num`, a function of the response body alone; absent
/// when the body is not a JSON document.
pub uninterp spec fn json_latest_num(body: Seq<char>) -> Option<Seq<char>>;

/// Relies on `json::parse` and `JsonValue`'s index and `Display`
/// implementations: a body that parses yields the display form of its
/// `versions[0].num` entry (absent entries display as `null`); a body that
/// does not parse yields nothing. The outcome depends on the body text
/// alone.
#[verifier::external_body]
fn latest_num_in_body(body: &str) -> (r: Option<String>)
    ensures
        match r {
            Some(v) => json_latest_num(body@) == Some(v@),
            None => json_latest_num(body@) is None,
        },
{
    match json::parse(body) {
        Ok(doc) => Some(doc["versions"][0]["num"].to_string()),
        Err(_) => None,
    }
}

/// The latest-version text an optional response body resolves to.
pub open spec fn spec_latest_of(body: Option<Seq<char>>) -> Option<Seq<char>> {
    match body {
        None => None,
        Some(b) => json_latest_num(b),
    }
}

/// View of one optional response body.
pub open spec fn body_view(b: Option<String>) -> Option<Seq<char>> {
    match b {
        Some(s) => Some(s@),
        None => None,
    }
}

/// Classification of one non-excluded package: the text for the "latest"
/// column and the status. A resolved latest version that parses alongside
/// the installed one compares by semantic-version precedence — strictly
/// newer means `Outdated`, otherwise `UpToDate`; an unresolved lookup or an
/// unparsable version degrades to `Unknown` with its placeholder text.
pub open spec fn spec_classify(installed_version: Seq<char>, latest: Option<Seq<char>>) -> (
    Seq<char>,
    KrateStatus,
) {
    match latest {
        None => (spec_label(KrateStatus::Unknown), KrateStatus::Unknown),
        Some(v) => match (semver_parts(v), semver_parts(installed_version)) {
            (Some(l), Some(c)) => if version_lt(c, l) {
                (v, KrateStatus::Outdated)
            } else {
                (v, KrateStatus::UpToDate)
            },
            _ => (spec_label(KrateStatus::Unknown), KrateStatus::Unknown),
        },
    }
}

/// Reconciliation of one package under the policy and one optional
/// registry response body: excluded packages are `Ignored` with the
/// placeholder text and no use of the response; the rest classify by
/// `spec_classify`.
pub open spec fn spec_reconcile_one(
    k: KrateModel,
    ignored: Seq<Seq<char>>,
    ignore_local: bool,
    body: Option<Seq<char>>,
) -> KrateView {
    if spec_excluded(k.name, k.from, ignored, ignore_local) {
        KrateView {
            installed: k,
            latest: spec_label(KrateStatus::Ignored),
            status: KrateStatus::Ignored,
        }
    } else {
        let dl = spec_classify(k.version, spec_latest_of(body));
        KrateView { installed: k, latest: dl.0, status: dl.1 }
    }
}

/// Reconcile every installed package, in inventory order.
///
/// `bodies` holds, index-aligned with `installed`, the registry response
/// body for each package the caller chose to query (see `needs_lookup`),
/// and nothing for the others or for failed lookups. Each package is
/// classified independently; a missing or malformed body degrades that one
/// package to `Unknown` and never aborts the batch.
pub fn get_all_krates(
    installed: &Vec<InstalledKrate>,
    ignored: &Vec<String>,
    ignore_local: bool,
    bodies: &Vec<Option<String>>,
) -> (r: Vec<Krate>)
    requires
        bodies@.len() == installed@.len(),
    ensures
        r@.len() == installed@.len(),
        forall|i: int|
            0 <= i < r@.len() ==> r@[i]@ == spec_reconcile_one(
                installed@[i]@,
                views_of(ignored@),
                ignore_local,
                body_view(bodies@[i]),
            ),
{
    let mut out: Vec<Krate> = Vec::new();
    let mut idx: usize = 0;
    while idx < installed.len()
        invariant
            idx <= installed@.len(),
            bodies@.len() == installed@.len(),
            out@.len() == idx,
            forall|i: int|
                0 <= i < idx ==> out@[i]@ == spec_reconcile_one(
                    installed@[i]@,
                    views_of(ignored@),
                    ignore_local,
                    body_view(bodies@[i]),
                ),
        decreases installed@.len() - idx,
    {
        let k = &installed[idx];
        let pair: (String, KrateStatus) = if !needs_lookup(k, ignored, ignore_local) {
            (KrateStatus::Ignored.label(), KrateStatus::Ignored)
        } else {
            match &bodies[idx] {
                None => (KrateStatus::Unknown.label(), KrateStatus::Unknown),
                Some(body) => match latest_num_in_body(body.as_str()) {
                    None => (KrateStatus::Unknown.label(), KrateStatus::Unknown),
                    Some(v) => {
                        let lp = parse_semver(v.as_str());
                        let cp = parse_semver(k.version.as_str());
                        match (lp, cp) {
                            (Some(l), Some(c)) => {
                                if version_lt_parts(&c, &l) {
                                    (v, KrateStatus::Outdated)
                                } else {
                                    (v, KrateStatus::UpToDate)
                                }
                            },
                            _ => (KrateStatus::Unknown.label(), KrateStatus::Unknown),
                        }
                    },
                },
            }
        };
        let krate = Krate { installed: k.clone(), latest: pair.0, status: pair.1 };
        out.push(krate);
        idx = idx + 1;
    }
    out
}

/// Classification totality: a resolved lookup of two valid semantic
/// versions classifies as exactly `Outdated` or `UpToDate`, displays the
/// latest text itself, and an installed version equal to the latest one is
/// `UpToDate`.
pub proof fn lemma_classification_total(installed: Seq<char>, latest: Seq<char>)
    requires
        semver_parts(installed) is Some,
        semver_parts(latest) is Some,
    ensures
        spec_classify(installed, Some(latest)).1 == KrateStatus::Outdated || spec_classify(
            installed,
            Some(latest),
        ).1 == KrateStatus::UpToDate,
        spec_classify(installed, Some(latest)).0 == latest,
        installed == latest ==> spec_classify(installed, Some(latest)).1 == KrateStatus::UpToDate,
{
    if installed == latest {
        match semver_parts(installed) {
            Some(p) => lemma_version_lt_irrefl(p),
            None => {},
        }
    }
}

/// Exclusion precedence: an explicitly listed package is `Ignored` with
/// the placeholder text, whatever the registry would have reported.
pub proof fn lemma_exclusion_precedence(
    k: KrateModel,
    ignored: Seq<Seq<char>>,
    ignore_local: bool,
    b1: Option<Seq<char>>,
    b2: Option<Seq<char>>,
)
    requires
        ignored.contains(k.name),
    ensures
        spec_reconcile_one(k, ignored, ignore_local, b1) == spec_reconcile_one(
            k,
            ignored,
            ignore_local,
            b2,
        ),
        spec_reconcile_one(k, ignored, ignore_local, b1).status == KrateStatus::Ignored,
        spec_reconcile_one(k, ignored, ignore_local, b1).latest == spec_label(
            KrateStatus::Ignored,
        ),
{
}

/// Reconciliation is a function of inventory, policy and responses alone:
/// two runs over unchanged inputs yield identical sequences, order and
/// content included.
pub proof fn lemma_reconcile_idempotent(
    r1: Seq<KrateView>,
    r2: Seq<KrateView>,
    installed: Seq<KrateModel>,
    ignored: Seq<Seq<char>>,
    ignore_local: bool,
    bodies: Seq<Option<Seq<char>>>,
)
    requires
        r1.len() == installed.len(),
        r2.len() == installed.len(),
        forall|i: int|
            0 <= i < installed.len() ==> r1[i] == spec_reconcile_one(
                installed[i],
                ignored,
                ignore_local,
                bodies[i],
            ),
        forall|i: int|
            0 <= i < installed.len() ==> r2[i] == spec_reconcile_one(
                installed[i],
                ignored,
                ignore_local,
                bodies[i],
            ),
    ensures
        r1 == r2,
{
    assert(r1 =~= r2);
}

} // verus!
