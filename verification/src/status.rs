//! Classification outcome for one installed package.
use vstd::prelude::*;

verus! {

/// The status a package ends up with after reconciliation.
///
/// `Unknown` is the initial value and the outcome of a failed or
/// inconclusive registry lookup, `Outdated` means the registry knows a
/// strictly newer version, `UpToDate` means the latest known version is no
/// newer than the installed one, and `Ignored` means exclusion policy kept
/// the package out of the comparison entirely.
#[derive(Debug, Clone, Copy, PartialEq, Eq, Structural)]
pub enum KrateStatus {
    Unknown,
    Outdated,
    UpToDate,
    Ignored,
}

impl Default for KrateStatus {
    /// Before classification every package counts as `Unknown`.
    fn default() -> (r: Self)
        ensures
            r == KrateStatus::Unknown,
    {
        KrateStatus::Unknown
    }
}

/// One-character marker shown in the report column for each status.
pub open spec fn spec_symbol(s: KrateStatus) -> Seq<char> {
    match s {
        KrateStatus::Unknown => "?"@,
        KrateStatus::Outdated => "✗"@,
        KrateStatus::UpToDate => "✓"@,
        KrateStatus::Ignored => "."@,
    }
}

/// Lowercase textual name of a status; reused as the placeholder shown in
/// the "latest version" column when no real version applies.
pub open spec fn spec_label(s: KrateStatus) -> Seq<char> {
    match s {
        KrateStatus::Unknown => "unknown"@,
        KrateStatus::Outdated => "outdated"@,
        KrateStatus::UpToDate => "uptodate"@,
        KrateStatus::Ignored => "ignored"@,
    }
}

impl KrateStatus {
    /// Marker character for the rendered report.
    pub fn symbol(&self) -> (r: &'static str)
        ensures
            r@ == spec_symbol(*self),
    {
        match self {
            KrateStatus::Unknown => "?",
            KrateStatus::Outdated => "✗",
            KrateStatus::UpToDate => "✓",
            KrateStatus::Ignored => ".",
        }
    }

    /// Lowercase textual name of the status.
    pub fn label(&self) -> (r: String)
        ensures
            r@ == spec_label(*self),
    {
        match self {
            KrateStatus::Unknown => String::from_str("unknown"),
            KrateStatus::Outdated => String::from_str("outdated"),
            KrateStatus::UpToDate => String::from_str("uptodate"),
            KrateStatus::Ignored => String::from_str("ignored"),
        }
    }
}

} // verus!
