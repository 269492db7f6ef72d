//! The HLI DD version latch.
//!
//! The calling HLI's DD version arrives through the setter or, at the first
//! open, from the environment, and latches for good: an identical later
//! report is accepted, a conflicting one is refused naming both versions,
//! and the setter always takes precedence over the environment. Unset
//! latches too: a first open that finds no setter call and no environment
//! value settles the latch to unset, and a later setter call is refused.
//! An invalid version string given to the setter fails without touching
//! the latch; an invalid environment value latches as invalid.
//!
//! [`HliVersionLatch`] is the decision model; one process-wide store applies
//! its first settled state atomically.
use vstd::prelude::*;

use crate::dd_version::{parse_spec, version_text, DdVersion, DdVersionView};
use crate::text::owned;

verus! {

/// A settled latch.
#[derive(Debug)]
pub enum Latch {
    /// A valid HLI DD version, from the setter or the environment.
    Version(DdVersion),
    /// No setter call and no environment value: conversion stays off.
    Unset,
    /// The environment held a value that is not a DD version; the reason.
    Invalid(String),
}

/// The value of a [`Latch`].
pub enum LatchView {
    Version(DdVersionView),
    Unset,
    Invalid(Seq<char>),
}

impl View for Latch {
    type V = LatchView;

    open spec fn view(&self) -> LatchView {
        match self {
            Latch::Version(v) => LatchView::Version(v@),
            Latch::Unset => LatchView::Unset,
            Latch::Invalid(r) => LatchView::Invalid(r@),
        }
    }
}

/// What a first open finds in the environment.
#[derive(Debug)]
pub enum EnvironmentValue {
    Absent,
    Value(String),
    NotUnicode,
}

/// The value of an [`EnvironmentValue`].
pub enum EnvironmentView {
    Absent,
    Value(Seq<char>),
    NotUnicode,
}

impl View for EnvironmentValue {
    type V = EnvironmentView;

    open spec fn view(&self) -> EnvironmentView {
        match self {
            EnvironmentValue::Absent => EnvironmentView::Absent,
            EnvironmentValue::Value(v) => EnvironmentView::Value(v@),
            EnvironmentValue::NotUnicode => EnvironmentView::NotUnicode,
        }
    }
}


/// The reason a non-Unicode environment value is invalid.
pub open spec fn not_unicode_text() -> Seq<char> {
    "IMAS_MVDD_HLI_DD_VERSION is not valid UTF-8"@
}

/// The latch an environment observation settles.
pub open spec fn environment_latch(e: EnvironmentView) -> LatchView {
    match e {
        EnvironmentView::Absent => LatchView::Unset,
        EnvironmentView::Value(raw) => match parse_spec(raw) {
            Ok(v) => LatchView::Version(v),
            Err(reason) => LatchView::Invalid(reason),
        },
        EnvironmentView::NotUnicode => LatchView::Invalid(not_unicode_text()),
    }
}

/// The refusal of a report that conflicts with the latched version.
pub open spec fn conflict_text(existing: DdVersionView, parsed: DdVersionView) -> Seq<char> {
    "conflicting HLI DD version: this process already latched to '"@ + version_text(existing)
        + "' and cannot also serve '"@ + version_text(parsed)
        + "' \u{2014} one process cannot host two HLIs built against different DD versions"@
}

/// The refusal of a report after the latch settled to unset.
pub open spec fn late_after_unset_text(parsed: DdVersionView) -> Seq<char> {
    "cannot set HLI DD version to '"@ + version_text(parsed)
        + "': this process already latched to unset, after an earlier open found no setter call and no valid IMAS_MVDD_HLI_DD_VERSION"@
}

/// The refusal of a report after the latch settled to an invalid value.
pub open spec fn late_after_invalid_text(parsed: DdVersionView, reason: Seq<char>) -> Seq<char> {
    "cannot set HLI DD version to '"@ + version_text(parsed)
        + "': this process already latched to an invalid IMAS_MVDD_HLI_DD_VERSION value at an earlier open ("@
        + reason + ")"@
}

/// Reporting a valid version to a latch in `state`: the latch afterwards
/// and the answer.
pub open spec fn report_spec(state: Option<LatchView>, parsed: DdVersionView) -> (
    Option<LatchView>,
    Result<(), Seq<char>>,
) {
    match state {
        None => (Some(LatchView::Version(parsed)), Ok(())),
        Some(LatchView::Version(existing)) => (
            state,
            if existing == parsed {
                Ok(())
            } else {
                Err(conflict_text(existing, parsed))
            },
        ),
        Some(LatchView::Unset) => (state, Err(late_after_unset_text(parsed))),
        Some(LatchView::Invalid(reason)) => (state, Err(late_after_invalid_text(parsed, reason))),
    }
}

/// What an open answers once the latch is settled: only an invalid
/// environment value refuses.
pub open spec fn open_spec(latch: LatchView) -> Result<(), Seq<char>> {
    match latch {
        LatchView::Invalid(reason) => Err(reason),
        _ => Ok(()),
    }
}

/// The version a latch holds, if any.
pub open spec fn latched_spec(state: Option<LatchView>) -> Option<DdVersionView> {
    match state {
        Some(LatchView::Version(v)) => Some(v),
        _ => None,
    }
}

pub open spec fn unit_view(r: Result<(), String>) -> Result<(), Seq<char>> {
    match r {
        Ok(_) => Ok(()),
        Err(e) => Err(e@),
    }
}

pub open spec fn opt_version_view(v: Option<DdVersion>) -> Option<DdVersionView> {
    match v {
        Some(x) => Some(x@),
        None => None,
    }
}

impl Latch {
    /// The latch an environment observation settles.
    pub fn from_environment(environment: EnvironmentValue) -> (r: Latch)
        ensures
            r@ == environment_latch(environment@),
    {
        match environment {
            EnvironmentValue::Absent => Latch::Unset,
            EnvironmentValue::Value(raw) => match DdVersion::parse(raw.as_str()) {
                Ok(version) => Latch::Version(version),
                Err(reason) => Latch::Invalid(reason),
            },
            EnvironmentValue::NotUnicode => Latch::Invalid(
                owned("IMAS_MVDD_HLI_DD_VERSION is not valid UTF-8"),
            ),
        }
    }

    /// An equal copy.
    pub fn duplicate(&self) -> (r: Latch)
        ensures
            r@ == self@,
    {
        match self {
            Latch::Version(v) => Latch::Version(v.duplicate()),
            Latch::Unset => Latch::Unset,
            Latch::Invalid(reason) => Latch::Invalid(reason.clone()),
        }
    }
}

/// The latch decision model: unsettled until a report or an open settles it.
#[derive(Debug)]
pub struct HliVersionLatch {
    latch: Option<Latch>,
}

impl View for HliVersionLatch {
    type V = Option<LatchView>;

    closed spec fn view(&self) -> Option<LatchView> {
        match self.latch {
            Some(l) => Some(l@),
            None => None,
        }
    }
}

impl Default for HliVersionLatch {
    fn default() -> (r: HliVersionLatch)
        ensures
            r@ is None,
    {
        HliVersionLatch { latch: None }
    }
}

impl HliVersionLatch {
    /// A model already settled to `latch`.
    pub fn from_latch(latch: Latch) -> (r: HliVersionLatch)
        ensures
            r@ == Some(latch@),
    {
        HliVersionLatch { latch: Some(latch) }
    }

    /// The settled latch, for storing process-wide.
    pub fn into_latch(self) -> (r: Latch)
        requires
            self@ is Some,
        ensures
            self@ == Some(r@),
    {
        match self.latch {
            Some(l) => l,
            None => {
                assert(false);
                Latch::Unset
            },
        }
    }

    /// Reports the HLI's DD version. An invalid version string fails without
    /// touching the latch; a valid one is decided by [`report_spec`].
    pub fn set(&mut self, version: &str) -> (r: Result<(), String>)
        ensures
            match parse_spec(version@) {
                Err(reason) => unit_view(r) == Err::<(), Seq<char>>(reason) && final(self)@ == old(
                    self,
                )@,
                Ok(parsed) => (final(self)@, unit_view(r)) == report_spec(old(self)@, parsed),
            },
    {
        match DdVersion::parse(version) {
            Ok(parsed) => self.set_parsed(parsed),
            Err(reason) => Err(reason),
        }
    }

    /// Reports an already parsed version.
    pub fn set_parsed(&mut self, parsed: DdVersion) -> (r: Result<(), String>)
        ensures
            (final(self)@, unit_view(r)) == report_spec(old(self)@, parsed@),
    {
        match &self.latch {
            None => {
                self.latch = Some(Latch::Version(parsed));
                Ok(())
            },
            Some(Latch::Version(existing)) => {
                if existing.same_as(&parsed) {
                    Ok(())
                } else {
                    let mut m = owned(
                        "conflicting HLI DD version: this process already latched to '",
                    );
                    let e = existing.text();
                    m.append(e.as_str());
                    m.append("' and cannot also serve '");
                    let p = parsed.text();
                    m.append(p.as_str());
                    m.append(
                        "' \u{2014} one process cannot host two HLIs built against different DD versions",
                    );
                    Err(m)
                }
            },
            Some(Latch::Unset) => {
                let mut m = owned("cannot set HLI DD version to '");
                let p = parsed.text();
                m.append(p.as_str());
                m.append(
                    "': this process already latched to unset, after an earlier open found no setter call and no valid IMAS_MVDD_HLI_DD_VERSION",
                );
                Err(m)
            },
            Some(Latch::Invalid(reason)) => {
                let mut m = owned("cannot set HLI DD version to '");
                let p = parsed.text();
                m.append(p.as_str());
                m.append(
                    "': this process already latched to an invalid IMAS_MVDD_HLI_DD_VERSION value at an earlier open (",
                );
                m.append(reason.as_str());
                m.append(")");
                Err(m)
            },
        }
    }

    /// Settles the latch for an open: an unsettled latch takes what
    /// `environment` observes, and a settled one never consults it. Only an
    /// invalid environment value refuses.
    pub fn resolve_for_open<F: FnOnce() -> EnvironmentValue>(&mut self, environment: F) -> (r:
        Result<(), String>)
        requires
            old(self)@ is None ==> call_requires(environment, ()),
        ensures
            old(self)@ is Some ==> final(self)@ == old(self)@,
            old(self)@ is None ==> exists|e: EnvironmentValue|
                call_ensures(environment, (), e) && final(self)@ == Some(environment_latch(e@)),
            final(self)@ is Some,
            unit_view(r) == open_spec(final(self)@->0),
    {
        if self.latch.is_none() {
            let observed = environment();
            self.latch = Some(Latch::from_environment(observed));
        }
        self.open_result()
    }

    /// What an open answers on a settled latch.
    pub fn open_result(&self) -> (r: Result<(), String>)
        requires
            self@ is Some,
        ensures
            unit_view(r) == open_spec(self@->0),
    {
        match &self.latch {
            Some(Latch::Invalid(reason)) => Err(reason.clone()),
            Some(_) => Ok(()),
            None => {
                assert(false);
                Ok(())
            },
        }
    }

    /// The version this latch holds, if any.
    pub fn latched(&self) -> (r: Option<DdVersion>)
        ensures
            opt_version_view(r) == latched_spec(self@),
    {
        match &self.latch {
            Some(l) => HliVersionLatch::latched_from(Some(l)),
            None => HliVersionLatch::latched_from(None),
        }
    }

    /// The version a stored latch holds, if any.
    pub fn latched_from(latch: Option<&Latch>) -> (r: Option<DdVersion>)
        ensures
            opt_version_view(r) == latched_spec(
                match latch {
                    Some(l) => Some(l@),
                    None => None,
                },
            ),
    {
        match latch {
            Some(Latch::Version(version)) => Some(version.duplicate()),
            _ => None,
        }
    }

    /// Whether this latch gives any conversion basis at all.
    pub fn conversion_is_possible(&self) -> (r: bool)
        ensures
            r == latched_spec(self@) is Some,
    {
        match &self.latch {
            Some(l) => HliVersionLatch::conversion_is_possible_from(Some(l)),
            None => HliVersionLatch::conversion_is_possible_from(None),
        }
    }

    /// Whether a stored latch gives any conversion basis at all.
    pub fn conversion_is_possible_from(latch: Option<&Latch>) -> (r: bool)
        ensures
            r == (latch matches Some(l) && l@ is Version),
    {
        match latch {
            Some(Latch::Version(_)) => true,
            _ => false,
        }
    }
}

// ---------------------------------------------------------------------------
// Laws
// ---------------------------------------------------------------------------

/// Once settled, a latch never changes: no later report moves it.
pub proof fn law_settled_latch_never_changes(state: Option<LatchView>, parsed: DdVersionView)
    requires
        state is Some,
    ensures
        report_spec(state, parsed).0 == state,
{
}

/// A first valid report latches that version and is accepted, and an
/// identical repeat is accepted again.
pub proof fn law_first_report_latches_and_repeats_agree(parsed: DdVersionView)
    ensures
        report_spec(None, parsed) == (Some(LatchView::Version(parsed)), Ok::<(), Seq<char>>(())),
        report_spec(Some(LatchView::Version(parsed)), parsed) == (
            Some(LatchView::Version(parsed)),
            Ok::<(), Seq<char>>(()),
        ),
{
}

/// A report that differs from the latched version is refused, and the
/// refusal names the latched version before the reported one.
pub proof fn law_conflicting_report_names_both_versions(
    existing: DdVersionView,
    parsed: DdVersionView,
)
    requires
        existing != parsed,
    ensures
        ({
            let (after, answer) = report_spec(Some(LatchView::Version(existing)), parsed);
            &&& after == Some(LatchView::Version(existing))
            &&& answer matches Err(m) && exists|a: Seq<char>, b: Seq<char>, c: Seq<char>|
                m == a + version_text(existing) + b + version_text(parsed) + c
        }),
{
    let a = "conflicting HLI DD version: this process already latched to '"@;
    let b = "' and cannot also serve '"@;
    let c = "' \u{2014} one process cannot host two HLIs built against different DD versions"@;
    assert(conflict_text(existing, parsed) == a + version_text(existing) + b + version_text(parsed)
        + c);
}

/// An open that finds no setter call and no environment value settles the
/// latch to unset with no conversion basis, and every later report is
/// refused.
pub proof fn law_unset_latch_refuses_late_reports(parsed: DdVersionView)
    ensures
        environment_latch(EnvironmentView::Absent) == LatchView::Unset,
        latched_spec(Some(LatchView::Unset)) is None,
        report_spec(Some(LatchView::Unset), parsed).1 is Err,
{
}

/// An invalid environment value refuses every open with its reason, and
/// every later report.
pub proof fn law_invalid_environment_refuses_opens_and_reports(raw: Seq<char>, parsed: DdVersionView)
    requires
        parse_spec(raw) is Err,
    ensures
        open_spec(environment_latch(EnvironmentView::Value(raw))) == Err::<(), Seq<char>>(
            parse_spec(raw)->Err_0,
        ),
        report_spec(Some(environment_latch(EnvironmentView::Value(raw))), parsed).1 is Err,
{
}

} // verus!
