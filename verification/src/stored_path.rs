//! Spelling paths for the stored DD, and the refusals that can come of it.
//!
//! A path argument is relative to its context's anchor unless it starts
//! with `/`, in which case it is taken from the IDS root. A resolved stored
//! path is handed to IMAS-Core relative to the context's own stored anchor.
//! A structure path (a container or a context anchor) is resolved before
//! any data exists, so only an outcome naming one concrete stored path with
//! no value transformation can serve it.
use vstd::prelude::*;

use crate::conversion_map::{
    Fidelity, Outcome, RefusalReason, Rel, ValueTransformation, OutcomeView, TransformView,
};
use crate::dd_version::{version_text, DdVersion};
use crate::status::{
    al_status_t, path_conversion_refusal, read_refusal_text, status_with,
    IMAS_MVDD_CONVERSION_ERROR,
};
use crate::text::{chars_from, chars_of, chars_start_with, owned, starts_with, string_of};

verus! {

/// `raw` resolved against `anchor`: from the IDS root when it starts with
/// `/`, verbatim under an empty anchor, otherwise beneath the anchor.
pub open spec fn joined(anchor: Seq<char>, raw: Seq<char>) -> Seq<char> {
    if raw.len() > 0 && raw[0] == '/' {
        raw.drop_first()
    } else if anchor.len() == 0 {
        raw
    } else {
        anchor + "/"@ + raw
    }
}

/// Joins a context's anchor with a path argument.
pub fn join_hli_path(anchor: &str, raw: &str) -> (r: String)
    ensures
        r@ == joined(anchor@, raw@),
{
    let chars = chars_of(raw);
    if chars.len() > 0 && chars[0] == '/' {
        let rest = chars_from(&chars, 1);
        assert(rest@ =~= raw@.drop_first());
        return string_of(&rest);
    }
    if anchor.is_empty() {
        return owned(raw);
    }
    let mut r = owned(anchor);
    r.append("/");
    r.append(raw);
    r
}

/// The part of `resolved` beneath `anchor`: all of it under an empty anchor,
/// otherwise what follows `anchor` and one `/`, if `resolved` starts so.
pub open spec fn beneath(anchor: Seq<char>, resolved: Seq<char>) -> Option<Seq<char>> {
    if anchor.len() == 0 {
        Some(resolved)
    } else if starts_with(resolved, anchor) && resolved.len() > anchor.len()
        && resolved[anchor.len() as int] == '/' {
        Some(resolved.subrange(anchor.len() as int + 1, resolved.len() as int))
    } else {
        None
    }
}

/// The field IMAS-Core expects relative to a context whose stored anchor is
/// `anchor`.
pub fn strip_anchor(anchor: &str, resolved_path: &str) -> (r: Option<String>)
    ensures
        match r {
            Some(s) => beneath(anchor@, resolved_path@) == Some(s@),
            None => beneath(anchor@, resolved_path@) is None,
        },
{
    if anchor.is_empty() {
        return Some(owned(resolved_path));
    }
    let a = chars_of(anchor);
    let p = chars_of(resolved_path);
    if chars_start_with(&p, &a) && p.len() > a.len() && p[a.len()] == '/' {
        let rest = chars_from(&p, a.len() + 1);
        Some(string_of(&rest))
    } else {
        None
    }
}

/// The verdict a read reports: a `lossy` merged or split rule is only
/// potentially lossy, since its read plan may well hit a lossless source.
pub open spec fn read_fidelity_spec(fidelity: Fidelity, rel: Option<Rel>) -> Fidelity {
    if fidelity == Fidelity::Lossy && (rel == Some(Rel::Merged) || rel == Some(Rel::Split)) {
        Fidelity::PotentiallyLossy
    } else {
        fidelity
    }
}

/// The verdict a read reports for a rule's declared fidelity.
pub fn read_fidelity(fidelity: Fidelity, rel: Option<Rel>) -> (r: Fidelity)
    ensures
        r == read_fidelity_spec(fidelity, rel),
{
    match (fidelity, rel) {
        (Fidelity::Lossy, Some(Rel::Merged)) => Fidelity::PotentiallyLossy,
        (Fidelity::Lossy, Some(Rel::Split)) => Fidelity::PotentiallyLossy,
        _ => fidelity,
    }
}

/// A short, stable description of a refusal reason.
pub open spec fn reason_text(reason: RefusalReason) -> Seq<char> {
    match reason {
        RefusalReason::UnservableRetype => "this path's container changed shape and cannot be served"@,
        RefusalReason::UnitRedefinition => "this path's unit was redefined and cannot be converted"@,
        RefusalReason::Unmappable => "this path has no safe conversion between DD versions"@,
    }
}

/// Describes a refusal reason.
pub fn refusal_reason_message(reason: RefusalReason) -> (r: String)
    ensures
        r@ == reason_text(reason),
{
    match reason {
        RefusalReason::UnservableRetype => owned(
            "this path's container changed shape and cannot be served",
        ),
        RefusalReason::UnitRedefinition => owned(
            "this path's unit was redefined and cannot be converted",
        ),
        RefusalReason::Unmappable => owned("this path has no safe conversion between DD versions"),
    }
}

/// The one stored spelling a structure path can carry, or why there is
/// none.
#[derive(Debug, PartialEq, Eq)]
pub enum ConcreteStoredPath {
    Path(String),
    NoSource,
    Refusal(String),
}

pub open spec fn candidates_refusal() -> Seq<char> {
    "this path is served by several stored candidates, and only a data read can try them in turn"@
}

pub open spec fn transformation_refusal() -> Seq<char> {
    "this path needs a value transformation, which only a data read can apply"@
}

/// What a resolved outcome gives a structure path.
pub open spec fn concrete_spec(outcome: OutcomeView) -> (Option<Seq<char>>, Option<Seq<char>>) {
    // (the path, the refusal message); neither for no source
    match outcome {
        OutcomeView::Refusal(reason) => (None, Some(reason_text(reason))),
        OutcomeView::NoSource => (None, None),
        OutcomeView::Path(path, transform, candidates) => if candidates.len() > 0 {
            (None, Some(candidates_refusal()))
        } else if transform != TransformView::Unchanged {
            (None, Some(transformation_refusal()))
        } else {
            (Some(path), None)
        },
    }
}

pub open spec fn concrete_view(c: ConcreteStoredPath) -> (Option<Seq<char>>, Option<Seq<char>>) {
    match c {
        ConcreteStoredPath::Path(p) => (Some(p@), None),
        ConcreteStoredPath::NoSource => (None, None),
        ConcreteStoredPath::Refusal(m) => (None, Some(m@)),
    }
}

/// Narrows a resolved outcome to the one stored spelling a structure path
/// can carry: a candidate plan or a value transformation can only be served
/// by a data read, so either refuses here.
pub fn concrete_stored_path(outcome: Outcome) -> (r: ConcreteStoredPath)
    ensures
        concrete_view(r) == concrete_spec(outcome@),
{
    match outcome {
        Outcome::Refusal(reason) => ConcreteStoredPath::Refusal(refusal_reason_message(reason)),
        Outcome::NoSource => ConcreteStoredPath::NoSource,
        Outcome::Path { resolved_path, value_transformation, candidates } => {
            if candidates.len() > 0 {
                ConcreteStoredPath::Refusal(
                    owned(
                        "this path is served by several stored candidates, and only a data read can try them in turn",
                    ),
                )
            } else {
                match value_transformation {
                    ValueTransformation::Unchanged => ConcreteStoredPath::Path(resolved_path),
                    ValueTransformation::SignFlip { .. } => ConcreteStoredPath::Refusal(
                        owned(
                            "this path needs a value transformation, which only a data read can apply",
                        ),
                    ),
                }
            }
        },
    }
}

/// The path a refusal names for a path argument: the argument joined onto
/// the context's anchor when there is one, else the anchor itself when it
/// is not empty, else a plain statement that there is no path.
pub open spec fn refusal_path_spec(anchor: Seq<char>, raw: Option<Seq<char>>) -> Seq<char> {
    match raw {
        Some(p) if p.len() > 0 => joined(anchor, p),
        _ => if anchor.len() > 0 {
            anchor
        } else {
            "(no path argument)"@
        },
    }
}

/// The path a refusal of a path argument names.
pub fn refusal_path(anchor: &str, raw: Option<&str>) -> (r: String)
    ensures
        r@ == refusal_path_spec(anchor@, match raw {
            Some(p) => Some(p@),
            None => None,
        }),
{
    match raw {
        Some(p) if !p.is_empty() => join_hli_path(anchor, p),
        _ => if !anchor.is_empty() {
            owned(anchor)
        } else {
            owned("(no path argument)")
        },
    }
}

/// The refusal of a seam on a converting context that resolved no path of
/// its own (a write or delete, or an arraystruct open whose argument was
/// refused): it names the reason, the argument's DD path as
/// [`refusal_path`] gives it, and both DD versions.
pub fn contextual_refusal(
    anchor: &str,
    reason: &str,
    raw: Option<&str>,
    hli_version: &DdVersion,
    stored_version: &DdVersion,
) -> (r: al_status_t)
    ensures
        status_with(
            r,
            IMAS_MVDD_CONVERSION_ERROR,
            read_refusal_text(
                reason@,
                refusal_path_spec(anchor@, match raw {
                    Some(p) => Some(p@),
                    None => None,
                }),
                version_text(hli_version@),
                version_text(stored_version@),
            ),
        ),
{
    let dd_path = refusal_path(anchor, raw);
    path_conversion_refusal(reason, dd_path.as_str(), hli_version, stored_version)
}

/// The path a loss entry names for a path argument: the argument joined onto
/// the context's anchor, or the anchor itself when there is no argument.
pub fn read_argument_path(anchor: &str, raw: Option<&str>) -> (r: String)
    ensures
        r@ == match raw {
            Some(p) if p@.len() > 0 => joined(anchor@, p@),
            _ => anchor@,
        },
{
    match raw {
        Some(p) if !p.is_empty() => join_hli_path(anchor, p),
        _ => owned(anchor),
    }
}

/// Stripping a context's anchor undoes joining a relative argument onto
/// it: the field handed on is the argument itself.
pub proof fn law_strip_anchor_undoes_join(anchor: Seq<char>, raw: Seq<char>)
    requires
        !(raw.len() > 0 && raw[0] == '/'),
    ensures
        beneath(anchor, joined(anchor, raw)) == Some(raw),
{
    if anchor.len() > 0 {
        reveal_strlit("/");
        let j = anchor + "/"@ + raw;
        assert(j.subrange(0, anchor.len() as int) =~= anchor);
        assert(j[anchor.len() as int] == '/');
        assert(j.subrange(anchor.len() as int + 1, j.len() as int) =~= raw);
    }
}

/// An argument spelled from the IDS root ignores the anchor.
pub proof fn law_absolute_argument_ignores_anchor(a: Seq<char>, b: Seq<char>, raw: Seq<char>)
    requires
        raw.len() > 0,
        raw[0] == '/',
    ensures
        joined(a, raw) == joined(b, raw),
        joined(a, raw) == raw.drop_first(),
{
}

} // verus!
