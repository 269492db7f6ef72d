//! Turning a path argument of a converting context into what IMAS-Core must
//! receive, and deciding a converting read.
//!
//! A path argument is joined onto its context's anchor and resolved through
//! the context's conversion map. An argument no rule and no default claims
//! is never forwarded under the wrong spelling. A structure path takes one
//! concrete stored spelling; a data read may instead carry a candidate plan
//! whose candidates are tried in order, each with its own value
//! transformation, and every non-exact outcome is reported for the loss log.
use vstd::prelude::*;

use crate::conversion_map::{
    candidate_views, resolve_spec, CandidatePath, CandidateView, ConversionMap, Direction,
    Fidelity, Outcome, OutcomeView, RuleExplanation, TransformView, ValueTransformation,
};
use crate::stored_path::{
    beneath, concrete_spec, concrete_stored_path, join_hli_path, joined,
    read_fidelity, read_fidelity_spec, reason_text, refusal_reason_message, strip_anchor,
    ConcreteStoredPath,
};
use crate::text::{chars_of, contains_char, has_char, owned};

verus! {

/// The datatype code of double-precision data.
pub const DOUBLE_DATA_ID: i32 = 52;

/// The datatype code of character data.
pub const CHAR_DATA_ID: i32 = 50;

/// The datatype code of integer data.
pub const INTEGER_DATA_ID: i32 = 51;

/// The datatype code of complex data.
pub const COMPLEX_DATA_ID: i32 = 53;

pub open spec fn opt_str(raw: Option<&str>) -> Option<Seq<char>> {
    match raw {
        Some(s) => Some(s@),
        None => None,
    }
}

/// A present, non-empty path argument.
pub open spec fn given(raw: Option<Seq<char>>) -> bool {
    raw matches Some(p) && p.len() > 0
}

/// What one path argument amounts to: absent (nothing to translate),
/// claimed by no rule and no default, or claimed, with the explanation.
pub enum ReadArgument {
    Absent,
    Unclaimed,
    Claimed { is_absolute: bool, hli_absolute: String, explanation: RuleExplanation },
}

/// Whether `r` is what argument `raw` under `anchor` amounts to on `map`.
pub open spec fn argument_agrees(
    r: ReadArgument,
    map: ConversionMap,
    anchor: Seq<char>,
    direction: Direction,
    raw: Option<Seq<char>>,
) -> bool {
    if !given(raw) {
        r is Absent
    } else {
        let p = raw->0;
        let hli = joined(anchor, p);
        match resolve_spec(map, hli, direction) {
            None => r is Unclaimed,
            Some(e) => r matches ReadArgument::Claimed { is_absolute, hli_absolute, explanation }
                && is_absolute == (p[0] == '/') && hli_absolute@ == hli && explanation@ == e,
        }
    }
}

/// Joins a path argument onto `anchor` and resolves it through `map`.
pub fn claimed_argument(map: &ConversionMap, anchor: &str, direction: Direction, raw: Option<&str>) -> (r:
    ReadArgument)
    requires
        map.wf(),
    ensures
        argument_agrees(r, *map, anchor@, direction, opt_str(raw)),
{
    let raw = match raw {
        Some(p) => p,
        None => return ReadArgument::Absent,
    };
    let chars = chars_of(raw);
    if chars.len() == 0 {
        return ReadArgument::Absent;
    }
    let is_absolute = chars[0] == '/';
    let hli_absolute = join_hli_path(anchor, raw);
    match map.resolve(hli_absolute.as_str(), direction) {
        None => ReadArgument::Unclaimed,
        Some(explanation) => ReadArgument::Claimed { is_absolute, hli_absolute, explanation },
    }
}

// ---------------------------------------------------------------------------
// Stored spellings
// ---------------------------------------------------------------------------

pub open spec fn no_anchor_rule() -> Seq<char> {
    "context anchor has no stored-DD conversion rule"@
}

pub open spec fn no_anchor_source() -> Seq<char> {
    "context anchor has no stored source"@
}

pub open spec fn outside_anchor() -> Seq<char> {
    "translated path does not lie beneath this context's stored anchor"@
}

pub open spec fn interior_nul() -> Seq<char> {
    "translated field contains an interior NUL byte"@
}

/// The stored spelling of a context's own anchor.
pub open spec fn stored_anchor_spec(map: ConversionMap, anchor: Seq<char>, direction: Direction) -> Result<
    Seq<char>,
    Seq<char>,
> {
    if anchor.len() == 0 {
        Ok(Seq::empty())
    } else {
        match resolve_spec(map, anchor, direction) {
            None => Err(no_anchor_rule()),
            Some(e) => match concrete_spec(e.outcome) {
                (Some(p), _) => Ok(p),
                (None, None) => Err(no_anchor_source()),
                (None, Some(m)) => Err(m),
            },
        }
    }
}

pub open spec fn string_result(r: Result<String, String>) -> Result<Seq<char>, Seq<char>> {
    match r {
        Ok(s) => Ok(s@),
        Err(e) => Err(e@),
    }
}

/// Resolves a context's anchor, in the HLI's spelling, to its stored
/// spelling.
pub fn stored_anchor(map: &ConversionMap, anchor: &str, direction: Direction) -> (r: Result<
    String,
    String,
>)
    requires
        map.wf(),
    ensures
        string_result(r) == stored_anchor_spec(*map, anchor@, direction),
{
    if anchor.is_empty() {
        let r = String::new();
        return Ok(r);
    }
    match map.resolve(anchor, direction) {
        None => Err(owned("context anchor has no stored-DD conversion rule")),
        Some(explanation) => match concrete_stored_path(explanation.outcome) {
            ConcreteStoredPath::Path(p) => Ok(p),
            ConcreteStoredPath::NoSource => Err(owned("context anchor has no stored source")),
            ConcreteStoredPath::Refusal(m) => Err(m),
        },
    }
}

/// The exact spelling IMAS-Core receives for a resolved stored path:
/// absolute when the caller spelled its argument absolutely, otherwise
/// relative to the context's own stored anchor; never one holding a NUL.
pub open spec fn stored_spelling_spec(
    map: ConversionMap,
    anchor: Seq<char>,
    direction: Direction,
    resolved: Seq<char>,
    is_absolute: bool,
) -> Result<Seq<char>, Seq<char>> {
    let translated = if is_absolute {
        Ok("/"@ + resolved)
    } else {
        match stored_anchor_spec(map, anchor, direction) {
            Err(e) => Err(e),
            Ok(a) => match beneath(a, resolved) {
                Some(p) => Ok(p),
                None => Err(outside_anchor()),
            },
        }
    };
    match translated {
        Ok(p) => if has_char(p, '\0') {
            Err(interior_nul())
        } else {
            Ok(p)
        },
        Err(e) => Err(e),
    }
}

/// Spells a resolved stored path for IMAS-Core.
pub fn stored_spelling(
    map: &ConversionMap,
    anchor: &str,
    direction: Direction,
    resolved_path: &str,
    is_absolute: bool,
) -> (r: Result<String, String>)
    requires
        map.wf(),
    ensures
        string_result(r) == stored_spelling_spec(*map, anchor@, direction, resolved_path@, is_absolute),
{
    let translated = if is_absolute {
        let mut p = owned("/");
        p.append(resolved_path);
        p
    } else {
        let a = match stored_anchor(map, anchor, direction) {
            Ok(a) => a,
            Err(e) => return Err(e),
        };
        match strip_anchor(a.as_str(), resolved_path) {
            Some(p) => p,
            None => return Err(
                owned("translated path does not lie beneath this context's stored anchor"),
            ),
        }
    };
    let chars = chars_of(translated.as_str());
    if contains_char(&chars, '\0') {
        return Err(owned("translated field contains an interior NUL byte"));
    }
    Ok(translated)
}

// ---------------------------------------------------------------------------
// Structure paths
// ---------------------------------------------------------------------------

/// What one structure-path argument resolves to.
#[derive(Debug, PartialEq, Eq)]
pub enum ContextPathResolution {
    /// Nothing to translate: forward as received.
    Forward,
    /// No rule and no default claims it.
    Unclaimed,
    Translated(String),
    NoSource,
    Refusal(String),
}

pub open spec fn context_path_spec(
    map: ConversionMap,
    anchor: Seq<char>,
    direction: Direction,
    raw: Option<Seq<char>>,
) -> (int, Seq<char>) {
    // (0 forward, 1 unclaimed, 2 translated, 3 no source, 4 refusal; text)
    if !given(raw) {
        (0, Seq::empty())
    } else {
        let p = raw->0;
        let hli = joined(anchor, p);
        match resolve_spec(map, hli, direction) {
            None => (1, Seq::empty()),
            Some(e) => match concrete_spec(e.outcome) {
                (None, None) => (3, Seq::empty()),
                (None, Some(m)) => (4, m),
                (Some(resolved), _) => match stored_spelling_spec(
                    map,
                    anchor,
                    direction,
                    resolved,
                    p[0] == '/',
                ) {
                    Ok(s) => (2, s),
                    Err(m) => (4, m),
                },
            },
        }
    }
}

pub open spec fn context_path_view(r: ContextPathResolution) -> (int, Seq<char>) {
    match r {
        ContextPathResolution::Forward => (0, Seq::empty()),
        ContextPathResolution::Unclaimed => (1, Seq::empty()),
        ContextPathResolution::Translated(s) => (2, s@),
        ContextPathResolution::NoSource => (3, Seq::empty()),
        ContextPathResolution::Refusal(m) => (4, m@),
    }
}

/// Resolves one structure-path argument, keeping the caller's relative or
/// absolute spelling: only one concrete stored path with no value
/// transformation can serve it.
pub fn resolve_context_path(map: &ConversionMap, anchor: &str, direction: Direction, raw: Option<&str>) -> (r:
    ContextPathResolution)
    requires
        map.wf(),
    ensures
        context_path_view(r) == context_path_spec(*map, anchor@, direction, opt_str(raw)),
{
    match claimed_argument(map, anchor, direction, raw) {
        ReadArgument::Absent => ContextPathResolution::Forward,
        ReadArgument::Unclaimed => ContextPathResolution::Unclaimed,
        ReadArgument::Claimed { is_absolute, hli_absolute: _, explanation } => {
            match concrete_stored_path(explanation.outcome) {
                ConcreteStoredPath::NoSource => ContextPathResolution::NoSource,
                ConcreteStoredPath::Refusal(reason) => ContextPathResolution::Refusal(reason),
                ConcreteStoredPath::Path(resolved) => {
                    match stored_spelling(map, anchor, direction, resolved.as_str(), is_absolute) {
                        Ok(p) => ContextPathResolution::Translated(p),
                        Err(reason) => ContextPathResolution::Refusal(reason),
                    }
                },
            }
        },
    }
}

/// Resolves one argument of an arraystruct open: a path the map does not
/// claim, or that has no stored source, refuses, since the new context's
/// stored anchor would be unknown. `Ok(None)` forwards the argument as
/// received.
pub fn resolve_arraystruct_argument(
    map: &ConversionMap,
    anchor: &str,
    direction: Direction,
    raw: Option<&str>,
    label: &str,
) -> (r: Result<Option<String>, String>)
    requires
        map.wf(),
    ensures
        ({
            let (kind, text) = context_path_spec(*map, anchor@, direction, opt_str(raw));
            match r {
                Ok(None) => kind == 0,
                Ok(Some(p)) => kind == 2 && p@ == text,
                Err(m) => (kind == 4 && m@ == text) || (kind == 3 && m@ == "arraystruct "@ + label@
                    + " has no stored source"@) || (kind == 1 && m@ == "arraystruct "@ + label@
                    + " is unclaimed by the conversion map"@),
            }
        }),
{
    match resolve_context_path(map, anchor, direction, raw) {
        ContextPathResolution::Translated(p) => Ok(Some(p)),
        ContextPathResolution::Refusal(reason) => Err(reason),
        ContextPathResolution::NoSource => {
            let mut m = owned("arraystruct ");
            m.append(label);
            m.append(" has no stored source");
            Err(m)
        },
        ContextPathResolution::Unclaimed => {
            let mut m = owned("arraystruct ");
            m.append(label);
            m.append(" is unclaimed by the conversion map");
            Err(m)
        },
        ContextPathResolution::Forward => Ok(None),
    }
}

// ---------------------------------------------------------------------------
// Data reads
// ---------------------------------------------------------------------------

/// One stored spelling a data read may try, with the verdict a hit earns
/// and the transformation its values need.
pub struct ReadComponent {
    pub path: String,
    pub fidelity: Fidelity,
    pub value_transformation: ValueTransformation,
}

/// The value of a [`ReadComponent`].
pub struct ComponentView {
    pub path: Seq<char>,
    pub fidelity: Fidelity,
    pub transform: TransformView,
}

impl View for ReadComponent {
    type V = ComponentView;

    open spec fn view(&self) -> ComponentView {
        ComponentView {
            path: self.path@,
            fidelity: self.fidelity,
            transform: self.value_transformation@,
        }
    }
}

pub open spec fn component_views(v: Seq<ReadComponent>) -> Seq<ComponentView> {
    v.map_values(|c: ReadComponent| c@)
}

/// What one data-read argument resolves to. A single stored spelling and a
/// candidate plan both keep each spelling's verdict and value
/// transformation until a stored source actually returns data.
pub enum ReadPath {
    /// Nothing to translate: forward the argument as received.
    Forward,
    Translated(ReadComponent),
    /// An ordered plan, tried until the first hit.
    Candidates(Vec<ReadComponent>),
    /// Answer not found, retaining this verdict.
    NoSource(Fidelity),
    Refusal { reason: String, dd_path: String, fidelity: Fidelity },
}

/// The value of a [`ReadPath`].
pub enum ReadPathView {
    Forward,
    Translated(ComponentView),
    Candidates(Seq<ComponentView>),
    NoSource(Fidelity),
    Refusal(Seq<char>, Seq<char>, Fidelity),
}

pub open spec fn read_path_view(r: ReadPath) -> ReadPathView {
    match r {
        ReadPath::Forward => ReadPathView::Forward,
        ReadPath::Translated(c) => ReadPathView::Translated(c@),
        ReadPath::Candidates(cs) => ReadPathView::Candidates(component_views(cs@)),
        ReadPath::NoSource(f) => ReadPathView::NoSource(f),
        ReadPath::Refusal { reason, dd_path, fidelity } => ReadPathView::Refusal(
            reason@,
            dd_path@,
            fidelity,
        ),
    }
}

/// The first `n` candidates spelled for IMAS-Core in order, or the refusal
/// of the first one that cannot be spelled.
pub open spec fn spelled_candidates(
    map: ConversionMap,
    anchor: Seq<char>,
    direction: Direction,
    candidates: Seq<CandidateView>,
    is_absolute: bool,
    fidelity: Fidelity,
    n: nat,
) -> Result<Seq<ComponentView>, Seq<char>>
    decreases n,
{
    if n == 0 {
        Ok(Seq::empty())
    } else {
        match spelled_candidates(map, anchor, direction, candidates, is_absolute, fidelity, (n - 1) as nat) {
            Err(m) => Err(m),
            Ok(done) => match stored_spelling_spec(
                map,
                anchor,
                direction,
                candidates[n - 1].path,
                is_absolute,
            ) {
                Err(m) => Err(m),
                Ok(p) => Ok(
                    done.push(ComponentView { path: p, fidelity, transform: candidates[n - 1].transform }),
                ),
            },
        }
    }
}

/// What a data-read argument resolves to. An argument no rule and no
/// default claims answers not found as unmappable rather than being
/// forwarded under the wrong spelling; a refusal names the argument's full
/// DD path.
pub open spec fn read_path_spec(
    map: ConversionMap,
    anchor: Seq<char>,
    direction: Direction,
    raw: Option<Seq<char>>,
) -> ReadPathView {
    if !given(raw) {
        ReadPathView::Forward
    } else {
        let p = raw->0;
        let hli = joined(anchor, p);
        let is_absolute = p[0] == '/';
        match resolve_spec(map, hli, direction) {
            None => ReadPathView::NoSource(Fidelity::Unmappable),
            Some(e) => {
                let fidelity = read_fidelity_spec(e.fidelity, e.rel);
                match e.outcome {
                    OutcomeView::Refusal(reason) => ReadPathView::Refusal(
                        reason_text(reason),
                        hli,
                        Fidelity::Unmappable,
                    ),
                    OutcomeView::NoSource => ReadPathView::NoSource(fidelity),
                    OutcomeView::Path(resolved, transform, candidates) => if candidates.len() == 0 {
                        match stored_spelling_spec(map, anchor, direction, resolved, is_absolute) {
                            Ok(s) => ReadPathView::Translated(
                                ComponentView { path: s, fidelity, transform },
                            ),
                            Err(m) => ReadPathView::Refusal(m, hli, Fidelity::Unmappable),
                        }
                    } else {
                        match spelled_candidates(
                            map,
                            anchor,
                            direction,
                            candidates,
                            is_absolute,
                            fidelity,
                            candidates.len(),
                        ) {
                            Ok(cs) => ReadPathView::Candidates(cs),
                            Err(m) => ReadPathView::Refusal(m, hli, Fidelity::Unmappable),
                        }
                    },
                }
            },
        }
    }
}

proof fn lemma_spelling_refusal_persists(
    map: ConversionMap,
    anchor: Seq<char>,
    direction: Direction,
    candidates: Seq<CandidateView>,
    is_absolute: bool,
    fidelity: Fidelity,
    k: nat,
    n: nat,
)
    requires
        k <= n,
        spelled_candidates(map, anchor, direction, candidates, is_absolute, fidelity, k) is Err,
    ensures
        spelled_candidates(map, anchor, direction, candidates, is_absolute, fidelity, n)
            == spelled_candidates(map, anchor, direction, candidates, is_absolute, fidelity, k),
    decreases n,
{
    if n > k {
        lemma_spelling_refusal_persists(
            map,
            anchor,
            direction,
            candidates,
            is_absolute,
            fidelity,
            k,
            (n - 1) as nat,
        );
    }
}

/// An equal copy of a value transformation.
fn duplicate_transform(t: &ValueTransformation) -> (r: ValueTransformation)
    ensures
        r@ == t@,
{
    match t {
        ValueTransformation::Unchanged => ValueTransformation::Unchanged,
        ValueTransformation::SignFlip { from_cocos, to_cocos } => ValueTransformation::SignFlip {
            from_cocos: from_cocos.duplicate(),
            to_cocos: to_cocos.duplicate(),
        },
    }
}

/// Spells every candidate of a plan for IMAS-Core, in order.
fn spell_candidates(
    map: &ConversionMap,
    anchor: &str,
    direction: Direction,
    candidates: &Vec<CandidatePath>,
    is_absolute: bool,
    fidelity: Fidelity,
) -> (r: Result<Vec<ReadComponent>, String>)
    requires
        map.wf(),
    ensures
        match spelled_candidates(
            *map,
            anchor@,
            direction,
            candidate_views(candidates@),
            is_absolute,
            fidelity,
            candidates.len() as nat,
        ) {
            Ok(s) => r matches Ok(v) && component_views(v@) == s,
            Err(m) => r matches Err(e) && e@ == m,
        },
{
    let ghost views = candidate_views(candidates@);
    let mut out: Vec<ReadComponent> = Vec::new();
    let mut i: usize = 0;
    while i < candidates.len()
        invariant
            map.wf(),
            i <= candidates.len(),
            views == candidate_views(candidates@),
            spelled_candidates(*map, anchor@, direction, views, is_absolute, fidelity, i as nat)
                matches Ok(s) && component_views(out@) == s,
        decreases candidates.len() - i,
    {
        let c = &candidates[i];
        assert(views[i as int] == c@);
        match stored_spelling(map, anchor, direction, c.path.as_str(), is_absolute) {
            Err(m) => {
                proof {
                    lemma_spelling_refusal_persists(
                        *map,
                        anchor@,
                        direction,
                        views,
                        is_absolute,
                        fidelity,
                        (i + 1) as nat,
                        candidates.len() as nat,
                    );
                }
                return Err(m);
            },
            Ok(path) => {
                let component = ReadComponent {
                    path,
                    fidelity,
                    value_transformation: duplicate_transform(&c.value_transformation),
                };
                let ghost before = out@;
                out.push(component);
                assert(component_views(out@) =~= component_views(before).push(component@));
            },
        }
        i += 1;
    }
    Ok(out)
}

/// Resolves one data-read argument to what IMAS-Core must be asked for.
pub fn resolve_read_path(map: &ConversionMap, anchor: &str, direction: Direction, raw: Option<&str>) -> (r:
    ReadPath)
    requires
        map.wf(),
    ensures
        read_path_view(r) == read_path_spec(*map, anchor@, direction, opt_str(raw)),
{
    match claimed_argument(map, anchor, direction, raw) {
        ReadArgument::Absent => ReadPath::Forward,
        ReadArgument::Unclaimed => ReadPath::NoSource(Fidelity::Unmappable),
        ReadArgument::Claimed { is_absolute, hli_absolute, explanation } => {
            let fidelity = read_fidelity(explanation.fidelity, explanation.rel);
            match explanation.outcome {
                Outcome::Refusal(reason) => ReadPath::Refusal {
                    reason: refusal_reason_message(reason),
                    dd_path: hli_absolute,
                    fidelity: Fidelity::Unmappable,
                },
                Outcome::NoSource => ReadPath::NoSource(fidelity),
                Outcome::Path { resolved_path, value_transformation, candidates } => {
                    if candidates.len() == 0 {
                        match stored_spelling(
                            map,
                            anchor,
                            direction,
                            resolved_path.as_str(),
                            is_absolute,
                        ) {
                            Ok(path) => ReadPath::Translated(
                                ReadComponent { path, fidelity, value_transformation },
                            ),
                            Err(reason) => ReadPath::Refusal {
                                reason,
                                dd_path: hli_absolute,
                                fidelity: Fidelity::Unmappable,
                            },
                        }
                    } else {
                        match spell_candidates(
                            map,
                            anchor,
                            direction,
                            &candidates,
                            is_absolute,
                            fidelity,
                        ) {
                            Ok(components) => ReadPath::Candidates(components),
                            Err(reason) => ReadPath::Refusal {
                                reason,
                                dd_path: hli_absolute,
                                fidelity: Fidelity::Unmappable,
                            },
                        }
                    }
                },
            }
        },
    }
}

} // verus!
