//! Conversion-map artifacts and direction-neutral path resolution.
//!
//! A map connects two released DD versions (its left and right sides). A
//! requested path is matched against the rules' selectors on the side it is
//! spelled in — exact selectors first, then subtree, then glob — and the
//! winning rule says what the path becomes on the other side: a concrete
//! path (with an ordered candidate read plan when a `merged`/`split` rule
//! cannot name one source without reading data), no source, or a refusal.
//! A path no rule claims falls through to the document-level identity
//! default when the artifact declares one.
use vstd::prelude::*;

use crate::selector::{
    globs_overlap_spec, pattern_of, render_spec, stage_of, string_views, try_match_spec, wildcards,
    MatchView, Selector, SelectorMatch, SelectorStage,
};
use crate::text::{owned, str_eq};

verus! {

/// A released DD version naming one side of a conversion-map artifact.
#[derive(Debug, PartialEq, Eq)]
pub struct ArtifactDdVersion(pub String);

impl ArtifactDdVersion {
    /// The version's spelling.
    pub fn as_str(&self) -> (r: &str)
        ensures
            r@ == self.0@,
    {
        self.0.as_str()
    }
}

/// A COCOS convention identifier from a conversion-map artifact.
#[derive(Debug, PartialEq, Eq)]
pub struct CocosConvention(pub String);

impl CocosConvention {
    /// The convention's spelling.
    pub fn as_str(&self) -> (r: &str)
        ensures
            r@ == self.0@,
    {
        self.0.as_str()
    }

    /// An equal copy.
    pub fn duplicate(&self) -> (r: CocosConvention)
        ensures
            r == *self,
    {
        CocosConvention(self.0.clone())
    }
}

/// One side of a conversion-map artifact: a DD version and its COCOS
/// convention.
#[derive(Debug, PartialEq, Eq)]
pub struct Side {
    pub dd: ArtifactDdVersion,
    pub cocos: CocosConvention,
}

/// Which side of the map a resolution request travels from.
#[derive(Debug, Clone, Copy, PartialEq, Eq, Structural)]
pub enum Direction {
    /// Left DD path supplied, resolve to the right DD's spelling.
    Forward,
    /// Right DD path supplied, resolve to the left DD's spelling.
    Reverse,
}

/// The fidelity a rule states for one direction.
#[derive(Debug, Clone, Copy, PartialEq, Eq, Structural)]
pub enum Fidelity {
    Exact,
    /// A merged or split rule that can name only one successful source
    /// after trying its candidates.
    PotentiallyLossy,
    Lossy,
    Unmappable,
}

/// A required change to data values during conversion, looked up by the
/// resolved right-side path.
#[derive(Debug, PartialEq, Eq)]
pub enum ValueTransformation {
    /// Values pass through unchanged.
    Unchanged,
    SignFlip { from_cocos: CocosConvention, to_cocos: CocosConvention },
}

/// One `<rule>` element's `rel` attribute.
#[derive(Debug, Clone, Copy, PartialEq, Eq, Structural)]
pub enum Rel {
    Renamed,
    Merged,
    Moved,
    /// A path whose data type or rank changed: it always refuses, whatever
    /// fidelity it declares, because the shim cannot reshape a buffer.
    Retyped,
    Split,
    /// A path present only on the left side; only its forward fidelity is
    /// ever consulted.
    LeftOnly,
    /// A path present only on the right side; only its reverse fidelity is
    /// ever consulted.
    RightOnly,
}

/// One `<from>` child of a `merged` or `split` rule.
#[derive(Debug, PartialEq, Eq)]
pub struct FromEntry {
    pub selector: Selector,
    pub precedence: u32,
}

/// One path-level conversion rule. `Renamed`/`Moved`/`Retyped` carry both
/// `left` and `right`; `LeftOnly` only `left`; `RightOnly` only `right`;
/// `Merged` carries `right` plus left-side `froms`; `Split` carries `left`
/// plus right-side `froms`.
#[derive(Debug, PartialEq, Eq)]
pub struct Rule {
    pub id: String,
    pub rel: Rel,
    pub left: Option<Selector>,
    pub right: Option<Selector>,
    pub froms: Vec<FromEntry>,
    pub fidelity_forward: Fidelity,
    pub fidelity_reverse: Fidelity,
}

/// Which rule mechanism produced a [`RuleExplanation`].
#[derive(Debug, Clone, Copy, PartialEq, Eq, Structural)]
pub enum MatchKind {
    /// An explicit `<rule>` matched the requested path.
    Explicit,
    /// No rule matched; the document-level identity default applied.
    Default,
}

/// One candidate stored path in a `merged`/`split` rule's read plan, tried
/// in ascending declared precedence until the first hit.
#[derive(Debug, PartialEq, Eq)]
pub struct CandidatePath {
    pub path: String,
    pub precedence: u32,
    pub value_transformation: ValueTransformation,
}

/// Why a path is not converted at all.
#[derive(Debug, Clone, Copy, PartialEq, Eq, Structural)]
pub enum RefusalReason {
    UnservableRetype,
    UnitRedefinition,
    Unmappable,
}

/// What resolving a path produced beyond match information.
#[derive(Debug, PartialEq, Eq)]
pub enum Outcome {
    /// A concrete path plus, where necessary, its ordered read plan.
    Path {
        resolved_path: String,
        value_transformation: ValueTransformation,
        candidates: Vec<CandidatePath>,
    },
    /// No path exists on the other side for this direction.
    NoSource,
    /// The path is not converted.
    Refusal(RefusalReason),
}

/// The rule selected for a requested path, how it matched, and what it
/// resolved to.
#[derive(Debug, PartialEq, Eq)]
pub struct RuleExplanation {
    /// The selected rule's id, or `None` for a `Default` match.
    pub rule_id: Option<String>,
    /// The selected rule's relation, or `None` for a `Default` match.
    pub rel: Option<Rel>,
    pub match_kind: MatchKind,
    /// The selector stage that won: `Some` for every `Explicit` match.
    pub selector_stage: Option<SelectorStage>,
    /// The winning source's precedence within its rule, when the requested
    /// path was one declared `<from>` entry.
    pub precedence: Option<u32>,
    pub fidelity: Fidelity,
    pub outcome: Outcome,
}

/// Which side of an artifact a path inventory, or a rule-declared path,
/// belongs to.
#[derive(Debug, Clone, Copy, PartialEq, Eq, Structural)]
pub enum InventorySide {
    Left,
    Right,
}

/// One way [`ConversionMap::check_completeness`] found a path was not
/// legitimately claimed.
#[derive(Debug, PartialEq, Eq)]
pub enum CompletenessViolation {
    /// An inventory path resolved to neither a rule nor the default.
    UnclaimedInventoryPath { side: InventorySide, path: String },
    /// An inventory path fell through to the identity default, but the
    /// other side's inventory has no path of that spelling.
    DefaultAssumesMissingCounterpart { side: InventorySide, path: String },
    /// A side-only rule declares its path gone on the other side, and that
    /// side's inventory lists it anyway.
    SideOnlyRuleContradictedByInventory {
        rule_id: String,
        side: InventorySide,
        pattern: String,
        path: String,
    },
    /// A rule's own `left`/`right` selector matches nothing in that side's
    /// inventory.
    RuleSelectorNotBackedByInventory { rule_id: String, side: InventorySide, pattern: String },
}

/// Why an artifact failed to load.
#[derive(Debug, PartialEq, Eq)]
pub enum LoadError {
    Xml(String),
    MissingAttribute { element: String, attribute: String },
    UnknownValue { element: String, attribute: String, value: String },
    DuplicateRuleId(String),
    /// Two selectors register the same literal `Exact` or `Subtree` pattern
    /// for the same source role.
    DuplicateSourceSelector { role: &'static str, stage: SelectorStage, pattern: String },
    /// Two `Glob` selectors on the same source role could both match one
    /// path.
    OverlappingSourceSelectors { role: &'static str, first: String, second: String },
    OverlappingRedefineSelectors { first: String, second: String },
    DuplicatePrecedence { rule_id: String, precedence: u32 },
    InvalidRuleShape { rule_id: String, reason: String },
    DuplicateFlipPath(String),
    InvalidArtifactDdVersion(String),
    InvalidCocosConvention(String),
    MissingSide(&'static str),
}

/// One rule's contribution to a source role: a selector that must match a
/// requested path before that rule can claim it, the owning rule's index,
/// and the `<from>` precedence when the selector is one.
#[derive(Debug)]
pub struct SourceEntry {
    pub selector: Selector,
    pub rule_index: usize,
    pub precedence: Option<u32>,
}

/// One `<redefine>` unit change keyed on the right-side path.
#[derive(Debug)]
pub struct RedefineEntry {
    pub selector: Selector,
    pub fidelity_forward: Fidelity,
    pub fidelity_reverse: Fidelity,
}

/// One `<flip>` path and the COCOS conventions it converts between.
#[derive(Debug)]
pub struct FlipEntry {
    pub path: String,
    pub from_cocos: CocosConvention,
    pub to_cocos: CocosConvention,
}

/// A loaded conversion-map artifact for one DD-version step.
#[derive(Debug)]
pub struct ConversionMap {
    pub ids: String,
    pub left: Side,
    pub right: Side,
    pub default_identical: bool,
    pub rules: Vec<Rule>,
    pub sign_flips: Vec<FlipEntry>,
    pub redefines: Vec<RedefineEntry>,
    /// Every selector that can claim a path on a forward resolve.
    pub left_sources: Vec<SourceEntry>,
    /// Every selector that can claim a path on a reverse resolve.
    pub right_sources: Vec<SourceEntry>,
}

// ---------------------------------------------------------------------------
// Views
// ---------------------------------------------------------------------------

/// The value of a [`ValueTransformation`].
pub enum TransformView {
    Unchanged,
    SignFlip(Seq<char>, Seq<char>),
}

/// The value of a [`CandidatePath`].
pub struct CandidateView {
    pub path: Seq<char>,
    pub precedence: u32,
    pub transform: TransformView,
}

/// The value of an [`Outcome`].
pub enum OutcomeView {
    Path(Seq<char>, TransformView, Seq<CandidateView>),
    NoSource,
    Refusal(RefusalReason),
}

/// The value of a [`RuleExplanation`].
pub struct ExplanationView {
    pub rule_id: Option<Seq<char>>,
    pub rel: Option<Rel>,
    pub match_kind: MatchKind,
    pub selector_stage: Option<SelectorStage>,
    pub precedence: Option<u32>,
    pub fidelity: Fidelity,
    pub outcome: OutcomeView,
}

impl View for ValueTransformation {
    type V = TransformView;

    open spec fn view(&self) -> TransformView {
        match self {
            ValueTransformation::Unchanged => TransformView::Unchanged,
            ValueTransformation::SignFlip { from_cocos, to_cocos } => TransformView::SignFlip(
                from_cocos.0@,
                to_cocos.0@,
            ),
        }
    }
}

impl View for CandidatePath {
    type V = CandidateView;

    open spec fn view(&self) -> CandidateView {
        CandidateView {
            path: self.path@,
            precedence: self.precedence,
            transform: self.value_transformation@,
        }
    }
}

pub open spec fn candidate_views(v: Seq<CandidatePath>) -> Seq<CandidateView> {
    v.map_values(|c: CandidatePath| c@)
}

impl View for Outcome {
    type V = OutcomeView;

    open spec fn view(&self) -> OutcomeView {
        match self {
            Outcome::Path { resolved_path, value_transformation, candidates } => OutcomeView::Path(
                resolved_path@,
                value_transformation@,
                candidate_views(candidates@),
            ),
            Outcome::NoSource => OutcomeView::NoSource,
            Outcome::Refusal(r) => OutcomeView::Refusal(*r),
        }
    }
}

pub open spec fn opt_string_view(s: Option<String>) -> Option<Seq<char>> {
    match s {
        Some(x) => Some(x@),
        None => None,
    }
}

impl View for RuleExplanation {
    type V = ExplanationView;

    open spec fn view(&self) -> ExplanationView {
        ExplanationView {
            rule_id: opt_string_view(self.rule_id),
            rel: self.rel,
            match_kind: self.match_kind,
            selector_stage: self.selector_stage,
            precedence: self.precedence,
            fidelity: self.fidelity,
            outcome: self.outcome@,
        }
    }
}

pub open spec fn opt_explanation_view(r: Option<RuleExplanation>) -> Option<ExplanationView> {
    match r {
        Some(e) => Some(e@),
        None => None,
    }
}

// ---------------------------------------------------------------------------
// Specification of resolution
// ---------------------------------------------------------------------------

/// The fidelity a rule declares for `direction`.
pub open spec fn fidelity_in(rule: Rule, direction: Direction) -> Fidelity {
    match direction {
        Direction::Forward => rule.fidelity_forward,
        Direction::Reverse => rule.fidelity_reverse,
    }
}

/// The refusal a matched rule owes before any path is resolved: a retype
/// refuses on shape whatever fidelity it declares, and any other rule
/// declared unmappable for this direction refuses as unmappable.
pub open spec fn refusal_before_resolution_spec(rel: Rel, fidelity: Fidelity) -> Option<
    RefusalReason,
> {
    if rel == Rel::Retyped {
        Some(RefusalReason::UnservableRetype)
    } else if fidelity == Fidelity::Unmappable {
        Some(RefusalReason::Unmappable)
    } else {
        None
    }
}

/// The specificity a match ranks by within its stage.
pub open spec fn entry_specificity(e: SourceEntry, path: Seq<char>) -> nat {
    try_match_spec(e.selector, path)->0.specificity
}

/// Whether source entry `e` belongs to `stage` and matches `path`.
pub open spec fn entry_matches(e: SourceEntry, stage: SelectorStage, path: Seq<char>) -> bool {
    stage_of(e.selector) == stage && try_match_spec(e.selector, path) is Some
}

/// `i` is the winning entry of `stage` among `sources`: it matches, no other
/// match is more specific, and no later match is as specific (so among
/// equally specific matches the one listed last wins).
pub open spec fn is_stage_winner(
    sources: Seq<SourceEntry>,
    stage: SelectorStage,
    path: Seq<char>,
    i: int,
) -> bool {
    &&& 0 <= i < sources.len()
    &&& entry_matches(sources[i], stage, path)
    &&& forall|j: int|
        0 <= j < sources.len() && #[trigger] entry_matches(sources[j], stage, path) ==> {
            &&& entry_specificity(sources[j], path) <= entry_specificity(sources[i], path)
            &&& (j > i ==> entry_specificity(sources[j], path) < entry_specificity(sources[i], path))
        }
}

/// The winning entry of `stage`, if any entry of that stage matches.
pub open spec fn stage_winner(sources: Seq<SourceEntry>, stage: SelectorStage, path: Seq<char>) -> Option<
    int,
> {
    if exists|i: int| is_stage_winner(sources, stage, path, i) {
        Some(choose|i: int| is_stage_winner(sources, stage, path, i))
    } else {
        None
    }
}

/// The winning stage and entry for `path`: the first of `Exact`, `Subtree`,
/// `Glob` with any match at all.
pub open spec fn best_match_spec(sources: Seq<SourceEntry>, path: Seq<char>) -> Option<
    (SelectorStage, int),
> {
    match stage_winner(sources, SelectorStage::Exact, path) {
        Some(i) => Some((SelectorStage::Exact, i)),
        None => match stage_winner(sources, SelectorStage::Subtree, path) {
            Some(i) => Some((SelectorStage::Subtree, i)),
            None => match stage_winner(sources, SelectorStage::Glob, path) {
                Some(i) => Some((SelectorStage::Glob, i)),
                None => None,
            },
        },
    }
}

/// The source entries a request in `direction` is matched against.
pub open spec fn sources_for(map: ConversionMap, direction: Direction) -> Seq<SourceEntry> {
    match direction {
        Direction::Forward => map.left_sources@,
        Direction::Reverse => map.right_sources@,
    }
}

/// The fidelity of the first `<redefine>` (in document order) whose glob
/// matches `path`, for `direction`.
pub open spec fn redefine_in(entries: Seq<RedefineEntry>, path: Seq<char>, direction: Direction) -> Option<
    Fidelity,
>
    decreases entries.len(),
{
    if entries.len() == 0 {
        None
    } else if try_match_spec(entries[0].selector, path) is Some {
        Some(
            match direction {
                Direction::Forward => entries[0].fidelity_forward,
                Direction::Reverse => entries[0].fidelity_reverse,
            },
        )
    } else {
        redefine_in(entries.drop_first(), path, direction)
    }
}

/// The redefinition fidelity of the first right-side path that has one.
pub open spec fn first_redefined(map: ConversionMap, paths: Seq<Seq<char>>, direction: Direction) -> Option<
    Fidelity,
>
    decreases paths.len(),
{
    if paths.len() == 0 {
        None
    } else {
        match redefine_in(map.redefines@, paths[0], direction) {
            Some(f) => Some(f),
            None => first_redefined(map, paths.drop_first(), direction),
        }
    }
}

/// The first `<flip>` entry for `path`, in document order.
pub open spec fn flip_in(flips: Seq<FlipEntry>, path: Seq<char>) -> Option<FlipEntry>
    decreases flips.len(),
{
    if flips.len() == 0 {
        None
    } else if flips[0].path@ == path {
        Some(flips[0])
    } else {
        flip_in(flips.drop_first(), path)
    }
}

/// The value transformation a right-side path needs when travelling in
/// `direction`: a sign flip between its declared COCOS conventions,
/// oriented by the direction, unless the two are the same.
pub open spec fn transform_for(map: ConversionMap, right_side_path: Seq<char>, direction: Direction) -> TransformView {
    match flip_in(map.sign_flips@, right_side_path) {
        None => TransformView::Unchanged,
        Some(e) => {
            let (f, t) = match direction {
                Direction::Forward => (e.from_cocos.0@, e.to_cocos.0@),
                Direction::Reverse => (e.to_cocos.0@, e.from_cocos.0@),
            };
            if f == t {
                TransformView::Unchanged
            } else {
                TransformView::SignFlip(f, t)
            }
        },
    }
}

/// `froms` inserted one at a time into a list kept ascending by
/// precedence, each after every entry of equal or lower precedence: a
/// stable sort by precedence.
pub open spec fn insert_by_precedence(x: FromEntry, s: Seq<FromEntry>) -> Seq<FromEntry>
    decreases s.len(),
{
    if s.len() == 0 {
        seq![x]
    } else if s[0].precedence > x.precedence {
        seq![x] + s
    } else {
        seq![s[0]] + insert_by_precedence(x, s.drop_first())
    }
}

/// `froms` stably sorted by ascending precedence.
pub open spec fn by_precedence(froms: Seq<FromEntry>) -> Seq<FromEntry>
    decreases froms.len(),
{
    if froms.len() == 0 {
        Seq::empty()
    } else {
        insert_by_precedence(froms.last(), by_precedence(froms.drop_last()))
    }
}

/// The candidate read plan a `merged`/`split` rule's `<from>` entries give
/// for match `m`: each entry rendered, in ascending precedence, with the
/// value transformation of its right-side spelling (the requested path for
/// a merged rule's aliases, the candidate itself for a split rule's
/// destinations).
pub open spec fn candidates_spec(
    map: ConversionMap,
    froms: Seq<FromEntry>,
    m: MatchView,
    direction: Direction,
    shared_right_side: Option<Seq<char>>,
) -> Seq<CandidateView> {
    by_precedence(froms).map_values(
        |f: FromEntry|
            {
                let p = render_spec(f.selector, m.suffix, m.captures);
                let rs = match shared_right_side {
                    Some(q) => q,
                    None => p,
                };
                CandidateView {
                    path: p,
                    precedence: f.precedence,
                    transform: transform_for(map, rs, direction),
                }
            },
    )
}

/// An explicit match's explanation around `outcome`.
pub open spec fn explicit_view(
    rule: Rule,
    stage: SelectorStage,
    precedence: Option<u32>,
    fidelity: Fidelity,
    outcome: OutcomeView,
) -> ExplanationView {
    ExplanationView {
        rule_id: Some(rule.id@),
        rel: Some(rule.rel),
        match_kind: MatchKind::Explicit,
        selector_stage: Some(stage),
        precedence,
        fidelity,
        outcome,
    }
}

/// An explicit path result: refused as a unit redefinition when any
/// right-side path is redefined, otherwise the resolved path with the value
/// transformation of the first right-side path.
pub open spec fn explicit_path_view(
    map: ConversionMap,
    rule: Rule,
    stage: SelectorStage,
    precedence: Option<u32>,
    fidelity: Fidelity,
    direction: Direction,
    resolved: Seq<char>,
    right_side_paths: Seq<Seq<char>>,
    candidates: Seq<CandidateView>,
) -> ExplanationView {
    match first_redefined(map, right_side_paths, direction) {
        Some(f) => explicit_view(
            rule,
            stage,
            precedence,
            f,
            OutcomeView::Refusal(RefusalReason::UnitRedefinition),
        ),
        None => explicit_view(
            rule,
            stage,
            precedence,
            fidelity,
            OutcomeView::Path(resolved, transform_for(map, right_side_paths[0], direction), candidates),
        ),
    }
}

/// What an explicit rule resolves `path` to, given its winning match.
pub open spec fn explicit_resolution(
    map: ConversionMap,
    rule: Rule,
    stage: SelectorStage,
    precedence: Option<u32>,
    m: MatchView,
    path: Seq<char>,
    direction: Direction,
) -> ExplanationView {
    let fidelity = fidelity_in(rule, direction);
    match refusal_before_resolution_spec(rule.rel, fidelity) {
        Some(reason) => explicit_view(rule, stage, precedence, fidelity, OutcomeView::Refusal(reason)),
        None => match rule.rel {
            Rel::LeftOnly | Rel::RightOnly | Rel::Retyped => explicit_view(
                rule,
                stage,
                precedence,
                fidelity,
                OutcomeView::NoSource,
            ),
            Rel::Renamed | Rel::Moved => {
                let target = match direction {
                    Direction::Forward => rule.right->0,
                    Direction::Reverse => rule.left->0,
                };
                let resolved = render_spec(target, m.suffix, m.captures);
                let right_side = match direction {
                    Direction::Forward => resolved,
                    Direction::Reverse => path,
                };
                explicit_path_view(
                    map,
                    rule,
                    stage,
                    precedence,
                    fidelity,
                    direction,
                    resolved,
                    seq![right_side],
                    Seq::empty(),
                )
            },
            Rel::Merged => match direction {
                Direction::Forward => {
                    let resolved = render_spec(rule.right->0, m.suffix, m.captures);
                    explicit_path_view(
                        map,
                        rule,
                        stage,
                        precedence,
                        fidelity,
                        direction,
                        resolved,
                        seq![resolved],
                        Seq::empty(),
                    )
                },
                Direction::Reverse => {
                    let c = candidates_spec(map, rule.froms@, m, direction, Some(path));
                    explicit_path_view(
                        map,
                        rule,
                        stage,
                        precedence,
                        fidelity,
                        direction,
                        c[0].path,
                        seq![path],
                        c,
                    )
                },
            },
            Rel::Split => match direction {
                Direction::Forward => {
                    let c = candidates_spec(map, rule.froms@, m, direction, None);
                    explicit_path_view(
                        map,
                        rule,
                        stage,
                        precedence,
                        fidelity,
                        direction,
                        c[0].path,
                        c.map_values(|x: CandidateView| x.path),
                        c,
                    )
                },
                Direction::Reverse => {
                    let resolved = render_spec(rule.left->0, m.suffix, m.captures);
                    explicit_path_view(
                        map,
                        rule,
                        stage,
                        precedence,
                        fidelity,
                        direction,
                        resolved,
                        seq![path],
                        Seq::empty(),
                    )
                },
            },
        },
    }
}

/// What the document-level identity default resolves `path` to.
pub open spec fn default_resolution(map: ConversionMap, path: Seq<char>, direction: Direction) -> ExplanationView {
    let (fidelity, outcome) = match redefine_in(map.redefines@, path, direction) {
        Some(f) => (f, OutcomeView::Refusal(RefusalReason::UnitRedefinition)),
        None => (
            Fidelity::Exact,
            OutcomeView::Path(path, transform_for(map, path, direction), Seq::empty()),
        ),
    };
    ExplanationView {
        rule_id: None,
        rel: None,
        match_kind: MatchKind::Default,
        selector_stage: None,
        precedence: None,
        fidelity,
        outcome,
    }
}

/// What resolving `path`, spelled on `direction`'s source side, gives:
/// the winning rule's resolution, else the identity default when the
/// artifact declares one, else nothing.
pub open spec fn resolve_spec(map: ConversionMap, path: Seq<char>, direction: Direction) -> Option<
    ExplanationView,
> {
    let sources = sources_for(map, direction);
    match best_match_spec(sources, path) {
        Some((stage, i)) => {
            let e = sources[i];
            Some(
                explicit_resolution(
                    map,
                    map.rules@[e.rule_index as int],
                    stage,
                    e.precedence,
                    try_match_spec(e.selector, path)->0,
                    path,
                    direction,
                ),
            )
        },
        None => if map.default_identical {
            Some(default_resolution(map, path, direction))
        } else {
            None
        },
    }
}

/// The shape each `rel` requires of a rule.
pub open spec fn rule_shape_ok(rule: Rule) -> bool {
    match rule.rel {
        Rel::Renamed | Rel::Moved | Rel::Retyped => rule.left is Some && rule.right is Some,
        Rel::LeftOnly => rule.left is Some && rule.right is None,
        Rel::RightOnly => rule.right is Some && rule.left is None,
        Rel::Merged => rule.right is Some && rule.left is None && rule.froms@.len() > 0,
        Rel::Split => rule.left is Some && rule.right is None && rule.froms@.len() > 0,
    }
}

/// No two entries of `s` carry the same literal (`Exact` or `Subtree`)
/// selector, and no two glob selectors could match one path.
pub open spec fn unambiguous(s: Seq<SourceEntry>) -> bool {
    &&& forall|i: int, j: int|
        0 <= i < j < s.len() && stage_of(s[j].selector) != SelectorStage::Glob ==> !(stage_of(
            #[trigger] s[i].selector,
        ) == stage_of(#[trigger] s[j].selector) && pattern_of(s[i].selector) == pattern_of(
            s[j].selector,
        ))
    &&& forall|i: int, j: int|
        0 <= i < j < s.len() && stage_of(#[trigger] s[i].selector) == SelectorStage::Glob
            && stage_of(#[trigger] s[j].selector) == SelectorStage::Glob ==> !globs_overlap_spec(
            pattern_of(s[i].selector),
            pattern_of(s[j].selector),
        )
}

/// No two `<redefine>` globs could match one path.
pub open spec fn redefines_disjoint(r: Seq<RedefineEntry>) -> bool {
    forall|i: int, j: int|
        0 <= i < j < r.len() ==> !globs_overlap_spec(
            pattern_of(#[trigger] r[i].selector),
            pattern_of(#[trigger] r[j].selector),
        )
}

/// No two sign-flip entries name the same path.
pub open spec fn flip_paths_distinct(f: Seq<FlipEntry>) -> bool {
    forall|i: int, j: int| 0 <= i < j < f.len() ==> (#[trigger] f[i]).path@ != (#[trigger] f[j]).path@
}

/// No two `<from>` entries share a precedence.
pub open spec fn from_precedences_distinct(f: Seq<FromEntry>) -> bool {
    forall|i: int, j: int|
        0 <= i < j < f.len() ==> (#[trigger] f[i]).precedence != (#[trigger] f[j]).precedence
}

/// Each rule's `<from>` precedences are distinct, and no two rules share an id.
pub open spec fn rules_distinct(rules: Seq<Rule>) -> bool {
    &&& forall|k: int| 0 <= k < rules.len() ==> from_precedences_distinct(#[trigger] rules[k].froms@)
    &&& forall|i: int, j: int| 0 <= i < j < rules.len() ==> (#[trigger] rules[i]).id@ != (#[trigger] rules[j]).id@
}

/// A glob rule's counterpart patterns carry as many `*` wildcards as its
/// source pattern: both sides of a one-to-one rule, and the single side and
/// every `<from>` of a merged or split rule.
pub open spec fn rule_wildcards_agree(rule: Rule) -> bool {
    match rule.rel {
        Rel::Renamed | Rel::Moved | Rel::Retyped => rule.left matches Some(l) ==> (rule.right matches Some(
            q,
        ) ==> (stage_of(l) == SelectorStage::Glob ==> wildcards(pattern_of(l)) == wildcards(
            pattern_of(q),
        ))),
        Rel::Merged => rule.right matches Some(q) ==> (stage_of(q) == SelectorStage::Glob ==> forall|i: int|
            0 <= i < rule.froms@.len() ==> wildcards(pattern_of((#[trigger] rule.froms@[i]).selector))
                == wildcards(pattern_of(q))),
        Rel::Split => rule.left matches Some(l) ==> (stage_of(l) == SelectorStage::Glob ==> forall|i: int|
            0 <= i < rule.froms@.len() ==> wildcards(pattern_of((#[trigger] rule.froms@[i]).selector))
                == wildcards(pattern_of(l))),
        _ => true,
    }
}

/// Source entry `e` carries a precedence exactly when its rule's `rel` is
/// `rel`, and then it is one of that rule's `<from>` entries, with its
/// selector and its precedence.
pub open spec fn source_from_froms(e: SourceEntry, rules: Seq<Rule>, rel: Rel) -> bool {
    let r = rules[e.rule_index as int];
    &&& (e.precedence is Some <==> r.rel == rel)
    &&& (e.precedence matches Some(q) ==> exists|k: int|
        0 <= k < r.froms@.len() && (#[trigger] r.froms@[k]).selector == e.selector
            && r.froms@[k].precedence == q)
}

/// Every entry of `s` satisfies [`source_from_froms`].
pub open spec fn sources_from_froms(s: Seq<SourceEntry>, rules: Seq<Rule>, rel: Rel) -> bool {
    forall|i: int| 0 <= i < s.len() ==> source_from_froms(#[trigger] s[i], rules, rel)
}

/// No entry of `s` belongs to a rule whose `rel` is `excluded`.
pub open spec fn sources_avoid(s: Seq<SourceEntry>, rules: Seq<Rule>, excluded: Rel) -> bool {
    forall|i: int| 0 <= i < s.len() ==> rules[(#[trigger] s[i]).rule_index as int].rel != excluded
}

impl ConversionMap {
    /// The internal consistency every loaded map has: each rule has the
    /// shape its `rel` requires, every source entry names a rule, no two
    /// selectors of one side could claim the same path, the left sources
    /// carrying a precedence are exactly a merged rule's `<from>` entries
    /// (the right ones a split rule's), a `left_only` rule
    /// feeds only the left side and a `right_only` rule only the right, no
    /// two `<redefine>` globs overlap (each `<redefine>` is keyed on a glob),
    /// glob counterparts carry equal `*` counts, no flip path is named
    /// twice, no two
    /// rules share an id, and no rule repeats a `<from>` precedence.
    pub open spec fn wf(self) -> bool {
        &&& unambiguous(self.left_sources@)
        &&& unambiguous(self.right_sources@)
        &&& redefines_disjoint(self.redefines@)
        &&& forall|i: int| 0 <= i < self.redefines@.len() ==> (#[trigger] self.redefines@[i]).selector is Glob
        &&& flip_paths_distinct(self.sign_flips@)
        &&& sources_avoid(self.left_sources@, self.rules@, Rel::RightOnly)
        &&& sources_avoid(self.right_sources@, self.rules@, Rel::LeftOnly)
        &&& sources_from_froms(self.left_sources@, self.rules@, Rel::Merged)
        &&& sources_from_froms(self.right_sources@, self.rules@, Rel::Split)
        &&& rules_distinct(self.rules@)
        &&& forall|k: int| 0 <= k < self.rules@.len() ==> rule_wildcards_agree(#[trigger] self.rules@[k])
        &&& forall|i: int| 0 <= i < self.rules@.len() ==> rule_shape_ok(#[trigger] self.rules@[i])
        &&& forall|i: int|
            0 <= i < self.left_sources@.len() ==> #[trigger] self.left_sources@[i].rule_index
                < self.rules@.len()
        &&& forall|i: int|
            0 <= i < self.right_sources@.len() ==> #[trigger] self.right_sources@[i].rule_index
                < self.rules@.len()
    }
}

// ---------------------------------------------------------------------------
// Resolution
// ---------------------------------------------------------------------------

/// The winning selector match: its stage, what the match captured, the
/// owning rule, and the winning `<from>` entry's precedence.
struct BestMatch {
    stage: SelectorStage,
    found: SelectorMatch,
    rule_index: usize,
    precedence: Option<u32>,
    /// The winning source entry's position.
    entry: Ghost<int>,
}

proof fn lemma_stage_winner_unique(
    sources: Seq<SourceEntry>,
    stage: SelectorStage,
    path: Seq<char>,
    i: int,
)
    requires
        is_stage_winner(sources, stage, path, i),
    ensures
        stage_winner(sources, stage, path) == Some(i),
{
    let j = choose|j: int| is_stage_winner(sources, stage, path, j);
    assert(entry_matches(sources[i], stage, path));
    assert(entry_matches(sources[j], stage, path));
    if j < i {
        assert(entry_specificity(sources[i], path) < entry_specificity(sources[j], path));
        assert(entry_specificity(sources[i], path) <= entry_specificity(sources[i], path));
        assert(entry_specificity(sources[j], path) <= entry_specificity(sources[i], path));
    }
    if j > i {
        assert(entry_specificity(sources[j], path) < entry_specificity(sources[i], path));
        assert(entry_specificity(sources[i], path) <= entry_specificity(sources[j], path));
    }
}

/// The winning entry of `stage` for `path` and its match.
fn best_in_stage(sources: &Vec<SourceEntry>, stage: SelectorStage, path: &str) -> (r: Option<
    (usize, SelectorMatch),
>)
    ensures
        r is Some <==> stage_winner(sources@, stage, path@) is Some,
        r matches Some((i, m)) ==> stage_winner(sources@, stage, path@) == Some(i as int)
            && try_match_spec(sources@[i as int].selector, path@) == Some(m.view_of()),
{
    let mut best: Option<(usize, SelectorMatch)> = None;
    let mut i: usize = 0;
    while i < sources.len()
        invariant
            i <= sources@.len(),
            best is None ==> forall|j: int|
                0 <= j < i ==> !#[trigger] entry_matches(sources@[j], stage, path@),
            best matches Some((b, m)) ==> {
                &&& b < i
                &&& entry_matches(sources@[b as int], stage, path@)
                &&& try_match_spec(sources@[b as int].selector, path@) == Some(m.view_of())
                &&& forall|j: int|
                    0 <= j < i && #[trigger] entry_matches(sources@[j], stage, path@) ==> {
                        &&& entry_specificity(sources@[j], path@) <= entry_specificity(
                            sources@[b as int],
                            path@,
                        )
                        &&& (j > b ==> entry_specificity(sources@[j], path@) < entry_specificity(
                            sources@[b as int],
                            path@,
                        ))
                    }
            },
        decreases sources@.len() - i,
    {
        if sources[i].selector.stage() == stage {
            match sources[i].selector.try_match(path) {
                Some(m) => {
                    let better = match &best {
                        None => true,
                        Some((_, bm)) => m.specificity >= bm.specificity,
                    };
                    if better {
                        best = Some((i, m));
                    }
                },
                None => {},
            }
        }
        i = i + 1;
    }
    match best {
        Some((b, m)) => {
            proof {
                assert(is_stage_winner(sources@, stage, path@, b as int));
                lemma_stage_winner_unique(sources@, stage, path@, b as int);
            }
            Some((b, m))
        },
        None => {
            assert(!exists|j: int| is_stage_winner(sources@, stage, path@, j)) by {
                if exists|j: int| is_stage_winner(sources@, stage, path@, j) {
                    let j = choose|j: int| is_stage_winner(sources@, stage, path@, j);
                    assert(entry_matches(sources@[j], stage, path@));
                }
            }
            None
        },
    }
}

/// The position `x` is inserted at: before the first entry of higher
/// precedence.
proof fn lemma_insert_by_precedence(x: FromEntry, s: Seq<FromEntry>, pos: int)
    requires
        0 <= pos <= s.len(),
        forall|k: int| 0 <= k < pos ==> (#[trigger] s[k]).precedence <= x.precedence,
        pos < s.len() ==> s[pos].precedence > x.precedence,
    ensures
        insert_by_precedence(x, s) == s.subrange(0, pos) + seq![x] + s.subrange(pos, s.len() as int),
    decreases s.len(),
{
    if s.len() == 0 {
        assert(seq![x] =~= s.subrange(0, pos) + seq![x] + s.subrange(pos, s.len() as int));
    } else if pos == 0 {
        assert(seq![x] + s =~= s.subrange(0, pos) + seq![x] + s.subrange(pos, s.len() as int));
    } else {
        let t = s.drop_first();
        assert forall|k: int| 0 <= k < pos - 1 implies (#[trigger] t[k]).precedence
            <= x.precedence by {
            assert(t[k] == s[k + 1]);
        }
        lemma_insert_by_precedence(x, t, pos - 1);
        assert(s[0].precedence <= x.precedence);
        assert(seq![s[0]] + (t.subrange(0, pos - 1) + seq![x] + t.subrange(pos - 1, t.len() as int))
            =~= s.subrange(0, pos) + seq![x] + s.subrange(pos, s.len() as int));
    }
}

proof fn lemma_by_precedence_len(froms: Seq<FromEntry>)
    ensures
        by_precedence(froms).len() == froms.len(),
    decreases froms.len(),
{
    if froms.len() > 0 {
        lemma_by_precedence_len(froms.drop_last());
        lemma_insert_len(froms.last(), by_precedence(froms.drop_last()));
    }
}

proof fn lemma_insert_len(x: FromEntry, s: Seq<FromEntry>)
    ensures
        insert_by_precedence(x, s).len() == s.len() + 1,
    decreases s.len(),
{
    if s.len() > 0 && s[0].precedence <= x.precedence {
        lemma_insert_len(x, s.drop_first());
    }
}

/// The order `froms` is tried in: indices into `froms`, stably sorted by
/// ascending precedence.
fn precedence_order(froms: &Vec<FromEntry>) -> (order: Vec<usize>)
    ensures
        forall|k: int| 0 <= k < order@.len() ==> #[trigger] order@[k] < froms@.len(),
        order@.map_values(|k: usize| froms@[k as int]) == by_precedence(froms@),
{
    let mut order: Vec<usize> = Vec::new();
    let mut i: usize = 0;
    while i < froms.len()
        invariant
            i <= froms@.len(),
            forall|k: int| 0 <= k < order@.len() ==> #[trigger] order@[k] < i,
            order@.map_values(|k: usize| froms@[k as int]) == by_precedence(
                froms@.subrange(0, i as int),
            ),
        decreases froms@.len() - i,
    {
        let ghost sorted = order@.map_values(|k: usize| froms@[k as int]);
        let x = froms[i].precedence;
        let mut pos: usize = 0;
        while pos < order.len() && froms[order[pos]].precedence <= x
            invariant
                pos <= order@.len(),
                forall|k: int| 0 <= k < order@.len() ==> #[trigger] order@[k] < i,
                i < froms@.len(),
                x == froms@[i as int].precedence,
                sorted == order@.map_values(|k: usize| froms@[k as int]),
                forall|k: int| 0 <= k < pos ==> (#[trigger] sorted[k]).precedence <= x,
            decreases order@.len() - pos,
        {
            pos = pos + 1;
        }
        proof {
            lemma_insert_by_precedence(froms@[i as int], sorted, pos as int);
            let next = froms@.subrange(0, i + 1);
            assert(next.drop_last() =~= froms@.subrange(0, i as int));
            assert(next.last() == froms@[i as int]);
        }
        order.insert(pos, i);
        i = i + 1;
        assert(order@.map_values(|k: usize| froms@[k as int]) =~= by_precedence(
            froms@.subrange(0, i as int),
        ));
    }
    assert(froms@.subrange(0, froms@.len() as int) =~= froms@);
    order
}

impl ConversionMap {
    /// The winning selector match for `path` on `direction`'s source side:
    /// `Exact` sources first, then `Subtree`, then `Glob`; within a stage
    /// the most specific match; among equally specific matches, the one
    /// listed last.
    fn best_match(&self, path: &str, direction: Direction) -> (r: Option<BestMatch>)
        ensures
            r is Some <==> best_match_spec(sources_for(*self, direction), path@) is Some,
            r matches Some(b) ==> {
                let sources = sources_for(*self, direction);
                &&& best_match_spec(sources, path@) == Some((b.stage, b.rule_index_entry()))
                &&& b.rule_index == sources[b.rule_index_entry()].rule_index
                &&& b.precedence == sources[b.rule_index_entry()].precedence
                &&& try_match_spec(sources[b.rule_index_entry()].selector, path@) == Some(
                    b.found.view_of(),
                )
            },
    {
        let sources = match direction {
            Direction::Forward => &self.left_sources,
            Direction::Reverse => &self.right_sources,
        };
        match best_in_stage(sources, SelectorStage::Exact, path) {
            Some((i, m)) => {
                return Some(
                    BestMatch {
                        stage: SelectorStage::Exact,
                        found: m,
                        rule_index: sources[i].rule_index,
                        precedence: sources[i].precedence,
                        entry: Ghost(i as int),
                    },
                );
            },
            None => {},
        }
        match best_in_stage(sources, SelectorStage::Subtree, path) {
            Some((i, m)) => {
                return Some(
                    BestMatch {
                        stage: SelectorStage::Subtree,
                        found: m,
                        rule_index: sources[i].rule_index,
                        precedence: sources[i].precedence,
                        entry: Ghost(i as int),
                    },
                );
            },
            None => {},
        }
        match best_in_stage(sources, SelectorStage::Glob, path) {
            Some((i, m)) => Some(
                BestMatch {
                    stage: SelectorStage::Glob,
                    found: m,
                    rule_index: sources[i].rule_index,
                    precedence: sources[i].precedence,
                    entry: Ghost(i as int),
                },
            ),
            None => None,
        }
    }

    /// The fidelity of the first `<redefine>` matching `right_side_path`.
    fn redefine_for(&self, right_side_path: &str, direction: Direction) -> (r: Option<Fidelity>)
        ensures
            r == redefine_in(self.redefines@, right_side_path@, direction),
    {
        let mut i: usize = 0;
        assert(self.redefines@.subrange(0, self.redefines@.len() as int) =~= self.redefines@);
        while i < self.redefines.len()
            invariant
                i <= self.redefines@.len(),
                redefine_in(self.redefines@, right_side_path@, direction) == redefine_in(
                    self.redefines@.subrange(i as int, self.redefines@.len() as int),
                    right_side_path@,
                    direction,
                ),
            decreases self.redefines@.len() - i,
        {
            let ghost rest = self.redefines@.subrange(i as int, self.redefines@.len() as int);
            assert(rest.drop_first() =~= self.redefines@.subrange(
                i + 1,
                self.redefines@.len() as int,
            ));
            assert(rest[0] == self.redefines@[i as int]);
            let entry = &self.redefines[i];
            if entry.selector.try_match(right_side_path).is_some() {
                return Some(
                    match direction {
                        Direction::Forward => entry.fidelity_forward,
                        Direction::Reverse => entry.fidelity_reverse,
                    },
                );
            }
            i = i + 1;
        }
        None
    }

    /// The value transformation `right_side_path` needs in `direction`.
    fn value_transformation_for(&self, right_side_path: &str, direction: Direction) -> (r:
        ValueTransformation)
        ensures
            r@ == transform_for(*self, right_side_path@, direction),
    {
        let mut i: usize = 0;
        assert(self.sign_flips@.subrange(0, self.sign_flips@.len() as int) =~= self.sign_flips@);
        while i < self.sign_flips.len()
            invariant
                i <= self.sign_flips@.len(),
                flip_in(self.sign_flips@, right_side_path@) == flip_in(
                    self.sign_flips@.subrange(i as int, self.sign_flips@.len() as int),
                    right_side_path@,
                ),
            decreases self.sign_flips@.len() - i,
        {
            let ghost rest = self.sign_flips@.subrange(i as int, self.sign_flips@.len() as int);
            assert(rest.drop_first() =~= self.sign_flips@.subrange(
                i + 1,
                self.sign_flips@.len() as int,
            ));
            assert(rest[0] == self.sign_flips@[i as int]);
            let entry = &self.sign_flips[i];
            if str_eq(entry.path.as_str(), right_side_path) {
                let (from_cocos, to_cocos) = match direction {
                    Direction::Forward => (&entry.from_cocos, &entry.to_cocos),
                    Direction::Reverse => (&entry.to_cocos, &entry.from_cocos),
                };
                if str_eq(from_cocos.as_str(), to_cocos.as_str()) {
                    return ValueTransformation::Unchanged;
                } else {
                    return ValueTransformation::SignFlip {
                        from_cocos: from_cocos.duplicate(),
                        to_cocos: to_cocos.duplicate(),
                    };
                }
            }
            i = i + 1;
        }
        ValueTransformation::Unchanged
    }
}

impl BestMatch {
    spec fn rule_index_entry(self) -> int {
        self.entry@
    }
}

pub open spec fn opt_str_view(s: Option<&str>) -> Option<Seq<char>> {
    match s {
        Some(x) => Some(x@),
        None => None,
    }
}

/// An explicit match's explanation around `outcome`.
fn explicit_match(
    rule: &Rule,
    stage: SelectorStage,
    precedence: Option<u32>,
    fidelity: Fidelity,
    outcome: Outcome,
) -> (r: RuleExplanation)
    ensures
        r@ == explicit_view(*rule, stage, precedence, fidelity, outcome@),
{
    RuleExplanation {
        rule_id: Some(rule.id.clone()),
        rel: Some(rule.rel),
        match_kind: MatchKind::Explicit,
        selector_stage: Some(stage),
        precedence,
        fidelity,
        outcome,
    }
}

fn fidelity_for(rule: &Rule, direction: Direction) -> (r: Fidelity)
    ensures
        r == fidelity_in(*rule, direction),
{
    match direction {
        Direction::Forward => rule.fidelity_forward,
        Direction::Reverse => rule.fidelity_reverse,
    }
}

impl ConversionMap {
    /// The refusal a matched rule owes before any path is resolved, or
    /// `None` when resolution may proceed. A retype refuses on shape first.
    pub fn refusal_before_resolution(rel: Rel, fidelity: Fidelity) -> (r: Option<RefusalReason>)
        ensures
            r == refusal_before_resolution_spec(rel, fidelity),
    {
        match (rel, fidelity) {
            (Rel::Retyped, _) => Some(RefusalReason::UnservableRetype),
            (_, Fidelity::Unmappable) => Some(RefusalReason::Unmappable),
            _ => None,
        }
    }

    /// Renders every `<from>` entry against `found`, in ascending declared
    /// precedence, each with the value transformation of its right-side
    /// spelling: `shared_right_side` when given, else the candidate itself.
    fn candidate_paths(
        &self,
        froms: &Vec<FromEntry>,
        found: &SelectorMatch,
        direction: Direction,
        shared_right_side: Option<&str>,
    ) -> (r: Vec<CandidatePath>)
        ensures
            candidate_views(r@) == candidates_spec(
                *self,
                froms@,
                found.view_of(),
                direction,
                opt_str_view(shared_right_side),
            ),
    {
        let order = precedence_order(froms);
        let ghost spec_all = candidates_spec(
            *self,
            froms@,
            found.view_of(),
            direction,
            opt_str_view(shared_right_side),
        );
        proof {
            lemma_by_precedence_len(froms@);
        }
        let mut r: Vec<CandidatePath> = Vec::new();
        let mut k: usize = 0;
        while k < order.len()
            invariant
                k <= order@.len(),
                order@.len() == froms@.len(),
                forall|j: int| 0 <= j < order@.len() ==> #[trigger] order@[j] < froms@.len(),
                order@.map_values(|j: usize| froms@[j as int]) == by_precedence(froms@),
                spec_all == candidates_spec(
                    *self,
                    froms@,
                    found.view_of(),
                    direction,
                    opt_str_view(shared_right_side),
                ),
                spec_all.len() == froms@.len(),
                candidate_views(r@) == spec_all.subrange(0, k as int),
            decreases order@.len() - k,
        {
            let f = &froms[order[k]];
            assert(by_precedence(froms@)[k as int] == froms@[order@[k as int] as int]);
            let path = f.selector.render(found.suffix.as_str(), &found.captures);
            let vt = match shared_right_side {
                Some(q) => self.value_transformation_for(q, direction),
                None => self.value_transformation_for(path.as_str(), direction),
            };
            let c = CandidatePath { path, precedence: f.precedence, value_transformation: vt };
            let ghost before = candidate_views(r@);
            r.push(c);
            assert(candidate_views(r@) =~= before.push(spec_all[k as int]));
            k = k + 1;
            assert(candidate_views(r@) =~= spec_all.subrange(0, k as int));
        }
        assert(spec_all.subrange(0, spec_all.len() as int) =~= spec_all);
        r
    }

    /// An explicit path result: refused as a unit redefinition when any
    /// right-side path is redefined, else the resolved path with the value
    /// transformation of the first right-side path.
    fn explicit_path(
        &self,
        rule: &Rule,
        stage: SelectorStage,
        precedence: Option<u32>,
        fidelity: Fidelity,
        direction: Direction,
        resolved: String,
        right_side_paths: Vec<String>,
        candidates: Vec<CandidatePath>,
    ) -> (r: RuleExplanation)
        requires
            right_side_paths@.len() > 0,
        ensures
            r@ == explicit_path_view(
                *self,
                *rule,
                stage,
                precedence,
                fidelity,
                direction,
                resolved@,
                string_views(right_side_paths@),
                candidate_views(candidates@),
            ),
    {
        let ghost all = string_views(right_side_paths@);
        let mut i: usize = 0;
        assert(all.subrange(0, all.len() as int) =~= all);
        while i < right_side_paths.len()
            invariant
                i <= right_side_paths@.len(),
                all == string_views(right_side_paths@),
                first_redefined(*self, all, direction) == first_redefined(
                    *self,
                    all.subrange(i as int, all.len() as int),
                    direction,
                ),
            decreases right_side_paths@.len() - i,
        {
            let ghost rest = all.subrange(i as int, all.len() as int);
            assert(rest.drop_first() =~= all.subrange(i + 1, all.len() as int));
            assert(rest[0] == right_side_paths@[i as int]@);
            match self.redefine_for(right_side_paths[i].as_str(), direction) {
                Some(f) => {
                    return explicit_match(
                        rule,
                        stage,
                        precedence,
                        f,
                        Outcome::Refusal(RefusalReason::UnitRedefinition),
                    );
                },
                None => {},
            }
            i = i + 1;
        }
        assert(all.subrange(all.len() as int, all.len() as int) =~= Seq::<Seq<char>>::empty());
        let vt = self.value_transformation_for(right_side_paths[0].as_str(), direction);
        explicit_match(
            rule,
            stage,
            precedence,
            fidelity,
            Outcome::Path { resolved_path: resolved, value_transformation: vt, candidates },
        )
    }

    /// The identity default's resolution of `path`.
    fn default_path(&self, path: &str, direction: Direction) -> (r: RuleExplanation)
        ensures
            r@ == default_resolution(*self, path@, direction),
    {
        let (fidelity, outcome) = match self.redefine_for(path, direction) {
            Some(f) => (f, Outcome::Refusal(RefusalReason::UnitRedefinition)),
            None => {
                let c: Vec<CandidatePath> = Vec::new();
                assert(candidate_views(c@) =~= Seq::<CandidateView>::empty());
                (
                    Fidelity::Exact,
                    Outcome::Path {
                        resolved_path: owned(path),
                        value_transformation: self.value_transformation_for(path, direction),
                        candidates: c,
                    },
                )
            },
        };
        RuleExplanation {
            rule_id: None,
            rel: None,
            match_kind: MatchKind::Default,
            selector_stage: None,
            precedence: None,
            fidelity,
            outcome,
        }
    }

    /// Resolves `path`, spelled on `direction`'s source side, to the other
    /// side's spelling. Returns `None` when no rule matches and the artifact
    /// declares no identity default.
    pub fn resolve(&self, path: &str, direction: Direction) -> (r: Option<RuleExplanation>)
        requires
            self.wf(),
        ensures
            opt_explanation_view(r) == resolve_spec(*self, path@, direction),
    {
        let found = match self.best_match(path, direction) {
            Some(b) => b,
            None => {
                if self.default_identical {
                    return Some(self.default_path(path, direction));
                }
                return None;
            },
        };
        assert(found.rule_index < self.rules@.len());
        let rule = &self.rules[found.rule_index];
        assert(rule_shape_ok(*rule));
        let fidelity = fidelity_for(rule, direction);
        let stage = found.stage;
        let precedence = found.precedence;
        if let Some(reason) = Self::refusal_before_resolution(rule.rel, fidelity) {
            return Some(explicit_match(rule, stage, precedence, fidelity, Outcome::Refusal(reason)));
        }
        let suffix = found.found.suffix.as_str();
        let captures = &found.found.captures;
        match rule.rel {
            Rel::LeftOnly | Rel::RightOnly | Rel::Retyped => Some(
                explicit_match(rule, stage, precedence, fidelity, Outcome::NoSource),
            ),
            Rel::Renamed | Rel::Moved => {
                let target = match direction {
                    Direction::Forward => rule.right.as_ref().unwrap(),
                    Direction::Reverse => rule.left.as_ref().unwrap(),
                };
                let resolved = target.render(suffix, captures);
                let right_side = match direction {
                    Direction::Forward => resolved.clone(),
                    Direction::Reverse => owned(path),
                };
                let mut paths: Vec<String> = Vec::new();
                paths.push(right_side);
                assert(string_views(paths@) =~= seq![paths@[0]@]);
                let c: Vec<CandidatePath> = Vec::new();
                assert(candidate_views(c@) =~= Seq::<CandidateView>::empty());
                Some(
                    self.explicit_path(
                        rule,
                        stage,
                        precedence,
                        fidelity,
                        direction,
                        resolved,
                        paths,
                        c,
                    ),
                )
            },
            Rel::Merged => match direction {
                Direction::Forward => {
                    let resolved = rule.right.as_ref().unwrap().render(suffix, captures);
                    let mut paths: Vec<String> = Vec::new();
                    paths.push(resolved.clone());
                    assert(string_views(paths@) =~= seq![resolved@]);
                    let c: Vec<CandidatePath> = Vec::new();
                    assert(candidate_views(c@) =~= Seq::<CandidateView>::empty());
                    Some(
                        self.explicit_path(
                            rule,
                            stage,
                            precedence,
                            fidelity,
                            direction,
                            resolved,
                            paths,
                            c,
                        ),
                    )
                },
                Direction::Reverse => {
                    let c = self.candidate_paths(&rule.froms, &found.found, direction, Some(path));
                    proof {
                        lemma_by_precedence_len(rule.froms@);
                    }
                    assert(c@.len() == candidate_views(c@).len());
                    let resolved = c[0].path.clone();
                    assert(candidate_views(c@)[0] == c@[0]@);
                    let mut paths: Vec<String> = Vec::new();
                    paths.push(owned(path));
                    assert(string_views(paths@) =~= seq![path@]);
                    Some(
                        self.explicit_path(
                            rule,
                            stage,
                            precedence,
                            fidelity,
                            direction,
                            resolved,
                            paths,
                            c,
                        ),
                    )
                },
            },
            Rel::Split => match direction {
                Direction::Forward => {
                    let c = self.candidate_paths(&rule.froms, &found.found, direction, None);
                    proof {
                        lemma_by_precedence_len(rule.froms@);
                    }
                    let ghost cv = candidate_views(c@);
                    let resolved = c[0].path.clone();
                    assert(cv[0] == c@[0]@);
                    let mut paths: Vec<String> = Vec::new();
                    let mut k: usize = 0;
                    while k < c.len()
                        invariant
                            k <= c@.len(),
                            cv == candidate_views(c@),
                            string_views(paths@) == cv.map_values(|x: CandidateView| x.path).subrange(
                                0,
                                k as int,
                            ),
                        decreases c@.len() - k,
                    {
                        let ghost before = string_views(paths@);
                        paths.push(c[k].path.clone());
                        assert(string_views(paths@) =~= before.push(cv[k as int].path));
                        k = k + 1;
                        assert(string_views(paths@) =~= cv.map_values(
                            |x: CandidateView| x.path,
                        ).subrange(0, k as int));
                    }
                    assert(cv.map_values(|x: CandidateView| x.path).subrange(0, cv.len() as int)
                        =~= cv.map_values(|x: CandidateView| x.path));
                    Some(
                        self.explicit_path(
                            rule,
                            stage,
                            precedence,
                            fidelity,
                            direction,
                            resolved,
                            paths,
                            c,
                        ),
                    )
                },
                Direction::Reverse => {
                    let resolved = rule.left.as_ref().unwrap().render(suffix, captures);
                    let mut paths: Vec<String> = Vec::new();
                    paths.push(owned(path));
                    assert(string_views(paths@) =~= seq![path@]);
                    let c: Vec<CandidatePath> = Vec::new();
                    assert(candidate_views(c@) =~= Seq::<CandidateView>::empty());
                    Some(
                        self.explicit_path(
                            rule,
                            stage,
                            precedence,
                            fidelity,
                            direction,
                            resolved,
                            paths,
                            c,
                        ),
                    )
                },
            },
        }
    }
}

} // verus!
