//! Loading a conversion-map artifact from its XML document.
//!
//! The artifact's root `<ids-map ids="...">` element carries two `<side>`s,
//! an optional `<default rel="identical"/>`, `<rules>` of `<rule>` elements
//! and `<transforms>` holding COCOS `<flip>`s and unit `<redefine>`s.
//! `<include>` and `<coverage>` are recognised and skipped. Loading rejects
//! an artifact whose rule data is structurally unusable, including two
//! selectors that could claim the same path on one source role.
use vstd::prelude::*;

use crate::conversion_map::{
    ArtifactDdVersion, CocosConvention, ConversionMap, Fidelity, FlipEntry, FromEntry, LoadError,
    RedefineEntry, Rel, Rule, Side, SourceEntry, flip_paths_distinct, from_precedences_distinct,
    rules_distinct, sources_avoid, source_from_froms, sources_from_froms,
};
use crate::dd_version::{digits_value, is_digit};
use crate::selector::{
    globs_overlap, globs_overlap_spec, pattern_of, stage_of, wildcard_count, wildcards, Selector,
    SelectorStage,
};
use crate::text::{chars_from, chars_of, owned, split_chars, split_on, str_eq, views};
use crate::xml::{
    attr, attribute, children_of, element_children, node_views, parse_document, root_element,
    xml_document, XmlNode, XmlNodeView,
};

verus! {

// ---------------------------------------------------------------------------
// Views of what a load produces
// ---------------------------------------------------------------------------

/// A selector's stage and pattern.
pub open spec fn sel_view(s: Selector) -> (SelectorStage, Seq<char>) {
    (stage_of(s), pattern_of(s))
}

pub open spec fn opt_sel_view(s: Option<Selector>) -> Option<(SelectorStage, Seq<char>)> {
    match s {
        Some(x) => Some(sel_view(x)),
        None => None,
    }
}

/// The value of a [`Rule`].
pub struct RuleView {
    pub id: Seq<char>,
    pub rel: Rel,
    pub left: Option<(SelectorStage, Seq<char>)>,
    pub right: Option<(SelectorStage, Seq<char>)>,
    pub froms: Seq<((SelectorStage, Seq<char>), u32)>,
    pub fidelity_forward: Fidelity,
    pub fidelity_reverse: Fidelity,
}

pub open spec fn from_view(f: FromEntry) -> ((SelectorStage, Seq<char>), u32) {
    (sel_view(f.selector), f.precedence)
}

pub open spec fn rule_view(r: Rule) -> RuleView {
    RuleView {
        id: r.id@,
        rel: r.rel,
        left: opt_sel_view(r.left),
        right: opt_sel_view(r.right),
        froms: r.froms@.map_values(|f: FromEntry| from_view(f)),
        fidelity_forward: r.fidelity_forward,
        fidelity_reverse: r.fidelity_reverse,
    }
}

/// A source entry's selector, rule index and precedence.
pub open spec fn source_view(e: SourceEntry) -> ((SelectorStage, Seq<char>), usize, Option<u32>) {
    (sel_view(e.selector), e.rule_index, e.precedence)
}

/// The value of a loaded [`ConversionMap`].
pub struct MapView {
    pub ids: Seq<char>,
    pub left: (Seq<char>, Seq<char>),
    pub right: (Seq<char>, Seq<char>),
    pub default_identical: bool,
    pub rules: Seq<RuleView>,
    pub flips: Seq<(Seq<char>, Seq<char>, Seq<char>)>,
    pub redefines: Seq<((SelectorStage, Seq<char>), Fidelity, Fidelity)>,
    pub left_sources: Seq<((SelectorStage, Seq<char>), usize, Option<u32>)>,
    pub right_sources: Seq<((SelectorStage, Seq<char>), usize, Option<u32>)>,
}

pub open spec fn map_view(m: ConversionMap) -> MapView {
    MapView {
        ids: m.ids@,
        left: (m.left.dd.0@, m.left.cocos.0@),
        right: (m.right.dd.0@, m.right.cocos.0@),
        default_identical: m.default_identical,
        rules: m.rules@.map_values(|r: Rule| rule_view(r)),
        flips: m.sign_flips@.map_values(
            |f: FlipEntry| (f.path@, f.from_cocos.0@, f.to_cocos.0@),
        ),
        redefines: m.redefines@.map_values(
            |r: RedefineEntry| (sel_view(r.selector), r.fidelity_forward, r.fidelity_reverse),
        ),
        left_sources: m.left_sources@.map_values(|e: SourceEntry| source_view(e)),
        right_sources: m.right_sources@.map_values(|e: SourceEntry| source_view(e)),
    }
}

/// The value of a [`LoadError`].
pub enum LoadErrorView {
    Xml(Seq<char>),
    MissingAttribute(Seq<char>, Seq<char>),
    UnknownValue(Seq<char>, Seq<char>, Seq<char>),
    DuplicateRuleId(Seq<char>),
    DuplicateSourceSelector(Seq<char>, SelectorStage, Seq<char>),
    OverlappingSourceSelectors(Seq<char>, Seq<char>, Seq<char>),
    OverlappingRedefineSelectors(Seq<char>, Seq<char>),
    DuplicatePrecedence(Seq<char>, u32),
    InvalidRuleShape(Seq<char>, Seq<char>),
    DuplicateFlipPath(Seq<char>),
    InvalidArtifactDdVersion(Seq<char>),
    InvalidCocosConvention(Seq<char>),
    MissingSide(Seq<char>),
}

pub open spec fn error_view(e: LoadError) -> LoadErrorView {
    match e {
        LoadError::Xml(m) => LoadErrorView::Xml(m@),
        LoadError::MissingAttribute { element, attribute } => LoadErrorView::MissingAttribute(
            element@,
            attribute@,
        ),
        LoadError::UnknownValue { element, attribute, value } => LoadErrorView::UnknownValue(
            element@,
            attribute@,
            value@,
        ),
        LoadError::DuplicateRuleId(id) => LoadErrorView::DuplicateRuleId(id@),
        LoadError::DuplicateSourceSelector {
            role,
            stage,
            pattern,
        } => LoadErrorView::DuplicateSourceSelector(role@, stage, pattern@),
        LoadError::OverlappingSourceSelectors {
            role,
            first,
            second,
        } => LoadErrorView::OverlappingSourceSelectors(role@, first@, second@),
        LoadError::OverlappingRedefineSelectors {
            first,
            second,
        } => LoadErrorView::OverlappingRedefineSelectors(first@, second@),
        LoadError::DuplicatePrecedence { rule_id, precedence } => LoadErrorView::DuplicatePrecedence(
            rule_id@,
            precedence,
        ),
        LoadError::InvalidRuleShape { rule_id, reason } => LoadErrorView::InvalidRuleShape(
            rule_id@,
            reason@,
        ),
        LoadError::DuplicateFlipPath(p) => LoadErrorView::DuplicateFlipPath(p@),
        LoadError::InvalidArtifactDdVersion(v) => LoadErrorView::InvalidArtifactDdVersion(v@),
        LoadError::InvalidCocosConvention(v) => LoadErrorView::InvalidCocosConvention(v@),
        LoadError::MissingSide(s) => LoadErrorView::MissingSide(s@),
    }
}

// ---------------------------------------------------------------------------
// Specification of the artifact grammar
// ---------------------------------------------------------------------------

/// A required attribute, or the error naming it.
pub open spec fn required(n: XmlNodeView, element: Seq<char>, attribute: Seq<char>) -> Result<
    Seq<char>,
    LoadErrorView,
> {
    match attr(n, attribute) {
        Some(v) => Ok(v),
        None => Err(LoadErrorView::MissingAttribute(element, attribute)),
    }
}

/// A canonical decimal component: digits only, no leading zero unless it
/// is exactly `0`.
pub open spec fn canonical_component(c: Seq<char>) -> bool {
    &&& c.len() > 0
    &&& forall|i: int| 0 <= i < c.len() ==> is_digit(#[trigger] c[i])
    &&& (c == seq!['0'] || c[0] != '0')
}

/// A released version spelling `MAJOR.MINOR.PATCH` of canonical decimals.
pub open spec fn artifact_dd_ok(v: Seq<char>) -> bool {
    let parts = split_on(v, '.');
    &&& parts.len() == 3
    &&& forall|i: int| 0 <= i < 3 ==> canonical_component(#[trigger] parts[i])
}

/// A COCOS convention: one or more ASCII digits.
pub open spec fn cocos_ok(v: Seq<char>) -> bool {
    v.len() > 0 && forall|i: int| 0 <= i < v.len() ==> is_digit(#[trigger] v[i])
}

/// `u32::from_str`: an optional `+`, then one or more decimal digits whose
/// value fits in a `u32`.
pub open spec fn parse_u32_spec(s: Seq<char>) -> Option<u32> {
    let d = plus_stripped(s);
    if d.len() > 0 && all_digit_chars(d) && digits_value(d) <= u32::MAX {
        Some(digits_value(d) as u32)
    } else {
        None
    }
}

/// `s` without one leading `+`.
pub open spec fn plus_stripped(s: Seq<char>) -> Seq<char> {
    if s.len() > 0 && s[0] == '+' {
        s.drop_first()
    } else {
        s
    }
}

/// Every character of `d` is an ASCII digit.
pub open spec fn all_digit_chars(d: Seq<char>) -> bool {
    forall|i: int| 0 <= i < d.len() ==> is_digit(#[trigger] d[i])
}

/// The relation a `rel` attribute value names.
pub open spec fn rel_named(v: Seq<char>) -> Option<Rel> {
    if v == "renamed"@ {
        Some(Rel::Renamed)
    } else if v == "merged"@ {
        Some(Rel::Merged)
    } else if v == "moved"@ {
        Some(Rel::Moved)
    } else if v == "retyped"@ {
        Some(Rel::Retyped)
    } else if v == "split"@ {
        Some(Rel::Split)
    } else if v == "left_only"@ {
        Some(Rel::LeftOnly)
    } else if v == "right_only"@ {
        Some(Rel::RightOnly)
    } else {
        None
    }
}

/// The fidelity a `forward`/`reverse` attribute value names.
pub open spec fn fidelity_named(v: Seq<char>) -> Option<Fidelity> {
    if v == "exact"@ {
        Some(Fidelity::Exact)
    } else if v == "lossy"@ {
        Some(Fidelity::Lossy)
    } else if v == "unmappable"@ {
        Some(Fidelity::Unmappable)
    } else {
        None
    }
}

/// One `forward`/`reverse` attribute of a `<fidelity>` element.
pub open spec fn fidelity_value_spec(n: XmlNodeView, attribute: Seq<char>) -> Result<
    Fidelity,
    LoadErrorView,
> {
    match required(n, "fidelity"@, attribute) {
        Err(e) => Err(e),
        Ok(v) => match fidelity_named(v) {
            Some(f) => Ok(f),
            None => Err(LoadErrorView::UnknownValue("fidelity"@, attribute, v)),
        },
    }
}

/// The first of `children` whose tag name is `name`.
pub open spec fn first_named(nodes: Seq<XmlNodeView>, children: Seq<int>, name: Seq<char>) -> Option<
    int,
>
    decreases children.len(),
{
    if children.len() == 0 {
        None
    } else if nodes[children[0]].name == name {
        Some(children[0])
    } else {
        first_named(nodes, children.drop_first(), name)
    }
}

/// A `<fidelity>` element's two values, read from the first such child.
pub open spec fn fidelity_pair_spec(nodes: Seq<XmlNodeView>, k: int, missing: LoadErrorView) -> Result<
    (Fidelity, Fidelity),
    LoadErrorView,
> {
    match first_named(nodes, element_children(nodes, k), "fidelity"@) {
        None => Err(missing),
        Some(f) => match fidelity_value_spec(nodes[f], "forward"@) {
            Err(e) => Err(e),
            Ok(fw) => match fidelity_value_spec(nodes[f], "reverse"@) {
                Err(e) => Err(e),
                Ok(rv) => Ok((fw, rv)),
            },
        },
    }
}

/// The selector stage a `<rule>`'s `subtree`/`glob` attributes declare for
/// all of its selectors.
pub open spec fn stage_spec(id: Seq<char>, n: XmlNodeView) -> Result<SelectorStage, LoadErrorView> {
    match (attr(n, "subtree"@), attr(n, "glob"@)) {
        (Some(v), None) => if v != "yes"@ {
            Err(LoadErrorView::UnknownValue("rule"@, "subtree"@, v))
        } else {
            Ok(SelectorStage::Subtree)
        },
        (None, Some(v)) => if v != "yes"@ {
            Err(LoadErrorView::UnknownValue("rule"@, "glob"@, v))
        } else {
            Ok(SelectorStage::Glob)
        },
        (None, None) => Ok(SelectorStage::Exact),
        (Some(_), Some(_)) => Err(
            LoadErrorView::InvalidRuleShape(id, "must not set both `subtree` and `glob`"@),
        ),
    }
}

/// The `<from>` children among `children`, appended to `acc` in order.
pub open spec fn froms_spec(
    nodes: Seq<XmlNodeView>,
    id: Seq<char>,
    children: Seq<int>,
    side: Seq<char>,
    stage: SelectorStage,
    acc: Seq<((SelectorStage, Seq<char>), u32)>,
) -> Result<Seq<((SelectorStage, Seq<char>), u32)>, LoadErrorView>
    decreases children.len(),
{
    if children.len() == 0 {
        Ok(acc)
    } else {
        let n = nodes[children[0]];
        if n.name != "from"@ {
            froms_spec(nodes, id, children.drop_first(), side, stage, acc)
        } else {
            match required(n, "from"@, side) {
                Err(e) => Err(e),
                Ok(path) => match required(n, "from"@, "precedence"@) {
                    Err(e) => Err(e),
                    Ok(raw) => match parse_u32_spec(raw) {
                        None => Err(
                            LoadErrorView::InvalidRuleShape(
                                id,
                                "<from> precedence `"@ + raw + "` is not a non-negative integer"@,
                            ),
                        ),
                        Some(p) => if exists|i: int| 0 <= i < acc.len() && (#[trigger] acc[i]).1 == p {
                            Err(LoadErrorView::DuplicatePrecedence(id, p))
                        } else {
                            froms_spec(
                                nodes,
                                id,
                                children.drop_first(),
                                side,
                                stage,
                                acc.push(((stage, path), p)),
                            )
                        },
                    },
                },
            }
        }
    }
}

/// Whether every `<from>` pattern carries `count` wildcards.
pub open spec fn froms_wildcards(froms: Seq<((SelectorStage, Seq<char>), u32)>, count: nat) -> bool {
    forall|i: int| 0 <= i < froms.len() ==> wildcards((#[trigger] froms[i]).0.1) == count
}

/// A rule's shape check for its `rel`, and its `<from>` list.
pub open spec fn shaped_froms_spec(
    nodes: Seq<XmlNodeView>,
    k: int,
    id: Seq<char>,
    rel: Rel,
    stage: SelectorStage,
    left: Option<Seq<char>>,
    right: Option<Seq<char>>,
) -> Result<Seq<((SelectorStage, Seq<char>), u32)>, LoadErrorView> {
    let children = element_children(nodes, k);
    let shape = |reason: Seq<char>| LoadErrorView::InvalidRuleShape(id, reason);
    match rel {
        Rel::Renamed | Rel::Moved | Rel::Retyped => if left is None || right is None {
            Err(shape("requires both `left` and `right`"@))
        } else if stage == SelectorStage::Glob && wildcards(left->0) != wildcards(right->0) {
            Err(shape("glob `left` and `right` must carry the same number of `*` wildcards"@))
        } else {
            match froms_spec(nodes, id, children, "left"@, stage, Seq::empty()) {
                Err(e) => Err(e),
                Ok(f) => if f.len() > 0 {
                    Err(shape("must not carry <from> children"@))
                } else {
                    Ok(f)
                },
            }
        },
        Rel::LeftOnly => if left is None || right is Some {
            Err(shape("requires `left` only"@))
        } else {
            match froms_spec(nodes, id, children, "left"@, stage, Seq::empty()) {
                Err(e) => Err(e),
                Ok(f) => if f.len() > 0 {
                    Err(shape("must not carry <from> children"@))
                } else {
                    Ok(f)
                },
            }
        },
        Rel::RightOnly => if right is None || left is Some {
            Err(shape("requires `right` only"@))
        } else {
            match froms_spec(nodes, id, children, "right"@, stage, Seq::empty()) {
                Err(e) => Err(e),
                Ok(f) => if f.len() > 0 {
                    Err(shape("must not carry <from> children"@))
                } else {
                    Ok(f)
                },
            }
        },
        Rel::Merged => if right is None || left is Some {
            Err(shape("requires `right` only, plus left-side <from> entries"@))
        } else {
            match froms_spec(nodes, id, children, "left"@, stage, Seq::empty()) {
                Err(e) => Err(e),
                Ok(f) => if f.len() == 0 {
                    Err(shape("requires at least one <from left=\"...\"/>"@))
                } else if stage == SelectorStage::Glob && !froms_wildcards(f, wildcards(right->0)) {
                    Err(
                        shape(
                            "glob `right` and every left-side <from> must carry the same number of `*` wildcards"@,
                        ),
                    )
                } else {
                    Ok(f)
                },
            }
        },
        Rel::Split => if left is None || right is Some {
            Err(shape("requires `left` only, plus right-side <from> entries"@))
        } else {
            match froms_spec(nodes, id, children, "right"@, stage, Seq::empty()) {
                Err(e) => Err(e),
                Ok(f) => if f.len() == 0 {
                    Err(shape("requires at least one <from right=\"...\"/>"@))
                } else if stage == SelectorStage::Glob && !froms_wildcards(f, wildcards(left->0)) {
                    Err(
                        shape(
                            "glob `left` and every right-side <from> must carry the same number of `*` wildcards"@,
                        ),
                    )
                } else {
                    Ok(f)
                },
            }
        },
    }
}

pub open spec fn with_stage(stage: SelectorStage, v: Option<Seq<char>>) -> Option<
    (SelectorStage, Seq<char>),
> {
    match v {
        Some(p) => Some((stage, p)),
        None => None,
    }
}

/// One `<rule>` element.
pub open spec fn rule_spec(nodes: Seq<XmlNodeView>, k: int) -> Result<RuleView, LoadErrorView> {
    let n = nodes[k];
    match required(n, "rule"@, "id"@) {
        Err(e) => Err(e),
        Ok(id) => match required(n, "rule"@, "rel"@) {
            Err(e) => Err(e),
            Ok(rv) => match rel_named(rv) {
                None => Err(LoadErrorView::UnknownValue("rule"@, "rel"@, rv)),
                Some(rel) => match stage_spec(id, n) {
                    Err(e) => Err(e),
                    Ok(stage) => {
                        let left = attr(n, "left"@);
                        let right = attr(n, "right"@);
                        match fidelity_pair_spec(
                            nodes,
                            k,
                            LoadErrorView::InvalidRuleShape(
                                id,
                                "missing required <fidelity> child"@,
                            ),
                        ) {
                            Err(e) => Err(e),
                            Ok(fp) => match shaped_froms_spec(
                                nodes,
                                k,
                                id,
                                rel,
                                stage,
                                left,
                                right,
                            ) {
                                Err(e) => Err(e),
                                Ok(froms) => Ok(
                                    RuleView {
                                        id,
                                        rel,
                                        left: with_stage(stage, left),
                                        right: with_stage(stage, right),
                                        froms,
                                        fidelity_forward: fp.0,
                                        fidelity_reverse: fp.1,
                                    },
                                ),
                            },
                        }
                    },
                },
            },
        },
    }
}

/// What has been read from the root element's children so far.
pub struct LoadState {
    pub left: Option<(Seq<char>, Seq<char>)>,
    pub right: Option<(Seq<char>, Seq<char>)>,
    pub default_identical: bool,
    pub rules: Seq<RuleView>,
    pub flips: Seq<(Seq<char>, Seq<char>, Seq<char>)>,
    pub redefines: Seq<((SelectorStage, Seq<char>), Fidelity, Fidelity)>,
}

/// The `<rule>` children among `children`, appended to `rules` in order.
pub open spec fn rules_spec(nodes: Seq<XmlNodeView>, children: Seq<int>, rules: Seq<RuleView>) -> Result<
    Seq<RuleView>,
    LoadErrorView,
>
    decreases children.len(),
{
    if children.len() == 0 {
        Ok(rules)
    } else if nodes[children[0]].name != "rule"@ {
        rules_spec(nodes, children.drop_first(), rules)
    } else {
        match rule_spec(nodes, children[0]) {
            Err(e) => Err(e),
            Ok(r) => if exists|i: int| 0 <= i < rules.len() && (#[trigger] rules[i]).id == r.id {
                Err(LoadErrorView::DuplicateRuleId(r.id))
            } else {
                rules_spec(nodes, children.drop_first(), rules.push(r))
            },
        }
    }
}

/// The `<flip>` children among `children`, each appended to `flips` with
/// the conventions `from` and `to`.
pub open spec fn flips_spec(
    nodes: Seq<XmlNodeView>,
    children: Seq<int>,
    from: Seq<char>,
    to: Seq<char>,
    flips: Seq<(Seq<char>, Seq<char>, Seq<char>)>,
) -> Result<Seq<(Seq<char>, Seq<char>, Seq<char>)>, LoadErrorView>
    decreases children.len(),
{
    if children.len() == 0 {
        Ok(flips)
    } else if nodes[children[0]].name != "flip"@ {
        flips_spec(nodes, children.drop_first(), from, to, flips)
    } else {
        match required(nodes[children[0]], "flip"@, "path"@) {
            Err(e) => Err(e),
            Ok(path) => if exists|i: int| 0 <= i < flips.len() && (#[trigger] flips[i]).0 == path {
                Err(LoadErrorView::DuplicateFlipPath(path))
            } else {
                flips_spec(nodes, children.drop_first(), from, to, flips.push((path, from, to)))
            },
        }
    }
}

/// One `<transforms>` child: a `<cocos>` block of flips or a `<redefine>`.
pub open spec fn transform_child_spec(
    nodes: Seq<XmlNodeView>,
    c: int,
    flips: Seq<(Seq<char>, Seq<char>, Seq<char>)>,
    redefines: Seq<((SelectorStage, Seq<char>), Fidelity, Fidelity)>,
) -> Result<
    (Seq<(Seq<char>, Seq<char>, Seq<char>)>, Seq<((SelectorStage, Seq<char>), Fidelity, Fidelity)>),
    LoadErrorView,
> {
    let n = nodes[c];
    if n.name == "cocos"@ {
        match required(n, "cocos"@, "from"@) {
            Err(e) => Err(e),
            Ok(from) => if !cocos_ok(from) {
                Err(LoadErrorView::InvalidCocosConvention(from))
            } else {
                match required(n, "cocos"@, "to"@) {
                    Err(e) => Err(e),
                    Ok(to) => if !cocos_ok(to) {
                        Err(LoadErrorView::InvalidCocosConvention(to))
                    } else {
                        match flips_spec(nodes, element_children(nodes, c), from, to, flips) {
                            Err(e) => Err(e),
                            Ok(f) => Ok((f, redefines)),
                        }
                    },
                }
            },
        }
    } else if n.name == "redefine"@ {
        match required(n, "redefine"@, "glob"@) {
            Err(e) => Err(e),
            Ok(pattern) => match required(n, "redefine"@, "left-units"@) {
                Err(e) => Err(e),
                Ok(_) => match required(n, "redefine"@, "right-units"@) {
                    Err(e) => Err(e),
                    Ok(_) => match fidelity_pair_spec(
                        nodes,
                        c,
                        LoadErrorView::MissingAttribute("redefine"@, "fidelity"@),
                    ) {
                        Err(e) => Err(e),
                        Ok(fp) => Ok(
                            (flips, redefines.push(((SelectorStage::Glob, pattern), fp.0, fp.1))),
                        ),
                    },
                },
            },
        }
    } else {
        Ok((flips, redefines))
    }
}

/// The `<transforms>` children, in order.
pub open spec fn transforms_spec(
    nodes: Seq<XmlNodeView>,
    children: Seq<int>,
    flips: Seq<(Seq<char>, Seq<char>, Seq<char>)>,
    redefines: Seq<((SelectorStage, Seq<char>), Fidelity, Fidelity)>,
) -> Result<
    (Seq<(Seq<char>, Seq<char>, Seq<char>)>, Seq<((SelectorStage, Seq<char>), Fidelity, Fidelity)>),
    LoadErrorView,
>
    decreases children.len(),
{
    if children.len() == 0 {
        Ok((flips, redefines))
    } else {
        match transform_child_spec(nodes, children[0], flips, redefines) {
            Err(e) => Err(e),
            Ok((f, r)) => transforms_spec(nodes, children.drop_first(), f, r),
        }
    }
}

/// One child of the root element.
pub open spec fn root_child_spec(nodes: Seq<XmlNodeView>, c: int, st: LoadState) -> Result<
    LoadState,
    LoadErrorView,
> {
    let n = nodes[c];
    if n.name == "side"@ {
        match required(n, "side"@, "id"@) {
            Err(e) => Err(e),
            Ok(id) => match required(n, "side"@, "dd"@) {
                Err(e) => Err(e),
                Ok(dd) => if !artifact_dd_ok(dd) {
                    Err(LoadErrorView::InvalidArtifactDdVersion(dd))
                } else {
                    match required(n, "side"@, "cocos"@) {
                        Err(e) => Err(e),
                        Ok(cocos) => if !cocos_ok(cocos) {
                            Err(LoadErrorView::InvalidCocosConvention(cocos))
                        } else if id == "left"@ {
                            Ok(LoadState { left: Some((dd, cocos)), ..st })
                        } else if id == "right"@ {
                            Ok(LoadState { right: Some((dd, cocos)), ..st })
                        } else {
                            Err(LoadErrorView::UnknownValue("side"@, "id"@, id))
                        },
                    }
                },
            },
        }
    } else if n.name == "default"@ {
        match required(n, "default"@, "rel"@) {
            Err(e) => Err(e),
            Ok(rel) => if rel != "identical"@ {
                Err(LoadErrorView::UnknownValue("default"@, "rel"@, rel))
            } else {
                Ok(LoadState { default_identical: true, ..st })
            },
        }
    } else if n.name == "rules"@ {
        match rules_spec(nodes, element_children(nodes, c), st.rules) {
            Err(e) => Err(e),
            Ok(r) => Ok(LoadState { rules: r, ..st }),
        }
    } else if n.name == "transforms"@ {
        match transforms_spec(nodes, element_children(nodes, c), st.flips, st.redefines) {
            Err(e) => Err(e),
            Ok((f, r)) => Ok(LoadState { flips: f, redefines: r, ..st }),
        }
    } else {
        Ok(st)
    }
}

/// The root element's children, in order.
pub open spec fn root_children_spec(nodes: Seq<XmlNodeView>, children: Seq<int>, st: LoadState) -> Result<
    LoadState,
    LoadErrorView,
>
    decreases children.len(),
{
    if children.len() == 0 {
        Ok(st)
    } else {
        match root_child_spec(nodes, children[0], st) {
            Err(e) => Err(e),
            Ok(next) => root_children_spec(nodes, children.drop_first(), next),
        }
    }
}

pub type SourceV = ((SelectorStage, Seq<char>), usize, Option<u32>);

/// The source entries one rule contributes, for each role.
pub open spec fn rule_sources(r: RuleView, index: usize) -> (Seq<SourceV>, Seq<SourceV>) {
    let froms = r.froms.map_values(
        |f: ((SelectorStage, Seq<char>), u32)| (f.0, index, Some(f.1)),
    );
    match r.rel {
        Rel::Renamed | Rel::Moved | Rel::Retyped => (
            seq![(r.left->0, index, None)],
            seq![(r.right->0, index, None)],
        ),
        Rel::LeftOnly => (seq![(r.left->0, index, None)], Seq::empty()),
        Rel::RightOnly => (Seq::empty(), seq![(r.right->0, index, None)]),
        Rel::Merged => (froms, seq![(r.right->0, index, None)]),
        Rel::Split => (seq![(r.left->0, index, None)], froms),
    }
}

/// The source entries the first `count` rules contribute, in rule order.
pub open spec fn sources_spec(rules: Seq<RuleView>, count: nat) -> (Seq<SourceV>, Seq<SourceV>)
    decreases count,
{
    if count == 0 {
        (Seq::empty(), Seq::empty())
    } else {
        let (l, r) = sources_spec(rules, (count - 1) as nat);
        let (a, b) = rule_sources(rules[count - 1], (count - 1) as usize);
        (l + a, r + b)
    }
}

/// Position `j` repeats an earlier non-glob selector.
pub open spec fn repeats_earlier(s: Seq<SourceV>, j: int) -> bool {
    &&& s[j].0.0 != SelectorStage::Glob
    &&& exists|i: int| 0 <= i < j && #[trigger] s[i].0 == s[j].0
}

/// The first non-glob entry that repeats an earlier one, if any.
pub open spec fn first_repeat(s: Seq<SourceV>) -> Option<int> {
    if exists|j: int| 0 <= j < s.len() && repeats_earlier(s, j) {
        Some(choose|j: int| 0 <= j < s.len() && repeats_earlier(s, j) && forall|k: int| 0 <= k < j ==> !repeats_earlier(s, k))
    } else {
        None
    }
}

/// The patterns of the glob entries, in order.
pub open spec fn glob_patterns(s: Seq<SourceV>) -> Seq<Seq<char>> {
    s.filter(|e: SourceV| e.0.0 == SelectorStage::Glob).map_values(|e: SourceV| e.0.1)
}

/// `(i, j)` is an overlapping pair of `g` and no pair before it, in
/// lexicographic order, overlaps.
pub open spec fn is_first_overlap(g: Seq<Seq<char>>, i: int, j: int) -> bool {
    &&& 0 <= i < j < g.len()
    &&& globs_overlap_spec(g[i], g[j])
    &&& forall|a: int, b: int|
        0 <= a < b < g.len() && (a < i || (a == i && b < j)) ==> !#[trigger] globs_overlap_spec(
            g[a],
            g[b],
        )
}

/// The first overlapping pair `(i, j)`, `i < j`, in lexicographic order.
pub open spec fn first_overlap(g: Seq<Seq<char>>) -> Option<(int, int)> {
    if exists|i: int, j: int| is_first_overlap(g, i, j) {
        Some(choose|i: int, j: int| is_first_overlap(g, i, j))
    } else {
        None
    }
}

/// Whether one source role is free of selectors that could claim the same
/// path, or the first conflict.
pub open spec fn ambiguity_spec(role: Seq<char>, s: Seq<SourceV>) -> Result<(), LoadErrorView> {
    match first_repeat(s) {
        Some(j) => Err(LoadErrorView::DuplicateSourceSelector(role, s[j].0.0, s[j].0.1)),
        None => {
            let g = glob_patterns(s);
            match first_overlap(g) {
                Some((i, j)) => Err(LoadErrorView::OverlappingSourceSelectors(role, g[i], g[j])),
                None => Ok(()),
            }
        },
    }
}

/// What loading the document `nodes` gives.
pub open spec fn load_spec(nodes: Seq<XmlNodeView>) -> Result<MapView, LoadErrorView> {
    let missing_ids = LoadErrorView::MissingAttribute("ids-map"@, "ids"@);
    match root_element(nodes) {
        None => Err(missing_ids),
        Some(root) => match required(nodes[root], "ids-map"@, "ids"@) {
            Err(e) => Err(e),
            Ok(ids) => {
                let init = LoadState {
                    left: None,
                    right: None,
                    default_identical: false,
                    rules: Seq::empty(),
                    flips: Seq::empty(),
                    redefines: Seq::empty(),
                };
                match root_children_spec(nodes, element_children(nodes, root), init) {
                    Err(e) => Err(e),
                    Ok(st) => if st.left is None {
                        Err(LoadErrorView::MissingSide("left"@))
                    } else if st.right is None {
                        Err(LoadErrorView::MissingSide("right"@))
                    } else {
                        let (ls, rs) = sources_spec(st.rules, st.rules.len());
                        match ambiguity_spec("left"@, ls) {
                            Err(e) => Err(e),
                            Ok(_) => match ambiguity_spec("right"@, rs) {
                                Err(e) => Err(e),
                                Ok(_) => {
                                    let rg = st.redefines.map_values(
                                        |r: ((SelectorStage, Seq<char>), Fidelity, Fidelity)|
                                            r.0.1,
                                    );
                                    match first_overlap(rg) {
                                        Some((i, j)) => Err(
                                            LoadErrorView::OverlappingRedefineSelectors(
                                                rg[i],
                                                rg[j],
                                            ),
                                        ),
                                        None => Ok(
                                            MapView {
                                                ids,
                                                left: st.left->0,
                                                right: st.right->0,
                                                default_identical: st.default_identical,
                                                rules: st.rules,
                                                flips: st.flips,
                                                redefines: st.redefines,
                                                left_sources: ls,
                                                right_sources: rs,
                                            },
                                        ),
                                    }
                                },
                            },
                        }
                    },
                }
            },
        },
    }
}

// ---------------------------------------------------------------------------
// What every loaded document has
// ---------------------------------------------------------------------------

/// No two flips name the same path.
pub open spec fn flip_paths_unique(f: Seq<(Seq<char>, Seq<char>, Seq<char>)>) -> bool {
    forall|i: int, j: int| 0 <= i < j < f.len() ==> (#[trigger] f[i]).0 != (#[trigger] f[j]).0
}

/// No two `<from>` entries of one rule share a precedence.
pub open spec fn precedences_distinct(f: Seq<((SelectorStage, Seq<char>), u32)>) -> bool {
    forall|i: int, j: int| 0 <= i < j < f.len() ==> (#[trigger] f[i]).1 != (#[trigger] f[j]).1
}

/// A glob rule's counterpart patterns carry as many `*` wildcards as its
/// source pattern.
pub open spec fn wildcards_agree(r: RuleView) -> bool {
    match r.rel {
        Rel::Renamed | Rel::Moved | Rel::Retyped => r.left matches Some(l) ==> (r.right matches Some(q) ==> (
        l.0 == SelectorStage::Glob ==> wildcards(l.1) == wildcards(q.1))),
        Rel::Merged => r.right matches Some(q) ==> (q.0 == SelectorStage::Glob ==> froms_wildcards(
            r.froms,
            wildcards(q.1),
        )),
        Rel::Split => r.left matches Some(l) ==> (l.0 == SelectorStage::Glob ==> froms_wildcards(
            r.froms,
            wildcards(l.1),
        )),
        _ => true,
    }
}

/// Every rule's precedences are distinct, its glob counterparts agree on
/// `*` counts, and no two rules share an id.
pub open spec fn rules_consistent(rules: Seq<RuleView>) -> bool {
    &&& forall|k: int| 0 <= k < rules.len() ==> precedences_distinct(#[trigger] rules[k].froms)
    &&& forall|k: int| 0 <= k < rules.len() ==> wildcards_agree(#[trigger] rules[k])
    &&& forall|i: int, j: int| 0 <= i < j < rules.len() ==> (#[trigger] rules[i]).id != (#[trigger] rules[j]).id
}

/// Every `<redefine>` selector is a glob.
pub open spec fn redefines_glob(r: Seq<((SelectorStage, Seq<char>), Fidelity, Fidelity)>) -> bool {
    forall|i: int| 0 <= i < r.len() ==> (#[trigger] r[i]).0.0 == SelectorStage::Glob
}

pub open spec fn state_consistent(st: LoadState) -> bool {
    flip_paths_unique(st.flips) && rules_consistent(st.rules) && redefines_glob(st.redefines)
}

proof fn lemma_froms_distinct(
    nodes: Seq<XmlNodeView>,
    id: Seq<char>,
    children: Seq<int>,
    side: Seq<char>,
    stage: SelectorStage,
    acc: Seq<((SelectorStage, Seq<char>), u32)>,
)
    requires
        precedences_distinct(acc),
        froms_spec(nodes, id, children, side, stage, acc) is Ok,
    ensures
        precedences_distinct(froms_spec(nodes, id, children, side, stage, acc)->Ok_0),
    decreases children.len(),
{
    if children.len() > 0 {
        let n = nodes[children[0]];
        if n.name != "from"@ {
            lemma_froms_distinct(nodes, id, children.drop_first(), side, stage, acc);
        } else {
            let path = required(n, "from"@, side)->Ok_0;
            let raw = required(n, "from"@, "precedence"@)->Ok_0;
            let p = parse_u32_spec(raw)->Some_0;
            let next = acc.push(((stage, path), p));
            assert forall|i: int, j: int| 0 <= i < j < next.len() implies (#[trigger] next[i]).1
                != (#[trigger] next[j]).1 by {
                if j == acc.len() {
                    assert(next[i] == acc[i]);
                } else {
                    assert(next[i] == acc[i] && next[j] == acc[j]);
                }
            }
            lemma_froms_distinct(nodes, id, children.drop_first(), side, stage, next);
        }
    }
}

proof fn lemma_rule_consistent(nodes: Seq<XmlNodeView>, k: int)
    requires
        rule_spec(nodes, k) is Ok,
    ensures
        precedences_distinct(rule_spec(nodes, k)->Ok_0.froms),
        wildcards_agree(rule_spec(nodes, k)->Ok_0),
{
    let n = nodes[k];
    let id = required(n, "rule"@, "id"@)->Ok_0;
    let rv = required(n, "rule"@, "rel"@)->Ok_0;
    let rel = rel_named(rv)->Some_0;
    let stage = stage_spec(id, n)->Ok_0;
    let children = element_children(nodes, k);
    let side = if rel == Rel::RightOnly || rel == Rel::Split {
        "right"@
    } else {
        "left"@
    };
    assert(precedences_distinct(Seq::<((SelectorStage, Seq<char>), u32)>::empty()));
    if froms_spec(nodes, id, children, side, stage, Seq::empty()) is Ok {
        lemma_froms_distinct(nodes, id, children, side, stage, Seq::empty());
    }
}

proof fn lemma_rules_consistent(nodes: Seq<XmlNodeView>, children: Seq<int>, rules: Seq<RuleView>)
    requires
        rules_consistent(rules),
        rules_spec(nodes, children, rules) is Ok,
    ensures
        rules_consistent(rules_spec(nodes, children, rules)->Ok_0),
    decreases children.len(),
{
    if children.len() > 0 {
        if nodes[children[0]].name != "rule"@ {
            lemma_rules_consistent(nodes, children.drop_first(), rules);
        } else {
            let r = rule_spec(nodes, children[0])->Ok_0;
            lemma_rule_consistent(nodes, children[0]);
            let next = rules.push(r);
            assert forall|k: int| 0 <= k < next.len() implies precedences_distinct(
                #[trigger] next[k].froms,
            ) by {
                if k < rules.len() {
                    assert(next[k] == rules[k]);
                }
            }
            assert forall|k: int| 0 <= k < next.len() implies wildcards_agree(#[trigger] next[k]) by {
                if k < rules.len() {
                    assert(next[k] == rules[k]);
                }
            }
            assert forall|i: int, j: int| 0 <= i < j < next.len() implies (#[trigger] next[i]).id
                != (#[trigger] next[j]).id by {
                if j == rules.len() {
                    assert(next[i] == rules[i]);
                } else {
                    assert(next[i] == rules[i] && next[j] == rules[j]);
                }
            }
            lemma_rules_consistent(nodes, children.drop_first(), next);
        }
    }
}

proof fn lemma_flips_unique(
    nodes: Seq<XmlNodeView>,
    children: Seq<int>,
    from: Seq<char>,
    to: Seq<char>,
    flips: Seq<(Seq<char>, Seq<char>, Seq<char>)>,
)
    requires
        flip_paths_unique(flips),
        flips_spec(nodes, children, from, to, flips) is Ok,
    ensures
        flip_paths_unique(flips_spec(nodes, children, from, to, flips)->Ok_0),
    decreases children.len(),
{
    if children.len() > 0 {
        if nodes[children[0]].name != "flip"@ {
            lemma_flips_unique(nodes, children.drop_first(), from, to, flips);
        } else {
            let path = required(nodes[children[0]], "flip"@, "path"@)->Ok_0;
            let next = flips.push((path, from, to));
            assert forall|i: int, j: int| 0 <= i < j < next.len() implies (#[trigger] next[i]).0
                != (#[trigger] next[j]).0 by {
                if j == flips.len() {
                    assert(next[i] == flips[i]);
                } else {
                    assert(next[i] == flips[i] && next[j] == flips[j]);
                }
            }
            lemma_flips_unique(nodes, children.drop_first(), from, to, next);
        }
    }
}

proof fn lemma_transforms_unique(
    nodes: Seq<XmlNodeView>,
    children: Seq<int>,
    flips: Seq<(Seq<char>, Seq<char>, Seq<char>)>,
    redefines: Seq<((SelectorStage, Seq<char>), Fidelity, Fidelity)>,
)
    requires
        flip_paths_unique(flips),
        redefines_glob(redefines),
        transforms_spec(nodes, children, flips, redefines) is Ok,
    ensures
        flip_paths_unique(transforms_spec(nodes, children, flips, redefines)->Ok_0.0),
        redefines_glob(transforms_spec(nodes, children, flips, redefines)->Ok_0.1),
    decreases children.len(),
{
    if children.len() > 0 {
        let c = children[0];
        let n = nodes[c];
        reveal_strlit("cocos");
        reveal_strlit("redefine");
        assert("cocos"@.len() == 5 && "redefine"@.len() == 8);
        let (f, r) = transform_child_spec(nodes, c, flips, redefines)->Ok_0;
        if n.name == "cocos"@ {
            let from = required(n, "cocos"@, "from"@)->Ok_0;
            let to = required(n, "cocos"@, "to"@)->Ok_0;
            lemma_flips_unique(nodes, element_children(nodes, c), from, to, flips);
        } else if n.name == "redefine"@ {
            assert forall|i: int| 0 <= i < r.len() implies (#[trigger] r[i]).0.0 == SelectorStage::Glob by {
                if i < redefines.len() {
                    assert(r[i] == redefines[i]);
                }
            }
        }
        lemma_transforms_unique(nodes, children.drop_first(), f, r);
    }
}

proof fn lemma_root_children_consistent(nodes: Seq<XmlNodeView>, children: Seq<int>, st: LoadState)
    requires
        state_consistent(st),
        root_children_spec(nodes, children, st) is Ok,
    ensures
        state_consistent(root_children_spec(nodes, children, st)->Ok_0),
    decreases children.len(),
{
    if children.len() > 0 {
        let c = children[0];
        let n = nodes[c];
        reveal_strlit("side");
        reveal_strlit("default");
        reveal_strlit("rules");
        reveal_strlit("transforms");
        assert("side"@.len() == 4 && "default"@.len() == 7);
        assert("rules"@.len() == 5 && "transforms"@.len() == 10);
        let next = root_child_spec(nodes, c, st)->Ok_0;
        if n.name == "rules"@ {
            assert(rules_spec(nodes, element_children(nodes, c), st.rules) is Ok);
            lemma_rules_consistent(nodes, element_children(nodes, c), st.rules);
        } else if n.name == "transforms"@ {
            assert(transforms_spec(nodes, element_children(nodes, c), st.flips, st.redefines) is Ok);
            lemma_transforms_unique(nodes, element_children(nodes, c), st.flips, st.redefines);
        }
        assert(state_consistent(next));
        lemma_root_children_consistent(nodes, children.drop_first(), next);
    }
}

/// A loaded document never names a flip path twice, never gives two
/// `<from>` entries of one rule the same precedence, never gives two rules
/// the same id, gives a glob rule's counterpart patterns as many `*`
/// wildcards as its source pattern, and keys every `<redefine>` on a glob.
pub proof fn law_loaded_documents_are_consistent(nodes: Seq<XmlNodeView>)
    ensures
        load_spec(nodes) matches Ok(m) ==> flip_paths_unique(m.flips) && rules_consistent(m.rules)
            && redefines_glob(m.redefines),
{
    if let Some(root) = root_element(nodes) {
        if let Ok(ids) = required(nodes[root], "ids-map"@, "ids"@) {
            let init = LoadState {
                left: None,
                right: None,
                default_identical: false,
                rules: Seq::empty(),
                flips: Seq::empty(),
                redefines: Seq::empty(),
            };
            if root_children_spec(nodes, element_children(nodes, root), init) is Ok {
                lemma_root_children_consistent(nodes, element_children(nodes, root), init);
            }
        }
    }
}

proof fn lemma_consistency_from_views(flips: Seq<FlipEntry>, rules: Seq<Rule>, redefines: Seq<RedefineEntry>)
    requires
        flip_paths_unique(flip_views(flips)),
        rules_consistent(rule_views(rules)),
        redefines_glob(redefine_views(redefines)),
    ensures
        flip_paths_distinct(flips),
        rules_distinct(rules),
        forall|k: int| 0 <= k < rules.len() ==> crate::conversion_map::rule_wildcards_agree(#[trigger] rules[k]),
        forall|i: int| 0 <= i < redefines.len() ==> (#[trigger] redefines[i]).selector is Glob,
{
    assert forall|i: int| 0 <= i < redefines.len() implies (#[trigger] redefines[i]).selector is Glob by {
        assert(redefine_views(redefines)[i].0.0 == SelectorStage::Glob);
    }
    assert forall|i: int, j: int| 0 <= i < j < flips.len() implies (#[trigger] flips[i]).path@
        != (#[trigger] flips[j]).path@ by {
        assert(flip_views(flips)[i].0 != flip_views(flips)[j].0);
    }
    assert forall|k: int| 0 <= k < rules.len() implies from_precedences_distinct(
        #[trigger] rules[k].froms@,
    ) by {
        let f = rules[k].froms@;
        assert(precedences_distinct(rule_views(rules)[k].froms));
        assert forall|i: int, j: int| 0 <= i < j < f.len() implies (#[trigger] f[i]).precedence
            != (#[trigger] f[j]).precedence by {
            let fv = rule_views(rules)[k].froms;
            assert(fv[i].1 != fv[j].1);
        }
    }
    assert forall|i: int, j: int| 0 <= i < j < rules.len() implies (#[trigger] rules[i]).id@
        != (#[trigger] rules[j]).id@ by {
        assert(rule_views(rules)[i].id != rule_views(rules)[j].id);
    }
    assert forall|k: int| 0 <= k < rules.len() implies crate::conversion_map::rule_wildcards_agree(
        #[trigger] rules[k],
    ) by {
        let r = rules[k];
        let v = rule_views(rules)[k];
        assert(wildcards_agree(v));
        assert(v.froms == r.froms@.map_values(|f: FromEntry| from_view(f)));
        assert forall|i: int| 0 <= i < r.froms@.len() implies #[trigger] from_view(r.froms@[i]).0.1
            == pattern_of(r.froms@[i].selector) by {
        }
        assert forall|i: int| 0 <= i < r.froms@.len() implies v.froms[i] == from_view(
            #[trigger] r.froms@[i],
        ) by {
        }
    }
}

/// The flip the `<flip>` element at `f` declares inside the `<cocos>`
/// block at `c`: its path and the block's two conventions.
pub open spec fn declared_flip(nodes: Seq<XmlNodeView>, c: int, f: int) -> (Seq<char>, Seq<char>, Seq<char>) {
    (attr(nodes[f], "path"@)->0, attr(nodes[c], "from"@)->0, attr(nodes[c], "to"@)->0)
}

/// Every `<flip>` child of the `<cocos>` block at `c` is among `flips`.
pub open spec fn cocos_loaded(
    nodes: Seq<XmlNodeView>,
    c: int,
    flips: Seq<(Seq<char>, Seq<char>, Seq<char>)>,
) -> bool {
    forall|j: int|
        0 <= j < element_children(nodes, c).len() && nodes[element_children(nodes, c)[j]].name
            == "flip"@ ==> flips.contains(declared_flip(nodes, c, #[trigger] element_children(nodes, c)[j]))
}

/// Every `<flip>` of every `<cocos>` block of the `<transforms>` element at
/// `t` is among `flips`.
pub open spec fn transforms_loaded(
    nodes: Seq<XmlNodeView>,
    t: int,
    flips: Seq<(Seq<char>, Seq<char>, Seq<char>)>,
) -> bool {
    forall|j: int|
        0 <= j < element_children(nodes, t).len() && nodes[element_children(nodes, t)[j]].name
            == "cocos"@ ==> cocos_loaded(nodes, #[trigger] element_children(nodes, t)[j], flips)
}

spec fn includes(a: Seq<(Seq<char>, Seq<char>, Seq<char>)>, b: Seq<(Seq<char>, Seq<char>, Seq<char>)>) -> bool {
    forall|x: (Seq<char>, Seq<char>, Seq<char>)| a.contains(x) ==> #[trigger] b.contains(x)
}

proof fn lemma_loaded_grows(
    nodes: Seq<XmlNodeView>,
    t: int,
    a: Seq<(Seq<char>, Seq<char>, Seq<char>)>,
    b: Seq<(Seq<char>, Seq<char>, Seq<char>)>,
)
    requires
        transforms_loaded(nodes, t, a),
        includes(a, b),
    ensures
        transforms_loaded(nodes, t, b),
{
    assert forall|j: int|
        0 <= j < element_children(nodes, t).len() && nodes[element_children(nodes, t)[j]].name
            == "cocos"@ implies cocos_loaded(nodes, #[trigger] element_children(nodes, t)[j], b) by {
        let c = element_children(nodes, t)[j];
        assert(cocos_loaded(nodes, c, a));
        assert forall|k: int|
            0 <= k < element_children(nodes, c).len() && nodes[element_children(nodes, c)[k]].name
                == "flip"@ implies b.contains(declared_flip(nodes, c, #[trigger] element_children(nodes, c)[k])) by {
            assert(a.contains(declared_flip(nodes, c, element_children(nodes, c)[k])));
        }
    }
}

proof fn lemma_flips_collect(
    nodes: Seq<XmlNodeView>,
    children: Seq<int>,
    from: Seq<char>,
    to: Seq<char>,
    flips: Seq<(Seq<char>, Seq<char>, Seq<char>)>,
)
    requires
        flips_spec(nodes, children, from, to, flips) is Ok,
    ensures
        includes(flips, flips_spec(nodes, children, from, to, flips)->Ok_0),
        forall|k: int|
            0 <= k < children.len() && nodes[children[k]].name == "flip"@ ==> flips_spec(
                nodes,
                children,
                from,
                to,
                flips,
            )->Ok_0.contains((attr(nodes[#[trigger] children[k]], "path"@)->0, from, to)),
    decreases children.len(),
{
    if children.len() > 0 {
        let rest = children.drop_first();
        let out = flips_spec(nodes, children, from, to, flips)->Ok_0;
        if nodes[children[0]].name != "flip"@ {
            lemma_flips_collect(nodes, rest, from, to, flips);
            assert forall|k: int|
                0 <= k < children.len() && nodes[children[k]].name == "flip"@ implies out.contains(
                (attr(nodes[#[trigger] children[k]], "path"@)->0, from, to)) by {
                assert(rest[k - 1] == children[k]);
            }
        } else {
            let path = required(nodes[children[0]], "flip"@, "path"@)->Ok_0;
            let next = flips.push((path, from, to));
            lemma_flips_collect(nodes, rest, from, to, next);
            assert(next.contains((path, from, to))) by {
                assert(next[flips.len() as int] == (path, from, to));
            }
            assert forall|x: (Seq<char>, Seq<char>, Seq<char>)| flips.contains(x) implies #[trigger] out.contains(x) by {
                let i = choose|i: int| 0 <= i < flips.len() && flips[i] == x;
                assert(next[i] == x);
                assert(next.contains(x));
            }
            assert forall|k: int|
                0 <= k < children.len() && nodes[children[k]].name == "flip"@ implies out.contains(
                (attr(nodes[#[trigger] children[k]], "path"@)->0, from, to)) by {
                if k > 0 {
                    assert(rest[k - 1] == children[k]);
                }
            }
        }
    }
}

proof fn lemma_transforms_collect(
    nodes: Seq<XmlNodeView>,
    children: Seq<int>,
    flips: Seq<(Seq<char>, Seq<char>, Seq<char>)>,
    redefines: Seq<((SelectorStage, Seq<char>), Fidelity, Fidelity)>,
)
    requires
        transforms_spec(nodes, children, flips, redefines) is Ok,
    ensures
        includes(flips, transforms_spec(nodes, children, flips, redefines)->Ok_0.0),
        forall|k: int|
            0 <= k < children.len() && nodes[children[k]].name == "cocos"@ ==> cocos_loaded(
                nodes,
                #[trigger] children[k],
                transforms_spec(nodes, children, flips, redefines)->Ok_0.0,
            ),
    decreases children.len(),
{
    if children.len() > 0 {
        reveal_strlit("cocos");
        reveal_strlit("redefine");
        assert("cocos"@.len() == 5 && "redefine"@.len() == 8);
        let c = children[0];
        let n = nodes[c];
        let rest = children.drop_first();
        let (f, r) = transform_child_spec(nodes, c, flips, redefines)->Ok_0;
        let out = transforms_spec(nodes, children, flips, redefines)->Ok_0.0;
        lemma_transforms_collect(nodes, rest, f, r);
        if n.name == "cocos"@ {
            let from = required(n, "cocos"@, "from"@)->Ok_0;
            let to = required(n, "cocos"@, "to"@)->Ok_0;
            lemma_flips_collect(nodes, element_children(nodes, c), from, to, flips);
            assert forall|j: int|
                0 <= j < element_children(nodes, c).len() && nodes[element_children(nodes, c)[j]].name
                    == "flip"@ implies out.contains(declared_flip(nodes, c, #[trigger] element_children(nodes, c)[j])) by {
                let fl = element_children(nodes, c)[j];
                assert(f.contains((attr(nodes[fl], "path"@)->0, from, to)));
            }
        }
        assert forall|k: int|
            0 <= k < children.len() && nodes[children[k]].name == "cocos"@ implies cocos_loaded(
            nodes,
            #[trigger] children[k],
            out,
        ) by {
            if k > 0 {
                assert(rest[k - 1] == children[k]);
            }
        }
    }
}

proof fn lemma_root_children_collect(nodes: Seq<XmlNodeView>, children: Seq<int>, st: LoadState)
    requires
        root_children_spec(nodes, children, st) is Ok,
    ensures
        includes(st.flips, root_children_spec(nodes, children, st)->Ok_0.flips),
        forall|k: int|
            0 <= k < children.len() && nodes[children[k]].name == "transforms"@ ==> transforms_loaded(
                nodes,
                #[trigger] children[k],
                root_children_spec(nodes, children, st)->Ok_0.flips,
            ),
    decreases children.len(),
{
    if children.len() > 0 {
        reveal_strlit("side");
        reveal_strlit("default");
        reveal_strlit("rules");
        reveal_strlit("transforms");
        assert("side"@.len() == 4 && "default"@.len() == 7);
        assert("rules"@.len() == 5 && "transforms"@.len() == 10);
        let c = children[0];
        let n = nodes[c];
        let rest = children.drop_first();
        let next = root_child_spec(nodes, c, st)->Ok_0;
        let out = root_children_spec(nodes, children, st)->Ok_0.flips;
        lemma_root_children_collect(nodes, rest, next);
        if n.name == "transforms"@ {
            assert(transforms_spec(nodes, element_children(nodes, c), st.flips, st.redefines) is Ok);
            lemma_transforms_collect(nodes, element_children(nodes, c), st.flips, st.redefines);
            assert(transforms_loaded(nodes, c, next.flips));
            lemma_loaded_grows(nodes, c, next.flips, out);
        } else {
            assert(next.flips == st.flips);
        }
        assert forall|k: int|
            0 <= k < children.len() && nodes[children[k]].name == "transforms"@ implies transforms_loaded(
            nodes,
            #[trigger] children[k],
            out,
        ) by {
            if k > 0 {
                assert(rest[k - 1] == children[k]);
            }
        }
    }
}

/// Every `<flip>` of every `<cocos>` block of every `<transforms>` element
/// of a loaded document is loaded: the map names the flip's path with the
/// two conventions of its block, `from` then `to`.
pub proof fn law_every_declared_flip_is_loaded(nodes: Seq<XmlNodeView>)
    ensures
        load_spec(nodes) matches Ok(m) ==> (root_element(nodes) matches Some(root) ==> forall|j: int|
            0 <= j < element_children(nodes, root).len() && nodes[element_children(nodes, root)[j]].name
                == "transforms"@ ==> transforms_loaded(nodes, #[trigger] element_children(nodes, root)[j], m.flips)),
{
    if let Some(root) = root_element(nodes) {
        if let Ok(ids) = required(nodes[root], "ids-map"@, "ids"@) {
            let init = LoadState {
                left: None,
                right: None,
                default_identical: false,
                rules: Seq::empty(),
                flips: Seq::empty(),
                redefines: Seq::empty(),
            };
            if root_children_spec(nodes, element_children(nodes, root), init) is Ok {
                lemma_root_children_collect(nodes, element_children(nodes, root), init);
            }
        }
    }
}

/// Some rule of `rules` carries id `id` and relation `rel`.
pub open spec fn has_rule(rules: Seq<RuleView>, id: Seq<char>, rel: Rel) -> bool {
    exists|i: int| 0 <= i < rules.len() && (#[trigger] rules[i]).id == id && rules[i].rel == rel
}

/// Some `<redefine>` of `r` is keyed on glob `g`.
pub open spec fn has_redefine(r: Seq<((SelectorStage, Seq<char>), Fidelity, Fidelity)>, g: Seq<char>) -> bool {
    exists|i: int| 0 <= i < r.len() && (#[trigger] r[i]).0 == (SelectorStage::Glob, g)
}

/// Every `<rule>` child of the `<rules>` element at `e` is among `rules`,
/// with its id and its relation.
pub open spec fn rules_loaded(nodes: Seq<XmlNodeView>, e: int, rules: Seq<RuleView>) -> bool {
    forall|j: int|
        0 <= j < element_children(nodes, e).len() && nodes[element_children(nodes, e)[j]].name
            == "rule"@ ==> has_rule(
            rules,
            attr(nodes[#[trigger] element_children(nodes, e)[j]], "id"@)->0,
            rel_named(attr(nodes[element_children(nodes, e)[j]], "rel"@)->0)->0,
        )
}

/// Every `<redefine>` child of the `<transforms>` element at `t` is among
/// `r`, keyed on its glob.
pub open spec fn redefines_loaded(
    nodes: Seq<XmlNodeView>,
    t: int,
    r: Seq<((SelectorStage, Seq<char>), Fidelity, Fidelity)>,
) -> bool {
    forall|j: int|
        0 <= j < element_children(nodes, t).len() && nodes[element_children(nodes, t)[j]].name
            == "redefine"@ ==> has_redefine(r, attr(nodes[#[trigger] element_children(nodes, t)[j]], "glob"@)->0)
}

proof fn lemma_rules_collect(nodes: Seq<XmlNodeView>, children: Seq<int>, rules: Seq<RuleView>)
    requires
        rules_spec(nodes, children, rules) is Ok,
    ensures
        forall|id: Seq<char>, rel: Rel| has_rule(rules, id, rel) ==> #[trigger] has_rule(
            rules_spec(nodes, children, rules)->Ok_0,
            id,
            rel,
        ),
        forall|k: int|
            0 <= k < children.len() && nodes[children[k]].name == "rule"@ ==> has_rule(
                rules_spec(nodes, children, rules)->Ok_0,
                attr(nodes[#[trigger] children[k]], "id"@)->0,
                rel_named(attr(nodes[children[k]], "rel"@)->0)->0,
            ),
    decreases children.len(),
{
    if children.len() > 0 {
        let rest = children.drop_first();
        let out = rules_spec(nodes, children, rules)->Ok_0;
        if nodes[children[0]].name != "rule"@ {
            lemma_rules_collect(nodes, rest, rules);
        } else {
            let r = rule_spec(nodes, children[0])->Ok_0;
            let next = rules.push(r);
            lemma_rules_collect(nodes, rest, next);
            assert(next[rules.len() as int] == r);
            assert(has_rule(next, r.id, r.rel));
            assert forall|id: Seq<char>, rel: Rel| has_rule(rules, id, rel) implies #[trigger] has_rule(
                out,
                id,
                rel,
            ) by {
                let i = choose|i: int| 0 <= i < rules.len() && (#[trigger] rules[i]).id == id && rules[i].rel == rel;
                assert(next[i] == rules[i]);
                assert(has_rule(next, id, rel));
            }
        }
        assert forall|k: int|
            0 <= k < children.len() && nodes[children[k]].name == "rule"@ implies has_rule(
            out,
            attr(nodes[#[trigger] children[k]], "id"@)->0,
            rel_named(attr(nodes[children[k]], "rel"@)->0)->0,
        ) by {
            if k > 0 {
                assert(rest[k - 1] == children[k]);
            }
        }
    }
}

proof fn lemma_transforms_collect_redefines(
    nodes: Seq<XmlNodeView>,
    children: Seq<int>,
    flips: Seq<(Seq<char>, Seq<char>, Seq<char>)>,
    redefines: Seq<((SelectorStage, Seq<char>), Fidelity, Fidelity)>,
)
    requires
        transforms_spec(nodes, children, flips, redefines) is Ok,
    ensures
        forall|g: Seq<char>| has_redefine(redefines, g) ==> #[trigger] has_redefine(
            transforms_spec(nodes, children, flips, redefines)->Ok_0.1,
            g,
        ),
        forall|k: int|
            0 <= k < children.len() && nodes[children[k]].name == "redefine"@ ==> has_redefine(
                transforms_spec(nodes, children, flips, redefines)->Ok_0.1,
                attr(nodes[#[trigger] children[k]], "glob"@)->0,
            ),
    decreases children.len(),
{
    if children.len() > 0 {
        reveal_strlit("cocos");
        reveal_strlit("redefine");
        assert("cocos"@.len() == 5 && "redefine"@.len() == 8);
        let c = children[0];
        let n = nodes[c];
        let rest = children.drop_first();
        let (f, r) = transform_child_spec(nodes, c, flips, redefines)->Ok_0;
        let out = transforms_spec(nodes, children, flips, redefines)->Ok_0.1;
        lemma_transforms_collect_redefines(nodes, rest, f, r);
        if n.name == "redefine"@ {
            let g = attr(n, "glob"@)->0;
            assert(r[redefines.len() as int].0 == (SelectorStage::Glob, g));
            assert(has_redefine(r, g));
            assert forall|x: Seq<char>| has_redefine(redefines, x) implies #[trigger] has_redefine(out, x) by {
                let i = choose|i: int| 0 <= i < redefines.len() && (#[trigger] redefines[i]).0 == (SelectorStage::Glob, x);
                assert(r[i] == redefines[i]);
                assert(has_redefine(r, x));
            }
        } else {
            assert(r == redefines);
        }
        assert forall|k: int|
            0 <= k < children.len() && nodes[children[k]].name == "redefine"@ implies has_redefine(
            out,
            attr(nodes[#[trigger] children[k]], "glob"@)->0,
        ) by {
            if k > 0 {
                assert(rest[k - 1] == children[k]);
            }
        }
    }
}

proof fn lemma_root_children_collect_rules(nodes: Seq<XmlNodeView>, children: Seq<int>, st: LoadState)
    requires
        root_children_spec(nodes, children, st) is Ok,
    ensures
        forall|id: Seq<char>, rel: Rel| has_rule(st.rules, id, rel) ==> #[trigger] has_rule(
            root_children_spec(nodes, children, st)->Ok_0.rules,
            id,
            rel,
        ),
        forall|g: Seq<char>| has_redefine(st.redefines, g) ==> #[trigger] has_redefine(
            root_children_spec(nodes, children, st)->Ok_0.redefines,
            g,
        ),
        forall|k: int|
            0 <= k < children.len() && nodes[children[k]].name == "rules"@ ==> rules_loaded(
                nodes,
                #[trigger] children[k],
                root_children_spec(nodes, children, st)->Ok_0.rules,
            ),
        forall|k: int|
            0 <= k < children.len() && nodes[children[k]].name == "transforms"@ ==> redefines_loaded(
                nodes,
                #[trigger] children[k],
                root_children_spec(nodes, children, st)->Ok_0.redefines,
            ),
    decreases children.len(),
{
    if children.len() > 0 {
        reveal_strlit("side");
        reveal_strlit("default");
        reveal_strlit("rules");
        reveal_strlit("transforms");
        assert("side"@.len() == 4 && "default"@.len() == 7);
        assert("rules"@.len() == 5 && "transforms"@.len() == 10);
        let c = children[0];
        let n = nodes[c];
        let rest = children.drop_first();
        let next = root_child_spec(nodes, c, st)->Ok_0;
        let out = root_children_spec(nodes, children, st)->Ok_0;
        lemma_root_children_collect_rules(nodes, rest, next);
        if n.name == "rules"@ {
            assert(rules_spec(nodes, element_children(nodes, c), st.rules) is Ok);
            lemma_rules_collect(nodes, element_children(nodes, c), st.rules);
            assert(next.redefines == st.redefines);
            assert forall|j: int|
                0 <= j < element_children(nodes, c).len() && nodes[element_children(nodes, c)[j]].name
                    == "rule"@ implies has_rule(
                out.rules,
                attr(nodes[#[trigger] element_children(nodes, c)[j]], "id"@)->0,
                rel_named(attr(nodes[element_children(nodes, c)[j]], "rel"@)->0)->0,
            ) by {
                let e = element_children(nodes, c)[j];
                assert(has_rule(next.rules, attr(nodes[e], "id"@)->0, rel_named(attr(nodes[e], "rel"@)->0)->0));
            }
        } else if n.name == "transforms"@ {
            assert(transforms_spec(nodes, element_children(nodes, c), st.flips, st.redefines) is Ok);
            lemma_transforms_collect_redefines(nodes, element_children(nodes, c), st.flips, st.redefines);
            assert(next.rules == st.rules);
            assert forall|j: int|
                0 <= j < element_children(nodes, c).len() && nodes[element_children(nodes, c)[j]].name
                    == "redefine"@ implies has_redefine(
                out.redefines,
                attr(nodes[#[trigger] element_children(nodes, c)[j]], "glob"@)->0,
            ) by {
                let e = element_children(nodes, c)[j];
                assert(has_redefine(next.redefines, attr(nodes[e], "glob"@)->0));
            }
        } else {
            assert(next.rules == st.rules && next.redefines == st.redefines);
        }
        assert forall|k: int|
            0 <= k < children.len() && nodes[children[k]].name == "rules"@ implies rules_loaded(
            nodes,
            #[trigger] children[k],
            out.rules,
        ) by {
            if k > 0 {
                assert(rest[k - 1] == children[k]);
            }
        }
        assert forall|k: int|
            0 <= k < children.len() && nodes[children[k]].name == "transforms"@ implies redefines_loaded(
            nodes,
            #[trigger] children[k],
            out.redefines,
        ) by {
            if k > 0 {
                assert(rest[k - 1] == children[k]);
            }
        }
    }
}

/// Every `<rule>` of every `<rules>` element of a loaded document is
/// loaded, with its id and its relation, and every `<redefine>` of every
/// `<transforms>` element is loaded, keyed on its glob.
pub proof fn law_every_declared_rule_and_redefine_is_loaded(nodes: Seq<XmlNodeView>)
    ensures
        load_spec(nodes) matches Ok(m) ==> (root_element(nodes) matches Some(root) ==> {
            &&& forall|j: int|
                0 <= j < element_children(nodes, root).len() && nodes[element_children(nodes, root)[j]].name
                    == "rules"@ ==> rules_loaded(nodes, #[trigger] element_children(nodes, root)[j], m.rules)
            &&& forall|j: int|
                0 <= j < element_children(nodes, root).len() && nodes[element_children(nodes, root)[j]].name
                    == "transforms"@ ==> redefines_loaded(
                    nodes,
                    #[trigger] element_children(nodes, root)[j],
                    m.redefines,
                )
        }),
{
    if let Some(root) = root_element(nodes) {
        if let Ok(ids) = required(nodes[root], "ids-map"@, "ids"@) {
            let init = LoadState {
                left: None,
                right: None,
                default_identical: false,
                rules: Seq::empty(),
                flips: Seq::empty(),
                redefines: Seq::empty(),
            };
            if root_children_spec(nodes, element_children(nodes, root), init) is Ok {
                lemma_root_children_collect_rules(nodes, element_children(nodes, root), init);
            }
        }
    }
}

// ---------------------------------------------------------------------------
// Loading
// ---------------------------------------------------------------------------

pub open spec fn ints(v: Seq<usize>) -> Seq<int> {
    v.map_values(|i: usize| i as int)
}

pub open spec fn err_agrees<T, V>(r: Result<T, LoadError>, s: Result<V, LoadErrorView>) -> bool {
    match (r, s) {
        (Err(e), Err(m)) => error_view(e) == m,
        (Ok(_), Ok(_)) => true,
        _ => false,
    }
}

fn missing_attribute(element: &str, attribute: &str) -> (e: LoadError)
    ensures
        error_view(e) == LoadErrorView::MissingAttribute(element@, attribute@),
{
    LoadError::MissingAttribute { element: owned(element), attribute: owned(attribute) }
}

fn unknown_value(element: &str, attribute: &str, value: &str) -> (e: LoadError)
    ensures
        error_view(e) == LoadErrorView::UnknownValue(element@, attribute@, value@),
{
    LoadError::UnknownValue {
        element: owned(element),
        attribute: owned(attribute),
        value: owned(value),
    }
}

fn shape_error(rule_id: &str, reason: &str) -> (e: LoadError)
    ensures
        error_view(e) == LoadErrorView::InvalidRuleShape(rule_id@, reason@),
{
    LoadError::InvalidRuleShape { rule_id: owned(rule_id), reason: owned(reason) }
}

/// A required attribute of `node`, or the error naming it.
fn required_attr<'a>(node: &'a XmlNode, element: &str, attribute: &str) -> (r: Result<
    &'a str,
    LoadError,
>)
    ensures
        err_agrees(r, required(node@, element@, attribute@)),
        r matches Ok(v) ==> required(node@, element@, attribute@) == Ok::<Seq<char>, LoadErrorView>(
            v@,
        ),
{
    match crate::xml::attribute(node, attribute) {
        Some(v) => Ok(v),
        None => Err(missing_attribute(element, attribute)),
    }
}

fn all_digits(v: &[char]) -> (r: bool)
    ensures
        r == all_digit_chars(v@),
{
    let mut i: usize = 0;
    while i < v.len()
        invariant
            i <= v@.len(),
            forall|k: int| 0 <= k < i ==> is_digit(#[trigger] v@[k]),
        decreases v@.len() - i,
    {
        if !('0' <= v[i] && v[i] <= '9') {
            return false;
        }
        i = i + 1;
    }
    true
}

fn is_canonical_component(c: &Vec<char>) -> (r: bool)
    ensures
        r == canonical_component(c@),
{
    if c.len() == 0 || !all_digits(c) {
        return false;
    }
    if c.len() == 1 && c[0] == '0' {
        assert(c@ =~= seq!['0']);
        return true;
    }
    assert(c@ != seq!['0']) by {
        if c@ == seq!['0'] {
            assert(c@.len() == 1 && c@[0] == '0');
        }
    }
    c[0] != '0'
}

/// Whether `v` is a released version spelling `MAJOR.MINOR.PATCH`.
fn is_artifact_dd(v: &str) -> (r: bool)
    ensures
        r == artifact_dd_ok(v@),
{
    let chars = chars_of(v);
    let parts = split_chars(&chars, '.');
    let ghost ps = split_on(v@, '.');
    assert(views(parts@) == ps);
    if parts.len() != 3 {
        return false;
    }
    assert(parts@[0]@ == ps[0] && parts@[1]@ == ps[1] && parts@[2]@ == ps[2]);
    let ok = is_canonical_component(&parts[0]) && is_canonical_component(&parts[1])
        && is_canonical_component(&parts[2]);
    assert(ok == (forall|i: int| 0 <= i < 3 ==> canonical_component(#[trigger] ps[i]))) by {
        if !ok {
            if !canonical_component(ps[0]) {
                assert(!canonical_component(ps[0]));
            } else if !canonical_component(ps[1]) {
                assert(!canonical_component(ps[1]));
            } else {
                assert(!canonical_component(ps[2]));
            }
        }
    }
    ok
}

/// Whether `v` is a COCOS convention identifier.
fn is_cocos(v: &str) -> (r: bool)
    ensures
        r == cocos_ok(v@),
{
    let chars = chars_of(v);
    chars.len() > 0 && all_digits(&chars)
}

proof fn lemma_digits_value_monotone_prefix(s: Seq<char>, i: int, j: int)
    requires
        0 <= i <= j <= s.len(),
    ensures
        digits_value(s.subrange(0, i)) <= digits_value(s.subrange(0, j)),
    decreases j - i,
{
    if i < j {
        lemma_digits_value_monotone_prefix(s, i, j - 1);
        assert(s.subrange(0, j).drop_last() =~= s.subrange(0, j - 1));
    }
}

/// `u32::from_str`.
fn parse_u32_text(v: &str) -> (r: Option<u32>)
    ensures
        r == parse_u32_spec(v@),
{
    let chars = chars_of(v);
    let ghost sd = plus_stripped(v@);
    let d = if chars.len() > 0 && chars[0] == '+' {
        let x = chars_from(&chars, 1);
        assert(x@ =~= sd);
        x
    } else {
        let x = chars_from(&chars, 0);
        assert(x@ =~= sd);
        x
    };
    if d.len() == 0 || !all_digits(&d) {
        return None;
    }
    let mut value: u64 = 0;
    let mut i: usize = 0;
    while i < d.len()
        invariant
            i <= d@.len(),
            d@ == plus_stripped(v@),
            d@.len() > 0,
            all_digit_chars(d@),
            value == digits_value(d@.subrange(0, i as int)),
            value <= u32::MAX,
        decreases d@.len() - i,
    {
        let c = d[i];
        assert(is_digit(d@[i as int]));
        let dig: u64 = (c as u32 - '0' as u32) as u64;
        assert(d@.subrange(0, i + 1).drop_last() =~= d@.subrange(0, i as int));
        assert(d@.subrange(0, i + 1).last() == c);
        if value > (0xFFFF_FFFFu64 - dig) / 10 {
            proof {
                assert(value * 10 + dig > 0xFFFF_FFFFu64) by (nonlinear_arith)
                    requires
                        value > (0xFFFF_FFFFu64 - dig) / 10,
                        dig <= 9,
                ;
                lemma_digits_value_monotone_prefix(d@, i + 1, d@.len() as int);
                assert(d@.subrange(0, d@.len() as int) =~= d@);
            }
            return None;
        }
        proof {
            assert(value * 10 + dig <= 0xFFFF_FFFFu64) by (nonlinear_arith)
                requires
                    value <= (0xFFFF_FFFFu64 - dig) / 10,
                    dig <= 9,
            ;
        }
        value = value * 10 + dig;
        i = i + 1;
    }
    assert(d@.subrange(0, d@.len() as int) =~= d@);
    Some(value as u32)
}

fn rel_from(v: &str) -> (r: Option<Rel>)
    ensures
        r == rel_named(v@),
{
    if str_eq(v, "renamed") {
        Some(Rel::Renamed)
    } else if str_eq(v, "merged") {
        Some(Rel::Merged)
    } else if str_eq(v, "moved") {
        Some(Rel::Moved)
    } else if str_eq(v, "retyped") {
        Some(Rel::Retyped)
    } else if str_eq(v, "split") {
        Some(Rel::Split)
    } else if str_eq(v, "left_only") {
        Some(Rel::LeftOnly)
    } else if str_eq(v, "right_only") {
        Some(Rel::RightOnly)
    } else {
        None
    }
}

fn fidelity_from(v: &str) -> (r: Option<Fidelity>)
    ensures
        r == fidelity_named(v@),
{
    if str_eq(v, "exact") {
        Some(Fidelity::Exact)
    } else if str_eq(v, "lossy") {
        Some(Fidelity::Lossy)
    } else if str_eq(v, "unmappable") {
        Some(Fidelity::Unmappable)
    } else {
        None
    }
}

fn fidelity_value(node: &XmlNode, attribute: &str) -> (r: Result<Fidelity, LoadError>)
    ensures
        err_agrees(r, fidelity_value_spec(node@, attribute@)),
        r matches Ok(f) ==> fidelity_value_spec(node@, attribute@) == Ok::<
            Fidelity,
            LoadErrorView,
        >(f),
{
    let v = match required_attr(node, "fidelity", attribute) {
        Ok(v) => v,
        Err(e) => return Err(e),
    };
    match fidelity_from(v) {
        Some(f) => Ok(f),
        None => Err(unknown_value("fidelity", attribute, v)),
    }
}

/// The first of `children` whose tag name is `name`.
fn first_child_named(nodes: &Vec<XmlNode>, children: &Vec<usize>, name: &str) -> (r: Option<usize>)
    requires
        forall|j: int| 0 <= j < children@.len() ==> #[trigger] children@[j] < nodes@.len(),
    ensures
        match r {
            Some(c) => first_named(node_views(nodes@), ints(children@), name@) == Some(c as int)
                && c < nodes@.len(),
            None => first_named(node_views(nodes@), ints(children@), name@) is None,
        },
{
    let ghost nv = node_views(nodes@);
    let ghost all = ints(children@);
    let mut i: usize = 0;
    assert(all.subrange(0, all.len() as int) =~= all);
    while i < children.len()
        invariant
            i <= children@.len(),
            nv == node_views(nodes@),
            all == ints(children@),
            forall|j: int| 0 <= j < children@.len() ==> #[trigger] children@[j] < nodes@.len(),
            first_named(nv, all, name@) == first_named(
                nv,
                all.subrange(i as int, all.len() as int),
                name@,
            ),
        decreases children@.len() - i,
    {
        let ghost rest = all.subrange(i as int, all.len() as int);
        assert(rest.drop_first() =~= all.subrange(i + 1, all.len() as int));
        assert(rest[0] == children@[i as int] as int);
        let c = children[i];
        assert(nv[c as int] == nodes@[c as int]@);
        if str_eq(nodes[c].name.as_str(), name) {
            return Some(c);
        }
        i = i + 1;
    }
    None
}

/// The two values of the first `<fidelity>` child of node `k`.
fn fidelity_pair(nodes: &Vec<XmlNode>, k: usize, missing: LoadError) -> (r: Result<
    (Fidelity, Fidelity),
    LoadError,
>)
    requires
        k < nodes@.len(),
    ensures
        err_agrees(r, fidelity_pair_spec(node_views(nodes@), k as int, error_view(missing))),
        r matches Ok(p) ==> fidelity_pair_spec(node_views(nodes@), k as int, error_view(missing))
            == Ok::<(Fidelity, Fidelity), LoadErrorView>(p),
{
    let children = children_of(nodes, k);
    let f = match first_child_named(nodes, &children, "fidelity") {
        Some(f) => f,
        None => return Err(missing),
    };
    assert(node_views(nodes@)[f as int] == nodes@[f as int]@);
    let forward = match fidelity_value(&nodes[f], "forward") {
        Ok(x) => x,
        Err(e) => return Err(e),
    };
    let reverse = match fidelity_value(&nodes[f], "reverse") {
        Ok(x) => x,
        Err(e) => return Err(e),
    };
    Ok((forward, reverse))
}

/// The selector stage a `<rule>` declares.
fn selector_stage(id: &str, node: &XmlNode) -> (r: Result<SelectorStage, LoadError>)
    ensures
        err_agrees(r, stage_spec(id@, node@)),
        r matches Ok(s) ==> stage_spec(id@, node@) == Ok::<SelectorStage, LoadErrorView>(s),
{
    match (attribute(node, "subtree"), attribute(node, "glob")) {
        (Some(v), None) => if !str_eq(v, "yes") {
            Err(unknown_value("rule", "subtree", v))
        } else {
            Ok(SelectorStage::Subtree)
        },
        (None, Some(v)) => if !str_eq(v, "yes") {
            Err(unknown_value("rule", "glob", v))
        } else {
            Ok(SelectorStage::Glob)
        },
        (None, None) => Ok(SelectorStage::Exact),
        (Some(_), Some(_)) => Err(shape_error(id, "must not set both `subtree` and `glob`")),
    }
}

pub open spec fn froms_view(f: Seq<FromEntry>) -> Seq<((SelectorStage, Seq<char>), u32)> {
    f.map_values(|x: FromEntry| from_view(x))
}

fn has_precedence(froms: &Vec<FromEntry>, p: u32) -> (r: bool)
    ensures
        r == exists|i: int| 0 <= i < froms_view(froms@).len() && (#[trigger] froms_view(froms@)[i]).1 == p,
{
    let mut i: usize = 0;
    while i < froms.len()
        invariant
            i <= froms@.len(),
            forall|k: int| 0 <= k < i ==> (#[trigger] froms_view(froms@)[k]).1 != p,
        decreases froms@.len() - i,
    {
        assert(froms_view(froms@)[i as int].1 == froms@[i as int].precedence);
        if froms[i].precedence == p {
            return true;
        }
        i = i + 1;
    }
    false
}

/// The `<from>` children of rule node `k`, in document order.
fn parse_froms(nodes: &Vec<XmlNode>, id: &str, k: usize, side: &str, stage: SelectorStage) -> (r:
    Result<Vec<FromEntry>, LoadError>)
    requires
        k < nodes@.len(),
    ensures
        err_agrees(
            r,
            froms_spec(
                node_views(nodes@),
                id@,
                element_children(node_views(nodes@), k as int),
                side@,
                stage,
                Seq::empty(),
            ),
        ),
        r matches Ok(f) ==> froms_spec(
            node_views(nodes@),
            id@,
            element_children(node_views(nodes@), k as int),
            side@,
            stage,
            Seq::empty(),
        ) == Ok::<Seq<((SelectorStage, Seq<char>), u32)>, LoadErrorView>(froms_view(f@)),
{
    let ghost nv = node_views(nodes@);
    let children = children_of(nodes, k);
    let ghost all = ints(children@);
    let mut acc: Vec<FromEntry> = Vec::new();
    let mut i: usize = 0;
    assert(all.subrange(0, all.len() as int) =~= all);
    assert(froms_view(acc@) =~= Seq::<((SelectorStage, Seq<char>), u32)>::empty());
    while i < children.len()
        invariant
            i <= children@.len(),
            nv == node_views(nodes@),
            all == ints(children@),
            all == element_children(nv, k as int),
            forall|j: int| 0 <= j < children@.len() ==> #[trigger] children@[j] < nodes@.len(),
            froms_spec(nv, id@, all, side@, stage, Seq::empty()) == froms_spec(
                nv,
                id@,
                all.subrange(i as int, all.len() as int),
                side@,
                stage,
                froms_view(acc@),
            ),
        decreases children@.len() - i,
    {
        let ghost rest = all.subrange(i as int, all.len() as int);
        assert(rest.drop_first() =~= all.subrange(i + 1, all.len() as int));
        assert(rest[0] == children@[i as int] as int);
        let c = children[i];
        assert(nv[c as int] == nodes@[c as int]@);
        let node = &nodes[c];
        if str_eq(node.name.as_str(), "from") {
            let path = match required_attr(node, "from", side) {
                Ok(p) => p,
                Err(e) => return Err(e),
            };
            let raw = match required_attr(node, "from", "precedence") {
                Ok(p) => p,
                Err(e) => return Err(e),
            };
            let p = match parse_u32_text(raw) {
                Some(p) => p,
                None => {
                    let mut reason = owned("<from> precedence `");
                    reason.append(raw);
                    reason.append("` is not a non-negative integer");
                    return Err(LoadError::InvalidRuleShape { rule_id: owned(id), reason });
                },
            };
            if has_precedence(&acc, p) {
                return Err(LoadError::DuplicatePrecedence { rule_id: owned(id), precedence: p });
            }
            let ghost before = froms_view(acc@);
            acc.push(FromEntry { selector: Selector::new(stage, owned(path)), precedence: p });
            assert(froms_view(acc@) =~= before.push(((stage, path@), p)));
        }
        i = i + 1;
    }
    assert(all.subrange(all.len() as int, all.len() as int) =~= Seq::<int>::empty());
    Ok(acc)
}

fn froms_have_wildcards(froms: &Vec<FromEntry>, count: usize) -> (r: bool)
    ensures
        r == froms_wildcards(froms_view(froms@), count as nat),
{
    let mut i: usize = 0;
    while i < froms.len()
        invariant
            i <= froms@.len(),
            forall|k: int|
                0 <= k < i ==> wildcards((#[trigger] froms_view(froms@)[k]).0.1) == count,
        decreases froms@.len() - i,
    {
        assert(froms_view(froms@)[i as int].0.1 == pattern_of(froms@[i as int].selector));
        if wildcard_count(froms[i].selector.pattern()) != count {
            return false;
        }
        i = i + 1;
    }
    true
}

/// Checks a rule's shape for its `rel` and reads its `<from>` list.
fn shaped_froms(
    nodes: &Vec<XmlNode>,
    k: usize,
    id: &str,
    rel: Rel,
    stage: SelectorStage,
    left: Option<&str>,
    right: Option<&str>,
) -> (r: Result<Vec<FromEntry>, LoadError>)
    requires
        k < nodes@.len(),
    ensures
        err_agrees(
            r,
            shaped_froms_spec(
                node_views(nodes@),
                k as int,
                id@,
                rel,
                stage,
                crate::conversion_map::opt_str_view(left),
                crate::conversion_map::opt_str_view(right),
            ),
        ),
        r matches Ok(f) ==> shaped_froms_spec(
            node_views(nodes@),
            k as int,
            id@,
            rel,
            stage,
            crate::conversion_map::opt_str_view(left),
            crate::conversion_map::opt_str_view(right),
        ) == Ok::<Seq<((SelectorStage, Seq<char>), u32)>, LoadErrorView>(froms_view(f@)),
        r matches Ok(f) ==> shape_holds(rel, left is Some, right is Some, f@.len()),
{
    match rel {
        Rel::Renamed | Rel::Moved | Rel::Retyped => {
            if left.is_none() || right.is_none() {
                return Err(shape_error(id, "requires both `left` and `right`"));
            }
            if stage == SelectorStage::Glob && wildcard_count(left.unwrap()) != wildcard_count(
                right.unwrap(),
            ) {
                return Err(
                    shape_error(
                        id,
                        "glob `left` and `right` must carry the same number of `*` wildcards",
                    ),
                );
            }
            let froms = match parse_froms(nodes, id, k, "left", stage) {
                Ok(f) => f,
                Err(e) => return Err(e),
            };
            if froms.len() > 0 {
                return Err(shape_error(id, "must not carry <from> children"));
            }
            Ok(froms)
        },
        Rel::LeftOnly => {
            if left.is_none() || right.is_some() {
                return Err(shape_error(id, "requires `left` only"));
            }
            let froms = match parse_froms(nodes, id, k, "left", stage) {
                Ok(f) => f,
                Err(e) => return Err(e),
            };
            if froms.len() > 0 {
                return Err(shape_error(id, "must not carry <from> children"));
            }
            Ok(froms)
        },
        Rel::RightOnly => {
            if right.is_none() || left.is_some() {
                return Err(shape_error(id, "requires `right` only"));
            }
            let froms = match parse_froms(nodes, id, k, "right", stage) {
                Ok(f) => f,
                Err(e) => return Err(e),
            };
            if froms.len() > 0 {
                return Err(shape_error(id, "must not carry <from> children"));
            }
            Ok(froms)
        },
        Rel::Merged => {
            if right.is_none() || left.is_some() {
                return Err(shape_error(id, "requires `right` only, plus left-side <from> entries"));
            }
            let froms = match parse_froms(nodes, id, k, "left", stage) {
                Ok(f) => f,
                Err(e) => return Err(e),
            };
            if froms.len() == 0 {
                return Err(shape_error(id, "requires at least one <from left=\"...\"/>"));
            }
            if stage == SelectorStage::Glob && !froms_have_wildcards(
                &froms,
                wildcard_count(right.unwrap()),
            ) {
                return Err(
                    shape_error(
                        id,
                        "glob `right` and every left-side <from> must carry the same number of `*` wildcards",
                    ),
                );
            }
            Ok(froms)
        },
        Rel::Split => {
            if left.is_none() || right.is_some() {
                return Err(shape_error(id, "requires `left` only, plus right-side <from> entries"));
            }
            let froms = match parse_froms(nodes, id, k, "right", stage) {
                Ok(f) => f,
                Err(e) => return Err(e),
            };
            if froms.len() == 0 {
                return Err(shape_error(id, "requires at least one <from right=\"...\"/>"));
            }
            if stage == SelectorStage::Glob && !froms_have_wildcards(
                &froms,
                wildcard_count(left.unwrap()),
            ) {
                return Err(
                    shape_error(
                        id,
                        "glob `left` and every right-side <from> must carry the same number of `*` wildcards",
                    ),
                );
            }
            Ok(froms)
        },
    }
}

fn selector_from(stage: SelectorStage, v: Option<&str>) -> (r: Option<Selector>)
    ensures
        opt_sel_view(r) == with_stage(stage, crate::conversion_map::opt_str_view(v)),
{
    match v {
        Some(p) => Some(Selector::new(stage, owned(p))),
        None => None,
    }
}

/// The shape a rule of `rel` must have.
pub open spec fn shape_holds(rel: Rel, left: bool, right: bool, froms: nat) -> bool {
    match rel {
        Rel::Renamed | Rel::Moved | Rel::Retyped => left && right,
        Rel::LeftOnly => left && !right,
        Rel::RightOnly => right && !left,
        Rel::Merged => right && !left && froms > 0,
        Rel::Split => left && !right && froms > 0,
    }
}

/// One `<rule>` element.
fn parse_rule(nodes: &Vec<XmlNode>, k: usize) -> (r: Result<Rule, LoadError>)
    requires
        k < nodes@.len(),
    ensures
        err_agrees(r, rule_spec(node_views(nodes@), k as int)),
        r matches Ok(rule) ==> rule_spec(node_views(nodes@), k as int) == Ok::<
            RuleView,
            LoadErrorView,
        >(rule_view(rule)),
        r matches Ok(rule) ==> crate::conversion_map::rule_shape_ok(rule),
{
    let node = &nodes[k];
    assert(node_views(nodes@)[k as int] == node@);
    let id = match required_attr(node, "rule", "id") {
        Ok(v) => v,
        Err(e) => return Err(e),
    };
    let rv = match required_attr(node, "rule", "rel") {
        Ok(v) => v,
        Err(e) => return Err(e),
    };
    let rel = match rel_from(rv) {
        Some(r) => r,
        None => return Err(unknown_value("rule", "rel", rv)),
    };
    let stage = match selector_stage(id, node) {
        Ok(s) => s,
        Err(e) => return Err(e),
    };
    let left = crate::xml::attribute(node, "left");
    let right = crate::xml::attribute(node, "right");
    let (fidelity_forward, fidelity_reverse) = match fidelity_pair(
        nodes,
        k,
        shape_error(id, "missing required <fidelity> child"),
    ) {
        Ok(p) => p,
        Err(e) => return Err(e),
    };
    let froms = match shaped_froms(nodes, k, id, rel, stage, left, right) {
        Ok(f) => f,
        Err(e) => return Err(e),
    };
    let rule = Rule {
        id: owned(id),
        rel,
        left: selector_from(stage, left),
        right: selector_from(stage, right),
        froms,
        fidelity_forward,
        fidelity_reverse,
    };
    assert(rule_view(rule).froms == froms_view(rule.froms@));
    Ok(rule)
}

pub open spec fn step_agrees<V>(r: Result<(), LoadError>, s: Result<V, LoadErrorView>, after: V) -> bool {
    match (r, s) {
        (Ok(_), Ok(v)) => after == v,
        (Err(e), Err(m)) => error_view(e) == m,
        _ => false,
    }
}

pub open spec fn rules_shape_ok(rules: Seq<Rule>) -> bool {
    forall|i: int| 0 <= i < rules.len() ==> crate::conversion_map::rule_shape_ok(#[trigger] rules[i])
}

pub open spec fn rule_views(rules: Seq<Rule>) -> Seq<RuleView> {
    rules.map_values(|r: Rule| rule_view(r))
}

pub open spec fn flip_views(f: Seq<FlipEntry>) -> Seq<(Seq<char>, Seq<char>, Seq<char>)> {
    f.map_values(|x: FlipEntry| (x.path@, x.from_cocos.0@, x.to_cocos.0@))
}

pub open spec fn redefine_views(r: Seq<RedefineEntry>) -> Seq<
    ((SelectorStage, Seq<char>), Fidelity, Fidelity),
> {
    r.map_values(|x: RedefineEntry| (sel_view(x.selector), x.fidelity_forward, x.fidelity_reverse))
}

fn has_rule_id(rules: &Vec<Rule>, id: &str) -> (r: bool)
    ensures
        r == exists|i: int| 0 <= i < rule_views(rules@).len() && (#[trigger] rule_views(rules@)[i]).id == id@,
{
    let mut i: usize = 0;
    while i < rules.len()
        invariant
            i <= rules@.len(),
            forall|k: int| 0 <= k < i ==> (#[trigger] rule_views(rules@)[k]).id != id@,
        decreases rules@.len() - i,
    {
        assert(rule_views(rules@)[i as int].id == rules@[i as int].id@);
        if str_eq(rules[i].id.as_str(), id) {
            return true;
        }
        i = i + 1;
    }
    false
}

/// The `<rule>` children of `<rules>` node `k`, appended in order.
#[verifier::loop_isolation(false)]
fn parse_rules(nodes: &Vec<XmlNode>, k: usize, rules: &mut Vec<Rule>) -> (r: Result<(), LoadError>)
    requires
        k < nodes@.len(),
    ensures
        step_agrees(
            r,
            rules_spec(
                node_views(nodes@),
                element_children(node_views(nodes@), k as int),
                rule_views(old(rules)@),
            ),
            rule_views(final(rules)@),
        ),
        rules_shape_ok(old(rules)@) ==> rules_shape_ok(final(rules)@),
{
    let ghost nv = node_views(nodes@);
    let children = children_of(nodes, k);
    let ghost all = ints(children@);
    let ghost start = rule_views(rules@);
    let mut i: usize = 0;
    assert(all.subrange(0, all.len() as int) =~= all);
    while i < children.len()
        invariant
            i <= children@.len(),
            nv == node_views(nodes@),
            all == ints(children@),
            all == element_children(nv, k as int),
            forall|j: int| 0 <= j < children@.len() ==> #[trigger] children@[j] < nodes@.len(),
            rules_spec(nv, all, start) == rules_spec(
                nv,
                all.subrange(i as int, all.len() as int),
                rule_views(rules@),
            ),
            rules_shape_ok(old(rules)@) ==> rules_shape_ok(rules@),
        decreases children@.len() - i,
    {
        let ghost rest = all.subrange(i as int, all.len() as int);
        assert(rest.drop_first() =~= all.subrange(i + 1, all.len() as int));
        assert(rest[0] == children@[i as int] as int);
        let c = children[i];
        assert(nv[c as int] == nodes@[c as int]@);
        if str_eq(nodes[c].name.as_str(), "rule") {
            let rule = match parse_rule(nodes, c) {
                Ok(r) => r,
                Err(e) => return Err(e),
            };
            if has_rule_id(rules, rule.id.as_str()) {
                return Err(LoadError::DuplicateRuleId(rule.id));
            }
            let ghost before = rule_views(rules@);
            let ghost rv = rule_view(rule);
            let ghost old_rules = rules@;
            rules.push(rule);
            assert(rule_views(rules@) =~= before.push(rv));
            assert(rules_shape_ok(old_rules) ==> rules_shape_ok(rules@)) by {
                if rules_shape_ok(old_rules) {
                    assert forall|j: int| 0 <= j < rules@.len() implies crate::conversion_map::rule_shape_ok(
                        #[trigger] rules@[j],
                    ) by {
                        if j < old_rules.len() {
                            assert(rules@[j] == old_rules[j]);
                        }
                    }
                }
            }
        }
        i = i + 1;
    }
    assert(all.subrange(all.len() as int, all.len() as int) =~= Seq::<int>::empty());
    Ok(())
}

fn has_flip_path(flips: &Vec<FlipEntry>, path: &str) -> (r: bool)
    ensures
        r == exists|i: int| 0 <= i < flip_views(flips@).len() && (#[trigger] flip_views(flips@)[i]).0 == path@,
{
    let mut i: usize = 0;
    while i < flips.len()
        invariant
            i <= flips@.len(),
            forall|k: int| 0 <= k < i ==> (#[trigger] flip_views(flips@)[k]).0 != path@,
        decreases flips@.len() - i,
    {
        assert(flip_views(flips@)[i as int].0 == flips@[i as int].path@);
        if str_eq(flips[i].path.as_str(), path) {
            return true;
        }
        i = i + 1;
    }
    false
}

/// The `<flip>` children of `<cocos>` node `k`, appended in order.
#[verifier::loop_isolation(false)]
fn parse_flips(
    nodes: &Vec<XmlNode>,
    k: usize,
    from: &CocosConvention,
    to: &CocosConvention,
    flips: &mut Vec<FlipEntry>,
) -> (r: Result<(), LoadError>)
    requires
        k < nodes@.len(),
    ensures
        step_agrees(
            r,
            flips_spec(
                node_views(nodes@),
                element_children(node_views(nodes@), k as int),
                from.0@,
                to.0@,
                flip_views(old(flips)@),
            ),
            flip_views(final(flips)@),
        ),
{
    let ghost nv = node_views(nodes@);
    let children = children_of(nodes, k);
    let ghost all = ints(children@);
    let ghost start = flip_views(flips@);
    let mut i: usize = 0;
    assert(all.subrange(0, all.len() as int) =~= all);
    while i < children.len()
        invariant
            i <= children@.len(),
            nv == node_views(nodes@),
            all == ints(children@),
            all == element_children(nv, k as int),
            forall|j: int| 0 <= j < children@.len() ==> #[trigger] children@[j] < nodes@.len(),
            flips_spec(nv, all, from.0@, to.0@, start) == flips_spec(
                nv,
                all.subrange(i as int, all.len() as int),
                from.0@,
                to.0@,
                flip_views(flips@),
            ),
        decreases children@.len() - i,
    {
        let ghost rest = all.subrange(i as int, all.len() as int);
        assert(rest.drop_first() =~= all.subrange(i + 1, all.len() as int));
        assert(rest[0] == children@[i as int] as int);
        let c = children[i];
        assert(nv[c as int] == nodes@[c as int]@);
        if str_eq(nodes[c].name.as_str(), "flip") {
            let path = match required_attr(&nodes[c], "flip", "path") {
                Ok(p) => p,
                Err(e) => return Err(e),
            };
            if has_flip_path(flips, path) {
                return Err(LoadError::DuplicateFlipPath(owned(path)));
            }
            let ghost before = flip_views(flips@);
            flips.push(
                FlipEntry { path: owned(path), from_cocos: from.duplicate(), to_cocos: to.duplicate() },
            );
            assert(flip_views(flips@) =~= before.push((path@, from.0@, to.0@)));
        }
        i = i + 1;
    }
    assert(all.subrange(all.len() as int, all.len() as int) =~= Seq::<int>::empty());
    Ok(())
}

/// A COCOS convention attribute, or the error naming what is wrong with it.
fn cocos_attr(node: &XmlNode, attribute: &str) -> (r: Result<CocosConvention, LoadError>)
    ensures
        match required(node@, "cocos"@, attribute@) {
            Err(e) => r matches Err(x) && error_view(x) == e,
            Ok(v) => if cocos_ok(v) {
                r matches Ok(c) && c.0@ == v
            } else {
                r matches Err(x) && error_view(x) == LoadErrorView::InvalidCocosConvention(v)
            },
        },
{
    let v = match required_attr(node, "cocos", attribute) {
        Ok(v) => v,
        Err(e) => return Err(e),
    };
    if !is_cocos(v) {
        return Err(LoadError::InvalidCocosConvention(owned(v)));
    }
    Ok(CocosConvention(owned(v)))
}

/// One `<transforms>` child.
fn parse_transform_child(
    nodes: &Vec<XmlNode>,
    c: usize,
    flips: &mut Vec<FlipEntry>,
    redefines: &mut Vec<RedefineEntry>,
) -> (r: Result<(), LoadError>)
    requires
        c < nodes@.len(),
    ensures
        step_agrees(
            r,
            transform_child_spec(
                node_views(nodes@),
                c as int,
                flip_views(old(flips)@),
                redefine_views(old(redefines)@),
            ),
            (flip_views(final(flips)@), redefine_views(final(redefines)@)),
        ),
{
    let node = &nodes[c];
    assert(node_views(nodes@)[c as int] == node@);
    if str_eq(node.name.as_str(), "cocos") {
        let from = match cocos_attr(node, "from") {
            Ok(x) => x,
            Err(e) => return Err(e),
        };
        let to = match cocos_attr(node, "to") {
            Ok(x) => x,
            Err(e) => return Err(e),
        };
        parse_flips(nodes, c, &from, &to, flips)
    } else if str_eq(node.name.as_str(), "redefine") {
        let pattern = match required_attr(node, "redefine", "glob") {
            Ok(p) => p,
            Err(e) => return Err(e),
        };
        match required_attr(node, "redefine", "left-units") {
            Ok(_) => {},
            Err(e) => return Err(e),
        }
        match required_attr(node, "redefine", "right-units") {
            Ok(_) => {},
            Err(e) => return Err(e),
        }
        let (fidelity_forward, fidelity_reverse) = match fidelity_pair(
            nodes,
            c,
            missing_attribute("redefine", "fidelity"),
        ) {
            Ok(p) => p,
            Err(e) => return Err(e),
        };
        let ghost before = redefine_views(redefines@);
        redefines.push(
            RedefineEntry {
                selector: Selector::new(SelectorStage::Glob, owned(pattern)),
                fidelity_forward,
                fidelity_reverse,
            },
        );
        assert(redefine_views(redefines@) =~= before.push(
            ((SelectorStage::Glob, pattern@), fidelity_forward, fidelity_reverse),
        ));
        Ok(())
    } else {
        Ok(())
    }
}

/// The children of `<transforms>` node `k`, in order.
#[verifier::loop_isolation(false)]
fn parse_transforms(
    nodes: &Vec<XmlNode>,
    k: usize,
    flips: &mut Vec<FlipEntry>,
    redefines: &mut Vec<RedefineEntry>,
) -> (r: Result<(), LoadError>)
    requires
        k < nodes@.len(),
    ensures
        step_agrees(
            r,
            transforms_spec(
                node_views(nodes@),
                element_children(node_views(nodes@), k as int),
                flip_views(old(flips)@),
                redefine_views(old(redefines)@),
            ),
            (flip_views(final(flips)@), redefine_views(final(redefines)@)),
        ),
{
    let ghost nv = node_views(nodes@);
    let children = children_of(nodes, k);
    let ghost all = ints(children@);
    let ghost start = (flip_views(flips@), redefine_views(redefines@));
    let mut i: usize = 0;
    assert(all.subrange(0, all.len() as int) =~= all);
    while i < children.len()
        invariant
            i <= children@.len(),
            nv == node_views(nodes@),
            all == ints(children@),
            all == element_children(nv, k as int),
            forall|j: int| 0 <= j < children@.len() ==> #[trigger] children@[j] < nodes@.len(),
            transforms_spec(nv, all, start.0, start.1) == transforms_spec(
                nv,
                all.subrange(i as int, all.len() as int),
                flip_views(flips@),
                redefine_views(redefines@),
            ),
        decreases children@.len() - i,
    {
        let ghost rest = all.subrange(i as int, all.len() as int);
        assert(rest.drop_first() =~= all.subrange(i + 1, all.len() as int));
        assert(rest[0] == children@[i as int] as int);
        let c = children[i];
        match parse_transform_child(nodes, c, flips, redefines) {
            Ok(_) => {},
            Err(e) => return Err(e),
        }
        i = i + 1;
    }
    assert(all.subrange(all.len() as int, all.len() as int) =~= Seq::<int>::empty());
    Ok(())
}

/// What has been read from the root element's children so far.
struct Loading {
    left: Option<Side>,
    right: Option<Side>,
    default_identical: bool,
    rules: Vec<Rule>,
    flips: Vec<FlipEntry>,
    redefines: Vec<RedefineEntry>,
}

spec fn side_view(s: Option<Side>) -> Option<(Seq<char>, Seq<char>)> {
    match s {
        Some(x) => Some((x.dd.0@, x.cocos.0@)),
        None => None,
    }
}

spec fn loading_view(l: Loading) -> LoadState {
    LoadState {
        left: side_view(l.left),
        right: side_view(l.right),
        default_identical: l.default_identical,
        rules: rule_views(l.rules@),
        flips: flip_views(l.flips@),
        redefines: redefine_views(l.redefines@),
    }
}

/// One child of the root element.
fn parse_root_child(nodes: &Vec<XmlNode>, c: usize, st: &mut Loading) -> (r: Result<(), LoadError>)
    requires
        c < nodes@.len(),
    ensures
        step_agrees(
            r,
            root_child_spec(node_views(nodes@), c as int, loading_view(*old(st))),
            loading_view(*final(st)),
        ),
        rules_shape_ok(old(st).rules@) ==> rules_shape_ok(final(st).rules@),
{
    let node = &nodes[c];
    assert(node_views(nodes@)[c as int] == node@);
    if str_eq(node.name.as_str(), "side") {
        let id = match required_attr(node, "side", "id") {
            Ok(v) => v,
            Err(e) => return Err(e),
        };
        let dd = match required_attr(node, "side", "dd") {
            Ok(v) => v,
            Err(e) => return Err(e),
        };
        if !is_artifact_dd(dd) {
            return Err(LoadError::InvalidArtifactDdVersion(owned(dd)));
        }
        let cocos = match required_attr(node, "side", "cocos") {
            Ok(v) => v,
            Err(e) => return Err(e),
        };
        if !is_cocos(cocos) {
            return Err(LoadError::InvalidCocosConvention(owned(cocos)));
        }
        let side = Side {
            dd: ArtifactDdVersion(owned(dd)),
            cocos: CocosConvention(owned(cocos)),
        };
        if str_eq(id, "left") {
            st.left = Some(side);
            Ok(())
        } else if str_eq(id, "right") {
            st.right = Some(side);
            Ok(())
        } else {
            Err(unknown_value("side", "id", id))
        }
    } else if str_eq(node.name.as_str(), "default") {
        let rel = match required_attr(node, "default", "rel") {
            Ok(v) => v,
            Err(e) => return Err(e),
        };
        if !str_eq(rel, "identical") {
            return Err(unknown_value("default", "rel", rel));
        }
        st.default_identical = true;
        Ok(())
    } else if str_eq(node.name.as_str(), "rules") {
        parse_rules(nodes, c, &mut st.rules)
    } else if str_eq(node.name.as_str(), "transforms") {
        parse_transforms(nodes, c, &mut st.flips, &mut st.redefines)
    } else {
        Ok(())
    }
}

/// The children of root element `root`, in order.
#[verifier::loop_isolation(false)]
fn parse_root_children(nodes: &Vec<XmlNode>, root: usize, st: &mut Loading) -> (r: Result<
    (),
    LoadError,
>)
    requires
        root < nodes@.len(),
    ensures
        step_agrees(
            r,
            root_children_spec(
                node_views(nodes@),
                element_children(node_views(nodes@), root as int),
                loading_view(*old(st)),
            ),
            loading_view(*final(st)),
        ),
        rules_shape_ok(old(st).rules@) ==> rules_shape_ok(final(st).rules@),
{
    let ghost nv = node_views(nodes@);
    let children = children_of(nodes, root);
    let ghost all = ints(children@);
    let ghost start = loading_view(*st);
    let mut i: usize = 0;
    assert(all.subrange(0, all.len() as int) =~= all);
    while i < children.len()
        invariant
            i <= children@.len(),
            nv == node_views(nodes@),
            all == ints(children@),
            all == element_children(nv, root as int),
            forall|j: int| 0 <= j < children@.len() ==> #[trigger] children@[j] < nodes@.len(),
            root_children_spec(nv, all, start) == root_children_spec(
                nv,
                all.subrange(i as int, all.len() as int),
                loading_view(*st),
            ),
            rules_shape_ok(old(st).rules@) ==> rules_shape_ok(st.rules@),
        decreases children@.len() - i,
    {
        let ghost rest = all.subrange(i as int, all.len() as int);
        assert(rest.drop_first() =~= all.subrange(i + 1, all.len() as int));
        assert(rest[0] == children@[i as int] as int);
        let c = children[i];
        match parse_root_child(nodes, c, st) {
            Ok(_) => {},
            Err(e) => return Err(e),
        }
        i = i + 1;
    }
    assert(all.subrange(all.len() as int, all.len() as int) =~= Seq::<int>::empty());
    Ok(())
}

pub open spec fn source_views(s: Seq<SourceEntry>) -> Seq<SourceV> {
    s.map_values(|e: SourceEntry| source_view(e))
}

proof fn lemma_push_source(s: Seq<SourceEntry>, x: SourceEntry, rules: Seq<Rule>, rel: Rel)
    requires
        sources_from_froms(s, rules, rel),
        source_from_froms(x, rules, rel),
    ensures
        sources_from_froms(s.push(x), rules, rel),
{
    assert forall|i: int| 0 <= i < s.push(x).len() implies source_from_froms(
        #[trigger] s.push(x)[i],
        rules,
        rel,
    ) by {
        if i < s.len() {
            assert(s.push(x)[i] == s[i]);
        }
    }
}

/// The source entries of `rules`, per role, in rule order.
fn build_sources(rules: &Vec<Rule>) -> (r: (Vec<SourceEntry>, Vec<SourceEntry>))
    requires
        rules_shape_ok(rules@),
    ensures
        (source_views(r.0@), source_views(r.1@)) == sources_spec(rule_views(rules@), rules@.len()),
        forall|i: int| 0 <= i < r.0@.len() ==> #[trigger] r.0@[i].rule_index < rules@.len(),
        forall|i: int| 0 <= i < r.1@.len() ==> #[trigger] r.1@[i].rule_index < rules@.len(),
        sources_avoid(r.0@, rules@, Rel::RightOnly),
        sources_avoid(r.1@, rules@, Rel::LeftOnly),
        sources_from_froms(r.0@, rules@, Rel::Merged),
        sources_from_froms(r.1@, rules@, Rel::Split),
{
    let ghost rv = rule_views(rules@);
    let mut left: Vec<SourceEntry> = Vec::new();
    let mut right: Vec<SourceEntry> = Vec::new();
    let mut i: usize = 0;
    assert(source_views(left@) =~= Seq::<SourceV>::empty());
    assert(source_views(right@) =~= Seq::<SourceV>::empty());
    while i < rules.len()
        invariant
            i <= rules@.len(),
            rv == rule_views(rules@),
            rules_shape_ok(rules@),
            (source_views(left@), source_views(right@)) == sources_spec(rv, i as nat),
            forall|k: int| 0 <= k < left@.len() ==> #[trigger] left@[k].rule_index < i,
            forall|k: int| 0 <= k < right@.len() ==> #[trigger] right@[k].rule_index < i,
            sources_avoid(left@, rules@, Rel::RightOnly),
            sources_avoid(right@, rules@, Rel::LeftOnly),
            sources_from_froms(left@, rules@, Rel::Merged),
            sources_from_froms(right@, rules@, Rel::Split),
        decreases rules@.len() - i,
    {
        let rule = &rules[i];
        assert(crate::conversion_map::rule_shape_ok(*rule));
        assert(rv[i as int] == rule_view(*rule));
        let ghost (a, b) = rule_sources(rv[i as int], i);
        let ghost l0 = source_views(left@);
        let ghost r0 = source_views(right@);
        match rule.rel {
            Rel::Renamed | Rel::Moved | Rel::Retyped => {
                left.push(
                    SourceEntry {
                        selector: rule.left.as_ref().unwrap().duplicate(),
                        rule_index: i,
                        precedence: None,
                    },
                );
                right.push(
                    SourceEntry {
                        selector: rule.right.as_ref().unwrap().duplicate(),
                        rule_index: i,
                        precedence: None,
                    },
                );
                assert(source_views(left@) =~= l0 + a);
                assert(source_views(right@) =~= r0 + b);
            },
            Rel::LeftOnly => {
                left.push(
                    SourceEntry {
                        selector: rule.left.as_ref().unwrap().duplicate(),
                        rule_index: i,
                        precedence: None,
                    },
                );
                assert(source_views(left@) =~= l0 + a);
                assert(source_views(right@) =~= r0 + b);
            },
            Rel::RightOnly => {
                right.push(
                    SourceEntry {
                        selector: rule.right.as_ref().unwrap().duplicate(),
                        rule_index: i,
                        precedence: None,
                    },
                );
                assert(source_views(left@) =~= l0 + a);
                assert(source_views(right@) =~= r0 + b);
            },
            Rel::Merged => {
                let mut k: usize = 0;
                let ghost fv = rv[i as int].froms;
                while k < rule.froms.len()
                    invariant
                        k <= rule.froms@.len(),
                        fv == froms_view(rule.froms@),
                        source_views(left@) == l0 + fv.map_values(
                            |f: ((SelectorStage, Seq<char>), u32)| (f.0, i, Some(f.1)),
                        ).subrange(0, k as int),
                        forall|j: int| 0 <= j < left@.len() ==> #[trigger] left@[j].rule_index
                            <= i,
                        i < rules@.len(),
                        rules@[i as int].rel == Rel::Merged,
                        sources_avoid(left@, rules@, Rel::RightOnly),
                        sources_from_froms(left@, rules@, Rel::Merged),
                        *rule == rules@[i as int],
                    decreases rule.froms@.len() - k,
                {
                    let ghost before = source_views(left@);
                    let ghost prev = left@;
                    let entry = SourceEntry {
                        selector: rule.froms[k].selector.duplicate(),
                        rule_index: i,
                        precedence: Some(rule.froms[k].precedence),
                    };
                    proof {
                        assert(rules@[i as int].froms@[k as int].selector == entry.selector);
                        lemma_push_source(prev, entry, rules@, Rel::Merged);
                    }
                    left.push(entry);
                    assert(source_views(left@) =~= before.push(
                        (fv[k as int].0, i, Some(fv[k as int].1)),
                    ));
                    k = k + 1;
                    assert(source_views(left@) =~= l0 + fv.map_values(
                        |f: ((SelectorStage, Seq<char>), u32)| (f.0, i, Some(f.1)),
                    ).subrange(0, k as int));
                }
                right.push(
                    SourceEntry {
                        selector: rule.right.as_ref().unwrap().duplicate(),
                        rule_index: i,
                        precedence: None,
                    },
                );
                assert(fv.map_values(
                    |f: ((SelectorStage, Seq<char>), u32)| (f.0, i, Some(f.1)),
                ).subrange(0, fv.len() as int) =~= fv.map_values(
                    |f: ((SelectorStage, Seq<char>), u32)| (f.0, i, Some(f.1)),
                ));
                assert(source_views(left@) =~= l0 + a);
                assert(source_views(right@) =~= r0 + b);
            },
            Rel::Split => {
                left.push(
                    SourceEntry {
                        selector: rule.left.as_ref().unwrap().duplicate(),
                        rule_index: i,
                        precedence: None,
                    },
                );
                let mut k: usize = 0;
                let ghost fv = rv[i as int].froms;
                while k < rule.froms.len()
                    invariant
                        k <= rule.froms@.len(),
                        fv == froms_view(rule.froms@),
                        source_views(right@) == r0 + fv.map_values(
                            |f: ((SelectorStage, Seq<char>), u32)| (f.0, i, Some(f.1)),
                        ).subrange(0, k as int),
                        forall|j: int| 0 <= j < right@.len() ==> #[trigger] right@[j].rule_index
                            <= i,
                        i < rules@.len(),
                        rules@[i as int].rel == Rel::Split,
                        sources_avoid(right@, rules@, Rel::LeftOnly),
                        sources_from_froms(right@, rules@, Rel::Split),
                        *rule == rules@[i as int],
                    decreases rule.froms@.len() - k,
                {
                    let ghost before = source_views(right@);
                    let ghost prev = right@;
                    let entry = SourceEntry {
                        selector: rule.froms[k].selector.duplicate(),
                        rule_index: i,
                        precedence: Some(rule.froms[k].precedence),
                    };
                    proof {
                        assert(rules@[i as int].froms@[k as int].selector == entry.selector);
                        lemma_push_source(prev, entry, rules@, Rel::Split);
                    }
                    right.push(entry);
                    assert(source_views(right@) =~= before.push(
                        (fv[k as int].0, i, Some(fv[k as int].1)),
                    ));
                    k = k + 1;
                    assert(source_views(right@) =~= r0 + fv.map_values(
                        |f: ((SelectorStage, Seq<char>), u32)| (f.0, i, Some(f.1)),
                    ).subrange(0, k as int));
                }
                assert(fv.map_values(
                    |f: ((SelectorStage, Seq<char>), u32)| (f.0, i, Some(f.1)),
                ).subrange(0, fv.len() as int) =~= fv.map_values(
                    |f: ((SelectorStage, Seq<char>), u32)| (f.0, i, Some(f.1)),
                ));
                assert(source_views(left@) =~= l0 + a);
                assert(source_views(right@) =~= r0 + b);
            },
        }
        i = i + 1;
    }
    (left, right)
}

pub open spec fn str_views(v: Seq<&str>) -> Seq<Seq<char>> {
    v.map_values(|x: &str| x@)
}

proof fn lemma_first_overlap_unique(g: Seq<Seq<char>>, i: int, j: int)
    requires
        is_first_overlap(g, i, j),
    ensures
        first_overlap(g) == Some((i, j)),
{
    let (a, b) = choose|a: int, b: int| is_first_overlap(g, a, b);
    assert(is_first_overlap(g, a, b));
    if a < i || (a == i && b < j) {
        assert(!globs_overlap_spec(g[a], g[b]));
    }
    if i < a || (i == a && j < b) {
        assert(!globs_overlap_spec(g[i], g[j]));
    }
}

/// The first pair of `g`, in lexicographic order, that could match one
/// path.
fn first_overlapping_pair(g: &Vec<&str>) -> (r: Option<(usize, usize)>)
    ensures
        match r {
            Some((i, j)) => first_overlap(str_views(g@)) == Some((i as int, j as int)) && i < j
                < g@.len(),
            None => first_overlap(str_views(g@)) is None,
        },
{
    let ghost gv = str_views(g@);
    let mut i: usize = 0;
    while i < g.len()
        invariant
            i <= g@.len(),
            gv == str_views(g@),
            forall|a: int, b: int|
                0 <= a < b < gv.len() && a < i ==> !#[trigger] globs_overlap_spec(gv[a], gv[b]),
        decreases g@.len() - i,
    {
        let mut j: usize = i + 1;
        while j < g.len()
            invariant
                i < g@.len(),
                i + 1 <= j <= g@.len(),
                gv == str_views(g@),
                forall|a: int, b: int|
                    0 <= a < b < gv.len() && (a < i || (a == i && b < j))
                        ==> !#[trigger] globs_overlap_spec(gv[a], gv[b]),
            decreases g@.len() - j,
        {
            assert(gv[i as int] == g@[i as int]@ && gv[j as int] == g@[j as int]@);
            if globs_overlap(g[i], g[j]) {
                proof {
                    assert(is_first_overlap(gv, i as int, j as int));
                    lemma_first_overlap_unique(gv, i as int, j as int);
                }
                return Some((i, j));
            }
            j = j + 1;
        }
        i = i + 1;
    }
    assert(!exists|a: int, b: int| is_first_overlap(gv, a, b)) by {
        if exists|a: int, b: int| is_first_overlap(gv, a, b) {
            let (a, b) = choose|a: int, b: int| is_first_overlap(gv, a, b);
            assert(globs_overlap_spec(gv[a], gv[b]));
        }
    }
    None
}

proof fn lemma_first_repeat_unique(sv: Seq<SourceV>, j: int)
    requires
        0 <= j < sv.len(),
        repeats_earlier(sv, j),
        forall|k: int| 0 <= k < j ==> !repeats_earlier(sv, k),
    ensures
        first_repeat(sv) == Some(j),
{
    let c = choose|c: int|
        0 <= c < sv.len() && repeats_earlier(sv, c) && forall|k: int|
            0 <= k < c ==> !repeats_earlier(sv, k);
    if c < j {
        assert(!repeats_earlier(sv, c));
    }
    if c > j {
        assert(!repeats_earlier(sv, j));
    }
}

proof fn lemma_glob_filter_step(sv: Seq<SourceV>, j: int)
    requires
        0 <= j < sv.len(),
    ensures
        sv.subrange(0, j + 1).filter(|e: SourceV| e.0.0 == SelectorStage::Glob) == if sv[j].0.0
            == SelectorStage::Glob {
            sv.subrange(0, j).filter(|e: SourceV| e.0.0 == SelectorStage::Glob).push(sv[j])
        } else {
            sv.subrange(0, j).filter(|e: SourceV| e.0.0 == SelectorStage::Glob)
        },
{
    assert(sv.subrange(0, j + 1).drop_last() =~= sv.subrange(0, j));
    reveal_with_fuel(Seq::filter, 1);
}

/// Whether entry `j` repeats the selector of an earlier entry, for a
/// non-glob entry.
fn repeats_earlier_source(sources: &Vec<SourceEntry>, j: usize) -> (r: bool)
    requires
        j < sources@.len(),
    ensures
        r == repeats_earlier(source_views(sources@), j as int),
{
    let ghost sv = source_views(sources@);
    let stage = sources[j].selector.stage();
    if stage == SelectorStage::Glob {
        return false;
    }
    let mut i: usize = 0;
    while i < j
        invariant
            i <= j < sources@.len(),
            sv == source_views(sources@),
            stage == sv[j as int].0.0,
            stage != SelectorStage::Glob,
            forall|k: int| 0 <= k < i ==> sv[k].0 != sv[j as int].0,
        decreases j - i,
    {
        assert(sv[i as int].0 == sel_view(sources@[i as int].selector));
        assert(sv[j as int].0 == sel_view(sources@[j as int].selector));
        if sources[i].selector.stage() == stage && str_eq(
            sources[i].selector.pattern(),
            sources[j].selector.pattern(),
        ) {
            assert(sv[i as int].0 == sv[j as int].0);
            return true;
        }
        i = i + 1;
    }
    false
}

/// The first non-glob entry that repeats an earlier selector.
fn first_repeated_source(sources: &Vec<SourceEntry>) -> (r: Option<usize>)
    ensures
        match r {
            Some(j) => first_repeat(source_views(sources@)) == Some(j as int) && j < sources@.len(),
            None => first_repeat(source_views(sources@)) is None,
        },
{
    let ghost sv = source_views(sources@);
    let mut j: usize = 0;
    while j < sources.len()
        invariant
            j <= sources@.len(),
            sv == source_views(sources@),
            forall|k: int| 0 <= k < j ==> !repeats_earlier(sv, k),
        decreases sources@.len() - j,
    {
        if repeats_earlier_source(sources, j) {
            proof {
                lemma_first_repeat_unique(sv, j as int);
            }
            return Some(j);
        }
        j = j + 1;
    }
    None
}

/// The patterns of the glob entries, in order.
fn glob_source_patterns(sources: &Vec<SourceEntry>) -> (globs: Vec<&str>)
    ensures
        str_views(globs@) == glob_patterns(source_views(sources@)),
{
    let ghost sv = source_views(sources@);
    let mut globs: Vec<&str> = Vec::new();
    let mut k: usize = 0;
    while k < sources.len()
        invariant
            k <= sources@.len(),
            sv == source_views(sources@),
            str_views(globs@) == sv.subrange(0, k as int).filter(
                |e: SourceV| e.0.0 == SelectorStage::Glob,
            ).map_values(|e: SourceV| e.0.1),
        decreases sources@.len() - k,
    {
        proof {
            lemma_glob_filter_step(sv, k as int);
        }
        assert(sv[k as int].0 == sel_view(sources@[k as int].selector));
        if sources[k].selector.stage() == SelectorStage::Glob {
            let ghost before = str_views(globs@);
            globs.push(sources[k].selector.pattern());
            assert(str_views(globs@) =~= before.push(sv[k as int].0.1));
        }
        k = k + 1;
        assert(str_views(globs@) =~= sv.subrange(0, k as int).filter(
            |e: SourceV| e.0.0 == SelectorStage::Glob,
        ).map_values(|e: SourceV| e.0.1));
    }
    assert(sv.subrange(0, sv.len() as int) =~= sv);
    globs
}

/// Rejects a source role where two selectors of one stage could claim the
/// same path: a repeated literal `Exact`/`Subtree` selector, or any
/// overlapping pair of `Glob` selectors.
fn reject_ambiguous_sources(role: &'static str, sources: &Vec<SourceEntry>) -> (r: Result<
    (),
    LoadError,
>)
    ensures
        match ambiguity_spec(role@, source_views(sources@)) {
            Ok(_) => r is Ok,
            Err(m) => r matches Err(e) && error_view(e) == m,
        },
{
    let ghost sv = source_views(sources@);
    if let Some(j) = first_repeated_source(sources) {
        assert(sv[j as int].0 == sel_view(sources@[j as int].selector));
        return Err(
            LoadError::DuplicateSourceSelector {
                role,
                stage: sources[j].selector.stage(),
                pattern: owned(sources[j].selector.pattern()),
            },
        );
    }
    let globs = glob_source_patterns(sources);
    match first_overlapping_pair(&globs) {
        Some((a, b)) => {
            assert(str_views(globs@)[a as int] == globs@[a as int]@);
            assert(str_views(globs@)[b as int] == globs@[b as int]@);
            Err(
                LoadError::OverlappingSourceSelectors {
                    role,
                    first: owned(globs[a]),
                    second: owned(globs[b]),
                },
            )
        },
        None => Ok(()),
    }
}

/// Rejects unit-redefinition globs that could claim the same right-side
/// path.
fn reject_ambiguous_redefines(redefines: &Vec<RedefineEntry>) -> (r: Result<(), LoadError>)
    ensures
        ({
            let rg = redefine_views(redefines@).map_values(
                |x: ((SelectorStage, Seq<char>), Fidelity, Fidelity)| x.0.1,
            );
            match first_overlap(rg) {
                Some((i, j)) => r matches Err(e) && error_view(e)
                    == LoadErrorView::OverlappingRedefineSelectors(rg[i], rg[j]),
                None => r is Ok,
            }
        }),
{
    let ghost rg = redefine_views(redefines@).map_values(
        |x: ((SelectorStage, Seq<char>), Fidelity, Fidelity)| x.0.1,
    );
    let mut patterns: Vec<&str> = Vec::new();
    let mut k: usize = 0;
    while k < redefines.len()
        invariant
            k <= redefines@.len(),
            rg == redefine_views(redefines@).map_values(
                |x: ((SelectorStage, Seq<char>), Fidelity, Fidelity)| x.0.1,
            ),
            str_views(patterns@) == rg.subrange(0, k as int),
        decreases redefines@.len() - k,
    {
        let ghost before = str_views(patterns@);
        patterns.push(redefines[k].selector.pattern());
        assert(rg[k as int] == pattern_of(redefines@[k as int].selector));
        assert(str_views(patterns@) =~= before.push(rg[k as int]));
        k = k + 1;
        assert(str_views(patterns@) =~= rg.subrange(0, k as int));
    }
    assert(rg.subrange(0, rg.len() as int) =~= rg);
    match first_overlapping_pair(&patterns) {
        Some((a, b)) => {
            assert(str_views(patterns@)[a as int] == patterns@[a as int]@);
            assert(str_views(patterns@)[b as int] == patterns@[b as int]@);
            Err(
                LoadError::OverlappingRedefineSelectors {
                    first: owned(patterns[a]),
                    second: owned(patterns[b]),
                },
            )
        },
        None => Ok(()),
    }
}

/// What loading the text `xml` gives: the parser's error, or what loading
/// its nodes gives.
pub open spec fn load_text_spec(xml: Seq<char>) -> Result<MapView, LoadErrorView> {
    match xml_document(xml) {
        Err(m) => Err(LoadErrorView::Xml(m)),
        Ok(nodes) => load_spec(nodes),
    }
}

/// A load result agrees with what the grammar says it is.
pub open spec fn load_agrees(r: Result<ConversionMap, LoadError>, s: Result<MapView, LoadErrorView>) -> bool {
    match s {
        Ok(m) => r matches Ok(map) && map_view(map) == m && map.wf(),
        Err(e) => r matches Err(x) && error_view(x) == e,
    }
}

impl ConversionMap {
    /// Loads a conversion-map artifact from the nodes of its parsed XML
    /// document (in document order, the document root first).
    pub fn from_xml_nodes(nodes: &Vec<XmlNode>) -> (r: Result<ConversionMap, LoadError>)
        ensures
            load_agrees(r, load_spec(node_views(nodes@))),
    {
        let ghost nv = node_views(nodes@);
        if nodes.len() == 0 {
            return Err(missing_attribute("ids-map", "ids"));
        }
        let top = children_of(nodes, 0);
        proof {
            assert(top@.map_values(|i: usize| i as int).len() == top@.len());
        }
        if top.len() == 0 {
            return Err(missing_attribute("ids-map", "ids"));
        }
        let root = top[0];
        assert(root_element(nv) == Some(root as int)) by {
            assert(top@.map_values(|i: usize| i as int)[0] == root as int);
        }
        assert(nv[root as int] == nodes@[root as int]@);
        let ids = match required_attr(&nodes[root], "ids-map", "ids") {
            Ok(v) => v,
            Err(e) => return Err(e),
        };
        let mut st = Loading {
            left: None,
            right: None,
            default_identical: false,
            rules: Vec::new(),
            flips: Vec::new(),
            redefines: Vec::new(),
        };
        assert(loading_view(st) =~= LoadState {
            left: None,
            right: None,
            default_identical: false,
            rules: Seq::empty(),
            flips: Seq::empty(),
            redefines: Seq::empty(),
        }) by {
            assert(rule_views(st.rules@) =~= Seq::empty());
            assert(flip_views(st.flips@) =~= Seq::empty());
            assert(redefine_views(st.redefines@) =~= Seq::empty());
        }
        match parse_root_children(nodes, root, &mut st) {
            Ok(_) => {},
            Err(e) => return Err(e),
        }
        let Loading { left, right, default_identical, rules, flips, redefines } = st;
        let left = match left {
            Some(s) => s,
            None => return Err(LoadError::MissingSide("left")),
        };
        let right = match right {
            Some(s) => s,
            None => return Err(LoadError::MissingSide("right")),
        };
        let (left_sources, right_sources) = build_sources(&rules);
        match reject_ambiguous_sources("left", &left_sources) {
            Ok(_) => {},
            Err(e) => return Err(e),
        }
        match reject_ambiguous_sources("right", &right_sources) {
            Ok(_) => {},
            Err(e) => return Err(e),
        }
        match reject_ambiguous_redefines(&redefines) {
            Ok(_) => {},
            Err(e) => return Err(e),
        }
        let map = ConversionMap {
            ids: owned(ids),
            left,
            right,
            default_identical,
            rules,
            sign_flips: flips,
            redefines,
            left_sources,
            right_sources,
        };
        assert(map_view(map).rules =~= rule_views(map.rules@));
        assert(map_view(map).flips =~= flip_views(map.sign_flips@));
        assert(map_view(map).redefines =~= redefine_views(map.redefines@));
        assert(map_view(map).left_sources =~= source_views(map.left_sources@));
        assert(map_view(map).right_sources =~= source_views(map.right_sources@));
        proof {
            crate::resolution_laws::lemma_unambiguous_from_spec("left"@, map.left_sources@);
            crate::resolution_laws::lemma_unambiguous_from_spec("right"@, map.right_sources@);
            crate::resolution_laws::lemma_redefines_disjoint_from_spec(map.redefines@);
            law_loaded_documents_are_consistent(nv);
            assert(load_spec(nv) == Ok::<MapView, LoadErrorView>(map_view(map)));
            lemma_consistency_from_views(map.sign_flips@, map.rules@, map.redefines@);
        }
        Ok(map)
    }

    /// Parses a conversion-map artifact from its XML text.
    ///
    /// `<include>` and `<coverage>` elements are recognised and skipped:
    /// they never affect resolution.
    pub fn load(xml: &str) -> (r: Result<ConversionMap, LoadError>)
        ensures
            load_agrees(r, load_text_spec(xml@)),
    {
        match parse_document(xml) {
            Err(m) => Err(LoadError::Xml(m)),
            Ok(nodes) => ConversionMap::from_xml_nodes(&nodes),
        }
    }
}

/// How a load error is described to a person.
pub open spec fn load_error_text(e: LoadErrorView) -> Seq<char> {
    match e {
        LoadErrorView::Xml(m) => "malformed conversion-map XML: "@ + m,
        LoadErrorView::MissingAttribute(el, at) => "<"@ + el + "> is missing required attribute `"@
            + at + "`"@,
        LoadErrorView::UnknownValue(el, at, v) => "<"@ + el + "> attribute `"@ + at
            + "` has unrecognised value `"@ + v + "`"@,
        LoadErrorView::DuplicateRuleId(id) => "duplicate rule id `"@ + id + "`"@,
        LoadErrorView::DuplicateSourceSelector(role, stage, pattern) => "duplicate "@
            + crate::selector::stage_word(stage) + " source selector on the "@ + role
            + " side: `"@ + pattern + "`"@,
        LoadErrorView::OverlappingSourceSelectors(role, a, b) => "overlapping glob source selectors on the "@
            + role + " side: `"@ + a + "` and `"@ + b + "`"@,
        LoadErrorView::OverlappingRedefineSelectors(a, b) => "overlapping <redefine> glob selectors: `"@
            + a + "` and `"@ + b + "`"@,
        LoadErrorView::DuplicatePrecedence(id, p) => "rule `"@ + id
            + "` has duplicate precedence "@ + crate::text::decimal(p as nat)
            + " among its <from> entries"@,
        LoadErrorView::InvalidRuleShape(id, reason) => "rule `"@ + id
            + "` has an invalid shape for its rel: "@ + reason,
        LoadErrorView::DuplicateFlipPath(path) => "path `"@ + path
            + "` appears in more than one <flip>"@,
        LoadErrorView::InvalidArtifactDdVersion(v) => "invalid artifact DD version `"@ + v + "`"@,
        LoadErrorView::InvalidCocosConvention(v) => "invalid COCOS convention `"@ + v + "`"@,
        LoadErrorView::MissingSide(id) => "missing required <side id=\""@ + id + "\"/>"@,
    }
}

fn cat(parts: &[&str]) -> (r: String)
    ensures
        r@ == concat_all(parts@),
{
    let mut r = String::new();
    let mut i: usize = 0;
    while i < parts.len()
        invariant
            i <= parts@.len(),
            r@ == concat_all(parts@.subrange(0, i as int)),
        decreases parts@.len() - i,
    {
        proof {
            assert(parts@.subrange(0, i as int + 1).drop_last() =~= parts@.subrange(0, i as int));
        }
        r.append(parts[i]);
        i = i + 1;
    }
    assert(parts@.subrange(0, parts@.len() as int) =~= parts@);
    r
}

/// The strings of `parts`, one after another.
pub open spec fn concat_all(parts: Seq<&str>) -> Seq<char>
    decreases parts.len(),
{
    if parts.len() == 0 {
        Seq::empty()
    } else {
        concat_all(parts.drop_last()) + parts.last()@
    }
}

impl LoadError {
    /// Describes this error to a person.
    pub fn message(&self) -> (r: String)
        ensures
            r@ == load_error_text(error_view(*self)),
    {
        let r = match self {
            LoadError::Xml(m) => cat(&["malformed conversion-map XML: ", m.as_str()]),
            LoadError::MissingAttribute { element, attribute } => cat(
                &["<", element.as_str(), "> is missing required attribute `", attribute.as_str(), "`"],
            ),
            LoadError::UnknownValue { element, attribute, value } => cat(
                &[
                    "<",
                    element.as_str(),
                    "> attribute `",
                    attribute.as_str(),
                    "` has unrecognised value `",
                    value.as_str(),
                    "`",
                ],
            ),
            LoadError::DuplicateRuleId(id) => cat(&["duplicate rule id `", id.as_str(), "`"]),
            LoadError::DuplicateSourceSelector { role, stage, pattern } => cat(
                &[
                    "duplicate ",
                    stage.word(),
                    " source selector on the ",
                    role,
                    " side: `",
                    pattern.as_str(),
                    "`",
                ],
            ),
            LoadError::OverlappingSourceSelectors { role, first, second } => cat(
                &[
                    "overlapping glob source selectors on the ",
                    role,
                    " side: `",
                    first.as_str(),
                    "` and `",
                    second.as_str(),
                    "`",
                ],
            ),
            LoadError::OverlappingRedefineSelectors { first, second } => cat(
                &[
                    "overlapping <redefine> glob selectors: `",
                    first.as_str(),
                    "` and `",
                    second.as_str(),
                    "`",
                ],
            ),
            LoadError::DuplicatePrecedence { rule_id, precedence } => {
                let p = crate::text::decimal_string(*precedence as u128);
                cat(
                    &[
                        "rule `",
                        rule_id.as_str(),
                        "` has duplicate precedence ",
                        p.as_str(),
                        " among its <from> entries",
                    ],
                )
            },
            LoadError::InvalidRuleShape { rule_id, reason } => cat(
                &["rule `", rule_id.as_str(), "` has an invalid shape for its rel: ", reason.as_str()],
            ),
            LoadError::DuplicateFlipPath(path) => cat(
                &["path `", path.as_str(), "` appears in more than one <flip>"],
            ),
            LoadError::InvalidArtifactDdVersion(v) => cat(
                &["invalid artifact DD version `", v.as_str(), "`"],
            ),
            LoadError::InvalidCocosConvention(v) => cat(
                &["invalid COCOS convention `", v.as_str(), "`"],
            ),
            LoadError::MissingSide(id) => cat(&["missing required <side id=\"", id, "\"/>"]),
        };
        proof {
            reveal_with_fuel(concat_all, 8);
        }
        r
    }
}

} // verus!
