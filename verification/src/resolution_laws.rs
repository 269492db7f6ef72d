//! What resolution promises of every map, every path and every direction.
use vstd::prelude::*;

use crate::conversion_map::{
    best_match_spec, by_precedence, candidates_spec, default_resolution, entry_matches,
    entry_specificity, explicit_resolution, fidelity_in, insert_by_precedence, is_stage_winner,
    redefines_disjoint, resolve_spec, from_precedences_distinct, redefine_in, sources_for, stage_winner, transform_for, unambiguous,
    ConversionMap,
    Direction, Fidelity, FromEntry, MatchKind, OutcomeView, RedefineEntry, RefusalReason, Rel, Rule,
    SourceEntry,
    TransformView,
};
use crate::map_load::{
    ambiguity_spec, first_overlap, first_repeat, glob_patterns, is_first_overlap, load_spec,
    map_view, repeats_earlier, SourceV, cocos_loaded, declared_flip, law_every_declared_flip_is_loaded,
    transforms_loaded,
};
use crate::selector::{
    glob_match_spec, globs_overlap_spec, law_globs_overlap_exact, pattern_of, stage_of,
    render_spec, try_match_spec, MatchView, Selector, SelectorStage,
};
use crate::xml::{element_children, root_element, XmlNodeView};

verus! {

// ---------------------------------------------------------------------------
// Every matching stage has a winner
// ---------------------------------------------------------------------------

/// The best entry of `stage` among the first `n` entries: the last of
/// those with the greatest specificity.
spec fn best_prefix(sources: Seq<SourceEntry>, stage: SelectorStage, path: Seq<char>, n: int) -> Option<
    int,
>
    decreases n,
{
    if n <= 0 {
        None
    } else {
        let prev = best_prefix(sources, stage, path, n - 1);
        if entry_matches(sources[n - 1], stage, path) && (prev is None || entry_specificity(
            sources[n - 1],
            path,
        ) >= entry_specificity(sources[prev->0], path)) {
            Some(n - 1)
        } else {
            prev
        }
    }
}

proof fn lemma_best_prefix(sources: Seq<SourceEntry>, stage: SelectorStage, path: Seq<char>, n: int)
    requires
        0 <= n <= sources.len(),
    ensures
        match best_prefix(sources, stage, path, n) {
            None => forall|j: int| 0 <= j < n ==> !#[trigger] entry_matches(sources[j], stage, path),
            Some(b) => {
                &&& 0 <= b < n
                &&& entry_matches(sources[b], stage, path)
                &&& forall|j: int|
                    0 <= j < n && #[trigger] entry_matches(sources[j], stage, path) ==> {
                        &&& entry_specificity(sources[j], path) <= entry_specificity(sources[b], path)
                        &&& (j > b ==> entry_specificity(sources[j], path) < entry_specificity(
                            sources[b],
                            path,
                        ))
                    }
            },
        },
    decreases n,
{
    if n > 0 {
        lemma_best_prefix(sources, stage, path, n - 1);
        let prev = best_prefix(sources, stage, path, n - 1);
        let e = sources[n - 1];
        if entry_matches(e, stage, path) && (prev is None || entry_specificity(e, path)
            >= entry_specificity(sources[prev->0], path)) {
            assert forall|j: int|
                0 <= j < n && #[trigger] entry_matches(sources[j], stage, path) implies entry_specificity(
                sources[j],
                path,
            ) <= entry_specificity(sources[n - 1], path) by {
                if j < n - 1 {
                    assert(prev is Some);
                }
            }
        } else {
            if prev is Some {
                let p = prev->0;
                assert forall|j: int|
                    0 <= j < n && #[trigger] entry_matches(sources[j], stage, path) implies {
                    &&& entry_specificity(sources[j], path) <= entry_specificity(sources[p], path)
                    &&& (j > p ==> entry_specificity(sources[j], path) < entry_specificity(
                        sources[p],
                        path,
                    ))
                } by {
                    if j == n - 1 {
                        assert(entry_specificity(e, path) < entry_specificity(sources[p], path));
                    }
                }
            }
        }
    }
}

proof fn lemma_stage_winner_exists(sources: Seq<SourceEntry>, stage: SelectorStage, path: Seq<char>, i: int)
    requires
        0 <= i < sources.len(),
        entry_matches(sources[i], stage, path),
    ensures
        stage_winner(sources, stage, path) is Some,
{
    lemma_best_prefix(sources, stage, path, sources.len() as int);
    let b = best_prefix(sources, stage, path, sources.len() as int)->0;
    assert(is_stage_winner(sources, stage, path, b));
}

proof fn lemma_no_stage_winner(sources: Seq<SourceEntry>, stage: SelectorStage, path: Seq<char>)
    requires
        forall|j: int| 0 <= j < sources.len() ==> !#[trigger] entry_matches(sources[j], stage, path),
    ensures
        stage_winner(sources, stage, path) is None,
{
    if exists|i: int| is_stage_winner(sources, stage, path, i) {
        let i = choose|i: int| is_stage_winner(sources, stage, path, i);
        assert(entry_matches(sources[i], stage, path));
    }
}

/// Some entry of `stage` among `sources` matches `path`.
pub open spec fn stage_applies(sources: Seq<SourceEntry>, stage: SelectorStage, path: Seq<char>) -> bool {
    exists|i: int| 0 <= i < sources.len() && #[trigger] entry_matches(sources[i], stage, path)
}

/// The stage a resolution reports, for an explicit match.
pub open spec fn resolved_stage(map: ConversionMap, path: Seq<char>, direction: Direction) -> Option<
    SelectorStage,
> {
    match resolve_spec(map, path, direction) {
        Some(e) => e.selector_stage,
        None => None,
    }
}

/// Exact selectors beat subtree selectors, which beat glob selectors: the
/// first stage with any applicable selector claims the path, whatever the
/// order the rules were written in, and within it the winning entry is the
/// most specific one; where several are equally specific, the one listed
/// last wins (no later entry of the stage matches as specifically).
pub proof fn law_exact_beats_subtree_beats_glob(map: ConversionMap, path: Seq<char>, direction: Direction)
    ensures
        ({
            let sources = sources_for(map, direction);
            &&& stage_applies(sources, SelectorStage::Exact, path) ==> resolved_stage(
                map,
                path,
                direction,
            ) == Some(SelectorStage::Exact)
            &&& !stage_applies(sources, SelectorStage::Exact, path) && stage_applies(
                sources,
                SelectorStage::Subtree,
                path,
            ) ==> resolved_stage(map, path, direction) == Some(SelectorStage::Subtree)
            &&& !stage_applies(sources, SelectorStage::Exact, path) && !stage_applies(
                sources,
                SelectorStage::Subtree,
                path,
            ) && stage_applies(sources, SelectorStage::Glob, path) ==> resolved_stage(
                map,
                path,
                direction,
            ) == Some(SelectorStage::Glob)
            &&& best_match_spec(sources, path) matches Some((stage, w)) ==> is_stage_winner(
                sources,
                stage,
                path,
                w,
            )
        }),
{
    let sources = sources_for(map, direction);
    if stage_applies(sources, SelectorStage::Exact, path) {
        let i = choose|i: int|
            0 <= i < sources.len() && #[trigger] entry_matches(sources[i], SelectorStage::Exact, path);
        lemma_stage_winner_exists(sources, SelectorStage::Exact, path, i);
    } else {
        lemma_no_stage_winner(sources, SelectorStage::Exact, path);
        if stage_applies(sources, SelectorStage::Subtree, path) {
            let i = choose|i: int|
                0 <= i < sources.len() && #[trigger] entry_matches(
                    sources[i],
                    SelectorStage::Subtree,
                    path,
                );
            lemma_stage_winner_exists(sources, SelectorStage::Subtree, path, i);
        } else {
            lemma_no_stage_winner(sources, SelectorStage::Subtree, path);
            if stage_applies(sources, SelectorStage::Glob, path) {
                let i = choose|i: int|
                    0 <= i < sources.len() && #[trigger] entry_matches(
                        sources[i],
                        SelectorStage::Glob,
                        path,
                    );
                lemma_stage_winner_exists(sources, SelectorStage::Glob, path, i);
            }
        }
    }
    if let Some((stage, w)) = best_match_spec(sources, path) {
        let c = choose|c: int| is_stage_winner(sources, stage, path, c);
        assert(is_stage_winner(sources, stage, path, c));
    }
}

/// A path no selector claims falls through to the identity default when
/// the artifact declares one, and is reported unmatched otherwise: the two
/// are never confused.
pub proof fn law_unclaimed_paths_use_only_the_default(
    map: ConversionMap,
    path: Seq<char>,
    direction: Direction,
)
    requires
        forall|i: int|
            0 <= i < sources_for(map, direction).len() ==> crate::selector::try_match_spec(
                #[trigger] sources_for(map, direction)[i].selector,
                path,
            ) is None,
    ensures
        map.default_identical ==> resolve_spec(map, path, direction) == Some(
            default_resolution(map, path, direction),
        ),
        map.default_identical ==> resolve_spec(map, path, direction)->0.match_kind
            == MatchKind::Default,
        !map.default_identical ==> resolve_spec(map, path, direction) is None,
{
    let sources = sources_for(map, direction);
    lemma_no_stage_winner(sources, SelectorStage::Exact, path);
    lemma_no_stage_winner(sources, SelectorStage::Subtree, path);
    lemma_no_stage_winner(sources, SelectorStage::Glob, path);
}

/// Every explicit resolution names the rule it came from, with the rule's
/// `rel`.
proof fn lemma_explicit_names_its_rule(
    map: ConversionMap,
    rule: Rule,
    stage: SelectorStage,
    precedence: Option<u32>,
    m: MatchView,
    path: Seq<char>,
    direction: Direction,
)
    ensures
        explicit_resolution(map, rule, stage, precedence, m, path, direction).rule_id == Some(
            rule.id@,
        ),
        explicit_resolution(map, rule, stage, precedence, m, path, direction).rel == Some(rule.rel),
{
}

/// The source entry that wins `path` on `direction`'s side, if any.
proof fn lemma_winner_in_range(sources: Seq<SourceEntry>, path: Seq<char>)
    ensures
        best_match_spec(sources, path) matches Some((_, i)) ==> 0 <= i < sources.len(),
{
    if let Some((stage, i)) = best_match_spec(sources, path) {
        assert(is_stage_winner(sources, stage, path, i));
    }
}

/// A `left_only` rule feeds only the forward direction: no reverse request
/// ever resolves through it. A forward request it claims resolves to no
/// stored source, named with the rule's declared forward fidelity (an
/// `unmappable` declaration refuses as unmappable instead). A
/// `right_only` rule is the mirror image.
pub proof fn law_one_sided_rules_keep_to_their_side(map: ConversionMap, k: int, path: Seq<char>)
    requires
        map.wf(),
        0 <= k < map.rules@.len(),
        map.rules@[k].rel == Rel::LeftOnly || map.rules@[k].rel == Rel::RightOnly,
    ensures
        ({
            let r = map.rules@[k];
            let own = if r.rel == Rel::LeftOnly {
                Direction::Forward
            } else {
                Direction::Reverse
            };
            let other = if r.rel == Rel::LeftOnly {
                Direction::Reverse
            } else {
                Direction::Forward
            };
            &&& resolve_spec(map, path, other) matches Some(e) ==> e.rule_id != Some(r.id@)
            &&& resolve_spec(map, path, own) matches Some(e) ==> (e.rule_id == Some(r.id@) ==> {
                &&& e.rel == Some(r.rel)
                &&& e.match_kind == MatchKind::Explicit
                &&& e.fidelity == fidelity_in(r, own)
                &&& e.outcome == (if fidelity_in(r, own) == Fidelity::Unmappable {
                    OutcomeView::Refusal(RefusalReason::Unmappable)
                } else {
                    OutcomeView::NoSource
                })
            })
        }),
{
    let r = map.rules@[k];
    let own = if r.rel == Rel::LeftOnly {
        Direction::Forward
    } else {
        Direction::Reverse
    };
    let other = if r.rel == Rel::LeftOnly {
        Direction::Reverse
    } else {
        Direction::Forward
    };
    let so = sources_for(map, other);
    lemma_winner_in_range(so, path);
    if let Some((stage, i)) = best_match_spec(so, path) {
        let e = so[i];
        let q = map.rules@[e.rule_index as int];
        lemma_explicit_names_its_rule(
            map,
            q,
            stage,
            e.precedence,
            try_match_spec(e.selector, path)->0,
            path,
            other,
        );
        assert(q.rel != r.rel);
        if (e.rule_index as int) < k {
            assert(map.rules@[e.rule_index as int].id@ != map.rules@[k].id@);
        } else {
            assert(map.rules@[k].id@ != map.rules@[e.rule_index as int].id@);
        }
    }
    let sw = sources_for(map, own);
    lemma_winner_in_range(sw, path);
    if let Some((stage, i)) = best_match_spec(sw, path) {
        let e = sw[i];
        let idx = e.rule_index as int;
        let q = map.rules@[idx];
        lemma_explicit_names_its_rule(
            map,
            q,
            stage,
            e.precedence,
            try_match_spec(e.selector, path)->0,
            path,
            own,
        );
        if q.id@ == r.id@ {
            if idx < k {
                assert(map.rules@[idx].id@ != map.rules@[k].id@);
            } else if k < idx {
                assert(map.rules@[k].id@ != map.rules@[idx].id@);
            }
            assert(idx == k);
        }
    }
}

/// A merged rule answering a forward request, or a split rule answering a
/// reverse one, is reached through one of its `<from>` entries: the
/// explanation carries the precedence of a `<from>` entry whose selector
/// matches the path, and a path result plans no candidates. The other
/// direction of such a rule is reached through the rule's own selector: no
/// precedence is reported, and a path result lists one candidate for each
/// `<from>` entry and resolves to the first of them.
pub proof fn law_many_to_one_rules_report_their_precedence(
    map: ConversionMap,
    k: int,
    path: Seq<char>,
    direction: Direction,
)
    requires
        map.wf(),
        0 <= k < map.rules@.len(),
        map.rules@[k].rel == Rel::Merged || map.rules@[k].rel == Rel::Split,
    ensures
        ({
            let r = map.rules@[k];
            let through_froms = (r.rel == Rel::Merged && direction == Direction::Forward) || (r.rel
                == Rel::Split && direction == Direction::Reverse);
            resolve_spec(map, path, direction) matches Some(e) ==> (e.rule_id == Some(r.id@) ==> {
                &&& through_froms ==> (e.precedence matches Some(q) && exists|j: int|
                    0 <= j < r.froms@.len() && (#[trigger] r.froms@[j]).precedence == q
                        && try_match_spec(r.froms@[j].selector, path) is Some)
                &&& through_froms ==> (e.outcome matches OutcomeView::Path(_, _, c) ==> c.len() == 0)
                &&& !through_froms ==> e.precedence is None
                &&& !through_froms ==> (e.outcome matches OutcomeView::Path(p, _, c) ==> (c.len()
                    == r.froms@.len() && r.froms@.len() >= 1 && p == c[0].path))
            })
        }),
{
    let r = map.rules@[k];
    let sources = sources_for(map, direction);
    lemma_winner_in_range(sources, path);
    if let Some((stage, i)) = best_match_spec(sources, path) {
        let e = sources[i];
        let idx = e.rule_index as int;
        let q = map.rules@[idx];
        let m = try_match_spec(e.selector, path)->0;
        lemma_explicit_names_its_rule(map, q, stage, e.precedence, m, path, direction);
        if q.id@ == r.id@ {
            if idx < k {
                assert(map.rules@[idx].id@ != map.rules@[k].id@);
            } else if k < idx {
                assert(map.rules@[k].id@ != map.rules@[idx].id@);
            }
            assert(idx == k);
            assert(is_stage_winner(sources, stage, path, i));
            assert(entry_matches(sources[i], stage, path));
            assert(crate::conversion_map::source_from_froms(
                e,
                map.rules@,
                if direction == Direction::Forward {
                    Rel::Merged
                } else {
                    Rel::Split
                },
            ));
            law_candidate_plan_follows_declared_precedence(
                map,
                r.froms@,
                m,
                direction,
                if r.rel == Rel::Merged {
                    Some(path)
                } else {
                    None
                },
            );
        }
    }
}

proof fn lemma_flip_in_finds_the_entry(flips: Seq<crate::conversion_map::FlipEntry>, i: int)
    requires
        crate::conversion_map::flip_paths_distinct(flips),
        0 <= i < flips.len(),
    ensures
        crate::conversion_map::flip_in(flips, flips[i].path@) == Some(flips[i]),
    decreases flips.len(),
{
    if i > 0 {
        let rest = flips.drop_first();
        assert(flips[0].path@ != flips[i].path@);
        assert forall|a: int, b: int| 0 <= a < b < rest.len() implies (#[trigger] rest[a]).path@
            != (#[trigger] rest[b]).path@ by {
            assert(rest[a] == flips[a + 1] && rest[b] == flips[b + 1]);
        }
        assert(rest[i - 1] == flips[i]);
        lemma_flip_in_finds_the_entry(rest, i - 1);
    }
}

/// A path named by a `<flip>` whose two COCOS conventions differ has its
/// values sign-flipped whichever way it travels, from the convention of
/// the side it comes from to that of the side it goes to: forward from the
/// block's `from` to its `to`, in reverse from `to` back to `from`. A path
/// no rule claims, under the identity default and no `<redefine>`,
/// resolves to itself with exactly that transformation.
pub proof fn law_declared_flips_apply_both_ways(map: ConversionMap, i: int, direction: Direction)
    requires
        map.wf(),
        0 <= i < map.sign_flips@.len(),
        map.sign_flips@[i].from_cocos.0@ != map.sign_flips@[i].to_cocos.0@,
    ensures
        ({
            let f = map.sign_flips@[i];
            let p = f.path@;
            let oriented = match direction {
                Direction::Forward => TransformView::SignFlip(f.from_cocos.0@, f.to_cocos.0@),
                Direction::Reverse => TransformView::SignFlip(f.to_cocos.0@, f.from_cocos.0@),
            };
            &&& transform_for(map, p, Direction::Forward) == TransformView::SignFlip(
                f.from_cocos.0@,
                f.to_cocos.0@,
            )
            &&& transform_for(map, p, Direction::Reverse) == TransformView::SignFlip(
                f.to_cocos.0@,
                f.from_cocos.0@,
            )
            &&& (map.default_identical && (forall|j: int|
                0 <= j < sources_for(map, direction).len() ==> try_match_spec(
                    #[trigger] sources_for(map, direction)[j].selector,
                    p,
                ) is None) && (forall|j: int|
                0 <= j < map.redefines@.len() ==> try_match_spec(
                    (#[trigger] map.redefines@[j]).selector,
                    p,
                ) is None)) ==> (resolve_spec(map, p, direction) matches Some(e) && e.outcome
                == OutcomeView::Path(p, oriented, Seq::empty()))
        }),
{
    let f = map.sign_flips@[i];
    let p = f.path@;
    lemma_flip_in_finds_the_entry(map.sign_flips@, i);
    if map.default_identical && (forall|j: int|
        0 <= j < sources_for(map, direction).len() ==> try_match_spec(
            #[trigger] sources_for(map, direction)[j].selector,
            p,
        ) is None) && (forall|j: int|
        0 <= j < map.redefines@.len() ==> try_match_spec((#[trigger] map.redefines@[j]).selector, p)
            is None) {
        law_default_resolution_is_identity_or_redefinition(map, p, direction);
    }
}

/// A merged rule answering a forward request resolves to its `right`
/// selector, and a split rule answering a reverse request to its `left`
/// selector: the rule's single side, rendered with what the matching
/// `<from>` captured (the suffix beneath a subtree anchor, the segments a
/// glob's `*` stood for). That `<from>` is the one carrying the reported
/// precedence, and its selector matches the requested path.
pub proof fn law_many_to_one_rules_resolve_to_their_single_side(
    map: ConversionMap,
    k: int,
    path: Seq<char>,
    direction: Direction,
)
    requires
        map.wf(),
        0 <= k < map.rules@.len(),
        (map.rules@[k].rel == Rel::Merged && direction == Direction::Forward) || (map.rules@[k].rel
            == Rel::Split && direction == Direction::Reverse),
    ensures
        ({
            let r = map.rules@[k];
            let single = if r.rel == Rel::Merged {
                r.right
            } else {
                r.left
            };
            resolve_spec(map, path, direction) matches Some(e) ==> (e.rule_id == Some(r.id@) ==> (
            e.outcome matches OutcomeView::Path(resolved, _, _) ==> exists|j: int|
                0 <= j < r.froms@.len() && e.precedence == Some((#[trigger] r.froms@[j]).precedence)
                    && (try_match_spec(r.froms@[j].selector, path) matches Some(m) && resolved
                    == render_spec(single->0, m.suffix, m.captures))))
        }),
{
    let r = map.rules@[k];
    let sources = sources_for(map, direction);
    lemma_winner_in_range(sources, path);
    if let Some((stage, i)) = best_match_spec(sources, path) {
        let e = sources[i];
        let idx = e.rule_index as int;
        let q = map.rules@[idx];
        let m = try_match_spec(e.selector, path)->0;
        lemma_explicit_names_its_rule(map, q, stage, e.precedence, m, path, direction);
        if q.id@ == r.id@ {
            if idx < k {
                assert(map.rules@[idx].id@ != map.rules@[k].id@);
            } else if k < idx {
                assert(map.rules@[k].id@ != map.rules@[idx].id@);
            }
            assert(idx == k);
            assert(is_stage_winner(sources, stage, path, i));
            assert(entry_matches(sources[i], stage, path));
            let rel = if direction == Direction::Forward {
                Rel::Merged
            } else {
                Rel::Split
            };
            assert(crate::conversion_map::source_from_froms(e, map.rules@, rel));
            let j = choose|j: int|
                0 <= j < r.froms@.len() && (#[trigger] r.froms@[j]).selector == e.selector
                    && r.froms@[j].precedence == e.precedence->0;
            assert(r.froms@[j].selector == e.selector);
        }
    }
}

/// Every `<flip>` a loaded document declares reaches the map: looking its
/// path up among the map's sign flips finds it with the two conventions of
/// its `<cocos>` block, so its values are flipped between them.
pub proof fn law_loaded_flips_reach_the_map(
    nodes: Seq<XmlNodeView>,
    map: ConversionMap,
    root: int,
    t: int,
    c: int,
    f: int,
)
    requires
        load_spec(nodes) == Ok::<crate::map_load::MapView, crate::map_load::LoadErrorView>(map_view(map)),
        map.wf(),
        root_element(nodes) == Some(root),
        element_children(nodes, root).contains(t),
        nodes[t].name == "transforms"@,
        element_children(nodes, t).contains(c),
        nodes[c].name == "cocos"@,
        element_children(nodes, c).contains(f),
        nodes[f].name == "flip"@,
    ensures
        ({
            let (p, from, to) = declared_flip(nodes, c, f);
            crate::conversion_map::flip_in(map.sign_flips@, p) matches Some(e) && e.path@ == p
                && e.from_cocos.0@ == from && e.to_cocos.0@ == to
        }),
{
    law_every_declared_flip_is_loaded(nodes);
    let m = map_view(map);
    let jt = choose|j: int| 0 <= j < element_children(nodes, root).len() && element_children(nodes, root)[j] == t;
    assert(transforms_loaded(nodes, element_children(nodes, root)[jt], m.flips));
    let jc = choose|j: int| 0 <= j < element_children(nodes, t).len() && element_children(nodes, t)[j] == c;
    assert(cocos_loaded(nodes, element_children(nodes, t)[jc], m.flips));
    let jf = choose|j: int| 0 <= j < element_children(nodes, c).len() && element_children(nodes, c)[j] == f;
    assert(m.flips.contains(declared_flip(nodes, c, element_children(nodes, c)[jf])));
    let x = declared_flip(nodes, c, f);
    let i = choose|i: int| 0 <= i < m.flips.len() && m.flips[i] == x;
    let e = map.sign_flips@[i];
    assert(m.flips[i] == (e.path@, e.from_cocos.0@, e.to_cocos.0@));
    lemma_flip_in_finds_the_entry(map.sign_flips@, i);
}

/// The fidelity a `<redefine>` declares for `direction`.
pub open spec fn redefine_fidelity(r: RedefineEntry, direction: Direction) -> Fidelity {
    match direction {
        Direction::Forward => r.fidelity_forward,
        Direction::Reverse => r.fidelity_reverse,
    }
}

proof fn lemma_redefine_in_none(entries: Seq<RedefineEntry>, path: Seq<char>, direction: Direction)
    requires
        forall|i: int| 0 <= i < entries.len() ==> try_match_spec((#[trigger] entries[i]).selector, path) is None,
    ensures
        redefine_in(entries, path, direction) is None,
    decreases entries.len(),
{
    if entries.len() > 0 {
        let rest = entries.drop_first();
        assert forall|i: int| 0 <= i < rest.len() implies try_match_spec((#[trigger] rest[i]).selector, path) is None by {
            assert(rest[i] == entries[i + 1]);
        }
        lemma_redefine_in_none(rest, path, direction);
    }
}

proof fn lemma_redefine_in_only(entries: Seq<RedefineEntry>, path: Seq<char>, direction: Direction, j: int)
    requires
        0 <= j < entries.len(),
        try_match_spec(entries[j].selector, path) is Some,
        forall|i: int|
            0 <= i < entries.len() && i != j ==> try_match_spec((#[trigger] entries[i]).selector, path) is None,
    ensures
        redefine_in(entries, path, direction) == Some(redefine_fidelity(entries[j], direction)),
    decreases entries.len(),
{
    if j > 0 {
        let rest = entries.drop_first();
        assert(try_match_spec(entries[0].selector, path) is None);
        assert(rest[j - 1] == entries[j]);
        assert forall|i: int| 0 <= i < rest.len() && i != j - 1 implies try_match_spec(
            (#[trigger] rest[i]).selector,
            path,
        ) is None by {
            assert(rest[i] == entries[i + 1]);
        }
        lemma_redefine_in_only(rest, path, direction, j - 1);
    }
}

/// In a well-formed map, a path matched by one `<redefine>` glob is
/// matched by no other.
proof fn lemma_redefine_match_unique(map: ConversionMap, path: Seq<char>, i: int, j: int)
    requires
        map.wf(),
        0 <= i < map.redefines@.len(),
        0 <= j < map.redefines@.len(),
        i != j,
        try_match_spec(map.redefines@[j].selector, path) is Some,
    ensures
        try_match_spec(map.redefines@[i].selector, path) is None,
{
    let r = map.redefines@;
    assert(r[i].selector is Glob && r[j].selector is Glob);
    if try_match_spec(r[i].selector, path) is Some {
        let a = pattern_of(r[i].selector);
        let b = pattern_of(r[j].selector);
        assert(glob_match_spec(a, path) is Some && glob_match_spec(b, path) is Some);
        if i < j {
            law_globs_overlap_exact(a, b);
        } else {
            law_globs_overlap_exact(b, a);
        }
    }
}

/// A path no selector claims, under an identity default, resolves through
/// the default: no rule, no stage, no precedence. Where a `<redefine>` glob
/// matches it, the one that matches (no other can) refuses it as a unit
/// redefinition with that redefine's declared fidelity; otherwise it
/// resolves to itself, exactly, with no candidates.
pub proof fn law_default_resolution_is_identity_or_redefinition(
    map: ConversionMap,
    path: Seq<char>,
    direction: Direction,
)
    requires
        map.wf(),
        map.default_identical,
        forall|i: int|
            0 <= i < sources_for(map, direction).len() ==> try_match_spec(
                #[trigger] sources_for(map, direction)[i].selector,
                path,
            ) is None,
    ensures
        resolve_spec(map, path, direction) matches Some(e) && {
            &&& e.rule_id is None
            &&& e.rel is None
            &&& e.match_kind == MatchKind::Default
            &&& e.selector_stage is None
            &&& e.precedence is None
            &&& forall|j: int|
                0 <= j < map.redefines@.len() && try_match_spec(
                    (#[trigger] map.redefines@[j]).selector,
                    path,
                ) is Some ==> e.outcome == OutcomeView::Refusal(RefusalReason::UnitRedefinition)
                    && e.fidelity == redefine_fidelity(map.redefines@[j], direction)
            &&& (forall|j: int|
                0 <= j < map.redefines@.len() ==> try_match_spec(
                    (#[trigger] map.redefines@[j]).selector,
                    path,
                ) is None) ==> e.fidelity == Fidelity::Exact && e.outcome == OutcomeView::Path(
                path,
                transform_for(map, path, direction),
                Seq::empty(),
            )
        },
{
    law_unclaimed_paths_use_only_the_default(map, path, direction);
    let e = default_resolution(map, path, direction);
    let r = map.redefines@;
    assert forall|j: int|
        0 <= j < r.len() && try_match_spec((#[trigger] r[j]).selector, path) is Some implies e.outcome
        == OutcomeView::Refusal(RefusalReason::UnitRedefinition) && e.fidelity == redefine_fidelity(
        r[j],
        direction,
    ) by {
        assert forall|i: int| 0 <= i < r.len() && i != j implies try_match_spec(
            (#[trigger] r[i]).selector,
            path,
        ) is None by {
            lemma_redefine_match_unique(map, path, i, j);
        }
        lemma_redefine_in_only(r, path, direction, j);
    }
    if forall|j: int| 0 <= j < r.len() ==> try_match_spec((#[trigger] r[j]).selector, path) is None {
        lemma_redefine_in_none(r, path, direction);
    }
}

// ---------------------------------------------------------------------------
// Refusals come before any plan
// ---------------------------------------------------------------------------

/// A retype refuses on shape whatever fidelity it declares, and any other
/// rule declared unmappable for the direction refuses as unmappable rather
/// than resolving a path or planning candidates.
pub proof fn law_refusals_come_before_any_plan(
    map: ConversionMap,
    rule: crate::conversion_map::Rule,
    stage: SelectorStage,
    precedence: Option<u32>,
    m: MatchView,
    path: Seq<char>,
    direction: Direction,
)
    ensures
        rule.rel == Rel::Retyped ==> explicit_resolution(
            map,
            rule,
            stage,
            precedence,
            m,
            path,
            direction,
        ).outcome == OutcomeView::Refusal(RefusalReason::UnservableRetype),
        rule.rel != Rel::Retyped && fidelity_in(rule, direction) == Fidelity::Unmappable
            ==> explicit_resolution(map, rule, stage, precedence, m, path, direction).outcome
            == OutcomeView::Refusal(RefusalReason::Unmappable),
        explicit_resolution(map, rule, stage, precedence, m, path, direction).match_kind
            == MatchKind::Explicit,
        explicit_resolution(map, rule, stage, precedence, m, path, direction).selector_stage
            == Some(stage),
{
}

/// A flip between two identical conventions is no transformation at all,
/// in either direction.
pub proof fn law_same_convention_flip_is_identity(
    map: ConversionMap,
    right_side_path: Seq<char>,
    direction: Direction,
)
    requires
        crate::conversion_map::flip_in(map.sign_flips@, right_side_path) matches Some(e)
            && e.from_cocos.0@ == e.to_cocos.0@,
    ensures
        transform_for(map, right_side_path, direction) == TransformView::Unchanged,
{
}

// ---------------------------------------------------------------------------
// Candidate plans follow declared precedence
// ---------------------------------------------------------------------------

/// `s` is in ascending precedence order.
pub open spec fn ascending(s: Seq<FromEntry>) -> bool {
    forall|i: int, j: int| 0 <= i < j < s.len() ==> s[i].precedence <= s[j].precedence
}

proof fn lemma_insert_by_precedence(x: FromEntry, s: Seq<FromEntry>)
    requires
        ascending(s),
    ensures
        ascending(insert_by_precedence(x, s)),
        insert_by_precedence(x, s).to_multiset() == s.to_multiset().insert(x),
        insert_by_precedence(x, s).len() == s.len() + 1,
    decreases s.len(),
{
    broadcast use vstd::seq_lib::group_to_multiset_ensures;

    if s.len() == 0 {
        assert(insert_by_precedence(x, s) =~= seq![x]);
        assert(seq![x] =~= Seq::<FromEntry>::empty().push(x));
    } else if s[0].precedence > x.precedence {
        let r = seq![x] + s;
        assert forall|i: int, j: int| 0 <= i < j < r.len() implies r[i].precedence
            <= r[j].precedence by {
            if i > 0 {
                assert(r[i] == s[i - 1] && r[j] == s[j - 1]);
            } else {
                assert(r[j] == s[j - 1]);
                assert(s[0].precedence <= s[j - 1].precedence || j - 1 == 0);
            }
        }
        lemma_multiset_prepend(x, s);
    } else {
        let t = s.drop_first();
        assert(ascending(t)) by {
            assert forall|i: int, j: int| 0 <= i < j < t.len() implies t[i].precedence
                <= t[j].precedence by {
                assert(t[i] == s[i + 1] && t[j] == s[j + 1]);
            }
        }
        lemma_insert_by_precedence(x, t);
        let rest = insert_by_precedence(x, t);
        let r = seq![s[0]] + rest;
        assert(insert_by_precedence(x, s) == r);
        assert forall|i: int, j: int| 0 <= i < j < r.len() implies r[i].precedence
            <= r[j].precedence by {
            if i > 0 {
                assert(r[i] == rest[i - 1] && r[j] == rest[j - 1]);
            } else {
                assert(r[j] == rest[j - 1]);
                lemma_insert_element_bound(x, t, s[0].precedence, j - 1);
            }
        }
        lemma_multiset_prepend(s[0], rest);
        lemma_multiset_prepend(s[0], t);
        assert(seq![s[0]] + t =~= s);
        assert(s.to_multiset().insert(x) =~= t.to_multiset().insert(x).insert(s[0]));
    }
}

/// Every element of `insert_by_precedence(x, t)` has precedence at least
/// `lo` when `x` and every element of `t` do.
proof fn lemma_insert_element_bound(x: FromEntry, t: Seq<FromEntry>, lo: u32, k: int)
    requires
        x.precedence >= lo,
        forall|i: int| 0 <= i < t.len() ==> #[trigger] t[i].precedence >= lo,
        0 <= k < insert_by_precedence(x, t).len(),
    ensures
        insert_by_precedence(x, t)[k].precedence >= lo,
    decreases t.len(),
{
    if t.len() == 0 {
    } else if t[0].precedence > x.precedence {
        let r = seq![x] + t;
        if k > 0 {
            assert(r[k] == t[k - 1]);
        }
    } else {
        let u = t.drop_first();
        let r = seq![t[0]] + insert_by_precedence(x, u);
        if k > 0 {
            assert forall|i: int| 0 <= i < u.len() implies #[trigger] u[i].precedence >= lo by {
                assert(u[i] == t[i + 1]);
            }
            lemma_insert_element_bound(x, u, lo, k - 1);
            assert(r[k] == insert_by_precedence(x, u)[k - 1]);
        }
    }
}

proof fn lemma_multiset_prepend(x: FromEntry, s: Seq<FromEntry>)
    ensures
        (seq![x] + s).to_multiset() == s.to_multiset().insert(x),
{
    broadcast use vstd::seq_lib::group_to_multiset_ensures;

    assert(seq![x] + s =~= s.insert(0, x));
}

proof fn lemma_by_precedence(froms: Seq<FromEntry>)
    ensures
        ascending(by_precedence(froms)),
        by_precedence(froms).to_multiset() == froms.to_multiset(),
        by_precedence(froms).len() == froms.len(),
    decreases froms.len(),
{
    broadcast use vstd::seq_lib::group_to_multiset_ensures;

    if froms.len() == 0 {
        assert(by_precedence(froms) =~= Seq::<FromEntry>::empty());
    } else {
        lemma_by_precedence(froms.drop_last());
        lemma_insert_by_precedence(froms.last(), by_precedence(froms.drop_last()));
        assert(froms.drop_last().push(froms.last()) =~= froms);
    }
}

/// Precedences strictly increase along `s`.
pub open spec fn strictly_ascending(s: Seq<FromEntry>) -> bool {
    forall|i: int, j: int| 0 <= i < j < s.len() ==> s[i].precedence < s[j].precedence
}

/// Some entry of `s` carries precedence `p`.
spec fn has_precedence(s: Seq<FromEntry>, p: u32) -> bool {
    exists|i: int| 0 <= i < s.len() && (#[trigger] s[i]).precedence == p
}

proof fn lemma_insert_strict(x: FromEntry, s: Seq<FromEntry>)
    requires
        strictly_ascending(s),
        !has_precedence(s, x.precedence),
    ensures
        strictly_ascending(insert_by_precedence(x, s)),
        forall|p: u32|
            has_precedence(insert_by_precedence(x, s), p) <==> (has_precedence(s, p) || p
                == x.precedence),
    decreases s.len(),
{
    if s.len() == 0 {
        let r = insert_by_precedence(x, s);
        assert(r =~= seq![x]);
        assert forall|p: u32| has_precedence(r, p) <==> (has_precedence(s, p) || p == x.precedence) by {
            if p == x.precedence {
                assert(r[0].precedence == p);
            }
        }
    } else if s[0].precedence > x.precedence {
        let r = seq![x] + s;
        assert forall|i: int, j: int| 0 <= i < j < r.len() implies r[i].precedence
            < r[j].precedence by {
            assert(r[j] == s[j - 1]);
            if i > 0 {
                assert(r[i] == s[i - 1]);
            } else if j - 1 > 0 {
                assert(s[0].precedence < s[j - 1].precedence);
            }
        }
        assert forall|p: u32| has_precedence(r, p) <==> (has_precedence(s, p) || p == x.precedence) by {
            if has_precedence(r, p) {
                let k = choose|k: int| 0 <= k < r.len() && (#[trigger] r[k]).precedence == p;
                if k > 0 {
                    assert(r[k] == s[k - 1]);
                }
            }
            if has_precedence(s, p) {
                let k = choose|k: int| 0 <= k < s.len() && (#[trigger] s[k]).precedence == p;
                assert(r[k + 1] == s[k]);
            }
            if p == x.precedence {
                assert(r[0] == x);
            }
        }
    } else {
        let t = s.drop_first();
        assert(s[0].precedence != x.precedence) by {
            assert(s[0].precedence == s[0].precedence);
        }
        assert(strictly_ascending(t)) by {
            assert forall|i: int, j: int| 0 <= i < j < t.len() implies t[i].precedence
                < t[j].precedence by {
                assert(t[i] == s[i + 1] && t[j] == s[j + 1]);
            }
        }
        assert(!has_precedence(t, x.precedence)) by {
            if has_precedence(t, x.precedence) {
                let k = choose|k: int| 0 <= k < t.len() && (#[trigger] t[k]).precedence == x.precedence;
                assert(s[k + 1] == t[k]);
            }
        }
        lemma_insert_strict(x, t);
        let rest = insert_by_precedence(x, t);
        let r = seq![s[0]] + rest;
        assert(insert_by_precedence(x, s) == r);
        assert forall|i: int, j: int| 0 <= i < j < r.len() implies r[i].precedence
            < r[j].precedence by {
            assert(r[j] == rest[j - 1]);
            if i > 0 {
                assert(r[i] == rest[i - 1]);
            } else {
                let q = rest[j - 1].precedence;
                assert(has_precedence(rest, q));
                if has_precedence(t, q) {
                    let k = choose|k: int| 0 <= k < t.len() && (#[trigger] t[k]).precedence == q;
                    assert(t[k] == s[k + 1]);
                }
            }
        }
        assert forall|p: u32| has_precedence(r, p) <==> (has_precedence(s, p) || p == x.precedence) by {
            if has_precedence(r, p) {
                let k = choose|k: int| 0 <= k < r.len() && (#[trigger] r[k]).precedence == p;
                if k > 0 {
                    assert(r[k] == rest[k - 1]);
                    assert(has_precedence(rest, p));
                    if has_precedence(t, p) {
                        let m = choose|m: int| 0 <= m < t.len() && (#[trigger] t[m]).precedence == p;
                        assert(s[m + 1] == t[m]);
                    }
                } else {
                    assert(s[0].precedence == p);
                }
            }
            if has_precedence(s, p) {
                let k = choose|k: int| 0 <= k < s.len() && (#[trigger] s[k]).precedence == p;
                if k > 0 {
                    assert(t[k - 1] == s[k]);
                    assert(has_precedence(t, p));
                    let m = choose|m: int| 0 <= m < rest.len() && (#[trigger] rest[m]).precedence == p;
                    assert(r[m + 1] == rest[m]);
                } else {
                    assert(r[0] == s[0]);
                }
            }
            if p == x.precedence {
                assert(has_precedence(rest, p));
                let m = choose|m: int| 0 <= m < rest.len() && (#[trigger] rest[m]).precedence == p;
                assert(r[m + 1] == rest[m]);
            }
        }
    }
}

proof fn lemma_by_precedence_strict(froms: Seq<FromEntry>)
    requires
        forall|i: int, j: int|
            0 <= i < j < froms.len() ==> (#[trigger] froms[i]).precedence != (#[trigger] froms[j]).precedence,
    ensures
        strictly_ascending(by_precedence(froms)),
        forall|p: u32| has_precedence(by_precedence(froms), p) <==> has_precedence(froms, p),
    decreases froms.len(),
{
    if froms.len() == 0 {
        assert(by_precedence(froms) =~= Seq::<FromEntry>::empty());
    } else {
        let d = froms.drop_last();
        let x = froms.last();
        assert forall|i: int, j: int| 0 <= i < j < d.len() implies (#[trigger] d[i]).precedence
            != (#[trigger] d[j]).precedence by {
            assert(d[i] == froms[i] && d[j] == froms[j]);
        }
        lemma_by_precedence_strict(d);
        assert(!has_precedence(d, x.precedence)) by {
            if has_precedence(d, x.precedence) {
                let k = choose|k: int| 0 <= k < d.len() && (#[trigger] d[k]).precedence == x.precedence;
                assert(froms[k] == d[k]);
                assert(froms[k].precedence != froms[froms.len() - 1].precedence);
            }
        }
        lemma_insert_strict(x, by_precedence(d));
        assert forall|p: u32| has_precedence(by_precedence(froms), p) <==> has_precedence(froms, p) by {
            if has_precedence(froms, p) {
                let k = choose|k: int| 0 <= k < froms.len() && (#[trigger] froms[k]).precedence == p;
                if k < d.len() {
                    assert(d[k] == froms[k]);
                    assert(has_precedence(d, p));
                }
            }
            if has_precedence(d, p) {
                let k = choose|k: int| 0 <= k < d.len() && (#[trigger] d[k]).precedence == p;
                assert(froms[k] == d[k]);
            }
            if p == x.precedence {
                assert(froms[froms.len() - 1] == x);
            }
        }
    }
}

/// A candidate read plan lists every declared `<from>` entry exactly once,
/// in ascending declared precedence, whatever order they were written in:
/// it is an ascending rearrangement of the declared entries.
pub proof fn law_candidate_plan_follows_declared_precedence(
    map: ConversionMap,
    froms: Seq<FromEntry>,
    m: MatchView,
    direction: Direction,
    shared_right_side: Option<Seq<char>>,
)
    ensures
        ({
            let sorted = by_precedence(froms);
            let c = candidates_spec(map, froms, m, direction, shared_right_side);
            &&& sorted.to_multiset() == froms.to_multiset()
            &&& ascending(sorted)
            &&& c.len() == froms.len()
            &&& forall|i: int| 0 <= i < c.len() ==> #[trigger] c[i].precedence == sorted[i].precedence
            &&& forall|i: int, j: int| 0 <= i < j < c.len() ==> c[i].precedence <= c[j].precedence
            &&& from_precedences_distinct(froms) ==> forall|i: int, j: int|
                0 <= i < j < c.len() ==> c[i].precedence < c[j].precedence
        }),
{
    lemma_by_precedence(froms);
    let sorted = by_precedence(froms);
    let c = candidates_spec(map, froms, m, direction, shared_right_side);
    assert forall|i: int, j: int| 0 <= i < j < c.len() implies c[i].precedence <= c[j].precedence by {
        assert(c[i].precedence == sorted[i].precedence);
        assert(c[j].precedence == sorted[j].precedence);
    }
    if from_precedences_distinct(froms) {
        lemma_by_precedence_strict(froms);
        assert forall|i: int, j: int| 0 <= i < j < c.len() implies c[i].precedence
            < c[j].precedence by {
            assert(c[i].precedence == sorted[i].precedence);
            assert(c[j].precedence == sorted[j].precedence);
        }
    }
}

/// In a well-formed map, every rule's candidate plan has strictly
/// ascending precedences: no two candidates tie.
pub proof fn law_candidate_plans_never_tie(
    map: ConversionMap,
    k: int,
    m: MatchView,
    direction: Direction,
    shared_right_side: Option<Seq<char>>,
)
    requires
        map.wf(),
        0 <= k < map.rules@.len(),
    ensures
        ({
            let c = candidates_spec(map, map.rules@[k].froms@, m, direction, shared_right_side);
            forall|i: int, j: int| 0 <= i < j < c.len() ==> c[i].precedence < c[j].precedence
        }),
{
    law_candidate_plan_follows_declared_precedence(
        map,
        map.rules@[k].froms@,
        m,
        direction,
        shared_right_side,
    );
}

// ---------------------------------------------------------------------------
// A loaded map never lets two selectors claim one path
// ---------------------------------------------------------------------------

proof fn lemma_first_overlap_exists(g: Seq<Seq<char>>, a: int, b: int)
    requires
        0 <= a < b < g.len(),
        globs_overlap_spec(g[a], g[b]),
    ensures
        first_overlap(g) is Some,
    decreases a * g.len() + b,
{
    if !is_first_overlap(g, a, b) {
        let (c, d) = choose|c: int, d: int|
            0 <= c < d < g.len() && (c < a || (c == a && d < b)) && globs_overlap_spec(g[c], g[d]);
        assert(c * g.len() + d < a * g.len() + b) by (nonlinear_arith)
            requires
                0 <= c < d < g.len(),
                0 <= a < b < g.len(),
                c < a || (c == a && d < b),
        {
            if c < a {
                assert(c * g.len() + d < c * g.len() + g.len());
                assert(c * g.len() + g.len() <= a * g.len());
            }
        }
        lemma_first_overlap_exists(g, c, d);
    } else {
        assert(exists|c: int, d: int| is_first_overlap(g, c, d));
    }
}

/// The glob patterns of `s`, by position: pattern `k` of `glob_patterns`
/// is the pattern of some glob entry, in order.
proof fn lemma_glob_patterns_positions(sv: Seq<SourceV>)
    ensures
        forall|i: int, j: int|
            0 <= i < j < sv.len() && sv[i].0.0 == SelectorStage::Glob && sv[j].0.0
                == SelectorStage::Glob ==> exists|a: int, b: int|
                0 <= a < b < glob_patterns(sv).len() && glob_patterns(sv)[a] == sv[i].0.1
                    && glob_patterns(sv)[b] == sv[j].0.1,
    decreases sv.len(),
{
    if sv.len() > 0 {
        let init = sv.drop_last();
        lemma_glob_patterns_positions(init);
        let pred = |e: SourceV| e.0.0 == SelectorStage::Glob;
        assert(sv =~= init.push(sv.last()));
        reveal_with_fuel(Seq::filter, 1);
        let gi = glob_patterns(init);
        let g = glob_patterns(sv);
        assert forall|i: int, j: int|
            0 <= i < j < sv.len() && sv[i].0.0 == SelectorStage::Glob && sv[j].0.0
                == SelectorStage::Glob implies exists|a: int, b: int|
                0 <= a < b < g.len() && g[a] == sv[i].0.1 && g[b] == sv[j].0.1 by {
            if j < sv.len() - 1 {
                assert(init[i] == sv[i] && init[j] == sv[j]);
                let (a, b) = choose|a: int, b: int|
                    0 <= a < b < gi.len() && gi[a] == init[i].0.1 && gi[b] == init[j].0.1;
                if pred(sv.last()) {
                    assert(g =~= gi.push(sv.last().0.1));
                } else {
                    assert(g =~= gi);
                }
                assert(g[a] == gi[a] && g[b] == gi[b]);
            } else {
                lemma_glob_position(init, i);
                let a = choose|a: int| 0 <= a < gi.len() && gi[a] == init[i].0.1;
                assert(g =~= gi.push(sv.last().0.1));
                assert(g[a] == gi[a]);
                assert(g[gi.len() as int] == sv[j].0.1);
            }
        }
    }
}

proof fn lemma_glob_position(sv: Seq<SourceV>, i: int)
    requires
        0 <= i < sv.len(),
        sv[i].0.0 == SelectorStage::Glob,
    ensures
        exists|a: int| 0 <= a < glob_patterns(sv).len() && glob_patterns(sv)[a] == sv[i].0.1,
    decreases sv.len(),
{
    let init = sv.drop_last();
    let pred = |e: SourceV| e.0.0 == SelectorStage::Glob;
    assert(sv =~= init.push(sv.last()));
    reveal_with_fuel(Seq::filter, 1);
    let gi = glob_patterns(init);
    let g = glob_patterns(sv);
    if i < sv.len() - 1 {
        lemma_glob_position(init, i);
        let a = choose|a: int| 0 <= a < gi.len() && gi[a] == init[i].0.1;
        if pred(sv.last()) {
            assert(g =~= gi.push(sv.last().0.1));
        } else {
            assert(g =~= gi);
        }
        assert(g[a] == gi[a]);
    } else {
        assert(g =~= gi.push(sv.last().0.1));
        assert(g[gi.len() as int] == sv[i].0.1);
    }
}

pub(crate) proof fn lemma_unambiguous_from_spec(role: Seq<char>, s: Seq<SourceEntry>)
    requires
        ambiguity_spec(role, s.map_values(|e: SourceEntry| crate::map_load::source_view(e))) is Ok,
    ensures
        unambiguous(s),
{
    let sv = s.map_values(|e: SourceEntry| crate::map_load::source_view(e));
    assert(first_repeat(sv) is None);
    assert forall|i: int, j: int|
        0 <= i < j < s.len() && stage_of(s[j].selector) != SelectorStage::Glob implies !(stage_of(
        #[trigger] s[i].selector,
    ) == stage_of(#[trigger] s[j].selector) && pattern_of(s[i].selector) == pattern_of(
        s[j].selector,
    )) by {
        if stage_of(s[i].selector) == stage_of(s[j].selector) && pattern_of(s[i].selector)
            == pattern_of(s[j].selector) {
            assert(sv[i].0 == sv[j].0);
            assert(repeats_earlier(sv, j));
        }
    }
    let g = glob_patterns(sv);
    assert(first_overlap(g) is None);
    lemma_glob_patterns_positions(sv);
    assert forall|i: int, j: int|
        0 <= i < j < s.len() && stage_of(#[trigger] s[i].selector) == SelectorStage::Glob
            && stage_of(#[trigger] s[j].selector) == SelectorStage::Glob implies !globs_overlap_spec(
        pattern_of(s[i].selector),
        pattern_of(s[j].selector),
    ) by {
        assert(sv[i].0.0 == SelectorStage::Glob && sv[j].0.0 == SelectorStage::Glob);
        let (a, b) = choose|a: int, b: int|
            0 <= a < b < g.len() && g[a] == sv[i].0.1 && g[b] == sv[j].0.1;
        if globs_overlap_spec(pattern_of(s[i].selector), pattern_of(s[j].selector)) {
            lemma_first_overlap_exists(g, a, b);
        }
    }
}

/// Redefine globs that no overlap search found do not overlap.
pub(crate) proof fn lemma_redefines_disjoint_from_spec(r: Seq<crate::conversion_map::RedefineEntry>)
    requires
        first_overlap(
            crate::map_load::redefine_views(r).map_values(
                |x: ((SelectorStage, Seq<char>), Fidelity, Fidelity)| x.0.1,
            ),
        ) is None,
    ensures
        redefines_disjoint(r),
{
    let rg = crate::map_load::redefine_views(r).map_values(
        |x: ((SelectorStage, Seq<char>), Fidelity, Fidelity)| x.0.1,
    );
    assert forall|i: int, j: int| 0 <= i < j < r.len() implies !globs_overlap_spec(
        pattern_of(#[trigger] r[i].selector),
        pattern_of(#[trigger] r[j].selector),
    ) by {
        assert(rg[i] == pattern_of(r[i].selector));
        assert(rg[j] == pattern_of(r[j].selector));
        if globs_overlap_spec(rg[i], rg[j]) {
            lemma_first_overlap_exists(rg, i, j);
        }
    }
}

/// A map loaded from a document never lets two selectors of one role claim
/// the same path: literal selectors are never repeated and glob selectors
/// never overlap, on either side.
pub proof fn law_loaded_maps_are_unambiguous(nodes: Seq<XmlNodeView>, map: ConversionMap)
    requires
        load_spec(nodes) == Ok::<crate::map_load::MapView, crate::map_load::LoadErrorView>(
            map_view(map),
        ),
    ensures
        unambiguous(map.left_sources@),
        unambiguous(map.right_sources@),
{
    lemma_unambiguous_from_spec("left"@, map.left_sources@);
    lemma_unambiguous_from_spec("right"@, map.right_sources@);
}

// ---------------------------------------------------------------------------
// A renamed path resolves there and back
// ---------------------------------------------------------------------------

/// `s[i]` is the entry rule `k` contributes for literal selector `pattern`.
pub open spec fn exact_entry_for(s: Seq<SourceEntry>, i: int, k: int, pattern: Seq<char>) -> bool {
    &&& 0 <= i < s.len()
    &&& s[i].selector matches Selector::Exact(p) && p@ == pattern
    &&& s[i].rule_index == k
    &&& s[i].precedence is None
}

proof fn lemma_exact_entry_wins(s: Seq<SourceEntry>, i: int, k: int, pattern: Seq<char>)
    requires
        unambiguous(s),
        exact_entry_for(s, i, k, pattern),
    ensures
        best_match_spec(s, pattern) == Some((SelectorStage::Exact, i)),
{
    assert forall|j: int|
        0 <= j < s.len() && #[trigger] entry_matches(s[j], SelectorStage::Exact, pattern) implies j
        == i by {
        assert(stage_of(s[j].selector) == SelectorStage::Exact);
        assert(pattern_of(s[j].selector) == pattern);
        if j < i {
            assert(stage_of(s[i].selector) != SelectorStage::Glob);
        } else if j > i {
            assert(stage_of(s[j].selector) != SelectorStage::Glob);
        }
    }
    assert(is_stage_winner(s, SelectorStage::Exact, pattern, i));
    let c = choose|c: int| is_stage_winner(s, SelectorStage::Exact, pattern, c);
    assert(is_stage_winner(s, SelectorStage::Exact, pattern, c));
    assert(entry_matches(s[c], SelectorStage::Exact, pattern));
}

/// The path an explanation resolves to, when it names one.
pub open spec fn resolved_to(e: Option<crate::conversion_map::ExplanationView>) -> Option<Seq<char>> {
    match e {
        Some(x) => match x.outcome {
            OutcomeView::Path(p, _, _) => Some(p),
            _ => None,
        },
        None => None,
    }
}

/// A `renamed` rule between two literal paths resolves its left path to its
/// right one and back again, on any unambiguous map (every loaded map is),
/// as long as neither direction is declared unmappable and no unit
/// redefinition claims the right path.
pub proof fn law_renamed_rule_resolves_both_ways(
    map: ConversionMap,
    k: int,
    i: int,
    j: int,
    left: Seq<char>,
    right: Seq<char>,
)
    requires
        map.wf(),
        unambiguous(map.left_sources@),
        unambiguous(map.right_sources@),
        0 <= k < map.rules@.len(),
        map.rules@[k].rel == Rel::Renamed || map.rules@[k].rel == Rel::Moved,
        map.rules@[k].left matches Some(Selector::Exact(p)) && p@ == left,
        map.rules@[k].right matches Some(Selector::Exact(q)) && q@ == right,
        exact_entry_for(map.left_sources@, i, k, left),
        exact_entry_for(map.right_sources@, j, k, right),
        map.rules@[k].fidelity_forward != Fidelity::Unmappable,
        map.rules@[k].fidelity_reverse != Fidelity::Unmappable,
        crate::conversion_map::redefine_in(map.redefines@, right, Direction::Forward) is None,
        crate::conversion_map::redefine_in(map.redefines@, right, Direction::Reverse) is None,
    ensures
        resolved_to(resolve_spec(map, left, Direction::Forward)) == Some(right),
        resolved_to(resolve_spec(map, right, Direction::Reverse)) == Some(left),
        resolve_spec(map, left, Direction::Forward)->0.rule_id == Some(map.rules@[k].id@),
        resolve_spec(map, right, Direction::Reverse)->0.rule_id == Some(map.rules@[k].id@),
{
    lemma_exact_entry_wins(map.left_sources@, i, k, left);
    lemma_exact_entry_wins(map.right_sources@, j, k, right);
    let rule = map.rules@[k];
    reveal_with_fuel(crate::conversion_map::first_redefined, 2);
    assert(seq![right].drop_first() =~= Seq::<Seq<char>>::empty());
    assert(right + Seq::<char>::empty() =~= right);
    assert(left + Seq::<char>::empty() =~= left);
}

} // verus!
