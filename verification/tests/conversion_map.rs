use imas_mvdd::conversion_map::{
    CandidatePath, CocosConvention, CompletenessViolation, ConversionMap, Direction, Fidelity,
    InventorySide, LoadError, MatchKind, Outcome, RefusalReason, RuleExplanation,
    ValueTransformation,
};
use imas_mvdd::selector::SelectorStage;

fn resolved_path(explanation: &RuleExplanation) -> &str {
    match &explanation.outcome {
        Outcome::Path { resolved_path, .. } => resolved_path,
        other => panic!("expected a translated path, got {other:?}"),
    }
}

fn value_transformation(explanation: &RuleExplanation) -> &ValueTransformation {
    match &explanation.outcome {
        Outcome::Path {
            value_transformation,
            ..
        } => value_transformation,
        other => panic!("expected a translated path, got {other:?}"),
    }
}

fn candidates(explanation: &RuleExplanation) -> &[CandidatePath] {
    match &explanation.outcome {
        Outcome::Path { candidates, .. } => candidates,
        other => panic!("expected a translated path, got {other:?}"),
    }
}

#[test]
fn rejects_malformed_xml() {
    let err = ConversionMap::load("<not-xml").unwrap_err();
    assert!(matches!(err, LoadError::Xml(_)));
}

#[test]
fn rejects_rule_missing_id() {
    let xml = r#"
        <ids-map ids="equilibrium" format-version="1">
          <side id="left" dd="3.39.0" cocos="11"/>
          <side id="right" dd="4.1.1" cocos="17"/>
          <rules>
            <rule rel="renamed" left="a" right="b">
              <fidelity forward="exact" reverse="exact"/>
            </rule>
          </rules>
        </ids-map>
    "#;
    let err = ConversionMap::load(xml).unwrap_err();
    assert_eq!(
        err,
        LoadError::MissingAttribute {
            element: "rule".to_string(),
            attribute: "id".to_string(),
        }
    );
}

#[test]
fn rejects_unknown_rel_value() {
    let xml = r#"
        <ids-map ids="equilibrium" format-version="1">
          <side id="left" dd="3.39.0" cocos="11"/>
          <side id="right" dd="4.1.1" cocos="17"/>
          <rules>
            <rule id="bogus" rel="teleported" left="a" right="b">
              <fidelity forward="exact" reverse="exact"/>
            </rule>
          </rules>
        </ids-map>
    "#;
    let err = ConversionMap::load(xml).unwrap_err();
    assert_eq!(
        err,
        LoadError::UnknownValue {
            element: "rule".to_string(),
            attribute: "rel".to_string(),
            value: "teleported".to_string(),
        }
    );
}

#[test]
fn rejects_duplicate_rule_id() {
    let xml = r#"
        <ids-map ids="equilibrium" format-version="1">
          <side id="left" dd="3.39.0" cocos="11"/>
          <side id="right" dd="4.1.1" cocos="17"/>
          <rules>
            <rule id="dup" rel="renamed" left="a" right="b">
              <fidelity forward="exact" reverse="exact"/>
            </rule>
            <rule id="dup" rel="renamed" left="c" right="d">
              <fidelity forward="exact" reverse="exact"/>
            </rule>
          </rules>
        </ids-map>
    "#;
    let err = ConversionMap::load(xml).unwrap_err();
    assert_eq!(err, LoadError::DuplicateRuleId("dup".to_string()));
}

#[test]
fn rejects_renamed_rules_with_the_same_source_path() {
    let xml = r#"
        <ids-map ids="equilibrium" format-version="1">
          <side id="left" dd="3.39.0" cocos="11"/>
          <side id="right" dd="4.1.1" cocos="17"/>
          <rules>
            <rule id="first" rel="renamed" left="a" right="b">
              <fidelity forward="exact" reverse="exact"/>
            </rule>
            <rule id="second" rel="renamed" left="a" right="c">
              <fidelity forward="exact" reverse="exact"/>
            </rule>
          </rules>
        </ids-map>
    "#;
    let err = ConversionMap::load(xml).unwrap_err();
    assert_eq!(
        err,
        LoadError::DuplicateSourceSelector {
            role: "left",
            stage: SelectorStage::Exact,
            pattern: "a".to_string(),
        }
    );
}

#[test]
fn rejects_renamed_rules_with_the_same_reverse_source_path() {
    let xml = r#"
        <ids-map ids="equilibrium" format-version="1">
          <side id="left" dd="3.39.0" cocos="11"/>
          <side id="right" dd="4.1.1" cocos="17"/>
          <rules>
            <rule id="first" rel="renamed" left="a" right="b">
              <fidelity forward="exact" reverse="exact"/>
            </rule>
            <rule id="second" rel="renamed" left="c" right="b">
              <fidelity forward="exact" reverse="exact"/>
            </rule>
          </rules>
        </ids-map>
    "#;
    let err = ConversionMap::load(xml).unwrap_err();
    assert_eq!(
        err,
        LoadError::DuplicateSourceSelector {
            role: "right",
            stage: SelectorStage::Exact,
            pattern: "b".to_string(),
        }
    );
}

#[test]
fn rejects_invalid_cocos_convention() {
    let xml = r#"
        <ids-map ids="equilibrium" format-version="1">
          <side id="left" dd="3.39.0" cocos="not-a-convention"/>
          <side id="right" dd="4.1.1" cocos="17"/>
        </ids-map>
    "#;
    let err = ConversionMap::load(xml).unwrap_err();
    assert_eq!(
        err,
        LoadError::InvalidCocosConvention("not-a-convention".to_string())
    );
}

#[test]
fn rejects_invalid_artifact_dd_version() {
    let xml = r#"
        <ids-map ids="equilibrium" format-version="1">
          <side id="left" dd="3.39" cocos="11"/>
          <side id="right" dd="4.1.1" cocos="17"/>
        </ids-map>
    "#;
    let err = ConversionMap::load(xml).unwrap_err();
    assert_eq!(err, LoadError::InvalidArtifactDdVersion("3.39".to_string()));
}

#[test]
fn rejects_rule_missing_fidelity() {
    let xml = r#"
        <ids-map ids="equilibrium" format-version="1">
          <side id="left" dd="3.39.0" cocos="11"/>
          <side id="right" dd="4.1.1" cocos="17"/>
          <rules>
            <rule id="no-fidelity" rel="renamed" left="a" right="b"/>
          </rules>
        </ids-map>
    "#;
    let err = ConversionMap::load(xml).unwrap_err();
    assert_eq!(
        err,
        LoadError::InvalidRuleShape {
            rule_id: "no-fidelity".to_string(),
            reason: "missing required <fidelity> child".to_string(),
        }
    );
}

#[test]
fn rejects_fidelity_with_invalid_value() {
    let xml = r#"
        <ids-map ids="equilibrium" format-version="1">
          <side id="left" dd="3.39.0" cocos="11"/>
          <side id="right" dd="4.1.1" cocos="17"/>
          <rules>
            <rule id="bad-fidelity" rel="renamed" left="a" right="b">
              <fidelity forward="perfect" reverse="exact"/>
            </rule>
          </rules>
        </ids-map>
    "#;
    let err = ConversionMap::load(xml).unwrap_err();
    assert_eq!(
        err,
        LoadError::UnknownValue {
            element: "fidelity".to_string(),
            attribute: "forward".to_string(),
            value: "perfect".to_string(),
        }
    );
}

#[test]
fn rejects_renamed_rule_missing_right() {
    let xml = r#"
        <ids-map ids="equilibrium" format-version="1">
          <side id="left" dd="3.39.0" cocos="11"/>
          <side id="right" dd="4.1.1" cocos="17"/>
          <rules>
            <rule id="half-rename" rel="renamed" left="a">
              <fidelity forward="exact" reverse="exact"/>
            </rule>
          </rules>
        </ids-map>
    "#;
    let err = ConversionMap::load(xml).unwrap_err();
    assert_eq!(
        err,
        LoadError::InvalidRuleShape {
            rule_id: "half-rename".to_string(),
            reason: "requires both `left` and `right`".to_string(),
        }
    );
}

#[test]
fn rejects_merged_rule_with_duplicate_precedence() {
    let xml = r#"
        <ids-map ids="equilibrium" format-version="1">
          <side id="left" dd="3.39.0" cocos="11"/>
          <side id="right" dd="4.1.1" cocos="17"/>
          <rules>
            <rule id="fold" rel="merged" right="b">
              <from left="a1" precedence="1"/>
              <from left="a2" precedence="1"/>
              <fidelity forward="lossy" reverse="exact"/>
            </rule>
          </rules>
        </ids-map>
    "#;
    let err = ConversionMap::load(xml).unwrap_err();
    assert_eq!(
        err,
        LoadError::DuplicatePrecedence {
            rule_id: "fold".to_string(),
            precedence: 1,
        }
    );
}

#[test]
fn rejects_merged_rule_without_from_entries() {
    let xml = r#"
        <ids-map ids="equilibrium" format-version="1">
          <side id="left" dd="3.39.0" cocos="11"/>
          <side id="right" dd="4.1.1" cocos="17"/>
          <rules>
            <rule id="fold" rel="merged" right="b">
              <fidelity forward="lossy" reverse="exact"/>
            </rule>
          </rules>
        </ids-map>
    "#;
    let err = ConversionMap::load(xml).unwrap_err();
    assert_eq!(
        err,
        LoadError::InvalidRuleShape {
            rule_id: "fold".to_string(),
            reason: "requires at least one <from left=\"...\"/>".to_string(),
        }
    );
}

#[test]
fn rejects_glob_merged_and_split_rules_with_unrenderable_candidate_paths() {
    for xml in [
        r#"
            <ids-map ids="equilibrium" format-version="1">
              <side id="left" dd="3.39.0" cocos="11"/>
              <side id="right" dd="4.1.1" cocos="17"/>
              <rules>
                <rule id="merge" rel="merged" glob="yes" right="right/*">
                  <from left="left/*/*" precedence="1"/>
                  <fidelity forward="exact" reverse="exact"/>
                </rule>
              </rules>
            </ids-map>
        "#,
        r#"
            <ids-map ids="equilibrium" format-version="1">
              <side id="left" dd="3.39.0" cocos="11"/>
              <side id="right" dd="4.1.1" cocos="17"/>
              <rules>
                <rule id="split" rel="split" glob="yes" left="left/*">
                  <from right="right/*/*" precedence="1"/>
                  <fidelity forward="exact" reverse="exact"/>
                </rule>
              </rules>
            </ids-map>
        "#,
    ] {
        let err = ConversionMap::load(xml).unwrap_err();
        assert!(matches!(err, LoadError::InvalidRuleShape { .. }));
    }
}

#[test]
fn rejects_duplicate_flip_path() {
    let xml = r#"
        <ids-map ids="equilibrium" format-version="1">
          <side id="left" dd="3.39.0" cocos="11"/>
          <side id="right" dd="4.1.1" cocos="17"/>
          <transforms>
            <cocos from="11" to="17">
              <flip path="p"/>
            </cocos>
            <cocos from="11" to="17">
              <flip path="p"/>
            </cocos>
          </transforms>
        </ids-map>
    "#;
    let err = ConversionMap::load(xml).unwrap_err();
    assert_eq!(err, LoadError::DuplicateFlipPath("p".to_string()));
}

#[test]
fn rejects_missing_side() {
    let xml = r#"
        <ids-map ids="equilibrium" format-version="1">
          <side id="left" dd="3.39.0" cocos="11"/>
        </ids-map>
    "#;
    let err = ConversionMap::load(xml).unwrap_err();
    assert_eq!(err, LoadError::MissingSide("right"));
}

#[test]
fn merged_precedence_is_independent_of_xml_document_order() {
    let xml = r#"
        <ids-map ids="equilibrium" format-version="1">
          <side id="left" dd="3.39.0" cocos="11"/>
          <side id="right" dd="4.1.1" cocos="17"/>
          <rules>
            <rule id="fold" rel="merged" right="right/canonical">
              <from left="left/second" precedence="2"/>
              <from left="left/first" precedence="1"/>
              <fidelity forward="lossy" reverse="exact"/>
            </rule>
          </rules>
        </ids-map>
    "#;
    let map =
        ConversionMap::load(xml).expect("declared precedence need not follow document order");

    let explanation = map
        .resolve("right/canonical", Direction::Reverse)
        .expect("merged rule must resolve in reverse");
    let paths: Vec<&str> = candidates(&explanation)
        .iter()
        .map(|c| c.path.as_str())
        .collect();
    assert_eq!(paths, vec!["left/first", "left/second"]);
}

#[test]
fn a_merged_rule_declared_unmappable_refuses_instead_of_planning_candidates() {
    let xml = r#"
        <ids-map ids="equilibrium" format-version="1">
          <side id="left" dd="3.39.0" cocos="11"/>
          <side id="right" dd="4.1.1" cocos="17"/>
          <rules>
            <rule id="fold" rel="merged" right="b">
              <from left="a1" precedence="1"/>
              <from left="a2" precedence="2"/>
              <fidelity forward="unmappable" reverse="unmappable"/>
            </rule>
          </rules>
        </ids-map>
    "#;
    let map = ConversionMap::load(xml).expect("map loads");

    let forward = map
        .resolve("a1", Direction::Forward)
        .expect("a declared alias matches its merged rule");
    assert_eq!(forward.match_kind, MatchKind::Explicit);
    assert_eq!(forward.rule_id.as_deref(), Some("fold"));
    assert_eq!(forward.fidelity, Fidelity::Unmappable);
    assert_eq!(
        forward.outcome,
        Outcome::Refusal(RefusalReason::Unmappable),
        "a merged rule declared unmappable must refuse, not resolve"
    );

    let reverse = map
        .resolve("b", Direction::Reverse)
        .expect("the canonical path matches its merged rule");
    assert_eq!(reverse.fidelity, Fidelity::Unmappable);
    assert_eq!(
        reverse.outcome,
        Outcome::Refusal(RefusalReason::Unmappable),
        "a merged rule declared unmappable must not produce a candidate read plan"
    );
}

#[test]
fn a_split_rule_declared_unmappable_refuses_instead_of_planning_candidates() {
    let xml = r#"
        <ids-map ids="equilibrium" format-version="1">
          <side id="left" dd="3.39.0" cocos="11"/>
          <side id="right" dd="4.1.1" cocos="17"/>
          <rules>
            <rule id="fan" rel="split" left="a">
              <from right="b1" precedence="1"/>
              <from right="b2" precedence="2"/>
              <fidelity forward="unmappable" reverse="unmappable"/>
            </rule>
          </rules>
        </ids-map>
    "#;
    let map = ConversionMap::load(xml).expect("map loads");

    let forward = map
        .resolve("a", Direction::Forward)
        .expect("the single source matches its split rule");
    assert_eq!(forward.match_kind, MatchKind::Explicit);
    assert_eq!(forward.rule_id.as_deref(), Some("fan"));
    assert_eq!(forward.fidelity, Fidelity::Unmappable);
    assert_eq!(
        forward.outcome,
        Outcome::Refusal(RefusalReason::Unmappable),
        "a split rule declared unmappable must not produce a candidate read plan"
    );

    let reverse = map
        .resolve("b1", Direction::Reverse)
        .expect("a declared destination matches its split rule");
    assert_eq!(reverse.fidelity, Fidelity::Unmappable);
    assert_eq!(reverse.outcome, Outcome::Refusal(RefusalReason::Unmappable));
}

#[test]
fn a_retype_refuses_on_shape_even_when_it_declares_unmappable() {
    let xml = r#"
        <ids-map ids="equilibrium" format-version="1">
          <side id="left" dd="3.39.0" cocos="11"/>
          <side id="right" dd="4.1.1" cocos="17"/>
          <rules>
            <rule id="reshape" rel="retyped" left="a" right="a">
              <fidelity forward="unmappable" reverse="unmappable"/>
            </rule>
          </rules>
        </ids-map>
    "#;
    let map = ConversionMap::load(xml).expect("map loads");

    let explanation = map.resolve("a", Direction::Forward).expect("rule matches");
    assert_eq!(
        explanation.outcome,
        Outcome::Refusal(RefusalReason::UnservableRetype)
    );
}

#[test]
fn same_cocos_flip_plan_normalizes_to_identity() {
    let xml = r#"
        <ids-map ids="equilibrium" format-version="1">
          <side id="left" dd="3.39.0" cocos="11"/>
          <side id="right" dd="4.1.1" cocos="11"/>
          <default rel="identical"/>
          <transforms>
            <cocos from="11" to="11">
              <flip path="time_slice/boundary/psi"/>
            </cocos>
          </transforms>
        </ids-map>
    "#;
    let map = ConversionMap::load(xml).expect("same-convention map must load");

    for direction in [Direction::Forward, Direction::Reverse] {
        let explanation = map
            .resolve("time_slice/boundary/psi", direction)
            .expect("same-convention flip path must resolve");
        assert_eq!(
            *value_transformation(&explanation),
            ValueTransformation::Unchanged
        );
    }
}

#[test]
fn exact_selector_overrides_an_applicable_subtree_selector() {
    let xml = r#"
        <ids-map ids="equilibrium" format-version="1">
          <side id="left" dd="3.39.0" cocos="11"/>
          <side id="right" dd="4.1.1" cocos="17"/>
          <rules>
            <rule id="subtree-rule" rel="renamed"
                  left="a/b" right="x/y" subtree="yes">
              <fidelity forward="exact" reverse="exact"/>
            </rule>
            <rule id="exact-rule" rel="renamed" left="a/b/c" right="z">
              <fidelity forward="exact" reverse="exact"/>
            </rule>
          </rules>
        </ids-map>
    "#;
    let map = ConversionMap::load(xml).expect("both rules are structurally valid");

    let explanation = map
        .resolve("a/b/c", Direction::Forward)
        .expect("the exact rule must claim this path");
    assert_eq!(explanation.rule_id.as_deref(), Some("exact-rule"));
    assert_eq!(explanation.selector_stage, Some(SelectorStage::Exact));
    assert_eq!(resolved_path(&explanation), "z");
}

#[test]
fn subtree_selector_resolves_the_anchor_itself_and_preserves_a_nested_suffix() {
    let xml = r#"
        <ids-map ids="equilibrium" format-version="1">
          <side id="left" dd="3.39.0" cocos="11"/>
          <side id="right" dd="4.1.1" cocos="17"/>
          <rules>
            <rule id="move-group" rel="renamed"
                  left="a/old" right="a/new" subtree="yes">
              <fidelity forward="exact" reverse="exact"/>
            </rule>
          </rules>
        </ids-map>
    "#;
    let map = ConversionMap::load(xml).expect("subtree renamed rule is structurally valid");

    let anchor = map
        .resolve("a/old", Direction::Forward)
        .expect("the anchor path is itself covered by its own subtree rule");
    assert_eq!(anchor.selector_stage, Some(SelectorStage::Subtree));
    assert_eq!(resolved_path(&anchor), "a/new");

    let nested = map
        .resolve("a/old/leaf", Direction::Forward)
        .expect("a path nested under the subtree anchor must also resolve");
    assert_eq!(nested.selector_stage, Some(SelectorStage::Subtree));
    assert_eq!(resolved_path(&nested), "a/new/leaf");

    let reverse = map
        .resolve("a/new/leaf", Direction::Reverse)
        .expect("the subtree rule is direction-neutral");
    assert_eq!(resolved_path(&reverse), "a/old/leaf");

    assert_eq!(map.resolve("a/oldish", Direction::Forward), None);
}

#[test]
fn the_most_specific_applicable_subtree_selector_wins() {
    let xml = r#"
        <ids-map ids="equilibrium" format-version="1">
          <side id="left" dd="3.39.0" cocos="11"/>
          <side id="right" dd="4.1.1" cocos="17"/>
          <rules>
            <rule id="shallow" rel="renamed"
                  left="a/b" right="x" subtree="yes">
              <fidelity forward="exact" reverse="exact"/>
            </rule>
            <rule id="deep" rel="renamed"
                  left="a/b/c" right="y" subtree="yes">
              <fidelity forward="exact" reverse="exact"/>
            </rule>
          </rules>
        </ids-map>
    "#;
    let map = ConversionMap::load(xml).expect("nested subtree anchors are not ambiguous");

    let explanation = map
        .resolve("a/b/c/d", Direction::Forward)
        .expect("covered by the deeper subtree anchor");
    assert_eq!(explanation.rule_id.as_deref(), Some("deep"));
    assert_eq!(resolved_path(&explanation), "y/d");

    let explanation = map
        .resolve("a/b/other", Direction::Forward)
        .expect("covered only by the shallow subtree anchor");
    assert_eq!(explanation.rule_id.as_deref(), Some("shallow"));
    assert_eq!(resolved_path(&explanation), "x/other");
}

#[test]
fn duplicate_subtree_anchors_on_the_same_source_role_invalidate_the_map() {
    let xml = r#"
        <ids-map ids="equilibrium" format-version="1">
          <side id="left" dd="3.39.0" cocos="11"/>
          <side id="right" dd="4.1.1" cocos="17"/>
          <rules>
            <rule id="first" rel="renamed" left="a" right="b" subtree="yes">
              <fidelity forward="exact" reverse="exact"/>
            </rule>
            <rule id="second" rel="left_only" left="a" subtree="yes">
              <fidelity forward="lossy" reverse="unmappable"/>
            </rule>
          </rules>
        </ids-map>
    "#;
    let err = ConversionMap::load(xml).unwrap_err();
    assert_eq!(
        err,
        LoadError::DuplicateSourceSelector {
            role: "left",
            stage: SelectorStage::Subtree,
            pattern: "a".to_string(),
        }
    );
}

#[test]
fn glob_selector_resolves_only_when_no_exact_or_subtree_selector_applies() {
    let xml = r#"
        <ids-map ids="equilibrium" format-version="1">
          <side id="left" dd="3.39.0" cocos="11"/>
          <side id="right" dd="4.1.1" cocos="17"/>
          <rules>
            <rule id="glob-rule" rel="renamed"
                  left="constraints/*/measured" right="constraints/*/value" glob="yes">
              <fidelity forward="lossy" reverse="lossy"/>
            </rule>
            <rule id="exact-rule" rel="renamed"
                  left="constraints/ip/measured" right="constraints/ip/exact-value">
              <fidelity forward="exact" reverse="exact"/>
            </rule>
          </rules>
        </ids-map>
    "#;
    let map = ConversionMap::load(xml).expect("glob and exact rules here do not conflict");

    let glob_match = map
        .resolve("constraints/flux_loop/measured", Direction::Forward)
        .expect("the glob rule must claim this path");
    assert_eq!(glob_match.rule_id.as_deref(), Some("glob-rule"));
    assert_eq!(glob_match.selector_stage, Some(SelectorStage::Glob));
    assert_eq!(resolved_path(&glob_match), "constraints/flux_loop/value");

    let exact_match = map
        .resolve("constraints/ip/measured", Direction::Forward)
        .expect("the exact rule must claim this path over the glob fallback");
    assert_eq!(exact_match.rule_id.as_deref(), Some("exact-rule"));
    assert_eq!(exact_match.selector_stage, Some(SelectorStage::Exact));
    assert_eq!(resolved_path(&exact_match), "constraints/ip/exact-value");

    assert_eq!(
        map.resolve("constraints/ip/position/measured", Direction::Forward),
        None
    );
}

#[test]
fn overlapping_glob_selectors_on_the_same_source_role_invalidate_the_map() {
    let xml = r#"
        <ids-map ids="equilibrium" format-version="1">
          <side id="left" dd="3.39.0" cocos="11"/>
          <side id="right" dd="4.1.1" cocos="17"/>
          <rules>
            <rule id="first" rel="left_only" left="a/*/c" glob="yes">
              <fidelity forward="lossy" reverse="unmappable"/>
            </rule>
            <rule id="second" rel="left_only" left="a/b/*" glob="yes">
              <fidelity forward="lossy" reverse="unmappable"/>
            </rule>
          </rules>
        </ids-map>
    "#;
    let err = ConversionMap::load(xml).unwrap_err();
    assert_eq!(
        err,
        LoadError::OverlappingSourceSelectors {
            role: "left",
            first: "a/*/c".to_string(),
            second: "a/b/*".to_string(),
        }
    );
}

#[test]
fn rejects_a_rule_that_sets_both_subtree_and_glob() {
    let xml = r#"
        <ids-map ids="equilibrium" format-version="1">
          <side id="left" dd="3.39.0" cocos="11"/>
          <side id="right" dd="4.1.1" cocos="17"/>
          <rules>
            <rule id="bogus" rel="renamed" left="a" right="b" subtree="yes" glob="yes">
              <fidelity forward="exact" reverse="exact"/>
            </rule>
          </rules>
        </ids-map>
    "#;
    let err = ConversionMap::load(xml).unwrap_err();
    assert_eq!(
        err,
        LoadError::InvalidRuleShape {
            rule_id: "bogus".to_string(),
            reason: "must not set both `subtree` and `glob`".to_string(),
        }
    );
}

#[test]
fn rejects_a_glob_renamed_rule_whose_sides_carry_different_wildcard_counts() {
    let xml = r#"
        <ids-map ids="equilibrium" format-version="1">
          <side id="left" dd="3.39.0" cocos="11"/>
          <side id="right" dd="4.1.1" cocos="17"/>
          <rules>
            <rule id="lopsided" rel="renamed"
                  left="constraints/*/measured" right="constraints/value" glob="yes">
              <fidelity forward="lossy" reverse="lossy"/>
            </rule>
          </rules>
        </ids-map>
    "#;
    let err = ConversionMap::load(xml).unwrap_err();
    assert_eq!(
        err,
        LoadError::InvalidRuleShape {
            rule_id: "lopsided".to_string(),
            reason: "glob `left` and `right` must carry the same number of `*` wildcards"
                .to_string(),
        }
    );
}

#[test]
fn overlapping_redefine_globs_invalidate_the_map() {
    let xml = r#"
        <ids-map ids="equilibrium" format-version="1">
          <side id="left" dd="3.39.0" cocos="11"/>
          <side id="right" dd="4.1.1" cocos="17"/>
          <transforms>
            <redefine glob="time_slice/*/chi_squared_r" left-units="m" right-units="m^-2">
              <fidelity forward="unmappable" reverse="unmappable"/>
            </redefine>
            <redefine glob="time_slice/constraints/*" left-units="m" right-units="m^-2">
              <fidelity forward="lossy" reverse="lossy"/>
            </redefine>
          </transforms>
        </ids-map>
    "#;
    assert_eq!(
        ConversionMap::load(xml).unwrap_err(),
        LoadError::OverlappingRedefineSelectors {
            first: "time_slice/*/chi_squared_r".to_string(),
            second: "time_slice/constraints/*".to_string(),
        }
    );
}

#[test]
fn unclaimed_inventory_path_fails_completeness_check() {
    let xml = r#"
        <ids-map ids="equilibrium" format-version="1">
          <side id="left" dd="3.39.0" cocos="11"/>
          <side id="right" dd="4.1.1" cocos="17"/>
        </ids-map>
    "#;
    let map = ConversionMap::load(xml).expect("a map with no default and no rules loads");
    let left_inventory = vec!["orphan/path".to_string()];
    let right_inventory: Vec<String> = vec![];

    let violations = map
        .check_completeness(&left_inventory, &right_inventory)
        .expect_err("a path with no rule and no default must fail completeness");
    assert!(
        violations.contains(&CompletenessViolation::UnclaimedInventoryPath {
            side: InventorySide::Left,
            path: "orphan/path".to_string(),
        })
    );
}

#[test]
fn default_match_assuming_a_missing_counterpart_fails_completeness_check() {
    let xml = r#"
        <ids-map ids="equilibrium" format-version="1">
          <side id="left" dd="3.39.0" cocos="11"/>
          <side id="right" dd="4.1.1" cocos="17"/>
          <default rel="identical"/>
        </ids-map>
    "#;
    let map = ConversionMap::load(xml).expect("map loads");
    let left_inventory = vec!["a".to_string()];
    let right_inventory: Vec<String> = vec![];

    let violations = map
        .check_completeness(&left_inventory, &right_inventory)
        .expect_err("the default cannot silently assume a nonexistent counterpart");
    assert!(
        violations.contains(&CompletenessViolation::DefaultAssumesMissingCounterpart {
            side: InventorySide::Left,
            path: "a".to_string(),
        })
    );
}

#[test]
fn identical_path_on_both_sides_satisfies_the_default_match() {
    let xml = r#"
        <ids-map ids="equilibrium" format-version="1">
          <side id="left" dd="3.39.0" cocos="11"/>
          <side id="right" dd="4.1.1" cocos="17"/>
          <default rel="identical"/>
        </ids-map>
    "#;
    let map = ConversionMap::load(xml).expect("map loads");
    let inventory = vec!["a".to_string()];
    assert_eq!(map.check_completeness(&inventory, &inventory), Ok(()));
}

#[test]
fn explicit_rule_claims_a_path_absent_from_the_other_side() {
    let xml = r#"
        <ids-map ids="equilibrium" format-version="1">
          <side id="left" dd="3.39.0" cocos="11"/>
          <side id="right" dd="4.1.1" cocos="17"/>
          <rules>
            <rule id="drop-a" rel="left_only" left="a">
              <fidelity forward="lossy" reverse="unmappable"/>
            </rule>
          </rules>
        </ids-map>
    "#;
    let map = ConversionMap::load(xml).expect("map loads");
    let left_inventory = vec!["a".to_string()];
    let right_inventory: Vec<String> = vec![];
    assert_eq!(
        map.check_completeness(&left_inventory, &right_inventory),
        Ok(())
    );
}

#[test]
fn rule_selector_not_backed_by_inventory_fails_completeness_check() {
    let xml = r#"
        <ids-map ids="equilibrium" format-version="1">
          <side id="left" dd="3.39.0" cocos="11"/>
          <side id="right" dd="4.1.1" cocos="17"/>
          <rules>
            <rule id="drop-invented" rel="left_only" left="totally/invented/path">
              <fidelity forward="lossy" reverse="unmappable"/>
            </rule>
          </rules>
        </ids-map>
    "#;
    let map = ConversionMap::load(xml).expect("map loads");
    let left_inventory: Vec<String> = vec![];
    let right_inventory: Vec<String> = vec![];

    let violations = map
        .check_completeness(&left_inventory, &right_inventory)
        .expect_err("a rule with no basis in the raw inventory must fail completeness");
    assert!(
        violations.contains(&CompletenessViolation::RuleSelectorNotBackedByInventory {
            rule_id: "drop-invented".to_string(),
            side: InventorySide::Left,
            pattern: "totally/invented/path".to_string(),
        })
    );
}

#[test]
fn merged_rule_from_candidate_absent_from_inventory_is_tolerated() {
    let xml = r#"
        <ids-map ids="equilibrium" format-version="1">
          <side id="left" dd="3.39.0" cocos="11"/>
          <side id="right" dd="4.1.1" cocos="17"/>
          <rules>
            <rule id="fold" rel="merged" right="modern">
              <from left="modern" precedence="1"/>
              <from left="legacy" precedence="2"/>
              <fidelity forward="lossy" reverse="exact"/>
            </rule>
          </rules>
        </ids-map>
    "#;
    let map = ConversionMap::load(xml).expect("map loads");
    let left_inventory = vec!["legacy".to_string()];
    let right_inventory = vec!["modern".to_string()];

    assert_eq!(
        map.check_completeness(&left_inventory, &right_inventory),
        Ok(())
    );
}

#[test]
fn subtree_rule_anchor_is_backed_by_a_nested_descendant_even_when_absent_itself() {
    let xml = r#"
        <ids-map ids="equilibrium" format-version="1">
          <side id="left" dd="3.39.0" cocos="11"/>
          <side id="right" dd="4.1.1" cocos="17"/>
          <rules>
            <rule id="drop-group" rel="left_only" left="a/group" subtree="yes">
              <fidelity forward="lossy" reverse="unmappable"/>
            </rule>
          </rules>
        </ids-map>
    "#;
    let map = ConversionMap::load(xml).expect("map loads");
    let left_inventory = vec!["a/group/leaf".to_string()];
    let right_inventory: Vec<String> = vec![];

    assert_eq!(
        map.check_completeness(&left_inventory, &right_inventory),
        Ok(())
    );
}

#[test]
fn retyped_rule_anchor_absent_from_inventory_is_backed_by_its_shape_derived_child() {
    let xml = r#"
        <ids-map ids="equilibrium" format-version="1">
          <side id="left" dd="3.39.0" cocos="11"/>
          <side id="right" dd="4.1.1" cocos="17"/>
          <rules>
            <rule id="retype-coordinates-type" rel="retyped"
                  left="grids_ggd/grid/space/coordinates_type"
                  right="grids_ggd/grid/space/coordinates_type"
                  subtree="yes">
              <fidelity forward="exact" reverse="exact"/>
            </rule>
          </rules>
        </ids-map>
    "#;
    let map = ConversionMap::load(xml).expect("retyped rule is structurally valid");
    let left_inventory = vec!["grids_ggd/grid/space/coordinates_type".to_string()];
    let right_inventory = vec!["grids_ggd/grid/space/coordinates_type/index".to_string()];

    assert_eq!(
        map.check_completeness(&left_inventory, &right_inventory),
        Ok(())
    );
}

#[test]
fn a_right_only_rule_contradicted_by_the_left_inventory_fails_completeness_check() {
    let xml = r#"
        <ids-map ids="equilibrium" format-version="1">
          <side id="left" dd="3.39.0" cocos="11"/>
          <side id="right" dd="4.1.1" cocos="17"/>
          <default rel="identical"/>
          <rules>
            <rule id="new-b" rel="right_only" right="a/b">
              <fidelity forward="unmappable" reverse="lossy"/>
            </rule>
          </rules>
        </ids-map>
    "#;
    let map = ConversionMap::load(xml).expect("map loads");
    let left_inventory = vec!["a/b".to_string()];
    let right_inventory = vec!["a/b".to_string()];

    let violations = map
        .check_completeness(&left_inventory, &right_inventory)
        .expect_err("a right_only rule's own path must not exist on the left");
    assert!(
        violations.contains(
            &CompletenessViolation::SideOnlyRuleContradictedByInventory {
                rule_id: "new-b".to_string(),
                side: InventorySide::Left,
                pattern: "a/b".to_string(),
                path: "a/b".to_string(),
            }
        ),
        "{violations:?}"
    );
}

#[test]
fn completeness_violations_do_not_influence_resolution() {
    let xml = r#"
        <ids-map ids="equilibrium" format-version="1">
          <side id="left" dd="3.39.0" cocos="11"/>
          <side id="right" dd="4.1.1" cocos="17"/>
          <default rel="identical"/>
        </ids-map>
    "#;
    let map = ConversionMap::load(xml).expect("map loads");
    let left_inventory = vec!["a".to_string()];
    let right_inventory: Vec<String> = vec![]; // deliberately incomplete

    let before = map.resolve("a", Direction::Forward);
    assert!(
        map.check_completeness(&left_inventory, &right_inventory)
            .is_err()
    );
    let after = map.resolve("a", Direction::Forward);

    assert_eq!(before, after);
}

#[test]
fn a_left_only_rule_answers_only_forward_requests() {
    let xml = r#"
        <ids-map ids="equilibrium" format-version="1">
          <side id="left" dd="3.39.0" cocos="11"/>
          <side id="right" dd="4.1.1" cocos="17"/>
          <default rel="identical"/>
          <rules>
            <rule id="gone" rel="left_only" left="old/quantity">
              <fidelity forward="lossy" reverse="exact"/>
            </rule>
          </rules>
        </ids-map>
    "#;
    let map = ConversionMap::load(xml).expect("map loads");

    let forward = map.resolve("old/quantity", Direction::Forward).expect("the rule claims it");
    assert_eq!(forward.rule_id.as_deref(), Some("gone"));
    assert_eq!(forward.match_kind, MatchKind::Explicit);
    assert_eq!(forward.fidelity, Fidelity::Lossy);
    assert_eq!(forward.outcome, Outcome::NoSource);

    let reverse = map
        .resolve("old/quantity", Direction::Reverse)
        .expect("the identity default answers a reverse request");
    assert_eq!(reverse.rule_id, None);
    assert_eq!(reverse.match_kind, MatchKind::Default);
    assert_eq!(resolved_path(&reverse), "old/quantity");
}

#[test]
fn an_unclaimed_path_under_a_redefine_refuses_with_that_redefines_fidelity() {
    let xml = r#"
        <ids-map ids="equilibrium" format-version="1">
          <side id="left" dd="3.39.0" cocos="11"/>
          <side id="right" dd="4.1.1" cocos="17"/>
          <default rel="identical"/>
          <transforms>
            <redefine glob="time_slice/*/chi_squared_r" left-units="m" right-units="m^-2">
              <fidelity forward="lossy" reverse="unmappable"/>
            </redefine>
          </transforms>
        </ids-map>
    "#;
    let map = ConversionMap::load(xml).expect("map loads");

    let redefined = map
        .resolve("time_slice/3/chi_squared_r", Direction::Reverse)
        .expect("the default answers");
    assert_eq!(redefined.match_kind, MatchKind::Default);
    assert_eq!(redefined.rule_id, None);
    assert_eq!(redefined.selector_stage, None);
    assert_eq!(redefined.precedence, None);
    assert_eq!(redefined.fidelity, Fidelity::Unmappable);
    assert_eq!(redefined.outcome, Outcome::Refusal(RefusalReason::UnitRedefinition));

    let plain = map.resolve("time_slice/3/other", Direction::Forward).expect("the default answers");
    assert_eq!(plain.fidelity, Fidelity::Exact);
    assert_eq!(resolved_path(&plain), "time_slice/3/other");
    assert!(candidates(&plain).is_empty());
}

#[test]
fn a_merged_rule_reports_the_matching_from_precedence_forward_and_a_plan_in_reverse() {
    let xml = r#"
        <ids-map ids="equilibrium" format-version="1">
          <side id="left" dd="3.39.0" cocos="11"/>
          <side id="right" dd="4.1.1" cocos="17"/>
          <rules>
            <rule id="fold" rel="merged" right="b">
              <from left="a2" precedence="2"/>
              <from left="a1" precedence="1"/>
              <fidelity forward="lossy" reverse="lossy"/>
            </rule>
          </rules>
        </ids-map>
    "#;
    let map = ConversionMap::load(xml).expect("map loads");

    let forward = map.resolve("a2", Direction::Forward).expect("an alias matches");
    assert_eq!(forward.precedence, Some(2));
    assert_eq!(resolved_path(&forward), "b");
    assert!(candidates(&forward).is_empty());

    let reverse = map.resolve("b", Direction::Reverse).expect("the canonical path matches");
    assert_eq!(reverse.precedence, None);
    let plan = candidates(&reverse);
    assert_eq!(plan.len(), 2);
    assert_eq!(plan[0].precedence, 1);
    assert_eq!(plan[1].precedence, 2);
    assert_eq!(resolved_path(&reverse), plan[0].path);
}
