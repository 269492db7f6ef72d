use imas_mvdd::context_registry::{ContextRegistry, MapCacheKey};
use imas_mvdd::conversion_map::{ConversionMap, Direction, Fidelity, ValueTransformation};
use imas_mvdd::dd_version::DdVersion;
use imas_mvdd::loss::LossOperation;
use imas_mvdd::read_outcome::ReadOutcome;
use imas_mvdd::read_path::{
    resolve_arraystruct_argument, resolve_context_path, resolve_read_path, stored_anchor,
    ContextPathResolution, ReadPath, DOUBLE_DATA_ID, INTEGER_DATA_ID,
};
use imas_mvdd::read_plan::{
    begin_read, element_count, plan_read, retain_read_losses, validate_value_transformation,
    ReadFinish, ReadStep, ReadVerdict,
};

const NO_DEFAULT_ARTIFACT: &str = r#"
    <ids-map ids="equilibrium" format-version="1">
      <side id="left" dd="3.39.0" cocos="11"/>
      <side id="right" dd="4.1.1" cocos="17"/>
      <rules>
        <rule id="rename-claimed" rel="renamed" left="claimed" right="claimed_new">
          <fidelity forward="exact" reverse="exact"/>
        </rule>
      </rules>
    </ids-map>
"#;

const MERGED_ARTIFACT: &str = r#"
    <ids-map ids="equilibrium" format-version="1">
      <side id="left" dd="3.39.0" cocos="11"/>
      <side id="right" dd="4.1.1" cocos="17"/>
      <rules>
        <rule id="fold-two" rel="merged" right="folded">
          <from left="primary" precedence="1"/>
          <from left="secondary" precedence="2"/>
          <fidelity forward="exact" reverse="lossy"/>
        </rule>
      </rules>
    </ids-map>
"#;

const FLIP_ARTIFACT: &str = r#"
    <ids-map ids="equilibrium" format-version="1">
      <side id="left" dd="3.39.0" cocos="11"/>
      <side id="right" dd="4.1.1" cocos="17"/>
      <default rel="identical"/>
      <transforms>
        <cocos from="11" to="17">
          <flip path="time_slice/boundary/psi"/>
        </cocos>
      </transforms>
    </ids-map>
"#;

const ANCHORED_ARTIFACT: &str = r#"
    <ids-map ids="equilibrium" format-version="1">
      <side id="left" dd="3.39.0" cocos="11"/>
      <side id="right" dd="4.1.1" cocos="17"/>
      <default rel="identical"/>
      <rules>
        <rule id="move-profiles" rel="moved" left="time_slice/profiles_1d"
              right="time_slice/profiles" subtree="yes">
          <fidelity forward="lossy" reverse="lossy"/>
        </rule>
      </rules>
    </ids-map>
"#;

fn load(xml: &str) -> ConversionMap {
    ConversionMap::load(xml).expect("fixture artifact must load")
}

fn finish(step: ReadStep) -> ReadFinish {
    match step {
        ReadStep::Finish(f) => f,
        ReadStep::Call { .. } => panic!("the read must have ended"),
    }
}

#[test]
fn an_unclaimed_read_path_returns_not_found_rather_than_forwarding() {
    let map = load(NO_DEFAULT_ARTIFACT);

    match resolve_read_path(&map, "", Direction::Forward, Some("claimed")) {
        ReadPath::Translated(translated) => assert_eq!(translated.path, "claimed_new"),
        _ => panic!("the fixture's own rule must still translate"),
    }

    match resolve_read_path(&map, "", Direction::Forward, Some("nothing/claims/this")) {
        ReadPath::NoSource(fidelity) => assert_eq!(fidelity, Fidelity::Unmappable),
        ReadPath::Forward => panic!("an unclaimed path was forwarded"),
        _ => panic!("an unclaimed path must resolve to not-found"),
    }

    assert!(matches!(
        resolve_read_path(&map, "", Direction::Forward, Some("")),
        ReadPath::Forward
    ));
    assert!(matches!(
        resolve_read_path(&map, "", Direction::Forward, None),
        ReadPath::Forward
    ));
}

#[test]
fn an_unclaimed_field_ends_the_read_before_any_call() {
    let map = load(NO_DEFAULT_ARTIFACT);
    let end = finish(begin_read(
        &map,
        "",
        Direction::Forward,
        Some("nothing/claims/this"),
        None,
        DOUBLE_DATA_ID,
        0,
    ));
    assert!(matches!(end.verdict, ReadVerdict::NoSource));
    assert_eq!(end.field_fidelity, Fidelity::Unmappable);
    assert_eq!(end.timebase_fidelity, Fidelity::Exact);
}

#[test]
fn a_read_with_nothing_to_translate_forwards_once_and_retains_nothing() {
    let map = load(NO_DEFAULT_ARTIFACT);
    let (plan, field, timebase) = match begin_read(&map, "", Direction::Forward, None, None, 51, 0) {
        ReadStep::Call { plan, field, timebase } => (plan, field, timebase),
        ReadStep::Finish(_) => panic!("a read with nothing to translate must call"),
    };
    assert_eq!(field, None);
    assert_eq!(timebase, None);
    let end = finish(plan.on_result(ReadOutcome::Data, None));
    assert!(matches!(end.verdict, ReadVerdict::ReturnStatus { flip: None }));
    assert_eq!(end.field_fidelity, Fidelity::Exact);
    assert_eq!(end.timebase_fidelity, Fidelity::Exact);
}

#[test]
fn a_candidate_plan_is_tried_in_declared_precedence_until_the_first_hit() {
    let map = load(MERGED_ARTIFACT);
    match resolve_read_path(&map, "", Direction::Reverse, Some("folded")) {
        ReadPath::Candidates(components) => {
            let paths: Vec<&str> = components.iter().map(|c| c.path.as_str()).collect();
            assert_eq!(paths, vec!["primary", "secondary"]);
            for c in &components {
                assert_eq!(c.fidelity, Fidelity::PotentiallyLossy);
            }
        }
        _ => panic!("a merged rule read in reverse must offer a candidate plan"),
    }

    let (plan, field, timebase) =
        match begin_read(&map, "", Direction::Reverse, Some("folded"), None, DOUBLE_DATA_ID, 1) {
            ReadStep::Call { plan, field, timebase } => (plan, field, timebase),
            ReadStep::Finish(_) => panic!("the first candidate must be tried"),
        };
    assert_eq!(field.as_deref(), Some("primary"));
    assert_eq!(timebase, None);

    let (plan, field, _) = match plan.on_result(ReadOutcome::NotFound, None) {
        ReadStep::Call { plan, field, timebase } => (plan, field, timebase),
        ReadStep::Finish(_) => panic!("the second candidate must be tried"),
    };
    assert_eq!(field.as_deref(), Some("secondary"));

    let end = finish(plan.on_result(ReadOutcome::Data, Some(&[3])));
    assert!(matches!(end.verdict, ReadVerdict::ReturnStatus { flip: None }));
    assert_eq!(end.field_fidelity, Fidelity::PotentiallyLossy);
    assert_eq!(end.timebase_fidelity, Fidelity::Exact);
}

#[test]
fn an_exhausted_candidate_plan_answers_not_found_with_its_verdict() {
    let map = load(MERGED_ARTIFACT);
    let mut step = begin_read(&map, "", Direction::Reverse, Some("folded"), None, DOUBLE_DATA_ID, 1);
    let mut calls = 0;
    let end = loop {
        match step {
            ReadStep::Call { plan, .. } => {
                calls += 1;
                step = plan.on_result(ReadOutcome::NotFound, None);
            }
            ReadStep::Finish(f) => break f,
        }
    };
    assert_eq!(calls, 2);
    assert!(matches!(end.verdict, ReadVerdict::NoSource));
    assert_eq!(end.field_fidelity, Fidelity::PotentiallyLossy);
}

#[test]
fn a_failed_call_returns_its_status_with_the_candidate_verdict() {
    let map = load(MERGED_ARTIFACT);
    let plan = match begin_read(&map, "", Direction::Reverse, Some("folded"), None, DOUBLE_DATA_ID, 1) {
        ReadStep::Call { plan, .. } => plan,
        ReadStep::Finish(_) => panic!("the first candidate must be tried"),
    };
    let end = finish(plan.on_result(ReadOutcome::Failure, None));
    assert!(matches!(end.verdict, ReadVerdict::ReturnStatus { flip: None }));
    assert_eq!(end.field_fidelity, Fidelity::PotentiallyLossy);
}

#[test]
fn a_sign_flipped_double_read_asks_for_every_returned_value_to_be_negated() {
    let map = load(FLIP_ARTIFACT);
    let plan = match begin_read(
        &map,
        "",
        Direction::Forward,
        Some("time_slice/boundary/psi"),
        None,
        DOUBLE_DATA_ID,
        2,
    ) {
        ReadStep::Call { plan, field, .. } => {
            assert_eq!(field.as_deref(), Some("time_slice/boundary/psi"));
            plan
        }
        ReadStep::Finish(_) => panic!("a flipped double read must call"),
    };
    let end = finish(plan.on_result(ReadOutcome::Data, Some(&[3, 4])));
    match end.verdict {
        ReadVerdict::ReturnStatus { flip } => assert_eq!(flip, Some(12)),
        _ => panic!("a flipped read with a valid shape returns its status"),
    }
    assert_eq!(end.field_fidelity, Fidelity::Exact);
}

#[test]
fn a_sign_flip_on_integer_data_is_refused_before_any_call() {
    let map = load(FLIP_ARTIFACT);
    let end = finish(begin_read(
        &map,
        "",
        Direction::Forward,
        Some("time_slice/boundary/psi"),
        None,
        INTEGER_DATA_ID,
        0,
    ));
    match end.verdict {
        ReadVerdict::Refuse { reason, dd_path } => {
            assert_eq!(
                reason,
                "value-transform execution requires DOUBLE_DATA and a rank no greater than MAXDIM"
            );
            assert_eq!(dd_path, "time_slice/boundary/psi");
        }
        _ => panic!("an integer read cannot be sign flipped"),
    }
    assert_eq!(end.field_fidelity, Fidelity::Unmappable);
}

#[test]
fn a_sign_flipped_read_without_dimensions_is_refused() {
    let map = load(FLIP_ARTIFACT);
    let plan = match begin_read(
        &map,
        "",
        Direction::Forward,
        Some("time_slice/boundary/psi"),
        None,
        DOUBLE_DATA_ID,
        1,
    ) {
        ReadStep::Call { plan, .. } => plan,
        ReadStep::Finish(_) => panic!("a flipped double read must call"),
    };
    let end = finish(plan.on_result(ReadOutcome::Data, None));
    match end.verdict {
        ReadVerdict::Refuse { reason, .. } => {
            assert_eq!(reason, "value-transform execution needs array dimensions")
        }
        _ => panic!("a read with no returned shape cannot be flipped"),
    }
    assert_eq!(end.field_fidelity, Fidelity::Unmappable);
}

#[test]
fn validation_accepts_double_data_up_to_maxdim_only() {
    let flip = ValueTransformation::SignFlip {
        from_cocos: imas_mvdd::conversion_map::CocosConvention("11".to_string()),
        to_cocos: imas_mvdd::conversion_map::CocosConvention("17".to_string()),
    };
    assert_eq!(validate_value_transformation(&flip, DOUBLE_DATA_ID, 0), Ok(()));
    assert_eq!(validate_value_transformation(&flip, DOUBLE_DATA_ID, 7), Ok(()));
    assert!(validate_value_transformation(&flip, DOUBLE_DATA_ID, 8).is_err());
    assert!(validate_value_transformation(&flip, DOUBLE_DATA_ID, -1).is_err());
    assert!(validate_value_transformation(&flip, INTEGER_DATA_ID, 1).is_err());
    assert_eq!(
        validate_value_transformation(&ValueTransformation::Unchanged, INTEGER_DATA_ID, 9),
        Ok(())
    );
}

#[test]
fn element_count_covers_scalars_shapes_and_invalid_extents() {
    assert_eq!(element_count(0, None), Ok(1));
    assert_eq!(element_count(2, Some(&[2, 5])), Ok(10));
    assert_eq!(element_count(1, Some(&[0])), Ok(0));
    assert_eq!(
        element_count(1, None),
        Err("value-transform execution needs array dimensions")
    );
    assert_eq!(
        element_count(2, Some(&[3, -1])),
        Err("value-transform execution received an invalid array shape")
    );
    assert_eq!(
        element_count(3, Some(&[i32::MAX, i32::MAX, i32::MAX])),
        Err("value-transform execution received an invalid array shape")
    );
}

#[test]
fn a_declared_refusal_names_the_full_dd_path() {
    let map = load(ANCHORED_ARTIFACT);
    let field = resolve_read_path(&map, "time_slice/profiles_1d", Direction::Forward, Some("psi"));
    match field {
        ReadPath::Translated(c) => {
            assert_eq!(c.path, "psi");
            assert_eq!(c.fidelity, Fidelity::Lossy);
        }
        _ => panic!("a relative argument under a moved anchor must translate"),
    }
    let end = finish(plan_read(
        ReadPath::Refusal {
            reason: "no".to_string(),
            dd_path: "a/b".to_string(),
            fidelity: Fidelity::Unmappable,
        },
        ReadPath::Forward,
        "a/b".to_string(),
        DOUBLE_DATA_ID,
        0,
    ));
    match end.verdict {
        ReadVerdict::Refuse { reason, dd_path } => {
            assert_eq!(reason, "no");
            assert_eq!(dd_path, "a/b");
        }
        _ => panic!("a refused field refuses the read"),
    }
    assert_eq!(end.field_fidelity, Fidelity::Unmappable);
    assert_eq!(end.timebase_fidelity, Fidelity::Exact);
}

#[test]
fn context_paths_keep_the_callers_relative_spelling() {
    let map = load(ANCHORED_ARTIFACT);
    assert_eq!(
        stored_anchor(&map, "time_slice/profiles_1d", Direction::Forward),
        Ok("time_slice/profiles".to_string())
    );
    assert_eq!(
        resolve_context_path(&map, "time_slice/profiles_1d", Direction::Forward, Some("psi")),
        ContextPathResolution::Translated("psi".to_string())
    );
    assert_eq!(
        resolve_context_path(
            &map,
            "time_slice/profiles_1d",
            Direction::Forward,
            Some("/time_slice/profiles_1d/psi")
        ),
        ContextPathResolution::Translated("/time_slice/profiles/psi".to_string())
    );
    assert_eq!(
        resolve_context_path(&map, "time_slice/profiles_1d", Direction::Forward, None),
        ContextPathResolution::Forward
    );
}

#[test]
fn an_arraystruct_open_refuses_an_unclaimed_path() {
    let map = load(NO_DEFAULT_ARTIFACT);
    assert_eq!(
        resolve_arraystruct_argument(&map, "", Direction::Forward, Some("nowhere"), "path"),
        Err("arraystruct path is unclaimed by the conversion map".to_string())
    );
    assert_eq!(
        resolve_arraystruct_argument(&map, "", Direction::Forward, Some("claimed"), "path"),
        Ok(Some("claimed_new".to_string()))
    );
    assert_eq!(
        resolve_arraystruct_argument(&map, "", Direction::Forward, None, "path"),
        Ok(None)
    );
}

#[test]
fn a_finished_read_retains_each_non_exact_verdict_under_its_full_path() {
    let mut registry: ContextRegistry<()> = ContextRegistry::new();
    let stored: DdVersion = "3.39.0".parse().expect("known release");
    let hli: DdVersion = "4.1.1".parse().expect("known release");
    assert!(registry.record_root(
        7,
        String::new(),
        7,
        MapCacheKey::new("equilibrium".to_string(), stored, hli),
        Direction::Forward,
        || (),
    ));
    let end = ReadFinish {
        verdict: ReadVerdict::NoSource,
        field_fidelity: Fidelity::Lossy,
        timebase_fidelity: Fidelity::Exact,
    };
    retain_read_losses(&mut registry, 7, "time_slice", Some("psi"), Some("time"), &end);
    assert_eq!(registry.loss_count(7), 1);
    assert_eq!(
        registry.loss_at(7, 0),
        Some(("time_slice/psi", Fidelity::Lossy, LossOperation::Read))
    );
    retain_read_losses(&mut registry, 7, "time_slice", None, None, &end);
    assert_eq!(registry.loss_count(7), 1);
}
