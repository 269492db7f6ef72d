use imas_mvdd::conversion_map::{ConversionMap, Direction, Fidelity};
use imas_mvdd::dd_version::DdVersion;
use imas_mvdd::read_path::{DOUBLE_DATA_ID, INTEGER_DATA_ID};
use imas_mvdd::status::{path_conversion_refusal, IMAS_MVDD_CONVERSION_ERROR};
use imas_mvdd::write_plan::{plan_delete, plan_write, DeleteStep, WriteStep};

const UNMAPPABLE_ARTIFACT: &str = r#"
    <ids-map ids="equilibrium" format-version="1">
      <side id="left" dd="3.39.0" cocos="11"/>
      <side id="right" dd="4.1.1" cocos="17"/>
      <rules>
        <rule id="declared-impossible" rel="renamed" left="impossible" right="stored">
          <fidelity forward="unmappable" reverse="exact"/>
        </rule>
      </rules>
    </ids-map>
"#;

const MERGED_ARTIFACT: &str = r#"
    <ids-map ids="equilibrium" format-version="1">
      <side id="left" dd="3.39.0" cocos="11"/>
      <side id="right" dd="4.1.1" cocos="17"/>
      <rules>
        <rule id="fold-two" rel="merged" right="folded">
          <from left="primary" precedence="1"/>
          <from left="secondary" precedence="2"/>
          <fidelity forward="exact" reverse="lossy"/>
        </rule>
      </rules>
    </ids-map>
"#;

const MIXED_ARTIFACT: &str = r#"
    <ids-map ids="equilibrium" format-version="1">
      <side id="left" dd="3.39.0" cocos="11"/>
      <side id="right" dd="4.1.1" cocos="17"/>
      <default rel="identical"/>
      <rules>
        <rule id="rename-a" rel="renamed" left="old_name" right="new_name">
          <fidelity forward="exact" reverse="exact"/>
        </rule>
        <rule id="drop-b" rel="left_only" left="dropped">
          <fidelity forward="lossy" reverse="unmappable"/>
        </rule>
      </rules>
      <transforms>
        <cocos from="11" to="17">
          <flip path="time_slice/boundary/psi"/>
        </cocos>
      </transforms>
    </ids-map>
"#;

fn load(xml: &str) -> ConversionMap {
    ConversionMap::load(xml).expect("fixture artifact must load")
}

#[test]
fn a_declared_unmappable_write_refusal_carries_its_message_and_write_loss() {
    let map = load(UNMAPPABLE_ARTIFACT);
    let step = plan_write(
        &map,
        "",
        Direction::Forward,
        Some("impossible"),
        None,
        DOUBLE_DATA_ID,
        0,
        false,
        true,
        None,
    );
    let (reason, dd_path, losses) = match step {
        WriteStep::Refuse { reason, dd_path, losses } => (reason, dd_path, losses),
        WriteStep::Forward { .. } => panic!("a declared-unmappable write must refuse"),
    };
    let hli: DdVersion = "3.39.0".parse().expect("known release");
    let stored: DdVersion = "4.1.1".parse().expect("known release");
    let status = path_conversion_refusal(&reason, &dd_path, &hli, &stored);
    assert_eq!(status.code, IMAS_MVDD_CONVERSION_ERROR);
    let end = status.message.iter().position(|b| *b == 0).expect("NUL-terminated");
    assert_eq!(
        std::str::from_utf8(&status.message[..end]).expect("UTF-8"),
        "IMAS-MVDD: this path has no safe conversion between DD versions; DD path: impossible; \
         HLI DD version: 3.39.0; stored DD version: 4.1.1"
    );
    assert_eq!(losses, vec![("impossible".to_string(), Fidelity::Unmappable)]);
}

#[test]
fn a_declared_lossy_candidate_plan_still_retains_a_potential_loss() {
    let map = load(MERGED_ARTIFACT);
    let step = plan_write(
        &map,
        "",
        Direction::Reverse,
        Some("folded"),
        None,
        DOUBLE_DATA_ID,
        1,
        false,
        true,
        Some(&[1]),
    );
    match step {
        WriteStep::Forward { field, timebase, flip, losses_on_success } => {
            assert_eq!(field.as_deref(), Some("primary"));
            assert_eq!(timebase, None);
            assert_eq!(flip, None);
            assert_eq!(
                losses_on_success,
                vec![("secondary".to_string(), Fidelity::PotentiallyLossy)]
            );
        }
        WriteStep::Refuse { .. } => panic!("a precedence-1 write over a candidate plan must forward"),
    }
}

#[test]
fn an_unset_scalar_over_a_candidate_plan_earns_no_loss() {
    let map = load(MERGED_ARTIFACT);
    let step = plan_write(&map, "", Direction::Reverse, Some("folded"), None, DOUBLE_DATA_ID, 0, true, true, None);
    match step {
        WriteStep::Forward { field, losses_on_success, .. } => {
            assert_eq!(field.as_deref(), Some("primary"));
            assert!(losses_on_success.is_empty());
        }
        WriteStep::Refuse { .. } => panic!("an unset scalar write forwards"),
    }
}

#[test]
fn a_sign_flipped_write_sends_a_flipped_copy_of_every_value() {
    let map = load(MIXED_ARTIFACT);
    let step = plan_write(
        &map,
        "",
        Direction::Forward,
        Some("time_slice/boundary/psi"),
        None,
        DOUBLE_DATA_ID,
        2,
        false,
        true,
        Some(&[2, 3]),
    );
    match step {
        WriteStep::Forward { field, flip, losses_on_success, .. } => {
            assert_eq!(field.as_deref(), Some("time_slice/boundary/psi"));
            assert_eq!(flip, Some(6));
            assert!(losses_on_success.is_empty());
        }
        WriteStep::Refuse { reason, .. } => panic!("a double write must forward, refused: {reason}"),
    }
    let unset = plan_write(
        &map,
        "",
        Direction::Forward,
        Some("time_slice/boundary/psi"),
        None,
        DOUBLE_DATA_ID,
        0,
        true,
        true,
        None,
    );
    assert!(matches!(unset, WriteStep::Forward { flip: None, .. }));
}

#[test]
fn a_sign_flipped_write_of_other_data_or_without_a_buffer_refuses() {
    let map = load(MIXED_ARTIFACT);
    match plan_write(
        &map,
        "time_slice",
        Direction::Forward,
        Some("boundary/psi"),
        None,
        INTEGER_DATA_ID,
        0,
        false,
        true,
        None,
    ) {
        WriteStep::Refuse { reason, dd_path, losses } => {
            assert_eq!(
                reason,
                "value-transform execution requires DOUBLE_DATA and a rank no greater than MAXDIM"
            );
            assert_eq!(dd_path, "time_slice/boundary/psi");
            assert_eq!(losses, vec![("time_slice/boundary/psi".to_string(), Fidelity::Unmappable)]);
        }
        WriteStep::Forward { .. } => panic!("integer data cannot be flipped"),
    }
    match plan_write(
        &map,
        "",
        Direction::Forward,
        Some("time_slice/boundary/psi"),
        None,
        DOUBLE_DATA_ID,
        0,
        false,
        false,
        None,
    ) {
        WriteStep::Refuse { reason, .. } => {
            assert_eq!(reason, "value-transform execution needs a data buffer")
        }
        WriteStep::Forward { .. } => panic!("a missing buffer cannot be flipped"),
    }
}

#[test]
fn a_write_with_no_stored_source_refuses() {
    let map = load(MIXED_ARTIFACT);
    match plan_write(&map, "", Direction::Forward, Some("dropped"), None, DOUBLE_DATA_ID, 0, false, true, None) {
        WriteStep::Refuse { reason, dd_path, .. } => {
            assert_eq!(reason, "this path has no stored source");
            assert_eq!(dd_path, "dropped");
        }
        WriteStep::Forward { .. } => panic!("a path with no stored source cannot be written"),
    }
    match plan_write(
        &map,
        "",
        Direction::Forward,
        Some("old_name"),
        Some("dropped"),
        DOUBLE_DATA_ID,
        0,
        false,
        true,
        None,
    ) {
        WriteStep::Refuse { dd_path, .. } => assert_eq!(dd_path, "dropped"),
        WriteStep::Forward { .. } => panic!("the timebase is judged too"),
    }
}

#[test]
fn deletes_translate_identical_and_renamed_paths() {
    let map = load(MIXED_ARTIFACT);
    assert!(matches!(
        plan_delete(&map, "", Direction::Forward, Some("old_name")),
        DeleteStep::Forward { path: Some(p) } if p == "new_name"
    ));
    assert!(matches!(
        plan_delete(&map, "time_slice", Direction::Forward, Some("global_quantities/ip")),
        DeleteStep::Forward { path: Some(p) } if p == "global_quantities/ip"
    ));
    assert!(matches!(
        plan_delete(&map, "", Direction::Forward, None),
        DeleteStep::Forward { path: None }
    ));
    assert!(matches!(
        plan_delete(&map, "", Direction::Forward, Some("")),
        DeleteStep::Forward { path: None }
    ));
}

#[test]
fn deletes_refuse_the_stamp_a_missing_source_and_a_secondary_source() {
    let map = load(MIXED_ARTIFACT);
    match plan_delete(&map, "", Direction::Forward, Some("ids_properties/version_put/data_dictionary")) {
        DeleteStep::Refuse { reason, dd_path, losses } => {
            assert_eq!(reason, "the DD-version stamp cannot be deleted on a converting context");
            assert_eq!(dd_path, "ids_properties/version_put/data_dictionary");
            assert_eq!(
                losses,
                vec![("ids_properties/version_put/data_dictionary".to_string(), Fidelity::Unmappable)]
            );
        }
        DeleteStep::Forward { .. } => panic!("the stamp cannot be deleted"),
    }
    match plan_delete(&map, "", Direction::Forward, Some("dropped")) {
        DeleteStep::Refuse { reason, .. } => assert_eq!(reason, "this path has no stored source"),
        DeleteStep::Forward { .. } => panic!("a path with no stored source cannot be deleted"),
    }
    let merged = load(MERGED_ARTIFACT);
    match plan_delete(&merged, "", Direction::Forward, Some("secondary")) {
        DeleteStep::Refuse { reason, .. } => {
            assert_eq!(reason, "only a rule's primary source can be deleted")
        }
        DeleteStep::Forward { .. } => panic!("a secondary source cannot be deleted"),
    }
    match plan_delete(&merged, "", Direction::Reverse, Some("folded")) {
        DeleteStep::Refuse { reason, .. } => assert_eq!(
            reason,
            "only an identical, renamed or moved path can be deleted across DD versions"
        ),
        DeleteStep::Forward { .. } => panic!("a candidate plan cannot be deleted"),
    }
    let unclaimed = load(UNMAPPABLE_ARTIFACT);
    match plan_delete(&unclaimed, "", Direction::Forward, Some("elsewhere")) {
        DeleteStep::Refuse { reason, .. } => assert_eq!(reason, "no conversion rule claims this path"),
        DeleteStep::Forward { .. } => panic!("an unclaimed path cannot be deleted"),
    }
}
