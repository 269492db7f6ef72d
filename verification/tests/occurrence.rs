use imas_mvdd::context_registry::ContextRegistry;
use imas_mvdd::conversion_map::{ConversionMap, Direction};
use imas_mvdd::dd_version::DdVersion;
use imas_mvdd::occurrence::{
    arraystruct_open_arguments, datapath_translation, ids_name_from, known_mismatch,
    record_discovery, stamp_probe_owed, Discovery, READ_OP_ID,
};
use imas_mvdd::status::conversion_refusal;
use imas_mvdd::version_stamp::StampOutcome;

const ARTIFACT: &str = r#"
    <ids-map ids="equilibrium" format-version="1">
      <side id="left" dd="3.39.0" cocos="11"/>
      <side id="right" dd="4.1.1" cocos="17"/>
      <rules>
        <rule id="rename-claimed" rel="renamed" left="claimed" right="claimed_new">
          <fidelity forward="exact" reverse="exact"/>
        </rule>
        <rule id="gone" rel="left_only" left="dropped">
          <fidelity forward="lossy" reverse="unmappable"/>
        </rule>
      </rules>
    </ids-map>
"#;

fn version(input: &str) -> DdVersion {
    input.parse().expect("test DD version must be valid")
}

fn map() -> ConversionMap {
    ConversionMap::load(ARTIFACT).expect("fixture artifact must load")
}

#[test]
fn the_ids_name_drops_the_occurrence_number() {
    assert_eq!(ids_name_from("equilibrium/3"), "equilibrium");
    assert_eq!(ids_name_from("equilibrium"), "equilibrium");
    assert_eq!(ids_name_from("a/b/c"), "a");
    assert_eq!(ids_name_from(""), "");
}

#[test]
fn a_remembered_mismatch_makes_a_later_open_translate() {
    let mut registry: ContextRegistry<()> = ContextRegistry::new();
    registry.record_dataentry(1);
    let hli = version("4.1.1");
    assert_eq!(known_mismatch(&registry, 1, "equilibrium/0", &hli), None);

    let found = record_discovery(
        &mut registry,
        1,
        "equilibrium/0",
        &hli,
        StampOutcome::Stored(version("3.39.0")),
    );
    match found {
        Discovery::Mismatch(stored) => assert_eq!(stored, version("3.39.0")),
        _ => panic!("a differing valid stamp is a mismatch"),
    }
    assert_eq!(
        known_mismatch(&registry, 1, "equilibrium/0", &hli),
        Some(version("3.39.0"))
    );

    let again = record_discovery(&mut registry, 1, "equilibrium/0", &hli, StampOutcome::Unstamped);
    assert!(matches!(again, Discovery::Presumed));
    assert_eq!(known_mismatch(&registry, 1, "equilibrium/0", &hli), None);
}

#[test]
fn a_matching_stamp_forgets_an_earlier_mismatch() {
    let mut registry: ContextRegistry<()> = ContextRegistry::new();
    registry.record_dataentry(2);
    let hli = version("4.1.1");
    record_discovery(&mut registry, 2, "equilibrium", &hli, StampOutcome::Stored(version("3.39.0")));
    let found = record_discovery(&mut registry, 2, "equilibrium", &hli, StampOutcome::Stored(version("4.1.1")));
    assert!(matches!(found, Discovery::Presumed));
    assert_eq!(known_mismatch(&registry, 2, "equilibrium", &hli), None);
}

#[test]
fn a_malformed_stamp_refuses_and_forgets() {
    let mut registry: ContextRegistry<()> = ContextRegistry::new();
    registry.record_dataentry(3);
    let hli = version("4.1.1");
    record_discovery(&mut registry, 3, "equilibrium", &hli, StampOutcome::Stored(version("3.39.0")));
    let refusal = conversion_refusal("stamp is not a DD version");
    let found = record_discovery(
        &mut registry,
        3,
        "equilibrium",
        &hli,
        StampOutcome::Malformed(Box::new(refusal)),
    );
    match found {
        Discovery::Refuse(status) => {
            assert_eq!(status.code, refusal.code);
            assert_eq!(status.message, refusal.message);
        }
        _ => panic!("a malformed stamp refuses"),
    }
    assert_eq!(known_mismatch(&registry, 3, "equilibrium", &hli), None);
}

#[test]
fn only_a_concrete_resolved_datapath_is_translated() {
    let map = map();
    assert_eq!(
        datapath_translation(&map, Direction::Forward, Some("claimed")),
        Some("claimed_new".to_string())
    );
    assert_eq!(datapath_translation(&map, Direction::Forward, Some("dropped")), None);
    assert_eq!(datapath_translation(&map, Direction::Forward, Some("unclaimed")), None);
    assert_eq!(datapath_translation(&map, Direction::Forward, Some("")), None);
    assert_eq!(datapath_translation(&map, Direction::Forward, None), None);
}

#[test]
fn an_arraystruct_open_translates_both_arguments_or_names_the_refused_one() {
    let map = map();
    let open = arraystruct_open_arguments(&map, "", Direction::Forward, Some("claimed"), None)
        .ok()
        .expect("a claimed path opens");
    assert_eq!(open.path, Some("claimed_new".to_string()));
    assert_eq!(open.timebase, None);
    assert_eq!(open.child_anchor, "claimed");
    let nested = arraystruct_open_arguments(&map, "claimed", Direction::Forward, None, None)
        .ok()
        .expect("absent arguments are forwarded");
    assert_eq!(nested.path, None);
    assert_eq!(nested.child_anchor, "claimed/");
    let refused = arraystruct_open_arguments(&map, "", Direction::Forward, Some("claimed"), Some("elsewhere"))
        .err()
        .expect("an unclaimed timebase refuses");
    assert_eq!(refused.reason, "arraystruct timebase is unclaimed by the conversion map");
    assert_eq!(refused.dd_path, "elsewhere");
    let refused = arraystruct_open_arguments(&map, "", Direction::Forward, Some("dropped"), None)
        .err()
        .expect("a path with no stored source refuses");
    assert_eq!(refused.reason, "arraystruct path has no stored source");
    assert_eq!(refused.dd_path, "dropped");
}

#[test]
fn only_a_non_read_open_that_names_a_data_object_owes_a_stamp_probe() {
    assert!(!stamp_probe_owed(READ_OP_ID, true));
    assert!(stamp_probe_owed(READ_OP_ID + 1, true));
    assert!(!stamp_probe_owed(READ_OP_ID + 1, false));
    assert!(!stamp_probe_owed(READ_OP_ID, false));
}
