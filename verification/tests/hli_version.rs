use imas_mvdd::dd_version::DdVersion;
use imas_mvdd::hli_version::{EnvironmentValue, HliVersionLatch, Latch};

fn version(input: &str) -> DdVersion {
    input.parse().expect("test DD version must be valid")
}

#[test]
fn a_first_valid_setter_report_latches_conversion_and_identical_repeats() {
    let mut latch = HliVersionLatch::default();

    assert_eq!(latch.latched(), None);
    assert!(!latch.conversion_is_possible());
    assert_eq!(latch.set("4.1.1"), Ok(()));
    assert_eq!(latch.latched(), Some(version("4.1.1")));
    assert!(latch.conversion_is_possible());
    assert_eq!(latch.set("4.1.1"), Ok(()));
}

#[test]
fn a_conflicting_setter_report_keeps_the_first_version() {
    let mut latch = HliVersionLatch::default();
    assert_eq!(latch.set("3.39.0"), Ok(()));

    assert_eq!(
        latch.set("4.1.1"),
        Err(
            "conflicting HLI DD version: this process already latched to '3.39.0' \
             and cannot also serve '4.1.1' — one process cannot host two HLIs built \
             against different DD versions"
                .to_string()
        )
    );
    assert_eq!(latch.latched(), Some(version("3.39.0")));
    assert!(latch.conversion_is_possible());
}

#[test]
fn an_invalid_setter_report_leaves_the_latch_unresolved() {
    let mut latch = HliVersionLatch::default();

    assert_eq!(
        latch.set("not-a-version"),
        Err("'not' is not MAJOR.MINOR.PATCH".to_string())
    );
    assert_eq!(latch.latched(), None);
    assert!(!latch.conversion_is_possible());
    assert_eq!(latch.set("4.1.1"), Ok(()));
}

#[test]
fn reconstructing_each_settled_latch_state_preserves_its_conversion_basis() {
    let cases = [
        (Latch::Version(version("4.1.1")), Some(version("4.1.1")), true),
        (Latch::Unset, None, false),
        (
            Latch::Invalid("IMAS_MVDD_HLI_DD_VERSION is not valid UTF-8".to_string()),
            None,
            false,
        ),
    ];

    for (settled, expected_version, conversion_is_possible) in cases {
        let reconstructed = HliVersionLatch::from_latch(settled);

        assert_eq!(reconstructed.latched(), expected_version);
        assert_eq!(
            reconstructed.conversion_is_possible(),
            conversion_is_possible
        );
    }
}

#[test]
fn absent_environment_permanently_latches_unset_and_refuses_late_setters() {
    let mut latch = HliVersionLatch::default();

    assert_eq!(latch.resolve_for_open(|| EnvironmentValue::Absent), Ok(()));
    assert_eq!(latch.latched(), None);
    assert!(!latch.conversion_is_possible());
    assert_eq!(
        latch.resolve_for_open(|| panic!("a settled latch must not reread the environment")),
        Ok(())
    );
    assert_eq!(
        latch.set("4.1.1"),
        Err(
            "cannot set HLI DD version to '4.1.1': this process already latched to \
             unset, after an earlier open found no setter call and no valid \
             IMAS_MVDD_HLI_DD_VERSION"
                .to_string()
        )
    );
}

#[test]
fn valid_environment_latches_conversion_and_ignores_later_environment_changes() {
    let mut latch = HliVersionLatch::default();

    assert_eq!(
        latch.resolve_for_open(|| EnvironmentValue::Value("3.39.0".to_string())),
        Ok(())
    );
    assert_eq!(latch.latched(), Some(version("3.39.0")));
    assert!(latch.conversion_is_possible());
    assert_eq!(
        latch.resolve_for_open(|| panic!("a settled latch must not reread the environment")),
        Ok(())
    );
    assert_eq!(latch.set("3.39.0"), Ok(()));
    assert_eq!(
        latch.set("4.1.1"),
        Err(
            "conflicting HLI DD version: this process already latched to '3.39.0' \
             and cannot also serve '4.1.1' — one process cannot host two HLIs built \
             against different DD versions"
                .to_string()
        )
    );
}

#[test]
fn invalid_and_non_unicode_environment_values_permanently_disable_conversion() {
    let cases = [
        (
            EnvironmentValue::Value("not-a-version".to_string()),
            "'not' is not MAJOR.MINOR.PATCH",
        ),
        (
            EnvironmentValue::NotUnicode,
            "IMAS_MVDD_HLI_DD_VERSION is not valid UTF-8",
        ),
    ];

    for (environment, expected) in cases {
        let mut latch = HliVersionLatch::default();
        assert_eq!(
            latch.resolve_for_open(|| environment),
            Err(expected.to_string())
        );
        assert_eq!(latch.latched(), None);
        assert!(!latch.conversion_is_possible());
        assert_eq!(
            latch.resolve_for_open(|| panic!("a settled latch must not reread the environment")),
            Err(expected.to_string())
        );
        assert_eq!(
            latch.set("4.1.1"),
            Err(format!(
                "cannot set HLI DD version to '4.1.1': this process already latched to \
                 an invalid IMAS_MVDD_HLI_DD_VERSION value at an earlier open ({expected})"
            ))
        );
    }
}

#[test]
fn an_accepted_setter_wins_without_consulting_the_environment() {
    let mut latch = HliVersionLatch::default();
    assert_eq!(latch.set("4.1.1"), Ok(()));

    assert_eq!(
        latch.resolve_for_open(|| panic!("a setter-set latch must not read the environment")),
        Ok(())
    );
    assert_eq!(latch.latched(), Some(version("4.1.1")));
    assert!(latch.conversion_is_possible());
}

#[test]
fn a_settled_latch_survives_storage_and_restoration() {
    let mut latch = HliVersionLatch::default();
    assert_eq!(latch.set("3.39.0"), Ok(()));
    let stored = latch.into_latch();
    assert!(HliVersionLatch::conversion_is_possible_from(Some(&stored)));
    assert_eq!(
        HliVersionLatch::latched_from(Some(&stored)),
        Some(version("3.39.0"))
    );
    assert_eq!(HliVersionLatch::latched_from(None), None);
    assert!(!HliVersionLatch::conversion_is_possible_from(None));
    let mut restored = HliVersionLatch::from_latch(stored);
    assert_eq!(restored.open_result(), Ok(()));
    assert!(restored.set("4.1.1").is_err());
}

#[test]
fn an_environment_observation_settles_its_latch() {
    assert!(matches!(
        Latch::from_environment(EnvironmentValue::Absent),
        Latch::Unset
    ));
    assert!(matches!(
        Latch::from_environment(EnvironmentValue::Value("4.1.1".to_string())),
        Latch::Version(_)
    ));
    match Latch::from_environment(EnvironmentValue::Value("4.1".to_string())) {
        Latch::Invalid(reason) => assert!(reason.contains("4.1")),
        other => panic!("expected an invalid latch, got {other:?}"),
    }
}
