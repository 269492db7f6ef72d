use std::cmp::Ordering;

use imas_mvdd::dd_version::DdVersion;

#[test]
fn a_known_release_is_accepted() {
    assert!("4.1.1".parse::<DdVersion>().is_ok());
}

#[test]
fn a_valid_development_build_is_accepted() {
    assert!("4.1.1-47-g8eaa5f1".parse::<DdVersion>().is_ok());
}

#[test]
fn an_unknown_release_is_rejected() {
    assert!("4.1.2".parse::<DdVersion>().is_err());
}

#[test]
fn a_malformed_development_build_is_rejected() {
    assert!("4.1.1-0-g8eaa5f1".parse::<DdVersion>().is_err());
}

#[test]
fn every_version_in_the_known_35_version_chain_is_accepted() {
    // The 35-version DD chain (3.22.0 … 4.1.1), typed out independently
    // of `KNOWN_RELEASES` so a transcription error in that table shows
    // up here rather than being validated against itself.
    const CHAIN: &[&str] = &[
        "3.22.0", "3.23.0", "3.23.1", "3.23.2", "3.23.3", "3.24.0", "3.25.0", "3.26.0",
        "3.27.0", "3.28.0", "3.28.1", "3.29.0", "3.30.0", "3.31.0", "3.32.0", "3.32.1",
        "3.33.0", "3.34.0", "3.35.0", "3.36.0", "3.37.0", "3.37.1", "3.37.2", "3.38.0",
        "3.38.1", "3.39.0", "3.40.0", "3.40.1", "3.41.0", "3.42.0", "3.42.1", "3.42.2",
        "4.0.0", "4.1.0", "4.1.1",
    ];
    assert_eq!(CHAIN.len(), 35);
    for &text in CHAIN {
        assert!(
            text.parse::<DdVersion>().is_ok(),
            "expected '{text}' to be accepted as a known release"
        );
    }
}

#[test]
fn an_unknown_development_base_release_is_rejected() {
    assert!("4.1.2-47-g8eaa5f1".parse::<DdVersion>().is_err());
}

#[test]
fn a_short_hash_is_rejected() {
    assert!("4.1.1-47-g8eaa5f".parse::<DdVersion>().is_err()); // 6 hex chars
}

#[test]
fn a_seven_character_hash_is_accepted() {
    assert!("4.1.1-47-g8eaa5f1".parse::<DdVersion>().is_ok()); // 7 hex chars
}

#[test]
fn a_sixty_four_character_hash_is_accepted() {
    let hash = "a".repeat(64);
    assert!(format!("4.1.1-47-g{hash}").parse::<DdVersion>().is_ok());
}

#[test]
fn a_sixty_five_character_hash_is_rejected() {
    let hash = "a".repeat(65);
    assert!(format!("4.1.1-47-g{hash}").parse::<DdVersion>().is_err());
}

#[test]
fn an_uppercase_hash_is_rejected() {
    assert!("4.1.1-47-g8EAA5F1".parse::<DdVersion>().is_err());
}

#[test]
fn whitespace_anywhere_is_rejected() {
    assert!(" 4.1.1".parse::<DdVersion>().is_err());
    assert!("4.1.1 ".parse::<DdVersion>().is_err());
    assert!("4.1.1-47-g8eaa5f1 ".parse::<DdVersion>().is_err());
}

#[test]
fn a_v_prefix_is_rejected() {
    assert!("v4.1.1".parse::<DdVersion>().is_err());
}

#[test]
fn a_dirty_suffix_is_rejected() {
    assert!("4.1.1-47-g8eaa5f1-dirty".parse::<DdVersion>().is_err());
}

#[test]
fn a_pep_440_form_is_rejected() {
    assert!("4.1.1.dev47".parse::<DdVersion>().is_err());
}

#[test]
fn a_bare_git_hash_is_rejected() {
    assert!("8eaa5f1".parse::<DdVersion>().is_err());
}

#[test]
fn negative_one_is_rejected() {
    assert!("-1".parse::<DdVersion>().is_err());
}

#[test]
fn arbitrary_text_is_rejected() {
    assert!("not-a-version".parse::<DdVersion>().is_err());
}

#[test]
fn a_leading_zero_version_component_is_rejected() {
    assert!("04.1.1".parse::<DdVersion>().is_err());
    assert!("4.01.1".parse::<DdVersion>().is_err());
    assert!("4.1.01".parse::<DdVersion>().is_err());
}

#[test]
fn a_leading_zero_commit_distance_is_rejected() {
    assert!("4.1.1-007-g8eaa5f1".parse::<DdVersion>().is_err());
}

#[test]
fn a_development_build_with_a_distance_larger_than_u64_is_accepted() {
    assert!(
        "4.1.1-18446744073709551616-g8eaa5f1"
            .parse::<DdVersion>()
            .is_ok()
    );
}

#[test]
fn a_zero_version_component_is_accepted() {
    assert!("4.0.0".parse::<DdVersion>().is_ok());
}

#[test]
fn released_versions_compare_as_numeric_triples() {
    let earlier: DdVersion = "3.22.0".parse().unwrap();
    let later: DdVersion = "4.1.1".parse().unwrap();
    assert!(earlier < later);
    assert!(later > earlier);

    let same_major_minor_earlier_patch: DdVersion = "3.23.0".parse().unwrap();
    let same_major_minor_later_patch: DdVersion = "3.23.3".parse().unwrap();
    assert!(same_major_minor_earlier_patch < same_major_minor_later_patch);
}

#[test]
fn a_development_version_sorts_after_its_base_release_but_is_never_equal_to_it() {
    let base: DdVersion = "4.1.1".parse().unwrap();
    let dev: DdVersion = "4.1.1-47-g8eaa5f1".parse().unwrap();
    assert!(dev > base);
    assert_ne!(dev, base);
}

#[test]
fn identical_development_strings_are_equal() {
    let a: DdVersion = "4.1.1-47-g8eaa5f1".parse().unwrap();
    let b: DdVersion = "4.1.1-47-g8eaa5f1".parse().unwrap();
    assert_eq!(a, b);
    assert_eq!(a.partial_cmp(&b), Some(Ordering::Equal));
}

#[test]
fn distinct_development_versions_are_unmappable_even_with_the_same_base() {
    let a: DdVersion = "4.1.1-47-g8eaa5f1".parse().unwrap();
    let b: DdVersion = "4.1.1-48-g1234567".parse().unwrap();
    assert_ne!(a, b);
    assert_eq!(a.partial_cmp(&b), None);
}

#[test]
fn distinct_development_versions_on_different_bases_are_also_unmappable() {
    let a: DdVersion = "4.1.1-47-g8eaa5f1".parse().unwrap();
    let b: DdVersion = "4.0.0-3-g1234567".parse().unwrap();
    assert_eq!(a.partial_cmp(&b), None);
}


#[test]
fn a_parsed_version_prints_exactly_as_it_was_spelled() {
    for spelling in ["3.39.0", "4.1.1", "3.22.0", "4.1.1-47-g8eaa5f1"] {
        let version: DdVersion = spelling.parse().expect("an accepted spelling");
        assert_eq!(version.text(), spelling);
        let again: DdVersion = version.text().parse().expect("a printed version parses");
        assert_eq!(again, version);
    }
}

#[test]
fn comparing_the_other_way_round_gives_the_opposite_answer() {
    let older: DdVersion = "3.39.0".parse().unwrap();
    let newer: DdVersion = "4.1.1".parse().unwrap();
    assert_eq!(older.partial_cmp(&newer), Some(std::cmp::Ordering::Less));
    assert_eq!(newer.partial_cmp(&older), Some(std::cmp::Ordering::Greater));
}

#[test]
fn being_older_is_not_transitive_between_two_development_versions() {
    let a: DdVersion = "3.39.0-1-gabcdef0".parse().unwrap();
    let b: DdVersion = "3.40.0".parse().unwrap();
    let c: DdVersion = "3.41.0-2-g1234567".parse().unwrap();
    assert_eq!(a.partial_cmp(&b), Some(std::cmp::Ordering::Less));
    assert_eq!(b.partial_cmp(&c), Some(std::cmp::Ordering::Less));
    assert_eq!(a.partial_cmp(&c), None);
}
