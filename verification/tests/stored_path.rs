use imas_mvdd::conversion_map::{CocosConvention, Fidelity, Outcome, RefusalReason, Rel, ValueTransformation};
use imas_mvdd::core_version::{check_major_version, VersionDrift};
use imas_mvdd::stored_path::{
    concrete_stored_path, join_hli_path, read_argument_path,
    read_fidelity, refusal_path, refusal_reason_message, strip_anchor, ConcreteStoredPath,
};

#[test]
fn join_hli_path_appends_a_relative_path_under_a_nonempty_anchor() {
    assert_eq!(
        join_hli_path("time_slice", "global_quantities/beta_tor_norm"),
        "time_slice/global_quantities/beta_tor_norm"
    );
}

#[test]
fn join_hli_path_uses_the_relative_path_verbatim_under_an_empty_anchor() {
    assert_eq!(join_hli_path("", "time_slice"), "time_slice");
}

#[test]
fn join_hli_path_resolves_an_absolute_path_from_the_ids_root_ignoring_the_anchor() {
    assert_eq!(
        join_hli_path("time_slice", "/ids_properties/comment"),
        "ids_properties/comment"
    );
}

#[test]
fn strip_anchor_returns_the_resolved_path_verbatim_under_an_empty_anchor() {
    assert_eq!(
        strip_anchor("", "time_slice/global_quantities/beta_normal"),
        Some("time_slice/global_quantities/beta_normal".to_string())
    );
}

#[test]
fn strip_anchor_removes_a_matching_anchor_prefix() {
    assert_eq!(
        strip_anchor("time_slice", "time_slice/global_quantities/beta_normal"),
        Some("global_quantities/beta_normal".to_string())
    );
}

#[test]
fn strip_anchor_fails_when_the_resolved_path_does_not_start_with_the_anchor() {
    assert_eq!(
        strip_anchor("time_slice", "grids_ggd/grid/space/coordinates_type"),
        None
    );
}

#[test]
fn strip_anchor_undoes_join_hli_path() {
    let joined = join_hli_path("time_slice", "global_quantities/ip");
    assert_eq!(strip_anchor("time_slice", &joined), Some("global_quantities/ip".to_string()));
    assert_eq!(strip_anchor("time_slice", "time_slicex/ip"), None);
    assert_eq!(strip_anchor("time_slice", "time_slice"), None);
}

#[test]
fn identical_versions_agree() {
    assert_eq!(check_major_version("4.1.1", "4.1.1"), Ok(None));
}

#[test]
fn minor_and_patch_drift_is_tolerated() {
    assert_eq!(
        check_major_version("4.1.1", "4.2.0"),
        Ok(Some(VersionDrift {
            built_against: "4.1.1".to_string(),
            found: "4.2.0".to_string(),
        }))
    );
    assert!(check_major_version("1.0.0", "1.0.9").is_ok_and(|drift| drift.is_some()));
}

#[test]
fn major_version_mismatch_names_both_versions() {
    let error = check_major_version("4.1.1", "3.22.0").unwrap_err();
    assert!(error.contains("4.1.1"));
    assert!(error.contains("3.22.0"));
}

#[test]
fn unparsable_versions_are_rejected_without_panicking() {
    assert!(check_major_version("4.1.1", "not-a-version").is_err());
    assert!(check_major_version("not-a-version", "4.1.1").is_err());
    assert!(check_major_version("", "4.1.1").is_err());
}

#[test]
fn version_check_messages_are_exact() {
    assert_eq!(
        check_major_version("4.1.1", "3.22.0"),
        Err("IMAS-Core major version mismatch: shim built against 4.1.1, found 3.22.0".to_string())
    );
    assert_eq!(
        check_major_version("x", "4"),
        Err("could not compare IMAS-Core versions: shim built against 'x', found '4'".to_string())
    );
    assert_eq!(check_major_version("5", "5.1"), Ok(Some(VersionDrift {
        built_against: "5".to_string(),
        found: "5.1".to_string(),
    })));
}

#[test]
fn a_lossy_merged_or_split_read_is_only_potentially_lossy() {
    assert_eq!(read_fidelity(Fidelity::Lossy, Some(Rel::Merged)), Fidelity::PotentiallyLossy);
    assert_eq!(read_fidelity(Fidelity::Lossy, Some(Rel::Split)), Fidelity::PotentiallyLossy);
    assert_eq!(read_fidelity(Fidelity::Lossy, Some(Rel::Renamed)), Fidelity::Lossy);
    assert_eq!(read_fidelity(Fidelity::Lossy, None), Fidelity::Lossy);
    assert_eq!(read_fidelity(Fidelity::Exact, Some(Rel::Merged)), Fidelity::Exact);
}

#[test]
fn a_structure_path_accepts_only_one_untransformed_stored_path() {
    assert_eq!(
        concrete_stored_path(Outcome::Path {
            resolved_path: "a/b".to_string(),
            value_transformation: ValueTransformation::Unchanged,
            candidates: vec![],
        }),
        ConcreteStoredPath::Path("a/b".to_string())
    );
    assert_eq!(concrete_stored_path(Outcome::NoSource), ConcreteStoredPath::NoSource);
    assert_eq!(
        concrete_stored_path(Outcome::Refusal(RefusalReason::UnservableRetype)),
        ConcreteStoredPath::Refusal(
            "this path's container changed shape and cannot be served".to_string()
        )
    );
    assert_eq!(
        concrete_stored_path(Outcome::Path {
            resolved_path: "a/b".to_string(),
            value_transformation: ValueTransformation::SignFlip {
                from_cocos: CocosConvention("11".to_string()),
                to_cocos: CocosConvention("17".to_string()),
            },
            candidates: vec![],
        }),
        ConcreteStoredPath::Refusal(
            "this path needs a value transformation, which only a data read can apply".to_string()
        )
    );
}

#[test]
fn refusal_reasons_and_paths_are_described() {
    assert_eq!(
        refusal_reason_message(RefusalReason::UnitRedefinition),
        "this path's unit was redefined and cannot be converted"
    );
    assert_eq!(
        refusal_reason_message(RefusalReason::Unmappable),
        "this path has no safe conversion between DD versions"
    );
    assert_eq!(refusal_path("anchor", Some("leaf")), "anchor/leaf");
    assert_eq!(refusal_path("anchor", Some("")), "anchor");
    assert_eq!(refusal_path("", None), "(no path argument)");
    assert_eq!(read_argument_path("anchor", None), "anchor");
    assert_eq!(read_argument_path("anchor", Some("/top")), "top");
}

#[test]
fn a_contextual_refusal_names_the_argument_path_and_both_versions() {
    let hli: imas_mvdd::dd_version::DdVersion = "4.1.1".parse().expect("known release");
    let stored: imas_mvdd::dd_version::DdVersion = "3.39.0".parse().expect("known release");
    let reason = "al_write_data refuses on a context with a known DD version mismatch".to_string();
    let status = imas_mvdd::stored_path::contextual_refusal(
        "time_slice",
        reason.as_str(),
        Some("psi"),
        &hli,
        &stored,
    );
    assert_eq!(status.code, imas_mvdd::status::IMAS_MVDD_CONVERSION_ERROR);
    let end = status.message.iter().position(|b| *b == 0).expect("NUL-terminated");
    assert_eq!(
        std::str::from_utf8(&status.message[..end]).expect("UTF-8"),
        "IMAS-MVDD: al_write_data refuses on a context with a known DD version mismatch; \
         DD path: time_slice/psi; HLI DD version: 4.1.1; stored DD version: 3.39.0"
    );
    let status = imas_mvdd::stored_path::contextual_refusal("", "no", None, &hli, &stored);
    let end = status.message.iter().position(|b| *b == 0).expect("NUL-terminated");
    assert_eq!(
        std::str::from_utf8(&status.message[..end]).expect("UTF-8"),
        "IMAS-MVDD: no; DD path: (no path argument); HLI DD version: 4.1.1; stored DD version: 3.39.0"
    );
}

#[test]
fn override_value_is_used_verbatim() {
    assert_eq!(
        imas_mvdd::core_version::library_path(Some("/opt/iter/lib/libal.so"), "lib", ".so"),
        "/opt/iter/lib/libal.so"
    );
}

#[test]
fn absent_override_falls_back_to_a_bare_soname() {
    let path = imas_mvdd::core_version::library_path(None, "lib", ".so");
    assert!(
        !path.contains('/'),
        "default library name must be a bare soname, not a path: {path}"
    );
    assert!(path.starts_with("lib"));
    assert!(path.ends_with(".so"));
    assert!(path.contains("al"));
    assert_eq!(path, "libal.so");
}

#[test]
fn a_contextual_refusal_with_an_empty_argument_names_the_context_path() {
    let hli: imas_mvdd::dd_version::DdVersion = "4.1.1".parse().expect("known release");
    let stored: imas_mvdd::dd_version::DdVersion = "3.39.0".parse().expect("known release");
    let status = imas_mvdd::stored_path::contextual_refusal(
        "time_slice",
        "arraystruct path has no stored source",
        Some(""),
        &hli,
        &stored,
    );
    assert_eq!(status.code, imas_mvdd::status::IMAS_MVDD_CONVERSION_ERROR);
    let end = status.message.iter().position(|b| *b == 0).expect("NUL-terminated");
    assert_eq!(
        std::str::from_utf8(&status.message[..end]).expect("UTF-8"),
        "IMAS-MVDD: arraystruct path has no stored source; DD path: time_slice; \
         HLI DD version: 4.1.1; stored DD version: 3.39.0"
    );
}
