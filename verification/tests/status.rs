use imas_mvdd::core_version::{failure, CORE_LIBRARY_ENV_VAR};
use imas_mvdd::dd_version::DdVersion;
use imas_mvdd::status::{
    al_status_t, conversion_refusal, format_read_refusal_message, path_conversion_refusal,
    truncate_path_from_left, write_truncated, IMAS_MVDD_CONVERSION_ERROR, MAX_ERR_MSG_LEN,
};

fn message_of(status: &al_status_t) -> String {
    let end = status
        .message
        .iter()
        .position(|b| *b == 0)
        .expect("a status message is NUL-terminated");
    String::from_utf8(status.message[..end].to_vec()).expect("a status message is UTF-8")
}

#[test]
fn status_default_is_success() {
    assert_eq!(al_status_t::default().code, 0);
}

#[test]
fn read_refusal_drops_versions_before_left_truncating_an_overlong_path() {
    let hli_version: DdVersion = "4.1.1".parse().unwrap();
    let stored_version: DdVersion = "3.39.0".parse().unwrap();
    let path = format!("{}coordinates_type", "grids_ggd/grid/space/".repeat(20));

    let status = path_conversion_refusal(
        "this path's container changed shape and cannot be served",
        &path,
        &hli_version,
        &stored_version,
    );
    let message = message_of(&status);

    assert_eq!(status.code, IMAS_MVDD_CONVERSION_ERROR);
    assert_eq!(status.message[MAX_ERR_MSG_LEN - 1], 0);
    assert!(message.starts_with(
        "IMAS-MVDD: this path's container changed shape and cannot be served; DD path: ..."
    ));
    assert!(message.ends_with("coordinates_type"));
    assert!(!message.contains("HLI DD version"));
    assert!(!message.contains("stored DD version"));
}

#[test]
fn read_refusal_drops_both_versions_together_before_truncating_the_path() {
    let hli_version: DdVersion = "4.1.1".parse().unwrap();
    let stored_version: DdVersion = "3.39.0".parse().unwrap();
    let path = format!("{}coordinates_type", "grids_ggd/grid/space/".repeat(6));

    let status = path_conversion_refusal(
        "this path's container changed shape and cannot be served",
        &path,
        &hli_version,
        &stored_version,
    );
    let message = message_of(&status);

    assert_eq!(status.code, IMAS_MVDD_CONVERSION_ERROR);
    assert!(message.ends_with(&path));
    assert!(!message.contains("HLI DD version"));
    assert!(!message.contains("stored DD version"));
}

#[test]
fn a_short_read_refusal_names_reason_path_and_both_versions() {
    let hli_version: DdVersion = "4.1.1".parse().unwrap();
    let stored_version: DdVersion = "3.39.0".parse().unwrap();
    assert_eq!(
        format_read_refusal_message("no", "a/b", &hli_version, &stored_version),
        "IMAS-MVDD: no; DD path: a/b; HLI DD version: 4.1.1; stored DD version: 3.39.0"
    );
}

#[test]
fn a_path_is_shortened_from_the_left_on_a_character_boundary() {
    assert_eq!(truncate_path_from_left("abc", 3), "abc");
    assert_eq!(truncate_path_from_left("abcdef", 3), "...");
    assert_eq!(truncate_path_from_left("abcdef", 2), "..");
    assert_eq!(truncate_path_from_left("abcdef", 5), "...ef");
    assert_eq!(truncate_path_from_left("abéé", 5), "...é");
    assert_eq!(truncate_path_from_left("aéé", 4), "...");
    assert_eq!(truncate_path_from_left("aéé", 5), "aéé");
}

#[test]
fn a_conversion_refusal_is_prefixed_and_carries_the_shim_code() {
    let status = conversion_refusal("HLI DD version must not be null");
    assert_eq!(status.code, IMAS_MVDD_CONVERSION_ERROR);
    assert_eq!(message_of(&status), "IMAS-MVDD: HLI DD version must not be null");
}

#[test]
fn truncation_never_splits_a_code_point_and_keeps_the_nul() {
    let mut buffer = [0u8; MAX_ERR_MSG_LEN];
    let long_message = "é".repeat(200);
    write_truncated(&mut buffer, &long_message);
    assert_eq!(buffer[MAX_ERR_MSG_LEN - 1], 0);
    let end = buffer.iter().position(|b| *b == 0).unwrap();
    assert_eq!(end, 254);
    assert!(std::str::from_utf8(&buffer[..end]).is_ok());
}

#[test]
fn failure_status_carries_a_nonzero_code_naming_the_override_variable_and_the_detail() {
    let status = failure("boom");
    assert_ne!(status.code, 0);
    let message = message_of(&status);
    assert!(message.contains("boom"));
    assert!(message.contains(CORE_LIBRARY_ENV_VAR));
}

#[test]
fn failure_status_truncates_an_overlong_detail_without_losing_the_override_variable() {
    let verbose_detail = "tried: ".to_string() + &"/some/very/long/search/path ".repeat(20);
    let status = failure(&verbose_detail);
    assert_eq!(status.message[MAX_ERR_MSG_LEN - 1], 0);
    let message = message_of(&status);
    assert!(
        message.contains(CORE_LIBRARY_ENV_VAR),
        "override variable was truncated away: {message}"
    );
}

#[test]
fn failure_status_truncates_at_a_utf8_char_boundary_instead_of_panicking() {
    let long_message = "é".repeat(200);
    let status = failure(&long_message);
    let end = status.message.iter().position(|b| *b == 0).unwrap();
    assert!(std::str::from_utf8(&status.message[..end]).is_ok());
}

#[test]
fn a_refusal_message_with_a_long_multibyte_path_fits_the_status_buffer() {
    let hli_version: DdVersion = "4.1.1".parse().unwrap();
    let stored_version: DdVersion = "3.39.0".parse().unwrap();
    let path = "é/".repeat(200);
    let message =
        format_read_refusal_message("no stored source", &path, &hli_version, &stored_version);
    assert!(message.len() < MAX_ERR_MSG_LEN);
    assert_eq!(message.len(), MAX_ERR_MSG_LEN - 1);
    assert!(message.starts_with("IMAS-MVDD: no stored source; DD path: ..."));
    assert!(message.ends_with("é/"));

    let prefix_only = "r".repeat(MAX_ERR_MSG_LEN - 1 - "IMAS-MVDD: ; DD path: ".len());
    let message = format_read_refusal_message(&prefix_only, "a/b", &hli_version, &stored_version);
    assert_eq!(message.len(), MAX_ERR_MSG_LEN - 1);
    assert!(message.ends_with("; DD path: "));
}
