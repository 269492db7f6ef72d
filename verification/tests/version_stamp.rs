use imas_mvdd::dd_version::DdVersion;
use imas_mvdd::read_outcome::ReadOutcome;
use imas_mvdd::version_stamp::{classify_discovery_read, decode};

#[test]
fn version_stamp_a_known_release_stamp_decodes() {
    assert_eq!(decode(b"4.1.1"), Some("4.1.1".parse::<DdVersion>().unwrap()));
}

#[test]
fn version_stamp_a_development_stamp_decodes() {
    assert_eq!(
        decode(b"4.1.1-47-g8eaa5f1"),
        Some("4.1.1-47-g8eaa5f1".parse::<DdVersion>().unwrap())
    );
}

#[test]
fn version_stamp_non_utf8_bytes_do_not_decode() {
    assert_eq!(decode(&[0xff, 0xfe, 0xfd]), None);
}

#[test]
fn version_stamp_garbage_text_does_not_decode() {
    assert_eq!(decode(b"not-a-version"), None);
}

#[test]
fn version_stamp_an_unknown_release_does_not_decode() {
    assert_eq!(decode(b"4.1.2"), None);
}

#[test]
fn version_stamp_empty_bytes_do_not_decode() {
    assert_eq!(decode(b""), None);
}

#[test]
fn version_stamp_a_trailing_nul_is_not_stripped_and_does_not_decode() {
    // Proves decoding never assumes/relies on NUL handling: a stamp
    // buffer that happens to carry a trailing NUL within its reported
    // size is not silently trimmed into validity.
    assert_eq!(decode(b"4.1.1\0"), None);
}

fn assert_unstamped(outcome: imas_mvdd::version_stamp::StampOutcome) {
    assert!(matches!(outcome, imas_mvdd::version_stamp::StampOutcome::Unstamped));
}

fn assert_stored(outcome: imas_mvdd::version_stamp::StampOutcome, expected: &str) {
    match outcome {
        imas_mvdd::version_stamp::StampOutcome::Stored(actual) => {
            assert_eq!(actual, expected.parse::<DdVersion>().unwrap())
        }
        other => panic!("expected stored DD version {expected}, got {other:?}"),
    }
}

fn assert_malformed(outcome: imas_mvdd::version_stamp::StampOutcome) {
    match outcome {
        imas_mvdd::version_stamp::StampOutcome::Malformed(status) => {
            assert_eq!(status.code, imas_mvdd::status::IMAS_MVDD_CONVERSION_ERROR);
            let end = status.message.iter().position(|b| *b == 0).unwrap();
            assert_eq!(
                std::str::from_utf8(&status.message[..end]).unwrap(),
                "IMAS-MVDD: malformed DD-version stamp at 'ids_properties/version_put/data_dictionary'"
            );
        }
        other => panic!("expected malformed DD-version stamp, got {other:?}"),
    }
}

#[test]
fn failed_or_absent_reads_are_unstamped_but_present_bad_bytes_are_malformed() {
    assert_unstamped(classify_discovery_read(ReadOutcome::Failure, b"4.1.1", 5));
    assert_unstamped(classify_discovery_read(ReadOutcome::NotFound, b"4.1.1", 5));
    assert_malformed(classify_discovery_read(ReadOutcome::Data, b"not-a-version", 13));
    assert_malformed(classify_discovery_read(ReadOutcome::Data, b"4.1.2", 5));
    assert_malformed(classify_discovery_read(ReadOutcome::Data, &[0xff, 0xfe], 2));
}

#[test]
fn a_present_stamp_decodes_only_its_positive_reported_extent() {
    assert_stored(
        classify_discovery_read(ReadOutcome::Data, b"4.1.1\0unreported", 5),
        "4.1.1",
    );
    assert_malformed(classify_discovery_read(ReadOutcome::Data, b"4.1.1\0unreported", 6));
}

#[test]
fn a_present_stamp_with_zero_or_negative_extent_is_malformed() {
    assert_malformed(classify_discovery_read(ReadOutcome::Data, b"", 0));
    assert_malformed(classify_discovery_read(ReadOutcome::Data, b"4.1.1", 0));
    assert_malformed(classify_discovery_read(ReadOutcome::Data, b"4.1.1", -1));
}

#[test]
fn an_extent_past_the_returned_bytes_is_malformed() {
    assert_malformed(classify_discovery_read(ReadOutcome::Data, b"4.1.1", 9));
}
