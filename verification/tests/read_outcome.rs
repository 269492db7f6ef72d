use imas_mvdd::read_outcome::{classify, ReadOutcome};
use imas_mvdd::status::al_status_t;

fn failure_status() -> al_status_t {
    al_status_t {
        code: -1,
        ..al_status_t::default()
    }
}

#[test]
fn a_nonzero_code_is_failure_regardless_of_the_data_pointer() {
    assert_eq!(classify(&failure_status(), false), ReadOutcome::Failure);
    assert_eq!(classify(&failure_status(), true), ReadOutcome::Failure);
}

#[test]
fn a_successful_status_with_a_null_pointer_is_not_found() {
    assert_eq!(classify(&al_status_t::default(), false), ReadOutcome::NotFound);
}

#[test]
fn a_successful_status_with_a_non_null_pointer_is_data() {
    assert_eq!(classify(&al_status_t::default(), true), ReadOutcome::Data);
}
