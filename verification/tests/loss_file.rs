use imas_mvdd::conversion_map::Fidelity;
use imas_mvdd::loss::LossOperation;
use imas_mvdd::loss_file::{
    civil_from_days, log_file_name, preamble, render, utc_timestamp, LossFileEntry, WrittenLines,
};

fn entry() -> LossFileEntry {
    LossFileEntry::new(
        "imas:hdf5?path=/tmp/pulse",
        "equilibrium/3",
        "4.1.1",
        "3.39.0",
        LossOperation::Read,
        Fidelity::PotentiallyLossy,
        "time_slice/ggd/b_field_phi",
    )
}

#[test]
fn utc_timestamp_covers_day_month_year_and_leap_century_boundaries() {
    assert_eq!(utc_timestamp(0), "1970-01-01T00:00:00Z");
    assert_eq!(utc_timestamp(86_399), "1970-01-01T23:59:59Z");
    assert_eq!(utc_timestamp(86_400), "1970-01-02T00:00:00Z");
    assert_eq!(utc_timestamp(951_782_399), "2000-02-28T23:59:59Z");
    assert_eq!(utc_timestamp(951_782_400), "2000-02-29T00:00:00Z");
    assert_eq!(utc_timestamp(951_868_800), "2000-03-01T00:00:00Z");
    assert_eq!(utc_timestamp(1_609_459_199), "2020-12-31T23:59:59Z");
    assert_eq!(utc_timestamp(1_609_459_200), "2021-01-01T00:00:00Z");
    assert_eq!(utc_timestamp(4_107_542_399), "2100-02-28T23:59:59Z");
    assert_eq!(utc_timestamp(4_107_542_400), "2100-03-01T00:00:00Z");
}

#[test]
fn civil_dates_cross_era_and_epoch_boundaries() {
    assert_eq!(civil_from_days(0), (1970, 1, 1));
    assert_eq!(civil_from_days(-1), (1969, 12, 31));
    assert_eq!(civil_from_days(146_097), (2370, 1, 1));
    assert_eq!(civil_from_days(-719_468), (0, 3, 1));
    assert_eq!(civil_from_days(10_957), (2000, 1, 1));
    assert_eq!(civil_from_days(11_016), (2000, 2, 29));
}

#[test]
fn the_largest_timestamp_still_formats() {
    let text = utc_timestamp(u64::MAX);
    assert!(text.ends_with("T07:00:15Z"));
    assert!(text.starts_with("584554051223-11-09"));
}

#[test]
fn a_report_line_is_the_tab_separated_facts() {
    assert_eq!(
        render(&entry()),
        "imas:hdf5?path=/tmp/pulse\tequilibrium/3\t4.1.1\t3.39.0\tread\tPOTENTIALLY_LOSSY\ttime_slice/ggd/b_field_phi\n"
    );
    assert_eq!(
        render(&LossFileEntry::new(
            "imas:hdf5?path=/tmp/pulse",
            "equilibrium/3",
            "4.1.1",
            "3.39.0",
            LossOperation::Delete,
            Fidelity::Unmappable,
            "time_slice/boundary_separatrix/gap/r",
        )),
        "imas:hdf5?path=/tmp/pulse\tequilibrium/3\t4.1.1\t3.39.0\tdelete\tUNMAPPABLE\ttime_slice/boundary_separatrix/gap/r\n"
    );
}

#[test]
fn a_report_opens_with_its_preamble() {
    assert_eq!(
        preamble("2000-02-29T00:00:00Z", 196, "3.39.0"),
        "# imas-mvdd loss log format 1\n\
         # written 2000-02-29T00:00:00Z\n\
         # process 196\n\
         # hli-dd-version 3.39.0\n\
         uri\tids\tstored-dd\thli-dd\toperation\tfidelity\tpath\n"
    );
}

#[test]
fn report_names_carry_the_time_the_process_and_a_collision_suffix() {
    assert_eq!(
        log_file_name("2000-02-29T00:00:00Z", 196, 0),
        "imas-mvdd-loss-2000-02-29T00:00:00Z-196.txt"
    );
    assert_eq!(
        log_file_name("2000-02-29T00:00:00Z", 196, 1),
        "imas-mvdd-loss-2000-02-29T00:00:00Z-196-1.txt"
    );
}

#[test]
fn only_an_identical_complete_line_is_a_repeat() {
    let mut written = WrittenLines::new();
    let line = render(&entry());
    assert!(written.insert(&line));
    assert!(!written.insert(&line));
    let other_uri = render(&LossFileEntry::new(
        "imas:hdf5?path=/tmp/other-pulse",
        "equilibrium/3",
        "4.1.1",
        "3.39.0",
        LossOperation::Read,
        Fidelity::PotentiallyLossy,
        "time_slice/ggd/b_field_phi",
    ));
    assert!(written.insert(&other_uri));
    let other_verdict = render(&LossFileEntry::new(
        "imas:hdf5?path=/tmp/pulse",
        "equilibrium/3",
        "4.1.1",
        "3.39.0",
        LossOperation::Read,
        Fidelity::Lossy,
        "time_slice/ggd/b_field_phi",
    ));
    assert!(written.insert(&other_verdict));
    assert!(!written.insert(&other_uri));
}

#[test]
fn later_instants_get_later_timestamps_as_text() {
    let instants: [u64; 8] = [
        0,
        59,
        60,
        86_399,
        86_400,
        946_684_799,
        946_684_800,
        253_402_300_799,
    ];
    for pair in instants.windows(2) {
        let earlier = utc_timestamp(pair[0]);
        let later = utc_timestamp(pair[1]);
        assert!(earlier < later, "{earlier} should sort before {later}");
    }
    assert_eq!(utc_timestamp(253_402_300_799), "9999-12-31T23:59:59Z");
}
