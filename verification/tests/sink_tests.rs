use deadlock_detector_benchmark::backend::{feature_name, Backend};
use deadlock_detector_benchmark::sink::{
    csv_filename, csv_filename_fp, csv_filename_guaranteed, format_elapsed_micros,
    log_entry_no_seed, log_entry_with_seed, parse_seed, resolve_seed, u64_to_decimal, u64_to_fixed,
};

#[test]
fn test_feature_names() {
    assert_eq!(feature_name(Backend::Deloxide), "deloxide");
    assert_eq!(feature_name(Backend::StressRandom), "stress_random");
    assert_eq!(feature_name(Backend::StressComponent), "stress_component");
    assert_eq!(feature_name(Backend::StressAggressive), "stress_aggressive");
    assert_eq!(feature_name(Backend::StressGentle), "stress_gentle");
    assert_eq!(feature_name(Backend::DeloxideLockOrder), "deloxide_lock_order");
    assert_eq!(feature_name(Backend::ParkingLot), "parking_lot");
    assert_eq!(feature_name(Backend::NoDeadlocks), "no_deadlocks");
    assert_eq!(feature_name(Backend::StdSync), "std");
}

#[test]
fn test_csv_filenames() {
    assert_eq!(csv_filename("two_lock", Backend::Deloxide), "deadlock_tests/two_lock_deloxide.csv");
    assert_eq!(
        csv_filename_guaranteed("guaranteed_two_lock", Backend::ParkingLot),
        "guaranteed_deadlock_tests/guaranteed_two_lock_parking_lot.csv"
    );
    assert_eq!(
        csv_filename_fp("gate_guarded_fp", Backend::NoDeadlocks),
        "fp_tests/gate_guarded_fp_no_deadlocks.csv"
    );
}

#[test]
fn test_decimal_rendering() {
    assert_eq!(u64_to_decimal(0), "0");
    assert_eq!(u64_to_decimal(7), "7");
    assert_eq!(u64_to_decimal(10), "10");
    assert_eq!(u64_to_decimal(987654), "987654");
    assert_eq!(u64_to_decimal(u64::MAX), "18446744073709551615");
}

#[test]
fn test_fixed_width_rendering() {
    assert_eq!(u64_to_fixed(0, 6), "000000");
    assert_eq!(u64_to_fixed(42, 6), "000042");
    assert_eq!(u64_to_fixed(999999, 6), "999999");
    assert_eq!(u64_to_fixed(5, 1), "5");
    assert_eq!(u64_to_fixed(5, 0), "");
}

#[test]
fn test_elapsed_rendering() {
    assert_eq!(format_elapsed_micros(0), "0.000000");
    assert_eq!(format_elapsed_micros(12345), "0.012345");
    assert_eq!(format_elapsed_micros(1234567), "1.234567");
    assert_eq!(format_elapsed_micros(10000000), "10.000000");
}

#[test]
fn test_log_entry_without_seed() {
    assert_eq!(log_entry_no_seed(true, false, 1234567), "true, false, 1.234567");
    assert_eq!(log_entry_no_seed(false, true, 10000001), "false, true, 10.000001");
    assert_eq!(log_entry_no_seed(false, false, 42), "false, false, 0.000042");
}

#[test]
fn test_log_entry_with_seed() {
    assert_eq!(log_entry_with_seed(true, false, 1234567, 42), "true, false, 1.234567, 42");
    assert_eq!(
        log_entry_with_seed(false, false, 500000, u64::MAX),
        "false, false, 0.500000, 18446744073709551615"
    );
}

#[test]
fn test_parse_seed_accepts_digit_runs() {
    assert_eq!(parse_seed("0"), Some(0));
    assert_eq!(parse_seed("42"), Some(42));
    assert_eq!(parse_seed("18446744073709551615"), Some(u64::MAX));
}

#[test]
fn test_parse_seed_rejects_bad_input() {
    assert_eq!(parse_seed(""), None);
    assert_eq!(parse_seed("abc"), None);
    assert_eq!(parse_seed("12x"), None);
    assert_eq!(parse_seed("-1"), None);
    assert_eq!(parse_seed("1 2"), None);
    // One past u64::MAX overflows.
    assert_eq!(parse_seed("18446744073709551616"), None);
    assert_eq!(parse_seed("99999999999999999999999"), None);
}

#[test]
fn test_resolve_seed_prefers_override() {
    assert_eq!(resolve_seed(Some(5), 999), 5);
    assert_eq!(resolve_seed(None, 999), 999);
}
