use flock::action::SpawnFault;
use flock::descriptor::parse_descriptor;
use flock::exit::{exit_code_of, exit_code_of_fault};
use flock::options::{timeout_is_over, wait_limit};
use flock::text::{decimal_text, signed_decimal_text};

#[test]
fn exit_code_uses_child_code() {
    assert_eq!(exit_code_of(Some(42), None), 42);
}

#[test]
fn exit_code_maps_signal() {
    assert_eq!(exit_code_of(None, Some(15)), 128 + 15);
}

#[test]
fn exit_code_without_code_or_signal() {
    assert_eq!(exit_code_of(None, None), 126);
    assert_eq!(exit_code_of(Some(-1), Some(9)), -1);
    assert_eq!(exit_code_of(Some(0), None), 0);
}

#[test]
fn exit_code_of_a_command_that_did_not_start() {
    assert_eq!(exit_code_of_fault(SpawnFault::NotFound), 127);
    assert_eq!(exit_code_of_fault(SpawnFault::PermissionDenied), 126);
    assert_eq!(exit_code_of_fault(SpawnFault::Other), 126);
}

#[test]
fn descriptors_are_bare_integers() {
    assert_eq!(parse_descriptor("9"), Some(9));
    for text in [
        "", "+", "-", "0", "9", "+9", "-9", "007", "-0", "+0", " 9", "9 ", "9a", "a9", "1_0", "--1",
        "+-1", "2147483647", "2147483648", "-2147483648", "-2147483649", "+2147483648",
        "99999999999999999999999999", "-99999999999999999999999999", "0000000000000000000000012",
        "\u{0663}", "9\n", "0x10", "1.0", "lock", "/tmp/9",
    ] {
        assert_eq!(parse_descriptor(text), text.parse::<i32>().ok(), "{text:?}");
    }
}

#[test]
fn descriptors_are_read_back() {
    for fd in [i32::MIN, -10, -1, 0, 1, 9, 10, 99, 100, 255, i32::MAX] {
        assert_eq!(signed_decimal_text(fd), fd.to_string());
        assert_eq!(parse_descriptor(&signed_decimal_text(fd)), Some(fd));
    }
}

#[test]
fn numerals() {
    for n in [0, 9, 10, 11, 99, 100, 1_700_000_000, u64::MAX] {
        assert_eq!(decimal_text(n), n.to_string());
    }
}

const SECONDS: &[f64] = &[
    0.0, -0.0, 1.0, -1.0, 0.5, -0.5, 1e-320, -1e-320, f64::MIN_POSITIVE, f64::MAX, f64::MIN,
    f64::INFINITY, f64::NEG_INFINITY, f64::NAN, -f64::NAN, 30.0, 1e19, 18446744073709549568.0,
    18446744073709551616.0, 1e20,
];

#[test]
fn timeouts_are_over_unless_positive() {
    for seconds in SECONDS {
        assert_eq!(timeout_is_over(seconds.to_bits()), !(*seconds > 0.0), "{seconds}");
    }
}

#[test]
fn waits_are_limited_by_what_can_be_counted() {
    assert_eq!(wait_limit(None), None);
    for seconds in SECONDS {
        if timeout_is_over(seconds.to_bits()) {
            continue;
        }
        let counted = std::time::Duration::try_from_secs_f64(*seconds).is_ok();
        let limit = if counted { Some(seconds.to_bits()) } else { None };
        assert_eq!(wait_limit(Some(seconds.to_bits())), limit, "{seconds}");
    }
}

#[test]
fn exit_codes_fit_a_byte() {
    for code in 0..=255 {
        assert_eq!(exit_code_of(Some(code), None), code);
    }
    for signal in 1..=127 {
        assert!((129..=255).contains(&exit_code_of(None, Some(signal))));
    }
}
