use micro_sp::main_runner::sequential_runner_enabled;
use micro_sp::runner_keys::read_full_state_enabled;
use micro_sp::text::{parse_u64, trim};
use micro_sp::tick::{tick_interval_ms, DEFAULT_TICK_INTERVAL_MS, MIN_TICK_INTERVAL_MS};

#[test]
fn with_nothing_set_the_period_is_the_default() {
    assert_eq!(tick_interval_ms(None), DEFAULT_TICK_INTERVAL_MS);
    assert_eq!(DEFAULT_TICK_INTERVAL_MS, 5);
}

#[test]
fn the_environment_variable_sets_the_period() {
    for requested in ["1", "2", "5", "50", "1000"] {
        assert_eq!(
            tick_interval_ms(Some(requested)),
            requested.parse::<u64>().unwrap(),
            "{requested} ms should have been honoured verbatim"
        );
    }
}

#[test]
fn a_period_below_the_floor_is_clamped_to_the_floor() {
    assert_eq!(tick_interval_ms(Some("0")), MIN_TICK_INTERVAL_MS);
    assert_eq!(MIN_TICK_INTERVAL_MS, 1);
}

#[test]
fn the_floor_itself_is_accepted() {
    assert_eq!(tick_interval_ms(Some("1")), 1);
}

#[test]
fn unparseable_values_fall_back_to_the_default() {
    for junk in ["", "   ", "abc", "5ms", "-1", "2.5", "1e3", "0x5"] {
        assert_eq!(
            tick_interval_ms(Some(junk)),
            DEFAULT_TICK_INTERVAL_MS,
            "{junk:?} should have fallen back to the default"
        );
    }
}

#[test]
fn surrounding_whitespace_is_tolerated() {
    assert_eq!(tick_interval_ms(Some("  20\n")), 20);
}

#[test]
fn a_period_that_does_not_fit_falls_back_to_the_default() {
    assert_eq!(tick_interval_ms(Some("18446744073709551616")), DEFAULT_TICK_INTERVAL_MS);
    assert_eq!(tick_interval_ms(Some("18446744073709551615")), u64::MAX);
    assert_eq!(tick_interval_ms(Some("+7")), 7);
}

#[test]
fn parsing_agrees_with_the_standard_library() {
    for text in [
        "", "+", "-", "0", "+0", "-0", "007", "12a", "a12", "99999999999999999999", "18446744073709551615",
        "18446744073709551616", "++1", " 1", "1 ", "\u{00a0}",
    ] {
        assert_eq!(parse_u64(text), text.parse::<u64>().ok(), "{text:?}");
    }
}

#[test]
fn trimming_agrees_with_the_standard_library() {
    for text in ["", "  ", " a b ", "\t\nx\r\n", "\u{3000}y\u{2009}", "\u{00a0}z\u{0085}", "none"] {
        assert_eq!(trim(text), text.trim(), "{text:?}");
    }
}

#[test]
fn the_full_state_is_read_only_when_asked_for() {
    assert!(!read_full_state_enabled(None));
    for yes in ["1", "true", "TRUE", " True\n"] {
        assert!(read_full_state_enabled(Some(yes)), "{yes:?}");
    }
    for no in ["", "0", "false", "yes", "2", "truee"] {
        assert!(!read_full_state_enabled(Some(no)), "{no:?}");
    }
}

#[test]
fn the_sequential_runner_is_on_unless_turned_off() {
    assert!(sequential_runner_enabled(None));
    for off in ["0", "false", "FALSE", "  False \t"] {
        assert!(!sequential_runner_enabled(Some(off)), "{off:?}");
    }
    for on in ["", "1", "true", "no", "off"] {
        assert!(sequential_runner_enabled(Some(on)), "{on:?}");
    }
}
