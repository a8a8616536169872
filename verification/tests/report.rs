use kompact_sim::report::{decimal_string, render_states};

#[test]
fn decimal_of_small_numbers() {
    assert_eq!(decimal_string(0), "0");
    assert_eq!(decimal_string(7), "7");
    assert_eq!(decimal_string(10), "10");
    assert_eq!(decimal_string(1234567890), "1234567890");
}

#[test]
fn decimal_of_largest_u64() {
    assert_eq!(decimal_string(u64::MAX), "18446744073709551615");
}

#[test]
fn decimal_matches_std_formatting() {
    for n in [1u64, 9, 99, 100, 101, 65535, 4294967296, 999_999_999_999] {
        assert_eq!(decimal_string(n), n.to_string());
    }
}

#[test]
fn render_puts_each_state_on_a_line() {
    let states = vec!["count: 1".to_string(), "count: 2".to_string()];
    assert_eq!(render_states(&states), "count: 1\ncount: 2\n");
}

#[test]
fn render_of_nothing_is_empty() {
    assert_eq!(render_states(&Vec::new()), "");
}

#[test]
fn render_keeps_empty_states() {
    let states = vec![String::new(), "x".to_string()];
    assert_eq!(render_states(&states), "\nx\n");
}
