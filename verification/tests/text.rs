use cargo_run_wasm::text::{chars_of, push_decimal, starts_with_dash};

#[test]
fn dash_is_seen_at_the_front_alone() {
    assert!(starts_with_dash("-"));
    assert!(starts_with_dash("--x"));
    assert!(starts_with_dash("-1"));
    assert!(!starts_with_dash(""));
    assert!(!starts_with_dash("a-"));
    assert!(!starts_with_dash(" -"));
    assert!(!starts_with_dash("–x"));
}

#[test]
fn characters_come_one_by_one() {
    assert_eq!(chars_of(""), Vec::<char>::new());
    assert_eq!(chars_of("aé漢"), vec!['a', 'é', '漢']);
}

#[test]
fn numbers_are_written_in_decimal() {
    for n in [0usize, 1, 9, 10, 11, 99, 100, 101, 1203, 65535, 4294967295, usize::MAX] {
        let mut text = String::from("n=");
        push_decimal(&mut text, n);
        assert_eq!(text, format!("n={}", n));
    }
}
