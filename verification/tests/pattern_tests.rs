use hexstore::pattern::{generate_pattern, restrict_to_alphabet};

#[test]
fn generated_patterns_stay_in_the_alphabet_and_length_range() {
    for _ in 0..200 {
        let p = generate_pattern();
        let n = p.chars().count();
        assert!(1 <= n && n <= 32, "length {n} out of range");
        assert!(p.chars().all(|c| "qweasd".contains(c)), "bad symbol in {p}");
    }
}

#[test]
fn restrict_filters_foreign_symbols_in_order() {
    assert_eq!(restrict_to_alphabet("zzzqxwYe!a s-d"), "qweasd");
}

#[test]
fn restrict_is_a_noop_on_restricted_input() {
    assert_eq!(restrict_to_alphabet("qweasd"), "qweasd");
    assert_eq!(restrict_to_alphabet(""), "");
}

#[test]
fn restrict_is_idempotent() {
    let once = restrict_to_alphabet("hexcasting:entity with qwe and asd");
    let twice = restrict_to_alphabet(&once);
    assert_eq!(once, twice);
}

#[test]
fn restrict_can_empty_a_string() {
    assert_eq!(restrict_to_alphabet("zzz"), "");
}
