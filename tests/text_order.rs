use mdj_diff::text::{decimal_string, name_precedes};

#[test]
fn decimal_rendering() {
    assert_eq!(decimal_string(0), "0");
    assert_eq!(decimal_string(7), "7");
    assert_eq!(decimal_string(10), "10");
    assert_eq!(decimal_string(90210), "90210");
}

#[test]
fn name_order_is_case_sensitive_and_prefix_first() {
    let s = |x: &str| x.to_string();
    assert!(name_precedes(&s("Alpha"), &s("Zeta")));
    assert!(!name_precedes(&s("Zeta"), &s("Alpha")));
    assert!(name_precedes(&s("Zeta"), &s("alpha")));
    assert!(name_precedes(&s("Al"), &s("Alpha")));
    assert!(!name_precedes(&s("Alpha"), &s("Al")));
    assert!(name_precedes(&s("Same"), &s("Same")));
    assert!(name_precedes(&s(""), &s("a")));
}
