use textutils::tokens::{is_flag, starts_with_dash};

#[test]
fn dash_makes_an_option() {
    assert!(starts_with_dash("-"));
    assert!(starts_with_dash("-d"));
    assert!(starts_with_dash("--long"));
    assert!(!starts_with_dash(""));
    assert!(!starts_with_dash("file-name"));
    assert!(!starts_with_dash("\u{2212}d"));
}

#[test]
fn flag_is_dash_and_letter() {
    assert!(is_flag("-d", 'd'));
    assert!(!is_flag("-d", 'l'));
    assert!(!is_flag("-", 'd'));
    assert!(!is_flag("d", 'd'));
    assert!(!is_flag("-dd", 'd'));
    assert!(!is_flag("", 'd'));
    assert!(!is_flag("-D", 'd'));
}
