use inertia_axum::lenient::{lenient_bool, lenient_i64, lenient_u64};

#[test]
fn form_booleans() {
    for s in ["1", "true", "on", "yes", " TRUE ", "On"] {
        assert_eq!(lenient_bool(s), Some(true), "{s:?}");
    }
    for s in ["0", "false", "off", "no", "", "  ", "No"] {
        assert_eq!(lenient_bool(s), Some(false), "{s:?}");
    }
    assert_eq!(lenient_bool("maybe"), None);
    assert_eq!(lenient_bool("tru e"), None);
}

#[test]
fn form_integers() {
    assert_eq!(lenient_u64(" 42 "), Some(42));
    assert_eq!(lenient_u64("+7"), Some(7));
    assert_eq!(lenient_u64("18446744073709551615"), Some(u64::MAX));
    assert_eq!(lenient_u64("18446744073709551616"), None);
    assert_eq!(lenient_u64("-1"), None);
    assert_eq!(lenient_u64("abc"), None);
    assert_eq!(lenient_u64(""), None);
    assert_eq!(lenient_i64("-9223372036854775808"), Some(i64::MIN));
    assert_eq!(lenient_i64("9223372036854775807"), Some(i64::MAX));
    assert_eq!(lenient_i64("9223372036854775808"), None);
    assert_eq!(lenient_i64("-9223372036854775809"), None);
    assert_eq!(lenient_i64(" -12"), Some(-12));
    assert_eq!(lenient_i64("+3"), Some(3));
    assert_eq!(lenient_i64("-"), None);
    assert_eq!(lenient_i64("+-1"), None);
}
