use mercy::popup::{extract_number_after, parse_popup_coords};

#[test]
fn test_parse_popup_coords() {
    assert_eq!(parse_popup_coords("Mercenary Exchange (K:111 X:506 Y:638)"), Some((111, 506, 638)));
    assert_eq!(parse_popup_coords("(K:109 X:100 Y:200)"), Some((109, 100, 200)));
    assert_eq!(parse_popup_coords("no coords here"), None);
}

#[test]
fn popup_number_needs_digits_right_after_prefix() {
    assert_eq!(extract_number_after("K: 12", "K:"), None);
    assert_eq!(extract_number_after("K:12abc", "K:"), Some(12));
    assert_eq!(extract_number_after("K:4294967296", "K:"), None);
    assert_eq!(extract_number_after("K:4294967295", "K:"), Some(4294967295));
}

#[test]
fn popup_uses_first_occurrence() {
    assert_eq!(extract_number_after("X:abc X:5", "X:"), None);
    assert_eq!(parse_popup_coords("K:1 X:2 Y:3 K:9"), Some((1, 2, 3)));
    assert_eq!(parse_popup_coords("K:1 X:2"), None);
}
