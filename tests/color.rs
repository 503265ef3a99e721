use subtitles::color::hex_to_color;

#[test]
fn color_six_digits() {
    assert_eq!(hex_to_color("#336699"), Some("rgb(51,102,153)".to_string()));
}

#[test]
fn color_eight_digits() {
    let c = hex_to_color("33669980").unwrap();
    assert!(c.starts_with("rgba(51,102,153,0.50"));
    assert_eq!(c, "rgba(51,102,153,0.502)");
}

#[test]
fn color_invalid_length() {
    assert_eq!(hex_to_color("xyz"), None);
    assert_eq!(hex_to_color("#33669"), None);
    assert_eq!(hex_to_color(""), None);
    assert_eq!(hex_to_color("#3366990"), None);
}

#[test]
fn color_non_hex_digit() {
    assert_eq!(hex_to_color("#GG6699"), None);
    assert_eq!(hex_to_color("+f+f+f"), None);
}

#[test]
fn color_alpha_bounds_and_case() {
    assert_eq!(hex_to_color("#FFFFFFFF"), Some("rgba(255,255,255,1.000)".to_string()));
    assert_eq!(hex_to_color("#00000000"), Some("rgba(0,0,0,0.000)".to_string()));
    assert_eq!(hex_to_color("##aBcDeF"), Some("rgb(171,205,239)".to_string()));
}
