use swww::cli::{from_hex, Filter};

#[test]
fn should_reject_wrong_colors() {
    assert!(
        from_hex("0012231").is_err(),
        "function is accepting strings with more than 6 chars"
    );
    assert!(
        from_hex("00122").is_err(),
        "function is accepting strings with less than 6 chars"
    );
    assert!(
        from_hex("00r223").is_err(),
        "function is accepting strings with chars that aren't hex"
    );
}

#[test]
fn should_convert_colors_from_hex() {
    let color = from_hex("101010").unwrap();
    assert_eq!(color, [16, 16, 16]);

    let color = from_hex("ffffff").unwrap();
    assert_eq!(color, [255, 255, 255]);

    let color = from_hex("000000").unwrap();
    assert_eq!(color, [0, 0, 0]);
}

#[test]
fn hex_ignores_non_alphanumeric_separators() {
    let color = from_hex("12-34-56").unwrap();
    assert_eq!(color, [0x12, 0x34, 0x56]);
}

#[test]
fn hex_error_reports_count() {
    let e = from_hex("00122").unwrap_err();
    assert_eq!(e, "expected 6 characters, found 5");
}

#[test]
fn filter_names_parse() {
    assert!(matches!(Filter::from_str("Nearest"), Ok(Filter::Nearest)));
    assert!(matches!(Filter::from_str("Triangle"), Ok(Filter::Triangle)));
    assert!(matches!(
        Filter::from_str("CatmullRom"),
        Ok(Filter::CatmullRom)
    ));
    assert!(matches!(Filter::from_str("Gaussian"), Ok(Filter::Gaussian)));
    assert!(matches!(Filter::from_str("Lanczos3"), Ok(Filter::Lanczos3)));
    assert!(Filter::from_str("Cubic").is_err());
}
