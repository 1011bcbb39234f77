use kwintool::geometry::{Geometry, GeometryError, Length, Maximize};

#[test]
fn maximize_vertical() {
    assert_eq!(Maximize::Vertical.to_string(), "v");
}

#[test]
fn maximize_both() {
    assert_eq!(Maximize::Both.to_string(), "m");
}

#[test]
fn geometry_width() {
    assert_eq!(Geometry::Width(Length::Pixels(100)).to_string(), "w100");
}

#[test]
fn geometry_height() {
    assert_eq!(Geometry::Height(Length::Pixels(100)).to_string(), "h100");
}

#[test]
fn geometry_left() {
    assert_eq!(Geometry::Left(Length::Pixels(100)).to_string(), "x100");
}

#[test]
fn geometry_top() {
    assert_eq!(Geometry::Top(Length::Pixels(100)).to_string(), "y100");
}

#[test]
fn length_percent_display() {
    assert_eq!(Geometry::Width(Length::Percent(60)).to_string(), "w60%");
}

#[test]
fn geometry_parse_round_trip() {
    let parsed: String = Geometry::parse("w1280h720x0y0")
        .unwrap()
        .iter()
        .map(|g| g.to_string())
        .collect();
    assert_eq!(parsed, "w1280h720x0y0");
}

#[test]
fn geometry_parse_empty() {
    assert_eq!(Geometry::parse("").unwrap().len(), 0);
}

#[test]
fn geometry_parse_lowercase() {
    assert_eq!(
        Geometry::parse("w60%h50%x10y20m").unwrap(),
        vec![
            Geometry::Width(Length::Percent(60)),
            Geometry::Height(Length::Percent(50)),
            Geometry::Left(Length::Pixels(10)),
            Geometry::Top(Length::Pixels(20)),
            Geometry::Maximize(Maximize::Both),
        ],
    );
}

#[test]
fn geometry_parse_uppercase_matches_lowercase() {
    assert_eq!(
        Geometry::parse("W60%H50%X10Y20M").unwrap(),
        Geometry::parse("w60%h50%x10y20m").unwrap(),
    );
}

#[test]
fn geometry_parse_maximize_vertical() {
    assert_eq!(
        Geometry::parse("v").unwrap(),
        vec![Geometry::Maximize(Maximize::Vertical)],
    );
}

#[test]
fn geometry_parse_rejects_unknown_coordinate() {
    assert!(Geometry::parse("a3").is_err());
}

#[test]
fn geometry_parse_rejects_trailing_garbage() {
    assert!(Geometry::parse("w100z").is_err());
}

#[test]
fn geometry_parse_rejects_coordinate_without_value() {
    assert!(Geometry::parse("w").is_err());
}

#[test]
fn geometry_parse_reports_the_remaining_input() {
    assert_eq!(
        Geometry::parse("w100z9").unwrap_err(),
        GeometryError::InvalidToken("z9".to_string()),
    );
}

#[test]
fn geometry_parse_rejects_values_beyond_u32() {
    assert_eq!(
        Geometry::parse("w4294967296").unwrap_err(),
        GeometryError::InvalidValue("4294967296".to_string()),
    );
    assert_eq!(
        Geometry::parse("h4294967295%").unwrap(),
        vec![Geometry::Height(Length::Percent(4294967295))],
    );
}

#[test]
fn geometry_parse_takes_the_whole_digit_run_and_leading_zeros() {
    assert_eq!(
        Geometry::parse("x007y0%").unwrap(),
        vec![Geometry::Left(Length::Pixels(7)), Geometry::Top(Length::Percent(0))],
    );
}

#[test]
fn geometry_parse_rejects_non_ascii_digits() {
    assert!(Geometry::parse("w\u{663}").is_err());
}

#[test]
fn non_ascii_decimal_digits_are_an_invalid_value() {
    // ARABIC-INDIC DIGIT THREE is a decimal digit, but not a u32 digit
    assert_eq!(
        Geometry::parse("w\u{663}").unwrap_err(),
        GeometryError::InvalidValue("\u{663}".to_string()),
    );
    // the run takes ASCII and other decimal digits together
    assert_eq!(
        Geometry::parse("h1\u{663}2%").unwrap_err(),
        GeometryError::InvalidValue("1\u{663}2".to_string()),
    );
    // a character that is no decimal digit ends the run
    assert_eq!(
        Geometry::parse("w\u{e9}").unwrap_err(),
        GeometryError::InvalidToken("w\u{e9}".to_string()),
    );
}

#[test]
fn geometry_error_messages() {
    assert_eq!(
        Geometry::parse("a3").unwrap_err().message(),
        "invalid geometry token: \"a3\"",
    );
    assert_eq!(
        Geometry::parse("w4294967296").unwrap_err().message(),
        "invalid geometry value \"4294967296\": number too large to fit in target type",
    );
    assert_eq!(
        Geometry::parse("w\u{663}").unwrap_err().message(),
        "invalid geometry value \"\u{663}\": invalid digit found in string",
    );
    assert_eq!(
        GeometryError::InvalidToken("q\"".to_string()).message(),
        "invalid geometry token: \"q\\\"\"",
    );
}

#[test]
fn geometry_text_reads_back_to_the_same_tokens() {
    let tokens = vec![
        Geometry::Maximize(Maximize::Vertical),
        Geometry::Width(Length::Percent(33)),
        Geometry::Top(Length::Pixels(4000000000)),
        Geometry::Height(Length::Pixels(0)),
    ];
    let text: String = tokens.iter().map(|g| g.to_string()).collect();
    assert_eq!(text, "vw33%y4000000000h0");
    assert_eq!(Geometry::parse(&text).unwrap(), tokens);
}

#[test]
fn length_and_maximize_texts() {
    assert_eq!(Length::Pixels(0).to_string(), "0");
    assert_eq!(Length::Percent(100).to_string(), "100%");
    assert_eq!(Geometry::Maximize(Maximize::Vertical).to_string(), "v");
}
