use hyprselect::hyprland_config::{config_lines, Commands, Parameter, WindowMode, WindowRule};
use hyprselect::region_text::{format_region, parse_number, parse_region, NumberError, ParseRuleError, Region};

fn chars(s: &str) -> Vec<char> {
    s.chars().collect()
}

#[test]
fn parses_plain_region() {
    let r = parse_region("10,20 30x40").unwrap();
    assert_eq!((r.x, r.y), (10, 20));
    assert_eq!((r.width, r.height), (30, 40));
}

#[test]
fn parses_negative_and_padded_region() {
    let r = parse_region("  -1920,-5 1920x1080\n").unwrap();
    assert_eq!(r, Region { x: -1920, y: -5, width: 1920, height: 1080 });
    assert_eq!(parse_region("+3,4 5x6"), Ok(Region { x: 3, y: 4, width: 5, height: 6 }));
}

#[test]
fn bad_layout_is_invalid_format() {
    assert_eq!(parse_region("bad input"), Err(ParseRuleError::InvalidFormat));
    assert_eq!(parse_region(""), Err(ParseRuleError::InvalidFormat));
    assert_eq!(parse_region("10,20 30"), Err(ParseRuleError::InvalidFormat));
    assert_eq!(parse_region("10,20x30"), Err(ParseRuleError::InvalidFormat));
}

#[test]
fn bad_field_is_invalid_number() {
    let bad = |e| Err(ParseRuleError::InvalidNumber(e));
    assert_eq!(parse_region("10,abc 30x40"), bad(NumberError::InvalidDigit));
    assert_eq!(parse_region("10,20 30x40 junk"), bad(NumberError::InvalidDigit));
    assert_eq!(parse_region("10,20 30x"), bad(NumberError::Empty));
    assert_eq!(parse_region("99999999999,0 1x1"), bad(NumberError::PosOverflow));
    assert_eq!(parse_region("-99999999999,0 1x1"), bad(NumberError::NegOverflow));
    assert_eq!(parse_region("-,0 1x1"), bad(NumberError::InvalidDigit));
    // The first bad field, in the order x, y, w, h, gives the reason.
    assert_eq!(parse_region("1,99999999999 x"), bad(NumberError::PosOverflow));
}

#[test]
fn numbers_at_the_limits() {
    assert_eq!(parse_number(&chars("2147483647")), Ok(i32::MAX));
    assert_eq!(parse_number(&chars("-2147483648")), Ok(i32::MIN));
    assert_eq!(parse_number(&chars("2147483648")), Err(NumberError::PosOverflow));
    assert_eq!(parse_number(&chars("-2147483649")), Err(NumberError::NegOverflow));
    assert_eq!(parse_number(&chars("007")), Ok(7));
    assert_eq!(parse_number(&chars("1a")), Err(NumberError::InvalidDigit));
    assert_eq!(parse_number(&chars("+")), Err(NumberError::InvalidDigit));
    assert_eq!(parse_number(&chars("")), Err(NumberError::Empty));
}

#[test]
fn formats_region() {
    let r = Region { x: -3, y: 0, width: 120, height: 45 };
    assert_eq!(format_region(&r), "-3,0 120x45");
}

#[test]
fn format_then_parse_round_trips() {
    for r in [
        Region { x: 10, y: 20, width: 30, height: 40 },
        Region { x: i32::MIN, y: i32::MAX, width: 0, height: -1 },
        Region { x: -7, y: 1000000, width: 9, height: 10 },
    ] {
        assert_eq!(parse_region(&format_region(&r)), Ok(r));
    }
}

#[test]
fn error_messages() {
    assert_eq!(ParseRuleError::InvalidFormat.message(), "invalid region format");
    assert_eq!(
        ParseRuleError::InvalidNumber(NumberError::InvalidDigit).message(),
        "invalid number: invalid digit found in string"
    );
    assert_eq!(
        ParseRuleError::InvalidNumber(NumberError::Empty).message(),
        "invalid number: cannot parse integer from empty string"
    );
    assert_eq!(
        ParseRuleError::InvalidNumber(NumberError::PosOverflow).message(),
        "invalid number: number too large to fit in target type"
    );
    assert_eq!(
        ParseRuleError::InvalidNumber(NumberError::NegOverflow).message(),
        "invalid number: number too small to fit in target type"
    );
}

#[test]
fn config_lines_for_requested_modes() {
    let both = Commands::Generate { float: true, persistentsize: false, tile: true, fullscreen: false };
    assert_eq!(
        config_lines(&both, "Firefox"),
        vec!["windowrule = float, initialTitle:Firefox".to_string(), "windowrule = tile, initialTitle:Firefox".to_string()]
    );
    let none = Commands::Generate { float: false, persistentsize: true, tile: false, fullscreen: true };
    assert!(config_lines(&none, "x").is_empty());
}

#[test]
fn rule_text_joins_parameters() {
    let rule = WindowRule {
        mode: WindowMode::Float,
        parameters: vec![Parameter::Class("kitty".to_string()), Parameter::Title("shell".to_string())],
    };
    assert_eq!(rule.to_text(), "windowrule = float, class:kitty\ntitle:shell");
    assert_eq!(WindowMode::Tile.to_string(), "tile");
    assert_eq!(Parameter::InitialClass("c".to_string()).to_string(), "c");
    assert_eq!(Parameter::InitialTitle("kitty".to_string()).to_string(), "kitty");
    assert_eq!(Parameter::Class("kitty".to_string()).key(), "class:");
}
