use image::Rgba;
use imagekit::color::{parse_channel, parse_digit, HexColor, DEFAULT_ALPHA};
use imagekit::errors::{ParseColorError, ParseWatermarkPositionError};
use imagekit::position::WatermarkPosition;
use imagekit::text::{spells, to_lower_char};

#[test]
fn test_watermark_position_from_str() {
    assert_eq!(WatermarkPosition::from_str("nw").unwrap(), WatermarkPosition::Nw);
    assert!(WatermarkPosition::from_str("top-left").is_err());
}

#[test]
fn test_hex_color_parsing() {
    let color = HexColor::from_str("#FF000080").unwrap();
    assert_eq!(Rgba(color.0), Rgba([255, 0, 0, 128]));
    let color = HexColor::from_str("00FF00").unwrap();
    assert_eq!(Rgba(color.0), Rgba([0, 255, 0, 128]));
    let color = HexColor::from_str("0000ffAA").unwrap();
    assert_eq!(Rgba(color.0), Rgba([0, 0, 255, 170]));
    assert!(HexColor::from_str("12345").is_err());
    assert!(HexColor::from_str("GGFFFF").is_err());
}

#[test]
fn position_names_all_nine() {
    let all = [
        ("nw", WatermarkPosition::Nw),
        ("north", WatermarkPosition::North),
        ("ne", WatermarkPosition::Ne),
        ("west", WatermarkPosition::West),
        ("center", WatermarkPosition::Center),
        ("east", WatermarkPosition::East),
        ("sw", WatermarkPosition::Sw),
        ("south", WatermarkPosition::South),
        ("se", WatermarkPosition::Se),
    ];
    for (name, position) in all {
        assert_eq!(WatermarkPosition::from_str(name).unwrap(), position);
        assert_eq!(position.to_string(), name);
        assert_eq!(WatermarkPosition::from_str(&position.to_string()).unwrap(), position);
    }
}

#[test]
fn position_ignores_case() {
    assert_eq!(WatermarkPosition::from_str("NW").unwrap(), WatermarkPosition::Nw);
    assert_eq!(WatermarkPosition::from_str("Center").unwrap(), WatermarkPosition::Center);
    assert_eq!(WatermarkPosition::from_str("sOuTh").unwrap(), WatermarkPosition::South);
}

#[test]
fn position_rejects_near_misses() {
    for text in ["", "n", "nww", " nw", "nw ", "centre", "south-east", "\u{212A}"] {
        let err = WatermarkPosition::from_str(text).unwrap_err();
        assert_eq!(err.0, text);
    }
}

#[test]
fn position_error_message() {
    let err = WatermarkPosition::from_str("top-left").unwrap_err();
    assert_eq!(
        err.to_string(),
        "Invalid watermark position: 'top-left'. Valid options are: nw, north, ne, west, center, east, sw, south, se"
    );
    let made = ParseWatermarkPositionError(String::from("x"));
    assert!(made.to_string().starts_with("Invalid watermark position: 'x'."));
}

#[test]
fn lower_case_of_characters() {
    assert_eq!(to_lower_char('A'), 'a');
    assert_eq!(to_lower_char('Z'), 'z');
    assert_eq!(to_lower_char('m'), 'm');
    assert_eq!(to_lower_char('@'), '@');
    assert_eq!(to_lower_char('['), '[');
    assert_eq!(to_lower_char('\u{C9}'), '\u{C9}');
    assert!(spells("WeSt", "west"));
    assert!(!spells("west", "wes"));
    assert!(!spells("wexst", "west"));
    assert!(spells("", ""));
}

#[test]
fn color_default_alpha_is_128() {
    assert_eq!(DEFAULT_ALPHA, 128);
    assert_eq!(HexColor::from_str("ffffff").unwrap().0, [255, 255, 255, 128]);
    assert_eq!(HexColor::from_str("#000000").unwrap().0, [0, 0, 0, 128]);
    assert_eq!(HexColor::from_str("000000ff").unwrap().0, [0, 0, 0, 255]);
    assert_eq!(HexColor::from_str("00000000").unwrap().0, [0, 0, 0, 0]);
}

#[test]
fn color_mixed_case_digits() {
    assert_eq!(HexColor::from_str("aAbBcCdD").unwrap().0, [0xaa, 0xbb, 0xcc, 0xdd]);
    assert_eq!(HexColor::from_str("#1a2B3c").unwrap().0, [0x1a, 0x2b, 0x3c, 128]);
}

#[test]
fn color_plus_sign_before_single_digit() {
    assert_eq!(HexColor::from_str("+1+2+3").unwrap().0, [1, 2, 3, 128]);
    assert_eq!(HexColor::from_str("+f00ff+a").unwrap().0, [15, 0, 255, 10]);
    assert!(HexColor::from_str("1+0000").is_err());
    assert!(HexColor::from_str("++0000").is_err());
    assert!(HexColor::from_str("-10000").is_err());
}

#[test]
fn color_rejects_wrong_shapes() {
    for text in ["", "#", "12345", "1234567", "123456789", "GGFFFF", "12 456", "##123456", "12345g", "\u{e9}12345"] {
        assert!(HexColor::from_str(text).is_err(), "{:?}", text);
    }
}

#[test]
fn color_error_holds_text_without_hash() {
    let err = HexColor::from_str("#12345").unwrap_err();
    assert_eq!(err.0, "12345");
    let err = HexColor::from_str("GGFFFF").unwrap_err();
    assert_eq!(err.0, "GGFFFF");
    assert_eq!(
        err.to_string(),
        "Invalid hex color code: 'GGFFFF'. Must be in RRGGBB or RRGGBBAA format."
    );
    let made = ParseColorError(String::from("zz"));
    assert_eq!(made.to_string(), "Invalid hex color code: 'zz'. Must be in RRGGBB or RRGGBBAA format.");
}

#[test]
fn color_writes_eight_lower_case_digits() {
    assert_eq!(HexColor([255, 0, 0, 128]).to_string(), "ff000080");
    assert_eq!(HexColor([0x0a, 0xb0, 0x9f, 0x00]).to_string(), "0ab09f00");
    assert_eq!(HexColor([255, 255, 255, 128]).to_string(), "ffffff80");
}

#[test]
fn color_round_trip_through_text() {
    for r in [0u8, 1, 15, 16, 127, 128, 254, 255] {
        for a in [0u8, 9, 10, 99, 200, 255] {
            let color = HexColor([r, 255 - r, r / 2, a]);
            let back = HexColor::from_str(&color.to_string()).unwrap();
            assert_eq!(back.0, color.0);
        }
    }
}

#[test]
fn digits_and_channels() {
    assert_eq!(parse_digit('0'), Some(0));
    assert_eq!(parse_digit('9'), Some(9));
    assert_eq!(parse_digit('a'), Some(10));
    assert_eq!(parse_digit('F'), Some(15));
    assert_eq!(parse_digit('g'), None);
    assert_eq!(parse_digit('/'), None);
    assert_eq!(parse_digit(':'), None);
    assert_eq!(parse_channel('f', 'f'), Some(255));
    assert_eq!(parse_channel('1', '0'), Some(16));
    assert_eq!(parse_channel('+', '7'), Some(7));
    assert_eq!(parse_channel('7', '+'), None);
    assert_eq!(parse_channel('x', '1'), None);
    for v in 0..=255u8 {
        let text = format!("{:02x}", v);
        let mut chars = text.chars();
        let hi = chars.next().unwrap();
        let lo = chars.next().unwrap();
        assert_eq!(parse_channel(hi, lo), u8::from_str_radix(&text, 16).ok());
    }
}
