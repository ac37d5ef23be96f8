use text_paint::colour::Rgb24;
use text_paint::config::{Config, ConfigError, PaletteEntry};
use text_paint::palette::{parse_palette, PaletteError};
use text_paint::parse_colour::{from_hex, is_hex_digit, parse_hex_rgb24, ColourError};

#[test]
fn hex_digits_are_recognized() {
    for c in "0123456789abcdefABCDEF".chars() {
        assert!(is_hex_digit(c), "{c} is a hex digit");
    }
    for c in "gG zx#-+.".chars() {
        assert!(!is_hex_digit(c), "{c} is not a hex digit");
    }
}

#[test]
fn from_hex_reads_byte_values() {
    assert_eq!(from_hex("ff"), Ok(255));
    assert_eq!(from_hex("00"), Ok(0));
    assert_eq!(from_hex("7b"), Ok(123));
    assert_eq!(from_hex("A0"), Ok(160));
    assert_eq!(from_hex("00ff"), Ok(255));
}

#[test]
fn from_hex_rejects_bad_input() {
    assert_eq!(from_hex(""), Err(ColourError::Empty));
    assert_eq!(from_hex("0g"), Err(ColourError::InvalidDigit));
    assert_eq!(from_hex("+f"), Err(ColourError::InvalidDigit));
    assert_eq!(from_hex("100"), Err(ColourError::Overflow));
}

#[test]
fn parse_hex_rgb24_reads_colours() {
    assert_eq!(
        parse_hex_rgb24("#ff00a0"),
        Ok(Rgb24 { r: 255, g: 0, b: 160 })
    );
    assert_eq!(
        parse_hex_rgb24("#000000"),
        Ok(Rgb24 { r: 0, g: 0, b: 0 })
    );
    // Trailing characters after the six digits are ignored.
    assert_eq!(
        parse_hex_rgb24("#123456xyz"),
        Ok(Rgb24 { r: 0x12, g: 0x34, b: 0x56 })
    );
}

#[test]
fn parse_hex_rgb24_rejects_bad_input() {
    assert_eq!(parse_hex_rgb24("ff0000"), Err(ColourError::BadFormat));
    assert_eq!(parse_hex_rgb24("#ff00"), Err(ColourError::BadFormat));
    assert_eq!(parse_hex_rgb24("#ff00zz"), Err(ColourError::BadFormat));
    assert_eq!(parse_hex_rgb24(""), Err(ColourError::BadFormat));
}

fn strings(v: &[&str]) -> Vec<String> {
    v.iter().map(|s| s.to_string()).collect()
}

#[test]
fn parse_palette_accepts_well_formed_rows() {
    let fg = strings(&["#ff0000", "#00ff00"]);
    let bg = strings(&["#000000"]);
    let ch = strings(&["a", "#", " "]);
    let palette = parse_palette(&fg, &bg, &ch).expect("palette must parse");
    assert_eq!(
        palette.fg,
        vec![
            Rgb24 { r: 255, g: 0, b: 0 },
            Rgb24 { r: 0, g: 255, b: 0 }
        ]
    );
    assert_eq!(palette.bg, vec![Rgb24 { r: 0, g: 0, b: 0 }]);
    assert_eq!(palette.ch, vec!['a', '#', ' ']);
}

#[test]
fn parse_palette_reports_each_error() {
    let good_colours = strings(&["#ffffff"]);
    let good_chars = strings(&["x"]);
    assert_eq!(
        parse_palette(&strings(&["red"]), &good_colours, &good_chars).unwrap_err(),
        PaletteError::BadFg
    );
    assert_eq!(
        parse_palette(&good_colours, &strings(&["#12345"]), &good_chars).unwrap_err(),
        PaletteError::BadBg
    );
    assert_eq!(
        parse_palette(&good_colours, &good_colours, &strings(&["ab"])).unwrap_err(),
        PaletteError::BadCh
    );
    assert_eq!(
        parse_palette(&strings(&[]), &good_colours, &good_chars).unwrap_err(),
        PaletteError::EmptyFg
    );
    assert_eq!(
        parse_palette(&good_colours, &strings(&[]), &good_chars).unwrap_err(),
        PaletteError::EmptyBg
    );
    assert_eq!(
        parse_palette(&good_colours, &good_colours, &strings(&[])).unwrap_err(),
        PaletteError::EmptyCh
    );
}

#[test]
fn config_parses_two_and_three_part_entries() {
    let entries = vec![
        strings(&["a", "#ff0000"]),
        strings(&["b", "#00ff00", "#0000ff"]),
    ];
    let config = Config::parse(&entries).expect("config must parse");
    assert_eq!(
        config.palette(),
        &vec![
            PaletteEntry {
                character: 'a',
                foreground: Rgb24 { r: 255, g: 0, b: 0 },
                background: None,
            },
            PaletteEntry {
                character: 'b',
                foreground: Rgb24 { r: 0, g: 255, b: 0 },
                background: Some(Rgb24 { r: 0, g: 0, b: 255 }),
            },
        ]
    );
}

#[test]
fn config_reports_each_error() {
    assert_eq!(
        Config::parse(&vec![strings(&["a"])]).unwrap_err(),
        ConfigError::BadArity
    );
    assert_eq!(
        Config::parse(&vec![strings(&["ab", "#ff0000"])]).unwrap_err(),
        ConfigError::BadCharacter
    );
    assert_eq!(
        Config::parse(&vec![strings(&["a", "red"])]).unwrap_err(),
        ConfigError::BadForeground
    );
    assert_eq!(
        Config::parse(&vec![strings(&["a", "#ff0000", "blue"])]).unwrap_err(),
        ConfigError::BadBackground
    );
}
