use ansi_to_html::ansi::{split_fields, Ansi, AnsiIter};
use ansi_to_html::color::{Color, EightBitColor, FourBitColor, FourBitColorType, RgbColor};
use ansi_to_html::error::ParseIntKind;
use ansi_to_html::html::{AnsiConverter, Style, StyleFilter};
use ansi_to_html::{ansi_to_html, Error, Theme};

const COLORS: [&str; 256] = [
    "#000", "#a00", "#0a0", "#a60", "#00a", "#a0a", "#0aa", "#aaa", "#555", "#f55", "#5f5",
    "#ff5", "#55f", "#f5f", "#5ff", "#fff", "#000", "#00005f", "#000087", "#0000af",
    "#0000d7", "#00f", "#005f00", "#005f5f", "#005f87", "#005faf", "#005fd7", "#005fff",
    "#008700", "#00875f", "#008787", "#0087af", "#0087d7", "#0087ff", "#00af00", "#00af5f",
    "#00af87", "#00afaf", "#00afd7", "#00afff", "#00d700", "#00d75f", "#00d787", "#00d7af",
    "#00d7d7", "#00d7ff", "#0f0", "#00ff5f", "#00ff87", "#00ffaf", "#00ffd7", "#0ff",
    "#5f0000", "#5f005f", "#5f0087", "#5f00af", "#5f00d7", "#5f00ff", "#5f5f00", "#5f5f5f",
    "#5f5f87", "#5f5faf", "#5f5fd7", "#5f5fff", "#5f8700", "#5f875f", "#5f8787", "#5f87af",
    "#5f87d7", "#5f87ff", "#5faf00", "#5faf5f", "#5faf87", "#5fafaf", "#5fafd7", "#5fafff",
    "#5fd700", "#5fd75f", "#5fd787", "#5fd7af", "#5fd7d7", "#5fd7ff", "#5fff00", "#5fff5f",
    "#5fff87", "#5fffaf", "#5fffd7", "#5fffff", "#870000", "#87005f", "#870087", "#8700af",
    "#8700d7", "#8700ff", "#875f00", "#875f5f", "#875f87", "#875faf", "#875fd7", "#875fff",
    "#878700", "#87875f", "#878787", "#8787af", "#8787d7", "#8787ff", "#87af00", "#87af5f",
    "#87af87", "#87afaf", "#87afd7", "#87afff", "#87d700", "#87d75f", "#87d787", "#87d7af",
    "#87d7d7", "#87d7ff", "#87ff00", "#87ff5f", "#87ff87", "#87ffaf", "#87ffd7", "#87ffff",
    "#af0000", "#af005f", "#af0087", "#af00af", "#af00d7", "#af00ff", "#af5f00", "#af5f5f",
    "#af5f87", "#af5faf", "#af5fd7", "#af5fff", "#af8700", "#af875f", "#af8787", "#af87af",
    "#af87d7", "#af87ff", "#afaf00", "#afaf5f", "#afaf87", "#afafaf", "#afafd7", "#afafff",
    "#afd700", "#afd75f", "#afd787", "#afd7af", "#afd7d7", "#afd7ff", "#afff00", "#afff5f",
    "#afff87", "#afffaf", "#afffd7", "#afffff", "#d70000", "#d7005f", "#d70087", "#d700af",
    "#d700d7", "#d700ff", "#d75f00", "#d75f5f", "#d75f87", "#d75faf", "#d75fd7", "#d75fff",
    "#d78700", "#d7875f", "#d78787", "#d787af", "#d787d7", "#d787ff", "#d7af00", "#d7af5f",
    "#d7af87", "#d7afaf", "#d7afd7", "#d7afff", "#d7d700", "#d7d75f", "#d7d787", "#d7d7af",
    "#d7d7d7", "#d7d7ff", "#d7ff00", "#d7ff5f", "#d7ff87", "#d7ffaf", "#d7ffd7", "#d7ffff",
    "#f00", "#ff005f", "#ff0087", "#ff00af", "#ff00d7", "#f0f", "#ff5f00", "#ff5f5f",
    "#ff5f87", "#ff5faf", "#ff5fd7", "#ff5fff", "#ff8700", "#ff875f", "#ff8787", "#ff87af",
    "#ff87d7", "#ff87ff", "#ffaf00", "#ffaf5f", "#ffaf87", "#ffafaf", "#ffafd7", "#ffafff",
    "#ffd700", "#ffd75f", "#ffd787", "#ffd7af", "#ffd7d7", "#ffd7ff", "#ff0", "#ffff5f",
    "#ffff87", "#ffffaf", "#ffffd7", "#fff", "#080808", "#121212", "#1c1c1c", "#262626",
    "#303030", "#3a3a3a", "#444", "#4e4e4e", "#585858", "#626262", "#6c6c6c", "#767676",
    "#808080", "#8a8a8a", "#949494", "#9e9e9e", "#a8a8a8", "#b2b2b2", "#bcbcbc", "#c6c6c6",
    "#d0d0d0", "#dadada", "#e4e4e4", "#eee",
];

fn text(bytes: Vec<u8>) -> String {
    String::from_utf8(bytes).unwrap()
}

#[test]
fn palette_in_hexadecimal() {
    for code in 0..=255u8 {
        let mut buf = Vec::new();
        EightBitColor::new(code).write_hex(&mut buf);
        assert_eq!(text(buf), COLORS[code as usize], "colour {code}");
    }
}

#[test]
fn named_colors_share_the_start_of_the_palette() {
    for code in 0..16u8 {
        let named = FourBitColor::from_code(code).unwrap();
        assert_eq!(named.code(), code);
        assert_eq!(named.is_bright(), code >= 8);
        let mut a = Vec::new();
        Color::FourBit(named).write_hex(&mut a);
        assert_eq!(text(a), COLORS[code as usize]);
    }
    assert_eq!(FourBitColor::from_code(16), None);
}

#[test]
fn rgb_is_never_shortened() {
    let mut buf = Vec::new();
    Color::Rgb(RgbColor { r: 0, g: 0xff, b: 0x0a }).write_hex(&mut buf);
    assert_eq!(text(buf), "#00ff0a");
}

fn span(color: Color, mode: &FourBitColorType, is_fg: bool) -> String {
    let mut buf = Vec::new();
    color.into_opening_span(&mut buf, mode, is_fg);
    text(buf)
}

#[test]
fn opening_spans_in_each_mode() {
    let red = Color::FourBit(FourBitColor::Red);
    let bright = Color::FourBit(FourBitColor::BrightCyan);
    let hard = FourBitColorType::Hardcoded;
    let var = FourBitColorType::Var { prefix: Some("t-".to_owned()) };
    let class = FourBitColorType::Class { prefix: Some("t-".to_owned()) };
    let bare = FourBitColorType::Class { prefix: None };
    assert_eq!(span(red, &hard, true), "<span style='color:#a00'>");
    assert_eq!(span(red, &hard, false), "<span style='background:#a00'>");
    assert_eq!(span(red, &var, true), "<span style='color:var(--t-red,#a00)'>");
    assert_eq!(
        span(bright, &var, false),
        "<span style='background:var(--t-bright-cyan,#5ff)'>"
    );
    assert_eq!(span(red, &class, true), "<span class='t-red'>");
    assert_eq!(span(bright, &class, false), "<span class='t-bg-bright-cyan'>");
    assert_eq!(span(bright, &bare, true), "<span class='bright-cyan'>");
    let grey = Color::EightBit(EightBitColor::new(240));
    assert_eq!(span(grey, &class, true), "<span style='color:#585858'>");
    assert_eq!(span(grey, &var, true), "<span style='color:#585858'>");
    let low = Color::EightBit(EightBitColor::new(3));
    assert_eq!(span(low, &class, true), "<span style='color:#a60'>");
    assert_eq!(span(low, &var, true), "<span style='color:var(--t-yellow,#a60)'>");
    let mut fg = Vec::new();
    red.into_opening_fg_span(&mut fg, &class);
    assert_eq!(text(fg), "<span class='t-red'>");
    let mut bg = Vec::new();
    red.into_opening_bg_span(&mut bg, &class);
    assert_eq!(text(bg), "<span class='t-bg-red'>");
}

#[test]
fn fields_are_split_and_read() {
    assert_eq!(split_fields(b"1;21"), [Ok(1), Ok(21)]);
    assert_eq!(split_fields(b"255"), [Ok(255)]);
    assert_eq!(split_fields(b"256"), [Err(ParseIntKind::PosOverflow)]);
    assert_eq!(split_fields(b"1000"), [Err(ParseIntKind::PosOverflow)]);
    assert_eq!(split_fields(b""), [Err(ParseIntKind::Empty)]);
    assert_eq!(
        split_fields(b"3;;x1;007"),
        [Ok(3), Err(ParseIntKind::Empty), Err(ParseIntKind::InvalidDigit), Ok(7)]
    );
    assert_eq!(split_fields(b"1;"), [Ok(1), Err(ParseIntKind::Empty)]);
}

fn events(fields: &[u8]) -> Vec<Result<Ansi, String>> {
    let mut iter = AnsiIter::new(split_fields(fields));
    let mut out = Vec::new();
    while let Some(event) = iter.next() {
        out.push(event.map_err(|e| e.message()));
    }
    out
}

#[test]
fn codes_become_events() {
    let red = Color::FourBit(FourBitColor::Red);
    assert_eq!(
        events(b"0;1;2;3;4;7;9;21;22;23;24;27;29;39;49"),
        [
            Ok(Ansi::Reset),
            Ok(Ansi::Bold),
            Ok(Ansi::Faint),
            Ok(Ansi::Italic),
            Ok(Ansi::Underline),
            Ok(Ansi::Invert),
            Ok(Ansi::CrossedOut),
            Ok(Ansi::DoubleUnderline),
            Ok(Ansi::BoldAndFaintOff),
            Ok(Ansi::ItalicOff),
            Ok(Ansi::UnderlineOff),
            Ok(Ansi::InvertOff),
            Ok(Ansi::CrossedOutOff),
            Ok(Ansi::DefaultForegroundColor),
            Ok(Ansi::DefaultBackgroundColor),
        ]
    );
    assert_eq!(
        events(b"31;41;91;101"),
        [
            Ok(Ansi::ForegroundColor(red)),
            Ok(Ansi::BackgroundColor(red)),
            Ok(Ansi::ForegroundColor(Color::FourBit(FourBitColor::BrightRed))),
            Ok(Ansi::BackgroundColor(Color::FourBit(FourBitColor::BrightRed))),
        ]
    );
    assert_eq!(
        events(b"38;5;200;48;2;1;2;3;1"),
        [
            Ok(Ansi::ForegroundColor(Color::EightBit(EightBitColor::new(200)))),
            Ok(Ansi::BackgroundColor(Color::Rgb(RgbColor { r: 1, g: 2, b: 3 }))),
            Ok(Ansi::Bold),
        ]
    );
    for code in [5u8, 6, 8, 10, 19, 20, 25, 26, 28, 50, 55, 58, 59, 60, 65, 73, 74] {
        assert_eq!(events(code.to_string().as_bytes()), [Ok(Ansi::Noop)], "code {code}");
    }
    for code in [56u8, 57, 66, 72, 75, 89, 98, 99, 108, 200] {
        assert_eq!(
            events(code.to_string().as_bytes()),
            [Err(format!("Invalid ANSI: Unexpected code {code}"))]
        );
    }
}

#[test]
fn four_bit_parsers() {
    assert_eq!(
        Color::parse_4bit(3).unwrap(),
        Color::FourBit(FourBitColor::Yellow)
    );
    assert_eq!(
        Color::parse_4bit_bright(3).unwrap(),
        Color::FourBit(FourBitColor::BrightYellow)
    );
    assert_eq!(
        Color::parse_4bit(8).unwrap_err().message(),
        "Invalid ANSI: unexpected integer 8 parsing 4-bit color"
    );
    assert_eq!(
        Color::parse_4bit_bright(120).unwrap_err().message(),
        "Invalid ANSI: unexpected integer 120 parsing bright 4-bit color"
    );
}

#[test]
fn renderer_unwinds_and_reopens() {
    let mut converter = AnsiConverter::new(FourBitColorType::Hardcoded, Theme::Dark);
    converter.set_style(Style::Bold);
    converter.set_style(Style::Italic);
    converter.set_style(Style::CrossedOut);
    converter.push_str(b"x");
    converter.clear_style(StyleFilter::Only(Style::Italic));
    converter.push_str(b"y");
    converter.clear_style(StyleFilter::Underline);
    converter.consume_ansi_code(Ansi::Reset);
    converter.consume_ansi_code(Ansi::Reset);
    assert_eq!(
        text(converter.result()),
        "<b><i><s>x</s></i><s>y</s></b>"
    );
}

#[test]
fn bytes_in_bytes_out() {
    let html = ansi_to_html(
        b"\x1b[1ma<\x1b[0m",
        FourBitColorType::Hardcoded,
        Theme::Dark,
        true,
    )
    .unwrap();
    assert_eq!(text(html), "<b>a<</b>");
    match ansi_to_html(b"\x1b[99m", FourBitColorType::Hardcoded, Theme::Dark, false) {
        Err(Error::InvalidAnsi { msg }) => assert_eq!(msg, "Unexpected code 99"),
        other => panic!("unexpected {other:?}"),
    }
}
