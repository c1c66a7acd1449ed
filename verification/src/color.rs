//! ANSI colours: the sixteen named ones, the 256 of the palette, and
//! 24-bit colours, with the CSS text that stands for each.

use vstd::prelude::*;
use crate::html::{property_name, Style};
use crate::text::{bytes_of, push_text};

verus! {

/// One of the sixteen named colours: eight hues, each plain or bright.
#[derive(Debug, Copy, Clone, Eq, PartialEq, Structural)]
pub enum FourBitColor {
    Black,
    Red,
    Green,
    Yellow,
    Blue,
    Magenta,
    Cyan,
    White,
    BrightBlack,
    BrightRed,
    BrightGreen,
    BrightYellow,
    BrightBlue,
    BrightMagenta,
    BrightCyan,
    BrightWhite,
}

/// A colour of the 256-colour palette.
#[derive(Debug, Copy, Clone, Eq, PartialEq, Structural)]
pub struct EightBitColor {
    pub code: u8,
}

/// A 24-bit colour.
#[derive(Debug, Copy, Clone, Eq, PartialEq, Structural)]
pub struct RgbColor {
    pub r: u8,
    pub g: u8,
    pub b: u8,
}

/// An ANSI colour.
#[derive(Debug, Copy, Clone, Eq, PartialEq, Structural)]
pub enum Color {
    FourBit(FourBitColor),
    EightBit(EightBitColor),
    Rgb(RgbColor),
}

/// How a named colour is written in the output.
#[derive(Debug, Clone)]
pub enum FourBitColorType {
    /// As its hexadecimal value.
    Hardcoded,
    /// As a CSS variable named after the colour, with the hexadecimal value
    /// as fallback.
    Var { prefix: Option<String> },
    /// As a CSS class named after the colour.
    Class { prefix: Option<String> },
}

/// What a colour mode holds, as plain values.
pub enum ColorMode {
    Hardcoded,
    Var { prefix: Seq<char> },
    Class { prefix: Seq<char> },
}

/// The text of an optional prefix: nothing where there is none.
pub open spec fn prefix_text(prefix: Option<String>) -> Seq<char> {
    match prefix {
        Some(p) => p@,
        None => Seq::empty(),
    }
}

impl View for FourBitColorType {
    type V = ColorMode;

    open spec fn view(&self) -> ColorMode {
        match *self {
            FourBitColorType::Hardcoded => ColorMode::Hardcoded,
            FourBitColorType::Var { prefix } => ColorMode::Var { prefix: prefix_text(prefix) },
            FourBitColorType::Class { prefix } => ColorMode::Class { prefix: prefix_text(prefix) },
        }
    }
}

fn copy_of(prefix: &Option<String>) -> (copy: Option<String>)
    ensures
        prefix_text(copy) == prefix_text(*prefix),
{
    match prefix {
        Some(p) => Some(p.clone()),
        None => None,
    }
}

impl FourBitColorType {
    /// A copy of the colour mode.
    pub fn copy(&self) -> (mode: FourBitColorType)
        ensures
            mode@ == self@,
    {
        match self {
            FourBitColorType::Hardcoded => FourBitColorType::Hardcoded,
            FourBitColorType::Var { prefix } => FourBitColorType::Var { prefix: copy_of(prefix) },
            FourBitColorType::Class { prefix } => FourBitColorType::Class {
                prefix: copy_of(prefix),
            },
        }
    }
}

impl FourBitColor {
    /// The colour's place among the sixteen, which is also its place in the
    /// 256-colour palette.
    pub open spec fn index(self) -> u8 {
        match self {
            FourBitColor::Black => 0,
            FourBitColor::Red => 1,
            FourBitColor::Green => 2,
            FourBitColor::Yellow => 3,
            FourBitColor::Blue => 4,
            FourBitColor::Magenta => 5,
            FourBitColor::Cyan => 6,
            FourBitColor::White => 7,
            FourBitColor::BrightBlack => 8,
            FourBitColor::BrightRed => 9,
            FourBitColor::BrightGreen => 10,
            FourBitColor::BrightYellow => 11,
            FourBitColor::BrightBlue => 12,
            FourBitColor::BrightMagenta => 13,
            FourBitColor::BrightCyan => 14,
            FourBitColor::BrightWhite => 15,
        }
    }

    /// The colour at a place among the sixteen.
    pub open spec fn at(index: u8) -> FourBitColor {
        match index {
            0 => FourBitColor::Black,
            1 => FourBitColor::Red,
            2 => FourBitColor::Green,
            3 => FourBitColor::Yellow,
            4 => FourBitColor::Blue,
            5 => FourBitColor::Magenta,
            6 => FourBitColor::Cyan,
            7 => FourBitColor::White,
            8 => FourBitColor::BrightBlack,
            9 => FourBitColor::BrightRed,
            10 => FourBitColor::BrightGreen,
            11 => FourBitColor::BrightYellow,
            12 => FourBitColor::BrightBlue,
            13 => FourBitColor::BrightMagenta,
            14 => FourBitColor::BrightCyan,
            _ => FourBitColor::BrightWhite,
        }
    }

    pub open spec fn spec_is_bright(self) -> bool {
        self.index() >= 8
    }

    /// The name of the colour's hue.
    pub open spec fn hue_name(self) -> Seq<char> {
        let hue = self.index() % 8;
        if hue == 0 {
            "black"@
        } else if hue == 1 {
            "red"@
        } else if hue == 2 {
            "green"@
        } else if hue == 3 {
            "yellow"@
        } else if hue == 4 {
            "blue"@
        } else if hue == 5 {
            "magenta"@
        } else if hue == 6 {
            "cyan"@
        } else {
            "white"@
        }
    }

    /// The colour's name as a CSS class for text: the hue, after `bright-`
    /// for a bright colour.
    pub open spec fn fg_class(self) -> Seq<u8> {
        if self.spec_is_bright() {
            bytes_of("bright-"@) + bytes_of(self.hue_name())
        } else {
            bytes_of(self.hue_name())
        }
    }

    /// The colour's name as a CSS class for a background.
    pub open spec fn bg_class(self) -> Seq<u8> {
        bytes_of("bg-"@) + self.fg_class()
    }

    /// The colour's place among the sixteen.
    pub fn code(self) -> (code: u8)
        ensures
            code == self.index(),
            code < 16,
    {
        match self {
            FourBitColor::Black => 0,
            FourBitColor::Red => 1,
            FourBitColor::Green => 2,
            FourBitColor::Yellow => 3,
            FourBitColor::Blue => 4,
            FourBitColor::Magenta => 5,
            FourBitColor::Cyan => 6,
            FourBitColor::White => 7,
            FourBitColor::BrightBlack => 8,
            FourBitColor::BrightRed => 9,
            FourBitColor::BrightGreen => 10,
            FourBitColor::BrightYellow => 11,
            FourBitColor::BrightBlue => 12,
            FourBitColor::BrightMagenta => 13,
            FourBitColor::BrightCyan => 14,
            FourBitColor::BrightWhite => 15,
        }
    }

    /// The colour at place `code` among the sixteen, if there is one.
    pub fn from_code(code: u8) -> (color: Option<FourBitColor>)
        ensures
            code < 16 ==> color == Some(FourBitColor::at(code)),
            code >= 16 ==> color is None,
            color matches Some(c) ==> c.index() == code,
    {
        match code {
            0 => Some(FourBitColor::Black),
            1 => Some(FourBitColor::Red),
            2 => Some(FourBitColor::Green),
            3 => Some(FourBitColor::Yellow),
            4 => Some(FourBitColor::Blue),
            5 => Some(FourBitColor::Magenta),
            6 => Some(FourBitColor::Cyan),
            7 => Some(FourBitColor::White),
            8 => Some(FourBitColor::BrightBlack),
            9 => Some(FourBitColor::BrightRed),
            10 => Some(FourBitColor::BrightGreen),
            11 => Some(FourBitColor::BrightYellow),
            12 => Some(FourBitColor::BrightBlue),
            13 => Some(FourBitColor::BrightMagenta),
            14 => Some(FourBitColor::BrightCyan),
            15 => Some(FourBitColor::BrightWhite),
            _ => None,
        }
    }

    #[verifier::when_used_as_spec(spec_is_bright)]
    pub fn is_bright(self) -> (bright: bool)
        ensures
            bright == self.spec_is_bright(),
    {
        self.code() >= 8
    }

    fn hue(self) -> (name: &'static str)
        ensures
            name@ == self.hue_name(),
    {
        let hue: u8 = self.code() % 8;
        if hue == 0 {
            "black"
        } else if hue == 1 {
            "red"
        } else if hue == 2 {
            "green"
        } else if hue == 3 {
            "yellow"
        } else if hue == 4 {
            "blue"
        } else if hue == 5 {
            "magenta"
        } else if hue == 6 {
            "cyan"
        } else {
            "white"
        }
    }

    /// Appends the colour's class name for text.
    pub fn write_fg_class(self, s: &mut Vec<u8>)
        ensures
            final(s)@ == old(s)@ + self.fg_class(),
    {
        if self.is_bright() {
            push_text(s, "bright-");
        }
        push_text(s, self.hue());
    }

    /// Appends the colour's class name for a background.
    pub fn write_bg_class(self, s: &mut Vec<u8>)
        ensures
            final(s)@ == old(s)@ + self.bg_class(),
    {
        push_text(s, "bg-");
        self.write_fg_class(s);
    }
}

/// The red, green and blue of one of the sixteen named colours.
pub open spec fn named_rgb(index: u8) -> (u8, u8, u8) {
    match index {
        0 => (0x00, 0x00, 0x00),
        1 => (0xaa, 0x00, 0x00),
        2 => (0x00, 0xaa, 0x00),
        3 => (0xaa, 0x66, 0x00),
        4 => (0x00, 0x00, 0xaa),
        5 => (0xaa, 0x00, 0xaa),
        6 => (0x00, 0xaa, 0xaa),
        7 => (0xaa, 0xaa, 0xaa),
        8 => (0x55, 0x55, 0x55),
        9 => (0xff, 0x55, 0x55),
        10 => (0x55, 0xff, 0x55),
        11 => (0xff, 0xff, 0x55),
        12 => (0x55, 0x55, 0xff),
        13 => (0xff, 0x55, 0xff),
        14 => (0x55, 0xff, 0xff),
        _ => (0xff, 0xff, 0xff),
    }
}

/// One of the six levels of a channel in the colour cube of the palette.
pub open spec fn cube_level(step: int) -> u8 {
    if step == 0 {
        0
    } else {
        (55 + 40 * step) as u8
    }
}

/// The red, green and blue of a colour of the 256-colour palette: the
/// sixteen named colours, then a cube of six levels per channel, then
/// twenty-four greys.
pub open spec fn palette_rgb(code: u8) -> (u8, u8, u8) {
    if code < 16 {
        named_rgb(code)
    } else if code < 232 {
        let c = code - 16;
        (cube_level(c / 36), cube_level((c / 6) % 6), cube_level(c % 6))
    } else {
        let grey = (8 + 10 * (code - 232)) as u8;
        (grey, grey, grey)
    }
}

/// The character of a hexadecimal digit, in lower case.
pub open spec fn hex_digit(nibble: u8) -> u8 {
    if nibble < 10 {
        (0x30 + nibble) as u8
    } else {
        (0x61 + (nibble - 10)) as u8
    }
}

/// A channel in two hexadecimal digits.
pub open spec fn hex_pair(channel: u8) -> Seq<u8> {
    seq![hex_digit(channel / 16), hex_digit(channel % 16)]
}

/// A colour as `#rrggbb`.
pub open spec fn hex_long(r: u8, g: u8, b: u8) -> Seq<u8> {
    seq![0x23u8] + hex_pair(r) + hex_pair(g) + hex_pair(b)
}

/// Whether the two digits of a channel are the same.
pub open spec fn twin_digits(channel: u8) -> bool {
    channel / 16 == channel % 16
}

/// A colour as `#rgb` where each channel has the same digit twice, and as
/// `#rrggbb` where not.
pub open spec fn hex_short(r: u8, g: u8, b: u8) -> Seq<u8> {
    if twin_digits(r) && twin_digits(g) && twin_digits(b) {
        seq![0x23u8, hex_digit(r % 16), hex_digit(g % 16), hex_digit(b % 16)]
    } else {
        hex_long(r, g, b)
    }
}

fn named_channels(index: u8) -> (rgb: (u8, u8, u8))
    ensures
        rgb == named_rgb(index),
{
    match index {
        0 => (0x00, 0x00, 0x00),
        1 => (0xaa, 0x00, 0x00),
        2 => (0x00, 0xaa, 0x00),
        3 => (0xaa, 0x66, 0x00),
        4 => (0x00, 0x00, 0xaa),
        5 => (0xaa, 0x00, 0xaa),
        6 => (0x00, 0xaa, 0xaa),
        7 => (0xaa, 0xaa, 0xaa),
        8 => (0x55, 0x55, 0x55),
        9 => (0xff, 0x55, 0x55),
        10 => (0x55, 0xff, 0x55),
        11 => (0xff, 0xff, 0x55),
        12 => (0x55, 0x55, 0xff),
        13 => (0xff, 0x55, 0xff),
        14 => (0x55, 0xff, 0xff),
        _ => (0xff, 0xff, 0xff),
    }
}

fn level(step: u8) -> (l: u8)
    requires
        step < 6,
    ensures
        l == cube_level(step as int),
{
    if step == 0 {
        0
    } else {
        55 + 40 * step
    }
}

fn hex(nibble: u8) -> (digit: u8)
    requires
        nibble < 16,
    ensures
        digit == hex_digit(nibble),
{
    if nibble < 10 {
        0x30 + nibble
    } else {
        0x61 + (nibble - 10)
    }
}

fn push_hex_pair(buf: &mut Vec<u8>, channel: u8)
    ensures
        final(buf)@ == old(buf)@ + hex_pair(channel),
{
    buf.push(hex(channel / 16));
    buf.push(hex(channel % 16));
    assert(buf@ =~= old(buf)@ + hex_pair(channel));
}

fn push_hex_long(buf: &mut Vec<u8>, r: u8, g: u8, b: u8)
    ensures
        final(buf)@ == old(buf)@ + hex_long(r, g, b),
{
    buf.push(0x23);
    push_hex_pair(buf, r);
    push_hex_pair(buf, g);
    push_hex_pair(buf, b);
    assert(buf@ =~= old(buf)@ + hex_long(r, g, b));
}

fn push_hex_short(buf: &mut Vec<u8>, r: u8, g: u8, b: u8)
    ensures
        final(buf)@ == old(buf)@ + hex_short(r, g, b),
{
    if r / 16 == r % 16 && g / 16 == g % 16 && b / 16 == b % 16 {
        buf.push(0x23);
        buf.push(hex(r % 16));
        buf.push(hex(g % 16));
        buf.push(hex(b % 16));
        assert(buf@ =~= old(buf)@ + hex_short(r, g, b));
    } else {
        push_hex_long(buf, r, g, b);
    }
}

impl EightBitColor {
    pub fn new(code: u8) -> (color: EightBitColor)
        ensures
            color.code == code,
    {
        EightBitColor { code }
    }

    /// The colour's hexadecimal text.
    pub open spec fn hex(self) -> Seq<u8> {
        let (r, g, b) = palette_rgb(self.code);
        hex_short(r, g, b)
    }

    /// The colour's red, green and blue.
    pub fn channels(self) -> (rgb: (u8, u8, u8))
        ensures
            rgb == palette_rgb(self.code),
    {
        let code = self.code;
        if code < 16 {
            named_channels(code)
        } else if code < 232 {
            let c: u8 = code - 16;
            (level(c / 36), level((c / 6) % 6), level(c % 6))
        } else {
            let grey: u8 = 8 + 10 * (code - 232);
            (grey, grey, grey)
        }
    }

    /// Appends the colour's hexadecimal text.
    pub fn write_hex(self, buf: &mut Vec<u8>)
        ensures
            final(buf)@ == old(buf)@ + self.hex(),
    {
        let (r, g, b) = self.channels();
        push_hex_short(buf, r, g, b);
    }
}

impl Color {
    /// The named colour that this colour stands for: itself, or the named
    /// colour that shares its place in the palette.
    pub open spec fn named(self) -> Option<FourBitColor> {
        match self {
            Color::FourBit(c) => Some(c),
            Color::EightBit(c) => if c.code < 16 {
                Some(FourBitColor::at(c.code))
            } else {
                None
            },
            Color::Rgb(_) => None,
        }
    }

    /// The colour's hexadecimal text.
    pub open spec fn hex(self) -> Seq<u8> {
        match self {
            Color::FourBit(c) => (EightBitColor { code: c.index() }).hex(),
            Color::EightBit(c) => c.hex(),
            Color::Rgb(c) => hex_long(c.r, c.g, c.b),
        }
    }

    /// The colour as a CSS value. With CSS variables, a colour that stands
    /// for a named one is a reference to the variable of that name, with the
    /// hexadecimal text as fallback; everything else is the hexadecimal text.
    pub open spec fn css(self, mode: ColorMode) -> Seq<u8> {
        match (mode, self.named()) {
            (ColorMode::Var { prefix }, Some(c)) => bytes_of("var(--"@) + bytes_of(prefix)
                + c.fg_class() + bytes_of(","@) + self.hex() + bytes_of(")"@),
            _ => self.hex(),
        }
    }

    /// The tag that opens a span in this colour, for text where `is_fg`
    /// holds and for the background where not. With CSS classes a named
    /// colour gives its class; everything else gives a style.
    pub open spec fn opening_span(self, mode: ColorMode, is_fg: bool) -> Seq<u8> {
        match (self, mode) {
            (Color::FourBit(c), ColorMode::Class { prefix }) => bytes_of("<span class='"@)
                + bytes_of(prefix) + (if is_fg {
                c.fg_class()
            } else {
                c.bg_class()
            }) + bytes_of("'>"@),
            _ => bytes_of("<span style='"@) + bytes_of(property_name(is_fg)) + bytes_of(":"@)
                + self.css(mode) + bytes_of("'>"@),
        }
    }

    fn as_named(self) -> (named: Option<FourBitColor>)
        ensures
            named == self.named(),
    {
        match self {
            Color::FourBit(c) => Some(c),
            Color::EightBit(c) => FourBitColor::from_code(c.code),
            Color::Rgb(_) => None,
        }
    }

    /// Appends the colour's hexadecimal text.
    pub fn write_hex(self, buf: &mut Vec<u8>)
        ensures
            final(buf)@ == old(buf)@ + self.hex(),
    {
        match self {
            Color::FourBit(c) => EightBitColor::new(c.code()).write_hex(buf),
            Color::EightBit(c) => c.write_hex(buf),
            Color::Rgb(c) => push_hex_long(buf, c.r, c.g, c.b),
        }
    }

    /// Appends the colour as a CSS value.
    pub fn write_css(self, buf: &mut Vec<u8>, color_type: &FourBitColorType)
        ensures
            final(buf)@ == old(buf)@ + self.css(color_type@),
    {
        match (color_type, self.as_named()) {
            (FourBitColorType::Var { prefix }, Some(c)) => {
                push_text(buf, "var(--");
                push_prefix(buf, prefix);
                c.write_fg_class(buf);
                push_text(buf, ",");
                self.write_hex(buf);
                push_text(buf, ")");
                assert(buf@ =~= old(buf)@ + self.css(color_type@));
            },
            _ => self.write_hex(buf),
        }
    }

    /// Appends the tag that opens a span in this colour for text.
    pub fn into_opening_fg_span(self, buf: &mut Vec<u8>, color_type: &FourBitColorType)
        ensures
            final(buf)@ == old(buf)@ + self.opening_span(color_type@, true),
    {
        self.into_opening_span(buf, color_type, true)
    }

    /// Appends the tag that opens a span with this colour as background.
    pub fn into_opening_bg_span(self, buf: &mut Vec<u8>, color_type: &FourBitColorType)
        ensures
            final(buf)@ == old(buf)@ + self.opening_span(color_type@, false),
    {
        self.into_opening_span(buf, color_type, false)
    }

    /// Appends the tag that opens a span in this colour.
    pub fn into_opening_span(self, buf: &mut Vec<u8>, color_type: &FourBitColorType, is_fg: bool)
        ensures
            final(buf)@ == old(buf)@ + self.opening_span(color_type@, is_fg),
    {
        match (self, color_type) {
            (Color::FourBit(four_bit), FourBitColorType::Class { prefix }) => {
                push_text(buf, "<span class='");
                push_prefix(buf, prefix);
                if is_fg {
                    four_bit.write_fg_class(buf);
                } else {
                    four_bit.write_bg_class(buf);
                }
                push_text(buf, "'>");
                assert(buf@ =~= old(buf)@ + self.opening_span(color_type@, is_fg));
            },
            _ => {
                push_text(buf, "<span style='");
                push_text(buf, Style::get_property(is_fg));
                push_text(buf, ":");
                self.write_css(buf, color_type);
                push_text(buf, "'>");
                assert(buf@ =~= old(buf)@ + self.opening_span(color_type@, is_fg));
            },
        }
    }
}

/// Appends an optional prefix: nothing where there is none.
pub fn push_prefix(buf: &mut Vec<u8>, prefix: &Option<String>)
    ensures
        final(buf)@ == old(buf)@ + bytes_of(prefix_text(*prefix)),
{
    match prefix {
        Some(p) => push_text(buf, p.as_str()),
        None => {
            assert(bytes_of(Seq::<char>::empty()) =~= Seq::<u8>::empty()) by {
                reveal_with_fuel(vstd::utf8::encode_utf8, 1);
            }
            assert(buf@ =~= old(buf)@ + Seq::<u8>::empty());
        },
    }
}

} // verus!
