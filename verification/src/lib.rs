//! Conversion of text with ANSI escape codes to HTML.
//!
//! The engine works on bytes. A scanner ([`parse`]) splits the input into
//! escape sequences and runs of text, an interpreter ([`ansi`]) turns the
//! numbers of the colour and style sequences into changes of style, and a
//! renderer ([`html`]) keeps a stack of open HTML elements while it writes
//! the output, directly or behind a minifier ([`minifier`]) that holds back
//! changes of style without effect. [`sink`] puts the four together, and
//! [`Converter`] wraps them for text.
//!
//! What is proved of the engine beyond the contracts of its functions:
//! the scanner loses nothing ([`parse::lemma_fragments_cover`]), the output
//! is balanced and properly nested ([`meaning::lemma_output_is_balanced`]),
//! the stack never holds two colours of a kind
//! ([`equivalence::lemma_stack_is_tidy`]), the minifier never changes how
//! text looks ([`appearance::lemma_optimize_keeps_appearance`]) and, where
//! no text is inverted, leaves every run of text inside the same elements
//! ([`equivalence::lemma_optimize_keeps_meaning`]), and valid UTF-8
//! converts to valid UTF-8 ([`encoding::lemma_html_is_utf8`]).
//!
//! Around the engine stand the pieces of a command line tool that shows
//! shell commands with their output: the colouring of a command
//! ([`lexer`]), the page ([`page`]), the options ([`opts`]), what passes to
//! and from a shell ([`tty`]), and a reader of the HTML written
//! ([`interpret`]).

pub mod ansi;
pub mod appearance;
pub mod color;
pub mod encoding;
pub mod equivalence;
pub mod error;
pub mod esc;
pub mod html;
pub mod interpret;
pub mod lexer;
pub mod meaning;
pub mod minifier;
pub mod opts;
pub mod page;
pub mod parse;
pub mod sink;
pub mod text;
pub mod tty;

pub use crate::error::Error;
pub use crate::esc::Esc;
pub use crate::html::Theme;
pub use crate::sink::ansi_to_html;

use vstd::prelude::*;
use vstd::utf8::*;
use crate::ansi::Outcome;
use crate::color::{prefix_text, ColorMode, FourBitColorType};
use crate::encoding::lemma_html_is_utf8;
use crate::esc::{escape, escaped, lemma_escaped_is_utf8};
use crate::sink::html_of;
use crate::text::{bytes_of, lemma_text_is_utf8, replace_all, replaced, string_from_utf8};

verus! {

/// Matches an element that was opened and closed at once.
pub const OPT_REGEX_1: &'static str =
    "<span \\w+='[^']*'></span>|<b></b>|<i></i>|<u></u>|<s></s>";

/// Matches the end of an element right before the start of one like it.
pub const OPT_REGEX_2: &'static str = "</b><b>|</i><i>|</s><s>";

/// How text is converted: what is escaped, what is minimized, and how
/// colours are written.
#[derive(Clone, Debug)]
pub struct Converter {
    skip_escape: bool,
    skip_optimize: bool,
    four_bit_color_mode: FourBitColorType,
    theme: Theme,
}

/// What a converter holds, as plain values.
pub struct ConverterView {
    pub skip_escape: bool,
    pub skip_optimize: bool,
    pub four_bit_color_mode: ColorMode,
    pub theme: Theme,
}

impl View for Converter {
    type V = ConverterView;

    closed spec fn view(&self) -> ConverterView {
        ConverterView {
            skip_escape: self.skip_escape,
            skip_optimize: self.skip_optimize,
            four_bit_color_mode: self.four_bit_color_mode@,
            theme: self.theme,
        }
    }
}

impl ConverterView {
    /// Escapes, minimizes, writes colours as CSS variables without a prefix,
    /// and takes the terminal to be dark.
    pub open spec fn initial() -> ConverterView {
        ConverterView {
            skip_escape: false,
            skip_optimize: false,
            four_bit_color_mode: ColorMode::Var { prefix: Seq::empty() },
            theme: Theme::Dark,
        }
    }

    /// The HTML of `input` before tags without effect are removed, or the
    /// first error among the escape sequences of `input`.
    pub open spec fn rendered(self, input: Seq<u8>) -> Outcome<Seq<u8>> {
        html_of(
            if self.skip_escape {
                input
            } else {
                escaped(input)
            },
            self.four_bit_color_mode,
            self.theme,
            self.skip_optimize,
        )
    }

    /// The HTML of `input`, or the first error among the escape sequences
    /// of `input`.
    pub open spec fn converted(self, input: Seq<char>) -> Outcome<Seq<char>> {
        match self.rendered(bytes_of(input)) {
            Err(e) => Err(e),
            Ok(html) => if self.skip_optimize {
                Ok(decode_utf8(html))
            } else {
                Ok(optimized(decode_utf8(html)))
            },
        }
    }
}

/// `text` with every match of `pattern` removed, and `text` itself where
/// the pattern is not one.
pub open spec fn without_matches(pattern: Seq<char>, text: Seq<char>) -> Seq<char> {
    match replaced(pattern, text, ""@) {
        Some(shorter) => shorter,
        None => text,
    }
}

/// HTML without the elements that were opened and closed at once, and then
/// without the ends of elements right before the start of one like them.
pub open spec fn optimized(html: Seq<char>) -> Seq<char> {
    without_matches(OPT_REGEX_2@, without_matches(OPT_REGEX_1@, html))
}

/// The text that a replacement gave, or `whole` where it gave none.
pub fn replaced_or(replacement: Option<String>, whole: &str) -> (text: String)
    ensures
        text@ == match replacement {
            Some(shorter) => shorter@,
            None => whole@,
        },
{
    match replacement {
        Some(shorter) => shorter,
        None => whole.to_owned(),
    }
}

/// Removes tags without effect: first the elements that were opened and
/// closed at once, then the ends of elements right before the start of one
/// like them.
pub fn optimize(html: &str) -> (shorter: String)
    ensures
        shorter@ == optimized(html@),
{
    let first = replaced_or(replace_all(OPT_REGEX_1, html, ""), html);
    replaced_or(replace_all(OPT_REGEX_2, first.as_str(), ""), first.as_str())
}

/// What a conversion gives, as plain values.
pub open spec fn text_outcome(result: Result<String, Error>) -> Outcome<Seq<char>> {
    match result {
        Ok(html) => Ok(html@),
        Err(e) => Err(e@),
    }
}


impl Default for Converter {
    fn default() -> (converter: Converter)
        ensures
            converter@ == ConverterView::initial(),
    {
        Converter {
            skip_escape: false,
            skip_optimize: false,
            four_bit_color_mode: FourBitColorType::Var { prefix: None },
            theme: Theme::Dark,
        }
    }
}

impl Converter {
    /// A converter that escapes, minimizes, writes colours as CSS variables
    /// without a prefix, and takes the terminal to be dark.
    pub fn new() -> (converter: Self)
        ensures
            converter@ == ConverterView::initial(),
    {
        Converter {
            skip_escape: false,
            skip_optimize: false,
            four_bit_color_mode: FourBitColorType::Var { prefix: None },
            theme: Theme::Dark,
        }
    }

    /// Whether the characters that are special in HTML stay as they are.
    pub fn skip_escape(self, skip: bool) -> (converter: Self)
        ensures
            converter@ == (ConverterView { skip_escape: skip, ..self@ }),
    {
        let mut converter = self;
        converter.skip_escape = skip;
        converter
    }

    /// Whether tags without effect stay in the output.
    pub fn skip_optimize(self, skip: bool) -> (converter: Self)
        ensures
            converter@ == (ConverterView { skip_optimize: skip, ..self@ }),
    {
        let mut converter = self;
        converter.skip_optimize = skip;
        converter
    }

    /// Writes the sixteen named colours as CSS variables, whose names start
    /// with `prefix`.
    pub fn four_bit_var_prefix(self, prefix: Option<String>) -> (converter: Self)
        ensures
            converter@ == (ConverterView {
                four_bit_color_mode: ColorMode::Var { prefix: prefix_text(prefix) },
                ..self@
            }),
    {
        let mut converter = self;
        converter.four_bit_color_mode = FourBitColorType::Var { prefix };
        converter
    }

    /// How the sixteen named colours are written: as their hexadecimal
    /// values, as CSS variables, or as CSS classes.
    pub fn four_bit_color_mode(self, mode: FourBitColorType) -> (converter: Self)
        ensures
            converter@ == (ConverterView { four_bit_color_mode: mode@, ..self@ }),
    {
        let mut converter = self;
        converter.four_bit_color_mode = mode;
        converter
    }

    /// The colour theme of the terminal, which decides how inverted text
    /// looks.
    pub fn theme(self, theme: Theme) -> (converter: Self)
        ensures
            converter@ == (ConverterView { theme, ..self@ }),
    {
        let mut converter = self;
        converter.theme = theme;
        converter
    }

    /// Converts text with ANSI escape codes to HTML.
    pub fn convert(&self, input: &str) -> (result: Result<String, Error>)
        ensures
            text_outcome(result) == self@.converted(input@),
    {
        let color_type = self.four_bit_color_mode.copy();
        let rendered = if self.skip_escape {
            ansi_to_html(input.as_bytes(), color_type, self.theme, self.skip_optimize)
        } else {
            let escaped = escape(input.as_bytes());
            ansi_to_html(escaped.as_slice(), color_type, self.theme, self.skip_optimize)
        };
        let bytes = match rendered {
            Ok(bytes) => bytes,
            Err(e) => {
                return Err(e);
            },
        };
        proof {
            lemma_text_is_utf8(input@);
            lemma_escaped_is_utf8(bytes_of(input@));
            lemma_html_is_utf8(
                if self.skip_escape {
                    bytes_of(input@)
                } else {
                    escaped(bytes_of(input@))
                },
                self@.four_bit_color_mode,
                self.theme,
                self.skip_optimize,
            );
        }
        let html = match string_from_utf8(bytes) {
            Some(html) => html,
            None => vstd::pervasive::unreached(),
        };
        proof {
            encode_utf8_decode_utf8(html@);
        }
        if self.skip_optimize {
            Ok(html)
        } else {
            Ok(optimize(html.as_str()))
        }
    }
}

/// Converts text with ANSI escape codes to HTML: special characters are
/// escaped, and tags without effect are left out.
pub fn convert(ansi_string: &str) -> (result: Result<String, Error>)
    ensures
        text_outcome(result) == ConverterView::initial().converted(ansi_string@),
{
    Converter::new().convert(ansi_string)
}

/// Converts text with ANSI escape codes to HTML as `converter` says.
pub fn convert_with_opts(input: &str, converter: &Converter) -> (result: Result<String, Error>)
    ensures
        text_outcome(result) == converter@.converted(input@),
{
    converter.convert(input)
}

} // verus!
