//! The output is valid UTF-8 wherever the input is: tags are text, and the
//! scanner cuts the input only where characters start or end.

use vstd::prelude::*;
use vstd::utf8::*;
use crate::ansi::Ansi;
use crate::color::{hex_digit, hex_long, hex_short, palette_rgb, Color, ColorMode, FourBitColor};
use crate::html::{
    close_tag, closes, first_match, flatten, kept, open_tag, piece_bytes, reopen, Piece, Rendering,
    Style, StyleFilter, Theme, UnderlineStyle,
};
use crate::parse::{
    fragment_at, lemma_fragment_bounds, lemma_next_escape, scan_escape, status_of, step, ESCAPE,
    State, Status,
};
use crate::sink::{html_of, ops_from, ops_of, rendering_of, Op, Sunk};
use crate::text::{
    bytes_of, is_ascii_bytes, lemma_ascii_is_utf8, lemma_boundary_after_ascii,
    lemma_boundary_at_ascii, lemma_text_is_utf8, lemma_utf8_between,
};

verus! {

/// A colour in hexadecimal is valid UTF-8.
pub proof fn lemma_hex_is_utf8(c: Color)
    ensures
        valid_utf8(c.hex()),
{
    assert forall|n: u8| n < 16 implies #[trigger] hex_digit(n) < 0x80 by {}
    let (r, g, b) = match c {
        Color::FourBit(f) => palette_rgb(f.index()),
        Color::EightBit(e) => palette_rgb(e.code),
        Color::Rgb(rgb) => (rgb.r, rgb.g, rgb.b),
    };
    assert(is_ascii_bytes(hex_long(r, g, b))) by {
        assert(hex_digit(r / 16) < 0x80 && hex_digit(r % 16) < 0x80);
        assert(hex_digit(g / 16) < 0x80 && hex_digit(g % 16) < 0x80);
        assert(hex_digit(b / 16) < 0x80 && hex_digit(b % 16) < 0x80);
    }
    assert(is_ascii_bytes(hex_short(r, g, b))) by {
        assert(hex_digit(r % 16) < 0x80 && hex_digit(g % 16) < 0x80 && hex_digit(b % 16) < 0x80);
    }
    lemma_ascii_is_utf8(hex_long(r, g, b));
    lemma_ascii_is_utf8(hex_short(r, g, b));
}

/// The class names of a colour are valid UTF-8.
pub proof fn lemma_class_is_utf8(c: FourBitColor)
    ensures
        valid_utf8(c.fg_class()),
        valid_utf8(c.bg_class()),
{
    lemma_text_is_utf8("bright-"@);
    lemma_text_is_utf8("bg-"@);
    lemma_text_is_utf8(c.hue_name());
    valid_utf8_concat(bytes_of("bright-"@), bytes_of(c.hue_name()));
    valid_utf8_concat(bytes_of("bg-"@), c.fg_class());
}

/// A colour as a CSS value is valid UTF-8.
pub proof fn lemma_css_is_utf8(c: Color, mode: ColorMode)
    ensures
        valid_utf8(c.css(mode)),
{
    lemma_hex_is_utf8(c);
    match (mode, c.named()) {
        (ColorMode::Var { prefix }, Some(n)) => {
            lemma_class_is_utf8(n);
            lemma_text_is_utf8("var(--"@);
            lemma_text_is_utf8(prefix);
            lemma_text_is_utf8(","@);
            lemma_text_is_utf8(")"@);
            let a = bytes_of("var(--"@) + bytes_of(prefix);
            valid_utf8_concat(bytes_of("var(--"@), bytes_of(prefix));
            valid_utf8_concat(a, n.fg_class());
            valid_utf8_concat(a + n.fg_class(), bytes_of(","@));
            valid_utf8_concat(a + n.fg_class() + bytes_of(","@), c.hex());
            valid_utf8_concat(a + n.fg_class() + bytes_of(","@) + c.hex(), bytes_of(")"@));
        },
        _ => {},
    }
}

/// The tag that opens a span in a colour is valid UTF-8.
pub proof fn lemma_span_is_utf8(c: Color, mode: ColorMode, is_fg: bool)
    ensures
        valid_utf8(c.opening_span(mode, is_fg)),
{
    lemma_text_is_utf8("'>"@);
    match (c, mode) {
        (Color::FourBit(f), ColorMode::Class { prefix }) => {
            lemma_class_is_utf8(f);
            lemma_text_is_utf8("<span class='"@);
            lemma_text_is_utf8(prefix);
            let a = bytes_of("<span class='"@) + bytes_of(prefix);
            let name = if is_fg {
                f.fg_class()
            } else {
                f.bg_class()
            };
            valid_utf8_concat(bytes_of("<span class='"@), bytes_of(prefix));
            valid_utf8_concat(a, name);
            valid_utf8_concat(a + name, bytes_of("'>"@));
        },
        _ => {
            lemma_css_is_utf8(c, mode);
            lemma_text_is_utf8("<span style='"@);
            lemma_text_is_utf8("color"@);
            lemma_text_is_utf8("background"@);
            lemma_text_is_utf8(":"@);
            let property = bytes_of(crate::html::property_name(is_fg));
            let a = bytes_of("<span style='"@) + property;
            valid_utf8_concat(bytes_of("<span style='"@), property);
            valid_utf8_concat(a, bytes_of(":"@));
            valid_utf8_concat(a + bytes_of(":"@), c.css(mode));
            valid_utf8_concat(a + bytes_of(":"@) + c.css(mode), bytes_of("'>"@));
        },
    }
}

/// Every tag is valid UTF-8.
pub proof fn lemma_tags_are_utf8(style: Style, styles: Seq<Style>, mode: ColorMode, theme: Theme)
    ensures
        valid_utf8(open_tag(style, styles, mode, theme)),
        valid_utf8(close_tag(style)),
{
    lemma_text_is_utf8("</b>"@);
    lemma_text_is_utf8("</i>"@);
    lemma_text_is_utf8("</u>"@);
    lemma_text_is_utf8("</s>"@);
    lemma_text_is_utf8("</span>"@);
    match style {
        Style::Bold => lemma_text_is_utf8("<b>"@),
        Style::Faint => lemma_text_is_utf8("<span style='opacity:0.67'>"@),
        Style::Italic => lemma_text_is_utf8("<i>"@),
        Style::Underline(UnderlineStyle::Default) => lemma_text_is_utf8("<u>"@),
        Style::Underline(UnderlineStyle::Double) => lemma_text_is_utf8(
            "<u style='text-decoration-style:double'>"@,
        ),
        Style::CrossedOut => lemma_text_is_utf8("<s>"@),
        Style::ForegroundColor(c) => lemma_span_is_utf8(
            c,
            mode,
            !styles.contains(Style::Inverted),
        ),
        Style::BackgroundColor(c) => lemma_span_is_utf8(c, mode, styles.contains(Style::Inverted)),
        Style::Inverted => {
            let (fg, bg) = crate::html::inverted_colors(styles, theme);
            lemma_css_is_utf8(fg, mode);
            lemma_css_is_utf8(bg, mode);
            lemma_text_is_utf8("<span style='color:"@);
            lemma_text_is_utf8(";background:"@);
            lemma_text_is_utf8("'>"@);
            let a = bytes_of("<span style='color:"@) + fg.css(mode);
            valid_utf8_concat(bytes_of("<span style='color:"@), fg.css(mode));
            valid_utf8_concat(a, bytes_of(";background:"@));
            valid_utf8_concat(a + bytes_of(";background:"@), bg.css(mode));
            valid_utf8_concat(a + bytes_of(";background:"@) + bg.css(mode), bytes_of("'>"@));
        },
    }
}

/// Whether the bytes of a piece are valid UTF-8.
pub open spec fn piece_is_utf8(piece: Piece) -> bool {
    valid_utf8(piece_bytes(piece))
}

/// Whether each of `pieces` is valid UTF-8.
pub open spec fn pieces_are_utf8(pieces: Seq<Piece>) -> bool {
    forall|i: int| 0 <= i < pieces.len() ==> piece_is_utf8(#[trigger] pieces[i])
}

/// Pieces that are valid UTF-8 give valid UTF-8.
pub proof fn lemma_flatten_is_utf8(pieces: Seq<Piece>)
    requires
        pieces_are_utf8(pieces),
    ensures
        valid_utf8(flatten(pieces)),
    decreases pieces.len(),
{
    if pieces.len() > 0 {
        lemma_flatten_is_utf8(pieces.drop_last());
        assert(piece_is_utf8(pieces.last()));
        valid_utf8_concat(flatten(pieces.drop_last()), piece_bytes(pieces.last()));
    }
}

/// The pieces that close elements are valid UTF-8.
pub proof fn lemma_closes_are_utf8(popped: Seq<Style>)
    ensures
        pieces_are_utf8(closes(popped)),
    decreases popped.len(),
{
    if popped.len() > 0 {
        lemma_closes_are_utf8(popped.drop_first());
        lemma_tags_are_utf8(popped[0], Seq::empty(), ColorMode::Hardcoded, Theme::Dark);
    }
}

/// The pieces that open elements again are valid UTF-8.
pub proof fn lemma_reopen_is_utf8(
    base: Seq<Style>,
    styles: Seq<Style>,
    mode: ColorMode,
    theme: Theme,
)
    ensures
        pieces_are_utf8(reopen(base, styles, mode, theme)),
    decreases styles.len(),
{
    if styles.len() > 0 {
        lemma_reopen_is_utf8(base.push(styles[0]), styles.drop_first(), mode, theme);
        lemma_tags_are_utf8(styles[0], base, mode, theme);
    }
}

/// A change of style writes valid UTF-8 after valid UTF-8.
pub proof fn lemma_consume_is_utf8(r: Rendering, ansi: Ansi, mode: ColorMode, theme: Theme)
    requires
        pieces_are_utf8(r.pieces),
    ensures
        pieces_are_utf8(r.consume(ansi, mode, theme).pieces),
{
    assert forall|f: StyleFilter| pieces_are_utf8(#[trigger] r.clear(f, mode, theme).pieces) by {
        lemma_clear_is_utf8(r, f, mode, theme);
    }
    assert forall|q: Rendering, s: Style| pieces_are_utf8(q.pieces) implies pieces_are_utf8(
        #[trigger] q.set(s, mode, theme).pieces,
    ) by {
        lemma_tags_are_utf8(s, q.stack, mode, theme);
    }
}

/// Taking styles off the stack writes valid UTF-8 after valid UTF-8.
pub proof fn lemma_clear_is_utf8(r: Rendering, filter: StyleFilter, mode: ColorMode, theme: Theme)
    requires
        pieces_are_utf8(r.pieces),
    ensures
        pieces_are_utf8(r.clear(filter, mode, theme).pieces),
{
    let i = first_match(r.stack, filter);
    let popped = r.stack.subrange(i, r.stack.len() as int);
    lemma_closes_are_utf8(popped);
    lemma_reopen_is_utf8(r.stack.subrange(0, i), kept(popped, filter), mode, theme);
}

/// Changes of style write valid UTF-8 after valid UTF-8.
pub proof fn lemma_consume_all_is_utf8(
    r: Rendering,
    events: Seq<Ansi>,
    mode: ColorMode,
    theme: Theme,
)
    requires
        pieces_are_utf8(r.pieces),
    ensures
        pieces_are_utf8(r.consume_all(events, mode, theme).pieces),
    decreases events.len(),
{
    if events.len() > 0 {
        lemma_consume_is_utf8(r, events[0], mode, theme);
        lemma_consume_all_is_utf8(
            r.consume(events[0], mode, theme),
            events.drop_first(),
            mode,
            theme,
        );
    }
}

/// Whether every text among `ops` is valid UTF-8.
pub open spec fn ops_are_utf8(ops: Seq<Op>) -> bool {
    forall|i: int|
        0 <= i < ops.len() ==> ((#[trigger] ops[i]) matches Op::Text(bytes) ==> valid_utf8(bytes))
}

/// What a sink has written, whether the minifier stands in front or not.
pub open spec fn written(sunk: Sunk) -> Seq<Piece> {
    match sunk {
        Sunk::Direct(r) => r.pieces,
        Sunk::Buffering(m) => m.rendering.pieces,
    }
}

/// A sink that is given valid UTF-8 writes valid UTF-8.
pub proof fn lemma_feed_is_utf8(sunk: Sunk, op: Op, mode: ColorMode, theme: Theme)
    requires
        pieces_are_utf8(written(sunk)),
        op matches Op::Text(bytes) ==> valid_utf8(bytes),
    ensures
        pieces_are_utf8(written(sunk.feed(op, mode, theme))),
{
    match (sunk, op) {
        (Sunk::Direct(r), Op::Event(ansi)) => lemma_consume_is_utf8(r, ansi, mode, theme),
        (Sunk::Buffering(m), Op::Text(bytes)) => {
            lemma_consume_all_is_utf8(m.rendering, m.buffer, mode, theme);
        },
        _ => {},
    }
}

/// A sink that is given valid UTF-8 writes valid UTF-8.
pub proof fn lemma_feed_all_is_utf8(sunk: Sunk, ops: Seq<Op>, mode: ColorMode, theme: Theme)
    requires
        pieces_are_utf8(written(sunk)),
        ops_are_utf8(ops),
    ensures
        pieces_are_utf8(written(sunk.feed_all(ops, mode, theme))),
    decreases ops.len(),
{
    if ops.len() > 0 {
        lemma_feed_all_is_utf8(sunk, ops.drop_last(), mode, theme);
        lemma_feed_is_utf8(sunk.feed_all(ops.drop_last(), mode, theme), ops.last(), mode, theme);
    }
}

/// Where the input is valid UTF-8, so is everything written up to the end.
pub proof fn lemma_rendering_is_utf8(
    ops: Seq<Op>,
    skip_optimize: bool,
    mode: ColorMode,
    theme: Theme,
)
    requires
        ops_are_utf8(ops),
    ensures
        valid_utf8(rendering_of(ops, skip_optimize, mode, theme).html()),
{
    let fed = Sunk::start(skip_optimize).feed_all(ops, mode, theme);
    lemma_feed_all_is_utf8(Sunk::start(skip_optimize), ops, mode, theme);
    lemma_feed_is_utf8(fed, Op::Event(Ansi::Reset), mode, theme);
    match fed.feed(Op::Event(Ansi::Reset), mode, theme) {
        Sunk::Direct(r) => {
            lemma_clear_is_utf8(r, StyleFilter::All, mode, theme);
        },
        Sunk::Buffering(m) => {
            lemma_consume_all_is_utf8(m.rendering, m.buffer, mode, theme);
            lemma_clear_is_utf8(m.flush(mode, theme).rendering, StyleFilter::All, mode, theme);
        },
    }
    lemma_flatten_is_utf8(rendering_of(ops, skip_optimize, mode, theme).pieces);
}

/// The machine stops where a character starts or ends: inside an operating
/// system command it stops only after `BEL` or `\`, and elsewhere every byte
/// that it has read is below 128.
pub proof fn lemma_scan_stops_at_boundary(text: Seq<u8>, pos: int, state: State)
    requires
        valid_utf8(text),
        0 < pos <= text.len(),
        status_of(state) == Status::InSequence,
        state is InOsc || state is StartSt || text[pos - 1] < 0x80,
    ensures
        is_char_boundary(text, scan_escape(text, pos, state).0),
    decreases text.len() - pos,
{
    if pos >= text.len() {
        is_char_boundary_start_end_of_seq(text);
    } else {
        let next = step(state, text[pos]);
        match status_of(next) {
            Status::Accept => lemma_boundary_after_ascii(text, pos + 1),
            Status::RejectAsText => lemma_boundary_after_ascii(text, pos),
            Status::InSequence => lemma_scan_stops_at_boundary(text, pos + 1, next),
        }
    }
}

/// A fragment that starts where a character starts ends where one ends, and
/// is valid UTF-8.
pub proof fn lemma_fragment_is_utf8(text: Seq<u8>, start: int)
    requires
        valid_utf8(text),
        0 <= start < text.len(),
        is_char_boundary(text, start),
    ensures
        is_char_boundary(text, fragment_at(text, start).end),
        valid_utf8(text.subrange(start, fragment_at(text, start).end)),
{
    lemma_fragment_bounds(text, start);
    let end = fragment_at(text, start).end;
    if text[start] == ESCAPE {
        lemma_scan_stops_at_boundary(text, start + 1, State::Escape);
    } else {
        lemma_next_escape(text, start + 1);
        if end == text.len() {
            is_char_boundary_start_end_of_seq(text);
        } else {
            lemma_boundary_at_ascii(text, end);
        }
    }
    lemma_utf8_between(text, start, end);
}

/// Every text that valid UTF-8 gives the renderer is valid UTF-8.
pub proof fn lemma_ops_are_utf8(text: Seq<u8>, start: int)
    requires
        valid_utf8(text),
        0 <= start <= text.len(),
        is_char_boundary(text, start),
    ensures
        ops_from(text, start) matches Ok(ops) ==> ops_are_utf8(ops),
    decreases text.len() - start,
{
    if start < text.len() {
        lemma_fragment_bounds(text, start);
        lemma_fragment_is_utf8(text, start);
        lemma_ops_are_utf8(text, fragment_at(text, start).end);
    }
}

/// Valid UTF-8 converts to valid UTF-8.
pub proof fn lemma_html_is_utf8(input: Seq<u8>, mode: ColorMode, theme: Theme, skip_optimize: bool)
    requires
        valid_utf8(input),
    ensures
        html_of(input, mode, theme, skip_optimize) matches Ok(html) ==> valid_utf8(html),
{
    is_char_boundary_start_end_of_seq(input);
    lemma_ops_are_utf8(input, 0);
    if let Ok(ops) = ops_of(input) {
        lemma_rendering_is_utf8(ops, skip_optimize, mode, theme);
    }
}

} // verus!
