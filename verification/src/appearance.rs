//! How text looks to the eye: the colour of the text and of its
//! background, and whether it is bold, faint, italic, underlined or crossed
//! out. With or without the minifier, every text looks the same.

use vstd::prelude::*;
use crate::ansi::{Ansi, Outcome};
use crate::color::{Color, ColorMode};
use crate::equivalence::{
    lemma_after_all_push, lemma_consume_all_styling, lemma_consume_styling, styling_of, tidy,
};
use crate::html::{
    default_inverted_bg, default_inverted_fg, inverted_colors, nearest_background,
    nearest_foreground, open_tag, Piece, Rendering, Style, StyleFilter, Theme, UnderlineStyle,
};
use crate::meaning::{
    elements, in_step, lemma_clear_in_step, lemma_consume_all_in_step, lemma_consume_in_step,
    lemma_consume_writes_tags, lemma_text_in_step, normalized, only_tags, tagged, written_by,
    Element, Run,
};
use crate::minifier::{CurrentStyling, Minified};
use crate::sink::{ops_of, rendering_of, Op, Sunk};
use crate::text::bytes_of;

verus! {

/// How text looks to the eye.
pub struct Appearance {
    /// The colour of the text, where one is set.
    pub color: Option<Color>,
    /// The colour of the background, where one is set.
    pub background: Option<Color>,
    pub bold: bool,
    pub faint: bool,
    pub italic: bool,
    pub underlined: Option<UnderlineStyle>,
    pub crossed_out: bool,
}

/// The colour of the text and the colour of the background that the tag of
/// `style` sets, on top of `below`. Inside an inversion, a text colour sets
/// the background and a background sets the colour of the text; an inversion
/// sets both.
pub open spec fn declared(style: Style, below: Seq<Style>, theme: Theme) -> (
    Option<Color>,
    Option<Color>,
) {
    match style {
        Style::ForegroundColor(c) => if below.contains(Style::Inverted) {
            (None, Some(c))
        } else {
            (Some(c), None)
        },
        Style::BackgroundColor(c) => if below.contains(Style::Inverted) {
            (Some(c), None)
        } else {
            (None, Some(c))
        },
        Style::Inverted => (
            Some(inverted_colors(below, theme).0),
            Some(inverted_colors(below, theme).1),
        ),
        _ => (None, None),
    }
}

/// The tag of a colour or of an inversion says what `declared` says of it.
pub proof fn lemma_tag_declares(style: Style, below: Seq<Style>, mode: ColorMode, theme: Theme)
    ensures
        style matches Style::ForegroundColor(c) ==> open_tag(style, below, mode, theme)
            == c.opening_span(mode, declared(style, below, theme).0 is Some),
        style matches Style::BackgroundColor(c) ==> open_tag(style, below, mode, theme)
            == c.opening_span(mode, declared(style, below, theme).0 is Some),
        style is Inverted ==> open_tag(style, below, mode, theme) == bytes_of(
            "<span style='color:"@,
        ) + declared(style, below, theme).0->0.css(mode) + bytes_of(";background:"@) + declared(
            style,
            below,
            theme,
        ).1->0.css(mode) + bytes_of("'>"@),
{
}

impl Appearance {
    /// The look of text outside every element.
    pub open spec fn plain() -> Appearance {
        Appearance {
            color: None,
            background: None,
            bold: false,
            faint: false,
            italic: false,
            underlined: None,
            crossed_out: false,
        }
    }

    /// The look inside one more element, which is `style` on top of `below`:
    /// what the element sets, and for the rest the look around it.
    pub open spec fn inside(self, style: Style, below: Seq<Style>, theme: Theme) -> Appearance {
        let set = declared(style, below, theme);
        let colored = Appearance {
            color: if set.0 is Some {
                set.0
            } else {
                self.color
            },
            background: if set.1 is Some {
                set.1
            } else {
                self.background
            },
            ..self
        };
        match style {
            Style::Bold => Appearance { bold: true, ..colored },
            Style::Faint => Appearance { faint: true, ..colored },
            Style::Italic => Appearance { italic: true, ..colored },
            Style::Underline(kind) => Appearance { underlined: Some(kind), ..colored },
            Style::CrossedOut => Appearance { crossed_out: true, ..colored },
            _ => colored,
        }
    }

    /// The look inside the elements of `stack`, outermost first.
    pub open spec fn of(stack: Seq<Style>, theme: Theme) -> Appearance
        decreases stack.len(),
    {
        if stack.len() == 0 {
            Appearance::plain()
        } else {
            Appearance::of(stack.drop_last(), theme).inside(
                stack.last(),
                stack.drop_last(),
                theme,
            )
        }
    }

    /// The look that a styling asks for. Inverted text has the colour of the
    /// background, and as background the colour of the text; where one of
    /// them is not set, the theme decides.
    pub open spec fn wanted(styling: CurrentStyling, theme: Theme) -> Appearance {
        Appearance {
            color: if styling.inverted {
                Some(
                    match styling.bg {
                        Some(c) => c,
                        None => default_inverted_fg(theme),
                    },
                )
            } else {
                styling.fg
            },
            background: if styling.inverted {
                Some(
                    match styling.fg {
                        Some(c) => c,
                        None => default_inverted_bg(theme),
                    },
                )
            } else {
                styling.bg
            },
            bold: styling.bold,
            faint: styling.faint,
            italic: styling.italic,
            underlined: styling.underline,
            crossed_out: styling.crossed_out,
        }
    }
}

/// The styles of some open elements.
pub open spec fn styles_of(open: Seq<Element>) -> Seq<Style> {
    Seq::new(open.len(), |i: int| open[i].style)
}

/// The runs of text in `pieces`, in order, each with the look that the
/// elements open around it give it to the eye.
pub open spec fn sights_of(pieces: Seq<Piece>, theme: Theme) -> Seq<Run<Appearance>>
    decreases pieces.len(),
{
    if pieces.len() == 0 {
        Seq::empty()
    } else {
        match pieces.last() {
            Piece::Text { bytes } => sights_of(pieces.drop_last(), theme).push(
                Run {
                    look: Appearance::of(styles_of(elements(pieces.drop_last())), theme),
                    text: bytes,
                },
            ),
            _ => sights_of(pieces.drop_last(), theme),
        }
    }
}

/// Tags add no runs.
pub proof fn lemma_tags_add_no_sights(pieces: Seq<Piece>, more: Seq<Piece>, theme: Theme)
    requires
        only_tags(more),
    ensures
        sights_of(pieces + more, theme) == sights_of(pieces, theme),
    decreases more.len(),
{
    if more.len() == 0 {
        assert(pieces + more =~= pieces);
    } else {
        assert((pieces + more).drop_last() =~= pieces + more.drop_last());
        assert((pieces + more).last() == more.last());
        assert(!(more[more.len() - 1] is Text));
        lemma_tags_add_no_sights(pieces, more.drop_last(), theme);
    }
}

/// The nearest colours around a place are the colours of the styling.
pub proof fn lemma_nearest_colors(stack: Seq<Style>)
    ensures
        nearest_foreground(stack) == styling_of(stack).fg,
        nearest_background(stack) == styling_of(stack).bg,
    decreases stack.len(),
{
    if stack.len() > 0 {
        lemma_nearest_colors(stack.drop_last());
    }
}

/// Text inside a tidy stack looks as the styling of the stack asks,
/// wherever on the stack an inversion stands.
pub proof fn lemma_appearance_of_stack(stack: Seq<Style>, theme: Theme)
    requires
        tidy(stack),
    ensures
        Appearance::of(stack, theme) == Appearance::wanted(styling_of(stack), theme),
    decreases stack.len(),
{
    if stack.len() > 0 {
        let below = stack.drop_last();
        lemma_appearance_of_stack(below, theme);
        lemma_nearest_colors(below);
        crate::equivalence::lemma_styling_flags(below);
    }
}

/// A change of style adds no run.
pub proof fn lemma_consume_adds_no_sight(r: Rendering, ansi: Ansi, mode: ColorMode, theme: Theme)
    ensures
        sights_of(r.consume(ansi, mode, theme).pieces, theme) == sights_of(r.pieces, theme),
{
    lemma_consume_writes_tags(r, ansi, mode, theme);
    lemma_tags_add_no_sights(r.pieces, written_by(r, ansi, mode, theme), theme);
}

/// Changes of style add no run.
pub proof fn lemma_consume_all_adds_no_sight(
    r: Rendering,
    events: Seq<Ansi>,
    mode: ColorMode,
    theme: Theme,
)
    ensures
        sights_of(r.consume_all(events, mode, theme).pieces, theme) == sights_of(r.pieces, theme),
    decreases events.len(),
{
    if events.len() > 0 {
        lemma_consume_adds_no_sight(r, events[0], mode, theme);
        lemma_consume_all_adds_no_sight(
            r.consume(events[0], mode, theme),
            events.drop_first(),
            mode,
            theme,
        );
    }
}

/// Text adds one run, with the look that the stack gives it.
pub proof fn lemma_text_adds_sight(r: Rendering, bytes: Seq<u8>, mode: ColorMode, theme: Theme)
    requires
        in_step(r, mode, theme),
    ensures
        sights_of(r.text(bytes).pieces, theme) == sights_of(r.pieces, theme).push(
            Run { look: Appearance::of(r.stack, theme), text: bytes },
        ),
{
    assert(r.text(bytes).pieces.drop_last() =~= r.pieces);
    assert(styles_of(tagged(r.stack, mode, theme)) =~= r.stack);
}

/// What holds between the renderer that is given everything and the
/// minifier that was given the same: both have written the same runs with
/// the same looks, and the minifier's renderer shows the styling before the
/// changes that are held back, the other the styling after them.
pub open spec fn look_alike(direct: Rendering, minified: Minified, mode: ColorMode, theme: Theme) -> bool {
    &&& in_step(direct, mode, theme)
    &&& in_step(minified.rendering, mode, theme)
    &&& tidy(direct.stack)
    &&& tidy(minified.rendering.stack)
    &&& styling_of(minified.rendering.stack) == minified.styling
    &&& styling_of(direct.stack) == minified.styling.after_all(minified.buffer)
    &&& sights_of(direct.pieces, theme) == sights_of(minified.rendering.pieces, theme)
}

/// Letting go of what is held back leaves the minifier's renderer with the
/// styling after it, and adds no run.
pub proof fn lemma_flush_adds_no_sight(minified: Minified, mode: ColorMode, theme: Theme)
    requires
        in_step(minified.rendering, mode, theme),
        tidy(minified.rendering.stack),
        styling_of(minified.rendering.stack) == minified.styling,
    ensures
        in_step(minified.flush(mode, theme).rendering, mode, theme),
        tidy(minified.flush(mode, theme).rendering.stack),
        styling_of(minified.flush(mode, theme).rendering.stack) == minified.styling.after_all(
            minified.buffer,
        ),
        sights_of(minified.flush(mode, theme).rendering.pieces, theme) == sights_of(
            minified.rendering.pieces,
            theme,
        ),
{
    lemma_consume_all_in_step(minified.rendering, minified.buffer, mode, theme);
    lemma_consume_all_styling(minified.rendering, minified.buffer, mode, theme);
    lemma_consume_all_adds_no_sight(minified.rendering, minified.buffer, mode, theme);
}

/// One change of style or one text keeps the two alike.
pub proof fn lemma_feed_look_alike(
    direct: Rendering,
    minified: Minified,
    op: Op,
    mode: ColorMode,
    theme: Theme,
)
    requires
        look_alike(direct, minified, mode, theme),
    ensures
        Sunk::Direct(direct).feed(op, mode, theme) matches Sunk::Direct(d) && Sunk::Buffering(
            minified,
        ).feed(op, mode, theme) matches Sunk::Buffering(m) && look_alike(d, m, mode, theme),
{
    match op {
        Op::Event(ansi) => {
            lemma_consume_in_step(direct, ansi, mode, theme);
            lemma_consume_styling(direct, ansi, mode, theme);
            lemma_consume_adds_no_sight(direct, ansi, mode, theme);
            lemma_after_all_push(minified.styling, minified.buffer, ansi);
        },
        Op::Text(bytes) => {
            lemma_flush_adds_no_sight(minified, mode, theme);
            let flushed = minified.flush(mode, theme);
            lemma_text_in_step(direct, bytes, mode, theme);
            lemma_text_in_step(flushed.rendering, bytes, mode, theme);
            lemma_text_adds_sight(direct, bytes, mode, theme);
            lemma_text_adds_sight(flushed.rendering, bytes, mode, theme);
            lemma_appearance_of_stack(direct.stack, theme);
            lemma_appearance_of_stack(flushed.rendering.stack, theme);
        },
    }
}

/// Changes of style and text keep the two alike.
pub proof fn lemma_feed_all_look_alike(ops: Seq<Op>, mode: ColorMode, theme: Theme)
    ensures
        Sunk::start(true).feed_all(ops, mode, theme) matches Sunk::Direct(d) && Sunk::start(
            false,
        ).feed_all(ops, mode, theme) matches Sunk::Buffering(m) && look_alike(d, m, mode, theme),
    decreases ops.len(),
{
    if ops.len() == 0 {
        assert(tagged(Seq::<Style>::empty(), mode, theme) =~= Seq::<Element>::empty());
    } else {
        let before = ops.drop_last();
        lemma_feed_all_look_alike(before, mode, theme);
        let d = Sunk::start(true).feed_all(before, mode, theme)->Direct_0;
        let m = Sunk::start(false).feed_all(before, mode, theme)->Buffering_0;
        lemma_feed_look_alike(d, m, ops.last(), mode, theme);
    }
}

/// The minifier never changes how text looks. Whatever the renderer is
/// given, the output with the minifier holds the same runs of text as the
/// output without it, and each run has the same colour, the same
/// background, and is bold, faint, italic, underlined and crossed out alike.
pub proof fn lemma_minifier_keeps_appearance(ops: Seq<Op>, mode: ColorMode, theme: Theme)
    ensures
        sights_of(rendering_of(ops, true, mode, theme).pieces, theme) == sights_of(
            rendering_of(ops, false, mode, theme).pieces,
            theme,
        ),
        normalized(sights_of(rendering_of(ops, true, mode, theme).pieces, theme)) == normalized(
            sights_of(rendering_of(ops, false, mode, theme).pieces, theme),
        ),
{
    lemma_feed_all_look_alike(ops, mode, theme);
    let d = Sunk::start(true).feed_all(ops, mode, theme)->Direct_0;
    let m = Sunk::start(false).feed_all(ops, mode, theme)->Buffering_0;
    lemma_consume_adds_no_sight(d, Ansi::Reset, mode, theme);
    lemma_consume_in_step(d, Ansi::Reset, mode, theme);
    let reset = d.consume(Ansi::Reset, mode, theme);
    lemma_clear_in_step(reset, StyleFilter::All, mode, theme);
    lemma_finish_adds_no_sight(reset, mode, theme);
    let held = m.hold(Ansi::Reset);
    lemma_flush_adds_no_sight(held, mode, theme);
    lemma_finish_adds_no_sight(held.flush(mode, theme).rendering, mode, theme);
}

/// Closing whatever is open adds no run.
pub proof fn lemma_finish_adds_no_sight(r: Rendering, mode: ColorMode, theme: Theme)
    ensures
        sights_of(r.finish(mode, theme).pieces, theme) == sights_of(r.pieces, theme),
{
    crate::meaning::lemma_clear_writes_tags(r.stack, StyleFilter::All, mode, theme);
    lemma_tags_add_no_sights(
        r.pieces,
        crate::html::clear_pieces(r.stack, StyleFilter::All, mode, theme),
        theme,
    );
}

/// How the HTML of `input` looks: its runs of text with their looks,
/// without the empty runs and with runs that look alike joined, or the
/// error that the conversion ends with.
pub open spec fn appearance_of(
    input: Seq<u8>,
    mode: ColorMode,
    theme: Theme,
    skip_optimize: bool,
) -> Outcome<Seq<Run<Appearance>>> {
    match ops_of(input) {
        Ok(ops) => Ok(
            normalized(sights_of(rendering_of(ops, skip_optimize, mode, theme).pieces, theme)),
        ),
        Err(e) => Err(e),
    }
}

/// Converting with the minifier and converting without it look the same,
/// for every input: both end with the same error, or give HTML with the
/// same runs of text, each with the same look.
pub proof fn lemma_optimize_keeps_appearance(input: Seq<u8>, mode: ColorMode, theme: Theme)
    ensures
        appearance_of(input, mode, theme, true) == appearance_of(input, mode, theme, false),
{
    if let Ok(ops) = ops_of(input) {
        lemma_minifier_keeps_appearance(ops, mode, theme);
    }
}

} // verus!
