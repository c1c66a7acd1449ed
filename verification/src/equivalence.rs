//! The minifier does not change what the output means: with or without it,
//! the same runs of text come out with the same look.

use vstd::prelude::*;
use crate::ansi::{Ansi, Outcome};
use crate::color::ColorMode;
use crate::html::{
    cleared_stack, first_match, kept, lemma_first_match, lemma_first_match_is, open_tag, Rendering,
    Style, StyleFilter, Theme, UnderlineStyle,
};
use crate::meaning::{
    in_step, lemma_clear_in_step, lemma_consume_all_in_step, lemma_consume_in_step,
    lemma_text_in_step, normalized, rendering_in, runs_of, tagged, Element, Look, Run,
};
use crate::minifier::{CurrentStyling, Minified};
use crate::sink::{ops_of, rendering_of, Op, Sunk};
use crate::text::bytes_of;

verus! {

/// The styling with one more element open.
pub open spec fn overlay(styling: CurrentStyling, style: Style) -> CurrentStyling {
    match style {
        Style::Bold => CurrentStyling { bold: true, ..styling },
        Style::Faint => CurrentStyling { faint: true, ..styling },
        Style::Italic => CurrentStyling { italic: true, ..styling },
        Style::Underline(kind) => CurrentStyling { underline: Some(kind), ..styling },
        Style::CrossedOut => CurrentStyling { crossed_out: true, ..styling },
        Style::ForegroundColor(c) => CurrentStyling { fg: Some(c), ..styling },
        Style::BackgroundColor(c) => CurrentStyling { bg: Some(c), ..styling },
        Style::Inverted => CurrentStyling { inverted: true, ..styling },
    }
}

/// The styling that the open elements of `stack` come to.
pub open spec fn styling_of(stack: Seq<Style>) -> CurrentStyling
    decreases stack.len(),
{
    if stack.len() == 0 {
        CurrentStyling::plain()
    } else {
        overlay(styling_of(stack.drop_last()), stack.last())
    }
}

/// Whether `filter` accepts a style together with every other style of its
/// kind.
pub open spec fn whole_kind(filter: StyleFilter) -> bool {
    match filter {
        StyleFilter::Only(Style::Underline(_)) => false,
        StyleFilter::Only(Style::ForegroundColor(_)) => false,
        StyleFilter::Only(Style::BackgroundColor(_)) => false,
        _ => true,
    }
}

/// The styling without what `filter` accepts.
pub open spec fn reset_by(styling: CurrentStyling, filter: StyleFilter) -> CurrentStyling {
    match filter {
        StyleFilter::All => CurrentStyling::plain(),
        StyleFilter::Underline => CurrentStyling { underline: None, ..styling },
        StyleFilter::ForegroundColor => CurrentStyling { fg: None, ..styling },
        StyleFilter::BackgroundColor => CurrentStyling { bg: None, ..styling },
        StyleFilter::BoldOrFaint => CurrentStyling { bold: false, faint: false, ..styling },
        StyleFilter::Only(Style::Bold) => CurrentStyling { bold: false, ..styling },
        StyleFilter::Only(Style::Faint) => CurrentStyling { faint: false, ..styling },
        StyleFilter::Only(Style::Italic) => CurrentStyling { italic: false, ..styling },
        StyleFilter::Only(Style::CrossedOut) => CurrentStyling { crossed_out: false, ..styling },
        StyleFilter::Only(Style::Inverted) => CurrentStyling { inverted: false, ..styling },
        StyleFilter::Only(_) => styling,
    }
}

/// Whether the stack holds at most one text colour, one background and
/// one underline, and each of bold, faint, italic and inverted at most once.
pub open spec fn tidy(stack: Seq<Style>) -> bool
    decreases stack.len(),
{
    if stack.len() == 0 {
        true
    } else {
        let below = stack.drop_last();
        &&& tidy(below)
        &&& stack.last() is ForegroundColor ==> styling_of(below).fg is None
        &&& stack.last() is BackgroundColor ==> styling_of(below).bg is None
        &&& stack.last() is Underline ==> styling_of(below).underline is None
        &&& stack.last() is Bold ==> !styling_of(below).bold
        &&& stack.last() is Faint ==> !styling_of(below).faint
        &&& stack.last() is Italic ==> !styling_of(below).italic
        &&& stack.last() is Inverted ==> !styling_of(below).inverted
    }
}

/// What stays of a stack with one more style on top is what stays of the
/// stack, with the style on top if it stays.
pub proof fn lemma_kept_push(stack: Seq<Style>, style: Style, filter: StyleFilter)
    ensures
        kept(stack.push(style), filter) == if filter.accepts(style) {
            kept(stack, filter)
        } else {
            kept(stack, filter).push(style)
        },
    decreases stack.len(),
{
    let grown = stack.push(style);
    if stack.len() == 0 {
        assert(grown.drop_first() =~= Seq::<Style>::empty());
        assert(kept(grown.drop_first(), filter) =~= Seq::<Style>::empty());
        assert(seq![style] + Seq::<Style>::empty() =~= Seq::<Style>::empty().push(style));
        assert(kept(stack, filter) =~= Seq::<Style>::empty());
    } else {
        lemma_kept_push(stack.drop_first(), style, filter);
        assert(grown.drop_first() =~= stack.drop_first().push(style));
        assert(grown[0] == stack[0]);
        if !filter.accepts(stack[0]) && !filter.accepts(style) {
            assert(seq![stack[0]] + kept(stack.drop_first(), filter).push(style) =~= (seq![
                stack[0],
            ] + kept(stack.drop_first(), filter)).push(style));
        }
    }
}

/// A stack with one more style on top, cleared, is the stack cleared, with
/// the style on top if it stays.
pub proof fn lemma_cleared_push(stack: Seq<Style>, style: Style, filter: StyleFilter)
    ensures
        cleared_stack(stack.push(style), filter) == if filter.accepts(style) {
            cleared_stack(stack, filter)
        } else {
            cleared_stack(stack, filter).push(style)
        },
{
    let grown = stack.push(style);
    let n = stack.len() as int;
    let i = first_match(stack, filter);
    lemma_first_match(stack, filter);
    if i < n {
        assert forall|j: int| 0 <= j < i implies !filter.accepts(grown[j]) by {
            assert(grown[j] == stack[j]);
        }
        assert(grown[i] == stack[i]);
        lemma_first_match_is(grown, filter, i);
        lemma_kept_push(stack.subrange(i, n), style, filter);
        assert(grown.subrange(i, n + 1) =~= stack.subrange(i, n).push(style));
        assert(grown.subrange(0, i) =~= stack.subrange(0, i));
        if filter.accepts(style) {
        } else {
            assert(stack.subrange(0, i) + kept(stack.subrange(i, n), filter).push(style) =~= (
            stack.subrange(0, i) + kept(stack.subrange(i, n), filter)).push(style));
        }
    } else {
        assert(kept(stack.subrange(n, n), filter) =~= Seq::<Style>::empty());
        assert(stack.subrange(0, n) + Seq::<Style>::empty() =~= stack);
        if filter.accepts(style) {
            assert forall|j: int| 0 <= j < n implies !filter.accepts(grown[j]) by {
                assert(grown[j] == stack[j]);
            }
            lemma_first_match_is(grown, filter, n);
            let top = grown.subrange(n, n + 1);
            assert(top[0] == style);
            assert(kept(top.drop_first(), filter) =~= Seq::<Style>::empty());
            assert(kept(top, filter) =~= Seq::<Style>::empty());
            assert(grown.subrange(0, n) + Seq::<Style>::empty() =~= stack);
        } else {
            assert forall|j: int| 0 <= j < n + 1 implies !filter.accepts(grown[j]) by {
                if j < n {
                    assert(grown[j] == stack[j]);
                }
            }
            lemma_first_match_is(grown, filter, n + 1);
            assert(kept(grown.subrange(n + 1, n + 1), filter) =~= Seq::<Style>::empty());
            assert(grown.subrange(0, n + 1) + Seq::<Style>::empty() =~= grown);
        }
    }
}

/// The styling of a cleared stack is the styling of the stack without what
/// the filter accepts, and a tidy stack stays tidy.
pub proof fn lemma_cleared_styling(stack: Seq<Style>, filter: StyleFilter)
    requires
        whole_kind(filter),
    ensures
        styling_of(cleared_stack(stack, filter)) == reset_by(styling_of(stack), filter),
        tidy(stack) ==> tidy(cleared_stack(stack, filter)),
    decreases stack.len(),
{
    if stack.len() == 0 {
        assert(cleared_stack(stack, filter) =~= Seq::<Style>::empty()) by {
            assert(stack.subrange(0, 0) =~= Seq::<Style>::empty());
            assert(kept(stack.subrange(0, 0), filter) =~= Seq::<Style>::empty());
        }
    } else {
        let below = stack.drop_last();
        let style = stack.last();
        assert(below.push(style) =~= stack);
        lemma_cleared_push(below, style, filter);
        lemma_cleared_styling(below, filter);
        if !filter.accepts(style) {
            let cleared = cleared_stack(below, filter).push(style);
            assert(cleared.drop_last() =~= cleared_stack(below, filter));
        }
    }
}

/// The styling says which elements are open.
pub proof fn lemma_styling_flags(stack: Seq<Style>)
    ensures
        styling_of(stack).bold == stack.contains(Style::Bold),
        styling_of(stack).faint == stack.contains(Style::Faint),
        styling_of(stack).italic == stack.contains(Style::Italic),
        styling_of(stack).inverted == stack.contains(Style::Inverted),
    decreases stack.len(),
{
    if stack.len() > 0 {
        let below = stack.drop_last();
        lemma_styling_flags(below);
        assert forall|s: Style| stack.contains(s) == (below.contains(s) || stack.last() == s) by {
            if below.contains(s) {
                let j = choose|j: int| 0 <= j < below.len() && below[j] == s;
                assert(stack[j] == s);
            }
            if stack.contains(s) {
                let j = choose|j: int| 0 <= j < stack.len() && stack[j] == s;
                if j < below.len() {
                    assert(below[j] == s);
                }
            }
        }
    }
}

/// The styling with one more element on the stack.
pub proof fn lemma_styling_push(stack: Seq<Style>, style: Style)
    ensures
        styling_of(stack.push(style)) == overlay(styling_of(stack), style),
        tidy(stack.push(style)) == (tidy(stack) && (style is ForegroundColor ==> styling_of(
            stack,
        ).fg is None) && (style is BackgroundColor ==> styling_of(stack).bg is None) && (
        style is Underline ==> styling_of(stack).underline is None) && (style is Bold
            ==> !styling_of(stack).bold) && (style is Faint ==> !styling_of(stack).faint) && (
        style is Italic ==> !styling_of(stack).italic) && (style is Inverted ==> !styling_of(
            stack,
        ).inverted)),
{
    assert(stack.push(style).drop_last() =~= stack);
}

/// A change of style does to the styling of the stack what it does to a
/// styling, and keeps a tidy stack tidy.
pub proof fn lemma_consume_styling(r: Rendering, ansi: Ansi, mode: ColorMode, theme: Theme)
    requires
        tidy(r.stack),
    ensures
        styling_of(r.consume(ansi, mode, theme).stack) == styling_of(r.stack).after(ansi),
        tidy(r.consume(ansi, mode, theme).stack),
{
    lemma_styling_flags(r.stack);
    let filter = match ansi {
        Ansi::Reset => StyleFilter::All,
        Ansi::Underline | Ansi::DoubleUnderline | Ansi::UnderlineOff => StyleFilter::Underline,
        Ansi::BoldAndFaintOff => StyleFilter::BoldOrFaint,
        Ansi::ItalicOff => StyleFilter::Only(Style::Italic),
        Ansi::InvertOff => StyleFilter::Only(Style::Inverted),
        Ansi::CrossedOutOff => StyleFilter::Only(Style::CrossedOut),
        Ansi::ForegroundColor(_) | Ansi::DefaultForegroundColor => StyleFilter::ForegroundColor,
        _ => StyleFilter::BackgroundColor,
    };
    lemma_cleared_styling(r.stack, filter);
    let cleared = cleared_stack(r.stack, filter);
    match ansi {
        Ansi::Bold => lemma_styling_push(r.stack, Style::Bold),
        Ansi::Faint => lemma_styling_push(r.stack, Style::Faint),
        Ansi::Italic => lemma_styling_push(r.stack, Style::Italic),
        Ansi::Invert => lemma_styling_push(r.stack, Style::Inverted),
        Ansi::CrossedOut => lemma_styling_push(r.stack, Style::CrossedOut),
        Ansi::Underline => lemma_styling_push(cleared, Style::Underline(UnderlineStyle::Default)),
        Ansi::DoubleUnderline => lemma_styling_push(
            cleared,
            Style::Underline(UnderlineStyle::Double),
        ),
        Ansi::ForegroundColor(c) => lemma_styling_push(cleared, Style::ForegroundColor(c)),
        Ansi::BackgroundColor(c) => lemma_styling_push(cleared, Style::BackgroundColor(c)),
        _ => {},
    }
}

/// Changes of style do to the styling of the stack what they do to a
/// styling, and keep a tidy stack tidy.
pub proof fn lemma_consume_all_styling(
    r: Rendering,
    events: Seq<Ansi>,
    mode: ColorMode,
    theme: Theme,
)
    requires
        tidy(r.stack),
    ensures
        styling_of(r.consume_all(events, mode, theme).stack) == styling_of(r.stack).after_all(
            events,
        ),
        tidy(r.consume_all(events, mode, theme).stack),
    decreases events.len(),
{
    if events.len() > 0 {
        lemma_consume_styling(r, events[0], mode, theme);
        lemma_consume_all_styling(
            r.consume(events[0], mode, theme),
            events.drop_first(),
            mode,
            theme,
        );
    }
}

/// One more change of style after some others.
pub proof fn lemma_after_all_push(styling: CurrentStyling, events: Seq<Ansi>, ansi: Ansi)
    ensures
        styling.after_all(events.push(ansi)) == styling.after_all(events).after(ansi),
    decreases events.len(),
{
    let grown = events.push(ansi);
    if events.len() == 0 {
        assert(grown.drop_first() =~= Seq::<Ansi>::empty());
        assert(styling.after(ansi).after_all(grown.drop_first()) == styling.after(ansi));
    } else {
        lemma_after_all_push(styling.after(events[0]), events.drop_first(), ansi);
        assert(grown.drop_first() =~= events.drop_first().push(ansi));
    }
}

/// The look that a styling gives text which is not inverted: the spans of
/// faint text and of the two colours, each with the tag that opens it.
pub open spec fn look_for(styling: CurrentStyling, mode: ColorMode) -> Look {
    let faint: Set<Seq<u8>> = if styling.faint {
        set![bytes_of("<span style='opacity:0.67'>"@)]
    } else {
        Set::empty()
    };
    let fg: Set<Seq<u8>> = match styling.fg {
        Some(c) => set![c.opening_span(mode, true)],
        None => Set::empty(),
    };
    let bg: Set<Seq<u8>> = match styling.bg {
        Some(c) => set![c.opening_span(mode, false)],
        None => Set::empty(),
    };
    Look {
        bold: styling.bold,
        italic: styling.italic,
        underlined: styling.underline,
        crossed_out: styling.crossed_out,
        spans: faint.union(fg).union(bg),
    }
}

/// Text inside a tidy stack without inversion looks as the styling of the
/// stack says.
pub proof fn lemma_look_of_stack(stack: Seq<Style>, mode: ColorMode, theme: Theme)
    requires
        tidy(stack),
        !styling_of(stack).inverted,
    ensures
        Look::of(tagged(stack, mode, theme)) == look_for(styling_of(stack), mode),
    decreases stack.len(),
{
    if stack.len() > 0 {
        let below = stack.drop_last();
        let style = stack.last();
        lemma_look_of_stack(below, mode, theme);
        lemma_styling_flags(below);
        let open = tagged(stack, mode, theme);
        assert(open.drop_last() =~= tagged(below, mode, theme)) by {
            assert forall|i: int| 0 <= i < below.len() implies stack.subrange(0, i)
                == below.subrange(0, i) by {
                assert(stack.subrange(0, i) =~= below.subrange(0, i));
            }
        }
        assert(stack.subrange(0, stack.len() - 1) =~= below);
        assert(open.last() == Element { style, tag: open_tag(style, below, mode, theme) });
        let got = Look::of(open);
        let want = look_for(styling_of(stack), mode);
        assert(got == Look::of(tagged(below, mode, theme)).inside(open.last()));
        assert(got.spans =~= want.spans);
        assert(got.bold == want.bold);
        assert(got.italic == want.italic);
        assert(got.underlined == want.underlined);
        assert(got.crossed_out == want.crossed_out);
    } else {
        assert(tagged(stack, mode, theme) =~= Seq::<Element>::empty());
        assert(look_for(styling_of(stack), mode).spans =~= Set::<Seq<u8>>::empty());
    }
}

/// How text looks after `ops`: what their changes of style come to.
pub open spec fn styling_after(ops: Seq<Op>) -> CurrentStyling
    decreases ops.len(),
{
    if ops.len() == 0 {
        CurrentStyling::plain()
    } else {
        match ops.last() {
            Op::Event(ansi) => styling_after(ops.drop_last()).after(ansi),
            Op::Text(_) => styling_after(ops.drop_last()),
        }
    }
}

/// Whether no text among `ops` is written while text is inverted.
pub open spec fn no_inverted_text(ops: Seq<Op>) -> bool
    decreases ops.len(),
{
    if ops.len() == 0 {
        true
    } else {
        &&& no_inverted_text(ops.drop_last())
        &&& ops.last() is Text ==> !styling_after(ops.drop_last()).inverted
    }
}

/// What holds between the renderer that is given everything and the
/// minifier that was given the same: both have written the same runs, and
/// the minifier's renderer shows the styling before the changes that are
/// held back, the other the styling after them.
pub open spec fn alike(
    direct: Rendering,
    minified: Minified,
    mode: ColorMode,
    theme: Theme,
) -> bool {
    &&& in_step(direct, mode, theme)
    &&& in_step(minified.rendering, mode, theme)
    &&& tidy(direct.stack)
    &&& tidy(minified.rendering.stack)
    &&& styling_of(minified.rendering.stack) == minified.styling
    &&& styling_of(direct.stack) == minified.styling.after_all(minified.buffer)
    &&& runs_of(direct.pieces) == runs_of(minified.rendering.pieces)
}

/// Letting go of what is held back leaves the minifier's renderer with the
/// styling after it, and writes no text.
pub proof fn lemma_flush(minified: Minified, mode: ColorMode, theme: Theme)
    requires
        in_step(minified.rendering, mode, theme),
        tidy(minified.rendering.stack),
        styling_of(minified.rendering.stack) == minified.styling,
    ensures
        in_step(minified.flush(mode, theme).rendering, mode, theme),
        tidy(minified.flush(mode, theme).rendering.stack),
        styling_of(minified.flush(mode, theme).rendering.stack) == minified.styling.after_all(
            minified.buffer,
        ),
        runs_of(minified.flush(mode, theme).rendering.pieces) == runs_of(minified.rendering.pieces),
{
    lemma_consume_all_in_step(minified.rendering, minified.buffer, mode, theme);
    lemma_consume_all_styling(minified.rendering, minified.buffer, mode, theme);
}

/// One change of style, or one text that is not inverted, keeps the two
/// alike.
pub proof fn lemma_feed_alike(
    direct: Rendering,
    minified: Minified,
    op: Op,
    mode: ColorMode,
    theme: Theme,
)
    requires
        alike(direct, minified, mode, theme),
        op is Text ==> !styling_of(direct.stack).inverted,
    ensures
        Sunk::Direct(direct).feed(op, mode, theme) matches Sunk::Direct(d) && Sunk::Buffering(
            minified,
        ).feed(op, mode, theme) matches Sunk::Buffering(m) && alike(d, m, mode, theme)
            && styling_of(d.stack) == match op {
            Op::Event(ansi) => styling_of(direct.stack).after(ansi),
            Op::Text(_) => styling_of(direct.stack),
        },
{
    match op {
        Op::Event(ansi) => {
            lemma_consume_in_step(direct, ansi, mode, theme);
            lemma_consume_styling(direct, ansi, mode, theme);
            lemma_after_all_push(minified.styling, minified.buffer, ansi);
        },
        Op::Text(bytes) => {
            lemma_flush(minified, mode, theme);
            let flushed = minified.flush(mode, theme);
            lemma_text_in_step(direct, bytes, mode, theme);
            lemma_text_in_step(flushed.rendering, bytes, mode, theme);
            lemma_look_of_stack(direct.stack, mode, theme);
            lemma_look_of_stack(flushed.rendering.stack, mode, theme);
        },
    }
}

/// Changes of style and text that is not inverted keep the two alike.
pub proof fn lemma_feed_all_alike(ops: Seq<Op>, mode: ColorMode, theme: Theme)
    requires
        no_inverted_text(ops),
    ensures
        Sunk::start(true).feed_all(ops, mode, theme) matches Sunk::Direct(d) && Sunk::start(
            false,
        ).feed_all(ops, mode, theme) matches Sunk::Buffering(m) && alike(d, m, mode, theme)
            && styling_of(d.stack) == styling_after(ops),
    decreases ops.len(),
{
    if ops.len() == 0 {
        assert(tagged(Seq::<Style>::empty(), mode, theme) =~= Seq::<Element>::empty());
    } else {
        let before = ops.drop_last();
        lemma_feed_all_alike(before, mode, theme);
        let d = Sunk::start(true).feed_all(before, mode, theme)->Direct_0;
        let m = Sunk::start(false).feed_all(before, mode, theme)->Buffering_0;
        lemma_feed_alike(d, m, ops.last(), mode, theme);
    }
}

/// The minifier keeps the meaning of the output. Where no text is written
/// while text is inverted, the output with the minifier holds the same runs
/// of text with the same look as the output without it; so the two are the
/// same once empty runs are dropped and runs that look alike are joined.
pub proof fn lemma_minifier_keeps_meaning(ops: Seq<Op>, mode: ColorMode, theme: Theme)
    requires
        no_inverted_text(ops),
    ensures
        runs_of(rendering_of(ops, true, mode, theme).pieces) == runs_of(
            rendering_of(ops, false, mode, theme).pieces,
        ),
        normalized(runs_of(rendering_of(ops, true, mode, theme).pieces)) == normalized(
            runs_of(rendering_of(ops, false, mode, theme).pieces),
        ),
{
    lemma_feed_all_alike(ops, mode, theme);
    let d = Sunk::start(true).feed_all(ops, mode, theme)->Direct_0;
    let m = Sunk::start(false).feed_all(ops, mode, theme)->Buffering_0;
    lemma_consume_in_step(d, Ansi::Reset, mode, theme);
    lemma_clear_in_step(d.consume(Ansi::Reset, mode, theme), StyleFilter::All, mode, theme);
    let held = m.hold(Ansi::Reset);
    lemma_flush(held, mode, theme);
    lemma_clear_in_step(held.flush(mode, theme).rendering, StyleFilter::All, mode, theme);
}

/// The stack stays tidy: whatever the renderer is given, directly or
/// through the minifier, it never holds two text colours, two backgrounds
/// or two underlines, nor bold, faint, italic or inverted twice. A new
/// colour or underline takes the place of the one before it.
pub proof fn lemma_stack_is_tidy(ops: Seq<Op>, skip_optimize: bool, mode: ColorMode, theme: Theme)
    ensures
        tidy(rendering_in(Sunk::start(skip_optimize).feed_all(ops, mode, theme)).stack),
        tidy(rendering_of(ops, skip_optimize, mode, theme).stack),
    decreases ops.len(),
{
    let fed = Sunk::start(skip_optimize).feed_all(ops, mode, theme);
    if ops.len() > 0 {
        lemma_stack_is_tidy(ops.drop_last(), skip_optimize, mode, theme);
        match (Sunk::start(skip_optimize).feed_all(ops.drop_last(), mode, theme), ops.last()) {
            (Sunk::Direct(r), Op::Event(ansi)) => lemma_consume_styling(r, ansi, mode, theme),
            (Sunk::Buffering(m), Op::Text(bytes)) => lemma_consume_all_styling(
                m.rendering,
                m.buffer,
                mode,
                theme,
            ),
            _ => {},
        }
    }
    match fed.feed(Op::Event(Ansi::Reset), mode, theme) {
        Sunk::Direct(r) => {
            lemma_consume_styling(rendering_in(fed), Ansi::Reset, mode, theme);
            lemma_cleared_styling(r.stack, StyleFilter::All);
        },
        Sunk::Buffering(m) => {
            lemma_consume_all_styling(m.rendering, m.buffer, mode, theme);
            lemma_cleared_styling(m.flush(mode, theme).rendering.stack, StyleFilter::All);
        },
    }
}

/// What the HTML of `input` means: its runs of text with their looks,
/// without the empty runs and with runs that look alike joined, or the
/// error that the conversion ends with.
pub open spec fn meaning_of(
    input: Seq<u8>,
    mode: ColorMode,
    theme: Theme,
    skip_optimize: bool,
) -> Outcome<Seq<Run<Look>>> {
    match ops_of(input) {
        Ok(ops) => Ok(normalized(runs_of(rendering_of(ops, skip_optimize, mode, theme).pieces))),
        Err(e) => Err(e),
    }
}

/// Whether `input` writes no text while text is inverted.
pub open spec fn never_inverted(input: Seq<u8>) -> bool {
    ops_of(input) matches Ok(ops) ==> no_inverted_text(ops)
}

/// Converting with the minifier and converting without it mean the same,
/// for every input that writes no text while text is inverted: both end
/// with the same error, or give HTML with the same runs of text and looks.
pub proof fn lemma_optimize_keeps_meaning(input: Seq<u8>, mode: ColorMode, theme: Theme)
    requires
        never_inverted(input),
    ensures
        meaning_of(input, mode, theme, true) == meaning_of(input, mode, theme, false),
{
    if let Ok(ops) = ops_of(input) {
        lemma_minifier_keeps_meaning(ops, mode, theme);
    }
}

} // verus!
