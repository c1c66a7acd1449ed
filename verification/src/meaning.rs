//! What the output means: the runs of text in it, each with the elements
//! that are open around it.

use vstd::prelude::*;
use crate::ansi::Ansi;
use crate::color::ColorMode;
use crate::sink::{rendering_of, Op, Sunk};
use crate::html::{clear_pieces, 
    cleared_stack, closes, first_match, kept, lemma_first_match, open_tag, reopen, Piece,
    Rendering, Style, StyleFilter, Theme, UnderlineStyle,
};

verus! {

/// An open element: its style, and the tag that opened it.
pub struct Element {
    pub style: Style,
    pub tag: Seq<u8>,
}

/// The elements that are open after `pieces`.
pub open spec fn elements(pieces: Seq<Piece>) -> Seq<Element>
    decreases pieces.len(),
{
    if pieces.len() == 0 {
        Seq::empty()
    } else {
        let before = elements(pieces.drop_last());
        match pieces.last() {
            Piece::Open { style, tag } => before.push(Element { style, tag }),
            Piece::Close { style } => if before.len() > 0 {
                before.drop_last()
            } else {
                before
            },
            Piece::Text { bytes } => before,
        }
    }
}

/// How text looks inside some elements: whether it is bold, italic or
/// crossed out, how it is underlined, and the spans around it, each known by
/// its opening tag.
pub struct Look {
    pub bold: bool,
    pub italic: bool,
    pub underlined: Option<UnderlineStyle>,
    pub crossed_out: bool,
    pub spans: Set<Seq<u8>>,
}

impl Look {
    /// The look of text outside every element.
    pub open spec fn plain() -> Look {
        Look {
            bold: false,
            italic: false,
            underlined: None,
            crossed_out: false,
            spans: Set::empty(),
        }
    }

    /// The look inside one more element.
    pub open spec fn inside(self, element: Element) -> Look {
        match element.style {
            Style::Bold => Look { bold: true, ..self },
            Style::Italic => Look { italic: true, ..self },
            Style::Underline(kind) => Look { underlined: Some(kind), ..self },
            Style::CrossedOut => Look { crossed_out: true, ..self },
            _ => Look { spans: self.spans.insert(element.tag), ..self },
        }
    }

    /// The look inside `open`, outermost first.
    pub open spec fn of(open: Seq<Element>) -> Look
        decreases open.len(),
    {
        if open.len() == 0 {
            Look::plain()
        } else {
            Look::of(open.drop_last()).inside(open.last())
        }
    }
}

/// A run of text and how it looks.
pub struct Run<L> {
    pub look: L,
    pub text: Seq<u8>,
}

/// The runs of text in `pieces`, in order, each with the look that the
/// elements open around it give it.
pub open spec fn runs_of(pieces: Seq<Piece>) -> Seq<Run<Look>>
    decreases pieces.len(),
{
    if pieces.len() == 0 {
        Seq::empty()
    } else {
        match pieces.last() {
            Piece::Text { bytes } => runs_of(pieces.drop_last()).push(
                Run { look: Look::of(elements(pieces.drop_last())), text: bytes },
            ),
            _ => runs_of(pieces.drop_last()),
        }
    }
}

/// Runs without the empty ones, and with each run joined to the one before
/// it where the two look alike.
pub open spec fn normalized<L>(runs: Seq<Run<L>>) -> Seq<Run<L>>
    decreases runs.len(),
{
    if runs.len() == 0 {
        Seq::empty()
    } else {
        let before = normalized(runs.drop_last());
        let run = runs.last();
        if run.text.len() == 0 {
            before
        } else if before.len() > 0 && before.last().look == run.look {
            before.drop_last().push(Run { look: run.look, text: before.last().text + run.text })
        } else {
            before.push(run)
        }
    }
}

/// How many of `pieces` open an element.
pub open spec fn opened(pieces: Seq<Piece>) -> nat
    decreases pieces.len(),
{
    if pieces.len() == 0 {
        0
    } else if pieces.last() is Open {
        opened(pieces.drop_last()) + 1
    } else {
        opened(pieces.drop_last())
    }
}

/// How many of `pieces` close an element.
pub open spec fn closed(pieces: Seq<Piece>) -> nat
    decreases pieces.len(),
{
    if pieces.len() == 0 {
        0
    } else if pieces.last() is Close {
        closed(pieces.drop_last()) + 1
    } else {
        closed(pieces.drop_last())
    }
}

/// Whether every tag of `pieces` that closes an element closes the
/// innermost element that is open, and is the closing tag of its style.
pub open spec fn nested(pieces: Seq<Piece>) -> bool
    decreases pieces.len(),
{
    if pieces.len() == 0 {
        true
    } else {
        let before = pieces.drop_last();
        &&& nested(before)
        &&& pieces.last() matches Piece::Close { style } ==> elements(before).len() > 0
            && elements(before).last().style == style
    }
}

/// The elements of `stack`, each with the tag that opens it on top of what
/// stands below it.
pub open spec fn tagged(stack: Seq<Style>, mode: ColorMode, theme: Theme) -> Seq<Element> {
    Seq::new(
        stack.len(),
        |i: int|
            Element { style: stack[i], tag: open_tag(stack[i], stack.subrange(0, i), mode, theme) },
    )
}

/// Whether the elements that the pieces of `r` leave open are those of its
/// stack, every element that was opened and is not on the stack was
/// closed, and each was closed before the one around it.
pub open spec fn in_step(r: Rendering, mode: ColorMode, theme: Theme) -> bool {
    &&& elements(r.pieces) == tagged(r.stack, mode, theme)
    &&& opened(r.pieces) == closed(r.pieces) + r.stack.len()
    &&& nested(r.pieces)
}

/// Whether none of `pieces` is text.
pub open spec fn only_tags(pieces: Seq<Piece>) -> bool {
    forall|i: int| 0 <= i < pieces.len() ==> !((#[trigger] pieces[i]) is Text)
}

/// Tags add no runs.
pub proof fn lemma_tags_add_no_runs(pieces: Seq<Piece>, more: Seq<Piece>)
    requires
        only_tags(more),
    ensures
        runs_of(pieces + more) == runs_of(pieces),
    decreases more.len(),
{
    if more.len() == 0 {
        assert(pieces + more =~= pieces);
    } else {
        assert((pieces + more).drop_last() =~= pieces + more.drop_last());
        assert((pieces + more).last() == more.last());
        assert(!(more[more.len() - 1] is Text));
        lemma_tags_add_no_runs(pieces, more.drop_last());
    }
}

/// Closing the topmost elements leaves the ones below them.
pub proof fn lemma_elements_after_closes(pieces: Seq<Piece>, open: Seq<Element>, popped: Seq<Style>)
    requires
        elements(pieces) == open,
        popped.len() <= open.len(),
        nested(pieces),
        forall|j: int|
            0 <= j < popped.len() ==> open[open.len() - popped.len() + j].style == popped[j],
    ensures
        nested(pieces + closes(popped)),
        elements(pieces + closes(popped)) == open.subrange(0, open.len() - popped.len()),
        only_tags(closes(popped)),
        closes(popped).len() == popped.len(),
        opened(pieces + closes(popped)) == opened(pieces),
        closed(pieces + closes(popped)) == closed(pieces) + popped.len(),
    decreases popped.len(),
{
    if popped.len() == 0 {
        assert(pieces + closes(popped) =~= pieces);
        assert(open.subrange(0, open.len() as int) =~= open);
    } else {
        let rest = popped.drop_first();
        assert forall|j: int| 0 <= j < rest.len() implies open[open.len() - rest.len() + j].style
            == rest[j] by {
            assert(rest[j] == popped[j + 1]);
        }
        lemma_elements_after_closes(pieces, open, rest);
        let all = pieces + closes(popped);
        assert(all.drop_last() =~= pieces + closes(rest));
        assert(all.last() == Piece::Close { style: popped[0] });
        assert(open.subrange(0, open.len() - rest.len()).drop_last() =~= open.subrange(
            0,
            open.len() - popped.len(),
        ));
    }
}

/// Opening elements again on top of a stack leaves the elements of the
/// stack with them on top.
pub proof fn lemma_elements_after_reopen(
    pieces: Seq<Piece>,
    base: Seq<Style>,
    styles: Seq<Style>,
    mode: ColorMode,
    theme: Theme,
)
    requires
        elements(pieces) == tagged(base, mode, theme),
        nested(pieces),
    ensures
        nested(pieces + reopen(base, styles, mode, theme)),
        elements(pieces + reopen(base, styles, mode, theme)) == tagged(base + styles, mode, theme),
        only_tags(reopen(base, styles, mode, theme)),
        opened(pieces + reopen(base, styles, mode, theme)) == opened(pieces) + styles.len(),
        closed(pieces + reopen(base, styles, mode, theme)) == closed(pieces),
    decreases styles.len(),
{
    if styles.len() == 0 {
        assert(pieces + reopen(base, styles, mode, theme) =~= pieces);
        assert(base + styles =~= base);
    } else {
        let first = Piece::Open {
            style: styles[0],
            tag: open_tag(styles[0], base, mode, theme),
        };
        let next = pieces.push(first);
        let grown = base.push(styles[0]);
        assert(next.drop_last() =~= pieces);
        assert(elements(next) =~= tagged(grown, mode, theme)) by {
            assert(grown.subrange(0, base.len() as int) =~= base);
            assert forall|i: int| 0 <= i < base.len() implies grown.subrange(0, i)
                == base.subrange(0, i) by {
                assert(grown.subrange(0, i) =~= base.subrange(0, i));
            }
        }
        lemma_elements_after_reopen(next, grown, styles.drop_first(), mode, theme);
        assert(next + reopen(grown, styles.drop_first(), mode, theme) =~= pieces + reopen(
            base,
            styles,
            mode,
            theme,
        ));
        assert(grown + styles.drop_first() =~= base + styles);
    }
}

/// Opening an element keeps the pieces in step with the stack.
pub proof fn lemma_set_in_step(r: Rendering, style: Style, mode: ColorMode, theme: Theme)
    requires
        in_step(r, mode, theme),
    ensures
        in_step(r.set(style, mode, theme), mode, theme),
        runs_of(r.set(style, mode, theme).pieces) == runs_of(r.pieces),
{
    lemma_elements_after_reopen(r.pieces, r.stack, seq![style], mode, theme);
    assert(reopen(r.stack, seq![style], mode, theme) =~= seq![
        Piece::Open { style, tag: open_tag(style, r.stack, mode, theme) },
    ]) by {
        assert(seq![style].drop_first() =~= Seq::<Style>::empty());
        assert(reopen(r.stack.push(style), Seq::<Style>::empty(), mode, theme) =~= Seq::<
            Piece,
        >::empty());
        assert(seq![style][0] == style);
    }
    assert(r.pieces + reopen(r.stack, seq![style], mode, theme) =~= r.set(
        style,
        mode,
        theme,
    ).pieces);
    assert(r.stack + seq![style] =~= r.stack.push(style));
    lemma_tags_add_no_runs(r.pieces, reopen(r.stack, seq![style], mode, theme));
}

/// Taking styles off the stack keeps the pieces in step with the stack.
pub proof fn lemma_clear_in_step(r: Rendering, filter: StyleFilter, mode: ColorMode, theme: Theme)
    requires
        in_step(r, mode, theme),
    ensures
        in_step(r.clear(filter, mode, theme), mode, theme),
        runs_of(r.clear(filter, mode, theme).pieces) == runs_of(r.pieces),
{
    lemma_first_match(r.stack, filter);
    let i = first_match(r.stack, filter);
    let n = r.stack.len() as int;
    let popped = r.stack.subrange(i, n);
    let base = r.stack.subrange(0, i);
    let open = tagged(r.stack, mode, theme);
    lemma_elements_after_closes(r.pieces, open, popped);
    assert(open.subrange(0, i) =~= tagged(base, mode, theme)) by {
        assert forall|j: int| 0 <= j < i implies r.stack.subrange(0, j) == base.subrange(0, j) by {
            assert(r.stack.subrange(0, j) =~= base.subrange(0, j));
        }
    }
    let closed = r.pieces + closes(popped);
    lemma_elements_after_reopen(closed, base, kept(popped, filter), mode, theme);
    let again = reopen(base, kept(popped, filter), mode, theme);
    assert(closed + again =~= r.clear(filter, mode, theme).pieces);
    lemma_tags_add_no_runs(r.pieces, closes(popped));
    lemma_tags_add_no_runs(closed, again);
}

/// A change of style keeps the pieces in step with the stack, and adds no
/// run.
pub proof fn lemma_consume_in_step(r: Rendering, ansi: Ansi, mode: ColorMode, theme: Theme)
    requires
        in_step(r, mode, theme),
    ensures
        in_step(r.consume(ansi, mode, theme), mode, theme),
        runs_of(r.consume(ansi, mode, theme).pieces) == runs_of(r.pieces),
{
    let filter = match ansi {
        Ansi::Reset => StyleFilter::All,
        Ansi::Underline | Ansi::DoubleUnderline | Ansi::UnderlineOff => StyleFilter::Underline,
        Ansi::BoldAndFaintOff => StyleFilter::BoldOrFaint,
        Ansi::ItalicOff => StyleFilter::Only(Style::Italic),
        Ansi::InvertOff => StyleFilter::Only(Style::Inverted),
        Ansi::CrossedOutOff => StyleFilter::Only(Style::CrossedOut),
        Ansi::ForegroundColor(_) | Ansi::DefaultForegroundColor => StyleFilter::ForegroundColor,
        _ => StyleFilter::BackgroundColor,
    };
    lemma_clear_in_step(r, filter, mode, theme);
    let cleared = r.clear(filter, mode, theme);
    match ansi {
        Ansi::Bold => lemma_set_in_step(r, Style::Bold, mode, theme),
        Ansi::Faint => lemma_set_in_step(r, Style::Faint, mode, theme),
        Ansi::Italic => lemma_set_in_step(r, Style::Italic, mode, theme),
        Ansi::Invert => lemma_set_in_step(r, Style::Inverted, mode, theme),
        Ansi::CrossedOut => lemma_set_in_step(r, Style::CrossedOut, mode, theme),
        Ansi::Underline => lemma_set_in_step(
            cleared,
            Style::Underline(UnderlineStyle::Default),
            mode,
            theme,
        ),
        Ansi::DoubleUnderline => lemma_set_in_step(
            cleared,
            Style::Underline(UnderlineStyle::Double),
            mode,
            theme,
        ),
        Ansi::ForegroundColor(c) => lemma_set_in_step(
            cleared,
            Style::ForegroundColor(c),
            mode,
            theme,
        ),
        Ansi::BackgroundColor(c) => lemma_set_in_step(
            cleared,
            Style::BackgroundColor(c),
            mode,
            theme,
        ),
        _ => {},
    }
}

/// Changes of style keep the pieces in step with the stack, and add no run.
pub proof fn lemma_consume_all_in_step(
    r: Rendering,
    events: Seq<Ansi>,
    mode: ColorMode,
    theme: Theme,
)
    requires
        in_step(r, mode, theme),
    ensures
        in_step(r.consume_all(events, mode, theme), mode, theme),
        runs_of(r.consume_all(events, mode, theme).pieces) == runs_of(r.pieces),
    decreases events.len(),
{
    if events.len() > 0 {
        lemma_consume_in_step(r, events[0], mode, theme);
        lemma_consume_all_in_step(
            r.consume(events[0], mode, theme),
            events.drop_first(),
            mode,
            theme,
        );
    }
}

/// Text keeps the pieces in step with the stack, and adds one run with the
/// look that the stack gives.
pub proof fn lemma_text_in_step(r: Rendering, bytes: Seq<u8>, mode: ColorMode, theme: Theme)
    requires
        in_step(r, mode, theme),
    ensures
        in_step(r.text(bytes), mode, theme),
        runs_of(r.text(bytes).pieces) == runs_of(r.pieces).push(
            Run { look: Look::of(tagged(r.stack, mode, theme)), text: bytes },
        ),
{
    assert(r.text(bytes).pieces.drop_last() =~= r.pieces);
}

/// Nothing stays on a stack from which everything is taken.
pub proof fn lemma_clear_all(stack: Seq<Style>)
    ensures
        cleared_stack(stack, StyleFilter::All) == Seq::<Style>::empty(),
    decreases stack.len(),
{
    if stack.len() == 0 {
        assert(stack.subrange(0, 0) + kept(stack.subrange(0, 0), StyleFilter::All)
            =~= Seq::<Style>::empty());
    } else {
        lemma_kept_none(stack);
        assert(stack.subrange(0, stack.len() as int) =~= stack);
        assert(stack.subrange(0, 0) + Seq::<Style>::empty() =~= Seq::<Style>::empty());
    }
}

/// Nothing stays of what is all taken.
pub proof fn lemma_kept_none(popped: Seq<Style>)
    ensures
        kept(popped, StyleFilter::All) == Seq::<Style>::empty(),
    decreases popped.len(),
{
    if popped.len() > 0 {
        lemma_kept_none(popped.drop_first());
    }
}

/// What a sink has done so far, whether the minifier stands in front or not.
pub open spec fn rendering_in(sunk: Sunk) -> Rendering {
    match sunk {
        Sunk::Direct(r) => r,
        Sunk::Buffering(m) => m.rendering,
    }
}

/// Whatever a sink is given, its pieces stay in step with its stack.
pub proof fn lemma_feed_all_in_step(
    skip_optimize: bool,
    ops: Seq<Op>,
    mode: ColorMode,
    theme: Theme,
)
    ensures
        in_step(rendering_in(Sunk::start(skip_optimize).feed_all(ops, mode, theme)), mode, theme),
    decreases ops.len(),
{
    if ops.len() == 0 {
        assert(tagged(Seq::<Style>::empty(), mode, theme) =~= Seq::<Element>::empty());
    } else {
        lemma_feed_all_in_step(skip_optimize, ops.drop_last(), mode, theme);
        match (Sunk::start(skip_optimize).feed_all(ops.drop_last(), mode, theme), ops.last()) {
            (Sunk::Direct(r), Op::Event(ansi)) => lemma_consume_in_step(r, ansi, mode, theme),
            (Sunk::Direct(r), Op::Text(bytes)) => lemma_text_in_step(r, bytes, mode, theme),
            (Sunk::Buffering(m), Op::Event(ansi)) => {},
            (Sunk::Buffering(m), Op::Text(bytes)) => {
                lemma_consume_all_in_step(m.rendering, m.buffer, mode, theme);
                lemma_text_in_step(m.flush(mode, theme).rendering, bytes, mode, theme);
            },
        }
    }
}

/// The output is balanced: it holds as many tags that open an element as
/// tags that close one, each tag that closes an element closes the
/// innermost one that is open, and at the end no element is open.
pub proof fn lemma_output_is_balanced(
    ops: Seq<Op>,
    skip_optimize: bool,
    mode: ColorMode,
    theme: Theme,
)
    ensures
        nested(rendering_of(ops, skip_optimize, mode, theme).pieces),
        opened(rendering_of(ops, skip_optimize, mode, theme).pieces) == closed(
            rendering_of(ops, skip_optimize, mode, theme).pieces,
        ),
        elements(rendering_of(ops, skip_optimize, mode, theme).pieces).len() == 0,
        rendering_of(ops, skip_optimize, mode, theme).stack.len() == 0,
{
    lemma_feed_all_in_step(skip_optimize, ops, mode, theme);
    let last = match Sunk::start(skip_optimize).feed_all(ops, mode, theme).feed(
        Op::Event(Ansi::Reset),
        mode,
        theme,
    ) {
        Sunk::Direct(r) => {
            lemma_consume_in_step(
                rendering_in(Sunk::start(skip_optimize).feed_all(ops, mode, theme)),
                Ansi::Reset,
                mode,
                theme,
            );
            r
        },
        Sunk::Buffering(m) => {
            lemma_consume_all_in_step(m.rendering, m.buffer, mode, theme);
            m.flush(mode, theme).rendering
        },
    };
    lemma_clear_in_step(last, StyleFilter::All, mode, theme);
    lemma_clear_all(last.stack);
}

/// A reset writes nothing where nothing is open.
pub proof fn lemma_reset_on_empty_stack(r: Rendering, mode: ColorMode, theme: Theme)
    requires
        r.stack.len() == 0,
    ensures
        r.consume(Ansi::Reset, mode, theme) == r,
{
    crate::html::lemma_clear_nothing(r.stack, StyleFilter::All, mode, theme);
    assert(r.pieces + Seq::<Piece>::empty() =~= r.pieces);
}

/// What a change of style writes: the pieces that it adds.
pub open spec fn written_by(r: Rendering, ansi: Ansi, mode: ColorMode, theme: Theme) -> Seq<Piece> {
    r.consume(ansi, mode, theme).pieces.subrange(
        r.pieces.len() as int,
        r.consume(ansi, mode, theme).pieces.len() as int,
    )
}

/// A change of style adds pieces after those that are written, and all that
/// it adds are tags.
pub proof fn lemma_consume_writes_tags(r: Rendering, ansi: Ansi, mode: ColorMode, theme: Theme)
    ensures
        r.consume(ansi, mode, theme).pieces == r.pieces + written_by(r, ansi, mode, theme),
        only_tags(written_by(r, ansi, mode, theme)),
{
    let after = r.consume(ansi, mode, theme).pieces;
    assert forall|f: StyleFilter| #![trigger clear_pieces(r.stack, f, mode, theme)]
        only_tags(clear_pieces(r.stack, f, mode, theme)) by {
        lemma_clear_writes_tags(r.stack, f, mode, theme);
    }
    assert(after.len() >= r.pieces.len());
    assert(after =~= r.pieces + written_by(r, ansi, mode, theme));
}

/// Taking styles off the stack writes tags only.
pub proof fn lemma_clear_writes_tags(
    stack: Seq<Style>,
    filter: StyleFilter,
    mode: ColorMode,
    theme: Theme,
)
    ensures
        only_tags(clear_pieces(stack, filter, mode, theme)),
{
    lemma_first_match(stack, filter);
    let i = first_match(stack, filter);
    let popped = stack.subrange(i, stack.len() as int);
    lemma_closes_are_tags(popped);
    lemma_reopen_is_tags(stack.subrange(0, i), kept(popped, filter), mode, theme);
}

/// The pieces that close elements are tags.
pub proof fn lemma_closes_are_tags(popped: Seq<Style>)
    ensures
        only_tags(closes(popped)),
    decreases popped.len(),
{
    if popped.len() > 0 {
        lemma_closes_are_tags(popped.drop_first());
    }
}

/// The pieces that open elements again are tags.
pub proof fn lemma_reopen_is_tags(
    base: Seq<Style>,
    styles: Seq<Style>,
    mode: ColorMode,
    theme: Theme,
)
    ensures
        only_tags(reopen(base, styles, mode, theme)),
    decreases styles.len(),
{
    if styles.len() > 0 {
        lemma_reopen_is_tags(base.push(styles[0]), styles.drop_first(), mode, theme);
    }
}

} // verus!
