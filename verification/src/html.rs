//! The renderer: a stack of open HTML elements, and the tags that a change
//! of style opens and closes on it.

use vstd::prelude::*;
use crate::ansi::Ansi;
use crate::color::{Color, ColorMode, FourBitColor, FourBitColorType};
use crate::text::{bytes_of, push_bytes, push_text};

verus! {

/// The terminal's colour theme, which decides the colours of inverted text
/// where none was set.
#[derive(Clone, Copy, Debug, PartialEq, Eq, Structural)]
pub enum Theme {
    Light,
    Dark,
}

impl Default for Theme {
    fn default() -> (theme: Theme)
        ensures
            theme == Theme::Dark,
    {
        Theme::Dark
    }
}

/// How text is underlined.
#[derive(Debug, Copy, Clone, Eq, PartialEq, PartialOrd, Ord, Structural)]
pub enum UnderlineStyle {
    Default,
    Double,
}

/// An open HTML element on the renderer's stack.
#[derive(Debug, Copy, Clone, Eq, PartialEq, Structural)]
pub enum Style {
    Bold,
    Faint,
    Italic,
    Underline(UnderlineStyle),
    CrossedOut,
    ForegroundColor(Color),
    BackgroundColor(Color),
    Inverted,
}

/// The colour of the nearest element around a place on top of `styles`
/// that sets the colour of the text.
pub open spec fn nearest_foreground(styles: Seq<Style>) -> Option<Color>
    decreases styles.len(),
{
    if styles.len() == 0 {
        None
    } else {
        match styles.last() {
            Style::ForegroundColor(c) => Some(c),
            _ => nearest_foreground(styles.drop_last()),
        }
    }
}

/// The colour of the nearest element around a place on top of `styles`
/// that sets the background.
pub open spec fn nearest_background(styles: Seq<Style>) -> Option<Color>
    decreases styles.len(),
{
    if styles.len() == 0 {
        None
    } else {
        match styles.last() {
            Style::BackgroundColor(c) => Some(c),
            _ => nearest_background(styles.drop_last()),
        }
    }
}

/// The text colour of inverted text where no background was set.
pub open spec fn default_inverted_fg(theme: Theme) -> Color {
    if theme == Theme::Dark {
        Color::FourBit(FourBitColor::Black)
    } else {
        Color::FourBit(FourBitColor::BrightWhite)
    }
}

/// The background of inverted text where no text colour was set.
pub open spec fn default_inverted_bg(theme: Theme) -> Color {
    if theme == Theme::Dark {
        Color::FourBit(FourBitColor::BrightWhite)
    } else {
        Color::FourBit(FourBitColor::Black)
    }
}

/// The text colour and the background of text that is inverted on top of
/// `styles`: the nearest background becomes the colour of the text, and the
/// nearest text colour the background. Where one of them is not set, the
/// theme decides.
pub open spec fn inverted_colors(styles: Seq<Style>, theme: Theme) -> (Color, Color) {
    (
        match nearest_background(styles) {
            Some(c) => c,
            None => default_inverted_fg(theme),
        },
        match nearest_foreground(styles) {
            Some(c) => c,
            None => default_inverted_bg(theme),
        },
    )
}

/// The tag that opens `style` on top of `styles`. While the stack holds an
/// inversion, a text colour is written as a background and a background as a
/// text colour.
pub open spec fn open_tag(style: Style, styles: Seq<Style>, mode: ColorMode, theme: Theme) -> Seq<
    u8,
> {
    match style {
        Style::Bold => bytes_of("<b>"@),
        Style::Faint => bytes_of("<span style='opacity:0.67'>"@),
        Style::Italic => bytes_of("<i>"@),
        Style::Underline(UnderlineStyle::Default) => bytes_of("<u>"@),
        Style::Underline(UnderlineStyle::Double) => bytes_of(
            "<u style='text-decoration-style:double'>"@,
        ),
        Style::CrossedOut => bytes_of("<s>"@),
        Style::ForegroundColor(c) => c.opening_span(mode, !styles.contains(Style::Inverted)),
        Style::BackgroundColor(c) => c.opening_span(mode, styles.contains(Style::Inverted)),
        Style::Inverted => bytes_of("<span style='color:"@) + inverted_colors(styles, theme).0.css(
            mode,
        ) + bytes_of(";background:"@) + inverted_colors(styles, theme).1.css(mode) + bytes_of(
            "'>"@,
        ),
    }
}

/// The CSS property of the colour of the text, or of the background.
pub open spec fn property_name(is_foreground: bool) -> Seq<char> {
    if is_foreground {
        "color"@
    } else {
        "background"@
    }
}

/// The tag that closes `style`.
pub open spec fn close_tag(style: Style) -> Seq<u8> {
    match style {
        Style::Bold => bytes_of("</b>"@),
        Style::Italic => bytes_of("</i>"@),
        Style::Underline(_) => bytes_of("</u>"@),
        Style::CrossedOut => bytes_of("</s>"@),
        _ => bytes_of("</span>"@),
    }
}

/// Whether `styles` holds `style`.
pub fn contains_style(styles: &Vec<Style>, style: Style) -> (found: bool)
    ensures
        found == styles@.contains(style),
{
    let mut i: usize = 0;
    while i < styles.len()
        invariant
            0 <= i <= styles@.len(),
            forall|j: int| 0 <= j < i ==> styles@[j] != style,
        decreases styles@.len() - i,
    {
        if styles[i] == style {
            return true;
        }
        i += 1;
    }
    false
}

impl Style {
    /// Appends the tag that opens this style on top of `styles`.
    pub fn apply(
        &self,
        buf: &mut Vec<u8>,
        color_type: &FourBitColorType,
        styles: &Vec<Style>,
        theme: Theme,
    )
        ensures
            final(buf)@ == old(buf)@ + open_tag(*self, styles@, color_type@, theme),
    {
        let tag = match self {
            Style::Bold => "<b>",
            Style::Faint => "<span style='opacity:0.67'>",
            Style::Italic => "<i>",
            Style::Underline(UnderlineStyle::Default) => "<u>",
            Style::Underline(UnderlineStyle::Double) => "<u style='text-decoration-style:double'>",
            Style::CrossedOut => "<s>",
            Style::ForegroundColor(c) => {
                let inverted = contains_style(styles, Style::Inverted);
                c.into_opening_span(buf, color_type, !inverted);
                return ;
            },
            Style::BackgroundColor(c) => {
                let inverted = contains_style(styles, Style::Inverted);
                c.into_opening_span(buf, color_type, inverted);
                return ;
            },
            Style::Inverted => {
                let (fg, bg) = Style::get_fg_and_bg(styles, theme);
                push_text(buf, "<span style='color:");
                fg.write_css(buf, color_type);
                push_text(buf, ";background:");
                bg.write_css(buf, color_type);
                push_text(buf, "'>");
                assert(buf@ =~= old(buf)@ + open_tag(*self, styles@, color_type@, theme));
                return ;
            },
        };
        push_text(buf, tag);
    }

    /// The CSS property of the colour of the text, or of the background.
    pub fn get_property(is_foreground: bool) -> (property: &'static str)
        ensures
            property@ == property_name(is_foreground),
    {
        if is_foreground {
            "color"
        } else {
            "background"
        }
    }

    /// The colours of text that is inverted on top of `styles`.
    pub fn get_fg_and_bg(styles: &Vec<Style>, theme: Theme) -> (colors: (Color, Color))
        ensures
            colors == inverted_colors(styles@, theme),
    {
        let mut fg: Option<Color> = None;
        let mut bg: Option<Color> = None;
        let mut i: usize = styles.len();
        assert(styles@.subrange(0, i as int) =~= styles@);
        while i > 0 && !(fg.is_some() && bg.is_some())
            invariant
                0 <= i <= styles@.len(),
                nearest_background(styles@) == if fg is Some {
                    fg
                } else {
                    nearest_background(styles@.subrange(0, i as int))
                },
                nearest_foreground(styles@) == if bg is Some {
                    bg
                } else {
                    nearest_foreground(styles@.subrange(0, i as int))
                },
            decreases i,
        {
            i -= 1;
            assert(styles@.subrange(0, i + 1).drop_last() =~= styles@.subrange(0, i as int));
            match styles[i] {
                Style::ForegroundColor(c) => {
                    if bg.is_none() {
                        bg = Some(c);
                    }
                },
                Style::BackgroundColor(c) => {
                    if fg.is_none() {
                        fg = Some(c);
                    }
                },
                _ => {},
            }
        }
        let white = Color::FourBit(FourBitColor::BrightWhite);
        let black = Color::FourBit(FourBitColor::Black);
        let dark_theme = theme == Theme::Dark;
        let fg = match fg {
            Some(c) => c,
            None => if dark_theme {
                black
            } else {
                white
            },
        };
        let bg = match bg {
            Some(c) => c,
            None => if dark_theme {
                white
            } else {
                black
            },
        };
        (fg, bg)
    }

    /// Appends the tag that closes this style.
    pub fn clear(&self, buf: &mut Vec<u8>)
        ensures
            final(buf)@ == old(buf)@ + close_tag(*self),
    {
        push_text(
            buf,
            match self {
                Style::Bold => "</b>",
                Style::Italic => "</i>",
                Style::Underline(_) => "</u>",
                Style::CrossedOut => "</s>",
                Style::Faint
                | Style::ForegroundColor(_)
                | Style::BackgroundColor(_)
                | Style::Inverted => "</span>",
            },
        )
    }
}

/// One piece of the output: a tag that opens an element, a tag that closes
/// one, or text.
pub enum Piece {
    Open { style: Style, tag: Seq<u8> },
    Close { style: Style },
    Text { bytes: Seq<u8> },
}

/// The bytes of a piece.
pub open spec fn piece_bytes(piece: Piece) -> Seq<u8> {
    match piece {
        Piece::Open { style, tag } => tag,
        Piece::Close { style } => close_tag(style),
        Piece::Text { bytes } => bytes,
    }
}

/// The bytes of some pieces, one after the other.
pub open spec fn flatten(pieces: Seq<Piece>) -> Seq<u8>
    decreases pieces.len(),
{
    if pieces.len() == 0 {
        Seq::empty()
    } else {
        flatten(pieces.drop_last()) + piece_bytes(pieces.last())
    }
}

/// The styles that a change of style takes off the stack.
#[derive(Debug, Copy, Clone)]
pub enum StyleFilter {
    All,
    Underline,
    ForegroundColor,
    BackgroundColor,
    BoldOrFaint,
    Only(Style),
}

impl StyleFilter {
    /// Whether the filter takes `style` off the stack.
    pub open spec fn accepts(self, style: Style) -> bool {
        match self {
            StyleFilter::All => true,
            StyleFilter::Underline => style is Underline,
            StyleFilter::ForegroundColor => style is ForegroundColor,
            StyleFilter::BackgroundColor => style is BackgroundColor,
            StyleFilter::BoldOrFaint => style == Style::Bold || style == Style::Faint,
            StyleFilter::Only(s) => style == s,
        }
    }

    /// Whether the filter takes `style` off the stack.
    pub fn matches(&self, style: &Style) -> (accepted: bool)
        ensures
            accepted == self.accepts(*style),
    {
        match self {
            StyleFilter::All => true,
            StyleFilter::Underline => match style {
                Style::Underline(_) => true,
                _ => false,
            },
            StyleFilter::ForegroundColor => match style {
                Style::ForegroundColor(_) => true,
                _ => false,
            },
            StyleFilter::BackgroundColor => match style {
                Style::BackgroundColor(_) => true,
                _ => false,
            },
            StyleFilter::BoldOrFaint => *style == Style::Bold || *style == Style::Faint,
            StyleFilter::Only(s) => *style == *s,
        }
    }
}

/// The place of the lowest style on `stack` that `filter` accepts, or the
/// height of the stack where it accepts none.
pub open spec fn first_match(stack: Seq<Style>, filter: StyleFilter) -> int
    decreases stack.len(),
{
    if stack.len() == 0 || filter.accepts(stack[0]) {
        0
    } else {
        1 + first_match(stack.drop_first(), filter)
    }
}

/// The tags that close `popped`, the topmost element first.
pub open spec fn closes(popped: Seq<Style>) -> Seq<Piece>
    decreases popped.len(),
{
    if popped.len() == 0 {
        Seq::empty()
    } else {
        closes(popped.drop_first()) + seq![Piece::Close { style: popped[0] }]
    }
}

/// The styles of `popped` that `filter` does not accept, in their order.
pub open spec fn kept(popped: Seq<Style>, filter: StyleFilter) -> Seq<Style>
    decreases popped.len(),
{
    if popped.len() == 0 {
        Seq::empty()
    } else if filter.accepts(popped[0]) {
        kept(popped.drop_first(), filter)
    } else {
        seq![popped[0]] + kept(popped.drop_first(), filter)
    }
}

/// The tags that open `styles` again on top of `base`, lowest first; each
/// tag is that of its style on top of what stands below it by then.
pub open spec fn reopen(base: Seq<Style>, styles: Seq<Style>, mode: ColorMode, theme: Theme) -> Seq<
    Piece,
>
    decreases styles.len(),
{
    if styles.len() == 0 {
        Seq::empty()
    } else {
        seq![Piece::Open { style: styles[0], tag: open_tag(styles[0], base, mode, theme) }]
            + reopen(base.push(styles[0]), styles.drop_first(), mode, theme)
    }
}

/// The stack after the styles that `filter` accepts were taken off: what
/// stood below the lowest of them, then what stood above it and stays.
pub open spec fn cleared_stack(stack: Seq<Style>, filter: StyleFilter) -> Seq<Style> {
    let i = first_match(stack, filter);
    stack.subrange(0, i) + kept(stack.subrange(i, stack.len() as int), filter)
}

/// What taking the styles that `filter` accepts off the stack writes: the
/// closing tags of everything from the top down to the lowest of them, then
/// the opening tags of what stays.
pub open spec fn clear_pieces(
    stack: Seq<Style>,
    filter: StyleFilter,
    mode: ColorMode,
    theme: Theme,
) -> Seq<Piece> {
    let i = first_match(stack, filter);
    let popped = stack.subrange(i, stack.len() as int);
    closes(popped) + reopen(stack.subrange(0, i), kept(popped, filter), mode, theme)
}

/// The lowest match lies on the stack or is its height; below it nothing
/// matches, and at it stands a match unless it is the height.
pub proof fn lemma_first_match(stack: Seq<Style>, filter: StyleFilter)
    ensures
        0 <= first_match(stack, filter) <= stack.len(),
        forall|j: int| 0 <= j < first_match(stack, filter) ==> !filter.accepts(stack[j]),
        first_match(stack, filter) < stack.len() ==> filter.accepts(
            stack[first_match(stack, filter)],
        ),
    decreases stack.len(),
{
    if stack.len() != 0 && !filter.accepts(stack[0]) {
        let rest = stack.drop_first();
        lemma_first_match(rest, filter);
        assert forall|j: int| 0 <= j < first_match(stack, filter) implies !filter.accepts(
            stack[j],
        ) by {
            if j > 0 {
                assert(rest[j - 1] == stack[j]);
            }
        }
    }
}

/// A place below which nothing matches, and which holds a match or is the
/// height of the stack, is the lowest match.
pub proof fn lemma_first_match_is(stack: Seq<Style>, filter: StyleFilter, i: int)
    requires
        0 <= i <= stack.len(),
        forall|j: int| 0 <= j < i ==> !filter.accepts(stack[j]),
        i < stack.len() ==> filter.accepts(stack[i]),
    ensures
        first_match(stack, filter) == i,
    decreases stack.len(),
{
    if i > 0 {
        let rest = stack.drop_first();
        assert forall|j: int| 0 <= j < i - 1 implies !filter.accepts(rest[j]) by {
            assert(rest[j] == stack[j + 1]);
        }
        lemma_first_match_is(rest, filter, i - 1);
    }
}

/// The renderer: the output so far, and the elements that are open in it.
pub struct AnsiConverter {
    styles: Vec<Style>,
    styles_to_apply: Vec<Style>,
    result: Vec<u8>,
    color_type: FourBitColorType,
    theme: Theme,
    pieces: Ghost<Seq<Piece>>,
}

impl AnsiConverter {
    /// The open elements, lowest first.
    pub closed spec fn stack(&self) -> Seq<Style> {
        self.styles@
    }

    /// The pieces written so far.
    pub closed spec fn pieces(&self) -> Seq<Piece> {
        self.pieces@
    }

    /// The output so far.
    pub closed spec fn html(&self) -> Seq<u8> {
        self.result@
    }

    pub closed spec fn mode(&self) -> ColorMode {
        self.color_type@
    }

    pub closed spec fn theme(&self) -> Theme {
        self.theme
    }

    /// The output is the bytes of the pieces written.
    pub closed spec fn wf(&self) -> bool {
        self.result@ == flatten(self.pieces@) && self.styles_to_apply@.len() == 0
    }

    /// Whether only the stack and the output differ between two renderers.
    pub open spec fn same_setup(&self, other: &AnsiConverter) -> bool {
        self.mode() == other.mode() && self.theme() == other.theme()
    }

    /// A renderer with nothing written and nothing open.
    pub fn new(color_type: FourBitColorType, theme: Theme) -> (converter: Self)
        ensures
            converter.wf(),
            converter.stack() == Seq::<Style>::empty(),
            converter.pieces() == Seq::<Piece>::empty(),
            converter.html() == Seq::<u8>::empty(),
            converter.mode() == color_type@,
            converter.theme() == theme,
    {
        Self {
            styles: Vec::new(),
            styles_to_apply: Vec::new(),
            result: Vec::new(),
            color_type,
            theme,
            pieces: Ghost(Seq::empty()),
        }
    }

    /// Opens `s` on top of the stack.
    pub fn set_style(&mut self, s: Style)
        requires
            old(self).wf(),
        ensures
            final(self).wf(),
            final(self).same_setup(old(self)),
            final(self).stack() == old(self).stack().push(s),
            final(self).pieces() == old(self).pieces().push(
                Piece::Open {
                    style: s,
                    tag: open_tag(s, old(self).stack(), old(self).mode(), old(self).theme()),
                },
            ),
    {
        s.apply(&mut self.result, &self.color_type, &self.styles, self.theme);
        self.styles.push(s);
        proof {
            let piece = Piece::Open {
                style: s,
                tag: open_tag(s, old(self).stack(), old(self).mode(), old(self).theme()),
            };
            self.pieces = Ghost(self.pieces@.push(piece));
            assert(self.pieces@.drop_last() =~= old(self).pieces@);
        }
    }

    /// Appends text as it is.
    pub fn push_str(&mut self, s: &[u8])
        requires
            old(self).wf(),
        ensures
            final(self).wf(),
            final(self).same_setup(old(self)),
            final(self).stack() == old(self).stack(),
            final(self).pieces() == old(self).pieces().push(Piece::Text { bytes: s@ }),
    {
        push_bytes(&mut self.result, s);
        proof {
            self.pieces = Ghost(self.pieces@.push(Piece::Text { bytes: s@ }));
            assert(self.pieces@.drop_last() =~= old(self).pieces@);
        }
    }
}

impl AnsiConverter {
    fn lowest_match(&self, filter: &StyleFilter) -> (i: usize)
        ensures
            i == first_match(self.stack(), *filter),
            i <= self.stack().len(),
    {
        let mut i: usize = 0;
        while i < self.styles.len() && !filter.matches(&self.styles[i])
            invariant
                0 <= i <= self.styles@.len(),
                forall|j: int| 0 <= j < i ==> !filter.accepts(self.styles@[j]),
            decreases self.styles@.len() - i,
        {
            i += 1;
        }
        proof {
            lemma_first_match_is(self.styles@, *filter, i as int);
        }
        i
    }

    /// Takes the styles that `cond` accepts off the stack: closes every
    /// element from the top down to the lowest of them, then opens again, in
    /// their order, the ones that `cond` does not accept.
    pub fn clear_style(&mut self, cond: StyleFilter)
        requires
            old(self).wf(),
        ensures
            final(self).wf(),
            final(self).same_setup(old(self)),
            final(self).stack() == cleared_stack(old(self).stack(), cond),
            final(self).pieces() == old(self).pieces() + clear_pieces(
                old(self).stack(),
                cond,
                old(self).mode(),
                old(self).theme(),
            ),
    {
        let i = self.lowest_match(&cond);
        let ghost stack = self.styles@;
        let ghost n = stack.len() as int;
        let ghost start = self.pieces@;
        let ghost popped = stack.subrange(i as int, n);
        let ghost base = stack.subrange(0, i as int);
        let ghost mode = self.color_type@;
        let ghost theme = self.theme;
        proof {
            assert(stack.subrange(0, n) =~= stack);
            assert(start + closes(stack.subrange(n, n)) =~= start);
            assert(kept(stack.subrange(n, n), cond).reverse() =~= Seq::<Style>::empty());
        }
        while self.styles.len() > i
            invariant
                i <= self.styles@.len() <= n,
                n == stack.len(),
                self.styles@ == stack.subrange(0, self.styles@.len() as int),
                self.pieces@ == start + closes(stack.subrange(self.styles@.len() as int, n)),
                self.styles_to_apply@ == kept(
                    stack.subrange(self.styles@.len() as int, n),
                    cond,
                ).reverse(),
                self.result@ == flatten(self.pieces@),
                self.color_type@ == mode,
                self.theme == theme,
            decreases self.styles@.len(),
        {
            let ghost k = self.styles@.len() as int;
            let ghost before = self.pieces@;
            let style = self.styles.pop().unwrap();
            style.clear(&mut self.result);
            proof {
                let above = stack.subrange(k, n);
                let now = stack.subrange(k - 1, n);
                assert(now.drop_first() =~= above);
                assert(now[0] == style);
                self.pieces = Ghost(before.push(Piece::Close { style }));
                assert(self.pieces@.drop_last() =~= before);
                assert(self.pieces@ =~= start + closes(now));
                assert(self.styles@ =~= stack.subrange(0, k - 1));
                if !cond.accepts(style) {
                    assert(kept(now, cond) =~= seq![style] + kept(above, cond));
                    assert(kept(now, cond).reverse() =~= kept(above, cond).reverse().push(style));
                }
            }
            if !cond.matches(&style) {
                self.styles_to_apply.push(style);
            }
        }
        let ghost remaining = kept(popped, cond);
        let ghost closed = self.pieces@;
        proof {
            assert(self.styles@ =~= base);
            assert(closed + reopen(base, remaining, mode, theme) =~= start + clear_pieces(
                stack,
                cond,
                mode,
                theme,
            ));
            assert(self.styles_to_apply@.reverse() =~= remaining);
        }
        while self.styles_to_apply.len() > 0
            invariant
                self.pieces@ + reopen(
                    self.styles@,
                    self.styles_to_apply@.reverse(),
                    mode,
                    theme,
                ) == closed + reopen(base, remaining, mode, theme),
                self.styles@ + self.styles_to_apply@.reverse() == base + remaining,
                self.result@ == flatten(self.pieces@),
                self.color_type@ == mode,
                self.theme == theme,
            decreases self.styles_to_apply@.len(),
        {
            let ghost before = self.pieces@;
            let ghost below = self.styles@;
            let ghost waiting = self.styles_to_apply@.reverse();
            let style = self.styles_to_apply.pop().unwrap();
            style.apply(&mut self.result, &self.color_type, &self.styles, self.theme);
            self.styles.push(style);
            proof {
                let piece = Piece::Open { style, tag: open_tag(style, below, mode, theme) };
                self.pieces = Ghost(before.push(piece));
                assert(self.pieces@.drop_last() =~= before);
                assert(waiting[0] == style);
                assert(self.styles_to_apply@.reverse() =~= waiting.drop_first());
                assert(before + reopen(below, waiting, mode, theme) =~= self.pieces@ + reopen(
                    self.styles@,
                    waiting.drop_first(),
                    mode,
                    theme,
                ));
                assert(self.styles@ + waiting.drop_first() =~= below + waiting);
            }
        }
        proof {
            assert(self.styles_to_apply@.reverse() =~= Seq::<Style>::empty());
            assert(self.pieces@ =~= closed + reopen(base, remaining, mode, theme));
            assert(self.styles@ =~= base + remaining);
        }
    }

    /// Closes whatever is open and hands out the output.
    pub fn result(self) -> (html: Vec<u8>)
        requires
            self.wf(),
        ensures
            html@ == self@.finish(self.mode(), self.theme()).html(),
    {
        let mut converter = self;
        converter.clear_style(StyleFilter::All);
        converter.result
    }
}

/// What a renderer has done: the elements that are open, and the pieces
/// written.
pub struct Rendering {
    pub stack: Seq<Style>,
    pub pieces: Seq<Piece>,
}

impl Rendering {
    /// Nothing open, nothing written.
    pub open spec fn empty() -> Rendering {
        Rendering { stack: Seq::empty(), pieces: Seq::empty() }
    }

    /// Opens `style` on top of the stack.
    pub open spec fn set(self, style: Style, mode: ColorMode, theme: Theme) -> Rendering {
        Rendering {
            stack: self.stack.push(style),
            pieces: self.pieces.push(
                Piece::Open { style, tag: open_tag(style, self.stack, mode, theme) },
            ),
        }
    }

    /// Takes the styles that `filter` accepts off the stack.
    pub open spec fn clear(self, filter: StyleFilter, mode: ColorMode, theme: Theme) -> Rendering {
        Rendering {
            stack: cleared_stack(self.stack, filter),
            pieces: self.pieces + clear_pieces(self.stack, filter, mode, theme),
        }
    }

    /// Opens `style` unless it is open already.
    pub open spec fn set_once(self, style: Style, mode: ColorMode, theme: Theme) -> Rendering {
        if self.stack.contains(style) {
            self
        } else {
            self.set(style, mode, theme)
        }
    }

    /// Writes text.
    pub open spec fn text(self, bytes: Seq<u8>) -> Rendering {
        Rendering { stack: self.stack, pieces: self.pieces.push(Piece::Text { bytes }) }
    }

    /// Applies one change of style. Bold, faint, italic and inverted open once
    /// only; an underline or a colour takes the place of the one before it;
    /// switching a style off takes it from wherever it stands on the stack.
    pub open spec fn consume(self, ansi: Ansi, mode: ColorMode, theme: Theme) -> Rendering {
        match ansi {
            Ansi::Noop => self,
            Ansi::Reset => self.clear(StyleFilter::All, mode, theme),
            Ansi::Bold => self.set_once(Style::Bold, mode, theme),
            Ansi::Faint => self.set_once(Style::Faint, mode, theme),
            Ansi::Italic => self.set_once(Style::Italic, mode, theme),
            Ansi::Underline => self.clear(StyleFilter::Underline, mode, theme).set(
                Style::Underline(UnderlineStyle::Default),
                mode,
                theme,
            ),
            Ansi::DoubleUnderline => self.clear(StyleFilter::Underline, mode, theme).set(
                Style::Underline(UnderlineStyle::Double),
                mode,
                theme,
            ),
            Ansi::Invert => self.set_once(Style::Inverted, mode, theme),
            Ansi::CrossedOut => self.set(Style::CrossedOut, mode, theme),
            Ansi::BoldAndFaintOff => self.clear(StyleFilter::BoldOrFaint, mode, theme),
            Ansi::ItalicOff => self.clear(StyleFilter::Only(Style::Italic), mode, theme),
            Ansi::UnderlineOff => self.clear(StyleFilter::Underline, mode, theme),
            Ansi::InvertOff => self.clear(StyleFilter::Only(Style::Inverted), mode, theme),
            Ansi::CrossedOutOff => self.clear(StyleFilter::Only(Style::CrossedOut), mode, theme),
            Ansi::ForegroundColor(c) => self.clear(StyleFilter::ForegroundColor, mode, theme).set(
                Style::ForegroundColor(c),
                mode,
                theme,
            ),
            Ansi::DefaultForegroundColor => self.clear(StyleFilter::ForegroundColor, mode, theme),
            Ansi::BackgroundColor(c) => self.clear(StyleFilter::BackgroundColor, mode, theme).set(
                Style::BackgroundColor(c),
                mode,
                theme,
            ),
            Ansi::DefaultBackgroundColor => self.clear(StyleFilter::BackgroundColor, mode, theme),
        }
    }

    /// Closes whatever is open.
    pub open spec fn finish(self, mode: ColorMode, theme: Theme) -> Rendering {
        self.clear(StyleFilter::All, mode, theme)
    }

    /// The output: the bytes of the pieces.
    pub open spec fn html(self) -> Seq<u8> {
        flatten(self.pieces)
    }
}

impl View for AnsiConverter {
    type V = Rendering;

    open spec fn view(&self) -> Rendering {
        Rendering { stack: self.stack(), pieces: self.pieces() }
    }
}

impl AnsiConverter {
    fn set_style_once(&mut self, s: Style)
        requires
            old(self).wf(),
        ensures
            final(self).wf(),
            final(self).same_setup(old(self)),
            final(self)@ == old(self)@.set_once(s, old(self).mode(), old(self).theme()),
    {
        if !contains_style(&self.styles, s) {
            self.set_style(s);
        }
    }

    /// Applies one change of style.
    pub fn consume_ansi_code(&mut self, ansi: Ansi)
        requires
            old(self).wf(),
        ensures
            final(self).wf(),
            final(self).same_setup(old(self)),
            final(self)@ == old(self)@.consume(ansi, old(self).mode(), old(self).theme()),
            ansi == Ansi::Reset && old(self).stack().len() == 0 ==> final(self).html() == old(
                self,
            ).html(),
    {
        proof {
            if old(self).stack().len() == 0 {
                lemma_clear_nothing(old(self).stack(), StyleFilter::All, self.mode(), self.theme());
                assert(self.pieces() + Seq::<Piece>::empty() =~= self.pieces());
            }
        }
        match ansi {
            Ansi::Noop => {},
            Ansi::Reset => self.clear_style(StyleFilter::All),
            Ansi::Bold => self.set_style_once(Style::Bold),
            Ansi::Faint => self.set_style_once(Style::Faint),
            Ansi::Italic => self.set_style_once(Style::Italic),
            Ansi::Underline => {
                self.clear_style(StyleFilter::Underline);
                self.set_style(Style::Underline(UnderlineStyle::Default));
            },
            Ansi::Invert => self.set_style_once(Style::Inverted),
            Ansi::DoubleUnderline => {
                self.clear_style(StyleFilter::Underline);
                self.set_style(Style::Underline(UnderlineStyle::Double))
            },
            Ansi::CrossedOut => self.set_style(Style::CrossedOut),
            Ansi::BoldAndFaintOff => self.clear_style(StyleFilter::BoldOrFaint),
            Ansi::ItalicOff => self.clear_style(StyleFilter::Only(Style::Italic)),
            Ansi::UnderlineOff => self.clear_style(StyleFilter::Underline),
            Ansi::InvertOff => self.clear_style(StyleFilter::Only(Style::Inverted)),
            Ansi::CrossedOutOff => self.clear_style(StyleFilter::Only(Style::CrossedOut)),
            Ansi::ForegroundColor(c) => {
                self.clear_style(StyleFilter::ForegroundColor);
                self.set_style(Style::ForegroundColor(c));
            },
            Ansi::DefaultForegroundColor => self.clear_style(StyleFilter::ForegroundColor),
            Ansi::BackgroundColor(c) => {
                self.clear_style(StyleFilter::BackgroundColor);
                self.set_style(Style::BackgroundColor(c));
            },
            Ansi::DefaultBackgroundColor => self.clear_style(StyleFilter::BackgroundColor),
        }
    }
}

/// Where `filter` accepts nothing on the stack, taking its styles off
/// changes nothing and writes nothing.
pub proof fn lemma_clear_nothing(
    stack: Seq<Style>,
    filter: StyleFilter,
    mode: ColorMode,
    theme: Theme,
)
    requires
        forall|j: int| 0 <= j < stack.len() ==> !filter.accepts(stack[j]),
    ensures
        cleared_stack(stack, filter) == stack,
        clear_pieces(stack, filter, mode, theme) == Seq::<Piece>::empty(),
{
    lemma_first_match_is(stack, filter, stack.len() as int);
    let n = stack.len() as int;
    assert(stack.subrange(0, n) + kept(stack.subrange(n, n), filter) =~= stack);
    assert(closes(stack.subrange(n, n)) + reopen(
        stack.subrange(0, n),
        kept(stack.subrange(n, n), filter),
        mode,
        theme,
    ) =~= Seq::<Piece>::empty());
}

} // verus!
