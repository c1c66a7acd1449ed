//! The minifier: holds changes of style back until text arrives, and hands
//! them to the renderer only where they change how the text looks.

use vstd::prelude::*;
use crate::ansi::Ansi;
use crate::color::{Color, ColorMode, FourBitColorType};
use crate::html::{AnsiConverter, Rendering, Theme, UnderlineStyle};

verus! {

/// How text looks: what a run of changes of style comes to.
#[derive(Clone, Copy, Debug, PartialEq, Eq, Structural)]
pub struct CurrentStyling {
    pub fg: Option<Color>,
    pub bg: Option<Color>,
    pub bold: bool,
    pub faint: bool,
    pub italic: bool,
    pub underline: Option<UnderlineStyle>,
    pub crossed_out: bool,
    pub inverted: bool,
}

impl CurrentStyling {
    /// Plain text.
    pub open spec fn plain() -> CurrentStyling {
        CurrentStyling {
            fg: None,
            bg: None,
            bold: false,
            faint: false,
            italic: false,
            underline: None,
            crossed_out: false,
            inverted: false,
        }
    }

    /// The look after one change of style.
    pub open spec fn after(self, ansi: Ansi) -> CurrentStyling {
        match ansi {
            Ansi::Noop => self,
            Ansi::Reset => CurrentStyling::plain(),
            Ansi::Bold => CurrentStyling { bold: true, ..self },
            Ansi::Faint => CurrentStyling { faint: true, ..self },
            Ansi::Italic => CurrentStyling { italic: true, ..self },
            Ansi::Underline => CurrentStyling {
                underline: Some(UnderlineStyle::Default),
                ..self
            },
            Ansi::DoubleUnderline => CurrentStyling {
                underline: Some(UnderlineStyle::Double),
                ..self
            },
            Ansi::Invert => CurrentStyling { inverted: true, ..self },
            Ansi::CrossedOut => CurrentStyling { crossed_out: true, ..self },
            Ansi::BoldAndFaintOff => CurrentStyling { bold: false, faint: false, ..self },
            Ansi::ItalicOff => CurrentStyling { italic: false, ..self },
            Ansi::UnderlineOff => CurrentStyling { underline: None, ..self },
            Ansi::InvertOff => CurrentStyling { inverted: false, ..self },
            Ansi::CrossedOutOff => CurrentStyling { crossed_out: false, ..self },
            Ansi::ForegroundColor(c) => CurrentStyling { fg: Some(c), ..self },
            Ansi::DefaultForegroundColor => CurrentStyling { fg: None, ..self },
            Ansi::BackgroundColor(c) => CurrentStyling { bg: Some(c), ..self },
            Ansi::DefaultBackgroundColor => CurrentStyling { bg: None, ..self },
        }
    }

    /// The look after some changes of style, in order.
    pub open spec fn after_all(self, events: Seq<Ansi>) -> CurrentStyling
        decreases events.len(),
    {
        if events.len() == 0 {
            self
        } else {
            self.after(events[0]).after_all(events.drop_first())
        }
    }

    /// Plain text.
    pub fn new() -> (styling: CurrentStyling)
        ensures
            styling == CurrentStyling::plain(),
    {
        CurrentStyling {
            fg: None,
            bg: None,
            bold: false,
            faint: false,
            italic: false,
            underline: None,
            crossed_out: false,
            inverted: false,
        }
    }

    /// Applies one change of style.
    pub fn apply(&mut self, ansi: Ansi)
        ensures
            *final(self) == old(self).after(ansi),
    {
        match ansi {
            Ansi::Noop => {},
            Ansi::Reset => {
                *self = CurrentStyling::new();
            },
            Ansi::Bold => {
                self.bold = true;
            },
            Ansi::Faint => {
                self.faint = true;
            },
            Ansi::Italic => {
                self.italic = true;
            },
            Ansi::Underline => {
                self.underline = Some(UnderlineStyle::Default);
            },
            Ansi::DoubleUnderline => {
                self.underline = Some(UnderlineStyle::Double);
            },
            Ansi::Invert => {
                self.inverted = true;
            },
            Ansi::CrossedOut => {
                self.crossed_out = true;
            },
            Ansi::BoldAndFaintOff => {
                self.bold = false;
                self.faint = false;
            },
            Ansi::ItalicOff => {
                self.italic = false;
            },
            Ansi::UnderlineOff => {
                self.underline = None;
            },
            Ansi::InvertOff => {
                self.inverted = false;
            },
            Ansi::CrossedOutOff => {
                self.crossed_out = false;
            },
            Ansi::ForegroundColor(c) => {
                self.fg = Some(c);
            },
            Ansi::DefaultForegroundColor => {
                self.fg = None;
            },
            Ansi::BackgroundColor(c) => {
                self.bg = Some(c);
            },
            Ansi::DefaultBackgroundColor => {
                self.bg = None;
            },
        }
    }
}

impl Rendering {
    /// Applies some changes of style, in order.
    pub open spec fn consume_all(
        self,
        events: Seq<Ansi>,
        mode: ColorMode,
        theme: Theme,
    ) -> Rendering
        decreases events.len(),
    {
        if events.len() == 0 {
            self
        } else {
            self.consume(events[0], mode, theme).consume_all(events.drop_first(), mode, theme)
        }
    }
}

/// What a minifier holds: the changes of style held back, the look of the
/// text before them, and what the renderer has done.
pub struct Minified {
    pub buffer: Seq<Ansi>,
    pub styling: CurrentStyling,
    pub rendering: Rendering,
}

impl Minified {
    /// Nothing held back, nothing written.
    pub open spec fn empty() -> Minified {
        Minified {
            buffer: Seq::empty(),
            styling: CurrentStyling::plain(),
            rendering: Rendering::empty(),
        }
    }

    /// Holds one more change of style back.
    pub open spec fn hold(self, ansi: Ansi) -> Minified {
        Minified { buffer: self.buffer.push(ansi), ..self }
    }

    /// Lets go of what is held back: the renderer gets all of it where it
    /// changes the look of the text, and none of it where it does not.
    pub open spec fn flush(self, mode: ColorMode, theme: Theme) -> Minified {
        let styling = self.styling.after_all(self.buffer);
        Minified {
            buffer: Seq::empty(),
            styling,
            rendering: if styling != self.styling {
                self.rendering.consume_all(self.buffer, mode, theme)
            } else {
                self.rendering
            },
        }
    }

    /// Lets go of what is held back, then writes text.
    pub open spec fn text(self, bytes: Seq<u8>, mode: ColorMode, theme: Theme) -> Minified {
        let flushed = self.flush(mode, theme);
        Minified { rendering: flushed.rendering.text(bytes), ..flushed }
    }

    /// Lets go of what is held back and closes whatever is open.
    pub open spec fn finish(self, mode: ColorMode, theme: Theme) -> Rendering {
        self.flush(mode, theme).rendering.finish(mode, theme)
    }
}

/// A renderer behind a buffer of changes of style.
pub struct Minifier {
    code_buffer: Vec<Ansi>,
    current_styling: CurrentStyling,
    converter: AnsiConverter,
}

impl View for Minifier {
    type V = Minified;

    closed spec fn view(&self) -> Minified {
        Minified {
            buffer: self.code_buffer@,
            styling: self.current_styling,
            rendering: self.converter@,
        }
    }
}

impl Minifier {
    pub closed spec fn wf(&self) -> bool {
        self.converter.wf()
    }

    pub closed spec fn mode(&self) -> ColorMode {
        self.converter.mode()
    }

    pub closed spec fn theme(&self) -> Theme {
        self.converter.theme()
    }

    /// Whether two minifiers write colours alike.
    pub open spec fn same_setup(&self, other: &Minifier) -> bool {
        self.mode() == other.mode() && self.theme() == other.theme()
    }

    /// A minifier with nothing held back and nothing written.
    pub fn new(color_type: FourBitColorType, theme: Theme) -> (minifier: Self)
        ensures
            minifier.wf(),
            minifier@ == Minified::empty(),
            minifier.mode() == color_type@,
            minifier.theme() == theme,
    {
        Self {
            code_buffer: Vec::new(),
            current_styling: CurrentStyling::new(),
            converter: AnsiConverter::new(color_type, theme),
        }
    }

    /// Lets go of the changes of style held back: the renderer gets them
    /// where they change the look of the text.
    fn apply_ansi_codes(&mut self)
        requires
            old(self).wf(),
        ensures
            final(self).wf(),
            final(self).same_setup(old(self)),
            final(self)@ == old(self)@.flush(old(self).mode(), old(self).theme()),
    {
        let prev_styling = self.current_styling;
        let ghost buffer = self.code_buffer@;
        let ghost mode = self.converter.mode();
        let ghost theme = self.converter.theme();
        let n: usize = self.code_buffer.len();
        let mut i: usize = 0;
        assert(buffer.subrange(0, n as int) =~= buffer);
        while i < n
            invariant
                0 <= i <= n,
                n == buffer.len(),
                self.code_buffer@ == buffer,
                self.converter == old(self).converter,
                prev_styling.after_all(buffer) == self.current_styling.after_all(
                    buffer.subrange(i as int, n as int),
                ),
            decreases n - i,
        {
            assert(buffer.subrange(i as int, n as int).drop_first() =~= buffer.subrange(
                i + 1,
                n as int,
            ));
            let code = self.code_buffer[i];
            self.current_styling.apply(code);
            i += 1;
        }
        if prev_styling != self.current_styling {
            let mut j: usize = 0;
            while j < n
                invariant
                    0 <= j <= n,
                    n == buffer.len(),
                    self.code_buffer@ == buffer,
                    self.current_styling == prev_styling.after_all(buffer),
                    self.converter.wf(),
                    self.converter.mode() == mode,
                    self.converter.theme() == theme,
                    old(self).converter@.consume_all(buffer, mode, theme)
                        == self.converter@.consume_all(
                        buffer.subrange(j as int, n as int),
                        mode,
                        theme,
                    ),
                decreases n - j,
            {
                assert(buffer.subrange(j as int, n as int).drop_first() =~= buffer.subrange(
                    j + 1,
                    n as int,
                ));
                let code = self.code_buffer[j];
                self.converter.consume_ansi_code(code);
                j += 1;
            }
        }
        self.code_buffer.clear();
    }

    /// Holds a reset back.
    pub fn clear_styles(&mut self)
        requires
            old(self).wf(),
        ensures
            final(self).wf(),
            final(self).same_setup(old(self)),
            final(self)@ == old(self)@.hold(Ansi::Reset),
    {
        self.push_ansi_code(Ansi::Reset);
    }

    /// Holds a change of style back.
    pub fn push_ansi_code(&mut self, ansi: Ansi)
        requires
            old(self).wf(),
        ensures
            final(self).wf(),
            final(self).same_setup(old(self)),
            final(self)@ == old(self)@.hold(ansi),
    {
        self.code_buffer.push(ansi);
    }

    /// Writes text, after what was held back.
    pub fn push_str(&mut self, text: &[u8])
        requires
            old(self).wf(),
        ensures
            final(self).wf(),
            final(self).same_setup(old(self)),
            final(self)@ == old(self)@.text(text@, old(self).mode(), old(self).theme()),
    {
        self.apply_ansi_codes();
        self.converter.push_str(text);
    }

    /// Lets go of what is held back, closes whatever is open and hands out
    /// the output.
    pub fn to_html(self) -> (html: Vec<u8>)
        requires
            self.wf(),
        ensures
            html@ == self@.finish(self.mode(), self.theme()).html(),
    {
        let mut minifier = self;
        minifier.apply_ansi_codes();
        minifier.converter.result()
    }
}

} // verus!
