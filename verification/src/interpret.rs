//! Reading HTML back: from the tags and the text of a document to runs of
//! text, each with the styles that were open around it.

use vstd::prelude::*;
use vstd::string::StringExecFns;
use crate::html::UnderlineStyle;

verus! {

/// An attribute of a tag.
#[derive(Clone, Debug, PartialEq, Eq, PartialOrd, Ord)]
pub struct Attr {
    pub name: String,
    pub value: String,
}

/// What an attribute holds, as plain values.
pub struct AttrView {
    pub name: Seq<char>,
    pub value: Seq<char>,
}

impl View for Attr {
    type V = AttrView;

    open spec fn view(&self) -> AttrView {
        AttrView { name: self.name@, value: self.value@ }
    }
}

/// What attributes hold, as plain values.
pub open spec fn attrs_view(attrs: Seq<Attr>) -> Seq<AttrView> {
    Seq::new(attrs.len(), |i: int| attrs[i]@)
}

impl Attr {
    pub fn new(name: &str, value: &str) -> (attr: Attr)
        ensures
            attr@ == (AttrView { name: name@, value: value@ }),
    {
        Attr { name: String::from_str(name), value: String::from_str(value) }
    }

    /// Whether two attributes have the same name and value.
    pub fn same_as(&self, other: &Attr) -> (same: bool)
        ensures
            same == (self@ == other@),
    {
        self.name == other.name && self.value == other.value
    }

    fn copy(&self) -> (attr: Attr)
        ensures
            attr@ == self@,
    {
        Attr { name: self.name.clone(), value: self.value.clone() }
    }
}

/// Whether two lists of attributes hold the same attributes in the same
/// order.
pub fn same_attrs(a: &Vec<Attr>, b: &Vec<Attr>) -> (same: bool)
    ensures
        same == (attrs_view(a@) == attrs_view(b@)),
{
    if a.len() != b.len() {
        assert(attrs_view(a@).len() != attrs_view(b@).len());
        return false;
    }
    let mut i: usize = 0;
    while i < a.len()
        invariant
            0 <= i <= a@.len(),
            a@.len() == b@.len(),
            forall|j: int| 0 <= j < i ==> a@[j]@ == b@[j]@,
        decreases a@.len() - i,
    {
        if !a[i].same_as(&b[i]) {
            assert(attrs_view(a@)[i as int] != attrs_view(b@)[i as int]);
            return false;
        }
        i += 1;
    }
    assert(attrs_view(a@) =~= attrs_view(b@));
    true
}

fn copy_attrs(attrs: &Vec<Attr>) -> (copy: Vec<Attr>)
    ensures
        attrs_view(copy@) == attrs_view(attrs@),
{
    let mut copy: Vec<Attr> = Vec::new();
    let mut i: usize = 0;
    while i < attrs.len()
        invariant
            0 <= i <= attrs@.len(),
            copy@.len() == i,
            forall|j: int| 0 <= j < i ==> copy@[j]@ == attrs@[j]@,
        decreases attrs@.len() - i,
    {
        copy.push(attrs[i].copy());
        i += 1;
    }
    assert(attrs_view(copy@) =~= attrs_view(attrs@));
    copy
}

/// A tag as it stands in the document.
#[derive(Clone, Debug, PartialEq, Eq)]
pub enum RawStyle {
    Bold,
    Italic,
    Underlined(Vec<Attr>),
    CrossedOut,
    Span(Vec<Attr>),
}

/// What a tag holds, as plain values.
pub enum RawStyleView {
    Bold,
    Italic,
    Underlined(Seq<AttrView>),
    CrossedOut,
    Span(Seq<AttrView>),
}

impl View for RawStyle {
    type V = RawStyleView;

    open spec fn view(&self) -> RawStyleView {
        match *self {
            RawStyle::Bold => RawStyleView::Bold,
            RawStyle::Italic => RawStyleView::Italic,
            RawStyle::Underlined(attrs) => RawStyleView::Underlined(attrs_view(attrs@)),
            RawStyle::CrossedOut => RawStyleView::CrossedOut,
            RawStyle::Span(attrs) => RawStyleView::Span(attrs_view(attrs@)),
        }
    }
}

/// What tags hold, as plain values.
pub open spec fn raw_styles_view(styles: Seq<RawStyle>) -> Seq<RawStyleView> {
    Seq::new(styles.len(), |i: int| styles[i]@)
}

/// The attribute of a doubly underlined element.
pub open spec fn double_attr() -> AttrView {
    AttrView { name: "style"@, value: "text-decoration-style:double"@ }
}

impl RawStyleView {
    /// Whether the tag is one that this library writes: an underlined
    /// element has no attribute, or the one of a double underline.
    pub open spec fn known(self) -> bool {
        self matches RawStyleView::Underlined(attrs) ==> attrs.len() == 0 || attrs == seq![
            double_attr(),
        ]
    }

    /// The tag without its attributes, as it stands where the element ends.
    pub open spec fn bare(self) -> RawStyleView {
        match self {
            RawStyleView::Underlined(_) => RawStyleView::Underlined(Seq::empty()),
            RawStyleView::Span(_) => RawStyleView::Span(Seq::empty()),
            other => other,
        }
    }
}

impl RawStyle {
    /// Whether two tags are the same, attributes included.
    pub fn same_as(&self, other: &RawStyle) -> (same: bool)
        ensures
            same == (self@ == other@),
    {
        match (self, other) {
            (RawStyle::Bold, RawStyle::Bold) => true,
            (RawStyle::Italic, RawStyle::Italic) => true,
            (RawStyle::CrossedOut, RawStyle::CrossedOut) => true,
            (RawStyle::Underlined(a), RawStyle::Underlined(b)) => same_attrs(a, b),
            (RawStyle::Span(a), RawStyle::Span(b)) => same_attrs(a, b),
            _ => false,
        }
    }

    fn copy(&self) -> (style: RawStyle)
        ensures
            style@ == self@,
    {
        match self {
            RawStyle::Bold => RawStyle::Bold,
            RawStyle::Italic => RawStyle::Italic,
            RawStyle::CrossedOut => RawStyle::CrossedOut,
            RawStyle::Underlined(attrs) => RawStyle::Underlined(copy_attrs(attrs)),
            RawStyle::Span(attrs) => RawStyle::Span(copy_attrs(attrs)),
        }
    }

    /// Whether the tag is one that this library writes.
    pub fn is_known(&self) -> (known: bool)
        ensures
            known == self@.known(),
    {
        match self {
            RawStyle::Underlined(attrs) => {
                if attrs.len() == 0 {
                    true
                } else if attrs.len() == 1 {
                    let double = Attr::new("style", "text-decoration-style:double");
                    let same = attrs[0].same_as(&double);
                    proof {
                        let got = attrs_view(attrs@);
                        if same {
                            assert(got =~= seq![double_attr()]);
                        } else {
                            assert(got[0] != seq![double_attr()][0]);
                        }
                    }
                    same
                } else {
                    assert(attrs_view(attrs@).len() != seq![double_attr()].len());
                    false
                }
            },
            _ => true,
        }
    }

    fn into_bare(self) -> (style: RawStyle)
        ensures
            style@ == self@.bare(),
    {
        match self {
            RawStyle::Underlined(_) => {
                let none: Vec<Attr> = Vec::new();
                assert(attrs_view(none@) =~= Seq::<AttrView>::empty());
                RawStyle::Underlined(none)
            },
            RawStyle::Span(_) => {
                let none: Vec<Attr> = Vec::new();
                assert(attrs_view(none@) =~= Seq::<AttrView>::empty());
                RawStyle::Span(none)
            },
            other => other,
        }
    }
}

/// The styles around a run of text. Spans are known by their attributes;
/// neither their order nor their number counts.
#[derive(Debug)]
pub struct Styles {
    bold: bool,
    italic: bool,
    underlined: Option<UnderlineStyle>,
    crossed_out: bool,
    spans: Vec<Vec<Attr>>,
}

/// What styles hold, as plain values.
pub struct StylesView {
    pub bold: bool,
    pub italic: bool,
    pub underlined: Option<UnderlineStyle>,
    pub crossed_out: bool,
    pub spans: Set<Seq<AttrView>>,
}

/// The spans that a list of spans holds.
pub open spec fn span_set(spans: Seq<Vec<Attr>>) -> Set<Seq<AttrView>> {
    Set::new(|s: Seq<AttrView>| exists|i: int| 0 <= i < spans.len() && attrs_view(spans[i]@) == s)
}

impl View for Styles {
    type V = StylesView;

    closed spec fn view(&self) -> StylesView {
        StylesView {
            bold: self.bold,
            italic: self.italic,
            underlined: self.underlined,
            crossed_out: self.crossed_out,
            spans: span_set(self.spans@),
        }
    }
}

impl StylesView {
    /// No style at all.
    pub open spec fn plain() -> StylesView {
        StylesView {
            bold: false,
            italic: false,
            underlined: None,
            crossed_out: false,
            spans: Set::empty(),
        }
    }

    /// The styles inside one more element.
    pub open spec fn inside(self, style: RawStyleView) -> StylesView {
        match style {
            RawStyleView::Bold => StylesView { bold: true, ..self },
            RawStyleView::Italic => StylesView { italic: true, ..self },
            RawStyleView::Underlined(attrs) => StylesView {
                underlined: Some(
                    if attrs.len() == 0 {
                        UnderlineStyle::Default
                    } else {
                        UnderlineStyle::Double
                    },
                ),
                ..self
            },
            RawStyleView::CrossedOut => StylesView { crossed_out: true, ..self },
            RawStyleView::Span(attrs) => StylesView { spans: self.spans.insert(attrs), ..self },
        }
    }

    /// The styles inside `open`, outermost first.
    pub open spec fn of(open: Seq<RawStyleView>) -> StylesView
        decreases open.len(),
    {
        if open.len() == 0 {
            StylesView::plain()
        } else {
            StylesView::of(open.drop_last()).inside(open.last())
        }
    }
}

/// Whether each of `styles` is a tag that this library writes.
pub open spec fn all_known(styles: Seq<RawStyleView>) -> bool {
    forall|i: int| 0 <= i < styles.len() ==> (#[trigger] styles[i]).known()
}

fn has_span(spans: &Vec<Vec<Attr>>, span: &Vec<Attr>) -> (found: bool)
    ensures
        found == span_set(spans@).contains(attrs_view(span@)),
{
    let mut i: usize = 0;
    while i < spans.len()
        invariant
            0 <= i <= spans@.len(),
            forall|j: int| 0 <= j < i ==> attrs_view(spans@[j]@) != attrs_view(span@),
        decreases spans@.len() - i,
    {
        if same_attrs(&spans[i], span) {
            return true;
        }
        i += 1;
    }
    false
}

fn covers(spans: &Vec<Vec<Attr>>, other: &Vec<Vec<Attr>>) -> (all: bool)
    ensures
        all == span_set(other@).subset_of(span_set(spans@)),
{
    let mut i: usize = 0;
    while i < other.len()
        invariant
            0 <= i <= other@.len(),
            forall|j: int| 0 <= j < i ==> span_set(spans@).contains(attrs_view(other@[j]@)),
        decreases other@.len() - i,
    {
        if !has_span(spans, &other[i]) {
            assert(span_set(other@).contains(attrs_view(other@[i as int]@)));
            return false;
        }
        i += 1;
    }
    true
}

impl Styles {
    /// The styles inside `raw_styles`, outermost first.
    pub fn new(raw_styles: &Vec<RawStyle>) -> (styles: Styles)
        requires
            all_known(raw_styles_view(raw_styles@)),
        ensures
            styles@ == StylesView::of(raw_styles_view(raw_styles@)),
    {
        let mut styles = Styles {
            bold: false,
            italic: false,
            underlined: None,
            crossed_out: false,
            spans: Vec::new(),
        };
        let ghost all = raw_styles_view(raw_styles@);
        assert(styles@.spans =~= Set::<Seq<AttrView>>::empty());
        assert(all.subrange(0, 0) =~= Seq::<RawStyleView>::empty());
        let mut i: usize = 0;
        while i < raw_styles.len()
            invariant
                0 <= i <= raw_styles@.len(),
                all == raw_styles_view(raw_styles@),
                all_known(all),
                styles@ == StylesView::of(all.subrange(0, i as int)),
            decreases raw_styles@.len() - i,
        {
            assert(all.subrange(0, i + 1).drop_last() =~= all.subrange(0, i as int));
            assert(all[i as int].known());
            styles = styles.apply(raw_styles[i].copy());
            i += 1;
        }
        assert(all.subrange(0, i as int) =~= all);
        styles
    }

    /// The styles inside one more element.
    pub fn apply(self, raw_style: RawStyle) -> (styles: Styles)
        requires
            raw_style@.known(),
        ensures
            styles@ == self@.inside(raw_style@),
    {
        let mut styles = self;
        match raw_style {
            RawStyle::Bold => {
                styles.bold = true;
            },
            RawStyle::Italic => {
                styles.italic = true;
            },
            RawStyle::Underlined(attrs) => {
                styles.underlined = Some(
                    if attrs.len() == 0 {
                        UnderlineStyle::Default
                    } else {
                        UnderlineStyle::Double
                    },
                );
            },
            RawStyle::CrossedOut => {
                styles.crossed_out = true;
            },
            RawStyle::Span(span) => {
                let ghost before = styles.spans@;
                let ghost added = attrs_view(span@);
                styles.spans.push(span);
                proof {
                    let after = styles.spans@;
                    assert forall|s: Seq<AttrView>| span_set(after).contains(s) == span_set(
                        before,
                    ).insert(added).contains(s) by {
                        if span_set(before).contains(s) {
                            let j = choose|j: int|
                                0 <= j < before.len() && attrs_view(before[j]@) == s;
                            assert(attrs_view(after[j]@) == s);
                        }
                        if s == added {
                            assert(attrs_view(after[before.len() as int]@) == s);
                        }
                    }
                    assert(span_set(after) =~= span_set(before).insert(added));
                }
            },
        }
        styles
    }

    /// Whether two sets of styles are the same.
    pub fn same_as(&self, other: &Styles) -> (same: bool)
        ensures
            same == (self@ == other@),
    {
        let flags = self.bold == other.bold && self.italic == other.italic && self.underlined
            == other.underlined && self.crossed_out == other.crossed_out;
        if !flags {
            return false;
        }
        let same = covers(&self.spans, &other.spans) && covers(&other.spans, &self.spans);
        proof {
            if same {
                assert(span_set(self.spans@) =~= span_set(other.spans@));
            }
        }
        same
    }
}

/// A run of text with the styles around it.
#[derive(Debug)]
pub struct StylizedText {
    pub styles: Styles,
    pub text: String,
}

/// What a run holds, as plain values.
pub struct StylizedTextView {
    pub styles: StylesView,
    pub text: Seq<char>,
}

impl View for StylizedText {
    type V = StylizedTextView;

    open spec fn view(&self) -> StylizedTextView {
        StylizedTextView { styles: self.styles@, text: self.text@ }
    }
}

/// What runs hold, as plain values.
pub open spec fn texts_view(texts: Seq<StylizedText>) -> Seq<StylizedTextView> {
    Seq::new(texts.len(), |i: int| texts[i]@)
}

impl StylizedText {
    pub fn new(styles: Styles, text: String) -> (run: Self)
        ensures
            run@ == (StylizedTextView { styles: styles@, text: text@ }),
    {
        Self { styles, text }
    }

    /// A run without text.
    pub fn empty(styles: Styles) -> (run: Self)
        ensures
            run@ == (StylizedTextView { styles: styles@, text: Seq::empty() }),
    {
        let text = String::new();
        Self { styles, text }
    }

    /// Whether two runs hold the same text with the same styles.
    pub fn same_as(&self, other: &StylizedText) -> (same: bool)
        ensures
            same == (self@ == other@),
    {
        self.styles.same_as(&other.styles) && self.text == other.text
    }
}

/// Runs without the empty ones, and with each run joined to the one before
/// it where the two have the same styles.
pub open spec fn normalized_texts(texts: Seq<StylizedTextView>) -> Seq<StylizedTextView>
    decreases texts.len(),
{
    if texts.len() == 0 {
        Seq::empty()
    } else {
        let before = normalized_texts(texts.drop_last());
        let run = texts.last();
        if run.text.len() == 0 {
            before
        } else if before.len() > 0 && before.last().styles == run.styles {
            before.drop_last().push(
                StylizedTextView { styles: run.styles, text: before.last().text + run.text },
            )
        } else {
            before.push(run)
        }
    }
}

/// Drops the empty runs, and joins each run to the one before it where the
/// two have the same styles.
pub fn normalize_output(texts: Vec<StylizedText>) -> (normal: Vec<StylizedText>)
    ensures
        texts_view(normal@) == normalized_texts(texts_view(texts@)),
{
    let ghost all = texts_view(texts@);
    let mut left = texts;
    let mut rest: Vec<StylizedText> = Vec::new();
    // The runs are taken from the end, so `rest` holds them last first.
    while left.len() > 0
        invariant
            rest@.len() + left@.len() == all.len(),
            forall|j: int| 0 <= j < left@.len() ==> left@[j]@ == all[j],
            forall|j: int| 0 <= j < rest@.len() ==> rest@[j]@ == all[all.len() - 1 - j],
        decreases left@.len(),
    {
        let run = left.pop().unwrap();
        rest.push(run);
    }
    let mut normal: Vec<StylizedText> = Vec::new();
    let ghost mut done: int = 0;
    proof {
        assert(all.subrange(0, 0) =~= Seq::<StylizedTextView>::empty());
        assert(texts_view(normal@) =~= Seq::<StylizedTextView>::empty());
    }
    while rest.len() > 0
        invariant
            0 <= done <= all.len(),
            rest@.len() + done == all.len(),
            forall|j: int| 0 <= j < rest@.len() ==> rest@[j]@ == all[all.len() - 1 - j],
            texts_view(normal@) == normalized_texts(all.subrange(0, done)),
        decreases rest@.len(),
    {
        let run = rest.pop().unwrap();
        let ghost before = texts_view(normal@);
        proof {
            assert(run@ == all[done]);
            assert(all.subrange(0, done + 1).drop_last() =~= all.subrange(0, done));
            assert(all.subrange(0, done + 1).last() == all[done]);
        }
        if run.text.as_str().is_empty() {
        } else {
            let joins = normal.len() > 0 && normal[normal.len() - 1].styles.same_as(&run.styles);
            if joins {
                let top = normal.pop().unwrap();
                let StylizedText { styles, text } = top;
                let mut text = text;
                text.append(run.text.as_str());
                normal.push(StylizedText { styles, text });
                proof {
                    assert(texts_view(normal@) =~= before.drop_last().push(
                        StylizedTextView {
                            styles: run@.styles,
                            text: before.last().text + run@.text,
                        },
                    ));
                }
            } else {
                normal.push(run);
                proof {
                    assert(texts_view(normal@) =~= before.push(all[done]));
                }
            }
        }
        proof {
            done = done + 1;
        }
    }
    assert(all.subrange(0, done) =~= all);
    normal
}

/// What the reader of a document holds: the tag that was just opened, the
/// tags that are open below it, the text that has not been handed out yet,
/// and the runs found so far.
pub struct Inner {
    pending_style: Option<RawStyle>,
    raw_styles: Vec<RawStyle>,
    pending_text: Option<String>,
    output: Vec<StylizedText>,
}

/// What the reader holds, as plain values.
pub struct InnerView {
    pub pending_style: Option<RawStyleView>,
    pub raw_styles: Seq<RawStyleView>,
    pub pending_text: Option<Seq<char>>,
    pub output: Seq<StylizedTextView>,
}

impl InnerView {
    /// A reader at the start of a document.
    pub open spec fn start() -> InnerView {
        InnerView {
            pending_style: None,
            raw_styles: Seq::empty(),
            pending_text: None,
            output: Seq::empty(),
        }
    }

    /// Every tag that the reader holds is one that this library writes.
    pub open spec fn known(self) -> bool {
        &&& all_known(self.raw_styles)
        &&& self.pending_style matches Some(s) ==> s.known()
    }

    /// Hands the text out that has come since the last tag, unless a tag was
    /// just opened: then there is none.
    pub open spec fn emit_pending_text(self) -> InnerView {
        if self.pending_style is Some {
            self
        } else {
            match self.pending_text {
                Some(text) => InnerView {
                    pending_text: None,
                    output: self.output.push(
                        StylizedTextView { styles: StylesView::of(self.raw_styles), text },
                    ),
                    ..self
                },
                None => self,
            }
        }
    }

    /// The tags that are open below the one just opened, and that one on
    /// top of them once something comes after it.
    pub open spec fn settled(self) -> Seq<RawStyleView> {
        match self.pending_style {
            Some(s) => self.raw_styles.push(s),
            None => self.raw_styles,
        }
    }

    /// Reads a tag that opens an element.
    pub open spec fn apply_start_style(self, style: RawStyleView) -> InnerView {
        let emitted = self.emit_pending_text();
        InnerView { pending_style: Some(style), raw_styles: emitted.settled(), ..emitted }
    }

    /// The tag of the innermost open element.
    pub open spec fn innermost(self) -> RawStyleView
        recommends
            self.settled().len() > 0,
    {
        self.settled().last()
    }

    /// Reads a tag that closes the innermost element. An element that was
    /// just opened gives a run without text.
    pub open spec fn apply_end_style(self) -> InnerView {
        let emitted = self.emit_pending_text();
        match emitted.pending_style {
            Some(s) => InnerView {
                pending_style: None,
                output: emitted.output.push(
                    StylizedTextView {
                        styles: StylesView::of(emitted.raw_styles).inside(s),
                        text: Seq::empty(),
                    },
                ),
                ..emitted
            },
            None => InnerView { raw_styles: emitted.raw_styles.drop_last(), ..emitted },
        }
    }

    /// Reads text.
    pub open spec fn push_pending_text(self, s: Seq<char>) -> InnerView {
        InnerView {
            pending_style: None,
            raw_styles: self.settled(),
            pending_text: Some(
                match self.pending_text {
                    Some(text) => text + s,
                    None => s,
                },
            ),
            ..self
        }
    }
}

impl View for Inner {
    type V = InnerView;

    closed spec fn view(&self) -> InnerView {
        InnerView {
            pending_style: match self.pending_style {
                Some(s) => Some(s@),
                None => None,
            },
            raw_styles: raw_styles_view(self.raw_styles@),
            pending_text: match self.pending_text {
                Some(t) => Some(t@),
                None => None,
            },
            output: texts_view(self.output@),
        }
    }
}

impl Inner {
    /// A reader at the start of a document.
    pub fn new() -> (inner: Inner)
        ensures
            inner@ == InnerView::start(),
    {
        let inner = Inner {
            pending_style: None,
            raw_styles: Vec::new(),
            pending_text: None,
            output: Vec::new(),
        };
        assert(raw_styles_view(inner.raw_styles@) =~= Seq::<RawStyleView>::empty());
        assert(texts_view(inner.output@) =~= Seq::<StylizedTextView>::empty());
        inner
    }

    fn settle(&mut self)
        ensures
            final(self)@ == (InnerView {
                pending_style: None,
                raw_styles: old(self)@.settled(),
                ..old(self)@
            }),
    {
        let ghost before = raw_styles_view(self.raw_styles@);
        match self.pending_style.take() {
            Some(pending) => {
                self.raw_styles.push(pending);
                assert(raw_styles_view(self.raw_styles@) =~= before.push(pending@));
            },
            None => {},
        }
    }

    /// Reads a tag that opens an element.
    pub fn apply_start_style(&mut self, style: RawStyle)
        requires
            old(self)@.known(),
            style@.known(),
        ensures
            final(self)@ == old(self)@.apply_start_style(style@),
            final(self)@.known(),
    {
        self.emit_pending_text();
        self.settle();
        self.pending_style = Some(style);
    }

    /// Reads a tag that closes an element. It must close the innermost
    /// element that is open.
    pub fn apply_end_style(&mut self, style: RawStyle)
        requires
            old(self)@.known(),
            old(self)@.settled().len() > 0,
            old(self)@.innermost().bare() == style@,
        ensures
            final(self)@ == old(self)@.apply_end_style(),
            final(self)@.known(),
    {
        self.emit_pending_text();
        let ghost before = self@;
        match self.pending_style.take() {
            Some(style) => {
                let styles = Styles::new(&self.raw_styles).apply(style.copy());
                let ghost runs = texts_view(self.output@);
                self.output.push(StylizedText::empty(styles));
                assert(texts_view(self.output@) =~= runs.push(
                    StylizedTextView {
                        styles: StylesView::of(before.raw_styles).inside(style@),
                        text: Seq::empty(),
                    },
                ));
            },
            None => {
                let ghost open = raw_styles_view(self.raw_styles@);
                let _ = self.raw_styles.pop();
                assert(raw_styles_view(self.raw_styles@) =~= open.drop_last());
            },
        }
    }

    /// Reads text.
    pub fn push_pending_text(&mut self, s: &str)
        requires
            old(self)@.known(),
        ensures
            final(self)@ == old(self)@.push_pending_text(s@),
            final(self)@.known(),
    {
        self.settle();
        let text = match self.pending_text.take() {
            Some(text) => {
                let mut text = text;
                text.append(s);
                text
            },
            None => String::from_str(s),
        };
        self.pending_text = Some(text);
    }

    /// Hands the text out that has come since the last tag.
    pub fn emit_pending_text(&mut self)
        requires
            old(self)@.known(),
        ensures
            final(self)@ == old(self)@.emit_pending_text(),
            final(self)@.known(),
    {
        if self.pending_style.is_some() {
            return ;
        }
        match self.pending_text.take() {
            Some(text) => {
                let styles = Styles::new(&self.raw_styles);
                let stylized_text = StylizedText::new(styles, text);
                let ghost runs = texts_view(self.output@);
                self.output.push(stylized_text);
                assert(texts_view(self.output@) =~= runs.push(
                    StylizedTextView { styles: StylesView::of(old(self)@.raw_styles), text: text@ },
                ));
            },
            None => {},
        }
    }

    /// The runs of the document, once all of it is read.
    pub fn finish(self) -> (output: Vec<StylizedText>)
        requires
            self@.known(),
        ensures
            texts_view(output@) == self@.emit_pending_text().output,
    {
        let mut inner = self;
        inner.emit_pending_text();
        inner.output
    }
}

/// A piece of a document as a tokenizer hands it out.
#[derive(Debug)]
pub enum Token {
    /// A tag that opens an element.
    Start(RawStyle),
    /// A tag that closes an element.
    End(RawStyle),
    /// Text.
    Text(String),
}

/// What a token holds, as plain values.
pub enum TokenView {
    Start(RawStyleView),
    End(RawStyleView),
    Text(Seq<char>),
}

impl View for Token {
    type V = TokenView;

    open spec fn view(&self) -> TokenView {
        match *self {
            Token::Start(s) => TokenView::Start(s@),
            Token::End(s) => TokenView::End(s@),
            Token::Text(t) => TokenView::Text(t@),
        }
    }
}

/// What tokens hold, as plain values.
pub open spec fn tokens_view(tokens: Seq<Token>) -> Seq<TokenView> {
    Seq::new(tokens.len(), |i: int| tokens[i]@)
}

impl InnerView {
    /// Whether a tag that closes `style` closes the innermost open element.
    pub open spec fn can_close(self, style: RawStyleView) -> bool {
        self.settled().len() > 0 && self.innermost().bare() == style
    }

    /// The reader after one more token, or nothing where the token does not
    /// fit: a tag that this library does not write, or a closing tag that
    /// does not close the innermost open element.
    pub open spec fn read(self, token: TokenView) -> Option<InnerView> {
        match token {
            TokenView::Start(style) => if style.known() {
                Some(self.apply_start_style(style))
            } else {
                None
            },
            TokenView::End(style) => if self.can_close(style) {
                Some(self.apply_end_style())
            } else {
                None
            },
            TokenView::Text(text) => Some(self.push_pending_text(text)),
        }
    }

    /// The reader after `tokens`, or nothing where one of them does not fit.
    pub open spec fn read_all(self, tokens: Seq<TokenView>) -> Option<InnerView>
        decreases tokens.len(),
    {
        if tokens.len() == 0 {
            Some(self)
        } else {
            match self.read_all(tokens.drop_last()) {
                Some(inner) => inner.read(tokens.last()),
                None => None,
            }
        }
    }
}

/// The runs of text of a document, or nothing where the document is not
/// one that this library writes: a token does not fit, or an element stays
/// open below the innermost one.
pub open spec fn interpreted(tokens: Seq<TokenView>) -> Option<Seq<StylizedTextView>> {
    match InnerView::start().read_all(tokens) {
        Some(inner) => if inner.emit_pending_text().raw_styles.len() == 0 {
            Some(inner.emit_pending_text().output)
        } else {
            None
        },
        None => None,
    }
}

impl Inner {
    /// Whether a tag that closes `style` closes the innermost open element.
    pub fn can_close(&self, style: &RawStyle) -> (fits: bool)
        ensures
            fits == self@.can_close(style@),
    {
        match &self.pending_style {
            Some(pending) => {
                assert(self@.settled().last() == pending@);
                pending.copy().into_bare().same_as(style)
            },
            None => {
                if self.raw_styles.len() == 0 {
                    false
                } else {
                    self.raw_styles[self.raw_styles.len() - 1].copy().into_bare().same_as(style)
                }
            },
        }
    }

    fn open_below(&self) -> (n: usize)
        ensures
            n == self@.raw_styles.len(),
    {
        self.raw_styles.len()
    }
}

/// What a reading gives, as plain values.
pub open spec fn reading_view(reading: Option<Vec<StylizedText>>) -> Option<Seq<StylizedTextView>> {
    match reading {
        Some(texts) => Some(texts_view(texts@)),
        None => None,
    }
}

/// Reads a document: its runs of text, each with the styles around it, or
/// nothing where the document is not one that this library writes.
pub fn interpret_tokens(tokens: Vec<Token>) -> (reading: Option<Vec<StylizedText>>)
    ensures
        reading_view(reading) == interpreted(tokens_view(tokens@)),
{
    let ghost all = tokens_view(tokens@);
    let mut left = tokens;
    let mut rest: Vec<Token> = Vec::new();
    // The tokens are taken from the end, so `rest` holds them last first.
    while left.len() > 0
        invariant
            rest@.len() + left@.len() == all.len(),
            forall|j: int| 0 <= j < left@.len() ==> left@[j]@ == all[j],
            forall|j: int| 0 <= j < rest@.len() ==> rest@[j]@ == all[all.len() - 1 - j],
        decreases left@.len(),
    {
        let token = left.pop().unwrap();
        rest.push(token);
    }
    let mut inner = Inner::new();
    let ghost mut done: int = 0;
    proof {
        assert(all.subrange(0, 0) =~= Seq::<TokenView>::empty());
    }
    while rest.len() > 0
        invariant
            0 <= done <= all.len(),
            rest@.len() + done == all.len(),
            forall|j: int| 0 <= j < rest@.len() ==> rest@[j]@ == all[all.len() - 1 - j],
            InnerView::start().read_all(all.subrange(0, done)) == Some(inner@),
            inner@.known(),
            all == tokens_view(tokens@),
        decreases rest@.len(),
    {
        let token = rest.pop().unwrap();
        proof {
            assert(token@ == all[done]);
            assert(all.subrange(0, done + 1).drop_last() =~= all.subrange(0, done));
            assert(all.subrange(0, done + 1).last() == all[done]);
        }
        let ghost next = all.subrange(0, done + 1);
        match token {
            Token::Start(style) => {
                if !style.is_known() {
                    proof {
                        lemma_read_all_stuck(all, done + 1);
                    }
                    return None;
                }
                inner.apply_start_style(style);
            },
            Token::End(style) => {
                if !inner.can_close(&style) {
                    proof {
                        lemma_read_all_stuck(all, done + 1);
                    }
                    return None;
                }
                inner.apply_end_style(style);
            },
            Token::Text(text) => {
                inner.push_pending_text(text.as_str());
            },
        }
        proof {
            done = done + 1;
        }
    }
    assert(all.subrange(0, done) =~= all);
    inner.emit_pending_text();
    if inner.open_below() != 0 {
        return None;
    }
    Some(inner.output)
}

/// Once a token does not fit, no token after it mends the reading.
pub proof fn lemma_read_all_stuck(tokens: Seq<TokenView>, upto: int)
    requires
        0 <= upto <= tokens.len(),
        InnerView::start().read_all(tokens.subrange(0, upto)) is None,
    ensures
        InnerView::start().read_all(tokens) is None,
    decreases tokens.len() - upto,
{
    if upto == tokens.len() {
        assert(tokens.subrange(0, upto) =~= tokens);
    } else {
        assert(tokens.subrange(0, upto + 1).drop_last() =~= tokens.subrange(0, upto));
        lemma_read_all_stuck(tokens, upto + 1);
    }
}

/// Whether two lists of runs hold the same runs in the same order.
pub fn same_texts(a: &Vec<StylizedText>, b: &Vec<StylizedText>) -> (same: bool)
    ensures
        same == (texts_view(a@) == texts_view(b@)),
{
    if a.len() != b.len() {
        assert(texts_view(a@).len() != texts_view(b@).len());
        return false;
    }
    let mut i: usize = 0;
    while i < a.len()
        invariant
            0 <= i <= a@.len(),
            a@.len() == b@.len(),
            forall|j: int| 0 <= j < i ==> a@[j]@ == b@[j]@,
        decreases a@.len() - i,
    {
        if !a[i].same_as(&b[i]) {
            assert(texts_view(a@)[i as int] != texts_view(b@)[i as int]);
            return false;
        }
        i += 1;
    }
    assert(texts_view(a@) =~= texts_view(b@));
    true
}

/// What a document means: its runs of text without the empty ones, each
/// joined to the one before it where the two have the same styles.
pub open spec fn meaning_of(tokens: Seq<TokenView>) -> Option<Seq<StylizedTextView>> {
    match interpreted(tokens) {
        Some(texts) => Some(normalized_texts(texts)),
        None => None,
    }
}

/// Whether the document written without the minifier and the document
/// written with it are both documents that this library writes, and mean
/// the same.
pub fn assert_opt_equiv_to_no_opt(no_opt: Vec<Token>, opt: Vec<Token>) -> (same: bool)
    ensures
        same == (meaning_of(tokens_view(no_opt@)) is Some && meaning_of(tokens_view(no_opt@))
            == meaning_of(tokens_view(opt@))),
{
    let full_text = match interpret_tokens(no_opt) {
        Some(texts) => normalize_output(texts),
        None => {
            return false;
        },
    };
    let opt_text = match interpret_tokens(opt) {
        Some(texts) => normalize_output(texts),
        None => {
            return false;
        },
    };
    same_texts(&full_text, &opt_text)
}

} // verus!
