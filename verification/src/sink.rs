//! The conversion itself: the scanner's fragments become changes of style
//! and text, which go to the renderer, directly or through the minifier.

use vstd::prelude::*;
use vstd::slice::slice_subrange;
use crate::ansi::{
    events_of, fields_of, lemma_first_event_len, split_fields, Ansi, AnsiIter, Outcome,
};
use crate::color::{ColorMode, FourBitColorType};
use crate::error::{Error, ErrorView};
use crate::html::{AnsiConverter, Rendering, Theme};
use crate::minifier::{Minified, Minifier};
use crate::parse::{fragment_at, lemma_fragment_bounds, AnsiFragment, AnsiParser, FragmentKind};

verus! {

broadcast use vstd::slice::group_slice_axioms;

/// What the renderer is given: a change of style, or text.
pub enum Op {
    Event(Ansi),
    Text(Seq<u8>),
}

/// The numbers of a sequence without the `;` that may stand at their end.
pub open spec fn without_last_semicolon(nums: Seq<u8>) -> Seq<u8> {
    if nums.len() > 0 && nums.last() == 0x3b {
        nums.drop_last()
    } else {
        nums
    }
}

/// The changes of style that an escape sequence stands for. Only a
/// sequence that ends in `m` stands for any; `ESC [ m` is a reset.
pub open spec fn sequence_events(seq: Seq<u8>) -> Outcome<Seq<Ansi>> {
    if seq.len() < 3 || seq.last() != 0x6d {
        Ok(Seq::empty())
    } else if seq.len() == 3 {
        Ok(seq![Ansi::Reset])
    } else {
        events_of(fields_of(without_last_semicolon(seq.subrange(2, seq.len() - 1))))
    }
}

/// The events as what the renderer is given.
pub open spec fn event_ops(events: Seq<Ansi>) -> Seq<Op> {
    Seq::new(events.len(), |i: int| Op::Event(events[i]))
}

/// `ops`, then what the rest of an interpretation gives.
pub open spec fn after_ops(ops: Seq<Op>, rest: Outcome<Seq<Op>>) -> Outcome<Seq<Op>> {
    match rest {
        Ok(more) => Ok(ops + more),
        Err(e) => Err(e),
    }
}

/// What the fragment of `text` at `start` gives the renderer.
pub open spec fn fragment_ops(text: Seq<u8>, start: int) -> Outcome<Seq<Op>> {
    let span = fragment_at(text, start);
    let bytes = text.subrange(span.start, span.end);
    match span.kind {
        FragmentKind::Text => Ok(seq![Op::Text(bytes)]),
        FragmentKind::Sequence => match sequence_events(bytes) {
            Ok(events) => Ok(event_ops(events)),
            Err(e) => Err(e),
        },
    }
}

/// What `text` from `start` on gives the renderer, or the first error in it.
pub open spec fn ops_from(text: Seq<u8>, start: int) -> Outcome<Seq<Op>>
    decreases text.len() - start,
    when 0 <= start
    via ops_from_decreases
{
    if start >= text.len() {
        Ok(Seq::empty())
    } else {
        match fragment_ops(text, start) {
            Err(e) => Err(e),
            Ok(ops) => after_ops(ops, ops_from(text, fragment_at(text, start).end)),
        }
    }
}

#[via_fn]
proof fn ops_from_decreases(text: Seq<u8>, start: int) {
    if start < text.len() {
        lemma_fragment_bounds(text, start);
    }
}

/// What `text` gives the renderer.
pub open spec fn ops_of(text: Seq<u8>) -> Outcome<Seq<Op>> {
    ops_from(text, 0)
}

/// Where the changes of style and the text go: to the renderer, or to the
/// minifier in front of it.
pub enum Sunk {
    Direct(Rendering),
    Buffering(Minified),
}

impl Sunk {
    /// A sink that has been given nothing.
    pub open spec fn start(skip_optimize: bool) -> Sunk {
        if skip_optimize {
            Sunk::Direct(Rendering::empty())
        } else {
            Sunk::Buffering(Minified::empty())
        }
    }

    /// Gives the sink a change of style or text.
    pub open spec fn feed(self, op: Op, mode: ColorMode, theme: Theme) -> Sunk {
        match (self, op) {
            (Sunk::Direct(r), Op::Event(ansi)) => Sunk::Direct(r.consume(ansi, mode, theme)),
            (Sunk::Direct(r), Op::Text(bytes)) => Sunk::Direct(r.text(bytes)),
            (Sunk::Buffering(m), Op::Event(ansi)) => Sunk::Buffering(m.hold(ansi)),
            (Sunk::Buffering(m), Op::Text(bytes)) => Sunk::Buffering(m.text(bytes, mode, theme)),
        }
    }

    /// Gives the sink `ops`, in order.
    pub open spec fn feed_all(self, ops: Seq<Op>, mode: ColorMode, theme: Theme) -> Sunk
        decreases ops.len(),
    {
        if ops.len() == 0 {
            self
        } else {
            self.feed_all(ops.drop_last(), mode, theme).feed(ops.last(), mode, theme)
        }
    }

    /// Ends the output: a last reset, and nothing stays open.
    pub open spec fn finish(self, mode: ColorMode, theme: Theme) -> Rendering {
        match self.feed(Op::Event(Ansi::Reset), mode, theme) {
            Sunk::Direct(r) => r.finish(mode, theme),
            Sunk::Buffering(m) => m.finish(mode, theme),
        }
    }
}

/// What the renderer does with `ops`, given directly or through the
/// minifier, up to the end of the output.
pub open spec fn rendering_of(
    ops: Seq<Op>,
    skip_optimize: bool,
    mode: ColorMode,
    theme: Theme,
) -> Rendering {
    Sunk::start(skip_optimize).feed_all(ops, mode, theme).finish(mode, theme)
}

/// The renderer, or the minifier in front of it.
pub enum AnsiSink {
    Direct(AnsiConverter),
    Buffering(Minifier),
}

impl View for AnsiSink {
    type V = Sunk;

    open spec fn view(&self) -> Sunk {
        match self {
            AnsiSink::Direct(c) => Sunk::Direct(c@),
            AnsiSink::Buffering(m) => Sunk::Buffering(m@),
        }
    }
}

impl AnsiSink {
    pub open spec fn wf(&self) -> bool {
        match self {
            AnsiSink::Direct(c) => c.wf(),
            AnsiSink::Buffering(m) => m.wf(),
        }
    }

    pub open spec fn mode(&self) -> ColorMode {
        match self {
            AnsiSink::Direct(c) => c.mode(),
            AnsiSink::Buffering(m) => m.mode(),
        }
    }

    pub open spec fn theme(&self) -> Theme {
        match self {
            AnsiSink::Direct(c) => c.theme(),
            AnsiSink::Buffering(m) => m.theme(),
        }
    }

    /// Whether two sinks write colours alike.
    pub open spec fn same_setup(&self, other: &AnsiSink) -> bool {
        self.mode() == other.mode() && self.theme() == other.theme()
    }

    /// A sink that has been given nothing.
    pub fn new(color_type: FourBitColorType, theme: Theme, skip_optimize: bool) -> (sink: Self)
        ensures
            sink.wf(),
            sink@ == Sunk::start(skip_optimize),
            sink.mode() == color_type@,
            sink.theme() == theme,
    {
        if skip_optimize {
            AnsiSink::Direct(AnsiConverter::new(color_type, theme))
        } else {
            AnsiSink::Buffering(Minifier::new(color_type, theme))
        }
    }

    /// Gives the sink a reset.
    pub fn clear_styles(&mut self)
        requires
            old(self).wf(),
        ensures
            final(self).wf(),
            final(self).same_setup(old(self)),
            final(self)@ == old(self)@.feed(
                Op::Event(Ansi::Reset),
                old(self).mode(),
                old(self).theme(),
            ),
    {
        self.push_ansi_code(Ansi::Reset);
    }

    /// Gives the sink a change of style.
    pub fn push_ansi_code(&mut self, ansi: Ansi)
        requires
            old(self).wf(),
        ensures
            final(self).wf(),
            final(self).same_setup(old(self)),
            final(self)@ == old(self)@.feed(Op::Event(ansi), old(self).mode(), old(self).theme()),
    {
        match self {
            AnsiSink::Direct(c) => c.consume_ansi_code(ansi),
            AnsiSink::Buffering(m) => m.push_ansi_code(ansi),
        }
    }

    /// Gives the sink text.
    pub fn push_str(&mut self, text: &[u8])
        requires
            old(self).wf(),
        ensures
            final(self).wf(),
            final(self).same_setup(old(self)),
            final(self)@ == old(self)@.feed(Op::Text(text@), old(self).mode(), old(self).theme()),
    {
        match self {
            AnsiSink::Direct(c) => c.push_str(text),
            AnsiSink::Buffering(m) => m.push_str(text),
        }
    }

    /// Ends the output and hands it out.
    pub fn to_html(self) -> (html: Vec<u8>)
        requires
            self.wf(),
        ensures
            html@ == self@.finish(self.mode(), self.theme()).html(),
    {
        let mut sink = self;
        sink.push_ansi_code(Ansi::Reset);
        match sink {
            AnsiSink::Direct(c) => c.result(),
            AnsiSink::Buffering(m) => m.to_html(),
        }
    }
}

/// `events`, then what the rest of an interpretation gives.
pub open spec fn after_events(events: Seq<Ansi>, rest: Outcome<Seq<Ansi>>) -> Outcome<Seq<Ansi>> {
    match rest {
        Ok(more) => Ok(events + more),
        Err(e) => Err(e),
    }
}

/// Whether `result` reports the error `e`.
pub open spec fn is_error(result: Result<(), Error>, e: ErrorView) -> bool {
    result matches Err(x) && x@ == e
}

/// Gives `sink` the changes of style that the escape sequence `codes`
/// stands for. They all arrive, or an error is reported.
pub fn push_sequence(sink: &mut AnsiSink, codes: &[u8]) -> (result: Result<(), Error>)
    requires
        old(sink).wf(),
    ensures
        final(sink).wf(),
        final(sink).same_setup(old(sink)),
        match sequence_events(codes@) {
            Ok(events) => result is Ok && final(sink)@ == old(sink)@.feed_all(
                event_ops(events),
                old(sink).mode(),
                old(sink).theme(),
            ),
            Err(e) => is_error(result, e),
        },
{
    let len: usize = codes.len();
    let ghost mode = sink.mode();
    let ghost theme = sink.theme();
    if len < 3 || codes[len - 1] != 0x6d {
        assert(event_ops(Seq::<Ansi>::empty()) =~= Seq::<Op>::empty());
        return Ok(());
    }
    if len == 3 {
        sink.clear_styles();
        proof {
            let ops = event_ops(seq![Ansi::Reset]);
            assert(ops.drop_last() =~= Seq::<Op>::empty());
            assert(ops.last() == Op::Event(Ansi::Reset));
            assert(old(sink)@.feed_all(ops.drop_last(), mode, theme) == old(sink)@);
        }
        return Ok(());
    }
    let nums = slice_subrange(codes, 2, len - 1);
    let norm_nums = if nums.len() > 0 && nums[nums.len() - 1] == 0x3b {
        slice_subrange(nums, 0, nums.len() - 1)
    } else {
        nums
    };
    proof {
        assert(nums@.len() > 0 && nums@.last() == 0x3b ==> nums@.drop_last() =~= nums@.subrange(
            0,
            nums@.len() - 1,
        ));
    }
    let fields = split_fields(norm_nums);
    let ghost all = fields@;
    let mut iter = AnsiIter::new(fields);
    let ghost mut done: Seq<Ansi> = Seq::empty();
    proof {
        assert(event_ops(done) =~= Seq::<Op>::empty());
        match events_of(all) {
            Ok(more) => {
                assert(done + more =~= more);
            },
            Err(_) => {},
        }
    }
    loop
        invariant
            sink.wf(),
            iter.wf(),
            sink.mode() == mode,
            sink.theme() == theme,
            mode == old(sink).mode(),
            theme == old(sink).theme(),
            sequence_events(codes@) == events_of(all),
            events_of(all) == after_events(done, events_of(iter.remaining())),
            sink@ == old(sink)@.feed_all(event_ops(done), mode, theme),
        decreases iter.remaining().len(),
    {
        let ghost rest = iter.remaining();
        let ghost before = sink@;
        match iter.next() {
            None => {
                proof {
                    assert(done + Seq::<Ansi>::empty() =~= done);
                }
                return Ok(());
            },
            Some(Err(e)) => {
                return Err(e);
            },
            Some(Ok(ansi)) => {
                sink.push_ansi_code(ansi);
                proof {
                    lemma_first_event_len(rest);
                    let next = done.push(ansi);
                    match events_of(iter.remaining()) {
                        Ok(more) => {
                            assert(done + (seq![ansi] + more) =~= next + more);
                        },
                        Err(_) => {},
                    }
                    assert(event_ops(next).drop_last() =~= event_ops(done));
                    assert(event_ops(next).last() == Op::Event(ansi));
                    done = next;
                }
            },
        }
    }
}

/// What a conversion gives, as plain values: the output, or the error.
pub open spec fn bytes_outcome(result: Result<Vec<u8>, Error>) -> Outcome<Seq<u8>> {
    match result {
        Ok(html) => Ok(html@),
        Err(e) => Err(e@),
    }
}

/// The HTML that `input` converts to: what the renderer writes when it is
/// given the changes of style and the text of `input`, or the first error
/// among the escape sequences of `input`.
pub open spec fn html_of(
    input: Seq<u8>,
    mode: ColorMode,
    theme: Theme,
    skip_optimize: bool,
) -> Outcome<Seq<u8>> {
    match ops_of(input) {
        Ok(ops) => Ok(rendering_of(ops, skip_optimize, mode, theme).html()),
        Err(e) => Err(e),
    }
}

/// Giving a sink `first` and then `second` is giving it both in order.
pub proof fn lemma_feed_all_concat(
    sunk: Sunk,
    first: Seq<Op>,
    second: Seq<Op>,
    mode: ColorMode,
    theme: Theme,
)
    ensures
        sunk.feed_all(first + second, mode, theme) == sunk.feed_all(first, mode, theme).feed_all(
            second,
            mode,
            theme,
        ),
    decreases second.len(),
{
    if second.len() == 0 {
        assert(first + second =~= first);
    } else {
        lemma_feed_all_concat(sunk, first, second.drop_last(), mode, theme);
        assert((first + second).drop_last() =~= first + second.drop_last());
    }
}

/// Converts text with ANSI escape sequences to HTML. Characters that are
/// special in HTML are left as they are. With `skip_optimize` the renderer
/// is given every change of style; without it the minifier stands in front.
pub fn ansi_to_html(
    input: &[u8],
    color_type: FourBitColorType,
    theme: Theme,
    skip_optimize: bool,
) -> (result: Result<Vec<u8>, Error>)
    ensures
        bytes_outcome(result) == html_of(input@, color_type@, theme, skip_optimize),
{
    let mut sink = AnsiSink::new(color_type, theme, skip_optimize);
    let mut parser = AnsiParser::new(input);
    let ghost mode = sink.mode();
    let ghost mut done: Seq<Op> = Seq::empty();
    let ghost text = input@;
    proof {
        match ops_of(text) {
            Ok(more) => {
                assert(done + more =~= more);
            },
            Err(_) => {},
        }
    }
    loop
        invariant
            sink.wf(),
            parser.wf(),
            sink.mode() == mode,
            sink.theme() == theme,
            mode == color_type@,
            parser.text() == text,
            text == input@,
            0 <= parser.index() <= text.len(),
            ops_of(text) == after_ops(done, ops_from(text, parser.index())),
            sink@ == Sunk::start(skip_optimize).feed_all(done, mode, theme),
        decreases text.len() - parser.index(),
    {
        let ghost start = parser.index();
        let ghost before = sink@;
        proof {
            if start < text.len() {
                lemma_fragment_bounds(text, start);
            }
        }
        match parser.next() {
            None => {
                proof {
                    assert(done + Seq::<Op>::empty() =~= done);
                }
                return Ok(sink.to_html());
            },
            Some(AnsiFragment::Sequence(ansi_codes)) => {
                match push_sequence(&mut sink, ansi_codes) {
                    Ok(()) => {
                        proof {
                            let ops = event_ops(sequence_events(ansi_codes@)->Ok_0);
                            lemma_feed_all_concat(
                                Sunk::start(skip_optimize),
                                done,
                                ops,
                                mode,
                                theme,
                            );
                            match ops_from(text, parser.index()) {
                                Ok(more) => {
                                    assert(done + (ops + more) =~= (done + ops) + more);
                                },
                                Err(_) => {},
                            }
                            done = done + ops;
                        }
                    },
                    Err(e) => {
                        return Err(e);
                    },
                }
            },
            Some(AnsiFragment::Text(bytes)) => {
                sink.push_str(bytes);
                proof {
                    let ops = seq![Op::Text(bytes@)];
                    match ops_from(text, parser.index()) {
                        Ok(more) => {
                            assert(done + (ops + more) =~= done.push(Op::Text(bytes@)) + more);
                        },
                        Err(_) => {},
                    }
                    assert(done.push(Op::Text(bytes@)).drop_last() =~= done);
                    done = done.push(Op::Text(bytes@));
                }
            },
        }
    }
}

} // verus!
