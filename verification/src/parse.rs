//! The scanner: splits text into escape sequences and the text between them.
//!
//! After an `ESC` a small state machine reads one byte at a time. It accepts
//! control sequences (`ESC [`, digits and `;`, one final byte), operating
//! system commands (`ESC ]`, anything, then `BEL` or `ESC \`) and the
//! character set reset `ESC ( B`. A start that the machine rejects, or that
//! the end of the input cuts short, is handed out as text.

use vstd::prelude::*;
use vstd::slice::slice_subrange;
use crate::text::find_byte;

verus! {

broadcast use vstd::slice::group_slice_axioms;

/// The byte that starts every escape sequence.
pub const ESCAPE: u8 = 0x1b;

/// Where the machine stands inside an escape sequence.
#[derive(Debug, Clone, Copy, PartialEq, Eq, Structural)]
pub enum State {
    /// After `ESC`.
    Escape,
    /// The bytes read are no escape sequence.
    Trap,
    /// The bytes read are a whole escape sequence.
    Accept,
    /// After `ESC (`.
    EscapeOpenParen,
    /// After `ESC [`.
    Csi,
    /// After a digit of a control sequence.
    Digit,
    /// After a `;` of a control sequence.
    SemiColon,
    /// Inside an operating system command.
    InOsc,
    /// After an `ESC` inside an operating system command.
    StartSt,
}

/// What the machine's state means for the scanner.
#[derive(Debug, Clone, Copy, PartialEq, Eq, Structural)]
pub enum Status {
    InSequence,
    Accept,
    RejectAsText,
}

/// Whether `b` ends a control sequence: one of `A`-`H`, `J`, `K`, `S`, `T`,
/// `f`, `h`, `i`, `l`, `m`, `n`, `s`, `u`.
pub open spec fn is_final_byte(b: u8) -> bool {
    ||| 0x41 <= b <= 0x48
    ||| 0x4a <= b <= 0x4b
    ||| 0x53 <= b <= 0x54
    ||| b == 0x66
    ||| 0x68 <= b <= 0x69
    ||| 0x6c <= b <= 0x6e
    ||| b == 0x73
    ||| b == 0x75
}

/// Whether `b` is a decimal digit.
pub open spec fn is_digit(b: u8) -> bool {
    0x30 <= b <= 0x39
}

/// The state after the machine, in `state`, has read `b`.
pub open spec fn step(state: State, b: u8) -> State {
    match state {
        State::Escape => if b == 0x28 {
            State::EscapeOpenParen
        } else if b == 0x5b {
            State::Csi
        } else if b == 0x5d {
            State::InOsc
        } else {
            State::Trap
        },
        State::EscapeOpenParen => if b == 0x42 {
            State::Accept
        } else {
            State::Trap
        },
        State::Csi | State::SemiColon => if is_digit(b) {
            State::Digit
        } else if is_final_byte(b) {
            State::Accept
        } else {
            State::Trap
        },
        State::Digit => if is_digit(b) {
            State::Digit
        } else if b == 0x3b {
            State::SemiColon
        } else if is_final_byte(b) {
            State::Accept
        } else {
            State::Trap
        },
        State::InOsc => if b == 0x07 {
            State::Accept
        } else if b == 0x1b {
            State::StartSt
        } else {
            State::InOsc
        },
        State::StartSt => if b == 0x07 || b == 0x5c {
            State::Accept
        } else if b == 0x1b {
            State::StartSt
        } else {
            State::InOsc
        },
        State::Trap | State::Accept => State::Trap,
    }
}

/// What a state means for the scanner.
pub open spec fn status_of(state: State) -> Status {
    match state {
        State::Trap => Status::RejectAsText,
        State::Accept => Status::Accept,
        _ => Status::InSequence,
    }
}

impl State {
    /// Reads one byte.
    pub fn munch(&mut self, b: u8)
        ensures
            *final(self) == step(*old(self), b),
    {
        let digit = 0x30 <= b && b <= 0x39;
        let last = (0x41 <= b && b <= 0x48) || (0x4a <= b && b <= 0x4b) || (0x53 <= b && b
            <= 0x54) || b == 0x66 || (0x68 <= b && b <= 0x69) || (0x6c <= b && b <= 0x6e) || b
            == 0x73 || b == 0x75;
        let next = match *self {
            State::Escape => {
                if b == 0x28 {
                    State::EscapeOpenParen
                } else if b == 0x5b {
                    State::Csi
                } else if b == 0x5d {
                    State::InOsc
                } else {
                    State::Trap
                }
            },
            State::EscapeOpenParen => {
                if b == 0x42 {
                    State::Accept
                } else {
                    State::Trap
                }
            },
            State::Csi | State::SemiColon => {
                if digit {
                    State::Digit
                } else if last {
                    State::Accept
                } else {
                    State::Trap
                }
            },
            State::Digit => {
                if digit {
                    State::Digit
                } else if b == 0x3b {
                    State::SemiColon
                } else if last {
                    State::Accept
                } else {
                    State::Trap
                }
            },
            State::InOsc => {
                if b == 0x07 {
                    State::Accept
                } else if b == ESCAPE {
                    State::StartSt
                } else {
                    State::InOsc
                }
            },
            State::StartSt => {
                if b == 0x07 || b == 0x5c {
                    State::Accept
                } else if b == ESCAPE {
                    State::StartSt
                } else {
                    State::InOsc
                }
            },
            State::Trap | State::Accept => State::Trap,
        };
        *self = next;
    }
}

impl Status {
    /// What `state` means for the scanner.
    pub fn from(state: State) -> (status: Status)
        ensures
            status == status_of(state),
    {
        match state {
            State::Trap => Status::RejectAsText,
            State::Accept => Status::Accept,
            State::Escape
            | State::EscapeOpenParen
            | State::Csi
            | State::Digit
            | State::SemiColon
            | State::InOsc
            | State::StartSt => Status::InSequence,
        }
    }
}

/// Whether a fragment is an escape sequence or text.
#[derive(Debug, Clone, Copy, PartialEq, Eq, Structural)]
pub enum FragmentKind {
    Sequence,
    Text,
}

/// A fragment of some text as the scanner sees it: its kind, and where it
/// starts and ends.
pub struct Span {
    pub kind: FragmentKind,
    pub start: int,
    pub end: int,
}

/// The machine's run over `text` from `pos` on, in `state`: where the
/// fragment ends, and whether it is an escape sequence.
pub open spec fn scan_escape(text: Seq<u8>, pos: int, state: State) -> (int, FragmentKind)
    decreases text.len() - pos,
{
    if pos < 0 || pos >= text.len() {
        (text.len() as int, FragmentKind::Text)
    } else {
        let next = step(state, text[pos]);
        match status_of(next) {
            Status::Accept => (pos + 1, FragmentKind::Sequence),
            Status::RejectAsText => (pos, FragmentKind::Text),
            Status::InSequence => scan_escape(text, pos + 1, next),
        }
    }
}

/// The place of the first `ESC` in `text` from `from` on, or the length of
/// `text` where there is none.
pub open spec fn next_escape(text: Seq<u8>, from: int) -> int
    decreases text.len() - from,
{
    if from < 0 || from >= text.len() {
        text.len() as int
    } else if text[from] == ESCAPE {
        from
    } else {
        next_escape(text, from + 1)
    }
}

/// The fragment of `text` that starts at `start`: an escape sequence, or the
/// start of one that leads nowhere, or the longest run without `ESC`.
pub open spec fn fragment_at(text: Seq<u8>, start: int) -> Span {
    if text[start] == ESCAPE {
        let (end, kind) = scan_escape(text, start + 1, State::Escape);
        Span { kind, start, end }
    } else {
        Span { kind: FragmentKind::Text, start, end: next_escape(text, start + 1) }
    }
}

/// The fragments of `text` from `start` on, in order.
pub open spec fn fragments_from(text: Seq<u8>, start: int) -> Seq<Span>
    decreases text.len() - start,
    when 0 <= start
    via fragments_from_decreases
{
    if start >= text.len() {
        Seq::empty()
    } else {
        seq![fragment_at(text, start)] + fragments_from(text, fragment_at(text, start).end)
    }
}

#[via_fn]
proof fn fragments_from_decreases(text: Seq<u8>, start: int) {
    if start < text.len() {
        lemma_fragment_bounds(text, start);
    }
}

/// The fragments of `text`, in order.
pub open spec fn fragments(text: Seq<u8>) -> Seq<Span> {
    fragments_from(text, 0)
}

/// The bytes of the fragments `spans` of `text`, one after the other.
pub open spec fn joined(text: Seq<u8>, spans: Seq<Span>) -> Seq<u8>
    decreases spans.len(),
{
    if spans.len() == 0 {
        Seq::empty()
    } else {
        text.subrange(spans[0].start, spans[0].end) + joined(text, spans.drop_first())
    }
}

/// The machine's run ends after where it started and inside the text.
pub proof fn lemma_scan_escape_bounds(text: Seq<u8>, pos: int, state: State)
    requires
        0 <= pos <= text.len(),
    ensures
        pos <= scan_escape(text, pos, state).0 <= text.len(),
    decreases text.len() - pos,
{
    if pos < text.len() {
        let next = step(state, text[pos]);
        if status_of(next) == Status::InSequence {
            lemma_scan_escape_bounds(text, pos + 1, next);
        }
    }
}

/// The first `ESC` from `from` on lies at or after `from`, no byte before it
/// is an `ESC`, and it is an `ESC` unless it is the end of the text.
pub proof fn lemma_next_escape(text: Seq<u8>, from: int)
    requires
        0 <= from <= text.len(),
    ensures
        from <= next_escape(text, from) <= text.len(),
        forall|j: int| from <= j < next_escape(text, from) ==> text[j] != ESCAPE,
        next_escape(text, from) < text.len() ==> text[next_escape(text, from)] == ESCAPE,
    decreases text.len() - from,
{
    if from < text.len() && text[from] != ESCAPE {
        lemma_next_escape(text, from + 1);
    }
}

/// A place that no `ESC` comes before, and that holds an `ESC` or is the end
/// of the text, is the place of the first `ESC`.
pub proof fn lemma_next_escape_is(text: Seq<u8>, from: int, end: int)
    requires
        0 <= from <= end <= text.len(),
        forall|j: int| from <= j < end ==> text[j] != ESCAPE,
        end < text.len() ==> text[end] == ESCAPE,
    ensures
        next_escape(text, from) == end,
    decreases end - from,
{
    if from < end {
        lemma_next_escape_is(text, from + 1, end);
    }
}

/// A fragment is not empty and ends inside the text.
pub proof fn lemma_fragment_bounds(text: Seq<u8>, start: int)
    requires
        0 <= start < text.len(),
    ensures
        fragment_at(text, start).start == start,
        start < fragment_at(text, start).end <= text.len(),
{
    if text[start] == ESCAPE {
        lemma_scan_escape_bounds(text, start + 1, State::Escape);
    } else {
        lemma_next_escape(text, start + 1);
    }
}

/// The fragments from `start` on, joined, are the text from `start` on.
pub proof fn lemma_fragments_from_cover(text: Seq<u8>, start: int)
    requires
        0 <= start <= text.len(),
    ensures
        joined(text, fragments_from(text, start)) == text.subrange(start, text.len() as int),
    decreases text.len() - start,
{
    if start >= text.len() {
        assert(joined(text, fragments_from(text, start)) =~= text.subrange(
            start,
            text.len() as int,
        ));
    } else {
        lemma_fragment_bounds(text, start);
        let first = fragment_at(text, start);
        let rest = fragments_from(text, first.end);
        let all = fragments_from(text, start);
        lemma_fragments_from_cover(text, first.end);
        assert(all.drop_first() =~= rest);
        assert(all[0] == first);
        assert(text.subrange(start, first.end) + text.subrange(first.end, text.len() as int)
            =~= text.subrange(start, text.len() as int));
    }
}

/// The fragments of a text, joined in order, are the text: the scanner
/// neither drops nor adds nor moves a byte.
pub proof fn lemma_fragments_cover(text: Seq<u8>)
    ensures
        joined(text, fragments(text)) == text,
{
    lemma_fragments_from_cover(text, 0);
    assert(text.subrange(0, text.len() as int) =~= text);
}

/// A fragment of the input: an escape sequence, or text.
#[derive(Debug, Clone, Copy, PartialEq, Eq)]
pub enum AnsiFragment<'text> {
    Sequence(&'text [u8]),
    Text(&'text [u8]),
}

impl<'text> AnsiFragment<'text> {
    pub open spec fn kind(self) -> FragmentKind {
        match self {
            AnsiFragment::Sequence(_) => FragmentKind::Sequence,
            AnsiFragment::Text(_) => FragmentKind::Text,
        }
    }

    pub open spec fn bytes(self) -> Seq<u8> {
        match self {
            AnsiFragment::Sequence(bytes) => bytes@,
            AnsiFragment::Text(bytes) => bytes@,
        }
    }

    /// Whether this fragment is the part of `text` that `span` names.
    pub open spec fn is_span_of(self, text: Seq<u8>, span: Span) -> bool {
        self.kind() == span.kind && self.bytes() == text.subrange(span.start, span.end)
    }
}

/// The scanner over one text.
pub struct AnsiParser<'text> {
    text: &'text [u8],
    index: usize,
}

impl<'text> AnsiParser<'text> {
    /// The text that the scanner reads.
    pub closed spec fn text(&self) -> Seq<u8> {
        self.text@
    }

    /// How far the scanner has read.
    pub closed spec fn index(&self) -> int {
        self.index as int
    }

    /// The scanner has not read past the end of its text.
    pub closed spec fn wf(&self) -> bool {
        self.index <= self.text@.len()
    }

    /// A scanner at the start of `text`.
    pub fn new(text: &'text [u8]) -> (parser: Self)
        ensures
            parser.wf(),
            parser.text() == text@,
            parser.index() == 0,
    {
        let index: usize = 0;
        Self { text, index }
    }

    fn current_byte(&self) -> (b: Option<u8>)
        requires
            self.wf(),
        ensures
            self.index() < self.text().len() ==> b == Some(self.text()[self.index()]),
            self.index() >= self.text().len() ==> b is None,
    {
        if self.index < self.text.len() {
            Some(self.text[self.index])
        } else {
            None
        }
    }

    fn next_byte(&mut self) -> (b: Option<u8>)
        requires
            old(self).wf(),
            old(self).index() < old(self).text().len(),
        ensures
            final(self).wf(),
            final(self).text() == old(self).text(),
            final(self).index() == old(self).index() + 1,
            final(self).index() < final(self).text().len() ==> b == Some(
                final(self).text()[final(self).index()],
            ),
            final(self).index() >= final(self).text().len() ==> b is None,
    {
        self.inc();
        self.current_byte()
    }

    fn inc(&mut self)
        requires
            old(self).wf(),
            old(self).index() < old(self).text().len(),
        ensures
            final(self).wf(),
            final(self).text() == old(self).text(),
            final(self).index() == old(self).index() + 1,
    {
        let len: usize = self.text.len();
        assert(self.index < len);
        self.index += 1;
    }

    /// The next fragment, or nothing at the end of the text.
    pub fn next(&mut self) -> (fragment: Option<AnsiFragment<'text>>)
        requires
            old(self).wf(),
        ensures
            final(self).wf(),
            final(self).text() == old(self).text(),
            old(self).index() >= old(self).text().len() ==> fragment is None && final(self).index()
                == old(self).index(),
            old(self).index() < old(self).text().len() ==> fragment is Some
                && fragment->0.is_span_of(
                old(self).text(),
                fragment_at(old(self).text(), old(self).index()),
            ) && final(self).index() == fragment_at(old(self).text(), old(self).index()).end,
    {
        let start_idx = self.index;
        let text = self.text;
        let first = match self.current_byte() {
            Some(b) => b,
            None => {
                return None;
            },
        };
        if first == ESCAPE {
            let mut state = State::Escape;
            loop
                invariant
                    self.wf(),
                    self.text == text,
                    text == old(self).text,
                    start_idx == old(self).index,
                    text@[start_idx as int] == ESCAPE,
                    start_idx <= self.index < text@.len(),
                    status_of(state) == Status::InSequence,
                    scan_escape(text@, start_idx + 1, State::Escape) == scan_escape(
                        text@,
                        self.index + 1,
                        state,
                    ),
                decreases text@.len() - self.index,
            {
                let b = match self.next_byte() {
                    Some(b) => b,
                    None => {
                        return Some(
                            AnsiFragment::Text(slice_subrange(text, start_idx, self.index)),
                        );
                    },
                };
                state.munch(b);
                match Status::from(state) {
                    Status::InSequence => {},
                    Status::Accept => {
                        self.inc();
                        return Some(
                            AnsiFragment::Sequence(slice_subrange(text, start_idx, self.index)),
                        );
                    },
                    Status::RejectAsText => {
                        return Some(
                            AnsiFragment::Text(slice_subrange(text, start_idx, self.index)),
                        );
                    },
                }
            }
        } else {
            self.inc();
            let rest = slice_subrange(text, start_idx, text.len());
            match find_byte(ESCAPE, rest) {
                Some(end_offset) => {
                    self.index = start_idx + end_offset;
                },
                None => {
                    self.index = text.len();
                },
            }
            proof {
                assert(rest@[0] == text@[start_idx as int]);
                assert forall|j: int| start_idx + 1 <= j < self.index implies text@[j]
                    != ESCAPE by {
                    assert(rest@[j - start_idx] == text@[j]);
                }
                if self.index < text@.len() {
                    assert(rest@[self.index - start_idx] == text@[self.index as int]);
                }
                lemma_next_escape_is(text@, start_idx + 1, self.index as int);
            }
            Some(AnsiFragment::Text(slice_subrange(text, start_idx, self.index)))
        }
    }

    /// All the fragments that are left, in order.
    pub fn collect(self) -> (all: Vec<AnsiFragment<'text>>)
        requires
            self.wf(),
        ensures
            all@.len() == fragments_from(self.text(), self.index()).len(),
            forall|i: int|
                0 <= i < all@.len() ==> (#[trigger] all@[i]).is_span_of(
                    self.text(),
                    fragments_from(self.text(), self.index())[i],
                ),
    {
        let mut parser = self;
        let mut all: Vec<AnsiFragment<'text>> = Vec::new();
        let ghost text = self.text();
        let ghost start = self.index();
        loop
            invariant
                parser.wf(),
                parser.text() == text,
                text == self.text(),
                start == self.index(),
                0 <= start <= parser.index() <= text.len(),
                fragments_from(text, start) == Seq::new(
                    all@.len(),
                    |i: int| fragments_from(text, start)[i],
                ) + fragments_from(text, parser.index()),
                fragments_from(text, start).len() >= all@.len(),
                forall|i: int|
                    0 <= i < all@.len() ==> (#[trigger] all@[i]).is_span_of(
                        text,
                        fragments_from(text, start)[i],
                    ),
            decreases text.len() - parser.index(),
        {
            let ghost before = parser.index();
            match parser.next() {
                Some(fragment) => {
                    proof {
                        lemma_fragment_bounds(text, before);
                        let whole = fragments_from(text, start);
                        let done = Seq::new(all@.len(), |i: int| whole[i]);
                        let tail = fragments_from(text, before);
                        assert(tail =~= seq![fragment_at(text, before)] + fragments_from(
                            text,
                            parser.index(),
                        ));
                        assert(whole[all@.len() as int] == tail[0]);
                        assert(whole =~= Seq::new(all@.len() + 1, |i: int| whole[i])
                            + fragments_from(text, parser.index()));
                    }
                    all.push(fragment);
                },
                None => {
                    proof {
                        assert(fragments_from(text, parser.index()) =~= Seq::<Span>::empty());
                    }
                    return all;
                },
            }
        }
    }
}

} // verus!
