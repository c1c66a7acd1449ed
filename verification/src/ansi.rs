//! The interpreter of colour and style sequences: from the numbers between
//! `ESC [` and `m` to style events.

use vstd::prelude::*;
use vstd::slice::slice_subrange;
use crate::color::{Color, EightBitColor, FourBitColor, RgbColor};
use crate::error::{invalid_ansi_view, invalid_code_view, Error, ErrorView, ParseIntKind};

verus! {

broadcast use vstd::slice::group_slice_axioms;

/// A change of style that an escape sequence asks for.
#[derive(Debug, Copy, Clone, Eq, PartialEq, Structural)]
pub enum Ansi {
    /// A code that is known and has no effect here.
    Noop,
    Reset,
    Bold,
    Faint,
    Italic,
    Underline,
    Invert,
    CrossedOut,
    DoubleUnderline,
    BoldAndFaintOff,
    ItalicOff,
    UnderlineOff,
    InvertOff,
    CrossedOutOff,
    ForegroundColor(Color),
    DefaultForegroundColor,
    BackgroundColor(Color),
    DefaultBackgroundColor,
}

/// One field of a sequence: a number from 0 to 255, or why it is none.
pub type Field = Result<u8, ParseIntKind>;

/// What an interpretation gives: a value, or the error that ends it.
pub type Outcome<T> = Result<T, ErrorView>;

/// A field read digit by digit from the left, after the digits before it
/// gave `acc`: the first byte that is no digit, or the first digit that
/// takes the number above 255, decides the error.
pub open spec fn digits_value(bytes: Seq<u8>, acc: nat) -> Field
    decreases bytes.len(),
{
    if bytes.len() == 0 {
        Ok(acc as u8)
    } else if !(0x30 <= bytes[0] <= 0x39) {
        Err(ParseIntKind::InvalidDigit)
    } else if acc * 10 + (bytes[0] - 0x30) > 255 {
        Err(ParseIntKind::PosOverflow)
    } else {
        digits_value(bytes.drop_first(), (acc * 10 + (bytes[0] - 0x30)) as nat)
    }
}

/// The number that a field holds.
pub open spec fn field_value(bytes: Seq<u8>) -> Field {
    if bytes.len() == 0 {
        Err(ParseIntKind::Empty)
    } else {
        digits_value(bytes, 0)
    }
}

/// Where the first field of `bytes` ends: at the first `;`, or at the end.
pub open spec fn field_end(bytes: Seq<u8>) -> int
    decreases bytes.len(),
{
    if bytes.len() == 0 || bytes[0] == 0x3b {
        0
    } else {
        1 + field_end(bytes.drop_first())
    }
}

/// The fields of `bytes`, which `;` separates. There is always at least one.
pub open spec fn fields_of(bytes: Seq<u8>) -> Seq<Field>
    decreases bytes.len(),
    via fields_of_decreases
{
    let end = field_end(bytes);
    let first = field_value(bytes.subrange(0, end));
    if end >= bytes.len() {
        seq![first]
    } else {
        seq![first] + fields_of(bytes.subrange(end + 1, bytes.len() as int))
    }
}

#[via_fn]
proof fn fields_of_decreases(bytes: Seq<u8>) {
    lemma_field_end(bytes);
}

/// The first field ends inside the text, at a `;` unless at the end, and
/// holds no `;`.
pub proof fn lemma_field_end(bytes: Seq<u8>)
    ensures
        0 <= field_end(bytes) <= bytes.len(),
        field_end(bytes) < bytes.len() ==> bytes[field_end(bytes)] == 0x3b,
        forall|j: int| 0 <= j < field_end(bytes) ==> bytes[j] != 0x3b,
    decreases bytes.len(),
{
    if bytes.len() != 0 && bytes[0] != 0x3b {
        let rest = bytes.drop_first();
        lemma_field_end(rest);
        assert forall|j: int| 0 <= j < field_end(bytes) implies bytes[j] != 0x3b by {
            if j > 0 {
                assert(rest[j - 1] == bytes[j]);
            }
        }
    }
}

/// The colour that the fields after a code 38 or 48 name, and how many of
/// them were read. `5` is followed by a place in the palette, `2` by red,
/// green and blue. Fields are read one at a time: a field that is no number
/// ends the reading at once, before any missing field is noticed.
pub open spec fn extended_color(rest: Seq<Field>) -> (Outcome<Color>, nat) {
    if rest.len() == 0 {
        (Err(invalid_ansi_view("Missing 2 or 5"@)), 0)
    } else {
        match rest[0] {
            Err(kind) => (Err(ErrorView::ParseInt(kind)), 1),
            Ok(selector) => if selector == 5 {
                if rest.len() < 2 {
                    (Err(invalid_ansi_view("Missing 8-bit color"@)), 1)
                } else {
                    match rest[1] {
                        Err(kind) => (Err(ErrorView::ParseInt(kind)), 2),
                        Ok(code) => (Ok(Color::EightBit(EightBitColor { code })), 2),
                    }
                }
            } else if selector == 2 {
                if rest.len() >= 2 && rest[1] is Err {
                    (Err(ErrorView::ParseInt(rest[1]->Err_0)), 2)
                } else if rest.len() >= 3 && rest[2] is Err {
                    (Err(ErrorView::ParseInt(rest[2]->Err_0)), 3)
                } else if rest.len() >= 4 && rest[3] is Err {
                    (Err(ErrorView::ParseInt(rest[3]->Err_0)), 4)
                } else if rest.len() < 2 {
                    (Err(invalid_ansi_view("Missing ANSI red"@)), 1)
                } else if rest.len() < 3 {
                    (Err(invalid_ansi_view("Missing ANSI green"@)), 2)
                } else if rest.len() < 4 {
                    (Err(invalid_ansi_view("Missing ANSI blue"@)), 3)
                } else {
                    (
                        Ok(
                            Color::Rgb(
                                RgbColor { r: rest[1]->Ok_0, g: rest[2]->Ok_0, b: rest[3]->Ok_0 },
                            ),
                        ),
                        4,
                    )
                }
            } else {
                (Err(invalid_code_view("Expected 2 or 5, got "@, selector, ""@)), 1)
            },
        }
    }
}

/// The plain colour with place `code` among the eight.
pub open spec fn plain_color(code: u8) -> Outcome<Color> {
    if code < 8 {
        Ok(Color::FourBit(FourBitColor::at(code)))
    } else {
        Err(invalid_code_view("unexpected integer "@, code, " parsing 4-bit color"@))
    }
}

/// The bright colour with place `code` among the eight.
pub open spec fn bright_color(code: u8) -> Outcome<Color> {
    if code < 8 {
        Ok(Color::FourBit(FourBitColor::at((code + 8) as u8)))
    } else {
        Err(invalid_code_view("unexpected integer "@, code, " parsing bright 4-bit color"@))
    }
}

/// The event that a code without further fields stands for, where it
/// stands for one.
pub open spec fn simple_event(code: u8) -> Option<Ansi> {
    if code == 0 {
        Some(Ansi::Reset)
    } else if code == 1 {
        Some(Ansi::Bold)
    } else if code == 2 {
        Some(Ansi::Faint)
    } else if code == 3 {
        Some(Ansi::Italic)
    } else if code == 4 {
        Some(Ansi::Underline)
    } else if code == 7 {
        Some(Ansi::Invert)
    } else if code == 9 {
        Some(Ansi::CrossedOut)
    } else if code == 21 {
        Some(Ansi::DoubleUnderline)
    } else if code == 22 {
        Some(Ansi::BoldAndFaintOff)
    } else if code == 23 {
        Some(Ansi::ItalicOff)
    } else if code == 24 {
        Some(Ansi::UnderlineOff)
    } else if code == 27 {
        Some(Ansi::InvertOff)
    } else if code == 29 {
        Some(Ansi::CrossedOutOff)
    } else if 30 <= code <= 37 {
        Some(Ansi::ForegroundColor(Color::FourBit(FourBitColor::at((code - 30) as u8))))
    } else if code == 39 {
        Some(Ansi::DefaultForegroundColor)
    } else if 40 <= code <= 47 {
        Some(Ansi::BackgroundColor(Color::FourBit(FourBitColor::at((code - 40) as u8))))
    } else if code == 49 {
        Some(Ansi::DefaultBackgroundColor)
    } else if 90 <= code <= 97 {
        Some(Ansi::ForegroundColor(Color::FourBit(FourBitColor::at((code - 90 + 8) as u8))))
    } else if 100 <= code <= 107 {
        Some(Ansi::BackgroundColor(Color::FourBit(FourBitColor::at((code - 100 + 8) as u8))))
    } else if is_ignored_code(code) {
        Some(Ansi::Noop)
    } else {
        None
    }
}

/// The codes that are known and have no effect here: blinking, hiding,
/// fonts, frames and the like.
pub open spec fn is_ignored_code(code: u8) -> bool {
    ||| 5 <= code <= 6
    ||| code == 8
    ||| 10 <= code <= 20
    ||| 25 <= code <= 26
    ||| code == 28
    ||| 50 <= code <= 55
    ||| 58 <= code <= 65
    ||| 73 <= code <= 74
}

/// The event that `code` stands for, with the fields `rest` after it, and
/// how many of those fields belong to it.
pub open spec fn code_event(code: u8, rest: Seq<Field>) -> (Outcome<Ansi>, nat) {
    if code == 38 {
        match extended_color(rest).0 {
            Ok(c) => (Ok(Ansi::ForegroundColor(c)), extended_color(rest).1),
            Err(e) => (Err(e), extended_color(rest).1),
        }
    } else if code == 48 {
        match extended_color(rest).0 {
            Ok(c) => (Ok(Ansi::BackgroundColor(c)), extended_color(rest).1),
            Err(e) => (Err(e), extended_color(rest).1),
        }
    } else {
        match simple_event(code) {
            Some(event) => (Ok(event), 0),
            None => (Err(invalid_code_view("Unexpected code "@, code, ""@)), 0),
        }
    }
}

/// The first event of `fields`, which are not empty, and how many fields it
/// takes.
pub open spec fn first_event(fields: Seq<Field>) -> (Outcome<Ansi>, nat) {
    match fields[0] {
        Err(kind) => (Err(ErrorView::ParseInt(kind)), 1),
        Ok(code) => (
            code_event(code, fields.drop_first()).0,
            1 + code_event(code, fields.drop_first()).1,
        ),
    }
}

/// An event takes at least one field and no more than there are.
pub proof fn lemma_first_event_len(fields: Seq<Field>)
    requires
        fields.len() > 0,
    ensures
        1 <= first_event(fields).1 <= fields.len(),
{
}

/// The events of `fields`, in order, or the first error among them.
pub open spec fn events_of(fields: Seq<Field>) -> Outcome<Seq<Ansi>>
    decreases fields.len(),
{
    if fields.len() == 0 {
        Ok(Seq::empty())
    } else {
        match first_event(fields).0 {
            Err(e) => Err(e),
            Ok(event) => match events_of(
                fields.subrange(first_event(fields).1 as int, fields.len() as int),
            ) {
                Err(e) => Err(e),
                Ok(rest) => Ok(seq![event] + rest),
            },
        }
    }
}

/// Reads the number that a field holds.
pub fn parse_field(bytes: &[u8]) -> (field: Field)
    ensures
        field == field_value(bytes@),
{
    if bytes.len() == 0 {
        return Err(ParseIntKind::Empty);
    }
    let mut acc: u8 = 0;
    let mut i: usize = 0;
    assert(bytes@.subrange(0, bytes@.len() as int) =~= bytes@);
    while i < bytes.len()
        invariant
            0 <= i <= bytes@.len(),
            field_value(bytes@) == digits_value(
                bytes@.subrange(i as int, bytes@.len() as int),
                acc as nat,
            ),
        decreases bytes@.len() - i,
    {
        let b = bytes[i];
        let ghost rest = bytes@.subrange(i as int, bytes@.len() as int);
        assert(rest[0] == b);
        assert(rest.drop_first() =~= bytes@.subrange(i + 1, bytes@.len() as int));
        if !(0x30 <= b && b <= 0x39) {
            return Err(ParseIntKind::InvalidDigit);
        }
        let d: u8 = b - 0x30;
        if acc > 25 || (acc == 25 && d > 5) {
            return Err(ParseIntKind::PosOverflow);
        }
        acc = acc * 10 + d;
        i += 1;
    }
    assert(bytes@.subrange(i as int, bytes@.len() as int).len() == 0);
    Ok(acc)
}

fn first_field_end(bytes: &[u8]) -> (end: usize)
    ensures
        end == field_end(bytes@),
        end <= bytes@.len(),
{
    let mut i: usize = 0;
    assert(bytes@.subrange(0, bytes@.len() as int) =~= bytes@);
    while i < bytes.len() && bytes[i] != 0x3b
        invariant
            0 <= i <= bytes@.len(),
            field_end(bytes@) == i + field_end(bytes@.subrange(i as int, bytes@.len() as int)),
        decreases bytes@.len() - i,
    {
        let ghost rest = bytes@.subrange(i as int, bytes@.len() as int);
        assert(rest[0] == bytes@[i as int]);
        assert(rest.drop_first() =~= bytes@.subrange(i + 1, bytes@.len() as int));
        i += 1;
    }
    proof {
        let rest = bytes@.subrange(i as int, bytes@.len() as int);
        if i < bytes@.len() {
            assert(rest[0] == bytes@[i as int]);
        }
        assert(bytes@.subrange(0, bytes@.len() as int) =~= bytes@);
    }
    i
}

/// Splits `bytes` at each `;` and reads the number in each field.
pub fn split_fields(bytes: &[u8]) -> (fields: Vec<Field>)
    ensures
        fields@ == fields_of(bytes@),
{
    let mut fields: Vec<Field> = Vec::new();
    let mut start: usize = 0;
    let len: usize = bytes.len();
    assert(bytes@.subrange(0, len as int) =~= bytes@);
    assert(fields@ + fields_of(bytes@) =~= fields_of(bytes@));
    loop
        invariant
            len == bytes@.len(),
            0 <= start <= len,
            fields_of(bytes@) == fields@ + fields_of(bytes@.subrange(start as int, len as int)),
        decreases len - start,
    {
        let rest = slice_subrange(bytes, start, len);
        let end = first_field_end(rest);
        let field = parse_field(slice_subrange(rest, 0, end));
        let ghost before = fields@;
        fields.push(field);
        if end >= rest.len() {
            proof {
                assert(fields_of(rest@) =~= seq![field]);
                assert(fields@ =~= before + fields_of(rest@));
            }
            return fields;
        }
        proof {
            assert(rest@.subrange(end + 1, rest@.len() as int) =~= bytes@.subrange(
                start + end + 1,
                len as int,
            ));
            assert(fields_of(rest@) =~= seq![field] + fields_of(
                rest@.subrange(end + 1, rest@.len() as int),
            ));
            assert(fields_of(bytes@) =~= fields@ + fields_of(
                bytes@.subrange(start + end + 1, len as int),
            ));
        }
        start = start + end + 1;
    }
}

/// The fields of one sequence, read one at a time and turned into events.
pub struct AnsiIter {
    inner: Vec<Field>,
    pos: usize,
}

impl AnsiIter {
    /// The fields that have not been read.
    pub closed spec fn remaining(&self) -> Seq<Field> {
        self.inner@.subrange(self.pos as int, self.inner@.len() as int)
    }

    pub closed spec fn wf(&self) -> bool {
        self.pos <= self.inner@.len()
    }

    /// Starts at the first of `inner`.
    pub fn new(inner: Vec<Field>) -> (iter: Self)
        ensures
            iter.wf(),
            iter.remaining() == inner@,
    {
        assert(inner@.subrange(0, inner@.len() as int) =~= inner@);
        Self { inner, pos: 0 }
    }

    /// The next field, if one is left.
    pub fn next_field(&mut self) -> (field: Option<Field>)
        requires
            old(self).wf(),
        ensures
            final(self).wf(),
            old(self).remaining().len() == 0 ==> field is None && final(self).remaining()
                == old(self).remaining(),
            old(self).remaining().len() > 0 ==> field == Some(old(self).remaining()[0])
                && final(self).remaining() == old(self).remaining().drop_first(),
    {
        if self.pos < self.inner.len() {
            let field = self.inner[self.pos];
            self.pos += 1;
            assert(self.remaining() =~= old(self).remaining().drop_first());
            Some(field)
        } else {
            None
        }
    }

    /// The next event, if a field is left, or the error that its fields hold.
    pub fn next(&mut self) -> (event: Option<Result<Ansi, Error>>)
        requires
            old(self).wf(),
        ensures
            final(self).wf(),
            old(self).remaining().len() == 0 ==> event is None && final(self).remaining()
                == old(self).remaining(),
            old(self).remaining().len() > 0 ==> event is Some && outcome_view(event->0)
                == first_event(old(self).remaining()).0 && final(self).remaining() == old(
                self,
            ).remaining().subrange(
                first_event(old(self).remaining()).1 as int,
                old(self).remaining().len() as int,
            ),
    {
        match self.next_field() {
            Some(Ok(code)) => {
                let event = iter_next(code, self);
                proof {
                    let all = old(self).remaining();
                    let rest = all.drop_first();
                    let n = code_event(code, rest).1 as int;
                    assert(rest.subrange(n, rest.len() as int) =~= all.subrange(
                        1 + n,
                        all.len() as int,
                    ));
                }
                Some(event)
            },
            Some(Err(kind)) => {
                proof {
                    let all = old(self).remaining();
                    assert(all.drop_first() =~= all.subrange(1, all.len() as int));
                }
                Some(Err(Error::ParseInt(kind)))
            },
            None => None,
        }
    }
}

/// What a result of the interpreter holds, as plain values.
pub open spec fn outcome_view(r: Result<Ansi, Error>) -> Outcome<Ansi> {
    match r {
        Ok(event) => Ok(event),
        Err(e) => Err(e@),
    }
}

/// What a colour or an error holds, as plain values.
pub open spec fn color_outcome_view(r: Result<Color, Error>) -> Outcome<Color> {
    match r {
        Ok(color) => Ok(color),
        Err(e) => Err(e@),
    }
}

/// The event that `code` stands for. The codes 38 and 48 read the fields of
/// their colour from `iter`.
pub fn iter_next(code: u8, iter: &mut AnsiIter) -> (event: Result<Ansi, Error>)
    requires
        old(iter).wf(),
    ensures
        final(iter).wf(),
        outcome_view(event) == code_event(code, old(iter).remaining()).0,
        final(iter).remaining() == old(iter).remaining().subrange(
            code_event(code, old(iter).remaining()).1 as int,
            old(iter).remaining().len() as int,
        ),
{
    proof {
        let rest = iter.remaining();
        assert(rest.subrange(0, rest.len() as int) =~= rest);
    }
    if code == 0 {
        Ok(Ansi::Reset)
    } else if code == 1 {
        Ok(Ansi::Bold)
    } else if code == 2 {
        Ok(Ansi::Faint)
    } else if code == 3 {
        Ok(Ansi::Italic)
    } else if code == 4 {
        Ok(Ansi::Underline)
    } else if code == 5 || code == 6 {
        Ok(Ansi::Noop)
    } else if code == 7 {
        Ok(Ansi::Invert)
    } else if code == 8 {
        Ok(Ansi::Noop)
    } else if code == 9 {
        Ok(Ansi::CrossedOut)
    } else if 10 <= code && code <= 20 {
        Ok(Ansi::Noop)
    } else if code == 21 {
        Ok(Ansi::DoubleUnderline)
    } else if code == 22 {
        Ok(Ansi::BoldAndFaintOff)
    } else if code == 23 {
        Ok(Ansi::ItalicOff)
    } else if code == 24 {
        Ok(Ansi::UnderlineOff)
    } else if code == 25 || code == 26 {
        Ok(Ansi::Noop)
    } else if code == 27 {
        Ok(Ansi::InvertOff)
    } else if code == 28 {
        Ok(Ansi::Noop)
    } else if code == 29 {
        Ok(Ansi::CrossedOutOff)
    } else if 30 <= code && code <= 37 {
        match Color::parse_4bit(code - 30) {
            Ok(c) => Ok(Ansi::ForegroundColor(c)),
            Err(e) => Err(e),
        }
    } else if code == 38 {
        match Color::parse_8bit_or_rgb(iter) {
            Ok(c) => Ok(Ansi::ForegroundColor(c)),
            Err(e) => Err(e),
        }
    } else if code == 39 {
        Ok(Ansi::DefaultForegroundColor)
    } else if 40 <= code && code <= 47 {
        match Color::parse_4bit(code - 40) {
            Ok(c) => Ok(Ansi::BackgroundColor(c)),
            Err(e) => Err(e),
        }
    } else if code == 48 {
        match Color::parse_8bit_or_rgb(iter) {
            Ok(c) => Ok(Ansi::BackgroundColor(c)),
            Err(e) => Err(e),
        }
    } else if code == 49 {
        Ok(Ansi::DefaultBackgroundColor)
    } else if 50 <= code && code <= 55 {
        Ok(Ansi::Noop)
    } else if 58 <= code && code <= 65 {
        Ok(Ansi::Noop)
    } else if 73 <= code && code <= 74 {
        Ok(Ansi::Noop)
    } else if 90 <= code && code <= 97 {
        match Color::parse_4bit_bright(code - 90) {
            Ok(c) => Ok(Ansi::ForegroundColor(c)),
            Err(e) => Err(e),
        }
    } else if 100 <= code && code <= 107 {
        match Color::parse_4bit_bright(code - 100) {
            Ok(c) => Ok(Ansi::BackgroundColor(c)),
            Err(e) => Err(e),
        }
    } else {
        Err(Error::invalid_code("Unexpected code ", code, ""))
    }
}

impl Color {
    /// The plain colour with place `code` among the eight.
    pub fn parse_4bit(code: u8) -> (color: Result<Color, Error>)
        ensures
            color_outcome_view(color) == plain_color(code),
    {
        match FourBitColor::from_code(code) {
            Some(c) if code < 8 => Ok(Color::FourBit(c)),
            _ => Err(Error::invalid_code("unexpected integer ", code, " parsing 4-bit color")),
        }
    }

    /// The bright colour with place `code` among the eight.
    pub fn parse_4bit_bright(code: u8) -> (color: Result<Color, Error>)
        ensures
            color_outcome_view(color) == bright_color(code),
    {
        if code < 8 {
            match FourBitColor::from_code(code + 8) {
                Some(c) => Ok(Color::FourBit(c)),
                None => Err(
                    Error::invalid_code("unexpected integer ", code, " parsing bright 4-bit color"),
                ),
            }
        } else {
            Err(Error::invalid_code("unexpected integer ", code, " parsing bright 4-bit color"))
        }
    }

    /// The colour that the next fields of `iter` name, after a code 38 or 48.
    pub fn parse_8bit_or_rgb(iter: &mut AnsiIter) -> (color: Result<Color, Error>)
        requires
            old(iter).wf(),
        ensures
            final(iter).wf(),
            color_outcome_view(color) == extended_color(old(iter).remaining()).0,
            final(iter).remaining() == old(iter).remaining().subrange(
                extended_color(old(iter).remaining()).1 as int,
                old(iter).remaining().len() as int,
            ),
    {
        let ghost all = iter.remaining();
        proof {
            assert(all.subrange(0, all.len() as int) =~= all);
            assert(all.len() >= 1 ==> all.drop_first() =~= all.subrange(1, all.len() as int));
            assert(all.len() >= 2 ==> all.drop_first().drop_first() =~= all.subrange(
                2,
                all.len() as int,
            ));
            assert(all.len() >= 3 ==> all.drop_first().drop_first().drop_first() =~= all.subrange(
                3,
                all.len() as int,
            ));
            assert(all.len() >= 4 ==> all.drop_first().drop_first().drop_first().drop_first()
                =~= all.subrange(4, all.len() as int));
        }
        let code = match iter.next_field() {
            Some(Ok(code)) => code,
            Some(Err(kind)) => {
                return Err(Error::ParseInt(kind));
            },
            None => {
                return Err(Error::invalid_ansi("Missing 2 or 5"));
            },
        };
        if code == 5 {
            match iter.next_field() {
                Some(Ok(color)) => Ok(Color::EightBit(EightBitColor::new(color))),
                Some(Err(kind)) => Err(Error::ParseInt(kind)),
                None => Err(Error::invalid_ansi("Missing 8-bit color")),
            }
        } else if code == 2 {
            let r = match iter.next_field() {
                Some(Ok(r)) => Some(r),
                Some(Err(kind)) => {
                    return Err(Error::ParseInt(kind));
                },
                None => None,
            };
            let g = match iter.next_field() {
                Some(Ok(g)) => Some(g),
                Some(Err(kind)) => {
                    return Err(Error::ParseInt(kind));
                },
                None => None,
            };
            let b = match iter.next_field() {
                Some(Ok(b)) => Some(b),
                Some(Err(kind)) => {
                    return Err(Error::ParseInt(kind));
                },
                None => None,
            };
            match (r, g, b) {
                (None, _, _) => Err(Error::invalid_ansi("Missing ANSI red")),
                (Some(_), None, _) => Err(Error::invalid_ansi("Missing ANSI green")),
                (Some(_), Some(_), None) => Err(Error::invalid_ansi("Missing ANSI blue")),
                (Some(r), Some(g), Some(b)) => Ok(Color::Rgb(RgbColor { r, g, b })),
            }
        } else {
            Err(Error::invalid_code("Expected 2 or 5, got ", code, ""))
        }
    }
}

/// Whether every byte of `bytes` is a decimal digit.
pub open spec fn all_digits(bytes: Seq<u8>) -> bool {
    forall|i: int| 0 <= i < bytes.len() ==> 0x30 <= #[trigger] bytes[i] <= 0x39
}

/// The number that decimal digits write, after the digits before them
/// wrote `acc`.
pub open spec fn decimal_value(bytes: Seq<u8>, acc: nat) -> nat
    decreases bytes.len(),
{
    if bytes.len() == 0 {
        acc
    } else {
        decimal_value(bytes.drop_first(), (acc * 10 + (bytes[0] - 0x30)) as nat)
    }
}

/// The number that decimal digits write is the number that the digits
/// before the last write, times ten, and the last digit.
pub proof fn lemma_decimal_value_last(bytes: Seq<u8>, acc: nat)
    requires
        bytes.len() > 0,
        all_digits(bytes),
    ensures
        decimal_value(bytes, acc) == decimal_value(bytes.drop_last(), acc) * 10 + (bytes.last()
            - 0x30),
    decreases bytes.len(),
{
    let next = (acc * 10 + (bytes[0] - 0x30)) as nat;
    assert(decimal_value(bytes, acc) == decimal_value(bytes.drop_first(), next));
    if bytes.len() == 1 {
        assert(bytes.drop_first() =~= Seq::<u8>::empty());
        assert(bytes.drop_last() =~= Seq::<u8>::empty());
        assert(decimal_value(Seq::<u8>::empty(), next) == next);
        assert(decimal_value(Seq::<u8>::empty(), acc) == acc);
    } else {
        let rest = bytes.drop_first();
        let front = bytes.drop_last();
        assert(rest.drop_last() =~= front.drop_first());
        assert(front[0] == bytes[0]);
        assert(rest.last() == bytes.last());
        assert forall|i: int| 0 <= i < rest.len() implies 0x30 <= #[trigger] rest[i] <= 0x39 by {
            assert(rest[i] == bytes[i + 1]);
        }
        lemma_decimal_value_last(rest, next);
        assert(decimal_value(front, acc) == decimal_value(front.drop_first(), next));
    }
}

/// What decimal digits write is no less than what the digits before them
/// wrote.
pub proof fn lemma_decimal_value_grows(bytes: Seq<u8>, acc: nat)
    requires
        all_digits(bytes),
    ensures
        decimal_value(bytes, acc) >= acc,
    decreases bytes.len(),
{
    if bytes.len() > 0 {
        lemma_decimal_value_grows(bytes.drop_first(), (acc * 10 + (bytes[0] - 0x30)) as nat);
    }
}

/// A field of decimal digits holds the number that they write, where that
/// is at most 255, and is too large where it is more.
pub proof fn lemma_field_of_digits(bytes: Seq<u8>, acc: nat)
    requires
        all_digits(bytes),
        acc <= 255,
    ensures
        digits_value(bytes, acc) == if decimal_value(bytes, acc) <= 255 {
            Ok::<u8, ParseIntKind>(decimal_value(bytes, acc) as u8)
        } else {
            Err::<u8, ParseIntKind>(ParseIntKind::PosOverflow)
        },
        bytes.len() > 0 ==> field_value(bytes) == digits_value(bytes, 0),
    decreases bytes.len(),
{
    if bytes.len() > 0 {
        let next = (acc * 10 + (bytes[0] - 0x30)) as nat;
        lemma_decimal_value_grows(bytes.drop_first(), next);
        if next <= 255 {
            lemma_field_of_digits(bytes.drop_first(), next);
        }
    }
}

} // verus!
