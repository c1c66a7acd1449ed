//! Colouring of a shell command: from the tokens of the command to HTML
//! with a class for each kind of token.

use vstd::prelude::*;
use vstd::slice::slice_subrange;
use vstd::string::StringExecFns;
use crate::esc::{escape_into, escaped};
use crate::text::{bytes_of, push_bytes, push_text};

verus! {

broadcast use vstd::slice::group_slice_axioms;

/// Why tokens give no delimiter for a here-document.
#[derive(Debug, Clone, Copy, PartialEq, Eq)]
pub enum Error {
    /// The delimiter holds a command between backticks.
    BackticksInHeredocDelimiter,
    /// The delimiter holds a command between `$(` and `)`.
    ParensInHeredocDelimiter,
}

/// A list of tokens.
#[derive(Debug)]
pub struct Tokens(pub Vec<Token>);

/// A token of a command.
#[derive(Debug)]
pub enum Token {
    /// `# this is a comment`
    Comment(String),
    /// `\033`, `\@`
    EscapeSequence(String),
    /// `|`, `>`, `2>&1`
    Pipe(String),
    Whitespace(String),
    /// `--foo`
    Word(String),
    /// A string in double quotes.
    DString(DString),
    /// A string in single quotes, with its quotes.
    SString(String),
    /// Tokens between backticks.
    Backticks(Tokens),
    /// Tokens between `[` and `]`.
    Brackets(Tokens),
    /// Tokens between `(` and `)`.
    Parens(Tokens),
    /// Tokens between `$(` and `)`.
    DollarParens(Tokens),
    /// Tokens between `{` and `}`.
    Braces(Tokens),
    /// A here-document.
    Heredoc(Heredoc),
    /// `$@`, `$HELLO_WORLD`
    Variable(String),
}

/// A string in double quotes.
#[derive(Debug)]
pub struct DString(pub Vec<DStringToken>);

/// A token of a string in double quotes.
#[derive(Debug)]
pub enum DStringToken {
    Content(String),
    Variable(String),
    Escaped(String),
    Backticks(Tokens),
    Parens(Tokens),
}

/// A here-document: the rest of the line that starts it, its lines, and the
/// word that ends it.
#[derive(Debug)]
pub struct Heredoc {
    pub first_line: Tokens,
    pub content: Vec<String>,
    pub last: String,
}

/// What the colouring goes by: the prefix of the class names, and the
/// programs whose subcommands are highlighted.
pub struct Args {
    pub prefix: String,
    pub highlight: Vec<String>,
}

/// What the next word is.
#[derive(Debug, Copy, Clone, Eq, PartialEq, Structural)]
pub enum State {
    /// An argument.
    Default,
    /// A command, or a variable set for one.
    Start,
    /// The file that a redirection names.
    Pipe,
}

/// `<span class='` or, with double quotes, `<span class="`, the prefix, the
/// name of the class, the end of the tag, the escaped text, and `</span>`.
pub open spec fn span(prefix: Seq<char>, class: Seq<char>, double: bool, text: Seq<u8>) -> Seq<u8> {
    (if double {
        bytes_of("<span class=\""@)
    } else {
        bytes_of("<span class='"@)
    }) + bytes_of(prefix) + bytes_of(class) + (if double {
        bytes_of("\">"@)
    } else {
        bytes_of("'>"@)
    }) + escaped(text) + bytes_of("</span>"@)
}

/// The place of the first `=` in `word`, or its length where it has none.
pub open spec fn equals_sign(word: Seq<u8>) -> int
    decreases word.len(),
{
    if word.len() == 0 || word[0] == 0x3d {
        0
    } else {
        1 + equals_sign(word.drop_first())
    }
}

/// The names of the programs whose subcommands are highlighted.
pub open spec fn names(highlight: Seq<String>) -> Set<Seq<char>> {
    Set::new(|w: Seq<char>| exists|i: int| 0 <= i < highlight.len() && highlight[i]@ == w)
}

/// The colouring so far: the HTML written, what the next word is, and
/// whether the next word is a subcommand to highlight.
pub struct Walk {
    pub html: Seq<u8>,
    pub next: State,
    pub hl_subcommand: bool,
}

/// The HTML of a word.
pub open spec fn word_html(
    w: Seq<char>,
    next: State,
    hl_subcommand: bool,
    prefix: Seq<char>,
) -> Seq<u8> {
    let bytes = bytes_of(w);
    let eq = equals_sign(bytes);
    if next == State::Start {
        if eq < bytes.len() {
            span(prefix, "env"@, true, bytes)
        } else {
            span(prefix, "cmd"@, true, bytes)
        }
    } else if next == State::Pipe {
        span(prefix, "pipe"@, false, bytes)
    } else if bytes.len() > 0 && bytes[0] == 0x2d {
        if eq < bytes.len() {
            span(prefix, "flag"@, true, bytes.subrange(0, eq)) + span(
                prefix,
                "arg"@,
                true,
                bytes.subrange(eq, bytes.len() as int),
            )
        } else {
            span(prefix, "flag"@, true, bytes)
        }
    } else if hl_subcommand {
        span(prefix, "hl"@, true, bytes)
    } else {
        span(prefix, "arg"@, true, bytes)
    }
}

/// Whether a word is a command whose subcommand is highlighted.
pub open spec fn starts_subcommand(w: Seq<char>, next: State, highlight: Set<Seq<char>>) -> bool {
    next == State::Start && equals_sign(bytes_of(w)) >= bytes_of(w).len() && highlight.contains(w)
}

/// Whether a token ends a command, so that a command follows it.
pub open spec fn ends_command(p: Seq<char>) -> bool {
    p == "|"@ || p == ";"@ || p == "&&"@
}

/// What the word after `token` is, and whether it is a subcommand to
/// highlight. White space and a line continuation change nothing of that.
pub open spec fn state_after(
    token: Token,
    next: State,
    hl_subcommand: bool,
    highlight: Set<Seq<char>>,
) -> (
    State,
    bool,
) {
    match token {
        Token::EscapeSequence(e) => if e@ == "\\\n"@ {
            (next, hl_subcommand)
        } else {
            (State::Default, false)
        },
        Token::Pipe(p) => if ends_command(p@) {
            (State::Start, false)
        } else {
            (State::Pipe, false)
        },
        Token::Whitespace(_) => (next, hl_subcommand),
        Token::Word(w) => (State::Default, starts_subcommand(w@, next, highlight)),
        _ => (State::Default, false),
    }
}

/// Tokens between two marks of punctuation.
pub open spec fn between(
    prefix: Seq<char>,
    open: Seq<char>,
    inner: Seq<u8>,
    close: Seq<char>,
) -> Seq<u8> {
    span(prefix, "punct"@, false, bytes_of(open)) + inner + span(
        prefix,
        "punct"@,
        false,
        bytes_of(close),
    )
}

/// The HTML of one token. A word is a command where `next` says so, the
/// file of a redirection after one, and elsewhere a flag, a highlighted
/// subcommand or an argument.
pub open spec fn token_html(
    token: Token,
    next: State,
    hl_subcommand: bool,
    prefix: Seq<char>,
    highlight: Set<Seq<char>>,
) -> Seq<u8>
    decreases token, 1nat,
{
    match token {
        Token::Comment(c) => span(prefix, "com"@, false, bytes_of(c@)),
        Token::EscapeSequence(e) => span(prefix, "esc"@, false, bytes_of(e@)),
        Token::Pipe(p) => span(
            prefix,
            if p@ == ";"@ || p@ == "&&"@ {
                "punct"@
            } else {
                "pipe"@
            },
            false,
            bytes_of(p@),
        ),
        Token::Whitespace(w) => bytes_of(w@),
        Token::Word(w) => word_html(w@, next, hl_subcommand, prefix),
        Token::DString(d) => d_string_html(d.0@, prefix, highlight),
        Token::SString(s) => span(prefix, "str"@, false, bytes_of(s@)),
        Token::Backticks(t) => between(
            prefix,
            "`"@,
            colorized(t.0@, prefix, highlight, true).html,
            "`"@,
        ),
        Token::Brackets(t) => between(
            prefix,
            "["@,
            colorized(t.0@, prefix, highlight, false).html,
            "]"@,
        ),
        Token::Parens(t) => between(
            prefix,
            "("@,
            colorized(t.0@, prefix, highlight, false).html,
            ")"@,
        ),
        Token::DollarParens(t) => between(
            prefix,
            "$("@,
            colorized(t.0@, prefix, highlight, true).html,
            ")"@,
        ),
        Token::Braces(t) => between(
            prefix,
            "{"@,
            colorized(t.0@, prefix, highlight, true).html,
            "}"@,
        ),
        Token::Heredoc(h) => heredoc_html(h, prefix, highlight),
        Token::Variable(v) => span(prefix, "var"@, false, bytes_of(v@)),
    }
}

/// The HTML of `tokens`, with what the word after them is. The first word
/// is a command where `as_command` holds.
pub open spec fn colorized(
    tokens: Seq<Token>,
    prefix: Seq<char>,
    highlight: Set<Seq<char>>,
    as_command: bool,
) -> Walk
    decreases tokens, 0nat,
{
    if tokens.len() == 0 {
        Walk {
            html: Seq::empty(),
            next: if as_command {
                State::Start
            } else {
                State::Default
            },
            hl_subcommand: false,
        }
    } else {
        let before = colorized(tokens.drop_last(), prefix, highlight, as_command);
        let after = state_after(tokens.last(), before.next, before.hl_subcommand, highlight);
        Walk {
            html: before.html + token_html(
                tokens.last(),
                before.next,
                before.hl_subcommand,
                prefix,
                highlight,
            ),
            next: after.0,
            hl_subcommand: after.1,
        }
    }
}

/// The tag that opens a string.
pub open spec fn str_open(prefix: Seq<char>) -> Seq<u8> {
    bytes_of("<span class='"@) + bytes_of(prefix) + bytes_of("str'>"@)
}

/// The HTML of one token of a string in double quotes. A command inside
/// the string stands outside the span of the string.
pub open spec fn d_token_html(
    token: DStringToken,
    prefix: Seq<char>,
    highlight: Set<Seq<char>>,
) -> Seq<u8>
    decreases token, 1nat,
{
    match token {
        DStringToken::Content(c) => escaped(bytes_of(c@)),
        DStringToken::Variable(v) => span(prefix, "var"@, false, bytes_of(v@)),
        DStringToken::Escaped(e) => span(prefix, "esc"@, false, bytes_of(e@)),
        DStringToken::Backticks(t) => bytes_of("`</span>"@) + colorized(
            t.0@,
            prefix,
            highlight,
            true,
        ).html + str_open(prefix) + bytes_of("`"@),
        DStringToken::Parens(t) => bytes_of("$(</span>"@) + colorized(
            t.0@,
            prefix,
            highlight,
            true,
        ).html + str_open(prefix) + bytes_of(")"@),
    }
}

/// The HTML of the inside of a string in double quotes.
pub open spec fn d_string_inner(
    tokens: Seq<DStringToken>,
    prefix: Seq<char>,
    highlight: Set<Seq<char>>,
) -> Seq<u8>
    decreases tokens, 0nat,
{
    if tokens.len() == 0 {
        Seq::empty()
    } else {
        d_string_inner(tokens.drop_last(), prefix, highlight) + d_token_html(
            tokens.last(),
            prefix,
            highlight,
        )
    }
}

/// The HTML of a string in double quotes.
pub open spec fn d_string_html(
    tokens: Seq<DStringToken>,
    prefix: Seq<char>,
    highlight: Set<Seq<char>>,
) -> Seq<u8>
    decreases tokens, 1nat,
{
    str_open(prefix) + bytes_of("\""@) + d_string_inner(tokens, prefix, highlight) + bytes_of(
        "\"</span>"@,
    )
}

/// The lines of a here-document, each escaped and ended.
pub open spec fn lines_html(lines: Seq<String>) -> Seq<u8>
    decreases lines.len(),
{
    if lines.len() == 0 {
        Seq::empty()
    } else {
        lines_html(lines.drop_last()) + escaped(bytes_of(lines.last()@)) + bytes_of("\n"@)
    }
}

/// The HTML of a here-document.
pub open spec fn heredoc_html(h: Heredoc, prefix: Seq<char>, highlight: Set<Seq<char>>) -> Seq<u8>
    decreases h, 0nat,
{
    bytes_of("&lt;&lt;"@) + colorized(h.first_line.0@, prefix, highlight, false).html + bytes_of(
        "\n"@,
    ) + str_open(prefix) + lines_html(h.content@) + bytes_of("</span>"@) + escaped(
        bytes_of(h.last@),
    ) + bytes_of("\n"@)
}

/// Whether two texts are the same.
pub fn is_text(s: &str, other: &str) -> (same: bool)
    ensures
        same == (s@ == other@),
{
    String::from_str(s) == String::from_str(other)
}

fn first_equals(word: &[u8]) -> (at: usize)
    ensures
        at == equals_sign(word@),
        at <= word@.len(),
{
    let mut i: usize = 0;
    assert(word@.subrange(0, word@.len() as int) =~= word@);
    while i < word.len() && word[i] != 0x3d
        invariant
            0 <= i <= word@.len(),
            equals_sign(word@) == i + equals_sign(word@.subrange(i as int, word@.len() as int)),
        decreases word@.len() - i,
    {
        let ghost rest = word@.subrange(i as int, word@.len() as int);
        assert(rest[0] == word@[i as int]);
        assert(rest.drop_first() =~= word@.subrange(i + 1, word@.len() as int));
        i += 1;
    }
    proof {
        let rest = word@.subrange(i as int, word@.len() as int);
        if i < word@.len() {
            assert(rest[0] == word@[i as int]);
        }
    }
    i
}

fn is_highlighted(highlight: &Vec<String>, w: &String) -> (found: bool)
    ensures
        found == names(highlight@).contains(w@),
{
    let mut i: usize = 0;
    while i < highlight.len()
        invariant
            0 <= i <= highlight@.len(),
            forall|j: int| 0 <= j < i ==> highlight@[j]@ != w@,
        decreases highlight@.len() - i,
    {
        if highlight[i] == *w {
            return true;
        }
        i += 1;
    }
    false
}

fn push_span(buf: &mut Vec<u8>, prefix: &str, class: &str, double: bool, text: &[u8])
    ensures
        final(buf)@ == old(buf)@ + span(prefix@, class@, double, text@),
{
    if double {
        push_text(buf, "<span class=\"");
    } else {
        push_text(buf, "<span class='");
    }
    push_text(buf, prefix);
    push_text(buf, class);
    if double {
        push_text(buf, "\">");
    } else {
        push_text(buf, "'>");
    }
    escape_into(buf, text);
    push_text(buf, "</span>");
    assert(buf@ =~= old(buf)@ + span(prefix@, class@, double, text@));
}

fn push_str_open(buf: &mut Vec<u8>, prefix: &str)
    ensures
        final(buf)@ == old(buf)@ + str_open(prefix@),
{
    push_text(buf, "<span class='");
    push_text(buf, prefix);
    push_text(buf, "str'>");
    assert(buf@ =~= old(buf)@ + str_open(prefix@));
}

fn push_word(buf: &mut Vec<u8>, w: &String, next: State, hl_subcommand: bool, prefix: &str)
    ensures
        final(buf)@ == old(buf)@ + word_html(w@, next, hl_subcommand, prefix@),
{
    let bytes = w.as_str().as_bytes();
    let eq = first_equals(bytes);
    if next == State::Start {
        if eq < bytes.len() {
            push_span(buf, prefix, "env", true, bytes);
        } else {
            push_span(buf, prefix, "cmd", true, bytes);
        }
    } else if next == State::Pipe {
        push_span(buf, prefix, "pipe", false, bytes);
    } else if bytes.len() > 0 && bytes[0] == 0x2d {
        if eq < bytes.len() {
            push_span(buf, prefix, "flag", true, slice_subrange(bytes, 0, eq));
            push_span(buf, prefix, "arg", true, slice_subrange(bytes, eq, bytes.len()));
            assert(buf@ =~= old(buf)@ + (span(prefix@, "flag"@, true, bytes@.subrange(0, eq as int))
                + span(prefix@, "arg"@, true, bytes@.subrange(eq as int, bytes@.len() as int))));
        } else {
            push_span(buf, prefix, "flag", true, bytes);
        }
    } else if hl_subcommand {
        push_span(buf, prefix, "hl", true, bytes);
    } else {
        push_span(buf, prefix, "arg", true, bytes);
    }
}

fn push_between(
    buf: &mut Vec<u8>,
    args: &Args,
    open: &str,
    inner: &Tokens,
    as_command: bool,
    close: &str,
)
    ensures
        final(buf)@ == old(buf)@ + between(
            args.prefix@,
            open@,
            colorized(inner.0@, args.prefix@, names(args.highlight@), as_command).html,
            close@,
        ),
    decreases inner, 1nat,
{
    push_span(buf, args.prefix.as_str(), "punct", false, open.as_bytes());
    let ghost opened = buf@;
    inner.colorize(buf, args, as_command);
    let ghost filled = buf@;
    push_span(buf, args.prefix.as_str(), "punct", false, close.as_bytes());
    assert(buf@ =~= old(buf)@ + between(
        args.prefix@,
        open@,
        colorized(inner.0@, args.prefix@, names(args.highlight@), as_command).html,
        close@,
    ));
}

/// What the word after `token` is, and whether it is a subcommand to
/// highlight.
fn next_state(
    token: &Token,
    next: State,
    hl_subcommand: bool,
    args: &Args,
) -> (after: (State, bool))
    ensures
        after == state_after(*token, next, hl_subcommand, names(args.highlight@)),
{
    match token {
        Token::EscapeSequence(e) => {
            if is_text(e.as_str(), "\\\n") {
                (next, hl_subcommand)
            } else {
                (State::Default, false)
            }
        },
        Token::Pipe(p) => {
            if is_text(p.as_str(), "|") || is_text(p.as_str(), ";") || is_text(p.as_str(), "&&") {
                (State::Start, false)
            } else {
                (State::Pipe, false)
            }
        },
        Token::Whitespace(_) => (next, hl_subcommand),
        Token::Word(w) => {
            let bytes = w.as_str().as_bytes();
            let starts = next == State::Start && first_equals(bytes) >= bytes.len()
                && is_highlighted(&args.highlight, w);
            (State::Default, starts)
        },
        _ => (State::Default, false),
    }
}

fn colorize_token(token: &Token, buf: &mut Vec<u8>, args: &Args, next: State, hl_subcommand: bool)
    ensures
        final(buf)@ == old(buf)@ + token_html(
            *token,
            next,
            hl_subcommand,
            args.prefix@,
            names(args.highlight@),
        ),
    decreases token, 2nat,
{
    let prefix = args.prefix.as_str();
    match token {
        Token::Comment(c) => push_span(buf, prefix, "com", false, c.as_str().as_bytes()),
        Token::EscapeSequence(e) => push_span(buf, prefix, "esc", false, e.as_str().as_bytes()),
        Token::Pipe(p) => {
            if is_text(p.as_str(), ";") || is_text(p.as_str(), "&&") {
                push_span(buf, prefix, "punct", false, p.as_str().as_bytes());
            } else {
                push_span(buf, prefix, "pipe", false, p.as_str().as_bytes());
            }
        },
        Token::Whitespace(w) => push_text(buf, w.as_str()),
        Token::Word(w) => push_word(buf, w, next, hl_subcommand, prefix),
        Token::DString(d) => d.colorize(buf, args),
        Token::SString(s) => push_span(buf, prefix, "str", false, s.as_str().as_bytes()),
        Token::Backticks(t) => push_between(buf, args, "`", t, true, "`"),
        Token::Brackets(t) => push_between(buf, args, "[", t, false, "]"),
        Token::Parens(t) => push_between(buf, args, "(", t, false, ")"),
        Token::DollarParens(t) => push_between(buf, args, "$(", t, true, ")"),
        Token::Braces(t) => push_between(buf, args, "{", t, true, "}"),
        Token::Heredoc(h) => h.colorize(buf, args),
        Token::Variable(v) => push_span(buf, prefix, "var", false, v.as_str().as_bytes()),
    }
}

fn colorize_d_token(token: &DStringToken, buf: &mut Vec<u8>, args: &Args)
    ensures
        final(buf)@ == old(buf)@ + d_token_html(*token, args.prefix@, names(args.highlight@)),
    decreases token, 2nat,
{
    let prefix = args.prefix.as_str();
    match token {
        DStringToken::Content(c) => escape_into(buf, c.as_str().as_bytes()),
        DStringToken::Variable(v) => push_span(buf, prefix, "var", false, v.as_str().as_bytes()),
        DStringToken::Escaped(e) => push_span(buf, prefix, "esc", false, e.as_str().as_bytes()),
        DStringToken::Backticks(t) => {
            push_text(buf, "`</span>");
            t.colorize(buf, args, true);
            push_str_open(buf, prefix);
            push_text(buf, "`");
            assert(buf@ =~= old(buf)@ + d_token_html(
                *token,
                args.prefix@,
                names(args.highlight@),
            ));
        },
        DStringToken::Parens(t) => {
            push_text(buf, "$(</span>");
            t.colorize(buf, args, true);
            push_str_open(buf, prefix);
            push_text(buf, ")");
            assert(buf@ =~= old(buf)@ + d_token_html(
                *token,
                args.prefix@,
                names(args.highlight@),
            ));
        },
    }
}

/// Appends the HTML of a command.
pub fn colorize(buf: &mut Vec<u8>, tokens: &Tokens, args: &Args)
    ensures
        final(buf)@ == old(buf)@ + colorized(
            tokens.0@,
            args.prefix@,
            names(args.highlight@),
            true,
        ).html,
{
    tokens.colorize(buf, args, true);
}

impl Tokens {
    /// Appends the HTML of the tokens. With `as_command` the first word is
    /// a command.
    pub fn colorize(&self, buf: &mut Vec<u8>, args: &Args, as_command: bool)
        ensures
            final(buf)@ == old(buf)@ + colorized(
                self.0@,
                args.prefix@,
                names(args.highlight@),
                as_command,
            ).html,
        decreases self, 0nat,
    {
        let mut next = if as_command {
            State::Start
        } else {
            State::Default
        };
        let mut hl_subcommand = false;
        let ghost all = self.0@;
        let ghost prefix = args.prefix@;
        let ghost marked = names(args.highlight@);
        let mut i: usize = 0;
        proof {
            assert(all.subrange(0, 0) =~= Seq::<Token>::empty());
            assert(buf@ =~= old(buf)@ + Seq::<u8>::empty());
        }
        while i < self.0.len()
            invariant
                0 <= i <= all.len(),
                all == self.0@,
                prefix == args.prefix@,
                marked == names(args.highlight@),
                buf@ == old(buf)@ + colorized(
                    all.subrange(0, i as int),
                    prefix,
                    marked,
                    as_command,
                ).html,
                next == colorized(all.subrange(0, i as int), prefix, marked, as_command).next,
                hl_subcommand == colorized(
                    all.subrange(0, i as int),
                    prefix,
                    marked,
                    as_command,
                ).hl_subcommand,
            decreases all.len() - i,
        {
            let ghost before = colorized(all.subrange(0, i as int), prefix, marked, as_command);
            proof {
                assert(all.subrange(0, i + 1).drop_last() =~= all.subrange(0, i as int));
                assert(all.subrange(0, i + 1).last() == all[i as int]);
            }
            let token = &self.0[i];
            colorize_token(token, buf, args, next, hl_subcommand);
            let after = next_state(token, next, hl_subcommand, args);
            next = after.0;
            hl_subcommand = after.1;
            assert(buf@ =~= old(buf)@ + (before.html + token_html(
                *token,
                before.next,
                before.hl_subcommand,
                prefix,
                marked,
            )));
            i += 1;
        }
        assert(all.subrange(0, i as int) =~= all);
    }
}

impl DString {
    /// Appends the HTML of the string.
    pub fn colorize(&self, buf: &mut Vec<u8>, args: &Args)
        ensures
            final(buf)@ == old(buf)@ + d_string_html(
                self.0@,
                args.prefix@,
                names(args.highlight@),
            ),
        decreases self, 0nat,
    {
        let ghost all = self.0@;
        let ghost prefix = args.prefix@;
        let ghost marked = names(args.highlight@);
        push_str_open(buf, args.prefix.as_str());
        push_text(buf, "\"");
        let ghost start = buf@;
        let mut i: usize = 0;
        proof {
            assert(all.subrange(0, 0) =~= Seq::<DStringToken>::empty());
            assert(buf@ =~= start + Seq::<u8>::empty());
        }
        while i < self.0.len()
            invariant
                0 <= i <= all.len(),
                all == self.0@,
                prefix == args.prefix@,
                marked == names(args.highlight@),
                buf@ == start + d_string_inner(all.subrange(0, i as int), prefix, marked),
            decreases all.len() - i,
        {
            let ghost before = d_string_inner(all.subrange(0, i as int), prefix, marked);
            proof {
                assert(all.subrange(0, i + 1).drop_last() =~= all.subrange(0, i as int));
                assert(all.subrange(0, i + 1).last() == all[i as int]);
            }
            colorize_d_token(&self.0[i], buf, args);
            assert(buf@ =~= start + (before + d_token_html(all[i as int], prefix, marked)));
            i += 1;
        }
        assert(all.subrange(0, i as int) =~= all);
        push_text(buf, "\"</span>");
        assert(buf@ =~= old(buf)@ + d_string_html(all, prefix, marked));
    }
}

fn push_lines(buf: &mut Vec<u8>, content: &Vec<String>)
    ensures
        final(buf)@ == old(buf)@ + lines_html(content@),
{
    let ghost lines = content@;
    let mut i: usize = 0;
    proof {
        assert(lines.subrange(0, 0) =~= Seq::<String>::empty());
        assert(buf@ =~= old(buf)@ + Seq::<u8>::empty());
    }
    while i < content.len()
        invariant
            0 <= i <= lines.len(),
            lines == content@,
            buf@ == old(buf)@ + lines_html(lines.subrange(0, i as int)),
        decreases lines.len() - i,
    {
        let ghost before = lines_html(lines.subrange(0, i as int));
        proof {
            assert(lines.subrange(0, i + 1).drop_last() =~= lines.subrange(0, i as int));
            assert(lines.subrange(0, i + 1).last() == lines[i as int]);
        }
        escape_into(buf, content[i].as_str().as_bytes());
        push_text(buf, "\n");
        assert(buf@ =~= old(buf)@ + (before + escaped(bytes_of(lines[i as int]@)) + bytes_of(
            "\n"@,
        )));
        i += 1;
    }
    assert(lines.subrange(0, i as int) =~= lines);
}

impl Heredoc {
    /// Appends the HTML of the here-document.
    pub fn colorize(&self, buf: &mut Vec<u8>, args: &Args)
        ensures
            final(buf)@ == old(buf)@ + heredoc_html(*self, args.prefix@, names(args.highlight@)),
        decreases self, 0nat,
    {
        push_text(buf, "&lt;&lt;");
        self.first_line.colorize(buf, args, false);
        push_text(buf, "\n");
        push_str_open(buf, args.prefix.as_str());
        push_lines(buf, &self.content);
        push_text(buf, "</span>");
        escape_into(buf, self.last.as_str().as_bytes());
        push_text(buf, "\n");
        assert(buf@ =~= old(buf)@ + heredoc_html(*self, args.prefix@, names(args.highlight@)));
    }
}

/// What reading a delimiter gives: its bytes, or why it is none.
pub type Delimiter = Result<Seq<u8>, Error>;

/// `bytes`, then what the rest of a delimiter gives.
pub open spec fn after_bytes(bytes: Seq<u8>, rest: Delimiter) -> Delimiter {
    match rest {
        Ok(more) => Ok(bytes + more),
        Err(e) => Err(e),
    }
}

/// What a token of a string in double quotes adds to the delimiter of a
/// here-document: its text, without the backslash where it is escaped.
/// A command inside the string is an error.
pub open spec fn d_token_delimiter(token: DStringToken) -> Delimiter {
    match token {
        DStringToken::Content(c) => Ok(bytes_of(c@)),
        DStringToken::Variable(v) => Ok(bytes_of(v@)),
        DStringToken::Escaped(e) => Ok(bytes_of(e@).subrange(1, bytes_of(e@).len() as int)),
        DStringToken::Backticks(_) => Err(Error::BackticksInHeredocDelimiter),
        DStringToken::Parens(_) => Err(Error::ParensInHeredocDelimiter),
    }
}

/// The delimiter of a here-document that a string in double quotes gives,
/// or the first error among its tokens.
pub open spec fn d_string_delimiter(tokens: Seq<DStringToken>) -> Delimiter
    decreases tokens.len(),
{
    if tokens.len() == 0 {
        Ok(Seq::empty())
    } else {
        match d_token_delimiter(tokens[0]) {
            Err(e) => Err(e),
            Ok(bytes) => after_bytes(bytes, d_string_delimiter(tokens.drop_first())),
        }
    }
}

/// Whether every escaped character of the string has its backslash.
pub open spec fn d_string_wf(tokens: Seq<DStringToken>) -> bool {
    forall|i: int|
        0 <= i < tokens.len() ==> ((#[trigger] tokens[i]) matches DStringToken::Escaped(e)
            ==> bytes_of(e@).len() >= 1)
}

/// Whether a token can be part of the delimiter of a here-document.
pub open spec fn in_delimiter(token: Token) -> bool {
    token is Word || token is SString || token is Variable || token is EscapeSequence
        || token is DString
}

/// Whether a token that can be part of a delimiter is whole: a string in
/// single quotes has its quotes, an escaped character its backslash.
pub open spec fn token_wf(token: Token) -> bool {
    match token {
        Token::SString(s) => bytes_of(s@).len() >= 2,
        Token::EscapeSequence(e) => bytes_of(e@).len() >= 1,
        Token::DString(d) => d_string_wf(d.0@),
        _ => true,
    }
}

/// What a token adds to the delimiter of a here-document: its text,
/// without its quotes or its backslash.
pub open spec fn token_delimiter(token: Token) -> Delimiter {
    match token {
        Token::Word(s) => Ok(bytes_of(s@)),
        Token::SString(s) => Ok(bytes_of(s@).subrange(1, bytes_of(s@).len() - 1)),
        Token::Variable(s) => Ok(bytes_of(s@)),
        Token::EscapeSequence(s) => Ok(bytes_of(s@).subrange(1, bytes_of(s@).len() as int)),
        Token::DString(d) => d_string_delimiter(d.0@),
        _ => Ok(Seq::empty()),
    }
}

/// The delimiter of a here-document at the start of `tokens`: what the
/// tokens add that can be part of one, up to the first that cannot.
pub open spec fn heredoc_delimiter(tokens: Seq<Token>) -> Delimiter
    decreases tokens.len(),
{
    if tokens.len() == 0 || !in_delimiter(tokens[0]) {
        Ok(Seq::empty())
    } else {
        match token_delimiter(tokens[0]) {
            Err(e) => Err(e),
            Ok(bytes) => after_bytes(bytes, heredoc_delimiter(tokens.drop_first())),
        }
    }
}

/// What reading a delimiter gives, as plain values.
pub open spec fn delimiter_view(result: Result<Vec<u8>, Error>) -> Delimiter {
    match result {
        Ok(bytes) => Ok(bytes@),
        Err(e) => Err(e),
    }
}

impl DString {
    /// The delimiter of a here-document that the string gives.
    pub fn to_string_heredoc(&self) -> (delimiter: Result<Vec<u8>, Error>)
        requires
            d_string_wf(self.0@),
        ensures
            delimiter_view(delimiter) == d_string_delimiter(self.0@),
    {
        let mut out: Vec<u8> = Vec::new();
        let ghost all = self.0@;
        let mut i: usize = 0;
        proof {
            assert(all.subrange(0, all.len() as int) =~= all);
            match d_string_delimiter(all) {
                Ok(more) => assert(out@ + more =~= more),
                Err(_) => {},
            }
        }
        while i < self.0.len()
            invariant
                0 <= i <= all.len(),
                all == self.0@,
                d_string_wf(all),
                d_string_delimiter(all) == after_bytes(
                    out@,
                    d_string_delimiter(all.subrange(i as int, all.len() as int)),
                ),
            decreases all.len() - i,
        {
            let ghost rest = all.subrange(i as int, all.len() as int);
            let ghost before = out@;
            proof {
                assert(rest[0] == all[i as int]);
                assert(rest.drop_first() =~= all.subrange(i + 1, all.len() as int));
            }
            match &self.0[i] {
                DStringToken::Content(c) => push_text(&mut out, c.as_str()),
                DStringToken::Variable(v) => push_text(&mut out, v.as_str()),
                DStringToken::Escaped(e) => {
                    let bytes = e.as_str().as_bytes();
                    push_bytes(&mut out, slice_subrange(bytes, 1, bytes.len()));
                },
                DStringToken::Backticks(_) => {
                    return Err(Error::BackticksInHeredocDelimiter);
                },
                DStringToken::Parens(_) => {
                    return Err(Error::ParensInHeredocDelimiter);
                },
            }
            proof {
                let piece = d_token_delimiter(all[i as int])->Ok_0;
                assert(out@ == before + piece);
                match d_string_delimiter(rest.drop_first()) {
                    Ok(more) => assert(before + (piece + more) =~= out@ + more),
                    Err(_) => {},
                }
            }
            i += 1;
        }
        proof {
            assert(out@ + Seq::<u8>::empty() =~= out@);
        }
        Ok(out)
    }
}

fn is_in_delimiter(token: &Token) -> (fits: bool)
    ensures
        fits == in_delimiter(*token),
{
    match token {
        Token::Word(_)
        | Token::SString(_)
        | Token::Variable(_)
        | Token::EscapeSequence(_)
        | Token::DString(_) => true,
        _ => false,
    }
}

impl Tokens {
    /// The delimiter of a here-document at the start of the tokens.
    pub fn heredoc_start_tokens(&self) -> (delimiter: Result<Vec<u8>, Error>)
        requires
            forall|i: int| 0 <= i < self.0@.len() ==> token_wf(#[trigger] self.0@[i]),
        ensures
            delimiter_view(delimiter) == heredoc_delimiter(self.0@),
    {
        let mut out: Vec<u8> = Vec::new();
        let ghost all = self.0@;
        let mut i: usize = 0;
        proof {
            assert(all.subrange(0, all.len() as int) =~= all);
            match heredoc_delimiter(all) {
                Ok(more) => assert(out@ + more =~= more),
                Err(_) => {},
            }
        }
        while i < self.0.len() && is_in_delimiter(&self.0[i])
            invariant
                0 <= i <= all.len(),
                all == self.0@,
                forall|j: int| 0 <= j < all.len() ==> token_wf(#[trigger] all[j]),
                heredoc_delimiter(all) == after_bytes(
                    out@,
                    heredoc_delimiter(all.subrange(i as int, all.len() as int)),
                ),
            decreases all.len() - i,
        {
            let ghost rest = all.subrange(i as int, all.len() as int);
            let ghost before = out@;
            proof {
                assert(rest[0] == all[i as int]);
                assert(rest.drop_first() =~= all.subrange(i + 1, all.len() as int));
                assert(token_wf(all[i as int]));
            }
            match &self.0[i] {
                Token::Word(s) => push_text(&mut out, s.as_str()),
                Token::SString(d) => {
                    let bytes = d.as_str().as_bytes();
                    push_bytes(&mut out, slice_subrange(bytes, 1, bytes.len() - 1));
                },
                Token::Variable(s) => push_text(&mut out, s.as_str()),
                Token::EscapeSequence(s) => {
                    let bytes = s.as_str().as_bytes();
                    push_bytes(&mut out, slice_subrange(bytes, 1, bytes.len()));
                },
                Token::DString(d) => {
                    match d.to_string_heredoc() {
                        Ok(bytes) => push_bytes(&mut out, bytes.as_slice()),
                        Err(e) => {
                            return Err(e);
                        },
                    }
                },
                _ => {},
            }
            proof {
                let piece = token_delimiter(all[i as int])->Ok_0;
                assert(out@ == before + piece);
                match heredoc_delimiter(rest.drop_first()) {
                    Ok(more) => assert(before + (piece + more) =~= out@ + more),
                    Err(_) => {},
                }
            }
            i += 1;
        }
        proof {
            let rest = all.subrange(i as int, all.len() as int);
            if i < all.len() {
                assert(rest[0] == all[i as int]);
            }
            assert(out@ + Seq::<u8>::empty() =~= out@);
        }
        Ok(out)
    }
}

impl DString {
    /// Whether every escaped character of the string has its backslash.
    pub fn is_whole(&self) -> (whole: bool)
        ensures
            whole == d_string_wf(self.0@),
    {
        let mut i: usize = 0;
        while i < self.0.len()
            invariant
                0 <= i <= self.0@.len(),
                forall|j: int|
                    0 <= j < i ==> ((#[trigger] self.0@[j]) matches DStringToken::Escaped(e)
                        ==> bytes_of(e@).len() >= 1),
            decreases self.0@.len() - i,
        {
            match &self.0[i] {
                DStringToken::Escaped(e) => {
                    if e.as_str().as_bytes().len() < 1 {
                        return false;
                    }
                },
                _ => {},
            }
            i += 1;
        }
        true
    }
}

impl Tokens {
    /// Whether every token that can be part of a delimiter is whole.
    pub fn is_whole(&self) -> (whole: bool)
        ensures
            whole == (forall|i: int| 0 <= i < self.0@.len() ==> token_wf(#[trigger] self.0@[i])),
    {
        let mut i: usize = 0;
        while i < self.0.len()
            invariant
                0 <= i <= self.0@.len(),
                forall|j: int| 0 <= j < i ==> token_wf(#[trigger] self.0@[j]),
            decreases self.0@.len() - i,
        {
            let whole = match &self.0[i] {
                Token::SString(s) => s.as_str().as_bytes().len() >= 2,
                Token::EscapeSequence(e) => e.as_str().as_bytes().len() >= 1,
                Token::DString(d) => d.is_whole(),
                _ => true,
            };
            if !whole {
                assert(!token_wf(self.0@[i as int]));
                return false;
            }
            i += 1;
        }
        true
    }
}

} // verus!
