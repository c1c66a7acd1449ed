use std::{cell::RefCell, str::FromStr};

use ansi_to_html::interpret::{self, Attr, RawStyle, Styles, StylizedText};
use ansi_to_html::{convert, Converter};
use html5ever::{
    tendril,
    tokenizer::{
        BufferQueue, Tag, TagKind, Token, TokenSink, TokenSinkResult, Tokenizer,
    },
    Attribute, TokenizerResult,
};

#[derive(Default)]
struct Collector(RefCell<Vec<interpret::Token>>);

impl TokenSink for Collector {
    type Handle = ();

    fn process_token(&self, token: Token, _line: u64) -> TokenSinkResult<Self::Handle> {
        match token {
            Token::TagToken(tag) => {
                let raw_style = raw_style(&tag);
                self.0.borrow_mut().push(match tag.kind {
                    TagKind::StartTag => interpret::Token::Start(raw_style),
                    TagKind::EndTag => interpret::Token::End(raw_style),
                });
            }
            Token::CharacterTokens(s) => {
                self.0.borrow_mut().push(interpret::Token::Text(s.to_string()));
            }
            Token::NullCharacterToken | Token::ParseError(_) | Token::EOFToken => {}
            unknown => panic!("Missing implementation for {unknown:#?}"),
        }

        TokenSinkResult::Continue
    }
}

fn raw_style(tag: &Tag) -> RawStyle {
    assert!(!tag.self_closing, "Unexpected self-closing tag");
    match &*tag.name {
        "b" => RawStyle::Bold,
        "i" => RawStyle::Italic,
        "u" => RawStyle::Underlined(tag.attrs.iter().map(attr).collect()),
        "s" => RawStyle::CrossedOut,
        "span" => RawStyle::Span(tag.attrs.iter().map(attr).collect()),
        unknown => panic!("Unexpected HTML tag kind: {unknown}"),
    }
}

fn attr(attr: &Attribute) -> Attr {
    assert!(attr.name.prefix.is_none());
    assert_eq!(&*attr.name.ns, "");
    Attr::new(&attr.name.local, &attr.value)
}

fn tokenize(text: &str) -> Vec<interpret::Token> {
    let tokenizer = Tokenizer::new(Collector::default(), Default::default());
    let queue = BufferQueue::default();
    let text = tendril::Tendril::from_str(text).unwrap();
    queue.push_back(text);
    let res = tokenizer.feed(&queue);
    assert!(matches!(res, TokenizerResult::Done));
    tokenizer.end();
    tokenizer.sink.0.into_inner()
}

fn interpret_html(text: &str) -> Vec<StylizedText> {
    interpret::interpret_tokens(tokenize(text)).expect("Start tag should have a matching end")
}

fn assert_opt_equiv_to_no_opt(ansi_text: &str) {
    let Ok(htmlified) = Converter::new().skip_optimize(true).convert(ansi_text) else {
        return;
    };
    let full = tokenize(&htmlified);
    let opt = tokenize(&convert(ansi_text).unwrap());
    assert!(
        interpret::assert_opt_equiv_to_no_opt(full, opt),
        "Text should be semantically equivalent"
    );
}

fn bold_and_red_runs() -> Vec<StylizedText> {
    let red = RawStyle::Span(vec![Attr::new("style", "color:var(--red,#a00)")]);
    vec![
        StylizedText::new(Styles::new(&vec![RawStyle::Bold]), "Bold".to_owned()),
        StylizedText::new(
            Styles::new(&vec![RawStyle::Bold, red]),
            "Red and Bold".to_owned(),
        ),
    ]
}

#[test]
fn tests_sanity() {
    let ansi_text = "\x1b[1mBold\x1b[31mRed and Bold";
    let htmlified = convert(ansi_text).unwrap();
    let runs = interpret_html(&htmlified);
    assert!(interpret::same_texts(&runs, &bold_and_red_runs()));
    assert_eq!(
        format!("{:?}", runs.iter().map(|r| r.text.as_str()).collect::<Vec<_>>()),
        "[\"Bold\", \"Red and Bold\"]"
    );
}

#[test]
fn html_interpreter_sanity() {
    let ansi_text = "\x1b[1mBold\x1b[31mRed and Bold";
    let htmlified = convert(ansi_text).unwrap();
    let runs = interpret_html(&htmlified);
    assert_eq!(runs.len(), 2);
    assert!(runs[0].same_as(&bold_and_red_runs()[0]));
    assert!(runs[1].same_as(&bold_and_red_runs()[1]));
    assert!(!runs[0].same_as(&runs[1]));
}

#[test]
fn input_blue_red_text_red_text() {
    // Input: blue -> red -> "Red" -> red -> " Still Red"
    let ansi_text = "\x1b[34;31mRed\x1b[31m Still Red";
    assert_opt_equiv_to_no_opt(ansi_text);
    let htmlified = convert(ansi_text).unwrap();
    assert_eq!(
        htmlified,
        "<span style='color:var(--red,#a00)'>Red Still Red</span>"
    );
}

#[test]
fn input_red_text_blue_red_text() {
    // Input: red -> "Red" -> blue -> red -> " Still Red"
    let ansi_text = "\x1b[31mRed\x1b[34;31m Still Red";
    assert_opt_equiv_to_no_opt(ansi_text);
    let htmlified = convert(ansi_text).unwrap();
    assert_eq!(
        htmlified,
        "<span style='color:var(--red,#a00)'>Red Still Red</span>"
    );
}

#[test]
fn can_apply_already_applied_color() {
    // Input: red -> "Red" -> blue -> red -> " Still Red"
    let ansi_text = "\x1b[31mRed\x1b[34;31m Still Red";
    assert_opt_equiv_to_no_opt(ansi_text);
    let htmlified = convert(ansi_text).unwrap();
    assert_eq!(
        htmlified,
        "<span style='color:var(--red,#a00)'>Red Still Red</span>"
    );
}

#[test]
fn input_uline_blue_red_ulineoff_text_red_text() {
    // Input: underline -> blue -> red -> underline off -> "Red" -> red -> " Still Red"
    let ansi_text = "\x1b[4;34;31;24mRed\x1b[31m Still Red";
    assert_opt_equiv_to_no_opt(ansi_text);
    let htmlified = convert(ansi_text).unwrap();
    assert_eq!(
        htmlified,
        "<u></u><span style='color:var(--red,#a00)'>Red Still Red</span>"
    );
}

#[test]
fn minifier_keeps_the_meaning_without_inversion() {
    for ansi_text in [
        "\x1b[1mBold\x1b[31mRed and Bold",
        "\x1b[1;3;4;9;2ma\x1b[22;1mb\x1b[24;21mc\x1b[0;0md\x1b[9;29;9me",
        "\x1b[31;44ma\x1b[39;31mb\x1b[49mc\x1b[38;5;3;48;2;1;2;3md<&>\x1b[m",
        "plain\x1b[1m\x1b[22m text \x1b[3m\x1b[0m",
    ] {
        assert_opt_equiv_to_no_opt(ansi_text);
    }
}

#[test]
fn inversion_can_tell_the_two_outputs_apart() {
    let ansi_text = "\x1b[7;31mA\x1b[27;7mB";
    let full = tokenize(&Converter::new().skip_optimize(true).convert(ansi_text).unwrap());
    let opt = tokenize(&convert(ansi_text).unwrap());
    assert!(!interpret::assert_opt_equiv_to_no_opt(full, opt));
}

struct Lcg(u64);

impl Lcg {
    fn next(&mut self, below: usize) -> usize {
        self.0 = self
            .0
            .wrapping_mul(6364136223846793005)
            .wrapping_add(1442695040888963407);
        ((self.0 >> 33) as usize) % below
    }
}

fn random_ansi(rng: &mut Lcg, with_invert: bool) -> String {
    let codes = [
        "0", "1", "2", "3", "4", "9", "21", "22", "23", "24", "27", "29", "31", "34", "39", "41",
        "44", "49", "91", "101", "38;5;3", "38;5;200", "48;2;1;2;3", "5", "53", "",
    ];
    let texts = ["a", "b c", "<&>", "\u{e9}", " ", "'\"", "x\ny"];
    let others = ["\x1b[2J", "\x1b]8;;http://x\x07", "\x1b(B", "\x1b[1;", "\x1b"];
    let mut out = String::new();
    for _ in 0..rng.next(12) {
        match rng.next(8) {
            0..=3 => {
                out.push_str("\x1b[");
                for i in 0..1 + rng.next(3) {
                    if i > 0 {
                        out.push(';');
                    }
                    if with_invert && rng.next(6) == 0 {
                        out.push('7');
                    } else {
                        out.push_str(codes[rng.next(codes.len())]);
                    }
                }
                out.push('m');
            }
            4..=6 => out.push_str(texts[rng.next(texts.len())]),
            _ => out.push_str(others[rng.next(others.len())]),
        }
    }
    out
}

#[test]
fn many_inputs_mean_the_same_with_and_without_the_minifier() {
    let mut rng = Lcg(7);
    let mut converted = 0;
    for _ in 0..1500 {
        let input = random_ansi(&mut rng, false);
        if convert(&input).is_ok() {
            converted += 1;
        }
        assert_opt_equiv_to_no_opt(&input);
    }
    assert!(converted > 500);
}

#[test]
fn many_outputs_are_documents_with_every_element_closed() {
    let mut rng = Lcg(11);
    for _ in 0..1500 {
        let input = random_ansi(&mut rng, true);
        for skip in [false, true] {
            if let Ok(html) = Converter::new().skip_optimize(skip).convert(&input) {
                assert!(
                    interpret::interpret_tokens(tokenize(&html)).is_some(),
                    "{input:?} gave {html:?}"
                );
                assert_eq!(
                    html.matches("</").count() * 2,
                    html.matches('<').count(),
                    "{input:?} gave {html:?}"
                );
            }
        }
    }
}
