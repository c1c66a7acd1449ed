use ansi_to_html::interpret::{
    assert_opt_equiv_to_no_opt, interpret_tokens, normalize_output, same_texts, Attr, RawStyle,
    Styles, StylizedText, Token,
};

fn style_attr(value: &str) -> Vec<Attr> {
    vec![Attr::new("style", value)]
}

fn red() -> RawStyle {
    RawStyle::Span(style_attr("color:var(--red,#a00)"))
}

fn blue() -> RawStyle {
    RawStyle::Span(style_attr("color:var(--blue,#00a)"))
}

fn span_end() -> RawStyle {
    RawStyle::Span(Vec::new())
}

fn text(s: &str) -> Token {
    Token::Text(s.to_owned())
}

fn run(styles: &[RawStyle], text: &str) -> StylizedText {
    StylizedText::new(Styles::new(&styles.to_vec()), text.to_owned())
}

#[test]
fn bold_and_red_document() {
    // <b>Bold<span style='color:var(--red,#a00)'>Red and Bold</span></b>
    let tokens = vec![
        Token::Start(RawStyle::Bold),
        text("Bold"),
        Token::Start(red()),
        text("Red and Bold"),
        Token::End(span_end()),
        Token::End(RawStyle::Bold),
    ];
    let runs = interpret_tokens(tokens).unwrap();
    let expected = vec![
        run(&[RawStyle::Bold], "Bold"),
        run(&[RawStyle::Bold, red()], "Red and Bold"),
    ];
    assert!(same_texts(&runs, &expected));
    assert_eq!(runs[0].text, "Bold");
    assert_eq!(runs[1].text, "Red and Bold");
}

#[test]
fn empty_elements_give_empty_runs_which_normalizing_drops() {
    // <u><span blue></span></u><span red>Red</span><span red> Still Red</span>
    let tokens = vec![
        Token::Start(RawStyle::Underlined(Vec::new())),
        Token::Start(blue()),
        Token::End(span_end()),
        Token::End(RawStyle::Underlined(Vec::new())),
        Token::Start(red()),
        text("Red"),
        Token::End(span_end()),
        Token::Start(red()),
        text(" Still"),
        text(" Red"),
        Token::End(span_end()),
    ];
    let runs = interpret_tokens(tokens).unwrap();
    assert_eq!(runs.len(), 3);
    assert_eq!(runs[0].text, "");
    let normal = normalize_output(runs);
    assert!(same_texts(&normal, &vec![run(&[red()], "Red Still Red")]));
}

#[test]
fn spans_are_a_set() {
    let a = run(&[red(), blue(), red()], "x");
    let b = run(&[blue(), red()], "x");
    let c = run(&[blue()], "x");
    assert!(a.same_as(&b));
    assert!(!a.same_as(&c));
    assert!(!a.same_as(&run(&[blue(), red()], "y")));
    let double = RawStyle::Underlined(style_attr("text-decoration-style:double"));
    assert!(!run(&[double.clone()], "x").same_as(&run(&[RawStyle::Underlined(Vec::new())], "x")));
    assert!(run(&[RawStyle::Underlined(Vec::new()), double.clone()], "x")
        .same_as(&run(&[double], "x")));
}

#[test]
fn documents_that_this_library_does_not_write() {
    assert!(interpret_tokens(vec![Token::End(RawStyle::Bold)]).is_none());
    assert!(interpret_tokens(vec![Token::Start(RawStyle::Bold), Token::End(RawStyle::Italic)])
        .is_none());
    assert!(interpret_tokens(vec![
        Token::Start(RawStyle::Bold),
        Token::Start(RawStyle::Italic),
        text("x"),
    ])
    .is_none());
    assert!(interpret_tokens(vec![Token::Start(RawStyle::Underlined(style_attr("x")))]).is_none());
    assert!(interpret_tokens(vec![Token::Start(red()), Token::End(red())]).is_none());
}

#[test]
fn equivalent_documents() {
    let no_opt = || {
        vec![
            Token::Start(red()),
            text("Red"),
            Token::End(span_end()),
            Token::Start(blue()),
            Token::End(span_end()),
            Token::Start(red()),
            text(" Still Red"),
            Token::End(span_end()),
        ]
    };
    let opt = vec![Token::Start(red()), text("Red Still Red"), Token::End(span_end())];
    assert!(assert_opt_equiv_to_no_opt(no_opt(), opt));
    let other = vec![Token::Start(blue()), text("Red Still Red"), Token::End(span_end())];
    assert!(!assert_opt_equiv_to_no_opt(no_opt(), other));
    assert!(!assert_opt_equiv_to_no_opt(vec![Token::End(red())], vec![Token::End(red())]));
    assert!(assert_opt_equiv_to_no_opt(Vec::new(), Vec::new()));
}
