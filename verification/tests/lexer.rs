use ansi_to_html::lexer::{
    colorize, Args, DString, DStringToken, Error, Heredoc, Token, Tokens,
};

fn s(text: &str) -> String {
    text.to_owned()
}

fn html(tokens: Vec<Token>, prefix: &str, highlight: &[&str]) -> String {
    let args = Args {
        prefix: s(prefix),
        highlight: highlight.iter().map(|h| s(h)).collect(),
    };
    let mut buf = Vec::new();
    colorize(&mut buf, &Tokens(tokens), &args);
    String::from_utf8(buf).unwrap()
}

#[test]
fn command_with_flags_and_arguments() {
    let tokens = vec![
        Token::Word(s("ls")),
        Token::Whitespace(s(" ")),
        Token::Word(s("-l")),
        Token::Whitespace(s(" ")),
        Token::Word(s("--color=auto")),
        Token::Whitespace(s(" ")),
        Token::Word(s("a<b")),
    ];
    assert_eq!(
        html(tokens, "", &[]),
        "<span class=\"cmd\">ls</span> <span class=\"flag\">-l</span> \
         <span class=\"flag\">--color</span><span class=\"arg\">=auto</span> \
         <span class=\"arg\">a&lt;b</span>"
    );
}

#[test]
fn subcommand_is_highlighted_after_a_listed_program() {
    let tokens = vec![
        Token::Word(s("git")),
        Token::Whitespace(s(" ")),
        Token::Word(s("checkout")),
        Token::Whitespace(s(" ")),
        Token::Word(s("main")),
    ];
    assert_eq!(
        html(tokens, "p-", &["cargo", "git"]),
        "<span class=\"p-cmd\">git</span> <span class=\"p-hl\">checkout</span> \
         <span class=\"p-arg\">main</span>"
    );
}

#[test]
fn pipes_redirections_and_variables() {
    let tokens = vec![
        Token::Word(s("FOO=1")),
        Token::Whitespace(s(" ")),
        Token::Word(s("cat")),
        Token::Pipe(s("|")),
        Token::Word(s("sort")),
        Token::Pipe(s(">")),
        Token::Whitespace(s(" ")),
        Token::Word(s("out")),
        Token::Pipe(s(";")),
        Token::Word(s("echo")),
        Token::Whitespace(s(" ")),
        Token::Variable(s("$HOME")),
        Token::Pipe(s("&&")),
        Token::Comment(s("# done")),
    ];
    assert_eq!(
        html(tokens, "", &[]),
        "<span class=\"env\">FOO=1</span> <span class=\"arg\">cat</span>\
         <span class='pipe'>|</span><span class=\"cmd\">sort</span>\
         <span class='pipe'>&gt;</span> <span class='pipe'>out</span>\
         <span class='punct'>;</span><span class=\"cmd\">echo</span> \
         <span class='var'>$HOME</span><span class='punct'>&amp;&amp;</span>\
         <span class='com'># done</span>"
    );
}

#[test]
fn line_continuation_keeps_the_state() {
    let tokens = vec![
        Token::EscapeSequence(s("\\\n")),
        Token::Word(s("ls")),
        Token::EscapeSequence(s("\\n")),
        Token::Word(s("x")),
    ];
    assert_eq!(
        html(tokens, "", &[]),
        "<span class='esc'>\\\n</span><span class=\"cmd\">ls</span>\
         <span class='esc'>\\n</span><span class=\"arg\">x</span>"
    );
}

#[test]
fn nested_tokens() {
    let inner = || Tokens(vec![Token::Word(s("x"))]);
    let tokens = vec![
        Token::Backticks(inner()),
        Token::Brackets(inner()),
        Token::Parens(inner()),
        Token::DollarParens(inner()),
        Token::Braces(inner()),
        Token::SString(s("'a'")),
    ];
    assert_eq!(
        html(tokens, "", &[]),
        "<span class='punct'>`</span><span class=\"cmd\">x</span><span class='punct'>`</span>\
         <span class='punct'>[</span><span class=\"arg\">x</span><span class='punct'>]</span>\
         <span class='punct'>(</span><span class=\"arg\">x</span><span class='punct'>)</span>\
         <span class='punct'>$(</span><span class=\"cmd\">x</span><span class='punct'>)</span>\
         <span class='punct'>{</span><span class=\"cmd\">x</span><span class='punct'>}</span>\
         <span class='str'>&#39;a&#39;</span>"
    );
}

#[test]
fn double_quoted_string() {
    let d = DString(vec![
        DStringToken::Content(s("Hello <")),
        DStringToken::Variable(s("$world")),
        DStringToken::Escaped(s("\\\"")),
        DStringToken::Backticks(Tokens(vec![Token::Word(s("date"))])),
        DStringToken::Parens(Tokens(vec![Token::Word(s("pwd"))])),
    ]);
    assert_eq!(
        html(vec![Token::DString(d)], "", &[]),
        "<span class='str'>\"Hello &lt;<span class='var'>$world</span>\
         <span class='esc'>\\&quot;</span>`</span><span class=\"cmd\">date</span>\
         <span class='str'>`$(</span><span class=\"cmd\">pwd</span><span class='str'>)\"</span>"
    );
}

#[test]
fn heredoc() {
    let h = Heredoc {
        first_line: Tokens(vec![
            Token::Word(s("EOF")),
            Token::Whitespace(s(" ")),
            Token::Pipe(s(">")),
            Token::Whitespace(s(" ")),
            Token::Word(s("file")),
        ]),
        content: vec![s("Hello <world>"), s("bye")],
        last: s("EOF"),
    };
    assert_eq!(
        html(vec![Token::Word(s("cat")), Token::Heredoc(h)], "", &[]),
        "<span class=\"cmd\">cat</span>&lt;&lt;<span class=\"arg\">EOF</span> \
         <span class='pipe'>&gt;</span> <span class='pipe'>file</span>\n\
         <span class='str'>Hello &lt;world&gt;\nbye\n</span>EOF\n"
    );
}

#[test]
fn heredoc_delimiters() {
    let tokens = Tokens(vec![
        Token::Word(s("E")),
        Token::SString(s("'O'")),
        Token::EscapeSequence(s("\\F")),
        Token::Variable(s("$x")),
        Token::DString(DString(vec![
            DStringToken::Content(s("a")),
            DStringToken::Escaped(s("\\$")),
            DStringToken::Variable(s("$v")),
        ])),
        Token::Whitespace(s(" ")),
        Token::Word(s("ignored")),
    ]);
    assert_eq!(tokens.heredoc_start_tokens(), Ok(b"EOF$xa$$v".to_vec()));
    assert_eq!(Tokens(vec![]).heredoc_start_tokens(), Ok(Vec::new()));
    assert_eq!(
        Tokens(vec![Token::Pipe(s(">")), Token::Word(s("x"))]).heredoc_start_tokens(),
        Ok(Vec::new())
    );
    let backticks = DString(vec![
        DStringToken::Content(s("a")),
        DStringToken::Backticks(Tokens(vec![])),
        DStringToken::Parens(Tokens(vec![])),
    ]);
    assert_eq!(
        backticks.to_string_heredoc(),
        Err(Error::BackticksInHeredocDelimiter)
    );
    assert_eq!(
        Tokens(vec![Token::Word(s("a")), Token::DString(backticks)]).heredoc_start_tokens(),
        Err(Error::BackticksInHeredocDelimiter)
    );
    let parens = DString(vec![DStringToken::Parens(Tokens(vec![]))]);
    assert_eq!(parens.to_string_heredoc(), Err(Error::ParensInHeredocDelimiter));
}
