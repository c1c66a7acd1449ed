use ansi_to_html::page::{get_color, make_style, push_document_start, shell_prompt, title, Color};
use ansi_to_html::Theme;

fn text(bytes: Vec<u8>) -> String {
    String::from_utf8(bytes).unwrap()
}

#[test]
fn colors_follow_the_theme() {
    assert_eq!(get_color(Color::Bg, Theme::Dark), "#141414");
    assert_eq!(get_color(Color::Bg, Theme::Light), "#eeeeee");
    assert_eq!(get_color(Color::Fg, Theme::Dark), "white");
    assert_eq!(get_color(Color::Arg, Theme::Light), "black");
    assert_eq!(get_color(Color::Shell, Theme::Dark), "#32d132");
    assert_eq!(get_color(Color::Cmd, Theme::Light), "#1a71c1");
    assert_eq!(get_color(Color::Hl, Theme::Dark), "#00ffff");
    assert_eq!(get_color(Color::Str, Theme::Dark), "#ffba24");
    assert_eq!(get_color(Color::Punct, Theme::Light), "#819700");
    assert_eq!(get_color(Color::Flag, Theme::Dark), "#ff7167");
    assert_eq!(get_color(Color::Esc, Theme::Light), "#9f1adb");
    assert_eq!(get_color(Color::CaretBg, Theme::Dark), "white");
}

#[test]
fn style_sheet_for_dark_theme() {
    let mut buf = Vec::new();
    make_style(&mut buf, "x-", Theme::Dark);
    assert_eq!(
        text(buf),
        "
body {
  background-color: #141414;
  color: white;
}
.x-terminal {
  overflow: auto;
  line-height: 120%;
}

.x-terminal .x-shell {
  color: #32d132;
  user-select: none;
  pointer-events: none;
}
.x-terminal .x-cmd {
  color: #419df3;
}
.x-terminal .x-hl {
  color: #00ffff;
  font-weight: bold;
}
.x-terminal .x-arg {
  color: white;
}
.x-terminal .x-str {
  color: #ffba24;
}
.x-terminal .x-pipe, .x-terminal .x-punct {
  color: #a2be00;
}
.x-terminal .x-flag {
  color: #ff7167;
}
.x-terminal .x-esc {
  color: #d558f5;
  font-weight: bold;
}
.x-terminal .x-caret {
  background-color: white;
  user-select: none;
}
"
    );
}

#[test]
fn prompts() {
    let mut buf = b"before".to_vec();
    shell_prompt(&mut buf, "p-", None);
    assert_eq!(text(buf), "before<span class='p-shell'>&gt; </span>");
    let mut buf = Vec::new();
    shell_prompt(&mut buf, "", Some("~/a&b"));
    assert_eq!(
        text(buf),
        "<span class='cwd'>~/a&amp;b </span><span class='shell'>$ </span>"
    );
}

#[test]
fn titles() {
    assert_eq!(text(title(&Vec::new())), "");
    assert_eq!(text(title(&vec!["ls".to_owned()])), "ls");
    assert_eq!(
        text(title(&vec!["ls -l".to_owned(), "pwd".to_owned(), "x".to_owned()])),
        "ls -l, pwd, x"
    );
}

#[test]
fn document_start() {
    let mut buf = Vec::new();
    push_document_start(&mut buf, Some("en-US"), b"a < b", "", Theme::Light);
    let html = text(buf);
    assert!(html.starts_with(
        "<html lang=\"en-US\">\n<head>\n<meta charset=\"utf-8\">\n<title>a &lt; b</title>\n<style>\nbody {\n  background-color: #eeeeee;"
    ));
    assert!(html.ends_with("user-select: none;\n}\n</style>\n</head>\n<body>\n"));
    let mut buf = Vec::new();
    push_document_start(&mut buf, None, b"", "", Theme::Dark);
    assert!(text(buf).starts_with("<html>\n<head>"));
}
