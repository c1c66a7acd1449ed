//! The parts of the page around the output of the commands: the style
//! sheet, the prompt, and the start and end of the document.

use vstd::prelude::*;
use crate::esc::{escape_into, escaped};
use crate::html::Theme;
use crate::text::{bytes_of, push_text};

verus! {

/// A part of the page that has a colour of its own.
#[derive(Debug, Clone, Copy, PartialEq, Eq, Structural)]
pub enum Color {
    Bg,
    Fg,
    Shell,
    Cmd,
    Hl,
    Arg,
    Str,
    Punct,
    Flag,
    Esc,
    CaretBg,
}

/// The colour of a part of the page.
pub open spec fn color_text(color: Color, theme: Theme) -> Seq<char> {
    match theme {
        Theme::Dark => match color {
            Color::Bg => "#141414"@,
            Color::Fg => "white"@,
            Color::Shell => "#32d132"@,
            Color::Cmd => "#419df3"@,
            Color::Hl => "#00ffff"@,
            Color::Arg => "white"@,
            Color::Str => "#ffba24"@,
            Color::Punct => "#a2be00"@,
            Color::Flag => "#ff7167"@,
            Color::Esc => "#d558f5"@,
            Color::CaretBg => "white"@,
        },
        Theme::Light => match color {
            Color::Bg => "#eeeeee"@,
            Color::Fg => "black"@,
            Color::Shell => "#1fa21f"@,
            Color::Cmd => "#1a71c1"@,
            Color::Hl => "#00c4c4"@,
            Color::Arg => "black"@,
            Color::Str => "#ce6a00"@,
            Color::Punct => "#819700"@,
            Color::Flag => "#b33742"@,
            Color::Esc => "#9f1adb"@,
            Color::CaretBg => "black"@,
        },
    }
}

/// The colour of a part of the page.
pub fn get_color(color: Color, theme: Theme) -> (text: &'static str)
    ensures
        text@ == color_text(color, theme),
{
    match theme {
        Theme::Dark => match color {
            Color::Bg => "#141414",
            Color::Fg => "white",
            Color::Shell => "#32d132",
            Color::Cmd => "#419df3",
            Color::Hl => "#00ffff",
            Color::Arg => "white",
            Color::Str => "#ffba24",
            Color::Punct => "#a2be00",
            Color::Flag => "#ff7167",
            Color::Esc => "#d558f5",
            Color::CaretBg => "white",
        },
        Theme::Light => match color {
            Color::Bg => "#eeeeee",
            Color::Fg => "black",
            Color::Shell => "#1fa21f",
            Color::Cmd => "#1a71c1",
            Color::Hl => "#00c4c4",
            Color::Arg => "black",
            Color::Str => "#ce6a00",
            Color::Punct => "#819700",
            Color::Flag => "#b33742",
            Color::Esc => "#9f1adb",
            Color::CaretBg => "black",
        },
    }
}

/// A selector for a class inside the terminal: `.terminal .class`, each
/// name after the prefix.
#[verifier::opaque]
pub open spec fn selector(prefix: Seq<char>, class: Seq<char>) -> Seq<u8> {
    bytes_of("."@) + bytes_of(prefix) + bytes_of("terminal ."@) + bytes_of(prefix) + bytes_of(
        class,
    )
}

/// A declaration that gives a property the colour of a part of the page,
/// on a line of its own.
#[verifier::opaque]
pub open spec fn colored(property: Seq<char>, color: Color, theme: Theme) -> Seq<u8> {
    bytes_of("  "@) + bytes_of(property) + bytes_of(": "@) + bytes_of(color_text(color, theme))
        + bytes_of(";\n"@)
}

/// A rule for a class inside the terminal: the selector, then between
/// braces a colour for `property` and whatever else is declared.
#[verifier::opaque]
pub open spec fn rule(
    prefix: Seq<char>,
    class: Seq<char>,
    property: Seq<char>,
    color: Color,
    more: Seq<char>,
    theme: Theme,
) -> Seq<u8> {
    selector(prefix, class) + bytes_of(" {\n"@) + colored(property, color, theme) + bytes_of(more)
        + bytes_of("}\n"@)
}

/// The style sheet of the page.
#[verifier::opaque]
pub open spec fn style_sheet(prefix: Seq<char>, theme: Theme) -> Seq<u8> {
    bytes_of("\nbody {\n"@) + colored("background-color"@, Color::Bg, theme) + colored(
        "color"@,
        Color::Fg,
        theme,
    ) + bytes_of("}\n."@) + bytes_of(prefix) + bytes_of(
        "terminal {\n  overflow: auto;\n  line-height: 120%;\n}\n\n"@,
    ) + rule(
        prefix,
        "shell"@,
        "color"@,
        Color::Shell,
        "  user-select: none;\n  pointer-events: none;\n"@,
        theme,
    ) + rule(prefix, "cmd"@, "color"@, Color::Cmd, ""@, theme) + rule(
        prefix,
        "hl"@,
        "color"@,
        Color::Hl,
        "  font-weight: bold;\n"@,
        theme,
    ) + rule(prefix, "arg"@, "color"@, Color::Arg, ""@, theme) + rule(
        prefix,
        "str"@,
        "color"@,
        Color::Str,
        ""@,
        theme,
    ) + selector(prefix, "pipe, "@) + rule(prefix, "punct"@, "color"@, Color::Punct, ""@, theme)
        + rule(prefix, "flag"@, "color"@, Color::Flag, ""@, theme) + rule(
        prefix,
        "esc"@,
        "color"@,
        Color::Esc,
        "  font-weight: bold;\n"@,
        theme,
    ) + rule(
        prefix,
        "caret"@,
        "background-color"@,
        Color::CaretBg,
        "  user-select: none;\n"@,
        theme,
    )
}

fn push_selector(buf: &mut Vec<u8>, prefix: &str, class: &str)
    ensures
        final(buf)@ == old(buf)@ + selector(prefix@, class@),
{
    push_text(buf, ".");
    push_text(buf, prefix);
    push_text(buf, "terminal .");
    push_text(buf, prefix);
    push_text(buf, class);
    reveal(selector);
    assert(buf@ =~= old(buf)@ + selector(prefix@, class@));
}

fn push_colored(buf: &mut Vec<u8>, property: &str, color: Color, theme: Theme)
    ensures
        final(buf)@ == old(buf)@ + colored(property@, color, theme),
{
    push_text(buf, "  ");
    push_text(buf, property);
    push_text(buf, ": ");
    push_text(buf, get_color(color, theme));
    push_text(buf, ";\n");
    reveal(colored);
    assert(buf@ =~= old(buf)@ + colored(property@, color, theme));
}

fn push_rule(
    buf: &mut Vec<u8>,
    prefix: &str,
    class: &str,
    property: &str,
    color: Color,
    more: &str,
    theme: Theme,
)
    ensures
        final(buf)@ == old(buf)@ + rule(prefix@, class@, property@, color, more@, theme),
{
    push_selector(buf, prefix, class);
    push_text(buf, " {\n");
    push_colored(buf, property, color, theme);
    push_text(buf, more);
    push_text(buf, "}\n");
    reveal(rule);
    assert(buf@ =~= old(buf)@ + rule(prefix@, class@, property@, color, more@, theme));
}

/// Appends the style sheet of the page.
pub fn make_style(buf: &mut Vec<u8>, prefix: &str, theme: Theme)
    ensures
        final(buf)@ == old(buf)@ + style_sheet(prefix@, theme),
{
    let ghost p = prefix@;
    let ghost start = buf@;
    push_text(buf, "\nbody {\n");
    let ghost mut sheet = bytes_of("\nbody {\n"@);
    push_colored(buf, "background-color", Color::Bg, theme);
    proof {
        let piece = colored("background-color"@, Color::Bg, theme);
        assert(buf@ =~= start + (sheet + piece));
        sheet = sheet + piece;
    }
    push_colored(buf, "color", Color::Fg, theme);
    proof {
        let piece = colored("color"@, Color::Fg, theme);
        assert(buf@ =~= start + (sheet + piece));
        sheet = sheet + piece;
    }
    push_text(buf, "}\n.");
    proof {
        let piece = bytes_of("}\n."@);
        assert(buf@ =~= start + (sheet + piece));
        sheet = sheet + piece;
    }
    push_text(buf, prefix);
    proof {
        let piece = bytes_of(p);
        assert(buf@ =~= start + (sheet + piece));
        sheet = sheet + piece;
    }
    push_text(buf, "terminal {\n  overflow: auto;\n  line-height: 120%;\n}\n\n");
    proof {
        let piece = bytes_of("terminal {\n  overflow: auto;\n  line-height: 120%;\n}\n\n"@);
        assert(buf@ =~= start + (sheet + piece));
        sheet = sheet + piece;
    }
    push_rule(
        buf,
        prefix,
        "shell",
        "color",
        Color::Shell,
        "  user-select: none;\n  pointer-events: none;\n",
        theme,
    );
    proof {
        let piece = rule(
            p,
            "shell"@,
            "color"@,
            Color::Shell,
            "  user-select: none;\n  pointer-events: none;\n"@,
            theme,
        );
        assert(buf@ =~= start + (sheet + piece));
        sheet = sheet + piece;
    }
    push_rule(buf, prefix, "cmd", "color", Color::Cmd, "", theme);
    proof {
        let piece = rule(p, "cmd"@, "color"@, Color::Cmd, ""@, theme);
        assert(buf@ =~= start + (sheet + piece));
        sheet = sheet + piece;
    }
    push_rule(buf, prefix, "hl", "color", Color::Hl, "  font-weight: bold;\n", theme);
    proof {
        let piece = rule(p, "hl"@, "color"@, Color::Hl, "  font-weight: bold;\n"@, theme);
        assert(buf@ =~= start + (sheet + piece));
        sheet = sheet + piece;
    }
    push_rule(buf, prefix, "arg", "color", Color::Arg, "", theme);
    proof {
        let piece = rule(p, "arg"@, "color"@, Color::Arg, ""@, theme);
        assert(buf@ =~= start + (sheet + piece));
        sheet = sheet + piece;
    }
    push_rule(buf, prefix, "str", "color", Color::Str, "", theme);
    proof {
        let piece = rule(p, "str"@, "color"@, Color::Str, ""@, theme);
        assert(buf@ =~= start + (sheet + piece));
        sheet = sheet + piece;
    }
    push_selector(buf, prefix, "pipe, ");
    proof {
        let piece = selector(p, "pipe, "@);
        assert(buf@ =~= start + (sheet + piece));
        sheet = sheet + piece;
    }
    push_rule(buf, prefix, "punct", "color", Color::Punct, "", theme);
    proof {
        let piece = rule(p, "punct"@, "color"@, Color::Punct, ""@, theme);
        assert(buf@ =~= start + (sheet + piece));
        sheet = sheet + piece;
    }
    push_rule(buf, prefix, "flag", "color", Color::Flag, "", theme);
    proof {
        let piece = rule(p, "flag"@, "color"@, Color::Flag, ""@, theme);
        assert(buf@ =~= start + (sheet + piece));
        sheet = sheet + piece;
    }
    push_rule(buf, prefix, "esc", "color", Color::Esc, "  font-weight: bold;\n", theme);
    proof {
        let piece = rule(p, "esc"@, "color"@, Color::Esc, "  font-weight: bold;\n"@, theme);
        assert(buf@ =~= start + (sheet + piece));
        sheet = sheet + piece;
    }
    push_rule(
        buf,
        prefix,
        "caret",
        "background-color",
        Color::CaretBg,
        "  user-select: none;\n",
        theme,
    );
    proof {
        let piece = rule(
            p,
            "caret"@,
            "background-color"@,
            Color::CaretBg,
            "  user-select: none;\n"@,
            theme,
        );
        assert(buf@ =~= start + (sheet + piece));
        sheet = sheet + piece;
        reveal(style_sheet);
        assert(sheet == style_sheet(p, theme));
    }
}

/// The prompt as an arrow.
pub open spec fn arrow_prompt(prefix: Seq<char>) -> Seq<u8> {
    bytes_of("<span class='"@) + bytes_of(prefix) + bytes_of("shell'>&gt; </span>"@)
}

/// The prompt with the working directory.
pub open spec fn cwd_prompt(prefix: Seq<char>, cwd: Seq<char>) -> Seq<u8> {
    bytes_of("<span class='"@) + bytes_of(prefix) + bytes_of("cwd'>"@) + escaped(bytes_of(cwd))
        + bytes_of(" </span><span class='"@) + bytes_of(prefix) + bytes_of("shell'>$ </span>"@)
}

/// The prompt: with the working directory where one is given, as an arrow
/// where none is.
pub open spec fn prompt_html(prefix: Seq<char>, cwd: Option<&str>) -> Seq<u8> {
    match cwd {
        Some(dir) => cwd_prompt(prefix, dir@),
        None => arrow_prompt(prefix),
    }
}

/// Appends the prompt: with the working directory `cwd`, in which the home
/// directory is shortened already, or as an arrow where there is none.
pub fn shell_prompt(buf: &mut Vec<u8>, prefix: &str, cwd: Option<&str>)
    ensures
        final(buf)@ == old(buf)@ + prompt_html(prefix@, cwd),
{
    match cwd {
        None => {
            push_text(buf, "<span class='");
            push_text(buf, prefix);
            push_text(buf, "shell'>&gt; </span>");
            assert(buf@ =~= old(buf)@ + arrow_prompt(prefix@));
        },
        Some(dir) => {
            push_text(buf, "<span class='");
            push_text(buf, prefix);
            push_text(buf, "cwd'>");
            escape_into(buf, dir.as_bytes());
            push_text(buf, " </span><span class='");
            push_text(buf, prefix);
            push_text(buf, "shell'>$ </span>");
            assert(buf@ =~= old(buf)@ + cwd_prompt(prefix@, dir@));
        },
    }
}

/// The commands, with `, ` between them.
pub open spec fn title_text(commands: Seq<String>) -> Seq<u8>
    decreases commands.len(),
{
    if commands.len() == 0 {
        Seq::empty()
    } else if commands.len() == 1 {
        bytes_of(commands[0]@)
    } else {
        title_text(commands.drop_last()) + bytes_of(", "@) + bytes_of(commands.last()@)
    }
}

/// The title of the page: the commands, with `, ` between them.
pub fn title(commands: &Vec<String>) -> (text: Vec<u8>)
    ensures
        text@ == title_text(commands@),
{
    let mut text: Vec<u8> = Vec::new();
    let ghost all = commands@;
    let mut i: usize = 0;
    assert(all.subrange(0, 0) =~= Seq::<String>::empty());
    while i < commands.len()
        invariant
            0 <= i <= all.len(),
            all == commands@,
            text@ == title_text(all.subrange(0, i as int)),
        decreases all.len() - i,
    {
        proof {
            let now = all.subrange(0, i + 1);
            assert(now.drop_last() =~= all.subrange(0, i as int));
            assert(now.last() == all[i as int]);
            assert(now[0] == all[0]);
        }
        let ghost before = text@;
        if i > 0 {
            push_text(&mut text, ", ");
        }
        push_text(&mut text, commands[i].as_str());
        proof {
            if i == 0 {
                assert(text@ =~= bytes_of(all[0]@));
            } else {
                assert(text@ =~= before + bytes_of(", "@) + bytes_of(all[i as int]@));
            }
        }
        i += 1;
    }
    assert(all.subrange(0, i as int) =~= all);
    text
}

/// The start of a whole document: the language where one is known, the
/// title and the style sheet.
pub open spec fn document_start(
    lang: Option<&str>,
    title: Seq<u8>,
    prefix: Seq<char>,
    theme: Theme,
) -> Seq<u8> {
    (match lang {
        Some(l) => bytes_of("<html lang=\""@) + escaped(bytes_of(l@)) + bytes_of("\">\n"@),
        None => bytes_of("<html>\n"@),
    }) + bytes_of("<head>\n<meta charset=\"utf-8\">\n<title>"@) + escaped(title) + bytes_of(
        "</title>\n<style>"@,
    ) + style_sheet(prefix, theme) + bytes_of("</style>\n</head>\n<body>\n"@)
}

/// Appends the start of a whole document.
pub fn push_document_start(
    buf: &mut Vec<u8>,
    lang: Option<&str>,
    title: &[u8],
    prefix: &str,
    theme: Theme,
)
    ensures
        final(buf)@ == old(buf)@ + document_start(lang, title@, prefix@, theme),
{
    let ghost start = buf@;
    match lang {
        Some(l) => {
            push_text(buf, "<html lang=\"");
            escape_into(buf, l.as_bytes());
            push_text(buf, "\">\n");
            assert(buf@ =~= start + (bytes_of("<html lang=\""@) + escaped(bytes_of(l@)) + bytes_of(
                "\">\n"@,
            )));
        },
        None => {
            push_text(buf, "<html>\n");
        },
    }
    let ghost mut page = buf@.subrange(start.len() as int, buf@.len() as int);
    assert(buf@ =~= start + page);
    push_text(buf, "<head>\n<meta charset=\"utf-8\">\n<title>");
    proof {
        let piece = bytes_of("<head>\n<meta charset=\"utf-8\">\n<title>"@);
        assert(buf@ =~= start + (page + piece));
        page = page + piece;
    }
    escape_into(buf, title);
    proof {
        let piece = escaped(title@);
        assert(buf@ =~= start + (page + piece));
        page = page + piece;
    }
    push_text(buf, "</title>\n<style>");
    proof {
        let piece = bytes_of("</title>\n<style>"@);
        assert(buf@ =~= start + (page + piece));
        page = page + piece;
    }
    make_style(buf, prefix, theme);
    proof {
        let piece = style_sheet(prefix@, theme);
        assert(buf@ =~= start + (page + piece));
        page = page + piece;
    }
    push_text(buf, "</style>\n</head>\n<body>\n");
    proof {
        let piece = bytes_of("</style>\n</head>\n<body>\n"@);
        assert(buf@ =~= start + (page + piece));
        page = page + piece;
        assert(page =~= document_start(lang, title@, prefix@, theme));
    }
}

} // verus!
