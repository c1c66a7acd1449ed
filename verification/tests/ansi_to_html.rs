use ansi_to_html::color::FourBitColorType;
use ansi_to_html::{convert, convert_with_opts, Converter, Error, Esc, Theme};

/// Converts human readable tokens to ANSI color codes
///
/// Some sample conversion:
/// - Reset: {{ res }}
/// - Blue foreground: {{ blue }}
/// - 8-bit code: {{ 8_<lookup_number> }}
fn human_readable_to_ansi(s: &str) -> String {
    let mut out = String::new();

    let mut without_left = s.split("{{ ");

    out.push_str(without_left.next().unwrap_or_default());

    for chunk in without_left {
        if let Some((inner, text)) = chunk.split_once(" }}") {
            out.push_str("\x1b[");
            match inner {
                // Control
                "res" => out.push('0'),
                "inv" => out.push('7'),
                "inv_off" => out.push_str("27"),
                // Styles
                "underline" => out.push('4'),
                "double_underline" => out.push_str("21"),
                "underline_off" => out.push_str("24"),
                "overline" => out.push_str("53"),
                "overline_off" => out.push_str("55"),
                // Basic colors
                "blue" => out.push_str("34"),
                "cyan" => out.push_str("36"),
                "red" => out.push_str("31"),
                "green" => out.push_str("32"),
                // 8-bit foreground colors
                code if code.starts_with("8_") => {
                    let num = inner.strip_prefix("8_").unwrap();
                    out.push_str("38;5;");
                    out.push_str(num);
                }
                other => panic!("Missing arm for {other}"),
            }
            out.push('m');
            out.push_str(text);
        } else {
            out.push_str("{{ ");
            out.push_str(chunk);
        }
    }

    out
}

fn human_readable_to_html(readable: &str) -> String {
    let styled = human_readable_to_ansi(readable);
    convert(&styled).unwrap()
}

fn unindent(s: &str) -> String {
    let lines: Vec<&str> = s.trim_matches('\n').lines().collect();
    let lines: Vec<&str> = match lines.last() {
        Some(last) if last.trim().is_empty() => lines[..lines.len() - 1].to_vec(),
        _ => lines,
    };
    lines
        .iter()
        .map(|l| l.strip_prefix("    ").unwrap_or(l.trim_start()))
        .collect::<Vec<_>>()
        .join("\n")
}

#[test]
fn ansi_to_html_ariadne() {
    let readable = r#"
{{ red }}Error:{{ res }} Incompatible types
   {{ 8_246 }},{{ res }}{{ 8_246 }}-{{ res }}{{ 8_246 }}[{{ res }}<unknown>:2:9{{ 8_246 }}]{{ res }}
   {{ 8_246 }}|{{ res }}
 {{ 8_246 }}2 |{{ res }} {{ 8_249 }} {{ res }}{{ 8_249 }} {{ res }}{{ 8_249 }} {{ res }}{{ 8_249 }} {{ res }}{{ 8_249 }}({{ res }}{{ 8_249 }}){{ res }}{{ 8_249 }} {{ res }}{{ 8_249 }}={{ res }}{{ 8_249 }}>{{ res }}{{ 8_249 }} {{ res }}{{ cyan }}5{{ res }}{{ 8_249 }},{{ res }}
 {{ 8_240 }}  |{{ res }}           {{ cyan }}|{{ res }}
 {{ 8_240 }}  |{{ res }}           {{ cyan }}`{{ res }}{{ cyan }}-{{ res }}{{ cyan }}-{{ res }} This is of type Nat
 {{ 8_246 }}3 |{{ res }} {{ 8_249 }} {{ res }}{{ 8_249 }} {{ res }}{{ 8_249 }} {{ res }}{{ 8_249 }} {{ res }}{{ 8_249 }}({{ res }}{{ 8_249 }}){{ res }}{{ 8_249 }} {{ res }}{{ 8_249 }}={{ res }}{{ 8_249 }}>{{ res }}{{ 8_249 }} {{ res }}{{ blue }}"{{ res }}{{ blue }}5{{ res }}{{ blue }}"{{ res }}{{ 8_249 }},{{ res }}
 {{ 8_240 }}  |{{ res }}           {{ blue }}^{{ res }}{{ blue }}|{{ res }}{{ blue }}^{{ res }}
 {{ 8_240 }}  |{{ res }}            {{ blue }}`{{ res }}{{ blue }}-{{ res }}{{ blue }}-{{ res }}{{ blue }}-{{ res }} This is of type Str
{{ 8_246 }}---'{{ res }}
    "#;

    let converted = human_readable_to_html(readable.trim());

    let expected = unindent(r###"
    <span style='color:var(--red,#a00)'>Error:</span> Incompatible types
       <span style='color:#949494'>,-[</span>&lt;unknown&gt;:2:9<span style='color:#949494'>]</span>
       <span style='color:#949494'>|</span>
     <span style='color:#949494'>2 |</span> <span style='color:#b2b2b2'>    () =&gt; </span><span style='color:var(--cyan,#0aa)'>5</span><span style='color:#b2b2b2'>,</span>
     <span style='color:#585858'>  |</span>           <span style='color:var(--cyan,#0aa)'>|</span>
     <span style='color:#585858'>  |</span>           <span style='color:var(--cyan,#0aa)'>`--</span> This is of type Nat
     <span style='color:#949494'>3 |</span> <span style='color:#b2b2b2'>    () =&gt; </span><span style='color:var(--blue,#00a)'>&quot;5&quot;</span><span style='color:#b2b2b2'>,</span>
     <span style='color:#585858'>  |</span>           <span style='color:var(--blue,#00a)'>^|^</span>
     <span style='color:#585858'>  |</span>            <span style='color:var(--blue,#00a)'>`---</span> This is of type Str
    <span style='color:#949494'>---&#39;</span>
    "###);
    assert_eq!(converted, expected);
}

#[test]
fn semicolon_before_terminator() {
    let converted = convert("\x1b[31;mRed\x1b[0;m Plain").unwrap();
    assert_eq!(converted, "<span style='color:var(--red,#a00)'>Red</span> Plain");
}

#[test]
fn underlines() {
    let readable = "{{ underline }}Single{{ res }} {{ double_underline }}Double";
    let ansi_text = human_readable_to_ansi(readable);
    let opt = convert(&ansi_text).unwrap();
    let no_opt = Converter::new()
        .skip_optimize(true)
        .convert(&ansi_text)
        .unwrap();
    assert_eq!(
        opt, no_opt,
        "Optimized and unoptimized text should be equivalent in this case"
    );
    assert_eq!(
        no_opt,
        "<u>Single</u> <u style='text-decoration-style:double'>Double</u>"
    );
}

#[test]
fn ansi_8bit_specification_of_4bit_color() {
    let readable = r#"
The first sixteen colors in the 8-bit palette are de facto standardized as the old 4-bit palette:
{{ 8_0 }}black{{ res }}
{{ 8_1 }}red{{ res }}
{{ 8_2 }}green{{ res }}
{{ 8_3 }}yellow{{ res }}
{{ 8_4 }}blue{{ res }}
{{ 8_5 }}magenta{{ res }}
{{ 8_6 }}cyan{{ res }}
{{ 8_7 }}white{{ res }}
Where the bright colors, too, are bright in the overlap of the 8-bit and 4-bit palettes:
{{ 8_8 }}bright black{{ res }}
{{ 8_9 }}bright red{{ res }}
{{ 8_10 }}bright green{{ res }}
{{ 8_11 }}bright yellow{{ res }}
{{ 8_12 }}bright blue{{ res }}
{{ 8_13 }}bright magenta{{ res }}
{{ 8_14 }}bright cyan{{ res }}
{{ 8_15 }}bright white{{ res }}
    "#;

    let converted = human_readable_to_html(readable.trim());
    let expected = unindent(r"
    The first sixteen colors in the 8-bit palette are de facto standardized as the old 4-bit palette:
    <span style='color:var(--black,#000)'>black</span>
    <span style='color:var(--red,#a00)'>red</span>
    <span style='color:var(--green,#0a0)'>green</span>
    <span style='color:var(--yellow,#a60)'>yellow</span>
    <span style='color:var(--blue,#00a)'>blue</span>
    <span style='color:var(--magenta,#a0a)'>magenta</span>
    <span style='color:var(--cyan,#0aa)'>cyan</span>
    <span style='color:var(--white,#aaa)'>white</span>
    Where the bright colors, too, are bright in the overlap of the 8-bit and 4-bit palettes:
    <span style='color:var(--bright-black,#555)'>bright black</span>
    <span style='color:var(--bright-red,#f55)'>bright red</span>
    <span style='color:var(--bright-green,#5f5)'>bright green</span>
    <span style='color:var(--bright-yellow,#ff5)'>bright yellow</span>
    <span style='color:var(--bright-blue,#55f)'>bright blue</span>
    <span style='color:var(--bright-magenta,#f5f)'>bright magenta</span>
    <span style='color:var(--bright-cyan,#5ff)'>bright cyan</span>
    <span style='color:var(--bright-white,#fff)'>bright white</span>
    ");
    assert_eq!(converted, expected);
}

#[test]
fn hyperlink() {
    let input = "Finished \
        \x1b]8;;https://doc.rust-lang.org/cargo/reference/profiles.html#default-profiles\
        \x1b\\`dev` profile [unoptimized + debuginfo]\x1b]8;;\x1b\\ \
        target(s) in 0.04s";
    let converted = convert(input).unwrap();
    assert_eq!(
        converted,
        "Finished `dev` profile [unoptimized + debuginfo] target(s) in 0.04s"
    );
}

#[test]
fn bold_then_red_nests() {
    let htmlified = convert("\x1b[1mBold\x1b[31mRed and Bold").unwrap();
    assert_eq!(
        htmlified,
        "<b>Bold<span style='color:var(--red,#a00)'>Red and Bold</span></b>"
    );
}

#[test]
fn inverted_without_colors_on_dark_theme() {
    let htmlified = convert("\x1b[7minverted").unwrap();
    assert_eq!(
        htmlified,
        "<span style='color:var(--black,#000);background:var(--bright-white,#fff)'>inverted</span>"
    );
}

#[test]
fn inverted_without_colors_on_light_theme() {
    let htmlified = Converter::new()
        .theme(Theme::Light)
        .convert("\x1b[7minverted")
        .unwrap();
    assert_eq!(
        htmlified,
        "<span style='color:var(--bright-white,#fff);background:var(--black,#000)'>inverted</span>"
    );
}

#[test]
fn text_without_escapes_is_only_escaped() {
    assert_eq!(convert("plain text").unwrap(), "plain text");
    assert_eq!(
        convert("<a href=\"x\">T&C's</a>").unwrap(),
        "&lt;a href=&quot;x&quot;&gt;T&amp;C&#39;s&lt;/a&gt;"
    );
    assert_eq!(convert("").unwrap(), "");
    assert_eq!(convert("h\u{e9}llo \u{1f600}").unwrap(), "h\u{e9}llo \u{1f600}");
}

#[test]
fn builder_example() {
    let converter = Converter::new()
        .skip_escape(true)
        .skip_optimize(true)
        .four_bit_var_prefix(Some("custom-".to_owned()));
    let bold = "\x1b[1m";
    let red = "\x1b[31m";
    let reset = "\x1b[0m";
    let input = format!("<h1> <i></i> {bold}Hello {red}world!{reset} </h1>");
    let converted = converter.convert(&input).unwrap();
    assert_eq!(
        converted,
        "<h1> <i></i> <b>Hello <span style='color:var(--custom-red,#a00)'>world!</span></b> </h1>",
    );
    assert_eq!(convert_with_opts(&input, &converter).unwrap(), converted);
}

#[test]
fn crate_example() {
    let bold = "\x1b[1m";
    let red = "\x1b[31m";
    let input = format!("<h1> {bold}Hello {red}world! </h1>");
    let converted = convert(&input).unwrap();
    assert_eq!(
        converted,
        "&lt;h1&gt; <b>Hello <span style='color:var(--red,#a00)'>world! &lt;/h1&gt;</span></b>"
    );
}

#[test]
fn esc_examples() {
    assert_eq!(&Esc("<h1>").to_string(), "&lt;h1&gt;");
    assert_eq!(&Esc("a & b \"c\" 'd'").to_string(), "a &amp; b &quot;c&quot; &#39;d&#39;");
    assert_eq!(&Esc("").to_string(), "");
}

#[test]
fn removing_a_buried_style_reopens_what_stays() {
    let html = Converter::new()
        .skip_optimize(true)
        .convert("\x1b[1;3;4mx\x1b[22my")
        .unwrap();
    assert_eq!(html, "<b><i><u>x</u></i></b><i><u>y</u></i>");
}

#[test]
fn unoptimized_keeps_every_transition() {
    let html = Converter::new()
        .skip_optimize(true)
        .convert("\x1b[4;34;31;24mRed\x1b[31m Still Red")
        .unwrap();
    assert_eq!(
        html,
        "<u><span style='color:var(--blue,#00a)'></span><span style='color:var(--red,#a00)'></span></u>\
         <span style='color:var(--red,#a00)'>Red</span><span style='color:var(--red,#a00)'> Still Red</span>"
    );
}

#[test]
fn reset_on_empty_stack_writes_nothing() {
    let html = Converter::new()
        .skip_optimize(true)
        .convert("\x1b[0m\x1b[mtext\x1b[0m")
        .unwrap();
    assert_eq!(html, "text");
}

#[test]
fn colors_of_all_depths() {
    let html = convert("\x1b[38;2;1;2;255mA\x1b[0m\x1b[48;5;196mB\x1b[0m\x1b[93mC\x1b[0m\x1b[104mD").unwrap();
    assert_eq!(
        html,
        "<span style='color:#0102ff'>A</span><span style='background:#f00'>B</span>\
         <span style='color:var(--bright-yellow,#ff5)'>C</span>\
         <span style='background:var(--bright-blue,#55f)'>D</span>"
    );
    assert_eq!(
        convert("\x1b[38;5;16ma\x1b[38;5;231mb\x1b[38;5;232mc\x1b[38;5;255md\x1b[38;5;67me").unwrap(),
        "<span style='color:#000'>a</span><span style='color:#fff'>b</span>\
         <span style='color:#080808'>c</span><span style='color:#eee'>d</span>\
         <span style='color:#5f87af'>e</span>"
    );
}

#[test]
fn foreground_while_inverted_is_written_as_background() {
    let html = Converter::new()
        .skip_optimize(true)
        .convert("\x1b[7m\x1b[32mG")
        .unwrap();
    assert_eq!(
        html,
        "<span style='color:var(--black,#000);background:var(--bright-white,#fff)'>\
         <span style='background:var(--green,#0a0)'>G</span></span>"
    );
}

#[test]
fn invert_while_inverted_is_ignored() {
    let html = Converter::new()
        .skip_optimize(true)
        .convert("\x1b[7m\x1b[7mx")
        .unwrap();
    assert_eq!(
        html,
        "<span style='color:var(--black,#000);background:var(--bright-white,#fff)'>x</span>"
    );
}

#[test]
fn unsupported_codes_are_ignored_and_non_sgr_sequences_dropped() {
    assert_eq!(convert("\x1b[5;8;53mblink\x1b[2Jcleared\x1b(Bx").unwrap(), "blinkclearedx");
}

fn invalid(msg: &str, input: &str) {
    match convert(input) {
        Err(Error::InvalidAnsi { msg: m }) => assert_eq!(m, msg),
        other => panic!("unexpected {other:?}"),
    }
}

#[test]
fn errors() {
    invalid("Unexpected code 56", "ok\x1b[56mx");
    invalid("Unexpected code 255", "\x1b[255m");
    invalid("Missing 2 or 5", "\x1b[38m");
    invalid("Missing 8-bit color", "\x1b[38;5m");
    invalid("Missing ANSI red", "\x1b[48;2m");
    invalid("Missing ANSI green", "\x1b[48;2;1m");
    invalid("Missing ANSI blue", "\x1b[48;2;1;2m");
    invalid("Expected 2 or 5, got 7", "\x1b[38;7;1m");
    match convert("\x1b[256m") {
        Err(e @ Error::ParseInt(_)) => {
            assert_eq!(e.message(), "number too large to fit in target type")
        }
        other => panic!("unexpected {other:?}"),
    }
    match convert("\x1b[38;2;1;2;300m") {
        Err(Error::ParseInt(_)) => {}
        other => panic!("unexpected {other:?}"),
    }
    assert_eq!(
        Error::invalid_ansi("Missing 2 or 5").message(),
        "Invalid ANSI: Missing 2 or 5"
    );
}

#[test]
fn invert_follows_the_stack() {
    let convert = |s: &str| convert(s).unwrap();
    // Useless codes are minified away
    assert_eq!(convert("\x1b[7m\x1b[27m\x1b[0mtext"), "text");
    // Invert works with custom colors
    assert_eq!(
        convert("\x1b[31mRed on black \x1b[7mBlack on red\x1b[0m"),
        "<span style='color:var(--red,#a00)'>Red on black <span style='color:var(--black,#000);background:var(--red,#a00)'>Black on red</span></span>"
    );
    // Invert off does nothing by itself
    assert_eq!(convert("\x1b[27mPlain"), "Plain");
    // Invert off disables invert
    assert_eq!(
        convert("\x1b[7mBlack on white \x1b[27mWhite on black\x1b[0m"),
        "<span style='color:var(--black,#000);background:var(--bright-white,#fff)'>Black on white </span>White on black"
    );
    // Multiple invert offs count as one
    assert_eq!(
        convert("\x1b[7mInverted \x1b[27m\x1b[27mNon-Inverted\x1b[0m"),
        "<span style='color:var(--black,#000);background:var(--bright-white,#fff)'>Inverted </span>Non-Inverted"
    );
}

#[test]
fn a_new_color_takes_the_place_of_the_old_one() {
    let html = Converter::new()
        .skip_optimize(true)
        .convert("\x1b[31ma\x1b[1mb\x1b[34mc")
        .unwrap();
    assert_eq!(
        html,
        "<span style='color:var(--red,#a00)'>a<b>b</b></span><b><span style='color:var(--blue,#00a)'>c</span></b>"
    );
}

#[test]
fn color_modes() {
    let input = "\x1b[31;44mx\x1b[38;5;9my\x1b[38;5;100mz";
    let hard = Converter::new().four_bit_color_mode(FourBitColorType::Hardcoded);
    assert_eq!(
        hard.convert(input).unwrap(),
        "<span style='color:#a00'><span style='background:#00a'>x</span></span>\
         <span style='background:#00a'><span style='color:#f55'>y</span>\
         <span style='color:#878700'>z</span></span>"
    );
    let class = Converter::new()
        .four_bit_color_mode(FourBitColorType::Class { prefix: Some("c-".to_owned()) });
    assert_eq!(
        class.convert("\x1b[31;104mx").unwrap(),
        "<span class='c-red'><span class='c-bg-bright-blue'>x</span></span>"
    );
}
