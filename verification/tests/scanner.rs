use ansi_to_html::parse::{AnsiFragment, AnsiParser};

fn fragments(input: &str) -> Vec<AnsiFragment<'_>> {
    AnsiParser::new(input.as_bytes()).collect()
}

fn seq(s: &str) -> AnsiFragment<'_> {
    AnsiFragment::Sequence(s.as_bytes())
}

fn text(s: &str) -> AnsiFragment<'_> {
    AnsiFragment::Text(s.as_bytes())
}

fn assert_lone_sequence(s: &str) {
    assert_eq!(fragments(s), [seq(s)]);
}

#[test]
fn plain() {
    assert_eq!(fragments("Hello World!"), [text("Hello World!")]);
}

#[test]
fn variety() {
    assert_eq!(
        fragments("\u{1b}(BHello \u{1b}[4m\u{1b}[1;21mWorld!\u{1b}[0;m"),
        [
            seq("\u{1b}(B"),
            text("Hello "),
            seq("\u{1b}[4m"),
            seq("\u{1b}[1;21m"),
            text("World!"),
            seq("\u{1b}[0;m"),
        ]
    );
}

#[test]
fn invalid_right_before_valid() {
    assert_eq!(
        fragments("Before\u{1b}[4;\u{1b}[mAfter"),
        [text("Before"), text("\u{1b}[4;"), seq("\u{1b}[m"), text("After")]
    );
}

#[test]
fn basic_osc() {
    assert_eq!(
        fragments("Before\x1b]8;;https://example.com\x07After"),
        [
            text("Before"),
            seq("\u{1b}]8;;https://example.com\u{7}"),
            text("After"),
        ]
    );
}

#[test]
fn osc_st_variety() {
    assert_lone_sequence("\x1b]0;custom window title\x07");
    assert_lone_sequence("\x1b]8;;https://example.com\x1b\\");
}

#[test]
fn osc_st_edgecases() {
    assert_lone_sequence("\x1b]\x1b <-- esc not for st \x07");
    assert_lone_sequence("\x1b] esc not for st right before bel st --> \x1b\x07");
    assert_lone_sequence("\x1b]\x1b <-- both esc not for st --> \x1b\x07");
    assert_lone_sequence("\x1b] st start before valid st \x1b\x1b\\");
}

#[test]
fn osc_no_st() {
    let input = "\x1b] osc with no string terminator";
    assert_eq!(fragments(input), [text(input)]);
}

#[test]
fn fragments_join_to_the_input() {
    let inputs = [
        "",
        "plain",
        "\x1b",
        "\x1b[",
        "a\x1b[1;m\x1b[x\u{e9}\x1b]\u{1f600}\x07z\x1b(B\x1b(C",
        "\x1b[31;1",
        "\x1b]\x1b",
    ];
    for input in inputs {
        let mut joined: Vec<u8> = Vec::new();
        for fragment in fragments(input) {
            match fragment {
                AnsiFragment::Sequence(bytes) | AnsiFragment::Text(bytes) => {
                    assert!(!bytes.is_empty());
                    joined.extend_from_slice(bytes)
                }
            }
        }
        assert_eq!(joined, input.as_bytes());
    }
}

#[test]
fn rejected_start_is_text_up_to_the_rejecting_byte() {
    assert_eq!(fragments("\x1b[12x"), [text("\x1b[12"), text("x")]);
    assert_eq!(fragments("\x1b[;m"), [text("\x1b["), text(";m")]);
    assert_eq!(fragments("\x1bq"), [text("\x1b"), text("q")]);
}

#[test]
fn text_runs_to_the_next_escape() {
    assert_eq!(fragments("ab\x1b[Kcd"), [text("ab"), seq("\x1b[K"), text("cd")]);
}

#[test]
fn many_inputs_join_to_themselves() {
    let alphabet = [
        "\x1b", "[", "]", "(", "B", "m", ";", "1", "38", "\x07", "\\", "x", "\u{e9}", "\u{1f600}",
        "K", " ",
    ];
    let mut state: u64 = 3;
    for _ in 0..3000 {
        let mut input = String::new();
        for _ in 0..(state >> 40) % 14 {
            state = state
                .wrapping_mul(6364136223846793005)
                .wrapping_add(1442695040888963407);
            input.push_str(alphabet[((state >> 33) as usize) % alphabet.len()]);
        }
        state = state
            .wrapping_mul(6364136223846793005)
            .wrapping_add(1442695040888963407);
        let mut joined: Vec<u8> = Vec::new();
        for fragment in fragments(&input) {
            match fragment {
                AnsiFragment::Sequence(bytes) | AnsiFragment::Text(bytes) => {
                    assert!(std::str::from_utf8(bytes).is_ok());
                    joined.extend_from_slice(bytes)
                }
            }
        }
        assert_eq!(joined, input.as_bytes());
    }
}
