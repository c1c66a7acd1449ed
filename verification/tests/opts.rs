use ansi_to_html::opts::{Cli, Config, Opts, Output, Shell, ShellPrompt};
use ansi_to_html::Theme;

fn cli() -> Cli {
    Cli {
        commands: vec!["ls".to_owned()],
        shell: None,
        highlight: None,
        prefix: None,
        no_run: false,
        no_prompt: false,
        cwd: false,
        doc: false,
        theme: None,
    }
}

fn config() -> Config {
    Config {
        shell: Shell { program: None },
        output: Output {
            cwd: false,
            full_document: false,
            highlight: Vec::new(),
            css_prefix: None,
            theme: Theme::Dark,
        },
    }
}

#[test]
fn defaults() {
    let opts = Opts::merge(config(), cli(), Some("/home/me".to_owned()));
    assert_eq!(opts.commands, ["ls"]);
    assert_eq!(opts.shell, None);
    assert!(opts.highlight.is_empty());
    assert_eq!(opts.prefix, "");
    assert!(!opts.no_run && !opts.doc && !opts.no_prompt);
    assert!(matches!(opts.prompt, ShellPrompt::Arrow));
    assert_eq!(opts.theme, Theme::Dark);
}

#[test]
fn command_line_wins_over_configuration() {
    let mut config = config();
    config.shell.program = Some("zsh".to_owned());
    config.output.highlight = vec!["git".to_owned()];
    config.output.css_prefix = Some("conf".to_owned());
    config.output.theme = Theme::Light;
    let mut cli = cli();
    cli.shell = Some("fish".to_owned());
    cli.highlight = Some(vec!["cargo".to_owned(), "npm".to_owned()]);
    cli.prefix = Some("a<b".to_owned());
    cli.theme = Some(Theme::Dark);
    cli.no_run = true;
    let opts = Opts::merge(config, cli, None);
    assert_eq!(opts.shell.as_deref(), Some("fish"));
    assert_eq!(opts.highlight, ["cargo", "npm"]);
    assert_eq!(opts.prefix, "a&lt;b-");
    assert_eq!(opts.theme, Theme::Dark);
    assert!(opts.no_run);
}

#[test]
fn configuration_fills_what_the_command_line_leaves_open() {
    let mut config = config();
    config.shell.program = Some("zsh".to_owned());
    config.output.highlight = vec!["git".to_owned()];
    config.output.css_prefix = Some("conf".to_owned());
    config.output.theme = Theme::Light;
    config.output.cwd = true;
    config.output.full_document = true;
    let opts = Opts::merge(config, cli(), Some("/home/me".to_owned()));
    assert_eq!(opts.shell.as_deref(), Some("zsh"));
    assert_eq!(opts.highlight, ["git"]);
    assert_eq!(opts.prefix, "conf-");
    assert_eq!(opts.theme, Theme::Light);
    assert!(opts.doc);
    match opts.prompt {
        ShellPrompt::Cwd { home } => assert_eq!(home.as_deref(), Some("/home/me")),
        ShellPrompt::Arrow => panic!("the prompt should show the working directory"),
    }
}

#[test]
fn either_switch_turns_on() {
    let mut cli = cli();
    cli.cwd = true;
    cli.doc = true;
    cli.no_prompt = true;
    let opts = Opts::merge(config(), cli, None);
    assert!(opts.doc && opts.no_prompt);
    assert!(matches!(opts.prompt, ShellPrompt::Cwd { home: None }));
}
