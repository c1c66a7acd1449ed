//! The options of the command line tool: what the command line says, what
//! the configuration file says, and what the two come to.

use vstd::prelude::*;
use vstd::string::StringExecFns;
use vstd::utf8::*;
use crate::esc::{escaped, Esc};
use crate::html::Theme;
use crate::text::bytes_of;

verus! {

/// What the command line says.
pub struct Cli {
    /// The commands to run.
    pub commands: Vec<String>,
    /// The shell to run them in.
    pub shell: Option<String>,
    /// The programs whose subcommands are highlighted.
    pub highlight: Option<Vec<String>>,
    /// The prefix of the CSS classes.
    pub prefix: Option<String>,
    /// Whether only the prompt is written, and nothing is run.
    pub no_run: bool,
    /// Whether the prompt is left out.
    pub no_prompt: bool,
    /// Whether the prompt shows the working directory.
    pub cwd: bool,
    /// Whether a whole HTML document is written.
    pub doc: bool,
    /// The colour theme of the terminal.
    pub theme: Option<Theme>,
}

/// What the configuration file says of the shell.
pub struct Shell {
    pub program: Option<String>,
}

/// What the configuration file says of the output.
pub struct Output {
    pub cwd: bool,
    pub full_document: bool,
    pub highlight: Vec<String>,
    pub css_prefix: Option<String>,
    pub theme: Theme,
}

/// What the configuration file says.
pub struct Config {
    pub shell: Shell,
    pub output: Output,
}

/// How the prompt looks.
#[derive(Debug)]
pub enum ShellPrompt {
    /// An arrow.
    Arrow,
    /// The working directory, with the home directory shortened.
    Cwd { home: Option<String> },
}

/// The options that the tool works with.
#[derive(Debug)]
pub struct Opts {
    pub commands: Vec<String>,
    pub shell: Option<String>,
    pub highlight: Vec<String>,
    pub prefix: String,
    pub no_run: bool,
    pub prompt: ShellPrompt,
    pub doc: bool,
    pub no_prompt: bool,
    pub theme: Theme,
}

/// The prefix of the CSS classes: the one that was asked for, escaped and
/// followed by `-`, or nothing where none was asked for.
pub open spec fn class_prefix(asked: Option<String>) -> Seq<char> {
    match asked {
        Some(p) => decode_utf8(escaped(bytes_of(p@))) + "-"@,
        None => Seq::empty(),
    }
}

impl Opts {
    /// What the command line and the configuration file come to. Where both
    /// speak, the command line wins; a switch is on where either has it on.
    pub fn merge(config: Config, cli: Cli, home_dir: Option<String>) -> (opts: Opts)
        ensures
            opts.commands == cli.commands,
            opts.shell == if cli.shell is Some {
                cli.shell
            } else {
                config.shell.program
            },
            opts.highlight == match cli.highlight {
                Some(h) => h,
                None => config.output.highlight,
            },
            opts.prefix@ == class_prefix(
                if cli.prefix is Some {
                    cli.prefix
                } else {
                    config.output.css_prefix
                },
            ),
            opts.no_run == cli.no_run,
            opts.prompt == if cli.cwd || config.output.cwd {
                ShellPrompt::Cwd { home: home_dir }
            } else {
                ShellPrompt::Arrow
            },
            opts.doc == (cli.doc || config.output.full_document),
            opts.no_prompt == cli.no_prompt,
            opts.theme == match cli.theme {
                Some(t) => t,
                None => config.output.theme,
            },
    {
        let Config { shell: Shell { program: config_shell }, output } = config;
        let Output {
            cwd: config_cwd,
            full_document: config_doc,
            highlight: config_highlight,
            css_prefix: config_prefix,
            theme: config_theme,
        } = output;
        let Cli {
            commands: cli_commands,
            shell: cli_shell,
            highlight: cli_highlight,
            prefix: cli_prefix,
            no_run: cli_no_run,
            cwd: cli_cwd,
            doc: cli_doc,
            no_prompt: cli_no_prompt,
            theme,
        } = cli;
        let prompt = if cli_cwd || config_cwd {
            ShellPrompt::Cwd { home: home_dir }
        } else {
            ShellPrompt::Arrow
        };
        let asked = match cli_prefix {
            Some(p) => Some(p),
            None => config_prefix,
        };
        let prefix = match asked {
            Some(p) => {
                let mut text = Esc(p.as_str()).to_string();
                proof {
                    encode_utf8_decode_utf8(text@);
                }
                text.append("-");
                text
            },
            None => String::new(),
        };
        Opts {
            commands: cli_commands,
            shell: match cli_shell {
                Some(s) => Some(s),
                None => config_shell,
            },
            highlight: match cli_highlight {
                Some(h) => h,
                None => config_highlight,
            },
            prefix,
            no_run: cli_no_run,
            prompt,
            doc: cli_doc || config_doc,
            no_prompt: cli_no_prompt,
            theme: match theme {
                Some(t) => t,
                None => config_theme,
            },
        }
    }
}

} // verus!
