//! What the command line says about the terminal.

use vstd::prelude::*;

verus! {

/// Whether output is coloured.
#[derive(Clone, Copy, Debug, PartialEq, Eq, Structural)]
pub enum ColorChoice {
    Auto,
    Always,
    Never,
}

/// How much is logged.
#[derive(Clone, Copy, Debug, PartialEq, Eq, Structural)]
pub enum LogLevel {
    Warn,
    Info,
    Debug,
    Trace,
}

/// Settings of the terminal.
#[derive(Clone, Copy, Debug, PartialEq, Eq, Structural)]
pub struct Config {
    pub color: ColorChoice,
    pub quiet: bool,
}

/// The colour choice that a value of the `--color` option stands for.
pub open spec fn color_of(value: Option<Seq<char>>) -> Option<ColorChoice> {
    match value {
        None => Some(ColorChoice::Auto),
        Some(text) => if text == "auto"@ {
            Some(ColorChoice::Auto)
        } else if text == "always"@ {
            Some(ColorChoice::Always)
        } else if text == "never"@ {
            Some(ColorChoice::Never)
        } else {
            None
        },
    }
}

/// The value of the `--color` option, if it was given, as a choice: `auto`,
/// `always` or `never`, and `auto` where it was not given. `None` for any
/// other value, which the option does not admit.
pub fn global_color_option(value: Option<&str>) -> (choice: Option<ColorChoice>)
    ensures
        choice == color_of(
            match value {
                Some(text) => Some(text@),
                None => None,
            },
        ),
{
    match value {
        None => Some(ColorChoice::Auto),
        Some(text) => {
            let text = text.to_owned();
            if text == "auto".to_owned() {
                Some(ColorChoice::Auto)
            } else if text == "always".to_owned() {
                Some(ColorChoice::Always)
            } else if text == "never".to_owned() {
                Some(ColorChoice::Never)
            } else {
                None
            }
        },
    }
}

/// The log level for a number of `-v` on the command line.
pub open spec fn level_of(verbosity: u64) -> LogLevel {
    if verbosity == 0 {
        LogLevel::Warn
    } else if verbosity == 1 {
        LogLevel::Info
    } else if verbosity == 2 {
        LogLevel::Debug
    } else {
        LogLevel::Trace
    }
}

/// The settings of the terminal, and the level at which to log unless the
/// terminal is to stay quiet.
pub fn config_terminal(quiet: bool, color: ColorChoice, verbosity: u64) -> (out: (
    Config,
    Option<LogLevel>,
))
    ensures
        out.0 == (Config { color, quiet }),
        out.1 == (if quiet {
            None
        } else {
            Some(level_of(verbosity))
        }),
{
    let level = if quiet {
        None
    } else {
        Some(
            match verbosity {
                0 => LogLevel::Warn,
                1 => LogLevel::Info,
                2 => LogLevel::Debug,
                _ => LogLevel::Trace,
            },
        )
    };
    (Config { color, quiet }, level)
}

} // verus!
