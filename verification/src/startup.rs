//! What the bar does at start: the command line, which compositor backend
//! runs, and which edge the bar sits on.
use vstd::prelude::*;

use crate::config::CompositorBackendKind;
use crate::text::chars_eq;
use crate::text::chars_of;

verus! {

broadcast use vstd::string::group_string_axioms;

/// What the command line asks for.
#[derive(Debug, Clone, PartialEq, Eq)]
pub enum CliCommand {
    /// Run the bar, with the config file given by `--config`/`-c` if any.
    Run { config: Option<String> },
    /// `--write-example-config`.
    WriteExampleConfig,
    /// `--help` / `-h`.
    Help,
}

pub enum CliView {
    Run(Option<Seq<char>>),
    WriteExampleConfig,
    Help,
}

impl View for CliCommand {
    type V = CliView;

    open spec fn view(&self) -> CliView {
        match self {
            CliCommand::Run { config } => CliView::Run(
                match config {
                    Some(c) => Some(c@),
                    None => None,
                },
            ),
            CliCommand::WriteExampleConfig => CliView::WriteExampleConfig,
            CliCommand::Help => CliView::Help,
        }
    }
}

/// The command for the arguments `args` from position `i` on, with `path`
/// the config file named so far: `--config`/`-c` followed by a value names
/// the file (a trailing one is ignored); the first `--write-example-config`
/// or `--help`/`-h` wins; anything else is ignored.
pub open spec fn cli_from(args: Seq<Seq<char>>, i: int, path: Option<Seq<char>>) -> CliView
    decreases args.len() - i,
{
    if i < 0 || i >= args.len() {
        CliView::Run(path)
    } else if (args[i] == "--config"@ || args[i] == "-c"@) && i + 1 < args.len() {
        cli_from(args, i + 2, Some(args[i + 1]))
    } else if args[i] == "--write-example-config"@ {
        CliView::WriteExampleConfig
    } else if args[i] == "--help"@ || args[i] == "-h"@ {
        CliView::Help
    } else {
        cli_from(args, i + 1, path)
    }
}

fn is_arg(a: &Vec<char>, lit: &str) -> (r: bool)
    ensures
        r == (a@ == lit@),
{
    let l = chars_of(lit);
    chars_eq(a, &l)
}

/// The command for the process arguments `args` (the first is the program).
pub fn parse_cli(args: &Vec<String>) -> (r: CliCommand)
    ensures
        r@ == cli_from(crate::compositor::str_views(args@), 1, None),
{
    let ghost av = crate::compositor::str_views(args@);
    let mut path: Option<String> = None;
    let mut i: usize = 1;
    while i < args.len()
        invariant
            1 <= i,
            av == crate::compositor::str_views(args@),
            cli_from(av, i as int, match path {
                Some(p) => Some(p@),
                None => None,
            }) == cli_from(av, 1, None),
        decreases args@.len() - i,
    {
        let a = chars_of(args[i].as_str());
        assert(av[i as int] == args@[i as int]@);
        if (is_arg(&a, "--config") || is_arg(&a, "-c")) && i + 1 < args.len() {
            assert(av[i + 1] == args@[i + 1]@);
            path = Some(args[i + 1].clone());
            i += 2;
        } else if is_arg(&a, "--write-example-config") {
            return CliCommand::WriteExampleConfig;
        } else if is_arg(&a, "--help") || is_arg(&a, "-h") {
            return CliCommand::Help;
        } else {
            i += 1;
        }
    }
    CliCommand::Run { config: path }
}

/// The backend that runs: a configured one as it is; `Auto` picks niri when
/// its IPC socket is advertised, else Hyprland when it is, else none.
pub open spec fn backend_for(
    configured: CompositorBackendKind,
    niri: bool,
    hyprland: bool,
) -> CompositorBackendKind {
    match configured {
        CompositorBackendKind::Auto => if niri {
            CompositorBackendKind::Niri
        } else if hyprland {
            CompositorBackendKind::Hyprland
        } else {
            CompositorBackendKind::Disabled
        },
        other => other,
    }
}

pub fn resolve_backend(configured: CompositorBackendKind, niri: bool, hyprland: bool) -> (r:
    CompositorBackendKind)
    ensures
        r == backend_for(configured, niri, hyprland),
{
    match configured {
        CompositorBackendKind::Auto => if niri {
            CompositorBackendKind::Niri
        } else if hyprland {
            CompositorBackendKind::Hyprland
        } else {
            CompositorBackendKind::Disabled
        },
        other => other,
    }
}

/// Law: the backend that runs is never `Auto`; under `Auto`, niri wins over
/// Hyprland when both are detected; a configured backend is never overridden.
pub proof fn lemma_backend_choice(configured: CompositorBackendKind, niri: bool, hyprland: bool)
    ensures
        backend_for(configured, niri, hyprland) != CompositorBackendKind::Auto,
        configured == CompositorBackendKind::Auto && niri ==> backend_for(configured, niri, hyprland)
            == CompositorBackendKind::Niri,
        configured != CompositorBackendKind::Auto ==> backend_for(configured, niri, hyprland)
            == configured,
{
}

/// The bar sits on the bottom edge only when its anchor is `"bottom"`;
/// anything else means the top.
pub fn bar_at_bottom(anchor: &str) -> (r: bool)
    ensures
        r == (anchor@ == "bottom"@),
{
    let a = chars_of(anchor);
    is_arg(&a, "bottom")
}

} // verus!
