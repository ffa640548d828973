//! The command `completion`: shell completion scripts. The lists of commands and
//! flags in them follow the parsers.
use vstd::prelude::*;

use crate::args::CliError;
use crate::args::Failure;
use crate::text::same;
use crate::text::texts;

verus! {

/// Usage text.
pub const USAGE: &'static str = "\
Usage: power-monitor completion <bash|zsh|fish>\n\
\n\
Print a shell completion script to stdout.\n\
\n\
Examples:\n\
\x20 power-monitor completion bash > $(brew --prefix)/etc/bash_completion.d/power-monitor\n\
\x20 power-monitor completion zsh  > ~/.zsh/completions/_power-monitor\n\
\x20 power-monitor completion fish > ~/.config/fish/completions/power-monitor.fish\n";

/// Appends the usage text.
pub fn write_usage(out: &mut String)
    ensures
        final(out)@ == old(out)@ + USAGE@,
{
    out.append(USAGE);
}

/// Completion script for bash.
pub const BASH: &'static str = r#"# bash completion for power-monitor
_power_monitor() {
    local cur cmds
    COMPREPLY=()
    cur="${COMP_WORDS[COMP_CWORD]}"
    cmds="pipe serve collect fan doctor man completion help"

    if [ "$COMP_CWORD" -eq 1 ]; then
        COMPREPLY=( $(compgen -W "$cmds -h --help -V --version --no-color" -- "$cur") )
        return 0
    fi

    case "${COMP_WORDS[1]}" in
        pipe)       COMPREPLY=( $(compgen -W "-s --samples -i --interval -h --help" -- "$cur") );;
        serve)      COMPREPLY=( $(compgen -W "--bind -p --port -i --interval --auth --auth-file --install --uninstall -h --help" -- "$cur") );;
        collect)    COMPREPLY=( $(compgen -W "--host --tailnet -p --port -i --interval --auth --auth-file --install --uninstall -h --help" -- "$cur") );;
        fan)        COMPREPLY=( $(compgen -W "max auto -h --help" -- "$cur") );;
        man)        COMPREPLY=( $(compgen -W "--install -h --help" -- "$cur") );;
        completion) COMPREPLY=( $(compgen -W "bash zsh fish -h --help" -- "$cur") );;
        doctor)     COMPREPLY=( $(compgen -W "--no-color -h --help" -- "$cur") );;
        help)       COMPREPLY=( $(compgen -W "$cmds" -- "$cur") );;
    esac
    return 0
}
complete -F _power_monitor power-monitor
"#;

/// Completion script for zsh.
pub const ZSH: &'static str = r#"#compdef power-monitor
_power_monitor() {
    local -a commands
    commands=(
        'pipe:Stream metrics to stdout as NDJSON'
        'serve:Serve JSON + Prometheus metrics over HTTP'
        'collect:Aggregate many agents into one fleet dashboard'
        'fan:Control fan speed (requires root)'
        'doctor:Run health checks'
        'man:Print or install the man page'
        'completion:Generate shell completions'
        'help:Show help'
    )
    if (( CURRENT == 2 )); then
        _describe -t commands 'power-monitor command' commands
        _arguments '-h[help]' '--help[help]' '-V[version]' '--version[version]' '--no-color[disable color]'
        return
    fi
    case "${words[2]}" in
        pipe)    _arguments '(-s --samples)'{-s,--samples}'[stop after N samples]:N' '(-i --interval)'{-i,--interval}'[sampling window ms]:ms' ;;
        serve)   _arguments '--bind[bind address]:addr' '(-p --port)'{-p,--port}'[port]:port' '(-i --interval)'{-i,--interval}'[interval ms]:ms' '--auth[bearer token]:token' '--auth-file[token file]:file:_files' '--install' '--uninstall' ;;
        collect) _arguments '--host[host list]:hosts' '--tailnet[discover via tailscale]' '(-p --port)'{-p,--port}'[port]:port' '(-i --interval)'{-i,--interval}'[interval ms]:ms' '--auth[bearer token]:token' '--auth-file[token file]:file:_files' '--install' '--uninstall' ;;
        fan)     _values 'mode' max auto ;;
        completion) _values 'shell' bash zsh fish ;;
        man)     _arguments '--install[install dir]:dir:_files -/' ;;
        doctor)  _arguments '--no-color[disable color]' ;;
    esac
}
_power_monitor "$@"
"#;

/// Completion script for fish.
pub const FISH: &'static str = r#"# fish completion for power-monitor
complete -c power-monitor -f
set -l cmds pipe serve collect fan doctor man completion help
complete -c power-monitor -n "not __fish_seen_subcommand_from $cmds" -a pipe       -d 'Stream NDJSON metrics'
complete -c power-monitor -n "not __fish_seen_subcommand_from $cmds" -a serve      -d 'HTTP + Prometheus'
complete -c power-monitor -n "not __fish_seen_subcommand_from $cmds" -a collect    -d 'Fleet dashboard'
complete -c power-monitor -n "not __fish_seen_subcommand_from $cmds" -a fan        -d 'Fan control (root)'
complete -c power-monitor -n "not __fish_seen_subcommand_from $cmds" -a doctor     -d 'Health checks'
complete -c power-monitor -n "not __fish_seen_subcommand_from $cmds" -a man        -d 'Man page'
complete -c power-monitor -n "not __fish_seen_subcommand_from $cmds" -a completion -d 'Shell completions'
complete -c power-monitor -n "not __fish_seen_subcommand_from $cmds" -a help       -d 'Show help'
complete -c power-monitor -n "not __fish_seen_subcommand_from $cmds" -s h -l help    -d 'Print help'
complete -c power-monitor -n "not __fish_seen_subcommand_from $cmds" -s V -l version -d 'Print version'
complete -c power-monitor -n "not __fish_seen_subcommand_from $cmds" -l no-color     -d 'Disable color'
complete -c power-monitor -n "__fish_seen_subcommand_from fan"        -a 'max auto'
complete -c power-monitor -n "__fish_seen_subcommand_from completion" -a 'bash zsh fish'
"#;

/// What `completion` prints.
#[derive(Debug, Clone, Copy, PartialEq, Eq, Structural)]
pub enum Shell {
    Bash,
    Zsh,
    Fish,
    Help,
}

impl Shell {
    /// What is printed for the shell.
    pub open spec fn text(self) -> Seq<char> {
        match self {
            Shell::Bash => BASH@,
            Shell::Zsh => ZSH@,
            Shell::Fish => FISH@,
            Shell::Help => USAGE@,
        }
    }

    /// What is printed.
    pub fn script(self) -> (r: &'static str)
        ensures
            r@ == self.text(),
    {
        match self {
            Shell::Bash => BASH,
            Shell::Zsh => ZSH,
            Shell::Fish => FISH,
            Shell::Help => USAGE,
        }
    }
}

/// What the arguments ask for.
pub open spec fn parsed(args: Seq<Seq<char>>) -> Result<Shell, Failure> {
    if args.len() == 0 {
        Err(("error: completion requires a shell: bash, zsh, or fish"@, 2, true))
    } else if args[0] == "bash"@ {
        Ok(Shell::Bash)
    } else if args[0] == "zsh"@ {
        Ok(Shell::Zsh)
    } else if args[0] == "fish"@ {
        Ok(Shell::Fish)
    } else if args[0] == "-h"@ || args[0] == "--help"@ {
        Ok(Shell::Help)
    } else {
        Err(("error: unknown shell '"@ + args[0] + "' (expected bash, zsh, or fish)"@, 2, true))
    }
}

/// What the arguments ask for.
pub fn run(args: &Vec<String>) -> (r: Result<Shell, CliError>)
    ensures
        match (r, parsed(texts(args@))) {
            (Ok(a), Ok(b)) => a == b,
            (Err(e), Err(f)) => e@ == f,
            _ => false,
        },
{
    if args.len() == 0 {
        return Err(
            CliError {
                message: "error: completion requires a shell: bash, zsh, or fish".to_string(),
                code: 2,
                usage: true,
            },
        );
    }
    let arg: &String = &args[0];
    assert(texts(args@)[0] == arg@);
    if same(arg, "bash") {
        Ok(Shell::Bash)
    } else if same(arg, "zsh") {
        Ok(Shell::Zsh)
    } else if same(arg, "fish") {
        Ok(Shell::Fish)
    } else if same(arg, "-h") || same(arg, "--help") {
        Ok(Shell::Help)
    } else {
        let mut message: String = "error: unknown shell '".to_string();
        message.append(arg);
        message.append("' (expected bash, zsh, or fish)");
        Err(CliError { message, code: 2, usage: true })
    }
}

/// A shell is asked for by its name, and gets its own script; what is no shell is refused.
pub proof fn shells_go_by_name(args: Seq<Seq<char>>)
    ensures
        parsed(args) == Ok::<Shell, Failure>(Shell::Bash) <==> args.len() > 0 && args[0] == "bash"@,
        parsed(args) == Ok::<Shell, Failure>(Shell::Zsh) <==> args.len() > 0 && args[0] == "zsh"@,
        parsed(args) == Ok::<Shell, Failure>(Shell::Fish) <==> args.len() > 0 && args[0] == "fish"@,
        parsed(args) == Ok::<Shell, Failure>(Shell::Help) <==> args.len() > 0 && (args[0] == "-h"@
            || args[0] == "--help"@),
        parsed(args) matches Err(e) ==> e.1 == 2 && e.2,
        Shell::Bash.text() == BASH@,
        Shell::Zsh.text() == ZSH@,
        Shell::Fish.text() == FISH@,
        Shell::Help.text() == USAGE@,
{
    reveal_strlit("bash");
    reveal_strlit("zsh");
    reveal_strlit("fish");
    reveal_strlit("-h");
    reveal_strlit("--help");
    assert("bash"@[0] != "fish"@[0]);
    assert("bash"@.len() != "zsh"@.len());
    assert("bash"@.len() != "-h"@.len());
    assert("bash"@.len() != "--help"@.len());
    assert("zsh"@.len() != "fish"@.len());
    assert("zsh"@.len() != "-h"@.len());
    assert("zsh"@.len() != "--help"@.len());
    assert("fish"@.len() != "-h"@.len());
    assert("fish"@.len() != "--help"@.len());
    assert("-h"@.len() != "--help"@.len());
}

} // verus!
