//! The command `man`: prints or installs the man page.
use vstd::prelude::*;

use crate::args::CliError;
use crate::args::Failure;
use crate::text::same;
use crate::text::texts;

verus! {

/// Usage text.
pub const USAGE: &'static str = "\
Usage: power-monitor man [--install [DIR]]\n\
\n\
Print the man page to stdout, or install it for `man power-monitor`.\n\
\n\
Options:\n\
\x20     --install [DIR]  Install power-monitor.1 into DIR/man1\n\
\x20                      (default: ~/.local/share/man)\n\
\x20 -h, --help           Show this help\n\
\n\
Examples:\n\
\x20 power-monitor man | man -l -                     # preview\n\
\x20 power-monitor man --install                      # ~/.local/share/man/man1\n\
\x20 sudo power-monitor man --install /usr/local/share/man\n";

/// Appends the usage text.
pub fn write_usage(out: &mut String)
    ensures
        final(out)@ == old(out)@ + USAGE@,
{
    out.append(USAGE);
}

/// What `man` is asked to do.
#[derive(Debug, Clone, PartialEq, Eq)]
pub enum ManAction {
    Print,
    Help,
    /// Install below the given directory, or below the default one.
    Install(Option<String>),
}

/// What `man` is asked to do, as a value.
pub enum ManRequest {
    Print,
    Help,
    Install(Option<Seq<char>>),
}

impl View for ManAction {
    type V = ManRequest;

    open spec fn view(&self) -> ManRequest {
        match *self {
            ManAction::Print => ManRequest::Print,
            ManAction::Help => ManRequest::Help,
            ManAction::Install(Some(d)) => ManRequest::Install(Some(d@)),
            ManAction::Install(None) => ManRequest::Install(None),
        }
    }
}

/// What the arguments ask for.
pub open spec fn parsed(args: Seq<Seq<char>>) -> Result<ManRequest, Failure> {
    if args.len() == 0 {
        Ok(ManRequest::Print)
    } else if args[0] == "-h"@ || args[0] == "--help"@ {
        Ok(ManRequest::Help)
    } else if args[0] == "--install"@ {
        Ok(ManRequest::Install(if args.len() > 1 { Some(args[1]) } else { None }))
    } else {
        Err(("error: unknown argument for man: "@ + args[0], 2, true))
    }
}

/// What the arguments ask for.
pub fn run(args: &Vec<String>) -> (r: Result<ManAction, CliError>)
    ensures
        match (r, parsed(texts(args@))) {
            (Ok(a), Ok(b)) => a@ == b,
            (Err(e), Err(f)) => e@ == f,
            _ => false,
        },
{
    if args.len() == 0 {
        return Ok(ManAction::Print);
    }
    let arg: &String = &args[0];
    assert(texts(args@)[0] == arg@);
    if same(arg, "-h") || same(arg, "--help") {
        Ok(ManAction::Help)
    } else if same(arg, "--install") {
        if args.len() > 1 {
            assert(texts(args@)[1] == args@[1]@);
            Ok(ManAction::Install(Some(args[1].clone())))
        } else {
            Ok(ManAction::Install(None))
        }
    } else {
        let mut message: String = "error: unknown argument for man: ".to_string();
        message.append(arg);
        Err(CliError { message, code: 2, usage: true })
    }
}

/// Where the man page goes: into a directory that was given, or below the home
/// directory.
#[derive(Debug, Clone, Copy, PartialEq, Eq, Structural)]
pub enum ManBase {
    Given,
    Home,
}

/// Directory below the home directory into which the man page goes by default.
pub const HOME_DIR: &'static str = ".local/share/man";

/// Directory of the page below the base.
pub const SECTION_DIR: &'static str = "man1";

/// File name of the page.
pub const PAGE_NAME: &'static str = "power-monitor.1";

/// Where the man page goes. Without a directory the home directory must be known.
pub fn install_base(given: bool, home_known: bool) -> (r: Result<ManBase, CliError>)
    ensures
        match r {
            Ok(b) => (given || home_known) && b == (if given {
                ManBase::Given
            } else {
                ManBase::Home
            }),
            Err(e) => !given && !home_known && e@ == (
                "error: could not determine HOME; pass an explicit DIR"@,
                1int,
                false,
            ),
        },
{
    if given {
        Ok(ManBase::Given)
    } else if home_known {
        Ok(ManBase::Home)
    } else {
        Err(
            CliError {
                message: "error: could not determine HOME; pass an explicit DIR".to_string(),
                code: 1,
                usage: false,
            },
        )
    }
}

/// What is said once the page is at `dest` below `base`.
pub fn installed_notice(dest: &str, base: &str) -> (r: String)
    ensures
        r@ == "installed man page: "@ + dest@
            + "\nif `man power-monitor` can't find it, add to MANPATH:\n  export MANPATH=\""@ + base@
            + ":$MANPATH\"\n"@,
{
    let mut out: String = "installed man page: ".to_string();
    out.append(dest);
    out.append("\nif `man power-monitor` can't find it, add to MANPATH:\n  export MANPATH=\"");
    out.append(base);
    out.append(":$MANPATH\"\n");
    out
}

/// The page is printed without arguments and installed where that is asked for, in the
/// directory that follows if one does; what is no option is refused.
pub proof fn options_choose_what_is_done(args: Seq<Seq<char>>)
    ensures
        parsed(args) == Ok::<ManRequest, Failure>(ManRequest::Print) <==> args.len() == 0,
        parsed(args) == Ok::<ManRequest, Failure>(ManRequest::Help) <==> args.len() > 0 && (args[0]
            == "-h"@ || args[0] == "--help"@),
        args.len() == 1 && args[0] == "--install"@ ==> parsed(args) == Ok::<ManRequest, Failure>(
            ManRequest::Install(None),
        ),
        args.len() > 1 && args[0] == "--install"@ ==> parsed(args) == Ok::<ManRequest, Failure>(
            ManRequest::Install(Some(args[1])),
        ),
        parsed(args) is Err <==> args.len() > 0 && args[0] != "-h"@ && args[0] != "--help"@ && args[0]
            != "--install"@,
        parsed(args) matches Err(e) ==> e.1 == 2 && e.2,
{
    reveal_strlit("-h");
    reveal_strlit("--help");
    reveal_strlit("--install");
    assert("-h"@.len() != "--help"@.len());
    assert("-h"@.len() != "--install"@.len());
    assert("--help"@.len() != "--install"@.len());
}

} // verus!
