//! The command line as a whole: which command runs, and the help texts.
use vstd::prelude::*;

use crate::args::CliError;
use crate::args::Failure;
use crate::suggest::suggest_command;
use crate::suggest::{commands, edit_distance, is_suggestion};
use crate::text::{has_prefix, same};
use crate::text::{begins, concat_assoc, texts};

verus! {

/// Usage text up to the version.
pub const USAGE_HEAD: &'static str = "\
NAME:\n\
\x20  power-monitor - command line for Apple Silicon power & performance monitoring\n\
\x20  version ";

/// Usage text behind the version.
pub const USAGE_TAIL: &'static str = "\
\n\
\n\
USAGE:\n\
\x20  power-monitor [OPTIONS] [COMMAND]\n\
\n\
DESCRIPTION:\n\
\x20  power-monitor reads power, temperature, fan RPM, CPU/GPU utilisation,\n\
\x20  frequency, voltage, current, battery, and RAM/swap on Apple Silicon by\n\
\x20  talking directly to AppleSMC, IOReport, and IOKit over FFI — no\n\
\x20  subprocesses and no sudo for reads.\n\
\n\
\x20  With no command it renders a live terminal dashboard.\n\
\n\
COMMANDS:\n\
\x20 pipe          Stream metrics to stdout as NDJSON\n\
\x20 serve         Serve JSON + Prometheus metrics over HTTP\n\
\x20 collect       Aggregate many agents into one fleet dashboard\n\
\x20 fan           Control fan speed: max | auto (requires root)\n\
\x20 doctor        Run health checks on the monitoring subsystems\n\
\x20 man           Print or install the man page\n\
\x20 completion    Generate shell completions (bash | zsh | fish)\n\
\x20 help          Print this message or the help of the given subcommand(s)\n\
\n\
GLOBAL OPTIONS:\n\
\x20     --no-color   Disable ANSI colors [env: NO_COLOR=]\n\
\x20 -h, --help       Print help\n\
\x20 -V, --version    Print version\n\
\n\
EXAMPLES:\n\
\x20  $ power-monitor                       # live dashboard\n\
\x20  $ power-monitor pipe | jq             # stream NDJSON metrics\n\
\x20  $ power-monitor pipe -s 10 -i 500     # 10 samples, 500 ms apart\n\
\x20  $ power-monitor serve --bind 0.0.0.0  # HTTP + Prometheus exporter\n\
\x20  $ power-monitor collect --tailnet     # fleet view across a tailnet\n\
\x20  $ sudo power-monitor fan max          # pin fans to full\n\
\n\
LEARN MORE:\n\
\x20  Use `power-monitor <command> --help` for details on any command.\n\
\x20  Run `power-monitor doctor` to verify subsystem access.\n\
\x20  Read the full docs at https://github.com/electricapp/power-monitor\n\
\n\
SUPPORT:\n\
\x20  Report bugs at https://github.com/electricapp/power-monitor/issues\n\
\n\
COPYRIGHT:\n\
\x20  (c) 2026 electricapp. Licensed MIT or Apache-2.0.\n";

/// The version, when it was built and from what: `0.1.0 (built <time>, <git>)`.
pub open spec fn version_text(version: Seq<char>, built: Seq<char>, git: Seq<char>) -> Seq<char> {
    version + " (built "@ + built + ", "@ + git + ")"@
}

/// The version, when it was built and from what.
pub fn version_detail(version: &str, built: &str, git: &str) -> (r: String)
    ensures
        r@ == version_text(version@, built@, git@),
{
    let mut out: String = version.to_string();
    out.append(" (built ");
    out.append(built);
    out.append(", ");
    out.append(git);
    out.append(")");
    out
}

/// The usage text of the program.
pub open spec fn usage_text(detail: Seq<char>) -> Seq<char> {
    USAGE_HEAD@ + detail + USAGE_TAIL@
}

/// Appends the usage text of the program; `detail` is the version.
pub fn write_usage(out: &mut String, detail: &str)
    ensures
        final(out)@ == old(out)@ + usage_text(detail@),
{
    broadcast use concat_assoc;

    out.append(USAGE_HEAD);
    out.append(detail);
    out.append(USAGE_TAIL);
}

/// The help on a topic: the usage text of a command, or of the program.
pub open spec fn help_text(topic: Option<Seq<char>>, detail: Seq<char>) -> Seq<char> {
    match topic {
        None => usage_text(detail),
        Some(t) => if t == "pipe"@ {
            crate::pipe_cmd::USAGE@
        } else if t == "serve"@ {
            crate::serve_cmd::USAGE@
        } else if t == "collect"@ {
            crate::collect_cmd::USAGE@
        } else if t == "fan"@ {
            crate::fan_cmd::USAGE@
        } else if t == "doctor"@ {
            crate::doctor_cmd::USAGE@
        } else if t == "man"@ {
            crate::man_cmd::USAGE@
        } else if t == "completion"@ {
            crate::completion_cmd::USAGE@
        } else {
            "No help topic for '"@ + t + "'.\n\n"@ + usage_text(detail)
        },
    }
}

/// The help on a topic.
pub fn print_help_for(topic: Option<&str>, detail: &str) -> (r: String)
    ensures
        r@ == help_text(crate::args::token_text(topic), detail@),
{
    let mut out: String = String::new();
    match topic {
        None => {
            write_usage(&mut out, detail);
            assert(Seq::<char>::empty() + usage_text(detail@) == usage_text(detail@));
            out
        },
        Some(t) => {
            if same(t, "pipe") {
                crate::pipe_cmd::USAGE.to_string()
            } else if same(t, "serve") {
                crate::serve_cmd::USAGE.to_string()
            } else if same(t, "collect") {
                crate::collect_cmd::USAGE.to_string()
            } else if same(t, "fan") {
                crate::fan_cmd::USAGE.to_string()
            } else if same(t, "doctor") {
                crate::doctor_cmd::USAGE.to_string()
            } else if same(t, "man") {
                crate::man_cmd::USAGE.to_string()
            } else if same(t, "completion") {
                crate::completion_cmd::USAGE.to_string()
            } else {
                out.append("No help topic for '");
                assert(out@ == "No help topic for '"@);
                out.append(t);
                out.append("'.\n\n");
                write_usage(&mut out, detail);
                out
            }
        },
    }
}

/// Which command runs.
#[derive(Debug, Clone, PartialEq, Eq)]
pub enum Command {
    Pipe,
    Serve,
    Collect,
    Fan,
    Doctor,
    Man,
    Completion,
    Help(Option<String>),
    Version,
    /// The dashboard, which takes all arguments as options.
    Dashboard,
}

/// Which command runs, as a value.
pub enum Chosen {
    Pipe,
    Serve,
    Collect,
    Fan,
    Doctor,
    Man,
    Completion,
    Help(Option<Seq<char>>),
    Version,
    Dashboard,
}

impl View for Command {
    type V = Chosen;

    open spec fn view(&self) -> Chosen {
        match *self {
            Command::Pipe => Chosen::Pipe,
            Command::Serve => Chosen::Serve,
            Command::Collect => Chosen::Collect,
            Command::Fan => Chosen::Fan,
            Command::Doctor => Chosen::Doctor,
            Command::Man => Chosen::Man,
            Command::Completion => Chosen::Completion,
            Command::Help(Some(t)) => Chosen::Help(Some(t@)),
            Command::Help(None) => Chosen::Help(None),
            Command::Version => Chosen::Version,
            Command::Dashboard => Chosen::Dashboard,
        }
    }
}

/// Which command the arguments name, by the first of them; `None` if it names none.
/// An option that is not known here is left to the dashboard.
pub open spec fn chosen(args: Seq<Seq<char>>) -> Option<Chosen> {
    if args.len() == 0 {
        Some(Chosen::Dashboard)
    } else if args[0] == "pipe"@ {
        Some(Chosen::Pipe)
    } else if args[0] == "serve"@ {
        Some(Chosen::Serve)
    } else if args[0] == "collect"@ {
        Some(Chosen::Collect)
    } else if args[0] == "fan"@ {
        Some(Chosen::Fan)
    } else if args[0] == "doctor"@ {
        Some(Chosen::Doctor)
    } else if args[0] == "man"@ {
        Some(Chosen::Man)
    } else if args[0] == "completion"@ {
        Some(Chosen::Completion)
    } else if args[0] == "help"@ {
        Some(Chosen::Help(if args.len() > 1 { Some(args[1]) } else { None }))
    } else if args[0] == "-h"@ || args[0] == "--help"@ {
        Some(Chosen::Help(None))
    } else if args[0] == "-V"@ || args[0] == "--version"@ {
        Some(Chosen::Version)
    } else if begins(args[0], "-"@) {
        Some(Chosen::Dashboard)
    } else {
        None
    }
}

/// Whether `message` says that no command is named so, and names the one to
/// suggest if there is one.
pub open spec fn is_complaint(message: Seq<char>, input: Seq<char>) -> bool {
    let head = "error: unknown command: "@ + input;
    ||| (exists|k: int|
        #[trigger] is_suggestion(input, k) && message == head + "\ndid you mean '"@ + commands()[k]
            + "'?\n"@)
    ||| (message == head + "\n"@ && forall|j: int|
        #![trigger commands()[j]]
        0 <= j < commands().len() ==> edit_distance(input, commands()[j]) > 2)
}

/// Which command runs.
pub fn dispatch(args: &Vec<String>) -> (r: Result<Command, CliError>)
    ensures
        match r {
            Ok(c) => chosen(texts(args@)) == Some(c@),
            Err(e) => {
                &&& chosen(texts(args@)) is None
                &&& is_complaint(e.message@, args@[0]@)
                &&& e.code == 2
                &&& e.usage
            },
        },
{
    if args.len() == 0 {
        return Ok(Command::Dashboard);
    }
    let arg: &String = &args[0];
    assert(texts(args@)[0] == arg@);
    if same(arg, "pipe") {
        Ok(Command::Pipe)
    } else if same(arg, "serve") {
        Ok(Command::Serve)
    } else if same(arg, "collect") {
        Ok(Command::Collect)
    } else if same(arg, "fan") {
        Ok(Command::Fan)
    } else if same(arg, "doctor") {
        Ok(Command::Doctor)
    } else if same(arg, "man") {
        Ok(Command::Man)
    } else if same(arg, "completion") {
        Ok(Command::Completion)
    } else if same(arg, "help") {
        if args.len() > 1 {
            assert(texts(args@)[1] == args@[1]@);
            Ok(Command::Help(Some(args[1].clone())))
        } else {
            Ok(Command::Help(None))
        }
    } else if same(arg, "-h") || same(arg, "--help") {
        Ok(Command::Help(None))
    } else if same(arg, "-V") || same(arg, "--version") {
        Ok(Command::Version)
    } else if has_prefix(arg, "-") {
        Ok(Command::Dashboard)
    } else {
        let mut message: String = "error: unknown command: ".to_string();
        message.append(arg);
        match suggest_command(arg) {
            Some(s) => {
                message.append("\ndid you mean '");
                message.append(s);
                message.append("'?\n");
                assert(is_complaint(message@, arg@));
            },
            None => {
                message.append("\n");
                assert(is_complaint(message@, arg@));
            },
        }
        Err(CliError { message, code: 2, usage: true })
    }
}

/// The options of the dashboard: only color can be switched off.
pub open spec fn dashboard_from(args: Seq<Seq<char>>, i: int, no_color: bool) -> Result<bool, Failure>
    decreases args.len() - i,
{
    if i >= args.len() {
        Ok(no_color)
    } else if args[i] == "--no-color"@ {
        dashboard_from(args, i + 1, true)
    } else {
        Err(
            (
                "error: unknown option for the dashboard: "@ + args[i]
                    + "\nrun 'power-monitor --help' for usage"@,
                2,
                false,
            ),
        )
    }
}

/// Whether the dashboard goes without color.
pub fn dashboard_options(args: &Vec<String>) -> (r: Result<bool, CliError>)
    ensures
        match (r, dashboard_from(texts(args@), 0, false)) {
            (Ok(a), Ok(b)) => a == b,
            (Err(e), Err(f)) => e@ == f,
            _ => false,
        },
{
    let mut no_color: bool = false;
    let mut i: usize = 0;
    let ghost all = texts(args@);
    while i < args.len()
        invariant
            all == texts(args@),
            i <= args.len(),
            dashboard_from(all, i as int, no_color) == dashboard_from(all, 0, false),
        decreases args.len() - i,
    {
        let arg: &String = &args[i];
        assert(all[i as int] == arg@);
        if same(arg, "--no-color") {
            no_color = true;
        } else {
            let mut message: String = "error: unknown option for the dashboard: ".to_string();
            message.append(arg);
            message.append("\nrun 'power-monitor --help' for usage");
            return Err(CliError { message, code: 2, usage: false });
        }
        i += 1;
    }
    Ok(no_color)
}

/// The words by which commands go differ from one another, and options begin with a
/// dash, which commands do not.
proof fn lemma_words_differ()
    ensures
        "pipe"@ != "serve"@,
        "pipe"@ != "collect"@,
        "pipe"@ != "fan"@,
        "pipe"@ != "doctor"@,
        "pipe"@ != "man"@,
        "pipe"@ != "completion"@,
        "pipe"@ != "help"@,
        "pipe"@ != "-h"@,
        "pipe"@ != "--help"@,
        "pipe"@ != "-V"@,
        "pipe"@ != "--version"@,
        "serve"@ != "collect"@,
        "serve"@ != "fan"@,
        "serve"@ != "doctor"@,
        "serve"@ != "man"@,
        "serve"@ != "completion"@,
        "serve"@ != "help"@,
        "serve"@ != "-h"@,
        "serve"@ != "--help"@,
        "serve"@ != "-V"@,
        "serve"@ != "--version"@,
        "collect"@ != "fan"@,
        "collect"@ != "doctor"@,
        "collect"@ != "man"@,
        "collect"@ != "completion"@,
        "collect"@ != "help"@,
        "collect"@ != "-h"@,
        "collect"@ != "--help"@,
        "collect"@ != "-V"@,
        "collect"@ != "--version"@,
        "fan"@ != "doctor"@,
        "fan"@ != "man"@,
        "fan"@ != "completion"@,
        "fan"@ != "help"@,
        "fan"@ != "-h"@,
        "fan"@ != "--help"@,
        "fan"@ != "-V"@,
        "fan"@ != "--version"@,
        "doctor"@ != "man"@,
        "doctor"@ != "completion"@,
        "doctor"@ != "help"@,
        "doctor"@ != "-h"@,
        "doctor"@ != "--help"@,
        "doctor"@ != "-V"@,
        "doctor"@ != "--version"@,
        "man"@ != "completion"@,
        "man"@ != "help"@,
        "man"@ != "-h"@,
        "man"@ != "--help"@,
        "man"@ != "-V"@,
        "man"@ != "--version"@,
        "completion"@ != "help"@,
        "completion"@ != "-h"@,
        "completion"@ != "--help"@,
        "completion"@ != "-V"@,
        "completion"@ != "--version"@,
        "help"@ != "-h"@,
        "help"@ != "--help"@,
        "help"@ != "-V"@,
        "help"@ != "--version"@,
        "-h"@ != "-V"@,
        "-h"@ != "--version"@,
        "--help"@ != "-V"@,
        "--help"@ != "--version"@,
        !begins("pipe"@, "-"@),
        !begins("serve"@, "-"@),
        !begins("collect"@, "-"@),
        !begins("fan"@, "-"@),
        !begins("doctor"@, "-"@),
        !begins("man"@, "-"@),
        !begins("completion"@, "-"@),
        !begins("help"@, "-"@),
        begins("-h"@, "-"@),
        begins("--help"@, "-"@),
        begins("-V"@, "-"@),
        begins("--version"@, "-"@),
{
    reveal_strlit("pipe");
    reveal_strlit("serve");
    reveal_strlit("collect");
    reveal_strlit("fan");
    reveal_strlit("doctor");
    reveal_strlit("man");
    reveal_strlit("completion");
    reveal_strlit("help");
    reveal_strlit("-h");
    reveal_strlit("--help");
    reveal_strlit("-V");
    reveal_strlit("--version");
    reveal_strlit("-");
    assert("pipe"@[0] != "help"@[0]);
    assert("fan"@[0] != "man"@[0]);
    assert("doctor"@[0] != "--help"@[0]);
    assert("-h"@[1] != "-V"@[1]);
    assert("pipe"@.len() != "serve"@.len());
    assert("pipe"@.len() != "collect"@.len());
    assert("pipe"@.len() != "fan"@.len());
    assert("pipe"@.len() != "doctor"@.len());
    assert("pipe"@.len() != "man"@.len());
    assert("pipe"@.len() != "completion"@.len());
    assert("pipe"@.len() != "-h"@.len());
    assert("pipe"@.len() != "--help"@.len());
    assert("pipe"@.len() != "-V"@.len());
    assert("pipe"@.len() != "--version"@.len());
    assert("serve"@.len() != "collect"@.len());
    assert("serve"@.len() != "fan"@.len());
    assert("serve"@.len() != "doctor"@.len());
    assert("serve"@.len() != "man"@.len());
    assert("serve"@.len() != "completion"@.len());
    assert("serve"@.len() != "help"@.len());
    assert("serve"@.len() != "-h"@.len());
    assert("serve"@.len() != "--help"@.len());
    assert("serve"@.len() != "-V"@.len());
    assert("serve"@.len() != "--version"@.len());
    assert("collect"@.len() != "fan"@.len());
    assert("collect"@.len() != "doctor"@.len());
    assert("collect"@.len() != "man"@.len());
    assert("collect"@.len() != "completion"@.len());
    assert("collect"@.len() != "help"@.len());
    assert("collect"@.len() != "-h"@.len());
    assert("collect"@.len() != "--help"@.len());
    assert("collect"@.len() != "-V"@.len());
    assert("collect"@.len() != "--version"@.len());
    assert("fan"@.len() != "doctor"@.len());
    assert("fan"@.len() != "completion"@.len());
    assert("fan"@.len() != "help"@.len());
    assert("fan"@.len() != "-h"@.len());
    assert("fan"@.len() != "--help"@.len());
    assert("fan"@.len() != "-V"@.len());
    assert("fan"@.len() != "--version"@.len());
    assert("doctor"@.len() != "man"@.len());
    assert("doctor"@.len() != "completion"@.len());
    assert("doctor"@.len() != "help"@.len());
    assert("doctor"@.len() != "-h"@.len());
    assert("doctor"@.len() != "-V"@.len());
    assert("doctor"@.len() != "--version"@.len());
    assert("man"@.len() != "completion"@.len());
    assert("man"@.len() != "help"@.len());
    assert("man"@.len() != "-h"@.len());
    assert("man"@.len() != "--help"@.len());
    assert("man"@.len() != "-V"@.len());
    assert("man"@.len() != "--version"@.len());
    assert("completion"@.len() != "help"@.len());
    assert("completion"@.len() != "-h"@.len());
    assert("completion"@.len() != "--help"@.len());
    assert("completion"@.len() != "-V"@.len());
    assert("completion"@.len() != "--version"@.len());
    assert("help"@.len() != "-h"@.len());
    assert("help"@.len() != "--help"@.len());
    assert("help"@.len() != "-V"@.len());
    assert("help"@.len() != "--version"@.len());
    assert("-h"@.len() != "--help"@.len());
    assert("-h"@.len() != "--version"@.len());
    assert("--help"@.len() != "-V"@.len());
    assert("--help"@.len() != "--version"@.len());
    assert("-V"@.len() != "--version"@.len());
    assert("pipe"@.subrange(0, 1)[0] == 'p');
    assert("serve"@.subrange(0, 1)[0] == 's');
    assert("collect"@.subrange(0, 1)[0] == 'c');
    assert("fan"@.subrange(0, 1)[0] == 'f');
    assert("doctor"@.subrange(0, 1)[0] == 'd');
    assert("man"@.subrange(0, 1)[0] == 'm');
    assert("completion"@.subrange(0, 1)[0] == 'c');
    assert("help"@.subrange(0, 1)[0] == 'h');
    assert("-h"@.subrange(0, 1)[0] == '-');
    assert("-h"@.subrange(0, 1) =~= "-"@);
    assert("--help"@.subrange(0, 1)[0] == '-');
    assert("--help"@.subrange(0, 1) =~= "-"@);
    assert("-V"@.subrange(0, 1)[0] == '-');
    assert("-V"@.subrange(0, 1) =~= "-"@);
    assert("--version"@.subrange(0, 1)[0] == '-');
    assert("--version"@.subrange(0, 1) =~= "-"@);
}

/// A command runs if it is named first, and not else; help and the version are shown if
/// they are asked for first, by name or option; the dashboard runs without arguments and
/// with any other option.
pub proof fn commands_go_by_name(args: Seq<Seq<char>>)
    ensures
        chosen(args) == Some(Chosen::Pipe) <==> args.len() > 0 && args[0] == "pipe"@,
        chosen(args) == Some(Chosen::Serve) <==> args.len() > 0 && args[0] == "serve"@,
        chosen(args) == Some(Chosen::Collect) <==> args.len() > 0 && args[0] == "collect"@,
        chosen(args) == Some(Chosen::Fan) <==> args.len() > 0 && args[0] == "fan"@,
        chosen(args) == Some(Chosen::Doctor) <==> args.len() > 0 && args[0] == "doctor"@,
        chosen(args) == Some(Chosen::Man) <==> args.len() > 0 && args[0] == "man"@,
        chosen(args) == Some(Chosen::Completion) <==> args.len() > 0 && args[0] == "completion"@,
        chosen(args) == Some(Chosen::Version) <==> args.len() > 0 && (args[0] == "-V"@ || args[0]
            == "--version"@),
        args.len() > 0 && (args[0] == "-h"@ || args[0] == "--help"@ || (args.len() == 1 && args[0]
            == "help"@)) ==> chosen(args) == Some(Chosen::Help(None)),
        args.len() > 1 && args[0] == "help"@ ==> chosen(args) == Some(Chosen::Help(Some(args[1]))),
        chosen(args) == Some(Chosen::Dashboard) <==> args.len() == 0 || (args[0].len() > 0 && args[0][0]
            == '-' && args[0] != "-h"@ && args[0] != "--help"@ && args[0] != "-V"@ && args[0]
            != "--version"@),
{
    lemma_words_differ();
    reveal_strlit("-");
    if args.len() > 0 {
        let w = args[0];
        if w.len() > 0 {
            assert(w.subrange(0, 1)[0] == w[0]);
            assert(w[0] == '-' ==> w.subrange(0, 1) =~= "-"@);
        }
    }
}

/// The help on a command is the usage text of that command; without a topic it is that of
/// the program, which also follows where the topic is none.
pub proof fn help_goes_by_name(t: Seq<char>, detail: Seq<char>)
    ensures
        help_text(Some("pipe"@), detail) == crate::pipe_cmd::USAGE@,
        help_text(Some("serve"@), detail) == crate::serve_cmd::USAGE@,
        help_text(Some("collect"@), detail) == crate::collect_cmd::USAGE@,
        help_text(Some("fan"@), detail) == crate::fan_cmd::USAGE@,
        help_text(Some("doctor"@), detail) == crate::doctor_cmd::USAGE@,
        help_text(Some("man"@), detail) == crate::man_cmd::USAGE@,
        help_text(Some("completion"@), detail) == crate::completion_cmd::USAGE@,
        help_text(None, detail) == usage_text(detail),
        t != "pipe"@ && t != "serve"@ && t != "collect"@ && t != "fan"@ && t != "doctor"@ && t != "man"@ && t != "completion"@ ==> help_text(Some(t), detail) == "No help topic for '"@ + t + "'.\n\n"@ + help_text(
            None,
            detail,
        ),
{
    lemma_words_differ();
}

/// The dashboard knows one option, which may be given any number of times: color is off
/// once it is given.
pub proof fn dashboards_know_one_option(args: Seq<Seq<char>>, i: int, off: bool)
    requires
        0 <= i <= args.len(),
    ensures
        dashboard_from(args, i, off) is Ok <==> forall|k: int|
            i <= k < args.len() ==> #[trigger] args[k] == "--no-color"@,
        dashboard_from(args, i, off) matches Ok(no_color) ==> no_color == (off || i < args.len()),
        dashboard_from(args, i, off) matches Err(e) ==> e.1 == 2,
    decreases args.len() - i,
{
    if i < args.len() {
        if args[i] == "--no-color"@ {
            dashboards_know_one_option(args, i + 1, true);
        }
    }
}

} // verus!
