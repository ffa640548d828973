//! The command `fan`: holds the fans at maximum speed, or hands them back.
use vstd::prelude::*;

use crate::args::CliError;
use crate::args::Failure;
use crate::text::same;
use crate::text::texts;

verus! {

/// Usage text.
pub const USAGE: &'static str = "\
Usage: power-monitor fan <max|auto>\n\
\n\
Control fan speed. Requires root — run with sudo.\n\
\n\
Subcommands:\n\
\x20 max    Force all fans to maximum RPM (hold until SIGINT/SIGTERM)\n\
\x20 auto   Restore automatic fan control\n\
\n\
Examples:\n\
\x20 sudo power-monitor fan max\n\
\x20 sudo power-monitor fan auto\n";

/// Appends the usage text.
pub fn write_usage(out: &mut String)
    ensures
        final(out)@ == old(out)@ + USAGE@,
{
    out.append(USAGE);
}

/// What `fan` is asked to do.
#[derive(Debug, Clone, Copy, PartialEq, Eq, Structural)]
pub enum FanAction {
    Max,
    Auto,
    Help,
}

/// What the arguments ask for.
pub open spec fn parsed(args: Seq<Seq<char>>) -> Result<FanAction, Failure> {
    if args.len() == 0 {
        Err(("error: fan requires a subcommand"@, 2, true))
    } else if args[0] == "max"@ || args[0] == "auto"@ {
        if args.len() > 1 {
            Err(("error: fan "@ + args[0] + " takes no arguments"@, 2, true))
        } else if args[0] == "max"@ {
            Ok(FanAction::Max)
        } else {
            Ok(FanAction::Auto)
        }
    } else if args[0] == "-h"@ || args[0] == "--help"@ {
        Ok(FanAction::Help)
    } else {
        Err(("error: unknown fan command: "@ + args[0], 2, true))
    }
}

/// What the arguments ask for.
pub fn run(args: &Vec<String>) -> (r: Result<FanAction, CliError>)
    ensures
        match (r, parsed(texts(args@))) {
            (Ok(a), Ok(b)) => a == b,
            (Err(e), Err(f)) => e@ == f,
            _ => false,
        },
{
    if args.len() == 0 {
        return Err(
            CliError {
                message: "error: fan requires a subcommand".to_string(),
                code: 2,
                usage: true,
            },
        );
    }
    let arg: &String = &args[0];
    assert(texts(args@)[0] == arg@);
    let max: bool = same(arg, "max");
    if max || same(arg, "auto") {
        if args.len() > 1 {
            let mut message: String = "error: fan ".to_string();
            message.append(arg);
            message.append(" takes no arguments");
            Err(CliError { message, code: 2, usage: true })
        } else if max {
            Ok(FanAction::Max)
        } else {
            Ok(FanAction::Auto)
        }
    } else if same(arg, "-h") || same(arg, "--help") {
        Ok(FanAction::Help)
    } else {
        let mut message: String = "error: unknown fan command: ".to_string();
        message.append(arg);
        Err(CliError { message, code: 2, usage: true })
    }
}

// ── Holding the fans ─────────────────────────────────────────────────────────

/// What is to be done next.
#[derive(Debug, Clone, Copy, PartialEq, Eq, Structural)]
pub enum FanStep {
    /// Open the sensors.
    Open,
    /// Count the fans.
    Count,
    /// Force all fans to their maximum.
    Force,
    /// Wait for a signal.
    Hold,
    /// Hand the fans back to automatic control.
    Restore,
    /// Exit with this status.
    Exit(u8),
}

/// How a step went.
#[derive(Debug, Clone, Copy, PartialEq, Eq, Structural)]
pub enum FanEvent {
    Done,
    Failed,
    /// This many fans were counted.
    Fans(u32),
}

impl FanStep {
    /// What follows a step; `hold` tells whether the fans are to be held at their
    /// maximum or only to be handed back.
    pub open spec fn after(self, event: FanEvent, hold: bool) -> FanStep {
        match (self, event) {
            (FanStep::Open, FanEvent::Failed) => FanStep::Exit(1),
            (FanStep::Open, _) => FanStep::Count,
            (FanStep::Count, FanEvent::Fans(n)) => if n == 0 {
                FanStep::Exit(0)
            } else if hold {
                FanStep::Force
            } else {
                FanStep::Restore
            },
            (FanStep::Count, _) => FanStep::Exit(0),
            (FanStep::Force, FanEvent::Failed) => FanStep::Exit(1),
            (FanStep::Force, _) => FanStep::Hold,
            (FanStep::Hold, _) => FanStep::Restore,
            (FanStep::Restore, FanEvent::Failed) => FanStep::Exit(1),
            (FanStep::Restore, _) => FanStep::Exit(0),
            (FanStep::Exit(code), _) => FanStep::Exit(code),
        }
    }

    /// What follows a step.
    pub fn next(self, event: FanEvent, hold: bool) -> (r: FanStep)
        ensures
            r == self.after(event, hold),
    {
        match (self, event) {
            (FanStep::Open, FanEvent::Failed) => FanStep::Exit(1),
            (FanStep::Open, _) => FanStep::Count,
            (FanStep::Count, FanEvent::Fans(n)) => if n == 0 {
                FanStep::Exit(0)
            } else if hold {
                FanStep::Force
            } else {
                FanStep::Restore
            },
            (FanStep::Count, _) => FanStep::Exit(0),
            (FanStep::Force, FanEvent::Failed) => FanStep::Exit(1),
            (FanStep::Force, _) => FanStep::Hold,
            (FanStep::Hold, _) => FanStep::Restore,
            (FanStep::Restore, FanEvent::Failed) => FanStep::Exit(1),
            (FanStep::Restore, _) => FanStep::Exit(0),
            (FanStep::Exit(code), _) => FanStep::Exit(code),
        }
    }

    /// The steps of a run in which step number `k` goes as `events[k]` says.
    pub open spec fn trace(events: Seq<FanEvent>, hold: bool, n: int) -> FanStep
        decreases n,
    {
        if n <= 0 {
            FanStep::Open
        } else {
            FanStep::trace(events, hold, n - 1).after(events[n - 1], hold)
        }
    }
}

/// Once the fans were forced, a run does not end before it has tried to hand them
/// back; and it ends well only if that succeeded.
pub proof fn forced_fans_are_handed_back(events: Seq<FanEvent>, hold: bool, k: int, n: int)
    requires
        0 <= k < n,
        FanStep::trace(events, hold, k) == FanStep::Force,
        events[k] != FanEvent::Failed,
        FanStep::trace(events, hold, n) is Exit,
    ensures
        exists|m: int|
            k < m < n && #[trigger] FanStep::trace(events, hold, m) == FanStep::Restore && (
            FanStep::trace(events, hold, n) == (if events[m] == FanEvent::Failed {
                FanStep::Exit(1)
            } else {
                FanStep::Exit(0)
            })),
{
    assert(FanStep::trace(events, hold, k + 1) == FanStep::Hold);
    assert(FanStep::trace(events, hold, k + 2) == FanStep::Restore);
    lemma_exit_stays(events, hold, k + 3, n);
}

proof fn lemma_exit_stays(events: Seq<FanEvent>, hold: bool, m: int, n: int)
    requires
        m >= 1,
        FanStep::trace(events, hold, m) is Exit,
    ensures
        m <= n ==> FanStep::trace(events, hold, n) == FanStep::trace(events, hold, m),
    decreases n - m,
{
    if m < n {
        lemma_exit_stays(events, hold, m, n - 1);
    }
}

/// Each action goes by its one word; an action with a word too many is refused, and so is
/// what is no action.
pub proof fn actions_go_by_name(args: Seq<Seq<char>>)
    ensures
        parsed(args) == Ok::<FanAction, Failure>(FanAction::Max) <==> args == seq!["max"@],
        parsed(args) == Ok::<FanAction, Failure>(FanAction::Auto) <==> args == seq!["auto"@],
        parsed(args) == Ok::<FanAction, Failure>(FanAction::Help) <==> args.len() > 0 && (args[0]
            == "-h"@ || args[0] == "--help"@),
        parsed(args) matches Err(e) ==> e.1 == 2 && e.2,
{
    reveal_strlit("max");
    reveal_strlit("auto");
    reveal_strlit("-h");
    reveal_strlit("--help");
    assert("max"@.len() != "auto"@.len());
    assert("max"@.len() != "-h"@.len());
    assert("max"@.len() != "--help"@.len());
    assert("auto"@.len() != "-h"@.len());
    assert("auto"@.len() != "--help"@.len());
    assert("-h"@.len() != "--help"@.len());
    assert(args.len() == 1 && args[0] == "max"@ ==> args =~= seq!["max"@]);
    assert(args.len() == 1 && args[0] == "auto"@ ==> args =~= seq!["auto"@]);
}

/// Fans that are not to be held are never forced.
pub proof fn fans_are_forced_only_to_be_held(events: Seq<FanEvent>, n: int)
    ensures
        FanStep::trace(events, false, n) != FanStep::Force,
        FanStep::trace(events, false, n) != FanStep::Hold,
    decreases n,
{
    if n > 0 {
        fans_are_forced_only_to_be_held(events, n - 1);
    }
}

/// How a run goes: it opens the sensors and counts the fans. Without fans it is over and
/// well; with fans it forces and holds them if it is to, and hands them back. A step that
/// fails, but for counting and waiting, ends it with status 1.
pub proof fn runs_go_step_by_step(events: Seq<FanEvent>, hold: bool, fans: u32)
    requires
        events[0] == FanEvent::Done,
        events[1] == FanEvent::Fans(fans),
        events[2] == FanEvent::Done,
        events[3] == FanEvent::Done,
        events[4] == FanEvent::Done,
    ensures
        FanStep::trace(events, hold, 0) == FanStep::Open,
        FanStep::trace(events, hold, 1) == FanStep::Count,
        fans == 0 ==> FanStep::trace(events, hold, 2) == FanStep::Exit(0),
        fans > 0 && hold ==> FanStep::trace(events, hold, 2) == FanStep::Force && FanStep::trace(
            events,
            hold,
            3,
        ) == FanStep::Hold && FanStep::trace(events, hold, 4) == FanStep::Restore && FanStep::trace(
            events,
            hold,
            5,
        ) == FanStep::Exit(0),
        fans > 0 && !hold ==> FanStep::trace(events, hold, 2) == FanStep::Restore && FanStep::trace(
            events,
            hold,
            3,
        ) == FanStep::Exit(0),
        FanStep::Open.after(FanEvent::Failed, hold) == FanStep::Exit(1),
        FanStep::Force.after(FanEvent::Failed, hold) == FanStep::Exit(1),
        FanStep::Restore.after(FanEvent::Failed, hold) == FanStep::Exit(1),
{
    reveal_with_fuel(FanStep::trace, 6);
}

} // verus!
