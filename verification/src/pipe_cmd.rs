//! The command `pipe`: one JSON line per sample window.
use vstd::prelude::*;

use crate::args::{parse_value, unknown_arg, CliError};
use crate::args::{uint_arg, unknown, Failure};
use crate::json::object_text;
use crate::sampler::Metrics;
use crate::serialize::{write_metrics_json, AgentInfo};
use crate::serialize::metrics_fields;
use crate::text::same;
use crate::text::{dec, dec_parses_back, texts};

verus! {

/// Usage text.
pub const USAGE: &'static str = "\
Usage: power-monitor pipe [-s <samples>] [-i <interval_ms>]\n\
\n\
Stream one JSON object per sample window to stdout (NDJSON).\n\
\n\
Options:\n\
\x20 -s, --samples N   Stop after N samples (default 0 = infinite)\n\
\x20 -i, --interval N  Sampling window in ms (default 1000)\n\
\x20 -h, --help        Show this help\n\
\n\
Examples:\n\
\x20 power-monitor pipe | jq\n\
\x20 power-monitor pipe -s 10 -i 500 > metrics.ndjson\n";

/// Appends the usage text.
pub fn write_usage(out: &mut String)
    ensures
        final(out)@ == old(out)@ + USAGE@,
{
    out.append(USAGE);
}

/// Options of `pipe`.
#[derive(Debug, Clone, Copy, PartialEq, Eq, Structural)]
pub struct PipeArgs {
    /// Samples after which to stop; zero for none.
    pub samples: u64,
    pub interval_ms: u64,
}

/// What `pipe` is asked to do.
#[derive(Debug, Clone, Copy, PartialEq, Eq, Structural)]
pub enum PipeAction {
    Help,
    Stream(PipeArgs),
}

/// What the arguments from index `i` on ask for, with the options so far.
pub open spec fn parsed_from(args: Seq<Seq<char>>, i: int, o: PipeArgs) -> Result<PipeAction, Failure>
    decreases args.len() - i,
{
    if i >= args.len() {
        Ok(PipeAction::Stream(o))
    } else if args[i] == "-s"@ || args[i] == "--samples"@ {
        match uint_arg(args, i, "--samples"@, "samples"@, u64::MAX as nat) {
            Ok(n) => parsed_from(args, i + 2, PipeArgs { samples: n as u64, ..o }),
            Err(e) => Err(e),
        }
    } else if args[i] == "-i"@ || args[i] == "--interval"@ {
        match uint_arg(args, i, "--interval"@, "interval"@, u64::MAX as nat) {
            Ok(n) => parsed_from(args, i + 2, PipeArgs { interval_ms: n as u64, ..o }),
            Err(e) => Err(e),
        }
    } else if args[i] == "-h"@ || args[i] == "--help"@ {
        Ok(PipeAction::Help)
    } else {
        Err(unknown(args[i]))
    }
}

/// What `pipe` does when nothing else is asked.
pub open spec fn defaults() -> PipeArgs {
    PipeArgs { samples: 0, interval_ms: 1000 }
}

/// What the arguments ask for.
pub fn run(args: &Vec<String>) -> (r: Result<PipeAction, CliError>)
    ensures
        match (r, parsed_from(texts(args@), 0, defaults())) {
            (Ok(a), Ok(b)) => a == b,
            (Err(e), Err(f)) => e@ == f,
            _ => false,
        },
{
    let mut o = PipeArgs { samples: 0, interval_ms: 1000 };
    let mut i: usize = 0;
    let ghost all = texts(args@);
    while i < args.len()
        invariant
            all == texts(args@),
            i <= args.len(),
            parsed_from(all, i as int, o) == parsed_from(all, 0, defaults()),
        decreases args.len() - i,
    {
        let arg: &String = &args[i];
        assert(all[i as int] == arg@);
        if same(arg, "-s") || same(arg, "--samples") {
            match parse_value(args, &mut i, "--samples", "samples", 0xffff_ffff_ffff_ffff) {
                Ok(n) => {
                    o.samples = n;
                },
                Err(e) => {
                    return Err(e);
                },
            }
        } else if same(arg, "-i") || same(arg, "--interval") {
            match parse_value(args, &mut i, "--interval", "interval", 0xffff_ffff_ffff_ffff) {
                Ok(n) => {
                    o.interval_ms = n;
                },
                Err(e) => {
                    return Err(e);
                },
            }
        } else if same(arg, "-h") || same(arg, "--help") {
            return Ok(PipeAction::Help);
        } else {
            return Err(unknown_arg(arg));
        }
        i = i + 1;
    }
    Ok(PipeAction::Stream(o))
}

/// Whether another sample follows after `count`.
pub fn wants_more(samples: u64, count: u64) -> (r: bool)
    ensures
        r == !(samples > 0 && count >= samples),
{
    !(samples > 0 && count >= samples)
}

/// Appends the line of one sample.
pub fn write_frame(out: &mut String, m: &Metrics<String>, info: &AgentInfo)
    ensures
        exists|secs: u64|
            final(out)@ == old(out)@ + object_text(#[trigger] metrics_fields(*m, *info, secs)) + "\n"@,
{
    write_metrics_json(out, m, info);
    out.append("\n");
}

/// Each option sets one thing and leaves the rest to the arguments behind it; an option
/// and its short form ask for the same. One that lacks its value is refused, and so is
/// what is no option.
pub proof fn options_set_their_part(args: Seq<Seq<char>>, i: int, o: PipeArgs, n: u64)
    requires
        0 <= i < args.len(),
    ensures
        i + 1 < args.len() && (args[i] == "-s"@ || args[i] == "--samples"@) && args[i + 1] == dec(
            n as nat,
        ) ==> parsed_from(args, i, o) == parsed_from(args, i + 2, (PipeArgs { samples: n, ..o })),
        i + 1 < args.len() && (args[i] == "-i"@ || args[i] == "--interval"@) && args[i + 1] == dec(
            n as nat,
        ) ==> parsed_from(args, i, o) == parsed_from(args, i + 2, (PipeArgs { interval_ms: n, ..o })),
        args[i] == "-h"@ || args[i] == "--help"@ ==> parsed_from(args, i, o) == Ok::<
            PipeAction,
            Failure,
        >(PipeAction::Help),
        i + 1 == args.len() && (args[i] == "-s"@ || args[i] == "--samples"@ || args[i] == "-i"@
            || args[i] == "--interval"@) ==> parsed_from(args, i, o) is Err,
        args[i] != "-s"@ && args[i] != "--samples"@ && args[i] != "-i"@ && args[i] != "--interval"@
            && args[i] != "-h"@ && args[i] != "--help"@ ==> parsed_from(args, i, o) == Err::<
            PipeAction,
            Failure,
        >(("error: unknown argument: "@ + args[i], 2, false)),
{
    reveal_strlit("-s");
    reveal_strlit("--samples");
    reveal_strlit("-i");
    reveal_strlit("--interval");
    reveal_strlit("-h");
    reveal_strlit("--help");
    assert("-s"@[1] != "-i"@[1]);
    assert("-s"@[1] != "-h"@[1]);
    assert("-i"@[1] != "-h"@[1]);
    assert("-s"@.len() != "--samples"@.len());
    assert("-s"@.len() != "--interval"@.len());
    assert("-s"@.len() != "--help"@.len());
    assert("--samples"@.len() != "-i"@.len());
    assert("--samples"@.len() != "--interval"@.len());
    assert("--samples"@.len() != "-h"@.len());
    assert("--samples"@.len() != "--help"@.len());
    assert("-i"@.len() != "--interval"@.len());
    assert("-i"@.len() != "--help"@.len());
    assert("--interval"@.len() != "-h"@.len());
    assert("--interval"@.len() != "--help"@.len());
    assert("-h"@.len() != "--help"@.len());
    dec_parses_back(n as nat, u64::MAX as nat);
}

/// Without arguments samples follow one another once a second, without end.
pub proof fn samples_follow_without_end_by_default()
    ensures
        parsed_from(Seq::empty(), 0, defaults()) matches Ok(PipeAction::Stream(o)) && o.samples == 0
            && o.interval_ms == 1000,
{
}

} // verus!
