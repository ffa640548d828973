//! The command `doctor`: health checks on the monitoring subsystems.
use vstd::prelude::*;

use crate::args::CliError;
use crate::args::Failure;
use crate::text::{push_dec, push_padded_right, same};
use crate::text::{concat_assoc, dec, pad_right, texts};

verus! {

/// Usage text.
pub const USAGE: &'static str = "\
Usage: power-monitor doctor [--no-color]\n\
\n\
Run health checks on the power-monitoring subsystems and print a\n\
checklist. Exits 0 if every critical check passes, 1 otherwise.\n";

/// Appends the usage text.
pub fn write_usage(out: &mut String)
    ensures
        final(out)@ == old(out)@ + USAGE@,
{
    out.append(USAGE);
}

/// What `doctor` is asked to do.
#[derive(Debug, Clone, Copy, PartialEq, Eq, Structural)]
pub enum DoctorAction {
    Help,
    /// Run the checks, with colors or without.
    Check { no_color: bool },
}

/// What the arguments from index `i` on ask for.
pub open spec fn parsed_from(args: Seq<Seq<char>>, i: int, no_color: bool) -> Result<
    DoctorAction,
    Failure,
>
    decreases args.len() - i,
{
    if i >= args.len() {
        Ok(DoctorAction::Check { no_color })
    } else if args[i] == "-h"@ || args[i] == "--help"@ {
        Ok(DoctorAction::Help)
    } else if args[i] == "--no-color"@ {
        parsed_from(args, i + 1, true)
    } else {
        Err(("error: unknown argument for doctor: "@ + args[i], 2, true))
    }
}

/// What the arguments ask for.
pub fn run(args: &Vec<String>) -> (r: Result<DoctorAction, CliError>)
    ensures
        match (r, parsed_from(texts(args@), 0, false)) {
            (Ok(a), Ok(b)) => a == b,
            (Err(e), Err(f)) => e@ == f,
            _ => false,
        },
{
    let mut no_color: bool = false;
    let mut i: usize = 0;
    let ghost all = texts(args@);
    while i < args.len()
        invariant
            all == texts(args@),
            i <= args.len(),
            parsed_from(all, i as int, no_color) == parsed_from(all, 0, false),
        decreases args.len() - i,
    {
        let arg: &String = &args[i];
        assert(all[i as int] == arg@);
        if same(arg, "-h") || same(arg, "--help") {
            return Ok(DoctorAction::Help);
        } else if same(arg, "--no-color") {
            no_color = true;
        } else {
            let mut message: String = "error: unknown argument for doctor: ".to_string();
            message.append(arg);
            return Err(CliError { message, code: 2, usage: true });
        }
        i += 1;
    }
    Ok(DoctorAction::Check { no_color })
}

/// Colors of the checklist; empty without color.
#[derive(Debug, Clone, Copy)]
pub struct Paint {
    pub ok: &'static str,
    pub bad: &'static str,
    pub dim: &'static str,
    pub reset: &'static str,
}

/// The colors of the checklist.
pub fn paint(color: bool) -> (r: Paint)
    ensures
        color ==> r.ok@ == "\x1b[32m"@ && r.bad@ == "\x1b[31m"@ && r.dim@ == "\x1b[2m"@ && r.reset@
            == "\x1b[0m"@,
        !color ==> r.ok@.len() == 0 && r.bad@.len() == 0 && r.dim@.len() == 0 && r.reset@.len() == 0,
{
    if color {
        Paint { ok: "\x1b[32m", bad: "\x1b[31m", dim: "\x1b[2m", reset: "\x1b[0m" }
    } else {
        proof {
            reveal_strlit("");
        }
        Paint { ok: "", bad: "", dim: "", reset: "" }
    }
}

/// A line of the checklist.
pub open spec fn check_line(p: Paint, ok: bool, name: Seq<char>, detail: Seq<char>) -> Seq<char> {
    "  "@ + (if ok {
        p.ok@ + "✓"@
    } else {
        p.bad@ + "✗"@
    }) + p.reset@ + " "@ + pad_right(name, 18) + " "@ + p.dim@ + detail + p.reset@ + "\n"@
}

/// Appends a line of the checklist.
pub fn check(out: &mut String, p: &Paint, ok: bool, name: &str, detail: &str)
    ensures
        final(out)@ == old(out)@ + check_line(*p, ok, name@, detail@),
{
    broadcast use concat_assoc;

    out.append("  ");
    if ok {
        out.append(p.ok);
        out.append("✓");
    } else {
        out.append(p.bad);
        out.append("✗");
    }
    out.append(p.reset);
    out.append(" ");
    push_padded_right(out, name, 18);
    out.append(" ");
    out.append(p.dim);
    out.append(detail);
    out.append(p.reset);
    out.append("\n");
}

/// What opening the sensors gave, in words; temperatures are in words already.
pub fn sensors_detail(fans: u32, cpu_temp: &str, gpu_temp: &str) -> (r: String)
    ensures
        r@ == "opened; "@ + dec(fans as nat) + " fan(s), CPU "@ + cpu_temp@ + "°C / GPU "@ + gpu_temp@
            + "°C"@,
{
    let mut out: String = "opened; ".to_string();
    push_dec(&mut out, fans as u64);
    out.append(" fan(s), CPU ");
    out.append(cpu_temp);
    out.append("°C / GPU ");
    out.append(gpu_temp);
    out.append("°C");
    out
}

/// What a quick sample gave, in words; the power is in words already.
pub fn sampler_detail(chip: &str, pcpu: u32, ecpu: u32, gpu: u32, sys_power: &str) -> (r: String)
    ensures
        r@ == chip@ + " · "@ + dec(pcpu as nat) + "P+"@ + dec(ecpu as nat) + "E · "@ + dec(gpu as nat)
            + " GPU · sys "@ + sys_power@ + " W"@,
{
    let mut out: String = chip.to_string();
    out.append(" · ");
    push_dec(&mut out, pcpu as u64);
    out.append("P+");
    push_dec(&mut out, ecpu as u64);
    out.append("E · ");
    push_dec(&mut out, gpu as u64);
    out.append(" GPU · sys ");
    out.append(sys_power);
    out.append(" W");
    out
}

/// The detail of a check and whether it passed.
pub open spec fn outcome(r: Result<String, String>) -> (bool, Seq<char>) {
    match r {
        Ok(detail) => (true, detail@),
        Err(why) => (false, why@),
    }
}

/// The report: the checks of architecture, sensors and sampler, and the verdict.
pub open spec fn report_text(
    p: Paint,
    arm: bool,
    sensors: Result<String, String>,
    sampler: Result<String, String>,
) -> Seq<char> {
    "power-monitor doctor\n\n"@ + check_line(
        p,
        arm,
        "CPU architecture"@,
        if arm {
            "Apple Silicon (aarch64)"@
        } else {
            "not aarch64 — most sensors will be absent"@
        },
    ) + check_line(p, outcome(sensors).0, "AppleSMC"@, outcome(sensors).1) + check_line(
        p,
        outcome(sampler).0,
        "IOReport sampler"@,
        outcome(sampler).1,
    ) + "\n"@ + (if arm && sensors is Ok && sampler is Ok {
        p.ok@ + "✓ all checks passed"@
    } else {
        p.bad@ + "✗ some checks failed"@
    }) + p.reset@ + "\n"@
}

/// The report, and whether every check passed.
pub fn report(p: &Paint, arm: bool, sensors: &Result<String, String>, sampler: &Result<String, String>) -> (r: (
    String,
    bool,
))
    ensures
        r.0@ == report_text(*p, arm, *sensors, *sampler),
        r.1 == (arm && sensors is Ok && sampler is Ok),
{
    let mut out: String = "power-monitor doctor\n\n".to_string();
    check(
        &mut out,
        p,
        arm,
        "CPU architecture",
        if arm {
            "Apple Silicon (aarch64)"
        } else {
            "not aarch64 — most sensors will be absent"
        },
    );
    let mut passed: bool = arm;
    match sensors {
        Ok(detail) => check(&mut out, p, true, "AppleSMC", detail),
        Err(why) => {
            check(&mut out, p, false, "AppleSMC", why);
            passed = false;
        },
    }
    match sampler {
        Ok(detail) => check(&mut out, p, true, "IOReport sampler", detail),
        Err(why) => {
            check(&mut out, p, false, "IOReport sampler", why);
            passed = false;
        },
    }
    out.append("\n");
    let ghost body = out@;
    if passed {
        out.append(p.ok);
        out.append("✓ all checks passed");
    } else {
        out.append(p.bad);
        out.append("✗ some checks failed");
    }
    proof {
        broadcast use concat_assoc;

    }
    out.append(p.reset);
    out.append("\n");
    (out, passed)
}

/// The checks run with colors unless an option switches them off, which may be given any
/// number of times; help comes first where it is asked for, and any other word is
/// refused.
pub proof fn checks_know_one_option(args: Seq<Seq<char>>, i: int, off: bool)
    requires
        0 <= i <= args.len(),
    ensures
        parsed_from(args, i, off) matches Ok(DoctorAction::Check { no_color }) ==> no_color == (off || i
            < args.len()) && forall|k: int|
            i <= k < args.len() ==> #[trigger] args[k] == "--no-color"@,
        (forall|k: int| i <= k < args.len() ==> #[trigger] args[k] == "--no-color"@) ==> parsed_from(
            args,
            i,
            off,
        ) == Ok::<DoctorAction, Failure>(DoctorAction::Check { no_color: off || i < args.len() }),
        i < args.len() && (args[i] == "-h"@ || args[i] == "--help"@) ==> parsed_from(args, i, off)
            == Ok::<DoctorAction, Failure>(DoctorAction::Help),
        i < args.len() && args[i] != "-h"@ && args[i] != "--help"@ && args[i] != "--no-color"@
            ==> parsed_from(args, i, off) == Err::<DoctorAction, Failure>(
            ("error: unknown argument for doctor: "@ + args[i], 2, true),
        ),
    decreases args.len() - i,
{
    reveal_strlit("-h");
    reveal_strlit("--help");
    reveal_strlit("--no-color");
    assert("-h"@.len() != "--help"@.len());
    assert("-h"@.len() != "--no-color"@.len());
    assert("--help"@.len() != "--no-color"@.len());
    if i < args.len() && args[i] == "--no-color"@ {
        checks_know_one_option(args, i + 1, true);
    }
}

/// The verdict is good only where every check passed; and each check is marked by how it
/// went, with its detail behind its name.
pub proof fn verdicts_need_every_check(
    p: Paint,
    arm: bool,
    sensors: Result<String, String>,
    sampler: Result<String, String>,
)
    ensures
        ({
            let cpu = check_line(
                p,
                arm,
                "CPU architecture"@,
                if arm {
                    "Apple Silicon (aarch64)"@
                } else {
                    "not aarch64 — most sensors will be absent"@
                },
            );
            let smc = match sensors {
                Ok(t) => check_line(p, true, "AppleSMC"@, t@),
                Err(t) => check_line(p, false, "AppleSMC"@, t@),
            };
            let io = match sampler {
                Ok(t) => check_line(p, true, "IOReport sampler"@, t@),
                Err(t) => check_line(p, false, "IOReport sampler"@, t@),
            };
            let good = p.ok@ + "✓ all checks passed"@;
            let bad = p.bad@ + "✗ some checks failed"@;
            let head = "power-monitor doctor\n\n"@ + cpu + smc + io + "\n"@;
            &&& arm && sensors is Ok && sampler is Ok ==> report_text(p, arm, sensors, sampler) == head
                + good + p.reset@ + "\n"@
            &&& !arm || sensors is Err || sampler is Err ==> report_text(p, arm, sensors, sampler)
                == head + bad + p.reset@ + "\n"@
        }),
{
}

} // verus!
