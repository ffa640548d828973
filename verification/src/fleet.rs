//! What a collector keeps of each agent, and the fleet snapshot it shows.
use vstd::prelude::*;

use std::collections::VecDeque;

use crate::calendar::{utc_text, write_utc};
use crate::json::ObjectWriter;
use crate::json::{bare_field, escaped, object_text, string_field, Field};
use crate::sample::ParsedSample;
use crate::serialize::now_secs;
use crate::text::{chars_of, find_char, push_repeated, text_of, trim};
use crate::text::{concat_assoc, dec, find, repeated, trimmed};

verus! {

/// Width of a sparkline in characters.
pub const SPARK_WIDTH: usize = 24;

/// Number of samples kept of each quantity: as many as one sparkline shows.
pub const HISTORY_LEN: usize = 24;

// ── History ──────────────────────────────────────────────────────────────────

/// `v` with `val` at the end; the oldest goes where the history is full.
pub open spec fn pushed<F>(v: Seq<F>, val: F) -> Seq<F> {
    if v.len() >= HISTORY_LEN {
        v.skip(1).push(val)
    } else {
        v.push(val)
    }
}

/// Appends a value to a bounded history.
pub fn push_bounded<F>(v: &mut VecDeque<F>, val: F)
    ensures
        final(v)@ == pushed(old(v)@, val),
{
    let ghost before = v@;
    if v.len() >= HISTORY_LEN {
        let _ = v.pop_front();
        assert(v@ == before.skip(1));
    }
    v.push_back(val);
}

/// A history is never longer than its capacity, and ends with what came last.
pub proof fn histories_stay_bounded<F>(v: Seq<F>, val: F)
    requires
        v.len() <= HISTORY_LEN,
    ensures
        pushed(v, val).len() <= HISTORY_LEN,
        pushed(v, val).last() == val,
        forall|k: int|
            0 <= k < pushed(v, val).len() - 1 ==> #[trigger] pushed(v, val)[k] == v[k + (v.len() + 1
                - pushed(v, val).len())],
{
}

/// Recent values of each quantity that a dashboard tile has a bar for. `F` is the
/// type of measured values, `P` that of fractions.
#[derive(Debug, Clone)]
pub struct History<F, P> {
    pub sys_power: VecDeque<F>,
    pub cpu_power: VecDeque<F>,
    pub gpu_power: VecDeque<F>,
    pub ane_power: VecDeque<F>,
    pub dram_power: VecDeque<F>,
    pub pcpu_util: VecDeque<F>,
    pub ecpu_util: VecDeque<F>,
    pub gpu_util: VecDeque<F>,
    /// Fan duty, a fraction between 0 and 1.
    pub fan_duty: VecDeque<P>,
    /// Used fraction of memory, between 0 and 1.
    pub mem_frac: VecDeque<P>,
    /// Used fraction of swap, between 0 and 1.
    pub swap_frac: VecDeque<P>,
}

impl<F, P> History<F, P> {
    /// Whether no quantity has more values than are kept.
    pub open spec fn wf(&self) -> bool {
        &&& self.sys_power@.len() <= HISTORY_LEN && self.cpu_power@.len() <= HISTORY_LEN
        &&& self.gpu_power@.len() <= HISTORY_LEN && self.ane_power@.len() <= HISTORY_LEN
        &&& self.dram_power@.len() <= HISTORY_LEN && self.pcpu_util@.len() <= HISTORY_LEN
        &&& self.ecpu_util@.len() <= HISTORY_LEN && self.gpu_util@.len() <= HISTORY_LEN
        &&& self.fan_duty@.len() <= HISTORY_LEN && self.mem_frac@.len() <= HISTORY_LEN
        &&& self.swap_frac@.len() <= HISTORY_LEN
    }

    /// Whether there is no value of any quantity.
    pub open spec fn is_blank(&self) -> bool {
        &&& self.sys_power@.len() == 0 && self.cpu_power@.len() == 0 && self.gpu_power@.len() == 0
        &&& self.ane_power@.len() == 0 && self.dram_power@.len() == 0 && self.pcpu_util@.len() == 0
        &&& self.ecpu_util@.len() == 0 && self.gpu_util@.len() == 0 && self.fan_duty@.len() == 0
        &&& self.mem_frac@.len() == 0 && self.swap_frac@.len() == 0
    }

    /// No values yet.
    pub fn new() -> (r: Self)
        ensures
            r.wf(),
            r.is_blank(),
    {
        History {
            sys_power: VecDeque::new(),
            cpu_power: VecDeque::new(),
            gpu_power: VecDeque::new(),
            ane_power: VecDeque::new(),
            dram_power: VecDeque::new(),
            pcpu_util: VecDeque::new(),
            ecpu_util: VecDeque::new(),
            gpu_util: VecDeque::new(),
            fan_duty: VecDeque::new(),
            mem_frac: VecDeque::new(),
            swap_frac: VecDeque::new(),
        }
    }
}

impl<F: Copy> History<F, Option<(u64, u64)>> {
    /// What follows a history when a sample is appended: the sample's values, and its
    /// fractions of fan, memory and swap.
    pub open spec fn followed_by<T>(self, s: ParsedSample<F, T>, next: Self) -> bool {
        &&& next.sys_power@ == pushed(self.sys_power@, s.sys_power)
        &&& next.cpu_power@ == pushed(self.cpu_power@, s.cpu_power)
        &&& next.gpu_power@ == pushed(self.gpu_power@, s.gpu_power)
        &&& next.ane_power@ == pushed(self.ane_power@, s.ane_power)
        &&& next.dram_power@ == pushed(self.dram_power@, s.dram_power)
        &&& next.pcpu_util@ == pushed(self.pcpu_util@, s.pcpu_util)
        &&& next.ecpu_util@ == pushed(self.ecpu_util@, s.ecpu_util)
        &&& next.gpu_util@ == pushed(self.gpu_util@, s.gpu_util)
        &&& next.fan_duty@ == pushed(
            self.fan_duty@,
            fraction(s.fan_rpm as u64, s.fan_max_rpm as u64),
        )
        &&& next.mem_frac@ == pushed(
            self.mem_frac@,
            fraction(s.memory_used_bytes, s.memory_total_bytes),
        )
        &&& next.swap_frac@ == pushed(
            self.swap_frac@,
            fraction(s.swap_used_bytes, s.swap_total_bytes),
        )
    }

    /// Appends a sample.
    pub fn push<T>(&mut self, s: &ParsedSample<F, T>)
        requires
            old(self).wf(),
        ensures
            final(self).wf(),
            old(self).followed_by(*s, *final(self)),
    {
        push_bounded(&mut self.sys_power, s.sys_power);
        push_bounded(&mut self.cpu_power, s.cpu_power);
        push_bounded(&mut self.gpu_power, s.gpu_power);
        push_bounded(&mut self.ane_power, s.ane_power);
        push_bounded(&mut self.dram_power, s.dram_power);
        push_bounded(&mut self.pcpu_util, s.pcpu_util);
        push_bounded(&mut self.ecpu_util, s.ecpu_util);
        push_bounded(&mut self.gpu_util, s.gpu_util);
        push_bounded(&mut self.fan_duty, fan_parts(s));
        push_bounded(&mut self.mem_frac, memory_parts(s));
        push_bounded(&mut self.swap_frac, swap_parts(s));
    }
}

/// A fraction as its parts, part over whole; none where there is no whole, and the
/// fraction is zero.
pub open spec fn parts(part: u64, whole: u64) -> Option<(u64, u64)> {
    if whole > 0 {
        Some((part, whole))
    } else {
        None
    }
}

/// The part, at most the whole.
pub open spec fn capped(part: u64, whole: u64) -> u64 {
    if part > whole {
        whole
    } else {
        part
    }
}

/// The part of a whole, at most all of it, as a fraction between 0 and 1.
pub open spec fn fraction(part: u64, whole: u64) -> Option<(u64, u64)> {
    parts(capped(part, whole), whole)
}

/// A fraction lies between 0 and 1: it is none, and so zero, where there is no whole,
/// and else a part that does not exceed a whole above zero.
pub proof fn fractions_lie_between(part: u64, whole: u64)
    ensures
        fraction(part, whole) is None <==> whole == 0,
        fraction(part, whole) matches Some((p, w)) ==> p <= w && w == whole && 0 < w,
        fraction(part, whole) matches Some((p, _)) ==> (part <= whole ==> p == part),
{
}

fn fraction_of(part: u64, whole: u64) -> (r: Option<(u64, u64)>)
    ensures
        r == fraction(part, whole),
{
    if whole == 0 {
        None
    } else if part > whole {
        Some((whole, whole))
    } else {
        Some((part, whole))
    }
}

/// The duty of the fan: its speed, at most the maximum, over the maximum.
pub fn fan_parts<F, T>(s: &ParsedSample<F, T>) -> (r: Option<(u64, u64)>)
    ensures
        r == fraction(s.fan_rpm as u64, s.fan_max_rpm as u64),
{
    fraction_of(s.fan_rpm as u64, s.fan_max_rpm as u64)
}

/// The used fraction of memory.
pub fn memory_parts<F, T>(s: &ParsedSample<F, T>) -> (r: Option<(u64, u64)>)
    ensures
        r == fraction(s.memory_used_bytes, s.memory_total_bytes),
{
    fraction_of(s.memory_used_bytes, s.memory_total_bytes)
}

/// The used fraction of swap.
pub fn swap_parts<F, T>(s: &ParsedSample<F, T>) -> (r: Option<(u64, u64)>)
    ensures
        r == fraction(s.swap_used_bytes, s.swap_total_bytes),
{
    fraction_of(s.swap_used_bytes, s.swap_total_bytes)
}

// ── Sparklines ───────────────────────────────────────────────────────────────

/// The block of a height from 0 to 7; a greater height is cut off.
pub open spec fn block(height: u8) -> char {
    if height == 0 {
        '▁'
    } else if height == 1 {
        '▂'
    } else if height == 2 {
        '▃'
    } else if height == 3 {
        '▄'
    } else if height == 4 {
        '▅'
    } else if height == 5 {
        '▆'
    } else if height == 6 {
        '▇'
    } else {
        '█'
    }
}

/// The last `width` heights as blocks, behind spaces that fill the width.
pub open spec fn spark_text(heights: Seq<u8>, width: int) -> Seq<char> {
    let start = if heights.len() > width {
        heights.len() - width
    } else {
        0
    };
    repeated(' ', width - heights.len()) + heights.skip(start).map_values(|h: u8| block(h))
}

fn block_of(height: u8) -> (r: char)
    ensures
        r == block(height),
{
    if height == 0 {
        '▁'
    } else if height == 1 {
        '▂'
    } else if height == 2 {
        '▃'
    } else if height == 3 {
        '▄'
    } else if height == 4 {
        '▅'
    } else if height == 5 {
        '▆'
    } else if height == 6 {
        '▇'
    } else {
        '█'
    }
}

/// Appends a sparkline of the most recent `width` heights. With fewer it grows from
/// the right.
pub fn write_sparkline(out: &mut String, heights: &VecDeque<u8>, width: usize)
    ensures
        final(out)@ == old(out)@ + spark_text(heights@, width as int),
{
    let n: usize = heights.len();
    let start: usize = if n > width {
        n - width
    } else {
        0
    };
    let ghost before = out@;
    let ghost pad = repeated(' ', width - heights@.len());
    if n < width {
        push_repeated(out, ' ', width - n);
    } else {
        assert(pad == Seq::<char>::empty());
        assert(out@ == before + pad);
    }
    let ghost shown = heights@.skip(start as int).map_values(|h: u8| block(h));
    let mut i: usize = start;
    assert(before + pad + shown.take(0) == before + pad);
    while i < n
        invariant
            n == heights@.len(),
            start <= i <= n,
            shown == heights@.skip(start as int).map_values(|h: u8| block(h)),
            out@ == before + pad + shown.take(i - start),
        decreases n - i,
    {
        let ghost at = out@;
        out.push(block_of(heights[i]));
        i += 1;
        proof {
            assert(shown.take(i - start) == shown.take(i - 1 - start).push(block(heights@[i - 1])));
            assert(out@ == before + pad + shown.take(i - start));
        }
    }
    proof {
        assert(shown.take(n - start) == shown);
        concat_assoc(before, pad, shown);
    }
}

/// A sparkline of the most recent `width` heights.
pub fn sparkline(heights: &VecDeque<u8>, width: usize) -> (r: String)
    ensures
        r@ == spark_text(heights@, width as int),
{
    let mut out: String = String::new();
    write_sparkline(&mut out, heights, width);
    assert(Seq::<char>::empty() + spark_text(heights@, width as int) == spark_text(
        heights@,
        width as int,
    ));
    out
}

/// A sparkline is exactly as wide as asked.
pub proof fn sparklines_have_their_width(heights: Seq<u8>, width: int)
    requires
        width >= 0,
    ensures
        spark_text(heights, width).len() == width,
{
}

/// The newest value stands rightmost.
pub proof fn newest_stands_rightmost(heights: Seq<u8>, height: u8, width: int)
    requires
        width > 0,
    ensures
        spark_text(pushed(heights, height), width).last() == block(height),
{
    let v = pushed(heights, height);
    let start = if v.len() > width {
        v.len() - width
    } else {
        0
    };
    assert(v.skip(start).last() == height);
}

// ── Hosts ────────────────────────────────────────────────────────────────────

/// What is kept of one agent. `F` is the type of measured quantities, `T` that of
/// points in time.
#[derive(Debug, Clone)]
pub struct HostState<F, T> {
    /// `host:port`.
    pub target: String,
    /// The host without the port.
    pub label: String,
    /// The last answer, as it came. Empty until the first.
    pub last_json: String,
    /// The last answer, read.
    pub parsed: Option<ParsedSample<F, Option<F>>>,
    /// Recent values. A fraction is its part and its whole; see [`parts`].
    pub history: History<F, Option<(u64, u64)>>,
    /// When the agent answered last.
    pub last_ok_at: Option<T>,
    /// Why the last poll failed, if it did.
    pub last_err: Option<String>,
}

impl<F: Copy, T> HostState<F, T> {
    /// An agent that was not polled yet.
    pub fn new(target: String) -> (r: Self)
        ensures
            r.target == target,
            r.label@ == target@.take(find(target@, 0, ':')),
            r.last_json@.len() == 0,
            r.parsed is None,
            r.history.wf(),
            r.history.is_blank(),
            r.last_ok_at is None,
            r.last_err is None,
    {
        let v = chars_of(&target);
        let j: usize = find_char(&v, 0, ':');
        let label = text_of(&v, 0, j);
        assert(v@.subrange(0, j as int) == target@.take(j as int));
        HostState {
            target,
            label,
            last_json: String::new(),
            parsed: None,
            history: History::new(),
            last_ok_at: None,
            last_err: None,
        }
    }

    /// Takes in an answer that came at `now`.
    pub fn answered(&mut self, body: String, parsed: ParsedSample<F, Option<F>>, now: T)
        requires
            old(self).history.wf(),
        ensures
            final(self).target == old(self).target,
            final(self).label == old(self).label,
            final(self).last_json == body,
            final(self).parsed == Some(parsed),
            final(self).last_ok_at == Some(now),
            final(self).last_err is None,
            final(self).history.wf(),
            old(self).history.followed_by(parsed, final(self).history),
    {
        self.history.push(&parsed);
        self.parsed = Some(parsed);
        self.last_json = body;
        self.last_ok_at = Some(now);
        self.last_err = None;
    }

    /// Takes in a failed poll. What was shown before stays.
    pub fn failed(&mut self, error: String)
        ensures
            *final(self) == (HostState { last_err: Some(error), ..*old(self) }),
    {
        self.last_err = Some(error);
    }
}

/// What a poller does.
#[derive(Debug, Clone, Copy, PartialEq, Eq, Structural)]
pub enum PollStep {
    /// Look up the address of the target.
    Resolve,
    /// Ask the agent at the known address.
    Fetch,
    /// Sleep until the next poll.
    Sleep,
}

/// Where a poller stands: what it does, and whether it knows the agent's address.
#[derive(Debug, Clone, Copy, PartialEq, Eq, Structural)]
pub struct Polling {
    pub step: PollStep,
    pub known: bool,
}

impl Polling {
    /// Where a poller stands after a step that succeeded or failed. A failure forgets
    /// the address; without one it is looked up before the agent is asked.
    pub open spec fn after(self, succeeded: bool) -> Polling {
        match self.step {
            PollStep::Resolve => Polling {
                step: if succeeded {
                    PollStep::Fetch
                } else {
                    PollStep::Sleep
                },
                known: succeeded,
            },
            PollStep::Fetch => Polling { step: PollStep::Sleep, known: self.known && succeeded },
            PollStep::Sleep => Polling {
                step: if self.known {
                    PollStep::Fetch
                } else {
                    PollStep::Resolve
                },
                known: self.known,
            },
        }
    }

    /// A poller that has not begun.
    pub fn new() -> (r: Polling)
        ensures
            r == (Polling { step: PollStep::Resolve, known: false }),
    {
        Polling { step: PollStep::Resolve, known: false }
    }

    /// Where a poller stands after a step that succeeded or failed.
    pub fn next(self, succeeded: bool) -> (r: Polling)
        ensures
            r == self.after(succeeded),
    {
        match self.step {
            PollStep::Resolve => Polling {
                step: if succeeded {
                    PollStep::Fetch
                } else {
                    PollStep::Sleep
                },
                known: succeeded,
            },
            PollStep::Fetch => Polling { step: PollStep::Sleep, known: self.known && succeeded },
            PollStep::Sleep => Polling {
                step: if self.known {
                    PollStep::Fetch
                } else {
                    PollStep::Resolve
                },
                known: self.known,
            },
        }
    }

    /// Where a poller stands after `n` steps, of which step number `k` went as
    /// `succeeded[k]` tells.
    pub open spec fn trace(succeeded: Seq<bool>, n: int) -> Polling
        decreases n,
    {
        if n <= 0 {
            Polling { step: PollStep::Resolve, known: false }
        } else {
            Polling::trace(succeeded, n - 1).after(succeeded[n - 1])
        }
    }
}

/// An agent is asked only at an address that is known.
pub proof fn agents_are_asked_at_known_addresses(succeeded: Seq<bool>, n: int)
    ensures
        Polling::trace(succeeded, n).step == PollStep::Fetch ==> Polling::trace(succeeded, n).known,
    decreases n,
{
    if n > 0 {
        agents_are_asked_at_known_addresses(succeeded, n - 1);
    }
}

/// Between polls a poller sleeps once; it looks the address up again only if the poll
/// before failed, and asks at once if it did not.
pub proof fn addresses_are_looked_up_after_failures(succeeded: Seq<bool>, n: int)
    requires
        n >= 2,
        Polling::trace(succeeded, n - 1).step == PollStep::Sleep,
    ensures
        Polling::trace(succeeded, n - 2).step != PollStep::Sleep,
        Polling::trace(succeeded, n).step == (if succeeded[n - 2] {
            PollStep::Fetch
        } else {
            PollStep::Resolve
        }),
{
    agents_are_asked_at_known_addresses(succeeded, n - 2);
    assert(Polling::trace(succeeded, n - 1) == Polling::trace(succeeded, n - 2).after(
        succeeded[n - 2],
    ));
    assert(Polling::trace(succeeded, n) == Polling::trace(succeeded, n - 1).after(
        succeeded[n - 1],
    ));
}

// ── Snapshot ─────────────────────────────────────────────────────────────────

/// The sparklines of one host; `h` holds the heights of the blocks.
pub open spec fn spark_fields(h: History<u8, u8>) -> Seq<Field> {
    seq![
        string_field("sys"@, spark_text(h.sys_power@, SPARK_WIDTH as int)),
        string_field("cpu"@, spark_text(h.cpu_power@, SPARK_WIDTH as int)),
        string_field("gpu"@, spark_text(h.gpu_power@, SPARK_WIDTH as int)),
        string_field("ane"@, spark_text(h.ane_power@, SPARK_WIDTH as int)),
        string_field("dram"@, spark_text(h.dram_power@, SPARK_WIDTH as int)),
        string_field("pcpu_util"@, spark_text(h.pcpu_util@, SPARK_WIDTH as int)),
        string_field("ecpu_util"@, spark_text(h.ecpu_util@, SPARK_WIDTH as int)),
        string_field("gpu_util"@, spark_text(h.gpu_util@, SPARK_WIDTH as int)),
        string_field("fan"@, spark_text(h.fan_duty@, SPARK_WIDTH as int)),
        string_field("mem"@, spark_text(h.mem_frac@, SPARK_WIDTH as int)),
        string_field("swap"@, spark_text(h.swap_frac@, SPARK_WIDTH as int)),
    ]
}

/// Whether a host has an answer to show.
pub open spec fn is_shown<F, T>(h: HostState<F, T>) -> bool {
    h.last_ok_at is Some && h.last_json@.len() > 0
}

/// The seconds since a host answered last; `null` for one that never did.
pub open spec fn stale_text<F, T>(h: HostState<F, T>, elapsed: Seq<char>) -> Seq<char> {
    if h.last_ok_at is Some {
        elapsed
    } else {
        "null"@
    }
}

/// The fields of one host: who it is, how it answers, its last answer as it came,
/// and its sparklines.
pub open spec fn host_fields<F, T>(
    h: HostState<F, T>,
    elapsed: Seq<char>,
    heights: History<u8, u8>,
) -> Seq<Field> {
    seq![
        string_field("label"@, escaped(h.label@)),
        string_field("target"@, escaped(h.target@)),
        bare_field("ok"@, if is_shown(h) { "true"@ } else { "false"@ }),
        bare_field("stale_s"@, stale_text(h, elapsed)),
        match h.last_err {
            Some(e) => string_field("error"@, escaped(e@)),
            None => bare_field("error"@, "null"@),
        },
        bare_field("metrics"@, if is_shown(h) { trimmed(h.last_json@) } else { "null"@ }),
        bare_field("spark"@, object_text(spark_fields(heights))),
    ]
}

fn spark_object(h: &History<u8, u8>) -> (r: String)
    ensures
        r@ == object_text(spark_fields(*h)),
{
    let mut w = ObjectWriter::new();
    w.raw_string("sys", &sparkline(&h.sys_power, SPARK_WIDTH));
    w.raw_string("cpu", &sparkline(&h.cpu_power, SPARK_WIDTH));
    w.raw_string("gpu", &sparkline(&h.gpu_power, SPARK_WIDTH));
    w.raw_string("ane", &sparkline(&h.ane_power, SPARK_WIDTH));
    w.raw_string("dram", &sparkline(&h.dram_power, SPARK_WIDTH));
    w.raw_string("pcpu_util", &sparkline(&h.pcpu_util, SPARK_WIDTH));
    w.raw_string("ecpu_util", &sparkline(&h.ecpu_util, SPARK_WIDTH));
    w.raw_string("gpu_util", &sparkline(&h.gpu_util, SPARK_WIDTH));
    w.raw_string("fan", &sparkline(&h.fan_duty, SPARK_WIDTH));
    w.raw_string("mem", &sparkline(&h.mem_frac, SPARK_WIDTH));
    w.raw_string("swap", &sparkline(&h.swap_frac, SPARK_WIDTH));
    assert(w@ =~= spark_fields(*h));
    w.finish()
}

/// Appends one host. `elapsed` tells the seconds since it answered last, in words, and
/// is not shown for a host that never did; `heights` holds the blocks of its history.
pub fn write_host_block<F, T>(
    out: &mut String,
    h: &HostState<F, T>,
    elapsed: &str,
    heights: &History<u8, u8>,
)
    ensures
        final(out)@ == old(out)@ + object_text(host_fields(*h, elapsed@, *heights)),
{
    let ok: bool = h.last_ok_at.is_some() && !h.last_json.as_str().is_empty();
    let mut w = ObjectWriter::new();
    w.string("label", &h.label);
    w.string("target", &h.target);
    w.bare(
        "ok",
        if ok {
            "true"
        } else {
            "false"
        },
    );
    w.bare(
        "stale_s",
        if h.last_ok_at.is_some() {
            elapsed
        } else {
            "null"
        },
    );
    match &h.last_err {
        Some(e) => w.string("error", e),
        None => w.bare("error", "null"),
    }
    if ok {
        let body = trim(&h.last_json);
        w.bare("metrics", &body);
    } else {
        w.bare("metrics", "null");
    }
    let spark = spark_object(heights);
    w.bare("spark", &spark);
    assert(w@ =~= host_fields(*h, elapsed@, *heights));
    let text = w.finish();
    out.append(&text);
}

/// The first `n` texts with commas between them.
pub open spec fn joined(all: Seq<String>, n: int) -> Seq<char>
    decreases n,
{
    if n <= 0 {
        Seq::empty()
    } else if n == 1 {
        all[0]@
    } else {
        joined(all, n - 1) + ","@ + all[n - 1]@
    }
}

/// The fields of a fleet snapshot taken at the time `secs`.
pub open spec fn snapshot_fields(blocks: Seq<String>, poll_interval_ms: u64, secs: u64) -> Seq<Field> {
    seq![
        string_field("generated_at"@, utc_text(secs)),
        bare_field("poll_interval_ms"@, dec(poll_interval_ms as nat)),
        bare_field("history_len"@, dec(HISTORY_LEN as nat)),
        bare_field("hosts"@, "["@ + joined(blocks, blocks.len() as int) + "]"@),
    ]
}

/// Appends the snapshot of the fleet at a given time, in seconds since the start of
/// 1970. `blocks` are the hosts, each as [`write_host_block`] writes it.
pub fn build_snapshot_at(out: &mut String, blocks: &Vec<String>, poll_interval_ms: u64, secs: u64)
    ensures
        final(out)@ == old(out)@ + object_text(snapshot_fields(blocks@, poll_interval_ms, secs)),
{
    let mut hosts: String = "[".to_string();
    let ghost open = hosts@;
    let mut i: usize = 0;
    assert(open + Seq::<char>::empty() == open);
    while i < blocks.len()
        invariant
            i <= blocks.len(),
            hosts@ == open + joined(blocks@, i as int),
        decreases blocks.len() - i,
    {
        broadcast use concat_assoc;

        if i > 0 {
            hosts.append(",");
        } else {
            assert(open + Seq::<char>::empty() == open);
        }
        hosts.append(&blocks[i]);
        i += 1;
    }
    hosts.append("]");
    let mut time: String = String::new();
    write_utc(&mut time, secs);
    assert(time@ == utc_text(secs));
    let mut w = ObjectWriter::new();
    w.raw_string("generated_at", &time);
    w.number("poll_interval_ms", poll_interval_ms);
    w.number("history_len", HISTORY_LEN as u64);
    w.bare("hosts", &hosts);
    assert(w@ =~= snapshot_fields(blocks@, poll_interval_ms, secs));
    let text = w.finish();
    out.append(&text);
}

/// Appends the fleet snapshot of the hosts with the given blocks.
pub fn build_snapshot_into(out: &mut String, blocks: &Vec<String>, poll_interval_ms: u64)
    ensures
        exists|secs: u64|
            final(out)@ == old(out)@ + object_text(
                #[trigger] snapshot_fields(blocks@, poll_interval_ms, secs),
            ),
{
    let secs: u64 = now_secs();
    build_snapshot_at(out, blocks, poll_interval_ms, secs);
}

/// The fleet snapshot of the hosts with the given blocks.
pub fn build_snapshot(blocks: &Vec<String>, poll_interval_ms: u64) -> (r: String)
    ensures
        exists|secs: u64|
            r@ == object_text(#[trigger] snapshot_fields(blocks@, poll_interval_ms, secs)),
{
    let mut out: String = String::new();
    build_snapshot_into(&mut out, blocks, poll_interval_ms);
    proof {
        let secs = choose|secs: u64|
            out@ == Seq::<char>::empty() + object_text(
                #[trigger] snapshot_fields(blocks@, poll_interval_ms, secs),
            );
        let text = object_text(snapshot_fields(blocks@, poll_interval_ms, secs));
        assert(Seq::<char>::empty() + text == text);
    }
    out
}

/// Appends one event of the snapshot stream.
pub fn write_stream_event(out: &mut String, blocks: &Vec<String>, poll_interval_ms: u64)
    ensures
        exists|secs: u64|
            final(out)@ == old(out)@ + "data: "@ + object_text(
                #[trigger] snapshot_fields(blocks@, poll_interval_ms, secs),
            ) + "\n\n"@,
{
    out.append("data: ");
    build_snapshot_into(out, blocks, poll_interval_ms);
    out.append("\n\n");
}

// ── What is told under which name ────────────────────────────────────────────

/// Whether `value` is what the fields tell under a name: some field has the name, and
/// every field that has it holds the value.
pub open spec fn tells(fs: Seq<Field>, key: Seq<char>, value: Seq<char>, quoted: bool) -> bool {
    &&& exists|k: int| 0 <= k < fs.len() && (#[trigger] fs[k]).key == key
    &&& forall|k: int|
        0 <= k < fs.len() && (#[trigger] fs[k]).key == key ==> fs[k].value == value && fs[k].quoted
            == quoted
}

proof fn lemma_tells(fs: Seq<Field>, i: int)
    requires
        0 <= i < fs.len(),
        forall|a: int, b: int|
            #![trigger fs[a], fs[b]]
            0 <= a < b < fs.len() ==> fs[a].key != fs[b].key,
    ensures
        tells(fs, fs[i].key, fs[i].value, fs[i].quoted),
{
    assert forall|k: int| 0 <= k < fs.len() && (#[trigger] fs[k]).key == fs[i].key implies fs[k].value
        == fs[i].value && fs[k].quoted == fs[i].quoted by {
        if k < i {
            assert(fs[k].key != fs[i].key);
        } else if i < k {
            assert(fs[i].key != fs[k].key);
        }
    }
}

/// The blocks rise with the height, one by one from the lowest, and the highest stands
/// for every greater height.
pub proof fn blocks_rise_with_the_height(height: u8)
    ensures
        height <= 7 ==> block(height) as int == 0x2581 + height,
        height > 7 ==> block(height) as int == 0x2588,
{
}

/// Under each name stands the sparkline of its own quantity, twenty-four wide.
pub proof fn sparklines_stand_under_their_names(h: History<u8, u8>)
    ensures
        tells(spark_fields(h), "sys"@, spark_text(h.sys_power@, 24), true),
        tells(spark_fields(h), "cpu"@, spark_text(h.cpu_power@, 24), true),
        tells(spark_fields(h), "gpu"@, spark_text(h.gpu_power@, 24), true),
        tells(spark_fields(h), "ane"@, spark_text(h.ane_power@, 24), true),
        tells(spark_fields(h), "dram"@, spark_text(h.dram_power@, 24), true),
        tells(spark_fields(h), "pcpu_util"@, spark_text(h.pcpu_util@, 24), true),
        tells(spark_fields(h), "ecpu_util"@, spark_text(h.ecpu_util@, 24), true),
        tells(spark_fields(h), "gpu_util"@, spark_text(h.gpu_util@, 24), true),
        tells(spark_fields(h), "fan"@, spark_text(h.fan_duty@, 24), true),
        tells(spark_fields(h), "mem"@, spark_text(h.mem_frac@, 24), true),
        tells(spark_fields(h), "swap"@, spark_text(h.swap_frac@, 24), true),
        spark_fields(h).len() == 11,
{
    reveal_strlit("sys");
    reveal_strlit("cpu");
    reveal_strlit("gpu");
    reveal_strlit("ane");
    reveal_strlit("dram");
    reveal_strlit("pcpu_util");
    reveal_strlit("ecpu_util");
    reveal_strlit("gpu_util");
    reveal_strlit("fan");
    reveal_strlit("mem");
    reveal_strlit("swap");
    assert("sys"@[0] != "cpu"@[0]);
    assert("sys"@[0] != "gpu"@[0]);
    assert("sys"@[0] != "ane"@[0]);
    assert("sys"@[0] != "fan"@[0]);
    assert("sys"@[0] != "mem"@[0]);
    assert("cpu"@[0] != "gpu"@[0]);
    assert("cpu"@[0] != "ane"@[0]);
    assert("cpu"@[0] != "fan"@[0]);
    assert("cpu"@[0] != "mem"@[0]);
    assert("gpu"@[0] != "ane"@[0]);
    assert("gpu"@[0] != "fan"@[0]);
    assert("gpu"@[0] != "mem"@[0]);
    assert("ane"@[0] != "fan"@[0]);
    assert("ane"@[0] != "mem"@[0]);
    assert("dram"@[0] != "swap"@[0]);
    assert("pcpu_util"@[0] != "ecpu_util"@[0]);
    assert("fan"@[0] != "mem"@[0]);
    let fs = spark_fields(h);
    assert(fs[0].key == "sys"@);
    assert(fs[1].key == "cpu"@);
    assert(fs[2].key == "gpu"@);
    assert(fs[3].key == "ane"@);
    assert(fs[4].key == "dram"@);
    assert(fs[5].key == "pcpu_util"@);
    assert(fs[6].key == "ecpu_util"@);
    assert(fs[7].key == "gpu_util"@);
    assert(fs[8].key == "fan"@);
    assert(fs[9].key == "mem"@);
    assert(fs[10].key == "swap"@);
    lemma_tells(fs, 0);
    lemma_tells(fs, 1);
    lemma_tells(fs, 2);
    lemma_tells(fs, 3);
    lemma_tells(fs, 4);
    lemma_tells(fs, 5);
    lemma_tells(fs, 6);
    lemma_tells(fs, 7);
    lemma_tells(fs, 8);
    lemma_tells(fs, 9);
    lemma_tells(fs, 10);
}

/// What is told of a host: its label and target; whether it is up, which it is once it
/// has answered with something; since when it is silent; its last error; its last answer
/// without the white space around it; and its sparklines.
pub proof fn hosts_are_told_under_their_names<F, T>(
    h: HostState<F, T>,
    elapsed: Seq<char>,
    heights: History<u8, u8>,
)
    ensures
        ({
            let fs = host_fields(h, elapsed, heights);
            let up = h.last_ok_at is Some && h.last_json@ != Seq::<char>::empty();
            &&& tells(fs, "label"@, escaped(h.label@), true)
            &&& tells(fs, "target"@, escaped(h.target@), true)
            &&& up ==> tells(fs, "ok"@, "true"@, false) && tells(
                fs,
                "metrics"@,
                trimmed(h.last_json@),
                false,
            )
            &&& !up ==> tells(fs, "ok"@, "false"@, false) && tells(fs, "metrics"@, "null"@, false)
            &&& h.last_ok_at is Some ==> tells(fs, "stale_s"@, elapsed, false)
            &&& h.last_ok_at is None ==> tells(fs, "stale_s"@, "null"@, false)
            &&& h.last_err matches Some(e) ==> tells(fs, "error"@, escaped(e@), true)
            &&& h.last_err is None ==> tells(fs, "error"@, "null"@, false)
            &&& tells(fs, "spark"@, object_text(spark_fields(heights)), false)
        }),
{
    reveal_strlit("label");
    reveal_strlit("target");
    reveal_strlit("ok");
    reveal_strlit("stale_s");
    reveal_strlit("error");
    reveal_strlit("metrics");
    reveal_strlit("spark");
    assert("label"@[0] != "error"@[0]);
    assert("label"@[0] != "spark"@[0]);
    assert("stale_s"@[0] != "metrics"@[0]);
    assert("error"@[0] != "spark"@[0]);
    let fs = host_fields(h, elapsed, heights);
    assert(fs[0].key == "label"@);
    assert(fs[1].key == "target"@);
    assert(fs[2].key == "ok"@);
    assert(fs[3].key == "stale_s"@);
    assert(fs[4].key == "error"@);
    assert(fs[5].key == "metrics"@);
    assert(fs[6].key == "spark"@);
    assert(h.last_json@.len() == 0 ==> h.last_json@ =~= Seq::<char>::empty());
    lemma_tells(fs, 0);
    lemma_tells(fs, 1);
    lemma_tells(fs, 2);
    lemma_tells(fs, 3);
    lemma_tells(fs, 4);
    lemma_tells(fs, 5);
    lemma_tells(fs, 6);
}

/// What is told of the fleet: when the snapshot was taken, how often the hosts are
/// polled, how much is kept of each, and the hosts in a list, one more for each block.
pub proof fn snapshots_are_told_under_their_names(
    blocks: Seq<String>,
    block: String,
    poll_interval_ms: u64,
    secs: u64,
)
    ensures
        ({
            let fs = snapshot_fields(blocks, poll_interval_ms, secs);
            &&& tells(fs, "generated_at"@, utc_text(secs), true)
            &&& tells(fs, "poll_interval_ms"@, dec(poll_interval_ms as nat), false)
            &&& tells(fs, "history_len"@, dec(24), false)
            &&& tells(fs, "hosts"@, "["@ + joined(blocks, blocks.len() as int) + "]"@, false)
        }),
        joined(blocks.push(block), blocks.len() as int + 1) == if blocks.len() == 0 {
            block@
        } else {
            joined(blocks, blocks.len() as int) + ","@ + block@
        },
{
    reveal_strlit("generated_at");
    reveal_strlit("poll_interval_ms");
    reveal_strlit("history_len");
    reveal_strlit("hosts");
    let fs = snapshot_fields(blocks, poll_interval_ms, secs);
    assert(fs[0].key == "generated_at"@);
    assert(fs[1].key == "poll_interval_ms"@);
    assert(fs[2].key == "history_len"@);
    assert(fs[3].key == "hosts"@);
    lemma_tells(fs, 0);
    lemma_tells(fs, 1);
    lemma_tells(fs, 2);
    lemma_tells(fs, 3);
    lemma_joined_front(blocks.push(block), blocks, blocks.len() as int);
}

proof fn lemma_joined_front(a: Seq<String>, b: Seq<String>, n: int)
    requires
        n <= a.len(),
        n <= b.len(),
        forall|k: int| 0 <= k < n ==> a[k] == b[k],
    ensures
        joined(a, n) == joined(b, n),
    decreases n,
{
    if n > 1 {
        lemma_joined_front(a, b, n - 1);
    }
}

/// A history keeps its last twenty-four values: below that it grows by one with each
/// value, and a full one loses its oldest. Each value of a sample goes to the history of
/// its own quantity, and a fraction that is all of its whole or more counts as all of it.
pub proof fn samples_reach_their_histories<F: Copy, T>(
    h: History<F, Option<(u64, u64)>>,
    s: ParsedSample<F, T>,
    next: History<F, Option<(u64, u64)>>,
)
    requires
        h.wf(),
        h.followed_by(s, next),
    ensures
        next.sys_power@.len() == (if h.sys_power@.len() < 24 { h.sys_power@.len() + 1 } else { 24 }),
        h.sys_power@.len() == 24 ==> next.sys_power@.drop_last() == h.sys_power@.drop_first(),
        h.sys_power@.len() < 24 ==> next.sys_power@.drop_last() == h.sys_power@,
        next.sys_power@.last() == s.sys_power,
        next.cpu_power@.last() == s.cpu_power,
        next.gpu_power@.last() == s.gpu_power,
        next.ane_power@.last() == s.ane_power,
        next.dram_power@.last() == s.dram_power,
        next.pcpu_util@.last() == s.pcpu_util,
        next.ecpu_util@.last() == s.ecpu_util,
        next.gpu_util@.last() == s.gpu_util,
        0 < s.fan_max_rpm && s.fan_rpm <= s.fan_max_rpm ==> next.fan_duty@.last() == Some(
            (s.fan_rpm as u64, s.fan_max_rpm as u64),
        ),
        0 < s.fan_max_rpm <= s.fan_rpm ==> next.fan_duty@.last() == Some(
            (s.fan_max_rpm as u64, s.fan_max_rpm as u64),
        ),
        s.fan_max_rpm == 0 ==> next.fan_duty@.last() is None,
        0 < s.memory_total_bytes && s.memory_used_bytes <= s.memory_total_bytes
            ==> next.mem_frac@.last() == Some((s.memory_used_bytes, s.memory_total_bytes)),
        0 < s.memory_total_bytes <= s.memory_used_bytes ==> next.mem_frac@.last() == Some(
            (s.memory_total_bytes, s.memory_total_bytes),
        ),
        s.memory_total_bytes == 0 ==> next.mem_frac@.last() is None,
        0 < s.swap_total_bytes && s.swap_used_bytes <= s.swap_total_bytes
            ==> next.swap_frac@.last() == Some((s.swap_used_bytes, s.swap_total_bytes)),
        0 < s.swap_total_bytes <= s.swap_used_bytes ==> next.swap_frac@.last() == Some(
            (s.swap_total_bytes, s.swap_total_bytes),
        ),
        s.swap_total_bytes == 0 ==> next.swap_frac@.last() is None,
{
    assert(next.sys_power@.drop_last() =~= if h.sys_power@.len() == 24 {
        h.sys_power@.drop_first()
    } else {
        h.sys_power@
    });
}

} // verus!
