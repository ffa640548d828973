//! The aggregated sampler: routes channels to components and clusters, sums up
//! P-state residency, and averages sub-samples into one snapshot.
use vstd::prelude::*;

use crate::event::SamplerEvent;
use crate::ioreport::{
    ChannelGroup, ChannelKind, ChannelSample, Delta, EnergyUnit, MultiGroupSampler, StateResidency,
};
use crate::memory::{MemoryInfo, SwapInfo};
use crate::readings::FanState;
use crate::soc::SocInfo;
use crate::text::{begins, ends, find, is_digit, lemma_find};
use crate::text::{chars_of, find_char, has_prefix, has_suffix, same, text_of};
use crate::values::Value;

verus! {

/// Default sub-sample count of a window.
pub const N_SAMPLES: usize = 4;

/// Minimum dwell of a sub-sample in milliseconds.
pub const MIN_SUB_MS: u64 = 50;

// ── Routing ──────────────────────────────────────────────────────────────────

/// Where a channel's data goes.
#[derive(Debug, Clone, Copy, PartialEq, Eq, Structural)]
pub enum RouteTag {
    /// Nowhere.
    Skip,
    EnergyGpu,
    EnergyCpu,
    EnergyAne,
    EnergyDram,
    /// Residency of the performance cluster.
    ClusterP,
    /// Residency of the efficiency or mid cluster.
    ClusterEorM,
    /// Residency of the GPU.
    GpuStates,
}

/// Which cluster tier a CPU channel belongs to.
#[derive(Debug, Clone, Copy, PartialEq, Eq, Structural)]
pub enum CpuCluster {
    /// Performance cluster (`PCPU*`).
    P,
    /// Efficiency (`ECPU*`) or mid-tier (`MCPU*`) cluster.
    EorM,
}

/// A name without the prefix `DIE_N_`, where `N` is one or more digits.
pub open spec fn die_stripped(name: Seq<char>) -> Seq<char> {
    let rest = name.skip(4);
    let j = find(rest, 0, '_');
    if begins(name, "DIE_"@) && 0 < j < rest.len() && forall|k: int|
        0 <= k < j ==> is_digit(#[trigger] rest[k]) {
        rest.skip(j + 1)
    } else {
        name
    }
}

/// The cluster of a CPU channel, by the start of its stripped name.
pub open spec fn cluster_of(name: Seq<char>) -> Option<CpuCluster> {
    let stem = die_stripped(name);
    if begins(stem, "PCPU"@) {
        Some(CpuCluster::P)
    } else if begins(stem, "ECPU"@) || begins(stem, "MCPU"@) {
        Some(CpuCluster::EorM)
    } else {
        None
    }
}

/// Where a channel of the given group and name goes.
pub open spec fn route_of(group: ChannelGroup, name: Seq<char>) -> RouteTag {
    match group {
        ChannelGroup::EnergyModel => if name == "GPU"@ {
            RouteTag::EnergyGpu
        } else if ends(name, "CPU Energy"@) {
            RouteTag::EnergyCpu
        } else if begins(name, "ANE"@) {
            RouteTag::EnergyAne
        } else if begins(name, "DRAM"@) {
            RouteTag::EnergyDram
        } else {
            RouteTag::Skip
        },
        ChannelGroup::CpuStats => match cluster_of(name) {
            Some(CpuCluster::P) => RouteTag::ClusterP,
            Some(CpuCluster::EorM) => RouteTag::ClusterEorM,
            None => RouteTag::Skip,
        },
        ChannelGroup::GpuStats => if name == "GPUPH"@ {
            RouteTag::GpuStates
        } else {
            RouteTag::Skip
        },
        ChannelGroup::Other => RouteTag::Skip,
    }
}

/// Strips the `DIE_N_` prefix of multi-die SoCs.
pub fn strip_die_prefix(name: &str) -> (r: String)
    ensures
        r@ == die_stripped(name@),
{
    if !has_prefix(name, "DIE_") {
        return name.to_string();
    }
    proof {
        reveal_strlit("DIE_");
    }
    let v = chars_of(name);
    let j: usize = find_char(&v, 4, '_');
    proof {
        crate::text::lemma_find_skip(v@, 4, '_');
    }
    let ghost rest = name@.skip(4);
    assert(find(rest, 0, '_') == j - 4);
    if j == 4 || j == v.len() {
        return name.to_string();
    }
    let mut k: usize = 4;
    while k < j
        invariant
            v@ == name@,
            rest == name@.skip(4),
            4 <= k <= j < v.len(),
            find(rest, 0, '_') == j - 4,
            forall|m: int| 0 <= m < k - 4 ==> is_digit(#[trigger] rest[m]),
        decreases j - k,
    {
        let c: char = v[k];
        assert(rest[k - 4] == c);
        if c < '0' || '9' < c {
            return name.to_string();
        }
        k += 1;
    }
    assert(rest.skip(j - 4 + 1) == v@.subrange(j + 1, v@.len() as int));
    text_of(&v, j + 1, v.len())
}

/// Classifies a CPU channel name into a cluster tier. The start of the name
/// decides, so that no stray substring does.
pub fn classify_cpu_cluster(name: &str) -> (r: Option<CpuCluster>)
    ensures
        r == cluster_of(name@),
{
    let stem = strip_die_prefix(name);
    if has_prefix(&stem, "PCPU") {
        Some(CpuCluster::P)
    } else if has_prefix(&stem, "ECPU") || has_prefix(&stem, "MCPU") {
        Some(CpuCluster::EorM)
    } else {
        None
    }
}

/// Where a channel's data goes.
pub fn classify_channel(ch: &ChannelSample) -> (r: RouteTag)
    ensures
        r == route_of(ch.group, ch.channel@),
{
    match ch.group {
        ChannelGroup::EnergyModel => if same(&ch.channel, "GPU") {
            RouteTag::EnergyGpu
        } else if has_suffix(&ch.channel, "CPU Energy") {
            RouteTag::EnergyCpu
        } else if has_prefix(&ch.channel, "ANE") {
            RouteTag::EnergyAne
        } else if has_prefix(&ch.channel, "DRAM") {
            RouteTag::EnergyDram
        } else {
            RouteTag::Skip
        },
        ChannelGroup::CpuStats => match classify_cpu_cluster(&ch.channel) {
            Some(CpuCluster::P) => RouteTag::ClusterP,
            Some(CpuCluster::EorM) => RouteTag::ClusterEorM,
            None => RouteTag::Skip,
        },
        ChannelGroup::GpuStats => if same(&ch.channel, "GPUPH") {
            RouteTag::GpuStates
        } else {
            RouteTag::Skip
        },
        ChannelGroup::Other => RouteTag::Skip,
    }
}

/// A name reaches a cluster only if what is left of it behind a die prefix
/// starts with the name of that cluster.
pub proof fn clusters_are_prefix_anchored(name: Seq<char>)
    ensures
        cluster_of(name) is Some ==> begins(die_stripped(name), "PCPU"@) || begins(
            die_stripped(name),
            "ECPU"@,
        ) || begins(die_stripped(name), "MCPU"@),
        !begins(name, "DIE_"@) ==> die_stripped(name) == name,
{
}

proof fn lemma_begins<T>(a: Seq<T>, b: Seq<T>)
    ensures
        begins(a + b, a),
        ends(a + b, b),
{
    assert((a + b).subrange(0, a.len() as int) =~= a);
    assert((a + b).subrange((a + b).len() - b.len(), (a + b).len() as int) =~= b);
}

/// The energy channels go by their names: that of the graphics unit is named exactly so,
/// those of the processors end in their name, and those of the neural engine and of the
/// memory begin with theirs.
pub proof fn energy_channels_go_by_name(name: Seq<char>, more: Seq<char>)
    ensures
        route_of(ChannelGroup::EnergyModel, "GPU"@) == RouteTag::EnergyGpu,
        route_of(ChannelGroup::EnergyModel, more + "CPU Energy"@) == RouteTag::EnergyCpu,
        name == "ANE"@ + more && !ends(name, "CPU Energy"@) ==> route_of(
            ChannelGroup::EnergyModel,
            name,
        ) == RouteTag::EnergyAne,
        name == "DRAM"@ + more && !ends(name, "CPU Energy"@) ==> route_of(
            ChannelGroup::EnergyModel,
            name,
        ) == RouteTag::EnergyDram,
        name != "GPU"@ && !ends(name, "CPU Energy"@) && !begins(name, "ANE"@) && !begins(
            name,
            "DRAM"@,
        ) ==> route_of(ChannelGroup::EnergyModel, name) == RouteTag::Skip,
{
    reveal_strlit("GPU");
    reveal_strlit("CPU Energy");
    reveal_strlit("ANE");
    reveal_strlit("DRAM");
    lemma_begins(more, "CPU Energy"@);
    lemma_begins("ANE"@, more);
    lemma_begins("DRAM"@, more);
    let ane = "ANE"@ + more;
    let dram = "DRAM"@ + more;
    assert(ane[0] == 'A' && dram[0] == 'D' && "GPU"@[0] == 'G');
    if begins(dram, "ANE"@) {
        assert(dram.subrange(0, 3)[0] == 'A');
    }
}

/// A name behind a die prefix is the name itself.
proof fn lemma_die(n: nat, stem: Seq<char>)
    ensures
        die_stripped("DIE_"@ + crate::text::dec(n) + "_"@ + stem) == stem,
{
    reveal_strlit("DIE_");
    reveal_strlit("_");
    let d = crate::text::dec(n);
    let name = "DIE_"@ + d + "_"@ + stem;
    let rest = name.skip(4);
    crate::text::lemma_dec(n);
    lemma_begins("DIE_"@, d + "_"@ + stem);
    assert(name =~= "DIE_"@ + (d + "_"@ + stem));
    assert(rest =~= d + "_"@ + stem);
    assert forall|k: int| 0 <= k < d.len() implies is_digit(#[trigger] rest[k]) && rest[k] != '_' by {
        assert(is_digit(d[k]));
    }
    assert(rest[d.len() as int] == '_');
    crate::text::lemma_find_is(rest, 0, '_', d.len() as int);
    assert(rest.skip(d.len() as int + 1) =~= stem);
}

proof fn lemma_no_die(stem: Seq<char>)
    requires
        stem.len() > 0,
        stem[0] != 'D',
    ensures
        die_stripped(stem) == stem,
{
    reveal_strlit("DIE_");
    if begins(stem, "DIE_"@) {
        assert(stem.subrange(0, 4)[0] == 'D');
    }
}

/// The channels of the clusters go by the start of their names, on every die: `PCPU` to
/// the performance cluster, `ECPU` and `MCPU` to the other.
pub proof fn cluster_channels_go_by_name(die: nat, more: Seq<char>)
    ensures
        route_of(ChannelGroup::CpuStats, "PCPU"@ + more) == RouteTag::ClusterP,
        route_of(ChannelGroup::CpuStats, "ECPU"@ + more) == RouteTag::ClusterEorM,
        route_of(ChannelGroup::CpuStats, "MCPU"@ + more) == RouteTag::ClusterEorM,
        route_of(
            ChannelGroup::CpuStats,
            "DIE_"@ + crate::text::dec(die) + "_"@ + ("PCPU"@ + more),
        ) == RouteTag::ClusterP,
        route_of(
            ChannelGroup::CpuStats,
            "DIE_"@ + crate::text::dec(die) + "_"@ + ("ECPU"@ + more),
        ) == RouteTag::ClusterEorM,
        route_of(
            ChannelGroup::CpuStats,
            "DIE_"@ + crate::text::dec(die) + "_"@ + ("MCPU"@ + more),
        ) == RouteTag::ClusterEorM,
{
    reveal_strlit("PCPU");
    reveal_strlit("ECPU");
    reveal_strlit("MCPU");
    let (p, e, m) = ("PCPU"@ + more, "ECPU"@ + more, "MCPU"@ + more);
    lemma_begins("PCPU"@, more);
    lemma_begins("ECPU"@, more);
    lemma_begins("MCPU"@, more);
    assert(p[0] == 'P' && e[0] == 'E' && m[0] == 'M');
    if begins(e, "PCPU"@) {
        assert(e.subrange(0, 4)[0] == 'P');
    }
    if begins(m, "PCPU"@) {
        assert(m.subrange(0, 4)[0] == 'P');
    }
    lemma_no_die(p);
    lemma_no_die(e);
    lemma_no_die(m);
    lemma_die(die, p);
    lemma_die(die, e);
    lemma_die(die, m);
}

/// Of the channels of the graphics unit one tells its states, and a channel of another
/// group goes nowhere.
pub proof fn other_channels_go_by_name(name: Seq<char>)
    ensures
        route_of(ChannelGroup::GpuStats, name) == if name == "GPUPH"@ {
            RouteTag::GpuStates
        } else {
            RouteTag::Skip
        },
        route_of(ChannelGroup::Other, name) == RouteTag::Skip,
{
}

// ── Residency ────────────────────────────────────────────────────────────────

/// Names and ticks of P-states.
pub open spec fn residencies(v: Seq<StateResidency>) -> Seq<(Seq<char>, nat)> {
    v.map_values(|s: StateResidency| (s.name@, s.ticks as nat))
}

/// The same states with no ticks.
pub open spec fn zeroed(v: Seq<(Seq<char>, nat)>) -> Seq<(Seq<char>, nat)> {
    v.map_values(|p: (Seq<char>, nat)| (p.0, 0nat))
}

/// `acc` with the ticks of `src` added state by state; `src` itself where the
/// number of states differs.
pub open spec fn with_ticks(acc: Seq<(Seq<char>, nat)>, src: Seq<(Seq<char>, nat)>) -> Seq<
    (Seq<char>, nat),
> {
    if acc.len() != src.len() {
        src
    } else {
        Seq::new(acc.len(), |i: int| (acc[i].0, acc[i].1 + src[i].1))
    }
}

/// Zeroes every tick counter; the names stay.
pub fn reset_ticks(accum: &mut Vec<StateResidency>)
    ensures
        residencies(final(accum)@) == zeroed(residencies(old(accum)@)),
{
    let ghost before = accum@;
    let mut i: usize = 0;
    while i < accum.len()
        invariant
            i <= accum@.len(),
            accum@.len() == before.len(),
            forall|k: int| 0 <= k < accum@.len() ==> (#[trigger] accum@[k]).name == before[k].name,
            forall|k: int| 0 <= k < i ==> (#[trigger] accum@[k]).ticks == 0,
        decreases accum.len() - i,
    {
        accum[i].ticks = 0;
        i += 1;
    }
    assert(residencies(accum@) =~= zeroed(residencies(before)));
}

fn copy_states(src: &Vec<StateResidency>) -> (r: Vec<StateResidency>)
    ensures
        residencies(r@) == residencies(src@),
{
    let mut r: Vec<StateResidency> = Vec::new();
    let mut i: usize = 0;
    while i < src.len()
        invariant
            i <= src.len(),
            r@.len() == i,
            forall|k: int|
                0 <= k < i ==> (#[trigger] r@[k]).name@ == src@[k].name@ && r@[k].ticks
                    == src@[k].ticks,
        decreases src.len() - i,
    {
        r.push(StateResidency { name: src[i].name.clone(), ticks: src[i].ticks });
        i += 1;
    }
    assert(residencies(r@) =~= residencies(src@));
    r
}

/// Adds the ticks of `src` to `accum` state by state. Where the number of states
/// differs, as at first, `src` is taken over.
pub fn add_ticks(accum: &mut Vec<StateResidency>, src: &Vec<StateResidency>)
    requires
        old(accum)@.len() == src@.len() ==> forall|i: int|
            0 <= i < src@.len() ==> (#[trigger] old(accum)@[i]).ticks + src@[i].ticks <= u64::MAX,
    ensures
        residencies(final(accum)@) == with_ticks(residencies(old(accum)@), residencies(src@)),
{
    let ghost before = accum@;
    if accum.len() != src.len() {
        *accum = copy_states(src);
        return;
    }
    let mut i: usize = 0;
    while i < src.len()
        invariant
            i <= src.len(),
            accum@.len() == src@.len(),
            before.len() == src@.len(),
            forall|k: int|
                0 <= k < src@.len() ==> (#[trigger] before[k]).ticks + src@[k].ticks <= u64::MAX,
            forall|k: int| 0 <= k < accum@.len() ==> (#[trigger] accum@[k]).name == before[k].name,
            forall|k: int|
                0 <= k < i ==> (#[trigger] accum@[k]).ticks == before[k].ticks + src@[k].ticks,
            forall|k: int| i <= k < accum@.len() ==> (#[trigger] accum@[k]).ticks == before[k].ticks,
        decreases src.len() - i,
    {
        assert(before[i as int].ticks + src@[i as int].ticks <= u64::MAX);
        let sum: u64 = accum[i].ticks + src[i].ticks;
        accum[i].ticks = sum;
        i += 1;
    }
    assert(residencies(accum@) =~= with_ticks(residencies(before), residencies(src@)));
}

// ── Utilization ──────────────────────────────────────────────────────────────

/// Whether a P-state name stands for an idle or off condition.
pub open spec fn idle(name: Seq<char>) -> bool {
    name == "IDLE"@ || name == "DOWN"@ || name == "OFF"@ || name == "SWOFF"@
}

/// Returns `true` for P-state names that stand for idle or off conditions.
pub fn is_idle_state(name: &str) -> (r: bool)
    ensures
        r == idle(name@),
{
    same(name, "IDLE") || same(name, "DOWN") || same(name, "OFF") || same(name, "SWOFF")
}

/// Ticks in all states together.
pub open spec fn total_ticks(v: Seq<(Seq<char>, nat)>) -> nat
    decreases v.len(),
{
    if v.len() == 0 {
        0
    } else {
        total_ticks(v.drop_last()) + v.last().1
    }
}

/// The ticks of the states that are not idle, in order.
pub open spec fn active(v: Seq<(Seq<char>, nat)>) -> Seq<nat>
    decreases v.len(),
{
    if v.len() == 0 {
        Seq::empty()
    } else if idle(v.last().0) {
        active(v.drop_last())
    } else {
        active(v.drop_last()).push(v.last().1)
    }
}

/// The sum of a sequence.
pub open spec fn sum(v: Seq<nat>) -> nat
    decreases v.len(),
{
    if v.len() == 0 {
        0
    } else {
        sum(v.drop_last()) + v.last()
    }
}

/// The ticks of active states whose frequency is known, each times it.
pub open spec fn weighted(ticks: Seq<nat>, freqs: Seq<u32>) -> nat
    decreases ticks.len(),
{
    if ticks.len() == 0 {
        0
    } else if ticks.len() <= freqs.len() {
        weighted(ticks.drop_last(), freqs) + ticks.last() * freqs[ticks.len() - 1] as nat
    } else {
        weighted(ticks.drop_last(), freqs)
    }
}

/// The ticks of active states whose frequency is known.
pub open spec fn covered(ticks: Seq<nat>, freqs: Seq<u32>) -> nat
    decreases ticks.len(),
{
    if ticks.len() == 0 {
        0
    } else if ticks.len() <= freqs.len() {
        covered(ticks.drop_last(), freqs) + ticks.last()
    } else {
        covered(ticks.drop_last(), freqs)
    }
}

/// The average frequency, weighted by ticks and rounded down; zero if no active
/// state of known frequency has ticks.
pub open spec fn average_freq(v: Seq<(Seq<char>, nat)>, freqs: Seq<u32>) -> nat {
    let c = covered(active(v), freqs);
    if c > 0 {
        weighted(active(v), freqs) / c
    } else {
        0
    }
}

/// A fraction between zero and one.
#[derive(Debug, Clone, Copy, PartialEq, Eq, Structural)]
pub struct Ratio {
    pub part: u64,
    pub whole: u64,
}

impl Ratio {
    /// The part is no more than the whole.
    pub open spec fn wf(self) -> bool {
        self.part <= self.whole && self.whole > 0
    }
}

/// The active fraction of all ticks; zero where there are none.
pub open spec fn utilization(v: Seq<(Seq<char>, nat)>) -> Ratio {
    if sum(active(v)) == 0 {
        Ratio { part: 0, whole: 1 }
    } else {
        Ratio { part: sum(active(v)) as u64, whole: total_ticks(v) as u64 }
    }
}

proof fn lemma_active_le_total(v: Seq<(Seq<char>, nat)>, freqs: Seq<u32>)
    ensures
        covered(active(v), freqs) <= sum(active(v)) <= total_ticks(v),
        weighted(active(v), freqs) <= covered(active(v), freqs) * 0xffff_ffff,
        active(v).len() <= v.len(),
    decreases v.len(),
{
    if v.len() > 0 {
        lemma_active_le_total(v.drop_last(), freqs);
        if !idle(v.last().0) {
            let a = active(v);
            assert(a.drop_last() == active(v.drop_last()));
            if a.len() <= freqs.len() {
                let t = a.last();
                let f = freqs[a.len() - 1];
                assert(t * f as nat <= t * 0xffff_ffff) by (nonlinear_arith)
                    requires
                        f <= 0xffff_ffff,
                        t >= 0,
                ;
            }
        }
    }
}

proof fn lemma_total_prefix(v: Seq<(Seq<char>, nat)>, i: int)
    requires
        0 <= i <= v.len(),
    ensures
        total_ticks(v.take(i)) <= total_ticks(v),
    decreases v.len() - i,
{
    if i < v.len() {
        lemma_total_prefix(v, i + 1);
        assert(v.take(i + 1).drop_last() == v.take(i));
    } else {
        assert(v.take(i) == v);
    }
}

/// Average frequency in MHz, weighted by residency, and utilization from P-state
/// residency. `freqs` holds the frequencies of the active states in order; active
/// states beyond it count for the utilization only.
pub fn calc_utilization(states: &[StateResidency], freqs: &[u32]) -> (r: (u32, Ratio))
    requires
        total_ticks(residencies(states@)) <= u64::MAX,
    ensures
        r.0 == (if sum(active(residencies(states@))) == 0 {
            0
        } else {
            average_freq(residencies(states@), freqs@)
        }),
        r.1 == utilization(residencies(states@)),
        r.1.wf(),
{
    let ghost v = residencies(states@);
    let mut total: u64 = 0;
    let mut act: u64 = 0;
    let mut weight: u128 = 0;
    let mut cover: u64 = 0;
    let mut idx: usize = 0;
    let mut i: usize = 0;
    while i < states.len()
        invariant
            v == residencies(states@),
            i <= states.len(),
            total_ticks(v) <= u64::MAX,
            total == total_ticks(v.take(i as int)),
            act == sum(active(v.take(i as int))),
            weight == weighted(active(v.take(i as int)), freqs@),
            cover == covered(active(v.take(i as int)), freqs@),
            idx == active(v.take(i as int)).len(),
            idx <= i,
        decreases states.len() - i,
    {
        let s: &StateResidency = &states[i];
        proof {
            let w = v.take(i + 1);
            assert(w.drop_last() == v.take(i as int));
            assert(w.last() == (s.name@, s.ticks as nat));
            lemma_total_prefix(v, i + 1);
            lemma_active_le_total(w, freqs@);
            lemma_active_le_total(v.take(i as int), freqs@);
            if !idle(s.name@) {
                assert(active(w).drop_last() == active(v.take(i as int)));
                assert(active(w).last() == s.ticks as nat);
            }
            assert(covered(active(w), freqs@) * 0xffff_ffff <= 0xffff_ffff_ffff_ffff * 0xffff_ffff)
                by (nonlinear_arith)
                requires
                    covered(active(w), freqs@) <= 0xffff_ffff_ffff_ffff,
            ;
        }
        total += s.ticks;
        if !is_idle_state(&s.name) {
            act += s.ticks;
            if idx < freqs.len() {
                let f: u32 = freqs[idx];
                proof {
                    assert(s.ticks * f == f * s.ticks) by (nonlinear_arith);
                    assert(0 <= f * s.ticks <= 0xffff_ffff * 0xffff_ffff_ffff_ffff) by (nonlinear_arith)
                        requires
                            0 <= f <= 0xffff_ffff,
                            0 <= s.ticks <= 0xffff_ffff_ffff_ffff,
                    ;
                }
                weight += (f as u128) * (s.ticks as u128);
                cover += s.ticks;
            }
            idx += 1;
        }
        i += 1;
    }
    proof {
        assert(v.take(i as int) == v);
        lemma_active_le_total(v, freqs@);
    }
    if act == 0 {
        return (0, Ratio { part: 0, whole: 1 });
    }
    let avg: u32 = if cover > 0 {
        proof {
            let c = cover as int;
            let w = weight as int;
            assert(w / c <= 0xffff_ffff) by (nonlinear_arith)
                requires
                    c > 0,
                    0 <= w <= c * 0xffff_ffff,
            ;
        }
        (weight / (cover as u128)) as u32
    } else {
        0
    };
    (avg, Ratio { part: act, whole: total })
}

/// The average frequency lies between the least and the greatest frequency of
/// the table.
pub proof fn average_is_between(v: Seq<(Seq<char>, nat)>, freqs: Seq<u32>, low: u32, high: u32)
    requires
        forall|k: int| 0 <= k < freqs.len() ==> low <= #[trigger] freqs[k] <= high,
        covered(active(v), freqs) > 0,
    ensures
        low <= average_freq(v, freqs) <= high,
{
    lemma_weighted_between(active(v), freqs, low, high);
    let c = covered(active(v), freqs) as int;
    let w = weighted(active(v), freqs) as int;
    assert(low <= w / c <= high) by (nonlinear_arith)
        requires
            c > 0,
            c * low <= w <= c * high,
            0 <= low,
    ;
}

proof fn lemma_weighted_between(ticks: Seq<nat>, freqs: Seq<u32>, low: u32, high: u32)
    requires
        forall|k: int| 0 <= k < freqs.len() ==> low <= #[trigger] freqs[k] <= high,
    ensures
        covered(ticks, freqs) * low <= weighted(ticks, freqs) <= covered(ticks, freqs) * high,
    decreases ticks.len(),
{
    if ticks.len() > 0 {
        lemma_weighted_between(ticks.drop_last(), freqs, low, high);
        if ticks.len() <= freqs.len() {
            let t = ticks.last();
            let f = freqs[ticks.len() - 1] as nat;
            let c = covered(ticks.drop_last(), freqs);
            assert(low <= freqs[ticks.len() - 1] <= high);
            assert(t * low <= t * f <= t * high) by (nonlinear_arith)
                requires
                    low <= f <= high,
                    t >= 0,
            ;
            assert((c + t) * low == c * low + t * low) by (nonlinear_arith);
            assert((c + t) * high == c * high + t * high) by (nonlinear_arith);
        }
    } else {
        assert(0 * low == 0 && 0 * high == 0) by (nonlinear_arith);
    }
}

/// More than no utilization means that some state that is not idle has ticks.
pub proof fn idle_states_do_not_count(v: Seq<(Seq<char>, nat)>)
    requires
        forall|k: int| 0 <= k < v.len() ==> idle((#[trigger] v[k]).0) || v[k].1 == 0,
    ensures
        utilization(v) == (Ratio { part: 0, whole: 1 }),
{
    lemma_idle_sum(v);
}

proof fn lemma_idle_sum(v: Seq<(Seq<char>, nat)>)
    requires
        forall|k: int| 0 <= k < v.len() ==> idle((#[trigger] v[k]).0) || v[k].1 == 0,
    ensures
        sum(active(v)) == 0,
    decreases v.len(),
{
    if v.len() > 0 {
        assert forall|k: int| 0 <= k < v.drop_last().len() implies idle((#[trigger] v.drop_last()[k]).0)
            || v.drop_last()[k].1 == 0 by {
            assert(v.drop_last()[k] == v[k]);
        }
        lemma_idle_sum(v.drop_last());
        assert(idle(v[v.len() - 1].0) || v[v.len() - 1].1 == 0);
        if !idle(v.last().0) {
            assert(active(v).drop_last() == active(v.drop_last()));
        }
    }
}

/// How many of the first `k` states are not idle, by their names.
pub open spec fn active_before(v: Seq<(Seq<char>, nat)>, k: int) -> nat {
    v.take(k).filter(|s: (Seq<char>, nat)| !idle(s.0)).len()
}

proof fn lemma_active_before(v: Seq<(Seq<char>, nat)>)
    ensures
        active(v).len() == active_before(v, v.len() as int),
    decreases v.len(),
{
    reveal(Seq::filter);
    assert(v.take(v.len() as int) == v);
    if v.len() > 0 {
        let w = v.drop_last();
        assert(w.take(w.len() as int) == w);
        lemma_active_before(w);
    }
}

/// The names that stand for an idle or off condition are these four, and no other.
pub proof fn idle_names(name: Seq<char>)
    ensures
        idle("IDLE"@) && idle("DOWN"@) && idle("OFF"@) && idle("SWOFF"@),
        idle(name) ==> name == "IDLE"@ || name == "DOWN"@ || name == "OFF"@ || name == "SWOFF"@,
{
}

/// A further state counts at its place: the place of its name among those that are not
/// idle, whatever ticks the others have. An idle one counts in no average and for the
/// whole of the ticks only; an active one adds its ticks, and as many times the
/// frequency at its place where the table has one.
pub proof fn states_count_at_their_place(
    v: Seq<(Seq<char>, nat)>,
    name: Seq<char>,
    ticks: nat,
    freqs: Seq<u32>,
)
    ensures
        ({
            let w = v.push((name, ticks));
            let j = active_before(v, v.len() as int);
            &&& total_ticks(w) == total_ticks(v) + ticks
            &&& sum(active(w)) == sum(active(v)) + if idle(name) {
                0
            } else {
                ticks
            }
            &&& if !idle(name) && j < freqs.len() {
                &&& weighted(active(w), freqs) == weighted(active(v), freqs) + ticks
                    * freqs[j as int] as nat
                &&& covered(active(w), freqs) == covered(active(v), freqs) + ticks
            } else {
                &&& weighted(active(w), freqs) == weighted(active(v), freqs)
                &&& covered(active(w), freqs) == covered(active(v), freqs)
            }
        }),
        total_ticks(Seq::empty()) == 0,
        sum(active(Seq::empty())) == 0,
        weighted(active(Seq::empty()), freqs) == 0,
        covered(active(Seq::empty()), freqs) == 0,
{
    let w = v.push((name, ticks));
    assert(w.drop_last() == v);
    lemma_active_before(v);
    if !idle(name) {
        assert(active(w).drop_last() == active(v));
    }
}

/// Channels of one cluster add up state by state: no tick is lost or counted twice, and
/// the names stay. Where the number of states differs those of the newer channel stand.
pub proof fn ticks_add_up(a: Seq<(Seq<char>, nat)>, b: Seq<(Seq<char>, nat)>)
    ensures
        a.len() == b.len() ==> total_ticks(with_ticks(a, b)) == total_ticks(a) + total_ticks(b),
        a.len() == b.len() ==> with_ticks(a, b).len() == a.len() && forall|i: int|
            0 <= i < a.len() ==> (#[trigger] with_ticks(a, b)[i]).0 == a[i].0 && with_ticks(
                a,
                b,
            )[i].1 == a[i].1 + b[i].1,
        a.len() != b.len() ==> with_ticks(a, b) == b,
        total_ticks(zeroed(a)) == 0,
        zeroed(a).len() == a.len(),
        forall|i: int| 0 <= i < a.len() ==> (#[trigger] zeroed(a)[i]).0 == a[i].0,
    decreases a.len(),
{
    if a.len() > 0 {
        assert(zeroed(a).drop_last() =~= zeroed(a.drop_last()));
        if a.len() == b.len() {
            ticks_add_up(a.drop_last(), b.drop_last());
            assert(with_ticks(a, b).drop_last() =~= with_ticks(a.drop_last(), b.drop_last()));
        } else {
            ticks_add_up(a.drop_last(), b);
        }
    }
}

/// A cluster that spent its active time in one state runs at the frequency at that
/// state's place in the table: as many states that are not idle stand before it, with
/// ticks or without. It is active for these ticks, of all there are.
pub proof fn one_busy_state_gives_its_frequency(
    v: Seq<(Seq<char>, nat)>,
    freqs: Seq<u32>,
    k: int,
)
    requires
        0 <= k < v.len(),
        !idle(v[k].0),
        0 < v[k].1,
        forall|i: int| 0 <= i < v.len() && i != k ==> idle((#[trigger] v[i]).0) || v[i].1 == 0,
        total_ticks(v) <= u64::MAX,
    ensures
        active_before(v, k) < freqs.len() ==> average_freq(v, freqs) == freqs[active_before(
            v,
            k,
        ) as int],
        active_before(v, k) >= freqs.len() ==> average_freq(v, freqs) == 0,
        utilization(v) == (Ratio { part: v[k].1 as u64, whole: total_ticks(v) as u64 }),
{
    let j = active_before(v, k);
    let t = v[k].1;
    let f = if j < freqs.len() {
        freqs[j as int] as nat
    } else {
        0
    };
    lemma_one_busy_state(v, freqs, k, v.len() as int);
    lemma_active_le_total(v, freqs);
    assert(v.take(v.len() as int) == v);
    if j < freqs.len() {
        assert((t * f) / t == f) by (nonlinear_arith)
            requires
                t > 0,
        ;
    }
}

proof fn lemma_one_busy_state(v: Seq<(Seq<char>, nat)>, freqs: Seq<u32>, k: int, n: int)
    requires
        0 <= k < v.len(),
        0 <= n <= v.len(),
        !idle(v[k].0),
        forall|i: int| 0 <= i < v.len() && i != k ==> idle((#[trigger] v[i]).0) || v[i].1 == 0,
    ensures
        ({
            let j = active_before(v, k);
            let a = active(v.take(n));
            &&& sum(a) == if n > k {
                v[k].1
            } else {
                0
            }
            &&& covered(a, freqs) == if n > k && j < freqs.len() {
                v[k].1
            } else {
                0
            }
            &&& weighted(a, freqs) == if n > k && j < freqs.len() {
                v[k].1 * freqs[j as int] as nat
            } else {
                0
            }
        }),
    decreases n,
{
    if n > 0 {
        let before = v.take(n - 1);
        lemma_one_busy_state(v, freqs, k, n - 1);
        states_count_at_their_place(before, v[n - 1].0, v[n - 1].1, freqs);
        assert(v.take(n) == before.push((v[n - 1].0, v[n - 1].1)));
        assert(before.take(before.len() as int) == v.take(n - 1));
        let m = active_before(before, before.len() as int);
        if m < freqs.len() {
            assert(0 * freqs[m as int] as nat == 0) by (nonlinear_arith);
        }
        assert(n - 1 != k ==> idle(v[n - 1].0) || v[n - 1].1 == 0);
    } else {
        states_count_at_their_place(v.take(0), v[0].0, 0, freqs);
        assert(v.take(0) == Seq::<(Seq<char>, nat)>::empty());
    }
}

// ── Sub-samples ──────────────────────────────────────────────────────────────

/// An energy count on its way to a component.
#[derive(Debug, Clone, Copy, PartialEq, Eq, Structural)]
pub struct EnergyHit {
    pub tag: RouteTag,
    pub raw: i64,
    pub unit: EnergyUnit,
}

/// Index of a unit in a table of scales: milli, micro, nano.
pub fn unit_index(u: EnergyUnit) -> (r: usize)
    ensures
        r < 3,
        u.per_joule() == (if r == 0 { 1_000nat } else if r == 1 { 1_000_000nat } else { 1_000_000_000nat }),
{
    match u {
        EnergyUnit::MilliJoule => 0,
        EnergyUnit::MicroJoule => 1,
        EnergyUnit::NanoJoule => 2,
    }
}

/// What one sub-sample yields: the energy counts, and the frequency and
/// utilization of each cluster that has P-states.
pub struct SubSample {
    pub energy: Vec<EnergyHit>,
    pub ecpu: Option<(u32, Ratio)>,
    pub pcpu: Option<(u32, Ratio)>,
    pub gpu: Option<(u32, Ratio)>,
}

/// Whether a channel counts energy.
pub open spec fn is_energy(tag: RouteTag) -> bool {
    tag == RouteTag::EnergyGpu || tag == RouteTag::EnergyCpu || tag == RouteTag::EnergyAne || tag
        == RouteTag::EnergyDram
}

/// The energy counts of the first `n` channels, with where they go.
pub open spec fn energy_hits(channels: Seq<ChannelSample>, routing: Seq<RouteTag>, n: int) -> Seq<
    EnergyHit,
>
    decreases n,
{
    if n <= 0 {
        Seq::empty()
    } else {
        let before = energy_hits(channels, routing, n - 1);
        match channels[n - 1].kind {
            ChannelKind::Energy(raw) => if is_energy(routing[n - 1]) {
                before.push(EnergyHit { tag: routing[n - 1], raw, unit: channels[n - 1].unit })
            } else {
                before
            },
            ChannelKind::States(_) => before,
        }
    }
}

/// The residency that the first `n` channels bring to the cluster `want`,
/// starting from `start`.
pub open spec fn gathered(
    channels: Seq<ChannelSample>,
    routing: Seq<RouteTag>,
    want: RouteTag,
    start: Seq<(Seq<char>, nat)>,
    n: int,
) -> Seq<(Seq<char>, nat)>
    decreases n,
{
    if n <= 0 {
        start
    } else {
        let before = gathered(channels, routing, want, start, n - 1);
        match channels[n - 1].kind {
            ChannelKind::States(states) => if routing[n - 1] == want {
                with_ticks(before, residencies(states@))
            } else {
                before
            },
            ChannelKind::Energy(_) => before,
        }
    }
}

/// Number of channels that have a route.
pub open spec fn routed(channels: Seq<ChannelSample>, routing: Seq<RouteTag>) -> int {
    if channels.len() <= routing.len() {
        channels.len() as int
    } else {
        routing.len() as int
    }
}

/// Frequency and utilization of a cluster, if it has P-states.
pub open spec fn reading_of(v: Seq<(Seq<char>, nat)>, freqs: Seq<u32>) -> Option<(u32, Ratio)> {
    if v.len() == 0 {
        None
    } else if sum(active(v)) == 0 {
        Some((0, utilization(v)))
    } else {
        Some((average_freq(v, freqs) as u32, utilization(v)))
    }
}

/// A channel reaches the cluster that it is routed to and no other: its ticks are added
/// there, and a channel of another route, or one that counts energy, changes nothing.
pub proof fn channels_reach_their_cluster(
    channels: Seq<ChannelSample>,
    routing: Seq<RouteTag>,
    want: RouteTag,
    start: Seq<(Seq<char>, nat)>,
    n: int,
)
    requires
        0 <= n,
    ensures
        gathered(channels, routing, want, start, 0) == start,
        channels[n].kind matches ChannelKind::States(states) ==> (routing[n] == want ==> gathered(
            channels,
            routing,
            want,
            start,
            n + 1,
        ) == with_ticks(gathered(channels, routing, want, start, n), residencies(states@))),
        routing[n] != want || channels[n].kind is Energy ==> gathered(
            channels,
            routing,
            want,
            start,
            n + 1,
        ) == gathered(channels, routing, want, start, n),
{
}

/// An energy channel that is routed to a component gives its count, in its own unit, to
/// that component; no other channel gives one.
pub proof fn energy_reaches_its_component(
    channels: Seq<ChannelSample>,
    routing: Seq<RouteTag>,
    n: int,
)
    requires
        0 <= n,
    ensures
        energy_hits(channels, routing, 0).len() == 0,
        ({
            let before = energy_hits(channels, routing, n);
            let after = energy_hits(channels, routing, n + 1);
            let tag = routing[n];
            let energy = tag == RouteTag::EnergyGpu || tag == RouteTag::EnergyCpu || tag
                == RouteTag::EnergyAne || tag == RouteTag::EnergyDram;
            &&& channels[n].kind matches ChannelKind::Energy(raw) ==> (energy ==> after
                == before.push(EnergyHit { tag, raw, unit: channels[n].unit }))
            &&& !energy || channels[n].kind is States ==> after == before
        }),
{
}

/// A cluster without states has no reading; one that was idle throughout runs at no
/// frequency and is not used; else its reading is its average frequency and the part of
/// its ticks that were active.
pub proof fn readings_tell_the_cluster(v: Seq<(Seq<char>, nat)>, freqs: Seq<u32>)
    requires
        total_ticks(v) <= u64::MAX,
    ensures
        reading_of(v, freqs) is None <==> v.len() == 0,
        v.len() > 0 && sum(active(v)) == 0 ==> reading_of(v, freqs) == Some(
            (0u32, (Ratio { part: 0, whole: 1 })),
        ),
        sum(active(v)) > 0 ==> (reading_of(v, freqs) matches Some((mhz, used)) && mhz
            == average_freq(v, freqs) && used.part == sum(active(v)) && used.whole == total_ticks(
            v,
        )),
        covered(active(v), freqs) > 0 ==> average_freq(v, freqs) * covered(active(v), freqs)
            <= weighted(active(v), freqs) < (average_freq(v, freqs) + 1) * covered(
            active(v),
            freqs,
        ),
{
    lemma_active_le_total(v, freqs);
    let c = covered(active(v), freqs) as int;
    let w = weighted(active(v), freqs) as int;
    if c > 0 {
        assert(w / c * c <= w < (w / c + 1) * c && w / c <= 0xffff_ffff) by (nonlinear_arith)
            requires
                c > 0,
                0 <= w <= c * 0xffff_ffff,
        ;
    }
}

/// Whether no tick sum of the cluster `want` overflows on the way.
pub open spec fn sums_fit(
    channels: Seq<ChannelSample>,
    routing: Seq<RouteTag>,
    want: RouteTag,
    start: Seq<(Seq<char>, nat)>,
) -> bool {
    forall|n: int|
        0 <= n <= routed(channels, routing) ==> total_ticks(
            #[trigger] gathered(channels, routing, want, start, n),
        ) <= u64::MAX
}

proof fn lemma_tick_le_total(v: Seq<(Seq<char>, nat)>, i: int)
    requires
        0 <= i < v.len(),
    ensures
        v[i].1 <= total_ticks(v),
    decreases v.len(),
{
    if i < v.len() - 1 {
        lemma_tick_le_total(v.drop_last(), i);
        assert(v.drop_last()[i] == v[i]);
    }
}

fn gather(scratch: &mut Vec<StateResidency>, states: &Vec<StateResidency>)
    requires
        total_ticks(with_ticks(residencies(old(scratch)@), residencies(states@))) <= u64::MAX,
    ensures
        residencies(final(scratch)@) == with_ticks(
            residencies(old(scratch)@),
            residencies(states@),
        ),
{
    proof {
        let a = residencies(scratch@);
        let b = residencies(states@);
        if scratch@.len() == states@.len() {
            assert forall|i: int| 0 <= i < states@.len() implies (#[trigger] scratch@[i]).ticks
                + states@[i].ticks <= u64::MAX by {
                lemma_tick_le_total(with_ticks(a, b), i);
                assert(with_ticks(a, b)[i].1 == a[i].1 + b[i].1);
            }
        }
    }
    add_ticks(scratch, states);
}

fn cluster_reading(scratch: &Vec<StateResidency>, freqs: &Vec<u32>) -> (r: Option<(u32, Ratio)>)
    requires
        total_ticks(residencies(scratch@)) <= u64::MAX,
    ensures
        r == reading_of(residencies(scratch@), freqs@),
        r matches Some(p) ==> p.1.wf(),
{
    assert(residencies(scratch@).len() == scratch@.len());
    if scratch.len() == 0 {
        None
    } else {
        Some(calc_utilization(scratch.as_slice(), freqs.as_slice()))
    }
}

/// Routes one sub-sample: energy channels to the counts, and residency into the
/// cluster buffers, which start from zero ticks. If no time has passed since the
/// last sub-sample (`live` is false), nothing is routed and nothing comes out.
pub fn process_sub_sample(
    channels: &Vec<ChannelSample>,
    routing: &Vec<RouteTag>,
    live: bool,
    ecpu_scratch: &mut Vec<StateResidency>,
    pcpu_scratch: &mut Vec<StateResidency>,
    gpu_scratch: &mut Vec<StateResidency>,
    ecpu_freqs: &Vec<u32>,
    pcpu_freqs: &Vec<u32>,
    gpu_freqs: &Vec<u32>,
) -> (r: SubSample)
    requires
        live ==> {
            &&& sums_fit(
                channels@,
                routing@,
                RouteTag::ClusterEorM,
                zeroed(residencies(old(ecpu_scratch)@)),
            )
            &&& sums_fit(
                channels@,
                routing@,
                RouteTag::ClusterP,
                zeroed(residencies(old(pcpu_scratch)@)),
            )
            &&& sums_fit(
                channels@,
                routing@,
                RouteTag::GpuStates,
                zeroed(residencies(old(gpu_scratch)@)),
            )
        },
    ensures
        ({
            let n = if live { routed(channels@, routing@) } else { 0 };
            let e = gathered(
                channels@,
                routing@,
                RouteTag::ClusterEorM,
                zeroed(residencies(old(ecpu_scratch)@)),
                n,
            );
            let p = gathered(
                channels@,
                routing@,
                RouteTag::ClusterP,
                zeroed(residencies(old(pcpu_scratch)@)),
                n,
            );
            let g = gathered(
                channels@,
                routing@,
                RouteTag::GpuStates,
                zeroed(residencies(old(gpu_scratch)@)),
                n,
            );
            &&& residencies(final(ecpu_scratch)@) == e
            &&& residencies(final(pcpu_scratch)@) == p
            &&& residencies(final(gpu_scratch)@) == g
            &&& r.energy@ == energy_hits(channels@, routing@, n)
            &&& r.ecpu == (if live { reading_of(e, ecpu_freqs@) } else { None })
            &&& r.pcpu == (if live { reading_of(p, pcpu_freqs@) } else { None })
            &&& r.gpu == (if live { reading_of(g, gpu_freqs@) } else { None })
        }),
        r.ecpu matches Some(x) ==> x.1.wf(),
        r.pcpu matches Some(x) ==> x.1.wf(),
        r.gpu matches Some(x) ==> x.1.wf(),
{
    reset_ticks(ecpu_scratch);
    reset_ticks(pcpu_scratch);
    reset_ticks(gpu_scratch);
    let mut energy: Vec<EnergyHit> = Vec::new();
    if !live {
        return SubSample { energy, ecpu: None, pcpu: None, gpu: None };
    }
    let ghost e0 = residencies(ecpu_scratch@);
    let ghost p0 = residencies(pcpu_scratch@);
    let ghost g0 = residencies(gpu_scratch@);
    let n: usize = if channels.len() <= routing.len() {
        channels.len()
    } else {
        routing.len()
    };
    let mut i: usize = 0;
    while i < n
        invariant
            n == routed(channels@, routing@),
            i <= n,
            n <= channels.len(),
            n <= routing.len(),
            sums_fit(channels@, routing@, RouteTag::ClusterEorM, e0),
            sums_fit(channels@, routing@, RouteTag::ClusterP, p0),
            sums_fit(channels@, routing@, RouteTag::GpuStates, g0),
            energy@ == energy_hits(channels@, routing@, i as int),
            residencies(ecpu_scratch@) == gathered(
                channels@,
                routing@,
                RouteTag::ClusterEorM,
                e0,
                i as int,
            ),
            residencies(pcpu_scratch@) == gathered(
                channels@,
                routing@,
                RouteTag::ClusterP,
                p0,
                i as int,
            ),
            residencies(gpu_scratch@) == gathered(
                channels@,
                routing@,
                RouteTag::GpuStates,
                g0,
                i as int,
            ),
        decreases n - i,
    {
        let tag: RouteTag = routing[i];
        let ch: &ChannelSample = &channels[i];
        assert(total_ticks(gathered(channels@, routing@, RouteTag::ClusterEorM, e0, i + 1))
            <= u64::MAX);
        assert(total_ticks(gathered(channels@, routing@, RouteTag::ClusterP, p0, i + 1))
            <= u64::MAX);
        assert(total_ticks(gathered(channels@, routing@, RouteTag::GpuStates, g0, i + 1))
            <= u64::MAX);
        match &ch.kind {
            ChannelKind::Energy(raw) => {
                match tag {
                    RouteTag::EnergyGpu
                    | RouteTag::EnergyCpu
                    | RouteTag::EnergyAne
                    | RouteTag::EnergyDram => {
                        energy.push(EnergyHit { tag, raw: *raw, unit: ch.unit });
                    },
                    _ => {},
                }
            },
            ChannelKind::States(states) => {
                match tag {
                    RouteTag::ClusterP => {
                        gather(pcpu_scratch, states);
                    },
                    RouteTag::ClusterEorM => {
                        gather(ecpu_scratch, states);
                    },
                    RouteTag::GpuStates => {
                        gather(gpu_scratch, states);
                    },
                    _ => {},
                }
            },
        }
        i += 1;
    }
    let ecpu = cluster_reading(ecpu_scratch, ecpu_freqs);
    let pcpu = cluster_reading(pcpu_scratch, pcpu_freqs);
    let gpu = cluster_reading(gpu_scratch, gpu_freqs);
    SubSample { energy, ecpu, pcpu, gpu }
}

// ── Range of the tick sums ───────────────────────────────────────────────────

/// Ticks of all P-states of the first `n` channels together.
pub open spec fn all_ticks(channels: Seq<ChannelSample>, n: int) -> nat
    decreases n,
{
    if n <= 0 {
        0
    } else {
        all_ticks(channels, n - 1) + (match channels[n - 1].kind {
            ChannelKind::States(states) => total_ticks(residencies(states@)),
            ChannelKind::Energy(_) => 0,
        })
    }
}

proof fn lemma_zeroed_total(v: Seq<(Seq<char>, nat)>)
    ensures
        total_ticks(zeroed(v)) == 0,
    decreases v.len(),
{
    if v.len() > 0 {
        lemma_zeroed_total(v.drop_last());
        assert(zeroed(v).drop_last() == zeroed(v.drop_last()));
    }
}

proof fn lemma_with_ticks_total(a: Seq<(Seq<char>, nat)>, b: Seq<(Seq<char>, nat)>)
    ensures
        total_ticks(with_ticks(a, b)) <= total_ticks(a) + total_ticks(b),
    decreases a.len(),
{
    if a.len() == b.len() && a.len() > 0 {
        lemma_with_ticks_total(a.drop_last(), b.drop_last());
        assert(with_ticks(a, b).drop_last() == with_ticks(a.drop_last(), b.drop_last()));
    }
}

proof fn lemma_gathered_total(
    channels: Seq<ChannelSample>,
    routing: Seq<RouteTag>,
    want: RouteTag,
    start: Seq<(Seq<char>, nat)>,
    n: int,
)
    requires
        total_ticks(start) == 0,
    ensures
        total_ticks(gathered(channels, routing, want, start, n)) <= all_ticks(channels, n),
    decreases n,
{
    if n > 0 {
        lemma_gathered_total(channels, routing, want, start, n - 1);
        match channels[n - 1].kind {
            ChannelKind::States(states) => {
                lemma_with_ticks_total(
                    gathered(channels, routing, want, start, n - 1),
                    residencies(states@),
                );
            },
            ChannelKind::Energy(_) => {},
        }
    }
}

proof fn lemma_all_ticks_grow(channels: Seq<ChannelSample>, n: int, m: int)
    requires
        n <= m,
    ensures
        all_ticks(channels, n) <= all_ticks(channels, m),
    decreases m - n,
{
    if n < m {
        lemma_all_ticks_grow(channels, n, m - 1);
    }
}

/// If all ticks of a sample together fit, then every sum on the way does.
pub proof fn fitting_ticks_never_overflow(
    channels: Seq<ChannelSample>,
    routing: Seq<RouteTag>,
    want: RouteTag,
    before: Seq<(Seq<char>, nat)>,
)
    requires
        all_ticks(channels, channels.len() as int) <= u64::MAX,
    ensures
        sums_fit(channels, routing, want, zeroed(before)),
{
    lemma_zeroed_total(before);
    assert forall|n: int| 0 <= n <= routed(channels, routing) implies total_ticks(
        #[trigger] gathered(channels, routing, want, zeroed(before), n),
    ) <= u64::MAX by {
        lemma_gathered_total(channels, routing, want, zeroed(before), n);
        lemma_all_ticks_grow(channels, n, channels.len() as int);
    }
}

/// The ticks of `states` added to `sum`, if they fit.
fn add_all(sum: u64, states: &Vec<StateResidency>) -> (r: Option<u64>)
    ensures
        match r {
            Some(t) => t == sum + total_ticks(residencies(states@)),
            None => sum + total_ticks(residencies(states@)) > u64::MAX,
        },
{
    let ghost v = residencies(states@);
    let mut t: u64 = sum;
    let mut i: usize = 0;
    while i < states.len()
        invariant
            v == residencies(states@),
            i <= states.len(),
            t == sum + total_ticks(v.take(i as int)),
        decreases states.len() - i,
    {
        proof {
            assert(v.take(i + 1).drop_last() == v.take(i as int));
            lemma_total_prefix(v, i + 1);
        }
        match t.checked_add(states[i].ticks) {
            Some(next) => {
                t = next;
            },
            None => {
                return None;
            },
        }
        i += 1;
    }
    assert(v.take(i as int) == v);
    Some(t)
}

/// Whether all ticks of a sample together fit.
pub fn ticks_fit(channels: &Vec<ChannelSample>) -> (r: bool)
    ensures
        r == (all_ticks(channels@, channels@.len() as int) <= u64::MAX),
{
    let mut sum: u64 = 0;
    let mut i: usize = 0;
    while i < channels.len()
        invariant
            i <= channels.len(),
            sum == all_ticks(channels@, i as int),
        decreases channels.len() - i,
    {
        proof {
            lemma_all_ticks_grow(channels@, i + 1, channels@.len() as int);
        }
        match &channels[i].kind {
            ChannelKind::States(states) => {
                match add_all(sum, states) {
                    Some(next) => {
                        sum = next;
                    },
                    None => {
                        return false;
                    },
                }
            },
            ChannelKind::Energy(_) => {},
        }
        i += 1;
    }
    true
}

// ── Metrics ──────────────────────────────────────────────────────────────────

/// Utilization of a CPU cluster. `F` is the type of measured quantities.
#[derive(Debug, Clone, Copy, PartialEq)]
pub struct ClusterMetrics<F> {
    /// Weighted average active frequency in MHz.
    pub freq_mhz: u32,
    /// Active fraction of total time.
    pub utilization: F,
}

/// System snapshot averaged over a sampling window. Power is in watts,
/// temperatures in °C and memory in bytes; `F` is the type of measured
/// quantities.
#[derive(Debug, Clone, Copy)]
pub struct Metrics<F> {
    /// Efficiency CPU cluster.
    pub ecpu: ClusterMetrics<F>,
    /// Performance CPU cluster.
    pub pcpu: ClusterMetrics<F>,
    pub gpu_util: F,
    pub gpu_freq_mhz: u32,
    pub cpu_power: F,
    pub gpu_power: F,
    pub ane_power: F,
    pub dram_power: F,
    /// Compute power: CPU, GPU and ANE.
    pub all_power: F,
    /// Full system draw.
    pub sys_power: F,
    pub memory: MemoryInfo,
    pub swap: SwapInfo,
    /// Absent while the sensor is off.
    pub cpu_temp: Option<F>,
    /// Absent while the sensor is off.
    pub gpu_temp: Option<F>,
    /// Current RPM of the fan with the higher duty. Zero without fans.
    pub fan_rpm: u32,
    /// Maximum RPM of that fan. Zero without fans.
    pub fan_max_rpm: u32,
    /// Duration of the sample window in milliseconds.
    pub interval_ms: F,
}

/// Quantities averaged over the sub-samples of a window, and those that are read
/// once at its end.
pub struct Averages<F> {
    pub ecpu_util: F,
    pub pcpu_util: F,
    pub gpu_util: F,
    pub cpu_power: F,
    pub gpu_power: F,
    pub ane_power: F,
    pub dram_power: F,
    pub all_power: F,
    pub sys_power: F,
    pub cpu_temp: Option<F>,
    pub gpu_temp: Option<F>,
    pub interval_ms: F,
}

/// A fan with a known maximum.
#[derive(Debug, Clone, Copy, PartialEq, Eq, Structural)]
pub struct Fan {
    pub rpm: u32,
    pub max_rpm: u32,
}

impl Fan {
    /// The fan's speeds in whole revolutions; nothing for a fan whose greatest speed
    /// is not above zero.
    pub fn of(state: &FanState<Value>) -> (r: Option<Fan>)
        ensures
            r is Some <==> state.max_rpm.positive(),
            r matches Some(f) ==> f.rpm == state.rpm.whole_part() && f.max_rpm
                == state.max_rpm.whole_part(),
    {
        if state.max_rpm.is_positive() {
            Some(Fan { rpm: state.rpm.whole(), max_rpm: state.max_rpm.whole() })
        } else {
            None
        }
    }
}

/// A temperature, unless it is at or below freezing: a sensor of a rail that is off
/// reads as low as that, a chip that runs does not.
pub fn plausible(temp: Option<Value>) -> (r: Option<Value>)
    ensures
        r == match temp {
            Some(t) if t.positive() => Some(t),
            _ => None,
        },
{
    match temp {
        Some(t) => if t.is_positive() {
            Some(t)
        } else {
            None
        },
        None => None,
    }
}

/// The speeds of the fan that is shown: the first if its duty is the higher one,
/// else the last that is present; zeros if there is none.
pub fn pick_fan(first: Option<Fan>, second: Option<Fan>, first_is_higher: bool) -> (r: (u32, u32))
    ensures
        r == match (first, second) {
            (Some(a), Some(b)) => if first_is_higher {
                (a.rpm, a.max_rpm)
            } else {
                (b.rpm, b.max_rpm)
            },
            (Some(a), None) => (a.rpm, a.max_rpm),
            (None, Some(b)) => (b.rpm, b.max_rpm),
            (None, None) => (0, 0),
        },
{
    match (first, second) {
        (Some(a), Some(b)) => if first_is_higher {
            (a.rpm, a.max_rpm)
        } else {
            (b.rpm, b.max_rpm)
        },
        (Some(a), None) => (a.rpm, a.max_rpm),
        (None, Some(b)) => (b.rpm, b.max_rpm),
        (None, None) => (0, 0),
    }
}

/// Frequencies summed over the sub-samples of a window.
#[derive(Debug, Clone, Copy, PartialEq, Eq, Structural)]
pub struct Accum {
    pub ecpu_freq: u64,
    pub pcpu_freq: u64,
    pub gpu_freq: u64,
    /// Number of sub-samples taken in.
    pub taken: u32,
}

/// The frequency of a reading; zero where there is none.
pub open spec fn freq_of(reading: Option<(u32, Ratio)>) -> u32 {
    match reading {
        Some(p) => p.0,
        None => 0,
    }
}

fn freq_or_zero(reading: &Option<(u32, Ratio)>) -> (r: u32)
    ensures
        r == freq_of(*reading),
{
    match reading {
        Some(p) => p.0,
        None => 0,
    }
}

impl Accum {
    /// Whether the sums are those of as many frequencies as were taken in.
    pub open spec fn wf(self) -> bool {
        &&& self.ecpu_freq <= self.taken * 0xffff_ffff
        &&& self.pcpu_freq <= self.taken * 0xffff_ffff
        &&& self.gpu_freq <= self.taken * 0xffff_ffff
    }

    /// Nothing taken in yet.
    pub fn new() -> (r: Self)
        ensures
            r == (Accum { ecpu_freq: 0, pcpu_freq: 0, gpu_freq: 0, taken: 0 }),
            r.wf(),
    {
        Accum { ecpu_freq: 0, pcpu_freq: 0, gpu_freq: 0, taken: 0 }
    }

    /// Takes in a sub-sample.
    pub fn add(&mut self, s: &SubSample)
        requires
            old(self).wf(),
            old(self).taken < u32::MAX,
        ensures
            final(self).wf(),
            final(self).taken == old(self).taken + 1,
            final(self).ecpu_freq == old(self).ecpu_freq + freq_of(s.ecpu),
            final(self).pcpu_freq == old(self).pcpu_freq + freq_of(s.pcpu),
            final(self).gpu_freq == old(self).gpu_freq + freq_of(s.gpu),
    {
        self.ecpu_freq = self.ecpu_freq + freq_or_zero(&s.ecpu) as u64;
        self.pcpu_freq = self.pcpu_freq + freq_or_zero(&s.pcpu) as u64;
        self.gpu_freq = self.gpu_freq + freq_or_zero(&s.gpu) as u64;
        self.taken = self.taken + 1;
    }

    /// The snapshot of the window: frequencies are averaged over the sub-samples,
    /// and memory statistics that could not be read are zero.
    pub fn finish<F>(
        self,
        avg: Averages<F>,
        memory: Option<MemoryInfo>,
        swap: Option<SwapInfo>,
        fan: (u32, u32),
    ) -> (r: Metrics<F>)
        requires
            self.wf(),
            self.taken > 0,
        ensures
            r.ecpu == (ClusterMetrics {
                freq_mhz: (self.ecpu_freq / self.taken as u64) as u32,
                utilization: avg.ecpu_util,
            }),
            r.pcpu == (ClusterMetrics {
                freq_mhz: (self.pcpu_freq / self.taken as u64) as u32,
                utilization: avg.pcpu_util,
            }),
            r.ecpu.freq_mhz == self.ecpu_freq / self.taken as u64,
            r.pcpu.freq_mhz == self.pcpu_freq / self.taken as u64,
            r.gpu_freq_mhz == self.gpu_freq / self.taken as u64,
            r.gpu_util == avg.gpu_util,
            r.cpu_power == avg.cpu_power,
            r.gpu_power == avg.gpu_power,
            r.ane_power == avg.ane_power,
            r.dram_power == avg.dram_power,
            r.all_power == avg.all_power,
            r.sys_power == avg.sys_power,
            r.cpu_temp == avg.cpu_temp,
            r.gpu_temp == avg.gpu_temp,
            r.interval_ms == avg.interval_ms,
            r.memory == (match memory {
                Some(m) => m,
                None => MemoryInfo { total: 0, used: 0, available: 0, wired: 0, compressed: 0 },
            }),
            r.swap == (match swap {
                Some(m) => m,
                None => SwapInfo { total: 0, used: 0, free: 0 },
            }),
            r.fan_rpm == fan.0,
            r.fan_max_rpm == fan.1,
    {
        let n: u64 = self.taken as u64;
        proof {
            lemma_average_fits(self.ecpu_freq as int, n as int);
            lemma_average_fits(self.pcpu_freq as int, n as int);
            lemma_average_fits(self.gpu_freq as int, n as int);
        }
        let memory: MemoryInfo = match memory {
            Some(m) => m,
            None => MemoryInfo::default(),
        };
        let swap: SwapInfo = match swap {
            Some(m) => m,
            None => SwapInfo::default(),
        };
        Metrics {
            ecpu: ClusterMetrics {
                freq_mhz: (self.ecpu_freq / n) as u32,
                utilization: avg.ecpu_util,
            },
            pcpu: ClusterMetrics {
                freq_mhz: (self.pcpu_freq / n) as u32,
                utilization: avg.pcpu_util,
            },
            gpu_util: avg.gpu_util,
            gpu_freq_mhz: (self.gpu_freq / n) as u32,
            cpu_power: avg.cpu_power,
            gpu_power: avg.gpu_power,
            ane_power: avg.ane_power,
            dram_power: avg.dram_power,
            all_power: avg.all_power,
            sys_power: avg.sys_power,
            memory,
            swap,
            cpu_temp: avg.cpu_temp,
            gpu_temp: avg.gpu_temp,
            fan_rpm: fan.0,
            fan_max_rpm: fan.1,
            interval_ms: avg.interval_ms,
        }
    }
}

proof fn lemma_average_fits(sum: int, n: int)
    requires
        n > 0,
        0 <= sum <= n * 0xffff_ffff,
    ensures
        0 <= sum / n <= 0xffff_ffff,
{
    assert(0 <= sum / n <= 0xffff_ffff) by (nonlinear_arith)
        requires
            n > 0,
            0 <= sum <= n * 0xffff_ffff,
    ;
}

// ── Sampler ──────────────────────────────────────────────────────────────────

/// The aggregated sampler: channels, routes, frequency tables and the buffers
/// in which residency is summed up.
pub struct Sampler {
    multi: MultiGroupSampler,
    pub soc: SocInfo,
    ecpu_freqs: Vec<u32>,
    pcpu_freqs: Vec<u32>,
    gpu_freqs: Vec<u32>,
    ecpu_scratch: Vec<StateResidency>,
    pcpu_scratch: Vec<StateResidency>,
    gpu_scratch: Vec<StateResidency>,
    routing: Vec<RouteTag>,
    samples_per_window: usize,
}

/// How long a window lasts: as long as asked, but not less than its sub-samples take
/// at their minimum.
pub open spec fn window_ms(duration_ms: u64, samples: nat) -> nat {
    if duration_ms < samples * MIN_SUB_MS {
        samples * MIN_SUB_MS as nat
    } else {
        duration_ms as nat
    }
}

/// Dwell of the sub-sample that comes after so many: an equal share of the window, in
/// whole milliseconds; the first sub-samples share what is left over, one millisecond
/// each.
pub open spec fn dwell(duration_ms: u64, samples: nat, taken: nat) -> nat {
    let window = window_ms(duration_ms, samples);
    window / samples + if taken < window % samples {
        1nat
    } else {
        0nat
    }
}

/// The share of a sub-sample, by the length that is asked.
proof fn lemma_share(duration_ms: u64, samples: nat)
    requires
        samples > 0,
    ensures
        ({
            let window = window_ms(duration_ms, samples);
            let share = duration_ms as nat / samples;
            &&& samples * (window / samples) + window % samples == window
            &&& window % samples < samples
            &&& if share < MIN_SUB_MS {
                window / samples == MIN_SUB_MS && window % samples == 0
            } else {
                window == duration_ms
            }
            &&& window / samples >= MIN_SUB_MS
            &&& share >= MIN_SUB_MS ==> share + (if window % samples > 0 {
                1int
            } else {
                0int
            }) <= duration_ms
        }),
{
    let d = duration_ms as int;
    let n = samples as int;
    let q = d / n;
    let r = d % n;
    vstd::arithmetic::div_mod::lemma_fundamental_div_mod(d, n);
    assert(0 <= r < n);
    assert(q < 50 ==> n * q + n <= n * 50) by (nonlinear_arith)
        requires
            n > 0,
    ;
    assert(q >= 50 ==> n * q >= n * 50) by (nonlinear_arith)
        requires
            n > 0,
    ;
    assert(q >= 50 && r > 0 ==> n * q >= 2 * q) by (nonlinear_arith)
        requires
            0 <= r < n,
    ;
    assert(q >= 50 ==> n * q >= q) by (nonlinear_arith)
        requires
            n > 0,
    ;
    if q < 50 {
        vstd::arithmetic::div_mod::lemma_fundamental_div_mod_converse(n * 50, n, 50, 0);
    }
}

/// What comes next in measuring a window.
#[derive(Debug, Clone, Copy, PartialEq, Eq, Structural)]
pub enum WindowStep {
    /// Wait for so many milliseconds, then take a sub-sample.
    Dwell(u64),
    /// Read what is read once per window, and finish.
    Finish,
}

/// What comes next in measuring a window after so many sub-samples.
pub open spec fn window_step(duration_ms: u64, samples: nat, taken: nat) -> WindowStep {
    if taken < samples {
        WindowStep::Dwell(dwell(duration_ms, samples, taken) as u64)
    } else {
        WindowStep::Finish
    }
}

/// How many milliseconds a window waits until so many sub-samples were taken.
pub open spec fn waited(duration_ms: u64, samples: nat, taken: nat) -> nat
    decreases taken,
{
    if taken == 0 {
        0
    } else {
        waited(duration_ms, samples, (taken - 1) as nat) + match window_step(
            duration_ms,
            samples,
            (taken - 1) as nat,
        ) {
            WindowStep::Dwell(ms) => ms as nat,
            WindowStep::Finish => 0,
        }
    }
}

/// A window ends after as many sub-samples as it has, not before and not after, and
/// each of them dwells for the minimum at least.
pub proof fn windows_take_their_sub_samples(duration_ms: u64, samples: nat, taken: nat)
    requires
        0 < samples,
        taken <= samples,
    ensures
        window_step(duration_ms, samples, taken) == WindowStep::Finish <==> taken == samples,
        window_step(duration_ms, samples, taken) matches WindowStep::Dwell(ms) ==> ms == dwell(
            duration_ms,
            samples,
            taken,
        ) && ms >= MIN_SUB_MS && ms >= 50,
{
    lemma_share(duration_ms, samples);
}

/// The sub-samples of a window together dwell for as long as it lasts, to the
/// millisecond: for the time that is asked, or for their minimum if that is longer.
pub proof fn dwells_fill_the_window(duration_ms: u64, samples: nat)
    requires
        samples > 0,
    ensures
        waited(duration_ms, samples, samples) == window_ms(duration_ms, samples),
        duration_ms >= 50 * samples ==> waited(duration_ms, samples, samples) == duration_ms,
        duration_ms <= 50 * samples ==> waited(duration_ms, samples, samples) == 50 * samples,
{
    lemma_waited(duration_ms, samples, samples);
    lemma_share(duration_ms, samples);
}

proof fn lemma_waited(duration_ms: u64, samples: nat, taken: nat)
    requires
        0 < samples,
        taken <= samples,
    ensures
        ({
            let window = window_ms(duration_ms, samples);
            waited(duration_ms, samples, taken) == taken * (window / samples) + if taken < window
                % samples {
                taken
            } else {
                window % samples
            }
        }),
    decreases taken,
{
    let share = window_ms(duration_ms, samples) / samples;
    if taken > 0 {
        lemma_waited(duration_ms, samples, (taken - 1) as nat);
        windows_take_their_sub_samples(duration_ms, samples, (taken - 1) as nat);
        assert((taken - 1) * share + share == taken * share) by (nonlinear_arith);
    } else {
        assert(0 * share == 0);
    }
}

/// Frequencies of a level; none if there is no such level.
pub open spec fn freqs_of(level: Option<&crate::soc::PerfLevel>) -> Seq<u32> {
    match level {
        Some(l) => l.freqs_mhz@,
        None => Seq::empty(),
    }
}

fn level_freqs(level: Option<&crate::soc::PerfLevel>) -> (r: Vec<u32>)
    ensures
        r@ == freqs_of(level),
{
    match level {
        Some(l) => crate::soc::copy_words(&l.freqs_mhz),
        None => Vec::new(),
    }
}

impl Sampler {
    /// The channels, as the last difference left them.
    pub closed spec fn channels(&self) -> Seq<ChannelSample> {
        self.multi.samples()
    }

    /// Where each channel goes.
    pub closed spec fn routes(&self) -> Seq<RouteTag> {
        self.routing@
    }

    /// What the system is made of.
    pub closed spec fn config(&self) -> SocInfo {
        self.soc
    }

    /// Frequency tables: efficiency, performance, GPU.
    pub closed spec fn tables(&self) -> (Seq<u32>, Seq<u32>, Seq<u32>) {
        (self.ecpu_freqs@, self.pcpu_freqs@, self.gpu_freqs@)
    }

    /// Residency of the last sub-sample: efficiency, performance, GPU.
    pub closed spec fn buffers(&self) -> (
        Seq<(Seq<char>, nat)>,
        Seq<(Seq<char>, nat)>,
        Seq<(Seq<char>, nat)>,
    ) {
        (
            residencies(self.ecpu_scratch@),
            residencies(self.pcpu_scratch@),
            residencies(self.gpu_scratch@),
        )
    }

    /// The number of sub-samples of a window.
    pub closed spec fn samples(&self) -> nat {
        self.samples_per_window as nat
    }

    /// Every window has a sub-sample.
    pub open spec fn wf(&self) -> bool {
        self.samples() >= 1
    }

    /// A sampler with the default number of sub-samples. See
    /// [`Sampler::with_samples_per_window`].
    pub fn new(multi: Option<MultiGroupSampler>, sensors: bool, soc: SocInfo) -> (r: Option<Self>)
        ensures
            r is Some <==> multi is Some && sensors,
            r matches Some(s) ==> {
                &&& s.wf()
                &&& s.samples() == N_SAMPLES
                &&& s.samples() == 4
                &&& s.config() == soc
                &&& multi matches Some(m) && s.channels() == m.samples()
                &&& s.routes() == Seq::<RouteTag>::empty()
                &&& s.buffers().0.len() == 0 && s.buffers().1.len() == 0 && s.buffers().2.len() == 0
                &&& s.tables().2 == soc.gpu_freqs_mhz@
                &&& soc.perf_levels@.len() == 0 ==> s.tables().0.len() == 0 && s.tables().1.len() == 0
                &&& soc.perf_levels@.len() > 0 ==> s.tables().1 == soc.perf_levels@[0].freqs_mhz@
                    && s.tables().0 == soc.perf_levels@.last().freqs_mhz@
            },
    {
        Self::with_samples_per_window(N_SAMPLES, multi, sensors, soc)
    }

    /// A sampler with the given number of sub-samples per window, at least one.
    /// `None` if the channels could not be subscribed to or the sensors could not
    /// be opened.
    pub fn with_samples_per_window(
        samples: usize,
        multi: Option<MultiGroupSampler>,
        sensors: bool,
        soc: SocInfo,
    ) -> (r: Option<Self>)
        ensures
            r is Some <==> multi is Some && sensors,
            r matches Some(s) ==> {
                &&& s.wf()
                &&& s.samples() == (if samples == 0 { 1 } else { samples as nat })
                &&& s.config() == soc
                &&& multi matches Some(m) && s.channels() == m.samples()
                &&& s.routes() == Seq::<RouteTag>::empty()
                &&& s.buffers().0.len() == 0 && s.buffers().1.len() == 0 && s.buffers().2.len() == 0
                &&& s.tables().2 == soc.gpu_freqs_mhz@
                &&& soc.perf_levels@.len() == 0 ==> s.tables().0.len() == 0 && s.tables().1.len() == 0
                &&& soc.perf_levels@.len() > 0 ==> s.tables().1 == soc.perf_levels@[0].freqs_mhz@
                    && s.tables().0 == soc.perf_levels@.last().freqs_mhz@
            },
    {
        if !sensors {
            return None;
        }
        match multi {
            None => None,
            Some(multi) => {
                let pcpu_freqs = level_freqs(soc.pcpu_level());
                let ecpu_freqs = level_freqs(soc.ecpu_level());
                let gpu_freqs = crate::soc::copy_words(&soc.gpu_freqs_mhz);
                Some(
                    Sampler {
                        multi,
                        soc,
                        ecpu_freqs,
                        pcpu_freqs,
                        gpu_freqs,
                        ecpu_scratch: Vec::new(),
                        pcpu_scratch: Vec::new(),
                        gpu_scratch: Vec::new(),
                        routing: Vec::new(),
                        samples_per_window: if samples == 0 {
                            1
                        } else {
                            samples
                        },
                    },
                )
            },
        }
    }

    /// The configuration of the SoC.
    pub fn soc(&self) -> (r: &SocInfo)
        ensures
            *r == self.config(),
    {
        &self.soc
    }

    /// Number of sub-samples of a window.
    pub fn samples_per_window(&self) -> (r: usize)
        ensures
            r == self.samples(),
    {
        self.samples_per_window
    }

    /// How long the sub-sample of a window dwells that comes after so many, in
    /// milliseconds.
    pub fn sub_window_ms(&self, duration_ms: u64, taken: u32) -> (r: u64)
        requires
            self.wf(),
        ensures
            r == dwell(duration_ms, self.samples(), taken as nat),
    {
        let n: u64 = self.samples_per_window as u64;
        proof {
            lemma_share(duration_ms, self.samples());
        }
        let share: u64 = duration_ms / n;
        if share < MIN_SUB_MS {
            MIN_SUB_MS
        } else if (taken as u64) < duration_ms % n {
            share + 1
        } else {
            share
        }
    }

    /// What comes next in measuring a window of this length after so many
    /// sub-samples.
    pub fn get_metrics(&self, duration_ms: u64, taken: u32) -> (r: WindowStep)
        requires
            self.wf(),
        ensures
            r == window_step(duration_ms, self.samples(), taken as nat),
    {
        if (taken as u64) < self.samples_per_window as u64 {
            WindowStep::Dwell(self.sub_window_ms(duration_ms, taken))
        } else {
            WindowStep::Finish
        }
    }

    /// Takes in the next difference between snapshots. Routes are found anew
    /// where the number of channels changed.
    pub fn refresh(&mut self, delta: &Delta) -> (event: Option<SamplerEvent>)
        ensures
            match *delta {
                Delta::Missing => event == Some(SamplerEvent::NullDelta) && final(self).channels()
                    == old(self).channels(),
                Delta::Unlisted => event is None && final(self).channels() == old(self).channels(),
                Delta::Channels(data) => {
                    &&& final(self).channels().len() == data@.len()
                    &&& if crate::ioreport::schema_drifted(old(self).channels(), data@) {
                        &&& event == Some(
                            SamplerEvent::SchemaChanged {
                                previous: old(self).channels().len() as usize,
                                current: data@.len() as usize,
                            },
                        )
                        &&& forall|i: int|
                            0 <= i < data@.len() ==> crate::ioreport::is_built(
                                #[trigger] final(self).channels()[i],
                                data@[i],
                            )
                    } else {
                        &&& event is None
                        &&& forall|i: int|
                            0 <= i < data@.len() ==> crate::ioreport::is_refreshed(
                                old(self).channels()[i],
                                data@[i],
                                #[trigger] final(self).channels()[i],
                            )
                    }
                },
            },
            final(self).routes().len() == final(self).channels().len(),
            if old(self).routes().len() == final(self).channels().len() {
                final(self).routes() == old(self).routes()
            } else {
                forall|i: int|
                    0 <= i < final(self).channels().len() ==> #[trigger] final(self).routes()[i]
                        == route_of(
                        final(self).channels()[i].group,
                        final(self).channels()[i].channel@,
                    )
            },
            final(self).config() == old(self).config(),
            final(self).tables() == old(self).tables(),
            final(self).buffers() == old(self).buffers(),
            final(self).samples() == old(self).samples(),
    {
        let event = self.multi.sample(delta);
        let channels = self.multi.channels();
        if self.routing.len() != channels.len() {
            let mut routing: Vec<RouteTag> = Vec::new();
            let mut i: usize = 0;
            while i < channels.len()
                invariant
                    i <= channels.len(),
                    routing.len() == i,
                    forall|k: int|
                        0 <= k < i ==> #[trigger] routing@[k] == route_of(
                            channels@[k].group,
                            channels@[k].channel@,
                        ),
                decreases channels.len() - i,
            {
                routing.push(classify_channel(&channels[i]));
                i += 1;
            }
            self.routing = routing;
        }
        event
    }

    /// Whether the tick sums of the current channels fit.
    pub open spec fn fits(&self) -> bool {
        &&& sums_fit(
            self.channels(),
            self.routes(),
            RouteTag::ClusterEorM,
            zeroed(self.buffers().0),
        )
        &&& sums_fit(self.channels(), self.routes(), RouteTag::ClusterP, zeroed(self.buffers().1))
        &&& sums_fit(self.channels(), self.routes(), RouteTag::GpuStates, zeroed(self.buffers().2))
    }

    /// Whether all ticks of the current channels together fit; then every sum of
    /// [`Sampler::sub_sample`] does.
    pub fn can_sum(&self) -> (r: bool)
        ensures
            r == (all_ticks(self.channels(), self.channels().len() as int) <= u64::MAX),
            r ==> self.fits(),
    {
        let r = ticks_fit(self.multi.channels());
        proof {
            if r {
                let c = self.channels();
                let t = self.routes();
                fitting_ticks_never_overflow(c, t, RouteTag::ClusterEorM, self.buffers().0);
                fitting_ticks_never_overflow(c, t, RouteTag::ClusterP, self.buffers().1);
                fitting_ticks_never_overflow(c, t, RouteTag::GpuStates, self.buffers().2);
            }
        }
        r
    }

    /// One sub-sample of the current channels. See [`process_sub_sample`].
    pub fn sub_sample(&mut self, live: bool) -> (r: SubSample)
        requires
            live ==> old(self).fits(),
        ensures
            ({
                let c = old(self).channels();
                let t = old(self).routes();
                let n = if live { routed(c, t) } else { 0 };
                let e = gathered(c, t, RouteTag::ClusterEorM, zeroed(old(self).buffers().0), n);
                let p = gathered(c, t, RouteTag::ClusterP, zeroed(old(self).buffers().1), n);
                let g = gathered(c, t, RouteTag::GpuStates, zeroed(old(self).buffers().2), n);
                &&& final(self).buffers() == (e, p, g)
                &&& r.energy@ == energy_hits(c, t, n)
                &&& r.ecpu == (if live { reading_of(e, old(self).tables().0) } else { None })
                &&& r.pcpu == (if live { reading_of(p, old(self).tables().1) } else { None })
                &&& r.gpu == (if live { reading_of(g, old(self).tables().2) } else { None })
            }),
            r.ecpu matches Some(x) ==> x.1.wf(),
            r.pcpu matches Some(x) ==> x.1.wf(),
            r.gpu matches Some(x) ==> x.1.wf(),
            final(self).channels() == old(self).channels(),
            final(self).routes() == old(self).routes(),
            final(self).tables() == old(self).tables(),
            final(self).config() == old(self).config(),
            final(self).samples() == old(self).samples(),
    {
        process_sub_sample(
            self.multi.channels(),
            &self.routing,
            live,
            &mut self.ecpu_scratch,
            &mut self.pcpu_scratch,
            &mut self.gpu_scratch,
            &self.ecpu_freqs,
            &self.pcpu_freqs,
            &self.gpu_freqs,
        )
    }
}

} // verus!
