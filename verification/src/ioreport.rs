//! Energy and P-state channels: units, groups, and the cached channel schema.
use vstd::prelude::*;

use vstd::utf8::{encode_utf8, encode_utf8_decode_utf8};

use crate::bytes::{bytes_are, decoded};
use crate::bytes::text_or_empty;
use crate::event::SamplerEvent;

verus! {

// ── Units and groups ─────────────────────────────────────────────────────────

/// Unit of an energy channel.
#[derive(Debug, Clone, Copy, PartialEq, Eq, Structural)]
pub enum EnergyUnit {
    /// Millijoules — `"mJ"`. Default when unspecified.
    MilliJoule,
    /// Microjoules — `"uJ"`.
    MicroJoule,
    /// Nanojoules — `"nJ"`.
    NanoJoule,
}

impl Default for EnergyUnit {
    fn default() -> (r: Self)
        ensures
            r == EnergyUnit::MilliJoule,
    {
        EnergyUnit::MilliJoule
    }
}

impl EnergyUnit {
    /// The name that the reporting service uses.
    pub open spec fn name(self) -> Seq<char> {
        match self {
            EnergyUnit::MilliJoule => "mJ"@,
            EnergyUnit::MicroJoule => "uJ"@,
            EnergyUnit::NanoJoule => "nJ"@,
        }
    }

    /// How many of this unit make a joule.
    pub open spec fn per_joule(self) -> nat {
        match self {
            EnergyUnit::MilliJoule => 1_000,
            EnergyUnit::MicroJoule => 1_000_000,
            EnergyUnit::NanoJoule => 1_000_000_000,
        }
    }

    /// How many of this unit make a joule.
    pub fn units_per_joule(self) -> (r: u32)
        ensures
            r == self.per_joule(),
    {
        match self {
            EnergyUnit::MilliJoule => 1_000,
            EnergyUnit::MicroJoule => 1_000_000,
            EnergyUnit::NanoJoule => 1_000_000_000,
        }
    }

    /// Parses a unit label, returning `None` on unknown input.
    pub fn parse(b: &[u8]) -> (r: Option<Self>)
        ensures
            match r {
                Some(u) => b@ == encode_utf8(u.name()),
                None => forall|u: EnergyUnit| b@ != encode_utf8(#[trigger] u.name()),
            },
    {
        if bytes_are(b, "mJ") {
            Some(EnergyUnit::MilliJoule)
        } else if bytes_are(b, "uJ") {
            Some(EnergyUnit::MicroJoule)
        } else if bytes_are(b, "nJ") {
            Some(EnergyUnit::NanoJoule)
        } else {
            None
        }
    }

    /// Lenient parser: unknown input defaults to [`EnergyUnit::MilliJoule`].
    pub fn from_bytes(b: &[u8]) -> (r: Self)
        ensures
            b@ == encode_utf8(r.name()) || (r == EnergyUnit::MilliJoule && forall|u: EnergyUnit|
                b@ != encode_utf8(#[trigger] u.name())),
    {
        match Self::parse(b) {
            Some(u) => u,
            None => EnergyUnit::MilliJoule,
        }
    }

    /// Short label (`"mJ"`, `"uJ"`, `"nJ"`).
    pub fn label(self) -> (r: &'static str)
        ensures
            r@ == self.name(),
    {
        match self {
            EnergyUnit::MilliJoule => "mJ",
            EnergyUnit::MicroJoule => "uJ",
            EnergyUnit::NanoJoule => "nJ",
        }
    }
}

/// Labels are told apart by their encodings.
proof fn lemma_labels_differ(a: Seq<char>, b: Seq<char>)
    requires
        a != b,
    ensures
        encode_utf8(a) != encode_utf8(b),
{
    encode_utf8_decode_utf8(a);
    encode_utf8_decode_utf8(b);
}

/// A unit's label is the label of no other unit.
pub proof fn unit_labels_are_distinct(u: EnergyUnit, v: EnergyUnit)
    ensures
        encode_utf8(u.name()) == encode_utf8(v.name()) ==> u == v,
{
    reveal_strlit("mJ");
    reveal_strlit("uJ");
    reveal_strlit("nJ");
    if u != v {
        assert(u.name()[0] != v.name()[0]);
        lemma_labels_differ(u.name(), v.name());
    }
}

/// Channel group: one of those that the samplers subscribe to.
#[derive(Debug, Clone, Copy, PartialEq, Eq, Structural)]
pub enum ChannelGroup {
    /// `"Energy Model"` — per-component energy counters.
    EnergyModel,
    /// `"CPU Stats"` — CPU core P-state residency.
    CpuStats,
    /// `"GPU Stats"` — GPU P-state residency.
    GpuStats,
    /// Any group not explicitly handled.
    Other,
}

impl Default for ChannelGroup {
    fn default() -> (r: Self)
        ensures
            r == ChannelGroup::Other,
    {
        ChannelGroup::Other
    }
}

impl ChannelGroup {
    /// The name that the reporting service uses.
    pub open spec fn name(self) -> Seq<char> {
        match self {
            ChannelGroup::EnergyModel => "Energy Model"@,
            ChannelGroup::CpuStats => "CPU Stats"@,
            ChannelGroup::GpuStats => "GPU Stats"@,
            ChannelGroup::Other => "Other"@,
        }
    }

    /// The group of the given name.
    pub open spec fn named(b: Seq<u8>) -> ChannelGroup {
        if b == encode_utf8("Energy Model"@) {
            ChannelGroup::EnergyModel
        } else if b == encode_utf8("CPU Stats"@) {
            ChannelGroup::CpuStats
        } else if b == encode_utf8("GPU Stats"@) {
            ChannelGroup::GpuStats
        } else {
            ChannelGroup::Other
        }
    }

    /// The group of the given name.
    pub fn from_bytes(b: &[u8]) -> (r: Self)
        ensures
            r == ChannelGroup::named(b@),
    {
        if bytes_are(b, "Energy Model") {
            ChannelGroup::EnergyModel
        } else if bytes_are(b, "CPU Stats") {
            ChannelGroup::CpuStats
        } else if bytes_are(b, "GPU Stats") {
            ChannelGroup::GpuStats
        } else {
            ChannelGroup::Other
        }
    }

    /// The group's name.
    pub fn label(self) -> (r: &'static str)
        ensures
            r@ == self.name(),
    {
        match self {
            ChannelGroup::EnergyModel => "Energy Model",
            ChannelGroup::CpuStats => "CPU Stats",
            ChannelGroup::GpuStats => "GPU Stats",
            ChannelGroup::Other => "Other",
        }
    }
}

/// A group is found again by its name.
pub proof fn groups_are_named_by_their_labels(g: ChannelGroup)
    ensures
        ChannelGroup::named(encode_utf8(g.name())) == g,
{
    reveal_strlit("Energy Model");
    reveal_strlit("CPU Stats");
    reveal_strlit("GPU Stats");
    reveal_strlit("Other");
    assert("CPU Stats"@[0] != "GPU Stats"@[0]);
    lemma_labels_differ("CPU Stats"@, "GPU Stats"@);
    lemma_labels_differ("CPU Stats"@, "Energy Model"@);
    lemma_labels_differ("GPU Stats"@, "Energy Model"@);
    lemma_labels_differ("Other"@, "Energy Model"@);
    lemma_labels_differ("Other"@, "CPU Stats"@);
    lemma_labels_differ("Other"@, "GPU Stats"@);
}

// ── Samples ──────────────────────────────────────────────────────────────────

/// Residency of one P-state.
#[derive(Debug, Clone, PartialEq, Eq)]
pub struct StateResidency {
    /// State name (e.g. `"IDLE"`, `"V0S0"`).
    pub name: String,
    /// Hardware counter ticks accumulated in this state over the sample window.
    pub ticks: u64,
}

/// Payload of one channel.
#[derive(Debug, Clone)]
pub enum ChannelKind {
    /// Energy counter, in the channel's unit.
    Energy(i64),
    /// P-state residency histogram.
    States(Vec<StateResidency>),
}

/// One channel of a sample. Its group, name, unit and state names stay as they
/// are from sample to sample; energy values and ticks are rewritten.
#[derive(Debug, Clone)]
pub struct ChannelSample {
    pub group: ChannelGroup,
    /// Channel name (e.g. `"ECPU"`, `"PCPU"`, `"GPU"`, `"GPUPH"`).
    pub channel: String,
    /// Unit of an energy value. Irrelevant for state channels.
    pub unit: EnergyUnit,
    pub kind: ChannelKind,
}

/// One P-state as the reporting service gives it.
pub struct StateData {
    pub name: Vec<u8>,
    pub ticks: u64,
}

/// One channel as the reporting service gives it. A channel without states is
/// an energy counter.
pub struct ChannelData {
    pub group: Vec<u8>,
    pub name: Vec<u8>,
    pub unit: Vec<u8>,
    pub value: i64,
    pub states: Vec<StateData>,
}

/// Whether `u` is the unit that a label names; an unknown label names
/// millijoules.
pub open spec fn is_unit_of(u: EnergyUnit, label: Seq<u8>) -> bool {
    label == encode_utf8(u.name()) || (u == EnergyUnit::MilliJoule && forall|v: EnergyUnit|
        label != encode_utf8(#[trigger] v.name()))
}

/// Whether `states` are the names and ticks of `data`.
pub open spec fn are_states_of(states: Seq<StateResidency>, data: Seq<StateData>) -> bool {
    &&& states.len() == data.len()
    &&& forall|j: int|
        0 <= j < states.len() ==> (#[trigger] states[j]).name@ == text_or_empty(data[j].name@)
            && states[j].ticks == data[j].ticks
}

/// Whether `s` is the sample of a channel; a missing channel has an empty one.
pub open spec fn is_built(s: ChannelSample, data: Option<ChannelData>) -> bool {
    match data {
        None => {
            &&& s.group == ChannelGroup::Other
            &&& s.channel@ == Seq::<char>::empty()
            &&& s.unit == EnergyUnit::MilliJoule
            &&& s.kind == ChannelKind::Energy(0)
        },
        Some(d) => {
            &&& s.group == ChannelGroup::named(d.group@)
            &&& s.channel@ == text_or_empty(d.name@)
            &&& if d.states@.len() > 0 {
                &&& s.unit == EnergyUnit::MilliJoule
                &&& s.kind matches ChannelKind::States(states) && are_states_of(states@, d.states@)
            } else {
                &&& is_unit_of(s.unit, d.unit@)
                &&& s.kind == ChannelKind::Energy(d.value)
            }
        },
    }
}

impl Default for ChannelSample {
    /// The sample of a missing channel.
    fn default() -> (r: Self)
        ensures
            is_built(r, None),
    {
        ChannelSample {
            group: ChannelGroup::Other,
            channel: String::new(),
            unit: EnergyUnit::MilliJoule,
            kind: ChannelKind::Energy(0),
        }
    }
}

/// The sample of a channel that is met for the first time.
pub fn build_sample(d: &ChannelData) -> (r: ChannelSample)
    ensures
        is_built(r, Some(*d)),
{
    let group = ChannelGroup::from_bytes(d.group.as_slice());
    let channel = decoded(d.name.as_slice());
    if d.states.len() > 0 {
        let mut states: Vec<StateResidency> = Vec::new();
        let mut j: usize = 0;
        while j < d.states.len()
            invariant
                j <= d.states.len(),
                states.len() == j,
                forall|k: int|
                    0 <= k < j ==> (#[trigger] states@[k]).name@ == text_or_empty(d.states@[k].name@)
                        && states@[k].ticks == d.states@[k].ticks,
            decreases d.states.len() - j,
        {
            let name = decoded(d.states[j].name.as_slice());
            states.push(StateResidency { name, ticks: d.states[j].ticks });
            j += 1;
        }
        ChannelSample { group, channel, unit: EnergyUnit::MilliJoule, kind: ChannelKind::States(states) }
    } else {
        let unit = EnergyUnit::from_bytes(d.unit.as_slice());
        ChannelSample { group, channel, unit, kind: ChannelKind::Energy(d.value) }
    }
}

/// Whether two samples agree in all that stays from sample to sample.
pub open spec fn same_schema(a: ChannelSample, b: ChannelSample) -> bool {
    &&& a.group == b.group
    &&& a.channel@ == b.channel@
    &&& a.unit == b.unit
    &&& match (a.kind, b.kind) {
        (ChannelKind::Energy(_), ChannelKind::Energy(_)) => true,
        (ChannelKind::States(x), ChannelKind::States(y)) => {
            &&& x@.len() == y@.len()
            &&& forall|j: int| 0 <= j < x@.len() ==> (#[trigger] x@[j]).name@ == y@[j].name@
        },
        _ => false,
    }
}

/// Whether the slot `before` may be refreshed from the channel: a slot with
/// states needs a channel with as many.
pub open spec fn slot_fits(before: ChannelSample, data: Option<ChannelData>) -> bool {
    match (before.kind, data) {
        (ChannelKind::States(states), Some(d)) => states@.len() == d.states@.len(),
        _ => true,
    }
}

/// Whether `after` is the slot `before` with the numbers of the channel.
pub open spec fn is_refreshed(
    before: ChannelSample,
    data: Option<ChannelData>,
    after: ChannelSample,
) -> bool {
    match data {
        None => before == after,
        Some(d) => {
            &&& same_schema(before, after)
            &&& match after.kind {
                ChannelKind::Energy(raw) => raw == d.value,
                ChannelKind::States(states) => forall|j: int|
                    0 <= j < states@.len() ==> (#[trigger] states@[j]).ticks == d.states@[j].ticks,
            }
        },
    }
}

fn refresh_ticks(states: &mut Vec<StateResidency>, data: &Vec<StateData>)
    requires
        old(states)@.len() == data@.len(),
    ensures
        final(states)@.len() == old(states)@.len(),
        forall|j: int|
            0 <= j < final(states)@.len() ==> (#[trigger] final(states)@[j]).name == old(
                states,
            )@[j].name && final(states)@[j].ticks == data@[j].ticks,
{
    let ghost before = states@;
    let mut j: usize = 0;
    while j < states.len()
        invariant
            j <= states@.len(),
            states@.len() == before.len(),
            states@.len() == data@.len(),
            forall|k: int| 0 <= k < states@.len() ==> (#[trigger] states@[k]).name == before[k].name,
            forall|k: int| 0 <= k < j ==> (#[trigger] states@[k]).ticks == data@[k].ticks,
        decreases states.len() - j,
    {
        states[j].ticks = data[j].ticks;
        j += 1;
    }
}

fn refresh_slot(slot: &mut ChannelSample, d: &ChannelData)
    requires
        slot_fits(*old(slot), Some(*d)),
    ensures
        is_refreshed(*old(slot), Some(*d), *final(slot)),
{
    match &mut slot.kind {
        ChannelKind::Energy(raw) => {
            *raw = d.value;
        },
        ChannelKind::States(states) => {
            refresh_ticks(states, &d.states);
        },
    }
}

/// Whether the cached schema no longer fits the channels: their number changed,
/// or a channel gained or lost a P-state.
pub open spec fn schema_drifted(scratch: Seq<ChannelSample>, data: Seq<Option<ChannelData>>) -> bool {
    scratch.len() != data.len() || exists|i: int|
        0 <= i < scratch.len() && !slot_fits(#[trigger] scratch[i], data[i])
}

fn is_drifted(scratch: &Vec<ChannelSample>, data: &Vec<Option<ChannelData>>) -> (r: bool)
    ensures
        r == schema_drifted(scratch@, data@),
{
    if scratch.len() != data.len() {
        return true;
    }
    let mut i: usize = 0;
    while i < scratch.len()
        invariant
            scratch.len() == data.len(),
            i <= scratch.len(),
            forall|k: int| 0 <= k < i ==> slot_fits(#[trigger] scratch@[k], data@[k]),
        decreases scratch.len() - i,
    {
        match (&scratch[i].kind, &data[i]) {
            (ChannelKind::States(states), Some(d)) => {
                if states.len() != d.states.len() {
                    assert(!slot_fits(scratch@[i as int], data@[i as int]));
                    return true;
                }
            },
            _ => {},
        }
        i += 1;
    }
    false
}

/// Brings the cached samples up to date. Where the schema drifted all are built
/// anew and the change is reported; else only their numbers are rewritten.
pub fn refresh_scratch(scratch: &mut Vec<ChannelSample>, data: &Vec<Option<ChannelData>>) -> (event:
    Option<SamplerEvent>)
    ensures
        final(scratch)@.len() == data@.len(),
        if schema_drifted(old(scratch)@, data@) {
            &&& event == Some(
                SamplerEvent::SchemaChanged {
                    previous: old(scratch)@.len() as usize,
                    current: data@.len() as usize,
                },
            )
            &&& forall|i: int|
                0 <= i < data@.len() ==> is_built(#[trigger] final(scratch)@[i], data@[i])
        } else {
            &&& event is None
            &&& forall|i: int|
                0 <= i < data@.len() ==> is_refreshed(
                    old(scratch)@[i],
                    data@[i],
                    #[trigger] final(scratch)@[i],
                )
        },
{
    if is_drifted(scratch, data) {
        let previous: usize = scratch.len();
        let mut built: Vec<ChannelSample> = Vec::new();
        let mut i: usize = 0;
        while i < data.len()
            invariant
                i <= data.len(),
                built.len() == i,
                forall|k: int| 0 <= k < i ==> is_built(#[trigger] built@[k], data@[k]),
            decreases data.len() - i,
        {
            match &data[i] {
                None => {
                    built.push(ChannelSample::default());
                },
                Some(d) => {
                    built.push(build_sample(d));
                },
            }
            i += 1;
        }
        *scratch = built;
        return Some(SamplerEvent::SchemaChanged { previous, current: data.len() });
    }
    let ghost before = scratch@;
    let mut i: usize = 0;
    while i < data.len()
        invariant
            i <= data.len(),
            scratch@.len() == data@.len(),
            before.len() == data@.len(),
            !schema_drifted(before, data@),
            forall|k: int| 0 <= k < i ==> is_refreshed(before[k], data@[k], #[trigger] scratch@[k]),
            forall|k: int| i <= k < data@.len() ==> scratch@[k] == before[k],
        decreases data.len() - i,
    {
        assert(slot_fits(before[i as int], data@[i as int]));
        match &data[i] {
            None => {},
            Some(d) => {
                refresh_slot(&mut scratch[i], d);
            },
        }
        i += 1;
    }
    None
}

/// Without drift a sample keeps every group, name, unit and state name.
pub proof fn refreshing_keeps_the_schema(
    before: ChannelSample,
    data: Option<ChannelData>,
    after: ChannelSample,
)
    requires
        is_refreshed(before, data, after),
    ensures
        same_schema(before, after),
{
}

/// Once built, the cached samples fit the channels that they were built from,
/// so that a further sample of the same channels reports no drift.
pub proof fn built_samples_fit(scratch: Seq<ChannelSample>, data: Seq<Option<ChannelData>>)
    requires
        scratch.len() == data.len(),
        forall|i: int| 0 <= i < data.len() ==> is_built(#[trigger] scratch[i], data[i]),
    ensures
        !schema_drifted(scratch, data),
{
    assert forall|i: int| 0 <= i < scratch.len() implies slot_fits(#[trigger] scratch[i], data[i]) by {
        assert(is_built(scratch[i], data[i]));
    }
}

/// What the difference between two snapshots holds.
pub enum Delta {
    /// There is none.
    Missing,
    /// It lists no channels.
    Unlisted,
    Channels(Vec<Option<ChannelData>>),
}

/// The channels of several groups, sampled together.
pub struct MultiGroupSampler {
    scratch: Vec<ChannelSample>,
}

impl MultiGroupSampler {
    /// The channels, as the last difference left them.
    pub closed spec fn samples(&self) -> Seq<ChannelSample> {
        self.scratch@
    }

    /// A sampler that has taken no sample yet.
    pub fn new() -> (r: Self)
        ensures
            r.samples() == Seq::<ChannelSample>::empty(),
    {
        MultiGroupSampler { scratch: Vec::new() }
    }

    /// Takes in the next difference. Without one the samples stay as they were.
    pub fn sample(&mut self, delta: &Delta) -> (event: Option<SamplerEvent>)
        ensures
            match *delta {
                Delta::Missing => event == Some(SamplerEvent::NullDelta) && final(self).samples()
                    == old(self).samples(),
                Delta::Unlisted => event is None && final(self).samples() == old(self).samples(),
                Delta::Channels(data) => {
                    &&& final(self).samples().len() == data@.len()
                    &&& if schema_drifted(old(self).samples(), data@) {
                        &&& event == Some(
                            SamplerEvent::SchemaChanged {
                                previous: old(self).samples().len() as usize,
                                current: data@.len() as usize,
                            },
                        )
                        &&& forall|i: int|
                            0 <= i < data@.len() ==> is_built(
                                #[trigger] final(self).samples()[i],
                                data@[i],
                            )
                    } else {
                        &&& event is None
                        &&& forall|i: int|
                            0 <= i < data@.len() ==> is_refreshed(
                                old(self).samples()[i],
                                data@[i],
                                #[trigger] final(self).samples()[i],
                            )
                    }
                },
            },
    {
        match delta {
            Delta::Missing => Some(SamplerEvent::NullDelta),
            Delta::Unlisted => None,
            Delta::Channels(data) => refresh_scratch(&mut self.scratch, data),
        }
    }

    /// Samples of the most recent [`MultiGroupSampler::sample`].
    pub fn channels(&self) -> (r: &Vec<ChannelSample>)
        ensures
            r@ == self.samples(),
    {
        &self.scratch
    }
}

// ── Subscribing ──────────────────────────────────────────────────────────────

/// What is to be done next to subscribe to channel groups.
#[derive(Debug, Clone, Copy, PartialEq, Eq, Structural)]
pub enum Subscribing {
    /// Copy the channels of the group named "Energy Model".
    CopyEnergy,
    /// Copy the P-state channels of "CPU Stats" and merge them in.
    MergeCpu,
    /// Copy the P-state channels of "GPU Stats" and merge them in.
    MergeGpu,
    /// Make a mutable copy of what was collected.
    CopyMerged,
    /// Subscribe to the copy.
    Subscribe,
    /// Take the first snapshot.
    FirstSample,
    /// Release the subscription, then give up.
    Release,
    /// Make the keys by which samples are read.
    MakeKeys,
    /// Ready to sample.
    Opened,
    /// Given up.
    Failed,
}

/// How a step went.
#[derive(Debug, Clone, Copy, PartialEq, Eq, Structural)]
pub enum StepResult {
    /// The text of a name could not be made.
    NoName,
    /// The call gave nothing.
    Nothing,
    Done,
}

impl Subscribing {
    /// The group and the subgroup whose channels the step copies.
    pub open spec fn group(self) -> Option<(Seq<char>, Option<Seq<char>>)> {
        match self {
            Subscribing::CopyEnergy => Some(("Energy Model"@, None)),
            Subscribing::MergeCpu => Some(("CPU Stats"@, Some("CPU Core Performance States"@))),
            Subscribing::MergeGpu => Some(("GPU Stats"@, Some("GPU Performance States"@))),
            _ => None,
        }
    }

    /// The group and the subgroup whose channels the step copies.
    pub fn channel_group(self) -> (r: Option<(&'static str, Option<&'static str>)>)
        ensures
            match (r, self.group()) {
                (Some((g, s)), Some((gm, sm))) => g@ == gm && match (s, sm) {
                    (Some(t), Some(tm)) => t@ == tm,
                    (None, None) => true,
                    _ => false,
                },
                (None, None) => true,
                _ => false,
            },
    {
        match self {
            Subscribing::CopyEnergy => Some(("Energy Model", None)),
            Subscribing::MergeCpu => Some(("CPU Stats", Some("CPU Core Performance States"))),
            Subscribing::MergeGpu => Some(("GPU Stats", Some("GPU Performance States"))),
            _ => None,
        }
    }

    /// What follows a step. Only the energy channels are indispensable: a
    /// further group that the system lacks is left out.
    pub open spec fn after(self, result: StepResult, several: bool) -> Subscribing {
        match (self, result) {
            (Subscribing::CopyEnergy, StepResult::Done) => if several {
                Subscribing::MergeCpu
            } else {
                Subscribing::CopyMerged
            },
            (Subscribing::MergeCpu, StepResult::Done) => Subscribing::MergeGpu,
            (Subscribing::MergeCpu, StepResult::Nothing) => Subscribing::MergeGpu,
            (Subscribing::MergeGpu, StepResult::Done) => Subscribing::CopyMerged,
            (Subscribing::MergeGpu, StepResult::Nothing) => Subscribing::CopyMerged,
            (Subscribing::CopyMerged, StepResult::Done) => Subscribing::Subscribe,
            (Subscribing::Subscribe, StepResult::Done) => Subscribing::FirstSample,
            (Subscribing::FirstSample, StepResult::Done) => Subscribing::MakeKeys,
            (Subscribing::FirstSample, _) => Subscribing::Release,
            (Subscribing::MakeKeys, StepResult::Done) => Subscribing::Opened,
            (Subscribing::Opened, _) => Subscribing::Opened,
            _ => Subscribing::Failed,
        }
    }

    /// What follows a step; `several` tells whether more than the energy
    /// channels are wanted.
    pub fn next(self, result: StepResult, several: bool) -> (r: Subscribing)
        ensures
            r == self.after(result, several),
    {
        match (self, result) {
            (Subscribing::CopyEnergy, StepResult::Done) => if several {
                Subscribing::MergeCpu
            } else {
                Subscribing::CopyMerged
            },
            (Subscribing::MergeCpu, StepResult::Done) => Subscribing::MergeGpu,
            (Subscribing::MergeCpu, StepResult::Nothing) => Subscribing::MergeGpu,
            (Subscribing::MergeGpu, StepResult::Done) => Subscribing::CopyMerged,
            (Subscribing::MergeGpu, StepResult::Nothing) => Subscribing::CopyMerged,
            (Subscribing::CopyMerged, StepResult::Done) => Subscribing::Subscribe,
            (Subscribing::Subscribe, StepResult::Done) => Subscribing::FirstSample,
            (Subscribing::FirstSample, StepResult::Done) => Subscribing::MakeKeys,
            (Subscribing::FirstSample, _) => Subscribing::Release,
            (Subscribing::MakeKeys, StepResult::Done) => Subscribing::Opened,
            (Subscribing::Opened, _) => Subscribing::Opened,
            _ => Subscribing::Failed,
        }
    }

    /// Steps that remain at most.
    pub open spec fn remaining(self) -> nat {
        match self {
            Subscribing::CopyEnergy => 8,
            Subscribing::MergeCpu => 7,
            Subscribing::MergeGpu => 6,
            Subscribing::CopyMerged => 5,
            Subscribing::Subscribe => 4,
            Subscribing::FirstSample => 3,
            Subscribing::MakeKeys => 2,
            Subscribing::Release => 1,
            Subscribing::Opened => 0,
            Subscribing::Failed => 0,
        }
    }

    /// Where the steps from here lead if each goes as `results` says.
    pub open spec fn outcome(self, results: spec_fn(Subscribing) -> StepResult, several: bool) -> Subscribing
        decreases self.remaining(),
    {
        if self == Subscribing::Opened || self == Subscribing::Failed {
            self
        } else {
            self.after(results(self), several).outcome(results, several)
        }
    }
}

/// Subscribing ends ready or given up. It ends ready exactly if every
/// indispensable step was done and, where several groups are wanted, the names
/// of the further groups could be made.
pub proof fn subscribing_succeeds_iff(results: spec_fn(Subscribing) -> StepResult, several: bool)
    ensures
        ({
            let end = Subscribing::CopyEnergy.outcome(results, several);
            let ready = {
                &&& results(Subscribing::CopyEnergy) == StepResult::Done
                &&& several ==> results(Subscribing::MergeCpu) != StepResult::NoName && results(
                    Subscribing::MergeGpu,
                ) != StepResult::NoName
                &&& results(Subscribing::CopyMerged) == StepResult::Done
                &&& results(Subscribing::Subscribe) == StepResult::Done
                &&& results(Subscribing::FirstSample) == StepResult::Done
                &&& results(Subscribing::MakeKeys) == StepResult::Done
            };
            end == (if ready { Subscribing::Opened } else { Subscribing::Failed })
        }),
{
    reveal_with_fuel(Subscribing::outcome, 9);
}

// ── Energy channels ──────────────────────────────────────────────────────────

/// Component whose power an energy channel counts.
#[derive(Debug, Clone, Copy, PartialEq, Eq, Structural)]
pub enum Component {
    Ecpu,
    Pcpu,
    Gpu,
    Ane,
    Dram,
    Amcc,
    Dcs,
    Isp,
    Ave,
    Disp,
}

impl Component {
    /// Name of the component's channel.
    pub open spec fn name(self) -> Seq<char> {
        match self {
            Component::Ecpu => "ECPU"@,
            Component::Pcpu => "PCPU"@,
            Component::Gpu => "GPU"@,
            Component::Ane => "ANE"@,
            Component::Dram => "DRAM"@,
            Component::Amcc => "AMCC"@,
            Component::Dcs => "DCS"@,
            Component::Isp => "ISP"@,
            Component::Ave => "AVE"@,
            Component::Disp => "DISP"@,
        }
    }

    /// The component of the given channel name.
    pub fn from_bytes(b: &[u8]) -> (r: Option<Component>)
        ensures
            match r {
                Some(c) => b@ == encode_utf8(c.name()),
                None => forall|c: Component| b@ != encode_utf8(#[trigger] c.name()),
            },
    {
        if bytes_are(b, "ECPU") {
            Some(Component::Ecpu)
        } else if bytes_are(b, "PCPU") {
            Some(Component::Pcpu)
        } else if bytes_are(b, "GPU") {
            Some(Component::Gpu)
        } else if bytes_are(b, "ANE") {
            Some(Component::Ane)
        } else if bytes_are(b, "DRAM") {
            Some(Component::Dram)
        } else if bytes_are(b, "AMCC") {
            Some(Component::Amcc)
        } else if bytes_are(b, "DCS") {
            Some(Component::Dcs)
        } else if bytes_are(b, "ISP") {
            Some(Component::Isp)
        } else if bytes_are(b, "AVE") {
            Some(Component::Ave)
        } else if bytes_are(b, "DISP") {
            Some(Component::Disp)
        } else {
            None
        }
    }
}

/// A component's name is the name of no other component.
pub proof fn component_names_are_distinct(a: Component, b: Component)
    ensures
        encode_utf8(a.name()) == encode_utf8(b.name()) ==> a == b,
{
    reveal_strlit("ECPU");
    reveal_strlit("PCPU");
    reveal_strlit("GPU");
    reveal_strlit("ANE");
    reveal_strlit("DRAM");
    reveal_strlit("AMCC");
    reveal_strlit("DCS");
    reveal_strlit("ISP");
    reveal_strlit("AVE");
    reveal_strlit("DISP");
    if a != b {
        let x = a.name();
        let y = b.name();
        assert(x.len() != y.len() || x[0] != y[0] || x[1] != y[1]);
        lemma_labels_differ(x, y);
    }
}

/// An energy count that goes to a component.
#[derive(Debug, Clone, Copy, PartialEq, Eq, Structural)]
pub struct EnergyCount {
    pub component: Component,
    pub raw: i64,
    pub unit: EnergyUnit,
}

/// Whether `e` is what a channel counts.
pub open spec fn is_count_of(e: EnergyCount, data: Option<ChannelData>) -> bool {
    &&& data matches Some(d)
    &&& d.name@ == encode_utf8(e.component.name())
    &&& e.raw == d.value
    &&& is_unit_of(e.unit, d.unit@)
}

/// Whether a channel counts for some component.
pub open spec fn counts(d: Option<ChannelData>) -> bool {
    d matches Some(c) && exists|k: Component| c.name@ == encode_utf8(#[trigger] k.name())
}

/// Indices of the first `n` channels that count for a component.
pub open spec fn counting(data: Seq<Option<ChannelData>>, n: int) -> Seq<int>
    decreases n,
{
    if n <= 0 {
        Seq::empty()
    } else if counts(data[n - 1]) {
        counting(data, n - 1).push(n - 1)
    } else {
        counting(data, n - 1)
    }
}

/// The energy counts of the channels that belong to a component, in order.
pub fn parse_delta(data: &Vec<Option<ChannelData>>) -> (r: Vec<EnergyCount>)
    ensures
        r@.len() == counting(data@, data@.len() as int).len(),
        forall|k: int|
            0 <= k < r@.len() ==> is_count_of(
                #[trigger] r@[k],
                data@[counting(data@, data@.len() as int)[k]],
            ),
{
    let mut r: Vec<EnergyCount> = Vec::new();
    let mut i: usize = 0;
    while i < data.len()
        invariant
            i <= data.len(),
            r@.len() == counting(data@, i as int).len(),
            forall|k: int|
                0 <= k < r@.len() ==> is_count_of(
                    #[trigger] r@[k],
                    data@[counting(data@, i as int)[k]],
                ),
        decreases data.len() - i,
    {
        match &data[i] {
            None => {},
            Some(d) => {
                match Component::from_bytes(d.name.as_slice()) {
                    None => {
                        assert(!counts(data@[i as int]));
                    },
                    Some(component) => {
                        let unit = EnergyUnit::from_bytes(d.unit.as_slice());
                        assert(counts(data@[i as int]));
                        r.push(EnergyCount { component, raw: d.value, unit });
                    },
                }
            },
        }
        i += 1;
    }
    r
}

/// One channel entry for hardware discovery.
#[derive(Debug, Clone)]
pub struct RawChannel {
    pub name: String,
    pub fmt: i32,
    pub raw: i64,
}

/// One channel entry as the reporting service gives it.
pub struct RawData {
    pub name: Vec<u8>,
    pub fmt: i32,
    pub raw: i64,
}

/// Indices of the first `n` entries that are present.
pub open spec fn present<T>(data: Seq<Option<T>>, n: int) -> Seq<int>
    decreases n,
{
    if n <= 0 {
        Seq::empty()
    } else if data[n - 1] is Some {
        present(data, n - 1).push(n - 1)
    } else {
        present(data, n - 1)
    }
}

/// Whether `c` is the entry of a channel.
pub open spec fn is_entry_of(c: RawChannel, data: Option<RawData>) -> bool {
    &&& data matches Some(d)
    &&& c.name@ == text_or_empty(d.name@)
    &&& c.fmt == d.fmt
    &&& c.raw == d.raw
}

/// Every channel that is present, in order.
pub fn raw_channels(data: &Vec<Option<RawData>>) -> (r: Vec<RawChannel>)
    ensures
        r@.len() == present(data@, data@.len() as int).len(),
        forall|k: int|
            0 <= k < r@.len() ==> is_entry_of(
                #[trigger] r@[k],
                data@[present(data@, data@.len() as int)[k]],
            ),
{
    let mut r: Vec<RawChannel> = Vec::new();
    let mut i: usize = 0;
    while i < data.len()
        invariant
            i <= data.len(),
            r@.len() == present(data@, i as int).len(),
            forall|k: int|
                0 <= k < r@.len() ==> is_entry_of(
                    #[trigger] r@[k],
                    data@[present(data@, i as int)[k]],
                ),
        decreases data.len() - i,
    {
        match &data[i] {
            None => {},
            Some(d) => {
                let name = decoded(d.name.as_slice());
                r.push(RawChannel { name, fmt: d.fmt, raw: d.raw });
            },
        }
        i += 1;
    }
    r
}

/// A unit is as small as its label says: a thousandth, a millionth and a billionth of a
/// joule.
pub proof fn units_are_as_small_as_their_labels(u: EnergyUnit)
    ensures
        u.name() == "mJ"@ ==> u.per_joule() == 1_000,
        u.name() == "uJ"@ ==> u.per_joule() == 1_000_000,
        u.name() == "nJ"@ ==> u.per_joule() == 1_000_000_000,
        u.name() == "mJ"@ || u.name() == "uJ"@ || u.name() == "nJ"@,
        EnergyUnit::MilliJoule.name() == "mJ"@,
        EnergyUnit::MicroJoule.name() == "uJ"@,
        EnergyUnit::NanoJoule.name() == "nJ"@,
{
    reveal_strlit("mJ");
    reveal_strlit("uJ");
    reveal_strlit("nJ");
    assert("mJ"@[0] == 'm' && "uJ"@[0] == 'u' && "nJ"@[0] == 'n');
}

/// Each group that is subscribed to is the one that its channels are then sorted by.
pub proof fn subscribed_groups_are_recognised()
    ensures
        Subscribing::CopyEnergy.group() matches Some((g, None)) && ChannelGroup::named(
            encode_utf8(g),
        ) == ChannelGroup::EnergyModel,
        Subscribing::MergeCpu.group() matches Some((g, Some(sub))) && ChannelGroup::named(
            encode_utf8(g),
        ) == ChannelGroup::CpuStats && sub == "CPU Core Performance States"@,
        Subscribing::MergeGpu.group() matches Some((g, Some(sub))) && ChannelGroup::named(
            encode_utf8(g),
        ) == ChannelGroup::GpuStats && sub == "GPU Performance States"@,
        ChannelGroup::named(encode_utf8("Energy Model"@)) == ChannelGroup::EnergyModel,
        ChannelGroup::named(encode_utf8("CPU Stats"@)) == ChannelGroup::CpuStats,
        ChannelGroup::named(encode_utf8("GPU Stats"@)) == ChannelGroup::GpuStats,
{
    groups_are_named_by_their_labels(ChannelGroup::EnergyModel);
    groups_are_named_by_their_labels(ChannelGroup::CpuStats);
    groups_are_named_by_their_labels(ChannelGroup::GpuStats);
}

/// Each component has the channel of its own name.
pub proof fn components_have_their_channels()
    ensures
        Component::Ecpu.name() == "ECPU"@ && Component::Pcpu.name() == "PCPU"@,
        Component::Gpu.name() == "GPU"@ && Component::Ane.name() == "ANE"@,
        Component::Dram.name() == "DRAM"@ && Component::Amcc.name() == "AMCC"@,
        Component::Dcs.name() == "DCS"@ && Component::Isp.name() == "ISP"@,
        Component::Ave.name() == "AVE"@ && Component::Disp.name() == "DISP"@,
{
}

/// A further channel counts where its name is that of a component, and only there; the
/// counts before it stay.
pub proof fn channels_count_one_by_one(
    data: Seq<Option<ChannelData>>,
    more: Option<ChannelData>,
    c: Component,
)
    ensures
        ({
            let before = counting(data, data.len() as int);
            let after = counting(data.push(more), data.len() as int + 1);
            &&& more matches Some(d) ==> (d.name@ == encode_utf8(c.name()) ==> after == before.push(
                data.len() as int,
            ))
            &&& more is None ==> after == before
            &&& (more matches Some(d) && forall|k: Component| d.name@ != encode_utf8(
                #[trigger] k.name(),
            )) ==> after == before
        }),
{
    lemma_counting_prefix(data, more, data.len() as int);
    assert(data.push(more)[data.len() as int] == more);
    if more matches Some(d) && d.name@ == encode_utf8(c.name()) {
        assert(counts(more));
    }
}

proof fn lemma_counting_prefix(data: Seq<Option<ChannelData>>, more: Option<ChannelData>, n: int)
    requires
        n <= data.len(),
    ensures
        counting(data.push(more), n) == counting(data, n),
    decreases n,
{
    if n > 0 {
        lemma_counting_prefix(data, more, n - 1);
        assert(data.push(more)[n - 1] == data[n - 1]);
    }
}

} // verus!
