//! The readings of the controller's keys, by group. What a value is made of is left
//! to the caller: `F`.
use vstd::prelude::*;

use crate::smc::Smc;
use crate::smc::KEY_COUNT;
use crate::smc::{all_codes, groups_stand_in_order, keys_stand_once, name_code};
use crate::values::Value;

verus! {

/// Power, in watts; 0 for a rail that is absent.
#[derive(Debug, Clone, Copy, PartialEq)]
pub struct PowerReading<F> {
    /// All that the supply draws (`PSTR`).
    pub system: F,
    /// The package base rail (`PPBR`).
    pub package: F,
    /// The performance cluster (`PHPC`).
    pub hpc_cluster: F,
    /// The intermediate direct-current rail (`PDTR`).
    pub dc_rail: F,
    /// The processor package (`PCPT`).
    pub cpu: F,
    /// The graphics rail (`PGTR`).
    pub gpu_rail: F,
    /// The neural engine (`PANT`).
    pub ane: F,
    /// The system-on-chip domain (`PSDC`).
    pub soc: F,
    /// The bus (`PBUS`).
    pub bus: F,
}

/// Temperatures, in degrees Celsius; 0 for a sensor that is absent.
#[derive(Debug, Clone, Copy, PartialEq)]
pub struct ThermalReading<F> {
    /// The efficiency cluster (`Tp04`).
    pub cpu_efficiency: F,
    /// The performance cluster (`Tp0a`).
    pub cpu_performance: F,
    /// Graphics die D (`Tg0d`).
    pub gpu: F,
    /// The wireless module (`TW0P`).
    pub wireless: F,
    /// The ambient air (`TA0P`).
    pub ambient: F,
    /// The storage controller (`Ts0S`).
    pub ssd: F,
    /// Near the battery (`Tb0P`).
    pub battery: F,
    /// Near the processor (`TC0P`).
    pub cpu_proximity: F,
    /// Graphics die A (`Tg0a`).
    pub gpu_a: F,
    /// Near the graphics unit (`TG0P`).
    pub gpu_proximity: F,
    /// The memory controller (`Tm0a`).
    pub memory: F,
}

/// Voltages; 0 for a rail that is absent.
#[derive(Debug, Clone, Copy, PartialEq)]
pub struct VoltageReading<F> {
    /// The 12 V supply rail (`VP0R`).
    pub rail_12v: F,
    /// The intermediate direct-current rail (`VD0R`).
    pub dc_rail: F,
    /// The processor cores (`VC0C`).
    pub cpu_core: F,
    /// The graphics cores (`VG0C`).
    pub gpu_core: F,
}

/// Currents, in amperes; 0 for a sensor that is absent.
#[derive(Debug, Clone, Copy, PartialEq)]
pub struct CurrentReading<F> {
    /// The intermediate direct-current rail (`ID0R`).
    pub dc_rail: F,
    /// The processor cores (`IC0C`).
    pub cpu_core: F,
    /// The graphics cores (`IG0C`).
    pub gpu_core: F,
}

/// The battery; all 0 where there is none.
#[derive(Debug, Clone, Copy, PartialEq)]
pub struct BatteryReading<F> {
    /// Voltage, in millivolts (`B0AV`).
    pub voltage_mv: F,
    /// Current, in milliamperes; negative while charging (`B0DC`).
    pub current_ma: F,
    /// Average power, in milliwatts; negative while discharging (`B0AP`).
    pub power_mw: F,
    /// Remaining charge, in milliampere-hours (`B0RM`).
    pub remaining_mah: F,
    /// Charge when full, in milliampere-hours (`B0FC`).
    pub full_charge_mah: F,
}

/// One fan; speeds in revolutions per minute.
#[derive(Debug, Clone, Copy, PartialEq)]
pub struct FanState<F> {
    /// What the fan does.
    pub rpm: F,
    /// What it is asked to do.
    pub target_rpm: F,
    /// The least it can do.
    pub min_rpm: F,
    /// The most it can do.
    pub max_rpm: F,
}

/// The fans, two of them at most.
#[derive(Debug, Clone, Copy, PartialEq)]
pub struct FanReading<F> {
    /// How many there are.
    pub count: u8,
    /// The first fan and the second, as far as they are there.
    pub fans: [Option<FanState<F>>; 2],
}

/// All readings.
#[derive(Debug, Clone, Copy, PartialEq)]
pub struct SystemSnapshot<F> {
    pub power: PowerReading<F>,
    pub thermal: ThermalReading<F>,
    pub fans: FanReading<F>,
    pub voltage: VoltageReading<F>,
    pub current: CurrentReading<F>,
    pub battery: BatteryReading<F>,
}

/// The group in a list of values, one for each key in its place.
pub open spec fn power_in<F>(v: Seq<F>) -> PowerReading<F> {
    PowerReading {
        system: v[0],
        package: v[1],
        hpc_cluster: v[2],
        dc_rail: v[3],
        cpu: v[4],
        gpu_rail: v[5],
        ane: v[6],
        soc: v[7],
        bus: v[8],
    }
}

/// The group in a list of values, one for each key in its place.
pub open spec fn thermals_in<F>(v: Seq<F>) -> ThermalReading<F> {
    ThermalReading {
        cpu_efficiency: v[9],
        cpu_performance: v[10],
        gpu: v[11],
        wireless: v[12],
        ambient: v[13],
        ssd: v[14],
        battery: v[15],
        cpu_proximity: v[16],
        gpu_a: v[17],
        gpu_proximity: v[18],
        memory: v[19],
    }
}

/// The group in a list of values, one for each key in its place.
pub open spec fn voltages_in<F>(v: Seq<F>) -> VoltageReading<F> {
    VoltageReading {
        rail_12v: v[29],
        dc_rail: v[30],
        cpu_core: v[31],
        gpu_core: v[32],
    }
}

/// The group in a list of values, one for each key in its place.
pub open spec fn currents_in<F>(v: Seq<F>) -> CurrentReading<F> {
    CurrentReading {
        dc_rail: v[33],
        cpu_core: v[34],
        gpu_core: v[35],
    }
}

/// The group in a list of values, one for each key in its place.
pub open spec fn battery_in<F>(v: Seq<F>) -> BatteryReading<F> {
    BatteryReading {
        voltage_mv: v[36],
        current_ma: v[37],
        power_mw: v[38],
        remaining_mah: v[39],
        full_charge_mah: v[40],
    }
}

/// The fan whose speeds begin at a place.
pub open spec fn fan_in<F>(v: Seq<F>, at: int) -> FanState<F> {
    FanState { rpm: v[at], target_rpm: v[at + 1], min_rpm: v[at + 2], max_rpm: v[at + 3] }
}

/// The fans in a list of values, where this many are there.
pub open spec fn fans_of<F>(v: Seq<F>, count: u8, r: FanReading<F>) -> bool {
    &&& r.count == count
    &&& r.fans@[0] == if count >= 1 {
        Some(fan_in(v, 21))
    } else {
        None
    }
    &&& r.fans@[1] == if count >= 2 {
        Some(fan_in(v, 25))
    } else {
        None
    }
}

impl Smc {
    /// The group, by the values of the keys in their places.
    pub fn read_power<F: Copy>(v: &Vec<F>) -> (r: PowerReading<F>)
        requires
            v@.len() >= 9,
        ensures
            r == power_in(v@),
    {
        PowerReading {
            system: v[0],
            package: v[1],
            hpc_cluster: v[2],
            dc_rail: v[3],
            cpu: v[4],
            gpu_rail: v[5],
            ane: v[6],
            soc: v[7],
            bus: v[8],
        }
    }

    /// The group, by the values of the keys in their places.
    pub fn read_thermals<F: Copy>(v: &Vec<F>) -> (r: ThermalReading<F>)
        requires
            v@.len() >= 20,
        ensures
            r == thermals_in(v@),
    {
        ThermalReading {
            cpu_efficiency: v[9],
            cpu_performance: v[10],
            gpu: v[11],
            wireless: v[12],
            ambient: v[13],
            ssd: v[14],
            battery: v[15],
            cpu_proximity: v[16],
            gpu_a: v[17],
            gpu_proximity: v[18],
            memory: v[19],
        }
    }

    /// The group, by the values of the keys in their places.
    pub fn read_voltages<F: Copy>(v: &Vec<F>) -> (r: VoltageReading<F>)
        requires
            v@.len() >= 33,
        ensures
            r == voltages_in(v@),
    {
        VoltageReading {
            rail_12v: v[29],
            dc_rail: v[30],
            cpu_core: v[31],
            gpu_core: v[32],
        }
    }

    /// The group, by the values of the keys in their places.
    pub fn read_currents<F: Copy>(v: &Vec<F>) -> (r: CurrentReading<F>)
        requires
            v@.len() >= 36,
        ensures
            r == currents_in(v@),
    {
        CurrentReading {
            dc_rail: v[33],
            cpu_core: v[34],
            gpu_core: v[35],
        }
    }

    /// The group, by the values of the keys in their places.
    pub fn read_battery<F: Copy>(v: &Vec<F>) -> (r: BatteryReading<F>)
        requires
            v@.len() >= 41,
        ensures
            r == battery_in(v@),
    {
        BatteryReading {
            voltage_mv: v[36],
            current_ma: v[37],
            power_mw: v[38],
            remaining_mah: v[39],
            full_charge_mah: v[40],
        }
    }

    /// The fans, by the values of the keys in their places.
    pub fn read_fans<F: Copy>(v: &Vec<F>, count: u8) -> (r: FanReading<F>)
        requires
            v@.len() >= 29,
        ensures
            fans_of(v@, count, r),
    {
        let first: Option<FanState<F>> = if count >= 1 {
            Some(FanState { rpm: v[21], target_rpm: v[22], min_rpm: v[23], max_rpm: v[24] })
        } else {
            None
        };
        let second: Option<FanState<F>> = if count >= 2 {
            Some(FanState { rpm: v[25], target_rpm: v[26], min_rpm: v[27], max_rpm: v[28] })
        } else {
            None
        };
        FanReading { count, fans: [first, second] }
    }

    /// All readings, by the values of the keys in their places.
    pub fn snapshot<F: Copy>(v: &Vec<F>, fans: u8) -> (r: SystemSnapshot<F>)
        requires
            v@.len() == KEY_COUNT,
        ensures
            r.power == power_in(v@),
            r.thermal == thermals_in(v@),
            fans_of(v@, fans, r.fans),
            r.voltage == voltages_in(v@),
            r.current == currents_in(v@),
            r.battery == battery_in(v@),
    {
        SystemSnapshot {
            power: Smc::read_power(v),
            thermal: Smc::read_thermals(v),
            fans: Smc::read_fans(v, fans),
            voltage: Smc::read_voltages(v),
            current: Smc::read_currents(v),
            battery: Smc::read_battery(v),
        }
    }
}

/// Whether `x` is the value of the key of this name, where `v` holds the values of the
/// keys in their places: it has a place, and whatever place it has holds `x`.
pub open spec fn is_value_of<F>(v: Seq<F>, name: Seq<char>, x: F) -> bool {
    &&& all_codes().contains(name_code(name))
    &&& forall|i: int|
        0 <= i < KEY_COUNT && #[trigger] all_codes()[i] == name_code(name) ==> v[i] == x
}

proof fn lemma_value_of<F>(v: Seq<F>, name: Seq<char>, j: int)
    requires
        v.len() == KEY_COUNT,
        0 <= j < KEY_COUNT,
        all_codes()[j] == name_code(name),
    ensures
        is_value_of(v, name, v[j]),
{
    groups_stand_in_order();
    assert forall|i: int| 0 <= i < KEY_COUNT && #[trigger] all_codes()[i] == name_code(
        name,
    ) implies v[i] == v[j] by {
        keys_stand_once(i, j);
    }
}

/// Each power rail shows the value of the key that is named for it.
pub proof fn power_readings_belong_to_their_keys<F>(v: Seq<F>)
    requires
        v.len() == KEY_COUNT,
    ensures
        is_value_of(v, "PSTR"@, power_in(v).system),
        is_value_of(v, "PPBR"@, power_in(v).package),
        is_value_of(v, "PHPC"@, power_in(v).hpc_cluster),
        is_value_of(v, "PDTR"@, power_in(v).dc_rail),
        is_value_of(v, "PCPT"@, power_in(v).cpu),
        is_value_of(v, "PGTR"@, power_in(v).gpu_rail),
        is_value_of(v, "PANT"@, power_in(v).ane),
        is_value_of(v, "PSDC"@, power_in(v).soc),
        is_value_of(v, "PBUS"@, power_in(v).bus),
{
    groups_stand_in_order();
    let all = all_codes();
    assert(all[0] == all.subrange(0, 9)[0]);
    lemma_value_of(v, "PSTR"@, 0);
    assert(all[1] == all.subrange(0, 9)[1]);
    lemma_value_of(v, "PPBR"@, 1);
    assert(all[2] == all.subrange(0, 9)[2]);
    lemma_value_of(v, "PHPC"@, 2);
    assert(all[3] == all.subrange(0, 9)[3]);
    lemma_value_of(v, "PDTR"@, 3);
    assert(all[4] == all.subrange(0, 9)[4]);
    lemma_value_of(v, "PCPT"@, 4);
    assert(all[5] == all.subrange(0, 9)[5]);
    lemma_value_of(v, "PGTR"@, 5);
    assert(all[6] == all.subrange(0, 9)[6]);
    lemma_value_of(v, "PANT"@, 6);
    assert(all[7] == all.subrange(0, 9)[7]);
    lemma_value_of(v, "PSDC"@, 7);
    assert(all[8] == all.subrange(0, 9)[8]);
    lemma_value_of(v, "PBUS"@, 8);
}

/// Each temperature is the value of the key that is named for its sensor.
pub proof fn temperatures_belong_to_their_keys<F>(v: Seq<F>)
    requires
        v.len() == KEY_COUNT,
    ensures
        is_value_of(v, "Tp04"@, thermals_in(v).cpu_efficiency),
        is_value_of(v, "Tp0a"@, thermals_in(v).cpu_performance),
        is_value_of(v, "Tg0d"@, thermals_in(v).gpu),
        is_value_of(v, "TW0P"@, thermals_in(v).wireless),
        is_value_of(v, "TA0P"@, thermals_in(v).ambient),
        is_value_of(v, "Ts0S"@, thermals_in(v).ssd),
        is_value_of(v, "Tb0P"@, thermals_in(v).battery),
        is_value_of(v, "TC0P"@, thermals_in(v).cpu_proximity),
        is_value_of(v, "Tg0a"@, thermals_in(v).gpu_a),
        is_value_of(v, "TG0P"@, thermals_in(v).gpu_proximity),
        is_value_of(v, "Tm0a"@, thermals_in(v).memory),
{
    groups_stand_in_order();
    let all = all_codes();
    assert(all[9] == all.subrange(9, 20)[0]);
    lemma_value_of(v, "Tp04"@, 9);
    assert(all[10] == all.subrange(9, 20)[1]);
    lemma_value_of(v, "Tp0a"@, 10);
    assert(all[11] == all.subrange(9, 20)[2]);
    lemma_value_of(v, "Tg0d"@, 11);
    assert(all[12] == all.subrange(9, 20)[3]);
    lemma_value_of(v, "TW0P"@, 12);
    assert(all[13] == all.subrange(9, 20)[4]);
    lemma_value_of(v, "TA0P"@, 13);
    assert(all[14] == all.subrange(9, 20)[5]);
    lemma_value_of(v, "Ts0S"@, 14);
    assert(all[15] == all.subrange(9, 20)[6]);
    lemma_value_of(v, "Tb0P"@, 15);
    assert(all[16] == all.subrange(9, 20)[7]);
    lemma_value_of(v, "TC0P"@, 16);
    assert(all[17] == all.subrange(9, 20)[8]);
    lemma_value_of(v, "Tg0a"@, 17);
    assert(all[18] == all.subrange(9, 20)[9]);
    lemma_value_of(v, "TG0P"@, 18);
    assert(all[19] == all.subrange(9, 20)[10]);
    lemma_value_of(v, "Tm0a"@, 19);
}

/// Each voltage is the value of the key that is named for its rail.
pub proof fn voltages_belong_to_their_keys<F>(v: Seq<F>)
    requires
        v.len() == KEY_COUNT,
    ensures
        is_value_of(v, "VP0R"@, voltages_in(v).rail_12v),
        is_value_of(v, "VD0R"@, voltages_in(v).dc_rail),
        is_value_of(v, "VC0C"@, voltages_in(v).cpu_core),
        is_value_of(v, "VG0C"@, voltages_in(v).gpu_core),
{
    groups_stand_in_order();
    let all = all_codes();
    assert(all[29] == all.subrange(29, 33)[0]);
    lemma_value_of(v, "VP0R"@, 29);
    assert(all[30] == all.subrange(29, 33)[1]);
    lemma_value_of(v, "VD0R"@, 30);
    assert(all[31] == all.subrange(29, 33)[2]);
    lemma_value_of(v, "VC0C"@, 31);
    assert(all[32] == all.subrange(29, 33)[3]);
    lemma_value_of(v, "VG0C"@, 32);
}

/// Each current is the value of the key that is named for its sensor.
pub proof fn currents_belong_to_their_keys<F>(v: Seq<F>)
    requires
        v.len() == KEY_COUNT,
    ensures
        is_value_of(v, "ID0R"@, currents_in(v).dc_rail),
        is_value_of(v, "IC0C"@, currents_in(v).cpu_core),
        is_value_of(v, "IG0C"@, currents_in(v).gpu_core),
{
    groups_stand_in_order();
    let all = all_codes();
    assert(all[33] == all.subrange(33, 36)[0]);
    lemma_value_of(v, "ID0R"@, 33);
    assert(all[34] == all.subrange(33, 36)[1]);
    lemma_value_of(v, "IC0C"@, 34);
    assert(all[35] == all.subrange(33, 36)[2]);
    lemma_value_of(v, "IG0C"@, 35);
}

/// Each reading of the battery is the value of the key that is named for it.
pub proof fn battery_readings_belong_to_their_keys<F>(v: Seq<F>)
    requires
        v.len() == KEY_COUNT,
    ensures
        is_value_of(v, "B0AV"@, battery_in(v).voltage_mv),
        is_value_of(v, "B0DC"@, battery_in(v).current_ma),
        is_value_of(v, "B0AP"@, battery_in(v).power_mw),
        is_value_of(v, "B0RM"@, battery_in(v).remaining_mah),
        is_value_of(v, "B0FC"@, battery_in(v).full_charge_mah),
{
    groups_stand_in_order();
    let all = all_codes();
    assert(all[36] == all.subrange(36, 41)[0]);
    lemma_value_of(v, "B0AV"@, 36);
    assert(all[37] == all.subrange(36, 41)[1]);
    lemma_value_of(v, "B0DC"@, 37);
    assert(all[38] == all.subrange(36, 41)[2]);
    lemma_value_of(v, "B0AP"@, 38);
    assert(all[39] == all.subrange(36, 41)[3]);
    lemma_value_of(v, "B0RM"@, 39);
    assert(all[40] == all.subrange(36, 41)[4]);
    lemma_value_of(v, "B0FC"@, 40);
}

/// Each speed of a fan is the value of the key that is named for it, and as many fans
/// are told as there are.
pub proof fn fan_readings_belong_to_their_keys<F>(v: Seq<F>, count: u8, r: FanReading<F>)
    requires
        v.len() == KEY_COUNT,
        fans_of(v, count, r),
    ensures
        r.count == count,
        r.fans@[0] is Some <==> count >= 1,
        r.fans@[1] is Some <==> count >= 2,
        r.fans@[0] matches Some(fan) ==> is_value_of(v, "F0Ac"@, fan.rpm) && is_value_of(
            v,
            "F0Tg"@,
            fan.target_rpm,
        ) && is_value_of(v, "F0Mn"@, fan.min_rpm) && is_value_of(v, "F0Mx"@, fan.max_rpm),
        r.fans@[1] matches Some(fan) ==> is_value_of(v, "F1Ac"@, fan.rpm) && is_value_of(
            v,
            "F1Tg"@,
            fan.target_rpm,
        ) && is_value_of(v, "F1Mn"@, fan.min_rpm) && is_value_of(v, "F1Mx"@, fan.max_rpm),
{
    groups_stand_in_order();
    let all = all_codes();
    assert(all[21] == all.subrange(20, 29)[1]);
    lemma_value_of(v, "F0Ac"@, 21);
    assert(all[22] == all.subrange(20, 29)[2]);
    lemma_value_of(v, "F0Tg"@, 22);
    assert(all[23] == all.subrange(20, 29)[3]);
    lemma_value_of(v, "F0Mn"@, 23);
    assert(all[24] == all.subrange(20, 29)[4]);
    lemma_value_of(v, "F0Mx"@, 24);
    assert(all[25] == all.subrange(20, 29)[5]);
    lemma_value_of(v, "F1Ac"@, 25);
    assert(all[26] == all.subrange(20, 29)[6]);
    lemma_value_of(v, "F1Tg"@, 26);
    assert(all[27] == all.subrange(20, 29)[7]);
    lemma_value_of(v, "F1Mn"@, 27);
    assert(all[28] == all.subrange(20, 29)[8]);
    lemma_value_of(v, "F1Mx"@, 28);
}

// ── What readings say ────────────────────────────────────────────────────────

/// What part of a whole there is, between nothing and all of it.
#[derive(Debug, Clone, Copy, PartialEq, Eq)]
pub enum Portion {
    Nothing,
    /// The quotient of a part and its whole.
    Part { part: Value, whole: Value },
    Whole,
}

/// The part of a whole, cut to what lies between nothing and all of it; nothing
/// where the whole is not above zero.
pub open spec fn portion_of(part: Value, whole: Value) -> Portion {
    if !whole.positive() || (part.rank() is Some && !part.positive()) {
        Portion::Nothing
    } else if whole.finite() && whole.at_most(part) {
        Portion::Whole
    } else {
        Portion::Part { part, whole }
    }
}

/// The part of a whole, cut to what lies between nothing and all of it.
pub fn portion(part: Value, whole: Value) -> (r: Portion)
    ensures
        r == portion_of(part, whole),
{
    if !whole.is_positive() || (part.is_number() && !part.is_positive()) {
        Portion::Nothing
    } else if whole.is_finite() && whole.is_at_most(&part) {
        Portion::Whole
    } else {
        Portion::Part { part, whole }
    }
}

impl FanState<Value> {
    /// The part of its greatest speed that the fan does.
    pub fn duty_cycle(&self) -> (r: Portion)
        ensures
            r == portion_of(self.rpm, self.max_rpm),
    {
        portion(self.rpm, self.max_rpm)
    }
}

/// How long it takes to fill a battery.
#[derive(Debug, Clone, Copy, PartialEq, Eq)]
pub enum TimeToFull {
    /// It is full.
    Zero,
    /// The charge that is missing from `full`, divided by what flows in: the current
    /// with its sign turned.
    Filling { full: Value, remaining: Value, current: Value },
}

impl BatteryReading<Value> {
    /// Whether there is a battery.
    pub open spec fn present(self) -> bool {
        self.full_charge_mah.positive()
    }

    /// Whether there is a battery.
    pub fn is_present(&self) -> (r: bool)
        ensures
            r == self.present(),
    {
        self.full_charge_mah.is_positive()
    }

    /// The part of its full charge that the battery holds.
    pub fn state_of_charge(&self) -> (r: Portion)
        ensures
            r == portion_of(self.remaining_mah, self.full_charge_mah),
    {
        portion(self.remaining_mah, self.full_charge_mah)
    }

    /// Whether the battery charges.
    pub open spec fn charging(self) -> bool {
        self.current_ma.negative()
    }

    /// Whether the battery charges.
    pub fn is_charging(&self) -> (r: bool)
        ensures
            r == self.charging(),
    {
        self.current_ma.is_negative()
    }

    /// The charge that is left and the current that takes it, whose quotient is the
    /// time to empty; nothing where there is no battery, or one that does not
    /// discharge.
    pub open spec fn emptying(self) -> Option<(Value, Value)> {
        if !self.present() || (self.current_ma.rank() is Some && !self.current_ma.positive()) {
            None
        } else {
            Some((self.remaining_mah, self.current_ma))
        }
    }

    /// The charge that is left and the current that takes it, whose quotient is the
    /// time to empty.
    pub fn time_to_empty_hours(&self) -> (r: Option<(Value, Value)>)
        ensures
            r == self.emptying(),
    {
        if !self.is_present() || (self.current_ma.is_number() && !self.current_ma.is_positive()) {
            None
        } else {
            Some((self.remaining_mah, self.current_ma))
        }
    }

    /// How long it takes to fill the battery; nothing where there is none, or one
    /// that does not charge.
    pub open spec fn filling(self) -> Option<TimeToFull> {
        if !self.present() || (self.current_ma.rank() is Some && !self.charging()) {
            None
        } else if self.full_charge_mah.finite() && self.full_charge_mah.at_most(
            self.remaining_mah,
        ) {
            Some(TimeToFull::Zero)
        } else {
            Some(
                TimeToFull::Filling {
                    full: self.full_charge_mah,
                    remaining: self.remaining_mah,
                    current: self.current_ma,
                },
            )
        }
    }

    /// How long it takes to fill the battery.
    pub fn time_to_full_hours(&self) -> (r: Option<TimeToFull>)
        ensures
            r == self.filling(),
    {
        if !self.is_present() || (self.current_ma.is_number() && !self.is_charging()) {
            None
        } else if self.full_charge_mah.is_finite() && self.full_charge_mah.is_at_most(
            &self.remaining_mah,
        ) {
            Some(TimeToFull::Zero)
        } else {
            Some(
                TimeToFull::Filling {
                    full: self.full_charge_mah,
                    remaining: self.remaining_mah,
                    current: self.current_ma,
                },
            )
        }
    }
}

/// A battery whose current is a number empties or fills, and never both; one that is
/// idle or absent does neither.
pub proof fn batteries_empty_or_fill(b: BatteryReading<Value>)
    requires
        b.current_ma.rank() is Some,
    ensures
        b.emptying() is Some <==> b.present() && b.current_ma.positive(),
        b.filling() is Some <==> b.present() && b.charging(),
        !(b.emptying() is Some && b.filling() is Some),
{
}

/// A part stays a part: what is neither nothing nor all of a finite whole lies
/// strictly between.
pub proof fn portions_lie_between(part: Value, whole: Value)
    requires
        part.rank() is Some,
        whole.finite(),
    ensures
        portion_of(part, whole) is Part ==> 0 < part.rank()->0 < whole.rank()->0,
        portion_of(part, whole) is Whole ==> whole.at_most(part),
        portion_of(part, whole) is Nothing <==> !whole.positive() || !part.positive(),
{
}

/// A battery is there if its full charge is above zero, and charges if its current is
/// below zero. Its time to empty comes from what is left and the current that takes it;
/// it is full where as much is left as it can hold.
pub proof fn batteries_are_told_by_their_charge(b: BatteryReading<Value>)
    requires
        b.current_ma.rank() is Some,
        b.full_charge_mah.rank() is Some,
        b.full_charge_mah.finite(),
        b.remaining_mah.rank() is Some,
    ensures
        b.present() <==> b.full_charge_mah.rank()->0 > 0,
        b.charging() <==> b.current_ma.rank()->0 < 0,
        b.emptying() matches Some((left, flow)) ==> left == b.remaining_mah && flow == b.current_ma,
        b.filling() matches Some(t) ==> (t == TimeToFull::Zero <==> b.remaining_mah.rank()->0
            >= b.full_charge_mah.rank()->0),
        b.filling() matches Some(TimeToFull::Filling { full, remaining, current }) ==> full
            == b.full_charge_mah && remaining == b.remaining_mah && current == b.current_ma,
{
}

} // verus!
