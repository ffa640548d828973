//! The JSON line that an agent publishes for each snapshot, and the context
//! that surrounds it.
use vstd::prelude::*;

use std::time::{Duration, SystemTime, UNIX_EPOCH};
use vstd::utf8::{decode_utf8, valid_utf8};

use crate::bytes::until_nul;
use crate::bytes::before_nul;
use crate::calendar::write_utc;
use crate::calendar::utc_text;
use crate::json::ObjectWriter;
use crate::json::{bare_field, escaped, object_text, string_field, text_or_null, Field};
use crate::sampler::{Metrics, Sampler};
use crate::text::{chars_of, has_suffix, text_of};
use crate::text::{dec, ends};

pub use crate::calendar::days_to_ymd;
pub use crate::json::write_escape_json;

verus! {

// ── Hostname ─────────────────────────────────────────────────────────────────

/// What `String::from_utf8_lossy` makes of bytes.
pub uninterp spec fn lossy_text(bytes: Seq<u8>) -> Seq<char>;

/// `String::from_utf8_lossy` decodes bytes; those that are not UTF-8 it replaces.
/// Claimed is that the text depends on the bytes alone, and that it is the one
/// that they encode where they are UTF-8.
#[verifier::external_body]
pub(crate) fn decode_lossy(bytes: &[u8]) -> (r: String)
    ensures
        r@ == lossy_text(bytes@),
        valid_utf8(bytes@) ==> r@ == decode_utf8(bytes@),
{
    String::from_utf8_lossy(bytes).into_owned()
}

/// A host name without the suffix `.local`.
pub open spec fn without_local(host: Seq<char>) -> Seq<char> {
    if ends(host, ".local"@) {
        host.take(host.len() - 6)
    } else {
        host
    }
}

/// A host name without the suffix `.local`.
pub fn short_hostname(host: &str) -> (r: String)
    ensures
        r@ == without_local(host@),
{
    if has_suffix(host, ".local") {
        proof {
            reveal_strlit(".local");
        }
        let v = chars_of(host);
        let r = text_of(&v, 0, v.len() - 6);
        assert(v@.subrange(0, v@.len() - 6) == host@.take(host@.len() - 6));
        r
    } else {
        host.to_string()
    }
}

/// The machine's short host name, from the buffer that the system filled;
/// `localhost` if it could not be read.
pub fn hostname(buf: Option<&[u8]>) -> (r: String)
    ensures
        r@ == (match buf {
            Some(b) => without_local(lossy_text(before_nul(b@))),
            None => "localhost"@,
        }),
{
    match buf {
        Some(b) => {
            let name = until_nul(b);
            let host = decode_lossy(name.as_slice());
            short_hostname(&host)
        },
        None => "localhost".to_string(),
    }
}

// ── Clock ────────────────────────────────────────────────────────────────────

/// A point in the system's time.
#[verifier::external_type_specification]
#[verifier::external_body]
pub struct ExSystemTime(SystemTime);

/// `SystemTime::now` reads the system clock. Nothing is claimed of what it shows.
#[verifier::external_body]
fn clock_now() -> SystemTime {
    SystemTime::now()
}

/// `SystemTime::duration_since` gives the time since the start of 1970, unless
/// the clock stands before it. The time rests on the clock, so nothing is
/// claimed of it.
#[verifier::external_body]
fn since_epoch(t: SystemTime) -> Option<Duration> {
    t.duration_since(UNIX_EPOCH).ok()
}

/// `Duration::as_secs` gives the whole seconds of a duration. The duration is
/// opaque, so nothing is claimed of them.
#[verifier::external_body]
fn whole_seconds(d: Duration) -> u64 {
    d.as_secs()
}

/// The seconds since the start of 1970 that the clock shows. Which they are rests on
/// the clock and is left open; [`secs_shown`] says what each reading of it comes to.
pub(crate) fn now_secs() -> u64 {
    let since: Option<u64> = match since_epoch(clock_now()) {
        Some(d) => Some(whole_seconds(d)),
        None => None,
    };
    secs_shown(since)
}

/// The seconds to show for the time since the start of 1970: none have passed for a
/// clock that stands before it.
pub fn secs_shown(since: Option<u64>) -> (r: u64)
    ensures
        r == match since {
            Some(secs) => secs,
            None => 0,
        },
{
    match since {
        Some(secs) => secs,
        None => 0,
    }
}

/// The current UTC time in the form `2026-04-09T12:34:56Z`.
pub fn utc_now() -> (r: String)
    ensures
        exists|secs: u64| r@ == #[trigger] utc_text(secs),
{
    let mut s: String = String::new();
    write_utc_now(&mut s);
    s
}

/// Appends the current UTC time. See [`utc_now`].
pub fn write_utc_now(out: &mut String)
    ensures
        exists|secs: u64| final(out)@ == old(out)@ + #[trigger] utc_text(secs),
{
    let secs: u64 = now_secs();
    write_utc(out, secs);
}

// ── Agent context ────────────────────────────────────────────────────────────

/// What stays the same for an agent from snapshot to snapshot.
#[derive(Debug, Clone)]
pub struct AgentInfo {
    pub version: &'static str,
    pub hostname: String,
    pub chip: String,
    pub pcpu_cores: u32,
    pub ecpu_cores: u32,
    pub gpu_cores: u32,
    pub interval_ms: u64,
}

impl AgentInfo {
    /// The context of a sampler, on the given host and in the given version.
    pub fn from_sampler(
        sampler: &Sampler,
        interval_ms: u64,
        version: &'static str,
        hostname: String,
    ) -> (r: Self)
        ensures
            r.version@ == version@,
            r.hostname == hostname,
            r.chip@ == sampler.config().chip_name@,
            r.gpu_cores == sampler.config().gpu_cores,
            r.interval_ms == interval_ms,
            ({
                let levels = sampler.config().perf_levels@;
                &&& r.pcpu_cores == (if levels.len() > 0 { levels[0].cores } else { 0 })
                &&& r.ecpu_cores == (if levels.len() > 0 { levels.last().cores } else { 0 })
            }),
    {
        let soc = sampler.soc();
        AgentInfo {
            version,
            hostname,
            chip: soc.chip_name.clone(),
            pcpu_cores: match soc.pcpu_level() {
                Some(l) => l.cores,
                None => 0,
            },
            ecpu_cores: match soc.ecpu_level() {
                Some(l) => l.cores,
                None => 0,
            },
            gpu_cores: soc.gpu_cores,
            interval_ms,
        }
    }
}

// ── Snapshots ────────────────────────────────────────────────────────────────

/// The fields of a snapshot taken `secs` seconds after the start of 1970. The
/// measured quantities of `m` are in words already.
pub open spec fn metrics_fields(m: Metrics<String>, info: AgentInfo, secs: u64) -> Seq<Field> {
    seq![
        string_field("timestamp"@, utc_text(secs)),
        string_field("version"@, escaped(info.version@)),
        string_field("hostname"@, escaped(info.hostname@)),
        string_field("chip"@, escaped(info.chip@)),
        bare_field("pcpu_cores"@, dec(info.pcpu_cores as nat)),
        bare_field("ecpu_cores"@, dec(info.ecpu_cores as nat)),
        bare_field("gpu_cores"@, dec(info.gpu_cores as nat)),
        bare_field("interval_ms"@, dec(info.interval_ms as nat)),
        bare_field("sys_power"@, m.sys_power@),
        bare_field("cpu_power"@, m.cpu_power@),
        bare_field("gpu_power"@, m.gpu_power@),
        bare_field("ane_power"@, m.ane_power@),
        bare_field("dram_power"@, m.dram_power@),
        bare_field("all_power"@, m.all_power@),
        bare_field("ecpu_util"@, m.ecpu.utilization@),
        bare_field("ecpu_freq_mhz"@, dec(m.ecpu.freq_mhz as nat)),
        bare_field("pcpu_util"@, m.pcpu.utilization@),
        bare_field("pcpu_freq_mhz"@, dec(m.pcpu.freq_mhz as nat)),
        bare_field("gpu_util"@, m.gpu_util@),
        bare_field("gpu_freq_mhz"@, dec(m.gpu_freq_mhz as nat)),
        bare_field("cpu_temp_c"@, text_or_null(m.cpu_temp)),
        bare_field("gpu_temp_c"@, text_or_null(m.gpu_temp)),
        bare_field("fan_rpm"@, dec(m.fan_rpm as nat)),
        bare_field("fan_max_rpm"@, dec(m.fan_max_rpm as nat)),
        bare_field("memory_used_bytes"@, dec(m.memory.used as nat)),
        bare_field("memory_total_bytes"@, dec(m.memory.total as nat)),
        bare_field("swap_used_bytes"@, dec(m.swap.used as nat)),
        bare_field("swap_total_bytes"@, dec(m.swap.total as nat)),
    ]
}

/// Appends the snapshot taken `secs` seconds after the start of 1970 as one JSON
/// object.
pub fn write_metrics_json_at(out: &mut String, m: &Metrics<String>, info: &AgentInfo, secs: u64)
    ensures
        final(out)@ == old(out)@ + object_text(metrics_fields(*m, *info, secs)),
{
    let mut time: String = String::new();
    write_utc(&mut time, secs);
    assert(time@ == utc_text(secs));
    let mut w = ObjectWriter::new();
    w.raw_string("timestamp", &time);
    w.string("version", info.version);
    w.string("hostname", &info.hostname);
    w.string("chip", &info.chip);
    w.number("pcpu_cores", info.pcpu_cores as u64);
    w.number("ecpu_cores", info.ecpu_cores as u64);
    w.number("gpu_cores", info.gpu_cores as u64);
    w.number("interval_ms", info.interval_ms);
    w.bare("sys_power", &m.sys_power);
    w.bare("cpu_power", &m.cpu_power);
    w.bare("gpu_power", &m.gpu_power);
    w.bare("ane_power", &m.ane_power);
    w.bare("dram_power", &m.dram_power);
    w.bare("all_power", &m.all_power);
    w.bare("ecpu_util", &m.ecpu.utilization);
    w.number("ecpu_freq_mhz", m.ecpu.freq_mhz as u64);
    w.bare("pcpu_util", &m.pcpu.utilization);
    w.number("pcpu_freq_mhz", m.pcpu.freq_mhz as u64);
    w.bare("gpu_util", &m.gpu_util);
    w.number("gpu_freq_mhz", m.gpu_freq_mhz as u64);
    w.optional("cpu_temp_c", &m.cpu_temp);
    w.optional("gpu_temp_c", &m.gpu_temp);
    w.number("fan_rpm", m.fan_rpm as u64);
    w.number("fan_max_rpm", m.fan_max_rpm as u64);
    w.number("memory_used_bytes", m.memory.used);
    w.number("memory_total_bytes", m.memory.total);
    w.number("swap_used_bytes", m.swap.used);
    w.number("swap_total_bytes", m.swap.total);
    assert(w@ =~= metrics_fields(*m, *info, secs));
    let text = w.finish();
    out.append(&text);
}

/// Appends the snapshot as one JSON object, with the current time.
pub fn write_metrics_json(out: &mut String, m: &Metrics<String>, info: &AgentInfo)
    ensures
        exists|secs: u64|
            final(out)@ == old(out)@ + object_text(#[trigger] metrics_fields(*m, *info, secs)),
{
    let secs: u64 = now_secs();
    write_metrics_json_at(out, m, info, secs);
}

/// The snapshot as one JSON object, with the current time.
pub fn metrics_to_json(m: &Metrics<String>, info: &AgentInfo) -> (r: String)
    ensures
        exists|secs: u64| r@ == object_text(#[trigger] metrics_fields(*m, *info, secs)),
{
    let mut s: String = String::new();
    let ghost before = s@;
    write_metrics_json(&mut s, m, info);
    proof {
        let secs = choose|secs: u64|
            s@ == before + object_text(#[trigger] metrics_fields(*m, *info, secs));
        assert(before + object_text(metrics_fields(*m, *info, secs)) == object_text(
            metrics_fields(*m, *info, secs),
        ));
    }
    s
}

/// A host name loses its suffix `.local` once, and nothing else.
pub proof fn local_names_are_shortened(host: Seq<char>)
    ensures
        without_local(host + ".local"@) == host,
        without_local(host) == host || without_local(host) + ".local"@ == host,
{
    reveal_strlit(".local");
    let long = host + ".local"@;
    assert(long.subrange(long.len() - 6, long.len() as int) =~= ".local"@);
    assert(long.take(long.len() - 6) =~= host);
    if ends(host, ".local"@) {
        assert(host.subrange(host.len() - 6, host.len() as int) =~= ".local"@);
        assert(host.take(host.len() - 6) + ".local"@ =~= host);
    }
}

} // verus!
