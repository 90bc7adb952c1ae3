//! The ten metrics collected on the device and the health status derived from them.

use vstd::prelude::*;
use vstd::string::StringSliceAdditionalSpecFns;

verus! {

/// The bytes of a string (its UTF-8 encoding; for ASCII text, one byte per character).
pub closed spec fn text(s: &str) -> Seq<u8> {
    s.spec_bytes()
}

/// `text` is what `str::as_bytes` hands out.
pub proof fn lemma_text_is_bytes(s: &str)
    ensures
        text(s) == s.spec_bytes(),
{
}

/// The bytes of an ASCII string are its characters, one byte each.
pub proof fn lemma_ascii_text(s: &str)
    requires
        vstd::string::is_ascii(s),
    ensures
        text(s).len() == s@.len(),
        forall|i: int| 0 <= i < s@.len() ==> #[trigger] text(s)[i] == s@[i] as u8,
{
    broadcast use vstd::string::group_string_axioms;
    assert(text(s) =~= Seq::new(s@.len(), |i| s@.index(i) as u8));
}

/// One sample of the ten system metrics.
#[derive(Clone, Copy, Debug, PartialEq, Eq)]
pub struct Metrics {
    /// CPU usage, in percent.
    pub cpu_usage_pct: u32,
    /// Free heap, in bytes.
    pub free_heap_bytes: u32,
    /// Uptime, in milliseconds (low 32 bits).
    pub uptime_ms: u32,
    /// Bytes sent since boot.
    pub bytes_tx: u32,
    /// Bytes received since boot.
    pub bytes_rx: u32,
    /// Network errors since boot.
    pub net_errors: u32,
    /// Stack usage of the main thread, in percent.
    pub stack_usage_pct: u32,
    /// Idle time ratio, in percent.
    pub idle_ratio_pct: u32,
    /// Wi-Fi signal strength, in dBm (usually negative).
    pub rssi_dbm: i32,
    /// Persistent reset counter.
    pub reset_count: u32,
}

/// The health status reported with each sample.
#[derive(Clone, Copy, Debug, PartialEq, Eq)]
pub enum Status {
    Nominal,
    CpuSaturated,
    HeapLow,
    NetDegraded,
    StackOverflowRisk,
}

/// CPU usage above which the device counts as saturated.
pub const CPU_SATURATED_ABOVE_PCT: u32 = 80;
/// Free heap below which the heap counts as low (4 KiB).
pub const HEAP_LOW_BELOW_BYTES: u32 = 4096;
/// Network error count above which the network counts as degraded.
pub const NET_DEGRADED_ABOVE_ERRORS: u32 = 3;
/// Stack usage above which a stack overflow is at risk.
pub const STACK_RISK_ABOVE_PCT: u32 = 85;

/// The status of a sample: the first condition that holds, in the order
/// CPU saturation, low heap, degraded network, stack overflow risk; `Nominal` when none does.
pub open spec fn status_of(m: Metrics) -> Status {
    if m.cpu_usage_pct > CPU_SATURATED_ABOVE_PCT {
        Status::CpuSaturated
    } else if m.free_heap_bytes < HEAP_LOW_BELOW_BYTES {
        Status::HeapLow
    } else if m.net_errors > NET_DEGRADED_ABOVE_ERRORS {
        Status::NetDegraded
    } else if m.stack_usage_pct > STACK_RISK_ABOVE_PCT {
        Status::StackOverflowRisk
    } else {
        Status::Nominal
    }
}

/// The name under which a status is reported.
pub open spec fn status_name(s: Status) -> Seq<u8> {
    match s {
        Status::Nominal => text("ok"),
        Status::CpuSaturated => text("cpu_saturated"),
        Status::HeapLow => text("heap_low"),
        Status::NetDegraded => text("net_degraded"),
        Status::StackOverflowRisk => text("stack_overflow_risk"),
    }
}

/// The name of the status derived from the metrics `m`.
pub fn derive_status(m: &Metrics) -> (name: &'static [u8])
    ensures
        name@ == status_name(status_of(*m)),
{
    if m.cpu_usage_pct > CPU_SATURATED_ABOVE_PCT {
        return "cpu_saturated".as_bytes();
    }
    if m.free_heap_bytes < HEAP_LOW_BELOW_BYTES {
        return "heap_low".as_bytes();
    }
    if m.net_errors > NET_DEGRADED_ABOVE_ERRORS {
        return "net_degraded".as_bytes();
    }
    if m.stack_usage_pct > STACK_RISK_ABOVE_PCT {
        return "stack_overflow_risk".as_bytes();
    }
    "ok".as_bytes()
}

/// A sample is reported as nominal exactly when no metric crosses its threshold:
/// CPU at most 80 %, at least 4 KiB of free heap, at most 3 network errors and
/// stack usage at most 85 %.
pub proof fn lemma_nominal_iff_within_thresholds(m: Metrics)
    ensures
        status_of(m) == Status::Nominal <==> (m.cpu_usage_pct <= 80 && m.free_heap_bytes >= 4096
            && m.net_errors <= 3 && m.stack_usage_pct <= 85),
{
}

/// The reported names are short ASCII words, and different statuses have different names.
pub proof fn lemma_status_names(a: Status, b: Status)
    ensures
        1 <= status_name(a).len() <= 19,
        status_name(a) == status_name(b) ==> a == b,
{
    broadcast use vstd::string::group_string_axioms;
    reveal_strlit("ok");
    reveal_strlit("cpu_saturated");
    reveal_strlit("heap_low");
    reveal_strlit("net_degraded");
    reveal_strlit("stack_overflow_risk");
    lemma_ascii_text("ok");
    lemma_ascii_text("cpu_saturated");
    lemma_ascii_text("heap_low");
    lemma_ascii_text("net_degraded");
    lemma_ascii_text("stack_overflow_risk");
    assert(text("ok")[0] == 111u8);
    assert(text("cpu_saturated")[0] == 99u8);
    assert(text("heap_low")[0] == 104u8);
    assert(text("net_degraded")[0] == 110u8);
    assert(text("stack_overflow_risk")[0] == 115u8);
}

/// The reported name follows a fixed priority: CPU saturation (above 80 %)
/// wins over everything, then a low heap (below 4096 bytes), then a degraded
/// network (more than 3 errors), then a stack at risk (above 85 %); "ok" only
/// when none of these holds.
pub proof fn lemma_status_priority(m: Metrics)
    ensures
        m.cpu_usage_pct > 80 ==> status_name(status_of(m)) == text("cpu_saturated"),
        m.cpu_usage_pct <= 80 && m.free_heap_bytes < 4096 ==> status_name(status_of(m)) == text(
            "heap_low",
        ),
        m.cpu_usage_pct <= 80 && m.free_heap_bytes >= 4096 && m.net_errors > 3 ==> status_name(
            status_of(m),
        ) == text("net_degraded"),
        m.cpu_usage_pct <= 80 && m.free_heap_bytes >= 4096 && m.net_errors <= 3 && m.stack_usage_pct
            > 85 ==> status_name(status_of(m)) == text("stack_overflow_risk"),
        m.cpu_usage_pct <= 80 && m.free_heap_bytes >= 4096 && m.net_errors <= 3 && m.stack_usage_pct
            <= 85 ==> status_name(status_of(m)) == text("ok"),
{
}

} // verus!
