//! Raw Docker stats counters and the integer half of their normalization:
//! which CPU count applies, whether a sample is the warming-up first one,
//! and the working-set memory. The counters are read out of the daemon's
//! stats reports here too.

use vstd::prelude::*;

verus! {

/// Raw CPU counters of one stats sample (cumulative nanoseconds).
#[derive(Debug, Clone, Copy, PartialEq, Eq, Structural)]
pub struct RawCpu {
    /// Cumulative container CPU usage.
    pub total_usage: u64,
    /// Cumulative host CPU usage; absent on some daemons.
    pub system_usage: Option<u64>,
    /// Online CPU count; absent or zero on some daemons.
    pub online_cpus: Option<u64>,
    /// Number of per-core counters, the fallback CPU count.
    pub percpu_len: usize,
}

impl Default for RawCpu {
    fn default() -> (c: Self)
        ensures
            c == (RawCpu { total_usage: 0, system_usage: None, online_cpus: None, percpu_len: 0 }),
    {
        RawCpu { total_usage: 0, system_usage: None, online_cpus: None, percpu_len: 0 }
    }
}

/// Raw memory counters of one stats sample (bytes).
#[derive(Debug, Clone, Copy, PartialEq, Eq, Structural)]
pub struct RawMem {
    /// Total usage, page cache included.
    pub usage: u64,
    /// Page cache to subtract from `usage`.
    pub cache: u64,
    /// Memory limit; 0 when unlimited.
    pub limit: u64,
}

impl Default for RawMem {
    fn default() -> (m: Self)
        ensures
            m == (RawMem { usage: 0, cache: 0, limit: 0 }),
    {
        RawMem { usage: 0, cache: 0, limit: 0 }
    }
}

/// The CPU count of a sample: the reported online count when it is
/// present and non-zero, else the number of per-core counters.
pub open spec fn spec_online_cpus(c: RawCpu) -> nat {
    match c.online_cpus {
        Some(n) => if n > 0 { n as nat } else { c.percpu_len as nat },
        None => c.percpu_len as nat,
    }
}

/// A sample is warming up when there is no previous sample, or when the
/// previous one has both counters at zero (the shape of a stream's first
/// frame).
pub open spec fn spec_warming_up(prev: Option<RawCpu>) -> bool {
    match prev {
        None => true,
        Some(p) => p.total_usage == 0 && (match p.system_usage {
            Some(s) => s == 0,
            None => true,
        }),
    }
}

/// Working-set memory: usage less cache (never below zero), capped at the
/// limit when there is one.
pub open spec fn spec_working_set(m: RawMem) -> nat {
    let raw: nat = if m.usage >= m.cache { (m.usage - m.cache) as nat } else { 0 };
    if m.limit > 0 && raw > m.limit { m.limit as nat } else { raw }
}

/// The CPU count that scales a sample's CPU percentage.
pub fn effective_online_cpus(cur: &RawCpu) -> (n: u64)
    ensures
        n == spec_online_cpus(*cur),
{
    match cur.online_cpus {
        Some(n) => {
            if n > 0 {
                n
            } else {
                cur.percpu_len as u64
            }
        },
        None => cur.percpu_len as u64,
    }
}

/// Whether the sample whose previous counters are `prev` is the
/// warming-up first one (its load is not used).
pub fn is_warming_up(prev: Option<&RawCpu>) -> (b: bool)
    ensures
        b == spec_warming_up(match prev {
            Some(p) => Some(*p),
            None => None,
        }),
{
    match prev {
        None => true,
        Some(p) => {
            let sys = match p.system_usage {
                Some(s) => s,
                None => 0,
            };
            p.total_usage == 0 && sys == 0
        },
    }
}

/// Working-set memory of a sample, in bytes.
pub fn working_set(mem: &RawMem) -> (n: u64)
    ensures
        n == spec_working_set(*mem),
{
    let raw = mem.usage.saturating_sub(mem.cache);
    if mem.limit > 0 && raw > mem.limit {
        mem.limit
    } else {
        raw
    }
}

/// The CPU part of a daemon stats report, as far as the counters go.
#[derive(Debug, Clone, Copy, PartialEq, Eq, Structural)]
pub struct CpuStatsReport {
    /// `cpu_usage.total_usage`.
    pub total_usage: Option<u64>,
    /// Length of `cpu_usage.percpu_usage`, when present.
    pub percpu_len: Option<usize>,
    /// `system_cpu_usage`.
    pub system_cpu_usage: Option<u64>,
    /// `online_cpus`.
    pub online_cpus: Option<u32>,
}

/// The memory part of a daemon stats report.
#[derive(Debug, Clone, Copy, PartialEq, Eq, Structural)]
pub struct MemStatsReport {
    /// `usage`.
    pub usage: Option<u64>,
    /// `limit`.
    pub limit: Option<u64>,
    /// `stats["inactive_file"]` (cgroup v2 page cache).
    pub inactive_file: Option<u64>,
    /// `stats["cache"]` (cgroup v1 page cache).
    pub cache: Option<u64>,
}

/// `o` or 0.
pub open spec fn or_zero(o: Option<u64>) -> u64 {
    match o {
        Some(v) => v,
        None => 0,
    }
}

/// Counters of a report's CPU part; every missing field reads as zero or
/// absent.
pub open spec fn spec_raw_cpu_from(cpu: Option<CpuStatsReport>) -> RawCpu {
    match cpu {
        None => RawCpu { total_usage: 0, system_usage: None, online_cpus: None, percpu_len: 0 },
        Some(c) => RawCpu {
            total_usage: or_zero(c.total_usage),
            system_usage: c.system_cpu_usage,
            online_cpus: match c.online_cpus {
                Some(n) => Some(n as u64),
                None => None,
            },
            percpu_len: match c.percpu_len {
                Some(l) => l,
                None => 0,
            },
        },
    }
}

/// Counters of a report's memory part; the page cache is the cgroup v2
/// `inactive_file` when present, else the cgroup v1 `cache`, else 0.
pub open spec fn spec_raw_mem_from(mem: Option<MemStatsReport>) -> RawMem {
    match mem {
        None => RawMem { usage: 0, cache: 0, limit: 0 },
        Some(m) => RawMem {
            usage: or_zero(m.usage),
            cache: match m.inactive_file {
                Some(v) => v,
                None => or_zero(m.cache),
            },
            limit: or_zero(m.limit),
        },
    }
}

/// Read the CPU counters out of a report's CPU part.
pub fn raw_cpu_from(cpu: Option<&CpuStatsReport>) -> (c: RawCpu)
    ensures
        c == spec_raw_cpu_from(match cpu {
            Some(r) => Some(*r),
            None => None,
        }),
{
    match cpu {
        None => RawCpu::default(),
        Some(c) => RawCpu {
            total_usage: match c.total_usage {
                Some(v) => v,
                None => 0,
            },
            system_usage: c.system_cpu_usage,
            online_cpus: match c.online_cpus {
                Some(n) => Some(n as u64),
                None => None,
            },
            percpu_len: match c.percpu_len {
                Some(l) => l,
                None => 0,
            },
        },
    }
}

/// Read the memory counters out of a report's memory part.
pub fn raw_mem_from(mem: Option<&MemStatsReport>) -> (m: RawMem)
    ensures
        m == spec_raw_mem_from(match mem {
            Some(r) => Some(*r),
            None => None,
        }),
{
    match mem {
        None => RawMem::default(),
        Some(m) => {
            let usage = match m.usage {
                Some(v) => v,
                None => 0,
            };
            let limit = match m.limit {
                Some(v) => v,
                None => 0,
            };
            let cache = match m.inactive_file {
                Some(v) => v,
                None => match m.cache {
                    Some(v) => v,
                    None => 0,
                },
            };
            RawMem { usage, cache, limit }
        },
    }
}

/// The working set never exceeds the usage, nor a set limit.
pub proof fn lemma_working_set_bounds(m: RawMem)
    ensures
        spec_working_set(m) <= m.usage,
        m.limit > 0 ==> spec_working_set(m) <= m.limit,
        m.cache == 0 && (m.limit == 0 || m.usage <= m.limit) ==> spec_working_set(m) == m.usage,
{
}

} // verus!
