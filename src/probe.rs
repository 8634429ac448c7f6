//! Resource samples taken around a run, and the figures derived from two of
//! them.

use vstd::prelude::*;

verus! {

/// Bytes in one mebibyte.
pub const MEBIBYTE: u64 = 1048576;

/// Nanoseconds in one tick of an operating-system time counter.
pub const NANOS_PER_TICK: u128 = 100;

/// Utilization figures are in hundredths of a percent.
pub const HUNDREDTHS_OF_PERCENT: u128 = 10000;

/// A 64-bit tick count (100 ns each) delivered as two 32-bit halves.
#[derive(Clone, Copy, Debug, PartialEq, Eq, Structural)]
pub struct FileTime {
    pub high: u32,
    pub low: u32,
}

impl FileTime {
    pub open spec fn ticks_spec(&self) -> nat {
        self.high as nat * 0x1_0000_0000 + self.low as nat
    }

    /// The tick count: the high half shifted above the low half.
    pub fn ticks(&self) -> (r: u64)
        ensures
            r == self.ticks_spec(),
    {
        let h: u64 = self.high as u64;
        let l: u64 = self.low as u64;
        assert((h << 32u64) | l == h * 0x1_0000_0000 + l) by (bit_vector)
            requires
                h <= 0xffff_ffff,
                l <= 0xffff_ffff,
        ;
        (h << 32u64) | l
    }

    /// The duration in nanoseconds.
    pub fn nanos(&self) -> (r: u128)
        ensures
            r == self.ticks_spec() * NANOS_PER_TICK,
    {
        let t = self.ticks();
        t as u128 * NANOS_PER_TICK
    }
}

/// Process CPU time (kernel plus user) from the operating system's answer,
/// `None` where the query failed.
pub fn process_cpu_nanos(times: Option<(FileTime, FileTime)>) -> (r: Option<u128>)
    ensures
        r == match times {
            Some((kernel, user)) => Some(
                ((kernel.ticks_spec() + user.ticks_spec()) * NANOS_PER_TICK) as u128,
            ),
            None => None::<u128>,
        },
{
    match times {
        Some((kernel, user)) => {
            let k = kernel.nanos();
            let u = user.nanos();
            assert(k + u == (kernel.ticks_spec() + user.ticks_spec()) * NANOS_PER_TICK) by (nonlinear_arith)
                requires
                    k == kernel.ticks_spec() * NANOS_PER_TICK,
                    u == user.ticks_spec() * NANOS_PER_TICK,
            ;
            Some(k + u)
        },
        None => None,
    }
}

/// A snapshot of the process: wall-clock time (nanoseconds since a fixed
/// origin), cumulative CPU time (`None` where it could not be read), and
/// memory counters in bytes.
#[derive(Clone, Copy, Debug, PartialEq, Eq, Structural)]
pub struct ResourceSample {
    pub wall_nanos: u128,
    pub cpu_nanos: Option<u128>,
    pub working_set: u64,
    pub private_usage: u64,
    pub peak_working_set: u64,
}

/// What changed between two samples. Memory deltas are negative where
/// usage shrank; the peak is the one seen at the end.
#[derive(Clone, Copy, Debug, PartialEq, Eq, Structural)]
pub struct ResourceDelta {
    pub wall_nanos: u128,
    pub cpu_nanos: u128,
    pub working_set: i128,
    pub private_usage: i128,
    pub peak_working_set: u64,
}

/// Elapsed CPU time: zero where either reading is missing or the readings
/// go backwards.
pub open spec fn cpu_elapsed(start: Option<u128>, end: Option<u128>) -> u128 {
    match (start, end) {
        (Some(a), Some(b)) => if a <= b {
            (b - a) as u128
        } else {
            0
        },
        _ => 0,
    }
}

pub open spec fn delta_spec(start: ResourceSample, end: ResourceSample) -> ResourceDelta {
    ResourceDelta {
        wall_nanos: if start.wall_nanos <= end.wall_nanos {
            (end.wall_nanos - start.wall_nanos) as u128
        } else {
            0
        },
        cpu_nanos: cpu_elapsed(start.cpu_nanos, end.cpu_nanos),
        working_set: (end.working_set - start.working_set) as i128,
        private_usage: (end.private_usage - start.private_usage) as i128,
        peak_working_set: end.peak_working_set,
    }
}

/// The change from `start` to `end`. Elapsed wall time is never negative:
/// a clock that went backwards gives zero.
pub fn delta(start: &ResourceSample, end: &ResourceSample) -> (r: ResourceDelta)
    ensures
        r == delta_spec(*start, *end),
        r.wall_nanos >= 0,
{
    let cpu: u128 = match (start.cpu_nanos, end.cpu_nanos) {
        (Some(a), Some(b)) => if a <= b {
            b - a
        } else {
            0
        },
        _ => 0,
    };
    ResourceDelta {
        wall_nanos: end.wall_nanos.saturating_sub(start.wall_nanos),
        cpu_nanos: cpu,
        working_set: end.working_set as i128 - start.working_set as i128,
        private_usage: end.private_usage as i128 - start.private_usage as i128,
        peak_working_set: end.peak_working_set,
    }
}

/// Two samples taken with nothing in between, modelled as the same sample,
/// differ by nothing: no time, no CPU time, no memory.
pub proof fn delta_of_sample_with_itself_is_zero(s: ResourceSample)
    ensures
        delta_spec(s, s).wall_nanos == 0,
        delta_spec(s, s).cpu_nanos == 0,
        delta_spec(s, s).working_set == 0,
        delta_spec(s, s).private_usage == 0,
        delta_spec(s, s).peak_working_set == s.peak_working_set,
{
}

/// CPU utilization in hundredths of a percent: of one core, and of all
/// `cores` cores together.
#[derive(Clone, Copy, Debug, PartialEq, Eq, Structural)]
pub struct Utilization {
    pub one_core: u128,
    pub all_cores: u128,
}

/// Utilization for `cpu_nanos` of CPU time over `wall_nanos` of wall time
/// on a machine with `cores` logical cores.
pub fn utilization(cpu_nanos: u128, wall_nanos: u128, cores: usize) -> (r: Option<Utilization>)
    ensures
        r == utilization_spec(cpu_nanos, wall_nanos, cores as nat),
{
    if wall_nanos == 0 || cores == 0 {
        return None;
    }
    match cpu_nanos.checked_mul(HUNDREDTHS_OF_PERCENT) {
        Some(scaled) => {
            let one = scaled / wall_nanos;
            Some(Utilization { one_core: one, all_cores: one / cores as u128 })
        },
        None => None,
    }
}

/// Whole mebibytes in `bytes`, rounded down.
pub fn mebibytes(bytes: u64) -> (r: u64)
    ensures
        r == bytes / MEBIBYTE,
{
    bytes / MEBIBYTE
}

/// The figures a run reports.
#[derive(Clone, Copy, Debug, PartialEq, Eq, Structural)]
pub struct Report {
    pub delta: ResourceDelta,
    pub utilization: Option<Utilization>,
}

/// The report for a run between `start` and `end` on `cores` logical cores.
pub fn report(start: &ResourceSample, end: &ResourceSample, cores: usize) -> (r: Report)
    ensures
        r.delta == delta_spec(*start, *end),
        r.utilization == utilization_spec(r.delta.cpu_nanos, r.delta.wall_nanos, cores as nat),
{
    let d = delta(start, end);
    let u = utilization(d.cpu_nanos, d.wall_nanos, cores);
    Report { delta: d, utilization: u }
}

/// Utilization of one core is CPU time over wall time; that of all cores
/// divides it by the number of cores. There is none where no wall time
/// elapsed, where there are no cores, or where the scaled CPU time does not
/// fit in 128 bits.
pub open spec fn utilization_spec(cpu_nanos: u128, wall_nanos: u128, cores: nat) -> Option<
    Utilization,
> {
    if wall_nanos == 0 || cores == 0 || cpu_nanos * HUNDREDTHS_OF_PERCENT > u128::MAX {
        None
    } else {
        let one = (cpu_nanos as int * HUNDREDTHS_OF_PERCENT as int) / wall_nanos as int;
        Some(Utilization { one_core: one as u128, all_cores: (one / cores as int) as u128 })
    }
}

} // verus!
