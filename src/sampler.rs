use num_format::{Locale, ToFormattedString};
use vstd::prelude::*;
use vstd::string::StringExecFns;

verus! {

/// The decimal digits of `n`.
pub open spec fn decimal(n: nat) -> Seq<char>
    decreases n,
{
    if n < 10 {
        seq![digit(n)]
    } else {
        decimal(n / 10).push(digit(n % 10))
    }
}

/// The character of a digit 0 to 9.
pub open spec fn digit(d: nat) -> char {
    ((d + 48) as u8) as char
}

/// The decimal digits of `n`, with a comma between groups of three counted from the right.
pub open spec fn grouped_decimal(n: nat) -> Seq<char>
    decreases n,
{
    if n < 1000 {
        decimal(n)
    } else {
        grouped_decimal(n / 1000) + seq![
            ',',
            digit((n % 1000) / 100),
            digit((n % 100) / 10),
            digit(n % 10),
        ]
    }
}

/// Relies on `num_format::ToFormattedString::to_formatted_string` with `Locale::en`: the decimal
/// digits with `,` between groups of three from the right (the locale's separator and standard
/// grouping).
#[verifier::external_body]
fn en_formatted(n: u64) -> (r: String)
    ensures
        r@ == grouped_decimal(n as nat),
{
    n.to_formatted_string(&Locale::en)
}

/// A count written with thousands separators.
pub fn comma(cnt: u64) -> (r: String)
    ensures
        r@ == grouped_decimal(cnt as nat),
{
    en_formatted(cnt)
}

/// Events per second for `count` events in `nanos` nanoseconds, rounded down and capped at
/// `u64::MAX`; with no time elapsed it is 0 for no events and the cap otherwise.
pub open spec fn per_second(count: u64, nanos: u64) -> u64 {
    if nanos == 0 {
        if count == 0 {
            0
        } else {
            u64::MAX
        }
    } else if (count as int) * 1_000_000_000 / (nanos as int) > u64::MAX {
        u64::MAX
    } else {
        ((count as int) * 1_000_000_000 / (nanos as int)) as u64
    }
}

/// Events per second, as `per_second` says.
pub fn rate_per_sec(count: u64, nanos: u64) -> (r: u64)
    ensures
        r == per_second(count, nanos),
{
    if nanos == 0 {
        return if count == 0 {
            0
        } else {
            u64::MAX
        };
    }
    assert((count as int) * 1_000_000_000 <= u64::MAX * 1_000_000_000) by (nonlinear_arith);
    let scaled = (count as u128) * 1_000_000_000u128;
    let q = scaled / (nanos as u128);
    if q > u64::MAX as u128 {
        u64::MAX
    } else {
        q as u64
    }
}

/// A rate written with thousands separators.
pub fn rate(cnt: u64, nanos: u64) -> (r: String)
    ensures
        r@ == grouped_decimal(per_second(cnt, nanos) as nat),
{
    comma(rate_per_sec(cnt, nanos))
}

/// Where a sampler is in its life: made, started, or stopped for good.
#[derive(Debug, Clone, Copy, PartialEq, Eq, Structural)]
pub enum SamplerState {
    Idle,
    Running,
    Stopped,
}

impl SamplerState {
    /// Starts a sampler that was never started.
    pub fn start(&mut self)
        requires
            *old(self) == SamplerState::Idle,
        ensures
            *final(self) == SamplerState::Running,
    {
        *self = SamplerState::Running;
    }

    /// Stops a running sampler, for good.
    pub fn stop(&mut self)
        requires
            *old(self) == SamplerState::Running,
        ensures
            *final(self) == SamplerState::Stopped,
    {
        *self = SamplerState::Stopped;
    }
}

/// What the background loop does after a wait ends.
#[derive(Debug, Clone, Copy, PartialEq, Eq, Structural)]
pub enum WorkerStep {
    /// Report the change since the last snapshot, then wait again.
    Interval,
    /// Report the totals since the first snapshot, then exit.
    Final,
    /// Woken without cause: wait again.
    Wait,
}

/// The step after a wait: once stop was asked for, the final report and exit; else a report on
/// a timeout, and another wait on a wake without cause.
pub open spec fn step_of(keep_running: bool, timed_out: bool) -> WorkerStep {
    if !keep_running {
        WorkerStep::Final
    } else if timed_out {
        WorkerStep::Interval
    } else {
        WorkerStep::Wait
    }
}

/// Decides the step after a wait, as `step_of` says.
pub fn next_step(keep_running: bool, timed_out: bool) -> (r: WorkerStep)
    ensures
        r == step_of(keep_running, timed_out),
{
    if !keep_running {
        WorkerStep::Final
    } else if timed_out {
        WorkerStep::Interval
    } else {
        WorkerStep::Wait
    }
}

/// The steps the loop takes on the waits `obs` (for each: whether running was still asked for,
/// and whether the wait timed out), up to and including its exit.
pub open spec fn worker_run(obs: Seq<(bool, bool)>) -> Seq<WorkerStep>
    decreases obs.len(),
{
    if obs.len() == 0 {
        Seq::<WorkerStep>::empty()
    } else if step_of(obs[0].0, obs[0].1) == WorkerStep::Final {
        seq![WorkerStep::Final]
    } else {
        seq![step_of(obs[0].0, obs[0].1)] + worker_run(obs.drop_first())
    }
}

/// Once stop has been asked for by the `k`-th wait, the loop has exited by then, its last step
/// is the final report, and that report comes once: no step before it is one.
pub proof fn lemma_stop_ends_with_final(obs: Seq<(bool, bool)>, k: int)
    requires
        0 <= k < obs.len(),
        !obs[k].0,
    ensures
        1 <= worker_run(obs).len() <= k + 1,
        worker_run(obs).last() == WorkerStep::Final,
        forall|i: int| 0 <= i < worker_run(obs).len() - 1 ==> worker_run(obs)[i] != WorkerStep::Final,
    decreases k,
{
    if step_of(obs[0].0, obs[0].1) != WorkerStep::Final {
        lemma_stop_ends_with_final(obs.drop_first(), k - 1);
        let rest = worker_run(obs.drop_first());
        assert(worker_run(obs) == seq![step_of(obs[0].0, obs[0].1)] + rest);
        assert forall|i: int| 0 <= i < worker_run(obs).len() - 1 implies worker_run(obs)[i]
            != WorkerStep::Final by {
            if i > 0 {
                assert(worker_run(obs)[i] == rest[i - 1]);
            }
        }
    }
}

/// A named counter: how much of it a report shows, and the total it counts toward (0 for none).
#[derive(Debug, Clone)]
pub struct Stat {
    pub name: String,
    pub verbosity: u32,
    pub max: usize,
}

impl Stat {
    pub fn new(name: &str, verbosity: u32, max: usize) -> (r: Stat)
        ensures
            r.name@ == name@,
            r.verbosity == verbosity,
            r.max == max,
    {
        Stat { name: name.to_owned(), verbosity, max }
    }
}

/// One counter in one report.
#[derive(Debug, Clone, Copy, PartialEq, Eq, Structural)]
pub struct CounterReport {
    pub value: u64,
    pub delta: u64,
    pub rate: u64,
}

/// The report of a counter read as `cur`, last read as `last`: against the first snapshot
/// (`cumulative`, when counters started at zero) or against the last one.
pub open spec fn report_of(cur: u64, last: u64, cumulative: bool, nanos: u64) -> CounterReport {
    let delta = if cumulative {
        cur
    } else {
        cur.wrapping_sub(last)
    };
    CounterReport { value: cur, delta, rate: per_second(delta, nanos) }
}

/// The counter values of the last snapshot.
#[derive(Debug)]
pub struct Snapshots {
    last: Vec<u64>,
}

impl Snapshots {
    /// The values of the last snapshot.
    pub closed spec fn last(&self) -> Seq<u64> {
        self.last@
    }

    /// Snapshots of `n` counters, all last read as zero.
    pub fn new(n: usize) -> (r: Snapshots)
        ensures
            r.last() == Seq::new(n as nat, |i: int| 0u64),
    {
        let mut last: Vec<u64> = Vec::new();
        let mut i: usize = 0;
        while i < n
            invariant
                i <= n,
                last@ == Seq::new(i as nat, |k: int| 0u64),
            decreases n - i,
        {
            last.push(0);
            i = i + 1;
        }
        Snapshots { last }
    }

    /// Adds a counter, last read as zero.
    pub fn add_counter(&mut self)
        ensures
            final(self).last() == old(self).last().push(0),
    {
        self.last.push(0);
    }

    /// Sets every last value back to zero.
    pub fn reset(&mut self)
        ensures
            final(self).last() == Seq::new(old(self).last().len(), |i: int| 0u64),
    {
        let n = self.last.len();
        let mut i: usize = 0;
        while i < n
            invariant
                n == self.last@.len(),
                i <= n,
                forall|k: int| 0 <= k < i ==> self.last@[k] == 0,
            decreases n - i,
        {
            self.last.set(i, 0);
            i = i + 1;
        }
        assert(self.last@ =~= Seq::new(n as nat, |i: int| 0u64));
    }

    /// Reports each counter read as `current`, over `nanos` nanoseconds, and keeps `current` as
    /// the last values. A drop in a counter counts as its wrap past the maximum.
    pub fn take(&mut self, current: &Vec<u64>, cumulative: bool, nanos: u64) -> (r: Vec<
        CounterReport,
    >)
        requires
            current@.len() == old(self).last().len(),
        ensures
            final(self).last() == current@,
            r@.len() == current@.len(),
            forall|i: int|
                0 <= i < r@.len() ==> #[trigger] r@[i] == report_of(
                    current@[i],
                    old(self).last()[i],
                    cumulative,
                    nanos,
                ),
    {
        let n = current.len();
        let mut out: Vec<CounterReport> = Vec::new();
        let mut i: usize = 0;
        while i < n
            invariant
                n == current@.len(),
                n == self.last@.len(),
                i <= n,
                out@.len() == i,
                forall|k: int| 0 <= k < i ==> self.last@[k] == current@[k],
                forall|k: int| i <= k < n ==> self.last@[k] == old(self).last@[k],
                forall|k: int|
                    0 <= k < i ==> #[trigger] out@[k] == report_of(
                        current@[k],
                        old(self).last@[k],
                        cumulative,
                        nanos,
                    ),
            decreases n - i,
        {
            let cur = current[i];
            let delta = if cumulative {
                cur
            } else {
                cur.wrapping_sub(self.last[i])
            };
            out.push(CounterReport { value: cur, delta, rate: rate_per_sec(delta, nanos) });
            self.last.set(i, cur);
            i = i + 1;
        }
        assert(self.last@ =~= current@);
        out
    }
}

/// The text that a report shows for one counter: by the counter's verbosity, its rate; its value
/// and rate; or its value, change and rate.
pub open spec fn segment_text(name: Seq<char>, verbosity: u32, rep: CounterReport) -> Seq<char> {
    let value = grouped_decimal(rep.value as nat);
    let rate = grouped_decimal(rep.rate as nat);
    if verbosity == 0 {
        "  ["@ + name + ": "@ + rate + "/s]"@
    } else if verbosity == 1 {
        "  ["@ + name + ": "@ + value + ", "@ + rate + "/s]"@
    } else {
        "   ["@ + name + ": "@ + value + ", "@ + grouped_decimal(rep.delta as nat) + " | "@ + rate
            + "/s]"@
    }
}

/// Writes the text of one counter's report.
pub fn stat_segment(stat: &Stat, rep: &CounterReport) -> (r: String)
    ensures
        r@ == segment_text(stat.name@, stat.verbosity, *rep),
{
    let value = comma(rep.value);
    let rate = comma(rep.rate);
    let mut s = String::new();
    if stat.verbosity == 0 {
        s.append("  [");
        s.append(stat.name.as_str());
        s.append(": ");
        s.append(rate.as_str());
        s.append("/s]");
    } else if stat.verbosity == 1 {
        s.append("  [");
        s.append(stat.name.as_str());
        s.append(": ");
        s.append(value.as_str());
        s.append(", ");
        s.append(rate.as_str());
        s.append("/s]");
    } else {
        let delta = comma(rep.delta);
        s.append("   [");
        s.append(stat.name.as_str());
        s.append(": ");
        s.append(value.as_str());
        s.append(", ");
        s.append(delta.as_str());
        s.append(" | ");
        s.append(rate.as_str());
        s.append("/s]");
    }
    s
}

} // verus!
