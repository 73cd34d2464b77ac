//! Per-device graph history, four series of equal length with the newest last,
//! and the peaks and means since launch.
use vstd::prelude::*;
use crate::app::device::{DeviceId, DeviceKey, DeviceMap};
use crate::backend::GpuSnapshot;
use crate::order::Real;

verus! {

/// Per-device graph history. `None` is a sample that could not be read.
#[derive(Debug)]
pub struct History {
    pub util: Vec<Option<u64>>,
    /// Fill level of the pool the memory meter shows.
    pub mem: Vec<Option<u64>>,
    pub power: Vec<Option<u64>>,
    pub temp: Vec<Option<u64>>,
}

/// One poll's figures for one device, rounded for the graphs.
#[derive(Clone, Copy, PartialEq, Eq, Structural, Debug)]
pub struct Sample {
    pub util: Option<u64>,
    pub mem: Option<u64>,
    pub power: Option<u64>,
    pub temp: Option<u64>,
}

impl History {
    /// All four series have one entry per sample.
    pub open spec fn wf(&self) -> bool {
        &&& self.mem@.len() == self.util@.len()
        &&& self.power@.len() == self.util@.len()
        &&& self.temp@.len() == self.util@.len()
    }
}

impl View for History {
    type V = Seq<Sample>;

    open spec fn view(&self) -> Seq<Sample> {
        Seq::new(
            self.util@.len(),
            |i: int|
                Sample {
                    util: self.util@[i],
                    mem: self.mem@[i],
                    power: self.power@[i],
                    temp: self.temp@[i],
                },
        )
    }
}

/// The newest `cap` samples.
pub open spec fn newest(s: Seq<Sample>, cap: nat) -> Seq<Sample> {
    if s.len() > cap {
        s.skip(s.len() - cap)
    } else {
        s
    }
}

fn drop_oldest(v: &mut Vec<Option<u64>>, n: usize)
    requires
        n <= old(v)@.len(),
    ensures
        final(v)@ == old(v)@.skip(n as int),
{
    let ghost was = v@;
    let rest = v.split_off(n);
    *v = rest;
    assert(v@ =~= was.skip(n as int));
}

impl Default for History {
    fn default() -> (h: Self)
        ensures
            h.wf(),
            h@ == Seq::<Sample>::empty(),
    {
        let h = History { util: Vec::new(), mem: Vec::new(), power: Vec::new(), temp: Vec::new() };
        assert(h@ =~= Seq::<Sample>::empty());
        h
    }
}

impl History {
    /// Adds one sample and keeps the newest `cap`.
    pub fn push(&mut self, sample: Sample, cap: usize)
        requires
            old(self).wf(),
        ensures
            final(self).wf(),
            final(self)@ == newest(old(self)@.push(sample), cap as nat),
    {
        let ghost before = self@;
        self.util.push(sample.util);
        self.mem.push(sample.mem);
        self.power.push(sample.power);
        self.temp.push(sample.temp);
        assert(self@ =~= before.push(sample));
        let n: usize = self.util.len();
        if n > cap {
            let overflow: usize = n - cap;
            let ghost full = self@;
            drop_oldest(&mut self.util, overflow);
            drop_oldest(&mut self.mem, overflow);
            drop_oldest(&mut self.power, overflow);
            drop_oldest(&mut self.temp, overflow);
            assert(self@ =~= full.skip(overflow as int));
        }
    }
}

/// A graph never holds more than its cap, and its newest sample is the one
/// just taken.
pub proof fn histories_are_bounded(s: Seq<Sample>, sample: Sample, cap: nat)
    requires
        cap > 0,
    ensures
        newest(s.push(sample), cap).len() <= cap,
        newest(s.push(sample), cap).last() == sample,
        s.len() < cap ==> newest(s.push(sample), cap) == s.push(sample),
{
}

/// The samples of `k`, none where it has no history.
pub open spec fn samples_of(m: Map<DeviceId, History>, k: DeviceId) -> Seq<Sample> {
    if m.dom().contains(k) {
        m[k]@
    } else {
        Seq::empty()
    }
}

pub open spec fn histories_wf(m: Map<DeviceId, History>) -> bool {
    forall|k: DeviceId| m.dom().contains(k) ==> (#[trigger] m[k]).wf()
}

/// Adds one sample to the history of `key`, starting it where there is none.
pub fn record_sample(map: &mut DeviceMap<History>, key: &DeviceKey, sample: Sample, cap: usize)
    requires
        old(map).wf(),
        histories_wf(old(map)@),
    ensures
        final(map).wf(),
        histories_wf(final(map)@),
        final(map)@.dom() == old(map)@.dom().insert(key@),
        final(map)@[key@]@ == newest(samples_of(old(map)@, key@).push(sample), cap as nat),
        forall|k: DeviceId|
            k != key@ && old(map)@.dom().contains(k) ==> #[trigger] final(map)@[k] == old(map)@[k],
{
    let mut hist = match map.take(key) {
        Some(h) => h,
        None => History::default(),
    };
    hist.push(sample, cap);
    map.insert(key.clone(), hist);
    assert(map@.dom() =~= old(map)@.dom().insert(key@));
}

// ---------------------------------------------------------------- session

/// A running sum and how many readings are in it. The sum is a reading, added
/// up where floating-point arithmetic is done.
#[derive(Debug, Clone, Copy, PartialEq, Eq, Structural)]
pub struct Mean {
    pub sum: Real,
    pub n: u64,
}

/// What to divide by what for the mean: nothing before the first reading.
pub open spec fn mean_of(m: Mean) -> Option<(Real, u64)> {
    if m.n > 0 {
        Some((m.sum, m.n))
    } else {
        None
    }
}

/// `m` with one more reading, which brings the sum to `sum`.
pub open spec fn with_reading(m: Mean, read: Option<Real>, sum: Real) -> Mean {
    match read {
        Some(_) => Mean { sum, n: (m.n + 1) as u64 },
        None => m,
    }
}

/// Whether the bit pattern is one of those that stand for no number.
pub open spec fn is_nan(r: Real) -> bool {
    0x7ff0_0000_0000_0000 < r.bits < 0x8000_0000_0000_0000 || r.bits > 0xfff0_0000_0000_0000
}

/// The larger of two readings; one that is not a number gives way.
pub open spec fn larger(a: Real, b: Real) -> Real {
    if is_nan(a) {
        b
    } else if is_nan(b) || a.place() >= b.place() {
        a
    } else {
        b
    }
}

/// A peak after one more sample. It starts unknown, and a sample that could
/// not be read leaves it as it was.
pub open spec fn peak_of(so_far: Option<Real>, read: Option<Real>) -> Option<Real> {
    match (so_far, read) {
        (Some(m), Some(v)) => Some(larger(m, v)),
        (None, Some(v)) => Some(v),
        (m, None) => m,
    }
}

fn nan(r: Real) -> (b: bool)
    ensures
        b == is_nan(r),
{
    (0x7ff0_0000_0000_0000 < r.bits && r.bits < 0x8000_0000_0000_0000) || r.bits
        > 0xfff0_0000_0000_0000
}

fn peak(so_far: Option<Real>, read: Option<Real>) -> (r: Option<Real>)
    ensures
        r == peak_of(so_far, read),
{
    match (so_far, read) {
        (Some(m), Some(v)) => if nan(m) {
            Some(v)
        } else if nan(v) || m.rank() >= v.rank() {
            Some(m)
        } else {
            Some(v)
        },
        (None, Some(v)) => Some(v),
        (m, None) => m,
    }
}

impl Mean {
    fn add(&mut self, read: Option<Real>, sum: Real)
        requires
            old(self).n < u64::MAX,
        ensures
            *final(self) == with_reading(*old(self), read, sum),
    {
        if read.is_some() {
            self.sum = sum;
            self.n = self.n + 1;
        }
    }

    fn get(&self) -> (r: Option<(Real, u64)>)
        ensures
            r == mean_of(*self),
    {
        if self.n > 0 {
            Some((self.sum, self.n))
        } else {
            None
        }
    }
}

/// Running peaks and means of one device since launch. A figure without a
/// sensor stays unknown.
#[derive(Debug, Clone, Copy, PartialEq, Eq, Structural)]
pub struct SessionStats {
    pub max_util_pct: Option<Real>,
    pub max_temp_c: Option<Real>,
    pub max_power_w: Option<Real>,
    pub util: Mean,
    pub power: Mean,
}

/// The stats before the first sample.
pub open spec fn no_stats() -> SessionStats {
    SessionStats {
        max_util_pct: None,
        max_temp_c: None,
        max_power_w: None,
        util: Mean { sum: Real { bits: 0 }, n: 0 },
        power: Mean { sum: Real { bits: 0 }, n: 0 },
    }
}

/// The stats after one more sample, which brings the sums to `util_sum` and
/// `power_sum`.
pub open spec fn stats_after(
    s: SessionStats,
    g: GpuSnapshot,
    util_sum: Real,
    power_sum: Real,
) -> SessionStats {
    SessionStats {
        max_util_pct: peak_of(s.max_util_pct, g.utilization_pct),
        max_temp_c: peak_of(s.max_temp_c, g.temperature_c),
        max_power_w: peak_of(s.max_power_w, g.power_w),
        util: with_reading(s.util, g.utilization_pct, util_sum),
        power: with_reading(s.power, g.power_w, power_sum),
    }
}

impl Default for SessionStats {
    fn default() -> (s: Self)
        ensures
            s == no_stats(),
    {
        SessionStats {
            max_util_pct: None,
            max_temp_c: None,
            max_power_w: None,
            util: Mean { sum: Real { bits: 0 }, n: 0 },
            power: Mean { sum: Real { bits: 0 }, n: 0 },
        }
    }
}

impl SessionStats {
    /// The counters have room for another sample.
    pub open spec fn room(&self) -> bool {
        self.util.n < u64::MAX && self.power.n < u64::MAX
    }

    pub fn has_room(&self) -> (b: bool)
        ensures
            b == self.room(),
    {
        self.util.n < u64::MAX && self.power.n < u64::MAX
    }

    /// Folds one sample in. `util_sum` and `power_sum` are what the sums come
    /// to with it.
    pub fn add(&mut self, g: &GpuSnapshot, util_sum: Real, power_sum: Real)
        requires
            old(self).room(),
        ensures
            *final(self) == stats_after(*old(self), *g, util_sum, power_sum),
    {
        self.max_util_pct = peak(self.max_util_pct, g.utilization_pct);
        self.max_temp_c = peak(self.max_temp_c, g.temperature_c);
        self.max_power_w = peak(self.max_power_w, g.power_w);
        self.util.add(g.utilization_pct, util_sum);
        self.power.add(g.power_w, power_sum);
    }

    /// Mean utilization: what to divide by what.
    pub fn avg_util_pct(&self) -> (r: Option<(Real, u64)>)
        ensures
            r == mean_of(self.util),
    {
        self.util.get()
    }

    /// Mean power: what to divide by what.
    pub fn avg_power_w(&self) -> (r: Option<(Real, u64)>)
        ensures
            r == mean_of(self.power),
    {
        self.power.get()
    }
}

/// A sensor that never reports has neither a peak nor a mean, however many
/// samples go by.
pub proof fn a_missing_sensor_stays_unknown(
    s: SessionStats,
    g: GpuSnapshot,
    util_sum: Real,
    power_sum: Real,
)
    ensures
        g.utilization_pct is None ==> {
            let t = stats_after(s, g, util_sum, power_sum);
            t.max_util_pct == s.max_util_pct && t.util == s.util
        },
        g.temperature_c is None ==> stats_after(s, g, util_sum, power_sum).max_temp_c
            == s.max_temp_c,
        g.power_w is None ==> {
            let t = stats_after(s, g, util_sum, power_sum);
            t.max_power_w == s.max_power_w && t.power == s.power
        },
        no_stats().max_util_pct is None && mean_of(no_stats().util) is None,
        no_stats().max_temp_c is None,
        no_stats().max_power_w is None && mean_of(no_stats().power) is None,
{
}

/// A peak is no lower than the sample it was taken over, and never falls.
pub proof fn a_peak_never_falls(so_far: Option<Real>, read: Option<Real>)
    ensures
        read matches Some(v) ==> !is_nan(v) ==> (peak_of(so_far, read) matches Some(p) && p.place()
            >= v.place()),
        so_far matches Some(m) ==> !is_nan(m) ==> (peak_of(so_far, read) matches Some(p)
            && p.place() >= m.place()),
        peak_of(so_far, read) == so_far || peak_of(so_far, read) == read,
{
}

/// Only the oldest samples are dropped: what is kept is the end of what there
/// was, in the same order, and dropping as one goes is the same as dropping at
/// the end.
pub proof fn only_the_oldest_samples_are_dropped(s: Seq<Sample>, x: Sample, cap: nat, i: int)
    requires
        cap > 0,
    ensures
        newest(s, cap).len() == (if s.len() < cap {
            s.len()
        } else {
            cap
        }),
        0 <= i < newest(s, cap).len() ==> newest(s, cap)[newest(s, cap).len() - 1 - i] == s[s.len()
            - 1 - i],
        newest(newest(s, cap).push(x), cap) == newest(s.push(x), cap),
{
    assert(newest(newest(s, cap).push(x), cap) =~= newest(s.push(x), cap));
}

/// Each figure of a session follows its own sensor: the first reading is the
/// peak, every reading is counted in the mean with the sum it brings, and two
/// samples that agree on a sensor leave its figures alike.
pub proof fn session_figures_follow_their_sensor(
    s: SessionStats,
    g: GpuSnapshot,
    h: GpuSnapshot,
    util_sum: Real,
    power_sum: Real,
    v: Real,
)
    requires
        s.room(),
    ensures
        ({
            let t = stats_after(s, g, util_sum, power_sum);
            let u = stats_after(s, h, util_sum, power_sum);
            &&& s.max_util_pct is None && g.utilization_pct == Some(v) ==> t.max_util_pct == Some(v)
            &&& s.max_temp_c is None && g.temperature_c == Some(v) ==> t.max_temp_c == Some(v)
            &&& s.max_power_w is None && g.power_w == Some(v) ==> t.max_power_w == Some(v)
            &&& g.utilization_pct == Some(v) ==> mean_of(t.util) == Some(
                (util_sum, (s.util.n + 1) as u64),
            )
            &&& g.power_w == Some(v) ==> mean_of(t.power) == Some(
                (power_sum, (s.power.n + 1) as u64),
            )
            &&& g.utilization_pct == h.utilization_pct ==> t.max_util_pct == u.max_util_pct
                && t.util == u.util
            &&& g.temperature_c == h.temperature_c ==> t.max_temp_c == u.max_temp_c
            &&& g.power_w == h.power_w ==> t.max_power_w == u.max_power_w && t.power == u.power
        }),
{
}

/// A reading that is not a number never displaces one that is.
pub proof fn a_number_outlasts_what_is_none(m: Real, v: Real)
    requires
        is_nan(v),
        !is_nan(m),
    ensures
        peak_of(Some(m), Some(v)) == Some(m),
        peak_of(Some(v), Some(m)) == Some(m),
{
}

/// A device's samples are its own: those of another do not change them, and a
/// device that was never sampled has none.
pub proof fn samples_are_a_devices_own(
    m: Map<DeviceId, History>,
    k: DeviceId,
    other: DeviceId,
    h: History,
)
    requires
        k != other,
    ensures
        samples_of(m.insert(k, h), k) == h@,
        samples_of(m.insert(k, h), other) == samples_of(m, other),
        samples_of(m.remove(k), k).len() == 0,
        samples_of(Map::empty(), k).len() == 0,
{
}

} // verus!
