//! A device reading in the integers the drivers publish, before any of it is
//! scaled to a real number.
use vstd::prelude::*;
use crate::backend::linux::sweep::Ratio;
use crate::backend::ProcKind;
use crate::order::Real;

verus! {

/// A real-valued reading, as the integers that it is computed from.
#[derive(Debug)]
pub enum Figure {
    Whole(u64),
    /// Thousandths.
    Milli(u64),
    /// Millionths.
    Micro(u64),
    /// Microjoules over nanoseconds: watts.
    Energy { uj: u64, ns: u64 },
    /// `num` of `den` parts, in percent.
    Part { num: u64, den: u64 },
    /// The sum of these parts, in percent, at most one hundred.
    Shares(Vec<Ratio>),
    /// A real number, as it was read.
    Measured(Real),
    /// The largest, over the engines, of the sum of an engine's values.
    Busiest(Vec<EngineGroup>),
    /// The sum, over the engines, of their values.
    Total(Vec<EngineGroup>),
}

/// The values of one engine.
#[derive(Debug)]
pub struct EngineGroup {
    pub eng: String,
    pub values: Vec<Real>,
}

/// One reading of one device.
#[derive(Debug)]
pub struct RawSnapshot {
    pub name: String,
    pub device_id: Option<String>,
    pub integrated: bool,
    pub utilization_pct: Option<Figure>,
    pub mem_util_pct: Option<Figure>,
    pub video_util_pct: Option<Figure>,
    pub enc_util_pct: Option<Figure>,
    pub dec_util_pct: Option<Figure>,
    pub throttle: Option<String>,
    pub vram_used_bytes: Option<u64>,
    pub vram_total_bytes: Option<u64>,
    pub temperature_c: Option<Figure>,
    pub temp_slowdown_c: Option<Figure>,
    pub temp_junction_c: Option<Figure>,
    pub temp_mem_c: Option<Figure>,
    pub power_w: Option<Figure>,
    pub power_limit_w: Option<Figure>,
    pub fan_pct: Option<Figure>,
    pub fan_rpm: Option<u64>,
    pub clock_mhz: Option<u64>,
    pub mem_clock_mhz: Option<u64>,
    pub pcie_gen: Option<u8>,
    pub pcie_width: Option<u32>,
    pub pcie_max_gen: Option<u8>,
    pub pcie_max_width: Option<u32>,
    pub pcie_rx_kbs: Option<u64>,
    pub pcie_tx_kbs: Option<u64>,
    pub gtt_used_bytes: Option<u64>,
    pub gtt_total_bytes: Option<u64>,
    pub volt_mv: Option<u64>,
    pub perf_level: Option<String>,
}

/// One process on one device, before its figures are scaled.
#[derive(Debug)]
pub struct RawProcess {
    pub pid: u32,
    pub gpu_index: usize,
    pub kind: ProcKind,
    pub gpu_util_pct: Option<Figure>,
    pub gpu_mem_bytes: Option<u64>,
}

/// The reading that says nothing but a name and an identity.
pub open spec fn nothing_read(name: String, device_id: Option<String>) -> RawSnapshot {
    RawSnapshot {
        name,
        device_id,
        integrated: false,
        utilization_pct: None,
        mem_util_pct: None,
        video_util_pct: None,
        enc_util_pct: None,
        dec_util_pct: None,
        throttle: None,
        vram_used_bytes: None,
        vram_total_bytes: None,
        temperature_c: None,
        temp_slowdown_c: None,
        temp_junction_c: None,
        temp_mem_c: None,
        power_w: None,
        power_limit_w: None,
        fan_pct: None,
        fan_rpm: None,
        clock_mhz: None,
        mem_clock_mhz: None,
        pcie_gen: None,
        pcie_width: None,
        pcie_max_gen: None,
        pcie_max_width: None,
        pcie_rx_kbs: None,
        pcie_tx_kbs: None,
        gtt_used_bytes: None,
        gtt_total_bytes: None,
        volt_mv: None,
        perf_level: None,
    }
}

impl RawSnapshot {
    /// A reading that says nothing but a name and an identity.
    pub fn nothing(name: String, device_id: Option<String>) -> (s: Self)
        ensures
            s == nothing_read(name, device_id),
    {
        RawSnapshot {
            name,
            device_id,
            integrated: false,
            utilization_pct: None,
            mem_util_pct: None,
            video_util_pct: None,
            enc_util_pct: None,
            dec_util_pct: None,
            throttle: None,
            vram_used_bytes: None,
            vram_total_bytes: None,
            temperature_c: None,
            temp_slowdown_c: None,
            temp_junction_c: None,
            temp_mem_c: None,
            power_w: None,
            power_limit_w: None,
            fan_pct: None,
            fan_rpm: None,
            clock_mhz: None,
            mem_clock_mhz: None,
            pcie_gen: None,
            pcie_width: None,
            pcie_max_gen: None,
            pcie_max_width: None,
            pcie_rx_kbs: None,
            pcie_tx_kbs: None,
            gtt_used_bytes: None,
            gtt_total_bytes: None,
            volt_mv: None,
            perf_level: None,
        }
    }
}

/// A whole percentage, at most one hundred.
pub open spec fn whole_pct(v: Option<u64>) -> Option<Figure> {
    match v {
        Some(n) => Some(
            Figure::Whole(
                if n > 100 {
                    100
                } else {
                    n
                },
            ),
        ),
        None => None,
    }
}

pub fn read_pct(v: Option<u64>) -> (r: Option<Figure>)
    ensures
        r == whole_pct(v),
{
    match v {
        Some(n) => Some(
            Figure::Whole(
                if n > 100 {
                    100
                } else {
                    n
                },
            ),
        ),
        None => None,
    }
}

pub open spec fn thousandths(v: Option<u64>) -> Option<Figure> {
    match v {
        Some(n) => Some(Figure::Milli(n)),
        None => None,
    }
}

pub fn read_milli(v: Option<u64>) -> (r: Option<Figure>)
    ensures
        r == thousandths(v),
{
    match v {
        Some(n) => Some(Figure::Milli(n)),
        None => None,
    }
}

pub open spec fn millionths(v: Option<u64>) -> Option<Figure> {
    match v {
        Some(n) => Some(Figure::Micro(n)),
        None => None,
    }
}

pub fn read_micro(v: Option<u64>) -> (r: Option<Figure>)
    ensures
        r == millionths(v),
{
    match v {
        Some(n) => Some(Figure::Micro(n)),
        None => None,
    }
}

/// The shares that count for one card, of those reported at all.
pub open spec fn on_card(marks: Seq<(usize, Option<Ratio>)>, gpu: usize) -> Seq<Ratio>
    decreases marks.len(),
{
    if marks.len() == 0 {
        Seq::empty()
    } else {
        let rest = on_card(marks.drop_last(), gpu);
        match marks.last() {
            (g, Some(r)) => if g == gpu {
                rest.push(r)
            } else {
                rest
            },
            _ => rest,
        }
    }
}

/// A card's busy figure is the sum of its clients' shares, and unknown where
/// no client reported one.
pub open spec fn is_busy_figure(f: Option<Figure>, shares: Seq<Ratio>) -> bool {
    if shares.len() == 0 {
        f is None
    } else {
        f matches Some(Figure::Shares(v)) && v@ == shares
    }
}

pub fn busy_on(marks: &Vec<(usize, Option<Ratio>)>, gpu: usize) -> (f: Option<Figure>)
    ensures
        is_busy_figure(f, on_card(marks@, gpu)),
{
    let mut out: Vec<Ratio> = Vec::new();
    let mut i: usize = 0;
    assert(marks@.take(0) =~= Seq::<(usize, Option<Ratio>)>::empty());
    while i < marks.len()
        invariant
            i <= marks.len(),
            out@ == on_card(marks@.take(i as int), gpu),
        decreases marks.len() - i,
    {
        assert(marks@.take(i + 1).drop_last() =~= marks@.take(i as int));
        let (g, share) = marks[i];
        if let Some(r) = share {
            if g == gpu {
                out.push(r);
            }
        }
        i = i + 1;
    }
    assert(marks@.take(i as int) =~= marks@);
    if out.len() == 0 {
        None
    } else {
        Some(Figure::Shares(out))
    }
}

// ---------------------------------------------------------------- laws

/// The reading in millionths of its unit, for the figures that are one number.
pub open spec fn in_millionths(f: Figure) -> Option<int> {
    match f {
        Figure::Whole(n) => Some(n * 1_000_000),
        Figure::Milli(n) => Some(n * 1_000),
        Figure::Micro(n) => Some(n as int),
        _ => None,
    }
}

/// A figure that is `n` thousandths, or `n` millionths, of its unit.
pub open spec fn is_milli(f: Option<Figure>, n: nat) -> bool {
    f matches Some(x) && in_millionths(x) == Some(n as int * 1_000)
}

pub open spec fn is_micro(f: Option<Figure>, n: nat) -> bool {
    f matches Some(x) && in_millionths(x) == Some(n as int)
}

/// A whole percentage of at most one hundred passes through unchanged, a larger
/// one becomes one hundred, and one that could not be read stays unknown.
pub proof fn percentages_pass_through(n: u64)
    ensures
        n <= 100 ==> whole_pct(Some(n)) == Some(Figure::Whole(n)),
        n > 100 ==> whole_pct(Some(n)) == Some(Figure::Whole(100)),
        whole_pct(None) is None,
{
}

/// A larger percentage never reads as a smaller one.
pub proof fn percentages_rise_with_the_reading(a: u64, b: u64)
    requires
        a <= b,
    ensures
        (whole_pct(Some(a)) matches Some(x) && whole_pct(Some(b)) matches Some(y) && (
        in_millionths(x) matches Some(m) && in_millionths(y) matches Some(n) && 0 <= m <= n
            <= 100_000_000)),
{
}

/// A count of thousandths or millionths is that much of the unit, and one that
/// could not be read stays unknown.
pub proof fn fractions_keep_their_size(n: u64)
    ensures
        thousandths(Some(n)) matches Some(f) && in_millionths(f) == Some(n * 1_000),
        millionths(Some(n)) matches Some(f) && in_millionths(f) == Some(n as int),
        thousandths(None) is None && millionths(None) is None,
{
}

/// A card's shares are those of its own clients that reported one, each once.
pub proof fn shares_count_on_their_own_card(
    marks: Seq<(usize, Option<Ratio>)>,
    g: usize,
    r: Option<Ratio>,
    gpu: usize,
)
    ensures
        on_card(marks.push((g, r)), gpu) == (if g == gpu && r is Some {
            on_card(marks, gpu).push(r->0)
        } else {
            on_card(marks, gpu)
        }),
        on_card(Seq::empty(), gpu).len() == 0,
{
    assert(marks.push((g, r)).drop_last() =~= marks);
}

/// A card's busy figure is unknown only where none of its clients reported a
/// share; a client that reported nothing done makes it known, and idle.
pub proof fn busy_is_unknown_only_without_a_report(
    f: Option<Figure>,
    marks: Seq<(usize, Option<Ratio>)>,
    gpu: usize,
    k: int,
)
    requires
        is_busy_figure(f, on_card(marks, gpu)),
        0 <= k < marks.len(),
        marks[k].0 == gpu,
        marks[k].1 is Some,
    ensures
        f matches Some(Figure::Shares(v)) && v@.contains(marks[k].1->0),
    decreases marks.len(),
{
    lemma_on_card_holds(marks, gpu, k);
}

proof fn lemma_on_card_holds(marks: Seq<(usize, Option<Ratio>)>, gpu: usize, k: int)
    requires
        0 <= k < marks.len(),
        marks[k].0 == gpu,
        marks[k].1 is Some,
    ensures
        on_card(marks, gpu).contains(marks[k].1->0),
    decreases marks.len(),
{
    let rest = on_card(marks.drop_last(), gpu);
    let all = on_card(marks, gpu);
    if k < marks.len() - 1 {
        assert(marks.drop_last()[k] == marks[k]);
        lemma_on_card_holds(marks.drop_last(), gpu, k);
        let w = choose|w: int| 0 <= w < rest.len() && rest[w] == marks[k].1->0;
        assert(all[w] == marks[k].1->0);
    } else {
        assert(all[rest.len() as int] == marks[k].1->0);
    }
}

} // verus!
