//! NVIDIA cards: what NVML answers and, beside it or in its place, what sysfs
//! says of the cards on the open driver.
use std::collections::HashMap;
use vstd::prelude::*;
use crate::backend::linux::gts::gen_at;
use crate::backend::linux::sysfs::{a_link_is_read_from_its_files, a_written_number_is_read, read_u64, are_ids_of, by_index, cards_with_driver, claims, fan_duty, holds_number, ids_of, lemma_claims_in_range, link_of, number_in, pci_device_id, pcie_current_link, CardEntry, LinkTexts, ScannedCard, a_links_generation_is_that_of_its_rate};
use crate::backend::raw::{is_micro, is_milli, millionths, nothing_read, read_micro, read_milli, read_pct, thousandths, whole_pct, Figure, RawProcess, RawSnapshot};
use crate::backend::{join_throttle, opt_text, ProcKind};
use crate::order::Real;
use crate::text::{decimal, decimal_text, join, same_text, str_texts, string_texts, words, a_text_is_found_where_it_stands, contains_text};

verus! {

/// NVIDIA's PCI vendor id, as sysfs writes it.
pub const NVIDIA_VENDOR: &'static str = "0x10de";

// ---------------------------------------------------------------- throttling

/// The throttle reasons that the label speaks of.
#[derive(Clone, Copy, PartialEq, Eq, Structural, Debug)]
pub struct Reasons {
    pub sw_power_cap: bool,
    pub hw_slowdown: bool,
    pub sw_thermal: bool,
    pub hw_thermal: bool,
    pub hw_power_brake: bool,
}

pub open spec fn reasons_of(bits: u64) -> Reasons {
    Reasons {
        sw_power_cap: bits & 4 != 0,
        hw_slowdown: bits & 8 != 0,
        sw_thermal: bits & 32 != 0,
        hw_thermal: bits & 64 != 0,
        hw_power_brake: bits & 128 != 0,
    }
}

/// `nvml_wrapper`'s `ThrottleReasons`, asked with `contains` for each reason
/// that the label speaks of. Claimed: each reason is one bit of NVML's mask,
/// the third, fourth, sixth, seventh and eighth, and is contained where that
/// bit is set, whatever other bits are.
#[verifier::external_body]
fn reasons_in(bits: u64) -> (r: Reasons)
    ensures
        r == reasons_of(bits),
{
    let mask = nvml_wrapper::bitmasks::device::ThrottleReasons::from_bits_retain(bits);
    Reasons {
        sw_power_cap: mask.contains(nvml_wrapper::bitmasks::device::ThrottleReasons::SW_POWER_CAP),
        hw_slowdown: mask.contains(nvml_wrapper::bitmasks::device::ThrottleReasons::HW_SLOWDOWN),
        sw_thermal: mask.contains(nvml_wrapper::bitmasks::device::ThrottleReasons::SW_THERMAL_SLOWDOWN),
        hw_thermal: mask.contains(nvml_wrapper::bitmasks::device::ThrottleReasons::HW_THERMAL_SLOWDOWN),
        hw_power_brake: mask.contains(nvml_wrapper::bitmasks::device::ThrottleReasons::HW_POWER_BRAKE_SLOWDOWN),
    }
}

/// The words for a set of reasons, in the order they are named.
pub open spec fn throttle_words(r: Reasons) -> Seq<Seq<char>> {
    let thermal = if r.sw_thermal || r.hw_thermal {
        seq!["thermal"@]
    } else {
        Seq::empty()
    };
    let power = if r.sw_power_cap || r.hw_power_brake {
        seq!["power-limit"@]
    } else {
        Seq::empty()
    };
    let slowdown = if r.hw_slowdown {
        seq!["hw-slowdown"@]
    } else {
        Seq::empty()
    };
    thermal + power + slowdown
}

/// NVML's throttle mask as a short label; idle and applications-clocks states
/// are no throttles.
pub fn throttle_label(bits: u64) -> (label: Option<String>)
    ensures
        opt_text(label) == (if throttle_words(reasons_of(bits)).len() == 0 {
            None
        } else {
            Some(join(throttle_words(reasons_of(bits)), "+"@))
        }),
{
    let r = reasons_in(bits);
    let mut parts: Vec<&str> = Vec::new();
    if r.sw_thermal || r.hw_thermal {
        parts.push("thermal");
    }
    if r.sw_power_cap || r.hw_power_brake {
        parts.push("power-limit");
    }
    if r.hw_slowdown {
        parts.push("hw-slowdown");
    }
    assert(str_texts(parts@) =~= throttle_words(r));
    join_throttle(parts.as_slice())
}

// ---------------------------------------------------------------- readings

/// What NVML says of a process's memory.
#[derive(Clone, Copy, PartialEq, Eq, Structural, Debug)]
pub enum UsedMemory {
    Used(u64),
    /// Declined, as Windows always does under WDDM.
    Unavailable,
}

/// A process's memory; unknown, never zero, where NVML declines to say.
pub fn mem_bytes(m: &UsedMemory) -> (r: Option<u64>)
    ensures
        r == used(*m),
{
    match m {
        UsedMemory::Used(b) => Some(*b),
        UsedMemory::Unavailable => None,
    }
}

pub open spec fn used(m: UsedMemory) -> Option<u64> {
    match m {
        UsedMemory::Used(b) => Some(b),
        UsedMemory::Unavailable => None,
    }
}

/// A value of an NVML field, in the type it came in.
#[derive(Clone, Copy, PartialEq, Eq, Structural, Debug)]
pub enum FieldValue {
    Real(Real),
    Unsigned(u64),
    Signed(i64),
}

/// Greater than zero, as a real number: positive, and a number at all.
pub open spec fn is_positive(r: Real) -> bool {
    0 < r.bits <= 0x7ff0_0000_0000_0000
}

/// A temperature field; zero and below are "no reading".
pub open spec fn field_temp(v: FieldValue) -> Option<Figure> {
    match v {
        FieldValue::Real(r) => if is_positive(r) {
            Some(Figure::Measured(r))
        } else {
            None
        },
        FieldValue::Unsigned(n) => if n > 0 {
            Some(Figure::Whole(n))
        } else {
            None
        },
        FieldValue::Signed(n) => if n > 0 {
            Some(Figure::Whole(n as u64))
        } else {
            None
        },
    }
}

/// A temperature field in degrees, in whatever type NVML answered; zero is
/// NVML's "answered but no reading", and no powered card is at or below it.
pub fn field_temp_c(v: FieldValue) -> (r: Option<Figure>)
    ensures
        r == field_temp(v),
{
    match v {
        FieldValue::Real(x) => if x.bits > 0 && x.bits <= 0x7ff0_0000_0000_0000 {
            Some(Figure::Measured(x))
        } else {
            None
        },
        FieldValue::Unsigned(n) => if n > 0 {
            Some(Figure::Whole(n))
        } else {
            None
        },
        FieldValue::Signed(n) => if n > 0 {
            Some(Figure::Whole(n as u64))
        } else {
            None
        },
    }
}

/// The slowdown threshold in degrees; the sentinels of drivers that publish
/// none fall outside one to two hundred.
pub fn slowdown_threshold_c(t: Option<u32>) -> (r: Option<u32>)
    ensures
        r == (match t {
            Some(v) => if 1 <= v <= 200 {
                Some(v)
            } else {
                None
            },
            None => None,
        }),
{
    match t {
        Some(v) => if v >= 1 && v <= 200 {
            Some(v)
        } else {
            None
        },
        None => None,
    }
}

/// The slowdown threshold that is reported: the one that was found once, and
/// what the driver answers now where none was.
pub open spec fn slowdown_limit(cached: Option<u32>, asked: Option<u32>) -> Option<u32> {
    match (cached, asked) {
        (Some(v), _) => Some(v),
        (None, Some(v)) => if 1 <= v <= 200 {
            Some(v)
        } else {
            None
        },
        (None, None) => None,
    }
}

pub fn slowdown_limit_c(cached: Option<u32>, asked: Option<u32>) -> (r: Option<u32>)
    ensures
        r == slowdown_limit(cached, asked),
{
    match cached {
        Some(v) => Some(v),
        None => slowdown_threshold_c(asked),
    }
}

/// How many fans to ask: what the board has, and the first one where the
/// driver declined to count.
pub fn fans_to_ask(fans: Option<u32>) -> (n: u32)
    ensures
        n == fans_asked(fans),
{
    match fans {
        Some(v) => if v > 1 {
            v
        } else {
            1
        },
        None => 1,
    }
}

/// `r` is the largest of the readings that succeeded.
pub open spec fn is_highest(r: Option<u32>, readings: Seq<Option<u32>>) -> bool {
    match r {
        None => forall|k: int| 0 <= k < readings.len() ==> (#[trigger] readings[k]) is None,
        Some(v) => readings.contains(Some(v)) && forall|k: int|
            0 <= k < readings.len() ==> ((#[trigger] readings[k]) matches Some(w) ==> w <= v),
    }
}

/// The highest reading over all fans of the board; none where no fan answered.
pub fn highest(readings: &Vec<Option<u32>>) -> (r: Option<u32>)
    ensures
        is_highest(r, readings@),
{
    let mut best: Option<u32> = None;
    let mut i: usize = 0;
    while i < readings.len()
        invariant
            i <= readings.len(),
            is_highest(best, readings@.take(i as int)),
        decreases readings.len() - i,
    {
        let ghost was = best;
        let ghost head = readings@.take(i as int);
        let ghost next = readings@.take(i + 1);
        if let Some(v) = readings[i] {
            best =
            match best {
                Some(b) => if b >= v {
                    Some(b)
                } else {
                    Some(v)
                },
                None => Some(v),
            };
        }
        proof {
            assert(next[i as int] == readings@[i as int]);
            assert(forall|k: int| 0 <= k < i ==> next[k] == head[k]);
            if let Some(b) = was {
                let k = choose|k: int| 0 <= k < head.len() && head[k] == Some(b);
                assert(next[k] == Some(b));
            }
            if best is Some && best != was {
                assert(next[i as int] == best);
            }
            assert forall|k: int| 0 <= k < next.len() implies (best is None ==> (#[trigger] next[k]) is None) by {
                if k < i {
                    assert(next[k] == head[k]);
                }
            }
            assert forall|k: int| 0 <= k < next.len() && best is Some implies ((#[trigger] next[k]) matches Some(w) ==> w <= best->0) by {
                if k < i {
                    assert(next[k] == head[k]);
                    assert(was is None ==> head[k] is None);
                }
            }
        }
        i = i + 1;
    }
    assert(readings@.take(i as int) =~= readings@);
    best
}

/// A P-state as "P0" to "P15"; the state that NVML calls unknown has no label.
pub fn pstate_label(n: u32) -> (r: Option<String>)
    ensures
        opt_text(r) == (if n <= 15 {
            Some("P"@ + decimal(n as nat))
        } else {
            None
        }),
{
    if n <= 15 {
        let mut s = String::new();
        s.append("P");
        let digits = decimal_text(n as u64);
        s.append(digits.as_str());
        assert(s@ =~= "P"@ + decimal(n as nat));
        Some(s)
    } else {
        None
    }
}

/// NVML counts PCIe traffic in thousands of bytes; the field holds KiB.
pub fn kb_to_kib(kb: u32) -> (kib: u64)
    ensures
        kib == kb as int * 1000 / 1024,
{
    kb as u64 * 1000 / 1024
}

/// Properties that are fixed for the life of a device, asked once; nothing
/// marks a query that the driver refused.
#[derive(Debug)]
pub struct NvmlDevice {
    pub uuid: Option<String>,
    pub name: Option<String>,
    pub integrated: Option<bool>,
    pub pcie_max_gen: Option<u32>,
    pub pcie_max_width: Option<u32>,
    /// The slowdown threshold in degrees, where the driver published one.
    pub slowdown_c: Option<u32>,
}

/// What a device answered at one poll; nothing marks a query that failed, or
/// that was not made because the answer is fixed and known.
#[derive(Debug)]
pub struct NvmlReads {
    pub name: Option<String>,
    /// On Tegra's on-SoC bus, the one bus no discrete card reports.
    pub on_soc: Option<bool>,
    pub gpu_util: Option<u32>,
    pub mem_util: Option<u32>,
    pub enc_util: Option<u32>,
    pub dec_util: Option<u32>,
    pub throttle_bits: Option<u64>,
    pub mem_used: Option<u64>,
    pub mem_total: Option<u64>,
    pub temp: Option<u32>,
    /// The slowdown threshold as the driver answered it.
    pub slowdown: Option<u32>,
    pub mem_temp: Option<FieldValue>,
    pub power_mw: Option<u32>,
    pub power_limit_mw: Option<u32>,
    pub fan_pct: Vec<Option<u32>>,
    pub fan_rpm: Vec<Option<u32>>,
    pub clock: Option<u32>,
    pub mem_clock: Option<u32>,
    pub pcie_gen: Option<u32>,
    pub pcie_width: Option<u32>,
    pub pcie_max_gen: Option<u32>,
    pub pcie_max_width: Option<u32>,
    pub pcie_rx_kb: Option<u32>,
    pub pcie_tx_kb: Option<u32>,
    pub pstate: Option<u32>,
}

pub open spec fn wide(v: Option<u32>) -> Option<u64> {
    match v {
        Some(n) => Some(n as u64),
        None => None,
    }
}

fn widen(v: Option<u32>) -> (r: Option<u64>)
    ensures
        r == wide(v),
{
    match v {
        Some(n) => Some(n as u64),
        None => None,
    }
}

/// A link generation in a byte.
pub open spec fn gen_byte(v: Option<u32>) -> Option<u8> {
    match v {
        Some(g) => Some((g % 256) as u8),
        None => None,
    }
}

fn gen_of(v: Option<u32>) -> (r: Option<u8>)
    ensures
        r == gen_byte(v),
{
    match v {
        Some(g) => Some((g % 256) as u8),
        None => None,
    }
}

pub open spec fn kib(v: Option<u32>) -> Option<u64> {
    match v {
        Some(kb) => Some((kb as int * 1000 / 1024) as u64),
        None => None,
    }
}

fn kib_of(v: Option<u32>) -> (r: Option<u64>)
    ensures
        r == kib(v),
{
    match v {
        Some(kb) => Some(kb_to_kib(kb)),
        None => None,
    }
}

pub open spec fn whole(v: Option<u32>) -> Option<Figure> {
    match v {
        Some(n) => Some(Figure::Whole(n as u64)),
        None => None,
    }
}

fn whole_of(v: Option<u32>) -> (r: Option<Figure>)
    ensures
        r == whole(v),
{
    match v {
        Some(n) => Some(Figure::Whole(n as u64)),
        None => None,
    }
}

/// The first of two answers that is one.
pub open spec fn or_else<T>(a: Option<T>, b: Option<T>) -> Option<T> {
    if a is Some {
        a
    } else {
        b
    }
}

/// `s` is what the device answered, field by field.
pub open spec fn is_nvml_sample(s: RawSnapshot, i: u32, d: NvmlDevice, r: NvmlReads) -> bool {
    &&& s.name@ == (match or_else(opt_text(d.name), opt_text(r.name)) {
        Some(n) => n,
        None => "NVIDIA GPU "@ + decimal(i as nat),
    })
    &&& opt_text(s.device_id) == opt_text(d.uuid)
    &&& s.integrated == (or_else(d.integrated, r.on_soc) == Some(true))
    &&& s.utilization_pct == whole_pct(wide(r.gpu_util))
    &&& s.mem_util_pct == whole_pct(wide(r.mem_util))
    &&& s.video_util_pct is None
    &&& s.enc_util_pct == whole_pct(wide(r.enc_util))
    &&& s.dec_util_pct == whole_pct(wide(r.dec_util))
    &&& opt_text(s.throttle) == (match r.throttle_bits {
        Some(bits) => if throttle_words(reasons_of(bits)).len() == 0 {
            None
        } else {
            Some(join(throttle_words(reasons_of(bits)), "+"@))
        },
        None => None,
    })
    &&& s.vram_used_bytes == r.mem_used
    &&& s.vram_total_bytes == r.mem_total
    &&& s.temperature_c == whole(r.temp)
    &&& s.temp_slowdown_c == whole(slowdown_limit(d.slowdown_c, r.slowdown))
    &&& s.temp_junction_c is None
    &&& s.temp_mem_c == (match r.mem_temp {
        Some(v) => field_temp(v),
        None => None,
    })
    &&& s.power_w == thousandths(wide(r.power_mw))
    &&& s.power_limit_w == thousandths(wide(r.power_limit_mw))
    &&& exists|p: Option<u32>|
        #[trigger] is_highest(p, r.fan_pct@) && s.fan_pct == whole(p)
    &&& exists|p: Option<u32>|
        #[trigger] is_highest(p, r.fan_rpm@) && s.fan_rpm == wide(p)
    &&& s.clock_mhz == wide(r.clock)
    &&& s.mem_clock_mhz == wide(r.mem_clock)
    &&& s.pcie_gen == gen_byte(r.pcie_gen)
    &&& s.pcie_width == r.pcie_width
    &&& s.pcie_max_gen == gen_byte(or_else(d.pcie_max_gen, r.pcie_max_gen))
    &&& s.pcie_max_width == or_else(d.pcie_max_width, r.pcie_max_width)
    &&& s.pcie_rx_kbs == kib(r.pcie_rx_kb)
    &&& s.pcie_tx_kbs == kib(r.pcie_tx_kb)
    &&& s.gtt_used_bytes is None
    &&& s.gtt_total_bytes is None
    &&& s.volt_mv is None
    &&& opt_text(s.perf_level) == (match r.pstate {
        Some(n) => if n <= 15 {
            Some("P"@ + decimal(n as nat))
        } else {
            None
        },
        None => None,
    })
}

fn numbered(prefix: &str, i: u32, suffix: &str) -> (s: String)
    ensures
        s@ == prefix@ + decimal(i as nat) + suffix@,
{
    let mut s = String::new();
    s.append(prefix);
    let digits = decimal_text(i as u64);
    s.append(digits.as_str());
    s.append(suffix);
    assert(s@ =~= prefix@ + decimal(i as nat) + suffix@);
    s
}

/// One reading of device `i`. A device that dropped off the bus keeps its
/// place and its identity, and nothing else is said of it; what was asked once
/// and refused is taken from this poll's answers.
pub fn snapshot(i: u32, d: &NvmlDevice, reads: &Option<NvmlReads>) -> (s: RawSnapshot)
    ensures
        is_snapshot(s, i, *d, *reads),
{
    let device_id = match &d.uuid {
        Some(u) => Some(u.clone()),
        None => None,
    };
    let r = match reads {
        Some(r) => r,
        None => {
            return RawSnapshot::nothing(
                numbered("NVIDIA GPU ", i, " (unavailable)"),
                device_id,
            );
        },
    };
    let name = match &d.name {
        Some(n) => n.clone(),
        None => match &r.name {
            Some(n) => n.clone(),
            None => {
                let n = numbered("NVIDIA GPU ", i, "");
                proof {
                    reveal_strlit("");
                    assert(n@ =~= "NVIDIA GPU "@ + decimal(i as nat));
                }
                n
            },
        },
    };
    let integrated = match d.integrated {
        Some(b) => b,
        None => match r.on_soc {
            Some(b) => b,
            None => false,
        },
    };
    let max_gen = if d.pcie_max_gen.is_some() {
        d.pcie_max_gen
    } else {
        r.pcie_max_gen
    };
    let max_width = if d.pcie_max_width.is_some() {
        d.pcie_max_width
    } else {
        r.pcie_max_width
    };
    let pct = highest(&r.fan_pct);
    let rpm = highest(&r.fan_rpm);
    let mut s = RawSnapshot::nothing(name, device_id);
    s.integrated = integrated;
    s.utilization_pct = read_pct(widen(r.gpu_util));
    s.mem_util_pct = read_pct(widen(r.mem_util));
    s.enc_util_pct = read_pct(widen(r.enc_util));
    s.dec_util_pct = read_pct(widen(r.dec_util));
    s.throttle =
    match r.throttle_bits {
        Some(bits) => throttle_label(bits),
        None => None,
    };
    s.vram_used_bytes = r.mem_used;
    s.vram_total_bytes = r.mem_total;
    s.temperature_c = whole_of(r.temp);
    s.temp_slowdown_c = whole_of(slowdown_limit_c(d.slowdown_c, r.slowdown));
    s.temp_mem_c =
    match r.mem_temp {
        Some(v) => field_temp_c(v),
        None => None,
    };
    s.power_w = read_milli(widen(r.power_mw));
    s.power_limit_w = read_milli(widen(r.power_limit_mw));
    s.fan_pct = whole_of(pct);
    s.fan_rpm = widen(rpm);
    s.clock_mhz = widen(r.clock);
    s.mem_clock_mhz = widen(r.mem_clock);
    s.pcie_gen = gen_of(r.pcie_gen);
    s.pcie_width = r.pcie_width;
    s.pcie_max_gen = gen_of(max_gen);
    s.pcie_max_width = max_width;
    s.pcie_rx_kbs = kib_of(r.pcie_rx_kb);
    s.pcie_tx_kbs = kib_of(r.pcie_tx_kb);
    s.perf_level =
    match r.pstate {
        Some(n) => pstate_label(n),
        None => None,
    };
    s
}

// ---------------------------------------------------------------- processes

/// One utilization sample of one process.
#[derive(Clone, Copy, PartialEq, Eq, Structural, Debug)]
pub struct UtilSample {
    pub pid: u32,
    pub timestamp: u64,
    pub sm_util: u32,
}

/// The newest sample of `pid`, the later of two equally new ones.
pub open spec fn newest_of(samples: Seq<UtilSample>, pid: u32) -> Option<UtilSample>
    decreases samples.len(),
{
    if samples.len() == 0 {
        None
    } else {
        let rest = newest_of(samples.drop_last(), pid);
        let s = samples.last();
        if s.pid != pid {
            rest
        } else {
            match rest {
                Some(r) => if s.timestamp >= r.timestamp {
                    Some(s)
                } else {
                    rest
                },
                None => Some(s),
            }
        }
    }
}

/// The newest timestamp, and no older than the watermark.
pub open spec fn newest_stamp(samples: Seq<UtilSample>, watermark: u64) -> u64
    decreases samples.len(),
{
    if samples.len() == 0 {
        watermark
    } else {
        let rest = newest_stamp(samples.drop_last(), watermark);
        if samples.last().timestamp > rest {
            samples.last().timestamp
        } else {
            rest
        }
    }
}

/// A percentage, at most one hundred.
pub open spec fn capped(v: u32) -> u32 {
    if v > 100 {
        100
    } else {
        v
    }
}

/// `util` holds the newest utilization of exactly the sampled processes.
pub open spec fn is_folded(util: Map<u32, u32>, samples: Seq<UtilSample>) -> bool {
    &&& forall|pid: u32| #[trigger] util.dom().contains(pid) <==> newest_of(samples, pid) is Some
    &&& forall|pid: u32|
        util.dom().contains(pid) ==> #[trigger] util[pid] == capped(
            newest_of(samples, pid)->0.sm_util,
        )
}

/// One batch of samples as one percentage per process, the newest one, and the
/// new watermark. The order of the samples does not say which is newest.
pub fn fold_util(samples: &Vec<UtilSample>, watermark: u64) -> (r: (HashMap<u32, u32>, u64))
    ensures
        is_folded(r.0@, samples@),
        r.1 == newest_stamp(samples@, watermark),
{
    broadcast use vstd::std_specs::hash::group_hash_axioms;

    let mut util: HashMap<u32, u32> = HashMap::new();
    let mut stamps: HashMap<u32, u64> = HashMap::new();
    let mut newest: u64 = watermark;
    let mut i: usize = 0;
    assert(samples@.take(0) =~= Seq::<UtilSample>::empty());
    while i < samples.len()
        invariant
            i <= samples.len(),
            newest == newest_stamp(samples@.take(i as int), watermark),
            is_folded(util@, samples@.take(i as int)),
            stamps@.dom() == util@.dom(),
            forall|pid: u32|
                stamps@.dom().contains(pid) ==> #[trigger] stamps@[pid] == newest_of(
                    samples@.take(i as int),
                    pid,
                )->0.timestamp,
        decreases samples.len() - i,
    {
        let s = samples[i];
        let ghost head = samples@.take(i as int);
        let ghost next = samples@.take(i + 1);
        let ghost was = util@;
        let ghost was_stamps = stamps@;
        proof {
            assert(next.drop_last() =~= head);
            assert(next.last() == s);
        }
        if s.timestamp > newest {
            newest = s.timestamp;
        }
        let newer = match stamps.get(&s.pid) {
            Some(t) => s.timestamp >= *t,
            None => true,
        };
        if newer {
            let pct: u32 = if s.sm_util > 100 {
                100
            } else {
                s.sm_util
            };
            util.insert(s.pid, pct);
            stamps.insert(s.pid, s.timestamp);
        }
        proof {
            assert forall|pid: u32| #[trigger] util@.dom().contains(pid) <==> newest_of(next, pid) is Some by {
                assert(was.dom().contains(pid) <==> newest_of(head, pid) is Some);
            }
            assert forall|pid: u32| util@.dom().contains(pid) implies #[trigger] util@[pid] == capped(newest_of(next, pid)->0.sm_util) by {
                if pid != s.pid {
                    assert(was.dom().contains(pid));
                    assert(was[pid] == util@[pid]);
                } else if !newer {
                    assert(was.dom().contains(pid));
                    assert(was[pid] == util@[pid]);
                    assert(was_stamps[pid] == newest_of(head, pid)->0.timestamp);
                } else if was_stamps.dom().contains(pid) {
                    assert(was_stamps[pid] == newest_of(head, pid)->0.timestamp);
                } else {
                    assert(!was.dom().contains(pid));
                }
            }
            assert forall|pid: u32| stamps@.dom().contains(pid) implies #[trigger] stamps@[pid] == newest_of(next, pid)->0.timestamp by {
                if pid != s.pid || !newer {
                    assert(was_stamps[pid] == newest_of(head, pid)->0.timestamp);
                } else if was_stamps.dom().contains(pid) {
                    assert(was_stamps[pid] == newest_of(head, pid)->0.timestamp);
                } else {
                    assert(!was.dom().contains(pid));
                }
            }
            assert(stamps@.dom() =~= util@.dom());
        }
        i = i + 1;
    }
    assert(samples@.take(i as int) =~= samples@);
    (util, newest)
}

/// The last entry of `pid` in a process list.
pub open spec fn last_entry(list: Seq<(u32, UsedMemory)>, pid: u32) -> Option<UsedMemory>
    decreases list.len(),
{
    if list.len() == 0 {
        None
    } else if list.last().0 == pid {
        Some(list.last().1)
    } else {
        last_entry(list.drop_last(), pid)
    }
}

/// What the two process lists say of one process: graphics wins.
pub open spec fn merged_of(
    compute: Seq<(u32, UsedMemory)>,
    graphics: Seq<(u32, UsedMemory)>,
    pid: u32,
) -> Option<(Option<u64>, ProcKind)> {
    match last_entry(graphics, pid) {
        Some(m) => Some((used(m), ProcKind::Graphics)),
        None => match last_entry(compute, pid) {
            Some(m) => Some((used(m), ProcKind::Compute)),
            None => None,
        },
    }
}

/// One row per process, in no promised order.
pub open spec fn rows_agree(
    rows: Seq<RawProcess>,
    compute: Seq<(u32, UsedMemory)>,
    graphics: Seq<(u32, UsedMemory)>,
) -> bool {
    &&& forall|a: int, b: int|
        0 <= a < b < rows.len() ==> (#[trigger] rows[a]).pid != (#[trigger] rows[b]).pid
    &&& forall|k: int|
        0 <= k < rows.len() ==> merged_of(compute, graphics, (#[trigger] rows[k]).pid) == Some(
            (rows[k].gpu_mem_bytes, rows[k].kind),
        )
    &&& forall|pid: u32|
        (#[trigger] merged_of(compute, graphics, pid)) is Some ==> exists|k: int|
            0 <= k < rows.len() && (#[trigger] rows[k]).pid == pid
}

/// The utilization of a process, where one was sampled.
pub open spec fn util_figure(util: Map<u32, u32>, pid: u32) -> Option<Figure> {
    if util.dom().contains(pid) {
        Some(Figure::Whole(util[pid] as u64))
    } else {
        None
    }
}

fn put_row(rows: &mut Vec<RawProcess>, pid: u32, gpu: usize, mem: Option<u64>, kind: ProcKind)
    requires
        forall|a: int, b: int|
            0 <= a < b < old(rows)@.len() ==> (#[trigger] old(rows)@[a]).pid != (#[trigger] old(
                rows,
            )@[b]).pid,
    ensures
        forall|a: int, b: int|
            0 <= a < b < final(rows)@.len() ==> (#[trigger] final(rows)@[a]).pid != (
            #[trigger] final(rows)@[b]).pid,
        final(rows)@.len() >= old(rows)@.len(),
        forall|k: int|
            0 <= k < final(rows)@.len() ==> if (#[trigger] final(rows)@[k]).pid == pid {
                final(rows)@[k] == (RawProcess {
                    pid,
                    gpu_index: gpu,
                    kind,
                    gpu_util_pct: None,
                    gpu_mem_bytes: mem,
                })
            } else {
                k < old(rows)@.len() && final(rows)@[k] == old(rows)@[k]
            },
        exists|k: int| 0 <= k < final(rows)@.len() && (#[trigger] final(rows)@[k]).pid == pid,
        forall|k: int|
            0 <= k < old(rows)@.len() ==> (#[trigger] old(rows)@[k]).pid == final(rows)@[k].pid,
{
    let row = RawProcess { pid, gpu_index: gpu, kind, gpu_util_pct: None, gpu_mem_bytes: mem };
    let ghost before = rows@;
    let mut i: usize = 0;
    while i < rows.len()
        invariant
            i <= rows.len(),
            rows@ == before,
            forall|k: int| 0 <= k < i ==> (#[trigger] rows@[k]).pid != pid,
            forall|a: int, b: int|
                0 <= a < b < rows@.len() ==> (#[trigger] rows@[a]).pid != (#[trigger] rows@[b]).pid,
            before == old(rows)@,
            row == (RawProcess { pid, gpu_index: gpu, kind, gpu_util_pct: None, gpu_mem_bytes: mem }),
        decreases rows.len() - i,
    {
        if rows[i].pid == pid {
            rows[i] = row;
            proof {
                assert(rows@ == before.update(i as int, row));
                assert(rows@[i as int].pid == pid);
                assert forall|k: int| 0 <= k < rows@.len() implies (if (#[trigger] rows@[k]).pid == pid {
                    rows@[k] == row
                } else {
                    k < before.len() && rows@[k] == before[k]
                }) by {
                    if k != i {
                        assert(rows@[k] == before[k]);
                        assert(before[i as int].pid != before[k].pid);
                    }
                }
            }
            return;
        }
        i = i + 1;
    }
    rows.push(row);
    assert(rows@[before.len() as int].pid == pid);
    assert(forall|k: int| 0 <= k < before.len() ==> rows@[k] == before[k]);
}

/// One row per process of device `gpu`: from the compute and the graphics
/// lists, the graphics one winning, with its newest utilization.
pub fn merge_processes(
    compute: &Vec<(u32, UsedMemory)>,
    graphics: &Vec<(u32, UsedMemory)>,
    util: &HashMap<u32, u32>,
    gpu: usize,
) -> (rows: Vec<RawProcess>)
    ensures
        rows_agree(rows@, compute@, graphics@),
        forall|k: int|
            0 <= k < rows@.len() ==> (#[trigger] rows@[k]).gpu_index == gpu && rows@[k].gpu_util_pct
                == util_figure(util@, rows@[k].pid),
{
    broadcast use vstd::std_specs::hash::group_hash_axioms;

    let mut rows: Vec<RawProcess> = Vec::new();
    let ghost none: Seq<(u32, UsedMemory)> = Seq::empty();
    let mut i: usize = 0;
    assert(compute@.take(0) =~= none);
    while i < compute.len()
        invariant
            i <= compute.len(),
            none == Seq::<(u32, UsedMemory)>::empty(),
            rows_agree(rows@, compute@.take(i as int), none),
            forall|k: int|
                0 <= k < rows@.len() ==> (#[trigger] rows@[k]).gpu_index == gpu
                    && rows@[k].gpu_util_pct is None,
        decreases compute.len() - i,
    {
        let (pid, m) = compute[i];
        let ghost was = rows@;
        put_row(&mut rows, pid, gpu, mem_bytes(&m), ProcKind::Compute);
        proof {
            let next = compute@.take(i + 1);
            assert(next.drop_last() =~= compute@.take(i as int));
            lemma_rows_step(was, rows@, compute@.take(i as int), none, next, none, pid, gpu, mem_bytes_spec(m, ProcKind::Compute));
        }
        i = i + 1;
    }
    assert(compute@.take(i as int) =~= compute@);
    let mut j: usize = 0;
    assert(graphics@.take(0) =~= none);
    while j < graphics.len()
        invariant
            j <= graphics.len(),
            rows_agree(rows@, compute@, graphics@.take(j as int)),
            forall|k: int|
                0 <= k < rows@.len() ==> (#[trigger] rows@[k]).gpu_index == gpu
                    && rows@[k].gpu_util_pct is None,
        decreases graphics.len() - j,
    {
        let (pid, m) = graphics[j];
        let ghost was = rows@;
        put_row(&mut rows, pid, gpu, mem_bytes(&m), ProcKind::Graphics);
        proof {
            let next = graphics@.take(j + 1);
            assert(next.drop_last() =~= graphics@.take(j as int));
            lemma_rows_step(was, rows@, compute@, graphics@.take(j as int), compute@, next, pid, gpu, mem_bytes_spec(m, ProcKind::Graphics));
        }
        j = j + 1;
    }
    assert(graphics@.take(j as int) =~= graphics@);
    let ghost merged = rows@;
    let mut k: usize = 0;
    while k < rows.len()
        invariant
            k <= rows.len(),
            rows@.len() == merged.len(),
            forall|x: int|
                0 <= x < rows@.len() ==> (#[trigger] rows@[x]) == (RawProcess {
                    gpu_util_pct: rows@[x].gpu_util_pct,
                    ..merged[x]
                }),
            forall|x: int|
                0 <= x < k ==> (#[trigger] rows@[x]).gpu_util_pct == util_figure(
                    util@,
                    rows@[x].pid,
                ),
        decreases rows.len() - k,
    {
        let row = RawProcess {
            pid: rows[k].pid,
            gpu_index: rows[k].gpu_index,
            kind: rows[k].kind,
            gpu_util_pct: match util.get(&rows[k].pid) {
                Some(u) => Some(Figure::Whole(*u as u64)),
                None => None,
            },
            gpu_mem_bytes: rows[k].gpu_mem_bytes,
        };
        rows[k] = row;
        k = k + 1;
    }
    proof {
        assert forall|pid: u32| (#[trigger] merged_of(compute@, graphics@, pid)) is Some implies exists|x: int|
            0 <= x < rows@.len() && (#[trigger] rows@[x]).pid == pid by {
            let x = choose|x: int| 0 <= x < merged.len() && (#[trigger] merged[x]).pid == pid;
            assert(rows@[x].pid == pid);
        }
        assert forall|a: int, b: int| 0 <= a < b < rows@.len() implies (#[trigger] rows@[a]).pid != (#[trigger] rows@[b]).pid by {
            assert(merged[a].pid != merged[b].pid);
        }
        assert forall|x: int| 0 <= x < rows@.len() implies merged_of(compute@, graphics@, (#[trigger] rows@[x]).pid) == Some(
            (rows@[x].gpu_mem_bytes, rows@[x].kind),
        ) by {
            assert(merged_of(compute@, graphics@, merged[x].pid) == Some((merged[x].gpu_mem_bytes, merged[x].kind)));
        }
        assert forall|x: int| 0 <= x < rows@.len() implies (#[trigger] rows@[x]).gpu_index == gpu by {
            assert(merged[x].gpu_index == gpu);
        }
    }
    rows
}

spec fn mem_bytes_spec(m: UsedMemory, kind: ProcKind) -> (Option<u64>, ProcKind) {
    (used(m), kind)
}

proof fn lemma_rows_step(
    was: Seq<RawProcess>,
    now: Seq<RawProcess>,
    c0: Seq<(u32, UsedMemory)>,
    g0: Seq<(u32, UsedMemory)>,
    c1: Seq<(u32, UsedMemory)>,
    g1: Seq<(u32, UsedMemory)>,
    pid: u32,
    gpu: usize,
    entry: (Option<u64>, ProcKind),
)
    requires
        rows_agree(was, c0, g0),
        forall|p: u32|
            #[trigger] merged_of(c1, g1, p) == (if p == pid {
                Some(entry)
            } else {
                merged_of(c0, g0, p)
            }),
        forall|a: int, b: int|
            0 <= a < b < now.len() ==> (#[trigger] now[a]).pid != (#[trigger] now[b]).pid,
        now.len() >= was.len(),
        forall|k: int|
            0 <= k < now.len() ==> if (#[trigger] now[k]).pid == pid {
                now[k] == (RawProcess {
                    pid,
                    gpu_index: gpu,
                    kind: entry.1,
                    gpu_util_pct: None,
                    gpu_mem_bytes: entry.0,
                })
            } else {
                k < was.len() && now[k] == was[k]
            },
        exists|k: int| 0 <= k < now.len() && (#[trigger] now[k]).pid == pid,
        forall|k: int| 0 <= k < was.len() ==> (#[trigger] was[k]).pid == now[k].pid,
    ensures
        rows_agree(now, c1, g1),
{
    assert forall|k: int| 0 <= k < now.len() implies merged_of(c1, g1, (#[trigger] now[k]).pid) == Some(
        (now[k].gpu_mem_bytes, now[k].kind),
    ) by {
        if now[k].pid != pid {
            assert(was[k] == now[k]);
        }
    }
    assert forall|p: u32| (#[trigger] merged_of(c1, g1, p)) is Some implies exists|k: int|
        0 <= k < now.len() && (#[trigger] now[k]).pid == p by {
        if p != pid {
            let k = choose|k: int| 0 <= k < was.len() && (#[trigger] was[k]).pid == p;
            assert(now[k].pid == p);
        }
    }
}

// ---------------------------------------------------------------- sysfs

/// The drivers whose cards sysfs is read for: the open one, and the
/// proprietary one where NVML is absent.
pub open spec fn sysfs_driver(name: Seq<char>, include_nvidia: bool) -> bool {
    name == "nouveau"@ || include_nvidia && name == "nvidia"@
}

/// The entries that the sysfs side claims.
pub open spec fn nvidia_claims(cards: Seq<CardEntry>, include_nvidia: bool) -> Seq<ScannedCard> {
    claims(cards, NVIDIA_VENDOR@, |s: Seq<char>| sysfs_driver(s, include_nvidia), cards.len())
}

/// The cards that sysfs is read for, by card number. With NVML alive the
/// proprietary driver's cards are NVML's, and claiming them too would list
/// them twice.
pub fn scan(cards: &Vec<CardEntry>, include_nvidia: bool) -> (out: Vec<ScannedCard>)
    ensures
        by_index(out@, nvidia_claims(cards@, include_nvidia)),
        forall|k: int| 0 <= k < out@.len() ==> (#[trigger] out@[k]).at < cards@.len(),
{
    let accept = |s: &str| -> (b: bool)
        ensures
            b == sysfs_driver(s@, include_nvidia),
        { same_text(s, "nouveau") || (include_nvidia && same_text(s, "nvidia")) };
    let out = cards_with_driver(cards, NVIDIA_VENDOR, accept);
    proof {
        let p = |s: Seq<char>| sysfs_driver(s, include_nvidia);
        let n: nat = cards@.len();
        assert(cards.len() == n);
        let found = claims(cards@, NVIDIA_VENDOR@, p, n);
        lemma_claims_in_range(cards@, NVIDIA_VENDOR@, p, n);
        assert(by_index(out@, found));
    }
    out
}

/// Identities of the cards that the sysfs side claims beside NVML.
pub fn claimed_ids(cards: &Vec<CardEntry>) -> (ids: Vec<String>)
    ensures
        are_ids_of(string_texts(ids@), cards@, nvidia_claims(cards@, false)),
{
    let found = scan(cards, false);
    ids_of(cards, &found)
}

/// A card that sysfs is read for.
#[derive(Debug)]
pub struct NouveauDevice {
    pub name: String,
    pub pdev: Option<String>,
    pub driver: String,
    pub pcie_max_gen: Option<u8>,
    pub pcie_max_width: Option<u32>,
}

/// Its files, as read; an absent file reads as nothing.
#[derive(Debug)]
pub struct NouveauReads {
    pub temp: Option<String>,
    pub power_input: Option<String>,
    pub power_max: Option<String>,
    pub pwm: Option<String>,
    pub pwm_max: Option<String>,
    pub fan_input: Option<String>,
    pub voltage: Option<String>,
    pub link: LinkTexts,
}

/// `s` is what the card's files say.
pub open spec fn is_nouveau_sample(s: RawSnapshot, d: NouveauDevice, r: NouveauReads) -> bool {
    &&& opt_text(s.device_id) == (match d.pdev {
        Some(p) => Some("pci:"@ + p@),
        None => None,
    })
    &&& s == (RawSnapshot {
        temperature_c: thousandths(number_in(r.temp)),
        power_w: millionths(number_in(r.power_input)),
        power_limit_w: (match number_in(r.power_max) {
            Some(v) => if v > 0 {
                Some(Figure::Micro(v))
            } else {
                None
            },
            None => None,
        }),
        fan_pct: (match number_in(r.pwm) {
            Some(v) => Some(
                Figure::Part {
                    num: v,
                    den: match number_in(r.pwm_max) {
                        Some(m) => if m > 0 {
                            m
                        } else {
                            255
                        },
                        None => 255,
                    },
                },
            ),
            None => None,
        }),
        fan_rpm: number_in(r.fan_input),
        volt_mv: number_in(r.voltage),
        pcie_gen: link_of(r.link.current_speed, r.link.current_width).0,
        pcie_width: link_of(r.link.current_speed, r.link.current_width).1,
        pcie_max_gen: d.pcie_max_gen,
        pcie_max_width: d.pcie_max_width,
        ..nothing_read(d.name, s.device_id)
    })
}

/// One reading of a card on the open driver: what hwmon and the PCI core have.
/// Utilization, memory and clocks have no source there and stay unknown.
pub fn sample(d: &NouveauDevice, r: &NouveauReads) -> (s: RawSnapshot)
    ensures
        is_nouveau_sample(s, *d, *r),
{
    let (pcie_gen, pcie_width) = pcie_current_link(&r.link);
    let fan = fan_duty(read_u64(&r.pwm), read_u64(&r.pwm_max));
    let mut s = RawSnapshot::nothing(d.name.clone(), pci_device_id(&d.pdev));
    s.temperature_c = read_milli(read_u64(&r.temp));
    s.power_w = read_micro(read_u64(&r.power_input));
    s.power_limit_w =
    match read_u64(&r.power_max) {
        Some(v) => if v > 0 {
            Some(Figure::Micro(v))
        } else {
            None
        },
        None => None,
    };
    s.fan_pct =
    match fan {
        Some((num, den)) => Some(Figure::Part { num, den }),
        None => None,
    };
    s.fan_rpm = read_u64(&r.fan_input);
    s.volt_mv = read_u64(&r.voltage);
    s.pcie_gen = pcie_gen;
    s.pcie_width = pcie_width;
    s.pcie_max_gen = d.pcie_max_gen;
    s.pcie_max_width = d.pcie_max_width;
    s
}

// ---------------------------------------------------------------- both

/// NVML's cards and, after them, those on the open driver, so that NVML's
/// process rows keep pointing at their own cards; the first failure is the
/// failure of both.
pub fn merged_poll(
    nvml: Result<Vec<RawSnapshot>, String>,
    nouveau: Result<Vec<RawSnapshot>, String>,
) -> (r: Result<Vec<RawSnapshot>, String>)
    ensures
        is_merged(r, nvml, nouveau),
{
    match nvml {
        Ok(a) => match nouveau {
            Ok(b) => {
                let mut all = a;
                let mut rest = b;
                all.append(&mut rest);
                Ok(all)
            },
            Err(e) => Err(e),
        },
        Err(e) => Err(e),
    }
}

/// The header line of both sides, whichever of them have one.
pub fn merged_driver_info(nvml: Option<String>, nouveau: Option<String>) -> (r: Option<String>)
    ensures
        opt_text(r) == merged_info(opt_text(nvml), opt_text(nouveau)),
{
    match nvml {
        Some(a) => match nouveau {
            Some(b) => {
                let mut s = String::new();
                s.append(a.as_str());
                s.append(" · ");
                s.append(b.as_str());
                assert(s@ =~= a@ + " · "@ + b@);
                Some(s)
            },
            None => Some(a),
        },
        None => nouveau,
    }
}

/// NVML's header line.
pub fn driver_line(version: &Option<String>) -> (r: Option<String>)
    ensures
        opt_text(r) == (match opt_text(*version) {
            Some(v) => Some("driver "@ + v),
            None => None,
        }),
{
    match version {
        Some(v) => {
            let mut s = String::new();
            s.append("driver ");
            s.append(v.as_str());
            assert(s@ =~= "driver "@ + v@);
            Some(s)
        },
        None => None,
    }
}

// ---------------------------------------------------------------- laws

/// The watermark never moves back, and no sample is newer than the new one.
pub proof fn the_watermark_only_advances(samples: Seq<UtilSample>, watermark: u64)
    ensures
        newest_stamp(samples, watermark) >= watermark,
        forall|k: int|
            0 <= k < samples.len() ==> (#[trigger] samples[k]).timestamp <= newest_stamp(
                samples,
                watermark,
            ),
    decreases samples.len(),
{
    if samples.len() > 0 {
        the_watermark_only_advances(samples.drop_last(), watermark);
        assert forall|k: int| 0 <= k < samples.len() implies (#[trigger] samples[k]).timestamp <= newest_stamp(
            samples,
            watermark,
        ) by {
            if k < samples.len() - 1 {
                assert(samples.drop_last()[k] == samples[k]);
            }
        }
    }
}

/// The sample kept for a process is one of its own, and none of its samples is
/// newer, in whatever order they came.
pub proof fn the_newest_sample_is_kept(samples: Seq<UtilSample>, pid: u32)
    ensures
        match newest_of(samples, pid) {
            Some(s) => {
                &&& samples.contains(s)
                &&& s.pid == pid
                &&& forall|k: int|
                    0 <= k < samples.len() && (#[trigger] samples[k]).pid == pid
                        ==> samples[k].timestamp <= s.timestamp
            },
            None => forall|k: int| 0 <= k < samples.len() ==> (#[trigger] samples[k]).pid != pid,
        },
    decreases samples.len(),
{
    if samples.len() > 0 {
        let init = samples.drop_last();
        the_newest_sample_is_kept(init, pid);
        let n = samples.len() - 1;
        assert(forall|k: int| 0 <= k < n ==> init[k] == samples[k]);
        if let Some(s) = newest_of(init, pid) {
            let k = choose|k: int| 0 <= k < init.len() && init[k] == s;
            assert(samples[k] == s);
        }
        assert(samples[n] == samples.last());
        if let Some(s) = newest_of(samples, pid) {
            assert forall|k: int| 0 <= k < samples.len() && (#[trigger] samples[k]).pid == pid implies samples[k].timestamp
                <= s.timestamp by {
                if k < n {
                    assert(init[k] == samples[k]);
                }
            }
        } else {
            assert forall|k: int| 0 <= k < samples.len() implies (#[trigger] samples[k]).pid != pid by {
                if k < n {
                    assert(init[k] == samples[k]);
                }
            }
        }
    }
}

/// A percentage as NVML answers it: itself up to one hundred, and that from
/// there on.
pub open spec fn is_pct(f: Option<Figure>, n: u32) -> bool {
    f == Some(
        Figure::Whole(
            if n > 100 {
                100
            } else {
                n as u64
            },
        ),
    )
}

/// A device shows what it answered, each answer in its own field: percentages,
/// bytes, degrees, milliwatts, megahertz, and traffic in kibibytes where NVML
/// counts thousands of bytes.
pub proof fn a_device_reads_as_it_answered(
    s: RawSnapshot,
    i: u32,
    d: NvmlDevice,
    r: NvmlReads,
    n: u32,
    b: u64,
)
    requires
        is_nvml_sample(s, i, d, r),
    ensures
        r.gpu_util == Some(n) ==> is_pct(s.utilization_pct, n),
        r.mem_util == Some(n) ==> is_pct(s.mem_util_pct, n),
        r.enc_util == Some(n) ==> is_pct(s.enc_util_pct, n),
        r.dec_util == Some(n) ==> is_pct(s.dec_util_pct, n),
        r.mem_used == Some(b) ==> s.vram_used_bytes == Some(b),
        r.mem_total == Some(b) ==> s.vram_total_bytes == Some(b),
        r.temp == Some(n) ==> s.temperature_c == Some(Figure::Whole(n as u64)),
        r.power_mw == Some(n) ==> is_milli(s.power_w, n as nat),
        r.power_limit_mw == Some(n) ==> is_milli(s.power_limit_w, n as nat),
        r.clock == Some(n) ==> s.clock_mhz == Some(n as u64),
        r.mem_clock == Some(n) ==> s.mem_clock_mhz == Some(n as u64),
        r.pcie_width == Some(n) ==> s.pcie_width == Some(n),
        r.pcie_gen == Some(n) && n < 256 ==> s.pcie_gen == Some(n as u8),
        r.pcie_rx_kb == Some(n) ==> (s.pcie_rx_kbs matches Some(v) && v * 1024 <= n * 1000 < (v + 1)
            * 1024),
        r.pcie_tx_kb == Some(n) ==> (s.pcie_tx_kbs matches Some(v) && v * 1024 <= n * 1000 < (v + 1)
            * 1024),
        r.pstate == Some(n) && n <= 15 ==> opt_text(s.perf_level) == Some("P"@ + decimal(n as nat)),
        r.pstate == Some(n) && n > 15 ==> s.perf_level is None,
        opt_text(s.device_id) == opt_text(d.uuid),
{
}

/// What a device did not answer is unknown, never zero, as is what NVML has no
/// answer for.
pub proof fn an_unanswered_question_reads_as_unknown(
    s: RawSnapshot,
    i: u32,
    d: NvmlDevice,
    r: NvmlReads,
)
    requires
        is_nvml_sample(s, i, d, r),
    ensures
        r.gpu_util is None ==> s.utilization_pct is None,
        r.mem_util is None ==> s.mem_util_pct is None,
        r.enc_util is None ==> s.enc_util_pct is None,
        r.dec_util is None ==> s.dec_util_pct is None,
        r.throttle_bits is None ==> s.throttle is None,
        r.mem_used is None ==> s.vram_used_bytes is None,
        r.mem_total is None ==> s.vram_total_bytes is None,
        r.temp is None ==> s.temperature_c is None,
        r.mem_temp is None ==> s.temp_mem_c is None,
        r.power_mw is None ==> s.power_w is None,
        r.power_limit_mw is None ==> s.power_limit_w is None,
        r.clock is None ==> s.clock_mhz is None,
        r.mem_clock is None ==> s.mem_clock_mhz is None,
        r.pcie_gen is None ==> s.pcie_gen is None,
        r.pcie_width is None ==> s.pcie_width is None,
        r.pcie_rx_kb is None ==> s.pcie_rx_kbs is None,
        r.pcie_tx_kb is None ==> s.pcie_tx_kbs is None,
        r.pstate is None ==> s.perf_level is None,
        s.video_util_pct is None && s.temp_junction_c is None && s.volt_mv is None,
        s.gtt_used_bytes is None && s.gtt_total_bytes is None,
{
}

/// What was found once is kept; what was refused then is taken from this
/// poll's answers, and a device that never told its name goes by its place.
pub proof fn what_was_found_once_is_kept(
    s: RawSnapshot,
    i: u32,
    d: NvmlDevice,
    r: NvmlReads,
    n: u32,
)
    requires
        is_nvml_sample(s, i, d, r),
    ensures
        d.name matches Some(x) ==> s.name@ == x@,
        d.name is None ==> (r.name matches Some(x) ==> s.name@ == x@),
        d.name is None && r.name is None ==> s.name@ == "NVIDIA GPU "@ + decimal(i as nat),
        d.integrated matches Some(x) ==> s.integrated == x,
        d.integrated is None ==> (r.on_soc matches Some(x) ==> s.integrated == x),
        d.integrated is None && r.on_soc is None ==> !s.integrated,
        d.pcie_max_width matches Some(x) ==> s.pcie_max_width == Some(x),
        d.pcie_max_width is None ==> s.pcie_max_width == r.pcie_max_width,
        d.pcie_max_gen == Some(n) && n < 256 ==> s.pcie_max_gen == Some(n as u8),
        d.pcie_max_gen is None && r.pcie_max_gen == Some(n) && n < 256 ==> s.pcie_max_gen == Some(
            n as u8,
        ),
        d.slowdown_c matches Some(x) ==> s.temp_slowdown_c == Some(Figure::Whole(x as u64)),
        d.slowdown_c is None && r.slowdown == Some(n) && 1 <= n <= 200 ==> s.temp_slowdown_c == Some(
            Figure::Whole(n as u64),
        ),
        d.slowdown_c is None && r.slowdown == Some(n) && (n == 0 || n > 200)
            ==> s.temp_slowdown_c is None,
        d.slowdown_c is None && r.slowdown is None ==> s.temp_slowdown_c is None,
{
}

/// The board shows its fastest fan: one that answered, and none is faster; it
/// shows none where none answered.
pub proof fn the_fastest_fan_shows(s: RawSnapshot, i: u32, d: NvmlDevice, r: NvmlReads, k: int)
    requires
        is_nvml_sample(s, i, d, r),
    ensures
        0 <= k < r.fan_pct@.len() ==> (r.fan_pct@[k] matches Some(w) ==> (s.fan_pct matches Some(
            Figure::Whole(v),
        ) && w <= v)),
        s.fan_pct matches Some(Figure::Whole(v)) ==> r.fan_pct@.contains(Some(v as u32)),
        r.fan_pct@.len() == 0 ==> s.fan_pct is None,
        0 <= k < r.fan_rpm@.len() ==> (r.fan_rpm@[k] matches Some(w) ==> (s.fan_rpm matches Some(v)
            && w <= v)),
        s.fan_rpm matches Some(v) ==> r.fan_rpm@.contains(Some(v as u32)),
        r.fan_rpm@.len() == 0 ==> s.fan_rpm is None,
{
    let p = choose|p: Option<u32>| #[trigger] is_highest(p, r.fan_pct@) && s.fan_pct == whole(p);
    let q = choose|p: Option<u32>| #[trigger] is_highest(p, r.fan_rpm@) && s.fan_rpm == wide(p);
    if 0 <= k < r.fan_pct@.len() {
        assert(p is None ==> r.fan_pct@[k] is None);
    }
    if 0 <= k < r.fan_rpm@.len() {
        assert(q is None ==> r.fan_rpm@[k] is None);
    }
}

/// A memory temperature shows as it was answered, in whatever type; zero and
/// below is no reading.
pub proof fn temperature_fields_keep_their_value(n: u64, m: i64, x: Real)
    ensures
        n > 0 ==> field_temp(FieldValue::Unsigned(n)) == Some(Figure::Whole(n)),
        m > 0 ==> (field_temp(FieldValue::Signed(m)) matches Some(Figure::Whole(v)) && v == m),
        field_temp(FieldValue::Unsigned(0)) is None,
        m <= 0 ==> field_temp(FieldValue::Signed(m)) is None,
        field_temp(FieldValue::Real(x)) is Some ==> field_temp(FieldValue::Real(x)) == Some(
            Figure::Measured(x),
        ) && x.bits < 0x8000_0000_0000_0000,
        0 < x.bits <= 0x7ff0_0000_0000_0000 ==> field_temp(FieldValue::Real(x)) is Some,
{
}

/// A throttle label holds one word for each kind of reason that holds, heat
/// before power before the rest, and none where none of them does.
pub proof fn throttle_words_follow_the_reasons(r: Reasons)
    ensures
        ({
            let w = throttle_words(r);
            &&& w.contains("thermal"@) <==> r.sw_thermal || r.hw_thermal
            &&& w.contains("power-limit"@) <==> r.sw_power_cap || r.hw_power_brake
            &&& w.contains("hw-slowdown"@) <==> r.hw_slowdown
            &&& w.len() == (if r.sw_thermal || r.hw_thermal {
                1int
            } else {
                0
            }) + (if r.sw_power_cap || r.hw_power_brake {
                1int
            } else {
                0
            }) + (if r.hw_slowdown {
                1int
            } else {
                0
            })
            &&& r.sw_thermal || r.hw_thermal ==> w[0] == "thermal"@
            &&& r.hw_slowdown ==> w.last() == "hw-slowdown"@
        }),
{
    reveal_strlit("thermal");
    reveal_strlit("power-limit");
    reveal_strlit("hw-slowdown");
    let w = throttle_words(r);
    let t = "thermal"@;
    let p = "power-limit"@;
    let h = "hw-slowdown"@;
    assert(t.len() == 7 && p.len() == 11 && h.len() == 11);
    assert(p[0] == 'p' && h[0] == 'h');
    if r.sw_thermal || r.hw_thermal {
        assert(w[0] == t);
    }
    if r.sw_power_cap || r.hw_power_brake {
        if r.sw_thermal || r.hw_thermal {
            assert(w[1] == p);
        } else {
            assert(w[0] == p);
        }
    }
    if r.hw_slowdown {
        assert(w[w.len() - 1] == h);
    }
}

/// The last entry that a list holds of a process is the one that counts.
pub proof fn the_last_entry_counts(list: Seq<(u32, UsedMemory)>, pid: u32, k: int)
    ensures
        0 <= k < list.len() && list[k].0 == pid && (forall|j: int|
            k < j < list.len() ==> (#[trigger] list[j]).0 != pid) ==> last_entry(list, pid) == Some(
            list[k].1,
        ),
        (forall|j: int| 0 <= j < list.len() ==> (#[trigger] list[j]).0 != pid) ==> last_entry(
            list,
            pid,
        ) is None,
    decreases list.len(),
{
    if list.len() > 0 {
        let init = list.drop_last();
        the_last_entry_counts(init, pid, k);
        assert(forall|j: int| 0 <= j < init.len() ==> init[j] == list[j]);
        let n = list.len() - 1;
        assert(list[n] == list.last());
        if forall|j: int| 0 <= j < list.len() ==> (#[trigger] list[j]).0 != pid {
            assert forall|j: int| 0 <= j < init.len() implies (#[trigger] init[j]).0 != pid by {
                assert(init[j] == list[j]);
            }
        }
        if 0 <= k < n && list[k].0 == pid && (forall|j: int|
            k < j < list.len() ==> (#[trigger] list[j]).0 != pid) {
            assert(list[n].0 != pid);
            assert forall|j: int| k < j < init.len() implies (#[trigger] init[j]).0 != pid by {
                assert(init[j] == list[j]);
            }
        }
    }
}

/// A process on both lists is a graphics one with the memory stated there; on
/// the compute list alone it is a compute one; on neither it has no row. A
/// memory that the driver declined to state is unknown, not zero.
pub proof fn graphics_wins_over_compute(
    compute: Seq<(u32, UsedMemory)>,
    graphics: Seq<(u32, UsedMemory)>,
    pid: u32,
    m: UsedMemory,
    b: u64,
)
    ensures
        last_entry(graphics, pid) == Some(m) ==> (merged_of(compute, graphics, pid) matches Some(x)
            && x.1 == ProcKind::Graphics && (m == UsedMemory::Used(b) ==> x.0 == Some(b)) && (
        m is Unavailable ==> x.0 is None)),
        last_entry(graphics, pid) is None && last_entry(compute, pid) == Some(m) ==> (merged_of(
            compute,
            graphics,
            pid,
        ) matches Some(x) && x.1 == ProcKind::Compute && (m == UsedMemory::Used(b) ==> x.0 == Some(
            b,
        )) && (m is Unavailable ==> x.0 is None)),
        last_entry(graphics, pid) is None && last_entry(compute, pid) is None ==> merged_of(
            compute,
            graphics,
            pid,
        ) is None,
{
}

/// A process shows the utilization of its newest sample, at most one hundred,
/// and unknown where it was not sampled.
pub proof fn the_newest_utilization_shows(
    util: Map<u32, u32>,
    samples: Seq<UtilSample>,
    k: int,
    pid: u32,
)
    requires
        is_folded(util, samples),
        0 <= k < samples.len(),
        forall|j: int|
            0 <= j < samples.len() && j != k && (#[trigger] samples[j]).pid == samples[k].pid
                ==> samples[j].timestamp < samples[k].timestamp,
    ensures
        util.dom().contains(samples[k].pid),
        samples[k].sm_util <= 100 ==> util_figure(util, samples[k].pid) == Some(
            Figure::Whole(samples[k].sm_util as u64),
        ),
        samples[k].sm_util > 100 ==> util_figure(util, samples[k].pid) == Some(Figure::Whole(100)),
        (forall|j: int| 0 <= j < samples.len() ==> (#[trigger] samples[j]).pid != pid)
            ==> util_figure(util, pid) is None,
{
    let p = samples[k].pid;
    the_newest_sample_is_kept(samples, p);
    the_newest_sample_is_kept(samples, pid);
    let s = newest_of(samples, p)->0;
    assert(newest_of(samples, p) is Some);
    let j = choose|j: int| 0 <= j < samples.len() && samples[j] == s;
    assert(samples[k].timestamp <= s.timestamp);
    if j != k {
        assert(samples[j].timestamp < samples[k].timestamp);
    }
    assert(util[p] == capped(s.sm_util));
    if forall|j: int| 0 <= j < samples.len() ==> (#[trigger] samples[j]).pid != pid {
        if let Some(x) = newest_of(samples, pid) {
            let w = choose|w: int| 0 <= w < samples.len() && samples[w] == x;
            assert(samples[w].pid != pid);
        }
    }
}

/// A card on the open driver shows the numbers of its files, each in its own
/// field; what the driver does not publish stays unknown.
pub proof fn an_open_driver_card_reads_as_its_files_say(
    s: RawSnapshot,
    d: NouveauDevice,
    r: NouveauReads,
    n: nat,
    m: nat,
)
    requires
        is_nouveau_sample(s, d, r),
        n <= u64::MAX,
        0 < m <= u64::MAX,
    ensures
        s.name == d.name,
        d.pdev matches Some(p) ==> opt_text(s.device_id) == Some("pci:"@ + p@),
        holds_number(r.temp, n) ==> is_milli(s.temperature_c, n),
        holds_number(r.power_input, n) ==> is_micro(s.power_w, n),
        holds_number(r.power_max, m) ==> is_micro(s.power_limit_w, m),
        r.power_max is None || holds_number(r.power_max, 0) ==> s.power_limit_w is None,
        holds_number(r.pwm, n) && holds_number(r.pwm_max, m) ==> s.fan_pct == Some(
            Figure::Part { num: n as u64, den: m as u64 },
        ),
        holds_number(r.pwm, n) && (r.pwm_max is None || holds_number(r.pwm_max, 0)) ==> s.fan_pct
            == Some(Figure::Part { num: n as u64, den: 255 }),
        holds_number(r.fan_input, n) ==> s.fan_rpm == Some(n as u64),
        holds_number(r.voltage, n) ==> s.volt_mv == Some(n as u64),
        holds_number(r.link.current_width, n) && n <= u32::MAX ==> s.pcie_width == Some(n as u32),
        s.pcie_max_gen == d.pcie_max_gen && s.pcie_max_width == d.pcie_max_width,
        s.utilization_pct is None && s.vram_used_bytes is None && s.vram_total_bytes is None,
        s.clock_mhz is None && s.mem_clock_mhz is None && s.throttle is None && !s.integrated,
{
    let none = Seq::<char>::empty();
    a_written_number_is_read(r.temp, none, n, none);
    a_written_number_is_read(r.power_input, none, n, none);
    a_written_number_is_read(r.power_max, none, m, none);
    a_written_number_is_read(r.power_max, none, 0, none);
    a_written_number_is_read(r.pwm, none, n, none);
    a_written_number_is_read(r.pwm_max, none, m, none);
    a_written_number_is_read(r.pwm_max, none, 0, none);
    a_written_number_is_read(r.fan_input, none, n, none);
    a_written_number_is_read(r.voltage, none, n, none);
    if n <= u32::MAX {
        a_link_is_read_from_its_files(r.link.current_speed, None, r.link.current_width, n);
    }
}

/// What the open driver does not publish stays unknown, and a link has the
/// generation of its rate.
pub proof fn what_the_open_driver_hides_is_unknown(
    s: RawSnapshot,
    d: NouveauDevice,
    r: NouveauReads,
    n: nat,
)
    requires
        is_nouveau_sample(s, d, r),
        n > 0,
    ensures
        d.pdev is None ==> s.device_id is None,
        s.mem_util_pct is None && s.video_util_pct is None,
        s.enc_util_pct is None && s.dec_util_pct is None,
        s.temp_slowdown_c is None && s.temp_junction_c is None && s.temp_mem_c is None,
        s.pcie_rx_kbs is None && s.pcie_tx_kbs is None && s.perf_level is None,
        s.gtt_used_bytes is None && s.gtt_total_bytes is None,
        r.temp is None ==> s.temperature_c is None,
        r.power_input is None ==> s.power_w is None,
        r.pwm is None ==> s.fan_pct is None,
        r.fan_input is None ==> s.fan_rpm is None,
        r.voltage is None ==> s.volt_mv is None,
        r.link.current_speed is None ==> s.pcie_gen is None,
        r.link.current_width is None ==> s.pcie_width is None,
        r.link.current_speed matches Some(t) && words(t@).len() > 0 && words(t@)[0] == decimal(n)
            ==> s.pcie_gen == Some(gen_at(n)),
{
    a_link_is_read_from_its_files(r.link.current_speed, None, r.link.current_width, 0);
    if let Some(t) = r.link.current_speed {
        if words(t@).len() > 0 && words(t@)[0] == decimal(n) {
            a_links_generation_is_that_of_its_rate(r.link.current_speed, r.link.current_width, n);
        }
    }
}

/// How many fans to ask for: as many as the device says, at least one.
pub open spec fn fans_asked(fans: Option<u32>) -> u32 {
    match fans {
        Some(v) => if v > 1 {
            v
        } else {
            1
        },
        None => 1u32,
    }
}

/// `r` is what the two drivers' polls come to: the cards of both, or the first
/// failure.
pub open spec fn is_merged(
    r: Result<Vec<RawSnapshot>, String>,
    nvml: Result<Vec<RawSnapshot>, String>,
    nouveau: Result<Vec<RawSnapshot>, String>,
) -> bool {
    match (nvml, nouveau) {
        (Ok(a), Ok(b)) => r matches Ok(v) && v@ == a@ + b@,
        (Err(e), _) => r == Err::<Vec<RawSnapshot>, String>(e),
        (_, Err(e)) => r == Err::<Vec<RawSnapshot>, String>(e),
    }
}

/// What the two drivers say of themselves, one beside the other.
pub open spec fn merged_info(nvml: Option<Seq<char>>, nouveau: Option<Seq<char>>) -> Option<
    Seq<char>,
> {
    match (nvml, nouveau) {
        (Some(a), Some(b)) => Some(a + " · "@ + b),
        (Some(a), None) => Some(a),
        (None, b) => b,
    }
}

/// `s` is what a device answered, or that it did not.
pub open spec fn is_snapshot(
    s: RawSnapshot,
    i: u32,
    d: NvmlDevice,
    reads: Option<NvmlReads>,
) -> bool {
    match reads {
        Some(r) => is_nvml_sample(s, i, d, r),
        None => {
            &&& s.name@ == "NVIDIA GPU "@ + decimal(i as nat) + " (unavailable)"@
            &&& opt_text(s.device_id) == opt_text(d.uuid)
            &&& s == nothing_read(s.name, s.device_id)
        },
    }
}

/// Every fan that a device tells of is asked, and one where it tells of none.
pub proof fn every_fan_is_asked(n: u32)
    ensures
        fans_asked(Some(n)) >= n && fans_asked(Some(n)) >= 1,
        n >= 1 ==> fans_asked(Some(n)) == n,
        fans_asked(None) == 1 && fans_asked(Some(0)) == 1,
{
}

/// The cards of the two drivers stand one behind the other, all of them, where
/// both answered; else the failure of the first that failed is told.
pub proof fn both_drivers_cards_are_listed(
    r: Result<Vec<RawSnapshot>, String>,
    nvml: Result<Vec<RawSnapshot>, String>,
    nouveau: Result<Vec<RawSnapshot>, String>,
    k: int,
)
    requires
        is_merged(r, nvml, nouveau),
    ensures
        r is Ok <==> nvml is Ok && nouveau is Ok,
        nvml matches Err(e) ==> r == Err::<Vec<RawSnapshot>, String>(e),
        nvml is Ok ==> (nouveau matches Err(e) ==> r == Err::<Vec<RawSnapshot>, String>(e)),
        nvml matches Ok(a) ==> (nouveau matches Ok(b) ==> (r matches Ok(v) && v@.len() == a@.len()
            + b@.len() && (0 <= k < a@.len() ==> v@[k] == a@[k]) && (0 <= k < b@.len() ==> v@[a@.len()
            + k] == b@[k]))),
{
}

/// Each driver that says something of itself is shown, the proprietary one
/// first.
pub proof fn each_driver_is_shown(a: Seq<char>, b: Seq<char>)
    ensures
        merged_info(Some(a), Some(b)) matches Some(t) && contains_text(t, a) && contains_text(t, b)
            && a.is_prefix_of(t),
        merged_info(Some(a), None) == Some(a),
        merged_info(None, Some(b)) == Some(b),
        merged_info(None, None) is None,
{
    let t = a + " · "@ + b;
    let e = Seq::<char>::empty();
    a_text_is_found_where_it_stands(e, a, " · "@ + b);
    assert(e + a + (" · "@ + b) =~= t);
    a_text_is_found_where_it_stands(a + " · "@, b, e);
    assert(a + " · "@ + b + e =~= t);
    assert(t.take(a.len() as int) =~= a);
}

/// A device that did not answer keeps its place, its number and its identity,
/// and nothing is made up of it.
pub proof fn a_silent_device_keeps_its_place(s: RawSnapshot, i: u32, d: NvmlDevice)
    requires
        is_snapshot(s, i, d, None),
    ensures
        contains_text(s.name@, decimal(i as nat)),
        opt_text(s.device_id) == opt_text(d.uuid),
        s.utilization_pct is None && s.vram_used_bytes is None && s.vram_total_bytes is None,
        s.temperature_c is None && s.power_w is None && s.clock_mhz is None && s.fan_pct is None,
        s.throttle is None && s.perf_level is None && s.pcie_gen is None && !s.integrated,
{
    a_text_is_found_where_it_stands("NVIDIA GPU "@, decimal(i as nat), " (unavailable)"@);
}

/// Each process of either list has one row, a graphics one where it is in the
/// graphics list, and no other process has any.
pub proof fn each_process_has_one_row(
    rows: Seq<RawProcess>,
    compute: Seq<(u32, UsedMemory)>,
    graphics: Seq<(u32, UsedMemory)>,
    a: int,
    b: int,
    pid: u32,
)
    requires
        rows_agree(rows, compute, graphics),
        0 <= a < rows.len(),
        0 <= b < rows.len(),
    ensures
        rows[a].pid == rows[b].pid ==> a == b,
        rows[a].kind is Graphics <==> last_entry(graphics, rows[a].pid) is Some,
        last_entry(graphics, rows[a].pid) is Some || last_entry(compute, rows[a].pid) is Some,
        last_entry(graphics, pid) is Some || last_entry(compute, pid) is Some ==> exists|k: int|
            0 <= k < rows.len() && (#[trigger] rows[k]).pid == pid,
{
    assert(merged_of(compute, graphics, rows[a].pid) is Some);
    if a < b {
        assert(rows[a].pid != rows[b].pid);
    }
    if b < a {
        assert(rows[b].pid != rows[a].pid);
    }
    if last_entry(graphics, pid) is Some || last_entry(compute, pid) is Some {
        assert(merged_of(compute, graphics, pid) is Some);
    }
}

} // verus!
