//! GPU telemetry: one sample of one device, the processes on it, and the rules
//! that put several vendors' devices into one list.
pub mod amd;
pub mod apple;
pub mod composite;
pub mod intel;
pub mod linux;
pub mod mock;
pub mod nvidia;
pub mod raw;
pub mod replay;
pub mod windows;

use vstd::prelude::*;
use crate::order::{Real, Real32};
use crate::text::{join, join_strs, str_texts};

verus! {

/// One sample of one GPU at one instant. `None` means that the backend could
/// not read the figure; a measured zero is `Some(0)`.
#[derive(Debug, Clone)]
pub struct GpuSnapshot {
    pub name: String,
    /// Opaque, stable identity of the device, where the backend knows one.
    pub device_id: Option<String>,
    /// Integrated (APU/iGPU) as opposed to a discrete card.
    pub integrated: bool,
    /// Core utilization, 0..=100.
    pub utilization_pct: Option<Real>,
    /// Memory-controller busy %, distinct from VRAM fill level.
    pub mem_util_pct: Option<Real>,
    /// Video engine busy %, where one engine does both directions.
    pub video_util_pct: Option<Real>,
    pub enc_util_pct: Option<Real>,
    pub dec_util_pct: Option<Real>,
    /// Active clock-throttle cause, when known or confidently derivable.
    pub throttle: Option<String>,
    pub vram_used_bytes: Option<u64>,
    pub vram_total_bytes: Option<u64>,
    pub temperature_c: Option<Real>,
    /// Where the hardware starts to slow itself down, in degrees.
    pub temp_slowdown_c: Option<Real>,
    pub temp_junction_c: Option<Real>,
    pub temp_mem_c: Option<Real>,
    pub power_w: Option<Real>,
    pub power_limit_w: Option<Real>,
    pub fan_pct: Option<Real>,
    pub fan_rpm: Option<u64>,
    pub clock_mhz: Option<u64>,
    pub mem_clock_mhz: Option<u64>,
    /// Current PCIe generation (1..=7) and lane count.
    pub pcie_gen: Option<u8>,
    pub pcie_width: Option<u32>,
    /// Maximum supported PCIe generation/width, for downgrade detection.
    pub pcie_max_gen: Option<u8>,
    pub pcie_max_width: Option<u32>,
    /// PCIe throughput, KiB/s.
    pub pcie_rx_kbs: Option<u64>,
    pub pcie_tx_kbs: Option<u64>,
    /// GTT (system memory graphics pool) usage.
    pub gtt_used_bytes: Option<u64>,
    pub gtt_total_bytes: Option<u64>,
    /// Core voltage, millivolts.
    pub volt_mv: Option<u64>,
    /// DPM performance level when forced off "auto".
    pub perf_level: Option<String>,
}

/// The text of an optional string.
pub open spec fn opt_text(s: Option<String>) -> Option<Seq<char>> {
    match s {
        Some(x) => Some(x@),
        None => None,
    }
}

/// A snapshot that knows nothing but a name and an identity.
pub open spec fn unread_snapshot(name: String, device_id: Option<String>) -> GpuSnapshot {
    GpuSnapshot {
        name,
        device_id,
        integrated: false,
        utilization_pct: None,
        mem_util_pct: None,
        video_util_pct: None,
        enc_util_pct: None,
        dec_util_pct: None,
        throttle: None,
        vram_used_bytes: None,
        vram_total_bytes: None,
        temperature_c: None,
        temp_slowdown_c: None,
        temp_junction_c: None,
        temp_mem_c: None,
        power_w: None,
        power_limit_w: None,
        fan_pct: None,
        fan_rpm: None,
        clock_mhz: None,
        mem_clock_mhz: None,
        pcie_gen: None,
        pcie_width: None,
        pcie_max_gen: None,
        pcie_max_width: None,
        pcie_rx_kbs: None,
        pcie_tx_kbs: None,
        gtt_used_bytes: None,
        gtt_total_bytes: None,
        volt_mv: None,
        perf_level: None,
    }
}

impl Default for GpuSnapshot {
    fn default() -> (s: Self)
        ensures
            s == unread_snapshot(s.name, None),
            s.name@ == Seq::<char>::empty(),
    {
        GpuSnapshot::unread(String::new(), None)
    }
}

/// One memory pool as a card reports it, plus where the bytes physically live.
#[derive(Debug, Clone, Copy, PartialEq, Eq, Structural)]
pub struct MemReadout {
    pub used: Option<u64>,
    pub total: Option<u64>,
    /// System RAM the GPU maps, rather than memory of the device's own.
    pub shared: bool,
}

impl MemReadout {
    /// The fill level as used bytes over a positive total, where both figures
    /// are known and the pool has a size.
    pub fn fill(&self) -> (r: Option<(u64, u64)>)
        ensures
            r == self.level(),
    {
        match (self.used, self.total) {
            (Some(used), Some(total)) => if total > 0 {
                Some((used, total))
            } else {
                None
            },
            _ => None,
        }
    }
}

/// The same text, or none.
pub fn copy_opt(s: &Option<String>) -> (r: Option<String>)
    ensures
        r == *s,
{
    match s {
        Some(t) => Some(t.clone()),
        None => None,
    }
}

impl GpuSnapshot {
    /// The same snapshot.
    pub fn copy(&self) -> (s: Self)
        ensures
            s == *self,
    {
        GpuSnapshot {
            name: self.name.clone(),
            device_id: copy_opt(&self.device_id),
            integrated: self.integrated,
            utilization_pct: self.utilization_pct,
            mem_util_pct: self.mem_util_pct,
            video_util_pct: self.video_util_pct,
            enc_util_pct: self.enc_util_pct,
            dec_util_pct: self.dec_util_pct,
            throttle: copy_opt(&self.throttle),
            vram_used_bytes: self.vram_used_bytes,
            vram_total_bytes: self.vram_total_bytes,
            temperature_c: self.temperature_c,
            temp_slowdown_c: self.temp_slowdown_c,
            temp_junction_c: self.temp_junction_c,
            temp_mem_c: self.temp_mem_c,
            power_w: self.power_w,
            power_limit_w: self.power_limit_w,
            fan_pct: self.fan_pct,
            fan_rpm: self.fan_rpm,
            clock_mhz: self.clock_mhz,
            mem_clock_mhz: self.mem_clock_mhz,
            pcie_gen: self.pcie_gen,
            pcie_width: self.pcie_width,
            pcie_max_gen: self.pcie_max_gen,
            pcie_max_width: self.pcie_max_width,
            pcie_rx_kbs: self.pcie_rx_kbs,
            pcie_tx_kbs: self.pcie_tx_kbs,
            gtt_used_bytes: self.gtt_used_bytes,
            gtt_total_bytes: self.gtt_total_bytes,
            volt_mv: self.volt_mv,
            perf_level: copy_opt(&self.perf_level),
        }
    }

    /// A snapshot that knows nothing but a name and an identity.
    pub fn unread(name: String, device_id: Option<String>) -> (s: Self)
        ensures
            s == unread_snapshot(name, device_id),
    {
        GpuSnapshot {
            name,
            device_id,
            integrated: false,
            utilization_pct: None,
            mem_util_pct: None,
            video_util_pct: None,
            enc_util_pct: None,
            dec_util_pct: None,
            throttle: None,
            vram_used_bytes: None,
            vram_total_bytes: None,
            temperature_c: None,
            temp_slowdown_c: None,
            temp_junction_c: None,
            temp_mem_c: None,
            power_w: None,
            power_limit_w: None,
            fan_pct: None,
            fan_rpm: None,
            clock_mhz: None,
            mem_clock_mhz: None,
            pcie_gen: None,
            pcie_width: None,
            pcie_max_gen: None,
            pcie_max_width: None,
            pcie_rx_kbs: None,
            pcie_tx_kbs: None,
            gtt_used_bytes: None,
            gtt_total_bytes: None,
            volt_mv: None,
            perf_level: None,
        }
    }

    /// The card published a figure for a pool of its own.
    pub open spec fn device_pool(&self) -> bool {
        self.vram_used_bytes is Some || self.vram_total_bytes is Some
    }

    /// The card published a figure for a pool in host RAM.
    pub open spec fn system_pool(&self) -> bool {
        self.gtt_used_bytes is Some || self.gtt_total_bytes is Some
    }

    /// The pool the memory meter describes: the device's own wherever one was
    /// published, the system-backed one otherwise. `shared` says that the
    /// bytes are host RAM.
    pub open spec fn primary_pool(&self) -> MemReadout {
        if self.device_pool() {
            MemReadout {
                used: self.vram_used_bytes,
                total: self.vram_total_bytes,
                shared: self.integrated && !self.system_pool(),
            }
        } else {
            MemReadout {
                used: self.gtt_used_bytes,
                total: self.gtt_total_bytes,
                shared: self.system_pool(),
            }
        }
    }

    /// The pool the memory meter describes.
    pub fn mem_primary(&self) -> (r: MemReadout)
        ensures
            r == self.primary_pool(),
    {
        if self.has_device_pool() {
            return MemReadout {
                used: self.vram_used_bytes,
                total: self.vram_total_bytes,
                shared: self.integrated && !self.has_system_pool(),
            };
        }
        MemReadout {
            used: self.gtt_used_bytes,
            total: self.gtt_total_bytes,
            shared: self.has_system_pool(),
        }
    }

    /// Whether the card published a figure for a pool of its own; either half
    /// is enough.
    fn has_device_pool(&self) -> (b: bool)
        ensures
            b == self.device_pool(),
    {
        self.vram_used_bytes.is_some() || self.vram_total_bytes.is_some()
    }

    fn has_system_pool(&self) -> (b: bool)
        ensures
            b == self.system_pool(),
    {
        self.gtt_used_bytes.is_some() || self.gtt_total_bytes.is_some()
    }

    /// The second pool, for the cards that have two.
    pub fn mem_secondary(&self) -> (r: Option<MemReadout>)
        ensures
            r == self.second_pool(),
    {
        if self.has_device_pool() && self.has_system_pool() {
            Some(
                MemReadout {
                    used: self.gtt_used_bytes,
                    total: self.gtt_total_bytes,
                    shared: self.integrated,
                },
            )
        } else {
            None
        }
    }
}

/// A card that published no memory figure makes no claim about where its
/// memory lives, and one that published any has it metered.
pub proof fn the_meter_invents_nothing(g: GpuSnapshot)
    ensures
        !g.device_pool() && !g.system_pool() ==> g.primary_pool() == (MemReadout {
            used: None,
            total: None,
            shared: false,
        }),
        g.device_pool() || g.system_pool() ==> g.primary_pool().used is Some
            || g.primary_pool().total is Some,
        !g.integrated && g.device_pool() ==> !g.primary_pool().shared,
{
}

/// The throttle reasons joined by `+`, or nothing when nothing throttled.
pub fn join_throttle(parts: &[&str]) -> (r: Option<String>)
    ensures
        opt_text(r) == (if parts@.len() == 0 {
            None
        } else {
            Some(join(str_texts(parts@), "+"@))
        }),
{
    if parts.len() == 0 {
        None
    } else {
        Some(join_strs(parts, "+"))
    }
}

#[derive(Debug, Clone, Copy, PartialEq, Eq, Structural)]
pub enum ProcKind {
    Graphics,
    Compute,
}

impl Default for ProcKind {
    fn default() -> (k: Self)
        ensures
            k == ProcKind::Compute,
    {
        ProcKind::Compute
    }
}

impl ProcKind {
    pub fn label(&self) -> (s: &'static str)
        ensures
            s@ == (match *self {
                ProcKind::Graphics => "Graphic"@,
                ProcKind::Compute => "Compute"@,
            }),
    {
        match self {
            ProcKind::Graphics => "Graphic",
            ProcKind::Compute => "Compute",
        }
    }
}

/// One process currently using one GPU. The host figures are filled in by a
/// backend that recorded them; a live backend leaves them open.
#[derive(Debug, Clone)]
pub struct GpuProcess {
    pub pid: u32,
    /// Index into the snapshots of the same poll.
    pub gpu_index: usize,
    pub kind: ProcKind,
    pub gpu_util_pct: Option<Real>,
    /// GPU memory this process holds; `Some(0)` is a pool read and found empty.
    pub gpu_mem_bytes: Option<u64>,
    pub user: Option<String>,
    pub command: Option<String>,
    pub cpu_pct: Option<Real32>,
    pub host_mem_bytes: Option<u64>,
    pub container: Option<String>,
}

impl GpuProcess {
    /// The same process.
    pub fn copy(&self) -> (p: Self)
        ensures
            p == *self,
    {
        GpuProcess {
            pid: self.pid,
            gpu_index: self.gpu_index,
            kind: self.kind,
            gpu_util_pct: self.gpu_util_pct,
            gpu_mem_bytes: self.gpu_mem_bytes,
            user: copy_opt(&self.user),
            command: copy_opt(&self.command),
            cpu_pct: self.cpu_pct,
            host_mem_bytes: self.host_mem_bytes,
            container: copy_opt(&self.container),
        }
    }
}

impl Default for GpuProcess {
    fn default() -> (p: Self)
        ensures
            p == (GpuProcess {
                pid: 0,
                gpu_index: 0,
                kind: ProcKind::Compute,
                gpu_util_pct: None,
                gpu_mem_bytes: None,
                user: None,
                command: None,
                cpu_pct: None,
                host_mem_bytes: None,
                container: None,
            }),
    {
        GpuProcess {
            pid: 0,
            gpu_index: 0,
            kind: ProcKind::Compute,
            gpu_util_pct: None,
            gpu_mem_bytes: None,
            user: None,
            command: None,
            cpu_pct: None,
            host_mem_bytes: None,
            container: None,
        }
    }
}

/// Where a session's telemetry comes from.
#[derive(Debug)]
pub enum BackendSource {
    /// Whatever hardware this machine has.
    Live,
    /// N fabricated cards, no hardware involved.
    Mock(usize),
    /// Frames recorded on some other machine, by the path of the recording.
    Replay(String),
}

/// What detecting a source amounts to.
#[derive(Debug)]
pub enum Detection {
    /// Probe this machine's hardware.
    Probe,
    /// Fabricate this many cards.
    Fabricate(usize),
    /// Open this recording.
    Open(String),
}

impl Detection {
    /// The pids of the backend that this detection builds name processes on
    /// this machine.
    pub open spec fn local(&self) -> bool {
        self is Probe
    }

    /// Whether the pids of the backend that this detection builds name
    /// processes on this machine: fabricated and foreign ones do not.
    pub fn can_signal(&self) -> (b: bool)
        ensures
            b == self.local(),
    {
        match self {
            Detection::Probe => true,
            _ => false,
        }
    }
}

impl BackendSource {
    /// The source that the command line chose. A recording wins over fabricated
    /// cards: its pids must never be signalable.
    pub fn from_cli(mock: Option<usize>, replay: Option<String>) -> (s: Self)
        ensures
            s == source_of(mock, replay),
    {
        match (mock, replay) {
            (_, Some(path)) => BackendSource::Replay(path),
            (Some(n), None) => BackendSource::Mock(n),
            (None, None) => BackendSource::Live,
        }
    }

    /// What detecting this source amounts to: the same kind of backend at
    /// startup and at every later re-detection.
    pub open spec fn detection(self) -> Detection {
        match self {
            BackendSource::Live => Detection::Probe,
            BackendSource::Mock(n) => Detection::Fabricate(
                if n < 1 {
                    1
                } else if n > 16 {
                    16
                } else {
                    n
                },
            ),
            BackendSource::Replay(path) => Detection::Open(path),
        }
    }

    /// What detecting this source amounts to. The count of fabricated cards is
    /// brought into 1..=16.
    pub fn detect(&self) -> (d: Detection)
        ensures
            d == self.detection(),
    {
        match self {
            BackendSource::Live => Detection::Probe,
            BackendSource::Mock(n) => Detection::Fabricate(
                if *n < 1 {
                    1
                } else if *n > 16 {
                    16
                } else {
                    *n
                },
            ),
            BackendSource::Replay(path) => Detection::Open(path.clone()),
        }
    }
}

/// Detecting again never turns a fabricated or recorded session into a live
/// one: only a live source is ever signalable.
pub proof fn detection_never_promotes(s: BackendSource)
    ensures
        s.detection().local() <==> s is Live,
{
}

/// The meter shows the card's own pool wherever the card says anything of one,
/// and the system's otherwise: used against total of the same pool.
pub proof fn the_meter_shows_the_cards_own_pool_first(g: GpuSnapshot)
    ensures
        g.vram_used_bytes is Some || g.vram_total_bytes is Some ==> g.primary_pool().used
            == g.vram_used_bytes && g.primary_pool().total == g.vram_total_bytes,
        g.vram_used_bytes is None && g.vram_total_bytes is None ==> g.primary_pool().used
            == g.gtt_used_bytes && g.primary_pool().total == g.gtt_total_bytes,
        g.vram_used_bytes is None && g.vram_total_bytes is None && (g.gtt_used_bytes is Some
            || g.gtt_total_bytes is Some) ==> g.primary_pool().shared,
        g.primary_pool().shared ==> g.integrated || !g.device_pool(),
{
}

/// As many cards are fabricated as were asked for, from one to sixteen, and a
/// recording is opened under its own path.
pub proof fn detection_keeps_what_was_asked_for(n: usize, path: String)
    ensures
        1 <= n <= 16 ==> BackendSource::Mock(n).detection() == Detection::Fabricate(n),
        n == 0 ==> BackendSource::Mock(n).detection() == Detection::Fabricate(1),
        n > 16 ==> BackendSource::Mock(n).detection() == Detection::Fabricate(16),
        BackendSource::Replay(path).detection() == Detection::Open(path),
        BackendSource::Live.detection() == Detection::Probe,
{
}

impl MemReadout {
    /// Used bytes over a positive total, where both are known.
    pub open spec fn level(&self) -> Option<(u64, u64)> {
        match (self.used, self.total) {
            (Some(used), Some(total)) => if total > 0 {
                Some((used, total))
            } else {
                None
            },
            _ => None,
        }
    }
}

impl GpuSnapshot {
    /// The pool in host RAM, where the device has one of its own too.
    pub open spec fn second_pool(&self) -> Option<MemReadout> {
        if self.device_pool() && self.system_pool() {
            Some(
                (MemReadout {
                    used: self.gtt_used_bytes,
                    total: self.gtt_total_bytes,
                    shared: self.integrated,
                }),
            )
        } else {
            None
        }
    }
}

/// The source that the command line asks for.
pub open spec fn source_of(mock: Option<usize>, replay: Option<String>) -> BackendSource {
    match (mock, replay) {
        (_, Some(path)) => BackendSource::Replay(path),
        (Some(n), None) => BackendSource::Mock(n),
        (None, None) => BackendSource::Live,
    }
}

/// A meter is filled only where both figures are known and there is something
/// to fill.
pub proof fn a_meter_needs_both_figures(m: MemReadout, used: u64, total: u64)
    ensures
        m.used == Some(used) && m.total == Some(total) && total > 0 ==> m.level() == Some(
            (used, total),
        ),
        m.used is None || m.total is None || m.total == Some(0u64) ==> m.level() is None,
        m.level() matches Some(x) ==> x.1 > 0 && m.used == Some(x.0) && m.total == Some(x.1),
{
}

/// The second readout is the pool in host RAM, and shows only beside the
/// device's own; the two readouts never show one pool twice.
pub proof fn the_second_readout_is_the_other_pool(g: GpuSnapshot)
    ensures
        g.second_pool() matches Some(m) ==> m.used == g.gtt_used_bytes && m.total
            == g.gtt_total_bytes && m.shared == g.integrated,
        g.second_pool() is Some ==> g.primary_pool().used == g.vram_used_bytes
            && g.primary_pool().total == g.vram_total_bytes,
        g.vram_used_bytes is None && g.vram_total_bytes is None ==> g.second_pool() is None,
        g.gtt_used_bytes is None && g.gtt_total_bytes is None ==> g.second_pool() is None,
        g.vram_used_bytes is Some && g.gtt_used_bytes is Some ==> g.second_pool() is Some,
        g.vram_total_bytes is Some && g.gtt_total_bytes is Some ==> g.second_pool() is Some,
{
}

/// A recording that is asked for is played, a demonstration that is asked for is
/// shown unless one is, and else the machine's own cards are.
pub proof fn what_is_asked_for_is_the_source(n: usize, path: String, mock: Option<usize>)
    ensures
        source_of(mock, Some(path)) == BackendSource::Replay(path),
        source_of(Some(n), None) == BackendSource::Mock(n),
        source_of(None, None) is Live,
{
}

} // verus!
