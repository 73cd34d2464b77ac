//! Intel cards on Linux (i915 and xe): which cards are theirs, and what their
//! DRM clients add up to, since nothing else says how busy they are.
use vstd::prelude::*;
use crate::backend::linux::gts::gen_at;
use crate::backend::amd::measurable;
use crate::backend::linux::fdinfo::{any_key, holds_key, total_of, FdClient};
use crate::backend::linux::scanner::ProcSnapshot;
use crate::backend::linux::sweep::{Assigned, ClientKey, ClientSample, Entry, ProcShare, Ratio, SweepDevice, assign, assignments, busiest_capped, busy_share, card_mem, card_shares, is_collected, lemma_assignments, ns_delta_share, rows_mem, rows_shares, the_gauges_are_the_sums_of_the_rows};
use crate::backend::linux::sysfs::{CardEntry, LinkTexts, ScannedCard, a_link_is_read_from_its_files, a_written_number_is_read, are_ids_of, by_index, cards_with_driver, claims, holds_number, ids_of, lemma_claims_in_range, link_of, number_in, pci_device_id, pcie_current_link, read_u64, a_links_generation_is_that_of_its_rate};
use crate::backend::raw::{Figure, RawSnapshot, busy_on, is_busy_figure, is_micro, is_milli, on_card, read_milli, thousandths};
use crate::backend::opt_text;
use crate::keyed::{KeyedMap, TextMap};
use crate::text::{a_prefix_can_be_taken_off, a_text_is_found_where_it_stands, contains_text, has_prefix, occurs_at, same_text, starts_with, string_texts, text_contains, decimal, words};

verus! {

/// Intel's PCI vendor id, as sysfs writes it.
pub const INTEL_VENDOR: &'static str = "0x8086";

/// Intel's two DRM drivers.
pub open spec fn intel_driver(name: Seq<char>) -> bool {
    name == "i915"@ || name == "xe"@
}

/// The media engines: "video"/"video-enhance" on i915, "vcs"/"vecs" on xe.
pub open spec fn video_name(name: Seq<char>) -> bool {
    has_prefix(name, "video"@) || has_prefix(name, "vcs"@) || has_prefix(name, "vecs"@)
}

/// Every engine counts.
pub open spec fn any_name(name: Seq<char>) -> bool {
    true
}

pub fn is_intel_driver(driver: &str) -> (b: bool)
    ensures
        b == intel_driver(driver@),
{
    same_text(driver, "i915") || same_text(driver, "xe")
}

/// i915 names media engines "video"/"video-enhance"; xe "vcs"/"vecs".
pub fn is_video(k: &str) -> (b: bool)
    ensures
        b == video_name(k@),
{
    starts_with(k, "video") || starts_with(k, "vcs") || starts_with(k, "vecs")
}

/// The entries that this backend claims.
pub open spec fn intel_claims(cards: Seq<CardEntry>) -> Seq<ScannedCard> {
    claims(cards, INTEL_VENDOR@, |s: Seq<char>| intel_driver(s), cards.len())
}

/// The cards that this backend claims, by card number.
pub fn scan(cards: &Vec<CardEntry>) -> (out: Vec<ScannedCard>)
    ensures
        by_index(out@, intel_claims(cards@)),
        forall|k: int| 0 <= k < out@.len() ==> (#[trigger] out@[k]).at < cards@.len(),
{
    let accept = |s: &str| -> (b: bool)
        ensures
            b == intel_driver(s@),
        { is_intel_driver(s) };
    let out = cards_with_driver(cards, INTEL_VENDOR, accept);
    proof {
        let p = |s: Seq<char>| intel_driver(s);
        let n: nat = cards@.len();
        assert(cards.len() == n);
        let found = claims(cards@, INTEL_VENDOR@, p, n);
        lemma_claims_in_range(cards@, INTEL_VENDOR@, p, n);
        assert(by_index(out@, found));
    }
    out
}

/// Identities of the cards that this backend claims.
pub fn claimed_ids(cards: &Vec<CardEntry>) -> (ids: Vec<String>)
    ensures
        are_ids_of(string_texts(ids@), cards@, intel_claims(cards@)),
{
    let found = scan(cards);
    ids_of(cards, &found)
}

// ---------------------------------------------------------------- memory

/// One client's memory, split by where the bytes live.
#[derive(Clone, Copy, PartialEq, Eq, Structural, Debug)]
pub struct MemSplit {
    /// Device-local (VRAM) bytes.
    pub local: u64,
    /// System-RAM-backed bytes.
    pub system: u64,
    /// A local region was named at all, even at zero bytes.
    pub saw_local: bool,
}

/// A region lives on the card: local and vram regions do, and bare "stolen"
/// follows the device.
pub open spec fn local_region(region: Seq<char>, discrete: bool) -> bool {
    ||| has_prefix(region, "local"@)
    ||| has_prefix(region, "vram"@)
    ||| contains_text(region, "-local"@)
    ||| region == "stolen"@ && discrete
}

/// The bytes in the client's local (or its other) regions.
pub open spec fn local_bytes(c: FdClient, discrete: bool) -> nat {
    total_of(c.memory.listed().filter(|r: Seq<char>| local_region(r, discrete)), c.memory@)
}

pub open spec fn system_bytes(c: FdClient, discrete: bool) -> nat {
    total_of(c.memory.listed().filter(|r: Seq<char>| !local_region(r, discrete)), c.memory@)
}

pub open spec fn saw_local(c: FdClient, discrete: bool) -> bool {
    holds_key(c.memory@, |r: Seq<char>| local_region(r, discrete))
}

/// All bytes the client names.
pub open spec fn all_bytes(c: FdClient) -> nat {
    total_of(c.memory.listed(), c.memory@)
}

pub open spec fn split_of(c: FdClient, discrete: bool) -> MemSplit {
    MemSplit {
        local: local_bytes(c, discrete) as u64,
        system: system_bytes(c, discrete) as u64,
        saw_local: saw_local(c, discrete),
    }
}

fn is_local(region: &str, discrete: bool) -> (b: bool)
    ensures
        b == local_region(region@, discrete),
{
    starts_with(region, "local") || starts_with(region, "vram") || text_contains(region, "-local")
        || (discrete && same_text(region, "stolen"))
}

proof fn lemma_split_step(
    names: Seq<Seq<char>>,
    m: Map<Seq<char>, u64>,
    p: spec_fn(Seq<char>) -> bool,
    q: spec_fn(Seq<char>) -> bool,
)
    requires
        forall|s: Seq<char>| #[trigger] q(s) == !p(s),
    ensures
        total_of(names.filter(p), m) + total_of(names.filter(q), m) == total_of(names, m),
    decreases names.len(),
{
    reveal(Seq::filter);
    if names.len() > 0 {
        let init = names.drop_last();
        lemma_split_step(init, m, p, q);
        let a = init.filter(p);
        let b = init.filter(q);
        assert(a.push(names.last()).drop_last() =~= a);
        assert(b.push(names.last()).drop_last() =~= b);
        assert(q(names.last()) == !p(names.last()));
    }
}

/// Splits a client's memory regions by where they live.
pub fn split_memory(c: &FdClient, discrete: bool) -> (s: MemSplit)
    requires
        c.wf(),
        all_bytes(*c) <= u64::MAX,
    ensures
        s == split_of(*c, discrete),
        s.local + s.system == all_bytes(*c),
{
    let ghost names = c.memory.listed();
    let ghost m = c.memory@;
    let ghost p = |r: Seq<char>| local_region(r, discrete);
    let ghost q = |r: Seq<char>| !local_region(r, discrete);
    let n: usize = c.memory.len();
    let mut s = MemSplit { local: 0, system: 0, saw_local: false };
    let mut i: usize = 0;
    proof {
        c.memory.lemma_listed();
        reveal(Seq::filter);
        assert(names.take(0) =~= Seq::<Seq<char>>::empty());
    }
    while i < n
        invariant
            i <= n,
            n == names.len(),
            names == c.memory.listed(),
            m == c.memory@,
            c.wf(),
            total_of(names, m) <= u64::MAX,
            p == (|r: Seq<char>| local_region(r, discrete)),
            q == (|r: Seq<char>| !local_region(r, discrete)),
            s.local == total_of(names.take(i as int).filter(p), m),
            s.system == total_of(names.take(i as int).filter(q), m),
            s.saw_local <==> exists|k: int| 0 <= k < i && p(#[trigger] names[k]),
        decreases n - i,
    {
        let bytes: u64 = *c.memory.value_at(i);
        let region = c.memory.key_at(i);
        proof {
            reveal(Seq::filter);
            let next = names.take(i + 1);
            assert(next.drop_last() =~= names.take(i as int));
            assert(next.last() == names[i as int]);
            lemma_split_step(next, m, p, q);
            let a = names.take(i as int).filter(p);
            let b = names.take(i as int).filter(q);
            assert(a.push(names[i as int]).drop_last() =~= a);
            assert(b.push(names[i as int]).drop_last() =~= b);
            lemma_prefix_total(names, m, i + 1);
        }
        if is_local(region.as_str(), discrete) {
            s.local = s.local + bytes;
            s.saw_local = true;
            assert(p(names[i as int]));
        } else {
            s.system = s.system + bytes;
        }
        i = i + 1;
    }
    proof {
        assert(names.take(i as int) =~= names);
        lemma_split_step(names, m, p, q);
        if saw_local(*c, discrete) {
            let k = choose|k: Seq<char>| #[trigger] m.dom().contains(k) && p(k);
            assert(names.contains(k));
            let w = choose|w: int| 0 <= w < names.len() && names[w] == k;
            assert(p(names[w]));
        }
        if s.saw_local {
            let w = choose|w: int| 0 <= w < n && p(#[trigger] names[w]);
            assert(names.contains(names[w]));
            assert(m.dom().contains(names[w]));
        }
    }
    s
}

proof fn lemma_prefix_total(names: Seq<Seq<char>>, m: Map<Seq<char>, u64>, i: int)
    requires
        0 <= i <= names.len(),
    ensures
        total_of(names.take(i), m) <= total_of(names, m),
    decreases names.len() - i,
{
    if i < names.len() {
        lemma_prefix_total(names, m, i + 1);
        assert(names.take(i + 1).drop_last() =~= names.take(i));
    } else {
        assert(names.take(i) =~= names);
    }
}

/// The card's own memory: the sum over its tiles up to the first absent one,
/// else what the driver publishes as a total.
pub open spec fn vram_total_of(tiles: Seq<u64>, lmem: Option<u64>) -> Option<u64> {
    if tile_sum(tiles) > 0 {
        Some(tile_sum(tiles) as u64)
    } else {
        lmem
    }
}

pub open spec fn tile_sum(tiles: Seq<u64>) -> nat
    decreases tiles.len(),
{
    if tiles.len() == 0 {
        0
    } else {
        tile_sum(tiles.drop_last()) + tiles.last() as nat
    }
}

/// Total device-local memory from the sizes of its tiles, or from the total
/// that an out-of-tree driver publishes; nothing where neither exists.
pub fn vram_total(tiles: &Vec<u64>, lmem: Option<u64>) -> (r: Option<u64>)
    requires
        tile_sum(tiles@) <= u64::MAX,
    ensures
        r == vram_total_of(tiles@, lmem),
{
    let mut sum: u64 = 0;
    let mut i: usize = 0;
    assert(tiles@.take(0) =~= Seq::<u64>::empty());
    while i < tiles.len()
        invariant
            i <= tiles.len(),
            tile_sum(tiles@) <= u64::MAX,
            sum == tile_sum(tiles@.take(i as int)),
        decreases tiles.len() - i,
    {
        proof {
            assert(tiles@.take(i + 1).drop_last() =~= tiles@.take(i as int));
            lemma_tile_prefix(tiles@, i + 1);
        }
        sum = sum + tiles[i];
        i = i + 1;
    }
    assert(tiles@.take(i as int) =~= tiles@);
    if sum > 0 {
        Some(sum)
    } else {
        lmem
    }
}

proof fn lemma_tile_prefix(tiles: Seq<u64>, i: int)
    requires
        0 <= i <= tiles.len(),
    ensures
        tile_sum(tiles.take(i)) <= tile_sum(tiles),
    decreases tiles.len() - i,
{
    if i < tiles.len() {
        lemma_tile_prefix(tiles, i + 1);
        assert(tiles.take(i + 1).drop_last() =~= tiles.take(i));
    } else {
        assert(tiles.take(i) =~= tiles);
    }
}

/// The current clock: the first of the three places a driver keeps it that has
/// one.
pub fn gt_cur_freq_mhz(card: Option<u64>, tile: Option<u64>, rps: Option<u64>) -> (r: Option<u64>)
    ensures
        r == (if card is Some {
            card
        } else if tile is Some {
            tile
        } else {
            rps
        }),
{
    if card.is_some() {
        card
    } else if tile.is_some() {
        tile
    } else {
        rps
    }
}

/// A per-device sum, but only where the sweep was in a position to measure
/// anything: an unattributed device is unknown, an attributed one that summed
/// to nothing is idle.
pub fn attributed_sum<T: Default>(attributed: bool, sum: Option<T>) -> (r: Option<T>)
    ensures
        !attributed ==> r is None,
        attributed ==> match sum {
            Some(v) => r == Some(v),
            None => r matches Some(zero) && call_ensures(T::default, (), zero),
        },
{
    if attributed {
        match sum {
            Some(v) => Some(v),
            None => Some(T::default()),
        }
    } else {
        None
    }
}

/// A reading of a cumulative energy counter against the last one.
#[derive(Clone, Copy, PartialEq, Eq, Structural, Debug)]
pub enum PowerReading {
    /// Microjoules over nanoseconds.
    Energy { uj: u64, ns: u64 },
    /// Microwatts, read directly.
    Instant(u64),
    Unknown,
}

/// Takes an energy reading against the last one, which it replaces. A counter
/// that could not be read drops the baseline and leaves the instantaneous
/// figure; a first, stalled or backward reading measures nothing.
pub fn power_step(
    state: &mut Option<(u64, u64)>,
    energy_uj: Option<u64>,
    power_uw: Option<u64>,
    now_ns: u64,
) -> (r: PowerReading)
    ensures
        power_stepped(*old(state), *final(state), energy_uj, power_uw, now_ns, r),
{
    match energy_uj {
        Some(uj) => {
            let r = match *state {
                Some((was, at)) => if now_ns > at && uj >= was {
                    PowerReading::Energy { uj: uj - was, ns: now_ns - at }
                } else {
                    PowerReading::Unknown
                },
                None => PowerReading::Unknown,
            };
            *state = Some((uj, now_ns));
            r
        },
        None => {
            *state = None;
            match power_uw {
                Some(uw) => PowerReading::Instant(uw),
                None => PowerReading::Unknown,
            }
        },
    }
}

// ---------------------------------------------------------------- clients

/// What the attribution needs to know about one card.
#[derive(Debug)]
pub struct IntelDevice {
    pub name: String,
    pub pdev: Option<String>,
    pub driver: String,
    /// Device-local memory, where the driver publishes a total at all.
    pub vram_total: Option<u64>,
    /// Discrete card; once proven, it stays so.
    pub discrete: bool,
    /// The most the slot and the card could do.
    pub pcie_max_gen: Option<u8>,
    pub pcie_max_width: Option<u32>,
}

/// One counted client and its memory split.
#[derive(Clone, Copy, PartialEq, Eq, Structural, Debug)]
pub struct IntelEntry {
    pub entry: Entry,
    pub mem: MemSplit,
}

/// The Intel backend's state between polls.
pub struct IntelBackend {
    pub devices: Vec<IntelDevice>,
    pub i915_state: KeyedMap<ClientKey, (u64, u64, u64)>,
    pub xe_state: KeyedMap<ClientKey, TextMap<(u64, u64)>>,
}

pub open spec fn sweep_devices(devices: Seq<IntelDevice>) -> Seq<SweepDevice> {
    devices.map_values(|d: IntelDevice| SweepDevice { pdev: d.pdev, driver: d.driver })
}

/// The client touched a render engine.
pub open spec fn is_graphics(c: FdClient) -> bool {
    ||| holds_key(c.engine_ns@, |k: Seq<char>| k == "render"@ || k == "rcs"@)
    ||| holds_key(c.cycles@, |k: Seq<char>| k == "rcs"@)
}

/// The share of the busiest accepted engine since the client's last cycles.
pub open spec fn xe_share(
    r: Ratio,
    prev: Option<Map<Seq<char>, (u64, u64)>>,
    c: FdClient,
    p: spec_fn(Seq<char>) -> bool,
) -> bool {
    match prev {
        None => r == (Ratio { num: 0, den: 1 }),
        Some(was) => busiest_capped(r, c.cycles@, was, p),
    }
}

/// What one client contributes, against its counters at the last sweep.
pub open spec fn is_entry(
    e: IntelEntry,
    busy: Option<(u64, u64, u64)>,
    cycles: Option<Map<Seq<char>, (u64, u64)>>,
    pid: u32,
    c: FdClient,
    gpu: usize,
    discrete: bool,
    at: u64,
) -> bool {
    let sample = e.entry.sample;
    let mem = split_of(c, discrete);
    &&& e.mem == mem
    &&& e.entry.pid == pid
    &&& e.entry.id == c.id
    &&& e.entry.gpu == gpu
    &&& sample.mem_bytes == (if discrete || mem.saw_local {
        mem.local
    } else {
        mem.system
    })
    &&& sample.graphics == is_graphics(c)
    &&& if c.driver@ == "xe"@ {
        &&& xe_share(sample.util, cycles, c, |s: Seq<char>| any_name(s))
        &&& xe_share(sample.video, cycles, c, |s: Seq<char>| video_name(s))
    } else {
        &&& sample.util == busy_share(
            match busy {
                Some((t, v, then)) => Some((t, then)),
                None => None,
            },
            c.all_busy_ns() as u64,
            at,
        )
        &&& sample.video == busy_share(
            match busy {
                Some((t, v, then)) => Some((v, then)),
                None => None,
            },
            c.busy_ns(|s: Seq<char>| video_name(s)) as u64,
            at,
        )
    }
}

/// Every client's memory adds up.
pub open spec fn weighable(clients: Seq<(u32, FdClient)>) -> bool {
    forall|i: int| 0 <= i < clients.len() ==> all_bytes((#[trigger] clients[i]).1) <= u64::MAX
}

fn copy_cycles(m: &TextMap<(u64, u64)>) -> (out: TextMap<(u64, u64)>)
    requires
        m.wf(),
    ensures
        out.wf(),
        out@ == m@,
{
    let mut out: TextMap<(u64, u64)> = TextMap::new();
    let ghost names = m.listed();
    let n: usize = m.len();
    let mut i: usize = 0;
    while i < n
        invariant
            i <= n,
            n == names.len(),
            names == m.listed(),
            m.wf(),
            out.wf(),
            forall|k: Seq<char>|
                #[trigger] out@.dom().contains(k) <==> exists|j: int|
                    0 <= j < i && #[trigger] names[j] == k,
            forall|j: int| 0 <= j < i ==> out@[#[trigger] names[j]] == m@[names[j]],
        decreases n - i,
    {
        let key = m.key_at(i);
        let value: (u64, u64) = *m.value_at(i);
        let ghost before = out@;
        out.insert(key.clone(), value);
        proof {
            let added = names[i as int];
            assert(out@ == before.insert(added, value));
            assert forall|k: Seq<char>| #[trigger] out@.dom().contains(k) <==> exists|j: int|
                0 <= j < i + 1 && #[trigger] names[j] == k by {
                if before.dom().contains(k) {
                    let j = choose|j: int| 0 <= j < i && #[trigger] names[j] == k;
                    assert(names[j] == k);
                }
                if k == added {
                    assert(names[i as int] == k);
                }
            }
        }
        i = i + 1;
    }
    proof {
        m.lemma_listed();
        assert forall|k: Seq<char>| m@.dom().contains(k) == #[trigger] out@.dom().contains(k) by {
            assert(m@.dom().contains(k) <==> names.contains(k));
        }
        assert forall|k: Seq<char>| #[trigger] out@.dom().contains(k) implies out@[k] == m@[k] by {
            let j = choose|j: int| 0 <= j < i && #[trigger] names[j] == k;
            assert(out@[names[j]] == m@[names[j]]);
        }
        assert(out@ =~= m@);
    }
    out
}

/// What the cycle shares need of a client: its cycles.
pub fn client_snapshot(c: &FdClient) -> (m: TextMap<(u64, u64)>)
    requires
        c.wf(),
    ensures
        m.wf(),
        m@ == c.cycles@,
{
    copy_cycles(&c.cycles)
}

fn touches_render(c: &FdClient) -> (b: bool)
    requires
        c.wf(),
    ensures
        b == is_graphics(*c),
{
    let engine = |s: &str| -> (b: bool)
        ensures
            b == (s@ == "render"@ || s@ == "rcs"@),
        { same_text(s, "render") || same_text(s, "rcs") };
    let cycle = |s: &str| -> (b: bool)
        ensures
            b == (s@ == "rcs"@),
        { same_text(s, "rcs") };
    let x = any_key(&c.engine_ns, engine);
    let y = any_key(&c.cycles, cycle);
    proof {
        assert(x == holds_key(c.engine_ns@, |k: Seq<char>| k == "render"@ || k == "rcs"@));
        assert(y == holds_key(c.cycles@, |k: Seq<char>| k == "rcs"@));
    }
    x || y
}

fn xe_shares(prev: Option<&TextMap<(u64, u64)>>, c: &FdClient) -> (r: (Ratio, Ratio))
    requires
        c.wf(),
        prev matches Some(m) ==> m.wf(),
    ensures
        ({
            let was = match prev {
                Some(m) => Some(m@),
                None => None,
            };
            xe_share(r.0, was, *c, |s: Seq<char>| any_name(s)) && xe_share(
                r.1,
                was,
                *c,
                |s: Seq<char>| video_name(s),
            )
        }),
{
    match prev {
        None => (Ratio { num: 0, den: 1 }, Ratio { num: 0, den: 1 }),
        Some(m) => {
            let any = |s: &str| -> (b: bool)
                ensures
                    b == any_name(s@),
                { true };
            let video = |s: &str| -> (b: bool)
                ensures
                    b == video_name(s@),
                { is_video(s) };
            let r = (c.xe_ratio(m, any), c.xe_ratio(m, video));
            proof {
                let every = |s: Seq<char>| any_name(s);
                let media = |s: Seq<char>| video_name(s);
                assert(busiest_capped(r.0, c.cycles@, m@, every));
                assert(busiest_capped(r.1, c.cycles@, m@, media));
            }
            r
        },
    }
}

fn busy_counters(c: &FdClient) -> (r: (u64, u64))
    requires
        c.wf(),
        c.all_busy_ns() <= u64::MAX,
    ensures
        r.0 == c.all_busy_ns(),
        r.1 == c.busy_ns(|s: Seq<char>| video_name(s)),
{
    let video = |s: &str| -> (b: bool)
        ensures
            b == video_name(s@),
        { is_video(s) };
    let total: u64 = c.total_engine_ns();
    let video_ns: u64 = c.engine_ns_where(video);
    proof {
        assert(video_ns == c.busy_ns(|s: Seq<char>| video_name(s)));
    }
    (total, video_ns)
}

pub open spec fn busy_at(m: Map<(u32, u64), (u64, u64, u64)>, k: (u32, u64)) -> Option<
    (u64, u64, u64),
> {
    if m.dom().contains(k) {
        Some(m[k])
    } else {
        None
    }
}

pub open spec fn cycles_before(m: Map<(u32, u64), TextMap<(u64, u64)>>, k: (u32, u64)) -> Option<
    Map<Seq<char>, (u64, u64)>,
> {
    if m.dom().contains(k) {
        Some(m[k]@)
    } else {
        None
    }
}

pub open spec fn cycles_wf(m: Map<(u32, u64), TextMap<(u64, u64)>>) -> bool {
    forall|k: (u32, u64)| m.dom().contains(k) ==> (#[trigger] m[k]).wf()
}

pub open spec fn key_of(clients: Seq<(u32, FdClient)>, a: Assigned) -> (u32, u64) {
    (clients[a.client as int].0, clients[a.client as int].1.id)
}

/// Some counted client of card `gpu` named a local memory region.
pub open spec fn local_seen(entries: Seq<IntelEntry>, gpu: int) -> bool {
    exists|k: int|
        0 <= k < entries.len() && (#[trigger] entries[k]).entry.gpu == gpu && entries[k].mem.saw_local
}

proof fn lemma_busy_step(
    counted: Seq<Assigned>,
    clients: Seq<(u32, FdClient)>,
    at: u64,
    before: Map<(u32, u64), (u64, u64, u64)>,
    was: Map<(u32, u64), (u64, u64, u64)>,
    now: Map<(u32, u64), (u64, u64, u64)>,
    i: int,
)
    requires
        0 <= i < counted.len(),
        forall|x: int, y: int|
            0 <= x < y < counted.len() ==> key_of(clients, #[trigger] counted[x]) != key_of(
                clients,
                #[trigger] counted[y],
            ),
        busy_kept(counted.take(i), clients, at, before, was),
        ({
            let key = key_of(clients, counted[i]);
            if !is_xe(clients, counted[i]) {
                now == was.insert(key, busy_of(clients, counted[i], at))
            } else if before.dom().contains(key) {
                now == was.insert(key, before[key])
            } else {
                now == was
            }
        }),
    ensures
        busy_kept(counted.take(i + 1), clients, at, before, now),
{
    let head = counted.take(i);
    let next = counted.take(i + 1);
    let added = key_of(clients, counted[i]);
    assert(next[i] == counted[i]);
    assert forall|key: (u32, u64)| #[trigger] now.dom().contains(key) <==> exists|k: int|
        0 <= k < next.len() && key_of(clients, #[trigger] next[k]) == key && (!is_xe(clients, next[k])
            || before.dom().contains(key)) by {
        if was.dom().contains(key) {
            let k = choose|k: int|
                0 <= k < head.len() && key_of(clients, #[trigger] head[k]) == key && (!is_xe(
                    clients,
                    head[k],
                ) || before.dom().contains(key));
            assert(next[k] == head[k]);
        }
        if exists|k: int|
            0 <= k < next.len() && key_of(clients, #[trigger] next[k]) == key && (!is_xe(
                clients,
                next[k],
            ) || before.dom().contains(key)) {
            let k = choose|k: int|
                0 <= k < next.len() && key_of(clients, #[trigger] next[k]) == key && (!is_xe(
                    clients,
                    next[k],
                ) || before.dom().contains(key));
            if k < i {
                assert(head[k] == next[k]);
                assert(was.dom().contains(key));
            }
        }
    }
    assert forall|k: int| 0 <= k < next.len() implies ({
        let key = key_of(clients, #[trigger] next[k]);
        if !is_xe(clients, next[k]) {
            now[key] == busy_of(clients, next[k], at)
        } else {
            before.dom().contains(key) ==> now[key] == before[key]
        }
    }) by {
        assert(next[k] == counted[k]);
        if k < i {
            assert(head[k] == counted[k]);
            assert(key_of(clients, counted[k]) != added);
        }
    }
}

proof fn lemma_cycles_step(
    counted: Seq<Assigned>,
    clients: Seq<(u32, FdClient)>,
    before: Map<(u32, u64), TextMap<(u64, u64)>>,
    was: Map<(u32, u64), TextMap<(u64, u64)>>,
    now: Map<(u32, u64), TextMap<(u64, u64)>>,
    i: int,
)
    requires
        0 <= i < counted.len(),
        forall|x: int, y: int|
            0 <= x < y < counted.len() ==> key_of(clients, #[trigger] counted[x]) != key_of(
                clients,
                #[trigger] counted[y],
            ),
        cycles_kept(counted.take(i), clients, before, was),
        ({
            let key = key_of(clients, counted[i]);
            if is_xe(clients, counted[i]) {
                &&& now == was.insert(key, now[key])
                &&& now[key]@ == clients[counted[i].client as int].1.cycles@
            } else if before.dom().contains(key) {
                &&& now == was.insert(key, now[key])
                &&& now[key]@ == before[key]@
            } else {
                now == was
            }
        }),
    ensures
        cycles_kept(counted.take(i + 1), clients, before, now),
{
    let head = counted.take(i);
    let next = counted.take(i + 1);
    let added = key_of(clients, counted[i]);
    assert(next[i] == counted[i]);
    assert forall|key: (u32, u64)| #[trigger] now.dom().contains(key) <==> exists|k: int|
        0 <= k < next.len() && key_of(clients, #[trigger] next[k]) == key && (is_xe(clients, next[k])
            || before.dom().contains(key)) by {
        if was.dom().contains(key) {
            let k = choose|k: int|
                0 <= k < head.len() && key_of(clients, #[trigger] head[k]) == key && (is_xe(
                    clients,
                    head[k],
                ) || before.dom().contains(key));
            assert(next[k] == head[k]);
        }
        if exists|k: int|
            0 <= k < next.len() && key_of(clients, #[trigger] next[k]) == key && (is_xe(
                clients,
                next[k],
            ) || before.dom().contains(key)) {
            let k = choose|k: int|
                0 <= k < next.len() && key_of(clients, #[trigger] next[k]) == key && (is_xe(
                    clients,
                    next[k],
                ) || before.dom().contains(key));
            if k < i {
                assert(head[k] == next[k]);
                assert(was.dom().contains(key));
            }
        }
    }
    assert forall|k: int| 0 <= k < next.len() implies ({
        let key = key_of(clients, #[trigger] next[k]);
        if is_xe(clients, next[k]) {
            now[key]@ == clients[next[k].client as int].1.cycles@
        } else {
            before.dom().contains(key) ==> now[key]@ == before[key]@
        }
    }) by {
        assert(next[k] == counted[k]);
        if k < i {
            assert(head[k] == counted[k]);
            assert(key_of(clients, counted[k]) != added);
        }
    }
}

impl IntelBackend {
    pub open spec fn wf(&self) -> bool {
        self.i915_state.wf() && self.xe_state.wf() && cycles_wf(self.xe_state@)
    }

    /// Attributes one walk: every client that counts for one of this backend's
    /// cards contributes against its own counters at the last walk; the
    /// counters kept are exactly those of this walk's clients; and a card some
    /// client of which named local memory is discrete from now on.
    pub fn attribute(&mut self, snap: &ProcSnapshot) -> (out: Vec<IntelEntry>)
        requires
            old(self).wf(),
            measurable(snap.clients@),
            weighable(snap.clients@),
        ensures
            final(self).wf(),
            ({
                let clients = snap.clients@;
                let counted = assignments(
                    clients,
                    sweep_devices(old(self).devices@),
                    clients.len(),
                );
                &&& out@.len() == counted.len()
                &&& forall|k: int|
                    0 <= k < counted.len() ==> is_entry(
                        #[trigger] out@[k],
                        busy_at(old(self).i915_state@, key_of(clients, counted[k])),
                        cycles_before(old(self).xe_state@, key_of(clients, counted[k])),
                        clients[counted[k].client as int].0,
                        clients[counted[k].client as int].1,
                        counted[k].gpu,
                        old(self).devices@[counted[k].gpu as int].discrete,
                        snap.at,
                    )
                &&& busy_kept(
                    counted,
                    clients,
                    snap.at,
                    old(self).i915_state@,
                    final(self).i915_state@,
                )
                &&& cycles_kept(counted, clients, old(self).xe_state@, final(self).xe_state@)
                &&& cards_marked(old(self).devices@, final(self).devices@, out@)
            }),
    {
        let mut devices: Vec<SweepDevice> = Vec::new();
        let mut d: usize = 0;
        while d < self.devices.len()
            invariant
                d <= self.devices.len(),
                devices@ == sweep_devices(self.devices@).take(d as int),
            decreases self.devices.len() - d,
        {
            devices.push(
                SweepDevice {
                    pdev: match &self.devices[d].pdev {
                        Some(p) => Some(p.clone()),
                        None => None,
                    },
                    driver: self.devices[d].driver.clone(),
                },
            );
            assert(devices@ =~= sweep_devices(self.devices@).take(d + 1));
            d = d + 1;
        }
        assert(devices@ =~= sweep_devices(self.devices@));
        let counted = assign(&snap.clients, &devices);
        let ghost clients = snap.clients@;
        let ghost before = *self;
        let mut busy: KeyedMap<ClientKey, (u64, u64, u64)> = KeyedMap::new();
        let mut cycles: KeyedMap<ClientKey, TextMap<(u64, u64)>> = KeyedMap::new();
        let mut out: Vec<IntelEntry> = Vec::new();
        let nclients: usize = snap.clients.len();
        let ndevices: usize = devices.len();
        proof {
            lemma_assignments(clients, devices@, clients.len());
        }
        let mut i: usize = 0;
        while i < counted.len()
            invariant
                i <= counted.len(),
                clients == snap.clients@,
                measurable(clients),
                weighable(clients),
                *self == before,
                before.wf(),
                self.devices@.len() == devices@.len(),
                forall|x: int|
                    0 <= x < counted@.len() ==> (#[trigger] counted@[x]).client < clients.len()
                        && counted@[x].gpu < devices@.len(),
                forall|x: int, y: int|
                    0 <= x < y < counted@.len() ==> key_of(clients, #[trigger] counted@[x]) != key_of(
                        clients,
                        #[trigger] counted@[y],
                    ),
                busy.wf(),
                cycles.wf(),
                cycles_wf(cycles@),
                out@.len() == i,
                forall|k: int|
                    0 <= k < i ==> is_entry(
                        #[trigger] out@[k],
                        busy_at(before.i915_state@, key_of(clients, counted@[k])),
                        cycles_before(before.xe_state@, key_of(clients, counted@[k])),
                        clients[counted@[k].client as int].0,
                        clients[counted@[k].client as int].1,
                        counted@[k].gpu,
                        before.devices@[counted@[k].gpu as int].discrete,
                        snap.at,
                    ),
                busy_kept(counted@.take(i as int), clients, snap.at, before.i915_state@, busy@),
                cycles_kept(counted@.take(i as int), clients, before.xe_state@, cycles@),
            decreases counted.len() - i,
        {
            let a = counted[i];
            assert(counted@[i as int].client < clients.len());
            let pid: u32 = snap.clients[a.client].0;
            let client = &snap.clients[a.client].1;
            assert(clients[a.client as int].1.wf());
            assert(all_bytes(clients[a.client as int].1) <= u64::MAX);
            let key = ClientKey { pid, id: client.id };
            let discrete = self.devices[a.gpu].discrete;
            let mem = split_memory(client, discrete);
            let ghost was_busy = busy@;
            let ghost was_cycles = cycles@;
            let xe = same_text(&client.driver, "xe");
            let (util, video) = if xe {
                let prev = self.xe_state.get(&key);
                let r = xe_shares(prev, client);
                cycles.insert(key, client_snapshot(client));
                if let Some(stale) = self.i915_state.get(&key) {
                    busy.insert(key, *stale);
                }
                r
            } else {
                let (total_ns, video_ns) = busy_counters(client);
                let prev = match self.i915_state.get(&key) {
                    Some(p) => Some(*p),
                    None => None,
                };
                let r = match prev {
                    Some((t, v, then)) => (
                        ns_delta_share(Some((t, then)), total_ns, snap.at),
                        ns_delta_share(Some((v, then)), video_ns, snap.at),
                    ),
                    None => (Ratio { num: 0, den: 1 }, Ratio { num: 0, den: 1 }),
                };
                busy.insert(key, (total_ns, video_ns, snap.at));
                if let Some(stale) = self.xe_state.get(&key) {
                    cycles.insert(key, copy_cycles(stale));
                }
                r
            };
            let e = IntelEntry {
                entry: Entry {
                    pid,
                    id: client.id,
                    gpu: a.gpu,
                    sample: ClientSample {
                        util,
                        video,
                        mem_bytes: if discrete || mem.saw_local {
                            mem.local
                        } else {
                            mem.system
                        },
                        graphics: touches_render(client),
                    },
                },
                mem,
            };
            out.push(e);
            proof {
                assert(key@ == key_of(clients, counted@[i as int]));
                assert(xe == is_xe(clients, counted@[i as int]));
                lemma_busy_step(
                    counted@,
                    clients,
                    snap.at,
                    before.i915_state@,
                    was_busy,
                    busy@,
                    i as int,
                );
                lemma_cycles_step(
                    counted@,
                    clients,
                    before.xe_state@,
                    was_cycles,
                    cycles@,
                    i as int,
                );
            }
            i = i + 1;
        }
        assert(counted@.take(i as int) =~= counted@);
        self.i915_state = busy;
        self.xe_state = cycles;
        self.mark_discrete(&out);
        out
    }

    /// Marks the cards whose clients named local memory as discrete.
    fn mark_discrete(&mut self, entries: &Vec<IntelEntry>)
        ensures
            final(self).i915_state == old(self).i915_state,
            final(self).xe_state == old(self).xe_state,
            cards_marked(old(self).devices@, final(self).devices@, entries@),
    {
        let ghost before = self.devices@;
        let mut i: usize = 0;
        assert forall|g: int| 0 <= g < before.len() implies #[trigger] self.devices@[g] == (IntelDevice {
            discrete: before[g].discrete || local_seen(entries@.take(0), g),
            ..before[g]
        }) by {
            assert(!local_seen(entries@.take(0), g));
        }
        while i < entries.len()
            invariant
                i <= entries.len(),
                self.i915_state == old(self).i915_state,
                self.xe_state == old(self).xe_state,
                before == old(self).devices@,
                self.devices@.len() == before.len(),
                forall|g: int|
                    0 <= g < before.len() ==> #[trigger] self.devices@[g] == (IntelDevice {
                        discrete: before[g].discrete || local_seen(entries@.take(i as int), g),
                        ..before[g]
                    }),
            decreases entries.len() - i,
        {
            let e = entries[i];
            let ghost head = entries@.take(i as int);
            let ghost next = entries@.take(i + 1);
            let ghost was = self.devices@;
            if e.mem.saw_local && e.entry.gpu < self.devices.len() {
                self.devices[e.entry.gpu].discrete = true;
            }
            proof {
                assert forall|g: int| 0 <= g < before.len() implies #[trigger] self.devices@[g] == (IntelDevice {
                    discrete: before[g].discrete || local_seen(next, g),
                    ..before[g]
                }) by {
                    assert(was[g] == (IntelDevice { discrete: before[g].discrete || local_seen(head, g), ..before[g] }));
                    if local_seen(head, g) {
                        let k = choose|k: int| 0 <= k < head.len() && (#[trigger] head[k]).entry.gpu == g && head[k].mem.saw_local;
                        assert(next[k] == head[k]);
                    }
                    if e.entry.gpu == g && e.mem.saw_local {
                        assert(next[i as int] == e);
                    }
                    if local_seen(next, g) {
                        let k = choose|k: int| 0 <= k < next.len() && (#[trigger] next[k]).entry.gpu == g && next[k].mem.saw_local;
                        if k < i {
                            assert(head[k] == next[k]);
                        }
                    }
                }
            }
            i = i + 1;
        }
        assert(entries@.take(i as int) =~= entries@);
    }
}

pub open spec fn is_xe(clients: Seq<(u32, FdClient)>, a: Assigned) -> bool {
    clients[a.client as int].1.driver@ == "xe"@
}

/// The busy counters of a client, as kept for the next walk.
pub open spec fn busy_of(clients: Seq<(u32, FdClient)>, a: Assigned, at: u64) -> (u64, u64, u64) {
    let c = clients[a.client as int].1;
    (c.all_busy_ns() as u64, c.busy_ns(|s: Seq<char>| video_name(s)) as u64, at)
}

/// The busy counters kept are those of this walk's clients: the fresh ones, and
/// what was known of a client that did not report busy times this time.
pub open spec fn busy_kept(
    counted: Seq<Assigned>,
    clients: Seq<(u32, FdClient)>,
    at: u64,
    before: Map<(u32, u64), (u64, u64, u64)>,
    after: Map<(u32, u64), (u64, u64, u64)>,
) -> bool {
    &&& forall|key: (u32, u64)|
        #[trigger] after.dom().contains(key) <==> exists|k: int|
            0 <= k < counted.len() && key_of(clients, #[trigger] counted[k]) == key && (!is_xe(
                clients,
                counted[k],
            ) || before.dom().contains(key))
    &&& forall|k: int|
        0 <= k < counted.len() ==> {
            let key = key_of(clients, #[trigger] counted[k]);
            if !is_xe(clients, counted[k]) {
                after[key] == busy_of(clients, counted[k], at)
            } else {
                before.dom().contains(key) ==> after[key] == before[key]
            }
        }
}

/// The cycles kept, likewise.
pub open spec fn cycles_kept(
    counted: Seq<Assigned>,
    clients: Seq<(u32, FdClient)>,
    before: Map<(u32, u64), TextMap<(u64, u64)>>,
    after: Map<(u32, u64), TextMap<(u64, u64)>>,
) -> bool {
    &&& forall|key: (u32, u64)|
        #[trigger] after.dom().contains(key) <==> exists|k: int|
            0 <= k < counted.len() && key_of(clients, #[trigger] counted[k]) == key && (is_xe(
                clients,
                counted[k],
            ) || before.dom().contains(key))
    &&& forall|k: int|
        0 <= k < counted.len() ==> {
            let key = key_of(clients, #[trigger] counted[k]);
            if is_xe(clients, counted[k]) {
                after[key]@ == clients[counted[k].client as int].1.cycles@
            } else {
                before.dom().contains(key) ==> after[key]@ == before[key]@
            }
        }
}

// ---------------------------------------------------------------- sums

/// The local bytes of a card's clients.
pub open spec fn card_local(entries: Seq<IntelEntry>, gpu: usize) -> nat
    decreases entries.len(),
{
    if entries.len() == 0 {
        0
    } else {
        let e = entries.last();
        card_local(entries.drop_last(), gpu) + (if e.entry.gpu == gpu {
            e.mem.local as nat
        } else {
            0
        })
    }
}

/// The system-backed bytes of a card's clients.
pub open spec fn card_system(entries: Seq<IntelEntry>, gpu: usize) -> nat
    decreases entries.len(),
{
    if entries.len() == 0 {
        0
    } else {
        let e = entries.last();
        card_system(entries.drop_last(), gpu) + (if e.entry.gpu == gpu {
            e.mem.system as nat
        } else {
            0
        })
    }
}

/// At least one client of the card was counted.
pub open spec fn card_seen(entries: Seq<IntelEntry>, gpu: usize) -> bool {
    exists|k: int| 0 <= k < entries.len() && (#[trigger] entries[k]).entry.gpu == gpu
}

/// What the clients of one card hold, and whether any was counted at all.
#[derive(Clone, Copy, PartialEq, Eq, Structural, Debug)]
pub struct CardMemory {
    pub local: u64,
    pub system: u64,
    pub attributed: bool,
}

proof fn lemma_card_prefix(entries: Seq<IntelEntry>, gpu: usize, i: int)
    requires
        0 <= i <= entries.len(),
    ensures
        card_local(entries.take(i), gpu) <= card_local(entries, gpu),
        card_system(entries.take(i), gpu) <= card_system(entries, gpu),
    decreases entries.len() - i,
{
    if i < entries.len() {
        lemma_card_prefix(entries, gpu, i + 1);
        assert(entries.take(i + 1).drop_last() =~= entries.take(i));
    } else {
        assert(entries.take(i) =~= entries);
    }
}

/// Sums what the clients of card `gpu` hold; nothing where a sum does not fit.
pub fn card_memory(entries: &Vec<IntelEntry>, gpu: usize) -> (r: Option<CardMemory>)
    ensures
        match r {
            Some(m) => m.local == card_local(entries@, gpu) && m.system == card_system(
                entries@,
                gpu,
            ) && m.attributed == card_seen(entries@, gpu),
            None => card_local(entries@, gpu) > u64::MAX || card_system(entries@, gpu) > u64::MAX,
        },
{
    let mut m = CardMemory { local: 0, system: 0, attributed: false };
    let mut i: usize = 0;
    assert(entries@.take(0) =~= Seq::<IntelEntry>::empty());
    while i < entries.len()
        invariant
            i <= entries.len(),
            m.local == card_local(entries@.take(i as int), gpu),
            m.system == card_system(entries@.take(i as int), gpu),
            m.attributed <==> exists|k: int| 0 <= k < i && (#[trigger] entries@[k]).entry.gpu == gpu,
        decreases entries.len() - i,
    {
        let e = entries[i];
        proof {
            assert(entries@.take(i + 1).drop_last() =~= entries@.take(i as int));
            lemma_card_prefix(entries@, gpu, i + 1);
        }
        if e.entry.gpu == gpu {
            if m.local > u64::MAX - e.mem.local || m.system > u64::MAX - e.mem.system {
                return None;
            }
            m.local = m.local + e.mem.local;
            m.system = m.system + e.mem.system;
            m.attributed = true;
            assert(entries@[i as int].entry.gpu == gpu);
        }
        i = i + 1;
    }
    assert(entries@.take(i as int) =~= entries@);
    Some(m)
}

// ---------------------------------------------------------------- readings

/// The files of one card, as read; an absent file reads as nothing.
#[derive(Debug)]
pub struct IntelReads {
    pub temp: Option<String>,
    pub power_max: Option<String>,
    pub freq_card: Option<String>,
    pub freq_tile: Option<String>,
    pub freq_rps: Option<String>,
    pub link: LinkTexts,
}

pub open spec fn util_marks(entries: Seq<IntelEntry>) -> Seq<(usize, Option<Ratio>)> {
    entries.map_values(|e: IntelEntry| (e.entry.gpu, Some(e.entry.sample.util)))
}

pub open spec fn video_marks(entries: Seq<IntelEntry>) -> Seq<(usize, Option<Ratio>)> {
    entries.map_values(|e: IntelEntry| (e.entry.gpu, Some(e.entry.sample.video)))
}

/// Watts, where a power reading says.
pub open spec fn power_figure(p: PowerReading) -> Option<Figure> {
    match p {
        PowerReading::Energy { uj, ns } => Some(Figure::Energy { uj, ns }),
        PowerReading::Instant(uw) => Some(Figure::Micro(uw)),
        PowerReading::Unknown => None,
    }
}

/// `v` where clients were attributed to the card at all.
pub open spec fn where_attributed(attributed: bool, v: u64) -> Option<u64> {
    if attributed {
        Some(v)
    } else {
        None
    }
}

/// `s` is what the card's files and its clients say, field by field.
pub open spec fn is_intel_sample(
    s: RawSnapshot,
    d: IntelDevice,
    r: IntelReads,
    power: PowerReading,
    mem: CardMemory,
    sys_mem_total: Option<u64>,
) -> bool {
    &&& s.name == d.name
    &&& opt_text(s.device_id) == (match d.pdev {
        Some(p) => Some("pci:"@ + p@),
        None => None,
    })
    &&& s.integrated == !d.discrete
    &&& s.mem_util_pct is None
    &&& s.enc_util_pct is None
    &&& s.dec_util_pct is None
    &&& s.throttle is None
    &&& s.vram_used_bytes == (if d.vram_total is Some {
        where_attributed(mem.attributed, mem.local)
    } else {
        None
    })
    &&& s.vram_total_bytes == d.vram_total
    &&& s.temperature_c == thousandths(number_in(r.temp))
    &&& s.temp_slowdown_c is None
    &&& s.temp_junction_c is None
    &&& s.temp_mem_c is None
    &&& s.power_w == power_figure(power)
    &&& s.power_limit_w == (match number_in(r.power_max) {
        Some(v) => if v > 0 {
            Some(Figure::Micro(v))
        } else {
            None
        },
        None => None,
    })
    &&& s.fan_pct is None
    &&& s.fan_rpm is None
    &&& s.clock_mhz == (if number_in(r.freq_card) is Some {
        number_in(r.freq_card)
    } else if number_in(r.freq_tile) is Some {
        number_in(r.freq_tile)
    } else {
        number_in(r.freq_rps)
    })
    &&& s.mem_clock_mhz is None
    &&& s.pcie_gen == link_of(r.link.current_speed, r.link.current_width).0
    &&& s.pcie_width == link_of(r.link.current_speed, r.link.current_width).1
    &&& s.pcie_max_gen == d.pcie_max_gen
    &&& s.pcie_max_width == d.pcie_max_width
    &&& s.pcie_rx_kbs is None
    &&& s.pcie_tx_kbs is None
    &&& s.gtt_used_bytes == where_attributed(mem.attributed, mem.system)
    &&& s.gtt_total_bytes == sys_mem_total
    &&& s.volt_mv is None
    &&& s.perf_level is None
}

/// One reading of a card: its files, the power step, and what the clients of
/// the last walk hold and keep busy.
pub fn snapshot(
    d: &IntelDevice,
    r: &IntelReads,
    power: PowerReading,
    entries: &Vec<IntelEntry>,
    gpu: usize,
    mem: CardMemory,
    sys_mem_total: Option<u64>,
) -> (s: RawSnapshot)
    ensures
        is_intel_sample(s, *d, *r, power, mem, sys_mem_total),
        is_busy_figure(s.utilization_pct, on_card(util_marks(entries@), gpu)),
        is_busy_figure(s.video_util_pct, on_card(video_marks(entries@), gpu)),
{
    let mut util: Vec<(usize, Option<Ratio>)> = Vec::new();
    let mut video: Vec<(usize, Option<Ratio>)> = Vec::new();
    let mut i: usize = 0;
    while i < entries.len()
        invariant
            i <= entries.len(),
            util@ == util_marks(entries@.take(i as int)),
            video@ == video_marks(entries@.take(i as int)),
        decreases entries.len() - i,
    {
        let e = entries[i];
        util.push((e.entry.gpu, Some(e.entry.sample.util)));
        video.push((e.entry.gpu, Some(e.entry.sample.video)));
        proof {
            let next = entries@.take(i + 1);
            assert(util@ =~= util_marks(next));
            assert(video@ =~= video_marks(next));
        }
        i = i + 1;
    }
    assert(entries@.take(i as int) =~= entries@);
    let (pcie_gen, pcie_width) = pcie_current_link(&r.link);
    let mut s = RawSnapshot::nothing(d.name.clone(), pci_device_id(&d.pdev));
    s.integrated = !d.discrete;
    s.utilization_pct = busy_on(&util, gpu);
    s.video_util_pct = busy_on(&video, gpu);
    s.vram_used_bytes =
    if d.vram_total.is_some() {
        attributed_sum(mem.attributed, Some(mem.local))
    } else {
        None
    };
    s.vram_total_bytes = d.vram_total;
    s.temperature_c = read_milli(read_u64(&r.temp));
    s.power_w =
    match power {
        PowerReading::Energy { uj, ns } => Some(Figure::Energy { uj, ns }),
        PowerReading::Instant(uw) => Some(Figure::Micro(uw)),
        PowerReading::Unknown => None,
    };
    s.power_limit_w =
    match read_u64(&r.power_max) {
        Some(v) => if v > 0 {
            Some(Figure::Micro(v))
        } else {
            None
        },
        None => None,
    };
    s.clock_mhz =
    gt_cur_freq_mhz(read_u64(&r.freq_card), read_u64(&r.freq_tile), read_u64(&r.freq_rps));
    s.pcie_gen = pcie_gen;
    s.pcie_width = pcie_width;
    s.pcie_max_gen = d.pcie_max_gen;
    s.pcie_max_width = d.pcie_max_width;
    s.gtt_used_bytes = attributed_sum(mem.attributed, Some(mem.system));
    s.gtt_total_bytes = sys_mem_total;
    s
}

// ---------------------------------------------------------------- laws

proof fn lemma_marks_seen(entries: Seq<IntelEntry>, gpu: usize)
    ensures
        on_card(util_marks(entries), gpu).len() > 0 <==> card_seen(entries, gpu),
    decreases entries.len(),
{
    let marks = util_marks(entries);
    if entries.len() > 0 {
        let init = entries.drop_last();
        assert(marks.drop_last() =~= util_marks(init));
        lemma_marks_seen(init, gpu);
        if card_seen(init, gpu) {
            let k = choose|k: int| 0 <= k < init.len() && (#[trigger] init[k]).entry.gpu == gpu;
            assert(entries[k] == init[k]);
        }
        if card_seen(entries, gpu) {
            let k = choose|k: int|
                0 <= k < entries.len() && (#[trigger] entries[k]).entry.gpu == gpu;
            if k < init.len() {
                assert(init[k] == entries[k]);
            }
        }
        if entries.last().entry.gpu == gpu {
            assert(entries[entries.len() - 1].entry.gpu == gpu);
        }
    }
}

/// A card that the last walk saw no client of is unknown, never idle: neither a
/// busy figure nor a memory figure is made up for it; and where a client was
/// seen, both exist.
pub proof fn an_unseen_card_is_unknown(
    s: RawSnapshot,
    d: IntelDevice,
    r: IntelReads,
    power: PowerReading,
    entries: Seq<IntelEntry>,
    gpu: usize,
    mem: CardMemory,
    sys_mem_total: Option<u64>,
)
    requires
        is_intel_sample(s, d, r, power, mem, sys_mem_total),
        is_busy_figure(s.utilization_pct, on_card(util_marks(entries), gpu)),
        mem.attributed == card_seen(entries, gpu),
    ensures
        !card_seen(entries, gpu) ==> s.utilization_pct is None && s.vram_used_bytes is None
            && s.gtt_used_bytes is None,
        card_seen(entries, gpu) ==> s.utilization_pct is Some && s.gtt_used_bytes is Some,
{
    lemma_marks_seen(entries, gpu);
}

proof fn lemma_marks_alike(entries: Seq<IntelEntry>, gpu: usize)
    ensures
        on_card(util_marks(entries), gpu).len() == on_card(video_marks(entries), gpu).len(),
    decreases entries.len(),
{
    if entries.len() > 0 {
        lemma_marks_alike(entries.drop_last(), gpu);
        assert(util_marks(entries).drop_last() =~= util_marks(entries.drop_last()));
        assert(video_marks(entries).drop_last() =~= video_marks(entries.drop_last()));
    }
}

/// A card's media engines are read exactly where the card is: no video figure
/// stands beside a utilization that is unknown, and none is missing beside one
/// that is known.
pub proof fn video_is_reported_wherever_utilization_is(
    s: RawSnapshot,
    entries: Seq<IntelEntry>,
    gpu: usize,
)
    requires
        is_busy_figure(s.utilization_pct, on_card(util_marks(entries), gpu)),
        is_busy_figure(s.video_util_pct, on_card(video_marks(entries), gpu)),
    ensures
        s.utilization_pct is Some <==> s.video_util_pct is Some,
{
    lemma_marks_alike(entries, gpu);
}

/// The counted clients without their memory splits.
pub open spec fn counted_entries(entries: Seq<IntelEntry>) -> Seq<Entry> {
    entries.map_values(|e: IntelEntry| e.entry)
}

proof fn lemma_util_shares(entries: Seq<IntelEntry>, gpu: usize)
    ensures
        on_card(util_marks(entries), gpu).to_multiset() == card_shares(
            counted_entries(entries),
            gpu,
        ),
    decreases entries.len(),
{
    let marks = util_marks(entries);
    if entries.len() == 0 {
        on_card(marks, gpu).to_multiset_ensures();
        assert(on_card(marks, gpu).to_multiset() =~= card_shares(counted_entries(entries), gpu));
    } else {
        let rest = entries.drop_last();
        lemma_util_shares(rest, gpu);
        assert(marks.drop_last() =~= util_marks(rest));
        assert(counted_entries(entries).drop_last() =~= counted_entries(rest));
        on_card(util_marks(rest), gpu).to_multiset_ensures();
    }
}

proof fn lemma_pool_sums(entries: Seq<IntelEntry>, gpu: usize)
    ensures
        (forall|k: int|
            0 <= k < entries.len() && (#[trigger] entries[k]).entry.gpu == gpu
                ==> entries[k].entry.sample.mem_bytes == entries[k].mem.local) ==> card_local(
            entries,
            gpu,
        ) == card_mem(counted_entries(entries), gpu),
        (forall|k: int|
            0 <= k < entries.len() && (#[trigger] entries[k]).entry.gpu == gpu
                ==> entries[k].entry.sample.mem_bytes == entries[k].mem.system) ==> card_system(
            entries,
            gpu,
        ) == card_mem(counted_entries(entries), gpu),
    decreases entries.len(),
{
    if entries.len() > 0 {
        let rest = entries.drop_last();
        lemma_pool_sums(rest, gpu);
        assert(counted_entries(entries).drop_last() =~= counted_entries(rest));
        assert(entries[entries.len() - 1] == entries.last());
        assert(forall|k: int| 0 <= k < rest.len() ==> #[trigger] rest[k] == entries[k]);
    }
}

/// A card's meters are the sums of its process rows: the utilization over their
/// shares, and the pool that its clients are charged for over their memory.
pub proof fn the_meters_agree_with_the_rows(
    rows: Seq<ProcShare>,
    entries: Seq<IntelEntry>,
    gpu: usize,
)
    requires
        is_collected(rows, counted_entries(entries)),
    ensures
        on_card(util_marks(entries), gpu).to_multiset() == rows_shares(rows, gpu),
        (forall|k: int|
            0 <= k < entries.len() && (#[trigger] entries[k]).entry.gpu == gpu
                ==> entries[k].entry.sample.mem_bytes == entries[k].mem.local) ==> card_local(
            entries,
            gpu,
        ) == rows_mem(rows, gpu),
        (forall|k: int|
            0 <= k < entries.len() && (#[trigger] entries[k]).entry.gpu == gpu
                ==> entries[k].entry.sample.mem_bytes == entries[k].mem.system) ==> card_system(
            entries,
            gpu,
        ) == rows_mem(rows, gpu),
{
    the_gauges_are_the_sums_of_the_rows(rows, counted_entries(entries), gpu);
    lemma_util_shares(entries, gpu);
    lemma_pool_sums(entries, gpu);
}

// ---------------------------------------------------------------- laws

/// A region's name says where its bytes live: "local" and "vram" regions, and
/// those of a "-local" pool, are the card's own; "stolen" memory is what the
/// card is; and the system regions are host memory.
pub proof fn regions_live_where_their_name_says(a: Seq<char>, b: Seq<char>, discrete: bool)
    ensures
        local_region("local"@ + b, discrete),
        local_region("vram"@ + b, discrete),
        local_region(a + "-local"@ + b, discrete),
        local_region("stolen"@, discrete) <==> discrete,
        !contains_text("system"@ + b, "-local"@) ==> !local_region("system"@ + b, discrete),
        !local_region("stolen-system"@, discrete),
{
    a_text_is_found_where_it_stands(Seq::empty(), "local"@, b);
    a_text_is_found_where_it_stands(Seq::empty(), "vram"@, b);
    a_text_is_found_where_it_stands(a, "-local"@, b);
    reveal_strlit("local");
    reveal_strlit("vram");
    reveal_strlit("-local");
    reveal_strlit("stolen");
    reveal_strlit("system");
    reveal_strlit("stolen-system");
    let s = "system"@ + b;
    assert(s[0] == 's' && s[1] == 'y');
    assert("stolen"@[0] == 's' && "stolen"@[1] == 't');
    a_prefix_can_be_taken_off(s, "local"@);
    a_prefix_can_be_taken_off(s, "vram"@);
    a_prefix_can_be_taken_off("stolen"@, "local"@);
    a_prefix_can_be_taken_off("stolen"@, "vram"@);
    a_prefix_can_be_taken_off("stolen-system"@, "local"@);
    a_prefix_can_be_taken_off("stolen-system"@, "vram"@);
    assert(s.take(5)[0] == 's' && s.take(4)[0] == 's');
    assert("local"@[0] == 'l' && "vram"@[0] == 'v' && "-local"@[0] == '-' && "-local"@[1] == 'l');
    assert("stolen"@.take(5)[0] == 's' && "stolen"@.take(4)[0] == 's');
    assert("stolen-system"@.take(5)[0] == 's' && "stolen-system"@.take(4)[0] == 's');
    let t = "stolen-system"@;
    if contains_text("stolen"@, "-local"@) {
        let i = choose|i: int| occurs_at("stolen"@, "-local"@, i);
        assert("stolen"@.subrange(i, i + 6)[0] == "stolen"@[i]);
    }
    if contains_text(t, "-local"@) {
        let i = choose|i: int| occurs_at(t, "-local"@, i);
        assert(t.subrange(i, i + 6)[0] == t[i]);
        assert(t.subrange(i, i + 6)[1] == t[i + 1]);
        assert(t[6] == '-' && t[7] == 's');
    }
}

/// The client names no region of a card's own memory.
pub open spec fn names_no_local_region(c: FdClient) -> bool {
    forall|r: Seq<char>| #[trigger]
        c.memory@.dom().contains(r) ==> !has_prefix(r, "local"@) && !has_prefix(r, "vram"@)
            && !contains_text(r, "-local"@)
}

/// `e` is what client `c` contributes to card `gpu`, whatever its counters were.
pub open spec fn is_entry_of(e: IntelEntry, c: FdClient, gpu: usize, discrete: bool) -> bool {
    exists|
        busy: Option<(u64, u64, u64)>,
        cycles: Option<Map<Seq<char>, (u64, u64)>>,
        pid: u32,
        at: u64,
    | #[trigger] is_entry(e, busy, cycles, pid, c, gpu, discrete, at)
}

proof fn lemma_none_local(c: FdClient, discrete: bool)
    requires
        c.wf(),
        names_no_local_region(c),
        !discrete,
    ensures
        local_bytes(c, discrete) == 0,
        system_bytes(c, discrete) == all_bytes(c),
        !saw_local(c, discrete),
{
    let names = c.memory.listed();
    let p = |r: Seq<char>| local_region(r, discrete);
    let q = |r: Seq<char>| !local_region(r, discrete);
    c.memory.lemma_listed();
    assert forall|k: int| 0 <= k < names.len() implies !p(#[trigger] names[k]) by {
        assert(names.contains(names[k]));
        assert(c.memory@.dom().contains(names[k]));
    }
    lemma_nothing_kept(names, p, c.memory@);
    lemma_split_step(names, c.memory@, p, q);
    if saw_local(c, discrete) {
        let k = choose|k: Seq<char>| #[trigger] c.memory@.dom().contains(k) && p(k);
        assert(names.contains(k));
    }
}

proof fn lemma_nothing_kept(
    names: Seq<Seq<char>>,
    p: spec_fn(Seq<char>) -> bool,
    m: Map<Seq<char>, u64>,
)
    requires
        forall|k: int| 0 <= k < names.len() ==> !p(#[trigger] names[k]),
    ensures
        total_of(names.filter(p), m) == 0,
    decreases names.len(),
{
    reveal(Seq::filter);
    if names.len() > 0 {
        let init = names.drop_last();
        assert forall|k: int| 0 <= k < init.len() implies !p(#[trigger] init[k]) by {
            assert(init[k] == names[k]);
        }
        assert(!p(names[names.len() - 1]));
        lemma_nothing_kept(init, p, m);
    }
}

/// On a card that is not discrete, a client that names no region of its own
/// memory is charged with all the memory it names: the system pool, which is
/// all that such a card has.
pub proof fn an_igpu_client_is_charged_for_all_it_names(e: IntelEntry, c: FdClient, gpu: usize)
    requires
        c.wf(),
        all_bytes(c) <= u64::MAX,
        names_no_local_region(c),
        is_entry_of(e, c, gpu, false),
    ensures
        e.entry.sample.mem_bytes == all_bytes(c),
        e.mem.system == all_bytes(c),
        e.mem.local == 0,
        !e.mem.saw_local,
{
    lemma_none_local(c, false);
}

/// On a discrete card, and wherever a client names a region of the card's own
/// memory, it is charged with what it holds there, and not for host memory.
pub proof fn a_discrete_client_is_charged_for_the_cards_memory(
    e: IntelEntry,
    c: FdClient,
    gpu: usize,
    discrete: bool,
    region: Seq<char>,
)
    requires
        c.wf(),
        all_bytes(c) <= u64::MAX,
        is_entry_of(e, c, gpu, discrete),
        discrete || c.memory@.dom().contains(region) && (has_prefix(region, "local"@)
            || has_prefix(region, "vram"@) || contains_text(region, "-local"@)),
    ensures
        e.entry.sample.mem_bytes == e.mem.local,
        e.mem.local + e.mem.system == all_bytes(c),
        !discrete ==> e.mem.saw_local,
        (forall|r: Seq<char>| #[trigger]
            c.memory@.dom().contains(r) ==> has_prefix(r, "local"@) || has_prefix(r, "vram"@))
            ==> e.entry.sample.mem_bytes == all_bytes(c),
        discrete && names_no_local_region(c) && !c.memory@.dom().contains("stolen"@)
            ==> e.entry.sample.mem_bytes == 0,
{
    let p = |r: Seq<char>| local_region(r, discrete);
    let q = |r: Seq<char>| !local_region(r, discrete);
    let names = c.memory.listed();
    c.memory.lemma_listed();
    lemma_split_step(names, c.memory@, p, q);
    if !discrete {
        assert(c.memory@.dom().contains(region) && p(region));
    }
    if forall|r: Seq<char>| #[trigger]
        c.memory@.dom().contains(r) ==> has_prefix(r, "local"@) || has_prefix(r, "vram"@) {
        assert forall|k: int| 0 <= k < names.len() implies !q(#[trigger] names[k]) by {
            assert(names.contains(names[k]));
            assert(c.memory@.dom().contains(names[k]));
        }
        lemma_nothing_kept(names, q, c.memory@);
    }
    if discrete && names_no_local_region(c) && !c.memory@.dom().contains("stolen"@) {
        assert forall|k: int| 0 <= k < names.len() implies !p(#[trigger] names[k]) by {
            assert(names.contains(names[k]));
            assert(c.memory@.dom().contains(names[k]));
        }
        lemma_nothing_kept(names, p, c.memory@);
    }
}

/// What the clients of a card name in all.
pub open spec fn named_on(entries: Seq<IntelEntry>, clients: Seq<FdClient>, gpu: usize) -> nat
    decreases entries.len(),
{
    if entries.len() == 0 {
        0
    } else {
        named_on(entries.drop_last(), clients.drop_last(), gpu) + (if entries.last().entry.gpu
            == gpu {
            all_bytes(clients.last())
        } else {
            0
        })
    }
}

proof fn lemma_named_on(entries: Seq<IntelEntry>, clients: Seq<FdClient>, gpu: usize)
    requires
        clients.len() == entries.len(),
        forall|k: int|
            0 <= k < entries.len() && (#[trigger] entries[k]).entry.gpu == gpu
                ==> entries[k].mem.system == all_bytes(clients[k]),
    ensures
        card_system(entries, gpu) == named_on(entries, clients, gpu),
    decreases entries.len(),
{
    if entries.len() > 0 {
        let rest = entries.drop_last();
        assert forall|k: int|
            0 <= k < rest.len() && (#[trigger] rest[k]).entry.gpu == gpu implies rest[k].mem.system
            == all_bytes(clients.drop_last()[k]) by {
            assert(rest[k] == entries[k]);
        }
        lemma_named_on(rest, clients.drop_last(), gpu);
        assert(entries[entries.len() - 1] == entries.last());
    }
}

/// The rows of a card that is not discrete, and whose clients name no region of
/// its own memory, hold together what those clients name: the system pool.
pub proof fn the_rows_of_an_igpu_hold_the_system_pool(
    rows: Seq<ProcShare>,
    entries: Seq<IntelEntry>,
    clients: Seq<FdClient>,
    gpu: usize,
)
    requires
        is_collected(rows, counted_entries(entries)),
        clients.len() == entries.len(),
        forall|k: int|
            0 <= k < entries.len() && (#[trigger] entries[k]).entry.gpu == gpu ==> clients[k].wf()
                && all_bytes(clients[k]) <= u64::MAX && names_no_local_region(clients[k])
                && is_entry_of(entries[k], clients[k], gpu, false),
    ensures
        rows_mem(rows, gpu) == card_system(entries, gpu),
        rows_mem(rows, gpu) == named_on(entries, clients, gpu),
{
    assert forall|k: int|
        0 <= k < entries.len() && (#[trigger] entries[k]).entry.gpu
            == gpu implies entries[k].entry.sample.mem_bytes == entries[k].mem.system
        && entries[k].mem.system == all_bytes(clients[k]) by {
        an_igpu_client_is_charged_for_all_it_names(entries[k], clients[k], gpu);
    }
    the_meters_agree_with_the_rows(rows, entries, gpu);
    lemma_named_on(entries, clients, gpu);
}

/// A client is a graphics client where it touched a render engine, in either of
/// the drivers' names for it, and only there.
pub proof fn render_engines_make_a_graphics_client(c: FdClient)
    ensures
        c.engine_ns@.dom().contains("render"@) ==> is_graphics(c),
        c.engine_ns@.dom().contains("rcs"@) ==> is_graphics(c),
        c.cycles@.dom().contains("rcs"@) ==> is_graphics(c),
        is_graphics(c) ==> c.engine_ns@.dom().contains("render"@) || c.engine_ns@.dom().contains(
            "rcs"@,
        ) || c.cycles@.dom().contains("rcs"@),
{
    let p = |k: Seq<char>| k == "render"@ || k == "rcs"@;
    let q = |k: Seq<char>| k == "rcs"@;
    if c.engine_ns@.dom().contains("render"@) {
        assert(p("render"@));
        assert(holds_key(c.engine_ns@, p));
    }
    if c.engine_ns@.dom().contains("rcs"@) {
        assert(p("rcs"@));
        assert(holds_key(c.engine_ns@, p));
    }
    if c.cycles@.dom().contains("rcs"@) {
        assert(q("rcs"@));
        assert(holds_key(c.cycles@, q));
    }
}

/// A client on i915 is measured by its busy times since its last sweep: as busy
/// as its engines together, and its media engines apart; seen for the first
/// time, it has done nothing.
pub proof fn busy_clients_are_measured_since_their_last_sweep(
    e: IntelEntry,
    was: u64,
    video: u64,
    then: u64,
    cycles: Option<Map<Seq<char>, (u64, u64)>>,
    first: IntelEntry,
    pid: u32,
    c: FdClient,
    gpu: usize,
    discrete: bool,
    at: u64,
)
    requires
        c.driver@ != "xe"@,
        c.all_busy_ns() <= u64::MAX,
        at > then,
        c.all_busy_ns() >= was,
        c.all_busy_ns() - was <= at - then,
        is_entry(e, Some((was, video, then)), cycles, pid, c, gpu, discrete, at),
        is_entry(first, None, cycles, pid, c, gpu, discrete, at),
    ensures
        e.entry.sample.util == (Ratio {
            num: (c.all_busy_ns() - was) as u64,
            den: (at - then) as u64,
        }),
        e.entry.sample.video.den == at - then,
        first.entry.sample.util.num == 0 && first.entry.sample.video.num == 0,
        e.entry.pid == pid && e.entry.gpu == gpu && e.entry.id == c.id,
{
}

/// The card's own memory is what its tiles have together; only where they have
/// none is it what the driver publishes.
pub proof fn tiles_add_up(tiles: Seq<u64>, more: u64, lmem: Option<u64>)
    ensures
        tile_sum(tiles.push(more)) == tile_sum(tiles) + more,
        more > 0 && tile_sum(tiles) + more <= u64::MAX ==> vram_total_of(tiles.push(more), lmem)
            == Some((tile_sum(tiles) + more) as u64),
        vram_total_of(Seq::empty(), lmem) == lmem,
{
    assert(tiles.push(more).drop_last() =~= tiles);
}

/// A card shows the numbers of its files, each in its own field: degrees in
/// thousandths, the cap in microwatts unless it is zero, the clock of the card
/// before that of its tile before that of the old interface.
pub proof fn a_card_reads_as_its_files_say(
    s: RawSnapshot,
    d: IntelDevice,
    r: IntelReads,
    power: PowerReading,
    mem: CardMemory,
    sys_mem_total: Option<u64>,
    n: nat,
    m: nat,
)
    requires
        is_intel_sample(s, d, r, power, mem, sys_mem_total),
        n <= u64::MAX,
        0 < m <= u64::MAX,
    ensures
        s.name == d.name,
        s.integrated <==> !d.discrete,
        d.pdev matches Some(p) ==> opt_text(s.device_id) == Some("pci:"@ + p@),
        holds_number(r.temp, n) ==> is_milli(s.temperature_c, n),
        r.temp is None ==> s.temperature_c is None,
        holds_number(r.power_max, m) ==> is_micro(s.power_limit_w, m),
        r.power_max is None || holds_number(r.power_max, 0) ==> s.power_limit_w is None,
        holds_number(r.freq_card, n) ==> s.clock_mhz == Some(n as u64),
        r.freq_card is None && holds_number(r.freq_tile, n) ==> s.clock_mhz == Some(n as u64),
        r.freq_card is None && r.freq_tile is None && holds_number(r.freq_rps, n) ==> s.clock_mhz
            == Some(n as u64),
        r.freq_card is None && r.freq_tile is None && r.freq_rps is None ==> s.clock_mhz is None,
        holds_number(r.link.current_width, n) && n <= u32::MAX ==> s.pcie_width == Some(n as u32),
        s.pcie_max_gen == d.pcie_max_gen && s.pcie_max_width == d.pcie_max_width,
{
    let none = Seq::<char>::empty();
    a_written_number_is_read(r.temp, none, n, none);
    a_written_number_is_read(r.power_max, none, m, none);
    a_written_number_is_read(r.power_max, none, 0, none);
    a_written_number_is_read(r.freq_card, none, n, none);
    a_written_number_is_read(r.freq_tile, none, n, none);
    a_written_number_is_read(r.freq_rps, none, n, none);
    if n <= u32::MAX {
        a_link_is_read_from_its_files(r.link.current_speed, None, r.link.current_width, n);
    }
}

/// What the clients of a card hold shows in the pool where they hold it: the
/// card's own memory where it has any, and the system's, out of the system's
/// total.
pub proof fn held_memory_shows_in_its_pool(
    s: RawSnapshot,
    d: IntelDevice,
    r: IntelReads,
    power: PowerReading,
    mem: CardMemory,
    sys_mem_total: Option<u64>,
    uw: u64,
    uj: u64,
    ns: u64,
)
    requires
        is_intel_sample(s, d, r, power, mem, sys_mem_total),
    ensures
        mem.attributed && d.vram_total is Some ==> s.vram_used_bytes == Some(mem.local),
        mem.attributed ==> s.gtt_used_bytes == Some(mem.system),
        !mem.attributed ==> s.vram_used_bytes is None && s.gtt_used_bytes is None,
        d.vram_total is None ==> s.vram_used_bytes is None && s.vram_total_bytes is None,
        s.vram_total_bytes == d.vram_total && s.gtt_total_bytes == sys_mem_total,
        power == PowerReading::Instant(uw) ==> is_micro(s.power_w, uw as nat),
        power == (PowerReading::Energy { uj, ns }) ==> s.power_w == Some(Figure::Energy { uj, ns }),
        power is Unknown ==> s.power_w is None,
{
}

/// What no file of a card tells stays unknown; how much memory there is comes
/// from the card and from the system, and the draw from the power step alone.
pub proof fn what_no_file_tells_is_unknown(
    s: RawSnapshot,
    d: IntelDevice,
    r: IntelReads,
    power: PowerReading,
    mem: CardMemory,
    sys_mem_total: Option<u64>,
    n: nat,
)
    requires
        is_intel_sample(s, d, r, power, mem, sys_mem_total),
        n > 0,
    ensures
        s.mem_util_pct is None && s.enc_util_pct is None && s.dec_util_pct is None,
        s.temp_slowdown_c is None && s.temp_junction_c is None && s.temp_mem_c is None,
        s.fan_pct is None && s.fan_rpm is None && s.mem_clock_mhz is None,
        s.pcie_rx_kbs is None && s.pcie_tx_kbs is None && s.volt_mv is None,
        s.throttle is None && s.perf_level is None,
        d.pdev is None ==> s.device_id is None,
        s.vram_total_bytes == d.vram_total,
        d.vram_total is None ==> s.vram_used_bytes is None,
        s.gtt_total_bytes == sys_mem_total,
        s.power_w == power_figure(power),
        r.link.current_speed is None ==> s.pcie_gen is None,
        r.link.current_width is None ==> s.pcie_width is None,
        r.link.current_speed matches Some(t) && words(t@).len() > 0 && words(t@)[0] == decimal(n)
            ==> s.pcie_gen == Some(gen_at(n)),
{
    a_link_is_read_from_its_files(r.link.current_speed, None, r.link.current_width, 0);
    if let Some(t) = r.link.current_speed {
        if words(t@).len() > 0 && words(t@)[0] == decimal(n) {
            a_links_generation_is_that_of_its_rate(r.link.current_speed, r.link.current_width, n);
        }
    }
}

/// A client's entry is filed under its process, its own number and the card it
/// was found on, and remembers how its memory is spread.
pub proof fn an_entry_is_filed_under_its_client(
    e: IntelEntry,
    busy: Option<(u64, u64, u64)>,
    cycles: Option<Map<Seq<char>, (u64, u64)>>,
    pid: u32,
    c: FdClient,
    gpu: usize,
    discrete: bool,
    at: u64,
)
    requires
        is_entry(e, busy, cycles, pid, c, gpu, discrete, at),
    ensures
        e.entry.pid == pid && e.entry.id == c.id && e.entry.gpu == gpu,
        e.mem == split_of(c, discrete),
        e.entry.sample.graphics == is_graphics(c),
        e.entry.sample.mem_bytes == e.mem.local || e.entry.sample.mem_bytes == e.mem.system,
        discrete ==> e.entry.sample.mem_bytes == e.mem.local,
{
}

/// What a client kept busy at the last walk is found under the client, and
/// under no other.
pub proof fn a_client_is_remembered_as_itself(
    busy: Map<(u32, u64), (u64, u64, u64)>,
    cycles: Map<(u32, u64), TextMap<(u64, u64)>>,
    k: (u32, u64),
    other: (u32, u64),
    b: (u64, u64, u64),
    c: TextMap<(u64, u64)>,
)
    requires
        k != other,
    ensures
        busy_at(busy.insert(k, b), k) == Some(b),
        busy_at(busy.insert(k, b), other) == busy_at(busy, other),
        busy_at(busy.remove(k), k) is None,
        busy_at(Map::empty(), k) is None,
        cycles_before(cycles.insert(k, c), k) == Some(c@),
        cycles_before(cycles.insert(k, c), other) == cycles_before(cycles, other),
        cycles_before(cycles.remove(k), k) is None,
        cycles_before(Map::empty(), k) is None,
{
}

/// What an energy reading gives: the rise since the last one and the time it
/// took, or the instantaneous figure where there is no counter.
pub open spec fn power_stepped(
    before: Option<(u64, u64)>,
    after: Option<(u64, u64)>,
    energy_uj: Option<u64>,
    power_uw: Option<u64>,
    now_ns: u64,
    r: PowerReading,
) -> bool {
    match energy_uj {
        Some(uj) => {
            &&& after == Some((uj, now_ns))
            &&& r == (match before {
                Some((was, at)) => if now_ns > at && uj >= was {
                    PowerReading::Energy { uj: (uj - was) as u64, ns: (now_ns - at) as u64 }
                } else {
                    PowerReading::Unknown
                },
                None => PowerReading::Unknown,
            })
        },
        None => {
            &&& after is None
            &&& r == (match power_uw {
                Some(uw) => PowerReading::Instant(uw),
                None => PowerReading::Unknown,
            })
        },
    }
}

/// Two readings of a counter that rises by `rise` over `ns` nanoseconds give
/// just that, whatever came before them; a first, stalled or backward one
/// measures nothing, and without a counter the instantaneous figure counts and
/// the counter starts anew.
pub proof fn draw_is_measured_between_two_readings(
    s0: Option<(u64, u64)>,
    s1: Option<(u64, u64)>,
    s2: Option<(u64, u64)>,
    e: u64,
    rise: u64,
    power: Option<u64>,
    t: u64,
    ns: u64,
    r1: PowerReading,
    r2: PowerReading,
)
    requires
        e + rise <= u64::MAX,
        t + ns <= u64::MAX,
        power_stepped(s0, s1, Some(e), power, t, r1),
        power_stepped(s1, s2, Some((e + rise) as u64), power, (t + ns) as u64, r2),
    ensures
        ns > 0 ==> r2 == (PowerReading::Energy { uj: rise, ns }),
        ns == 0 ==> r2 is Unknown,
        s0 is None ==> r1 is Unknown,
        s0 matches Some((was, at)) ==> (e < was || t <= at ==> r1 is Unknown),
{
}

/// Without a counter the instantaneous figure is the reading, and the next
/// counter starts anew.
pub proof fn without_a_counter_the_instant_counts(
    before: Option<(u64, u64)>,
    after: Option<(u64, u64)>,
    power: Option<u64>,
    now_ns: u64,
    r: PowerReading,
)
    requires
        power_stepped(before, after, None, power, now_ns, r),
    ensures
        after is None,
        power matches Some(uw) ==> r == PowerReading::Instant(uw) && is_micro(
            power_figure(r),
            uw as nat,
        ),
        power is None ==> r is Unknown && power_figure(r) is None,
{
}

/// The cards on which a client named a local memory region are discrete from
/// now on.
pub open spec fn cards_marked(
    before: Seq<IntelDevice>,
    after: Seq<IntelDevice>,
    entries: Seq<IntelEntry>,
) -> bool {
    &&& after.len() == before.len()
    &&& forall|g: int|
        0 <= g < before.len() ==> #[trigger] after[g] == (IntelDevice {
            discrete: before[g].discrete || local_seen(entries, g),
            ..before[g]
        })
}

/// A card is discrete once a client of it named a local region, and stays so;
/// a client of another card does not make it so, and nothing else of it
/// changes.
pub proof fn local_memory_makes_a_card_discrete(
    before: Seq<IntelDevice>,
    after: Seq<IntelDevice>,
    entries: Seq<IntelEntry>,
    g: int,
    k: int,
)
    requires
        cards_marked(before, after, entries),
        0 <= g < before.len(),
        0 <= k < entries.len(),
    ensures
        before[g].discrete ==> after[g].discrete,
        entries[k].entry.gpu == g && entries[k].mem.saw_local ==> after[g].discrete,
        !before[g].discrete && (forall|i: int|
            0 <= i < entries.len() && (#[trigger] entries[i]).entry.gpu == g
                ==> !entries[i].mem.saw_local) ==> !after[g].discrete,
        after[g].name == before[g].name && after[g].pdev == before[g].pdev,
        after[g].vram_total == before[g].vram_total && after[g].driver == before[g].driver,
        after.len() == before.len(),
{
    assert(after[g] == (IntelDevice {
        discrete: before[g].discrete || local_seen(entries, g),
        ..before[g]
    }));
}

/// The counters of a walk's clients are kept for the next one, each kind of
/// counter where its driver has it, and those of clients that are gone are not.
pub proof fn counters_of_a_walk_are_kept(
    counted: Seq<Assigned>,
    clients: Seq<(u32, FdClient)>,
    at: u64,
    busy: Map<(u32, u64), (u64, u64, u64)>,
    busy_after: Map<(u32, u64), (u64, u64, u64)>,
    cycles: Map<(u32, u64), TextMap<(u64, u64)>>,
    cycles_after: Map<(u32, u64), TextMap<(u64, u64)>>,
    k: int,
    gone: (u32, u64),
)
    requires
        busy_kept(counted, clients, at, busy, busy_after),
        cycles_kept(counted, clients, cycles, cycles_after),
        0 <= k < counted.len(),
        forall|i: int| 0 <= i < counted.len() ==> key_of(clients, #[trigger] counted[i]) != gone,
    ensures
        ({
            let key = key_of(clients, counted[k]);
            let c = clients[counted[k].client as int].1;
            &&& c.driver@ != "xe"@ ==> busy_at(busy_after, key) == Some(
                (c.all_busy_ns() as u64, c.busy_ns(|s: Seq<char>| video_name(s)) as u64, at),
            )
            &&& c.driver@ == "xe"@ ==> cycles_before(cycles_after, key) == Some(c.cycles@)
            &&& c.driver@ == "xe"@ && !busy.dom().contains(key) ==> (forall|j: int|
                0 <= j < counted.len() && j != k ==> key_of(clients, #[trigger] counted[j]) != key)
                ==> busy_at(busy_after, key) is None
            &&& busy_at(busy_after, gone) is None
            &&& cycles_before(cycles_after, gone) is None
        }),
{
    let key = key_of(clients, counted[k]);
    if !is_xe(clients, counted[k]) {
        assert(busy_after.dom().contains(key));
    } else {
        assert(cycles_after.dom().contains(key));
        assert(cycles_after[key]@ == clients[counted[k].client as int].1.cycles@);
        if !busy.dom().contains(key) && busy_after.dom().contains(key) {
            let j = choose|j: int|
                0 <= j < counted.len() && key_of(clients, #[trigger] counted[j]) == key && (!is_xe(
                    clients,
                    counted[j],
                ) || busy.dom().contains(key));
            assert(j != k);
        }
    }
    if busy_after.dom().contains(gone) {
        let j = choose|j: int|
            0 <= j < counted.len() && key_of(clients, #[trigger] counted[j]) == gone && (!is_xe(
                clients,
                counted[j],
            ) || busy.dom().contains(gone));
        assert(key_of(clients, counted[j]) != gone);
    }
    if cycles_after.dom().contains(gone) {
        let j = choose|j: int|
            0 <= j < counted.len() && key_of(clients, #[trigger] counted[j]) == gone && (is_xe(
                clients,
                counted[j],
            ) || cycles.dom().contains(gone));
        assert(key_of(clients, counted[j]) != gone);
    }
}

} // verus!
