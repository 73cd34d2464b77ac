//! AMD cards on Linux: which cards are theirs, what their DRM clients add up
//! to, and how their sysfs attributes read.
use vstd::prelude::*;
use crate::backend::linux::gts::gen_at;
use crate::backend::linux::fdinfo::FdClient;
use crate::backend::linux::scanner::ProcSnapshot;
use crate::backend::linux::sweep::{assign, assignments, busy_share, lemma_assignments, ns_delta_share, rise, Assigned, ClientKey, ClientSample, Entry, Ratio, SweepDevice};
use crate::backend::linux::sysfs::{a_link_is_read_from_its_files, a_written_number_is_read, read_u64, are_ids_of, by_index, cards_with_driver, claims, fan_duty, holds_number, ids_of, lemma_claims_in_range, link_of, number_in, pci_device_id, pcie_current_link, CardEntry, LinkTexts, ScannedCard, a_links_generation_is_that_of_its_rate};
use crate::backend::raw::{busy_on, is_busy_figure, is_micro, is_milli, millionths, on_card, read_micro, read_milli, read_pct, thousandths, whole_pct, Figure, RawSnapshot};
use crate::backend::{join_throttle, opt_text};
use crate::keyed::KeyedMap;
use crate::text::{a_blank_ends_a_word, a_piece_stays_whole, a_prefix_can_be_taken_off, a_separator_splits, a_text_is_found_where_it_stands, char_is_space, chars_of, contains_text, decimal, decimal_reads_back, has_prefix, is_blank, is_digit, is_space, numbers_are_read_from_digits, trimming_takes_off_both_ends, white_space_is_blank, join, lines, lines_of, parse_number, parse_uint, same_text, slice_of, split, split_chars, starts_with, str_texts, string_texts, texts, trim, trim_chars, trim_end, words, words_of};

verus! {

/// AMD's PCI vendor id, as sysfs writes it.
pub const AMD_VENDOR: &'static str = "0x1002";

/// AMD's two DRM drivers.
pub open spec fn amd_driver(name: Seq<char>) -> bool {
    name == "amdgpu"@ || name == "radeon"@
}

pub open spec fn enc_engine(name: Seq<char>) -> bool {
    has_prefix(name, "enc"@)
}

pub open spec fn dec_engine(name: Seq<char>) -> bool {
    has_prefix(name, "dec"@) || has_prefix(name, "jpeg"@)
}

/// The media engines in amdgpu's naming.
pub open spec fn video_engine(name: Seq<char>) -> bool {
    dec_engine(name) || enc_engine(name) || has_prefix(name, "vcn"@) || has_prefix(name, "vpe"@)
}

pub fn is_amd_driver(driver: &str) -> (b: bool)
    ensures
        b == amd_driver(driver@),
{
    same_text(driver, "amdgpu") || same_text(driver, "radeon")
}

/// VCN/media engines in amdgpu fdinfo naming.
pub fn is_video_engine(name: &str) -> (b: bool)
    ensures
        b == video_engine(name@),
{
    is_dec_engine(name) || is_enc_engine(name) || starts_with(name, "vcn") || starts_with(name, "vpe")
}

/// Encoder rings all report as "enc".
pub fn is_enc_engine(name: &str) -> (b: bool)
    ensures
        b == enc_engine(name@),
{
    starts_with(name, "enc")
}

/// Decoder rings report as "dec", the JPEG block as "jpeg".
pub fn is_dec_engine(name: &str) -> (b: bool)
    ensures
        b == dec_engine(name@),
{
    starts_with(name, "dec") || starts_with(name, "jpeg")
}

/// The entries that this backend claims.
pub open spec fn amd_claims(cards: Seq<CardEntry>) -> Seq<ScannedCard> {
    claims(cards, AMD_VENDOR@, |s: Seq<char>| amd_driver(s), cards.len())
}

/// The cards that this backend claims, by card number.
pub fn scan(cards: &Vec<CardEntry>) -> (out: Vec<ScannedCard>)
    ensures
        by_index(out@, amd_claims(cards@)),
        forall|k: int| 0 <= k < out@.len() ==> (#[trigger] out@[k]).at < cards@.len(),
{
    let accept = |s: &str| -> (b: bool)
        ensures
            b == amd_driver(s@),
        { is_amd_driver(s) };
    let out = cards_with_driver(cards, AMD_VENDOR, accept);
    proof {
        let p = |s: Seq<char>| amd_driver(s);
        let n: nat = cards@.len();
        assert(cards.len() == n);
        let found = claims(cards@, AMD_VENDOR@, p, n);
        lemma_claims_in_range(cards@, AMD_VENDOR@, p, n);
        assert(by_index(out@, found));
    }
    out
}

/// Identities of the cards that this backend claims.
pub fn claimed_ids(cards: &Vec<CardEntry>) -> (ids: Vec<String>)
    ensures
        are_ids_of(string_texts(ids@), cards@, amd_claims(cards@)),
{
    let found = scan(cards);
    ids_of(cards, &found)
}

// ---------------------------------------------------------------- clients

/// What the attribution needs to know about one card.
#[derive(Debug)]
pub struct AmdDevice {
    pub name: String,
    pub pdev: Option<String>,
    pub driver: String,
    /// APU rather than discrete card.
    pub integrated: bool,
    /// The most the slot and the card could do.
    pub pcie_max_gen: Option<u8>,
    pub pcie_max_width: Option<u32>,
}

/// Cumulative engine counters of one DRM client at the last sweep.
#[derive(Clone, Copy, PartialEq, Eq, Structural, Debug)]
pub struct EngineSample {
    pub total_ns: u64,
    pub video_ns: u64,
    pub enc_ns: u64,
    pub dec_ns: u64,
    pub at: u64,
}

/// One counted client, with the encoder and decoder shares where it reported
/// such an engine at all.
#[derive(Clone, Copy, PartialEq, Eq, Structural, Debug)]
pub struct AmdEntry {
    pub entry: Entry,
    pub enc: Option<Ratio>,
    pub dec: Option<Ratio>,
}

/// The AMD backend's state between polls.
pub struct AmdBackend {
    pub devices: Vec<AmdDevice>,
    /// Each client's counters at the last sweep.
    pub engine_state: KeyedMap<ClientKey, EngineSample>,
}

/// The bytes of a region, zero where the client names none.
pub open spec fn region_bytes(c: FdClient, region: Seq<char>) -> u64 {
    if c.memory@.dom().contains(region) {
        c.memory@[region]
    } else {
        0
    }
}

/// The memory to charge a client: its VRAM, and on an APU its GTT too.
pub open spec fn charged_bytes(c: FdClient, integrated: bool) -> u64 {
    let vram = region_bytes(c, "vram"@);
    let gtt = region_bytes(c, "gtt"@);
    if !integrated {
        vram
    } else if vram + gtt > u64::MAX {
        u64::MAX
    } else {
        (vram + gtt) as u64
    }
}

/// A client's counters as read at `at`.
pub open spec fn counters_of(c: FdClient, at: u64) -> EngineSample {
    EngineSample {
        total_ns: c.all_busy_ns() as u64,
        video_ns: c.busy_ns(|s: Seq<char>| video_engine(s)) as u64,
        enc_ns: c.busy_ns(|s: Seq<char>| enc_engine(s)) as u64,
        dec_ns: c.busy_ns(|s: Seq<char>| dec_engine(s)) as u64,
        at,
    }
}

/// What one client contributes, against its counters at the last sweep.
pub open spec fn entry_of(
    prev: Option<EngineSample>,
    pid: u32,
    c: FdClient,
    gpu: usize,
    integrated: bool,
    at: u64,
) -> AmdEntry {
    let now = counters_of(c, at);
    let share = |was: u64, is: u64, then: u64| busy_share(Some((was, then)), is, at);
    let none = Ratio { num: 0, den: 1 };
    AmdEntry {
        entry: Entry {
            pid,
            id: c.id,
            gpu,
            sample: ClientSample {
                util: match prev {
                    Some(p) => share(p.total_ns, now.total_ns, p.at),
                    None => none,
                },
                video: match prev {
                    Some(p) => share(p.video_ns, now.video_ns, p.at),
                    None => none,
                },
                mem_bytes: charged_bytes(c, integrated),
                graphics: c.engine_ns@.dom().contains("gfx"@) && c.engine_ns@["gfx"@] > 0,
            },
        },
        enc: if c.has_engine(|s: Seq<char>| enc_engine(s)) {
            Some(
                match prev {
                    Some(p) => share(p.enc_ns, now.enc_ns, p.at),
                    None => none,
                },
            )
        } else {
            None
        },
        dec: if c.has_engine(|s: Seq<char>| dec_engine(s)) {
            Some(
                match prev {
                    Some(p) => share(p.dec_ns, now.dec_ns, p.at),
                    None => none,
                },
            )
        } else {
            None
        },
    }
}

pub open spec fn state_at(m: Map<(u32, u64), EngineSample>, k: (u32, u64)) -> Option<EngineSample> {
    if m.dom().contains(k) {
        Some(m[k])
    } else {
        None
    }
}

/// Every client of the walk is well formed and its busy times add up.
pub open spec fn measurable(clients: Seq<(u32, FdClient)>) -> bool {
    forall|i: int|
        0 <= i < clients.len() ==> (#[trigger] clients[i]).1.wf() && clients[i].1.all_busy_ns()
            <= u64::MAX
}

pub open spec fn sweep_devices(devices: Seq<AmdDevice>) -> Seq<SweepDevice> {
    devices.map_values(|d: AmdDevice| SweepDevice { pdev: d.pdev, driver: d.driver })
}

/// Graphics memory to attribute to one client.
pub fn client_mem_bytes(c: &FdClient, integrated: bool) -> (n: u64)
    requires
        c.wf(),
    ensures
        n == charged_bytes(*c, integrated),
{
    let vram: u64 = bytes_in(c, "vram");
    if integrated {
        let gtt: u64 = bytes_in(c, "gtt");
        if vram > u64::MAX - gtt {
            u64::MAX
        } else {
            vram + gtt
        }
    } else {
        vram
    }
}

fn bytes_in(c: &FdClient, region: &str) -> (n: u64)
    requires
        c.wf(),
    ensures
        n == region_bytes(*c, region@),
{
    match c.memory.get(&region.to_owned()) {
        Some(v) => *v,
        None => 0,
    }
}

fn read_counters(c: &FdClient, at: u64) -> (s: EngineSample)
    requires
        c.wf(),
        c.all_busy_ns() <= u64::MAX,
    ensures
        s == counters_of(*c, at),
{
    let video = |s: &str| -> (b: bool)
        ensures
            b == video_engine(s@),
        { is_video_engine(s) };
    let enc = |s: &str| -> (b: bool)
        ensures
            b == enc_engine(s@),
        { is_enc_engine(s) };
    let dec = |s: &str| -> (b: bool)
        ensures
            b == dec_engine(s@),
        { is_dec_engine(s) };
    let total_ns: u64 = c.total_engine_ns();
    let video_ns: u64 = c.engine_ns_where(video);
    let enc_ns: u64 = c.engine_ns_where(enc);
    let dec_ns: u64 = c.engine_ns_where(dec);
    proof {
        assert(video_ns == c.busy_ns(|s: Seq<char>| video_engine(s)));
        assert(enc_ns == c.busy_ns(|s: Seq<char>| enc_engine(s)));
        assert(dec_ns == c.busy_ns(|s: Seq<char>| dec_engine(s)));
    }
    EngineSample { total_ns, video_ns, enc_ns, dec_ns, at }
}

fn read_entry(
    prev: Option<EngineSample>,
    pid: u32,
    c: &FdClient,
    gpu: usize,
    integrated: bool,
    now: EngineSample,
) -> (e: AmdEntry)
    requires
        c.wf(),
        c.all_busy_ns() <= u64::MAX,
        now == counters_of(*c, now.at),
    ensures
        e == entry_of(prev, pid, *c, gpu, integrated, now.at),
{
    let enc_class = |s: &str| -> (b: bool)
        ensures
            b == enc_engine(s@),
        { is_enc_engine(s) };
    let dec_class = |s: &str| -> (b: bool)
        ensures
            b == dec_engine(s@),
        { is_dec_engine(s) };
    let has_enc = c.any_engine(enc_class);
    let has_dec = c.any_engine(dec_class);
    proof {
        assert(has_enc == c.has_engine(|s: Seq<char>| enc_engine(s)));
        assert(has_dec == c.has_engine(|s: Seq<char>| dec_engine(s)));
    }
    let none = Ratio { num: 0, den: 1 };
    let (util, video, enc, dec) = match prev {
        Some(p) => (
            ns_delta_share(Some((p.total_ns, p.at)), now.total_ns, now.at),
            ns_delta_share(Some((p.video_ns, p.at)), now.video_ns, now.at),
            ns_delta_share(Some((p.enc_ns, p.at)), now.enc_ns, now.at),
            ns_delta_share(Some((p.dec_ns, p.at)), now.dec_ns, now.at),
        ),
        None => (none, none, none, none),
    };
    let graphics = match c.engine_ns.get(&"gfx".to_owned()) {
        Some(v) => *v > 0,
        None => false,
    };
    AmdEntry {
        entry: Entry {
            pid,
            id: c.id,
            gpu,
            sample: ClientSample {
                util,
                video,
                mem_bytes: client_mem_bytes(c, integrated),
                graphics,
            },
        },
        enc: if has_enc {
            Some(enc)
        } else {
            None
        },
        dec: if has_dec {
            Some(dec)
        } else {
            None
        },
    }
}

/// The entry that assignment `a` of the walk gives.
pub open spec fn assigned_entry(
    state: Map<(u32, u64), EngineSample>,
    devices: Seq<AmdDevice>,
    clients: Seq<(u32, FdClient)>,
    at: u64,
    a: Assigned,
) -> AmdEntry {
    let (pid, c) = clients[a.client as int];
    entry_of(
        state_at(state, (pid, c.id)),
        pid,
        c,
        a.gpu,
        devices[a.gpu as int].integrated,
        at,
    )
}

pub open spec fn key_of(clients: Seq<(u32, FdClient)>, a: Assigned) -> (u32, u64) {
    (clients[a.client as int].0, clients[a.client as int].1.id)
}

impl AmdBackend {
    /// Attributes one walk: every client that counts for one of this backend's
    /// cards contributes against its own counters at the last walk, and the
    /// counters kept are exactly those of the clients of this one.
    pub fn attribute(&mut self, snap: &ProcSnapshot) -> (out: Vec<AmdEntry>)
        requires
            old(self).engine_state.wf(),
            measurable(snap.clients@),
        ensures
            final(self).engine_state.wf(),
            final(self).devices == old(self).devices,
            is_attributed(
                out@,
                old(self).engine_state@,
                final(self).engine_state@,
                old(self).devices@,
                snap.clients@,
                snap.at,
            ),
    {
        let mut devices: Vec<SweepDevice> = Vec::new();
        let mut d: usize = 0;
        while d < self.devices.len()
            invariant
                d <= self.devices.len(),
                devices@ == sweep_devices(self.devices@).take(d as int),
            decreases self.devices.len() - d,
        {
            devices.push(
                SweepDevice {
                    pdev: match &self.devices[d].pdev {
                        Some(p) => Some(p.clone()),
                        None => None,
                    },
                    driver: self.devices[d].driver.clone(),
                },
            );
            assert(devices@ =~= sweep_devices(self.devices@).take(d + 1));
            d = d + 1;
        }
        assert(devices@ =~= sweep_devices(self.devices@));
        let counted = assign(&snap.clients, &devices);
        let ghost clients = snap.clients@;
        let ghost old_state = self.engine_state@;
        let mut next: KeyedMap<ClientKey, EngineSample> = KeyedMap::new();
        let mut out: Vec<AmdEntry> = Vec::new();
        let nclients: usize = snap.clients.len();
        let ndevices: usize = devices.len();
        proof {
            lemma_assignments(clients, devices@, clients.len());
        }
        let mut i: usize = 0;
        while i < counted.len()
            invariant
                i <= counted.len(),
                clients == snap.clients@,
                measurable(clients),
                self.engine_state.wf(),
                self.engine_state@ == old_state,
                self.devices@.len() == devices@.len(),
                counted@ == assignments(clients, devices@, clients.len()),
                forall|x: int|
                    0 <= x < counted@.len() ==> (#[trigger] counted@[x]).client < clients.len()
                        && counted@[x].gpu < devices@.len(),
                forall|x: int, y: int|
                    0 <= x < y < counted@.len() ==> key_of(clients, #[trigger] counted@[x]) != key_of(
                        clients,
                        #[trigger] counted@[y],
                    ),
                next.wf(),
                out@.len() == i,
                forall|k: int|
                    0 <= k < i ==> #[trigger] out@[k] == assigned_entry(
                        old_state,
                        self.devices@,
                        clients,
                        snap.at,
                        counted@[k],
                    ),
                forall|key: (u32, u64)|
                    #[trigger] next@.dom().contains(key) <==> exists|k: int|
                        0 <= k < i && key_of(clients, #[trigger] counted@[k]) == key,
                forall|k: int|
                    0 <= k < i ==> next@[key_of(clients, #[trigger] counted@[k])] == counters_of(
                        clients[counted@[k].client as int].1,
                        snap.at,
                    ),
            decreases counted.len() - i,
        {
            let a = counted[i];
            assert(counted@[i as int].client < clients.len());
            assert(clients[a.client as int].1.wf());
            let pid: u32 = snap.clients[a.client].0;
            let client = &snap.clients[a.client].1;
            let key = ClientKey { pid, id: client.id };
            let prev = match self.engine_state.get(&key) {
                Some(p) => Some(*p),
                None => None,
            };
            let now = read_counters(client, snap.at);
            let e = read_entry(prev, pid, client, a.gpu, self.devices[a.gpu].integrated, now);
            let ghost was = next@;
            next.insert(key, now);
            out.push(e);
            proof {
                let k = key_of(clients, counted@[i as int]);
                assert(key@ == k);
                assert forall|x: (u32, u64)| #[trigger] next@.dom().contains(x) <==> exists|j: int|
                    0 <= j < i + 1 && key_of(clients, #[trigger] counted@[j]) == x by {
                    if was.dom().contains(x) {
                        let j = choose|j: int| 0 <= j < i && key_of(clients, #[trigger] counted@[j]) == x;
                        assert(key_of(clients, counted@[j]) == x);
                    }
                    if x == k {
                        assert(key_of(clients, counted@[i as int]) == x);
                    }
                }
                assert forall|j: int| 0 <= j < i + 1 implies next@[key_of(clients, #[trigger] counted@[j])] == counters_of(
                    clients[counted@[j].client as int].1,
                    snap.at,
                ) by {
                    if j < i {
                        assert(key_of(clients, counted@[j]) != k);
                        assert(was.dom().contains(key_of(clients, counted@[j])));
                    }
                }
            }
            i = i + 1;
        }
        self.engine_state = next;
        proof {
            let counted_spec = assignments(clients, sweep_devices(self.devices@), clients.len());
            assert(counted@ == counted_spec);
            assert(out@ =~= Seq::new(
                counted_spec.len(),
                |k: int| assigned_entry(old_state, self.devices@, clients, snap.at, counted_spec[k]),
            ));
        }
        out
    }
}

// ---------------------------------------------------------------- sysfs

/// The clock of a power-gated domain reads zero and gives way to the active
/// level of the DPM table.
pub fn clock_mhz(hz: Option<u64>, dpm: &Option<String>) -> (r: Option<u64>)
    ensures
        r == (match hz {
            Some(v) => if v > 0 {
                Some((v / 1_000_000) as u64)
            } else {
                active_mhz(opt_text(*dpm))
            },
            None => active_mhz(opt_text(*dpm)),
        }),
{
    match hz {
        Some(v) => if v > 0 {
            Some(v / 1_000_000)
        } else {
            dpm_active_mhz(dpm)
        },
        None => dpm_active_mhz(dpm),
    }
}

/// The first line that a star ends, trailing white space aside.
pub open spec fn active_line(rows: Seq<Seq<char>>) -> Option<Seq<char>>
    decreases rows.len(),
{
    if rows.len() == 0 {
        None
    } else {
        let t = trim_end(rows[0]);
        if t.len() > 0 && t.last() == '*' {
            Some(rows[0])
        } else {
            active_line(rows.skip(1))
        }
    }
}

/// The leading decimal digits of `s`.
pub open spec fn leading_digits(s: Seq<char>) -> Seq<char>
    decreases s.len(),
{
    if s.len() == 0 || !is_digit(s[0]) {
        Seq::empty()
    } else {
        seq![s[0]] + leading_digits(s.skip(1))
    }
}

/// The clock of the active level of a DPM table.
pub open spec fn active_mhz(table: Option<Seq<char>>) -> Option<u64> {
    match table {
        None => None,
        Some(t) => match active_line(lines(trim(t))) {
            None => None,
            Some(line) => {
                let fields = split(line, ':');
                if fields.len() < 2 {
                    None
                } else {
                    match parse_uint(leading_digits(trim(fields[1])), u64::MAX as nat) {
                        Some(n) => Some(n as u64),
                        None => None,
                    }
                }
            },
        },
    }
}

fn ends_with_star(line: &Vec<char>) -> (b: bool)
    ensures
        b == (trim_end(line@).len() > 0 && trim_end(line@).last() == '*'),
{
    let mut n: usize = line.len();
    assert(line@.take(n as int) =~= line@);
    while n > 0 && char_is_space(line[n - 1])
        invariant
            n <= line.len(),
            trim_end(line@) == trim_end(line@.take(n as int)),
        decreases n,
    {
        assert(line@.take(n as int).drop_last() =~= line@.take(n - 1));
        n = n - 1;
    }
    n > 0 && line[n - 1] == '*'
}

proof fn lemma_leading_digits(s: Seq<char>, i: int)
    requires
        0 <= i <= s.len(),
        i < s.len() ==> !is_digit(s[i]),
        forall|j: int| 0 <= j < i ==> is_digit(s[j]),
    ensures
        leading_digits(s) == s.take(i),
    decreases s.len(),
{
    if s.len() > 0 && is_digit(s[0]) {
        assert(i > 0);
        lemma_leading_digits(s.skip(1), i - 1);
        assert(s.take(i) =~= seq![s[0]] + s.skip(1).take(i - 1));
    } else {
        assert(s.take(i) =~= Seq::<char>::empty());
    }
}

/// The clock of the starred level of a DPM table: "1: 3000Mhz *" to 3000.
pub fn dpm_active_mhz(table: &Option<String>) -> (r: Option<u64>)
    ensures
        r == active_mhz(opt_text(*table)),
{
    let text = match table {
        Some(t) => trim_chars(&chars_of(t)),
        None => {
            return None;
        },
    };
    let rows = lines_of(&text);
    let ghost all = texts(rows@);
    let mut i: usize = 0;
    assert(all.skip(0) =~= all);
    while i < rows.len()
        invariant
            i <= rows.len(),
            all == texts(rows@),
            all == lines(text@),
            opt_text(*table) is Some,
            text@ == trim(opt_text(*table)->0),
            active_line(all) == active_line(all.skip(i as int)),
        decreases rows.len() - i,
    {
        assert(all.skip(i as int)[0] == rows@[i as int]@);
        assert(all.skip(i as int).skip(1) =~= all.skip(i + 1));
        if ends_with_star(&rows[i]) {
            let fields = split_chars(&rows[i], ':');
            if fields.len() < 2 {
                return None;
            }
            assert(texts(fields@)[1] == fields@[1]@);
            let value = trim_chars(&fields[1]);
            let mut n: usize = 0;
            while n < value.len() && value[n] >= '0' && value[n] <= '9'
                invariant
                    n <= value.len(),
                    forall|j: int| 0 <= j < n ==> is_digit(value@[j]),
                decreases value.len() - n,
            {
                n = n + 1;
            }
            proof {
                lemma_leading_digits(value@, n as int);
            }
            let digits = slice_of(&value, 0, n);
            assert(digits@ =~= leading_digits(value@));
            return parse_number(&digits, u64::MAX);
        }
        i = i + 1;
    }
    None
}

/// The three counts of a `pcie_bw` line: packets received, packets sent, and
/// the largest packet size.
pub open spec fn bw_of(text: Seq<char>) -> Option<(u64, u64, u64)> {
    let w = words(text);
    if w.len() < 3 {
        None
    } else {
        match (
            parse_uint(w[0], u64::MAX as nat),
            parse_uint(w[1], u64::MAX as nat),
            parse_uint(w[2], u64::MAX as nat),
        ) {
            (Some(rx), Some(tx), Some(mps)) => Some((rx as u64, tx as u64, mps as u64)),
            _ => None,
        }
    }
}

pub fn parse_pcie_bw(s: &str) -> (r: Option<(u64, u64, u64)>)
    ensures
        r == bw_of(s@),
{
    let w = words_of(&chars_of(s));
    if w.len() < 3 {
        return None;
    }
    assert(texts(w@)[0] == w@[0]@ && texts(w@)[1] == w@[1]@ && texts(w@)[2] == w@[2]@);
    match (
        parse_number(&w[0], u64::MAX),
        parse_number(&w[1], u64::MAX),
        parse_number(&w[2], u64::MAX),
    ) {
        (Some(rx), Some(tx), Some(mps)) => Some((rx, tx, mps)),
        _ => None,
    }
}

/// What two `pcie_bw` samples measured: packet counts, packet size, and the
/// nanoseconds between them.
#[derive(Clone, Copy, PartialEq, Eq, Structural, Debug)]
pub struct BwDelta {
    pub rx: u64,
    pub tx: u64,
    pub mps: u64,
    pub elapsed_ns: u64,
}

/// `after` and `r` are what a `pcie_bw` text makes of the sample `before`.
pub open spec fn bw_stepped(
    before: Option<(u64, u64, u64)>,
    text: Option<Seq<char>>,
    now_ns: u64,
    after: Option<(u64, u64, u64)>,
    r: Option<BwDelta>,
) -> bool {
    match text {
        None => r is None && after == before,
        Some(t) => match bw_of(t) {
            None => r is None && after == before,
            Some((rx, tx, mps)) => {
                &&& after == Some((rx, tx, now_ns))
                &&& r == (match before {
                    Some((prx, ptx, at)) => if now_ns > at {
                        Some(
                            (BwDelta {
                                rx: rise(rx, prx),
                                tx: rise(tx, ptx),
                                mps,
                                elapsed_ns: (now_ns - at) as u64,
                            }),
                        )
                    } else {
                        None
                    },
                    None => None,
                })
            },
        },
    }
}

/// Takes a `pcie_bw` text against the previous sample, which it replaces. An
/// absent or unreadable text leaves the sample as it is; a counter that was
/// reset counts as no packets; no interval, no measurement.
pub fn pcie_bw_step(prev: &mut Option<(u64, u64, u64)>, text: &Option<String>, now_ns: u64) -> (r:
    Option<BwDelta>)
    ensures
        bw_stepped(*old(prev), opt_text(*text), now_ns, *final(prev), r),
{
    let parsed = match text {
        Some(t) => parse_pcie_bw(t),
        None => None,
    };
    match parsed {
        None => None,
        Some((rx, tx, mps)) => {
            let r = match *prev {
                Some((prx, ptx, at)) => if now_ns > at {
                    Some(
                        BwDelta {
                            rx: if rx > prx {
                                rx - prx
                            } else {
                                0
                            },
                            tx: if tx > ptx {
                                tx - ptx
                            } else {
                                0
                            },
                            mps,
                            elapsed_ns: now_ns - at,
                        },
                    )
                } else {
                    None
                },
                None => None,
            };
            *prev = Some((rx, tx, now_ns));
            r
        },
    }
}

/// Whether the metrics blob is an APU's: its third byte is the format revision,
/// 1 for discrete cards. Without a blob the card counts as discrete.
pub fn is_apu(metrics: &Option<Vec<u8>>) -> (b: bool)
    ensures
        b == (*metrics matches Some(m) && apu_metrics(m@)),
{
    match metrics {
        Some(m) => m.len() > 2 && m[2] >= 2,
        None => false,
    }
}

/// Microwatts drawn: the average where the card has one, else the instant.
pub fn power_uw(average: Option<u64>, input: Option<u64>) -> (r: Option<u64>)
    ensures
        r == (if average is Some {
            average
        } else {
            input
        }),
{
    match average {
        Some(v) => Some(v),
        None => input,
    }
}

/// The power cap in microwatts, a zero counting as none.
pub fn power_limit_uw(cap: Option<u64>, default_cap: Option<u64>) -> (r: Option<u64>)
    ensures
        r == (match (cap, default_cap) {
            (Some(v), _) if v > 0 => Some(v),
            (_, Some(v)) if v > 0 => Some(v),
            _ => None,
        }),
{
    match (cap, default_cap) {
        (Some(v), _) if v > 0 => Some(v),
        (_, Some(v)) if v > 0 => Some(v),
        _ => None,
    }
}

/// The hwmon channels labelled junction and mem among channels 2 to 4; the
/// last so labelled wins.
pub fn temp_channels(labels: &Vec<Option<String>>) -> (r: (Option<u8>, Option<u8>))
    requires
        labels@.len() == 3,
    ensures
        r.0 == channel_of(labels@, "junction"@),
        r.1 == channel_of(labels@, "mem"@),
{
    (channel(labels, "junction"), channel(labels, "mem"))
}

/// The last of channels 2 to 4 with this label.
pub open spec fn channel_of(labels: Seq<Option<String>>, label: Seq<char>) -> Option<u8> {
    if opt_text(labels[2]) == Some(label) {
        Some(4)
    } else if opt_text(labels[1]) == Some(label) {
        Some(3)
    } else if opt_text(labels[0]) == Some(label) {
        Some(2)
    } else {
        None
    }
}

fn channel(labels: &Vec<Option<String>>, label: &str) -> (r: Option<u8>)
    requires
        labels@.len() == 3,
    ensures
        r == channel_of(labels@, label@),
{
    if is_label(&labels[2], label) {
        Some(4)
    } else if is_label(&labels[1], label) {
        Some(3)
    } else if is_label(&labels[0], label) {
        Some(2)
    } else {
        None
    }
}

fn is_label(text: &Option<String>, label: &str) -> (b: bool)
    ensures
        b == (opt_text(*text) == Some(label@)),
{
    match text {
        Some(t) => same_text(t, label),
        None => false,
    }
}

/// The throttle label: near the critical temperature, at the power cap, both
/// or neither.
pub fn throttle_label(thermal: bool, power: bool) -> (r: Option<String>)
    ensures
        opt_text(r) == (if thermal && power {
            Some("thermal"@ + "+"@ + "power-limit"@)
        } else if thermal {
            Some("thermal"@)
        } else if power {
            Some("power-limit"@)
        } else {
            None
        }),
{
    let mut parts: Vec<&str> = Vec::new();
    if thermal {
        parts.push("thermal");
    }
    if power {
        parts.push("power-limit");
    }
    let r = join_throttle(parts.as_slice());
    proof {
        let t = str_texts(parts@);
        reveal_with_fuel(join, 3);
        if thermal && power {
            assert(t.drop_last() =~= seq!["thermal"@]);
        }
    }
    r
}

/// The attribute files of one card, as read; an absent file reads as nothing.
#[derive(Debug)]
pub struct AmdReads {
    pub gpu_busy_percent: Option<String>,
    pub mem_busy_percent: Option<String>,
    pub mem_info_vram_used: Option<String>,
    pub mem_info_vram_total: Option<String>,
    pub mem_info_gtt_used: Option<String>,
    pub mem_info_gtt_total: Option<String>,
    pub pp_dpm_sclk: Option<String>,
    pub pp_dpm_mclk: Option<String>,
    /// Trimmed.
    pub performance_level: Option<String>,
    pub temp_edge: Option<String>,
    /// Of the channels labelled junction and mem, where there are any.
    pub temp_junction: Option<String>,
    pub temp_mem: Option<String>,
    pub power_average: Option<String>,
    pub power_input: Option<String>,
    pub power_cap: Option<String>,
    pub power_cap_default: Option<String>,
    pub pwm: Option<String>,
    pub pwm_max: Option<String>,
    pub fan_input: Option<String>,
    pub freq_core: Option<String>,
    pub freq_mem: Option<String>,
    pub voltage: Option<String>,
    pub link: LinkTexts,
}

/// The clock that a hwmon file and a DPM table give.
pub open spec fn clock_of(hz: Option<u64>, dpm: Option<Seq<char>>) -> Option<u64> {
    match hz {
        Some(v) => if v > 0 {
            Some((v / 1_000_000) as u64)
        } else {
            active_mhz(dpm)
        },
        None => active_mhz(dpm),
    }
}

/// What drew the power, and the first cap that is not zero.
pub open spec fn drawn_uw(r: AmdReads) -> Option<u64> {
    if number_in(r.power_average) is Some {
        number_in(r.power_average)
    } else {
        number_in(r.power_input)
    }
}

pub open spec fn cap_uw(r: AmdReads) -> Option<u64> {
    match (number_in(r.power_cap), number_in(r.power_cap_default)) {
        (Some(v), _) if v > 0 => Some(v),
        (_, Some(v)) if v > 0 => Some(v),
        _ => None,
    }
}

/// `s` is what the card's files say, field by field.
pub open spec fn is_amd_sample(
    s: RawSnapshot,
    d: AmdDevice,
    r: AmdReads,
    hot: bool,
    capped: bool,
) -> bool {
    &&& s.name == d.name
    &&& opt_text(s.device_id) == (match d.pdev {
        Some(p) => Some("pci:"@ + p@),
        None => None,
    })
    &&& s.integrated == d.integrated
    &&& s.utilization_pct == whole_pct(number_in(r.gpu_busy_percent))
    &&& s.mem_util_pct == whole_pct(number_in(r.mem_busy_percent))
    &&& opt_text(s.throttle) == (if hot && capped {
        Some("thermal"@ + "+"@ + "power-limit"@)
    } else if hot {
        Some("thermal"@)
    } else if capped {
        Some("power-limit"@)
    } else {
        None
    })
    &&& s.vram_used_bytes == number_in(r.mem_info_vram_used)
    &&& s.vram_total_bytes == number_in(r.mem_info_vram_total)
    &&& s.temperature_c == thousandths(number_in(r.temp_edge))
    &&& s.temp_slowdown_c is None
    &&& s.temp_junction_c == thousandths(number_in(r.temp_junction))
    &&& s.temp_mem_c == thousandths(number_in(r.temp_mem))
    &&& s.power_w == millionths(drawn_uw(r))
    &&& s.power_limit_w == millionths(cap_uw(r))
    &&& s.fan_pct == (match number_in(r.pwm) {
        Some(v) => Some(
            Figure::Part {
                num: v,
                den: match number_in(r.pwm_max) {
                    Some(m) => if m > 0 {
                        m
                    } else {
                        255
                    },
                    None => 255,
                },
            },
        ),
        None => None,
    })
    &&& s.fan_rpm == number_in(r.fan_input)
    &&& s.clock_mhz == clock_of(number_in(r.freq_core), opt_text(r.pp_dpm_sclk))
    &&& s.mem_clock_mhz == clock_of(number_in(r.freq_mem), opt_text(r.pp_dpm_mclk))
    &&& s.pcie_gen == link_of(r.link.current_speed, r.link.current_width).0
    &&& s.pcie_width == link_of(r.link.current_speed, r.link.current_width).1
    &&& s.pcie_max_gen == d.pcie_max_gen
    &&& s.pcie_max_width == d.pcie_max_width
    &&& s.gtt_used_bytes == number_in(r.mem_info_gtt_used)
    &&& s.gtt_total_bytes == number_in(r.mem_info_gtt_total)
    &&& s.volt_mv == number_in(r.voltage)
    &&& opt_text(s.perf_level) == (match opt_text(r.performance_level) {
        Some(t) => if t == "auto"@ {
            None
        } else {
            Some(t)
        },
        None => None,
    })
}

/// What the clients' counters say about a card's media engines.
pub struct MediaFigures {
    pub video: Option<Figure>,
    pub enc: Option<Figure>,
    pub dec: Option<Figure>,
}

pub open spec fn video_marks(entries: Seq<AmdEntry>) -> Seq<(usize, Option<Ratio>)> {
    entries.map_values(|e: AmdEntry| (e.entry.gpu, Some(e.entry.sample.video)))
}

pub open spec fn enc_marks(entries: Seq<AmdEntry>) -> Seq<(usize, Option<Ratio>)> {
    entries.map_values(|e: AmdEntry| (e.entry.gpu, e.enc))
}

pub open spec fn dec_marks(entries: Seq<AmdEntry>) -> Seq<(usize, Option<Ratio>)> {
    entries.map_values(|e: AmdEntry| (e.entry.gpu, e.dec))
}

/// The media figures of card `gpu`: known where a client reported such an
/// engine, and unknown, not zero, where none did.
pub fn media_on(entries: &Vec<AmdEntry>, gpu: usize) -> (m: MediaFigures)
    ensures
        is_busy_figure(m.video, on_card(video_marks(entries@), gpu)),
        is_busy_figure(m.enc, on_card(enc_marks(entries@), gpu)),
        is_busy_figure(m.dec, on_card(dec_marks(entries@), gpu)),
{
    let mut video: Vec<(usize, Option<Ratio>)> = Vec::new();
    let mut enc: Vec<(usize, Option<Ratio>)> = Vec::new();
    let mut dec: Vec<(usize, Option<Ratio>)> = Vec::new();
    let mut i: usize = 0;
    while i < entries.len()
        invariant
            i <= entries.len(),
            video@ == video_marks(entries@.take(i as int)),
            enc@ == enc_marks(entries@.take(i as int)),
            dec@ == dec_marks(entries@.take(i as int)),
        decreases entries.len() - i,
    {
        let e = entries[i];
        video.push((e.entry.gpu, Some(e.entry.sample.video)));
        enc.push((e.entry.gpu, e.enc));
        dec.push((e.entry.gpu, e.dec));
        proof {
            let next = entries@.take(i + 1);
            assert(video@ =~= video_marks(next));
            assert(enc@ =~= enc_marks(next));
            assert(dec@ =~= dec_marks(next));
        }
        i = i + 1;
    }
    assert(entries@.take(i as int) =~= entries@);
    MediaFigures { video: busy_on(&video, gpu), enc: busy_on(&enc, gpu), dec: busy_on(&dec, gpu) }
}

/// One reading of a card: its files, its clients' media engines, its PCIe
/// traffic in KiB/s, and whether it is near its critical temperature and at
/// its power cap.
pub fn sample(
    d: &AmdDevice,
    r: &AmdReads,
    media: MediaFigures,
    pcie_bw: Option<(u64, u64)>,
    hot: bool,
    capped: bool,
) -> (s: RawSnapshot)
    ensures
        is_amd_sample(s, *d, *r, hot, capped),
        shows_traffic(s, media, pcie_bw),
{
    let (pcie_gen, pcie_width) = pcie_current_link(&r.link);
    let fan = fan_duty(read_u64(&r.pwm), read_u64(&r.pwm_max));
    let level = match &r.performance_level {
        Some(t) => Some(t.clone()),
        None => None,
    };
    let (rx, tx) = match pcie_bw {
        Some((rx, tx)) => (Some(rx), Some(tx)),
        None => (None, None),
    };
    RawSnapshot {
        name: d.name.clone(),
        device_id: pci_device_id(&d.pdev),
        integrated: d.integrated,
        utilization_pct: read_pct(read_u64(&r.gpu_busy_percent)),
        mem_util_pct: read_pct(read_u64(&r.mem_busy_percent)),
        video_util_pct: media.video,
        enc_util_pct: media.enc,
        dec_util_pct: media.dec,
        throttle: throttle_label(hot, capped),
        vram_used_bytes: read_u64(&r.mem_info_vram_used),
        vram_total_bytes: read_u64(&r.mem_info_vram_total),
        temperature_c: read_milli(read_u64(&r.temp_edge)),
        temp_slowdown_c: None,
        temp_junction_c: read_milli(read_u64(&r.temp_junction)),
        temp_mem_c: read_milli(read_u64(&r.temp_mem)),
        power_w: read_micro(power_uw(read_u64(&r.power_average), read_u64(&r.power_input))),
        power_limit_w: read_micro(
            power_limit_uw(read_u64(&r.power_cap), read_u64(&r.power_cap_default)),
        ),
        fan_pct: match fan {
            Some((num, den)) => Some(Figure::Part { num, den }),
            None => None,
        },
        fan_rpm: read_u64(&r.fan_input),
        clock_mhz: clock_mhz(read_u64(&r.freq_core), &r.pp_dpm_sclk),
        mem_clock_mhz: clock_mhz(read_u64(&r.freq_mem), &r.pp_dpm_mclk),
        pcie_gen,
        pcie_width,
        pcie_max_gen: d.pcie_max_gen,
        pcie_max_width: d.pcie_max_width,
        pcie_rx_kbs: rx,
        pcie_tx_kbs: tx,
        gtt_used_bytes: read_u64(&r.mem_info_gtt_used),
        gtt_total_bytes: read_u64(&r.mem_info_gtt_total),
        volt_mv: read_u64(&r.voltage),
        perf_level: perf_level(level),
    }
}

/// The performance level, where it was forced off "auto".
pub fn perf_level(text: Option<String>) -> (r: Option<String>)
    ensures
        r == (match text {
            Some(t) => if t@ == "auto"@ {
                None
            } else {
                Some(t)
            },
            None => None,
        }),
{
    match text {
        Some(t) => if same_text(&t, "auto") {
            None
        } else {
            Some(t)
        },
        None => None,
    }
}

// ---------------------------------------------------------------- laws

/// Neither half of a client's media engines is busier than the two together,
/// as long as the other media engines' counters did not fall.
pub proof fn the_media_split_stays_within_the_video_total(
    was: EngineSample,
    pid: u32,
    c: FdClient,
    gpu: usize,
    integrated: bool,
    at: u64,
)
    ensures
        ({
            let now = counters_of(c, at);
            let e = entry_of(Some(was), pid, c, gpu, integrated, at);
            let video = e.entry.sample.video;
            &&& now.video_ns - now.enc_ns >= was.video_ns - was.enc_ns ==> (e.enc matches Some(r)
                ==> r.num <= video.num && r.den == video.den)
            &&& now.video_ns - now.dec_ns >= was.video_ns - was.dec_ns ==> (e.dec matches Some(r)
                ==> r.num <= video.num && r.den == video.den)
        }),
{
}

/// The number that stands in a card's file is what its reading shows, each file
/// in its own field: percentages up to one hundred, memory in bytes, degrees in
/// thousandths.
pub proof fn a_card_reads_as_its_files_say(
    s: RawSnapshot,
    d: AmdDevice,
    r: AmdReads,
    hot: bool,
    capped: bool,
    n: nat,
)
    requires
        is_amd_sample(s, d, r, hot, capped),
        n <= u64::MAX,
    ensures
        holds_number(r.gpu_busy_percent, n) && n <= 100 ==> s.utilization_pct == Some(
            Figure::Whole(n as u64),
        ),
        holds_number(r.mem_busy_percent, n) && n <= 100 ==> s.mem_util_pct == Some(
            Figure::Whole(n as u64),
        ),
        holds_number(r.mem_info_vram_used, n) ==> s.vram_used_bytes == Some(n as u64),
        holds_number(r.mem_info_vram_total, n) ==> s.vram_total_bytes == Some(n as u64),
        holds_number(r.mem_info_gtt_used, n) ==> s.gtt_used_bytes == Some(n as u64),
        holds_number(r.mem_info_gtt_total, n) ==> s.gtt_total_bytes == Some(n as u64),
        holds_number(r.temp_edge, n) ==> is_milli(s.temperature_c, n),
        holds_number(r.temp_junction, n) ==> is_milli(s.temp_junction_c, n),
        holds_number(r.temp_mem, n) ==> is_milli(s.temp_mem_c, n),
        holds_number(r.fan_input, n) ==> s.fan_rpm == Some(n as u64),
        holds_number(r.voltage, n) ==> s.volt_mv == Some(n as u64),
        holds_number(r.link.current_width, n) && n <= u32::MAX ==> s.pcie_width == Some(n as u32),
        s.name == d.name && s.integrated == d.integrated,
        s.pcie_max_gen == d.pcie_max_gen && s.pcie_max_width == d.pcie_max_width,
        d.pdev matches Some(p) ==> opt_text(s.device_id) == Some("pci:"@ + p@),
{
    let none = Seq::<char>::empty();
    a_written_number_is_read(r.gpu_busy_percent, none, n, none);
    a_written_number_is_read(r.mem_busy_percent, none, n, none);
    a_written_number_is_read(r.mem_info_vram_used, none, n, none);
    a_written_number_is_read(r.mem_info_vram_total, none, n, none);
    a_written_number_is_read(r.mem_info_gtt_used, none, n, none);
    a_written_number_is_read(r.mem_info_gtt_total, none, n, none);
    a_written_number_is_read(r.temp_edge, none, n, none);
    a_written_number_is_read(r.temp_junction, none, n, none);
    a_written_number_is_read(r.temp_mem, none, n, none);
    a_written_number_is_read(r.fan_input, none, n, none);
    a_written_number_is_read(r.voltage, none, n, none);
    if n <= u32::MAX {
        a_link_is_read_from_its_files(r.link.current_speed, None, r.link.current_width, n);
    }
}

/// The average draw counts before the instant one, the cap before the default
/// cap unless it is zero, both in microwatts; the fan's duty is out of the
/// card's own scale, 255 where it has none; a clock is in hertz there and in
/// megahertz here.
pub proof fn power_fan_and_clock_read_as_their_files_say(
    s: RawSnapshot,
    d: AmdDevice,
    r: AmdReads,
    hot: bool,
    capped: bool,
    n: nat,
    m: nat,
)
    requires
        is_amd_sample(s, d, r, hot, capped),
        n <= u64::MAX,
        0 < m <= u64::MAX,
    ensures
        holds_number(r.power_average, n) ==> is_micro(s.power_w, n),
        r.power_average is None && holds_number(r.power_input, n) ==> is_micro(s.power_w, n),
        holds_number(r.power_cap, m) ==> is_micro(s.power_limit_w, m),
        (r.power_cap is None || holds_number(r.power_cap, 0)) && holds_number(
            r.power_cap_default,
            m,
        ) ==> is_micro(s.power_limit_w, m),
        (r.power_cap is None || holds_number(r.power_cap, 0)) && (r.power_cap_default is None
            || holds_number(r.power_cap_default, 0)) ==> s.power_limit_w is None,
        holds_number(r.pwm, n) && holds_number(r.pwm_max, m) ==> s.fan_pct == Some(
            Figure::Part { num: n as u64, den: m as u64 },
        ),
        holds_number(r.pwm, n) && (r.pwm_max is None || holds_number(r.pwm_max, 0)) ==> s.fan_pct
            == Some(Figure::Part { num: n as u64, den: 255 }),
        holds_number(r.freq_core, m) ==> (s.clock_mhz matches Some(v) && v * 1_000_000 <= m < (v
            + 1) * 1_000_000),
        holds_number(r.freq_mem, m) ==> (s.mem_clock_mhz matches Some(v) && v * 1_000_000 <= m < (v
            + 1) * 1_000_000),
{
    let none = Seq::<char>::empty();
    a_written_number_is_read(r.power_average, none, n, none);
    a_written_number_is_read(r.power_input, none, n, none);
    a_written_number_is_read(r.power_cap, none, m, none);
    a_written_number_is_read(r.power_cap, none, 0, none);
    a_written_number_is_read(r.power_cap_default, none, m, none);
    a_written_number_is_read(r.power_cap_default, none, 0, none);
    a_written_number_is_read(r.pwm, none, n, none);
    a_written_number_is_read(r.pwm_max, none, m, none);
    a_written_number_is_read(r.pwm_max, none, 0, none);
    a_written_number_is_read(r.freq_core, none, m, none);
    a_written_number_is_read(r.freq_mem, none, m, none);
}

/// What no file says is unknown, never zero.
pub proof fn an_absent_file_reads_as_unknown(
    s: RawSnapshot,
    d: AmdDevice,
    r: AmdReads,
    hot: bool,
    capped: bool,
)
    requires
        is_amd_sample(s, d, r, hot, capped),
    ensures
        r.gpu_busy_percent is None ==> s.utilization_pct is None,
        r.mem_busy_percent is None ==> s.mem_util_pct is None,
        r.mem_info_vram_used is None ==> s.vram_used_bytes is None,
        r.mem_info_vram_total is None ==> s.vram_total_bytes is None,
        r.mem_info_gtt_used is None ==> s.gtt_used_bytes is None,
        r.mem_info_gtt_total is None ==> s.gtt_total_bytes is None,
        r.temp_edge is None ==> s.temperature_c is None,
        r.temp_junction is None ==> s.temp_junction_c is None,
        r.temp_mem is None ==> s.temp_mem_c is None,
        r.power_average is None && r.power_input is None ==> s.power_w is None,
        r.pwm is None ==> s.fan_pct is None,
        r.fan_input is None ==> s.fan_rpm is None,
        r.freq_core is None && r.pp_dpm_sclk is None ==> s.clock_mhz is None,
        r.freq_mem is None && r.pp_dpm_mclk is None ==> s.mem_clock_mhz is None,
        r.voltage is None ==> s.volt_mv is None,
        r.performance_level is None ==> s.perf_level is None,
        d.pdev is None ==> s.device_id is None,
{
}

/// A card is said to be throttled exactly where it is hot or at its cap, and
/// the label names each of the two that holds and no other.
pub proof fn a_throttle_names_its_reasons(
    s: RawSnapshot,
    d: AmdDevice,
    r: AmdReads,
    hot: bool,
    capped: bool,
)
    requires
        is_amd_sample(s, d, r, hot, capped),
    ensures
        s.throttle is Some <==> hot || capped,
        hot ==> has_prefix(s.throttle->0@, "thermal"@),
        capped ==> contains_text(s.throttle->0@, "power-limit"@),
        !hot && capped ==> s.throttle->0@ == "power-limit"@,
        hot && !capped ==> s.throttle->0@ == "thermal"@,
{
    let t = "thermal"@;
    let p = "power-limit"@;
    a_text_is_found_where_it_stands(t + "+"@, p, Seq::empty());
    assert(t + "+"@ + p + Seq::<char>::empty() =~= t + "+"@ + p);
    a_text_is_found_where_it_stands(Seq::empty(), t, "+"@ + p);
    assert(t + ("+"@ + p) =~= t + "+"@ + p);
    a_text_is_found_where_it_stands(Seq::empty(), t, Seq::empty());
    assert(t + Seq::<char>::empty() =~= t);
    a_text_is_found_where_it_stands(Seq::empty(), p, Seq::empty());
    assert(Seq::<char>::empty() + p + Seq::<char>::empty() =~= p);
}

/// A performance level shows where it was forced, as it is written.
pub proof fn a_forced_level_shows(
    s: RawSnapshot,
    d: AmdDevice,
    r: AmdReads,
    hot: bool,
    capped: bool,
)
    requires
        is_amd_sample(s, d, r, hot, capped),
        r.performance_level is Some,
    ensures
        s.perf_level is None <==> r.performance_level->0@ == "auto"@,
        s.perf_level is Some ==> s.perf_level->0@ == r.performance_level->0@,
{
}

/// A power-gated domain, whose clock reads zero, shows the active level of its
/// table, as does one without a clock file: the level that a star marks.
pub proof fn the_starred_level_is_active(table: Seq<char>, i: int, level: nat, mhz: nat)
    requires
        0 <= i < lines(trim(table)).len(),
        lines(trim(table))[i] == decimal(level) + ": "@ + decimal(mhz) + "Mhz *"@,
        forall|j: int|
            0 <= j < i ==> (#[trigger] lines(trim(table))[j]).len() > 0 && lines(trim(table))[j].last()
                != '*' && !is_space(lines(trim(table))[j].last()),
        mhz <= u64::MAX,
    ensures
        active_mhz(Some(table)) == Some(mhz as u64),
        clock_of(None, Some(table)) == Some(mhz as u64),
        clock_of(Some(0), Some(table)) == Some(mhz as u64),
        active_mhz(None) is None,
{
    let rows = lines(trim(table));
    let line = rows[i];
    let a = decimal(level);
    let m = decimal(mhz);
    decimal_reads_back(level);
    decimal_reads_back(mhz);
    numbers_are_read_from_digits(m, mhz, u64::MAX as nat);
    reveal_strlit(": ");
    reveal_strlit("Mhz *");
    let value = m + "Mhz *"@;
    let tail = seq![' '] + value;
    assert(line =~= a + seq![':'] + tail);
    assert(line.last() == '*');
    white_space_is_blank('*');
    white_space_is_blank(' ');
    assert forall|j: int| 0 <= j < i implies trim_end(#[trigger] rows[j]) == rows[j] by {
    }
    assert(trim_end(line) == line);
    lemma_active_line(rows, i);
    if a.contains(':') {
        let w = choose|w: int| 0 <= w < a.len() && a[w] == ':';
        assert(is_digit(a[w]));
    }
    if tail.contains(':') {
        let w = choose|w: int| 0 <= w < tail.len() && tail[w] == ':';
        if 1 <= w < 1 + m.len() {
            assert(is_digit(m[w - 1]));
        }
    }
    a_separator_splits(a, tail, ':');
    a_piece_stays_whole(a, ':');
    a_piece_stays_whole(tail, ':');
    let fields = split(line, ':');
    assert(fields =~= seq![a, tail]);
    white_space_is_blank(m[0]);
    assert(is_digit(m[0]));
    assert(is_blank(seq![' ']));
    trimming_takes_off_both_ends(seq![' '], value, Seq::empty());
    assert(seq![' '] + value + Seq::<char>::empty() =~= tail);
    lemma_leading_digits(value, m.len() as int);
    assert(value.take(m.len() as int) =~= m);
}

proof fn lemma_active_line(rows: Seq<Seq<char>>, i: int)
    requires
        0 <= i < rows.len(),
        trim_end(rows[i]) == rows[i],
        rows[i].len() > 0 && rows[i].last() == '*',
        forall|j: int|
            0 <= j < i ==> trim_end(#[trigger] rows[j]) == rows[j] && rows[j].len() > 0 && rows[j].last()
                != '*',
    ensures
        active_line(rows) == Some(rows[i]),
    decreases i,
{
    if i > 0 {
        let rest = rows.skip(1);
        assert(trim_end(rows[0]) == rows[0]);
        assert(rest[i - 1] == rows[i]);
        assert forall|j: int| 0 <= j < i - 1 implies trim_end(#[trigger] rest[j]) == rest[j]
            && rest[j].len() > 0 && rest[j].last() != '*' by {
            assert(rest[j] == rows[j + 1]);
        }
        lemma_active_line(rest, i - 1);
    }
}

/// The three counts of a `pcie_bw` line come out in the order in which they are
/// written.
pub proof fn bandwidth_counts_come_in_order(rx: nat, tx: nat, mps: nat)
    requires
        rx <= u64::MAX,
        tx <= u64::MAX,
        mps <= u64::MAX,
    ensures
        bw_of(decimal(rx) + seq![' '] + decimal(tx) + seq![' '] + decimal(mps) + seq!['\n']) == Some(
            (rx as u64, tx as u64, mps as u64),
        ),
{
    let a = decimal(rx);
    let b = decimal(tx);
    let c = decimal(mps);
    lemma_numeral_is_word(rx);
    lemma_numeral_is_word(tx);
    lemma_numeral_is_word(mps);
    white_space_is_blank(' ');
    white_space_is_blank('\n');
    a_blank_ends_a_word(a, ' ', a);
    a_blank_ends_a_word(a, ' ', b);
    let two = a.push(' ') + b;
    a_blank_ends_a_word(two, ' ', c);
    let three = two.push(' ') + c;
    a_blank_ends_a_word(three, '\n', c);
    assert(a + seq![' '] + b + seq![' '] + c + seq!['\n'] =~= three.push('\n'));
    assert(words(three) =~= seq![a, b, c]);
}

proof fn lemma_numeral_is_word(n: nat)
    requires
        n <= u64::MAX,
    ensures
        decimal(n).len() > 0,
        forall|i: int| 0 <= i < decimal(n).len() ==> !is_space(#[trigger] decimal(n)[i]),
        parse_uint(decimal(n), u64::MAX as nat) == Some(n),
{
    decimal_reads_back(n);
    numbers_are_read_from_digits(decimal(n), n, u64::MAX as nat);
    assert forall|i: int| 0 <= i < decimal(n).len() implies !is_space(#[trigger] decimal(n)[i]) by {
        white_space_is_blank(decimal(n)[i]);
    }
}

/// Two samples measure what the counters rose by between them, received and
/// sent apart, over the time that passed; the first measures nothing, and a
/// text that cannot be read changes nothing.
pub proof fn bandwidth_is_measured_between_samples(
    first: Seq<char>,
    second: Seq<char>,
    t0: u64,
    t1: u64,
    s0: Option<(u64, u64, u64)>,
    s1: Option<(u64, u64, u64)>,
    r0: Option<BwDelta>,
    r1: Option<BwDelta>,
)
    requires
        bw_of(first) is Some,
        bw_stepped(None, Some(first), t0, s0, r0),
        bw_stepped(s0, Some(second), t1, s1, r1),
    ensures
        r0 is None,
        bw_of(second) is None ==> r1 is None && s1 == s0,
        bw_of(second) matches Some(now) ==> {
            let was = bw_of(first)->0;
            &&& r1 is Some <==> t1 > t0
            &&& r1 matches Some(x) ==> {
                &&& t0 + x.elapsed_ns == t1
                &&& now.0 >= was.0 ==> was.0 + x.rx == now.0
                &&& now.1 >= was.1 ==> was.1 + x.tx == now.1
                &&& now.0 < was.0 ==> x.rx == 0
                &&& now.1 < was.1 ==> x.tx == 0
                &&& x.mps == now.2
            }
            &&& s1 == Some((now.0, now.1, t1))
        },
{
}

/// A sensor is read from the channel that carries its label; the last one, where
/// several do.
pub proof fn a_label_finds_its_channel(labels: Seq<Option<String>>, label: Seq<char>, k: int)
    requires
        labels.len() == 3,
        0 <= k < 3,
    ensures
        opt_text(labels[k]) == Some(label) && (forall|j: int|
            k < j < 3 ==> opt_text(#[trigger] labels[j]) != Some(label)) ==> (channel_of(labels, label) matches Some(
            c,
        ) && c == k + 2),
        (forall|j: int| 0 <= j < 3 ==> opt_text(#[trigger] labels[j]) != Some(label))
            ==> channel_of(labels, label) is None,
{
    if forall|j: int| 0 <= j < 3 ==> opt_text(#[trigger] labels[j]) != Some(label) {
        assert(opt_text(labels[0]) != Some(label));
        assert(opt_text(labels[1]) != Some(label));
        assert(opt_text(labels[2]) != Some(label));
    }
    if forall|j: int| k < j < 3 ==> opt_text(#[trigger] labels[j]) != Some(label) {
        if k < 1 {
            assert(opt_text(labels[1]) != Some(label));
        }
        if k < 2 {
            assert(opt_text(labels[2]) != Some(label));
        }
    }
}

/// A discrete card's client is charged for its VRAM alone, an APU's for both
/// pools together, and neither for any other region.
pub proof fn a_client_is_charged_for_its_cards_memory(c: FdClient, vram: u64, gtt: u64)
    requires
        vram + gtt <= u64::MAX,
        c.memory@.dom().contains("vram"@) ==> c.memory@["vram"@] == vram,
        !c.memory@.dom().contains("vram"@) ==> vram == 0,
        c.memory@.dom().contains("gtt"@) ==> c.memory@["gtt"@] == gtt,
        !c.memory@.dom().contains("gtt"@) ==> gtt == 0,
    ensures
        charged_bytes(c, false) == vram,
        charged_bytes(c, true) == vram + gtt,
{
}

/// A client counts from its own counters at the last sweep: what each kind of
/// engine did since, over the time since, at most all of it. One seen for the
/// first time has done nothing yet.
pub proof fn a_client_counts_since_its_last_sweep(
    was: EngineSample,
    pid: u32,
    c: FdClient,
    gpu: usize,
    integrated: bool,
    at: u64,
)
    requires
        was.at < at,
    ensures
        ({
            let now = counters_of(c, at);
            let e = entry_of(Some(was), pid, c, gpu, integrated, at);
            let first = entry_of(None, pid, c, gpu, integrated, at);
            let s = e.entry.sample;
            &&& e.entry.pid == pid && e.entry.id == c.id && e.entry.gpu == gpu
            &&& was.total_ns <= now.total_ns <= was.total_ns + (at - was.at) ==> was.total_ns
                + s.util.num == now.total_ns && was.at + s.util.den == at
            &&& was.video_ns <= now.video_ns <= was.video_ns + (at - was.at) ==> was.video_ns
                + s.video.num == now.video_ns && was.at + s.video.den == at
            &&& e.enc matches Some(r) ==> (was.enc_ns <= now.enc_ns <= was.enc_ns + (at - was.at)
                ==> was.enc_ns + r.num == now.enc_ns && was.at + r.den == at)
            &&& e.dec matches Some(r) ==> (was.dec_ns <= now.dec_ns <= was.dec_ns + (at - was.at)
                ==> was.dec_ns + r.num == now.dec_ns && was.at + r.den == at)
            &&& s.util.num <= s.util.den && s.video.num <= s.video.den
            &&& first.entry.sample.util.num == 0 && first.entry.sample.video.num == 0
            &&& e.enc is Some <==> c.has_engine(|x: Seq<char>| enc_engine(x))
            &&& e.dec is Some <==> c.has_engine(|x: Seq<char>| dec_engine(x))
            &&& s.graphics <==> (c.engine_ns@.dom().contains("gfx"@) && c.engine_ns@["gfx"@] > 0)
        }),
{
}

/// Encoders and decoders are told apart by how their names begin, and both are
/// media engines, as the unified ones are; the rest of the name does not
/// matter.
pub proof fn engines_are_told_by_their_names(rest: Seq<char>)
    ensures
        enc_engine("enc"@ + rest) && !dec_engine("enc"@ + rest) && video_engine("enc"@ + rest),
        dec_engine("dec"@ + rest) && !enc_engine("dec"@ + rest) && video_engine("dec"@ + rest),
        dec_engine("jpeg"@ + rest) && !enc_engine("jpeg"@ + rest) && video_engine("jpeg"@ + rest),
        video_engine("vcn"@ + rest) && !enc_engine("vcn"@ + rest) && !dec_engine("vcn"@ + rest),
        video_engine("vpe"@ + rest) && !enc_engine("vpe"@ + rest) && !dec_engine("vpe"@ + rest),
        !video_engine("gfx"@ + rest) && !video_engine("compute"@ + rest),
{
    reveal_strlit("enc");
    reveal_strlit("dec");
    reveal_strlit("jpeg");
    reveal_strlit("vcn");
    reveal_strlit("vpe");
    reveal_strlit("gfx");
    reveal_strlit("compute");
    a_text_is_found_where_it_stands(Seq::empty(), "enc"@, rest);
    a_text_is_found_where_it_stands(Seq::empty(), "dec"@, rest);
    a_text_is_found_where_it_stands(Seq::empty(), "jpeg"@, rest);
    a_text_is_found_where_it_stands(Seq::empty(), "vcn"@, rest);
    a_text_is_found_where_it_stands(Seq::empty(), "vpe"@, rest);
    lemma_other_letter("enc"@ + rest);
    lemma_other_letter("dec"@ + rest);
    lemma_other_letter("jpeg"@ + rest);
    lemma_other_letter("vcn"@ + rest);
    lemma_other_letter("vpe"@ + rest);
    lemma_other_letter("gfx"@ + rest);
    lemma_other_letter("compute"@ + rest);
}

proof fn lemma_other_letter(s: Seq<char>)
    requires
        s.len() > 0,
    ensures
        s[0] != 'e' ==> !has_prefix(s, "enc"@),
        s[0] != 'd' ==> !has_prefix(s, "dec"@),
        s[0] != 'j' ==> !has_prefix(s, "jpeg"@),
        s[0] != 'v' ==> !has_prefix(s, "vcn"@) && !has_prefix(s, "vpe"@),
{
    reveal_strlit("enc");
    reveal_strlit("dec");
    reveal_strlit("jpeg");
    reveal_strlit("vcn");
    reveal_strlit("vpe");
    a_prefix_can_be_taken_off(s, "enc"@);
    a_prefix_can_be_taken_off(s, "dec"@);
    a_prefix_can_be_taken_off(s, "jpeg"@);
    a_prefix_can_be_taken_off(s, "vcn"@);
    a_prefix_can_be_taken_off(s, "vpe"@);
}

/// A card's link has the generation of its rate, no card tells where it slows
/// down, and each text is taken as it stands.
pub proof fn links_and_limits_read_as_their_files_say(
    s: RawSnapshot,
    d: AmdDevice,
    r: AmdReads,
    hot: bool,
    capped: bool,
    n: nat,
)
    requires
        is_amd_sample(s, d, r, hot, capped),
        n > 0,
    ensures
        s.temp_slowdown_c is None,
        r.link.current_speed is None ==> s.pcie_gen is None,
        r.link.current_width is None ==> s.pcie_width is None,
        r.link.current_speed matches Some(t) && words(t@).len() > 0 && words(t@)[0] == decimal(n)
            ==> s.pcie_gen == Some(gen_at(n)),
{
    a_link_is_read_from_its_files(r.link.current_speed, None, r.link.current_width, 0);
    if let Some(t) = r.link.current_speed {
        if words(t@).len() > 0 && words(t@)[0] == decimal(n) {
            a_links_generation_is_that_of_its_rate(r.link.current_speed, r.link.current_width, n);
        }
    }
}

/// What a client counted at the last sweep is found under the client, and
/// under no other.
pub proof fn a_client_is_remembered_as_itself(
    m: Map<(u32, u64), EngineSample>,
    k: (u32, u64),
    other: (u32, u64),
    e: EngineSample,
)
    requires
        k != other,
    ensures
        state_at(m.insert(k, e), k) == Some(e),
        state_at(m.insert(k, e), other) == state_at(m, other),
        state_at(m.remove(k), k) is None,
        state_at(Map::empty(), k) is None,
{
}

/// What one walk gives: an entry for every client that counts for one of the
/// cards, and the counters of just these clients for the next walk.
pub open spec fn is_attributed(
    out: Seq<AmdEntry>,
    before: Map<(u32, u64), EngineSample>,
    after: Map<(u32, u64), EngineSample>,
    devices: Seq<AmdDevice>,
    clients: Seq<(u32, FdClient)>,
    at: u64,
) -> bool {
    let counted = assignments(clients, sweep_devices(devices), clients.len());
    &&& out == Seq::new(
        counted.len(),
        |k: int| assigned_entry(before, devices, clients, at, counted[k]),
    )
    &&& forall|key: (u32, u64)|
        #[trigger] after.dom().contains(key) <==> exists|k: int|
            0 <= k < counted.len() && key_of(clients, #[trigger] counted[k]) == key
    &&& forall|k: int|
        0 <= k < counted.len() ==> after[key_of(clients, #[trigger] counted[k])] == counters_of(
            clients[counted[k].client as int].1,
            at,
        )
}

/// The media engines and the link show what was measured of them.
pub open spec fn shows_traffic(
    s: RawSnapshot,
    media: MediaFigures,
    pcie_bw: Option<(u64, u64)>,
) -> bool {
    &&& s.video_util_pct == media.video
    &&& s.enc_util_pct == media.enc
    &&& s.dec_util_pct == media.dec
    &&& s.pcie_rx_kbs == (match pcie_bw {
        Some((rx, _)) => Some(rx),
        None => None,
    })
    &&& s.pcie_tx_kbs == (match pcie_bw {
        Some((_, tx)) => Some(tx),
        None => None,
    })
}

/// The metrics table is one of an APU: its format revision is the second or
/// later.
pub open spec fn apu_metrics(m: Seq<u8>) -> bool {
    m.len() > 2 && m[2] >= 2
}

/// Every counted client has one entry, filed under its process and its card,
/// and its counters are kept for the next walk; those of clients that are gone
/// are not.
pub proof fn every_counted_client_has_its_entry(
    out: Seq<AmdEntry>,
    before: Map<(u32, u64), EngineSample>,
    after: Map<(u32, u64), EngineSample>,
    devices: Seq<AmdDevice>,
    clients: Seq<(u32, FdClient)>,
    at: u64,
    k: int,
    gone: (u32, u64),
)
    requires
        is_attributed(out, before, after, devices, clients, at),
        0 <= k < assignments(clients, sweep_devices(devices), clients.len()).len(),
        forall|i: int| 0 <= i < clients.len() ==> ((#[trigger] clients[i]).0, clients[i].1.id) != gone,
        forall|i: int|
            0 <= i < assignments(clients, sweep_devices(devices), clients.len()).len() ==> (
            #[trigger] assignments(clients, sweep_devices(devices), clients.len())[i]).client
                < clients.len(),
    ensures
        ({
            let counted = assignments(clients, sweep_devices(devices), clients.len());
            let (pid, c) = clients[counted[k].client as int];
            &&& out.len() == counted.len()
            &&& out[k].entry.pid == pid && out[k].entry.id == c.id
            &&& out[k].entry.gpu == counted[k].gpu
            &&& state_at(after, (pid, c.id)) == Some(counters_of(c, at))
            &&& state_at(after, gone) is None
        }),
{
    let counted = assignments(clients, sweep_devices(devices), clients.len());
    assert(after.dom().contains(key_of(clients, counted[k])));
    if after.dom().contains(gone) {
        let i = choose|i: int| 0 <= i < counted.len() && key_of(clients, #[trigger] counted[i]) == gone;
        assert(clients[counted[i].client as int].0 == gone.0);
    }
}

/// Received and sent traffic show each in its own field, as do decoding and
/// encoding, and what was not measured is unknown.
pub proof fn traffic_shows_by_direction(
    s: RawSnapshot,
    media: MediaFigures,
    pcie_bw: Option<(u64, u64)>,
    rx: u64,
    tx: u64,
)
    requires
        shows_traffic(s, media, pcie_bw),
    ensures
        pcie_bw == Some((rx, tx)) ==> s.pcie_rx_kbs == Some(rx) && s.pcie_tx_kbs == Some(tx),
        pcie_bw is None ==> s.pcie_rx_kbs is None && s.pcie_tx_kbs is None,
        s.video_util_pct == media.video,
        s.enc_util_pct == media.enc && s.dec_util_pct == media.dec,
{
}

/// An APU is told by the third byte of its metrics alone.
pub proof fn an_apu_is_told_by_its_metrics(a: u8, b: u8, c: u8, rest: Seq<u8>)
    ensures
        c >= 2 ==> apu_metrics(seq![a, b, c] + rest),
        c < 2 ==> !apu_metrics(seq![a, b, c] + rest),
        rest.len() <= 2 ==> !apu_metrics(rest),
{
}

} // verus!
