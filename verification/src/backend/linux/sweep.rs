//! Attribution of a walk's clients to one backend's cards, and the sums over
//! them.
use vstd::prelude::*;
use vstd::multiset::Multiset;
use crate::backend::raw::{Figure, RawProcess};
use crate::backend::ProcKind;
use crate::backend::linux::fdinfo::FdClient;
use crate::backend::opt_text;
use crate::keyed::{Keyed, TextMap};
use crate::text::same_text;

verus! {

/// What the shared sweep needs to know about one device.
pub struct SweepDevice {
    /// PCI address as fdinfo reports it.
    pub pdev: Option<String>,
    /// Driver name a client must report to belong to this device.
    pub driver: String,
}

/// A share of an interval: `num` of `den` parts; `den` is positive.
#[derive(Clone, Copy, PartialEq, Eq, Structural, Debug)]
pub struct Ratio {
    pub num: u64,
    pub den: u64,
}

/// One client's contribution.
#[derive(Clone, Copy, PartialEq, Eq, Structural, Debug)]
pub struct ClientSample {
    pub util: Ratio,
    pub video: Ratio,
    /// Bytes to charge the owning process's row.
    pub mem_bytes: u64,
    /// Client touched a graphics (rather than compute-only) engine.
    pub graphics: bool,
}

/// A client that belongs to card `gpu`, by its position in the walk.
#[derive(Clone, Copy, PartialEq, Eq, Structural, Debug)]
pub struct Assigned {
    pub client: usize,
    pub gpu: usize,
}

/// The client reports the device's own address and driver.
pub open spec fn belongs(d: SweepDevice, c: FdClient) -> bool {
    c.pdev is Some && opt_text(d.pdev) == opt_text(c.pdev) && d.driver@ == c.driver@
}

/// The first device from `from` on that the client belongs to.
pub open spec fn device_from(devices: Seq<SweepDevice>, c: FdClient, from: int) -> Option<int>
    decreases devices.len() - from,
{
    if from < 0 || from >= devices.len() {
        None
    } else if belongs(devices[from], c) {
        Some(from)
    } else {
        device_from(devices, c, from + 1)
    }
}

/// The device that the client belongs to.
pub open spec fn device_of(devices: Seq<SweepDevice>, c: FdClient) -> Option<int> {
    device_from(devices, c, 0)
}

/// An earlier client of the walk is the same client seen through another fd.
pub open spec fn counted_before(
    clients: Seq<(u32, FdClient)>,
    devices: Seq<SweepDevice>,
    i: int,
) -> bool {
    exists|j: int|
        0 <= j < i && (#[trigger] clients[j]).0 == clients[i].0 && clients[j].1.id
            == clients[i].1.id && device_of(devices, clients[j].1) is Some
}

/// The card that client `i` counts for: the one it belongs to, where no earlier
/// fd of the same client was counted.
pub open spec fn counts_for(
    clients: Seq<(u32, FdClient)>,
    devices: Seq<SweepDevice>,
    i: int,
) -> Option<int> {
    if counted_before(clients, devices, i) {
        None
    } else {
        device_of(devices, clients[i].1)
    }
}

/// The clients that count among the first `n`, in walk order, with their cards.
pub open spec fn assignments(
    clients: Seq<(u32, FdClient)>,
    devices: Seq<SweepDevice>,
    n: nat,
) -> Seq<Assigned>
    decreases n,
{
    if n == 0 {
        Seq::empty()
    } else {
        let head = assignments(clients, devices, (n - 1) as nat);
        match counts_for(clients, devices, n - 1) {
            Some(g) => head.push(Assigned { client: (n - 1) as usize, gpu: g as usize }),
            None => head,
        }
    }
}

/// Which of `devices` a client belongs to: both the address and the driver
/// must be its own. A client without an address belongs to nobody.
pub fn client_device(devices: &Vec<SweepDevice>, client: &FdClient) -> (r: Option<usize>)
    ensures
        match r {
            Some(i) => i < devices.len() && device_of(devices@, *client) == Some(i as int),
            None => device_of(devices@, *client) is None,
        },
{
    let mut i: usize = 0;
    while i < devices.len()
        invariant
            i <= devices.len(),
            device_of(devices@, *client) == device_from(devices@, *client, i as int),
        decreases devices.len() - i,
    {
        let same = match (&client.pdev, &devices[i].pdev) {
            (Some(a), Some(b)) => same_text(a, b) && same_text(
                &devices[i].driver,
                &client.driver,
            ),
            _ => false,
        };
        assert(same == belongs(devices@[i as int], *client));
        if same {
            return Some(i);
        }
        i = i + 1;
    }
    None
}

/// The clients of a walk that count for these devices, each once, in order.
pub fn assign(clients: &Vec<(u32, FdClient)>, devices: &Vec<SweepDevice>) -> (out: Vec<Assigned>)
    ensures
        out@ == assignments(clients@, devices@, clients@.len()),
        forall|k: int|
            0 <= k < out@.len() ==> (#[trigger] out@[k]).client < clients@.len() && out@[k].gpu
                < devices@.len(),
{
    let mut out: Vec<Assigned> = Vec::new();
    let mut i: usize = 0;
    while i < clients.len()
        invariant
            i <= clients.len(),
            out@ == assignments(clients@, devices@, i as nat),
            forall|k: int|
                0 <= k < out@.len() ==> (#[trigger] out@[k]).client < clients@.len() && out@[k].gpu
                    < devices@.len(),
        decreases clients.len() - i,
    {
        let pid: u32 = clients[i].0;
        let id: u64 = clients[i].1.id;
        let mut dup = false;
        let mut j: usize = 0;
        while j < i
            invariant
                j <= i < clients.len(),
                pid == clients@[i as int].0,
                id == clients@[i as int].1.id,
                dup <==> exists|k: int|
                    0 <= k < j && (#[trigger] clients@[k]).0 == pid && clients@[k].1.id == id
                        && device_of(devices@, clients@[k].1) is Some,
            decreases i - j,
        {
            if clients[j].0 == pid && clients[j].1.id == id {
                if client_device(devices, &clients[j].1).is_some() {
                    dup = true;
                    assert(clients@[j as int].0 == pid);
                }
            }
            j = j + 1;
        }
        assert(dup == counted_before(clients@, devices@, i as int));
        if !dup {
            if let Some(gpu) = client_device(devices, &clients[i].1) {
                out.push(Assigned { client: i, gpu });
            }
        }
        i = i + 1;
    }
    out
}

/// The clients that count are named in walk order, each stands for its own
/// (pid, client id), and each belongs to the card it counts for.
pub proof fn lemma_assignments(clients: Seq<(u32, FdClient)>, devices: Seq<SweepDevice>, n: nat)
    requires
        n <= clients.len(),
        clients.len() <= usize::MAX,
        devices.len() <= usize::MAX,
    ensures
        forall|x: int|
            0 <= x < assignments(clients, devices, n).len() ==> {
                let a = #[trigger] assignments(clients, devices, n)[x];
                a.client < n && counts_for(clients, devices, a.client as int) == Some(a.gpu as int)
                    && a.gpu < devices.len()
            },
        forall|x: int, y: int|
            0 <= x < y < assignments(clients, devices, n).len() ==> {
                let a = #[trigger] assignments(clients, devices, n)[x];
                let b = #[trigger] assignments(clients, devices, n)[y];
                a.client < b.client && (clients[a.client as int].0 != clients[b.client as int].0
                    || clients[a.client as int].1.id != clients[b.client as int].1.id)
            },
    decreases n,
{
    if n > 0 {
        lemma_assignments(clients, devices, (n - 1) as nat);
        let head = assignments(clients, devices, (n - 1) as nat);
        let all = assignments(clients, devices, n);
        if let Some(g) = counts_for(clients, devices, n - 1) {
            lemma_device_in_range(devices, clients[n - 1].1, 0);
            assert forall|x: int, y: int| 0 <= x < y < all.len() implies {
                let a = #[trigger] all[x];
                let b = #[trigger] all[y];
                a.client < b.client && (clients[a.client as int].0 != clients[b.client as int].0
                    || clients[a.client as int].1.id != clients[b.client as int].1.id)
            } by {
                assert(all[x] == head[x]);
                if y < head.len() {
                    assert(all[y] == head[y]);
                } else {
                    let j = head[x].client as int;
                    assert(counts_for(clients, devices, j) is Some);
                    if clients[j].0 == clients[n - 1].0 && clients[j].1.id == clients[n - 1].1.id {
                        assert(counted_before(clients, devices, n - 1));
                    }
                }
            }
            assert forall|x: int| 0 <= x < all.len() implies {
                let a = #[trigger] all[x];
                a.client < n && counts_for(clients, devices, a.client as int) == Some(a.gpu as int)
                    && a.gpu < devices.len()
            } by {
                if x < head.len() {
                    assert(all[x] == head[x]);
                }
            }
        }
    }
}

proof fn lemma_device_in_range(devices: Seq<SweepDevice>, c: FdClient, from: int)
    requires
        0 <= from <= devices.len(),
    ensures
        device_from(devices, c, from) matches Some(g) ==> from <= g < devices.len() && belongs(
            devices[g],
            c,
        ),
    decreases devices.len() - from,
{
    if from < devices.len() {
        lemma_device_in_range(devices, c, from + 1);
    }
}

/// A client is attributed to a card of its own address and driver or to none.
pub proof fn attribution_matches_address_and_driver(devices: Seq<SweepDevice>, c: FdClient)
    ensures
        device_of(devices, c) matches Some(g) ==> 0 <= g < devices.len() && belongs(devices[g], c),
        c.pdev is None ==> device_of(devices, c) is None,
{
    lemma_device_in_range(devices, c, 0);
}

// ---------------------------------------------------------------- shares

/// `a - b`, or zero.
pub open spec fn rise(a: u64, b: u64) -> u64 {
    if a > b {
        (a - b) as u64
    } else {
        0
    }
}

/// The share of the interval since the last reading that a busy-time counter
/// rose by, at most all of it; nothing where there is no last reading or no
/// interval.
pub open spec fn busy_share(prev: Option<(u64, u64)>, busy: u64, now: u64) -> Ratio {
    match prev {
        None => Ratio { num: 0, den: 1 },
        Some((was, at)) => if now <= at {
            Ratio { num: 0, den: 1 }
        } else {
            Ratio {
                num: if rise(busy, was) < now - at {
                    rise(busy, was)
                } else {
                    (now - at) as u64
                },
                den: (now - at) as u64,
            }
        },
    }
}

/// The share of the interval since the last reading that a busy-time counter
/// rose by. Times and counters are nanoseconds.
pub fn ns_delta_share(prev: Option<(u64, u64)>, busy: u64, now: u64) -> (r: Ratio)
    ensures
        r == busy_share(prev, busy, now),
{
    match prev {
        None => Ratio { num: 0, den: 1 },
        Some((was, at)) => if now <= at {
            Ratio { num: 0, den: 1 }
        } else {
            let wall: u64 = now - at;
            let up: u64 = if busy > was { busy - was } else { 0 };
            Ratio { num: if up < wall { up } else { wall }, den: wall }
        },
    }
}

/// A share is never more than the whole.
pub proof fn shares_stay_within_the_whole(prev: Option<(u64, u64)>, busy: u64, now: u64)
    ensures
        busy_share(prev, busy, now).num <= busy_share(prev, busy, now).den,
        busy_share(prev, busy, now).den > 0,
{
}

/// How far an engine's cycle counters rose.
pub open spec fn cycle_rise(
    cur: Map<Seq<char>, (u64, u64)>,
    prev: Map<Seq<char>, (u64, u64)>,
    k: Seq<char>,
) -> (u64, u64) {
    let was = crate::backend::linux::fdinfo::cycles_at(prev, k);
    (rise(cur[k].0, was.0), rise(cur[k].1, was.1))
}

/// An accepted engine whose total counter rose.
pub open spec fn ran(
    cur: Map<Seq<char>, (u64, u64)>,
    prev: Map<Seq<char>, (u64, u64)>,
    p: spec_fn(Seq<char>) -> bool,
    k: Seq<char>,
) -> bool {
    cur.dom().contains(k) && p(k) && cycle_rise(cur, prev, k).1 > 0
}

/// `r` is how far the busiest accepted engine's counters rose, zero where none
/// ran. Odd counters can rise by more than their total.
pub open spec fn busiest(
    r: Ratio,
    cur: Map<Seq<char>, (u64, u64)>,
    prev: Map<Seq<char>, (u64, u64)>,
    p: spec_fn(Seq<char>) -> bool,
) -> bool {
    &&& r.den > 0
    &&& forall|k: Seq<char>|
        #[trigger] ran(cur, prev, p, k) ==> cycle_rise(cur, prev, k).0 * r.den <= r.num
            * cycle_rise(cur, prev, k).1
    &&& r == (Ratio { num: 0, den: 1 }) || exists|k: Seq<char>|
        #[trigger] ran(cur, prev, p, k) && cycle_rise(cur, prev, k) == (r.num, r.den)
}

/// `r` capped at the whole.
pub open spec fn at_most_all(r: Ratio) -> Ratio {
    if r.num > r.den {
        Ratio { num: r.den, den: r.den }
    } else {
        r
    }
}

/// `r` is the share of the busiest accepted engine, at most all of it.
pub open spec fn busiest_capped(
    r: Ratio,
    cur: Map<Seq<char>, (u64, u64)>,
    was: Map<Seq<char>, (u64, u64)>,
    p: spec_fn(Seq<char>) -> bool,
) -> bool {
    exists|best: Ratio| #[trigger] busiest(best, cur, was, p) && r == at_most_all(best)
}

/// An engine's share is a fraction of the whole, nothing where no accepted
/// engine ran.
pub proof fn engine_shares_are_fractions(
    r: Ratio,
    cur: Map<Seq<char>, (u64, u64)>,
    was: Map<Seq<char>, (u64, u64)>,
    p: spec_fn(Seq<char>) -> bool,
)
    requires
        busiest_capped(r, cur, was, p),
    ensures
        r.num <= r.den,
        r.den > 0,
        (forall|k: Seq<char>| !#[trigger] ran(cur, was, p, k)) ==> r.num == 0,
{
}

impl FdClient {
    /// The share of the busiest engine that `pred` accepts, since `prev`, as a
    /// fraction of the whole.
    pub fn xe_ratio<F: Fn(&str) -> bool>(&self, prev: &TextMap<(u64, u64)>, pred: F) -> (r: Ratio)
        requires
            self.wf(),
            prev.wf(),
            forall|s: &str| call_requires(pred, (s,)),
        ensures
            r.num <= r.den,
            r.den > 0,
            forall|p: spec_fn(Seq<char>) -> bool|
                #![trigger busiest_capped(r, self.cycles@, prev@, p)]
                (forall|s: &str, b: bool| call_ensures(pred, (s,), b) ==> b == p(s@))
                    ==> busiest_capped(r, self.cycles@, prev@, p),
    {
        let best = self.busiest_rise(prev, pred);
        let r = Ratio {
            num: if best.num > best.den {
                best.den
            } else {
                best.num
            },
            den: best.den,
        };
        proof {
            assert(r == at_most_all(best));
            assert forall|p: spec_fn(Seq<char>) -> bool|
                #![trigger busiest_capped(r, self.cycles@, prev@, p)]
                (forall|s: &str, b: bool| call_ensures(pred, (s,), b) ==> b == p(s@))
                    implies busiest_capped(r, self.cycles@, prev@, p) by {
                assert(busiest(best, self.cycles@, prev@, p));
            }
        }
        r
    }

    /// How far the counters rose of the busiest engine that `pred` accepts.
    fn busiest_rise<F: Fn(&str) -> bool>(&self, prev: &TextMap<(u64, u64)>, pred: F) -> (r: Ratio)
        requires
            self.wf(),
            prev.wf(),
            forall|s: &str| call_requires(pred, (s,)),
        ensures
            r.den > 0,
            forall|p: spec_fn(Seq<char>) -> bool|
                #![trigger busiest(r, self.cycles@, prev@, p)]
                (forall|s: &str, b: bool| call_ensures(pred, (s,), b) ==> b == p(s@)) ==> busiest(
                    r,
                    self.cycles@,
                    prev@,
                    p,
                ),
    {
        let ghost names = self.cycles.listed();
        let ghost cur = self.cycles@;
        let ghost was = prev@;
        let count: usize = self.cycles.len();
        let mut best = Ratio { num: 0, den: 1 };
        let mut i: usize = 0;
        proof {
            self.cycles.lemma_listed();
        }
        while i < count
            invariant
                i <= count,
                count == names.len(),
                names == self.cycles.listed(),
                cur == self.cycles@,
                was == prev@,
                self.wf(),
                prev.wf(),
                forall|k: Seq<char>| cur.dom().contains(k) <==> #[trigger] names.contains(k),
                forall|s: &str| call_requires(pred, (s,)),
                best.den > 0,
                forall|p: spec_fn(Seq<char>) -> bool|
                    #![trigger busiest_so_far(best, cur, was, p, names.take(i as int))]
                    (forall|s: &str, b: bool| call_ensures(pred, (s,), b) ==> b == p(s@))
                        ==> busiest_so_far(best, cur, was, p, names.take(i as int)),
            decreases count - i,
        {
            let name = self.cycles.key_at(i);
            let (cyc, total) = *self.cycles.value_at(i);
            let s: &str = name.as_str();
            let ok = pred(s);
            let (pcyc, ptotal): (u64, u64) = match prev.get(name) {
                Some(v) => *v,
                None => (0, 0),
            };
            let up: u64 = if cyc > pcyc { cyc - pcyc } else { 0 };
            let dt: u64 = if total > ptotal { total - ptotal } else { 0 };
            let ghost k = name@;
            let ghost before = best;
            assert((up, dt) == cycle_rise(cur, was, k));
            assert(up as u128 * best.den as u128 <= u128::MAX) by (nonlinear_arith)
                requires
                    up <= u64::MAX,
                    best.den <= u64::MAX,
            ;
            assert(best.num as u128 * dt as u128 <= u128::MAX) by (nonlinear_arith)
                requires
                    best.num <= u64::MAX,
                    dt <= u64::MAX,
            ;
            let more = dt > 0 && up as u128 * best.den as u128 > best.num as u128 * dt as u128;
            if ok && more {
                best = Ratio { num: up, den: dt };
            }
            proof {
                assert(names[i as int] == k);
                assert(names.contains(k));
                assert(names.take(i + 1) =~= names.take(i as int).push(k));
                assert forall|p: spec_fn(Seq<char>) -> bool|
                    #![trigger busiest_so_far(best, cur, was, p, names.take(i + 1))]
                    (forall|s: &str, b: bool| call_ensures(pred, (s,), b) ==> b == p(s@))
                        implies busiest_so_far(best, cur, was, p, names.take(i + 1)) by {
                    assert(busiest_so_far(before, cur, was, p, names.take(i as int)));
                    assert(ok == p(k));
                    assert forall|x: Seq<char>| names.take(i + 1).contains(x) && #[trigger] ran(cur, was, p, x)
                        implies cycle_rise(cur, was, x).0 * best.den <= best.num * cycle_rise(cur, was, x).1 by {
                        let head = names.take(i as int);
                        let next = names.take(i + 1);
                        let w = choose|w: int| 0 <= w < next.len() && next[w] == x;
                        if w < i {
                            assert(head[w] == x);
                            assert(head.contains(x));
                            let c = cycle_rise(cur, was, x);
                            if ok && more {
                                lemma_ratio_chain(c.0, c.1, before.num, before.den, up, dt);
                            }
                        }
                    }
                    if ok && more {
                        assert(ran(cur, was, p, k));
                    }
                }
            }
            i = i + 1;
        }
        proof {
            assert(names.take(i as int) =~= names);
            assert forall|p: spec_fn(Seq<char>) -> bool|
                #![trigger busiest(best, cur, was, p)]
                (forall|s: &str, b: bool| call_ensures(pred, (s,), b) ==> b == p(s@)) implies busiest(best, cur, was, p) by {
                assert(busiest_so_far(best, cur, was, p, names));
                assert forall|k: Seq<char>| #[trigger] ran(cur, was, p, k) implies cycle_rise(cur, was, k).0 * best.den
                    <= best.num * cycle_rise(cur, was, k).1 by {
                    assert(names.contains(k));
                }
            }
        }
        best
    }
}

spec fn busiest_so_far(
    r: Ratio,
    cur: Map<Seq<char>, (u64, u64)>,
    prev: Map<Seq<char>, (u64, u64)>,
    p: spec_fn(Seq<char>) -> bool,
    names: Seq<Seq<char>>,
) -> bool {
    &&& r.den > 0
    &&& forall|k: Seq<char>|
        names.contains(k) && #[trigger] ran(cur, prev, p, k) ==> cycle_rise(cur, prev, k).0 * r.den
            <= r.num * cycle_rise(cur, prev, k).1
    &&& r == (Ratio { num: 0, den: 1 }) || exists|k: Seq<char>|
        #[trigger] ran(cur, prev, p, k) && cycle_rise(cur, prev, k) == (r.num, r.den)
}

/// From `a/b <= c/d` and `c/d < e/f` follows `a/b <= e/f`.
proof fn lemma_ratio_chain(a: u64, b: u64, c: u64, d: u64, e: u64, f: u64)
    requires
        d > 0,
        a * d <= c * b,
        e * d > c * f,
    ensures
        a * f <= e * b,
{
    assert(a * f <= e * b) by (nonlinear_arith)
        requires
            d > 0,
            a * d <= c * b,
            e * d > c * f,
            a >= 0,
            b >= 0,
            c >= 0,
            e >= 0,
            f >= 0,
    {
        assert((a * f) * d == (a * d) * f);
        assert((a * d) * f <= (c * b) * f);
        assert((c * b) * f == (c * f) * b);
        assert((c * f) * b <= (e * d) * b);
        assert((e * d) * b == (e * b) * d);
        assert((a * f) * d <= (e * b) * d);
    }
}

/// A DRM client of a process, as delta state is keyed.
#[derive(Clone, Copy, PartialEq, Eq, Structural, Debug)]
pub struct ClientKey {
    pub pid: u32,
    pub id: u64,
}

impl View for ClientKey {
    type V = (u32, u64);

    open spec fn view(&self) -> (u32, u64) {
        (self.pid, self.id)
    }
}

impl Keyed for ClientKey {
    fn same(&self, other: &Self) -> (r: bool) {
        self.pid == other.pid && self.id == other.id
    }

    fn copy(&self) -> (k: Self) {
        *self
    }
}

// ---------------------------------------------------------------- sums

/// One counted client: whose it is, on which card, and what it contributes.
#[derive(Clone, Copy, PartialEq, Eq, Structural, Debug)]
pub struct Entry {
    pub pid: u32,
    pub id: u64,
    pub gpu: usize,
    pub sample: ClientSample,
}

/// One process on one card: the memory and kind summed over its clients, and
/// its clients' shares in walk order.
#[derive(Debug)]
pub struct ProcShare {
    pub pid: u32,
    pub gpu: usize,
    pub mem_bytes: u64,
    pub graphics: bool,
    pub util: Vec<Ratio>,
}

/// The memory that a process's clients hold on a card.
pub open spec fn mem_of(entries: Seq<Entry>, pid: u32, gpu: usize) -> nat
    decreases entries.len(),
{
    if entries.len() == 0 {
        0
    } else {
        let e = entries.last();
        mem_of(entries.drop_last(), pid, gpu) + (if e.pid == pid && e.gpu == gpu {
            e.sample.mem_bytes as nat
        } else {
            0
        })
    }
}

/// Some client of the process touched a graphics engine of the card.
pub open spec fn graphics_of(entries: Seq<Entry>, pid: u32, gpu: usize) -> bool {
    exists|i: int|
        0 <= i < entries.len() && (#[trigger] entries[i]).pid == pid && entries[i].gpu == gpu
            && entries[i].sample.graphics
}

/// The shares of a process's clients on a card, in order.
pub open spec fn util_of(entries: Seq<Entry>, pid: u32, gpu: usize) -> Seq<Ratio>
    decreases entries.len(),
{
    if entries.len() == 0 {
        Seq::empty()
    } else {
        let head = util_of(entries.drop_last(), pid, gpu);
        let e = entries.last();
        if e.pid == pid && e.gpu == gpu {
            head.push(e.sample.util)
        } else {
            head
        }
    }
}

/// All memory charged.
pub open spec fn mem_total(entries: Seq<Entry>) -> nat
    decreases entries.len(),
{
    if entries.len() == 0 {
        0
    } else {
        mem_total(entries.drop_last()) + entries.last().sample.mem_bytes as nat
    }
}

proof fn lemma_mem_of_part(entries: Seq<Entry>, pid: u32, gpu: usize)
    ensures
        mem_of(entries, pid, gpu) <= mem_total(entries),
    decreases entries.len(),
{
    if entries.len() > 0 {
        lemma_mem_of_part(entries.drop_last(), pid, gpu);
    }
}

proof fn lemma_mem_total_prefix(entries: Seq<Entry>, i: int)
    requires
        0 <= i <= entries.len(),
    ensures
        mem_total(entries.take(i)) <= mem_total(entries),
    decreases entries.len() - i,
{
    if i < entries.len() {
        lemma_mem_total_prefix(entries, i + 1);
        assert(entries.take(i + 1).drop_last() =~= entries.take(i));
    } else {
        assert(entries.take(i) =~= entries);
    }
}

/// `row` is the share of its process on its card.
pub open spec fn is_share(row: ProcShare, entries: Seq<Entry>) -> bool {
    &&& row.mem_bytes == mem_of(entries, row.pid, row.gpu)
    &&& row.graphics == graphics_of(entries, row.pid, row.gpu)
    &&& row.util@ == util_of(entries, row.pid, row.gpu)
}

/// Some entry is of this process on this card.
pub open spec fn is_listed(entries: Seq<Entry>, pid: u32, gpu: usize) -> bool {
    exists|i: int| 0 <= i < entries.len() && (#[trigger] entries[i]).pid == pid && entries[i].gpu == gpu
}

/// Whether the memory charged adds up within a `u64`.
pub fn mem_fits(entries: &Vec<Entry>) -> (b: bool)
    ensures
        b == (mem_total(entries@) <= u64::MAX),
{
    let mut sum: u64 = 0;
    let mut i: usize = 0;
    assert(entries@.take(0) =~= Seq::<Entry>::empty());
    while i < entries.len()
        invariant
            i <= entries.len(),
            sum == mem_total(entries@.take(i as int)),
        decreases entries.len() - i,
    {
        let v: u64 = entries[i].sample.mem_bytes;
        assert(entries@.take(i + 1).drop_last() =~= entries@.take(i as int));
        if sum > u64::MAX - v {
            proof {
                lemma_mem_total_prefix(entries@, i + 1);
            }
            return false;
        }
        sum = sum + v;
        i = i + 1;
    }
    assert(entries@.take(i as int) =~= entries@);
    true
}

/// The rows have one of that process on that card.
pub open spec fn has_share(rows: Seq<ProcShare>, pid: u32, gpu: usize) -> bool {
    exists|r: int| 0 <= r < rows.len() && (#[trigger] rows[r]).pid == pid && rows[r].gpu == gpu
}

/// `rows` are the process rows of a sweep: one per process and card that some
/// client counts for, each with its share.
pub open spec fn is_collected(rows: Seq<ProcShare>, entries: Seq<Entry>) -> bool {
    &&& forall|r: int| 0 <= r < rows.len() ==> is_share(#[trigger] rows[r], entries)
    &&& forall|r: int|
        0 <= r < rows.len() ==> is_listed(entries, (#[trigger] rows[r]).pid, rows[r].gpu)
    &&& forall|a: int, b: int|
        0 <= a < b < rows.len() ==> (#[trigger] rows[a]).pid != (#[trigger] rows[b]).pid
            || rows[a].gpu != rows[b].gpu
    &&& forall|i: int|
        0 <= i < entries.len() ==> has_share(rows, (#[trigger] entries[i]).pid, entries[i].gpu)
}

/// The process rows of a sweep.
#[verifier::spinoff_prover]
pub fn collect(entries: &Vec<Entry>) -> (rows: Vec<ProcShare>)
    requires
        mem_total(entries@) <= u64::MAX,
    ensures
        is_collected(rows@, entries@),
{
    let mut rows: Vec<ProcShare> = Vec::new();
    let mut i: usize = 0;
    while i < entries.len()
        invariant
            i <= entries.len(),
            mem_total(entries@) <= u64::MAX,
            forall|r: int|
                0 <= r < rows@.len() ==> is_share(#[trigger] rows@[r], entries@.take(i as int)),
            forall|r: int|
                0 <= r < rows@.len() ==> is_listed(
                    entries@.take(i as int),
                    (#[trigger] rows@[r]).pid,
                    rows@[r].gpu,
                ),
            forall|a: int, b: int|
                0 <= a < b < rows@.len() ==> (#[trigger] rows@[a]).pid != (#[trigger] rows@[b]).pid
                    || rows@[a].gpu != rows@[b].gpu,
            forall|k: int|
                0 <= k < i ==> has_share(rows@, (#[trigger] entries@[k]).pid, entries@[k].gpu),
        decreases entries.len() - i,
    {
        let e = entries[i];
        let ghost head = entries@.take(i as int);
        let ghost next = entries@.take(i + 1);
        let ghost was = rows@;
        assert(next.drop_last() =~= head);
        assert(next.last() == e);
        let mut at: usize = 0;
        while at < rows.len() && !(rows[at].pid == e.pid && rows[at].gpu == e.gpu)
            invariant
                at <= rows.len(),
                forall|r: int|
                    0 <= r < at ==> !((#[trigger] rows@[r]).pid == e.pid && rows@[r].gpu == e.gpu),
            decreases rows.len() - at,
        {
            at = at + 1;
        }
        proof {
            assert forall|pid: u32, gpu: usize| pid != e.pid || gpu != e.gpu implies mem_of(next, pid, gpu) == mem_of(head, pid, gpu)
                && util_of(next, pid, gpu) == util_of(head, pid, gpu) && graphics_of(next, pid, gpu) == graphics_of(head, pid, gpu) by {
                lemma_graphics_step(head, e, next, pid, gpu);
            }
            lemma_graphics_step(head, e, next, e.pid, e.gpu);
            lemma_mem_of_part(next, e.pid, e.gpu);
            lemma_mem_total_prefix(entries@, i + 1);
            assert forall|pid: u32, gpu: usize| is_listed(head, pid, gpu) implies is_listed(next, pid, gpu) by {
                let w = choose|w: int| 0 <= w < head.len() && (#[trigger] head[w]).pid == pid && head[w].gpu == gpu;
                assert(next[w].pid == pid);
            }
            assert(next[i as int].pid == e.pid);
            assert(is_listed(next, e.pid, e.gpu));
        }
        if at < rows.len() {
            assert(is_share(rows@[at as int], head));
            let row = &mut rows[at];
            row.mem_bytes = row.mem_bytes + e.sample.mem_bytes;
            row.graphics = row.graphics || e.sample.graphics;
            row.util.push(e.sample.util);
        } else {
            let mut util: Vec<Ratio> = Vec::new();
            util.push(e.sample.util);
            proof {
                assert(!has_share(rows@, e.pid, e.gpu));
                lemma_unlisted(head, rows@, e.pid, e.gpu, entries@, i as int);
                assert(util@ =~= util_of(next, e.pid, e.gpu));
            }
            rows.push(
                ProcShare {
                    pid: e.pid,
                    gpu: e.gpu,
                    mem_bytes: e.sample.mem_bytes,
                    graphics: e.sample.graphics,
                    util,
                },
            );
        }
        proof {
            assert forall|r: int| 0 <= r < rows@.len() implies is_share(#[trigger] rows@[r], next) by {
                if r < was.len() {
                    assert(is_share(was[r], head));
                    if r == at {
                        assert(rows@[r].util@ =~= util_of(next, e.pid, e.gpu));
                    } else {
                        assert(rows@[r] == was[r]);
                        if r > at && at < was.len() {
                            assert(was[at as int].pid != was[r].pid || was[at as int].gpu != was[r].gpu);
                        }
                    }
                }
            }
            assert forall|a: int, b: int| 0 <= a < b < rows@.len() implies (#[trigger] rows@[a]).pid != (#[trigger] rows@[b]).pid
                || rows@[a].gpu != rows@[b].gpu by {
                if b < was.len() {
                    assert(was[a].pid != was[b].pid || was[a].gpu != was[b].gpu);
                }
            }
            assert forall|r: int| 0 <= r < rows@.len() implies is_listed(next, (#[trigger] rows@[r]).pid, rows@[r].gpu) by {
                if r < was.len() {
                    assert(is_listed(head, was[r].pid, was[r].gpu));
                }
            }
            assert forall|k: int| 0 <= k < i + 1 implies has_share(
                rows@,
                (#[trigger] entries@[k]).pid,
                entries@[k].gpu,
            ) by {
                if k < i {
                    assert(has_share(was, entries@[k].pid, entries@[k].gpu));
                    let r = choose|r: int|
                        0 <= r < was.len() && (#[trigger] was[r]).pid == entries@[k].pid
                            && was[r].gpu == entries@[k].gpu;
                    assert(rows@[r].pid == was[r].pid && rows@[r].gpu == was[r].gpu);
                } else {
                    assert(rows@[at as int].pid == e.pid && rows@[at as int].gpu == e.gpu);
                }
            }
        }
        i = i + 1;
    }
    assert(entries@.take(i as int) =~= entries@);
    rows
}

proof fn lemma_graphics_step(head: Seq<Entry>, e: Entry, next: Seq<Entry>, pid: u32, gpu: usize)
    requires
        next.len() == head.len() + 1,
        next.drop_last() == head,
        next.last() == e,
    ensures
        graphics_of(next, pid, gpu) == (graphics_of(head, pid, gpu) || (e.pid == pid && e.gpu == gpu
            && e.sample.graphics)),
{
    if graphics_of(head, pid, gpu) {
        let w = choose|w: int| 0 <= w < head.len() && (#[trigger] head[w]).pid == pid && head[w].gpu == gpu && head[w].sample.graphics;
        assert(next[w] == next.drop_last()[w]);
    }
    if e.pid == pid && e.gpu == gpu && e.sample.graphics {
        assert(next[head.len() as int] == e);
    }
    if graphics_of(next, pid, gpu) {
        let w = choose|w: int| 0 <= w < next.len() && (#[trigger] next[w]).pid == pid && next[w].gpu == gpu && next[w].sample.graphics;
        if w < head.len() {
            assert(head[w] == next.drop_last()[w]);
        }
    }
}

proof fn lemma_unlisted(
    head: Seq<Entry>,
    rows: Seq<ProcShare>,
    pid: u32,
    gpu: usize,
    entries: Seq<Entry>,
    i: int,
)
    requires
        0 <= i <= entries.len(),
        head == entries.take(i),
        !has_share(rows, pid, gpu),
        forall|k: int|
            0 <= k < i ==> has_share(rows, (#[trigger] entries[k]).pid, entries[k].gpu),
    ensures
        mem_of(head, pid, gpu) == 0,
        util_of(head, pid, gpu) == Seq::<Ratio>::empty(),
        !graphics_of(head, pid, gpu),
{
    assert forall|k: int| 0 <= k < i implies !((#[trigger] head[k]).pid == pid && head[k].gpu == gpu) by {
        assert(head[k] == entries[k]);
    }
    lemma_none_of(head, pid, gpu);
}

proof fn lemma_none_of(head: Seq<Entry>, pid: u32, gpu: usize)
    requires
        forall|k: int| 0 <= k < head.len() ==> !((#[trigger] head[k]).pid == pid && head[k].gpu == gpu),
    ensures
        mem_of(head, pid, gpu) == 0,
        util_of(head, pid, gpu) == Seq::<Ratio>::empty(),
    decreases head.len(),
{
    if head.len() > 0 {
        assert(!(head[head.len() - 1].pid == pid && head[head.len() - 1].gpu == gpu));
        assert forall|k: int| 0 <= k < head.drop_last().len() implies !((#[trigger] head.drop_last()[k]).pid == pid && head.drop_last()[k].gpu == gpu) by {
            assert(head.drop_last()[k] == head[k]);
        }
        lemma_none_of(head.drop_last(), pid, gpu);
    }
}

/// The row of one process on one card. Its memory is a reading even at zero: a
/// client that names no region holds nothing.
pub fn build_proc(share: ProcShare) -> (row: RawProcess)
    ensures
        is_proc_row(row, share),
{
    RawProcess {
        pid: share.pid,
        gpu_index: share.gpu,
        kind: if share.graphics {
            ProcKind::Graphics
        } else {
            ProcKind::Compute
        },
        gpu_util_pct: Some(Figure::Shares(share.util)),
        gpu_mem_bytes: Some(share.mem_bytes),
    }
}

// ---------------------------------------------------------------- laws

/// The memory that the clients hold on a card.
pub open spec fn card_mem(entries: Seq<Entry>, gpu: usize) -> nat
    decreases entries.len(),
{
    if entries.len() == 0 {
        0
    } else {
        card_mem(entries.drop_last(), gpu) + (if entries.last().gpu == gpu {
            entries.last().sample.mem_bytes as nat
        } else {
            0
        })
    }
}

/// The shares that the clients take of a card, in whatever order.
pub open spec fn card_shares(entries: Seq<Entry>, gpu: usize) -> Multiset<Ratio>
    decreases entries.len(),
{
    if entries.len() == 0 {
        Multiset::empty()
    } else {
        let head = card_shares(entries.drop_last(), gpu);
        if entries.last().gpu == gpu {
            head.insert(entries.last().sample.util)
        } else {
            head
        }
    }
}

/// The memory that the rows of a card add up to.
pub open spec fn rows_mem(rows: Seq<ProcShare>, gpu: usize) -> nat
    decreases rows.len(),
{
    if rows.len() == 0 {
        0
    } else {
        rows_mem(rows.drop_last(), gpu) + (if rows.last().gpu == gpu {
            rows.last().mem_bytes as nat
        } else {
            0
        })
    }
}

/// The shares that the rows of a card add up.
pub open spec fn rows_shares(rows: Seq<ProcShare>, gpu: usize) -> Multiset<Ratio>
    decreases rows.len(),
{
    if rows.len() == 0 {
        Multiset::empty()
    } else {
        let head = rows_shares(rows.drop_last(), gpu);
        if rows.last().gpu == gpu {
            head.add(rows.last().util@.to_multiset())
        } else {
            head
        }
    }
}

/// The memory and shares that the processes of `rows` have in `entries`.
spec fn mem_over(rows: Seq<ProcShare>, entries: Seq<Entry>, gpu: usize) -> nat
    decreases rows.len(),
{
    if rows.len() == 0 {
        0
    } else {
        mem_over(rows.drop_last(), entries, gpu) + (if rows.last().gpu == gpu {
            mem_of(entries, rows.last().pid, gpu)
        } else {
            0
        })
    }
}

spec fn shares_over(rows: Seq<ProcShare>, entries: Seq<Entry>, gpu: usize) -> Multiset<Ratio>
    decreases rows.len(),
{
    if rows.len() == 0 {
        Multiset::empty()
    } else {
        let head = shares_over(rows.drop_last(), entries, gpu);
        if rows.last().gpu == gpu {
            head.add(util_of(entries, rows.last().pid, gpu).to_multiset())
        } else {
            head
        }
    }
}

spec fn distinct_rows(rows: Seq<ProcShare>) -> bool {
    forall|a: int, b: int|
        0 <= a < b < rows.len() ==> (#[trigger] rows[a]).pid != (#[trigger] rows[b]).pid
            || rows[a].gpu != rows[b].gpu
}

/// One more entry adds to exactly one row, where there is one for it.
proof fn lemma_over_step(rows: Seq<ProcShare>, entries: Seq<Entry>, gpu: usize)
    requires
        entries.len() > 0,
        distinct_rows(rows),
    ensures
        ({
            let e = entries.last();
            let head = entries.drop_last();
            let counts = e.gpu == gpu && has_share(rows, e.pid, gpu);
            &&& mem_over(rows, entries, gpu) == mem_over(rows, head, gpu) + (if counts {
                e.sample.mem_bytes as nat
            } else {
                0
            })
            &&& shares_over(rows, entries, gpu) == (if counts {
                shares_over(rows, head, gpu).insert(e.sample.util)
            } else {
                shares_over(rows, head, gpu)
            })
        }),
    decreases rows.len(),
{
    let e = entries.last();
    let head = entries.drop_last();
    if rows.len() > 0 {
        let rest = rows.drop_last();
        let last = rows.last();
        assert forall|a: int, b: int| 0 <= a < b < rest.len() implies (#[trigger] rest[a]).pid != (
        #[trigger] rest[b]).pid || rest[a].gpu != rest[b].gpu by {
            assert(rows[a] == rest[a] && rows[b] == rest[b]);
        }
        lemma_over_step(rest, entries, gpu);
        if has_share(rest, e.pid, gpu) {
            let r = choose|r: int|
                0 <= r < rest.len() && (#[trigger] rest[r]).pid == e.pid && rest[r].gpu == gpu;
            assert(rows[r] == rest[r]);
            assert(rows[rows.len() - 1] == last);
            assert(has_share(rows, e.pid, gpu));
            assert(last.pid != e.pid || last.gpu != gpu);
        } else if has_share(rows, e.pid, gpu) {
            let r = choose|r: int|
                0 <= r < rows.len() && (#[trigger] rows[r]).pid == e.pid && rows[r].gpu == gpu;
            if r < rest.len() {
                assert(rest[r] == rows[r]);
            }
            assert(r == rest.len());
        }
        if last.gpu == gpu {
            if last.pid == e.pid && e.gpu == gpu {
                assert(rows[rows.len() - 1] == last);
                let was = util_of(head, last.pid, gpu);
                was.to_multiset_ensures();
                assert(util_of(entries, last.pid, gpu) == was.push(e.sample.util));
                assert(shares_over(rows, entries, gpu) =~= shares_over(rows, head, gpu).insert(
                    e.sample.util,
                ));
            } else {
                assert(util_of(entries, last.pid, gpu) == util_of(head, last.pid, gpu));
                assert(mem_of(entries, last.pid, gpu) == mem_of(head, last.pid, gpu));
                let more = util_of(head, last.pid, gpu).to_multiset();
                if e.gpu == gpu && has_share(rest, e.pid, gpu) {
                    assert(shares_over(rest, head, gpu).insert(e.sample.util).add(more)
                        =~= shares_over(rest, head, gpu).add(more).insert(e.sample.util));
                }
            }
        }
    }
}

proof fn lemma_over_none(rows: Seq<ProcShare>, gpu: usize)
    ensures
        mem_over(rows, Seq::empty(), gpu) == 0,
        shares_over(rows, Seq::empty(), gpu) == Multiset::<Ratio>::empty(),
    decreases rows.len(),
{
    if rows.len() > 0 {
        lemma_over_none(rows.drop_last(), gpu);
        let none = util_of(Seq::empty(), rows.last().pid, gpu);
        none.to_multiset_ensures();
        assert(none.to_multiset() =~= Multiset::<Ratio>::empty());
        assert(shares_over(rows, Seq::empty(), gpu) =~= Multiset::<Ratio>::empty());
    }
}

proof fn lemma_over_all(rows: Seq<ProcShare>, entries: Seq<Entry>, gpu: usize)
    requires
        distinct_rows(rows),
        forall|i: int|
            0 <= i < entries.len() ==> has_share(rows, (#[trigger] entries[i]).pid, entries[i].gpu),
    ensures
        mem_over(rows, entries, gpu) == card_mem(entries, gpu),
        shares_over(rows, entries, gpu) == card_shares(entries, gpu),
    decreases entries.len(),
{
    if entries.len() == 0 {
        assert(entries =~= Seq::empty());
        lemma_over_none(rows, gpu);
    } else {
        let head = entries.drop_last();
        assert forall|i: int| 0 <= i < head.len() implies has_share(
            rows,
            (#[trigger] head[i]).pid,
            head[i].gpu,
        ) by {
            assert(head[i] == entries[i]);
        }
        lemma_over_all(rows, head, gpu);
        lemma_over_step(rows, entries, gpu);
        assert(has_share(rows, entries[entries.len() - 1].pid, entries[entries.len() - 1].gpu));
    }
}

proof fn lemma_rows_over(rows: Seq<ProcShare>, entries: Seq<Entry>, gpu: usize)
    requires
        forall|r: int| 0 <= r < rows.len() ==> is_share(#[trigger] rows[r], entries),
    ensures
        rows_mem(rows, gpu) == mem_over(rows, entries, gpu),
        rows_shares(rows, gpu) == shares_over(rows, entries, gpu),
    decreases rows.len(),
{
    if rows.len() > 0 {
        let rest = rows.drop_last();
        assert forall|r: int| 0 <= r < rest.len() implies is_share(#[trigger] rest[r], entries) by {
            assert(rest[r] == rows[r]);
        }
        lemma_rows_over(rest, entries, gpu);
        assert(is_share(rows[rows.len() - 1], entries));
    }
}

/// A card's gauges are the sums of its process rows: both come from the same
/// clients, and no client is lost or counted twice on the way.
pub proof fn the_gauges_are_the_sums_of_the_rows(
    rows: Seq<ProcShare>,
    entries: Seq<Entry>,
    gpu: usize,
)
    requires
        is_collected(rows, entries),
    ensures
        rows_mem(rows, gpu) == card_mem(entries, gpu),
        rows_shares(rows, gpu) == card_shares(entries, gpu),
{
    lemma_rows_over(rows, entries, gpu);
    lemma_over_all(rows, entries, gpu);
}

/// Every row names a card that some client of the walk was counted for.
pub proof fn rows_name_cards_that_were_read(rows: Seq<ProcShare>, entries: Seq<Entry>, cards: nat)
    requires
        is_collected(rows, entries),
        forall|i: int| 0 <= i < entries.len() ==> (#[trigger] entries[i]).gpu < cards,
    ensures
        forall|r: int| 0 <= r < rows.len() ==> (#[trigger] rows[r]).gpu < cards,
{
    assert forall|r: int| 0 <= r < rows.len() implies (#[trigger] rows[r]).gpu < cards by {
        assert(is_listed(entries, rows[r].pid, rows[r].gpu));
    }
}

/// A client belongs to the first card of its own address and driver: where
/// there is such a card it is attributed, where its address or its driver is
/// another's it is not, and without an address it is nobody's.
pub proof fn a_client_belongs_where_address_and_driver_agree(
    devices: Seq<SweepDevice>,
    c: FdClient,
    g: int,
)
    requires
        0 <= g < devices.len(),
    ensures
        device_of(devices, c) matches Some(d) ==> 0 <= d < devices.len() && c.pdev is Some
            && opt_text(devices[d].pdev) == opt_text(c.pdev) && devices[d].driver@ == c.driver@,
        c.pdev is Some && opt_text(devices[g].pdev) == opt_text(c.pdev) && devices[g].driver@
            == c.driver@ ==> (device_of(devices, c) matches Some(d) && d <= g),
        c.pdev is None ==> device_of(devices, c) is None,
{
    lemma_device_in_range(devices, c, 0);
    lemma_device_found(devices, c, 0, g);
}

proof fn lemma_device_found(devices: Seq<SweepDevice>, c: FdClient, from: int, g: int)
    requires
        0 <= from <= g < devices.len(),
    ensures
        belongs(devices[g], c) ==> (device_from(devices, c, from) matches Some(d) && d <= g),
    decreases g - from,
{
    if from < g {
        lemma_device_found(devices, c, from + 1, g);
    }
}

/// Every client that belongs to a card is counted, however many descriptors it
/// has open: some descriptor of the same process and client is.
pub proof fn no_client_is_lost(
    clients: Seq<(u32, FdClient)>,
    devices: Seq<SweepDevice>,
    n: nat,
    i: int,
)
    requires
        0 <= i < n <= clients.len(),
        clients.len() <= usize::MAX,
        devices.len() <= usize::MAX,
        device_of(devices, clients[i].1) is Some,
    ensures
        exists|x: int|
            0 <= x < assignments(clients, devices, n).len() && {
                let a = #[trigger] assignments(clients, devices, n)[x];
                clients[a.client as int].0 == clients[i].0 && clients[a.client as int].1.id
                    == clients[i].1.id && a.client <= i
            },
    decreases n, i,
{
    let all = assignments(clients, devices, n);
    if i < n - 1 {
        let head = assignments(clients, devices, (n - 1) as nat);
        no_client_is_lost(clients, devices, (n - 1) as nat, i);
        let x = choose|x: int|
            0 <= x < head.len() && {
                let a = #[trigger] head[x];
                clients[a.client as int].0 == clients[i].0 && clients[a.client as int].1.id
                    == clients[i].1.id && a.client <= i
            };
        assert(all[x] == head[x]);
    } else if counted_before(clients, devices, i) {
        let j = choose|j: int|
            0 <= j < i && (#[trigger] clients[j]).0 == clients[i].0 && clients[j].1.id
                == clients[i].1.id && device_of(devices, clients[j].1) is Some;
        no_client_is_lost(clients, devices, n, j);
        let x = choose|x: int|
            0 <= x < all.len() && {
                let a = #[trigger] all[x];
                clients[a.client as int].0 == clients[j].0 && clients[a.client as int].1.id
                    == clients[j].1.id && a.client <= j
            };
        assert(clients[all[x].client as int].0 == clients[i].0);
    } else {
        let head = assignments(clients, devices, (n - 1) as nat);
        assert(all[head.len() as int].client == i);
    }
}

/// No client is counted twice, and each for a card of its own address and
/// driver.
pub proof fn no_client_is_counted_twice(
    clients: Seq<(u32, FdClient)>,
    devices: Seq<SweepDevice>,
    x: int,
    y: int,
)
    requires
        clients.len() <= usize::MAX,
        devices.len() <= usize::MAX,
        0 <= x < y < assignments(clients, devices, clients.len()).len(),
    ensures
        ({
            let a = assignments(clients, devices, clients.len())[x];
            let b = assignments(clients, devices, clients.len())[y];
            &&& clients[a.client as int].0 != clients[b.client as int].0
                || clients[a.client as int].1.id != clients[b.client as int].1.id
            &&& a.gpu < devices.len() && a.client < clients.len()
            &&& opt_text(devices[a.gpu as int].pdev) == opt_text(clients[a.client as int].1.pdev)
            &&& devices[a.gpu as int].driver@ == clients[a.client as int].1.driver@
            &&& clients[a.client as int].1.pdev is Some
        }),
{
    lemma_assignments(clients, devices, clients.len());
    let a = assignments(clients, devices, clients.len())[x];
    let b = assignments(clients, devices, clients.len())[y];
    lemma_device_in_range(devices, clients[a.client as int].1, 0);
}

/// A counter that rose by `d` while the clock rose by `w` was busy for that
/// part of the time, and for all of it where it rose by more; a counter that
/// fell, a clock that did not move and a first reading measure nothing.
pub proof fn a_share_is_busy_time_over_time(was: u64, at: u64, d: u64, w: u64, less: u64)
    requires
        was + d <= u64::MAX,
        at + w <= u64::MAX,
        less <= was,
    ensures
        0 < w && d <= w ==> busy_share(Some((was, at)), (was + d) as u64, (at + w) as u64) == (
        Ratio { num: d, den: w }),
        0 < w <= d ==> busy_share(Some((was, at)), (was + d) as u64, (at + w) as u64) == (Ratio {
            num: w,
            den: w,
        }),
        busy_share(Some((was, at)), less, (at + w) as u64).num == 0,
        busy_share(Some((was, at)), (was + d) as u64, at).num == 0,
        busy_share(None, (was + d) as u64, (at + w) as u64).num == 0,
{
}

/// A busier engine never has the smaller share.
pub proof fn shares_rise_with_busy_time(was: u64, at: u64, a: u64, b: u64, now: u64)
    requires
        a <= b,
    ensures
        busy_share(Some((was, at)), a, now).num <= busy_share(Some((was, at)), b, now).num,
        busy_share(Some((was, at)), a, now).den == busy_share(Some((was, at)), b, now).den,
{
}

/// How far a counter rose is what must be put on top of the old value to reach
/// the new one; it never falls.
pub proof fn a_rise_reaches_the_new_value(a: u64, b: u64)
    ensures
        a >= b ==> b + rise(a, b) == a,
        a <= b ==> rise(a, b) == 0,
{
}

/// The busiest engine is one of the accepted ones, and none of them is busier:
/// its cycles over its total are the share, at most all.
pub proof fn the_busiest_engine_decides(
    r: Ratio,
    cur: Map<Seq<char>, (u64, u64)>,
    was: Map<Seq<char>, (u64, u64)>,
    p: spec_fn(Seq<char>) -> bool,
    k: Seq<char>,
)
    requires
        busiest_capped(r, cur, was, p),
        cur.dom().contains(k),
        was.dom().contains(k),
        p(k),
        cur[k].0 >= was[k].0,
        cur[k].1 > was[k].1,
        cur[k].0 - was[k].0 <= cur[k].1 - was[k].1,
    ensures
        (cur[k].0 - was[k].0) * r.den <= r.num * (cur[k].1 - was[k].1),
        (forall|o: Seq<char>| cur.dom().contains(o) && p(o) ==> o == k) ==> r.num * (cur[k].1
            - was[k].1) == (cur[k].0 - was[k].0) * r.den,
{
    let best = choose|best: Ratio| #[trigger] busiest(best, cur, was, p) && r == at_most_all(best);
    assert(ran(cur, was, p, k));
    let c = cycle_rise(cur, was, k);
    let up = c.0 as int;
    let dt = c.1 as int;
    assert(up == cur[k].0 - was[k].0 && dt == cur[k].1 - was[k].1);
    if best.num > best.den {
        assert(up * r.den <= r.num * dt) by (nonlinear_arith)
            requires
                r.num == r.den,
                up <= dt,
                r.den >= 0,
        ;
    }
    if forall|o: Seq<char>| cur.dom().contains(o) && p(o) ==> o == k {
        if best == (Ratio { num: 0, den: 1 }) {
            assert(up * 1 <= 0 * dt);
            assert(up == 0) by (nonlinear_arith)
                requires
                    up * 1 <= 0 * dt,
                    up >= 0,
            ;
            assert(r.num * dt == up * r.den) by (nonlinear_arith)
                requires
                    r.num == 0,
                    up == 0,
            ;
        } else {
            let o = choose|o: Seq<char>|
                #[trigger] ran(cur, was, p, o) && cycle_rise(cur, was, o) == (best.num, best.den);
            assert(o == k);
            assert(r.num * dt == up * r.den) by (nonlinear_arith)
                requires
                    r.num == up,
                    r.den == dt,
            ;
        }
    }
}

/// What a process row shows is that of its own clients on its own card: it is a
/// graphics process where one of them is, it holds what they hold together, and
/// a client of another process or card changes nothing of it.
pub proof fn a_row_shows_its_own_clients(
    rows: Seq<ProcShare>,
    entries: Seq<Entry>,
    r: int,
    e: Entry,
)
    requires
        is_collected(rows, entries),
        0 <= r < rows.len(),
    ensures
        rows[r].graphics <==> exists|i: int|
            0 <= i < entries.len() && (#[trigger] entries[i]).pid == rows[r].pid && entries[i].gpu
                == rows[r].gpu && entries[i].sample.graphics,
        e.pid == rows[r].pid && e.gpu == rows[r].gpu ==> mem_of(
            entries.push(e),
            rows[r].pid,
            rows[r].gpu,
        ) == rows[r].mem_bytes + e.sample.mem_bytes && util_of(
            entries.push(e),
            rows[r].pid,
            rows[r].gpu,
        ) == rows[r].util@.push(e.sample.util),
        !(e.pid == rows[r].pid && e.gpu == rows[r].gpu) ==> mem_of(
            entries.push(e),
            rows[r].pid,
            rows[r].gpu,
        ) == rows[r].mem_bytes && util_of(entries.push(e), rows[r].pid, rows[r].gpu)
            == rows[r].util@,
        mem_of(Seq::empty(), rows[r].pid, rows[r].gpu) == 0,
        util_of(Seq::empty(), rows[r].pid, rows[r].gpu).len() == 0,
{
    assert(entries.push(e).drop_last() =~= entries);
    assert(is_share(rows[r], entries));
}

/// A process row carries its share on: the same process and card, its shares as
/// the utilization, all of its memory, and its kind.
pub proof fn kinds_follow_the_engines(share: ProcShare, row: RawProcess)
    requires
        is_proc_row(row, share),
    ensures
        row.pid == share.pid && row.gpu_index == share.gpu,
        row.kind == ProcKind::Graphics <==> share.graphics,
        row.gpu_mem_bytes == Some(share.mem_bytes),
        row.gpu_util_pct matches Some(Figure::Shares(v)) && v@ == share.util@,
{
}

/// `row` is the row of a share.
pub open spec fn is_proc_row(row: RawProcess, share: ProcShare) -> bool {
    row == (RawProcess {
        pid: share.pid,
        gpu_index: share.gpu,
        kind: if share.graphics {
            ProcKind::Graphics
        } else {
            ProcKind::Compute
        },
        gpu_util_pct: Some(Figure::Shares(share.util)),
        gpu_mem_bytes: Some(share.mem_bytes),
    })
}

} // verus!
