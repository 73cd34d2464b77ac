//! The process table's refresh: which processes to ask the host about, what a
//! row takes from the backend and what from the host, and the order rows are
//! kept in.
use vstd::prelude::*;
use crate::app::process::{cached_container, record_keys, sort_record, sorted_by, ProcRow};
use crate::app::table::{cursor_after, table_is_current};
use crate::app::App;
use crate::backend::{opt_text, GpuProcess};
use crate::keyed::views;
use crate::order::{is_sorted_order, precedes, sorted_order, Key4, Real32};
use crate::text::{join, join_texts, string_texts, trim, trim_text, trimming_takes_off_both_ends};

verus! {

/// What the host knows of a live process.
#[derive(Debug)]
pub struct HostProcess {
    pub user: Option<String>,
    pub cpu_pct: Real32,
    pub mem_bytes: u64,
    pub command: String,
    pub start_time: u64,
}

/// What one refresh asks the host for.
#[derive(Debug)]
pub struct RefreshPlan {
    /// The pids to refresh, each once, ascending.
    pub pids: Vec<u32>,
    /// Whether to ask for CPU time too.
    pub sample_cpu: bool,
}

/// The longest interval that CPU usage is measured over on any platform.
pub const LONGEST_CPU_INTERVAL_NS: u64 = 200_000_000;

/// sysinfo's `MINIMUM_CPU_UPDATE_INTERVAL`, in nanoseconds. The value depends on
/// the platform. Claimed: it is a fifth of a second at most.
#[verifier::external_body]
fn minimum_cpu_interval_ns() -> (ns: u64)
    ensures
        ns <= LONGEST_CPU_INTERVAL_NS,
{
    sysinfo::MINIMUM_CPU_UPDATE_INTERVAL.as_nanos() as u64
}

/// A CPU sample is due when none was taken yet or the last is at least
/// `interval` old.
pub open spec fn sample_due(last: Option<u64>, now_ns: u64, interval: u64) -> bool {
    last matches Some(at) ==> now_ns - at >= interval
}

/// Whether a CPU sample is due, given the interval that usage can be measured
/// over.
pub fn cpu_sample_due_after(last: Option<u64>, now_ns: u64, interval: u64) -> (b: bool)
    ensures
        b == sample_due(last, now_ns, interval),
{
    match last {
        None => true,
        Some(at) => now_ns >= at && now_ns - at >= interval,
    }
}

/// `b` is whether a sample is due on a platform of some interval.
pub open spec fn due_somewhere(last: Option<u64>, now_ns: u64, b: bool) -> bool {
    exists|interval: u64|
        interval <= LONGEST_CPU_INTERVAL_NS && b == #[trigger] sample_due(last, now_ns, interval)
}

/// Whether this refresh should ask for CPU time, given when it last did: never
/// more often than the host can measure it, and always once any host could.
pub fn cpu_sample_due(last: Option<u64>, now_ns: u64) -> (b: bool)
    ensures
        last is None ==> b,
        sample_due(last, now_ns, LONGEST_CPU_INTERVAL_NS) ==> b,
        due_somewhere(last, now_ns, b),
{
    let interval: u64 = minimum_cpu_interval_ns();
    let due = cpu_sample_due_after(last, now_ns, interval);
    assert(due == sample_due(last, now_ns, interval));
    due
}

/// `pids` holds exactly the pids of `procs`, each once, ascending.
pub open spec fn distinct_pids(pids: Seq<u32>, procs: Seq<GpuProcess>) -> bool {
    &&& forall|i: int, j: int| 0 <= i < j < pids.len() ==> pids[i] < pids[j]
    &&& forall|i: int| 0 <= i < procs.len() ==> pids.contains(#[trigger] procs[i].pid)
    &&& forall|i: int|
        0 <= i < pids.len() ==> exists|k: int|
            0 <= k < procs.len() && (#[trigger] procs[k]).pid == #[trigger] pids[i]
}

/// The pids of `procs`, each once, ascending: a process on several cards is
/// listed once per card.
pub fn pids_of(procs: &Vec<GpuProcess>) -> (pids: Vec<u32>)
    ensures
        distinct_pids(pids@, procs@),
{
    let mut keys: Vec<Key4> = Vec::new();
    let mut i: usize = 0;
    while i < procs.len()
        invariant
            i <= procs.len(),
            keys@.len() == i,
            forall|k: int|
                0 <= k < i ==> #[trigger] keys@[k] == (Key4 {
                    a: procs@[k].pid as i128,
                    b: 0,
                    c: 0,
                    d: 0,
                }),
        decreases procs.len() - i,
    {
        keys.push(Key4 { a: procs[i].pid as i128, b: 0, c: 0, d: 0 });
        i = i + 1;
    }
    let p = sorted_order(&keys);
    let mut pids: Vec<u32> = Vec::new();
    let mut j: usize = 0;
    while j < p.len()
        invariant
            j <= p.len(),
            is_sorted_order(keys@, p@),
            keys@.len() == procs@.len(),
            forall|k: int|
                0 <= k < keys@.len() ==> #[trigger] keys@[k] == (Key4 {
                    a: procs@[k].pid as i128,
                    b: 0,
                    c: 0,
                    d: 0,
                }),
            forall|a: int, b: int| 0 <= a < b < pids@.len() ==> pids@[a] < pids@[b],
            forall|k: int| 0 <= k < j ==> pids@.contains(procs@[#[trigger] p@[k] as int].pid),
            forall|a: int|
                0 <= a < pids@.len() ==> exists|k: int|
                    0 <= k < procs@.len() && (#[trigger] procs@[k]).pid == #[trigger] pids@[a],
            j > 0 ==> pids@.len() > 0 && pids@.last() == procs@[p@[j - 1] as int].pid,
            j == 0 ==> pids@.len() == 0,
        decreases p.len() - j,
    {
        let at: usize = p[j];
        let pid: u32 = procs[at].pid;
        let ghost was = pids@;
        let fresh = if pids.len() == 0 {
            true
        } else {
            pids[pids.len() - 1] != pid
        };
        proof {
            if j > 0 {
                assert(precedes(keys@, p@[j - 1] as int, p@[j as int] as int));
            }
        }
        if fresh {
            pids.push(pid);
            proof {
                assert(procs@[at as int].pid == pids@[pids@.len() - 1]);
                assert forall|k: int| 0 <= k < j implies pids@.contains(procs@[#[trigger] p@[k] as int].pid) by {
                    let w = choose|w: int| 0 <= w < was.len() && was[w] == procs@[p@[k] as int].pid;
                    assert(pids@[w] == procs@[p@[k] as int].pid);
                }
                assert forall|a: int| 0 <= a < pids@.len() implies exists|k: int|
                    0 <= k < procs@.len() && (#[trigger] procs@[k]).pid == #[trigger] pids@[a] by {
                    if a < was.len() {
                        assert(pids@[a] == was[a]);
                    }
                }
            }
        }
        assert(pids@[pids@.len() - 1] == pid);
        j = j + 1;
    }
    proof {
        assert forall|k: int| 0 <= k < procs@.len() implies pids@.contains(#[trigger] procs@[k].pid) by {
            assert(p@.contains(k as usize));
            let w = choose|w: int| 0 <= w < p@.len() && p@[w] == k as usize;
            assert(pids@.contains(procs@[p@[w] as int].pid));
        }
    }
    pids
}

/// The cached pids that are no longer on a card, in order.
pub fn departed(cached: &Vec<u32>, live: &Vec<u32>) -> (out: Vec<u32>)
    ensures
        out@ == cached@.filter(|p: u32| !live@.contains(p)),
{
    let ghost away = |p: u32| !live@.contains(p);
    let mut out: Vec<u32> = Vec::new();
    let mut i: usize = 0;
    assert(cached@.take(0) =~= Seq::<u32>::empty());
    reveal(Seq::filter);
    while i < cached.len()
        invariant
            i <= cached.len(),
            away == (|p: u32| !live@.contains(p)),
            out@ == cached@.take(i as int).filter(away),
        decreases cached.len() - i,
    {
        reveal(Seq::filter);
        assert(cached@.take(i + 1).drop_last() =~= cached@.take(i as int));
        if !holds_pid(live, cached[i]) {
            out.push(cached[i]);
        }
        i = i + 1;
    }
    assert(cached@.take(i as int) =~= cached@);
    out
}

fn holds_pid(live: &Vec<u32>, pid: u32) -> (b: bool)
    ensures
        b == live@.contains(pid),
{
    let mut i: usize = 0;
    while i < live.len()
        invariant
            i <= live.len(),
            forall|k: int| 0 <= k < i ==> live@[k] != pid,
        decreases live.len() - i,
    {
        if live[i] == pid {
            return true;
        }
        i = i + 1;
    }
    false
}

/// A process's command line, or its name where the line is blank.
pub fn command_of(args: &Vec<String>, name: &str) -> (s: String)
    ensures
        s@ == command_line(string_texts(args@), name@),
{
    let cmd = join_texts(args, " ");
    if trim_text(cmd.as_str()).as_str().is_empty() {
        name.to_owned()
    } else {
        cmd
    }
}

/// The recorded text, else the host's, else `fallback`.
pub open spec fn told(recorded: Option<String>, host: Option<Seq<char>>, fallback: Seq<char>) -> Seq<
    char,
> {
    match (recorded, host) {
        (Some(s), _) => s@,
        (None, Some(s)) => s,
        (None, None) => fallback,
    }
}

impl App {
    /// Decides what a refresh for these GPU processes asks the host for, and
    /// notes the time where it asks for CPU time.
    pub fn plan_refresh(&mut self, procs: &Vec<GpuProcess>, now_ns: u64) -> (plan: RefreshPlan)
        ensures
            distinct_pids(plan.pids@, procs@),
            sample_due(old(self).last_cpu_sample, now_ns, LONGEST_CPU_INTERVAL_NS)
                ==> plan.sample_cpu,
            due_somewhere(old(self).last_cpu_sample, now_ns, plan.sample_cpu),
            *final(self) == (App {
                last_cpu_sample: if plan.sample_cpu {
                    Some(now_ns)
                } else {
                    old(self).last_cpu_sample
                },
                ..*old(self)
            }),
    {
        let sample_cpu = cpu_sample_due(self.last_cpu_sample, now_ns);
        if sample_cpu {
            self.last_cpu_sample = Some(now_ns);
        }
        RefreshPlan { pids: pids_of(procs), sample_cpu }
    }

    /// The table row of a GPU process: what the backend recorded wins over what
    /// the host says, and what neither knows stays unknown. `read` resolves the
    /// container, and is asked only where the backend recorded none and the
    /// cache has no answer.
    pub fn enrich<F: FnOnce() -> Option<String>>(
        &mut self,
        gp: GpuProcess,
        host: Option<HostProcess>,
        read: F,
    ) -> (row: ProcRow)
        requires
            old(self).wf(),
            call_requires(read, ()),
        ensures
            final(self).wf(),
            *final(self) == (App { containers: final(self).containers, ..*old(self) }),
            is_enriched(row, gp, host),
            match (gp.container, host) {
                (Some(c), _) => {
                    &&& opt_text(row.container) == Some(c@)
                    &&& final(self).containers == old(self).containers
                },
                (None, Some(p)) => {
                    let id = (gp.pid, p.start_time);
                    let before = old(self).containers@;
                    let after = final(self).containers@;
                    &&& after.dom().contains(id)
                    &&& opt_text(row.container) == opt_text(after[id])
                    &&& before.dom().contains(id) ==> after == before
                    &&& !before.dom().contains(id) ==> call_ensures(read, (), after[id]) && after
                        == before.insert(id, after[id])
                },
                (None, None) => {
                    &&& call_ensures(read, (), row.container)
                    &&& final(self).containers == old(self).containers
                },
            },
    {
        let container = match (gp.container, &host) {
            (Some(c), _) => Some(c),
            (None, Some(p)) => cached_container(&mut self.containers, gp.pid, p.start_time, read),
            (None, None) => read(),
        };
        let cpu_pct = match (gp.cpu_pct, &host) {
            (Some(v), _) => Some(v),
            (None, Some(p)) => Some(p.cpu_pct),
            (None, None) => None,
        };
        let host_mem_bytes = match (gp.host_mem_bytes, &host) {
            (Some(v), _) => Some(v),
            (None, Some(p)) => Some(p.mem_bytes),
            (None, None) => None,
        };
        let (host_user, host_command) = match host {
            Some(p) => (p.user, Some(p.command)),
            None => (None, None),
        };
        let user = match (gp.user, host_user) {
            (Some(s), _) => s,
            (None, Some(s)) => s,
            (None, None) => "-".to_owned(),
        };
        let command = match (gp.command, host_command) {
            (Some(s), _) => s,
            (None, Some(s)) => s,
            (None, None) => "?".to_owned(),
        };
        ProcRow {
            pid: gp.pid,
            gpu_index: gp.gpu_index,
            kind: gp.kind,
            gpu_util_pct: gp.gpu_util_pct,
            gpu_mem_bytes: gp.gpu_mem_bytes,
            user,
            cpu_pct,
            host_mem_bytes,
            command,
            container,
        }
    }

    /// Takes over the rows of a refresh: keeps them in record order, forgets
    /// the containers of processes no longer on a card, and shows the table.
    pub fn set_processes(&mut self, rows: Vec<ProcRow>, live: &Vec<u32>)
        requires
            old(self).wf(),
        ensures
            final(self).wf(),
            sorted_by(final(self).all_procs@, rows@, record_keys(rows@)),
            table_is_current(final(self)),
            final(self).proc_sel == cursor_after(
                old(self).procs@,
                old(self).proc_sel,
                final(self).procs@,
            ),
            containers_pruned(old(self).containers@, final(self).containers@, live@),
            *final(self) == (App {
                all_procs: final(self).all_procs,
                containers: final(self).containers,
                procs: final(self).procs,
                proc_sel: final(self).proc_sel,
                ..*old(self)
            }),
    {
        self.all_procs = sort_record(&rows);
        let ghost before = self.containers@;
        let ids = self.containers.keys();
        let ghost all = views(ids@);
        let mut i: usize = 0;
        while i < ids.len()
            invariant
                i <= ids.len(),
                all == views(ids@),
                all.to_set() == before.dom(),
                all.no_duplicates(),
                self.wf(),
                *self == (App {
                    all_procs: self.all_procs,
                    containers: self.containers,
                    ..*old(self)
                }),
                sorted_by(self.all_procs@, rows@, record_keys(rows@)),
                forall|id: (u32, u64)|
                    #[trigger] self.containers@.dom().contains(id) <==> before.dom().contains(id)
                        && (live@.contains(id.0) || !all.take(i as int).contains(id)),
                forall|id: (u32, u64)|
                    self.containers@.dom().contains(id) ==> #[trigger] self.containers@[id]
                        == before[id],
            decreases ids.len() - i,
        {
            let ghost was = self.containers@;
            proof {
                assert(all.take(i + 1) =~= all.take(i as int).push(all[i as int]));
                assert forall|id: (u32, u64)| all.take(i + 1).contains(id) <==> (all.take(i as int).contains(id) || id == all[i as int]) by {
                    if all.take(i as int).contains(id) {
                        let w = choose|w: int| 0 <= w < i && all.take(i as int)[w] == id;
                        assert(all.take(i + 1)[w] == id);
                    }
                    if id == all[i as int] {
                        assert(all.take(i + 1)[i as int] == id);
                    }
                }
            }
            if !holds_pid(live, ids[i].pid) {
                self.containers.remove(&ids[i]);
            }
            i = i + 1;
        }
        proof {
            assert(all.take(i as int) =~= all);
            assert forall|id: (u32, u64)| before.dom().contains(id) implies all.contains(id) by {
                assert(all.to_set().contains(id));
            }
        }
        self.rebuild_proc_view();
    }
}

// ---------------------------------------------------------------- laws

/// CPU time is asked for at once, then no sooner than the interval has passed,
/// and always from then on.
pub proof fn cpu_samples_keep_their_distance(last: u64, now_ns: u64, later: u64, interval: u64)
    ensures
        sample_due(None, now_ns, interval),
        last <= now_ns < last + interval ==> !sample_due(Some(last), now_ns, interval),
        now_ns >= last + interval ==> sample_due(Some(last), now_ns, interval),
        now_ns <= later && sample_due(Some(last), now_ns, interval) ==> sample_due(
            Some(last),
            later,
            interval,
        ),
        LONGEST_CPU_INTERVAL_NS * 5 == 1_000_000_000,
{
}

/// What the backend recorded counts before what the host says, and that before
/// the placeholder.
pub proof fn a_recorded_text_counts_first(
    recorded: String,
    host: Seq<char>,
    said: Option<Seq<char>>,
    fallback: Seq<char>,
)
    ensures
        told(Some(recorded), said, fallback) == recorded@,
        told(None, Some(host), fallback) == host,
        told(None, None, fallback) == fallback,
{
}

/// Every process is asked for once, however many cards it is on.
pub proof fn every_process_is_asked_for_once(pids: Seq<u32>, procs: Seq<GpuProcess>, i: int)
    requires
        distinct_pids(pids, procs),
        0 <= i < procs.len(),
    ensures
        pids.contains(procs[i].pid),
        pids.no_duplicates(),
        forall|p: u32| #[trigger] pids.contains(p) ==> exists|k: int|
            0 <= k < procs.len() && (#[trigger] procs[k]).pid == p,
{
    assert(pids.contains(procs[i].pid));
    assert forall|p: u32| #[trigger] pids.contains(p) implies exists|k: int|
        0 <= k < procs.len() && (#[trigger] procs[k]).pid == p by {
        let w = choose|w: int| 0 <= w < pids.len() && pids[w] == p;
        let k = choose|k: int| 0 <= k < procs.len() && (#[trigger] procs[k]).pid == pids[w];
        assert(procs[k].pid == p);
    }
}

/// The command line of a process: its arguments in a row, or its name where
/// they are blank.
pub open spec fn command_line(args: Seq<Seq<char>>, name: Seq<char>) -> Seq<char> {
    if trim(join(args, " "@)).len() == 0 {
        name
    } else {
        join(args, " "@)
    }
}

/// `row` is what the backend reported of the process, filled up with what the
/// host knows of it; its container aside.
pub open spec fn is_enriched(row: ProcRow, gp: GpuProcess, host: Option<HostProcess>) -> bool {
    &&& row.pid == gp.pid
    &&& row.gpu_index == gp.gpu_index
    &&& row.kind == gp.kind
    &&& row.gpu_util_pct == gp.gpu_util_pct
    &&& row.gpu_mem_bytes == gp.gpu_mem_bytes
    &&& row.user@ == told(
        gp.user,
        match host {
            Some(p) => opt_text(p.user),
            None => None,
        },
        "-"@,
    )
    &&& row.command@ == told(
        gp.command,
        match host {
            Some(p) => Some(p.command@),
            None => None,
        },
        "?"@,
    )
    &&& row.cpu_pct == (match (gp.cpu_pct, host) {
        (Some(v), _) => Some(v),
        (None, Some(p)) => Some(p.cpu_pct),
        (None, None) => None,
    })
    &&& row.host_mem_bytes == (match (gp.host_mem_bytes, host) {
        (Some(v), _) => Some(v),
        (None, Some(p)) => Some(p.mem_bytes),
        (None, None) => None,
    })
}

/// The containers of processes that are gone are forgotten, the others kept.
pub open spec fn containers_pruned(
    before: Map<(u32, u64), Option<String>>,
    after: Map<(u32, u64), Option<String>>,
    live: Seq<u32>,
) -> bool {
    &&& forall|id: (u32, u64)| #[trigger]
        after.dom().contains(id) <==> before.dom().contains(id) && live.contains(id.0)
    &&& forall|id: (u32, u64)| after.dom().contains(id) ==> #[trigger] after[id] == before[id]
}

/// A command is shown as it was given, argument by argument; one that is blank
/// goes by the process's name.
pub proof fn a_blank_command_goes_by_its_name(first: Seq<char>, second: Seq<char>, name: Seq<char>)
    ensures
        trim(first).len() > 0 ==> command_line(seq![first], name) == first,
        trim(first + " "@ + second).len() > 0 ==> command_line(seq![first, second], name) == first
            + " "@ + second,
        trim(first).len() == 0 ==> command_line(seq![first], name) == name,
        command_line(Seq::empty(), name) == name,
{
    let one = seq![first];
    let two = seq![first, second];
    assert(two.drop_last() =~= one);
    assert(join(one, " "@) == first);
    assert(join(two, " "@) == first + " "@ + second);
    assert(join(Seq::empty(), " "@).len() == 0);
    assert(join(Seq::empty(), " "@) =~= Seq::<char>::empty());
    trimming_takes_off_both_ends(Seq::empty(), Seq::empty(), Seq::empty());
    assert(Seq::<char>::empty() + Seq::<char>::empty() + Seq::<char>::empty() =~= Seq::<
        char,
    >::empty());
}

/// What the backend recorded of a process counts before what the host knows of
/// it; what neither knows is unknown.
pub proof fn what_was_recorded_counts_first(row: ProcRow, gp: GpuProcess, host: Option<HostProcess>)
    requires
        is_enriched(row, gp, host),
    ensures
        row.pid == gp.pid && row.gpu_index == gp.gpu_index && row.kind == gp.kind,
        row.gpu_util_pct == gp.gpu_util_pct && row.gpu_mem_bytes == gp.gpu_mem_bytes,
        gp.user matches Some(u) ==> row.user@ == u@,
        gp.command matches Some(c) ==> row.command@ == c@,
        gp.cpu_pct is Some ==> row.cpu_pct == gp.cpu_pct,
        gp.host_mem_bytes is Some ==> row.host_mem_bytes == gp.host_mem_bytes,
        gp.user is None ==> (host matches Some(p) ==> (p.user matches Some(u) ==> row.user@ == u@)),
        gp.command is None ==> (host matches Some(p) ==> row.command@ == p.command@),
        gp.cpu_pct is None ==> (host matches Some(p) ==> row.cpu_pct == Some(p.cpu_pct)),
        gp.host_mem_bytes is None ==> (host matches Some(p) ==> row.host_mem_bytes == Some(
            p.mem_bytes,
        )),
        gp.user is None && host is None ==> row.user@ == "-"@,
        gp.command is None && host is None ==> row.command@ == "?"@,
        gp.cpu_pct is None && host is None ==> row.cpu_pct is None,
        gp.host_mem_bytes is None && host is None ==> row.host_mem_bytes is None,
{
}

/// A container is remembered as long as its process lives, and as it was
/// resolved.
pub proof fn containers_of_the_living_are_kept(
    before: Map<(u32, u64), Option<String>>,
    after: Map<(u32, u64), Option<String>>,
    live: Seq<u32>,
    id: (u32, u64),
)
    requires
        containers_pruned(before, after, live),
    ensures
        live.contains(id.0) && before.dom().contains(id) ==> after.dom().contains(id) && after[id]
            == before[id],
        !live.contains(id.0) ==> !after.dom().contains(id),
        !before.dom().contains(id) ==> !after.dom().contains(id),
{
    assert(after.dom().contains(id) <==> before.dom().contains(id) && live.contains(id.0));
}

} // verus!
