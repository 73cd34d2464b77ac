//! The process table: its rows, their order, the filter over them, and the
//! host facts (container, start time) that identify a process.
use vstd::prelude::*;
use crate::app::SortBy;
use crate::backend::{opt_text, ProcKind};
use crate::keyed::{Keyed, KeyedMap};
use crate::order::{is_sorted_order, precedes, sorted_order, Key4, Real, Real32};
use crate::text::{a_piece_stays_whole, a_prefix_can_be_taken_off, a_separator_splits, decimal_reads_back, lemma_split_nonempty, numbers_are_read_from_digits, char_is_hex_digit, chars_of, contains_text, decimal, decimal_text, has_prefix, is_hex_digit, lines, lines_of, lowercase, occurs_at, parse_number, parse_uint, slice_of, split, split_chars, stands_at, string_of, text_contains, texts, to_lowercase, words, words_of};

verus! {

/// One row of the process table: GPU figures plus what the host knows.
#[derive(Debug, Clone)]
pub struct ProcRow {
    pub pid: u32,
    pub gpu_index: usize,
    pub kind: ProcKind,
    pub gpu_util_pct: Option<Real>,
    /// GPU memory held; `None` could not be read, `Some(0)` holds nothing.
    pub gpu_mem_bytes: Option<u64>,
    pub user: String,
    pub cpu_pct: Option<Real32>,
    pub host_mem_bytes: Option<u64>,
    pub command: String,
    /// Container runtime and short id.
    pub container: Option<String>,
}

impl ProcRow {
    /// The column `by` could not be read for this row.
    pub open spec fn unmeasured(self, by: SortBy) -> bool {
        match by {
            SortBy::GpuUtil => self.gpu_util_pct is None,
            SortBy::GpuMem => self.gpu_mem_bytes is None,
            SortBy::Cpu => self.cpu_pct is None,
            SortBy::HostMem => self.host_mem_bytes is None,
            SortBy::Pid => false,
        }
    }

    /// The place of this row on the number line of column `by`.
    pub open spec fn column(self, by: SortBy) -> int {
        match by {
            SortBy::GpuUtil => match self.gpu_util_pct {
                Some(v) => v.place(),
                None => 0,
            },
            SortBy::GpuMem => match self.gpu_mem_bytes {
                Some(v) => v as int,
                None => 0,
            },
            SortBy::Cpu => match self.cpu_pct {
                Some(v) => v.place(),
                None => 0,
            },
            SortBy::HostMem => match self.host_mem_bytes {
                Some(v) => v as int,
                None => 0,
            },
            SortBy::Pid => self.pid as int,
        }
    }

    /// Whether the column `by` could not be read for this row.
    pub fn is_unmeasured(&self, by: SortBy) -> (b: bool)
        ensures
            b == self.unmeasured(by),
    {
        match by {
            SortBy::GpuUtil => self.gpu_util_pct.is_none(),
            SortBy::GpuMem => self.gpu_mem_bytes.is_none(),
            SortBy::Cpu => self.cpu_pct.is_none(),
            SortBy::HostMem => self.host_mem_bytes.is_none(),
            SortBy::Pid => false,
        }
    }

    fn column_rank(&self, by: SortBy) -> (r: i128)
        ensures
            r == self.column(by),
            -0x8000_0000_0000_0000 <= r <= 0xffff_ffff_ffff_ffff,
    {
        match by {
            SortBy::GpuUtil => match self.gpu_util_pct {
                Some(v) => v.rank(),
                None => 0,
            },
            SortBy::GpuMem => match self.gpu_mem_bytes {
                Some(v) => v as i128,
                None => 0,
            },
            SortBy::Cpu => match self.cpu_pct {
                Some(v) => v.rank(),
                None => 0,
            },
            SortBy::HostMem => match self.host_mem_bytes {
                Some(v) => v as i128,
                None => 0,
            },
            SortBy::Pid => self.pid as i128,
        }
    }

    /// The same row.
    pub fn copy(&self) -> (r: Self)
        ensures
            r == *self,
    {
        ProcRow {
            pid: self.pid,
            gpu_index: self.gpu_index,
            kind: self.kind,
            gpu_util_pct: self.gpu_util_pct,
            gpu_mem_bytes: self.gpu_mem_bytes,
            user: self.user.clone(),
            cpu_pct: self.cpu_pct,
            host_mem_bytes: self.host_mem_bytes,
            command: self.command.clone(),
            container: match &self.container {
                Some(c) => Some(c.clone()),
                None => None,
            },
        }
    }
}

/// Where an unreadable figure goes beside a readable one: below it. `None`
/// when both sides are equally known and their values decide.
pub fn unmeasured_last(a_unknown: bool, b_unknown: bool) -> (r: Option<std::cmp::Ordering>)
    ensures
        r == (if !a_unknown && b_unknown {
            Some(std::cmp::Ordering::Less)
        } else if a_unknown && !b_unknown {
            Some(std::cmp::Ordering::Greater)
        } else {
            None
        }),
{
    match (a_unknown, b_unknown) {
        (false, true) => Some(std::cmp::Ordering::Less),
        (true, false) => Some(std::cmp::Ordering::Greater),
        _ => None,
    }
}

// ---------------------------------------------------------------- orders

/// The order of the table: unreadable figures below every readable one, then
/// the column in the chosen direction, then the pid.
pub open spec fn view_key(row: ProcRow, by: SortBy, desc: bool) -> Key4 {
    Key4 {
        a: if row.unmeasured(by) {
            1
        } else {
            0
        },
        b: (if desc {
            -row.column(by)
        } else {
            row.column(by)
        }) as i128,
        c: row.pid as i128,
        d: 0,
    }
}

/// The order of a record: unreadable GPU memory last, then GPU memory falling,
/// then the pid, then the card.
pub open spec fn record_key(row: ProcRow) -> Key4 {
    Key4 {
        a: if row.gpu_mem_bytes is None {
            1
        } else {
            0
        },
        b: (-row.column(SortBy::GpuMem)) as i128,
        c: row.pid as i128,
        d: row.gpu_index as i128,
    }
}

pub open spec fn view_keys(rows: Seq<ProcRow>, by: SortBy, desc: bool) -> Seq<Key4> {
    rows.map_values(|r: ProcRow| view_key(r, by, desc))
}

pub open spec fn record_keys(rows: Seq<ProcRow>) -> Seq<Key4> {
    rows.map_values(|r: ProcRow| record_key(r))
}

/// The rows in the order that `p` lists.
pub open spec fn arranged(rows: Seq<ProcRow>, p: Seq<usize>) -> Seq<ProcRow> {
    Seq::new(p.len(), |i: int| rows[p[i] as int])
}

/// `out` is `rows` in stable sorted order of `keys`.
pub open spec fn sorted_by(out: Seq<ProcRow>, rows: Seq<ProcRow>, keys: Seq<Key4>) -> bool {
    exists|p: Seq<usize>| #[trigger] is_sorted_order(keys, p) && out == arranged(rows, p)
}

fn arrange(rows: &Vec<ProcRow>, p: &Vec<usize>) -> (out: Vec<ProcRow>)
    requires
        forall|i: int| 0 <= i < p@.len() ==> #[trigger] p@[i] < rows@.len(),
    ensures
        out@ == arranged(rows@, p@),
{
    let mut out: Vec<ProcRow> = Vec::new();
    let mut i: usize = 0;
    while i < p.len()
        invariant
            i <= p.len(),
            forall|k: int| 0 <= k < p@.len() ==> #[trigger] p@[k] < rows@.len(),
            out@ == arranged(rows@, p@).take(i as int),
        decreases p.len() - i,
    {
        let at: usize = p[i];
        out.push(rows[at].copy());
        assert(out@ =~= arranged(rows@, p@).take(i + 1));
        i = i + 1;
    }
    assert(out@ =~= arranged(rows@, p@));
    out
}

/// The rows in the order of the table.
pub fn sort_view(rows: &Vec<ProcRow>, by: SortBy, desc: bool) -> (out: Vec<ProcRow>)
    ensures
        sorted_by(out@, rows@, view_keys(rows@, by, desc)),
{
    let mut keys: Vec<Key4> = Vec::new();
    let mut i: usize = 0;
    while i < rows.len()
        invariant
            i <= rows.len(),
            keys@ == view_keys(rows@, by, desc).take(i as int),
        decreases rows.len() - i,
    {
        let col: i128 = rows[i].column_rank(by);
        let a: i128 = if rows[i].is_unmeasured(by) { 1 } else { 0 };
        let b: i128 = if desc { -col } else { col };
        keys.push(Key4 { a, b, c: rows[i].pid as i128, d: 0 });
        assert(keys@ =~= view_keys(rows@, by, desc).take(i + 1));
        i = i + 1;
    }
    assert(keys@ =~= view_keys(rows@, by, desc));
    let p = sorted_order(&keys);
    arrange(rows, &p)
}

/// The rows in the order of a record.
pub fn sort_record(rows: &Vec<ProcRow>) -> (out: Vec<ProcRow>)
    ensures
        sorted_by(out@, rows@, record_keys(rows@)),
{
    let mut keys: Vec<Key4> = Vec::new();
    let mut i: usize = 0;
    while i < rows.len()
        invariant
            i <= rows.len(),
            keys@ == record_keys(rows@).take(i as int),
        decreases rows.len() - i,
    {
        let col: i128 = rows[i].column_rank(SortBy::GpuMem);
        let a: i128 = if rows[i].gpu_mem_bytes.is_none() { 1 } else { 0 };
        keys.push(Key4 { a, b: -col, c: rows[i].pid as i128, d: rows[i].gpu_index as i128 });
        assert(keys@ =~= record_keys(rows@).take(i + 1));
        i = i + 1;
    }
    assert(keys@ =~= record_keys(rows@));
    let p = sorted_order(&keys);
    arrange(rows, &p)
}

// ---------------------------------------------------------------- filter

/// The row is kept by a filter whose lowercase text is `needle`.
pub open spec fn row_matches(row: ProcRow, needle: Seq<char>) -> bool {
    ||| needle.len() == 0
    ||| contains_text(lowercase(row.command@), needle)
    ||| contains_text(lowercase(row.user@), needle)
    ||| contains_text(decimal(row.pid as nat), needle)
    ||| row.container matches Some(c) && contains_text(lowercase(c@), needle)
}

/// The rows that a filter keeps, in order.
pub open spec fn kept_rows(rows: Seq<ProcRow>, needle: Seq<char>) -> Seq<ProcRow> {
    rows.filter(|r: ProcRow| row_matches(r, needle))
}

/// Whether a filter whose lowercase text is `needle` keeps `row`.
pub fn keeps(row: &ProcRow, needle: &str) -> (b: bool)
    ensures
        b == row_matches(*row, needle@),
{
    needle.is_empty() || text_contains(to_lowercase(&row.command).as_str(), needle)
        || text_contains(to_lowercase(&row.user).as_str(), needle) || text_contains(
        decimal_text(row.pid as u64).as_str(),
        needle,
    ) || match &row.container {
        Some(c) => text_contains(to_lowercase(c).as_str(), needle),
        None => false,
    }
}

/// The rows that a filter keeps.
pub fn filter_rows(rows: &Vec<ProcRow>, needle: &str) -> (out: Vec<ProcRow>)
    ensures
        out@ == kept_rows(rows@, needle@),
{
    let ghost keep = |r: ProcRow| row_matches(r, needle@);
    let mut out: Vec<ProcRow> = Vec::new();
    let mut i: usize = 0;
    assert(rows@.take(0) =~= Seq::<ProcRow>::empty());
    reveal(Seq::filter);
    while i < rows.len()
        invariant
            i <= rows.len(),
            keep == (|r: ProcRow| row_matches(r, needle@)),
            out@ == rows@.take(i as int).filter(keep),
        decreases rows.len() - i,
    {
        reveal(Seq::filter);
        assert(rows@.take(i + 1).drop_last() =~= rows@.take(i as int));
        if keeps(&rows[i], needle) {
            out.push(rows[i].copy());
        }
        i = i + 1;
    }
    assert(rows@.take(i as int) =~= rows@);
    out
}

/// The position of the first row of process `pid` on card `gpu` at or after
/// `from`.
pub open spec fn row_position(rows: Seq<ProcRow>, pid: u32, gpu: usize, from: int) -> Option<int>
    decreases rows.len() - from,
{
    if from < 0 || from >= rows.len() {
        None
    } else if rows[from].pid == pid && rows[from].gpu_index == gpu {
        Some(from)
    } else {
        row_position(rows, pid, gpu, from + 1)
    }
}

/// The position of the first row of process `pid` on card `gpu`.
pub fn find_row(rows: &Vec<ProcRow>, pid: u32, gpu: usize) -> (r: Option<usize>)
    ensures
        match r {
            Some(i) => row_position(rows@, pid, gpu, 0) == Some(i as int) && i < rows.len(),
            None => row_position(rows@, pid, gpu, 0) is None,
        },
{
    let mut i: usize = 0;
    while i < rows.len()
        invariant
            i <= rows.len(),
            row_position(rows@, pid, gpu, 0) == row_position(rows@, pid, gpu, i as int),
        decreases rows.len() - i,
    {
        if rows[i].pid == pid && rows[i].gpu_index == gpu {
            return Some(i);
        }
        i = i + 1;
    }
    None
}

// ---------------------------------------------------------------- containers

/// The short id at the start of `s`: its first twelve characters, where all of
/// them are hexadecimal digits.
pub open spec fn short_id(s: Seq<char>) -> Option<Seq<char>> {
    if s.len() >= 12 && forall|i: int| 0 <= i < 12 ==> is_hex_digit(#[trigger] s[i]) {
        Some(s.take(12))
    } else {
        None
    }
}

/// What follows `marker` in the first segment that starts with it.
pub open spec fn after_marker(segments: Seq<Seq<char>>, marker: Seq<char>) -> Option<Seq<char>>
    decreases segments.len(),
{
    if segments.len() == 0 {
        None
    } else if has_prefix(segments[0], marker) {
        Some(segments[0].skip(marker.len() as int))
    } else {
        after_marker(segments.skip(1), marker)
    }
}

/// What follows the first occurrence of `needle` in `s`.
pub open spec fn after_first(s: Seq<char>, needle: Seq<char>) -> Option<Seq<char>>
    decreases s.len(),
{
    if has_prefix(s, needle) {
        Some(s.skip(needle.len() as int))
    } else if s.len() == 0 {
        None
    } else {
        after_first(s.skip(1), needle)
    }
}

/// The id of the scope that `marker` names in the path, where it is one.
pub open spec fn scope_id(path: Seq<char>, marker: Seq<char>) -> Option<Seq<char>> {
    match after_marker(split(path, '/'), marker) {
        Some(rest) => short_id(rest),
        None => None,
    }
}

/// The id in a flat `/docker/<id>` layout.
pub open spec fn flat_id(path: Seq<char>) -> Option<Seq<char>> {
    match after_first(path, "/docker/"@) {
        Some(rest) => short_id(rest),
        None => None,
    }
}

/// The container that a cgroup path names: runtime, colon, short id.
pub open spec fn container_of_path(path: Seq<char>) -> Option<Seq<char>> {
    if let Some(id) = scope_id(path, "docker-"@) {
        Some("docker:"@ + id)
    } else if let Some(id) = scope_id(path, "libpod-"@) {
        Some("podman:"@ + id)
    } else if let Some(id) = scope_id(path, "cri-containerd-"@) {
        Some("k8s:"@ + id)
    } else if let Some(id) = scope_id(path, "crio-"@) {
        Some("k8s:"@ + id)
    } else if let Some(id) = flat_id(path) {
        Some("docker:"@ + id)
    } else {
        None
    }
}

/// The container that the first line naming one names; the path of a line is
/// what follows its last colon.
pub open spec fn container_of_lines(rows: Seq<Seq<char>>) -> Option<Seq<char>>
    decreases rows.len(),
{
    if rows.len() == 0 {
        None
    } else {
        match container_of_path(split(rows[0], ':').last()) {
            Some(c) => Some(c),
            None => container_of_lines(rows.skip(1)),
        }
    }
}

fn short_id_at(cs: &Vec<char>, from: usize) -> (r: Option<Vec<char>>)
    requires
        from <= cs.len(),
    ensures
        match r {
            Some(id) => short_id(cs@.skip(from as int)) == Some(id@),
            None => short_id(cs@.skip(from as int)) is None,
        },
{
    if cs.len() - from < 12 {
        return None;
    }
    let ghost s = cs@.skip(from as int);
    let mut i: usize = 0;
    while i < 12
        invariant
            i <= 12,
            from + 12 <= cs.len(),
            s == cs@.skip(from as int),
            forall|k: int| 0 <= k < i ==> is_hex_digit(#[trigger] s[k]),
        decreases 12 - i,
    {
        assert(s[i as int] == cs@[from + i]);
        if !char_is_hex_digit(cs[from + i]) {
            return None;
        }
        i = i + 1;
    }
    let id = slice_of(cs, from, from + 12);
    assert(id@ =~= s.take(12));
    Some(id)
}

fn scope_id_of(segments: &Vec<Vec<char>>, marker: &str) -> (r: Option<Vec<char>>)
    ensures
        (match r {
            Some(id) => Some(id@),
            None => None,
        }) == (match after_marker(texts(segments@), marker@) {
            Some(rest) => short_id(rest),
            None => None,
        }),
{
    let mark = chars_of(marker);
    let ghost segs = texts(segments@);
    let mut i: usize = 0;
    assert(segs.skip(0) =~= segs);
    while i < segments.len()
        invariant
            i <= segments.len(),
            mark@ == marker@,
            segs == texts(segments@),
            after_marker(segs, marker@) == after_marker(segs.skip(i as int), marker@),
        decreases segments.len() - i,
    {
        assert(segs.skip(i as int)[0] == segments@[i as int]@);
        assert(segs.skip(i as int).skip(1) =~= segs.skip(i + 1));
        if stands_at(&segments[i], &mark, 0) {
            return short_id_at(&segments[i], mark.len());
        }
        i = i + 1;
    }
    None
}

fn flat_id_of(path: &Vec<char>) -> (r: Option<Vec<char>>)
    ensures
        (match r {
            Some(id) => Some(id@),
            None => None,
        }) == flat_id(path@),
{
    let mark = chars_of("/docker/");
    let mut i: usize = 0;
    assert(path@.skip(0) =~= path@);
    while i < path.len()
        invariant
            i <= path.len(),
            mark@ == "/docker/"@,
            after_first(path@, mark@) == after_first(path@.skip(i as int), mark@),
        decreases path.len() - i,
    {
        proof {
            let rest = path@.skip(i as int);
            assert(rest.skip(1) =~= path@.skip(i + 1));
            lemma_occurs_shift(path@, mark@, i as int);
        }
        if stands_at(path, &mark, i) {
            assert(path@.skip(i as int).skip(mark@.len() as int) =~= path@.skip(i + mark@.len()));
            return short_id_at(path, i + mark.len());
        }
        i = i + 1;
    }
    proof {
        reveal_strlit("/docker/");
        assert(path@.skip(i as int).len() == 0);
    }
    None
}

proof fn lemma_occurs_shift(s: Seq<char>, needle: Seq<char>, i: int)
    requires
        0 <= i <= s.len(),
    ensures
        occurs_at(s, needle, i) == has_prefix(s.skip(i), needle),
{
    if i + needle.len() <= s.len() {
        assert(s.skip(i).subrange(0, needle.len() as int) =~= s.subrange(i, i + needle.len()));
    }
}

fn titled(runtime: &str, id: &Vec<char>) -> (r: String)
    ensures
        r@ == runtime@ + id@,
{
    let mut r = String::new();
    r.append(runtime);
    r.append(string_of(id).as_str());
    assert(r@ =~= runtime@ + id@);
    r
}

/// The container that a `/proc/<pid>/cgroup` text names: docker, podman,
/// cri-containerd and crio scopes, and the flat docker layout.
pub fn container_of_cgroup(text: &str) -> (r: Option<String>)
    ensures
        opt_text(r) == container_of_lines(lines(text@)),
{
    let rows = lines_of(&chars_of(text));
    let ghost all = texts(rows@);
    let mut i: usize = 0;
    assert(all.skip(0) =~= all);
    while i < rows.len()
        invariant
            i <= rows.len(),
            all == texts(rows@),
            all == lines(text@),
            container_of_lines(all) == container_of_lines(all.skip(i as int)),
        decreases rows.len() - i,
    {
        assert(all.skip(i as int)[0] == rows@[i as int]@);
        assert(all.skip(i as int).skip(1) =~= all.skip(i + 1));
        let fields = split_chars(&rows[i], ':');
        let path = &fields[fields.len() - 1];
        assert(path@ == split(rows@[i as int]@, ':').last()) by {
            assert(texts(fields@).last() == fields@.last()@);
        }
        let segments = split_chars(path, '/');
        if let Some(id) = scope_id_of(&segments, "docker-") {
            return Some(titled("docker:", &id));
        }
        if let Some(id) = scope_id_of(&segments, "libpod-") {
            return Some(titled("podman:", &id));
        }
        if let Some(id) = scope_id_of(&segments, "cri-containerd-") {
            return Some(titled("k8s:", &id));
        }
        if let Some(id) = scope_id_of(&segments, "crio-") {
            return Some(titled("k8s:", &id));
        }
        if let Some(id) = flat_id_of(path) {
            return Some(titled("docker:", &id));
        }
        i = i + 1;
    }
    None
}

/// A process as the container cache knows it: a pid alone is reused, a pid
/// with its start time is not.
#[derive(Clone, Copy, PartialEq, Eq, Structural, Debug)]
pub struct ProcessId {
    pub pid: u32,
    pub start_time: u64,
}

impl View for ProcessId {
    type V = (u32, u64);

    open spec fn view(&self) -> (u32, u64) {
        (self.pid, self.start_time)
    }
}

impl Keyed for ProcessId {
    fn same(&self, other: &Self) -> (r: bool) {
        self.pid == other.pid && self.start_time == other.start_time
    }

    fn copy(&self) -> (k: Self) {
        *self
    }
}

/// Containers already resolved, per process identity.
pub type ContainerCache = KeyedMap<ProcessId, Option<String>>;

/// The container of a process, from the cache where its identity is in it and
/// by `read` where it is not; a fresh answer, `None` included, is remembered.
pub fn cached_container<F: FnOnce() -> Option<String>>(
    cache: &mut ContainerCache,
    pid: u32,
    start_time: u64,
    read: F,
) -> (r: Option<String>)
    requires
        old(cache).wf(),
        call_requires(read, ()),
    ensures
        final(cache).wf(),
        final(cache)@.dom().contains((pid, start_time)),
        opt_text(r) == opt_text(final(cache)@[(pid, start_time)]),
        old(cache)@.dom().contains((pid, start_time)) ==> final(cache)@ == old(cache)@,
        !old(cache)@.dom().contains((pid, start_time)) ==> {
            &&& call_ensures(read, (), final(cache)@[(pid, start_time)])
            &&& final(cache)@ == old(cache)@.insert(
                (pid, start_time),
                final(cache)@[(pid, start_time)],
            )
        },
{
    let id = ProcessId { pid, start_time };
    let known = match cache.get(&id) {
        Some(held) => Some(copy_text(held)),
        None => None,
    };
    match known {
        Some(c) => c,
        None => {
            let fresh = read();
            let out = copy_text(&fresh);
            cache.insert(id, fresh);
            out
        },
    }
}

fn copy_text(s: &Option<String>) -> (r: Option<String>)
    ensures
        opt_text(r) == opt_text(*s),
{
    match s {
        Some(x) => Some(x.clone()),
        None => None,
    }
}

// ---------------------------------------------------------------- start time

/// Field 22 of a `/proc/<pid>/stat` line: the twentieth word behind the last
/// closing parenthesis, where it writes a number.
pub open spec fn start_ticks_of(stat: Seq<char>) -> Option<u64> {
    let fields = split(stat, ')');
    let rest = words(fields.last());
    if fields.len() < 2 || rest.len() < 20 {
        None
    } else {
        match parse_uint(rest[19], u64::MAX as nat) {
            Some(n) => Some(n as u64),
            None => None,
        }
    }
}

/// The start time, in clock ticks since boot, that a `/proc/<pid>/stat` line
/// gives. The command name may itself hold spaces and parentheses.
pub fn parse_start_ticks(stat: &str) -> (r: Option<u64>)
    ensures
        r == start_ticks_of(stat@),
{
    let fields = split_chars(&chars_of(stat), ')');
    assert(texts(fields@).last() == fields@.last()@);
    if fields.len() < 2 {
        return None;
    }
    let rest = words_of(&fields[fields.len() - 1]);
    if rest.len() < 20 {
        return None;
    }
    assert(texts(rest@)[19] == rest@[19]@);
    parse_number(&rest[19], u64::MAX)
}

// ---------------------------------------------------------------- laws

/// A row whose sort figure could not be read stands below every row whose
/// figure could, in both directions.
pub proof fn unreadable_rows_sink(
    out: Seq<ProcRow>,
    rows: Seq<ProcRow>,
    by: SortBy,
    desc: bool,
    i: int,
    j: int,
)
    requires
        sorted_by(out, rows, view_keys(rows, by, desc)),
        0 <= i < j < out.len(),
        out[i].unmeasured(by),
    ensures
        out[j].unmeasured(by),
{
    let keys = view_keys(rows, by, desc);
    let p = choose|p: Seq<usize>| #[trigger] is_sorted_order(keys, p) && out == arranged(rows, p);
    assert(precedes(keys, p[i] as int, p[j] as int));
}

/// Among the readable rows the column rises, or falls when the direction is
/// turned, and equal figures go by pid.
pub proof fn readable_rows_are_ordered(
    out: Seq<ProcRow>,
    rows: Seq<ProcRow>,
    by: SortBy,
    desc: bool,
    i: int,
    j: int,
)
    requires
        sorted_by(out, rows, view_keys(rows, by, desc)),
        0 <= i < j < out.len(),
        !out[j].unmeasured(by),
    ensures
        desc ==> out[i].column(by) >= out[j].column(by),
        !desc ==> out[i].column(by) <= out[j].column(by),
        out[i].column(by) == out[j].column(by) ==> out[i].pid <= out[j].pid,
{
    let keys = view_keys(rows, by, desc);
    let p = choose|p: Seq<usize>| #[trigger] is_sorted_order(keys, p) && out == arranged(rows, p);
    assert(precedes(keys, p[i] as int, p[j] as int));
    assert(keys[p[i] as int] == view_key(out[i], by, desc));
    assert(keys[p[j] as int] == view_key(out[j], by, desc));
}

/// A record's order depends on the rows alone, and puts rows of unknown GPU
/// memory last.
pub proof fn records_are_ordered(out: Seq<ProcRow>, rows: Seq<ProcRow>, i: int, j: int)
    requires
        sorted_by(out, rows, record_keys(rows)),
        0 <= i < j < out.len(),
    ensures
        out[i].gpu_mem_bytes is None ==> out[j].gpu_mem_bytes is None,
        out[j].gpu_mem_bytes is Some ==> out[i].gpu_mem_bytes.unwrap()
            >= out[j].gpu_mem_bytes.unwrap(),
        out[i].gpu_mem_bytes == out[j].gpu_mem_bytes ==> out[i].pid <= out[j].pid,
        out[i].gpu_mem_bytes == out[j].gpu_mem_bytes && out[i].pid == out[j].pid
            ==> out[i].gpu_index <= out[j].gpu_index,
{
    let keys = record_keys(rows);
    let p = choose|p: Seq<usize>| #[trigger] is_sorted_order(keys, p) && out == arranged(rows, p);
    assert(precedes(keys, p[i] as int, p[j] as int));
    assert(keys[p[i] as int] == record_key(out[i]));
    assert(keys[p[j] as int] == record_key(out[j]));
}

/// Sorting neither drops nor invents a row.
pub proof fn sorting_keeps_every_row(out: Seq<ProcRow>, rows: Seq<ProcRow>, keys: Seq<Key4>)
    requires
        sorted_by(out, rows, keys),
        keys.len() == rows.len(),
        rows.len() <= usize::MAX,
    ensures
        out.len() == rows.len(),
        forall|r: ProcRow| #[trigger] rows.contains(r) <==> out.contains(r),
{
    let p = choose|p: Seq<usize>| #[trigger] is_sorted_order(keys, p) && out == arranged(rows, p);
    assert forall|r: ProcRow| #[trigger] rows.contains(r) <==> out.contains(r) by {
        if rows.contains(r) {
            let k = choose|k: int| 0 <= k < rows.len() && rows[k] == r;
            assert(p.contains(k as usize));
            let i = choose|i: int| 0 <= i < p.len() && p[i] == k as usize;
            assert(out[i] == r);
        }
        if out.contains(r) {
            let i = choose|i: int| 0 <= i < out.len() && out[i] == r;
            assert(rows[p[i] as int] == r);
        }
    }
}

/// An empty filter keeps every row.
pub proof fn an_empty_filter_keeps_everything(rows: Seq<ProcRow>)
    ensures
        kept_rows(rows, Seq::empty()) == rows,
    decreases rows.len(),
{
    reveal(Seq::filter);
    if rows.len() > 0 {
        an_empty_filter_keeps_everything(rows.drop_last());
        assert(rows.drop_last().push(rows.last()) =~= rows);
    }
}

/// A filter keeps a row for any of its texts: the command, the user, the number
/// of the process or its container, whatever their case.
pub proof fn a_filter_searches_every_text_of_a_row(
    rows: Seq<ProcRow>,
    row: ProcRow,
    needle: Seq<char>,
)
    requires
        rows.contains(row),
    ensures
        contains_text(lowercase(row.command@), needle) ==> kept_rows(rows, needle).contains(row),
        contains_text(lowercase(row.user@), needle) ==> kept_rows(rows, needle).contains(row),
        contains_text(decimal(row.pid as nat), needle) ==> kept_rows(rows, needle).contains(row),
        row.container matches Some(c) && contains_text(lowercase(c@), needle) ==> kept_rows(
            rows,
            needle,
        ).contains(row),
{
    lemma_filter_members(rows, |r: ProcRow| row_matches(r, needle), row);
}

/// What a filter keeps was there before, in the same order, and one of its
/// texts holds what was asked for.
pub proof fn a_filter_keeps_nothing_else(rows: Seq<ProcRow>, row: ProcRow, needle: Seq<char>)
    requires
        kept_rows(rows, needle).contains(row),
        needle.len() > 0,
    ensures
        rows.contains(row),
        contains_text(lowercase(row.command@), needle) || contains_text(
            lowercase(row.user@),
            needle,
        ) || contains_text(decimal(row.pid as nat), needle) || (row.container matches Some(c)
            && contains_text(lowercase(c@), needle)),
        kept_rows(rows, needle).len() <= rows.len(),
{
    lemma_filter_members(rows, |r: ProcRow| row_matches(r, needle), row);
}

proof fn lemma_filter_members(rows: Seq<ProcRow>, keep: spec_fn(ProcRow) -> bool, row: ProcRow)
    ensures
        rows.filter(keep).contains(row) <==> rows.contains(row) && keep(row),
        rows.filter(keep).len() <= rows.len(),
    decreases rows.len(),
{
    reveal(Seq::filter);
    if rows.len() > 0 {
        let init = rows.drop_last();
        let head = init.filter(keep);
        let all = rows.filter(keep);
        lemma_filter_members(init, keep, row);
        assert(rows.contains(row) <==> init.contains(row) || rows.last() == row) by {
            if init.contains(row) {
                let w = choose|w: int| 0 <= w < init.len() && init[w] == row;
                assert(rows[w] == row);
            }
            if rows.contains(row) {
                let w = choose|w: int| 0 <= w < rows.len() && rows[w] == row;
                if w < init.len() {
                    assert(init[w] == row);
                }
            }
            if rows.last() == row {
                assert(rows[rows.len() - 1] == row);
            }
        }
        if keep(rows.last()) {
            assert(all == head.push(rows.last()));
            assert(all.contains(row) <==> head.contains(row) || rows.last() == row) by {
                if head.contains(row) {
                    let w = choose|w: int| 0 <= w < head.len() && head[w] == row;
                    assert(all[w] == row);
                }
                if all.contains(row) {
                    let w = choose|w: int| 0 <= w < all.len() && all[w] == row;
                    if w < head.len() {
                        assert(head[w] == row);
                    }
                }
                if rows.last() == row {
                    assert(all[head.len() as int] == row);
                }
            }
        }
    }
}

/// Each column of the table is ordered by its own figure: rising, or falling
/// when the direction is turned; and the rows whose figure could not be read
/// come after all others.
pub proof fn columns_order_by_their_own_figure(
    out: Seq<ProcRow>,
    rows: Seq<ProcRow>,
    by: SortBy,
    desc: bool,
    i: int,
    j: int,
)
    requires
        sorted_by(out, rows, view_keys(rows, by, desc)),
        0 <= i < j < out.len(),
    ensures
        by == SortBy::Pid ==> (desc ==> out[i].pid >= out[j].pid) && (!desc ==> out[i].pid
            <= out[j].pid),
        by == SortBy::GpuMem && out[j].gpu_mem_bytes is Some ==> out[i].gpu_mem_bytes is Some && (
        desc ==> out[i].gpu_mem_bytes->0 >= out[j].gpu_mem_bytes->0) && (!desc
            ==> out[i].gpu_mem_bytes->0 <= out[j].gpu_mem_bytes->0),
        by == SortBy::HostMem && out[j].host_mem_bytes is Some ==> out[i].host_mem_bytes is Some
            && (desc ==> out[i].host_mem_bytes->0 >= out[j].host_mem_bytes->0) && (!desc
            ==> out[i].host_mem_bytes->0 <= out[j].host_mem_bytes->0),
        by == SortBy::GpuUtil && out[j].gpu_util_pct is Some ==> out[i].gpu_util_pct is Some && (
        desc ==> out[i].gpu_util_pct->0.place() >= out[j].gpu_util_pct->0.place()) && (!desc
            ==> out[i].gpu_util_pct->0.place() <= out[j].gpu_util_pct->0.place()),
        by == SortBy::Cpu && out[j].cpu_pct is Some ==> out[i].cpu_pct is Some && (desc
            ==> out[i].cpu_pct->0.place() >= out[j].cpu_pct->0.place()) && (!desc
            ==> out[i].cpu_pct->0.place() <= out[j].cpu_pct->0.place()),
{
    let keys = view_keys(rows, by, desc);
    let p = choose|p: Seq<usize>| #[trigger] is_sorted_order(keys, p) && out == arranged(rows, p);
    assert(precedes(keys, p[i] as int, p[j] as int));
    assert(keys[p[i] as int] == view_key(out[i], by, desc));
    assert(keys[p[j] as int] == view_key(out[j], by, desc));
}

/// The row that is found is of that process on that card, none before it is,
/// and one is found wherever there is one.
pub proof fn the_first_row_of_a_process_is_found(
    rows: Seq<ProcRow>,
    pid: u32,
    gpu: usize,
    from: int,
    i: int,
)
    requires
        0 <= from <= i < rows.len(),
    ensures
        row_position(rows, pid, gpu, from) matches Some(k) ==> from <= k < rows.len() && rows[k].pid
            == pid && rows[k].gpu_index == gpu,
        rows[i].pid == pid && rows[i].gpu_index == gpu ==> (row_position(
            rows,
            pid,
            gpu,
            from,
        ) matches Some(k) && k <= i),
    decreases rows.len() - from,
{
    if !(rows[from].pid == pid && rows[from].gpu_index == gpu) {
        if from < i {
            the_first_row_of_a_process_is_found(rows, pid, gpu, from + 1, i);
        } else if from + 1 < rows.len() {
            the_first_row_of_a_process_is_found(rows, pid, gpu, from + 1, rows.len() - 1);
        } else {
            assert(row_position(rows, pid, gpu, from + 1) is None);
        }
    }
}

proof fn lemma_marker(segments: Seq<Seq<char>>, marker: Seq<char>, k: int, rest: Seq<char>)
    requires
        0 <= k < segments.len(),
        segments[k] == marker + rest,
        forall|j: int| 0 <= j < k ==> !has_prefix(#[trigger] segments[j], marker),
    ensures
        after_marker(segments, marker) == Some(rest),
    decreases segments.len(),
{
    if k == 0 {
        assert((marker + rest).take(marker.len() as int) =~= marker);
        assert((marker + rest).skip(marker.len() as int) =~= rest);
        a_prefix_can_be_taken_off(marker + rest, marker);
    } else {
        assert(!has_prefix(segments[0], marker));
        let tail = segments.skip(1);
        assert(tail[k - 1] == marker + rest);
        assert forall|j: int| 0 <= j < k - 1 implies !has_prefix(#[trigger] tail[j], marker) by {
            assert(tail[j] == segments[j + 1]);
        }
        lemma_marker(tail, marker, k - 1, rest);
    }
}

proof fn lemma_no_marker(segments: Seq<Seq<char>>, marker: Seq<char>)
    requires
        forall|j: int| 0 <= j < segments.len() ==> !has_prefix(#[trigger] segments[j], marker),
    ensures
        after_marker(segments, marker) is None,
    decreases segments.len(),
{
    if segments.len() > 0 {
        assert(!has_prefix(segments[0], marker));
        let tail = segments.skip(1);
        assert forall|j: int| 0 <= j < tail.len() implies !has_prefix(#[trigger] tail[j], marker) by {
            assert(tail[j] == segments[j + 1]);
        }
        lemma_no_marker(tail, marker);
    }
}

proof fn lemma_other_start(s: Seq<char>, marker: Seq<char>, i: int)
    requires
        0 <= i < marker.len(),
        i < s.len(),
        s[i] != marker[i],
    ensures
        !has_prefix(s, marker),
{
    if has_prefix(s, marker) {
        assert(s.subrange(0, marker.len() as int)[i] == s[i]);
    }
}

/// A container id is twelve hexadecimal digits, whatever follows them; fewer,
/// or others among them, are none.
pub proof fn an_id_is_twelve_digits(id: Seq<char>, rest: Seq<char>)
    requires
        id.len() == 12,
    ensures
        (forall|i: int| 0 <= i < 12 ==> is_hex_digit(#[trigger] id[i])) ==> short_id(id + rest)
            == Some(id),
        (exists|i: int| 0 <= i < 12 && !is_hex_digit(#[trigger] id[i])) ==> short_id(id + rest) is None,
        rest.len() < 12 ==> short_id(rest) is None,
{
    let s = id + rest;
    assert(s.take(12) =~= id);
    assert forall|i: int| 0 <= i < 12 implies s[i] == #[trigger] id[i] by {}
    if forall|i: int| 0 <= i < 12 ==> is_hex_digit(#[trigger] id[i]) {
        assert forall|i: int| 0 <= i < 12 implies is_hex_digit(#[trigger] s[i]) by {
            assert(is_hex_digit(id[i]));
        }
    }
    if exists|i: int| 0 <= i < 12 && !is_hex_digit(#[trigger] id[i]) {
        let i = choose|i: int| 0 <= i < 12 && !is_hex_digit(#[trigger] id[i]);
        assert(!is_hex_digit(s[i]));
    }
}

/// A path whose one marked segment is a runtime's scope names that runtime and
/// the id in it.
pub proof fn a_scope_names_its_container(path: Seq<char>, k: int, id: Seq<char>, rest: Seq<char>)
    requires
        0 <= k < split(path, '/').len(),
        id.len() == 12,
        forall|i: int| 0 <= i < 12 ==> is_hex_digit(#[trigger] id[i]),
        forall|j: int|
            0 <= j < split(path, '/').len() && j != k ==> !has_prefix(
                #[trigger] split(path, '/')[j],
                "docker-"@,
            ) && !has_prefix(split(path, '/')[j], "libpod-"@) && !has_prefix(
                split(path, '/')[j],
                "cri-containerd-"@,
            ) && !has_prefix(split(path, '/')[j], "crio-"@),
    ensures
        split(path, '/')[k] == "docker-"@ + (id + rest) ==> container_of_path(path) == Some(
            "docker:"@ + id,
        ),
        split(path, '/')[k] == "libpod-"@ + (id + rest) ==> container_of_path(path) == Some(
            "podman:"@ + id,
        ),
        split(path, '/')[k] == "cri-containerd-"@ + (id + rest) ==> container_of_path(path) == Some(
            "k8s:"@ + id,
        ),
        split(path, '/')[k] == "crio-"@ + (id + rest) ==> container_of_path(path) == Some(
            "k8s:"@ + id,
        ),
{
    reveal_strlit("docker-");
    reveal_strlit("libpod-");
    reveal_strlit("cri-containerd-");
    reveal_strlit("crio-");
    let segments = split(path, '/');
    let s = segments[k];
    an_id_is_twelve_digits(id, rest);
    if s == "docker-"@ + (id + rest) {
        lemma_marker(segments, "docker-"@, k, id + rest);
    }
    if s == "libpod-"@ + (id + rest) {
        lemma_other_start(s, "docker-"@, 0);
        lemma_no_marker(segments, "docker-"@);
        lemma_marker(segments, "libpod-"@, k, id + rest);
    }
    if s == "cri-containerd-"@ + (id + rest) {
        lemma_other_start(s, "docker-"@, 0);
        lemma_other_start(s, "libpod-"@, 0);
        lemma_no_marker(segments, "docker-"@);
        lemma_no_marker(segments, "libpod-"@);
        lemma_marker(segments, "cri-containerd-"@, k, id + rest);
    }
    if s == "crio-"@ + (id + rest) {
        lemma_other_start(s, "docker-"@, 0);
        lemma_other_start(s, "libpod-"@, 0);
        lemma_other_start(s, "cri-containerd-"@, 3);
        lemma_no_marker(segments, "docker-"@);
        lemma_no_marker(segments, "libpod-"@);
        lemma_no_marker(segments, "cri-containerd-"@);
        lemma_marker(segments, "crio-"@, k, id + rest);
    }
}

/// What follows the first occurrence is found, and nothing where there is none.
pub proof fn what_follows_the_first_is_found(s: Seq<char>, needle: Seq<char>, i: int)
    requires
        0 <= i,
        i + needle.len() <= s.len(),
        occurs_at(s, needle, i),
        forall|j: int| 0 <= j < i ==> !occurs_at(s, needle, j),
    ensures
        after_first(s, needle) == Some(s.skip(i + needle.len())),
    decreases s.len(),
{
    if i == 0 {
        assert(s.subrange(0, needle.len() as int) =~= s.take(needle.len() as int));
        assert(has_prefix(s, needle));
    } else {
        assert(!occurs_at(s, needle, 0));
        assert(s.subrange(0, needle.len() as int) =~= s.take(needle.len() as int));
        let tail = s.skip(1);
        assert(tail.subrange(i - 1, i - 1 + needle.len()) =~= s.subrange(i, i + needle.len()));
        assert forall|j: int| 0 <= j < i - 1 implies !occurs_at(tail, needle, j) by {
            assert(!occurs_at(s, needle, j + 1));
            assert(tail.subrange(j, j + needle.len()) =~= s.subrange(j + 1, j + 1 + needle.len()));
        }
        what_follows_the_first_is_found(tail, needle, i - 1);
        assert(tail.skip(i - 1 + needle.len()) =~= s.skip(i + needle.len()));
    }
}

/// The first line whose path names a container names the one that is shown, and
/// the lines behind it do not matter.
pub proof fn the_first_line_that_names_a_container_counts(
    before: Seq<Seq<char>>,
    line: Seq<char>,
    path: Seq<char>,
    behind: Seq<Seq<char>>,
)
    requires
        container_of_lines(before) is None,
        !path.contains(':'),
    ensures
        container_of_path(path) is Some ==> container_of_lines(
            before.push(line + seq![':'] + path) + behind,
        ) == container_of_path(path),
        container_of_path(path) is None ==> container_of_lines(
            before.push(line + seq![':'] + path) + behind,
        ) == container_of_lines(behind),
        container_of_lines(Seq::empty()) is None,
    decreases before.len(),
{
    let named = line + seq![':'] + path;
    let all = before.push(named) + behind;
    if before.len() == 0 {
        a_separator_splits(line, path, ':');
        a_piece_stays_whole(path, ':');
        assert(split(named, ':').last() == path);
        assert(all[0] == named);
        assert(all.skip(1) =~= behind);
    } else {
        assert(all[0] == before[0]);
        assert(all.skip(1) =~= before.skip(1).push(named) + behind);
        the_first_line_that_names_a_container_counts(before.skip(1), line, path, behind);
    }
}

/// The start tick is the twentieth word behind the last closing parenthesis,
/// whatever the command's name holds; without twenty words there is none.
pub proof fn the_start_tick_is_the_twentieth_word(head: Seq<char>, tail: Seq<char>, n: u64)
    requires
        !tail.contains(')'),
    ensures
        words(tail).len() >= 20 && words(tail)[19] == decimal(n as nat) ==> start_ticks_of(
            head + seq![')'] + tail,
        ) == Some(n),
        words(tail).len() < 20 ==> start_ticks_of(head + seq![')'] + tail) is None,
        start_ticks_of(tail) is None,
{
    lemma_split_nonempty(head, ')');
    a_separator_splits(head, tail, ')');
    a_piece_stays_whole(tail, ')');
    assert(split(head + seq![')'] + tail, ')').last() == tail);
    decimal_reads_back(n as nat);
    numbers_are_read_from_digits(decimal(n as nat), n as nat, u64::MAX as nat);
}

} // verus!
