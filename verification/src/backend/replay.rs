//! Playback of a recording: lines within a cap, one record per poll, and the
//! last frame held at the end.
use vstd::prelude::*;
use crate::backend::{copy_opt, opt_text, GpuProcess, GpuSnapshot};
use crate::text::{decimal, decimal_reads_back, decimal_text, a_text_is_found_where_it_stands, contains_text};

verus! {

/// The longest line of a recording that is read at all.
pub const MAX_LINE_BYTES: usize = 8_388_608;

// ---------------------------------------------------------------- lines

/// Where the first line of `s` ends: at its first newline.
pub open spec fn line_end(s: Seq<u8>) -> Option<int>
    decreases s.len(),
{
    if s.len() == 0 {
        None
    } else if s[0] == 10 {
        Some(0)
    } else {
        match line_end(s.skip(1)) {
            Some(i) => Some(i + 1),
            None => None,
        }
    }
}

/// The next line of at most `cap` bytes, and what follows it. `pending` is the
/// part of a line already read. Longer lines are dropped; the last line needs
/// no newline, and a last line without bytes is none.
pub open spec fn next_line(pending: Seq<u8>, rest: Seq<u8>, cap: nat) -> Option<(Seq<u8>, Seq<u8>)>
    decreases rest.len(),
{
    match line_end(rest) {
        None => {
            let line = pending + rest;
            if 0 < line.len() <= cap {
                Some((line, Seq::empty()))
            } else {
                None
            }
        },
        Some(i) => {
            let line = pending + rest.take(i);
            if i < 0 || i >= rest.len() {
                None
            } else if line.len() <= cap {
                Some((line, rest.skip(i + 1)))
            } else {
                next_line(Seq::empty(), rest.skip(i + 1), cap)
            }
        },
    }
}

/// What a chunk of the input led to.
#[derive(Debug)]
pub enum LineStep {
    /// A line, without its newline.
    Line(Vec<u8>),
    /// Read on.
    More,
    /// The input is over.
    End,
}

/// Lines of at most `cap` bytes, from chunks of any size, without ever holding
/// more than one of them and a chunk.
pub struct BoundedLines {
    cap: usize,
    buf: Vec<u8>,
    /// The line at hand exceeds the cap, and its rest is skipped.
    draining: bool,
    pending: Ghost<Seq<u8>>,
}

impl BoundedLines {
    pub closed spec fn wf(&self) -> bool {
        if self.draining {
            self.pending@.len() > self.cap
        } else {
            self.buf@ == self.pending@ && self.pending@.len() <= self.cap
        }
    }

    /// The part of the current line that was read.
    pub closed spec fn pending(&self) -> Seq<u8> {
        self.pending@
    }

    pub closed spec fn cap(&self) -> nat {
        self.cap as nat
    }

    pub fn new(cap: usize) -> (l: Self)
        ensures
            l.wf(),
            l.cap() == cap,
            l.pending() == Seq::<u8>::empty(),
    {
        BoundedLines { cap, buf: Vec::new(), draining: false, pending: Ghost(Seq::empty()) }
    }

    /// Takes in the next chunk, which is empty at the end of the input, and
    /// says how much of it was used. What was left over is offered again.
    pub fn step(&mut self, chunk: &[u8]) -> (r: (usize, LineStep))
        requires
            old(self).wf(),
        ensures
            final(self).wf(),
            final(self).cap() == old(self).cap(),
            is_line_step(old(self).pending(), final(self).pending(), chunk@, old(self).cap(), r),
    {
        let ghost was = self.pending@;
        if chunk.len() == 0 {
            let line = take_buf(&mut self.buf);
            let over = self.draining;
            self.draining = false;
            self.pending = Ghost(Seq::empty());
            if over || line.len() == 0 {
                return (0, LineStep::End);
            }
            return (0, LineStep::Line(line));
        }
        let mut i: usize = 0;
        assert(chunk@.skip(0) =~= chunk@);
        while i < chunk.len() && chunk[i] != 10
            invariant
                i <= chunk@.len(),
                match line_end(chunk@.skip(i as int)) {
                    Some(k) => line_end(chunk@) == Some(k + i),
                    None => line_end(chunk@) is None,
                },
            decreases chunk@.len() - i,
        {
            assert(chunk@.skip(i as int).skip(1) =~= chunk@.skip(i + 1));
            i = i + 1;
        }
        if i < chunk.len() {
            assert(line_end(chunk@) == Some(i as int));
            let ghost line = was + chunk@.take(i as int);
            let fits = !self.draining && self.buf.len() <= self.cap && i <= self.cap
                - self.buf.len();
            assert(fits == (line.len() <= self.cap));
            let mut out = take_buf(&mut self.buf);
            self.draining = false;
            self.pending = Ghost(Seq::empty());
            if fits {
                append_bytes(&mut out, chunk, i);
                assert(out@ =~= line);
                return (i + 1, LineStep::Line(out));
            }
            return (i + 1, LineStep::More);
        }
        assert(chunk@.skip(i as int) =~= Seq::<u8>::empty());
        self.pending = Ghost(was + chunk@);
        if !self.draining {
            if self.buf.len() <= self.cap && i <= self.cap - self.buf.len() {
                append_bytes(&mut self.buf, chunk, i);
                assert(chunk@.take(i as int) =~= chunk@);
            } else {
                self.draining = true;
                self.buf.clear();
            }
        }
        (i, LineStep::More)
    }
}

fn take_buf(buf: &mut Vec<u8>) -> (out: Vec<u8>)
    ensures
        out@ == old(buf)@,
        final(buf)@ == Seq::<u8>::empty(),
{
    let mut out: Vec<u8> = Vec::new();
    out.append(buf);
    assert(out@ =~= old(buf)@);
    out
}

fn append_bytes(out: &mut Vec<u8>, chunk: &[u8], n: usize)
    requires
        n <= chunk@.len(),
    ensures
        final(out)@ == old(out)@ + chunk@.take(n as int),
{
    let ghost was = out@;
    let mut i: usize = 0;
    assert(out@ =~= was + chunk@.take(0));
    while i < n
        invariant
            i <= n <= chunk@.len(),
            out@ == was + chunk@.take(i as int),
        decreases n - i,
    {
        out.push(chunk[i]);
        assert(out@ =~= was + chunk@.take(i + 1));
        i = i + 1;
    }
}

proof fn lemma_line_end(s: Seq<u8>)
    ensures
        match line_end(s) {
            Some(i) => 0 <= i < s.len() && s[i] == 10,
            None => true,
        },
    decreases s.len(),
{
    if s.len() > 0 && s[0] != 10 {
        lemma_line_end(s.skip(1));
    }
}

proof fn lemma_line_end_of_prefix(s: Seq<u8>, n: int)
    requires
        0 <= n <= s.len(),
    ensures
        line_end(s.take(n)) matches Some(i) ==> line_end(s) == Some(i),
        line_end(s.take(n)) is None ==> line_end(s) == (match line_end(s.skip(n)) {
            Some(j) => Some(j + n),
            None => None,
        }),
    decreases n,
{
    if n == 0 {
        assert(s.skip(0) =~= s);
    } else {
        let head = s.take(n);
        assert(head[0] == s[0]);
        if s[0] != 10 {
            lemma_line_end_of_prefix(s.skip(1), n - 1);
            assert(head.skip(1) =~= s.skip(1).take(n - 1));
            assert(s.skip(1).skip(n - 1) =~= s.skip(n));
        }
    }
}

/// How the input is cut into chunks does not matter: whichever prefix of it is
/// offered next, the line that comes out, or the line that is still to come, is
/// the same.
pub proof fn chunks_do_not_matter(pending: Seq<u8>, rest: Seq<u8>, n: int, cap: nat)
    requires
        0 < n <= rest.len(),
    ensures
        match line_end(rest.take(n)) {
            Some(i) => {
                let line = pending + rest.take(i);
                next_line(pending, rest, cap) == (if line.len() <= cap {
                    Some((line, rest.skip(i + 1)))
                } else {
                    next_line(Seq::empty(), rest.skip(i + 1), cap)
                })
            },
            None => next_line(pending, rest, cap) == next_line(
                pending + rest.take(n),
                rest.skip(n),
                cap,
            ),
        },
{
    lemma_line_end_of_prefix(rest, n);
    lemma_line_end(rest);
    lemma_line_end(rest.take(n));
    match line_end(rest.take(n)) {
        Some(i) => {},
        None => {
            let more = pending + rest.take(n);
            let tail = rest.skip(n);
            lemma_line_end(tail);
            match line_end(tail) {
                Some(j) => {
                    assert(more + tail.take(j) =~= pending + rest.take(j + n));
                    assert(tail.skip(j + 1) =~= rest.skip(j + n + 1));
                },
                None => {
                    assert(more + tail =~= pending + rest);
                },
            }
        },
    }
}

// ---------------------------------------------------------------- records

/// One record of a recording.
#[derive(Debug)]
pub struct LogRecord {
    /// What produced the recording; older ones do not say.
    pub backend: Option<String>,
    pub driver: Option<String>,
    pub gpus: Vec<GpuSnapshot>,
    pub processes: Vec<GpuProcess>,
}

/// The state of a playback.
#[derive(Debug)]
pub struct ReplayBackend {
    pub last: LogRecord,
    /// The recording is over; its last frame holds.
    pub finished: bool,
    /// The first record was read when the recording was opened, and the first
    /// poll plays it.
    pub first: bool,
}

/// The recorded cards, each with an identity: its recorded one, or its place,
/// which within one recording is as stable.
pub open spec fn is_frame(gpus: Seq<GpuSnapshot>, recorded: Seq<GpuSnapshot>) -> bool {
    &&& gpus.len() == recorded.len()
    &&& forall|i: int|
        #![trigger gpus[i]]
        0 <= i < gpus.len() ==> gpus[i] == (GpuSnapshot {
            device_id: gpus[i].device_id,
            ..recorded[i]
        }) && opt_text(gpus[i].device_id) == (match opt_text(recorded[i].device_id) {
            Some(id) => Some(id),
            None => Some("replay:"@ + decimal(i as nat)),
        })
}

/// A playback after one more poll, to which `next` was offered.
pub open spec fn after_poll(b: ReplayBackend, next: Option<LogRecord>) -> ReplayBackend {
    if b.first {
        ReplayBackend { first: false, ..b }
    } else if b.finished {
        b
    } else {
        match next {
            Some(rec) => ReplayBackend { last: rec, ..b },
            None => ReplayBackend { finished: true, ..b },
        }
    }
}

/// The rows that name a card of their own frame.
pub open spec fn rows_in_frame(rows: Seq<GpuProcess>, frame: nat) -> Seq<GpuProcess>
    decreases rows.len(),
{
    if rows.len() == 0 {
        Seq::empty()
    } else {
        let rest = rows_in_frame(rows.drop_last(), frame);
        if rows.last().gpu_index < frame {
            rest.push(rows.last())
        } else {
            rest
        }
    }
}

impl ReplayBackend {
    /// A playback, from its first record.
    pub fn new(first: LogRecord) -> (b: Self)
        ensures
            b == (ReplayBackend { last: first, finished: false, first: true }),
    {
        ReplayBackend { last: first, finished: false, first: true }
    }

    pub fn name(&self) -> (s: &'static str)
        ensures
            s@ == "replay"@,
    {
        "replay"
    }

    /// Whether the next poll plays another record.
    pub fn wants_record(&self) -> (b: bool)
        ensures
            b == (!self.first && !self.finished),
    {
        !self.first && !self.finished
    }

    /// Plays the next frame: the preloaded one first, then the record that was
    /// read, and where there is none the last frame, from then on.
    pub fn poll(&mut self, next: Option<LogRecord>) -> (gpus: Vec<GpuSnapshot>)
        ensures
            *final(self) == after_poll(*old(self), next),
            is_frame(gpus@, final(self).last.gpus@),
    {
        if self.first {
            self.first = false;
        } else if !self.finished {
            match next {
                Some(rec) => {
                    self.last = rec;
                },
                None => {
                    self.finished = true;
                },
            }
        }
        let mut gpus: Vec<GpuSnapshot> = Vec::new();
        let mut i: usize = 0;
        while i < self.last.gpus.len()
            invariant
                i <= self.last.gpus.len(),
                is_frame(gpus@, self.last.gpus@.take(i as int)),
            decreases self.last.gpus.len() - i,
        {
            let mut g = self.last.gpus[i].copy();
            let ghost recorded = self.last.gpus@;
            let ghost was = gpus@;
            if g.device_id.is_none() {
                let mut id = String::new();
                id.append("replay:");
                let digits = decimal_text(i as u64);
                id.append(digits.as_str());
                assert(id@ =~= "replay:"@ + decimal(i as nat));
                g.device_id = Some(id);
            }
            gpus.push(g);
            proof {
                let next = recorded.take(i + 1);
                assert forall|k: int|
                    #![trigger gpus@[k]]
                    0 <= k < gpus@.len() implies gpus@[k] == (GpuSnapshot {
                    device_id: gpus@[k].device_id,
                    ..next[k]
                }) && opt_text(gpus@[k].device_id) == (match opt_text(next[k].device_id) {
                    Some(id) => Some(id),
                    None => Some("replay:"@ + decimal(k as nat)),
                }) by {
                    if k < i {
                        assert(gpus@[k] == was[k]);
                        assert(recorded.take(i as int)[k] == next[k]);
                    }
                }
            }
            i = i + 1;
        }
        assert(self.last.gpus@.take(i as int) =~= self.last.gpus@);
        gpus
    }

    /// The recorded rows, without those that name a card outside their frame.
    pub fn processes(&self) -> (rows: Vec<GpuProcess>)
        ensures
            rows@ == rows_in_frame(self.last.processes@, self.last.gpus@.len()),
    {
        let frame: usize = self.last.gpus.len();
        let mut rows: Vec<GpuProcess> = Vec::new();
        let mut i: usize = 0;
        assert(self.last.processes@.take(0) =~= Seq::<GpuProcess>::empty());
        while i < self.last.processes.len()
            invariant
                i <= self.last.processes.len(),
                frame == self.last.gpus@.len(),
                rows@ == rows_in_frame(self.last.processes@.take(i as int), frame as nat),
            decreases self.last.processes.len() - i,
        {
            assert(self.last.processes@.take(i + 1).drop_last() =~= self.last.processes@.take(
                i as int,
            ));
            if self.last.processes[i].gpu_index < frame {
                rows.push(self.last.processes[i].copy());
            }
            i = i + 1;
        }
        assert(self.last.processes@.take(i as int) =~= self.last.processes@);
        rows
    }

    /// What produced the recording, as far as it says.
    pub fn driver_info(&self) -> (r: Option<String>)
        ensures
            opt_text(r) == recorded_info(opt_text(self.last.backend), opt_text(self.last.driver)),
    {
        match &self.last.backend {
            Some(b) => match &self.last.driver {
                Some(d) => {
                    let mut s = String::new();
                    s.append(b.as_str());
                    s.append(" · ");
                    s.append(d.as_str());
                    assert(s@ =~= b@ + " · "@ + d@);
                    Some(s)
                },
                None => Some(b.clone()),
            },
            None => copy_opt(&self.last.driver),
        }
    }

    /// Recorded pids belong to the machine that made the recording.
    pub fn can_signal(&self) -> (b: bool)
        ensures
            !b,
    {
        false
    }
}

/// The playback of a recording after so many polls, each of which is offered
/// the record in its place, where the recording has one.
pub open spec fn played(records: Seq<LogRecord>, polls: nat) -> ReplayBackend
    decreases polls,
{
    if polls == 0 {
        ReplayBackend { last: records[0], finished: false, first: true }
    } else {
        after_poll(
            played(records, (polls - 1) as nat),
            if polls - 1 < records.len() {
                Some(records[polls - 1])
            } else {
                None
            },
        )
    }
}

/// Every record plays once, in order, and the last one holds: poll `n` shows
/// record `n`, or the last where there are fewer.
pub proof fn the_last_frame_holds(records: Seq<LogRecord>, polls: nat)
    requires
        records.len() > 0,
        polls > 0,
    ensures
        played(records, polls).last == (if polls <= records.len() {
            records[polls - 1]
        } else {
            records.last()
        }),
        played(records, polls).finished <==> polls > records.len(),
        !played(records, polls).first,
    decreases polls,
{
    if polls > 1 {
        the_last_frame_holds(records, (polls - 1) as nat);
    } else {
        assert(played(records, 0) == (ReplayBackend {
            last: records[0],
            finished: false,
            first: true,
        }));
    }
}

/// No row survives that names a card outside its frame, and none is lost that
/// names one inside it.
pub proof fn played_rows_stay_in_their_frame(rows: Seq<GpuProcess>, frame: nat)
    ensures
        forall|k: int|
            0 <= k < rows_in_frame(rows, frame).len() ==> (#[trigger] rows_in_frame(
                rows,
                frame,
            )[k]).gpu_index < frame,
        forall|k: int|
            0 <= k < rows.len() && (#[trigger] rows[k]).gpu_index < frame ==> rows_in_frame(
                rows,
                frame,
            ).contains(rows[k]),
    decreases rows.len(),
{
    if rows.len() > 0 {
        let init = rows.drop_last();
        played_rows_stay_in_their_frame(init, frame);
        let kept = rows_in_frame(init, frame);
        let all = rows_in_frame(rows, frame);
        assert forall|k: int| 0 <= k < all.len() implies (#[trigger] all[k]).gpu_index < frame by {
            if k < kept.len() {
                assert(all[k] == kept[k]);
            }
        }
        assert forall|k: int| 0 <= k < rows.len() && (#[trigger] rows[k]).gpu_index < frame implies all.contains(
            rows[k],
        ) by {
            if k < init.len() {
                assert(init[k] == rows[k]);
                let w = choose|w: int| 0 <= w < kept.len() && kept[w] == rows[k];
                assert(all[w] == rows[k]);
            } else {
                assert(all[all.len() - 1] == rows[k]);
            }
        }
    }
}

/// A newline ends a line: what stands before it comes out, and reading goes on
/// behind it. A line beyond the cap is left out, and the next one comes.
pub proof fn a_newline_ends_a_line(line: Seq<u8>, rest: Seq<u8>, cap: nat)
    requires
        !line.contains(10),
    ensures
        line.len() <= cap ==> next_line(Seq::empty(), line.push(10) + rest, cap) == Some(
            (line, rest),
        ),
        line.len() > cap ==> next_line(Seq::empty(), line.push(10) + rest, cap) == next_line(
            Seq::empty(),
            rest,
            cap,
        ),
        0 < line.len() <= cap ==> next_line(Seq::empty(), line, cap) == Some(
            (line, Seq::<u8>::empty()),
        ),
        next_line(Seq::empty(), Seq::empty(), cap) is None,
{
    let none = Seq::<u8>::empty();
    let all = line.push(10) + rest;
    lemma_first_newline(line, seq![10u8] + rest);
    assert(all =~= line + (seq![10u8] + rest));
    assert(none + all.take(line.len() as int) =~= line);
    assert(all.skip(line.len() as int + 1) =~= rest);
    lemma_first_newline(line, none);
    assert(line + none =~= line);
    assert(none + line =~= line);
    assert(line_end(none) is None);
    assert(none + none =~= none);
}

proof fn lemma_first_newline(line: Seq<u8>, behind: Seq<u8>)
    requires
        !line.contains(10),
        behind.len() > 0 ==> behind[0] == 10,
    ensures
        behind.len() > 0 ==> line_end(line + behind) == Some(line.len() as int),
        behind.len() == 0 ==> line_end(line + behind) is None,
    decreases line.len(),
{
    let s = line + behind;
    if line.len() > 0 {
        assert(s[0] == line[0]);
        assert(line.contains(line[0]));
        let tail = line.skip(1);
        if tail.contains(10) {
            let w = choose|w: int| 0 <= w < tail.len() && tail[w] == 10;
            assert(line[w + 1] == 10);
            assert(line.contains(line[w + 1]));
        }
        lemma_first_newline(tail, behind);
        assert(s.skip(1) =~= tail + behind);
    } else {
        assert(s =~= behind);
    }
}

/// A played card is the recorded one, under its recorded identity; one that was
/// recorded without is told apart from the others by its place.
pub proof fn played_cards_are_the_recorded_ones(
    gpus: Seq<GpuSnapshot>,
    recorded: Seq<GpuSnapshot>,
    i: int,
    j: int,
)
    requires
        is_frame(gpus, recorded),
        0 <= i < gpus.len(),
        0 <= j < gpus.len(),
    ensures
        gpus[i].name == recorded[i].name,
        gpus[i].utilization_pct == recorded[i].utilization_pct,
        gpus[i].temperature_c == recorded[i].temperature_c,
        gpus[i].vram_used_bytes == recorded[i].vram_used_bytes,
        gpus[i].device_id is Some,
        recorded[i].device_id matches Some(id) ==> gpus[i].device_id->0@ == id@,
        i != j && recorded[i].device_id is None && recorded[j].device_id is None
            ==> gpus[i].device_id->0@ != gpus[j].device_id->0@,
{
    assert(gpus[i] == gpus[i]);
    assert(gpus[j] == gpus[j]);
    if i != j && recorded[i].device_id is None && recorded[j].device_id is None {
        let p = "replay:"@;
        let a = decimal(i as nat);
        let b = decimal(j as nat);
        decimal_reads_back(i as nat);
        decimal_reads_back(j as nat);
        assert((p + a).skip(p.len() as int) =~= a);
        assert((p + b).skip(p.len() as int) =~= b);
    }
}

/// The backend and the driver of a recording, one beside the other.
pub open spec fn recorded_info(backend: Option<Seq<char>>, driver: Option<Seq<char>>) -> Option<
    Seq<char>,
> {
    match (backend, driver) {
        (Some(b), Some(d)) => Some(b + " · "@ + d),
        (Some(b), None) => Some(b),
        (None, d) => d,
    }
}

/// What a chunk leads to: the line that it ends, or that there is more to read,
/// or that the input is over.
pub open spec fn is_line_step(
    was: Seq<u8>,
    now: Seq<u8>,
    chunk: Seq<u8>,
    cap: nat,
    r: (usize, LineStep),
) -> bool {
    match line_end(chunk) {
        Some(i) => {
            let line = was + chunk.take(i);
            &&& r.0 == i + 1
            &&& now == Seq::<u8>::empty()
            &&& if line.len() <= cap {
                r.1 matches LineStep::Line(v) && v@ == line
            } else {
                r.1 is More
            }
        },
        None => {
            &&& r.0 == chunk.len()
            &&& if chunk.len() > 0 {
                now == was + chunk && r.1 is More
            } else if 0 < was.len() <= cap {
                &&& r.1 matches LineStep::Line(v)
                &&& v@ == was
                &&& now == Seq::<u8>::empty()
            } else {
                r.1 is End && now == Seq::<u8>::empty()
            }
        },
    }
}

/// What was read of a line and the chunk that ends it make up the line; a chunk
/// that ends none is kept with it; a line beyond the cap is left out, and the
/// end of the input ends the last line.
pub proof fn chunks_make_up_a_line(
    was: Seq<u8>,
    now: Seq<u8>,
    part: Seq<u8>,
    rest: Seq<u8>,
    cap: nat,
    r: (usize, LineStep),
)
    requires
        !part.contains(10),
    ensures
        is_line_step(was, now, part.push(10) + rest, cap, r) ==> r.0 == part.len() + 1 && now.len()
            == 0 && (if was.len() + part.len() <= cap {
            r.1 matches LineStep::Line(v) && v@ == was + part
        } else {
            r.1 is More
        }),
        part.len() > 0 && is_line_step(was, now, part, cap, r) ==> r.0 == part.len() && now == was
            + part && r.1 is More,
        is_line_step(was, now, Seq::empty(), cap, r) ==> r.0 == 0 && now.len() == 0 && (if 0
            < was.len() <= cap {
            r.1 matches LineStep::Line(v) && v@ == was
        } else {
            r.1 is End
        }),
{
    let none = Seq::<u8>::empty();
    let all = part.push(10) + rest;
    lemma_first_newline(part, seq![10u8] + rest);
    assert(all =~= part + (seq![10u8] + rest));
    assert(all.take(part.len() as int) =~= part);
    lemma_first_newline(part, none);
    assert(part + none =~= part);
    assert(line_end(none) is None);
}

/// A recording shows its backend and its driver, whichever of them it has.
pub proof fn a_recording_names_its_backend(b: Seq<char>, d: Seq<char>)
    ensures
        recorded_info(Some(b), Some(d)) matches Some(t) && contains_text(t, b) && contains_text(
            t,
            d,
        ),
        recorded_info(Some(b), None) == Some(b),
        recorded_info(None, Some(d)) == Some(d),
        recorded_info(None, None) is None,
{
    let t = b + " · "@ + d;
    let e = Seq::<char>::empty();
    a_text_is_found_where_it_stands(e, b, " · "@ + d);
    assert(e + b + (" · "@ + d) =~= t);
    a_text_is_found_where_it_stands(b + " · "@, d, e);
    assert(t + e =~= t);
}

} // verus!
