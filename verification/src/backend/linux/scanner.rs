//! The `/proc` walk's bookkeeping: when a walk is due, what number it gets, and
//! who has already attributed it. Threads and clocks belong to the caller.
use vstd::prelude::*;
use crate::backend::linux::fdinfo::FdClient;

verus! {

/// A walk younger than this, in nanoseconds, already covers a request.
pub const MIN_WALK_INTERVAL_NS: u64 = 200_000_000;

/// How long a caller waits for the very first walk, in nanoseconds.
pub const FIRST_SCAN_WAIT_NS: u64 = 2_000_000_000;

/// Every DRM client of every readable process, as one walk found them.
pub struct ProcSnapshot {
    /// A process appears once per DRM client it holds.
    pub clients: Vec<(u32, FdClient)>,
    /// When the walk finished, in nanoseconds.
    pub at: u64,
    /// The walk's number.
    pub seq: u64,
}

/// What a caller asking for the newest walk has to do.
#[derive(Clone, Copy, PartialEq, Eq, Structural, Debug)]
pub enum Ask {
    /// Walk on the calling thread, under this number.
    WalkHere(u64),
    /// Take the newest walk; wake the worker first where `wake` says so.
    Take { wake: bool },
    /// Nothing was ever published: wait for the first walk.
    Wait { wake: bool },
}

/// The scanner's state, as the worker and its callers share it.
pub struct ProcScanner {
    pub latest: Option<ProcSnapshot>,
    /// A walk has been asked for and not yet started.
    pub wanted: bool,
    /// The worker is mid-walk.
    pub walking: bool,
    /// The highest number given to a walk.
    pub seq: u64,
    /// Callers walk themselves instead of asking the worker.
    pub synchronous: bool,
}

impl ProcScanner {
    /// The published walk carries a number that was given out.
    pub open spec fn wf(&self) -> bool {
        self.latest matches Some(s) ==> s.seq <= self.seq
    }

    /// The newest walk is recent enough to serve a request at `now_ns`.
    pub open spec fn fresh(&self, now_ns: u64) -> bool {
        self.latest matches Some(s) && now_ns - s.at < MIN_WALK_INTERVAL_NS
    }

    /// A request at `now_ns` starts a walk: none is running and the newest is
    /// not recent.
    pub open spec fn wakes(&self, now_ns: u64) -> bool {
        !self.walking && !self.fresh(now_ns)
    }

    /// A request at `now_ns` is answered with `a` and leaves the scanner as
    /// `after`.
    pub open spec fn asked(self, now_ns: u64, a: Ask, after: ProcScanner) -> bool {
        if self.synchronous {
            &&& a == Ask::WalkHere((self.seq + 1) as u64)
            &&& after == (ProcScanner { seq: (self.seq + 1) as u64, ..self })
        } else {
            let wake = self.wakes(now_ns);
            &&& a == (if self.latest is Some {
                Ask::Take { wake }
            } else {
                Ask::Wait { wake }
            })
            &&& after == (ProcScanner { wanted: self.wanted || wake, ..self })
        }
    }

    /// The scanner once a caller's own walk is published.
    pub open spec fn with_walk(self, snap: ProcSnapshot) -> ProcScanner {
        ProcScanner { latest: Some(snap), ..self }
    }

    /// The scanner once the worker took up a wanted walk.
    pub open spec fn with_walk_begun(self) -> ProcScanner {
        ProcScanner { wanted: false, walking: true, seq: (self.seq + 1) as u64, ..self }
    }

    /// The scanner once the worker published the walk it took up.
    pub open spec fn with_walk_ended(self, snap: ProcSnapshot) -> ProcScanner {
        ProcScanner { latest: Some(snap), walking: false, ..self }
    }

    /// The scanner once a finished walk was published under the next number.
    pub open spec fn with_published(self, clients: Vec<(u32, FdClient)>, at: u64) -> ProcScanner {
        let n = (self.seq + 1) as u64;
        ProcScanner { latest: Some(ProcSnapshot { clients, at, seq: n }), seq: n, ..self }
    }

    /// A scanner that has not walked yet; its first walk is wanted before
    /// anyone asks.
    pub fn detached() -> (s: Self)
        ensures
            s.wf(),
            s.latest is None,
            s.wanted,
            !s.walking,
            s.seq == 0,
            !s.synchronous,
    {
        ProcScanner { latest: None, wanted: true, walking: false, seq: 0, synchronous: false }
    }

    /// Takes the outcome of starting the worker: without one, callers walk
    /// themselves.
    pub fn on_spawn_outcome(&mut self, spawned: bool)
        ensures
            *final(self) == (ProcScanner {
                synchronous: old(self).synchronous || !spawned,
                ..*old(self)
            }),
    {
        if !spawned {
            self.set_synchronous(true);
        }
    }

    /// Makes callers walk themselves, or go back to the worker.
    pub fn set_synchronous(&mut self, on: bool)
        ensures
            *final(self) == (ProcScanner { synchronous: on, ..*old(self) }),
    {
        self.synchronous = on;
    }

    /// Takes a request for the newest walk.
    pub fn ask(&mut self, now_ns: u64) -> (a: Ask)
        requires
            old(self).wf(),
            old(self).seq < u64::MAX,
        ensures
            final(self).wf(),
            old(self).asked(now_ns, a, *final(self)),
    {
        if self.synchronous {
            return Ask::WalkHere(self.next_seq());
        }
        let fresh = match &self.latest {
            Some(s) => now_ns < s.at || now_ns - s.at < MIN_WALK_INTERVAL_NS,
            None => false,
        };
        let wake = !self.walking && !fresh;
        if wake {
            self.wanted = true;
        }
        if self.latest.is_some() {
            Ask::Take { wake }
        } else {
            Ask::Wait { wake }
        }
    }

    /// The number of the next walk, never given out before.
    pub fn next_seq(&mut self) -> (n: u64)
        requires
            old(self).seq < u64::MAX,
        ensures
            n == old(self).seq + 1,
            *final(self) == (ProcScanner { seq: n, ..*old(self) }),
    {
        self.seq = self.seq + 1;
        self.seq
    }

    /// The worker takes up a wanted walk and its number.
    pub fn begin_walk(&mut self) -> (r: Option<u64>)
        requires
            old(self).wf(),
            old(self).seq < u64::MAX,
        ensures
            final(self).wf(),
            if old(self).wanted {
                &&& r == Some((old(self).seq + 1) as u64)
                &&& *final(self) == old(self).with_walk_begun()
            } else {
                r is None && *final(self) == *old(self)
            },
    {
        if self.wanted {
            self.wanted = false;
            self.walking = true;
            Some(self.next_seq())
        } else {
            None
        }
    }

    /// The worker publishes the walk it took up.
    pub fn end_walk(&mut self, snap: ProcSnapshot)
        requires
            old(self).wf(),
            snap.seq <= old(self).seq,
        ensures
            final(self).wf(),
            *final(self) == old(self).with_walk_ended(snap),
    {
        self.latest = Some(snap);
        self.walking = false;
    }

    /// A caller publishes the walk it made itself.
    pub fn scanned_here(&mut self, snap: ProcSnapshot)
        requires
            old(self).wf(),
            snap.seq <= old(self).seq,
        ensures
            final(self).wf(),
            *final(self) == old(self).with_walk(snap),
    {
        self.latest = Some(snap);
    }

    /// Publishes a finished walk under the next number.
    pub fn publish(&mut self, clients: Vec<(u32, FdClient)>, at: u64)
        requires
            old(self).wf(),
            old(self).seq < u64::MAX,
        ensures
            final(self).wf(),
            *final(self) == old(self).with_published(clients, at),
    {
        let seq: u64 = self.next_seq();
        self.latest = Some(ProcSnapshot { clients, at, seq });
    }

    /// The newest finished walk.
    pub fn latest(&self) -> (r: Option<&ProcSnapshot>)
        ensures
            r == (match self.latest {
                Some(s) => Some(&s),
                None => None,
            }),
    {
        self.latest.as_ref()
    }
}

/// One backend's place in the stream of walks.
#[derive(Clone, Copy, PartialEq, Eq, Structural, Debug)]
pub struct SweepCursor {
    pub seen_seq: Option<u64>,
}

impl SweepCursor {
    /// A cursor that has attributed nothing yet.
    pub fn on() -> (c: Self)
        ensures
            c.seen_seq is None,
    {
        SweepCursor { seen_seq: None }
    }

    /// The cursor hands this walk out: it is not the one it handed out last.
    pub open spec fn hands(self, newest: Option<u64>) -> bool {
        newest is Some && self.seen_seq != newest
    }

    /// The cursor after it was asked about the newest walk.
    pub open spec fn after(self, newest: Option<u64>) -> SweepCursor {
        if self.hands(newest) {
            SweepCursor { seen_seq: newest }
        } else {
            self
        }
    }

    /// The newest walk, where it is not the one this cursor last handed out.
    pub fn next<'a>(&mut self, newest: Option<&'a ProcSnapshot>) -> (r: Option<&'a ProcSnapshot>)
        ensures
            *final(self) == old(self).after(number_of(newest)),
            r == (if old(self).hands(number_of(newest)) {
                newest
            } else {
                None
            }),
    {
        match newest {
            Some(s) => {
                let again = match self.seen_seq {
                    Some(n) => n == s.seq,
                    None => false,
                };
                if again {
                    None
                } else {
                    self.seen_seq = Some(s.seq);
                    Some(s)
                }
            },
            None => None,
        }
    }
}

/// The number of a walk.
pub open spec fn number_of(snap: Option<&ProcSnapshot>) -> Option<u64> {
    match snap {
        Some(s) => Some(s.seq),
        None => None,
    }
}

// ---------------------------------------------------------------- laws

/// A cursor hands each walk out once: asked again while the newest walk is the
/// same, it has nothing new, and a new number is always handed out.
pub proof fn each_walk_is_attributed_once(c: SweepCursor, newest: Option<u64>, later: Option<u64>)
    ensures
        !c.after(newest).hands(newest),
        c.hands(newest) && later is Some && later != newest ==> c.after(newest).hands(later),
{
}

/// Where callers walk themselves, no request is served an older walk: each is
/// answered with a walk of its own, under a number above every number before
/// it; published, that walk is the newest, and finished no earlier than the
/// request where it was made for it; and a cursor that has attributed the walk
/// before it hands it out.
pub proof fn each_request_gets_a_walk_of_its_own(
    s: ProcScanner,
    first_ns: u64,
    first: ProcSnapshot,
    s1: ProcScanner,
    second_ns: u64,
    second: ProcSnapshot,
    s2: ProcScanner,
    c: SweepCursor,
)
    requires
        s.wf(),
        s.seq < u64::MAX - 1,
        s.synchronous,
        s.asked(first_ns, Ask::WalkHere(first.seq), s1),
        s1.with_walk(first).asked(second_ns, Ask::WalkHere(second.seq), s2),
    ensures
        s.latest matches Some(before) ==> before.seq < first.seq,
        first.seq < second.seq,
        s1.with_walk(first).wf(),
        s1.with_walk(first).latest == Some(first),
        s2.with_walk(second).wf(),
        s2.with_walk(second).latest == Some(second),
        second.at >= second_ns ==> (s2.with_walk(second).latest matches Some(newest) && newest.at
            >= second_ns),
        s2.with_walk(second).synchronous,
        c.seen_seq == Some(first.seq) ==> c.hands(Some(second.seq)),
{
}

/// One use of the scanner while callers walk themselves: a request, a walk that
/// is published, or the worker with a walk that it was asked for before. A
/// published walk carries a number that was given out.
pub open spec fn used(before: ProcScanner, after: ProcScanner) -> bool {
    ||| exists|now_ns: u64, a: Ask| before.seq < u64::MAX && #[trigger] before.asked(now_ns, a, after)
    ||| exists|snap: ProcSnapshot|
        snap.seq <= before.seq && after == #[trigger] before.with_walk(snap)
    ||| before.wanted && before.seq < u64::MAX && after == before.with_walk_begun()
    ||| exists|snap: ProcSnapshot|
        snap.seq <= before.seq && after == #[trigger] before.with_walk_ended(snap)
    ||| exists|clients: Vec<(u32, FdClient)>, at: u64|
        before.seq < u64::MAX && after == #[trigger] before.with_published(clients, at)
}

/// The scanner's states over any number of uses.
pub open spec fn is_history(states: Seq<ProcScanner>) -> bool
    decreases states.len(),
{
    states.len() <= 1 || is_history(states.drop_last()) && used(
        states[states.len() - 2],
        states.last(),
    )
}

/// However the scanner was used since, a request gets a walk under a number
/// above every number that was given out before, and above that of every walk
/// that was ever published.
pub proof fn later_requests_get_higher_numbers(
    states: Seq<ProcScanner>,
    now_ns: u64,
    n: u64,
    after: ProcScanner,
)
    requires
        states.len() > 0,
        is_history(states),
        states[0].wf(),
        states[0].synchronous,
        states.last().seq < u64::MAX,
        states.last().asked(now_ns, Ask::WalkHere(n), after),
    ensures
        after.wf(),
        after.synchronous,
        forall|k: int| 0 <= k < states.len() ==> (#[trigger] states[k]).seq < n,
        forall|k: int|
            0 <= k < states.len() ==> ((#[trigger] states[k]).latest matches Some(s) ==> s.seq < n),
{
    lemma_numbers_rise(states);
}

proof fn lemma_numbers_rise(states: Seq<ProcScanner>)
    requires
        states.len() > 0,
        is_history(states),
        states[0].wf(),
        states[0].synchronous,
    ensures
        states.last().synchronous,
        forall|k: int|
            0 <= k < states.len() ==> (#[trigger] states[k]).wf() && states[k].seq
                <= states.last().seq,
    decreases states.len(),
{
    if states.len() > 1 {
        let init = states.drop_last();
        lemma_numbers_rise(init);
        assert(init.last() == states[states.len() - 2]);
        assert forall|k: int| 0 <= k < states.len() implies (#[trigger] states[k]).wf()
            && states[k].seq <= states.last().seq by {
            assert(init[init.len() - 1].wf());
            if k < init.len() {
                assert(init[k] == states[k]);
            }
        }
    }
}

/// Requests arriving while a walk runs, or soon after one, start no other.
pub proof fn walks_are_paced(s: ProcScanner, now_ns: u64)
    ensures
        s.walking ==> !s.wakes(now_ns),
        s.latest matches Some(snap) && now_ns - snap.at < MIN_WALK_INTERVAL_NS ==> !s.wakes(now_ns),
        !s.walking && (s.latest matches Some(snap) ==> now_ns - snap.at >= MIN_WALK_INTERVAL_NS)
            ==> s.wakes(now_ns),
{
}

} // verus!
