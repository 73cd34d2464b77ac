//! Taking a poll: what a failure changes, what a success changes, and whose
//! state each device's figures go to.
use vstd::prelude::*;
use crate::app::device::{device_keys, device_keys_are_distinct, find_key, keys_of, DeviceId};
use crate::app::evict::{absent, evicted, evictions, excess, lemma_eviction_bounds, MAX_ABSENT_DEVICES};
use crate::app::history::{histories_wf, newest, record_sample, samples_of, Sample};
use crate::app::table::{clamp_index, within};
use crate::app::App;
use crate::backend::{detection_never_promotes, opt_text, Detection, GpuSnapshot};
use crate::keyed::views;
use crate::text::{decimal, decimal_text, a_text_is_found_where_it_stands, contains_text};

verus! {

/// What to do after a poll.
#[derive(Debug)]
pub enum PollStep {
    /// The session is paused: nothing was taken.
    Paused,
    /// The poll failed; the last good snapshot stays.
    Kept,
    /// The poll failed often enough to detect the backend again.
    Redetect(Detection),
    /// The poll was taken; the process table is due.
    Taken,
}

/// How many samples each graph keeps: the configured length, or what the
/// widest graph shows plus slack for a resize.
pub open spec fn history_cap(app: &App) -> nat {
    if app.history_len > app.history_need + 8 {
        app.history_len as nat
    } else {
        (app.history_need + 8) as nat
    }
}

/// The poll number of every known device after poll number `now` saw `live`.
pub open spec fn seen_after(seen: Map<DeviceId, u64>, live: Seq<DeviceId>, now: u64) -> Map<
    DeviceId,
    u64,
> {
    seen.union_prefer_right(Map::new(|k: DeviceId| live.contains(k), |k: DeviceId| now))
}

/// The devices that a poll of `gpus` forgets.
pub open spec fn forgotten(app: &App, gpus: Seq<GpuSnapshot>) -> Set<DeviceId> {
    let live = keys_of(gpus);
    evicted(seen_after(app.last_seen@, live, (app.polls + 1) as u64), live)
}

/// Where the selection goes when the cards are replaced: onto the same device
/// where it is still there, into range otherwise.
pub open spec fn selection_after(app: &App, gpus: Seq<GpuSnapshot>) -> int {
    let live = keys_of(gpus);
    if app.selected < app.keys@.len() && live.contains(app.key_of(app.selected as int)) {
        live.index_of(app.key_of(app.selected as int))
    } else {
        within(app.selected, gpus.len())
    }
}

/// A poll can be counted and its graphs measured within machine integers.
pub open spec fn countable(app: &App) -> bool {
    app.polls < u64::MAX && app.poll_failures < u32::MAX && app.history_need <= usize::MAX - 8
}

/// What a successful poll leaves behind, device by device: the live ones have
/// their sample appended and their sighting renewed, the forgotten ones are
/// gone from every map, and the rest are as they were.
pub open spec fn poll_taken(
    before: &App,
    gpus: Seq<GpuSnapshot>,
    samples: Seq<Sample>,
    after: &App,
) -> bool {
    let live = keys_of(gpus);
    let gone = forgotten(before, gpus);
    let now = (before.polls + 1) as u64;
    &&& after.gpus@ == gpus
    &&& views(after.keys@) == live
    &&& after.selected == selection_after(before, gpus)
    &&& after.last_seen@ == seen_after(before.last_seen@, live, now).remove_keys(gone)
    &&& after.folded@.dom() == before.folded@.dom().difference(gone)
    &&& after.session@ == before.session@.remove_keys(gone)
    &&& after.history@.dom() == before.history@.dom().union(live.to_set()).difference(gone)
    &&& forall|i: int|
        0 <= i < live.len() ==> (after.history@[#[trigger] live[i]])@ == newest(
            samples_of(before.history@, live[i]).push(samples[i]),
            history_cap(before),
        )
    &&& forall|k: DeviceId|
        before.history@.dom().contains(k) && !live.contains(k) && !gone.contains(k)
            ==> #[trigger] after.history@[k] == before.history@[k]
    &&& *after == (App {
        gpus: after.gpus,
        keys: after.keys,
        selected: after.selected,
        last_seen: after.last_seen,
        folded: after.folded,
        session: after.session,
        history: after.history,
        polls: now,
        poll_error: None,
        poll_failures: 0,
        ..*before
    })
}

/// `after` is the session once it took the outcome of a poll, and `step` what
/// is to be done then.
pub open spec fn polled(
    before: &App,
    outcome: Result<(Vec<GpuSnapshot>, Vec<Sample>), String>,
    after: &App,
    step: PollStep,
) -> bool {
    &&& before.paused ==> step is Paused && *after == *before
    &&& !before.paused ==> match outcome {
        Ok((gpus, samples)) => step is Taken && poll_taken(before, gpus@, samples@, after),
        Err(e) => {
            let failed = (before.poll_failures + 1) as u32;
            &&& opt_text(after.poll_error) == Some("poll failed: "@ + e@)
            &&& *after == (App {
                poll_error: after.poll_error,
                poll_failures: failed,
                ..*before
            })
            &&& step == (if failed % 5 == 0 {
                PollStep::Redetect(before.source.detection())
            } else {
                PollStep::Kept
            })
        },
    }
}

/// `after` is the session once it took over a backend that was detected again,
/// which says of its own pids whether they are this machine's.
pub open spec fn taken_over(
    before: &App,
    name: String,
    local: bool,
    now_ns: u64,
    after: &App,
) -> bool {
    &&& after.status matches Some((msg, at)) && at == now_ns && msg@ == "backend re-detected ("@
        + name@ + ") after "@ + decimal(before.poll_failures as nat) + " failed polls"@
    &&& *after == (App {
        backend_name: name,
        backend_local: local && before.source.detection().local(),
        status: after.status,
        ..*before
    })
}

impl App {
    /// Whether the counters have room for another poll.
    pub fn can_count(&self) -> (b: bool)
        ensures
            b == countable(self),
    {
        self.polls < u64::MAX && self.poll_failures < u32::MAX && self.history_need <= usize::MAX
            - 8
    }

    /// Takes the outcome of a poll: the cards with their rounded samples, or
    /// the reason it failed. A failure keeps the last good snapshot; every
    /// fifth in a row asks for the backend to be detected again, from the
    /// session's own source.
    pub fn poll(
        &mut self,
        outcome: Result<(Vec<GpuSnapshot>, Vec<Sample>), String>,
    ) -> (step: PollStep)
        requires
            old(self).wf(),
            countable(old(self)),
            outcome matches Ok((gpus, samples)) ==> gpus@.len() == samples@.len() && gpus@.len()
                + MAX_ABSENT_DEVICES <= usize::MAX,
        ensures
            final(self).wf(),
            polled(old(self), outcome, final(self), step),
            !old(self).paused && outcome is Ok ==> final(self).last_seen@.dom().len() <= (
            outcome->Ok_0).0@.len() + MAX_ABSENT_DEVICES,
    {
        if self.paused {
            return PollStep::Paused;
        }
        match outcome {
            Err(e) => {
                let mut text = String::new();
                text.append("poll failed: ");
                text.append(e.as_str());
                assert(text@ =~= "poll failed: "@ + e@);
                self.poll_error = Some(text);
                self.poll_failures = self.poll_failures + 1;
                if self.poll_failures % 5 == 0 {
                    PollStep::Redetect(self.source.detect())
                } else {
                    PollStep::Kept
                }
            },
            Ok((gpus, samples)) => {
                self.take_poll(gpus, &samples);
                PollStep::Taken
            },
        }
    }

    fn take_poll(&mut self, gpus: Vec<GpuSnapshot>, samples: &Vec<Sample>)
        requires
            old(self).wf(),
            countable(old(self)),
            gpus@.len() == samples@.len(),
            gpus@.len() + MAX_ABSENT_DEVICES <= usize::MAX,
        ensures
            final(self).wf(),
            poll_taken(old(self), gpus@, samples@, final(self)),
            final(self).last_seen@.dom().len() <= gpus@.len() + MAX_ABSENT_DEVICES,
    {
        let ghost before = *self;
        let ghost live = keys_of(gpus@);
        let ghost now = (before.polls + 1) as u64;
        proof {
            device_keys_are_distinct(gpus@);
        }
        let keys = device_keys(&gpus);
        let selected = if self.selected < self.keys.len() {
            match find_key(&keys, &self.keys[self.selected]) {
                Some(i) => {
                    proof {
                        let k = before.key_of(before.selected as int);
                        assert(live[i as int] == k);
                        live.index_of_first_ensures(k);
                        assert(live.contains(k));
                        let w = live.index_of(k);
                        assert(live[w] == k);
                    }
                    i
                },
                None => {
                    proof {
                        let k = before.key_of(before.selected as int);
                        if live.contains(k) {
                            let w = choose|w: int| 0 <= w < live.len() && live[w] == k;
                            assert(keys@[w]@ == k);
                        }
                    }
                    clamp_index(self.selected, gpus.len())
                },
            }
        } else {
            clamp_index(self.selected, gpus.len())
        };
        self.selected = selected;
        self.gpus = gpus;
        self.keys = keys;
        self.poll_error = None;
        self.poll_failures = 0;
        self.polls = self.polls + 1;
        let slack: usize = self.history_need + 8;
        let cap: usize = if self.history_len > slack { self.history_len } else { slack };
        let mut i: usize = 0;
        let ghost mid = *self;
        assert(seen_after(before.last_seen@, live.take(0), now) =~= before.last_seen@);
        assert(before.history@.dom().union(live.take(0).to_set()) =~= before.history@.dom());
        while i < self.keys.len()
            invariant
                i <= self.keys@.len(),
                self.wf(),
                live == views(self.keys@),
                live.no_duplicates(),
                samples@.len() == live.len(),
                now == self.polls,
                *self == (App { last_seen: self.last_seen, history: self.history, ..mid }),
                mid.history == before.history,
                cap == history_cap(&before),
                self.last_seen@ == seen_after(before.last_seen@, live.take(i as int), now),
                self.history@.dom() == before.history@.dom().union(live.take(i as int).to_set()),
                forall|k: int|
                    0 <= k < i ==> (self.history@[#[trigger] live[k]])@ == newest(
                        samples_of(before.history@, live[k]).push(samples@[k]),
                        cap as nat,
                    ),
                forall|k: DeviceId|
                    before.history@.dom().contains(k) && !live.take(i as int).contains(k)
                        ==> #[trigger] self.history@[k] == before.history@[k],
            decreases self.keys.len() - i,
        {
            let key = self.keys[i].clone();
            let ghost head = live.take(i as int);
            let ghost was = self.history@;
            proof {
                assert(live.take(i + 1) =~= head.push(live[i as int]));
                assert(key@ == live[i as int]);
                if head.contains(key@) {
                    let w = choose|w: int| 0 <= w < head.len() && head[w] == key@;
                    assert(live[w] == live[i as int]);
                }
                assert(live.take(i + 1)[i as int] == key@);
                assert forall|k: DeviceId| live.take(i + 1).contains(k) <==> (head.contains(k) || k == key@) by {
                    if head.contains(k) {
                        let w = choose|w: int| 0 <= w < head.len() && head[w] == k;
                        assert(live.take(i + 1)[w] == k);
                    }
                }
            }
            let polls: u64 = self.polls;
            self.last_seen.insert(key.clone(), polls);
            record_sample(&mut self.history, &key, samples[i], cap);
            proof {
                assert(self.last_seen@ =~= seen_after(before.last_seen@, live.take(i + 1), now));
                assert(self.history@.dom() =~= before.history@.dom().union(live.take(i + 1).to_set()));
                assert(samples_of(was, key@) == samples_of(before.history@, key@));
                assert forall|k: int| 0 <= k < i + 1 implies (self.history@[#[trigger] live[k]])@ == newest(
                    samples_of(before.history@, live[k]).push(samples@[k]),
                    cap as nat,
                ) by {
                    if k < i {
                        assert(live[k] != live[i as int]);
                        assert(head[k] == live[k]);
                        assert(was.dom().contains(live[k]));
                    }
                }
            }
            i = i + 1;
        }
        assert(live.take(i as int) =~= live);
        let ghost full = *self;
        self.evict_absent_devices();
        proof {
            let gone = forgotten(&before, gpus@);
            assert forall|j: int| 0 <= j < live.len() implies full.last_seen@.dom().contains(#[trigger] live[j]) by {
                assert(live.contains(live[j]));
            }
            assert forall|j: int| 0 <= j < live.len() implies !gone.contains(#[trigger] live[j]) by {
                assert(live.to_set().contains(live[j]));
            }
            assert(self.folded@.dom() =~= before.folded@.dom().difference(gone));
            assert(self.history@.dom() =~= before.history@.dom().union(live.to_set()).difference(gone));
        }
    }

    /// Forgets the longest-absent departed devices once too many have piled up.
    pub fn evict_absent_devices(&mut self)
        requires
            old(self).wf(),
            old(self).keys@.len() + MAX_ABSENT_DEVICES <= usize::MAX,
        ensures
            final(self).wf(),
            absent_evicted(*old(self), *final(self)),
            views(old(self).keys@).no_duplicates() && (forall|i: int|
                0 <= i < old(self).keys@.len() ==> old(self).last_seen@.dom().contains(
                    #[trigger] views(old(self).keys@)[i],
                )) ==> final(self).last_seen@.dom().len() <= old(self).keys@.len()
                + MAX_ABSENT_DEVICES,
    {
        let ghost before = *self;
        let ghost live = views(before.keys@);
        let gone = evictions(&self.last_seen, &self.keys);
        let ghost ids = views(gone@);
        let mut i: usize = 0;
        proof {
            let none = ids.take(0).to_set();
            assert(before.last_seen@.remove_keys(none) =~= before.last_seen@);
            assert(before.history@.remove_keys(none) =~= before.history@);
            assert(before.session@.remove_keys(none) =~= before.session@);
            assert(before.folded@.remove_keys(none) =~= before.folded@);
        }
        while i < gone.len()
            invariant
                i <= gone.len(),
                self.wf(),
                ids == views(gone@),
                self.last_seen@ == before.last_seen@.remove_keys(ids.take(i as int).to_set()),
                self.history@ == before.history@.remove_keys(ids.take(i as int).to_set()),
                self.session@ == before.session@.remove_keys(ids.take(i as int).to_set()),
                self.folded@ == before.folded@.remove_keys(ids.take(i as int).to_set()),
                *self == (App {
                    last_seen: self.last_seen,
                    history: self.history,
                    session: self.session,
                    folded: self.folded,
                    ..before
                }),
            decreases gone.len() - i,
        {
            let key = &gone[i];
            let ghost head = ids.take(i as int).to_set();
            let ghost next = ids.take(i + 1).to_set();
            proof {
                assert(ids.take(i + 1) =~= ids.take(i as int).push(key@));
                assert forall|k: DeviceId| next.contains(k) <==> (head.contains(k) || k == key@) by {
                    let a = ids.take(i as int);
                    let b = ids.take(i + 1);
                    if head.contains(k) {
                        let w = choose|w: int| 0 <= w < a.len() && a[w] == k;
                        assert(b[w] == k);
                    }
                    if k == key@ {
                        assert(b[i as int] == k);
                    }
                }
            }
            self.history.remove(key);
            self.session.remove(key);
            self.last_seen.remove(key);
            self.folded.remove(key);
            proof {
                assert(self.last_seen@ =~= before.last_seen@.remove_keys(next));
                assert(self.history@ =~= before.history@.remove_keys(next));
                assert(self.session@ =~= before.session@.remove_keys(next));
                assert(self.folded@ =~= before.folded@.remove_keys(next));
                assert(histories_wf(self.history@));
            }
            i = i + 1;
        }
        proof {
            assert(ids.take(i as int) =~= ids);
            let e = evicted(before.last_seen@, live);
            if live.no_duplicates() && (forall|i: int|
                0 <= i < before.keys@.len() ==> before.last_seen@.dom().contains(#[trigger] live[i])) {
                ids.unique_seq_to_set();
                before.last_seen.lemma_finite();
                let away = absent(before.last_seen@, live);
                if e.len() != excess(before.last_seen@, live) {
                    assert(e.subset_of(away));
                    vstd::set_lib::lemma_subset_equality(e, away);
                }
                lemma_eviction_bounds(before.last_seen@, live);
            }
        }
    }

    /// Takes over a backend that was detected again. Its pids are signalable
    /// where it says so and the session's source is this machine.
    pub fn redetected(&mut self, name: String, local: bool, now_ns: u64)
        ensures
            taken_over(old(self), name, local, now_ns, final(self)),
    {
        let mut msg = String::new();
        msg.append("backend re-detected (");
        msg.append(name.as_str());
        msg.append(") after ");
        msg.append(decimal_text(self.poll_failures as u64).as_str());
        msg.append(" failed polls");
        assert(msg@ =~= "backend re-detected ("@ + name@ + ") after "@ + decimal(
            self.poll_failures as nat,
        ) + " failed polls"@);
        self.backend_name = name;
        self.backend_local = local && self.source.detect().can_signal();
        self.set_status(msg, now_ns);
    }
}

// ---------------------------------------------------------------- laws

/// Per-device state follows the device: whatever the order of the cards, the
/// graph of each goes on from its own samples.
pub proof fn graphs_follow_the_device(
    before: &App,
    gpus: Seq<GpuSnapshot>,
    samples: Seq<Sample>,
    after: &App,
    i: int,
)
    requires
        poll_taken(before, gpus, samples, after),
        0 <= i < gpus.len(),
        history_cap(before) > 0,
    ensures
        after.key_of(i) == keys_of(gpus)[i],
        after.history@[after.key_of(i)]@.last() == samples[i],
        after.history@[after.key_of(i)]@.len() <= history_cap(before),
        samples_of(before.history@, after.key_of(i)).len() < history_cap(before)
            ==> after.history@[after.key_of(i)]@ == samples_of(
            before.history@,
            after.key_of(i),
        ).push(samples[i]),
{
    let live = keys_of(gpus);
    assert(views(after.keys@)[i] == live[i]);
    assert((after.history@[live[i]])@ == newest(
        samples_of(before.history@, live[i]).push(samples[i]),
        history_cap(before),
    ));
}

/// The selection never points past the cards, and stays on its device while
/// that is listed.
pub proof fn the_selection_follows_its_device(before: &App, gpus: Seq<GpuSnapshot>)
    ensures
        gpus.len() > 0 ==> 0 <= selection_after(before, gpus) < gpus.len(),
        gpus.len() == 0 ==> selection_after(before, gpus) == 0,
        before.selected < before.keys@.len() && keys_of(gpus).contains(
            before.key_of(before.selected as int),
        ) ==> keys_of(gpus)[selection_after(before, gpus)] == before.key_of(before.selected as int),
{
    let live = keys_of(gpus);
    if before.selected < before.keys@.len() {
        let k = before.key_of(before.selected as int);
        if live.contains(k) {
            live.index_of_first_ensures(k);
            let w = live.index_of(k);
            assert(0 <= w < live.len() && live[w] == k);
        }
    }
}

/// A device that misses polls keeps its graph, its fold and its figures until
/// it is forgotten.
pub proof fn a_missing_device_keeps_its_state(
    before: &App,
    gpus: Seq<GpuSnapshot>,
    samples: Seq<Sample>,
    after: &App,
    k: DeviceId,
)
    requires
        poll_taken(before, gpus, samples, after),
        !keys_of(gpus).contains(k),
        !forgotten(before, gpus).contains(k),
    ensures
        before.history@.dom().contains(k) ==> after.history@.dom().contains(k) && after.history@[k]
            == before.history@[k],
        before.folded@.dom().contains(k) == after.folded@.dom().contains(k),
        before.session@.dom().contains(k) ==> after.session@.dom().contains(k) && after.session@[k]
            == before.session@[k],
{
}

/// No poll forgets a device that answered it.
pub proof fn live_devices_are_never_forgotten(before: &App, gpus: Seq<GpuSnapshot>, i: int)
    requires
        0 <= i < gpus.len(),
    ensures
        !forgotten(before, gpus).contains(keys_of(gpus)[i]),
{
    assert(keys_of(gpus).to_set().contains(keys_of(gpus)[i]));
}

/// Every fifth failure in a row asks for the backend to be detected again,
/// nothing else does, and what is detected is the session's own source: a
/// fabricated or recorded session is never probed for hardware.
pub proof fn only_the_own_source_is_detected_again(
    before: &App,
    outcome: Result<(Vec<GpuSnapshot>, Vec<Sample>), String>,
    after: &App,
    step: PollStep,
)
    requires
        polled(before, outcome, after, step),
    ensures
        step is Redetect <==> !before.paused && outcome is Err && ((before.poll_failures
            + 1) as u32) % 5 == 0,
        step matches PollStep::Redetect(d) ==> d == before.source.detection() && (d.local()
            <==> before.source is Live),
{
    detection_never_promotes(before.source);
}

/// One step of a session: a poll, or a backend taken over.
pub open spec fn stepped(before: App, after: App) -> bool {
    ||| exists|outcome: Result<(Vec<GpuSnapshot>, Vec<Sample>), String>, step: PollStep|
        #[trigger] polled(&before, outcome, &after, step)
    ||| exists|name: String, local: bool, now_ns: u64|
        #[trigger] taken_over(&before, name, local, now_ns, &after)
}

/// A session's states over any number of polls and re-detections.
pub open spec fn is_run(states: Seq<App>) -> bool
    decreases states.len(),
{
    states.len() <= 1 || is_run(states.drop_last()) && stepped(
        states[states.len() - 2],
        states.last(),
    )
}

/// However often a fabricated or recorded session is polled and its backend
/// detected again, it keeps its source and its pids never become signalable.
pub proof fn polling_never_makes_foreign_pids_signalable(states: Seq<App>)
    requires
        states.len() > 0,
        is_run(states),
        states[0].source !is Live,
        !states[0].backend_local,
    ensures
        states.last().source == states[0].source,
        !states.last().backend_local,
    decreases states.len(),
{
    if states.len() > 1 {
        let init = states.drop_last();
        polling_never_makes_foreign_pids_signalable(init);
        assert(init.last() == states[states.len() - 2]);
        detection_never_promotes(init.last().source);
    }
}

/// A poll that failed keeps the last good cards and says why; one that is taken
/// clears what was said and the count of failures; a paused session takes
/// neither.
pub proof fn a_failed_poll_keeps_the_last_good_one(
    before: &App,
    outcome: Result<(Vec<GpuSnapshot>, Vec<Sample>), String>,
    after: &App,
    step: PollStep,
)
    requires
        polled(before, outcome, after, step),
        countable(before),
    ensures
        before.paused ==> *after == *before && step is Paused,
        !before.paused && outcome is Err ==> {
            &&& after.gpus == before.gpus && after.history == before.history
            &&& after.selected == before.selected && after.polls == before.polls
            &&& after.poll_failures == before.poll_failures + 1
            &&& after.poll_error is Some && has_suffix(after.poll_error->0@, outcome->Err_0@)
            &&& step is Kept || step is Redetect
        },
        !before.paused ==> (outcome matches Ok(x) ==> {
            &&& after.gpus@ == x.0@
            &&& after.poll_error is None && after.poll_failures == 0
            &&& after.polls == before.polls + 1
            &&& step is Taken
        }),
{
    if !before.paused {
        if let Err(e) = outcome {
            let t = "poll failed: "@ + e@;
            assert(t.skip(t.len() - e@.len()) =~= e@);
        }
    }
}

/// `s` ends in `tail`.
pub open spec fn has_suffix(s: Seq<char>, tail: Seq<char>) -> bool {
    tail.len() <= s.len() && s.skip(s.len() - tail.len()) == tail
}

/// The graphs keep as many samples as were asked for and as the widest one
/// needs, with a few to spare, and no more.
pub proof fn graphs_keep_what_the_widest_needs(app: &App)
    ensures
        history_cap(app) >= app.history_len,
        history_cap(app) > app.history_need,
        history_cap(app) == app.history_len || history_cap(app) == app.history_need + 8,
{
}

/// A poll renews the sighting of the devices that it lists and of no other.
pub proof fn a_poll_renews_the_sightings_of_its_devices(
    seen: Map<DeviceId, u64>,
    live: Seq<DeviceId>,
    now: u64,
    k: DeviceId,
)
    ensures
        live.contains(k) ==> seen_after(seen, live, now).dom().contains(k) && seen_after(
            seen,
            live,
            now,
        )[k] == now,
        !live.contains(k) ==> (seen_after(seen, live, now).dom().contains(k) <==> seen.dom().contains(
            k,
        )),
        !live.contains(k) && seen.dom().contains(k) ==> seen_after(seen, live, now)[k] == seen[k],
{
}

/// A poll lists its cards under their keys with the selection among them, keeps
/// the folds and figures of those that answered, and leaves nothing of a device
/// that is forgotten; what polls do not touch stays.
pub proof fn a_forgotten_device_leaves_nothing(
    before: &App,
    gpus: Seq<GpuSnapshot>,
    samples: Seq<Sample>,
    after: &App,
    k: DeviceId,
)
    requires
        poll_taken(before, gpus, samples, after),
    ensures
        forgotten(before, gpus).contains(k) ==> !after.history@.dom().contains(k)
            && !after.folded@.dom().contains(k) && !after.session@.dom().contains(k)
            && !after.last_seen@.dom().contains(k),
        keys_of(gpus).contains(k) ==> {
            &&& after.history@.dom().contains(k)
            &&& after.folded@.dom().contains(k) <==> before.folded@.dom().contains(k)
            &&& before.session@.dom().contains(k) ==> after.session@.dom().contains(k)
                && after.session@[k] == before.session@[k]
            &&& after.last_seen@.dom().contains(k) && after.last_seen@[k] == (before.polls
                + 1) as u64
        },
        !before.history@.dom().contains(k) && !keys_of(gpus).contains(k)
            ==> !after.history@.dom().contains(k),
        !before.session@.dom().contains(k) ==> !after.session@.dom().contains(k),
        after.gpus@ == gpus && views(after.keys@) == keys_of(gpus),
        gpus.len() > 0 ==> after.selected < gpus.len(),
        after.procs == before.procs && after.filter == before.filter,
        after.tick_ms == before.tick_ms && after.status == before.status,
        after.focus == before.focus && after.backend_local == before.backend_local,
{
    the_selection_follows_its_device(before, gpus);
    if keys_of(gpus).contains(k) {
        let i = keys_of(gpus).index_of(k);
        assert(keys_of(gpus)[i] == k);
        live_devices_are_never_forgotten(before, gpus, i);
        assert(keys_of(gpus).to_set().contains(k));
        a_poll_renews_the_sightings_of_its_devices(
            before.last_seen@,
            keys_of(gpus),
            (before.polls + 1) as u64,
            k,
        );
    }
}

/// A backend that was detected again is named, with how often the last one
/// failed, and its pids are this machine's only where it says so and the
/// session's source allows it.
pub proof fn a_detected_backend_is_named(
    before: &App,
    name: String,
    local: bool,
    now_ns: u64,
    after: &App,
)
    requires
        taken_over(before, name, local, now_ns, after),
    ensures
        after.backend_name == name,
        after.backend_local ==> local && before.source.detection().local(),
        local && before.source.detection().local() ==> after.backend_local,
        after.status matches Some((msg, at)) && at == now_ns && contains_text(msg@, name@)
            && contains_text(msg@, decimal(before.poll_failures as nat)),
        after.gpus == before.gpus && after.history == before.history,
        after.procs == before.procs && after.selected == before.selected,
        after.source == before.source && after.poll_failures == before.poll_failures,
{
    let a = "backend re-detected ("@;
    let b = ") after "@;
    let n = decimal(before.poll_failures as nat);
    let c = " failed polls"@;
    a_text_is_found_where_it_stands(a, name@, b + n + c);
    assert(a + name@ + (b + n + c) =~= a + name@ + b + n + c);
    a_text_is_found_where_it_stands(a + name@ + b, n, c);
}

/// The devices absent for too long are gone from every map.
pub open spec fn absent_evicted(before: App, after: App) -> bool {
    let gone = evicted(before.last_seen@, views(before.keys@));
    &&& after.last_seen@ == before.last_seen@.remove_keys(gone)
    &&& after.history@ == before.history@.remove_keys(gone)
    &&& after.session@ == before.session@.remove_keys(gone)
    &&& after.folded@ == before.folded@.remove_keys(gone)
    &&& after == (App {
        last_seen: after.last_seen,
        history: after.history,
        session: after.session,
        folded: after.folded,
        ..before
    })
}

/// Eviction takes a device out of every map at once and leaves the others as
/// they were; a listed device is never taken out.
pub proof fn eviction_is_all_or_nothing(before: App, after: App, k: DeviceId)
    requires
        absent_evicted(before, after),
    ensures
        evicted(before.last_seen@, views(before.keys@)).contains(k)
            ==> !after.last_seen@.dom().contains(k) && !after.history@.dom().contains(k)
            && !after.session@.dom().contains(k) && !after.folded@.dom().contains(k),
        !evicted(before.last_seen@, views(before.keys@)).contains(k) ==> {
            &&& after.history@.dom().contains(k) <==> before.history@.dom().contains(k)
            &&& after.session@.dom().contains(k) <==> before.session@.dom().contains(k)
            &&& after.folded@.dom().contains(k) <==> before.folded@.dom().contains(k)
            &&& after.last_seen@.dom().contains(k) <==> before.last_seen@.dom().contains(k)
            &&& before.history@.dom().contains(k) ==> after.history@[k] == before.history@[k]
            &&& before.session@.dom().contains(k) ==> after.session@[k] == before.session@[k]
        },
        after.gpus == before.gpus && after.keys == before.keys,
        after.selected == before.selected && after.polls == before.polls,
{
}

} // verus!
