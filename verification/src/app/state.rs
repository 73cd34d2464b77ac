//! What a session remembers of its devices, and what it saves for the next.
use vstd::prelude::*;
use crate::app::device::{DeviceId, DeviceKey, DeviceMap};
use crate::app::history::{no_stats, stats_after, History, SessionStats};
use crate::app::{App, UiState, MAX_FOLDS_PERSISTED, SPLASH_NS, STATUS_NS};
use crate::keyed::views;
use crate::order::{is_sorted_order, precedes, Real, sorted_order, text_lt, text_lt_asymmetric, text_lt_total};
use crate::text::string_texts;

verus! {

/// Each text stands before every later one.
pub open spec fn strictly_sorted(v: Seq<Seq<char>>) -> bool {
    forall|i: int, j: int| 0 <= i < j < v.len() ==> text_lt(#[trigger] v[i], #[trigger] v[j])
}

/// `out` lists exactly the texts that `p` holds of, in order.
pub open spec fn lists_sorted(out: Seq<Seq<char>>, p: spec_fn(Seq<char>) -> bool) -> bool {
    &&& strictly_sorted(out)
    &&& forall|s: Seq<char>| #[trigger] out.contains(s) <==> p(s)
}

/// `v` up to its first `n` entries.
pub open spec fn first(v: Seq<Seq<char>>, n: nat) -> Seq<Seq<char>> {
    if v.len() > n {
        v.take(n as int)
    } else {
        v
    }
}

/// `out` is what a session with these folds writes down: the folded devices
/// that have an identity, those seen this session first, each part sorted,
/// as many as the cap allows.
pub open spec fn persists(
    folded: Set<DeviceId>,
    seen: Set<DeviceId>,
    out: Seq<Seq<char>>,
) -> bool {
    exists|here: Seq<Seq<char>>, gone: Seq<Seq<char>>|
        #![trigger first(here + gone, MAX_FOLDS_PERSISTED as nat)]
        {
            &&& lists_sorted(
                here,
                |s: Seq<char>| folded.contains(DeviceId::Id(s)) && seen.contains(DeviceId::Id(s)),
            )
            &&& lists_sorted(
                gone,
                |s: Seq<char>| folded.contains(DeviceId::Id(s)) && !seen.contains(DeviceId::Id(s)),
            )
            &&& out == first(here + gone, MAX_FOLDS_PERSISTED as nat)
        }
}

/// The devices that a list of ids folds.
pub open spec fn folds_of(ids: Seq<Seq<char>>) -> Set<DeviceId> {
    Set::new(|k: DeviceId| k is Id && ids.contains(k->Id_0))
}

/// `v` in order.
fn sort_strings(v: &Vec<String>) -> (out: Vec<String>)
    requires
        string_texts(v@).no_duplicates(),
    ensures
        strictly_sorted(string_texts(out@)),
        out@.len() == v@.len(),
        forall|s: Seq<char>|
            #[trigger] string_texts(out@).contains(s) <==> string_texts(v@).contains(s),
{
    let p = sorted_order(v);
    let mut out: Vec<String> = Vec::new();
    let mut i: usize = 0;
    while i < p.len()
        invariant
            i <= p.len(),
            is_sorted_order(v@, p@),
            out@.len() == i,
            forall|k: int| 0 <= k < i ==> (#[trigger] out@[k])@ == v@[p@[k] as int]@,
        decreases p.len() - i,
    {
        let at: usize = p[i];
        out.push(v[at].clone());
        i = i + 1;
    }
    proof {
        let given = string_texts(v@);
        let done = string_texts(out@);
        assert forall|a: int, b: int| 0 <= a < b < done.len() implies text_lt(#[trigger] done[a], #[trigger] done[b]) by {
            let x = p@[a] as int;
            let y = p@[b] as int;
            assert(precedes(v@, x, y));
            assert(out@[a]@ == v@[x]@ && out@[b]@ == v@[y]@);
            if !text_lt(v@[x]@, v@[y]@) {
                text_lt_total(v@[x]@, v@[y]@);
                assert(given[x] == given[y]);
            }
        }
        assert forall|s: Seq<char>| #[trigger] done.contains(s) <==> given.contains(s) by {
            if done.contains(s) {
                let a = choose|a: int| 0 <= a < done.len() && done[a] == s;
                assert(out@[a]@ == v@[p@[a] as int]@);
                assert(given[p@[a] as int] == s);
            }
            if given.contains(s) {
                let x = choose|x: int| 0 <= x < given.len() && given[x] == s;
                assert(p@.contains(x as usize));
                let a = choose|a: int| 0 <= a < p@.len() && p@[a] == x as usize;
                assert(out@[a]@ == v@[x]@);
                assert(done[a] == s);
            }
        }
    }
    out
}

impl App {
    /// Takes over what an earlier session saved: folds by device identity, and
    /// the table's order.
    pub fn restore_state(&mut self, s: &UiState)
        requires
            old(self).wf(),
        ensures
            final(self).wf(),
            final(self).folded@.dom() == folds_of(string_texts(s.folded_devices@)),
            *final(self) == (App {
                folded: final(self).folded,
                sort_by: s.sort_by,
                sort_desc: s.sort_desc,
                ..*old(self)
            }),
    {
        let mut folded: DeviceMap<()> = DeviceMap::new();
        let ghost ids = string_texts(s.folded_devices@);
        let mut i: usize = 0;
        assert(folded@.dom() =~= folds_of(ids.take(0)));
        while i < s.folded_devices.len()
            invariant
                i <= s.folded_devices.len(),
                ids == string_texts(s.folded_devices@),
                folded.wf(),
                folded@.dom() == folds_of(ids.take(i as int)),
            decreases s.folded_devices.len() - i,
        {
            let ghost was = folded@.dom();
            folded.insert(DeviceKey::Id(s.folded_devices[i].clone()), ());
            proof {
                let name = ids[i as int];
                assert(ids.take(i + 1) =~= ids.take(i as int).push(name));
                assert forall|k: DeviceId| folded@.dom().contains(k) <==> folds_of(ids.take(i + 1)).contains(k) by {
                    if k is Id {
                        let head = ids.take(i as int);
                        let text = k->Id_0;
                        if head.contains(text) {
                            let w = choose|w: int| 0 <= w < head.len() && head[w] == text;
                            assert(head.push(name)[w] == text);
                        }
                        if text == name {
                            assert(head.push(name)[i as int] == text);
                        }
                    }
                }
                assert(folded@.dom() =~= folds_of(ids.take(i + 1)));
            }
            i = i + 1;
        }
        assert(ids.take(i as int) =~= ids);
        self.folded = folded;
        self.sort_by = s.sort_by;
        self.sort_desc = s.sort_desc;
    }

    /// What a clean quit saves.
    pub fn save_state(&self) -> (s: UiState)
        requires
            self.wf(),
        ensures
            persists(self.folded@.dom(), self.last_seen@.dom(), string_texts(s.folded_devices@)),
            s.sort_by == self.sort_by,
            s.sort_desc == self.sort_desc,
            s.tick_ms == self.tick_ms,
            s.tick_ms_explicit == Some(self.tick_explicit),
    {
        UiState {
            folded_devices: self.persisted_folds(),
            sort_by: self.sort_by,
            sort_desc: self.sort_desc,
            tick_ms: self.tick_ms,
            tick_ms_explicit: Some(self.tick_explicit),
        }
    }

    /// Folds worth saving: only real device ids, sorted for a stable file,
    /// capped, with devices seen this session keeping their fold first.
    pub fn persisted_folds(&self) -> (out: Vec<String>)
        requires
            self.wf(),
        ensures
            persists(self.folded@.dom(), self.last_seen@.dom(), string_texts(out@)),
    {
        let ghost folded = self.folded@.dom();
        let ghost known = self.last_seen@.dom();
        let keys = self.folded.keys();
        let mut seen: Vec<String> = Vec::new();
        let mut gone: Vec<String> = Vec::new();
        let mut i: usize = 0;
        let ghost ids = views(keys@);
        while i < keys.len()
            invariant
                i <= keys.len(),
                ids == views(keys@),
                ids.no_duplicates(),
                known == self.last_seen@.dom(),
                forall|k: int|
                    0 <= k < seen@.len() ==> ids.take(i as int).contains(
                        DeviceId::Id((#[trigger] seen@[k])@),
                    ) && known.contains(DeviceId::Id(seen@[k]@)),
                forall|k: int|
                    0 <= k < gone@.len() ==> ids.take(i as int).contains(
                        DeviceId::Id((#[trigger] gone@[k])@),
                    ) && !known.contains(DeviceId::Id(gone@[k]@)),
                forall|a: int, b: int|
                    0 <= a < b < seen@.len() ==> (#[trigger] seen@[a])@ != (#[trigger] seen@[b])@,
                forall|a: int, b: int|
                    0 <= a < b < gone@.len() ==> (#[trigger] gone@[a])@ != (#[trigger] gone@[b])@,
                forall|k: int|
                    0 <= k < i && (#[trigger] ids[k]) is Id ==> (if known.contains(ids[k]) {
                        exists|w: int| 0 <= w < seen@.len() && DeviceId::Id((#[trigger] seen@[w])@) == ids[k]
                    } else {
                        exists|w: int| 0 <= w < gone@.len() && DeviceId::Id((#[trigger] gone@[w])@) == ids[k]
                    }),
            decreases keys.len() - i,
        {
            let ghost head = ids.take(i as int);
            let ghost next = ids.take(i + 1);
            let ghost was_seen = seen@;
            let ghost was_gone = gone@;
            assert(next =~= head.push(ids[i as int]));
            assert(next[i as int] == ids[i as int]);
            assert forall|d: DeviceId| head.contains(d) implies next.contains(d) && d != ids[i as int] by {
                let w = choose|w: int| 0 <= w < head.len() && head[w] == d;
                assert(next[w] == d);
                assert(ids[w] == d);
            }
            match &keys[i] {
                DeviceKey::Id(id) => {
                    assert(ids[i as int] == DeviceId::Id(id@));
                    if self.last_seen.contains(&keys[i]) {
                        seen.push(id.clone());
                        assert(DeviceId::Id(seen@[seen@.len() - 1]@) == ids[i as int]);
                    } else {
                        gone.push(id.clone());
                        assert(DeviceId::Id(gone@[gone@.len() - 1]@) == ids[i as int]);
                    }
                },
                DeviceKey::Pos(_) => {},
            }
            proof {
                assert forall|k: int| 0 <= k < i + 1 && (#[trigger] ids[k]) is Id implies (if known.contains(ids[k]) {
                    exists|w: int| 0 <= w < seen@.len() && DeviceId::Id((#[trigger] seen@[w])@) == ids[k]
                } else {
                    exists|w: int| 0 <= w < gone@.len() && DeviceId::Id((#[trigger] gone@[w])@) == ids[k]
                }) by {
                    if k < i {
                        if known.contains(ids[k]) {
                            let w = choose|w: int| 0 <= w < was_seen.len() && DeviceId::Id((#[trigger] was_seen[w])@) == ids[k];
                            assert(seen@[w] == was_seen[w]);
                        } else {
                            let w = choose|w: int| 0 <= w < was_gone.len() && DeviceId::Id((#[trigger] was_gone[w])@) == ids[k];
                            assert(gone@[w] == was_gone[w]);
                        }
                    }
                }
            }
            i = i + 1;
        }
        assert(ids.take(i as int) =~= ids);
        let here = sort_strings(&seen);
        let mut out = sort_strings(&gone);
        let ghost a = string_texts(here@);
        let ghost b = string_texts(out@);
        proof {
            assert forall|s: Seq<char>| #[trigger] a.contains(s) <==> (folded.contains(DeviceId::Id(s)) && known.contains(DeviceId::Id(s))) by {
                let st = string_texts(seen@);
                assert(a.contains(s) <==> st.contains(s));
                if st.contains(s) {
                    let w = choose|w: int| 0 <= w < st.len() && st[w] == s;
                    assert(DeviceId::Id(seen@[w]@) == DeviceId::Id(s));
                    assert(ids.to_set().contains(DeviceId::Id(s)));
                }
                if folded.contains(DeviceId::Id(s)) && known.contains(DeviceId::Id(s)) {
                    assert(ids.to_set().contains(DeviceId::Id(s)));
                    let k = choose|k: int| 0 <= k < ids.len() && ids[k] == DeviceId::Id(s);
                    let w = choose|w: int| 0 <= w < seen@.len() && DeviceId::Id((#[trigger] seen@[w])@) == ids[k];
                    assert(st[w] == s);
                }
            }
            assert forall|s: Seq<char>| #[trigger] b.contains(s) <==> (folded.contains(DeviceId::Id(s)) && !known.contains(DeviceId::Id(s))) by {
                let st = string_texts(gone@);
                assert(b.contains(s) <==> st.contains(s));
                if st.contains(s) {
                    let w = choose|w: int| 0 <= w < st.len() && st[w] == s;
                    assert(DeviceId::Id(gone@[w]@) == DeviceId::Id(s));
                    assert(ids.to_set().contains(DeviceId::Id(s)));
                }
                if folded.contains(DeviceId::Id(s)) && !known.contains(DeviceId::Id(s)) {
                    assert(ids.to_set().contains(DeviceId::Id(s)));
                    let k = choose|k: int| 0 <= k < ids.len() && ids[k] == DeviceId::Id(s);
                    let w = choose|w: int| 0 <= w < gone@.len() && DeviceId::Id((#[trigger] gone@[w])@) == ids[k];
                    assert(st[w] == s);
                }
            }
        }
        let mut all = here;
        all.append(&mut out);
        assert(string_texts(all@) =~= a + b);
        if all.len() > MAX_FOLDS_PERSISTED {
            all.truncate(MAX_FOLDS_PERSISTED);
        }
        proof {
            assert(string_texts(all@) =~= first(a + b, MAX_FOLDS_PERSISTED as nat));
        }
        all
    }

    /// The key of the card at `idx`.
    pub open spec fn key_of(&self, idx: int) -> DeviceId {
        self.keys@[idx]@
    }

    /// Graph history of the card at `idx`, where it has one.
    pub fn history_at(&self, idx: usize) -> (r: Option<&History>)
        requires
            self.wf(),
        ensures
            match r {
                Some(h) => self.history_of(idx) == Some(*h),
                None => self.history_of(idx) is None,
            },
    {
        if idx < self.keys.len() {
            self.history.get(&self.keys[idx])
        } else {
            None
        }
    }

    /// Session peaks and sums of the card at `idx`, where it has any.
    pub fn session_at(&self, idx: usize) -> (r: Option<&SessionStats>)
        requires
            self.wf(),
        ensures
            match r {
                Some(s) => self.session_of(idx) == Some(*s),
                None => self.session_of(idx) is None,
            },
    {
        if idx < self.keys.len() {
            self.session.get(&self.keys[idx])
        } else {
            None
        }
    }

    /// The session figures of `k`, blank where it has none yet.
    pub open spec fn stats_of(&self, k: DeviceId) -> SessionStats {
        if self.session@.dom().contains(k) {
            self.session@[k]
        } else {
            no_stats()
        }
    }

    /// Folds the present sample of the card at `idx` into its session figures;
    /// `util_sum` and `power_sum` are what the sums come to with it.
    pub fn add_session(&mut self, idx: usize, util_sum: Real, power_sum: Real)
        requires
            old(self).wf(),
            idx < old(self).gpus@.len(),
            old(self).stats_of(old(self).key_of(idx as int)).room(),
        ensures
            final(self).wf(),
            session_added(*old(self), *final(self), idx, util_sum, power_sum),
    {
        let mut stats = match self.session.get(&self.keys[idx]) {
            Some(s) => *s,
            None => SessionStats::default(),
        };
        stats.add(&self.gpus[idx], util_sum, power_sum);
        let key = self.keys[idx].clone();
        self.session.insert(key, stats);
    }

    /// Whether the card at `idx` is folded to one line.
    pub fn is_folded(&self, idx: usize) -> (b: bool)
        requires
            self.wf(),
        ensures
            b == self.folds(idx),
    {
        idx < self.keys.len() && self.folded.contains(&self.keys[idx])
    }

    /// Folds the card at `idx`, or unfolds it where it was folded.
    pub fn toggle_fold(&mut self, idx: usize)
        requires
            old(self).wf(),
        ensures
            final(self).wf(),
            *final(self) == (App { folded: final(self).folded, ..*old(self) }),
            final(self).folded@.dom() == toggled(old(self), idx),
    {
        if idx < self.keys.len() {
            let key = self.keys[idx].clone();
            let had = self.folded.remove(&key);
            if !had {
                self.folded.insert(key, ());
            }
            assert(self.folded@.dom() =~= toggled(old(self), idx));
        }
    }

    /// Whether the splash screen is still up.
    pub fn splash_active(&self, now_ns: u64) -> (b: bool)
        ensures
            b == self.splash_shows(now_ns),
    {
        !self.splash_skipped && now_ns.saturating_sub(self.started_ns) < SPLASH_NS
    }

    /// The status message, while it is fresh.
    pub fn status_line(&self, now_ns: u64) -> (r: Option<&str>)
        ensures
            match r {
                Some(s) => self.status_shown(now_ns) == Some(s@),
                None => self.status_shown(now_ns) is None,
            },
    {
        match &self.status {
            Some((msg, at)) => if now_ns.saturating_sub(*at) < STATUS_NS {
                Some(msg.as_str())
            } else {
                None
            },
            None => None,
        }
    }

    /// Shows `msg` in the header for a while.
    pub fn set_status(&mut self, msg: String, now_ns: u64)
        ensures
            *final(self) == (App { status: Some((msg, now_ns)), ..*old(self) }),
    {
        self.status = Some((msg, now_ns));
    }
}

/// The folds after the fold of card `idx` is flipped.
pub open spec fn toggled(app: &App, idx: usize) -> Set<DeviceId> {
    if idx >= app.gpus@.len() {
        app.folded@.dom()
    } else if app.folded@.dom().contains(app.key_of(idx as int)) {
        app.folded@.dom().remove(app.key_of(idx as int))
    } else {
        app.folded@.dom().insert(app.key_of(idx as int))
    }
}

// ---------------------------------------------------------------- laws

proof fn lemma_sorted_is_distinct(v: Seq<Seq<char>>)
    requires
        strictly_sorted(v),
    ensures
        v.no_duplicates(),
{
    assert forall|i: int, j: int| 0 <= i < j < v.len() implies v[i] != v[j] by {
        assert(text_lt(v[i], v[j]));
        text_lt_asymmetric(v[i], v[j]);
    }
}

/// What a session saves, the next one folds: while the identified folds are no
/// more than the cap, every one of them survives and no positional one does.
pub proof fn saved_folds_come_back(folded: Set<DeviceId>, seen: Set<DeviceId>, out: Seq<Seq<char>>)
    requires
        persists(folded, seen, out),
        folded.finite(),
        folded.filter(|k: DeviceId| k is Id).len() <= MAX_FOLDS_PERSISTED,
    ensures
        folds_of(out) == folded.filter(|k: DeviceId| k is Id),
{
    let (here, gone) = choose|here: Seq<Seq<char>>, gone: Seq<Seq<char>>|
        #![trigger first(here + gone, MAX_FOLDS_PERSISTED as nat)]
        {
            &&& lists_sorted(
                here,
                |s: Seq<char>| folded.contains(DeviceId::Id(s)) && seen.contains(DeviceId::Id(s)),
            )
            &&& lists_sorted(
                gone,
                |s: Seq<char>| folded.contains(DeviceId::Id(s)) && !seen.contains(DeviceId::Id(s)),
            )
            &&& out == first(here + gone, MAX_FOLDS_PERSISTED as nat)
        };
    let all = here + gone;
    let named = all.map_values(|s: Seq<char>| DeviceId::Id(s));
    lemma_sorted_is_distinct(here);
    lemma_sorted_is_distinct(gone);
    assert forall|i: int, j: int| 0 <= i < j < named.len() implies named[i] != named[j] by {
        if i < here.len() {
            assert(here.contains(all[i]));
        } else {
            assert(gone[i - here.len()] == all[i]);
        }
        if j < here.len() {
            assert(here[j] == all[j]);
        } else {
            assert(gone[j - here.len()] == all[j]);
            assert(gone.contains(all[j]));
        }
    }
    assert forall|k: DeviceId| named.to_set().contains(k) implies folded.filter(|k: DeviceId| k is Id).contains(k) by {
        let w = choose|w: int| 0 <= w < named.len() && named[w] == k;
        if w < here.len() {
            assert(here.contains(all[w]));
        } else {
            assert(gone[w - here.len()] == all[w]);
            assert(gone.contains(all[w]));
        }
    }
    named.unique_seq_to_set();
    vstd::set_lib::lemma_len_subset(named.to_set(), folded.filter(|k: DeviceId| k is Id));
    assert(out == here + gone);
    assert forall|k: DeviceId| folds_of(out).contains(k) <==> folded.filter(|k: DeviceId| k is Id).contains(k) by {
        if k is Id {
            let s = k->Id_0;
            if out.contains(s) {
                let w = choose|w: int| 0 <= w < out.len() && out[w] == s;
                if w < here.len() {
                    assert(here[w] == s);
                    assert(here.contains(s));
                } else {
                    assert(gone[w - here.len()] == s);
                    assert(gone.contains(s));
                }
            }
            if folded.contains(k) {
                if seen.contains(k) {
                    assert(here.contains(s));
                    let w = choose|w: int| 0 <= w < here.len() && here[w] == s;
                    assert(out[w] == s);
                } else {
                    assert(gone.contains(s));
                    let w = choose|w: int| 0 <= w < gone.len() && gone[w] == s;
                    assert(out[here.len() + w] == s);
                }
            }
        }
    }
    assert(folds_of(out) =~= folded.filter(|k: DeviceId| k is Id));
}

/// Nothing is saved but folded devices with an identity, none twice, and no
/// more than the cap.
pub proof fn saved_folds_are_real(folded: Set<DeviceId>, seen: Set<DeviceId>, out: Seq<Seq<char>>)
    requires
        persists(folded, seen, out),
    ensures
        out.len() <= MAX_FOLDS_PERSISTED,
        out.no_duplicates(),
        folds_of(out).subset_of(folded),
{
    let (here, gone) = choose|here: Seq<Seq<char>>, gone: Seq<Seq<char>>|
        #![trigger first(here + gone, MAX_FOLDS_PERSISTED as nat)]
        {
            &&& lists_sorted(
                here,
                |s: Seq<char>| folded.contains(DeviceId::Id(s)) && seen.contains(DeviceId::Id(s)),
            )
            &&& lists_sorted(
                gone,
                |s: Seq<char>| folded.contains(DeviceId::Id(s)) && !seen.contains(DeviceId::Id(s)),
            )
            &&& out == first(here + gone, MAX_FOLDS_PERSISTED as nat)
        };
    lemma_sorted_is_distinct(here);
    lemma_sorted_is_distinct(gone);
    let all = here + gone;
    assert forall|w: int| 0 <= w < out.len() implies out[w] == all[w] by {}
    assert forall|i: int, j: int| 0 <= i < j < out.len() implies out[i] != out[j] by {
        if i < here.len() {
            assert(here.contains(all[i]));
        } else {
            assert(gone[i - here.len()] == all[i]);
        }
        if j < here.len() {
            assert(here[j] == all[j]);
        } else {
            assert(gone[j - here.len()] == all[j]);
            assert(gone.contains(all[j]));
        }
    }
    assert forall|k: DeviceId| folds_of(out).contains(k) implies folded.contains(k) by {
        let w = choose|w: int| 0 <= w < out.len() && out[w] == k->Id_0;
        if w < here.len() {
            assert(here.contains(all[w]));
        } else {
            assert(gone[w - here.len()] == all[w]);
            assert(gone.contains(all[w]));
        }
    }
}

/// Folding twice is no fold.
pub proof fn folding_twice_is_nothing(before: &App, between: &App, idx: usize)
    requires
        between.folded@.dom() == toggled(before, idx),
        between.gpus == before.gpus,
        between.keys == before.keys,
    ensures
        toggled(between, idx) == before.folded@.dom(),
{
    assert(toggled(between, idx) =~= before.folded@.dom());
}

/// Folding flips the one card and touches no other; past the last card it
/// changes nothing.
pub proof fn folding_flips_one_card(app: &App, idx: usize, k: DeviceId)
    ensures
        idx < app.gpus@.len() ==> (toggled(app, idx).contains(app.key_of(idx as int))
            <==> !app.folded@.dom().contains(app.key_of(idx as int))),
        idx < app.gpus@.len() && k != app.key_of(idx as int) ==> (toggled(app, idx).contains(k)
            <==> app.folded@.dom().contains(k)),
        idx >= app.gpus@.len() ==> toggled(app, idx) == app.folded@.dom(),
{
}

/// Where not every fold fits, those of devices seen this session are kept
/// first: none of them is left out for one that was not seen, and none is left
/// out at all while there is room.
pub proof fn folds_of_seen_devices_are_kept_first(
    folded: Set<DeviceId>,
    seen: Set<DeviceId>,
    out: Seq<Seq<char>>,
    a: Seq<char>,
    b: Seq<char>,
)
    requires
        persists(folded, seen, out),
        folded.contains(DeviceId::Id(a)),
        !out.contains(a),
    ensures
        out.len() == MAX_FOLDS_PERSISTED,
        seen.contains(DeviceId::Id(a)) && out.contains(b) ==> seen.contains(DeviceId::Id(b))
            && text_lt(b, a),
{
    let (here, gone) = choose|here: Seq<Seq<char>>, gone: Seq<Seq<char>>|
        #![trigger first(here + gone, MAX_FOLDS_PERSISTED as nat)]
        {
            &&& lists_sorted(
                here,
                |s: Seq<char>| folded.contains(DeviceId::Id(s)) && seen.contains(DeviceId::Id(s)),
            )
            &&& lists_sorted(
                gone,
                |s: Seq<char>| folded.contains(DeviceId::Id(s)) && !seen.contains(DeviceId::Id(s)),
            )
            &&& out == first(here + gone, MAX_FOLDS_PERSISTED as nat)
        };
    let all = here + gone;
    if seen.contains(DeviceId::Id(a)) {
        assert(here.contains(a));
        let w = choose|w: int| 0 <= w < here.len() && here[w] == a;
        assert(all[w] == a);
        if w < out.len() {
            assert(out[w] == a);
        }
        if out.contains(b) {
            let x = choose|x: int| 0 <= x < out.len() && out[x] == b;
            assert(all[x] == b);
            assert(x < w);
            assert(here[x] == b);
            assert(here.contains(b));
            assert(text_lt(here[x], here[w]));
        }
    } else {
        assert(gone.contains(a));
        let w = choose|w: int| 0 <= w < gone.len() && gone[w] == a;
        assert(all[here.len() + w] == a);
        if here.len() + w < out.len() {
            assert(out[here.len() + w] == a);
        }
    }
}

/// A device's session figures are what was kept under its key, and blank until
/// something was.
pub proof fn session_figures_are_a_devices_own(app: &App, k: DeviceId)
    ensures
        app.session@.dom().contains(k) ==> app.stats_of(k) == app.session@[k],
        !app.session@.dom().contains(k) ==> {
            let s = app.stats_of(k);
            &&& s.max_util_pct is None && s.max_temp_c is None && s.max_power_w is None
            &&& s.util.n == 0 && s.power.n == 0
        },
{
}

impl App {
    /// The history of the card at `idx`, where it has one.
    pub open spec fn history_of(&self, idx: usize) -> Option<History> {
        if idx < self.gpus@.len() && self.history@.dom().contains(self.key_of(idx as int)) {
            Some(self.history@[self.key_of(idx as int)])
        } else {
            None
        }
    }

    /// The session figures of the card at `idx`, where it has any.
    pub open spec fn session_of(&self, idx: usize) -> Option<SessionStats> {
        if idx < self.gpus@.len() && self.session@.dom().contains(self.key_of(idx as int)) {
            Some(self.session@[self.key_of(idx as int)])
        } else {
            None
        }
    }

    /// The card at `idx` is folded.
    pub open spec fn folds(&self, idx: usize) -> bool {
        idx < self.gpus@.len() && self.folded@.dom().contains(self.key_of(idx as int))
    }

    /// The splash is up.
    pub open spec fn splash_shows(&self, now_ns: u64) -> bool {
        !self.splash_skipped && now_ns - self.started_ns < SPLASH_NS
    }

    /// The status text, while it is fresh.
    pub open spec fn status_shown(&self, now_ns: u64) -> Option<Seq<char>> {
        match self.status {
            Some((msg, at)) => if now_ns - at < STATUS_NS {
                Some(msg@)
            } else {
                None
            },
            None => None,
        }
    }
}

/// A card's history, figures and fold are those under its own key; an index
/// beyond the cards has none.
pub proof fn a_cards_state_is_under_its_key(app: &App, idx: usize)
    ensures
        idx >= app.gpus@.len() ==> app.history_of(idx) is None && app.session_of(idx) is None
            && !app.folds(idx),
        idx < app.gpus@.len() ==> {
            let k = app.key_of(idx as int);
            &&& app.history@.dom().contains(k) ==> app.history_of(idx) == Some(app.history@[k])
            &&& app.session@.dom().contains(k) ==> app.session_of(idx) == Some(app.session@[k])
            &&& app.folds(idx) <==> app.folded@.dom().contains(k)
            &&& !app.history@.dom().contains(k) ==> app.history_of(idx) is None
            &&& !app.session@.dom().contains(k) ==> app.session_of(idx) is None
        },
{
}

/// The splash shows from the start, for a second and a half and no longer,
/// unless it is skipped; once over it stays over. A status shows for four
/// seconds from when it was said.
pub proof fn what_is_shown_passes(app: &App, now_ns: u64, later_ns: u64)
    requires
        now_ns <= later_ns,
    ensures
        app.splash_shows(later_ns) ==> app.splash_shows(now_ns),
        app.splash_skipped ==> !app.splash_shows(now_ns),
        !app.splash_skipped && now_ns < app.started_ns + 1_500_000_000 ==> app.splash_shows(now_ns),
        now_ns >= app.started_ns + 1_500_000_000 ==> !app.splash_shows(now_ns),
        app.status is None ==> app.status_shown(now_ns) is None,
        app.status_shown(later_ns) is Some ==> app.status_shown(now_ns) == app.status_shown(
            later_ns,
        ),
        app.status matches Some((msg, at)) ==> (now_ns < at + 4_000_000_000 ==> app.status_shown(
            now_ns,
        ) == Some(msg@)),
        app.status matches Some((msg, at)) ==> (now_ns >= at + 4_000_000_000 ==> app.status_shown(
            now_ns,
        ) is None),
{
}

/// The reading of the card at `idx` is counted in its session figures.
pub open spec fn session_added(
    before: App,
    after: App,
    idx: usize,
    util_sum: Real,
    power_sum: Real,
) -> bool {
    &&& after.session@ == before.session@.insert(
        before.key_of(idx as int),
        stats_after(
            before.stats_of(before.key_of(idx as int)),
            before.gpus@[idx as int],
            util_sum,
            power_sum,
        ),
    )
    &&& after == (App { session: after.session, ..before })
}

/// A reading counts for the card it is of and for no other, on top of what that
/// card had.
pub proof fn a_reading_counts_for_its_card(
    before: App,
    after: App,
    idx: usize,
    util_sum: Real,
    power_sum: Real,
    other: DeviceId,
)
    requires
        session_added(before, after, idx, util_sum, power_sum),
        idx < before.gpus@.len(),
        other != before.key_of(idx as int),
    ensures
        after.session_of(idx) == Some(
            stats_after(
                before.stats_of(before.key_of(idx as int)),
                before.gpus@[idx as int],
                util_sum,
                power_sum,
            ),
        ),
        after.stats_of(other) == before.stats_of(other),
        after.session@.dom().contains(other) <==> before.session@.dom().contains(other),
        after.gpus == before.gpus && after.history == before.history,
        after.keys == before.keys && after.folded == before.folded,
{
}

} // verus!
