//! Several backends polled as one: device slots that stay put, identities that
//! never collide, and process rows that stay on their own vendor's cards.
use vstd::prelude::*;
use crate::backend::{opt_text, unread_snapshot, GpuProcess, GpuSnapshot};
use crate::text::{a_text_is_found_where_it_stands, contains_text, decimal, decimal_text, join, join_texts, same_text, string_texts, text_contains, joining_appends};

verus! {

/// One child of a [`CompositeBackend`], with the bookkeeping that keeps its
/// devices on the same indices for the life of the session.
pub struct Child {
    name: String,
    /// Slots this child owns in the concatenated list: a high-water mark.
    slots: usize,
    /// Device name last seen in each slot, to label the placeholders.
    names: Vec<String>,
    /// Namespaced device id last seen in each slot.
    ids: Vec<Option<String>>,
}

/// What a [`Child`] remembers, as plain texts.
pub struct ChildModel {
    pub name: Seq<char>,
    pub names: Seq<Seq<char>>,
    pub ids: Seq<Option<Seq<char>>>,
}

pub open spec fn opt_texts(v: Seq<Option<String>>) -> Seq<Option<Seq<char>>> {
    v.map_values(|x: Option<String>| opt_text(x))
}

impl View for Child {
    type V = ChildModel;

    closed spec fn view(&self) -> ChildModel {
        ChildModel {
            name: self.name@,
            names: string_texts(self.names@),
            ids: opt_texts(self.ids@),
        }
    }
}

impl Child {
    /// Every owned slot has a name and an id entry.
    pub closed spec fn wf(&self) -> bool {
        self.names.len() == self.slots && self.ids.len() == self.slots
    }
}

impl ChildModel {
    pub open spec fn slots(self) -> nat {
        self.names.len()
    }

    /// The identity that child `ci` gives a device which calls itself `id`.
    pub open spec fn namespaced(self, ci: nat, id: Seq<char>) -> Seq<char> {
        self.name + "#"@ + decimal(ci) + ":"@ + id
    }

    /// The identities of the devices that answered this poll.
    pub open spec fn live_ids(self, ci: nat, live: Seq<GpuSnapshot>) -> Seq<Option<Seq<char>>> {
        Seq::new(
            live.len(),
            |i: int|
                match live[i].device_id {
                    Some(id) => Some(self.namespaced(ci, id@)),
                    None => None,
                },
        )
    }

    /// Slot `i` claims an identity that a live device now carries elsewhere.
    pub open spec fn vacated(self, ci: nat, live: Seq<GpuSnapshot>, i: int) -> bool {
        self.ids[i] is Some && self.live_ids(ci, live).contains(self.ids[i])
    }

    /// What the child remembers after a poll in which `live` answered: it
    /// never owns fewer slots, a slot that answered takes its device's name and
    /// identity, and a silent slot keeps its own unless it was vacated.
    pub open spec fn after(self, ci: nat, live: Seq<GpuSnapshot>) -> ChildModel {
        let n = if live.len() > self.slots() {
            live.len()
        } else {
            self.slots()
        };
        ChildModel {
            name: self.name,
            names: Seq::new(
                n,
                |i: int|
                    if i < live.len() {
                        live[i].name@
                    } else if self.vacated(ci, live, i) {
                        Seq::<char>::empty()
                    } else {
                        self.names[i]
                    },
            ),
            ids: Seq::new(
                n,
                |i: int|
                    if i < live.len() {
                        self.live_ids(ci, live)[i]
                    } else if self.vacated(ci, live, i) {
                        None
                    } else {
                        self.ids[i]
                    },
            ),
        }
    }

    /// The name that holds slot `i` open while its device is silent.
    pub open spec fn label(self, i: int) -> Seq<char> {
        if self.names[i].len() > 0 {
            self.names[i]
        } else {
            self.name + " GPU "@ + decimal(i as nat)
        }
    }

    /// `row` is what slot `i` shows after a poll in which `live` answered: the
    /// device's own sample under its namespaced identity, or a placeholder.
    pub open spec fn shows(
        self,
        ci: nat,
        live: Seq<GpuSnapshot>,
        i: int,
        row: GpuSnapshot,
    ) -> bool {
        let then = self.after(ci, live);
        &&& opt_text(row.device_id) == then.ids[i]
        &&& if i < live.len() {
            row == (GpuSnapshot { device_id: row.device_id, ..live[i] })
        } else {
            &&& row == unread_snapshot(row.name, row.device_id)
            &&& row.name@ == then.label(i) + " (unavailable)"@
        }
    }
}

/// The snapshots that a poll outcome brought.
pub open spec fn answered(outcome: Result<Vec<GpuSnapshot>, String>) -> Seq<GpuSnapshot> {
    match outcome {
        Ok(v) => v@,
        Err(_) => Seq::empty(),
    }
}

fn copy_id(id: &Option<String>) -> (r: Option<String>)
    ensures
        opt_text(r) == opt_text(*id),
{
    match id {
        Some(s) => Some(s.clone()),
        None => None,
    }
}

fn same_id(a: &Option<String>, b: &Option<String>) -> (r: bool)
    ensures
        r == (opt_text(*a) == opt_text(*b)),
{
    match (a, b) {
        (Some(x), Some(y)) => same_text(x, y),
        (None, None) => true,
        _ => false,
    }
}

impl Child {
    fn new(name: String) -> (c: Self)
        ensures
            c.wf(),
            c@.name == name@,
            c@.slots() == 0,
            c@.ids.len() == 0,
    {
        Child { name, slots: 0, names: Vec::new(), ids: Vec::new() }
    }

    /// `{name}#{ci}:{id}`.
    fn namespace(&self, ci: usize, id: &str) -> (r: String)
        ensures
            r@ == self@.namespaced(ci as nat, id@),
    {
        let mut r = self.name.clone();
        r.append("#");
        r.append(decimal_text(ci as u64).as_str());
        r.append(":");
        r.append(id);
        r
    }

    /// Takes one poll of this child: remembers what answered and returns one
    /// row for every slot it owns.
    fn absorb(&mut self, ci: usize, live: Vec<GpuSnapshot>) -> (rows: Vec<GpuSnapshot>)
        requires
            old(self).wf(),
        ensures
            final(self).wf(),
            final(self)@ == old(self)@.after(ci as nat, live@),
            rows@.len() == final(self)@.slots(),
            forall|i: int|
                0 <= i < rows@.len() ==> old(self)@.shows(ci as nat, live@, i, #[trigger] rows@[i]),
    {
        let ghost before = self@;
        let ghost live_view = live@;
        let n: usize = live.len();
        let mut rows: Vec<GpuSnapshot> = Vec::new();
        let mut names: Vec<String> = Vec::new();
        let mut ids: Vec<Option<String>> = Vec::new();
        let ghost live_ids = before.live_ids(ci as nat, live_view);
        for snap in it: live
            invariant
                it.seq() == live_view,
                self@ == before,
                live_ids == before.live_ids(ci as nat, live_view),
                rows@.len() == it.index(),
                names@.len() == it.index(),
                ids@.len() == it.index(),
                forall|i: int| 0 <= i < it.index() ==> #[trigger] names@[i]@ == live_view[i].name@,
                forall|i: int| 0 <= i < it.index() ==> opt_text(#[trigger] ids@[i]) == live_ids[i],
                forall|i: int|
                    0 <= i < it.index() ==> opt_text((#[trigger] rows@[i]).device_id) == live_ids[i]
                        && rows@[i] == (GpuSnapshot {
                        device_id: rows@[i].device_id,
                        ..live_view[i]
                    }),
        {
            let mut row = snap;
            let id = match &row.device_id {
                Some(id) => Some(self.namespace(ci, id)),
                None => None,
            };
            names.push(row.name.clone());
            ids.push(copy_id(&id));
            row.device_id = id;
            rows.push(row);
        }
        let mut i: usize = n;
        let owned: usize = if n > self.slots { n } else { self.slots };
        let ghost then = before.after(ci as nat, live_view);
        while i < owned
            invariant
                n <= i <= owned,
                n == live_view.len(),
                self.wf(),
                owned == (if n > self.slots { n } else { self.slots }),
                self@ == before,
                live_ids == before.live_ids(ci as nat, live_view),
                then == before.after(ci as nat, live_view),
                rows@.len() == i,
                names@.len() == i,
                ids@.len() == i,
                forall|k: int| 0 <= k < i ==> #[trigger] names@[k]@ == then.names[k],
                forall|k: int| 0 <= k < i ==> opt_text(#[trigger] ids@[k]) == then.ids[k],
                forall|k: int| 0 <= k < i ==> before.shows(ci as nat, live_view, k, #[trigger] rows@[k]),
            decreases owned - i,
        {
            let mut gone = false;
            if self.ids[i].is_some() {
                let mut k: usize = 0;
                while k < n && !gone
                    invariant
                        k <= n <= i < self.slots,
                        self.wf(),
                        n <= ids@.len(),
                        n == live_ids.len(),
                        self.ids@[i as int] is Some,
                        forall|m: int| 0 <= m < n ==> opt_text(#[trigger] ids@[m]) == live_ids[m],
                        gone ==> live_ids.contains(opt_text(self.ids@[i as int])),
                        !gone ==> forall|m: int| 0 <= m < k ==> live_ids[m] != opt_text(self.ids@[i as int]),
                    decreases n - k,
                {
                    if same_id(&ids[k], &self.ids[i]) {
                        assert(live_ids[k as int] == opt_text(self.ids@[i as int]));
                        gone = true;
                    }
                    k = k + 1;
                }
            }
            assert(before.ids[i as int] == opt_text(self.ids@[i as int]));
            assert(gone == before.vacated(ci as nat, live_view, i as int));
            let name = if gone {
                String::new()
            } else {
                self.names[i].clone()
            };
            let id = if gone {
                None
            } else {
                copy_id(&self.ids[i])
            };
            assert(before.names[i as int] == self.names@[i as int]@);
            let mut label = if name.as_str().is_empty() {
                let mut l = self.name.clone();
                l.append(" GPU ");
                l.append(decimal_text(i as u64).as_str());
                l
            } else {
                name.clone()
            };
            label.append(" (unavailable)");
            let row = GpuSnapshot::unread(label, copy_id(&id));
            names.push(name);
            ids.push(id);
            rows.push(row);
            i = i + 1;
        }
        self.slots = owned;
        self.names = names;
        self.ids = ids;
        proof {
            assert(self@.names =~= then.names);
            assert(self@.ids =~= then.ids);
        }
        rows
    }
}

/// Every backend that reported devices, polled as one.
pub struct CompositeBackend {
    children: Vec<Child>,
}

pub open spec fn models(children: Seq<Child>) -> Seq<ChildModel> {
    children.map_values(|c: Child| c@)
}

/// The slots that the first `n` children own together: where the rows of
/// child `n` begin.
pub open spec fn offset(children: Seq<ChildModel>, n: nat) -> nat
    decreases n,
{
    if n == 0 {
        0
    } else {
        offset(children, (n - 1) as nat) + children[n - 1].slots()
    }
}

/// What every child remembers after the poll.
pub open spec fn afters(
    children: Seq<ChildModel>,
    polled: Seq<Result<Vec<GpuSnapshot>, String>>,
) -> Seq<ChildModel> {
    Seq::new(children.len(), |ci: int| children[ci].after(ci as nat, answered(polled[ci])))
}

/// The failures among the first `n` children, each under its child's name.
pub open spec fn failures(
    children: Seq<ChildModel>,
    polled: Seq<Result<Vec<GpuSnapshot>, String>>,
    n: nat,
) -> Seq<Seq<char>>
    decreases n,
{
    if n == 0 {
        Seq::empty()
    } else {
        let before = failures(children, polled, (n - 1) as nat);
        match polled[n - 1] {
            Ok(_) => before,
            Err(e) => before.push(children[n - 1].name + ": "@ + e@),
        }
    }
}

/// The row that slot `i` of child `ci` takes in the concatenated list.
pub open spec fn slot_row<A>(rows: Seq<A>, children: Seq<ChildModel>, ci: int, i: int) -> A {
    rows[offset(children, ci as nat) + i]
}

/// The rows of one child moved onto its slots; a row outside the child's own
/// slots is dropped.
pub open spec fn rebased(rows: Seq<GpuProcess>, slots: nat, base: nat) -> Seq<GpuProcess>
    decreases rows.len(),
{
    if rows.len() == 0 {
        Seq::empty()
    } else {
        let head = rebased(rows.drop_last(), slots, base);
        if rows.last().gpu_index < slots {
            head.push(
                GpuProcess { gpu_index: (rows.last().gpu_index + base) as usize, ..rows.last() },
            )
        } else {
            head
        }
    }
}

/// The process rows of the first `n` children, in child order.
pub open spec fn gathered(
    children: Seq<ChildModel>,
    listed: Seq<Vec<GpuProcess>>,
    n: nat,
) -> Seq<GpuProcess>
    decreases n,
{
    if n == 0 {
        Seq::empty()
    } else {
        gathered(children, listed, (n - 1) as nat) + rebased(
            listed[n - 1]@,
            children[n - 1].slots(),
            offset(children, (n - 1) as nat),
        )
    }
}

/// A child's line in the header: its own driver line, led by its name.
pub open spec fn driver_part(name: Seq<char>, info: Option<String>) -> Seq<char> {
    match info {
        Some(d) => if contains_text(d@, name) {
            d@
        } else {
            name + " "@ + d@
        },
        None => name,
    }
}

proof fn lemma_offset_monotone(children: Seq<ChildModel>, a: nat, b: nat)
    requires
        a <= b,
    ensures
        offset(children, a) <= offset(children, b),
    decreases b,
{
    if a < b {
        lemma_offset_monotone(children, a, (b - 1) as nat);
    }
}

proof fn lemma_offset_agrees(x: Seq<ChildModel>, y: Seq<ChildModel>, n: nat)
    requires
        n <= x.len(),
        n <= y.len(),
        forall|k: int| 0 <= k < n ==> x[k].slots() == y[k].slots(),
    ensures
        offset(x, n) == offset(y, n),
    decreases n,
{
    if n > 0 {
        lemma_offset_agrees(x, y, (n - 1) as nat);
    }
}

impl CompositeBackend {
    pub closed spec fn children(&self) -> Seq<ChildModel> {
        models(self.children@)
    }

    pub closed spec fn wf(&self) -> bool {
        &&& forall|i: int| 0 <= i < self.children.len() ==> (#[trigger] self.children@[i]).wf()
        &&& offset(models(self.children@), self.children@.len()) <= usize::MAX
    }

    /// A composite of the backends with these names; none owns a slot yet.
    pub fn new(names: Vec<String>) -> (c: Self)
        ensures
            c.wf(),
            c.children().len() == names@.len(),
            forall|i: int|
                0 <= i < names@.len() ==> {
                    &&& (#[trigger] c.children()[i]).name == names@[i]@
                    &&& c.children()[i].slots() == 0
                    &&& c.children()[i].ids.len() == 0
                },
    {
        let ghost given = names@;
        let mut children: Vec<Child> = Vec::new();
        for name in it: names
            invariant
                it.seq() == given,
                children@.len() == it.index(),
                offset(models(children@), children@.len()) == 0,
                forall|i: int|
                    0 <= i < it.index() ==> {
                        &&& (#[trigger] children@[i]).wf()
                        &&& children@[i]@.name == given[i]@
                        &&& children@[i]@.slots() == 0
                        &&& children@[i]@.ids.len() == 0
                    },
        {
            let ghost was = children@;
            children.push(Child::new(name));
            proof {
                lemma_offset_agrees(models(was), models(children@), was.len());
            }
        }
        let c = CompositeBackend { children };
        assert(forall|i: int| 0 <= i < given.len() ==> c.children()[i] == children@[i]@);
        c
    }

    pub fn name(&self) -> (s: &'static str)
        ensures
            s@ == "multi"@,
    {
        "multi"
    }

    /// Takes one poll of every child. Each child's devices keep their slots; a
    /// silent slot is held open by a placeholder. The poll as a whole fails
    /// when a child failed and either nothing is left to show or every child
    /// failed.
    pub fn poll(&mut self, polled: Vec<Result<Vec<GpuSnapshot>, String>>) -> (r: Result<
        Vec<GpuSnapshot>,
        String,
    >)
        requires
            old(self).wf(),
            polled@.len() == old(self).children().len(),
        ensures
            final(self).wf(),
            final(self).children() == afters(old(self).children(), polled@),
            r is Err <==> is_lost(old(self).children(), polled@),
            r matches Err(e) ==> e@ == join(
                failures(old(self).children(), polled@, polled@.len()),
                "; "@,
            ),
            r matches Ok(out) ==> {
                &&& out@.len() == offset(final(self).children(), polled@.len())
                &&& forall|ci: int, i: int|
                    0 <= ci < polled@.len() && 0 <= i < final(self).children()[ci].slots()
                        ==> old(self).children()[ci].shows(
                        ci as nat,
                        answered(polled@[ci]),
                        i,
                        #[trigger] slot_row(out@, final(self).children(), ci, i),
                    )
            },
    {
        let ghost before = self.children();
        let ghost given = polled@;
        let ghost then = afters(before, given);
        let total: usize = polled.len();
        let mut out: Vec<GpuSnapshot> = Vec::new();
        let mut errors: Vec<String> = Vec::new();
        let mut ci: usize = 0;
        for outcome in it: polled
            invariant
                it.seq() == given,
                ci == it.index(),
                given.len() == before.len(),
                given.len() == total,
                then == afters(before, given),
                self.children@.len() == before.len(),
                forall|k: int| 0 <= k < before.len() ==> (#[trigger] self.children@[k]).wf(),
                forall|k: int| 0 <= k < ci ==> (#[trigger] self.children@[k])@ == then[k],
                forall|k: int| ci <= k < before.len() ==> (#[trigger] self.children@[k])@ == before[k],
                string_texts(errors@) == failures(before, given, ci as nat),
                out@.len() == offset(then, ci as nat),
                forall|k: int, i: int|
                    0 <= k < ci && 0 <= i < then[k].slots() ==> before[k].shows(
                        k as nat,
                        answered(given[k]),
                        i,
                        #[trigger] slot_row(out@, then, k, i),
                    ),
        {
            let ghost failed = failures(before, given, ci as nat);
            let live = match outcome {
                Ok(v) => v,
                Err(e) => {
                    let mut text = self.children[ci].name.clone();
                    text.append(": ");
                    text.append(e.as_str());
                    let ghost was = errors@;
                    errors.push(text);
                    assert(string_texts(errors@) =~= string_texts(was).push(text@));
                    assert(self.children@[ci as int]@ == before[ci as int]);
                    Vec::new()
                },
            };
            assert(live@ == answered(given[ci as int]));
            let mut rows = self.children[ci].absorb(ci, live);
            let ghost held = out@;
            let ghost added = rows@;
            out.append(&mut rows);
            proof {
                assert forall|k: int, i: int| 0 <= k < ci + 1 && 0 <= i < then[k].slots() implies before[k].shows(
                    k as nat,
                    answered(given[k]),
                    i,
                    #[trigger] slot_row(out@, then, k, i),
                ) by {
                    if k < ci {
                        lemma_offset_monotone(then, (k + 1) as nat, ci as nat);
                        assert(slot_row(out@, then, k, i) == slot_row(held, then, k, i));
                    } else {
                        assert(slot_row(out@, then, k, i) == added[i]);
                    }
                }
            }
            ci = ci + 1;
        }
        proof {
            assert(models(self.children@) =~= then);
            assert(errors@.len() == string_texts(errors@).len());
        }
        let shown: usize = out.len();
        if errors.len() > 0 && (shown == 0 || errors.len() == total) {
            return Err(join_texts(&errors, "; "));
        }
        Ok(out)
    }

    /// The children's process rows, each moved onto its own child's cards. A
    /// row that names a card its child does not have is dropped.
    pub fn processes(&self, listed: Vec<Vec<GpuProcess>>) -> (out: Vec<GpuProcess>)
        requires
            self.wf(),
            listed@.len() == self.children().len(),
        ensures
            out@ == gathered(self.children(), listed@, listed@.len()),
    {
        let ghost given = listed@;
        let ghost kids = self.children();
        let mut out: Vec<GpuProcess> = Vec::new();
        let mut base: usize = 0;
        let mut ci: usize = 0;
        for rows in it: listed
            invariant
                self.wf(),
                kids == self.children(),
                it.seq() == given,
                ci == it.index(),
                given.len() == kids.len(),
                kids.len() == self.children.len(),
                base == offset(kids, ci as nat),
                out@ == gathered(kids, given, ci as nat),
        {
            let slots: usize = self.children[ci].slots;
            let ghost start = out@;
            let ghost all = rows@;
            proof {
                assert(self.children@[ci as int]@ == kids[ci as int]);
                lemma_offset_monotone(kids, (ci + 1) as nat, kids.len());
                assert(all.take(0) =~= Seq::<GpuProcess>::empty());
                assert(start + rebased(all.take(0), slots as nat, base as nat) =~= start);
            }
            for row in jt: rows
                invariant
                    jt.seq() == all,
                    base + slots <= usize::MAX,
                    out@ == start + rebased(all.take(jt.index() as int), slots as nat, base as nat),
            {
                let ghost here = jt.index() as int;
                assert(all.take(here + 1).drop_last() =~= all.take(here));
                if row.gpu_index < slots {
                    let mut moved = row;
                    moved.gpu_index = moved.gpu_index + base;
                    out.push(moved);
                }
                assert(out@ =~= start + rebased(all.take(here + 1), slots as nat, base as nat));
            }
            assert(all.take(all.len() as int) =~= all);
            base = base + slots;
            ci = ci + 1;
        }
        out
    }

    /// The children's driver lines, each led by its child's name, joined.
    pub fn driver_info(&self, infos: &Vec<Option<String>>) -> (r: Option<String>)
        requires
            infos@.len() == self.children().len(),
        ensures
            opt_text(r) == drivers_line(self.children(), infos@),
    {
        let ghost kids = self.children();
        let ghost want = Seq::new(infos@.len(), |i: int| driver_part(kids[i].name, infos@[i]));
        let mut parts: Vec<String> = Vec::new();
        let mut i: usize = 0;
        while i < infos.len()
            invariant
                i <= infos.len(),
                kids == self.children(),
                infos@.len() == kids.len(),
                want == Seq::new(infos@.len(), |k: int| driver_part(kids[k].name, infos@[k])),
                string_texts(parts@) == want.take(i as int),
            decreases infos.len() - i,
        {
            assert(self.children@[i as int]@ == kids[i as int]);
            let name = &self.children[i].name;
            let part = match &infos[i] {
                Some(d) => if text_contains(d, name) {
                    d.clone()
                } else {
                    let mut p = name.clone();
                    p.append(" ");
                    p.append(d.as_str());
                    p
                },
                None => name.clone(),
            };
            let ghost was = parts@;
            parts.push(part);
            assert(string_texts(parts@) =~= string_texts(was).push(part@));
            assert(want.take(i + 1) =~= want.take(i as int).push(want[i as int]));
            i = i + 1;
        }
        assert(want.take(i as int) =~= want);
        if parts.len() == 0 {
            None
        } else {
            Some(join_texts(&parts, " · "))
        }
    }

    /// Signals are allowed only where every child's pids are local: the
    /// process table is one list.
    pub fn can_signal(&self, local: &Vec<bool>) -> (r: bool)
        ensures
            r == forall|i: int| 0 <= i < local@.len() ==> #[trigger] local@[i],
    {
        let mut i: usize = 0;
        while i < local.len()
            invariant
                i <= local.len(),
                forall|k: int| 0 <= k < i ==> #[trigger] local@[k],
            decreases local.len() - i,
        {
            if !local[i] {
                assert(!local@[i as int]);
                return false;
            }
            i = i + 1;
        }
        true
    }
}

// ---------------------------------------------------------------- laws

/// A child never gives a slot back, so the cards after it do not move up when
/// it falls silent.
pub proof fn slots_never_shrink(c: ChildModel, ci: nat, live: Seq<GpuSnapshot>)
    ensures
        c.after(ci, live).slots() >= c.slots(),
        c.after(ci, live).slots() >= live.len(),
        live.len() <= c.slots() ==> c.after(ci, live).slots() == c.slots(),
{
}

/// A slot that was silent in this poll never claims the identity of a device
/// that answered it.
pub proof fn placeholders_never_duplicate_a_live_device(
    c: ChildModel,
    ci: nat,
    live: Seq<GpuSnapshot>,
    silent: int,
    answering: int,
)
    requires
        0 <= answering < live.len() <= silent < c.slots(),
        c.ids.len() == c.names.len(),
    ensures
        c.after(ci, live).ids[silent] is Some ==> c.after(ci, live).ids[silent] != c.after(
            ci,
            live,
        ).ids[answering],
{
    let then = c.after(ci, live);
    assert(then.ids[answering] == c.live_ids(ci, live)[answering]);
}

/// A device that misses a poll and nothing else keeps its identity.
pub proof fn a_silent_device_keeps_its_identity(c: ChildModel, ci: nat, i: int)
    requires
        0 <= i < c.slots(),
        c.ids.len() == c.names.len(),
    ensures
        c.after(ci, Seq::<GpuSnapshot>::empty()).ids[i] == c.ids[i],
        c.after(ci, Seq::<GpuSnapshot>::empty()).names[i] == c.names[i],
{
    assert(c.live_ids(ci, Seq::<GpuSnapshot>::empty()).len() == 0);
}

proof fn lemma_decimal_has_no(n: nat, c: char)
    requires
        !crate::text::is_digit(c),
    ensures
        !decimal(n).contains(c),
{
    crate::text::decimal_reads_back(n);
}

/// Two devices of different children never share an identity, whatever ids
/// their backends mint, as long as backend names hold no `#`.
pub proof fn namespaces_do_not_meet(
    a: ChildModel,
    ca: nat,
    ida: Seq<char>,
    b: ChildModel,
    cb: nat,
    idb: Seq<char>,
)
    requires
        ca != cb,
        !a.name.contains('#'),
        !b.name.contains('#'),
    ensures
        a.namespaced(ca, ida) != b.namespaced(cb, idb),
{
    let x = a.namespaced(ca, ida);
    let y = b.namespaced(cb, idb);
    if x == y {
        reveal_strlit("#");
        reveal_strlit(":");
        let la = a.name.len() as int;
        let lb = b.name.len() as int;
        assert(x[la] == '#');
        assert(y[lb] == '#');
        if la < lb {
            assert(y[la] == b.name[la]);
            assert(b.name.contains('#'));
        }
        if lb < la {
            assert(x[lb] == a.name[lb]);
            assert(a.name.contains('#'));
        }
        lemma_decimal_has_no(ca, ':');
        lemma_decimal_has_no(cb, ':');
        let da = decimal(ca);
        let db = decimal(cb);
        assert(x[la + 1 + da.len()] == ':');
        assert(y[lb + 1 + db.len()] == ':');
        if da.len() < db.len() {
            assert(y[la + 1 + da.len()] == db[da.len() as int]);
            assert(db.contains(':'));
        }
        if db.len() < da.len() {
            assert(x[lb + 1 + db.len()] == da[db.len() as int]);
            assert(da.contains(':'));
        }
        assert forall|i: int| 0 <= i < da.len() implies da[i] == db[i] by {
            assert(x[la + 1 + i] == da[i]);
            assert(y[lb + 1 + i] == db[i]);
        }
        assert(da =~= db);
        crate::text::decimal_reads_back(ca);
        crate::text::decimal_reads_back(cb);
    }
}

/// Every process row of a child lands inside that child's own slots.
pub proof fn rows_stay_on_their_childs_cards(rows: Seq<GpuProcess>, slots: nat, base: nat, i: int)
    requires
        base + slots <= usize::MAX,
        0 <= i < rebased(rows, slots, base).len(),
    ensures
        base <= rebased(rows, slots, base)[i].gpu_index < base + slots,
    decreases rows.len(),
{
    if rows.len() > 0 {
        let head = rebased(rows.drop_last(), slots, base);
        if i < head.len() {
            rows_stay_on_their_childs_cards(rows.drop_last(), slots, base, i);
        }
    }
}

/// The slots of two children never overlap.
pub proof fn spans_are_disjoint(children: Seq<ChildModel>, a: nat, b: nat)
    requires
        a < b < children.len(),
    ensures
        offset(children, a) + children[a as int].slots() <= offset(children, b),
{
    lemma_offset_monotone(children, a + 1, b);
}

// ---------------------------------------------------------------- composing

/// PCI vendor ids, as adapters report them.
pub const PCI_VENDOR_NVIDIA: u16 = 0x10de;

pub const PCI_VENDOR_AMD: u16 = 0x1002;

pub const PCI_VENDOR_INTEL: u16 = 0x8086;

/// What is said where nothing was found.
pub const NO_BACKEND: &'static str =
    "no supported GPU backend found (run with --mock to demo the UI)";

/// What was found: one backend, as it is, or several to be polled as one.
#[derive(Debug)]
pub enum Composed<T> {
    One(T),
    Many(Vec<T>),
}

/// `r` is what these backends compose to.
pub open spec fn is_composed<T>(r: Result<Composed<T>, String>, found: Seq<T>) -> bool {
    if found.len() == 0 {
        r matches Err(e) && e@ == NO_BACKEND@
    } else if found.len() == 1 {
        r == Ok::<Composed<T>, String>(Composed::One(found[0]))
    } else {
        r matches Ok(Composed::Many(v)) && v@ == found
    }
}

/// Wraps only what needs wrapping: a single backend stays as it is.
pub fn compose<T>(found: Vec<T>) -> (r: Result<Composed<T>, String>)
    ensures
        is_composed(r, found@),
{
    let mut found = found;
    if found.len() <= 1 {
        return match found.pop() {
            Some(b) => Ok(Composed::One(b)),
            None => Err(NO_BACKEND.to_owned()),
        };
    }
    Ok(Composed::Many(found))
}

/// The vendors that the found backends cover.
pub open spec fn claimed_by<T>(found: Seq<(T, Vec<u16>)>) -> Seq<u16>
    decreases found.len(),
{
    if found.len() == 0 {
        Seq::empty()
    } else {
        claimed_by(found.drop_last()) + found.last().1@
    }
}

pub open spec fn backends_of<T>(found: Seq<(T, Vec<u16>)>) -> Seq<T> {
    found.map_values(|f: (T, Vec<u16>)| f.0)
}

/// The generic backend comes last, where it has anything to add.
pub open spec fn joined<T>(backends: Seq<T>, generic: Option<T>) -> Seq<T> {
    match generic {
        Some(g) => backends.push(g),
        None => backends,
    }
}

/// Composes the vendor backends with a generic one, which is told the vendors
/// already covered, so that it contributes only what is left.
pub fn compose_with_generic<T, F: FnOnce(&Vec<u16>) -> Option<T>>(
    found: Vec<(T, Vec<u16>)>,
    generic: F,
) -> (r: Result<Composed<T>, String>)
    requires
        forall|v: &Vec<u16>| call_requires(generic, (v,)),
    ensures
        exists|claimed: Vec<u16>, g: Option<T>|
            claimed@ == claimed_by(found@) && #[trigger] call_ensures(generic, (&claimed,), g)
                && is_composed(r, joined(backends_of(found@), g)),
{
    let ghost all = found@;
    let mut rest = found;
    let mut claimed: Vec<u16> = Vec::new();
    let mut backends: Vec<T> = Vec::new();
    let ghost mut i: int = 0;
    proof {
        assert(all.take(0) =~= Seq::<(T, Vec<u16>)>::empty());
        assert(all.skip(0) =~= all);
        assert(backends@ =~= backends_of(all.take(0)));
    }
    while rest.len() > 0
        invariant
            0 <= i <= all.len(),
            rest@ == all.skip(i),
            claimed@ == claimed_by(all.take(i)),
            backends@ == backends_of(all.take(i)),
        decreases rest.len(),
    {
        let (b, vendors) = rest.remove(0);
        let mut vendors = vendors;
        proof {
            assert((b, vendors) == all[i]);
            assert(all.take(i + 1).drop_last() =~= all.take(i));
            assert(all.take(i + 1).last() == all[i]);
        }
        claimed.append(&mut vendors);
        backends.push(b);
        proof {
            assert(claimed@ =~= claimed_by(all.take(i + 1)));
            assert(backends@ =~= backends_of(all.take(i + 1)));
            assert(rest@ =~= all.skip(i + 1));
            i = i + 1;
        }
    }
    assert(all.take(i) =~= all);
    let g = generic(&claimed);
    let ghost answer = g;
    if let Some(b) = g {
        backends.push(b);
    }
    assert(backends@ =~= joined(backends_of(all), answer));
    let r = compose(backends);
    assert(call_ensures(generic, (&claimed,), answer));
    r
}

/// A device that answers shows its own sample, in its own place, under its
/// child's name for it; one that does not shows a placeholder that knows
/// nothing and says so.
pub proof fn a_slot_shows_its_own_device(
    c: ChildModel,
    ci: nat,
    live: Seq<GpuSnapshot>,
    i: int,
    row: GpuSnapshot,
)
    requires
        c.shows(ci, live, i, row),
        0 <= i < c.after(ci, live).slots(),
        c.ids.len() == c.names.len(),
    ensures
        i < live.len() ==> {
            &&& row.name == live[i].name
            &&& row.utilization_pct == live[i].utilization_pct
            &&& row.temperature_c == live[i].temperature_c
            &&& row.power_w == live[i].power_w
            &&& row.vram_used_bytes == live[i].vram_used_bytes
            &&& row.vram_total_bytes == live[i].vram_total_bytes
            &&& live[i].device_id matches Some(id) ==> opt_text(row.device_id) == Some(
                c.name + "#"@ + decimal(ci) + ":"@ + id@,
            )
            &&& live[i].device_id is None ==> row.device_id is None
        },
        i >= live.len() ==> {
            &&& row.utilization_pct is None && row.temperature_c is None && row.power_w is None
            &&& row.vram_used_bytes is None && row.clock_mhz is None
            &&& c.names[i].len() > 0 && c.ids[i] is None ==> row.name@ == c.names[i]
                + " (unavailable)"@
            &&& c.ids[i] is None ==> row.device_id is None
        },
        c.after(ci, live).name == c.name,
{
}

/// The children's slots follow on one another and never meet.
pub proof fn slots_of_different_children_do_not_meet(
    children: Seq<ChildModel>,
    a: nat,
    i: int,
    b: nat,
    j: int,
)
    requires
        a < b < children.len(),
        0 <= i < children[a as int].slots(),
        0 <= j < children[b as int].slots(),
    ensures
        offset(children, a) + i < offset(children, b) + j,
        offset(children, (a + 1) as nat) == offset(children, a) + children[a as int].slots(),
        offset(children, 0) == 0,
{
    lemma_offset_monotone(children, (a + 1) as nat, b);
}

/// No process row is lost that names one of its child's cards: it comes out as
/// it was, on that card's slot; the others are dropped.
pub proof fn rows_keep_their_card(rows: Seq<GpuProcess>, slots: nat, base: nat, k: int)
    requires
        base + slots <= usize::MAX,
        0 <= k < rows.len(),
        rows[k].gpu_index < slots,
    ensures
        rebased(rows, slots, base).contains(
            GpuProcess { gpu_index: (rows[k].gpu_index + base) as usize, ..rows[k] },
        ),
        rebased(rows, slots, base).len() <= rows.len(),
    decreases rows.len(),
{
    let init = rows.drop_last();
    let head = rebased(init, slots, base);
    let all = rebased(rows, slots, base);
    let x = GpuProcess { gpu_index: (rows[k].gpu_index + base) as usize, ..rows[k] };
    lemma_rebased_count(rows, slots, base);
    if k < rows.len() - 1 {
        assert(init[k] == rows[k]);
        rows_keep_their_card(init, slots, base, k);
        let w = choose|w: int| 0 <= w < head.len() && head[w] == x;
        assert(all[w] == x);
    } else {
        assert(all[head.len() as int] == x);
    }
}

proof fn lemma_rebased_count(rows: Seq<GpuProcess>, slots: nat, base: nat)
    ensures
        rebased(rows, slots, base).len() <= rows.len(),
    decreases rows.len(),
{
    if rows.len() > 0 {
        lemma_rebased_count(rows.drop_last(), slots, base);
    }
}

/// Every child that failed is named with its own failure, and no other; there
/// are as many failures as children only where every one of them failed.
pub proof fn every_failure_is_named(
    children: Seq<ChildModel>,
    polled: Seq<Result<Vec<GpuSnapshot>, String>>,
    n: nat,
    k: int,
)
    requires
        0 <= k < n <= polled.len(),
        n <= children.len(),
    ensures
        polled[k] matches Err(e) ==> failures(children, polled, n).contains(
            children[k].name + ": "@ + e@,
        ),
        polled[k] is Ok ==> failures(children, polled, n).len() < n,
        (forall|j: int| 0 <= j < n ==> (#[trigger] polled[j]) is Ok) ==> failures(
            children,
            polled,
            n,
        ).len() == 0,
        (forall|j: int| 0 <= j < n ==> (#[trigger] polled[j]) is Err) ==> failures(
            children,
            polled,
            n,
        ).len() == n,
    decreases n,
{
    let head = failures(children, polled, (n - 1) as nat);
    let all = failures(children, polled, n);
    lemma_failure_count(children, polled, (n - 1) as nat);
    if k < n - 1 {
        every_failure_is_named(children, polled, (n - 1) as nat, k);
        if let Err(e) = polled[k] {
            let x = children[k].name + ": "@ + e@;
            let w = choose|w: int| 0 <= w < head.len() && head[w] == x;
            assert(all[w] == x);
        }
    } else {
        if let Err(e) = polled[k] {
            assert(all[head.len() as int] == children[k].name + ": "@ + e@);
        }
        if n > 1 {
            every_failure_is_named(children, polled, (n - 1) as nat, 0);
        }
    }
}

proof fn lemma_failure_count(
    children: Seq<ChildModel>,
    polled: Seq<Result<Vec<GpuSnapshot>, String>>,
    n: nat,
)
    ensures
        failures(children, polled, n).len() <= n,
    decreases n,
{
    if n > 0 {
        lemma_failure_count(children, polled, (n - 1) as nat);
    }
}

/// A child's part of the header names the child and shows what it says of its
/// driver, without naming it twice.
pub proof fn a_driver_part_names_its_child(name: Seq<char>, d: String)
    ensures
        contains_text(driver_part(name, Some(d)), name),
        contains_text(driver_part(name, Some(d)), d@),
        contains_text(d@, name) ==> driver_part(name, Some(d)) == d@,
        driver_part(name, None) == name,
{
    let e = Seq::<char>::empty();
    a_text_is_found_where_it_stands(e, name, " "@ + d@);
    assert(e + name + (" "@ + d@) =~= name + " "@ + d@);
    a_text_is_found_where_it_stands(name + " "@, d@, e);
    assert(name + " "@ + d@ + e =~= name + " "@ + d@);
    a_text_is_found_where_it_stands(e, d@, e);
    assert(e + d@ + e =~= d@);
}

/// Every row that a child lists on one of its cards is listed, on the slot that
/// the card has among all; the children come in their order.
pub proof fn every_childs_rows_are_gathered(
    children: Seq<ChildModel>,
    listed: Seq<Vec<GpuProcess>>,
    n: nat,
    c: nat,
    k: int,
)
    requires
        c < n <= listed.len(),
        n <= children.len(),
        0 <= k < listed[c as int]@.len(),
        listed[c as int]@[k].gpu_index < children[c as int].slots(),
        offset(children, c) + children[c as int].slots() <= usize::MAX,
    ensures
        gathered(children, listed, n).contains(
            GpuProcess {
                gpu_index: (listed[c as int]@[k].gpu_index + offset(children, c)) as usize,
                ..listed[c as int]@[k]
            },
        ),
        gathered(children, listed, 0).len() == 0,
        gathered(children, listed, c).is_prefix_of(gathered(children, listed, n)),
    decreases n,
{
    let row = GpuProcess {
        gpu_index: (listed[c as int]@[k].gpu_index + offset(children, c)) as usize,
        ..listed[c as int]@[k]
    };
    let all = gathered(children, listed, n);
    let head = gathered(children, listed, (n - 1) as nat);
    let own = rebased(
        listed[n - 1]@,
        children[n - 1].slots(),
        offset(children, (n - 1) as nat),
    );
    assert(all == head + own);
    if c == n - 1 {
        rows_keep_their_card(listed[c as int]@, children[c as int].slots(), offset(children, c), k);
        let i = own.index_of(row);
        assert(own[i] == row);
        assert(all[head.len() + i] == row);
    } else {
        every_childs_rows_are_gathered(children, listed, (n - 1) as nat, c, k);
        let i = head.index_of(row);
        assert(head[i] == row);
        assert(all[i] == row);
        let first = gathered(children, listed, c);
        assert(all.take(first.len() as int) =~= head.take(first.len() as int));
    }
}

/// No backend is an error, one stands for itself, and several stand together in
/// the order in which they were found.
pub proof fn composing_keeps_every_backend<T>(r: Result<Composed<T>, String>, found: Seq<T>)
    requires
        is_composed(r, found),
    ensures
        r is Err <==> found.len() == 0,
        r matches Ok(Composed::One(x)) ==> found == seq![x],
        r matches Ok(Composed::Many(v)) ==> v@ == found && found.len() >= 2,
        r matches Err(e) ==> e@ == NO_BACKEND@,
{
    if found.len() == 1 {
        assert(found =~= seq![found[0]]);
    }
}

/// A vendor is claimed just where a found backend covers it.
pub proof fn covered_vendors_are_claimed<T>(found: Seq<(T, Vec<u16>)>, v: u16)
    ensures
        claimed_by(found).contains(v) <==> exists|k: int|
            0 <= k < found.len() && (#[trigger] found[k]).1@.contains(v),
    decreases found.len(),
{
    if found.len() > 0 {
        let init = found.drop_last();
        covered_vendors_are_claimed(init, v);
        let a = claimed_by(init);
        let b = found.last().1@;
        if (a + b).contains(v) {
            let i = (a + b).index_of(v);
            if i < a.len() {
                assert(a[i] == v);
                let k = choose|k: int| 0 <= k < init.len() && (#[trigger] init[k]).1@.contains(v);
                assert(found[k].1@.contains(v));
            } else {
                assert(b[i - a.len()] == v);
                assert(found[found.len() - 1].1@.contains(v));
            }
        }
        if exists|k: int| 0 <= k < found.len() && (#[trigger] found[k]).1@.contains(v) {
            let k = choose|k: int| 0 <= k < found.len() && (#[trigger] found[k]).1@.contains(v);
            if k < init.len() {
                assert(init[k].1@.contains(v));
                let i = a.index_of(v);
                assert(a[i] == v);
                assert((a + b)[i] == v);
            } else {
                let i = b.index_of(v);
                assert(b[i] == v);
                assert((a + b)[a.len() + i] == v);
            }
        }
    }
}

/// Nothing can be shown: some child failed, and either all did or there is no
/// slot at all.
pub open spec fn is_lost(
    children: Seq<ChildModel>,
    polled: Seq<Result<Vec<GpuSnapshot>, String>>,
) -> bool {
    let errors = failures(children, polled, polled.len());
    &&& errors.len() > 0
    &&& offset(afters(children, polled), polled.len()) == 0 || errors.len() == polled.len()
}

/// What the children say of their drivers, in a row.
pub open spec fn drivers_line(children: Seq<ChildModel>, infos: Seq<Option<String>>) -> Option<
    Seq<char>,
> {
    if infos.len() == 0 {
        None
    } else {
        Some(
            join(
                Seq::new(infos.len(), |i: int| driver_part(children[i].name, infos[i])),
                " · "@,
            ),
        )
    }
}

/// A child that answers with a card keeps the whole from failing, whatever
/// became of the others; where every child failed, the whole has; and where
/// none did, it has not.
pub proof fn one_answer_keeps_the_whole(
    children: Seq<ChildModel>,
    polled: Seq<Result<Vec<GpuSnapshot>, String>>,
    k: int,
)
    requires
        0 <= k < polled.len(),
        polled.len() == children.len(),
    ensures
        polled[k] matches Ok(v) ==> (v@.len() > 0 ==> !is_lost(children, polled)),
        (forall|j: int| 0 <= j < polled.len() ==> (#[trigger] polled[j]) is Err) ==> is_lost(
            children,
            polled,
        ),
        (forall|j: int| 0 <= j < polled.len() ==> (#[trigger] polled[j]) is Ok) ==> !is_lost(
            children,
            polled,
        ),
{
    every_failure_is_named(children, polled, polled.len(), k);
    let all = afters(children, polled);
    lemma_offset_monotone(all, (k + 1) as nat, polled.len());
    assert(all[k].slots() >= answered(polled[k]).len());
    if forall|j: int| 0 <= j < polled.len() ==> (#[trigger] polled[j]) is Err {
        lemma_every_failure_counts(children, polled, polled.len());
    }
}

proof fn lemma_every_failure_counts(
    children: Seq<ChildModel>,
    polled: Seq<Result<Vec<GpuSnapshot>, String>>,
    n: nat,
)
    requires
        n <= polled.len(),
        forall|j: int| 0 <= j < n ==> (#[trigger] polled[j]) is Err,
    ensures
        failures(children, polled, n).len() == n,
    decreases n,
{
    if n > 0 {
        assert(polled[n - 1] is Err);
        lemma_every_failure_counts(children, polled, (n - 1) as nat);
    }
}

/// Every child's part stands in the line, in the order of the children.
pub proof fn every_childs_driver_is_shown(
    children: Seq<ChildModel>,
    infos: Seq<Option<String>>,
    more: Option<String>,
)
    requires
        infos.len() > 0,
    ensures
        drivers_line(children, infos) matches Some(head) && drivers_line(
            children,
            infos.push(more),
        ) == Some(head + " · "@ + driver_part(children[infos.len() as int].name, more)),
        drivers_line(children, seq![more]) == Some(driver_part(children[0].name, more)),
        drivers_line(children, Seq::empty()) is None,
{
    let parts = Seq::new(infos.len(), |i: int| driver_part(children[i].name, infos[i]));
    let all = infos.push(more);
    let whole = Seq::new(all.len(), |i: int| driver_part(children[i].name, all[i]));
    let last = driver_part(children[infos.len() as int].name, more);
    assert(whole =~= parts.push(last));
    joining_appends(parts, last, " · "@);
    let one = seq![more];
    let single = Seq::new(one.len(), |i: int| driver_part(children[i].name, one[i]));
    assert(single =~= seq![driver_part(children[0].name, more)]);
    assert(join(single, " · "@) == driver_part(children[0].name, more));
}

} // verus!
