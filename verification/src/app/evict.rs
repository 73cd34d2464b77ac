//! Which departed devices are forgotten: the longest absent, once too many
//! have piled up.
use vstd::prelude::*;
use crate::app::device::{find_key, id_lt, id_lt_total, DeviceId, DeviceKey, DeviceMap};
use crate::keyed::views;
use crate::order::{is_sorted_order, precedes, sorted_order, Ranked};

verus! {

/// Departed devices whose state is kept in case they come back.
pub const MAX_ABSENT_DEVICES: usize = 16;

/// A device and the poll that last saw it.
pub struct Sighting {
    pub at: u64,
    pub key: DeviceKey,
}

/// `a` was last seen before `b`; the identity breaks ties.
pub open spec fn older(at_a: u64, a: DeviceId, at_b: u64, b: DeviceId) -> bool {
    at_a < at_b || (at_a == at_b && id_lt(a, b))
}

impl Ranked for Sighting {
    open spec fn before(&self, other: &Self) -> bool {
        older(self.at, self.key@, other.at, other.key@)
    }

    proof fn asymmetric(a: &Self, b: &Self) {
        if a.at == b.at {
            DeviceKey::asymmetric(&a.key, &b.key);
        }
    }

    proof fn separated(a: &Self, b: &Self, c: &Self) {
        if a.at == b.at && b.at == c.at {
            DeviceKey::separated(&a.key, &b.key, &c.key);
        }
    }

    fn is_before(&self, other: &Self) -> (r: bool) {
        self.at < other.at || (self.at == other.at && self.key.is_before(&other.key))
    }
}

/// The known devices that are not live.
pub open spec fn absent(seen: Map<DeviceId, u64>, live: Seq<DeviceId>) -> Set<DeviceId> {
    seen.dom().difference(live.to_set())
}

/// The absent devices last seen before `k`.
pub open spec fn absent_before(seen: Map<DeviceId, u64>, live: Seq<DeviceId>, k: DeviceId) -> Set<
    DeviceId,
> {
    absent(seen, live).filter(|d: DeviceId| older(seen[d], d, seen[k], k))
}

/// How many devices are known beyond the live ones and the absent ones kept.
pub open spec fn excess(seen: Map<DeviceId, u64>, live: Seq<DeviceId>) -> int {
    if seen.dom().len() > live.len() + MAX_ABSENT_DEVICES {
        seen.dom().len() - (live.len() + MAX_ABSENT_DEVICES)
    } else {
        0
    }
}

/// The devices to forget: as many of the longest absent as there are too many.
pub open spec fn evicted(seen: Map<DeviceId, u64>, live: Seq<DeviceId>) -> Set<DeviceId> {
    absent(seen, live).filter(
        |k: DeviceId| absent_before(seen, live, k).len() < excess(seen, live),
    )
}

spec fn sighting_ids(v: Seq<Sighting>, p: Seq<usize>) -> Seq<DeviceId> {
    Seq::new(p.len(), |i: int| v[p[i] as int].key@)
}

/// The devices to forget, oldest first.
pub fn evictions(seen: &DeviceMap<u64>, live: &Vec<DeviceKey>) -> (out: Vec<DeviceKey>)
    requires
        seen.wf(),
        live@.len() + MAX_ABSENT_DEVICES <= usize::MAX,
    ensures
        views(out@).no_duplicates(),
        views(out@).to_set() == evicted(seen@, views(live@)),
        out@.len() <= excess(seen@, views(live@)),
        out@.len() == excess(seen@, views(live@)) || out@.len() == absent(
            seen@,
            views(live@),
        ).len(),
{
    let ghost map = seen@;
    let ghost here = views(live@);
    let mut out: Vec<DeviceKey> = Vec::new();
    let known: usize = seen.len();
    let room: usize = live.len() + MAX_ABSENT_DEVICES;
    let extra: usize = if known > room { known - room } else { 0 };
    let all = seen.keys();
    let mut gone: Vec<Sighting> = Vec::new();
    let mut i: usize = 0;
    while i < all.len()
        invariant
            i <= all.len(),
            seen.wf(),
            map == seen@,
            here == views(live@),
            views(all@).to_set() == map.dom(),
            views(all@).no_duplicates(),
            forall|k: int|
                0 <= k < gone@.len() ==> map.dom().contains((#[trigger] gone@[k]).key@)
                    && gone@[k].at == map[gone@[k].key@] && !here.contains(gone@[k].key@)
                    && views(all@).take(i as int).contains(gone@[k].key@),
            forall|a: int, b: int|
                0 <= a < b < gone@.len() ==> (#[trigger] gone@[a]).key@ != (#[trigger] gone@[b]).key@,
            forall|k: int|
                0 <= k < i && !here.contains(#[trigger] views(all@)[k]) ==> exists|g: int|
                    0 <= g < gone@.len() && (#[trigger] gone@[g]).key@ == views(all@)[k],
        decreases all.len() - i,
    {
        let ghost ids = views(all@);
        assert(ids[i as int] == all@[i as int]@);
        assert(ids.to_set().contains(ids[i as int]));
        assert(ids.take(i + 1) =~= ids.take(i as int).push(ids[i as int]));
        let ghost was = gone@;
        assert forall|k: int| 0 <= k < was.len() implies ids.take(i + 1).contains((#[trigger] was[k]).key@) && was[k].key@ != ids[i as int] by {
            let w = choose|w: int| 0 <= w < i && ids.take(i as int)[w] == was[k].key@;
            assert(ids.take(i + 1)[w] == was[k].key@);
        }
        match find_key(live, &all[i]) {
            Some(at) => {
                assert(here[at as int] == ids[i as int]);
            },
            None => {
                proof {
                    if here.contains(ids[i as int]) {
                        let w = choose|w: int| 0 <= w < here.len() && here[w] == ids[i as int];
                        assert(live@[w]@ == ids[i as int]);
                    }
                }
                let at: u64 = match seen.get(&all[i]) {
                    Some(n) => *n,
                    None => 0,
                };
                gone.push(Sighting { at, key: all[i].clone() });
                assert(ids.take(i + 1)[i as int] == ids[i as int]);
            },
        }
        proof {
            assert forall|k: int| 0 <= k < i + 1 && !here.contains(#[trigger] ids[k]) implies exists|g: int|
                0 <= g < gone@.len() && (#[trigger] gone@[g]).key@ == ids[k] by {
                if k < i {
                    let g = choose|g: int| 0 <= g < was.len() && (#[trigger] was[g]).key@ == ids[k];
                    assert(gone@[g] == was[g]);
                } else {
                    assert(gone@[gone@.len() - 1].key@ == ids[k]);
                }
            }
        }
        i = i + 1;
    }
    let p = sorted_order(&gone);
    let ghost order = sighting_ids(gone@, p@);
    proof {
        assert forall|d: DeviceId| absent(map, here).contains(d) <==> order.contains(d) by {
            if absent(map, here).contains(d) {
                let ids = views(all@);
                assert(ids.to_set().contains(d));
                let k = choose|k: int| 0 <= k < ids.len() && ids[k] == d;
                let g = choose|g: int| 0 <= g < gone@.len() && (#[trigger] gone@[g]).key@ == ids[k];
                assert(p@.contains(g as usize));
                let w = choose|w: int| 0 <= w < p@.len() && p@[w] == g as usize;
                assert(order[w] == d);
            }
            if order.contains(d) {
                let w = choose|w: int| 0 <= w < order.len() && order[w] == d;
                assert(gone@[p@[w] as int].key@ == d);
            }
        }
        assert(absent(map, here) =~= order.to_set());
        assert forall|a: int, b: int| 0 <= a < b < order.len() implies #[trigger] older(
            map[order[a]],
            order[a],
            map[order[b]],
            order[b],
        ) by {
            lemma_order_step(gone@, p@, a, b);
        }
        lemma_ranks(map, here, order);
    }
    let take: usize = if extra < p.len() { extra } else { p.len() };
    let mut j: usize = 0;
    while j < take
        invariant
            j <= take <= p.len(),
            order == sighting_ids(gone@, p@),
            forall|k: int| 0 <= k < p@.len() ==> #[trigger] p@[k] < gone@.len(),
            out@.len() == j,
            forall|k: int| 0 <= k < j ==> (#[trigger] out@[k])@ == order[k],
        decreases take - j,
    {
        let at: usize = p[j];
        out.push(gone[at].key.clone());
        j = j + 1;
    }
    proof {
        assert(views(out@) =~= order.take(take as int));
        assert forall|d: DeviceId| views(out@).to_set().contains(d) <==> evicted(map, here).contains(d) by {
            if views(out@).contains(d) {
                let w = choose|w: int| 0 <= w < take && order.take(take as int)[w] == d;
                assert(order[w] == d);
                assert(order.contains(d));
            }
            if evicted(map, here).contains(d) {
                let w = choose|w: int| 0 <= w < order.len() && order[w] == d;
                assert(absent_before(map, here, order[w]).len() == w);
                assert(order.take(take as int)[w] == d);
            }
        }
        assert(views(out@).to_set() =~= evicted(map, here));
        order.unique_seq_to_set();
    }
    out
}

proof fn lemma_order_step(gone: Seq<Sighting>, p: Seq<usize>, a: int, b: int)
    requires
        is_sorted_order(gone, p),
        0 <= a < b < p.len(),
        forall|x: int, y: int|
            0 <= x < y < gone.len() ==> (#[trigger] gone[x]).key@ != (#[trigger] gone[y]).key@,
    ensures
        older(gone[p[a] as int].at, gone[p[a] as int].key@, gone[p[b] as int].at, gone[p[b] as int].key@),
{
    let x = p[a] as int;
    let y = p[b] as int;
    assert(precedes(gone, x, y));
    if !gone[x].before(&gone[y]) {
        assert(!gone[y].before(&gone[x]) && x < y);
        id_lt_total(gone[x].key@, gone[y].key@);
        assert(gone[x].key@ != gone[y].key@);
    }
}

proof fn lemma_older_asymmetric(at_a: u64, a: DeviceId, at_b: u64, b: DeviceId)
    requires
        older(at_a, a, at_b, b),
    ensures
        !older(at_b, b, at_a, a),
{
    if at_a == at_b {
        if let (DeviceId::Id(x), DeviceId::Id(y)) = (a, b) {
            crate::order::text_lt_asymmetric(x, y);
        }
    }
}

/// In a list of the absent devices, oldest first, each one's rank is its
/// position.
proof fn lemma_ranks(map: Map<DeviceId, u64>, here: Seq<DeviceId>, order: Seq<DeviceId>)
    requires
        absent(map, here) == order.to_set(),
        forall|a: int, b: int|
            0 <= a < b < order.len() ==> #[trigger] older(map[order[a]], order[a], map[order[b]], order[b]),
    ensures
        order.no_duplicates(),
        forall|i: int| 0 <= i < order.len() ==> absent_before(map, here, #[trigger] order[i]).len() == i,
{
    assert forall|a: int, b: int| 0 <= a < b < order.len() implies order[a] != order[b] by {
        assert(older(map[order[a]], order[a], map[order[b]], order[b]));
        lemma_older_asymmetric(map[order[a]], order[a], map[order[b]], order[b]);
    }
    assert forall|i: int| 0 <= i < order.len() implies absent_before(map, here, #[trigger] order[i]).len() == i by {
        let head = order.take(i);
        let k = order[i];
        assert forall|d: DeviceId| absent_before(map, here, k).contains(d) <==> head.to_set().contains(d) by {
            if absent_before(map, here, k).contains(d) {
                assert(order.to_set().contains(d));
                let w = choose|w: int| 0 <= w < order.len() && order[w] == d;
                if w > i {
                    assert(older(map[order[i]], order[i], map[order[w]], order[w]));
                    lemma_older_asymmetric(map[order[i]], order[i], map[order[w]], order[w]);
                }
                if w == i {
                    lemma_older_asymmetric(map[k], k, map[k], k);
                }
                assert(head[w] == d);
            }
            if head.contains(d) {
                let w = choose|w: int| 0 <= w < i && head[w] == d;
                assert(order[w] == d);
                assert(order.contains(d));
                assert(older(map[order[w]], order[w], map[order[i]], order[i]));
            }
        }
        assert(absent_before(map, here, k) =~= head.to_set());
        assert(head.no_duplicates());
        head.unique_seq_to_set();
    }
}

/// Evicting leaves no more than the live devices and the absent ones kept, and
/// touches no live device.
pub proof fn lemma_eviction_bounds(seen: Map<DeviceId, u64>, live: Seq<DeviceId>)
    requires
        seen.dom().finite(),
        live.no_duplicates(),
        forall|i: int| 0 <= i < live.len() ==> seen.dom().contains(#[trigger] live[i]),
        evicted(seen, live).len() == excess(seen, live) || evicted(seen, live) == absent(seen, live),
    ensures
        seen.remove_keys(evicted(seen, live)).dom().len() <= live.len() + MAX_ABSENT_DEVICES,
        forall|i: int| 0 <= i < live.len() ==> !evicted(seen, live).contains(#[trigger] live[i]),
{
    let e = evicted(seen, live);
    assert(e.subset_of(seen.dom()));
    vstd::set_lib::lemma_len_subset(e, seen.dom());
    assert(seen.remove_keys(e).dom() =~= seen.dom().difference(e));
    assert(seen.dom().difference(e).disjoint(e));
    assert(seen.dom().difference(e).union(e) =~= seen.dom());
    vstd::set_lib::lemma_set_disjoint_lens(seen.dom().difference(e), e);
    live.unique_seq_to_set();
    if e == absent(seen, live) {
        assert(seen.dom().difference(e) =~= live.to_set()) by {
            assert forall|d: DeviceId| live.to_set().contains(d) implies seen.dom().contains(d) by {
                let w = choose|w: int| 0 <= w < live.len() && live[w] == d;
                assert(seen.dom().contains(live[w]));
            }
        }
    }
    assert forall|i: int| 0 <= i < live.len() implies !e.contains(#[trigger] live[i]) by {
        assert(live.to_set().contains(live[i]));
    }
}

proof fn lemma_older_transitive(
    at_a: u64,
    a: DeviceId,
    at_b: u64,
    b: DeviceId,
    at_c: u64,
    c: DeviceId,
)
    requires
        older(at_a, a, at_b, b),
        older(at_b, b, at_c, c),
    ensures
        older(at_a, a, at_c, c),
{
    if at_a == at_b && at_b == at_c {
        if let (DeviceId::Id(x), DeviceId::Id(y)) = (a, b) {
            if let DeviceId::Id(z) = c {
                crate::order::text_lt_separated(x, z, y);
                if !crate::order::text_lt(x, z) {
                    crate::order::text_lt_asymmetric(y, z);
                }
            }
        }
    }
}

/// The longest absent go first: no device is forgotten while one that was seen
/// less recently is kept.
pub proof fn the_longest_absent_go_first(
    seen: Map<DeviceId, u64>,
    live: Seq<DeviceId>,
    k: DeviceId,
    d: DeviceId,
)
    requires
        seen.dom().finite(),
        evicted(seen, live).contains(k),
        absent(seen, live).contains(d),
        !evicted(seen, live).contains(d),
    ensures
        seen[k] <= seen[d],
        !live.contains(k),
{
    if seen[k] > seen[d] {
        let low = absent_before(seen, live, d);
        let high = absent_before(seen, live, k);
        assert(older(seen[d], d, seen[k], k));
        assert forall|x: DeviceId| low.contains(x) implies high.contains(x) by {
            lemma_older_transitive(seen[x], x, seen[d], d, seen[k], k);
        }
        assert(absent(seen, live).finite());
        vstd::set_lib::lemma_len_subset(low, high);
    }
    if live.contains(k) {
        assert(live.to_set().contains(k));
    }
}

/// Nothing is forgotten while the departed devices are no more than are kept;
/// past that, one for each that is too many.
pub proof fn few_departed_devices_are_all_kept(seen: Map<DeviceId, u64>, live: Seq<DeviceId>)
    ensures
        seen.dom().len() <= live.len() + 16 ==> evicted(seen, live) == Set::<DeviceId>::empty(),
        seen.dom().len() > live.len() + 16 ==> excess(seen, live) + live.len() + 16
            == seen.dom().len(),
{
    if seen.dom().len() <= live.len() + 16 {
        assert(evicted(seen, live) =~= Set::<DeviceId>::empty());
    }
}

} // verus!
