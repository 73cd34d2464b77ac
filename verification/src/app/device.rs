//! Device identity, and state that hangs off it rather than off a position.
use vstd::prelude::*;
use crate::backend::GpuSnapshot;
use crate::keyed::{views, Keyed, KeyedMap};
use crate::order::{chars_before, text_lt, text_lt_asymmetric, text_lt_separated, text_lt_total, Ranked};
use crate::text::{chars_of, same_text};

verus! {

/// What per-device state hangs off.
#[derive(Debug, PartialEq, Eq, Hash, PartialOrd, Ord)]
pub enum DeviceKey {
    /// The backend's own opaque id.
    Id(String),
    /// The backend cannot identify this device, so its slot is all there is.
    Pos(usize),
}

/// A device's identity as a mathematical value.
pub enum DeviceId {
    Id(Seq<char>),
    Pos(nat),
}

impl View for DeviceKey {
    type V = DeviceId;

    open spec fn view(&self) -> DeviceId {
        match *self {
            DeviceKey::Id(s) => DeviceId::Id(s@),
            DeviceKey::Pos(i) => DeviceId::Pos(i as nat),
        }
    }
}

impl Clone for DeviceKey {
    fn clone(&self) -> (k: Self)
        ensures
            k@ == self@,
    {
        match self {
            DeviceKey::Id(s) => DeviceKey::Id(s.clone()),
            DeviceKey::Pos(i) => DeviceKey::Pos(*i),
        }
    }
}

/// Whether two keys name the same device.
pub fn same_key(a: &DeviceKey, b: &DeviceKey) -> (r: bool)
    ensures
        r == (a@ == b@),
{
    match (a, b) {
        (DeviceKey::Id(x), DeviceKey::Id(y)) => same_text(x, y),
        (DeviceKey::Pos(x), DeviceKey::Pos(y)) => *x == *y,
        _ => false,
    }
}

/// Ids come before positions; ids go by their text, positions by number.
pub open spec fn id_lt(a: DeviceId, b: DeviceId) -> bool {
    match (a, b) {
        (DeviceId::Id(x), DeviceId::Id(y)) => text_lt(x, y),
        (DeviceId::Id(_), DeviceId::Pos(_)) => true,
        (DeviceId::Pos(_), DeviceId::Id(_)) => false,
        (DeviceId::Pos(x), DeviceId::Pos(y)) => x < y,
    }
}

pub proof fn id_lt_total(a: DeviceId, b: DeviceId)
    requires
        !id_lt(a, b),
        !id_lt(b, a),
    ensures
        a == b,
{
    if let (DeviceId::Id(x), DeviceId::Id(y)) = (a, b) {
        text_lt_total(x, y);
    }
}

impl Ranked for DeviceKey {
    open spec fn before(&self, other: &Self) -> bool {
        id_lt(self@, other@)
    }

    proof fn asymmetric(a: &Self, b: &Self) {
        if let (DeviceId::Id(x), DeviceId::Id(y)) = (a@, b@) {
            text_lt_asymmetric(x, y);
        }
    }

    proof fn separated(a: &Self, b: &Self, c: &Self) {
        if let DeviceId::Id(x) = a@ {
            if let DeviceId::Id(y) = b@ {
                if let DeviceId::Id(z) = c@ {
                    text_lt_separated(x, y, z);
                }
            }
        }
    }

    fn is_before(&self, other: &Self) -> (r: bool) {
        match (self, other) {
            (DeviceKey::Id(x), DeviceKey::Id(y)) => chars_before(&chars_of(x), &chars_of(y)),
            (DeviceKey::Id(_), DeviceKey::Pos(_)) => true,
            (DeviceKey::Pos(_), DeviceKey::Id(_)) => false,
            (DeviceKey::Pos(x), DeviceKey::Pos(y)) => *x < *y,
        }
    }
}

/// The identity texts the snapshots carry.
pub open spec fn id_at(gpus: Seq<GpuSnapshot>, i: int) -> Option<Seq<char>> {
    match gpus[i].device_id {
        Some(s) => Some(s@),
        None => None,
    }
}

/// An earlier snapshot carries the same id.
pub open spec fn id_repeats(gpus: Seq<GpuSnapshot>, i: int) -> bool {
    exists|j: int| 0 <= j < i && #[trigger] id_at(gpus, j) == id_at(gpus, i)
}

/// The key of snapshot `i`: its id where it has one that no earlier snapshot
/// carries, its position otherwise.
pub open spec fn key_at(gpus: Seq<GpuSnapshot>, i: int) -> DeviceId {
    match id_at(gpus, i) {
        Some(id) => if id_repeats(gpus, i) {
            DeviceId::Pos(i as nat)
        } else {
            DeviceId::Id(id)
        },
        None => DeviceId::Pos(i as nat),
    }
}

/// One key per snapshot, in poll order.
pub open spec fn keys_of(gpus: Seq<GpuSnapshot>) -> Seq<DeviceId> {
    Seq::new(gpus.len(), |i: int| key_at(gpus, i))
}

/// One key per snapshot, in poll order.
pub fn device_keys(gpus: &Vec<GpuSnapshot>) -> (keys: Vec<DeviceKey>)
    ensures
        views(keys@) == keys_of(gpus@),
        keys.len() == gpus.len(),
{
    let mut keys: Vec<DeviceKey> = Vec::new();
    let mut i: usize = 0;
    while i < gpus.len()
        invariant
            i <= gpus.len(),
            keys.len() == i,
            forall|k: int| 0 <= k < i ==> (#[trigger] keys@[k])@ == key_at(gpus@, k),
        decreases gpus.len() - i,
    {
        let key = match &gpus[i].device_id {
            Some(id) => {
                let mut repeated = false;
                let mut j: usize = 0;
                while j < i
                    invariant
                        j <= i < gpus.len(),
                        id_at(gpus@, i as int) == Some(id@),
                        repeated <==> exists|k: int| 0 <= k < j && #[trigger] id_at(gpus@, k) == id_at(gpus@, i as int),
                    decreases i - j,
                {
                    if let Some(other) = &gpus[j].device_id {
                        if same_text(other, id) {
                            repeated = true;
                            assert(id_at(gpus@, j as int) == id_at(gpus@, i as int));
                        }
                    }
                    j = j + 1;
                }
                if repeated {
                    DeviceKey::Pos(i)
                } else {
                    DeviceKey::Id(id.clone())
                }
            },
            None => DeviceKey::Pos(i),
        };
        keys.push(key);
        i = i + 1;
    }
    assert(views(keys@) =~= keys_of(gpus@));
    keys
}

/// No two snapshots of one poll share a key, whatever ids the backends mint.
pub proof fn device_keys_are_distinct(gpus: Seq<GpuSnapshot>)
    ensures
        keys_of(gpus).no_duplicates(),
{
    assert forall|i: int, j: int| 0 <= i < j < gpus.len() implies keys_of(gpus)[i] != keys_of(gpus)[j] by {
        if let DeviceId::Id(x) = key_at(gpus, j) {
            if key_at(gpus, i) == key_at(gpus, j) {
                assert(id_at(gpus, i) == id_at(gpus, j));
                assert(id_repeats(gpus, j));
            }
        }
    }
}

/// The position of `key` in `keys`, where it is there.
pub fn find_key(keys: &Vec<DeviceKey>, key: &DeviceKey) -> (r: Option<usize>)
    ensures
        match r {
            Some(i) => i < keys.len() && keys@[i as int]@ == key@ && forall|j: int|
                0 <= j < i ==> (#[trigger] keys@[j])@ != key@,
            None => forall|j: int| 0 <= j < keys.len() ==> (#[trigger] keys@[j])@ != key@,
        },
{
    let mut i: usize = 0;
    while i < keys.len()
        invariant
            i <= keys.len(),
            forall|j: int| 0 <= j < i ==> (#[trigger] keys@[j])@ != key@,
        decreases keys.len() - i,
    {
        if same_key(&keys[i], key) {
            return Some(i);
        }
        i = i + 1;
    }
    None
}

impl Keyed for DeviceKey {
    fn same(&self, other: &Self) -> (r: bool) {
        same_key(self, other)
    }

    fn copy(&self) -> (k: Self) {
        self.clone()
    }
}

/// A map from devices to values.
pub type DeviceMap<V> = KeyedMap<DeviceKey, V>;

/// A device that carries an identity of its own goes by it wherever it is
/// listed; one without goes by its place.
pub proof fn a_device_keeps_its_key_wherever_it_is_listed(
    a: Seq<GpuSnapshot>,
    i: int,
    b: Seq<GpuSnapshot>,
    j: int,
)
    requires
        0 <= i < a.len(),
        0 <= j < b.len(),
        forall|x: int| 0 <= x < a.len() && x != i ==> #[trigger] id_at(a, x) != id_at(a, i),
        forall|x: int| 0 <= x < b.len() && x != j ==> #[trigger] id_at(b, x) != id_at(b, j),
    ensures
        id_at(a, i) is Some && id_at(a, i) == id_at(b, j) ==> keys_of(a)[i] == keys_of(b)[j],
        id_at(a, i) matches Some(id) ==> keys_of(a)[i] == DeviceId::Id(id),
        id_at(a, i) is None ==> keys_of(a)[i] == DeviceId::Pos(i as nat),
        a[i].device_id matches Some(s) ==> id_at(a, i) == Some(s@),
{
}

/// Of two devices that claim one identity the first has it; the other goes by
/// its place.
pub proof fn the_first_to_claim_an_identity_has_it(gpus: Seq<GpuSnapshot>, i: int, j: int)
    requires
        0 <= i < j < gpus.len(),
        id_at(gpus, i) is Some,
        id_at(gpus, i) == id_at(gpus, j),
        forall|x: int| 0 <= x < i ==> #[trigger] id_at(gpus, x) != id_at(gpus, i),
    ensures
        keys_of(gpus)[i] == DeviceId::Id(id_at(gpus, i)->0),
        keys_of(gpus)[j] == DeviceId::Pos(j as nat),
{
    assert(id_repeats(gpus, j));
}

/// Identities come before places, places by number, identities by text.
pub proof fn identities_come_before_places(a: Seq<char>, b: Seq<char>, m: nat, n: nat)
    ensures
        id_lt(DeviceId::Id(a), DeviceId::Pos(n)) && !id_lt(DeviceId::Pos(n), DeviceId::Id(a)),
        m < n <==> id_lt(DeviceId::Pos(m), DeviceId::Pos(n)),
        text_lt(a, b) <==> id_lt(DeviceId::Id(a), DeviceId::Id(b)),
{
}

} // verus!
