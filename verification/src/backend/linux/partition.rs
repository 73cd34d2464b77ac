//! The vendor scans divide one directory among themselves.
use vstd::prelude::*;
use crate::backend::amd::{amd_claims, amd_driver, AMD_VENDOR};
use crate::backend::intel::{intel_claims, intel_driver, INTEL_VENDOR};
use crate::backend::linux::sysfs::{
    are_ids_of, by_index, card_keys, claimed_index, claimed_texts, claims, index_in, CardEntry,
    ScannedCard,
};
use crate::backend::nvidia::{nvidia_claims, sysfs_driver, NVIDIA_VENDOR};
use crate::backend::opt_text;
use crate::order::is_sorted_order;

verus! {

/// The entry at `at` is among the claimed.
pub open spec fn has_claimed(found: Seq<ScannedCard>, at: int) -> bool {
    exists|k: int| 0 <= k < found.len() && (#[trigger] found[k]).at == at
}

proof fn lemma_claimed(
    cards: Seq<CardEntry>,
    vendor: Seq<char>,
    accept: spec_fn(Seq<char>) -> bool,
    n: nat,
    at: int,
)
    requires
        n <= cards.len() <= usize::MAX,
        0 <= at < cards.len(),
    ensures
        has_claimed(claims(cards, vendor, accept, n), at) <==> at < n && claimed_index(
            cards[at],
            vendor,
            accept,
        ) is Some,
    decreases n,
{
    if n > 0 {
        let head = claims(cards, vendor, accept, (n - 1) as nat);
        let all = claims(cards, vendor, accept, n);
        lemma_claimed(cards, vendor, accept, (n - 1) as nat, at);
        if has_claimed(head, at) {
            let k = choose|k: int| 0 <= k < head.len() && (#[trigger] head[k]).at == at;
            assert(all[k] == head[k]);
        }
        if has_claimed(all, at) {
            let k = choose|k: int| 0 <= k < all.len() && (#[trigger] all[k]).at == at;
            if k < head.len() {
                assert(head[k] == all[k]);
            }
        }
        if claimed_index(cards[n - 1], vendor, accept) is Some {
            assert(all[head.len() as int].at == n - 1);
        }
    }
}

/// No entry of the directory is claimed by two vendors' scans, with or without
/// NVML beside them.
pub proof fn no_card_is_claimed_twice(cards: Seq<CardEntry>, at: int, include_nvidia: bool)
    requires
        cards.len() <= usize::MAX,
        0 <= at < cards.len(),
    ensures
        !(has_claimed(amd_claims(cards), at) && has_claimed(intel_claims(cards), at)),
        !(has_claimed(amd_claims(cards), at) && has_claimed(
            nvidia_claims(cards, include_nvidia),
            at,
        )),
        !(has_claimed(intel_claims(cards), at) && has_claimed(
            nvidia_claims(cards, include_nvidia),
            at,
        )),
{
    let n = cards.len();
    lemma_claimed(cards, AMD_VENDOR@, |s: Seq<char>| amd_driver(s), n, at);
    lemma_claimed(cards, INTEL_VENDOR@, |s: Seq<char>| intel_driver(s), n, at);
    lemma_claimed(cards, NVIDIA_VENDOR@, |s: Seq<char>| sysfs_driver(s, include_nvidia), n, at);
    lemma_vendors();
}

// ---------------------------------------------------------------- identities

/// The identity of a card that has an address.
pub open spec fn id_of(c: CardEntry) -> Option<Seq<char>> {
    match c.pdev {
        Some(p) => Some("pci:"@ + p@),
        None => None,
    }
}

/// `ids` name the entries at the positions `at`, one by one: exactly the ones
/// with an address that a scan for `vendor` claims, by ascending card number,
/// directory order among equals.
pub open spec fn names_in_order(
    ids: Seq<Seq<char>>,
    at: Seq<int>,
    cards: Seq<CardEntry>,
    vendor: Seq<char>,
    accept: spec_fn(Seq<char>) -> bool,
) -> bool {
    &&& at.len() == ids.len()
    &&& forall|k: int|
        #![trigger at[k]]
        0 <= k < at.len() ==> 0 <= at[k] < cards.len() && claimed_index(
            cards[at[k]],
            vendor,
            accept,
        ) is Some && id_of(cards[at[k]]) == Some(ids[k])
    &&& forall|j: int, k: int|
        #![trigger at[j], at[k]]
        0 <= j < k < at.len() ==> {
            let a = claimed_index(cards[at[j]], vendor, accept)->0;
            let b = claimed_index(cards[at[k]], vendor, accept)->0;
            a < b || a == b && at[j] < at[k]
        }
    &&& forall|i: int|
        #![trigger cards[i]]
        0 <= i < cards.len() && claimed_index(cards[i], vendor, accept) is Some && id_of(cards[i])
            is Some ==> at.contains(i)
}

/// The numbered entries have an address each, where they have one, of their
/// own.
pub open spec fn own_addresses(cards: Seq<CardEntry>) -> bool {
    forall|i: int, j: int|
        #![trigger cards[i], cards[j]]
        0 <= i < j < cards.len() && index_in(cards[i].file_name@) is Some && index_in(
            cards[j].file_name@,
        ) is Some && id_of(cards[i]) is Some ==> id_of(cards[i]) != id_of(cards[j])
}

/// By ascending number, directory order among equals.
spec fn in_number_order(found: Seq<ScannedCard>) -> bool {
    forall|j: int, k: int|
        #![trigger found[j], found[k]]
        0 <= j < k < found.len() ==> found[j].index < found[k].index || found[j].index
            == found[k].index && found[j].at < found[k].at
}

/// The found cards that have an address.
spec fn addressed(cards: Seq<CardEntry>, found: Seq<ScannedCard>) -> Seq<ScannedCard>
    decreases found.len(),
{
    if found.len() == 0 {
        Seq::empty()
    } else {
        let head = addressed(cards, found.drop_last());
        if cards[found.last().at as int].pdev is Some {
            head.push(found.last())
        } else {
            head
        }
    }
}

proof fn lemma_addressed(cards: Seq<CardEntry>, found: Seq<ScannedCard>)
    ensures
        addressed(cards, found).len() == claimed_texts(cards, found).len(),
        forall|k: int|
            #![trigger addressed(cards, found)[k]]
            0 <= k < addressed(cards, found).len() ==> found.contains(addressed(cards, found)[k])
                && id_of(cards[addressed(cards, found)[k].at as int]) == Some(
                claimed_texts(cards, found)[k],
            ),
        forall|k: int|
            #![trigger found[k]]
            0 <= k < found.len() && id_of(cards[found[k].at as int]) is Some ==> addressed(
                cards,
                found,
            ).contains(found[k]),
        in_number_order(found) ==> in_number_order(addressed(cards, found)),
    decreases found.len(),
{
    if found.len() > 0 {
        let init = found.drop_last();
        let head = addressed(cards, init);
        let all = addressed(cards, found);
        let last = found.last();
        lemma_addressed(cards, init);
        assert forall|k: int| #![trigger all[k]] 0 <= k < all.len() implies found.contains(all[k])
            && id_of(cards[all[k].at as int]) == Some(claimed_texts(cards, found)[k]) by {
            if k < head.len() {
                assert(all[k] == head[k]);
                let w = choose|w: int| 0 <= w < init.len() && init[w] == head[k];
                assert(found[w] == all[k]);
            } else {
                assert(found[found.len() - 1] == last);
            }
        }
        assert forall|k: int|
            #![trigger found[k]]
            0 <= k < found.len() && id_of(cards[found[k].at as int]) is Some implies all.contains(
            found[k],
        ) by {
            if k < init.len() {
                assert(init[k] == found[k]);
                let w = choose|w: int| 0 <= w < head.len() && head[w] == init[k];
                assert(all[w] == found[k]);
            } else {
                assert(all[head.len() as int] == last);
            }
        }
        if in_number_order(found) {
            assert(in_number_order(init)) by {
                assert forall|j: int, k: int|
                    #![trigger init[j], init[k]]
                    0 <= j < k < init.len() implies init[j].index < init[k].index || init[j].index
                    == init[k].index && init[j].at < init[k].at by {
                    assert(init[j] == found[j] && init[k] == found[k]);
                }
            }
            assert forall|j: int, k: int|
                #![trigger all[j], all[k]]
                0 <= j < k < all.len() implies all[j].index < all[k].index || all[j].index
                == all[k].index && all[j].at < all[k].at by {
                assert(all[j] == head[j]);
                if k < head.len() {
                    assert(all[k] == head[k]);
                } else {
                    let w = choose|w: int| 0 <= w < init.len() && init[w] == head[j];
                    assert(found[w] == head[j] && found[found.len() - 1] == last);
                }
            }
        }
    }
}

/// The claims stand in directory order and carry their numbers.
proof fn lemma_claims(
    cards: Seq<CardEntry>,
    vendor: Seq<char>,
    accept: spec_fn(Seq<char>) -> bool,
    n: nat,
)
    requires
        n <= cards.len() <= usize::MAX,
    ensures
        claims(cards, vendor, accept, n).len() <= n,
        forall|k: int|
            #![trigger claims(cards, vendor, accept, n)[k]]
            0 <= k < claims(cards, vendor, accept, n).len() ==> {
                let c = claims(cards, vendor, accept, n)[k];
                c.at < n && claimed_index(cards[c.at as int], vendor, accept) == Some(c.index)
            },
        forall|j: int, k: int|
            #![trigger claims(cards, vendor, accept, n)[j], claims(cards, vendor, accept, n)[k]]
            0 <= j < k < claims(cards, vendor, accept, n).len() ==> claims(
                cards,
                vendor,
                accept,
                n,
            )[j].at < claims(cards, vendor, accept, n)[k].at,
    decreases n,
{
    if n > 0 {
        let head = claims(cards, vendor, accept, (n - 1) as nat);
        let all = claims(cards, vendor, accept, n);
        lemma_claims(cards, vendor, accept, (n - 1) as nat);
        assert forall|k: int| #![trigger all[k]] 0 <= k < all.len() implies all[k].at < n
            && claimed_index(cards[all[k].at as int], vendor, accept) == Some(all[k].index) by {
            if k < head.len() {
                assert(all[k] == head[k]);
            }
        }
        assert forall|j: int, k: int|
            #![trigger all[j], all[k]]
            0 <= j < k < all.len() implies all[j].at < all[k].at by {
            assert(all[j] == head[j]);
            if k < head.len() {
                assert(all[k] == head[k]);
            }
        }
    }
}

/// Sorted by number, the claims are in order and all there.
proof fn lemma_by_index(
    found: Seq<ScannedCard>,
    cards: Seq<CardEntry>,
    vendor: Seq<char>,
    accept: spec_fn(Seq<char>) -> bool,
)
    requires
        cards.len() <= usize::MAX,
        by_index(found, claims(cards, vendor, accept, cards.len())),
    ensures
        in_number_order(found),
        forall|k: int|
            #![trigger found[k]]
            0 <= k < found.len() ==> found[k].at < cards.len() && claimed_index(
                cards[found[k].at as int],
                vendor,
                accept,
            ) == Some(found[k].index),
        forall|i: int|
            #![trigger cards[i]]
            0 <= i < cards.len() && claimed_index(cards[i], vendor, accept) is Some ==> has_claimed(
                found,
                i,
            ),
{
    let all = claims(cards, vendor, accept, cards.len());
    let keys = card_keys(all);
    let p = choose|p: Seq<usize>|
        #[trigger] is_sorted_order(keys, p) && found == Seq::new(
            p.len(),
            |i: int| all[p[i] as int],
        );
    lemma_claims(cards, vendor, accept, cards.len());
    assert forall|j: int, k: int|
        #![trigger found[j], found[k]]
        0 <= j < k < found.len() implies found[j].index < found[k].index || found[j].index
        == found[k].index && found[j].at < found[k].at by {
        let a = p[j] as int;
        let b = p[k] as int;
        assert(found[j] == all[a] && found[k] == all[b]);
        assert(keys[a].a == all[a].index && keys[b].a == all[b].index);
    }
    assert forall|k: int| #![trigger found[k]] 0 <= k < found.len() implies found[k].at
        < cards.len() && claimed_index(cards[found[k].at as int], vendor, accept) == Some(
        found[k].index,
    ) by {
        assert(found[k] == all[p[k] as int]);
    }
    assert forall|i: int|
        #![trigger cards[i]]
        0 <= i < cards.len() && claimed_index(cards[i], vendor, accept) is Some implies has_claimed(
        found,
        i,
    ) by {
        lemma_claimed(cards, vendor, accept, cards.len(), i);
        let w = choose|w: int| 0 <= w < all.len() && (#[trigger] all[w]).at == i;
        assert(p.contains(w as usize) && w as usize == w);
        let k = choose|k: int| 0 <= k < p.len() && p[k] == w as usize;
        assert(found[k].at == i);
    }
}

/// A backend lists the identities of exactly the cards that it claims, by card
/// number.
pub proof fn identities_are_listed_by_card_number(
    ids: Seq<Seq<char>>,
    cards: Seq<CardEntry>,
    vendor: Seq<char>,
    accept: spec_fn(Seq<char>) -> bool,
) -> (at: Seq<int>)
    requires
        cards.len() <= usize::MAX,
        are_ids_of(ids, cards, claims(cards, vendor, accept, cards.len())),
    ensures
        names_in_order(ids, at, cards, vendor, accept),
{
    let claimed = claims(cards, vendor, accept, cards.len());
    let found = choose|found: Seq<ScannedCard>|
        #[trigger] by_index(found, claimed) && ids == claimed_texts(cards, found);
    lemma_by_index(found, cards, vendor, accept);
    lemma_addressed(cards, found);
    let kept = addressed(cards, found);
    let at = kept.map_values(|c: ScannedCard| c.at as int);
    assert forall|k: int| #![trigger at[k]] 0 <= k < at.len() implies 0 <= at[k] < cards.len()
        && claimed_index(cards[at[k]], vendor, accept) == Some(kept[k].index) && id_of(
        cards[at[k]],
    ) == Some(ids[k]) by {
        let w = choose|w: int| 0 <= w < found.len() && found[w] == kept[k];
        assert(found[w] == kept[k]);
    }
    assert forall|j: int, k: int|
        #![trigger at[j], at[k]]
        0 <= j < k < at.len() implies ({
        let a = claimed_index(cards[at[j]], vendor, accept)->0;
        let b = claimed_index(cards[at[k]], vendor, accept)->0;
        a < b || a == b && at[j] < at[k]
    }) by {
        assert(kept[j].at == at[j] && kept[k].at == at[k]);
    }
    assert forall|i: int|
        #![trigger cards[i]]
        0 <= i < cards.len() && claimed_index(cards[i], vendor, accept) is Some && id_of(cards[i])
            is Some implies at.contains(i) by {
        assert(has_claimed(found, i));
        let w = choose|w: int| 0 <= w < found.len() && (#[trigger] found[w]).at == i;
        assert(kept.contains(found[w]));
        let k = choose|k: int| 0 <= k < kept.len() && kept[k] == found[w];
        assert(at[k] == i);
    }
    at
}

/// A scan for `vendor` claims a card of that identity.
spec fn claims_id(
    cards: Seq<CardEntry>,
    vendor: Seq<char>,
    accept: spec_fn(Seq<char>) -> bool,
    id: Seq<char>,
) -> bool {
    exists|i: int|
        #![trigger cards[i]]
        0 <= i < cards.len() && claimed_index(cards[i], vendor, accept) is Some && id_of(cards[i])
            == Some(id)
}

/// Where a listed identity stands.
proof fn lemma_listed(
    ids: Seq<Seq<char>>,
    cards: Seq<CardEntry>,
    vendor: Seq<char>,
    accept: spec_fn(Seq<char>) -> bool,
)
    requires
        cards.len() <= usize::MAX,
        own_addresses(cards),
        are_ids_of(ids, cards, claims(cards, vendor, accept, cards.len())),
    ensures
        ids.no_duplicates(),
        forall|k: int|
            #![trigger ids[k]]
            0 <= k < ids.len() ==> claims_id(cards, vendor, accept, ids[k]),
{
    let at = identities_are_listed_by_card_number(ids, cards, vendor, accept);
    assert forall|j: int, k: int| 0 <= j < k < ids.len() implies ids[j] != ids[k] by {
        let a = at[j];
        let b = at[k];
        assert(id_of(cards[a]) == Some(ids[j]) && id_of(cards[b]) == Some(ids[k]));
    }
    assert forall|k: int| #![trigger ids[k]] 0 <= k < ids.len() implies claims_id(
        cards,
        vendor,
        accept,
        ids[k],
    ) by {
        let i = at[k];
        assert(id_of(cards[i]) == Some(ids[k]));
    }
}

/// The three backends' lists of identities together, on a machine whose cards
/// have their own addresses and whose proprietary driver NVML answers for: no
/// identity stands in them twice, and a card without a driver, or on the
/// proprietary one, stands in none.
pub proof fn no_identity_is_listed_twice(
    amd: Seq<Seq<char>>,
    intel: Seq<Seq<char>>,
    nvidia: Seq<Seq<char>>,
    cards: Seq<CardEntry>,
)
    requires
        cards.len() <= usize::MAX,
        own_addresses(cards),
        are_ids_of(amd, cards, amd_claims(cards)),
        are_ids_of(intel, cards, intel_claims(cards)),
        are_ids_of(nvidia, cards, nvidia_claims(cards, false)),
    ensures
        (amd + intel + nvidia).no_duplicates(),
        forall|i: int|
            #![trigger cards[i]]
            0 <= i < cards.len() && index_in(cards[i].file_name@) is Some && (opt_text(
                cards[i].driver,
            ) is None || opt_text(cards[i].driver) == Some("nvidia"@)) && id_of(cards[i]) is Some
                ==> !(amd + intel + nvidia).contains(id_of(cards[i])->0),
{
    let a = |s: Seq<char>| amd_driver(s);
    let b = |s: Seq<char>| intel_driver(s);
    let c = |s: Seq<char>| sysfs_driver(s, false);
    lemma_listed(amd, cards, AMD_VENDOR@, a);
    lemma_listed(intel, cards, INTEL_VENDOR@, b);
    lemma_listed(nvidia, cards, NVIDIA_VENDOR@, c);
    lemma_vendors();
    lemma_not_proprietary();
    let all = amd + intel + nvidia;
    assert forall|j: int, k: int| 0 <= j < k < all.len() implies all[j] != all[k] by {
        lemma_apart(all[j], all[k], cards, AMD_VENDOR@, a, INTEL_VENDOR@, b);
        lemma_apart(all[j], all[k], cards, AMD_VENDOR@, a, NVIDIA_VENDOR@, c);
        lemma_apart(all[j], all[k], cards, INTEL_VENDOR@, b, NVIDIA_VENDOR@, c);
        if k < amd.len() {
            assert(amd[j] != amd[k]);
        } else if k < amd.len() + intel.len() {
            assert(all[k] == intel[k - amd.len()]);
            if j < amd.len() {
                assert(all[j] == amd[j]);
            } else {
                assert(all[j] == intel[j - amd.len()]);
            }
        } else {
            let l = k - amd.len() - intel.len();
            assert(all[k] == nvidia[l]);
            if j < amd.len() {
                assert(all[j] == amd[j]);
            } else if j < amd.len() + intel.len() {
                assert(all[j] == intel[j - amd.len()]);
            } else {
                assert(all[j] == nvidia[j - amd.len() - intel.len()]);
            }
        }
    }
    assert forall|i: int|
        #![trigger cards[i]]
        0 <= i < cards.len() && index_in(cards[i].file_name@) is Some && (opt_text(cards[i].driver)
            is None || opt_text(cards[i].driver) == Some("nvidia"@)) && id_of(cards[i])
            is Some implies !all.contains(id_of(cards[i])->0) by {
        let id = id_of(cards[i])->0;
        if all.contains(id) {
            let k = choose|k: int| 0 <= k < all.len() && all[k] == id;
            if k < amd.len() {
                assert(amd[k] == id);
                assert(claims_id(cards, AMD_VENDOR@, a, id));
            } else if k < amd.len() + intel.len() {
                assert(intel[k - amd.len()] == id);
                assert(claims_id(cards, INTEL_VENDOR@, b, id));
            } else {
                assert(nvidia[k - amd.len() - intel.len()] == id);
                assert(claims_id(cards, NVIDIA_VENDOR@, c, id));
            }
        }
    }
}

/// An identity of a card of one vendor is none of a card of another.
proof fn lemma_apart(
    x: Seq<char>,
    y: Seq<char>,
    cards: Seq<CardEntry>,
    first: Seq<char>,
    accept_first: spec_fn(Seq<char>) -> bool,
    second: Seq<char>,
    accept_second: spec_fn(Seq<char>) -> bool,
)
    requires
        own_addresses(cards),
        first != second,
    ensures
        claims_id(cards, first, accept_first, x) && claims_id(cards, second, accept_second, y)
            ==> x != y,
{
}

/// The three vendors have different numbers.
proof fn lemma_vendors()
    ensures
        AMD_VENDOR@ != INTEL_VENDOR@,
        AMD_VENDOR@ != NVIDIA_VENDOR@,
        INTEL_VENDOR@ != NVIDIA_VENDOR@,
{
    reveal_strlit("0x1002");
    reveal_strlit("0x8086");
    reveal_strlit("0x10de");
    assert("0x1002"@[2] == '1' && "0x8086"@[2] == '8');
    assert("0x1002"@[4] == '0' && "0x10de"@[4] == 'd');
    assert("0x10de"@[2] == '1');
}

/// No scan beside NVML takes the proprietary driver.
proof fn lemma_not_proprietary()
    ensures
        !amd_driver("nvidia"@),
        !intel_driver("nvidia"@),
        !sysfs_driver("nvidia"@, false),
{
    reveal_strlit("nvidia");
    reveal_strlit("amdgpu");
    reveal_strlit("radeon");
    reveal_strlit("i915");
    reveal_strlit("xe");
    reveal_strlit("nouveau");
    assert("nvidia"@[0] == 'n' && "amdgpu"@[0] == 'a' && "radeon"@[0] == 'r');
    assert("nvidia"@[1] == 'v' && "nouveau"@[1] == 'o');
}

} // verus!
