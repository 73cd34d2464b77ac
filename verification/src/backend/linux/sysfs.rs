//! What the sysfs attributes of a card mean: which cards a backend claims, what
//! they are called, and how their sensors and links read.
use vstd::prelude::*;
use crate::app::state::strictly_sorted;
use crate::backend::linux::gts::{gen_of_token, gts_to_gen, a_rate_names_its_generation, gen_at};
use crate::backend::opt_text;
use crate::order::{is_sorted_order, precedes, sorted_order, text_lt, text_lt_total, Key4};
use crate::text::{a_blank_ends_a_word, a_piece_stays_whole, a_separator_splits, a_text_is_found_where_it_stands, ascii_lowercase, char_ascii_lower, char_is_space, chars_of, contains_text, decimal, decimal_reads_back, decimal_text, has_prefix, is_blank, is_digit, is_space, join, join_texts, lemma_split_nonempty, lines, lines_of, numbers_are_read_from_digits, parse_number, parse_uint, same_text, slice_of, split, split_chars, stands_at, starts_with, string_of, string_texts, texts, trim, trim_chars, trim_start, trimming_takes_off_both_ends, white_space_is_blank, words, words_of};

verus! {

// ---------------------------------------------------------------- numbers

/// The number that an attribute's text writes, white space aside.
pub open spec fn attr_value(text: Option<Seq<char>>, max: nat) -> Option<nat> {
    match text {
        Some(s) => parse_uint(trim(s), max),
        None => None,
    }
}

/// The number in an attribute file.
pub open spec fn number_in(text: Option<String>) -> Option<u64> {
    match attr_value(opt_text(text), u64::MAX as nat) {
        Some(n) => Some(n as u64),
        None => None,
    }
}

/// The `u64` that an attribute's text writes, white space aside.
pub fn read_u64(text: &Option<String>) -> (r: Option<u64>)
    ensures
        r == number_in(*text),
{
    match text {
        Some(s) => parse_number(&trim_chars(&chars_of(s)), u64::MAX),
        None => None,
    }
}

/// A fan's duty as a pwm value over this card's own pwm scale; 255 where the
/// card publishes none, or a zero.
pub fn fan_duty(pwm: Option<u64>, max: Option<u64>) -> (r: Option<(u64, u64)>)
    ensures
        r == (match pwm {
            Some(v) => Some(
                (
                    v,
                    match max {
                        Some(m) => if m > 0 {
                            m
                        } else {
                            255
                        },
                        None => 255,
                    },
                ),
            ),
            None => None,
        }),
{
    match pwm {
        Some(v) => {
            let scale: u64 = match max {
                Some(m) => if m > 0 {
                    m
                } else {
                    255
                },
                None => 255,
            };
            Some((v, scale))
        },
        None => None,
    }
}

/// The `MemTotal` line among the lines.
pub open spec fn mem_total_line(rows: Seq<Seq<char>>) -> Option<Seq<char>>
    decreases rows.len(),
{
    if rows.len() == 0 {
        None
    } else if has_prefix(rows[0], "MemTotal:"@) {
        Some(rows[0])
    } else {
        mem_total_line(rows.skip(1))
    }
}

/// The bytes that a `/proc/meminfo` text gives as total memory.
pub open spec fn mem_total_of(text: Seq<char>) -> Option<u64> {
    match mem_total_line(lines(text)) {
        None => None,
        Some(line) => {
            let w = words(line);
            if w.len() < 2 {
                None
            } else {
                match parse_uint(w[1], u64::MAX as nat) {
                    Some(kb) => if kb * 1024 <= u64::MAX {
                        Some((kb * 1024) as u64)
                    } else {
                        None
                    },
                    None => None,
                }
            }
        },
    }
}

/// "MemTotal:       32770396 kB" to bytes; nothing where the product does not
/// fit.
pub fn parse_meminfo_total(meminfo: &str) -> (r: Option<u64>)
    ensures
        r == mem_total_of(meminfo@),
{
    let rows = lines_of(&chars_of(meminfo));
    let mark = chars_of("MemTotal:");
    let ghost all = texts(rows@);
    let mut i: usize = 0;
    assert(all.skip(0) =~= all);
    while i < rows.len()
        invariant
            i <= rows.len(),
            all == texts(rows@),
            all == lines(meminfo@),
            mark@ == "MemTotal:"@,
            mem_total_line(all) == mem_total_line(all.skip(i as int)),
        decreases rows.len() - i,
    {
        assert(all.skip(i as int)[0] == rows@[i as int]@);
        assert(all.skip(i as int).skip(1) =~= all.skip(i + 1));
        if stands_at(&rows[i], &mark, 0) {
            let w = words_of(&rows[i]);
            if w.len() < 2 {
                return None;
            }
            assert(texts(w@)[1] == w@[1]@);
            return match parse_number(&w[1], u64::MAX) {
                Some(kb) => if kb <= u64::MAX / 1024 {
                    Some(kb * 1024)
                } else {
                    None
                },
                None => None,
            };
        }
        i = i + 1;
    }
    None
}

// ---------------------------------------------------------------- cards

/// One entry of the DRM directory, with what its device says of itself.
#[derive(Debug)]
pub struct CardEntry {
    /// The entry's name: `card1`, `card1-DP-1`, `renderD128`.
    pub file_name: String,
    /// PCI vendor id, `0x` notation.
    pub vendor: Option<String>,
    /// Driver bound to the device.
    pub driver: Option<String>,
    /// PCI address.
    pub pdev: Option<String>,
}

/// A claimed card: its number, and its place among the entries.
#[derive(Clone, Copy, PartialEq, Eq, Structural, Debug)]
pub struct ScannedCard {
    pub index: u32,
    pub at: usize,
}

/// The number in a card's name.
pub open spec fn index_in(name: Seq<char>) -> Option<u32> {
    if has_prefix(name, "card"@) {
        match parse_uint(name.skip("card"@.len() as int), u32::MAX as nat) {
            Some(n) => Some(n as u32),
            None => None,
        }
    } else {
        None
    }
}

/// "card1" to 1; connectors and render nodes have no number.
pub fn card_index(file_name: &str) -> (r: Option<u32>)
    ensures
        r == index_in(file_name@),
{
    let cs = chars_of(file_name);
    let p = chars_of("card");
    if !stands_at(&cs, &p, 0) {
        return None;
    }
    let rest = slice_of(&cs, p.len(), cs.len());
    assert(rest@ =~= cs@.skip(p@.len() as int));
    match parse_number(&rest, u32::MAX as u64) {
        Some(n) => Some(n as u32),
        None => None,
    }
}

/// The number of an entry that a backend for `vendor` claims, where it does:
/// a card, of that vendor, on a driver it accepts.
pub open spec fn claimed_index(
    c: CardEntry,
    vendor: Seq<char>,
    accept: spec_fn(Seq<char>) -> bool,
) -> Option<u32> {
    match (index_in(c.file_name@), c.driver) {
        (Some(i), Some(d)) => if opt_text(c.vendor) == Some(vendor) && accept(d@) {
            Some(i)
        } else {
            None
        },
        _ => None,
    }
}

/// The claimed entries among the first `n`, in directory order.
pub open spec fn claims(
    cards: Seq<CardEntry>,
    vendor: Seq<char>,
    accept: spec_fn(Seq<char>) -> bool,
    n: nat,
) -> Seq<ScannedCard>
    decreases n,
{
    if n == 0 {
        Seq::empty()
    } else {
        let head = claims(cards, vendor, accept, (n - 1) as nat);
        match claimed_index(cards[n - 1], vendor, accept) {
            Some(index) => head.push(ScannedCard { index, at: (n - 1) as usize }),
            None => head,
        }
    }
}

pub open spec fn card_keys(v: Seq<ScannedCard>) -> Seq<Key4> {
    v.map_values(|c: ScannedCard| Key4 { a: c.index as i128, b: 0, c: 0, d: 0 })
}

/// `out` is `found` by ascending card number, directory order among equals.
pub open spec fn by_index(out: Seq<ScannedCard>, found: Seq<ScannedCard>) -> bool {
    exists|p: Seq<usize>|
        #[trigger] is_sorted_order(card_keys(found), p) && out == Seq::new(
            p.len(),
            |i: int| found[p[i] as int],
        )
}

/// The cards of `vendor` on a driver that `accept` takes, by card number.
pub fn cards_with_driver<F: Fn(&str) -> bool>(
    cards: &Vec<CardEntry>,
    vendor: &str,
    accept: F,
) -> (out: Vec<ScannedCard>)
    requires
        forall|s: &str| call_requires(accept, (s,)),
    ensures
        forall|p: spec_fn(Seq<char>) -> bool|
            #![trigger claims(cards@, vendor@, p, cards@.len())]
            (forall|s: &str, b: bool| call_ensures(accept, (s,), b) ==> b == p(s@)) ==> by_index(
                out@,
                claims(cards@, vendor@, p, cards@.len()),
            ),
{
    let mut found: Vec<ScannedCard> = Vec::new();
    let mut i: usize = 0;
    while i < cards.len()
        invariant
            i <= cards.len(),
            forall|s: &str| call_requires(accept, (s,)),
            forall|p: spec_fn(Seq<char>) -> bool|
                #![trigger claims(cards@, vendor@, p, i as nat)]
                (forall|s: &str, b: bool| call_ensures(accept, (s,), b) ==> b == p(s@))
                    ==> found@ == claims(cards@, vendor@, p, i as nat),
        decreases cards.len() - i,
    {
        let ghost was = found@;
        if let Some(index) = card_index(cards[i].file_name.as_str()) {
            let ours = match &cards[i].vendor {
                Some(v) => same_text(v, vendor),
                None => false,
            };
            if ours {
                if let Some(d) = &cards[i].driver {
                    let ok = accept(d.as_str());
                    if ok {
                        found.push(ScannedCard { index, at: i });
                    }
                }
            }
        }
        proof {
            assert forall|p: spec_fn(Seq<char>) -> bool|
                #![trigger claims(cards@, vendor@, p, (i + 1) as nat)]
                (forall|s: &str, b: bool| call_ensures(accept, (s,), b) ==> b == p(s@))
                    implies found@ == claims(cards@, vendor@, p, (i + 1) as nat) by {
                assert(was == claims(cards@, vendor@, p, i as nat));
            }
        }
        i = i + 1;
    }
    let mut keys: Vec<Key4> = Vec::new();
    let mut j: usize = 0;
    while j < found.len()
        invariant
            j <= found.len(),
            keys@ == card_keys(found@).take(j as int),
        decreases found.len() - j,
    {
        keys.push(Key4 { a: found[j].index as i128, b: 0, c: 0, d: 0 });
        assert(keys@ =~= card_keys(found@).take(j + 1));
        j = j + 1;
    }
    assert(keys@ =~= card_keys(found@));
    let order = sorted_order(&keys);
    let mut out: Vec<ScannedCard> = Vec::new();
    let mut k: usize = 0;
    while k < order.len()
        invariant
            k <= order.len(),
            is_sorted_order(card_keys(found@), order@),
            out@.len() == k,
            forall|w: int| 0 <= w < k ==> #[trigger] out@[w] == found@[order@[w] as int],
        decreases order.len() - k,
    {
        let at: usize = order[k];
        out.push(found[at]);
        k = k + 1;
    }
    proof {
        assert(out@ =~= Seq::new(order@.len(), |w: int| found@[order@[w] as int]));
        assert(by_index(out@, found@));
    }
    out
}

/// The claimed cards' identities, by card number; a card without an address has
/// none.
pub fn ids_of(cards: &Vec<CardEntry>, found: &Vec<ScannedCard>) -> (out: Vec<String>)
    requires
        forall|k: int| 0 <= k < found@.len() ==> (#[trigger] found@[k]).at < cards@.len(),
    ensures
        string_texts(out@) == claimed_texts(cards@, found@),
{
    let mut out: Vec<String> = Vec::new();
    let mut i: usize = 0;
    assert(found@.take(0) =~= Seq::<ScannedCard>::empty());
    assert(string_texts(out@) =~= claimed_texts(cards@, found@.take(0)));
    while i < found.len()
        invariant
            i <= found.len(),
            forall|k: int| 0 <= k < found@.len() ==> (#[trigger] found@[k]).at < cards@.len(),
            string_texts(out@) == claimed_texts(cards@, found@.take(i as int)),
        decreases found.len() - i,
    {
        assert(found@.take(i + 1).drop_last() =~= found@.take(i as int));
        let at: usize = found[i].at;
        if let Some(id) = pci_device_id(&cards[at].pdev) {
            let ghost was = out@;
            out.push(id);
            assert(string_texts(out@) =~= string_texts(was).push(id@));
        }
        i = i + 1;
    }
    assert(found@.take(i as int) =~= found@);
    out
}

/// The identities of the found cards that have an address.
pub open spec fn claimed_texts(cards: Seq<CardEntry>, found: Seq<ScannedCard>) -> Seq<Seq<char>>
    decreases found.len(),
{
    if found.len() == 0 {
        Seq::empty()
    } else {
        let head = claimed_texts(cards, found.drop_last());
        match cards[found.last().at as int].pdev {
            Some(p) => head.push("pci:"@ + p@),
            None => head,
        }
    }
}

/// `ids` are the identities of the claimed cards, by card number; a card
/// without an address has none.
pub open spec fn are_ids_of(
    ids: Seq<Seq<char>>,
    cards: Seq<CardEntry>,
    claimed: Seq<ScannedCard>,
) -> bool {
    exists|found: Seq<ScannedCard>|
        #[trigger] by_index(found, claimed) && ids == claimed_texts(cards, found)
}

pub proof fn lemma_claims_in_range(
    cards: Seq<CardEntry>,
    vendor: Seq<char>,
    accept: spec_fn(Seq<char>) -> bool,
    n: nat,
)
    requires
        n <= cards.len(),
        cards.len() <= usize::MAX,
    ensures
        forall|k: int|
            0 <= k < claims(cards, vendor, accept, n).len() ==> (#[trigger] claims(
                cards,
                vendor,
                accept,
                n,
            )[k]).at < n,
    decreases n,
{
    if n > 0 {
        lemma_claims_in_range(cards, vendor, accept, (n - 1) as nat);
        let head = claims(cards, vendor, accept, (n - 1) as nat);
        let all = claims(cards, vendor, accept, n);
        assert forall|k: int| 0 <= k < all.len() implies (#[trigger] all[k]).at < n by {
            if k < head.len() {
                assert(all[k] == head[k]);
            }
        }
    }
}

/// Stable device id from a PCI address.
pub fn pci_device_id(pdev: &Option<String>) -> (r: Option<String>)
    ensures
        opt_text(r) == (match *pdev {
            Some(p) => Some("pci:"@ + p@),
            None => None,
        }),
{
    match pdev {
        Some(p) => {
            let mut id = String::new();
            id.append("pci:");
            id.append(p.as_str());
            assert(id@ =~= "pci:"@ + p@);
            Some(id)
        },
        None => None,
    }
}

/// The name of a hwmon directory is the driver's.
pub open spec fn names_driver(name: Option<String>, driver: Seq<char>) -> bool {
    name matches Some(n) && (n@ == driver || has_prefix(n@, driver + "_"@))
}

/// Which hwmon directory of a card to read, from their names in directory
/// order: the first that names the driver, else the first.
pub fn hwmon_dir(names: &Vec<Option<String>>, driver: &str) -> (r: Option<usize>)
    ensures
        is_hwmon(r, names@, driver@),
{
    let mut prefix = driver.to_owned();
    prefix.append("_");
    let mut i: usize = 0;
    while i < names.len()
        invariant
            i <= names.len(),
            prefix@ == driver@ + "_"@,
            forall|j: int| 0 <= j < i ==> !names_driver(#[trigger] names@[j], driver@),
        decreases names.len() - i,
    {
        let ours = match &names[i] {
            Some(n) => same_text(n, driver) || starts_with(n, prefix.as_str()),
            None => false,
        };
        assert(ours == names_driver(names@[i as int], driver@));
        if ours {
            return Some(i);
        }
        i = i + 1;
    }
    if names.len() > 0 {
        Some(0)
    } else {
        None
    }
}

// ---------------------------------------------------------------- links

/// A card's PCIe link attributes.
#[derive(Debug)]
pub struct LinkTexts {
    pub current_speed: Option<String>,
    pub current_width: Option<String>,
    pub max_speed: Option<String>,
    pub max_width: Option<String>,
}

/// The generation and width that two attributes give.
pub open spec fn link_of(speed: Option<String>, width: Option<String>) -> (Option<u8>, Option<u32>) {
    (
        match speed {
            Some(s) => if words(s@).len() == 0 {
                None
            } else {
                gen_of_token(words(s@)[0])
            },
            None => None,
        },
        match attr_value(opt_text(width), u32::MAX as nat) {
            Some(n) => Some(n as u32),
            None => None,
        },
    )
}

fn read_link(speed: &Option<String>, width: &Option<String>) -> (r: (Option<u8>, Option<u32>))
    ensures
        r == link_of(*speed, *width),
{
    let gen = match speed {
        Some(s) => gts_to_gen(s),
        None => None,
    };
    let lanes = match width {
        Some(w) => match parse_number(&trim_chars(&chars_of(w)), u32::MAX as u64) {
            Some(n) => Some(n as u32),
            None => None,
        },
        None => None,
    };
    (gen, lanes)
}

/// Current negotiated link as generation and width.
pub fn pcie_current_link(t: &LinkTexts) -> (r: (Option<u8>, Option<u32>))
    ensures
        r == link_of(t.current_speed, t.current_width),
{
    read_link(&t.current_speed, &t.current_width)
}

/// Maximum supported link as generation and width.
pub fn pcie_max_link(t: &LinkTexts) -> (r: (Option<u8>, Option<u32>))
    ensures
        r == link_of(t.max_speed, t.max_width),
{
    read_link(&t.max_speed, &t.max_width)
}

/// Current and maximum link: generation, width, maximum generation and width.
pub fn pcie_link(t: &LinkTexts) -> (r: (Option<u8>, Option<u32>, Option<u8>, Option<u32>))
    ensures
        r.0 == link_of(t.current_speed, t.current_width).0,
        r.1 == link_of(t.current_speed, t.current_width).1,
        r.2 == link_of(t.max_speed, t.max_width).0,
        r.3 == link_of(t.max_speed, t.max_width).1,
{
    let (cur_gen, cur_width) = pcie_current_link(t);
    let (max_gen, max_width) = pcie_max_link(t);
    (cur_gen, cur_width, max_gen, max_width)
}

// ---------------------------------------------------------------- driver line

/// "amdgpu · kernel 6.12.1-arch1-1"; nothing where the kernel release is
/// unreadable.
pub fn driver_line(prefix: &str, kernel: &Option<String>) -> (r: Option<String>)
    ensures
        opt_text(r) == kernel_line(prefix@, opt_text(*kernel)),
{
    match kernel {
        Some(k) => {
            let mut s = prefix.to_owned();
            s.append(" · kernel ");
            s.append(k.as_str());
            Some(s)
        },
        None => None,
    }
}

/// `names` lists the drivers in use, each once, in order.
pub open spec fn names_drivers(names: Seq<Seq<char>>, drivers: Seq<Seq<char>>) -> bool {
    &&& strictly_sorted(names)
    &&& forall|s: Seq<char>| #[trigger] names.contains(s) <==> drivers.contains(s)
}

/// The driver line for cards on several drivers: every driver in use, each
/// once, sorted, joined by `+`.
pub fn driver_line_for(drivers: &Vec<String>, kernel: &Option<String>) -> (r: Option<String>)
    ensures
        match *kernel {
            Some(k) => exists|names: Seq<Seq<char>>|
                #![trigger join(names, "+"@)]
                names_drivers(names, string_texts(drivers@)) && opt_text(r) == Some(
                    join(names, "+"@) + " · kernel "@ + k@,
                ),
            None => r is None,
        },
{
    let p = sorted_order(drivers);
    let ghost given = string_texts(drivers@);
    let mut unique: Vec<String> = Vec::new();
    let mut i: usize = 0;
    while i < p.len()
        invariant
            i <= p.len(),
            given == string_texts(drivers@),
            is_sorted_order(drivers@, p@),
            strictly_sorted(string_texts(unique@)),
            forall|k: int| 0 <= k < i ==> string_texts(unique@).contains(#[trigger] given[p@[k] as int]),
            forall|s: Seq<char>| #[trigger] string_texts(unique@).contains(s) ==> given.contains(s),
            i > 0 ==> unique@.len() > 0 && unique@.last()@ == given[p@[i - 1] as int],
            i == 0 ==> unique@.len() == 0,
        decreases p.len() - i,
    {
        let at: usize = p[i];
        let ghost was = string_texts(unique@);
        assert(drivers@[at as int]@ == given[at as int]);
        let fresh = if unique.len() == 0 {
            true
        } else {
            !same_text(&unique[unique.len() - 1], &drivers[at])
        };
        if fresh {
            proof {
                if i > 0 {
                    let x = p@[i - 1] as int;
                    assert(precedes(drivers@, x, at as int));
                    if !text_lt(given[x], given[at as int]) {
                        text_lt_total(given[x], given[at as int]);
                    }
                }
            }
            let ghost held = unique@;
            unique.push(drivers[at].clone());
            proof {
                let now = string_texts(unique@);
                assert(now =~= was.push(given[at as int]));
                assert forall|a: int, b: int| 0 <= a < b < now.len() implies text_lt(#[trigger] now[a], #[trigger] now[b]) by {
                    if b < was.len() {
                        assert(text_lt(was[a], was[b]));
                    } else {
                        let last = was[was.len() - 1];
                        assert(held.last()@ == last);
                        if a < was.len() - 1 {
                            assert(text_lt(was[a], last));
                            crate::order::text_lt_separated(was[a], now[b], last);
                            crate::order::text_lt_asymmetric(last, now[b]);
                        }
                    }
                }
                assert(now[now.len() - 1] == given[at as int]);
                assert forall|k: int| 0 <= k < i + 1 implies now.contains(#[trigger] given[p@[k] as int]) by {
                    if k < i {
                        let s = given[p@[k] as int];
                        let w = choose|w: int| 0 <= w < was.len() && was[w] == s;
                        assert(now[w] == s);
                    }
                }
                assert forall|s: Seq<char>| #[trigger] now.contains(s) implies given.contains(s) by {
                    let w = choose|w: int| 0 <= w < now.len() && now[w] == s;
                    if w < was.len() {
                        assert(was.contains(s));
                    } else {
                        assert(given[at as int] == s);
                    }
                }
            }
        } else {
            proof {
                assert(string_texts(unique@).last() == given[at as int]);
                assert(string_texts(unique@)[unique@.len() - 1] == given[at as int]);
            }
        }
        i = i + 1;
    }
    proof {
        let names = string_texts(unique@);
        assert forall|s: Seq<char>| #[trigger] names.contains(s) <==> given.contains(s) by {
            if given.contains(s) {
                let x = choose|x: int| 0 <= x < given.len() && given[x] == s;
                assert(p@.contains(x as usize));
                let w = choose|w: int| 0 <= w < p@.len() && p@[w] == x as usize;
                assert(names.contains(given[p@[w] as int]));
            }
        }
        assert(names_drivers(names, given));
    }
    let prefix = join_texts(&unique, "+");
    driver_line(prefix.as_str(), kernel)
}

// ---------------------------------------------------------------- names

/// `s` up to its first white space.
pub open spec fn first_token(s: Seq<char>) -> Seq<char>
    decreases s.len(),
{
    if s.len() == 0 || is_space(s[0]) {
        Seq::empty()
    } else {
        seq![s[0]] + first_token(s.skip(1))
    }
}

pub open spec fn same_ignoring_case(a: Seq<char>, b: Seq<char>) -> bool {
    ascii_lowercase(a) == ascii_lowercase(b)
}

/// The name that the lines of a pci.ids text give the device, reading on
/// inside or outside the vendor's section.
pub open spec fn name_in(
    rows: Seq<Seq<char>>,
    vendor: Seq<char>,
    device: Seq<char>,
    inside: bool,
) -> Option<Seq<char>>
    decreases rows.len(),
{
    if rows.len() == 0 {
        None
    } else {
        let line = rows[0];
        let rest = rows.skip(1);
        if line.len() == 0 || line[0] == '#' {
            name_in(rest, vendor, device, inside)
        } else if line[0] != '\t' {
            let w = words(line);
            name_in(rest, vendor, device, w.len() > 0 && same_ignoring_case(w[0], vendor))
        } else if !inside || (line.len() > 1 && line[1] == '\t') {
            name_in(rest, vendor, device, inside)
        } else {
            let entry = trim_start(line);
            let id = first_token(entry);
            if id.len() < entry.len() && same_ignoring_case(id, device) {
                Some(trim(entry.skip(id.len() as int + 1)))
            } else {
                name_in(rest, vendor, device, inside)
            }
        }
    }
}

fn same_fold(a: &Vec<char>, b: &Vec<char>) -> (r: bool)
    ensures
        r == same_ignoring_case(a@, b@),
{
    let ghost x = ascii_lowercase(a@);
    let ghost y = ascii_lowercase(b@);
    if a.len() != b.len() {
        assert(x.len() != y.len());
        return false;
    }
    let mut i: usize = 0;
    while i < a.len()
        invariant
            i <= a.len(),
            a.len() == b.len(),
            x == ascii_lowercase(a@),
            y == ascii_lowercase(b@),
            forall|j: int| 0 <= j < i ==> x[j] == y[j],
        decreases a.len() - i,
    {
        if char_ascii_lower(a[i]) != char_ascii_lower(b[i]) {
            assert(x[i as int] != y[i as int]);
            return false;
        }
        i = i + 1;
    }
    assert(x =~= y);
    true
}

proof fn lemma_first_token(s: Seq<char>, i: int)
    requires
        0 <= i <= s.len(),
        i < s.len() ==> is_space(s[i]),
        forall|j: int| 0 <= j < i ==> !is_space(s[j]),
    ensures
        first_token(s) == s.take(i),
    decreases s.len(),
{
    if s.len() > 0 && !is_space(s[0]) {
        assert(i > 0);
        lemma_first_token(s.skip(1), i - 1);
        assert(s.take(i) =~= seq![s[0]] + s.skip(1).take(i - 1));
    } else {
        assert(s.take(i) =~= Seq::<char>::empty());
    }
}

fn skip_spaces(cs: &Vec<char>) -> (out: Vec<char>)
    ensures
        out@ == trim_start(cs@),
{
    let mut lo: usize = 0;
    assert(cs@.skip(0) =~= cs@);
    while lo < cs.len() && char_is_space(cs[lo])
        invariant
            lo <= cs.len(),
            trim_start(cs@) == trim_start(cs@.skip(lo as int)),
        decreases cs.len() - lo,
    {
        assert(cs@.skip(lo as int).skip(1) =~= cs@.skip(lo + 1));
        lo = lo + 1;
    }
    let out = slice_of(cs, lo, cs.len());
    assert(out@ =~= cs@.skip(lo as int));
    out
}

/// A device's name in a pci.ids text, by vendor and device id in lowercase or
/// uppercase hexadecimal without prefix.
pub fn pci_device_name(ids: &str, vendor: &str, device: &str) -> (r: Option<String>)
    ensures
        opt_text(r) == name_in(lines(ids@), vendor@, device@, false),
{
    let rows = lines_of(&chars_of(ids));
    let vendor_chars = chars_of(vendor);
    let device_chars = chars_of(device);
    let ghost all = texts(rows@);
    let mut inside = false;
    let mut i: usize = 0;
    assert(all.skip(0) =~= all);
    while i < rows.len()
        invariant
            i <= rows.len(),
            all == texts(rows@),
            all == lines(ids@),
            vendor_chars@ == vendor@,
            device_chars@ == device@,
            name_in(all, vendor@, device@, false) == name_in(
                all.skip(i as int),
                vendor@,
                device@,
                inside,
            ),
        decreases rows.len() - i,
    {
        let line = &rows[i];
        assert(all.skip(i as int)[0] == line@);
        assert(all.skip(i as int).skip(1) =~= all.skip(i + 1));
        i = i + 1;
        if line.len() == 0 || line[0] == '#' {
            continue;
        }
        if line[0] != '\t' {
            let w = words_of(line);
            inside = if w.len() > 0 {
                assert(texts(w@)[0] == w@[0]@);
                same_fold(&w[0], &vendor_chars)
            } else {
                false
            };
            continue;
        }
        if !inside || (line.len() > 1 && line[1] == '\t') {
            continue;
        }
        let entry = skip_spaces(line);
        let mut n: usize = 0;
        while n < entry.len() && !char_is_space(entry[n])
            invariant
                n <= entry.len(),
                forall|j: int| 0 <= j < n ==> !is_space(entry@[j]),
            decreases entry.len() - n,
        {
            n = n + 1;
        }
        proof {
            lemma_first_token(entry@, n as int);
        }
        let elen: usize = entry.len();
        if n < elen {
            let id = slice_of(&entry, 0, n);
            assert(id@ =~= first_token(entry@));
            if same_fold(&id, &device_chars) {
                let tail = slice_of(&entry, n + 1, elen);
                assert(tail@ =~= entry@.skip(n as int + 1));
                return Some(string_of(&trim_chars(&tail)));
            }
        }
    }
    None
}

/// The bracketed name at the end of a pci.ids entry, where it has one.
pub open spec fn marketing_of(entry: Seq<char>) -> Seq<char> {
    let parts = split(entry, '[');
    let tail = parts.last();
    if parts.len() >= 2 && tail.len() > 0 && tail.last() == ']' && trim(tail.drop_last()).len() > 0 {
        trim(tail.drop_last())
    } else {
        entry
    }
}

/// "Navi 31 [Radeon RX 7900 XT]" to "Radeon RX 7900 XT"; the whole entry where
/// there is no bracketed name.
pub fn marketing_name(entry: &str) -> (s: String)
    ensures
        s@ == marketing_of(entry@),
{
    let parts = split_chars(&chars_of(entry), '[');
    let n: usize = parts.len();
    assert(texts(parts@).last() == parts@[n - 1]@);
    if n >= 2 {
        let tail = &parts[n - 1];
        let len: usize = tail.len();
        if len > 0 && tail[len - 1] == ']' {
            let inner = slice_of(tail, 0, len - 1);
            assert(inner@ =~= tail@.drop_last());
            let name = trim_chars(&inner);
            if name.len() > 0 {
                return string_of(&name);
            }
        }
    }
    entry.to_owned()
}

/// `s` without any leading `0x`.
pub open spec fn strip_0x(s: Seq<char>) -> Seq<char>
    decreases s.len(),
{
    if s.len() >= 2 && s[0] == '0' && s[1] == 'x' {
        strip_0x(s.skip(2))
    } else {
        s
    }
}

/// What a card is called: its marketing name where pci.ids lists it, the brand
/// with its ids otherwise.
pub open spec fn card_title(
    ids: Option<Seq<char>>,
    device_id: Seq<char>,
    idx: u32,
    vendor: Seq<char>,
    brand: Seq<char>,
) -> Seq<char> {
    let listed = match ids {
        Some(text) => name_in(lines(text), vendor, strip_0x(device_id), false),
        None => None,
    };
    match listed {
        Some(name) => marketing_of(name),
        None => brand + " GPU "@ + device_id + " (card"@ + decimal(idx as nat) + ")"@,
    }
}

/// What a card is called.
pub fn card_name(
    ids: &Option<String>,
    device_id: &str,
    idx: u32,
    vendor_hex: &str,
    fallback_brand: &str,
) -> (s: String)
    ensures
        s@ == card_title(opt_text(*ids), device_id@, idx, vendor_hex@, fallback_brand@),
{
    let cs = chars_of(device_id);
    let mut lo: usize = 0;
    assert(cs@.skip(0) =~= cs@);
    while cs.len() - lo >= 2 && cs[lo] == '0' && cs[lo + 1] == 'x'
        invariant
            lo <= cs.len(),
            strip_0x(cs@) == strip_0x(cs@.skip(lo as int)),
        decreases cs.len() - lo,
    {
        assert(cs@.skip(lo as int).skip(2) =~= cs@.skip(lo + 2));
        lo = lo + 2;
    }
    let bare = slice_of(&cs, lo, cs.len());
    assert(bare@ =~= cs@.skip(lo as int));
    let bare_text = string_of(&bare);
    let listed = match ids {
        Some(text) => pci_device_name(text, vendor_hex, bare_text.as_str()),
        None => None,
    };
    match listed {
        Some(name) => marketing_name(name.as_str()),
        None => {
            let mut s = fallback_brand.to_owned();
            s.append(" GPU ");
            s.append(device_id);
            s.append(" (card");
            s.append(decimal_text(idx as u64).as_str());
            s.append(")");
            s
        },
    }
}

// ---------------------------------------------------------------- laws

/// An attribute file that holds the numeral of `n`, as the kernel writes one:
/// the digits and a line end.
pub open spec fn holds_number(text: Option<String>, n: nat) -> bool {
    opt_text(text) == Some(decimal(n).push('\n'))
}

/// The number in an attribute file is the one that was written there, whatever
/// white space stands around it; an absent file has none.
pub proof fn a_written_number_is_read(
    text: Option<String>,
    before: Seq<char>,
    n: nat,
    behind: Seq<char>,
)
    requires
        is_blank(before),
        is_blank(behind),
    ensures
        opt_text(text) == Some(before + decimal(n) + behind) && n <= u64::MAX ==> number_in(text)
            == Some(n as u64),
        opt_text(text) == Some(before + decimal(n) + behind) && n > u64::MAX ==> number_in(
            text,
        ) is None,
        text is None ==> number_in(text) is None,
        holds_number(text, n) && n <= u64::MAX ==> number_in(text) == Some(n as u64),
{
    let d = decimal(n);
    decimal_reads_back(n);
    numbers_are_read_from_digits(d, n, u64::MAX as nat);
    white_space_is_blank(d[0]);
    white_space_is_blank(d.last());
    assert(is_digit(d[0]) && is_digit(d[d.len() - 1]));
    trimming_takes_off_both_ends(before, d, behind);
    let end = seq!['\n'];
    assert(is_blank(end)) by {
        white_space_is_blank('\n');
    }
    trimming_takes_off_both_ends(Seq::empty(), d, end);
    assert(Seq::<char>::empty() + d + end =~= d.push('\n'));
}

/// The total of the first `MemTotal` line, in kibibytes there, is that many
/// bytes, and nothing where they do not fit.
pub proof fn total_memory_is_counted_in_kibibytes(text: Seq<char>, i: int, kb: nat)
    requires
        0 <= i < lines(text).len(),
        lines(text)[i] == "MemTotal: "@ + decimal(kb) + " kB"@,
        forall|j: int| 0 <= j < i ==> !has_prefix(#[trigger] lines(text)[j], "MemTotal:"@),
    ensures
        kb * 1024 <= u64::MAX ==> mem_total_of(text) == Some((kb * 1024) as u64),
        kb * 1024 > u64::MAX ==> mem_total_of(text) is None,
{
    let rows = lines(text);
    let d = decimal(kb);
    reveal_strlit("MemTotal: ");
    reveal_strlit("MemTotal:");
    reveal_strlit(" kB");
    let head = "MemTotal:"@;
    decimal_reads_back(kb);
    numbers_are_read_from_digits(d, kb, u64::MAX as nat);
    assert forall|k: int| 0 <= k < d.len() implies !is_space(#[trigger] d[k]) by {
        white_space_is_blank(d[k]);
    }
    assert forall|k: int| 0 <= k < head.len() implies !is_space(#[trigger] head[k]) by {
        white_space_is_blank(head[k]);
    }
    let unit = seq!['k', 'B'];
    assert forall|k: int| 0 <= k < unit.len() implies !is_space(#[trigger] unit[k]) by {
        white_space_is_blank(unit[k]);
    }
    a_blank_ends_a_word(head, ' ', head);
    a_blank_ends_a_word(head, ' ', d);
    a_blank_ends_a_word(head.push(' ') + d, ' ', unit);
    assert(rows[i] =~= (head.push(' ') + d).push(' ') + unit);
    assert(rows[i].subrange(0, head.len() as int) =~= head);
    lemma_total_line(rows, i);
}

proof fn lemma_total_line(rows: Seq<Seq<char>>, i: int)
    requires
        0 <= i < rows.len(),
        has_prefix(rows[i], "MemTotal:"@),
        forall|j: int| 0 <= j < i ==> !has_prefix(#[trigger] rows[j], "MemTotal:"@),
    ensures
        mem_total_line(rows) == Some(rows[i]),
    decreases i,
{
    if i > 0 {
        let rest = rows.skip(1);
        assert(rest[i - 1] == rows[i]);
        assert forall|j: int| 0 <= j < i - 1 implies !has_prefix(#[trigger] rest[j], "MemTotal:"@) by {
            assert(rest[j] == rows[j + 1]);
        }
        lemma_total_line(rest, i - 1);
    }
}

/// A card's number is the one in its name; connectors, render nodes and
/// anything else that is no card have none.
pub proof fn cards_are_numbered_by_their_name(n: nat, rest: Seq<char>, name: Seq<char>)
    ensures
        n <= u32::MAX ==> index_in("card"@ + decimal(n)) == Some(n as u32),
        index_in("card"@ + decimal(n) + "-"@ + rest) is None,
        !has_prefix(name, "card"@) ==> index_in(name) is None,
{
    let c = "card"@;
    let d = decimal(n);
    decimal_reads_back(n);
    numbers_are_read_from_digits(d, n, u32::MAX as nat);
    assert((c + d).subrange(0, c.len() as int) =~= c);
    assert((c + d).skip(c.len() as int) =~= d);
    reveal_strlit("-");
    let s = c + d + "-"@ + rest;
    let tail = s.skip(c.len() as int);
    assert(tail =~= d + "-"@ + rest);
    assert(tail[d.len() as int] == '-');
    assert(!is_digit(tail[d.len() as int]));
    numbers_are_read_from_digits(tail, n, u32::MAX as nat);
}

/// A backend claims exactly the cards of its vendor on a driver that it
/// accepts, each once, under its number.
pub proof fn a_backend_claims_its_own_cards(
    cards: Seq<CardEntry>,
    vendor: Seq<char>,
    accept: spec_fn(Seq<char>) -> bool,
    n: nat,
    i: int,
    number: nat,
)
    requires
        0 <= i < n <= cards.len() <= usize::MAX,
    ensures
        ({
            let found = claims(cards, vendor, accept, n);
            let c = cards[i];
            &&& c.file_name@ == "card"@ + decimal(number) && number <= u32::MAX && opt_text(c.vendor)
                == Some(vendor) && (c.driver matches Some(d) && accept(d@)) ==> found.contains(
                (ScannedCard { index: number as u32, at: i as usize }),
            )
            &&& opt_text(c.vendor) != Some(vendor) || c.driver is None || !accept(c.driver->0@)
                || !has_prefix(c.file_name@, "card"@) ==> forall|k: int|
                0 <= k < found.len() ==> (#[trigger] found[k]).at != i
            &&& forall|a: int, b: int|
                0 <= a < b < found.len() ==> (#[trigger] found[a]).at < (#[trigger] found[b]).at
            &&& forall|k: int| 0 <= k < found.len() ==> (#[trigger] found[k]).at < n
        }),
    decreases n,
{
    let found = claims(cards, vendor, accept, n);
    let head = claims(cards, vendor, accept, (n - 1) as nat);
    cards_are_numbered_by_their_name(number, Seq::empty(), cards[i].file_name@);
    lemma_claims_in_range(cards, vendor, accept, n);
    lemma_claims_in_range(cards, vendor, accept, (n - 1) as nat);
    let me = ScannedCard { index: number as u32, at: i as usize };
    if i < n - 1 {
        a_backend_claims_its_own_cards(cards, vendor, accept, (n - 1) as nat, i, number);
        if head.contains(me) {
            let w = choose|w: int| 0 <= w < head.len() && head[w] == me;
            assert(found[w] == me);
        }
    } else if n > 1 {
        a_backend_claims_its_own_cards(cards, vendor, accept, (n - 1) as nat, 0, number);
    }
    if i == n - 1 && found.len() > head.len() {
        assert(found[head.len() as int] == found.last());
    }
    assert forall|k: int| 0 <= k < found.len() implies (k < head.len() ==> #[trigger] found[k] == head[k]) by {
    }
}

/// Claimed cards come by ascending number, and each of them once.
pub proof fn claimed_cards_come_by_number(out: Seq<ScannedCard>, found: Seq<ScannedCard>)
    requires
        by_index(out, found),
        found.len() <= usize::MAX,
    ensures
        out.len() == found.len(),
        forall|a: int, b: int|
            0 <= a < b < out.len() ==> (#[trigger] out[a]).index <= (#[trigger] out[b]).index,
        forall|c: ScannedCard| #[trigger] out.contains(c) <==> found.contains(c),
{
    let p = choose|p: Seq<usize>|
        #[trigger] is_sorted_order(card_keys(found), p) && out == Seq::new(
            p.len(),
            |i: int| found[p[i] as int],
        );
    assert forall|a: int, b: int| 0 <= a < b < out.len() implies (#[trigger] out[a]).index <= (
    #[trigger] out[b]).index by {
        assert(precedes(card_keys(found), p[a] as int, p[b] as int));
    }
    assert forall|c: ScannedCard| #[trigger] out.contains(c) <==> found.contains(c) by {
        if found.contains(c) {
            let x = choose|x: int| 0 <= x < found.len() && found[x] == c;
            assert(p.contains(x as usize));
            let w = choose|w: int| 0 <= w < p.len() && p[w] == x as usize;
            assert(out[w] == c);
        }
        if out.contains(c) {
            let w = choose|w: int| 0 <= w < out.len() && out[w] == c;
            assert(found[p[w] as int] == c);
        }
    }
}

/// Every claimed card with an address is named by it, in the cards' order.
pub proof fn claimed_cards_are_named_by_address(cards: Seq<CardEntry>, found: Seq<ScannedCard>)
    ensures
        (forall|k: int|
            0 <= k < found.len() ==> cards[(#[trigger] found[k]).at as int].pdev is Some)
            ==> claimed_texts(cards, found).len() == found.len() && forall|k: int|
            0 <= k < found.len() ==> #[trigger] claimed_texts(cards, found)[k] == "pci:"@
                + cards[found[k].at as int].pdev->0@,
        (forall|k: int|
            0 <= k < found.len() ==> cards[(#[trigger] found[k]).at as int].pdev is None)
            ==> claimed_texts(cards, found).len() == 0,
    decreases found.len(),
{
    if found.len() > 0 {
        let init = found.drop_last();
        claimed_cards_are_named_by_address(cards, init);
        assert(forall|k: int| 0 <= k < init.len() ==> init[k] == found[k]);
        assert(found[found.len() - 1] == found.last());
        if forall|k: int| 0 <= k < found.len() ==> cards[(#[trigger] found[k]).at as int].pdev is Some {
            assert forall|k: int| 0 <= k < init.len() implies cards[(#[trigger] init[k]).at as int].pdev is Some by {
                assert(init[k] == found[k]);
            }
        }
        if forall|k: int| 0 <= k < found.len() ==> cards[(#[trigger] found[k]).at as int].pdev is None {
            assert forall|k: int| 0 <= k < init.len() implies cards[(#[trigger] init[k]).at as int].pdev is None by {
                assert(init[k] == found[k]);
            }
        }
    }
}

/// A link's width is the number in its file, and its generation goes by the
/// first word of its speed alone.
pub proof fn a_link_is_read_from_its_files(
    speed: Option<String>,
    other: Option<String>,
    width: Option<String>,
    n: nat,
)
    requires
        n <= u32::MAX,
    ensures
        holds_number(width, n) ==> link_of(speed, width).1 == Some(n as u32),
        width is None ==> link_of(speed, width).1 is None,
        speed is None ==> link_of(speed, width).0 is None,
        link_of(speed, width).1 == link_of(other, width).1,
        speed matches Some(s) && other matches Some(o) && words(s@).len() > 0 && words(o@).len()
            > 0 && words(s@)[0] == words(o@)[0] ==> link_of(speed, width).0 == link_of(
            other,
            width,
        ).0,
{
    let d = decimal(n);
    decimal_reads_back(n);
    numbers_are_read_from_digits(d, n, u32::MAX as nat);
    white_space_is_blank(d[0]);
    white_space_is_blank(d.last());
    white_space_is_blank('\n');
    assert(is_digit(d[0]) && is_digit(d[d.len() - 1]));
    trimming_takes_off_both_ends(Seq::empty(), d, seq!['\n']);
    assert(Seq::<char>::empty() + d + seq!['\n'] =~= d.push('\n'));
}

/// A line that opens no section and names no device of the wanted number: it
/// is empty, a comment, a subsystem, or another device.
pub open spec fn passes_by(line: Seq<char>, device: Seq<char>) -> bool {
    ||| line.len() == 0
    ||| line[0] == '#'
    ||| line[0] == '\t' && (line.len() > 1 && line[1] == '\t' || !same_ignoring_case(
        first_token(trim_start(line)),
        device,
    ))
}

/// A line that opens no section of the wanted vendor.
pub open spec fn outside_of(line: Seq<char>, vendor: Seq<char>) -> bool {
    line.len() == 0 || line[0] == '#' || line[0] == '\t' || words(line).len() == 0
        || !same_ignoring_case(words(line)[0], vendor)
}

proof fn lemma_name_outside(rows: Seq<Seq<char>>, vendor: Seq<char>, device: Seq<char>, i: int)
    requires
        0 <= i <= rows.len(),
        forall|k: int| 0 <= k < i ==> outside_of(#[trigger] rows[k], vendor),
    ensures
        name_in(rows, vendor, device, false) == name_in(rows.skip(i), vendor, device, false),
    decreases i,
{
    if i == 0 {
        assert(rows.skip(0) =~= rows);
    } else {
        let rest = rows.skip(1);
        assert(outside_of(rows[0], vendor));
        assert forall|k: int| 0 <= k < i - 1 implies outside_of(#[trigger] rest[k], vendor) by {
            assert(rest[k] == rows[k + 1]);
        }
        lemma_name_outside(rest, vendor, device, i - 1);
        assert(rest.skip(i - 1) =~= rows.skip(i));
    }
}

proof fn lemma_name_inside(rows: Seq<Seq<char>>, vendor: Seq<char>, device: Seq<char>, i: int)
    requires
        0 <= i <= rows.len(),
        forall|k: int| 0 <= k < i ==> passes_by(#[trigger] rows[k], device),
    ensures
        name_in(rows, vendor, device, true) == name_in(rows.skip(i), vendor, device, true),
    decreases i,
{
    if i == 0 {
        assert(rows.skip(0) =~= rows);
    } else {
        let rest = rows.skip(1);
        assert(passes_by(rows[0], device));
        assert forall|k: int| 0 <= k < i - 1 implies passes_by(#[trigger] rest[k], device) by {
            assert(rest[k] == rows[k + 1]);
        }
        lemma_name_inside(rest, vendor, device, i - 1);
        assert(rest.skip(i - 1) =~= rows.skip(i));
    }
}

/// A device is found under its vendor's section and goes by what stands behind
/// its number there; where no section is the vendor's, it has no name, whatever
/// other vendors list.
pub proof fn a_device_is_named_in_its_vendors_section(
    rows: Seq<Seq<char>>,
    vendor: Seq<char>,
    device: Seq<char>,
    i: int,
    j: int,
    name: Seq<char>,
)
    requires
        0 <= i < j < rows.len(),
        forall|k: int| 0 <= k < i ==> outside_of(#[trigger] rows[k], vendor),
        rows[i].len() > 0 && rows[i][0] != '#' && rows[i][0] != '\t',
        words(rows[i]).len() > 0 && words(rows[i])[0] == vendor,
        forall|k: int| i < k < j ==> passes_by(#[trigger] rows[k], device),
        device.len() > 0,
        forall|k: int| 0 <= k < device.len() ==> !is_space(#[trigger] device[k]),
        rows[j] == seq!['\t'] + device + seq![' '] + name,
    ensures
        name_in(rows, vendor, device, false) == Some(trim(name)),
{
    lemma_name_outside(rows, vendor, device, i);
    let at = rows.skip(i);
    assert(at[0] == rows[i]);
    let inner = at.skip(1);
    assert(name_in(at, vendor, device, false) == name_in(inner, vendor, device, true));
    assert forall|k: int| 0 <= k < j - i - 1 implies passes_by(#[trigger] inner[k], device) by {
        assert(inner[k] == rows[k + i + 1]);
    }
    lemma_name_inside(inner, vendor, device, j - i - 1);
    let found = inner.skip(j - i - 1);
    let line = rows[j];
    assert(found[0] == line);
    let entry = device + seq![' '] + name;
    white_space_is_blank('\t');
    white_space_is_blank(' ');
    assert(line.skip(1) =~= entry);
    assert(entry[0] == device[0]);
    assert(line[1] == device[0]);
    assert(trim_start(line) == trim_start(entry));
    assert(trim_start(entry) == entry);
    lemma_first_token(entry, device.len() as int);
    assert(entry.take(device.len() as int) =~= device);
    assert(entry.skip(device.len() as int + 1) =~= name);
}

pub proof fn no_section_gives_no_name(rows: Seq<Seq<char>>, vendor: Seq<char>, device: Seq<char>)
    requires
        forall|k: int| 0 <= k < rows.len() ==> outside_of(#[trigger] rows[k], vendor),
    ensures
        name_in(rows, vendor, device, false) is None,
{
    lemma_name_outside(rows, vendor, device, rows.len() as int);
    assert(rows.skip(rows.len() as int).len() == 0);
}

/// Numbers are found in capitals as in small letters.
pub proof fn numbers_are_found_in_either_case(
    rows: Seq<Seq<char>>,
    vendor: Seq<char>,
    device: Seq<char>,
    inside: bool,
)
    ensures
        name_in(rows, ascii_lowercase(vendor), ascii_lowercase(device), inside) == name_in(
            rows,
            vendor,
            device,
            inside,
        ),
    decreases rows.len(),
{
    let v = ascii_lowercase(vendor);
    let d = ascii_lowercase(device);
    assert(ascii_lowercase(v) =~= v);
    assert(ascii_lowercase(d) =~= d);
    if rows.len() > 0 {
        let line = rows[0];
        let rest = rows.skip(1);
        let w = words(line);
        numbers_are_found_in_either_case(rest, vendor, device, inside);
        numbers_are_found_in_either_case(
            rest,
            vendor,
            device,
            w.len() > 0 && same_ignoring_case(w[0], vendor),
        );
    }
}

/// A card goes by the bracketed name at the end of its entry, and by the whole
/// entry where it has none.
pub proof fn the_bracketed_name_is_the_marketing_one(chip: Seq<char>, name: Seq<char>)
    requires
        !name.contains('['),
    ensures
        trim(name).len() > 0 ==> marketing_of(chip + seq!['['] + name + seq![']']) == trim(name),
        trim(name).len() == 0 ==> marketing_of(chip + seq!['['] + name + seq![']']) == chip
            + seq!['['] + name + seq![']'],
        marketing_of(name) == name,
{
    let tail = name + seq![']'];
    let entry = chip + seq!['['] + name + seq![']'];
    if tail.contains('[') {
        let w = choose|w: int| 0 <= w < tail.len() && tail[w] == '[';
        assert(name[w] == '[');
    }
    assert(entry =~= chip + seq!['['] + tail);
    a_separator_splits(chip, tail, '[');
    a_piece_stays_whole(tail, '[');
    a_piece_stays_whole(name, '[');
    lemma_split_nonempty(chip, '[');
    let parts = split(entry, '[');
    assert(parts.last() == tail);
    assert(tail.drop_last() =~= name);
}

/// A device number is looked up without its `0x`, and a card that no list names
/// is told apart by its brand, its device number and its own.
pub proof fn an_unlisted_card_shows_its_numbers(
    device: Seq<char>,
    idx: u32,
    other: u32,
    vendor: Seq<char>,
    brand: Seq<char>,
)
    requires
        idx != other,
    ensures
        strip_0x("0x"@ + device) == strip_0x(device),
        device.len() > 0 && device[0] != '0' ==> strip_0x(device) == device,
        contains_text(card_title(None, device, idx, vendor, brand), device),
        has_prefix(card_title(None, device, idx, vendor, brand), brand),
        card_title(None, device, idx, vendor, brand) != card_title(
            None,
            device,
            other,
            vendor,
            brand,
        ),
{
    reveal_strlit("0x");
    assert(("0x"@ + device).skip(2) =~= device);
    let pre = brand + " GPU "@;
    let mid = " (card"@;
    let x = decimal(idx as nat);
    let y = decimal(other as nat);
    let a = card_title(None, device, idx, vendor, brand);
    let b = card_title(None, device, other, vendor, brand);
    a_text_is_found_where_it_stands(pre, device, mid + x + ")"@);
    assert(a =~= pre + device + (mid + x + ")"@));
    a_text_is_found_where_it_stands(Seq::empty(), brand, " GPU "@ + device + mid + x + ")"@);
    assert(a =~= brand + (" GPU "@ + device + mid + x + ")"@));
    decimal_reads_back(idx as nat);
    decimal_reads_back(other as nat);
    if a == b {
        let n = (pre + device + mid).len() as int;
        reveal_strlit(")");
        assert(a.len() == n + x.len() + 1 && b.len() == n + y.len() + 1);
        assert(a.subrange(n, a.len() - 1) =~= x);
        assert(b.subrange(n, b.len() - 1) =~= y);
    }
}

/// The driver in use is named in the driver line, each once, however many cards
/// run on it.
pub proof fn every_driver_is_named_once(names: Seq<Seq<char>>, drivers: Seq<Seq<char>>, k: int)
    requires
        names_drivers(names, drivers),
    ensures
        0 <= k < drivers.len() ==> names.contains(drivers[k]),
        0 <= k < names.len() ==> drivers.contains(names[k]),
        forall|a: int, b: int|
            0 <= a < b < names.len() ==> #[trigger] names[a] != #[trigger] names[b],
{
    if 0 <= k < drivers.len() {
        assert(drivers.contains(drivers[k]));
    }
    if 0 <= k < names.len() {
        assert(names.contains(names[k]));
    }
    assert forall|a: int, b: int| 0 <= a < b < names.len() implies #[trigger] names[a] != #[trigger] names[b] by {
        assert(text_lt(names[a], names[b]));
        if names[a] == names[b] {
            crate::order::text_lt_asymmetric(names[a], names[b]);
        }
    }
}

/// A link whose speed starts with a rate has the generation that runs at that
/// rate.
pub proof fn a_links_generation_is_that_of_its_rate(
    speed: Option<String>,
    width: Option<String>,
    n: nat,
)
    requires
        n > 0,
        speed matches Some(t) && words(t@).len() > 0 && words(t@)[0] == decimal(n),
    ensures
        link_of(speed, width).0 == Some(gen_at(n)),
{
    a_rate_names_its_generation(n, Seq::empty());
}

/// A driver and the kernel it came with, where that is known.
pub open spec fn kernel_line(prefix: Seq<char>, kernel: Option<Seq<char>>) -> Option<Seq<char>> {
    match kernel {
        Some(k) => Some(prefix + " · kernel "@ + k),
        None => None,
    }
}

/// `r` is the directory to read: the first that names the driver, else the
/// first.
pub open spec fn is_hwmon(r: Option<usize>, names: Seq<Option<String>>, driver: Seq<char>) -> bool {
    match r {
        Some(i) => {
            &&& i < names.len()
            &&& (names_driver(names[i as int], driver) && forall|j: int|
                0 <= j < i ==> !names_driver(#[trigger] names[j], driver)) || (i == 0 && forall|
                j: int,
            |
                0 <= j < names.len() ==> !names_driver(#[trigger] names[j], driver))
        },
        None => names.len() == 0,
    }
}

/// A directory that names the driver is read before one that does not, and one
/// is read wherever there is one.
pub proof fn the_drivers_own_sensors_are_read(
    r: Option<usize>,
    names: Seq<Option<String>>,
    driver: Seq<char>,
    k: int,
)
    requires
        is_hwmon(r, names, driver),
        0 <= k < names.len(),
    ensures
        r matches Some(i) && i < names.len(),
        names[k] matches Some(n) && n@ == driver ==> (r matches Some(i) && i <= k && names_driver(
            names[i as int],
            driver,
        )),
        names[k] matches Some(n) && n@ == driver && (forall|j: int|
            0 <= j < names.len() && j != k ==> (#[trigger] names[j]) is None) ==> r == Some(
            k as usize,
        ),
{
    if let Some(n) = names[k] {
        if n@ == driver {
            assert(names_driver(names[k], driver));
        }
    }
}

/// The line names driver and kernel, and there is none without a kernel.
pub proof fn the_line_names_driver_and_kernel(prefix: Seq<char>, k: Seq<char>)
    ensures
        kernel_line(prefix, Some(k)) matches Some(t) && prefix.is_prefix_of(t) && contains_text(
            t,
            k,
        ),
        kernel_line(prefix, None) is None,
{
    let t = prefix + " · kernel "@ + k;
    let e = Seq::<char>::empty();
    a_text_is_found_where_it_stands(prefix + " · kernel "@, k, e);
    assert(t + e =~= t);
    assert(t.take(prefix.len() as int) =~= prefix);
}

} // verus!
