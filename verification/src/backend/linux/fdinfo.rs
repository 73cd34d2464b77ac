//! DRM client accounting as `/proc/<pid>/fdinfo` reports it.
use vstd::prelude::*;
use crate::backend::opt_text;
use crate::keyed::TextMap;
use crate::text::{a_blank_ends_a_word, a_mark_ends_the_head, a_text_is_found_where_it_stands, decimal, decimal_reads_back, is_digit, is_space, numbers_are_read_from_digits, trimming_takes_off_both_ends, chars_of, find_char, has_prefix, head_until, lemma_head_until, lines, lines_of, parse_number, parse_uint, same_chars, slice_of, stands_at, string_of, texts, trim, trim_chars, words, words_of};

verus! {

/// DRM character-device major.
pub const DRM_MAJOR: u64 = 226;

/// One DRM client (open fd) of a process, parsed from fdinfo.
pub struct FdClient {
    pub driver: String,
    pub id: u64,
    pub pdev: Option<String>,
    /// Engine name to cumulative busy nanoseconds.
    pub engine_ns: TextMap<u64>,
    /// Engine name to (cycles, total cycles), where the driver counts cycles.
    pub cycles: TextMap<(u64, u64)>,
    /// Memory region to bytes.
    pub memory: TextMap<u64>,
}

/// What an fdinfo text says of a client.
pub struct FdModel {
    pub driver: Seq<char>,
    pub id: Option<u64>,
    pub pdev: Option<Seq<char>>,
    pub engine_ns: Map<Seq<char>, u64>,
    pub cycles: Map<Seq<char>, (u64, u64)>,
    /// Memory the text names outright, and memory it names as resident.
    pub memory: Map<Seq<char>, u64>,
    pub resident: Map<Seq<char>, u64>,
}

/// The sum of the figures of the listed names.
pub open spec fn total_of(names: Seq<Seq<char>>, m: Map<Seq<char>, u64>) -> nat
    decreases names.len(),
{
    if names.len() == 0 {
        0
    } else {
        total_of(names.drop_last(), m) + m[names.last()] as nat
    }
}

impl FdClient {
    pub open spec fn wf(&self) -> bool {
        self.engine_ns.wf() && self.cycles.wf() && self.memory.wf()
    }

    /// The busy time of the engines whose name `p` accepts.
    pub open spec fn busy_ns(&self, p: spec_fn(Seq<char>) -> bool) -> nat {
        total_of(self.engine_ns.listed().filter(p), self.engine_ns@)
    }

    /// The busy time of all engines.
    pub open spec fn all_busy_ns(&self) -> nat {
        total_of(self.engine_ns.listed(), self.engine_ns@)
    }

    /// The client holds an engine whose name `p` accepts.
    pub open spec fn has_engine(&self, p: spec_fn(Seq<char>) -> bool) -> bool {
        holds_key(self.engine_ns@, p)
    }
}

// ---------------------------------------------------------------- parsing

/// The number at the start of a value; zero where there is none.
pub open spec fn ns_of(value: Seq<char>) -> u64 {
    let w = words(value);
    if w.len() == 0 {
        0
    } else {
        match parse_uint(w[0], u64::MAX as nat) {
            Some(n) => n as u64,
            None => 0,
        }
    }
}

/// `n * unit`, stopping at the largest `u64`.
pub open spec fn scaled(n: u64, unit: nat) -> u64 {
    if n * unit > u64::MAX {
        u64::MAX
    } else {
        (n * unit) as u64
    }
}

/// The bytes that a size value writes: a number and an optional binary unit.
pub open spec fn size_of_value(value: Seq<char>) -> u64 {
    let w = words(value);
    let n = ns_of(value);
    if w.len() < 2 {
        n
    } else if w[1] == "KiB"@ {
        scaled(n, 0x400)
    } else if w[1] == "MiB"@ {
        scaled(n, 0x10_0000)
    } else if w[1] == "GiB"@ {
        scaled(n, 0x4000_0000)
    } else {
        n
    }
}

pub open spec fn blank_model() -> FdModel {
    FdModel {
        driver: Seq::empty(),
        id: None,
        pdev: None,
        engine_ns: Map::empty(),
        cycles: Map::empty(),
        memory: Map::empty(),
        resident: Map::empty(),
    }
}

pub open spec fn cycles_at(m: Map<Seq<char>, (u64, u64)>, k: Seq<char>) -> (u64, u64) {
    if m.dom().contains(k) {
        m[k]
    } else {
        (0, 0)
    }
}

/// What one line adds. A client id that does not parse voids the whole text.
pub open spec fn with_line(m: FdModel, line: Seq<char>) -> Option<FdModel> {
    if !line.contains(':') {
        Some(m)
    } else {
        let key = head_until(line, ':');
        let value = trim(line.skip(key.len() as int + 1));
        if key == "drm-driver"@ {
            Some(FdModel { driver: value, ..m })
        } else if key == "drm-client-id"@ {
            match parse_uint(value, u64::MAX as nat) {
                Some(n) => Some(FdModel { id: Some(n as u64), ..m }),
                None => None,
            }
        } else if key == "drm-pdev"@ {
            Some(FdModel { pdev: Some(value), ..m })
        } else if has_prefix(key, "drm-engine-"@) {
            let name = key.skip("drm-engine-"@.len() as int);
            if has_prefix(name, "capacity"@) {
                Some(m)
            } else {
                Some(FdModel { engine_ns: m.engine_ns.insert(name, ns_of(value)), ..m })
            }
        } else if has_prefix(key, "drm-total-cycles-"@) {
            let name = key.skip("drm-total-cycles-"@.len() as int);
            let was = cycles_at(m.cycles, name);
            Some(FdModel { cycles: m.cycles.insert(name, (was.0, ns_of(value))), ..m })
        } else if has_prefix(key, "drm-cycles-"@) {
            let name = key.skip("drm-cycles-"@.len() as int);
            let was = cycles_at(m.cycles, name);
            Some(FdModel { cycles: m.cycles.insert(name, (ns_of(value), was.1)), ..m })
        } else if has_prefix(key, "drm-memory-"@) {
            let name = key.skip("drm-memory-"@.len() as int);
            Some(FdModel { memory: m.memory.insert(name, size_of_value(value)), ..m })
        } else if has_prefix(key, "drm-resident-"@) {
            let name = key.skip("drm-resident-"@.len() as int);
            Some(FdModel { resident: m.resident.insert(name, size_of_value(value)), ..m })
        } else {
            Some(m)
        }
    }
}

/// What the lines add up to.
pub open spec fn with_lines(rows: Seq<Seq<char>>) -> Option<FdModel>
    decreases rows.len(),
{
    if rows.len() == 0 {
        Some(blank_model())
    } else {
        match with_lines(rows.drop_last()) {
            Some(m) => with_line(m, rows.last()),
            None => None,
        }
    }
}

/// `c` is the client that `m` describes. Memory named outright wins over
/// resident memory of the same region.
pub open spec fn is_client(c: FdClient, m: FdModel) -> bool {
    &&& c.wf()
    &&& c.driver@ == m.driver
    &&& Some(c.id) == m.id
    &&& opt_text(c.pdev) == m.pdev
    &&& c.engine_ns@ == m.engine_ns
    &&& c.cycles@ == m.cycles
    &&& c.memory@ == m.resident.union_prefer_right(m.memory)
}

/// The number at the start of a value; zero where there is none.
pub fn parse_ns_chars(v: &Vec<char>) -> (n: u64)
    ensures
        n == ns_of(v@),
{
    let w = words_of(v);
    if w.len() == 0 {
        return 0;
    }
    assert(texts(w@)[0] == w@[0]@);
    match parse_number(&w[0], u64::MAX) {
        Some(n) => n,
        None => 0,
    }
}

/// "123456 ns" or "123456" to 123456.
pub fn parse_ns(v: &str) -> (n: u64)
    ensures
        n == ns_of(v@),
{
    parse_ns_chars(&chars_of(v))
}

fn scale(n: u64, unit: u64) -> (r: u64)
    requires
        unit > 0,
    ensures
        r == scaled(n, unit as nat),
{
    assert(n as u128 * unit as u128 <= u128::MAX) by (nonlinear_arith)
        requires
            n <= u64::MAX,
            unit <= u64::MAX,
    ;
    let wide: u128 = n as u128 * unit as u128;
    if wide > u64::MAX as u128 {
        u64::MAX
    } else {
        wide as u64
    }
}

fn parse_size_chars(v: &Vec<char>) -> (n: u64)
    ensures
        n == size_of_value(v@),
{
    let w = words_of(v);
    let n: u64 = parse_ns_chars(v);
    if w.len() < 2 {
        return n;
    }
    assert(texts(w@)[1] == w@[1]@);
    if same_chars(&w[1], &chars_of("KiB")) {
        scale(n, 0x400)
    } else if same_chars(&w[1], &chars_of("MiB")) {
        scale(n, 0x10_0000)
    } else if same_chars(&w[1], &chars_of("GiB")) {
        scale(n, 0x4000_0000)
    } else {
        n
    }
}

/// Bytes from a DRM size value: bare, or in KiB, MiB or GiB. The product
/// saturates.
pub fn parse_size(v: &str) -> (n: u64)
    ensures
        n == size_of_value(v@),
{
    parse_size_chars(&chars_of(v))
}

/// What follows `prefix` in `key`, where it starts with it.
fn after_prefix(key: &Vec<char>, prefix: &str) -> (r: Option<Vec<char>>)
    ensures
        match r {
            Some(rest) => has_prefix(key@, prefix@) && rest@ == key@.skip(prefix@.len() as int),
            None => !has_prefix(key@, prefix@),
        },
{
    let p = chars_of(prefix);
    if stands_at(key, &p, 0) {
        let rest = slice_of(key, p.len(), key.len());
        assert(rest@ =~= key@.skip(p@.len() as int));
        Some(rest)
    } else {
        None
    }
}

/// The parse so far.
struct FdDraft {
    driver: String,
    id: Option<u64>,
    pdev: Option<String>,
    engine_ns: TextMap<u64>,
    cycles: TextMap<(u64, u64)>,
    memory: TextMap<u64>,
    resident: TextMap<u64>,
}

impl FdDraft {
    spec fn wf(&self) -> bool {
        self.engine_ns.wf() && self.cycles.wf() && self.memory.wf() && self.resident.wf()
    }

    spec fn model(&self) -> FdModel {
        FdModel {
            driver: self.driver@,
            id: self.id,
            pdev: opt_text(self.pdev),
            engine_ns: self.engine_ns@,
            cycles: self.cycles@,
            memory: self.memory@,
            resident: self.resident@,
        }
    }

    fn cycles_of(&self, name: &String) -> (r: (u64, u64))
        requires
            self.wf(),
        ensures
            r == cycles_at(self.cycles@, name@),
    {
        match self.cycles.get(name) {
            Some(v) => *v,
            None => (0, 0),
        }
    }

    /// Takes one line; `false` where it voids the text.
    fn take(&mut self, line: &Vec<char>) -> (ok: bool)
        requires
            old(self).wf(),
        ensures
            final(self).wf(),
            match with_line(old(self).model(), line@) {
                Some(m) => ok && final(self).model() == m,
                None => !ok,
            },
    {
        let at: usize = match find_char(line, ':') {
            Some(i) => i,
            None => {
                return true;
            },
        };
        let n: usize = line.len();
        assert(at < n);
        proof {
            lemma_head_until(line@, ':', at as int);
        }
        assert(line@.contains(':'));
        let key = slice_of(line, 0, at);
        assert(key@ =~= head_until(line@, ':'));
        let tail = slice_of(line, at + 1, n);
        assert(tail@ =~= line@.skip(key@.len() as int + 1));
        let value = trim_chars(&tail);
        if same_chars(&key, &chars_of("drm-driver")) {
            self.driver = string_of(&value);
        } else if same_chars(&key, &chars_of("drm-client-id")) {
            match parse_number(&value, u64::MAX) {
                Some(n) => {
                    self.id = Some(n);
                },
                None => {
                    return false;
                },
            }
        } else if same_chars(&key, &chars_of("drm-pdev")) {
            self.pdev = Some(string_of(&value));
        } else if let Some(name) = after_prefix(&key, "drm-engine-") {
            if !stands_at(&name, &chars_of("capacity"), 0) {
                self.engine_ns.insert(string_of(&name), parse_ns_chars(&value));
            }
        } else if let Some(name) = after_prefix(&key, "drm-total-cycles-") {
            let name = string_of(&name);
            let (cyc, _) = self.cycles_of(&name);
            self.cycles.insert(name, (cyc, parse_ns_chars(&value)));
        } else if let Some(name) = after_prefix(&key, "drm-cycles-") {
            let name = string_of(&name);
            let (_, total) = self.cycles_of(&name);
            self.cycles.insert(name, (parse_ns_chars(&value), total));
        } else if let Some(region) = after_prefix(&key, "drm-memory-") {
            self.memory.insert(string_of(&region), parse_size_chars(&value));
        } else if let Some(region) = after_prefix(&key, "drm-resident-") {
            self.resident.insert(string_of(&region), parse_size_chars(&value));
        }
        true
    }
}

/// Parses a DRM fdinfo text; nothing where it is not a DRM client's.
pub fn parse_fdinfo(info: &str) -> (r: Option<FdClient>)
    ensures
        match r {
            Some(c) => with_lines(lines(info@)) matches Some(m) && m.id is Some && m.driver.len()
                > 0 && is_client(c, m),
            None => with_lines(lines(info@)) matches Some(m) ==> m.id is None || m.driver.len()
                == 0,
        },
{
    let rows = lines_of(&chars_of(info));
    let ghost all = texts(rows@);
    let mut d = FdDraft {
        driver: String::new(),
        id: None,
        pdev: None,
        engine_ns: TextMap::new(),
        cycles: TextMap::new(),
        memory: TextMap::new(),
        resident: TextMap::new(),
    };
    let mut i: usize = 0;
    assert(all.take(0) =~= Seq::<Seq<char>>::empty());
    while i < rows.len()
        invariant
            i <= rows.len(),
            all == texts(rows@),
            all == lines(info@),
            d.wf(),
            with_lines(all.take(i as int)) == Some(d.model()),
        decreases rows.len() - i,
    {
        let ghost m = d.model();
        assert(all.take(i + 1).drop_last() =~= all.take(i as int));
        assert(all.take(i + 1).last() == rows@[i as int]@);
        if !d.take(&rows[i]) {
            proof {
                assert(with_lines(all.take(i + 1)) is None);
                lemma_void_stays(all, i + 1);
            }
            return None;
        }
        i = i + 1;
    }
    assert(all.take(i as int) =~= all);
    let ghost m = d.model();
    let mut j: usize = 0;
    proof {
        d.resident.lemma_listed();
    }
    let held: usize = d.resident.len();
    let ghost names = d.resident.listed();
    assert(m.memory =~= m.resident.restrict(names.take(0).to_set()).union_prefer_right(m.memory));
    let mut memory = d.memory;
    while j < held
        invariant
            j <= held,
            held == names.len(),
            d.resident.wf(),
            names == d.resident.listed(),
            names.no_duplicates(),
            names.to_set() == m.resident.dom(),
            m.resident == d.resident@,
            memory.wf(),
            memory@ == m.resident.restrict(names.take(j as int).to_set()).union_prefer_right(m.memory),
        decreases held - j,
    {
        let region = d.resident.key_at(j);
        let bytes: u64 = *d.resident.value_at(j);
        let ghost k = region@;
        proof {
            assert(names.take(j + 1) =~= names.take(j as int).push(k));
            assert(names.to_set().contains(k)) by {
                assert(names[j as int] == k);
            }
            assert forall|x: Seq<char>| names.take(j + 1).to_set().contains(x) <==> (names.take(j as int).to_set().contains(x) || x == k) by {
                if names.take(j as int).contains(x) {
                    let w = choose|w: int| 0 <= w < j && names.take(j as int)[w] == x;
                    assert(names.take(j + 1)[w] == x);
                }
                if x == k {
                    assert(names.take(j + 1)[j as int] == x);
                }
            }
            if names.take(j as int).contains(k) {
                let w = choose|w: int| 0 <= w < j && names.take(j as int)[w] == k;
                assert(names[w] == names[j as int]);
            }
        }
        let ghost was = memory@;
        if !memory.contains(region) {
            memory.insert(region.clone(), bytes);
        }
        assert(memory@ =~= m.resident.restrict(names.take(j + 1).to_set()).union_prefer_right(m.memory));
        j = j + 1;
    }
    proof {
        assert(names.take(j as int) =~= names);
        assert(m.resident.restrict(names.to_set()) =~= m.resident);
    }
    match d.id {
        Some(id) => if d.driver.as_str().is_empty() {
            None
        } else {
            Some(
                FdClient {
                    driver: d.driver,
                    id,
                    pdev: d.pdev,
                    engine_ns: d.engine_ns,
                    cycles: d.cycles,
                    memory,
                },
            )
        },
        None => None,
    }
}

proof fn lemma_void_stays(rows: Seq<Seq<char>>, n: int)
    requires
        0 <= n <= rows.len(),
        with_lines(rows.take(n)) is None,
    ensures
        with_lines(rows) is None,
    decreases rows.len() - n,
{
    if n < rows.len() {
        assert(rows.take(n + 1).drop_last() =~= rows.take(n));
        lemma_void_stays(rows, n + 1);
    } else {
        assert(rows.take(n) =~= rows);
    }
}

/// The device major that a Linux device number carries: bits 8 to 19 are its
/// low part, the bits from 44 up its high part.
pub fn linux_major(rdev: u64) -> (m: u64)
    ensures
        m == major_of(rdev),
{
    assert((((rdev >> 8) & 0xfff) | ((rdev >> 32) & 0xffff_ffff_ffff_f000)) == (rdev / 0x100)
        % 0x1000 + (rdev / 0x1000_0000_0000) * 0x1000) by (bit_vector);
    ((rdev >> 8) & 0xfff) | ((rdev >> 32) & 0xffff_ffff_ffff_f000)
}

// ---------------------------------------------------------------- totals

proof fn lemma_total_of_prefix(names: Seq<Seq<char>>, m: Map<Seq<char>, u64>, i: int)
    requires
        0 <= i <= names.len(),
    ensures
        total_of(names.take(i), m) <= total_of(names, m),
    decreases names.len() - i,
{
    if i < names.len() {
        lemma_total_of_prefix(names, m, i + 1);
        assert(names.take(i + 1).drop_last() =~= names.take(i));
    } else {
        assert(names.take(i) =~= names);
    }
}

/// The sum of all figures of a map, where it fits.
pub fn sum_values(m: &TextMap<u64>) -> (r: Option<u64>)
    requires
        m.wf(),
    ensures
        r == (if total_of(m.listed(), m@) <= u64::MAX {
            Some(total_of(m.listed(), m@) as u64)
        } else {
            None
        }),
{
    let ghost names = m.listed();
    let n: usize = m.len();
    let mut sum: u64 = 0;
    let mut i: usize = 0;
    assert(names.take(0) =~= Seq::<Seq<char>>::empty());
    while i < n
        invariant
            i <= n,
            n == names.len(),
            names == m.listed(),
            m.wf(),
            sum == total_of(names.take(i as int), m@),
        decreases n - i,
    {
        let v: u64 = *m.value_at(i);
        assert(names.take(i + 1).drop_last() =~= names.take(i as int));
        if sum > u64::MAX - v {
            proof {
                lemma_total_of_prefix(names, m@, i + 1);
            }
            return None;
        }
        sum = sum + v;
        i = i + 1;
    }
    assert(names.take(i as int) =~= names);
    Some(sum)
}

impl FdClient {
    /// Whether the busy times of all engines add up within a `u64`.
    pub fn busy_fits(&self) -> (b: bool)
        requires
            self.wf(),
        ensures
            b == (self.all_busy_ns() <= u64::MAX),
    {
        sum_values(&self.engine_ns).is_some()
    }

    /// Total busy time across all engines.
    pub fn total_engine_ns(&self) -> (n: u64)
        requires
            self.wf(),
            self.all_busy_ns() <= u64::MAX,
        ensures
            n == self.all_busy_ns(),
    {
        match sum_values(&self.engine_ns) {
            Some(n) => n,
            None => 0,
        }
    }

    /// Busy time summed over the engines whose name `pred` accepts.
    pub fn engine_ns_where<F: Fn(&str) -> bool>(&self, pred: F) -> (n: u64)
        requires
            self.wf(),
            self.all_busy_ns() <= u64::MAX,
            forall|s: &str| call_requires(pred, (s,)),
        ensures
            forall|p: spec_fn(Seq<char>) -> bool|
                (forall|s: &str, b: bool| call_ensures(pred, (s,), b) ==> b == p(s@)) ==> n
                    == #[trigger] self.busy_ns(p),
    {
        let ghost names = self.engine_ns.listed();
        let ghost map = self.engine_ns@;
        let count: usize = self.engine_ns.len();
        let mut sum: u64 = 0;
        let mut i: usize = 0;
        let ghost mut kept = Seq::<bool>::empty();
        assert(kept_total(names.take(0), kept, map) == 0);
        while i < count
            invariant
                i <= count,
                count == names.len(),
                names == self.engine_ns.listed(),
                map == self.engine_ns@,
                self.wf(),
                self.all_busy_ns() <= u64::MAX,
                forall|s: &str| call_requires(pred, (s,)),
                kept.len() == i,
                sum == kept_total(names.take(i as int), kept, map),
                sum <= total_of(names.take(i as int), map),
                forall|k: int| 0 <= k < i ==> #[trigger] answers(pred, names[k], kept[k]),
            decreases count - i,
        {
            let v: u64 = *self.engine_ns.value_at(i);
            let name = self.engine_ns.key_at(i);
            let s: &str = name.as_str();
            let keep = pred(s);
            proof {
                lemma_total_of_prefix(names, map, i + 1);
                assert(names.take(i + 1).drop_last() =~= names.take(i as int));
                let was = kept;
                kept = kept.push(keep);
                assert(kept.drop_last() =~= was);
                assert forall|k: int| 0 <= k < i + 1 implies #[trigger] answers(pred, names[k], kept[k]) by {
                    if k < i {
                        assert(answers(pred, names[k], was[k]));
                    } else {
                        assert(call_ensures(pred, (s,), kept[k]));
                    }
                }
            }
            if keep {
                sum = sum + v;
            }
            i = i + 1;
        }
        proof {
            assert(names.take(i as int) =~= names);
            assert forall|p: spec_fn(Seq<char>) -> bool|
                (forall|s: &str, b: bool| call_ensures(pred, (s,), b) ==> b == p(s@)) implies sum
                    == #[trigger] self.busy_ns(p) by {
                assert forall|k: int| 0 <= k < names.len() implies kept[k] == p(names[k]) by {
                    assert(answers(pred, names[k], kept[k]));
                }
                lemma_kept_total(names, kept, p, map);
            }
        }
        sum
    }

    /// Whether the client holds an engine whose name `pred` accepts.
    pub fn any_engine<F: Fn(&str) -> bool>(&self, pred: F) -> (b: bool)
        requires
            self.wf(),
            forall|s: &str| call_requires(pred, (s,)),
        ensures
            forall|p: spec_fn(Seq<char>) -> bool|
                (forall|s: &str, c: bool| call_ensures(pred, (s,), c) ==> c == p(s@)) ==> b
                    == #[trigger] self.has_engine(p),
    {
        any_key(&self.engine_ns, pred)
    }
}

/// Whether `m` holds a key that `pred` accepts.
pub fn any_key<V, F: Fn(&str) -> bool>(m: &TextMap<V>, pred: F) -> (b: bool)
    requires
        m.wf(),
        forall|s: &str| call_requires(pred, (s,)),
    ensures
        forall|p: spec_fn(Seq<char>) -> bool|
            #![trigger holds_key(m@, p)]
            (forall|s: &str, c: bool| call_ensures(pred, (s,), c) ==> c == p(s@)) ==> b
                == holds_key(m@, p),
{
    let ghost names = m.listed();
    let count: usize = m.len();
    let mut i: usize = 0;
    proof {
        m.lemma_listed();
    }
    while i < count
        invariant
            i <= count,
            count == names.len(),
            names == m.listed(),
            m.wf(),
            forall|s: &str| call_requires(pred, (s,)),
            forall|k: Seq<char>| m@.dom().contains(k) <==> #[trigger] names.contains(k),
            forall|k: int| 0 <= k < i ==> #[trigger] answers(pred, names[k], false),
        decreases count - i,
    {
        let name = m.key_at(i);
        let s: &str = name.as_str();
        if pred(s) {
            proof {
                assert forall|p: spec_fn(Seq<char>) -> bool|
                    #![trigger holds_key(m@, p)]
                    (forall|s: &str, c: bool| call_ensures(pred, (s,), c) ==> c == p(s@)) implies holds_key(m@, p) by {
                    assert(call_ensures(pred, (s,), true));
                    assert(names[i as int] == s@);
                    assert(names.contains(s@));
                    assert(m@.dom().contains(s@));
                }
            }
            return true;
        }
        assert(call_ensures(pred, (s,), false));
        assert(answers(pred, names[i as int], false));
        i = i + 1;
    }
    proof {
        assert forall|p: spec_fn(Seq<char>) -> bool|
            #![trigger holds_key(m@, p)]
            (forall|s: &str, c: bool| call_ensures(pred, (s,), c) ==> c == p(s@)) implies !holds_key(m@, p) by {
            if holds_key(m@, p) {
                let k = choose|k: Seq<char>| #[trigger] m@.dom().contains(k) && p(k);
                assert(names.contains(k));
                let w = choose|w: int| 0 <= w < names.len() && names[w] == k;
                assert(answers(pred, names[w], false));
            }
        }
    }
    false
}

/// `pred` may answer `b` on the text `name`.
spec fn answers<F: Fn(&str) -> bool>(pred: F, name: Seq<char>, b: bool) -> bool {
    exists|s: &str| s@ == name && #[trigger] call_ensures(pred, (s,), b)
}

/// `m` holds a key that `p` accepts.
pub open spec fn holds_key<V>(m: Map<Seq<char>, V>, p: spec_fn(Seq<char>) -> bool) -> bool {
    exists|k: Seq<char>| #[trigger] m.dom().contains(k) && p(k)
}

spec fn kept_total(names: Seq<Seq<char>>, kept: Seq<bool>, m: Map<Seq<char>, u64>) -> nat
    decreases names.len(),
{
    if names.len() == 0 {
        0
    } else {
        kept_total(names.drop_last(), kept.drop_last(), m) + (if kept.last() {
            m[names.last()] as nat
        } else {
            0
        })
    }
}

proof fn lemma_kept_total(
    names: Seq<Seq<char>>,
    kept: Seq<bool>,
    p: spec_fn(Seq<char>) -> bool,
    m: Map<Seq<char>, u64>,
)
    requires
        kept.len() == names.len(),
        forall|k: int| 0 <= k < names.len() ==> kept[k] == p(names[k]),
    ensures
        kept_total(names, kept, m) == total_of(names.filter(p), m),
    decreases names.len(),
{
    reveal(Seq::filter);
    if names.len() > 0 {
        lemma_kept_total(names.drop_last(), kept.drop_last(), p, m);
        let head = names.drop_last().filter(p);
        if p(names.last()) {
            assert(head.push(names.last()).drop_last() =~= head);
        }
    }
}

// ---------------------------------------------------------------- laws

/// A line of the text.
pub open spec fn line_of(key: Seq<char>, value: Seq<char>) -> Seq<char> {
    key + seq![':'] + value
}

proof fn lemma_line_of(key: Seq<char>, value: Seq<char>)
    requires
        !key.contains(':'),
    ensures
        line_of(key, value).contains(':'),
        head_until(line_of(key, value), ':') == key,
        line_of(key, value).skip(key.len() as int + 1) == value,
{
    let line = line_of(key, value);
    assert(line[key.len() as int] == ':');
    a_mark_ends_the_head(key, value, ':');
    assert(line.skip(key.len() as int + 1) =~= value);
}

proof fn lemma_prefix_chars(s: Seq<char>, p: Seq<char>)
    requires
        has_prefix(s, p),
    ensures
        s.len() >= p.len(),
        forall|i: int| 0 <= i < p.len() ==> s[i] == p[i],
{
    assert forall|i: int| 0 <= i < p.len() implies s[i] == p[i] by {
        assert(s.subrange(0, p.len() as int)[i] == s[i]);
    }
}

/// The fifth and sixth characters tell the keys apart.
proof fn lemma_keys()
    ensures
        "drm-driver"@.len() == 10 && "drm-driver"@[4] == 'd',
        "drm-client-id"@.len() == 13 && "drm-client-id"@[4] == 'c' && "drm-client-id"@[5] == 'l',
        "drm-pdev"@.len() == 8 && "drm-pdev"@[4] == 'p',
        "drm-engine-"@.len() == 11 && "drm-engine-"@[4] == 'e',
        "drm-total-cycles-"@.len() == 17 && "drm-total-cycles-"@[4] == 't',
        "drm-cycles-"@.len() == 11 && "drm-cycles-"@[4] == 'c' && "drm-cycles-"@[5] == 'y',
        "drm-memory-"@.len() == 11 && "drm-memory-"@[4] == 'm',
        "drm-resident-"@.len() == 13 && "drm-resident-"@[4] == 'r',
        !"drm-driver"@.contains(':') && !"drm-client-id"@.contains(':') && !"drm-pdev"@.contains(
            ':',
        ),
        !"drm-engine-"@.contains(':') && !"drm-total-cycles-"@.contains(':')
            && !"drm-cycles-"@.contains(':'),
        !"drm-memory-"@.contains(':') && !"drm-resident-"@.contains(':'),
{
    reveal_strlit("drm-driver");
    reveal_strlit("drm-client-id");
    reveal_strlit("drm-pdev");
    reveal_strlit("drm-engine-");
    reveal_strlit("drm-total-cycles-");
    reveal_strlit("drm-cycles-");
    reveal_strlit("drm-memory-");
    reveal_strlit("drm-resident-");
}

/// `key` starts with none of the other prefixes and is none of the other keys.
proof fn lemma_only(prefix: Seq<char>, name: Seq<char>)
    requires
        !name.contains(':'),
        prefix == "drm-engine-"@ || prefix == "drm-total-cycles-"@ || prefix == "drm-cycles-"@
            || prefix == "drm-memory-"@ || prefix == "drm-resident-"@,
    ensures
        ({
            let key = prefix + name;
            &&& !key.contains(':')
            &&& has_prefix(key, prefix)
            &&& key.skip(prefix.len() as int) == name
            &&& key != "drm-driver"@
            &&& key != "drm-client-id"@
            &&& key != "drm-pdev"@
            &&& prefix != "drm-engine-"@ ==> !has_prefix(key, "drm-engine-"@)
            &&& prefix != "drm-total-cycles-"@ ==> !has_prefix(key, "drm-total-cycles-"@)
            &&& prefix != "drm-cycles-"@ ==> !has_prefix(key, "drm-cycles-"@)
            &&& prefix != "drm-memory-"@ ==> !has_prefix(key, "drm-memory-"@)
            &&& prefix != "drm-resident-"@ ==> !has_prefix(key, "drm-resident-"@)
        }),
{
    lemma_keys();
    let key = prefix + name;
    a_text_is_found_where_it_stands(Seq::empty(), prefix, name);
    assert(key.skip(prefix.len() as int) =~= name);
    assert(key[4] == prefix[4] && key[5] == prefix[5]);
    if key.contains(':') {
        let w = choose|w: int| 0 <= w < key.len() && key[w] == ':';
        if w < prefix.len() {
            assert(prefix[w] == ':');
            assert(prefix.contains(':'));
        } else {
            assert(name[w - prefix.len()] == ':');
        }
    }
    if has_prefix(key, "drm-engine-"@) {
        lemma_prefix_chars(key, "drm-engine-"@);
    }
    if has_prefix(key, "drm-total-cycles-"@) {
        lemma_prefix_chars(key, "drm-total-cycles-"@);
    }
    if has_prefix(key, "drm-cycles-"@) {
        lemma_prefix_chars(key, "drm-cycles-"@);
    }
    if has_prefix(key, "drm-memory-"@) {
        lemma_prefix_chars(key, "drm-memory-"@);
    }
    if has_prefix(key, "drm-resident-"@) {
        lemma_prefix_chars(key, "drm-resident-"@);
    }
}

/// A line about an engine gives the busy time of that engine and says nothing
/// else; one about its capacity says nothing at all.
pub proof fn an_engine_line_gives_its_busy_time(m: FdModel, name: Seq<char>, value: Seq<char>)
    requires
        !name.contains(':'),
    ensures
        ({
            let after = with_line(m, line_of("drm-engine-"@ + name, value));
            &&& has_prefix(name, "capacity"@) ==> after == Some(m)
            &&& !has_prefix(name, "capacity"@) ==> (after matches Some(n) && n == (FdModel {
                engine_ns: n.engine_ns,
                ..m
            }) && n.engine_ns == m.engine_ns.insert(name, ns_of(trim(value))))
        }),
{
    lemma_only("drm-engine-"@, name);
    lemma_line_of("drm-engine-"@ + name, value);
}

/// The two cycle counters of an engine are read from their own lines, whichever
/// comes first, and say nothing of other engines.
pub proof fn cycle_lines_give_either_counter(
    m: FdModel,
    name: Seq<char>,
    busy: Seq<char>,
    total: Seq<char>,
)
    requires
        !name.contains(':'),
    ensures
        ({
            let b = line_of("drm-cycles-"@ + name, busy);
            let t = line_of("drm-total-cycles-"@ + name, total);
            let both = FdModel {
                cycles: m.cycles.insert(name, (ns_of(trim(busy)), ns_of(trim(total)))),
                ..m
            };
            &&& with_line(m, b) is Some && with_line(m, t) is Some
            &&& with_line(with_line(m, b)->0, t) == Some(both)
            &&& with_line(with_line(m, t)->0, b) == Some(both)
        }),
{
    lemma_only("drm-cycles-"@, name);
    lemma_only("drm-total-cycles-"@, name);
    lemma_line_of("drm-cycles-"@ + name, busy);
    lemma_line_of("drm-total-cycles-"@ + name, total);
    let both = m.cycles.insert(name, (ns_of(trim(busy)), ns_of(trim(total))));
    let b = line_of("drm-cycles-"@ + name, busy);
    let t = line_of("drm-total-cycles-"@ + name, total);
    lemma_keys();
    assert(with_line(with_line(m, b)->0, t)->0.cycles =~= both);
    assert(with_line(with_line(m, t)->0, b)->0.cycles =~= both);
}

/// A line about a memory region gives the bytes of that region, outright or as
/// resident, and says nothing else.
pub proof fn a_memory_line_gives_its_bytes(m: FdModel, name: Seq<char>, value: Seq<char>)
    requires
        !name.contains(':'),
    ensures
        with_line(m, line_of("drm-memory-"@ + name, value)) == Some(
            (FdModel { memory: m.memory.insert(name, size_of_value(trim(value))), ..m }),
        ),
        with_line(m, line_of("drm-resident-"@ + name, value)) == Some(
            (FdModel { resident: m.resident.insert(name, size_of_value(trim(value))), ..m }),
        ),
{
    lemma_keys();
    lemma_only("drm-memory-"@, name);
    lemma_only("drm-resident-"@, name);
    lemma_line_of("drm-memory-"@ + name, value);
    lemma_line_of("drm-resident-"@ + name, value);
}

/// The client's driver, number and address are each read from their own line; a
/// number that is none voids the text; and a line without a colon says nothing.
pub proof fn identity_lines_give_the_client(m: FdModel, value: Seq<char>, n: u64)
    ensures
        with_line(m, line_of("drm-driver"@, value)) == Some(
            (FdModel { driver: trim(value), ..m }),
        ),
        with_line(m, line_of("drm-pdev"@, value)) == Some(
            (FdModel { pdev: Some(trim(value)), ..m }),
        ),
        with_line(m, line_of("drm-client-id"@, decimal(n as nat))) == Some(
            (FdModel { id: Some(n), ..m }),
        ),
        trim(value).len() == 0 ==> with_line(m, line_of("drm-client-id"@, value)) is None,
        !value.contains(':') ==> with_line(m, value) == Some(m),
{
    lemma_keys();
    lemma_line_of("drm-driver"@, value);
    lemma_line_of("drm-pdev"@, value);
    lemma_line_of("drm-client-id"@, value);
    lemma_line_of("drm-client-id"@, decimal(n as nat));
    decimal_reads_back(n as nat);
    let d = decimal(n as nat);
    assert forall|i: int| 0 <= i < d.len() implies !is_space(#[trigger] d[i]) by {
        assert(is_digit(d[i]));
    }
    trimming_takes_off_both_ends(Seq::empty(), d, Seq::empty());
    numbers_are_read_from_digits(trim(value), n as nat, u64::MAX as nat);
}

/// A region named outright holds what was said outright, one named as resident
/// alone what was said there; a region that no line names is not held.
pub proof fn memory_named_outright_wins(c: FdClient, m: FdModel, region: Seq<char>)
    requires
        is_client(c, m),
    ensures
        m.memory.dom().contains(region) ==> c.memory@.dom().contains(region) && c.memory@[region]
            == m.memory[region],
        !m.memory.dom().contains(region) && m.resident.dom().contains(region)
            ==> c.memory@.dom().contains(region) && c.memory@[region] == m.resident[region],
        c.memory@.dom().contains(region) ==> m.memory.dom().contains(region)
            || m.resident.dom().contains(region),
{
}

/// A size is a number and its unit: bare it is bytes, and each unit is a
/// thousand and twenty-four of the one below it, up to what can be held.
pub proof fn sizes_scale_with_their_unit(n: u64)
    ensures
        size_of_value(decimal(n as nat)) == n,
        0x400 * n <= u64::MAX ==> size_of_value(decimal(n as nat).push(' ') + "KiB"@) == 0x400 * n,
        0x400 * n <= u64::MAX ==> size_of_value(decimal(n as nat).push(' ') + "MiB"@)
            == size_of_value(decimal((0x400 * n) as nat).push(' ') + "KiB"@),
        0x400 * n <= u64::MAX ==> size_of_value(decimal(n as nat).push(' ') + "GiB"@)
            == size_of_value(decimal((0x400 * n) as nat).push(' ') + "MiB"@),
        0x400 * n > u64::MAX ==> size_of_value(decimal(n as nat).push(' ') + "KiB"@) == u64::MAX,
        ns_of(decimal(n as nat)) == n,
        ns_of(decimal(n as nat).push(' ') + "ns"@) == n,
{
    reveal_strlit("KiB");
    reveal_strlit("MiB");
    reveal_strlit("GiB");
    reveal_strlit("ns");
    assert("KiB"@[0] == 'K' && "MiB"@[0] == 'M' && "GiB"@[0] == 'G');
    lemma_two_words(n as nat, "KiB"@);
    lemma_two_words(n as nat, "MiB"@);
    lemma_two_words(n as nat, "GiB"@);
    lemma_two_words(n as nat, "ns"@);
    numbers_are_read_from_digits(Seq::empty(), n as nat, u64::MAX as nat);
    if 0x400 * n <= u64::MAX {
        let k = (0x400 * n) as nat;
        lemma_two_words(k, "KiB"@);
        lemma_two_words(k, "MiB"@);
        numbers_are_read_from_digits(Seq::empty(), k, u64::MAX as nat);
    }
}

proof fn lemma_two_words(n: nat, unit: Seq<char>)
    requires
        unit.len() > 0,
        forall|i: int| 0 <= i < unit.len() ==> !is_space(#[trigger] unit[i]),
    ensures
        words(decimal(n)) == seq![decimal(n)],
        words(decimal(n).push(' ') + unit) == seq![decimal(n), unit],
{
    let d = decimal(n);
    decimal_reads_back(n);
    assert forall|i: int| 0 <= i < d.len() implies !is_space(#[trigger] d[i]) by {
        assert(is_digit(d[i]));
    }
    a_blank_ends_a_word(Seq::empty(), ' ', d);
    a_blank_ends_a_word(d, ' ', unit);
    assert(seq![d].push(unit) =~= seq![d, unit]);
}

/// A sum over names is the sum over any two parts of them, and over one name
/// that name's figure.
pub proof fn sums_add_up(a: Seq<Seq<char>>, b: Seq<Seq<char>>, k: Seq<char>, m: Map<Seq<char>, u64>)
    ensures
        total_of(a + b, m) == total_of(a, m) + total_of(b, m),
        total_of(seq![k], m) == m[k],
    decreases b.len(),
{
    assert(seq![k].drop_last() =~= Seq::<Seq<char>>::empty());
    assert(total_of(seq![k].drop_last(), m) == 0);
    if b.len() > 0 {
        sums_add_up(a, b.drop_last(), k, m);
        assert((a + b).drop_last() =~= a + b.drop_last());
    } else {
        assert(a + b =~= a);
    }
}

/// The busy time of some engines and that of all others is the busy time of
/// all.
pub proof fn busy_times_add_up(c: FdClient, p: spec_fn(Seq<char>) -> bool)
    ensures
        c.busy_ns(p) + c.busy_ns(|s: Seq<char>| !p(s)) == c.all_busy_ns(),
{
    lemma_parts(c.engine_ns.listed(), p, c.engine_ns@);
}

proof fn lemma_parts(names: Seq<Seq<char>>, p: spec_fn(Seq<char>) -> bool, m: Map<Seq<char>, u64>)
    ensures
        total_of(names.filter(p), m) + total_of(names.filter(|s: Seq<char>| !p(s)), m) == total_of(
            names,
            m,
        ),
    decreases names.len(),
{
    reveal(Seq::filter);
    let q = |s: Seq<char>| !p(s);
    if names.len() > 0 {
        let init = names.drop_last();
        lemma_parts(init, p, m);
        let a = init.filter(p);
        let b = init.filter(q);
        assert(a.push(names.last()).drop_last() =~= a);
        assert(b.push(names.last()).drop_last() =~= b);
    }
}

/// The major number in a device number.
pub open spec fn major_of(rdev: u64) -> int {
    (rdev / 0x100) % 0x1000 + (rdev / 0x1000_0000_0000) * 0x1000
}

/// A device number packs a major and a minor number, the low bits of each below
/// the high ones, and the major one comes out whatever the minor is.
pub proof fn a_major_number_is_unpacked(major: u32, minor: u32)
    requires
        major < 0x1000_0000,
    ensures
        major_of(
            (minor as int % 0x100 + (major as int % 0x1000) * 0x100 + (minor as int / 0x100)
                * 0x10_0000 + (major as int / 0x1000) * 0x1000_0000_0000) as u64,
        ) == major,
{
    let lo = major as int % 0x1000;
    let hi = major as int / 0x1000;
    let a = minor as int % 0x100;
    let b = minor as int / 0x100;
    let v = a + lo * 0x100 + b * 0x10_0000 + hi * 0x1000_0000_0000;
    assert(0 <= b < 0x100_0000);
    assert(0 <= hi < 0x1_0000);
    assert(v / 0x100 == lo + b * 0x1000 + hi * 0x10_0000_0000);
    assert((lo + b * 0x1000 + hi * 0x10_0000_0000) % 0x1000 == lo);
    assert(v / 0x1000_0000_0000 == hi);
}

} // verus!
