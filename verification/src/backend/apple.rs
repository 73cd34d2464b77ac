//! Apple accelerators: what the registry's properties say, once they are plain
//! values.
use vstd::prelude::*;
use crate::backend::opt_text;
use crate::backend::raw::{nothing_read, Figure, RawSnapshot};
use crate::order::{is_sorted_order, sorted_order, Key4, sorting_puts_the_lower_first};
use crate::text::{chars_of, decimal, decimal_text, has_prefix, join, join_texts, occurs_at, same_text, slice_of, stands_at, starts_with, string_of, string_texts, trim, trim_chars, a_text_is_found_where_it_stands, contains_text};

verus! {

/// One accelerator's properties; an absent one is nothing, not zero.
#[derive(Debug)]
pub struct RawAccel {
    pub io_class: Option<String>,
    pub util_pct: Option<i64>,
    pub vram_used_bytes: Option<i64>,
    /// Discrete cards only.
    pub vram_total_mb: Option<i64>,
    pub core_count: Option<i64>,
    /// Bundle id of the driver that matched.
    pub bundle_id: Option<String>,
}

impl Default for RawAccel {
    fn default() -> (a: Self)
        ensures
            a == (RawAccel {
                io_class: None,
                util_pct: None,
                vram_used_bytes: None,
                vram_total_mb: None,
                core_count: None,
                bundle_id: None,
            }),
    {
        RawAccel {
            io_class: None,
            util_pct: None,
            vram_used_bytes: None,
            vram_total_mb: None,
            core_count: None,
            bundle_id: None,
        }
    }
}

pub open spec fn agx(io_class: Option<Seq<char>>) -> bool {
    io_class matches Some(c) && has_prefix(c, "AGX"@)
}

/// Apple Silicon: unified memory, and the name comes from the chip.
pub fn is_agx(io_class: Option<&str>) -> (b: bool)
    ensures
        b == agx(
            match io_class {
                Some(c) => Some(c@),
                None => None,
            },
        ),
{
    match io_class {
        Some(c) => starts_with(c, "AGX"),
        None => false,
    }
}

/// The name of an accelerator: the chip and its core count, or its class.
pub open spec fn accel_name(a: RawAccel, cpu_brand: Option<Seq<char>>) -> Seq<char> {
    if agx(opt_text(a.io_class)) {
        let soc = match cpu_brand {
            Some(b) => b,
            None => "Apple GPU"@,
        };
        match a.core_count {
            Some(n) => if n > 0 {
                soc + " ("@ + decimal(n as nat) + "-core GPU)"@
            } else {
                soc
            },
            None => soc,
        }
    } else {
        match opt_text(a.io_class) {
            Some(c) => c,
            None => "GPU"@,
        }
    }
}

/// The pool: the card's own memory where it says how much, else the system's.
pub open spec fn pool_bytes(a: RawAccel, system_mem: u64) -> u64 {
    match a.vram_total_mb {
        Some(mb) => if mb > 0 {
            if mb * 1048576 > u64::MAX {
                u64::MAX
            } else {
                (mb * 1048576) as u64
            }
        } else {
            system_mem
        },
        None => system_mem,
    }
}

/// A count of which a negative or an absent one is zero.
pub open spec fn at_least_zero(v: Option<i64>) -> u64 {
    match v {
        Some(n) => if n > 0 {
            n as u64
        } else {
            0
        },
        None => 0,
    }
}

fn not_negative(v: Option<i64>) -> (n: u64)
    ensures
        n == at_least_zero(v),
{
    match v {
        Some(n) => if n > 0 {
            n as u64
        } else {
            0
        },
        None => 0,
    }
}

/// `s` is what the properties say of the accelerator.
pub open spec fn is_accel_sample(
    s: RawSnapshot,
    a: RawAccel,
    cpu_brand: Option<Seq<char>>,
    system_mem: u64,
) -> bool {
    &&& s.name@ == accel_name(a, cpu_brand)
    &&& s == (RawSnapshot {
        integrated: agx(opt_text(a.io_class)),
        utilization_pct: Some(
            Figure::Whole(
                if at_least_zero(a.util_pct) > 100 {
                    100
                } else {
                    at_least_zero(a.util_pct)
                },
            ),
        ),
        vram_used_bytes: Some(at_least_zero(a.vram_used_bytes)),
        vram_total_bytes: Some(pool_bytes(a, system_mem)),
        ..nothing_read(s.name, None)
    })
}

/// One reading of an accelerator.
pub fn snapshot(a: &RawAccel, cpu_brand: Option<&str>, system_mem: u64) -> (s: RawSnapshot)
    ensures
        is_accel_sample(s, *a, opt_view(cpu_brand), system_mem),
{
    let apple = match &a.io_class {
        Some(c) => is_agx(Some(c.as_str())),
        None => false,
    };
    let name = if apple {
        let mut n = String::new();
        match cpu_brand {
            Some(b) => {
                n.append(b);
                assert(n@ =~= b@);
            },
            None => {
                n.append("Apple GPU");
                assert(n@ =~= "Apple GPU"@);
            },
        }
        let ghost soc = n@;
        match a.core_count {
            Some(c) => {
                if c > 0 {
                    n.append(" (");
                    let digits = decimal_text(c as u64);
                    n.append(digits.as_str());
                    n.append("-core GPU)");
                    assert(n@ =~= soc + " ("@ + decimal(c as nat) + "-core GPU)"@);
                }
            },
            None => {},
        }
        n
    } else {
        match &a.io_class {
            Some(c) => c.clone(),
            None => "GPU".to_owned(),
        }
    };
    let total: u64 = match a.vram_total_mb {
        Some(mb) => if mb > 0 {
            let m: u64 = mb as u64;
            if m > 17_592_186_044_415 {
                u64::MAX
            } else {
                m * 1_048_576
            }
        } else {
            system_mem
        },
        None => system_mem,
    };
    let util: u64 = not_negative(a.util_pct);
    let mut s = RawSnapshot::nothing(name, None);
    s.integrated = apple;
    s.utilization_pct = Some(
        Figure::Whole(
            if util > 100 {
                100
            } else {
                util
            },
        ),
    );
    s.vram_used_bytes = Some(not_negative(a.vram_used_bytes));
    s.vram_total_bytes = Some(total);
    s
}

// ---------------------------------------------------------------- drivers

/// `s` without `p` at its start, however often it stands there.
pub open spec fn strip_all(s: Seq<char>, p: Seq<char>) -> Seq<char>
    decreases s.len(),
{
    if p.len() > 0 && has_prefix(s, p) {
        strip_all(s.skip(p.len() as int), p)
    } else {
        s
    }
}

pub open spec fn short_kext(id: Seq<char>) -> Seq<char> {
    strip_all(
        strip_all(strip_all(strip_all(trim(id), "com.apple."@), "driver."@), "kext."@),
        "iokit."@,
    )
}

fn strip_repeated(s: &Vec<char>, prefix: &str) -> (out: Vec<char>)
    requires
        prefix@.len() > 0,
    ensures
        out@ == strip_all(s@, prefix@),
{
    let p = chars_of(prefix);
    let step: usize = p.len();
    let n: usize = s.len();
    let mut at: usize = 0;
    assert(s@.skip(0) =~= s@);
    while stands_at(s, &p, at)
        invariant
            at <= n,
            n == s@.len(),
            p@ == prefix@,
            step == p@.len(),
            step > 0,
            strip_all(s@, prefix@) == strip_all(s@.skip(at as int), prefix@),
        decreases n - at,
    {
        proof {
            let rest = s@.skip(at as int);
            assert(occurs_at(s@, p@, at as int));
            assert(rest.take(step as int) =~= s@.subrange(at as int, at + step));
            assert(has_prefix(rest, p@)) by {
                assert(rest.subrange(0, step as int) =~= p@);
            }
            assert(rest.skip(step as int) =~= s@.skip(at + step));
        }
        at = at + step;
    }
    proof {
        let rest = s@.skip(at as int);
        if has_prefix(rest, p@) {
            assert(rest.subrange(0, step as int) =~= s@.subrange(at as int, at + step));
            assert(occurs_at(s@, p@, at as int));
        }
    }
    let out = slice_of(s, at, n);
    assert(out@ =~= s@.skip(at as int));
    out
}

/// "com.apple.kext.AMDRadeonX6000" to "AMDRadeonX6000"; other vendors keep
/// their own prefix.
pub fn kext_short(id: &str) -> (s: String)
    ensures
        s@ == short_kext(id@),
{
    proof {
        reveal_strlit("com.apple.");
        reveal_strlit("driver.");
        reveal_strlit("kext.");
        reveal_strlit("iokit.");
    }
    let a = trim_chars(&chars_of(id));
    let b = strip_repeated(&a, "com.apple.");
    let c = strip_repeated(&b, "driver.");
    let d = strip_repeated(&c, "kext.");
    let e = strip_repeated(&d, "iokit.");
    string_of(&e)
}

/// The distinct driver names, in the order of the accelerators.
pub open spec fn kexts_of(accels: Seq<RawAccel>) -> Seq<Seq<char>>
    decreases accels.len(),
{
    if accels.len() == 0 {
        Seq::empty()
    } else {
        let rest = kexts_of(accels.drop_last());
        match opt_text(accels.last().bundle_id) {
            Some(id) => if short_kext(id).len() > 0 && !rest.contains(short_kext(id)) {
                rest.push(short_kext(id))
            } else {
                rest
            },
            None => rest,
        }
    }
}

/// The operating system's line: its version is the driver's version.
pub open spec fn os_line(product: Option<Seq<char>>, build: Option<Seq<char>>) -> Option<Seq<char>> {
    match (product, build) {
        (Some(p), Some(b)) => Some("macOS "@ + p + " ("@ + b + ")"@),
        (Some(p), None) => Some("macOS "@ + p),
        (None, Some(b)) => Some("macOS build "@ + b),
        (None, None) => None,
    }
}

/// Two parts of a line, whichever there are.
pub open spec fn beside(a: Option<Seq<char>>, b: Option<Seq<char>>) -> Option<Seq<char>> {
    match (a, b) {
        (Some(x), Some(y)) => Some(x + " · "@ + y),
        (Some(x), None) => Some(x),
        (None, y) => y,
    }
}

pub open spec fn opt_view(s: Option<&str>) -> Option<Seq<char>> {
    match s {
        Some(t) => Some(t@),
        None => None,
    }
}

fn os_text(product: Option<&str>, build: Option<&str>) -> (r: Option<String>)
    ensures
        opt_text(r) == os_line(opt_view(product), opt_view(build)),
{
    let mut s = String::new();
    match (product, build) {
        (Some(p), Some(b)) => {
            s.append("macOS ");
            s.append(p);
            s.append(" (");
            s.append(b);
            s.append(")");
            assert(s@ =~= "macOS "@ + p@ + " ("@ + b@ + ")"@);
            Some(s)
        },
        (Some(p), None) => {
            s.append("macOS ");
            s.append(p);
            assert(s@ =~= "macOS "@ + p@);
            Some(s)
        },
        (None, Some(b)) => {
            s.append("macOS build ");
            s.append(b);
            assert(s@ =~= "macOS build "@ + b@);
            Some(s)
        },
        (None, None) => None,
    }
}

fn holds(list: &Vec<String>, s: &str) -> (b: bool)
    ensures
        b == string_texts(list@).contains(s@),
{
    let ghost all = string_texts(list@);
    let mut i: usize = 0;
    while i < list.len()
        invariant
            i <= list.len(),
            all == string_texts(list@),
            forall|k: int| 0 <= k < i ==> #[trigger] all[k] != s@,
        decreases list.len() - i,
    {
        assert(all[i as int] == list@[i as int]@);
        if same_text(list[i].as_str(), s) {
            return true;
        }
        i = i + 1;
    }
    false
}

/// The header line: every distinct driver once, and the system's version; only
/// what is known of the two.
pub fn driver_line(accels: &[RawAccel], product: Option<&str>, build: Option<&str>) -> (r: Option<
    String,
>)
    ensures
        opt_text(r) == beside(
            if kexts_of(accels@).len() == 0 {
                None
            } else {
                Some(join(kexts_of(accels@), "+"@))
            },
            os_line(opt_view(product), opt_view(build)),
        ),
{
    let mut kexts: Vec<String> = Vec::new();
    let mut i: usize = 0;
    assert(string_texts(kexts@) =~= kexts_of(accels@.take(0)));
    while i < accels.len()
        invariant
            i <= accels.len(),
            string_texts(kexts@) == kexts_of(accels@.take(i as int)),
        decreases accels.len() - i,
    {
        assert(accels@.take(i + 1).drop_last() =~= accels@.take(i as int));
        let ghost was = kexts@;
        if let Some(id) = &accels[i].bundle_id {
            let k = kext_short(id.as_str());
            if !k.as_str().is_empty() && !holds(&kexts, k.as_str()) {
                kexts.push(k);
                assert(string_texts(kexts@) =~= string_texts(was).push(short_kext(id@)));
            }
        }
        i = i + 1;
    }
    assert(accels@.take(i as int) =~= accels@);
    let os = os_text(product, build);
    assert(string_texts(kexts@).len() == kexts@.len());
    if kexts.len() == 0 {
        return os;
    }
    let mut line = join_texts(&kexts, "+");
    let ghost names = line@;
    if let Some(o) = &os {
        line.append(" · ");
        line.append(o.as_str());
        assert(line@ =~= names + " · "@ + o@);
    }
    Some(line)
}

// ---------------------------------------------------------------- registry

/// The bytes as a number, the first byte lowest.
pub open spec fn le_value(bytes: Seq<u8>) -> nat
    decreases bytes.len(),
{
    if bytes.len() == 0 {
        0
    } else {
        bytes[0] as nat + 256 * le_value(bytes.skip(1))
    }
}

/// A device-tree blob of one to eight bytes as a little-endian integer, signed
/// at its full width.
pub open spec fn le_of(bytes: Seq<u8>) -> Option<i64> {
    if bytes.len() == 0 || bytes.len() > 8 {
        None
    } else if le_value(bytes) > i64::MAX {
        Some((le_value(bytes) - 0x1_0000_0000_0000_0000) as i64)
    } else {
        Some(le_value(bytes) as i64)
    }
}

proof fn lemma_le_bound(bytes: Seq<u8>)
    requires
        bytes.len() <= 8,
    ensures
        bytes.len() == 0 ==> le_value(bytes) == 0,
        bytes.len() == 1 ==> le_value(bytes) <= 0xff,
        bytes.len() == 2 ==> le_value(bytes) <= 0xffff,
        bytes.len() == 3 ==> le_value(bytes) <= 0xff_ffff,
        bytes.len() == 4 ==> le_value(bytes) <= 0xffff_ffff,
        bytes.len() == 5 ==> le_value(bytes) <= 0xff_ffff_ffff,
        bytes.len() == 6 ==> le_value(bytes) <= 0xffff_ffff_ffff,
        bytes.len() == 7 ==> le_value(bytes) <= 0xff_ffff_ffff_ffff,
        bytes.len() == 8 ==> le_value(bytes) <= 0xffff_ffff_ffff_ffff,
    decreases bytes.len(),
{
    if bytes.len() > 0 {
        lemma_le_bound(bytes.skip(1));
    }
}

pub fn le_int(bytes: &[u8]) -> (r: Option<i64>)
    ensures
        r == le_of(bytes@),
{
    if bytes.len() == 0 || bytes.len() > 8 {
        return None;
    }
    let mut v: u64 = 0;
    let mut i: usize = bytes.len();
    assert(bytes@.skip(i as int) =~= Seq::<u8>::empty());
    while i > 0
        invariant
            i <= bytes@.len() <= 8,
            v == le_value(bytes@.skip(i as int)),
        decreases i,
    {
        proof {
            let next = bytes@.skip(i - 1);
            assert(next.skip(1) =~= bytes@.skip(i as int));
            lemma_le_bound(next);
            lemma_le_bound(bytes@.skip(i as int));
        }
        v = v * 256 + bytes[i - 1] as u64;
        i = i - 1;
    }
    assert(bytes@.skip(0) =~= bytes@);
    if v > i64::MAX as u64 {
        let below: u64 = u64::MAX - v;
        Some(-(below as i64) - 1)
    } else {
        Some(v as i64)
    }
}

pub open spec fn id_keys(ids: Seq<u64>) -> Seq<Key4> {
    ids.map_values(|id: u64| Key4 { a: id as i128, b: 0, c: 0, d: 0 })
}

/// The order in which accelerators are listed: by registry entry id, so that
/// one keeps its place from poll to poll; an entry without an id counts as the
/// largest.
pub fn listing_order(ids: &Vec<u64>) -> (order: Vec<usize>)
    ensures
        is_sorted_order(id_keys(ids@), order@),
{
    let mut keys: Vec<Key4> = Vec::new();
    let mut i: usize = 0;
    while i < ids.len()
        invariant
            i <= ids.len(),
            keys@ == id_keys(ids@).take(i as int),
        decreases ids.len() - i,
    {
        keys.push(Key4 { a: ids[i] as i128, b: 0, c: 0, d: 0 });
        assert(keys@ =~= id_keys(ids@).take(i + 1));
        i = i + 1;
    }
    assert(keys@ =~= id_keys(ids@));
    sorted_order(&keys)
}

// ---------------------------------------------------------------- laws

/// An accelerator shows its load, at most one hundred, and what it uses of its
/// pool: its own memory where it says how much, the system's otherwise.
pub proof fn an_accelerator_reads_as_its_properties_say(
    s: RawSnapshot,
    a: RawAccel,
    cpu_brand: Option<Seq<char>>,
    system_mem: u64,
    n: i64,
)
    requires
        is_accel_sample(s, a, cpu_brand, system_mem),
        n >= 0,
    ensures
        a.util_pct == Some(n) && n <= 100 ==> s.utilization_pct == Some(Figure::Whole(n as u64)),
        a.util_pct == Some(n) && n > 100 ==> s.utilization_pct == Some(Figure::Whole(100)),
        a.vram_used_bytes == Some(n) ==> s.vram_used_bytes == Some(n as u64),
        a.vram_total_mb == Some(n) && 0 < n && n * 1048576 <= u64::MAX ==> (s.vram_total_bytes matches Some(
            t,
        ) && t == n * 1048576),
        a.vram_total_mb is None || a.vram_total_mb == Some(0i64) ==> s.vram_total_bytes == Some(
            system_mem,
        ),
        a.util_pct is None ==> s.utilization_pct == Some(Figure::Whole(0)),
        s.temperature_c is None && s.power_w is None && s.clock_mhz is None && s.device_id is None,
{
}

/// A negative figure counts as none, and one that is not negative as itself.
pub proof fn negative_figures_count_as_none(n: i64)
    ensures
        n >= 0 ==> at_least_zero(Some(n)) == n,
        n < 0 ==> at_least_zero(Some(n)) == 0,
        at_least_zero(None) == 0,
{
}

/// A chip's own accelerator is integrated and goes by the chip, with its cores
/// where they are counted; any other goes by its class.
pub proof fn an_accelerator_goes_by_its_chip_or_class(
    a: RawAccel,
    rest: Seq<char>,
    brand: Seq<char>,
    n: i64,
)
    ensures
        opt_text(a.io_class) == Some("AGX"@ + rest) ==> {
            &&& agx(opt_text(a.io_class))
            &&& has_prefix(accel_name(a, Some(brand)), brand)
            &&& a.core_count is None ==> accel_name(a, Some(brand)) == brand
            &&& a.core_count == Some(n) && n > 0 ==> contains_text(
                accel_name(a, Some(brand)),
                decimal(n as nat),
            )
        },
        opt_text(a.io_class) matches Some(c) ==> (!has_prefix(c, "AGX"@) ==> accel_name(
            a,
            Some(brand),
        ) == c && !agx(Some(c))),
        a.io_class is None ==> accel_name(a, Some(brand)) == "GPU"@ && !agx(None),
{
    let e = Seq::<char>::empty();
    a_text_is_found_where_it_stands(e, "AGX"@, rest);
    a_text_is_found_where_it_stands(e, brand, e);
    assert(brand + e =~= brand);
    let d = decimal(n as nat);
    let tail = " ("@ + d + "-core GPU)"@;
    a_text_is_found_where_it_stands(e, brand, tail);
    assert(brand + tail =~= brand + " ("@ + d + "-core GPU)"@);
    a_text_is_found_where_it_stands(brand + " ("@, d, "-core GPU)"@);
    if let Some(m) = a.core_count {
        let x = decimal(m as nat);
        let t = " ("@ + x + "-core GPU)"@;
        a_text_is_found_where_it_stands(e, brand, t);
        assert(brand + t =~= brand + " ("@ + x + "-core GPU)"@);
    }
}

/// A prefix is taken off as often as it stands at the start, and what has none
/// is left alone.
pub proof fn a_prefix_is_taken_off_as_often_as_it_stands(s: Seq<char>, p: Seq<char>)
    requires
        p.len() > 0,
    ensures
        strip_all(p + s, p) == strip_all(s, p),
        !has_prefix(s, p) ==> strip_all(s, p) == s,
        !has_prefix(strip_all(s, p), p),
    decreases s.len(),
{
    a_text_is_found_where_it_stands(Seq::empty(), p, s);
    assert((p + s).skip(p.len() as int) =~= s);
    if has_prefix(s, p) {
        a_prefix_is_taken_off_as_often_as_it_stands(s.skip(p.len() as int), p);
    }
}

/// Every driver is named once, in its short form.
pub proof fn every_driver_is_named_once(accels: Seq<RawAccel>, k: int)
    ensures
        0 <= k < accels.len() ==> (opt_text(accels[k].bundle_id) matches Some(id) ==> (short_kext(
            id,
        ).len() > 0 ==> kexts_of(accels).contains(short_kext(id)))),
        kexts_of(accels).no_duplicates(),
    decreases accels.len(),
{
    if accels.len() > 0 {
        let init = accels.drop_last();
        let rest = kexts_of(init);
        let all = kexts_of(accels);
        every_driver_is_named_once(init, k);
        if 0 <= k < init.len() {
            assert(init[k] == accels[k]);
            if let Some(id) = opt_text(accels[k].bundle_id) {
                if short_kext(id).len() > 0 {
                    let w = choose|w: int| 0 <= w < rest.len() && rest[w] == short_kext(id);
                    assert(all[w] == short_kext(id));
                }
            }
        } else if k == init.len() {
            if let Some(id) = opt_text(accels[k].bundle_id) {
                if short_kext(id).len() > 0 {
                    if rest.contains(short_kext(id)) {
                        assert(all == rest);
                    } else {
                        assert(all[rest.len() as int] == short_kext(id));
                    }
                }
            }
        }
    }
}

/// The system's line shows the version and the build, whichever is known, and
/// the header shows drivers and system side by side.
pub proof fn the_header_shows_what_is_known(p: Seq<char>, b: Seq<char>)
    ensures
        os_line(Some(p), Some(b)) matches Some(t) && contains_text(t, p) && contains_text(t, b),
        os_line(Some(p), None) == Some("macOS "@ + p),
        os_line(None, Some(b)) matches Some(t) && contains_text(t, b),
        os_line(None, None) is None,
        beside(Some(p), Some(b)) == Some(p + " · "@ + b),
        beside(Some(p), None) == Some(p) && beside(None, Some(p)) == Some(p),
        beside(None, None) is None,
{
    let e = Seq::<char>::empty();
    a_text_is_found_where_it_stands("macOS "@, p, " ("@ + b + ")"@);
    assert("macOS "@ + p + (" ("@ + b + ")"@) =~= "macOS "@ + p + " ("@ + b + ")"@);
    a_text_is_found_where_it_stands("macOS "@ + p + " ("@, b, ")"@);
    a_text_is_found_where_it_stands("macOS build "@, b, e);
    assert("macOS build "@ + b + e =~= "macOS build "@ + b);
}

/// The bytes of a number, the lowest first.
pub open spec fn le_bytes(n: nat, len: nat) -> Seq<u8>
    decreases len,
{
    if len == 0 {
        Seq::empty()
    } else {
        seq![(n % 256) as u8] + le_bytes(n / 256, (len - 1) as nat)
    }
}

/// A number that was written lowest byte first reads back, as long as it has
/// room; the top bit of eight bytes makes it negative, and a blob of no bytes or
/// of more than eight is none.
pub proof fn a_blob_reads_back(n: nat)
    ensures
        n <= 0xff ==> le_of(le_bytes(n, 1)) == Some(n as i64),
        n <= 0xffff_ffff ==> le_of(le_bytes(n, 4)) == Some(n as i64),
        n <= i64::MAX ==> le_of(le_bytes(n, 8)) == Some(n as i64),
        i64::MAX < n <= u64::MAX ==> (le_of(le_bytes(n, 8)) matches Some(v) && v < 0 && v + u64::MAX
            + 1 == n),
        le_of(Seq::empty()) is None && le_of(le_bytes(n, 9)) is None,
{
    reveal_with_fuel(le_bytes, 10);
    lemma_blob(n, 1);
    lemma_blob(n, 4);
    lemma_blob(n, 8);
}

proof fn lemma_blob(n: nat, len: nat)
    requires
        len <= 8,
    ensures
        le_bytes(n, len).len() == len,
        len == 0 && n == 0 ==> le_value(le_bytes(n, len)) == n,
        len == 1 && n <= 0xff ==> le_value(le_bytes(n, len)) == n,
        len == 2 && n <= 0xffff ==> le_value(le_bytes(n, len)) == n,
        len == 3 && n <= 0xff_ffff ==> le_value(le_bytes(n, len)) == n,
        len == 4 && n <= 0xffff_ffff ==> le_value(le_bytes(n, len)) == n,
        len == 5 && n <= 0xff_ffff_ffff ==> le_value(le_bytes(n, len)) == n,
        len == 6 && n <= 0xffff_ffff_ffff ==> le_value(le_bytes(n, len)) == n,
        len == 7 && n <= 0xff_ffff_ffff_ffff ==> le_value(le_bytes(n, len)) == n,
        len == 8 && n <= 0xffff_ffff_ffff_ffff ==> le_value(le_bytes(n, len)) == n,
    decreases len,
{
    if len > 0 {
        let rest = le_bytes(n / 256, (len - 1) as nat);
        lemma_blob(n / 256, (len - 1) as nat);
        let all = le_bytes(n, len);
        assert(all.skip(1) =~= rest);
        assert(all[0] == n % 256);
    }
}

/// Accelerators are listed by their entry ids, each once.
pub proof fn accelerators_are_listed_by_id(ids: Seq<u64>, order: Seq<usize>, i: int, j: int)
    requires
        is_sorted_order(id_keys(ids), order),
        0 <= i < j < order.len(),
    ensures
        ids[order[i] as int] <= ids[order[j] as int],
        order[i] != order[j],
        order.len() == ids.len(),
{
    sorting_puts_the_lower_first(id_keys(ids), order, i, j);
}

/// What the properties do not tell stays unknown, and only an accelerator of
/// the chip itself is integrated.
pub proof fn what_the_properties_hide_is_unknown(
    s: RawSnapshot,
    a: RawAccel,
    cpu_brand: Option<Seq<char>>,
    system_mem: u64,
)
    requires
        is_accel_sample(s, a, cpu_brand, system_mem),
    ensures
        s.name@ == accel_name(a, cpu_brand),
        s.integrated == agx(opt_text(a.io_class)),
        s.mem_util_pct is None && s.video_util_pct is None,
        s.enc_util_pct is None && s.dec_util_pct is None && s.throttle is None,
        s.temp_slowdown_c is None && s.temp_junction_c is None && s.temp_mem_c is None,
        s.power_limit_w is None && s.fan_pct is None && s.fan_rpm is None,
        s.mem_clock_mhz is None && s.pcie_gen is None && s.pcie_width is None,
        s.pcie_max_gen is None && s.pcie_max_width is None,
        s.pcie_rx_kbs is None && s.pcie_tx_kbs is None,
        s.gtt_used_bytes is None && s.gtt_total_bytes is None,
        s.volt_mv is None && s.perf_level is None,
{
}

} // verus!
