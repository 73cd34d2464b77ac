//! The vendor-generic Windows side: performance counters keyed by instance
//! names, and the adapters they belong to.
use vstd::prelude::*;
use crate::backend::raw::{nothing_read, EngineGroup, Figure, RawProcess, RawSnapshot};
use crate::backend::{opt_text, ProcKind};
use crate::order::Real;
use crate::text::{char_is_hex_digit, chars_of, contains_text, has_prefix, is_hex_digit, lemma_split_nonempty, occurs_at, parse_number, parse_uint, same_chars, same_text, slice_of, split, split_chars, stands_at, string_of, text_contains, texts, a_text_is_found_where_it_stands, decimal, decimal_reads_back, is_digit, numbers_are_read_from_digits};

verus! {

// ---------------------------------------------------------------- names

/// The first place from `from` on where `needle` stands.
pub open spec fn first_at(hay: Seq<char>, needle: Seq<char>, from: int) -> Option<int>
    decreases hay.len() + 1 - from,
{
    if from < 0 || from > hay.len() {
        None
    } else if occurs_at(hay, needle, from) {
        Some(from)
    } else {
        first_at(hay, needle, from + 1)
    }
}

fn find_first(hay: &Vec<char>, needle: &Vec<char>) -> (r: Option<usize>)
    ensures
        match r {
            Some(i) => first_at(hay@, needle@, 0) == Some(i as int),
            None => first_at(hay@, needle@, 0) is None,
        },
        r matches Some(i) ==> i + needle@.len() <= hay@.len(),
{
    let mut i: usize = 0;
    while i < hay.len()
        invariant
            i <= hay.len(),
            first_at(hay@, needle@, 0) == first_at(hay@, needle@, i as int),
        decreases hay.len() - i,
    {
        if stands_at(hay, needle, i) {
            return Some(i);
        }
        i = i + 1;
    }
    if stands_at(hay, needle, i) {
        return Some(i);
    }
    assert(first_at(hay@, needle@, i + 1) is None);
    None
}

/// What stands between the first mark and the next one, or the end.
pub open spec fn engine_in(s: Seq<char>) -> Option<Seq<char>> {
    let mark = "engtype_"@;
    match first_at(s, mark, 0) {
        None => None,
        Some(i) => {
            let rest = s.skip(i + mark.len());
            match first_at(rest, mark, 0) {
                Some(j) => Some(rest.take(j)),
                None => Some(rest),
            }
        },
    }
}

/// `0x` and exactly eight hexadecimal digits: one half of an adapter id.
pub open spec fn hex32(s: Seq<char>) -> bool {
    &&& s.len() == 10
    &&& s[0] == '0'
    &&& s[1] == 'x'
    &&& forall|i: int| 2 <= i < 10 ==> is_hex_digit(#[trigger] s[i])
}

/// An adapter id stands at token `k`.
pub open spec fn luid_at(tokens: Seq<Seq<char>>, k: int) -> bool {
    tokens[k] == "luid"@ && hex32(tokens[k + 1]) && hex32(tokens[k + 2])
}

/// The first adapter id from token `k` on.
pub open spec fn luid_from(tokens: Seq<Seq<char>>, k: int) -> Option<Seq<char>>
    decreases tokens.len() - k,
{
    if k < 0 || k + 2 >= tokens.len() {
        None
    } else if luid_at(tokens, k) {
        Some("luid_"@ + tokens[k + 1] + "_"@ + tokens[k + 2])
    } else {
        luid_from(tokens, k + 1)
    }
}

pub open spec fn luid_in(instance: Seq<char>) -> Option<Seq<char>> {
    luid_from(split(instance, '_'), 0)
}

/// The process of an instance whose name starts with one.
pub open spec fn pid_in(instance: Seq<char>) -> Option<u32> {
    if has_prefix(instance, "pid_"@) {
        match parse_uint(split(instance.skip(4), '_')[0], u32::MAX as nat) {
            Some(n) => Some(n as u32),
            None => None,
        }
    } else {
        None
    }
}

fn is_hex32(token: &Vec<char>) -> (b: bool)
    ensures
        b == hex32(token@),
{
    if token.len() != 10 || token[0] != '0' || token[1] != 'x' {
        return false;
    }
    let mut i: usize = 2;
    while i < 10
        invariant
            2 <= i <= 10,
            token@.len() == 10,
            forall|j: int| 2 <= j < i ==> is_hex_digit(#[trigger] token@[j]),
        decreases 10 - i,
    {
        if !char_is_hex_digit(token[i]) {
            return false;
        }
        i = i + 1;
    }
    true
}

/// The adapter id anywhere in an instance name, matched over its tokens: a
/// slice of a fixed width would collide adapters that differ in their last
/// digits.
pub fn luid_prefix(instance: &str) -> (r: Option<String>)
    ensures
        opt_text(r) == luid_in(instance@),
{
    let tokens = split_chars(&chars_of(instance), '_');
    let luid = chars_of("luid");
    let n: usize = tokens.len();
    let ghost all = texts(tokens@);
    let mut k: usize = 0;
    while k < n
        invariant
            k <= n,
            n == tokens@.len(),
            all == texts(tokens@),
            all == split(instance@, '_'),
            luid@ == "luid"@,
            luid_from(all, 0) == luid_from(all, k as int),
        decreases n - k,
    {
        if n - k < 3 {
            return None;
        }
        assert(all[k as int] == tokens@[k as int]@ && all[k + 1] == tokens@[k + 1]@ && all[k + 2]
            == tokens@[k + 2]@);
        if same_chars(&tokens[k], &luid) && is_hex32(&tokens[k + 1]) && is_hex32(&tokens[k + 2]) {
            let mut s = String::new();
            s.append("luid_");
            let high = string_of(&tokens[k + 1]);
            let low = string_of(&tokens[k + 2]);
            s.append(high.as_str());
            s.append("_");
            s.append(low.as_str());
            assert(s@ =~= "luid_"@ + all[k + 1] + "_"@ + all[k + 2]);
            return Some(s);
        }
        k = k + 1;
    }
    None
}

/// `pid_1234_luid_...` to 1234.
pub fn pid_prefix(instance: &str) -> (r: Option<u32>)
    ensures
        r == pid_in(instance@),
{
    let cs = chars_of(instance);
    let mark = chars_of("pid_");
    proof {
        reveal_strlit("pid_");
    }
    if !stands_at(&cs, &mark, 0) {
        return None;
    }
    let rest = slice_of(&cs, 4, cs.len());
    assert(rest@ =~= instance@.skip(4));
    let parts = split_chars(&rest, '_');
    assert(texts(parts@)[0] == parts@[0]@);
    match parse_number(&parts[0], u32::MAX as u64) {
        Some(n) => Some(n as u32),
        None => None,
    }
}

/// The adapter id and the engine type of an engine instance.
pub fn luid_and_engtype(instance: &str) -> (r: Option<(String, String)>)
    ensures
        match r {
            Some((luid, eng)) => luid_in(instance@) == Some(luid@) && engine_in(instance@) == Some(
                eng@,
            ),
            None => luid_in(instance@) is None || engine_in(instance@) is None,
        },
{
    let luid = match luid_prefix(instance) {
        Some(l) => l,
        None => {
            return None;
        },
    };
    let cs = chars_of(instance);
    let mark = chars_of("engtype_");
    let n: usize = cs.len();
    match find_first(&cs, &mark) {
        None => None,
        Some(i) => {
            let rest = slice_of(&cs, i + mark.len(), n);
            assert(rest@ =~= cs@.skip(i + mark@.len()));
            let eng = match find_first(&rest, &mark) {
                Some(j) => {
                    let head = slice_of(&rest, 0, j);
                    assert(head@ =~= rest@.take(j as int));
                    string_of(&head)
                },
                None => string_of(&rest),
            };
            Some((luid, eng))
        },
    }
}

// ---------------------------------------------------------------- adapters

/// iGPUs carve from system memory: a small fixed pool of their own, dwarfed by
/// the shared one.
pub fn is_integrated(dedicated_bytes: u64, shared_bytes: u64) -> (b: bool)
    ensures
        b == integrated_by(dedicated_bytes, shared_bytes),
{
    dedicated_bytes < 536_870_912 && shared_bytes >= dedicated_bytes * 4
}

pub open spec fn integrated_by(dedicated: u64, shared: u64) -> bool {
    dedicated < 512 * 1024 * 1024 && shared >= 4 * dedicated
}

/// The memory to charge one process: the pool its adapter works in; a genuine
/// nothing where only the other pool lists the process; unknown where neither
/// does.
pub open spec fn charged(
    integrated: bool,
    dedicated: Option<u64>,
    shared: Option<u64>,
) -> Option<u64> {
    let relevant = if integrated {
        shared
    } else {
        dedicated
    };
    if relevant is Some {
        relevant
    } else if dedicated is Some || shared is Some {
        Some(0)
    } else {
        None
    }
}

pub fn proc_mem_bytes(integrated: bool, dedicated: Option<u64>, shared: Option<u64>) -> (r: Option<
    u64,
>)
    ensures
        r == charged(integrated, dedicated, shared),
{
    let (relevant, other) = if integrated {
        (shared, dedicated)
    } else {
        (dedicated, shared)
    };
    match relevant {
        Some(b) => Some(b),
        None => match other {
            Some(_) => Some(0),
            None => None,
        },
    }
}

/// One of the claimed vendors.
pub open spec fn is_claimed(claimed: Seq<u16>, vendor: u32) -> bool {
    exists|k: int| 0 <= k < claimed.len() && #[trigger] claimed[k] as u32 == vendor
}

fn claims_vendor(claimed: &[u16], vendor: u32) -> (b: bool)
    ensures
        b == is_claimed(claimed@, vendor),
{
    let mut i: usize = 0;
    while i < claimed.len()
        invariant
            i <= claimed.len(),
            forall|k: int| 0 <= k < i ==> #[trigger] claimed@[k] as u32 != vendor,
        decreases claimed.len() - i,
    {
        if claimed[i] as u32 == vendor {
            assert(claimed@[i as int] as u32 == vendor);
            return true;
        }
        i = i + 1;
    }
    false
}

/// The adapters of vendors that nobody claimed, in their order.
pub open spec fn unclaimed<T>(
    adapters: Seq<T>,
    claimed: Seq<u16>,
    vendor_of: spec_fn(T) -> u32,
) -> Seq<T>
    decreases adapters.len(),
{
    if adapters.len() == 0 {
        Seq::empty()
    } else {
        let rest = unclaimed(adapters.drop_last(), claimed, vendor_of);
        if is_claimed(claimed, vendor_of(adapters.last())) {
            rest
        } else {
            rest.push(adapters.last())
        }
    }
}

/// Drops the adapters that a vendor's own backend reports already.
pub fn retain_unclaimed<T, F: Fn(&T) -> u32>(
    adapters: Vec<T>,
    claimed: &[u16],
    vendor_of: F,
) -> (out: Vec<T>)
    requires
        forall|a: &T| call_requires(vendor_of, (a,)),
    ensures
        forall|v: spec_fn(T) -> u32|
            #![trigger unclaimed(adapters@, claimed@, v)]
            (forall|a: &T, n: u32| call_ensures(vendor_of, (a,), n) ==> n == v(*a)) ==> out@
                == unclaimed(adapters@, claimed@, v),
{
    let ghost all = adapters@;
    let mut rest = adapters;
    let mut out: Vec<T> = Vec::new();
    let ghost mut i: int = 0;
    proof {
        assert(all.take(0) =~= Seq::<T>::empty());
        assert(all.skip(0) =~= all);
    }
    while rest.len() > 0
        invariant
            0 <= i <= all.len(),
            rest@ == all.skip(i),
            forall|a: &T| call_requires(vendor_of, (a,)),
            forall|v: spec_fn(T) -> u32|
                #![trigger unclaimed(all.take(i), claimed@, v)]
                (forall|a: &T, n: u32| call_ensures(vendor_of, (a,), n) ==> n == v(*a)) ==> out@
                    == unclaimed(all.take(i), claimed@, v),
        decreases rest.len(),
    {
        let a = rest.remove(0);
        let vendor: u32 = vendor_of(&a);
        let taken = claims_vendor(claimed, vendor);
        let ghost was = out@;
        if !taken {
            out.push(a);
        }
        proof {
            assert(a == all[i]);
            assert(rest@ =~= all.skip(i + 1));
            let next = all.take(i + 1);
            assert(next.drop_last() =~= all.take(i));
            assert forall|v: spec_fn(T) -> u32|
                #![trigger unclaimed(next, claimed@, v)]
                (forall|a: &T, n: u32| call_ensures(vendor_of, (a,), n) ==> n == v(*a)) implies out@
                == unclaimed(next, claimed@, v) by {
                assert(was == unclaimed(all.take(i), claimed@, v));
                assert(vendor == v(next.last()));
            }
            i = i + 1;
        }
    }
    assert(all.take(i) =~= all);
    out
}

/// What the system says of one adapter.
#[derive(Debug)]
pub struct AdapterDesc {
    pub software: bool,
    pub vendor_id: u32,
    /// As decoded, with its padding.
    pub description: String,
    pub luid_high: u32,
    pub luid_low: u32,
    pub dedicated_bytes: u64,
    pub shared_bytes: u64,
}

/// The vendor of the software adapter.
pub const MICROSOFT_BASIC_RENDER: u32 = 0x1414;

/// An adapter, under the key that counter instances carry.
#[derive(Debug)]
pub struct Adapter {
    pub luid_key: String,
    pub name: String,
    pub vendor_id: u32,
    pub vram_total: u64,
    pub integrated: bool,
}

pub open spec fn hex_char(d: int) -> char {
    if d < 10 {
        (('0' as int) + d) as char
    } else {
        (('a' as int) + d - 10) as char
    }
}

/// The lower-case hexadecimal digits of `v`, `n` of them.
pub open spec fn hex_digits(v: nat, n: nat) -> Seq<char>
    decreases n,
{
    if n == 0 {
        Seq::empty()
    } else {
        hex_digits(v / 16, (n - 1) as nat).push(hex_char((v % 16) as int))
    }
}

pub open spec fn luid_key(high: u32, low: u32) -> Seq<char> {
    "luid_0x"@ + hex_digits(high as nat, 8) + "_0x"@ + hex_digits(low as nat, 8)
}

/// `s` without the characters `c` at its end.
pub open spec fn trim_end_of(s: Seq<char>, c: char) -> Seq<char>
    decreases s.len(),
{
    if s.len() > 0 && s.last() == c {
        trim_end_of(s.drop_last(), c)
    } else {
        s
    }
}

fn hex_of(d: u32) -> (c: char)
    requires
        d < 16,
    ensures
        c == hex_char(d as int),
{
    if d < 10 {
        (48u8 + d as u8) as char
    } else {
        (87u8 + d as u8) as char
    }
}

fn hex8(v: u32) -> (out: Vec<char>)
    ensures
        out@ == hex_digits(v as nat, 8),
{
    hex_n(v, 8)
}

fn hex_n(v: u32, n: u32) -> (out: Vec<char>)
    ensures
        out@ == hex_digits(v as nat, n as nat),
    decreases n,
{
    if n == 0 {
        Vec::new()
    } else {
        let mut out = hex_n(v / 16, n - 1);
        out.push(hex_of(v % 16));
        out
    }
}

/// `a` is the adapter that `d` describes.
pub open spec fn is_adapter(a: Adapter, d: AdapterDesc) -> bool {
    &&& a.luid_key@ == luid_key(d.luid_high, d.luid_low)
    &&& a.name@ == trim_end_of(d.description@, '\0')
    &&& a.vendor_id == d.vendor_id
    &&& a.integrated == integrated_by(d.dedicated_bytes, d.shared_bytes)
    &&& a.vram_total == (if a.integrated {
        d.shared_bytes
    } else {
        d.dedicated_bytes
    })
}

/// The adapter that a description stands for; software ones are none.
pub fn adapter_of(d: &AdapterDesc) -> (r: Option<Adapter>)
    ensures
        match r {
            Some(a) => !d.software && d.vendor_id != MICROSOFT_BASIC_RENDER && is_adapter(a, *d),
            None => d.software || d.vendor_id == MICROSOFT_BASIC_RENDER,
        },
{
    if d.software || d.vendor_id == MICROSOFT_BASIC_RENDER {
        return None;
    }
    let integrated = is_integrated(d.dedicated_bytes, d.shared_bytes);
    let mut luid_key = String::new();
    luid_key.append("luid_0x");
    let high = string_of(&hex8(d.luid_high));
    let low = string_of(&hex8(d.luid_low));
    luid_key.append(high.as_str());
    luid_key.append("_0x");
    luid_key.append(low.as_str());
    assert(luid_key@ =~= self::luid_key(d.luid_high, d.luid_low));
    let cs = chars_of(&d.description);
    let mut n: usize = cs.len();
    assert(cs@.take(n as int) =~= cs@);
    while n > 0 && cs[n - 1] == '\0'
        invariant
            n <= cs.len(),
            trim_end_of(cs@, '\0') == trim_end_of(cs@.take(n as int), '\0'),
        decreases n,
    {
        assert(cs@.take(n as int).drop_last() =~= cs@.take(n - 1));
        n = n - 1;
    }
    let kept = slice_of(&cs, 0, n);
    assert(kept@ =~= cs@.take(n as int));
    Some(
        Adapter {
            luid_key,
            name: string_of(&kept),
            vendor_id: d.vendor_id,
            vram_total: if integrated {
                d.shared_bytes
            } else {
                d.dedicated_bytes
            },
            integrated,
        },
    )
}

// ---------------------------------------------------------------- samples

/// One engine sample, its instance name taken apart.
#[derive(Debug)]
pub struct PdhSample {
    pub luid: String,
    pub eng: String,
    pub pid: Option<u32>,
    pub value: Real,
}

pub struct SampleModel {
    pub luid: Seq<char>,
    pub eng: Seq<char>,
    pub pid: Option<u32>,
    pub value: Real,
}

impl PdhSample {
    pub open spec fn model(&self) -> SampleModel {
        SampleModel { luid: self.luid@, eng: self.eng@, pid: self.pid, value: self.value }
    }
}

pub open spec fn models(samples: Seq<PdhSample>) -> Seq<SampleModel> {
    samples.map_values(|s: PdhSample| s.model())
}

/// The samples of a counter array whose names hold an adapter and an engine.
pub open spec fn parsed(list: Seq<(String, Real)>) -> Seq<SampleModel>
    decreases list.len(),
{
    if list.len() == 0 {
        Seq::empty()
    } else {
        let rest = parsed(list.drop_last());
        let name = list.last().0@;
        match (luid_in(name), engine_in(name)) {
            (Some(luid), Some(eng)) => rest.push(
                SampleModel { luid, eng, pid: pid_in(name), value: list.last().1 },
            ),
            _ => rest,
        }
    }
}

pub fn parse_samples(list: &Vec<(String, Real)>) -> (out: Vec<PdhSample>)
    ensures
        models(out@) == parsed(list@),
{
    let mut out: Vec<PdhSample> = Vec::new();
    let mut i: usize = 0;
    assert(models(out@) =~= parsed(list@.take(0)));
    while i < list.len()
        invariant
            i <= list.len(),
            models(out@) == parsed(list@.take(i as int)),
        decreases list.len() - i,
    {
        assert(list@.take(i + 1).drop_last() =~= list@.take(i as int));
        let ghost was = out@;
        if let Some((luid, eng)) = luid_and_engtype(list[i].0.as_str()) {
            let s = PdhSample { luid, eng, pid: pid_prefix(list[i].0.as_str()), value: list[i].1 };
            out.push(s);
            assert(models(out@) =~= models(was).push(s.model()));
        }
        i = i + 1;
    }
    assert(list@.take(i as int) =~= list@);
    out
}

/// Which engines to look at.
#[derive(Clone, Copy, PartialEq, Eq, Structural, Debug)]
pub enum Media {
    Any,
    Encode,
    /// Those that decode and do not encode.
    Decode,
}

pub open spec fn of_media(eng: Seq<char>, media: Media) -> bool {
    match media {
        Media::Any => true,
        Media::Encode => contains_text(eng, "videoencode"@),
        Media::Decode => !contains_text(eng, "videoencode"@) && contains_text(
            eng,
            "videodecode"@,
        ),
    }
}

fn is_media(eng: &str, media: Media) -> (b: bool)
    ensures
        b == of_media(eng@, media),
{
    match media {
        Media::Any => true,
        Media::Encode => text_contains(eng, "videoencode"),
        Media::Decode => !text_contains(eng, "videoencode") && text_contains(eng, "videodecode"),
    }
}

/// The sample is of this adapter, of this process if one is named, and of such
/// an engine.
pub open spec fn selected(s: SampleModel, luid: Seq<char>, pid: Option<u32>, media: Media) -> bool {
    s.luid == luid && (pid is Some ==> s.pid == pid) && of_media(s.eng, media)
}

/// The values of one engine among the selected samples, in their order.
pub open spec fn values_of(
    samples: Seq<SampleModel>,
    luid: Seq<char>,
    pid: Option<u32>,
    media: Media,
    eng: Seq<char>,
) -> Seq<Real>
    decreases samples.len(),
{
    if samples.len() == 0 {
        Seq::empty()
    } else {
        let rest = values_of(samples.drop_last(), luid, pid, media, eng);
        let s = samples.last();
        if selected(s, luid, pid, media) && s.eng == eng {
            rest.push(s.value)
        } else {
            rest
        }
    }
}

/// The groups are the selected samples by engine, each engine once, in no
/// promised order.
pub open spec fn groups_agree(
    groups: Seq<EngineGroup>,
    samples: Seq<SampleModel>,
    luid: Seq<char>,
    pid: Option<u32>,
    media: Media,
) -> bool {
    &&& forall|a: int, b: int|
        0 <= a < b < groups.len() ==> (#[trigger] groups[a]).eng@ != (#[trigger] groups[b]).eng@
    &&& forall|k: int|
        0 <= k < groups.len() ==> (#[trigger] groups[k]).values@ == values_of(
            samples,
            luid,
            pid,
            media,
            groups[k].eng@,
        ) && groups[k].values@.len() > 0
    &&& forall|i: int|
        0 <= i < samples.len() && selected(#[trigger] samples[i], luid, pid, media) ==> exists|
            k: int,
        |
            0 <= k < groups.len() && (#[trigger] groups[k]).eng@ == samples[i].eng
}

proof fn lemma_no_values(
    groups: Seq<EngineGroup>,
    samples: Seq<SampleModel>,
    luid: Seq<char>,
    pid: Option<u32>,
    media: Media,
    eng: Seq<char>,
)
    requires
        forall|i: int|
            0 <= i < samples.len() && selected(#[trigger] samples[i], luid, pid, media)
                ==> samples[i].eng != eng,
    ensures
        values_of(samples, luid, pid, media, eng).len() == 0,
    decreases samples.len(),
{
    if samples.len() > 0 {
        let init = samples.drop_last();
        assert forall|i: int| 0 <= i < init.len() && selected(#[trigger] init[i], luid, pid, media) implies init[i].eng
            != eng by {
            assert(samples[i] == init[i]);
        }
        lemma_no_values(groups, init, luid, pid, media, eng);
        assert(samples[samples.len() - 1] == samples.last());
    }
}

/// The selected samples, by engine.
pub fn engine_groups(
    samples: &Vec<PdhSample>,
    luid: &str,
    pid: Option<u32>,
    media: Media,
) -> (groups: Vec<EngineGroup>)
    ensures
        groups_agree(groups@, models(samples@), luid@, pid, media),
{
    let ghost all = models(samples@);
    let mut groups: Vec<EngineGroup> = Vec::new();
    let mut i: usize = 0;
    while i < samples.len()
        invariant
            i <= samples.len(),
            all == models(samples@),
            groups_agree(groups@, all.take(i as int), luid@, pid, media),
        decreases samples.len() - i,
    {
        let s = &samples[i];
        let ghost head = all.take(i as int);
        let ghost next = all.take(i + 1);
        let ghost was = groups@;
        proof {
            assert(next.drop_last() =~= head);
            assert(next.last() == s.model());
        }
        let of_pid = match pid {
            Some(p) => match s.pid {
                Some(q) => p == q,
                None => false,
            },
            None => true,
        };
        let take = same_text(s.luid.as_str(), luid) && of_pid && is_media(s.eng.as_str(), media);
        assert(take == selected(s.model(), luid@, pid, media));
        if take {
            let mut k: usize = 0;
            while k < groups.len() && !same_text(groups[k].eng.as_str(), s.eng.as_str())
                invariant
                    k <= groups.len(),
                    groups@ == was,
                    forall|x: int| 0 <= x < k ==> (#[trigger] was[x]).eng@ != s.eng@,
                decreases groups.len() - k,
            {
                k = k + 1;
            }
            if k < groups.len() {
                groups[k].values.push(s.value);
                proof {
                    assert(groups@.len() == was.len());
                    assert(groups@[k as int].eng == was[k as int].eng);
                    assert(groups@[k as int].values@ == was[k as int].values@.push(s.value));
                    assert(forall|x: int| 0 <= x < was.len() && x != k ==> groups@[x] == was[x]);
                }
            } else {
                let mut values: Vec<Real> = Vec::new();
                values.push(s.value);
                groups.push(EngineGroup { eng: s.eng.clone(), values });
                proof {
                    assert forall|j: int| 0 <= j < head.len() && selected(#[trigger] head[j], luid@, pid, media) implies head[j].eng
                        != s.eng@ by {
                        let g = choose|g: int| 0 <= g < was.len() && (#[trigger] was[g]).eng@ == head[j].eng;
                        assert(was[g].eng@ != s.eng@);
                    }
                    lemma_no_values(was, head, luid@, pid, media, s.eng@);
                    assert(values_of(next, luid@, pid, media, s.eng@) =~= seq![s.value]);
                    assert(groups@[was.len() as int].values@ =~= seq![s.value]);
                    assert(forall|x: int| 0 <= x < was.len() ==> groups@[x] == was[x]);
                }
            }
        }
        proof {
            assert forall|a: int, b: int| 0 <= a < b < groups@.len() implies (#[trigger] groups@[a]).eng@ != (
            #[trigger] groups@[b]).eng@ by {
                if b < was.len() {
                    assert(was[a].eng@ != was[b].eng@);
                }
            }
            assert forall|x: int| 0 <= x < groups@.len() implies (#[trigger] groups@[x]).values@ == values_of(
                next,
                luid@,
                pid,
                media,
                groups@[x].eng@,
            ) && groups@[x].values@.len() > 0 by {
                if x < was.len() {
                    assert(was[x].values@ == values_of(head, luid@, pid, media, was[x].eng@));
                    assert(was[x].eng@ == groups@[x].eng@);
                }
            }
            assert forall|j: int| 0 <= j < next.len() && selected(#[trigger] next[j], luid@, pid, media) implies exists|
                x: int,
            |
                0 <= x < groups@.len() && (#[trigger] groups@[x]).eng@ == next[j].eng by {
                if j < i {
                    assert(head[j] == next[j]);
                    let g = choose|g: int| 0 <= g < was.len() && (#[trigger] was[g]).eng@ == head[j].eng;
                    assert(groups@[g].eng@ == next[j].eng);
                }
            }
        }
        i = i + 1;
    }
    assert(all.take(i as int) =~= all);
    groups
}

/// The busiest engine of an adapter or of a process on it; unknown where no
/// sample names it.
pub open spec fn is_busiest_figure(
    f: Option<Figure>,
    samples: Seq<SampleModel>,
    luid: Seq<char>,
    pid: Option<u32>,
) -> bool {
    match f {
        Some(Figure::Busiest(groups)) => groups@.len() > 0 && groups_agree(
            groups@,
            samples,
            luid,
            pid,
            Media::Any,
        ),
        None => forall|i: int|
            0 <= i < samples.len() ==> !selected(#[trigger] samples[i], luid, pid, Media::Any),
        _ => false,
    }
}

/// The sum over an adapter's engines that encode, or decode.
pub open spec fn is_media_figure(
    f: Option<Figure>,
    samples: Seq<SampleModel>,
    luid: Seq<char>,
    media: Media,
) -> bool {
    match f {
        Some(Figure::Total(groups)) => groups@.len() > 0 && groups_agree(
            groups@,
            samples,
            luid,
            None,
            media,
        ),
        None => forall|i: int|
            0 <= i < samples.len() ==> !selected(#[trigger] samples[i], luid, None, media),
        _ => false,
    }
}

fn busiest_figure(samples: &Vec<PdhSample>, luid: &str, pid: Option<u32>) -> (f: Option<Figure>)
    ensures
        is_busiest_figure(f, models(samples@), luid@, pid),
{
    let groups = engine_groups(samples, luid, pid, Media::Any);
    if groups.len() == 0 {
        None
    } else {
        Some(Figure::Busiest(groups))
    }
}

fn media_figure(samples: &Vec<PdhSample>, luid: &str, media: Media) -> (f: Option<Figure>)
    ensures
        is_media_figure(f, models(samples@), luid@, media),
{
    let groups = engine_groups(samples, luid, None, media);
    if groups.len() == 0 {
        None
    } else {
        Some(Figure::Total(groups))
    }
}

// ---------------------------------------------------------------- bytes

/// The instance counts for this adapter, and for this process if one is named.
pub open spec fn names(instance: Seq<char>, luid: Seq<char>, pid: Option<u32>) -> bool {
    luid_in(instance) == Some(luid) && (pid is Some ==> pid_in(instance) == pid)
}

/// The bytes that a counter array lists for an adapter, or for a process on it;
/// nothing where no instance names it.
pub open spec fn bytes_of(list: Seq<(String, u64)>, luid: Seq<char>, pid: Option<u32>) -> Option<nat>
    decreases list.len(),
{
    if list.len() == 0 {
        None
    } else {
        let rest = bytes_of(list.drop_last(), luid, pid);
        if names(list.last().0@, luid, pid) {
            Some(
                (match rest {
                    Some(n) => n,
                    None => 0,
                }) + list.last().1 as nat,
            )
        } else {
            rest
        }
    }
}

/// Everything an array lists.
pub open spec fn list_total(list: Seq<(String, u64)>) -> nat
    decreases list.len(),
{
    if list.len() == 0 {
        0
    } else {
        list_total(list.drop_last()) + list.last().1 as nat
    }
}

proof fn lemma_bytes_bound(list: Seq<(String, u64)>, luid: Seq<char>, pid: Option<u32>, i: int)
    requires
        0 <= i <= list.len(),
    ensures
        bytes_of(list.take(i), luid, pid) matches Some(n) ==> n <= list_total(list.take(i)),
        list_total(list.take(i)) <= list_total(list),
    decreases list.len(), i,
{
    lemma_total_prefix(list, i);
    if i > 0 {
        lemma_bytes_bound(list, luid, pid, i - 1);
        assert(list.take(i).drop_last() =~= list.take(i - 1));
    }
}

proof fn lemma_total_prefix(list: Seq<(String, u64)>, i: int)
    requires
        0 <= i <= list.len(),
    ensures
        list_total(list.take(i)) <= list_total(list),
    decreases list.len() - i,
{
    if i < list.len() {
        lemma_total_prefix(list, i + 1);
        assert(list.take(i + 1).drop_last() =~= list.take(i));
    } else {
        assert(list.take(i) =~= list);
    }
}

/// Whether everything an array lists adds up.
pub fn bytes_fit(list: &Vec<(String, u64)>) -> (b: bool)
    ensures
        b == (list_total(list@) <= u64::MAX),
{
    let mut sum: u64 = 0;
    let mut i: usize = 0;
    assert(list@.take(0) =~= Seq::<(String, u64)>::empty());
    while i < list.len()
        invariant
            i <= list.len(),
            sum == list_total(list@.take(i as int)),
        decreases list.len() - i,
    {
        proof {
            assert(list@.take(i + 1).drop_last() =~= list@.take(i as int));
            lemma_total_prefix(list@, i + 1);
        }
        if sum > u64::MAX - list[i].1 {
            return false;
        }
        sum = sum + list[i].1;
        i = i + 1;
    }
    assert(list@.take(i as int) =~= list@);
    true
}

pub open spec fn bytes64(list: Seq<(String, u64)>, luid: Seq<char>, pid: Option<u32>) -> Option<u64> {
    match bytes_of(list, luid, pid) {
        Some(n) => Some(n as u64),
        None => None,
    }
}

/// The bytes listed for an adapter, or for a process on it.
pub fn sum_by(list: &Vec<(String, u64)>, luid: &str, pid: Option<u32>) -> (r: Option<u64>)
    requires
        list_total(list@) <= u64::MAX,
    ensures
        r == bytes64(list@, luid@, pid),
        r matches Some(n) ==> bytes_of(list@, luid@, pid) == Some(n as nat),
{
    let mut sum: Option<u64> = None;
    let mut i: usize = 0;
    assert(list@.take(0) =~= Seq::<(String, u64)>::empty());
    while i < list.len()
        invariant
            i <= list.len(),
            list_total(list@) <= u64::MAX,
            match sum {
                Some(n) => bytes_of(list@.take(i as int), luid@, pid) == Some(n as nat),
                None => bytes_of(list@.take(i as int), luid@, pid) is None,
            },
        decreases list.len() - i,
    {
        proof {
            assert(list@.take(i + 1).drop_last() =~= list@.take(i as int));
            lemma_bytes_bound(list@, luid@, pid, i + 1);
        }
        let name = list[i].0.as_str();
        let of_adapter = match luid_prefix(name) {
            Some(l) => same_text(l.as_str(), luid),
            None => false,
        };
        let of_pid = match pid {
            Some(p) => match pid_prefix(name) {
                Some(q) => p == q,
                None => false,
            },
            None => true,
        };
        assert((of_adapter && of_pid) == names(name@, luid@, pid));
        if of_adapter && of_pid {
            sum =
            match sum {
                Some(n) => Some(n + list[i].1),
                None => Some(list[i].1),
            };
        }
        i = i + 1;
    }
    assert(list@.take(i as int) =~= list@);
    sum
}

// ---------------------------------------------------------------- one poll

/// The counter arrays of one collection, instance names in lower case.
#[derive(Debug)]
pub struct PdhCounters {
    pub engines: Vec<(String, Real)>,
    pub dedicated: Vec<(String, u64)>,
    pub shared: Vec<(String, u64)>,
    pub proc_dedicated: Vec<(String, u64)>,
    pub proc_shared: Vec<(String, u64)>,
}

impl PdhCounters {
    /// Every memory array adds up.
    pub open spec fn fit(&self) -> bool {
        &&& list_total(self.dedicated@) <= u64::MAX
        &&& list_total(self.shared@) <= u64::MAX
        &&& list_total(self.proc_dedicated@) <= u64::MAX
        &&& list_total(self.proc_shared@) <= u64::MAX
    }

    pub fn all_fit(&self) -> (b: bool)
        ensures
            b == self.fit(),
    {
        bytes_fit(&self.dedicated) && bytes_fit(&self.shared) && bytes_fit(&self.proc_dedicated)
            && bytes_fit(&self.proc_shared)
    }
}

/// `s` is what the counters say of the adapter.
pub open spec fn is_adapter_sample(s: RawSnapshot, a: Adapter, c: PdhCounters) -> bool {
    let samples = parsed(c.engines@);
    let luid = a.luid_key@;
    &&& s.name == a.name
    &&& opt_text(s.device_id) == Some(luid)
    &&& is_busiest_figure(s.utilization_pct, samples, luid, None)
    &&& is_media_figure(s.enc_util_pct, samples, luid, Media::Encode)
    &&& is_media_figure(s.dec_util_pct, samples, luid, Media::Decode)
    &&& s.vram_used_bytes == (if a.integrated {
        bytes64(c.shared@, luid, None)
    } else {
        bytes64(c.dedicated@, luid, None)
    })
    &&& s == (RawSnapshot {
        integrated: a.integrated,
        utilization_pct: s.utilization_pct,
        enc_util_pct: s.enc_util_pct,
        dec_util_pct: s.dec_util_pct,
        vram_used_bytes: s.vram_used_bytes,
        vram_total_bytes: Some(a.vram_total),
        ..nothing_read(s.name, s.device_id)
    })
}

fn sample_adapter(a: &Adapter, samples: &Vec<PdhSample>, c: &PdhCounters) -> (s: RawSnapshot)
    requires
        c.fit(),
        models(samples@) == parsed(c.engines@),
    ensures
        is_adapter_sample(s, *a, *c),
{
    let luid = a.luid_key.as_str();
    let mut s = RawSnapshot::nothing(a.name.clone(), Some(a.luid_key.clone()));
    s.integrated = a.integrated;
    s.utilization_pct = busiest_figure(samples, luid, None);
    s.enc_util_pct = media_figure(samples, luid, Media::Encode);
    s.dec_util_pct = media_figure(samples, luid, Media::Decode);
    s.vram_used_bytes =
    if a.integrated {
        sum_by(&c.shared, luid, None)
    } else {
        sum_by(&c.dedicated, luid, None)
    };
    s.vram_total_bytes = Some(a.vram_total);
    s
}

/// The adapter with this key, the last one of several.
pub open spec fn gpu_of(adapters: Seq<Adapter>, luid: Seq<char>) -> Option<int>
    decreases adapters.len(),
{
    if adapters.len() == 0 {
        None
    } else if adapters.last().luid_key@ == luid {
        Some(adapters.len() - 1)
    } else {
        gpu_of(adapters.drop_last(), luid)
    }
}

fn find_adapter(adapters: &Vec<Adapter>, luid: &str) -> (r: Option<usize>)
    ensures
        match r {
            Some(g) => gpu_of(adapters@, luid@) == Some(g as int) && g < adapters@.len()
                && adapters@[g as int].luid_key@ == luid@,
            None => gpu_of(adapters@, luid@) is None,
        },
{
    let mut n: usize = adapters.len();
    assert(adapters@.take(n as int) =~= adapters@);
    while n > 0
        invariant
            n <= adapters.len(),
            gpu_of(adapters@, luid@) == gpu_of(adapters@.take(n as int), luid@),
        decreases n,
    {
        assert(adapters@.take(n as int).drop_last() =~= adapters@.take(n - 1));
        if same_text(adapters[n - 1].luid_key.as_str(), luid) {
            return Some(n - 1);
        }
        n = n - 1;
    }
    None
}

/// Some counter names this process on this adapter.
pub open spec fn is_listed(c: PdhCounters, pid: u32, luid: Seq<char>) -> bool {
    ||| exists|i: int|
        0 <= i < parsed(c.engines@).len() && selected(
            #[trigger] parsed(c.engines@)[i],
            luid,
            Some(pid),
            Media::Any,
        )
    ||| bytes_of(c.proc_dedicated@, luid, Some(pid)) is Some
    ||| bytes_of(c.proc_shared@, luid, Some(pid)) is Some
}

/// One of the process's engines on this adapter draws.
pub open spec fn draws(samples: Seq<SampleModel>, pid: u32, luid: Seq<char>) -> bool {
    exists|i: int|
        0 <= i < samples.len() && selected(#[trigger] samples[i], luid, Some(pid), Media::Any) && (
        contains_text(samples[i].eng, "3d"@) || contains_text(samples[i].eng, "graphics"@))
}

/// `row` is what the counters say of its process on its adapter.
pub open spec fn is_process_row(row: RawProcess, adapters: Seq<Adapter>, c: PdhCounters) -> bool {
    let g = row.gpu_index as int;
    let luid = adapters[g].luid_key@;
    &&& 0 <= g < adapters.len()
    &&& gpu_of(adapters, luid) == Some(g)
    &&& is_listed(c, row.pid, luid)
    &&& row.kind == (if draws(parsed(c.engines@), row.pid, luid) {
        ProcKind::Graphics
    } else {
        ProcKind::Compute
    })
    &&& is_busiest_figure(row.gpu_util_pct, parsed(c.engines@), luid, Some(row.pid))
    &&& row.gpu_mem_bytes == charged(
        adapters[g].integrated,
        bytes64(c.proc_dedicated@, luid, Some(row.pid)),
        bytes64(c.proc_shared@, luid, Some(row.pid)),
    )
}

fn is_drawing(samples: &Vec<PdhSample>, pid: u32, luid: &str) -> (b: bool)
    ensures
        b == draws(models(samples@), pid, luid@),
{
    let ghost all = models(samples@);
    let mut i: usize = 0;
    while i < samples.len()
        invariant
            i <= samples.len(),
            all == models(samples@),
            forall|j: int|
                0 <= j < i && selected(#[trigger] all[j], luid@, Some(pid), Media::Any) ==> !(
                contains_text(all[j].eng, "3d"@) || contains_text(all[j].eng, "graphics"@)),
        decreases samples.len() - i,
    {
        let s = &samples[i];
        assert(all[i as int] == s.model());
        let of_pid = match s.pid {
            Some(q) => q == pid,
            None => false,
        };
        if of_pid && same_text(s.luid.as_str(), luid) && (text_contains(s.eng.as_str(), "3d")
            || text_contains(s.eng.as_str(), "graphics")) {
            assert(selected(all[i as int], luid@, Some(pid), Media::Any));
            return true;
        }
        i = i + 1;
    }
    false
}

/// A row for this process stands already.
pub open spec fn has_row(rows: Seq<RawProcess>, pid: u32, gpu: int) -> bool {
    exists|k: int|
        0 <= k < rows.len() && (#[trigger] rows[k]).pid == pid && rows[k].gpu_index == gpu
}

fn row_exists(rows: &Vec<RawProcess>, pid: u32, gpu: usize) -> (b: bool)
    ensures
        b == has_row(rows@, pid, gpu as int),
{
    let mut i: usize = 0;
    while i < rows.len()
        invariant
            i <= rows.len(),
            forall|k: int|
                0 <= k < i ==> !((#[trigger] rows@[k]).pid == pid && rows@[k].gpu_index == gpu),
        decreases rows.len() - i,
    {
        if rows[i].pid == pid && rows[i].gpu_index == gpu {
            assert(rows@[i as int].pid == pid);
            return true;
        }
        i = i + 1;
    }
    false
}

/// Rows that are right, and each process on each adapter at most once.
pub open spec fn rows_right(rows: Seq<RawProcess>, adapters: Seq<Adapter>, c: PdhCounters) -> bool {
    &&& forall|k: int| 0 <= k < rows.len() ==> is_process_row(#[trigger] rows[k], adapters, c)
    &&& forall|a: int, b: int|
        0 <= a < b < rows.len() ==> (#[trigger] rows[a]).pid != (#[trigger] rows[b]).pid
            || rows[a].gpu_index != rows[b].gpu_index
}

/// Adds the row of one process on one adapter, unless it stands already or the
/// adapter is none of ours.
fn add_row(
    rows: &mut Vec<RawProcess>,
    pid: u32,
    luid: &str,
    adapters: &Vec<Adapter>,
    samples: &Vec<PdhSample>,
    c: &PdhCounters,
)
    requires
        c.fit(),
        models(samples@) == parsed(c.engines@),
        is_listed(*c, pid, luid@),
        rows_right(old(rows)@, adapters@, *c),
    ensures
        rows_right(final(rows)@, adapters@, *c),
        final(rows)@.len() >= old(rows)@.len(),
        forall|k: int| 0 <= k < old(rows)@.len() ==> final(rows)@[k] == #[trigger] old(rows)@[k],
        gpu_of(adapters@, luid@) matches Some(g) ==> has_row(final(rows)@, pid, g),
{
    let gpu = match find_adapter(adapters, luid) {
        Some(g) => g,
        None => {
            return ;
        },
    };
    if row_exists(rows, pid, gpu) {
        return ;
    }
    let ghost was = rows@;
    let row = RawProcess {
        pid,
        gpu_index: gpu,
        kind: if is_drawing(samples, pid, luid) {
            ProcKind::Graphics
        } else {
            ProcKind::Compute
        },
        gpu_util_pct: busiest_figure(samples, luid, Some(pid)),
        gpu_mem_bytes: proc_mem_bytes(
            adapters[gpu].integrated,
            sum_by(&c.proc_dedicated, luid, Some(pid)),
            sum_by(&c.proc_shared, luid, Some(pid)),
        ),
    };
    rows.push(row);
    proof {
        assert(is_process_row(row, adapters@, *c));
        assert(forall|k: int| 0 <= k < was.len() ==> rows@[k] == was[k]);
        assert(rows@[was.len() as int] == row);
        assert forall|a: int, b: int| 0 <= a < b < rows@.len() implies (#[trigger] rows@[a]).pid != (
        #[trigger] rows@[b]).pid || rows@[a].gpu_index != rows@[b].gpu_index by {
            if b == was.len() {
                assert(rows@[a] == was[a]);
            } else {
                assert(was[a].pid != was[b].pid || was[a].gpu_index != was[b].gpu_index);
            }
        }
    }
}

/// The array's instances before `n` all have their rows.
spec fn covered(
    rows: Seq<RawProcess>,
    adapters: Seq<Adapter>,
    list: Seq<(String, u64)>,
    n: int,
) -> bool {
    forall|i: int|
        0 <= i < n ==> ((pid_in((#[trigger] list[i]).0@), luid_in(list[i].0@)) matches (
            Some(pid),
            Some(luid),
        ) ==> (gpu_of(adapters, luid) matches Some(g) ==> has_row(rows, pid, g)))
}

proof fn lemma_bytes_listed(list: Seq<(String, u64)>, i: int, luid: Seq<char>, pid: u32)
    requires
        0 <= i < list.len(),
        names(list[i].0@, luid, Some(pid)),
    ensures
        bytes_of(list, luid, Some(pid)) is Some,
    decreases list.len(),
{
    if i < list.len() - 1 {
        assert(list.drop_last()[i] == list[i]);
        lemma_bytes_listed(list.drop_last(), i, luid, pid);
    }
}

proof fn lemma_bytes_from(list: Seq<(String, u64)>, luid: Seq<char>, pid: u32) -> (i: int)
    requires
        bytes_of(list, luid, Some(pid)) is Some,
    ensures
        0 <= i < list.len(),
        names(list[i].0@, luid, Some(pid)),
    decreases list.len(),
{
    if names(list.last().0@, luid, Some(pid)) {
        list.len() - 1
    } else {
        let i = lemma_bytes_from(list.drop_last(), luid, pid);
        assert(list.drop_last()[i] == list[i]);
        i
    }
}

proof fn lemma_kept(a: Seq<RawProcess>, b: Seq<RawProcess>, pid: u32, g: int)
    requires
        a.len() <= b.len(),
        forall|k: int| 0 <= k < a.len() ==> b[k] == #[trigger] a[k],
        has_row(a, pid, g),
    ensures
        has_row(b, pid, g),
{
    let k = choose|k: int|
        0 <= k < a.len() && (#[trigger] a[k]).pid == pid && a[k].gpu_index == g;
    assert(b[k] == a[k]);
}

fn add_listed(
    rows: &mut Vec<RawProcess>,
    list: &Vec<(String, u64)>,
    adapters: &Vec<Adapter>,
    samples: &Vec<PdhSample>,
    c: &PdhCounters,
)
    requires
        c.fit(),
        models(samples@) == parsed(c.engines@),
        list@ == c.proc_dedicated@ || list@ == c.proc_shared@,
        rows_right(old(rows)@, adapters@, *c),
    ensures
        rows_right(final(rows)@, adapters@, *c),
        final(rows)@.len() >= old(rows)@.len(),
        forall|k: int| 0 <= k < old(rows)@.len() ==> final(rows)@[k] == #[trigger] old(rows)@[k],
        covered(final(rows)@, adapters@, list@, list@.len() as int),
{
    let mut i: usize = 0;
    while i < list.len()
        invariant
            i <= list.len(),
            c.fit(),
            models(samples@) == parsed(c.engines@),
            list@ == c.proc_dedicated@ || list@ == c.proc_shared@,
            rows_right(rows@, adapters@, *c),
            rows@.len() >= old(rows)@.len(),
            forall|k: int| 0 <= k < old(rows)@.len() ==> rows@[k] == #[trigger] old(rows)@[k],
            covered(rows@, adapters@, list@, i as int),
        decreases list.len() - i,
    {
        let name = list[i].0.as_str();
        let ghost was = rows@;
        if let Some(pid) = pid_prefix(name) {
            if let Some(luid) = luid_prefix(name) {
                proof {
                    assert(names(list@[i as int].0@, luid@, Some(pid)));
                    lemma_bytes_listed(list@, i as int, luid@, pid);
                }
                add_row(rows, pid, luid.as_str(), adapters, samples, c);
            }
        }
        proof {
            assert forall|j: int| 0 <= j < i + 1 implies ((pid_in((#[trigger] list@[j]).0@), luid_in(list@[j].0@)) matches (
                Some(pid),
                Some(luid),
            ) ==> (gpu_of(adapters@, luid) matches Some(g) ==> has_row(rows@, pid, g))) by {
                if j < i {
                    if let (Some(pid), Some(luid)) = (pid_in(list@[j].0@), luid_in(list@[j].0@)) {
                        if let Some(g) = gpu_of(adapters@, luid) {
                            lemma_kept(was, rows@, pid, g);
                        }
                    }
                }
            }
        }
        i = i + 1;
    }
}

/// Every process that a counter names on one of the adapters has its row.
pub open spec fn rows_complete(rows: Seq<RawProcess>, adapters: Seq<Adapter>, c: PdhCounters) -> bool {
    forall|pid: u32, luid: Seq<char>|
        #[trigger] is_listed(c, pid, luid) ==> (gpu_of(adapters, luid) matches Some(g) ==> has_row(
            rows,
            pid,
            g,
        ))
}

/// The rows of one collection: every process that any counter names on one of
/// the adapters, once, idle ones included.
fn process_rows(adapters: &Vec<Adapter>, samples: &Vec<PdhSample>, c: &PdhCounters) -> (rows: Vec<
    RawProcess,
>)
    requires
        c.fit(),
        models(samples@) == parsed(c.engines@),
    ensures
        rows_right(rows@, adapters@, *c),
        rows_complete(rows@, adapters@, *c),
{
    let ghost all = parsed(c.engines@);
    let mut rows: Vec<RawProcess> = Vec::new();
    let mut i: usize = 0;
    while i < samples.len()
        invariant
            i <= samples.len(),
            c.fit(),
            all == parsed(c.engines@),
            models(samples@) == all,
            rows_right(rows@, adapters@, *c),
            forall|j: int|
                0 <= j < i ==> ((#[trigger] all[j]).pid matches Some(pid) ==> (gpu_of(
                    adapters@,
                    all[j].luid,
                ) matches Some(g) ==> has_row(rows@, pid, g))),
        decreases samples.len() - i,
    {
        let s = &samples[i];
        let ghost was = rows@;
        assert(all[i as int] == s.model());
        if let Some(pid) = s.pid {
            assert(selected(all[i as int], s.luid@, Some(pid), Media::Any));
            add_row(&mut rows, pid, s.luid.as_str(), adapters, samples, c);
        }
        proof {
            assert forall|j: int| 0 <= j < i + 1 implies ((#[trigger] all[j]).pid matches Some(pid) ==> (gpu_of(
                adapters@,
                all[j].luid,
            ) matches Some(g) ==> has_row(rows@, pid, g))) by {
                if j < i {
                    if let Some(pid) = all[j].pid {
                        if let Some(g) = gpu_of(adapters@, all[j].luid) {
                            lemma_kept(was, rows@, pid, g);
                        }
                    }
                }
            }
        }
        i = i + 1;
    }
    let ghost first = rows@;
    add_listed(&mut rows, &c.proc_dedicated, adapters, samples, c);
    let ghost second = rows@;
    add_listed(&mut rows, &c.proc_shared, adapters, samples, c);
    proof {
        assert forall|pid: u32, luid: Seq<char>| #[trigger] is_listed(*c, pid, luid) implies (gpu_of(
            adapters@,
            luid,
        ) matches Some(g) ==> has_row(rows@, pid, g)) by {
            if let Some(g) = gpu_of(adapters@, luid) {
                if bytes_of(c.proc_shared@, luid, Some(pid)) is Some {
                    let k = lemma_bytes_from(c.proc_shared@, luid, pid);
                    assert(has_row(rows@, pid, g));
                } else if bytes_of(c.proc_dedicated@, luid, Some(pid)) is Some {
                    let k = lemma_bytes_from(c.proc_dedicated@, luid, pid);
                    assert(has_row(second, pid, g));
                    lemma_kept(second, rows@, pid, g);
                } else {
                    let k = choose|k: int|
                        0 <= k < all.len() && selected(
                            #[trigger] all[k],
                            luid,
                            Some(pid),
                            Media::Any,
                        );
                    assert(all[k].pid == Some(pid));
                    assert(has_row(first, pid, g));
                    lemma_kept(first, second, pid, g);
                    lemma_kept(second, rows@, pid, g);
                }
            }
        }
    }
    rows
}

/// The adapters, and the process rows of the last collection.
#[derive(Debug)]
pub struct PdhBackend {
    pub adapters: Vec<Adapter>,
    pub last_procs: Vec<RawProcess>,
}

impl PdhBackend {
    /// One collection: a reading per adapter, in their order, and the process
    /// rows that go with them.
    pub fn poll(&mut self, c: &PdhCounters) -> (out: Vec<RawSnapshot>)
        requires
            c.fit(),
        ensures
            final(self).adapters == old(self).adapters,
            out@.len() == old(self).adapters@.len(),
            forall|k: int|
                0 <= k < out@.len() ==> is_adapter_sample(
                    #[trigger] out@[k],
                    old(self).adapters@[k],
                    *c,
                ),
            rows_right(final(self).last_procs@, old(self).adapters@, *c),
            rows_complete(final(self).last_procs@, old(self).adapters@, *c),
    {
        let samples = parse_samples(&c.engines);
        self.last_procs = process_rows(&self.adapters, &samples, c);
        let mut out: Vec<RawSnapshot> = Vec::new();
        let mut i: usize = 0;
        while i < self.adapters.len()
            invariant
                i <= self.adapters.len(),
                c.fit(),
                models(samples@) == parsed(c.engines@),
                out@.len() == i,
                forall|k: int|
                    0 <= k < i ==> is_adapter_sample(#[trigger] out@[k], self.adapters@[k], *c),
            decreases self.adapters.len() - i,
        {
            out.push(sample_adapter(&self.adapters[i], &samples, c));
            i = i + 1;
        }
        out
    }
}

// ---------------------------------------------------------------- laws

proof fn lemma_split_plain(a: Seq<char>, sep: char)
    requires
        !a.contains(sep),
    ensures
        split(a, sep) == seq![a],
    decreases a.len(),
{
    if a.len() > 0 {
        let init = a.drop_last();
        assert forall|i: int| 0 <= i < init.len() implies init[i] != sep by {
            assert(init[i] == a[i]);
        }
        lemma_split_plain(init, sep);
        assert(a[a.len() - 1] == a.last());
        assert(a.last() != sep);
        assert(init.push(a.last()) =~= a);
        assert(split(a, sep) =~= seq![a]);
    } else {
        assert(a =~= Seq::<char>::empty());
    }
}

proof fn lemma_split_after(a: Seq<char>, sep: char, b: Seq<char>)
    requires
        !a.contains(sep),
    ensures
        split(a.push(sep) + b, sep) == seq![a] + split(b, sep),
    decreases b.len(),
{
    let s = a.push(sep) + b;
    lemma_split_nonempty(b, sep);
    if b.len() == 0 {
        assert(s.drop_last() =~= a);
        lemma_split_plain(a, sep);
        assert(split(s, sep) =~= seq![a] + split(b, sep));
    } else {
        let init = b.drop_last();
        lemma_split_after(a, sep, init);
        lemma_split_nonempty(init, sep);
        assert(s.drop_last() =~= a.push(sep) + init);
        assert(s.last() == b.last());
        let head = split(init, sep);
        if b.last() == sep {
            assert(split(s, sep) =~= seq![a] + split(b, sep));
        } else {
            assert((seq![a] + head).last() == head.last());
            assert((seq![a] + head).drop_last() =~= seq![a] + head.drop_last());
            assert(split(s, sep) =~= seq![a] + split(b, sep));
        }
    }
}

proof fn lemma_hex_digits(v: nat, n: nat)
    ensures
        hex_digits(v, n).len() == n,
        forall|i: int| 0 <= i < n ==> is_hex_digit(#[trigger] hex_digits(v, n)[i]),
    decreases n,
{
    if n > 0 {
        lemma_hex_digits(v / 16, (n - 1) as nat);
        let d = (v % 16) as int;
        assert(is_hex_digit(hex_char(d)));
        let head = hex_digits(v / 16, (n - 1) as nat);
        assert forall|i: int| 0 <= i < n implies is_hex_digit(#[trigger] hex_digits(v, n)[i]) by {
            if i < n - 1 {
                assert(hex_digits(v, n)[i] == head[i]);
            }
        }
    }
}

spec fn half(v: u32) -> Seq<char> {
    seq!['0', 'x'] + hex_digits(v as nat, 8)
}

proof fn lemma_half(v: u32)
    ensures
        hex32(half(v)),
        !half(v).contains('_'),
{
    lemma_hex_digits(v as nat, 8);
    let s = half(v);
    assert forall|i: int| 2 <= i < 10 implies is_hex_digit(#[trigger] s[i]) by {
        assert(s[i] == hex_digits(v as nat, 8)[i - 2]);
    }
    assert forall|i: int| 0 <= i < s.len() implies s[i] != '_' by {
        if i >= 2 {
            assert(is_hex_digit(s[i]));
        }
    }
}

/// The key made for an adapter is the key read out of it: the id in a key is
/// the whole key.
pub proof fn an_adapter_key_reads_back(high: u32, low: u32)
    ensures
        luid_in(luid_key(high, low)) == Some(luid_key(high, low)),
{
    let key = luid_key(high, low);
    let word = "luid"@;
    lemma_half(high);
    lemma_half(low);
    reveal_strlit("luid");
    reveal_strlit("luid_");
    reveal_strlit("luid_0x");
    reveal_strlit("_0x");
    reveal_strlit("_");
    assert(!word.contains('_'));
    let tail = half(high).push('_') + half(low);
    assert("luid_0x"@ =~= word.push('_') + seq!['0', 'x']);
    assert("_0x"@ =~= seq!['_', '0', 'x']);
    assert(key =~= word.push('_') + tail);
    lemma_split_after(word, '_', tail);
    lemma_split_after(half(high), '_', half(low));
    lemma_split_plain(half(low), '_');
    let tokens = split(key, '_');
    assert(tokens =~= seq![word, half(high), half(low)]);
    assert(luid_at(tokens, 0));
    assert("luid_"@ =~= word.push('_'));
    assert("luid_"@ + half(high) + "_"@ + half(low) =~= key);
}

proof fn lemma_hex_injective(a: nat, b: nat, n: nat)
    requires
        hex_digits(a, n) == hex_digits(b, n),
        n == 0 ==> a == b,
        n > 0 ==> a < 0x1_0000_0000 && b < 0x1_0000_0000,
        n <= 8,
        a < pow16(n),
        b < pow16(n),
    ensures
        a == b,
    decreases n,
{
    if n > 0 {
        let ha = hex_digits(a / 16, (n - 1) as nat);
        let hb = hex_digits(b / 16, (n - 1) as nat);
        let da = (a % 16) as int;
        let db = (b % 16) as int;
        assert(ha.push(hex_char(da)).drop_last() =~= ha);
        assert(hb.push(hex_char(db)).drop_last() =~= hb);
        assert(hex_digits(a, n).last() == hex_char(da));
        assert(hex_digits(b, n).last() == hex_char(db));
        assert(da == db);
        assert(a / 16 < pow16((n - 1) as nat) && b / 16 < pow16((n - 1) as nat)) by {
            assert(pow16(n) == 16 * pow16((n - 1) as nat));
        }
        if n == 1 {
            assert(a / 16 == 0 && b / 16 == 0);
        }
        lemma_hex_injective(a / 16, b / 16, (n - 1) as nat);
    }
}

spec fn pow16(n: nat) -> nat
    decreases n,
{
    if n == 0 {
        1
    } else {
        16 * pow16((n - 1) as nat)
    }
}

/// Two adapters have the same key only where they have the same id: keys that
/// differ in any bit of it do not collide.
pub proof fn adapter_keys_do_not_collide(h1: u32, l1: u32, h2: u32, l2: u32)
    requires
        luid_key(h1, l1) == luid_key(h2, l2),
    ensures
        h1 == h2,
        l1 == l2,
{
    reveal_strlit("luid_0x");
    reveal_strlit("_0x");
    let a = luid_key(h1, l1);
    let b = luid_key(h2, l2);
    lemma_hex_digits(h1 as nat, 8);
    lemma_hex_digits(h2 as nat, 8);
    lemma_hex_digits(l1 as nat, 8);
    lemma_hex_digits(l2 as nat, 8);
    assert(a.subrange(7, 15) =~= hex_digits(h1 as nat, 8));
    assert(b.subrange(7, 15) =~= hex_digits(h2 as nat, 8));
    assert(a.subrange(18, 26) =~= hex_digits(l1 as nat, 8));
    assert(b.subrange(18, 26) =~= hex_digits(l2 as nat, 8));
    reveal_with_fuel(pow16, 9);
    lemma_hex_injective(h1 as nat, h2 as nat, 8);
    lemma_hex_injective(l1 as nat, l2 as nat, 8);
}

/// An instance of a process on an adapter, as the system writes its name.
pub open spec fn instance_of(pid: u32, high: u32, low: u32, rest: Seq<char>) -> Seq<char> {
    "pid_"@ + decimal(pid as nat) + "_"@ + luid_key(high, low) + "_"@ + rest
}

/// An instance name gives back the process and the adapter that it was made
/// of, whatever follows them.
pub proof fn an_instance_names_its_process_and_adapter(
    pid: u32,
    high: u32,
    low: u32,
    rest: Seq<char>,
)
    ensures
        pid_in(instance_of(pid, high, low, rest)) == Some(pid),
        luid_in(instance_of(pid, high, low, rest)) == Some(luid_key(high, low)),
        luid_in(luid_key(high, low) + "_"@ + rest) == Some(luid_key(high, low)),
{
    let d = decimal(pid as nat);
    let key = luid_key(high, low);
    let word = "luid"@;
    let s = instance_of(pid, high, low, rest);
    decimal_reads_back(pid as nat);
    numbers_are_read_from_digits(d, pid as nat, u32::MAX as nat);
    lemma_half(high);
    lemma_half(low);
    reveal_strlit("pid_");
    reveal_strlit("_");
    reveal_strlit("luid");
    reveal_strlit("luid_");
    reveal_strlit("luid_0x");
    reveal_strlit("_0x");
    if d.contains('_') {
        let w = choose|w: int| 0 <= w < d.len() && d[w] == '_';
        assert(is_digit(d[w]));
    }
    let tail = key + "_"@ + rest;
    let short = word.push('_') + (half(high).push('_') + (half(low).push('_') + rest));
    assert(tail =~= short);
    assert(!word.contains('_'));
    lemma_split_after(word, '_', half(high).push('_') + (half(low).push('_') + rest));
    lemma_split_after(half(high), '_', half(low).push('_') + rest);
    lemma_split_after(half(low), '_', rest);
    let tokens = split(tail, '_');
    lemma_split_nonempty(rest, '_');
    assert(tokens[0] == word && tokens[1] == half(high) && tokens[2] == half(low));
    assert("luid_"@ + half(high) + "_"@ + half(low) =~= key);
    assert(luid_at(tokens, 0));
    let word_pid = seq!['p', 'i', 'd'];
    assert(!word_pid.contains('_'));
    assert(s =~= word_pid.push('_') + (d.push('_') + tail));
    lemma_split_after(word_pid, '_', d.push('_') + tail);
    lemma_split_after(d, '_', tail);
    let all = split(s, '_');
    assert(all[0] == word_pid && all[1] == d);
    assert(all[2] == tokens[0] && all[3] == tokens[1] && all[4] == tokens[2]);
    assert(word_pid.len() == 3 && word.len() == 4);
    assert(!luid_at(all, 0));
    assert(is_digit(d[0]) && word[0] == 'l');
    assert(!luid_at(all, 1));
    assert(luid_at(all, 2));
    assert(luid_from(all, 0) == luid_from(all, 1));
    assert(luid_from(all, 1) == luid_from(all, 2));
    assert(s.subrange(0, 4) =~= "pid_"@);
    assert(s.skip(4) =~= d.push('_') + tail);
    assert(split(s.skip(4), '_')[0] == d);
}

proof fn lemma_first_at(hay: Seq<char>, needle: Seq<char>, from: int, at: int)
    requires
        0 <= from <= at <= hay.len(),
        occurs_at(hay, needle, at),
        forall|i: int| from <= i < at ==> !#[trigger] occurs_at(hay, needle, i),
    ensures
        first_at(hay, needle, from) == Some(at),
    decreases at - from,
{
    if from < at {
        assert(!occurs_at(hay, needle, from));
        lemma_first_at(hay, needle, from + 1, at);
    }
}

proof fn lemma_nowhere(hay: Seq<char>, needle: Seq<char>, from: int)
    requires
        0 <= from <= hay.len() + 1,
        !contains_text(hay, needle),
    ensures
        first_at(hay, needle, from) is None,
    decreases hay.len() + 1 - from,
{
    if from <= hay.len() {
        assert(!occurs_at(hay, needle, from));
        lemma_nowhere(hay, needle, from + 1);
    }
}

/// The engine of an instance is what follows the mark; an instance without the
/// mark has none.
pub proof fn an_instance_names_its_engine(before: Seq<char>, eng: Seq<char>, plain: Seq<char>)
    requires
        forall|i: int|
            0 <= i < before.len() ==> !#[trigger] occurs_at(
                before + "engtype_"@ + eng,
                "engtype_"@,
                i,
            ),
        !contains_text(eng, "engtype_"@),
        !contains_text(plain, "engtype_"@),
    ensures
        engine_in(before + "engtype_"@ + eng) == Some(eng),
        engine_in(plain) is None,
{
    let mark = "engtype_"@;
    let s = before + mark + eng;
    a_text_is_found_where_it_stands(before, mark, eng);
    lemma_first_at(s, mark, 0, before.len() as int);
    assert(s.skip(before.len() as int + mark.len()) =~= eng);
    lemma_nowhere(eng, mark, 0);
    lemma_nowhere(plain, mark, 0);
}

/// An adapter with half a gibibyte of its own is a card; a smaller pool makes it
/// integrated only where the shared one dwarfs it. More shared memory never
/// turns an integrated adapter into a card.
pub proof fn small_pools_mark_integrated_adapters(dedicated: u64, shared: u64, more: u64)
    requires
        shared <= more,
    ensures
        dedicated >= 0x2000_0000 ==> !integrated_by(dedicated, shared),
        shared < 4 * dedicated ==> !integrated_by(dedicated, shared),
        integrated_by(dedicated, shared) ==> integrated_by(dedicated, more),
        dedicated < 0x2000_0000 && shared >= 4 * dedicated ==> integrated_by(dedicated, shared),
{
}

/// A process is charged for the pool that its adapter works in; one that only
/// the other pool lists holds none of it, and one that none lists is unknown.
pub proof fn a_process_is_charged_for_its_adapters_pool(b: u64, other: Option<u64>)
    ensures
        charged(true, other, Some(b)) == Some(b),
        charged(false, Some(b), other) == Some(b),
        charged(true, Some(b), None) == Some(0u64),
        charged(false, None, Some(b)) == Some(0u64),
        charged(true, None, None) is None && charged(false, None, None) is None,
{
}

/// An adapter's pool is the shared one where it is integrated, its own
/// otherwise, and its name is without padding.
pub proof fn an_adapter_is_what_it_is_described_as(
    a: Adapter,
    d: AdapterDesc,
    name: Seq<char>,
    pad: nat,
)
    requires
        is_adapter(a, d),
        name.len() > 0 ==> name.last() != '\0',
        d.description@ == name + Seq::new(pad, |i: int| '\0'),
    ensures
        a.name@ == name,
        a.integrated ==> a.vram_total == d.shared_bytes,
        !a.integrated ==> a.vram_total == d.dedicated_bytes,
        a.vendor_id == d.vendor_id,
        d.dedicated_bytes >= 0x2000_0000 ==> !a.integrated,
    decreases pad,
{
    lemma_padding(name, pad);
}

proof fn lemma_padding(name: Seq<char>, pad: nat)
    requires
        name.len() > 0 ==> name.last() != '\0',
    ensures
        trim_end_of(name + Seq::new(pad, |i: int| '\0'), '\0') == name,
    decreases pad,
{
    let s = name + Seq::new(pad, |i: int| '\0');
    if pad > 0 {
        lemma_padding(name, (pad - 1) as nat);
        assert(s.drop_last() =~= name + Seq::new((pad - 1) as nat, |i: int| '\0'));
    } else {
        assert(s =~= name);
    }
}

/// An adapter is left to its vendor's own backend exactly where that claimed
/// the vendor.
pub proof fn only_claimed_vendors_are_left_out<T>(
    adapters: Seq<T>,
    claimed: Seq<u16>,
    vendor_of: spec_fn(T) -> u32,
    a: T,
)
    ensures
        unclaimed(adapters, claimed, vendor_of).contains(a) <==> adapters.contains(a) && !is_claimed(
            claimed,
            vendor_of(a),
        ),
        claimed.len() == 0 ==> unclaimed(adapters, claimed, vendor_of) == adapters,
    decreases adapters.len(),
{
    let all = unclaimed(adapters, claimed, vendor_of);
    if adapters.len() > 0 {
        let init = adapters.drop_last();
        let rest = unclaimed(init, claimed, vendor_of);
        only_claimed_vendors_are_left_out(init, claimed, vendor_of, a);
        assert(adapters[adapters.len() - 1] == adapters.last());
        if rest.contains(a) {
            let w = choose|w: int| 0 <= w < rest.len() && rest[w] == a;
            assert(all[w] == a);
        }
        if all.contains(a) {
            let w = choose|w: int| 0 <= w < all.len() && all[w] == a;
            if w < rest.len() {
                assert(rest[w] == a);
            }
        }
        if adapters.contains(a) {
            let w = choose|w: int| 0 <= w < adapters.len() && adapters[w] == a;
            if w < init.len() {
                assert(init[w] == a);
            }
        }
        if init.contains(a) {
            let w = choose|w: int| 0 <= w < init.len() && init[w] == a;
            assert(adapters[w] == a);
        }
        if !is_claimed(claimed, vendor_of(adapters.last())) {
            assert(all[rest.len() as int] == adapters.last());
        }
        if claimed.len() == 0 {
            assert(all =~= adapters);
        }
    } else {
        assert(all =~= adapters);
    }
}

/// A counter that names an adapter and an engine gives a sample with its value;
/// nothing else does.
pub proof fn every_named_counter_gives_its_sample(list: Seq<(String, Real)>, k: int)
    requires
        0 <= k < list.len(),
    ensures
        luid_in(list[k].0@) is Some && engine_in(list[k].0@) is Some ==> parsed(list).contains(
            SampleModel {
                luid: luid_in(list[k].0@)->0,
                eng: engine_in(list[k].0@)->0,
                pid: pid_in(list[k].0@),
                value: list[k].1,
            },
        ),
        parsed(list).len() <= list.len(),
    decreases list.len(),
{
    let init = list.drop_last();
    let head = parsed(init);
    let all = parsed(list);
    lemma_parsed_count(list);
    let x = SampleModel {
        luid: luid_in(list[k].0@)->0,
        eng: engine_in(list[k].0@)->0,
        pid: pid_in(list[k].0@),
        value: list[k].1,
    };
    if k < list.len() - 1 {
        assert(init[k] == list[k]);
        every_named_counter_gives_its_sample(init, k);
        if head.contains(x) {
            let w = choose|w: int| 0 <= w < head.len() && head[w] == x;
            assert(all[w] == x);
        }
    } else if luid_in(list[k].0@) is Some && engine_in(list[k].0@) is Some {
        assert(all[head.len() as int] == x);
    }
}

proof fn lemma_parsed_count(list: Seq<(String, Real)>)
    ensures
        parsed(list).len() <= list.len(),
    decreases list.len(),
{
    if list.len() > 0 {
        lemma_parsed_count(list.drop_last());
    }
}

/// An engine that encodes counts as that alone, also where it decodes; no
/// engine counts as both.
pub proof fn encoders_and_decoders_are_told_apart(a: Seq<char>, b: Seq<char>)
    ensures
        of_media(a + "videoencode"@ + b, Media::Encode),
        !of_media(a + "videoencode"@ + b, Media::Decode),
        !contains_text(a, "videoencode"@) && contains_text(a, "videodecode"@) ==> of_media(
            a,
            Media::Decode,
        ) && !of_media(a, Media::Encode),
        !(of_media(a, Media::Encode) && of_media(a, Media::Decode)),
        of_media(a, Media::Any),
{
    a_text_is_found_where_it_stands(a, "videoencode"@, b);
}

/// A further sample counts for its own adapter, process and engine, with its
/// value, and for no other.
pub proof fn a_sample_counts_where_it_belongs(
    samples: Seq<SampleModel>,
    s: SampleModel,
    luid: Seq<char>,
    pid: Option<u32>,
    media: Media,
    eng: Seq<char>,
)
    ensures
        s.luid == luid && (pid is None || s.pid == pid) && of_media(s.eng, media) && s.eng == eng
            ==> values_of(samples.push(s), luid, pid, media, eng) == values_of(
            samples,
            luid,
            pid,
            media,
            eng,
        ).push(s.value),
        s.luid != luid || s.eng != eng || (pid is Some && s.pid != pid) ==> values_of(
            samples.push(s),
            luid,
            pid,
            media,
            eng,
        ) == values_of(samples, luid, pid, media, eng),
        values_of(Seq::empty(), luid, pid, media, eng).len() == 0,
{
    assert(samples.push(s).drop_last() =~= samples);
}

/// Bytes add up over the instances that name an adapter, and a process on it
/// where one is asked for; where none does they are unknown, not zero.
pub proof fn bytes_add_up_where_they_belong(
    list: Seq<(String, u64)>,
    name: String,
    b: u64,
    luid: Seq<char>,
    pid: Option<u32>,
)
    ensures
        luid_in(name@) == Some(luid) && (pid is None || pid_in(name@) == pid) ==> bytes_of(
            list.push((name, b)),
            luid,
            pid,
        ) == Some(
            (match bytes_of(list, luid, pid) {
                Some(n) => n,
                None => 0,
            }) + b as nat,
        ),
        luid_in(name@) != Some(luid) || (pid is Some && pid_in(name@) != pid) ==> bytes_of(
            list.push((name, b)),
            luid,
            pid,
        ) == bytes_of(list, luid, pid),
        bytes_of(Seq::empty(), luid, pid) is None,
        list_total(list.push((name, b))) == list_total(list) + b,
{
    assert(list.push((name, b)).drop_last() =~= list);
}

/// An adapter is found by its key.
pub proof fn an_adapter_is_found_by_its_key(adapters: Seq<Adapter>, luid: Seq<char>, g: int)
    ensures
        0 <= g < adapters.len() && adapters[g].luid_key@ == luid && (forall|j: int|
            g < j < adapters.len() ==> (#[trigger] adapters[j]).luid_key@ != luid) ==> gpu_of(
            adapters,
            luid,
        ) == Some(g),
        (forall|j: int| 0 <= j < adapters.len() ==> (#[trigger] adapters[j]).luid_key@ != luid)
            ==> gpu_of(adapters, luid) is None,
    decreases adapters.len(),
{
    if adapters.len() > 0 {
        let init = adapters.drop_last();
        an_adapter_is_found_by_its_key(init, luid, g);
        assert(forall|j: int| 0 <= j < init.len() ==> init[j] == adapters[j]);
        let n = adapters.len() - 1;
        assert(adapters[n] == adapters.last());
        if forall|j: int| 0 <= j < adapters.len() ==> (#[trigger] adapters[j]).luid_key@ != luid {
            assert forall|j: int| 0 <= j < init.len() implies (#[trigger] init[j]).luid_key@ != luid by {
                assert(init[j] == adapters[j]);
            }
        }
        if 0 <= g < n && adapters[g].luid_key@ == luid && (forall|j: int|
            g < j < adapters.len() ==> (#[trigger] adapters[j]).luid_key@ != luid) {
            assert(adapters[n].luid_key@ != luid);
            assert forall|j: int| g < j < init.len() implies (#[trigger] init[j]).luid_key@ != luid by {
                assert(init[j] == adapters[j]);
            }
        }
    }
}

/// An adapter shows the bytes of the pool that it works in, out of that pool,
/// and goes by its key; what the counters do not say stays unknown.
pub proof fn an_adapter_shows_its_own_pool(s: RawSnapshot, a: Adapter, c: PdhCounters, n: u64)
    requires
        is_adapter_sample(s, a, c),
        c.fit(),
    ensures
        opt_text(s.device_id) == Some(a.luid_key@) && s.name == a.name,
        s.vram_total_bytes == Some(a.vram_total) && s.integrated == a.integrated,
        a.integrated && bytes_of(c.shared@, a.luid_key@, None) == Some(n as nat)
            ==> s.vram_used_bytes == Some(n),
        !a.integrated && bytes_of(c.dedicated@, a.luid_key@, None) == Some(n as nat)
            ==> s.vram_used_bytes == Some(n),
        a.integrated && bytes_of(c.shared@, a.luid_key@, None) is None ==> s.vram_used_bytes is None,
        !a.integrated && bytes_of(c.dedicated@, a.luid_key@, None) is None
            ==> s.vram_used_bytes is None,
        s.temperature_c is None && s.power_w is None && s.clock_mhz is None && s.fan_pct is None,
        s.gtt_used_bytes is None && s.throttle is None,
{
}

/// A process that keeps a drawing engine busy is a graphics one, any other a
/// compute one.
pub proof fn drawing_makes_a_graphics_process(
    row: RawProcess,
    adapters: Seq<Adapter>,
    c: PdhCounters,
    i: int,
)
    requires
        is_process_row(row, adapters, c),
        0 <= i < parsed(c.engines@).len(),
        selected(
            parsed(c.engines@)[i],
            adapters[row.gpu_index as int].luid_key@,
            Some(row.pid),
            Media::Any,
        ),
    ensures
        contains_text(parsed(c.engines@)[i].eng, "3d"@) || contains_text(
            parsed(c.engines@)[i].eng,
            "graphics"@,
        ) ==> row.kind == ProcKind::Graphics,
        row.kind == ProcKind::Graphics ==> exists|j: int|
            0 <= j < parsed(c.engines@).len() && (#[trigger] parsed(c.engines@)[j]).pid == Some(
                row.pid,
            ) && (contains_text(parsed(c.engines@)[j].eng, "3d"@) || contains_text(
                parsed(c.engines@)[j].eng,
                "graphics"@,
            )),
        row.gpu_util_pct is Some,
{
}

/// What the counters do not tell stays unknown, and an adapter goes by its own
/// name, key and size.
pub proof fn what_the_counters_hide_is_unknown(s: RawSnapshot, a: Adapter, c: PdhCounters)
    requires
        is_adapter_sample(s, a, c),
    ensures
        s.name == a.name && opt_text(s.device_id) == Some(a.luid_key@),
        s.integrated == a.integrated && s.vram_total_bytes == Some(a.vram_total),
        s.mem_util_pct is None && s.video_util_pct is None && s.throttle is None,
        s.temperature_c is None && s.temp_slowdown_c is None,
        s.temp_junction_c is None && s.temp_mem_c is None,
        s.power_w is None && s.power_limit_w is None && s.fan_pct is None && s.fan_rpm is None,
        s.clock_mhz is None && s.mem_clock_mhz is None,
        s.pcie_gen is None && s.pcie_width is None,
        s.pcie_max_gen is None && s.pcie_max_width is None,
        s.pcie_rx_kbs is None && s.pcie_tx_kbs is None,
        s.gtt_used_bytes is None && s.gtt_total_bytes is None,
        s.volt_mv is None && s.perf_level is None,
{
}

/// A process has one row on an adapter, the row stands for a counter that names
/// it, and it is on the adapter that carries the counter's key.
pub proof fn a_process_has_one_row_on_an_adapter(
    rows: Seq<RawProcess>,
    adapters: Seq<Adapter>,
    c: PdhCounters,
    a: int,
    b: int,
)
    requires
        rows_right(rows, adapters, c),
        0 <= a < rows.len(),
        0 <= b < rows.len(),
    ensures
        rows[a].pid == rows[b].pid && rows[a].gpu_index == rows[b].gpu_index ==> a == b,
        rows[a].gpu_index < adapters.len(),
        is_listed(c, rows[a].pid, adapters[rows[a].gpu_index as int].luid_key@),
        rows[a].kind is Graphics || rows[a].kind is Compute,
        rows[a].kind is Graphics <==> draws(
            parsed(c.engines@),
            rows[a].pid,
            adapters[rows[a].gpu_index as int].luid_key@,
        ),
{
    assert(is_process_row(rows[a], adapters, c));
    if a < b {
        assert(rows[a].pid != rows[b].pid || rows[a].gpu_index != rows[b].gpu_index);
    }
    if b < a {
        assert(rows[b].pid != rows[a].pid || rows[b].gpu_index != rows[a].gpu_index);
    }
}

} // verus!
