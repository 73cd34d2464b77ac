//! PCIe link speeds: the generation that a transfer rate names.
use vstd::prelude::*;
use crate::order::{chars_before, text_lt};
use crate::text::{ascii_lowercase, char_ascii_lower, chars_of, decimal, decimal_reads_back, find_char, head_until, is_digit, lemma_head_until, numeral_value, numerals_are_written_in_tens, same_chars, slice_of, texts, words, words_of};

verus! {

/// A decimal numeral: its digits, and how many of them stand before the point
/// (below zero, the point stands that many zeros ahead of the first digit).
pub struct Decimal {
    pub digits: Seq<char>,
    pub point: int,
}

/// What a floating-point token writes.
pub enum Number {
    NotANumber,
    Infinite,
    Finite(Decimal),
}

pub open spec fn all_digits(s: Seq<char>) -> bool {
    forall|i: int| 0 <= i < s.len() ==> is_digit(#[trigger] s[i])
}

/// `s` without its leading zeros.
pub open spec fn strip_zeros(s: Seq<char>) -> Seq<char>
    decreases s.len(),
{
    if s.len() > 0 && s[0] == '0' {
        strip_zeros(s.skip(1))
    } else {
        s
    }
}

/// `s` without one leading sign.
pub open spec fn unsigned(s: Seq<char>) -> Seq<char> {
    if s.len() > 0 && (s[0] == '+' || s[0] == '-') {
        s.skip(1)
    } else {
        s
    }
}

pub open spec fn is_negative(s: Seq<char>) -> bool {
    s.len() > 0 && s[0] == '-'
}

/// What stands before the exponent mark.
pub open spec fn mantissa(s: Seq<char>) -> Seq<char> {
    head_until(s.map_values(|c: char| if c == 'E' { 'e' } else { c }), 'e')
}

/// The exponent: zero where there is no mark, nothing where the mark is not
/// followed by an optionally signed numeral.
pub open spec fn exponent(s: Seq<char>) -> Option<int> {
    let n = mantissa(s).len() as int;
    if n == s.len() {
        Some(0)
    } else {
        let rest = s.skip(n + 1);
        let digits = unsigned(rest);
        if digits.len() == 0 || !all_digits(digits) {
            None
        } else if is_negative(rest) {
            Some(-(numeral_value(digits) as int))
        } else {
            Some(numeral_value(digits) as int)
        }
    }
}

/// The magnitude that an unsigned token writes: digits with at most one point
/// and an optional exponent, `inf`, `infinity` or `nan`.
pub open spec fn magnitude(s: Seq<char>) -> Option<Number> {
    let low = ascii_lowercase(s);
    if low == "inf"@ || low == "infinity"@ {
        Some(Number::Infinite)
    } else if low == "nan"@ {
        Some(Number::NotANumber)
    } else {
        let m = mantissa(s);
        let whole = head_until(m, '.');
        let part = if whole.len() == m.len() {
            Seq::<char>::empty()
        } else {
            m.skip(whole.len() as int + 1)
        };
        if whole.len() + part.len() == 0 || !all_digits(whole) || !all_digits(part) {
            None
        } else {
            match exponent(s) {
                Some(e) => Some(
                    Number::Finite(Decimal { digits: whole + part, point: whole.len() + e }),
                ),
                None => None,
            }
        }
    }
}

/// The whole part of `d` where it is below a thousand, and its fraction digits.
pub open spec fn whole_part(digits: Seq<char>, point: int) -> nat {
    if point <= 0 {
        0
    } else if digits.len() >= point {
        numeral_value(digits.take(point))
    } else if point - digits.len() == 1 {
        numeral_value(digits) * 10
    } else {
        numeral_value(digits) * 100
    }
}

pub open spec fn fraction(digits: Seq<char>, point: int) -> Seq<char> {
    if digits.len() > point {
        digits.skip(point)
    } else {
        Seq::empty()
    }
}

/// A number with this whole part and fraction, rounded to the nearest double,
/// is at least `t`: it is, or it falls short by no more than half a step below
/// `t`, whose fraction `edge` writes out.
pub open spec fn reaches(whole: nat, frac: Seq<char>, t: nat, edge: Seq<char>) -> bool {
    whole >= t || (whole + 1 == t && !text_lt(frac, edge))
}

/// One less half a step below 128, 64, 32, 16 and 8 (and 5).
pub const EDGE_128: &'static str = "99999999999999289457264239899814128875732421875";

pub const EDGE_64: &'static str = "999999999999996447286321199499070644378662109375";

pub const EDGE_32: &'static str = "9999999999999982236431605997495353221893310546875";

pub const EDGE_16: &'static str = "99999999999999911182158029987476766109466552734375";

pub const EDGE_8: &'static str = "999999999999999555910790149937383830547332763671875";

/// The generation of a decimal rate in GT/s, read as a double.
pub open spec fn gen_of_decimal(d: Decimal) -> u8 {
    let digits = strip_zeros(d.digits);
    let point = d.point - (d.digits.len() - digits.len());
    if digits.len() == 0 || point <= 0 {
        1
    } else if point > 3 {
        7
    } else {
        let whole = whole_part(digits, point);
        let frac = fraction(digits, point);
        if reaches(whole, frac, 128, EDGE_128@) {
            7
        } else if reaches(whole, frac, 64, EDGE_64@) {
            6
        } else if reaches(whole, frac, 32, EDGE_32@) {
            5
        } else if reaches(whole, frac, 16, EDGE_16@) {
            4
        } else if reaches(whole, frac, 8, EDGE_8@) {
            3
        } else if reaches(whole, frac, 5, EDGE_8@) {
            2
        } else {
            1
        }
    }
}

/// The generation that a rate token names: 128 GT/s and up is 7, then 64, 32,
/// 16, 8 and 5; anything slower, negative or undefined is 1.
pub open spec fn gen_of_token(s: Seq<char>) -> Option<u8> {
    match magnitude(unsigned(s)) {
        None => None,
        Some(Number::NotANumber) => Some(1),
        Some(Number::Infinite) => Some(
            if is_negative(s) {
                1
            } else {
                7
            },
        ),
        Some(Number::Finite(d)) => Some(
            if is_negative(s) {
                1
            } else {
                gen_of_decimal(d)
            },
        ),
    }
}

// ---------------------------------------------------------------- code

fn digits_only(cs: &Vec<char>) -> (b: bool)
    ensures
        b == all_digits(cs@),
{
    let mut i: usize = 0;
    while i < cs.len()
        invariant
            i <= cs.len(),
            forall|k: int| 0 <= k < i ==> is_digit(#[trigger] cs@[k]),
        decreases cs.len() - i,
    {
        if !(cs[i] >= '0' && cs[i] <= '9') {
            assert(!is_digit(cs@[i as int]));
            return false;
        }
        i = i + 1;
    }
    true
}

/// The largest exponent that is told apart from larger ones.
const CAP: i128 = 0x1_0000_0000_0000_0000_0000;

/// The value of a run of digits, or `CAP` where it is larger.
fn capped_value(cs: &Vec<char>) -> (n: i128)
    requires
        all_digits(cs@),
    ensures
        0 <= n <= CAP,
        n < CAP ==> n == numeral_value(cs@),
        n == CAP ==> numeral_value(cs@) >= CAP,
{
    let mut n: i128 = 0;
    let mut i: usize = 0;
    assert(cs@.take(0) =~= Seq::<char>::empty());
    while i < cs.len()
        invariant
            i <= cs.len(),
            all_digits(cs@),
            0 <= n <= CAP,
            n < CAP ==> n == numeral_value(cs@.take(i as int)),
            n == CAP ==> numeral_value(cs@.take(i as int)) >= CAP,
        decreases cs.len() - i,
    {
        assert(is_digit(cs@[i as int]));
        let d: i128 = cs[i] as i128 - '0' as i128;
        assert(cs@.take(i + 1).drop_last() =~= cs@.take(i as int));
        let next: i128 = n * 10 + d;
        n = if next > CAP { CAP } else { next };
        i = i + 1;
    }
    assert(cs@.take(i as int) =~= cs@);
    n
}

fn lower(cs: &Vec<char>) -> (out: Vec<char>)
    ensures
        out@ == ascii_lowercase(cs@),
{
    let mut out: Vec<char> = Vec::new();
    let mut i: usize = 0;
    while i < cs.len()
        invariant
            i <= cs.len(),
            out@ == ascii_lowercase(cs@).take(i as int),
        decreases cs.len() - i,
    {
        out.push(char_ascii_lower(cs[i]));
        assert(out@ =~= ascii_lowercase(cs@).take(i + 1));
        i = i + 1;
    }
    assert(out@ =~= ascii_lowercase(cs@));
    out
}

/// Where the exponent mark stands, or the length.
fn mark_at(cs: &Vec<char>) -> (n: usize)
    ensures
        n <= cs.len(),
        mantissa(cs@) == cs@.take(n as int),
{
    let ghost folded = cs@.map_values(|c: char| if c == 'E' { 'e' } else { c });
    let mut n: usize = 0;
    while n < cs.len() && cs[n] != 'e' && cs[n] != 'E'
        invariant
            n <= cs.len(),
            folded == cs@.map_values(|c: char| if c == 'E' { 'e' } else { c }),
            forall|k: int| 0 <= k < n ==> cs@[k] != 'e' && cs@[k] != 'E',
        decreases cs.len() - n,
    {
        n = n + 1;
    }
    proof {
        lemma_head_until(folded, 'e', n as int);
        assert(folded.take(n as int) =~= cs@.take(n as int));
    }
    n
}

fn drop_sign(cs: &Vec<char>) -> (out: Vec<char>)
    ensures
        out@ == unsigned(cs@),
{
    let from: usize = if cs.len() > 0 && (cs[0] == '+' || cs[0] == '-') { 1 } else { 0 };
    let out = slice_of(cs, from, cs.len());
    assert(out@ =~= unsigned(cs@));
    out
}

/// The exponent behind the mark at `n`, told apart up to `CAP`.
fn read_exponent(cs: &Vec<char>, n: usize) -> (r: Option<i128>)
    requires
        n <= cs.len(),
        mantissa(cs@) == cs@.take(n as int),
    ensures
        match r {
            Some(e) => {
                &&& exponent(cs@) is Some
                &&& -CAP <= e <= CAP
                &&& -CAP < e < CAP ==> exponent(cs@) == Some(e as int)
                &&& e == CAP ==> exponent(cs@)->0 >= CAP
                &&& e == -CAP ==> exponent(cs@)->0 <= -CAP
            },
            None => exponent(cs@) is None,
        },
{
    if n == cs.len() {
        return Some(0);
    }
    let rest = slice_of(cs, n + 1, cs.len());
    assert(rest@ =~= cs@.skip(n as int + 1));
    let digits = drop_sign(&rest);
    if digits.len() == 0 || !digits_only(&digits) {
        return None;
    }
    let v: i128 = capped_value(&digits);
    if rest.len() > 0 && rest[0] == '-' {
        Some(-v)
    } else {
        Some(v)
    }
}

/// The value of at most three digits.
fn small_value(cs: &Vec<char>, from: usize, to: usize) -> (n: u64)
    requires
        from <= to <= cs.len(),
        to - from <= 3,
        all_digits(cs@),
    ensures
        n == numeral_value(cs@.subrange(from as int, to as int)),
        n < 1000,
{
    let mut n: u64 = 0;
    let mut i: usize = from;
    while i < to
        invariant
            from <= i <= to <= cs.len(),
            to - from <= 3,
            all_digits(cs@),
            n == numeral_value(cs@.subrange(from as int, i as int)),
            i == from ==> n == 0,
            i == from + 1 ==> n < 10,
            i == from + 2 ==> n < 100,
            i == from + 3 ==> n < 1000,
        decreases to - i,
    {
        assert(is_digit(cs@[i as int]));
        assert(cs@.subrange(from as int, i + 1).drop_last() =~= cs@.subrange(from as int, i as int));
        let d: u64 = cs[i] as u64 - '0' as u64;
        n = n * 10 + d;
        i = i + 1;
    }
    n
}

fn reaches_edge(whole: u64, frac: &Vec<char>, t: u64, edge: &str) -> (b: bool)
    requires
        whole < 10_000,
    ensures
        b == reaches(whole as nat, frac@, t as nat, edge@),
{
    whole >= t || (whole + 1 == t && !chars_before(frac, &chars_of(edge)))
}

fn gen_of_digits(whole: &Vec<char>, part: &Vec<char>, e: i128, Ghost(exact): Ghost<int>) -> (g: u8)
    requires
        all_digits(whole@),
        all_digits(part@),
        -CAP <= e <= CAP,
        -CAP < e < CAP ==> exact == e,
        e == CAP ==> exact >= CAP,
        e == -CAP ==> exact <= -CAP,
    ensures
        g == gen_of_decimal(Decimal { digits: whole@ + part@, point: whole@.len() + exact }),
{
    let mut all: Vec<char> = Vec::new();
    let mut i: usize = 0;
    let wlen: usize = whole.len();
    let plen: usize = part.len();
    while i < wlen
        invariant
            i <= wlen,
            wlen == whole@.len(),
            all@ == whole@.take(i as int),
        decreases wlen - i,
    {
        all.push(whole[i]);
        i = i + 1;
    }
    let mut j: usize = 0;
    assert(all@ =~= whole@ + part@.take(0));
    while j < plen
        invariant
            j <= plen,
            plen == part@.len(),
            all@ == whole@ + part@.take(j as int),
        decreases plen - j,
    {
        all.push(part[j]);
        assert(all@ =~= whole@ + part@.take(j + 1));
        j = j + 1;
    }
    assert(all@ =~= whole@ + part@);
    assert(all_digits(all@));
    let mut z: usize = 0;
    assert(all@.skip(0) =~= all@);
    while z < all.len() && all[z] == '0'
        invariant
            z <= all.len(),
            strip_zeros(all@) == strip_zeros(all@.skip(z as int)),
        decreases all.len() - z,
    {
        assert(all@.skip(z as int).skip(1) =~= all@.skip(z + 1));
        z = z + 1;
    }
    let digits = slice_of(&all, z, all.len());
    assert(digits@ =~= all@.skip(z as int));
    assert(digits@ == strip_zeros(all@));
    let ghost point_exact = whole@.len() + exact - z;
    if digits.len() == 0 {
        return 1;
    }
    let point: i128 = wlen as i128 + e - z as i128;
    if point <= 0 {
        return 1;
    }
    if point > 3 {
        return 7;
    }
    assert(point == point_exact);
    let p: usize = point as usize;
    let dlen: usize = digits.len();
    let value: u64 = if dlen >= p {
        let v: u64 = small_value(&digits, 0, p);
        assert(digits@.subrange(0, p as int) =~= digits@.take(p as int));
        v
    } else {
        let v: u64 = small_value(&digits, 0, dlen);
        assert(digits@.subrange(0, dlen as int) =~= digits@);
        if p - dlen == 1 {
            v * 10
        } else {
            v * 100
        }
    };
    let frac = if dlen > p {
        slice_of(&digits, p, dlen)
    } else {
        Vec::new()
    };
    assert(frac@ =~= fraction(digits@, point as int));
    assert(value == whole_part(digits@, point as int));
    assert(value < 10_000) by {
        lemma_small(digits@, point as int);
    }
    if reaches_edge(value, &frac, 128, EDGE_128) {
        7
    } else if reaches_edge(value, &frac, 64, EDGE_64) {
        6
    } else if reaches_edge(value, &frac, 32, EDGE_32) {
        5
    } else if reaches_edge(value, &frac, 16, EDGE_16) {
        4
    } else if reaches_edge(value, &frac, 8, EDGE_8) {
        3
    } else if reaches_edge(value, &frac, 5, EDGE_8) {
        2
    } else {
        1
    }
}

proof fn lemma_value_bound(s: Seq<char>)
    requires
        all_digits(s),
        s.len() <= 3,
    ensures
        s.len() == 0 ==> numeral_value(s) == 0,
        s.len() == 1 ==> numeral_value(s) < 10,
        s.len() == 2 ==> numeral_value(s) < 100,
        s.len() == 3 ==> numeral_value(s) < 1000,
    decreases s.len(),
{
    if s.len() > 0 {
        assert(is_digit(s[s.len() - 1]));
        assert(all_digits(s.drop_last()));
        lemma_value_bound(s.drop_last());
    }
}

proof fn lemma_small(digits: Seq<char>, point: int)
    requires
        all_digits(digits),
        0 < point <= 3,
        digits.len() > 0,
    ensures
        whole_part(digits, point) < 10_000,
{
    if digits.len() >= point {
        assert(all_digits(digits.take(point)));
        lemma_value_bound(digits.take(point));
    } else {
        lemma_value_bound(digits);
    }
}

/// "16.0 GT/s PCIe" to 4. A rate that does not parse, such as "Unknown", has no
/// generation.
pub fn gts_to_gen(speed: &str) -> (r: Option<u8>)
    ensures
        r == (if words(speed@).len() == 0 {
            None
        } else {
            gen_of_token(words(speed@)[0])
        }),
{
    let w = words_of(&chars_of(speed));
    if w.len() == 0 {
        return None;
    }
    assert(texts(w@)[0] == w@[0]@);
    let token = &w[0];
    let negative = token.len() > 0 && token[0] == '-';
    let body = drop_sign(token);
    let low = lower(&body);
    if same_chars(&low, &chars_of("inf")) || same_chars(&low, &chars_of("infinity")) {
        return Some(
            if negative {
                1
            } else {
                7
            },
        );
    }
    if same_chars(&low, &chars_of("nan")) {
        return Some(1);
    }
    let n: usize = mark_at(&body);
    let m = slice_of(&body, 0, n);
    assert(m@ =~= mantissa(body@));
    let dot: usize = match find_char(&m, '.') {
        Some(i) => i,
        None => m.len(),
    };
    proof {
        lemma_head_until(m@, '.', dot as int);
    }
    let mlen: usize = m.len();
    let whole = slice_of(&m, 0, dot);
    assert(whole@ =~= head_until(m@, '.'));
    let part = if dot < mlen {
        slice_of(&m, dot + 1, mlen)
    } else {
        Vec::new()
    };
    assert(part@ =~= (if whole@.len() == m@.len() {
        Seq::<char>::empty()
    } else {
        m@.skip(whole@.len() as int + 1)
    }));
    if (whole.len() == 0 && part.len() == 0) || !digits_only(&whole) || !digits_only(&part) {
        return None;
    }
    match read_exponent(&body, n) {
        None => None,
        Some(e) => {
            if negative {
                Some(1)
            } else {
                Some(gen_of_digits(&whole, &part, e, Ghost(exponent(body@)->0)))
            }
        },
    }
}

// ---------------------------------------------------------------- laws

/// The generation that runs at `n` GT/s.
pub open spec fn gen_at(n: nat) -> u8 {
    if n >= 128 {
        7
    } else if n >= 64 {
        6
    } else if n >= 32 {
        5
    } else if n >= 16 {
        4
    } else if n >= 8 {
        3
    } else if n >= 5 {
        2
    } else {
        1
    }
}

proof fn lemma_decimal_len(n: nat)
    ensures
        decimal(n).len() > 3 <==> n >= 1000,
{
    reveal_with_fuel(decimal, 5);
}

proof fn lemma_no_mark(s: Seq<char>, c: char)
    requires
        forall|i: int| 0 <= i < s.len() ==> #[trigger] s[i] != c,
    ensures
        head_until(s, c) == s,
{
    lemma_head_until(s, c, s.len() as int);
    assert(s.take(s.len() as int) =~= s);
}

/// A link's generation is the one that runs at its rate: it doubles from five
/// and eight GT/s on, a rate between two counts for the slower, and what
/// follows the point does not matter unless it rounds up to the next.
pub proof fn a_rate_names_its_generation(n: nat, f: Seq<char>)
    requires
        n > 0,
        all_digits(f),
        f.len() > 0 ==> f[0] != '9',
    ensures
        gen_of_token(decimal(n)) == Some(gen_at(n)),
        gen_of_token(decimal(n) + seq!['.'] + f) == Some(gen_at(n)),
        gen_of_token(seq!['-'] + decimal(n)) == Some(1u8),
        gen_of_token(Seq::empty()) is None,
{
    let d = decimal(n);
    decimal_reads_back(n);
    numerals_are_written_in_tens(n, 0);
    lemma_decimal_len(n);
    assert(all_digits(d));
    let s = d + seq!['.'] + f;
    assert(is_digit(d[0]));
    lemma_digit_token(d, n, d, Seq::empty());
    assert(d + Seq::<char>::empty() =~= d);
    lemma_digit_token(s, n, d, f);
    let neg = seq!['-'] + d;
    assert(neg.skip(1) =~= d);
    let e = Seq::<char>::empty();
    reveal_strlit("inf");
    reveal_strlit("infinity");
    reveal_strlit("nan");
    assert(ascii_lowercase(e).len() == 0);
    assert(mantissa(e).len() == 0) by {
        let low = e.map_values(|c: char| if c == 'E' { 'e' } else { c });
        assert(low =~= e);
        lemma_no_mark(e, 'e');
    }
    lemma_no_mark(e, '.');
}

proof fn lemma_digit_token(s: Seq<char>, n: nat, d: Seq<char>, f: Seq<char>)
    requires
        n > 0,
        d == decimal(n),
        all_digits(d),
        all_digits(f),
        f.len() > 0 ==> f[0] != '9',
        s == d && f.len() == 0 || s == d + seq!['.'] + f,
        d.len() > 0,
        d[0] != '0',
        d.len() > 3 <==> n >= 1000,
        numeral_value(d) == n,
    ensures
        gen_of_token(s) == Some(gen_at(n)),
        magnitude(s) == Some(Number::Finite(Decimal { digits: d + f, point: d.len() as int })),
{
    reveal_strlit("inf");
    reveal_strlit("infinity");
    reveal_strlit("nan");
    let low = ascii_lowercase(s);
    assert(s[0] == d[0]);
    assert(is_digit(d[0]));
    assert(low[0] == s[0]);
    assert(low != "inf"@) by {
        assert("inf"@[0] == 'i');
    }
    assert(low != "infinity"@) by {
        assert("infinity"@[0] == 'i');
    }
    assert(low != "nan"@) by {
        assert("nan"@[0] == 'n');
    }
    let small = s.map_values(|c: char| if c == 'E' { 'e' } else { c });
    assert forall|i: int| 0 <= i < s.len() implies s[i] != 'e' && #[trigger] s[i] != 'E' by {
        if i < d.len() {
            assert(is_digit(d[i]));
        } else if i > d.len() {
            assert(is_digit(f[i - d.len() - 1]));
        }
    }
    assert(small =~= s);
    lemma_no_mark(s, 'e');
    assert(mantissa(s) == s);
    assert forall|j: int| 0 <= j < d.len() implies s[j] != '.' by {
        assert(is_digit(d[j]));
    }
    lemma_head_until(s, '.', d.len() as int);
    assert(s.take(d.len() as int) =~= d);
    if s.len() > d.len() {
        assert(s.skip(d.len() as int + 1) =~= f);
    } else {
        assert(f =~= Seq::<char>::empty());
    }
    assert(unsigned(s) == s);
    let digits = d + f;
    assert(digits[0] == d[0]);
    assert(strip_zeros(digits) == digits);
    let point = d.len() as int;
    if point <= 3 {
        assert(digits.take(point) =~= d);
        assert(whole_part(digits, point) == n);
        let frac = fraction(digits, point);
        if digits.len() > point {
            assert(digits.skip(point) =~= f);
        }
        assert(frac =~= f);
        lemma_edges();
        assert(f.len() > 0 ==> is_digit(f[0]));
        assert(text_lt(frac, EDGE_128@));
        assert(text_lt(frac, EDGE_64@));
        assert(text_lt(frac, EDGE_32@));
        assert(text_lt(frac, EDGE_16@));
        assert(text_lt(frac, EDGE_8@));
    }
}

proof fn lemma_edges()
    ensures
        EDGE_128@.len() > 0 && EDGE_128@[0] == '9',
        EDGE_64@.len() > 0 && EDGE_64@[0] == '9',
        EDGE_32@.len() > 0 && EDGE_32@[0] == '9',
        EDGE_16@.len() > 0 && EDGE_16@[0] == '9',
        EDGE_8@.len() > 0 && EDGE_8@[0] == '9',
{
    reveal_strlit("99999999999999289457264239899814128875732421875");
    reveal_strlit("999999999999996447286321199499070644378662109375");
    reveal_strlit("9999999999999982236431605997495353221893310546875");
    reveal_strlit("99999999999999911182158029987476766109466552734375");
    reveal_strlit("999999999999999555910790149937383830547332763671875");
}

/// A faster link never counts as an earlier generation.
pub proof fn faster_links_are_later_generations(a: nat, b: nat)
    requires
        0 < a <= b,
    ensures
        (gen_of_token(decimal(a)) matches Some(x) && (gen_of_token(decimal(b)) matches Some(y) && x
            <= y)),
{
    a_rate_names_its_generation(a, Seq::empty());
    a_rate_names_its_generation(b, Seq::empty());
}

} // verus!
