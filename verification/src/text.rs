//! Text primitives: the handful of string operations the parsers and the
//! process filter rest on, stated over sequences of characters.
use vstd::prelude::*;

verus! {

/// `String::push` appends one character and changes nothing before it.
pub assume_specification[ String::push ](s: &mut String, c: char)
    ensures
        final(s)@ == old(s)@.push(c),
;

/// What `str::to_lowercase` makes of a text (the Unicode lowercase mapping).
pub uninterp spec fn lowercase(s: Seq<char>) -> Seq<char>;

/// Calls `str::to_lowercase`: the Unicode lowercase mapping of the text, which
/// is a function of the text alone.
#[verifier::external_body]
pub(crate) fn to_lowercase(s: &str) -> (out: String)
    ensures
        out@ == lowercase(s@),
{
    s.to_lowercase()
}

/// The characters with the Unicode `White_Space` property.
pub open spec fn is_space(c: char) -> bool {
    ||| 0x9 <= c as int <= 0xd
    ||| c == ' '
    ||| c as int == 0x85
    ||| c as int == 0xa0
    ||| c as int == 0x1680
    ||| 0x2000 <= c as int <= 0x200a
    ||| c as int == 0x2028
    ||| c as int == 0x2029
    ||| c as int == 0x202f
    ||| c as int == 0x205f
    ||| c as int == 0x3000
}

/// Whether `c` has the Unicode `White_Space` property.
pub fn char_is_space(c: char) -> (b: bool)
    ensures
        b == is_space(c),
{
    let n: u32 = c as u32;
    (n >= 0x9 && n <= 0xd) || n == 0x20 || n == 0x85 || n == 0xa0 || n == 0x1680 || (n >= 0x2000
        && n <= 0x200a) || n == 0x2028 || n == 0x2029 || n == 0x202f || n == 0x205f || n == 0x3000
}

pub open spec fn is_digit(c: char) -> bool {
    '0' <= c <= '9'
}

pub open spec fn is_hex_digit(c: char) -> bool {
    ||| '0' <= c <= '9'
    ||| 'a' <= c <= 'f'
    ||| 'A' <= c <= 'F'
}

pub fn char_is_hex_digit(c: char) -> (b: bool)
    ensures
        b == is_hex_digit(c),
{
    (c >= '0' && c <= '9') || (c >= 'a' && c <= 'f') || (c >= 'A' && c <= 'F')
}

/// ASCII lowercase of one character: `A` to `Z` move down, the rest stay.
pub open spec fn ascii_lower(c: char) -> char {
    if 'A' <= c <= 'Z' {
        (c as u8 + 32) as char
    } else {
        c
    }
}

pub open spec fn ascii_lowercase(s: Seq<char>) -> Seq<char> {
    s.map_values(|c: char| ascii_lower(c))
}

/// ASCII lowercase of one character.
pub fn char_ascii_lower(c: char) -> (r: char)
    ensures
        r == ascii_lower(c),
{
    if c >= 'A' && c <= 'Z' {
        let n: u8 = c as u8;
        (n + 32) as char
    } else {
        c
    }
}

// ---------------------------------------------------------------- vectors

/// The texts that a vector of character vectors holds.
pub open spec fn texts(v: Seq<Vec<char>>) -> Seq<Seq<char>> {
    v.map_values(|x: Vec<char>| x@)
}

/// The texts that a vector of strings holds.
pub open spec fn string_texts(v: Seq<String>) -> Seq<Seq<char>> {
    v.map_values(|x: String| x@)
}

/// The characters of `s`, in order.
pub fn chars_of(s: &str) -> (out: Vec<char>)
    ensures
        out@ == s@,
{
    let mut out: Vec<char> = Vec::new();
    for c in it: s.chars()
        invariant
            out@ == s@.subrange(0, it.index() as int),
            it.seq() == s@,
    {
        out.push(c);
    }
    assert(out@ =~= s@);
    out
}

/// The string made of the characters of `cs`.
pub fn string_of(cs: &Vec<char>) -> (out: String)
    ensures
        out@ == cs@,
{
    let mut out = String::new();
    let mut i: usize = 0;
    while i < cs.len()
        invariant
            i <= cs.len(),
            out@ == cs@.subrange(0, i as int),
        decreases cs.len() - i,
    {
        out.push(cs[i]);
        i = i + 1;
    }
    assert(out@ =~= cs@);
    out
}

/// The part of `cs` from `from` up to `to`.
pub fn slice_of(cs: &Vec<char>, from: usize, to: usize) -> (out: Vec<char>)
    requires
        from <= to <= cs.len(),
    ensures
        out@ == cs@.subrange(from as int, to as int),
{
    let mut out: Vec<char> = Vec::new();
    let mut i: usize = from;
    while i < to
        invariant
            from <= i <= to <= cs.len(),
            out@ == cs@.subrange(from as int, i as int),
        decreases to - i,
    {
        out.push(cs[i]);
        i = i + 1;
    }
    out
}

/// Whether two character vectors hold the same text.
pub fn same_chars(a: &Vec<char>, b: &Vec<char>) -> (r: bool)
    ensures
        r == (a@ == b@),
{
    if a.len() != b.len() {
        return false;
    }
    let mut i: usize = 0;
    while i < a.len()
        invariant
            i <= a.len(),
            a.len() == b.len(),
            forall|j: int| 0 <= j < i ==> a@[j] == b@[j],
        decreases a.len() - i,
    {
        if a[i] != b[i] {
            assert(a@[i as int] != b@[i as int]);
            return false;
        }
        i = i + 1;
    }
    assert(a@ =~= b@);
    true
}

/// Whether two strings hold the same text.
pub fn same_text(a: &str, b: &str) -> (r: bool)
    ensures
        r == (a@ == b@),
{
    same_chars(&chars_of(a), &chars_of(b))
}

// ---------------------------------------------------------------- search

/// `needle` stands in `hay` at position `i`.
pub open spec fn occurs_at(hay: Seq<char>, needle: Seq<char>, i: int) -> bool {
    0 <= i && i + needle.len() <= hay.len() && hay.subrange(i, i + needle.len() as int) == needle
}

/// `needle` stands somewhere in `hay`.
pub open spec fn contains_text(hay: Seq<char>, needle: Seq<char>) -> bool {
    exists|i: int| occurs_at(hay, needle, i)
}

pub open spec fn has_prefix(s: Seq<char>, prefix: Seq<char>) -> bool {
    occurs_at(s, prefix, 0)
}

/// Whether `needle` stands in `hay` at position `i`.
pub fn stands_at(hay: &Vec<char>, needle: &Vec<char>, i: usize) -> (r: bool)
    ensures
        r == occurs_at(hay@, needle@, i as int),
{
    if i > hay.len() || needle.len() > hay.len() - i {
        return false;
    }
    let mut j: usize = 0;
    while j < needle.len()
        invariant
            j <= needle.len(),
            i + needle.len() <= hay.len(),
            forall|k: int| 0 <= k < j ==> hay@[i + k] == needle@[k],
        decreases needle.len() - j,
    {
        if hay[i + j] != needle[j] {
            proof {
                if occurs_at(hay@, needle@, i as int) {
                    let part = hay@.subrange(i as int, i + needle@.len() as int);
                    assert(part[j as int] == needle@[j as int]);
                }
            }
            return false;
        }
        j = j + 1;
    }
    assert(hay@.subrange(i as int, i + needle@.len() as int) =~= needle@);
    true
}

/// The first position at which `needle` stands in `hay`.
pub fn find_text(hay: &Vec<char>, needle: &Vec<char>) -> (r: Option<usize>)
    ensures
        match r {
            Some(i) => occurs_at(hay@, needle@, i as int) && forall|j: int|
                0 <= j < i ==> !occurs_at(hay@, needle@, j),
            None => !contains_text(hay@, needle@),
        },
{
    let mut i: usize = 0;
    while i < hay.len()
        invariant
            i <= hay.len(),
            forall|j: int| 0 <= j < i ==> !occurs_at(hay@, needle@, j),
        decreases hay.len() - i,
    {
        if stands_at(hay, needle, i) {
            return Some(i);
        }
        i = i + 1;
    }
    if stands_at(hay, needle, i) {
        return Some(i);
    }
    None
}

/// Whether `needle` stands somewhere in `hay`.
pub fn text_contains(hay: &str, needle: &str) -> (r: bool)
    ensures
        r == contains_text(hay@, needle@),
{
    find_text(&chars_of(hay), &chars_of(needle)).is_some()
}

/// Whether `s` starts with `prefix`.
pub fn starts_with(s: &str, prefix: &str) -> (r: bool)
    ensures
        r == has_prefix(s@, prefix@),
{
    stands_at(&chars_of(s), &chars_of(prefix), 0)
}

/// The first position of `c` in `s`.
pub open spec fn is_first_position(s: Seq<char>, c: char, i: int) -> bool {
    0 <= i < s.len() && s[i] == c && forall|j: int| 0 <= j < i ==> s[j] != c
}

/// The first position of `c` in `cs`.
pub fn find_char(cs: &Vec<char>, c: char) -> (r: Option<usize>)
    ensures
        match r {
            Some(i) => is_first_position(cs@, c, i as int),
            None => !cs@.contains(c),
        },
{
    let mut i: usize = 0;
    while i < cs.len()
        invariant
            i <= cs.len(),
            forall|j: int| 0 <= j < i ==> cs@[j] != c,
        decreases cs.len() - i,
    {
        if cs[i] == c {
            return Some(i);
        }
        i = i + 1;
    }
    None
}

/// What stands in `s` before the first `c`; all of it where there is none.
pub open spec fn head_until(s: Seq<char>, c: char) -> Seq<char>
    decreases s.len(),
{
    if s.len() == 0 || s[0] == c {
        Seq::empty()
    } else {
        seq![s[0]] + head_until(s.skip(1), c)
    }
}

pub proof fn lemma_head_until(s: Seq<char>, c: char, i: int)
    requires
        0 <= i <= s.len(),
        i < s.len() ==> s[i] == c,
        forall|j: int| 0 <= j < i ==> s[j] != c,
    ensures
        head_until(s, c) == s.take(i),
    decreases s.len(),
{
    if s.len() > 0 && s[0] != c {
        assert(i > 0);
        lemma_head_until(s.skip(1), c, i - 1);
        assert(s.take(i) =~= seq![s[0]] + s.skip(1).take(i - 1));
    } else {
        assert(s.take(i) =~= Seq::<char>::empty());
    }
}

// ---------------------------------------------------------------- trimming

/// `s` without its leading white space.
pub open spec fn trim_start(s: Seq<char>) -> Seq<char>
    decreases s.len(),
{
    if s.len() > 0 && is_space(s[0]) {
        trim_start(s.skip(1))
    } else {
        s
    }
}

/// `s` without its trailing white space.
pub open spec fn trim_end(s: Seq<char>) -> Seq<char>
    decreases s.len(),
{
    if s.len() > 0 && is_space(s.last()) {
        trim_end(s.drop_last())
    } else {
        s
    }
}

/// `s` without its leading and trailing white space.
pub open spec fn trim(s: Seq<char>) -> Seq<char> {
    trim_end(trim_start(s))
}

/// `cs` without its leading and trailing white space.
pub fn trim_chars(cs: &Vec<char>) -> (out: Vec<char>)
    ensures
        out@ == trim(cs@),
{
    let mut lo: usize = 0;
    assert(cs@.skip(0) =~= cs@);
    while lo < cs.len() && char_is_space(cs[lo])
        invariant
            lo <= cs.len(),
            trim_start(cs@) == trim_start(cs@.skip(lo as int)),
        decreases cs.len() - lo,
    {
        assert(cs@.skip(lo as int).skip(1) =~= cs@.skip(lo + 1));
        lo = lo + 1;
    }
    assert(trim_start(cs@) == cs@.skip(lo as int));
    let mut hi: usize = cs.len();
    assert(cs@.subrange(lo as int, hi as int) =~= cs@.skip(lo as int));
    while hi > lo && char_is_space(cs[hi - 1])
        invariant
            lo <= hi <= cs.len(),
            trim(cs@) == trim_end(cs@.subrange(lo as int, hi as int)),
        decreases hi,
    {
        assert(cs@.subrange(lo as int, hi as int).drop_last() =~= cs@.subrange(
            lo as int,
            hi - 1,
        ));
        hi = hi - 1;
    }
    slice_of(cs, lo, hi)
}

/// `s` without its leading and trailing white space.
pub fn trim_text(s: &str) -> (out: String)
    ensures
        out@ == trim(s@),
{
    string_of(&trim_chars(&chars_of(s)))
}

// ---------------------------------------------------------------- splitting

/// The pieces of `s` between occurrences of `sep`; there is always one more
/// piece than there are separators.
pub open spec fn split(s: Seq<char>, sep: char) -> Seq<Seq<char>>
    decreases s.len(),
{
    if s.len() == 0 {
        seq![Seq::<char>::empty()]
    } else {
        let head = split(s.drop_last(), sep);
        if s.last() == sep {
            head.push(Seq::<char>::empty())
        } else {
            head.drop_last().push(head.last().push(s.last()))
        }
    }
}

pub proof fn lemma_split_nonempty(s: Seq<char>, sep: char)
    ensures
        split(s, sep).len() >= 1,
    decreases s.len(),
{
    if s.len() > 0 {
        lemma_split_nonempty(s.drop_last(), sep);
    }
}

/// The pieces of `cs` between occurrences of `sep`.
pub fn split_chars(cs: &Vec<char>, sep: char) -> (out: Vec<Vec<char>>)
    ensures
        texts(out@) == split(cs@, sep),
        out.len() >= 1,
{
    let mut done: Vec<Vec<char>> = Vec::new();
    let mut piece: Vec<char> = Vec::new();
    let mut i: usize = 0;
    assert(cs@.take(0) =~= Seq::<char>::empty());
    assert(texts(done@).push(piece@) =~= split(cs@.take(0), sep));
    while i < cs.len()
        invariant
            i <= cs.len(),
            texts(done@).push(piece@) == split(cs@.take(i as int), sep),
        decreases cs.len() - i,
    {
        let ghost before = texts(done@).push(piece@);
        assert(cs@.take(i + 1).drop_last() =~= cs@.take(i as int));
        assert(before.drop_last() =~= texts(done@));
        if cs[i] == sep {
            let ghost held = piece@;
            let ghost was = done@;
            done.push(piece);
            piece = Vec::new();
            assert(texts(done@) =~= texts(was).push(held));
        } else {
            piece.push(cs[i]);
        }
        i = i + 1;
    }
    assert(cs@.take(i as int) =~= cs@);
    let ghost held = piece@;
    let ghost was = done@;
    done.push(piece);
    assert(texts(done@) =~= texts(was).push(held));
    done
}

/// `s` without one trailing carriage return.
pub open spec fn strip_cr(s: Seq<char>) -> Seq<char> {
    if s.len() > 0 && s.last() == '\r' {
        s.drop_last()
    } else {
        s
    }
}

/// The lines of `s`: what stands before each line feed, less one carriage
/// return, and what follows the last line feed where that is not empty.
pub open spec fn lines(s: Seq<char>) -> Seq<Seq<char>> {
    let pieces = split(s, '\n');
    let ended = pieces.drop_last().map_values(|p: Seq<char>| strip_cr(p));
    if pieces.last().len() == 0 {
        ended
    } else {
        ended.push(pieces.last())
    }
}

/// The lines of `cs`.
pub fn lines_of(cs: &Vec<char>) -> (out: Vec<Vec<char>>)
    ensures
        texts(out@) == lines(cs@),
{
    let mut pieces = split_chars(cs, '\n');
    let ghost all = texts(pieces@);
    let ghost vecs = pieces@;
    let last = pieces.pop().unwrap();
    assert(last@ == all.last());
    assert(texts(pieces@) =~= all.drop_last());
    let ghost ended = all.drop_last().map_values(|p: Seq<char>| strip_cr(p));
    let mut out: Vec<Vec<char>> = Vec::new();
    let mut i: usize = 0;
    while i < pieces.len()
        invariant
            i <= pieces.len(),
            texts(pieces@) == all.drop_last(),
            ended == all.drop_last().map_values(|p: Seq<char>| strip_cr(p)),
            texts(out@) == ended.take(i as int),
        decreases pieces.len() - i,
    {
        let n: usize = pieces[i].len();
        assert(pieces@[i as int]@ == texts(pieces@)[i as int]);
        let line = if n > 0 && pieces[i][n - 1] == '\r' {
            slice_of(&pieces[i], 0, n - 1)
        } else {
            slice_of(&pieces[i], 0, n)
        };
        assert(line@ =~= strip_cr(pieces@[i as int]@));
        let ghost was = out@;
        out.push(line);
        assert(texts(out@) =~= texts(was).push(line@));
        assert(ended.take(i + 1) =~= ended.take(i as int).push(ended[i as int]));
        i = i + 1;
    }
    assert(ended.take(i as int) =~= ended);
    if last.len() > 0 {
        let ghost was = out@;
        out.push(last);
        assert(texts(out@) =~= texts(was).push(last@));
    }
    out
}

/// The maximal runs of characters that are not white space.
pub open spec fn words(s: Seq<char>) -> Seq<Seq<char>>
    decreases s.len(),
{
    if s.len() == 0 {
        Seq::empty()
    } else {
        let init = s.drop_last();
        let head = words(init);
        if is_space(s.last()) {
            head
        } else if init.len() == 0 || is_space(init.last()) {
            head.push(seq![s.last()])
        } else {
            head.drop_last().push(head.last().push(s.last()))
        }
    }
}

/// The maximal runs of characters of `cs` that are not white space.
pub fn words_of(cs: &Vec<char>) -> (out: Vec<Vec<char>>)
    ensures
        texts(out@) == words(cs@),
{
    let mut done: Vec<Vec<char>> = Vec::new();
    let mut piece: Vec<char> = Vec::new();
    let mut i: usize = 0;
    assert(texts(done@) =~= words(cs@.take(0)));
    while i < cs.len()
        invariant
            i <= cs.len(),
            piece@.len() == 0 <==> (i == 0 || is_space(cs@[i - 1])),
            piece@.len() == 0 ==> texts(done@) == words(cs@.take(i as int)),
            piece@.len() > 0 ==> texts(done@).push(piece@) == words(cs@.take(i as int)),
        decreases cs.len() - i,
    {
        assert(cs@.take(i + 1).drop_last() =~= cs@.take(i as int));
        assert(i > 0 ==> cs@.take(i as int).last() == cs@[i - 1]);
        let ghost was = done@;
        let ghost held = piece@;
        assert(texts(done@).push(piece@).drop_last() =~= texts(done@));
        if char_is_space(cs[i]) {
            if piece.len() > 0 {
                done.push(piece);
                piece = Vec::new();
                assert(texts(done@) =~= texts(was).push(held));
            }
        } else {
            piece.push(cs[i]);
            assert(held.len() == 0 ==> piece@ =~= seq![cs@[i as int]]);
        }
        i = i + 1;
    }
    assert(cs@.take(i as int) =~= cs@);
    if piece.len() > 0 {
        let ghost was = done@;
        let ghost held = piece@;
        done.push(piece);
        assert(texts(done@) =~= texts(was).push(held));
    }
    done
}

// ---------------------------------------------------------------- joining

/// The parts in order with `sep` between neighbours.
pub open spec fn join(parts: Seq<Seq<char>>, sep: Seq<char>) -> Seq<char>
    decreases parts.len(),
{
    if parts.len() == 0 {
        Seq::empty()
    } else if parts.len() == 1 {
        parts[0]
    } else {
        join(parts.drop_last(), sep) + sep + parts.last()
    }
}

/// The parts in order with `sep` between neighbours.
pub fn join_texts(parts: &Vec<String>, sep: &str) -> (out: String)
    ensures
        out@ == join(string_texts(parts@), sep@),
{
    let mut out = String::new();
    let mut i: usize = 0;
    let ghost all = string_texts(parts@);
    while i < parts.len()
        invariant
            i <= parts.len(),
            all == string_texts(parts@),
            out@ == join(all.take(i as int), sep@),
        decreases parts.len() - i,
    {
        if i > 0 {
            out.append(sep);
        }
        out.append(parts[i].as_str());
        assert(all.take(i + 1).drop_last() =~= all.take(i as int));
        assert(parts@[i as int]@ == all[i as int]);
        assert(i == 0 ==> Seq::<char>::empty() + all[0] =~= all[0]);
        i = i + 1;
    }
    assert(all.take(i as int) =~= all);
    out
}

/// The texts that a slice of string slices holds.
pub open spec fn str_texts(v: Seq<&str>) -> Seq<Seq<char>> {
    v.map_values(|x: &str| x@)
}

/// The parts in order with `sep` between neighbours.
pub fn join_strs(parts: &[&str], sep: &str) -> (out: String)
    ensures
        out@ == join(str_texts(parts@), sep@),
{
    let mut out = String::new();
    let mut i: usize = 0;
    let ghost all = str_texts(parts@);
    while i < parts.len()
        invariant
            i <= parts.len(),
            all == str_texts(parts@),
            out@ == join(all.take(i as int), sep@),
        decreases parts.len() - i,
    {
        if i > 0 {
            out.append(sep);
        }
        out.append(parts[i]);
        assert(all.take(i + 1).drop_last() =~= all.take(i as int));
        assert(parts@[i as int]@ == all[i as int]);
        assert(i == 0 ==> Seq::<char>::empty() + all[0] =~= all[0]);
        i = i + 1;
    }
    assert(all.take(i as int) =~= all);
    out
}

// ---------------------------------------------------------------- numbers

/// Every character is a decimal digit, and there is at least one.
pub open spec fn is_numeral(s: Seq<char>) -> bool {
    s.len() > 0 && forall|i: int| 0 <= i < s.len() ==> is_digit(s[i])
}

/// The number that a run of decimal digits writes.
pub open spec fn numeral_value(s: Seq<char>) -> nat
    decreases s.len(),
{
    if s.len() == 0 {
        0
    } else {
        numeral_value(s.drop_last()) * 10 + (s.last() as u32 - '0' as u32) as nat
    }
}

/// The number that `s` writes: digits with an optional plus sign, no larger
/// than `max`.
pub open spec fn parse_uint(s: Seq<char>, max: nat) -> Option<nat> {
    let digits = if s.len() > 0 && s[0] == '+' {
        s.skip(1)
    } else {
        s
    };
    if is_numeral(digits) && numeral_value(digits) <= max {
        Some(numeral_value(digits))
    } else {
        None
    }
}

proof fn lemma_numeral_value_grows(s: Seq<char>, i: int)
    requires
        0 <= i <= s.len(),
        forall|j: int| 0 <= j < s.len() ==> is_digit(s[j]),
    ensures
        numeral_value(s.take(i)) <= numeral_value(s),
    decreases s.len() - i,
{
    if i < s.len() {
        lemma_numeral_value_grows(s, i + 1);
        assert(s.take(i + 1).drop_last() =~= s.take(i));
    } else {
        assert(s.take(i) =~= s);
    }
}

/// The number that `cs` writes, where it fits below `max`.
pub fn parse_number(cs: &Vec<char>, max: u64) -> (r: Option<u64>)
    ensures
        r == (match parse_uint(cs@, max as nat) {
            Some(n) => Some(n as u64),
            None => None::<u64>,
        }),
        parse_uint(cs@, max as nat) matches Some(n) ==> n <= max,
{
    let start: usize = if cs.len() > 0 && cs[0] == '+' { 1 } else { 0 };
    let ghost digits = if cs@.len() > 0 && cs@[0] == '+' {
        cs@.skip(1)
    } else {
        cs@
    };
    assert(digits =~= cs@.skip(start as int));
    if start == cs.len() {
        return None;
    }
    let mut value: u64 = 0;
    let mut i: usize = start;
    assert(digits.take(0) =~= Seq::<char>::empty());
    while i < cs.len()
        invariant
            start <= i <= cs.len(),
            digits == cs@.skip(start as int),
            start <= 1,
            parse_uint(cs@, max as nat) == (if is_numeral(digits) && numeral_value(digits)
                <= max {
                Some(numeral_value(digits))
            } else {
                None
            }),
            forall|j: int| 0 <= j < i - start ==> is_digit(digits[j]),
            value == numeral_value(digits.take(i - start)),
            value <= max,
        decreases cs.len() - i,
    {
        let c = cs[i];
        assert(digits[i - start] == c);
        if !(c >= '0' && c <= '9') {
            return None;
        }
        let d: u64 = c as u64 - '0' as u64;
        assert(digits.take(i - start + 1).drop_last() =~= digits.take(i - start));
        assert(numeral_value(digits.take(i - start + 1)) == value * 10 + d);
        if d > max || value > (max - d) / 10 {
            proof {
                if is_numeral(digits) {
                    lemma_numeral_value_grows(digits, i - start + 1);
                }
            }
            return None;
        }
        value = value * 10 + d;
        i = i + 1;
    }
    assert(digits.take(i - start) =~= digits);
    Some(value)
}

/// The decimal numeral of `n`.
pub open spec fn decimal(n: nat) -> Seq<char>
    decreases n,
{
    let digit = ('0' as u32 + (n % 10) as u32) as char;
    if n < 10 {
        seq![digit]
    } else {
        decimal(n / 10).push(digit)
    }
}

/// The digit character of `d`.
pub fn digit_char(d: u64) -> (c: char)
    requires
        d < 10,
    ensures
        c == ('0' as u32 + d as u32) as char,
{
    let n: u8 = 48u8 + d as u8;
    n as char
}

/// The decimal numeral of `n`.
pub fn decimal_chars(n: u64) -> (out: Vec<char>)
    ensures
        out@ == decimal(n as nat),
    decreases n,
{
    let c = digit_char(n % 10);
    if n < 10 {
        let mut out: Vec<char> = Vec::new();
        out.push(c);
        assert(out@ =~= seq![c]);
        out
    } else {
        let mut out = decimal_chars(n / 10);
        out.push(c);
        out
    }
}

/// The decimal numeral of `n`.
pub fn decimal_text(n: u64) -> (out: String)
    ensures
        out@ == decimal(n as nat),
{
    string_of(&decimal_chars(n))
}

/// Reading a numeral back gives the number it was written for.
pub proof fn decimal_reads_back(n: nat)
    ensures
        is_numeral(decimal(n)),
        numeral_value(decimal(n)) == n,
        parse_uint(decimal(n), n) == Some(n),
    decreases n,
{
    let d = ('0' as u32 + (n % 10) as u32) as char;
    assert(is_digit(d));
    if n < 10 {
        assert(decimal(n) =~= seq![d]);
        assert(decimal(n).drop_last() =~= Seq::<char>::empty());
        assert(numeral_value(Seq::<char>::empty()) == 0);
    } else {
        decimal_reads_back(n / 10);
        assert(decimal(n).drop_last() =~= decimal(n / 10));
    }
    assert(decimal(n)[0] != '+');
}

// ---------------------------------------------------------------- laws

/// What stands between two texts is found in them, and what is found stands
/// between two texts.
pub proof fn a_text_is_found_where_it_stands(pre: Seq<char>, needle: Seq<char>, post: Seq<char>)
    ensures
        contains_text(pre + needle + post, needle),
        has_prefix(needle + post, needle),
        occurs_at(pre + needle + post, needle, pre.len() as int),
{
    let hay = pre + needle + post;
    assert(hay.subrange(pre.len() as int, pre.len() + needle.len() as int) =~= needle);
    assert(occurs_at(hay, needle, pre.len() as int));
    assert((needle + post).subrange(0, needle.len() as int) =~= needle);
}

/// A text that is found can be cut out: what is left stands around it.
pub proof fn what_is_found_can_be_cut_out(hay: Seq<char>, needle: Seq<char>)
    requires
        contains_text(hay, needle),
    ensures
        exists|pre: Seq<char>, post: Seq<char>| hay == #[trigger] (pre + needle + post),
        needle.len() <= hay.len(),
{
    let i = choose|i: int| occurs_at(hay, needle, i);
    let pre = hay.take(i);
    let post = hay.skip(i + needle.len());
    assert(hay =~= pre + needle + post);
}

/// A prefix can be taken off: the rest is what follows it.
pub proof fn a_prefix_can_be_taken_off(s: Seq<char>, prefix: Seq<char>)
    ensures
        has_prefix(s, prefix) <==> prefix.len() <= s.len() && s.take(prefix.len() as int) == prefix,
        has_prefix(s, prefix) ==> s == prefix + s.skip(prefix.len() as int),
{
    if prefix.len() <= s.len() {
        assert(s.subrange(0, prefix.len() as int) =~= s.take(prefix.len() as int));
        if has_prefix(s, prefix) {
            assert(s =~= prefix + s.skip(prefix.len() as int));
        }
    }
}

/// Blanks and line ends are white space; letters, digits and marks are not.
pub proof fn white_space_is_blank(c: char)
    ensures
        is_space(' ') && is_space('\t') && is_space('\n') && is_space('\r'),
        33 <= c as int <= 126 ==> !is_space(c),
        is_digit(c) ==> !is_space(c),
        is_digit(c) ==> is_hex_digit(c),
        is_digit(c) <==> 48 <= c as int <= 57,
{
}

/// ASCII letters move from capital to small, everything else stays.
pub proof fn lower_letters_stay(c: char)
    ensures
        65 <= c as int <= 90 ==> ascii_lower(c) as int == c as int + 32,
        !(65 <= c as int <= 90) ==> ascii_lower(c) == c,
        ascii_lower(ascii_lower(c)) == ascii_lower(c),
{
}

pub open spec fn is_blank(s: Seq<char>) -> bool {
    forall|i: int| 0 <= i < s.len() ==> is_space(#[trigger] s[i])
}

proof fn lemma_trim_start(pad: Seq<char>, s: Seq<char>)
    requires
        is_blank(pad),
        s.len() > 0 ==> !is_space(s[0]),
    ensures
        trim_start(pad + s) == s,
    decreases pad.len(),
{
    if pad.len() > 0 {
        assert((pad + s)[0] == pad[0]);
        assert((pad + s).skip(1) =~= pad.skip(1) + s);
        lemma_trim_start(pad.skip(1), s);
    } else {
        assert(pad + s =~= s);
    }
}

proof fn lemma_trim_end(s: Seq<char>, pad: Seq<char>)
    requires
        is_blank(pad),
        s.len() > 0 ==> !is_space(s.last()),
    ensures
        trim_end(s + pad) == s,
    decreases pad.len(),
{
    if pad.len() > 0 {
        assert((s + pad).last() == pad.last());
        assert((s + pad).drop_last() =~= s + pad.drop_last());
        lemma_trim_end(s, pad.drop_last());
    } else {
        assert(s + pad =~= s);
    }
}

/// Trimming takes the white space off both ends and nothing else.
pub proof fn trimming_takes_off_both_ends(before: Seq<char>, s: Seq<char>, behind: Seq<char>)
    requires
        is_blank(before),
        is_blank(behind),
        s.len() > 0 ==> !is_space(s[0]) && !is_space(s.last()),
    ensures
        trim(before + s + behind) == s,
        trim(s) == s,
{
    if s.len() > 0 {
        assert((s + behind)[0] == s[0]);
        assert(before + s + behind =~= before + (s + behind));
        lemma_trim_start(before, s + behind);
        lemma_trim_end(s, behind);
    } else {
        assert(before + s + behind =~= (before + behind) + s);
        assert(is_blank(before + behind));
        lemma_trim_start(before + behind, s);
    }
    let none = Seq::<char>::empty();
    lemma_trim_start(none, s);
    lemma_trim_end(s, none);
    assert(none + s =~= s && s + none =~= s);
}

/// The pieces of a text, put together again with the separator, are the text,
/// and none holds the separator.
pub proof fn pieces_make_up_the_text(s: Seq<char>, sep: char)
    ensures
        join(split(s, sep), seq![sep]) == s,
        split(s, sep).len() >= 1,
        forall|k: int| 0 <= k < split(s, sep).len() ==> !(#[trigger] split(s, sep)[k]).contains(sep),
    decreases s.len(),
{
    let all = split(s, sep);
    if s.len() == 0 {
        assert(all[0] =~= Seq::<char>::empty());
        assert(s =~= Seq::<char>::empty());
    } else {
        let init = s.drop_last();
        let head = split(init, sep);
        pieces_make_up_the_text(init, sep);
        if s.last() == sep {
            assert(all.drop_last() =~= head);
            assert(join(all, seq![sep]) =~= init + seq![sep]);
            assert(init + seq![sep] =~= s);
            assert forall|k: int| 0 <= k < all.len() implies !(#[trigger] all[k]).contains(sep) by {
                if k < head.len() {
                    assert(all[k] == head[k]);
                }
            }
        } else {
            let last = head.last().push(s.last());
            assert(all.drop_last() =~= head.drop_last());
            if head.len() == 1 {
                assert(join(all, seq![sep]) == last);
                assert(last =~= s);
            } else {
                assert(join(all, seq![sep]) =~= join(head, seq![sep]).push(s.last()));
            }
            assert(init.push(s.last()) =~= s);
            assert forall|k: int| 0 <= k < all.len() implies !(#[trigger] all[k]).contains(sep) by {
                if k < head.len() - 1 {
                    assert(all[k] == head[k]);
                } else {
                    assert(!head[head.len() - 1].contains(sep));
                    if last.contains(sep) {
                        let w = choose|w: int| 0 <= w < last.len() && last[w] == sep;
                        assert(head.last()[w] == sep);
                    }
                }
            }
        }
    }
}

/// A separator splits what stands before it from what stands behind it.
pub proof fn a_separator_splits(a: Seq<char>, b: Seq<char>, sep: char)
    ensures
        split(a + seq![sep] + b, sep) == split(a, sep) + split(b, sep),
    decreases b.len(),
{
    let s = a + seq![sep] + b;
    lemma_split_nonempty(a, sep);
    lemma_split_nonempty(b, sep);
    if b.len() == 0 {
        assert(s.drop_last() =~= a);
        assert(split(s, sep) =~= split(a, sep) + split(b, sep));
    } else {
        a_separator_splits(a, b.drop_last(), sep);
        lemma_split_nonempty(b.drop_last(), sep);
        assert(s.drop_last() =~= a + seq![sep] + b.drop_last());
        assert(s.last() == b.last());
        let head = split(b.drop_last(), sep);
        let whole = split(a, sep) + head;
        if b.last() == sep {
            assert(split(s, sep) =~= split(a, sep) + split(b, sep));
        } else {
            assert(whole.last() == head.last());
            assert(whole.drop_last() =~= split(a, sep) + head.drop_last());
            assert(split(s, sep) =~= split(a, sep) + split(b, sep));
        }
    }
}

/// A text without the separator is one piece.
pub proof fn a_piece_stays_whole(s: Seq<char>, sep: char)
    requires
        !s.contains(sep),
    ensures
        split(s, sep) == seq![s],
    decreases s.len(),
{
    if s.len() > 0 {
        let init = s.drop_last();
        if init.contains(sep) {
            let w = choose|w: int| 0 <= w < init.len() && init[w] == sep;
            assert(s[w] == sep);
        }
        a_piece_stays_whole(init, sep);
        assert(s[s.len() - 1] == s.last());
        assert(init.push(s.last()) =~= s);
        assert(split(s, sep) =~= seq![s]);
    } else {
        assert(s =~= Seq::<char>::empty());
        assert(split(s, sep) =~= seq![s]);
    }
}

/// A line and its end add that line, whichever of the two ends it has; what
/// follows the last end is a line where it is not empty.
pub proof fn a_line_end_ends_a_line(a: Seq<char>, line: Seq<char>)
    requires
        !line.contains('\n'),
        line.len() > 0 ==> line.last() != '\r',
        a.len() > 0 ==> a.last() == '\n',
    ensures
        lines(a + line + seq!['\n']) == lines(a).push(line),
        lines(a + line + seq!['\r', '\n']) == lines(a).push(line),
        line.len() > 0 ==> lines(a + line) == lines(a).push(line),
{
    lemma_lines_grow(a, line, Seq::empty());
    lemma_lines_grow(a, line, seq!['\r']);
    assert(line + Seq::<char>::empty() =~= line);
    assert(a + line + seq!['\r', '\n'] =~= a + (line + seq!['\r']) + seq!['\n']);
    lemma_ended(a);
    let pieces = split(a, '\n');
    let init = a.drop_last();
    a_piece_stays_whole(line, '\n');
    if a.len() > 0 {
        assert(a + line =~= init + seq!['\n'] + line);
        a_separator_splits(init, line, '\n');
        let all = split(a + line, '\n');
        assert(all.drop_last() =~= pieces.drop_last());
        assert(all.last() == line);
    } else {
        assert(a + line =~= line);
        let all = split(line, '\n');
        assert(all.drop_last() =~= Seq::<Seq<char>>::empty());
        assert(pieces.drop_last() =~= Seq::<Seq<char>>::empty());
        assert(lines(a) =~= Seq::<Seq<char>>::empty());
        if line.len() > 0 {
            assert(lines(line) =~= seq![line]);
        }
    }
}

proof fn lemma_ended(a: Seq<char>)
    requires
        a.len() > 0 ==> a.last() == '\n',
    ensures
        split(a, '\n').last().len() == 0,
        a.len() > 0 ==> split(a, '\n') == split(a.drop_last(), '\n').push(Seq::<char>::empty()),
        lines(a) == split(a, '\n').drop_last().map_values(|p: Seq<char>| strip_cr(p)),
{
}

proof fn lemma_lines_grow(a: Seq<char>, line: Seq<char>, cr: Seq<char>)
    requires
        !line.contains('\n'),
        line.len() > 0 ==> line.last() != '\r',
        a.len() > 0 ==> a.last() == '\n',
        cr == Seq::<char>::empty() || cr == seq!['\r'],
    ensures
        lines(a + (line + cr) + seq!['\n']) == lines(a).push(line),
{
    let whole = line + cr;
    let s = a + whole + seq!['\n'];
    lemma_ended(a);
    lemma_ended(s);
    if whole.contains('\n') {
        let w = choose|w: int| 0 <= w < whole.len() && whole[w] == '\n';
        if w < line.len() {
            assert(line[w] == '\n');
        }
    }
    a_piece_stays_whole(whole, '\n');
    assert(s.drop_last() =~= a + whole);
    assert(strip_cr(whole) =~= line) by {
        if cr.len() > 0 {
            assert(whole.drop_last() =~= line);
        } else {
            assert(whole =~= line);
        }
    }
    if a.len() > 0 {
        let init = a.drop_last();
        assert(a + whole =~= init + seq!['\n'] + whole);
        a_separator_splits(init, whole, '\n');
        let before = split(init, '\n');
        assert(split(s, '\n').drop_last() =~= before + seq![whole]);
        assert(split(a, '\n').drop_last() =~= before);
    } else {
        assert(a + whole =~= whole);
        assert(split(s, '\n').drop_last() =~= seq![whole]);
        assert(split(a, '\n').drop_last() =~= Seq::<Seq<char>>::empty());
    }
    assert(lines(s) =~= lines(a).push(line));
}

/// A word behind white space is one more word; white space adds none.
pub proof fn a_blank_ends_a_word(a: Seq<char>, blank: char, w: Seq<char>)
    requires
        is_space(blank),
        w.len() > 0,
        forall|i: int| 0 <= i < w.len() ==> !is_space(#[trigger] w[i]),
    ensures
        words(a.push(blank)) == words(a),
        words(a.push(blank) + w) == words(a).push(w),
        words(w) == seq![w],
    decreases w.len(),
{
    assert(a.push(blank).drop_last() =~= a);
    let init = w.drop_last();
    let s = a.push(blank) + w;
    assert(s.last() == w.last());
    assert(s.drop_last() =~= a.push(blank) + init);
    assert(!is_space(w[w.len() - 1]));
    if init.len() > 0 {
        assert forall|i: int| 0 <= i < init.len() implies !is_space(#[trigger] init[i]) by {
            assert(init[i] == w[i]);
        }
        a_blank_ends_a_word(a, blank, init);
        assert((a.push(blank) + init).last() == init.last());
        assert(init.last() == w[w.len() - 2]);
        assert(init.push(w.last()) =~= w);
        assert(!is_space(w[w.len() - 2]));
        assert(words(a).push(init).drop_last() =~= words(a));
        assert(words(s) == words(a).push(init.push(w.last())));
        let one = seq![init];
        assert(one.drop_last() =~= Seq::<Seq<char>>::empty());
        assert(words(w) == one.drop_last().push(init.push(w.last())));
        assert(words(w) =~= seq![w]);
    } else {
        assert(s.drop_last() =~= a.push(blank));
        assert(a.push(blank).last() == blank);
        assert(words(a.push(blank)) == words(a));
        assert(words(init) == Seq::<Seq<char>>::empty());
        assert(w =~= seq![w.last()]);
        assert(words(s) =~= words(a).push(w));
        assert(words(w) =~= seq![w]);
    }
}

/// No word holds white space, and none is empty.
pub proof fn words_hold_no_blank(s: Seq<char>)
    ensures
        forall|k: int| 0 <= k < words(s).len() ==> (#[trigger] words(s)[k]).len() > 0,
        forall|k: int, i: int|
            0 <= k < words(s).len() && 0 <= i < words(s)[k].len() ==> !is_space(
                #[trigger] words(s)[k][i],
            ),
        s.len() > 0 && !is_space(s.last()) ==> words(s).len() > 0,
    decreases s.len(),
{
    if s.len() > 0 {
        let init = s.drop_last();
        let head = words(init);
        let all = words(s);
        words_hold_no_blank(init);
        assert forall|k: int| 0 <= k < all.len() implies (#[trigger] all[k]).len() > 0 by {
            if k < all.len() - 1 {
                assert(all[k] == head[k]);
            } else if is_space(s.last()) {
                assert(all[k] == head[k]);
            }
        }
        assert forall|k: int, i: int| 0 <= k < all.len() && 0 <= i < all[k].len() implies !is_space(
            #[trigger] all[k][i],
        ) by {
            if k < all.len() - 1 || is_space(s.last()) {
                assert(all[k] == head[k]);
                assert(!is_space(head[k][i]));
            } else if init.len() > 0 && !is_space(init.last()) {
                if i < all[k].len() - 1 {
                    assert(all[k][i] == head[k][i]);
                    assert(!is_space(head[k][i]));
                }
            }
        }
    }
}

/// The parts stand in the joined text in order, each once, the separator
/// between them.
pub proof fn joining_appends(parts: Seq<Seq<char>>, more: Seq<char>, sep: Seq<char>)
    ensures
        join(Seq::empty(), sep) == Seq::<char>::empty(),
        join(seq![more], sep) == more,
        parts.len() > 0 ==> join(parts.push(more), sep) == join(parts, sep) + sep + more,
{
    assert(parts.push(more).drop_last() =~= parts);
}

/// A numeral is written in tens, the units last, without leading zeros.
pub proof fn numerals_are_written_in_tens(n: nat, d: nat)
    requires
        d < 10,
    ensures
        n > 0 ==> decimal(10 * n + d) == decimal(n) + decimal(d),
        decimal(d).len() == 1 && decimal(d)[0] as int == 48 + d,
        n > 0 ==> decimal(n)[0] != '0',
    decreases n,
{
    reveal_with_fuel(decimal, 2);
    if n > 0 {
        assert((10 * n + d) / 10 == n);
        assert((10 * n + d) % 10 == d);
        assert(decimal(10 * n + d) =~= decimal(n) + decimal(d));
        if n >= 10 {
            numerals_are_written_in_tens(n / 10, n % 10);
            decimal_reads_back(n / 10);
            assert(decimal(n) == decimal(n / 10).push(decimal(n).last()));
        }
    }
}

/// A number is read from its digits, with or without a plus sign, as long as it
/// is not too large; anything else is none.
pub proof fn numbers_are_read_from_digits(s: Seq<char>, n: nat, max: nat)
    ensures
        n <= max ==> parse_uint(decimal(n), max) == Some(n) && parse_uint(
            seq!['+'] + decimal(n),
            max,
        ) == Some(n),
        n > max ==> parse_uint(decimal(n), max) is None,
        (exists|i: int| 0 < i < s.len() && !is_digit(#[trigger] s[i])) ==> parse_uint(s, max) is None,
        s.len() == 0 ==> parse_uint(s, max) is None,
        s.len() > 0 && !is_digit(s[0]) && s[0] != '+' ==> parse_uint(s, max) is None,
{
    decimal_reads_back(n);
    assert(is_digit(decimal(n)[0]));
    assert((seq!['+'] + decimal(n)).skip(1) =~= decimal(n));
    if exists|i: int| 0 < i < s.len() && !is_digit(#[trigger] s[i]) {
        let i = choose|i: int| 0 < i < s.len() && !is_digit(#[trigger] s[i]);
        if s[0] == '+' {
            assert(!is_digit(s.skip(1)[i - 1]));
        }
    }
}

/// What stands before a mark is all of a text up to its first one.
pub proof fn a_mark_ends_the_head(a: Seq<char>, b: Seq<char>, c: char)
    requires
        !a.contains(c),
    ensures
        head_until(a + seq![c] + b, c) == a,
        head_until(a, c) == a,
{
    let s = a + seq![c] + b;
    assert forall|j: int| 0 <= j < a.len() implies s[j] != c by {
        assert(a[j] == s[j]);
        assert(a.contains(a[j]));
    }
    lemma_head_until(s, c, a.len() as int);
    assert(s.take(a.len() as int) =~= a);
    assert forall|j: int| 0 <= j < a.len() implies a[j] != c by {
        assert(a.contains(a[j]));
    }
    lemma_head_until(a, c, a.len() as int);
    assert(a.take(a.len() as int) =~= a);
}

} // verus!
