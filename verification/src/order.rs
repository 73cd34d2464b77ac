//! Orders and sorting: a stable sort over any strict weak order, the order of
//! texts, and the total order of floating-point readings by their bits.
use vstd::prelude::*;
use crate::text::chars_of;

verus! {

/// Values with a strict weak order: `before` never holds both ways, and what
/// stands before `c` is separated from it by every third value.
pub trait Ranked: Sized {
    spec fn before(&self, other: &Self) -> bool;

    proof fn asymmetric(a: &Self, b: &Self)
        requires
            a.before(b),
        ensures
            !b.before(a),
    ;

    proof fn separated(a: &Self, b: &Self, c: &Self)
        requires
            a.before(c),
        ensures
            a.before(b) || b.before(c),
    ;

    fn is_before(&self, other: &Self) -> (r: bool)
        ensures
            r == self.before(other),
    ;
}

/// Item `i` comes ahead of item `j` in a stable sort: by rank, and where the
/// ranks do not separate them, by position.
pub open spec fn precedes<T: Ranked>(items: Seq<T>, i: int, j: int) -> bool {
    items[i].before(&items[j]) || (!items[j].before(&items[i]) && i < j)
}

/// `p` holds every index below `n`.
pub open spec fn covers(p: Seq<usize>, n: int) -> bool {
    forall|k: int| 0 <= k < n ==> #[trigger] p.contains(k as usize)
}

/// `p` lists every index of `items` once, in stable sorted order.
pub open spec fn is_sorted_order<T: Ranked>(items: Seq<T>, p: Seq<usize>) -> bool {
    &&& p.len() == items.len()
    &&& forall|i: int| 0 <= i < p.len() ==> #[trigger] p[i] < items.len()
    &&& covers(p, items.len() as int)
    &&& forall|i: int, j: int| 0 <= i < j < p.len() ==> precedes(items, #[trigger] p[i] as int, #[trigger] p[j] as int)
}

/// The indices of `items` in stable sorted order.
pub fn sorted_order<T: Ranked>(items: &Vec<T>) -> (p: Vec<usize>)
    ensures
        is_sorted_order(items@, p@),
{
    let mut p: Vec<usize> = Vec::new();
    let mut i: usize = 0;
    while i < items.len()
        invariant
            i <= items.len(),
            p.len() == i,
            forall|k: int| 0 <= k < i ==> #[trigger] p@[k] < i,
            covers(p@, i as int),
            forall|a: int, b: int|
                0 <= a < b < p.len() ==> precedes(items@, #[trigger] p@[a] as int, #[trigger] p@[b] as int),
        decreases items.len() - i,
    {
        let mut pos: usize = i;
        while pos > 0 && items[i].is_before(&items[p[pos - 1]])
            invariant
                pos <= i < items.len(),
                p.len() == i,
                forall|k: int| 0 <= k < i ==> #[trigger] p@[k] < i,
                forall|k: int| pos <= k < i ==> items@[i as int].before(&items@[#[trigger] p@[k] as int]),
            decreases pos,
        {
            pos = pos - 1;
        }
        let ghost was = p@;
        proof {
            assert forall|k: int| 0 <= k < pos implies precedes(items@, #[trigger] was[k] as int, i as int) by {
                let last = was[pos - 1] as int;
                let here = was[k] as int;
                if items@[i as int].before(&items@[here]) {
                    if k < pos - 1 {
                        assert(precedes(items@, was[k] as int, was[pos - 1] as int));
                        T::separated(&items@[i as int], &items@[last], &items@[here]);
                        if items@[here].before(&items@[last]) {
                            T::asymmetric(&items@[here], &items@[last]);
                        }
                    }
                    assert(false);
                }
            }
        }
        p.insert(pos, i);
        proof {
            assert(p@ == was.insert(pos as int, i));
            assert forall|k: int| 0 <= k < i + 1 implies #[trigger] p@.contains(k as usize) by {
                if k == i {
                    assert(p@[pos as int] == k as usize);
                } else {
                    assert(was.contains(k as usize));
                    let w = choose|w: int| 0 <= w < was.len() && was[w] == k as usize;
                    let at = if w < pos { w } else { w + 1 };
                    assert(p@[at] == k as usize);
                }
            }
            assert forall|a: int, b: int| 0 <= a < b < p.len() implies precedes(items@, #[trigger] p@[a] as int, #[trigger] p@[b] as int) by {
                let x = if a < pos { a } else { a - 1 };
                let y = if b < pos { b } else { b - 1 };
                if a == pos {
                    assert(p@[b] == was[y]);
                    assert(items@[i as int].before(&items@[was[y] as int]));
                } else if b == pos {
                    assert(p@[a] == was[x]);
                } else {
                    assert(p@[a] == was[x] && p@[b] == was[y]);
                    assert(precedes(items@, was[x] as int, was[y] as int));
                }
            }
        }
        i = i + 1;
    }
    p
}

// ---------------------------------------------------------------- integer keys

/// A sort key of up to four integers, compared left to right.
#[derive(Clone, Copy, PartialEq, Eq, Structural)]
pub struct Key4 {
    pub a: i128,
    pub b: i128,
    pub c: i128,
    pub d: i128,
}

impl Ranked for Key4 {
    open spec fn before(&self, other: &Self) -> bool {
        ||| self.a < other.a
        ||| self.a == other.a && self.b < other.b
        ||| self.a == other.a && self.b == other.b && self.c < other.c
        ||| self.a == other.a && self.b == other.b && self.c == other.c && self.d < other.d
    }

    proof fn asymmetric(a: &Self, b: &Self) {
    }

    proof fn separated(a: &Self, b: &Self, c: &Self) {
    }

    fn is_before(&self, other: &Self) -> (r: bool) {
        self.a < other.a || (self.a == other.a && (self.b < other.b || (self.b == other.b
            && (self.c < other.c || (self.c == other.c && self.d < other.d)))))
    }
}

// ---------------------------------------------------------------- texts

/// The lexicographic order of texts by code point, which is also the order of
/// their UTF-8 bytes.
pub open spec fn text_lt(a: Seq<char>, b: Seq<char>) -> bool
    decreases a.len(),
{
    if b.len() == 0 {
        false
    } else if a.len() == 0 {
        true
    } else if a[0] != b[0] {
        a[0] < b[0]
    } else {
        text_lt(a.skip(1), b.skip(1))
    }
}

pub proof fn text_lt_asymmetric(a: Seq<char>, b: Seq<char>)
    requires
        text_lt(a, b),
    ensures
        !text_lt(b, a),
    decreases a.len(),
{
    if a.len() > 0 && a[0] == b[0] {
        text_lt_asymmetric(a.skip(1), b.skip(1));
    }
}

pub proof fn text_lt_separated(a: Seq<char>, b: Seq<char>, c: Seq<char>)
    requires
        text_lt(a, c),
    ensures
        text_lt(a, b) || text_lt(b, c),
    decreases a.len(),
{
    if a.len() > 0 && b.len() > 0 && a[0] == b[0] && b[0] == c[0] {
        text_lt_separated(a.skip(1), b.skip(1), c.skip(1));
    }
}

/// Two texts that neither way stand one before the other are equal.
pub proof fn text_lt_total(a: Seq<char>, b: Seq<char>)
    requires
        !text_lt(a, b),
        !text_lt(b, a),
    ensures
        a == b,
    decreases a.len(),
{
    if a.len() > 0 && b.len() > 0 {
        text_lt_total(a.skip(1), b.skip(1));
        assert(a =~= seq![a[0]] + a.skip(1));
        assert(b =~= seq![b[0]] + b.skip(1));
    } else {
        assert(a =~= b);
    }
}

/// Whether `a` stands before `b` in the lexicographic order.
pub fn chars_before(a: &Vec<char>, b: &Vec<char>) -> (r: bool)
    ensures
        r == text_lt(a@, b@),
{
    let mut i: usize = 0;
    assert(a@.skip(0) =~= a@);
    assert(b@.skip(0) =~= b@);
    while i < a.len() && i < b.len() && a[i] == b[i]
        invariant
            i <= a.len(),
            i <= b.len(),
            text_lt(a@, b@) == text_lt(a@.skip(i as int), b@.skip(i as int)),
        decreases a.len() - i,
    {
        assert(a@.skip(i as int).skip(1) =~= a@.skip(i + 1));
        assert(b@.skip(i as int).skip(1) =~= b@.skip(i + 1));
        i = i + 1;
    }
    if i == b.len() {
        false
    } else if i == a.len() {
        true
    } else {
        a[i] < b[i]
    }
}

impl Ranked for String {
    open spec fn before(&self, other: &Self) -> bool {
        text_lt(self@, other@)
    }

    proof fn asymmetric(a: &Self, b: &Self) {
        text_lt_asymmetric(a@, b@);
    }

    proof fn separated(a: &Self, b: &Self, c: &Self) {
        text_lt_separated(a@, b@, c@);
    }

    fn is_before(&self, other: &Self) -> (r: bool) {
        chars_before(&chars_of(self), &chars_of(other))
    }
}

// ---------------------------------------------------------------- readings

/// A 64-bit floating-point reading, carried by its IEEE 754 bit pattern. The
/// library stores, compares and forwards readings; it does no arithmetic on
/// them.
#[derive(Clone, Copy, PartialEq, Eq, Structural, Debug)]
pub struct Real {
    pub bits: u64,
}

/// A 32-bit floating-point reading, carried by its IEEE 754 bit pattern.
#[derive(Clone, Copy, PartialEq, Eq, Structural, Debug)]
pub struct Real32 {
    pub bits: u32,
}

impl Real {
    /// The reading's place in the IEEE 754 total order: magnitudes ascend
    /// above zero and descend below it.
    pub open spec fn place(self) -> int {
        if self.bits < 0x8000_0000_0000_0000 {
            self.bits as int
        } else {
            0x7fff_ffff_ffff_ffff - self.bits
        }
    }

    /// The reading's place in the IEEE 754 total order.
    pub fn rank(self) -> (r: i128)
        ensures
            r == self.place(),
    {
        if self.bits < 0x8000_0000_0000_0000 {
            self.bits as i128
        } else {
            0x7fff_ffff_ffff_ffff - self.bits as i128
        }
    }
}

impl Real32 {
    /// The reading's place in the IEEE 754 total order.
    pub open spec fn place(self) -> int {
        if self.bits < 0x8000_0000 {
            self.bits as int
        } else {
            0x7fff_ffff - self.bits
        }
    }

    /// The reading's place in the IEEE 754 total order.
    pub fn rank(self) -> (r: i128)
        ensures
            r == self.place(),
    {
        if self.bits < 0x8000_0000 {
            self.bits as i128
        } else {
            0x7fff_ffff - self.bits as i128
        }
    }
}

// ---------------------------------------------------------------- laws

/// Two texts are ordered by the first character in which they differ, and a
/// text stands before its own continuations.
pub proof fn the_first_difference_decides(
    p: Seq<char>,
    a: char,
    x: Seq<char>,
    b: char,
    y: Seq<char>,
)
    requires
        a != b,
    ensures
        text_lt(p + seq![a] + x, p + seq![b] + y) <==> a < b,
        text_lt(p, p + seq![a] + x),
        !text_lt(p, p),
    decreases p.len(),
{
    let s = p + seq![a] + x;
    let t = p + seq![b] + y;
    if p.len() > 0 {
        let q = p.skip(1);
        the_first_difference_decides(q, a, x, b, y);
        assert(s.skip(1) =~= q + seq![a] + x);
        assert(t.skip(1) =~= q + seq![b] + y);
    }
}

/// Sort keys are compared from left to right: the first number in which they
/// differ decides.
pub proof fn keys_compare_from_left_to_right(x: Key4, y: Key4)
    ensures
        x.a < y.a ==> x.before(&y),
        x.a == y.a && x.b < y.b ==> x.before(&y),
        x.a == y.a && x.b == y.b && x.c < y.c ==> x.before(&y),
        x.a == y.a && x.b == y.b && x.c == y.c && x.d < y.d ==> x.before(&y),
        x.before(&y) ==> !y.before(&x),
        !x.before(&x),
{
}

/// The place of a reading is that of the number it stands for: of two that are
/// not negative the one of the larger pattern is higher, of two negative ones
/// lower, and every negative one is below zero.
pub proof fn places_follow_the_numbers(x: Real, y: Real)
    ensures
        x.bits < y.bits < 0x8000_0000_0000_0000 ==> x.place() < y.place(),
        0x8000_0000_0000_0000 <= x.bits < y.bits ==> x.place() > y.place(),
        x.bits >= 0x8000_0000_0000_0000 && y.bits < 0x8000_0000_0000_0000 ==> x.place() < y.place(),
        x.place() == y.place() ==> x == y,
{
}

/// The same of the shorter readings.
pub proof fn short_places_follow_the_numbers(x: Real32, y: Real32)
    ensures
        x.bits < y.bits < 0x8000_0000 ==> x.place() < y.place(),
        0x8000_0000 <= x.bits < y.bits ==> x.place() > y.place(),
        x.bits >= 0x8000_0000 && y.bits < 0x8000_0000 ==> x.place() < y.place(),
        x.place() == y.place() ==> x == y,
{
}

/// Sorted, no item stands before one that ranks ahead of it, and those that do
/// not rank apart keep their order.
pub proof fn sorting_puts_the_lower_first<T: Ranked>(items: Seq<T>, p: Seq<usize>, i: int, j: int)
    requires
        is_sorted_order(items, p),
        0 <= i < j < p.len(),
    ensures
        !items[p[j] as int].before(&items[p[i] as int]),
        !items[p[i] as int].before(&items[p[j] as int]) ==> p[i] < p[j],
        p[i] != p[j],
{
    assert(precedes(items, p[i] as int, p[j] as int));
    if items[p[i] as int].before(&items[p[j] as int]) {
        T::asymmetric(&items[p[i] as int], &items[p[j] as int]);
        if p[i] == p[j] {
            T::asymmetric(&items[p[i] as int], &items[p[i] as int]);
        }
    }
}

} // verus!
