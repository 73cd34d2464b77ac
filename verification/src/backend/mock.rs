//! Deterministic fake cards for demonstrations.
use vstd::prelude::*;
use crate::backend::{opt_text, ProcKind};
use crate::text::{decimal, decimal_text, a_text_is_found_where_it_stands, contains_text};

verus! {

/// Fabricated pids start well above what a host usually hands out.
pub const PID_BASE: u32 = 1_000_000;

/// A demonstration of `count` cards.
#[derive(Debug)]
pub struct MockBackend {
    pub tick: u64,
    pub count: usize,
}

/// What is fixed about one card.
#[derive(Debug)]
pub struct MockCard {
    pub name: String,
    pub integrated: bool,
    /// The one engine that does both directions; else the two are apart.
    pub unified_video: bool,
    pub vram_total_bytes: u64,
    pub power_limit_w: u64,
    pub mem_clock_mhz: u64,
    pub pcie_gen: u8,
    pub pcie_width: u32,
    pub pcie_max_gen: u8,
    pub pcie_max_width: u32,
    pub gtt_total_bytes: u64,
}

/// What is fixed about one process row.
#[derive(Debug)]
pub struct MockRow {
    pub pid: u32,
    pub gpu_index: usize,
    pub kind: ProcKind,
    pub gpu_mem_bytes: u64,
    pub user: Option<String>,
    pub command: Option<String>,
    pub host_mem_bytes: Option<u64>,
}

/// The fabricated user and command of row `i`, which repeat.
pub open spec fn cast(i: int) -> (Seq<char>, Seq<char>) {
    if i % 6 == 0 {
        ("alice"@, "python train.py --epochs 30 --amp"@)
    } else if i % 6 == 1 {
        ("bob"@, "ollama runner --model llama3:70b"@)
    } else if i % 6 == 2 {
        ("alice"@, "blender -b scene.blend -f 120"@)
    } else if i % 6 == 3 {
        ("root"@, "/usr/lib/xorg/Xorg vt2 -displayfd 3"@)
    } else if i % 6 == 4 {
        ("bob"@, "ffmpeg -hwaccel cuda -i in.mkv out.mp4"@)
    } else {
        ("carol"@, "/usr/lib/firefox/firefox -contentproc"@)
    }
}

fn cast_of(i: usize) -> (r: (&'static str, &'static str))
    ensures
        r.0@ == cast(i as int).0,
        r.1@ == cast(i as int).1,
{
    if i % 6 == 0 {
        ("alice", "python train.py --epochs 30 --amp")
    } else if i % 6 == 1 {
        ("bob", "ollama runner --model llama3:70b")
    } else if i % 6 == 2 {
        ("alice", "blender -b scene.blend -f 120")
    } else if i % 6 == 3 {
        ("root", "/usr/lib/xorg/Xorg vt2 -displayfd 3")
    } else if i % 6 == 4 {
        ("bob", "ffmpeg -hwaccel cuda -i in.mkv out.mp4")
    } else {
        ("carol", "/usr/lib/firefox/firefox -contentproc")
    }
}

/// `n` halved `k` times, at most `most` times.
pub open spec fn halved(n: u64, k: int, most: int) -> u64
    decreases k,
{
    if k <= 0 || most <= 0 {
        n
    } else {
        halved((n / 2) as u64, k - 1, most - 1)
    }
}

fn halve(n: u64, k: usize, most: usize) -> (r: u64)
    ensures
        r == halved(n, k as int, most as int),
        r <= n,
{
    let mut v: u64 = n;
    let mut left: usize = k;
    let mut cap: usize = most;
    while left > 0 && cap > 0
        invariant
            halved(n, k as int, most as int) == halved(v, left as int, cap as int),
            v <= n,
        decreases left,
    {
        v = v / 2;
        left = left - 1;
        cap = cap - 1;
    }
    v
}

/// `card` is card `i`. The first one is integrated; the second one runs below
/// what its slot could do.
pub open spec fn is_mock_card(card: MockCard, i: int) -> bool {
    &&& card.name@ == "Mock GPU "@ + decimal(i as nat)
    &&& card.integrated == (i == 0)
    &&& card.unified_video == (i % 2 == 0)
    &&& card.vram_total_bytes == 16 * 1073741824
    &&& card.power_limit_w == 320
    &&& card.mem_clock_mhz == 9000
    &&& card.pcie_gen == (if i == 1 {
        3
    } else {
        4int
    })
    &&& card.pcie_width == (if i == 1 {
        8
    } else {
        16int
    })
    &&& card.pcie_max_gen == 4
    &&& card.pcie_max_width == 16
    &&& card.gtt_total_bytes == 8 * 1073741824
}

/// The cards of a demonstration of `count`.
pub open spec fn are_mock_cards(cards: Seq<MockCard>, count: int) -> bool {
    &&& cards.len() == count
    &&& forall|i: int| 0 <= i < cards.len() ==> is_mock_card(#[trigger] cards[i], i)
}

/// `row` is row `i`: the first one is this very process, to be looked up like
/// any other, and the rest are made up.
pub open spec fn is_mock_row(row: MockRow, i: int, count: int, own_pid: u32) -> bool {
    &&& row.pid == (if i == 0 {
        own_pid as int
    } else {
        PID_BASE + i
    })
    &&& row.gpu_index == i % count
    &&& row.kind == (if i % 3 == 0 {
        ProcKind::Graphics
    } else {
        ProcKind::Compute
    })
    &&& row.gpu_mem_bytes == halved(3000, i, 8) * 1048576 + 64 * 1048576
    &&& opt_text(row.user) == (if i == 0 {
        None
    } else {
        Some(cast(i).0)
    })
    &&& opt_text(row.command) == (if i == 0 {
        None
    } else {
        Some(cast(i).1)
    })
    &&& row.host_mem_bytes == (if i == 0 {
        None
    } else {
        Some((halved(400, i, 6) * 1048576) as u64)
    })
}

/// The rows of a demonstration of `count` cards: three per card.
pub open spec fn are_mock_rows(rows: Seq<MockRow>, count: int, own_pid: u32) -> bool {
    &&& rows.len() == 3 * count
    &&& forall|i: int|
        0 <= i < rows.len() ==> is_mock_row(#[trigger] rows[i], i, count, own_pid)
}

impl MockBackend {
    /// The demonstration after one more poll, failed or not.
    pub open spec fn advanced(self) -> MockBackend {
        MockBackend { tick: (self.tick + 1) as u64, ..self }
    }

    /// The demonstration after `n` more polls.
    pub open spec fn after_polls(self, n: nat) -> MockBackend
        decreases n,
    {
        if n == 0 {
            self
        } else {
            self.after_polls((n - 1) as nat).advanced()
        }
    }

    pub fn new(count: usize) -> (b: Self)
        ensures
            b == (MockBackend { tick: 0, count }),
    {
        MockBackend { tick: 0, count }
    }

    pub fn name(&self) -> (s: &'static str)
        ensures
            s@ == "mock"@,
    {
        "mock"
    }

    /// Starts the next poll; with a failure interval, every such poll fails.
    pub fn advance(&mut self, fail_every: Option<u64>) -> (r: Result<u64, String>)
        requires
            old(self).tick < u64::MAX,
        ensures
            *final(self) == old(self).advanced(),
            is_tick(r, final(self).tick, fail_every),
    {
        self.tick = self.tick + 1;
        if let Some(n) = fail_every {
            if n > 0 && self.tick % n == 0 {
                let mut e = String::new();
                e.append("simulated driver reset (tick ");
                let digits = decimal_text(self.tick);
                e.append(digits.as_str());
                e.append(")");
                assert(e@ =~= "simulated driver reset (tick "@ + decimal(self.tick as nat) + ")"@);
                return Err(e);
            }
        }
        Ok(self.tick)
    }

    /// What the made-up driver calls itself.
    pub fn driver_info(&self) -> (s: &'static str)
        ensures
            s@ == "mock driver 1.0"@,
    {
        "mock driver 1.0"
    }

    /// The cards.
    pub fn cards(&self) -> (out: Vec<MockCard>)
        ensures
            are_mock_cards(out@, self.count as int),
    {
        let mut out: Vec<MockCard> = Vec::new();
        let mut i: usize = 0;
        while i < self.count
            invariant
                i <= self.count,
                out@.len() == i,
                forall|k: int| 0 <= k < i ==> is_mock_card(#[trigger] out@[k], k),
            decreases self.count - i,
        {
            let mut name = String::new();
            name.append("Mock GPU ");
            let digits = decimal_text(i as u64);
            name.append(digits.as_str());
            assert(name@ =~= "Mock GPU "@ + decimal(i as nat));
            out.push(
                MockCard {
                    name,
                    integrated: i == 0,
                    unified_video: i % 2 == 0,
                    vram_total_bytes: 17_179_869_184,
                    power_limit_w: 320,
                    mem_clock_mhz: 9000,
                    pcie_gen: if i == 1 {
                        3
                    } else {
                        4
                    },
                    pcie_width: if i == 1 {
                        8
                    } else {
                        16
                    },
                    pcie_max_gen: 4,
                    pcie_max_width: 16,
                    gtt_total_bytes: 8_589_934_592,
                },
            );
            i = i + 1;
        }
        out
    }

    /// Three rows per card.
    pub fn rows(&self, own_pid: u32) -> (out: Vec<MockRow>)
        requires
            PID_BASE + 3 * self.count <= 0x1_0000_0000,
        ensures
            are_mock_rows(out@, self.count as int, own_pid),
    {
        let mut out: Vec<MockRow> = Vec::new();
        let n: usize = self.count * 3;
        let mut i: usize = 0;
        while i < n
            invariant
                i <= n,
                n == 3 * self.count,
                PID_BASE + 3 * self.count <= 0x1_0000_0000,
                out@.len() == i,
                forall|k: int|
                    0 <= k < i ==> is_mock_row(
                        #[trigger] out@[k],
                        k,
                        self.count as int,
                        own_pid,
                    ),
            decreases n - i,
        {
            let own = i == 0;
            let (user, command) = cast_of(i);
            let row = MockRow {
                pid: if own {
                    own_pid
                } else {
                    PID_BASE + i as u32
                },
                gpu_index: i % self.count,
                kind: if i % 3 == 0 {
                    ProcKind::Graphics
                } else {
                    ProcKind::Compute
                },
                gpu_mem_bytes: halve(3000, i, 8) * 1_048_576 + 67_108_864,
                user: if own {
                    None
                } else {
                    Some(user.to_owned())
                },
                command: if own {
                    None
                } else {
                    Some(command.to_owned())
                },
                host_mem_bytes: if own {
                    None
                } else {
                    Some(halve(400, i, 6) * 1_048_576)
                },
            };
            out.push(row);
            i = i + 1;
        }
        out
    }

    /// Fabricated pids must not be signalled.
    pub fn can_signal(&self) -> (b: bool)
        ensures
            !b,
    {
        false
    }
}

// ---------------------------------------------------------------- laws

/// Two cards are the same in every field.
pub open spec fn same_card(a: MockCard, b: MockCard) -> bool {
    a == (MockCard { name: a.name, ..b }) && a.name@ == b.name@
}

/// Two rows are the same in every field.
pub open spec fn same_row(a: MockRow, b: MockRow) -> bool {
    &&& a == (MockRow { user: a.user, command: a.command, ..b })
    &&& opt_text(a.user) == opt_text(b.user)
    &&& opt_text(a.command) == opt_text(b.command)
}

/// A demonstration's state is the number of its polls and nothing else, so
/// that two of as many cards, polled as often, stand at the same tick.
pub proof fn polls_alone_move_a_demonstration(count: usize, n: nat)
    requires
        n <= u64::MAX,
    ensures
        (MockBackend { tick: 0, count }).after_polls(n) == (MockBackend { tick: n as u64, count }),
    decreases n,
{
    if n > 0 {
        polls_alone_move_a_demonstration(count, (n - 1) as nat);
    }
}

/// Every demonstration of as many cards shows the same cards and, to the same
/// process, the same rows, whenever it is asked.
pub proof fn demonstrations_repeat(
    count: int,
    own_pid: u32,
    cards: Seq<MockCard>,
    again: Seq<MockCard>,
    rows: Seq<MockRow>,
    rows_again: Seq<MockRow>,
)
    requires
        are_mock_cards(cards, count),
        are_mock_cards(again, count),
        are_mock_rows(rows, count, own_pid),
        are_mock_rows(rows_again, count, own_pid),
    ensures
        cards.len() == again.len(),
        forall|i: int|
            0 <= i < cards.len() ==> same_card(#[trigger] cards[i], #[trigger] again[i]),
        rows.len() == rows_again.len(),
        forall|i: int|
            0 <= i < rows.len() ==> same_row(#[trigger] rows[i], #[trigger] rows_again[i]),
{
    assert forall|i: int| 0 <= i < cards.len() implies same_card(
        #[trigger] cards[i],
        #[trigger] again[i],
    ) by {
        assert(is_mock_card(cards[i], i) && is_mock_card(again[i], i));
    }
    assert forall|i: int| 0 <= i < rows.len() implies same_row(
        #[trigger] rows[i],
        #[trigger] rows_again[i],
    ) by {
        assert(is_mock_row(rows[i], i, count, own_pid));
        assert(is_mock_row(rows_again[i], i, count, own_pid));
    }
}

/// Every row but the first has a pid above the base, and each is on a card that
/// exists.
pub proof fn fabricated_rows_stay_above_the_base(row: MockRow, i: int, count: int, own_pid: u32)
    requires
        count > 0,
        0 < i < 3 * count,
        is_mock_row(row, i, count, own_pid),
    ensures
        row.pid > PID_BASE,
        row.gpu_index < count,
{
    assert(0 <= i % count < count) by (nonlinear_arith)
        requires
            count > 0,
    ;
}

/// Halving goes on as often as it is asked to and no more often than allowed:
/// each time half of what there was.
pub proof fn halving_halves(n: u64, k: int, most: int)
    requires
        0 <= k,
        0 <= most,
    ensures
        halved(n, 0, most) == n && halved(n, k, 0) == n,
        k < most ==> halved(n, k + 1, most) == halved(n, k, most) / 2,
        k >= most ==> halved(n, k + 1, most) == halved(n, k, most),
    decreases k,
{
    if k > 0 && most > 0 {
        halving_halves((n / 2) as u64, k - 1, most - 1);
    } else if most > 0 {
        assert(halved((n / 2) as u64, 0, most - 1) == n / 2);
    }
}

/// Every card of a demonstration has three rows of its own, one in each round.
pub proof fn every_card_has_its_rows(
    rows: Seq<MockRow>,
    count: int,
    own_pid: u32,
    card: int,
    round: int,
)
    requires
        are_mock_rows(rows, count, own_pid),
        0 <= card < count,
        0 <= round < 3,
    ensures
        0 <= card + round * count < rows.len(),
        rows[card + round * count].gpu_index == card,
{
    let i = card + round * count;
    assert(0 <= i < 3 * count) by (nonlinear_arith)
        requires
            i == card + round * count,
            0 <= card < count,
            0 <= round < 3,
    ;
    assert(is_mock_row(rows[i], i, count, own_pid));
    vstd::arithmetic::div_mod::lemma_mod_multiples_vanish(round, card, count);
    vstd::arithmetic::div_mod::lemma_small_mod(card as nat, count as nat);
    assert(count * round + card == i) by (nonlinear_arith)
        requires
            i == card + round * count,
    ;
}

/// Only the first row is this very process, which is looked up like any other;
/// the rest tell who they are.
pub proof fn only_the_first_row_is_real(row: MockRow, i: int, count: int, own_pid: u32)
    requires
        is_mock_row(row, i, count, own_pid),
        0 <= i < 3 * count,
    ensures
        i == 0 ==> row.pid == own_pid && row.user is None && row.command is None
            && row.host_mem_bytes is None,
        i > 0 ==> row.pid == 1_000_000 + i && row.user is Some && row.command is Some
            && row.host_mem_bytes is Some,
        row.gpu_mem_bytes >= 64 * 1048576,
{
}

/// What a poll of the demonstration gives at `tick`: the tick, or the failure
/// that was asked for every so many.
pub open spec fn is_tick(r: Result<u64, String>, tick: u64, fail_every: Option<u64>) -> bool {
    match fail_every {
        Some(n) => if n > 0 && tick % n == 0 {
            r matches Err(e) && e@ == "simulated driver reset (tick "@ + decimal(tick as nat)
                + ")"@
        } else {
            r == Ok::<u64, String>(tick)
        },
        None => r == Ok::<u64, String>(tick),
    }
}

/// Of polls that fail every `n`, each multiple of `n` fails and none between
/// them; without that none fails, and what does not fail tells its tick.
pub proof fn polls_fail_as_often_as_asked(r: Result<u64, String>, k: nat, n: u64, rest: nat)
    requires
        n > 0,
        rest < n,
        k * n + rest <= u64::MAX,
    ensures
        is_tick(r, (k * n) as u64, Some(n)) ==> (r matches Err(e) && contains_text(
            e@,
            decimal(k * n as nat),
        )),
        rest > 0 && is_tick(r, (k * n + rest) as u64, Some(n)) ==> r == Ok::<u64, String>(
            (k * n + rest) as u64,
        ),
        is_tick(r, (k * n + rest) as u64, None) ==> r == Ok::<u64, String>((k * n + rest) as u64),
        is_tick(r, (k * n + rest) as u64, Some(0)) ==> r == Ok::<u64, String>(
            (k * n + rest) as u64,
        ),
{
    assert(0 <= k * n <= k * n + rest) by (nonlinear_arith);
    assert((k * n) % (n as int) == 0) by (nonlinear_arith)
        requires
            n > 0,
    ;
    assert((k * n + rest) % (n as int) == rest as int) by (nonlinear_arith)
        requires
            n > 0,
            rest < n,
    ;
    a_text_is_found_where_it_stands(
        "simulated driver reset (tick "@,
        decimal(k * n as nat),
        ")"@,
    );
}

} // verus!
