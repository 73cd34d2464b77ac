//! Key bindings: the actions, the table that binds them, and what the help
//! overlay and the footer say of it.
use vstd::prelude::*;
use crate::text::{contains_text, decimal, decimal_text, occurs_at, same_text};

verus! {

#[derive(Copy, Clone, Eq, PartialEq, Hash, Debug, Structural)]
pub enum Mode {
    Normal,
}

#[derive(Copy, Clone, PartialEq, Eq, Debug, Structural)]
pub enum Action {
    Quit,
    TogglePause,
    /// Move down/up within the focused pane (GPU selection or process rows).
    NextItem,
    PrevItem,
    /// Explicit GPU selection regardless of focus (mouse wheel routing).
    NextGpu,
    PrevGpu,
    TickFaster,
    TickSlower,
    /// Focus the GPU pane and select GPU N; pressed again on the already
    /// selected GPU it folds/unfolds the card.
    Digit(usize),
    FocusProcs,
    ProcScrollDown,
    ProcScrollUp,
    /// Cycle the process-table sort column / flip its direction.
    SortCycle,
    SortReverse,
    /// Open the process filter input.
    FilterOpen,
    /// SIGTERM / SIGKILL the process under the cursor (with confirmation).
    KillTerm,
    KillForce,
    /// Open the help overlay (any key closes it).
    Help,
}

// ---------------------------------------------------------------- the table

/// One binding. The footer chunk stands on the first chord of a group only.
#[derive(Clone, Copy, Debug)]
pub struct Bind {
    pub chord: &'static str,
    pub action: Action,
    pub desc: &'static str,
    pub footer: Option<&'static str>,
}

pub struct BindModel {
    pub chord: Seq<char>,
    pub action: Action,
    pub desc: Seq<char>,
    pub footer: Option<Seq<char>>,
}

impl Bind {
    pub open spec fn model(&self) -> BindModel {
        BindModel {
            chord: self.chord@,
            action: self.action,
            desc: self.desc@,
            footer: match self.footer {
                Some(f) => Some(f@),
                None => None,
            },
        }
    }
}

/// The bindings: what the keymap, the help overlay and the footer all come
/// from.
pub open spec fn table() -> Seq<BindModel> {
    seq![
        BindModel { chord: "q"@, action: Action::Quit, desc: "quit"@, footer: Some("q quit"@) },
        BindModel { chord: "<Esc>"@, action: Action::Quit, desc: "quit"@, footer: None },
        BindModel { chord: "<C-c>"@, action: Action::Quit, desc: "quit"@, footer: None },
        BindModel { chord: "p"@, action: Action::TogglePause, desc: "pause/resume polling"@, footer: Some("p pause"@) },
        BindModel { chord: "<Space>"@, action: Action::TogglePause, desc: "pause/resume polling"@, footer: None },
        BindModel { chord: "P"@, action: Action::FocusProcs, desc: "focus process list"@, footer: Some("P procs"@) },
        BindModel { chord: "?"@, action: Action::Help, desc: "show this help"@, footer: Some("? help"@) },
        BindModel { chord: "j"@, action: Action::NextItem, desc: "move down in focused list"@, footer: Some("j/k move"@) },
        BindModel { chord: "<Down>"@, action: Action::NextItem, desc: "move down in focused list"@, footer: None },
        BindModel { chord: "k"@, action: Action::PrevItem, desc: "move up in focused list"@, footer: None },
        BindModel { chord: "<Up>"@, action: Action::PrevItem, desc: "move up in focused list"@, footer: None },
        BindModel { chord: "+"@, action: Action::TickFaster, desc: "poll faster"@, footer: Some("+/- rate"@) },
        BindModel { chord: "="@, action: Action::TickFaster, desc: "poll faster"@, footer: None },
        BindModel { chord: "-"@, action: Action::TickSlower, desc: "poll slower"@, footer: None },
        BindModel { chord: "s"@, action: Action::SortCycle, desc: "cycle process sort column"@, footer: Some("s sort"@) },
        BindModel { chord: "r"@, action: Action::SortReverse, desc: "reverse process sort"@, footer: Some("r rev"@) },
        BindModel { chord: "/"@, action: Action::FilterOpen, desc: "filter processes"@, footer: Some("/ filter"@) },
        BindModel { chord: "x"@, action: Action::KillTerm, desc: "terminate selected process"@, footer: Some("x/X kill"@) },
        BindModel { chord: "X"@, action: Action::KillForce, desc: "kill -9 selected process"@, footer: None },
        BindModel { chord: "J"@, action: Action::ProcScrollDown, desc: "scroll process list down"@, footer: None },
        BindModel { chord: "<PageDown>"@, action: Action::ProcScrollDown, desc: "scroll process list down"@, footer: None },
        BindModel { chord: "K"@, action: Action::ProcScrollUp, desc: "scroll process list up"@, footer: None },
        BindModel { chord: "<PageUp>"@, action: Action::ProcScrollUp, desc: "scroll process list up"@, footer: None },
    ]
}

pub open spec fn models(v: Seq<Bind>) -> Seq<BindModel> {
    v.map_values(|b: Bind| b.model())
}

pub fn binds() -> (v: Vec<Bind>)
    ensures
        models(v@) == table(),
{
    let v: Vec<Bind> = vec![
        Bind { chord: "q", action: Action::Quit, desc: "quit", footer: Some("q quit") },
        Bind { chord: "<Esc>", action: Action::Quit, desc: "quit", footer: None },
        Bind { chord: "<C-c>", action: Action::Quit, desc: "quit", footer: None },
        Bind { chord: "p", action: Action::TogglePause, desc: "pause/resume polling", footer: Some("p pause") },
        Bind { chord: "<Space>", action: Action::TogglePause, desc: "pause/resume polling", footer: None },
        Bind { chord: "P", action: Action::FocusProcs, desc: "focus process list", footer: Some("P procs") },
        Bind { chord: "?", action: Action::Help, desc: "show this help", footer: Some("? help") },
        Bind { chord: "j", action: Action::NextItem, desc: "move down in focused list", footer: Some("j/k move") },
        Bind { chord: "<Down>", action: Action::NextItem, desc: "move down in focused list", footer: None },
        Bind { chord: "k", action: Action::PrevItem, desc: "move up in focused list", footer: None },
        Bind { chord: "<Up>", action: Action::PrevItem, desc: "move up in focused list", footer: None },
        Bind { chord: "+", action: Action::TickFaster, desc: "poll faster", footer: Some("+/- rate") },
        Bind { chord: "=", action: Action::TickFaster, desc: "poll faster", footer: None },
        Bind { chord: "-", action: Action::TickSlower, desc: "poll slower", footer: None },
        Bind { chord: "s", action: Action::SortCycle, desc: "cycle process sort column", footer: Some("s sort") },
        Bind { chord: "r", action: Action::SortReverse, desc: "reverse process sort", footer: Some("r rev") },
        Bind { chord: "/", action: Action::FilterOpen, desc: "filter processes", footer: Some("/ filter") },
        Bind { chord: "x", action: Action::KillTerm, desc: "terminate selected process", footer: Some("x/X kill") },
        Bind { chord: "X", action: Action::KillForce, desc: "kill -9 selected process", footer: None },
        Bind { chord: "J", action: Action::ProcScrollDown, desc: "scroll process list down", footer: None },
        Bind { chord: "<PageDown>", action: Action::ProcScrollDown, desc: "scroll process list down", footer: None },
        Bind { chord: "K", action: Action::ProcScrollUp, desc: "scroll process list up", footer: None },
        Bind { chord: "<PageUp>", action: Action::ProcScrollUp, desc: "scroll process list up", footer: None },
    ];
    assert(models(v@) =~= table());
    v
}

/// The digit bindings, which the overlay and the footer describe as one.
pub const DIGITS_CHORD: &'static str = "0-9";

pub const DIGITS_DESC: &'static str = "focus/select GPU N; same digit folds it";

pub const DIGITS_FOOTER: &'static str = "0-9 gpu";

// ---------------------------------------------------------------- help

/// The first row with this description.
pub open spec fn row_of(rows: Seq<(Seq<char>, Seq<char>)>, desc: Seq<char>, from: int) -> Option<int>
    decreases rows.len() - from,
{
    if from < 0 || from >= rows.len() {
        None
    } else if rows[from].1 == desc {
        Some(from)
    } else {
        row_of(rows, desc, from + 1)
    }
}

/// The rows of a bind table: chords with one description share a row.
pub open spec fn folded(binds: Seq<BindModel>) -> Seq<(Seq<char>, Seq<char>)>
    decreases binds.len(),
{
    if binds.len() == 0 {
        Seq::empty()
    } else {
        let rows = folded(binds.drop_last());
        let b = binds.last();
        match row_of(rows, b.desc, 0) {
            Some(k) => rows.update(k, (rows[k].0 + " "@ + b.chord, rows[k].1)),
            None => rows.push((b.chord, b.desc)),
        }
    }
}

/// The rows of the help overlay: the bindings, and what no binding expresses.
pub open spec fn help() -> Seq<(Seq<char>, Seq<char>)> {
    folded(table()).push((DIGITS_CHORD@, DIGITS_DESC@)).push(
        ("y"@, "confirm kill dialog (any other key cancels)"@),
    ).push(("wheel/click"@, "scroll + focus pane; click selects"@))
}

pub open spec fn row_texts(rows: Seq<(String, &'static str)>) -> Seq<(Seq<char>, Seq<char>)> {
    rows.map_values(|r: (String, &'static str)| (r.0@, r.1@))
}

pub fn help_rows() -> (rows: Vec<(String, &'static str)>)
    ensures
        row_texts(rows@) == help(),
{
    let all = binds();
    let ghost spec = table();
    let mut rows: Vec<(String, &'static str)> = Vec::new();
    let mut i: usize = 0;
    assert(row_texts(rows@) =~= folded(spec.take(0)));
    while i < all.len()
        invariant
            i <= all.len(),
            models(all@) == spec,
            row_texts(rows@) == folded(spec.take(i as int)),
        decreases all.len() - i,
    {
        let b = all[i];
        let ghost was = row_texts(rows@);
        proof {
            assert(spec.take(i + 1).drop_last() =~= spec.take(i as int));
            assert(spec[i as int] == b.model());
        }
        let mut k: usize = 0;
        while k < rows.len() && !same_text(rows[k].1, b.desc)
            invariant
                k <= rows.len(),
                was == row_texts(rows@),
                row_of(was, b.desc@, 0) == row_of(was, b.desc@, k as int),
            decreases rows.len() - k,
        {
            assert(was[k as int] == (rows@[k as int].0@, rows@[k as int].1@));
            k = k + 1;
        }
        if k < rows.len() {
            assert(was[k as int] == (rows@[k as int].0@, rows@[k as int].1@));
            let desc = rows[k].1;
            let mut chords = rows[k].0.clone();
            chords.append(" ");
            chords.append(b.chord);
            let ghost merged = (chords@, desc@);
            rows[k] = (chords, desc);
            proof {
                assert(merged.0 =~= was[k as int].0 + " "@ + b.chord@);
                assert(row_texts(rows@) =~= was.update(k as int, merged));
            }
        } else {
            rows.push((b.chord.to_owned(), b.desc));
            assert(row_texts(rows@) =~= was.push((b.chord@, b.desc@)));
        }
        i = i + 1;
    }
    proof {
        assert(models(all@).len() == all@.len());
        assert(spec.take(i as int) =~= spec);
    }
    let ghost base = row_texts(rows@);
    rows.push((DIGITS_CHORD.to_owned(), DIGITS_DESC));
    rows.push(("y".to_owned(), "confirm kill dialog (any other key cancels)"));
    rows.push(("wheel/click".to_owned(), "scroll + focus pane; click selects"));
    assert(row_texts(rows@) =~= help());
    rows
}

// ---------------------------------------------------------------- footer

/// The footer chunks of a bind table, each between spaces.
pub open spec fn chunks(binds: Seq<BindModel>) -> Seq<char>
    decreases binds.len(),
{
    if binds.len() == 0 {
        Seq::empty()
    } else {
        let rest = chunks(binds.drop_last());
        match binds.last().footer {
            Some(f) => rest + " "@ + f + " "@,
            None => rest,
        }
    }
}

pub open spec fn footer() -> Seq<char> {
    chunks(table()) + " "@ + DIGITS_FOOTER@
}

/// The one-line footer.
pub fn footer_hints() -> (s: String)
    ensures
        s@ == footer(),
{
    let all = binds();
    let ghost spec = table();
    let mut out = String::new();
    let mut i: usize = 0;
    assert(out@ =~= chunks(spec.take(0)));
    while i < all.len()
        invariant
            i <= all.len(),
            models(all@) == spec,
            out@ == chunks(spec.take(i as int)),
        decreases all.len() - i,
    {
        let b = all[i];
        let ghost was = out@;
        proof {
            assert(spec.take(i + 1).drop_last() =~= spec.take(i as int));
            assert(spec[i as int] == b.model());
        }
        if let Some(f) = b.footer {
            out.append(" ");
            out.append(f);
            out.append(" ");
            assert(out@ =~= was + " "@ + f@ + " "@);
        }
        i = i + 1;
    }
    proof {
        assert(models(all@).len() == all@.len());
        assert(spec.take(i as int) =~= spec);
    }
    let ghost base = out@;
    out.append(" ");
    out.append(DIGITS_FOOTER);
    assert(out@ =~= base + " "@ + DIGITS_FOOTER@);
    out
}

// ---------------------------------------------------------------- keymap

/// A key event as the terminal reports it, carried through unread.
#[verifier::external_type_specification]
#[verifier::external_body]
pub struct TerminalKey(crossterm::event::KeyEvent);

/// A key as the keymap knows it, carried through unread.
#[verifier::external_type_specification]
#[verifier::external_body]
pub struct MappedKey(hjkl_keymap::KeyEvent);

/// The bindings in force: a keymap of `hjkl_keymap`, to which nothing but the
/// functions below has access.
#[verifier::external_body]
pub struct KeyTable {
    map: hjkl_keymap::Keymap<Action, Mode>,
}

/// The key that a key event stands for where control codes are told apart from
/// the keys they double.
pub uninterp spec fn legacy_key(ev: crossterm::event::KeyEvent) -> crossterm::event::KeyEvent;

/// The key that an event presses, in the keymap's terms; releases, and keys the
/// keymap has no word for, press none.
pub uninterp spec fn pressed_key(ev: crossterm::event::KeyEvent) -> Option<hjkl_keymap::KeyEvent>;

/// What a keymap binds in normal mode: sequences of keys to actions.
pub uninterp spec fn bindings(km: KeyTable) -> Map<
    Seq<hjkl_keymap::KeyEvent>,
    Action,
>;

/// The keys a keymap took in since it last resolved a sequence.
pub uninterp spec fn held(km: KeyTable) -> Seq<hjkl_keymap::KeyEvent>;

/// The key that a chord of one key names.
pub uninterp spec fn chord_key(chord: Seq<char>) -> hjkl_keymap::KeyEvent;

/// `hjkl_kitty::normalize_legacy` is a function of the event alone.
pub assume_specification[ hjkl_kitty::normalize_legacy ](
    key: crossterm::event::KeyEvent,
) -> (r: crossterm::event::KeyEvent)
    ensures
        r == legacy_key(key),
;

/// `hjkl_keymap_tui::from_crossterm` is a function of the event alone.
pub assume_specification[ hjkl_keymap_tui::from_crossterm ](
    ev: &crossterm::event::KeyEvent,
) -> (r: Option<hjkl_keymap::KeyEvent>)
    ensures
        r == pressed_key(*ev),
;

/// A chord of one key: a character other than `<` and the space, or one of
/// these names.
pub open spec fn is_one_key(chord: Seq<char>) -> bool {
    ||| chord.len() == 1 && chord[0] != '<' && chord[0] != ' '
    ||| chord == "<Esc>"@
    ||| chord == "<C-c>"@
    ||| chord == "<Space>"@
    ||| chord == "<Down>"@
    ||| chord == "<Up>"@
    ||| chord == "<PageDown>"@
    ||| chord == "<PageUp>"@
}

pub open spec fn no_bindings() -> Map<Seq<hjkl_keymap::KeyEvent>, Action> {
    Map::empty()
}

/// `hjkl_keymap::Keymap::new`, with the space as leader. Claimed: a new keymap
/// binds nothing and holds no key.
#[verifier::external_body]
fn empty_keymap() -> (km: KeyTable)
    ensures
        bindings(km) == no_bindings(),
        held(km).len() == 0,
{
    KeyTable { map: hjkl_keymap::Keymap::new(' ') }
}

/// What a chord of one key is bound to.
pub open spec fn bound_to(km: KeyTable, chord: Seq<char>) -> Option<Action> {
    let keys = seq![chord_key(chord)];
    if bindings(km).dom().contains(keys) {
        Some(bindings(km)[keys])
    } else {
        None
    }
}

/// `hjkl_keymap::Keymap::add`, in normal mode. Claimed: a chord of one key
/// always parses; the sequence of that key alone is bound to the action, in
/// place of what it was bound to; and nothing else changes. Two such chords
/// never name one key, so that what the others are bound to stays.
#[verifier::external_body]
fn bind(km: &mut KeyTable, chord: &str, action: Action, desc: &str)
    requires
        is_one_key(chord@),
    ensures
        bindings(*final(km)) == bindings(*old(km)).insert(seq![chord_key(chord@)], action),
        forall|other: Seq<char>|
            is_one_key(other) && other != chord@ ==> #[trigger] bound_to(*final(km), other)
                == bound_to(*old(km), other),
        held(*final(km)) == held(*old(km)),
{
    km.map.add(Mode::Normal, chord, action, desc).expect("a chord of one key parses")
}

/// What a key led to.
#[derive(Clone, Copy, PartialEq, Eq, Structural, Debug)]
pub enum Fed {
    /// The sequence is bound to this action, and to no longer one.
    Matched(Action),
    /// A longer sequence may still be coming.
    Waiting,
    /// The sequence leads nowhere and is forgotten.
    Unbound,
}

/// A longer sequence that starts with `keys` is bound.
pub open spec fn has_longer(
    bound: Map<Seq<hjkl_keymap::KeyEvent>, Action>,
    keys: Seq<hjkl_keymap::KeyEvent>,
) -> bool {
    exists|s: Seq<hjkl_keymap::KeyEvent>|
        #[trigger] bound.dom().contains(s) && s.len() > keys.len() && s.take(keys.len() as int)
            == keys
}

/// What a sequence of keys leads to.
pub open spec fn fed(
    bound: Map<Seq<hjkl_keymap::KeyEvent>, Action>,
    keys: Seq<hjkl_keymap::KeyEvent>,
) -> Fed {
    if has_longer(bound, keys) {
        Fed::Waiting
    } else if bound.dom().contains(keys) {
        Fed::Matched(bound[keys])
    } else {
        Fed::Unbound
    }
}

/// `hjkl_keymap::Keymap::feed`, in normal mode; the time it is given plays no
/// part. Claimed: the key joins those held; a sequence that a longer one starts
/// with is held on to; any other is forgotten, and matches where it is bound;
/// the bindings stay.
#[verifier::external_body]
fn feed(km: &mut KeyTable, key: hjkl_keymap::KeyEvent) -> (r: Fed)
    ensures
        r == fed(bindings(*old(km)), held(*old(km)).push(key)),
        bindings(*final(km)) == bindings(*old(km)),
        held(*final(km)) == (if r is Waiting {
            held(*old(km)).push(key)
        } else {
            Seq::empty()
        }),
{
    match km.map.feed(Mode::Normal, key, std::time::Instant::now()) {
        hjkl_keymap::KeyResolve::Match(binding) => Fed::Matched(binding.action),
        hjkl_keymap::KeyResolve::Pending | hjkl_keymap::KeyResolve::Ambiguous => Fed::Waiting,
        hjkl_keymap::KeyResolve::Unbound(_) => Fed::Unbound,
    }
}

/// The bindings that the table and the ten digits make, in that order.
pub open spec fn bound_by(
    start: Map<Seq<hjkl_keymap::KeyEvent>, Action>,
    binds: Seq<BindModel>,
) -> Map<Seq<hjkl_keymap::KeyEvent>, Action>
    decreases binds.len(),
{
    if binds.len() == 0 {
        start
    } else {
        bound_by(start, binds.drop_last()).insert(
            seq![chord_key(binds.last().chord)],
            binds.last().action,
        )
    }
}

/// The first `n` digits, each bound to the card of that number.
pub open spec fn digits_bound(
    start: Map<Seq<hjkl_keymap::KeyEvent>, Action>,
    n: nat,
) -> Map<Seq<hjkl_keymap::KeyEvent>, Action>
    decreases n,
{
    if n == 0 {
        start
    } else {
        digits_bound(start, (n - 1) as nat).insert(
            seq![chord_key(decimal((n - 1) as nat))],
            Action::Digit((n - 1) as usize),
        )
    }
}

pub open spec fn default_bindings() -> Map<Seq<hjkl_keymap::KeyEvent>, Action> {
    digits_bound(bound_by(no_bindings(), table()), 10)
}

/// A number that tells the chords of the table, and the digits, apart.
spec fn mark(chord: Seq<char>) -> int {
    if chord.len() == 1 {
        chord[0] as int
    } else {
        0x11_0000 * chord.len() + chord[1] as int
    }
}

/// The marks of the table's chords.
spec fn marks() -> Seq<int> {
    seq![
        'q' as int,
        0x11_0000 * 5 + 'E' as int,
        0x11_0000 * 5 + 'C' as int,
        'p' as int,
        0x11_0000 * 7 + 'S' as int,
        'P' as int,
        '?' as int,
        'j' as int,
        0x11_0000 * 6 + 'D' as int,
        'k' as int,
        0x11_0000 * 4 + 'U' as int,
        '+' as int,
        '=' as int,
        '-' as int,
        's' as int,
        'r' as int,
        '/' as int,
        'x' as int,
        'X' as int,
        'J' as int,
        0x11_0000 * 10 + 'P' as int,
        'K' as int,
        0x11_0000 * 8 + 'P' as int,
    ]
}

proof fn lemma_marks()
    ensures
        marks().no_duplicates(),
        forall|k: int|
            #![trigger marks()[k]]
            0 <= k < marks().len() ==> !('0' as int <= marks()[k] <= '9' as int),
{
}

proof fn lemma_table_chords()
    ensures
        table().len() == marks().len(),
        forall|k: int|
            0 <= k < table().len() ==> is_one_key((#[trigger] table()[k]).chord) && mark(
                table()[k].chord,
            ) == marks()[k],
{
    reveal_strlit("q");
    reveal_strlit("<Esc>");
    reveal_strlit("<C-c>");
    reveal_strlit("p");
    reveal_strlit("<Space>");
    reveal_strlit("P");
    reveal_strlit("?");
    reveal_strlit("j");
    reveal_strlit("<Down>");
    reveal_strlit("k");
    reveal_strlit("<Up>");
    reveal_strlit("+");
    reveal_strlit("=");
    reveal_strlit("-");
    reveal_strlit("s");
    reveal_strlit("r");
    reveal_strlit("/");
    reveal_strlit("x");
    reveal_strlit("X");
    reveal_strlit("J");
    reveal_strlit("<PageDown>");
    reveal_strlit("K");
    reveal_strlit("<PageUp>");
}

/// The chords of the table are different from one another and from the digits.
proof fn lemma_chords_differ()
    ensures
        forall|j: int, k: int|
            0 <= j < k < table().len() ==> (#[trigger] table()[j]).chord != (
            #[trigger] table()[k]).chord,
        forall|k: int, d: nat|
            #![trigger table()[k], decimal(d)]
            0 <= k < table().len() && d < 10 ==> table()[k].chord != decimal(d),
{
    lemma_table_chords();
    lemma_marks();
    assert forall|j: int, k: int| 0 <= j < k < table().len() implies (#[trigger] table()[j]).chord
        != (#[trigger] table()[k]).chord by {
        assert(marks()[j] != marks()[k]);
    }
    assert forall|k: int, d: nat|
        #![trigger table()[k], decimal(d)]
        0 <= k < table().len() && d < 10 implies table()[k].chord != decimal(d) by {
        lemma_digit(d);
        assert(marks()[k] == mark(table()[k].chord));
    }
}

/// The numeral of a digit is that one character.
proof fn lemma_digit(d: nat)
    requires
        d < 10,
    ensures
        decimal(d).len() == 1,
        decimal(d)[0] as int == '0' as int + d,
        is_one_key(decimal(d)),
        mark(decimal(d)) == '0' as int + d,
{
    reveal_with_fuel(decimal, 2);
}

/// The keymap of the table and the ten digits: each of their chords does what
/// the table says.
pub fn default_keymap() -> (km: KeyTable)
    ensures
        bindings(km) == default_bindings(),
        forall|k: int|
            0 <= k < table().len() ==> bound_to(km, (#[trigger] table()[k]).chord) == Some(
                table()[k].action,
            ),
        forall|d: nat|
            d < 10 ==> bound_to(km, #[trigger] decimal(d)) == Some(Action::Digit(d as usize)),
        held(km).len() == 0,
{
    let mut km = empty_keymap();
    let all = binds();
    let ghost spec = table();
    let mut i: usize = 0;
    assert(spec.take(0) =~= Seq::<BindModel>::empty());
    proof {
        lemma_table_chords();
        lemma_chords_differ();
    }
    while i < all.len()
        invariant
            i <= all.len(),
            models(all@) == spec,
            spec == table(),
            forall|k: int| 0 <= k < spec.len() ==> is_one_key((#[trigger] spec[k]).chord),
            forall|j: int, k: int|
                0 <= j < k < spec.len() ==> (#[trigger] spec[j]).chord != (#[trigger] spec[k]).chord,
            bindings(km) == bound_by(no_bindings(), spec.take(i as int)),
            forall|k: int|
                0 <= k < i ==> bound_to(km, (#[trigger] spec[k]).chord) == Some(spec[k].action),
            held(km).len() == 0,
        decreases all.len() - i,
    {
        let b = all[i];
        proof {
            assert(spec.take(i + 1).drop_last() =~= spec.take(i as int));
            assert(spec[i as int] == b.model());
        }
        bind(&mut km, b.chord, b.action, b.desc);
        proof {
            assert(bound_to(km, b.chord@) == Some(b.action));
            assert forall|k: int| 0 <= k < i + 1 implies bound_to(km, (#[trigger] spec[k]).chord)
                == Some(spec[k].action) by {
                if k < i {
                    assert(spec[k].chord != spec[i as int].chord);
                }
            }
        }
        i = i + 1;
    }
    proof {
        assert(models(all@).len() == all@.len());
        assert(spec.take(i as int) =~= spec);
    }
    let ghost base = bindings(km);
    let mut d: usize = 0;
    while d < 10
        invariant
            d <= 10,
            spec == table(),
            forall|k: int| 0 <= k < spec.len() ==> is_one_key((#[trigger] spec[k]).chord),
            forall|k: int, x: nat|
                #![trigger spec[k], decimal(x)]
                0 <= k < spec.len() && x < 10 ==> spec[k].chord != decimal(x),
            bindings(km) == digits_bound(base, d as nat),
            forall|k: int|
                0 <= k < spec.len() ==> bound_to(km, (#[trigger] spec[k]).chord) == Some(
                    spec[k].action,
                ),
            forall|x: nat|
                x < d ==> bound_to(km, #[trigger] decimal(x)) == Some(Action::Digit(x as usize)),
            held(km).len() == 0,
        decreases 10 - d,
    {
        let digit = decimal_text(d as u64);
        proof {
            lemma_digit(d as nat);
        }
        bind(&mut km, digit.as_str(), Action::Digit(d), DIGITS_DESC);
        proof {
            assert(bound_to(km, digit@) == Some(Action::Digit(d)));
            assert forall|x: nat| x < d + 1 implies bound_to(km, #[trigger] decimal(x)) == Some(
                Action::Digit(x as usize),
            ) by {
                lemma_digit(x);
            }
            assert forall|k: int| 0 <= k < spec.len() implies bound_to(
                km,
                (#[trigger] spec[k]).chord,
            ) == Some(spec[k].action) by {
                assert(spec[k].chord != decimal(d as nat));
            }
        }
        d = d + 1;
    }
    km
}

/// The action that a fed key leads to, if any.
pub fn action_of(fed: Fed) -> (r: Option<Action>)
    ensures
        r == (match fed {
            Fed::Matched(a) => Some(a),
            _ => None,
        }),
{
    match fed {
        Fed::Matched(a) => Some(a),
        Fed::Waiting | Fed::Unbound => None,
    }
}

/// The action of a terminal key, control codes told apart from the keys they
/// double. An event that presses no key leaves the keymap as it was.
pub fn resolve(km: &mut KeyTable, ev: crossterm::event::KeyEvent) -> (r: Option<Action>)
    ensures
        bindings(*final(km)) == bindings(*old(km)),
        is_resolved(*old(km), *final(km), pressed_key(legacy_key(ev)), r),
{
    let ev = hjkl_kitty::normalize_legacy(ev);
    match hjkl_keymap_tui::from_crossterm(&ev) {
        Some(key) => {
            let led = feed(km, key);
            action_of(led)
        },
        None => None,
    }
}

// ---------------------------------------------------------------- laws

proof fn lemma_row_of(rows: Seq<(Seq<char>, Seq<char>)>, desc: Seq<char>, from: int)
    requires
        0 <= from,
    ensures
        match row_of(rows, desc, from) {
            Some(k) => from <= k < rows.len() && rows[k].1 == desc,
            None => forall|k: int| from <= k < rows.len() ==> (#[trigger] rows[k]).1 != desc,
        },
    decreases rows.len() - from,
{
    if from < rows.len() && rows[from].1 != desc {
        lemma_row_of(rows, desc, from + 1);
    }
}

/// The row names the chord.
pub open spec fn lists(row: Seq<char>, chord: Seq<char>) -> bool {
    contains_text(row, chord)
}

proof fn lemma_contains_within(a: Seq<char>, b: Seq<char>, c: Seq<char>, needle: Seq<char>)
    requires
        contains_text(b, needle),
    ensures
        contains_text(a + b + c, needle),
{
    let i = choose|i: int| occurs_at(b, needle, i);
    let whole = a + b + c;
    let at = a.len() + i;
    assert(whole.subrange(at, at + needle.len()) =~= b.subrange(i, i + needle.len()));
    assert(occurs_at(whole, needle, at));
}

proof fn lemma_contains_self(a: Seq<char>)
    ensures
        contains_text(a, a),
{
    assert(a.subrange(0, a.len() as int) =~= a);
    assert(occurs_at(a, a, 0));
}

/// `row` is the row of a binding: it has its description and names its chord.
pub open spec fn is_row_of(row: (Seq<char>, Seq<char>), b: BindModel) -> bool {
    row.1 == b.desc && lists(row.0, b.chord)
}

/// One of the rows is the binding's.
pub open spec fn has_row(rows: Seq<(Seq<char>, Seq<char>)>, b: BindModel) -> bool {
    exists|r: int| 0 <= r < rows.len() && is_row_of(#[trigger] rows[r], b)
}

/// No description has two rows.
pub open spec fn one_row_each(rows: Seq<(Seq<char>, Seq<char>)>) -> bool {
    forall|a: int, b: int|
        0 <= a < b < rows.len() ==> (#[trigger] rows[a]).1 != (#[trigger] rows[b]).1
}

/// The rows with one more binding.
pub open spec fn with_bind(rows: Seq<(Seq<char>, Seq<char>)>, b: BindModel) -> Seq<
    (Seq<char>, Seq<char>),
> {
    match row_of(rows, b.desc, 0) {
        Some(k) => rows.update(k, (rows[k].0 + " "@ + b.chord, rows[k].1)),
        None => rows.push((b.chord, b.desc)),
    }
}

/// A binding that has its row keeps it when another is added.
#[verifier::spinoff_prover]
proof fn lemma_row_kept(rows: Seq<(Seq<char>, Seq<char>)>, b: BindModel, was: BindModel)
    requires
        has_row(rows, was),
    ensures
        has_row(with_bind(rows, b), was),
{
    lemma_row_of(rows, b.desc, 0);
    let all = with_bind(rows, b);
    let r = choose|r: int| 0 <= r < rows.len() && is_row_of(#[trigger] rows[r], was);
    if row_of(rows, b.desc, 0) == Some(r) {
        let none = Seq::<char>::empty();
        lemma_contains_within(none, rows[r].0, " "@ + b.chord, was.chord);
        assert(none + rows[r].0 + (" "@ + b.chord) =~= rows[r].0 + " "@ + b.chord);
    }
    assert(is_row_of(all[r], was));
}

/// A binding that is added has its row.
#[verifier::spinoff_prover]
proof fn lemma_row_added(rows: Seq<(Seq<char>, Seq<char>)>, b: BindModel)
    ensures
        has_row(with_bind(rows, b), b),
{
    lemma_row_of(rows, b.desc, 0);
    lemma_contains_self(b.chord);
    let all = with_bind(rows, b);
    match row_of(rows, b.desc, 0) {
        Some(m) => {
            let none = Seq::<char>::empty();
            lemma_contains_within(rows[m].0 + " "@, b.chord, none, b.chord);
            assert(rows[m].0 + " "@ + b.chord + none =~= rows[m].0 + " "@ + b.chord);
            assert(is_row_of(all[m], b));
        },
        None => {
            assert(is_row_of(all[rows.len() as int], b));
        },
    }
}

/// Adding a binding gives no description a second row.
#[verifier::spinoff_prover]
proof fn lemma_one_row_each(rows: Seq<(Seq<char>, Seq<char>)>, b: BindModel)
    requires
        one_row_each(rows),
    ensures
        one_row_each(with_bind(rows, b)),
{
    lemma_row_of(rows, b.desc, 0);
    let all = with_bind(rows, b);
    assert forall|x: int, y: int| 0 <= x < y < all.len() implies (#[trigger] all[x]).1 != (
    #[trigger] all[y]).1 by {
        if y < rows.len() {
            assert(rows[x].1 != rows[y].1);
        } else {
            assert(rows[x].1 != b.desc);
        }
    }
}

/// Every binding has its row in the folded table: one with its description,
/// that names its chord; and no description has two rows.
#[verifier::spinoff_prover]
pub proof fn every_binding_has_its_row(binds: Seq<BindModel>)
    ensures
        forall|k: int|
            0 <= k < binds.len() ==> has_row(folded(binds), #[trigger] binds[k]),
        one_row_each(folded(binds)),
    decreases binds.len(),
{
    if binds.len() > 0 {
        let init = binds.drop_last();
        let rows = folded(init);
        every_binding_has_its_row(init);
        assert(folded(binds) == with_bind(rows, binds.last()));
        lemma_row_added(rows, binds.last());
        lemma_one_row_each(rows, binds.last());
        assert forall|k: int| 0 <= k < binds.len() implies has_row(
            folded(binds),
            #[trigger] binds[k],
        ) by {
            if k < init.len() {
                assert(init[k] == binds[k]);
                lemma_row_kept(rows, binds.last(), binds[k]);
            }
        }
    }
}

proof fn lemma_chunk_shown(binds: Seq<BindModel>, k: int)
    requires
        0 <= k < binds.len(),
        binds[k].footer is Some,
    ensures
        contains_text(chunks(binds), binds[k].footer->0),
    decreases binds.len(),
{
    let init = binds.drop_last();
    let rest = chunks(init);
    let none = Seq::<char>::empty();
    if k < init.len() {
        lemma_chunk_shown(init, k);
        assert(init[k] == binds[k]);
        match binds.last().footer {
            Some(f) => {
                lemma_contains_within(none, rest, " "@ + f + " "@, binds[k].footer->0);
                assert(none + rest + (" "@ + f + " "@) =~= rest + " "@ + f + " "@);
            },
            None => {},
        }
    } else {
        let f = binds[k].footer->0;
        lemma_contains_self(f);
        lemma_contains_within(rest + " "@, f, " "@, f);
    }
}

/// The footer holds the chunk of every binding that has one.
pub proof fn the_footer_shows_every_chunk(k: int)
    requires
        0 <= k < table().len(),
        table()[k].footer is Some,
    ensures
        contains_text(footer(), table()[k].footer->0),
{
    lemma_chunk_shown(table(), k);
    let none = Seq::<char>::empty();
    lemma_contains_within(none, chunks(table()), " "@ + DIGITS_FOOTER@, table()[k].footer->0);
    assert(none + chunks(table()) + (" "@ + DIGITS_FOOTER@) =~= footer());
}

proof fn lemma_single_keys(binds: Seq<BindModel>, n: nat)
    ensures
        forall|s: Seq<hjkl_keymap::KeyEvent>|
            #[trigger] digits_bound(bound_by(no_bindings(), binds), n).dom().contains(s) ==> s.len()
                == 1,
    decreases binds.len(), n,
{
    let all = digits_bound(bound_by(no_bindings(), binds), n);
    let fewer = if n > 0 {
        digits_bound(bound_by(no_bindings(), binds), (n - 1) as nat)
    } else {
        digits_bound(bound_by(no_bindings(), binds.drop_last()), 0)
    };
    if n > 0 {
        lemma_single_keys(binds, (n - 1) as nat);
    } else if binds.len() > 0 {
        lemma_single_keys(binds.drop_last(), 0);
    }
    assert forall|s: Seq<hjkl_keymap::KeyEvent>| #[trigger] all.dom().contains(s) implies s.len() == 1 by {
        if (n > 0 || binds.len() > 0) && fewer.dom().contains(s) {
            assert(s.len() == 1);
        }
    }
}

/// No default binding waits for a second key: every key is decided at once, so
/// that none is ever held.
pub proof fn every_key_is_decided_at_once(key: hjkl_keymap::KeyEvent)
    ensures
        !(fed(default_bindings(), seq![key]) is Waiting),
{
    lemma_single_keys(table(), 10);
    assert forall|s: Seq<hjkl_keymap::KeyEvent>| #[trigger] default_bindings().dom().contains(s) implies s.len()
        == 1 by {}
}

/// A chord of the default bindings acts as soon as its key is pressed.
pub proof fn a_bound_key_acts(km: KeyTable, chord: Seq<char>)
    requires
        bindings(km) == default_bindings(),
        bound_to(km, chord) is Some,
    ensures
        fed(bindings(km), seq![chord_key(chord)]) == Fed::Matched(bound_to(km, chord)->0),
{
    every_key_is_decided_at_once(chord_key(chord));
}

/// Whatever binding is on a key, it is the key's own action: the letters stand
/// for what they abbreviate, a capital for the stronger or the other pane's,
/// and the named keys double them.
#[verifier::spinoff_prover]
pub proof fn every_key_does_its_own(b: BindModel)
    requires
        table().contains(b),
    ensures
        b.chord == "q"@ ==> b.action == Action::Quit,
        b.chord == "<Esc>"@ ==> b.action == Action::Quit,
        b.chord == "<C-c>"@ ==> b.action == Action::Quit,
        b.chord == "p"@ ==> b.action == Action::TogglePause,
        b.chord == "<Space>"@ ==> b.action == Action::TogglePause,
        b.chord == "P"@ ==> b.action == Action::FocusProcs,
        b.chord == "?"@ ==> b.action == Action::Help,
        b.chord == "j"@ ==> b.action == Action::NextItem,
        b.chord == "<Down>"@ ==> b.action == Action::NextItem,
        b.chord == "k"@ ==> b.action == Action::PrevItem,
        b.chord == "<Up>"@ ==> b.action == Action::PrevItem,
        b.chord == "+"@ ==> b.action == Action::TickFaster,
        b.chord == "="@ ==> b.action == Action::TickFaster,
        b.chord == "-"@ ==> b.action == Action::TickSlower,
        b.chord == "s"@ ==> b.action == Action::SortCycle,
        b.chord == "r"@ ==> b.action == Action::SortReverse,
        b.chord == "/"@ ==> b.action == Action::FilterOpen,
        b.chord == "x"@ ==> b.action == Action::KillTerm,
        b.chord == "X"@ ==> b.action == Action::KillForce,
        b.chord == "J"@ ==> b.action == Action::ProcScrollDown,
        b.chord == "<PageDown>"@ ==> b.action == Action::ProcScrollDown,
        b.chord == "K"@ ==> b.action == Action::ProcScrollUp,
        b.chord == "<PageUp>"@ ==> b.action == Action::ProcScrollUp,
{
    lemma_chords_differ();
    let k = choose|k: int| 0 <= k < table().len() && table()[k] == b;
    assert(table()[k].chord == b.chord);
    assert(table()[0].chord == "q"@);
    assert(table()[1].chord == "<Esc>"@);
    assert(table()[2].chord == "<C-c>"@);
    assert(table()[3].chord == "p"@);
    assert(table()[4].chord == "<Space>"@);
    assert(table()[5].chord == "P"@);
    assert(table()[6].chord == "?"@);
    assert(table()[7].chord == "j"@);
    assert(table()[8].chord == "<Down>"@);
    assert(table()[9].chord == "k"@);
    assert(table()[10].chord == "<Up>"@);
    assert(table()[11].chord == "+"@);
    assert(table()[12].chord == "="@);
    assert(table()[13].chord == "-"@);
    assert(table()[14].chord == "s"@);
    assert(table()[15].chord == "r"@);
    assert(table()[16].chord == "/"@);
    assert(table()[17].chord == "x"@);
    assert(table()[18].chord == "X"@);
    assert(table()[19].chord == "J"@);
    assert(table()[20].chord == "<PageDown>"@);
    assert(table()[21].chord == "K"@);
    assert(table()[22].chord == "<PageUp>"@);
}

/// Every binding is described by what it does.
pub proof fn every_binding_is_described_by_what_it_does(b: BindModel)
    requires
        table().contains(b),
    ensures
        b.action == Action::Quit ==> b.desc == "quit"@,
        b.action == Action::TogglePause ==> b.desc == "pause/resume polling"@,
        b.action == Action::FocusProcs ==> b.desc == "focus process list"@,
        b.action == Action::Help ==> b.desc == "show this help"@,
        b.action == Action::NextItem ==> b.desc == "move down in focused list"@,
        b.action == Action::PrevItem ==> b.desc == "move up in focused list"@,
        b.action == Action::TickFaster ==> b.desc == "poll faster"@,
        b.action == Action::TickSlower ==> b.desc == "poll slower"@,
        b.action == Action::SortCycle ==> b.desc == "cycle process sort column"@,
        b.action == Action::SortReverse ==> b.desc == "reverse process sort"@,
        b.action == Action::FilterOpen ==> b.desc == "filter processes"@,
        b.action == Action::KillTerm ==> b.desc == "terminate selected process"@,
        b.action == Action::KillForce ==> b.desc == "kill -9 selected process"@,
        b.action == Action::ProcScrollDown ==> b.desc == "scroll process list down"@,
        b.action == Action::ProcScrollUp ==> b.desc == "scroll process list up"@,
{
    let k = choose|k: int| 0 <= k < table().len() && table()[k] == b;
    assert(table()[k] == b);
}

/// What a key press does to the table: it completes a binding, waits for more,
/// or leads nowhere.
pub open spec fn is_resolved(
    before: KeyTable,
    after: KeyTable,
    pressed: Option<hjkl_keymap::KeyEvent>,
    r: Option<Action>,
) -> bool {
    match pressed {
        None => r is None && after == before,
        Some(key) => {
            let keys = held(before).push(key);
            let led = fed(bindings(before), keys);
            &&& r == (match led {
                Fed::Matched(a) => Some(a),
                _ => None,
            })
            &&& held(after) == (if led is Waiting {
                keys
            } else {
                Seq::empty()
            })
        },
    }
}

/// A press acts just where it completes a binding, and then, as where it leads
/// nowhere, nothing is held any more; what is no key changes nothing.
pub proof fn a_press_acts_where_it_completes_a_binding(
    before: KeyTable,
    after: KeyTable,
    key: hjkl_keymap::KeyEvent,
    a: Action,
    r: Option<Action>,
)
    ensures
        is_resolved(before, after, None, r) ==> r is None && after == before,
        is_resolved(before, after, Some(key), r) && fed(bindings(before), held(before).push(key))
            == Fed::Matched(a) ==> r == Some(a) && held(after).len() == 0,
        is_resolved(before, after, Some(key), r) && r is Some ==> fed(
            bindings(before),
            held(before).push(key),
        ) is Matched,
        is_resolved(before, after, Some(key), r) && fed(
            bindings(before),
            held(before).push(key),
        ) is Waiting ==> r is None && held(after) == held(before).push(key),
{
}

} // verus!
