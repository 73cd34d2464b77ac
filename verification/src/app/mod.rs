//! The monitor's state and the rules that move it.
pub mod control;
pub mod device;
pub mod evict;
pub mod history;
pub mod kill;
pub mod poll;
pub mod process;
pub mod refresh;
pub mod signal;
pub mod state;
pub mod table;

use vstd::prelude::*;
use crate::app::device::{DeviceId, DeviceKey, DeviceMap};
use crate::app::history::{histories_wf, History, SessionStats};
use crate::app::process::{ContainerCache, ProcRow};
use crate::backend::{BackendSource, GpuSnapshot};
use crate::text::{ascii_lowercase, char_ascii_lower, chars_of, same_chars};

verus! {

/// How long the splash screen stays up, in nanoseconds.
pub const SPLASH_NS: u64 = 1_500_000_000;

/// How long a status message stays up, in nanoseconds.
pub const STATUS_NS: u64 = 4_000_000_000;

/// Poll-interval floor, shared by the startup clamp and the `+` key.
pub const MIN_TICK_MS: u64 = 50;

/// Poll-interval ceiling, shared by the startup clamp and the `-` key.
pub const MAX_TICK_MS: u64 = 10_000;

/// Cap on folds written to the state file.
pub const MAX_FOLDS_PERSISTED: usize = 32;

/// `v` brought into the range of poll intervals.
pub open spec fn clamped_tick(v: u64) -> u64 {
    if v < MIN_TICK_MS {
        MIN_TICK_MS
    } else if v > MAX_TICK_MS {
        MAX_TICK_MS
    } else {
        v
    }
}

/// The startup poll-rate clamp.
pub fn clamp_tick_ms(v: u64) -> (r: u64)
    ensures
        r == clamped_tick(v),
{
    if v < MIN_TICK_MS {
        MIN_TICK_MS
    } else if v > MAX_TICK_MS {
        MAX_TICK_MS
    } else {
        v
    }
}

#[derive(Clone, Copy, PartialEq, Eq, Structural, Debug)]
pub enum Focus {
    Gpus,
    Procs,
}

/// Glyph set for graphs.
#[derive(Clone, Copy, PartialEq, Eq, Structural, Debug)]
pub enum GraphStyle {
    Braille,
    Block,
    Ascii,
}

impl GraphStyle {
    /// The glyph set of that name, in any ASCII case.
    pub open spec fn named(s: Seq<char>) -> Option<GraphStyle> {
        if ascii_lowercase(s) == "braille"@ {
            Some(GraphStyle::Braille)
        } else if ascii_lowercase(s) == "block"@ {
            Some(GraphStyle::Block)
        } else if ascii_lowercase(s) == "ascii"@ {
            Some(GraphStyle::Ascii)
        } else {
            None
        }
    }

    /// The glyph set that a config value names.
    pub fn from_config(s: &str) -> (r: Option<Self>)
        ensures
            r == GraphStyle::named(s@),
    {
        let cs = chars_of(s);
        let mut low: Vec<char> = Vec::new();
        let mut i: usize = 0;
        while i < cs.len()
            invariant
                i <= cs.len(),
                low@ == ascii_lowercase(cs@).take(i as int),
            decreases cs.len() - i,
        {
            low.push(char_ascii_lower(cs[i]));
            assert(low@ =~= ascii_lowercase(cs@).take(i + 1));
            i = i + 1;
        }
        assert(low@ =~= ascii_lowercase(cs@));
        if same_chars(&low, &chars_of("braille")) {
            Some(GraphStyle::Braille)
        } else if same_chars(&low, &chars_of("block")) {
            Some(GraphStyle::Block)
        } else if same_chars(&low, &chars_of("ascii")) {
            Some(GraphStyle::Ascii)
        } else {
            None
        }
    }
}

#[derive(Clone, Copy, PartialEq, Eq, Structural, Debug)]
pub enum InputMode {
    Normal,
    /// Typing in the process filter; raw keys go to the input buffer.
    Filter,
    /// Kill confirmation pending; y confirms, anything else cancels.
    Confirm,
}

#[derive(Clone, Copy, PartialEq, Eq, Structural, Debug)]
pub enum SortBy {
    GpuMem,
    GpuUtil,
    Cpu,
    HostMem,
    Pid,
}

impl Default for SortBy {
    fn default() -> (s: Self)
        ensures
            s == SortBy::GpuMem,
    {
        SortBy::GpuMem
    }
}

impl SortBy {
    /// The column after this one in the cycle.
    pub open spec fn following(self) -> SortBy {
        match self {
            SortBy::GpuMem => SortBy::GpuUtil,
            SortBy::GpuUtil => SortBy::Cpu,
            SortBy::Cpu => SortBy::HostMem,
            SortBy::HostMem => SortBy::Pid,
            SortBy::Pid => SortBy::GpuMem,
        }
    }

    pub fn next(self) -> (r: Self)
        ensures
            r == self.following(),
    {
        match self {
            SortBy::GpuMem => SortBy::GpuUtil,
            SortBy::GpuUtil => SortBy::Cpu,
            SortBy::Cpu => SortBy::HostMem,
            SortBy::HostMem => SortBy::Pid,
            SortBy::Pid => SortBy::GpuMem,
        }
    }

    pub fn label(self) -> (s: &'static str)
        ensures
            s@ == (match self {
                SortBy::GpuMem => "gpu-mem"@,
                SortBy::GpuUtil => "gpu%"@,
                SortBy::Cpu => "cpu%"@,
                SortBy::HostMem => "host-mem"@,
                SortBy::Pid => "pid"@,
            }),
    {
        match self {
            SortBy::GpuMem => "gpu-mem",
            SortBy::GpuUtil => "gpu%",
            SortBy::Cpu => "cpu%",
            SortBy::HostMem => "host-mem",
            SortBy::Pid => "pid",
        }
    }
}

/// A signal awaiting confirmation. `start_time` pins the identity of the
/// target: a pid alone is not one.
#[derive(Debug)]
pub struct PendingKill {
    pub pid: u32,
    /// Start time as read when the dialog opened.
    pub start_time: u64,
    /// SIGKILL rather than SIGTERM.
    pub force: bool,
    /// Truncated command line, for the dialog and the result message.
    pub command: String,
    /// Start time in clock ticks since boot, where the system has it.
    pub start_ticks: Option<u64>,
}

/// UI state persisted across runs: folded cards, sort, poll rate.
#[derive(Debug)]
pub struct UiState {
    /// Folded cards, by device id.
    pub folded_devices: Vec<String>,
    pub sort_by: SortBy,
    pub sort_desc: bool,
    pub tick_ms: u64,
    /// Whether `tick_ms` was chosen interactively; `None` where the writer did
    /// not know the flag.
    pub tick_ms_explicit: Option<bool>,
}

impl UiState {
    /// The persisted rate, when it should still outrank the configured one.
    pub open spec fn sticky(&self) -> Option<u64> {
        if self.tick_ms_explicit != Some(false) && self.tick_ms > 0 {
            Some(self.tick_ms)
        } else {
            None
        }
    }

    /// The persisted rate, when it should still outrank the configured one.
    pub fn sticky_tick_ms(&self) -> (r: Option<u64>)
        ensures
            r == self.sticky(),
    {
        let configured = match self.tick_ms_explicit {
            Some(b) => !b,
            None => false,
        };
        if !configured && self.tick_ms > 0 {
            Some(self.tick_ms)
        } else {
            None
        }
    }

    /// Recorded as a genuine key press, so it stays sticky indefinitely.
    pub fn tick_chosen_by_key(&self) -> (b: bool)
        ensures
            b == (self.tick_ms_explicit == Some(true)),
    {
        match self.tick_ms_explicit {
            Some(b) => b,
            None => false,
        }
    }
}

/// A rectangle of terminal cells.
#[derive(Clone, Copy, PartialEq, Eq, Structural, Debug)]
pub struct Rect {
    pub x: u16,
    pub y: u16,
    pub width: u16,
    pub height: u16,
}

/// `a + b`, stopping at the largest coordinate.
pub open spec fn edge(a: u16, b: u16) -> int {
    if a + b > u16::MAX {
        u16::MAX as int
    } else {
        a + b
    }
}

impl Rect {
    /// The cell lies inside the rectangle, whose right and bottom edges stop
    /// at the largest coordinate.
    pub open spec fn covers(self, col: u16, row: u16) -> bool {
        self.x <= col < edge(self.x, self.width) && self.y <= row < edge(self.y, self.height)
    }

    /// Whether the cell lies inside the rectangle.
    pub fn contains(self, col: u16, row: u16) -> (b: bool)
        ensures
            b == self.covers(col, row),
    {
        cell_in(self, col, row)
    }
}

/// Calls ratatui's `Rect::contains`: the position is at or past the left and
/// top edges and before the right and bottom edges, which saturate.
#[verifier::external_body]
fn cell_in(r: Rect, col: u16, row: u16) -> (b: bool)
    ensures
        b == r.covers(col, row),
{
    ratatui::layout::Rect { x: r.x, y: r.y, width: r.width, height: r.height }.contains(
        ratatui::layout::Position { x: col, y: row },
    )
}

/// Startup knobs for [`App::new`], resolved from CLI and config.
pub struct AppOptions {
    pub tick_ms: u64,
    /// `tick_ms` came from an interactive choice, so it stays persisted.
    pub tick_explicit: bool,
    pub history_len: usize,
    pub no_splash: bool,
    pub graph_style: GraphStyle,
    /// How this session's backend was produced, for re-detection.
    pub source: BackendSource,
    /// The backend's name, and whether its pids name processes here.
    pub backend_name: String,
    pub backend_local: bool,
}

/// The monitor's state. Points in time are nanoseconds on one monotonic clock.
pub struct App {
    pub backend_name: String,
    /// The backend's pids name processes on this machine.
    pub backend_local: bool,
    pub gpus: Vec<GpuSnapshot>,
    /// Key of each entry in `gpus`, same order.
    pub keys: Vec<DeviceKey>,
    pub history: DeviceMap<History>,
    /// Per-device peaks and averages since launch.
    pub session: DeviceMap<SessionStats>,
    /// Poll number each key was last present in, for eviction.
    pub last_seen: DeviceMap<u64>,
    /// Successful polls so far; the clock `last_seen` counts on.
    pub polls: u64,
    pub history_len: usize,
    pub selected: usize,
    pub paused: bool,
    pub tick_ms: u64,
    pub started_ns: u64,
    pub splash_skipped: bool,
    /// Filtered and sorted view of the process rows.
    pub procs: Vec<ProcRow>,
    /// GPUs folded to a one-line summary.
    pub folded: DeviceMap<()>,
    /// First visible GPU card when the card list overflows.
    pub gpu_scroll: usize,
    /// First visible process row when the table overflows.
    pub proc_scroll: usize,
    /// Cursor row in the process table.
    pub proc_sel: usize,
    /// Data rows the process pane showed last draw.
    pub proc_visible: usize,
    /// Pane rectangles from the last draw, for routing mouse events.
    pub gpus_rect: Rect,
    pub proc_rect: Rect,
    /// Which pane arrow keys act on.
    pub focus: Focus,
    /// Last backend poll failure; cleared on success.
    pub poll_error: Option<String>,
    pub input_mode: InputMode,
    /// Committed process filter (substring, case-insensitive).
    pub filter: String,
    /// Live edit buffer while the filter is being typed.
    pub filter_input: String,
    pub sort_by: SortBy,
    pub sort_desc: bool,
    /// Signal awaiting confirmation.
    pub pending_kill: Option<PendingKill>,
    /// Transient header status and when it was set.
    pub status: Option<(String, u64)>,
    /// Help overlay visible; any key dismisses.
    pub show_help: bool,
    /// Rectangle and GPU index of each card drawn last frame.
    pub card_rects: Vec<(Rect, usize)>,
    /// Samples the widest graph needs.
    pub history_need: usize,
    pub graph_style: GraphStyle,
    /// The source this session's backend came from.
    pub source: BackendSource,
    /// Consecutive poll failures; triggers a re-detect.
    pub poll_failures: u32,
    /// Unfiltered process rows in a stable order.
    pub all_procs: Vec<ProcRow>,
    /// Whether the poll rate was set interactively.
    pub tick_explicit: bool,
    /// When the CPU half of the process refresh was last asked for.
    pub last_cpu_sample: Option<u64>,
    /// Resolved containers per process identity.
    pub containers: ContainerCache,
}

impl App {
    /// The maps have one entry per key, there is one key per card, and the rows
    /// on screen have indices.
    pub open spec fn wf(&self) -> bool {
        &&& self.history.wf()
        &&& histories_wf(self.history@)
        &&& self.session.wf()
        &&& self.last_seen.wf()
        &&& self.folded.wf()
        &&& self.containers.wf()
        &&& self.keys@.len() == self.gpus@.len()
        &&& self.proc_scroll + self.proc_visible <= usize::MAX
    }

    /// A session that has not polled yet.
    pub fn new(opts: AppOptions, now_ns: u64) -> (app: App)
        ensures
            app.wf(),
            is_fresh(app, opts, now_ns),
    {
        let nowhere = Rect { x: 0, y: 0, width: 0, height: 0 };
        App {
            backend_name: opts.backend_name,
            backend_local: opts.backend_local,
            gpus: Vec::new(),
            keys: Vec::new(),
            history: DeviceMap::new(),
            session: DeviceMap::new(),
            last_seen: DeviceMap::new(),
            polls: 0,
            history_len: opts.history_len,
            selected: 0,
            paused: false,
            tick_ms: opts.tick_ms,
            started_ns: now_ns,
            splash_skipped: opts.no_splash,
            procs: Vec::new(),
            folded: DeviceMap::new(),
            gpu_scroll: 0,
            proc_scroll: 0,
            proc_sel: 0,
            proc_visible: 0,
            gpus_rect: nowhere,
            proc_rect: nowhere,
            focus: Focus::Gpus,
            poll_error: None,
            input_mode: InputMode::Normal,
            filter: String::new(),
            filter_input: String::new(),
            sort_by: SortBy::GpuMem,
            sort_desc: true,
            pending_kill: None,
            status: None,
            show_help: false,
            card_rects: Vec::new(),
            history_need: 0,
            graph_style: opts.graph_style,
            source: opts.source,
            poll_failures: 0,
            all_procs: Vec::new(),
            tick_explicit: opts.tick_explicit,
            last_cpu_sample: None,
            containers: ContainerCache::new(),
        }
    }
}

// ---------------------------------------------------------------- laws

/// An interval in range stays as it is, one out of range goes to the nearer
/// end, and a longer one never becomes the shorter.
pub proof fn intervals_are_brought_into_range(v: u64, w: u64)
    ensures
        MIN_TICK_MS <= clamped_tick(v) <= MAX_TICK_MS,
        MIN_TICK_MS <= v <= MAX_TICK_MS ==> clamped_tick(v) == v,
        clamped_tick(clamped_tick(v)) == clamped_tick(v),
        v <= w ==> clamped_tick(v) <= clamped_tick(w),
{
}

/// The columns come round: every one of them follows exactly one other, and
/// five steps lead back.
pub proof fn the_columns_come_round(a: SortBy, b: SortBy)
    ensures
        a.following() == b.following() ==> a == b,
        a.following() != a,
        a.following().following() != a,
        a.following().following().following().following().following() == a,
{
}

/// A glyph set is named in any case, each by its own name.
pub proof fn glyph_sets_are_named_in_any_case(a: Seq<char>, b: Seq<char>)
    ensures
        ascii_lowercase(a) == ascii_lowercase(b) ==> GraphStyle::named(a) == GraphStyle::named(b),
        GraphStyle::named(a) is Some && GraphStyle::named(a) == GraphStyle::named(b)
            ==> ascii_lowercase(a) == ascii_lowercase(b),
        a == "braille"@ ==> GraphStyle::named(a) == Some(GraphStyle::Braille),
        a == "block"@ ==> GraphStyle::named(a) == Some(GraphStyle::Block),
        a == "ascii"@ ==> GraphStyle::named(a) == Some(GraphStyle::Ascii),
{
    reveal_strlit("braille");
    reveal_strlit("block");
    reveal_strlit("ascii");
    assert(ascii_lowercase("braille"@) =~= "braille"@);
    assert(ascii_lowercase("block"@) =~= "block"@);
    assert(ascii_lowercase("ascii"@) =~= "ascii"@);
    assert("block"@[0] == 'b' && "ascii"@[0] == 'a');
}

/// A saved rate counts as it is, unless it is known to have come from the
/// configuration, or is none.
pub proof fn a_chosen_rate_sticks(s: UiState)
    ensures
        s.tick_ms > 0 && s.tick_ms_explicit == Some(true) ==> s.sticky() == Some(s.tick_ms),
        s.tick_ms > 0 && s.tick_ms_explicit is None ==> s.sticky() == Some(s.tick_ms),
        s.tick_ms_explicit == Some(false) ==> s.sticky() is None,
        s.tick_ms == 0 ==> s.sticky() is None,
{
}

/// A rectangle covers its own cells: the first of them, none at its right and
/// bottom edges, and none at all where it has no extent.
pub proof fn a_rectangle_covers_its_own_cells(r: Rect, dx: u16, dy: u16)
    requires
        r.x + r.width <= u16::MAX,
        r.y + r.height <= u16::MAX,
        r.x + dx <= u16::MAX,
        r.y + dy <= u16::MAX,
    ensures
        r.covers((r.x + dx) as u16, (r.y + dy) as u16) <==> dx < r.width && dy < r.height,
        dx > 0 && dx <= r.x ==> !r.covers((r.x - dx) as u16, r.y),
        dy > 0 && dy <= r.y ==> !r.covers(r.x, (r.y - dy) as u16),
{
}

/// `app` is a session with these options that has not polled yet.
pub open spec fn is_fresh(app: App, opts: AppOptions, now_ns: u64) -> bool {
    &&& app.tick_ms == opts.tick_ms
    &&& app.tick_explicit == opts.tick_explicit
    &&& app.history_len == opts.history_len
    &&& app.splash_skipped == opts.no_splash
    &&& app.graph_style == opts.graph_style
    &&& app.source == opts.source
    &&& app.backend_name == opts.backend_name
    &&& app.backend_local == opts.backend_local
    &&& app.started_ns == now_ns
    &&& app.gpus@.len() == 0
    &&& app.history@ == Map::<DeviceId, History>::empty()
    &&& app.session@ == Map::<DeviceId, SessionStats>::empty()
    &&& app.last_seen@ == Map::<DeviceId, u64>::empty()
    &&& app.folded@ == Map::<DeviceId, ()>::empty()
    &&& app.containers@ == Map::<(u32, u64), Option<String>>::empty()
    &&& app.procs@.len() == 0
    &&& app.all_procs@.len() == 0
    &&& app.card_rects@.len() == 0
    &&& app.filter@.len() == 0
    &&& app.filter_input@.len() == 0
    &&& app.polls == 0
    &&& app.poll_failures == 0
    &&& app.selected == 0
    &&& app.proc_sel == 0
    &&& app.proc_scroll == 0
    &&& app.proc_visible == 0
    &&& app.gpu_scroll == 0
    &&& app.history_need == 0
    &&& !app.paused
    &&& !app.show_help
    &&& app.focus == Focus::Gpus
    &&& app.input_mode == InputMode::Normal
    &&& app.sort_by == SortBy::GpuMem
    &&& app.sort_desc
    &&& app.poll_error is None
    &&& app.pending_kill is None
    &&& app.status is None
    &&& app.last_cpu_sample is None
}

/// A session starts as it was asked to, with nothing known and nothing said: the
/// first card and row are selected, the table is ordered by memory, the largest
/// first, and polls are taken.
pub proof fn a_session_starts_blank(app: App, opts: AppOptions, now_ns: u64, k: DeviceId)
    requires
        is_fresh(app, opts, now_ns),
    ensures
        app.tick_ms == opts.tick_ms && app.tick_explicit == opts.tick_explicit,
        app.history_len == opts.history_len && app.graph_style == opts.graph_style,
        app.source == opts.source && app.backend_name == opts.backend_name,
        app.backend_local == opts.backend_local,
        app.splash_skipped == opts.no_splash && app.started_ns == now_ns,
        app.selected == 0 && app.proc_sel == 0 && app.proc_scroll == 0 && app.gpu_scroll == 0,
        app.sort_by is GpuMem && app.sort_desc,
        app.focus is Gpus && app.input_mode is Normal,
        !app.paused && !app.show_help && app.polls == 0 && app.poll_failures == 0,
        app.gpus@.len() == 0 && app.procs@.len() == 0 && app.all_procs@.len() == 0,
        app.filter@.len() == 0 && app.filter_input@.len() == 0,
        app.poll_error is None && app.pending_kill is None && app.status is None,
        app.last_cpu_sample is None && app.card_rects@.len() == 0,
        app.proc_visible == 0 && app.history_need == 0,
        !app.history@.dom().contains(k) && !app.session@.dom().contains(k),
        !app.last_seen@.dom().contains(k) && !app.folded@.dom().contains(k),
{
}

} // verus!
