//! The lines around the panes, the popups over them, and the plain output
//! without a screen.
use vstd::prelude::*;
use crate::app::process::ProcRow;
use crate::app::{App, InputMode, PendingKill, Rect, STATUS_NS};
use crate::backend::{opt_text, GpuSnapshot};
use crate::keys::{footer, footer_hints, help, help_rows, row_texts};
use crate::order::Real;
use crate::text::{a_text_is_found_where_it_stands, chars_of, contains_text, decimal, decimal_text, str_texts};
use crate::ui::card::{cat3, cat5};
use crate::ui::layout::{centered, longest, middle, popup_width};
use crate::ui::line::{line_model, part_models, put, said, say, say_owned, whole, whole_part, wide, wide_part, Part, PartModel, Span, SpanModel, Tone};
use crate::ui::procs::{mib, mib_text};

verus! {

// ---------------------------------------------------------------- header

pub open spec fn spoken(tone: Tone, a: Seq<char>, s: Option<Seq<char>>, b: Seq<char>) -> Seq<
    SpanModel,
> {
    match s {
        Some(t) => seq![said(tone, a + t + b)],
        None => Seq::empty(),
    }
}

/// The status message while it is fresh.
pub open spec fn fresh_status(app: App, now_ns: u64) -> Option<Seq<char>> {
    match app.status {
        Some((msg, at)) => if now_ns - at < STATUS_NS {
            Some(msg@)
        } else {
            None
        },
        None => None,
    }
}

/// The header: who, from where, how often, and what is the matter.
pub open spec fn header(app: App, version: Seq<char>, driver: Option<Seq<char>>, now_ns: u64) -> Seq<
    SpanModel,
> {
    seq![
        said(Tone::Title, " gpur v"@ + version + " "@),
        said(Tone::Dim, "["@ + app.backend_name@ + "] "@),
        said(Tone::Dim, ""@ + decimal(app.tick_ms as nat) + "ms "@),
    ] + spoken(Tone::Dim, ""@, driver, " "@) + (if app.paused {
        seq![said(Tone::Warn, "PAUSED "@)]
    } else {
        Seq::empty()
    }) + spoken(Tone::Crit, "⚠ "@, opt_text(app.poll_error), " "@) + spoken(
        Tone::Power,
        "· "@,
        fresh_status(app, now_ns),
        " "@,
    )
}

fn put_spoken(line: &mut Vec<Span>, tone: Tone, a: &str, s: Option<&str>, b: &str)
    ensures
        line_model(final(line)@) == line_model(old(line)@) + spoken(
            tone,
            a@,
            match s {
                Some(t) => Some(t@),
                None => None,
            },
            b@,
        ),
{
    let ghost was = line_model(line@);
    match s {
        Some(t) => {
            put(line, say_owned(tone, cat3(a, t, b)));
            assert(line_model(line@) =~= was + seq![said(tone, a@ + t@ + b@)]);
        },
        None => {
            assert(line_model(line@) =~= was + Seq::<SpanModel>::empty());
        },
    }
}

pub fn header_line(app: &App, version: &str, driver: &Option<String>, now_ns: u64) -> (line: Vec<
    Span,
>)
    ensures
        line_model(line@) == header(*app, version@, opt_text(*driver), now_ns),
{
    let mut line: Vec<Span> = Vec::new();
    let tick = decimal_text(app.tick_ms);
    put(&mut line, say_owned(Tone::Title, cat3(" gpur v", version, " ")));
    put(&mut line, say_owned(Tone::Dim, cat3("[", app.backend_name.as_str(), "] ")));
    put(&mut line, say_owned(Tone::Dim, cat3("", tick.as_str(), "ms ")));
    assert(line_model(line@) =~= seq![
        said(Tone::Title, " gpur v"@ + version@ + " "@),
        said(Tone::Dim, "["@ + app.backend_name@ + "] "@),
        said(Tone::Dim, ""@ + decimal(app.tick_ms as nat) + "ms "@),
    ]);
    let drv = match driver {
        Some(d) => Some(d.as_str()),
        None => None,
    };
    put_spoken(&mut line, Tone::Dim, "", drv, " ");
    let ghost was = line_model(line@);
    if app.paused {
        put(&mut line, say(Tone::Warn, "PAUSED "));
    }
    assert(line_model(line@) =~= was + (if app.paused {
        seq![said(Tone::Warn, "PAUSED "@)]
    } else {
        Seq::empty()
    }));
    let err = match &app.poll_error {
        Some(e) => Some(e.as_str()),
        None => None,
    };
    put_spoken(&mut line, Tone::Crit, "⚠ ", err, " ");
    put_spoken(&mut line, Tone::Power, "· ", app.status_line(now_ns), " ");
    line
}

// ---------------------------------------------------------------- footer

/// The footer: the keys, or the filter being typed.
pub open spec fn footer_model(app: App) -> Seq<SpanModel> {
    if app.input_mode == InputMode::Filter {
        seq![
            said(Tone::Title, " filter> "@),
            said(Tone::Plain, app.filter_input@),
            said(Tone::Title, "█"@),
            said(Tone::Dim, "  (Enter apply · empty clears · Esc cancel)"@),
        ]
    } else {
        seq![said(Tone::Dim, footer())]
    }
}

pub fn footer_line(app: &App) -> (line: Vec<Span>)
    ensures
        line_model(line@) == footer_model(*app),
{
    let mut line: Vec<Span> = Vec::new();
    if app.input_mode == InputMode::Filter {
        put(&mut line, say(Tone::Title, " filter> "));
        put(&mut line, say(Tone::Plain, app.filter_input.as_str()));
        put(&mut line, say(Tone::Title, "█"));
        put(&mut line, say(Tone::Dim, "  (Enter apply · empty clears · Esc cancel)"));
    } else {
        put(&mut line, say_owned(Tone::Dim, footer_hints()));
    }
    assert(line_model(line@) =~= footer_model(*app));
    line
}

// ---------------------------------------------------------------- popups

/// A popup: where it is, and its lines.
#[derive(Debug)]
pub struct Popup {
    pub rect: Rect,
    pub lines: Vec<Vec<Span>>,
}

pub open spec fn lines_model(lines: Seq<Vec<Span>>) -> Seq<Seq<SpanModel>> {
    lines.map_values(|l: Vec<Span>| line_model(l@))
}

/// The signal a kill sends.
pub open spec fn signal(force: bool) -> Seq<char> {
    if force {
        "SIGKILL"@
    } else {
        "SIGTERM"@
    }
}

pub open spec fn question(k: PendingKill) -> Seq<char> {
    "send "@ + signal(k.force) + " to "@ + decimal(k.pid as nat) + "?"@
}

pub open spec fn capped16(n: nat) -> u16 {
    if n > 0xffff {
        0xffff
    } else {
        n as u16
    }
}

/// The lines of the kill dialog.
pub open spec fn confirm_lines(k: PendingKill) -> Seq<Seq<SpanModel>> {
    seq![
        seq![said(Tone::Plain, question(k))],
        seq![said(Tone::Dim, k.command@)],
        seq![
            said(Tone::Crit, "y"@),
            said(Tone::Dim, " confirm · "@),
            said(Tone::Plain, "any other key"@),
            said(Tone::Dim, " cancels"@),
        ],
    ]
}

/// The kill dialog, while a kill awaits its confirmation: as wide as its
/// widest line in columns.
pub fn confirm_popup(app: &App, area: Rect) -> (r: Option<Popup>)
    requires
        area.x + area.width <= 0xffff,
        area.y + area.height <= 0xffff,
    ensures
        is_confirmation(r, app.pending_kill, area),
{
    let k = match &app.pending_kill {
        Some(k) => k,
        None => {
            return None;
        },
    };
    let sig = if k.force {
        "SIGKILL"
    } else {
        "SIGTERM"
    };
    let pid = decimal_text(k.pid as u64);
    let text = cat5("send ", sig, " to ", pid.as_str(), "?");
    let mut wide: Vec<&str> = Vec::new();
    wide.push(text.as_str());
    wide.push(k.command.as_str());
    assert(str_texts(wide@) =~= seq![question(*k), k.command@]);
    let rect = centered(area, popup_width(wide.as_slice()), 5);
    let mut first: Vec<Span> = Vec::new();
    put(&mut first, say(Tone::Plain, text.as_str()));
    assert(line_model(first@) =~= seq![said(Tone::Plain, question(*k))]);
    let mut second: Vec<Span> = Vec::new();
    put(&mut second, say(Tone::Dim, k.command.as_str()));
    assert(line_model(second@) =~= seq![said(Tone::Dim, k.command@)]);
    let mut third: Vec<Span> = Vec::new();
    put(&mut third, say(Tone::Crit, "y"));
    put(&mut third, say(Tone::Dim, " confirm · "));
    put(&mut third, say(Tone::Plain, "any other key"));
    put(&mut third, say(Tone::Dim, " cancels"));
    assert(line_model(third@) =~= confirm_lines(*k)[2]);
    let mut lines: Vec<Vec<Span>> = Vec::new();
    lines.push(first);
    lines.push(second);
    lines.push(third);
    assert(lines_model(lines@) =~= confirm_lines(*k));
    Some(Popup { rect, lines })
}

pub open spec fn spaces(n: nat) -> Seq<char> {
    Seq::new(n, |i: int| ' ')
}

/// `s` right-aligned to a width.
pub open spec fn padded(s: Seq<char>, width: nat) -> Seq<char> {
    if s.len() < width {
        spaces((width - s.len()) as nat) + s
    } else {
        s
    }
}

pub fn pad_left(s: &str, width: usize) -> (r: String)
    ensures
        r@ == padded(s@, width as nat),
{
    let n: usize = chars_of(s).len();
    let mut r = String::new();
    let mut i: usize = n;
    assert(r@ =~= spaces(0));
    while i < width
        invariant
            n <= i,
            n < width ==> i <= width,
            n >= width ==> i == n,
            r@ == spaces((i - n) as nat),
        decreases width - i,
    {
        r.append(" ");
        proof {
            reveal_strlit(" ");
            assert(r@ =~= spaces((i + 1 - n) as nat));
        }
        i = i + 1;
    }
    let ghost lead = r@;
    r.append(s);
    assert(r@ =~= padded(s@, width as nat));
    r
}

/// The chords of the help rows.
pub open spec fn chords() -> Seq<Seq<char>> {
    help().map_values(|r: (Seq<char>, Seq<char>)| r.0)
}

/// The lines of the help overlay: chords right-aligned, and what they do.
pub open spec fn help_lines(width: nat) -> Seq<Seq<SpanModel>> {
    help().map_values(
        |r: (Seq<char>, Seq<char>)|
            seq![
                said(Tone::Title, " "@ + padded(r.0, width) + "  "@),
                said(Tone::Plain, r.1),
            ],
    )
}

/// The help overlay, while it is open.
pub fn help_popup(app: &App, area: Rect) -> (r: Option<Popup>)
    requires
        area.x + area.width <= 0xffff,
        area.y + area.height <= 0xffff,
    ensures
        is_help(r, app.show_help, area),
{
    if !app.show_help {
        return None;
    }
    let rows = help_rows();
    let ghost all = chords();
    proof {
        assert(row_texts(rows@).len() == rows@.len());
    }
    let n: usize = rows.len();
    let mut width: usize = 0;
    let mut i: usize = 0;
    assert(all.take(0) =~= Seq::<Seq<char>>::empty());
    while i < n
        invariant
            i <= n,
            n == rows@.len(),
            row_texts(rows@) == help(),
            all == chords(),
            all.len() == n,
            width == longest(all.take(i as int)),
        decreases n - i,
    {
        assert(all.take(i + 1).drop_last() =~= all.take(i as int));
        assert(row_texts(rows@)[i as int].0 == rows@[i as int].0@);
        let len: usize = chars_of(rows[i].0.as_str()).len();
        if len > width {
            width = len;
        }
        i = i + 1;
    }
    assert(all.take(i as int) =~= all);
    let w: u16 = if width >= 65485 {
        0xffff
    } else {
        width as u16 + 50
    };
    let h: u16 = if n >= 65533 {
        0xffff
    } else {
        n as u16 + 2
    };
    let rect = centered(area, w, h);
    let mut lines: Vec<Vec<Span>> = Vec::new();
    let mut k: usize = 0;
    assert(lines_model(lines@) =~= help_lines(width as nat).take(0));
    while k < n
        invariant
            k <= n,
            n == rows@.len(),
            row_texts(rows@) == help(),
            lines_model(lines@) == help_lines(width as nat).take(k as int),
        decreases n - k,
    {
        let ghost was = lines@;
        assert(row_texts(rows@)[k as int] == (rows@[k as int].0@, rows@[k as int].1@));
        let key = pad_left(rows[k].0.as_str(), width);
        let mut line: Vec<Span> = Vec::new();
        put(&mut line, say_owned(Tone::Title, cat3(" ", key.as_str(), "  ")));
        put(&mut line, say(Tone::Plain, rows[k].1));
        assert(line_model(line@) =~= help_lines(width as nat)[k as int]);
        lines.push(line);
        assert(lines_model(lines@) =~= lines_model(was).push(line_model(line@)));
        assert(help_lines(width as nat).take(k + 1) =~= help_lines(width as nat).take(
            k as int,
        ).push(help_lines(width as nat)[k as int]));
        k = k + 1;
    }
    assert(help_lines(width as nat).take(k as int) =~= help_lines(width as nat));
    Some(Popup { rect, lines })
}

// ---------------------------------------------------------------- plain output

/// One card, without a screen: what could not be read says so.
pub open spec fn card_plain(i: usize, g: GpuSnapshot) -> Seq<PartModel> {
    seq![PartModel::Text(""@ + decimal(i as nat) + "  "@ + g.name@ + "  util "@)] + (match g.utilization_pct {
        Some(u) => seq![wide(u), PartModel::Text("%"@)],
        None => seq![PartModel::Text("n/a"@)],
    }) + seq![
        PartModel::Text(
            "  vram "@ + mib(g.vram_used_bytes, "n/a"@) + "/"@ + mib(g.vram_total_bytes, "n/a"@)
                + ""@,
        ),
    ] + (match g.temperature_c {
        Some(t) => seq![PartModel::Text("  "@), whole(t), PartModel::Text("°C"@)],
        None => Seq::empty(),
    }) + (match g.power_w {
        Some(w) => seq![PartModel::Text("  "@), whole(w), PartModel::Text("W"@)],
        None => Seq::empty(),
    })
}

fn text_part(parts: &mut Vec<Part>, s: String)
    ensures
        part_models(final(parts)@) == part_models(old(parts)@).push(PartModel::Text(s@)),
{
    let ghost was = parts@;
    let ghost t = s@;
    parts.push(Part::Text(s));
    assert(part_models(parts@) =~= part_models(was).push(PartModel::Text(t)));
}

fn number_part(parts: &mut Vec<Part>, n: Part)
    ensures
        part_models(final(parts)@) == part_models(old(parts)@).push(n.model()),
{
    let ghost was = parts@;
    let ghost m = n.model();
    parts.push(n);
    assert(part_models(parts@) =~= part_models(was).push(m));
}

pub fn card_once(i: usize, g: &GpuSnapshot) -> (parts: Vec<Part>)
    ensures
        part_models(parts@) == card_plain(i, *g),
{
    let mut parts: Vec<Part> = Vec::new();
    let index = decimal_text(i as u64);
    text_part(&mut parts, cat5("", index.as_str(), "  ", g.name.as_str(), "  util "));
    match g.utilization_pct {
        Some(u) => {
            number_part(&mut parts, wide_part(u));
            text_part(&mut parts, "%".to_owned());
        },
        None => {
            text_part(&mut parts, "n/a".to_owned());
        },
    }
    let used = mib_text(g.vram_used_bytes, "n/a");
    let total = mib_text(g.vram_total_bytes, "n/a");
    text_part(&mut parts, cat5("  vram ", used.as_str(), "/", total.as_str(), ""));
    let ghost head = part_models(parts@);
    if let Some(t) = g.temperature_c {
        text_part(&mut parts, "  ".to_owned());
        number_part(&mut parts, whole_part(t));
        text_part(&mut parts, "°C".to_owned());
    }
    if let Some(w) = g.power_w {
        text_part(&mut parts, "  ".to_owned());
        number_part(&mut parts, whole_part(w));
        text_part(&mut parts, "W".to_owned());
    }
    assert(part_models(parts@) =~= card_plain(i, *g));
    parts
}

/// One process, without a screen.
pub open spec fn process_plain(p: ProcRow) -> Seq<PartModel> {
    seq![
        PartModel::Text(
            "  pid "@ + padded(decimal(p.pid as nat), 7) + "  gpu "@ + decimal(p.gpu_index as nat)
                + "  "@,
        ),
    ] + (match p.gpu_util_pct {
        Some(u) => seq![wide(u), PartModel::Text("%"@)],
        None => seq![PartModel::Text("   -"@)],
    }) + seq![
        PartModel::Text(
            "  "@ + (match p.gpu_mem_bytes {
                Some(b) => padded(decimal((b / 1048576) as nat), 5) + "MiB"@,
                None => "     n/a"@,
            }) + "  "@ + p.command@ + ""@,
        ),
    ]
}

pub fn process_once(p: &ProcRow) -> (parts: Vec<Part>)
    ensures
        part_models(parts@) == process_plain(*p),
{
    let mut parts: Vec<Part> = Vec::new();
    let pid_digits = decimal_text(p.pid as u64);
    let pid = pad_left(pid_digits.as_str(), 7);
    let gpu = decimal_text(p.gpu_index as u64);
    text_part(&mut parts, cat5("  pid ", pid.as_str(), "  gpu ", gpu.as_str(), "  "));
    match p.gpu_util_pct {
        Some(u) => {
            number_part(&mut parts, wide_part(u));
            text_part(&mut parts, "%".to_owned());
        },
        None => {
            text_part(&mut parts, "   -".to_owned());
        },
    }
    let mem = match p.gpu_mem_bytes {
        Some(b) => {
            let digits = decimal_text(b / 1_048_576);
            let mut s = pad_left(digits.as_str(), 5);
            s.append("MiB");
            s
        },
        None => "     n/a".to_owned(),
    };
    text_part(&mut parts, cat5("  ", mem.as_str(), "  ", p.command.as_str(), ""));
    assert(part_models(parts@) =~= process_plain(*p));
    parts
}

// ---------------------------------------------------------------- laws

proof fn lemma_spoken_in(a: Seq<SpanModel>, b: Seq<SpanModel>, x: SpanModel)
    ensures
        (a + b).contains(x) <==> a.contains(x) || b.contains(x),
{
    if a.contains(x) {
        let w = choose|w: int| 0 <= w < a.len() && a[w] == x;
        assert((a + b)[w] == x);
    }
    if b.contains(x) {
        let w = choose|w: int| 0 <= w < b.len() && b[w] == x;
        assert((a + b)[a.len() + w] == x);
    }
    if (a + b).contains(x) {
        let w = choose|w: int| 0 <= w < (a + b).len() && (a + b)[w] == x;
        if w < a.len() {
            assert(a[w] == x);
        } else {
            assert(b[w - a.len()] == x);
        }
    }
}

/// The header says that the session is paused exactly while it is, what went
/// wrong with the last poll, and a status message for as long as it is fresh.
pub proof fn the_header_says_what_is_the_matter(
    app: App,
    version: Seq<char>,
    driver: Option<Seq<char>>,
    now_ns: u64,
)
    ensures
        ({
            let line = header(app, version, driver, now_ns);
            &&& line[0] == said(Tone::Title, " gpur v"@ + version + " "@)
            &&& line[1] == said(Tone::Dim, "["@ + app.backend_name@ + "] "@)
            &&& line.contains(said(Tone::Warn, "PAUSED "@)) <==> app.paused
            &&& app.poll_error matches Some(e) ==> line.contains(
                said(Tone::Crit, "⚠ "@ + e@ + " "@),
            )
            &&& driver matches Some(d) ==> line.contains(said(Tone::Dim, ""@ + d + " "@))
            &&& app.status matches Some((msg, at)) ==> (now_ns - at < STATUS_NS ==> line.contains(
                said(Tone::Power, "· "@ + msg@ + " "@),
            ))
            &&& app.status is None || (app.status matches Some((msg, at)) && now_ns - at
                >= STATUS_NS) ==> forall|k: int|
                0 <= k < line.len() ==> (#[trigger] line[k]).tone != Tone::Power
        }),
{
    let line = header(app, version, driver, now_ns);
    let p0 = seq![
        said(Tone::Title, " gpur v"@ + version + " "@),
        said(Tone::Dim, "["@ + app.backend_name@ + "] "@),
        said(Tone::Dim, ""@ + decimal(app.tick_ms as nat) + "ms "@),
    ];
    let s1 = spoken(Tone::Dim, ""@, driver, " "@);
    let s2 = if app.paused {
        seq![said(Tone::Warn, "PAUSED "@)]
    } else {
        Seq::empty()
    };
    let s3 = spoken(Tone::Crit, "⚠ "@, opt_text(app.poll_error), " "@);
    let s4 = spoken(Tone::Power, "· "@, fresh_status(app, now_ns), " "@);
    assert(line == p0 + s1 + s2 + s3 + s4);
    let paused = said(Tone::Warn, "PAUSED "@);
    lemma_spoken_in(p0, s1, paused);
    lemma_spoken_in(p0 + s1, s2, paused);
    lemma_spoken_in(p0 + s1 + s2, s3, paused);
    lemma_spoken_in(p0 + s1 + s2 + s3, s4, paused);
    assert(seq![paused][0] == paused);
    if let Some(e) = app.poll_error {
        let x = said(Tone::Crit, "⚠ "@ + e@ + " "@);
        assert(seq![x][0] == x);
        lemma_spoken_in(p0 + s1 + s2, s3, x);
        lemma_spoken_in(p0 + s1 + s2 + s3, s4, x);
    }
    if let Some(d) = driver {
        let x = said(Tone::Dim, ""@ + d + " "@);
        assert(seq![x][0] == x);
        lemma_spoken_in(p0, s1, x);
        lemma_spoken_in(p0 + s1, s2, x);
        lemma_spoken_in(p0 + s1 + s2, s3, x);
        lemma_spoken_in(p0 + s1 + s2 + s3, s4, x);
    }
    if let Some((msg, at)) = app.status {
        if now_ns - at < STATUS_NS {
            let x = said(Tone::Power, "· "@ + msg@ + " "@);
            assert(seq![x][0] == x);
            lemma_spoken_in(p0 + s1 + s2 + s3, s4, x);
        }
    }
}

/// While a filter is typed the footer shows it, and otherwise the keys.
pub proof fn the_footer_shows_what_is_typed(app: App)
    ensures
        app.input_mode == InputMode::Filter ==> footer_model(app).contains(
            said(Tone::Plain, app.filter_input@),
        ),
        app.input_mode != InputMode::Filter ==> footer_model(app) == seq![
            said(Tone::Dim, footer()),
        ],
{
    if app.input_mode == InputMode::Filter {
        assert(footer_model(app)[1] == said(Tone::Plain, app.filter_input@));
    }
}

/// The kill dialog asks about the signal and the process that it would be sent
/// to, and shows its command.
pub proof fn the_dialog_names_signal_and_process(k: PendingKill)
    ensures
        signal(true) != signal(false),
        contains_text(question(k), signal(k.force)),
        contains_text(question(k), decimal(k.pid as nat)),
        confirm_lines(k)[0] == seq![said(Tone::Plain, question(k))],
        confirm_lines(k)[1] == seq![said(Tone::Dim, k.command@)],
{
    reveal_strlit("SIGKILL");
    reveal_strlit("SIGTERM");
    assert("SIGKILL"@[3] == 'K' && "SIGTERM"@[3] == 'T');
    let sig = signal(k.force);
    let pid = decimal(k.pid as nat);
    a_text_is_found_where_it_stands("send "@, sig, " to "@ + pid + "?"@);
    assert(question(k) =~= "send "@ + sig + (" to "@ + pid + "?"@));
    a_text_is_found_where_it_stands("send "@ + sig + " to "@, pid, "?"@);
}

/// Right-aligned, a text keeps its end and has blanks before it, as many as the
/// width leaves; one that is too long stays as it is.
pub proof fn right_aligned_texts_end_together(s: Seq<char>, width: nat)
    ensures
        s.len() <= width ==> padded(s, width).len() == width,
        s.len() >= width ==> padded(s, width) == s,
        padded(s, width).skip(padded(s, width).len() - s.len()) == s,
        forall|i: int|
            0 <= i < padded(s, width).len() - s.len() ==> padded(s, width)[i] == ' ',
{
    assert(padded(s, width).skip(padded(s, width).len() - s.len()) =~= s);
}

/// Without a screen a card is one line: its number and name, its load, its
/// memory used of its total, its heat and its draw.
pub proof fn a_plain_card_shows_its_figures(i: usize, g: GpuSnapshot, v: Real)
    ensures
        ({
            let line = card_plain(i, g);
            &&& line[0] == PartModel::Text(
                ""@ + decimal(i as nat) + "  "@ + g.name@ + "  util "@,
            )
            &&& g.utilization_pct == Some(v) ==> line[1] == wide(v)
            &&& g.utilization_pct is None ==> line[1] == PartModel::Text("n/a"@)
            &&& g.temperature_c == Some(v) && g.power_w is None ==> line[line.len() - 2] == whole(v)
                && line.last() == PartModel::Text("°C"@)
            &&& g.power_w == Some(v) ==> line[line.len() - 2] == whole(v) && line.last()
                == PartModel::Text("W"@)
            &&& line.contains(
                PartModel::Text(
                    "  vram "@ + mib(g.vram_used_bytes, "n/a"@) + "/"@ + mib(
                        g.vram_total_bytes,
                        "n/a"@,
                    ) + ""@,
                ),
            )
        }),
{
    let line = card_plain(i, g);
    let x = PartModel::Text(
        "  vram "@ + mib(g.vram_used_bytes, "n/a"@) + "/"@ + mib(g.vram_total_bytes, "n/a"@) + ""@,
    );
    if g.utilization_pct is Some {
        assert(line[3] == x);
    } else {
        assert(line[2] == x);
    }
}

/// Without a screen a process is one line: its pid, its card, its load, its
/// memory and its command.
pub proof fn a_plain_process_shows_its_figures(p: ProcRow, v: Real)
    ensures
        ({
            let line = process_plain(p);
            &&& line[0] == PartModel::Text(
                "  pid "@ + padded(decimal(p.pid as nat), 7) + "  gpu "@ + decimal(
                    p.gpu_index as nat,
                ) + "  "@,
            )
            &&& p.gpu_util_pct == Some(v) ==> line[1] == wide(v)
            &&& p.gpu_util_pct is None ==> line[1] == PartModel::Text("   -"@)
            &&& line.last() matches PartModel::Text(t) && contains_text(t, p.command@)
        }),
{
    let mem = match p.gpu_mem_bytes {
        Some(b) => padded(decimal((b / 1048576) as nat), 5) + "MiB"@,
        None => "     n/a"@,
    };
    a_text_is_found_where_it_stands("  "@ + mem + "  "@, p.command@, ""@);
}

/// A count that fits in sixteen bits is kept, and a larger one is cut to the
/// largest that does.
pub proof fn counts_are_cut_to_what_fits(n: nat, m: nat)
    ensures
        capped16(n) <= n,
        n <= u16::MAX ==> capped16(n) == n,
        n > u16::MAX ==> capped16(n) == u16::MAX,
        n <= m ==> capped16(n) <= capped16(m),
{
}

/// The confirmation popup, while a kill is pending.
pub open spec fn is_confirmation(r: Option<Popup>, pending: Option<PendingKill>, area: Rect) -> bool {
    match pending {
        None => r is None,
        Some(k) => {
            &&& r matches Some(p)
            &&& lines_model(p.lines@) == confirm_lines(k)
            &&& p.rect == middle(area, capped16(longest(seq![question(k), k.command@]) + 6), 5)
        },
    }
}

/// The help popup, while it is asked for.
pub open spec fn is_help(r: Option<Popup>, shown: bool, area: Rect) -> bool {
    if shown {
        &&& r matches Some(p)
        &&& lines_model(p.lines@) == help_lines(longest(chords()))
        &&& p.rect == middle(area, capped16(longest(chords()) + 50), capped16(help().len() + 2))
    } else {
        r is None
    }
}

/// A popup shows just while it is asked for, says what it is about, and stands
/// within the screen.
pub proof fn popups_show_while_asked_for(
    confirmation: Option<Popup>,
    help_shown: Option<Popup>,
    pending: Option<PendingKill>,
    shown: bool,
    area: Rect,
)
    requires
        is_confirmation(confirmation, pending, area),
        is_help(help_shown, shown, area),
        area.x + area.width <= 0xffff,
        area.y + area.height <= 0xffff,
    ensures
        confirmation is Some <==> pending is Some,
        help_shown is Some <==> shown,
        confirmation matches Some(p) ==> (pending matches Some(k) && lines_model(p.lines@)
            == confirm_lines(k)),
        confirmation matches Some(p) ==> area.x <= p.rect.x && p.rect.x + p.rect.width <= area.x
            + area.width && p.rect.height <= 5,
        help_shown matches Some(p) ==> area.x <= p.rect.x && p.rect.x + p.rect.width <= area.x
            + area.width && area.y <= p.rect.y && p.rect.y + p.rect.height <= area.y + area.height,
{
}

} // verus!
