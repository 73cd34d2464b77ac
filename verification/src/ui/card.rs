//! What a card says: its captions, its meters and its readouts.
use vstd::prelude::*;
use crate::app::history::History;
use crate::app::GraphStyle;
use crate::backend::{opt_text, GpuSnapshot};
use crate::order::Real;
use crate::text::{char_is_space, chars_of, decimal, decimal_text, slice_of, string_of, trim_start};
use crate::ui::format::{bytes_text, human_bytes, kbs, pool_text, pool_value, rate_text};
use crate::ui::graph::{mini_spark, spark};
use crate::ui::line::{around, line_model, number_between, part_models, put, said, say, say_owned, whole, whole_part, wide, wide_part, Part, PartModel, Span, SpanModel, Tone};

verus! {

pub(crate) fn cat3(a: &str, b: &str, c: &str) -> (s: String)
    ensures
        s@ == a@ + b@ + c@,
{
    let mut s = String::new();
    s.append(a);
    s.append(b);
    s.append(c);
    assert(s@ =~= a@ + b@ + c@);
    s
}

pub(crate) fn cat5(a: &str, b: &str, c: &str, d: &str, e: &str) -> (s: String)
    ensures
        s@ == a@ + b@ + c@ + d@ + e@,
{
    let mut s = cat3(a, b, c);
    s.append(d);
    s.append(e);
    assert(s@ =~= a@ + b@ + c@ + d@ + e@);
    s
}

// ---------------------------------------------------------------- captions

/// A card's number and name.
pub open spec fn title_text(idx: usize, name: Seq<char>) -> Seq<char> {
    decimal(idx as nat) + "·"@ + name
}

pub fn card_title(idx: usize, name: &str) -> (s: String)
    ensures
        s@ == title_text(idx, name@),
{
    let digits = decimal_text(idx as u64);
    cat3(digits.as_str(), "·", name)
}

/// A link: generation and lanes.
pub open spec fn link_text(before: Seq<char>, g: u8, w: u32, after: Seq<char>) -> Seq<char> {
    before + decimal(g as nat) + ".0@"@ + decimal(w as nat) + after
}

fn link_string(before: &str, g: u8, w: u32, after: &str) -> (s: String)
    ensures
        s@ == link_text(before@, g, w, after@),
{
    let gen_text = decimal_text(g as u64);
    let lanes = decimal_text(w as u64);
    cat5(before, gen_text.as_str(), ".0@", lanes.as_str(), after)
}

/// The caption at the right: that the card is integrated, or its link; a link
/// below what card and slot could do gets flagged.
pub open spec fn right_caption(g: GpuSnapshot) -> Seq<SpanModel> {
    if g.integrated {
        seq![said(Tone::Dim, "integrated"@)]
    } else {
        match (g.pcie_gen, g.pcie_width) {
            (Some(gen), Some(width)) => {
                let now = seq![said(Tone::Dim, link_text("PCIe "@, gen, width, "x"@))];
                match (g.pcie_max_gen, g.pcie_max_width) {
                    (Some(mg), Some(mw)) => if gen < mg || width < mw {
                        now.push(said(Tone::Warn, link_text(" (max "@, mg, mw, "x)"@)))
                    } else {
                        now
                    },
                    _ => now,
                }
            },
            _ => Seq::empty(),
        }
    }
}

pub fn card_caption(g: &GpuSnapshot) -> (line: Vec<Span>)
    ensures
        line_model(line@) == right_caption(*g),
{
    let mut line: Vec<Span> = Vec::new();
    assert(line_model(line@) =~= Seq::<SpanModel>::empty());
    if g.integrated {
        put(&mut line, say(Tone::Dim, "integrated"));
    } else {
        match (g.pcie_gen, g.pcie_width) {
            (Some(gen), Some(width)) => {
                put(&mut line, say_owned(Tone::Dim, link_string("PCIe ", gen, width, "x")));
                match (g.pcie_max_gen, g.pcie_max_width) {
                    (Some(mg), Some(mw)) => {
                        if gen < mg || width < mw {
                            put(
                                &mut line,
                                say_owned(Tone::Warn, link_string(" (max ", mg, mw, "x)")),
                            );
                        }
                    },
                    _ => {},
                }
            },
            _ => {},
        }
    }
    assert(line_model(line@) =~= right_caption(*g));
    line
}

// ---------------------------------------------------------------- meters

/// A percentage, or that it is unknown, in the same four columns.
pub open spec fn pct(v: Option<Real>) -> Seq<PartModel> {
    match v {
        Some(p) => seq![wide(p), PartModel::Text("%"@)],
        None => seq![PartModel::Text(" n/a"@)],
    }
}

pub fn pct_or_na(v: Option<Real>) -> (parts: Vec<Part>)
    ensures
        part_models(parts@) == pct(v),
{
    let mut parts: Vec<Part> = Vec::new();
    match v {
        Some(p) => {
            parts.push(wide_part(p));
            parts.push(Part::Text("%".to_owned()));
        },
        None => {
            parts.push(Part::Text(" n/a".to_owned()));
        },
    }
    assert(part_models(parts@) =~= pct(v));
    parts
}

/// The readout of the pool that the memory meter shows.
pub fn vram_value(g: &GpuSnapshot) -> (s: String)
    ensures
        s@ == pool_text(g.primary_pool().used, g.primary_pool().total),
{
    let pool = g.mem_primary();
    pool_value(pool.used, pool.total)
}

/// One meter: a label, a track of filled and empty glyphs where its fill level
/// is known, and a readout.
#[derive(Debug)]
pub struct Meter {
    pub label: String,
    /// How many of how many glyphs are filled.
    pub track: Option<(usize, usize)>,
    pub value: String,
    /// The readout stands for a figure that is unknown.
    pub dim: bool,
}

/// The width of the track: what label and readout leave, at least one.
pub open spec fn track_of(width: u16, label: Seq<char>, value: Seq<char>) -> int {
    let left = width - label.len() - value.len();
    if left < 1 {
        1
    } else {
        left
    }
}

pub fn track_width(width: u16, label: &str, value: &str) -> (n: usize)
    ensures
        n == track_of(width, label@, value@),
        n >= 1,
{
    let a: usize = chars_of(label).len();
    let b: usize = chars_of(value).len();
    let w: usize = width as usize;
    if a >= w || b >= w - a {
        1
    } else {
        w - a - b
    }
}

/// A meter. A figure that could not be read gets no track: an empty one would
/// say zero.
pub fn meter(label: &str, value: &str, width: u16, filled: Option<usize>) -> (m: Meter)
    ensures
        is_meter(m, label@, value@, width, filled),
{
    match filled {
        Some(n) => {
            let w: usize = track_width(width, label, value);
            Meter {
                label: label.to_owned(),
                track: Some(
                    (
                        if n < w {
                            n
                        } else {
                            w
                        },
                        w,
                    ),
                ),
                value: value.to_owned(),
                dim: false,
            }
        },
        None => Meter {
            label: label.to_owned(),
            track: None,
            value: without_leading_space(value),
            dim: true,
        },
    }
}

fn without_leading_space(s: &str) -> (t: String)
    ensures
        t@ == trim_start(s@),
{
    let cs = chars_of(s);
    let n: usize = cs.len();
    let mut i: usize = 0;
    assert(cs@.skip(0) =~= cs@);
    while i < n && char_is_space(cs[i])
        invariant
            i <= n,
            n == cs@.len(),
            cs@ == s@,
            trim_start(s@) == trim_start(cs@.skip(i as int)),
        decreases n - i,
    {
        assert(cs@.skip(i as int).skip(1) =~= cs@.skip(i + 1));
        i = i + 1;
    }
    let rest = slice_of(&cs, i, n);
    assert(rest@ =~= cs@.skip(i as int));
    string_of(&rest)
}

/// The glyphs of a track.
pub fn track_glyphs(style: GraphStyle) -> (r: (char, char))
    ensures
        r == (if style == GraphStyle::Ascii {
            ('=', '.')
        } else {
            ('■', '·')
        }),
{
    if style == GraphStyle::Ascii {
        ('=', '.')
    } else {
        ('■', '·')
    }
}

// ---------------------------------------------------------------- readouts

/// A throttle badge.
pub open spec fn throttle_seg(reason: Option<Seq<char>>) -> Seq<SpanModel> {
    match reason {
        Some(r) => seq![said(Tone::Crit, "⚠ "@ + r + "  "@)],
        None => Seq::empty(),
    }
}

/// A number under a label, where there is one.
pub open spec fn number_seg(a: Seq<char>, v: Option<Real>, b: Seq<char>) -> Seq<SpanModel> {
    match v {
        Some(n) => seq![around(Tone::Dim, a, whole(n), b)],
        None => Seq::empty(),
    }
}

/// A count under a label, where there is one.
pub open spec fn count_seg(a: Seq<char>, v: Option<u64>, b: Seq<char>) -> Seq<SpanModel> {
    match v {
        Some(n) => seq![said(Tone::Dim, a + decimal(n as nat) + b)],
        None => Seq::empty(),
    }
}

pub open spec fn spark_seg(data: Option<Seq<Option<u64>>>, max: u64, style: GraphStyle) -> Seq<
    SpanModel,
> {
    match data {
        Some(d) => seq![said(Tone::Dim, spark(d, max, style))],
        None => Seq::empty(),
    }
}

/// The temperatures, after a sparkline where there is history; the sensors
/// beside the main one only with it.
pub open spec fn heat_seg(
    g: GpuSnapshot,
    temps: Option<Seq<Option<u64>>>,
    style: GraphStyle,
) -> Seq<SpanModel> {
    match g.temperature_c {
        Some(c) => spark_seg(temps, 100, style).push(around(Tone::Heat(c), " "@, whole(c), "°C "@))
            + number_seg("junc "@, g.temp_junction_c, "° "@) + number_seg(
            "mem "@,
            g.temp_mem_c,
            "° "@,
        ) + seq![said(Tone::Raw, " "@)],
        None => Seq::empty(),
    }
}

/// A power draw, and the board's limit where it is known.
pub open spec fn watts(w: Real, limit: Option<Real>, lead: Seq<char>, trail: Seq<char>) -> SpanModel {
    SpanModel {
        tone: Tone::Power,
        parts: match limit {
            Some(l) => seq![
                PartModel::Text(lead),
                whole(w),
                PartModel::Text("/"@),
                whole(l),
                PartModel::Text("W"@ + trail),
            ],
            None => seq![PartModel::Text(lead), whole(w), PartModel::Text("W"@ + trail)],
        },
    }
}

pub open spec fn power_seg(
    g: GpuSnapshot,
    draws: Option<Seq<Option<u64>>>,
    scale: u64,
    style: GraphStyle,
) -> Seq<SpanModel> {
    match g.power_w {
        Some(w) => spark_seg(draws, scale, style).push(watts(w, g.power_limit_w, " "@, "  "@)),
        None => Seq::empty(),
    }
}

pub open spec fn traffic_seg(g: GpuSnapshot) -> Seq<SpanModel> {
    match (g.pcie_rx_kbs, g.pcie_tx_kbs) {
        (Some(rx), Some(tx)) => seq![
            said(Tone::Dim, "▼ "@ + rate_text(rx) + " ▲ "@ + rate_text(tx) + "  "@),
        ],
        _ => Seq::empty(),
    }
}

pub open spec fn fan_seg(g: GpuSnapshot) -> Seq<SpanModel> {
    match (g.fan_pct, g.fan_rpm) {
        (Some(f), Some(r)) => seq![
            around(Tone::Dim, "fan "@, whole(f), "% "@ + decimal(r as nat) + "rpm  "@),
        ],
        (Some(f), None) => seq![around(Tone::Dim, "fan "@, whole(f), "%  "@)],
        (None, Some(r)) => seq![said(Tone::Dim, "fan "@ + decimal(r as nat) + "rpm  "@)],
        (None, None) => Seq::empty(),
    }
}

pub open spec fn volt_seg(v: Option<u64>) -> Seq<SpanModel> {
    match v {
        Some(mv) => seq![
            SpanModel {
                tone: Tone::Dim,
                parts: seq![PartModel::Volts(mv), PartModel::Text("V  "@)],
            },
        ],
        None => Seq::empty(),
    }
}

pub open spec fn gtt_seg(g: GpuSnapshot) -> Seq<SpanModel> {
    match (g.gtt_used_bytes, g.gtt_total_bytes) {
        (Some(u), Some(t)) => seq![
            said(Tone::Dim, "gtt "@ + bytes_text(u) + "/"@ + bytes_text(t) + "  "@),
        ],
        _ => Seq::empty(),
    }
}

pub open spec fn perf_seg(level: Option<Seq<char>>) -> Seq<SpanModel> {
    match level {
        Some(p) => seq![said(Tone::Warn, "perf "@ + p + "  "@)],
        None => Seq::empty(),
    }
}

pub open spec fn temps_of(h: Option<&History>) -> Option<Seq<Option<u64>>> {
    match h {
        Some(x) => Some(x.temp@),
        None => None,
    }
}

pub open spec fn draws_of(h: Option<&History>) -> Option<Seq<Option<u64>>> {
    match h {
        Some(x) => Some(x.power@),
        None => None,
    }
}

/// The readouts of a card, each only where the card reports it.
pub open spec fn info(g: GpuSnapshot, h: Option<&History>, scale: u64, style: GraphStyle) -> Seq<
    SpanModel,
> {
    seq![said(Tone::Raw, " "@)] + throttle_seg(opt_text(g.throttle)) + heat_seg(
        g,
        temps_of(h),
        style,
    ) + power_seg(g, draws_of(h), scale, style) + traffic_seg(g) + fan_seg(g) + count_seg(
        "core "@,
        g.clock_mhz,
        "MHz  "@,
    ) + count_seg("mem "@, g.mem_clock_mhz, "MHz  "@) + number_seg(
        "membus "@,
        g.mem_util_pct,
        "%  "@,
    ) + number_seg("video "@, g.video_util_pct, "%  "@) + number_seg(
        "enc "@,
        g.enc_util_pct,
        "%  "@,
    ) + number_seg("dec "@, g.dec_util_pct, "%  "@) + volt_seg(g.volt_mv) + gtt_seg(g) + perf_seg(
        opt_text(g.perf_level),
    )
}

fn put_throttle(line: &mut Vec<Span>, reason: &Option<String>)
    ensures
        line_model(final(line)@) == line_model(old(line)@) + throttle_seg(opt_text(*reason)),
{
    let ghost was = line_model(line@);
    if let Some(r) = reason {
        put(line, say_owned(Tone::Crit, cat3("⚠ ", r.as_str(), "  ")));
    }
    assert(line_model(line@) =~= was + throttle_seg(opt_text(*reason)));
}

fn put_number(line: &mut Vec<Span>, a: &str, v: Option<Real>, b: &str)
    ensures
        line_model(final(line)@) == line_model(old(line)@) + number_seg(a@, v, b@),
{
    let ghost was = line_model(line@);
    if let Some(n) = v {
        put(line, number_between(Tone::Dim, a, whole_part(n), b));
    }
    assert(line_model(line@) =~= was + number_seg(a@, v, b@));
}

fn put_count(line: &mut Vec<Span>, a: &str, v: Option<u64>, b: &str)
    ensures
        line_model(final(line)@) == line_model(old(line)@) + count_seg(a@, v, b@),
{
    let ghost was = line_model(line@);
    if let Some(n) = v {
        let digits = decimal_text(n);
        put(line, say_owned(Tone::Dim, cat3(a, digits.as_str(), b)));
    }
    assert(line_model(line@) =~= was + count_seg(a@, v, b@));
}

fn watts_span(w: Real, limit: Option<Real>, lead: &str, trail: &str) -> (s: Span)
    ensures
        s.model() == watts(w, limit, lead@, trail@),
{
    let mut parts: Vec<Part> = Vec::new();
    parts.push(Part::Text(lead.to_owned()));
    parts.push(whole_part(w));
    if let Some(l) = limit {
        parts.push(Part::Text("/".to_owned()));
        parts.push(whole_part(l));
    }
    let mut tail = String::new();
    tail.append("W");
    tail.append(trail);
    assert(tail@ =~= "W"@ + trail@);
    parts.push(Part::Text(tail));
    assert(part_models(parts@) =~= watts(w, limit, lead@, trail@).parts);
    Span { tone: Tone::Power, parts }
}

fn put_heat(line: &mut Vec<Span>, g: &GpuSnapshot, h: Option<&History>, style: GraphStyle)
    ensures
        line_model(final(line)@) == line_model(old(line)@) + heat_seg(*g, temps_of(h), style),
{
    let ghost was = line_model(line@);
    if let Some(c) = g.temperature_c {
        if let Some(x) = h {
            put(line, say_owned(Tone::Dim, mini_spark(&x.temp, 100, style)));
        }
        put(line, number_between(Tone::Heat(c), " ", whole_part(c), "°C "));
        assert(line_model(line@) =~= was + spark_seg(temps_of(h), 100, style).push(
            around(Tone::Heat(c), " "@, whole(c), "°C "@),
        ));
        put_number(line, "junc ", g.temp_junction_c, "° ");
        put_number(line, "mem ", g.temp_mem_c, "° ");
        put(line, say(Tone::Raw, " "));
    }
    assert(line_model(line@) =~= was + heat_seg(*g, temps_of(h), style));
}

fn put_power(line: &mut Vec<Span>, g: &GpuSnapshot, h: Option<&History>, scale: u64, style: GraphStyle)
    ensures
        line_model(final(line)@) == line_model(old(line)@) + power_seg(*g, draws_of(h), scale, style),
{
    let ghost was = line_model(line@);
    if let Some(w) = g.power_w {
        if let Some(x) = h {
            put(line, say_owned(Tone::Dim, mini_spark(&x.power, scale, style)));
        }
        put(line, watts_span(w, g.power_limit_w, " ", "  "));
    }
    assert(line_model(line@) =~= was + power_seg(*g, draws_of(h), scale, style));
}

fn put_fan(line: &mut Vec<Span>, g: &GpuSnapshot)
    ensures
        line_model(final(line)@) == line_model(old(line)@) + fan_seg(*g),
{
    let ghost was = line_model(line@);
    match (g.fan_pct, g.fan_rpm) {
        (Some(f), Some(r)) => {
            let digits = decimal_text(r);
            let tail = cat3("% ", digits.as_str(), "rpm  ");
            put(line, number_between(Tone::Dim, "fan ", whole_part(f), tail.as_str()));
        },
        (Some(f), None) => {
            put(line, number_between(Tone::Dim, "fan ", whole_part(f), "%  "));
        },
        (None, Some(r)) => {
            let digits = decimal_text(r);
            put(line, say_owned(Tone::Dim, cat3("fan ", digits.as_str(), "rpm  ")));
        },
        (None, None) => {},
    }
    assert(line_model(line@) =~= was + fan_seg(*g));
}

fn put_tail(line: &mut Vec<Span>, g: &GpuSnapshot)
    ensures
        line_model(final(line)@) == line_model(old(line)@) + volt_seg(g.volt_mv) + gtt_seg(*g)
            + perf_seg(opt_text(g.perf_level)),
{
    let ghost was = line_model(line@);
    if let Some(mv) = g.volt_mv {
        let mut parts: Vec<Part> = Vec::new();
        parts.push(Part::Volts(mv));
        parts.push(Part::Text("V  ".to_owned()));
        assert(part_models(parts@) =~= seq![PartModel::Volts(mv), PartModel::Text("V  "@)]);
        put(line, Span { tone: Tone::Dim, parts });
    }
    assert(line_model(line@) =~= was + volt_seg(g.volt_mv));
    match (g.gtt_used_bytes, g.gtt_total_bytes) {
        (Some(u), Some(t)) => {
            let a = human_bytes(u);
            let b = human_bytes(t);
            put(line, say_owned(Tone::Dim, cat5("gtt ", a.as_str(), "/", b.as_str(), "  ")));
        },
        _ => {},
    }
    assert(line_model(line@) =~= was + volt_seg(g.volt_mv) + gtt_seg(*g));
    if let Some(p) = &g.perf_level {
        put(line, say_owned(Tone::Warn, cat3("perf ", p.as_str(), "  ")));
    }
    assert(line_model(line@) =~= was + volt_seg(g.volt_mv) + gtt_seg(*g) + perf_seg(
        opt_text(g.perf_level),
    ));
}

/// The readouts of a card. `scale` is the power that fills a sparkline.
pub fn info_line(g: &GpuSnapshot, h: Option<&History>, scale: u64, style: GraphStyle) -> (line: Vec<
    Span,
>)
    ensures
        line_model(line@) == info(*g, h, scale, style),
{
    let mut line: Vec<Span> = Vec::new();
    put(&mut line, say(Tone::Raw, " "));
    assert(line_model(line@) =~= seq![said(Tone::Raw, " "@)]);
    put_throttle(&mut line, &g.throttle);
    put_heat(&mut line, g, h, style);
    put_power(&mut line, g, h, scale, style);
    let ghost was = line_model(line@);
    match (g.pcie_rx_kbs, g.pcie_tx_kbs) {
        (Some(rx), Some(tx)) => {
            let a = kbs(rx);
            let b = kbs(tx);
            put(&mut line, say_owned(Tone::Dim, cat5("▼ ", a.as_str(), " ▲ ", b.as_str(), "  ")));
        },
        _ => {},
    }
    assert(line_model(line@) =~= was + traffic_seg(*g));
    put_fan(&mut line, g);
    put_count(&mut line, "core ", g.clock_mhz, "MHz  ");
    put_count(&mut line, "mem ", g.mem_clock_mhz, "MHz  ");
    put_number(&mut line, "membus ", g.mem_util_pct, "%  ");
    put_number(&mut line, "video ", g.video_util_pct, "%  ");
    put_number(&mut line, "enc ", g.enc_util_pct, "%  ");
    put_number(&mut line, "dec ", g.dec_util_pct, "%  ");
    put_tail(&mut line, g);
    line
}

// ---------------------------------------------------------------- folded

/// Whether the pool's fill level is known.
pub open spec fn pool_known(g: GpuSnapshot) -> bool {
    g.primary_pool().used is Some && (g.primary_pool().total matches Some(t) && t > 0)
}

/// The one line of a folded card.
pub open spec fn folded(g: GpuSnapshot, idx: usize, selected: bool) -> Seq<SpanModel> {
    let pool = g.primary_pool();
    seq![
        said(
            if selected {
                Tone::BorderSelected
            } else {
                Tone::Dim
            },
            " ▸ "@,
        ),
        said(Tone::Title, title_text(idx, g.name@) + "  "@),
        SpanModel {
            tone: if g.utilization_pct is Some {
                Tone::Util
            } else {
                Tone::Dim
            },
            parts: seq![PartModel::Text("GPU "@)] + pct(g.utilization_pct) + seq![
                PartModel::Text("  "@),
            ],
        },
        said(
            if pool_known(g) {
                Tone::Accent
            } else {
                Tone::Dim
            },
            "MEM "@ + pool_text(pool.used, pool.total) + "  "@,
        ),
    ] + (match g.temperature_c {
        Some(c) => seq![around(Tone::Heat(c), ""@, whole(c), "°C  "@)],
        None => Seq::empty(),
    }) + (match g.power_w {
        Some(w) => seq![watts(w, None, ""@, "  "@)],
        None => Seq::empty(),
    }) + throttle_seg(opt_text(g.throttle))
}

pub fn folded_line(g: &GpuSnapshot, idx: usize, selected: bool) -> (line: Vec<Span>)
    ensures
        line_model(line@) == folded(*g, idx, selected),
{
    let mut line: Vec<Span> = Vec::new();
    put(
        &mut line,
        say(
            if selected {
                Tone::BorderSelected
            } else {
                Tone::Dim
            },
            " ▸ ",
        ),
    );
    let mut title = card_title(idx, g.name.as_str());
    title.append("  ");
    put(&mut line, say_owned(Tone::Title, title));
    let mut parts: Vec<Part> = Vec::new();
    parts.push(Part::Text("GPU ".to_owned()));
    let mut figure = pct_or_na(g.utilization_pct);
    let ghost middle = part_models(figure@);
    parts.append(&mut figure);
    parts.push(Part::Text("  ".to_owned()));
    assert(part_models(parts@) =~= seq![PartModel::Text("GPU "@)] + middle + seq![
        PartModel::Text("  "@),
    ]);
    put(
        &mut line,
        Span {
            tone: if g.utilization_pct.is_some() {
                Tone::Util
            } else {
                Tone::Dim
            },
            parts,
        },
    );
    let pool = g.mem_primary();
    let known = pool.fill().is_some();
    let value = vram_value(g);
    put(
        &mut line,
        say_owned(
            if known {
                Tone::Accent
            } else {
                Tone::Dim
            },
            cat3("MEM ", value.as_str(), "  "),
        ),
    );
    let ghost head = line_model(line@);
    if let Some(c) = g.temperature_c {
        put(&mut line, number_between(Tone::Heat(c), "", whole_part(c), "°C  "));
    }
    let ghost warm = line_model(line@);
    if let Some(w) = g.power_w {
        put(&mut line, watts_span(w, None, "", "  "));
    }
    put_throttle(&mut line, &g.throttle);
    assert(line_model(line@) =~= folded(*g, idx, selected));
    line
}

// ---------------------------------------------------------------- session

/// What a session line can say.
#[derive(Clone, Copy, PartialEq, Eq, Structural, Debug)]
pub struct SessionFigures {
    pub max_util_pct: Option<Real>,
    pub max_temp_c: Option<Real>,
    pub max_power_w: Option<Real>,
    pub avg_util_pct: Option<Real>,
    pub avg_power_w: Option<Real>,
}

/// One more term of a list, after two spaces where it is not the first.
pub open spec fn with_term(terms: Seq<PartModel>, v: Option<Real>, unit: Seq<char>) -> Seq<PartModel> {
    match v {
        Some(n) => (if terms.len() == 0 {
            terms
        } else {
            terms.push(PartModel::Text("  "@))
        }).push(wide(n)).push(PartModel::Text(unit)),
        None => terms,
    }
}

pub open spec fn peak_terms(s: SessionFigures) -> Seq<PartModel> {
    with_term(
        with_term(with_term(Seq::empty(), s.max_util_pct, "%"@), s.max_temp_c, "°C"@),
        s.max_power_w,
        "W"@,
    )
}

pub open spec fn average_terms(s: SessionFigures) -> Seq<PartModel> {
    with_term(with_term(Seq::empty(), s.avg_util_pct, "%"@), s.avg_power_w, "W"@)
}

/// The session line: peaks and averages, each term only where its sensor ever
/// reported, and no line at all where none did.
pub open spec fn session(s: SessionFigures) -> Option<Seq<SpanModel>> {
    let peak = peak_terms(s);
    let average = average_terms(s);
    if peak.len() == 0 && average.len() == 0 {
        None
    } else {
        Some(
            seq![said(Tone::Dim, " session "@)] + (if peak.len() == 0 {
                Seq::empty()
            } else {
                seq![
                    SpanModel {
                        tone: Tone::Plain,
                        parts: seq![PartModel::Text("peak "@)] + peak + seq![
                            PartModel::Text("   "@),
                        ],
                    },
                ]
            }) + (if average.len() == 0 {
                Seq::empty()
            } else {
                seq![
                    SpanModel {
                        tone: Tone::Dim,
                        parts: seq![PartModel::Text("avg "@)] + average,
                    },
                ]
            }),
        )
    }
}

fn add_term(terms: &mut Vec<Part>, v: Option<Real>, unit: &str)
    ensures
        part_models(final(terms)@) == with_term(part_models(old(terms)@), v, unit@),
{
    let ghost was = part_models(terms@);
    if let Some(n) = v {
        if terms.len() > 0 {
            terms.push(Part::Text("  ".to_owned()));
        }
        terms.push(wide_part(n));
        terms.push(Part::Text(unit.to_owned()));
    }
    assert(part_models(terms@) =~= with_term(was, v, unit@));
}

pub fn session_line(s: &SessionFigures) -> (r: Option<Vec<Span>>)
    ensures
        match r {
            Some(line) => session(*s) == Some(line_model(line@)),
            None => session(*s) is None,
        },
{
    let mut peak: Vec<Part> = Vec::new();
    assert(part_models(peak@) =~= Seq::<PartModel>::empty());
    add_term(&mut peak, s.max_util_pct, "%");
    add_term(&mut peak, s.max_temp_c, "°C");
    add_term(&mut peak, s.max_power_w, "W");
    let mut average: Vec<Part> = Vec::new();
    assert(part_models(average@) =~= Seq::<PartModel>::empty());
    add_term(&mut average, s.avg_util_pct, "%");
    add_term(&mut average, s.avg_power_w, "W");
    let ghost peaks = part_models(peak@);
    let ghost averages = part_models(average@);
    assert(peaks.len() == peak@.len() && averages.len() == average@.len());
    if peak.len() == 0 && average.len() == 0 {
        return None;
    }
    let mut line: Vec<Span> = Vec::new();
    put(&mut line, say(Tone::Dim, " session "));
    let ghost lead = line_model(line@);
    assert(lead =~= seq![said(Tone::Dim, " session "@)]);
    if peak.len() > 0 {
        let mut parts: Vec<Part> = Vec::new();
        parts.push(Part::Text("peak ".to_owned()));
        parts.append(&mut peak);
        parts.push(Part::Text("   ".to_owned()));
        assert(part_models(parts@) =~= seq![PartModel::Text("peak "@)] + peaks + seq![
            PartModel::Text("   "@),
        ]);
        put(&mut line, Span { tone: Tone::Plain, parts });
    }
    if average.len() > 0 {
        let mut parts: Vec<Part> = Vec::new();
        parts.push(Part::Text("avg ".to_owned()));
        parts.append(&mut average);
        assert(part_models(parts@) =~= seq![PartModel::Text("avg "@)] + averages);
        put(&mut line, Span { tone: Tone::Dim, parts });
    }
    assert(session(*s) is Some);
    assert(line_model(line@) =~= session(*s)->0);
    Some(line)
}

/// A sensor that never reported has no term: only what was measured is said,
/// and where nothing was, nothing is.
pub proof fn unmeasured_sensors_are_left_out(s: SessionFigures)
    ensures
        session(s) is None <==> s.max_util_pct is None && s.max_temp_c is None && s.max_power_w is None
            && s.avg_util_pct is None && s.avg_power_w is None,
        peak_terms(s).len() == 0 <==> s.max_util_pct is None && s.max_temp_c is None
            && s.max_power_w is None,
        average_terms(s).len() == 0 <==> s.avg_util_pct is None && s.avg_power_w is None,
{
}

proof fn lemma_in(a: Seq<SpanModel>, b: Seq<SpanModel>, x: SpanModel)
    ensures
        a.contains(x) || b.contains(x) ==> (a + b).contains(x),
{
    if a.contains(x) {
        let w = choose|w: int| 0 <= w < a.len() && a[w] == x;
        assert((a + b)[w] == x);
    }
    if b.contains(x) {
        let w = choose|w: int| 0 <= w < b.len() && b[w] == x;
        assert((a + b)[a.len() + w] == x);
    }
}

/// The readouts of a card before its clocks.
pub open spec fn vital_readouts(
    g: GpuSnapshot,
    h: Option<&History>,
    scale: u64,
    style: GraphStyle,
) -> Seq<SpanModel> {
    seq![said(Tone::Raw, " "@)] + throttle_seg(opt_text(g.throttle)) + heat_seg(
        g,
        temps_of(h),
        style,
    ) + power_seg(g, draws_of(h), scale, style) + traffic_seg(g) + fan_seg(g)
}

proof fn lemma_vitals(
    g: GpuSnapshot,
    h: Option<&History>,
    scale: u64,
    style: GraphStyle,
    x: SpanModel,
)
    ensures
        throttle_seg(opt_text(g.throttle)).contains(x) || heat_seg(g, temps_of(h), style).contains(x)
            || power_seg(g, draws_of(h), scale, style).contains(x) || traffic_seg(g).contains(x)
            || fan_seg(g).contains(x) ==> vital_readouts(g, h, scale, style).contains(x),
{
    let a = seq![said(Tone::Raw, " "@)];
    let b = throttle_seg(opt_text(g.throttle));
    let c = heat_seg(g, temps_of(h), style);
    let d = power_seg(g, draws_of(h), scale, style);
    let e = traffic_seg(g);
    let f = fan_seg(g);
    lemma_in(a, b, x);
    lemma_in(a + b, c, x);
    lemma_in(a + b + c, d, x);
    lemma_in(a + b + c + d, e, x);
    lemma_in(a + b + c + d + e, f, x);
}

proof fn lemma_rest(
    g: GpuSnapshot,
    h: Option<&History>,
    scale: u64,
    style: GraphStyle,
    x: SpanModel,
)
    ensures
        vital_readouts(g, h, scale, style).contains(x) || count_seg("core "@, g.clock_mhz, "MHz  "@).contains(
            x,
        ) || count_seg("mem "@, g.mem_clock_mhz, "MHz  "@).contains(x) || number_seg(
            "membus "@,
            g.mem_util_pct,
            "%  "@,
        ).contains(x) || number_seg("video "@, g.video_util_pct, "%  "@).contains(x) || number_seg(
            "enc "@,
            g.enc_util_pct,
            "%  "@,
        ).contains(x) || number_seg("dec "@, g.dec_util_pct, "%  "@).contains(x) || volt_seg(
            g.volt_mv,
        ).contains(x) || gtt_seg(g).contains(x) || perf_seg(opt_text(g.perf_level)).contains(x)
            ==> info(g, h, scale, style).contains(x),
{
    let p0 = vital_readouts(g, h, scale, style);
    let s1 = count_seg("core "@, g.clock_mhz, "MHz  "@);
    let s2 = count_seg("mem "@, g.mem_clock_mhz, "MHz  "@);
    let s3 = number_seg("membus "@, g.mem_util_pct, "%  "@);
    let s4 = number_seg("video "@, g.video_util_pct, "%  "@);
    let s5 = number_seg("enc "@, g.enc_util_pct, "%  "@);
    let s6 = number_seg("dec "@, g.dec_util_pct, "%  "@);
    let s7 = volt_seg(g.volt_mv);
    let s8 = gtt_seg(g);
    let s9 = perf_seg(opt_text(g.perf_level));
    lemma_in(p0, s1, x);
    lemma_in(p0 + s1, s2, x);
    lemma_in(p0 + s1 + s2, s3, x);
    lemma_in(p0 + s1 + s2 + s3, s4, x);
    lemma_in(p0 + s1 + s2 + s3 + s4, s5, x);
    lemma_in(p0 + s1 + s2 + s3 + s4 + s5, s6, x);
    lemma_in(p0 + s1 + s2 + s3 + s4 + s5 + s6, s7, x);
    lemma_in(p0 + s1 + s2 + s3 + s4 + s5 + s6 + s7, s8, x);
    lemma_in(p0 + s1 + s2 + s3 + s4 + s5 + s6 + s7 + s8, s9, x);
}

/// Clocks, engines, voltage, the second pool and a forced level show under
/// their own labels wherever the card reports them.
pub proof fn what_a_card_reports_is_read_out(
    g: GpuSnapshot,
    h: Option<&History>,
    scale: u64,
    style: GraphStyle,
    n: u64,
    m: u64,
    v: Real,
)
    ensures
        ({
            let line = info(g, h, scale, style);
            &&& g.clock_mhz == Some(n) ==> line.contains(
                said(Tone::Dim, "core "@ + decimal(n as nat) + "MHz  "@),
            )
            &&& g.mem_clock_mhz == Some(n) ==> line.contains(
                said(Tone::Dim, "mem "@ + decimal(n as nat) + "MHz  "@),
            )
            &&& g.mem_util_pct == Some(v) ==> line.contains(
                around(Tone::Dim, "membus "@, whole(v), "%  "@),
            )
            &&& g.video_util_pct == Some(v) ==> line.contains(
                around(Tone::Dim, "video "@, whole(v), "%  "@),
            )
            &&& g.enc_util_pct == Some(v) ==> line.contains(
                around(Tone::Dim, "enc "@, whole(v), "%  "@),
            )
            &&& g.dec_util_pct == Some(v) ==> line.contains(
                around(Tone::Dim, "dec "@, whole(v), "%  "@),
            )
            &&& g.gtt_used_bytes == Some(n) && g.gtt_total_bytes == Some(m) ==> line.contains(
                said(Tone::Dim, "gtt "@ + bytes_text(n) + "/"@ + bytes_text(m) + "  "@),
            )
            &&& g.perf_level matches Some(p) ==> line.contains(
                said(Tone::Warn, "perf "@ + p@ + "  "@),
            )
        }),
{
    let a = said(Tone::Dim, "core "@ + decimal(n as nat) + "MHz  "@);
    let b = said(Tone::Dim, "mem "@ + decimal(n as nat) + "MHz  "@);
    let c = around(Tone::Dim, "membus "@, whole(v), "%  "@);
    let d = around(Tone::Dim, "video "@, whole(v), "%  "@);
    let e = around(Tone::Dim, "enc "@, whole(v), "%  "@);
    let f = around(Tone::Dim, "dec "@, whole(v), "%  "@);
    let t = said(Tone::Dim, "gtt "@ + bytes_text(n) + "/"@ + bytes_text(m) + "  "@);
    lemma_rest(g, h, scale, style, a);
    lemma_rest(g, h, scale, style, b);
    lemma_rest(g, h, scale, style, c);
    lemma_rest(g, h, scale, style, d);
    lemma_rest(g, h, scale, style, e);
    lemma_rest(g, h, scale, style, f);
    lemma_rest(g, h, scale, style, t);
    assert(seq![a][0] == a && seq![b][0] == b && seq![c][0] == c);
    assert(seq![d][0] == d && seq![e][0] == e && seq![f][0] == f && seq![t][0] == t);
    if let Some(p) = g.perf_level {
        let x = said(Tone::Warn, "perf "@ + p@ + "  "@);
        lemma_rest(g, h, scale, style, x);
        assert(seq![x][0] == x);
    }
}

/// The throttle badge, the temperature, the draw against its limit, the traffic
/// each way and the fan show wherever the card reports them.
pub proof fn the_vital_readouts_show(
    g: GpuSnapshot,
    h: Option<&History>,
    scale: u64,
    style: GraphStyle,
    n: u64,
    m: u64,
    v: Real,
    w: Real,
)
    ensures
        ({
            let line = info(g, h, scale, style);
            &&& g.throttle matches Some(t) ==> line.contains(
                said(Tone::Crit, "⚠ "@ + t@ + "  "@),
            )
            &&& g.temperature_c == Some(v) ==> line.contains(
                around(Tone::Heat(v), " "@, whole(v), "°C "@),
            )
            &&& g.power_w == Some(v) && g.power_limit_w == Some(w) ==> line.contains(
                SpanModel {
                    tone: Tone::Power,
                    parts: seq![
                        PartModel::Text(" "@),
                        whole(v),
                        PartModel::Text("/"@),
                        whole(w),
                        PartModel::Text("W"@ + "  "@),
                    ],
                },
            )
            &&& g.pcie_rx_kbs == Some(n) && g.pcie_tx_kbs == Some(m) ==> line.contains(
                said(Tone::Dim, "▼ "@ + rate_text(n) + " ▲ "@ + rate_text(m) + "  "@),
            )
            &&& g.fan_pct == Some(v) && g.fan_rpm is None ==> line.contains(
                around(Tone::Dim, "fan "@, whole(v), "%  "@),
            )
            &&& g.fan_pct is None && g.fan_rpm == Some(n) ==> line.contains(
                said(Tone::Dim, "fan "@ + decimal(n as nat) + "rpm  "@),
            )
        }),
{
    if let Some(t) = g.throttle {
        let x = said(Tone::Crit, "⚠ "@ + t@ + "  "@);
        lemma_vitals(g, h, scale, style, x);
        lemma_rest(g, h, scale, style, x);
        assert(seq![x][0] == x);
    }
    if g.temperature_c == Some(v) {
        let x = around(Tone::Heat(v), " "@, whole(v), "°C "@);
        let a = spark_seg(temps_of(h), 100, style).push(x);
        assert(a[a.len() - 1] == x);
        let b = number_seg("junc "@, g.temp_junction_c, "° "@);
        let c = number_seg("mem "@, g.temp_mem_c, "° "@);
        let d = seq![said(Tone::Raw, " "@)];
        lemma_in(a, b, x);
        lemma_in(a + b, c, x);
        lemma_in(a + b + c, d, x);
        lemma_vitals(g, h, scale, style, x);
        lemma_rest(g, h, scale, style, x);
    }
    if g.power_w == Some(v) && g.power_limit_w == Some(w) {
        let x = watts(v, Some(w), " "@, "  "@);
        let a = spark_seg(draws_of(h), scale, style).push(x);
        assert(a[a.len() - 1] == x);
        lemma_vitals(g, h, scale, style, x);
        lemma_rest(g, h, scale, style, x);
    }
    let r = said(Tone::Dim, "▼ "@ + rate_text(n) + " ▲ "@ + rate_text(m) + "  "@);
    lemma_vitals(g, h, scale, style, r);
    lemma_rest(g, h, scale, style, r);
    let f = around(Tone::Dim, "fan "@, whole(v), "%  "@);
    lemma_vitals(g, h, scale, style, f);
    lemma_rest(g, h, scale, style, f);
    let q = said(Tone::Dim, "fan "@ + decimal(n as nat) + "rpm  "@);
    lemma_vitals(g, h, scale, style, q);
    lemma_rest(g, h, scale, style, q);
    assert(seq![r][0] == r && seq![f][0] == f && seq![q][0] == q);
}

/// What a card does not report leaves no trace in its readouts.
pub proof fn what_a_card_does_not_report_is_left_out(
    g: GpuSnapshot,
    h: Option<&History>,
    scale: u64,
    style: GraphStyle,
)
    requires
        g.throttle is None && g.temperature_c is None && g.power_w is None,
        g.pcie_rx_kbs is None || g.pcie_tx_kbs is None,
        g.fan_pct is None && g.fan_rpm is None,
        g.clock_mhz is None && g.mem_clock_mhz is None && g.mem_util_pct is None,
        g.video_util_pct is None && g.enc_util_pct is None && g.dec_util_pct is None,
        g.volt_mv is None && g.perf_level is None,
        g.gtt_used_bytes is None || g.gtt_total_bytes is None,
    ensures
        info(g, h, scale, style) == seq![said(Tone::Raw, " "@)],
{
    assert(info(g, h, scale, style) =~= seq![said(Tone::Raw, " "@)]);
}

/// The caption of a discrete card names its link; it warns exactly where the
/// link runs below what card and slot could do, and then names that too. An
/// integrated card has no link to name.
pub proof fn a_link_below_its_best_is_flagged(g: GpuSnapshot)
    ensures
        g.integrated ==> right_caption(g) == seq![said(Tone::Dim, "integrated"@)],
        !g.integrated && (g.pcie_gen is None || g.pcie_width is None) ==> right_caption(g).len()
            == 0,
        !g.integrated && g.pcie_gen is Some && g.pcie_width is Some ==> {
            let line = right_caption(g);
            let slow = g.pcie_max_gen is Some && g.pcie_max_width is Some && (g.pcie_gen->0
                < g.pcie_max_gen->0 || g.pcie_width->0 < g.pcie_max_width->0);
            &&& line[0] == said(
                Tone::Dim,
                "PCIe "@ + decimal(g.pcie_gen->0 as nat) + ".0@"@ + decimal(
                    g.pcie_width->0 as nat,
                ) + "x"@,
            )
            &&& line.len() == (if slow {
                2int
            } else {
                1
            })
            &&& slow ==> line[1] == said(
                Tone::Warn,
                " (max "@ + decimal(g.pcie_max_gen->0 as nat) + ".0@"@ + decimal(
                    g.pcie_max_width->0 as nat,
                ) + "x)"@,
            )
        },
{
}

/// Label, track and readout fill the meter's width; where they leave no room the
/// track still has one glyph.
pub proof fn a_track_takes_what_is_left(width: u16, label: Seq<char>, value: Seq<char>)
    ensures
        label.len() + value.len() < width ==> label.len() + track_of(width, label, value)
            + value.len() == width,
        label.len() + value.len() >= width ==> track_of(width, label, value) == 1,
{
}

/// A percentage takes the same columns known or unknown, and shows its value.
pub proof fn a_percentage_shows_its_value(v: Real)
    ensures
        pct(Some(v)).len() == 2,
        pct(Some(v))[0] == (PartModel::Fixed { value: v, width: 3, decimals: 0 }),
        pct(Some(v))[1] == PartModel::Text("%"@),
        pct(None) == seq![PartModel::Text(" n/a"@)],
{
}

/// A folded card shows its number and name, its load, its memory, and its heat,
/// draw and throttling where it reports them.
pub proof fn a_folded_card_shows_its_figures(g: GpuSnapshot, idx: usize, selected: bool, v: Real)
    ensures
        ({
            let line = folded(g, idx, selected);
            &&& line.len() >= 4
            &&& line[0].tone == Tone::BorderSelected <==> selected
            &&& line[1] == said(Tone::Title, decimal(idx as nat) + "·"@ + g.name@ + "  "@)
            &&& g.utilization_pct == Some(v) ==> line[2].parts.contains(wide(v)) && line[2].tone
                == Tone::Util
            &&& g.utilization_pct is None ==> line[2].tone == Tone::Dim
            &&& g.temperature_c == Some(v) ==> line.contains(
                around(Tone::Heat(v), ""@, whole(v), "°C  "@),
            )
            &&& g.temperature_c is None && g.power_w is None && g.throttle is None ==> line.len()
                == 4
            &&& g.throttle matches Some(t) ==> line.last() == said(
                Tone::Crit,
                "⚠ "@ + t@ + "  "@,
            )
        }),
{
    let line = folded(g, idx, selected);
    assert(line[1] == said(Tone::Title, title_text(idx, g.name@) + "  "@));
    if g.utilization_pct == Some(v) {
        assert(line[2].parts[1] == wide(v));
    }
    if g.temperature_c == Some(v) {
        assert(line[4] == around(Tone::Heat(v), ""@, whole(v), "°C  "@));
    }
}

/// A session line shows each peak and each mean that it has, under its own
/// unit.
pub proof fn a_session_shows_its_peaks_and_means(s: SessionFigures, v: Real)
    ensures
        s.max_util_pct == Some(v) ==> peak_terms(s)[0] == wide(v) && peak_terms(s)[1]
            == PartModel::Text("%"@),
        s.max_util_pct is None && s.max_temp_c == Some(v) ==> peak_terms(s)[0] == wide(v)
            && peak_terms(s)[1] == PartModel::Text("°C"@),
        s.max_power_w == Some(v) ==> peak_terms(s)[peak_terms(s).len() - 2] == wide(v)
            && peak_terms(s).last() == PartModel::Text("W"@),
        s.max_temp_c == Some(v) && s.max_power_w is None ==> peak_terms(s)[peak_terms(s).len() - 2]
            == wide(v) && peak_terms(s).last() == PartModel::Text("°C"@),
        s.max_util_pct is Some && s.max_temp_c == Some(v) ==> peak_terms(s)[3] == wide(v)
            && peak_terms(s)[4] == PartModel::Text("°C"@),
        s.avg_util_pct == Some(v) ==> average_terms(s)[0] == wide(v) && average_terms(s)[1]
            == PartModel::Text("%"@),
        s.avg_power_w == Some(v) ==> average_terms(s)[average_terms(s).len() - 2] == wide(v)
            && average_terms(s).last() == PartModel::Text("W"@),
{
}

/// `m` is a meter of this label and readout, `filled` glyphs full.
pub open spec fn is_meter(
    m: Meter,
    label: Seq<char>,
    value: Seq<char>,
    width: u16,
    filled: Option<usize>,
) -> bool {
    &&& m.label@ == label
    &&& match filled {
        Some(n) => {
            &&& m.track == Some(
                (
                    (if n < track_of(width, label, value) {
                        n as int
                    } else {
                        track_of(width, label, value)
                    }) as usize,
                    track_of(width, label, value) as usize,
                ),
            )
            &&& m.value@ == value
            &&& !m.dim
        },
        None => m.track is None && m.value@ == trim_start(value) && m.dim,
    }
}

/// A meter fills its line: label, track and readout take the width between
/// them, the full part of the track is what was asked for and never more than
/// all of it, and without a level there is no track and the readout is dim.
pub proof fn a_meter_fills_its_line(
    m: Meter,
    label: Seq<char>,
    value: Seq<char>,
    width: u16,
    filled: Option<usize>,
)
    requires
        is_meter(m, label, value, width, filled),
    ensures
        m.label@ == label,
        filled is Some ==> m.value@ == value && !m.dim,
        filled is Some && label.len() + value.len() < width ==> (m.track matches Some((n, all))
            && label.len() + all + value.len() == width),
        filled matches Some(n) ==> (m.track matches Some((full, all)) && full <= all && full <= n
            && (n <= all ==> full == n) && (n > all ==> full == all)),
        filled is None ==> m.track is None && m.dim && m.value@ == trim_start(value),
{
}

} // verus!
