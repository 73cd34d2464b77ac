//! A line of styled text, in which a real number stands as the number it is.
use vstd::prelude::*;
use crate::order::{Real, Real32};

verus! {

/// The styles a span can have.
#[derive(Clone, Copy, PartialEq, Eq, Structural, Debug)]
pub enum Tone {
    /// As the terminal has it.
    Raw,
    /// The theme's foreground.
    Plain,
    Dim,
    Title,
    Accent,
    Border,
    BorderSelected,
    Util,
    Power,
    Warn,
    Crit,
    /// By this temperature.
    Heat(Real),
}

/// A piece of a span.
#[derive(Debug)]
pub enum Part {
    Text(String),
    /// A number with so many decimals, right-aligned to a width.
    Fixed { value: Real, width: u8, decimals: u8 },
    Fixed32 { value32: Real32, width: u8, decimals: u8 },
    /// Millivolts, in volts with two decimals.
    Volts(u64),
}

pub enum PartModel {
    Text(Seq<char>),
    Fixed { value: Real, width: u8, decimals: u8 },
    Fixed32 { value32: Real32, width: u8, decimals: u8 },
    Volts(u64),
}

impl Part {
    pub open spec fn model(&self) -> PartModel {
        match self {
            Part::Text(s) => PartModel::Text(s@),
            Part::Fixed { value, width, decimals } => PartModel::Fixed {
                value: *value,
                width: *width,
                decimals: *decimals,
            },
            Part::Fixed32 { value32, width, decimals } => PartModel::Fixed32 {
                value32: *value32,
                width: *width,
                decimals: *decimals,
            },
            Part::Volts(mv) => PartModel::Volts(*mv),
        }
    }
}

pub open spec fn part_models(v: Seq<Part>) -> Seq<PartModel> {
    v.map_values(|p: Part| p.model())
}

/// A stretch of one style.
#[derive(Debug)]
pub struct Span {
    pub tone: Tone,
    pub parts: Vec<Part>,
}

pub struct SpanModel {
    pub tone: Tone,
    pub parts: Seq<PartModel>,
}

impl Span {
    pub open spec fn model(&self) -> SpanModel {
        SpanModel { tone: self.tone, parts: part_models(self.parts@) }
    }
}

pub open spec fn line_model(line: Seq<Span>) -> Seq<SpanModel> {
    line.map_values(|s: Span| s.model())
}

/// A span of text.
pub open spec fn said(tone: Tone, s: Seq<char>) -> SpanModel {
    SpanModel { tone, parts: seq![PartModel::Text(s)] }
}

pub open spec fn whole(value: Real) -> PartModel {
    PartModel::Fixed { value, width: 0, decimals: 0 }
}

/// A rounded number, right-aligned to three columns.
pub open spec fn wide(value: Real) -> PartModel {
    PartModel::Fixed { value, width: 3, decimals: 0 }
}

/// Text, a number, and text.
pub open spec fn around(tone: Tone, a: Seq<char>, n: PartModel, b: Seq<char>) -> SpanModel {
    SpanModel { tone, parts: seq![PartModel::Text(a), n, PartModel::Text(b)] }
}

pub fn say(tone: Tone, s: &str) -> (r: Span)
    ensures
        r.model() == said(tone, s@),
{
    let mut parts: Vec<Part> = Vec::new();
    parts.push(Part::Text(s.to_owned()));
    assert(part_models(parts@) =~= seq![PartModel::Text(s@)]);
    Span { tone, parts }
}

pub fn say_owned(tone: Tone, s: String) -> (r: Span)
    ensures
        r.model() == said(tone, s@),
{
    let ghost text = s@;
    let mut parts: Vec<Part> = Vec::new();
    parts.push(Part::Text(s));
    assert(part_models(parts@) =~= seq![PartModel::Text(text)]);
    Span { tone, parts }
}

pub fn number_between(tone: Tone, a: &str, n: Part, b: &str) -> (r: Span)
    ensures
        r.model() == around(tone, a@, n.model(), b@),
{
    let ghost m = n.model();
    let mut parts: Vec<Part> = Vec::new();
    parts.push(Part::Text(a.to_owned()));
    parts.push(n);
    parts.push(Part::Text(b.to_owned()));
    assert(part_models(parts@) =~= seq![PartModel::Text(a@), m, PartModel::Text(b@)]);
    Span { tone, parts }
}

pub fn whole_part(value: Real) -> (p: Part)
    ensures
        p.model() == whole(value),
{
    Part::Fixed { value, width: 0, decimals: 0 }
}

pub fn wide_part(value: Real) -> (p: Part)
    ensures
        p.model() == wide(value),
{
    Part::Fixed { value, width: 3, decimals: 0 }
}

/// Appends a span.
pub fn put(line: &mut Vec<Span>, s: Span)
    ensures
        line_model(final(line)@) == line_model(old(line)@).push(s.model()),
{
    let ghost was = line@;
    line.push(s);
    assert(line_model(line@) =~= line_model(was).push(s.model()));
}

} // verus!
