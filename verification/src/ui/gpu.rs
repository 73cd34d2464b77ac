//! One unfolded card, put together from its parts.
use vstd::prelude::*;
use crate::text::{a_text_is_found_where_it_stands, contains_text};
use crate::app::history::History;
use crate::app::{App, Rect};
use crate::backend::GpuSnapshot;
use crate::order::Real;
use crate::ui::card::{card_caption, card_title, cat3, info, info_line, pct, pct_or_na, right_caption, session, session_line, title_text, vram_value, SessionFigures};
use crate::ui::format::pool_text;
use crate::ui::layout::{card_parts, inside, inside_of, is_split, split_card};
use crate::ui::line::{line_model, part_models, Part, PartModel, Span, SpanModel};

verus! {

/// Rows a card's inside needs before it gives one to the session line.
pub const SESSION_ROOM: u16 = 7;

/// Rows the waveform needs, one for each half.
pub const WAVE_ROOM: u16 = 2;

/// What stands inside a card's border.
#[derive(Debug)]
pub struct CardBody {
    pub util_row: Rect,
    pub mem_row: Rect,
    pub wave_row: Rect,
    pub session_row: Rect,
    pub info_row: Rect,
    /// The readouts of the two meters.
    pub util_value: Vec<Part>,
    pub mem_value: String,
    /// There is a history, and room to draw it.
    pub waves: bool,
    pub session: Option<Vec<Span>>,
    pub info: Vec<Span>,
}

/// A card: its border's captions, and its body where the border leaves room.
#[derive(Debug)]
pub struct CardView {
    pub selected: bool,
    pub title: String,
    pub caption: Vec<Span>,
    pub body: Option<CardBody>,
}

/// The session line, where it says anything and the card has room for it.
pub open spec fn session_shown(figures: Option<SessionFigures>, height: u16) -> Option<
    Seq<SpanModel>,
> {
    match figures {
        Some(f) => if height >= SESSION_ROOM {
            session(f)
        } else {
            None
        },
        None => None,
    }
}

/// The history that the card's graphs show.
pub open spec fn history_of(app: &App, idx: usize) -> Option<&History> {
    if app.history@.dom().contains(app.key_of(idx as int)) {
        Some(&app.history@[app.key_of(idx as int)])
    } else {
        None
    }
}

/// The utilization meter's readout.
pub open spec fn padded_pct(v: Option<Real>) -> Seq<PartModel> {
    seq![PartModel::Text(" "@)] + pct(v) + seq![PartModel::Text(" "@)]
}

pub open spec fn is_body(
    b: CardBody,
    app: App,
    idx: usize,
    inner: Rect,
    figures: Option<SessionFigures>,
    scale: u64,
) -> bool {
    let g: GpuSnapshot = app.gpus@[idx as int];
    let said = session_shown(figures, inner.height);
    let pool = g.primary_pool();
    &&& is_split(
        seq![b.util_row, b.mem_row, b.wave_row, b.session_row, b.info_row],
        inner,
        card_parts(said is Some),
    )
    &&& part_models(b.util_value@) == padded_pct(g.utilization_pct)
    &&& b.mem_value@ == " "@ + pool_text(pool.used, pool.total) + " "@
    &&& b.waves == (history_of(&app, idx) is Some && b.wave_row.height >= WAVE_ROOM)
    &&& match b.session {
        Some(line) => said == Some(line_model(line@)),
        None => said is None,
    }
    &&& line_model(b.info@) == info(g, history_of(&app, idx), scale, app.graph_style)
}

/// The card of device `idx`, whose border leaves `inner`.
pub open spec fn is_card(
    v: CardView,
    app: App,
    idx: usize,
    inner: Rect,
    figures: Option<SessionFigures>,
    scale: u64,
) -> bool {
    let g: GpuSnapshot = app.gpus@[idx as int];
    &&& v.selected == (idx == app.selected)
    &&& v.title@ == title_text(idx, g.name@)
    &&& line_model(v.caption@) == right_caption(g)
    &&& match v.body {
        Some(b) => inner.height > 0 && is_body(b, app, idx, inner, figures, scale),
        None => inner.height == 0,
    }
}

impl App {
    /// Puts the card of device `idx` together, for an area with its border.
    /// `figures` are its peaks and averages so far, and `scale` is the power
    /// that fills a sparkline.
    pub fn card_view(
        &self,
        idx: usize,
        area: Rect,
        figures: &Option<SessionFigures>,
        scale: u64,
    ) -> (v: CardView)
        requires
            self.wf(),
            idx < self.gpus@.len(),
        ensures
            is_card(v, *self, idx, inside_of(area), *figures, scale),
    {
        let inner = inside(area);
        let g = &self.gpus[idx];
        let title = card_title(idx, g.name.as_str());
        let caption = card_caption(g);
        let selected = idx == self.selected;
        if inner.height == 0 {
            return CardView { selected, title, caption, body: None };
        }
        let session = match figures {
            Some(f) => if inner.height >= SESSION_ROOM {
                session_line(f)
            } else {
                None
            },
            None => None,
        };
        let rows = split_card(inner, session.is_some());
        assert(rows@ =~= seq![rows@[0], rows@[1], rows@[2], rows@[3], rows@[4]]);
        let mut util_value: Vec<Part> = Vec::new();
        util_value.push(Part::Text(" ".to_owned()));
        let mut figure = pct_or_na(g.utilization_pct);
        let ghost middle = part_models(figure@);
        util_value.append(&mut figure);
        util_value.push(Part::Text(" ".to_owned()));
        assert(part_models(util_value@) =~= seq![PartModel::Text(" "@)] + middle + seq![
            PartModel::Text(" "@),
        ]);
        let mem_value = cat3(" ", vram_value(g).as_str(), " ");
        let history = self.history_at(idx);
        let waves = history.is_some() && rows[2].height >= WAVE_ROOM;
        let info = info_line(g, history, scale, self.graph_style);
        CardView {
            selected,
            title,
            caption,
            body: Some(
                CardBody {
                    util_row: rows[0],
                    mem_row: rows[1],
                    wave_row: rows[2],
                    session_row: rows[3],
                    info_row: rows[4],
                    util_value,
                    mem_value,
                    waves,
                    session,
                    info,
                },
            ),
        }
    }
}

// ---------------------------------------------------------------- laws

/// A session line shows where there is one and the card is high enough: seven
/// rows inside its border, and not below.
pub proof fn a_session_line_needs_room(f: SessionFigures, height: u16)
    ensures
        height >= 7 ==> session_shown(Some(f), height) == session(f),
        height < 7 ==> session_shown(Some(f), height) is None,
        session_shown(None, height) is None,
{
}

/// A card shows its own device: its name under its number, its load, its memory
/// and its readouts, and it is marked exactly where it is the selected one.
pub proof fn a_card_shows_its_own_device(
    v: CardView,
    app: App,
    idx: usize,
    inner: Rect,
    figures: Option<SessionFigures>,
    scale: u64,
)
    requires
        is_card(v, app, idx, inner, figures, scale),
    ensures
        v.selected <==> idx == app.selected,
        v.title@ == title_text(idx, app.gpus@[idx as int].name@),
        v.body is Some <==> inner.height > 0,
        v.body matches Some(b) ==> {
            let g = app.gpus@[idx as int];
            &&& g.utilization_pct matches Some(u) ==> part_models(b.util_value@)[1] == (
            PartModel::Fixed { value: u, width: 3, decimals: 0 })
            &&& b.waves ==> b.wave_row.height >= 2 && app.history@.dom().contains(
                app.key_of(idx as int),
            )
            &&& !b.waves && app.history@.dom().contains(app.key_of(idx as int))
                ==> b.wave_row.height < 2
            &&& b.session is Some ==> inner.height >= 7 && figures is Some
        },
{
}

/// A card's body shows the pool of its own device and its readouts, its rows
/// divide the inside of the border, and what it says of the session is that
/// device's; its caption is the device's own.
pub proof fn a_cards_body_is_its_devices(
    v: CardView,
    app: App,
    idx: usize,
    inner: Rect,
    figures: Option<SessionFigures>,
    scale: u64,
)
    requires
        is_card(v, app, idx, inner, figures, scale),
    ensures
        line_model(v.caption@) == right_caption(app.gpus@[idx as int]),
        v.body matches Some(b) ==> {
            let g = app.gpus@[idx as int];
            let pool = g.primary_pool();
            &&& contains_text(b.mem_value@, pool_text(pool.used, pool.total))
            &&& b.session matches Some(line) ==> (figures matches Some(f) && session(f) == Some(
                line_model(line@),
            ))
            &&& b.session is None && inner.height >= 7 ==> (figures matches Some(f) ==> session(
                f,
            ) is None)
            &&& line_model(b.info@) == info(g, history_of(&app, idx), scale, app.graph_style)
            &&& g.utilization_pct is None ==> part_models(b.util_value@) == padded_pct(None)
            &&& b.util_row.x == inner.x && b.util_row.width == inner.width
            &&& b.mem_row.x == inner.x && b.info_row.x == inner.x && b.wave_row.x == inner.x
            &&& inner.y <= b.util_row.y && inner.y <= b.mem_row.y && inner.y <= b.info_row.y
        },
{
    if let Some(b) = v.body {
        let pool = app.gpus@[idx as int].primary_pool();
        a_text_is_found_where_it_stands(" "@, pool_text(pool.used, pool.total), " "@);
        let rows = seq![b.util_row, b.mem_row, b.wave_row, b.session_row, b.info_row];
        assert(rows[0] == b.util_row && rows[1] == b.mem_row && rows[2] == b.wave_row && rows[4]
            == b.info_row);
    }
}

} // verus!
