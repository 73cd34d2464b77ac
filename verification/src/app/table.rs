//! The process table as shown: filtered, sorted, with a cursor that stays on
//! its row.
use vstd::prelude::*;
use crate::app::process::{filter_rows, find_row, kept_rows, row_position, sort_view, sorted_by, view_keys, ProcRow, a_filter_keeps_nothing_else, a_filter_searches_every_text_of_a_row, an_empty_filter_keeps_everything, sorting_keeps_every_row};
use crate::app::{App, InputMode};
use crate::text::{char_is_space, chars_of, is_space, lowercase, slice_of, string_of, to_lowercase, trim, trim_end, trim_text, contains_text, decimal};

verus! {

/// The rows that the session's filter keeps.
pub open spec fn filtered(app: &App) -> Seq<ProcRow> {
    kept_rows(app.all_procs@, lowercase(app.filter@))
}

/// The table shows the filtered rows in the session's order.
pub open spec fn table_is_current(app: &App) -> bool {
    sorted_by(
        app.procs@,
        filtered(app),
        view_keys(filtered(app), app.sort_by, app.sort_desc),
    )
}

/// `n` brought below `len`.
pub open spec fn within(n: usize, len: nat) -> int {
    if n < len {
        n as int
    } else if len == 0 {
        0
    } else {
        len - 1
    }
}

/// Where the cursor goes when the rows are replaced: onto the same process on
/// the same card where it is still listed, into range otherwise.
pub open spec fn cursor_after(before: Seq<ProcRow>, sel: usize, after: Seq<ProcRow>) -> int {
    if sel < before.len() {
        match row_position(after, before[sel as int].pid, before[sel as int].gpu_index, 0) {
            Some(i) => i,
            None => within(sel, after.len()),
        }
    } else {
        within(sel, after.len())
    }
}

/// `s` less its trailing run of characters that are not white space.
pub open spec fn without_last_word(s: Seq<char>) -> Seq<char>
    decreases s.len(),
{
    if s.len() > 0 && !is_space(s.last()) {
        without_last_word(s.drop_last())
    } else {
        s
    }
}

/// `n` brought below `len`.
pub fn clamp_index(n: usize, len: usize) -> (r: usize)
    ensures
        r == within(n, len as nat),
{
    if n < len {
        n
    } else if len == 0 {
        0
    } else {
        len - 1
    }
}

impl App {
    /// Re-applies filter and sort to the rows, keeping the cursor on the same
    /// process and card when it survives.
    pub fn rebuild_proc_view(&mut self)
        requires
            old(self).wf(),
        ensures
            final(self).wf(),
            table_is_current(final(self)),
            final(self).proc_sel == cursor_after(
                old(self).procs@,
                old(self).proc_sel,
                final(self).procs@,
            ),
            *final(self) == (App {
                procs: final(self).procs,
                proc_sel: final(self).proc_sel,
                ..*old(self)
            }),
    {
        let cursor = if self.proc_sel < self.procs.len() {
            let row = &self.procs[self.proc_sel];
            Some((row.pid, row.gpu_index))
        } else {
            None
        };
        let needle = to_lowercase(&self.filter);
        let rows = filter_rows(&self.all_procs, needle.as_str());
        self.procs = sort_view(&rows, self.sort_by, self.sort_desc);
        let found = match cursor {
            Some((pid, gpu)) => find_row(&self.procs, pid, gpu),
            None => None,
        };
        self.proc_sel = match found {
            Some(i) => i,
            None => clamp_index(self.proc_sel, self.procs.len()),
        };
    }

    /// Drops trailing blanks from the filter being typed, then the word before
    /// them.
    pub fn filter_delete_word(&mut self)
        ensures
            final(self).filter_input@ == without_last_word(trim_end(old(self).filter_input@)),
            *final(self) == (App { filter_input: final(self).filter_input, ..*old(self) }),
    {
        let cs = chars_of(&self.filter_input);
        let mut n: usize = cs.len();
        assert(cs@.take(n as int) =~= cs@);
        while n > 0 && char_is_space(cs[n - 1])
            invariant
                n <= cs.len(),
                trim_end(cs@) == trim_end(cs@.take(n as int)),
            decreases n,
        {
            assert(cs@.take(n as int).drop_last() =~= cs@.take(n - 1));
            n = n - 1;
        }
        let ghost kept = cs@.take(n as int);
        assert(trim_end(cs@) == kept);
        while n > 0 && !char_is_space(cs[n - 1])
            invariant
                n <= cs.len(),
                without_last_word(kept) == without_last_word(cs@.take(n as int)),
            decreases n,
        {
            assert(cs@.take(n as int).drop_last() =~= cs@.take(n - 1));
            n = n - 1;
        }
        let rest = slice_of(&cs, 0, n);
        assert(rest@ =~= cs@.take(n as int));
        self.filter_input = string_of(&rest);
    }

    /// Commits the filter being typed and shows what it keeps.
    pub fn commit_filter(&mut self)
        requires
            old(self).wf(),
        ensures
            final(self).wf(),
            final(self).filter@ == trim(old(self).filter_input@),
            table_is_current(final(self)),
            final(self).proc_sel == cursor_after(
                old(self).procs@,
                old(self).proc_sel,
                final(self).procs@,
            ),
            *final(self) == (App {
                filter: final(self).filter,
                input_mode: InputMode::Normal,
                procs: final(self).procs,
                proc_sel: final(self).proc_sel,
                ..*old(self)
            }),
    {
        self.filter = trim_text(&self.filter_input);
        self.input_mode = InputMode::Normal;
        self.rebuild_proc_view();
    }
}

/// The cursor never points past the table, and stays on its process and card
/// while that row is listed.
pub proof fn the_cursor_stays_on_its_row(before: Seq<ProcRow>, sel: usize, after: Seq<ProcRow>)
    ensures
        after.len() > 0 ==> 0 <= cursor_after(before, sel, after) < after.len(),
        after.len() == 0 ==> cursor_after(before, sel, after) == 0,
        sel < before.len() && (exists|i: int|
            0 <= i < after.len() && (#[trigger] after[i]).pid == before[sel as int].pid
                && after[i].gpu_index == before[sel as int].gpu_index) ==> {
            let row = after[cursor_after(before, sel, after)];
            row.pid == before[sel as int].pid && row.gpu_index == before[sel as int].gpu_index
        },
{
    if sel < before.len() {
        lemma_row_position(after, before[sel as int].pid, before[sel as int].gpu_index, 0);
    }
}

proof fn lemma_row_position(rows: Seq<ProcRow>, pid: u32, gpu: usize, from: int)
    requires
        0 <= from <= rows.len(),
    ensures
        match row_position(rows, pid, gpu, from) {
            Some(i) => from <= i < rows.len() && rows[i].pid == pid && rows[i].gpu_index == gpu,
            None => forall|i: int|
                from <= i < rows.len() ==> !((#[trigger] rows[i]).pid == pid && rows[i].gpu_index
                    == gpu),
        },
    decreases rows.len() - from,
{
    if from < rows.len() {
        lemma_row_position(rows, pid, gpu, from + 1);
    }
}

/// An index stays where it is while it is in range, and goes to the last one
/// otherwise: the highest in range that does not pass it.
pub proof fn an_index_out_of_range_goes_to_the_last(n: usize, len: nat, i: int)
    ensures
        n < len ==> within(n, len) == n,
        n >= len > 0 ==> within(n, len) == len - 1,
        len == 0 ==> within(n, len) == 0,
        0 <= i <= n && i < len ==> i <= within(n, len) <= n,
{
}

/// Where its row is gone the cursor keeps its place, or goes to the last row of
/// a table that became shorter.
pub proof fn a_cursor_without_its_row_keeps_its_place(
    before: Seq<ProcRow>,
    sel: usize,
    after: Seq<ProcRow>,
)
    requires
        sel < before.len(),
        forall|i: int|
            0 <= i < after.len() ==> !((#[trigger] after[i]).pid == before[sel as int].pid
                && after[i].gpu_index == before[sel as int].gpu_index),
    ensures
        sel < after.len() ==> cursor_after(before, sel, after) == sel,
        0 < after.len() <= sel ==> cursor_after(before, sel, after) == after.len() - 1,
{
    lemma_row_position(after, before[sel as int].pid, before[sel as int].gpu_index, 0);
}

/// Deleting a word takes the last word and the blanks behind it, and leaves
/// what stands before the word, the blank included; a single word leaves
/// nothing.
pub proof fn deleting_a_word_leaves_the_words_before(
    a: Seq<char>,
    blank: char,
    w: Seq<char>,
    behind: Seq<char>,
)
    requires
        is_space(blank),
        w.len() > 0,
        forall|i: int| 0 <= i < w.len() ==> !is_space(#[trigger] w[i]),
        forall|i: int| 0 <= i < behind.len() ==> is_space(#[trigger] behind[i]),
    ensures
        without_last_word(trim_end(a.push(blank) + w + behind)) == a.push(blank),
        without_last_word(trim_end(w + behind)).len() == 0,
    decreases behind.len(),
{
    let head = a.push(blank);
    let s = head + w + behind;
    let t = w + behind;
    if behind.len() > 0 {
        let init = behind.drop_last();
        assert forall|i: int| 0 <= i < init.len() implies is_space(#[trigger] init[i]) by {
            assert(init[i] == behind[i]);
        }
        deleting_a_word_leaves_the_words_before(a, blank, w, init);
        assert(s.last() == behind[behind.len() - 1]);
        assert(t.last() == behind[behind.len() - 1]);
        assert(s.drop_last() =~= head + w + init);
        assert(t.drop_last() =~= w + init);
    } else {
        assert(s =~= head + w);
        assert(t =~= w);
        assert(w.last() == w[w.len() - 1]);
        lemma_word_off(head, w);
        lemma_word_off(Seq::empty(), w);
        assert(Seq::<char>::empty() + w =~= w);
    }
}

proof fn lemma_word_off(head: Seq<char>, w: Seq<char>)
    requires
        head.len() > 0 ==> is_space(head.last()),
        forall|i: int| 0 <= i < w.len() ==> !is_space(#[trigger] w[i]),
    ensures
        without_last_word(head + w) == head,
    decreases w.len(),
{
    if w.len() > 0 {
        let s = head + w;
        assert(s.last() == w[w.len() - 1]);
        assert(s.drop_last() =~= head + w.drop_last());
        lemma_word_off(head, w.drop_last());
    } else {
        assert(head + w =~= head);
    }
}

/// The table shows just the rows that the filter keeps: all of them while there
/// is none, and those with a text that holds what was asked for otherwise.
pub proof fn the_table_shows_what_the_filter_keeps(app: &App, row: ProcRow)
    requires
        table_is_current(app),
        app.all_procs@.len() <= usize::MAX,
    ensures
        app.procs@.contains(row) ==> app.all_procs@.contains(row),
        lowercase(app.filter@).len() == 0 ==> (app.procs@.contains(row)
            <==> app.all_procs@.contains(row)),
        app.all_procs@.contains(row) && contains_text(
            lowercase(row.command@),
            lowercase(app.filter@),
        ) ==> app.procs@.contains(row),
        app.all_procs@.contains(row) && contains_text(
            lowercase(row.user@),
            lowercase(app.filter@),
        ) ==> app.procs@.contains(row),
        app.all_procs@.contains(row) && contains_text(
            decimal(row.pid as nat),
            lowercase(app.filter@),
        ) ==> app.procs@.contains(row),
        lowercase(app.filter@).len() > 0 && app.procs@.contains(row) ==> contains_text(
            lowercase(row.command@),
            lowercase(app.filter@),
        ) || contains_text(lowercase(row.user@), lowercase(app.filter@)) || contains_text(
            decimal(row.pid as nat),
            lowercase(app.filter@),
        ) || (row.container matches Some(c) && contains_text(
            lowercase(c@),
            lowercase(app.filter@),
        )),
{
    let needle = lowercase(app.filter@);
    let rows = filtered(app);
    lemma_kept_count(app.all_procs@, needle);
    sorting_keeps_every_row(app.procs@, rows, view_keys(rows, app.sort_by, app.sort_desc));
    assert(rows.contains(row) <==> app.procs@.contains(row));
    if needle.len() == 0 {
        assert(needle =~= Seq::<char>::empty());
        an_empty_filter_keeps_everything(app.all_procs@);
    } else if rows.contains(row) {
        a_filter_keeps_nothing_else(app.all_procs@, row, needle);
    }
    if app.all_procs@.contains(row) {
        a_filter_searches_every_text_of_a_row(app.all_procs@, row, needle);
    }
}

proof fn lemma_kept_count(rows: Seq<ProcRow>, needle: Seq<char>)
    ensures
        kept_rows(rows, needle).len() <= rows.len(),
    decreases rows.len(),
{
    reveal(Seq::filter);
    if rows.len() > 0 {
        lemma_kept_count(rows.drop_last(), needle);
    }
}

} // verus!
