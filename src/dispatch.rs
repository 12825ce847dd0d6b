//! Key dispatch and the continuation of outside steps: the session's transition
//! function from state and event to next state and effect.
use vstd::prelude::*;
use crate::index::{all_indices, holds_name, lemma_total_prefix, tag_total, NoteEntry};
use crate::session::{
    moved, refiltered, refreshed, selected_entry, wf, App, AppView, Effect, EffectView, Focus, Mode,
    Outcome, Pending, PendingView, PreviewTab,
};
use crate::summary::{decision, record_state, ActionView, SummaryAction, SummaryState};
use crate::text::{
    join_by, join_strings, lemma_views_push, lit, pop_char, push_all, push_char, split_words,
    string_of, trim, trimmed, views_of, words,
};
use crate::validate::{reports, first_bad, name_error_text, name_fault, tags_error_text, validate_name, validate_tags};

verus! {

/// A key press.
#[derive(Debug, Clone, Copy, PartialEq, Eq, Structural)]
pub enum Key {
    Char(char),
    Up,
    Down,
    Enter,
    Esc,
    Backspace,
    Tab,
    Other,
}

/// How long a transient status message stays, in milliseconds.
pub const STATUS_MILLIS: u64 = 3000;

pub open spec fn cleared(v: AppView) -> AppView {
    AppView { showing_summary: false, summary: None, summary_stale: false, force_regen: false, ..v }
}

/// The id of the note under the selection cursor, if any.
pub open spec fn selected_id(v: AppView) -> Option<i64> {
    match selected_entry(v) {
        Some(n) => Some(n.id),
        None => None,
    }
}

/// `new`, reached from `before`, with the shown summary dropped when the cursor
/// now stands on another note: the summary belongs to the selected note.
pub open spec fn settled(before: AppView, new: AppView) -> AppView {
    if selected_id(new) == selected_id(before) {
        new
    } else {
        cleared(new)
    }
}

pub open spec fn with_status(v: AppView, m: Seq<char>) -> AppView {
    AppView { status: Some(m), ..v }
}

pub open spec fn idle(v: AppView) -> AppView {
    AppView { pending: PendingView::Idle, ..v }
}

/// `s` with its last character removed, if it has one.
pub open spec fn popped(s: Seq<char>) -> Seq<char> {
    if s.len() > 0 {
        s.drop_last()
    } else {
        s
    }
}

/// The first position of `x` in `s` at or after `i`, or -1.
pub open spec fn pos_from(s: Seq<Seq<char>>, x: Seq<char>, i: int) -> int
    decreases s.len() - i,
{
    if i < 0 || i >= s.len() {
        -1
    } else if s[i] == x {
        i
    } else {
        pos_from(s, x, i + 1)
    }
}

/// `active` with `name` removed at its first place, or appended when absent.
pub open spec fn toggled(active: Seq<Seq<char>>, name: Seq<char>) -> Seq<Seq<char>> {
    let p = pos_from(active, name, 0);
    if p >= 0 {
        active.remove(p)
    } else {
        active.push(name)
    }
}

/// `existing` followed by each tag of `new` that it does not hold yet.
pub open spec fn added(existing: Seq<Seq<char>>, new: Seq<Seq<char>>) -> Seq<Seq<char>>
    decreases new.len(),
{
    if new.len() == 0 {
        existing
    } else {
        let prev = added(existing, new.drop_last());
        if prev.contains(new.last()) {
            prev
        } else {
            prev.push(new.last())
        }
    }
}

/// `existing` without the tags of `new`.
pub open spec fn removed(existing: Seq<Seq<char>>, new: Seq<Seq<char>>) -> Seq<Seq<char>>
    decreases existing.len(),
{
    if existing.len() == 0 {
        Seq::empty()
    } else {
        let prev = removed(existing.drop_last(), new);
        if new.contains(existing.last()) {
            prev
        } else {
            prev.push(existing.last())
        }
    }
}

proof fn lemma_added_holds(existing: Seq<Seq<char>>, new: Seq<Seq<char>>)
    ensures
        forall|x: Seq<char>| existing.contains(x) ==> #[trigger] added(existing, new).contains(x),
        forall|i: int| 0 <= i < new.len() ==> added(existing, new).contains(#[trigger] new[i]),
    decreases new.len(),
{
    if new.len() > 0 {
        let d = new.drop_last();
        lemma_added_holds(existing, d);
        let prev = added(existing, d);
        let cur = added(existing, new);
        assert forall|x: Seq<char>| prev.contains(x) implies cur.contains(x) by {
            if !prev.contains(new.last()) {
                let k = choose|k: int| 0 <= k < prev.len() && prev[k] == x;
                assert(cur[k] == x);
            }
        }
        assert forall|i: int| 0 <= i < new.len() implies cur.contains(#[trigger] new[i]) by {
            if i < d.len() {
                assert(d[i] == new[i]);
                assert(prev.contains(d[i]));
            } else if !prev.contains(new.last()) {
                assert(cur[prev.len() as int] == new.last());
            }
        }
    }
}

proof fn lemma_added_nothing_new(s: Seq<Seq<char>>, new: Seq<Seq<char>>)
    requires
        forall|i: int| 0 <= i < new.len() ==> s.contains(#[trigger] new[i]),
    ensures
        added(s, new) == s,
    decreases new.len(),
{
    if new.len() > 0 {
        let d = new.drop_last();
        assert forall|i: int| 0 <= i < d.len() implies s.contains(#[trigger] d[i]) by {
            assert(d[i] == new[i]);
        }
        lemma_added_nothing_new(s, d);
        assert(s.contains(new[new.len() - 1]));
    }
}

/// Adding tags is idempotent: adding the same tags a second time changes nothing,
/// so a tag added twice is held once.
pub proof fn lemma_add_twice(existing: Seq<Seq<char>>, new: Seq<Seq<char>>)
    ensures
        added(added(existing, new), new) == added(existing, new),
{
    lemma_added_holds(existing, new);
    lemma_added_nothing_new(added(existing, new), new);
}

pub open spec fn merged(existing: Seq<Seq<char>>, new: Seq<Seq<char>>, add: bool) -> Seq<Seq<char>> {
    if add {
        added(existing, new)
    } else {
        removed(existing, new)
    }
}

pub open spec fn quoted(a: Seq<char>, t: Seq<char>, b: Seq<char>) -> Seq<char> {
    a + t + b
}

pub open spec fn normal_step(v: AppView, key: Key) -> (AppView, EffectView) {
    match key {
        Key::Char('q') => (AppView { should_quit: true, ..v }, EffectView::Nothing),
        Key::Char('j') | Key::Down => (
            AppView {
                preview_scroll: 0,
                ..cleared(AppView { selected: moved(v.selected, 1, v.filtered.len()), ..v })
            },
            EffectView::Nothing,
        ),
        Key::Char('k') | Key::Up => (
            AppView {
                preview_scroll: 0,
                ..cleared(AppView { selected: moved(v.selected, -1, v.filtered.len()), ..v })
            },
            EffectView::Nothing,
        ),
        Key::Char('/') => (
            settled(
                v,
                AppView {
                    selected: 0,
                    status: None,
                    ..refiltered(AppView { mode: Mode::Search, query: Seq::empty(), ..v })
                },
            ),
            EffectView::Nothing,
        ),
        Key::Char(':') => (AppView { mode: Mode::Command, status: None, ..v }, EffectView::Nothing),
        Key::Esc => (cleared(v), EffectView::Nothing),
        Key::Tab => (
            cleared(AppView { focus: Focus::TagPanel, mode: Mode::TagBrowse, status: None, ..v }),
            EffectView::Nothing,
        ),
        _ => (v, EffectView::Nothing),
    }
}

/// The preview tab switch once the summary is known: show it, or say there is none.
pub open spec fn preview_switched(v: AppView, now: u64) -> AppView {
    if v.summary is Some {
        AppView { preview_tab: PreviewTab::Summary, preview_scroll: 0, ..v }
    } else {
        AppView {
            status: Some("No summary available. Use :s to generate."@),
            status_expires: Some(
                if now as int + STATUS_MILLIS as int > u64::MAX { u64::MAX } else { (now + STATUS_MILLIS) as u64 },
            ),
            focus: Focus::NoteList,
            preview_scroll: 0,
            ..v
        }
    }
}

pub open spec fn preview_step(v: AppView, key: Key, now: u64) -> (AppView, EffectView) {
    match key {
        Key::Char('q') => (AppView { should_quit: true, ..v }, EffectView::Nothing),
        Key::Char('j') | Key::Down => (
            AppView {
                preview_scroll: if v.preview_scroll == u16::MAX { u16::MAX } else { (v.preview_scroll + 1) as u16 },
                ..v
            },
            EffectView::Nothing,
        ),
        Key::Char('k') | Key::Up => (
            AppView {
                preview_scroll: if v.preview_scroll == 0 { 0 } else { (v.preview_scroll - 1) as u16 },
                ..v
            },
            EffectView::Nothing,
        ),
        Key::Tab => match v.preview_tab {
            PreviewTab::Note => if v.summary is None && selected_entry(v) is Some {
                (
                    AppView { pending: PendingView::PreviewSummary, ..v },
                    EffectView::LoadSummary { id: selected_entry(v).unwrap().id },
                )
            } else {
                (preview_switched(v, now), EffectView::Nothing)
            },
            PreviewTab::Summary => (
                AppView { focus: Focus::NoteList, preview_tab: PreviewTab::Note, preview_scroll: 0, ..v },
                EffectView::Nothing,
            ),
        },
        Key::Esc => (AppView { focus: Focus::NoteList, preview_scroll: 0, ..v }, EffectView::Nothing),
        Key::Char(':') => (
            AppView { focus: Focus::NoteList, mode: Mode::Command, status: None, ..v },
            EffectView::Nothing,
        ),
        _ => (v, EffectView::Nothing),
    }
}

pub open spec fn tag_browse_step(v: AppView, key: Key) -> (AppView, EffectView) {
    match key {
        Key::Char('q') => (AppView { should_quit: true, ..v }, EffectView::Nothing),
        Key::Char('j') | Key::Down => (
            AppView { selected_tag: moved(v.selected_tag, 1, v.visible_tags.len()), ..v },
            EffectView::Nothing,
        ),
        Key::Char('k') | Key::Up => (
            AppView { selected_tag: moved(v.selected_tag, -1, v.visible_tags.len()), ..v },
            EffectView::Nothing,
        ),
        Key::Enter => if v.selected_tag < v.visible_tags.len() {
            let active = toggled(v.active, v.visible_tags[v.selected_tag as int].0);
            (
                settled(
                    v,
                    AppView {
                        selected: 0,
                        status: if active.len() == 0 {
                            None
                        } else {
                            Some("Filtered by: "@ + join_by(active, ", "@))
                        },
                        ..refiltered(AppView { active, ..v })
                    },
                ),
                EffectView::Nothing,
            )
        } else {
            (v, EffectView::Nothing)
        },
        Key::Esc => (
            settled(
                v,
                AppView {
                    selected: 0,
                    focus: Focus::NoteList,
                    mode: Mode::Normal,
                    status: None,
                    ..refiltered(AppView { active: Seq::empty(), ..v })
                },
            ),
            EffectView::Nothing,
        ),
        Key::Tab => (
            AppView { focus: Focus::Preview, mode: Mode::Normal, preview_scroll: 0, ..v },
            EffectView::Nothing,
        ),
        Key::Char(':') => (
            AppView { focus: Focus::NoteList, mode: Mode::Command, status: None, ..v },
            EffectView::Nothing,
        ),
        _ => (v, EffectView::Nothing),
    }
}

pub open spec fn search_step(v: AppView, key: Key) -> (AppView, EffectView) {
    match key {
        Key::Esc => (
            settled(v, AppView { selected: 0, mode: Mode::Normal, ..refiltered(AppView { query: Seq::empty(), ..v }) }),
            EffectView::Nothing,
        ),
        Key::Enter => (AppView { mode: Mode::Normal, ..v }, EffectView::Nothing),
        Key::Backspace => (
            settled(v, AppView { selected: 0, ..refiltered(AppView { query: popped(v.query), ..v }) }),
            EffectView::Nothing,
        ),
        Key::Char(c) => (
            settled(v, AppView { selected: 0, ..refiltered(AppView { query: v.query.push(c), ..v }) }),
            EffectView::Nothing,
        ),
        _ => (v, EffectView::Nothing),
    }
}

/// A summarize action: reuse the stored summary unless the force flag is armed
/// (or a stale summary is on display), else ask the summarizer.
pub open spec fn summarize_step(v: AppView) -> (AppView, EffectView) {
    match selected_entry(v) {
        None => (with_status(v, "No note selected"@), EffectView::Nothing),
        Some(n) => {
            let force = v.force_regen || (v.showing_summary && v.summary_stale);
            if !force {
                (
                    AppView {
                        pending: PendingView::CachedSummary { id: n.id, title: n.title@, body: n.note@ },
                        ..v
                    },
                    EffectView::FetchSummary { id: n.id },
                )
            } else {
                (
                    AppView {
                        force_regen: true,
                        status: Some("Generating summary..."@),
                        pending: PendingView::Generation { id: n.id },
                        ..v
                    },
                    EffectView::Summarize { title: n.title@, body: n.note@ },
                )
            }
        },
    }
}

pub open spec fn command_step(v: AppView, key: Key) -> (AppView, EffectView) {
    match key {
        Key::Esc => (AppView { mode: Mode::Normal, ..v }, EffectView::Nothing),
        Key::Char('o') => {
            let v1 = AppView { mode: Mode::Normal, ..v };
            match selected_entry(v1) {
                None => (with_status(v1, "No note selected"@), EffectView::Nothing),
                Some(n) => (
                    AppView {
                        pending: PendingView::EditorForNote { id: n.id, title: n.title@, body: n.note@ },
                        ..v1
                    },
                    EffectView::EditNote { title: n.title@, body: n.note@ },
                ),
            }
        },
        Key::Char('a') => (
            AppView { input: Seq::empty(), tags_input: Seq::empty(), mode: Mode::AddNoteName, ..v },
            EffectView::Nothing,
        ),
        Key::Char('t') => (AppView { input: Seq::empty(), mode: Mode::EditTagsAdd, ..v }, EffectView::Nothing),
        Key::Char('s') => summarize_step(AppView { mode: Mode::Normal, ..v }),
        _ => (v, EffectView::Nothing),
    }
}

pub open spec fn add_name_step(v: AppView, key: Key) -> (AppView, EffectView) {
    match key {
        Key::Esc => (AppView { mode: Mode::Normal, ..v }, EffectView::Nothing),
        Key::Enter => {
            let name = trimmed(v.input);
            match name_fault(name) {
                Some(e) => (with_status(v, "Invalid name: "@ + name_error_text(e)), EffectView::Nothing),
                None => (
                    AppView { pending: PendingView::TitleCheck { name }, ..v },
                    EffectView::LookupTitle { title: name },
                ),
            }
        },
        Key::Backspace => (AppView { input: popped(v.input), ..v }, EffectView::Nothing),
        Key::Char(c) => (AppView { input: v.input.push(c), ..v }, EffectView::Nothing),
        _ => (v, EffectView::Nothing),
    }
}

pub open spec fn add_tags_step(v: AppView, key: Key) -> (AppView, EffectView) {
    match key {
        Key::Esc => (AppView { mode: Mode::Normal, ..v }, EffectView::Nothing),
        Key::Enter => {
            let tags = words(v.tags_input);
            if tags.len() > 0 && first_bad(tags) >= 0 {
                (with_status(v, "Invalid tags: "@ + tags_error_text(tags)), EffectView::Nothing)
            } else {
                (
                    AppView { pending: PendingView::ComposeNote { name: v.input, tags }, ..v },
                    EffectView::ComposeNote { title: v.input },
                )
            }
        },
        Key::Backspace => (AppView { tags_input: popped(v.tags_input), ..v }, EffectView::Nothing),
        Key::Char(c) => (AppView { tags_input: v.tags_input.push(c), ..v }, EffectView::Nothing),
        _ => (v, EffectView::Nothing),
    }
}

pub open spec fn edit_tags_step(v: AppView, key: Key) -> (AppView, EffectView) {
    match key {
        Key::Esc => (AppView { mode: Mode::Normal, ..v }, EffectView::Nothing),
        Key::Tab => (
            AppView {
                mode: if v.mode == Mode::EditTagsAdd { Mode::EditTagsRemove } else { Mode::EditTagsAdd },
                ..v
            },
            EffectView::Nothing,
        ),
        Key::Enter => match selected_entry(v) {
            None => (AppView { mode: Mode::Normal, ..with_status(v, "No note selected"@) }, EffectView::Nothing),
            Some(n) => {
                let tags = words(v.input);
                if tags.len() == 0 {
                    (AppView { mode: Mode::Normal, ..with_status(v, "No tags provided"@) }, EffectView::Nothing)
                } else if first_bad(tags) >= 0 {
                    (with_status(v, "Invalid tags: "@ + tags_error_text(tags)), EffectView::Nothing)
                } else {
                    (
                        AppView {
                            pending: PendingView::TagLookup {
                                title: n.title@,
                                tags,
                                add: v.mode == Mode::EditTagsAdd,
                            },
                            ..v
                        },
                        EffectView::FetchTags { title: n.title@ },
                    )
                }
            },
        },
        Key::Backspace => (AppView { input: popped(v.input), ..v }, EffectView::Nothing),
        Key::Char(c) => (AppView { input: v.input.push(c), ..v }, EffectView::Nothing),
        _ => (v, EffectView::Nothing),
    }
}

/// What a key press does: ignored while an outside step is awaited; a focused
/// preview pane takes keys first in normal mode; else the mode decides.
pub open spec fn key_step(v: AppView, key: Key, now: u64) -> (AppView, EffectView) {
    if !(v.pending is Idle) {
        (v, EffectView::Nothing)
    } else if v.focus == Focus::Preview && v.mode == Mode::Normal {
        preview_step(v, key, now)
    } else {
        match v.mode {
            Mode::Normal => normal_step(v, key),
            Mode::TagBrowse => tag_browse_step(v, key),
            Mode::Search => search_step(v, key),
            Mode::Command => command_step(v, key),
            Mode::AddNoteName => add_name_step(v, key),
            Mode::AddNoteTags => add_tags_step(v, key),
            Mode::EditTagsAdd | Mode::EditTagsRemove => edit_tags_step(v, key),
            Mode::VisualLine => (v, EffectView::Nothing),
        }
    }
}


/// The session after a write whose re-listed notes came back as `r`: the new
/// snapshot with the message `done`, or the error.
pub open spec fn refresh_result(v: AppView, r: Result<Vec<NoteEntry>, String>, done: Seq<char>) -> AppView {
    match r {
        Ok(notes) => if tag_total(notes@, all_indices(notes@.len())) > usize::MAX {
            with_status(v, "Error: the notes hold too many tags"@)
        } else {
            with_status(settled(v, refreshed(v, notes@)), done)
        },
        Err(e) => with_status(v, "Error: "@ + e@),
    }
}

/// Whether `r` brings a snapshot that can be taken.
pub open spec fn refresh_ok(r: Result<Vec<NoteEntry>, String>) -> bool {
    match r {
        Ok(notes) => tag_total(notes@, all_indices(notes@.len())) <= usize::MAX,
        Err(_) => false,
    }
}

/// What the outcome `o` of the awaited outside step does. An outcome that does
/// not answer the awaited step cancels it.
pub open spec fn resume_step(v: AppView, o: Outcome, now: u64) -> (AppView, EffectView) {
    match v.pending {
        PendingView::Idle => (v, EffectView::Nothing),
        PendingView::PreviewSummary => match o {
            Outcome::Summary(r) => {
                let v1 = match r {
                    Ok(Some((s, stale))) => AppView {
                        summary: Some(s@),
                        showing_summary: true,
                        summary_stale: stale,
                        ..v
                    },
                    _ => v,
                };
                (preview_switched(idle(v1), now), EffectView::Nothing)
            },
            _ => (idle(v), EffectView::Nothing),
        },
        PendingView::EditorForNote { id, title, body } => match o {
            Outcome::Edited(Ok(t)) => if t@ != body {
                (AppView { pending: PendingView::SaveBody { title }, ..v }, EffectView::SaveBody { id, body: t@ })
            } else {
                (idle(v), EffectView::Nothing)
            },
            Outcome::Edited(Err(e)) => (with_status(idle(v), "Error: "@ + e@), EffectView::Nothing),
            _ => (idle(v), EffectView::Nothing),
        },
        PendingView::SaveBody { title } => match o {
            Outcome::Refreshed(r) => {
                let v1 = refresh_result(idle(v), r, quoted("Note '"@, title, "' updated"@));
                (if refresh_ok(r) && v.showing_summary { cleared(v1) } else { v1 }, EffectView::Nothing)
            },
            _ => (idle(v), EffectView::Nothing),
        },
        PendingView::CachedSummary { id, title, body } => match o {
            Outcome::Summary(Ok(rec)) => match decision(record_state(rec), false) {
                ActionView::Show(t) => (
                    AppView {
                        showing_summary: true,
                        summary_stale: false,
                        force_regen: false,
                        summary: Some(t),
                        status: None,
                        ..idle(v)
                    },
                    EffectView::Nothing,
                ),
                ActionView::ShowStale(t) => (
                    AppView {
                        showing_summary: true,
                        summary_stale: true,
                        force_regen: true,
                        summary: Some(t),
                        status: Some("Summary may be outdated. Press :s again to regenerate."@),
                        ..idle(v)
                    },
                    EffectView::Nothing,
                ),
                ActionView::Generate => (
                    AppView {
                        status: Some("Generating summary..."@),
                        pending: PendingView::Generation { id },
                        ..v
                    },
                    EffectView::Summarize { title, body },
                ),
            },
            Outcome::Summary(Err(e)) => (with_status(idle(v), "Error: "@ + e@), EffectView::Nothing),
            _ => (idle(v), EffectView::Nothing),
        },
        PendingView::Generation { id } => match o {
            Outcome::Generated(Ok(t)) => (
                AppView { pending: PendingView::StoreSummary { text: t@ }, ..v },
                EffectView::StoreSummary { id, text: t@ },
            ),
            Outcome::Generated(Err(e)) => (with_status(idle(v), "Summary error: "@ + e@), EffectView::Nothing),
            _ => (idle(v), EffectView::Nothing),
        },
        PendingView::StoreSummary { text } => match o {
            Outcome::Stored(Ok(())) => (
                AppView {
                    showing_summary: true,
                    summary: Some(text),
                    summary_stale: false,
                    force_regen: false,
                    status: None,
                    ..idle(v)
                },
                EffectView::Nothing,
            ),
            Outcome::Stored(Err(e)) => (with_status(idle(v), "Error: "@ + e@), EffectView::Nothing),
            _ => (idle(v), EffectView::Nothing),
        },
        PendingView::TitleCheck { name } => match o {
            Outcome::TitleTaken(Ok(taken)) => if taken {
                (with_status(idle(v), quoted("Note '"@, name, "' already exists"@)), EffectView::Nothing)
            } else {
                (AppView { tags_input: Seq::empty(), mode: Mode::AddNoteTags, ..idle(v) }, EffectView::Nothing)
            },
            Outcome::TitleTaken(Err(e)) => (with_status(idle(v), "Error: "@ + e@), EffectView::Nothing),
            _ => (idle(v), EffectView::Nothing),
        },
        PendingView::ComposeNote { name, tags } => match o {
            Outcome::Edited(Ok(body)) => (
                AppView { pending: PendingView::InsertNote { name }, ..v },
                EffectView::InsertNote { title: name, body: body@, tags },
            ),
            Outcome::Edited(Err(e)) => (
                AppView { mode: Mode::Normal, ..with_status(idle(v), "Error: "@ + e@) },
                EffectView::Nothing,
            ),
            _ => (idle(v), EffectView::Nothing),
        },
        PendingView::InsertNote { name } => match o {
            Outcome::Refreshed(r) => (
                AppView { mode: Mode::Normal, ..refresh_result(idle(v), r, quoted("Note '"@, name, "' created"@)) },
                EffectView::Nothing,
            ),
            _ => (idle(v), EffectView::Nothing),
        },
        PendingView::TagLookup { title, tags, add } => match o {
            Outcome::NoteTags(Ok(Some((id, existing)))) => (
                AppView { pending: PendingView::TagWrite { title, add }, ..v },
                EffectView::WriteTags { id, tags: merged(views_of(existing@), tags, add) },
            ),
            Outcome::NoteTags(Ok(None)) => (
                AppView { mode: Mode::Normal, ..with_status(idle(v), "Note not found"@) },
                EffectView::Nothing,
            ),
            Outcome::NoteTags(Err(e)) => (
                AppView { mode: Mode::Normal, ..with_status(idle(v), "Error: "@ + e@) },
                EffectView::Nothing,
            ),
            _ => (idle(v), EffectView::Nothing),
        },
        PendingView::TagWrite { title, add } => match o {
            Outcome::Refreshed(r) => (
                AppView {
                    mode: Mode::Normal,
                    ..refresh_result(
                        idle(v),
                        r,
                        if add {
                            quoted("Tags added to '"@, title, "'"@)
                        } else {
                            quoted("Tags removed from '"@, title, "'"@)
                        },
                    )
                },
                EffectView::Nothing,
            ),
            _ => (idle(v), EffectView::Nothing),
        },
    }
}


spec fn entries_len(a: &App) -> bool {
    a@.visible_tags.len() == a.visible_tags@.len()
}

/// The staleness protocol at the session: a stale stored summary is shown with
/// its warning and arms the force flag without asking the summarizer; the next
/// summarize action on the same note then asks it, and only a stored result
/// clears the stale flag.
pub proof fn lemma_stale_shown_then_regenerated(v: AppView, t: String, fresh: Seq<char>, now: u64)
    requires
        v.pending is CachedSummary,
    ensures
        resume_step(v, Outcome::Summary(Ok(Some((t, true)))), now).1 is Nothing,
        resume_step(v, Outcome::Summary(Ok(Some((t, true)))), now).0.summary == Some(t@),
        resume_step(v, Outcome::Summary(Ok(Some((t, true)))), now).0.summary_stale,
        resume_step(v, Outcome::Summary(Ok(Some((t, true)))), now).0.force_regen,
        selected_entry(v) is Some ==> summarize_step(
            resume_step(v, Outcome::Summary(Ok(Some((t, true)))), now).0,
        ).1 is Summarize,
        resume_step(
            AppView { pending: PendingView::StoreSummary { text: fresh }, ..v },
            Outcome::Stored(Ok(())),
            now,
        ).0.summary_stale == false,
{
}

fn cat(a: &str, b: &str) -> (r: String)
    ensures
        r@ == a@ + b@,
{
    let mut r = lit(a);
    push_all(&mut r, b);
    r
}

fn cat3(a: &str, b: &str, c: &str) -> (r: String)
    ensures
        r@ == a@ + b@ + c@,
{
    let mut r = lit(a);
    push_all(&mut r, b);
    push_all(&mut r, c);
    r
}

/// The tags `existing` with the tags `new` added (each one not already there,
/// in order) or removed.
pub fn merge_tags(existing: Vec<String>, new: &Vec<String>, add: bool) -> (r: Vec<String>)
    ensures
        views_of(r@) == merged(views_of(existing@), views_of(new@), add),
{
    if add {
        let ghost base = views_of(existing@);
        let mut r = existing;
        let mut i: usize = 0;
        while i < new.len()
            invariant
                i <= new@.len(),
                views_of(r@) == added(base, views_of(new@).take(i as int)),
            decreases new.len() - i,
        {
            proof {
                let nv = views_of(new@);
                assert(nv.take(i + 1).drop_last() == nv.take(i as int));
                assert(nv.take(i + 1).last() == new@[i as int]@);
            }
            if !holds_name(&r, &new[i]) {
                let t = new[i].clone();
                proof {
                    lemma_views_push(r@, t);
                }
                r.push(t);
            }
            i = i + 1;
        }
        proof {
            assert(views_of(new@).take(new.len() as int) == views_of(new@));
        }
        r
    } else {
        let mut r: Vec<String> = Vec::new();
        let mut i: usize = 0;
        proof {
            assert(views_of(r@) =~= Seq::<Seq<char>>::empty());
        }
        while i < existing.len()
            invariant
                i <= existing@.len(),
                views_of(r@) == removed(views_of(existing@).take(i as int), views_of(new@)),
            decreases existing.len() - i,
        {
            proof {
                let ev = views_of(existing@);
                assert(ev.take(i + 1).drop_last() == ev.take(i as int));
                assert(ev.take(i + 1).last() == existing@[i as int]@);
            }
            if !holds_name(new, &existing[i]) {
                let t = existing[i].clone();
                proof {
                    lemma_views_push(r@, t);
                }
                r.push(t);
            }
            i = i + 1;
        }
        proof {
            assert(views_of(existing@).take(existing.len() as int) == views_of(existing@));
        }
        r
    }
}

/// Whether the tags of all `notes` can be counted.
fn tags_fit(notes: &Vec<NoteEntry>) -> (r: bool)
    ensures
        r == (tag_total(notes@, all_indices(notes@.len())) <= usize::MAX),
{
    let mut total: usize = 0;
    let mut i: usize = 0;
    while i < notes.len()
        invariant
            i <= notes@.len(),
            total as nat == tag_total(notes@, all_indices(i as nat)),
        decreases notes.len() - i,
    {
        proof {
            assert(all_indices((i + 1) as nat).drop_last() =~= all_indices(i as nat));
            assert(all_indices((i + 1) as nat).last() == i);
        }
        let k = notes[i].tags.len();
        if total > usize::MAX - k {
            proof {
                let all = all_indices(notes@.len());
                lemma_total_prefix(notes@, all, i + 1);
                assert(all.take(i + 1) =~= all_indices((i + 1) as nat));
            }
            return false;
        }
        total = total + k;
        i = i + 1;
    }
    true
}

impl App {
    fn selected_id(&self) -> (r: Option<i64>)
        ensures
            r == selected_id(self@),
    {
        match self.selected_note() {
            Some(n) => Some(n.id),
            None => None,
        }
    }

    /// Drops the shown summary when the cursor no longer stands on note `before`.
    fn settle(&mut self, before: Option<i64>)
        ensures
            final(self)@ == (if selected_id(old(self)@) == before { old(self)@ } else { cleared(old(self)@) }),
    {
        let same = match (self.selected_id(), before) {
            (Some(a), Some(b)) => a == b,
            (None, None) => true,
            _ => false,
        };
        if !same {
            self.clear_summary();
        }
    }

    fn clear_summary(&mut self)
        ensures
            final(self)@ == cleared(old(self)@),
    {
        self.showing_summary = false;
        self.summary_content = None;
        self.summary_stale = false;
        self.summary_force_regen = false;
    }

    fn set_status(&mut self, m: String)
        ensures
            final(self)@ == with_status(old(self)@, m@),
    {
        self.status_message = Some(m);
    }

    /// Recomputes the filter and puts the cursor on the first visible note.
    fn refilter_from_top(&mut self)
        requires
            tag_total(old(self)@.notes, all_indices(old(self)@.notes.len())) <= usize::MAX,
            old(self)@.all_tags == crate::index::facets(old(self)@.notes, all_indices(old(self)@.notes.len())),
            crate::index::is_facets(old(self)@.all_tags, old(self)@.notes, all_indices(old(self)@.notes.len())),
            old(self)@.selected_suggestion < old(self)@.suggestions.len() || old(self)@.selected_suggestion == 0,
        ensures
            final(self)@ == (AppView { selected: 0, ..refiltered(old(self)@) }),
            wf(final(self)@),
    {
        self.apply_filter();
        self.selected = 0;
    }

    fn start_search(&mut self)
        requires
            wf(old(self)@),
        ensures
            final(self)@ == settled(
                old(self)@,
                AppView {
                    selected: 0,
                    status: None,
                    ..refiltered(AppView { mode: Mode::Search, query: Seq::empty(), ..old(self)@ })
                },
            ),
            wf(final(self)@),
    {
        let before = self.selected_id();
        self.mode = Mode::Search;
        self.search_query = String::new();
        self.refilter_from_top();
        self.status_message = None;
        self.settle(before);
    }

    fn step_note(&mut self, delta: i32)
        requires
            wf(old(self)@),
        ensures
            final(self)@ == (AppView {
                preview_scroll: 0,
                ..cleared(AppView { selected: moved(old(self)@.selected, delta as int, old(self)@.filtered.len()), ..old(self)@ })
            }),
            wf(final(self)@),
    {
        self.move_selection(delta);
        self.clear_summary();
        self.preview_scroll = 0;
    }

    fn handle_normal(&mut self, key: Key) -> (r: Effect)
        requires
            wf(old(self)@),
        ensures
            (final(self)@, r@) == normal_step(old(self)@, key),
            wf(final(self)@),
    {
        match key {
            Key::Char('q') => {
                self.should_quit = true;
            },
            Key::Char('j') | Key::Down => self.step_note(1),
            Key::Char('k') | Key::Up => self.step_note(-1),
            Key::Char('/') => self.start_search(),
            Key::Char(':') => {
                self.mode = Mode::Command;
                self.status_message = None;
            },
            Key::Esc => {
                self.clear_summary();
            },
            Key::Tab => {
                self.focus = Focus::TagPanel;
                self.mode = Mode::TagBrowse;
                self.status_message = None;
                self.clear_summary();
            },
            _ => {},
        }
        Effect::Nothing
    }

    fn switch_preview(&mut self, now: u64)
        ensures
            final(self)@ == preview_switched(old(self)@, now),
    {
        if self.summary_content.is_some() {
            self.preview_tab = PreviewTab::Summary;
            self.preview_scroll = 0;
        } else {
            self.status_message = Some(lit("No summary available. Use :s to generate."));
            self.status_expires = Some(
                if now > u64::MAX - STATUS_MILLIS {
                    u64::MAX
                } else {
                    now + STATUS_MILLIS
                },
            );
            self.focus = Focus::NoteList;
            self.preview_scroll = 0;
        }
    }

    fn handle_preview(&mut self, key: Key, now: u64) -> (r: Effect)
        requires
            wf(old(self)@),
        ensures
            (final(self)@, r@) == preview_step(old(self)@, key, now),
            wf(final(self)@),
    {
        match key {
            Key::Char('q') => {
                self.should_quit = true;
            },
            Key::Char('j') | Key::Down => {
                if self.preview_scroll < u16::MAX {
                    self.preview_scroll = self.preview_scroll + 1;
                }
            },
            Key::Char('k') | Key::Up => {
                if self.preview_scroll > 0 {
                    self.preview_scroll = self.preview_scroll - 1;
                }
            },
            Key::Tab => {
                match self.preview_tab {
                    PreviewTab::Note => {
                        if self.summary_content.is_none() {
                            match self.selected_note() {
                                Some(n) => {
                                    let id = n.id;
                                    self.pending = Pending::PreviewSummary;
                                    return Effect::LoadSummary { id };
                                },
                                None => {},
                            }
                        }
                        self.switch_preview(now);
                    },
                    PreviewTab::Summary => {
                        self.focus = Focus::NoteList;
                        self.preview_tab = PreviewTab::Note;
                        self.preview_scroll = 0;
                    },
                }
            },
            Key::Esc => {
                self.focus = Focus::NoteList;
                self.preview_scroll = 0;
            },
            Key::Char(':') => {
                self.focus = Focus::NoteList;
                self.mode = Mode::Command;
                self.status_message = None;
            },
            _ => {},
        }
        Effect::Nothing
    }

    fn toggle_active_tag(&mut self, name: String)
        ensures
            final(self)@ == (AppView { active: toggled(old(self)@.active, name@), ..old(self)@ }),
    {
        let ghost av = views_of(self.active_tag_filters@);
        let n = self.active_tag_filters.len();
        let mut p: usize = 0;
        while p < n
            invariant
                p <= n,
                n == self.active_tag_filters@.len(),
                av == views_of(self.active_tag_filters@),
                pos_from(av, name@, 0) == pos_from(av, name@, p as int),
            ensures
                p <= n,
                p < n ==> av[p as int] == name@,
                pos_from(av, name@, 0) == pos_from(av, name@, p as int),
            decreases n - p,
        {
            if self.active_tag_filters[p] == name {
                break;
            }
            p = p + 1;
        }
        if p < n {
            self.active_tag_filters.remove(p);
            proof {
                assert(views_of(self.active_tag_filters@) =~= av.remove(p as int));
            }
        } else {
            proof {
                lemma_views_push(self.active_tag_filters@, name);
            }
            self.active_tag_filters.push(name);
        }
    }

    fn toggle_tag_under_cursor(&mut self)
        requires
            wf(old(self)@),
            old(self)@.selected_tag < old(self)@.visible_tags.len(),
        ensures
            (final(self)@, EffectView::Nothing) == tag_browse_step(old(self)@, Key::Enter),
            wf(final(self)@),
    {
        let before = self.selected_id();
        let name = self.visible_tags[self.selected_tag].name.clone();
        self.toggle_active_tag(name);
        self.refilter_from_top();
        if self.active_tag_filters.len() == 0 {
            self.status_message = None;
        } else {
            let joined = join_strings(&self.active_tag_filters, ", ");
            self.status_message = Some(cat("Filtered by: ", joined.as_str()));
        }
        self.settle(before);
    }

    fn clear_tag_filters(&mut self)
        requires
            wf(old(self)@),
        ensures
            (final(self)@, EffectView::Nothing) == tag_browse_step(old(self)@, Key::Esc),
            wf(final(self)@),
    {
        let before = self.selected_id();
        self.active_tag_filters = Vec::new();
        proof {
            assert(views_of(self.active_tag_filters@) =~= Seq::<Seq<char>>::empty());
        }
        self.refilter_from_top();
        self.focus = Focus::NoteList;
        self.mode = Mode::Normal;
        self.status_message = None;
        self.settle(before);
    }

    fn handle_tag_browse(&mut self, key: Key) -> (r: Effect)
        requires
            wf(old(self)@),
        ensures
            (final(self)@, r@) == tag_browse_step(old(self)@, key),
            wf(final(self)@),
    {
        match key {
            Key::Char('q') => {
                self.should_quit = true;
            },
            Key::Char('j') | Key::Down => self.move_tag_selection(1),
            Key::Char('k') | Key::Up => self.move_tag_selection(-1),
            Key::Enter => {
                proof {
                    assert(entries_len(self));
                }
                if self.selected_tag < self.visible_tags.len() {
                    self.toggle_tag_under_cursor();
                }
            },
            Key::Esc => self.clear_tag_filters(),
            Key::Tab => {
                self.focus = Focus::Preview;
                self.mode = Mode::Normal;
                self.preview_scroll = 0;
            },
            Key::Char(':') => {
                self.focus = Focus::NoteList;
                self.mode = Mode::Command;
                self.status_message = None;
            },
            _ => {},
        }
        Effect::Nothing
    }

    /// Applies a changed query: refilters from the top and drops the shown summary
    /// when the cursor left note `before`.
    fn requery(&mut self, before: Option<i64>)
        requires
            tag_total(old(self)@.notes, all_indices(old(self)@.notes.len())) <= usize::MAX,
            old(self)@.all_tags == crate::index::facets(old(self)@.notes, all_indices(old(self)@.notes.len())),
            crate::index::is_facets(old(self)@.all_tags, old(self)@.notes, all_indices(old(self)@.notes.len())),
            old(self)@.selected_suggestion < old(self)@.suggestions.len() || old(self)@.selected_suggestion == 0,
        ensures
            final(self)@ == (if selected_id(AppView { selected: 0, ..refiltered(old(self)@) }) == before {
                AppView { selected: 0, ..refiltered(old(self)@) }
            } else {
                cleared(AppView { selected: 0, ..refiltered(old(self)@) })
            }),
            wf(final(self)@),
    {
        self.refilter_from_top();
        self.settle(before);
    }

    fn handle_search(&mut self, key: Key) -> (r: Effect)
        requires
            wf(old(self)@),
        ensures
            (final(self)@, r@) == search_step(old(self)@, key),
            wf(final(self)@),
    {
        match key {
            Key::Esc => {
                let before = self.selected_id();
                self.search_query = String::new();
                self.mode = Mode::Normal;
                self.requery(before);
            },
            Key::Enter => {
                self.mode = Mode::Normal;
            },
            Key::Backspace => {
                let before = self.selected_id();
                let _ = pop_char(&mut self.search_query);
                self.requery(before);
            },
            Key::Char(c) => {
                let before = self.selected_id();
                push_char(&mut self.search_query, c);
                self.requery(before);
            },
            _ => {},
        }
        Effect::Nothing
    }

    fn summarize_selected_note(&mut self) -> (r: Effect)
        requires
            wf(old(self)@),
        ensures
            (final(self)@, r@) == summarize_step(old(self)@),
            wf(final(self)@),
    {
        let (id, title, body) = match self.selected_note() {
            Some(n) => (n.id, n.title.clone(), n.note.clone()),
            None => {
                self.set_status(lit("No note selected"));
                return Effect::Nothing;
            },
        };
        if self.showing_summary && self.summary_stale && !self.summary_force_regen {
            self.summary_force_regen = true;
        }
        if !self.summary_force_regen {
            self.pending = Pending::CachedSummary { id, title, body };
            return Effect::FetchSummary { id };
        }
        self.status_message = Some(lit("Generating summary..."));
        self.pending = Pending::Generation { id };
        Effect::Summarize { title, body }
    }

    fn handle_command(&mut self, key: Key) -> (r: Effect)
        requires
            wf(old(self)@),
        ensures
            (final(self)@, r@) == command_step(old(self)@, key),
            wf(final(self)@),
    {
        match key {
            Key::Esc => {
                self.mode = Mode::Normal;
                Effect::Nothing
            },
            Key::Char('o') => {
                self.mode = Mode::Normal;
                match self.selected_note() {
                    Some(n) => {
                        let (id, title, body) = (n.id, n.title.clone(), n.note.clone());
                        let t2 = title.clone();
                        let b2 = body.clone();
                        self.pending = Pending::EditorForNote { id, title, body };
                        Effect::EditNote { title: t2, body: b2 }
                    },
                    None => {
                        self.set_status(lit("No note selected"));
                        Effect::Nothing
                    },
                }
            },
            Key::Char('a') => {
                self.input_buffer = String::new();
                self.tags_buffer = String::new();
                self.mode = Mode::AddNoteName;
                Effect::Nothing
            },
            Key::Char('t') => {
                self.input_buffer = String::new();
                self.mode = Mode::EditTagsAdd;
                Effect::Nothing
            },
            Key::Char('s') => {
                self.mode = Mode::Normal;
                self.summarize_selected_note()
            },
            _ => Effect::Nothing,
        }
    }

    fn handle_add_note_name(&mut self, key: Key) -> (r: Effect)
        requires
            wf(old(self)@),
        ensures
            (final(self)@, r@) == add_name_step(old(self)@, key),
            wf(final(self)@),
    {
        match key {
            Key::Esc => {
                self.mode = Mode::Normal;
                Effect::Nothing
            },
            Key::Enter => {
                let name = string_of(&trim(self.input_buffer.as_str()));
                match validate_name(name.as_str()) {
                    Err(e) => {
                        let m = e.message();
                        self.set_status(cat("Invalid name: ", m.as_str()));
                        Effect::Nothing
                    },
                    Ok(()) => {
                        let n2 = name.clone();
                        self.pending = Pending::TitleCheck { name };
                        Effect::LookupTitle { title: n2 }
                    },
                }
            },
            Key::Backspace => {
                let _ = pop_char(&mut self.input_buffer);
                Effect::Nothing
            },
            Key::Char(c) => {
                push_char(&mut self.input_buffer, c);
                Effect::Nothing
            },
            _ => Effect::Nothing,
        }
    }

    fn handle_add_note_tags(&mut self, key: Key) -> (r: Effect)
        requires
            wf(old(self)@),
        ensures
            (final(self)@, r@) == add_tags_step(old(self)@, key),
            wf(final(self)@),
    {
        match key {
            Key::Esc => {
                self.mode = Mode::Normal;
                Effect::Nothing
            },
            Key::Enter => {
                let tags = split_words(self.tags_buffer.as_str());
                proof {
                    assert(views_of(tags@) =~= words(self.tags_buffer@));
                }
                if tags.len() > 0 {
                    match validate_tags(&tags) {
                        Err(e) => {
                            let m = e.message();
                            proof {
                                let i = first_bad(views_of(tags@));
                                assert(reports(e, tags@[i]@));
                                assert(views_of(tags@)[i] == tags@[i]@);
                            }
                            self.set_status(cat("Invalid tags: ", m.as_str()));
                            return Effect::Nothing;
                        },
                        Ok(()) => {},
                    }
                }
                let name = self.input_buffer.clone();
                let t2 = name.clone();
                self.pending = Pending::ComposeNote { name, tags };
                Effect::ComposeNote { title: t2 }
            },
            Key::Backspace => {
                let _ = pop_char(&mut self.tags_buffer);
                Effect::Nothing
            },
            Key::Char(c) => {
                push_char(&mut self.tags_buffer, c);
                Effect::Nothing
            },
            _ => Effect::Nothing,
        }
    }

    fn handle_edit_tags(&mut self, key: Key) -> (r: Effect)
        requires
            wf(old(self)@),
        ensures
            (final(self)@, r@) == edit_tags_step(old(self)@, key),
            wf(final(self)@),
    {
        match key {
            Key::Esc => {
                self.mode = Mode::Normal;
                Effect::Nothing
            },
            Key::Tab => {
                self.mode = if self.mode == Mode::EditTagsAdd {
                    Mode::EditTagsRemove
                } else {
                    Mode::EditTagsAdd
                };
                Effect::Nothing
            },
            Key::Enter => {
                let title = match self.selected_note() {
                    Some(n) => n.title.clone(),
                    None => {
                        self.set_status(lit("No note selected"));
                        self.mode = Mode::Normal;
                        return Effect::Nothing;
                    },
                };
                let tags = split_words(self.input_buffer.as_str());
                proof {
                    assert(views_of(tags@) =~= words(self.input_buffer@));
                }
                if tags.len() == 0 {
                    self.set_status(lit("No tags provided"));
                    self.mode = Mode::Normal;
                    return Effect::Nothing;
                }
                match validate_tags(&tags) {
                    Err(e) => {
                        let m = e.message();
                        proof {
                            let i = first_bad(views_of(tags@));
                            assert(reports(e, tags@[i]@));
                            assert(views_of(tags@)[i] == tags@[i]@);
                        }
                        self.set_status(cat("Invalid tags: ", m.as_str()));
                        return Effect::Nothing;
                    },
                    Ok(()) => {},
                }
                let add = self.mode == Mode::EditTagsAdd;
                let t2 = title.clone();
                self.pending = Pending::TagLookup { title, tags, add };
                Effect::FetchTags { title: t2 }
            },
            Key::Backspace => {
                let _ = pop_char(&mut self.input_buffer);
                Effect::Nothing
            },
            Key::Char(c) => {
                push_char(&mut self.input_buffer, c);
                Effect::Nothing
            },
            _ => Effect::Nothing,
        }
    }
}

/// Dispatches a key press. `now` is the caller's clock in milliseconds, used
/// for the expiry of transient status messages.
pub fn handle_key(app: &mut App, key: Key, now: u64) -> (r: Effect)
    requires
        wf(old(app)@),
    ensures
        (final(app)@, r@) == key_step(old(app)@, key, now),
        wf(final(app)@),
{
    match app.pending {
        Pending::Idle => {},
        _ => return Effect::Nothing,
    }
    if app.focus == Focus::Preview && app.mode == Mode::Normal {
        return app.handle_preview(key, now);
    }
    match app.mode {
        Mode::Normal => app.handle_normal(key),
        Mode::TagBrowse => app.handle_tag_browse(key),
        Mode::Search => app.handle_search(key),
        Mode::Command => app.handle_command(key),
        Mode::AddNoteName => app.handle_add_note_name(key),
        Mode::AddNoteTags => app.handle_add_note_tags(key),
        Mode::EditTagsAdd | Mode::EditTagsRemove => app.handle_edit_tags(key),
        Mode::VisualLine => Effect::Nothing,
    }
}

impl App {
    /// Takes the re-listed notes `r` of a write: the new snapshot and the message
    /// `done`, or the error. Returns whether the snapshot was taken.
    fn take_snapshot(&mut self, r: Result<Vec<NoteEntry>, String>, done: String) -> (ok: bool)
        requires
            wf(old(self)@),
        ensures
            final(self)@ == refresh_result(old(self)@, r, done@),
            ok == refresh_ok(r),
            wf(final(self)@),
    {
        match r {
            Ok(notes) => {
                if tags_fit(&notes) {
                    let before = self.selected_id();
                    self.refresh_notes(notes);
                    self.settle(before);
                    self.set_status(done);
                    true
                } else {
                    self.set_status(lit("Error: the notes hold too many tags"));
                    false
                }
            },
            Err(e) => {
                self.set_status(cat("Error: ", e.as_str()));
                false
            },
        }
    }

    /// Takes the re-listed notes of a write and returns to normal mode.
    fn finish_write(&mut self, r: Result<Vec<NoteEntry>, String>, done: String)
        requires
            wf(old(self)@),
        ensures
            final(self)@ == (AppView { mode: Mode::Normal, ..refresh_result(old(self)@, r, done@) }),
            wf(final(self)@),
    {
        let _ = self.take_snapshot(r, done);
        self.mode = Mode::Normal;
    }

    fn resume_preview(&mut self, outcome: Outcome, now: u64) -> (r: Effect)
        requires
            wf(old(self)@),
            old(self)@.pending is Idle,
        ensures
            (final(self)@, r@) == resume_step(AppView { pending: PendingView::PreviewSummary, ..old(self)@ }, outcome, now),
            wf(final(self)@),
    {
        match outcome {
            Outcome::Summary(r) => {
                match r {
                    Ok(Some((s, stale))) => {
                        self.summary_content = Some(s);
                        self.showing_summary = true;
                        self.summary_stale = stale;
                    },
                    _ => {},
                }
                self.switch_preview(now);
            },
            _ => {},
        }
        Effect::Nothing
    }

    fn resume_editor(&mut self, id: i64, title: String, body: String, outcome: Outcome) -> (r: Effect)
        requires
            wf(old(self)@),
            old(self)@.pending is Idle,
        ensures
            (final(self)@, r@) == resume_step(
                AppView { pending: PendingView::EditorForNote { id, title: title@, body: body@ }, ..old(self)@ },
                outcome,
                0,
            ),
            wf(final(self)@),
    {
        match outcome {
            Outcome::Edited(Ok(t)) => {
                if !(t == body) {
                    self.pending = Pending::SaveBody { title };
                    Effect::SaveBody { id, body: t }
                } else {
                    Effect::Nothing
                }
            },
            Outcome::Edited(Err(e)) => {
                self.set_status(cat("Error: ", e.as_str()));
                Effect::Nothing
            },
            _ => Effect::Nothing,
        }
    }

    fn resume_save(&mut self, title: String, outcome: Outcome) -> (r: Effect)
        requires
            wf(old(self)@),
            old(self)@.pending is Idle,
        ensures
            (final(self)@, r@) == resume_step(AppView { pending: PendingView::SaveBody { title: title@ }, ..old(self)@ }, outcome, 0),
            wf(final(self)@),
    {
        match outcome {
            Outcome::Refreshed(r) => {
                let showing = self.showing_summary;
                let ok = self.take_snapshot(r, cat3("Note '", title.as_str(), "' updated"));
                if ok && showing {
                    self.clear_summary();
                }
                Effect::Nothing
            },
            _ => Effect::Nothing,
        }
    }

    fn resume_cached(&mut self, id: i64, title: String, body: String, outcome: Outcome) -> (r: Effect)
        requires
            wf(old(self)@),
            old(self)@.pending is Idle,
        ensures
            (final(self)@, r@) == resume_step(
                AppView { pending: PendingView::CachedSummary { id, title: title@, body: body@ }, ..old(self)@ },
                outcome,
                0,
            ),
            wf(final(self)@),
    {
        match outcome {
            Outcome::Summary(Ok(rec)) => {
                let st = SummaryState::from_record(rec);
                match st.decide(false) {
                    SummaryAction::Show(t) => {
                        self.showing_summary = true;
                        self.summary_stale = false;
                        self.summary_force_regen = false;
                        self.summary_content = Some(t);
                        self.status_message = None;
                        Effect::Nothing
                    },
                    SummaryAction::ShowStale(t) => {
                        self.showing_summary = true;
                        self.summary_stale = true;
                        self.summary_force_regen = true;
                        self.summary_content = Some(t);
                        self.status_message = Some(lit("Summary may be outdated. Press :s again to regenerate."));
                        Effect::Nothing
                    },
                    SummaryAction::Generate => {
                        self.status_message = Some(lit("Generating summary..."));
                        self.pending = Pending::Generation { id };
                        Effect::Summarize { title, body }
                    },
                }
            },
            Outcome::Summary(Err(e)) => {
                self.set_status(cat("Error: ", e.as_str()));
                Effect::Nothing
            },
            _ => Effect::Nothing,
        }
    }

    fn resume_generation(&mut self, id: i64, outcome: Outcome) -> (r: Effect)
        requires
            wf(old(self)@),
            old(self)@.pending is Idle,
        ensures
            (final(self)@, r@) == resume_step(AppView { pending: PendingView::Generation { id }, ..old(self)@ }, outcome, 0),
            wf(final(self)@),
    {
        match outcome {
            Outcome::Generated(Ok(t)) => {
                let t2 = t.clone();
                self.pending = Pending::StoreSummary { text: t };
                Effect::StoreSummary { id, text: t2 }
            },
            Outcome::Generated(Err(e)) => {
                self.set_status(cat("Summary error: ", e.as_str()));
                Effect::Nothing
            },
            _ => Effect::Nothing,
        }
    }

    fn resume_store(&mut self, text: String, outcome: Outcome) -> (r: Effect)
        requires
            wf(old(self)@),
            old(self)@.pending is Idle,
        ensures
            (final(self)@, r@) == resume_step(AppView { pending: PendingView::StoreSummary { text: text@ }, ..old(self)@ }, outcome, 0),
            wf(final(self)@),
    {
        match outcome {
            Outcome::Stored(Ok(())) => {
                self.showing_summary = true;
                self.summary_content = Some(text);
                self.summary_stale = false;
                self.summary_force_regen = false;
                self.status_message = None;
                Effect::Nothing
            },
            Outcome::Stored(Err(e)) => {
                self.set_status(cat("Error: ", e.as_str()));
                Effect::Nothing
            },
            _ => Effect::Nothing,
        }
    }

    fn resume_title(&mut self, name: String, outcome: Outcome) -> (r: Effect)
        requires
            wf(old(self)@),
            old(self)@.pending is Idle,
        ensures
            (final(self)@, r@) == resume_step(AppView { pending: PendingView::TitleCheck { name: name@ }, ..old(self)@ }, outcome, 0),
            wf(final(self)@),
    {
        match outcome {
            Outcome::TitleTaken(Ok(taken)) => {
                if taken {
                    self.set_status(cat3("Note '", name.as_str(), "' already exists"));
                } else {
                    self.tags_buffer = String::new();
                    self.mode = Mode::AddNoteTags;
                }
                Effect::Nothing
            },
            Outcome::TitleTaken(Err(e)) => {
                self.set_status(cat("Error: ", e.as_str()));
                Effect::Nothing
            },
            _ => Effect::Nothing,
        }
    }

    fn resume_compose(&mut self, name: String, tags: Vec<String>, outcome: Outcome) -> (r: Effect)
        requires
            wf(old(self)@),
            old(self)@.pending is Idle,
        ensures
            (final(self)@, r@) == resume_step(
                AppView { pending: PendingView::ComposeNote { name: name@, tags: views_of(tags@) }, ..old(self)@ },
                outcome,
                0,
            ),
            wf(final(self)@),
    {
        match outcome {
            Outcome::Edited(Ok(body)) => {
                let n2 = name.clone();
                self.pending = Pending::InsertNote { name };
                Effect::InsertNote { title: n2, body, tags }
            },
            Outcome::Edited(Err(e)) => {
                self.set_status(cat("Error: ", e.as_str()));
                self.mode = Mode::Normal;
                Effect::Nothing
            },
            _ => Effect::Nothing,
        }
    }

    fn resume_insert(&mut self, name: String, outcome: Outcome) -> (r: Effect)
        requires
            wf(old(self)@),
            old(self)@.pending is Idle,
        ensures
            (final(self)@, r@) == resume_step(AppView { pending: PendingView::InsertNote { name: name@ }, ..old(self)@ }, outcome, 0),
            wf(final(self)@),
    {
        match outcome {
            Outcome::Refreshed(r) => {
                self.finish_write(r, cat3("Note '", name.as_str(), "' created"));
                Effect::Nothing
            },
            _ => Effect::Nothing,
        }
    }

    fn resume_lookup(&mut self, title: String, tags: Vec<String>, add: bool, outcome: Outcome) -> (r: Effect)
        requires
            wf(old(self)@),
            old(self)@.pending is Idle,
        ensures
            (final(self)@, r@) == resume_step(
                AppView { pending: PendingView::TagLookup { title: title@, tags: views_of(tags@), add }, ..old(self)@ },
                outcome,
                0,
            ),
            wf(final(self)@),
    {
        match outcome {
            Outcome::NoteTags(Ok(Some((id, existing)))) => {
                let merged_tags = merge_tags(existing, &tags, add);
                self.pending = Pending::TagWrite { title, add };
                Effect::WriteTags { id, tags: merged_tags }
            },
            Outcome::NoteTags(Ok(None)) => {
                self.set_status(lit("Note not found"));
                self.mode = Mode::Normal;
                Effect::Nothing
            },
            Outcome::NoteTags(Err(e)) => {
                self.set_status(cat("Error: ", e.as_str()));
                self.mode = Mode::Normal;
                Effect::Nothing
            },
            _ => Effect::Nothing,
        }
    }

    fn resume_tag_write(&mut self, title: String, add: bool, outcome: Outcome) -> (r: Effect)
        requires
            wf(old(self)@),
            old(self)@.pending is Idle,
        ensures
            (final(self)@, r@) == resume_step(AppView { pending: PendingView::TagWrite { title: title@, add }, ..old(self)@ }, outcome, 0),
            wf(final(self)@),
    {
        match outcome {
            Outcome::Refreshed(r) => {
                let done = if add {
                    cat3("Tags added to '", title.as_str(), "'")
                } else {
                    cat3("Tags removed from '", title.as_str(), "'")
                };
                self.finish_write(r, done);
                Effect::Nothing
            },
            _ => Effect::Nothing,
        }
    }

    /// Continues the awaited outside step with its outcome. `now` is the caller's
    /// clock in milliseconds.
    pub fn resume(&mut self, outcome: Outcome, now: u64) -> (r: Effect)
        requires
            wf(old(self)@),
        ensures
            (final(self)@, r@) == resume_step(old(self)@, outcome, now),
            wf(final(self)@),
    {
        let mut p = Pending::Idle;
        std::mem::swap(&mut p, &mut self.pending);
        match p {
            Pending::Idle => Effect::Nothing,
            Pending::PreviewSummary => self.resume_preview(outcome, now),
            Pending::EditorForNote { id, title, body } => self.resume_editor(id, title, body, outcome),
            Pending::SaveBody { title } => self.resume_save(title, outcome),
            Pending::CachedSummary { id, title, body } => self.resume_cached(id, title, body, outcome),
            Pending::Generation { id } => self.resume_generation(id, outcome),
            Pending::StoreSummary { text } => self.resume_store(text, outcome),
            Pending::TitleCheck { name } => self.resume_title(name, outcome),
            Pending::ComposeNote { name, tags } => self.resume_compose(name, tags, outcome),
            Pending::InsertNote { name } => self.resume_insert(name, outcome),
            Pending::TagLookup { title, tags, add } => self.resume_lookup(title, tags, add, outcome),
            Pending::TagWrite { title, add } => self.resume_tag_write(title, add, outcome),
        }
    }
}

} // verus!
