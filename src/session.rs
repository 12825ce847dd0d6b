//! The interactive session: notes snapshot, filter state, selection cursors,
//! input buffers and the summary shown for the selected note.
use vstd::prelude::*;
use crate::complete::{complete_buffer, completed, cycle, cycled, suggest, suggestions, tag_names};
use crate::index::{
    all_indices, apply_filter, compute_tags, entries_view, facets, filter_indices, is_facets,
    covered_by, lemma_facet_tables_shrink,
    tag_total, NoteEntry, TagEntry,
};
use crate::text::{lemma_views_push, string_of, views_of};
use crate::version::{pieces, split_on};

verus! {

/// How key events are interpreted.
#[derive(Debug, Clone, Copy, PartialEq, Eq, Structural)]
pub enum Mode {
    Normal,
    Search,
    Command,
    AddNoteName,
    AddNoteTags,
    EditTagsAdd,
    EditTagsRemove,
    TagBrowse,
    VisualLine,
}

/// Which pane receives navigation keys.
#[derive(Debug, Clone, Copy, PartialEq, Eq, Structural)]
pub enum Focus {
    NoteList,
    TagPanel,
    Preview,
}

/// What the preview pane shows.
#[derive(Debug, Clone, Copy, PartialEq, Eq, Structural)]
pub enum PreviewTab {
    Note,
    Summary,
}

/// The outside step the session waits for, with what it needs to go on.
#[derive(Debug, Clone)]
pub enum Pending {
    Idle,
    PreviewSummary,
    EditorForNote { id: i64, title: String, body: String },
    SaveBody { title: String },
    CachedSummary { id: i64, title: String, body: String },
    Generation { id: i64 },
    StoreSummary { text: String },
    TitleCheck { name: String },
    ComposeNote { name: String, tags: Vec<String> },
    InsertNote { name: String },
    TagLookup { title: String, tags: Vec<String>, add: bool },
    TagWrite { title: String, add: bool },
}

pub enum PendingView {
    Idle,
    PreviewSummary,
    EditorForNote { id: i64, title: Seq<char>, body: Seq<char> },
    SaveBody { title: Seq<char> },
    CachedSummary { id: i64, title: Seq<char>, body: Seq<char> },
    Generation { id: i64 },
    StoreSummary { text: Seq<char> },
    TitleCheck { name: Seq<char> },
    ComposeNote { name: Seq<char>, tags: Seq<Seq<char>> },
    InsertNote { name: Seq<char> },
    TagLookup { title: Seq<char>, tags: Seq<Seq<char>>, add: bool },
    TagWrite { title: Seq<char>, add: bool },
}

impl View for Pending {
    type V = PendingView;

    open spec fn view(&self) -> PendingView {
        match self {
            Pending::Idle => PendingView::Idle,
            Pending::PreviewSummary => PendingView::PreviewSummary,
            Pending::EditorForNote { id, title, body } => PendingView::EditorForNote {
                id: *id,
                title: title@,
                body: body@,
            },
            Pending::SaveBody { title } => PendingView::SaveBody { title: title@ },
            Pending::CachedSummary { id, title, body } => PendingView::CachedSummary {
                id: *id,
                title: title@,
                body: body@,
            },
            Pending::Generation { id } => PendingView::Generation { id: *id },
            Pending::StoreSummary { text } => PendingView::StoreSummary { text: text@ },
            Pending::TitleCheck { name } => PendingView::TitleCheck { name: name@ },
            Pending::ComposeNote { name, tags } => PendingView::ComposeNote {
                name: name@,
                tags: views_of(tags@),
            },
            Pending::InsertNote { name } => PendingView::InsertNote { name: name@ },
            Pending::TagLookup { title, tags, add } => PendingView::TagLookup {
                title: title@,
                tags: views_of(tags@),
                add: *add,
            },
            Pending::TagWrite { title, add } => PendingView::TagWrite { title: title@, add: *add },
        }
    }
}

/// An outside action the session asks for. Each is answered by an [`Outcome`]
/// handed to `App::resume`.
#[derive(Debug, Clone)]
pub enum Effect {
    /// Nothing to do.
    Nothing,
    /// Read the stored summary of note `id`; answered by `Outcome::Summary`.
    LoadSummary { id: i64 },
    /// Open `body` in the editor, under a temporary name made from `title`;
    /// answered by `Outcome::Edited`.
    EditNote { title: String, body: String },
    /// Store `body` as the body of note `id`, mark its summary stale and list the
    /// notes again; answered by `Outcome::Refreshed`.
    SaveBody { id: i64, body: String },
    /// Read the stored summary of note `id`; answered by `Outcome::Summary`.
    FetchSummary { id: i64 },
    /// Ask the summarizer for a summary; answered by `Outcome::Generated`.
    Summarize { title: String, body: String },
    /// Store `text` as the fresh summary of note `id`; answered by `Outcome::Stored`.
    StoreSummary { id: i64, text: String },
    /// Look up a note titled `title`; answered by `Outcome::TitleTaken`.
    LookupTitle { title: String },
    /// Open an empty text in the editor for a new note titled `title`;
    /// answered by `Outcome::Edited`.
    ComposeNote { title: String },
    /// Insert a note and list the notes again; answered by `Outcome::Refreshed`.
    InsertNote { title: String, body: String, tags: Vec<String> },
    /// Read the id and tags of the note titled `title`; answered by `Outcome::NoteTags`.
    FetchTags { title: String },
    /// Store `tags` as the tags of note `id` and list the notes again;
    /// answered by `Outcome::Refreshed`.
    WriteTags { id: i64, tags: Vec<String> },
}

pub enum EffectView {
    Nothing,
    LoadSummary { id: i64 },
    EditNote { title: Seq<char>, body: Seq<char> },
    SaveBody { id: i64, body: Seq<char> },
    FetchSummary { id: i64 },
    Summarize { title: Seq<char>, body: Seq<char> },
    StoreSummary { id: i64, text: Seq<char> },
    LookupTitle { title: Seq<char> },
    ComposeNote { title: Seq<char> },
    InsertNote { title: Seq<char>, body: Seq<char>, tags: Seq<Seq<char>> },
    FetchTags { title: Seq<char> },
    WriteTags { id: i64, tags: Seq<Seq<char>> },
}

impl View for Effect {
    type V = EffectView;

    open spec fn view(&self) -> EffectView {
        match self {
            Effect::Nothing => EffectView::Nothing,
            Effect::LoadSummary { id } => EffectView::LoadSummary { id: *id },
            Effect::EditNote { title, body } => EffectView::EditNote { title: title@, body: body@ },
            Effect::SaveBody { id, body } => EffectView::SaveBody { id: *id, body: body@ },
            Effect::FetchSummary { id } => EffectView::FetchSummary { id: *id },
            Effect::Summarize { title, body } => EffectView::Summarize { title: title@, body: body@ },
            Effect::StoreSummary { id, text } => EffectView::StoreSummary { id: *id, text: text@ },
            Effect::LookupTitle { title } => EffectView::LookupTitle { title: title@ },
            Effect::ComposeNote { title } => EffectView::ComposeNote { title: title@ },
            Effect::InsertNote { title, body, tags } => EffectView::InsertNote {
                title: title@,
                body: body@,
                tags: views_of(tags@),
            },
            Effect::FetchTags { title } => EffectView::FetchTags { title: title@ },
            Effect::WriteTags { id, tags } => EffectView::WriteTags { id: *id, tags: views_of(tags@) },
        }
    }
}

/// What came back from an outside action.
#[derive(Debug)]
pub enum Outcome {
    /// A stored summary (its text and stale flag), if the note has one.
    Summary(Result<Option<(String, bool)>, String>),
    /// The text the editor returned.
    Edited(Result<String, String>),
    /// The text the summarizer returned.
    Generated(Result<String, String>),
    /// Whether the summary was stored.
    Stored(Result<(), String>),
    /// Whether a note with the looked-up title exists.
    TitleTaken(Result<bool, String>),
    /// The id and tags of the looked-up note, if it exists.
    NoteTags(Result<Option<(i64, Vec<String>)>, String>),
    /// The notes listed again after a write.
    Refreshed(Result<Vec<NoteEntry>, String>),
}

/// The session state.
pub struct App {
    pub notes: Vec<NoteEntry>,
    pub filtered_notes: Vec<usize>,
    pub selected: usize,
    pub mode: Mode,
    pub search_query: String,
    pub input_buffer: String,
    pub tags_buffer: String,
    pub status_message: Option<String>,
    pub should_quit: bool,
    pub focus: Focus,
    pub all_tags: Vec<TagEntry>,
    pub visible_tags: Vec<TagEntry>,
    pub selected_tag: usize,
    pub active_tag_filters: Vec<String>,
    pub showing_summary: bool,
    pub summary_content: Option<String>,
    pub summary_stale: bool,
    pub summary_force_regen: bool,
    pub preview_tab: PreviewTab,
    pub preview_scroll: u16,
    pub preview_content_height: u16,
    /// When the status message expires, in milliseconds of the caller's clock.
    pub status_expires: Option<u64>,
    pub pending_g: bool,
    pub tag_suggestions: Vec<String>,
    pub selected_suggestion: usize,
    pub preview_cursor: usize,
    pub visual_anchor: Option<usize>,
    pub yank_register: Option<String>,
    pub pending: Pending,
}

pub open spec fn opt_view(o: Option<String>) -> Option<Seq<char>> {
    match o {
        Some(s) => Some(s@),
        None => None,
    }
}

/// The session state in mathematical terms.
pub struct AppView {
    pub notes: Seq<NoteEntry>,
    pub filtered: Seq<usize>,
    pub selected: nat,
    pub mode: Mode,
    pub query: Seq<char>,
    pub input: Seq<char>,
    pub tags_input: Seq<char>,
    pub status: Option<Seq<char>>,
    pub should_quit: bool,
    pub focus: Focus,
    pub all_tags: Seq<(Seq<char>, nat)>,
    pub visible_tags: Seq<(Seq<char>, nat)>,
    pub selected_tag: nat,
    pub active: Seq<Seq<char>>,
    pub showing_summary: bool,
    pub summary: Option<Seq<char>>,
    pub summary_stale: bool,
    pub force_regen: bool,
    pub preview_tab: PreviewTab,
    pub preview_scroll: u16,
    pub preview_content_height: u16,
    pub status_expires: Option<u64>,
    pub pending_g: bool,
    pub suggestions: Seq<Seq<char>>,
    pub selected_suggestion: nat,
    pub preview_cursor: nat,
    pub visual_anchor: Option<usize>,
    pub yank_register: Option<Seq<char>>,
    pub pending: PendingView,
}

impl View for App {
    type V = AppView;

    open spec fn view(&self) -> AppView {
        AppView {
            notes: self.notes@,
            filtered: self.filtered_notes@,
            selected: self.selected as nat,
            mode: self.mode,
            query: self.search_query@,
            input: self.input_buffer@,
            tags_input: self.tags_buffer@,
            status: opt_view(self.status_message),
            should_quit: self.should_quit,
            focus: self.focus,
            all_tags: entries_view(self.all_tags@),
            visible_tags: entries_view(self.visible_tags@),
            selected_tag: self.selected_tag as nat,
            active: views_of(self.active_tag_filters@),
            showing_summary: self.showing_summary,
            summary: opt_view(self.summary_content),
            summary_stale: self.summary_stale,
            force_regen: self.summary_force_regen,
            preview_tab: self.preview_tab,
            preview_scroll: self.preview_scroll,
            preview_content_height: self.preview_content_height,
            status_expires: self.status_expires,
            pending_g: self.pending_g,
            suggestions: views_of(self.tag_suggestions@),
            selected_suggestion: self.selected_suggestion as nat,
            preview_cursor: self.preview_cursor as nat,
            visual_anchor: self.visual_anchor,
            yank_register: opt_view(self.yank_register),
            pending: self.pending@,
        }
    }
}

/// The session invariant: the filtered list, the two tag tables and the
/// cursors agree with the notes, the query and the active tag filters.
pub open spec fn wf(v: AppView) -> bool {
    &&& v.filtered == filter_indices(v.notes, v.query, v.active)
    &&& v.visible_tags == facets(v.notes, v.filtered)
    &&& v.all_tags == facets(v.notes, all_indices(v.notes.len()))
    &&& is_facets(v.visible_tags, v.notes, v.filtered)
    &&& is_facets(v.all_tags, v.notes, all_indices(v.notes.len()))
    &&& tag_total(v.notes, all_indices(v.notes.len())) <= usize::MAX
    &&& (v.selected < v.filtered.len() || (v.filtered.len() == 0 && v.selected == 0))
    &&& (v.selected_tag < v.visible_tags.len() || (v.visible_tags.len() == 0 && v.selected_tag == 0))
    &&& (v.selected_suggestion < v.suggestions.len() || v.selected_suggestion == 0)
}

/// `v` with the filtered list and visible tags recomputed and the cursors kept in range.
pub open spec fn refiltered(v: AppView) -> AppView {
    let f = filter_indices(v.notes, v.query, v.active);
    let vis = facets(v.notes, f);
    AppView {
        filtered: f,
        selected: if v.selected >= f.len() { 0 } else { v.selected },
        visible_tags: vis,
        selected_tag: if vis.len() == 0 {
            0
        } else if v.selected_tag >= vis.len() {
            (vis.len() - 1) as nat
        } else {
            v.selected_tag
        },
        ..v
    }
}

/// `v` with the notes snapshot replaced by `notes`.
pub open spec fn refreshed(v: AppView, notes: Seq<NoteEntry>) -> AppView {
    refiltered(AppView { notes, all_tags: facets(notes, all_indices(notes.len())), ..v })
}

/// The note under the selection cursor, if any.
pub open spec fn selected_entry(v: AppView) -> Option<NoteEntry> {
    if v.selected < v.filtered.len() && v.filtered[v.selected as int] < v.notes.len() {
        Some(v.notes[v.filtered[v.selected as int] as int])
    } else {
        None
    }
}

/// The lines of `s` as `str::lines` yields them: split at `\n`, a `\r` before
/// the `\n` removed, and no empty line after a final `\n`.
pub open spec fn text_lines(s: Seq<char>) -> Seq<Seq<char>> {
    let ps = pieces(s, '\n');
    let body = if ps.last().len() == 0 {
        ps.drop_last()
    } else {
        ps
    };
    Seq::new(
        body.len(),
        |i: int|
            if i < ps.len() - 1 && body[i].len() > 0 && body[i].last() == '\r' {
                body[i].drop_last()
            } else {
                body[i]
            },
    )
}

/// The text the preview shows: the summary on the summary tab when there is one,
/// else the body of the selected note.
pub open spec fn preview_text(v: AppView) -> Option<Seq<char>> {
    if v.preview_tab == PreviewTab::Summary && v.summary is Some {
        v.summary
    } else {
        match selected_entry(v) {
            Some(n) => Some(n.note@),
            None => None,
        }
    }
}

/// The session right after start with the notes `notes`.
pub open spec fn initial(notes: Seq<NoteEntry>) -> AppView {
    AppView {
        notes,
        filtered: all_indices(notes.len()),
        selected: 0,
        mode: Mode::Normal,
        query: Seq::empty(),
        input: Seq::empty(),
        tags_input: Seq::empty(),
        status: None,
        should_quit: false,
        focus: Focus::NoteList,
        all_tags: facets(notes, all_indices(notes.len())),
        visible_tags: facets(notes, all_indices(notes.len())),
        selected_tag: 0,
        active: Seq::empty(),
        showing_summary: false,
        summary: None,
        summary_stale: false,
        force_regen: false,
        preview_tab: PreviewTab::Note,
        preview_scroll: 0,
        preview_content_height: 0,
        status_expires: None,
        pending_g: false,
        suggestions: Seq::empty(),
        selected_suggestion: 0,
        preview_cursor: 0,
        visual_anchor: None,
        yank_register: None,
        pending: PendingView::Idle,
    }
}

/// The cursor `cur` moved by `delta` over `len` items (unchanged without items).
pub open spec fn moved(cur: nat, delta: int, len: nat) -> nat {
    if len == 0 {
        cur
    } else {
        cycled(cur as int, delta, len as int) as nat
    }
}

/// The lines of `s`, as `str::lines` yields them.
pub fn lines_of(s: &str) -> (r: Vec<String>)
    ensures
        views_of(r@) == text_lines(s@),
{
    let ps = split_on(s, '\n');
    let ghost pv = pieces(s@, '\n');
    let ghost tl = text_lines(s@);
    let n = ps.len();
    assert(n == pv.len() && n > 0);
    assert(ps@[n - 1]@ == pv.last());
    let m = if ps[n - 1].len() == 0 {
        n - 1
    } else {
        n
    };
    assert(m == tl.len());
    let mut r: Vec<String> = Vec::new();
    let mut i: usize = 0;
    while i < m
        invariant
            i <= m <= n,
            n == ps@.len(),
            m == tl.len(),
            tl == text_lines(s@),
            pv == pieces(s@, '\n'),
            pv.len() == n,
            forall|k: int| 0 <= k < n ==> #[trigger] ps@[k]@ == pv[k],
            views_of(r@) == tl.take(i as int),
        decreases m - i,
    {
        let piece = &ps[i];
        let k = piece.len();
        let line = if i < n - 1 && k > 0 && piece[k - 1] == '\r' {
            let mut cut: Vec<char> = Vec::new();
            let mut j: usize = 0;
            while j < k - 1
                invariant
                    j <= k - 1,
                    k == piece@.len(),
                    cut@ == piece@.take(j as int),
                decreases k - 1 - j,
            {
                cut.push(piece[j]);
                proof {
                    assert(piece@.take(j + 1) == piece@.take(j as int).push(piece@[j as int]));
                }
                j = j + 1;
            }
            assert(cut@ =~= piece@.drop_last());
            string_of(&cut)
        } else {
            string_of(piece)
        };
        proof {
            assert(line@ == tl[i as int]);
            lemma_views_push(r@, line);
            assert(tl.take(i + 1) =~= tl.take(i as int).push(tl[i as int]));
        }
        r.push(line);
        i = i + 1;
    }
    proof {
        assert(tl.take(m as int) =~= tl);
    }
    r
}

/// In every session state, each visible tag's count is at most its count over
/// all notes.
pub proof fn lemma_visible_counts_le_all(v: AppView)
    requires
        wf(v),
    ensures
        forall|i: int| 0 <= i < v.visible_tags.len() ==> covered_by(v.all_tags, #[trigger] v.visible_tags[i]),
{
    lemma_facet_tables_shrink(v.notes, v.query, v.active, v.visible_tags, v.all_tags);
}

impl App {
    /// A session over `notes`: all notes visible, nothing selected but the first.
    pub fn new(notes: Vec<NoteEntry>) -> (r: App)
        requires
            tag_total(notes@, all_indices(notes@.len())) <= usize::MAX,
        ensures
            r@ == initial(notes@),
            wf(r@),
    {
        let all = compute_tags(&notes);
        let query = String::new();
        let active: Vec<String> = Vec::new();
        let (filtered, visible) = apply_filter(&notes, query.as_str(), &active);
        let r = App {
            notes,
            filtered_notes: filtered,
            selected: 0,
            mode: Mode::Normal,
            search_query: query,
            input_buffer: String::new(),
            tags_buffer: String::new(),
            status_message: None,
            should_quit: false,
            focus: Focus::NoteList,
            all_tags: all,
            visible_tags: visible,
            selected_tag: 0,
            active_tag_filters: active,
            showing_summary: false,
            summary_content: None,
            summary_stale: false,
            summary_force_regen: false,
            preview_tab: PreviewTab::Note,
            preview_scroll: 0,
            preview_content_height: 0,
            status_expires: None,
            pending_g: false,
            tag_suggestions: Vec::new(),
            selected_suggestion: 0,
            preview_cursor: 0,
            visual_anchor: None,
            yank_register: None,
            pending: Pending::Idle,
        };
        proof {
            assert(views_of(r.active_tag_filters@) =~= Seq::<Seq<char>>::empty());
            assert(views_of(r.tag_suggestions@) =~= Seq::<Seq<char>>::empty());
            assert(r@ =~= initial(r.notes@));
        }
        r
    }

    /// The note under the selection cursor, if any.
    pub fn selected_note(&self) -> (r: Option<&NoteEntry>)
        ensures
            match r {
                Some(n) => selected_entry(self@) == Some(*n),
                None => selected_entry(self@) is None,
            },
    {
        if self.selected < self.filtered_notes.len() {
            let idx = self.filtered_notes[self.selected];
            if idx < self.notes.len() {
                return Some(&self.notes[idx]);
            }
        }
        None
    }

    /// Recomputes the filtered list and visible tags, keeping the cursors in range.
    pub fn apply_filter(&mut self)
        requires
            tag_total(old(self)@.notes, all_indices(old(self)@.notes.len())) <= usize::MAX,
        ensures
            final(self)@ == refiltered(old(self)@),
            old(self)@.query.len() == 0 && old(self)@.active.len() == 0 ==> final(self)@.filtered
                == all_indices(old(self)@.notes.len()),
            is_facets(final(self)@.visible_tags, final(self)@.notes, final(self)@.filtered),
    {
        let (idx, vis) = apply_filter(&self.notes, self.search_query.as_str(), &self.active_tag_filters);
        self.filtered_notes = idx;
        if self.selected >= self.filtered_notes.len() {
            self.selected = 0;
        }
        self.visible_tags = vis;
        if self.selected_tag >= self.visible_tags.len() && self.visible_tags.len() > 0 {
            self.selected_tag = self.visible_tags.len() - 1;
        } else if self.visible_tags.len() == 0 {
            self.selected_tag = 0;
        }
        proof {
            assert(entries_view(self.visible_tags@).len() == self.visible_tags@.len());
        }
    }

    /// Replaces the notes snapshot by `notes` (as listed again by storage).
    pub fn refresh_notes(&mut self, notes: Vec<NoteEntry>)
        requires
            tag_total(notes@, all_indices(notes@.len())) <= usize::MAX,
        ensures
            final(self)@ == refreshed(old(self)@, notes@),
            is_facets(final(self)@.visible_tags, final(self)@.notes, final(self)@.filtered),
            is_facets(final(self)@.all_tags, final(self)@.notes, all_indices(final(self)@.notes.len())),
    {
        self.all_tags = compute_tags(&notes);
        self.notes = notes;
        self.apply_filter();
    }

    /// Moves the selection cursor cyclically by `delta` through the visible notes.
    pub fn move_selection(&mut self, delta: i32)
        ensures
            final(self)@ == (AppView {
                selected: moved(old(self)@.selected, delta as int, old(self)@.filtered.len()),
                ..old(self)@
            }),
            old(self)@.filtered.len() > 0 ==> final(self).selected < final(self).filtered_notes@.len(),
            wf(old(self)@) && old(self)@.filtered.len() == 0 ==> final(self).selected == 0,
    {
        self.selected = cycle(self.selected, delta, self.filtered_notes.len());
    }

    /// Moves the tag cursor cyclically by `delta` through the visible tags.
    pub fn move_tag_selection(&mut self, delta: i32)
        ensures
            final(self)@ == (AppView {
                selected_tag: moved(old(self)@.selected_tag, delta as int, old(self)@.visible_tags.len()),
                ..old(self)@
            }),
    {
        proof {
            assert(entries_view(self.visible_tags@).len() == self.visible_tags@.len());
        }
        self.selected_tag = cycle(self.selected_tag, delta, self.visible_tags.len());
    }

    /// Recomputes the tag suggestions for the input `input`.
    pub fn update_tag_suggestions(&mut self, input: &str)
        ensures
            final(self)@.suggestions == suggestions(tag_names(old(self).all_tags@), input@),
            final(self)@.selected_suggestion == if old(self)@.selected_suggestion >= final(self)@.suggestions.len() {
                0
            } else {
                old(self)@.selected_suggestion
            },
            final(self)@ == (AppView {
                suggestions: final(self)@.suggestions,
                selected_suggestion: final(self)@.selected_suggestion,
                ..old(self)@
            }),
    {
        self.tag_suggestions = suggest(&self.all_tags, input);
        if self.selected_suggestion >= self.tag_suggestions.len() {
            self.selected_suggestion = 0;
        }
    }

    /// Accepts the suggestion under the cursor: the last word of `buffer` is
    /// replaced by it, and the suggestions are cleared. Without one nothing changes.
    pub fn accept_tag_suggestion(&mut self, buffer: &mut String)
        ensures
            old(self)@.selected_suggestion < old(self)@.suggestions.len() ==> {
                &&& final(buffer)@ == completed(old(buffer)@, old(self)@.suggestions[old(self)@.selected_suggestion as int])
                &&& final(self)@ == (AppView { suggestions: Seq::empty(), selected_suggestion: 0, ..old(self)@ })
            },
            old(self)@.selected_suggestion >= old(self)@.suggestions.len() ==> final(buffer)@ == old(buffer)@
                && final(self)@ == old(self)@,
    {
        if self.selected_suggestion < self.tag_suggestions.len() {
            let b = complete_buffer(buffer.as_str(), &self.tag_suggestions[self.selected_suggestion]);
            *buffer = b;
            self.tag_suggestions = Vec::new();
            self.selected_suggestion = 0;
            proof {
                assert(views_of(self.tag_suggestions@) =~= Seq::<Seq<char>>::empty());
            }
        }
    }

    /// Moves the suggestion cursor cyclically by `delta`.
    pub fn move_suggestion_selection(&mut self, delta: i32)
        ensures
            final(self)@ == (AppView {
                selected_suggestion: moved(old(self)@.selected_suggestion, delta as int, old(self)@.suggestions.len()),
                ..old(self)@
            }),
    {
        self.selected_suggestion = cycle(self.selected_suggestion, delta, self.tag_suggestions.len());
    }

    /// The raw markdown the preview shows.
    pub fn preview_raw_content(&self) -> (r: Option<String>)
        ensures
            opt_view(r) == preview_text(self@),
    {
        match self.preview_tab {
            PreviewTab::Summary => {
                if self.summary_content.is_some() {
                    return self.summary_content.clone();
                }
            },
            PreviewTab::Note => {},
        }
        match self.selected_note() {
            Some(n) => Some(n.note.clone()),
            None => None,
        }
    }

    /// The lines of the raw markdown the preview shows.
    pub fn preview_raw_lines(&self) -> (r: Vec<String>)
        ensures
            match preview_text(self@) {
                Some(t) => views_of(r@) == text_lines(t),
                None => r@.len() == 0,
            },
    {
        match self.preview_raw_content() {
            Some(c) => lines_of(c.as_str()),
            None => Vec::new(),
        }
    }

    /// Forgets the status message once its expiry time `now` has come.
    pub fn expire_status(&mut self, now: u64)
        ensures
            match old(self).status_expires {
                Some(t) => if now >= t {
                    final(self)@ == (AppView { status: None, status_expires: None, ..old(self)@ })
                } else {
                    final(self)@ == old(self)@
                },
                None => final(self)@ == old(self)@,
            },
    {
        match self.status_expires {
            Some(t) => {
                if now >= t {
                    self.status_message = None;
                    self.status_expires = None;
                }
            },
            None => {},
        }
    }
}

} // verus!
