//! The summary cache protocol: the stored summary of a note is absent, fresh or
//! stale; a stale one is shown with a warning until a forced regeneration.
use vstd::prelude::*;
use crate::text::{join_by, join_strings, lit, push_all};

verus! {

/// The stored summary of one note.
#[derive(Debug, Clone)]
pub enum SummaryState {
    Absent,
    CachedFresh(String),
    CachedStale(String),
}

/// A stored summary as its text.
pub enum CacheView {
    Absent,
    Fresh(Seq<char>),
    Stale(Seq<char>),
}

impl View for SummaryState {
    type V = CacheView;

    open spec fn view(&self) -> CacheView {
        match self {
            SummaryState::Absent => CacheView::Absent,
            SummaryState::CachedFresh(t) => CacheView::Fresh(t@),
            SummaryState::CachedStale(t) => CacheView::Stale(t@),
        }
    }
}

/// The stored record of a note's summary (its text and stale flag), as a state.
pub open spec fn record_state(rec: Option<(String, bool)>) -> CacheView {
    match rec {
        None => CacheView::Absent,
        Some((t, stale)) => if stale {
            CacheView::Stale(t@)
        } else {
            CacheView::Fresh(t@)
        },
    }
}

/// What a summarize action does for a stored summary.
#[derive(Debug, Clone)]
pub enum SummaryAction {
    /// Call the summarizer and store its text.
    Generate,
    /// Show the stored text.
    Show(String),
    /// Show the stored text with a warning that it is outdated, and arm the
    /// force flag for the next summarize action.
    ShowStale(String),
}

pub enum ActionView {
    Generate,
    Show(Seq<char>),
    ShowStale(Seq<char>),
}

impl View for SummaryAction {
    type V = ActionView;

    open spec fn view(&self) -> ActionView {
        match self {
            SummaryAction::Generate => ActionView::Generate,
            SummaryAction::Show(t) => ActionView::Show(t@),
            SummaryAction::ShowStale(t) => ActionView::ShowStale(t@),
        }
    }
}

/// The decision of a summarize action on stored state `s` with the force flag `force`.
pub open spec fn decision(s: CacheView, force: bool) -> ActionView {
    match s {
        CacheView::Absent => ActionView::Generate,
        CacheView::Fresh(t) => ActionView::Show(t),
        CacheView::Stale(t) => if force {
            ActionView::Generate
        } else {
            ActionView::ShowStale(t)
        },
    }
}

impl SummaryState {
    /// The state of a stored record (text and stale flag), or `Absent` without one.
    pub fn from_record(rec: Option<(String, bool)>) -> (r: SummaryState)
        ensures
            r@ == record_state(rec),
    {
        match rec {
            None => SummaryState::Absent,
            Some((t, stale)) => if stale {
                SummaryState::CachedStale(t)
            } else {
                SummaryState::CachedFresh(t)
            },
        }
    }

    /// What a summarize action does in this state.
    pub fn decide(self, force: bool) -> (r: SummaryAction)
        ensures
            r@ == decision(self@, force),
    {
        match self {
            SummaryState::Absent => SummaryAction::Generate,
            SummaryState::CachedFresh(t) => SummaryAction::Show(t),
            SummaryState::CachedStale(t) => if force {
                SummaryAction::Generate
            } else {
                SummaryAction::ShowStale(t)
            },
        }
    }
}

/// What can happen to a note's stored summary.
pub enum CacheEvent {
    /// The note's body was changed.
    BodyChanged,
    /// A summarize action ran with the given force flag.
    Summarized(bool),
    /// The summarizer failed.
    GenerationFailed,
    /// The summarizer returned this text and it was stored.
    Regenerated(Seq<char>),
}

/// The stored state after event `e`.
pub open spec fn on_event(s: CacheView, e: CacheEvent) -> CacheView {
    match e {
        CacheEvent::BodyChanged => match s {
            CacheView::Fresh(t) => CacheView::Stale(t),
            _ => s,
        },
        CacheEvent::Summarized(_) | CacheEvent::GenerationFailed => s,
        CacheEvent::Regenerated(t) => CacheView::Fresh(t),
    }
}

/// The stored state after the events `es`, in order.
pub open spec fn replay(s: CacheView, es: Seq<CacheEvent>) -> CacheView
    decreases es.len(),
{
    if es.len() == 0 {
        s
    } else {
        on_event(replay(s, es.drop_last()), es.last())
    }
}

/// Staleness is monotonic: a body change turns a fresh summary stale; a stale one
/// stays stale through any events without a successful regeneration, and a
/// summarize action regenerates it only when the force flag is armed.
pub proof fn lemma_staleness_monotonic(t: Seq<char>, es: Seq<CacheEvent>)
    ensures
        on_event(CacheView::Fresh(t), CacheEvent::BodyChanged) == CacheView::Stale(t),
        (forall|i: int| 0 <= i < es.len() ==> !(#[trigger] es[i] is Regenerated)) ==> replay(
            CacheView::Stale(t),
            es,
        ) == CacheView::Stale(t),
        decision(CacheView::Stale(t), false) == ActionView::ShowStale(t),
        decision(CacheView::Stale(t), true) == ActionView::Generate,
    decreases es.len(),
{
    if es.len() > 0 {
        let d = es.drop_last();
        assert forall|i: int| (forall|i: int| 0 <= i < es.len() ==> !(#[trigger] es[i] is Regenerated)) && 0 <= i < d.len() implies !(#[trigger] d[i] is Regenerated) by {
            assert(d[i] == es[i]);
        }
        lemma_staleness_monotonic(t, d);
        if forall|i: int| 0 <= i < es.len() ==> !(#[trigger] es[i] is Regenerated) {
            assert(!(es[es.len() - 1] is Regenerated));
        }
    }
}


/// The request text for summarizing the note `title` with body `body`.
pub open spec fn prompt_text(title: Seq<char>, body: Seq<char>) -> Seq<char> {
    "Summarize this note titled \""@ + title + "\":\n\n"@ + body
}

/// The request text sent to the summarizer for a note.
pub fn summary_prompt(title: &str, body: &str) -> (r: String)
    ensures
        r@ == prompt_text(title@, body@),
{
    let mut r = lit("Summarize this note titled \"");
    push_all(&mut r, title);
    push_all(&mut r, "\":\n\n");
    push_all(&mut r, body);
    r
}

/// The texts of the content blocks that have one, in order.
pub open spec fn block_texts(blocks: Seq<Option<String>>) -> Seq<Seq<char>>
    decreases blocks.len(),
{
    if blocks.len() == 0 {
        Seq::empty()
    } else {
        let prev = block_texts(blocks.drop_last());
        match blocks.last() {
            Some(t) => prev.push(t@),
            None => prev,
        }
    }
}

/// A summarizer response that holds no text.
#[derive(Debug, Clone, Copy, PartialEq, Eq, Structural)]
pub struct EmptySummary;

/// The summary in a response with content blocks `blocks`: their texts joined by
/// newlines; an empty summary is refused.
pub fn summary_from_blocks(blocks: &Vec<Option<String>>) -> (r: Result<String, EmptySummary>)
    ensures
        join_by(block_texts(blocks@), "\n"@).len() == 0 <==> r is Err,
        r matches Ok(s) ==> s@ == join_by(block_texts(blocks@), "\n"@),
{
    let mut texts: Vec<String> = Vec::new();
    let mut i: usize = 0;
    while i < blocks.len()
        invariant
            i <= blocks@.len(),
            crate::text::views_of(texts@) == block_texts(blocks@.take(i as int)),
        decreases blocks.len() - i,
    {
        proof {
            assert(blocks@.take(i + 1).drop_last() == blocks@.take(i as int));
            assert(blocks@.take(i + 1).last() == blocks@[i as int]);
        }
        match &blocks[i] {
            Some(t) => {
                let t2 = t.clone();
                proof {
                    crate::text::lemma_views_push(texts@, t2);
                }
                texts.push(t2);
            },
            None => {},
        }
        i = i + 1;
    }
    proof {
        assert(blocks@.take(blocks.len() as int) == blocks@);
    }
    let joined = join_strings(&texts, "\n");
    if crate::text::chars_of(joined.as_str()).len() == 0 {
        Err(EmptySummary)
    } else {
        Ok(joined)
    }
}

} // verus!
