use scrap::dispatch::{handle_key, merge_tags, Key};
use scrap::index::{apply_filter, compute_tags, NoteEntry};
use scrap::session::{App, Effect, Focus, Mode, Outcome, Pending, PreviewTab};

fn note(id: i64, title: &str, body: &str, tags: &[&str]) -> NoteEntry {
    NoteEntry {
        id,
        title: title.to_string(),
        note: body.to_string(),
        tags: tags.iter().map(|t| t.to_string()).collect(),
        updated_at: String::new(),
    }
}

fn facets(app: &App) -> Vec<(String, usize)> {
    app.visible_tags.iter().map(|t| (t.name.clone(), t.count)).collect()
}

fn type_keys(app: &mut App, s: &str) {
    for c in s.chars() {
        assert!(matches!(handle_key(app, Key::Char(c), 0), Effect::Nothing));
    }
}

#[test]
fn unfiltered_view_is_identity() {
    let notes = vec![note(1, "a", "", &["x"]), note(2, "b", "", &[]), note(3, "c", "", &["x"])];
    let (idx, tags) = apply_filter(&notes, "", &vec![]);
    assert_eq!(idx, vec![0, 1, 2]);
    assert_eq!(tags.len(), 1);
    assert_eq!(tags[0].count, 2);
}

#[test]
fn faceted_filter_scenario() {
    let notes = vec![note(1, "alpha", "", &["x", "y"]), note(2, "beta", "", &["y"])];
    let (idx, tags) = apply_filter(&notes, "", &vec!["y".to_string()]);
    assert_eq!(idx, vec![0, 1]);
    let f: Vec<(String, usize)> = tags.iter().map(|t| (t.name.clone(), t.count)).collect();
    assert_eq!(f, vec![("y".to_string(), 2), ("x".to_string(), 1)]);
}

#[test]
fn filtered_facet_counts_do_not_exceed_full_counts() {
    let notes = vec![
        note(1, "alpha", "", &["x", "y"]),
        note(2, "beta", "", &["y", "z"]),
        note(3, "Gamma", "needle", &["x"]),
    ];
    let full = compute_tags(&notes);
    let (idx, part) = apply_filter(&notes, "NEEDLE", &vec![]);
    assert_eq!(idx, vec![2]);
    for t in &part {
        let whole = full.iter().find(|f| f.name == t.name).unwrap();
        assert!(t.count <= whole.count);
    }
    let (idx, _) = apply_filter(&notes, "gam", &vec!["x".to_string()]);
    assert_eq!(idx, vec![2]);
    let (idx, _) = apply_filter(&notes, "Z", &vec![]);
    assert_eq!(idx, vec![1]);
}

#[test]
fn facets_break_ties_by_name() {
    let notes = vec![note(1, "a", "", &["b", "a", "c"]), note(2, "b", "", &["c"])];
    let tags = compute_tags(&notes);
    let f: Vec<(&str, usize)> = tags.iter().map(|t| (t.name.as_str(), t.count)).collect();
    assert_eq!(f, vec![("c", 2), ("a", 1), ("b", 1)]);
}

#[test]
fn selection_stays_in_range() {
    let mut app = App::new(vec![note(1, "a", "", &[]), note(2, "b", "", &[]), note(3, "c", "", &[])]);
    app.move_selection(-1);
    assert_eq!(app.selected, 2);
    app.move_selection(1);
    assert_eq!(app.selected, 0);
    app.move_selection(1_000_001);
    assert_eq!(app.selected, 2);
    let mut empty = App::new(vec![]);
    empty.move_selection(-5);
    assert_eq!(empty.selected, 0);
}

#[test]
fn search_narrows_and_escape_restores() {
    let mut app = App::new(vec![note(1, "alpha", "", &[]), note(2, "beta", "", &[])]);
    handle_key(&mut app, Key::Down, 0);
    assert_eq!(app.selected, 1);
    handle_key(&mut app, Key::Char('/'), 0);
    assert_eq!(app.mode, Mode::Search);
    type_keys(&mut app, "BET");
    assert_eq!(app.filtered_notes, vec![1]);
    assert_eq!(app.selected, 0);
    handle_key(&mut app, Key::Backspace, 0);
    assert_eq!(app.search_query, "BE");
    handle_key(&mut app, Key::Esc, 0);
    assert_eq!(app.mode, Mode::Normal);
    assert_eq!(app.filtered_notes, vec![0, 1]);
}

#[test]
fn tag_browse_toggles_filters() {
    let mut app = App::new(vec![note(1, "alpha", "", &["x", "y"]), note(2, "beta", "", &["y"])]);
    handle_key(&mut app, Key::Tab, 0);
    assert_eq!(app.mode, Mode::TagBrowse);
    assert_eq!(app.focus, Focus::TagPanel);
    assert_eq!(facets(&app)[0].0, "y");
    handle_key(&mut app, Key::Down, 0);
    handle_key(&mut app, Key::Enter, 0);
    assert_eq!(app.active_tag_filters, vec!["x"]);
    assert_eq!(app.filtered_notes, vec![0]);
    assert_eq!(app.status_message.as_deref(), Some("Filtered by: x"));
    handle_key(&mut app, Key::Esc, 0);
    assert!(app.active_tag_filters.is_empty());
    assert_eq!(app.filtered_notes, vec![0, 1]);
    assert_eq!(app.mode, Mode::Normal);
}

#[test]
fn stale_summary_protocol() {
    let mut app = App::new(vec![note(7, "n", "body", &[])]);
    handle_key(&mut app, Key::Char(':'), 0);
    let e = handle_key(&mut app, Key::Char('s'), 0);
    assert!(matches!(e, Effect::FetchSummary { id: 7 }));
    let e = app.resume(Outcome::Summary(Ok(Some(("S1".to_string(), true)))), 0);
    assert!(matches!(e, Effect::Nothing));
    assert_eq!(app.summary_content.as_deref(), Some("S1"));
    assert!(app.summary_stale);
    assert!(app.summary_force_regen);
    assert_eq!(app.status_message.as_deref(), Some("Summary may be outdated. Press :s again to regenerate."));
    handle_key(&mut app, Key::Char(':'), 0);
    let e = handle_key(&mut app, Key::Char('s'), 0);
    match e {
        Effect::Summarize { title, body } => {
            assert_eq!(title, "n");
            assert_eq!(body, "body");
        }
        other => panic!("unexpected {:?}", other),
    }
    let e = app.resume(Outcome::Generated(Ok("S2".to_string())), 0);
    assert!(matches!(e, Effect::StoreSummary { id: 7, ref text } if text == "S2"));
    app.resume(Outcome::Stored(Ok(())), 0);
    assert_eq!(app.summary_content.as_deref(), Some("S2"));
    assert!(!app.summary_stale);
    assert!(!app.summary_force_regen);
    assert_eq!(app.status_message, None);
    handle_key(&mut app, Key::Char(':'), 0);
    let e = handle_key(&mut app, Key::Char('s'), 0);
    assert!(matches!(e, Effect::FetchSummary { id: 7 }));
    app.resume(Outcome::Summary(Ok(Some(("S2".to_string(), false)))), 0);
    assert_eq!(app.summary_content.as_deref(), Some("S2"));
    assert_eq!(app.status_message, None);
    assert!(!app.summary_stale);
}

#[test]
fn summarizer_failure_keeps_state() {
    let mut app = App::new(vec![note(1, "n", "b", &[])]);
    handle_key(&mut app, Key::Char(':'), 0);
    handle_key(&mut app, Key::Char('s'), 0);
    let e = app.resume(Outcome::Summary(Ok(None)), 0);
    assert!(matches!(e, Effect::Summarize { .. }));
    app.resume(Outcome::Generated(Err("offline".to_string())), 0);
    assert_eq!(app.status_message.as_deref(), Some("Summary error: offline"));
    assert_eq!(app.summary_content, None);
    assert!(matches!(app.pending, Pending::Idle));
}

#[test]
fn editing_a_body_saves_and_clears_summary() {
    let mut app = App::new(vec![note(3, "n", "old", &[])]);
    app.showing_summary = true;
    app.summary_content = Some("S".to_string());
    handle_key(&mut app, Key::Char(':'), 0);
    let e = handle_key(&mut app, Key::Char('o'), 0);
    assert!(matches!(e, Effect::EditNote { ref title, ref body } if title == "n" && body == "old"));
    let e = app.resume(Outcome::Edited(Ok("new".to_string())), 0);
    assert!(matches!(e, Effect::SaveBody { id: 3, ref body } if body == "new"));
    app.resume(Outcome::Refreshed(Ok(vec![note(3, "n", "new", &[])])), 0);
    assert_eq!(app.notes[0].note, "new");
    assert_eq!(app.status_message.as_deref(), Some("Note 'n' updated"));
    assert!(!app.showing_summary);
    assert_eq!(app.summary_content, None);
}

#[test]
fn unchanged_edit_does_nothing() {
    let mut app = App::new(vec![note(3, "n", "same", &[])]);
    handle_key(&mut app, Key::Char(':'), 0);
    handle_key(&mut app, Key::Char('o'), 0);
    let e = app.resume(Outcome::Edited(Ok("same".to_string())), 0);
    assert!(matches!(e, Effect::Nothing));
    assert_eq!(app.status_message, None);
}

#[test]
fn add_rejects_path_separator() {
    let mut app = App::new(vec![]);
    handle_key(&mut app, Key::Char(':'), 0);
    handle_key(&mut app, Key::Char('a'), 0);
    assert_eq!(app.mode, Mode::AddNoteName);
    type_keys(&mut app, "a/b");
    let e = handle_key(&mut app, Key::Enter, 0);
    assert!(matches!(e, Effect::Nothing));
    assert_eq!(app.mode, Mode::AddNoteName);
    assert_eq!(app.status_message.as_deref(), Some("Invalid name: Note name cannot contain path separators."));
}

#[test]
fn add_note_flow() {
    let mut app = App::new(vec![]);
    handle_key(&mut app, Key::Char(':'), 0);
    handle_key(&mut app, Key::Char('a'), 0);
    type_keys(&mut app, "my note");
    let e = handle_key(&mut app, Key::Enter, 0);
    assert!(matches!(e, Effect::LookupTitle { ref title } if title == "my note"));
    app.resume(Outcome::TitleTaken(Ok(false)), 0);
    assert_eq!(app.mode, Mode::AddNoteTags);
    type_keys(&mut app, "work home");
    let e = handle_key(&mut app, Key::Enter, 0);
    assert!(matches!(e, Effect::ComposeNote { ref title } if title == "my note"));
    let e = app.resume(Outcome::Edited(Ok("text".to_string())), 0);
    match e {
        Effect::InsertNote { title, body, tags } => {
            assert_eq!(title, "my note");
            assert_eq!(body, "text");
            assert_eq!(tags, vec!["work", "home"]);
        }
        other => panic!("unexpected {:?}", other),
    }
    app.resume(Outcome::Refreshed(Ok(vec![note(1, "my note", "text", &["work", "home"])])), 0);
    assert_eq!(app.mode, Mode::Normal);
    assert_eq!(app.status_message.as_deref(), Some("Note 'my note' created"));
    assert_eq!(app.all_tags.len(), 2);
}

#[test]
fn duplicate_title_is_refused() {
    let mut app = App::new(vec![note(1, "x", "", &[])]);
    handle_key(&mut app, Key::Char(':'), 0);
    handle_key(&mut app, Key::Char('a'), 0);
    type_keys(&mut app, "x");
    handle_key(&mut app, Key::Enter, 0);
    app.resume(Outcome::TitleTaken(Ok(true)), 0);
    assert_eq!(app.mode, Mode::AddNoteName);
    assert_eq!(app.status_message.as_deref(), Some("Note 'x' already exists"));
}

#[test]
fn adding_a_tag_twice_keeps_one() {
    let once = merge_tags(vec!["a".to_string()], &vec!["work".to_string()], true);
    let twice = merge_tags(once.clone(), &vec!["work".to_string()], true);
    assert_eq!(once, vec!["a", "work"]);
    assert_eq!(twice, vec!["a", "work"]);
    let removed = merge_tags(twice, &vec!["a".to_string(), "zz".to_string()], false);
    assert_eq!(removed, vec!["work"]);
}

#[test]
fn edit_tags_flow() {
    let mut app = App::new(vec![note(4, "n", "", &["a"])]);
    handle_key(&mut app, Key::Char(':'), 0);
    handle_key(&mut app, Key::Char('t'), 0);
    assert_eq!(app.mode, Mode::EditTagsAdd);
    type_keys(&mut app, "work");
    let e = handle_key(&mut app, Key::Enter, 0);
    assert!(matches!(e, Effect::FetchTags { ref title } if title == "n"));
    let e = app.resume(Outcome::NoteTags(Ok(Some((4, vec!["a".to_string(), "work".to_string()])))), 0);
    assert!(matches!(e, Effect::WriteTags { id: 4, ref tags } if tags == &vec!["a".to_string(), "work".to_string()]));
    app.resume(Outcome::Refreshed(Ok(vec![note(4, "n", "", &["a", "work"])])), 0);
    assert_eq!(app.status_message.as_deref(), Some("Tags added to 'n'"));
    assert_eq!(app.mode, Mode::Normal);
}

#[test]
fn edit_tags_without_input() {
    let mut app = App::new(vec![note(4, "n", "", &[])]);
    handle_key(&mut app, Key::Char(':'), 0);
    handle_key(&mut app, Key::Char('t'), 0);
    handle_key(&mut app, Key::Tab, 0);
    assert_eq!(app.mode, Mode::EditTagsRemove);
    handle_key(&mut app, Key::Enter, 0);
    assert_eq!(app.status_message.as_deref(), Some("No tags provided"));
    assert_eq!(app.mode, Mode::Normal);
}

#[test]
fn preview_tab_without_summary() {
    let mut app = App::new(vec![note(9, "n", "line1\r\nline2\n", &[])]);
    handle_key(&mut app, Key::Tab, 0);
    handle_key(&mut app, Key::Tab, 0);
    assert_eq!(app.focus, Focus::Preview);
    let e = handle_key(&mut app, Key::Tab, 100);
    assert!(matches!(e, Effect::LoadSummary { id: 9 }));
    app.resume(Outcome::Summary(Ok(None)), 100);
    assert_eq!(app.status_message.as_deref(), Some("No summary available. Use :s to generate."));
    assert_eq!(app.status_expires, Some(3100));
    assert_eq!(app.focus, Focus::NoteList);
    assert_eq!(app.preview_raw_lines(), vec!["line1", "line2"]);
    app.expire_status(3100);
    assert_eq!(app.status_message, None);
}

#[test]
fn preview_tab_with_summary() {
    let mut app = App::new(vec![note(9, "n", "body", &[])]);
    app.focus = Focus::Preview;
    handle_key(&mut app, Key::Tab, 0);
    app.resume(Outcome::Summary(Ok(Some(("sum".to_string(), false)))), 0);
    assert_eq!(app.preview_tab, PreviewTab::Summary);
    assert_eq!(app.preview_raw_content().as_deref(), Some("sum"));
    handle_key(&mut app, Key::Tab, 0);
    assert_eq!(app.preview_tab, PreviewTab::Note);
    assert_eq!(app.focus, Focus::NoteList);
}

#[test]
fn suggestions_follow_input_and_accept() {
    let mut app = App::new(vec![note(1, "a", "", &["work", "web"]), note(2, "b", "", &["work"])]);
    app.update_tag_suggestions("home w");
    assert_eq!(app.tag_suggestions, vec!["work", "web"]);
    app.move_suggestion_selection(1);
    assert_eq!(app.selected_suggestion, 1);
    let mut buf = "home w".to_string();
    app.accept_tag_suggestion(&mut buf);
    assert_eq!(buf, "home web ");
    assert!(app.tag_suggestions.is_empty());
    app.update_tag_suggestions(&buf);
    assert!(app.tag_suggestions.is_empty());
    app.update_tag_suggestions("work w");
    assert_eq!(app.tag_suggestions, vec!["web"]);
}

#[test]
fn quit_key() {
    let mut app = App::new(vec![]);
    handle_key(&mut app, Key::Char('q'), 0);
    assert!(app.should_quit);
}

#[test]
fn summary_is_dropped_when_the_selection_moves() {
    let mut app = App::new(vec![note(1, "alpha", "", &[]), note(2, "beta", "", &[])]);
    app.showing_summary = true;
    app.summary_content = Some("about alpha".to_string());
    handle_key(&mut app, Key::Char('/'), 0);
    type_keys(&mut app, "alp");
    assert_eq!(app.filtered_notes, vec![0]);
    assert_eq!(app.summary_content.as_deref(), Some("about alpha"));
    for _ in 0..3 {
        handle_key(&mut app, Key::Backspace, 0);
    }
    type_keys(&mut app, "beta");
    assert_eq!(app.filtered_notes, vec![1]);
    assert_eq!(app.summary_content, None);
    assert!(!app.showing_summary);
}

#[test]
fn summary_is_dropped_when_a_tag_filter_moves_the_selection() {
    let mut app = App::new(vec![note(1, "alpha", "", &["x"]), note(2, "beta", "", &["y"])]);
    app.showing_summary = true;
    app.summary_content = Some("about alpha".to_string());
    app.summary_stale = true;
    app.summary_force_regen = true;
    handle_key(&mut app, Key::Tab, 0);
    assert_eq!(app.summary_content, None);
    app.showing_summary = true;
    app.summary_content = Some("about alpha".to_string());
    let y = app.visible_tags.iter().position(|t| t.name == "y").unwrap();
    app.selected_tag = y;
    handle_key(&mut app, Key::Enter, 0);
    assert_eq!(app.filtered_notes, vec![1]);
    assert_eq!(app.summary_content, None);
    assert!(!app.summary_force_regen);
}
