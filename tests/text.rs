use scrap::complete::{complete_buffer, cycle, suggest};
use scrap::index::TagEntry;
use scrap::store::{decode_tags, decode_tags_or_empty, encode_tags};
use scrap::summary::{summary_from_blocks, summary_prompt, SummaryAction, SummaryState};
use scrap::text::split_words;
use scrap::validate::{sanitize_filename, validate_name, validate_tags, NameError, TagError};

fn entries(names: &[&str]) -> Vec<TagEntry> {
    names.iter().map(|n| TagEntry { name: n.to_string(), count: 1 }).collect()
}

#[test]
fn name_rules() {
    assert_eq!(validate_name("my note"), Ok(()));
    assert_eq!(validate_name("   "), Err(NameError::Empty));
    assert_eq!(validate_name("a/b"), Err(NameError::PathSeparator));
    assert_eq!(validate_name("a\\b"), Err(NameError::PathSeparator));
    assert_eq!(validate_name(&"n".repeat(100)), Ok(()));
    assert_eq!(validate_name(&"n".repeat(101)), Err(NameError::TooLong));
    assert_eq!(validate_name("  padded  "), Ok(()));
    assert_eq!(NameError::PathSeparator.message(), "Note name cannot contain path separators.");
}

#[test]
fn tag_rules() {
    let ok = vec!["work".to_string(), "a-b".to_string()];
    assert_eq!(validate_tags(&ok), Ok(()));
    assert_eq!(validate_tags(&vec!["x".to_string(), " ".to_string()]), Err(TagError::Empty));
    let spaced = vec!["a b".to_string(), "".to_string()];
    assert_eq!(validate_tags(&spaced), Err(TagError::HasSpace("a b".to_string())));
    let long = "t".repeat(51);
    assert_eq!(validate_tags(&vec![long.clone()]), Err(TagError::TooLong(long.clone())));
    assert_eq!(validate_tags(&vec!["t".repeat(50)]), Ok(()));
    assert_eq!(TagError::HasSpace("a b".to_string()).message(), "Tag 'a b' cannot contain spaces.");
}

#[test]
fn temp_names_are_sanitized() {
    assert_eq!(sanitize_filename("a b/c"), "a_b_c");
    assert_eq!(sanitize_filename("ok-name_1"), "ok-name_1");
    assert_eq!(sanitize_filename("../x"), "___x");
    assert_eq!(sanitize_filename("été"), "été");
}

#[test]
fn words_split_on_white_space() {
    assert_eq!(split_words("  a  b\tc \n"), vec!["a", "b", "c"]);
    assert!(split_words("   ").is_empty());
}

#[test]
fn cycling_wraps_both_ways() {
    assert_eq!(cycle(0, -1, 3), 2);
    assert_eq!(cycle(2, 1, 3), 0);
    assert_eq!(cycle(1, 7, 3), 2);
    assert_eq!(cycle(0, -7, 3), 2);
    assert_eq!(cycle(0, i32::MIN, 5), 2);
    assert_eq!(cycle(4, 1, 0), 4);
}

#[test]
fn autocomplete_is_bounded_case_insensitive_and_skips_entered() {
    let tags = entries(&["Work", "web", "wiki", "world", "wow", "wax", "walk", "home"]);
    let s = suggest(&tags, "w");
    assert_eq!(s, vec!["Work", "web", "wiki", "world", "wow"]);
    let s = suggest(&tags, "web W");
    assert_eq!(s, vec!["Work", "wiki", "world", "wow", "wax"]);
    assert!(!s.contains(&"web".to_string()));
    assert!(suggest(&tags, "").is_empty());
    assert!(suggest(&tags, "home ").is_empty());
    assert!(suggest(&tags, "  ").is_empty());
    assert_eq!(suggest(&tags, "HO"), vec!["home"]);
}

#[test]
fn accepting_replaces_only_the_last_word() {
    assert_eq!(complete_buffer("alpha wo", &"work".to_string()), "alpha work ");
    assert_eq!(complete_buffer("wo", &"work".to_string()), "work ");
    assert_eq!(complete_buffer("a  b   c", &"cat".to_string()), "a b cat ");
}

#[test]
fn tag_column_round_trip() {
    let tags = vec!["a".to_string(), "b \"q\"".to_string()];
    let text = encode_tags(&tags);
    assert_eq!(text, "[\"a\",\"b \\\"q\\\"\"]");
    assert_eq!(decode_tags(&text).unwrap(), tags);
    assert!(decode_tags("not json").is_err());
    assert!(decode_tags_or_empty("{}").is_empty());
    assert_eq!(decode_tags_or_empty("[\"x\"]"), vec!["x"]);
}

#[test]
fn summary_request_and_response() {
    assert_eq!(summary_prompt("T", "body"), "Summarize this note titled \"T\":\n\nbody");
    let blocks = vec![Some("one".to_string()), None, Some("two".to_string())];
    assert_eq!(summary_from_blocks(&blocks).unwrap(), "one\ntwo");
    assert!(summary_from_blocks(&vec![None]).is_err());
    assert!(summary_from_blocks(&vec![Some(String::new())]).is_err());
}

#[test]
fn summary_cache_decisions() {
    assert!(matches!(SummaryState::from_record(None).decide(false), SummaryAction::Generate));
    let fresh = SummaryState::from_record(Some(("S".to_string(), false)));
    assert!(matches!(fresh.decide(false), SummaryAction::Show(t) if t == "S"));
    let stale = SummaryState::from_record(Some(("S".to_string(), true)));
    assert!(matches!(stale.decide(false), SummaryAction::ShowStale(t) if t == "S"));
    let stale = SummaryState::from_record(Some(("S".to_string(), true)));
    assert!(matches!(stale.decide(true), SummaryAction::Generate));
}

#[test]
fn completed_words_are_not_offered_again() {
    let tags = entries(&["work", "web"]);
    assert!(suggest(&tags, "work ").is_empty());
    assert!(suggest(&tags, "work\t").is_empty());
    assert_eq!(suggest(&tags, "work w"), vec!["web"]);
    assert_eq!(suggest(&tags, "wo"), vec!["work"]);
    assert_eq!(suggest(&tags, "WO"), suggest(&tags, "wo"));
}
