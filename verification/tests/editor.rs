use string_tweaker::sentence::apply_join;
use string_tweaker::sentence::enter_question;
use string_tweaker::sentence::move_up;
use string_tweaker::sentence::apply_reorder;
use string_tweaker::sentence::revert_splits;
use string_tweaker::sentence::EditError;
use string_tweaker::sentence::Sentence;

fn words(s: &Sentence) -> Vec<String> {
    s.splits[s.current_split].clone()
}

#[test]
fn new_splits_on_whitespace() {
    let s = Sentence::new("ho theos agapa".to_string());
    assert_eq!(s.initial_sentence, "ho theos agapa");
    assert_eq!(s.splits.len(), 1);
    assert_eq!(words(&s), vec!["ho", "theos", "agapa"]);
    assert_eq!(s.current_split, 0);
    assert!(s.answers.is_empty());
    assert!(!s.completed);
}

#[test]
fn new_collapses_repeated_whitespace() {
    let s = Sentence::new("  ho \t theos\n agapa  ".to_string());
    assert_eq!(words(&s), vec!["ho", "theos", "agapa"]);
}

#[test]
fn join_merges_with_single_space() {
    let mut s = Sentence::new("ho theos agapa".to_string());
    assert!(apply_join(&mut s, 1).is_ok());
    assert_eq!(words(&s), vec!["ho", "theos agapa"]);
    assert_eq!(s.splits.len(), 2);
    assert_eq!(s.current_split, 1);
}

#[test]
fn join_then_revert_restores_active_sequence() {
    let mut s = Sentence::new("ho theos agapa".to_string());
    let before = words(&s);
    assert!(apply_join(&mut s, 1).is_ok());
    assert!(revert_splits(&mut s).is_ok());
    assert_eq!(words(&s), before);
    assert_eq!(s.splits.len(), 1);

    let mut t = Sentence::new("a b".to_string());
    let before_t = words(&t);
    assert!(apply_join(&mut t, 0).is_ok());
    assert!(revert_splits(&mut t).is_ok());
    assert_eq!(words(&t), before_t);
}

#[test]
fn join_and_reorder_scenario() {
    let mut s = Sentence::new("ho theos agapa".to_string());
    assert!(apply_join(&mut s, 1).is_ok());
    assert_eq!(words(&s), vec!["ho", "theos agapa"]);
    assert!(move_up(&mut s, 1).is_ok());
    assert_eq!(words(&s), vec!["theos agapa", "ho"]);
}

#[test]
fn move_round_trip_restores_order() {
    let mut s = Sentence::new("alpha beta gamma".to_string());
    let before = words(&s);
    assert!(move_up(&mut s, 1).is_ok());
    assert_eq!(words(&s), vec!["beta", "alpha", "gamma"]);
    assert!(apply_reorder(&mut s, 0).is_ok());
    assert_eq!(words(&s), before);

    // and in the other order
    assert!(apply_reorder(&mut s, 1).is_ok());
    assert_eq!(words(&s), vec!["alpha", "gamma", "beta"]);
    assert!(move_up(&mut s, 2).is_ok());
    assert_eq!(words(&s), before);
}

#[test]
fn revert_at_root_is_reported_noop() {
    let mut s = Sentence::new("a b".to_string());
    let before = words(&s);
    assert_eq!(revert_splits(&mut s), Err(EditError::NoSuchMove));
    assert_eq!(words(&s), before);
    assert_eq!(s.splits.len(), 1);
    // idempotent: reverting again reports the same no-op and changes nothing
    assert_eq!(revert_splits(&mut s), Err(EditError::NoSuchMove));
    assert_eq!(words(&s), before);
    assert_eq!(s.splits.len(), 1);
}

#[test]
fn join_boundary_and_invalid_index() {
    let mut s = Sentence::new("a b".to_string());
    assert_eq!(apply_join(&mut s, 1), Err(EditError::NoSuchMove));
    assert_eq!(apply_join(&mut s, 2), Err(EditError::InvalidIndex));
    assert_eq!(words(&s), vec!["a", "b"]);
    assert_eq!(s.splits.len(), 1);
}

#[test]
fn move_boundaries_and_invalid_indices() {
    let mut s = Sentence::new("a b".to_string());
    assert_eq!(move_up(&mut s, 0), Err(EditError::NoSuchMove));
    assert_eq!(move_up(&mut s, 2), Err(EditError::InvalidIndex));
    assert_eq!(apply_reorder(&mut s, 1), Err(EditError::NoSuchMove));
    assert_eq!(apply_reorder(&mut s, 2), Err(EditError::InvalidIndex));
    assert_eq!(words(&s), vec!["a", "b"]);
    assert_eq!(s.splits.len(), 1);
}

#[test]
fn empty_sentence_has_no_fragments() {
    let mut s = Sentence::new("".to_string());
    assert_eq!(s.splits.len(), 1);
    assert!(s.splits[0].is_empty());
    assert_eq!(apply_join(&mut s, 0), Err(EditError::InvalidIndex));
    assert_eq!(move_up(&mut s, 0), Err(EditError::NoSuchMove));
    assert_eq!(apply_reorder(&mut s, 0), Err(EditError::InvalidIndex));

    let ws = Sentence::new(" \t\n ".to_string());
    assert!(ws.splits[0].is_empty());
}

#[test]
fn enter_question_appends_to_bank() {
    let mut bank: Vec<Sentence> = Vec::new();
    enter_question(&mut bank, Sentence::new("one".to_string()));
    enter_question(&mut bank, Sentence::new("two words".to_string()));
    assert_eq!(bank.len(), 2);
    assert_eq!(bank[0].initial_sentence, "one");
    assert_eq!(bank[1].initial_sentence, "two words");
}

#[test]
fn active_split_and_is_completed() {
    let mut s = Sentence::new("a b c".to_string());
    assert_eq!(s.active_split().clone(), vec!["a", "b", "c"]);
    assert!(apply_join(&mut s, 0).is_ok());
    assert_eq!(s.active_split().clone(), vec!["a b", "c"]);
    assert!(!s.is_completed());
    s.completed = true;
    assert!(s.is_completed());
}
