use diarization::text::trim_white_space;
use diarization::turns::{
    assign_speaker_turns, group_word_turns, join_with_spaces, label_words, smooth_word_blips,
};

fn strings(v: &[&str]) -> Vec<String> {
    v.iter().map(|s| s.to_string()).collect()
}

#[test]
fn trim_removes_unicode_white_space() {
    assert_eq!(trim_white_space("  hello world \n"), "hello world");
    assert_eq!(trim_white_space("\u{3000}x\u{a0}"), "x");
    assert_eq!(trim_white_space("   "), "");
    assert_eq!(trim_white_space("a"), "a");
}

#[test]
fn join_uses_single_spaces() {
    assert_eq!(join_with_spaces(&strings(&["a", "b", "c"])), "a b c");
    assert_eq!(join_with_spaces(&strings(&[])), "");
}

#[test]
fn words_take_previous_label_between_segments() {
    let segs = strings(&["Speaker 1", "Speaker 2"]);
    let labels = label_words(&segs, &vec![None, Some(1), None, Some(0)]);
    assert_eq!(labels, strings(&["Speaker 1", "Speaker 2", "Speaker 2", "Speaker 1"]));
}

#[test]
fn blips_are_smoothed_left_to_right() {
    let labels = strings(&["A", "B", "A", "B", "A"]);
    let smoothed = smooth_word_blips(labels, &vec![true; 5]);
    assert_eq!(smoothed, strings(&["A", "A", "A", "A", "A"]));
    let labels = strings(&["A", "B", "A"]);
    let kept = smooth_word_blips(labels.clone(), &vec![false; 3]);
    assert_eq!(kept, labels);
}

#[test]
fn turns_cut_at_speaker_changes() {
    let words = strings(&["hi", "there", "hello", "again"]);
    let labels = strings(&["S1", "S1", "S2", "S1"]);
    let turns = group_word_turns(&words, &labels);
    assert_eq!(turns.len(), 3);
    assert_eq!(turns[0].speaker, "S1");
    assert_eq!(turns[0].text, "hi there");
    assert_eq!((turns[0].first_word, turns[0].last_word), (0, 1));
    assert_eq!(turns[1].text, "hello");
    assert_eq!((turns[2].first_word, turns[2].last_word), (3, 3));
}

#[test]
fn blank_turns_are_dropped() {
    let words = strings(&["one", " ", "two"]);
    let labels = strings(&["S1", "S2", "S1"]);
    let turns = group_word_turns(&words, &labels);
    assert_eq!(turns.len(), 2);
    assert_eq!(turns[0].text, "one");
    assert_eq!(turns[1].text, "two");
    assert_eq!(turns[1].first_word, 2);
}

#[test]
fn no_segments_make_one_turn() {
    let words = strings(&["a", "b"]);
    let turns = assign_speaker_turns(&words, &vec![], &vec![None, None], &vec![false, false]);
    assert_eq!(turns.len(), 1);
    assert_eq!(turns[0].speaker, "Speaker 1");
    assert_eq!(turns[0].text, "a b");
    assert_eq!((turns[0].first_word, turns[0].last_word), (0, 1));
}

#[test]
fn no_words_make_no_turns() {
    let turns = assign_speaker_turns(&vec![], &strings(&["Speaker 1"]), &vec![], &vec![]);
    assert!(turns.is_empty());
}

#[test]
fn full_assignment() {
    let words = strings(&["so", "yes", "we", "agree", "ok"]);
    let segs = strings(&["Speaker 1", "Speaker 2"]);
    let active = vec![Some(0), Some(1), Some(0), Some(0), Some(1)];
    let short = vec![false, true, false, false, false];
    let turns = assign_speaker_turns(&words, &segs, &active, &short);
    assert_eq!(turns.len(), 2);
    assert_eq!(turns[0].speaker, "Speaker 1");
    assert_eq!(turns[0].text, "so yes we agree");
    assert_eq!(turns[1].speaker, "Speaker 2");
    assert_eq!(turns[1].text, "ok");
}

#[test]
fn turns_partition_clean_words() {
    let words = strings(&["a", "b", "c", "d", "e", "f"]);
    let segs = strings(&["S1", "S2", "S3"]);
    let active = vec![Some(0), Some(0), Some(1), None, Some(2), Some(0)];
    let short = vec![false; 6];
    let turns = assign_speaker_turns(&words, &segs, &active, &short);
    assert_eq!(turns.len(), 4);
    assert_eq!(turns[0].first_word, 0);
    for k in 1..turns.len() {
        assert_eq!(turns[k].first_word, turns[k - 1].last_word + 1);
        assert_ne!(turns[k].speaker, turns[k - 1].speaker);
    }
    assert_eq!(turns[3].last_word, 5);
    assert_eq!(turns[1].text, "c d");
    assert_eq!(turns[1].speaker, "S2");
}

#[test]
fn speakers_come_from_segments() {
    let words = strings(&["x", "y", "z"]);
    let segs = strings(&["Alice", "Bob"]);
    let active = vec![None, Some(1), None];
    let turns = assign_speaker_turns(&words, &segs, &active, &vec![false; 3]);
    assert_eq!(turns.len(), 2);
    assert_eq!(turns[0].speaker, "Alice");
    assert_eq!(turns[1].speaker, "Bob");
    assert_eq!(turns[1].text, "y z");
    for t in &turns {
        assert!(segs.contains(&t.speaker));
    }
}
