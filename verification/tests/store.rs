use idea::model::{Idea, Topic};
use idea::ids::next_id;
use idea::counts::{count_ideas_recursive, count_sub_topics_recursive, store_counts_fit, checked_count_ideas};
use idea::text::{id_path_string, decimal_string, parse_u64, contains_str, is_blank};
use idea::tree::{
    resolve_path, resolve_path_mut, remove_topic_at_path, rename_topic, edit_idea_in,
    delete_idea_from,
};
use idea::error::IdeaError;

fn idea(id: u64, text: &str) -> Idea {
    Idea { id, text: text.to_string() }
}

fn topic(id: u64, name: &str, ideas: Vec<Idea>, sub_topics: Vec<Topic>) -> Topic {
    Topic { id, name: name.to_string(), ideas, sub_topics }
}

/// Programming(1) > Rust(1) > WebDev(4), Guitar(2)
fn sample() -> Vec<Topic> {
    let webdev = topic(4, "WebDev", vec![idea(1, "look into async traits")], vec![]);
    let rust = topic(
        1,
        "Rust",
        vec![idea(1, "io_uring"), idea(3, "pin/unpin")],
        vec![webdev],
    );
    let programming = topic(1, "Programming", vec![], vec![rust]);
    let guitar = topic(2, "Guitar", vec![idea(1, "practice barre chords")], vec![]);
    vec![programming, guitar]
}

#[test]
fn next_id_is_one_above_the_highest_sibling() {
    let empty: Vec<Idea> = vec![];
    assert_eq!(next_id(empty.as_slice()), 1);
    let ideas = vec![idea(3, "a"), idea(1, "b")];
    assert_eq!(next_id(ideas.as_slice()), 4);
}

#[test]
fn counts_go_down_every_level() {
    let store = sample();
    assert_eq!(count_ideas_recursive(&store[0]), 3);
    assert_eq!(count_sub_topics_recursive(&store[0]), 2);
    assert_eq!(count_ideas_recursive(&store[1]), 1);
    assert_eq!(count_sub_topics_recursive(&store[1]), 0);
    assert_eq!(checked_count_ideas(&store[0]), Some(3));
    assert!(store_counts_fit(&store));
}

#[test]
fn id_chains_are_written_with_single_spaces() {
    assert_eq!(id_path_string(&[2, 4, 6]), "2 4 6");
    assert_eq!(id_path_string(&[17]), "17");
    assert_eq!(id_path_string(&[]), "");
    assert_eq!(decimal_string(0), "0");
    assert_eq!(decimal_string(u64::MAX), "18446744073709551615");
}

#[test]
fn numbers_read_like_the_standard_library() {
    assert_eq!(parse_u64("42"), Some(42));
    assert_eq!(parse_u64("+7"), Some(7));
    assert_eq!(parse_u64("007"), Some(7));
    assert_eq!(parse_u64(""), None);
    assert_eq!(parse_u64("+"), None);
    assert_eq!(parse_u64("-1"), None);
    assert_eq!(parse_u64("1a"), None);
    assert_eq!(parse_u64("18446744073709551615"), Some(u64::MAX));
    assert_eq!(parse_u64("18446744073709551616"), None);
    for n in [0u64, 1, 9, 10, 99, 1000, 123456789, u64::MAX] {
        assert_eq!(parse_u64(&decimal_string(n)), Some(n));
        assert_eq!(parse_u64(&decimal_string(n)), decimal_string(n).parse::<u64>().ok());
    }
}

#[test]
fn substring_and_blank_checks() {
    assert!(contains_str("look into io_uring", "io_u"));
    assert!(contains_str("abc", ""));
    assert!(!contains_str("abc", "abcd"));
    assert!(!contains_str("abc", "ac"));
    assert!(is_blank(""));
    assert!(is_blank(" \t\n\u{3000}"));
    assert!(!is_blank("  x "));
}

#[test]
fn resolve_walks_one_level_per_id() {
    let store = sample();
    assert_eq!(resolve_path(&store, &[1, 1, 4]).ok().unwrap().name, "WebDev");
    assert_eq!(resolve_path(&store, &[2]).ok().unwrap().name, "Guitar");
    match resolve_path(&store, &[]) {
        Err(e) => assert_eq!(e.message(), "Empty id path."),
        Ok(_) => panic!("expected an error"),
    }
    match resolve_path(&store, &[3]) {
        Err(e) => assert_eq!(e.message(), "No top-level topic found with id 3."),
        Ok(_) => panic!("expected an error"),
    }
    match resolve_path(&store, &[1, 4]) {
        Err(e) => {
            assert!(matches!(e, IdeaError::NoSubTopic { id: 4, sub_topic_count: 1, .. }));
            assert_eq!(e.message(), "Topic \"Programming\" has no sub-topic with id 4 (1 sub-topic(s)).");
        },
        Ok(_) => panic!("expected an error"),
    }
}

#[test]
fn a_change_through_a_path_is_read_back_there() {
    let mut store = sample();
    {
        let t = resolve_path_mut(&mut store, &[1, 1]).ok().unwrap();
        let old = rename_topic(t, "Rustlang");
        assert_eq!(old, "Rust");
    }
    assert_eq!(resolve_path(&store, &[1, 1]).ok().unwrap().name, "Rustlang");
    assert_eq!(resolve_path(&store, &[1, 1, 4]).ok().unwrap().name, "WebDev");
    assert!(resolve_path_mut(&mut store, &[9]).is_err());
}

#[test]
fn removing_takes_out_exactly_the_named_topic() {
    let mut store = sample();
    let removed = remove_topic_at_path(&mut store, &[1, 1, 4]).ok().unwrap();
    assert_eq!(removed.name, "WebDev");
    assert_eq!(store[0].sub_topics[0].sub_topics.len(), 0);
    let top = remove_topic_at_path(&mut store, &[1]).ok().unwrap();
    assert_eq!(top.name, "Programming");
    assert_eq!(store.len(), 1);
    assert_eq!(store[0].id, 2);
    match remove_topic_at_path(&mut store, &[2, 5]) {
        Err(e) => assert_eq!(e.message(), "Topic \"Guitar\" has no sub-topic with id 5 (0 sub-topic(s))."),
        Ok(_) => panic!("expected an error"),
    }
    assert!(remove_topic_at_path(&mut store, &[]).is_err());
}

#[test]
fn ideas_are_edited_and_deleted_by_their_own_id() {
    let mut store = sample();
    let rust = &mut store[0].sub_topics[0];
    let (name, old) = edit_idea_in(rust, 3, "understand pin").ok().unwrap();
    assert_eq!(name, "Rust");
    assert_eq!(old, "pin/unpin");
    assert_eq!(rust.ideas[1].text, "understand pin");
    assert_eq!(rust.ideas[1].id, 3);
    match edit_idea_in(rust, 2, "x") {
        Err(e) => assert_eq!(e.message(), "No idea found with id 2 in topic 'Rust' (2 idea(s))."),
        Ok(_) => panic!("expected an error"),
    }
    let (name, text) = delete_idea_from(rust, 1).ok().unwrap();
    assert_eq!(name, "Rust");
    assert_eq!(text, "io_uring");
    assert_eq!(rust.ideas.len(), 1);
    assert_eq!(rust.ideas[0].id, 3);
    assert!(delete_idea_from(rust, 1).is_err());
}
