use idea::model::{Idea, Topic};
use idea::chain::{add_topic_chain, add_idea, parse_all_ids, ChainEvent, chain_fits_check, add_idea_fits_check};
use idea::report::{matches_topic_selector, search_ideas, search_all, list_ideas};
use idea::defrag::defrag;
use idea::command::{parse_command, parse_id, parse_id_path, Command, CommandError, Usage};
use idea::flow::{
    run_delete, delete_topic_at, plan_edit, accept_edit, rename_topic_at, edit_idea_at,
    DeleteOutcome, EditTarget, is_yes, edited_message, renamed_message,
};
use idea::legacy::{load_legacy, LegacyError};
use idea::tree::resolve_path;
use idea::text::{id_path_string, trim};

fn idea(id: u64, text: &str) -> Idea {
    Idea { id, text: text.to_string() }
}

fn topic(id: u64, name: &str, ideas: Vec<Idea>, sub_topics: Vec<Topic>) -> Topic {
    Topic { id, name: name.to_string(), ideas, sub_topics }
}

fn strings(v: &[&str]) -> Vec<String> {
    v.iter().map(|s| s.to_string()).collect()
}

fn sample() -> Vec<Topic> {
    let webdev = topic(4, "WebDev", vec![idea(1, "look into async traits")], vec![]);
    let rust = topic(1, "Rust", vec![idea(1, "io_uring"), idea(3, "pin/unpin")], vec![webdev]);
    let programming = topic(1, "Programming", vec![], vec![rust]);
    let guitar = topic(2, "Guitar", vec![idea(1, "practice barre chords")], vec![]);
    vec![programming, guitar]
}

#[test]
fn add_topic_creates_missing_names_under_existing_ones() {
    let mut store = sample();
    let events = add_topic_chain(&mut store, &strings(&["Programming", "Go", "Web"]));
    let lines: Vec<String> = events.iter().map(|e| e.message()).collect();
    assert_eq!(lines, vec![
        "Found existing topic \"Programming\" (id 1).",
        "Created sub-topic \"Go\" (id 2).",
        "Created sub-topic \"Web\" (id 1).",
    ]);
    assert_eq!(resolve_path(&store, &[1, 2, 1]).ok().unwrap().name, "Web");
    let events = add_topic_chain(&mut store, &strings(&["Music"]));
    assert_eq!(events[0].message(), "Created topic \"Music\" (id 3).");
}

#[test]
fn add_topic_again_only_finds() {
    let mut store = sample();
    add_topic_chain(&mut store, &strings(&["A", "B"]));
    let count = store.len();
    let events = add_topic_chain(&mut store, &strings(&["A", "B"]));
    assert_eq!(store.len(), count);
    assert!(events.iter().all(|e| matches!(e, ChainEvent::Found { .. })));
    assert_eq!(store[2].sub_topics.len(), 1);
}

#[test]
fn ideas_go_under_names_or_id_chains() {
    let mut store = sample();
    let events = add_idea(&mut store, &strings(&["1", "1"]), "look into async traits");
    assert!(events.is_empty());
    let rust = resolve_path(&store, &[1, 1]).ok().unwrap();
    assert_eq!(rust.ideas.last().unwrap().id, 4);
    assert_eq!(rust.ideas.last().unwrap().text, "look into async traits");

    let events = add_idea(&mut store, &strings(&["no topic"]), "defrost the freezer");
    assert_eq!(events.len(), 1);
    assert_eq!(store[2].name, "no topic");
    assert_eq!(store[2].id, 3);
    assert_eq!(store[2].ideas[0].id, 1);

    // an id chain that does not resolve is taken as names
    add_idea(&mut store, &strings(&["7"]), "seven");
    assert_eq!(store[3].name, "7");
    assert_eq!(store[3].ideas[0].text, "seven");
}

#[test]
fn adding_never_shifts_existing_ids() {
    let mut store = sample();
    add_idea(&mut store, &strings(&["Guitar", "Scales"]), "pentatonic");
    add_topic_chain(&mut store, &strings(&["Programming", "Rust", "Embedded"]));
    assert_eq!(resolve_path(&store, &[1, 1, 4]).ok().unwrap().name, "WebDev");
    assert_eq!(resolve_path(&store, &[2]).ok().unwrap().ideas[0].text, "practice barre chords");
    assert_eq!(resolve_path(&store, &[1, 1, 5]).ok().unwrap().name, "Embedded");
}

#[test]
fn id_room_is_checked_before_filing() {
    let mut store = sample();
    store[1].ideas.push(idea(u64::MAX, "last"));
    assert!(!add_idea_fits_check(&store, &strings(&["2"])));
    assert!(add_idea_fits_check(&store, &strings(&["1"])));
    store.push(topic(u64::MAX, "Full", vec![], vec![]));
    assert!(!chain_fits_check(&store, &strings(&["New"])));
    assert!(chain_fits_check(&store, &strings(&["Guitar"])));
}

#[test]
fn id_lists_need_positive_integers() {
    assert_eq!(parse_all_ids(&strings(&["2", "1"])), Some(vec![2, 1]));
    assert_eq!(parse_all_ids(&strings(&["2", "0"])), None);
    assert_eq!(parse_all_ids(&strings(&["x"])), None);
    assert_eq!(parse_id("5").ok(), Some(5));
    match parse_id("0") {
        Err(e) => assert_eq!(e.message(), "id must be a positive integer (got '0')."),
        Ok(_) => panic!("expected an error"),
    }
    match parse_id_path(&strings(&["1", "b", "c"])) {
        Err(e) => assert_eq!(e.message(), "id must be a positive integer (got 'b')."),
        Ok(_) => panic!("expected an error"),
    }
}

#[test]
fn selectors_match_ids_everything_or_names() {
    let store = sample();
    assert!(matches_topic_selector("0", &store[0]));
    assert!(matches_topic_selector("2", &store[1]));
    assert!(!matches_topic_selector("2", &store[0]));
    assert!(matches_topic_selector("GUI", &store[1]));
    assert!(matches_topic_selector("ramm", &store[0]));
    assert!(!matches_topic_selector("rust", &store[0]));
}

#[test]
fn search_with_selector_and_filter() {
    let store = sample();
    let hits = search_ideas(&store, "rust", Some("IO"));
    assert_eq!(hits.len(), 1);
    assert_eq!(hits[0].path, vec![1, 1]);
    assert_eq!(hits[0].ideas.len(), 1);
    assert_eq!(hits[0].ideas[0].text, "io_uring");
    // a matching topic passes the match on to its sub-topics
    let hits = search_ideas(&store, "1", Some("a"));
    let paths: Vec<Vec<u64>> = hits.iter().map(|h| h.path.clone()).collect();
    assert_eq!(paths, vec![vec![1, 1, 4]]);
    let hits = search_ideas(&store, "2", Some("a"));
    assert_eq!(hits.len(), 1);
    assert_eq!(hits[0].path, vec![2]);
    let hits = search_ideas(&store, "0", Some("I"));
    let paths: Vec<Vec<u64>> = hits.iter().map(|h| h.path.clone()).collect();
    assert_eq!(paths, vec![vec![1, 1], vec![1, 1, 4], vec![2]]);
    let hits = search_ideas(&store, "nothing", Some("a"));
    assert!(hits.is_empty());
}

#[test]
fn search_all_lists_matching_topics_and_ideas() {
    let store = sample();
    let hits = search_all(&store, "rust");
    assert_eq!(hits.len(), 2);
    assert_eq!(hits[0].name, "Rust");
    assert_eq!(hits[0].ideas.len(), 2);
    assert_eq!(hits[1].name, "WebDev");
    let hits = search_all(&store, "barre");
    assert_eq!(hits.len(), 1);
    assert_eq!(hits[0].path, vec![2]);
}

#[test]
fn list_shows_every_topic_depth_first() {
    let store = sample();
    let blocks = list_ideas(&store);
    let paths: Vec<Vec<u64>> = blocks.iter().map(|b| b.path.clone()).collect();
    assert_eq!(paths, vec![vec![1], vec![1, 1], vec![1, 1, 4], vec![2]]);
    assert_eq!(blocks[0].ideas.len(), 0);
    assert!(list_ideas(&Vec::new()).is_empty());
}

#[test]
fn defrag_closes_gaps_and_keeps_order() {
    let mut store = vec![
        topic(5, "E", vec![idea(9, "x"), idea(2, "y")], vec![]),
        topic(3, "C", vec![], vec![topic(7, "S", vec![], vec![]), topic(4, "T", vec![], vec![])]),
    ];
    defrag(&mut store);
    assert_eq!(store[0].name, "C");
    assert_eq!(store[0].id, 1);
    assert_eq!(store[1].name, "E");
    assert_eq!(store[1].id, 2);
    assert_eq!(store[1].ideas[0].text, "y");
    assert_eq!(store[1].ideas[0].id, 1);
    assert_eq!(store[1].ideas[1].id, 2);
    assert_eq!(store[0].sub_topics[0].name, "T");
    assert_eq!(store[0].sub_topics[1].id, 2);
    let names: Vec<String> = store.iter().map(|t| t.name.clone()).collect();
    defrag(&mut store);
    let again: Vec<String> = store.iter().map(|t| t.name.clone()).collect();
    assert_eq!(names, again);
    assert_eq!(store[1].ideas[1].text, "x");
}

#[test]
fn defrag_keeps_equal_ids_in_order() {
    let mut store = vec![
        topic(2, "first", vec![], vec![]),
        topic(1, "one", vec![], vec![]),
        topic(2, "second", vec![], vec![]),
    ];
    defrag(&mut store);
    let names: Vec<&str> = store.iter().map(|t| t.name.as_str()).collect();
    assert_eq!(names, vec!["one", "first", "second"]);
}

#[test]
fn command_line_forms() {
    assert!(matches!(parse_command(&strings(&["idea"])), Err(CommandError::NoArguments)));
    assert!(matches!(parse_command(&strings(&["idea", "list"])), Ok(Command::List)));
    assert!(matches!(parse_command(&strings(&["idea", "defrag"])), Ok(Command::Defrag)));
    match parse_command(&strings(&["idea", "search", "rust"])) {
        Ok(Command::SearchAll { query }) => assert_eq!(query, "rust"),
        _ => panic!("expected a search"),
    }
    match parse_command(&strings(&["idea", "search", "1", "io"])) {
        Ok(Command::Search { selector, query }) => {
            assert_eq!(selector, "1");
            assert_eq!(query, "io");
        },
        _ => panic!("expected a search"),
    }
    assert!(matches!(
        parse_command(&strings(&["idea", "search"])),
        Err(CommandError::InvalidUsage(Usage::Search))
    ));
    assert!(matches!(
        parse_command(&strings(&["idea", "edit"])),
        Err(CommandError::InvalidUsage(Usage::Edit))
    ));
    match parse_command(&strings(&["idea", "delete", "2", "4"])) {
        Ok(Command::Delete { ids }) => assert_eq!(ids, vec![2, 4]),
        _ => panic!("expected a delete"),
    }
    match parse_command(&strings(&["idea", "edit", "2", "x"])) {
        Err(CommandError::BadId(e)) => {
            assert_eq!(e.message(), "id must be a positive integer (got 'x').")
        },
        _ => panic!("expected a bad id"),
    }
    match parse_command(&strings(&["idea", "remember the milk"])) {
        Ok(Command::AddIdea { topic_path, text }) => {
            assert_eq!(topic_path, vec!["no topic".to_string()]);
            assert_eq!(text, "remember the milk");
        },
        _ => panic!("expected an idea"),
    }
    match parse_command(&strings(&["idea", "list", "extra"])) {
        Ok(Command::AddIdea { topic_path, text }) => {
            assert_eq!(topic_path, vec!["list".to_string()]);
            assert_eq!(text, "extra");
        },
        _ => panic!("expected an idea"),
    }
    match parse_command(&strings(&["idea", "add-topic", "A", "B"])) {
        Ok(Command::AddTopic { names }) => assert_eq!(names, strings(&["A", "B"])),
        _ => panic!("expected add-topic"),
    }
}

#[test]
fn delete_prefers_the_idea_then_the_sub_topic() {
    let mut store = sample();
    store[0].sub_topics[0].ideas.push(idea(4, "same id as WebDev"));
    match run_delete(&mut store, &[1, 1, 4]) {
        Ok(DeleteOutcome::IdeaDeleted { idea_id, topic_name, idea_text }) => {
            assert_eq!(idea_id, 4);
            assert_eq!(topic_name, "Rust");
            assert_eq!(idea_text, "same id as WebDev");
        },
        _ => panic!("expected the idea to go"),
    }
    match run_delete(&mut store, &[1, 1, 4]) {
        Ok(DeleteOutcome::NeedsConfirmation { name, idea_count, sub_topic_count }) => {
            assert_eq!(name, "WebDev");
            assert_eq!(idea_count, 1);
            assert_eq!(sub_topic_count, 0);
        },
        _ => panic!("expected a confirmation"),
    }
    assert!(resolve_path(&store, &[1, 1, 4]).is_ok());
    match delete_topic_at(&mut store, &[1, 1, 4]) {
        Ok(DeleteOutcome::TopicDeleted { name, idea_count, sub_topic_count }) => {
            assert_eq!(name, "WebDev");
            assert_eq!(idea_count, 1);
            assert_eq!(sub_topic_count, 0);
        },
        _ => panic!("expected the topic to go"),
    }
    assert!(resolve_path(&store, &[1, 1, 4]).is_err());
}

#[test]
fn empty_topics_go_at_once() {
    let mut store = sample();
    store.push(topic(3, "Empty", vec![], vec![]));
    match run_delete(&mut store, &[3]) {
        Ok(DeleteOutcome::TopicDeleted { name, idea_count, sub_topic_count }) => {
            assert_eq!(name, "Empty");
            assert_eq!((idea_count, sub_topic_count), (0, 0));
        },
        _ => panic!("expected the topic to go"),
    }
    assert_eq!(store.len(), 2);
    match run_delete(&mut store, &[1]) {
        Ok(DeleteOutcome::NeedsConfirmation { idea_count, sub_topic_count, .. }) => {
            assert_eq!((idea_count, sub_topic_count), (3, 2));
        },
        _ => panic!("expected a confirmation"),
    }
    match run_delete(&mut store, &[2, 9]) {
        Err(e) => assert_eq!(
            e.message(),
            "No idea and no sub-topic found with id 9 in topic 'Guitar' (1 idea(s), 0 sub-topic(s))."
        ),
        Ok(_) => panic!("expected an error"),
    }
    match run_delete(&mut store, &[5, 1]) {
        Err(e) => assert_eq!(e.message(), "No top-level topic found with id 5."),
        Ok(_) => panic!("expected an error"),
    }
}

#[test]
fn edit_targets_ideas_before_sub_topics() {
    let mut store = sample();
    match plan_edit(&store, &[1, 1, 3]) {
        Ok(EditTarget::Idea { current_text }) => assert_eq!(current_text, "pin/unpin"),
        _ => panic!("expected an idea"),
    }
    match plan_edit(&store, &[1, 1, 4]) {
        Ok(EditTarget::Topic { current_name }) => assert_eq!(current_name, "WebDev"),
        _ => panic!("expected a topic"),
    }
    match plan_edit(&store, &[2]) {
        Ok(EditTarget::Topic { current_name }) => assert_eq!(current_name, "Guitar"),
        _ => panic!("expected a topic"),
    }
    assert!(plan_edit(&store, &[2, 2]).is_err());
    assert_eq!(accept_edit(Some("   ".to_string())), None);
    assert_eq!(accept_edit(None), None);
    assert_eq!(accept_edit(Some(" new ".to_string())), Some(" new ".to_string()));
    let (topic_name, old_text) = edit_idea_at(&mut store, &[1, 1], 3, "understand pin").ok().unwrap();
    assert_eq!((topic_name.as_str(), old_text.as_str()), ("Rust", "pin/unpin"));
    let old = rename_topic_at(&mut store, &[1, 1, 4], "Web").ok().unwrap();
    assert_eq!(old, "WebDev");
    assert_eq!(resolve_path(&store, &[1, 1, 4]).ok().unwrap().name, "Web");
    assert_eq!(resolve_path(&store, &[1, 1]).ok().unwrap().ideas[1].text, "understand pin");
}

#[test]
fn old_files_are_migrated_in_key_order() {
    let store = load_legacy("{\"Rust\": [\"a\", 3, \"b\"], \"Guitar\": \"x\"}").ok().unwrap();
    assert_eq!(store.len(), 2);
    assert_eq!(store[0].name, "Guitar");
    assert_eq!(store[0].id, 1);
    assert!(store[0].ideas.is_empty());
    assert_eq!(store[1].name, "Rust");
    assert_eq!(store[1].id, 2);
    assert_eq!(store[1].ideas.len(), 2);
    assert_eq!(store[1].ideas[1].id, 2);
    assert_eq!(store[1].ideas[1].text, "b");
    assert!(matches!(load_legacy("not json"), Err(LegacyError::NotJson)));
    assert!(matches!(load_legacy("[1, 2]"), Err(LegacyError::UnknownFormat)));
    assert!(load_legacy("{}").ok().unwrap().is_empty());
}

#[test]
fn printed_id_chains_read_back() {
    for chain in [vec![2u64, 4, 6], vec![1], vec![u64::MAX, 10, 1]] {
        let text = id_path_string(&chain);
        let words: Vec<String> = text.split(' ').map(|w| w.to_string()).collect();
        assert_eq!(parse_id_path(&words).ok().unwrap(), chain);
    }
}

#[test]
fn printed_id_chains_split_at_spaces_read_back() {
    for chain in [vec![2u64, 4, 6], vec![1], vec![10, 200, 3000, 1]] {
        let text = id_path_string(&chain);
        let words: Vec<String> = text.split(' ').map(String::from).collect();
        assert_eq!(parse_all_ids(&words), Some(chain.clone()));
    }
}

#[test]
fn listed_chains_name_their_topics() {
    let store = sample();
    for block in list_ideas(&store) {
        let t = resolve_path(&store, &block.path).ok().unwrap();
        assert_eq!(t.name, block.name);
        assert_eq!(t.ideas.len(), block.ideas.len());
        for (a, b) in t.ideas.iter().zip(block.ideas.iter()) {
            assert_eq!(a.id, b.id);
            assert_eq!(a.text, b.text);
        }
    }
}

#[test]
fn listed_chains_need_distinct_sibling_ids() {
    let store = vec![topic(1, "first", vec![], vec![]), topic(1, "second", vec![], vec![])];
    let blocks = list_ideas(&store);
    assert_eq!(blocks[1].path, vec![1]);
    assert_eq!(resolve_path(&store, &blocks[1].path).ok().unwrap().name, "first");
}

#[test]
fn block_lines_are_indented_by_depth() {
    let store = sample();
    let blocks = list_ideas(&store);
    assert_eq!(blocks[0].header(), "=== TOPIC 1: Programming ===");
    assert!(blocks[0].idea_lines().is_empty());
    assert_eq!(blocks[1].header(), "  === TOPIC 1 1: Rust ===");
    assert_eq!(blocks[1].idea_lines(), vec!["   [1] io_uring".to_string(), "   [3] pin/unpin".to_string()]);
    assert_eq!(blocks[2].header(), "    === TOPIC 1 1 4: WebDev ===");
    assert_eq!(blocks[2].idea_lines(), vec!["     [1] look into async traits".to_string()]);
    assert_eq!(blocks[3].header(), "=== TOPIC 2: Guitar ===");
}

#[test]
fn yes_answers() {
    assert!(is_yes("y"));
    assert!(is_yes("Yes\n"));
    assert!(is_yes("  YES "));
    assert!(is_yes("Y\r\n"));
    assert!(!is_yes(""));
    assert!(!is_yes("n"));
    assert!(!is_yes("yess"));
    assert!(!is_yes("y e s"));
}

#[test]
fn delete_lines_name_what_went() {
    let o = DeleteOutcome::IdeaDeleted { idea_id: 3, topic_name: "Rust".to_string(), idea_text: "pin".to_string() };
    assert_eq!(o.message(&[1, 1, 3]), "Deleted idea [3] \"pin\" from topic \"Rust\".");
    let o = DeleteOutcome::TopicDeleted { name: "WebDev".to_string(), idea_count: 1, sub_topic_count: 0 };
    assert_eq!(o.message(&[1, 1, 4]), "Deleted topic \"WebDev\" (id 1 1 4), 1 idea(s) and 0 sub-topic(s) inside it.");
    let o = DeleteOutcome::NeedsConfirmation { name: "Rust".to_string(), idea_count: 3, sub_topic_count: 1 };
    assert_eq!(
        o.message(&[1, 1]),
        "Topic \"Rust\" (id 1 1) still has 3 idea(s) and 1 sub-topic(s) in it (counting sub-topics). Delete it and everything inside?"
    );
    let o = DeleteOutcome::NeedsConfirmation { name: "A".to_string(), idea_count: 2, sub_topic_count: 0 };
    assert_eq!(o.message(&[5]), "Topic \"A\" (id 5) still has 2 idea(s) in it (counting sub-topics). Delete it and everything inside?");
    let o = DeleteOutcome::NeedsConfirmation { name: "A".to_string(), idea_count: 0, sub_topic_count: 4 };
    assert_eq!(o.message(&[5]), "Topic \"A\" (id 5) still has 4 sub-topic(s) in it (counting sub-topics). Delete it and everything inside?");
}

#[test]
fn edit_lines_show_old_and_new() {
    assert_eq!(edited_message(3, "Rust", "pin/unpin", "understand pin"), "Edited idea [3] in topic \"Rust\": \"pin/unpin\" -> \"understand pin\".");
    assert_eq!(renamed_message("Rust", &[1, 1], "Rustlang"), "Renamed topic \"Rust\" (id 1 1) to \"Rustlang\".");
}

#[test]
fn trimming_drops_surrounding_whitespace_only() {
    assert_eq!(trim("  a b \t\n"), "a b");
    assert_eq!(trim("\u{3000}x\u{a0}"), "x");
    assert_eq!(trim("   "), "");
    assert_eq!(trim(""), "");
    assert_eq!(trim("ü"), "ü");
    for t in ["  a b \t\n", "\u{2028}z", "q", " \r\n"] {
        assert_eq!(trim(t), t.trim());
    }
}

#[test]
fn selectors_ignore_ascii_case() {
    let t = topic(7, "rust", vec![], vec![]);
    assert!(matches_topic_selector("RUST", &t));
    assert!(matches_topic_selector("uS", &t));
    assert!(!matches_topic_selector("RUSTY", &t));
    assert!(!is_yes("   "));
    assert!(is_yes(" Y "));
}
