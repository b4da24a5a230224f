use minecraft_discord_alerts::names::name_precedes;
use minecraft_discord_alerts::roster::PlayerSet;

fn strings(names: &[&str]) -> Vec<String> {
    names.iter().map(|n| n.to_string()).collect()
}

#[test]
fn names_are_ordered_character_by_character() {
    assert!(name_precedes("alice", "bob"));
    assert!(!name_precedes("bob", "alice"));
    assert!(name_precedes("alice", "alicf"));
    assert!(name_precedes("Zed", "alice"));
    assert!(name_precedes("Steve_1", "Steve_2"));
}

#[test]
fn no_name_precedes_itself() {
    assert!(!name_precedes("alice", "alice"));
    assert!(!name_precedes("", ""));
}

#[test]
fn a_prefix_precedes_the_longer_name() {
    assert!(name_precedes("al", "alice"));
    assert!(!name_precedes("alice", "al"));
    assert!(name_precedes("", "a"));
    assert!(!name_precedes("a", ""));
}

#[test]
fn names_outside_ascii_are_ordered_by_code_point() {
    assert!(name_precedes("z", "é"));
    assert!(name_precedes("é", "日本"));
    assert!(name_precedes("日", "日本"));
    assert!(!name_precedes("日本", "日"));
}

#[test]
fn a_new_roster_is_empty() {
    let roster = PlayerSet::new();
    assert!(roster.is_empty());
    assert_eq!(roster.len(), 0);
    assert_eq!(roster.names(), strings(&[]));
    assert!(!roster.contains("alice"));
}

#[test]
fn insert_says_whether_the_name_was_new() {
    let mut roster = PlayerSet::new();
    assert!(roster.insert("bob".to_string()));
    assert!(roster.insert("alice".to_string()));
    assert!(!roster.insert("bob".to_string()));
    assert_eq!(roster.len(), 2);
    assert!(!roster.is_empty());
    assert_eq!(roster.names(), strings(&["alice", "bob"]));
}

#[test]
fn insert_keeps_the_names_in_order() {
    let mut roster = PlayerSet::new();
    for name in ["m", "a", "z", "c", "b", "y"] {
        roster.insert(name.to_string());
    }
    assert_eq!(roster.names(), strings(&["a", "b", "c", "m", "y", "z"]));
}

#[test]
fn contains_finds_each_player_and_no_other() {
    let roster = PlayerSet::from_names(strings(&["carol", "alice", "bob"]));
    assert!(roster.contains("alice"));
    assert!(roster.contains("bob"));
    assert!(roster.contains("carol"));
    assert!(!roster.contains("dave"));
    assert!(!roster.contains("al"));
    assert!(!roster.contains("alicea"));
    assert!(!roster.contains(""));
}

#[test]
fn from_names_drops_what_is_named_twice() {
    let roster = PlayerSet::from_names(strings(&["bob", "alice", "bob", "alice", "bob"]));
    assert_eq!(roster.len(), 2);
    assert_eq!(roster.names(), strings(&["alice", "bob"]));
}

#[test]
fn rosters_with_the_same_players_are_equal() {
    let one = PlayerSet::from_names(strings(&["alice", "bob", "carol"]));
    let other = PlayerSet::from_names(strings(&["carol", "alice", "bob", "alice"]));
    assert_eq!(one, other);
    assert_ne!(one, PlayerSet::from_names(strings(&["alice", "bob"])));
}

#[test]
fn names_tells_players_apart_by_case() {
    let roster = PlayerSet::from_names(strings(&["alice", "Alice"]));
    assert_eq!(roster.names(), strings(&["Alice", "alice"]));
}

#[test]
fn difference_lists_what_the_other_lacks() {
    let one = PlayerSet::from_names(strings(&["alice", "bob", "carol", "dave"]));
    let other = PlayerSet::from_names(strings(&["bob", "dave", "erin"]));
    assert_eq!(one.difference(&other), strings(&["alice", "carol"]));
    assert_eq!(other.difference(&one), strings(&["erin"]));
}

#[test]
fn difference_with_itself_is_empty() {
    let one = PlayerSet::from_names(strings(&["alice", "bob"]));
    assert_eq!(one.difference(&one), strings(&[]));
}

#[test]
fn difference_with_nobody_is_everybody() {
    let one = PlayerSet::from_names(strings(&["bob", "alice"]));
    let nobody = PlayerSet::new();
    assert_eq!(one.difference(&nobody), strings(&["alice", "bob"]));
    assert_eq!(nobody.difference(&one), strings(&[]));
}

#[test]
fn difference_of_rosters_that_share_nobody() {
    let one = PlayerSet::from_names(strings(&["a", "c", "e"]));
    let other = PlayerSet::from_names(strings(&["b", "d", "f"]));
    assert_eq!(one.difference(&other), strings(&["a", "c", "e"]));
    assert_eq!(other.difference(&one), strings(&["b", "d", "f"]));
}

#[test]
fn a_clone_holds_the_same_players() {
    let one = PlayerSet::from_names(strings(&["alice", "bob"]));
    let copy = one.clone();
    assert_eq!(copy, one);
    assert_eq!(copy.names(), strings(&["alice", "bob"]));
}
