use mesh_colliders::marker::{has_substring, MarkerSet};

fn markers(list: &[&str]) -> MarkerSet {
    MarkerSet::new(&list.iter().map(|s| s.to_string()).collect())
}

#[test]
fn marker_matching_ignores_case() {
    let set = markers(&["[collider]"]);
    assert!(set.matches("ROCK_[COLLIDER]"));
    assert!(set.matches("rock_[collider]"));
    assert!(set.matches("Rock_[Collider]"));
}

#[test]
fn markers_are_lowercased_when_built() {
    let set = markers(&["[COLLIDER]"]);
    assert!(set.matches("rock_[collider]"));
    assert!(set.matches_lowered("rock_[collider]"));
    assert!(!set.matches_lowered("ROCK_[COLLIDER]"));
}

#[test]
fn unmarked_names_do_not_match() {
    let set = markers(&["[collider]"]);
    assert!(!set.matches("Rock"));
    assert!(!set.matches("Rock_[Collide]"));
    assert!(!set.matches(""));
}

#[test]
fn any_marker_of_the_set_matches() {
    let set = markers(&["[collider]", "suzanne"]);
    assert!(set.matches("Suzanne.001"));
    assert!(set.matches("wall [Collider] 2"));
    assert!(!set.matches("Monkey"));
}

#[test]
fn empty_set_matches_nothing() {
    let set = markers(&[]);
    assert!(!set.matches("Rock_[Collider]"));
}

#[test]
fn substring_search() {
    assert!(has_substring("abcabd", "abd"));
    assert!(has_substring("abc", ""));
    assert!(has_substring("", ""));
    assert!(!has_substring("ab", "abc"));
    assert!(!has_substring("abcab", "abd"));
    assert!(has_substring("größe", "öß"));
}
