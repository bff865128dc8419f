use vite_plus::similarity::{levenshtein_distance, pick_best_suggestion};

#[test]
fn distance_works_for_simple_inputs() {
    assert_eq!(levenshtein_distance("fnt", "fmt"), 1);
    assert_eq!(levenshtein_distance("fnt", "lint"), 2);
}

#[test]
fn pick_best_prefers_closest_match() {
    let candidates = vec!["lint".to_string(), "fmt".to_string()];
    assert_eq!(pick_best_suggestion("fnt", &candidates), Some("fmt".to_string()));
}

#[test]
fn distance_edge_cases() {
    assert_eq!(levenshtein_distance("", ""), 0);
    assert_eq!(levenshtein_distance("", "abc"), 3);
    assert_eq!(levenshtein_distance("kitten", "sitting"), 3);
    assert_eq!(levenshtein_distance("é", "e"), 1);
}

#[test]
fn ties_keep_the_first_shortest_candidate() {
    assert_eq!(pick_best_suggestion("x", &[]), None);
    let candidates = vec!["abcd".to_string(), "ab".to_string(), "ac".to_string()];
    assert_eq!(pick_best_suggestion("a", &candidates), Some("ab".to_string()));
}
