use tetris::scores::{qualifies, sort_scores_desc, update_highscores, Score};

fn entry(name: &str, score: u32) -> Score {
    Score { name: name.to_string(), score }
}

#[test]
fn empty_table_always_qualifies() {
    let scores: Vec<Score> = Vec::new();
    assert!(qualifies(&scores, 0));
    assert!(qualifies(&scores, 10));
}

#[test]
fn qualifies_only_when_beating_an_entry() {
    let scores = vec![entry("ada", 150), entry("bo", 100)];
    assert!(qualifies(&scores, 200));
    assert!(qualifies(&scores, 120));
    assert!(!qualifies(&scores, 100));
    assert!(!qualifies(&scores, 50));
}

#[test]
fn sort_orders_descending_and_keeps_entries() {
    let scores = vec![entry("a", 10), entry("b", 300), entry("c", 40), entry("d", 300)];
    let sorted = sort_scores_desc(scores);
    let values: Vec<u32> = sorted.iter().map(|s| s.score).collect();
    assert_eq!(values, vec![300, 300, 40, 10]);
    let mut names: Vec<String> = sorted.iter().map(|s| s.name.clone()).collect();
    names.sort();
    assert_eq!(names, vec!["a", "b", "c", "d"]);
}

#[test]
fn update_inserts_sorted_and_truncates_to_ten() {
    let mut scores = Vec::new();
    for k in 1..=10u32 {
        scores.push(entry("old", k * 10));
    }
    let table = update_highscores(scores, "new".to_string(), 55);
    assert_eq!(table.len(), 10);
    let values: Vec<u32> = table.iter().map(|s| s.score).collect();
    assert_eq!(values, vec![100, 90, 80, 70, 60, 55, 50, 40, 30, 20]);
    assert!(table.iter().any(|s| s.name == "new" && s.score == 55));
}

#[test]
fn update_on_short_table_keeps_everything() {
    let scores = vec![entry("a", 70)];
    let table = update_highscores(scores, "b".to_string(), 90);
    let values: Vec<u32> = table.iter().map(|s| s.score).collect();
    assert_eq!(values, vec![90, 70]);
}
