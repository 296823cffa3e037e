use storyline::item::{Pack, SplitItem};
use storyline::storyline::{add_round, build_storyline, pick_players, StoryEntry, StoryError};
use storyline::template::{fill_penalty, fill_template, has_dollar, push_decimal, render};

fn item(ty: usize, text: &str, key: Option<&str>, parent_key: Option<&str>, nb_players: usize) -> SplitItem {
    SplitItem {
        cycle_state: false,
        ty,
        text: text.to_string(),
        key: key.map(|k| k.to_string()),
        parent_key: parent_key.map(|k| k.to_string()),
        nb_players,
    }
}

fn names(list: &[&str]) -> Vec<String> {
    list.iter().map(|s| s.to_string()).collect()
}

fn sample_catalog() -> Vec<SplitItem> {
    vec![
        item(1, "%s drinks $ sips", None, None, 1),
        item(2, "%s must speak in rhymes", Some("rhymes"), None, 1),
        item(2, "%s may stop speaking in rhymes", None, Some("rhymes"), 1),
        item(3, "Nobody may say yes", Some("yes"), None, 0),
        item(3, "Everybody may say yes again", None, Some("yes"), 0),
        item(4, "Theme: animals, %s starts", None, None, 1),
        item(5, "%s and %s swap seats", None, None, 2),
        item(14, "%s asks %s a question", Some("q"), None, 2),
        item(14, "%s answers %s", None, Some("q"), 2),
        item(15, "Once upon a time %s", None, None, 1),
        item(6, "%s, %s and %s dance", None, None, 3),
        item(1, "Everyone drinks $", None, None, 0),
    ]
}

fn check_entry(e: &StoryEntry, items: &[SplitItem], players: &[String]) {
    let it = &items[e.item];
    assert_eq!(e.ty, it.ty);
    assert!(e.players.iter().all(|&p| p < players.len()));
    for a in 0..e.players.len() {
        for b in 0..e.players.len() {
            if a != b {
                assert_ne!(e.players[a], e.players[b]);
            }
        }
    }
    if it.text.contains('$') {
        assert!(!e.text.contains('$'));
        assert!(e.penalty >= 1 && e.penalty <= players.len());
    }
    if e.chained {
        assert!(it.parent_key.is_some());
    } else {
        assert!(it.parent_key.is_none());
        assert_ne!(it.ty, 15);
        assert_eq!(e.players.len(), it.nb_players);
    }
}

#[test]
fn test() {
    let players = ["Alice".to_string(), "Bob".to_string(), "Charlie".to_string()];
    let items = sample_catalog();
    let storyline = build_storyline(&items, 20, 15, &players).unwrap();
    println!("{:#?}", storyline);
    assert!(storyline.len() >= 20 && storyline.len() <= 21);
    for e in &storyline {
        check_entry(e, &items, &players);
    }
}

#[test]
fn chained_standing_rule_lands_within_window() {
    let items = vec![
        item(2, "%s must obey", Some("k1"), None, 1),
        item(2, "%s stops obeying", None, Some("k1"), 1),
    ];
    let players = names(&["Alice", "Bob"]);
    let s = build_storyline(&items, 1, 3, &players).unwrap();
    assert!(s.len() >= 2);
    let root = s.iter().position(|e| e.item == 0).unwrap();
    let child = s.iter().position(|e| e.item == 1).unwrap();
    assert!(child > root && child <= root + 3);
    assert!(s[child].chained && !s[root].chained);
    let who = players[s[root].players[0]].clone();
    assert_eq!(s[root].text, format!("{} must obey", who));
    assert_eq!(s[child].text, format!("{} stops obeying", who));
}

#[test]
fn too_few_players_is_a_content_error() {
    let items = vec![item(1, "%s, %s and %s sing", None, None, 3), item(4, "%s and %s", None, None, 4)];
    let players = names(&["Alice", "Bob"]);
    let r = build_storyline(&items, 10, 3, &players);
    assert!(matches!(r, Err(StoryError::ContentConfiguration)));
}

#[test]
fn only_children_and_stories_is_a_content_error() {
    let items = vec![
        item(15, "Once upon a time %s", None, None, 1),
        item(2, "%s stops obeying", None, Some("k1"), 1),
    ];
    let players = names(&["Alice", "Bob"]);
    let r = build_storyline(&items, 5, 3, &players);
    assert!(matches!(r, Err(StoryError::ContentConfiguration)));
}

#[test]
fn empty_catalog_is_a_content_error() {
    let players = names(&["Alice"]);
    let r = build_storyline(&[], 5, 3, &players);
    assert!(matches!(r, Err(StoryError::ContentConfiguration)));
}

#[test]
fn two_tokens_take_both_players_once() {
    let items = vec![item(1, "%s gives %s a dare", None, None, 2)];
    let players = names(&["Alice", "Bob"]);
    let s = build_storyline(&items, 1, 3, &players).unwrap();
    assert_eq!(s.len(), 1);
    assert!(s[0].text == "Alice gives Bob a dare" || s[0].text == "Bob gives Alice a dare");
}

#[test]
fn successive_builds_differ() {
    let players = names(&["Alice", "Bob", "Charlie", "Dana"]);
    let items = sample_catalog();
    let a = build_storyline(&items, 30, 5, &players).unwrap();
    let b = build_storyline(&items, 30, 5, &players).unwrap();
    for e in a.iter().chain(b.iter()) {
        check_entry(e, &items, &players);
    }
    let ta: Vec<&String> = a.iter().map(|e| &e.text).collect();
    let tb: Vec<&String> = b.iter().map(|e| &e.text).collect();
    assert_ne!(ta, tb);
}

#[test]
fn length_reaches_party_duration() {
    let players = names(&["Alice", "Bob", "Charlie"]);
    let items = sample_catalog();
    for d in [1usize, 2, 7, 40] {
        let s = build_storyline(&items, d, 4, &players).unwrap();
        assert!(s.len() >= d && s.len() <= d + 1);
    }
}

#[test]
fn zero_duration_gives_empty_storyline() {
    let players = names(&["Alice"]);
    let items = sample_catalog();
    let s = build_storyline(&items, 0, 4, &players).unwrap();
    assert!(s.is_empty());
}

#[test]
fn penalty_token_is_always_replaced() {
    let items = vec![item(1, "%s drinks $ sips, then $ more", None, None, 1)];
    let players = names(&["Alice", "Bob", "Charlie"]);
    let s = build_storyline(&items, 10, 2, &players).unwrap();
    for e in &s {
        assert!(!e.text.contains('$'));
        let who = &players[e.players[0]];
        assert_eq!(e.text, format!("{} drinks {} sips, then {} more", who, e.penalty, e.penalty));
    }
}

#[test]
fn non_rule_child_comes_right_after_root() {
    let items = vec![
        item(14, "%s asks %s a question", Some("q"), None, 2),
        item(14, "%s answers %s", None, Some("q"), 2),
    ];
    let players = names(&["Alice", "Bob", "Charlie"]);
    let mut s: Vec<StoryEntry> = Vec::new();
    let candidates = vec![0usize];
    for _ in 0..5 {
        let before = s.len();
        let p = add_round(&mut s, &items, &players, &candidates, 4);
        assert!(p.root_at <= before);
        assert_eq!(p.child_at, Some(p.root_at + 1));
        assert_eq!(s.len(), before + 2);
        let root = &s[p.root_at];
        let child = &s[p.root_at + 1];
        assert_eq!(root.item, 0);
        assert_eq!(child.item, 1);
        assert_eq!(root.players, child.players);
        let a = &players[root.players[0]];
        let b = &players[root.players[1]];
        assert_eq!(child.text, format!("{} answers {}", a, b));
    }
}

#[test]
fn rule_child_respects_window_in_long_storyline() {
    let items = vec![
        item(3, "Rule %s", Some("r"), None, 1),
        item(3, "End of rule %s", None, Some("r"), 1),
    ];
    let players = names(&["Alice", "Bob"]);
    let mut s: Vec<StoryEntry> = Vec::new();
    let candidates = vec![0usize];
    for _ in 0..30 {
        let before = s.len();
        let p = add_round(&mut s, &items, &players, &candidates, 2);
        let c = p.child_at.unwrap();
        assert!(c > p.root_at && c <= p.root_at + 2 && c <= before + 1);
        assert!(s[c].chained);
    }
}

#[test]
fn childless_key_adds_one_entry() {
    let items = vec![item(2, "%s obeys", Some("lonely"), None, 1)];
    let players = names(&["Alice"]);
    let mut s: Vec<StoryEntry> = Vec::new();
    let p = add_round(&mut s, &items, &players, &vec![0usize], 3);
    assert_eq!(p.child_at, None);
    assert_eq!(s.len(), 1);
    assert_eq!(s[0].text, "Alice obeys");
}

#[test]
fn picked_players_are_distinct_and_shuffled() {
    let mut seen_unsorted = false;
    for _ in 0..200 {
        let r = pick_players(6, 6);
        let mut sorted = r.clone();
        sorted.sort();
        assert_eq!(sorted, vec![0, 1, 2, 3, 4, 5]);
        if r != sorted {
            seen_unsorted = true;
        }
    }
    assert!(seen_unsorted);
    let r = pick_players(10, 3);
    assert_eq!(r.len(), 3);
    assert!(r.iter().all(|&i| i < 10));
    assert!(r[0] != r[1] && r[1] != r[2] && r[0] != r[2]);
}

#[test]
fn fill_template_in_order_and_leaves_extra_tokens() {
    let pool = names(&["Alice", "Bob", "Chloé"]);
    assert_eq!(fill_template("%s then %s", &pool, &vec![2, 0]), "Chloé then Alice");
    assert_eq!(fill_template("%s and %s", &pool, &vec![1]), "Bob and %s");
    assert_eq!(fill_template("nobody", &pool, &vec![0, 1]), "nobody");
    assert_eq!(fill_template("100% sure, %", &pool, &vec![0]), "100% sure, %");
    assert_eq!(fill_template("", &pool, &vec![0]), "");
}

#[test]
fn fill_template_does_not_rescan_names() {
    let pool = names(&["%s", "Bob"]);
    assert_eq!(fill_template("%s meets %s", &pool, &vec![0, 1]), "%s meets Bob");
}

#[test]
fn penalty_digits() {
    let mut out = String::new();
    push_decimal(&mut out, 0);
    assert_eq!(out, "0");
    push_decimal(&mut out, 105);
    assert_eq!(out, "0105");
    let mut big = String::from("x");
    push_decimal(&mut big, 18446744073709551615);
    assert_eq!(big, "x18446744073709551615");
    assert_eq!(fill_penalty("$ and $!", 12), "12 and 12!");
    assert_eq!(fill_penalty("no token", 3), "no token");
    assert!(has_dollar("pay $"));
    assert!(!has_dollar("pay nothing"));
}

#[test]
fn render_fills_players_then_penalty() {
    let pool = names(&["Alice", "Bob"]);
    assert_eq!(render("%s drinks $, %s drinks $", &pool, &vec![1, 0], 7), "Bob drinks 7, Alice drinks 7");
    assert_eq!(render("%s stands", &pool, &vec![0], 7), "Alice stands");
    let cash = names(&["$am"]);
    assert_eq!(render("%s pays $", &cash, &vec![0], 3), "3am pays 3");
}

#[test]
fn packs_are_distinct_values() {
    assert_eq!(Pack::Default, Pack::Default);
    assert_ne!(Pack::Hot, Pack::War);
}
