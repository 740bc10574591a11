use kvik_aktions::matching::{
    match_fuzzy, match_letters, match_letters_folded, match_query, rank_matches, QueryOutcome,
};
use kvik_aktions::registry::{find_action, Action};

fn registry() -> Vec<Action<()>> {
    vec![
        Action::new("Hello, World!", ()),
        Action::new("Another Action", ()),
        Action::new("Apple Pie", ()),
        Action::new("CAPITALIZED", ()),
    ]
}

#[test]
fn new_derives_shortcut_from_uppercase_letters() {
    let actions = registry();
    assert_eq!(actions[0].shortcut, "HW");
    assert_eq!(actions[1].shortcut, "AA");
    assert_eq!(actions[2].shortcut, "AP");
    assert_eq!(actions[3].shortcut, "CAPITALIZED");
    assert_eq!(actions[0].name, "Hello, World!");
    let plain = Action::new("no capitals 42", 7u8);
    assert_eq!(plain.shortcut, "");
    assert_eq!(plain.callback, 7u8);
}

#[test]
fn empty_query_shows_all_in_both_modes() {
    let actions = registry();
    assert_eq!(match_query(&actions, "", true), QueryOutcome::Show(vec![0, 1, 2, 3]));
    assert_eq!(match_query(&actions, "", false), QueryOutcome::Show(vec![0, 1, 2, 3]));
}

#[test]
fn empty_query_ignores_empty_shortcut() {
    let actions = vec![Action::new("plain", ()), Action::new("Other", ())];
    assert_eq!(match_letters(&actions, ""), QueryOutcome::Show(vec![0, 1]));
}

#[test]
fn letters_exact_shortcut_invokes() {
    let actions = registry();
    assert_eq!(match_letters(&actions, "hw"), QueryOutcome::Invoke(0));
    assert_eq!(match_letters(&actions, "AA"), QueryOutcome::Invoke(1));
    assert_eq!(match_letters(&actions, "capitalized"), QueryOutcome::Invoke(3));
}

#[test]
fn letters_prefix_lists_in_registry_order() {
    let actions = registry();
    assert_eq!(match_letters(&actions, "a"), QueryOutcome::Show(vec![1, 2]));
    assert_eq!(match_letters(&actions, "CAP"), QueryOutcome::Show(vec![3]));
    assert_eq!(match_letters(&actions, "q"), QueryOutcome::Show(vec![]));
}

#[test]
fn letters_folded_query_is_compared_as_given() {
    let actions = registry();
    assert_eq!(match_letters_folded(&actions, &"hw".to_string()), QueryOutcome::Show(vec![]));
    assert_eq!(match_letters_folded(&actions, &"HW".to_string()), QueryOutcome::Invoke(0));
}

#[test]
fn duplicate_shortcut_first_wins() {
    let actions = vec![
        Action::new("Big Cat", ()),
        Action::new("Blue Cup", ()),
    ];
    assert_eq!(match_letters(&actions, "bc"), QueryOutcome::Invoke(0));
    assert_eq!(find_action(&actions, &"BC".to_string()), Some(0));
    assert_eq!(find_action(&actions, &"XX".to_string()), None);
}

#[test]
fn fuzzy_single_match_invokes() {
    let actions = registry();
    assert_eq!(match_fuzzy(&actions, "hel"), QueryOutcome::Invoke(0));
}

#[test]
fn fuzzy_no_match_shows_nothing() {
    let actions = registry();
    assert_eq!(match_fuzzy(&actions, "zzz"), QueryOutcome::Show(vec![]));
}

#[test]
fn fuzzy_several_matches_are_ranked() {
    let actions = registry();
    let scores: Vec<Option<isize>> = actions
        .iter()
        .map(|a| sublime_fuzzy::best_match("a", &a.name).map(|m| m.score()))
        .collect();
    assert_eq!(scores[0], None);
    let mut expected: Vec<usize> = vec![1, 2, 3];
    expected.sort_by_key(|&i| std::cmp::Reverse(scores[i].unwrap()));
    assert_eq!(match_fuzzy(&actions, "a"), QueryOutcome::Show(expected));
}

#[test]
fn rank_orders_by_score_then_registry_order() {
    let scores = vec![Some(5), None, Some(7), Some(5), Some(-2)];
    assert_eq!(rank_matches(&scores), QueryOutcome::Show(vec![2, 0, 3, 4]));
}

#[test]
fn rank_single_match_invokes() {
    assert_eq!(rank_matches(&vec![None, Some(-3), None]), QueryOutcome::Invoke(1));
}

#[test]
fn rank_no_match_is_empty() {
    assert_eq!(rank_matches(&vec![None, None]), QueryOutcome::Show(vec![]));
    assert_eq!(rank_matches(&vec![]), QueryOutcome::Show(vec![]));
}
