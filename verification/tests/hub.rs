use fin::plugin_api::hub::ClientState;
use fin::plugin_api::result::{
    duplicate_results, same_results, Action, Icon, SearchResult,
};

fn plain(title: &str, priority: Option<u8>) -> SearchResult {
    SearchResult::new(title.to_string(), None, None, None, priority)
}

fn titles(results: &[SearchResult]) -> Vec<String> {
    results.iter().map(|result| result.title().to_string()).collect()
}

#[test]
fn a_result_without_priority_has_priority_zero() {
    let result = SearchResult::new(
        "notes.txt".to_string(),
        Some("a file".to_string()),
        Some(Icon::File),
        Some(Action::Open("/home/u/notes.txt".to_string())),
        None,
    );
    assert_eq!(result.title(), "notes.txt");
    assert_eq!(result.description(), Some("a file"));
    assert_eq!(result.icon(), Some(Icon::File));
    assert!(matches!(result.action(), Some(Action::Open(path)) if path == "/home/u/notes.txt"));
    assert_eq!(result.priority(), 0);
    assert_eq!(plain("x", Some(7)).priority(), 7);
}

#[test]
fn results_are_equal_when_every_part_is() {
    let a = SearchResult::new(
        "a".to_string(),
        None,
        Some(Icon::Copy),
        Some(Action::Copy("1".to_string())),
        Some(1),
    );
    assert!(a.same_as(&a.duplicate()));
    assert!(!a.same_as(&plain("a", Some(1))));
    let other_text = SearchResult::new(
        "a".to_string(),
        None,
        Some(Icon::Copy),
        Some(Action::Copy("2".to_string())),
        Some(1),
    );
    assert!(!a.same_as(&other_text));
    let other_kind = SearchResult::new(
        "a".to_string(),
        None,
        Some(Icon::Copy),
        Some(Action::Open("1".to_string())),
        Some(1),
    );
    assert!(!a.same_as(&other_kind));
    let list = vec![a.duplicate(), plain("b", None)];
    assert!(same_results(&list, &duplicate_results(&list)));
    assert!(!same_results(&list, &vec![a.duplicate()]));
    assert!(!same_results(&list, &vec![plain("b", None), a.duplicate()]));
}

#[test]
fn a_new_hub_is_empty() {
    let hub = ClientState::new();
    assert_eq!(hub.get_search_query(), "");
    assert!(hub.get_search_results().is_empty());
    assert_eq!(hub.round(), 0);
}

#[test]
fn a_new_query_clears_the_results() {
    let mut hub = ClientState::new();
    hub.update_search_results(vec![plain("old", None)]);
    hub.merge_results("calculator", vec![plain("= 2", Some(10))]);
    assert_eq!(hub.get_search_results().len(), 2);
    hub.update_search_query("next".to_string());
    assert_eq!(hub.get_search_query(), "next");
    assert!(hub.get_search_results().is_empty());
    assert!(hub.contribution_of("calculator").is_empty());
    assert_eq!(hub.round(), 1);
    hub.update_search_query("next".to_string());
    assert_eq!(hub.round(), 2);
}

#[test]
fn results_are_listed_by_priority_then_by_insertion() {
    let mut hub = ClientState::new();
    hub.update_search_results(vec![
        plain("low first", Some(1)),
        plain("high first", Some(9)),
        plain("low second", Some(1)),
        plain("top", Some(255)),
        plain("none", None),
        plain("high second", Some(9)),
    ]);
    assert_eq!(
        titles(&hub.get_search_results()),
        vec!["top", "high first", "high second", "low first", "low second", "none"]
    );
}

#[test]
fn a_merge_replaces_only_the_slice_of_its_owner() {
    let mut hub = ClientState::new();
    hub.merge_results("a", vec![plain("a1", None), plain("a2", None)]);
    hub.merge_results("b", vec![plain("b1", None)]);
    hub.merge_results("a", vec![plain("a3", None)]);
    assert_eq!(titles(&hub.contribution_of("a")), vec!["a3"]);
    assert_eq!(titles(&hub.contribution_of("b")), vec!["b1"]);
    assert_eq!(titles(&hub.get_search_results()), vec!["b1", "a3"]);
    hub.merge_results("b", Vec::new());
    assert_eq!(titles(&hub.get_search_results()), vec!["a3"]);
    assert!(hub.contribution_of("c").is_empty());
}

#[test]
fn replacing_the_list_leaves_no_owner() {
    let mut hub = ClientState::new();
    hub.merge_results("a", vec![plain("a1", None)]);
    hub.update_search_results(vec![plain("x", None), plain("y", None)]);
    assert!(hub.contribution_of("a").is_empty());
    hub.merge_results("a", vec![plain("a2", None)]);
    assert_eq!(titles(&hub.get_search_results()), vec!["x", "y", "a2"]);
    assert_eq!(hub.get_search_query(), "");
    assert_eq!(hub.round(), 0);
}

#[test]
fn every_order_of_merges_keeps_every_contribution() {
    let names = ["one", "two", "three", "four"];
    let orders: [[usize; 4]; 6] = [
        [0, 1, 2, 3],
        [3, 2, 1, 0],
        [1, 3, 0, 2],
        [2, 0, 3, 1],
        [0, 2, 1, 3],
        [3, 0, 2, 1],
    ];
    for order in orders.iter() {
        let mut hub = ClientState::new();
        hub.update_search_query("q".to_string());
        for &i in order.iter() {
            hub.merge_results(names[i], vec![plain(&format!("from {}", names[i]), None)]);
        }
        let mut shown = titles(&hub.get_search_results());
        shown.sort();
        assert_eq!(shown, vec!["from four", "from one", "from three", "from two"]);
        for name in names.iter() {
            assert_eq!(titles(&hub.contribution_of(name)), vec![format!("from {}", name)]);
        }
    }
}
