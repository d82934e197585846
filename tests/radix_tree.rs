use rhttp::from_request::PathParam;
use rhttp::radix_tree::{MatchPriority, RadixTree};

#[test]
fn test() {
    let _handle_get = |PathParam(order_id): PathParam<usize>| -> String {
        println!("Handling GET request");
        order_id.to_string()
    };
    let mut new_tree = RadixTree::new();
    new_tree.insert(" ", 1_u64);
    new_tree.insert("", 69_u64);
    new_tree.insert("/user/:user_id", 0_u64);
    new_tree.insert("/useless/:useless_id", 1_u64);
    new_tree.insert("/", 2_u64);
    new_tree.insert("/user", 2_u64);
    new_tree.insert("/use", 3_u64);
    new_tree.insert("/us", 4_u64);
    new_tree.insert("/dead/*end", 10_u64);
    assert_eq!(0_u64, new_tree.find("user/9").expect("is there").0);
    assert_eq!(1_u64, new_tree.find("/useless/9").expect("is there").0);
    assert_eq!(2_u64, new_tree.find("/").expect("is there").0);
    assert_eq!(2_u64, new_tree.find("/user").expect("is there").0);
    assert_eq!(3_u64, new_tree.find("/use").expect("is there").0);
    assert_eq!(4_u64, new_tree.find("/us").expect("is there").0);
    assert_eq!(10_u64, new_tree.find("/dead/all/over").expect("is there").0);
}

#[test]
fn parameters_are_bound_by_name_in_order() {
    let mut t = RadixTree::new();
    t.insert("/order/:order_id/activity/:activity_id", 5);
    let (id, params) = t.find("/order/7/activity/9").expect("matches");
    assert_eq!(id, 5);
    assert_eq!(
        params,
        vec![
            (b"order_id".to_vec(), b"7".to_vec()),
            (b"activity_id".to_vec(), b"9".to_vec())
        ]
    );
}

#[test]
fn wildcard_binds_the_remainder() {
    let mut t = RadixTree::new();
    t.insert("/test/*rest", 1);
    let (id, params) = t.find("/test/a/b/c").expect("matches");
    assert_eq!(id, 1);
    assert_eq!(params, vec![(b"rest".to_vec(), b"a/b/c".to_vec())]);
    assert!(t.find("/test").is_none());
}

#[test]
fn literal_beats_parameter_beats_wildcard() {
    let mut t = RadixTree::new();
    t.insert("/users/*all", 3);
    t.insert("/users/:id", 2);
    t.insert("/users/me", 1);
    let m = t.find_match("/users/me").expect("matches");
    assert_eq!(m.endpoint_id, 1);
    assert_eq!(m.priority, MatchPriority::Exact);
    let m = t.find_match("/users/42").expect("matches");
    assert_eq!(m.endpoint_id, 2);
    assert_eq!(m.priority, MatchPriority::Parameter);
    let m = t.find_match("/users/42/x").expect("matches");
    assert_eq!(m.endpoint_id, 3);
    assert_eq!(m.priority, MatchPriority::WildCard);
}

#[test]
fn routing_is_deterministic_and_ignores_empty_segments() {
    let mut t = RadixTree::new();
    t.insert("/a/:x", 7);
    t.insert("/a/b", 8);
    let first = t.find("/a//c/").expect("matches");
    let second = t.find("/a/c").expect("matches");
    assert_eq!(first, second);
    assert_eq!(first.0, 7);
    assert_eq!(t.find("/a/b").expect("matches").0, 8);
}

#[test]
fn reinserting_a_pattern_only_replaces_its_endpoint() {
    let mut t = RadixTree::new();
    t.insert("/user", 1);
    t.insert("/use", 2);
    t.insert("/user", 9);
    assert_eq!(t.find("/user").expect("matches").0, 9);
    assert_eq!(t.find("/use").expect("matches").0, 2);
    assert!(t.find("/us").is_none());
    assert!(t.find("/u").is_none());
    assert!(t.find("/us/er").is_none());
}

#[test]
fn split_keeps_both_routes() {
    let mut t = RadixTree::new();
    t.insert("/users", 1);
    t.insert("/uploads", 2);
    assert_eq!(t.find("/users").expect("matches").0, 1);
    assert_eq!(t.find("/uploads").expect("matches").0, 2);
    assert!(t.find("/u").is_none());
}

#[test]
fn white_space_patterns_register_the_root() {
    for p in ["\u{c}", "\u{b}", " \t ", "\u{3000}", "\u{a0}\u{2028}"] {
        let mut t = RadixTree::new();
        t.insert(p, 5);
        assert_eq!(t.find("/").expect("root").0, 5, "{p:?}");
        assert!(t.find("/x").is_none());
    }
    let mut t = RadixTree::new();
    t.insert(" x", 6);
    assert!(t.find("/").is_none());
    assert_eq!(t.find("/ x").expect("literal").0, 6);
}
