use mqttv5::trie::{
    join, match_topic, match_topic_part, print_trie_nodes, same_level, split, Trie, TrieNode,
};

#[test]
fn trie_test_basic() {
    let mut trie = Trie::new();
    trie.insert("a/b/c/d");
    trie.insert("a/b/c/d/x");
    trie.insert("f/g/h");
    trie.insert("i/j/k");
    assert_eq!(trie.number_of_entries(), 4);
    trie.delete("a/b/c/d");
    assert_eq!(trie.number_of_entries(), 3);
}

fn chars(text: &str) -> Vec<char> {
    text.chars().collect()
}

#[test]
fn topics_are_split_at_each_separator() {
    assert_eq!(split(""), vec![chars("")]);
    assert_eq!(split("a"), vec![chars("a")]);
    assert_eq!(split("a/b"), vec![chars("a"), chars("b")]);
    assert_eq!(split("/"), vec![chars(""), chars("")]);
    assert_eq!(split("a//b/"), vec![chars("a"), chars(""), chars("b"), chars("")]);
    assert_eq!(split("/\u{e9}t\u{e9}/+"), vec![chars(""), chars("\u{e9}t\u{e9}"), chars("+")]);
    for topic in ["", "a", "/", "a//b/", "sport/tennis/#", "\u{4e16}/\u{754c}"] {
        assert_eq!(join(&split(topic)), topic);
    }
    assert!(same_level(&chars("abc"), &chars("abc")));
    assert!(!same_level(&chars("abc"), &chars("abd")));
    assert!(!same_level(&chars("abc"), &chars("ab")));
}

#[test]
fn entries_are_the_filters_that_were_put_in() {
    let mut trie = Trie::new();
    assert_eq!(trie.number_of_entries(), 0);
    assert!(trie.print_entries().is_empty());
    trie.insert("a/b");
    trie.insert("a");
    trie.insert("a/b/c");
    trie.insert("x//y");
    trie.insert("a/b");
    let mut lines = trie.print_entries();
    lines.sort();
    assert_eq!(lines, vec!["a", "a/b", "a/b/c", "x//y"]);
    assert_eq!(trie.number_of_entries(), 4);
    assert_eq!(trie.entries().len(), 4);
}

#[test]
fn delete_keeps_what_other_filters_need() {
    let mut trie = Trie::new();
    trie.insert("a/b/c");
    trie.insert("a/b");
    trie.insert("a/x");
    // the filter below stays when the one above it goes
    trie.delete("a/b");
    assert!(trie.contains("a/b/c"));
    assert!(!trie.contains("a/b"));
    assert_eq!(trie.number_of_entries(), 2);
    // the filter above stays when the one below it goes
    trie.insert("a/b");
    trie.delete("a/b/c");
    assert!(trie.contains("a/b"));
    assert!(!trie.contains("a/b/c"));
    let mut lines = trie.print_entries();
    lines.sort();
    assert_eq!(lines, vec!["a/b", "a/x"]);
    // a filter that is not there changes nothing
    trie.delete("a");
    trie.delete("a/b/c/d");
    trie.delete("nothing");
    trie.delete("");
    assert_eq!(trie.number_of_entries(), 2);
    trie.delete("a/b");
    trie.delete("a/x");
    assert_eq!(trie.number_of_entries(), 0);
    assert!(!trie.contains("a/x"));
    // the trie can be filled again
    trie.insert("a/x");
    assert!(trie.contains("a/x"));
}

#[test]
fn the_empty_filter_is_a_filter_of_one_empty_level() {
    let mut trie = Trie::new();
    trie.insert("");
    assert_eq!(trie.number_of_entries(), 1);
    assert!(trie.contains(""));
    assert!(!trie.contains("/"));
    assert_eq!(trie.print_entries(), vec![String::new()]);
    trie.delete("");
    assert_eq!(trie.number_of_entries(), 0);
}

#[test]
fn nodes_hold_their_levels_by_segment() {
    let mut node = TrieNode::new(false);
    assert!(!node.has_subscription());
    assert!(!node.has_children());
    assert!(!node.has_child(&chars("a")));
    assert_eq!(node.get_or_insert_child(&chars("a")), 0);
    assert_eq!(node.get_or_insert_child(&chars("b")), 1);
    assert_eq!(node.get_or_insert_child(&chars("a")), 0);
    assert!(node.has_children());
    assert!(node.has_child(&chars("b")));
    assert_eq!(node.get_child(&chars("b")), Some(1));
    assert_eq!(node.get_child(&chars("c")), None);
    node.remove_child(0);
    assert_eq!(node.get_child(&chars("b")), Some(0));
    assert!(!node.has_child(&chars("a")));
    node.set_subscription(true);
    assert!(node.has_subscription());
}

#[test]
fn nodes_match_and_list_from_any_level() {
    let mut root = TrieNode::new(false);
    root.insert_at(&split("a/+/c"), 0);
    root.insert_at(&split("a/b"), 0);
    assert!(match_topic(&root, "a/x/c"));
    assert!(!match_topic(&root, "a/b"));
    assert!(match_topic_part(&root, &split("zzz/a/x/c"), 1));
    assert!(match_topic_part(&root.children[0].1, &split("a/x/c"), 1));
    let mut listed = print_trie_nodes(&root);
    listed.sort();
    assert_eq!(listed, vec![split("a/+/c"), split("a/b")]);
    root.delete_at(&split("a/+/c"), 0);
    assert!(match_topic(&root, "a/b"));
    assert_eq!(print_trie_nodes(&root), vec![split("a/b")]);
    root.delete_at(&split("a/b"), 0);
    assert!(!root.has_children());
}
