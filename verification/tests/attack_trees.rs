use privguide::query::AttackTree;
use serde_yaml_ng::Value;

fn tree_from_yaml(v: &Value) -> AttackTree {
    let query = v.get("query").and_then(|q| q.as_str()).unwrap().to_string();
    let children = match v.get("children") {
        Some(Value::Sequence(items)) => items.iter().map(tree_from_yaml).collect(),
        _ => Vec::new(),
    };
    AttackTree::from_parts(query, children)
}

#[test]
fn test_read_attack_trees() {
    let src = r#"
query: attack.rq
children: []
        "#;

    let value: Value = serde_yaml_ng::from_str(src).unwrap();
    let res = tree_from_yaml(&value);
    println!("{res:#?}");
    assert_eq!(res.get_query(), "attack.rq");
    assert!(res.children().is_empty());
    assert!(!res.has_executed());
}

#[test]
fn nested_attack_trees_keep_their_order() {
    let src = "query: root.rq\nchildren:\n  - query: a.rq\n    children: []\n  - query: b.rq\n    children:\n      - query: c.rq\n        children: []\n";
    let value: Value = serde_yaml_ng::from_str(src).unwrap();
    let mut tree = tree_from_yaml(&value);
    let children = tree.get_children();
    assert_eq!(children.len(), 2);
    assert_eq!(children[0].get_query(), "a.rq");
    assert_eq!(children[1].get_query(), "b.rq");
    assert_eq!(children[1].children()[0].get_query(), "c.rq");
}

#[test]
fn new_tree_is_not_possible_until_results_are_set() {
    let mut t = AttackTree::new("q.rq".to_string());
    assert!(!t.is_possible());
    t.set_executed(Vec::new());
    assert!(t.has_executed());
    assert!(!t.is_possible());
    t.set_executed(vec![vec![("?x".to_string(), "1".to_string())]]);
    assert!(t.is_possible());
    assert_eq!(t.get_results().len(), 1);
}

#[test]
fn get_children_lets_children_be_added() {
    let mut t = AttackTree::new("root.rq".to_string());
    t.get_children().push(AttackTree::new("child.rq".to_string()));
    assert_eq!(t.children().len(), 1);
    let other = AttackTree::new("other.rq".to_string());
    other.add_child(AttackTree::new("dropped.rq".to_string()));
}
