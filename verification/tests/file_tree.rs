use unicloud::common::encrypt::encrypt;
use unicloud::services::entities::{CloudAccount, Provider};
use unicloud::services::file_tree::{account_tokens, build_tree, drive_structures, find_node_mut, DriveFile, Node};

const KEY: [u8; 32] = [7u8; 32];

fn file(id: &str, name: &str, parents: &[&str]) -> DriveFile {
    DriveFile {
        id: id.to_string(),
        name: name.to_string(),
        mimeType: "application/vnd.google-apps.folder".to_string(),
        parents: parents.iter().map(|p| p.to_string()).collect(),
    }
}

fn node(id: &str, children: Vec<Node>) -> Node {
    Node { id: id.to_string(), name: id.to_uppercase(), mimeType: "text/plain".to_string(), children }
}

fn ids(nodes: &[Node]) -> Vec<String> {
    nodes.iter().map(|n| n.id.clone()).collect()
}

fn account(email: &str, token: &str, key: &[u8; 32]) -> CloudAccount {
    CloudAccount {
        id: 1,
        email: email.to_string(),
        access_token: encrypt(token, key).ok().unwrap(),
        refresh_token: None,
        expires_in: None,
        is_primary: false,
        provider: Provider::Google,
        user_id: 2,
        sub: None,
        image: None,
        token_expired: false,
    }
}

#[test]
fn build_tree_nests_children_under_parents() {
    let files = vec![file("root", "My Drive", &[]), file("a", "A", &["root"]), file("b", "B", &["a"])];
    let tree = build_tree(&files);
    assert_eq!(ids(&tree), vec!["root"]);
    assert_eq!(tree[0].name, "My Drive");
    assert_eq!(ids(&tree[0].children), vec!["a"]);
    assert_eq!(tree[0].children[0].name, "A");
    assert_eq!(ids(&tree[0].children[0].children), vec!["b"]);
    assert!(tree[0].children[0].children[0].children.is_empty());
}

#[test]
fn build_tree_keeps_roots_in_listed_order() {
    let files = vec![file("x", "X", &[]), file("c", "C", &["y"]), file("y", "Y", &[]), file("z", "Z", &[])];
    let tree = build_tree(&files);
    assert_eq!(ids(&tree), vec!["x", "y", "z"]);
    assert_eq!(ids(&tree[1].children), vec!["c"]);
    assert!(tree[0].children.is_empty());
    assert!(tree[2].children.is_empty());
}

#[test]
fn build_tree_attaches_a_child_listed_before_its_parent() {
    let files = vec![file("b", "B", &["a"]), file("a", "A", &["root"]), file("root", "R", &[])];
    let tree = build_tree(&files);
    assert_eq!(ids(&tree), vec!["root"]);
    assert_eq!(ids(&tree[0].children), vec!["a"]);
    assert_eq!(ids(&tree[0].children[0].children), vec!["b"]);
}

#[test]
fn build_tree_attaches_under_every_parent_found() {
    let files = vec![
        file("root", "R", &[]),
        file("a", "A", &["root"]),
        file("b", "B", &["root"]),
        file("c", "C", &["a", "b"]),
    ];
    let tree = build_tree(&files);
    assert_eq!(ids(&tree[0].children), vec!["a", "b"]);
    assert_eq!(ids(&tree[0].children[0].children), vec!["c"]);
    assert_eq!(ids(&tree[0].children[1].children), vec!["c"]);
}

#[test]
fn build_tree_leaves_out_files_whose_parents_are_missing() {
    let files = vec![file("root", "R", &[]), file("lost", "L", &["nowhere"]), file("d", "D", &["lost"])];
    let tree = build_tree(&files);
    assert_eq!(ids(&tree), vec!["root"]);
    assert!(tree[0].children.is_empty());
}

#[test]
fn build_tree_of_nothing_is_empty() {
    let tree = build_tree(&Vec::new());
    assert!(tree.is_empty());
}

#[test]
fn find_node_mut_finds_in_pre_order_and_hands_out_the_node() {
    let mut forest = vec![node("r1", vec![node("a", vec![node("t", vec![])])]), node("t", vec![])];
    {
        let found = find_node_mut(&mut forest, "t").unwrap();
        found.children.push(node("new", vec![]));
    }
    assert_eq!(ids(&forest[0].children[0].children[0].children), vec!["new"]);
    assert!(forest[1].children.is_empty());
}

#[test]
fn find_node_mut_finds_a_root() {
    let mut forest = vec![node("r1", vec![]), node("r2", vec![])];
    let found = find_node_mut(&mut forest, "r2").unwrap();
    assert_eq!(found.id, "r2");
    assert_eq!(found.name, "R2");
}

#[test]
fn find_node_mut_misses_an_absent_id() {
    let mut forest = vec![node("r1", vec![node("a", vec![])])];
    assert!(find_node_mut(&mut forest, "zzz").is_none());
    assert!(find_node_mut(&mut Vec::new(), "r1").is_none());
}

#[test]
fn account_tokens_decrypts_and_keeps_the_last_per_email() {
    let other_key = [9u8; 32];
    let accounts = vec![
        account("a@x.com", "tok-a1", &KEY),
        account("b@x.com", "tok-b", &KEY),
        account("a@x.com", "tok-a2", &KEY),
        account("c@x.com", "tok-c", &other_key),
    ];
    let pairs = account_tokens(&accounts, &KEY);
    assert_eq!(
        pairs,
        vec![("a@x.com".to_string(), "tok-a2".to_string()), ("b@x.com".to_string(), "tok-b".to_string())]
    );
}

#[test]
fn drive_structures_splits_listings_and_failures() {
    let results = vec![
        ("one".to_string(), Ok(vec![file("r", "R", &[]), file("k", "K", &["r"])])),
        ("two".to_string(), Err("listing failed".to_string())),
        ("three".to_string(), Ok(vec![])),
    ];
    let (drives, errors) = drive_structures(&results);
    assert_eq!(drives.len(), 2);
    assert_eq!(drives[0].drive_name, "one");
    assert_eq!(ids(&drives[0].files), vec!["r"]);
    assert_eq!(ids(&drives[0].files[0].children), vec!["k"]);
    assert_eq!(drives[1].drive_name, "three");
    assert!(drives[1].files.is_empty());
    assert_eq!(errors, vec![("two".to_string(), "listing failed".to_string())]);
}

fn size(nodes: &[Node]) -> usize {
    nodes.iter().map(|n| 1 + size(&n.children)).sum()
}

#[test]
fn build_tree_attaches_each_file_once_per_listed_parent() {
    let files = vec![
        file("c", "C", &["a", "b"]),
        file("root", "R", &[]),
        file("a", "A", &["root"]),
        file("b", "B", &["root"]),
        file("d", "D", &["c"]),
    ];
    let tree = build_tree(&files);
    assert_eq!(size(&tree), 6);
    assert_eq!(ids(&tree[0].children), vec!["a", "b"]);
    assert_eq!(ids(&tree[0].children[0].children), vec!["c"]);
    assert_eq!(ids(&tree[0].children[0].children[0].children), vec!["d"]);
    assert_eq!(ids(&tree[0].children[1].children), vec!["c"]);
    assert!(tree[0].children[1].children[0].children.is_empty());
}
