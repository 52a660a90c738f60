use repors::tree::{LayerTree, Location};

fn pair(path: &str, temp: &str) -> (String, String) {
    (String::from(path), String::from(temp))
}

fn build(inputs: &[(&str, &str)]) -> LayerTree {
    let mut tree = LayerTree::default();
    for (path, temp) in inputs {
        tree.add(String::from(*path), String::from(*temp));
    }
    tree
}

fn position(order: &[(String, String)], path: &str) -> usize {
    order.iter().position(|entry| entry.0 == path).unwrap()
}

#[test]
fn an_empty_tree_places_nothing() {
    assert_eq!(LayerTree::default().consume(), vec![]);
}

#[test]
fn a_new_location_has_no_children() {
    assert_eq!(
        Location::root(String::from("/a"), String::from("/tmp/1")),
        Location { root: String::from("/a"), temp: String::from("/tmp/1"), children: vec![] }
    );
}

#[test]
fn a_parent_added_first_is_placed_first() {
    let tree = build(&[("/a", "/tmp/1"), ("/a/b", "/tmp/2")]);
    assert_eq!(tree.consume(), vec![pair("/a", "/tmp/1"), pair("/a/b", "/tmp/2")]);
}

#[test]
fn a_parent_added_last_is_placed_first() {
    let tree = build(&[("/a/b", "/tmp/2"), ("/a", "/tmp/1")]);
    assert_eq!(tree.consume(), vec![pair("/a", "/tmp/1"), pair("/a/b", "/tmp/2")]);
}

#[test]
fn a_parent_added_last_does_not_take_over_its_child() {
    let tree = build(&[("/a/b", "/tmp/2"), ("/a", "/tmp/1")]);
    assert_eq!(
        tree.locations,
        vec![
            Location::root(String::from("/a/b"), String::from("/tmp/2")),
            Location::root(String::from("/a"), String::from("/tmp/1")),
        ]
    );
}

#[test]
fn the_deepest_ancestor_takes_the_path() {
    let tree = build(&[("/a", "1"), ("/a/b", "2"), ("/a/b/c/d", "3")]);
    assert_eq!(
        tree.locations,
        vec![Location {
            root: String::from("/a"),
            temp: String::from("1"),
            children: vec![Box::new(Location {
                root: String::from("/a/b"),
                temp: String::from("2"),
                children: vec![Box::new(Location::root(
                    String::from("/a/b/c/d"),
                    String::from("3")
                ))],
            })],
        }]
    );
}

#[test]
fn the_first_root_that_holds_a_path_takes_it() {
    let tree = build(&[("/a/b", "1"), ("/a", "2"), ("/a/b/c", "3"), ("/a/d", "4")]);
    assert_eq!(
        tree.locations,
        vec![
            Location {
                root: String::from("/a/b"),
                temp: String::from("1"),
                children: vec![Box::new(Location::root(String::from("/a/b/c"), String::from("3")))],
            },
            Location {
                root: String::from("/a"),
                temp: String::from("2"),
                children: vec![Box::new(Location::root(String::from("/a/d"), String::from("4")))],
            },
        ]
    );
    assert_eq!(
        tree.consume(),
        vec![pair("/a", "2"), pair("/a/d", "4"), pair("/a/b", "1"), pair("/a/b/c", "3")]
    );
}

#[test]
fn a_chain_is_placed_from_the_top_in_every_sequence_of_adding() {
    let chain = ["/a", "/a/b", "/a/b/c", "/a/b/c/d"];
    let sequences: [[usize; 4]; 6] = [
        [0, 1, 2, 3],
        [3, 2, 1, 0],
        [1, 3, 0, 2],
        [2, 0, 3, 1],
        [3, 0, 2, 1],
        [1, 0, 3, 2],
    ];
    for sequence in sequences {
        let mut tree = LayerTree::default();
        for index in sequence {
            tree.add(String::from(chain[index]), format!("/tmp/{index}"));
        }
        let order = tree.consume();
        assert_eq!(order.len(), 4);
        assert!(position(&order, "/a") < position(&order, "/a/b"));
        assert!(position(&order, "/a/b") < position(&order, "/a/b/c"));
        assert!(position(&order, "/a/b/c") < position(&order, "/a/b/c/d"));
    }
}

#[test]
fn two_children_of_the_end_of_a_chain_follow_the_chain() {
    let tree = build(&[
        ("/a/b/c/x", "5"),
        ("/a", "1"),
        ("/a/b/c", "3"),
        ("/a/b/c/y", "6"),
        ("/a/b", "2"),
    ]);
    let order = tree.consume();
    assert_eq!(order.len(), 5);
    assert!(position(&order, "/a") < position(&order, "/a/b"));
    assert!(position(&order, "/a/b") < position(&order, "/a/b/c"));
    assert!(position(&order, "/a/b/c") < position(&order, "/a/b/c/x"));
    assert!(position(&order, "/a/b/c") < position(&order, "/a/b/c/y"));
}

#[test]
fn every_pair_that_was_added_is_placed_once() {
    let inputs = [
        ("/x/y", "1"),
        ("/a", "2"),
        ("/x", "3"),
        ("/a/b", "4"),
        ("/q", "5"),
        ("/a/b/c", "6"),
        ("/x/z", "7"),
    ];
    let mut order = build(&inputs).consume();
    assert_eq!(order.len(), inputs.len());
    let mut expected: Vec<(String, String)> =
        inputs.iter().map(|(path, temp)| pair(path, temp)).collect();
    order.sort();
    expected.sort();
    assert_eq!(order, expected);
}

#[test]
fn a_path_added_twice_is_placed_twice() {
    let tree = build(&[("/a", "1"), ("/a/", "2"), ("/a/b", "3")]);
    assert_eq!(
        tree.locations,
        vec![
            Location {
                root: String::from("/a"),
                temp: String::from("1"),
                children: vec![Box::new(Location::root(String::from("/a/b"), String::from("3")))],
            },
            Location::root(String::from("/a/"), String::from("2")),
        ]
    );
    assert_eq!(tree.consume(), vec![pair("/a/", "2"), pair("/a", "1"), pair("/a/b", "3")]);
}

#[test]
fn a_location_does_not_take_its_own_path() {
    let mut location = Location::root(String::from("/a"), String::from("1"));
    assert_eq!(
        location.recognize(String::from("/a"), String::from("2")),
        Some(String::from("/a"))
    );
    assert_eq!(location, Location::root(String::from("/a"), String::from("1")));
}

#[test]
fn paths_apart_from_each_other_all_become_roots() {
    let tree = build(&[("/a", "1"), ("/b", "2"), ("/c/d", "3")]);
    assert_eq!(
        tree.locations,
        vec![
            Location::root(String::from("/a"), String::from("1")),
            Location::root(String::from("/b"), String::from("2")),
            Location::root(String::from("/c/d"), String::from("3")),
        ]
    );
    assert_eq!(tree.consume(), vec![pair("/c/d", "3"), pair("/b", "2"), pair("/a", "1")]);
}

#[test]
fn a_location_hands_back_a_path_that_it_does_not_hold() {
    let mut location = Location::root(String::from("/a/b"), String::from("1"));
    assert_eq!(
        location.recognize(String::from("/a"), String::from("2")),
        Some(String::from("/a"))
    );
    assert_eq!(location, Location::root(String::from("/a/b"), String::from("1")));
}

#[test]
fn nested_layers_below_a_destination_root() {
    let mut tree = LayerTree::default();
    tree.add(String::from("root/layer-a/sub"), String::from("stage/b"));
    tree.add(String::from("root/layer-a"), String::from("stage/a"));
    assert_eq!(
        tree.consume(),
        vec![pair("root/layer-a", "stage/a"), pair("root/layer-a/sub", "stage/b")]
    );
}
