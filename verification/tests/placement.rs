use repors::execution::PoolError;
use repors::placement::{PlacementAction, PlacementPlan};
use repors::tree::{LayerTree, Location};

fn order() -> Vec<(String, String)> {
    vec![
        (String::from("root/layer-a"), String::from("stage/a")),
        (String::from("root/layer-a/sub"), String::from("stage/b")),
    ]
}

fn create(directory: &str) -> Option<PlacementAction> {
    Some(PlacementAction::Create(String::from(directory)))
}

fn rename(from: &str, to: &str) -> Option<PlacementAction> {
    Some(PlacementAction::Rename { from: String::from(from), to: String::from(to) })
}

#[test]
fn each_directory_is_made_before_its_clone_is_moved() {
    let mut plan = PlacementPlan::new(order());
    assert!(!plan.complete());
    assert_eq!(plan.next(), create("root/layer-a"));
    assert_eq!(plan.next(), create("root/layer-a"));
    assert_eq!(plan.report(Ok(())), Ok(()));
    assert_eq!(plan.next(), rename("stage/a", "root/layer-a"));
    assert_eq!(plan.report(Ok(())), Ok(()));
    assert!(!plan.complete());
    assert_eq!(plan.next(), create("root/layer-a/sub"));
    assert_eq!(plan.report(Ok(())), Ok(()));
    assert_eq!(plan.next(), rename("stage/b", "root/layer-a/sub"));
    assert_eq!(plan.report(Ok(())), Ok(()));
    assert_eq!(plan.next(), None);
    assert!(plan.complete());
}

#[test]
fn a_failed_move_ends_the_placing() {
    let mut plan = PlacementPlan::new(order());
    assert_eq!(plan.report(Ok(())), Ok(()));
    assert_eq!(
        plan.report(Err(String::from("directory not empty"))),
        Err(PoolError::PlacementFailure(String::from("directory not empty")))
    );
    assert_eq!(plan.next(), None);
    assert!(!plan.complete());
    assert_eq!(plan.report(Ok(())), Ok(()));
    assert_eq!(plan.next(), None);
    assert!(!plan.complete());
}

#[test]
fn a_failed_directory_ends_the_placing() {
    let mut plan = PlacementPlan::new(order());
    assert_eq!(
        plan.report(Err(String::from("read-only"))),
        Err(PoolError::PlacementFailure(String::from("read-only")))
    );
    assert_eq!(plan.next(), None);
    assert!(!plan.complete());
}

#[test]
fn an_empty_plan_is_complete() {
    let mut plan = PlacementPlan::new(vec![]);
    assert!(plan.complete());
    assert_eq!(plan.next(), None);
    assert_eq!(plan.report(Ok(())), Ok(()));
    assert!(plan.complete());
}

#[test]
fn a_tree_is_placed_from_the_outside_in() {
    let mut tree = LayerTree::default();
    tree.add(String::from("root/layer-a/sub"), String::from("stage/b"));
    tree.add(String::from("root/layer-a"), String::from("stage/a"));
    let mut plan = PlacementPlan::new(tree.consume());
    let mut actions = Vec::new();
    while let Some(action) = plan.next() {
        actions.push(action);
        assert_eq!(plan.report(Ok(())), Ok(()));
    }
    assert!(plan.complete());
    assert_eq!(
        actions.into_iter().map(Some).collect::<Vec<_>>(),
        vec![
            create("root/layer-a"),
            rename("stage/a", "root/layer-a"),
            create("root/layer-a/sub"),
            rename("stage/b", "root/layer-a/sub"),
        ]
    );
}

#[test]
fn a_copy_of_a_location_holds_the_same() {
    let mut location = Location::root(String::from("/a"), String::from("1"));
    assert_eq!(location.recognize(String::from("/a/b"), String::from("2")), None);
    assert_eq!(location.recognize(String::from("/a/b/c"), String::from("3")), None);
    let copy = location.clone();
    assert_eq!(copy, location);
    assert_eq!(copy.children.len(), 1);
    assert_eq!(copy.children[0].children.len(), 1);
}
