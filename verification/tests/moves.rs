use ante_passes::cst::Context;
use ante_passes::ids::Location;
use ante_passes::type_inference::moves::{MovePath, MoveTracker};
use rustc_hash::FxHashSet;

fn at(start: u32) -> Location {
    Location { file: 0, start, end: start + 1 }
}

fn variable(name: u32) -> MovePath {
    MovePath::Variable(name)
}

fn field(parent: MovePath, name: &str) -> MovePath {
    MovePath::field(parent, name.to_string())
}

#[test]
fn a_part_is_under_the_whole() {
    let whole = variable(1);
    let part = field(field(variable(1), "a"), "b");
    assert!(part.is_descendant_of(&whole));
    assert!(part.is_descendant_of(&field(variable(1), "a")));
    assert!(!part.is_descendant_of(&part));
    assert!(!whole.is_descendant_of(&part));
    assert!(!part.is_descendant_of(&variable(2)));
    assert!(!field(variable(1), "ab").is_descendant_of(&field(variable(1), "a")));
    assert_eq!(part.root_variable(), 1);
}

#[test]
fn rerooting_replaces_the_head() {
    let part = field(field(variable(1), "a"), "b");
    let moved = part.reroot(&field(variable(1), "a"), &variable(9)).unwrap();
    assert!(moved.same_place(&field(variable(9), "b")));
    assert!(part.reroot(&part, &variable(9)).is_none());
    assert!(part.reroot(&variable(2), &variable(9)).is_none());
}

#[test]
fn a_place_is_displayed_by_its_name_and_fields() {
    let mut context = Context::new();
    let name = context.push_name("c".to_string(), at(0));
    let path = field(field(variable(name), "one"), "two");
    assert_eq!(path.display_name(&context), "c.one.two");
}

#[test]
fn a_moved_whole_moves_its_parts() {
    let mut tracker = MoveTracker::default();
    tracker.record_move(field(variable(1), "a"), at(3));
    assert_eq!(tracker.is_moved(&field(field(variable(1), "a"), "b")), Some(at(3)));
    assert_eq!(tracker.is_moved(&variable(1)), None);
    let (child, location) = tracker.has_child_moved(&variable(1)).unwrap();
    assert!(child.same_place(&field(variable(1), "a")));
    assert_eq!(location, at(3));
    assert!(tracker.has_child_moved(&field(variable(1), "a")).is_none());
}

#[test]
fn assigning_gives_a_place_and_its_parts_back() {
    let mut tracker = MoveTracker::default();
    tracker.record_move(field(variable(1), "a"), at(3));
    tracker.record_move(variable(1), at(4));
    tracker.record_move(variable(2), at(5));
    tracker.clear_moves(&variable(1));
    assert_eq!(tracker.is_moved(&variable(1)), None);
    assert!(tracker.has_child_moved(&variable(1)).is_none());
    assert_eq!(tracker.is_moved(&variable(2)), Some(at(5)));
}

#[test]
fn restoring_undoes_a_move() {
    let mut tracker = MoveTracker::default();
    let saved = tracker.save_move(&variable(1));
    assert_eq!(saved, None);
    tracker.record_move(variable(1), at(4));
    tracker.restore_move(&variable(1), saved);
    assert_eq!(tracker.is_moved(&variable(1)), None);
    tracker.record_move(variable(1), at(4));
    let saved = tracker.save_move(&variable(1));
    tracker.record_move(variable(1), at(8));
    tracker.restore_move(&variable(1), saved);
    assert_eq!(tracker.is_moved(&variable(1)), Some(at(4)));
}

#[test]
fn moves_under_a_payload_are_carried_over() {
    let mut tracker = MoveTracker::default();
    tracker.record_move(field(field(variable(1), "Ok#0"), "0"), at(3));
    tracker.record_move(field(variable(1), "Ok#0"), at(4));
    tracker.record_move(variable(2), at(5));
    let carried = tracker.reroot_descendants(&field(variable(1), "Ok#0"), &variable(9));
    assert_eq!(carried.is_moved(&field(variable(9), "0")), Some(at(3)));
    assert_eq!(carried.is_moved(&variable(9)), None);
    assert_eq!(carried.is_moved(&variable(2)), None);
}

#[test]
fn only_whole_locals_count_as_whole() {
    let mut tracker = MoveTracker::default();
    tracker.record_move(field(variable(1), "a"), at(3));
    tracker.record_move(variable(2), at(5));
    assert_eq!(tracker.whole_moved_locals(), vec![2]);
}

#[test]
fn moves_of_captured_variables_surface() {
    let mut outer = MoveTracker::default();
    outer.record_move(variable(3), at(1));
    let mut inner = MoveTracker::default();
    inner.record_move(field(variable(1), "a"), at(3));
    inner.record_move(variable(2), at(5));
    inner.record_move(variable(3), at(9));
    let mut roots = FxHashSet::default();
    roots.insert(1);
    roots.insert(3);
    outer.merge_moves_rooted_in(&inner, &roots);
    assert_eq!(outer.is_moved(&field(variable(1), "a")), Some(at(3)));
    assert_eq!(outer.is_moved(&variable(2)), None);
    assert_eq!(outer.is_moved(&variable(3)), Some(at(1)));
}

#[test]
fn moved_in_one_branch_is_moved_behind_the_branches() {
    let mut base = MoveTracker::default();
    base.record_move(variable(1), at(1));
    let mut first = base.clone();
    first.record_move(variable(2), at(2));
    let mut second = base.clone();
    second.record_move(variable(3), at(3));
    let merged = MoveTracker::merge_branches(&base, &vec![first, second]);
    assert_eq!(merged.is_moved(&variable(1)), Some(at(1)));
    assert_eq!(merged.is_moved(&variable(2)), Some(at(2)));
    assert_eq!(merged.is_moved(&variable(3)), Some(at(3)));
    assert_eq!(merged.is_moved(&variable(4)), None);
}
