use core::ops::Range;
use either::Either;
use incrementalmerkletree::{Address, Level, Position};

fn pos(n: usize) -> Position {
    Position::from(n)
}

fn lvl(n: u8) -> Level {
    Level::from(n)
}

#[test]
fn position_is_complete_subtree() {
    assert!(pos(0).is_complete_subtree(lvl(0)));
    assert!(pos(1).is_complete_subtree(lvl(1)));
    assert!(!pos(2).is_complete_subtree(lvl(1)));
    assert!(!pos(2).is_complete_subtree(lvl(2)));
    assert!(pos(3).is_complete_subtree(lvl(2)));
    assert!(!pos(4).is_complete_subtree(lvl(2)));
    assert!(pos(7).is_complete_subtree(lvl(3)));
    assert!(pos(u32::MAX as usize).is_complete_subtree(lvl(32)));
}

#[test]
fn position_past_ommer_count() {
    assert_eq!(0, pos(0).past_ommer_count());
    assert_eq!(1, pos(1).past_ommer_count());
    assert_eq!(1, pos(2).past_ommer_count());
    assert_eq!(2, pos(3).past_ommer_count());
    assert_eq!(1, pos(4).past_ommer_count());
    assert_eq!(3, pos(7).past_ommer_count());
    assert_eq!(1, pos(8).past_ommer_count());
}

#[test]
fn position_root_level() {
    assert_eq!(lvl(0), pos(0).root_level());
    assert_eq!(lvl(1), pos(1).root_level());
    assert_eq!(lvl(2), pos(2).root_level());
    assert_eq!(lvl(2), pos(3).root_level());
    assert_eq!(lvl(3), pos(4).root_level());
    assert_eq!(lvl(3), pos(7).root_level());
    assert_eq!(lvl(4), pos(8).root_level());
}

#[test]
fn current_incomplete() {
    let addr = |l, i| Address::from_parts(lvl(l), i);
    assert_eq!(addr(0, 0), addr(0, 0).current_incomplete());
    assert_eq!(addr(1, 0), addr(0, 1).current_incomplete());
    assert_eq!(addr(0, 2), addr(0, 2).current_incomplete());
    assert_eq!(addr(2, 0), addr(0, 3).current_incomplete());
}

#[test]
fn next_incomplete_parent() {
    let addr = |l, i| Address::from_parts(lvl(l), i);
    assert_eq!(addr(1, 0), addr(0, 0).next_incomplete_parent());
    assert_eq!(addr(1, 0), addr(0, 1).next_incomplete_parent());
    assert_eq!(addr(2, 0), addr(0, 2).next_incomplete_parent());
    assert_eq!(addr(2, 0), addr(0, 3).next_incomplete_parent());
    assert_eq!(addr(3, 0), addr(2, 0).next_incomplete_parent());
    assert_eq!(addr(1, 2), addr(0, 4).next_incomplete_parent());
    assert_eq!(addr(3, 0), addr(1, 2).next_incomplete_parent());
}

#[test]
fn addr_is_ancestor() {
    let l0 = lvl(0);
    let l1 = lvl(1);
    assert!(Address::from_parts(l1, 0).is_ancestor_of(&Address::from_parts(l0, 0)));
    assert!(Address::from_parts(l1, 0).is_ancestor_of(&Address::from_parts(l0, 1)));
    assert!(!Address::from_parts(l1, 0).is_ancestor_of(&Address::from_parts(l0, 2)));
}

#[test]
fn addr_position_range() {
    assert_eq!(
        Address::from_parts(lvl(0), 0).position_range(),
        Range {
            start: pos(0),
            end: pos(1)
        }
    );
    assert_eq!(
        Address::from_parts(lvl(1), 0).position_range(),
        Range {
            start: pos(0),
            end: pos(2)
        }
    );
    assert_eq!(
        Address::from_parts(lvl(2), 1).position_range(),
        Range {
            start: pos(4),
            end: pos(8)
        }
    );
}

#[test]
fn addr_above_position() {
    assert_eq!(
        Address::above_position(lvl(3), pos(9)),
        Address::from_parts(lvl(3), 1)
    );
}

#[test]
fn addr_children() {
    assert_eq!(Address::from_parts(lvl(0), 1).children(), None);

    assert_eq!(
        Address::from_parts(lvl(3), 1).children(),
        Some((
            Address::from_parts(lvl(2), 2),
            Address::from_parts(lvl(2), 3),
        ))
    );
}

#[test]
fn addr_is_ancestor_of() {
    assert!(Address::from_parts(lvl(3), 1).is_ancestor_of(&Address::from_parts(lvl(2), 2)));
    assert!(Address::from_parts(lvl(3), 1).is_ancestor_of(&Address::from_parts(lvl(1), 7)));
    assert!(!Address::from_parts(lvl(3), 1).is_ancestor_of(&Address::from_parts(lvl(1), 8)));
}

#[test]
fn addr_context() {
    assert_eq!(
        Address::from_parts(lvl(3), 1).context(lvl(0)),
        Either::Right(Range { start: 8, end: 16 })
    );

    assert_eq!(
        Address::from_parts(lvl(3), 4).context(lvl(5)),
        Either::Left(Address::from_parts(lvl(5), 1))
    );
}
