use core::cmp::Ordering;
use core::ops::Range;
use either::Either;
use incrementalmerkletree::{Address, Hashable, Level, Position, Retention};

fn pos(n: usize) -> Position {
    Position::from(n)
}

fn lvl(n: u8) -> Level {
    Level::from(n)
}

fn addr(l: u8, i: usize) -> Address {
    Address::from_parts(lvl(l), i)
}

#[test]
fn sibling_is_involutive_and_shares_parent() {
    for &(l, i) in &[(0u8, 0usize), (0, 1), (3, 6), (3, 7), (5, 1000)] {
        let a = addr(l, i);
        assert_eq!(a.sibling().sibling(), a);
        assert_ne!(a.sibling(), a);
        assert_eq!(a.sibling().parent(), a.parent());
    }
    assert_eq!(addr(2, 4).sibling(), addr(2, 5));
    assert_eq!(addr(2, 5).sibling(), addr(2, 4));
    assert_eq!(addr(0, usize::MAX).sibling(), addr(0, usize::MAX - 1));
}

#[test]
fn parent_halves_the_index() {
    assert_eq!(addr(2, 5).parent(), addr(3, 2));
    assert_eq!(addr(0, 0).parent(), addr(1, 0));
    assert!(addr(2, 5).parent().is_ancestor_of(&addr(2, 5)));
    assert!(addr(7, 9).contains(&addr(7, 9)));
}

#[test]
fn children_have_the_address_as_parent() {
    let a = addr(4, 11);
    let (left, right) = a.children().unwrap();
    assert_eq!(left, addr(3, 22));
    assert_eq!(right, addr(3, 23));
    assert_eq!(left.parent(), a);
    assert_eq!(right.parent(), a);
    assert_eq!(left.sibling(), right);
    assert!(a.is_ancestor_of(&left) && a.is_ancestor_of(&right));
    assert!(!left.is_right_child() && right.is_right_child());
}

#[test]
fn children_index_wraps_in_the_word() {
    let high = 1usize << (usize::BITS - 1);
    let (left, right) = addr(1, high).children().unwrap();
    assert_eq!(left, addr(0, 0));
    assert_eq!(right, addr(0, 1));
}

#[test]
fn ancestry_is_transitive() {
    let a = addr(5, 1);
    let b = addr(3, 5);
    let c = addr(1, 22);
    assert!(a.is_ancestor_of(&b));
    assert!(b.is_ancestor_of(&c));
    assert!(a.is_ancestor_of(&c));
    assert!(!c.is_ancestor_of(&a));
    assert!(!a.is_ancestor_of(&a));
    assert!(a.contains(&c));
    assert!(!a.contains(&addr(1, 40)));
}

#[test]
fn position_ranges_of_addresses() {
    let a = addr(2, 1);
    assert_eq!(a.position_range_start(), pos(4));
    assert_eq!(a.position_range_end(), pos(8));
    assert_eq!(a.max_position(), pos(7));
    assert_eq!(addr(0, 9).max_position(), pos(9));
    let high = 1usize << (usize::BITS - 1);
    assert_eq!(addr(1, high).position_range_start(), pos(0));
}

#[test]
fn above_position_contains_the_leaf() {
    for p in [0usize, 1, 9, 15, 16, 1000] {
        for l in 0u8..6 {
            let a = Address::above_position(lvl(l), pos(p));
            let r = a.position_range();
            assert!(r.start <= pos(p) && pos(p) < r.end);
            assert_eq!(usize::from(r.end) - usize::from(r.start), 1usize << l);
            assert_eq!(a.position_cmp(pos(p)), Ordering::Equal);
            assert!(a.contains(&Address::from(pos(p))));
        }
    }
}

#[test]
fn position_cmp_orders_leaves() {
    let a = addr(2, 1);
    assert_eq!(a.position_cmp(pos(3)), Ordering::Greater);
    assert_eq!(a.position_cmp(pos(4)), Ordering::Equal);
    assert_eq!(a.position_cmp(pos(7)), Ordering::Equal);
    assert_eq!(a.position_cmp(pos(8)), Ordering::Less);
}

#[test]
fn current_incomplete_is_a_left_child_containing_the_address() {
    for &(l, i) in &[(0u8, 0usize), (0, 7), (2, 11), (1, 6), (3, 15)] {
        let a = addr(l, i);
        let c = a.current_incomplete();
        assert!(!c.is_right_child());
        assert!(c.contains(&a));
    }
    assert_eq!(addr(2, 11).current_incomplete(), addr(4, 2));
}

#[test]
fn next_incomplete_parent_climbs() {
    for &(l, i) in &[(0u8, 0usize), (0, 5), (2, 6), (1, 7)] {
        let a = addr(l, i);
        assert!(a.next_incomplete_parent().level() > a.level());
    }
}

#[test]
fn next_at_level_steps_right() {
    assert_eq!(addr(3, 4).next_at_level(), addr(3, 5));
    assert_eq!(addr(3, 4).level(), lvl(3));
    assert_eq!(addr(3, 4).index(), 4);
}

#[test]
fn context_in_both_directions() {
    let a = addr(2, 3);
    assert_eq!(a.context(lvl(2)), Either::Left(a));
    assert_eq!(a.context(lvl(4)), Either::Left(addr(4, 0)));
    assert_eq!(a.context(lvl(1)), Either::Right(Range { start: 6, end: 8 }));
    assert_eq!(a.context(lvl(0)), Either::Right(Range { start: 12, end: 16 }));
}

#[test]
fn position_bits() {
    assert!(pos(5).is_odd());
    assert!(!pos(6).is_odd());
    for p in [0usize, 1, 2, 3, 6, 7, 8, 100, 255, 256] {
        let root = u8::from(pos(p).root_level());
        assert!(p < (1usize << root));
        if p > 0 {
            assert!((1usize << (root - 1)) <= p);
        }
        assert!(pos(p).past_ommer_count() <= root as usize);
        assert_eq!(pos(p).past_ommer_count(), p.count_ones() as usize);
        for k in 0u8..10 {
            assert_eq!(
                pos(p).is_complete_subtree(lvl(k)),
                (p + 1) % (1usize << k) == 0
            );
        }
    }
    assert_eq!(pos(usize::MAX).root_level(), lvl(usize::BITS as u8));
    assert!(pos(usize::MAX).is_complete_subtree(lvl(usize::BITS as u8)));
    assert!(!pos(usize::MAX - 1).is_complete_subtree(lvl(200)));
}

#[test]
fn position_conversions_and_arithmetic() {
    let p = pos(41);
    assert_eq!(usize::from(p), 41);
    assert_eq!(u64::from(p), 41);
    assert_eq!(Position::try_from(41u64).unwrap(), p);
    assert_eq!(p + 1, pos(42));
    assert_eq!((p + 9) - 9, p);
    let mut q = p;
    q += 4;
    assert_eq!(q, pos(45));
    assert_eq!(p - 41, pos(0));
}

#[test]
fn level_conversions_and_arithmetic() {
    let l = lvl(7);
    assert_eq!(u8::from(l), 7);
    assert_eq!(usize::from(l), 7);
    assert_eq!(l + 3, lvl(10));
    assert_eq!((l + 3) - 3, l);
    assert_eq!(l - 7, lvl(0));
    assert_eq!(lvl(2).iter_to(lvl(5)), vec![lvl(2), lvl(3), lvl(4)]);
    assert!(lvl(5).iter_to(lvl(2)).is_empty());
    assert!(lvl(5).iter_to(lvl(5)).is_empty());
}

#[test]
fn address_position_conversions() {
    let a = Address::from(pos(12));
    assert_eq!(a, addr(0, 12));
    assert_eq!(Address::from(&pos(12)), a);
    assert_eq!(Option::<Position>::from(a), Some(pos(12)));
    assert_eq!(Option::<Position>::from(&a), Some(pos(12)));
    assert_eq!(Option::<Position>::from(addr(1, 12)), None);
    assert_eq!(Option::<Position>::from(&addr(1, 12)), None);
}

#[test]
fn retention_kinds() {
    let e: Retention<u32> = Retention::Ephemeral;
    let c = Retention::Checkpoint { id: 7u32, is_marked: true };
    let u = Retention::Checkpoint { id: 8u32, is_marked: false };
    let m: Retention<u32> = Retention::Marked;
    assert!(!e.is_checkpoint() && !e.is_marked());
    assert!(c.is_checkpoint() && c.is_marked());
    assert!(u.is_checkpoint() && !u.is_marked());
    assert!(!m.is_checkpoint() && m.is_marked());
    assert_eq!(c.map(|id| *id as u64 * 10), Retention::Checkpoint { id: 70u64, is_marked: true });
    assert_eq!(u.map(|id| *id + 1), Retention::Checkpoint { id: 9u32, is_marked: false });
    assert_eq!(e.map(|id| *id + 1), Retention::Ephemeral);
    assert_eq!(m.map(|id| *id + 1), Retention::Marked);
}

#[derive(Debug, PartialEq)]
struct Text(String);

impl Hashable for Text {
    fn empty_leaf() -> Self {
        Text("_".to_string())
    }

    fn combine(level: Level, a: &Self, b: &Self) -> Self {
        Text(format!("{}[{}{}]", u8::from(level), a.0, b.0))
    }
}

#[test]
fn empty_roots_combine_empty_leaves() {
    assert_eq!(Text::empty_root(lvl(0)), Text("_".to_string()));
    assert_eq!(Text::empty_root(lvl(1)), Text("0[__]".to_string()));
    assert_eq!(Text::empty_root(lvl(2)), Text("1[0[__]0[__]]".to_string()));
    let below = Text::empty_root(lvl(3));
    assert_eq!(Text::empty_root(lvl(4)), Text::combine(lvl(3), &below, &below));
}

#[test]
fn children_split_the_position_range() {
    for &(l, i) in &[(1u8, 0usize), (3, 5), (6, 17)] {
        let a = addr(l, i);
        let (left, right) = a.children().unwrap();
        assert_eq!(left.position_range_start(), a.position_range_start());
        assert_eq!(left.position_range_end(), right.position_range_start());
        assert_eq!(right.position_range_end(), a.position_range_end());
    }
}

#[test]
fn above_position_climbs_by_parent() {
    for p in [0usize, 5, 77, 1023, 4096] {
        for l in 0u8..10 {
            assert_eq!(
                Address::above_position(lvl(l + 1), pos(p)),
                Address::above_position(lvl(l), pos(p)).parent()
            );
        }
    }
}
