use toy_planning::history::{History, Lineage};
use toy_planning::problems::humans_and_zombies::{Boat, RiverBank, RiverBankState, WorldState};
use toy_planning::search::{Search, Step};
use toy_planning::strategies::{Fifo, Lifo};

#[test]
fn fifo_pops_in_insertion_order() {
    let mut q = Fifo::new();
    assert_eq!(q.pop(), None::<u8>);
    q.push(1u8);
    q.push(2);
    q.push(3);
    assert_eq!(q.pop(), Some(1));
    q.push(4);
    assert_eq!(q.pop(), Some(2));
    assert_eq!(q.pop(), Some(3));
    assert_eq!(q.pop(), Some(4));
    assert_eq!(q.pop(), None);
}

#[test]
fn lifo_pops_the_newest_first() {
    let mut s = Lifo::new();
    assert_eq!(s.pop(), None::<u8>);
    s.push(1u8);
    s.push(2);
    s.push(3);
    assert_eq!(s.pop(), Some(3));
    s.push(4);
    assert_eq!(s.pop(), Some(4));
    assert_eq!(s.pop(), Some(2));
    assert_eq!(s.pop(), Some(1));
    assert_eq!(s.pop(), None);
}

#[test]
fn lineage_root_has_no_parent() {
    let root: Lineage<u8, char> = Lineage::new(0, None, None, 7);
    assert_eq!(root.parent_id(), None);
    let child: Lineage<u8, char> = Lineage::new(3, Some(1), Some('x'), 9);
    assert_eq!(child.parent_id(), Some(1));
    assert_eq!(child.id, 3);
}

#[test]
fn backtrack_follows_parents_to_the_root() {
    let mut history: History<u8, char> = History::new();
    let root = history.create_root(10);
    assert_eq!(root, 0);
    let a = history.create_entry('a', 11, root);
    let b = history.create_entry('b', 12, root);
    let c = history.create_entry('c', 13, a);
    let d = history.create_entry('d', 14, c);
    assert_eq!((a, b, c, d), (1, 2, 3, 4));
    assert_eq!(history.len(), 5);
    assert_eq!(history.get(3).parent_id(), Some(1));
    let plan = history.backtrack(d);
    assert_eq!(plan, vec![(None, 10), (Some('a'), 11), (Some('c'), 13), (Some('d'), 14)]);
}

#[test]
fn backtrack_of_the_root_is_the_root() {
    let mut history: History<u8, char> = History::new();
    let root = history.create_root(5);
    history.create_entry('z', 6, root);
    assert_eq!(history.backtrack(root), vec![(None, 5)]);
}

#[test]
fn steps_expand_each_node_once() {
    let mut run = Search::new(WorldState::default());
    match run.step() {
        Step::Expanded { id, children } => {
            assert_eq!(id, 0);
            assert_eq!(children, 3);
        }
        _ => panic!("the root is expanded first"),
    }
    match run.step() {
        Step::Expanded { id, .. } => assert_eq!(id, 1),
        _ => panic!("the first child is expanded next"),
    }
    let state = WorldState::new(
        RiverBankState::new(1, 0),
        RiverBankState::new(0, 0),
        Boat::new(1, RiverBank::Right),
    );
    let mut stuck = Search::new(state);
    assert!(matches!(stuck.step(), Step::Expanded { id: 0, children: 0 }));
    assert!(matches!(stuck.step(), Step::Exhausted));
}

#[test]
fn goal_step_names_the_node() {
    let state = WorldState::new(
        RiverBankState::new(0, 0),
        RiverBankState::new(1, 1),
        Boat::new(2, RiverBank::Right),
    );
    let mut run = Search::new(state);
    match run.step() {
        Step::Goal(id) => {
            assert_eq!(id, 0);
            let plan = run.plan(id);
            assert_eq!(plan.len(), 1);
        }
        _ => panic!("the root is a goal"),
    }
}
