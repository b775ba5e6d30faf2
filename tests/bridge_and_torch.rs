use toy_planning::bridge_and_torch::{Person, RiverSide, RiverSideState, Torch, WorldAction, WorldState};
use toy_planning::search::{search, Action, State};

fn people(times: &[u8]) -> Vec<Person> {
    times.iter().map(|t| Person::new(*t)).collect()
}

fn times(people: &[Person]) -> Vec<u8> {
    people.iter().map(|p| p.walking_time).collect()
}

#[test]
fn default_bridge_is_crossed_in_time() {
    let plan = search(WorldState::default()).expect("a plan");
    let (_, last) = plan.last().unwrap();
    assert!(last.left.is_empty());
    assert_eq!(last.right.people.len(), 4);
    assert!(last.time <= 15);
    assert_eq!(last.time as u16 + last.torch.remaining_time as u16, 15);
    for i in 1..plan.len() {
        let action = plan[i].0.as_ref().expect("an action");
        let before = &plan[i - 1].1;
        assert!(action.is_applicable(before));
        assert!(action.walking_time() <= before.torch.remaining_time);
        assert_eq!(action.apply(before), plan[i].1);
    }
}

#[test]
fn empty_torch_rejects_every_crossing() {
    let state = WorldState::new(
        RiverSideState::new(people(&[1, 2])),
        RiverSideState::new(vec![]),
        Torch::new(0, RiverSide::Left),
        0,
        2,
    );
    assert!(!WorldAction::new(people(&[1])).is_applicable(&state));
    assert!(!WorldAction::new(people(&[1, 2])).is_applicable(&state));
    assert!(state.get_actions().is_empty());
    assert!(search(state).is_none());
}

#[test]
fn slow_walkers_are_rejected_by_a_short_torch() {
    let state = WorldState::new(
        RiverSideState::new(people(&[1, 2, 5])),
        RiverSideState::new(vec![]),
        Torch::new(2, RiverSide::Left),
        0,
        2,
    );
    assert!(WorldAction::new(people(&[1, 2])).is_applicable(&state));
    assert!(!WorldAction::new(people(&[1, 5])).is_applicable(&state));
    for action in state.get_actions() {
        assert!(action.walking_time() <= 2);
        assert!(!action.people.contains(&Person::new(5)));
    }
    assert!(search(state).is_none());
}

#[test]
fn repeated_walkers_give_distinct_groups() {
    let state = WorldState::new(
        RiverSideState::new(people(&[1, 1, 5])),
        RiverSideState::new(vec![]),
        Torch::new(15, RiverSide::Left),
        0,
        2,
    );
    let groups: Vec<Vec<u8>> = state.get_actions().iter().map(|a| times(&a.people)).collect();
    assert_eq!(groups, vec![vec![1], vec![5], vec![1, 1], vec![1, 5], vec![5, 1]]);
}

#[test]
fn crossing_moves_people_torch_and_time() {
    let state = WorldState::default();
    let next = WorldAction::new(people(&[2, 1])).apply(&state);
    assert_eq!(times(&next.left.people), vec![5, 8]);
    assert_eq!(times(&next.right.people), vec![2, 1]);
    assert_eq!(next.time, 2);
    assert_eq!(next.torch, Torch::new(13, RiverSide::Right));
    let back = WorldAction::new(people(&[1])).apply(&next);
    assert_eq!(times(&back.left.people), vec![5, 8, 1]);
    assert_eq!(times(&back.right.people), vec![2]);
    assert_eq!(back.time, 3);
    assert_eq!(back.torch, Torch::new(12, RiverSide::Left));
}

#[test]
fn absent_walkers_cannot_cross() {
    let state = WorldState::default();
    assert!(!WorldAction::new(people(&[3])).is_applicable(&state));
    assert!(!WorldAction::new(people(&[1, 1])).is_applicable(&state));
}

#[test]
fn walking_time_is_the_slowest() {
    assert_eq!(WorldAction::new(people(&[2, 8, 5])).walking_time(), 8);
    assert_eq!(WorldAction::new(people(&[4])).walking_time(), 4);
}

#[test]
fn hash_ignores_time_but_not_people() {
    let a = WorldState::new(
        RiverSideState::new(people(&[5, 8])),
        RiverSideState::new(people(&[1, 2])),
        Torch::new(13, RiverSide::Right),
        2,
        2,
    );
    let mut b = a.clone();
    b.time = 7;
    assert!(a.unique_hash() == b.unique_hash());
    let mut c = a.clone();
    c.left = RiverSideState::new(people(&[8, 5]));
    assert!(a.unique_hash() != c.unique_hash());
    let mut d = a.clone();
    d.torch = Torch::new(12, RiverSide::Right);
    assert!(a.unique_hash() != d.unique_hash());
}

#[test]
fn bridge_helpers() {
    let mut state = WorldState::default();
    assert_eq!(times(&state.torch_side().people), vec![1, 2, 5, 8]);
    {
        let (here, there) = state.here_there_mut();
        here.people.pop();
        there.people.push(Person::new(8));
    }
    assert_eq!(times(&state.left.people), vec![1, 2, 5]);
    assert_eq!(times(&state.right.people), vec![8]);
    assert_eq!(RiverSide::Left.switch(), RiverSide::Right);
    assert_eq!(RiverSide::Right.switch(), RiverSide::Left);
    assert!(RiverSideState::new(vec![]).is_empty());
    assert!(!state.is_goal());
}
