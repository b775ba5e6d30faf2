use toy_planning::humans_and_zombies::{RiverBank, RiverBankState, WorldAction, WorldState};
use toy_planning::search::{search, Action, State};

#[test]
fn two_seat_boat_applicable_works() {
    let state = WorldState::new(
        RiverBankState::new(2, 2),
        RiverBankState::new(1, 1),
        RiverBank::Left,
    );

    let action = WorldAction::new(2, 0).expect("valid action");

    assert!(action.is_applicable(&state));
}

#[test]
fn boat_carries_one_or_two() {
    assert!(WorldAction::new(0, 0).is_err());
    assert!(WorldAction::new(2, 1).is_err());
    assert!(WorldAction::new(3, 0).is_err());
    assert_eq!(WorldAction::new(1, 1), Ok(WorldAction { humans: 1, zombies: 1 }));
    assert_eq!(WorldAction::new(0, 1), Ok(WorldAction { humans: 0, zombies: 1 }));
}

#[test]
fn two_seat_boat_solves_three_and_three() {
    let plan = search(WorldState::default()).expect("a plan");
    assert_eq!(plan.len(), 12);
    let (_, last) = plan.last().unwrap();
    assert!(last.left.is_empty());
    assert_eq!(last.right, RiverBankState::new(3, 3));
    assert_eq!(last.boat, RiverBank::Right);
    for i in 1..plan.len() {
        let action = plan[i].0.as_ref().expect("an action");
        assert!(action.is_applicable(&plan[i - 1].1));
        assert_eq!(action.apply(&plan[i - 1].1), plan[i].1);
    }
}

#[test]
fn two_seat_boat_moves_in_fixed_order() {
    let actions = WorldState::default().get_actions();
    let moves: Vec<(u8, u8)> = actions.iter().map(|a| (a.humans, a.zombies)).collect();
    assert_eq!(moves, vec![(0, 2), (1, 1), (0, 1)]);
}

#[test]
fn two_seat_boat_helpers() {
    let mut state = WorldState::default();
    assert_eq!(*state.boat_bank(), RiverBankState::new(3, 3));
    assert_eq!(state.unique_hash(), (3u32 << 16) | (3u32 << 8));
    {
        let (here, there) = state.here_there_mut();
        here.zombies = 1;
        there.zombies = 2;
    }
    let (here, there) = state.here_there();
    assert_eq!(*here, RiverBankState::new(3, 1));
    assert_eq!(*there, RiverBankState::new(0, 2));
    assert_eq!(RiverBank::Right.switch_bank(), RiverBank::Left);
    assert!(!state.is_goal());
}
