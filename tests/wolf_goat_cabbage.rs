use toy_planning::problems::wolf_goat_cabbage::{Boat, RiverBank, RiverBankState, WorldAction, WorldState};
use toy_planning::search::{search, Action, State};

#[test]
fn farmer_ferries_everything_in_seven_crossings() {
    let plan = search(WorldState::default()).expect("a plan");
    assert_eq!(plan.len(), 8);
    let (_, last) = plan.last().unwrap();
    assert!(last.left.is_empty());
    assert_eq!(last.right, RiverBankState::new(1, 1, 1, 1));
    assert_eq!(last.plan_depth, 7);
    for (_, state) in plan.iter() {
        for bank in [&state.left, &state.right] {
            let eaten = bank.farmers == 0 && bank.goats > 0 && (bank.wolves > 0 || bank.cabbages > 0);
            assert!(!eaten);
        }
    }
}

#[test]
fn first_crossing_takes_the_goat() {
    let actions = WorldState::default().get_actions();
    assert_eq!(actions.len(), 1);
    assert_eq!(actions[0], WorldAction::new(1, 0, 1, 0));
}

#[test]
fn rules_of_the_crossing() {
    let state = WorldState::default();
    // Nobody steers.
    assert!(!WorldAction::new(0, 0, 1, 0).is_applicable(&state));
    // The boat is empty.
    assert!(!WorldAction::new(0, 0, 0, 0).is_applicable(&state));
    // Too many for the boat.
    assert!(!WorldAction::new(1, 1, 1, 0).is_applicable(&state));
    // The wolf would eat the goat.
    assert!(!WorldAction::new(1, 0, 0, 1).is_applicable(&state));
    // More than there is.
    assert!(!WorldAction::new(2, 0, 0, 0).is_applicable(&state));
    assert!(WorldAction::new(1, 0, 1, 0).is_applicable(&state));
}

#[test]
fn crossing_updates_banks_depth_and_boat() {
    let next = WorldAction::new(1, 0, 1, 0).apply(&WorldState::default());
    assert_eq!(next.left, RiverBankState::new(0, 1, 0, 1));
    assert_eq!(next.right, RiverBankState::new(1, 0, 1, 0));
    assert_eq!(next.plan_depth, 1);
    assert_eq!(next.boat, Boat::new(2, RiverBank::Right));
    assert_eq!(
        next.unique_hash(),
        (1u64 << 24) | (1u64 << 8) | 1
    );
}

#[test]
fn action_size() {
    assert_eq!(WorldAction::new(1, 2, 3, 4).len(), 10);
    assert!(WorldAction::new(0, 0, 0, 0).is_empty());
    assert!(!WorldAction::new(0, 0, 0, 1).is_empty());
    assert!(RiverBankState::new(0, 0, 0, 0).is_empty());
    assert!(!RiverBankState::new(0, 0, 1, 0).is_empty());
}

#[test]
fn wolf_helpers() {
    let mut state = WorldState::default();
    assert_eq!(*state.boat_bank(), RiverBankState::new(1, 1, 1, 1));
    let (here, there) = state.here_there();
    assert_eq!(*here, RiverBankState::new(1, 1, 1, 1));
    assert_eq!(*there, RiverBankState::new(0, 0, 0, 0));
    {
        let (here, there) = state.here_there_mut();
        here.wolves = 0;
        there.wolves = 1;
    }
    assert_eq!(state.right.wolves, 1);
    assert_eq!(RiverBank::Right.switch_bank(), RiverBank::Left);
    assert_eq!(Boat::new(3, RiverBank::Left).switch_bank(), Boat::new(3, RiverBank::Right));
}
