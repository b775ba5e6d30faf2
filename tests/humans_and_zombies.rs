use toy_planning::problems::humans_and_zombies::{Boat, RiverBank, RiverBankState, WorldAction, WorldState};
use toy_planning::search::{search, Action, State};

fn outnumbered(bank: &RiverBankState) -> bool {
    bank.humans > 0 && bank.zombies > bank.humans
}

#[test]
fn humans_and_zombies_applicable_works() {
    let state = WorldState::new(
        RiverBankState::new(2, 2),
        RiverBankState::new(1, 1),
        Boat::new(2, RiverBank::Left),
    );

    let action = WorldAction::new(2, 0);

    assert!(action.is_applicable(&state));
}

#[test]
fn three_humans_three_zombies_are_ferried_across() {
    let plan = search(WorldState::default()).expect("a plan");
    let (first_action, first) = &plan[0];
    assert!(first_action.is_none());
    assert_eq!(*first, WorldState::default());
    let (_, last) = plan.last().unwrap();
    assert!(last.left.is_empty());
    assert_eq!(last.right, RiverBankState::new(3, 3));
    assert_eq!(last.boat.bank, RiverBank::Right);
    for (_, state) in plan.iter() {
        assert!(!outnumbered(&state.left));
        assert!(!outnumbered(&state.right));
    }
    // Breadth-first search finds the shortest plan: eleven crossings.
    assert_eq!(plan.len(), 12);
}

#[test]
fn plan_steps_are_applicable_and_exact() {
    let plan = search(WorldState::default()).expect("a plan");
    for i in 1..plan.len() {
        let action = plan[i].0.as_ref().expect("an action");
        let before = &plan[i - 1].1;
        assert!(action.is_applicable(before));
        assert_eq!(action.apply(before), plan[i].1);
    }
    for (_, state) in plan[..plan.len() - 1].iter() {
        assert!(!state.is_goal());
    }
    assert!(plan.last().unwrap().1.is_goal());
}

#[test]
fn equal_roots_give_equal_plans() {
    let a = search(WorldState::default()).expect("a plan");
    let b = search(WorldState::default()).expect("a plan");
    assert_eq!(a.len(), b.len());
    for (x, y) in a.iter().zip(b.iter()) {
        assert_eq!(x.0, y.0);
        assert_eq!(x.1, y.1);
    }
}

#[test]
fn boat_without_room_has_no_solution() {
    let state = WorldState::new(
        RiverBankState::new(3, 3),
        RiverBankState::new(0, 0),
        Boat::new(0, RiverBank::Left),
    );
    assert!(state.get_actions().is_empty());
    assert!(search(state).is_none());
}

#[test]
fn four_and_four_with_a_boat_for_two_has_no_solution() {
    let state = WorldState::new(
        RiverBankState::new(4, 4),
        RiverBankState::new(0, 0),
        Boat::new(2, RiverBank::Left),
    );
    assert!(search(state).is_none());
}

#[test]
fn goal_root_is_its_own_plan() {
    let state = WorldState::new(
        RiverBankState::new(0, 0),
        RiverBankState::new(2, 1),
        Boat::new(2, RiverBank::Right),
    );
    let plan = search(state).expect("a plan");
    assert_eq!(plan.len(), 1);
    assert!(plan[0].0.is_none());
}

#[test]
fn default_state_offers_three_moves_in_order() {
    let actions = WorldState::default().get_actions();
    let moves: Vec<(u8, u8)> = actions.iter().map(|a| (a.humans, a.zombies)).collect();
    assert_eq!(moves, vec![(0, 1), (1, 1), (0, 2)]);
}

#[test]
fn outnumbering_moves_are_rejected() {
    let state = WorldState::default();
    // Two humans leave one human with three zombies.
    assert!(!WorldAction::new(2, 0).is_applicable(&state));
    // More zombies than humans in the boat.
    assert!(!WorldAction::new(1, 2).is_applicable(&state));
    // More humans than there are.
    assert!(!WorldAction::new(4, 0).is_applicable(&state));
}

#[test]
fn apply_moves_people_and_boat() {
    let state = WorldState::default();
    let next = WorldAction::new(1, 1).apply(&state);
    assert_eq!(next.left, RiverBankState::new(2, 2));
    assert_eq!(next.right, RiverBankState::new(1, 1));
    assert_eq!(next.boat, Boat::new(2, RiverBank::Right));
    assert_eq!(state, WorldState::default());
}

#[test]
fn hash_packs_left_bank_and_boat() {
    let state = WorldState::new(
        RiverBankState::new(2, 3),
        RiverBankState::new(1, 0),
        Boat::new(2, RiverBank::Right),
    );
    assert_eq!(state.unique_hash(), (3u32 << 16) | (2u32 << 8) | 1);
    assert_eq!(WorldState::default().unique_hash(), (3u32 << 16) | (3u32 << 8));
}

#[test]
fn banks_and_boat_helpers() {
    let mut state = WorldState::default();
    assert_eq!(*state.boat_bank(), RiverBankState::new(3, 3));
    let (here, there) = state.here_there();
    assert_eq!(*here, RiverBankState::new(3, 3));
    assert_eq!(*there, RiverBankState::new(0, 0));
    {
        let (here, there) = state.here_there_mut();
        here.humans = 1;
        there.zombies = 2;
    }
    assert_eq!(state.left, RiverBankState::new(1, 3));
    assert_eq!(state.right, RiverBankState::new(0, 2));
    assert_eq!(RiverBank::Left.switch_bank(), RiverBank::Right);
    assert_eq!(Boat::new(2, RiverBank::Right).switch_bank(), Boat::new(2, RiverBank::Left));
    assert!(RiverBankState::new(0, 0).is_empty());
    assert!(!RiverBankState::new(0, 1).is_empty());
}
