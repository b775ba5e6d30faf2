//! Humans and zombies cross a river in a boat of a given capacity; zombies
//! must never outnumber the humans on a bank where there are humans.
use crate::search::{Action, State};
use vstd::prelude::*;

verus! {

/// Describes the world state.
#[derive(Clone, Copy, PartialEq, Eq, Structural, PartialOrd, Ord, Hash, Debug)]
pub struct WorldState {
    /// The left river bank.
    pub left: RiverBankState,
    /// The right river bank.
    pub right: RiverBankState,
    /// The boat.
    pub boat: Boat,
}

#[derive(Clone, Copy, PartialEq, Eq, Structural, PartialOrd, Ord, Hash, Debug)]
pub enum RiverBank {
    /// The left river bank.
    Left,
    /// The right river bank.
    Right,
}

#[derive(Clone, Copy, PartialEq, Eq, Structural, PartialOrd, Ord, Hash, Debug)]
pub struct Boat {
    /// The capacity of the boat.
    pub capacity: u8,
    /// The river bank the boat is at.
    pub bank: RiverBank,
}

/// Describes the state on a river bank.
#[derive(Clone, Copy, PartialEq, Eq, Structural, PartialOrd, Ord, Hash, Debug)]
pub struct RiverBankState {
    /// The number of humans on this bank.
    pub humans: u8,
    /// The number of zombies on this bank.
    pub zombies: u8,
}

/// An action to apply.
#[derive(Clone, Copy, PartialEq, Eq, Structural, Debug)]
pub struct WorldAction {
    /// How many humans to move.
    pub humans: u8,
    /// How many zombies to move.
    pub zombies: u8,
}

impl WorldState {
    /// The bank the boat is at.
    pub open spec fn here(&self) -> RiverBankState {
        match self.boat.bank {
            RiverBank::Left => self.left,
            RiverBank::Right => self.right,
        }
    }

    /// The bank opposite the boat.
    pub open spec fn there(&self) -> RiverBankState {
        match self.boat.bank {
            RiverBank::Left => self.right,
            RiverBank::Right => self.left,
        }
    }

    /// Creates a new problem state from the left and right river bank states.
    pub fn new(left: RiverBankState, right: RiverBankState, boat: Boat) -> (r: Self)
        ensures
            r == (WorldState { left, right, boat }),
    {
        Self { left, right, boat }
    }

    /// Unpacks the world state into a tuple of "this river bank" (i.e.
    /// the bank that the boat is currently at) and "the opposite river bank".
    pub fn here_there(&self) -> (r: (&RiverBankState, &RiverBankState))
        ensures
            *r.0 == self.here(),
            *r.1 == self.there(),
    {
        match self.boat.bank {
            RiverBank::Left => (&self.left, &self.right),
            RiverBank::Right => (&self.right, &self.left),
        }
    }

    /// Unpacks the world state into a (mutable) tuple of "this river bank" (i.e.
    /// the bank that the boat is currently at) and "the opposite river bank".
    pub fn here_there_mut(&mut self) -> (r: (&mut RiverBankState, &mut RiverBankState))
        ensures
            *r.0 == old(self).here(),
            *r.1 == old(self).there(),
            final(self).boat == old(self).boat,
            final(self).here() == *final(r.0),
            final(self).there() == *final(r.1),
    {
        match self.boat.bank {
            RiverBank::Left => (&mut self.left, &mut self.right),
            RiverBank::Right => (&mut self.right, &mut self.left),
        }
    }

    /// Gets the river bank the boat is at.
    pub fn boat_bank(&self) -> (r: &RiverBankState)
        ensures
            *r == self.here(),
    {
        match self.boat.bank {
            RiverBank::Left => &self.left,
            RiverBank::Right => &self.right,
        }
    }
}

impl Default for WorldState {
    /// Three humans and three zombies on the left bank, with a boat for two.
    fn default() -> (r: Self)
        ensures
            r == (WorldState {
                left: RiverBankState { humans: 3, zombies: 3 },
                right: RiverBankState { humans: 0, zombies: 0 },
                boat: Boat { capacity: 2, bank: RiverBank::Left },
            }),
    {
        let left = RiverBankState::new(3, 3);
        let right = RiverBankState::new(0, 0);
        let boat = Boat::new(2, RiverBank::Left);
        WorldState::new(left, right, boat)
    }
}

impl Boat {
    /// Creates a boat of the given capacity at the given bank.
    pub fn new(capacity: u8, bank: RiverBank) -> (r: Self)
        ensures
            r == (Boat { capacity, bank }),
    {
        Self { capacity, bank }
    }

    /// Switches from the left bank to the right and vice versa.
    pub fn switch_bank(&self) -> (r: Self)
        ensures
            r == (Boat { capacity: self.capacity, bank: self.bank.opposite() }),
    {
        Self::new(self.capacity, self.bank.switch_bank())
    }
}

impl RiverBankState {
    /// Creates a new river bank state from the number of humans and zombies.
    pub fn new(humans: u8, zombies: u8) -> (r: Self)
        ensures
            r == (RiverBankState { humans, zombies }),
    {
        Self { humans, zombies }
    }

    /// Whether the bank holds neither humans nor zombies.
    pub open spec fn empty(&self) -> bool {
        self.zombies == 0 && self.humans == 0
    }

    /// Determines whether this river bank is empty, i.e. has neither
    /// humans nor zombies.
    pub fn is_empty(&self) -> (r: bool)
        ensures
            r == self.empty(),
    {
        self.zombies == 0 && self.humans == 0
    }

    /// Zombies outnumber humans here, and there are humans to outnumber.
    pub open spec fn overrun(&self) -> bool {
        self.humans > 0 && self.zombies > self.humans
    }
}

impl WorldAction {
    /// Creates a move of the given numbers of humans and zombies.
    pub fn new(humans: u8, zombies: u8) -> (r: Self)
        requires
            zombies + humans != 0,
        ensures
            r == (WorldAction { humans, zombies }),
    {
        Self { zombies, humans }
    }
}

impl RiverBank {
    /// The other bank.
    pub open spec fn opposite(&self) -> RiverBank {
        match self {
            RiverBank::Left => RiverBank::Right,
            RiverBank::Right => RiverBank::Left,
        }
    }

    /// Switches from the left bank to the right and vice versa.
    pub fn switch_bank(&self) -> (r: Self)
        ensures
            r == self.opposite(),
    {
        match self {
            RiverBank::Left => RiverBank::Right,
            RiverBank::Right => RiverBank::Left,
        }
    }
}

/// The most of one kind that can board from `n` on the bank.
pub open spec fn boardable(n: u8, capacity: u8) -> int {
    if n < capacity { n as int } else { capacity as int }
}

impl WorldState {
    /// Moving `a` is enumerated: someone boards, the boat holds them all,
    /// and the move is applicable.
    pub open spec fn offered(&self, a: WorldAction) -> bool {
        &&& 0 < a.humans + a.zombies <= self.boat.capacity
        &&& <WorldAction as Action>::applicable(a, *self)
    }

    /// The moves enumerated with `z` zombies and at least `h` humans, by
    /// increasing number of humans.
    pub open spec fn moves_with(&self, z: int, h: int) -> Seq<WorldAction>
        decreases boardable(self.here().humans, self.boat.capacity) + 1 - h,
    {
        if h > boardable(self.here().humans, self.boat.capacity) || h < 0 {
            Seq::empty()
        } else {
            let a = WorldAction { humans: h as u8, zombies: z as u8 };
            let rest = self.moves_with(z, h + 1);
            if self.offered(a) {
                seq![a] + rest
            } else {
                rest
            }
        }
    }

    /// The moves enumerated with at least `z` zombies, by increasing number
    /// of zombies, then of humans.
    pub open spec fn moves_from(&self, z: int) -> Seq<WorldAction>
        decreases boardable(self.here().zombies, self.boat.capacity) + 1 - z,
    {
        if z > boardable(self.here().zombies, self.boat.capacity) || z < 0 {
            Seq::empty()
        } else {
            self.moves_with(z, 0) + self.moves_from(z + 1)
        }
    }
}

impl View for WorldState {
    type V = WorldState;

    open spec fn view(&self) -> WorldState {
        *self
    }
}

impl View for WorldAction {
    type V = WorldAction;

    open spec fn view(&self) -> WorldAction {
        *self
    }
}

impl State for WorldState {
    type Action = WorldAction;
    type Hash = u32;

    /// All zombies and all humans are on the right river bank.
    open spec fn goal(c: WorldState) -> bool {
        c.left.empty()
    }

    open spec fn actions(c: WorldState) -> Seq<WorldAction> {
        c.moves_from(0)
    }

    /// The left bank's zombies and humans and the boat's bank, one byte each.
    open spec fn fingerprint(c: WorldState) -> u32 {
        let boat: u32 = if c.boat.bank == RiverBank::Left { 0 } else { 1 };
        (c.left.zombies as u32) << 16u32 | (c.left.humans as u32) << 8u32 | boat
    }

    /// Tests whether the specified world state is a goal state.
    fn is_goal(&self) -> (r: bool) {
        // All zombies and all humans are on the right river bank.
        self.left.is_empty()
    }

    /// Expands the world state into new (applicable) actions.
    /// If this state cannot be expanded, an empty vector is returned.
    fn get_actions(&self) -> (r: Vec<WorldAction>) {
        let mut actions: Vec<WorldAction> = Vec::new();
        let bank = self.boat_bank();
        let zmax: u16 = if bank.zombies < self.boat.capacity { bank.zombies as u16 } else { self.boat.capacity as u16 };
        let hmax: u16 = if bank.humans < self.boat.capacity { bank.humans as u16 } else { self.boat.capacity as u16 };
        let mut z: u16 = 0;
        while z <= zmax
            invariant
                zmax == boardable(self.here().zombies, self.boat.capacity),
                hmax == boardable(self.here().humans, self.boat.capacity),
                zmax <= 255,
                hmax <= 255,
                z <= zmax + 1,
                actions@ + self.moves_from(z as int) == self.moves_from(0),
                forall|i: int| 0 <= i < actions@.len() ==> <WorldAction as Action>::applicable(#[trigger] actions@[i], *self),
            decreases zmax + 1 - z,
        {
            let mut h: u16 = 0;
            while h <= hmax
                invariant
                    zmax == boardable(self.here().zombies, self.boat.capacity),
                    hmax == boardable(self.here().humans, self.boat.capacity),
                    zmax <= 255,
                    hmax <= 255,
                    z <= zmax,
                    h <= hmax + 1,
                    actions@ + self.moves_with(z as int, h as int) + self.moves_from(z as int + 1) == self.moves_from(0),
                    forall|i: int| 0 <= i < actions@.len() ==> <WorldAction as Action>::applicable(#[trigger] actions@[i], *self),
                decreases hmax + 1 - h,
            {
                let ghost before = actions@;
                // At least one person needs to be on the boat, but never
                // more than the boat can carry.
                if 0 < h + z && h + z <= self.boat.capacity as u16 {
                    let action = WorldAction::new(h as u8, z as u8);
                    if action.is_applicable(self) {
                        actions.push(action);
                        assert(actions@ + self.moves_with(z as int, h as int + 1) =~= before + (seq![action] + self.moves_with(z as int, h as int + 1)));
                    }
                }
                h = h + 1;
            }
            assert(self.moves_with(z as int, h as int) =~= Seq::<WorldAction>::empty());
            assert(actions@ + self.moves_from(z as int + 1) =~= actions@ + self.moves_with(z as int, h as int) + self.moves_from(z as int + 1));
            z = z + 1;
        }
        assert(actions@ =~= actions@ + self.moves_from(z as int));
        assert(actions@.map_values(|a: WorldAction| a@) =~= actions@);
        actions
    }

    /// Gets the hash of this state.
    fn unique_hash(&self) -> (r: u32) {
        let boat: u32 = if self.boat.bank == RiverBank::Left { 0 } else { 1 };
        (self.left.zombies as u32) << 16u32 | (self.left.humans as u32) << 8u32 | boat
    }
}

impl Action for WorldAction {
    type State = WorldState;

    /// No more zombies than humans board together (unless no human boards),
    /// the bank holds whom the boat takes, and after the crossing zombies
    /// outnumber the humans on neither bank; the far bank's counts stay
    /// within a byte.
    open spec fn applicable(a: WorldAction, state: WorldState) -> bool {
        let here = state.here();
        let there = state.there();
        &&& !(a.humans > 0 && a.zombies > a.humans)
        &&& here.humans >= a.humans
        &&& here.zombies >= a.zombies
        &&& !(RiverBankState { humans: (here.humans - a.humans) as u8, zombies: (here.zombies - a.zombies) as u8 }).overrun()
        &&& there.humans + a.humans <= u8::MAX
        &&& there.zombies + a.zombies <= u8::MAX
        &&& !(RiverBankState { humans: (there.humans + a.humans) as u8, zombies: (there.zombies + a.zombies) as u8 }).overrun()
    }

    /// The movers leave the boat's bank for the other one, and so does the boat.
    open spec fn result(a: WorldAction, state: WorldState) -> WorldState {
        let here = RiverBankState {
            humans: (state.here().humans - a.humans) as u8,
            zombies: (state.here().zombies - a.zombies) as u8,
        };
        let there = RiverBankState {
            humans: (state.there().humans + a.humans) as u8,
            zombies: (state.there().zombies + a.zombies) as u8,
        };
        let boat = Boat { capacity: state.boat.capacity, bank: state.boat.bank.opposite() };
        match state.boat.bank {
            RiverBank::Left => WorldState { left: here, right: there, boat },
            RiverBank::Right => WorldState { left: there, right: here, boat },
        }
    }

    /// Tests whether an action is applicable in the given (usually current) world state.
    fn is_applicable(&self, state: &WorldState) -> (r: bool) {
        assert(self@ == *self);
        assert(state@ == *state);
        let (here, there) = state.here_there();

        // We cannot have more zombies than humans on the boat.
        if self.humans > 0 && self.zombies > self.humans {
            return false;
        }

        // We cannot move more people than there are on the current bank.
        if here.humans < self.humans || here.zombies < self.zombies {
            return false;
        }

        // On either river bank, after the action, zombies must not outnumber humans.
        let new_humans_here = here.humans - self.humans;
        let new_zombies_here = here.zombies - self.zombies;
        let outnumber_here = new_humans_here > 0 && (new_zombies_here > new_humans_here);
        if outnumber_here {
            return false;
        }

        // The far bank counts in bytes.
        if there.humans as u16 + self.humans as u16 > u8::MAX as u16 || there.zombies as u16 + self.zombies as u16 > u8::MAX as u16 {
            return false;
        }

        let new_humans_there = there.humans + self.humans;
        let new_zombies_there = there.zombies + self.zombies;
        let outnumber_there = new_humans_there > 0 && (new_zombies_there > new_humans_there);
        if outnumber_there {
            return false;
        }

        true
    }

    /// Applies the specified action to the specified world state,
    /// returning the new state after the action was applied.
    fn apply(&self, state: &WorldState) -> (r: WorldState) {
        assert(self@ == *self);
        assert(state@ == *state);
        let mut state = *state;
        let (here, there) = state.here_there_mut();
        here.humans -= self.humans;
        here.zombies -= self.zombies;
        there.humans += self.humans;
        there.zombies += self.zombies;
        state.boat = state.boat.switch_bank();
        state
    }
}

} // verus!
