//! A farmer ferries wolves, goats and cabbages across a river; a wolf and a
//! goat, or a goat and a cabbage, may not stay together without a farmer.
use crate::search::{Action, State};
use vstd::prelude::*;

verus! {

/// Describes the world state.
#[derive(Clone, Copy, PartialEq, Eq, Structural, PartialOrd, Ord, Hash, Debug)]
pub struct WorldState {
    /// The plan depth.
    pub plan_depth: usize,
    /// The left river bank.
    pub left: RiverBankState,
    /// The right river bank.
    pub right: RiverBankState,
    /// The boat.
    pub boat: Boat,
}

#[derive(Clone, Copy, PartialEq, Eq, Structural, PartialOrd, Ord, Hash, Debug)]
pub enum RiverBank {
    /// The left river bank.
    Left,
    /// The right river bank.
    Right,
}

#[derive(Clone, Copy, PartialEq, Eq, Structural, PartialOrd, Ord, Hash, Debug)]
pub struct Boat {
    /// The capacity of the boat.
    pub capacity: u8,
    /// The river bank the boat is at.
    pub bank: RiverBank,
}

/// Describes the state on a river bank.
#[derive(Clone, Copy, PartialEq, Eq, Structural, PartialOrd, Ord, Hash, Debug)]
pub struct RiverBankState {
    /// The number of farmers on this bank.
    pub farmers: u8,
    /// The number of wolves on this bank.
    pub wolves: u8,
    /// The number of goats on this bank.
    pub goats: u8,
    /// The number of cabbages on this bank.
    pub cabbages: u8,
}

/// An action to apply.
#[derive(Clone, Copy, PartialEq, Eq, Structural, Debug)]
pub struct WorldAction {
    /// How many farmers to move.
    pub farmers: u8,
    /// How many wolves to move.
    pub wolves: u8,
    /// How many goats to move.
    pub goats: u8,
    /// How many cabbages to move.
    pub cabbages: u8,
}

impl WorldState {
    /// The bank the boat is at.
    pub open spec fn here(&self) -> RiverBankState {
        match self.boat.bank {
            RiverBank::Left => self.left,
            RiverBank::Right => self.right,
        }
    }

    /// The bank opposite the boat.
    pub open spec fn there(&self) -> RiverBankState {
        match self.boat.bank {
            RiverBank::Left => self.right,
            RiverBank::Right => self.left,
        }
    }

    /// Creates a new problem state from the left and right river bank states.
    pub fn new(plan_depth: usize, left: RiverBankState, right: RiverBankState, boat: Boat) -> (r: Self)
        ensures
            r == (WorldState { plan_depth, left, right, boat }),
    {
        Self { plan_depth, left, right, boat }
    }

    /// Unpacks the world state into a tuple of "this river bank" (i.e.
    /// the bank that the boat is currently at) and "the opposite river bank".
    pub fn here_there(&self) -> (r: (&RiverBankState, &RiverBankState))
        ensures
            *r.0 == self.here(),
            *r.1 == self.there(),
    {
        match self.boat.bank {
            RiverBank::Left => (&self.left, &self.right),
            RiverBank::Right => (&self.right, &self.left),
        }
    }

    /// Unpacks the world state into a (mutable) tuple of "this river bank" (i.e.
    /// the bank that the boat is currently at) and "the opposite river bank".
    pub fn here_there_mut(&mut self) -> (r: (&mut RiverBankState, &mut RiverBankState))
        ensures
            *r.0 == old(self).here(),
            *r.1 == old(self).there(),
            final(self).boat == old(self).boat,
            final(self).plan_depth == old(self).plan_depth,
            final(self).here() == *final(r.0),
            final(self).there() == *final(r.1),
    {
        match self.boat.bank {
            RiverBank::Left => (&mut self.left, &mut self.right),
            RiverBank::Right => (&mut self.right, &mut self.left),
        }
    }

    /// Gets the river bank the boat is at.
    pub fn boat_bank(&self) -> (r: &RiverBankState)
        ensures
            *r == self.here(),
    {
        match self.boat.bank {
            RiverBank::Left => &self.left,
            RiverBank::Right => &self.right,
        }
    }
}

impl Default for WorldState {
    /// One farmer, wolf, goat and cabbage on the left bank, with a boat for two.
    fn default() -> (r: Self)
        ensures
            r == (WorldState {
                plan_depth: 0,
                left: RiverBankState { farmers: 1, wolves: 1, goats: 1, cabbages: 1 },
                right: RiverBankState { farmers: 0, wolves: 0, goats: 0, cabbages: 0 },
                boat: Boat { capacity: 2, bank: RiverBank::Left },
            }),
    {
        let left = RiverBankState::new(1, 1, 1, 1);
        let right = RiverBankState::new(0, 0, 0, 0);
        let boat = Boat::new(2, RiverBank::Left);
        WorldState::new(0, left, right, boat)
    }
}

impl Boat {
    /// Creates a boat of the given capacity at the given bank.
    pub fn new(capacity: u8, bank: RiverBank) -> (r: Self)
        ensures
            r == (Boat { capacity, bank }),
    {
        Self { capacity, bank }
    }

    /// Switches from the left bank to the right and vice versa.
    pub fn switch_bank(&self) -> (r: Self)
        ensures
            r == (Boat { capacity: self.capacity, bank: self.bank.opposite() }),
    {
        Self::new(self.capacity, self.bank.switch_bank())
    }
}

impl RiverBankState {
    /// Creates a new river bank state from the number of farmers, wolves, goats and cabbages.
    pub fn new(farmers: u8, wolves: u8, goats: u8, cabbages: u8) -> (r: Self)
        ensures
            r == (RiverBankState { farmers, wolves, goats, cabbages }),
    {
        Self { farmers, wolves, goats, cabbages }
    }

    /// Whether the bank holds nobody and nothing.
    pub open spec fn empty(&self) -> bool {
        self.farmers + self.wolves + self.goats + self.cabbages == 0
    }

    /// Determines whether this river bank is empty, i.e. has farmers, wolves, goats nor cabbages.
    pub fn is_empty(&self) -> (r: bool)
        ensures
            r == self.empty(),
    {
        self.farmers as u16 + self.wolves as u16 + self.goats as u16 + self.cabbages as u16 == 0
    }

    /// Left without a farmer, something here gets eaten: a goat by a wolf,
    /// or a cabbage by a goat.
    pub open spec fn unsafe_alone(&self) -> bool {
        self.farmers == 0 && self.goats > 0 && (self.wolves > 0 || self.cabbages > 0)
    }
}

impl WorldAction {
    pub fn new(farmers: u8, wolves: u8, goats: u8, cabbages: u8) -> (r: Self)
        ensures
            r == (WorldAction { farmers, wolves, goats, cabbages }),
    {
        Self { farmers, wolves, goats, cabbages }
    }

    /// How many board.
    pub open spec fn size(&self) -> nat {
        (self.farmers + self.wolves + self.goats + self.cabbages) as nat
    }

    /// Whether nobody and nothing boards.
    pub fn is_empty(&self) -> (r: bool)
        ensures
            r == (self.size() == 0),
    {
        self.len() == 0
    }

    /// How many board.
    pub fn len(&self) -> (r: usize)
        ensures
            r == self.size(),
    {
        self.farmers as usize + self.wolves as usize + self.goats as usize + self.cabbages as usize
    }
}

impl RiverBank {
    /// The other bank.
    pub open spec fn opposite(&self) -> RiverBank {
        match self {
            RiverBank::Left => RiverBank::Right,
            RiverBank::Right => RiverBank::Left,
        }
    }

    /// Switches from the left bank to the right and vice versa.
    pub fn switch_bank(&self) -> (r: Self)
        ensures
            r == self.opposite(),
    {
        match self {
            RiverBank::Left => RiverBank::Right,
            RiverBank::Right => RiverBank::Left,
        }
    }
}

/// The most of one kind that can board from `n` on the bank.
pub open spec fn boardable(n: u8, capacity: u8) -> int {
    if n < capacity { n as int } else { capacity as int }
}

impl WorldState {
    /// The applicable moves of `f` farmers, `w` wolves, `g` goats and at
    /// least `c` cabbages, by increasing number of cabbages.
    pub open spec fn moves_c(&self, f: int, w: int, g: int, c: int) -> Seq<WorldAction>
        decreases boardable(self.here().cabbages, self.boat.capacity) + 1 - c,
    {
        if c < 0 || c > boardable(self.here().cabbages, self.boat.capacity) {
            Seq::empty()
        } else {
            let a = WorldAction { farmers: f as u8, wolves: w as u8, goats: g as u8, cabbages: c as u8 };
            let rest = self.moves_c(f, w, g, c + 1);
            if <WorldAction as Action>::applicable(a, *self) {
                seq![a] + rest
            } else {
                rest
            }
        }
    }

    /// The applicable moves of `f` farmers, `w` wolves and at least `g`
    /// goats, by increasing number of goats, then of cabbages.
    pub open spec fn moves_g(&self, f: int, w: int, g: int) -> Seq<WorldAction>
        decreases boardable(self.here().goats, self.boat.capacity) + 1 - g,
    {
        if g < 0 || g > boardable(self.here().goats, self.boat.capacity) {
            Seq::empty()
        } else {
            self.moves_c(f, w, g, 0) + self.moves_g(f, w, g + 1)
        }
    }

    /// The applicable moves of `f` farmers and at least `w` wolves, by
    /// increasing number of wolves, then of goats, then of cabbages.
    pub open spec fn moves_w(&self, f: int, w: int) -> Seq<WorldAction>
        decreases boardable(self.here().wolves, self.boat.capacity) + 1 - w,
    {
        if w < 0 || w > boardable(self.here().wolves, self.boat.capacity) {
            Seq::empty()
        } else {
            self.moves_g(f, w, 0) + self.moves_w(f, w + 1)
        }
    }

    /// The applicable moves of at least `f` farmers, by increasing number of
    /// farmers, then of wolves, then of goats, then of cabbages.
    pub open spec fn moves_f(&self, f: int) -> Seq<WorldAction>
        decreases boardable(self.here().farmers, self.boat.capacity) + 1 - f,
    {
        if f < 0 || f > boardable(self.here().farmers, self.boat.capacity) {
            Seq::empty()
        } else {
            self.moves_w(f, 0) + self.moves_f(f + 1)
        }
    }
}

/// No move of more than the boat holds is applicable, so none is found
/// once the count so far exceeds the capacity.
proof fn lemma_moves_c_over(s: WorldState, f: int, w: int, g: int, c: int)
    requires
        0 <= f && 0 <= w && 0 <= g && 0 <= c,
        f <= 255 && w <= 255 && g <= 255,
        f + w + g + c > s.boat.capacity,
    ensures
        s.moves_c(f, w, g, c) == Seq::<WorldAction>::empty(),
    decreases boardable(s.here().cabbages, s.boat.capacity) + 1 - c,
{
    if c <= boardable(s.here().cabbages, s.boat.capacity) {
        lemma_moves_c_over(s, f, w, g, c + 1);
    }
}

proof fn lemma_moves_g_over(s: WorldState, f: int, w: int, g: int)
    requires
        0 <= f && 0 <= w && 0 <= g,
        f <= 255 && w <= 255,
        f + w + g > s.boat.capacity,
    ensures
        s.moves_g(f, w, g) == Seq::<WorldAction>::empty(),
    decreases boardable(s.here().goats, s.boat.capacity) + 1 - g,
{
    if g <= boardable(s.here().goats, s.boat.capacity) {
        lemma_moves_c_over(s, f, w, g, 0);
        lemma_moves_g_over(s, f, w, g + 1);
        assert(s.moves_g(f, w, g) =~= Seq::<WorldAction>::empty());
    }
}

proof fn lemma_moves_w_over(s: WorldState, f: int, w: int)
    requires
        0 <= f && 0 <= w,
        f <= 255,
        f + w > s.boat.capacity,
    ensures
        s.moves_w(f, w) == Seq::<WorldAction>::empty(),
    decreases boardable(s.here().wolves, s.boat.capacity) + 1 - w,
{
    if w <= boardable(s.here().wolves, s.boat.capacity) {
        lemma_moves_g_over(s, f, w, 0);
        lemma_moves_w_over(s, f, w + 1);
        assert(s.moves_w(f, w) =~= Seq::<WorldAction>::empty());
    }
}

impl View for WorldState {
    type V = WorldState;

    open spec fn view(&self) -> WorldState {
        *self
    }
}

impl View for WorldAction {
    type V = WorldAction;

    open spec fn view(&self) -> WorldAction {
        *self
    }
}

impl State for WorldState {
    type Action = WorldAction;
    type Hash = u64;

    /// Everyone is on the right river bank.
    open spec fn goal(c: WorldState) -> bool {
        c.left.empty()
    }

    open spec fn actions(c: WorldState) -> Seq<WorldAction> {
        c.moves_f(0)
    }

    /// The left bank's farmers, wolves, goats and cabbages and the boat's
    /// bank, one byte each.
    open spec fn fingerprint(c: WorldState) -> u64 {
        let boat: u64 = if c.boat.bank == RiverBank::Left { 0 } else { 1 };
        (c.left.farmers as u64) << 32u64 | (c.left.wolves as u64) << 24u64 | (c.left.goats as u64) << 16u64
            | (c.left.cabbages as u64) << 8u64 | boat
    }

    /// Tests whether the specified world state is a goal state.
    fn is_goal(&self) -> (r: bool) {
        // Everyone is on the right river bank.
        self.left.is_empty()
    }

    /// Expands the world state into new (applicable) actions.
    /// If this state cannot be expanded, an empty vector is returned.
    fn get_actions(&self) -> (r: Vec<WorldAction>) {
        let mut actions: Vec<WorldAction> = Vec::new();
        let bank = self.boat_bank();
        let cap = self.boat.capacity as u16;
        let fmax: u16 = if bank.farmers < self.boat.capacity { bank.farmers as u16 } else { cap };
        let wmax: u16 = if bank.wolves < self.boat.capacity { bank.wolves as u16 } else { cap };
        let gmax: u16 = if bank.goats < self.boat.capacity { bank.goats as u16 } else { cap };
        let cmax: u16 = if bank.cabbages < self.boat.capacity { bank.cabbages as u16 } else { cap };
        let ghost total = self.moves_f(0);
        let mut f: u16 = 0;
        while f <= fmax
            invariant
                cap == self.boat.capacity,
                fmax == boardable(self.here().farmers, self.boat.capacity),
                wmax == boardable(self.here().wolves, self.boat.capacity),
                gmax == boardable(self.here().goats, self.boat.capacity),
                cmax == boardable(self.here().cabbages, self.boat.capacity),
                fmax <= 255 && wmax <= 255 && gmax <= 255 && cmax <= 255,
                f <= fmax + 1,
                actions@ + self.moves_f(f as int) == total,
                forall|i: int| 0 <= i < actions@.len() ==> <WorldAction as Action>::applicable(#[trigger] actions@[i], *self),
            decreases fmax + 1 - f,
        {
            let mut w: u16 = 0;
            while w <= wmax
                invariant
                    cap == self.boat.capacity,
                    wmax == boardable(self.here().wolves, self.boat.capacity),
                    gmax == boardable(self.here().goats, self.boat.capacity),
                    cmax == boardable(self.here().cabbages, self.boat.capacity),
                    fmax <= 255 && wmax <= 255 && gmax <= 255 && cmax <= 255,
                    f <= fmax,
                    w <= wmax + 1,
                    actions@ + self.moves_w(f as int, w as int) + self.moves_f(f as int + 1) == total,
                    forall|i: int| 0 <= i < actions@.len() ==> <WorldAction as Action>::applicable(#[trigger] actions@[i], *self),
                ensures
                    self.moves_w(f as int, w as int) == Seq::<WorldAction>::empty(),
                decreases wmax + 1 - w,
            {
                // Don't expand actions that will never work.
                if f + w > cap {
                    proof {
                        lemma_moves_w_over(*self, f as int, w as int);
                    }
                    break;
                }
                let mut g: u16 = 0;
                while g <= gmax
                    invariant
                        cap == self.boat.capacity,
                        gmax == boardable(self.here().goats, self.boat.capacity),
                        cmax == boardable(self.here().cabbages, self.boat.capacity),
                        fmax <= 255 && wmax <= 255 && gmax <= 255 && cmax <= 255,
                        f <= fmax,
                        w <= wmax,
                        g <= gmax + 1,
                        actions@ + self.moves_g(f as int, w as int, g as int) + self.moves_w(f as int, w as int + 1)
                            + self.moves_f(f as int + 1) == total,
                        forall|i: int| 0 <= i < actions@.len() ==> <WorldAction as Action>::applicable(#[trigger] actions@[i], *self),
                    ensures
                        self.moves_g(f as int, w as int, g as int) == Seq::<WorldAction>::empty(),
                    decreases gmax + 1 - g,
                {
                    // Don't expand actions that will never work.
                    if f + w + g > cap {
                        proof {
                            lemma_moves_g_over(*self, f as int, w as int, g as int);
                        }
                        break;
                    }
                    let mut c: u16 = 0;
                    while c <= cmax
                        invariant
                            cap == self.boat.capacity,
                            cmax == boardable(self.here().cabbages, self.boat.capacity),
                            fmax <= 255 && wmax <= 255 && gmax <= 255 && cmax <= 255,
                            f <= fmax,
                            w <= wmax,
                            g <= gmax,
                            c <= cmax + 1,
                            actions@ + self.moves_c(f as int, w as int, g as int, c as int) + self.moves_g(f as int, w as int, g as int + 1)
                                + self.moves_w(f as int, w as int + 1) + self.moves_f(f as int + 1) == total,
                            forall|i: int| 0 <= i < actions@.len() ==> <WorldAction as Action>::applicable(#[trigger] actions@[i], *self),
                        ensures
                            self.moves_c(f as int, w as int, g as int, c as int) == Seq::<WorldAction>::empty(),
                        decreases cmax + 1 - c,
                    {
                        // Don't expand actions that will never work.
                        if f + w + g + c > cap {
                            proof {
                                lemma_moves_c_over(*self, f as int, w as int, g as int, c as int);
                            }
                            break;
                        }
                        let ghost before = actions@;
                        let action = WorldAction::new(f as u8, w as u8, g as u8, c as u8);
                        if action.is_applicable(self) {
                            actions.push(action);
                        }
                        proof {
                            let rest = self.moves_c(f as int, w as int, g as int, c as int + 1);
                            let tail = self.moves_g(f as int, w as int, g as int + 1)
                                + self.moves_w(f as int, w as int + 1) + self.moves_f(f as int + 1);
                            if <WorldAction as Action>::applicable(action, *self) {
                                assert(actions@ + rest + tail =~= before + (seq![action] + rest) + tail);
                            }
                        }
                        c = c + 1;
                    }
                    proof {
                        let tail = self.moves_w(f as int, w as int + 1) + self.moves_f(f as int + 1);
                        let cs = self.moves_c(f as int, w as int, g as int, c as int);
                        assert(actions@ + cs + self.moves_g(f as int, w as int, g as int + 1) + tail
                            =~= actions@ + self.moves_g(f as int, w as int, g as int + 1) + tail);
                        assert(actions@ + self.moves_g(f as int, w as int, g as int) + self.moves_w(f as int, w as int + 1)
                            + self.moves_f(f as int + 1) =~= actions@ + (self.moves_c(f as int, w as int, g as int, 0)
                            + self.moves_g(f as int, w as int, g as int + 1)) + tail);
                    }
                    g = g + 1;
                }
                w = w + 1;
            }
            f = f + 1;
        }
        assert(actions@ =~= actions@ + self.moves_f(f as int));
        assert(actions@.map_values(|a: WorldAction| a@) =~= actions@);
        actions
    }

    /// Gets the hash of this state.
    fn unique_hash(&self) -> (r: u64) {
        let boat: u64 = if self.boat.bank == RiverBank::Left { 0 } else { 1 };
        (self.left.farmers as u64) << 32u64 | (self.left.wolves as u64) << 24u64 | (self.left.goats as u64) << 16u64
            | (self.left.cabbages as u64) << 8u64 | boat
    }
}

impl Action for WorldAction {
    type State = WorldState;

    /// Someone boards and the boat holds them all; a farmer steers; the bank
    /// holds what the boat takes and the far bank's counts stay within a
    /// byte; afterwards nothing gets eaten on either bank.
    open spec fn applicable(a: WorldAction, state: WorldState) -> bool {
        let here = state.here();
        let there = state.there();
        &&& 0 < a.size() <= state.boat.capacity
        &&& a.farmers > 0
        &&& here.farmers >= a.farmers && here.wolves >= a.wolves
        &&& here.goats >= a.goats && here.cabbages >= a.cabbages
        &&& there.farmers + a.farmers <= u8::MAX && there.wolves + a.wolves <= u8::MAX
        &&& there.goats + a.goats <= u8::MAX && there.cabbages + a.cabbages <= u8::MAX
        &&& state.plan_depth < usize::MAX
        &&& !a.leave(here).unsafe_alone()
        &&& !a.join(there).unsafe_alone()
    }

    /// The movers leave the boat's bank for the other one, and so does the
    /// boat; the plan grows by one step.
    open spec fn result(a: WorldAction, state: WorldState) -> WorldState {
        let here = a.leave(state.here());
        let there = a.join(state.there());
        let boat = Boat { capacity: state.boat.capacity, bank: state.boat.bank.opposite() };
        let plan_depth = (state.plan_depth + 1) as usize;
        match state.boat.bank {
            RiverBank::Left => WorldState { plan_depth, left: here, right: there, boat },
            RiverBank::Right => WorldState { plan_depth, left: there, right: here, boat },
        }
    }

    /// Tests whether an action is applicable in the given (usually current) world state.
    fn is_applicable(&self, state: &WorldState) -> (r: bool) {
        assert(self@ == *self);
        assert(state@ == *state);
        let (here, there) = state.here_there();

        // Someone must be on the boat, but the boat capacity must not be exceeded.
        if self.is_empty() || self.len() > state.boat.capacity as usize {
            return false;
        }

        // There must be at least one farmer on the boat (to steer it).
        if self.farmers == 0 {
            return false;
        }

        // Only who is on this bank can board, and the other bank counts in bytes.
        if here.farmers < self.farmers || here.wolves < self.wolves || here.goats < self.goats
            || here.cabbages < self.cabbages {
            return false;
        }
        if there.farmers as u16 + self.farmers as u16 > u8::MAX as u16 || there.wolves as u16
            + self.wolves as u16 > u8::MAX as u16 || there.goats as u16 + self.goats as u16 > u8::MAX as u16
            || there.cabbages as u16 + self.cabbages as u16 > u8::MAX as u16 {
            return false;
        }
        if state.plan_depth == usize::MAX {
            return false;
        }

        // On neither bank, wolves and goats may be left unattended.
        if (here.farmers - self.farmers) == 0 && (here.wolves - self.wolves) > 0 && (here.goats
            - self.goats) > 0 {
            return false;
        } else if (there.farmers + self.farmers) == 0 && (there.wolves + self.wolves) > 0 && (
        there.goats + self.goats) > 0 {
            return false;
        }

        // On neither bank, goats and cabbages may be left unattended.
        if (here.farmers - self.farmers) == 0 && (here.goats - self.goats) > 0 && (here.cabbages
            - self.cabbages) > 0 {
            return false;
        } else if (there.farmers + self.farmers) == 0 && (there.goats + self.goats) > 0 && (
        there.cabbages + self.cabbages) > 0 {
            return false;
        }

        true
    }

    /// Applies the specified action to the specified world state,
    /// returning the new state after the action was applied.
    fn apply(&self, state: &WorldState) -> (r: WorldState) {
        assert(self@ == *self);
        assert(state@ == *state);
        let mut state = *state;
        let (here, there) = state.here_there_mut();
        here.farmers -= self.farmers;
        here.wolves -= self.wolves;
        here.goats -= self.goats;
        here.cabbages -= self.cabbages;
        there.farmers += self.farmers;
        there.wolves += self.wolves;
        there.goats += self.goats;
        there.cabbages += self.cabbages;
        state.plan_depth += 1;
        state.boat = state.boat.switch_bank();
        state
    }
}

impl WorldAction {
    /// What remains of `bank` when this move leaves it.
    pub open spec fn leave(&self, bank: RiverBankState) -> RiverBankState {
        RiverBankState {
            farmers: (bank.farmers - self.farmers) as u8,
            wolves: (bank.wolves - self.wolves) as u8,
            goats: (bank.goats - self.goats) as u8,
            cabbages: (bank.cabbages - self.cabbages) as u8,
        }
    }

    /// What `bank` holds when this move arrives there.
    pub open spec fn join(&self, bank: RiverBankState) -> RiverBankState {
        RiverBankState {
            farmers: (bank.farmers + self.farmers) as u8,
            wolves: (bank.wolves + self.wolves) as u8,
            goats: (bank.goats + self.goats) as u8,
            cabbages: (bank.cabbages + self.cabbages) as u8,
        }
    }
}

} // verus!
