//! People cross a bridge at night, at most a bridge's capacity at a time and
//! always with the torch; a crossing takes as long as its slowest walker and
//! burns that much of the torch.
use crate::search::{Action, State};
use itertools::Itertools;
use vstd::prelude::*;

verus! {

/// Describes the world state.
#[derive(Clone, PartialEq, Eq, PartialOrd, Ord, Hash, Debug)]
pub struct WorldState {
    /// The current time.
    pub time: u8,
    /// The left river side.
    pub left: RiverSideState,
    /// The right river side.
    pub right: RiverSideState,
    /// The torch.
    pub torch: Torch,
    /// The capacity of the bridge, i.e. how many people it can hold.
    pub bridge_capacity: u8,
}

#[derive(Clone, Copy, PartialEq, Eq, Structural, PartialOrd, Ord, Hash, Debug)]
pub enum RiverSide {
    /// The left river side.
    Left,
    /// The right river side.
    Right,
}

#[derive(Clone, Copy, PartialEq, Eq, Structural, PartialOrd, Ord, Hash, Debug)]
pub struct Torch {
    /// The location of the torch.
    pub side: RiverSide,
    /// The remaining time the fuel can burn.
    pub remaining_time: u8,
}

#[derive(Clone, Copy, PartialEq, Eq, Structural, PartialOrd, Ord, Hash, Debug)]
pub struct Person {
    /// The time it takes for the person to cross the bridge.
    pub walking_time: u8,
}

/// Describes the state on a river side.
#[derive(Clone, PartialEq, Eq, PartialOrd, Ord, Hash, Debug)]
pub struct RiverSideState {
    /// The people on this side.
    pub people: Vec<Person>,
}

/// An action to apply.
#[derive(Clone, Debug)]
pub struct WorldAction {
    /// The people to move.
    pub people: Vec<Person>,
}

/// The world as the model sees it.
pub struct WorldView {
    pub time: u8,
    pub left: Seq<Person>,
    pub right: Seq<Person>,
    pub torch: Torch,
    pub bridge_capacity: u8,
}

impl WorldView {
    /// The people on the torch's side.
    pub open spec fn here(&self) -> Seq<Person> {
        match self.torch.side {
            RiverSide::Left => self.left,
            RiverSide::Right => self.right,
        }
    }

    /// The people on the other side.
    pub open spec fn there(&self) -> Seq<Person> {
        match self.torch.side {
            RiverSide::Left => self.right,
            RiverSide::Right => self.left,
        }
    }
}

impl View for WorldState {
    type V = WorldView;

    open spec fn view(&self) -> WorldView {
        WorldView {
            time: self.time,
            left: self.left.people@,
            right: self.right.people@,
            torch: self.torch,
            bridge_capacity: self.bridge_capacity,
        }
    }
}

impl View for WorldAction {
    type V = Seq<Person>;

    open spec fn view(&self) -> Seq<Person> {
        self.people@
    }
}

/// The walking time of the slowest of `people`; 0 for nobody.
pub open spec fn max_time(people: Seq<Person>) -> u8
    decreases people.len(),
{
    if people.len() == 0 {
        0
    } else {
        let rest = max_time(people.drop_last());
        let w = people.last().walking_time;
        if w > rest { w } else { rest }
    }
}

/// `people` without the first occurrence of `p`.
pub open spec fn remove_first(people: Seq<Person>, p: Person) -> Seq<Person>
    decreases people.len(),
{
    if people.len() == 0 {
        people
    } else if people[0] == p {
        people.drop_first()
    } else {
        seq![people[0]] + remove_first(people.drop_first(), p)
    }
}

/// Every one of `movers` can be found among `people`, counting repeats.
pub open spec fn present(people: Seq<Person>, movers: Seq<Person>) -> bool
    decreases movers.len(),
{
    if movers.len() == 0 {
        true
    } else {
        people.contains(movers[0]) && present(remove_first(people, movers[0]), movers.drop_first())
    }
}

/// `people` without `movers`, each taken out at its first occurrence, in turn.
pub open spec fn remove_all(people: Seq<Person>, movers: Seq<Person>) -> Seq<Person>
    decreases movers.len(),
{
    if movers.len() == 0 {
        people
    } else {
        remove_all(remove_first(people, movers[0]), movers.drop_first())
    }
}

/// The itertools result named below: the `k`-permutations of `people`, by
/// position, with repeated ones left out after their first occurrence.
pub uninterp spec fn unique_permutations_of(people: Seq<Person>, k: nat) -> Seq<Seq<Person>>;

/// Relies on `Itertools::permutations` and `Itertools::unique`: the distinct
/// `k`-permutations of `people`, in the order in which they first occur.
#[verifier::external_body]
fn unique_permutations(people: &Vec<Person>, k: usize) -> (r: Vec<Vec<Person>>)
    ensures
        r@.map_values(|p: Vec<Person>| p@) == unique_permutations_of(people@, k as nat),
{
    people.iter().permutations(k).unique().map(|p| p.into_iter().cloned().collect()).collect()
}

/// A copy of `people`.
fn copy_people(people: &Vec<Person>) -> (r: Vec<Person>)
    ensures
        r@ == people@,
{
    let mut r: Vec<Person> = Vec::new();
    let mut i: usize = 0;
    while i < people.len()
        invariant
            i <= people@.len(),
            r@ == people@.subrange(0, i as int),
        decreases people.len() - i,
    {
        r.push(people[i]);
        i = i + 1;
        assert(r@ =~= people@.subrange(0, i as int));
    }
    assert(people@.subrange(0, i as int) =~= people@);
    r
}

/// The position of the first occurrence of `p` in `people`.
fn position_of(people: &Vec<Person>, p: Person) -> (r: Option<usize>)
    ensures
        match r {
            Some(j) => j < people@.len() && remove_first(people@, p) == people@.remove(j as int)
                && people@.contains(p),
            None => !people@.contains(p),
        },
{
    let mut j: usize = 0;
    while j < people.len()
        invariant
            j <= people@.len(),
            forall|k: int| 0 <= k < j ==> people@[k] != p,
        decreases people.len() - j,
    {
        if people[j] == p {
            proof {
                lemma_remove_first_at(people@, p, j as int);
            }
            return Some(j);
        }
        j = j + 1;
    }
    None
}

proof fn lemma_remove_first_at(people: Seq<Person>, p: Person, j: int)
    requires
        0 <= j < people.len(),
        people[j] == p,
        forall|k: int| 0 <= k < j ==> people[k] != p,
    ensures
        remove_first(people, p) == people.remove(j),
    decreases j,
{
    if j > 0 {
        lemma_remove_first_at(people.drop_first(), p, j - 1);
        assert(remove_first(people, p) =~= people.remove(j));
    } else {
        assert(people.drop_first() =~= people.remove(0));
    }
}

impl WorldState {
    /// Creates a new problem state from the left and right river side states.
    pub fn new(left: RiverSideState, right: RiverSideState, torch: Torch, time: u8, bridge_capacity: u8) -> (r: Self)
        ensures
            r.left == left,
            r.right == right,
            r.torch == torch,
            r.time == time,
            r.bridge_capacity == bridge_capacity,
    {
        Self { left, right, torch, time, bridge_capacity }
    }

    /// Unpacks the world state into a (mutable) tuple of "this river side" (i.e.
    /// the side that the torch is currently at) and "the opposite river side".
    pub fn here_there_mut(&mut self) -> (r: (&mut RiverSideState, &mut RiverSideState))
        ensures
            r.0.people@ == old(self)@.here(),
            r.1.people@ == old(self)@.there(),
            final(self).torch == old(self).torch,
            final(self).time == old(self).time,
            final(self).bridge_capacity == old(self).bridge_capacity,
            final(self)@.here() == final(r.0).people@,
            final(self)@.there() == final(r.1).people@,
    {
        match self.torch.side {
            RiverSide::Left => (&mut self.left, &mut self.right),
            RiverSide::Right => (&mut self.right, &mut self.left),
        }
    }

    /// Gets the river side the torch is at.
    pub fn torch_side(&self) -> (r: &RiverSideState)
        ensures
            r.people@ == self@.here(),
    {
        match self.torch.side {
            RiverSide::Left => &self.left,
            RiverSide::Right => &self.right,
        }
    }
}

impl Default for WorldState {
    /// Four people who walk in 1, 2, 5 and 8 minutes on the left, a bridge
    /// for two and a torch that burns for 15 minutes.
    fn default() -> (r: Self)
        ensures
            r@.left == seq![Person { walking_time: 1 }, Person { walking_time: 2 }, Person { walking_time: 5 }, Person { walking_time: 8 }],
            r@.right == Seq::<Person>::empty(),
            r@.torch == (Torch { side: RiverSide::Left, remaining_time: 15 }),
            r@.time == 0,
            r@.bridge_capacity == 2,
    {
        let mut people: Vec<Person> = Vec::new();
        people.push(Person::new(1));
        people.push(Person::new(2));
        people.push(Person::new(5));
        people.push(Person::new(8));
        let left = RiverSideState::new(people);
        let right = RiverSideState::new(Vec::new());
        let torch = Torch::new(15, RiverSide::Left);
        let r = WorldState::new(left, right, torch, 0, 2);
        assert(r@.left =~= seq![Person { walking_time: 1 }, Person { walking_time: 2 }, Person { walking_time: 5 }, Person { walking_time: 8 }]);
        r
    }
}

impl Person {
    /// Creates a new person from the number of minutes it takes to cross the bridge.
    pub fn new(walking_time: u8) -> (r: Self)
        ensures
            r == (Person { walking_time }),
    {
        Self { walking_time }
    }
}

impl Torch {
    /// Creates a torch at `side` that can burn for `remaining` more minutes.
    pub fn new(remaining: u8, side: RiverSide) -> (r: Self)
        ensures
            r == (Torch { side, remaining_time: remaining }),
    {
        Self { remaining_time: remaining, side }
    }
}

impl RiverSideState {
    /// Creates a new river side state from the people.
    pub fn new(people: Vec<Person>) -> (r: Self)
        ensures
            r.people == people,
    {
        Self { people }
    }

    /// Determines whether this river side is empty, i.e. contains no people.
    pub fn is_empty(&self) -> (r: bool)
        ensures
            r == (self.people@.len() == 0),
    {
        self.people.len() == 0
    }
}

impl WorldAction {
    pub fn new(people: Vec<Person>) -> (r: Self)
        requires
            people@.len() > 0,
        ensures
            r.people == people,
    {
        Self { people }
    }

    /// The effective walking time is determined by the slowest walker, i.e.
    /// the person with the highest walking time.
    pub fn walking_time(&self) -> (r: u8)
        requires
            self.people@.len() > 0,
        ensures
            r == max_time(self.people@),
    {
        let mut best: u8 = 0;
        let mut i: usize = 0;
        while i < self.people.len()
            invariant
                i <= self.people@.len(),
                best == max_time(self.people@.subrange(0, i as int)),
            decreases self.people.len() - i,
        {
            assert(self.people@.subrange(0, i as int + 1).drop_last() =~= self.people@.subrange(0, i as int));
            if self.people[i].walking_time > best {
                best = self.people[i].walking_time;
            }
            i = i + 1;
        }
        assert(self.people@.subrange(0, i as int) =~= self.people@);
        best
    }
}

impl RiverSide {
    /// The other side.
    pub open spec fn opposite(&self) -> RiverSide {
        match self {
            RiverSide::Left => RiverSide::Right,
            RiverSide::Right => RiverSide::Left,
        }
    }

    /// Switches from the left side to the right and vice versa.
    pub fn switch(&self) -> (r: Self)
        ensures
            r == self.opposite(),
    {
        match self {
            RiverSide::Left => RiverSide::Right,
            RiverSide::Right => RiverSide::Left,
        }
    }
}

/// The fingerprint of a world state.
#[derive(PartialEq, Eq, Hash)]
pub struct HashState {
    left: Vec<Person>,
    torch: Torch,
}

impl View for HashState {
    type V = (Seq<Person>, Torch);

    /// The people on the left and the torch.
    closed spec fn view(&self) -> (Seq<Person>, Torch) {
        (self.left@, self.torch)
    }
}

/// The moves among `candidates` that are applicable in `c`, in order.
pub open spec fn keep(c: WorldView, candidates: Seq<Seq<Person>>) -> Seq<Seq<Person>>
    decreases candidates.len(),
{
    if candidates.len() == 0 {
        Seq::empty()
    } else {
        let rest = keep(c, candidates.drop_first());
        if <WorldAction as Action>::applicable(candidates[0], c) {
            seq![candidates[0]] + rest
        } else {
            rest
        }
    }
}

/// The applicable moves of at least `k` people, by increasing number of
/// people, each group in the order of the distinct permutations of the
/// torch side.
pub open spec fn moves_from(c: WorldView, k: int) -> Seq<Seq<Person>>
    decreases c.bridge_capacity + 1 - k,
{
    if k < 1 || k > c.bridge_capacity {
        Seq::empty()
    } else {
        keep(c, unique_permutations_of(c.here(), k as nat)) + moves_from(c, k + 1)
    }
}

impl State for WorldState {
    type Action = WorldAction;
    type Hash = HashState;

    /// Everybody is on the right side.
    open spec fn goal(c: WorldView) -> bool {
        c.left.len() == 0
    }

    open spec fn actions(c: WorldView) -> Seq<Seq<Person>> {
        moves_from(c, 1)
    }

    /// The people on the left and the torch; neither the time nor the
    /// bridge's capacity.
    open spec fn fingerprint(c: WorldView) -> (Seq<Person>, Torch) {
        (c.left, c.torch)
    }

    /// Tests whether the specified world state is a goal state.
    fn is_goal(&self) -> (r: bool) {
        // Everybody is on the right river side.
        self.left.is_empty()
    }

    /// Expands the world state into new (applicable) actions.
    /// If this state cannot be expanded, an empty vector is returned.
    fn get_actions(&self) -> (r: Vec<WorldAction>) {
        let mut actions: Vec<WorldAction> = Vec::new();
        let side = self.torch_side();
        let ghost total = moves_from(self@, 1);
        // Try every distinct permutation of people, from one person up to
        // as many as the bridge holds: out of people who walk 1, 1 and 5
        // minutes, only one group of [1, 5] is tried.
        let mut c: u16 = 1;
        while c <= self.bridge_capacity as u16
            invariant
                1 <= c <= self.bridge_capacity + 1,
                side.people@ == self@.here(),
                actions@.map_values(|a: WorldAction| a@) + moves_from(self@, c as int) == total,
                forall|i: int| 0 <= i < actions@.len() ==> <WorldAction as Action>::applicable((#[trigger] actions@[i])@, self@),
            decreases self.bridge_capacity + 1 - c,
        {
            let mut groups = unique_permutations(&side.people, c as usize);
            let ghost all = unique_permutations_of(self@.here(), c as nat);
            let ghost mut k: int = 0;
            assert(groups@.map_values(|p: Vec<Person>| p@).subrange(0, all.len() as int) =~= all);
            while groups.len() > 0
                invariant
                    1 <= c <= self.bridge_capacity,
                    side.people@ == self@.here(),
                    0 <= k <= all.len(),
                    groups@.map_values(|p: Vec<Person>| p@) == all.subrange(k, all.len() as int),
                    actions@.map_values(|a: WorldAction| a@) + keep(self@, all.subrange(k, all.len() as int))
                        + moves_from(self@, c as int + 1) == total,
                    forall|i: int| 0 <= i < actions@.len() ==> <WorldAction as Action>::applicable((#[trigger] actions@[i])@, self@),
                decreases groups.len(),
            {
                let ghost before = actions@.map_values(|a: WorldAction| a@);
                let ghost rest = all.subrange(k, all.len() as int);
                let people = groups.remove(0);
                assert(rest[0] == people@) by {
                    assert(groups@.len() + 1 == rest.len());
                }
                proof {
                    k = k + 1;
                    assert(rest.drop_first() =~= all.subrange(k, all.len() as int));
                }
                assert(groups@.map_values(|p: Vec<Person>| p@) =~= all.subrange(k, all.len() as int));
                if people.len() > 0 {
                    let action = WorldAction::new(people);
                    if action.is_applicable(self) {
                        actions.push(action);
                        assert(actions@.map_values(|a: WorldAction| a@) =~= before.push(action@));
                        assert(actions@.map_values(|a: WorldAction| a@) + keep(self@, all.subrange(k, all.len() as int))
                            + moves_from(self@, c as int + 1) =~= before + keep(self@, rest) + moves_from(self@, c as int + 1));
                    }
                }
            }
            assert(all.subrange(k, all.len() as int) =~= Seq::<Seq<Person>>::empty());
            assert(actions@.map_values(|a: WorldAction| a@) + moves_from(self@, c as int + 1)
                =~= actions@.map_values(|a: WorldAction| a@) + keep(self@, all.subrange(k, all.len() as int))
                + moves_from(self@, c as int + 1));
            c = c + 1;
        }
        assert(actions@.map_values(|a: WorldAction| a@) =~= actions@.map_values(|a: WorldAction| a@) + moves_from(self@, c as int));
        actions
    }

    /// Gets the hash of this state.
    fn unique_hash(&self) -> (r: HashState) {
        // The state is fully described by the people that are (still)
        // on the left side of the bridge and by the torch. Just the
        // torch location is not enough as multiple paths could lead
        // to the same people/torch position but different remaining times.
        HashState { left: copy_people(&self.left.people), torch: self.torch }
    }
}

impl Action for WorldAction {
    type State = WorldState;

    /// Somebody crosses, all of them from the torch's side, and the torch
    /// burns long enough for the slowest of them; the time stays within a
    /// byte.
    open spec fn applicable(a: Seq<Person>, c: WorldView) -> bool {
        &&& a.len() > 0
        &&& present(c.here(), a)
        &&& max_time(a) <= c.torch.remaining_time
        &&& c.time + max_time(a) <= u8::MAX
    }

    /// The movers and the torch go to the other side; the time advances and
    /// the torch burns down by the slowest walker's time.
    open spec fn result(a: Seq<Person>, c: WorldView) -> WorldView {
        let w = max_time(a);
        let here = remove_all(c.here(), a);
        let there = c.there() + a;
        let torch = Torch { side: c.torch.side.opposite(), remaining_time: (c.torch.remaining_time - w) as u8 };
        let time = (c.time + w) as u8;
        match c.torch.side {
            RiverSide::Left => WorldView { time, left: here, right: there, torch, bridge_capacity: c.bridge_capacity },
            RiverSide::Right => WorldView { time, left: there, right: here, torch, bridge_capacity: c.bridge_capacity },
        }
    }

    /// Tests whether an action is applicable in the given (usually current) world state.
    fn is_applicable(&self, state: &WorldState) -> (r: bool) {
        if self.people.len() == 0 {
            return false;
        }
        // Everyone who crosses must be on the torch's side.
        let mut rest = copy_people(&state.torch_side().people);
        let ghost a = self.people@;
        let mut i: usize = 0;
        assert(a.subrange(0, a.len() as int) =~= a);
        while i < self.people.len()
            invariant
                a == self.people@,
                i <= a.len(),
                present(state@.here(), a) == present(rest@, a.subrange(i as int, a.len() as int)),
            decreases self.people.len() - i,
        {
            let person = self.people[i];
            assert(a.subrange(i as int, a.len() as int)[0] == person);
            assert(a.subrange(i as int, a.len() as int).drop_first() =~= a.subrange(i as int + 1, a.len() as int));
            match position_of(&rest, person) {
                Some(j) => {
                    rest.remove(j);
                },
                None => {
                    return false;
                },
            }
            i = i + 1;
        }
        assert(a.subrange(i as int, a.len() as int) =~= Seq::<Person>::empty());
        // We can only cross if the torch holds long enough.
        let walking_time = self.walking_time();
        state.torch.remaining_time >= walking_time && state.time as u16 + walking_time as u16 <= u8::MAX as u16
    }

    /// Applies the specified action to the specified world state,
    /// returning the new state after the action was applied.
    fn apply(&self, state: &WorldState) -> (r: WorldState) {
        let (mut here, mut there) = match state.torch.side {
            RiverSide::Left => (copy_people(&state.left.people), copy_people(&state.right.people)),
            RiverSide::Right => (copy_people(&state.right.people), copy_people(&state.left.people)),
        };
        let ghost a = self.people@;
        let ghost h0 = here@;
        let ghost t0 = there@;
        assert(a.subrange(0, a.len() as int) =~= a);
        assert(t0 + a.subrange(0, 0) =~= t0);
        // Move each person from here to there.
        let mut i: usize = 0;
        while i < self.people.len()
            invariant
                a == self.people@,
                i <= a.len(),
                present(here@, a.subrange(i as int, a.len() as int)),
                remove_all(h0, a) == remove_all(here@, a.subrange(i as int, a.len() as int)),
                there@ == t0 + a.subrange(0, i as int),
            decreases self.people.len() - i,
        {
            let person = self.people[i];
            assert(a.subrange(i as int, a.len() as int)[0] == person);
            assert(a.subrange(i as int, a.len() as int).drop_first() =~= a.subrange(i as int + 1, a.len() as int));
            let j = position_of(&here, person).unwrap();
            here.remove(j);
            there.push(person);
            i = i + 1;
            assert(there@ =~= t0 + a.subrange(0, i as int));
        }
        assert(a.subrange(i as int, a.len() as int) =~= Seq::<Person>::empty());
        assert(a.subrange(0, i as int) =~= a);
        let walking_time = self.walking_time();
        let torch = Torch::new(state.torch.remaining_time - walking_time, state.torch.side.switch());
        let time = state.time + walking_time;
        match state.torch.side {
            RiverSide::Left => WorldState::new(RiverSideState::new(here), RiverSideState::new(there), torch, time, state.bridge_capacity),
            RiverSide::Right => WorldState::new(RiverSideState::new(there), RiverSideState::new(here), torch, time, state.bridge_capacity),
        }
    }
}

} // verus!
