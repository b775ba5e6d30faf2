//! The search driver: the state/action contract that a puzzle implements,
//! node expansion with duplicate suppression, and breadth-first search.
use crate::history::{linked, History, Lineage};
use crate::strategies::Fifo;
use vstd::hash_set::HashSetWithView;
use vstd::prelude::*;
use vstd::set_lib::lemma_len_subset;

verus! {

/// A state of the world. Its view is the configuration that the model
/// speaks of.
pub trait State: Sized + View {
    /// The type of action that apply to this state.
    type Action: Action<State = Self>;

    /// The hash type created to uniquely identify the state.
    type Hash: View + Eq + std::hash::Hash;

    /// Whether configuration `c` is a goal.
    spec fn goal(c: Self::V) -> bool;

    /// The actions enumerated for configuration `c`, in order.
    spec fn actions(c: Self::V) -> Seq<<Self::Action as View>::V>;

    /// The fingerprint of configuration `c`, as the view of its hash.
    spec fn fingerprint(c: Self::V) -> <Self::Hash as View>::V;

    /// Tests whether the specified world state is a goal state.
    fn is_goal(&self) -> (r: bool)
        ensures
            r == Self::goal(self@),
    ;

    /// Expands the world state into new (applicable) actions.
    /// If this state cannot be expanded, an empty vector is returned.
    fn get_actions(&self) -> (r: Vec<Self::Action>)
        ensures
            r@.map_values(|a: Self::Action| a@) == Self::actions(self@),
            forall|i: int| 0 <= i < r@.len() ==> Self::Action::applicable((#[trigger] r@[i])@, self@),
    ;

    /// Gets the hash of this state.
    fn unique_hash(&self) -> (r: Self::Hash)
        ensures
            r@ == Self::fingerprint(self@),
    ;
}

/// An action that can be performed in the world. Its view is the move that
/// the model speaks of.
pub trait Action: Sized + View {
    /// The type of state this action applies to.
    type State: View;

    /// Whether move `a` may be made in configuration `c`.
    spec fn applicable(a: Self::V, c: <Self::State as View>::V) -> bool;

    /// The configuration that making move `a` in configuration `c` yields.
    spec fn result(a: Self::V, c: <Self::State as View>::V) -> <Self::State as View>::V;

    /// Tests whether an action is applicable in the given (usually current) world state.
    fn is_applicable(&self, state: &Self::State) -> (r: bool)
        ensures
            r == Self::applicable(self@, state@),
    ;

    /// Applies the specified action to the specified world state,
    /// returning the new state after the action was applied.
    fn apply(&self, state: &Self::State) -> (r: Self::State)
        requires
            Self::applicable(self@, state@),
        ensures
            r@ == Self::result(self@, state@),
    ;
}

/// The configurations of the states `S`.
pub type ConfigOf<S> = <S as View>::V;

/// The moves of the states `S`.
pub type MoveOf<S> = <<S as State>::Action as View>::V;

/// The fingerprint type of the states `S`.
pub type Fingerprint<S> = <<S as State>::Hash as View>::V;

/// A plan as the model sees it: each pair's move and configuration.
pub type PlanView<S> = Seq<(Option<MoveOf<S>>, ConfigOf<S>)>;

/// Moving from `c` by `a` to `d` is a legal step: `a` is one of the moves
/// enumerated for `c`, it is applicable there, and it yields `d`.
pub open spec fn valid_step<S: State>(c: ConfigOf<S>, a: Option<MoveOf<S>>, d: ConfigOf<S>) -> bool {
    match a {
        Some(a) => S::actions(c).contains(a) && S::Action::applicable(a, c) && S::Action::result(a, c) == d,
        None => false,
    }
}

/// `plan` starts at `init` with no move, and each later pair holds the
/// move that leads from the previous configuration to its own.
pub open spec fn is_plan<S: State>(init: ConfigOf<S>, plan: PlanView<S>) -> bool {
    &&& plan.len() > 0
    &&& plan[0].0 is None
    &&& plan[0].1 == init
    &&& forall|i: int| 0 < i < plan.len() ==> valid_step::<S>(plan[i - 1].1, #[trigger] plan[i].0, plan[i].1)
}

/// The view of an action that may be absent.
pub open spec fn move_view<S: State>(a: Option<S::Action>) -> Option<MoveOf<S>> {
    match a {
        Some(a) => Some(a@),
        None => None,
    }
}

/// The view of a plan of actions and states.
pub open spec fn plan_view<S: State>(plan: Seq<(Option<S::Action>, S)>) -> PlanView<S> {
    plan.map_values(|p: (Option<S::Action>, S)| (move_view::<S>(p.0), p.1@))
}

/// The view of a sequence of (action, state) children.
pub open spec fn children_view<S: State>(children: Seq<(S::Action, S)>) -> Seq<(MoveOf<S>, ConfigOf<S>)> {
    children.map_values(|p: (S::Action, S)| (p.0@, p.1@))
}

/// The fingerprints of all configurations that some plan reaches from `init`.
pub open spec fn reachable_fingerprints<S: State>(init: ConfigOf<S>) -> Set<Fingerprint<S>> {
    Set::new(
        |x: Fingerprint<S>|
            exists|plan: PlanView<S>| is_plan::<S>(init, plan) && #[trigger] S::fingerprint(plan.last().1) == x,
    )
}

/// Hashes of type `H` can key a hash set: hashing and equality behave as
/// their model says, and equal views mean equal hashes.
pub open spec fn hashing_is_lawful<H: View + Eq + std::hash::Hash>() -> bool {
    &&& vstd::std_specs::hash::obeys_key_model::<H>()
    &&& forall|k1: H, k2: H| k1@ == k2@ ==> k1 == k2
}

/// Fingerprints are faithful: configurations with one fingerprint agree on
/// being a goal, and whatever move one of them can make, the other can make
/// a move that leads to a configuration with the same fingerprint.
#[verifier::opaque]
pub open spec fn faithful_fingerprints<S: State>() -> bool {
    forall|c1: ConfigOf<S>, c2: ConfigOf<S>|
        #[trigger] S::fingerprint(c1) == #[trigger] S::fingerprint(c2) ==> {
            &&& S::goal(c1) == S::goal(c2)
            &&& forall|a: MoveOf<S>|
                #[trigger] S::actions(c1).contains(a) && S::Action::applicable(a, c1) ==> exists|b: MoveOf<S>|
                    #[trigger] S::actions(c2).contains(b) && S::Action::applicable(b, c2)
                        && S::fingerprint(S::Action::result(b, c2)) == S::fingerprint(S::Action::result(a, c1))
        }
}

/// What faithful fingerprints give of two configurations with one
/// fingerprint and a move of the first.
pub proof fn lemma_faithful_move<S: State>(c1: ConfigOf<S>, c2: ConfigOf<S>, a: MoveOf<S>)
    requires
        faithful_fingerprints::<S>(),
        S::fingerprint(c1) == S::fingerprint(c2),
        S::actions(c1).contains(a),
        S::Action::applicable(a, c1),
    ensures
        S::goal(c1) == S::goal(c2),
        exists|b: MoveOf<S>|
            #[trigger] S::actions(c2).contains(b) && S::Action::applicable(b, c2)
                && S::fingerprint(S::Action::result(b, c2)) == S::fingerprint(S::Action::result(a, c1)),
{
    reveal(faithful_fingerprints);
}

/// Faithful fingerprints agree on goals.
pub proof fn lemma_faithful_goal<S: State>(c1: ConfigOf<S>, c2: ConfigOf<S>)
    requires
        faithful_fingerprints::<S>(),
        S::fingerprint(c1) == S::fingerprint(c2),
    ensures
        S::goal(c1) == S::goal(c2),
{
    reveal(faithful_fingerprints);
}

/// Some plan from `init` reaches a goal.
pub open spec fn goal_reachable<S: State>(init: ConfigOf<S>) -> bool {
    exists|plan: PlanView<S>| is_plan::<S>(init, plan) && S::goal(#[trigger] plan.last().1)
}

/// The children that expanding `c` by `acts`, in order, adds when the
/// fingerprints in `seen` are known already: a child whose fingerprint is
/// known (or was produced by an earlier move) is discarded.
pub open spec fn fresh_children<S: State>(
    c: ConfigOf<S>,
    acts: Seq<MoveOf<S>>,
    seen: Set<Fingerprint<S>>,
) -> Seq<(MoveOf<S>, ConfigOf<S>)>
    decreases acts.len(),
{
    if acts.len() == 0 {
        Seq::empty()
    } else {
        let d = S::Action::result(acts[0], c);
        if seen.contains(S::fingerprint(d)) {
            fresh_children::<S>(c, acts.drop_first(), seen)
        } else {
            seq![(acts[0], d)] + fresh_children::<S>(c, acts.drop_first(), seen.insert(S::fingerprint(d)))
        }
    }
}

/// The known fingerprints after expanding `c` by `acts` from `seen`.
pub open spec fn seen_after<S: State>(
    c: ConfigOf<S>,
    acts: Seq<MoveOf<S>>,
    seen: Set<Fingerprint<S>>,
) -> Set<Fingerprint<S>>
    decreases acts.len(),
{
    if acts.len() == 0 {
        seen
    } else {
        seen_after::<S>(c, acts.drop_first(), seen.insert(S::fingerprint(S::Action::result(acts[0], c))))
    }
}

/// A run as the model sees it: for each node its parent, the move that
/// reached it and its configuration; how many nodes were taken from the
/// frontier; and the fingerprints observed.
pub struct RunView<S: State> {
    pub nodes: Seq<(Option<usize>, Option<MoveOf<S>>, ConfigOf<S>)>,
    pub popped: nat,
    pub observed: Set<Fingerprint<S>>,
}

/// A run that has only recorded its root `init`.
pub open spec fn run_start<S: State>(init: ConfigOf<S>) -> RunView<S> {
    RunView { nodes: seq![(None, None, init)], popped: 0, observed: Set::empty().insert(S::fingerprint(init)) }
}

/// One step of a run: the next node is taken; unless it is a goal, its
/// fresh children are recorded with it as their parent.
pub open spec fn run_step<S: State>(r: RunView<S>) -> RunView<S> {
    if r.popped >= r.nodes.len() {
        r
    } else {
        let c = r.nodes[r.popped as int].2;
        if S::goal(c) {
            RunView { nodes: r.nodes, popped: r.popped + 1, observed: r.observed }
        } else {
            let children = fresh_children::<S>(c, S::actions(c), r.observed);
            RunView {
                nodes: r.nodes + children.map_values(
                    |ch: (MoveOf<S>, ConfigOf<S>)| (Some(r.popped as usize), Some(ch.0), ch.1),
                ),
                popped: r.popped + 1,
                observed: seen_after::<S>(c, S::actions(c), r.observed),
            }
        }
    }
}

/// The run from `init` after `n` steps.
pub open spec fn run_after<S: State>(init: ConfigOf<S>, n: nat) -> RunView<S>
    decreases n,
{
    if n == 0 {
        run_start::<S>(init)
    } else {
        run_step::<S>(run_after::<S>(init, (n - 1) as nat))
    }
}

/// At step `n` of the run from `init`, the node taken is a goal.
pub open spec fn goal_taken<S: State>(init: ConfigOf<S>, n: nat) -> bool {
    let r = run_after::<S>(init, n);
    r.popped < r.nodes.len() && S::goal(r.nodes[r.popped as int].2)
}

/// The plan to node `i` of `nodes`, along the parent links.
pub open spec fn node_path<S: State>(nodes: Seq<(Option<usize>, Option<MoveOf<S>>, ConfigOf<S>)>, i: int) -> PlanView<S>
    decreases i,
{
    if 0 <= i < nodes.len() {
        let e = nodes[i];
        match e.0 {
            Some(p) => if 0 <= p < i {
                node_path::<S>(nodes, p as int).push((e.1, e.2))
            } else {
                seq![(e.1, e.2)]
            },
            None => seq![(e.1, e.2)],
        }
    } else {
        Seq::empty()
    }
}

/// The first step of the run from `init` that takes a goal, if any.
pub open spec fn first_goal<S: State>(init: ConfigOf<S>) -> Option<nat> {
    if exists|n: nat| #[trigger] goal_taken::<S>(init, n) && forall|m: nat| m < n ==> !goal_taken::<S>(init, m) {
        Some(choose|n: nat| #[trigger] goal_taken::<S>(init, n) && forall|m: nat| m < n ==> !goal_taken::<S>(init, m))
    } else {
        None
    }
}

/// The plan that breadth-first search from `init` returns: the plan to the
/// first goal that the run takes, or none.
pub open spec fn bfs_plan<S: State>(init: ConfigOf<S>) -> Option<PlanView<S>> {
    match first_goal::<S>(init) {
        Some(n) => {
            let r = run_after::<S>(init, n);
            Some(node_path::<S>(r.nodes, r.popped as int))
        },
        None => None,
    }
}

/// Searching twice from equal initial configurations gives equal plans:
/// the outcome depends on the initial configuration and the model alone.
pub proof fn lemma_deterministic<S: State>(
    init1: ConfigOf<S>,
    init2: ConfigOf<S>,
    plan1: Option<PlanView<S>>,
    plan2: Option<PlanView<S>>,
)
    requires
        init1 == init2,
        plan1 == bfs_plan::<S>(init1),
        plan2 == bfs_plan::<S>(init2),
    ensures
        plan1 == plan2,
{
}

/// The view of a search outcome.
pub open spec fn outcome_view<S: State>(r: Option<Vec<(Option<S::Action>, S)>>) -> Option<PlanView<S>> {
    match r {
        Some(plan) => Some(plan_view::<S>(plan@)),
        None => None,
    }
}

/// Expands the world state into its children whose fingerprints were not
/// observed before, recording their fingerprints in `observed`.
pub fn expand<S: State>(state: &S, observed: &mut HashSetWithView<S::Hash>) -> (r: Vec<(S::Action, S)>)
    ensures
        children_view::<S>(r@) == fresh_children::<S>(state@, S::actions(state@), old(observed)@),
        final(observed)@ == seen_after::<S>(state@, S::actions(state@), old(observed)@),
        forall|j: int| 0 <= j < r@.len() ==> valid_step::<S>(state@, Some((#[trigger] r@[j]).0@), r@[j].1@),
        forall|j: int| 0 <= j < r@.len() ==> !old(observed)@.contains(S::fingerprint((#[trigger] r@[j]).1@)),
        forall|j: int, k: int|
            0 <= j < k < r@.len() ==> S::fingerprint((#[trigger] r@[j]).1@) != S::fingerprint((#[trigger] r@[k]).1@),
        forall|x: Fingerprint<S>|
            #[trigger] final(observed)@.contains(x) <==> (old(observed)@.contains(x) || exists|j: int|
                0 <= j < r@.len() && S::fingerprint((#[trigger] r@[j]).1@) == x),
{
    let ghost c = state@;
    let ghost acts0 = S::actions(c);
    let ghost seen0 = observed@;
    let mut actions = state.get_actions();
    let ghost all = actions@;
    let mut states: Vec<(S::Action, S)> = Vec::new();
    let ghost mut i: int = 0;
    assert(acts0.subrange(0, acts0.len() as int) =~= acts0);
    assert(children_view::<S>(states@) =~= Seq::<(MoveOf<S>, ConfigOf<S>)>::empty());
    assert(actions@ =~= all.subrange(0, all.len() as int));
    while actions.len() > 0
        invariant
            c == state@,
            acts0 == S::actions(c),
            0 <= i <= all.len(),
            all.map_values(|a: S::Action| a@) == acts0,
            actions@ == all.subrange(i, all.len() as int),
            forall|k: int| 0 <= k < all.len() ==> S::Action::applicable((#[trigger] all[k])@, c),
            children_view::<S>(states@) + fresh_children::<S>(c, acts0.subrange(i, acts0.len() as int), observed@)
                == fresh_children::<S>(c, acts0, seen0),
            seen_after::<S>(c, acts0.subrange(i, acts0.len() as int), observed@) == seen_after::<S>(c, acts0, seen0),
            forall|j: int| 0 <= j < states@.len() ==> valid_step::<S>(c, Some((#[trigger] states@[j]).0@), states@[j].1@),
            forall|j: int| 0 <= j < states@.len() ==> !seen0.contains(S::fingerprint((#[trigger] states@[j]).1@)),
            forall|j: int, k: int|
                0 <= j < k < states@.len() ==> S::fingerprint((#[trigger] states@[j]).1@) != S::fingerprint((#[trigger] states@[k]).1@),
            forall|x: Fingerprint<S>|
                #[trigger] observed@.contains(x) <==> (seen0.contains(x) || exists|j: int|
                    0 <= j < states@.len() && S::fingerprint((#[trigger] states@[j]).1@) == x),
        decreases actions.len(),
    {
        let ghost obs_before = observed@;
        let ghost rest_before = acts0.subrange(i, acts0.len() as int);
        let action = actions.remove(0);
        assert(all[i] == action);
        assert(acts0[i] == action@);
        assert(acts0.contains(action@));
        proof {
            i = i + 1;
        }
        assert(actions@ =~= all.subrange(i, all.len() as int));
        assert(rest_before.drop_first() =~= acts0.subrange(i, acts0.len() as int));
        assert(rest_before[0] == action@);
        if action.is_applicable(state) {
            let new_state = action.apply(state);
            // Only expand states we did not see before.
            let ghost before = states@;
            if observed.insert(new_state.unique_hash()) {
                states.push((action, new_state));
                let ghost fp = S::fingerprint(new_state@);
                assert(children_view::<S>(states@) =~= children_view::<S>(before).push((action@, new_state@)));
                assert(children_view::<S>(states@) + fresh_children::<S>(c, acts0.subrange(i, acts0.len() as int), observed@)
                    =~= children_view::<S>(before) + (seq![(action@, new_state@)] + fresh_children::<S>(c, acts0.subrange(i, acts0.len() as int), observed@)));
                assert forall|x: Fingerprint<S>|
                    #[trigger] observed@.contains(x) <==> (seen0.contains(x) || exists|j: int|
                        0 <= j < states@.len() && S::fingerprint((#[trigger] states@[j]).1@) == x) by {
                    assert(S::fingerprint(states@[before.len() as int].1@) == fp);
                    if observed@.contains(x) && !seen0.contains(x) && x != fp {
                        let j = choose|j: int| 0 <= j < before.len() && S::fingerprint((#[trigger] before[j]).1@) == x;
                        assert(states@[j] == before[j]);
                    }
                    if exists|j: int| 0 <= j < states@.len() && S::fingerprint((#[trigger] states@[j]).1@) == x {
                        let j = choose|j: int| 0 <= j < states@.len() && S::fingerprint((#[trigger] states@[j]).1@) == x;
                        if j < before.len() {
                            assert(before[j] == states@[j]);
                        }
                    }
                }
            } else {
                assert(observed@ =~= obs_before);
            }
        }
    }
    assert(acts0.subrange(i, acts0.len() as int) =~= Seq::<MoveOf<S>>::empty());
    assert(children_view::<S>(states@) + Seq::<(MoveOf<S>, ConfigOf<S>)>::empty() =~= children_view::<S>(states@));
    states
}

/// What one step of the search did.
pub enum Step {
    /// The node with this ID was taken from the frontier and is a goal.
    Goal(usize),
    /// The node with ID `id` was taken from the frontier and expanded into
    /// `children` new nodes (none: a dead end).
    Expanded { id: usize, children: usize },
    /// The frontier is empty: every discovered node was taken from it.
    Exhausted,
}

/// A breadth-first search run: the lineage store, the frontier of node IDs
/// and the fingerprints observed so far.
pub struct Search<S: State> {
    history: History<S, S::Action>,
    frontier: Fifo<usize>,
    observed: HashSetWithView<S::Hash>,
    popped: usize,
}

impl<S: State> Search<S> {
    /// The nodes discovered so far, in order of discovery.
    pub closed spec fn entries(&self) -> Seq<Lineage<S, S::Action>> {
        self.history@
    }

    /// How many nodes were taken from the frontier so far; with the FIFO
    /// discipline these are the nodes with IDs below this number.
    pub closed spec fn popped(&self) -> nat {
        self.popped as nat
    }

    /// The initial configuration.
    pub open spec fn init(&self) -> ConfigOf<S> {
        self.entries()[0].state@
    }

    /// The fingerprints of the nodes taken from the frontier, in order.
    pub open spec fn expanded(&self) -> Seq<Fingerprint<S>> {
        Seq::new(self.popped(), |i: int| S::fingerprint(self.entries()[i].state@))
    }

    /// The plan that leads to node `id`.
    pub closed spec fn path(&self, id: int) -> Seq<(Option<S::Action>, S)> {
        self.history.path(id)
    }

    /// Each node other than the root was reached by a legal step from a
    /// parent that was expanded and is not a goal.
    pub open spec fn parent_ok(&self, i: int) -> bool {
        let h = self.entries();
        let p = h[i].parent_id.unwrap() as int;
        i > 0 ==> {
            &&& p < self.popped()
            &&& !S::goal(h[p].state@)
            &&& valid_step::<S>(h[p].state@, move_view::<S>(h[i].action), h[i].state@)
        }
    }

    /// The fingerprints observed so far.
    pub closed spec fn observed(&self) -> Set<Fingerprint<S>> {
        self.observed@
    }

    /// Node `i` was explored: the fingerprint of every configuration that
    /// one of its moves leads to is observed.
    pub open spec fn explored(&self, i: int) -> bool {
        let c = self.entries()[i].state@;
        forall|a: MoveOf<S>|
            #[trigger] S::actions(c).contains(a) ==> self.observed().contains(S::fingerprint(S::Action::result(a, c)))
    }

    /// The run as the model sees it.
    pub closed spec fn run_view(&self) -> RunView<S> {
        RunView {
            nodes: self.history@.map_values(
                |e: Lineage<S, S::Action>| (e.parent_id, move_view::<S>(e.action), e.state@),
            ),
            popped: self.popped as nat,
            observed: self.observed@,
        }
    }

    /// The number of moves in the plan to node `i`.
    pub closed spec fn depth(&self, i: int) -> int {
        self.history.path(i).len() - 1
    }

    /// Node `i` was explored within one layer: every configuration that one
    /// of its moves leads to shares its fingerprint with a node at most one
    /// move deeper than node `i`.
    pub open spec fn explored_within(&self, i: int) -> bool {
        let c = self.entries()[i].state@;
        forall|a: MoveOf<S>|
            #[trigger] S::actions(c).contains(a) ==> exists|e: int|
                0 <= e < self.entries().len() && #[trigger] S::fingerprint(self.entries()[e].state@) == S::fingerprint(
                    S::Action::result(a, c),
                ) && self.depth(e) <= self.depth(i) + 1
    }

    /// Breadth-first layering: depths never decrease in the order of
    /// discovery, no node lies more than one move deeper than the next node
    /// to take, and each expanded node was explored within one layer.
    pub open spec fn layered(&self) -> bool {
        let n = self.entries().len();
        &&& forall|i: int, j: int| 0 <= i <= j < n ==> #[trigger] self.depth(i) <= #[trigger] self.depth(j)
        &&& self.popped() < n ==> forall|j: int| 0 <= j < n ==> #[trigger] self.depth(j) <= self.depth(self.popped() as int) + 1
        &&& forall|i: int|
            0 <= i < self.popped() && !S::goal(self.entries()[i].state@) ==> #[trigger] self.explored_within(i)
    }

    /// The invariant of a run.
    pub closed spec fn wf(&self) -> bool {
        self.consistent() && self.layered()
    }

    /// The bookkeeping of a run: lineage, frontier and observed fingerprints
    /// agree.
    pub closed spec fn consistent(&self) -> bool {
        let h = self.history@;
        &&& self.history.wf()
        &&& h.len() > 0
        &&& self.popped <= h.len()
        &&& self.frontier@ == Seq::new((h.len() - self.popped) as nat, |i: int| (self.popped + i) as usize)
        &&& forall|i: int| 0 <= i < h.len() ==> #[trigger] self.parent_ok(i)
        &&& forall|i: int, j: int|
            0 <= i < j < h.len() ==> #[trigger] S::fingerprint(h[i].state@) != #[trigger] S::fingerprint(h[j].state@)
        &&& forall|x: Fingerprint<S>|
            #[trigger] self.observed@.contains(x) <==> exists|i: int|
                0 <= i < h.len() && #[trigger] S::fingerprint(h[i].state@) == x
        &&& self.observed@.finite()
        &&& self.observed@.len() == h.len()
        &&& forall|i: int| 0 <= i < self.popped && !S::goal(h[i].state@) ==> #[trigger] self.explored(i)
    }

    /// Starts a run at `initial`: the root is recorded, its fingerprint
    /// observed, and it is the only node on the frontier.
    pub fn new(initial: S) -> (r: Self)
        requires
            hashing_is_lawful::<S::Hash>(),
        ensures
            r.wf(),
            r.init() == initial@,
            r.entries().len() == 1,
            r.popped() == 0,
            r.run_view() == run_start::<S>(initial@),
    {
        let mut observed = HashSetWithView::new();
        observed.insert(initial.unique_hash());
        let mut history = History::new();
        let ghost init = initial;
        let root = history.create_root(initial);
        let mut frontier = Fifo::new();
        frontier.push(root);
        let r = Search { history, frontier, observed, popped: 0 };
        assert(r.frontier@ =~= Seq::new((r.history@.len() - r.popped) as nat, |i: int| (r.popped + i) as usize));
        assert(r.observed@ =~= Set::empty().insert(S::fingerprint(init@)));
        assert forall|x: Fingerprint<S>|
            #[trigger] r.observed@.contains(x) <==> exists|i: int|
                0 <= i < r.history@.len() && #[trigger] S::fingerprint(r.history@[i].state@) == x by {
            if r.observed@.contains(x) {
                assert(S::fingerprint(r.history@[0].state@) == x);
            }
        }
        assert(r.parent_ok(0));
        proof {
            r.history.lemma_path_len(0);
            assert(r.layered());
            assert(r.run_view().nodes =~= run_start::<S>(init@).nodes);
        }
        r
    }

    /// Takes the next node from the frontier: reports it if it is a goal,
    /// otherwise expands it, records its new children and queues them.
    pub fn step(&mut self) -> (r: Step)
        requires
            old(self).wf(),
        ensures
            final(self).wf(),
            final(self).run_view() == run_step::<S>(old(self).run_view()),
            final(self).entries().take(old(self).entries().len() as int) == old(self).entries(),
            match r {
                Step::Goal(id) => {
                    &&& id == old(self).popped()
                    &&& final(self).popped() == old(self).popped() + 1
                    &&& final(self).entries() == old(self).entries()
                    &&& S::goal(final(self).entries()[id as int].state@)
                },
                Step::Expanded { id, children } => {
                    &&& id == old(self).popped()
                    &&& final(self).popped() == old(self).popped() + 1
                    &&& !S::goal(final(self).entries()[id as int].state@)
                    &&& final(self).entries().len() == old(self).entries().len() + children
                },
                Step::Exhausted => {
                    &&& old(self).popped() == old(self).entries().len()
                    &&& *final(self) == *old(self)
                },
            },
    {
        let ghost pre = *self;
        let ghost h0 = self.history@;
        if self.popped == self.history.len() {
            return Step::Exhausted;
        }
        let id = self.frontier.pop().unwrap();
        self.popped = self.popped + 1;
        assert(self.frontier@ =~= Seq::new((h0.len() - self.popped) as nat, |i: int| (self.popped + i) as usize));
        assert forall|i: int| 0 <= i < h0.len() implies #[trigger] self.parent_ok(i) by {
            assert(pre.parent_ok(i));
        }
        let state = &self.history.get(id).state;
        if state.is_goal() {
            assert(self.entries() =~= pre.entries());
            assert forall|i: int| 0 <= i < self.popped && !S::goal(self.history@[i].state@) implies #[trigger] self.explored(i) by {
                assert(pre.explored(i));
            }
            proof {
                assert(self.history == pre.history);
                assert forall|i: int| 0 <= i < self.popped && !S::goal(self.history@[i].state@) implies #[trigger] self.explored_within(i) by {
                    assert(pre.explored_within(i));
                }
                assert forall|i: int| 0 <= i < h0.len() implies #[trigger] self.depth(i) == pre.depth(i) by {}
                assert forall|i: int, j: int| 0 <= i <= j < h0.len() implies #[trigger] self.depth(i) <= #[trigger] self.depth(j) by {
                    assert(pre.depth(i) <= pre.depth(j));
                }
                if self.popped < h0.len() {
                    assert(pre.depth(id as int) <= pre.depth(id as int + 1));
                    assert forall|j: int| 0 <= j < h0.len() implies #[trigger] self.depth(j) <= self.depth(self.popped as int) + 1 by {
                        assert(pre.depth(j) <= pre.depth(id as int) + 1);
                    }
                }
                assert(self.layered());
                assert(self.run_view().nodes == pre.run_view().nodes);
            }
            return Step::Goal(id);
        }
        let mut children = expand(state, &mut self.observed);
        let ghost all = children@;
        let ghost obs1 = self.observed@;
        let ghost fresh_seq = fresh_children::<S>(state@, S::actions(state@), pre.observed@);
        assert(children_view::<S>(all) == fresh_seq);
        assert(obs1 == seen_after::<S>(state@, S::actions(state@), pre.observed@));
        proof {
            lemma_seen_after::<S>(state@, S::actions(state@), pre.observed@);
        }
        let ghost n0 = h0.len();
        let count = children.len();
        let ghost mut k: int = 0;
        while children.len() > 0
            invariant
                0 <= k <= all.len(),
                children@ == all.subrange(k, all.len() as int),
                self.history.wf(),
                self.history@.len() == n0 + k,
                self.history@.take(n0 as int) == h0,
                h0.len() == n0,
                n0 > 0,
                id < n0,
                id == self.popped - 1,
                h0[id as int].state@ == state@,
                !S::goal(state@),
                self.popped <= n0,
                self.frontier@ == Seq::new((self.history@.len() - self.popped) as nat, |i: int| (self.popped + i) as usize),
                forall|j: int| 0 <= j < all.len() ==> valid_step::<S>(state@, Some((#[trigger] all[j]).0@), all[j].1@),
                forall|j: int| 0 <= j < k ==> {
                    &&& (#[trigger] self.history@[n0 + j]).state == all[j].1
                    &&& self.history@[n0 + j].action == Some(all[j].0)
                    &&& self.history@[n0 + j].parent_id == Some(id)
                },
                pre.wf(),
                pre.history@ == h0,
                self.observed@ == obs1,
                children_view::<S>(all) == fresh_seq,
                fresh_seq == fresh_children::<S>(state@, S::actions(state@), pre.observed@),
                obs1 == seen_after::<S>(state@, S::actions(state@), pre.observed@),
                pre.observed@.subset_of(obs1),
                forall|a: MoveOf<S>|
                    #[trigger] S::actions(state@).contains(a) ==> obs1.contains(S::fingerprint(S::Action::result(a, state@))),
                forall|j: int| 0 <= j < all.len() ==> !pre.observed@.contains(#[trigger] S::fingerprint(all[j].1@)),
                forall|j: int, l: int|
                    0 <= j < l < all.len() ==> #[trigger] S::fingerprint(all[j].1@) != #[trigger] S::fingerprint(all[l].1@),
                forall|x: Fingerprint<S>|
                    #[trigger] obs1.contains(x) <==> (pre.observed@.contains(x) || exists|j: int|
                        0 <= j < all.len() && #[trigger] S::fingerprint(all[j].1@) == x),
                pre.popped + 1 == self.popped,
            decreases children.len(),
        {
            let (action, child) = children.remove(0);
            assert(all[k] == (action, child));
            let ghost hb = self.history@;
            let new_id = self.history.create_entry(action, child, id);
            self.frontier.push(new_id);
            proof {
                k = k + 1;
                assert(children@ =~= all.subrange(k, all.len() as int));
                assert(self.history@.take(n0 as int) =~= h0) by {
                    assert(hb.take(n0 as int) =~= h0);
                    assert(self.history@.drop_last() == hb);
                }
                assert(self.frontier@ =~= Seq::new((self.history@.len() - self.popped) as nat, |i: int| (self.popped + i) as usize));
                assert forall|j: int| 0 <= j < k implies {
                    &&& (#[trigger] self.history@[n0 + j]).state == all[j].1
                    &&& self.history@[n0 + j].action == Some(all[j].0)
                    &&& self.history@[n0 + j].parent_id == Some(id)
                } by {
                    if j < k - 1 {
                        assert(self.history@[n0 + j] == hb[n0 + j]);
                    }
                }
            }
        }
        proof {
            let h = self.history@;
            assert(k == all.len());
            assert(self.history@.take(n0 as int) =~= h0);
            assert forall|i: int| 0 <= i < h.len() implies #[trigger] self.parent_ok(i) by {
                if i < n0 {
                    assert(pre.parent_ok(i));
                    assert(h[i] == h0[i]);
                    if i > 0 {
                        assert(linked(h0, i));
                        let p = h0[i].parent_id.unwrap() as int;
                        assert(h[p] == h0[p]);
                    }
                } else {
                    assert(h[n0 + (i - n0)] == h[i]);
                    assert(h[id as int] == h0[id as int]);
                }
            }
            assert forall|i: int, j: int|
                0 <= i < j < h.len() implies #[trigger] S::fingerprint(h[i].state@) != #[trigger] S::fingerprint(h[j].state@) by {
                if j >= n0 {
                    assert(h[n0 + (j - n0)] == h[j]);
                    if i >= n0 {
                        assert(h[n0 + (i - n0)] == h[i]);
                    } else {
                        assert(h[i] == h0[i]);
                        assert(pre.observed@.contains(S::fingerprint(h0[i].state@)));
                    }
                } else {
                    assert(h[i] == h0[i]);
                    assert(h[j] == h0[j]);
                }
            }
            assert forall|x: Fingerprint<S>|
                #[trigger] self.observed@.contains(x) <==> exists|i: int|
                    0 <= i < h.len() && #[trigger] S::fingerprint(h[i].state@) == x by {
                if self.observed@.contains(x) {
                    if pre.observed@.contains(x) {
                        let i = choose|i: int| 0 <= i < h0.len() && #[trigger] S::fingerprint(h0[i].state@) == x;
                        assert(h[i] == h0[i]);
                    } else {
                        let j = choose|j: int| 0 <= j < all.len() && #[trigger] S::fingerprint(all[j].1@) == x;
                        assert(h[n0 + j].state == all[j].1);
                    }
                }
                if exists|i: int| 0 <= i < h.len() && #[trigger] S::fingerprint(h[i].state@) == x {
                    let i = choose|i: int| 0 <= i < h.len() && #[trigger] S::fingerprint(h[i].state@) == x;
                    if i < n0 {
                        assert(h[i] == h0[i]);
                    } else {
                        assert(h[n0 + (i - n0)] == h[i]);
                        assert(h[n0 + (i - n0)].state == all[i - n0].1);
                    }
                }
            }
            let fresh = Set::new(|x: Fingerprint<S>| exists|j: int| 0 <= j < all.len() && #[trigger] S::fingerprint(all[j].1@) == x);
            assert(self.observed@ =~= pre.observed@ + fresh);
            let fps = Seq::new(all.len(), |j: int| S::fingerprint(all[j].1@));
            assert forall|x: Fingerprint<S>| fresh.contains(x) <==> fps.to_set().contains(x) by {
                if fresh.contains(x) {
                    let j = choose|j: int| 0 <= j < all.len() && #[trigger] S::fingerprint(all[j].1@) == x;
                    assert(fps[j] == x);
                }
                if fps.to_set().contains(x) {
                    let j = choose|j: int| 0 <= j < fps.len() && fps[j] == x;
                    assert(S::fingerprint(all[j].1@) == x);
                }
            }
            assert(fresh =~= fps.to_set());
            lemma_fresh_count(all, pre.observed@, fresh);
            assert(self.entries().take(n0 as int) == pre.entries());
            assert forall|i: int| 0 <= i < self.popped && !S::goal(h[i].state@) implies #[trigger] self.explored(i) by {
                assert(h[i] == h0[i]);
                if i < id {
                    assert(pre.explored(i));
                }
            }
            assert(self.consistent());
            assert forall|j: int| n0 <= j < h.len() implies (#[trigger] self.entries()[j]).parent_id == Some(id) by {
                assert(h[n0 + (j - n0)] == h[j]);
            }
            lemma_layered_expand(pre, *self, id as int);
            let old_nodes = pre.run_view().nodes;
            let mapped = fresh_seq.map_values(
                |ch: (MoveOf<S>, ConfigOf<S>)| (Some(pre.popped as usize), Some(ch.0), ch.1),
            );
            assert(h0[id as int].state@ == state@);
            assert(old_nodes[pre.popped as int].2 == state@);
            assert forall|j: int| 0 <= j < h.len() implies #[trigger] self.run_view().nodes[j] == (old_nodes + mapped)[j] by {
                if j < n0 {
                    assert(h[j] == h0[j]);
                } else {
                    assert(h[n0 + (j - n0)] == h[j]);
                    assert(children_view::<S>(all)[j - n0] == (all[j - n0].0@, all[j - n0].1@));
                }
            }
            assert(self.run_view().nodes =~= old_nodes + mapped);
        }
        Step::Expanded { id, children: count }
    }

    /// The plan that leads to any recorded node starts at the initial
    /// configuration, takes legal steps only, ends at that node, and passes
    /// no goal before its end.
    pub proof fn lemma_path(&self, i: int)
        requires
            self.wf(),
            0 <= i < self.entries().len(),
        ensures
            is_plan::<S>(self.init(), plan_view::<S>(self.path(i))),
            self.path(i).last().1 == self.entries()[i].state,
            forall|j: int| 0 <= j < self.path(i).len() - 1 ==> !S::goal((#[trigger] self.path(i)[j]).1@),
        decreases i,
    {
        let h = self.history@;
        assert(linked(h, i));
        assert(self.parent_ok(i));
        if i > 0 {
            let p = h[i].parent_id.unwrap() as int;
            self.lemma_path(p);
            let pp = self.path(p);
            let pi = self.path(i);
            assert(pi == pp.push((h[i].action, h[i].state)));
            let vi = plan_view::<S>(pi);
            let vp = plan_view::<S>(pp);
            assert forall|k: int| 0 < k < vi.len() implies valid_step::<S>(vi[k - 1].1, #[trigger] vi[k].0, vi[k].1) by {
                if k < vi.len() - 1 {
                    assert(vi[k - 1] == vp[k - 1]);
                    assert(vi[k] == vp[k]);
                }
            }
            assert forall|j: int| 0 <= j < pi.len() - 1 implies !S::goal((#[trigger] pi[j]).1@) by {
                assert(pi[j] == pp[j]);
            }
        } else {
            assert(self.path(0) == seq![(h[0].action, h[0].state)]);
        }
    }

    /// Every node of a run has a fingerprint that the initial configuration
    /// reaches, so a run records at most as many nodes as there are such
    /// fingerprints.
    pub proof fn lemma_bounded(&self)
        requires
            self.wf(),
            reachable_fingerprints::<S>(self.init()).finite(),
        ensures
            self.popped() <= self.entries().len() <= reachable_fingerprints::<S>(self.init()).len(),
    {
        let r = reachable_fingerprints::<S>(self.init());
        assert forall|x: Fingerprint<S>| self.observed@.contains(x) implies r.contains(x) by {
            let i = choose|i: int| 0 <= i < self.history@.len() && #[trigger] S::fingerprint(self.history@[i].state@) == x;
            self.lemma_path(i);
            let v = plan_view::<S>(self.path(i));
            assert(is_plan::<S>(self.init(), v) && S::fingerprint(v.last().1) == x);
        }
        lemma_len_subset(self.observed@, r);
    }

    /// No fingerprint is expanded twice in a run.
    pub proof fn lemma_no_duplicate_expansion(&self)
        requires
            self.wf(),
        ensures
            self.expanded().no_duplicates(),
    {
        let e = self.expanded();
        assert forall|i: int, j: int| 0 <= i < e.len() && 0 <= j < e.len() && i != j implies e[i] != e[j] by {
            let h = self.history@;
            if i < j {
                assert(S::fingerprint(h[i].state@) != S::fingerprint(h[j].state@));
            } else {
                assert(S::fingerprint(h[j].state@) != S::fingerprint(h[i].state@));
            }
        }
    }

    /// When every node was taken from the frontier and none was a goal, the
    /// fingerprint of every configuration that a plan reaches is observed,
    /// provided fingerprints are faithful.
    pub proof fn lemma_reached(&self, plan: PlanView<S>)
        requires
            self.wf(),
            self.popped() == self.entries().len(),
            forall|i: int| 0 <= i < self.popped() ==> !S::goal(#[trigger] self.entries()[i].state@),
            faithful_fingerprints::<S>(),
            is_plan::<S>(self.init(), plan),
        ensures
            self.observed().contains(S::fingerprint(plan.last().1)),
        decreases plan.len(),
    {
        let h = self.history@;
        if plan.len() == 1 {
            assert(S::fingerprint(h[0].state@) == S::fingerprint(plan.last().1));
        } else {
            let q = plan.drop_last();
            assert forall|i: int| 0 < i < q.len() implies valid_step::<S>(q[i - 1].1, #[trigger] q[i].0, q[i].1) by {
                assert(q[i - 1] == plan[i - 1] && q[i] == plan[i]);
            }
            self.lemma_reached(q);
            let c = q.last().1;
            let x = S::fingerprint(c);
            let e = choose|e: int| 0 <= e < h.len() && #[trigger] S::fingerprint(h[e].state@) == x;
            let ce = h[e].state@;
            assert(!S::goal(self.entries()[e].state@));
            assert(self.explored(e));
            let n = plan.len() - 1;
            assert(valid_step::<S>(plan[n - 1].1, plan[n].0, plan[n].1));
            assert(plan[n - 1].1 == c);
            let a = plan[n].0.unwrap();
            assert(S::fingerprint(c) == S::fingerprint(ce));
            assert(S::actions(c).contains(a) && S::Action::applicable(a, c));
            lemma_faithful_move::<S>(c, ce, a);
            let b = choose|b: MoveOf<S>|
                #[trigger] S::actions(ce).contains(b) && S::Action::applicable(b, ce)
                    && S::fingerprint(S::Action::result(b, ce)) == S::fingerprint(S::Action::result(a, c));
            assert(self.observed().contains(S::fingerprint(S::Action::result(b, ce))));
        }
    }

    /// When every node was taken from the frontier and none was a goal, no
    /// plan reaches a goal, provided fingerprints are faithful.
    pub proof fn lemma_complete(&self)
        requires
            self.wf(),
            self.popped() == self.entries().len(),
            forall|i: int| 0 <= i < self.popped() ==> !S::goal(#[trigger] self.entries()[i].state@),
            faithful_fingerprints::<S>(),
        ensures
            !goal_reachable::<S>(self.init()),
    {
        if goal_reachable::<S>(self.init()) {
            let plan = choose|plan: PlanView<S>| is_plan::<S>(self.init(), plan) && S::goal(#[trigger] plan.last().1);
            self.lemma_reached(plan);
            let h = self.history@;
            let x = S::fingerprint(plan.last().1);
            let e = choose|e: int| 0 <= e < h.len() && #[trigger] S::fingerprint(h[e].state@) == x;
            assert(!S::goal(self.entries()[e].state@));
            lemma_faithful_goal::<S>(plan.last().1, h[e].state@);
        }
    }

    /// While every node before `id` was expanded and none was a goal, the
    /// fingerprint of every configuration that a plan with fewer moves than
    /// the plan to `id` reaches belongs to a node no deeper than that plan,
    /// provided fingerprints are faithful.
    pub proof fn lemma_layer_reached(&self, id: int, q: PlanView<S>)
        requires
            self.wf(),
            0 <= id,
            id + 1 == self.popped(),
            forall|i: int| 0 <= i < id ==> !S::goal(#[trigger] self.entries()[i].state@),
            faithful_fingerprints::<S>(),
            is_plan::<S>(self.init(), q),
            q.len() - 1 < self.depth(id),
        ensures
            exists|e: int|
                0 <= e < self.entries().len() && #[trigger] S::fingerprint(self.entries()[e].state@) == S::fingerprint(
                    q.last().1,
                ) && self.depth(e) <= q.len() - 1,
        decreases q.len(),
    {
        let h = self.history@;
        if q.len() == 1 {
            self.history.lemma_path_len(0);
            assert(S::fingerprint(self.entries()[0].state@) == S::fingerprint(q.last().1));
        } else {
            let r = q.drop_last();
            assert forall|i: int| 0 < i < r.len() implies valid_step::<S>(r[i - 1].1, #[trigger] r[i].0, r[i].1) by {
                assert(r[i - 1] == q[i - 1] && r[i] == q[i]);
            }
            self.lemma_layer_reached(id, r);
            let c = r.last().1;
            let e = choose|e: int|
                0 <= e < self.entries().len() && #[trigger] S::fingerprint(self.entries()[e].state@) == S::fingerprint(c)
                    && self.depth(e) <= r.len() - 1;
            if e >= id {
                assert(self.depth(id) <= self.depth(e));
            }
            assert(e < id);
            assert(!S::goal(self.entries()[e].state@));
            let ce = self.entries()[e].state@;
            assert(self.explored_within(e));
            let n = q.len() - 1;
            assert(valid_step::<S>(q[n - 1].1, q[n].0, q[n].1));
            assert(q[n - 1].1 == c);
            let a = q[n].0.unwrap();
            lemma_faithful_move::<S>(c, ce, a);
            let b = choose|b: MoveOf<S>|
                #[trigger] S::actions(ce).contains(b) && S::Action::applicable(b, ce)
                    && S::fingerprint(S::Action::result(b, ce)) == S::fingerprint(S::Action::result(a, c));
            assert(S::actions(ce).contains(b));
            let e2 = choose|e2: int|
                0 <= e2 < self.entries().len() && #[trigger] S::fingerprint(self.entries()[e2].state@) == S::fingerprint(
                    S::Action::result(b, ce),
                ) && self.depth(e2) <= self.depth(e) + 1;
            assert(S::fingerprint(self.entries()[e2].state@) == S::fingerprint(q.last().1));
        }
    }

    /// When node `id` is a goal and every node before it was expanded and
    /// none was a goal, no plan reaches a goal in fewer moves than the plan
    /// to `id`, provided fingerprints are faithful.
    pub proof fn lemma_shortest(&self, id: int, q: PlanView<S>)
        requires
            self.wf(),
            0 <= id,
            id + 1 == self.popped(),
            forall|i: int| 0 <= i < id ==> !S::goal(#[trigger] self.entries()[i].state@),
            faithful_fingerprints::<S>(),
            is_plan::<S>(self.init(), q),
            S::goal(q.last().1),
        ensures
            self.path(id).len() <= q.len(),
    {
        self.lemma_path(id);
        if q.len() - 1 < self.depth(id) {
            self.lemma_layer_reached(id, q);
            let e = choose|e: int|
                0 <= e < self.entries().len() && #[trigger] S::fingerprint(self.entries()[e].state@) == S::fingerprint(
                    q.last().1,
                ) && self.depth(e) <= q.len() - 1;
            if e >= id {
                assert(self.depth(id) <= self.depth(e));
            }
            lemma_faithful_goal::<S>(q.last().1, self.entries()[e].state@);
            assert(!S::goal(self.entries()[e].state@));
        }
    }

    /// The plan to node `i`, as the model sees it, is the plan along the
    /// parent links of the run's view.
    pub proof fn lemma_node_path(&self, i: int)
        requires
            self.wf(),
            0 <= i < self.entries().len(),
        ensures
            plan_view::<S>(self.path(i)) == node_path::<S>(self.run_view().nodes, i),
        decreases i,
    {
        let h = self.history@;
        assert(linked(h, i));
        let nodes = self.run_view().nodes;
        assert(nodes[i] == (h[i].parent_id, move_view::<S>(h[i].action), h[i].state@));
        if i > 0 {
            let p = h[i].parent_id.unwrap() as int;
            self.lemma_node_path(p);
            assert(plan_view::<S>(self.path(i)) =~= plan_view::<S>(self.path(p)).push((move_view::<S>(h[i].action), h[i].state@)));
        } else {
            assert(plan_view::<S>(self.path(i)) =~= seq![(move_view::<S>(h[i].action), h[i].state@)]);
        }
    }

    /// Ends the run and returns the plan that leads to node `id`.
    pub fn plan(self, id: usize) -> (r: Vec<(Option<S::Action>, S)>)
        requires
            self.wf(),
            id < self.entries().len(),
        ensures
            r@ == self.path(id as int),
            is_plan::<S>(self.init(), plan_view::<S>(r@)),
            r@.last().1 == self.entries()[id as int].state,
            forall|j: int| 0 <= j < r@.len() - 1 ==> !S::goal((#[trigger] r@[j]).1@),
    {
        proof {
            self.lemma_path(id as int);
        }
        self.history.backtrack(id)
    }
}

/// Searches the state space breadth-first for a plan that reaches a goal.
///
/// The search terminates whenever finitely many fingerprints are reachable
/// from the initial state. A returned plan starts at the initial state,
/// makes legal moves only, and ends at its first goal; it is exactly the
/// plan that the breadth-first run determines. With faithful fingerprints,
/// no plan reaches a goal in fewer moves, and `None` means that no plan
/// reaches a goal at all.
pub fn search<S: State>(initial_state: S) -> (r: Option<Vec<(Option<S::Action>, S)>>)
    requires
        hashing_is_lawful::<S::Hash>(),
        reachable_fingerprints::<S>(initial_state@).finite(),
    ensures
        match r {
            Some(plan) => {
                &&& is_plan::<S>(initial_state@, plan_view::<S>(plan@))
                &&& S::goal(plan@.last().1@)
                &&& forall|j: int| 0 <= j < plan@.len() - 1 ==> !S::goal((#[trigger] plan@[j]).1@)
                &&& faithful_fingerprints::<S>() ==> forall|q: PlanView<S>|
                    #[trigger] is_plan::<S>(initial_state@, q) && S::goal(q.last().1) ==> plan@.len() <= q.len()
            },
            None => faithful_fingerprints::<S>() ==> !goal_reachable::<S>(initial_state@),
        },
        outcome_view::<S>(r) == bfs_plan::<S>(initial_state@),
{
    let ghost init = initial_state@;
    let mut run = Search::new(initial_state);
    loop
        invariant
            run.wf(),
            run.init() == init,
            init == initial_state@,
            reachable_fingerprints::<S>(init).finite(),
            run.popped() <= reachable_fingerprints::<S>(init).len(),
            forall|i: int| 0 <= i < run.popped() ==> !S::goal(#[trigger] run.entries()[i].state@),
            run.run_view() == run_after::<S>(init, run.popped()),
            forall|m: nat| m < run.popped() ==> !goal_taken::<S>(init, m),
        decreases reachable_fingerprints::<S>(init).len() - run.popped(),
    {
        let ghost before = run;
        match run.step() {
            Step::Goal(id) => {
                assert(run.entries()[0] == before.entries()[0]);
                proof {
                    let n = before.popped();
                    assert(before.run_view().nodes[n as int].2 == run.entries()[id as int].state@);
                    assert(goal_taken::<S>(init, n));
                    lemma_first_goal::<S>(init, n);
                    run.lemma_node_path(id as int);
                    assert(run.run_view().nodes == before.run_view().nodes);
                    if faithful_fingerprints::<S>() {
                        assert forall|q: PlanView<S>|
                            #[trigger] is_plan::<S>(initial_state@, q) && S::goal(q.last().1) implies run.path(id as int).len() <= q.len() by {
                            run.lemma_shortest(id as int, q);
                        }
                    }
                }
                return Some(run.plan(id));
            },
            Step::Expanded { .. } => {
                assert(run.entries()[0] == before.entries().take(before.entries().len() as int)[0]);
                assert forall|i: int| 0 <= i < run.popped() implies !S::goal(#[trigger] run.entries()[i].state@) by {
                    if i < before.popped() {
                        assert(run.entries()[i] == before.entries().take(before.entries().len() as int)[i]);
                    }
                }
                proof {
                    run.lemma_bounded();
                    let n = before.popped();
                    assert(run_after::<S>(init, n + 1) == run_step::<S>(run_after::<S>(init, n)));
                    assert(before.entries()[n as int] == run.entries()[n as int]);
                    assert(before.run_view().nodes[n as int].2 == before.entries()[n as int].state@);
                    assert(!goal_taken::<S>(init, n));
                }
            },
            Step::Exhausted => {
                proof {
                    if faithful_fingerprints::<S>() {
                        run.lemma_complete();
                    }
                    let k = run.popped();
                    assert forall|m: nat| !goal_taken::<S>(init, m) by {
                        if m >= k {
                            lemma_run_settled::<S>(init, k, m);
                        }
                    }
                }
                return None;
            },
        }
    }
}

/// Expanding the next node of a layered run leaves it layered.
proof fn lemma_layered_expand<S: State>(pre: Search<S>, post: Search<S>, id: int)
    requires
        pre.wf(),
        post.consistent(),
        id == pre.popped(),
        post.popped() == id + 1,
        id < pre.entries().len(),
        post.entries().take(pre.entries().len() as int) == pre.entries(),
        pre.entries().len() <= post.entries().len(),
        !S::goal(pre.entries()[id].state@),
        forall|j: int|
            pre.entries().len() <= j < post.entries().len() ==> (#[trigger] post.entries()[j]).parent_id == Some(id as usize),
        forall|a: MoveOf<S>|
            #[trigger] S::actions(pre.entries()[id].state@).contains(a) ==> post.observed().contains(
                S::fingerprint(S::Action::result(a, pre.entries()[id].state@)),
            ),
    ensures
        post.layered(),
{
    let n0 = pre.entries().len();
    let n = post.entries().len();
    let d = pre.depth(id);
    assert forall|i: int| 0 <= i < n0 implies post.depth(i) == pre.depth(i) by {
        pre.history.lemma_path_prefix(&post.history, i);
    }
    assert forall|j: int| n0 <= j < n implies post.depth(j) == d + 1 by {
        post.history.lemma_path_len(j);
        assert(post.entries()[j].parent_id == Some(id as usize));
    }
    assert forall|i: int, j: int| 0 <= i <= j < n implies #[trigger] post.depth(i) <= #[trigger] post.depth(j) by {
        if j >= n0 && i < n0 {
            assert(pre.depth(i) <= pre.depth(id) + 1);
        } else if j < n0 {
            assert(pre.depth(i) <= pre.depth(j));
        }
    }
    assert forall|j: int| 0 <= j < n implies #[trigger] post.depth(j) <= d + 1 by {
        if j < n0 {
            assert(pre.depth(j) <= pre.depth(id) + 1);
        }
    }
    if post.popped() < n {
        assert(post.depth(id) <= post.depth(id + 1));
    }
    assert forall|i: int| 0 <= i < post.popped() && !S::goal(post.entries()[i].state@) implies #[trigger] post.explored_within(i) by {
        assert(post.entries()[i] == pre.entries()[i]);
        let c = pre.entries()[i].state@;
        if i < id {
            assert(pre.explored_within(i));
            assert forall|a: MoveOf<S>| #[trigger] S::actions(c).contains(a) implies exists|e: int|
                0 <= e < post.entries().len() && #[trigger] S::fingerprint(post.entries()[e].state@) == S::fingerprint(
                    S::Action::result(a, c),
                ) && post.depth(e) <= post.depth(i) + 1 by {
                let e = choose|e: int|
                    0 <= e < pre.entries().len() && #[trigger] S::fingerprint(pre.entries()[e].state@) == S::fingerprint(
                        S::Action::result(a, c),
                    ) && pre.depth(e) <= pre.depth(i) + 1;
                assert(post.entries()[e] == pre.entries()[e]);
            }
        } else {
            assert forall|a: MoveOf<S>| #[trigger] S::actions(c).contains(a) implies exists|e: int|
                0 <= e < post.entries().len() && #[trigger] S::fingerprint(post.entries()[e].state@) == S::fingerprint(
                    S::Action::result(a, c),
                ) && post.depth(e) <= post.depth(i) + 1 by {
                let x = S::fingerprint(S::Action::result(a, c));
                assert(post.observed().contains(x));
                let e = choose|e: int| 0 <= e < post.history@.len() && #[trigger] S::fingerprint(post.history@[e].state@) == x;
                assert(post.depth(e) <= d + 1);
            }
        }
    }
}

/// Expanding `c` by `acts` keeps the known fingerprints and adds that of
/// every configuration that one of `acts` leads to.
proof fn lemma_seen_after<S: State>(c: ConfigOf<S>, acts: Seq<MoveOf<S>>, seen: Set<Fingerprint<S>>)
    ensures
        seen.subset_of(seen_after::<S>(c, acts, seen)),
        forall|a: MoveOf<S>|
            #[trigger] acts.contains(a) ==> seen_after::<S>(c, acts, seen).contains(S::fingerprint(S::Action::result(a, c))),
    decreases acts.len(),
{
    if acts.len() > 0 {
        let next = seen.insert(S::fingerprint(S::Action::result(acts[0], c)));
        lemma_seen_after::<S>(c, acts.drop_first(), next);
        assert forall|a: MoveOf<S>| #[trigger] acts.contains(a) implies seen_after::<S>(c, acts, seen).contains(
            S::fingerprint(S::Action::result(a, c))) by {
            let j = choose|j: int| 0 <= j < acts.len() && acts[j] == a;
            if j > 0 {
                assert(acts.drop_first()[j - 1] == a);
                assert(acts.drop_first().contains(a));
            } else {
                assert(next.contains(S::fingerprint(S::Action::result(a, c))));
            }
        }
    }
}

/// Once a run has taken all its nodes, it stays as it is.
proof fn lemma_run_settled<S: State>(init: ConfigOf<S>, k: nat, m: nat)
    requires
        run_after::<S>(init, k).popped >= run_after::<S>(init, k).nodes.len(),
        k <= m,
    ensures
        run_after::<S>(init, m) == run_after::<S>(init, k),
    decreases m - k,
{
    if k < m {
        lemma_run_settled::<S>(init, k, (m - 1) as nat);
    }
}

/// The first step that takes a goal is the one step `n` that takes a goal
/// after none did.
proof fn lemma_first_goal<S: State>(init: ConfigOf<S>, n: nat)
    requires
        goal_taken::<S>(init, n),
        forall|m: nat| m < n ==> !goal_taken::<S>(init, m),
    ensures
        first_goal::<S>(init) == Some(n),
{
    let k = choose|k: nat| #[trigger] goal_taken::<S>(init, k) && forall|m: nat| m < k ==> !goal_taken::<S>(init, m);
    if k < n {
        assert(!goal_taken::<S>(init, k));
    }
    if n < k {
        assert(!goal_taken::<S>(init, n));
    }
}

/// Adding the distinct, unknown fingerprints of `all` to `seen` grows it by
/// exactly their number.
proof fn lemma_fresh_count<S: State>(
    all: Seq<(S::Action, S)>,
    seen: Set<Fingerprint<S>>,
    fresh: Set<Fingerprint<S>>,
)
    requires
        seen.finite(),
        fresh == Seq::new(all.len(), |j: int| S::fingerprint(all[j].1@)).to_set(),
        forall|j: int| 0 <= j < all.len() ==> !seen.contains(#[trigger] S::fingerprint(all[j].1@)),
        forall|j: int, k: int|
            0 <= j < k < all.len() ==> #[trigger] S::fingerprint(all[j].1@) != #[trigger] S::fingerprint(all[k].1@),
    ensures
        (seen + fresh).finite(),
        (seen + fresh).len() == seen.len() + all.len(),
{
    let fps = Seq::new(all.len(), |j: int| S::fingerprint(all[j].1@));
    assert(fps.no_duplicates()) by {
        assert forall|j: int, k: int| 0 <= j < fps.len() && 0 <= k < fps.len() && j != k implies fps[j] != fps[k] by {
            if j < k {
                assert(S::fingerprint(all[j].1@) != S::fingerprint(all[k].1@));
            } else {
                assert(S::fingerprint(all[k].1@) != S::fingerprint(all[j].1@));
            }
        }
    }
    fps.unique_seq_to_set();
    assert(seen.disjoint(fresh)) by {
        assert forall|x| fresh.contains(x) implies !seen.contains(x) by {
            let j = choose|j: int| 0 <= j < fps.len() && fps[j] == x;
            assert(!seen.contains(S::fingerprint(all[j].1@)));
        }
    }
    vstd::set_lib::lemma_set_disjoint_lens(seen, fresh);
}

} // verus!
