//! The lineage store: an append-only record of every discovered node, each
//! entry linked to its parent, from which a plan is read back.
use vstd::prelude::*;

verus! {

/// Describes the lineage of a world state.
pub struct Lineage<S, A> {
    /// The ID of the current state.
    pub id: usize,
    /// The ID of the parent state, or `None` for the root.
    pub parent_id: Option<usize>,
    /// The action that was taken to get to the state.
    /// [`None`] is only meaningful for the root state.
    pub action: Option<A>,
    /// The world state.
    pub state: S,
}

/// Tracks the history of world states.
pub struct History<S, A>(Vec<Lineage<S, A>>);

impl<S, A> Lineage<S, A> {
    /// Creates a new lineage for the given state.
    pub fn new(id: usize, parent_id: Option<usize>, action: Option<A>, state: S) -> (r: Self)
        ensures
            r.id == id,
            r.parent_id == parent_id,
            r.action == action,
            r.state == state,
    {
        Lineage { id, parent_id, action, state }
    }

    /// Returns the parent ID of this entry, or [`None`] if there is no parent.
    pub fn parent_id(&self) -> (r: Option<usize>)
        ensures
            r == self.parent_id,
    {
        self.parent_id
    }
}

impl<S, A> View for History<S, A> {
    type V = Seq<Lineage<S, A>>;

    /// The entries, in the order in which they were appended.
    closed spec fn view(&self) -> Seq<Lineage<S, A>> {
        self.0@
    }
}

/// Entry `i` of `entries` carries ID `i`; the root (and only the root) has
/// neither parent nor action; any other entry has an action and a parent
/// that was appended before it.
pub open spec fn linked<S, A>(entries: Seq<Lineage<S, A>>, i: int) -> bool {
    let e = entries[i];
    &&& e.id == i
    &&& i == 0 ==> e.parent_id is None && e.action is None
    &&& i != 0 ==> e.action is Some && e.parent_id is Some && e.parent_id.unwrap() < i
}

impl<S, A> History<S, A> {
    /// Every entry is linked to an earlier one, back to the root.
    pub open spec fn wf(&self) -> bool {
        forall|i: int| 0 <= i < self@.len() ==> #[trigger] linked(self@, i)
    }

    /// The plan that leads to entry `id`: the `(action, state)` pairs from the
    /// root down to that entry.
    pub open spec fn path(&self, id: int) -> Seq<(Option<A>, S)>
        decreases id,
    {
        if 0 <= id < self@.len() {
            let e = self@[id];
            match e.parent_id {
                Some(p) => if 0 <= p < id {
                    self.path(p as int).push((e.action, e.state))
                } else {
                    seq![(e.action, e.state)]
                },
                None => seq![(e.action, e.state)],
            }
        } else {
            Seq::empty()
        }
    }

    pub fn new() -> (r: Self)
        ensures
            r@ == Seq::<Lineage<S, A>>::empty(),
            r.wf(),
    {
        History(Vec::new())
    }

    /// The number of entries.
    pub fn len(&self) -> (r: usize)
        ensures
            r == self@.len(),
    {
        self.0.len()
    }

    /// The entry with ID `id`.
    pub fn get(&self, id: usize) -> (r: &Lineage<S, A>)
        requires
            id < self@.len(),
        ensures
            *r == self@[id as int],
    {
        &self.0[id]
    }

    /// Appends the root entry, with ID 0, and returns its ID.
    pub fn create_root(&mut self, state: S) -> (id: usize)
        requires
            old(self)@.len() == 0,
        ensures
            id == 0,
            final(self)@.len() == 1,
            final(self)@[0].id == 0,
            final(self)@[0].parent_id is None,
            final(self)@[0].action is None,
            final(self)@[0].state == state,
            final(self).wf(),
    {
        let entry = Lineage::new(0, None, None, state);
        self.0.push(entry);
        assert(linked(self@, 0));
        0
    }

    /// Appends an entry reached from entry `parent` by `action`, and returns
    /// its ID, which is the number of entries before the call.
    pub fn create_entry(&mut self, action: A, state: S, parent: usize) -> (id: usize)
        requires
            old(self).wf(),
            parent < old(self)@.len(),
        ensures
            id == old(self)@.len(),
            final(self)@.len() == old(self)@.len() + 1,
            final(self)@.drop_last() == old(self)@,
            final(self)@[id as int].id == id,
            final(self)@[id as int].parent_id == Some(parent),
            final(self)@[id as int].action == Some(action),
            final(self)@[id as int].state == state,
            final(self).wf(),
    {
        let id = self.0.len();
        let entry = Lineage::new(id, Some(parent), Some(action), state);
        self.0.push(entry);
        assert(self@.drop_last() =~= old(self)@);
        assert forall|i: int| 0 <= i < self@.len() implies #[trigger] linked(self@, i) by {
            if i < id {
                assert(linked(old(self)@, i));
            }
        }
        id
    }

    /// The plan to an entry other than the root is one step longer than
    /// the plan to its parent; the plan to the root has one pair.
    pub proof fn lemma_path_len(&self, i: int)
        requires
            self.wf(),
            0 <= i < self@.len(),
        ensures
            i == 0 ==> self.path(i).len() == 1,
            i > 0 ==> self.path(i).len() == self.path(self@[i].parent_id.unwrap() as int).len() + 1,
    {
        assert(linked(self@, i));
    }

    /// Appending entries does not change the plans to the earlier ones.
    pub proof fn lemma_path_prefix(&self, longer: &History<S, A>, i: int)
        requires
            self.wf(),
            longer@.take(self@.len() as int) == self@,
            self@.len() <= longer@.len(),
            0 <= i < self@.len(),
        ensures
            longer.path(i) == self.path(i),
        decreases i,
    {
        assert(linked(self@, i));
        assert(longer@[i] == self@[i]);
        if i > 0 {
            let p = self@[i].parent_id.unwrap() as int;
            self.lemma_path_prefix(longer, p);
        }
    }

    /// Consumes the history and returns the plan that leads to entry `id`,
    /// from the root to that entry.
    pub fn backtrack(self, id: usize) -> (r: Vec<(Option<A>, S)>)
        requires
            self.wf(),
            id < self@.len(),
        ensures
            r@ == self.path(id as int),
    {
        let ghost whole = self;
        let History(mut entries) = self;
        while entries.len() > id + 1
            invariant
                id < entries@.len() <= whole@.len(),
                entries@ == whole@.subrange(0, entries@.len() as int),
            decreases entries.len(),
        {
            entries.pop();
        }
        let mut plan: Vec<(Option<A>, S)> = Vec::new();
        let mut target: usize = id;
        let mut done = false;
        while !done
            invariant
                entries@.len() <= whole@.len(),
                entries@ == whole@.subrange(0, entries@.len() as int),
                whole.wf(),
                !done ==> target < entries@.len(),
                !done ==> whole.path(target as int) + plan@ == whole.path(id as int),
                done ==> plan@ == whole.path(id as int),
            decreases entries.len(),
        {
            let e = entries.pop().unwrap();
            if entries.len() == target {
                let ghost before = plan@;
                assert(linked(whole@, target as int));
                let Lineage { id: _, parent_id, action, state } = e;
                plan.insert(0, (action, state));
                match parent_id {
                    Some(p) => {
                        assert(whole.path(p as int) + plan@ =~= whole.path(target as int) + before);
                        target = p;
                    },
                    None => {
                        assert(plan@ =~= whole.path(target as int) + before);
                        done = true;
                    },
                }
            }
        }
        plan
    }
}

} // verus!
