//! The global progress listeners of a client, in the order they were registered.
use vstd::prelude::*;
use crate::ids::GlobalProgressListenerId;

verus! {

/// The position of the first occurrence of `x` in `s`.
pub open spec fn first_position<A>(s: Seq<A>, x: A) -> Option<int>
    decreases s.len(),
{
    if s.len() == 0 {
        None
    } else if s[0] == x {
        Some(0)
    } else {
        match first_position(s.drop_first(), x) {
            Some(i) => Some(i + 1),
            None => None,
        }
    }
}

proof fn lemma_first_position<A>(s: Seq<A>, x: A)
    ensures
        match first_position(s, x) {
            Some(i) => 0 <= i < s.len() && s[i] == x && forall|j: int| 0 <= j < i ==> s[j] != x,
            None => !s.contains(x),
        },
    decreases s.len(),
{
    if s.len() > 0 && s[0] != x {
        lemma_first_position(s.drop_first(), x);
        match first_position(s.drop_first(), x) {
            Some(i) => {
                assert forall|j: int| 0 <= j < i + 1 implies s[j] != x by {
                    if j > 0 { assert(s[j] == s.drop_first()[j - 1]); }
                }
            },
            None => {
                if s.contains(x) {
                    let j = choose|j: int| 0 <= j < s.len() && s[j] == x;
                    assert(s.drop_first()[j - 1] == x);
                }
            },
        }
    }
}

/// Registered listeners with their ids.
pub struct ListenerRegistry<F> {
    entries: Vec<(GlobalProgressListenerId, F)>,
}

impl<F> ListenerRegistry<F> {
    /// The registered ids, oldest first.
    pub closed spec fn ids(&self) -> Seq<GlobalProgressListenerId> {
        self.entries@.map_values(|e: (GlobalProgressListenerId, F)| e.0)
    }

    /// The registered listeners, oldest first.
    pub closed spec fn listeners(&self) -> Seq<F> {
        self.entries@.map_values(|e: (GlobalProgressListenerId, F)| e.1)
    }

    pub fn new() -> (r: Self)
        ensures
            r.ids().len() == 0,
            r.listeners().len() == 0,
    {
        ListenerRegistry { entries: Vec::new() }
    }

    /// Adds a listener under `id`, after the others.
    pub fn register(&mut self, id: GlobalProgressListenerId, listener: F)
        ensures
            final(self).ids() == old(self).ids().push(id),
            final(self).listeners() == old(self).listeners().push(listener),
    {
        self.entries.push((id, listener));
        assert(self.ids() =~= old(self).ids().push(id));
        assert(self.listeners() =~= old(self).listeners().push(listener));
    }

    /// Removes the first listener registered under `id`; `false` when there is none.
    pub fn unregister(&mut self, id: GlobalProgressListenerId) -> (found: bool)
        ensures
            match first_position(old(self).ids(), id) {
                Some(i) => found && final(self).ids() == old(self).ids().remove(i)
                    && final(self).listeners() == old(self).listeners().remove(i),
                None => !found && final(self).ids() == old(self).ids()
                    && final(self).listeners() == old(self).listeners(),
            },
            found == old(self).ids().contains(id),
    {
        proof { lemma_first_position(self.ids(), id); }
        let mut i: usize = 0;
        while i < self.entries.len()
            invariant
                i <= self.entries@.len(),
                self.entries@ == old(self).entries@,
                forall|j: int| 0 <= j < i ==> self.ids()[j] != id,
            decreases self.entries@.len() - i,
        {
            if self.entries[i].0 == id {
                proof {
                    assert(self.ids()[i as int] == id);
                    assert(first_position(self.ids(), id) == Some(i as int)) by {
                        lemma_first_position(self.ids(), id);
                        match first_position(self.ids(), id) {
                            Some(k) => {
                                if k < i { assert(self.ids()[k] != id); }
                                if k > i { assert(self.ids()[i as int] != id); }
                            },
                            None => { assert(self.ids().contains(id)); },
                        }
                    }
                }
                let _ = self.entries.remove(i);
                assert(self.ids() =~= old(self).ids().remove(i as int));
                assert(self.listeners() =~= old(self).listeners().remove(i as int));
                return true;
            }
            assert(self.ids()[i as int] == self.entries@[i as int].0);
            i = i + 1;
        }
        proof {
            lemma_first_position(self.ids(), id);
            if self.ids().contains(id) {
                let k = choose|k: int| 0 <= k < self.ids().len() && self.ids()[k] == id;
                assert(self.ids()[k] != id);
            }
        }
        false
    }

    /// Removes every listener.
    pub fn clear(&mut self)
        ensures
            final(self).ids().len() == 0,
            final(self).listeners().len() == 0,
    {
        self.entries.clear();
    }

    /// How many listeners are registered.
    pub fn len(&self) -> (n: usize)
        ensures
            n == self.ids().len(),
    {
        self.entries.len()
    }

    /// The listener at position `i`, oldest first.
    pub fn listener(&self, i: usize) -> (l: &F)
        requires
            i < self.ids().len(),
        ensures
            *l == self.listeners()[i as int],
    {
        &self.entries[i].1
    }
}

/// Unregistering the listener just registered under an id that was not in use gives back
/// the registry as it was: the id is found at the end, and removing it there leaves the
/// earlier ids and listeners unchanged.
pub proof fn law_unregister_undoes_register<F>(r: &ListenerRegistry<F>, id: GlobalProgressListenerId, listener: F)
    requires
        !r.ids().contains(id),
    ensures
        first_position(r.ids().push(id), id) == Some(r.ids().len() as int),
        r.ids().push(id).remove(r.ids().len() as int) == r.ids(),
        r.listeners().push(listener).remove(r.ids().len() as int) == r.listeners(),
{
    let ids = r.ids();
    let n = ids.len() as int;
    lemma_first_position(ids.push(id), id);
    assert(ids.push(id)[n] == id);
    match first_position(ids.push(id), id) {
        Some(p) => {
            if p < n {
                assert(ids[p] == ids.push(id)[p]);
            }
        },
        None => {
            assert(ids.push(id).contains(id));
        },
    }
    assert(ids.push(id).remove(n) =~= ids);
    assert(r.listeners().len() == n);
    assert(r.listeners().push(listener).remove(n) =~= r.listeners());
}

} // verus!
