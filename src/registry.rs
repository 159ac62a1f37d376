//! The directory of live connections: it issues connection ids and decides who receives
//! each delivery.
use vstd::prelude::*;

verus! {

/// Whom a delivery goes to.
#[derive(Debug, Clone, Copy, PartialEq, Eq, Structural)]
pub enum Delivery {
    /// Every registered connection, the sender included.
    Broadcast,
    /// Every registered connection but the sender.
    ExcludeSelf,
    /// The one connection named, if it is registered.
    Unicast(u64),
}

/// Live connections, each with the mailbox through which it is reached.
///
/// Ids come from a counter that starts at zero and only grows, so no id is issued twice.
pub struct Registry<M> {
    next_id: u64,
    sessions: Vec<(u64, M)>,
    model: Ghost<Map<u64, M>>,
}

/// Whether a delivery from `sender` in `mode` reaches `id`, among the connections `live`.
pub open spec fn reaches(live: Set<u64>, sender: u64, mode: Delivery, id: u64) -> bool {
    live.contains(id) && match mode {
        Delivery::Broadcast => true,
        Delivery::ExcludeSelf => id != sender,
        Delivery::Unicast(target) => id == target,
    }
}

/// In a sequence without repeats every element occurs once.
proof fn lemma_count_without_duplicates(s: Seq<u64>)
    requires
        s.no_duplicates(),
    ensures
        forall|x: u64| #[trigger] s.to_multiset().count(x) == if s.contains(x) { 1nat } else { 0nat },
{
    s.lemma_multiset_has_no_duplicates();
    assert forall|x: u64| #[trigger] s.to_multiset().count(x) == if s.contains(x) {
        1nat
    } else {
        0nat
    } by {
        vstd::seq_lib::to_multiset_contains(s, x);
    }
}

impl<M> Registry<M> {
    /// The mailbox of every live connection, by id.
    pub closed spec fn sessions(&self) -> Map<u64, M> {
        self.model@
    }

    /// The id that the next registration receives.
    pub closed spec fn next_id(&self) -> nat {
        self.next_id as nat
    }

    /// The ids of the live connections.
    pub open spec fn live(&self) -> Set<u64> {
        self.sessions().dom()
    }

    pub closed spec fn wf(&self) -> bool {
        &&& forall|i: int, j: int|
            0 <= i < j < self.sessions@.len() ==> #[trigger] self.sessions@[i].0
                < #[trigger] self.sessions@[j].0
        &&& forall|i: int|
            0 <= i < self.sessions@.len() ==> (#[trigger] self.sessions@[i]).0 < self.next_id
        &&& forall|i: int|
            0 <= i < self.sessions@.len() ==> {
                &&& self.model@.contains_key((#[trigger] self.sessions@[i]).0)
                &&& self.model@[self.sessions@[i].0] == self.sessions@[i].1
            }
        &&& forall|id: u64|
            #[trigger] self.model@.contains_key(id) ==> exists|i: int|
                0 <= i < self.sessions@.len() && (#[trigger] self.sessions@[i]).0 == id
    }

    /// What a registration does: the new connection gets the counter's value, the
    /// counter moves on, and every other entry stays.
    pub open spec fn registered(pre: Self, post: Self, id: u64, mailbox: M) -> bool {
        &&& id == pre.next_id()
        &&& !pre.live().contains(id)
        &&& post.next_id() == pre.next_id() + 1
        &&& post.sessions() == pre.sessions().insert(id, mailbox)
    }

    /// An empty registry whose first id is zero.
    pub fn new() -> (r: Self)
        ensures
            r.wf(),
            r.next_id() == 0,
            r.sessions() == Map::<u64, M>::empty(),
    {
        Registry { next_id: 0, sessions: Vec::new(), model: Ghost(Map::empty()) }
    }

    /// Registers a connection reached through `mailbox` and returns its id; `None` once
    /// every id has been issued.
    pub fn register(&mut self, mailbox: M) -> (r: Option<u64>)
        requires
            old(self).wf(),
        ensures
            final(self).wf(),
            r.is_some() <==> old(self).next_id() < u64::MAX,
            r matches Some(id) ==> Self::registered(*old(self), *final(self), id, mailbox),
            r is None ==> *final(self) == *old(self),
    {
        if self.next_id == u64::MAX {
            return None;
        }
        let id = self.next_id;
        let ghost before = self.sessions@;
        proof {
            if self.model@.contains_key(id) {
                let i = choose|i: int| 0 <= i < self.sessions@.len() && self.sessions@[i].0 == id;
                assert(self.sessions@[i].0 < self.next_id);
            }
        }
        self.sessions.push((id, mailbox));
        self.next_id = id + 1;
        self.model = Ghost(self.model@.insert(id, mailbox));
        proof {
            let n = self.sessions@.len() - 1;
            assert(self.sessions@ == before.push((id, mailbox)));
            assert(self.sessions@[n].0 == id);
            assert forall|k: u64| #[trigger] self.model@.contains_key(k) implies exists|i: int|
                0 <= i < self.sessions@.len() && (#[trigger] self.sessions@[i]).0 == k by {
                if k != id {
                    let i = choose|i: int| 0 <= i < before.len() && before[i].0 == k;
                    assert(self.sessions@[i] == before[i]);
                } else {
                    assert(self.sessions@[n].0 == k);
                }
            }
        }
        Some(id)
    }

    /// Removes connection `id`; an id that is not live is left alone. Returns whether it
    /// was live.
    pub fn unregister(&mut self, id: u64) -> (r: bool)
        requires
            old(self).wf(),
        ensures
            final(self).wf(),
            r == old(self).live().contains(id),
            final(self).next_id() == old(self).next_id(),
            final(self).sessions() == old(self).sessions().remove(id),
    {
        let mut i: usize = 0;
        while i < self.sessions.len()
            invariant
                self.wf(),
                *self == *old(self),
                0 <= i <= self.sessions@.len(),
                forall|j: int| 0 <= j < i ==> (#[trigger] self.sessions@[j]).0 != id,
            decreases self.sessions@.len() - i,
        {
            if self.sessions[i].0 == id {
                let ghost before = self.sessions@;
                let _removed = self.sessions.remove(i);
                self.model = Ghost(self.model@.remove(id));
                proof {
                    assert forall|j: int| 0 <= j < self.sessions@.len() implies {
                        &&& self.model@.contains_key((#[trigger] self.sessions@[j]).0)
                        &&& self.model@[self.sessions@[j].0] == self.sessions@[j].1
                    } by {
                        if j < i {
                            assert(self.sessions@[j] == before[j]);
                        } else {
                            assert(self.sessions@[j] == before[j + 1]);
                            assert(before[i as int].0 < before[j + 1].0);
                        }
                    }
                    assert forall|k: u64| #[trigger] self.model@.contains_key(k) implies exists|
                        j: int,
                    |
                        0 <= j < self.sessions@.len() && (#[trigger] self.sessions@[j]).0 == k by {
                        let j = choose|j: int| 0 <= j < before.len() && before[j].0 == k;
                        if j < i {
                            assert(self.sessions@[j] == before[j]);
                        } else {
                            assert(j != i);
                            assert(self.sessions@[j - 1] == before[j]);
                        }
                    }
                    assert forall|a: int, b: int|
                        0 <= a < b < self.sessions@.len() implies #[trigger] self.sessions@[a].0
                        < #[trigger] self.sessions@[b].0 by {
                        let a2 = if a < i { a } else { a + 1 };
                        let b2 = if b < i { b } else { b + 1 };
                        assert(self.sessions@[a] == before[a2]);
                        assert(self.sessions@[b] == before[b2]);
                    }
                    assert forall|a: int| 0 <= a < self.sessions@.len() implies (
                    #[trigger] self.sessions@[a]).0 < self.next_id by {
                        let a2 = if a < i { a } else { a + 1 };
                        assert(self.sessions@[a] == before[a2]);
                    }
                }
                return true;
            }
            i = i + 1;
        }
        proof {
            if self.model@.contains_key(id) {
                let j = choose|j: int| 0 <= j < self.sessions@.len() && self.sessions@[j].0 == id;
                assert(self.sessions@[j].0 != id);
            }
            assert(self.model@.remove(id) =~= self.model@);
        }
        false
    }

    /// Whether connection `id` is live.
    pub fn is_registered(&self, id: u64) -> (r: bool)
        requires
            self.wf(),
        ensures
            r == self.live().contains(id),
    {
        let mut i: usize = 0;
        while i < self.sessions.len()
            invariant
                self.wf(),
                0 <= i <= self.sessions@.len(),
                forall|j: int| 0 <= j < i ==> (#[trigger] self.sessions@[j]).0 != id,
            decreases self.sessions@.len() - i,
        {
            if self.sessions[i].0 == id {
                return true;
            }
            i = i + 1;
        }
        proof {
            if self.model@.contains_key(id) {
                let j = choose|j: int| 0 <= j < self.sessions@.len() && self.sessions@[j].0 == id;
                assert(self.sessions@[j].0 != id);
            }
        }
        false
    }

    /// The mailbox of connection `id`, if it is live.
    pub fn mailbox(&self, id: u64) -> (r: Option<&M>)
        requires
            self.wf(),
        ensures
            r is Some <==> self.live().contains(id),
            r matches Some(m) ==> *m == self.sessions()[id],
    {
        let mut i: usize = 0;
        while i < self.sessions.len()
            invariant
                self.wf(),
                0 <= i <= self.sessions@.len(),
                forall|j: int| 0 <= j < i ==> (#[trigger] self.sessions@[j]).0 != id,
            decreases self.sessions@.len() - i,
        {
            if self.sessions[i].0 == id {
                return Some(&self.sessions[i].1);
            }
            i = i + 1;
        }
        proof {
            if self.model@.contains_key(id) {
                let j = choose|j: int| 0 <= j < self.sessions@.len() && self.sessions@[j].0 == id;
                assert(self.sessions@[j].0 != id);
            }
        }
        None
    }

    /// The connections that a delivery from `sender` in `mode` reaches, each once.
    pub fn route(&self, sender: u64, mode: Delivery) -> (r: Vec<u64>)
        requires
            self.wf(),
        ensures
            r@.no_duplicates(),
            forall|id: u64| r@.contains(id) <==> reaches(self.live(), sender, mode, id),
            forall|id: u64|
                #[trigger] r@.to_multiset().count(id) == if reaches(self.live(), sender, mode, id) {
                    1nat
                } else {
                    0nat
                },
            mode matches Delivery::Unicast(target) ==> r@ == if self.live().contains(target) {
                seq![target]
            } else {
                Seq::<u64>::empty()
            },
    {
        let mut out: Vec<u64> = Vec::new();
        let mut i: usize = 0;
        while i < self.sessions.len()
            invariant
                self.wf(),
                0 <= i <= self.sessions@.len(),
                out@.no_duplicates(),
                forall|k: int| 0 <= k < out@.len() ==> exists|j: int|
                    0 <= j < i && (#[trigger] self.sessions@[j]).0 == #[trigger] out@[k],
                forall|id: u64| out@.contains(id) ==> reaches(self.live(), sender, mode, id),
                forall|j: int|
                    0 <= j < i && reaches(self.live(), sender, mode, (#[trigger] self.sessions@[j]).0)
                        ==> out@.contains(self.sessions@[j].0),
            decreases self.sessions@.len() - i,
        {
            let id = self.sessions[i].0;
            let take = match mode {
                Delivery::Broadcast => true,
                Delivery::ExcludeSelf => id != sender,
                Delivery::Unicast(target) => id == target,
            };
            let ghost prev = out@;
            if take {
                proof {
                    assert forall|k: int| 0 <= k < out@.len() implies out@[k] != id by {
                        let j = choose|j: int| 0 <= j < i && self.sessions@[j].0 == out@[k];
                        assert(self.sessions@[j].0 < self.sessions@[i as int].0);
                    }
                }
                out.push(id);
                proof {
                    assert(out@ == prev.push(id));
                    assert(out@[out@.len() - 1] == id);
                    assert forall|k: int| 0 <= k < out@.len() implies exists|j: int|
                        0 <= j < i + 1 && (#[trigger] self.sessions@[j]).0
                            == #[trigger] out@[k] by {
                        if k == out@.len() - 1 {
                            assert(self.sessions@[i as int].0 == out@[k]);
                        } else {
                            let j = choose|j: int| 0 <= j < i && self.sessions@[j].0 == prev[k];
                            assert(self.sessions@[j].0 == out@[k]);
                        }
                    }
                    assert forall|x: u64| out@.contains(x) implies reaches(
                        self.live(),
                        sender,
                        mode,
                        x,
                    ) by {
                        let k = choose|k: int| 0 <= k < out@.len() && out@[k] == x;
                        if k < out@.len() - 1 {
                            assert(prev[k] == x);
                            assert(prev.contains(x));
                        }
                    }
                    assert forall|j: int|
                        0 <= j < i + 1 && reaches(
                            self.live(),
                            sender,
                            mode,
                            (#[trigger] self.sessions@[j]).0,
                        ) implies out@.contains(self.sessions@[j].0) by {
                        if j < i {
                            assert(prev.contains(self.sessions@[j].0));
                            let k = choose|k: int|
                                0 <= k < prev.len() && prev[k] == self.sessions@[j].0;
                            assert(out@[k] == self.sessions@[j].0);
                        } else {
                            assert(out@[out@.len() - 1] == self.sessions@[j].0);
                        }
                    }
                }
            }
            i = i + 1;
        }
        proof {
            assert forall|id: u64| reaches(self.live(), sender, mode, id) implies out@.contains(
                id,
            ) by {
                let j = choose|j: int| 0 <= j < self.sessions@.len() && self.sessions@[j].0 == id;
                assert(reaches(self.live(), sender, mode, self.sessions@[j].0));
            }
            lemma_count_without_duplicates(out@);
            if let Delivery::Unicast(target) = mode {
                if out@.len() > 0 {
                    assert(out@.contains(out@[0]));
                }
                if out@.len() > 1 {
                    assert(out@.contains(out@[1]));
                }
                if self.live().contains(target) {
                    assert(out@.contains(target));
                    assert(out@ =~= seq![target]);
                } else {
                    assert(out@ =~= Seq::<u64>::empty());
                }
            }
        }
        out
    }

    /// The ids of every live connection, each once.
    pub fn ids(&self) -> (r: Vec<u64>)
        requires
            self.wf(),
        ensures
            r@.no_duplicates(),
            r@.to_set() == self.live(),
    {
        let r = self.route(0, Delivery::Broadcast);
        proof {
            assert(r@.to_set() =~= self.live());
        }
        r
    }
}

/// Registrations from a fresh registry hand out 0, 1, 2, ... in order: the n-th
/// registration gets id n, so N registrations yield exactly the ids 0 to N-1, each once.
pub proof fn lemma_ids_sequential<M>(states: Seq<Registry<M>>, ids: Seq<u64>, mailboxes: Seq<M>)
    requires
        states.len() == ids.len() + 1,
        mailboxes.len() == ids.len(),
        states[0].next_id() == 0,
        forall|i: int|
            0 <= i < ids.len() ==> Registry::registered(
                #[trigger] states[i],
                states[i + 1],
                ids[i],
                mailboxes[i],
            ),
    ensures
        ids == Seq::new(ids.len(), |i: int| i as u64),
        ids.no_duplicates(),
{
    assert forall|i: int| 0 <= i <= ids.len() implies #[trigger] states[i].next_id() == i by {
        lemma_next_id_counts(states, ids, mailboxes, i);
    }
    assert forall|i: int| 0 <= i < ids.len() implies #[trigger] ids[i] == i by {
        assert(states[i].next_id() == i);
    }
    assert(ids =~= Seq::new(ids.len(), |i: int| i as u64));
}

proof fn lemma_next_id_counts<M>(
    states: Seq<Registry<M>>,
    ids: Seq<u64>,
    mailboxes: Seq<M>,
    n: int,
)
    requires
        states.len() == ids.len() + 1,
        mailboxes.len() == ids.len(),
        states[0].next_id() == 0,
        forall|i: int|
            0 <= i < ids.len() ==> Registry::registered(
                #[trigger] states[i],
                states[i + 1],
                ids[i],
                mailboxes[i],
            ),
        0 <= n <= ids.len(),
    ensures
        states[n].next_id() == n,
    decreases n,
{
    if n > 0 {
        lemma_next_id_counts(states, ids, mailboxes, n - 1);
        assert(Registry::registered(states[n - 1], states[n], ids[n - 1], mailboxes[n - 1]));
    }
}

/// Once a connection is removed no delivery reaches it: a later unicast to it, or any
/// broadcast, leaves it out.
pub proof fn lemma_unregistered_unreachable<M>(pre: Registry<M>, post: Registry<M>, id: u64)
    requires
        post.sessions() == pre.sessions().remove(id),
    ensures
        !post.live().contains(id),
        forall|sender: u64, mode: Delivery| !#[trigger] reaches(post.live(), sender, mode, id),
{
}

} // verus!
