//! The clients a server streams to, each under the id it was given when it
//! was added.
use vstd::prelude::*;

verus! {

/// The position of `k` in `ids` (meaningful when `ids` holds it).
pub open spec fn id_position(ids: Seq<u64>, k: u64) -> int {
    choose|i: int| 0 <= i < ids.len() && ids[i] == k
}

/// Clients under numeric ids, handed out from a counter that starts at zero
/// and counts up by one (wrapping) for every client added.
pub struct Registry<T> {
    ids: Vec<u64>,
    clients: Vec<T>,
    next_id: u64,
}

impl<T> Registry<T> {
    /// The ids, one per client.
    pub closed spec fn id_seq(&self) -> Seq<u64> {
        self.ids@
    }

    /// The clients, in the order of `id_seq`.
    pub closed spec fn client_seq(&self) -> Seq<T> {
        self.clients@
    }

    /// The id the next client added will get.
    pub closed spec fn next(&self) -> u64 {
        self.next_id
    }

    /// Each id is held by exactly one client.
    pub open spec fn wf(&self) -> bool {
        &&& self.id_seq().len() == self.client_seq().len()
        &&& self.id_seq().no_duplicates()
    }

    /// The clients by id.
    pub open spec fn view(&self) -> Map<u64, T> {
        Map::new(
            |k: u64| self.id_seq().contains(k),
            |k: u64| self.client_seq()[id_position(self.id_seq(), k)],
        )
    }

    /// Every id in use is below the counter, so the counter's next value is
    /// free.
    pub open spec fn ids_below_next(&self) -> bool {
        forall|k: u64| #[trigger] self.view().contains_key(k) ==> k < self.next()
    }

    proof fn lemma_position(&self, i: int)
        requires
            self.wf(),
            0 <= i < self.id_seq().len(),
        ensures
            id_position(self.id_seq(), self.id_seq()[i]) == i,
    {
        let k = self.id_seq()[i];
        let j = id_position(self.id_seq(), k);
        assert(0 <= j < self.id_seq().len() && self.id_seq()[j] == k);
    }

    /// An empty registry whose first client gets id 0.
    pub fn new() -> (r: Self)
        ensures
            r.wf(),
            r.view() == Map::<u64, T>::empty(),
            r.next() == 0,
            r.ids_below_next(),
    {
        let r = Registry { ids: Vec::new(), clients: Vec::new(), next_id: 0 };
        assert(r.view() =~= Map::<u64, T>::empty());
        r
    }

    fn find(&self, id: u64) -> (r: Option<usize>)
        requires
            self.wf(),
        ensures
            r matches Some(i) ==> i < self.id_seq().len() && self.id_seq()[i as int] == id,
            r is None ==> !self.id_seq().contains(id),
    {
        let n = self.ids.len();
        for i in 0..n
            invariant
                n == self.ids@.len(),
                forall|j: int| 0 <= j < i ==> self.ids@[j] != id,
        {
            if self.ids[i] == id {
                return Some(i);
            }
        }
        None
    }

    /// The number of clients.
    pub fn len(&self) -> (n: usize)
        requires
            self.wf(),
        ensures
            n as nat == self.view().dom().len(),
    {
        proof {
            self.id_seq().unique_seq_to_set();
            assert(self.view().dom() =~= self.id_seq().to_set());
        }
        self.ids.len()
    }

    /// Whether a client has `id`.
    pub fn contains(&self, id: u64) -> (b: bool)
        requires
            self.wf(),
        ensures
            b == self.view().contains_key(id),
    {
        self.find(id).is_some()
    }

    /// The ids of the clients, each once.
    pub fn ids(&self) -> (r: &Vec<u64>)
        requires
            self.wf(),
        ensures
            r@.to_set() == self.view().dom(),
            r@.no_duplicates(),
    {
        assert(self.ids@.to_set() =~= self.view().dom());
        &self.ids
    }

    /// Adds a client under the counter's id and advances the counter; the
    /// id is returned. A client that already held that id (possible only
    /// once the counter has wrapped) is replaced.
    pub fn add(&mut self, client: T) -> (id: u64)
        requires
            old(self).wf(),
        ensures
            final(self).wf(),
            id == old(self).next(),
            final(self).next() == (if old(self).next() == u64::MAX { 0 } else { (old(self).next() + 1) as u64 }),
            final(self).view() == old(self).view().insert(id, client),
            (final(self).view(), final(self).next()) == after_add(old(self).view(), old(self).next(), client),
            old(self).ids_below_next() && old(self).next() < u64::MAX ==> final(self).ids_below_next(),
            old(self).ids_below_next() ==> !old(self).view().contains_key(id),
    {
        let id = self.next_id;
        self.next_id = self.next_id.wrapping_add(1);
        match self.find(id) {
            Some(i) => {
                self.clients.set(i, client);
                proof {
                    assert forall|x: u64| #[trigger] self.view().contains_key(x) implies self.view()[x]
                        == old(self).view().insert(id, client)[x] by {
                        let j = id_position(self.id_seq(), x);
                        self.lemma_position(j);
                        if x == id {
                            self.lemma_position(i as int);
                        }
                    }
                    assert(self.view() =~= old(self).view().insert(id, client));
                }
            },
            None => {
                self.ids.push(id);
                self.clients.push(client);
                proof {
                    let ks = self.id_seq();
                    let oks = old(self).id_seq();
                    assert(ks =~= oks.push(id));
                    assert(ks.no_duplicates()) by {
                        assert forall|a: int, b: int| 0 <= a < ks.len() && 0 <= b < ks.len() && a != b implies ks[a] != ks[b] by {
                            if a == ks.len() - 1 && ks[b] == id {
                                assert(oks[b] == id);
                            } else if b == ks.len() - 1 && ks[a] == id {
                                assert(oks[a] == id);
                            }
                        }
                    }
                    assert forall|x: u64| #[trigger] self.view().contains_key(x) implies self.view()[x]
                        == old(self).view().insert(id, client)[x] by {
                        let j = id_position(ks, x);
                        self.lemma_position(j);
                        if x != id {
                            assert(ks[j] == x);
                            assert(oks[j] == x);
                            let jo = id_position(oks, x);
                            old(self).lemma_position(jo);
                            assert(ks[jo] == x);
                            self.lemma_position(jo);
                        }
                    }
                    assert forall|x: u64| old(self).view().insert(id, client).contains_key(x) implies #[trigger] self.view().contains_key(x) by {
                        if x == id {
                            assert(ks[ks.len() - 1] == id);
                        } else {
                            let jo = id_position(oks, x);
                            assert(ks[jo] == x);
                        }
                    }
                    assert(self.view() =~= old(self).view().insert(id, client));
                }
            },
        }
        id
    }

    /// Removes the client with `id` and hands it back; nothing changes when
    /// no client has that id.
    pub fn remove(&mut self, id: u64) -> (r: Option<T>)
        requires
            old(self).wf(),
        ensures
            final(self).wf(),
            final(self).next() == old(self).next(),
            final(self).view() == old(self).view().remove(id),
            (final(self).view(), final(self).next()) == after_remove(old(self).view(), old(self).next(), id),
            r matches Some(c) ==> old(self).view().contains_key(id) && c == old(self).view()[id],
            r is None ==> !old(self).view().contains_key(id),
            old(self).ids_below_next() ==> final(self).ids_below_next(),
    {
        match self.find(id) {
            Some(i) => {
                proof {
                    self.lemma_position(i as int);
                }
                let ghost oks = self.id_seq();
                let ghost ocs = self.client_seq();
                self.ids.remove(i);
                let c = self.clients.remove(i);
                proof {
                    let ks = self.id_seq();
                    assert(ks =~= oks.remove(i as int));
                    assert(ks.no_duplicates()) by {
                        assert forall|a: int, b: int| 0 <= a < ks.len() && 0 <= b < ks.len() && a != b implies ks[a] != ks[b] by {
                            let oa = if a < i { a } else { a + 1 };
                            let ob = if b < i { b } else { b + 1 };
                            assert(ks[a] == oks[oa]);
                            assert(ks[b] == oks[ob]);
                        }
                    }
                    assert forall|x: u64| #[trigger] self.view().contains_key(x) implies !(x == id) && old(self).view().contains_key(x) && self.view()[x] == old(self).view()[x] by {
                        let j = id_position(ks, x);
                        self.lemma_position(j);
                        let oj = if j < i { j } else { j + 1 };
                        assert(oks[oj] == x);
                        old(self).lemma_position(oj);
                        assert(oj != i);
                    }
                    assert forall|x: u64| old(self).view().remove(id).contains_key(x) implies #[trigger] self.view().contains_key(x) by {
                        let oj = id_position(oks, x);
                        assert(oj != i);
                        let j = if oj < i { oj } else { oj - 1 };
                        assert(ks[j] == x);
                    }
                    assert(self.view() =~= old(self).view().remove(id));
                }
                Some(c)
            },
            None => {
                assert(self.view() =~= old(self).view().remove(id));
                None
            },
        }
    }

    /// The client with `id`, for sending it a command.
    pub fn get_mut(&mut self, id: u64) -> (r: Option<&mut T>)
        requires
            old(self).wf(),
        ensures
            r is None ==> !old(self).view().contains_key(id) && *final(self) == *old(self),
            r matches Some(c) ==> old(self).view().contains_key(id) && *c == old(self).view()[id],
            final(self).wf(),
            final(self).next() == old(self).next(),
            final(self).id_seq() == old(self).id_seq(),
            r matches Some(c) ==> final(self).view() == old(self).view().insert(id, *final(c)),
    {
        match self.find(id) {
            Some(i) => {
                proof {
                    self.lemma_position(i as int);
                }
                Some(&mut self.clients[i])
            },
            None => None,
        }
    }
}

/// One call on a registry: adding a client, or removing an id.
pub enum RegistryCall<T> {
    Add(T),
    Remove(u64),
}

/// The counter after one more id is handed out (wrapping at the top).
pub open spec fn next_counter(next: u64) -> u64 {
    if next == u64::MAX { 0 } else { (next + 1) as u64 }
}

/// The clients and the counter after `Registry::add` of `client`.
pub open spec fn after_add<T>(clients: Map<u64, T>, next: u64, client: T) -> (Map<u64, T>, u64) {
    (clients.insert(next, client), next_counter(next))
}

/// The clients and the counter after `Registry::remove` of `id`.
pub open spec fn after_remove<T>(clients: Map<u64, T>, next: u64, id: u64) -> (Map<u64, T>, u64) {
    (clients.remove(id), next)
}

/// The clients, the counter, and the ids handed out in order, after `calls`
/// on a new registry.
pub open spec fn run_calls<T>(calls: Seq<RegistryCall<T>>) -> (Map<u64, T>, u64, Seq<u64>)
    decreases calls.len(),
{
    if calls.len() == 0 {
        (Map::<u64, T>::empty(), 0, Seq::<u64>::empty())
    } else {
        let (m, n, ids) = run_calls(calls.drop_last());
        match calls.last() {
            RegistryCall::Add(c) => {
                let (m2, n2) = after_add(m, n, c);
                (m2, n2, ids.push(n))
            },
            RegistryCall::Remove(id) => {
                let (m2, n2) = after_remove(m, n, id);
                (m2, n2, ids)
            },
        }
    }
}

/// How many of `calls` are additions.
pub open spec fn add_count<T>(calls: Seq<RegistryCall<T>>) -> nat
    decreases calls.len(),
{
    if calls.len() == 0 {
        0
    } else {
        add_count(calls.drop_last()) + (if calls.last() is Add { 1nat } else { 0nat })
    }
}

/// Over any sequence of adds and removes on a new registry with at most
/// `u64::MAX` adds: the ids handed out are 0, 1, 2, ... in call order, so
/// they are pairwise distinct and none is handed out again after its client
/// is removed; the counter equals the number of adds; every id in use is
/// below it, so the next add is fresh.
pub proof fn law_ids_in_call_order<T>(calls: Seq<RegistryCall<T>>)
    requires
        add_count(calls) <= u64::MAX,
    ensures
        ({
            let (m, n, ids) = run_calls(calls);
            &&& n == add_count(calls)
            &&& ids.len() == add_count(calls)
            &&& forall|i: int| 0 <= i < ids.len() ==> ids[i] == i
            &&& forall|i: int, j: int| 0 <= i < ids.len() && 0 <= j < ids.len() && i != j ==> ids[i] != ids[j]
            &&& forall|k: u64| #[trigger] m.contains_key(k) ==> k < n
        }),
    decreases calls.len(),
{
    if calls.len() > 0 {
        let rest = calls.drop_last();
        law_ids_in_call_order(rest);
        let (m, n, ids) = run_calls(rest);
        let (m2, n2, ids2) = run_calls(calls);
        match calls.last() {
            RegistryCall::Add(c) => {
                assert(n < u64::MAX);
                assert forall|i: int| 0 <= i < ids2.len() implies ids2[i] == i by {
                    if i < ids.len() {
                        assert(ids2[i] == ids[i]);
                    }
                }
            },
            RegistryCall::Remove(id) => {},
        }
    }
}

/// Removing the id that `add` just handed out undoes the addition: the
/// client comes back and the registry holds what it held before, provided
/// every id in use was below the counter.
pub proof fn law_remove_undoes_add<T>(before: Map<u64, T>, next: u64, client: T)
    requires
        forall|k: u64| #[trigger] before.contains_key(k) ==> k < next,
    ensures
        before.insert(next, client).contains_key(next),
        before.insert(next, client)[next] == client,
        before.insert(next, client).remove(next) == before,
{
    assert(!before.contains_key(next));
    assert(before.insert(next, client).remove(next) =~= before);
}

/// Removing an id that no client has leaves the registry as it was.
pub proof fn law_remove_absent<T>(before: Map<u64, T>, id: u64)
    requires
        !before.contains_key(id),
    ensures
        before.remove(id) == before,
{
    assert(before.remove(id) =~= before);
}

/// While the counter has not wrapped, ids handed out by successive `add`s
/// are distinct from each other and from every id in use.
pub proof fn law_fresh_ids<T>(before: Map<u64, T>, next: u64, a: T, b: T)
    requires
        forall|k: u64| #[trigger] before.contains_key(k) ==> k < next,
        next < u64::MAX,
    ensures
        !before.contains_key(next),
        !before.insert(next, a).contains_key((next + 1) as u64),
        forall|k: u64| #[trigger] before.insert(next, a).insert((next + 1) as u64, b).contains_key(k) ==> k < next + 2,
{
}

} // verus!
