use vstd::prelude::*;
use barter_integration::model::SubscriptionId;
use crate::error::DataError;

verus! {

/// Declares the wire-level routing key of barter-integration; its one field is a
/// public `String`, so two keys are compared through their text.
#[verifier::external_type_specification]
pub struct ExSubscriptionId(SubscriptionId);

/// The text of a routing key.
pub open spec fn id_view(id: &SubscriptionId) -> Seq<char> {
    id.0@
}

/// Compares two routing keys by their text.
pub fn same_id(a: &SubscriptionId, b: &SubscriptionId) -> (r: bool)
    ensures
        r == (id_view(a) == id_view(b)),
{
    a.0 == b.0
}

/// Copies a routing key.
pub fn copy_id(id: &SubscriptionId) -> (r: SubscriptionId)
    ensures
        id_view(&r) == id_view(id),
{
    SubscriptionId(id.0.clone())
}

/// Lookup from routing key to a value, with unique keys, in the order the entries were
/// added.
pub struct SubscriptionMap<V> {
    pub(crate) entries: Vec<(SubscriptionId, V)>,
}

/// The keys of a sequence of entries.
pub open spec fn keys_of<V>(s: Seq<(SubscriptionId, V)>) -> Seq<Seq<char>> {
    s.map_values(|e: (SubscriptionId, V)| id_view(&e.0))
}

impl<V> View for SubscriptionMap<V> {
    type V = Map<Seq<char>, V>;

    /// The map as a mathematical map from key text to value.
    closed spec fn view(&self) -> Map<Seq<char>, V> {
        Map::new(
            |k: Seq<char>| keys_of(self.entries@).contains(k),
            |k: Seq<char>| self.entries@[keys_of(self.entries@).index_of(k)].1,
        )
    }
}

impl<V> SubscriptionMap<V> {
    /// The keys, in the order their entries were added.
    pub closed spec fn keys(&self) -> Seq<Seq<char>> {
        keys_of(self.entries@)
    }

    /// No key appears twice.
    pub open spec fn wf(&self) -> bool {
        self.keys().no_duplicates()
    }

    /// The key set is the set of keys in order, and each value lies under its key.
    pub proof fn lemma_view(&self)
        requires
            self.wf(),
        ensures
            self@.dom() == self.keys().to_set(),
            self@.dom().finite(),
            self@.dom().len() == self.keys().len(),
    {
        assert(self@.dom() =~= self.keys().to_set());
        self.keys().unique_seq_to_set();
    }

    /// An empty map.
    pub fn new() -> (r: Self)
        ensures
            r.wf(),
            r.keys() == Seq::<Seq<char>>::empty(),
            r@ == Map::<Seq<char>, V>::empty(),
    {
        let r = SubscriptionMap { entries: Vec::new() };
        assert(r@ =~= Map::<Seq<char>, V>::empty());
        r
    }

    /// Number of entries.
    pub fn len(&self) -> (r: usize)
        ensures
            r == self.keys().len(),
    {
        self.entries.len()
    }

    /// Position of the entry under `id`, if any.
    pub fn position(&self, id: &SubscriptionId) -> (r: Option<usize>)
        requires
            self.wf(),
        ensures
            match r {
                Some(i) => i < self.keys().len() && self.keys()[i as int] == id_view(id),
                None => !self@.contains_key(id_view(id)),
            },
    {
        let mut i: usize = 0;
        while i < self.entries.len()
            invariant
                i <= self.entries@.len(),
                forall|j: int| 0 <= j < i ==> self.keys()[j] != id_view(id),
            decreases self.entries@.len() - i,
        {
            if same_id(&self.entries[i].0, id) {
                return Some(i);
            }
            i = i + 1;
        }
        None
    }

    /// The value under the `i`-th key.
    pub fn value_at(&self, i: usize) -> (r: &V)
        requires
            self.wf(),
            i < self.keys().len(),
        ensures
            *r == self@[self.keys()[i as int]],
    {
        proof {
            assert(self.keys().contains(self.keys()[i as int]));
        }
        &self.entries[i].1
    }

    /// The value under `id`, if any.
    pub fn find(&self, id: &SubscriptionId) -> (r: Option<&V>)
        requires
            self.wf(),
        ensures
            match r {
                Some(v) => self@.contains_key(id_view(id)) && *v == self@[id_view(id)],
                None => !self@.contains_key(id_view(id)),
            },
    {
        match self.position(id) {
            Some(i) => Some(self.value_at(i)),
            None => None,
        }
    }

    /// Mutable access to the value under the `i`-th key; every other entry and the keys
    /// stay as they are.
    pub fn value_at_mut(&mut self, i: usize) -> (r: &mut V)
        requires
            old(self).wf(),
            i < old(self).keys().len(),
        ensures
            *r == old(self)@[old(self).keys()[i as int]],
            final(self).wf(),
            final(self).keys() == old(self).keys(),
            final(self)@ == old(self)@.insert(old(self).keys()[i as int], *final(r)),
    {
        proof {
            assert(self.keys().contains(self.keys()[i as int]));
            let ks = self.keys();
            assert forall|v: V| #[trigger] keys_of(self.entries@.update(i as int, (self.entries@[i as int].0, v))) == ks
                by {
                assert(keys_of(self.entries@.update(i as int, (self.entries@[i as int].0, v))) =~= ks);
            }
        }
        let entry = &mut self.entries[i];
        &mut entry.1
    }

    /// Puts `v` under `id`: it replaces the value of an entry with that key, which keeps
    /// its place, or else is added at the end.
    pub fn insert(&mut self, id: SubscriptionId, v: V)
        requires
            old(self).wf(),
        ensures
            final(self).wf(),
            final(self)@ == old(self)@.insert(id_view(&id), v),
            old(self)@.contains_key(id_view(&id)) ==> final(self).keys() == old(self).keys(),
            !old(self)@.contains_key(id_view(&id)) ==> final(self).keys() == old(self).keys().push(id_view(&id)),
    {
        let ghost k = id_view(&id);
        match self.position(&id) {
            Some(i) => {
                let ghost pre = *self;
                self.entries.set(i, (id, v));
                proof {
                    assert(self.keys() =~= pre.keys());
                    assert(self@ =~= pre@.insert(k, v));
                }
            },
            None => {
                let ghost pre = *self;
                self.entries.push((id, v));
                proof {
                    assert(self.keys() =~= pre.keys().push(k));
                    assert(self.keys().no_duplicates());
                    assert forall|x: Seq<char>| #[trigger] pre.keys().contains(x) implies
                        self.keys().index_of(x) == pre.keys().index_of(x) by {
                        let j = pre.keys().index_of(x);
                        assert(self.keys()[j] == x);
                        assert(self.keys().contains(x));
                    }
                    let n = pre.keys().len() as int;
                    assert(self.keys()[n] == k);
                    assert(self.keys().contains(k));
                    assert(self.keys().index_of(k) == n);
                    assert forall|x: Seq<char>| #[trigger] self.keys().contains(x) == (pre.keys().contains(x) || x == k) by {
                        if self.keys().contains(x) && x != k {
                            let c = self.keys().index_of(x);
                            assert(pre.keys()[c] == x);
                        }
                        if pre.keys().contains(x) {
                            let c = pre.keys().index_of(x);
                            assert(self.keys()[c] == x);
                        }
                    }
                    assert(self@.dom() =~= pre@.dom().insert(k));
                    assert(self@ =~= pre@.insert(k, v));
                }
            },
        }
    }

    /// Where a message with routing key `id` goes: `Ok(None)` when it names none,
    /// `Ok(Some(i))` when the `i`-th entry has that key, and an unidentifiable-message
    /// error when no entry has it.
    pub fn route(&self, id: Option<SubscriptionId>) -> (r: Result<Option<usize>, DataError>)
        requires
            self.wf(),
        ensures
            match id {
                None => r == Ok::<Option<usize>, DataError>(None),
                Some(s) => if self@.contains_key(id_view(&s)) {
                    r is Ok && r->Ok_0 is Some && r->Ok_0->0 < self.keys().len()
                        && self.keys()[r->Ok_0->0 as int] == id_view(&s)
                } else {
                    r == Err::<Option<usize>, DataError>(DataError::Unidentifiable(s))
                },
            },
    {
        match id {
            None => Ok(None),
            Some(s) => match self.position(&s) {
                Some(i) => Ok(Some(i)),
                None => Err(DataError::Unidentifiable(s)),
            },
        }
    }

    /// The routing key of the `i`-th entry.
    pub fn key_at(&self, i: usize) -> (r: &SubscriptionId)
        requires
            i < self.keys().len(),
        ensures
            id_view(r) == self.keys()[i as int],
    {
        &self.entries[i].0
    }

    /// Moves the entry under `from` to the key `to`, keeping its value and its place.
    /// It does so, and returns `true`, when `from` is present and `to` is either `from`
    /// itself or absent; otherwise nothing changes and it returns `false`.
    pub fn rekey(&mut self, from: &SubscriptionId, to: SubscriptionId) -> (r: bool)
        requires
            old(self).wf(),
        ensures
            final(self).wf(),
            r == (old(self)@.contains_key(id_view(from)) && (id_view(&to) == id_view(from)
                || !old(self)@.contains_key(id_view(&to)))),
            r ==> final(self)@ == old(self)@.remove(id_view(from)).insert(
                id_view(&to),
                old(self)@[id_view(from)],
            ),
            !r ==> final(self)@ == old(self)@,
    {
        let ghost f = id_view(from);
        let ghost t = id_view(&to);
        let ghost pre = *self;
        match self.position(from) {
            None => false,
            Some(i) => {
                let free = match self.position(&to) {
                    None => true,
                    Some(_) => same_id(from, &to),
                };
                if !free {
                    return false;
                }
                proof {
                    pre.lemma_view();
                    assert(pre.keys().index_of(f) == i as int);
                }
                let e = self.entries.remove(i);
                self.entries.insert(i, (to, e.1));
                proof {
                    let nk = pre.keys().update(i as int, t);
                    assert(self.keys() =~= nk);
                    assert(self.keys().no_duplicates());
                    assert forall|x: Seq<char>| #[trigger] self.keys().contains(x) == ((pre.keys().contains(x) && x != f) || x == t) by {
                        if self.keys().contains(x) && x != t {
                            let c = self.keys().index_of(x);
                            assert(pre.keys()[c] == x);
                        }
                        if pre.keys().contains(x) && x != f {
                            let c = pre.keys().index_of(x);
                            assert(c != i);
                            assert(self.keys()[c] == x);
                        }
                        if x == t {
                            assert(self.keys()[i as int] == t);
                        }
                    }
                    assert forall|x: Seq<char>| #[trigger] self.keys().contains(x) && x != t implies
                        self.keys().index_of(x) == pre.keys().index_of(x) by {
                        let c = pre.keys().index_of(x);
                        assert(self.keys()[c] == x);
                    }
                    assert(self.keys()[i as int] == t);
                    assert(self.keys().contains(t));
                    assert(self.keys().index_of(t) == i as int);
                    assert(self@ =~= pre@.remove(f).insert(t, pre@[f]));
                }
                true
            },
        }
    }
}

} // verus!
