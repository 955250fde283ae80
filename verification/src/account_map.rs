//! A map from account ids, in the order in which they came.

use vstd::prelude::*;

use crate::account_id::AccountId;

verus! {

/// A value for each of some accounts. No account occurs twice, and the
/// accounts keep the order in which they came.
#[derive(Debug)]
pub struct AccountMap<V> {
    rows: Vec<(AccountId, V)>,
}

/// The accounts of the rows.
pub open spec fn row_keys<V>(rows: Seq<(AccountId, V)>) -> Seq<Seq<char>> {
    Seq::new(rows.len(), |i: int| rows[i].0@)
}

/// The map that gives each account the value in its row.
pub open spec fn row_map<V: View>(rows: Seq<(AccountId, V)>) -> Map<Seq<char>, V::V> {
    Map::new(
        |k: Seq<char>| row_keys(rows).contains(k),
        |k: Seq<char>| rows[row_keys(rows).index_of(k)].1@,
    )
}

impl<V: View + Copy> View for AccountMap<V> {
    type V = Map<Seq<char>, V::V>;

    closed spec fn view(&self) -> Map<Seq<char>, V::V> {
        row_map(self.rows@)
    }
}

impl<V> AccountMap<V> {
    #[verifier::type_invariant]
    spec fn distinct(self) -> bool {
        row_keys(self.rows@).no_duplicates()
    }

    /// The accounts in the order in which they came.
    pub closed spec fn order(&self) -> Seq<Seq<char>> {
        row_keys(self.rows@)
    }
}

impl<V: View + Copy> AccountMap<V> {
    /// The map without accounts.
    pub fn new() -> (map: AccountMap<V>)
        ensures
            map@ == Map::<Seq<char>, V::V>::empty(),
            map.order() == Seq::<Seq<char>>::empty(),
    {
        let map: AccountMap<V> = AccountMap { rows: Vec::new() };
        assert(map.order() =~= Seq::empty());
        assert(map@ =~= Map::empty());
        map
    }

    /// The number of accounts.
    pub fn len(&self) -> (n: usize)
        ensures
            n == self.order().len(),
            self.order().no_duplicates(),
            forall|k: Seq<char>| #[trigger] self@.dom().contains(k) <==> self.order().contains(k),
    {
        proof {
            use_type_invariant(self);
        }
        self.rows.len()
    }

    /// Whether there are no accounts.
    pub fn is_empty(&self) -> (empty: bool)
        ensures
            empty == (self@ == Map::<Seq<char>, V::V>::empty()),
    {
        proof {
            if self.rows@.len() == 0 {
                assert(self@ =~= Map::<Seq<char>, V::V>::empty());
            } else {
                assert(row_keys(self.rows@).contains(row_keys(self.rows@)[0]));
                assert(self@.dom().contains(row_keys(self.rows@)[0]));
            }
        }
        self.rows.len() == 0
    }

    /// The account at a position.
    pub fn id_at(&self, i: usize) -> (id: &AccountId)
        requires
            i < self.order().len(),
        ensures
            id@ == self.order()[i as int],
            self@.dom().contains(id@),
    {
        proof {
            assert(row_keys(self.rows@).contains(row_keys(self.rows@)[i as int]));
        }
        &self.rows[i].0
    }

    /// The value at a position.
    pub fn value_at(&self, i: usize) -> (value: V)
        requires
            i < self.order().len(),
        ensures
            self@.dom().contains(self.order()[i as int]),
            value@ == self@[self.order()[i as int]],
    {
        proof {
            use_type_invariant(self);
            let keys = row_keys(self.rows@);
            assert(keys.contains(keys[i as int]));
            assert(keys.index_of(keys[i as int]) == i);
        }
        self.rows[i].1
    }

    fn find(&self, id: &AccountId) -> (at: usize)
        ensures
            at <= self.rows.len(),
            at < self.rows.len() ==> row_keys(self.rows@)[at as int] == id@,
            at == self.rows.len() ==> !row_keys(self.rows@).contains(id@),
    {
        let mut i: usize = 0;
        while i < self.rows.len()
            invariant
                i <= self.rows.len(),
                forall|j: int| 0 <= j < i ==> row_keys(self.rows@)[j] != id@,
            decreases self.rows.len() - i,
        {
            if self.rows[i].0.same(id) {
                return i;
            }
            i = i + 1;
        }
        i
    }

    /// The value of an account, if it has one.
    pub fn get(&self, id: &AccountId) -> (value: Option<V>)
        ensures
            match value {
                Some(v) => self@.dom().contains(id@) && self@[id@] == v@,
                None => !self@.dom().contains(id@),
            },
    {
        let at: usize = self.find(id);
        if at < self.rows.len() {
            proof {
                use_type_invariant(self);
                assert(row_keys(self.rows@).contains(id@));
                assert(row_keys(self.rows@).index_of(id@) == at);
            }
            Some(self.rows[at].1)
        } else {
            None
        }
    }

    /// Whether an account is there.
    pub fn contains(&self, id: &AccountId) -> (yes: bool)
        ensures
            yes == self@.dom().contains(id@),
    {
        self.get(id).is_some()
    }

    /// Gives an account a value, in place of the one that it may have.
    pub fn insert(&mut self, id: &AccountId, value: V)
        ensures
            final(self)@ == old(self)@.insert(id@, value@),
            final(self).order() == (if old(self)@.dom().contains(id@) {
                old(self).order()
            } else {
                old(self).order().push(id@)
            }),
    {
        proof {
            use_type_invariant(&*self);
        }
        let at: usize = self.find(id);
        let mut rows: Vec<(AccountId, V)> = Vec::new();
        assert(row_keys(rows@).no_duplicates());
        std::mem::swap(&mut rows, &mut self.rows);
        let ghost before = rows@;
        let ghost keys = row_keys(before);
        if at < rows.len() {
            rows.set(at, (id.clone(), value));
            proof {
                assert(row_keys(rows@) =~= keys);
                assert(keys.contains(id@));
            }
        } else {
            rows.push((id.clone(), value));
            proof {
                assert(row_keys(rows@) =~= keys.push(id@));
                assert(!keys.contains(id@));
                let after = row_keys(rows@);
                assert forall|i: int, j: int| 0 <= i < after.len() && 0 <= j < after.len() && i != j
                    implies #[trigger] after[i] != #[trigger] after[j] by {
                    if i == keys.len() {
                        assert(after[j] == keys[j]);
                    } else if j == keys.len() {
                        assert(after[i] == keys[i]);
                    } else {
                        assert(after[i] == keys[i] && after[j] == keys[j]);
                    }
                }
            }
        }
        proof {
            let after = row_keys(rows@);
            assert forall|k: Seq<char>| #[trigger] after.contains(k) <==> (keys.contains(k) || k == id@) by {
                if keys.contains(k) {
                    let i = keys.index_of(k);
                    assert(after[i] == k);
                } else if k == id@ {
                    assert(after[at as int] == k);
                } else if after.contains(k) {
                    let i = after.index_of(k);
                    if i < keys.len() {
                        assert(keys[i] == k);
                    }
                }
            }
            assert forall|k: Seq<char>| keys.contains(k) && k != id@ implies rows@[#[trigger] after.index_of(k)].1@
                == before[keys.index_of(k)].1@ by {
                let i = keys.index_of(k);
                assert(after[i] == k);
                assert(after.contains(k));
                assert(after.index_of(k) == i);
            }
            assert(after[at as int] == id@);
            assert(after.contains(id@));
            assert(after.index_of(id@) == at);
            assert(row_map(rows@) =~= row_map(before).insert(id@, value@));
        }
        self.rows = rows;
    }

    /// A map with the same values.
    pub fn copied(&self) -> (copy: AccountMap<V>)
        ensures
            copy@ == self@,
    {
        let mut copy: AccountMap<V> = AccountMap::new();
        let n: usize = self.len();
        for i in 0..n
            invariant
                n == self.order().len(),
                forall|k: Seq<char>| #[trigger] self@.dom().contains(k) <==> self.order().contains(k),
                forall|k: Seq<char>| #[trigger]
                    copy@.dom().contains(k) <==> self.order().take(i as int).contains(k),
                forall|k: Seq<char>| #[trigger] copy@.dom().contains(k) ==> copy@[k] == self@[k],
        {
            let value: V = self.value_at(i);
            copy.insert(self.id_at(i), value);
            proof {
                let front = self.order().take(i as int);
                let more = self.order().take(i + 1);
                assert forall|k: Seq<char>| #[trigger] copy@.dom().contains(k) <==> more.contains(k) by {
                    if front.contains(k) {
                        let j = front.index_of(k);
                        assert(more[j] == k);
                    }
                    if more.contains(k) {
                        let j = more.index_of(k);
                        if j < i {
                            assert(front[j] == k);
                        }
                    }
                    assert(more[i as int] == self.order()[i as int]);
                }
            }
        }
        assert(self.order().take(n as int) =~= self.order());
        assert(copy@ =~= self@);
        copy
    }
}

} // verus!
