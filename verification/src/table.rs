//! Values that are found by a text.

use vstd::prelude::*;

use crate::text::same;

verus! {

/// The map that `pairs` gives, where the later of two pairs with one key counts.
pub open spec fn map_of<A>(pairs: Seq<(Seq<char>, A)>) -> Map<Seq<char>, A>
    decreases pairs.len(),
{
    if pairs.len() == 0 {
        Map::empty()
    } else {
        map_of(pairs.drop_last()).insert(pairs.last().0, pairs.last().1)
    }
}

/// Whether no key occurs twice.
pub open spec fn distinct<A>(pairs: Seq<(Seq<char>, A)>) -> bool {
    forall|i: int, j: int|
        0 <= i < j < pairs.len() ==> (#[trigger] pairs[i]).0 != (#[trigger] pairs[j]).0
}

pub proof fn lemma_absent<A>(pairs: Seq<(Seq<char>, A)>, key: Seq<char>)
    requires
        forall|i: int| 0 <= i < pairs.len() ==> (#[trigger] pairs[i]).0 != key,
    ensures
        !map_of(pairs).contains_key(key),
    decreases pairs.len(),
{
    if pairs.len() > 0 {
        lemma_absent(pairs.drop_last(), key);
    }
}

pub proof fn lemma_last_counts<A>(pairs: Seq<(Seq<char>, A)>, at: int)
    requires
        0 <= at < pairs.len(),
        forall|i: int| at < i < pairs.len() ==> (#[trigger] pairs[i]).0 != pairs[at].0,
    ensures
        map_of(pairs).contains_key(pairs[at].0),
        map_of(pairs)[pairs[at].0] == pairs[at].1,
    decreases pairs.len(),
{
    if at < pairs.len() - 1 {
        lemma_last_counts(pairs.drop_last(), at);
    }
}

pub proof fn lemma_present<A>(pairs: Seq<(Seq<char>, A)>, at: int)
    requires
        0 <= at < pairs.len(),
    ensures
        map_of(pairs).contains_key(pairs[at].0),
    decreases pairs.len(),
{
    if at < pairs.len() - 1 {
        lemma_present(pairs.drop_last(), at);
    }
}

/// A pair in front counts where its key does not occur behind it.
pub proof fn lemma_in_front<A>(pair: (Seq<char>, A), rest: Seq<(Seq<char>, A)>)
    ensures
        map_of(seq![pair] + rest) == if map_of(rest).contains_key(pair.0) {
            map_of(rest)
        } else {
            map_of(rest).insert(pair.0, pair.1)
        },
    decreases rest.len(),
{
    let all = seq![pair] + rest;
    if rest.len() == 0 {
        assert(all.drop_last() =~= rest);
        assert(all.last() == pair);
        assert(map_of(rest) == Map::<Seq<char>, A>::empty());
        assert(map_of(all) == map_of(rest).insert(pair.0, pair.1));
    } else {
        lemma_in_front(pair, rest.drop_last());
        assert(all.drop_last() =~= seq![pair] + rest.drop_last());
        assert(all.last() == rest.last());
        let key = rest.last().0;
        let value = rest.last().1;
        let before = map_of(rest.drop_last());
        if key == pair.0 {
            assert(before.insert(pair.0, pair.1).insert(key, value) =~= before.insert(key, value));
        } else {
            assert(before.insert(pair.0, pair.1).insert(key, value) =~= before.insert(
                key,
                value,
            ).insert(pair.0, pair.1));
        }
        assert(map_of(rest) == before.insert(key, value));
        assert(map_of(all) == map_of(all.drop_last()).insert(key, value));
    }
}

pub proof fn lemma_key_has_pair<A>(pairs: Seq<(Seq<char>, A)>, key: Seq<char>) -> (at: int)
    requires
        map_of(pairs).contains_key(key),
    ensures
        0 <= at < pairs.len(),
        pairs[at].0 == key,
        map_of(pairs)[key] == pairs[at].1,
    decreases pairs.len(),
{
    if pairs.last().0 == key {
        pairs.len() - 1
    } else {
        lemma_key_has_pair(pairs.drop_last(), key)
    }
}

pub proof fn lemma_without_pair<A>(pairs: Seq<(Seq<char>, A)>, at: int)
    requires
        0 <= at < pairs.len(),
    ensures
        map_of(pairs.remove(at)).remove(pairs[at].0) == map_of(pairs).remove(pairs[at].0),
    decreases pairs.len(),
{
    let name = pairs[at].0;
    if at == pairs.len() - 1 {
        assert(pairs.remove(at) =~= pairs.drop_last());
        assert(map_of(pairs.remove(at)).remove(name) =~= map_of(pairs).remove(name));
    } else {
        let rest = pairs.drop_last();
        lemma_without_pair(rest, at);
        assert(pairs.remove(at).drop_last() =~= rest.remove(at));
        assert(pairs.remove(at).last() == pairs.last());
        assert(rest[at] == pairs[at]);
        let a = map_of(rest.remove(at));
        let b = map_of(rest);
        let key = pairs.last().0;
        let value = pairs.last().1;
        assert(a.insert(key, value).remove(name) =~= if key == name {
            a.remove(name)
        } else {
            a.remove(name).insert(key, value)
        });
        assert(b.insert(key, value).remove(name) =~= if key == name {
            b.remove(name)
        } else {
            b.remove(name).insert(key, value)
        });
    }
}

proof fn lemma_size<A>(pairs: Seq<(Seq<char>, A)>)
    requires
        distinct(pairs),
    ensures
        map_of(pairs).dom().finite(),
        map_of(pairs).dom().len() == pairs.len(),
    decreases pairs.len(),
{
    if pairs.len() > 0 {
        let rest = pairs.drop_last();
        lemma_size(rest);
        assert forall|i: int| 0 <= i < rest.len() implies (#[trigger] rest[i]).0
            != pairs.last().0 by {
            assert(rest[i] == pairs[i]);
            assert(pairs[pairs.len() - 1] == pairs.last());
        }
        lemma_absent(rest, pairs.last().0);
        assert(map_of(pairs).dom() =~= map_of(rest).dom().insert(pairs.last().0));
    } else {
        assert(map_of(pairs).dom() =~= Set::empty());
    }
}

/// A table whose rows are found by a text.
#[derive(Debug)]
pub struct Table<V> {
    rows: Vec<(String, V)>,
}

impl<V: DeepView> Table<V> {
    closed spec fn pairs(&self) -> Seq<(Seq<char>, V::V)> {
        Seq::new(self.rows@.len(), |i: int| (self.rows@[i].0@, self.rows@[i].1.deep_view()))
    }

    /// No key occurs twice.
    pub closed spec fn wf(&self) -> bool {
        distinct(self.pairs())
    }
}

impl<V: DeepView> View for Table<V> {
    type V = Map<Seq<char>, V::V>;

    closed spec fn view(&self) -> Map<Seq<char>, V::V> {
        map_of(self.pairs())
    }
}

impl<V: DeepView> Table<V> {
    pub fn new() -> (r: Table<V>)
        ensures
            r.wf(),
            r@ == Map::<Seq<char>, V::V>::empty(),
    {
        let r: Table<V> = Table { rows: Vec::new() };
        assert(r.pairs() =~= Seq::empty());
        r
    }

    fn position(&self, key: &str) -> (r: Option<usize>)
        requires
            self.wf(),
        ensures
            match r {
                Some(at) => at < self.rows@.len() && self.rows@[at as int].0@ == key@
                    && self@.contains_key(key@) && self@[key@] == self.rows@[at as int].1.deep_view(),
                None => !self@.contains_key(key@) && forall|i: int|
                    0 <= i < self.rows@.len() ==> (#[trigger] self.rows@[i]).0@ != key@,
            },
    {
        let mut i: usize = 0;
        while i < self.rows.len()
            invariant
                i <= self.rows@.len(),
                self.wf(),
                forall|k: int| 0 <= k < i ==> (#[trigger] self.rows@[k]).0@ != key@,
            decreases self.rows@.len() - i,
        {
            if same(self.rows[i].0.as_str(), key) {
                proof {
                    let pairs = self.pairs();
                    assert forall|k: int| i < k < pairs.len() implies (#[trigger] pairs[k]).0
                        != pairs[i as int].0 by {
                        assert(pairs[i as int].0 != pairs[k].0);
                    }
                    lemma_last_counts(pairs, i as int);
                }
                return Some(i);
            }
            i += 1;
        }
        proof {
            lemma_absent(self.pairs(), key@);
        }
        None
    }

    pub fn get(&self, key: &str) -> (r: Option<&V>)
        requires
            self.wf(),
        ensures
            match r {
                Some(value) => self@.contains_key(key@) && self@[key@] == value.deep_view(),
                None => !self@.contains_key(key@),
            },
    {
        match self.position(key) {
            Some(at) => Some(&self.rows[at].1),
            None => None,
        }
    }

    /// Puts a row in, in place of the one with the same key.
    pub fn put(&mut self, key: &str, value: V)
        requires
            old(self).wf(),
        ensures
            final(self).wf(),
            final(self)@ == old(self)@.insert(key@, value.deep_view()),
    {
        let ghost before = self.pairs();
        match self.position(key) {
            Some(at) => {
                let ghost row = before[at as int];
                let _ = self.rows.remove(at);
                proof {
                    assert(self.pairs() =~= before.remove(at as int));
                    lemma_without_pair(before, at as int);
                    assert(distinct(self.pairs())) by {
                        let after = self.pairs();
                        assert forall|i: int, j: int| 0 <= i < j < after.len() implies (
                        #[trigger] after[i]).0 != (#[trigger] after[j]).0 by {
                            let k = if i < at {
                                i
                            } else {
                                i + 1
                            };
                            let l = if j < at {
                                j
                            } else {
                                j + 1
                            };
                            assert(before[k].0 != before[l].0);
                        }
                    }
                    assert forall|i: int| 0 <= i < self.pairs().len() implies (
                    #[trigger] self.pairs()[i]).0 != key@ by {
                        if i < at {
                            assert(before[i].0 != before[at as int].0);
                        } else {
                            assert(before[at as int].0 != before[i + 1].0);
                        }
                    }
                }
            },
            None => {
                assert forall|i: int| 0 <= i < self.pairs().len() implies (
                #[trigger] self.pairs()[i]).0 != key@ by {
                    assert(self.rows@[i].0@ != key@);
                }
            },
        }
        let ghost middle = self.pairs();
        self.rows.push((key.to_owned(), value));
        proof {
            let after = self.pairs();
            assert(after.drop_last() =~= middle);
            assert(distinct(after)) by {
                assert forall|i: int, j: int| 0 <= i < j < after.len() implies (
                #[trigger] after[i]).0 != (#[trigger] after[j]).0 by {
                    assert(after[i] == middle[i]);
                    if j < middle.len() {
                        assert(after[j] == middle[j]);
                    }
                }
            }
            assert(map_of(after) =~= map_of(before).insert(key@, value.deep_view())) by {
                assert(map_of(middle).remove(key@) =~= map_of(before).remove(key@));
                assert(map_of(middle).insert(key@, value.deep_view()) =~= map_of(middle).remove(
                    key@,
                ).insert(key@, value.deep_view()));
                assert(map_of(before).insert(key@, value.deep_view()) =~= map_of(before).remove(
                    key@,
                ).insert(key@, value.deep_view()));
            }
        }
    }

    /// The number of rows.
    pub fn len(&self) -> (r: usize)
        requires
            self.wf(),
        ensures
            self@.dom().finite(),
            r == self@.dom().len(),
    {
        proof {
            lemma_size(self.pairs());
        }
        self.rows.len()
    }

    /// The row at a place in the table.
    pub fn row(&self, at: usize) -> (r: (&str, &V))
        requires
            self.wf(),
            at < self@.dom().len(),
        ensures
            r.0@ == self.keys()[at as int],
            self@.contains_key(r.0@),
            self@[r.0@] == r.1.deep_view(),
    {
        proof {
            let pairs = self.pairs();
            lemma_size(pairs);
            assert forall|k: int| at < k < pairs.len() implies (#[trigger] pairs[k]).0
                != pairs[at as int].0 by {
                assert(pairs[at as int].0 != pairs[k].0);
            }
            lemma_last_counts(pairs, at as int);
        }
        (self.rows[at].0.as_str(), &self.rows[at].1)
    }

    /// The keys in the order of the rows.
    pub closed spec fn keys(&self) -> Seq<Seq<char>> {
        Seq::new(self.pairs().len(), |i: int| self.pairs()[i].0)
    }

    /// The keys of a table are all different, and they are those that it has rows for.
    pub proof fn keys_are_the_domain(&self)
        requires
            self.wf(),
        ensures
            self.keys().len() == self@.dom().len(),
            forall|i: int, j: int|
                0 <= i < j < self.keys().len() ==> #[trigger] self.keys()[i]
                    != #[trigger] self.keys()[j],
            forall|i: int|
                0 <= i < self.keys().len() ==> self@.contains_key(#[trigger] self.keys()[i]),
            forall|key: Seq<char>|
                self@.contains_key(key) ==> #[trigger] self.keys().contains(key),
    {
        let pairs = self.pairs();
        lemma_size(pairs);
        assert forall|i: int, j: int| 0 <= i < j < self.keys().len() implies #[trigger] self.keys()[i]
            != #[trigger] self.keys()[j] by {
            assert(pairs[i].0 != pairs[j].0);
        }
        assert forall|i: int| 0 <= i < self.keys().len() implies self@.contains_key(
            #[trigger] self.keys()[i],
        ) by {
            assert forall|k: int| i < k < pairs.len() implies (#[trigger] pairs[k]).0
                != pairs[i].0 by {
                assert(pairs[i].0 != pairs[k].0);
            }
            lemma_last_counts(pairs, i);
        }
        assert forall|key: Seq<char>| self@.contains_key(key) implies #[trigger] self.keys().contains(
            key,
        ) by {
            let at = lemma_key_has_pair(pairs, key);
            assert(self.keys()[at] == key);
        }
    }
}

} // verus!
