//! Values by name. A name has one value; the names keep the order in which they
//! came.
use vstd::prelude::*;

use crate::text;

verus! {

/// Values of the type `V` by name.
#[derive(Debug)]
pub struct NameMap<V> {
    pub entries: Vec<(String, V)>,
}

impl<V> View for NameMap<V> {
    type V = Map<Seq<char>, V>;

    open spec fn view(&self) -> Map<Seq<char>, V> {
        Map::new(
            |name: Seq<char>| self.order().contains(name),
            |name: Seq<char>| self.entries@[self.order().index_of(name)].1,
        )
    }
}

impl<V> NameMap<V> {
    /// The names in their order.
    pub open spec fn order(self) -> Seq<Seq<char>> {
        self.entries@.map_values(|e: (String, V)| e.0@)
    }

    /// No name occurs twice.
    pub open spec fn wf(self) -> bool {
        self.order().no_duplicates()
    }

    /// A map without names.
    pub fn new() -> (r: Self)
        ensures
            r.wf(),
            r.order() == Seq::<Seq<char>>::empty(),
            r@ == Map::<Seq<char>, V>::empty(),
    {
        let r = NameMap { entries: Vec::new() };
        assert(r.order() =~= Seq::empty());
        assert(r@ =~= Map::empty());
        r
    }

    /// How many names there are.
    pub fn len(&self) -> (r: usize)
        ensures
            r == self.order().len(),
    {
        self.entries.len()
    }

    /// The place of `name`.
    fn position(&self, name: &str) -> (r: Option<usize>)
        requires
            self.wf(),
        ensures
            match r {
                Some(i) => {
                    &&& i < self.order().len()
                    &&& self.order()[i as int] == name@
                    &&& self.order().index_of(name@) == i
                    &&& self@.contains_key(name@)
                    &&& self@[name@] == self.entries@[i as int].1
                },
                None => !self.order().contains(name@) && !self@.contains_key(name@),
            },
    {
        let mut i: usize = 0;
        while i < self.entries.len()
            invariant
                self.wf(),
                i <= self.entries@.len(),
                forall|k: int| 0 <= k < i ==> self.order()[k] != name@,
            decreases self.entries@.len() - i,
        {
            assert(self.order()[i as int] == self.entries@[i as int].0@);
            if text::same_text(self.entries[i].0.as_str(), name) {
                return Some(i);
            }
            i += 1;
        }
        None
    }

    /// The value of `name`.
    pub fn get(&self, name: &str) -> (r: Option<&V>)
        requires
            self.wf(),
        ensures
            match r {
                Some(v) => self@.contains_key(name@) && *v == self@[name@],
                None => !self@.contains_key(name@),
            },
    {
        match self.position(name) {
            Some(i) => Some(&self.entries[i].1),
            None => None,
        }
    }

    /// The value of `name`, for changing it.
    pub fn get_mut(&mut self, name: &str) -> (r: Option<&mut V>)
        requires
            old(self).wf(),
        ensures
            final(self).wf(),
            final(self).order() == old(self).order(),
            match r {
                Some(v) => {
                    &&& old(self)@.contains_key(name@)
                    &&& *v == old(self)@[name@]
                    &&& final(self)@ == old(self)@.insert(name@, *final(v))
                },
                None => !old(self)@.contains_key(name@) && final(self)@ == old(self)@,
            },
    {
        match self.position(name) {
            Some(i) => Some(self.value_at_mut(i)),
            None => None,
        }
    }

    /// The value at a place, for changing it.
    pub fn value_at_mut(&mut self, i: usize) -> (v: &mut V)
        requires
            old(self).wf(),
            i < old(self).order().len(),
        ensures
            final(self).wf(),
            final(self).order() == old(self).order(),
            *v == old(self)@[old(self).order()[i as int]],
            final(self)@ == old(self)@.insert(old(self).order()[i as int], *final(v)),
    {
        let ghost before = *self;
        let v = &mut self.entries[i].1;
        proof {
            before.change_at(after_borrow(*self), i as int, *final(v));
        }
        v
    }

    /// Whether `after` is this map with `v` as the value at the place `i`.
    spec fn changed_at(self, after: Self, i: int, v: V) -> bool {
        &&& after.wf()
        &&& after.order() == self.order()
        &&& after@ == self@.insert(self.order()[i], v)
    }

    /// A new value at one place changes the value of one name.
    proof fn change_at(self, after: Self, i: int, v: V)
        requires
            self.wf(),
            0 <= i < self.order().len(),
            after.entries@ == self.entries@.update(i, (self.entries@[i].0, v)),
        ensures
            self.changed_at(after, i, v),
    {
        assert(after.order() =~= self.order());
        assert(self.order().contains(self.order()[i]));
        assert(after@ =~= self@.insert(self.order()[i], v));
    }

    /// Whether `name` has a value.
    pub fn contains_key(&self, name: &str) -> (r: bool)
        requires
            self.wf(),
        ensures
            r == self@.contains_key(name@),
    {
        self.position(name).is_some()
    }

    /// Gives `name` a value. A new name comes last; a known one stays where it is.
    pub fn insert(&mut self, name: String, value: V)
        requires
            old(self).wf(),
        ensures
            final(self).wf(),
            final(self)@ == old(self)@.insert(name@, value),
            final(self).order() == if old(self).order().contains(name@) {
                old(self).order()
            } else {
                old(self).order().push(name@)
            },
    {
        match self.position(name.as_str()) {
            Some(i) => {
                let place = self.value_at_mut(i);
                *place = value;
            },
            None => {
                let ghost before = *self;
                self.entries.push((name, value));
                proof {
                    let order = self.order();
                    assert(order =~= before.order().push(name@));
                    assert(order[before.order().len() as int] == name@);
                    assert(order.no_duplicates());
                    assert forall|n: Seq<char>| before.order().contains(n) implies order.index_of(n)
                        == before.order().index_of(n) && order.contains(n) by {
                        let i = before.order().index_of(n);
                        assert(order[i] == n);
                    }
                    assert(order.index_of(name@) == before.order().len());
                    assert forall|n: Seq<char>| order.contains(n) implies before.order().contains(n)
                        || n == name@ by {
                        let i = order.index_of(n);
                        if i < before.order().len() {
                            assert(before.order()[i] == n);
                        }
                    }
                    assert(self@ =~= before@.insert(name@, value));
                }
            },
        }
    }

    /// Takes `name` and its value out.
    pub fn remove(&mut self, name: &str) -> (r: Option<V>)
        requires
            old(self).wf(),
        ensures
            final(self).wf(),
            final(self)@ == old(self)@.remove(name@),
            match r {
                Some(v) => {
                    &&& old(self)@.contains_key(name@)
                    &&& v == old(self)@[name@]
                    &&& final(self).order() == old(self).order().remove(
                        old(self).order().index_of(name@),
                    )
                },
                None => !old(self)@.contains_key(name@) && *final(self) == *old(self),
            },
    {
        match self.position(name) {
            Some(i) => {
                let ghost before = *self;
                let (_, v) = self.entries.remove(i);
                proof {
                    let order = self.order();
                    let was = before.order();
                    assert(order =~= was.remove(i as int));
                    assert(order.no_duplicates());
                    assert forall|n: Seq<char>| order.contains(n) implies was.contains(n) && n
                        != name@ && self@[n] == before@[n] by {
                        let k = order.index_of(n);
                        let j = if k < i {
                            k
                        } else {
                            k + 1
                        };
                        assert(was[j] == n);
                        assert(was.index_of(n) == j);
                    }
                    assert forall|n: Seq<char>| was.contains(n) && n != name@ implies order.contains(
                        n,
                    ) by {
                        let j = was.index_of(n);
                        let k = if j < i {
                            j
                        } else {
                            j - 1
                        };
                        assert(order[k] == n);
                    }
                    assert(self@ =~= before@.remove(name@));
                }
                Some(v)
            },
            None => {
                assert(self@ =~= self@.remove(name@));
                None
            },
        }
    }

    /// Takes all names out.
    pub fn clear(&mut self)
        ensures
            final(self).wf(),
            final(self).order() == Seq::<Seq<char>>::empty(),
            final(self)@ == Map::<Seq<char>, V>::empty(),
    {
        self.entries.clear();
        assert(self.order() =~= Seq::empty());
        assert(self@ =~= Map::empty());
    }

    /// The name at a place.
    pub fn key_at(&self, i: usize) -> (r: &str)
        requires
            i < self.order().len(),
        ensures
            r@ == self.order()[i as int],
    {
        self.entries[i].0.as_str()
    }

    /// The value at a place.
    pub fn value_at(&self, i: usize) -> (r: &V)
        requires
            self.wf(),
            i < self.order().len(),
        ensures
            *r == self@[self.order()[i as int]],
            self@.contains_key(self.order()[i as int]),
    {
        assert(self.order().contains(self.order()[i as int]));
        &self.entries[i].1
    }
}

/// What values are under which names where `values[i]` was inserted under
/// `names[i]`, one after the other: the last one of a name is kept.
pub open spec fn collected<V>(names: Seq<Seq<char>>, values: Seq<V>) -> Map<Seq<char>, V> {
    Map::new(
        |name: Seq<char>| names.contains(name),
        |name: Seq<char>| values[names.index_of_last(name)->0],
    )
}

/// One more value.
pub proof fn collected_push<V>(
    names: Seq<Seq<char>>,
    values: Seq<V>,
    name: Seq<char>,
    value: V,
)
    requires
        names.len() == values.len(),
    ensures
        collected(names.push(name), values.push(value)) == collected(names, values).insert(
            name,
            value,
        ),
{
    let more = names.push(name);
    let a = collected(more, values.push(value));
    let b = collected(names, values).insert(name, value);
    assert(more[names.len() as int] == name);
    assert forall|n: Seq<char>| #[trigger] a.contains_key(n) == b.contains_key(n) by {
        if names.contains(n) {
            assert(more[names.index_of(n)] == n);
        }
        if more.contains(n) && n != name {
            assert(names[more.index_of(n)] == n);
        }
    }
    assert forall|n: Seq<char>| a.contains_key(n) implies #[trigger] a[n] == b[n] by {
        more.index_of_last_ensures(n);
        names.index_of_last_ensures(n);
        let i = more.index_of_last(n)->0;
        if n == name {
            assert(i == names.len());
        } else {
            let k = names.index_of_last(n)->0;
            assert(more[k] == n);
            assert(names[i] == n);
            assert(i == k);
        }
    }
    assert(a =~= b);
}

/// Nothing was inserted.
pub proof fn collected_none<V>()
    ensures
        collected(Seq::<Seq<char>>::empty(), Seq::<V>::empty()) == Map::<Seq<char>, V>::empty(),
{
    assert(collected(Seq::<Seq<char>>::empty(), Seq::<V>::empty()) =~= Map::empty());
}

/// There are as many names in the map as in its order.
pub proof fn order_has_all_names<V>(m: NameMap<V>)
    requires
        m.wf(),
    ensures
        m@.dom().finite(),
        m@.dom().len() == m.order().len(),
        m@.dom() == m.order().to_set(),
{
    assert(m@.dom() =~= m.order().to_set());
    m.order().unique_seq_to_set();
}

/// Names that are collected with their values are found under just those names, and
/// the value of a name is the one that came with it last.
pub proof fn collected_is_last<V>(names: Seq<Seq<char>>, values: Seq<V>, i: int)
    requires
        0 <= i < names.len(),
        names.len() == values.len(),
        forall|j: int| i < j < names.len() ==> #[trigger] names[j] != names[i],
    ensures
        collected(names, values).contains_key(names[i]),
        collected(names, values)[names[i]] == values[i],
        forall|n: Seq<char>| #[trigger]
            collected(names, values).contains_key(n) ==> exists|j: int|
                0 <= j < names.len() && #[trigger] names[j] == n,
{
    assert(names.contains(names[i]));
    names.index_of_last_ensures(names[i]);
}

/// What a map has under a name is what one of its entries has there, and it has all of
/// them.
pub proof fn map_has_its_entries<V>(m: NameMap<V>, i: int)
    requires
        m.wf(),
        0 <= i < m.entries@.len(),
    ensures
        m@.contains_key(m.entries@[i].0@),
        m@[m.entries@[i].0@] == m.entries@[i].1,
        forall|n: Seq<char>| #[trigger]
            m@.contains_key(n) ==> exists|j: int|
                0 <= j < m.entries@.len() && (#[trigger] m.entries@[j]).0@ == n && m@[n]
                    == m.entries@[j].1,
{
    let order = m.order();
    assert(order[i] == m.entries@[i].0@);
    assert(order.contains(order[i]));
    assert forall|n: Seq<char>| #[trigger] m@.contains_key(n) implies exists|j: int|
        0 <= j < m.entries@.len() && (#[trigger] m.entries@[j]).0@ == n && m@[n]
            == m.entries@[j].1 by {
        let j = order.index_of(n);
        assert(order[j] == m.entries@[j].0@);
    }
}

/// What [`NameMap::insert`] puts under a name is what [`NameMap::get`] finds there, and every
/// other name is found as before.
pub proof fn inserted_value_is_found<V>(
    m: &mut NameMap<V>,
    name: String,
    value: V,
    other: &str,
    before: Option<&V>,
    after: Option<&V>,
)
    requires
        call_ensures(NameMap::<V>::insert, (m, name, value), ()),
        call_ensures(NameMap::<V>::get, (&*old(m), other), before),
        call_ensures(NameMap::<V>::get, (&*final(m), other), after),
    ensures
        other@ == name@ ==> after is Some && *(after->0) == value,
        other@ != name@ ==> (after is Some <==> before is Some) && (after is Some ==> *(after->0)
            == *(before->0)),
{
}

/// What [`NameMap::remove`] takes away is what was there, it is not found again, and every
/// other name is found as before.
pub proof fn removed_value_is_gone<V>(
    m: &mut NameMap<V>,
    name: &str,
    r: Option<V>,
    other: &str,
    before: Option<&V>,
    after: Option<&V>,
)
    requires
        call_ensures(NameMap::<V>::remove, (m, name), r),
        call_ensures(NameMap::<V>::get, (&*old(m), other), before),
        call_ensures(NameMap::<V>::get, (&*final(m), other), after),
    ensures
        other@ == name@ ==> after is None && (r is Some <==> before is Some) && (r is Some ==> r->0
            == *(before->0)),
        other@ != name@ ==> (after is Some <==> before is Some) && (after is Some ==> *(after->0)
            == *(before->0)),
{
}

/// A new map and a cleared one have no name; [`NameMap::contains_key`] says of a name whether
/// [`NameMap::get`] finds it.
pub proof fn empty_map_has_no_name<V>(
    new: NameMap<V>,
    m: &mut NameMap<V>,
    any: &NameMap<V>,
    name: &str,
    found: Option<&V>,
    there: bool,
    n: usize,
)
    requires
        call_ensures(NameMap::<V>::new, (), new),
        call_ensures(NameMap::<V>::clear, (m,), ()),
        call_ensures(NameMap::<V>::get, (any, name), found),
        call_ensures(NameMap::<V>::contains_key, (any, name), there),
        call_ensures(NameMap::<V>::len, (any,), n),
    ensures
        new.entries@.len() == 0,
        final(m).entries@.len() == 0,
        there <==> found is Some,
        n == any.entries@.len(),
{
    assert(new.order().len() == new.entries@.len());
    assert(final(m).order().len() == final(m).entries@.len());
}

/// The entries of a map are read in their order by [`NameMap::key_at`] and
/// [`NameMap::value_at`].
pub proof fn entries_are_read_in_order<V>(m: &NameMap<V>, i: usize, key: &str, value: &V)
    requires
        m.wf(),
        i < m.entries@.len(),
        call_ensures(NameMap::<V>::key_at, (m, i), key),
        call_ensures(NameMap::<V>::value_at, (m, i), value),
    ensures
        key@ == m.entries@[i as int].0@,
        *value == m.entries@[i as int].1,
{
    map_has_its_entries(*m, i as int);
    assert(m.order()[i as int] == m.entries@[i as int].0@);
}

} // verus!
