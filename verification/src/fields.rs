//! A map from keys to JSON values that keeps its members ordered by key.
use crate::json::{has_key, members_view, Json, JsonValue};
use crate::text::{key_before, key_order, lemma_key_order, KeyOrder};
use vstd::prelude::*;

verus! {

/// Whether the members stand in strictly increasing order of their keys. No key then
/// occurs twice.
pub open spec fn sorted(m: Seq<(Seq<char>, Json)>) -> bool {
    forall|i: int, j: int| 0 <= i < j < m.len() ==> key_before(#[trigger] m[i].0, #[trigger] m[j].0)
}

/// The value under a key, if the key occurs.
pub open spec fn lookup(m: Seq<(Seq<char>, Json)>, key: Seq<char>) -> Option<Json>
    decreases m.len(),
{
    if m.len() == 0 {
        None
    } else if m.last().0 == key {
        Some(m.last().1)
    } else {
        lookup(m.drop_last(), key)
    }
}

/// The members with `key` set to `value`: an earlier value under the key is replaced, a
/// new key takes its place in the order.
pub open spec fn insert_member(m: Seq<(Seq<char>, Json)>, key: Seq<char>, value: Json) -> Seq<
    (Seq<char>, Json),
>
    decreases m.len(),
{
    if m.len() == 0 {
        seq![(key, value)]
    } else if m.last().0 == key {
        m.drop_last().push((key, value))
    } else if key_before(m.last().0, key) {
        m.push((key, value))
    } else {
        insert_member(m.drop_last(), key, value).push(m.last())
    }
}

/// The members whose key is not `key`, in their order.
pub open spec fn without_key(m: Seq<(Seq<char>, Json)>, key: Seq<char>) -> Seq<(Seq<char>, Json)>
    decreases m.len(),
{
    if m.len() == 0 {
        m
    } else if m.last().0 == key {
        without_key(m.drop_last(), key)
    } else {
        without_key(m.drop_last(), key).push(m.last())
    }
}

/// A key occurs after one more member exactly when that member has it or it occurred
/// before.
pub proof fn lemma_has_key_push(m: Seq<(Seq<char>, Json)>, member: (Seq<char>, Json), k: Seq<char>)
    ensures
        has_key(m.push(member), k) <==> (member.0 == k || has_key(m, k)),
{
    let r = m.push(member);
    if has_key(r, k) {
        let i = choose|i: int| 0 <= i < r.len() && (#[trigger] r[i]).0 == k;
        if i < m.len() {
            assert(m[i].0 == k);
        }
    }
    if member.0 == k {
        assert(r[m.len() as int].0 == k);
    }
    if has_key(m, k) {
        let i = choose|i: int| 0 <= i < m.len() && (#[trigger] m[i]).0 == k;
        assert(r[i].0 == k);
    }
}

/// A key occurs exactly when the last member has it or it occurs before the last member.
pub proof fn lemma_has_key_last(m: Seq<(Seq<char>, Json)>, k: Seq<char>)
    requires
        m.len() > 0,
    ensures
        has_key(m, k) <==> (m.last().0 == k || has_key(m.drop_last(), k)),
{
    assert(m =~= m.drop_last().push(m.last()));
    lemma_has_key_push(m.drop_last(), m.last(), k);
}

/// A key occurs exactly when `lookup` finds a value under it.
pub proof fn lemma_lookup_has_key(m: Seq<(Seq<char>, Json)>, key: Seq<char>)
    ensures
        lookup(m, key) is Some <==> has_key(m, key),
    decreases m.len(),
{
    if m.len() > 0 {
        lemma_lookup_has_key(m.drop_last(), key);
        lemma_has_key_last(m, key);
    }
}

/// Ordered members stay ordered when the last one is taken away.
pub proof fn lemma_sorted_prefix(m: Seq<(Seq<char>, Json)>)
    requires
        sorted(m),
        m.len() > 0,
    ensures
        sorted(m.drop_last()),
{
    assert forall|i: int, j: int| 0 <= i < j < m.drop_last().len() implies key_before(
        #[trigger] m.drop_last()[i].0,
        #[trigger] m.drop_last()[j].0,
    ) by {
        assert(m.drop_last()[i] == m[i]);
        assert(m.drop_last()[j] == m[j]);
    }
}

/// In ordered members every key before the last member comes before the last key.
pub proof fn lemma_sorted_last(m: Seq<(Seq<char>, Json)>, k: Seq<char>)
    requires
        sorted(m),
        m.len() > 0,
        has_key(m.drop_last(), k),
    ensures
        key_before(k, m.last().0),
{
    let i = choose|i: int| 0 <= i < m.drop_last().len() && (#[trigger] m.drop_last()[i]).0 == k;
    assert(m[i].0 == k);
    assert(key_before(m[i].0, m[m.len() - 1].0));
}

/// Members stay ordered with one more member whose key comes after all of theirs.
pub proof fn lemma_sorted_push(m: Seq<(Seq<char>, Json)>, member: (Seq<char>, Json))
    requires
        sorted(m),
        forall|k: Seq<char>| has_key(m, k) ==> key_before(k, member.0),
    ensures
        sorted(m.push(member)),
{
    let r = m.push(member);
    assert forall|i: int, j: int| 0 <= i < j < r.len() implies key_before(
        #[trigger] r[i].0,
        #[trigger] r[j].0,
    ) by {
        assert(r[i] == m[i]);
        if j < m.len() {
            assert(r[j] == m[j]);
        } else {
            assert(has_key(m, m[i].0));
        }
    }
}

/// In ordered members the value under a key is the value of the member that has the key.
pub proof fn lemma_lookup_at(m: Seq<(Seq<char>, Json)>, i: int)
    requires
        sorted(m),
        0 <= i < m.len(),
    ensures
        lookup(m, m[i].0) == Some(m[i].1),
    decreases m.len(),
{
    if i < m.len() - 1 {
        assert(key_before(m[i].0, m[m.len() - 1].0));
        lemma_key_order(m[i].0, m.last().0, m[i].0);
        assert(m.drop_last()[i] == m[i]);
        lemma_sorted_prefix(m);
        lemma_lookup_at(m.drop_last(), i);
    }
}

/// The keys after an insertion are the keys before it and the inserted key.
pub proof fn lemma_insert_keys(m: Seq<(Seq<char>, Json)>, key: Seq<char>, value: Json, k: Seq<char>)
    ensures
        has_key(insert_member(m, key, value), k) <==> (k == key || has_key(m, k)),
    decreases m.len(),
{
    if m.len() == 0 {
        assert(insert_member(m, key, value) =~= m.push((key, value)));
        lemma_has_key_push(m, (key, value), k);
    } else {
        lemma_has_key_last(m, k);
        if m.last().0 == key {
            lemma_has_key_push(m.drop_last(), (key, value), k);
        } else if key_before(m.last().0, key) {
            lemma_has_key_push(m, (key, value), k);
        } else {
            lemma_insert_keys(m.drop_last(), key, value, k);
            lemma_has_key_push(insert_member(m.drop_last(), key, value), m.last(), k);
        }
    }
}

/// Inserting into ordered members leaves them ordered.
pub proof fn lemma_insert_sorted(m: Seq<(Seq<char>, Json)>, key: Seq<char>, value: Json)
    requires
        sorted(m),
    ensures
        sorted(insert_member(m, key, value)),
    decreases m.len(),
{
    if m.len() == 0 {
    } else {
        lemma_sorted_prefix(m);
        if m.last().0 == key {
            assert forall|k: Seq<char>| has_key(m.drop_last(), k) implies key_before(k, key) by {
                lemma_sorted_last(m, k);
            }
            lemma_sorted_push(m.drop_last(), (key, value));
        } else if key_before(m.last().0, key) {
            assert forall|k: Seq<char>| has_key(m, k) implies key_before(k, key) by {
                lemma_has_key_last(m, k);
                if has_key(m.drop_last(), k) {
                    lemma_sorted_last(m, k);
                    lemma_key_order(k, m.last().0, key);
                }
            }
            lemma_sorted_push(m, (key, value));
        } else {
            let inner = insert_member(m.drop_last(), key, value);
            lemma_insert_sorted(m.drop_last(), key, value);
            lemma_key_order(m.last().0, key, key);
            assert forall|k: Seq<char>| has_key(inner, k) implies key_before(k, m.last().0) by {
                lemma_insert_keys(m.drop_last(), key, value, k);
                if k != key {
                    lemma_sorted_last(m, k);
                }
            }
            lemma_sorted_push(inner, m.last());
        }
    }
}

/// After an insertion the inserted key holds the new value, and every other key holds
/// what it held before.
pub proof fn lemma_insert_lookup(
    m: Seq<(Seq<char>, Json)>,
    key: Seq<char>,
    value: Json,
    k: Seq<char>,
)
    ensures
        lookup(insert_member(m, key, value), k) == if k == key {
            Some(value)
        } else {
            lookup(m, k)
        },
    decreases m.len(),
{
    let r = insert_member(m, key, value);
    if m.len() == 0 {
        assert(r.drop_last() =~= m);
    } else if m.last().0 == key {
        assert(r.drop_last() =~= m.drop_last());
    } else if key_before(m.last().0, key) {
        assert(r.drop_last() =~= m);
    } else {
        let inner = insert_member(m.drop_last(), key, value);
        lemma_insert_lookup(m.drop_last(), key, value, k);
        assert(r.drop_last() =~= inner);
        assert(r.last() == m.last());
        if k == key {
            lemma_key_order(m.last().0, key, key);
        }
    }
}

/// The keys that are left when a key is taken away are the other keys.
pub proof fn lemma_without_key_keys(m: Seq<(Seq<char>, Json)>, key: Seq<char>, k: Seq<char>)
    ensures
        has_key(without_key(m, key), k) <==> (k != key && has_key(m, k)),
    decreases m.len(),
{
    if m.len() > 0 {
        lemma_without_key_keys(m.drop_last(), key, k);
        lemma_has_key_last(m, k);
        if m.last().0 != key {
            lemma_has_key_push(without_key(m.drop_last(), key), m.last(), k);
        }
    }
}

/// Taking a key away leaves every other key with its value, and the key itself with
/// none.
pub proof fn lemma_without_key_lookup(m: Seq<(Seq<char>, Json)>, key: Seq<char>, k: Seq<char>)
    ensures
        lookup(without_key(m, key), k) == if k == key {
            None
        } else {
            lookup(m, k)
        },
    decreases m.len(),
{
    if m.len() > 0 {
        lemma_without_key_lookup(m.drop_last(), key, k);
        if m.last().0 != key {
            let r = without_key(m, key);
            assert(r.drop_last() =~= without_key(m.drop_last(), key));
            assert(r.last() == m.last());
        }
    }
}

/// Taking away a key that does not occur changes nothing.
pub proof fn lemma_without_key_absent(m: Seq<(Seq<char>, Json)>, key: Seq<char>)
    requires
        !has_key(m, key),
    ensures
        without_key(m, key) == m,
    decreases m.len(),
{
    if m.len() > 0 {
        lemma_has_key_last(m, key);
        lemma_without_key_absent(m.drop_last(), key);
        assert(m =~= m.drop_last().push(m.last()));
    }
}

/// Taking a key away from ordered members leaves them ordered.
pub proof fn lemma_without_key_sorted(m: Seq<(Seq<char>, Json)>, key: Seq<char>)
    requires
        sorted(m),
    ensures
        sorted(without_key(m, key)),
    decreases m.len(),
{
    if m.len() > 0 {
        lemma_sorted_prefix(m);
        lemma_without_key_sorted(m.drop_last(), key);
        if m.last().0 != key {
            let inner = without_key(m.drop_last(), key);
            assert forall|k: Seq<char>| has_key(inner, k) implies key_before(k, m.last().0) by {
                lemma_without_key_keys(m.drop_last(), key, k);
                lemma_sorted_last(m, k);
            }
            lemma_sorted_push(inner, m.last());
        }
    }
}

/// Where the members are ordered and `p` is the place of `key` among them, inserting
/// replaces the member at `p` if it has the key, and else puts the new member at `p`.
pub proof fn lemma_insert_at(m: Seq<(Seq<char>, Json)>, key: Seq<char>, value: Json, p: int)
    requires
        sorted(m),
        0 <= p <= m.len(),
        forall|i: int| 0 <= i < p ==> key_before(#[trigger] m[i].0, key),
        p < m.len() ==> !key_before(m[p].0, key),
    ensures
        insert_member(m, key, value) == if p < m.len() && m[p].0 == key {
            m.update(p, (key, value))
        } else {
            m.insert(p, (key, value))
        },
    decreases m.len(),
{
    let r = insert_member(m, key, value);
    if m.len() == 0 {
        assert(r =~= m.insert(p, (key, value)));
    } else if p == m.len() {
        let last = m.len() - 1;
        assert(key_before(m[last].0, key));
        lemma_key_order(m.last().0, key, key);
        assert(r =~= m.insert(p, (key, value)));
    } else {
        let last = m.len() - 1;
        if p < last {
            assert(key_before(m[p].0, m[last].0));
            lemma_key_order(m[p].0, key, m.last().0);
            lemma_key_order(key, m[p].0, m.last().0);
            lemma_key_order(m.last().0, key, key);
            lemma_key_order(key, m.last().0, key);
        } else {
            lemma_key_order(m.last().0, key, key);
        }
        if m.last().0 == key {
            assert(p == last);
            assert(r =~= m.update(p, (key, value)));
        } else {
            assert(!key_before(m.last().0, key));
            lemma_sorted_prefix(m);
            assert forall|i: int| 0 <= i < p implies key_before(
                #[trigger] m.drop_last()[i].0,
                key,
            ) by {
                assert(m.drop_last()[i] == m[i]);
            }
            if p < last {
                assert(m.drop_last()[p] == m[p]);
            }
            lemma_insert_at(m.drop_last(), key, value, p);
            if p < last && m[p].0 == key {
                assert(r =~= m.update(p, (key, value)));
            } else {
                assert(r =~= m.insert(p, (key, value)));
            }
        }
    }
}

/// Where no key occurs twice and the member at `p` has the key, taking the key away
/// removes that member and no other.
pub proof fn lemma_without_key_at(m: Seq<(Seq<char>, Json)>, key: Seq<char>, p: int)
    requires
        sorted(m),
        0 <= p < m.len(),
        m[p].0 == key,
    ensures
        without_key(m, key) == m.remove(p),
    decreases m.len(),
{
    let last = m.len() - 1;
    if p == last {
        if has_key(m.drop_last(), key) {
            lemma_sorted_last(m, key);
            lemma_key_order(key, key, key);
        }
        lemma_without_key_absent(m.drop_last(), key);
        assert(m.remove(p) =~= m.drop_last());
    } else {
        assert(key_before(m[p].0, m[last].0));
        lemma_key_order(key, key, key);
        lemma_sorted_prefix(m);
        assert(m.drop_last()[p] == m[p]);
        lemma_without_key_at(m.drop_last(), key, p);
        assert(without_key(m, key) =~= m.remove(p));
    }
}

/// A map from keys to JSON values. Its members are kept in the order of their keys, and
/// each key occurs once.
#[derive(Debug)]
pub struct FieldMap {
    members: Vec<(String, JsonValue)>,
}

impl View for FieldMap {
    type V = Seq<(Seq<char>, Json)>;

    closed spec fn view(&self) -> Seq<(Seq<char>, Json)> {
        members_view(self.members@)
    }
}

impl FieldMap {
    /// The members stand in the order of their keys.
    pub open spec fn wf(&self) -> bool {
        sorted(self@)
    }

    /// A map without members.
    pub fn new() -> (r: FieldMap)
        ensures
            r@.len() == 0,
            r.wf(),
    {
        FieldMap { members: Vec::new() }
    }

    /// The number of members.
    pub fn len(&self) -> (r: usize)
        ensures
            r == self@.len(),
    {
        self.members.len()
    }

    /// Whether the map has no member.
    pub fn is_empty(&self) -> (r: bool)
        ensures
            r == (self@.len() == 0),
    {
        self.members.len() == 0
    }

    /// The number of members whose key comes before `key`: the place of `key` in the
    /// order.
    fn place_of(&self, key: &str) -> (r: (usize, bool))
        requires
            self.wf(),
        ensures
            r.0 <= self@.len(),
            forall|i: int| 0 <= i < r.0 ==> key_before(#[trigger] self@[i].0, key@),
            r.0 < self@.len() ==> !key_before(self@[r.0 as int].0, key@),
            r.1 == (r.0 < self@.len() && self@[r.0 as int].0 == key@),
    {
        let mut i: usize = 0;
        while i < self.members.len()
            invariant
                i <= self.members.len(),
                self@ == members_view(self.members@),
                forall|j: int| 0 <= j < i ==> key_before(#[trigger] self@[j].0, key@),
            decreases self.members.len() - i,
        {
            match key_order(self.members[i].0.as_str(), key) {
                KeyOrder::Before => {},
                KeyOrder::Same => {
                    proof {
                        lemma_key_order(key@, key@, key@);
                    }
                    return (i, true);
                },
                KeyOrder::After => {
                    proof {
                        lemma_key_order(key@, self@[i as int].0, key@);
                    }
                    return (i, false);
                },
            }
            i += 1;
        }
        (i, false)
    }

    /// Sets `key` to `value`. An earlier value under the key is replaced.
    pub fn insert(&mut self, key: String, value: JsonValue)
        requires
            old(self).wf(),
        ensures
            final(self).wf(),
            final(self)@ == insert_member(old(self)@, key@, value@),
    {
        let (place, found) = self.place_of(key.as_str());
        proof {
            lemma_insert_at(self@, key@, value@, place as int);
            lemma_insert_sorted(self@, key@, value@);
        }
        if found {
            self.members.set(place, (key, value));
            assert(self@ =~= old(self)@.update(place as int, (key@, value@)));
        } else {
            self.members.insert(place, (key, value));
            assert(self@ =~= old(self)@.insert(place as int, (key@, value@)));
        }
    }

    /// Takes the member with the given key out of the map and hands back its value.
    pub fn remove(&mut self, key: &str) -> (r: Option<JsonValue>)
        requires
            old(self).wf(),
        ensures
            final(self).wf(),
            final(self)@ == without_key(old(self)@, key@),
            match r {
                Some(value) => lookup(old(self)@, key@) == Some(value@),
                None => lookup(old(self)@, key@) is None,
            },
    {
        let (place, found) = self.place_of(key);
        proof {
            lemma_without_key_sorted(self@, key@);
            lemma_lookup_has_key(self@, key@);
        }
        if found {
            proof {
                lemma_without_key_at(self@, key@, place as int);
                lemma_lookup_at(self@, place as int);
            }
            let member = self.members.remove(place);
            assert(self@ =~= old(self)@.remove(place as int));
            Some(member.1)
        } else {
            proof {
                if has_key(self@, key@) {
                    let i = choose|i: int| 0 <= i < self@.len() && (#[trigger] self@[i]).0 == key@;
                    lemma_key_order(key@, key@, key@);
                    if i < place {
                    } else if i > place {
                        assert(key_before(self@[place as int].0, self@[i].0));
                    }
                }
                lemma_without_key_absent(self@, key@);
            }
            None
        }
    }

    /// Whether some member has the given key.
    pub fn contains_key(&self, key: &str) -> (r: bool)
        requires
            self.wf(),
        ensures
            r == has_key(self@, key@),
    {
        let (place, found) = self.place_of(key);
        proof {
            if found {
                assert(self@[place as int].0 == key@);
            } else if has_key(self@, key@) {
                let i = choose|i: int| 0 <= i < self@.len() && (#[trigger] self@[i]).0 == key@;
                lemma_key_order(key@, key@, key@);
                if i > place {
                    assert(key_before(self@[place as int].0, self@[i].0));
                }
            }
        }
        found
    }

    /// The members, in the order of their keys.
    pub fn into_members(self) -> (r: Vec<(String, JsonValue)>)
        ensures
            members_view(r@) == self@,
    {
        self.members
    }
}

} // verus!
