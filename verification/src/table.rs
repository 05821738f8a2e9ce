//! A table from text keys to values that keeps the order of first insertion.

use vstd::prelude::*;
use crate::text::same_text;

verus! {

/// Whether some row has the key.
pub open spec fn has_key<V>(rows: Seq<(Seq<char>, V)>, key: Seq<char>) -> bool {
    exists|i: int| 0 <= i < rows.len() && (#[trigger] rows[i]).0 == key
}

/// The place of the row with the key, where there is one.
pub open spec fn place_of<V>(rows: Seq<(Seq<char>, V)>, key: Seq<char>) -> int {
    choose|i: int| 0 <= i < rows.len() && (#[trigger] rows[i]).0 == key
}

/// The value under the key.
pub open spec fn lookup<V>(rows: Seq<(Seq<char>, V)>, key: Seq<char>) -> Option<V> {
    if has_key(rows, key) {
        Some(rows[place_of(rows, key)].1)
    } else {
        None
    }
}

/// The table after a value is put under a key: in the place of the row with that
/// key, or else at the end.
pub open spec fn with_row<V>(rows: Seq<(Seq<char>, V)>, key: Seq<char>, value: V) -> Seq<
    (Seq<char>, V),
> {
    if has_key(rows, key) {
        rows.update(place_of(rows, key), (key, value))
    } else {
        rows.push((key, value))
    }
}

/// The table without the row that has the key.
pub open spec fn without_row<V>(rows: Seq<(Seq<char>, V)>, key: Seq<char>) -> Seq<(Seq<char>, V)> {
    if has_key(rows, key) {
        rows.remove(place_of(rows, key))
    } else {
        rows
    }
}

/// No key stands in two rows.
pub open spec fn distinct_keys<V>(rows: Seq<(Seq<char>, V)>) -> bool {
    forall|i: int, j: int|
        0 <= i < rows.len() && 0 <= j < rows.len() && (#[trigger] rows[i]).0 == (
        #[trigger] rows[j]).0 ==> i == j
}

/// With distinct keys, a row's own place is the place of its key.
pub proof fn place_is_unique<V>(rows: Seq<(Seq<char>, V)>, i: int)
    requires
        distinct_keys(rows),
        0 <= i < rows.len(),
    ensures
        has_key(rows, rows[i].0),
        place_of(rows, rows[i].0) == i,
        lookup(rows, rows[i].0) == Some(rows[i].1),
{
    assert(rows[i].0 == rows[i].0);
    let p = place_of(rows, rows[i].0);
    assert(0 <= p < rows.len() && rows[p].0 == rows[i].0);
}

/// A value that was put under a key is found there, every other key is
/// untouched, and the keys stay distinct.
pub proof fn put_then_look<V>(rows: Seq<(Seq<char>, V)>, key: Seq<char>, value: V)
    requires
        distinct_keys(rows),
    ensures
        distinct_keys(with_row(rows, key, value)),
        lookup(with_row(rows, key, value), key) == Some(value),
        forall|other: Seq<char>|
            other != key ==> #[trigger] lookup(with_row(rows, key, value), other) == lookup(
                rows,
                other,
            ),
{
    let after = with_row(rows, key, value);
    if has_key(rows, key) {
        let p = place_of(rows, key);
        assert forall|i: int| 0 <= i < after.len() implies (#[trigger] after[i]).0 == rows[i].0 by {}
        assert forall|i: int, j: int|
            0 <= i < after.len() && 0 <= j < after.len() && (#[trigger] after[i]).0 == (
            #[trigger] after[j]).0 implies i == j by {
            assert(rows[i].0 == rows[j].0);
        }
        place_is_unique(after, p);
    } else {
        assert forall|i: int, j: int|
            0 <= i < after.len() && 0 <= j < after.len() && (#[trigger] after[i]).0 == (
            #[trigger] after[j]).0 implies i == j by {
            if i < rows.len() && j < rows.len() {
                assert(rows[i].0 == rows[j].0);
            } else if i < rows.len() {
                assert(rows[i].0 == key);
            } else if j < rows.len() {
                assert(rows[j].0 == key);
            }
        }
        place_is_unique(after, rows.len() as int);
    }
    assert forall|other: Seq<char>| other != key implies #[trigger] lookup(after, other) == lookup(
        rows,
        other,
    ) by {
        if has_key(rows, other) {
            let p = place_of(rows, other);
            place_is_unique(rows, p);
            assert(after[p] == rows[p]);
            place_is_unique(after, p);
        } else if has_key(after, other) {
            let p = place_of(after, other);
            assert(after[p].0 == other);
            assert(p < rows.len());
            assert(rows[p].0 == other);
        }
    }
}

/// A removed key is gone, every other key is untouched, and the keys stay
/// distinct.
pub proof fn remove_then_look<V>(rows: Seq<(Seq<char>, V)>, key: Seq<char>)
    requires
        distinct_keys(rows),
    ensures
        distinct_keys(without_row(rows, key)),
        !has_key(without_row(rows, key), key),
        forall|other: Seq<char>|
            other != key ==> #[trigger] lookup(without_row(rows, key), other) == lookup(rows, other),
{
    let after = without_row(rows, key);
    if has_key(rows, key) {
        let p = place_of(rows, key);
        assert forall|i: int| 0 <= i < after.len() implies #[trigger] after[i] == rows[if i < p {
            i
        } else {
            i + 1
        }] by {}
        assert forall|i: int, j: int|
            0 <= i < after.len() && 0 <= j < after.len() && (#[trigger] after[i]).0 == (
            #[trigger] after[j]).0 implies i == j by {
            let a = if i < p { i } else { i + 1 };
            let b = if j < p { j } else { j + 1 };
            assert(rows[a].0 == rows[b].0);
        }
        if has_key(after, key) {
            let q = place_of(after, key);
            let b = if q < p { q } else { q + 1 };
            assert(after[q].0 == key);
            assert(rows[b].0 == rows[p].0);
        }
        assert forall|other: Seq<char>| other != key implies #[trigger] lookup(after, other)
            == lookup(rows, other) by {
            if has_key(rows, other) {
                let q = place_of(rows, other);
                place_is_unique(rows, q);
                assert(q != p);
                let b = if q < p { q } else { q - 1 };
                assert(after[b] == rows[q]);
                place_is_unique(after, b);
            } else if has_key(after, other) {
                let q = place_of(after, other);
                let b = if q < p { q } else { q + 1 };
                assert(after[q].0 == other);
                assert(rows[b].0 == other);
            }
        }
    }
}

/// The same table with every value mapped.
pub open spec fn mapped<V, W>(rows: Seq<(Seq<char>, V)>, f: spec_fn(V) -> W) -> Seq<
    (Seq<char>, W),
> {
    Seq::new(rows.len(), |i: int| (rows[i].0, f(rows[i].1)))
}

/// Mapping the values leaves keys and places as they are.
pub proof fn mapped_keys<V, W>(rows: Seq<(Seq<char>, V)>, f: spec_fn(V) -> W, key: Seq<char>)
    requires
        distinct_keys(rows),
    ensures
        distinct_keys(mapped(rows, f)),
        has_key(mapped(rows, f), key) == has_key(rows, key),
        has_key(rows, key) ==> place_of(mapped(rows, f), key) == place_of(rows, key)
            && 0 <= place_of(rows, key) < rows.len() && lookup(mapped(rows, f), key) == Some(
            f(lookup(rows, key)->0),
        ),
        without_row(mapped(rows, f), key) == mapped(without_row(rows, key), f),
{
    let image = mapped(rows, f);
    assert forall|i: int, j: int|
        0 <= i < image.len() && 0 <= j < image.len() && (#[trigger] image[i]).0 == (
        #[trigger] image[j]).0 implies i == j by {
        assert(rows[i].0 == rows[j].0);
    }
    if has_key(rows, key) {
        let p = place_of(rows, key);
        assert(image[p].0 == key);
        place_is_unique(image, p);
        assert(image.remove(p) =~= mapped(rows.remove(p), f));
    } else if has_key(image, key) {
        let p = place_of(image, key);
        assert(image[p].0 == key);
        assert(rows[p].0 == key);
    }
    assert(without_row(image, key) =~= mapped(without_row(rows, key), f));
}

/// Putting a value and then mapping is mapping and then putting the mapped
/// value.
pub proof fn mapped_put<V, W>(
    rows: Seq<(Seq<char>, V)>,
    f: spec_fn(V) -> W,
    key: Seq<char>,
    value: V,
)
    requires
        distinct_keys(rows),
    ensures
        with_row(mapped(rows, f), key, f(value)) == mapped(with_row(rows, key, value), f),
{
    mapped_keys(rows, f, key);
    assert(with_row(mapped(rows, f), key, f(value)) =~= mapped(with_row(rows, key, value), f));
}

/// A table from text keys to values.
#[derive(Debug)]
pub struct TextTable<V> {
    rows: Vec<(String, V)>,
}

impl<V> View for TextTable<V> {
    type V = Seq<(Seq<char>, V)>;

    closed spec fn view(&self) -> Seq<(Seq<char>, V)> {
        Seq::new(self.rows@.len(), |i: int| (self.rows@[i].0@, self.rows@[i].1))
    }
}

impl<V> TextTable<V> {
    /// No key stands in two rows.
    pub open spec fn wf(&self) -> bool {
        distinct_keys(self@)
    }

    /// A table without rows.
    pub fn new() -> (res: TextTable<V>)
        ensures
            res.wf(),
            res@ == Seq::<(Seq<char>, V)>::empty(),
    {
        let res = TextTable { rows: Vec::new() };
        assert(res@ =~= Seq::<(Seq<char>, V)>::empty());
        res
    }

    /// The number of rows.
    pub fn len(&self) -> (res: usize)
        ensures
            res == self@.len(),
    {
        self.rows.len()
    }

    /// The key of a row.
    pub fn key_at(&self, i: usize) -> (res: &String)
        requires
            i < self@.len(),
        ensures
            res@ == self@[i as int].0,
    {
        &self.rows[i].0
    }

    /// The value of a row.
    pub fn value_at(&self, i: usize) -> (res: &V)
        requires
            i < self@.len(),
        ensures
            *res == self@[i as int].1,
    {
        &self.rows[i].1
    }

    /// The place of the row with the key.
    pub fn find(&self, key: &str) -> (res: Option<usize>)
        requires
            self.wf(),
        ensures
            res is Some <==> has_key(self@, key@),
            res matches Some(i) ==> i < self@.len() && self@[i as int].0 == key@ && i == place_of(
                self@,
                key@,
            ),
    {
        let mut i: usize = 0;
        while i < self.rows.len()
            invariant
                0 <= i <= self.rows.len(),
                self.wf(),
                forall|k: int| 0 <= k < i ==> (#[trigger] self@[k]).0 != key@,
            decreases self.rows.len() - i,
        {
            if same_text(self.rows[i].0.as_str(), key) {
                assert(self@[i as int].0 == key@);
                proof {
                    place_is_unique(self@, i as int);
                }
                return Some(i);
            }
            i = i + 1;
        }
        None
    }

    /// The value under a key.
    pub fn get(&self, key: &str) -> (res: Option<&V>)
        requires
            self.wf(),
        ensures
            res is Some <==> has_key(self@, key@),
            res matches Some(v) ==> lookup(self@, key@) == Some(*v),
    {
        match self.find(key) {
            Some(i) => Some(&self.rows[i].1),
            None => None,
        }
    }

    /// Whether a key has a row.
    pub fn contains(&self, key: &str) -> (res: bool)
        requires
            self.wf(),
        ensures
            res == has_key(self@, key@),
    {
        self.find(key).is_some()
    }

    /// Puts a value under a key.
    pub fn put(&mut self, key: &str, value: V)
        requires
            old(self).wf(),
        ensures
            final(self).wf(),
            final(self)@ == with_row(old(self)@, key@, value),
    {
        proof {
            put_then_look(self@, key@, value);
        }
        match self.find(key) {
            Some(i) => {
                self.rows.set(i, (key.to_owned(), value));
            },
            None => {
                self.rows.push((key.to_owned(), value));
            },
        }
        assert(self@ =~= with_row(old(self)@, key@, value));
    }

    /// Replaces the value of a row.
    pub fn set_at(&mut self, i: usize, value: V)
        requires
            old(self).wf(),
            i < old(self)@.len(),
        ensures
            final(self).wf(),
            final(self)@ == old(self)@.update(i as int, (old(self)@[i as int].0, value)),
            final(self)@ == with_row(old(self)@, old(self)@[i as int].0, value),
    {
        let key = self.rows[i].0.clone();
        proof {
            place_is_unique(self@, i as int);
            put_then_look(self@, self@[i as int].0, value);
        }
        self.rows.set(i, (key, value));
        assert(self@ =~= with_row(old(self)@, old(self)@[i as int].0, value));
    }

    /// Removes the row with a key, and says whether there was one.
    pub fn remove(&mut self, key: &str) -> (res: bool)
        requires
            old(self).wf(),
        ensures
            final(self).wf(),
            final(self)@ == without_row(old(self)@, key@),
            res == has_key(old(self)@, key@),
    {
        proof {
            remove_then_look(self@, key@);
        }
        match self.find(key) {
            Some(i) => {
                self.rows.remove(i);
                assert(self@ =~= without_row(old(self)@, key@));
                true
            },
            None => false,
        }
    }

    /// Removes the row at a place.
    pub fn remove_at(&mut self, i: usize)
        requires
            old(self).wf(),
            i < old(self)@.len(),
        ensures
            final(self).wf(),
            final(self)@ == old(self)@.remove(i as int),
    {
        proof {
            place_is_unique(self@, i as int);
            remove_then_look(self@, self@[i as int].0);
        }
        self.rows.remove(i);
        assert(self@ =~= old(self)@.remove(i as int));
    }

    /// Removes every row.
    pub fn clear(&mut self)
        ensures
            final(self).wf(),
            final(self)@ == Seq::<(Seq<char>, V)>::empty(),
    {
        self.rows.clear();
        assert(self@ =~= Seq::<(Seq<char>, V)>::empty());
    }
}

} // verus!
