use vstd::prelude::*;
use crate::text::{chars_of, push_chars, str_eq, string_of};

verus! {

/// A record that is stored under a string key and can be copied.
pub trait Keyed: Sized + View {
    /// The key the record is stored under.
    spec fn key(&self) -> Seq<char>;

    /// The key, as the record holds it.
    fn key_string(&self) -> (r: &String)
        ensures
            r@ == self.key(),
    ;

    /// A copy of the record: same view, same key.
    fn duplicate(&self) -> (r: Self)
        ensures
            r@ == self@,
            r.key() == self.key(),
    ;
}

/// The views of a sequence of records.
pub open spec fn views<T: View>(rows: Seq<T>) -> Seq<T::V> {
    Seq::new(rows.len(), |k: int| rows[k]@)
}

/// No two rows share a key.
pub open spec fn unique_keys<T: Keyed>(rows: Seq<T>) -> bool {
    forall|i: int, j: int|
        0 <= i < rows.len() && 0 <= j < rows.len() && i != j ==> #[trigger] rows[i].key()
            != #[trigger] rows[j].key()
}

/// Some row is stored under `k`.
pub open spec fn has_key<T: Keyed>(rows: Seq<T>, k: Seq<char>) -> bool {
    exists|i: int| 0 <= i < rows.len() && #[trigger] rows[i].key() == k
}

/// The position of the row stored under `k`, or -1.
pub open spec fn key_index<T: Keyed>(rows: Seq<T>, k: Seq<char>) -> int {
    if has_key(rows, k) {
        choose|i: int| 0 <= i < rows.len() && #[trigger] rows[i].key() == k
    } else {
        -1
    }
}

/// The row stored under `k`.
pub open spec fn lookup<T: Keyed>(rows: Seq<T>, k: Seq<char>) -> Option<T> {
    if has_key(rows, k) {
        Some(rows[key_index(rows, k)])
    } else {
        None
    }
}

/// The rows after storing `rec` under its key: it replaces the row stored under the same key,
/// or comes last.
pub open spec fn upserted<T: Keyed>(rows: Seq<T>, rec: T) -> Seq<T> {
    if has_key(rows, rec.key()) {
        rows.update(key_index(rows, rec.key()), rec)
    } else {
        rows.push(rec)
    }
}

/// The rows after removing the row stored under `k`, if any.
pub open spec fn removed<T: Keyed>(rows: Seq<T>, k: Seq<char>) -> Seq<T> {
    if has_key(rows, k) {
        rows.remove(key_index(rows, k))
    } else {
        rows
    }
}

/// Filtering one more element of a sequence.
pub proof fn lemma_filter_step<T>(s: Seq<T>, i: int, pred: spec_fn(T) -> bool)
    requires
        0 <= i < s.len(),
    ensures
        s.take(i + 1).filter(pred) == if pred(s[i]) {
            s.take(i).filter(pred).push(s[i])
        } else {
            s.take(i).filter(pred)
        },
{
    let t = s.take(i + 1);
    assert(t.drop_last() == s.take(i));
    assert(t.last() == s[i]);
    reveal_with_fuel(Seq::filter, 1);
}

/// The views after replacing one row.
pub proof fn lemma_views_update<T: View>(s: Seq<T>, i: int, x: T)
    requires
        0 <= i < s.len(),
    ensures
        views(s.update(i, x)) == views(s).update(i, x@),
{
    assert(views(s.update(i, x)) =~= views(s).update(i, x@));
}

/// The views of a sequence with one more row.
pub proof fn lemma_views_push<T: View>(s: Seq<T>, x: T)
    ensures
        views(s.push(x)) == views(s).push(x@),
{
    assert(views(s.push(x)) =~= views(s).push(x@));
}

/// With unique keys, the row found under a key is the one at its position.
pub proof fn lemma_key_index<T: Keyed>(rows: Seq<T>, i: int)
    requires
        unique_keys(rows),
        0 <= i < rows.len(),
    ensures
        has_key(rows, rows[i].key()),
        key_index(rows, rows[i].key()) == i,
        lookup(rows, rows[i].key()) == Some(rows[i]),
{
    let k = rows[i].key();
    assert(has_key(rows, k));
    let j = key_index(rows, k);
    assert(rows[j].key() == k);
}

/// Replacing a row by one under the same key gives that row under its key and keeps what is
/// found under every other key.
pub proof fn lemma_lookup_set<T: Keyed>(rows: Seq<T>, i: int, x: T, k: Seq<char>)
    requires
        unique_keys(rows),
        0 <= i < rows.len(),
        x.key() == rows[i].key(),
    ensures
        unique_keys(rows.update(i, x)),
        lookup(rows.update(i, x), rows[i].key()) == Some(x),
        k != rows[i].key() ==> lookup(rows.update(i, x), k) == lookup(rows, k),
{
    let u = rows.update(i, x);
    assert forall|a: int, b: int| 0 <= a < b < u.len() implies #[trigger] u[a].key() != #[trigger] u[b].key() by {
        assert(rows[a].key() != rows[b].key()) by {
            assert(unique_keys(rows));
        }
    }
    lemma_key_index(u, i);
    if k != rows[i].key() {
        if has_key(rows, k) {
            let j = key_index(rows, k);
            assert(rows[j].key() == k);
            assert(u[j] == rows[j]);
            lemma_key_index(u, j);
            lemma_key_index(rows, j);
        } else {
            assert forall|m: int| 0 <= m < u.len() implies #[trigger] u[m].key() != k by {
                if m != i {
                    assert(u[m] == rows[m]);
                }
            }
        }
    }
}

/// Reading a key after storing a record gives the record under its own key and what was
/// there before under every other key.
pub proof fn lemma_lookup_upserted<T: Keyed>(rows: Seq<T>, rec: T, k: Seq<char>)
    requires
        unique_keys(rows),
    ensures
        unique_keys(upserted(rows, rec)),
        lookup(upserted(rows, rec), k) == if k == rec.key() {
            Some(rec)
        } else {
            lookup(rows, k)
        },
{
    let u = upserted(rows, rec);
    if has_key(rows, rec.key()) {
        let i = key_index(rows, rec.key());
        assert(rows[i].key() == rec.key());
        assert forall|a: int, b: int| 0 <= a < u.len() && 0 <= b < u.len() && a != b
            implies #[trigger] u[a].key() != #[trigger] u[b].key() by {
            if a == i {
                assert(u[b] == rows[b]);
            } else if b == i {
                assert(u[a] == rows[a]);
            } else {
                assert(u[a] == rows[a]);
                assert(u[b] == rows[b]);
            }
        }
        lemma_key_index(u, i);
        if k != rec.key() {
            if has_key(rows, k) {
                let j = key_index(rows, k);
                assert(j != i);
                assert(u[j] == rows[j]);
                lemma_key_index(u, j);
            } else {
                assert forall|m: int| 0 <= m < u.len() implies #[trigger] u[m].key() != k by {
                    if m != i {
                        assert(u[m] == rows[m]);
                    }
                }
            }
        }
    } else {
        assert forall|a: int, b: int| 0 <= a < u.len() && 0 <= b < u.len() && a != b
            implies #[trigger] u[a].key() != #[trigger] u[b].key() by {
            if a == rows.len() {
                assert(u[b] == rows[b]);
            } else if b == rows.len() {
                assert(u[a] == rows[a]);
            } else {
                assert(u[a] == rows[a]);
                assert(u[b] == rows[b]);
            }
        }
        lemma_key_index(u, rows.len() as int);
        if k != rec.key() {
            if has_key(rows, k) {
                let j = key_index(rows, k);
                assert(u[j] == rows[j]);
                lemma_key_index(u, j);
            } else {
                assert forall|m: int| 0 <= m < u.len() implies #[trigger] u[m].key() != k by {
                    if m < rows.len() {
                        assert(u[m] == rows[m]);
                    }
                }
            }
        }
    }
}

/// Reading a key after removing a key finds nothing under the removed key and what was there
/// before under every other key.
pub proof fn lemma_lookup_removed<T: Keyed>(rows: Seq<T>, k: Seq<char>, k2: Seq<char>)
    requires
        unique_keys(rows),
    ensures
        unique_keys(removed(rows, k)),
        lookup(removed(rows, k), k2) == if k2 == k {
            None
        } else {
            lookup(rows, k2)
        },
{
    let u = removed(rows, k);
    if has_key(rows, k) {
        let i = key_index(rows, k);
        assert(rows[i].key() == k);
        assert forall|a: int, b: int| 0 <= a < u.len() && 0 <= b < u.len() && a != b
            implies #[trigger] u[a].key() != #[trigger] u[b].key() by {
            let oa = if a < i { a } else { a + 1 };
            let ob = if b < i { b } else { b + 1 };
            assert(u[a] == rows[oa]);
            assert(u[b] == rows[ob]);
        }
        if k2 == k {
            assert forall|m: int| 0 <= m < u.len() implies #[trigger] u[m].key() != k2 by {
                let om = if m < i { m } else { m + 1 };
                assert(u[m] == rows[om]);
            }
        } else if has_key(rows, k2) {
            let j = key_index(rows, k2);
            assert(j != i);
            let nj = if j < i { j } else { j - 1 };
            assert(u[nj] == rows[j]);
            lemma_key_index(u, nj);
        } else {
            assert forall|m: int| 0 <= m < u.len() implies #[trigger] u[m].key() != k2 by {
                let om = if m < i { m } else { m + 1 };
                assert(u[m] == rows[om]);
            }
        }
    }
}

/// A keyed collection of records with unique keys, in storage order.
pub struct Table<T> {
    pub rows: Vec<T>,
}

impl<T: Keyed> Table<T> {
    /// The records, in storage order.
    pub open spec fn view(&self) -> Seq<T> {
        self.rows@
    }

    /// No two records share a key.
    pub open spec fn wf(&self) -> bool {
        unique_keys(self.rows@)
    }

    /// An empty table.
    pub fn new() -> (t: Self)
        ensures
            t.rows@ == Seq::<T>::empty(),
            t.wf(),
    {
        Table { rows: Vec::new() }
    }

    /// `candidate` when no record is stored under it; otherwise `candidate` lengthened with `-`
    /// and the longest stored key, so that no record is stored under it either.
    pub fn fresh_key(&self, candidate: String) -> (r: String)
        requires
            self.wf(),
        ensures
            !has_key(self.rows@, r@),
            r@.len() >= candidate@.len(),
            !has_key(self.rows@, candidate@) ==> r == candidate,
    {
        if self.find(candidate.as_str()).is_none() {
            return candidate;
        }
        let mut longest: Vec<char> = Vec::new();
        let mut i: usize = 0;
        while i < self.rows.len()
            invariant
                0 <= i <= self.rows@.len(),
                forall|j: int| 0 <= j < i ==> #[trigger] self.rows@[j].key().len() <= longest@.len(),
            decreases self.rows.len() - i,
        {
            let k = chars_of(self.rows[i].key_string().as_str());
            if k.len() > longest.len() {
                longest = k;
            }
            i = i + 1;
        }
        let mut v = chars_of(candidate.as_str());
        v.push('-');
        push_chars(&mut v, &longest);
        proof {
            assert forall|j: int| 0 <= j < self.rows@.len() implies #[trigger] self.rows@[j].key() != v@ by {
                assert(self.rows@[j].key().len() <= longest@.len());
            }
        }
        string_of(&v)
    }

    /// The position of the record stored under `k`.
    pub fn find(&self, k: &str) -> (r: Option<usize>)
        requires
            self.wf(),
        ensures
            r is None <==> !has_key(self.rows@, k@),
            r matches Some(i) ==> i == key_index(self.rows@, k@) && i < self.rows@.len(),
    {
        let mut i: usize = 0;
        while i < self.rows.len()
            invariant
                0 <= i <= self.rows@.len(),
                self.wf(),
                forall|j: int| 0 <= j < i ==> #[trigger] self.rows@[j].key() != k@,
            decreases self.rows.len() - i,
        {
            if str_eq(self.rows[i].key_string().as_str(), k) {
                proof {
                    lemma_key_index(self.rows@, i as int);
                }
                return Some(i);
            }
            i = i + 1;
        }
        None
    }

    /// The record stored under `k`.
    pub fn get(&self, k: &str) -> (r: Option<&T>)
        requires
            self.wf(),
        ensures
            r matches Some(x) ==> lookup(self.rows@, k@) == Some(*x),
            r is None ==> lookup(self.rows@, k@) is None,
    {
        match self.find(k) {
            Some(i) => Some(&self.rows[i]),
            None => None,
        }
    }

    /// Stores `rec` under its key, replacing the record stored there.
    pub fn upsert(&mut self, rec: T)
        requires
            old(self).wf(),
        ensures
            final(self).wf(),
            final(self).rows@ == upserted(old(self).rows@, rec),
    {
        let k = rec.key_string().clone();
        match self.find(k.as_str()) {
            Some(i) => {
                self.rows.set(i, rec);
                proof {
                    let old_rows = old(self).rows@;
                    let new_rows = self.rows@;
                    assert forall|a: int, b: int|
                        0 <= a < new_rows.len() && 0 <= b < new_rows.len() && a != b
                        implies #[trigger] new_rows[a].key() != #[trigger] new_rows[b].key() by {
                        if a != i && b != i {
                            assert(new_rows[a] == old_rows[a]);
                            assert(new_rows[b] == old_rows[b]);
                        } else if a == i {
                            assert(old_rows[i as int].key() == new_rows[a].key());
                            assert(new_rows[b] == old_rows[b]);
                        } else {
                            assert(old_rows[i as int].key() == new_rows[b].key());
                            assert(new_rows[a] == old_rows[a]);
                        }
                    }
                }
            },
            None => {
                self.rows.push(rec);
                proof {
                    let old_rows = old(self).rows@;
                    let new_rows = self.rows@;
                    assert forall|a: int, b: int|
                        0 <= a < new_rows.len() && 0 <= b < new_rows.len() && a != b
                        implies #[trigger] new_rows[a].key() != #[trigger] new_rows[b].key() by {
                        if a < old_rows.len() && b < old_rows.len() {
                            assert(new_rows[a] == old_rows[a]);
                            assert(new_rows[b] == old_rows[b]);
                        } else if a < old_rows.len() {
                            assert(new_rows[a] == old_rows[a]);
                        } else {
                            assert(new_rows[b] == old_rows[b]);
                        }
                    }
                }
            },
        }
    }

    /// Replaces the record at position `i` by one stored under the same key.
    pub fn set_at(&mut self, i: usize, rec: T)
        requires
            old(self).wf(),
            i < old(self).rows@.len(),
            rec.key() == old(self).rows@[i as int].key(),
        ensures
            final(self).wf(),
            final(self).rows@ == old(self).rows@.update(i as int, rec),
    {
        self.rows.set(i, rec);
        proof {
            let old_rows = old(self).rows@;
            let new_rows = self.rows@;
            assert forall|a: int, b: int|
                0 <= a < new_rows.len() && 0 <= b < new_rows.len() && a != b
                implies #[trigger] new_rows[a].key() != #[trigger] new_rows[b].key() by {
                assert(new_rows[a].key() == old_rows[a].key());
                assert(new_rows[b].key() == old_rows[b].key());
            }
        }
    }

    /// Removes the record stored under `k`, if any.
    pub fn remove_key(&mut self, k: &str)
        requires
            old(self).wf(),
        ensures
            final(self).wf(),
            final(self).rows@ == removed(old(self).rows@, k@),
    {
        match self.find(k) {
            Some(i) => {
                self.rows.remove(i);
                proof {
                    let old_rows = old(self).rows@;
                    let new_rows = self.rows@;
                    assert forall|a: int, b: int|
                        0 <= a < new_rows.len() && 0 <= b < new_rows.len() && a != b
                        implies #[trigger] new_rows[a].key() != #[trigger] new_rows[b].key() by {
                        let oa = if a < i { a } else { a + 1 };
                        let ob = if b < i { b } else { b + 1 };
                        assert(new_rows[a] == old_rows[oa]);
                        assert(new_rows[b] == old_rows[ob]);
                    }
                }
            },
            None => {},
        }
    }

    /// Copies of all records, in storage order.
    pub fn copies(&self) -> (r: Vec<T>)
        ensures
            views(r@) == views(self.rows@),
    {
        copy_all(&self.rows)
    }
}

/// Copies of `v`'s elements.
pub fn copy_all<T: Keyed>(v: &Vec<T>) -> (r: Vec<T>)
    ensures
        views(r@) == views(v@),
{
    let mut r: Vec<T> = Vec::new();
    let mut i: usize = 0;
    while i < v.len()
        invariant
            0 <= i <= v@.len(),
            views(r@) == views(v@.take(i as int)),
        decreases v.len() - i,
    {
        let ghost before = r@;
        let x = v[i].duplicate();
        r.push(x);
        proof {
            assert(views(before).len() == before.len());
            assert forall|k: int| 0 <= k < i + 1 implies #[trigger] views(r@)[k] == views(v@.take(i + 1))[k] by {
                if k < i {
                    assert(views(before)[k] == views(v@.take(i as int))[k]);
                    assert(r@[k] == before[k]);
                } else {
                    assert(r@[k] == x);
                }
            }
            assert(views(r@) =~= views(v@.take(i + 1)));
        }
        i = i + 1;
    }
    assert(v@.take(v@.len() as int) == v@);
    r
}

/// Exact copies of a list of strings.
pub fn copy_strings(v: &Vec<String>) -> (r: Vec<String>)
    ensures
        r@ == v@,
{
    let mut r: Vec<String> = Vec::new();
    let mut i: usize = 0;
    while i < v.len()
        invariant
            0 <= i <= v@.len(),
            r@ == v@.take(i as int),
        decreases v.len() - i,
    {
        r.push(v[i].clone());
        i = i + 1;
        assert(r@ == v@.take(i as int));
    }
    assert(v@.take(v@.len() as int) == v@);
    r
}

/// An exact copy of an optional string.
pub fn copy_opt(v: &Option<String>) -> (r: Option<String>)
    ensures
        r == *v,
{
    match v {
        Some(s) => Some(s.clone()),
        None => None,
    }
}

} // verus!
