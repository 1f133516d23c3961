//! Diagnostics kept in order of source position, at most one per position.
use vstd::prelude::*;

verus! {

/// Position `a` comes before position `b`: an earlier line, or the same line and an
/// earlier column.
pub open spec fn before(a: (usize, usize), b: (usize, usize)) -> bool {
    a.0 < b.0 || (a.0 == b.0 && a.1 < b.1)
}

/// The entries are in strictly increasing order of position.
pub open spec fn ordered<V>(s: Seq<(usize, usize, V)>) -> bool {
    forall|i: int, j: int| 0 <= i < j < s.len() ==> before((s[i].0, s[i].1), (s[j].0, s[j].1))
}

/// The entries after adding one: unchanged when an entry with the same position is
/// present, else the new entry placed after those that come before it.
pub open spec fn insert_positioned<V>(s: Seq<(usize, usize, V)>, e: (usize, usize, V)) -> Seq<(usize, usize, V)>
    decreases s.len(),
{
    if s.len() == 0 {
        seq![e]
    } else if s[0].0 == e.0 && s[0].1 == e.1 {
        s
    } else if before((e.0, e.1), (s[0].0, s[0].1)) {
        seq![e] + s
    } else {
        seq![s[0]] + insert_positioned(s.drop_first(), e)
    }
}

/// The entries after adding each of `es` in turn.
pub open spec fn insert_all<V>(s: Seq<(usize, usize, V)>, es: Seq<(usize, usize, V)>) -> Seq<(usize, usize, V)>
    decreases es.len(),
{
    if es.len() == 0 {
        s
    } else {
        insert_positioned(insert_all(s, es.drop_last()), es.last())
    }
}

proof fn lemma_insert_not_empty<V>(s: Seq<(usize, usize, V)>, e: (usize, usize, V))
    ensures
        insert_positioned(s, e).len() > 0,
        insert_positioned(s, e).len() >= s.len(),
    decreases s.len(),
{
    if s.len() > 0 {
        lemma_insert_not_empty(s.drop_first(), e);
    }
}

/// Starting empty, the entries after some additions are empty exactly when there were
/// none: an added entry is kept, or one at its position already is.
pub proof fn lemma_insert_all_empty<V>(es: Seq<(usize, usize, V)>)
    ensures
        (insert_all(Seq::<(usize, usize, V)>::empty(), es).len() > 0) == (es.len() > 0),
{
    if es.len() > 0 {
        lemma_insert_not_empty(insert_all(Seq::<(usize, usize, V)>::empty(), es.drop_last()), es.last());
    }
}

/// Adding an entry keeps the entries in order.
pub proof fn lemma_insert_keeps_order<V>(s: Seq<(usize, usize, V)>, e: (usize, usize, V))
    requires
        ordered(s),
    ensures
        ordered(insert_positioned(s, e)),
        insert_positioned(s, e).len() >= s.len(),
        insert_positioned(s, e).len() <= s.len() + 1,
        forall|k: int|
            0 <= k < insert_positioned(s, e).len() ==> #[trigger] insert_positioned(s, e)[k] == e
                || s.contains(insert_positioned(s, e)[k]),
    decreases s.len(),
{
    if s.len() > 0 {
        if !(s[0].0 == e.0 && s[0].1 == e.1) && !before((e.0, e.1), (s[0].0, s[0].1)) {
            let rest = s.drop_first();
            assert(ordered(rest));
            lemma_insert_keeps_order(rest, e);
            let r = insert_positioned(rest, e);
            assert forall|k: int| 0 <= k < r.len() implies before((s[0].0, s[0].1), (#[trigger] r[k].0, r[k].1)) by {
                if r[k] != e {
                    let j = choose|j: int| 0 <= j < rest.len() && rest[j] == r[k];
                    assert(s[j + 1] == rest[j]);
                }
            }
            assert forall|k: int| 0 <= k < r.len() implies #[trigger] r[k] == e || s.contains(r[k]) by {
                if r[k] != e {
                    let j = choose|j: int| 0 <= j < rest.len() && rest[j] == r[k];
                    assert(s[j + 1] == rest[j]);
                }
            }
            let full = seq![s[0]] + r;
            assert forall|a: int, b: int| 0 <= a < b < full.len() implies before((full[a].0, full[a].1), (full[b].0, full[b].1)) by {
                if a == 0 {
                    assert(full[b] == r[b - 1]);
                } else {
                    assert(full[a] == r[a - 1]);
                    assert(full[b] == r[b - 1]);
                }
            }
            assert forall|k: int| 0 <= k < full.len() implies #[trigger] full[k] == e || s.contains(full[k]) by {
                if k == 0 {
                    assert(s[0] == full[0]);
                } else {
                    assert(full[k] == r[k - 1]);
                }
            }
        } else if before((e.0, e.1), (s[0].0, s[0].1)) {
            let full = seq![e] + s;
            assert forall|a: int, b: int| 0 <= a < b < full.len() implies before((full[a].0, full[a].1), (full[b].0, full[b].1)) by {
                if a == 0 {
                    assert(full[b] == s[b - 1]);
                    if b > 1 {
                        assert(before((s[0].0, s[0].1), (s[b - 1].0, s[b - 1].1)));
                    }
                } else {
                    assert(full[a] == s[a - 1]);
                    assert(full[b] == s[b - 1]);
                }
            }
            assert forall|k: int| 0 <= k < full.len() implies #[trigger] full[k] == e || s.contains(full[k]) by {
                if k > 0 {
                    assert(full[k] == s[k - 1]);
                }
            }
        }
    }
}

proof fn lemma_insert_after_prefix<V>(s: Seq<(usize, usize, V)>, e: (usize, usize, V), i: int)
    requires
        0 <= i <= s.len(),
        forall|k: int| 0 <= k < i ==> before((s[k].0, s[k].1), (e.0, e.1)),
    ensures
        insert_positioned(s, e) == s.take(i) + insert_positioned(s.skip(i), e),
    decreases i,
{
    if i > 0 {
        assert(!(s[0].0 == e.0 && s[0].1 == e.1));
        lemma_insert_after_prefix(s.drop_first(), e, i - 1);
        assert(s.drop_first().skip(i - 1) =~= s.skip(i));
        assert(s.take(i) =~= seq![s[0]] + s.drop_first().take(i - 1));
    } else {
        assert(s.skip(0) =~= s);
    }
}

/// A list of entries in order of position, at most one per position.
pub struct PositionedList<T> {
    items: Vec<(usize, usize, T)>,
}

impl<T> PositionedList<T> {
    /// The entries, in order.
    pub closed spec fn entries(&self) -> Seq<(usize, usize, T)> {
        self.items@
    }

    /// An empty list.
    pub fn new() -> (r: PositionedList<T>)
        ensures
            r.entries() == Seq::<(usize, usize, T)>::empty(),
    {
        PositionedList { items: Vec::new() }
    }

    /// Whether the list is empty.
    pub fn is_empty(&self) -> (r: bool)
        ensures
            r == (self.entries().len() == 0),
    {
        self.items.len() == 0
    }

    /// The number of entries.
    pub fn len(&self) -> (r: usize)
        ensures
            r == self.entries().len(),
    {
        self.items.len()
    }

    /// The entry at index `i`.
    pub fn get(&self, i: usize) -> (r: &(usize, usize, T))
        requires
            i < self.entries().len(),
        ensures
            *r == self.entries()[i as int],
    {
        &self.items[i]
    }

    /// Adds an entry unless one with the same position is present.
    pub fn insert(&mut self, line: usize, col: usize, value: T)
        ensures
            final(self).entries() == insert_positioned(old(self).entries(), (line, col, value)),
    {
        let ghost e = (line, col, value);
        assert(e.0 == line && e.1 == col);
        let mut i: usize = 0;
        while i < self.items.len()
            invariant
                0 <= i <= self.items@.len(),
                self.items@ == old(self).items@,
                e == (line, col, value),
                forall|k: int| 0 <= k < i ==> before((self.items@[k].0, self.items@[k].1), (line, col)),
            ensures
                0 <= i <= self.items@.len(),
                self.items@ == old(self).items@,
                forall|k: int| 0 <= k < i ==> before((self.items@[k].0, self.items@[k].1), (line, col)),
                i < self.items@.len() ==> before((line, col), (self.items@[i as int].0, self.items@[i as int].1)),
            decreases self.items.len() - i,
        {
            let (l, c) = (self.items[i].0, self.items[i].1);
            if l == line && c == col {
                proof {
                    lemma_insert_after_prefix(self.items@, e, i as int);
                    assert(self.items@.skip(i as int)[0] == self.items@[i as int]);
                    assert(insert_positioned(self.items@.skip(i as int), e) == self.items@.skip(i as int));
                    assert(self.items@.take(i as int) + self.items@.skip(i as int) =~= self.items@);
                }
                return;
            }
            if line < l || (line == l && col < c) {
                break;
            }
            i += 1;
        }
        proof {
            lemma_insert_after_prefix(self.items@, e, i as int);
        }
        let ghost before_items = self.items@;
        self.items.insert(i, (line, col, value));
        proof {
            if i < before_items.len() {
                assert(before_items.skip(i as int)[0] == before_items[i as int]);
                assert(insert_positioned(before_items.skip(i as int), e) == seq![e] + before_items.skip(i as int));
            } else {
                assert(before_items.skip(i as int) =~= Seq::<(usize, usize, T)>::empty());
            }
            assert(self.items@ =~= before_items.take(i as int) + insert_positioned(before_items.skip(i as int), e));
        }
    }
}

} // verus!
