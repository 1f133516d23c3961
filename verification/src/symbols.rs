//! Symbol tables: finite maps from names to texts, held in insertion order.
use vstd::prelude::*;
use crate::text::str_eq;

verus! {

/// The text bound to `name`: the first binding of it in the table.
pub open spec fn lookup(t: Seq<(Seq<char>, Seq<char>)>, name: Seq<char>) -> Option<Seq<char>>
    decreases t.len(),
{
    if t.len() == 0 {
        None
    } else if t[0].0 == name {
        Some(t[0].1)
    } else {
        lookup(t.drop_first(), name)
    }
}

/// The table after binding `name` to `value`: the first binding of the name takes the
/// new text, or a binding is added at the end.
pub open spec fn assign(t: Seq<(Seq<char>, Seq<char>)>, name: Seq<char>, value: Seq<char>) -> Seq<(Seq<char>, Seq<char>)>
    decreases t.len(),
{
    if t.len() == 0 {
        seq![(name, value)]
    } else if t[0].0 == name {
        t.update(0, (name, value))
    } else {
        seq![t[0]] + assign(t.drop_first(), name, value)
    }
}

/// After binding a name, looking it up gives the new text, and other names keep theirs.
pub proof fn lemma_lookup_assign(t: Seq<(Seq<char>, Seq<char>)>, name: Seq<char>, value: Seq<char>, other: Seq<char>)
    ensures
        lookup(assign(t, name, value), other) == (if other == name { Some(value) } else { lookup(t, other) }),
    decreases t.len(),
{
    reveal_with_fuel(lookup, 2);
    if t.len() > 0 {
        if t[0].0 == name {
            assert(assign(t, name, value).drop_first() =~= t.drop_first());
        } else {
            lemma_lookup_assign(t.drop_first(), name, value, other);
            assert((seq![t[0]] + assign(t.drop_first(), name, value)).drop_first() =~= assign(t.drop_first(), name, value));
        }
    } else {
        assert(seq![(name, value)].drop_first() =~= Seq::<(Seq<char>, Seq<char>)>::empty());
    }
}

proof fn lemma_assign_after_prefix(t: Seq<(Seq<char>, Seq<char>)>, name: Seq<char>, value: Seq<char>, i: int)
    requires
        0 <= i <= t.len(),
        forall|k: int| 0 <= k < i ==> t[k].0 != name,
    ensures
        assign(t, name, value) == t.take(i) + assign(t.skip(i), name, value),
    decreases i,
{
    if i > 0 {
        lemma_assign_after_prefix(t.drop_first(), name, value, i - 1);
        assert(t.drop_first().skip(i - 1) =~= t.skip(i));
        assert(t.take(i) =~= seq![t[0]] + t.drop_first().take(i - 1));
    } else {
        assert(t.skip(0) =~= t);
    }
}

/// A table of bindings from names to texts.
pub struct SymbolTable {
    entries: Vec<(String, String)>,
}

impl View for SymbolTable {
    type V = Seq<(Seq<char>, Seq<char>)>;

    closed spec fn view(&self) -> Seq<(Seq<char>, Seq<char>)> {
        Seq::new(self.entries@.len(), |i: int| (self.entries@[i].0@, self.entries@[i].1@))
    }
}

proof fn lemma_lookup_push(t: Seq<(Seq<char>, Seq<char>)>, k: Seq<char>, v: Seq<char>, name: Seq<char>)
    ensures
        lookup(t.push((k, v)), name) == (if lookup(t, name) is Some {
            lookup(t, name)
        } else if k == name {
            Some(v)
        } else {
            None
        }),
    decreases t.len(),
{
    reveal_with_fuel(lookup, 2);
    if t.len() > 0 {
        assert(t.push((k, v))[0] == t[0]);
        assert(t.push((k, v)).drop_first() =~= t.drop_first().push((k, v)));
        lemma_lookup_push(t.drop_first(), k, v, name);
    } else {
        assert(t.push((k, v))[0] == (k, v));
        assert(t.push((k, v)).drop_first() =~= Seq::<(Seq<char>, Seq<char>)>::empty());
    }
}

impl SymbolTable {
    /// An empty table.
    pub fn new() -> (t: SymbolTable)
        ensures
            t@ == Seq::<(Seq<char>, Seq<char>)>::empty(),
    {
        let t = SymbolTable { entries: Vec::new() };
        assert(t@ =~= Seq::<(Seq<char>, Seq<char>)>::empty());
        t
    }

    /// The number of bindings.
    pub fn len(&self) -> (n: usize)
        ensures
            n == self@.len(),
    {
        self.entries.len()
    }

    /// The text bound to `name`, if any.
    pub fn get(&self, name: &str) -> (r: Option<String>)
        ensures
            match r {
                Some(s) => lookup(self@, name@) == Some(s@),
                None => lookup(self@, name@) is None,
            },
    {
        let mut i: usize = 0;
        assert(self@.skip(0) =~= self@);
        while i < self.entries.len()
            invariant
                0 <= i <= self.entries@.len(),
                lookup(self@, name@) == lookup(self@.skip(i as int), name@),
            decreases self.entries.len() - i,
        {
            assert(self@.skip(i as int)[0] == (self.entries@[i as int].0@, self.entries@[i as int].1@));
            if str_eq(self.entries[i].0.as_str(), name) {
                return Some(self.entries[i].1.clone());
            }
            assert(self@.skip(i as int).drop_first() =~= self@.skip(i as int + 1));
            i += 1;
        }
        None
    }

    /// Binds `name` to `value` after the existing bindings; an earlier binding of the
    /// same name keeps its text.
    pub fn insert(&mut self, name: String, value: String)
        ensures
            final(self)@ == old(self)@.push((name@, value@)),
    {
        self.entries.push((name, value));
        assert(self@ =~= old(self)@.push((name@, value@)));
    }

    /// Binds `name` to `value`, replacing the text of an existing binding.
    pub fn set(&mut self, name: String, value: String)
        ensures
            final(self)@ == assign(old(self)@, name@, value@),
    {
        let mut i: usize = 0;
        while i < self.entries.len()
            invariant
                0 <= i <= self.entries@.len(),
                self.entries@ == old(self).entries@,
                forall|k: int| 0 <= k < i ==> self@[k].0 != name@,
            decreases self.entries.len() - i,
        {
            if str_eq(self.entries[i].0.as_str(), name.as_str()) {
                proof {
                    lemma_assign_after_prefix(self@, name@, value@, i as int);
                    assert(self@.skip(i as int)[0] == self@[i as int]);
                }
                let ghost before_view = self@;
                self.entries.set(i, (name, value));
                proof {
                    assert(self@ =~= before_view.take(i as int) + before_view.skip(i as int).update(0, (name@, value@)));
                }
                return;
            }
            i += 1;
        }
        proof {
            lemma_assign_after_prefix(self@, name@, value@, i as int);
            assert(self@.skip(i as int) =~= Seq::<(Seq<char>, Seq<char>)>::empty());
        }
        let ghost before_view = self@;
        self.entries.push((name, value));
        assert(self@ =~= before_view.take(i as int) + seq![(name@, value@)]);
    }

    /// Looking a name up after an insertion.
    pub proof fn lemma_lookup_after_insert(
        t: Seq<(Seq<char>, Seq<char>)>,
        k: Seq<char>,
        v: Seq<char>,
        name: Seq<char>,
    )
        ensures
            lookup(t.push((k, v)), name) == (if lookup(t, name) is Some {
                lookup(t, name)
            } else if k == name {
                Some(v)
            } else {
                None
            }),
    {
        lemma_lookup_push(t, k, v, name);
    }
}

} // verus!
