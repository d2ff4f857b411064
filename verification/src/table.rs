//! A small table of values by name, in the order in which they were added.

use vstd::prelude::*;

use crate::text::same;

verus! {

/// Values by name. No name occurs twice.
#[derive(Clone, Debug)]
pub struct Table<V> {
    pub entries: Vec<(String, V)>,
}

/// Whether an entry has a name.
pub open spec fn named<V>(entry: (String, V), name: Seq<char>) -> bool {
    entry.0@ == name
}

/// Where the entry with a name stands, or the number of entries where none does.
pub open spec fn place<V>(entries: Seq<(String, V)>, name: Seq<char>) -> nat
    decreases entries.len(),
{
    if entries.len() == 0 || named(entries[0], name) {
        0
    } else {
        1 + place(entries.drop_first(), name)
    }
}

/// The value of the first entry with a name.
pub open spec fn lookup<V>(entries: Seq<(String, V)>, name: Seq<char>) -> Option<V> {
    let at = place(entries, name);
    if at < entries.len() {
        Some(entries[at as int].1)
    } else {
        None
    }
}

/// `place` is the first index with the name.
pub proof fn lemma_place<V>(entries: Seq<(String, V)>, name: Seq<char>, at: int)
    requires
        0 <= at <= entries.len(),
        forall|i: int| 0 <= i < at ==> !named(#[trigger] entries[i], name),
        at < entries.len() ==> named(entries[at], name),
    ensures
        place(entries, name) == at,
    decreases entries.len(),
{
    if at > 0 {
        assert(!named(entries[0], name));
        let rest = entries.drop_first();
        assert forall|i: int| 0 <= i < at - 1 implies !named(#[trigger] rest[i], name) by {
            assert(rest[i] == entries[i + 1]);
        }
        lemma_place(rest, name, at - 1);
    }
}

/// Every index before `place` has another name.
pub proof fn lemma_before_place<V>(entries: Seq<(String, V)>, name: Seq<char>)
    ensures
        place(entries, name) <= entries.len(),
        forall|i: int|
            0 <= i < place(entries, name) ==> !named(#[trigger] entries[i], name),
        place(entries, name) < entries.len() ==> named(
            entries[place(entries, name) as int],
            name,
        ),
    decreases entries.len(),
{
    if entries.len() > 0 && !named(entries[0], name) {
        let rest = entries.drop_first();
        lemma_before_place(rest, name);
        assert forall|i: int| 0 <= i < place(entries, name) implies !named(
            #[trigger] entries[i],
            name,
        ) by {
            if i > 0 {
                assert(rest[i - 1] == entries[i]);
            }
        }
    }
}

impl<V> Table<V> {
    /// No name occurs twice.
    pub open spec fn wf(self) -> bool {
        forall|i: int, j: int|
            0 <= i < j < self.entries@.len() ==> (#[trigger] self.entries@[i]).0@ != (
            #[trigger] self.entries@[j]).0@
    }

    /// The value with a name.
    pub open spec fn value(self, name: Seq<char>) -> Option<V> {
        lookup(self.entries@, name)
    }

    /// A table without entries.
    pub fn new() -> (out: Self)
        ensures
            out.wf(),
            out.entries@.len() == 0,
            forall|name: Seq<char>| #[trigger] out.value(name) is None,
    {
        Table { entries: Vec::new() }
    }

    /// Where a name stands, or the number of entries where it does not.
    pub fn find(&self, name: &str) -> (at: usize)
        ensures
            at == place(self.entries@, name@),
            at <= self.entries@.len(),
    {
        let mut at: usize = 0;
        while at < self.entries.len() && !same(self.entries[at].0.as_str(), name)
            invariant
                at <= self.entries@.len(),
                forall|i: int| 0 <= i < at ==> !named(#[trigger] self.entries@[i], name@),
            decreases self.entries@.len() - at,
        {
            at = at + 1;
        }
        proof {
            lemma_place(self.entries@, name@, at as int);
        }
        at
    }

    /// The value with a name.
    pub fn get(&self, name: &str) -> (out: Option<&V>)
        ensures
            match self.value(name@) {
                Some(value) => out == Some(&value),
                None => out is None,
            },
    {
        let at = self.find(name);
        if at < self.entries.len() {
            Some(&self.entries[at].1)
        } else {
            None
        }
    }

    /// Whether a name has a value.
    pub fn contains_key(&self, name: &str) -> (out: bool)
        ensures
            out == (self.value(name@) is Some),
    {
        self.find(name) < self.entries.len()
    }

    /// Gives a name a value, in place of the one it had.
    pub fn insert(&mut self, name: String, value: V)
        requires
            old(self).wf(),
        ensures
            final(self).wf(),
            final(self).entries@ == (if place(old(self).entries@, name@) < old(
                self,
            ).entries@.len() {
                old(self).entries@.update(
                    place(old(self).entries@, name@) as int,
                    (name, value),
                )
            } else {
                old(self).entries@.push((name, value))
            }),
            final(self).value(name@) == Some(value),
            forall|other: Seq<char>|
                other != name@ ==> #[trigger] final(self).value(other) == old(self).value(other),
    {
        let at = self.find(name.as_str());
        let ghost before = self.entries@;
        let ghost key = name@;
        proof {
            lemma_before_place(before, key);
        }
        if at < self.entries.len() {
            self.entries.set(at, (name, value));
        } else {
            self.entries.push((name, value));
        }
        proof {
            let after = self.entries@;
            lemma_place(after, key, at as int);
            assert forall|other: Seq<char>| other != key implies #[trigger] lookup(after, other)
                == lookup(before, other) by {
                lemma_before_place(before, other);
                let p = place(before, other) as int;
                if p < before.len() {
                    assert forall|i: int| 0 <= i < p implies !named(#[trigger] after[i], other) by {
                        assert(!named(before[i], other));
                    }
                    assert(named(after[p], other));
                    lemma_place(after, other, p);
                } else {
                    assert forall|i: int| 0 <= i < after.len() implies !named(
                        #[trigger] after[i],
                        other,
                    ) by {
                        if i < before.len() {
                            assert(!named(before[i], other));
                        }
                    }
                    lemma_place(after, other, after.len() as int);
                }
            }
        }
    }

    /// Takes a name out.
    pub fn remove(&mut self, name: &str) -> (out: Option<V>)
        requires
            old(self).wf(),
        ensures
            final(self).wf(),
            out == old(self).value(name@),
            final(self).entries@ == (if place(old(self).entries@, name@) < old(
                self,
            ).entries@.len() {
                old(self).entries@.remove(place(old(self).entries@, name@) as int)
            } else {
                old(self).entries@
            }),
            final(self).value(name@) is None,
    {
        let at = self.find(name);
        let ghost before = self.entries@;
        proof {
            lemma_before_place(before, name@);
        }
        if at < self.entries.len() {
            let (_, value) = self.entries.remove(at);
            proof {
                let after = self.entries@;
                assert forall|i: int| 0 <= i < after.len() implies !named(
                    #[trigger] after[i],
                    name@,
                ) by {
                    if i < at {
                        assert(after[i] == before[i]);
                        assert(!named(before[i], name@));
                    } else {
                        assert(after[i] == before[i + 1]);
                        assert(before[at as int].0@ != before[i + 1].0@);
                    }
                }
                lemma_place(after, name@, after.len() as int);
                assert forall|i: int, j: int| 0 <= i < j < after.len() implies (
                #[trigger] after[i]).0@ != (#[trigger] after[j]).0@ by {
                    let a = if i < at {
                        i
                    } else {
                        i + 1
                    };
                    let b = if j < at {
                        j
                    } else {
                        j + 1
                    };
                    assert(before[a].0@ != before[b].0@);
                }
            }
            Some(value)
        } else {
            None
        }
    }
}

/// What a name has is the value of the first entry with that name, and it has one
/// exactly where there is such an entry.
pub proof fn law_a_name_has_its_entry<V>(table: Table<V>, name: Seq<char>)
    ensures
        match table.value(name) {
            Some(value) => exists|i: int|
                0 <= i < table.entries@.len() && (#[trigger] table.entries@[i]).0@ == name
                    && table.entries@[i].1 == value && forall|j: int|
                    0 <= j < i ==> (#[trigger] table.entries@[j]).0@ != name,
            None => forall|i: int|
                0 <= i < table.entries@.len() ==> (#[trigger] table.entries@[i]).0@ != name,
        },
        table.wf() ==> forall|i: int|
            0 <= i < table.entries@.len() ==> table.value((#[trigger] table.entries@[i]).0@)
                == Some(table.entries@[i].1),
{
    let entries = table.entries@;
    lemma_before_place(entries, name);
    let at = place(entries, name) as int;
    if at < entries.len() {
        assert(entries[at].0@ == name);
        assert forall|j: int| 0 <= j < at implies (#[trigger] entries[j]).0@ != name by {
            assert(!named(entries[j], name));
        }
    } else {
        assert forall|i: int| 0 <= i < entries.len() implies (#[trigger] entries[i]).0@ != name by {
            assert(!named(entries[i], name));
        }
    }
    if table.wf() {
        assert forall|i: int| 0 <= i < entries.len() implies table.value(
            (#[trigger] entries[i]).0@,
        ) == Some(entries[i].1) by {
            lemma_place(entries, entries[i].0@, i);
        }
    }
}

}
