//! Values by device, in the order of the devices' ids.

use vstd::prelude::*;

use crate::net::identity::DeviceId;

verus! {

/// Values by device. No device occurs twice, and they stand in the order of
/// their ids.
#[derive(Clone, Debug)]
pub struct Roster<V> {
    pub entries: Vec<(DeviceId, V)>,
}

/// The value of a device.
pub open spec fn entry<V>(entries: Seq<(DeviceId, V)>, id: DeviceId) -> Option<V>
    decreases entries.len(),
{
    if entries.len() == 0 {
        None
    } else if entries.last().0 == id {
        Some(entries.last().1)
    } else {
        entry(entries.drop_last(), id)
    }
}

/// Whether devices stand in the order of their ids, none twice.
pub open spec fn ascending<V>(entries: Seq<(DeviceId, V)>) -> bool {
    forall|i: int, j: int|
        0 <= i < j < entries.len() ==> (#[trigger] entries[i]).0.number < (
        #[trigger] entries[j]).0.number
}

/// The value at a place is that of the device there.
pub proof fn lemma_entry_at<V>(entries: Seq<(DeviceId, V)>, i: int)
    requires
        ascending(entries),
        0 <= i < entries.len(),
    ensures
        entry(entries, entries[i].0) == Some(entries[i].1),
    decreases entries.len(),
{
    if i < entries.len() - 1 {
        assert(entries[i].0.number < entries[entries.len() - 1].0.number);
        assert(entries.drop_last()[i] == entries[i]);
        lemma_entry_at(entries.drop_last(), i);
    }
}

/// A device that stands nowhere has no value.
pub proof fn lemma_no_entry<V>(entries: Seq<(DeviceId, V)>, id: DeviceId)
    requires
        forall|i: int| 0 <= i < entries.len() ==> (#[trigger] entries[i]).0 != id,
    ensures
        entry(entries, id) is None,
    decreases entries.len(),
{
    if entries.len() > 0 {
        assert(entries[entries.len() - 1].0 != id);
        let rest = entries.drop_last();
        assert forall|i: int| 0 <= i < rest.len() implies (#[trigger] rest[i]).0 != id by {
            assert(rest[i] == entries[i]);
        }
        lemma_no_entry(rest, id);
    }
}

/// A device with a value stands somewhere.
pub proof fn lemma_entry_found<V>(entries: Seq<(DeviceId, V)>, id: DeviceId)
    ensures
        entry(entries, id) matches Some(v) ==> exists|i: int|
            0 <= i < entries.len() && #[trigger] entries[i] == (id, v),
    decreases entries.len(),
{
    if entries.len() > 0 {
        if entries.last().0 == id {
            assert(entries[entries.len() - 1] == (id, entries.last().1));
        } else {
            lemma_entry_found(entries.drop_last(), id);
            if let Some(v) = entry(entries.drop_last(), id) {
                let i = choose|i: int|
                    0 <= i < entries.drop_last().len() && #[trigger] entries.drop_last()[i] == (
                        id,
                        v,
                    );
                assert(entries[i] == (id, v));
            }
        }
    }
}

proof fn lemma_same_entry<V>(before: Seq<(DeviceId, V)>, after: Seq<(DeviceId, V)>, id: DeviceId)
    requires
        ascending(before),
        ascending(after),
        forall|i: int|
            0 <= i < before.len() && (#[trigger] before[i]).0 == id ==> exists|j: int|
                0 <= j < after.len() && #[trigger] after[j] == before[i],
        forall|j: int|
            0 <= j < after.len() && (#[trigger] after[j]).0 == id ==> exists|i: int|
                0 <= i < before.len() && #[trigger] before[i] == after[j],
    ensures
        entry(before, id) == entry(after, id),
{
    lemma_entry_found(before, id);
    lemma_entry_found(after, id);
    if let Some(v) = entry(before, id) {
        let i = choose|i: int| 0 <= i < before.len() && #[trigger] before[i] == (id, v);
        let j = choose|j: int| 0 <= j < after.len() && #[trigger] after[j] == before[i];
        lemma_entry_at(after, j);
    } else if let Some(v) = entry(after, id) {
        let j = choose|j: int| 0 <= j < after.len() && #[trigger] after[j] == (id, v);
        let i = choose|i: int| 0 <= i < before.len() && #[trigger] before[i] == after[j];
        lemma_entry_at(before, i);
    }
}

impl<V> Roster<V> {
    /// In the order of the ids, no device twice.
    pub open spec fn wf(self) -> bool {
        ascending(self.entries@)
    }

    /// The value of a device.
    pub open spec fn value(self, id: DeviceId) -> Option<V> {
        entry(self.entries@, id)
    }

    /// No devices.
    pub fn new() -> (out: Self)
        ensures
            out.wf(),
            out.entries@.len() == 0,
            forall|id: DeviceId| #[trigger] out.value(id) is None,
    {
        Roster { entries: Vec::new() }
    }

    /// How many devices there are.
    pub fn len(&self) -> (out: usize)
        ensures
            out == self.entries@.len(),
    {
        self.entries.len()
    }

    fn position(&self, id: DeviceId) -> (at: usize)
        requires
            self.wf(),
        ensures
            at <= self.entries@.len(),
            forall|i: int| 0 <= i < at ==> (#[trigger] self.entries@[i]).0.number < id.number,
            forall|i: int|
                at <= i < self.entries@.len() ==> (#[trigger] self.entries@[i]).0.number
                    >= id.number,
    {
        let mut at: usize = 0;
        while at < self.entries.len() && self.entries[at].0.number < id.number
            invariant
                self.wf(),
                at <= self.entries@.len(),
                forall|i: int| 0 <= i < at ==> (#[trigger] self.entries@[i]).0.number < id.number,
            decreases self.entries@.len() - at,
        {
            at = at + 1;
        }
        at
    }

    /// Where a device stands.
    pub fn find(&self, id: DeviceId) -> (out: Option<usize>)
        requires
            self.wf(),
        ensures
            match out {
                Some(at) => {
                    &&& at < self.entries@.len()
                    &&& self.entries@[at as int].0 == id
                    &&& self.value(id) == Some(self.entries@[at as int].1)
                },
                None => self.value(id) is None,
            },
    {
        let at = self.position(id);
        if at < self.entries.len() && self.entries[at].0.number == id.number {
            proof {
                lemma_entry_at(self.entries@, at as int);
            }
            Some(at)
        } else {
            proof {
                assert forall|i: int| 0 <= i < self.entries@.len() implies (
                #[trigger] self.entries@[i]).0 != id by {
                    if i > at {
                        assert(self.entries@[at as int].0.number < self.entries@[i].0.number);
                    }
                }
                lemma_no_entry(self.entries@, id);
            }
            None
        }
    }

    /// The value of a device.
    pub fn get(&self, id: DeviceId) -> (out: Option<&V>)
        requires
            self.wf(),
        ensures
            match self.value(id) {
                Some(value) => out == Some(&value),
                None => out is None,
            },
    {
        match self.find(id) {
            Some(at) => Some(&self.entries[at].1),
            None => None,
        }
    }

    /// Whether a device has a value.
    pub fn contains(&self, id: DeviceId) -> (out: bool)
        requires
            self.wf(),
        ensures
            out == (self.value(id) is Some),
    {
        self.find(id).is_some()
    }

    /// Gives a device a value, in place of the one it had.
    pub fn insert(&mut self, id: DeviceId, value: V)
        requires
            old(self).wf(),
        ensures
            final(self).wf(),
            final(self).value(id) == Some(value),
            forall|other: DeviceId|
                other != id ==> #[trigger] final(self).value(other) == old(self).value(other),
            final(self).entries@.len() == old(self).entries@.len() + (if old(self).value(
                id,
            ) is Some {
                0int
            } else {
                1int
            }),
    {
        let ghost before = self.entries@;
        let found = self.find(id);
        let at = self.position(id);
        if let Some(there) = found {
            proof {
                if there < at {
                    assert(before[there as int].0.number < id.number);
                } else if there > at {
                    assert(before[at as int].0.number < before[there as int].0.number);
                }
                assert(there == at);
            }
            self.entries.set(at, (id, value));
            proof {
                let after = self.entries@;
                assert forall|i: int, j: int| 0 <= i < j < after.len() implies (
                #[trigger] after[i]).0.number < (#[trigger] after[j]).0.number by {
                    assert(before[i].0.number < before[j].0.number);
                }
                lemma_entry_at(after, at as int);
                assert forall|other: DeviceId| other != id implies #[trigger] entry(after, other)
                    == entry(before, other) by {
                    assert forall|i: int|
                        0 <= i < before.len() && (#[trigger] before[i]).0
                            == other implies exists|j: int|
                        0 <= j < after.len() && #[trigger] after[j] == before[i] by {
                        assert(after[i] == before[i]);
                    }
                    assert forall|j: int|
                        0 <= j < after.len() && (#[trigger] after[j]).0
                            == other implies exists|i: int|
                        0 <= i < before.len() && #[trigger] before[i] == after[j] by {
                        assert(after[j] == before[j]);
                    }
                    lemma_same_entry(before, after, other);
                }
            }
        } else {
            proof {
                if at < before.len() && before[at as int].0.number == id.number {
                    lemma_entry_at(before, at as int);
                }
            }
            self.entries.insert(at, (id, value));
            proof {
                let after = self.entries@;
                assert forall|i: int, j: int| 0 <= i < j < after.len() implies (
                #[trigger] after[i]).0.number < (#[trigger] after[j]).0.number by {
                    if i != at && j != at {
                        let a = if i < at {
                            i
                        } else {
                            i - 1
                        };
                        let b = if j < at {
                            j
                        } else {
                            j - 1
                        };
                        assert(before[a].0.number < before[b].0.number);
                    } else if i == at {
                        assert(before[j - 1].0.number >= id.number);
                        assert(before[at as int].0.number != id.number);
                        if j - 1 > at {
                            assert(before[at as int].0.number < before[j - 1].0.number);
                        }
                    } else {
                        assert(before[i].0.number < id.number);
                    }
                }
                assert(after[at as int] == (id, value));
                lemma_entry_at(after, at as int);
                assert forall|other: DeviceId| other != id implies #[trigger] entry(after, other)
                    == entry(before, other) by {
                    assert forall|i: int|
                        0 <= i < before.len() && (#[trigger] before[i]).0
                            == other implies exists|j: int|
                        0 <= j < after.len() && #[trigger] after[j] == before[i] by {
                        let j = if i < at {
                            i
                        } else {
                            i + 1
                        };
                        assert(after[j] == before[i]);
                    }
                    assert forall|j: int|
                        0 <= j < after.len() && (#[trigger] after[j]).0
                            == other implies exists|i: int|
                        0 <= i < before.len() && #[trigger] before[i] == after[j] by {
                        let i = if j < at {
                            j
                        } else {
                            j - 1
                        };
                        assert(before[i] == after[j]);
                    }
                    lemma_same_entry(before, after, other);
                }
            }
        }
    }

    /// Takes a device out, with its value.
    pub fn remove(&mut self, id: DeviceId) -> (out: Option<V>)
        requires
            old(self).wf(),
        ensures
            final(self).wf(),
            out == old(self).value(id),
            final(self).value(id) is None,
            forall|other: DeviceId|
                other != id ==> #[trigger] final(self).value(other) == old(self).value(other),
    {
        let ghost before = self.entries@;
        match self.find(id) {
            None => None,
            Some(at) => {
                let (_, value) = self.entries.remove(at);
                proof {
                    let after = self.entries@;
                    assert forall|i: int, j: int| 0 <= i < j < after.len() implies (
                    #[trigger] after[i]).0.number < (#[trigger] after[j]).0.number by {
                        let a = if i < at {
                            i
                        } else {
                            i + 1
                        };
                        let b = if j < at {
                            j
                        } else {
                            j + 1
                        };
                        assert(before[a].0.number < before[b].0.number);
                    }
                    assert forall|i: int| 0 <= i < after.len() implies (#[trigger] after[i]).0
                        != id by {
                        if i < at {
                            assert(after[i] == before[i]);
                            assert(before[i].0.number < before[at as int].0.number);
                        } else {
                            assert(after[i] == before[i + 1]);
                            assert(before[at as int].0.number < before[i + 1].0.number);
                        }
                    }
                    lemma_no_entry(after, id);
                    assert forall|other: DeviceId| other != id implies #[trigger] entry(
                        after,
                        other,
                    ) == entry(before, other) by {
                        assert forall|i: int|
                            0 <= i < before.len() && (#[trigger] before[i]).0
                                == other implies exists|j: int|
                            0 <= j < after.len() && #[trigger] after[j] == before[i] by {
                            let j = if i < at {
                                i
                            } else {
                                i - 1
                            };
                            assert(after[j] == before[i]);
                        }
                        assert forall|j: int|
                            0 <= j < after.len() && (#[trigger] after[j]).0
                                == other implies exists|i: int|
                            0 <= i < before.len() && #[trigger] before[i] == after[j] by {
                            let i = if j < at {
                                j
                            } else {
                                j + 1
                            };
                            assert(before[i] == after[j]);
                        }
                        lemma_same_entry(before, after, other);
                    }
                }
                Some(value)
            },
        }
    }
}

/// A device has a value exactly where there is an entry of it, and that entry's.
pub proof fn law_a_device_has_its_entry<V>(roster: Roster<V>, id: DeviceId)
    requires
        roster.wf(),
    ensures
        match roster.value(id) {
            Some(value) => exists|i: int|
                0 <= i < roster.entries@.len() && #[trigger] roster.entries@[i] == (id, value),
            None => forall|i: int|
                0 <= i < roster.entries@.len() ==> (#[trigger] roster.entries@[i]).0 != id,
        },
        forall|i: int, j: int|
            0 <= i < j < roster.entries@.len() ==> (#[trigger] roster.entries@[i]).0.number < (
            #[trigger] roster.entries@[j]).0.number,
{
    lemma_has_entry(roster.entries@, id);
}

proof fn lemma_has_entry<V>(entries: Seq<(DeviceId, V)>, id: DeviceId)
    ensures
        match entry(entries, id) {
            Some(value) => exists|i: int|
                0 <= i < entries.len() && #[trigger] entries[i] == (id, value),
            None => forall|i: int| 0 <= i < entries.len() ==> (#[trigger] entries[i]).0 != id,
        },
    decreases entries.len(),
{
    if entries.len() > 0 {
        let init = entries.drop_last();
        let last = entries.len() - 1;
        if entries.last().0 == id {
            assert(entries[last] == (id, entries.last().1));
        } else {
            lemma_has_entry(init, id);
            match entry(init, id) {
                Some(value) => {
                    let i = choose|i: int| 0 <= i < init.len() && #[trigger] init[i] == (id, value);
                    assert(entries[i] == (id, value));
                },
                None => {
                    assert forall|i: int| 0 <= i < entries.len() implies (
                    #[trigger] entries[i]).0 != id by {
                        if i < last {
                            assert(init[i] == entries[i]);
                        }
                    }
                },
            }
        }
    }
}

}
