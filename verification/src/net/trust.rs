//! The set of devices this one has paired with.

use vstd::prelude::*;

use crate::net::digest::{decode_hex, encode_hex, hex_bytes, hex_fault, hex_text, is_hex, law_hex_reads_back};
use crate::net::identity::{id_of, key_fault, DeviceId, PublicKey};
use crate::net::roster::{law_a_device_has_its_entry, lemma_entry_at, lemma_entry_found, Roster};
use crate::text::join2;

verus! {

/// A device that this one trusts.
#[derive(Clone, Debug, PartialEq, Eq)]
pub struct PairedPeer {
    pub device_id: DeviceId,
    pub public_key: PublicKey,
    pub name: String,
    pub platform: String,
    /// Unix seconds, for display.
    pub paired_at: u64,
    /// Who vouched for the device, where it was not paired directly.
    pub introduced_by: Option<DeviceId>,
}

impl PairedPeer {
    /// A device that was paired directly.
    pub fn new(public_key: PublicKey, name: String, platform: String, paired_at: u64) -> (out: Self)
        ensures
            out == (PairedPeer {
                device_id: id_of(public_key@),
                public_key,
                name,
                platform,
                paired_at,
                introduced_by: None,
            }),
    {
        let device_id = DeviceId::from_public_key(&public_key);
        PairedPeer { device_id, public_key, name, platform, paired_at, introduced_by: None }
    }

    /// A device that another one vouched for.
    pub fn introduced(
        public_key: PublicKey,
        name: String,
        platform: String,
        introduced_by: DeviceId,
        paired_at: u64,
    ) -> (out: Self)
        ensures
            out == (PairedPeer {
                device_id: id_of(public_key@),
                public_key,
                name,
                platform,
                paired_at,
                introduced_by: Some(introduced_by),
            }),
    {
        let device_id = DeviceId::from_public_key(&public_key);
        PairedPeer {
            device_id,
            public_key,
            name,
            platform,
            paired_at,
            introduced_by: Some(introduced_by),
        }
    }

    /// How the device came to be trusted, in words.
    pub open spec fn origin_shown(self) -> Seq<char> {
        match self.introduced_by {
            None => "paired directly"@,
            Some(by) => "introduced by "@ + by.shown(),
        }
    }

    /// How the device came to be trusted, in words.
    pub fn origin(&self) -> (out: String)
        ensures
            out@ == self.origin_shown(),
    {
        match self.introduced_by {
            None => "paired directly".to_owned(),
            Some(by) => join2("introduced by ", by.text().as_str()),
        }
    }

    /// A copy of the record.
    pub fn copy(&self) -> (out: Self)
        ensures
            out == *self,
    {
        PairedPeer {
            device_id: self.device_id,
            public_key: self.public_key,
            name: self.name.clone(),
            platform: self.platform.clone(),
            paired_at: self.paired_at,
            introduced_by: self.introduced_by,
        }
    }
}

/// The last of some records with an id.
pub open spec fn record(peers: Seq<PairedPeer>, id: DeviceId) -> Option<PairedPeer>
    decreases peers.len(),
{
    if peers.len() == 0 {
        None
    } else if peers.last().device_id == id {
        Some(peers.last())
    } else {
        record(peers.drop_last(), id)
    }
}

/// The devices that this one trusts, in the order of their ids.
#[derive(Debug)]
pub struct TrustStore {
    pub roster: Roster<PairedPeer>,
}

impl TrustStore {
    /// Every record stands under its own id.
    pub open spec fn wf(self) -> bool {
        &&& self.roster.wf()
        &&& forall|i: int|
            0 <= i < self.roster.entries@.len() ==> (
            #[trigger] self.roster.entries@[i]).1.device_id == self.roster.entries@[i].0
    }

    /// The record with an id.
    pub open spec fn record(self, id: DeviceId) -> Option<PairedPeer> {
        self.roster.value(id)
    }

    /// The records, in the order of their ids.
    pub open spec fn records(self) -> Seq<PairedPeer> {
        Seq::new(self.roster.entries@.len(), |i: int| self.roster.entries@[i].1)
    }

    /// Whether a key is trusted: the record under its id has that very key.
    pub open spec fn trusts(self, key: Seq<u8>) -> bool {
        self.record(id_of(key)) matches Some(peer) && peer.public_key@ == key
    }

    /// A store without devices.
    pub fn new() -> (out: Self)
        ensures
            out.wf(),
            out.records().len() == 0,
            forall|id: DeviceId| #[trigger] out.record(id) is None,
    {
        let roster: Roster<PairedPeer> = Roster::new();
        assert forall|id: DeviceId| #[trigger] roster.value(id) is None by {}
        TrustStore { roster }
    }

    /// The store that a list of records makes. Of two with one id the later
    /// counts.
    pub fn from_records(records: Vec<PairedPeer>) -> (out: Self)
        ensures
            out.wf(),
            forall|id: DeviceId| #[trigger] out.record(id) == record(records@, id),
    {
        let mut out = TrustStore::new();
        let ghost all = records@;
        assert(all.take(0) =~= Seq::<PairedPeer>::empty());
        for i in 0..records.len()
            invariant
                all == records@,
                out.wf(),
                forall|id: DeviceId| #[trigger] out.record(id) == record(all.take(i as int), id),
        {
            let ghost before = out;
            out.insert(records[i].copy());
            proof {
                let next = all.take(i as int + 1);
                assert(next.drop_last() =~= all.take(i as int));
                assert(next.last() == all[i as int]);
                assert forall|id: DeviceId| #[trigger] out.record(id) == record(next, id) by {
                    assert(before.record(id) == record(all.take(i as int), id));
                }
            }
        }
        assert(all.take(all.len() as int) =~= all);
        out
    }

    /// Re-pairing an existing device replaces its record, which is how a peer
    /// that was reinstalled (and so has a new key) gets re-trusted.
    pub fn insert(&mut self, peer: PairedPeer)
        requires
            old(self).wf(),
        ensures
            final(self).wf(),
            final(self).record(peer.device_id) == Some(peer),
            forall|id: DeviceId|
                id != peer.device_id ==> #[trigger] final(self).record(id) == old(self).record(id),
    {
        let ghost before = *self;
        self.roster.insert(peer.device_id, peer);
        proof {
            let after = self.roster.entries@;
            assert forall|i: int| 0 <= i < after.len() implies (#[trigger] after[i]).1.device_id
                == after[i].0 by {
                let id = after[i].0;
                lemma_entry_at(after, i);
                if id != peer.device_id {
                    assert(before.record(id) == self.roster.value(id));
                    lemma_entry_found(before.roster.entries@, id);
                }
            }
            assert forall|id: DeviceId| id != peer.device_id implies #[trigger] self.record(id)
                == before.record(id) by {
                assert(self.roster.value(id) == before.roster.value(id));
            }
        }
    }

    /// Takes a device out; says whether there was one.
    pub fn remove(&mut self, id: DeviceId) -> (removed: bool)
        requires
            old(self).wf(),
        ensures
            final(self).wf(),
            removed == (old(self).record(id) is Some),
            final(self).record(id) is None,
            forall|other: DeviceId|
                other != id ==> #[trigger] final(self).record(other) == old(self).record(other),
    {
        let ghost before = *self;
        let removed = self.roster.remove(id).is_some();
        proof {
            let after = self.roster.entries@;
            assert forall|i: int| 0 <= i < after.len() implies (#[trigger] after[i]).1.device_id
                == after[i].0 by {
                let other = after[i].0;
                lemma_entry_at(after, i);
                assert(other != id);
                assert(before.roster.value(other) == self.roster.value(other));
                lemma_entry_found(before.roster.entries@, other);
            }
            assert forall|other: DeviceId| other != id implies #[trigger] self.record(other)
                == before.record(other) by {
                assert(self.roster.value(other) == before.roster.value(other));
            }
        }
        removed
    }

    /// The record with an id.
    pub fn get(&self, id: DeviceId) -> (out: Option<&PairedPeer>)
        requires
            self.wf(),
        ensures
            match self.record(id) {
                Some(peer) => out == Some(&peer),
                None => out is None,
            },
    {
        self.roster.get(id)
    }

    /// Whether a key is trusted.
    pub fn is_trusted(&self, key: &PublicKey) -> (out: bool)
        requires
            self.wf(),
        ensures
            out == self.trusts(key@),
    {
        match self.get(DeviceId::from_public_key(key)) {
            Some(peer) => peer.public_key.same(key),
            None => false,
        }
    }

    /// The records, in the order of their ids.
    pub fn peers(&self) -> (out: Vec<PairedPeer>)
        ensures
            out@ == self.records(),
    {
        let mut out: Vec<PairedPeer> = Vec::new();
        for i in 0..self.roster.entries.len()
            invariant
                out@ == self.records().take(i as int),
        {
            out.push(self.roster.entries[i].1.copy());
            assert(self.records().take(i as int + 1) =~= self.records().take(i as int).push(
                self.records()[i as int],
            ));
        }
        assert(self.records().take(self.records().len() as int) =~= self.records());
        out
    }
}

/// Whether a store admits a key. Where the store cannot be read, nothing is
/// admitted.
pub fn admits(store: Option<&TrustStore>, key: &PublicKey) -> (out: bool)
    requires
        store matches Some(s) ==> s.wf(),
    ensures
        out == match store {
            Some(s) => s.trusts(key@),
            None => false,
        },
{
    match store {
        Some(s) => s.is_trusted(key),
        None => false,
    }
}

/// A key as it is kept in the store's file.
pub fn key_hex(key: &PublicKey) -> (out: String)
    ensures
        out@ == hex_text(key@),
{
    encode_hex(key.bytes.as_slice())
}

/// The key in a store's file, or what is said against the text.
pub fn key_from_hex(text: &str) -> (out: Result<PublicKey, String>)
    ensures
        match out {
            Ok(key) => is_hex(text@, 32) && key@ == hex_bytes(text@, 32) && key.wf(),
            Err(said) => if is_hex(text@, 32) {
                key_fault(hex_bytes(text@, 32)) == Some(said@)
            } else {
                said@ == hex_fault(text@, 32)
            },
        },
{
    match decode_hex(text, 32) {
        Ok(bytes) => {
            let mut array: [u8; 32] = [0;32];
            for i in 0..32usize
                invariant
                    bytes@.len() == 32,
                    forall|j: int| 0 <= j < i ==> array@[j] == bytes@[j],
            {
                array[i] = bytes[i];
            }
            assert(array@ =~= bytes@);
            PublicKey::from_bytes(&array)
        },
        Err(said) => Err(said),
    }
}

/// A key read back from a store's file is the key that was written.
pub proof fn law_kept_key_reads_back(key: PublicKey)
    ensures
        is_hex(hex_text(key@), 32),
        hex_bytes(hex_text(key@), 32) == key@,
{
    law_hex_reads_back(key@);
}

/// Trust follows the records: after a device is inserted its key is trusted, and
/// after it is removed no key with its id is.
pub proof fn law_trust_follows_the_records(store: TrustStore, peer: PairedPeer)
    requires
        peer.device_id == id_of(peer.public_key@),
    ensures
        store.record(peer.device_id) == Some(peer) ==> store.trusts(peer.public_key@),
        store.record(peer.device_id) is None ==> forall|key: Seq<u8>|
            id_of(key) == peer.device_id ==> !#[trigger] store.trusts(key),
{
}

/// A key is trusted exactly where a record holds it for the device that it is the
/// key of.
pub proof fn law_trust_is_in_a_record(store: TrustStore, key: Seq<u8>)
    requires
        store.wf(),
    ensures
        store.trusts(key) <==> exists|i: int|
            0 <= i < store.records().len() && (#[trigger] store.records()[i]).public_key@ == key
                && store.records()[i].device_id == id_of(key),
        store.records().len() == store.roster.entries@.len(),
{
    let id = id_of(key);
    let entries = store.roster.entries@;
    law_a_device_has_its_entry(store.roster, id);
    if store.trusts(key) {
        let peer = store.record(id).unwrap();
        let i = choose|i: int| 0 <= i < entries.len() && #[trigger] entries[i] == (id, peer);
        assert(store.records()[i] == peer);
    }
    if exists|i: int|
        0 <= i < store.records().len() && (#[trigger] store.records()[i]).public_key@ == key
            && store.records()[i].device_id == id {
        let i = choose|i: int|
            0 <= i < store.records().len() && (#[trigger] store.records()[i]).public_key@ == key
                && store.records()[i].device_id == id;
        assert(entries[i].0 == id);
        lemma_entry_at(entries, i);
        assert(store.record(id) == Some(entries[i].1));
    }
}

/// Of several records of one device the last counts, and a device without any has none.
pub proof fn law_the_last_record_counts(peers: Seq<PairedPeer>, id: DeviceId)
    ensures
        match record(peers, id) {
            Some(peer) => exists|i: int|
                0 <= i < peers.len() && #[trigger] peers[i] == peer && peer.device_id == id
                    && forall|j: int|
                    i < j < peers.len() ==> (#[trigger] peers[j]).device_id != id,
            None => forall|i: int|
                0 <= i < peers.len() ==> (#[trigger] peers[i]).device_id != id,
        },
    decreases peers.len(),
{
    if peers.len() > 0 {
        let init = peers.drop_last();
        let last = peers.len() - 1;
        if peers.last().device_id == id {
            assert(peers[last] == peers.last());
        } else {
            law_the_last_record_counts(init, id);
            match record(init, id) {
                Some(peer) => {
                    let i = choose|i: int|
                        0 <= i < init.len() && #[trigger] init[i] == peer && peer.device_id == id
                            && forall|j: int|
                            i < j < init.len() ==> (#[trigger] init[j]).device_id != id;
                    assert(peers[i] == peer);
                    assert forall|j: int| i < j < peers.len() implies (
                    #[trigger] peers[j]).device_id != id by {
                        if j < last {
                            assert(init[j] == peers[j]);
                        }
                    }
                },
                None => {
                    assert forall|i: int| 0 <= i < peers.len() implies (
                    #[trigger] peers[i]).device_id != id by {
                        if i < last {
                            assert(init[i] == peers[i]);
                        }
                    }
                },
            }
        }
    }
}

}
