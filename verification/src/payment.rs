//! Payment records and the stores that hold them, keyed by payment hash.

use crate::text::decimal;
use crate::text::decimal_chars;
use vstd::prelude::*;
use vstd::string::StringExecFns;

verus! {

/// Where a payment stands.
#[derive(Clone, Copy, Debug, PartialEq, Eq, Structural)]
pub enum HTLCStatus {
    Pending,
    Succeeded,
    Failed,
}

/// An amount in millisatoshis, where it is known.
#[derive(Clone, Copy, Debug, PartialEq, Eq)]
pub struct MillisatAmount(pub Option<u64>);

impl MillisatAmount {
    /// The text of an amount: its decimal digits, or `unknown`.
    pub open spec fn text(self) -> Seq<char> {
        match self.0 {
            Some(amt) => decimal_chars(amt as nat),
            None => "unknown"@,
        }
    }

    /// Writes the amount as text.
    pub fn to_string(&self) -> (text: String)
        ensures
            text@ == self.text(),
    {
        match self.0 {
            Some(amt) => decimal(amt),
            None => String::from_str("unknown"),
        }
    }
}

/// What is known of one payment.
#[derive(Clone, Copy, Debug, PartialEq, Eq)]
pub struct PaymentInfo {
    pub preimage: Option<[u8; 32]>,
    pub secret: Option<[u8; 32]>,
    pub status: HTLCStatus,
    pub amt_msat: MillisatAmount,
}

/// One record of a store, under its payment hash.
#[derive(Clone, Copy, Debug)]
pub struct PaymentEntry {
    pub hash: [u8; 32],
    pub info: PaymentInfo,
}

/// Whether no payment hash occurs twice among the entries.
pub open spec fn distinct_hashes(entries: Seq<PaymentEntry>) -> bool {
    forall|i: int, j: int|
        0 <= i < entries.len() && 0 <= j < entries.len() && i != j ==> (#[trigger] entries[i]).hash
            != (#[trigger] entries[j]).hash
}

/// Whether some entry stands under the hash.
pub open spec fn holds_hash(entries: Seq<PaymentEntry>, hash: [u8; 32]) -> bool {
    exists|i: int| 0 <= i < entries.len() && (#[trigger] entries[i]).hash == hash
}

/// The map that the entries stand for.
pub open spec fn entries_map(entries: Seq<PaymentEntry>) -> Map<[u8; 32], PaymentInfo> {
    Map::new(
        |hash: [u8; 32]| holds_hash(entries, hash),
        |hash: [u8; 32]|
            entries[choose|i: int| 0 <= i < entries.len() && (#[trigger] entries[i]).hash == hash].info,
    )
}

/// An entry of a store without repeated hashes is what the map holds under its hash.
pub proof fn lemma_entry_in_map(entries: Seq<PaymentEntry>, i: int)
    requires
        distinct_hashes(entries),
        0 <= i < entries.len(),
    ensures
        entries_map(entries).contains_key(entries[i].hash),
        entries_map(entries)[entries[i].hash] == entries[i].info,
{
    let hash = entries[i].hash;
    assert(holds_hash(entries, hash));
    let j = choose|j: int| 0 <= j < entries.len() && (#[trigger] entries[j]).hash == hash;
    assert(j == i);
}

/// Whether two hashes are the same.
pub fn same_hash(a: &[u8; 32], b: &[u8; 32]) -> (same: bool)
    ensures
        same == (*a == *b),
{
    let mut i: usize = 0;
    while i < 32
        invariant
            i <= 32,
            forall|k: int| 0 <= k < i ==> a[k] == b[k],
        decreases 32 - i,
    {
        if a[i] != b[i] {
            return false;
        }
        i = i + 1;
    }
    assert(*a =~= *b);
    true
}

/// A map from payment hash to payment record.
///
/// The store hands out copies of its records and takes whole records back, so that a
/// reader never holds a reference into it.
#[derive(Debug)]
pub struct PaymentInfoStorage {
    entries: Vec<PaymentEntry>,
}

impl View for PaymentInfoStorage {
    type V = Map<[u8; 32], PaymentInfo>;

    closed spec fn view(&self) -> Map<[u8; 32], PaymentInfo> {
        entries_map(self.entries@)
    }
}

impl PaymentInfoStorage {
    #[verifier::type_invariant]
    spec fn well_formed(self) -> bool {
        distinct_hashes(self.entries@)
    }

    /// An empty store.
    pub fn new() -> (store: PaymentInfoStorage)
        ensures
            store@ == Map::<[u8; 32], PaymentInfo>::empty(),
    {
        let store = PaymentInfoStorage { entries: Vec::new() };
        assert(store@ =~= Map::<[u8; 32], PaymentInfo>::empty());
        store
    }

    /// The position of the entry under a hash.
    fn position(&self, hash: &[u8; 32]) -> (at: Option<usize>)
        ensures
            at matches Some(i) ==> i < self.entries@.len() && self.entries@[i as int].hash == *hash,
            at is None ==> !holds_hash(self.entries@, *hash),
    {
        let mut i: usize = 0;
        while i < self.entries.len()
            invariant
                i <= self.entries@.len(),
                forall|k: int| 0 <= k < i ==> (#[trigger] self.entries@[k]).hash != *hash,
            decreases self.entries@.len() - i,
        {
            if same_hash(&self.entries[i].hash, hash) {
                return Some(i);
            }
            i = i + 1;
        }
        None
    }

    /// The number of records.
    pub fn len(&self) -> (n: usize)
        ensures
            n == self@.dom().len(),
            self@.dom().finite(),
    {
        proof {
            use_type_invariant(self);
            lemma_domain_size(self.entries@);
        }
        self.entries.len()
    }

    /// Whether a record stands under the hash.
    pub fn contains_key(&self, hash: &[u8; 32]) -> (found: bool)
        ensures
            found == self@.contains_key(*hash),
    {
        self.position(hash).is_some()
    }

    /// The record under a hash.
    pub fn get(&self, hash: &[u8; 32]) -> (info: Option<PaymentInfo>)
        ensures
            info == if self@.contains_key(*hash) {
                Some(self@[*hash])
            } else {
                None
            },
    {
        match self.position(hash) {
            Some(i) => {
                proof {
                    use_type_invariant(self);
                    lemma_entry_in_map(self.entries@, i as int);
                }
                Some(self.entries[i].info)
            },
            None => None,
        }
    }

    /// Puts a record under a hash, in place of the one that stood there, which is returned.
    pub fn insert(&mut self, hash: [u8; 32], info: PaymentInfo) -> (previous: Option<PaymentInfo>)
        ensures
            final(self)@ == old(self)@.insert(hash, info),
            previous == if old(self)@.contains_key(hash) {
                Some(old(self)@[hash])
            } else {
                None
            },
    {
        proof {
            use_type_invariant(&*self);
        }
        let ghost before = self.entries@;
        let at = self.position(&hash);
        let mut entries: Vec<PaymentEntry> = Vec::new();
        core::mem::swap(&mut self.entries, &mut entries);
        match at {
            Some(i) => {
                let previous = entries[i].info;
                proof {
                    lemma_entry_in_map(before, i as int);
                }
                entries.set(i, PaymentEntry { hash, info });
                proof {
                    let after = entries@;
                    assert(distinct_hashes(after)) by {
                        assert forall|a: int, b: int|
                            0 <= a < after.len() && 0 <= b < after.len() && a != b implies (
                        #[trigger] after[a]).hash != (#[trigger] after[b]).hash by {
                            assert(after[a].hash == before[a].hash);
                            assert(after[b].hash == before[b].hash);
                        }
                    }
                    lemma_map_after_replace(before, after, i as int);
                }
                core::mem::swap(&mut self.entries, &mut entries);
                Some(previous)
            },
            None => {
                entries.push(PaymentEntry { hash, info });
                proof {
                    let after = entries@;
                    assert(distinct_hashes(after)) by {
                        assert forall|a: int, b: int|
                            0 <= a < after.len() && 0 <= b < after.len() && a != b implies (
                        #[trigger] after[a]).hash != (#[trigger] after[b]).hash by {
                            if a < before.len() {
                                assert(after[a] == before[a]);
                            }
                            if b < before.len() {
                                assert(after[b] == before[b]);
                            }
                        }
                    }
                    assert(after.drop_last() =~= before);
                    lemma_map_after_push(before, after);
                }
                core::mem::swap(&mut self.entries, &mut entries);
                None
            },
        }
    }

    /// Takes the record under a hash out of the store, if there is one.
    pub fn remove(&mut self, hash: &[u8; 32]) -> (removed: Option<PaymentInfo>)
        ensures
            final(self)@ == old(self)@.remove(*hash),
            removed == if old(self)@.contains_key(*hash) {
                Some(old(self)@[*hash])
            } else {
                None
            },
    {
        proof {
            use_type_invariant(&*self);
        }
        let ghost before = self.entries@;
        match self.position(hash) {
            Some(i) => {
                proof {
                    lemma_entry_in_map(before, i as int);
                }
                let mut entries: Vec<PaymentEntry> = Vec::new();
                core::mem::swap(&mut self.entries, &mut entries);
                let entry = entries.remove(i);
                proof {
                    let after = entries@;
                    assert(distinct_hashes(after)) by {
                        assert forall|a: int, b: int|
                            0 <= a < after.len() && 0 <= b < after.len() && a != b implies (
                        #[trigger] after[a]).hash != (#[trigger] after[b]).hash by {
                            let a0 = if a < i { a } else { a + 1 };
                            let b0 = if b < i { b } else { b + 1 };
                            assert(after[a] == before[a0]);
                            assert(after[b] == before[b0]);
                        }
                    }
                    lemma_map_after_remove(before, after, i as int);
                }
                core::mem::swap(&mut self.entries, &mut entries);
                Some(entry.info)
            },
            None => {
                assert(self@ =~= old(self)@.remove(*hash));
                None
            },
        }
    }

    /// The hashes of the store, each once.
    pub fn hashes(&self) -> (all: Vec<[u8; 32]>)
        ensures
            all@.len() == self@.dom().len(),
            forall|i: int| 0 <= i < all@.len() ==> self@.contains_key(#[trigger] all@[i]),
            forall|hash: [u8; 32]| self@.contains_key(hash) ==> all@.contains(hash),
            all@.no_duplicates(),
    {
        proof {
            use_type_invariant(self);
            lemma_domain_size(self.entries@);
        }
        let mut all: Vec<[u8; 32]> = Vec::new();
        let mut i: usize = 0;
        while i < self.entries.len()
            invariant
                i <= self.entries@.len(),
                all@.len() == i,
                forall|k: int| 0 <= k < i ==> #[trigger] all@[k] == self.entries@[k].hash,
            decreases self.entries@.len() - i,
        {
            all.push(self.entries[i].hash);
            i = i + 1;
        }
        proof {
            let entries = self.entries@;
            assert forall|k: int| 0 <= k < all@.len() implies self@.contains_key(
                #[trigger] all@[k],
            ) by {
                lemma_entry_in_map(entries, k);
            }
            assert forall|hash: [u8; 32]| self@.contains_key(hash) implies all@.contains(hash) by {
                let k = choose|k: int| 0 <= k < entries.len() && (#[trigger] entries[k]).hash == hash;
                assert(all@[k] == hash);
            }
            assert forall|a: int, b: int|
                0 <= a < all@.len() && 0 <= b < all@.len() && a != b implies all@[a] != all@[b] by {
                assert(entries[a].hash != entries[b].hash);
            }
        }
        all
    }
}

/// The map after one entry was replaced by another under the same hash.
proof fn lemma_map_after_replace(before: Seq<PaymentEntry>, after: Seq<PaymentEntry>, i: int)
    requires
        distinct_hashes(before),
        distinct_hashes(after),
        0 <= i < before.len(),
        after == before.update(i, after[i]),
        after[i].hash == before[i].hash,
    ensures
        entries_map(after) == entries_map(before).insert(after[i].hash, after[i].info),
{
    let hash = after[i].hash;
    let target = entries_map(before).insert(hash, after[i].info);
    assert forall|k: [u8; 32]| entries_map(after).contains_key(k) == target.contains_key(k) by {
        if holds_hash(after, k) {
            let j = choose|j: int| 0 <= j < after.len() && (#[trigger] after[j]).hash == k;
            assert(before[j].hash == k);
        }
        if holds_hash(before, k) {
            let j = choose|j: int| 0 <= j < before.len() && (#[trigger] before[j]).hash == k;
            assert(after[j].hash == k);
        }
        if k == hash {
            assert(after[i].hash == k);
        }
    }
    assert forall|k: [u8; 32]| entries_map(after).contains_key(k) implies entries_map(after)[k]
        == target[k] by {
        let j = choose|j: int| 0 <= j < after.len() && (#[trigger] after[j]).hash == k;
        lemma_entry_in_map(after, j);
        if j != i {
            assert(before[j] == after[j]);
            lemma_entry_in_map(before, j);
        }
    }
    assert(entries_map(after) =~= target);
}

/// The map after an entry with a new hash was added at the end.
proof fn lemma_map_after_push(before: Seq<PaymentEntry>, after: Seq<PaymentEntry>)
    requires
        distinct_hashes(before),
        distinct_hashes(after),
        after.len() == before.len() + 1,
        after.drop_last() == before,
    ensures
        entries_map(after) == entries_map(before).insert(after.last().hash, after.last().info),
{
    let last = after.last();
    let target = entries_map(before).insert(last.hash, last.info);
    assert forall|k: [u8; 32]| entries_map(after).contains_key(k) == target.contains_key(k) by {
        if holds_hash(after, k) {
            let j = choose|j: int| 0 <= j < after.len() && (#[trigger] after[j]).hash == k;
            if j < before.len() {
                assert(before[j] == after[j]);
            }
        }
        if holds_hash(before, k) {
            let j = choose|j: int| 0 <= j < before.len() && (#[trigger] before[j]).hash == k;
            assert(after[j] == before[j]);
        }
        if k == last.hash {
            assert(after[after.len() - 1].hash == k);
        }
    }
    assert forall|k: [u8; 32]| entries_map(after).contains_key(k) implies entries_map(after)[k]
        == target[k] by {
        let j = choose|j: int| 0 <= j < after.len() && (#[trigger] after[j]).hash == k;
        lemma_entry_in_map(after, j);
        if j < before.len() {
            assert(before[j] == after[j]);
            lemma_entry_in_map(before, j);
        }
    }
    assert(entries_map(after) =~= target);
}

/// The map after one entry was taken out.
proof fn lemma_map_after_remove(before: Seq<PaymentEntry>, after: Seq<PaymentEntry>, i: int)
    requires
        distinct_hashes(before),
        distinct_hashes(after),
        0 <= i < before.len(),
        after == before.remove(i),
    ensures
        entries_map(after) == entries_map(before).remove(before[i].hash),
{
    let hash = before[i].hash;
    let target = entries_map(before).remove(hash);
    assert forall|k: [u8; 32]| entries_map(after).contains_key(k) == target.contains_key(k) by {
        if holds_hash(after, k) {
            let j = choose|j: int| 0 <= j < after.len() && (#[trigger] after[j]).hash == k;
            let j0 = if j < i { j } else { j + 1 };
            assert(before[j0] == after[j]);
            assert(before[j0].hash != before[i].hash);
        }
        if holds_hash(before, k) && k != hash {
            let j = choose|j: int| 0 <= j < before.len() && (#[trigger] before[j]).hash == k;
            let j1 = if j < i { j } else { j - 1 };
            assert(after[j1] == before[j]);
        }
    }
    assert forall|k: [u8; 32]| entries_map(after).contains_key(k) implies entries_map(after)[k]
        == target[k] by {
        let j = choose|j: int| 0 <= j < after.len() && (#[trigger] after[j]).hash == k;
        lemma_entry_in_map(after, j);
        let j0 = if j < i { j } else { j + 1 };
        assert(before[j0] == after[j]);
        lemma_entry_in_map(before, j0);
    }
    assert(entries_map(after) =~= target);
}

/// A store without repeated hashes holds as many records as it has entries.
proof fn lemma_domain_size(entries: Seq<PaymentEntry>)
    requires
        distinct_hashes(entries),
    ensures
        entries_map(entries).dom().finite(),
        entries_map(entries).dom().len() == entries.len(),
    decreases entries.len(),
{
    if entries.len() == 0 {
        assert(entries_map(entries).dom() =~= Set::<[u8; 32]>::empty());
    } else {
        let head = entries.drop_last();
        assert(distinct_hashes(head)) by {
            assert forall|a: int, b: int|
                0 <= a < head.len() && 0 <= b < head.len() && a != b implies (#[trigger] head[a]).hash
                != (#[trigger] head[b]).hash by {
                assert(head[a] == entries[a]);
                assert(head[b] == entries[b]);
            }
        }
        lemma_domain_size(head);
        lemma_map_after_push(head, entries);
        let last = entries.last();
        assert(!entries_map(head).contains_key(last.hash)) by {
            if holds_hash(head, last.hash) {
                let j = choose|j: int| 0 <= j < head.len() && (#[trigger] head[j]).hash == last.hash;
                assert(entries[j] == head[j]);
                assert(entries[j].hash != entries[entries.len() - 1].hash);
            }
        }
        assert(entries_map(entries).dom() =~= entries_map(head).dom().insert(last.hash));
    }
}

} // verus!
