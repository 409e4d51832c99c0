//! The volume store: a keyed 64-bit counter map, owned by the host across
//! blocks and written through an "add delta" operation only.
//!
//! The store is an association list with pairwise-distinct keys; its
//! mathematical image is a finite map from key bytes to integer counters.
//! A key never incremented is absent; `add` starts absent keys at zero.

use vstd::prelude::*;

use crate::bytes::copy_bytes;

verus! {

/// One store slot: a key and its running counter.
pub struct StoreEntry {
    pub key: Vec<u8>,
    pub value: i64,
}

/// Mathematical image of a [`StoreEntry`].
#[verifier::ext_equal]
pub struct EntryView {
    pub key: Seq<u8>,
    pub value: i64,
}

impl DeepView for StoreEntry {
    type V = EntryView;

    open spec fn deep_view(&self) -> EntryView {
        EntryView { key: self.key.deep_view(), value: self.value }
    }
}

/// The map an entry list denotes: later entries would win, but well-formed
/// stores never repeat a key.
pub open spec fn map_of(entries: Seq<EntryView>) -> Map<Seq<u8>, int>
    decreases entries.len(),
{
    if entries.len() == 0 {
        Map::empty()
    } else {
        map_of(entries.drop_last()).insert(entries.last().key, entries.last().value as int)
    }
}

/// No two entries share a key.
pub open spec fn unique_keys(entries: Seq<EntryView>) -> bool {
    forall|i: int, j: int|
        #![trigger entries[i], entries[j]]
        0 <= i < j < entries.len() ==> entries[i].key != entries[j].key
}

/// The counter a map holds for `k`, with the zero default for absent keys.
pub open spec fn stored_val(m: Map<Seq<u8>, int>, k: Seq<u8>) -> int {
    if m.dom().contains(k) {
        m[k]
    } else {
        0
    }
}

/// A key is in the denoted map exactly when some entry carries it.
pub proof fn lemma_map_of_dom(entries: Seq<EntryView>, k: Seq<u8>)
    ensures
        map_of(entries).dom().contains(k) <==> exists|i: int|
            0 <= i < entries.len() && #[trigger] entries[i].key == k,
    decreases entries.len(),
{
    if entries.len() == 0 {
        assert(map_of(entries).dom() =~= Set::<Seq<u8>>::empty());
    } else {
        let prior = entries.drop_last();
        lemma_map_of_dom(prior, k);
        if entries.last().key == k {
            assert(entries[entries.len() - 1].key == k);
        } else if map_of(prior).dom().contains(k) {
            let w = choose|i: int| 0 <= i < prior.len() && #[trigger] prior[i].key == k;
            assert(entries[w].key == k);
        } else if exists|i: int| 0 <= i < entries.len() && #[trigger] entries[i].key == k {
            let w = choose|i: int| 0 <= i < entries.len() && #[trigger] entries[i].key == k;
            assert(w < prior.len());
            assert(prior[w].key == k);
        }
    }
}

/// In a well-formed store, entry `i` is the binding the denoted map holds
/// for its key.
pub proof fn lemma_map_of_at(entries: Seq<EntryView>, i: int)
    requires
        unique_keys(entries),
        0 <= i < entries.len(),
    ensures
        map_of(entries).dom().contains(entries[i].key),
        map_of(entries)[entries[i].key] == entries[i].value as int,
    decreases entries.len(),
{
    let prior = entries.drop_last();
    if i == entries.len() - 1 {
    } else {
        assert(entries[i].key != entries[entries.len() - 1].key);
        assert(unique_keys(prior)) by {
            assert(forall|p: int, q: int|
                #![trigger prior[p], prior[q]]
                0 <= p < q < prior.len() ==> entries[p] == prior[p] && entries[q] == prior[q]);
        }
        lemma_map_of_at(prior, i);
        assert(prior[i] == entries[i]);
    }
}

/// Replacing entry `i`'s counter rewrites exactly that key's binding.
pub proof fn lemma_map_of_update(entries: Seq<EntryView>, i: int, v: i64)
    requires
        unique_keys(entries),
        0 <= i < entries.len(),
    ensures
        map_of(entries.update(i, EntryView { key: entries[i].key, value: v })) == map_of(
            entries,
        ).insert(entries[i].key, v as int),
    decreases entries.len(),
{
    let e = EntryView { key: entries[i].key, value: v };
    let upd = entries.update(i, e);
    let prior = entries.drop_last();
    if i == entries.len() - 1 {
        assert(upd.drop_last() =~= prior);
        assert(upd.last() == e);
        assert(map_of(upd) =~= map_of(entries).insert(entries[i].key, v as int));
    } else {
        assert(unique_keys(prior)) by {
            assert(forall|p: int, q: int|
                #![trigger prior[p], prior[q]]
                0 <= p < q < prior.len() ==> entries[p] == prior[p] && entries[q] == prior[q]);
        }
        lemma_map_of_update(prior, i, v);
        assert(upd.drop_last() =~= prior.update(i, EntryView { key: prior[i].key, value: v }));
        assert(upd.last() == entries.last());
        assert(entries[i].key != entries.last().key);
        assert(map_of(upd) =~= map_of(entries).insert(entries[i].key, v as int));
    }
}

/// Every counter the denoted map holds fits a 64-bit signed integer, and
/// the zero default does too.
pub proof fn lemma_stored_val_in_range(entries: Seq<EntryView>, k: Seq<u8>)
    ensures
        i64::MIN <= stored_val(map_of(entries), k) <= i64::MAX,
    decreases entries.len(),
{
    if entries.len() > 0 {
        lemma_stored_val_in_range(entries.drop_last(), k);
    }
}

/// The per-address running counters, as the host carries them from block
/// to block.
pub struct VolumeStore {
    pub entries: Vec<StoreEntry>,
}

impl View for VolumeStore {
    type V = Map<Seq<u8>, int>;

    open spec fn view(&self) -> Map<Seq<u8>, int> {
        map_of(self.entries.deep_view())
    }
}

impl VolumeStore {
    /// No two slots share a key.
    pub open spec fn wf(&self) -> bool {
        unique_keys(self.entries.deep_view())
    }

    /// An empty store: every key is absent.
    pub fn new() -> (r: VolumeStore)
        ensures
            r.wf(),
            r@ == Map::<Seq<u8>, int>::empty(),
    {
        let r = VolumeStore { entries: Vec::new() };
        proof {
            assert(r.entries.deep_view() =~= Seq::<EntryView>::empty());
        }
        r
    }

    /// Reads the counter for `key`: its value if the key was ever added,
    /// `None` for a never-incremented key.
    pub fn get(&self, key: &Vec<u8>) -> (r: Option<i64>)
        requires
            self.wf(),
        ensures
            match r {
                Some(v) => self@.dom().contains(key@) && v as int == self@[key@],
                None => !self@.dom().contains(key@),
            },
    {
        let ghost dv = self.entries.deep_view();
        let mut i: usize = 0;
        while i < self.entries.len()
            invariant
                self.wf(),
                i <= self.entries.len(),
                dv == self.entries.deep_view(),
                forall|j: int| 0 <= j < i ==> #[trigger] dv[j].key != key@,
            decreases self.entries.len() - i,
        {
            let hit = self.entries[i].key == *key;
            proof {
                assert(dv[i as int].key =~= self.entries@[i as int].key@);
                if self.entries@[i as int].key@ =~= key@ {
                    assert(self.entries@[i as int].key@ == key@);
                }
            }
            if hit {
                proof {
                    lemma_map_of_at(dv, i as int);
                }
                return Some(self.entries[i].value);
            }
            i = i + 1;
        }
        proof {
            lemma_map_of_dom(dv, key@);
        }
        None
    }

    /// Adds `delta` to the counter for `key`, starting at zero for an
    /// absent key. A well-formed store stays well-formed, and exactly this
    /// key's binding moves.
    pub fn add(&mut self, key: &Vec<u8>, delta: i64)
        requires
            old(self).wf(),
            i64::MIN <= stored_val(old(self)@, key@) + delta <= i64::MAX,
        ensures
            final(self).wf(),
            final(self)@ == old(self)@.insert(key@, stored_val(old(self)@, key@) + delta),
    {
        let ghost dv = old(self).entries.deep_view();
        let mut i: usize = 0;
        while i < self.entries.len()
            invariant
                i <= self.entries.len(),
                *self == *old(self),
                old(self).wf(),
                i64::MIN <= stored_val(old(self)@, key@) + delta <= i64::MAX,
                dv == self.entries.deep_view(),
                forall|j: int| 0 <= j < i ==> #[trigger] dv[j].key != key@,
            decreases self.entries.len() - i,
        {
            let hit = self.entries[i].key == *key;
            proof {
                assert(dv[i as int].key =~= self.entries@[i as int].key@);
                if self.entries@[i as int].key@ =~= key@ {
                    assert(self.entries@[i as int].key@ == key@);
                }
            }
            if hit {
                proof {
                    lemma_map_of_at(dv, i as int);
                }
                let e = self.entries.remove(i);
                proof {
                    assert(e.deep_view() == dv[i as int]);
                }
                let newv = e.value + delta;
                proof {
                    lemma_map_of_update(dv, i as int, newv);
                }
                self.entries.insert(i, StoreEntry { key: e.key, value: newv });
                proof {
                    let upd = dv.update(i as int, EntryView { key: dv[i as int].key, value: newv });
                    assert(self.entries.deep_view() =~= upd);
                    assert(unique_keys(upd)) by {
                        assert forall|p: int, q: int|
                            #![trigger upd[p], upd[q]]
                            0 <= p < q < upd.len() implies upd[p].key != upd[q].key by {
                            assert(upd[p].key == dv[p].key);
                            assert(upd[q].key == dv[q].key);
                        }
                    }
                    assert(self@ =~= old(self)@.insert(
                        key@,
                        stored_val(old(self)@, key@) + delta,
                    ));
                }
                return;
            }
            i = i + 1;
        }
        proof {
            lemma_map_of_dom(dv, key@);
            assert(!old(self)@.dom().contains(key@));
        }
        let kcopy = copy_bytes(key);
        self.entries.push(StoreEntry { key: kcopy, value: delta });
        proof {
            let e = EntryView { key: key@, value: delta };
            assert(kcopy.deep_view() =~= key@);
            let upd = dv.push(e);
            assert(self.entries.deep_view() =~= upd);
            assert(upd.drop_last() =~= dv);
            assert(unique_keys(upd)) by {
                assert forall|p: int, q: int|
                    #![trigger upd[p], upd[q]]
                    0 <= p < q < upd.len() implies upd[p].key != upd[q].key by {
                    assert(upd[p] == dv[p]);
                    if q == dv.len() {
                        assert(upd[q] == e);
                    } else {
                        assert(upd[q] == dv[q]);
                    }
                }
            }
            assert(self@ =~= old(self)@.insert(key@, stored_val(old(self)@, key@) + delta));
        }
    }
}

} // verus!
