//! The map from image keys to entries.
use crate::images::entry::{EntryView, StoredEntry};
use crate::uuid::Uuid;
use std::collections::HashMap;
use vstd::prelude::*;
use vstd::std_specs::iter::IteratorSpec;

verus! {

/// An image's identifier and whether this is its thumbnail.
pub type ImageKey = (Uuid, bool);

/// The entries, by key. Thumbnails stand apart from the images they are of.
pub struct Entries<I, D> {
    images: HashMap<Uuid, StoredEntry<I, D>>,
    thumbnails: HashMap<Uuid, StoredEntry<I, D>>,
}

impl<I, D> Entries<I, D> {
    /// The entry of each key.
    pub closed spec fn view(&self) -> Map<ImageKey, EntryView<I, D>> {
        Map::new(
            |key: ImageKey|
                if key.1 {
                    self.thumbnails@.contains_key(key.0)
                } else {
                    self.images@.contains_key(key.0)
                },
            |key: ImageKey|
                if key.1 {
                    self.thumbnails@[key.0]@
                } else {
                    self.images@[key.0]@
                },
        )
    }

    pub fn with_capacity(capacity: usize) -> (entries: Self)
        ensures
            entries@ == Map::<ImageKey, EntryView<I, D>>::empty(),
    {
        let entries = Entries {
            images: HashMap::with_capacity(capacity),
            thumbnails: HashMap::with_capacity(capacity),
        };
        assert(entries@ =~= Map::<ImageKey, EntryView<I, D>>::empty());
        entries
    }

    pub fn contains_key(&self, key: ImageKey) -> (found: bool)
        ensures
            found == self@.contains_key(key),
    {
        if key.1 {
            self.thumbnails.contains_key(&key.0)
        } else {
            self.images.contains_key(&key.0)
        }
    }

    pub fn get(&self, key: ImageKey) -> (entry: Option<&StoredEntry<I, D>>)
        ensures
            match entry {
                Some(e) => self@.contains_key(key) && self@[key] == e@,
                None => !self@.contains_key(key),
            },
    {
        if key.1 {
            self.thumbnails.get(&key.0)
        } else {
            self.images.get(&key.0)
        }
    }

    pub fn insert(&mut self, key: ImageKey, entry: StoredEntry<I, D>)
        ensures
            final(self)@ == old(self)@.insert(key, entry@),
    {
        if key.1 {
            self.thumbnails.insert(key.0, entry);
        } else {
            self.images.insert(key.0, entry);
        }
        assert(self@ =~= old(self)@.insert(key, entry@));
    }

    pub fn remove(&mut self, key: ImageKey) -> (entry: Option<StoredEntry<I, D>>)
        ensures
            final(self)@ == old(self)@.remove(key),
            match entry {
                Some(e) => old(self)@.contains_key(key) && old(self)@[key] == e@,
                None => !old(self)@.contains_key(key),
            },
    {
        let entry = if key.1 {
            self.thumbnails.remove(&key.0)
        } else {
            self.images.remove(&key.0)
        };
        assert(self@ =~= old(self)@.remove(key));
        entry
    }

    /// Each key once, in no particular order.
    pub fn keys(&self) -> (keys: Vec<ImageKey>)
        ensures
            keys@.no_duplicates(),
            keys@.to_set() == self@.dom(),
    {
        let images = identifiers(&self.images);
        let thumbnails = identifiers(&self.thumbnails);
        let mut keys: Vec<ImageKey> = Vec::new();
        for i in 0..images.len()
            invariant
                keys@ == images@.take(i as int).map_values(|id: Uuid| (id, false)),
        {
            keys.push((images[i], false));
            assert(keys@ =~= images@.take(i + 1).map_values(|id: Uuid| (id, false)));
        }
        let ghost first = images@.map_values(|id: Uuid| (id, false));
        assert(keys@ =~= first + thumbnails@.take(0).map_values(|id: Uuid| (id, true)));
        for i in 0..thumbnails.len()
            invariant
                keys@ == first + thumbnails@.take(i as int).map_values(|id: Uuid| (id, true)),
        {
            keys.push((thumbnails[i], true));
            assert(keys@ =~= first + thumbnails@.take(i + 1).map_values(|id: Uuid| (id, true)));
        }
        proof {
            let second = thumbnails@.map_values(|id: Uuid| (id, true));
            assert(keys@ =~= first + second);
            assert forall|key: ImageKey| keys@.to_set().contains(key) == self@.dom().contains(
                key,
            ) by {
                if self.images@.contains_key(key.0) {
                    assert(images@.to_set().contains(key.0));
                    let i = images@.index_of(key.0);
                    assert(keys@[i] == (key.0, false));
                }
                if self.thumbnails@.contains_key(key.0) {
                    assert(thumbnails@.to_set().contains(key.0));
                    let i = thumbnails@.index_of(key.0);
                    assert(keys@[first.len() + i] == (key.0, true));
                }
                if keys@.contains(key) {
                    let i = keys@.index_of(key);
                    if i < first.len() {
                        assert(images@.to_set().contains(images@[i]));
                    } else {
                        assert(thumbnails@.to_set().contains(thumbnails@[i - first.len()]));
                    }
                }
            }
            assert(keys@.to_set() =~= self@.dom());
        }
        keys
    }
}

/// The keys of a map, each once, in no particular order.
fn identifiers<V>(map: &HashMap<Uuid, V>) -> (ids: Vec<Uuid>)
    ensures
        ids@.no_duplicates(),
        ids@.to_set() == map@.dom(),
{
    let mut ids: Vec<Uuid> = Vec::new();
    let keys = map.keys();
    let ghost all = keys.remaining().unref();
    for id in it: keys
        invariant
            it.seq().unref() == all,
            ids@ == all.take(it.index()),
    {
        ids.push(*id);
        assert(ids@ =~= all.take(it.index() + 1));
    }
    assert(ids@ =~= all);
    ids
}

} // verus!
