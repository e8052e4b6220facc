use crate::errors::ContractError;
use std::collections::hash_map::DefaultHasher;
use std::collections::HashMap;
use std::hash::Hasher;
use vstd::prelude::*;
use vstd::slice::slice_to_vec;
use vstd::std_specs::hash::*;

verus! {

broadcast use vstd::std_specs::hash::group_hash_axioms;

/// Number of positions that one index page covers.
pub const PAGE_SIZE: u32 = 100;

/// Largest number of index pages a store can hold: one page for every
/// hundred addressable positions.
pub const MAX_PAGES: usize = 42949673;

/// The fixed-width hash to which a key is reduced inside the store.
pub open spec fn key_hash(key: Seq<u8>) -> u64 {
    DefaultHasher::spec_finish(seq![key])
}

/// The page that holds the index entry of a position.
pub fn page_from_position(position: u32) -> (page: u32)
    ensures
        page == position / PAGE_SIZE,
{
    position / PAGE_SIZE
}

/// Reduces a key to the hash under which its entry is filed.
pub fn key_to_hash(key: &[u8]) -> (hash: u64)
    ensures
        hash == key_hash(key@),
{
    let mut hasher = DefaultHasher::new();
    hasher.write(key);
    hasher.finish()
}

/// Whether two keys hold the same bytes.
pub fn same_key(a: &[u8], b: &[u8]) -> (same: bool)
    ensures
        same == (a@ == b@),
{
    if a.len() != b.len() {
        return false;
    }
    let mut i: usize = 0;
    while i < a.len()
        invariant
            i <= a@.len(),
            a@.len() == b@.len(),
            forall|j: int| 0 <= j < i ==> a@[j] == b@[j],
        decreases a@.len() - i,
    {
        if a[i] != b[i] {
            return false;
        }
        i = i + 1;
    }
    assert(a@ =~= b@);
    true
}

/// Bookkeeping stored beside every item.
#[derive(Clone, Copy, Debug, PartialEq, Eq)]
pub struct MetaData {
    pub position: u32,
}

/// An item together with the key it was filed under and the position it
/// occupies in the store.
pub struct InternalItem<T> {
    pub item: T,
    pub key: Vec<u8>,
    pub meta_data: MetaData,
}

/// A map from keys to items in which every entry has a position, the
/// positions form the dense range from zero to the length, and every page
/// of a hundred positions has an index array from position to key hash.
/// Entries are found through the hash of their key; two keys with the
/// same hash cannot both be filed.
pub struct CashMap<T> {
    items: HashMap<u64, InternalItem<T>>,
    indexes: Vec<Vec<u64>>,
    length: u32,
    prefix: Option<Vec<u8>>,
}

/// How many index entries page `page` holds in a store of `length` entries.
pub open spec fn page_fill(length: int, page: int) -> int {
    if length <= PAGE_SIZE * page {
        0
    } else if length >= PAGE_SIZE * page + PAGE_SIZE {
        PAGE_SIZE as int
    } else {
        length - PAGE_SIZE * page
    }
}

/// The position at which `key` is filed in `s`, if it is filed at all.
pub open spec fn position_of<T>(s: Seq<(Seq<u8>, T)>, key: Seq<u8>) -> Option<int> {
    if exists|i: int| 0 <= i < s.len() && (#[trigger] s[i]).0 == key {
        Some(choose|i: int| 0 <= i < s.len() && (#[trigger] s[i]).0 == key)
    } else {
        None
    }
}

/// No two entries have keys with the same hash; in particular no key is
/// filed at two positions.
pub open spec fn distinct_hashes<T>(s: Seq<(Seq<u8>, T)>) -> bool {
    forall|i: int, j: int|
        0 <= i < s.len() && 0 <= j < s.len() && i != j ==> key_hash((#[trigger] s[i]).0)
            != key_hash((#[trigger] s[j]).0)
}

/// Another key with the hash of `key` is filed, so `key` cannot be.
pub open spec fn collides<T>(s: Seq<(Seq<u8>, T)>, key: Seq<u8>) -> bool {
    exists|i: int|
        0 <= i < s.len() && (#[trigger] s[i]).0 != key && key_hash(s[i].0) == key_hash(key)
}

/// The keys that are filed in `s`.
pub open spec fn stored_keys<T>(s: Seq<(Seq<u8>, T)>) -> Set<Seq<u8>> {
    Set::new(|key: Seq<u8>| position_of(s, key) is Some)
}

/// The entries as a map from key to item.
pub open spec fn as_map<T>(s: Seq<(Seq<u8>, T)>) -> Map<Seq<u8>, T> {
    Map::new(|key: Seq<u8>| position_of(s, key) is Some, |key: Seq<u8>| s[position_of(s, key)->0].1)
}

/// The entries after `item` was inserted under `key`: an entry that is
/// already filed keeps its position and takes the new item, a new one goes
/// to the end.
pub open spec fn inserted<T>(s: Seq<(Seq<u8>, T)>, key: Seq<u8>, item: T) -> Seq<(Seq<u8>, T)> {
    match position_of(s, key) {
        Some(p) => s.update(p, (key, item)),
        None => s.push((key, item)),
    }
}

/// Why `key` cannot be inserted, if it cannot: another key with the same
/// hash is filed, or the key is new and every position is taken.
pub open spec fn insert_refused<T>(s: Seq<(Seq<u8>, T)>, key: Seq<u8>) -> Option<ContractError> {
    if collides(s, key) {
        Some(ContractError::HashCollision)
    } else if position_of(s, key) is None && s.len() >= u32::MAX {
        Some(ContractError::CapacityExceeded)
    } else {
        None
    }
}

/// The entries after the one at position `p` was removed: the last entry
/// moves into the freed position, so the positions stay dense.
pub open spec fn removed_at<T>(s: Seq<(Seq<u8>, T)>, p: int) -> Seq<(Seq<u8>, T)>
    recommends
        0 <= p < s.len(),
{
    if p == s.len() - 1 {
        s.drop_last()
    } else {
        s.update(p, s.last()).drop_last()
    }
}

/// The items that page `page` of size `size` shows: the positions from
/// `page * size` up to, but not including, `page * size + size`, as far as
/// they are occupied.
pub open spec fn page_of<T>(s: Seq<(Seq<u8>, T)>, page: nat, size: nat) -> Seq<(Seq<u8>, T)> {
    let start: int = if page * size <= s.len() {
        (page * size) as int
    } else {
        s.len() as int
    };
    let end: int = if page * size + size <= s.len() {
        (page * size + size) as int
    } else {
        s.len() as int
    };
    s.subrange(start, end)
}

/// The first `pages` pages of size `size`, one after the other.
pub open spec fn scan<T>(s: Seq<(Seq<u8>, T)>, pages: nat, size: nat) -> Seq<(Seq<u8>, T)>
    decreases pages,
{
    if pages == 0 {
        Seq::empty()
    } else {
        scan(s, (pages - 1) as nat, size) + page_of(s, (pages - 1) as nat, size)
    }
}

impl<T> View for CashMap<T> {
    type V = Seq<(Seq<u8>, T)>;

    /// The entries in the order of their positions, each as its key and
    /// its item.
    closed spec fn view(&self) -> Seq<(Seq<u8>, T)> {
        Seq::new(self.length as nat, |pos: int| (self.key_at(pos), self.item_at(pos)))
    }
}

impl<T> CashMap<T> {
    /// The hash that the index pages hold for a position.
    pub closed spec fn hash_at(&self, pos: int) -> u64 {
        self.indexes@[pos / (PAGE_SIZE as int)]@[pos % (PAGE_SIZE as int)]
    }

    /// The key of the record that a position leads to.
    pub closed spec fn key_at(&self, pos: int) -> Seq<u8> {
        self.items@[self.hash_at(pos)].key@
    }

    /// The item of the record that a position leads to.
    pub closed spec fn item_at(&self, pos: int) -> T {
        self.items@[self.hash_at(pos)].item
    }

    /// The name under which the store is filed, if it has one.
    pub closed spec fn spec_prefix(&self) -> Option<Seq<u8>> {
        match self.prefix {
            Some(p) => Some(p@),
            None => None,
        }
    }

    /// The index pages and the stored records agree: every page holds
    /// exactly the hashes of its occupied positions, every position leads
    /// to a record that names that position, every record is reached from
    /// the position it names, and every record is filed under the hash of
    /// its key.
    pub closed spec fn wf(&self) -> bool {
        &&& self.indexes@.len() * PAGE_SIZE >= self.length
        &&& self.indexes@.len() <= MAX_PAGES
        &&& forall|p: int|
            0 <= p < self.indexes@.len() ==> (#[trigger] self.indexes@[p])@.len() == page_fill(
                self.length as int,
                p,
            )
        &&& forall|pos: int|
            0 <= pos < self.length ==> self.items@.contains_key(#[trigger] self.hash_at(pos))
                && self.items@[self.hash_at(pos)].meta_data.position == pos
        &&& forall|h: u64| #[trigger]
            self.items@.contains_key(h) ==> self.items@[h].meta_data.position < self.length
                && self.hash_at(self.items@[h].meta_data.position as int) == h && key_hash(
                self.items@[h].key@,
            ) == h
    }

    /// A store that is well formed files no two keys with the same hash
    /// and fits its positions in thirty-two bits.
    pub proof fn lemma_wf_view(&self)
        requires
            self.wf(),
        ensures
            distinct_hashes(self@),
            self@.len() <= u32::MAX,
    {
        assert forall|i: int, j: int|
            0 <= i < self@.len() && 0 <= j < self@.len() && i != j implies key_hash(
            (#[trigger] self@[i]).0,
        ) != key_hash((#[trigger] self@[j]).0) by {
            let hi = self.hash_at(i);
            let hj = self.hash_at(j);
            assert(self.items@[hi].meta_data.position == i);
            assert(self.items@[hj].meta_data.position == j);
            assert(key_hash(self.items@[hi].key@) == hi);
            assert(key_hash(self.items@[hj].key@) == hj);
        }
    }

    /// What the view says of a key is what the record under its hash
    /// says.
    proof fn lemma_position(&self, key: Seq<u8>)
        requires
            self.wf(),
        ensures
            ({
                let h = key_hash(key);
                let filed = self.items@.contains_key(h) && self.items@[h].key@ == key;
                let other = self.items@.contains_key(h) && self.items@[h].key@ != key;
                &&& filed <==> position_of(self@, key) is Some
                &&& filed ==> position_of(self@, key) == Some(
                    self.items@[h].meta_data.position as int,
                ) && self@[self.items@[h].meta_data.position as int] == (key, self.items@[h].item)
                &&& other <==> collides(self@, key)
            }),
    {
        self.lemma_wf_view();
        let h = key_hash(key);
        if self.items@.contains_key(h) {
            let p = self.items@[h].meta_data.position as int;
            assert(self.hash_at(p) == h);
            assert(self@[p].0 == self.items@[h].key@);
            if self.items@[h].key@ != key {
                if exists|i: int| 0 <= i < self@.len() && (#[trigger] self@[i]).0 == key {
                    let i = choose|i: int| 0 <= i < self@.len() && (#[trigger] self@[i]).0 == key;
                    assert(key_hash(self@[i].0) == key_hash(self@[p].0));
                }
            } else {
                if collides(self@, key) {
                    let i = choose|i: int|
                        0 <= i < self@.len() && (#[trigger] self@[i]).0 != key && key_hash(
                            self@[i].0,
                        ) == key_hash(key);
                    assert(key_hash(self@[i].0) == key_hash(self@[p].0));
                }
            }
        } else {
            if exists|i: int| 0 <= i < self@.len() && (#[trigger] self@[i]).0 == key {
                let i = choose|i: int| 0 <= i < self@.len() && (#[trigger] self@[i]).0 == key;
                assert(self.items@.contains_key(self.hash_at(i)));
                assert(key_hash(self.items@[self.hash_at(i)].key@) == self.hash_at(i));
            }
            if collides(self@, key) {
                let i = choose|i: int|
                    0 <= i < self@.len() && (#[trigger] self@[i]).0 != key && key_hash(self@[i].0)
                        == key_hash(key);
                assert(self.items@.contains_key(self.hash_at(i)));
                assert(key_hash(self.items@[self.hash_at(i)].key@) == self.hash_at(i));
            }
        }
    }

    /// An empty store filed under `name`.
    pub fn init(name: &[u8]) -> (store: Self)
        ensures
            store.wf(),
            store@ == Seq::<(Seq<u8>, T)>::empty(),
            store.spec_prefix() == Some(name@),
    {
        let store = CashMap {
            items: HashMap::new(),
            indexes: Vec::new(),
            length: 0,
            prefix: Some(slice_to_vec(name)),
        };
        assert(store@ =~= Seq::<(Seq<u8>, T)>::empty());
        store
    }

    /// An empty store without a name.
    pub fn attach() -> (store: Self)
        ensures
            store.wf(),
            store@ == Seq::<(Seq<u8>, T)>::empty(),
            store.spec_prefix() is None,
    {
        let store = CashMap { items: HashMap::new(), indexes: Vec::new(), length: 0, prefix: None };
        assert(store@ =~= Seq::<(Seq<u8>, T)>::empty());
        store
    }

    /// The name under which the store is filed.
    pub fn prefix(&self) -> (name: &Option<Vec<u8>>)
        ensures
            match *name {
                Some(p) => self.spec_prefix() == Some(p@),
                None => self.spec_prefix() is None,
            },
    {
        &self.prefix
    }

    /// Number of entries.
    pub fn len(&self) -> (n: u32)
        ensures
            n == self@.len(),
    {
        self.length
    }

    /// The record filed under `key`.
    fn record(&self, key: &[u8]) -> (found: Option<&InternalItem<T>>)
        requires
            self.wf(),
        ensures
            match found {
                Some(r) => {
                    &&& position_of(self@, key@) == Some(r.meta_data.position as int)
                    &&& r.meta_data.position < self@.len()
                    &&& self@[r.meta_data.position as int] == (key@, r.item)
                    &&& self.items@.contains_key(key_hash(key@))
                    &&& self.items@[key_hash(key@)] == *r
                },
                None => position_of(self@, key@) is None,
            },
            found is None ==> (collides(self@, key@) <==> self.items@.contains_key(
                key_hash(key@),
            )),
    {
        let hash = key_to_hash(key);
        proof {
            self.lemma_position(key@);
        }
        match self.items.get(&hash) {
            Some(record) => {
                if same_key(record.key.as_slice(), key) {
                    Some(record)
                } else {
                    None
                }
            },
            None => None,
        }
    }

    /// The position of the entry filed under `key`.
    pub fn get_position(&self, key: &[u8]) -> (position: Option<u32>)
        requires
            self.wf(),
        ensures
            match position {
                Some(p) => position_of(self@, key@) == Some(p as int),
                None => position_of(self@, key@) is None,
            },
    {
        match self.record(key) {
            Some(record) => Some(record.meta_data.position),
            None => None,
        }
    }

    /// Whether an entry is filed under `key`.
    pub fn contains(&self, key: &[u8]) -> (found: bool)
        requires
            self.wf(),
        ensures
            found == (position_of(self@, key@) is Some),
    {
        self.record(key).is_some()
    }

    /// The item filed under `key`.
    pub fn get(&self, key: &[u8]) -> (item: Option<&T>)
        requires
            self.wf(),
        ensures
            match item {
                Some(t) => position_of(self@, key@) is Some && *t == self@[position_of(
                    self@,
                    key@,
                )->0].1,
                None => position_of(self@, key@) is None,
            },
    {
        match self.record(key) {
            Some(record) => Some(&record.item),
            None => None,
        }
    }

    /// The item filed under `key`, or an error where there is none.
    pub fn load(&self, key: &[u8]) -> (item: Result<&T, ContractError>)
        requires
            self.wf(),
        ensures
            match item {
                Ok(t) => position_of(self@, key@) is Some && *t == self@[position_of(
                    self@,
                    key@,
                )->0].1,
                Err(e) => e == ContractError::NotFound && position_of(self@, key@) is None,
            },
    {
        match self.get(key) {
            Some(item) => Ok(item),
            None => Err(ContractError::NotFound),
        }
    }

    /// The hashes that one index page holds, in the order of their
    /// positions. A page that was never written is empty.
    pub fn get_indexes(&self, page: u32) -> (hashes: &[u64])
        requires
            self.wf(),
        ensures
            hashes@.len() == page_fill(self@.len() as int, page as int),
            forall|i: int|
                0 <= i < hashes@.len() ==> hashes@[i] == key_hash(
                    (#[trigger] self@[page * PAGE_SIZE + i]).0,
                ),
    {
        if (page as usize) < self.indexes.len() {
            let hashes = self.indexes[page as usize].as_slice();
            assert forall|i: int| 0 <= i < hashes@.len() implies hashes@[i] == key_hash(
                (#[trigger] self@[page * PAGE_SIZE + i]).0,
            ) by {
                let pos = page * PAGE_SIZE + i;
                assert(pos / (PAGE_SIZE as int) == page && pos % (PAGE_SIZE as int) == i);
                assert(self.items@.contains_key(self.hash_at(pos)));
            }
            hashes
        } else {
            let empty: &[u64] = &[];
            empty
        }
    }

    /// The item at a position.
    pub fn get_at(&self, position: u32) -> (item: Option<&T>)
        requires
            self.wf(),
        ensures
            match item {
                Some(t) => position < self@.len() && *t == self@[position as int].1,
                None => position >= self@.len(),
            },
    {
        if position >= self.length {
            return None;
        }
        let page = page_from_position(position) as usize;
        let offset = (position % PAGE_SIZE) as usize;
        assert(self.indexes@[page as int]@.len() == page_fill(self.length as int, page as int));
        let hash = self.indexes[page][offset];
        assert(hash == self.hash_at(position as int));
        match self.items.get(&hash) {
            Some(record) => Some(&record.item),
            None => None,
        }
    }

    /// The items at the positions from `start` up to, but not including,
    /// `end`.
    fn get_positions(&self, start: u32, end: u32) -> (found: Vec<&T>)
        requires
            self.wf(),
            start <= end <= self@.len(),
        ensures
            found@.len() == end - start,
            forall|i: int| 0 <= i < found@.len() ==> *found@[i] == (#[trigger] self@[start + i]).1,
    {
        let mut results: Vec<&T> = Vec::new();
        let mut position: u32 = start;
        while position < end
            invariant
                self.wf(),
                start <= position <= end <= self@.len(),
                results@.len() == position - start,
                forall|i: int|
                    0 <= i < results@.len() ==> *results@[i] == (#[trigger] self@[start + i]).1,
            decreases end - position,
        {
            match self.get_at(position) {
                Some(item) => {
                    results.push(item);
                },
                None => {},
            }
            position = position + 1;
        }
        results
    }

    /// All items in the order of their positions.
    pub fn iter(&self) -> (items: Vec<&T>)
        requires
            self.wf(),
        ensures
            items@.len() == self@.len(),
            forall|i: int| 0 <= i < items@.len() ==> *items@[i] == (#[trigger] self@[i]).1,
    {
        let items = self.get_positions(0, self.length);
        assert forall|i: int| 0 <= i < items@.len() implies *items@[i] == (#[trigger] self@[i]).1 by {
            assert(*items@[i] == self@[0 + i].1);
        }
        items
    }

    /// One page of items. Pages are numbered from zero and hold `size`
    /// positions each; the last page may hold fewer. A page that starts
    /// beyond the last position is out of bounds.
    pub fn paging(&self, start_page: u32, size: u32) -> (page: Result<Vec<&T>, ContractError>)
        requires
            self.wf(),
        ensures
            match page {
                Ok(found) => {
                    &&& start_page * size <= self@.len()
                    &&& found@.len() == page_of(self@, start_page as nat, size as nat).len()
                    &&& forall|i: int|
                        0 <= i < found@.len() ==> *found@[i] == (#[trigger] page_of(
                            self@,
                            start_page as nat,
                            size as nat,
                        )[i]).1
                },
                Err(e) => e == ContractError::OutOfBounds && start_page * size > self@.len(),
            },
    {
        assert(start_page * size <= 0xffff_ffff * 0xffff_ffff) by (nonlinear_arith)
            requires
                start_page <= 0xffff_ffff,
                size <= 0xffff_ffff,
        ;
        let start_pos: u64 = (start_page as u64) * (size as u64);
        let max_size: u64 = self.length as u64;
        if start_pos > max_size {
            return Err(ContractError::OutOfBounds);
        }
        let end_pos: u64 = if start_pos + (size as u64) > max_size {
            max_size
        } else {
            start_pos + (size as u64)
        };
        let found = self.get_positions(start_pos as u32, end_pos as u32);
        proof {
            let shown = page_of(self@, start_page as nat, size as nat);
            assert(shown =~= self@.subrange(start_pos as int, end_pos as int));
            assert forall|i: int| 0 <= i < found@.len() implies *found@[i] == (#[trigger] shown[i]).1 by {
                assert(*found@[i] == self@[start_pos + i].1);
            }
        }
        Ok(found)
    }

    /// Files `item` under `key`. A key that is already present keeps its
    /// position and only has its item replaced; a new key takes the
    /// position after the last one. A key whose hash belongs to another
    /// key is rejected, and so is a new key once every position is taken;
    /// neither changes anything.
    pub fn insert(&mut self, key: &[u8], item: T) -> (done: Result<(), ContractError>)
        requires
            old(self).wf(),
        ensures
            final(self).wf(),
            final(self).spec_prefix() == old(self).spec_prefix(),
            match done {
                Ok(()) => insert_refused(old(self)@, key@) is None && final(self)@ == inserted(
                    old(self)@,
                    key@,
                    item,
                ),
                Err(e) => insert_refused(old(self)@, key@) == Some(e) && final(self)@ == old(self)@,
            },
    {
        let hash = key_to_hash(key);
        proof {
            self.lemma_position(key@);
        }
        let existing: Option<u32> = match self.items.get(&hash) {
            Some(record) => {
                if same_key(record.key.as_slice(), key) {
                    Some(record.meta_data.position)
                } else {
                    return Err(ContractError::HashCollision);
                }
            },
            None => None,
        };
        match existing {
            Some(position) => {
                let to_store = InternalItem {
                    item,
                    key: slice_to_vec(key),
                    meta_data: MetaData { position },
                };
                self.items.insert(hash, to_store);
                proof {
                    assert forall|pos: int| 0 <= pos < self.length implies self.items@.contains_key(
                        #[trigger] self.hash_at(pos),
                    ) && self.items@[self.hash_at(pos)].meta_data.position == pos by {
                        assert(old(self).items@.contains_key(old(self).hash_at(pos)));
                    }
                    assert(self.wf());
                    assert(self@ =~= old(self)@.update(position as int, (key@, item))) by {
                        assert forall|pos: int| 0 <= pos < self.length implies self@[pos] == old(self)@.update(position as int, (key@, item))[pos] by {
                            assert(old(self).items@.contains_key(old(self).hash_at(pos)));
                        }
                    }
                }
                Ok(())
            },
            None => {
                let pos = self.length;
                if pos == u32::MAX {
                    return Err(ContractError::CapacityExceeded);
                }
                let page = page_from_position(pos) as usize;
                if page == self.indexes.len() {
                    self.indexes.push(Vec::new());
                }
                assert(self.indexes@[page as int]@.len() == page_fill(pos as int, page as int));
                self.indexes[page].push(hash);
                let to_store = InternalItem {
                    item,
                    key: slice_to_vec(key),
                    meta_data: MetaData { position: pos },
                };
                self.items.insert(hash, to_store);
                self.length = pos + 1;
                proof {
                    assert forall|q: int| 0 <= q < pos implies self.hash_at(q) == old(self).hash_at(
                        q,
                    ) by {
                        let p = q / (PAGE_SIZE as int);
                        assert(old(self).indexes@[p]@.len() == page_fill(pos as int, p));
                    }
                    assert(self.hash_at(pos as int) == hash);
                    assert forall|p: int| 0 <= p < self.indexes@.len() implies (
                    #[trigger] self.indexes@[p])@.len() == page_fill(self.length as int, p) by {
                        if p < old(self).indexes@.len() {
                            assert(old(self).indexes@[p]@.len() == page_fill(pos as int, p));
                        }
                    }
                    assert forall|q: int| 0 <= q < self.length implies self.items@.contains_key(
                        #[trigger] self.hash_at(q),
                    ) && self.items@[self.hash_at(q)].meta_data.position == q by {
                        if q < pos {
                            assert(old(self).items@.contains_key(old(self).hash_at(q)));
                        }
                    }
                    assert forall|h: u64| #[trigger] self.items@.contains_key(h) implies self.items@[h].meta_data.position
                        < self.length && self.hash_at(self.items@[h].meta_data.position as int)
                        == h && key_hash(self.items@[h].key@) == h by {
                        if h != hash {
                            assert(old(self).items@.contains_key(h));
                        }
                    }
                    assert(self.wf());
                    assert(self@ =~= old(self)@.push((key@, item))) by {
                        assert forall|q: int| 0 <= q < pos implies self@[q] == old(self)@[q] by {
                            assert(old(self).items@.contains_key(old(self).hash_at(q)));
                        }
                    }
                }
                Ok(())
            },
        }
    }

    /// Removes the entry filed under `key`. The last entry takes over the
    /// freed position: its record is rewritten to name that position and its
    /// hash replaces the removed one in the index page. A key that is not
    /// present is reported as not found and nothing changes.
    pub fn remove(&mut self, key: &[u8]) -> (done: Result<(), ContractError>)
        requires
            old(self).wf(),
        ensures
            final(self).wf(),
            final(self).spec_prefix() == old(self).spec_prefix(),
            match done {
                Ok(()) => position_of(old(self)@, key@) is Some && final(self)@ == removed_at(
                    old(self)@,
                    position_of(old(self)@, key@)->0,
                ),
                Err(e) => e == ContractError::NotFound && position_of(old(self)@, key@) is None
                    && final(self)@ == old(self)@,
            },
    {
        let hash = key_to_hash(key);
        proof {
            self.lemma_wf_view();
        }
        let removed_pos: u32 = match self.record(key) {
            Some(record) => record.meta_data.position,
            None => {
                return Err(ContractError::NotFound);
            },
        };
        let len: u32 = self.length - 1;
        let page = page_from_position(removed_pos) as usize;
        let max_page = page_from_position(len) as usize;
        assert(self.indexes@[max_page as int]@.len() == page_fill(self.length as int, max_page as int));
        assert(self.indexes@[page as int]@.len() == page_fill(self.length as int, page as int));
        let last_item_hash = match self.indexes[max_page].pop() {
            Some(h) => h,
            None => hash,
        };
        assert(last_item_hash == old(self).hash_at(len as int));
        if len != removed_pos {
            // the last entry moves into the freed position
            assert(old(self).items@.contains_key(last_item_hash));
            assert(last_item_hash != hash);
            let offset = (removed_pos % PAGE_SIZE) as usize;
            self.indexes[page][offset] = last_item_hash;
            match self.items.remove(&last_item_hash) {
                Some(last_item) => {
                    let moved = InternalItem {
                        item: last_item.item,
                        key: last_item.key,
                        meta_data: MetaData { position: removed_pos },
                    };
                    self.items.insert(last_item_hash, moved);
                },
                None => {},
            }
        }
        self.items.remove(&hash);
        self.length = len;
        proof {
            let rp = removed_pos as int;
            assert forall|q: int| 0 <= q < len && q != rp implies self.hash_at(q) == old(self).hash_at(q) by {
                let p = q / (PAGE_SIZE as int);
                assert(old(self).indexes@[p]@.len() == page_fill(old(self).length as int, p));
            }
            if len != removed_pos {
                assert(self.hash_at(rp) == last_item_hash);
            }
            assert forall|p: int| 0 <= p < self.indexes@.len() implies (
            #[trigger] self.indexes@[p])@.len() == page_fill(self.length as int, p) by {
                assert(old(self).indexes@[p]@.len() == page_fill(old(self).length as int, p));
            }
            assert forall|q: int| 0 <= q < self.length implies self.items@.contains_key(
                #[trigger] self.hash_at(q),
            ) && self.items@[self.hash_at(q)].meta_data.position == q by {
                if q != rp {
                    assert(old(self).items@.contains_key(old(self).hash_at(q)));
                    assert(old(self).items@[old(self).hash_at(q)].meta_data.position == q);
                }
            }
            assert forall|h: u64| #[trigger] self.items@.contains_key(h) implies self.items@[h].meta_data.position
                < self.length && self.hash_at(self.items@[h].meta_data.position as int) == h
                && key_hash(self.items@[h].key@) == h by {
                assert(old(self).items@.contains_key(h));
                if h != last_item_hash {
                    let q = old(self).items@[h].meta_data.position as int;
                    assert(old(self).hash_at(q) == h);
                    assert(q != len);
                    assert(q != rp);
                }
            }
            assert(self.wf());
            assert(self@ =~= removed_at(old(self)@, rp)) by {
                assert forall|q: int| 0 <= q < len implies self@[q] == removed_at(old(self)@, rp)[q] by {
                    if q != rp {
                        assert(old(self).items@.contains_key(old(self).hash_at(q)));
                        assert(old(self).items@[old(self).hash_at(q)].meta_data.position == q);
                    } else {
                        assert(old(self).items@.contains_key(old(self).hash_at(len as int)));
                    }
                }
            }
        }
        Ok(())
    }
}

/// Entries whose keys have distinct hashes have distinct keys.
pub proof fn lemma_distinct_keys<T>(s: Seq<(Seq<u8>, T)>)
    requires
        distinct_hashes(s),
    ensures
        forall|i: int, j: int|
            0 <= i < s.len() && 0 <= j < s.len() && i != j ==> (#[trigger] s[i]).0 != (
            #[trigger] s[j]).0,
{
    assert forall|i: int, j: int| 0 <= i < s.len() && 0 <= j < s.len() && i != j implies (
    #[trigger] s[i]).0 != (#[trigger] s[j]).0 by {
        assert(key_hash(s[i].0) != key_hash(s[j].0));
    }
}

/// The length of a well-formed store is the number of keys it holds: every
/// position files a different key, and every key that is filed has
/// exactly one position.
pub proof fn lemma_len_counts_keys<T>(store: CashMap<T>)
    requires
        store.wf(),
    ensures
        distinct_hashes(store@),
        stored_keys(store@).finite(),
        stored_keys(store@).len() == store@.len(),
{
    store.lemma_wf_view();
    lemma_distinct_keys_counted(store@);
}

/// A sequence of entries with distinct hashes files as many keys as it
/// has entries.
pub proof fn lemma_distinct_keys_counted<T>(s: Seq<(Seq<u8>, T)>)
    requires
        distinct_hashes(s),
    ensures
        stored_keys(s).finite(),
        stored_keys(s).len() == s.len(),
    decreases s.len(),
{
    if s.len() == 0 {
        assert(stored_keys(s) =~= Set::<Seq<u8>>::empty());
    } else {
        let t = s.drop_last();
        let k = s.last().0;
        lemma_distinct_keys(s);
        assert(distinct_hashes(t)) by {
            assert forall|i: int, j: int|
                0 <= i < t.len() && 0 <= j < t.len() && i != j implies key_hash(
                (#[trigger] t[i]).0,
            ) != key_hash((#[trigger] t[j]).0) by {
                assert(t[i] == s[i] && t[j] == s[j]);
            }
        }
        lemma_distinct_keys_counted(t);
        assert(stored_keys(s) =~= stored_keys(t).insert(k)) by {
            assert forall|x: Seq<u8>| stored_keys(s).contains(x) <==> stored_keys(t).insert(
                k,
            ).contains(x) by {
                if stored_keys(s).contains(x) {
                    let i = choose|i: int| 0 <= i < s.len() && (#[trigger] s[i]).0 == x;
                    if i < t.len() {
                        assert(t[i].0 == x);
                    }
                }
                if stored_keys(t).contains(x) {
                    let i = choose|i: int| 0 <= i < t.len() && (#[trigger] t[i]).0 == x;
                    assert(s[i].0 == x);
                }
                if x == k {
                    assert(s[s.len() - 1].0 == x);
                }
            }
        }
        assert(!stored_keys(t).contains(k)) by {
            if stored_keys(t).contains(k) {
                let i = choose|i: int| 0 <= i < t.len() && (#[trigger] t[i]).0 == k;
                assert(s[i].0 == k);
                assert(s[s.len() - 1].0 == k);
            }
        }
    }
}

/// Inserting under a key that does not collide changes what that key
/// leads to and nothing else, and keeps the hashes distinct.
pub proof fn lemma_inserted_as_map<T>(s: Seq<(Seq<u8>, T)>, key: Seq<u8>, item: T)
    requires
        distinct_hashes(s),
        !collides(s, key),
    ensures
        distinct_hashes(inserted(s, key, item)),
        as_map(inserted(s, key, item)) == as_map(s).insert(key, item),
{
    let t = inserted(s, key, item);
    lemma_distinct_keys(s);
    match position_of(s, key) {
        Some(p) => {
            assert(s[p].0 == key);
            assert forall|i: int, j: int|
                0 <= i < t.len() && 0 <= j < t.len() && i != j implies key_hash(
                (#[trigger] t[i]).0,
            ) != key_hash((#[trigger] t[j]).0) by {
                assert(t[i].0 == s[i].0 && t[j].0 == s[j].0);
            }
            assert forall|x: Seq<u8>| #[trigger] as_map(t).dom().contains(x) <==> as_map(s).insert(
                key,
                item,
            ).dom().contains(x) by {
                if position_of(t, x) is Some {
                    let i = position_of(t, x)->0;
                    assert(s[i].0 == x);
                }
                if position_of(s, x) is Some {
                    let i = position_of(s, x)->0;
                    assert(t[i].0 == x);
                }
                if x == key {
                    assert(t[p].0 == x);
                }
            }
            assert forall|x: Seq<u8>| #[trigger] as_map(t).dom().contains(x) implies as_map(t)[x]
                == as_map(s).insert(key, item)[x] by {
                let i = position_of(t, x)->0;
                assert(s[i].0 == x);
                if x != key {
                    let k = position_of(s, x)->0;
                    assert(s[k].0 == x);
                    assert(k == i);
                } else {
                    assert(i == p);
                }
            }
        },
        None => {
            assert forall|i: int, j: int|
                0 <= i < t.len() && 0 <= j < t.len() && i != j implies key_hash(
                (#[trigger] t[i]).0,
            ) != key_hash((#[trigger] t[j]).0) by {
                if i < s.len() {
                    assert(t[i] == s[i]);
                    assert(s[i].0 != key);
                }
                if j < s.len() {
                    assert(t[j] == s[j]);
                    assert(s[j].0 != key);
                }
            }
            assert forall|x: Seq<u8>| #[trigger] as_map(t).dom().contains(x) <==> as_map(s).insert(
                key,
                item,
            ).dom().contains(x) by {
                if position_of(t, x) is Some {
                    let i = position_of(t, x)->0;
                    if i < s.len() {
                        assert(s[i].0 == x);
                    }
                }
                if position_of(s, x) is Some {
                    let i = position_of(s, x)->0;
                    assert(t[i].0 == x);
                }
                if x == key {
                    assert(t[s.len() as int].0 == x);
                }
            }
            lemma_distinct_keys(t);
            assert forall|x: Seq<u8>| #[trigger] as_map(t).dom().contains(x) implies as_map(t)[x]
                == as_map(s).insert(key, item)[x] by {
                let i = position_of(t, x)->0;
                if x != key {
                    assert(i < s.len());
                    assert(s[i].0 == x);
                    let k = position_of(s, x)->0;
                    assert(t[k].0 == x);
                    assert(k == i);
                } else {
                    if i < s.len() {
                        assert(s[i].0 == x);
                    }
                }
            }
        },
    }
    assert(as_map(t) =~= as_map(s).insert(key, item));
}

/// Removing the entry at a position takes its key out of the map, leaves
/// every other key with its item, and keeps the hashes distinct.
pub proof fn lemma_removed_as_map<T>(s: Seq<(Seq<u8>, T)>, p: int)
    requires
        distinct_hashes(s),
        0 <= p < s.len(),
    ensures
        distinct_hashes(removed_at(s, p)),
        as_map(removed_at(s, p)) == as_map(s).remove(s[p].0),
{
    let t = removed_at(s, p);
    let last = s.len() - 1;
    lemma_distinct_keys(s);
    // where each entry of the result came from
    let origin = |i: int|
        if i == p {
            last
        } else {
            i
        };
    assert forall|i: int| 0 <= i < t.len() implies #[trigger] t[i] == s[origin(i)] by {}
    assert forall|i: int, j: int|
        0 <= i < t.len() && 0 <= j < t.len() && i != j implies key_hash((#[trigger] t[i]).0)
        != key_hash((#[trigger] t[j]).0) by {
        assert(t[i] == s[origin(i)] && t[j] == s[origin(j)]);
    }
    assert forall|x: Seq<u8>| #[trigger] as_map(t).dom().contains(x) <==> as_map(s).remove(
        s[p].0,
    ).dom().contains(x) by {
        if position_of(t, x) is Some {
            let i = position_of(t, x)->0;
            assert(t[i] == s[origin(i)]);
            assert(s[origin(i)].0 == x);
        }
        if position_of(s, x) is Some && x != s[p].0 {
            let k = position_of(s, x)->0;
            assert(s[k].0 == x);
            if k == last {
                assert(t[p].0 == x);
            } else {
                assert(t[k].0 == x);
            }
        }
    }
    assert forall|x: Seq<u8>| #[trigger] as_map(t).dom().contains(x) implies as_map(t)[x] == as_map(
        s,
    ).remove(s[p].0)[x] by {
        let i = position_of(t, x)->0;
        assert(t[i] == s[origin(i)]);
        let k = position_of(s, x)->0;
        assert(s[origin(i)].0 == x);
        assert(s[k].0 == x);
        assert(k == origin(i));
    }
    assert(as_map(t) =~= as_map(s).remove(s[p].0));
}

/// Reading the store page by page shows every entry exactly once and in
/// the order of the positions: the first `pages` pages of size `size` are
/// the first `pages * size` entries, and all of them once the pages reach
/// the length.
pub proof fn lemma_scan_covers<T>(s: Seq<(Seq<u8>, T)>, pages: nat, size: nat)
    ensures
        pages * size <= s.len() ==> scan(s, pages, size) == s.subrange(0, (pages * size) as int),
        pages * size >= s.len() ==> scan(s, pages, size) == s,
    decreases pages,
{
    if pages == 0 {
        assert(pages * size == 0) by (nonlinear_arith)
            requires
                pages == 0,
        ;
        assert(s.subrange(0, 0) =~= Seq::<(Seq<u8>, T)>::empty());
        if s.len() == 0 {
            assert(s =~= Seq::<(Seq<u8>, T)>::empty());
        }
    } else {
        let before = (pages - 1) as nat;
        lemma_scan_covers(s, before, size);
        assert(before * size + size == pages * size) by (nonlinear_arith)
            requires
                before + 1 == pages,
        ;
        if before * size <= s.len() {
            if pages * size <= s.len() {
                assert(scan(s, pages, size) =~= s.subrange(0, (pages * size) as int));
            } else {
                assert(scan(s, pages, size) =~= s);
            }
        } else {
            assert(page_of(s, before, size) =~= Seq::<(Seq<u8>, T)>::empty());
            assert(scan(s, pages, size) =~= s);
        }
    }
}

} // verus!
