//! A cache of file records, bounded in size, that gives up the record that
//! went longest without being read or written.
//!
//! The records live in a table of slots. Each occupied slot is a node of a
//! doubly linked list that runs from the least recently used record to the
//! most recently used one; the links are slot numbers. An index maps each
//! name to the slot of its record, so that looking a record up, moving it to
//! the recent end and dropping the oldest one all take constant time. A slot
//! that falls free is used again before a new one is made, so the table never
//! has more slots than the cache has room for records.

use crate::cache_model::CacheModel;
use crate::cache_model::Entry;
use crate::file::TFile;
use vstd::hash_map::StringHashMap;
use vstd::prelude::*;

verus! {

/// What `get` answers where no record is held under the name asked for.
pub const MISS: &'static str = "Don't find in cache";

/// One record of the cache with its place in the recency list: the slots of
/// the records used just before it (`prev`) and just after it (`next`).
#[derive(Debug)]
pub struct ListNode {
    key: String,
    value: TFile,
    next: Option<usize>,
    prev: Option<usize>,
}

impl ListNode {
    /// A node that is not linked to any other yet.
    fn new(key: String, value: TFile) -> (node: Self)
        ensures
            node.key == key,
            node.value == value,
            node.next is None,
            node.prev is None,
    {
        ListNode { key, value, next: None, prev: None }
    }
}

/// Rewrites the `next` link of the node in slot `handle`.
fn set_next(nodes: &mut Vec<Option<ListNode>>, handle: usize, next: Option<usize>)
    requires
        handle < old(nodes)@.len(),
        old(nodes)@[handle as int] is Some,
    ensures
        final(nodes)@ == old(nodes)@.update(
            handle as int,
            Some(ListNode { next, ..old(nodes)@[handle as int].unwrap() }),
        ),
{
    match &mut nodes[handle] {
        Some(node) => {
            node.next = next;
        },
        None => {},
    }
}

/// Rewrites the `prev` link of the node in slot `handle`.
fn set_prev(nodes: &mut Vec<Option<ListNode>>, handle: usize, prev: Option<usize>)
    requires
        handle < old(nodes)@.len(),
        old(nodes)@[handle as int] is Some,
    ensures
        final(nodes)@ == old(nodes)@.update(
            handle as int,
            Some(ListNode { prev, ..old(nodes)@[handle as int].unwrap() }),
        ),
{
    match &mut nodes[handle] {
        Some(node) => {
            node.prev = prev;
        },
        None => {},
    }
}

/// Empties slot `handle` and hands out the node that was in it.
fn take_node(nodes: &mut Vec<Option<ListNode>>, handle: usize) -> (node: ListNode)
    requires
        handle < old(nodes)@.len(),
        old(nodes)@[handle as int] is Some,
    ensures
        final(nodes)@ == old(nodes)@.update(handle as int, None),
        node == old(nodes)@[handle as int].unwrap(),
{
    nodes[handle].take().unwrap()
}

/// Puts `node` into slot `handle`.
fn place_node(nodes: &mut Vec<Option<ListNode>>, handle: usize, node: ListNode)
    requires
        handle < old(nodes)@.len(),
    ensures
        final(nodes)@ == old(nodes)@.update(handle as int, Some(node)),
{
    nodes[handle] = Some(node);
}

/// The cache. `map` finds a record's slot by its name; `first` is the slot of
/// the least recently used record and `last` that of the most recently used
/// one; `free` lists the slots that hold nothing.
pub struct LRUCache {
    capacity: usize,
    map: StringHashMap<usize>,
    nodes: Vec<Option<ListNode>>,
    free: Vec<usize>,
    first: Option<usize>,
    last: Option<usize>,
    /// The occupied slots in list order, from `first` to `last`.
    order: Ghost<Seq<usize>>,
}

impl View for LRUCache {
    type V = CacheModel;

    closed spec fn view(&self) -> CacheModel {
        CacheModel {
            capacity: self.capacity as nat,
            entries: Seq::new(self.order@.len(), |i: int| self.entry(i)),
        }
    }
}

impl LRUCache {
    /// The node in slot `handle`.
    spec fn node(self, handle: usize) -> ListNode {
        self.nodes@[handle as int].unwrap()
    }

    /// The name and record at place `i` of the list.
    spec fn entry(self, i: int) -> Entry {
        (self.node(self.order@[i]).key@, self.node(self.order@[i]).value@)
    }

    /// The slot before place `i` of the list.
    spec fn before(self, i: int) -> Option<usize> {
        if i == 0 {
            None
        } else {
            Some(self.order@[i - 1])
        }
    }

    /// The slot after place `i` of the list.
    spec fn after(self, i: int) -> Option<usize> {
        if i + 1 == self.order@.len() {
            None
        } else {
            Some(self.order@[i + 1])
        }
    }

    /// The slot at place `i` of the list is occupied, its links name its
    /// neighbours, and the index leads from its name to it.
    spec fn linked(self, i: int) -> bool {
        let handle = self.order@[i];
        &&& handle < self.nodes@.len()
        &&& self.nodes@[handle as int] is Some
        &&& self.node(handle).prev == self.before(i)
        &&& self.node(handle).next == self.after(i)
        &&& self.map@.contains_key(self.node(handle).key@)
        &&& self.map@[self.node(handle).key@] == handle
    }

    /// The `j`th free slot exists and is empty.
    spec fn spare(self, j: int) -> bool {
        &&& self.free@[j] < self.nodes@.len()
        &&& self.nodes@[self.free@[j] as int] is None
    }

    /// The representation is sound: the list is properly linked, the index
    /// holds exactly the names in the list, the free slots are empty, and
    /// every slot is either in the list or free. So there are never more
    /// slots than the cache has room for records.
    pub closed spec fn wf(&self) -> bool {
        &&& 1 <= self.capacity
        &&& self.order@.len() <= self.capacity
        &&& self.nodes@.len() == self.order@.len() + self.free@.len()
        &&& self.nodes@.len() <= self.capacity
        &&& self.order@.no_duplicates()
        &&& forall|i: int| 0 <= i < self.order@.len() ==> #[trigger] self.linked(i)
        &&& forall|name: Seq<char>| #[trigger]
            self.map@.contains_key(name) ==> self.order@.contains(self.map@[name]) && self.node(
                self.map@[name],
            ).key@ == name
        &&& self.first == if self.order@.len() == 0 {
            None
        } else {
            Some(self.order@.first())
        }
        &&& self.last == if self.order@.len() == 0 {
            None
        } else {
            Some(self.order@.last())
        }
        &&& self.free@.no_duplicates()
        &&& forall|j: int| 0 <= j < self.free@.len() ==> #[trigger] self.spare(j)
    }

    /// A sound cache holds a valid collection of records.
    pub proof fn lemma_valid(&self)
        requires
            self.wf(),
        ensures
            self@.valid(),
    {
        assert forall|i: int, j: int| 0 <= i < j < self@.entries.len() implies (
        #[trigger] self@.entries[i]).0 != (#[trigger] self@.entries[j]).0 by {
            assert(self.linked(i));
            assert(self.linked(j));
        }
    }

    /// The index knows a name exactly when the list holds a record under it,
    /// and then leads to that record's slot.
    proof fn lemma_index(&self, name: Seq<char>)
        requires
            self.wf(),
        ensures
            self.map@.contains_key(name) == self@.has(name),
            self@.has(name) ==> {
                &&& 0 <= self@.position(name) < self.order@.len()
                &&& self.order@[self@.position(name)] == self.map@[name]
                &&& self.order@.index_of(self.map@[name]) == self@.position(name)
            },
    {
        if self.map@.contains_key(name) {
            let at = self.order@.index_of(self.map@[name]);
            assert(self@.entries[at].0 == name);
        }
        if self@.has(name) {
            assert(self.linked(self@.position(name)));
        }
    }

    /// Makes a cache with room for `capacity` records.
    pub fn new(capacity: i32) -> (cache: Self)
        requires
            capacity >= 1,
        ensures
            cache.wf(),
            cache@ == CacheModel::empty(capacity as nat),
    {
        let cache = LRUCache {
            capacity: capacity as usize,
            map: StringHashMap::new(),
            nodes: Vec::new(),
            free: Vec::new(),
            first: None,
            last: None,
            order: Ghost(Seq::empty()),
        };
        assert(cache@.entries =~= Seq::empty());
        cache
    }

    /// Whether a record is held under `name`. The order of use stays as it is.
    pub fn find(&self, name: String) -> (found: bool)
        requires
            self.wf(),
        ensures
            found == self@.has(name@),
    {
        proof {
            self.lemma_index(name@);
        }
        self.map.contains_key(name.as_str())
    }

    /// Reads the record under `key`. On a hit the record becomes the most
    /// recently used one and a copy of it is returned; on a miss the cache
    /// stays as it is.
    pub fn get(&mut self, key: String) -> (found: Result<TFile, &'static str>)
        requires
            old(self).wf(),
        ensures
            final(self).wf(),
            final(self)@ == old(self)@.touch(key@),
            final(self)@.entries.len() <= final(self)@.capacity,
            match found {
                Ok(file) => old(self)@.lookup(key@) == Some(file@),
                Err(reason) => old(self)@.lookup(key@) is None && reason@ == MISS@,
            },
    {
        proof {
            self.lemma_index(key@);
        }
        match self.map.get(key.as_str()) {
            Some(handle) => {
                let node = self.remove(*handle);
                let value = node.value.clone();
                self.offer_last(node);
                Ok(value)
            },
            None => Err(MISS),
        }
    }

    /// Stores `value` under `key` as the most recently used record. A record
    /// already held under `key` is replaced; otherwise, where the cache is
    /// full, the least recently used record is dropped to make room.
    pub fn put(&mut self, key: String, value: TFile)
        requires
            old(self).wf(),
        ensures
            final(self).wf(),
            final(self)@ == old(self)@.put(key@, value@),
            final(self)@.entries.len() <= final(self)@.capacity,
    {
        proof {
            self.lemma_index(key@);
            self.lemma_size();
        }
        let node = ListNode::new(key, value);
        match self.map.get(node.key.as_str()) {
            Some(handle) => {
                let _ = self.remove(*handle);
            },
            None => {
                if self.map.len() == self.capacity {
                    self.poll_first();
                    proof {
                        self.lemma_index(node.key@);
                    }
                }
            },
        }
        self.offer_last(node);
    }

    /// The number of records held.
    pub fn len(&self) -> (len: usize)
        requires
            self.wf(),
        ensures
            len == self@.entries.len(),
    {
        proof {
            self.lemma_size();
        }
        self.map.len()
    }

    /// The number of records that the cache has room for.
    pub fn capacity(&self) -> (capacity: usize)
        ensures
            capacity == self@.capacity,
    {
        self.capacity
    }

    /// The names under which records are held, the least recently used first.
    pub fn keys(&self) -> (names: Vec<String>)
        requires
            self.wf(),
        ensures
            names@.len() == self@.entries.len(),
            forall|i: int| 0 <= i < names@.len() ==> (#[trigger] names@[i])@ == self@.entries[i].0,
    {
        let mut names: Vec<String> = Vec::new();
        let mut cursor = self.first;
        let ghost mut at: int = 0;
        while cursor.is_some()
            invariant
                self.wf(),
                0 <= at <= self.order@.len(),
                cursor == if at == self.order@.len() {
                    None
                } else {
                    Some(self.order@[at])
                },
                names@.len() == at,
                forall|i: int| 0 <= i < at ==> (#[trigger] names@[i])@ == self.entry(i).0,
            decreases self.order@.len() - at,
        {
            let handle = cursor.unwrap();
            assert(self.linked(at));
            match &self.nodes[handle] {
                Some(node) => {
                    names.push(node.key.clone());
                    cursor = node.next;
                },
                None => {},
            }
            proof {
                at = at + 1;
            }
        }
        names
    }

    /// The index holds as many names as the list holds records.
    proof fn lemma_size(&self)
        requires
            self.wf(),
        ensures
            self.map@.len() == self.order@.len(),
    {
        let names = Seq::new(self.order@.len(), |i: int| self.entry(i).0);
        assert forall|i: int, j: int|
            0 <= i < names.len() && 0 <= j < names.len() && i != j implies names[i] != names[j] by {
            assert(self.linked(i));
            assert(self.linked(j));
        }
        assert forall|name: Seq<char>| names.to_set().contains(name) == self.map@.dom().contains(
            name,
        ) by {
            if names.contains(name) {
                let i = names.index_of(name);
                assert(self.linked(i));
            }
            if self.map@.contains_key(name) {
                let i = self.order@.index_of(self.map@[name]);
                assert(names[i] == name);
            }
        }
        assert(names.to_set() =~= self.map@.dom());
        names.unique_seq_to_set();
    }

    /// Takes the node in slot `handle` out of the list and out of the index,
    /// joins its neighbours, and frees the slot.
    fn remove(&mut self, handle: usize) -> (node: ListNode)
        requires
            old(self).wf(),
            old(self).order@.contains(handle),
        ensures
            final(self).wf(),
            final(self).capacity == old(self).capacity,
            final(self).order@.len() == old(self).order@.len() - 1,
            final(self)@.entries == old(self)@.entries.remove(old(self).order@.index_of(handle)),
            (node.key@, node.value@) == old(self)@.entries[old(self).order@.index_of(handle)],
            !final(self).map@.contains_key(node.key@),
    {
        let ghost at = self.order@.index_of(handle);
        let ghost before = *self;
        assert(self.linked(at));
        let node = take_node(&mut self.nodes, handle);
        match (node.prev, node.next) {
            (Some(prev), Some(next)) => {
                assert(before.linked(at - 1));
                assert(before.linked(at + 1));
                set_next(&mut self.nodes, prev, Some(next));
                set_prev(&mut self.nodes, next, Some(prev));
            },
            (Some(prev), None) => {
                assert(before.linked(at - 1));
                set_next(&mut self.nodes, prev, None);
                self.last = Some(prev);
            },
            (None, Some(next)) => {
                assert(before.linked(at + 1));
                set_prev(&mut self.nodes, next, None);
                self.first = Some(next);
            },
            (None, None) => {
                self.first = None;
                self.last = None;
            },
        }
        self.map.remove(node.key.as_str());
        self.free.push(handle);
        proof {
            self.order@ = before.order@.remove(at);
            assert forall|i: int| 0 <= i < before.order@.len() && i != at implies #[trigger] before.rejoined(
                *self,
                at,
                i,
            ) by {
                assert(before.linked(i));
            }
            before.lemma_unlinked(*self, at);
        }
        node
    }

    /// After the node at place `at` was cut out, the node at place `i` is as it
    /// was, but for the link that led to the node that left: that link now
    /// leads to the neighbour on the other side.
    spec fn rejoined(self, now: LRUCache, at: int, i: int) -> bool {
        let slot = self.order@[i];
        &&& now.nodes@[slot as int] is Some
        &&& now.node(slot).key == self.node(slot).key
        &&& now.node(slot).value == self.node(slot).value
        &&& now.node(slot).prev == if i == at + 1 {
            self.before(at)
        } else {
            self.node(slot).prev
        }
        &&& now.node(slot).next == if i + 1 == at {
            self.after(at)
        } else {
            self.node(slot).next
        }
    }

    /// What is left when the node at place `at` of a sound cache is cut out
    /// and its neighbours are joined is a sound cache again, without that
    /// record.
    proof fn lemma_unlinked(self, now: LRUCache, at: int)
        requires
            self.wf(),
            0 <= at < self.order@.len(),
            now.capacity == self.capacity,
            now.order@ == self.order@.remove(at),
            now.map@ == self.map@.remove(self.entry(at).0),
            now.free@ == self.free@.push(self.order@[at]),
            now.first == if at == 0 {
                self.after(at)
            } else {
                self.first
            },
            now.last == if at + 1 == self.order@.len() {
                self.before(at)
            } else {
                self.last
            },
            now.nodes@.len() == self.nodes@.len(),
            now.nodes@[self.order@[at] as int] is None,
            forall|i: int| 0 <= i < self.order@.len() && i != at ==> #[trigger] self.rejoined(now, at, i),
            forall|slot: int|
                0 <= slot < self.nodes@.len() && self.nodes@[slot] is None ==> now.nodes@[slot] is None,
        ensures
            now.wf(),
            now@.entries == self@.entries.remove(at),
            !now.map@.contains_key(self.entry(at).0),
    {
        // Place `i` of the new list is place `i` of the old one before `at`,
        // and place `i + 1` from there on.
        assert(self.linked(at));
        assert forall|i: int| 0 <= i < now.order@.len() implies #[trigger] now.linked(i) by {
            let j = if i < at {
                i
            } else {
                i + 1
            };
            assert(now.order@[i] == self.order@[j]);
            assert(self.linked(j));
            assert(self.rejoined(now, at, j));
        }
        assert forall|name: Seq<char>| #[trigger] now.map@.contains_key(name) implies now.order@.contains(
            now.map@[name],
        ) && now.node(now.map@[name]).key@ == name by {
            let slot = self.map@[name];
            let j = self.order@.index_of(slot);
            assert(self.order@[j] == slot);
            assert(self.rejoined(now, at, j));
            let i = if j < at {
                j
            } else {
                j - 1
            };
            assert(now.order@[i] == slot);
        }
        assert forall|j: int| 0 <= j < now.free@.len() implies #[trigger] now.spare(j) by {
            if j < self.free@.len() {
                assert(self.spare(j));
            }
        }
        assert forall|j: int, k: int|
            0 <= j < now.free@.len() && 0 <= k < now.free@.len() && j != k implies now.free@[j]
            != now.free@[k] by {
            if j < self.free@.len() {
                assert(self.spare(j));
            }
            if k < self.free@.len() {
                assert(self.spare(k));
            }
        }
        assert forall|i: int| 0 <= i < now.order@.len() implies now@.entries[i]
            == self@.entries.remove(at)[i] by {
            let j = if i < at {
                i
            } else {
                i + 1
            };
            assert(now.order@[i] == self.order@[j]);
            assert(self.rejoined(now, at, j));
        }
        assert(now@.entries =~= self@.entries.remove(at));
    }

    /// Puts `node` into a free slot and links it in as the most recently used
    /// record.
    fn offer_last(&mut self, node: ListNode)
        requires
            old(self).wf(),
            old(self).order@.len() < old(self).capacity,
            !old(self).map@.contains_key(node.key@),
        ensures
            final(self).wf(),
            final(self).capacity == old(self).capacity,
            final(self)@.entries == old(self)@.entries.push((node.key@, node.value@)),
    {
        let ghost before = *self;
        let mut node = node;
        node.next = None;
        node.prev = self.last;
        let key = node.key.clone();
        let handle = match self.free.pop() {
            Some(handle) => {
                assert(before.spare(before.free@.len() - 1));
                place_node(&mut self.nodes, handle, node);
                handle
            },
            None => {
                self.nodes.push(Some(node));
                self.nodes.len() - 1
            },
        };
        match self.last {
            Some(last) => {
                assert(before.linked(before.order@.len() - 1));
                set_next(&mut self.nodes, last, Some(handle));
            },
            None => {
                self.first = Some(handle);
            },
        }
        self.last = Some(handle);
        self.map.insert(key, handle);
        proof {
            self.order@ = before.order@.push(handle);
            assert forall|i: int| 0 <= i < before.order@.len() implies #[trigger] before.extended(
                *self,
                i,
            ) by {
                assert(before.linked(i));
            }
            assert forall|j: int| 0 <= j < self.free@.len() implies self.free@[j] != handle
                && #[trigger] self.spare(j) by {
                assert(before.spare(j));
            }
            before.lemma_appended(*self, handle);
        }
    }

    /// After a node was linked in behind the last one, the node at place `i`
    /// is as it was, but that the last one now leads on to the new node.
    spec fn extended(self, now: LRUCache, i: int) -> bool {
        let slot = self.order@[i];
        &&& now.nodes@[slot as int] is Some
        &&& now.node(slot).key == self.node(slot).key
        &&& now.node(slot).value == self.node(slot).value
        &&& now.node(slot).prev == self.node(slot).prev
        &&& now.node(slot).next == if i + 1 == self.order@.len() {
            Some(now.order@.last())
        } else {
            self.node(slot).next
        }
    }

    /// A sound cache with room left, to which a node under a new name was
    /// linked in at the recent end, is a sound cache with that record last.
    proof fn lemma_appended(self, now: LRUCache, handle: usize)
        requires
            self.wf(),
            self.order@.len() < self.capacity,
            now.capacity == self.capacity,
            now.order@ == self.order@.push(handle),
            self.nodes@.len() <= now.nodes@.len(),
            now.nodes@.len() == now.order@.len() + now.free@.len(),
            now.nodes@.len() <= now.capacity,
            handle < now.nodes@.len(),
            now.nodes@[handle as int] is Some,
            handle >= self.nodes@.len() || self.nodes@[handle as int] is None,
            now.node(handle).prev == self.last,
            now.node(handle).next is None,
            !self.map@.contains_key(now.node(handle).key@),
            now.map@ == self.map@.insert(now.node(handle).key@, handle),
            now.first == if self.order@.len() == 0 {
                Some(handle)
            } else {
                self.first
            },
            now.last == Some(handle),
            forall|i: int| 0 <= i < self.order@.len() ==> #[trigger] self.extended(now, i),
            now.free@.no_duplicates(),
            forall|j: int| 0 <= j < now.free@.len() ==> #[trigger] now.spare(j),
        ensures
            now.wf(),
            now@.entries == self@.entries.push((now.node(handle).key@, now.node(handle).value@)),
    {
        let len = self.order@.len() as int;
        assert forall|i: int| 0 <= i < len implies self.order@[i] != handle by {
            assert(self.linked(i));
        }
        assert forall|i: int| 0 <= i < now.order@.len() implies #[trigger] now.linked(i) by {
            if i < len {
                assert(self.linked(i));
                assert(self.extended(now, i));
            }
        }
        assert forall|name: Seq<char>| #[trigger] now.map@.contains_key(name) implies now.order@.contains(
            now.map@[name],
        ) && now.node(now.map@[name]).key@ == name by {
            if name == now.node(handle).key@ {
                assert(now.order@[len] == handle);
            } else {
                let slot = self.map@[name];
                let j = self.order@.index_of(slot);
                assert(self.order@[j] == slot);
                assert(self.extended(now, j));
                assert(now.order@[j] == slot);
            }
        }
        assert forall|i: int| 0 <= i < now.order@.len() implies now@.entries[i] == self@.entries.push(
            (now.node(handle).key@, now.node(handle).value@),
        )[i] by {
            if i < len {
                assert(self.extended(now, i));
            }
        }
        assert(now@.entries =~= self@.entries.push(
            (now.node(handle).key@, now.node(handle).value@),
        ));
    }

    /// Drops the least recently used record, if there is any record.
    fn poll_first(&mut self)
        requires
            old(self).wf(),
        ensures
            final(self).wf(),
            final(self).capacity == old(self).capacity,
            final(self)@.entries == if old(self)@.entries.len() == 0 {
                old(self)@.entries
            } else {
                old(self)@.entries.drop_first()
            },
            final(self).order@.len() == final(self)@.entries.len(),
    {
        if let Some(handle) = self.first {
            assert(self.order@[0] == handle);
            assert(self@.entries.remove(0) =~= self@.entries.drop_first());
            let _ = self.remove(handle);
        }
    }
}

} // verus!
