//! An owned keyed buffer store: one sequential upload buffer, a set of
//! parallel chunks keyed by chunk id, and a keyed stable area that finished
//! payloads are saved into. A service exposing these operations holds one
//! value of this store and forwards each call.

use vstd::prelude::*;

use vstd::multiset::Multiset;

use crate::copy_byte_range;

verus! {

broadcast use
    vstd::seq_lib::group_to_multiset_ensures,
    vstd::multiset::group_multiset_axioms,
;

/// The ids of the parallel chunk entries, in insertion order.
pub open spec fn spec_entry_ids(entries: Seq<(u32, Vec<u8>)>) -> Seq<u32> {
    entries.map_values(|e: (u32, Vec<u8>)| e.0)
}

/// The keys of the stable entries, in insertion order.
pub open spec fn spec_entry_keys(entries: Seq<(String, Vec<u8>)>) -> Seq<Seq<char>> {
    entries.map_values(|e: (String, Vec<u8>)| e.0@)
}

/// The data of the first parallel entry with this id; empty when absent.
pub open spec fn spec_chunk_data(entries: Seq<(u32, Vec<u8>)>, id: u32) -> Seq<u8>
    decreases entries.len(),
{
    if entries.len() == 0 {
        Seq::empty()
    } else if entries[0].0 == id {
        entries[0].1@
    } else {
        spec_chunk_data(entries.drop_first(), id)
    }
}

/// The data of the first stable entry with this key; empty when absent.
pub open spec fn spec_stable_data(entries: Seq<(String, Vec<u8>)>, key: Seq<char>) -> Seq<u8>
    decreases entries.len(),
{
    if entries.len() == 0 {
        Seq::empty()
    } else if entries[0].0@ == key {
        entries[0].1@
    } else {
        spec_stable_data(entries.drop_first(), key)
    }
}

/// The total size of all parallel chunks, as an unbounded number.
pub open spec fn spec_total_size(entries: Seq<(u32, Vec<u8>)>) -> int
    decreases entries.len(),
{
    if entries.len() == 0 {
        0
    } else {
        spec_total_size(entries.drop_last()) + entries.last().1@.len()
    }
}

/// The id list with `x` placed before its first element that is not smaller.
pub open spec fn spec_insert_sorted(x: u32, s: Seq<u32>) -> Seq<u32>
    decreases s.len(),
{
    if s.len() == 0 {
        seq![x]
    } else if x <= s[0] {
        seq![x] + s
    } else {
        seq![s[0]] + spec_insert_sorted(x, s.drop_first())
    }
}

/// The ids in ascending order.
pub open spec fn spec_sort_ids(ids: Seq<u32>) -> Seq<u32>
    decreases ids.len(),
{
    if ids.len() == 0 {
        Seq::empty()
    } else {
        spec_insert_sorted(ids.last(), spec_sort_ids(ids.drop_last()))
    }
}

/// Ascending order, allowing repeats.
pub open spec fn spec_sorted(s: Seq<u32>) -> bool {
    forall|p: int, q: int| 0 <= p < q < s.len() ==> s[p] <= s[q]
}

/// Inserting into a sorted id list keeps it sorted and adds exactly that id.
pub proof fn lemma_insert_sorted_props(x: u32, s: Seq<u32>)
    requires
        spec_sorted(s),
    ensures
        spec_sorted(spec_insert_sorted(x, s)),
        spec_insert_sorted(x, s).to_multiset() == s.to_multiset().insert(x),
        spec_insert_sorted(x, s).len() == s.len() + 1,
    decreases s.len(),
{
    let out = spec_insert_sorted(x, s);
    if s.len() == 0 {
        assert(out =~= s.push(x));
    } else if x <= s[0] {
        assert(out == seq![x] + s);
        assert forall|p: int, q: int| 0 <= p < q < out.len() implies out[p] <= out[q] by {
            if p > 0 {
                assert(out[p] == s[p - 1] && out[q] == s[q - 1]);
            } else {
                assert(out[q] == s[q - 1]);
                assert(x <= s[0] <= s[q - 1]);
            }
        }
        vstd::seq_lib::lemma_multiset_commutative(seq![x], s);
        assert(seq![x].to_multiset() =~= Multiset::<u32>::empty().insert(x));
        assert(out.to_multiset() =~= s.to_multiset().insert(x));
    } else {
        assert(spec_sorted(s.drop_first()));
        lemma_insert_sorted_props(x, s.drop_first());
        let inner = spec_insert_sorted(x, s.drop_first());
        assert(out == seq![s[0]] + inner);
        assert forall|p: int, q: int| 0 <= p < q < out.len() implies out[p] <= out[q] by {
            if p > 0 {
                assert(out[p] == inner[p - 1] && out[q] == inner[q - 1]);
            } else {
                assert(out[0] == s[0]);
                assert(out[q] == inner[q - 1]);
                assert(inner.to_multiset().contains(inner[q - 1]));
                assert(inner.to_multiset() == s.drop_first().to_multiset().insert(x));
                if inner[q - 1] == x {
                    assert(s[0] <= x);
                } else {
                    assert(s.drop_first().to_multiset().contains(inner[q - 1]));
                    assert(s.drop_first().contains(inner[q - 1]));
                    let w = choose|w: int|
                        0 <= w < s.drop_first().len() && s.drop_first()[w] == inner[q - 1];
                    assert(s[0] <= s[w + 1]);
                }
            }
        }
        vstd::seq_lib::lemma_multiset_commutative(seq![s[0]], inner);
        vstd::seq_lib::lemma_multiset_commutative(seq![s[0]], s.drop_first());
        assert(seq![s[0]] + s.drop_first() =~= s);
        assert(seq![s[0]].to_multiset() =~= Multiset::<u32>::empty().insert(s[0]));
        assert(out.to_multiset() =~= s.to_multiset().insert(x));
    }
}

/// Sorting the ids yields them in ascending order, none lost, none added.
pub proof fn lemma_sort_ids_props(ids: Seq<u32>)
    ensures
        spec_sorted(spec_sort_ids(ids)),
        spec_sort_ids(ids).to_multiset() == ids.to_multiset(),
        spec_sort_ids(ids).len() == ids.len(),
    decreases ids.len(),
{
    if ids.len() > 0 {
        lemma_sort_ids_props(ids.drop_last());
        lemma_insert_sorted_props(ids.last(), spec_sort_ids(ids.drop_last()));
        assert(ids.drop_last().push(ids.last()) =~= ids);
        assert(ids.drop_last().to_multiset().insert(ids.last()) =~= ids.to_multiset());
    }
}

/// Places `x` before the first element of the sorted list that is not
/// smaller.
fn insert_sorted(v: &mut Vec<u32>, x: u32)
    ensures
        final(v)@ == spec_insert_sorted(x, old(v)@),
{
    let n = v.len();
    let mut pos: usize = 0;
    while pos < n && v[pos] < x
        invariant
            n == v@.len(),
            pos <= n,
            forall|j: int| 0 <= j < pos ==> v@[j] < x,
            *v == *old(v),
        decreases n - pos,
    {
        pos = pos + 1;
    }
    proof {
        lemma_insert_sorted_split(x, v@, pos as int);
    }
    v.insert(pos, x);
    proof {
        assert(old(v)@.insert(pos as int, x) =~= old(v)@.take(pos as int) + seq![x] + old(
            v,
        )@.skip(pos as int));
    }
}

/// Where the first not-smaller element sits, insertion splits the list
/// there.
proof fn lemma_insert_sorted_split(x: u32, s: Seq<u32>, pos: int)
    requires
        0 <= pos <= s.len(),
        forall|j: int| 0 <= j < pos ==> s[j] < x,
        pos < s.len() ==> x <= s[pos],
    ensures
        spec_insert_sorted(x, s) == s.take(pos) + seq![x] + s.skip(pos),
    decreases pos,
{
    if pos == 0 {
        if s.len() == 0 {
            assert(spec_insert_sorted(x, s) =~= s.take(0) + seq![x] + s.skip(0));
        } else {
            assert(x <= s[0]);
            assert(seq![x] + s =~= s.take(0) + seq![x] + s.skip(0));
        }
    } else {
        assert(s[0] < x);
        lemma_insert_sorted_split(x, s.drop_first(), pos - 1);
        assert(s.drop_first().take(pos - 1) =~= s.take(pos).drop_first());
        assert(seq![s[0]] + (s.drop_first().take(pos - 1) + seq![x] + s.drop_first().skip(
            pos - 1,
        )) =~= s.take(pos) + seq![x] + s.skip(pos));
    }
}

/// The consolidated payload of the parallel chunks: every chunk's data,
/// concatenated in ascending id order.
pub open spec fn spec_consolidated(entries: Seq<(u32, Vec<u8>)>) -> Seq<u8> {
    spec_sort_ids(spec_entry_ids(entries)).map_values(
        |id: u32| spec_chunk_data(entries, id),
    ).flatten()
}

/// One heap buffer, the parallel chunks of an in-progress upload, and the
/// keyed stable storage area.
pub struct BufferStore {
    /// The single sequential upload buffer.
    pub buffer: Vec<u8>,
    /// Parallel chunks keyed by chunk id, in insertion order.
    pub parallel: Vec<(u32, Vec<u8>)>,
    /// Saved payloads keyed by name, in insertion order.
    pub stable: Vec<(String, Vec<u8>)>,
}

impl BufferStore {
    /// The store's invariant: chunk ids and stable keys are distinct.
    pub open spec fn wf(self) -> bool {
        &&& spec_entry_ids(self.parallel@).no_duplicates()
        &&& spec_entry_keys(self.stable@).no_duplicates()
    }

    /// A fresh store with nothing buffered, no parallel chunks, and nothing
    /// saved.
    pub fn new() -> (s: Self)
        ensures
            s.wf(),
            s.buffer@ == Seq::<u8>::empty(),
            s.parallel@ == Seq::<(u32, Vec<u8>)>::empty(),
            s.stable@ == Seq::<(String, Vec<u8>)>::empty(),
    {
        let s = BufferStore { buffer: Vec::new(), parallel: Vec::new(), stable: Vec::new() };
        proof {
            assert(spec_entry_ids(s.parallel@) =~= Seq::<u32>::empty());
            assert(spec_entry_keys(s.stable@) =~= Seq::<Seq<char>>::empty());
        }
        s
    }

    /// Append chunk to the single heap buffer.
    pub fn append_chunk(&mut self, chunk: Vec<u8>)
        requires
            old(self).wf(),
        ensures
            final(self).wf(),
            final(self).buffer@ == old(self).buffer@ + chunk@,
            final(self).parallel@ == old(self).parallel@,
            final(self).stable@ == old(self).stable@,
    {
        let mut incoming = chunk;
        self.buffer.append(&mut incoming);
    }

    /// Get current buffer size.
    pub fn buffer_size(&self) -> (n: usize)
        ensures
            n == self.buffer@.len(),
    {
        self.buffer.len()
    }

    /// Clear the heap buffer.
    pub fn clear_buffer(&mut self)
        requires
            old(self).wf(),
        ensures
            final(self).wf(),
            final(self).buffer@ == Seq::<u8>::empty(),
            final(self).parallel@ == old(self).parallel@,
            final(self).stable@ == old(self).stable@,
    {
        self.buffer.clear();
    }

    /// Get buffered data (consumes the buffer).
    pub fn get_data(&mut self) -> (data: Vec<u8>)
        requires
            old(self).wf(),
        ensures
            final(self).wf(),
            data@ == old(self).buffer@,
            final(self).buffer@ == Seq::<u8>::empty(),
            final(self).parallel@ == old(self).parallel@,
            final(self).stable@ == old(self).stable@,
    {
        let mut taken = Vec::new();
        std::mem::swap(&mut taken, &mut self.buffer);
        taken
    }

    /// The index of the parallel entry holding this id, if any.
    fn find_parallel(&self, chunk_id: u32) -> (r: Option<usize>)
        ensures
            match r {
                Some(i) => i < self.parallel@.len() && self.parallel@[i as int].0 == chunk_id
                    && (forall|j: int|
                    0 <= j < i ==> (#[trigger] self.parallel@[j]).0 != chunk_id),
                None => forall|i: int|
                    0 <= i < self.parallel@.len() ==> (#[trigger] self.parallel@[i]).0 != chunk_id,
            },
    {
        let n = self.parallel.len();
        let mut i: usize = 0;
        while i < n
            invariant
                n == self.parallel@.len(),
                i <= n,
                forall|j: int| 0 <= j < i ==> (#[trigger] self.parallel@[j]).0 != chunk_id,
            decreases n - i,
        {
            if self.parallel[i].0 == chunk_id {
                return Some(i);
            }
            i = i + 1;
        }
        None
    }

    /// The index of the stable entry holding this key, if any.
    fn find_stable(&self, key: &String) -> (r: Option<usize>)
        ensures
            match r {
                Some(i) => i < self.stable@.len() && self.stable@[i as int].0@ == key@ && (
                forall|j: int| 0 <= j < i ==> (#[trigger] self.stable@[j]).0@ != key@),
                None => forall|i: int|
                    0 <= i < self.stable@.len() ==> (#[trigger] self.stable@[i]).0@ != key@,
            },
    {
        let n = self.stable.len();
        let mut i: usize = 0;
        while i < n
            invariant
                n == self.stable@.len(),
                i <= n,
                forall|j: int| 0 <= j < i ==> (#[trigger] self.stable@[j]).0@ != key@,
            decreases n - i,
        {
            if self.stable[i].0.eq(key) {
                return Some(i);
            }
            i = i + 1;
        }
        None
    }

    /// Append chunk with ID for parallel uploads: a fresh id is added, a
    /// present id has its data replaced.
    pub fn append_parallel_chunk(&mut self, chunk_id: u32, chunk: Vec<u8>)
        requires
            old(self).wf(),
        ensures
            final(self).wf(),
            final(self).buffer@ == old(self).buffer@,
            final(self).stable@ == old(self).stable@,
            spec_entry_ids(old(self).parallel@).contains(chunk_id) ==> exists|i: int|
                0 <= i < old(self).parallel@.len() && (#[trigger] old(self).parallel@[i]).0
                    == chunk_id && final(self).parallel@ == old(self).parallel@.update(
                    i,
                    (chunk_id, chunk),
                ),
            !spec_entry_ids(old(self).parallel@).contains(chunk_id) ==> final(self).parallel@
                == old(self).parallel@.push((chunk_id, chunk)),
    {
        let found = self.find_parallel(chunk_id);
        match found {
            Some(i) => {
                self.parallel.remove(i);
                self.parallel.insert(i, (chunk_id, chunk));
                proof {
                    assert(self.parallel@ =~= old(self).parallel@.update(
                        i as int,
                        (chunk_id, chunk),
                    ));
                    assert(spec_entry_ids(old(self).parallel@)[i as int] == chunk_id);
                    assert(spec_entry_ids(self.parallel@) =~= spec_entry_ids(
                        old(self).parallel@,
                    ));
                }
            },
            None => {
                self.parallel.push((chunk_id, chunk));
                proof {
                    let oldids = spec_entry_ids(old(self).parallel@);
                    assert(!oldids.contains(chunk_id)) by {
                        if oldids.contains(chunk_id) {
                            let w = choose|w: int|
                                0 <= w < oldids.len() && oldids[w] == chunk_id;
                            assert(old(self).parallel@[w].0 == chunk_id);
                        }
                    }
                    let newids = spec_entry_ids(self.parallel@);
                    assert(newids =~= oldids.push(chunk_id));
                    assert forall|p: int, q: int|
                        0 <= p < q < newids.len() implies newids[p] != newids[q] by {
                        if q == newids.len() - 1 {
                            assert(oldids[p] == newids[p]);
                            assert(oldids.contains(newids[p]) == oldids.contains(
                                oldids[p],
                            ));
                        }
                    }
                }
            },
        }
    }

    /// Get number of chunks in the parallel buffer.
    pub fn parallel_chunk_count(&self) -> (n: usize)
        ensures
            n == self.parallel@.len(),
    {
        self.parallel.len()
    }

    /// Get list of chunk IDs currently in the parallel buffer, in ascending
    /// order.
    pub fn parallel_chunk_ids(&self) -> (ids: Vec<u32>)
        ensures
            ids@ == spec_sort_ids(spec_entry_ids(self.parallel@)),
    {
        let n = self.parallel.len();
        let mut out: Vec<u32> = Vec::new();
        let mut i: usize = 0;
        while i < n
            invariant
                n == self.parallel@.len(),
                i <= n,
                out@ == spec_sort_ids(spec_entry_ids(self.parallel@).take(i as int)),
            decreases n - i,
        {
            insert_sorted(&mut out, self.parallel[i].0);
            proof {
                let ids = spec_entry_ids(self.parallel@);
                assert(ids.take(i + 1 as int).drop_last() =~= ids.take(i as int));
                assert(ids.take(i + 1 as int).last() == ids[i as int]);
                assert(ids[i as int] == self.parallel@[i as int].0);
            }
            i = i + 1;
        }
        proof {
            assert(spec_entry_ids(self.parallel@).take(n as int) =~= spec_entry_ids(
                self.parallel@,
            ));
        }
        out
    }

    /// Get total size of all chunks in the parallel buffer, capped at the
    /// largest representable value.
    pub fn parallel_buffer_size(&self) -> (n: usize)
        ensures
            spec_total_size(self.parallel@) <= usize::MAX ==> n == spec_total_size(
                self.parallel@,
            ),
            spec_total_size(self.parallel@) > usize::MAX ==> n == usize::MAX,
    {
        let m = self.parallel.len();
        let mut total: usize = 0;
        let mut i: usize = 0;
        while i < m
            invariant
                m == self.parallel@.len(),
                i <= m,
                spec_total_size(self.parallel@.take(i as int)) <= usize::MAX ==> total
                    == spec_total_size(self.parallel@.take(i as int)),
                spec_total_size(self.parallel@.take(i as int)) > usize::MAX ==> total
                    == usize::MAX,
            decreases m - i,
        {
            proof {
                let pre = self.parallel@.take(i as int);
                let post = self.parallel@.take(i + 1 as int);
                assert(post.drop_last() =~= pre);
                assert(post.last() == self.parallel@[i as int]);
                lemma_total_size_nonneg(pre);
            }
            total = crate::parallel::saturating_add_usize(total, self.parallel[i].1.len());
            i = i + 1;
        }
        proof {
            assert(self.parallel@.take(m as int) =~= self.parallel@);
        }
        total
    }

    /// Check that exactly the chunks with ids 0 to `expected_count - 1` are
    /// present.
    pub fn parallel_chunks_complete(&self, expected_count: u32) -> (b: bool)
        ensures
            b == (self.parallel@.len() == expected_count && (forall|k: u32|
                k < expected_count ==> spec_entry_ids(self.parallel@).contains(k))),
    {
        if self.parallel.len() != expected_count as usize {
            return false;
        }
        let mut k: u32 = 0;
        while k < expected_count
            invariant
                self.parallel@.len() == expected_count,
                k <= expected_count,
                forall|k2: u32| k2 < k ==> spec_entry_ids(self.parallel@).contains(k2),
            decreases expected_count - k,
        {
            match self.find_parallel(k) {
                Some(i) => {
                    proof {
                        assert(spec_entry_ids(self.parallel@)[i as int] == k);
                        assert(spec_entry_ids(self.parallel@).contains(k));
                    }
                },
                None => {
                    proof {
                        let ids = spec_entry_ids(self.parallel@);
                        assert(!ids.contains(k)) by {
                            if ids.contains(k) {
                                let w = choose|w: int| 0 <= w < ids.len() && ids[w] == k;
                                assert(self.parallel@[w].0 == k);
                            }
                        }
                    }
                    return false;
                },
            }
            k = k + 1;
        }
        true
    }

    /// Clear all parallel chunks.
    pub fn clear_parallel_chunks(&mut self)
        requires
            old(self).wf(),
        ensures
            final(self).wf(),
            final(self).buffer@ == old(self).buffer@,
            final(self).stable@ == old(self).stable@,
            final(self).parallel@ == Seq::<(u32, Vec<u8>)>::empty(),
    {
        self.parallel.clear();
        proof {
            assert(spec_entry_ids(self.parallel@) =~= Seq::<u32>::empty());
        }
    }

    /// Remove a specific chunk from the parallel buffer; reports whether it
    /// was present.
    pub fn remove_parallel_chunk(&mut self, chunk_id: u32) -> (b: bool)
        requires
            old(self).wf(),
        ensures
            final(self).wf(),
            final(self).buffer@ == old(self).buffer@,
            final(self).stable@ == old(self).stable@,
            b == spec_entry_ids(old(self).parallel@).contains(chunk_id),
            b ==> exists|i: int|
                0 <= i < old(self).parallel@.len() && (#[trigger] old(self).parallel@[i]).0
                    == chunk_id && final(self).parallel@ == old(self).parallel@.remove(i),
            !b ==> final(self).parallel@ == old(self).parallel@,
    {
        let found = self.find_parallel(chunk_id);
        match found {
            Some(i) => {
                self.parallel.remove(i);
                proof {
                    let oldids = spec_entry_ids(old(self).parallel@);
                    assert(oldids[i as int] == chunk_id);
                    assert(oldids.contains(chunk_id));
                    let newids = spec_entry_ids(self.parallel@);
                    assert(newids =~= oldids.remove(i as int));
                    assert forall|p: int, q: int|
                        0 <= p < q < newids.len() implies newids[p] != newids[q] by {
                        let p0: int = if p < i {
                            p
                        } else {
                            p + 1
                        };
                        let q0: int = if q < i {
                            q
                        } else {
                            q + 1
                        };
                        assert(newids[p] == oldids[p0]);
                        assert(newids[q] == oldids[q0]);
                    }
                }
                true
            },
            None => {
                proof {
                    let oldids = spec_entry_ids(old(self).parallel@);
                    assert(!oldids.contains(chunk_id)) by {
                        if oldids.contains(chunk_id) {
                            let w = choose|w: int|
                                0 <= w < oldids.len() && oldids[w] == chunk_id;
                            assert(old(self).parallel@[w].0 == chunk_id);
                        }
                    }
                }
                false
            },
        }
    }

    /// Stores `data` under `key`, replacing any present entry with that key.
    fn upsert_stable(&mut self, key: String, data: Vec<u8>)
        requires
            old(self).wf(),
        ensures
            final(self).wf(),
            final(self).buffer@ == old(self).buffer@,
            final(self).parallel@ == old(self).parallel@,
            spec_entry_keys(old(self).stable@).contains(key@) ==> exists|i: int|
                0 <= i < old(self).stable@.len() && (#[trigger] old(self).stable@[i]).0@ == key@
                    && final(self).stable@ == old(self).stable@.update(i, (key, data)),
            !spec_entry_keys(old(self).stable@).contains(key@) ==> final(self).stable@ == old(self).stable@.push((key, data)),
    {
        let found = self.find_stable(&key);
        match found {
            Some(i) => {
                self.stable.remove(i);
                self.stable.insert(i, (key, data));
                proof {
                    assert(self.stable@ =~= old(self).stable@.update(i as int, (key, data)));
                    assert(spec_entry_keys(old(self).stable@)[i as int] == key@);
                    assert(spec_entry_keys(self.stable@) =~= spec_entry_keys(
                        old(self).stable@,
                    ));
                }
            },
            None => {
                self.stable.push((key, data));
                proof {
                    let oldkeys = spec_entry_keys(old(self).stable@);
                    assert(!oldkeys.contains(key@)) by {
                        if oldkeys.contains(key@) {
                            let w = choose|w: int| 0 <= w < oldkeys.len() && oldkeys[w] == key@;
                            assert(old(self).stable@[w].0@ == key@);
                        }
                    }
                    let newkeys = spec_entry_keys(self.stable@);
                    assert(newkeys =~= oldkeys.push(key@));
                    assert forall|p: int, q: int|
                        0 <= p < q < newkeys.len() implies newkeys[p] != newkeys[q] by {
                        if q == newkeys.len() - 1 {
                            assert(oldkeys[p] == newkeys[p]);
                            assert(oldkeys.contains(newkeys[p]) == oldkeys.contains(
                                oldkeys[p],
                            ));
                        }
                    }
                }
            },
        }
    }

    /// Save the buffer to stable storage under `key` and clear the buffer;
    /// an empty buffer is an error.
    pub fn save_to_stable(&mut self, key: String) -> (r: Result<(), String>)
        requires
            old(self).wf(),
        ensures
            final(self).wf(),
            final(self).parallel@ == old(self).parallel@,
            old(self).buffer@.len() == 0 ==> (r matches Err(m) && m@
                == "No data in buffer for key: "@ + key@ && final(self).stable@ == old(self).stable@ && final(self).buffer@ == old(self).buffer@),
            old(self).buffer@.len() > 0 ==> ({
                &&& r is Ok
                &&& final(self).buffer@ == Seq::<u8>::empty()
                &&& (spec_entry_keys(old(self).stable@).contains(key@) ==> exists|i: int|
                    0 <= i < old(self).stable@.len() && (#[trigger] old(self).stable@[i]).0@
                        == key@ && final(self).stable@.len() == old(self).stable@.len() && final(self).stable@[i].0@ == key@ && final(self).stable@[i].1@ == old(self).buffer@ && (
                    forall|j: int|
                        0 <= j < old(self).stable@.len() && j != i ==> final(self).stable@[j]
                            == old(self).stable@[j]))
                &&& (!spec_entry_keys(old(self).stable@).contains(key@) ==> final(self).stable@.len() == old(self).stable@.len() + 1 && final(self).stable@.last().0@
                    == key@ && final(self).stable@.last().1@ == old(self).buffer@ && final(self).stable@.drop_last() == old(self).stable@)
            }),
    {
        if self.buffer.len() == 0 {
            let mut m = String::from_str("No data in buffer for key: ");
            m.append(key.as_str());
            return Err(m);
        }
        let data = self.get_data();
        self.upsert_stable(key, data);
        Ok(())
    }

    /// Save the parallel chunks to stable storage under `key` in one step:
    /// the chunks' data concatenated in ascending id order becomes the saved
    /// payload, and the parallel buffer is cleared. No chunks is an error.
    pub fn save_parallel_to_stable(&mut self, key: String) -> (r: Result<usize, String>)
        requires
            old(self).wf(),
        ensures
            final(self).wf(),
            final(self).buffer@ == old(self).buffer@,
            old(self).parallel@.len() == 0 ==> (r matches Err(m) && m@
                == "No parallel chunks to save for key: "@ + key@ && final(self).stable@ == old(self).stable@ && final(self).parallel@ == old(self).parallel@),
            old(self).parallel@.len() > 0 ==> ({
                &&& final(self).parallel@ == Seq::<(u32, Vec<u8>)>::empty()
                &&& (r matches Ok(sz) && sz == spec_consolidated(old(self).parallel@).len())
                &&& (spec_entry_keys(old(self).stable@).contains(key@) ==> exists|i: int|
                    0 <= i < old(self).stable@.len() && (#[trigger] old(self).stable@[i]).0@
                        == key@ && final(self).stable@.len() == old(self).stable@.len() && final(self).stable@[i].0@ == key@ && final(self).stable@[i].1@ == spec_consolidated(
                        old(self).parallel@,
                    ) && (forall|j: int|
                        0 <= j < old(self).stable@.len() && j != i ==> final(self).stable@[j]
                            == old(self).stable@[j]))
                &&& (!spec_entry_keys(old(self).stable@).contains(key@) ==> final(self).stable@.len() == old(self).stable@.len() + 1 && final(self).stable@.last().0@
                    == key@ && final(self).stable@.last().1@ == spec_consolidated(
                    old(self).parallel@,
                ) && final(self).stable@.drop_last() == old(self).stable@)
            }),
    {
        if self.parallel.len() == 0 {
            let mut m = String::from_str("No parallel chunks to save for key: ");
            m.append(key.as_str());
            return Err(m);
        }
        let ghost entries = self.parallel@;
        let sorted = self.parallel_chunk_ids();
        let ghost sorted_ids = spec_sort_ids(spec_entry_ids(entries));
        let ghost datas = sorted_ids.map_values(|id: u32| spec_chunk_data(entries, id));
        let count = sorted.len();
        let mut data: Vec<u8> = Vec::new();
        let mut k: usize = 0;
        while k < count
            invariant
                self.parallel@ == entries,
                sorted@ == sorted_ids,
                sorted_ids == spec_sort_ids(spec_entry_ids(entries)),
                count == sorted_ids.len(),
                k <= count,
                datas == sorted_ids.map_values(|id: u32| spec_chunk_data(entries, id)),
                data@ == datas.take(k as int).flatten(),
            decreases count - k,
        {
            let id = sorted[k];
            match self.find_parallel(id) {
                Some(i) => {
                    proof {
                        lemma_chunk_data_at(entries, i as int);
                        assert(datas.take(k + 1 as int).drop_last() =~= datas.take(k as int));
                        assert(datas.take(k + 1 as int).last() == datas[k as int]);
                        datas.take(k as int).lemma_flatten_push(datas[k as int]);
                        assert(datas.take(k as int).push(datas[k as int]) =~= datas.take(
                            k + 1 as int,
                        ));
                    }
                    let entry_len = self.parallel[i].1.len();
                    let mut piece = copy_byte_range(&self.parallel[i].1, 0, entry_len);
                    proof {
                        assert(piece@ =~= entries[i as int].1@);
                    }
                    data.append(&mut piece);
                },
                None => {
                    proof {
                        lemma_sort_ids_props(spec_entry_ids(entries));
                        assert(sorted_ids.contains(id));
                        assert(sorted_ids.to_multiset().contains(id));
                        assert(spec_entry_ids(entries).to_multiset().contains(id));
                        assert(spec_entry_ids(entries).contains(id));
                        let w = choose|w: int|
                            0 <= w < spec_entry_ids(entries).len() && spec_entry_ids(
                                entries,
                            )[w] == id;
                        assert(entries[w].0 == id);
                        assert(false);
                    }
                },
            }
            k = k + 1;
        }
        proof {
            assert(datas.take(count as int) =~= datas);
        }
        let sz = data.len();
        self.clear_parallel_chunks();
        self.upsert_stable(key, data);
        Ok(sz)
    }

    /// Load a saved payload into the buffer; an absent key is an error.
    pub fn load_from_stable(&mut self, key: String) -> (r: Result<(), String>)
        requires
            old(self).wf(),
        ensures
            final(self).wf(),
            final(self).parallel@ == old(self).parallel@,
            final(self).stable@ == old(self).stable@,
            spec_entry_keys(old(self).stable@).contains(key@) ==> (r is Ok && final(self).buffer@
                == spec_stable_data(old(self).stable@, key@)),
            !spec_entry_keys(old(self).stable@).contains(key@) ==> (r matches Err(m) && m@
                == "No data found in stable storage for key: "@ + key@ && final(self).buffer@
                == old(self).buffer@),
    {
        let found = self.find_stable(&key);
        match found {
            Some(i) => {
                proof {
                    assert(spec_entry_keys(self.stable@)[i as int] == key@);
                    lemma_stable_data_at(self.stable@, i as int);
                }
                let entry_len = self.stable[i].1.len();
                let data = copy_byte_range(&self.stable[i].1, 0, entry_len);
                proof {
                    assert(data@ =~= self.stable@[i as int].1@);
                }
                self.buffer = data;
                Ok(())
            },
            None => {
                proof {
                    let keys = spec_entry_keys(self.stable@);
                    assert(!keys.contains(key@)) by {
                        if keys.contains(key@) {
                            let w = choose|w: int| 0 <= w < keys.len() && keys[w] == key@;
                            assert(self.stable@[w].0@ == key@);
                        }
                    }
                }
                let mut m = String::from_str("No data found in stable storage for key: ");
                m.append(key.as_str());
                Err(m)
            },
        }
    }

    /// Get data directly from stable storage; an absent key is an error.
    pub fn get_stable_data(&self, key: String) -> (r: Result<Vec<u8>, String>)
        ensures
            spec_entry_keys(self.stable@).contains(key@) ==> (r matches Ok(d) && d@
                == spec_stable_data(self.stable@, key@)),
            !spec_entry_keys(self.stable@).contains(key@) ==> (r matches Err(m) && m@
                == "No data found in stable storage for key: "@ + key@),
    {
        let found = self.find_stable(&key);
        match found {
            Some(i) => {
                proof {
                    assert(spec_entry_keys(self.stable@)[i as int] == key@);
                    lemma_stable_data_at(self.stable@, i as int);
                }
                let entry_len = self.stable[i].1.len();
                let data = copy_byte_range(&self.stable[i].1, 0, entry_len);
                proof {
                    assert(data@ =~= self.stable@[i as int].1@);
                }
                Ok(data)
            },
            None => {
                proof {
                    let keys = spec_entry_keys(self.stable@);
                    assert(!keys.contains(key@)) by {
                        if keys.contains(key@) {
                            let w = choose|w: int| 0 <= w < keys.len() && keys[w] == key@;
                            assert(self.stable@[w].0@ == key@);
                        }
                    }
                }
                let mut m = String::from_str("No data found in stable storage for key: ");
                m.append(key.as_str());
                Err(m)
            },
        }
    }

    /// Get a storage status summary: the buffer's size, the parallel chunks'
    /// count, ids and total size, and each stable entry's key and size.
    pub fn storage_status(&self) -> (st: StorageStatus)
        ensures
            st.buffer_size == self.buffer@.len(),
            st.parallel_chunk_count == self.parallel@.len(),
            spec_total_size(self.parallel@) <= usize::MAX ==> st.parallel_total_size
                == spec_total_size(self.parallel@),
            spec_total_size(self.parallel@) > usize::MAX ==> st.parallel_total_size == usize::MAX,
            st.chunk_ids@ == spec_sort_ids(spec_entry_ids(self.parallel@)),
            st.stable_entries@.len() == self.stable@.len(),
            forall|i: int|
                0 <= i < self.stable@.len() ==> (#[trigger] st.stable_entries@[i]).0@
                    == self.stable@[i].0@ && st.stable_entries@[i].1 == self.stable@[i].1@.len(),
    {
        let n = self.stable.len();
        let mut stable_entries: Vec<(String, usize)> = Vec::new();
        let mut i: usize = 0;
        while i < n
            invariant
                n == self.stable@.len(),
                i <= n,
                stable_entries@.len() == i,
                forall|j: int|
                    0 <= j < i ==> (#[trigger] stable_entries@[j]).0@ == self.stable@[j].0@
                        && stable_entries@[j].1 == self.stable@[j].1@.len(),
            decreases n - i,
        {
            let name = self.stable[i].0.clone();
            let size = self.stable[i].1.len();
            stable_entries.push((name, size));
            i = i + 1;
        }
        StorageStatus {
            buffer_size: self.buffer.len(),
            parallel_chunk_count: self.parallel.len(),
            parallel_total_size: self.parallel_buffer_size(),
            chunk_ids: self.parallel_chunk_ids(),
            stable_entries,
        }
    }
}

/// A snapshot of the store for reporting: sizes, chunk ids, and the stable
/// entries' keys and sizes.
pub struct StorageStatus {
    /// Bytes in the sequential buffer.
    pub buffer_size: usize,
    /// Number of parallel chunks held.
    pub parallel_chunk_count: usize,
    /// Total bytes over all parallel chunks, capped at the largest
    /// representable value.
    pub parallel_total_size: usize,
    /// The parallel chunk ids, in ascending order.
    pub chunk_ids: Vec<u32>,
    /// Each stable entry's key and payload size, in insertion order.
    pub stable_entries: Vec<(String, usize)>,
}

/// Chunk sizes never sum to less than nothing.
proof fn lemma_total_size_nonneg(entries: Seq<(u32, Vec<u8>)>)
    ensures
        spec_total_size(entries) >= 0,
    decreases entries.len(),
{
    if entries.len() > 0 {
        lemma_total_size_nonneg(entries.drop_last());
    }
}

/// Where the scan stopped is where the first match sits.
proof fn lemma_chunk_data_at(entries: Seq<(u32, Vec<u8>)>, i: int)
    requires
        0 <= i < entries.len(),
        forall|j: int| 0 <= j < i ==> (#[trigger] entries[j]).0 != entries[i].0,
    ensures
        spec_chunk_data(entries, entries[i].0) == entries[i].1@,
    decreases i,
{
    if i > 0 {
        lemma_chunk_data_at(entries.drop_first(), i - 1);
    }
}

/// As `lemma_chunk_data_at`, for the stable entries.
proof fn lemma_stable_data_at(entries: Seq<(String, Vec<u8>)>, i: int)
    requires
        0 <= i < entries.len(),
        forall|j: int| 0 <= j < i ==> (#[trigger] entries[j]).0@ != entries[i].0@,
    ensures
        spec_stable_data(entries, entries[i].0@) == entries[i].1@,
    decreases i,
{
    if i > 0 {
        lemma_stable_data_at(entries.drop_first(), i - 1);
    }
}

} // verus!
