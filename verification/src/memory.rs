//! Chunk allocators for buffers shared by many meshes: a FIFO of free chunk
//! indices, and an area allocator that hands out runs of chunks in clusters.
use vstd::prelude::*;
use std::collections::VecDeque;
use vstd::multiset::Multiset;

verus! {

/// Hands out single chunks of a buffer, first freed first reused.
pub struct SharedSimpleBuffer {
    free: VecDeque<usize>,
}

/// One chunk handed out by a [`SharedSimpleBuffer`].
#[derive(Clone, Copy, Debug, PartialEq, Eq, Structural)]
pub struct SharedSimpleBufferAllocation {
    pub index: usize,
}

/// The indices `0..n` in order.
pub open spec fn first_indices(n: nat) -> Seq<usize> {
    Seq::new(n, |i: int| i as usize)
}

impl SharedSimpleBuffer {
    /// The free chunks, in the order they will be handed out.
    pub closed spec fn free_list(&self) -> Seq<usize> {
        self.free@
    }

    /// A buffer of `chunks` chunks, all free, handed out from the lowest.
    pub fn new(chunks: usize) -> (r: SharedSimpleBuffer)
        ensures
            r.free_list() == first_indices(chunks as nat),
    {
        let mut free: VecDeque<usize> = VecDeque::new();
        let mut i: usize = 0;
        while i < chunks
            invariant
                i <= chunks,
                free@ == first_indices(i as nat),
            decreases chunks - i,
        {
            free.push_back(i);
            assert(free@ =~= first_indices((i + 1) as nat));
            i = i + 1;
        }
        SharedSimpleBuffer { free }
    }

    /// Takes the first free chunk, if there is one.
    pub fn allocate(&mut self) -> (r: Option<SharedSimpleBufferAllocation>)
        ensures
            old(self).free_list().len() == 0 ==> r is None && final(self).free_list() == old(self).free_list(),
            old(self).free_list().len() > 0 ==> r == Some(SharedSimpleBufferAllocation { index: old(self).free_list()[0] })
                && final(self).free_list() == old(self).free_list().drop_first(),
    {
        match self.free.pop_front() {
            Some(index) => {
                assert(self.free@ =~= old(self).free@.drop_first());
                Some(SharedSimpleBufferAllocation { index })
            },
            None => None,
        }
    }

    /// Gives a chunk back; it is handed out again after the others.
    pub fn free(&mut self, allocation: SharedSimpleBufferAllocation)
        ensures
            final(self).free_list() == old(self).free_list().push(allocation.index),
    {
        self.free.push_back(allocation.index);
    }
}

/// The key of the region of space a cluster serves.
#[derive(Clone, Copy, Debug, PartialEq, Eq, Structural)]
pub struct ClusterKey {
    pub x: usize,
    pub y: usize,
    pub z: usize,
}

/// A run of chunks reserved for one region.
pub struct Cluster {
    /// The first chunk of the run.
    pub index_start: usize,
    /// How many chunks the run holds.
    pub size: usize,
    /// The chunks of the run (counted from its start) that are not in use.
    pub free: Vec<usize>,
}

/// The clusters of one region.
pub struct ClusterEntry {
    pub key: ClusterKey,
    pub clusters: Vec<Cluster>,
}

/// How a [`SharedAreaBuffer`] lays out its chunks.
pub struct SharedAreaBufferOptions {
    pub cluster_chunk_size: usize,
    pub total_chunks: usize,
    pub chunk_size: usize,
    pub max_space_between: usize,
}

impl Default for SharedAreaBufferOptions {
    fn default() -> (r: SharedAreaBufferOptions)
        ensures
            r.max_space_between == 2,
            r.cluster_chunk_size == 8,
            r.total_chunks == 128,
            r.chunk_size == 1024,
    {
        SharedAreaBufferOptions { max_space_between: 2, cluster_chunk_size: 8, total_chunks: 128, chunk_size: 1024 }
    }
}

/// A run of chunks handed out by a [`SharedAreaBuffer`].
#[derive(Clone, Copy, Debug)]
pub struct SharedAreaBufferAllocation {
    pub chunk_start: usize,
    pub chunk_length: usize,
    pub cluster_pos: ClusterKey,
    pub cluster_index_start: usize,
}

/// Hands out runs of chunks, reserving them in clusters per region.
pub struct SharedAreaBuffer {
    options: SharedAreaBufferOptions,
    chunks: Vec<bool>,
    clusters: Vec<ClusterEntry>,
}

/// The state of the scan for free runs after looking at `n` chunks: the run
/// being measured (it starts at the last reserved chunk seen, or at zero),
/// the best run recorded so far, and whether the scan stopped early.
pub ghost struct ScanState {
    pub start: int,
    pub length: int,
    pub best: Option<(int, int)>,
    pub stopped: bool,
}

/// The length of a recorded run, zero when there is none.
pub open spec fn best_len(best: Option<(int, int)>) -> int {
    match best {
        Some(b) => b.1,
        None => 0,
    }
}

/// The scan for free runs over the first `n` chunks: at each reserved chunk
/// the run measured so far is recorded if it is longer than one and than the
/// best, and the scan stops once a recorded run reaches `max_between`;
/// otherwise a new run starts at that chunk. A free chunk lengthens the run.
pub open spec fn scan(chunks: Seq<bool>, max_between: int, n: nat) -> ScanState
    decreases n,
{
    if n == 0 {
        ScanState { start: 0, length: 0, best: None, stopped: false }
    } else {
        let st = scan(chunks, max_between, (n - 1) as nat);
        if st.stopped {
            st
        } else if chunks[n - 1] {
            if st.length > 1 && st.length > best_len(st.best) {
                if st.length >= max_between {
                    ScanState { best: Some((st.start, st.length)), stopped: true, ..st }
                } else {
                    ScanState { start: n - 1, length: 1, best: Some((st.start, st.length)), stopped: false }
                }
            } else {
                ScanState { start: n - 1, length: 1, best: st.best, stopped: false }
            }
        } else {
            ScanState { length: st.length + 1, ..st }
        }
    }
}

/// The longest run found by [`scan`] (the last run counts too), cut in half:
/// the second half is where a new cluster goes. `None` when no run is longer
/// than one chunk.
pub open spec fn best_chunk(chunks: Seq<bool>, max_between: int) -> Option<(int, int)> {
    let st = scan(chunks, max_between, chunks.len());
    let best = if st.length > best_len(st.best) { Some((st.start, st.length)) } else { st.best };
    match best {
        Some(b) => if b.1 <= 1 {
            None
        } else {
            Some((b.0 + b.1 / 2, b.1 - b.1 / 2))
        },
        None => None,
    }
}

/// How many chunks a new cluster reserves for a request of `amount` chunks
/// in a free run of `available` chunks.
pub open spec fn reservable(cluster_chunk_size: int, amount: int, available: int) -> int {
    if cluster_chunk_size < amount {
        amount
    } else if cluster_chunk_size > available {
        available
    } else {
        cluster_chunk_size
    }
}

/// A run of chunks with every chunk after its first free, inside the list.
pub open spec fn run_ok(chunks: Seq<bool>, start: int, length: int, n: int) -> bool {
    &&& 0 <= start
    &&& 0 <= length
    &&& start + length <= n
    &&& forall|i: int| start < i < start + length ==> !#[trigger] chunks[i]
}

/// The runs that [`scan`] measures and records lie inside the scanned part
/// and are free after their first chunk; a run that starts at zero and is
/// not at a reserved chunk is free at zero too.
pub proof fn lemma_scan(chunks: Seq<bool>, max_between: int, n: nat)
    requires
        n <= chunks.len(),
    ensures
        ({
            let st = scan(chunks, max_between, n);
            &&& run_ok(chunks, st.start, st.length, n as int)
            &&& (!st.stopped ==> st.start + st.length == n)
            &&& (st.best matches Some(b) ==> run_ok(chunks, b.0, b.1, n as int) && b.1 > 1)
        }),
    decreases n,
{
    if n > 0 {
        lemma_scan(chunks, max_between, (n - 1) as nat);
        let prev = scan(chunks, max_between, (n - 1) as nat);
        let st = scan(chunks, max_between, n);
        if !prev.stopped && !chunks[n - 1] {
            assert forall|i: int| st.start < i < st.start + st.length implies !#[trigger] chunks[i] by {
                if i < n - 1 {
                    assert(prev.start < i < prev.start + prev.length);
                }
            }
        }
    }
}

/// The run that [`best_chunk`] picks lies inside the buffer, is longer than
/// zero, and every chunk of it is free.
pub proof fn lemma_best_chunk_free(chunks: Seq<bool>, max_between: int)
    ensures
        best_chunk(chunks, max_between) matches Some(b) ==> {
            &&& 0 <= b.0
            &&& b.1 >= 1
            &&& b.0 + b.1 <= chunks.len()
            &&& forall|i: int| b.0 <= i < b.0 + b.1 ==> !#[trigger] chunks[i]
        },
{
    lemma_scan(chunks, max_between, chunks.len());
    let st = scan(chunks, max_between, chunks.len());
    let best = if st.length > best_len(st.best) { Some((st.start, st.length)) } else { st.best };
    if let Some(b) = best {
        if b.1 > 1 {
            assert(b.1 / 2 >= 1);
            assert(run_ok(chunks, b.0, b.1, chunks.len() as int));
        }
    }
}

/// The key of a region as the model of its cluster lists.
pub open spec fn cluster_map(entries: Seq<ClusterEntry>) -> Map<ClusterKey, Seq<Cluster>>
    decreases entries.len(),
{
    if entries.len() == 0 {
        Map::empty()
    } else {
        cluster_map(entries.drop_last()).insert(entries.last().key, entries.last().clusters@)
    }
}

/// No two entries share a key.
/// Every chunk of every cluster of `entries` is reserved in `chunks`.
pub open spec fn clusters_flagged(entries: Seq<ClusterEntry>, chunks: Seq<bool>) -> bool {
    forall|i: int, j: int, k: int|
        0 <= i < entries.len() && 0 <= j < entries[i].clusters@.len()
            && (#[trigger] entries[i].clusters@[j]).index_start <= k < entries[i].clusters@[j].index_start
                + entries[i].clusters@[j].size
        ==> #[trigger] chunks[k]
}

/// The chunks of two clusters `a` and `b` do not overlap (an empty cluster
/// overlaps nothing).
pub open spec fn apart(a: Cluster, b: Cluster) -> bool {
    a.size == 0 || b.size == 0 || a.index_start + a.size <= b.index_start
        || b.index_start + b.size <= a.index_start
}

/// No two clusters of `entries` share a chunk.
pub open spec fn clusters_apart(entries: Seq<ClusterEntry>) -> bool {
    forall|i1: int, j1: int, i2: int, j2: int|
        0 <= i1 < entries.len() && 0 <= j1 < entries[i1].clusters@.len()
            && 0 <= i2 < entries.len() && 0 <= j2 < entries[i2].clusters@.len() && (i1 != i2 || j1 != j2)
        ==> apart(#[trigger] entries[i1].clusters@[j1], #[trigger] entries[i2].clusters@[j2])
}

/// Every cluster of `entries` lies within the first `n` chunks.
pub open spec fn clusters_fit(entries: Seq<ClusterEntry>, n: nat) -> bool {
    forall|i: int, j: int| 0 <= i < entries.len() && 0 <= j < entries[i].clusters@.len()
        ==> #[trigger] entries[i].clusters@[j].index_start + entries[i].clusters@[j].size <= n
}

pub open spec fn keys_distinct(entries: Seq<ClusterEntry>) -> bool {
    forall|i: int, j: int| 0 <= i < j < entries.len() ==> entries[i].key != entries[j].key
}

/// `after` and `r` are what [`SharedAreaBuffer::allocate`] of `amount`
/// chunks for region `key` makes of `before`: a new cluster in the best free
/// run (see [`best_chunk`]) that reserves [`reservable`] chunks and hands
/// out its first `amount`; nothing changes when there is no run or it is too
/// short.
pub open spec fn allocated(
    before: SharedAreaBuffer,
    after: SharedAreaBuffer,
    amount: usize,
    key: ClusterKey,
    r: Option<SharedAreaBufferAllocation>,
) -> bool {
    match best_chunk(before.chunk_flags(), before.max_space_between() as int) {
        None => r is None && after.chunk_flags() == before.chunk_flags()
            && after.cluster_lists() == before.cluster_lists(),
        Some(b) => if b.1 < amount {
            r is None && after.chunk_flags() == before.chunk_flags()
                && after.cluster_lists() == before.cluster_lists()
        } else {
            let res = reservable(before.cluster_chunk_size() as int, amount as int, b.1);
            let old_list = if before.cluster_lists().contains_key(key) {
                before.cluster_lists()[key]
            } else {
                Seq::empty()
            };
            let new_list = after.cluster_lists()[key];
            &&& r matches Some(a) && a.chunk_start == b.0 && a.chunk_length == amount
                && a.cluster_pos == key && a.cluster_index_start == 0
            &&& after.chunk_flags().len() == before.chunk_flags().len()
            &&& forall|i: int| 0 <= i < before.chunk_flags().len() ==> #[trigger] after.chunk_flags()[i]
                == if b.0 <= i < b.0 + res { true } else { before.chunk_flags()[i] }
            &&& after.cluster_lists().dom() == before.cluster_lists().dom().insert(key)
            &&& forall|k: ClusterKey| k != key && #[trigger] before.cluster_lists().contains_key(k)
                ==> after.cluster_lists()[k] == before.cluster_lists()[k]
            &&& new_list.len() == old_list.len() + 1
            &&& new_list.drop_last() == old_list
            &&& new_list.last().index_start == b.0
            &&& new_list.last().size == res
            &&& new_list.last().free@ == Seq::new((res - amount) as nat, |i: int| (amount + i) as usize)
        }
    }
}

impl SharedAreaBuffer {
    /// Which chunks are reserved.
    pub closed spec fn chunk_flags(&self) -> Seq<bool> {
        self.chunks@
    }

    /// The clusters of each region.
    pub closed spec fn cluster_lists(&self) -> Map<ClusterKey, Seq<Cluster>> {
        cluster_map(self.clusters@)
    }

    pub closed spec fn max_space_between(&self) -> usize {
        self.options.max_space_between
    }

    pub closed spec fn cluster_chunk_size(&self) -> usize {
        self.options.cluster_chunk_size
    }

    /// The buffer is consistent: one entry per region, and every cluster lies
    /// within the chunks, on reserved chunks, apart from every other cluster.
    pub closed spec fn well_formed(&self) -> bool {
        &&& keys_distinct(self.clusters@)
        &&& clusters_fit(self.clusters@, self.chunks@.len())
        &&& clusters_flagged(self.clusters@, self.chunks@)
        &&& clusters_apart(self.clusters@)
    }

    /// A buffer with the default options.
    pub fn new() -> (r: SharedAreaBuffer)
        ensures
            r.well_formed(),
            r.chunk_flags() == Seq::new(128, |i: int| false),
            r.cluster_lists() == Map::<ClusterKey, Seq<Cluster>>::empty(),
            r.max_space_between() == 2,
            r.cluster_chunk_size() == 8,
    {
        Self::with_options(SharedAreaBufferOptions::default())
    }

    /// A buffer of `options.total_chunks` free chunks and no clusters.
    pub fn with_options(options: SharedAreaBufferOptions) -> (r: SharedAreaBuffer)
        ensures
            r.well_formed(),
            r.chunk_flags() == Seq::new(options.total_chunks as nat, |i: int| false),
            r.cluster_lists() == Map::<ClusterKey, Seq<Cluster>>::empty(),
            r.max_space_between() == options.max_space_between,
            r.cluster_chunk_size() == options.cluster_chunk_size,
    {
        let mut chunks: Vec<bool> = Vec::new();
        let mut i: usize = 0;
        while i < options.total_chunks
            invariant
                i <= options.total_chunks,
                chunks@ == Seq::new(i as nat, |j: int| false),
            decreases options.total_chunks - i,
        {
            chunks.push(false);
            assert(chunks@ =~= Seq::new((i + 1) as nat, |j: int| false));
            i = i + 1;
        }
        let r = SharedAreaBuffer { options, chunks, clusters: Vec::new() };
        assert(r.cluster_lists() =~= Map::<ClusterKey, Seq<Cluster>>::empty());
        r
    }

    /// Finds where a new cluster fits best: the second half of the longest
    /// free run (see [`best_chunk`]), as start and length.
    pub fn find_best_chunk(&self) -> (r: Option<(usize, usize)>)
        ensures
            self.chunk_flags().len() <= usize::MAX,
            match best_chunk(self.chunk_flags(), self.max_space_between() as int) {
                Some(b) => r == Some((b.0 as usize, b.1 as usize)),
                None => r is None,
            },
    {
        let ghost chunks = self.chunks@;
        let ghost mb = self.options.max_space_between as int;
        let n = self.chunks.len();
        let mut cur_start: usize = 0;
        let mut cur_length: usize = 0;
        let mut active_best: Option<(usize, usize)> = None;
        let mut stopped = false;
        let mut index: usize = 0;
        while index < n && !stopped
            invariant
                n == chunks.len(),
                chunks == self.chunks@,
                mb == self.options.max_space_between as int,
                index <= n,
                cur_start <= index,
                cur_length <= index,
                ({
                    let st = scan(chunks, mb, index as nat);
                    &&& st.start == cur_start
                    &&& st.length == cur_length
                    &&& st.stopped == stopped
                    &&& match st.best {
                        Some(b) => active_best == Some((b.0 as usize, b.1 as usize)) && b.1 <= index,
                        None => active_best is None,
                    }
                }),
                stopped ==> scan(chunks, mb, n as nat) == scan(chunks, mb, index as nat),
            decreases n - index, if stopped { 0int } else { 1int },
        {
            proof {
                lemma_scan(chunks, mb, index as nat);
                lemma_scan(chunks, mb, (index + 1) as nat);
            }
            let best_length = match active_best {
                Some(b) => b.1,
                None => 0,
            };
            if self.chunks[index] {
                if cur_length > 1 && cur_length > best_length {
                    active_best = Some((cur_start, cur_length));
                    if cur_length >= self.options.max_space_between {
                        stopped = true;
                        proof { Self::lemma_scan_stays(chunks, mb, (index + 1) as nat, n as nat); }
                    } else {
                        cur_start = index;
                        cur_length = 1;
                    }
                } else {
                    cur_start = index;
                    cur_length = 1;
                }
            } else {
                cur_length = cur_length + 1;
            }
            index = index + 1;
        }
        proof {
            lemma_scan(chunks, mb, index as nat);
            lemma_scan(chunks, mb, n as nat);
        }
        let best_length = match active_best {
            Some(b) => b.1,
            None => 0,
        };
        if cur_length > best_length {
            active_best = Some((cur_start, cur_length));
        }
        match active_best {
            Some((start, length)) => {
                if length <= 1 {
                    None
                } else {
                    let half_length = length / 2;
                    Some((start + half_length, length - half_length))
                }
            },
            None => None,
        }
    }

    /// Once the scan has stopped, looking at more chunks changes nothing.
    proof fn lemma_scan_stays(chunks: Seq<bool>, mb: int, k: nat, n: nat)
        requires
            k <= n,
            scan(chunks, mb, k).stopped,
        ensures
            scan(chunks, mb, n) == scan(chunks, mb, k),
        decreases n - k,
    {
        if k < n {
            Self::lemma_scan_stays(chunks, mb, k + 1, n);
        }
    }

    /// Whether some entry is for region `key`, and where.
    fn find_entry(&self, key: ClusterKey) -> (r: Option<usize>)
        ensures
            match r {
                Some(i) => i < self.clusters@.len() && self.clusters@[i as int].key == key,
                None => forall|i: int| 0 <= i < self.clusters@.len() ==> self.clusters@[i].key != key,
            },
    {
        let mut i: usize = 0;
        while i < self.clusters.len()
            invariant
                i <= self.clusters@.len(),
                forall|j: int| 0 <= j < i ==> self.clusters@[j].key != key,
            decreases self.clusters@.len() - i,
        {
            if self.clusters[i].key == key {
                return Some(i);
            }
            i = i + 1;
        }
        None
    }

    /// Reserves a new cluster for region `key_pos` in the best free run (see
    /// [`best_chunk`]) and hands out its first `amount` chunks. The cluster
    /// takes `amount` chunks if that is more than the cluster size, else the
    /// cluster size, but no more than the run holds. `None`, with nothing
    /// changed, when there is no run or it is shorter than `amount`.
    pub fn allocate(&mut self, amount: usize, key_pos: ClusterKey) -> (r: Option<SharedAreaBufferAllocation>)
        requires
            old(self).well_formed(),
        ensures
            final(self).well_formed(),
            final(self).max_space_between() == old(self).max_space_between(),
            final(self).cluster_chunk_size() == old(self).cluster_chunk_size(),
            old(self).chunk_flags().len() <= usize::MAX,
            final(self).chunk_flags().len() == old(self).chunk_flags().len(),
            allocated(*old(self), *final(self), amount, key_pos, r),
    {
        let ghost flags0 = self.chunks@;
        let ghost lists0 = self.cluster_lists();
        proof { lemma_best_chunk_free(flags0, self.options.max_space_between as int); }
        let total = self.chunks.len();
        let found = self.find_best_chunk();
        let (best_start, best_length) = match found {
            Some(b) => b,
            None => return None,
        };
        proof {
            let b = best_chunk(flags0, self.options.max_space_between as int).unwrap();
            assert(b.0 + b.1 <= total);
            assert(found == Some((b.0 as usize, b.1 as usize)));
        }
        assert(best_chunk(flags0, self.options.max_space_between as int)
            == Some((best_start as int, best_length as int)));
        if best_length < amount {
            return None;
        }
        let reservable_amount = if self.options.cluster_chunk_size < amount {
            amount
        } else if self.options.cluster_chunk_size > best_length {
            best_length
        } else {
            self.options.cluster_chunk_size
        };
        let mut free: Vec<usize> = Vec::new();
        let mut j: usize = amount;
        while j < reservable_amount
            invariant
                amount <= j <= reservable_amount,
                free@ == Seq::new((j - amount) as nat, |i: int| (amount + i) as usize),
            decreases reservable_amount - j,
        {
            free.push(j);
            assert(free@ =~= Seq::new((j + 1 - amount) as nat, |i: int| (amount + i) as usize));
            j = j + 1;
        }
        let cluster = Cluster { index_start: best_start, size: reservable_amount, free };
        let ghost new_cluster = cluster;
        let ghost mut pa: int = 0;
        let ghost mut pc: int = 0;
        match self.find_entry(key_pos) {
            Some(i) => {
                proof { lemma_cluster_map_entry(self.clusters@, i as int); }
                let mut entry = self.clusters.remove(i);
                let ghost before = entry.clusters@;
                entry.clusters.push(cluster);
                self.clusters.insert(i, entry);
                proof {
                    lemma_cluster_map_update(old(self).clusters@, self.clusters@, i as int);
                    pa = i as int;
                    pc = before.len() as int;
                    assert(self.clusters@[pa].clusters@ == before.push(new_cluster));
                }
            },
            None => {
                proof {
                    pa = self.clusters@.len() as int;
                    pc = 0;
                }
                proof { lemma_cluster_map_absent(self.clusters@, key_pos); }
                let mut clusters: Vec<Cluster> = Vec::new();
                clusters.push(cluster);
                self.clusters.push(ClusterEntry { key: key_pos, clusters });
                assert(self.clusters@.drop_last() =~= old(self).clusters@);
                assert(keys_distinct(self.clusters@)) by {
                    assert forall|a: int, b: int| 0 <= a < b < self.clusters@.len()
                        implies self.clusters@[a].key != self.clusters@[b].key by {
                        if b == self.clusters@.len() - 1 {
                            assert(old(self).clusters@[a].key != key_pos);
                        } else {
                            assert(old(self).clusters@[a].key != old(self).clusters@[b].key);
                        }
                    }
                }
                assert(self.cluster_lists() == lists0.insert(key_pos, self.clusters@.last().clusters@));
            },
        }
        assert(best_start + reservable_amount <= flags0.len());
        proof {
            assert forall|a: int, c: int| 0 <= a < self.clusters@.len() && 0 <= c < self.clusters@[a].clusters@.len()
                implies #[trigger] self.clusters@[a].clusters@[c].index_start + self.clusters@[a].clusters@[c].size
                    <= flags0.len() by {
                if a < old(self).clusters@.len() && (self.clusters@[a] == old(self).clusters@[a]) {
                } else if self.clusters@[a].key == key_pos {
                    if c < self.clusters@[a].clusters@.len() - 1 {
                    }
                }
            }
        }
        let ghost cl = self.clusters@;
        let end = best_start + reservable_amount;
        let mut k: usize = best_start;
        while k < end
            invariant
                end == best_start + reservable_amount,
                self.clusters@ == cl,
                self.options == old(self).options,
                best_start <= k <= best_start + reservable_amount,
                best_start + reservable_amount <= flags0.len(),
                self.chunks@.len() == flags0.len(),
                forall|i: int| 0 <= i < flags0.len() ==> #[trigger] self.chunks@[i]
                    == if best_start <= i < k { true } else { flags0[i] },
            decreases end - k,
        {
            self.chunks.set(k, true);
            k = k + 1;
        }
        proof {
            let e0 = old(self).clusters@;
            let e1 = self.clusters@;
            let b = best_chunk(flags0, old(self).options.max_space_between as int).unwrap();
            assert(reservable_amount <= b.1);
            assert forall|a: int, c: int| 0 <= a < e1.len() && 0 <= c < e1[a].clusters@.len() && (a != pa || c != pc)
                implies a < e0.len() && c < e0[a].clusters@.len() && #[trigger] e1[a].clusters@[c] == e0[a].clusters@[c] by {
                if a == pa && a < e0.len() {
                    assert(e1[a].clusters@ == e0[a].clusters@.push(new_cluster));
                }
            }
            assert(e1[pa].clusters@[pc] == new_cluster);
            assert forall|a: int, c: int| 0 <= a < e0.len() && 0 <= c < e0[a].clusters@.len()
                implies apart(#[trigger] e0[a].clusters@[c], new_cluster) by {
                let oc = e0[a].clusters@[c];
                if !apart(oc, new_cluster) {
                    let k = if oc.index_start < best_start { best_start as int } else { oc.index_start as int };
                    assert(oc.index_start <= k < oc.index_start + oc.size);
                    assert(flags0[k]) by {
                        assert(clusters_flagged(e0, flags0));
                        assert(e0[a].clusters@[c].index_start <= k);
                    }
                    assert(best_start <= k < best_start + reservable_amount);
                    assert(!flags0[k]);
                }
            }
            assert forall|i1: int, j1: int, i2: int, j2: int|
                0 <= i1 < e1.len() && 0 <= j1 < e1[i1].clusters@.len()
                    && 0 <= i2 < e1.len() && 0 <= j2 < e1[i2].clusters@.len() && (i1 != i2 || j1 != j2)
                implies apart(#[trigger] e1[i1].clusters@[j1], #[trigger] e1[i2].clusters@[j2]) by {
                if (i1 != pa || j1 != pc) && (i2 != pa || j2 != pc) {
                    assert(e1[i1].clusters@[j1] == e0[i1].clusters@[j1]);
                    assert(e1[i2].clusters@[j2] == e0[i2].clusters@[j2]);
                } else if i1 == pa && j1 == pc {
                    assert(e1[i2].clusters@[j2] == e0[i2].clusters@[j2]);
                    assert(apart(e0[i2].clusters@[j2], new_cluster));
                } else {
                    assert(e1[i1].clusters@[j1] == e0[i1].clusters@[j1]);
                    assert(apart(e0[i1].clusters@[j1], new_cluster));
                }
            }
            assert forall|a: int, c: int, k: int|
                0 <= a < e1.len() && 0 <= c < e1[a].clusters@.len()
                    && (#[trigger] e1[a].clusters@[c]).index_start <= k < e1[a].clusters@[c].index_start
                        + e1[a].clusters@[c].size
                implies #[trigger] self.chunks@[k] by {
                if a != pa || c != pc {
                    assert(e1[a].clusters@[c] == e0[a].clusters@[c]);
                    assert(flags0[k]);
                }
            }
            assert forall|a: int, c: int| 0 <= a < e1.len() && 0 <= c < e1[a].clusters@.len()
                implies #[trigger] e1[a].clusters@[c].index_start + e1[a].clusters@[c].size <= self.chunks@.len() by {
                if a != pa || c != pc {
                    assert(e1[a].clusters@[c] == e0[a].clusters@[c]);
                }
            }
        }
        let r = Some(SharedAreaBufferAllocation {
            chunk_start: best_start,
            chunk_length: amount,
            cluster_pos: key_pos,
            cluster_index_start: 0,
        });
        proof {
            let b = best_chunk(flags0, old(self).options.max_space_between as int).unwrap();
            assert(b == (best_start as int, best_length as int));
            assert(reservable(old(self).options.cluster_chunk_size as int, amount as int, b.1) == reservable_amount);
            assert(self.chunk_flags().len() == flags0.len());
            assert(self.cluster_lists()[key_pos].last() == new_cluster);
            let old_list = if old(self).cluster_lists().contains_key(key_pos) {
                old(self).cluster_lists()[key_pos]
            } else {
                Seq::empty()
            };
            let new_list = self.cluster_lists()[key_pos];
            assert(new_list.len() == old_list.len() + 1);
            assert(new_list.drop_last() == old_list);
            assert(self.cluster_lists().dom() == old(self).cluster_lists().dom().insert(key_pos));
            assert(forall|k: ClusterKey| k != key_pos && #[trigger] old(self).cluster_lists().contains_key(k)
                ==> self.cluster_lists()[k] == old(self).cluster_lists()[k]);
        }
        r
    }
}

/// With distinct keys, each entry's list is the map's value at its key.
proof fn lemma_cluster_map_entry(entries: Seq<ClusterEntry>, i: int)
    requires
        keys_distinct(entries),
        0 <= i < entries.len(),
    ensures
        cluster_map(entries).contains_key(entries[i].key),
        cluster_map(entries)[entries[i].key] == entries[i].clusters@,
    decreases entries.len(),
{
    if i < entries.len() - 1 {
        lemma_cluster_map_entry(entries.drop_last(), i);
        assert(entries.drop_last()[i] == entries[i]);
    }
}

/// The map holds exactly the keys of the entries.
proof fn lemma_cluster_map_dom(entries: Seq<ClusterEntry>)
    ensures
        forall|k: ClusterKey| cluster_map(entries).contains_key(k)
            <==> exists|i: int| 0 <= i < entries.len() && #[trigger] entries[i].key == k,
    decreases entries.len(),
{
    if entries.len() > 0 {
        lemma_cluster_map_dom(entries.drop_last());
        assert forall|k: ClusterKey| cluster_map(entries).contains_key(k)
            <==> exists|i: int| 0 <= i < entries.len() && #[trigger] entries[i].key == k by {
            if cluster_map(entries.drop_last()).contains_key(k) {
                let i = choose|i: int| 0 <= i < entries.drop_last().len() && #[trigger] entries.drop_last()[i].key == k;
                assert(entries[i].key == k);
            }
            if exists|i: int| 0 <= i < entries.len() && #[trigger] entries[i].key == k {
                let i = choose|i: int| 0 <= i < entries.len() && #[trigger] entries[i].key == k;
                if i < entries.len() - 1 {
                    assert(entries.drop_last()[i].key == k);
                }
            }
        }
    }
}

proof fn lemma_cluster_map_absent(entries: Seq<ClusterEntry>, key: ClusterKey)
    requires
        forall|i: int| 0 <= i < entries.len() ==> entries[i].key != key,
    ensures
        !cluster_map(entries).contains_key(key),
{
    lemma_cluster_map_dom(entries);
}

/// Replacing the list of entry `i` (same key) replaces the map's value there.
proof fn lemma_cluster_map_update(before: Seq<ClusterEntry>, after: Seq<ClusterEntry>, i: int)
    requires
        keys_distinct(before),
        0 <= i < before.len(),
        after.len() == before.len(),
        after[i].key == before[i].key,
        forall|j: int| 0 <= j < before.len() && j != i ==> #[trigger] after[j] == before[j],
    ensures
        keys_distinct(after),
        cluster_map(after) == cluster_map(before).insert(before[i].key, after[i].clusters@),
{
    assert forall|a: int, b: int| 0 <= a < b < after.len() implies after[a].key != after[b].key by {
        assert(before[a].key != before[b].key);
    }
    lemma_cluster_map_dom(before);
    lemma_cluster_map_dom(after);
    let m = cluster_map(before).insert(before[i].key, after[i].clusters@);
    assert forall|k: ClusterKey| #[trigger] cluster_map(after).contains_key(k) <==> m.contains_key(k) by {
        if cluster_map(after).contains_key(k) {
            let j = choose|j: int| 0 <= j < after.len() && #[trigger] after[j].key == k;
            if j != i {
                assert(before[j].key == k);
            }
        }
        if m.contains_key(k) && k != before[i].key {
            let j = choose|j: int| 0 <= j < before.len() && #[trigger] before[j].key == k;
            assert(after[j].key == k);
        }
    }
    assert forall|k: ClusterKey| #[trigger] cluster_map(after).contains_key(k) implies cluster_map(after)[k] == m[k] by {
        let j = choose|j: int| 0 <= j < after.len() && #[trigger] after[j].key == k;
        lemma_cluster_map_entry(after, j);
        if j != i {
            lemma_cluster_map_entry(before, j);
        }
    }
    assert(cluster_map(after) =~= m);
}

/// `s` is in ascending order.
pub open spec fn ascending(s: Seq<usize>) -> bool {
    forall|i: int, j: int| 0 <= i < j < s.len() ==> s[i] <= s[j]
}

/// `slice::sort_unstable` on a list of chunk indices: the same values, in
/// ascending order.
#[verifier::external_body]
fn sort_indices(v: &mut Vec<usize>)
    ensures
        final(v)@.to_multiset() == old(v)@.to_multiset(),
        ascending(final(v)@),
{
    v.sort_unstable();
}

/// `slice::sort_unstable_by_key` on (start, length) pairs, by length: the
/// same pairs, with lengths ascending; the order of pairs of equal length is
/// left open.
#[verifier::external_body]
fn sort_by_length(v: &mut Vec<(usize, usize)>)
    ensures
        final(v)@.to_multiset() == old(v)@.to_multiset(),
        forall|i: int, j: int| 0 <= i < j < final(v)@.len() ==> final(v)@[i].1 <= final(v)@[j].1,
{
    v.sort_unstable_by_key(|e| e.1);
}

impl SharedAreaBuffer {
    /// Looks in `list` (chunk indices, in any order) for a sequence, and
    /// reports where it starts. Taken in ascending order, no index ever
    /// follows the one before it by being one smaller, so every sequence has
    /// length one: with `min` equal to one the answer is the second smallest
    /// index minus one; otherwise it is one of the indices after the smallest,
    /// minus one (which one is left to the sort); with fewer than two indices
    /// there is none.
    pub fn find_shortest_increasing_sequence(list: &[usize], min: usize) -> (r: Option<usize>)
        requires
            list@.len() >= 2 ==> forall|k: int| 0 <= k < list@.len() ==> list@[k] < usize::MAX,
            list@.to_multiset().count(0) <= 1,
        ensures
            list@.len() < 2 ==> r is None,
            list@.len() >= 2 ==> exists|s: Seq<usize>| {
                &&& #[trigger] ascending(s)
                &&& s.to_multiset() == list@.to_multiset()
                &&& s.len() == list@.len()
                &&& (min == 1 ==> r == Some((s[1] - 1) as usize))
                &&& (min != 1 ==> exists|k: int| 1 <= k < s.len() && r == Some((s[k] - 1) as usize))
            },
    {
        if list.len() == 0 {
            return None;
        }
        let mut sorted_list: Vec<usize> = Vec::new();
        let mut c: usize = 0;
        while c < list.len()
            invariant
                c <= list@.len(),
                sorted_list@ == list@.take(c as int),
            decreases list@.len() - c,
        {
            sorted_list.push(list[c]);
            assert(sorted_list@ =~= list@.take(c + 1));
            c = c + 1;
        }
        assert(sorted_list@ =~= list@);
        sort_indices(&mut sorted_list);
        let ghost s = sorted_list@;
        proof {
            s.to_multiset_ensures();
            list@.to_multiset_ensures();
            assert(s.len() == list@.len());
            if s.len() >= 2 {
                assert forall|k: int| 0 <= k < s.len() implies s[k] < usize::MAX by {
                    assert(s.to_multiset().count(s[k]) > 0);
                    assert(list@.to_multiset().count(s[k]) > 0);
                }
                assert forall|k: int| 1 <= k < s.len() implies s[k] >= 1 by {
                    if s[k] == 0 {
                        assert(s[0] == 0);
                        assert(s.to_multiset().count(0) >= 2) by {
                            lemma_two_zeros(s, k);
                        }
                    }
                }
            }
        }
        let mut found: Vec<(usize, usize)> = Vec::new();
        let mut previous = sorted_list[0];
        let mut current_length: usize = 1;
        let mut i: usize = 1;
        while i < sorted_list.len()
            invariant
                sorted_list@ == s,
                ascending(s),
                s.to_multiset() == list@.to_multiset(),
                s.len() == list@.len(),
                1 <= i <= s.len(),
                s.len() >= 2 ==> forall|k: int| 0 <= k < s.len() ==> s[k] < usize::MAX,
                forall|k: int| 1 <= k < s.len() ==> s[k] >= 1,
                previous == s[i - 1],
                current_length == 1,
                i > 1 ==> min != 1,
                found@.len() == i - 1,
                forall|k: int| 0 <= k < found@.len() ==> #[trigger] found@[k] == ((s[k + 1] - 1) as usize, 1usize),
            decreases s.len() - i,
        {
            let x = sorted_list[i];
            if previous == x + 1 {
                current_length = current_length + 1;
                previous = previous + 1;
                i = i + 1;
                continue;
            }
            if current_length == min {
                proof {
                    assert(ascending(s));
                    assert(s.to_multiset() == list@.to_multiset());
                }
                return Some(x - current_length);
            }
            found.push((x - current_length, current_length));
            current_length = 1;
            previous = x;
            i = i + 1;
        }
        let ghost unsorted = found@;
        sort_by_length(&mut found);
        proof {
            unsorted.to_multiset_ensures();
            found@.to_multiset_ensures();
        }
        if found.len() > 0 {
            let first = found[0];
            proof {
                assert(found@.contains(first));
                assert(found@.to_multiset().count(first) > 0);
                assert(unsorted.to_multiset().count(first) > 0);
                assert(unsorted.contains(first));
                let k = choose|k: int| 0 <= k < unsorted.len() && unsorted[k] == first;
                assert(unsorted[k] == ((s[k + 1] - 1) as usize, 1usize));
                assert(ascending(s));
            }
            Some(first.0)
        } else {
            proof {
                assert(ascending(s));
            }
            None
        }
    }
}

proof fn lemma_two_zeros(s: Seq<usize>, k: int)
    requires
        ascending(s),
        1 <= k < s.len(),
        s[k] == 0,
    ensures
        s.to_multiset().count(0) >= 2,
{
    assert(s[0] <= s[k]);
    let r = s.remove(0);
    assert(r[k - 1] == 0);
    r.to_multiset_ensures();
    s.to_multiset_ensures();
    broadcast use vstd::multiset::group_multiset_axioms;
    assert(r.contains(0));
    assert(r.to_multiset().count(0) > 0);
    assert(r.to_multiset() =~= s.to_multiset().remove(s[0]));
    assert(s.to_multiset().remove(0).count(0) > 0);
}

impl SharedAreaBuffer {
    /// Whether cluster `c` holds the first chunk of `key`.
    fn cluster_holds(c: &Cluster, key: &SharedAreaBufferAllocation) -> (r: bool)
        requires
            c.index_start + c.size <= usize::MAX,
        ensures
            r == holds_allocation(*c, *key),
    {
        c.index_start <= key.chunk_start && key.chunk_start < c.index_start + c.size
    }

    /// Whether [`SharedAreaBuffer::free`] finds a cluster for `key`: its
    /// region has a list here and some cluster of it holds the allocation's
    /// first chunk.
    pub fn can_free(&self, key: &SharedAreaBufferAllocation) -> (r: bool)
        requires
            self.well_formed(),
        ensures
            r == (self.cluster_lists().contains_key(key.cluster_pos)
                && exists|i: int| 0 <= i < self.cluster_lists()[key.cluster_pos].len()
                    && #[trigger] holds_allocation(self.cluster_lists()[key.cluster_pos][i], *key)),
    {
        let e = match self.find_entry(key.cluster_pos) {
            Some(e) => e,
            None => {
                proof { lemma_cluster_map_absent(self.clusters@, key.cluster_pos); }
                return false;
            },
        };
        proof { lemma_cluster_map_entry(self.clusters@, e as int); }
        let ghost list = self.clusters@[e as int].clusters@;
        let total = self.chunks.len();
        let clusters = &self.clusters[e].clusters;
        let mut i: usize = 0;
        while i < clusters.len()
            invariant
                clusters@ == list,
                list == self.cluster_lists()[key.cluster_pos],
                self.cluster_lists().contains_key(key.cluster_pos),
                total == self.chunks@.len(),
                list == self.clusters@[e as int].clusters@,
                e < self.clusters@.len(),
                clusters_fit(self.clusters@, self.chunks@.len()),
                i <= list.len(),
                forall|j: int| 0 <= j < i ==> !#[trigger] holds_allocation(list[j], *key),
            decreases list.len() - i,
        {
            assert(list[i as int] == self.clusters@[e as int].clusters@[i as int]);
            if Self::cluster_holds(&clusters[i], key) {
                assert(holds_allocation(self.cluster_lists()[key.cluster_pos][i as int], *key));
                return true;
            }
            i = i + 1;
        }
        false
    }

    /// Gives back the chunks of an allocation. Its cluster is the first one of
    /// its region that holds the allocation's first chunk (a lookup that asked
    /// for a cluster starting at or after that chunk and ending before it
    /// could never succeed, so the cluster is found by where it lies). If the
    /// cluster's free chunks and this allocation make up the whole cluster,
    /// its chunks are released and it is dropped from the region's list;
    /// otherwise the allocation's chunks are added to the cluster's free
    /// chunks.
    pub fn free(&mut self, key: SharedAreaBufferAllocation)
        requires
            old(self).well_formed(),
            old(self).cluster_lists().contains_key(key.cluster_pos),
            exists|i: int| 0 <= i < old(self).cluster_lists()[key.cluster_pos].len()
                && #[trigger] holds_allocation(old(self).cluster_lists()[key.cluster_pos][i], key),
            key.cluster_index_start + key.chunk_length <= usize::MAX,
        ensures
            final(self).well_formed(),
            freed(*old(self), *final(self), key),
    {
        let ghost lists = self.cluster_lists();
        let ghost flags0 = self.chunks@;
        let ghost list = lists[key.cluster_pos];
        let ghost entries0 = self.clusters@;
        proof { lemma_cluster_map_dom(entries0); }
        let entry_index = match self.find_entry(key.cluster_pos) {
            Some(e) => e,
            None => {
                proof {
                    let e = choose|e: int| 0 <= e < entries0.len() && #[trigger] entries0[e].key == key.cluster_pos;
                }
                return;
            },
        };
        proof { lemma_cluster_map_entry(entries0, entry_index as int); }
        let mut entry = self.clusters.remove(entry_index);
        assert(entry.clusters@ == list);
        let _chunk_count = self.chunks.len();
        let _cluster_count = entry.clusters.len();
        let mut cluster_index: usize = 0;
        proof {
            assert forall|c: int| 0 <= c < list.len() implies #[trigger] list[c].index_start + list[c].size <= flags0.len() by {
                assert(entries0[entry_index as int].clusters@[c] == list[c]);
            }
        }
        while !Self::cluster_holds(&entry.clusters[cluster_index], &key)
            invariant
                entry.clusters@ == list,
                cluster_index < list.len(),
                forall|c: int| 0 <= c < list.len() ==> #[trigger] list[c].index_start + list[c].size <= flags0.len(),
                flags0.len() <= usize::MAX,
                list.len() <= usize::MAX,
                forall|j: int| 0 <= j < cluster_index ==> !holds_allocation(list[j], key),
                exists|i: int| cluster_index <= i < list.len() && #[trigger] holds_allocation(list[i], key),
            decreases list.len() - cluster_index,
        {
            assert(!holds_allocation(list[cluster_index as int], key));
            cluster_index = cluster_index + 1;
            assert(cluster_index < list.len()) by {
                let i = choose|i: int| cluster_index - 1 <= i < list.len() && #[trigger] holds_allocation(list[i], key);
            }
        }
        let ghost ci = cluster_index as int;
        let ghost c0 = list[ci];
        let mut cluster = entry.clusters.remove(cluster_index);
        assert(cluster == c0);
        if key.chunk_length <= cluster.size && cluster.free.len() == cluster.size - key.chunk_length {
            let start = cluster.index_start;
            let end = cluster.index_start + cluster.size;
            let mut k: usize = start;
            while k < end
                invariant
                    start == c0.index_start,
                    end == c0.index_start + c0.size,
                    end <= flags0.len(),
                    start <= k <= end,
                    self.chunks@.len() == flags0.len(),
                    self.clusters@ == entries0.remove(entry_index as int),
                    self.options == old(self).options,
                    forall|q: int| 0 <= q < flags0.len() ==> #[trigger] self.chunks@[q]
                        == if start <= q < k { false } else { flags0[q] },
                decreases end - k,
            {
                self.chunks.set(k, false);
                k = k + 1;
            }
            let ghost new_entry = entry;
            self.clusters.insert(entry_index, entry);
            proof {
                assert(new_entry.clusters@ =~= list.remove(ci));
                assert(self.clusters@ =~= entries0.update(entry_index as int, new_entry));
                lemma_cluster_map_update(entries0, self.clusters@, entry_index as int);
                assert forall|a: int, b: int| 0 <= a < self.clusters@.len() && 0 <= b < self.clusters@[a].clusters@.len()
                    implies #[trigger] self.clusters@[a].clusters@[b].index_start + self.clusters@[a].clusters@[b].size
                        <= self.chunks@.len() by {
                    if a == entry_index {
                        if b < ci {
                            assert(self.clusters@[a].clusters@[b] == list[b]);
                        } else {
                            assert(self.clusters@[a].clusters@[b] == list[b + 1]);
                        }
                    } else {
                        assert(self.clusters@[a] == entries0[a]);
                    }
                }
                assert forall|i: int| 0 <= i < list.len() && holds_allocation(list[i], key)
                    && (forall|j: int| 0 <= j < i ==> !holds_allocation(list[j], key)) implies i == ci by {
                    if i < ci {
                    } else if i > ci {
                        assert(!holds_allocation(list[ci], key));
                    }
                }
                assert(self.cluster_lists()[key.cluster_pos] == list.remove(ci));
                assert(self.cluster_lists().dom() == old(self).cluster_lists().dom());
                assert(forall|k: ClusterKey| k != key.cluster_pos && #[trigger] old(self).cluster_lists().contains_key(k)
                    ==> self.cluster_lists()[k] == old(self).cluster_lists()[k]);
                assert(self.options == old(self).options);
                assert(self.chunk_flags().len() == old(self).chunk_flags().len());
            }
            return;
        }
        let mut q: usize = 0;
        let ghost free0 = cluster.free@;
        while q < key.chunk_length
            invariant
                q <= key.chunk_length,
                key.cluster_index_start + key.chunk_length <= usize::MAX,
                cluster.index_start == c0.index_start,
                cluster.size == c0.size,
                cluster.free@ == free0 + Seq::new(q as nat, |j: int| (j + key.cluster_index_start) as usize),
            decreases key.chunk_length - q,
        {
            cluster.free.push(q + key.cluster_index_start);
            assert(cluster.free@ =~= free0 + Seq::new((q + 1) as nat, |j: int| (j + key.cluster_index_start) as usize));
            q = q + 1;
        }
        let ghost new_cluster = cluster;
        entry.clusters.insert(cluster_index, cluster);
        let ghost new_entry = entry;
        self.clusters.insert(entry_index, entry);
        proof {
            assert(new_entry.clusters@ =~= list.update(ci, new_cluster));
            assert(self.clusters@ =~= entries0.update(entry_index as int, new_entry));
            lemma_cluster_map_update(entries0, self.clusters@, entry_index as int);
            assert forall|a: int, b: int| 0 <= a < self.clusters@.len() && 0 <= b < self.clusters@[a].clusters@.len()
                implies #[trigger] self.clusters@[a].clusters@[b].index_start + self.clusters@[a].clusters@[b].size
                    <= self.chunks@.len() by {
                if a == entry_index {
                    assert(self.clusters@[a].clusters@[b] == list.update(ci, new_cluster)[b]);
                } else {
                    assert(self.clusters@[a] == entries0[a]);
                }
            }
            assert(new_cluster == Cluster { free: new_cluster.free, ..c0 });
            assert forall|i: int| 0 <= i < list.len() && holds_allocation(list[i], key)
                && (forall|j: int| 0 <= j < i ==> !holds_allocation(list[j], key)) implies i == ci by {
                if i > ci {
                    assert(!holds_allocation(list[ci], key));
                }
            }
            assert(self.cluster_lists()[key.cluster_pos] == list.update(ci, new_cluster));
            assert(self.cluster_lists()[key.cluster_pos][ci] == new_cluster);
            assert(self.chunks@ == flags0);
            assert(self.cluster_lists().dom() == old(self).cluster_lists().dom());
            assert(forall|k: ClusterKey| k != key.cluster_pos && #[trigger] old(self).cluster_lists().contains_key(k)
                ==> self.cluster_lists()[k] == old(self).cluster_lists()[k]);
            assert(self.options == old(self).options);
            assert(self.chunk_flags().len() == old(self).chunk_flags().len());
        }
    }
}

/// `after` is what [`SharedAreaBuffer::free`] of `key` makes of `before`.
/// The first cluster of the region that holds the allocation's first chunk
/// is dropped, with its chunks released, when its free chunks and the
/// allocation fill it; otherwise the allocation's chunks are appended to its
/// free chunks. The other regions, the options and the buffer's length stay.
pub open spec fn freed(before: SharedAreaBuffer, after: SharedAreaBuffer, key: SharedAreaBufferAllocation) -> bool {
    let list = before.cluster_lists()[key.cluster_pos];
    &&& after.max_space_between() == before.max_space_between()
    &&& after.cluster_chunk_size() == before.cluster_chunk_size()
    &&& after.chunk_flags().len() == before.chunk_flags().len()
    &&& after.cluster_lists().dom() == before.cluster_lists().dom()
    &&& forall|k: ClusterKey| k != key.cluster_pos && #[trigger] before.cluster_lists().contains_key(k)
        ==> after.cluster_lists()[k] == before.cluster_lists()[k]
    &&& forall|i: int| 0 <= i < list.len() && holds_allocation(list[i], key)
        && (forall|j: int| 0 <= j < i ==> !holds_allocation(list[j], key)) ==> {
        let c = list[i];
        if c.free@.len() + key.chunk_length == c.size {
            &&& after.cluster_lists()[key.cluster_pos] == list.remove(i)
            &&& forall|k: int| 0 <= k < before.chunk_flags().len() ==> #[trigger] after.chunk_flags()[k]
                == if c.index_start <= k < c.index_start + c.size { false } else { before.chunk_flags()[k] }
        } else {
            &&& after.chunk_flags() == before.chunk_flags()
            &&& after.cluster_lists()[key.cluster_pos] == list.update(i, Cluster {
                free: after.cluster_lists()[key.cluster_pos][i].free,
                ..c
            })
            &&& after.cluster_lists()[key.cluster_pos][i].free@ == c.free@
                + Seq::new(key.chunk_length as nat, |j: int| (j + key.cluster_index_start) as usize)
        }
    }
}

/// Freeing what an allocation handed out undoes the allocation: the chunks
/// reserved for it are free again and its region's list is what it was
/// (empty if the region was new). Other regions keep their lists. This holds
/// whenever the new cluster is not empty, that is, unless both the request
/// and the cluster size are zero.
pub proof fn law_free_undoes_allocate(
    b0: SharedAreaBuffer,
    b1: SharedAreaBuffer,
    b2: SharedAreaBuffer,
    amount: usize,
    key: ClusterKey,
    a: SharedAreaBufferAllocation,
)
    requires
        b0.well_formed(),
        allocated(b0, b1, amount, key, Some(a)),
        freed(b1, b2, a),
        amount > 0 || b0.cluster_chunk_size() > 0,
    ensures
        b2.chunk_flags() == b0.chunk_flags(),
        b2.cluster_lists().dom() == b0.cluster_lists().dom().insert(key),
        b2.cluster_lists()[key] == if b0.cluster_lists().contains_key(key) {
            b0.cluster_lists()[key]
        } else {
            Seq::<Cluster>::empty()
        },
        forall|k: ClusterKey| k != key && #[trigger] b0.cluster_lists().contains_key(k)
            ==> b2.cluster_lists()[k] == b0.cluster_lists()[k],
{
    let flags0 = b0.chunk_flags();
    lemma_best_chunk_free(flags0, b0.max_space_between() as int);
    let b = best_chunk(flags0, b0.max_space_between() as int).unwrap();
    let res = reservable(b0.cluster_chunk_size() as int, amount as int, b.1);
    assert(1 <= res <= b.1);
    let old_list = if b0.cluster_lists().contains_key(key) { b0.cluster_lists()[key] } else { Seq::empty() };
    let new_list = b1.cluster_lists()[key];
    let n = new_list.len() - 1;
    assert(new_list[n] == new_list.last());
    assert(holds_allocation(new_list[n], a));
    assert forall|j: int| 0 <= j < n implies !holds_allocation(new_list[j], a) by {
        assert(new_list[j] == old_list[j]);
        assert(b0.cluster_lists().contains_key(key));
        lemma_cluster_map_dom(b0.clusters@);
        let e = choose|e: int| 0 <= e < b0.clusters@.len() && #[trigger] b0.clusters@[e].key == key;
        lemma_cluster_map_entry(b0.clusters@, e);
        assert(b0.clusters@[e].clusters@[j] == old_list[j]);
        if holds_allocation(old_list[j], a) {
            assert(flags0[b.0]);
        }
    }
    assert(new_list.remove(n) =~= old_list);
    assert(b2.chunk_flags() =~= flags0);
    assert forall|k: ClusterKey| k != key && #[trigger] b0.cluster_lists().contains_key(k)
        implies b2.cluster_lists()[k] == b0.cluster_lists()[k] by {
        assert(b1.cluster_lists().contains_key(k));
    }
}

/// The lookup condition of [`SharedAreaBuffer::free`]: the cluster holds the
/// allocation's first chunk.
pub open spec fn holds_allocation(c: Cluster, key: SharedAreaBufferAllocation) -> bool {
    c.index_start <= key.chunk_start < c.index_start + c.size
}

/// Where to put one mesh: the vertex chunks and the index run handed out
/// for it.
pub struct ChunkReservation {
    pub vb: Vec<SharedSimpleBufferAllocation>,
    pub ib: SharedAreaBufferAllocation,
}

/// The chunk bookkeeping of one generation of a mesh combiner: single
/// vertex chunks, runs of index chunks, and whether it was found full.
pub struct GenerationSpace {
    pub vertex_manager: SharedSimpleBuffer,
    pub index_manager: SharedAreaBuffer,
    pub was_full: bool,
}

/// `q` with its first `n` items moved to the back.
pub open spec fn rotated(q: Seq<usize>, n: int) -> Seq<usize> {
    q.skip(n) + q.take(n)
}

/// `after` and `r` are what [`GenerationSpace::reserve`] makes of `before`.
pub open spec fn reserved(
    before: GenerationSpace,
    after: GenerationSpace,
    chunks_vertices: usize,
    chunks_indices: usize,
    key: ClusterKey,
    r: Option<ChunkReservation>,
) -> bool {
{
        let q = before.vertex_manager.free_list();
        let n = chunks_vertices as int;
        if before.was_full {
            &&& r is None
            &&& after.vertex_manager.free_list() == q
            &&& after.index_manager == before.index_manager
            &&& after.was_full
        } else if q.len() < n {
            &&& r is None
            &&& after.vertex_manager.free_list() == q
            &&& after.index_manager == before.index_manager
            &&& after.was_full
        } else {
            match r {
                None => {
                    &&& allocated(before.index_manager, after.index_manager, chunks_indices, key, None)
                    &&& after.vertex_manager.free_list() == rotated(q, n)
                    &&& after.was_full
                },
                Some(res) => {
                    &&& allocated(before.index_manager, after.index_manager, chunks_indices, key, Some(res.ib))
                    &&& res.vb@ == Seq::new(n as nat, |i: int| (SharedSimpleBufferAllocation { index: q[i] }))
                    &&& after.vertex_manager.free_list() == q.skip(n)
                    &&& after.was_full == before.was_full
                },
            }
        }
    }
}

impl GenerationSpace {
    /// A generation of `max_vertex_chunks` vertex chunks and
    /// `max_index_chunks` index chunks (clusters of 512 chunks, runs measured
    /// up to 1024).
    pub fn new(max_vertex_chunks: usize, max_index_chunks: usize) -> (r: GenerationSpace)
        ensures
            r.vertex_manager.free_list() == first_indices(max_vertex_chunks as nat),
            r.index_manager.well_formed(),
            r.index_manager.chunk_flags() == Seq::new(max_index_chunks as nat, |i: int| false),
            r.index_manager.cluster_lists() == Map::<ClusterKey, Seq<Cluster>>::empty(),
            r.index_manager.cluster_chunk_size() == 512,
            r.index_manager.max_space_between() == 1024,
            !r.was_full,
    {
        let defaults = SharedAreaBufferOptions::default();
        GenerationSpace {
            vertex_manager: SharedSimpleBuffer::new(max_vertex_chunks),
            index_manager: SharedAreaBuffer::with_options(SharedAreaBufferOptions {
                total_chunks: max_index_chunks,
                cluster_chunk_size: 512,
                max_space_between: 1024,
                chunk_size: defaults.chunk_size,
            }),
            was_full: false,
        }
    }

    /// Reserves `chunks_vertices` vertex chunks and a run of `chunks_indices`
    /// index chunks for region `key`. When either is not available, what was
    /// taken is given back, the generation is marked full and `None` comes
    /// back; a generation marked full is not tried.
    #[verifier::rlimit(30)]
    pub fn reserve(&mut self, chunks_vertices: usize, chunks_indices: usize, key: ClusterKey)
        -> (r: Option<ChunkReservation>)
        requires
            old(self).index_manager.well_formed(),
        ensures
            final(self).index_manager.well_formed(),
            reserved(*old(self), *final(self), chunks_vertices, chunks_indices, key, r),
    {
        if self.was_full {
            return None;
        }
        let ghost q = self.vertex_manager.free_list();
        let mut vb: Vec<SharedSimpleBufferAllocation> = Vec::new();
        let mut i: usize = 0;
        while i < chunks_vertices
            invariant
                i <= chunks_vertices,
                vb@.len() <= i,
                vb@.len() == if i <= q.len() { i as int } else { q.len() as int },
                forall|j: int| 0 <= j < vb@.len() ==> #[trigger] vb@[j] == (SharedSimpleBufferAllocation { index: q[j] }),
                self.vertex_manager.free_list() == q.skip(vb@.len() as int),
                self.index_manager == old(self).index_manager,
                self.was_full == old(self).was_full,
            decreases chunks_vertices - i,
        {
            let ghost before = self.vertex_manager.free_list();
            match self.vertex_manager.allocate() {
                Some(a) => {
                    assert(q.skip(vb@.len() as int).drop_first() =~= q.skip((vb@.len() + 1) as int));
                    vb.push(a);
                },
                None => {},
            }
            i = i + 1;
        }
        if vb.len() != chunks_vertices {
            let ghost taken = vb@;
            let mut j: usize = 0;
            while j < vb.len()
                invariant
                    j <= vb@.len(),
                    vb@ == taken,
                    taken.len() == q.len(),
                    forall|k: int| 0 <= k < taken.len() ==> #[trigger] taken[k] == (SharedSimpleBufferAllocation { index: q[k] }),
                    self.vertex_manager.free_list() == q.take(j as int),
                    self.index_manager == old(self).index_manager,
                decreases vb@.len() - j,
            {
                self.vertex_manager.free(vb[j]);
                assert(q.take(j as int).push(q[j as int]) =~= q.take(j + 1));
                j = j + 1;
            }
            assert(q.take(j as int) =~= q);
            self.was_full = true;
            return None;
        }
        let ib = self.index_manager.allocate(chunks_indices, key);
        let ghost ib0 = ib;
        match ib {
            None => {
                let ghost taken = vb@;
                let ghost im = self.index_manager;
                let mut j: usize = 0;
                while j < vb.len()
                    invariant
                        self.index_manager == im,
                        j <= vb@.len(),
                        vb@ == taken,
                        taken.len() == chunks_vertices,
                        chunks_vertices <= q.len(),
                        forall|k: int| 0 <= k < taken.len() ==> #[trigger] taken[k] == (SharedSimpleBufferAllocation { index: q[k] }),
                        self.vertex_manager.free_list() == q.skip(chunks_vertices as int) + q.take(j as int),
                    decreases vb@.len() - j,
                {
                    self.vertex_manager.free(vb[j]);
                    assert(q.skip(chunks_vertices as int) + q.take(j as int).push(q[j as int])
                        =~= q.skip(chunks_vertices as int) + q.take(j + 1));
                    j = j + 1;
                }
                assert(q.take(j as int) =~= q.take(chunks_vertices as int));
                self.was_full = true;
                assert(allocated(old(self).index_manager, self.index_manager, chunks_indices, key, ib0));
                assert(self.vertex_manager.free_list() == rotated(q, chunks_vertices as int));
                None
            },
            Some(ib) => {
                assert(vb@ =~= Seq::new(chunks_vertices as nat, |i: int| (SharedSimpleBufferAllocation { index: q[i] })));
                Some(ChunkReservation { vb, ib })
            },
        }
    }
}

impl GenerationSpace {
    /// Gives back what a reservation took: its vertex chunks go to the back
    /// of the free list in order, its index run is freed (see
    /// [`SharedAreaBuffer::free`]), and the generation is no longer marked
    /// full.
    pub fn remove(&mut self, reservation: ChunkReservation)
        requires
            old(self).index_manager.well_formed(),
            old(self).index_manager.cluster_lists().contains_key(reservation.ib.cluster_pos),
            exists|i: int| 0 <= i < old(self).index_manager.cluster_lists()[reservation.ib.cluster_pos].len()
                && #[trigger] holds_allocation(
                    old(self).index_manager.cluster_lists()[reservation.ib.cluster_pos][i],
                    reservation.ib,
                ),
            reservation.ib.cluster_index_start + reservation.ib.chunk_length <= usize::MAX,
        ensures
            final(self).index_manager.well_formed(),
            removed(*old(self), *final(self), reservation),
    {
        let ghost q = self.vertex_manager.free_list();
        let ghost vb = reservation.vb@;
        let mut i: usize = 0;
        while i < reservation.vb.len()
            invariant
                vb == reservation.vb@,
                i <= vb.len(),
                self.vertex_manager.free_list() == q + Seq::new(i as nat, |j: int| vb[j].index),
                self.index_manager == old(self).index_manager,
            decreases vb.len() - i,
        {
            self.vertex_manager.free(reservation.vb[i]);
            assert(q + Seq::new((i + 1) as nat, |j: int| vb[j].index)
                =~= (q + Seq::new(i as nat, |j: int| vb[j].index)).push(vb[i as int].index));
            i = i + 1;
        }
        self.index_manager.free(reservation.ib);
        self.was_full = false;
    }
}

/// `after` is what [`GenerationSpace::remove`] of `reservation` makes of
/// `before`: the vertex chunks are back at the end of the free list in the
/// reservation's order, the index run is freed (see [`freed`]), and the
/// generation is not marked full.
pub open spec fn removed(before: GenerationSpace, after: GenerationSpace, reservation: ChunkReservation) -> bool {
    &&& after.vertex_manager.free_list() == before.vertex_manager.free_list()
        + Seq::new(reservation.vb@.len(), |i: int| reservation.vb@[i].index)
    &&& freed(before.index_manager, after.index_manager, reservation.ib)
    &&& !after.was_full
}

/// Removing what a reservation took undoes it: the index chunks are exactly
/// as free as before, the vertex chunks are the same free chunks as before
/// (the ones taken now come last), and the generation is not marked full.
/// This holds unless both the index request and the cluster size are zero.
pub proof fn law_remove_undoes_reserve(
    g0: GenerationSpace,
    g1: GenerationSpace,
    g2: GenerationSpace,
    chunks_vertices: usize,
    chunks_indices: usize,
    key: ClusterKey,
    reservation: ChunkReservation,
)
    requires
        g0.index_manager.well_formed(),
        reserved(g0, g1, chunks_vertices, chunks_indices, key, Some(reservation)),
        removed(g1, g2, reservation),
        chunks_indices > 0 || g0.index_manager.cluster_chunk_size() > 0,
    ensures
        g2.index_manager.chunk_flags() == g0.index_manager.chunk_flags(),
        g2.vertex_manager.free_list() == rotated(g0.vertex_manager.free_list(), chunks_vertices as int),
        g2.vertex_manager.free_list().to_multiset() == g0.vertex_manager.free_list().to_multiset(),
        !g2.was_full,
{
    let q = g0.vertex_manager.free_list();
    let n = chunks_vertices as int;
    law_free_undoes_allocate(g0.index_manager, g1.index_manager, g2.index_manager, chunks_indices, key, reservation.ib);
    assert(Seq::new(reservation.vb@.len(), |i: int| reservation.vb@[i].index) =~= q.take(n));
    law_rotation_keeps_chunks(q, n);
}

/// A failed reservation gives every vertex chunk it took back: the free
/// chunks are the same as before, only in another order.
pub proof fn law_rotation_keeps_chunks(q: Seq<usize>, n: int)
    requires
        0 <= n <= q.len(),
    ensures
        rotated(q, n).to_multiset() == q.to_multiset(),
{
    vstd::seq_lib::lemma_multiset_commutative(q.skip(n), q.take(n));
    vstd::seq_lib::lemma_multiset_commutative(q.take(n), q.skip(n));
    assert(q.take(n) + q.skip(n) =~= q);
}

/// A new cluster only takes chunks that were free, and it holds at least
/// the requested chunks.
pub proof fn law_allocation_takes_free_chunks(
    chunks: Seq<bool>,
    max_between: int,
    cluster_chunk_size: int,
    amount: int,
)
    requires
        amount >= 0,
        cluster_chunk_size >= 0,
    ensures
        match best_chunk(chunks, max_between) {
            Some(b) => b.1 >= amount ==> {
                let res = reservable(cluster_chunk_size, amount, b.1);
                &&& amount <= res <= b.1
                &&& b.0 + res <= chunks.len()
                &&& forall|i: int| b.0 <= i < b.0 + res ==> !#[trigger] chunks[i]
            },
            None => true,
        },
{
    lemma_best_chunk_free(chunks, max_between);
}

/// Tries each generation in order and reserves in the first one that has
/// room; `None` when none has (the caller then adds a generation).
pub fn reserve_in_generations(
    generations: &mut Vec<GenerationSpace>,
    chunks_vertices: usize,
    chunks_indices: usize,
    key: ClusterKey,
) -> (r: Option<(usize, ChunkReservation)>)
    requires
        forall|i: int| 0 <= i < old(generations)@.len() ==> (#[trigger] old(generations)@[i]).index_manager.well_formed(),
    ensures
        final(generations)@.len() == old(generations)@.len(),
        forall|i: int| 0 <= i < final(generations)@.len() ==> (#[trigger] final(generations)@[i]).index_manager.well_formed(),
        match r {
            Some((g, res)) => {
                &&& g < old(generations)@.len()
                &&& reserved(old(generations)@[g as int], final(generations)@[g as int], chunks_vertices, chunks_indices, key, Some(res))
                &&& forall|j: int| 0 <= j < g ==> reserved(old(generations)@[j], #[trigger] final(generations)@[j],
                    chunks_vertices, chunks_indices, key, None)
                &&& forall|j: int| g < j < old(generations)@.len() ==> #[trigger] final(generations)@[j] == old(generations)@[j]
            },
            None => forall|j: int| 0 <= j < old(generations)@.len() ==> reserved(old(generations)@[j],
                #[trigger] final(generations)@[j], chunks_vertices, chunks_indices, key, None),
        },
{
    let ghost orig = generations@;
    let mut g: usize = 0;
    while g < generations.len()
        invariant
            g <= generations@.len(),
            orig == old(generations)@,
            generations@.len() == orig.len(),
            forall|i: int| 0 <= i < generations@.len() ==> (#[trigger] generations@[i]).index_manager.well_formed(),
            forall|j: int| 0 <= j < g ==> reserved(orig[j], #[trigger] generations@[j], chunks_vertices, chunks_indices, key, None),
            forall|j: int| g <= j < orig.len() ==> #[trigger] generations@[j] == orig[j],
        decreases generations@.len() - g,
    {
        let ghost prev = generations@;
        let mut space = generations.remove(g);
        assert(space == prev[g as int]);
        let entry = space.reserve(chunks_vertices, chunks_indices, key);
        let ghost after = space;
        generations.insert(g, space);
        assert(generations@ =~= prev.update(g as int, after));
        if let Some(res) = entry {
            return Some((g, res));
        }
        g = g + 1;
    }
    None
}

/// `g` is a generation as [`GenerationSpace::new`] makes it, for
/// `max_vertex_chunks` vertex chunks and `max_index_chunks` index chunks.
pub open spec fn fresh_generation(g: GenerationSpace, max_vertex_chunks: usize, max_index_chunks: usize) -> bool {
    &&& g.vertex_manager.free_list() == first_indices(max_vertex_chunks as nat)
    &&& g.index_manager.well_formed()
    &&& g.index_manager.chunk_flags() == Seq::new(max_index_chunks as nat, |i: int| false)
    &&& g.index_manager.cluster_lists() == Map::<ClusterKey, Seq<Cluster>>::empty()
    &&& g.index_manager.cluster_chunk_size() == 512
    &&& g.index_manager.max_space_between() == 1024
    &&& !g.was_full
}

/// Reserves in the first generation that has room; when none has, adds a
/// new generation of `max_vertex_chunks` vertex chunks and
/// `max_index_chunks` index chunks at the end and reserves there.
pub fn reserve_or_add_generation(
    generations: &mut Vec<GenerationSpace>,
    max_vertex_chunks: usize,
    max_index_chunks: usize,
    chunks_vertices: usize,
    chunks_indices: usize,
    key: ClusterKey,
) -> (r: Option<(usize, ChunkReservation)>)
    requires
        forall|i: int| 0 <= i < old(generations)@.len() ==> (#[trigger] old(generations)@[i]).index_manager.well_formed(),
    ensures
        forall|i: int| 0 <= i < final(generations)@.len() ==> (#[trigger] final(generations)@[i]).index_manager.well_formed(),
        final(generations)@.len() <= old(generations)@.len() + 1,
        r matches Some((g, _)) ==> g <= old(generations)@.len(),
        (exists|j: int| 0 <= j < old(generations)@.len() && !reserved(old(generations)@[j], final(generations)@[j],
            chunks_vertices, chunks_indices, key, None))
            ==> final(generations)@.len() == old(generations)@.len() && r is Some,
        match r {
            Some((g, res)) => {
                &&& g < final(generations)@.len()
                &&& forall|j: int| 0 <= j < g && j < old(generations)@.len() ==> reserved(old(generations)@[j],
                    #[trigger] final(generations)@[j], chunks_vertices, chunks_indices, key, None)
                &&& g < old(generations)@.len() ==> {
                    &&& final(generations)@.len() == old(generations)@.len()
                    &&& reserved(old(generations)@[g as int], final(generations)@[g as int], chunks_vertices,
                        chunks_indices, key, Some(res))
                    &&& forall|j: int| g < j < old(generations)@.len() ==> #[trigger] final(generations)@[j] == old(generations)@[j]
                }
                &&& g == old(generations)@.len() ==> {
                    &&& final(generations)@.len() == old(generations)@.len() + 1
                    &&& exists|f: GenerationSpace| fresh_generation(f, max_vertex_chunks, max_index_chunks)
                        && reserved(f, final(generations)@[g as int], chunks_vertices, chunks_indices, key, Some(res))
                }
            },
            None => {
                &&& final(generations)@.len() == old(generations)@.len() + 1
                &&& forall|j: int| 0 <= j < old(generations)@.len() ==> reserved(old(generations)@[j],
                    #[trigger] final(generations)@[j], chunks_vertices, chunks_indices, key, None)
                &&& exists|f: GenerationSpace| fresh_generation(f, max_vertex_chunks, max_index_chunks)
                    && reserved(f, final(generations)@[old(generations)@.len() as int], chunks_vertices, chunks_indices, key, None)
            },
        },
{
    match reserve_in_generations(generations, chunks_vertices, chunks_indices, key) {
        Some(found) => Some(found),
        None => {
            let mut fresh = GenerationSpace::new(max_vertex_chunks, max_index_chunks);
            let ghost before = fresh;
            let entry = fresh.reserve(chunks_vertices, chunks_indices, key);
            let index = generations.len();
            let ghost mid = generations@;
            generations.push(fresh);
            proof {
                assert(fresh_generation(before, max_vertex_chunks, max_index_chunks));
                assert(generations@[index as int] == fresh);
                assert forall|j: int| 0 <= j < mid.len() implies generations@[j] == mid[j] by {}
            }
            match entry {
                Some(res) => Some((index, res)),
                None => None,
            }
        },
    }
}

} // verus!
