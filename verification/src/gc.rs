//! A mark-and-sweep heap: an arena of boxes addressed by handles.

use vstd::prelude::*;
use crate::trace::Trace;

verus! {

/// The bit of a header word that records the mark.
pub const MARK_MASK: u64 = 0x8000_0000_0000_0000;

/// The bits of a header word that hold the root count.
pub const ROOTS_MASK: u64 = 0x7fff_ffff_ffff_ffff;

/// The largest root count a header can hold.
pub const ROOTS_MAX: u64 = 0x7fff_ffff_ffff_ffff;

/// A handle to a box of the heap. Two handles are the same object exactly when
/// their indices are equal.
#[derive(Clone, Copy, PartialEq, Eq, Debug, Structural)]
pub struct Gc {
    pub index: usize,
}

impl Gc {
    /// Whether the two handles address the same box.
    pub fn ptr_eq(this: &Gc, other: &Gc) -> (same: bool)
        ensures
            same == (this.index == other.index),
    {
        this.index == other.index
    }
}

/// Counters kept by the heap.
#[derive(Clone, Copy, PartialEq, Eq, Debug, Structural)]
pub struct GcStats {
    /// The bytes charged to the boxes that are currently allocated.
    pub bytes_allocated: usize,
    /// The number of collections performed so far.
    pub collections_perfomed: usize,
}

impl Default for GcStats {
    fn default() -> (stats: Self)
        ensures
            stats.bytes_allocated == 0,
            stats.collections_perfomed == 0,
    {
        GcStats { bytes_allocated: 0, collections_perfomed: 0 }
    }
}

/// The policy that decides when the heap collects.
#[derive(Clone, Copy, PartialEq, Eq, Debug, Structural)]
pub struct GcConfig {
    /// An allocation collects first when more than this many bytes are charged.
    pub threshold: usize,
    /// After a collection at most this percentage of the threshold should be in
    /// use; otherwise the threshold is raised.
    pub used_space_percent: usize,
    /// Whether the boxes are left alone when the heap is dismantled.
    pub leak_on_drop: bool,
}

impl Default for GcConfig {
    fn default() -> (config: Self)
        ensures
            config.threshold == 100,
            config.used_space_percent == 80,
            !config.leak_on_drop,
    {
        GcConfig { threshold: 100, used_space_percent: 80, leak_on_drop: false }
    }
}

/// The header of a box: one word that holds the root count in its low 63 bits
/// and the mark in its highest bit.
#[derive(Clone, Copy, PartialEq, Eq, Debug, Structural)]
pub struct GcBoxHeader {
    pub word: u64,
}

impl GcBoxHeader {
    /// The root count held by the header.
    pub open spec fn spec_roots(&self) -> u64 {
        self.word & ROOTS_MASK
    }

    /// Whether the mark is set.
    pub open spec fn spec_is_marked(&self) -> bool {
        self.word & MARK_MASK != 0
    }

    /// A header with one root and no mark.
    pub fn new() -> (header: Self)
        ensures
            header.word == 1,
            header.spec_roots() == 1,
            !header.spec_is_marked(),
    {
        assert(1u64 & 0x7fff_ffff_ffff_ffff == 1 && 1u64 & 0x8000_0000_0000_0000 == 0)
            by (bit_vector);
        GcBoxHeader { word: 1 }
    }

    /// The root count.
    pub fn roots(&self) -> (count: u64)
        ensures
            count == self.spec_roots(),
            count <= ROOTS_MAX,
    {
        let w = self.word;
        assert(w & 0x7fff_ffff_ffff_ffff <= 0x7fff_ffff_ffff_ffff) by (bit_vector);
        self.word & ROOTS_MASK
    }

    /// Adds one root. The count must be below its maximum.
    pub fn inc_roots(&mut self)
        requires
            old(self).spec_roots() < ROOTS_MAX,
        ensures
            final(self).spec_roots() == old(self).spec_roots() + 1,
            final(self).spec_is_marked() == old(self).spec_is_marked(),
            final(self).word == old(self).word + 1,
    {
        let w = self.word;
        assert((w & 0x7fff_ffff_ffff_ffff) < 0x7fff_ffff_ffff_ffff ==> w < 0xffff_ffff_ffff_ffff
            && (((w + 1) as u64) & 0x7fff_ffff_ffff_ffff) == (w & 0x7fff_ffff_ffff_ffff) + 1 && (((w
            + 1) as u64) & 0x8000_0000_0000_0000) == (w & 0x8000_0000_0000_0000)) by (bit_vector);
        self.word = self.word + 1;
    }

    /// Removes one root. The count must not be zero.
    pub fn dec_roots(&mut self)
        requires
            old(self).spec_roots() > 0,
        ensures
            final(self).spec_roots() == old(self).spec_roots() - 1,
            final(self).spec_is_marked() == old(self).spec_is_marked(),
            final(self).word == old(self).word - 1,
    {
        let w = self.word;
        assert((w & 0x7fff_ffff_ffff_ffff) > 0 ==> w > 0 && (((w - 1) as u64)
            & 0x7fff_ffff_ffff_ffff) == (w & 0x7fff_ffff_ffff_ffff) - 1 && (((w - 1) as u64)
            & 0x8000_0000_0000_0000) == (w & 0x8000_0000_0000_0000)) by (bit_vector);
        self.word = self.word - 1;
    }

    /// Whether the mark is set.
    pub fn is_marked(&self) -> (marked: bool)
        ensures
            marked == self.spec_is_marked(),
    {
        self.word & MARK_MASK != 0
    }

    /// Sets the mark and leaves the root count alone.
    pub fn mark(&mut self)
        ensures
            final(self).spec_is_marked(),
            final(self).spec_roots() == old(self).spec_roots(),
            final(self).word == old(self).word | MARK_MASK,
    {
        let w = self.word;
        assert(((w | 0x8000_0000_0000_0000) & 0x8000_0000_0000_0000) != 0 && ((w
            | 0x8000_0000_0000_0000) & 0x7fff_ffff_ffff_ffff) == (w & 0x7fff_ffff_ffff_ffff))
            by (bit_vector);
        self.word = self.word | MARK_MASK;
    }

    /// Clears the mark and leaves the root count alone.
    pub fn unmark(&mut self)
        ensures
            !final(self).spec_is_marked(),
            final(self).spec_roots() == old(self).spec_roots(),
            final(self).word == old(self).word & ROOTS_MASK,
    {
        let w = self.word;
        assert(((w & 0x7fff_ffff_ffff_ffff) & 0x8000_0000_0000_0000) == 0 && ((w
            & 0x7fff_ffff_ffff_ffff) & 0x7fff_ffff_ffff_ffff) == (w & 0x7fff_ffff_ffff_ffff))
            by (bit_vector);
        self.word = self.word & ROOTS_MASK;
    }
}


/// A box of the heap: a header, the bytes charged for it, and the payload.
#[derive(Debug)]
pub struct GcBox<T> {
    pub header: GcBoxHeader,
    pub size: usize,
    pub data: T,
}

impl<T> GcBox<T> {
    /// The payload of the box.
    pub fn value(&self) -> (payload: &T)
        ensures
            *payload == self.data,
    {
        &self.data
    }
}

/// What went wrong in a heap operation.
#[derive(Clone, Copy, PartialEq, Eq, Debug, Structural)]
pub enum GcError {
    /// The handle addresses no live box.
    Dangling,
    /// The root count of the box is at its maximum.
    RootOverflow,
    /// The box has no root to give up.
    NotRooted,
    /// The byte counter cannot hold the new allocation.
    OutOfMemory,
}

/// A node of the object graph: whether the box is pinned by its own root count,
/// and the handles its payload holds.
pub struct Node {
    pub pinned: bool,
    pub edges: Seq<Gc>,
}

/// Node `i` exists in the graph.
pub open spec fn graph_live(g: Seq<Option<Node>>, i: usize) -> bool {
    i < g.len() && g[i as int] is Some
}

/// Live node `a` holds a handle to live node `b`.
pub open spec fn graph_edge(g: Seq<Option<Node>>, a: usize, b: usize) -> bool {
    graph_live(g, a) && graph_live(g, b) && g[a as int].unwrap().edges.contains(Gc { index: b })
}

/// Live node `i` is pinned, or one of the handles in `extra` addresses it.
pub open spec fn graph_root(g: Seq<Option<Node>>, extra: Set<Gc>, i: usize) -> bool {
    graph_live(g, i) && (g[i as int].unwrap().pinned || extra.contains(Gc { index: i }))
}

/// `path` starts at a root and follows an edge at every step.
pub open spec fn graph_path(g: Seq<Option<Node>>, extra: Set<Gc>, path: Seq<usize>) -> bool {
    &&& path.len() > 0
    &&& graph_root(g, extra, path[0])
    &&& forall|k: int| 0 <= k < path.len() - 1 ==> graph_edge(g, #[trigger] path[k], path[k + 1])
}

/// Node `i` can be reached from a root along edges of the graph.
pub open spec fn reachable(g: Seq<Option<Node>>, extra: Set<Gc>, i: usize) -> bool {
    exists|path: Seq<usize>| #[trigger] graph_path(g, extra, path) && path.last() == i
}

/// Every root is reachable.
pub proof fn lemma_root_reachable(g: Seq<Option<Node>>, extra: Set<Gc>, i: usize)
    requires
        graph_root(g, extra, i),
    ensures
        reachable(g, extra, i),
{
    let path = seq![i];
    assert(graph_path(g, extra, path));
    assert(path.last() == i);
}

/// Whatever a reachable node points to is reachable.
pub proof fn lemma_edge_reachable(g: Seq<Option<Node>>, extra: Set<Gc>, a: usize, b: usize)
    requires
        reachable(g, extra, a),
        graph_edge(g, a, b),
    ensures
        reachable(g, extra, b),
{
    let p = choose|path: Seq<usize>| #[trigger] graph_path(g, extra, path) && path.last() == a;
    let q = p.push(b);
    assert forall|k: int| 0 <= k < q.len() - 1 implies graph_edge(g, #[trigger] q[k], q[k + 1]) by {
        if k < p.len() - 1 {
            assert(graph_edge(g, p[k], p[k + 1]));
        }
    }
    assert(graph_path(g, extra, q));
    assert(q.last() == b);
}

/// Every reachable node is live.
pub proof fn lemma_reachable_live(g: Seq<Option<Node>>, extra: Set<Gc>, i: usize)
    requires
        reachable(g, extra, i),
    ensures
        graph_live(g, i),
{
    let p = choose|path: Seq<usize>| #[trigger] graph_path(g, extra, path) && path.last() == i;
    if p.len() > 1 {
        assert(graph_edge(g, p[p.len() - 2], p[p.len() - 2 + 1]));
    }
}

/// Every node of a path lies in a set that holds the roots and is closed under
/// the edges of the graph.
proof fn lemma_path_inside(
    g: Seq<Option<Node>>,
    extra: Set<Gc>,
    marks: Seq<bool>,
    path: Seq<usize>,
    k: int,
)
    requires
        marks.len() == g.len(),
        graph_path(g, extra, path),
        0 <= k < path.len(),
        forall|r: usize| graph_root(g, extra, r) ==> marks[r as int],
        forall|a: usize, b: usize| a < g.len() && marks[a as int] && #[trigger] graph_edge(g, a, b)
            ==> marks[b as int],
    ensures
        path[k] < g.len(),
        marks[path[k] as int],
    decreases k,
{
    if k > 0 {
        lemma_path_inside(g, extra, marks, path, k - 1);
        assert(graph_edge(g, path[k - 1], path[k - 1 + 1]));
    }
}

/// The bytes charged for a slot.
pub open spec fn slot_bytes<T>(slot: Option<GcBox<T>>) -> nat {
    match slot {
        Some(b) => b.size as nat,
        None => 0,
    }
}

/// The bytes charged for all the slots together.
pub open spec fn total_bytes<T>(slots: Seq<Option<GcBox<T>>>) -> nat
    decreases slots.len(),
{
    if slots.len() == 0 {
        0
    } else {
        total_bytes(slots.drop_last()) + slot_bytes(slots.last())
    }
}

proof fn lemma_total_update<T>(slots: Seq<Option<GcBox<T>>>, i: int, slot: Option<GcBox<T>>)
    requires
        0 <= i < slots.len(),
    ensures
        total_bytes(slots.update(i, slot)) + slot_bytes(slots[i]) == total_bytes(slots)
            + slot_bytes(slot),
    decreases slots.len(),
{
    let after = slots.update(i, slot);
    if i == slots.len() - 1 {
        assert(after.drop_last() =~= slots.drop_last());
    } else {
        assert(after.drop_last() =~= slots.drop_last().update(i, slot));
        lemma_total_update(slots.drop_last(), i, slot);
    }
}

proof fn lemma_total_push<T>(slots: Seq<Option<GcBox<T>>>, slot: Option<GcBox<T>>)
    ensures
        total_bytes(slots.push(slot)) == total_bytes(slots) + slot_bytes(slot),
{
    assert(slots.push(slot).drop_last() =~= slots);
}

/// The number of live slots whose mark is clear.
spec fn unmarked_count<T>(slots: Seq<Option<GcBox<T>>>) -> nat
    decreases slots.len(),
{
    if slots.len() == 0 {
        0
    } else {
        unmarked_count(slots.drop_last()) + if slots.last() is Some
            && !slots.last().unwrap().header.spec_is_marked() {
            1nat
        } else {
            0nat
        }
    }
}

proof fn lemma_unmarked_update<T>(slots: Seq<Option<GcBox<T>>>, i: int, slot: Option<GcBox<T>>)
    requires
        0 <= i < slots.len(),
        slots[i] is Some,
        !slots[i].unwrap().header.spec_is_marked(),
        slot is Some,
        slot.unwrap().header.spec_is_marked(),
    ensures
        unmarked_count(slots.update(i, slot)) + 1 == unmarked_count(slots),
    decreases slots.len(),
{
    let after = slots.update(i, slot);
    if i == slots.len() - 1 {
        assert(after.drop_last() =~= slots.drop_last());
    } else {
        assert(after.drop_last() =~= slots.drop_last().update(i, slot));
        lemma_unmarked_update(slots.drop_last(), i, slot);
    }
}

/// The slot with its mark set.
pub open spec fn with_mark<T>(slot: Option<GcBox<T>>) -> Option<GcBox<T>> {
    match slot {
        Some(b) => Some(
            GcBox { header: GcBoxHeader { word: b.header.word | MARK_MASK }, size: b.size, data: b.data },
        ),
        None => None,
    }
}

/// The slots with the mark set where `marks` says so.
spec fn marked_slots<T>(slots: Seq<Option<GcBox<T>>>, marks: Seq<bool>) -> Seq<Option<GcBox<T>>> {
    Seq::new(slots.len(), |j: int| if marks[j] { with_mark(slots[j]) } else { slots[j] })
}

/// The arena: slots that hold a box or are free, the free slots that can be
/// handed out again, the counters and the policy.
#[derive(Debug)]
pub struct Heap<T> {
    pub boxes: Vec<Option<GcBox<T>>>,
    pub free: Vec<usize>,
    pub stats: GcStats,
    pub config: GcConfig,
    pub dropping: bool,
}

/// The threshold after a collection that left `bytes` in use: raised to
/// `bytes * 100 / percent` when more than `percent` per cent of it is in use.
pub open spec fn raised_threshold(bytes: usize, threshold: usize, percent: usize) -> usize {
    if percent > 0 && bytes * 100 > threshold * percent {
        if bytes * 100 / (percent as int) > usize::MAX {
            usize::MAX
        } else {
            (bytes * 100 / (percent as int)) as usize
        }
    } else {
        threshold
    }
}

/// The heap as contracts see it: each payload by its view.
pub struct HeapModel<T: Trace> {
    pub boxes: Seq<Option<GcBox<T::V>>>,
    pub free: Seq<usize>,
    pub stats: GcStats,
    pub config: GcConfig,
}

/// The slot that the next allocation fills: the last entry of the free list
/// when that slot exists and is free, else a new slot at the end.
pub open spec fn pick_slot<T>(boxes: Seq<Option<GcBox<T>>>, free: Seq<usize>) -> usize {
    if free.len() > 0 && free.last() < boxes.len() && boxes[free.last() as int] is None {
        free.last()
    } else {
        boxes.len() as usize
    }
}

/// The slots after `slot` was put into the slot picked for it.
pub open spec fn place_slot<T>(
    boxes: Seq<Option<GcBox<T>>>,
    free: Seq<usize>,
    slot: Option<GcBox<T>>,
) -> Seq<Option<GcBox<T>>> {
    if pick_slot(boxes, free) < boxes.len() {
        boxes.update(pick_slot(boxes, free) as int, slot)
    } else {
        boxes.push(slot)
    }
}

/// The free list after an allocation took its last entry.
pub open spec fn rest_free(free: Seq<usize>) -> Seq<usize> {
    if free.len() > 0 {
        free.drop_last()
    } else {
        free
    }
}

impl<T: Trace> HeapModel<T> {
    /// The heap without any box, with the default policy: a threshold of 100
    /// bytes, of which at most 80 per cent should be in use after a
    /// collection.
    pub open spec fn empty() -> Self {
        HeapModel {
            boxes: Seq::empty(),
            free: Seq::empty(),
            stats: GcStats { bytes_allocated: 0, collections_perfomed: 0 },
            config: GcConfig { threshold: 100, used_space_percent: 80, leak_on_drop: false },
        }
    }

    /// The object graph of the heap.
    pub open spec fn graph(self) -> Seq<Option<Node>> {
        Seq::new(
            self.boxes.len(),
            |i: int|
                match self.boxes[i] {
                    Some(b) => Some(Node { pinned: b.header.spec_roots() > 0, edges: T::edges(b.data) }),
                    None => None,
                },
        )
    }

    /// The handle addresses a box.
    pub open spec fn live(self, h: Gc) -> bool {
        h.index < self.boxes.len() && self.boxes[h.index as int] is Some
    }

    /// The payload behind a live handle.
    pub open spec fn payload(self, h: Gc) -> T::V
        recommends
            self.live(h),
    {
        self.boxes[h.index as int].unwrap().data
    }

    /// The header of the box behind a live handle.
    pub open spec fn header(self, h: Gc) -> GcBoxHeader
        recommends
            self.live(h),
    {
        self.boxes[h.index as int].unwrap().header
    }

    /// Slot `i` survives a collection with the extra roots `extra`: it can be
    /// reached from a pinned box or from one of the extra roots.
    pub open spec fn survives(self, extra: Set<Gc>, i: int) -> bool {
        0 <= i < self.boxes.len() && reachable(self.graph(), extra, i as usize)
    }

    /// The slots after a collection: what survives stays as it is, and every
    /// other slot is free.
    pub open spec fn swept_boxes(self, extra: Set<Gc>) -> Seq<Option<GcBox<T::V>>> {
        Seq::new(self.boxes.len(), |i: int| if self.survives(extra, i) { self.boxes[i] } else { None })
    }

    /// The free list after the first `upto` slots were swept: each reclaimed
    /// slot is appended, in index order.
    pub open spec fn swept_free(self, extra: Set<Gc>, upto: int) -> Seq<usize>
        decreases upto,
    {
        if upto <= 0 {
            self.free
        } else {
            let before = self.swept_free(extra, upto - 1);
            if upto <= self.boxes.len() && self.boxes[upto - 1] is Some && !self.survives(
                extra,
                upto - 1,
            ) {
                before.push((upto - 1) as usize)
            } else {
                before
            }
        }
    }

    /// The collection counter after one more collection.
    pub open spec fn next_collections(self) -> usize {
        if self.stats.collections_perfomed < usize::MAX {
            (self.stats.collections_perfomed + 1) as usize
        } else {
            usize::MAX
        }
    }

    /// The heap after a collection with the extra roots `extra`.
    pub open spec fn collected(self, extra: Set<Gc>) -> Self {
        HeapModel {
            boxes: self.swept_boxes(extra),
            free: self.swept_free(extra, self.boxes.len() as int),
            stats: GcStats {
                bytes_allocated: total_bytes(self.swept_boxes(extra)) as usize,
                collections_perfomed: self.next_collections(),
            },
            config: self.config,
        }
    }

    /// An allocation collects first when more bytes are charged than the
    /// threshold allows.
    pub open spec fn must_collect(self) -> bool {
        self.stats.bytes_allocated > self.config.threshold
    }

    /// The heap that an allocation with the extra roots `extra` starts from:
    /// when it must collect, the heap after the collection, with the threshold
    /// adjusted to what is left in use.
    pub open spec fn ready(self, extra: Set<Gc>) -> Self {
        if self.must_collect() {
            HeapModel {
                config: GcConfig {
                    threshold: raised_threshold(
                        self.collected(extra).stats.bytes_allocated,
                        self.config.threshold,
                        self.config.used_space_percent,
                    ),
                    used_space_percent: self.config.used_space_percent,
                    leak_on_drop: self.config.leak_on_drop,
                },
                ..self.collected(extra)
            }
        } else {
            self
        }
    }

    /// The byte counter can take the bytes of a payload with view `v`.
    pub open spec fn fits(self, v: T::V) -> bool {
        self.stats.bytes_allocated + T::bytes(v) <= usize::MAX
    }

    /// The heap with a new box for a payload with view `v`, in the slot picked
    /// for it. The box has one root.
    pub open spec fn with_box(self, v: T::V) -> Self {
        HeapModel {
            boxes: place_slot(
                self.boxes,
                self.free,
                Some(GcBox { header: GcBoxHeader { word: 1 }, size: T::bytes(v), data: v }),
            ),
            free: rest_free(self.free),
            stats: GcStats {
                bytes_allocated: (self.stats.bytes_allocated + T::bytes(v)) as usize,
                collections_perfomed: self.stats.collections_perfomed,
            },
            config: self.config,
        }
    }

    /// The heap after the allocation of a payload with view `v`.
    pub open spec fn allocated(self, v: T::V, extra: Set<Gc>) -> Self {
        if self.ready(extra).fits(v) {
            self.ready(extra).with_box(v)
        } else {
            self.ready(extra)
        }
    }

    /// The handle that the allocation of a payload with view `v` returns, if
    /// it succeeds.
    pub open spec fn allocated_handle(self, v: T::V, extra: Set<Gc>) -> Option<Gc> {
        if self.ready(extra).fits(v) {
            Some(Gc { index: pick_slot(self.ready(extra).boxes, self.ready(extra).free) })
        } else {
            None
        }
    }

    /// The heap with the box behind `h` changed to `slot`.
    pub open spec fn with_slot(self, h: Gc, slot: GcBox<T::V>) -> Self {
        HeapModel { boxes: self.boxes.update(h.index as int, Some(slot)), ..self }
    }

    /// The heap with the payload behind `h` replaced; a dangling handle
    /// changes nothing.
    pub open spec fn replaced(self, h: Gc, v: T::V) -> Self {
        if self.live(h) {
            self.with_slot(h, GcBox { data: v, ..self.boxes[h.index as int].unwrap() })
        } else {
            self
        }
    }

    /// The heap with the header word of the box behind `h` changed by `by`.
    pub open spec fn with_word(self, h: Gc, by: int) -> Self {
        self.with_slot(
            h,
            GcBox {
                header: GcBoxHeader { word: (self.header(h).word + by) as u64 },
                ..self.boxes[h.index as int].unwrap()
            },
        )
    }
}

impl<T: Trace> View for Heap<T> {
    type V = HeapModel<T>;

    open spec fn view(&self) -> HeapModel<T> {
        HeapModel {
            boxes: Seq::new(
                self.boxes@.len(),
                |i: int|
                    match self.boxes@[i] {
                        Some(b) => Some(GcBox { header: b.header, size: b.size, data: b.data@ }),
                        None => None,
                    },
            ),
            free: self.free@,
            stats: self.stats,
            config: self.config,
        }
    }
}

/// The slot with its payload replaced by the payload's view.
pub open spec fn slot_view<T: Trace>(slot: Option<GcBox<T>>) -> Option<GcBox<T::V>> {
    match slot {
        Some(b) => Some(GcBox { header: b.header, size: b.size, data: b.data@ }),
        None => None,
    }
}

proof fn lemma_view_total<T: Trace>(boxes: Seq<Option<GcBox<T>>>, views: Seq<Option<GcBox<T::V>>>)
    requires
        views.len() == boxes.len(),
        forall|i: int| 0 <= i < boxes.len() ==> #[trigger] views[i] == slot_view(boxes[i]),
    ensures
        total_bytes(views) == total_bytes(boxes),
    decreases boxes.len(),
{
    if boxes.len() > 0 {
        lemma_view_total(boxes.drop_last(), views.drop_last());
    }
}

impl<T: Trace> Heap<T> {
    /// The object graph of the heap.
    pub open spec fn graph(&self) -> Seq<Option<Node>> {
        self@.graph()
    }

    /// The handle addresses a box.
    pub open spec fn live(&self, h: Gc) -> bool {
        h.index < self.boxes@.len() && self.boxes@[h.index as int] is Some
    }

    /// The payload behind a live handle.
    pub open spec fn payload(&self, h: Gc) -> T
        recommends
            self.live(h),
    {
        self.boxes@[h.index as int].unwrap().data
    }

    /// The byte counter agrees with the boxes, no mark is left set, and no
    /// collection is under way.
    pub open spec fn wf(&self) -> bool {
        &&& self.stats.bytes_allocated == total_bytes(self.boxes@)
        &&& !self.dropping
        &&& forall|i: int|
            0 <= i < self.boxes@.len() && (#[trigger] self.boxes@[i]) is Some
                ==> !self.boxes@[i].unwrap().header.spec_is_marked()
    }

    /// Slot `i` survives a collection with the extra roots `extra`.
    pub open spec fn survives(&self, extra: Set<Gc>, i: int) -> bool {
        self@.survives(extra, i)
    }

    /// The slots after a collection, with the payloads themselves.
    spec fn swept_slots(&self, extra: Set<Gc>) -> Seq<Option<GcBox<T>>> {
        Seq::new(
            self.boxes@.len(),
            |i: int| if self.survives(extra, i) { self.boxes@[i] } else { None },
        )
    }

    /// The free list after the first `upto` slots were swept.
    pub open spec fn swept_free(&self, extra: Set<Gc>, upto: int) -> Seq<usize> {
        self@.swept_free(extra, upto)
    }

    /// One more step of the sweep over the free list.
    proof fn lemma_swept_free_step(&self, extra: Set<Gc>, upto: int)
        requires
            0 < upto <= self.boxes@.len(),
        ensures
            self.swept_free(extra, upto) == if self.boxes@[upto - 1] is Some && !self.survives(
                extra,
                upto - 1,
            ) {
                self.swept_free(extra, upto - 1).push((upto - 1) as usize)
            } else {
                self.swept_free(extra, upto - 1)
            },
    {
    }

    /// An empty heap with the default policy.
    pub fn new() -> (heap: Self)
        ensures
            heap.wf(),
            heap@ == HeapModel::<T>::empty(),
    {
        let heap = Heap {
            boxes: Vec::new(),
            free: Vec::new(),
            stats: GcStats::default(),
            config: GcConfig::default(),
            dropping: false,
        };
        proof {
            assert(heap@.boxes =~= Seq::empty());
        }
        heap
    }

    /// An empty heap with the given policy.
    pub fn with_config(config: GcConfig) -> (heap: Self)
        ensures
            heap.wf(),
            heap@ == (HeapModel::<T> { config, ..HeapModel::<T>::empty() }),
    {
        let heap = Heap {
            boxes: Vec::new(),
            free: Vec::new(),
            stats: GcStats::default(),
            config,
            dropping: false,
        };
        proof {
            assert(heap@.boxes =~= Seq::empty());
        }
        heap
    }

    /// Whether payloads may be looked at: false only while a collection is
    /// reclaiming boxes.
    pub fn finalizer_safe(&self) -> (safe: bool)
        ensures
            safe == !self.dropping,
    {
        !self.dropping
    }

    /// The payload behind the handle, or nothing when the handle is dangling.
    pub fn get(&self, h: Gc) -> (found: Option<&T>)
        ensures
            match found {
                Some(payload) => !self.dropping && self.live(h) && *payload == self.payload(h)
                    && self@.live(h) && payload@ == self@.payload(h),
                None => self.dropping || !self@.live(h),
            },
    {
        if self.dropping || h.index >= self.boxes.len() {
            return None;
        }
        match &self.boxes[h.index] {
            Some(b) => Some(b.value()),
            None => None,
        }
    }

    /// Whether the handle addresses a box.
    pub fn contains(&self, h: Gc) -> (found: bool)
        ensures
            found == self@.live(h),
            found == self.live(h),
    {
        h.index < self.boxes.len() && self.boxes[h.index].is_some()
    }

    /// The root count of the box behind the handle, or nothing when the handle
    /// is dangling.
    pub fn root_count(&self, h: Gc) -> (count: Option<u64>)
        ensures
            match count {
                Some(n) => self@.live(h) && n == self@.header(h).spec_roots() && n <= ROOTS_MAX,
                None => !self@.live(h),
            },
    {
        if h.index >= self.boxes.len() {
            return None;
        }
        match &self.boxes[h.index] {
            Some(b) => Some(b.header.roots()),
            None => None,
        }
    }

    /// Puts `data` in place of the payload behind the handle and returns the
    /// old payload. A dangling handle changes nothing and gives `data` back as
    /// the error.
    pub fn replace(&mut self, h: Gc, data: T) -> (swapped: Result<T, T>)
        requires
            old(self).wf(),
        ensures
            final(self).wf(),
            final(self)@ == old(self)@.replaced(h, data@),
            match swapped {
                Ok(previous) => old(self)@.live(h) && previous@ == old(self)@.payload(h),
                Err(given) => !old(self)@.live(h) && given == data,
            },
    {
        if !self.contains(h) {
            return Err(data);
        }
        let mut held = data;
        match &mut self.boxes[h.index] {
            Some(b) => {
                core::mem::swap(&mut b.data, &mut held);
            },
            None => {},
        }
        proof {
            lemma_total_update(
                old(self).boxes@,
                h.index as int,
                self.boxes@[h.index as int],
            );
            assert(self.boxes@ =~= old(self).boxes@.update(
                h.index as int,
                self.boxes@[h.index as int],
            ));
            assert(self@.boxes =~= old(self)@.replaced(h, data@).boxes);
        }
        Ok(held)
    }

    /// Adds a root to the box behind the handle, which pins it.
    pub fn root(&mut self, h: Gc) -> (done: Result<(), GcError>)
        requires
            old(self).wf(),
        ensures
            final(self).wf(),
            match done {
                Ok(_) => old(self)@.live(h) && old(self)@.header(h).spec_roots() < ROOTS_MAX
                    && final(self)@ == old(self)@.with_word(h, 1),
                Err(e) => final(self)@ == old(self)@ && if old(self)@.live(h) {
                    e == GcError::RootOverflow && old(self)@.header(h).spec_roots() == ROOTS_MAX
                } else {
                    e == GcError::Dangling
                },
            },
    {
        match self.root_count(h) {
            None => {
                return Err(GcError::Dangling);
            },
            Some(count) => {
                if count >= ROOTS_MAX {
                    return Err(GcError::RootOverflow);
                }
            },
        }
        match &mut self.boxes[h.index] {
            Some(b) => {
                b.header.inc_roots();
            },
            None => {},
        }
        proof {
            lemma_total_update(
                old(self).boxes@,
                h.index as int,
                self.boxes@[h.index as int],
            );
            assert(self.boxes@ =~= old(self).boxes@.update(
                h.index as int,
                self.boxes@[h.index as int],
            ));
            assert(self@.boxes =~= old(self)@.with_word(h, 1).boxes);
        }
        Ok(())
    }

    /// Takes a root from the box behind the handle.
    pub fn unroot(&mut self, h: Gc) -> (done: Result<(), GcError>)
        requires
            old(self).wf(),
        ensures
            final(self).wf(),
            match done {
                Ok(_) => old(self)@.live(h) && old(self)@.header(h).spec_roots() > 0
                    && final(self)@ == old(self)@.with_word(h, -1),
                Err(e) => final(self)@ == old(self)@ && if old(self)@.live(h) {
                    e == GcError::NotRooted && old(self)@.header(h).spec_roots() == 0
                } else {
                    e == GcError::Dangling
                },
            },
    {
        match self.root_count(h) {
            None => {
                return Err(GcError::Dangling);
            },
            Some(count) => {
                if count == 0 {
                    return Err(GcError::NotRooted);
                }
            },
        }
        match &mut self.boxes[h.index] {
            Some(b) => {
                b.header.dec_roots();
            },
            None => {},
        }
        proof {
            lemma_total_update(
                old(self).boxes@,
                h.index as int,
                self.boxes@[h.index as int],
            );
            assert(self.boxes@ =~= old(self).boxes@.update(
                h.index as int,
                self.boxes@[h.index as int],
            ));
            assert(self@.boxes =~= old(self)@.with_word(h, -1).boxes);
        }
        Ok(())
    }

    /// Sets the mark of box `i` when it is live and its mark is clear, and says
    /// whether it did.
    fn mark_box(&mut self, i: usize) -> (fresh: bool)
        ensures
            final(self).free == old(self).free,
            final(self).stats == old(self).stats,
            final(self).config == old(self).config,
            final(self).dropping == old(self).dropping,
            fresh == (i < old(self).boxes@.len() && old(self).boxes@[i as int] is Some && !old(self).boxes@[i as int].unwrap().header.spec_is_marked()),
            fresh ==> final(self).boxes@ == old(self).boxes@.update(
                i as int,
                with_mark(old(self).boxes@[i as int]),
            ),
            !fresh ==> final(self).boxes@ == old(self).boxes@,
    {
        if i >= self.boxes.len() {
            return false;
        }
        let fresh = match &self.boxes[i] {
            Some(b) => !b.header.is_marked(),
            None => false,
        };
        if fresh {
            match &mut self.boxes[i] {
                Some(b) => {
                    b.header.mark();
                },
                None => {},
            }
            proof {
                assert(self.boxes@ =~= old(self).boxes@.update(
                    i as int,
                    with_mark(old(self).boxes@[i as int]),
                ));
            }
        }
        fresh
    }

    /// Marks every box that can be reached from a pinned box or from `roots`.
    fn mark(&mut self, roots: &Vec<Gc>) -> (marks: Ghost<Seq<bool>>)
        requires
            old(self).wf(),
        ensures
            final(self).free == old(self).free,
            final(self).stats == old(self).stats,
            final(self).config == old(self).config,
            final(self).dropping == old(self).dropping,
            marks@.len() == old(self).boxes@.len(),
            final(self).boxes@ == marked_slots(old(self).boxes@, marks@),
            forall|i: int|
                0 <= i < marks@.len() ==> (#[trigger] marks@[i] <==> old(self).survives(roots@.to_set(), i)),
            total_bytes(final(self).boxes@) == total_bytes(old(self).boxes@),
    {
        let ghost base = self.boxes@;
        let ghost g = self.graph();
        let ghost mut marks: Seq<bool> = Seq::new(base.len(), |i: int| false);
        let mut work: Vec<usize> = Vec::new();
        let n = self.boxes.len();
        proof {
            assert(self.boxes@ =~= marked_slots(base, marks));
        }
        let mut i: usize = 0;
        while i < n
            invariant
                i <= n,
                n == base.len(),
                marks.len() == n,
                g == old(self).graph(),
                base == old(self).boxes@,
                old(self).wf(),
                self.free == old(self).free,
                self.stats == old(self).stats,
                self.config == old(self).config,
                self.dropping == old(self).dropping,
                self.boxes@ == marked_slots(base, marks),
                total_bytes(self.boxes@) == total_bytes(base),
                forall|j: int|
                    0 <= j < n && #[trigger] marks[j] ==> base[j] is Some && reachable(
                        g,
                        roots@.to_set(),
                        j as usize,
                    ),
                forall|k: int| 0 <= k < work@.len() ==> #[trigger] work@[k] < n && marks[work@[k] as int],
                forall|j: int| i <= j < n ==> !#[trigger] marks[j],
                forall|j: int| 0 <= j < n && #[trigger] marks[j] ==> work@.contains(j as usize),
                forall|j: usize|
                    j < i && graph_live(g, j) && (#[trigger] g[j as int]).unwrap().pinned
                        ==> marks[j as int],
            decreases n - i,
        {
            let pinned = match &self.boxes[i] {
                Some(b) => b.header.roots() > 0,
                None => false,
            };
            if pinned {
                let ghost before = self.boxes@;
                let fresh = self.mark_box(i);
                proof {
                    assert(fresh);
                    lemma_total_update(before, i as int, with_mark(before[i as int]));
                    marks = marks.update(i as int, true);
                    assert(self.boxes@ =~= marked_slots(base, marks));
                    assert(graph_root(g, roots@.to_set(), i));
                    lemma_root_reachable(g, roots@.to_set(), i);
                }
                let ghost work_mid = work@;
                work.push(i);
                proof {
                    assert forall|j: int| 0 <= j < n && #[trigger] marks[j] implies work@.contains(
                        j as usize,
                    ) by {
                        if j == i {
                            assert(work@[work_mid.len() as int] == i);
                        } else {
                            let x = choose|x: int| 0 <= x < work_mid.len() && work_mid[x] == j as usize;
                            assert(work@[x] == j as usize);
                        }
                    }
                }
            }
            i += 1;
        }
        let mut k: usize = 0;
        while k < roots.len()
            invariant
                k <= roots.len(),
                n == base.len(),
                marks.len() == n,
                g == old(self).graph(),
                base == old(self).boxes@,
                old(self).wf(),
                self.free == old(self).free,
                self.stats == old(self).stats,
                self.config == old(self).config,
                self.dropping == old(self).dropping,
                self.boxes@ == marked_slots(base, marks),
                total_bytes(self.boxes@) == total_bytes(base),
                forall|j: int|
                    0 <= j < n && #[trigger] marks[j] ==> base[j] is Some && reachable(
                        g,
                        roots@.to_set(),
                        j as usize,
                    ),
                forall|k: int| 0 <= k < work@.len() ==> #[trigger] work@[k] < n && marks[work@[k] as int],
                forall|j: usize|
                    graph_live(g, j) && (#[trigger] g[j as int]).unwrap().pinned ==> marks[j as int],
                forall|j: int|
                    0 <= j < k && graph_live(g, (#[trigger] roots@[j]).index)
                        ==> marks[roots@[j].index as int],
                forall|j: int| 0 <= j < n && #[trigger] marks[j] ==> work@.contains(j as usize),
            decreases roots.len() - k,
        {
            let r = roots[k].index;
            let ghost before = self.boxes@;
            let fresh = self.mark_box(r);
            if fresh {
                proof {
                    lemma_with_mark(base[r as int]);
                    assert(!marks[r as int]);
                    lemma_total_update(before, r as int, with_mark(before[r as int]));
                    marks = marks.update(r as int, true);
                    assert(self.boxes@ =~= marked_slots(base, marks));
                    assert(roots@[k as int] == Gc { index: r });
                    assert(graph_root(g, roots@.to_set(), r));
                    lemma_root_reachable(g, roots@.to_set(), r);
                }
                let ghost work_mid = work@;
                work.push(r);
                proof {
                    assert forall|j: int| 0 <= j < n && #[trigger] marks[j] implies work@.contains(
                        j as usize,
                    ) by {
                        if j == r {
                            assert(work@[work_mid.len() as int] == r);
                        } else {
                            let x = choose|x: int| 0 <= x < work_mid.len() && work_mid[x] == j as usize;
                            assert(work@[x] == j as usize);
                        }
                    }
                }
            } else {
                proof {
                    if graph_live(g, r) {
                        lemma_with_mark(base[r as int]);
                        assert(marks[r as int]);
                    }
                }
            }
            k += 1;
        }
        proof {
            assert forall|r: usize| graph_root(g, roots@.to_set(), r) implies marks[r as int] by {
                if !g[r as int].unwrap().pinned {
                    let j = choose|j: int| 0 <= j < roots@.len() && roots@[j] == Gc { index: r };
                    assert(graph_live(g, roots@[j].index));
                }
            }
        }
        while work.len() > 0
            invariant
                n == base.len(),
                marks.len() == n,
                g == old(self).graph(),
                base == old(self).boxes@,
                old(self).wf(),
                self.free == old(self).free,
                self.stats == old(self).stats,
                self.config == old(self).config,
                self.dropping == old(self).dropping,
                self.boxes@ == marked_slots(base, marks),
                total_bytes(self.boxes@) == total_bytes(base),
                forall|j: int|
                    0 <= j < n && #[trigger] marks[j] ==> base[j] is Some && reachable(
                        g,
                        roots@.to_set(),
                        j as usize,
                    ),
                forall|k: int| 0 <= k < work@.len() ==> #[trigger] work@[k] < n && marks[work@[k] as int],
                forall|r: usize| graph_root(g, roots@.to_set(), r) ==> marks[r as int],
                forall|a: usize, b: usize|
                    a < n && marks[a as int] && !work@.contains(a) && #[trigger] graph_edge(g, a, b)
                        ==> marks[b as int],
            decreases unmarked_count(self.boxes@), work@.len(),
        {
            let ghost work_before = work@;
            let ghost count_before = unmarked_count(self.boxes@);
            let cur = work.pop().unwrap();
            let children = match &self.boxes[cur] {
                Some(b) => b.data.trace(),
                None => Vec::new(),
            };
            proof {
                assert(work_before =~= work@.push(cur));
                assert forall|a: usize, b: usize|
                    a < n && marks[a as int] && !work@.contains(a) && a != cur
                        && #[trigger] graph_edge(g, a, b) implies marks[b as int] by {
                    if work_before.contains(a) {
                        let x = choose|x: int| 0 <= x < work_before.len() && work_before[x] == a;
                        assert(work@[x] == a);
                    }
                }
                assert(children@ == g[cur as int].unwrap().edges);
            }
            let mut c: usize = 0;
            while c < children.len()
                invariant
                    c <= children.len(),
                    cur < n,
                    marks[cur as int],
                    children@ == g[cur as int].unwrap().edges,
                    n == base.len(),
                    marks.len() == n,
                    g == old(self).graph(),
                    base == old(self).boxes@,
                    old(self).wf(),
                    self.free == old(self).free,
                    self.stats == old(self).stats,
                    self.config == old(self).config,
                    self.dropping == old(self).dropping,
                    self.boxes@ == marked_slots(base, marks),
                    total_bytes(self.boxes@) == total_bytes(base),
                    forall|j: int|
                        0 <= j < n && #[trigger] marks[j] ==> base[j] is Some && reachable(
                            g,
                            roots@.to_set(),
                            j as usize,
                        ),
                    forall|k: int|
                        0 <= k < work@.len() ==> #[trigger] work@[k] < n && marks[work@[k] as int],
                    forall|r: usize| graph_root(g, roots@.to_set(), r) ==> marks[r as int],
                    forall|a: usize, b: usize|
                        a < n && marks[a as int] && !work@.contains(a) && a != cur
                            && #[trigger] graph_edge(g, a, b) ==> marks[b as int],
                    forall|j: int|
                        0 <= j < c && graph_live(g, (#[trigger] children@[j]).index)
                            ==> marks[children@[j].index as int],
                    unmarked_count(self.boxes@) + work@.len() + 1 == count_before
                        + work_before.len(),
                    unmarked_count(self.boxes@) <= count_before,
                decreases children.len() - c,
            {
                let t = children[c].index;
                let ghost before = self.boxes@;
                let ghost work_mid = work@;
                let fresh = self.mark_box(t);
                if fresh {
                    proof {
                        lemma_with_mark(base[t as int]);
                        assert(!marks[t as int]);
                        lemma_total_update(before, t as int, with_mark(before[t as int]));
                        lemma_with_mark(before[t as int]);
                        lemma_unmarked_update(before, t as int, with_mark(before[t as int]));
                        marks = marks.update(t as int, true);
                        assert(self.boxes@ =~= marked_slots(base, marks));
                        assert(children@[c as int] == Gc { index: t });
                        assert(graph_edge(g, cur, t));
                        lemma_edge_reachable(g, roots@.to_set(), cur, t);
                    }
                    work.push(t);
                    proof {
                        assert forall|a: usize, b: usize|
                            a < n && marks[a as int] && !work@.contains(a) && a != cur
                                && #[trigger] graph_edge(g, a, b) implies marks[b as int] by {
                            assert(work@[work_mid.len() as int] == t);
                            assert(a != t);
                            if work_mid.contains(a) {
                                let x = choose|x: int| 0 <= x < work_mid.len() && work_mid[x] == a;
                                assert(work@[x] == a);
                            }
                        }
                    }
                } else {
                    proof {
                        if graph_live(g, t) {
                            lemma_with_mark(base[t as int]);
                            assert(marks[t as int]);
                        }
                    }
                }
                c += 1;
            }
            proof {
                assert forall|a: usize, b: usize|
                    a < n && marks[a as int] && !work@.contains(a) && #[trigger] graph_edge(
                        g,
                        a,
                        b,
                    ) implies marks[b as int] by {
                    if a == cur {
                        let j = choose|j: int|
                            0 <= j < children@.len() && children@[j] == Gc { index: b };
                        assert(graph_live(g, children@[j].index));
                    }
                }
            }
        }
        proof {
            assert forall|i: int| 0 <= i < marks.len() implies (#[trigger] marks[i] <==> old(self).survives(roots@.to_set(), i)) by {
                if old(self).survives(roots@.to_set(), i) {
                    let path = choose|path: Seq<usize>| #[trigger]
                        graph_path(g, roots@.to_set(), path) && path.last() == i as usize;
                    assert forall|a: usize, b: usize|
                        a < g.len() && marks[a as int] && #[trigger] graph_edge(
                            g,
                            a,
                            b,
                        ) implies marks[b as int] by {
                        assert(!work@.contains(a));
                    }
                    lemma_path_inside(g, roots@.to_set(), marks, path, path.len() - 1);
                }
            }
        }
        Ghost(marks)
    }

    /// Reclaims every box whose mark is clear and clears the marks that are set.
    fn sweep(&mut self, Ghost(start): Ghost<Self>, Ghost(extra): Ghost<Set<Gc>>, Ghost(marks): Ghost<Seq<bool>>)
        requires
            start.wf(),
            old(self).free == start.free,
            old(self).stats.bytes_allocated == start.stats.bytes_allocated,
            !old(self).dropping,
            marks.len() == start.boxes@.len(),
            old(self).boxes@ == marked_slots(start.boxes@, marks),
            forall|i: int| 0 <= i < marks.len() ==> (#[trigger] marks[i] <==> start.survives(extra, i)),
            total_bytes(old(self).boxes@) == total_bytes(start.boxes@),
        ensures
            final(self).boxes@ == start.swept_slots(extra),
            final(self).free@ == start.swept_free(extra, start.boxes@.len() as int),
            final(self).stats.bytes_allocated == total_bytes(final(self).boxes@),
            final(self).stats.collections_perfomed == old(self).stats.collections_perfomed,
            final(self).config == old(self).config,
            !final(self).dropping,
    {
        let n = self.boxes.len();
        self.dropping = true;
        let mut i: usize = 0;
        while i < n
            invariant
                i <= n,
                n == start.boxes@.len(),
                self.boxes@.len() == n,
                marks.len() == n,
                start.wf(),
                forall|j: int| 0 <= j < marks.len() ==> (#[trigger] marks[j] <==> start.survives(extra, j)),
                forall|j: int| 0 <= j < i ==> #[trigger] self.boxes@[j] == start.swept_slots(extra)[j],
                forall|j: int|
                    i <= j < n ==> #[trigger] self.boxes@[j] == marked_slots(start.boxes@, marks)[j],
                self.free@ == start.swept_free(extra, i as int),
                self.stats.bytes_allocated == total_bytes(self.boxes@),
                self.stats.collections_perfomed == old(self).stats.collections_perfomed,
                self.config == old(self).config,
            decreases n - i,
        {
            let ghost before = self.boxes@;
            proof {
                start.lemma_swept_free_step(extra, i + 1);
            }
            let marked: Option<bool> = match &self.boxes[i] {
                Some(b) => Some(b.header.is_marked()),
                None => None,
            };
            proof {
                lemma_with_mark(start.boxes@[i as int]);
            }
            match marked {
                Some(true) => {
                    match &mut self.boxes[i] {
                        Some(b) => {
                            b.header.unmark();
                        },
                        None => {},
                    }
                    proof {
                        lemma_unmark_restores(start.boxes@[i as int].unwrap().header.word);
                        assert(self.boxes@[i as int] == start.boxes@[i as int]);
                        lemma_total_update(before, i as int, self.boxes@[i as int]);
                        assert(self.boxes@ =~= before.update(i as int, self.boxes@[i as int]));
                    }
                },
                Some(false) => {
                    let mut slot: Option<GcBox<T>> = None;
                    core::mem::swap(&mut self.boxes[i], &mut slot);
                    proof {
                        lemma_total_update(before, i as int, None);
                    }
                    match slot {
                        Some(b) => {
                            b.data.finalize();
                            self.stats.bytes_allocated = self.stats.bytes_allocated - b.size;
                        },
                        None => {},
                    }
                    self.free.push(i);
                },
                None => {},
            }
            i += 1;
        }
        self.dropping = false;
        proof {
            assert(self.boxes@ =~= start.swept_slots(extra));
        }
    }

    /// Collects: every box that cannot be reached from a pinned box or from
    /// one of `roots` is finalized and reclaimed; every other box stays as it
    /// is.
    pub fn collect(&mut self, roots: &Vec<Gc>)
        requires
            old(self).wf(),
        ensures
            final(self).wf(),
            final(self)@ == old(self)@.collected(roots@.to_set()),
    {
        let ghost start = *old(self);
        let marks = self.mark(roots);
        self.sweep(Ghost(start), Ghost(roots@.to_set()), marks);
        if self.stats.collections_perfomed < usize::MAX {
            self.stats.collections_perfomed = self.stats.collections_perfomed + 1;
        }
        proof {
            let extra = roots@.to_set();
            assert(self@.boxes =~= old(self)@.swept_boxes(extra));
            lemma_view_total(self.boxes@, self@.boxes);
        }
    }
}

impl<T: Trace> Heap<T> {
    /// Whether more bytes are charged than the threshold allows.
    pub fn needs_collection(&self) -> (needed: bool)
        ensures
            needed == self@.must_collect(),
    {
        self.stats.bytes_allocated > self.config.threshold
    }

    /// Raises the threshold when the last collection left more than the
    /// configured percentage of it in use.
    fn adjust_threshold(&mut self)
        ensures
            final(self).boxes == old(self).boxes,
            final(self).free == old(self).free,
            final(self).stats == old(self).stats,
            final(self).dropping == old(self).dropping,
            final(self).config.used_space_percent == old(self).config.used_space_percent,
            final(self).config.leak_on_drop == old(self).config.leak_on_drop,
            final(self).config.threshold == raised_threshold(
                old(self).stats.bytes_allocated,
                old(self).config.threshold,
                old(self).config.used_space_percent,
            ),
    {
        let percent = self.config.used_space_percent as u128;
        if percent > 0 {
            let used = self.stats.bytes_allocated as u128 * 100;
            let limit = self.config.threshold as u128;
            assert(limit * percent <= 0xffff_ffff_ffff_ffff * 0xffff_ffff_ffff_ffff)
                by (nonlinear_arith)
                requires
                    limit <= 0xffff_ffff_ffff_ffff,
                    percent <= 0xffff_ffff_ffff_ffff,
            ;
            let allowed = limit * percent;
            if used > allowed {
                let raised = used / percent;
                if raised > usize::MAX as u128 {
                    self.config.threshold = usize::MAX;
                } else {
                    self.config.threshold = raised as usize;
                }
            }
        }
    }

    /// Allocates a box for `data` and returns a handle to it. The box starts
    /// with one root, so it is pinned until `unroot` releases it.
    ///
    /// When more bytes are charged than the threshold allows, the heap collects
    /// first, with `roots` as extra roots, and then adjusts the threshold. The
    /// allocation fails, after that collection, when the byte counter cannot
    /// hold the bytes of `data`.
    pub fn allocate(&mut self, data: T, roots: &Vec<Gc>) -> (made: Result<Gc, GcError>)
        requires
            old(self).wf(),
        ensures
            final(self).wf(),
            final(self)@ == old(self)@.allocated(data@, roots@.to_set()),
            match made {
                Ok(h) => old(self)@.allocated_handle(data@, roots@.to_set()) == Some(h),
                Err(e) => e == GcError::OutOfMemory && old(self)@.allocated_handle(
                    data@,
                    roots@.to_set(),
                ) is None,
            },
    {
        if self.needs_collection() {
            self.collect(roots);
            self.adjust_threshold();
        }
        let ghost ready = self.boxes@;
        let ghost ready_model = self@;
        proof {
            assert(ready_model == old(self)@.ready(roots@.to_set()));
        }
        let size = data.footprint();
        if size > usize::MAX - self.stats.bytes_allocated {
            return Err(GcError::OutOfMemory);
        }
        let ghost view = data@;
        let made = GcBox { header: GcBoxHeader::new(), size, data };
        let reuse: Option<usize> = match self.free.pop() {
            Some(i) => if i < self.boxes.len() && self.boxes[i].is_none() {
                Some(i)
            } else {
                None
            },
            None => None,
        };
        let index = match reuse {
            Some(i) => {
                proof {
                    lemma_total_update(ready, i as int, Some(made));
                }
                self.boxes[i] = Some(made);
                i
            },
            None => {
                proof {
                    lemma_total_push(ready, Some(made));
                }
                let at = self.boxes.len();
                self.boxes.push(Some(made));
                at
            },
        };
        self.stats.bytes_allocated = self.stats.bytes_allocated + size;
        proof {
            assert(self@.free =~= rest_free(ready_model.free));
            assert(index == pick_slot(ready_model.boxes, ready_model.free));
            assert(self@.boxes =~= ready_model.with_box(view).boxes);
        }
        Ok(Gc { index })
    }

    /// The bytes charged to the boxes that are allocated.
    pub fn bytes_allocated(&self) -> (bytes: usize)
        ensures
            bytes == self.stats.bytes_allocated,
    {
        self.stats.bytes_allocated
    }

    /// The number of collections performed so far.
    pub fn collections(&self) -> (count: usize)
        ensures
            count == self.stats.collections_perfomed,
    {
        self.stats.collections_perfomed
    }

    /// The number of slots in the arena, free ones included.
    pub fn slots(&self) -> (count: usize)
        ensures
            count == self.boxes@.len(),
    {
        self.boxes.len()
    }

}

impl<T: Trace> HeapModel<T> {
    /// An allocation keeps every root: a live box that is pinned, or that one
    /// of the extra roots addresses, is afterwards live with the header, the
    /// charge and the payload it had. And it brings nothing back: a handle
    /// that was dangling before is live afterwards only if it addresses the
    /// new box.
    pub proof fn lemma_allocation_keeps_roots(self, v: T::V, extra: Set<Gc>, h: Gc)
        requires
            self.boxes.len() <= usize::MAX,
        ensures
            self.live(h) && (extra.contains(h) || self.header(h).spec_roots() > 0) ==> self.allocated(
                v,
                extra,
            ).live(h) && self.allocated(v, extra).boxes[h.index as int]
                == self.boxes[h.index as int] && self.ready(extra).live(h),
            !self.live(h) && self.allocated(v, extra).live(h) ==> self.allocated_handle(v, extra)
                == Some(h),
            self.allocated_handle(v, extra) == Some(h) ==> !self.ready(extra).live(h)
                && self.allocated(v, extra).live(h) && self.allocated(v, extra).payload(h) == v
                && self.allocated(v, extra).header(h).word == 1,
            self.allocated(v, extra).live(h) && self.allocated_handle(v, extra) != Some(h)
                ==> self.live(h) && self.allocated(v, extra).boxes[h.index as int]
                == self.boxes[h.index as int],
    {
        let ready = self.ready(extra);
        let pick = pick_slot(ready.boxes, ready.free);
        assert(ready.boxes.len() == self.boxes.len());
        if self.live(h) && (extra.contains(h) || self.header(h).spec_roots() > 0) {
            assert(graph_root(self.graph(), extra, h.index));
            lemma_root_reachable(self.graph(), extra, h.index);
            assert(self.survives(extra, h.index as int));
            assert(ready.boxes[h.index as int] == self.boxes[h.index as int]);
            assert(pick != h.index);
        }
        if ready.fits(v) {
            let made = Some(GcBox { header: GcBoxHeader { word: 1 }, size: T::bytes(v), data: v });
            let after = place_slot(ready.boxes, ready.free, made);
            assert(after[pick as int] == made);
            assert forall|i: int| 0 <= i < after.len() && i != pick implies #[trigger] after[i]
                == ready.boxes[i] by {}
        }
    }

    /// A collection keeps exactly what is reachable: afterwards a handle is
    /// live if and only if its box could be reached from a pinned box or from
    /// one of the extra roots; each surviving box has the header, the charge
    /// and the payload it had; and whatever a survivor points to, if it was
    /// live before, is live afterwards.
    pub proof fn lemma_collect_keeps_reachable(self, extra: Set<Gc>, h: Gc)
        ensures
            self.collected(extra).live(h) <==> self.live(h) && reachable(
                self.graph(),
                extra,
                h.index,
            ),
            self.collected(extra).live(h) ==> self.collected(extra).boxes[h.index as int]
                == self.boxes[h.index as int],
            self.collected(extra).live(h) ==> forall|k: int|
                0 <= k < T::edges(self.payload(h)).len() && self.live(
                    #[trigger] T::edges(self.payload(h))[k],
                ) ==> self.collected(extra).live(T::edges(self.payload(h))[k]),
    {
        if h.index < self.boxes.len() && reachable(self.graph(), extra, h.index) {
            lemma_reachable_live(self.graph(), extra, h.index);
        }
        if self.collected(extra).live(h) {
            assert forall|k: int|
                0 <= k < T::edges(self.payload(h)).len() && self.live(
                    #[trigger] T::edges(self.payload(h))[k],
                ) implies self.collected(extra).live(T::edges(self.payload(h))[k]) by {
                let t = T::edges(self.payload(h))[k];
                assert(self.graph()[h.index as int].unwrap().edges.contains(t));
                assert(graph_edge(self.graph(), h.index, t.index));
                lemma_edge_reachable(self.graph(), extra, h.index, t.index);
            }
        }
    }
}

/// Setting the mark keeps the root count and the payload.
proof fn lemma_with_mark<T>(slot: Option<GcBox<T>>)
    ensures
        slot is Some ==> {
            &&& with_mark(slot) is Some
            &&& with_mark(slot).unwrap().header.spec_is_marked()
            &&& with_mark(slot).unwrap().header.spec_roots() == slot.unwrap().header.spec_roots()
            &&& with_mark(slot).unwrap().data == slot.unwrap().data
            &&& with_mark(slot).unwrap().size == slot.unwrap().size
        },
        slot is None ==> with_mark(slot) is None,
{
    if slot is Some {
        let w = slot.unwrap().header.word;
        assert(((w | 0x8000_0000_0000_0000) & 0x8000_0000_0000_0000) != 0 && ((w
            | 0x8000_0000_0000_0000) & 0x7fff_ffff_ffff_ffff) == (w & 0x7fff_ffff_ffff_ffff))
            by (bit_vector);
    }
}

/// Clearing a mark that was set on an unmarked word gives the word back.
proof fn lemma_unmark_restores(w: u64)
    requires
        w & MARK_MASK == 0,
    ensures
        (w | MARK_MASK) & ROOTS_MASK == w,
{
    assert(w & 0x8000_0000_0000_0000 == 0 ==> (w | 0x8000_0000_0000_0000) & 0x7fff_ffff_ffff_ffff
        == w) by (bit_vector);
}

} // verus!
