//! A shared-ownership heap with explicit strong and weak counts.
//!
//! `RcHeap` is the single, injectable state object behind all shared
//! ownership in this crate: every allocation creates one control block
//! holding a payload, a strong count and a weak count. `RefCounted` and
//! `WeakRef` are plain handles naming one block; every count change is an
//! explicit operation against the heap, so the count arithmetic, the
//! payload lifecycle (the payload is dropped exactly when the strong count
//! reaches zero) and the "zombie" state observed by weak handles are all
//! stated in contracts and proved.
//!
//! Handles are deliberately not `Copy` and not `Clone`: a new strong handle
//! exists only through `RefCounted::new`, `RefCounted::clone` or
//! `WeakRef::upgrade`, each of which accounts for it in the counts, and a
//! handle is retired only through `drop_strong` / `drop_weak`. Because
//! nothing ever scans for cycles, a loop of strong edges keeps every block
//! on it alive forever; breaking the loop takes a `WeakRef` edge.

use vstd::prelude::*;

verus! {

/// Ghost model of one control block.
pub struct BlockView<T> {
    /// Number of live strong handles (and strong edges) naming this block.
    pub strong: nat,
    /// Number of live weak handles naming this block.
    pub weak: nat,
    /// The owned value; `None` once the strong count has reached zero.
    pub payload: Option<T>,
}

struct Block<T> {
    strong: usize,
    weak: usize,
    payload: Option<T>,
}

/// The shared heap: a growing arena of control blocks.
pub struct RcHeap<T> {
    blocks: Vec<Block<T>>,
}

/// An owning, strong handle to one block of an `RcHeap`.
pub struct RefCounted {
    id: usize,
}

/// A non-owning, weak handle to one block of an `RcHeap`.
pub struct WeakRef {
    id: usize,
}

impl<T> View for RcHeap<T> {
    type V = Seq<BlockView<T>>;

    closed spec fn view(&self) -> Seq<BlockView<T>> {
        self.blocks@.map_values(
            |b: Block<T>|
                BlockView { strong: b.strong as nat, weak: b.weak as nat, payload: b.payload },
        )
    }
}

impl RefCounted {
    /// Which block this handle names.
    pub closed spec fn id(self) -> nat {
        self.id as nat
    }

    /// The block index, for the crate's own traversal code.
    pub(crate) fn index(&self) -> (i: usize)
        ensures
            i as nat == self.id(),
    {
        self.id
    }
}

impl WeakRef {
    /// Which block this handle names.
    pub closed spec fn id(self) -> nat {
        self.id as nat
    }
}

impl<T> RcHeap<T> {
    /// A block's payload is present exactly while its strong count is
    /// positive.
    pub open spec fn wf(self) -> bool {
        forall|i: int|
            0 <= i < self@.len() ==> ((#[trigger] self@[i].payload) is Some <==> self@[i].strong
                > 0)
    }

    /// `h` names a block of this heap whose payload is still alive.
    pub open spec fn strong_valid(self, h: RefCounted) -> bool {
        h.id() < self@.len() && self@[h.id() as int].strong > 0
    }

    /// `w` names a block of this heap that still counts a weak handle.
    pub open spec fn weak_valid(self, w: WeakRef) -> bool {
        w.id() < self@.len() && self@[w.id() as int].weak > 0
    }

    /// An empty heap with no blocks.
    pub fn new() -> (heap: RcHeap<T>)
        ensures
            heap@ == Seq::<BlockView<T>>::empty(),
            heap.wf(),
    {
        let heap = RcHeap { blocks: Vec::new() };
        proof {
            assert(heap@ =~= Seq::<BlockView<T>>::empty());
        }
        heap
    }

    /// Number of blocks ever allocated (freed blocks keep their slot).
    pub fn block_count(&self) -> (n: usize)
        ensures
            n as nat == self@.len(),
    {
        self.blocks.len()
    }

    /// Shared read access to a block's payload, by index.
    pub(crate) fn payload_at<'a>(&'a self, id: usize) -> (r: Option<&'a T>)
        ensures
            r is Some <==> (id < self@.len() && self@[id as int].payload is Some),
            r matches Some(v) ==> Some(*v) == self@[id as int].payload,
    {
        if id < self.blocks.len() {
            self.blocks[id].payload.as_ref()
        } else {
            None
        }
    }

    /// Replace a live block's payload as a whole, returning the previous
    /// payload. This is the crate-internal door through which the
    /// interior-mutability wrappers stored inside a payload do their work;
    /// counts and every other block are untouched.
    pub(crate) fn replace_payload(&mut self, id: usize, value: T) -> (prev: T)
        requires
            old(self).wf(),
            id < old(self)@.len(),
            old(self)@[id as int].strong > 0,
        ensures
            final(self).wf(),
            final(self)@ == old(self)@.update(
                id as int,
                BlockView {
                    strong: old(self)@[id as int].strong,
                    weak: old(self)@[id as int].weak,
                    payload: Some(value),
                },
            ),
            Some(prev) == old(self)@[id as int].payload,
    {
        let b = &mut self.blocks[id];
        let mut fresh = Some(value);
        core::mem::swap(&mut b.payload, &mut fresh);
        proof {
            assert(self@ =~= old(self)@.update(
                id as int,
                BlockView {
                    strong: old(self)@[id as int].strong,
                    weak: old(self)@[id as int].weak,
                    payload: Some(value),
                },
            ));
        }
        fresh.unwrap()
    }
}

/// The heap after a fresh allocation: one new block with strong count 1.
pub open spec fn spec_alloc<T>(s: Seq<BlockView<T>>, value: T) -> Seq<BlockView<T>> {
    s.push(BlockView { strong: 1, weak: 0, payload: Some(value) })
}

/// The heap after one more strong handle to block `id` is created.
pub open spec fn spec_clone<T>(s: Seq<BlockView<T>>, id: int) -> Seq<BlockView<T>>
    recommends
        0 <= id < s.len(),
{
    s.update(
        id,
        BlockView { strong: s[id].strong + 1, weak: s[id].weak, payload: s[id].payload },
    )
}

/// The heap after one strong handle to block `id` is retired: the count
/// drops by one, and the payload is dropped exactly at the transition to
/// zero.
pub open spec fn spec_drop_strong<T>(s: Seq<BlockView<T>>, id: int) -> Seq<BlockView<T>>
    recommends
        0 <= id < s.len(),
        s[id].strong > 0,
{
    if s[id].strong == 1 {
        s.update(id, BlockView { strong: 0, weak: s[id].weak, payload: None })
    } else {
        s.update(
            id,
            BlockView {
                strong: (s[id].strong - 1) as nat,
                weak: s[id].weak,
                payload: s[id].payload,
            },
        )
    }
}

/// The heap after block `id` is downgraded: one more weak handle.
pub open spec fn spec_downgrade<T>(s: Seq<BlockView<T>>, id: int) -> Seq<BlockView<T>>
    recommends
        0 <= id < s.len(),
{
    s.update(
        id,
        BlockView { strong: s[id].strong, weak: s[id].weak + 1, payload: s[id].payload },
    )
}

/// The heap after one weak handle to block `id` is retired.
pub open spec fn spec_drop_weak<T>(s: Seq<BlockView<T>>, id: int) -> Seq<BlockView<T>>
    recommends
        0 <= id < s.len(),
        s[id].weak > 0,
{
    s.update(
        id,
        BlockView {
            strong: s[id].strong,
            weak: (s[id].weak - 1) as nat,
            payload: s[id].payload,
        },
    )
}

/// A weak handle can obtain a strong one exactly while the payload lives.
pub open spec fn can_upgrade<T>(s: Seq<BlockView<T>>, id: int) -> bool {
    0 <= id < s.len() && s[id].strong > 0
}

/// The heap after `n` successive clones of a handle to block `id`.
pub open spec fn spec_clone_n<T>(s: Seq<BlockView<T>>, id: int, n: nat) -> Seq<BlockView<T>>
    decreases n,
{
    if n == 0 {
        s
    } else {
        spec_clone(spec_clone_n(s, id, (n - 1) as nat), id)
    }
}

/// The heap after `n` successive strong drops on block `id`.
pub open spec fn spec_drop_strong_n<T>(s: Seq<BlockView<T>>, id: int, n: nat) -> Seq<
    BlockView<T>,
>
    decreases n,
{
    if n == 0 {
        s
    } else {
        spec_drop_strong_n(spec_drop_strong(s, id), id, (n - 1) as nat)
    }
}

/// Cloning a handle `n` times raises the block's strong count by exactly
/// `n` and changes nothing else: not the weak count, not the payload, and
/// no other block.
pub proof fn lemma_clone_n_counts<T>(s: Seq<BlockView<T>>, id: int, n: nat)
    requires
        0 <= id < s.len(),
    ensures
        spec_clone_n(s, id, n).len() == s.len(),
        spec_clone_n(s, id, n)[id].strong == s[id].strong + n,
        spec_clone_n(s, id, n)[id].weak == s[id].weak,
        spec_clone_n(s, id, n)[id].payload == s[id].payload,
        forall|j: int|
            0 <= j < s.len() && j != id ==> spec_clone_n(s, id, n)[j] == s[j],
    decreases n,
{
    if n > 0 {
        lemma_clone_n_counts(s, id, (n - 1) as nat);
    }
}

/// Retiring a clone undoes it exactly: while a block keeps at least one
/// strong handle, a clone followed by a strong drop leaves the whole heap
/// as it was.
pub proof fn lemma_drop_undoes_clone<T>(s: Seq<BlockView<T>>, id: int)
    requires
        0 <= id < s.len(),
        s[id].strong >= 1,
    ensures
        spec_drop_strong(spec_clone(s, id), id) == s,
{
    assert(spec_drop_strong(spec_clone(s, id), id) =~= s);
}

/// Cloning a live handle `n` times and then retiring those `n` clones
/// restores the heap exactly; in particular a block that started at strong
/// count 1 is back at strong count 1 with its payload still alive.
pub proof fn lemma_clone_n_then_drop_n<T>(s: Seq<BlockView<T>>, id: int, n: nat)
    requires
        0 <= id < s.len(),
        s[id].strong >= 1,
    ensures
        spec_drop_strong_n(spec_clone_n(s, id, n), id, n) == s,
    decreases n,
{
    if n > 0 {
        let c = spec_clone_n(s, id, (n - 1) as nat);
        lemma_clone_n_counts(s, id, (n - 1) as nat);
        lemma_drop_undoes_clone(c, id);
        lemma_clone_n_then_drop_n(s, id, (n - 1) as nat);
    }
}

/// Retiring the last strong handle frees the payload: at the transition
/// of the strong count from 1 to 0 the payload is dropped, while the weak
/// count and every other block survive untouched.
pub proof fn lemma_last_drop_frees<T>(s: Seq<BlockView<T>>, id: int)
    requires
        0 <= id < s.len(),
        s[id].strong == 1,
    ensures
        spec_drop_strong(s, id)[id].strong == 0,
        spec_drop_strong(s, id)[id].payload is None,
        spec_drop_strong(s, id)[id].weak == s[id].weak,
        forall|j: int|
            0 <= j < s.len() && j != id ==> spec_drop_strong(s, id)[j] == s[j],
{
}

/// While any strong handle is live, downgrading and then upgrading
/// succeeds and leaves the strong count one higher than before (and the
/// weak count one higher); once the strong count is zero, an upgrade is
/// refused.
pub proof fn lemma_downgrade_upgrade<T>(s: Seq<BlockView<T>>, id: int)
    requires
        0 <= id < s.len(),
    ensures
        s[id].strong > 0 ==> can_upgrade(spec_downgrade(s, id), id),
        s[id].strong > 0 ==> spec_clone(spec_downgrade(s, id), id)[id].strong == s[id].strong
            + 1,
        s[id].strong > 0 ==> spec_clone(spec_downgrade(s, id), id)[id].weak == s[id].weak + 1,
        s[id].strong == 0 ==> !can_upgrade(s, id),
{
}

impl RefCounted {
    /// Allocate a fresh block owning `value`, with strong count 1 and weak
    /// count 0, and return its first strong handle.
    pub fn new<T>(heap: &mut RcHeap<T>, value: T) -> (h: RefCounted)
        requires
            old(heap).wf(),
        ensures
            final(heap).wf(),
            final(heap)@ == spec_alloc(old(heap)@, value),
            h.id() == old(heap)@.len(),
            final(heap).strong_valid(h),
    {
        let id = heap.blocks.len();
        heap.blocks.push(Block { strong: 1, weak: 0, payload: Some(value) });
        proof {
            assert(heap@ =~= spec_alloc(old(heap)@, value));
        }
        RefCounted { id }
    }

    /// One more strong handle to the same block: the strong count grows by
    /// one and nothing else changes. No payload is copied.
    pub fn clone<T>(&self, heap: &mut RcHeap<T>) -> (h: RefCounted)
        requires
            old(heap).wf(),
            old(heap).strong_valid(*self),
            old(heap)@[self.id() as int].strong < usize::MAX,
        ensures
            final(heap).wf(),
            final(heap)@ == spec_clone(old(heap)@, self.id() as int),
            h.id() == self.id(),
            final(heap).strong_valid(h),
            final(heap).strong_valid(*self),
    {
        let b = &mut heap.blocks[self.id];
        b.strong = b.strong + 1;
        proof {
            assert(heap@ =~= spec_clone(old(heap)@, self.id() as int));
        }
        RefCounted { id: self.id }
    }

    /// How many strong handles the block currently counts.
    pub fn strong_count<T>(&self, heap: &RcHeap<T>) -> (n: usize)
        requires
            self.id() < heap@.len(),
        ensures
            n as nat == heap@[self.id() as int].strong,
    {
        heap.blocks[self.id].strong
    }

    /// How many weak handles the block currently counts.
    pub fn weak_count<T>(&self, heap: &RcHeap<T>) -> (n: usize)
        requires
            self.id() < heap@.len(),
        ensures
            n as nat == heap@[self.id() as int].weak,
    {
        heap.blocks[self.id].weak
    }

    /// Shared read access to the payload. No mutable access exists through
    /// a strong handle: mutation goes through an interior-mutability
    /// wrapper stored inside the payload.
    pub fn as_ref<'a, T>(&self, heap: &'a RcHeap<T>) -> (r: &'a T)
        requires
            heap.wf(),
            heap.strong_valid(*self),
        ensures
            Some(*r) == heap@[self.id() as int].payload,
    {
        heap.blocks[self.id].payload.as_ref().unwrap()
    }

    /// Create a non-owning observer of the same block: the weak count grows
    /// by one, the strong count is untouched.
    pub fn downgrade<T>(&self, heap: &mut RcHeap<T>) -> (w: WeakRef)
        requires
            old(heap).wf(),
            old(heap).strong_valid(*self),
            old(heap)@[self.id() as int].weak < usize::MAX,
        ensures
            final(heap).wf(),
            final(heap)@ == spec_downgrade(old(heap)@, self.id() as int),
            w.id() == self.id(),
            final(heap).weak_valid(w),
            final(heap).strong_valid(*self),
    {
        let b = &mut heap.blocks[self.id];
        b.weak = b.weak + 1;
        proof {
            assert(heap@ =~= spec_downgrade(old(heap)@, self.id() as int));
        }
        WeakRef { id: self.id }
    }

    /// Retire this strong handle. The strong count drops by one; at the
    /// transition to zero the payload is dropped and handed back as the
    /// observable side of its destruction, otherwise `None` is returned.
    pub fn drop_strong<T>(self, heap: &mut RcHeap<T>) -> (freed: Option<T>)
        requires
            old(heap).wf(),
            old(heap).strong_valid(self),
        ensures
            final(heap).wf(),
            final(heap)@ == spec_drop_strong(old(heap)@, self.id() as int),
            freed is Some <==> old(heap)@[self.id() as int].strong == 1,
            freed is Some ==> freed == old(heap)@[self.id() as int].payload,
    {
        let b = &mut heap.blocks[self.id];
        if b.strong == 1 {
            b.strong = 0;
            let freed = b.payload.take();
            proof {
                assert(heap@ =~= spec_drop_strong(old(heap)@, self.id() as int));
            }
            freed
        } else {
            b.strong = b.strong - 1;
            proof {
                assert(heap@ =~= spec_drop_strong(old(heap)@, self.id() as int));
            }
            None
        }
    }
}

impl WeakRef {
    /// How many strong handles the observed block currently counts; a weak
    /// handle may observe this even after the payload is gone.
    pub fn strong_count<T>(&self, heap: &RcHeap<T>) -> (n: usize)
        requires
            self.id() < heap@.len(),
        ensures
            n as nat == heap@[self.id() as int].strong,
    {
        heap.blocks[self.id].strong
    }

    /// Try to obtain a strong handle: succeeds, incrementing the strong
    /// count, exactly while the payload is still alive; returns `None`
    /// once the strong count has reached zero.
    pub fn upgrade<T>(&self, heap: &mut RcHeap<T>) -> (r: Option<RefCounted>)
        requires
            old(heap).wf(),
            old(heap).weak_valid(*self),
            old(heap)@[self.id() as int].strong < usize::MAX,
        ensures
            final(heap).wf(),
            final(heap).weak_valid(*self),
            r is Some <==> can_upgrade(old(heap)@, self.id() as int),
            r matches Some(h) ==> final(heap)@ == spec_clone(old(heap)@, self.id() as int)
                && h.id() == self.id() && final(heap).strong_valid(h),
            r is None ==> final(heap)@ == old(heap)@,
    {
        if self.strong_count(heap) > 0 {
            let b = &mut heap.blocks[self.id];
            b.strong = b.strong + 1;
            proof {
                assert(heap@ =~= spec_clone(old(heap)@, self.id() as int));
            }
            Some(RefCounted { id: self.id })
        } else {
            None
        }
    }

    /// Retire this weak handle: the weak count drops by one.
    pub fn drop_weak<T>(self, heap: &mut RcHeap<T>)
        requires
            old(heap).wf(),
            old(heap).weak_valid(self),
        ensures
            final(heap).wf(),
            final(heap)@ == spec_drop_weak(old(heap)@, self.id() as int),
    {
        let b = &mut heap.blocks[self.id];
        b.weak = b.weak - 1;
        proof {
            assert(heap@ =~= spec_drop_weak(old(heap)@, self.id() as int));
        }
    }
}

} // verus!
