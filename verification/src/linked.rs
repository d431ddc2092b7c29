//! A singly linked node graph over the reference-counted heap.
//!
//! Each node lives in a block of an `RcHeap<LinkedNode>`. A `Cell` node
//! wraps its value in a `CopyCell` and holds a strong handle to its
//! successor, so chains share suffixes, values are rewritten through
//! shared handles, and a successor can be rewired back into the chain to
//! form a deliberate reference cycle. `End` is the terminator.
//!
//! Traversal comes in two forms: `take_values` walks a bounded number of
//! steps and therefore also works on a cycle, while `find_from_tail`
//! requires a proper, `End`-terminated chain and finds the k-th node from
//! the tail in a single forward pass with two cursors.

use vstd::prelude::*;

use crate::copy_cell::CopyCell;
use crate::rc_heap::{BlockView, RcHeap, RefCounted};

verus! {

/// One node of a singly linked chain.
pub enum LinkedNode {
    /// A payload-carrying node: a cell-wrapped value and a strong handle
    /// to the successor node.
    Cell { value: CopyCell<i32>, next: RefCounted },
    /// The terminator.
    End,
}

/// The value stored in a `Cell` node.
pub open spec fn node_value(n: LinkedNode) -> i32
    recommends
        n is Cell,
{
    n->Cell_value.spec_get()
}

/// The block index of a `Cell` node's successor.
pub open spec fn node_next(n: LinkedNode) -> nat
    recommends
        n is Cell,
{
    n->Cell_next.id()
}

/// Block `id` exists and its payload has not been dropped.
pub open spec fn live_at(s: Seq<BlockView<LinkedNode>>, id: int) -> bool {
    0 <= id < s.len() && s[id].payload is Some
}

/// The node stored in block `id`.
pub open spec fn node_at(s: Seq<BlockView<LinkedNode>>, id: int) -> LinkedNode
    recommends
        live_at(s, id),
{
    s[id].payload.unwrap()
}

/// Allocate the `End` terminator as a fresh node.
pub fn end(heap: &mut RcHeap<LinkedNode>) -> (h: RefCounted)
    requires
        old(heap).wf(),
    ensures
        final(heap).wf(),
        final(heap)@ == crate::rc_heap::spec_alloc(old(heap)@, LinkedNode::End),
        h.id() == old(heap)@.len(),
        final(heap).strong_valid(h),
        node_at(final(heap)@, h.id() as int) is End,
{
    RefCounted::new(heap, LinkedNode::End)
}

/// Build a `Cell` node holding `value`, whose successor edge takes over
/// the strong handle `tail`. The new block starts at strong count 1; no
/// existing block changes.
pub fn cons(heap: &mut RcHeap<LinkedNode>, value: i32, tail: RefCounted) -> (h: RefCounted)
    requires
        old(heap).wf(),
        old(heap).strong_valid(tail),
    ensures
        final(heap).wf(),
        final(heap)@.len() == old(heap)@.len() + 1,
        forall|j: int| 0 <= j < old(heap)@.len() ==> final(heap)@[j] == old(heap)@[j],
        h.id() == old(heap)@.len(),
        final(heap).strong_valid(h),
        final(heap)@[h.id() as int].strong == 1,
        final(heap)@[h.id() as int].weak == 0,
        live_at(final(heap)@, h.id() as int),
        node_at(final(heap)@, h.id() as int) is Cell,
        node_value(node_at(final(heap)@, h.id() as int)) == value,
        node_next(node_at(final(heap)@, h.id() as int)) == tail.id(),
{
    let cell = CopyCell::new(value);
    RefCounted::new(heap, LinkedNode::Cell { value: cell, next: tail })
}

/// Whether the node behind `h` is the terminator.
pub fn is_end(heap: &RcHeap<LinkedNode>, h: &RefCounted) -> (r: bool)
    requires
        heap.wf(),
        heap.strong_valid(*h),
    ensures
        r == (node_at(heap@, h.id() as int) is End),
{
    match h.as_ref(heap) {
        LinkedNode::End => true,
        LinkedNode::Cell { .. } => false,
    }
}

/// The value of the node behind `h`, or `None` on the terminator.
pub fn value(heap: &RcHeap<LinkedNode>, h: &RefCounted) -> (r: Option<i32>)
    requires
        heap.wf(),
        heap.strong_valid(*h),
    ensures
        node_at(heap@, h.id() as int) is Cell ==> r == Some(
            node_value(node_at(heap@, h.id() as int)),
        ),
        node_at(heap@, h.id() as int) is End ==> r is None,
{
    match h.as_ref(heap) {
        LinkedNode::Cell { value, .. } => Some(value.get()),
        LinkedNode::End => None,
    }
}

/// A borrowed view of the successor handle of the node behind `h`, or
/// `None` on the terminator. The returned reference observes the heap
/// and owns nothing.
pub fn successor<'a>(heap: &'a RcHeap<LinkedNode>, h: &RefCounted) -> (r: Option<
    &'a RefCounted,
>)
    requires
        heap.wf(),
        heap.strong_valid(*h),
    ensures
        r is Some <==> node_at(heap@, h.id() as int) is Cell,
        r matches Some(nh) ==> nh.id() == node_next(node_at(heap@, h.id() as int)),
{
    match h.as_ref(heap) {
        LinkedNode::Cell { next, .. } => Some(next),
        LinkedNode::End => None,
    }
}

/// Rewrite the cell-wrapped value of the `Cell` node behind `h`, through
/// a shared, immutably-bound handle: only that node's value changes; its
/// successor, both counts, and every other block stay as they were.
pub fn set_value(heap: &mut RcHeap<LinkedNode>, h: &RefCounted, v: i32)
    requires
        old(heap).wf(),
        old(heap).strong_valid(*h),
        node_at(old(heap)@, h.id() as int) is Cell,
    ensures
        final(heap).wf(),
        final(heap)@.len() == old(heap)@.len(),
        forall|j: int|
            0 <= j < old(heap)@.len() && j != h.id() as int ==> final(heap)@[j] == old(
                heap,
            )@[j],
        final(heap)@[h.id() as int].strong == old(heap)@[h.id() as int].strong,
        final(heap)@[h.id() as int].weak == old(heap)@[h.id() as int].weak,
        live_at(final(heap)@, h.id() as int),
        node_at(final(heap)@, h.id() as int) is Cell,
        node_value(node_at(final(heap)@, h.id() as int)) == v,
        node_next(node_at(final(heap)@, h.id() as int)) == node_next(
            node_at(old(heap)@, h.id() as int),
        ),
        final(heap).strong_valid(*h),
{
    let id = h.index();
    let prev = heap.replace_payload(id, LinkedNode::End);
    match prev {
        LinkedNode::Cell { value: cell, next } => {
            let mut cell = cell;
            cell.set(v);
            heap.replace_payload(id, LinkedNode::Cell { value: cell, next });
        },
        LinkedNode::End => {
            proof {
                assert(false);
            }
            heap.replace_payload(id, LinkedNode::End);
        },
    }
}

/// Rewire the successor edge of the `Cell` node behind `h` to `new_next`,
/// handing back the strong handle the edge held before. The node's value,
/// both counts of its block, and every other block stay as they were.
/// Pointing `new_next` at an ancestor of `h` is what builds a reference
/// cycle.
pub fn set_next(heap: &mut RcHeap<LinkedNode>, h: &RefCounted, new_next: RefCounted) -> (old_next:
    RefCounted)
    requires
        old(heap).wf(),
        old(heap).strong_valid(*h),
        old(heap).strong_valid(new_next),
        node_at(old(heap)@, h.id() as int) is Cell,
    ensures
        final(heap).wf(),
        final(heap)@.len() == old(heap)@.len(),
        forall|j: int|
            0 <= j < old(heap)@.len() && j != h.id() as int ==> final(heap)@[j] == old(
                heap,
            )@[j],
        final(heap)@[h.id() as int].strong == old(heap)@[h.id() as int].strong,
        final(heap)@[h.id() as int].weak == old(heap)@[h.id() as int].weak,
        live_at(final(heap)@, h.id() as int),
        node_at(final(heap)@, h.id() as int) is Cell,
        node_value(node_at(final(heap)@, h.id() as int)) == node_value(
            node_at(old(heap)@, h.id() as int),
        ),
        node_next(node_at(final(heap)@, h.id() as int)) == new_next.id(),
        old_next.id() == node_next(node_at(old(heap)@, h.id() as int)),
        final(heap).strong_valid(*h),
{
    let id = h.index();
    let prev = heap.replace_payload(id, LinkedNode::End);
    match prev {
        LinkedNode::Cell { value: cell, next } => {
            heap.replace_payload(id, LinkedNode::Cell { value: cell, next: new_next });
            next
        },
        LinkedNode::End => {
            proof {
                assert(false);
            }
            heap.replace_payload(id, LinkedNode::End);
            new_next
        },
    }
}

/// The values met while following successor edges from block `id` for at
/// most `steps` nodes; the walk stops early at the terminator or at a
/// dropped or missing block. On a cyclic chain the walk simply keeps
/// going round, so the result repeats.
pub open spec fn walk(s: Seq<BlockView<LinkedNode>>, id: int, steps: nat) -> Seq<i32>
    decreases steps,
{
    if steps == 0 || !live_at(s, id) {
        Seq::empty()
    } else {
        match node_at(s, id) {
            LinkedNode::End => Seq::empty(),
            LinkedNode::Cell { value, next } => seq![value.spec_get()] + walk(
                s,
                next.id() as int,
                (steps - 1) as nat,
            ),
        }
    }
}

/// Collect at most `n` values by walking successor edges from `h`.
/// Bounding the number of steps is what makes traversal of a cyclic
/// chain safe: the caller decides how far to look.
pub fn take_values(heap: &RcHeap<LinkedNode>, h: &RefCounted, n: usize) -> (r: Vec<i32>)
    requires
        heap.wf(),
        heap.strong_valid(*h),
    ensures
        r@ == walk(heap@, h.id() as int, n as nat),
{
    let mut out: Vec<i32> = Vec::new();
    let mut cur: usize = h.index();
    let mut i: usize = 0;
    while i < n
        invariant_except_break
            heap.wf(),
            i <= n,
            out@ + walk(heap@, cur as int, (n - i) as nat) == walk(
                heap@,
                h.id() as int,
                n as nat,
            ),
        ensures
            out@ == walk(heap@, h.id() as int, n as nat),
        decreases n - i,
    {
        let stop: bool;
        match heap.payload_at(cur) {
            None => {
                stop = true;
            },
            Some(node) => match node {
                LinkedNode::End => {
                    stop = true;
                },
                LinkedNode::Cell { value, next } => {
                    proof {
                        assert(walk(heap@, cur as int, (n - i) as nat) == seq![
                            node_value(node_at(heap@, cur as int)),
                        ] + walk(heap@, node_next(node_at(heap@, cur as int)) as int, (n - i
                            - 1) as nat));
                    }
                    out.push(value.get());
                    cur = next.index();
                    i = i + 1;
                    stop = false;
                    proof {
                        assert(out@ =~= out@.subrange(0, out@.len() - 1) + seq![
                            out@[out@.len() - 1],
                        ]);
                        assert(out@ + walk(heap@, cur as int, (n - i) as nat) =~= walk(
                            heap@,
                            h.id() as int,
                            n as nat,
                        ));
                    }
                },
            },
        }
        if stop {
            proof {
                assert(walk(heap@, cur as int, (n - i) as nat) =~= Seq::<i32>::empty());
                assert(out@ + Seq::<i32>::empty() =~= out@);
            }
            break ;
        }
    }
    proof {
        assert(out@ + walk(heap@, cur as int, 0) =~= out@);
    }
    out
}

/// The values of a proper chain from block `id` to the terminator, or
/// `None` if the chain is cyclic, runs into a dropped or missing block,
/// or does not reach `End` within `fuel` successor steps.
pub open spec fn chain_rec(s: Seq<BlockView<LinkedNode>>, id: int, fuel: nat) -> Option<
    Seq<i32>,
>
    decreases fuel,
{
    if !live_at(s, id) {
        None
    } else {
        match node_at(s, id) {
            LinkedNode::End => Some(Seq::empty()),
            LinkedNode::Cell { value, next } => {
                if fuel == 0 {
                    None
                } else {
                    match chain_rec(s, next.id() as int, (fuel - 1) as nat) {
                        None => None,
                        Some(t) => Some(seq![value.spec_get()] + t),
                    }
                }
            },
        }
    }
}

/// The values of the chain starting at block `id`, if it is a proper,
/// `End`-terminated chain. A chain that reaches `End` never revisits a
/// block (a revisited block would loop forever), so a fuel of one step
/// per block of the heap is always enough, and a cyclic chain is exactly
/// the case `None`.
pub open spec fn chain(s: Seq<BlockView<LinkedNode>>, id: int) -> Option<Seq<i32>> {
    chain_rec(s, id, s.len())
}

/// Once the fuel suffices, more fuel does not change the result.
proof fn lemma_chain_rec_mono(s: Seq<BlockView<LinkedNode>>, id: int, f1: nat, f2: nat)
    requires
        f1 <= f2,
        chain_rec(s, id, f1) is Some,
    ensures
        chain_rec(s, id, f2) == chain_rec(s, id, f1),
    decreases f1,
{
    if live_at(s, id) {
        match node_at(s, id) {
            LinkedNode::End => {},
            LinkedNode::Cell { next, .. } => {
                lemma_chain_rec_mono(s, next.id() as int, (f1 - 1) as nat, (f2 - 1) as nat);
            },
        }
    }
}

/// Unrolling a proper chain one node: the chain of a `Cell` node is its
/// own value followed by the chain of its successor.
proof fn lemma_chain_step(s: Seq<BlockView<LinkedNode>>, id: int)
    requires
        chain(s, id) is Some,
        live_at(s, id),
        node_at(s, id) is Cell,
    ensures
        chain(s, id).unwrap().len() >= 1,
        chain(s, id).unwrap()[0] == node_value(node_at(s, id)),
        chain(s, node_next(node_at(s, id)) as int) == Some(chain(s, id).unwrap().skip(1)),
{
    let fuel = s.len();
    let next = node_next(node_at(s, id)) as int;
    lemma_chain_rec_mono(s, next, (fuel - 1) as nat, fuel);
    assert(chain(s, id).unwrap().skip(1) =~= chain_rec(s, next, (fuel - 1) as nat).unwrap());
}

/// A nonempty proper chain starts at a live `Cell` node.
proof fn lemma_chain_shape(s: Seq<BlockView<LinkedNode>>, id: int)
    requires
        chain(s, id) is Some,
    ensures
        live_at(s, id),
        chain(s, id).unwrap().len() >= 1 ==> node_at(s, id) is Cell,
        node_at(s, id) is End ==> chain(s, id).unwrap().len() == 0,
{
}

/// Find the value of the k-th node from the tail of a proper chain, in
/// one forward pass with two cursors: the lead cursor first advances `k`
/// nodes, then both advance in lock step until the lead cursor reaches
/// the terminator; the trailing cursor then stands on the k-th node from
/// the tail. Counting is one-based, so `k == 1` names the last
/// payload-carrying node; `k == 0` and any `k` beyond the chain's length
/// are refused with `None`.
pub fn find_from_tail(heap: &RcHeap<LinkedNode>, head: &RefCounted, k: usize) -> (r: Option<
    i32,
>)
    requires
        heap.wf(),
        chain(heap@, head.id() as int) is Some,
    ensures
        ({
            let vs = chain(heap@, head.id() as int).unwrap();
            r == if 1 <= k <= vs.len() {
                Some(vs[vs.len() - k])
            } else {
                None::<i32>
            }
        }),
{
    let ghost vs = chain(heap@, head.id() as int).unwrap();
    proof {
        lemma_chain_shape(heap@, head.id() as int);
    }
    let mut lead: usize = head.index();
    let mut i: usize = 0;
    while i < k
        invariant
            heap.wf(),
            i <= k,
            i <= vs.len(),
            vs == chain(heap@, head.id() as int).unwrap(),
            chain(heap@, head.id() as int) is Some,
            chain(heap@, lead as int) == Some(vs.skip(i as int)),
        decreases k - i,
    {
        proof {
            lemma_chain_shape(heap@, lead as int);
        }
        let stepped: bool;
        match heap.payload_at(lead) {
            None => {
                proof {
                    assert(false);
                }
                stepped = false;
            },
            Some(node) => match node {
                LinkedNode::End => {
                    stepped = false;
                },
                LinkedNode::Cell { next, .. } => {
                    proof {
                        lemma_chain_step(heap@, lead as int);
                        assert(vs.skip(i as int).skip(1) =~= vs.skip(i as int + 1));
                    }
                    lead = next.index();
                    i = i + 1;
                    stepped = true;
                },
            },
        }
        if !stepped {
            // The lead cursor met the terminator after `i` of `k` steps,
            // so the chain holds only `i` values and `k` is out of range.
            proof {
                assert(vs.skip(i as int) =~= Seq::<i32>::empty());
            }
            return None;
        }
    }
    let mut trail: usize = head.index();
    let ghost mut j: int = 0;
    loop
        invariant_except_break
            heap.wf(),
            0 <= j,
            j + k <= vs.len(),
            vs == chain(heap@, head.id() as int).unwrap(),
            chain(heap@, head.id() as int) is Some,
            chain(heap@, lead as int) == Some(vs.skip(j + k)),
            chain(heap@, trail as int) == Some(vs.skip(j)),
        ensures
            chain(heap@, trail as int) == Some(vs.skip(vs.len() - k)),
            vs == chain(heap@, head.id() as int).unwrap(),
            heap.wf(),
        decreases vs.len() - j,
    {
        proof {
            lemma_chain_shape(heap@, lead as int);
            lemma_chain_shape(heap@, trail as int);
        }
        let lead_done: bool;
        match heap.payload_at(lead) {
            None => {
                proof {
                    assert(false);
                }
                lead_done = true;
            },
            Some(node) => match node {
                LinkedNode::End => {
                    lead_done = true;
                },
                LinkedNode::Cell { next, .. } => {
                    proof {
                        lemma_chain_step(heap@, lead as int);
                        assert(vs.skip(j + k).skip(1) =~= vs.skip(j + k + 1));
                    }
                    lead = next.index();
                    lead_done = false;
                },
            },
        }
        if lead_done {
            proof {
                assert(vs.skip(j + k) =~= Seq::<i32>::empty());
                assert(j == vs.len() - k);
            }
            break ;
        }
        match heap.payload_at(trail) {
            None => {
                proof {
                    assert(false);
                }
            },
            Some(node) => match node {
                LinkedNode::End => {
                    proof {
                        // The lead cursor stands `k` nodes deeper into the
                        // chain, so the trailing cursor cannot reach the
                        // terminator first.
                        assert(vs.skip(j).len() > 0);
                        assert(false);
                    }
                },
                LinkedNode::Cell { next, .. } => {
                    proof {
                        lemma_chain_step(heap@, trail as int);
                        assert(vs.skip(j).skip(1) =~= vs.skip(j + 1));
                    }
                    trail = next.index();
                    proof {
                        j = j + 1;
                    }
                },
            },
        }
    }
    proof {
        lemma_chain_shape(heap@, trail as int);
    }
    match heap.payload_at(trail) {
        None => {
            proof {
                assert(false);
            }
            None
        },
        Some(node) => match node {
            LinkedNode::End => {
                // Only a zero `k` chases the lead cursor all the way to
                // the terminator.
                proof {
                    assert(vs.skip(vs.len() - k).len() == 0);
                }
                None
            },
            LinkedNode::Cell { value, .. } => {
                proof {
                    lemma_chain_step(heap@, trail as int);
                    assert(vs.skip(vs.len() - k)[0] == vs[vs.len() - k]);
                }
                Some(value.get())
            },
        },
    }
}

/// Two handles naming the same block observe the very same node: any
/// mutation made through one shared handle is visible through every alias.
pub proof fn lemma_alias_sees_same_node(
    s: Seq<BlockView<LinkedNode>>,
    h1: RefCounted,
    h2: RefCounted,
)
    requires
        h1.id() == h2.id(),
        live_at(s, h1.id() as int),
    ensures
        node_at(s, h1.id() as int) == node_at(s, h2.id() as int),
{
}

} // verus!
