//! The set of reusable slot positions of an arena, handed out lowest first. It is
//! kept as a binary heap with the lowest position at the root.

use vstd::prelude::*;

verus! {

/// The place of the parent of the element at place `i` of a heap.
pub open spec fn parent(i: int) -> int {
    (i - 1) / 2
}

/// The element at place `k` is not below its parent.
pub open spec fn rests_on_parent(heap: Seq<usize>, k: int) -> bool {
    heap[parent(k)] <= heap[k]
}

/// The element at place `k` is not below the parent of its parent.
pub open spec fn rests_on_grandparent(heap: Seq<usize>, k: int) -> bool {
    heap[parent(parent(k))] <= heap[k]
}

/// No element of `heap` is below its parent, with the possible exception of the
/// element at `hole`.
pub open spec fn ordered_but_at(heap: Seq<usize>, hole: int) -> bool {
    forall|k: int| 0 < k < heap.len() && k != hole ==> #[trigger] rests_on_parent(heap, k)
}

/// No element of `heap` is below its parent, with the possible exception of the
/// children of the element at `hole`.
pub open spec fn ordered_but_below(heap: Seq<usize>, hole: int) -> bool {
    forall|k: int| 0 < k < heap.len() && parent(k) != hole ==> #[trigger] rests_on_parent(heap, k)
}

/// No child of the element at `hole` is below the parent of that element.
pub open spec fn bridged(heap: Seq<usize>, hole: int) -> bool {
    forall|k: int|
        0 < k < heap.len() && parent(k) == hole && hole > 0 ==> #[trigger] rests_on_grandparent(
            heap,
            k,
        )
}

/// No element of `heap` is below its parent.
pub open spec fn heap_ordered(heap: Seq<usize>) -> bool {
    forall|k: int| 0 < k < heap.len() ==> #[trigger] rests_on_parent(heap, k)
}

/// No position occurs twice.
pub open spec fn all_distinct(heap: Seq<usize>) -> bool {
    forall|i: int, j: int| 0 <= i < j < heap.len() ==> heap[i] != heap[j]
}

/// `after` is `before` with the elements at `i` and `j` exchanged.
pub open spec fn exchanged(before: Seq<usize>, after: Seq<usize>, i: int, j: int) -> bool {
    &&& 0 <= i < before.len()
    &&& 0 <= j < before.len()
    &&& after == before.update(i, before[j]).update(j, before[i])
}

/// The root of a heap is its lowest element.
pub proof fn lemma_root_is_lowest(heap: Seq<usize>, k: int)
    requires
        heap_ordered(heap),
        0 <= k < heap.len(),
    ensures
        heap[0] <= heap[k],
    decreases k,
{
    if k > 0 {
        assert(rests_on_parent(heap, k));
        lemma_root_is_lowest(heap, parent(k));
    }
}

/// An exchange keeps the elements what they are, and distinct if they were.
pub proof fn lemma_exchange_keeps_elements(
    before: Seq<usize>,
    after: Seq<usize>,
    i: int,
    j: int,
)
    requires
        exchanged(before, after, i, j),
    ensures
        after.len() == before.len(),
        forall|p: usize| after.contains(p) <==> before.contains(p),
        all_distinct(before) ==> all_distinct(after),
{
    assert forall|p: usize| after.contains(p) <==> before.contains(p) by {
        if after.contains(p) {
            let k = choose|k: int| 0 <= k < after.len() && after[k] == p;
            let from = if k == i {
                j
            } else if k == j {
                i
            } else {
                k
            };
            assert(before[from] == p);
        }
        if before.contains(p) {
            let k = choose|k: int| 0 <= k < before.len() && before[k] == p;
            let to = if k == i {
                j
            } else if k == j {
                i
            } else {
                k
            };
            assert(after[to] == p);
        }
    }
    if all_distinct(before) {
        assert forall|a: int, b: int| 0 <= a < b < after.len() implies after[a] != after[b] by {
            let from_a = if a == i {
                j
            } else if a == j {
                i
            } else {
                a
            };
            let from_b = if b == i {
                j
            } else if b == j {
                i
            } else {
                b
            };
            assert(after[a] == before[from_a]);
            assert(after[b] == before[from_b]);
            if from_a < from_b {
                assert(before[from_a] != before[from_b]);
            } else {
                assert(before[from_b] != before[from_a]);
            }
        }
    }
}

/// Positions waiting to be reused.
pub struct FreeSlots {
    heap: Vec<usize>,
}

impl View for FreeSlots {
    type V = Seq<usize>;

    closed spec fn view(&self) -> Seq<usize> {
        self.heap@
    }
}

impl FreeSlots {
    #[verifier::type_invariant]
    spec fn well_formed(self) -> bool {
        heap_ordered(self.heap@) && all_distinct(self.heap@)
    }

    /// Whether `position` waits in the set.
    pub open spec fn has(self, position: usize) -> bool {
        self@.contains(position)
    }

    pub fn new() -> (free: Self)
        ensures
            free@ == Seq::<usize>::empty(),
    {
        FreeSlots { heap: Vec::new() }
    }

    pub fn with_capacity(capacity: usize) -> (free: Self)
        ensures
            free@ == Seq::<usize>::empty(),
    {
        FreeSlots { heap: Vec::with_capacity(capacity) }
    }

    /// Number of waiting positions.
    pub fn len(&self) -> (n: usize)
        ensures
            n == self@.len(),
    {
        self.heap.len()
    }

    /// Adds `position`, which must not be waiting already.
    pub fn push(&mut self, position: usize)
        requires
            !old(self).has(position),
        ensures
            final(self)@.len() == old(self)@.len() + 1,
            forall|p: usize| final(self).has(p) <==> (p == position || old(self).has(p)),
    {
        proof {
            use_type_invariant(&*self);
        }
        let mut heap = Vec::new();
        std::mem::swap(&mut heap, &mut self.heap);
        let ghost before = heap@;
        heap.push(position);
        proof {
            let pushed = heap@;
            assert forall|p: usize| pushed.contains(p) <==> (p == position || before.contains(
                p,
            )) by {
                if pushed.contains(p) {
                    let k = choose|k: int| 0 <= k < pushed.len() && pushed[k] == p;
                    if k < before.len() {
                        assert(before[k] == p);
                    }
                }
                if before.contains(p) {
                    let k = choose|k: int| 0 <= k < before.len() && before[k] == p;
                    assert(pushed[k] == p);
                }
                assert(pushed[before.len() as int] == position);
            }
            assert forall|a: int, b: int| 0 <= a < b < pushed.len() implies pushed[a]
                != pushed[b] by {
                if b == before.len() {
                    assert(before[a] == pushed[a]);
                    assert(before.contains(pushed[a]));
                } else {
                    assert(before[a] != before[b]);
                }
            }
            assert forall|k: int|
                0 < k < pushed.len() && k != pushed.len() - 1 implies #[trigger] rests_on_parent(
                pushed,
                k,
            ) by {
                assert(rests_on_parent(before, k));
            }
        }
        sift_up(&mut heap);
        self.heap = heap;
    }

    /// Takes the lowest waiting position out, if there is one.
    pub fn pop_lowest(&mut self) -> (lowest: Option<usize>)
        ensures
            match lowest {
                Some(p) => {
                    &&& old(self).has(p)
                    &&& forall|q: usize| old(self).has(q) ==> p <= q
                    &&& final(self)@.len() + 1 == old(self)@.len()
                    &&& forall|q: usize| final(self).has(q) <==> (q != p && old(self).has(q))
                },
                None => old(self)@.len() == 0 && final(self)@ == old(self)@,
            },
    {
        proof {
            use_type_invariant(&*self);
        }
        if self.heap.len() == 0 {
            return None;
        }
        let mut heap = Vec::new();
        std::mem::swap(&mut heap, &mut self.heap);
        let ghost before = heap@;
        let lowest = heap[0];
        let last = heap.pop().unwrap();
        if heap.len() > 0 {
            heap[0] = last;
        }
        proof {
            let moved = heap@;
            let n = before.len() as int;
            assert(before[0] == lowest);
            assert forall|q: usize| before.contains(q) implies lowest <= q by {
                let k = choose|k: int| 0 <= k < before.len() && before[k] == q;
                lemma_root_is_lowest(before, k);
            }
            assert forall|q: usize| moved.contains(q) <==> (q != lowest && before.contains(q)) by {
                if moved.contains(q) {
                    let k = choose|k: int| 0 <= k < moved.len() && moved[k] == q;
                    if k == 0 {
                        assert(before[n - 1] == q);
                        assert(before[0] != before[n - 1]);
                    } else {
                        assert(before[k] == q);
                        assert(before[0] != before[k]);
                    }
                }
                if q != lowest && before.contains(q) {
                    let k = choose|k: int| 0 <= k < before.len() && before[k] == q;
                    if k == n - 1 {
                        assert(moved[0] == q);
                    } else {
                        assert(moved[k] == q);
                    }
                }
            }
            assert forall|a: int, b: int| 0 <= a < b < moved.len() implies moved[a]
                != moved[b] by {
                if a == 0 {
                    assert(before[b] != before[n - 1]);
                } else {
                    assert(before[a] != before[b]);
                }
            }
            assert forall|k: int|
                0 < k < moved.len() && parent(k) != 0 implies #[trigger] rests_on_parent(
                moved,
                k,
            ) by {
                assert(rests_on_parent(before, k));
            }
        }
        sift_down(&mut heap);
        self.heap = heap;
        Some(lowest)
    }
}

/// Exchanges the elements at `i` and `j`.
fn exchange(heap: &mut Vec<usize>, i: usize, j: usize)
    requires
        i < old(heap)@.len(),
        j < old(heap)@.len(),
    ensures
        exchanged(old(heap)@, final(heap)@, i as int, j as int),
{
    let a = heap[i];
    let b = heap[j];
    heap[i] = b;
    heap[j] = a;
}

/// Moves the last element up until it is not below its parent.
fn sift_up(heap: &mut Vec<usize>)
    requires
        old(heap)@.len() > 0,
        ordered_but_at(old(heap)@, old(heap)@.len() - 1),
        all_distinct(old(heap)@),
    ensures
        heap_ordered(final(heap)@),
        all_distinct(final(heap)@),
        final(heap)@.len() == old(heap)@.len(),
        forall|p: usize| final(heap)@.contains(p) <==> old(heap)@.contains(p),
{
    let mut at: usize = heap.len() - 1;
    while at > 0 && heap[(at - 1) / 2] > heap[at]
        invariant
            at < heap@.len(),
            heap@.len() == old(heap)@.len(),
            ordered_but_at(heap@, at as int),
            bridged(heap@, at as int),
            all_distinct(heap@),
            forall|p: usize| heap@.contains(p) <==> old(heap)@.contains(p),
        decreases at,
    {
        let above: usize = (at - 1) / 2;
        let ghost before = heap@;
        exchange(heap, above, at);
        proof {
            lemma_exchange_keeps_elements(before, heap@, above as int, at as int);
            let after = heap@;
            assert forall|k: int|
                0 < k < after.len() && k != above implies #[trigger] rests_on_parent(after, k) by {
                if k == at {
                } else if parent(k) == at {
                    assert(rests_on_grandparent(before, k));
                } else {
                    assert(rests_on_parent(before, k));
                }
            }
            assert forall|k: int|
                0 < k < after.len() && parent(k) == above && above
                    > 0 implies #[trigger] rests_on_grandparent(after, k) by {
                assert(rests_on_parent(before, above as int));
                if k != at {
                    assert(rests_on_parent(before, k));
                }
            }
        }
        at = above;
    }
}

/// Moves the root down until none of its children is below it.
fn sift_down(heap: &mut Vec<usize>)
    requires
        ordered_but_below(old(heap)@, 0),
        all_distinct(old(heap)@),
    ensures
        heap_ordered(final(heap)@),
        all_distinct(final(heap)@),
        final(heap)@.len() == old(heap)@.len(),
        forall|p: usize| final(heap)@.contains(p) <==> old(heap)@.contains(p),
{
    let count = heap.len();
    let mut at: usize = 0;
    while at < count / 2
        invariant
            count == heap@.len(),
            heap@.len() == old(heap)@.len(),
            ordered_but_below(heap@, at as int),
            bridged(heap@, at as int),
            all_distinct(heap@),
            forall|p: usize| heap@.contains(p) <==> old(heap)@.contains(p),
        ensures
            heap_ordered(heap@),
        decreases count - at,
    {
        let left: usize = 2 * at + 1;
        let right: usize = left + 1;
        let child: usize = if right < count && heap[right] < heap[left] {
            right
        } else {
            left
        };
        if heap[at] <= heap[child] {
            proof {
                assert forall|k: int| 0 < k < heap@.len() implies #[trigger] rests_on_parent(
                    heap@,
                    k,
                ) by {
                    if parent(k) == at {
                        assert(k == left || k == right);
                    }
                }
            }
            break ;
        }
        let ghost before = heap@;
        exchange(heap, at, child);
        proof {
            lemma_exchange_keeps_elements(before, heap@, at as int, child as int);
            let after = heap@;
            assert forall|k: int|
                0 < k < after.len() && parent(k) != child implies #[trigger] rests_on_parent(
                after,
                k,
            ) by {
                if k == child {
                } else if parent(k) == at {
                    assert(k == left || k == right);
                } else if k == at {
                    assert(rests_on_grandparent(before, child as int));
                } else {
                    assert(rests_on_parent(before, k));
                }
            }
            assert forall|k: int|
                0 < k < after.len() && parent(k) == child && child
                    > 0 implies #[trigger] rests_on_grandparent(after, k) by {
                assert(rests_on_parent(before, k));
            }
        }
        at = child;
    }
}

} // verus!
