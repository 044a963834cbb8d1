use vstd::prelude::*;
use crate::laws::{StackOp, as_returned, count_step, returned, step};
use crate::stamped::{StampedSlot, next_stamp};

verus! {

/// A node of the arena: an optional payload and the address of the next node
/// of whichever chain holds it.
struct Node<T> {
    data: Option<T>,
    next: Option<usize>,
}

/// A last-in-first-out stack whose nodes live in an arena and are linked into
/// two chains, each headed by a stamped slot: `top`, the nodes that hold the
/// stack's values, and `trash`, the emptied nodes kept for reuse.
///
/// A node, once allocated, is never freed while the stack lives: popping
/// moves it to `trash`, and pushing takes it back from there before it
/// allocates a new one.
pub struct ConcurrentStack<T> {
    top: StampedSlot,
    trash: StampedSlot,
    nodes: Vec<Node<T>>,
    /// The addresses of the `top` chain, from the bottom of the stack to its top.
    live: Ghost<Seq<usize>>,
    /// The addresses of the `trash` chain, from its last node to its head.
    free: Ghost<Seq<usize>>,
}

/// `c` lists, from the last node to the head, a chain of `nodes` that starts
/// at `head` and ends at a null link.
spec fn chain_ok<T>(nodes: Seq<Node<T>>, head: Option<usize>, c: Seq<usize>) -> bool {
    &&& head == (if c.len() == 0 { None } else { Some(c.last()) })
    &&& forall|i: int| 0 <= i < c.len() ==> #[trigger] c[i] < nodes.len()
    &&& forall|i: int|
        0 <= i < c.len() ==> (#[trigger] nodes[c[i] as int]).next == (if i == 0 {
            None
        } else {
            Some(c[i - 1])
        })
}

/// No address is in both `a` and `b`.
spec fn disjoint(a: Seq<usize>, b: Seq<usize>) -> bool {
    forall|i: int, j: int| 0 <= i < a.len() && 0 <= j < b.len() ==> a[i] != b[j]
}

impl<T> ConcurrentStack<T> {
    /// The stack's invariant: each node of the arena is in exactly one of the
    /// two chains, with a payload in `top` and none in `trash`.
    pub closed spec fn wf(&self) -> bool {
        &&& chain_ok(self.nodes@, self.top.address, self.live@)
        &&& chain_ok(self.nodes@, self.trash.address, self.free@)
        &&& forall|i: int| 0 <= i < self.live@.len() ==> (#[trigger] self.nodes@[self.live@[i] as int]).data is Some
        &&& forall|i: int| 0 <= i < self.free@.len() ==> (#[trigger] self.nodes@[self.free@[i] as int]).data is None
        &&& self.live@.no_duplicates()
        &&& self.free@.no_duplicates()
        &&& disjoint(self.live@, self.free@)
        &&& self.live@.len() + self.free@.len() == self.nodes@.len()
    }

    /// The values on the stack, from the bottom to the top.
    pub closed spec fn view(&self) -> Seq<T> {
        self.live@.map_values(|a: usize| self.nodes@[a as int].data->Some_0)
    }

    /// How many nodes the stack has allocated.
    pub closed spec fn node_count(&self) -> nat {
        self.nodes@.len()
    }

    /// The slot that heads the chain of values.
    pub closed spec fn top_slot(&self) -> StampedSlot {
        self.top
    }

    /// The slot that heads the chain of free nodes.
    pub closed spec fn trash_slot(&self) -> StampedSlot {
        self.trash
    }

    /// The addresses of the nodes that hold values, from the bottom of the
    /// stack to its top.
    pub closed spec fn live_addresses(&self) -> Seq<usize> {
        self.live@
    }

    /// The addresses of the free nodes, from the last node of `trash` to its
    /// head.
    pub closed spec fn free_addresses(&self) -> Seq<usize> {
        self.free@
    }

    /// Detaches the head of the chain that `slot` heads, and returns its
    /// address, or `None` when the chain is empty.
    ///
    /// The slot is held exclusively here, so it cannot change between the
    /// load and the exchange, and the exchange succeeds at its first attempt.
    fn pop_top(slot: &mut StampedSlot, nodes: &Vec<Node<T>>, chain: Ghost<Seq<usize>>) -> (r: Option<usize>)
        requires
            chain_ok(nodes@, old(slot).address, chain@),
        ensures
            chain@.len() == 0 ==> (r is None) && *final(slot) == *old(slot),
            chain@.len() > 0 ==> r == Some(chain@.last()) && final(slot).stamp == next_stamp(old(slot).stamp),
            chain@.len() > 0 ==> chain_ok(nodes@, final(slot).address, chain@.drop_last()),
    {
        let (p, v) = slot.load();
        match p {
            None => None,
            Some(a) => {
                let n = nodes[a].next;
                proof {
                    let k = chain@.len() - 1;
                    assert(nodes@[chain@[k] as int].next == (if k == 0 { None } else { Some(chain@[k - 1]) }));
                    assert forall|i: int| 0 <= i < chain@.drop_last().len() implies #[trigger] chain@.drop_last()[i] == chain@[i] by {}
                }
                let _ = slot.compare_exchange((p, v), n);
                Some(a)
            },
        }
    }

    /// Makes node `a` the head of the chain that `slot` heads.
    ///
    /// The slot is held exclusively here, so the exchange succeeds at its
    /// first attempt.
    fn push_top(slot: &mut StampedSlot, nodes: &mut Vec<Node<T>>, a: usize)
        requires
            a < old(nodes)@.len(),
        ensures
            final(nodes)@.len() == old(nodes)@.len(),
            final(nodes)@[a as int].data == old(nodes)@[a as int].data,
            final(nodes)@[a as int].next == old(slot).address,
            forall|j: int| 0 <= j < old(nodes)@.len() && j != a ==> #[trigger] final(nodes)@[j] == old(nodes)@[j],
            final(slot).address == Some(a),
            final(slot).stamp == next_stamp(old(slot).stamp),
    {
        let (p, v) = slot.load();
        nodes[a].next = p;
        let _ = slot.compare_exchange((p, v), Some(a));
    }

    /// Takes a free node from `trash`, if it holds one.
    fn pick_trash(&mut self) -> (r: Option<usize>)
        requires
            old(self).wf(),
        ensures
            final(self).nodes@ == old(self).nodes@,
            final(self).top == old(self).top,
            final(self).live@ == old(self).live@,
            old(self).free@.len() == 0 ==> (r is None) && *final(self) == *old(self),
            old(self).free@.len() > 0 ==> r == Some(old(self).free@.last()),
            old(self).free@.len() > 0 ==> final(self).free@ == old(self).free@.drop_last(),
            old(self).free@.len() > 0 ==> final(self).trash.stamp == next_stamp(old(self).trash.stamp),
            chain_ok(final(self).nodes@, final(self).trash.address, final(self).free@),
    {
        let r = Self::pop_top(&mut self.trash, &self.nodes, self.free);
        if r.is_some() {
            self.free = Ghost(self.free@.drop_last());
        }
        r
    }

    /// Returns node `a` to `trash`.
    fn put_trash(&mut self, a: usize)
        requires
            a < old(self).nodes@.len(),
        ensures
            final(self).nodes@.len() == old(self).nodes@.len(),
            final(self).nodes@[a as int].data == old(self).nodes@[a as int].data,
            final(self).nodes@[a as int].next == old(self).trash.address,
            forall|j: int| 0 <= j < old(self).nodes@.len() && j != a ==> #[trigger] final(self).nodes@[j] == old(self).nodes@[j],
            final(self).top == old(self).top,
            final(self).live@ == old(self).live@,
            final(self).trash.address == Some(a),
            final(self).trash.stamp == next_stamp(old(self).trash.stamp),
            final(self).free@ == old(self).free@.push(a),
    {
        Self::push_top(&mut self.trash, &mut self.nodes, a);
        self.free = Ghost(self.free@.push(a));
    }

    /// Stores `raw` in a node taken from `trash`, or in a new one when
    /// `trash` is empty, and links that node on top.
    fn do_push(&mut self, raw: T)
        requires
            old(self).wf(),
        ensures
            final(self).wf(),
            final(self)@ == old(self)@.push(raw),
            final(self).node_count() == (if old(self).node_count() > old(self)@.len() {
                old(self).node_count()
            } else {
                old(self).node_count() + 1
            }),
            final(self).top.stamp == next_stamp(old(self).top.stamp),
            old(self).free@.len() > 0 ==> final(self).trash.stamp == next_stamp(old(self).trash.stamp),
            old(self).free@.len() == 0 ==> final(self).trash == old(self).trash,
            old(self).free@.len() > 0 ==> final(self).live@ == old(self).live@.push(old(self).free@.last()),
            old(self).free@.len() > 0 ==> final(self).free@ == old(self).free@.drop_last(),
            old(self).free@.len() == 0 ==> final(self).live@ == old(self).live@.push(old(self).nodes@.len() as usize),
            old(self).free@.len() == 0 ==> final(self).free@ == old(self).free@,
    {
        let ghost old_live = self.live@;
        let ghost old_nodes = self.nodes@;
        let got = self.pick_trash();
        let a: usize = match got {
            Some(a) => a,
            None => {
                self.nodes.push(Node { data: None, next: None });
                self.nodes.len() - 1
            },
        };
        let ghost free_now = self.free@;
        proof {
            assert(forall|i: int| 0 <= i < old_live.len() ==> old_live[i] != a);
            assert(forall|i: int| 0 <= i < free_now.len() ==> free_now[i] != a);
        }
        self.nodes[a].data = Some(raw);
        Self::push_top(&mut self.top, &mut self.nodes, a);
        self.live = Ghost(self.live@.push(a));
        proof {
            assert(self@ =~= old(self)@.push(raw));
        }
    }

    /// Pushes `raw` on top of the stack. A node is allocated only when
    /// `trash` holds none.
    pub fn push(&mut self, raw: T)
        requires
            old(self).wf(),
        ensures
            final(self).wf(),
            final(self)@ == old(self)@.push(raw),
            final(self)@ == step(old(self)@, StackOp::Push(raw)),
            final(self).node_count() == count_step(old(self).node_count(), old(self)@, StackOp::Push(raw)),
            final(self).node_count() == final(self)@.len() + final(self).free_addresses().len(),
            final(self).top_slot().stamp == next_stamp(old(self).top_slot().stamp),
            final(self).top_slot().address == Some(final(self).live_addresses().last()),
            old(self).free_addresses().len() > 0 ==> final(self).trash_slot().stamp == next_stamp(old(self).trash_slot().stamp),
            old(self).free_addresses().len() == 0 ==> final(self).trash_slot() == old(self).trash_slot(),
            old(self).free_addresses().len() > 0 ==> final(self).live_addresses() == old(self).live_addresses().push(
                old(self).free_addresses().last(),
            ),
            old(self).free_addresses().len() > 0 ==> final(self).free_addresses() == old(self).free_addresses().drop_last(),
            old(self).free_addresses().len() == 0 ==> final(self).live_addresses() == old(self).live_addresses().push(
                old(self).node_count() as usize,
            ),
            old(self).free_addresses().len() == 0 ==> final(self).free_addresses() == old(self).free_addresses(),
    {
        self.do_push(raw);
    }

    /// Pops the value on top of the stack, or returns `None` when the stack
    /// is empty. The emptied node goes to `trash`.
    pub fn pop(&mut self) -> (r: Option<T>)
        requires
            old(self).wf(),
        ensures
            final(self).wf(),
            final(self).node_count() == old(self).node_count(),
            old(self)@.len() == 0 ==> (r is None) && final(self)@ == old(self)@,
            old(self)@.len() == 0 ==> final(self).top_slot() == old(self).top_slot(),
            old(self)@.len() == 0 ==> final(self).trash_slot() == old(self).trash_slot(),
            old(self)@.len() > 0 ==> r == Some(old(self)@.last()) && final(self)@ == old(self)@.drop_last(),
            old(self)@.len() > 0 ==> final(self).top_slot().stamp == next_stamp(old(self).top_slot().stamp),
            old(self)@.len() > 0 ==> final(self).trash_slot().stamp == next_stamp(old(self).trash_slot().stamp),
            final(self)@ == step(old(self)@, StackOp::Pop),
            as_returned(r) == returned(old(self)@, StackOp::Pop),
            final(self).node_count() == final(self)@.len() + final(self).free_addresses().len(),
            old(self)@.len() == 0 ==> final(self).live_addresses() == old(self).live_addresses(),
            old(self)@.len() == 0 ==> final(self).free_addresses() == old(self).free_addresses(),
            old(self)@.len() > 0 ==> final(self).live_addresses() == old(self).live_addresses().drop_last(),
            old(self)@.len() > 0 ==> final(self).free_addresses() == old(self).free_addresses().push(
                old(self).live_addresses().last(),
            ),
    {
        let ghost old_live = self.live@;
        let got = Self::pop_top(&mut self.top, &self.nodes, self.live);
        match got {
            None => None,
            Some(a) => {
                self.live = Ghost(self.live@.drop_last());
                proof {
                    assert(forall|i: int| 0 <= i < self.live@.len() ==> self.live@[i] == old_live[i]);
                    assert(old_live[old_live.len() - 1] == a);
                    assert(forall|i: int| 0 <= i < self.live@.len() ==> old_live[i] != a);
                    assert(forall|i: int| 0 <= i < self.free@.len() ==> self.free@[i] != a);
                }
                let v = self.nodes[a].data.take();
                self.put_trash(a);
                proof {
                    assert(self@ =~= old(self)@.drop_last());
                }
                v
            },
        }
    }

    /// Whether the stack holds no value.
    ///
    /// Only the address held by `top` is read; its stamp plays no part.
    pub fn empty(&self) -> (r: bool)
        requires
            self.wf(),
        ensures
            r == (self@.len() == 0),
    {
        self.top.load().0.is_none()
    }

    /// Walks the chain from `head` to its null link, drops the payload of
    /// each node on the way, and returns the addresses in the order visited.
    fn release(nodes: &mut Vec<Node<T>>, head: Option<usize>, chain: Ghost<Seq<usize>>) -> (r: Vec<usize>)
        requires
            chain_ok(old(nodes)@, head, chain@),
        ensures
            r@ == chain@.reverse(),
            final(nodes)@.len() == old(nodes)@.len(),
            forall|j: int| 0 <= j < old(nodes)@.len() ==> (#[trigger] final(nodes)@[j]).next == old(nodes)@[j].next,
            forall|i: int| 0 <= i < chain@.len() ==> (#[trigger] final(nodes)@[chain@[i] as int]).data is None,
            forall|j: int| 0 <= j < old(nodes)@.len() && !chain@.contains(j as usize) ==> #[trigger] final(nodes)@[j] == old(nodes)@[j],
    {
        let ghost start = nodes@;
        let mut out: Vec<usize> = Vec::new();
        let mut p = head;
        let ghost mut k: int = chain@.len() as int;
        while p.is_some()
            invariant
                0 <= k <= chain@.len(),
                p == (if k == 0 { None } else { Some(chain@[k - 1]) }),
                out@ == chain@.subrange(k, chain@.len() as int).reverse(),
                nodes@.len() == start.len(),
                forall|j: int| 0 <= j < start.len() ==> (#[trigger] nodes@[j]).next == start[j].next,
                forall|i: int| k <= i < chain@.len() ==> (#[trigger] nodes@[chain@[i] as int]).data is None,
                forall|j: int| 0 <= j < start.len() && !chain@.contains(j as usize) ==> #[trigger] nodes@[j] == start[j],
                chain_ok(start, head, chain@),
            decreases k,
        {
            let a = p.unwrap();
            assert(start[chain@[k - 1] as int].next == (if k - 1 == 0 { None } else { Some(chain@[k - 2]) }));
            out.push(a);
            nodes[a].data = None;
            p = nodes[a].next;
            proof {
                assert(out@ =~= chain@.subrange(k - 1, chain@.len() as int).reverse());
                k = k - 1;
            }
        }
        assert(chain@.subrange(0, chain@.len() as int) =~= chain@);
        out
    }

    /// Tears the stack down: walks `top`, then `trash`, releases each node
    /// with its payload, and returns the addresses of the released nodes in
    /// the order released. Every node the stack allocated is released, and
    /// none twice.
    pub fn destroy(self) -> (r: Vec<usize>)
        requires
            self.wf(),
        ensures
            r@ == self.live_addresses().reverse() + self.free_addresses().reverse(),
            r@.len() == self.node_count(),
            r@.no_duplicates(),
            forall|i: int| 0 <= i < r@.len() ==> #[trigger] r@[i] < self.node_count(),
    {
        let ConcurrentStack { top, trash, mut nodes, live, free } = self;
        let mut first = Self::release(&mut nodes, top.load().0, live);
        let mut second = Self::release(&mut nodes, trash.load().0, free);
        let ghost a = first@;
        let ghost b = second@;
        first.append(&mut second);
        proof {
            let n = live@.len();
            assert forall|i: int| 0 <= i < a.len() implies #[trigger] a[i] == live@[n - 1 - i] by {}
            assert forall|i: int| 0 <= i < b.len() implies #[trigger] b[i] == free@[free@.len() - 1 - i] by {}
            assert forall|i: int, j: int| 0 <= i < first@.len() && 0 <= j < first@.len() && i != j implies first@[i] != first@[j] by {
                if i < a.len() && j < a.len() {
                    assert(a[i] == live@[n - 1 - i] && a[j] == live@[n - 1 - j]);
                } else if i >= a.len() && j >= a.len() {
                    assert(first@[i] == b[i - a.len()] && first@[j] == b[j - a.len()]);
                } else if i < a.len() {
                    assert(first@[j] == b[j - a.len()]);
                } else {
                    assert(first@[i] == b[i - a.len()]);
                }
            }
        }
        first
    }

    /// An empty stack, with no node allocated.
    pub fn new() -> (r: Self)
        ensures
            r.wf(),
            r@.len() == 0,
            r.node_count() == 0,
            r.live_addresses().len() == 0,
            r.free_addresses().len() == 0,
            r.top_slot() == (StampedSlot { address: None, stamp: 0 }),
            r.trash_slot() == (StampedSlot { address: None, stamp: 0 }),
    {
        ConcurrentStack {
            top: StampedSlot::new(),
            trash: StampedSlot::new(),
            nodes: Vec::new(),
            live: Ghost(Seq::empty()),
            free: Ghost(Seq::empty()),
        }
    }
}

} // verus!
