use vstd::prelude::*;
use vstd::multiset::Multiset;
use vstd::seq_lib::lemma_multiset_commutative;

verus! {

/// One operation on a stack.
pub enum StackOp<T> {
    Push(T),
    Pop,
}

/// The contents after `op` on contents `s`, as `push` and `pop` state them.
pub open spec fn step<T>(s: Seq<T>, op: StackOp<T>) -> Seq<T> {
    match op {
        StackOp::Push(v) => s.push(v),
        StackOp::Pop => if s.len() > 0 {
            s.drop_last()
        } else {
            s
        },
    }
}

/// What `op` on contents `s` returns: the top value for a pop of a non-empty
/// stack, nothing otherwise.
pub open spec fn returned<T>(s: Seq<T>, op: StackOp<T>) -> Seq<T> {
    match op {
        StackOp::Pop => if s.len() > 0 {
            seq![s.last()]
        } else {
            Seq::empty()
        },
        StackOp::Push(_) => Seq::empty(),
    }
}

/// The final contents and the values popped, in order, when `ops` run from
/// contents `s`.
pub open spec fn run<T>(s: Seq<T>, ops: Seq<StackOp<T>>) -> (Seq<T>, Seq<T>)
    decreases ops.len(),
{
    if ops.len() == 0 {
        (s, Seq::empty())
    } else {
        let rest = run(step(s, ops[0]), ops.drop_first());
        (rest.0, returned(s, ops[0]) + rest.1)
    }
}

/// What an operation that may return a value returned, as a sequence of at
/// most one value.
pub open spec fn as_returned<T>(r: Option<T>) -> Seq<T> {
    match r {
        Some(v) => seq![v],
        None => Seq::empty(),
    }
}

/// The values that the pushes of `ops` hand in, in order.
pub open spec fn pushed<T>(ops: Seq<StackOp<T>>) -> Seq<T>
    decreases ops.len(),
{
    if ops.len() == 0 {
        Seq::empty()
    } else {
        match ops[0] {
            StackOp::Push(v) => seq![v] + pushed(ops.drop_first()),
            StackOp::Pop => pushed(ops.drop_first()),
        }
    }
}

/// The node count after `op`, from count `n` and contents `s`, as `push` and
/// `pop` state it: a push allocates only when no free node is left.
pub open spec fn count_step<T>(n: nat, s: Seq<T>, op: StackOp<T>) -> nat {
    match op {
        StackOp::Push(_) => if n > s.len() {
            n
        } else {
            n + 1
        },
        StackOp::Pop => n,
    }
}

/// The node count after `ops` run from count `n` and contents `s`.
pub open spec fn count_after<T>(n: nat, s: Seq<T>, ops: Seq<StackOp<T>>) -> nat
    decreases ops.len(),
{
    if ops.len() == 0 {
        n
    } else {
        count_after(count_step(n, s, ops[0]), step(s, ops[0]), ops.drop_first())
    }
}

/// The largest number of values held at once while `ops` run from `s`.
pub open spec fn peak<T>(s: Seq<T>, ops: Seq<StackOp<T>>) -> nat
    decreases ops.len(),
{
    if ops.len() == 0 {
        s.len()
    } else {
        let later = peak(step(s, ops[0]), ops.drop_first());
        if later > s.len() {
            later
        } else {
            s.len()
        }
    }
}

/// No value is lost and none is duplicated: whatever operations run, the
/// values still held together with those popped are, as a multiset, the
/// values first held together with those pushed. In particular, once a stack
/// that started empty is empty again, the values popped are exactly the
/// values pushed.
pub proof fn lemma_values_conserved<T>(s: Seq<T>, ops: Seq<StackOp<T>>)
    ensures
        run(s, ops).0.to_multiset().add(run(s, ops).1.to_multiset()) == s.to_multiset().add(
            pushed(ops).to_multiset(),
        ),
        s.len() == 0 && run(s, ops).0.len() == 0 ==> run(s, ops).1.to_multiset()
            == pushed(ops).to_multiset(),
    decreases ops.len(),
{
    broadcast use vstd::seq_lib::group_to_multiset_ensures, vstd::multiset::group_multiset_axioms;

    if ops.len() == 0 {
        assert(Seq::<T>::empty().to_multiset() =~= Multiset::empty());
        assert(s.to_multiset().add(Multiset::empty()) =~= s.to_multiset());
    } else {
        let op = ops[0];
        let rest = ops.drop_first();
        let s1 = step(s, op);
        let r = run(s1, rest);
        lemma_values_conserved(s1, rest);
        lemma_multiset_commutative(returned(s, op), r.1);
        assert(run(s, ops) == (r.0, returned(s, op) + r.1));
        match op {
            StackOp::Push(v) => {
                lemma_multiset_commutative(seq![v], pushed(rest));
                assert(seq![v] =~= Seq::<T>::empty().push(v));
                assert(Seq::<T>::empty().to_multiset() =~= Multiset::empty());
                assert(pushed(ops) == seq![v] + pushed(rest));
                assert(returned(s, op) + r.1 =~= r.1);
                assert(s1.to_multiset() =~= s.to_multiset().insert(v));
                assert(Seq::<T>::empty().push(v).to_multiset() =~= Multiset::empty().insert(v));
                assert(pushed(ops).to_multiset() =~= Multiset::empty().insert(v).add(pushed(rest).to_multiset()));
                assert(r.0.to_multiset().add(r.1.to_multiset()) == s1.to_multiset().add(pushed(rest).to_multiset()));
                assert(run(s, ops).0 == r.0 && run(s, ops).1 == r.1);
                assert(s.to_multiset().insert(v).add(pushed(rest).to_multiset()) =~= s.to_multiset().add(
                    Multiset::empty().insert(v).add(pushed(rest).to_multiset()),
                ));
                assert(run(s, ops).0.to_multiset().add(run(s, ops).1.to_multiset()) == s.to_multiset().add(
                    pushed(ops).to_multiset(),
                ));
            },
            StackOp::Pop => {
                assert(pushed(ops) == pushed(rest));
                assert(r.0.to_multiset().add(r.1.to_multiset()) == s1.to_multiset().add(pushed(rest).to_multiset()));
                assert(Seq::<T>::empty().to_multiset() =~= Multiset::empty());
                if s.len() > 0 {
                    let x = s.last();
                    assert(s =~= s1.push(x));
                    assert(s.to_multiset() =~= s1.to_multiset().insert(x));
                    assert(seq![x] =~= Seq::<T>::empty().push(x));
                    assert(seq![x].to_multiset() =~= Multiset::empty().insert(x));
                    assert(run(s, ops).1.to_multiset() =~= Multiset::empty().insert(x).add(r.1.to_multiset()));
                    let a = r.0.to_multiset();
                    let b = r.1.to_multiset();
                    let c = s1.to_multiset();
                    let d = pushed(rest).to_multiset();
                    assert forall|y: T| #[trigger] a.add(Multiset::empty().insert(x).add(b)).count(y)
                        == c.insert(x).add(d).count(y) by {
                        assert(a.add(b).count(y) == c.add(d).count(y));
                    }
                    assert(a.add(Multiset::empty().insert(x).add(b)) =~= c.insert(x).add(d));
                } else {
                    assert(returned(s, op) + r.1 =~= r.1);
                }
            },
        }
    }
    if s.len() == 0 && run(s, ops).0.len() == 0 {
        assert(s =~= Seq::<T>::empty());
        assert(run(s, ops).0 =~= Seq::<T>::empty());
        assert(Seq::<T>::empty().to_multiset() =~= Multiset::empty());
        assert(run(s, ops).1.to_multiset() =~= pushed(ops).to_multiset());
    }
}

/// A push followed by a pop returns the value pushed and leaves the contents
/// as they were.
pub proof fn lemma_push_then_pop<T>(s: Seq<T>, v: T)
    ensures
        run(s, seq![StackOp::Push(v), StackOp::Pop]) == (s, seq![v]),
{
    let ops = seq![StackOp::Push(v), StackOp::Pop];
    assert(ops.drop_first() =~= seq![StackOp::Pop]);
    assert(ops.drop_first().drop_first() =~= Seq::<StackOp<T>>::empty());
    assert(s.push(v).drop_last() =~= s);
    assert(run(s.push(v).drop_last(), Seq::<StackOp<T>>::empty()) == (s, Seq::<T>::empty()));
    assert(returned(s.push(v), StackOp::<T>::Pop) =~= seq![v]);
    assert(seq![v] + Seq::<T>::empty() =~= seq![v]);
    assert(run(s.push(v), seq![StackOp::<T>::Pop]).1 =~= seq![v]);
    assert(Seq::<T>::empty() + seq![v] =~= seq![v]);
}

/// Nodes are allocated only as the contents grow past every earlier size:
/// from a count of at least the number of values held, the node count after
/// any operations is the larger of the first count and the peak number of
/// values held. From a new stack, it is the peak.
pub proof fn lemma_node_count_is_peak<T>(n: nat, s: Seq<T>, ops: Seq<StackOp<T>>)
    requires
        n >= s.len(),
    ensures
        count_after(n, s, ops) == (if n > peak(s, ops) {
            n
        } else {
            peak(s, ops)
        }),
        n == 0 ==> count_after(n, s, ops) == peak(s, ops),
    decreases ops.len(),
{
    if ops.len() > 0 {
        let op = ops[0];
        lemma_node_count_is_peak(count_step(n, s, op), step(s, op), ops.drop_first());
        lemma_peak_at_least(step(s, op), ops.drop_first());
    }
}

/// The peak is at least the number of values held at the start.
proof fn lemma_peak_at_least<T>(s: Seq<T>, ops: Seq<StackOp<T>>)
    ensures
        peak(s, ops) >= s.len(),
    decreases ops.len(),
{
    if ops.len() > 0 {
        lemma_peak_at_least(step(s, ops[0]), ops.drop_first());
    }
}

/// A push of each value of `xs`, in order.
pub open spec fn pushes<T>(xs: Seq<T>) -> Seq<StackOp<T>> {
    xs.map_values(|x: T| StackOp::Push(x))
}

/// `n` pops.
pub open spec fn pops<T>(n: nat) -> Seq<StackOp<T>> {
    Seq::new(n, |i: int| StackOp::Pop)
}

/// Running `a` and then `b` is running `a + b`.
proof fn lemma_run_append<T>(s: Seq<T>, a: Seq<StackOp<T>>, b: Seq<StackOp<T>>)
    ensures
        run(s, a + b) == (run(run(s, a).0, b).0, run(s, a).1 + run(run(s, a).0, b).1),
    decreases a.len(),
{
    if a.len() == 0 {
        assert(a + b =~= b);
        assert(Seq::<T>::empty() + run(s, b).1 =~= run(s, b).1);
    } else {
        assert((a + b).drop_first() =~= a.drop_first() + b);
        assert((a + b)[0] == a[0]);
        lemma_run_append(step(s, a[0]), a.drop_first(), b);
        let r = run(run(s, a).0, b).1;
        let x = returned(s, a[0]);
        let y = run(step(s, a[0]), a.drop_first()).1;
        assert(x + (y + r) =~= (x + y) + r);
    }
}

/// Pushing `xs` appends them to the contents and returns nothing.
proof fn lemma_run_pushes<T>(s: Seq<T>, xs: Seq<T>)
    ensures
        run(s, pushes(xs)) == (s + xs, Seq::<T>::empty()),
    decreases xs.len(),
{
    if xs.len() == 0 {
        assert(s + xs =~= s);
    } else {
        assert(pushes(xs).drop_first() =~= pushes(xs.drop_first()));
        lemma_run_pushes(s.push(xs[0]), xs.drop_first());
        assert(s.push(xs[0]) + xs.drop_first() =~= s + xs);
        assert(Seq::<T>::empty() + Seq::<T>::empty() =~= Seq::<T>::empty());
    }
}

/// Popping as many times as `xs` has values, from `s + xs`, returns `xs`
/// reversed and leaves `s`.
proof fn lemma_run_pops<T>(s: Seq<T>, xs: Seq<T>)
    ensures
        run(s + xs, pops(xs.len())) == (s, xs.reverse()),
    decreases xs.len(),
{
    if xs.len() == 0 {
        assert(s + xs =~= s);
        assert(xs.reverse() =~= Seq::<T>::empty());
    } else {
        let n = xs.len();
        let front = xs.drop_last();
        assert(pops::<T>(n).drop_first() =~= pops::<T>(front.len()));
        assert((s + xs).drop_last() =~= s + front);
        lemma_run_pops(s, front);
        assert(seq![xs.last()] + front.reverse() =~= xs.reverse());
    }
}

/// Last in, first out: pushing the values of `xs` and then popping as many
/// times returns them in reverse order and leaves the contents as they were.
pub proof fn lemma_pops_reverse_pushes<T>(s: Seq<T>, xs: Seq<T>)
    ensures
        run(s, pushes(xs) + pops(xs.len())) == (s, xs.reverse()),
{
    lemma_run_append(s, pushes(xs), pops(xs.len()));
    lemma_run_pushes(s, xs);
    lemma_run_pops(s, xs);
    assert(Seq::<T>::empty() + xs.reverse() =~= xs.reverse());
}

} // verus!
