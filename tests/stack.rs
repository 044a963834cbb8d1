use concurrent_stack::ConcurrentStack;
use concurrent_stack::StampedSlot;

#[test]
fn lock_free_stack_single_thread() {
    let mut stack = ConcurrentStack::new();
    stack.push(1);
    stack.push(2);
    stack.push(3);
    assert_eq!(stack.pop(), Some(3));
    assert_eq!(stack.pop(), Some(2));
    stack.push(4);
    assert_eq!(stack.pop(), Some(4));
    assert_eq!(stack.pop(), Some(1));
}

#[test]
fn store_uncopyable() {
    let mut stack = ConcurrentStack::new();
    stack.push(Box::new(1));
    stack.push(Box::new(2));
    stack.push(Box::new(3));
    assert_eq!(*stack.pop().unwrap(), 3);
    assert_eq!(*stack.pop().unwrap(), 2);
    assert_eq!(*stack.pop().unwrap(), 1);
}

#[test]
fn lifo_order_of_three() {
    let mut stack = ConcurrentStack::new();
    stack.push('a');
    stack.push('b');
    stack.push('c');
    assert_eq!(stack.pop(), Some('c'));
    assert_eq!(stack.pop(), Some('b'));
    assert_eq!(stack.pop(), Some('a'));
    assert_eq!(stack.pop(), None);
}

#[test]
fn new_stack_is_empty() {
    let mut stack: ConcurrentStack<u32> = ConcurrentStack::new();
    assert!(stack.empty());
    assert_eq!(stack.pop(), None);
    assert!(stack.empty());
}

#[test]
fn empty_follows_pushes_and_pops() {
    let mut stack = ConcurrentStack::new();
    stack.push(7u8);
    assert!(!stack.empty());
    assert_eq!(stack.pop(), Some(7));
    assert!(stack.empty());
}

#[test]
fn producers_sum_interleaved() {
    let mut stack = ConcurrentStack::new();
    let mut sum: u64 = 0;
    for i in 0..100u64 {
        for _producer in 0..10 {
            stack.push(i);
        }
        if i % 3 == 0 {
            if let Some(v) = stack.pop() {
                sum += v;
            }
        }
    }
    while let Some(v) = stack.pop() {
        sum += v;
    }
    assert_eq!(sum, 49500);
    assert!(stack.empty());
}

#[test]
fn popped_values_are_the_pushed_values() {
    let mut stack = ConcurrentStack::new();
    let mut popped = Vec::new();
    for v in [5, 3, 5, 9, 1] {
        stack.push(v);
    }
    popped.push(stack.pop().unwrap());
    stack.push(4);
    stack.push(3);
    while let Some(v) = stack.pop() {
        popped.push(v);
    }
    popped.sort();
    assert_eq!(popped, vec![1, 3, 3, 4, 5, 5, 9]);
}

#[test]
fn moved_values_keep_identity() {
    let mut stack = ConcurrentStack::new();
    let first = Box::new(String::from("first"));
    let second = Box::new(String::from("second"));
    let first_addr = format!("{:p}", &*first);
    let second_addr = format!("{:p}", &*second);
    stack.push(first);
    stack.push(second);
    let out_second = stack.pop().unwrap();
    let out_first = stack.pop().unwrap();
    assert_eq!(format!("{:p}", &*out_second), second_addr);
    assert_eq!(format!("{:p}", &*out_first), first_addr);
    assert_eq!(*out_second, "second");
    assert_eq!(*out_first, "first");
    assert_eq!(stack.pop(), None);
}

#[test]
fn destroy_releases_every_pushed_node_once() {
    let mut stack = ConcurrentStack::new();
    for v in 0..5 {
        stack.push(v);
    }
    let mut released = stack.destroy();
    assert_eq!(released.len(), 5);
    released.sort();
    released.dedup();
    assert_eq!(released, vec![0, 1, 2, 3, 4]);
}

#[test]
fn destroy_of_new_stack_releases_nothing() {
    let stack: ConcurrentStack<String> = ConcurrentStack::new();
    assert_eq!(stack.destroy(), Vec::<usize>::new());
}

#[test]
fn nodes_are_reused_from_trash() {
    let mut stack = ConcurrentStack::new();
    stack.push(1);
    stack.push(2);
    stack.push(3);
    stack.pop();
    stack.pop();
    stack.pop();
    stack.push(4);
    stack.push(5);
    assert_eq!(stack.pop(), Some(5));
    stack.push(6);
    let released = stack.destroy();
    assert_eq!(released.len(), 3);
}

#[test]
fn node_count_follows_peak() {
    let mut stack = ConcurrentStack::new();
    stack.push(1);
    stack.pop();
    stack.push(2);
    stack.push(3);
    stack.pop();
    stack.push(4);
    stack.push(5);
    let released = stack.destroy();
    assert_eq!(released.len(), 3);
}

#[test]
fn destroy_visits_live_chain_then_trash() {
    let mut stack = ConcurrentStack::new();
    stack.push(10);
    stack.push(20);
    stack.push(30);
    assert_eq!(stack.pop(), Some(30));
    let released = stack.destroy();
    assert_eq!(released, vec![1, 0, 2]);
}

#[test]
fn slot_starts_null_with_stamp_zero() {
    let slot = StampedSlot::new();
    assert_eq!(slot.load(), (None, 0));
}

#[test]
fn slot_exchange_succeeds_on_match() {
    let mut slot = StampedSlot::new();
    assert_eq!(slot.compare_exchange((None, 0), Some(4)), Ok((None, 0)));
    assert_eq!(slot.load(), (Some(4), 1));
    assert_eq!(slot.compare_exchange((Some(4), 1), Some(4)), Ok((Some(4), 1)));
    assert_eq!(slot.load(), (Some(4), 2));
}

#[test]
fn slot_exchange_fails_on_stale_stamp() {
    let mut slot = StampedSlot::new();
    assert_eq!(slot.compare_exchange((None, 0), Some(2)), Ok((None, 0)));
    assert_eq!(slot.compare_exchange((None, 1), None), Err((Some(2), 1)));
    assert_eq!(slot.compare_exchange((Some(2), 0), None), Err((Some(2), 1)));
    assert_eq!(slot.load(), (Some(2), 1));
}

#[test]
fn slot_stamp_wraps_to_zero() {
    let mut slot = StampedSlot { address: Some(1), stamp: usize::MAX };
    assert_eq!(slot.compare_exchange((Some(1), usize::MAX), None), Ok((Some(1), usize::MAX)));
    assert_eq!(slot.load(), (None, 0));
}

#[test]
fn push_advances_top_stamp_each_time() {
    let mut slot = StampedSlot::new();
    for k in 0..3usize {
        let (p, v) = slot.load();
        assert_eq!(v, k);
        assert!(slot.compare_exchange((p, v), Some(k)).is_ok());
    }
    assert_eq!(slot.load(), (Some(2), 3));
}

#[test]
fn push_then_pop_restores_contents() {
    let mut stack = ConcurrentStack::new();
    stack.push(8);
    stack.push(9);
    stack.push(42);
    assert_eq!(stack.pop(), Some(42));
    assert_eq!(stack.pop(), Some(9));
    assert_eq!(stack.pop(), Some(8));
    assert!(stack.empty());
}

#[test]
fn pops_reverse_a_run_of_pushes() {
    let mut stack = ConcurrentStack::new();
    let xs = vec![3, 1, 4, 1, 5, 9, 2, 6];
    for x in xs.iter() {
        stack.push(*x);
    }
    let mut out = Vec::new();
    for _ in 0..xs.len() {
        out.push(stack.pop().unwrap());
    }
    assert_eq!(out, vec![6, 2, 9, 5, 1, 4, 1, 3]);
    assert!(stack.empty());
}
