use lanta::stack::NotFound;
use lanta::Stack;

fn items<T: Clone>(stack: &Stack<T>) -> Vec<T> {
    stack.iter().into_iter().cloned().collect()
}

fn stack_from_pieces<T>(before: Vec<T>, after: Vec<T>) -> Stack<T> {
    let focus = before.len();
    let mut all = before;
    all.extend(after);
    let mut stack = Stack::from(all);
    for _ in 0..focus {
        stack.focus_next();
    }
    stack
}

#[test]
fn test_from() {
    let vec = vec![1, 2, 3];
    let stack = Stack::from(vec.clone());
    assert_eq!(items(&stack), vec);
    assert_eq!(stack.focused(), Some(&vec[0]));
}

#[test]
fn test_len() {
    let stack = stack_from_pieces(vec![1, 2], vec![2, 3]);
    assert_eq!(stack.len(), 4);
}

#[test]
fn test_is_empty() {
    let stack = Stack::<u8>::default();
    assert_eq!(stack.is_empty(), true);
    let stack = stack_from_pieces(vec![1, 2], vec![]);
    assert_eq!(stack.is_empty(), false);
    let stack = stack_from_pieces(vec![], vec![3, 4]);
    assert_eq!(stack.is_empty(), false);
}

#[test]
fn test_push() {
    let mut stack = Stack::<u8>::new();
    stack.push(2);
    assert_eq!(items(&stack), vec![2]);
    assert_eq!(stack.focused(), Some(&2));
    stack.push(3);
    assert_eq!(stack.focused(), Some(&3));
    // Resulting order is also important:
    assert_eq!(items(&stack), vec![2, 3]);
}

#[test]
fn test_focused() {
    let stack = stack_from_pieces(vec![], vec![2]);
    assert_eq!(stack.focused(), Some(&2));
    let stack: Stack<u8> = stack_from_pieces(vec![], vec![]);
    assert_eq!(stack.focused(), None);
}

#[test]
fn test_remove() {
    let mut stack = Stack::<u8>::new();
    stack.push(2);
    stack.push(3);
    stack.push(4);
    let removed = stack.remove(|v| v == &3);
    assert_eq!(removed, Ok(3));
    assert_eq!(items(&stack), vec![2, 4]);
}

#[test]
fn test_remove_focused() {
    let mut stack = Stack::<u8>::new();
    stack.push(2);
    stack.push(3);
    assert_eq!(stack.focused(), Some(&3));

    let element = stack.remove_focused();
    assert_eq!(element, Some(3));
    assert_eq!(stack.focused(), Some(&2));
    assert_eq!(items(&stack), vec![2]);
}

#[test]
fn test_remove_focused_when_no_focus() {
    let mut stack = Stack::<u8>::new();
    assert_eq!(stack.focused(), None);
    let element = stack.remove_focused();
    assert_eq!(element, None);
    assert_eq!(stack.focused(), None);
}

#[test]
fn test_iter() {
    let mut stack = Stack::<u8>::new();
    stack.push(2);
    stack.push(3);
    stack.push(4);
    let mut iter = stack.iter().into_iter();
    assert_eq!(iter.next(), Some(&2));
    assert_eq!(iter.next(), Some(&3));
    assert_eq!(iter.next(), Some(&4));
    assert_eq!(iter.next(), None);
}

#[test]
fn test_set_get_focus() {
    let mut stack = Stack::<u8>::new();
    assert_eq!(stack.focused(), None);
    stack.push(2);
    stack.push(3);
    assert_eq!(stack.focused(), Some(&3));
    assert_eq!(items(&stack), vec![2, 3]);
    assert_eq!(stack.focus(|v| v == &2), Ok(()));
    assert_eq!(stack.focused(), Some(&2));
    assert_eq!(items(&stack), vec![2, 3]);
    assert_eq!(stack.focus(|v| v == &3), Ok(()));
    assert_eq!(stack.focused(), Some(&3));
    assert_eq!(items(&stack), vec![2, 3]);
}

#[test]
fn test_focus_next() {
    let vec = vec![1, 2, 3];
    let mut stack = Stack::from(vec.clone());

    // We constantly assert the order of the stack, as it's very easy
    // to write a non-order-preserving implementation!

    assert_eq!(stack.focused(), Some(&1));
    assert_eq!(items(&stack), vec);

    stack.focus_next();
    assert_eq!(stack.focused(), Some(&2));
    assert_eq!(items(&stack), vec);

    stack.focus_next();
    assert_eq!(stack.focused(), Some(&3));
    assert_eq!(items(&stack), vec);

    stack.focus_next();
    assert_eq!(stack.focused(), Some(&1));
    assert_eq!(items(&stack), vec);
}

#[test]
fn test_focus_previous() {
    let vec = vec![1, 2, 3];
    let mut stack = Stack::from(vec.clone());

    // We constantly assert the order of the stack, as it's very easy
    // to write a non-order-preserving implementation!

    assert_eq!(stack.focused(), Some(&1));
    assert_eq!(items(&stack), vec);

    stack.focus_previous();
    assert_eq!(stack.focused(), Some(&3));
    assert_eq!(items(&stack), vec);

    stack.focus_previous();
    assert_eq!(stack.focused(), Some(&2));
    assert_eq!(items(&stack), vec);

    stack.focus_previous();
    assert_eq!(stack.focused(), Some(&1));
    assert_eq!(items(&stack), vec);
}

#[test]
fn test_shuffle_next() {
    let mut stack = Stack::<u8>::new();
    stack.push(2);
    stack.push(3);
    stack.push(4);
    assert_eq!(stack.focused(), Some(&4));

    assert_eq!(items(&stack), vec![2, 3, 4]);
    stack.shuffle_next();
    assert_eq!(items(&stack), vec![4, 2, 3]);
    stack.shuffle_next();
    assert_eq!(items(&stack), vec![2, 4, 3]);
    stack.shuffle_next();
    assert_eq!(items(&stack), vec![2, 3, 4]);
}

#[test]
fn test_shuffle_previous() {
    let mut stack = Stack::<u8>::new();
    stack.push(2);
    stack.push(3);
    stack.push(4);
    assert_eq!(stack.focused(), Some(&4));

    assert_eq!(items(&stack), vec![2, 3, 4]);
    stack.shuffle_previous();
    assert_eq!(items(&stack), vec![2, 4, 3]);
    stack.shuffle_previous();
    assert_eq!(items(&stack), vec![4, 2, 3]);
    println!("current: {:?}", stack);
    stack.shuffle_previous();
    assert_eq!(items(&stack), vec![2, 3, 4]);
}

#[test]
fn test_remove_not_found_leaves_stack() {
    let mut stack = Stack::from(vec![1u8, 2, 3]);
    stack.focus_next();
    assert_eq!(stack.remove(|v| v == &9), Err(NotFound));
    assert_eq!(items(&stack), vec![1, 2, 3]);
    assert_eq!(stack.focused(), Some(&2));
}

#[test]
fn test_focus_not_found_leaves_stack() {
    let mut stack = Stack::from(vec![1u8, 2, 3]);
    assert_eq!(stack.focus(|v| v == &9), Err(NotFound));
    assert_eq!(items(&stack), vec![1, 2, 3]);
    assert_eq!(stack.focused(), Some(&1));
}

#[test]
fn test_remove_takes_first_match() {
    let mut stack = Stack::from(vec![5u8, 7, 5, 8]);
    assert_eq!(stack.remove(|v| v == &5), Ok(5));
    assert_eq!(items(&stack), vec![7, 5, 8]);
    // The focused element has left: focus is on the next one.
    assert_eq!(stack.focused(), Some(&7));
}

#[test]
fn test_remove_focused_last_moves_focus_back() {
    let mut stack = Stack::from(vec![1u8, 2, 3]);
    assert_eq!(stack.focus(|v| v == &3), Ok(()));
    assert_eq!(stack.remove(|v| v == &3), Ok(3));
    assert_eq!(stack.focused(), Some(&2));
    assert_eq!(items(&stack), vec![1, 2]);
}

#[test]
fn test_remove_before_focus_keeps_focused_element() {
    let mut stack = Stack::from(vec![1u8, 2, 3]);
    assert_eq!(stack.focus(|v| v == &3), Ok(()));
    assert_eq!(stack.remove(|v| v == &1), Ok(1));
    assert_eq!(stack.focused(), Some(&3));
    assert_eq!(stack.focused_index(), Some(1));
}

#[test]
fn test_focused_is_some_iff_not_empty() {
    let mut stack = Stack::<u8>::new();
    assert!(stack.focused().is_none());
    stack.push(1);
    assert!(stack.focused().is_some());
    stack.push(2);
    stack.shuffle_next();
    stack.focus_previous();
    assert!(stack.focused().is_some());
    stack.remove_focused();
    assert!(stack.focused().is_some());
    stack.remove_focused();
    assert!(stack.focused().is_none());
    assert!(stack.is_empty());
}

#[test]
fn test_focus_next_then_previous_is_identity() {
    for focus in 0..4usize {
        let mut stack = stack_from_pieces(vec![1u8, 2, 3, 4][..focus].to_vec(), vec![1u8, 2, 3, 4][focus..].to_vec());
        let before = stack.focused_index();
        stack.focus_next();
        stack.focus_previous();
        assert_eq!(stack.focused_index(), before);
        stack.focus_previous();
        stack.focus_next();
        assert_eq!(stack.focused_index(), before);
        assert_eq!(items(&stack), vec![1, 2, 3, 4]);
    }
    let mut single = Stack::from(vec![7u8]);
    single.focus_next();
    single.focus_previous();
    assert_eq!(single.focused(), Some(&7));
}

#[test]
fn test_shuffle_next_full_cycle_is_identity() {
    let mut stack = Stack::from(vec![1u8, 2, 3, 4, 5]);
    stack.focus_next();
    for _ in 0..5 {
        stack.shuffle_next();
        assert_eq!(stack.focused(), Some(&2));
    }
    assert_eq!(items(&stack), vec![1, 2, 3, 4, 5]);
    assert_eq!(stack.focused_index(), Some(1));
}

#[test]
fn test_push_then_remove_restores_order() {
    let mut stack = Stack::from(vec![1u8, 2, 3]);
    stack.push(9);
    assert_eq!(stack.remove(|v| v == &9), Ok(9));
    assert_eq!(items(&stack), vec![1, 2, 3]);
    // The pushed element was focused and had no next: focus is on the last.
    assert_eq!(stack.focused(), Some(&3));

    let mut last_focused = Stack::from(vec![1u8, 2, 3]);
    last_focused.focus_previous();
    last_focused.push(9);
    assert_eq!(last_focused.remove(|v| v == &9), Ok(9));
    assert_eq!(last_focused.focused(), Some(&3));
    assert_eq!(items(&last_focused), vec![1, 2, 3]);
}

#[test]
fn test_iter_yields_pushed_and_not_removed() {
    let mut stack = Stack::<u8>::new();
    for value in [4u8, 5, 6, 7] {
        stack.push(value);
    }
    stack.focus_next();
    assert_eq!(stack.remove(|v| v == &5), Ok(5));
    stack.focus_previous();
    assert_eq!(items(&stack), vec![4, 6, 7]);
    stack.shuffle_previous();
    let mut sorted = items(&stack);
    sorted.sort();
    assert_eq!(sorted, vec![4, 6, 7]);
}

#[test]
fn test_focused_mut_and_get_mut_write_in_place() {
    let mut stack = Stack::from(vec![1u8, 2, 3]);
    stack.focus_next();
    if let Some(focused) = stack.focused_mut() {
        *focused = 20;
    }
    if let Some(first) = stack.get_mut(0) {
        *first = 10;
    }
    if let Some(last) = stack.get_mut(2) {
        *last = 30;
    }
    assert!(stack.get_mut(3).is_none());
    assert_eq!(items(&stack), vec![10, 20, 30]);
    assert_eq!(stack.get(1), Some(&20));
    assert_eq!(stack.get(3), None);
    assert_eq!(stack.checked_len(), Some(3));
}

#[test]
fn test_shuffle_on_small_stacks() {
    let mut empty = Stack::<u8>::new();
    empty.shuffle_next();
    empty.shuffle_previous();
    empty.focus_next();
    empty.focus_previous();
    assert!(empty.is_empty());
    let mut single = Stack::from(vec![1u8]);
    single.shuffle_next();
    single.shuffle_previous();
    assert_eq!(items(&single), vec![1]);
    assert_eq!(single.focused(), Some(&1));
    let mut first = Stack::from(vec![1u8, 2, 3]);
    first.shuffle_previous();
    assert_eq!(items(&first), vec![2, 3, 1]);
    assert_eq!(first.focused(), Some(&1));
}

#[test]
fn test_clone_keeps_order_and_focus() {
    let mut stack = Stack::from(vec![1u8, 2, 3]);
    stack.focus_next();
    let copy = stack.clone();
    assert_eq!(items(&copy), vec![1, 2, 3]);
    assert_eq!(copy.focused(), Some(&2));
    assert_eq!(copy, stack);
}
