//! A stack of elements that remembers which of them is focused.

use std::collections::VecDeque;
use vstd::multiset::Multiset;
use vstd::prelude::*;

verus! {

/// What a [`Stack`] holds: its elements in order, and the position of the focus.
pub struct StackView<T> {
    /// The elements in order, whatever is focused.
    pub items: Seq<T>,
    /// The position of the focused element in `items`; 0 in an empty stack.
    pub focus: int,
}

impl<T> StackView<T> {
    /// A non-empty stack has its focus on one of its elements.
    pub open spec fn wf(self) -> bool {
        &&& 0 <= self.focus
        &&& self.items.len() > 0 ==> self.focus < self.items.len()
        &&& self.items.len() == 0 ==> self.focus == 0
    }

    pub open spec fn len(self) -> nat {
        self.items.len()
    }

    pub open spec fn empty() -> Self {
        StackView { items: Seq::empty(), focus: 0 }
    }

    /// The stack that holds `items` with its first element focused.
    pub open spec fn from_seq(items: Seq<T>) -> Self {
        StackView { items, focus: 0 }
    }

    /// The focused element, if there is one.
    pub open spec fn focused(self) -> Option<T> {
        if self.items.len() > 0 {
            Some(self.items[self.focus])
        } else {
            None
        }
    }

    /// `value` is appended and focused.
    pub open spec fn push(self, value: T) -> Self {
        StackView { items: self.items.push(value), focus: self.items.len() as int }
    }

    /// The focus is on the element at `index`; the order is unchanged.
    pub open spec fn focus_at(self, index: int) -> Self {
        StackView { items: self.items, focus: index }
    }

    /// The element at `index` is `value`; order and focus are unchanged.
    pub open spec fn replace_at(self, index: int, value: T) -> Self {
        StackView { items: self.items.update(index, value), focus: self.focus }
    }

    /// Where the focus is once the element at `index` has left a stack of `len`
    /// elements focused at `focus`: on the same element, unless that is the one
    /// that left; then on the next, or on the previous where there is no next.
    pub open spec fn focus_after_removal(focus: int, index: int, len: int) -> int {
        if index < focus {
            focus - 1
        } else if index == focus && index == len - 1 && focus > 0 {
            focus - 1
        } else {
            focus
        }
    }

    /// The element at `index` has left.
    pub open spec fn remove_at(self, index: int) -> Self {
        StackView {
            items: self.items.remove(index),
            focus: Self::focus_after_removal(self.focus, index, self.items.len() as int),
        }
    }

    /// The focused element has left, if there was one.
    pub open spec fn remove_focused(self) -> Self {
        if self.items.len() > 0 {
            self.remove_at(self.focus)
        } else {
            self
        }
    }

    /// The position that follows `self.focus`; after the last comes the first.
    pub open spec fn next_index(self) -> int {
        if self.focus + 1 < self.items.len() {
            self.focus + 1
        } else {
            0
        }
    }

    /// The position that precedes `self.focus`; before the first comes the last.
    pub open spec fn previous_index(self) -> int {
        if self.focus > 0 {
            self.focus - 1
        } else if self.items.len() > 0 {
            self.items.len() - 1
        } else {
            0
        }
    }

    /// The focus has moved to the next element, cyclically.
    pub open spec fn focus_next(self) -> Self {
        self.focus_at(self.next_index())
    }

    /// The focus has moved to the previous element, cyclically.
    pub open spec fn focus_previous(self) -> Self {
        self.focus_at(self.previous_index())
    }

    /// The focused element stands at `index` and is still focused; the others
    /// keep their order.
    pub open spec fn move_focused_to(self, index: int) -> Self {
        if self.items.len() == 0 {
            self
        } else {
            StackView {
                items: self.items.remove(self.focus).insert(index, self.items[self.focus]),
                focus: index,
            }
        }
    }

    /// The focused element has moved one position on, cyclically.
    pub open spec fn shuffle_next(self) -> Self {
        self.move_focused_to(self.next_index())
    }

    /// The focused element has moved one position back, cyclically.
    pub open spec fn shuffle_previous(self) -> Self {
        self.move_focused_to(self.previous_index())
    }
}

/// `index` is the first position of `items` at which `p` answered `true`: it
/// answered `false` at every position before.
pub open spec fn is_first_match<T, P: Fn(&T) -> bool>(p: P, items: Seq<T>, index: int) -> bool {
    &&& 0 <= index < items.len()
    &&& call_ensures(p, (&items[index],), true)
    &&& forall|j: int| 0 <= j < index ==> call_ensures(p, (&#[trigger] items[j],), false)
}

/// `p` answered `false` at every position of `items`.
pub open spec fn no_match<T, P: Fn(&T) -> bool>(p: P, items: Seq<T>) -> bool {
    forall|j: int| 0 <= j < items.len() ==> call_ensures(p, (&#[trigger] items[j],), false)
}

/// `p` may be called on every element of `items`.
pub open spec fn callable_on<T, P: Fn(&T) -> bool>(p: P, items: Seq<T>) -> bool {
    forall|j: int| 0 <= j < items.len() ==> call_requires(p, (&#[trigger] items[j],))
}

/// What `p` answered on two sequences says what it answered on the two in a row.
proof fn lemma_split_predicate<T, P: Fn(&T) -> bool>(p: P, front: Seq<T>, back: Seq<T>)
    ensures
        callable_on(p, front + back) ==> callable_on(p, front) && callable_on(p, back),
        forall|index: int| #[trigger]
            is_first_match(p, front, index) ==> is_first_match(p, front + back, index),
        forall|index: int|
            no_match(p, front) && #[trigger] is_first_match(p, back, index) ==> is_first_match(
                p,
                front + back,
                front.len() + index,
            ),
        no_match(p, front) && no_match(p, back) ==> no_match(p, front + back),
{
    let whole = front + back;
    assert forall|j: int| 0 <= j < front.len() implies whole[j] == front[j] by {}
    assert forall|j: int| 0 <= j < back.len() implies whole[front.len() + j] == back[j] by {}
    if callable_on(p, whole) {
        assert forall|j: int| 0 <= j < front.len() implies call_requires(
            p,
            (&#[trigger] front[j],),
        ) by {
            assert(whole[j] == front[j]);
        }
        assert forall|j: int| 0 <= j < back.len() implies call_requires(
            p,
            (&#[trigger] back[j],),
        ) by {
            assert(whole[front.len() + j] == back[j]);
        }
    }
    assert forall|index: int| #[trigger]
        is_first_match(p, front, index) implies is_first_match(p, whole, index) by {
        assert(whole[index] == front[index]);
        assert forall|j: int| 0 <= j < index implies call_ensures(
            p,
            (&#[trigger] whole[j],),
            false,
        ) by {
            assert(whole[j] == front[j]);
        }
    }
    assert forall|index: int|
        no_match(p, front) && #[trigger] is_first_match(p, back, index) implies is_first_match(
        p,
        whole,
        front.len() + index,
    ) by {
        assert(whole[front.len() + index] == back[index]);
        assert forall|j: int| 0 <= j < front.len() + index implies call_ensures(
            p,
            (&#[trigger] whole[j],),
            false,
        ) by {
            if j < front.len() {
                assert(whole[j] == front[j]);
            } else {
                assert(whole[front.len() + (j - front.len())] == back[j - front.len()]);
            }
        }
    }
    if no_match(p, front) && no_match(p, back) {
        assert forall|j: int| 0 <= j < whole.len() implies call_ensures(
            p,
            (&#[trigger] whole[j],),
            false,
        ) by {
            if j < front.len() {
                assert(whole[j] == front[j]);
            } else {
                assert(whole[front.len() + (j - front.len())] == back[j - front.len()]);
            }
        }
    }
}

/// Writing into the first of two sequences in a row writes into the row.
proof fn lemma_update_front<T>(front: Seq<T>, back: Seq<T>, index: int)
    requires
        0 <= index < front.len(),
    ensures
        forall|value: T| #[trigger]
            front.update(index, value) + back == (front + back).update(index, value),
{
    assert forall|value: T| #[trigger]
        front.update(index, value) + back == (front + back).update(index, value) by {
        assert(front.update(index, value) + back =~= (front + back).update(index, value));
    }
}

/// Writing into the second of two sequences in a row writes into the row.
proof fn lemma_update_back<T>(front: Seq<T>, back: Seq<T>, index: int)
    requires
        0 <= index,
    ensures
        forall|value: T|
            index < back.len() ==> front + #[trigger] back.update(index, value) == (front
                + back).update(front.len() + index, value),
{
    assert forall|value: T| index < back.len() implies front + #[trigger] back.update(index, value)
        == (front + back).update(front.len() + index, value) by {
        assert(front + back.update(index, value) =~= (front + back).update(
            front.len() + index,
            value,
        ));
    }
}

/// Where `p` accepts exactly the elements whose key is `wanted`, the first
/// element that it accepted is the first with that key.
pub proof fn lemma_first_match_by_key<T, K, P: Fn(&T) -> bool>(
    p: P,
    items: Seq<T>,
    key: spec_fn(T) -> K,
    wanted: K,
    index: int,
)
    requires
        forall|element: &T, accepted: bool|
            call_ensures(p, (element,), accepted) ==> accepted == (key(*element) == wanted),
        is_first_match(p, items, index),
    ensures
        items.map_values(key).index_of_first(wanted) == Some(index),
{
    let keys = items.map_values(key);
    assert(keys[index] == wanted);
    keys.index_of_first_ensures(wanted);
    let first = keys.index_of_first(wanted)->0;
    if first < index {
        assert(call_ensures(p, (&items[first],), false));
    } else if index < first {
        assert(keys[index] != wanted);
    }
}

/// Where `p` accepts exactly the elements whose key is `wanted` and accepted
/// none, no element has that key.
pub proof fn lemma_no_match_by_key<T, K, P: Fn(&T) -> bool>(
    p: P,
    items: Seq<T>,
    key: spec_fn(T) -> K,
    wanted: K,
)
    requires
        forall|element: &T, accepted: bool|
            call_ensures(p, (element,), accepted) ==> accepted == (key(*element) == wanted),
        no_match(p, items),
    ensures
        items.map_values(key).index_of_first(wanted) is None,
{
    let keys = items.map_values(key);
    keys.index_of_first_ensures(wanted);
    if keys.contains(wanted) {
        let at = choose|at: int| 0 <= at < keys.len() && keys[at] == wanted;
        assert(call_ensures(p, (&items[at],), false));
    }
}

/// No element of the stack was accepted by the predicate.
#[derive(Debug, Clone, Copy, PartialEq, Eq)]
pub struct NotFound;

/// A finite ordered sequence in which, unless it is empty, exactly one element is
/// focused.
///
/// The order of the elements and the position of the focus move independently:
/// [`Stack::shuffle_next`] and [`Stack::shuffle_previous`] move the focused
/// element, [`Stack::focus_next`] and [`Stack::focus_previous`] move the focus.
///
/// The elements are kept as a zipper: `after` starts with the focused element
/// and `before` holds what precedes it.
#[derive(Debug, PartialEq)]
pub struct Stack<T> {
    before: VecDeque<T>,
    after: VecDeque<T>,
}

/// `VecDeque::get_mut` of std: a mutable reference to the element at `index`,
/// or `None` where `index` is out of bounds. Whatever is written through the
/// reference is what the deque then holds at `index`; nothing else changes.
#[verifier::external_body]
fn deque_get_mut<T>(deque: &mut VecDeque<T>, index: usize) -> (slot: Option<&mut T>)
    ensures
        match slot {
            Some(element) => {
                &&& index < old(deque)@.len()
                &&& *element == old(deque)@[index as int]
                &&& final(deque)@ == old(deque)@.update(index as int, *final(element))
            },
            None => index >= old(deque)@.len() && final(deque)@ == old(deque)@,
        },
{
    deque.get_mut(index)
}

impl<T> View for Stack<T> {
    type V = StackView<T>;

    closed spec fn view(&self) -> StackView<T> {
        StackView { items: self.before@ + self.after@, focus: self.before@.len() as int }
    }
}

impl<T> Stack<T> {
    /// A non-empty stack has its focus on one of its elements.
    pub open spec fn wf(&self) -> bool {
        self@.wf()
    }

    pub fn new() -> (stack: Stack<T>)
        ensures
            stack.wf(),
            stack@ == StackView::<T>::empty(),
    {
        Stack { before: VecDeque::new(), after: VecDeque::new() }
    }

    /// Returns the number of elements in the stack.
    pub fn len(&self) -> (n: usize)
        requires
            self@.len() <= usize::MAX,
        ensures
            n == self@.len(),
    {
        self.before.len() + self.after.len()
    }

    /// Returns whether the stack is empty.
    pub fn is_empty(&self) -> (empty: bool)
        ensures
            empty == (self@.len() == 0),
    {
        self.before.len() == 0 && self.after.len() == 0
    }

    /// Adds an element to the stack (at the end) and focuses it.
    pub fn push(&mut self, value: T)
        ensures
            final(self).wf(),
            final(self)@ == old(self)@.push(value),
    {
        self.before.append(&mut self.after);
        self.after.push_front(value);
        assert(self@.items =~= old(self)@.items.push(value));
    }

    /// Returns a reference to the focused element.
    pub fn focused(&self) -> (focused: Option<&T>)
        requires
            self.wf(),
        ensures
            focused is Some <==> self@.len() > 0,
            match focused {
                Some(element) => self@.focused() == Some(*element),
                None => self@.focused() is None,
            },
    {
        if self.after.len() > 0 {
            Some(&self.after[0])
        } else {
            None
        }
    }

    /// Returns the position of the focused element.
    pub fn focused_index(&self) -> (index: Option<usize>)
        requires
            self.wf(),
        ensures
            match index {
                Some(index) => self@.len() > 0 && index == self@.focus,
                None => self@.len() == 0,
            },
    {
        if self.after.len() > 0 {
            Some(self.before.len())
        } else {
            None
        }
    }

    /// Returns a mutable reference to the focused element.
    pub fn focused_mut(&mut self) -> (focused: Option<&mut T>)
        requires
            old(self).wf(),
        ensures
            focused is Some <==> old(self)@.len() > 0,
            match focused {
                Some(element) => {
                    &&& old(self)@.focused() == Some(*element)
                    &&& final(self)@ == old(self)@.replace_at(old(self)@.focus, *final(element))
                },
                None => final(self)@ == old(self)@,
            },
    {
        proof {
            lemma_update_back(self.before@, self.after@, 0);
        }
        deque_get_mut(&mut self.after, 0)
    }

    /// Returns a reference to the element at `index`, whatever is focused.
    pub fn get(&self, index: usize) -> (found: Option<&T>)
        ensures
            match found {
                Some(element) => index < self@.len() && *element == self@.items[index as int],
                None => index >= self@.len(),
            },
    {
        if index < self.before.len() {
            Some(&self.before[index])
        } else if index - self.before.len() < self.after.len() {
            Some(&self.after[index - self.before.len()])
        } else {
            None
        }
    }

    /// Returns a mutable reference to the element at `index`, whatever is focused.
    pub fn get_mut(&mut self, index: usize) -> (found: Option<&mut T>)
        ensures
            match found {
                Some(element) => {
                    &&& index < old(self)@.len()
                    &&& *element == old(self)@.items[index as int]
                    &&& final(self)@ == old(self)@.replace_at(index as int, *final(element))
                },
                None => index >= old(self)@.len() && final(self)@ == old(self)@,
            },
    {
        if index < self.before.len() {
            proof {
                lemma_update_front(self.before@, self.after@, index as int);
            }
            deque_get_mut(&mut self.before, index)
        } else {
            proof {
                lemma_update_back(self.before@, self.after@, index - self.before@.len());
            }
            deque_get_mut(&mut self.after, index - self.before.len())
        }
    }

    /// Returns the number of elements in the stack, or `None` where it is more
    /// than a `usize` holds.
    pub fn checked_len(&self) -> (n: Option<usize>)
        ensures
            match n {
                Some(n) => n == self@.len(),
                None => self@.len() > usize::MAX,
            },
    {
        self.before.len().checked_add(self.after.len())
    }

    // If there is no element focused, try to focus the last element.
    fn ensure_after_not_empty(&mut self)
        ensures
            final(self).wf(),
            final(self)@.items == old(self)@.items,
            final(self)@.focus == if old(self)@.focus == old(self)@.len() && old(self)@.focus > 0 {
                old(self)@.focus - 1
            } else {
                old(self)@.focus
            },
    {
        if self.after.len() == 0 && self.before.len() > 0 {
            let last = self.before.pop_back();
            match last {
                Some(element) => self.after.push_front(element),
                None => {},
            }
        }
        assert(self@.items =~= old(self)@.items);
    }

    /// Removes and returns the focused element (if any), shifting focus to the
    /// next element, or to the previous one where there is no next.
    pub fn remove_focused(&mut self) -> (removed: Option<T>)
        requires
            old(self).wf(),
        ensures
            final(self).wf(),
            removed == old(self)@.focused(),
            final(self)@ == old(self)@.remove_focused(),
    {
        let removed = self.after.pop_front();
        assert(removed is Some ==> self@.items =~= old(self)@.items.remove(old(self)@.focus));
        self.ensure_after_not_empty();
        removed
    }

    /// Returns the position of the first element of `deque` that `p` accepts.
    fn position<P: Fn(&T) -> bool>(deque: &VecDeque<T>, p: &P) -> (found: Option<usize>)
        requires
            callable_on(*p, deque@),
        ensures
            match found {
                Some(index) => is_first_match(*p, deque@, index as int),
                None => no_match(*p, deque@),
            },
    {
        let mut index: usize = 0;
        while index < deque.len()
            invariant
                index <= deque@.len(),
                callable_on(*p, deque@),
                forall|j: int| 0 <= j < index ==> call_ensures(*p, (&#[trigger] deque@[j],), false),
            decreases deque@.len() - index,
        {
            if p(&deque[index]) {
                return Some(index);
            }
            index = index + 1;
        }
        None
    }

    /// Removes and returns the first element matching the predicate.
    ///
    /// If the removed element is currently focused, focus shifts to the next
    /// element, or to the previous one where there is no next. Where no element
    /// matches, the stack is left as it was.
    pub fn remove<P: Fn(&T) -> bool>(&mut self, p: P) -> (removed: Result<T, NotFound>)
        requires
            old(self).wf(),
            callable_on(p, old(self)@.items),
        ensures
            final(self).wf(),
            match removed {
                Ok(value) => exists|index: int|
                    {
                        &&& is_first_match(p, old(self)@.items, index)
                        &&& value == old(self)@.items[index]
                        &&& final(self)@ == old(self)@.remove_at(index)
                    },
                Err(_) => no_match(p, old(self)@.items) && final(self)@ == old(self)@,
            },
    {
        proof {
            lemma_split_predicate(p, self.before@, self.after@);
        }
        if let Some(position) = Self::position(&self.before, &p) {
            match self.before.remove(position) {
                Some(value) => {
                    proof {
                        let index = position as int;
                        assert(self@.items =~= old(self)@.items.remove(index));
                        assert(is_first_match(p, old(self)@.items, index));
                        assert(self@.focus == old(self)@.remove_at(index).focus);
                        assert(self@ == old(self)@.remove_at(index));
                    }
                    Ok(value)
                },
                None => Err(NotFound),
            }
        } else if let Some(position) = Self::position(&self.after, &p) {
            match self.after.remove(position) {
                Some(value) => {
                    proof {
                        let index = old(self)@.focus + position;
                        assert(self@.items =~= old(self)@.items.remove(index));
                        assert(is_first_match(p, old(self)@.items, index));
                    }
                    self.ensure_after_not_empty();
                    proof {
                        let index = old(self)@.focus + position;
                        assert(self@.items == old(self)@.remove_at(index).items);
                        assert(self@.focus == old(self)@.remove_at(index).focus);
                        assert(self@ == old(self)@.remove_at(index));
                    }
                    Ok(value)
                },
                None => Err(NotFound),
            }
        } else {
            Err(NotFound)
        }
    }

    /// Focuses the first element in the stack that matches the predicate. Where
    /// no element matches, the stack is left as it was.
    pub fn focus<P: Fn(&T) -> bool>(&mut self, p: P) -> (found: Result<(), NotFound>)
        requires
            old(self).wf(),
            callable_on(p, old(self)@.items),
        ensures
            final(self).wf(),
            match found {
                Ok(_) => exists|index: int|
                    {
                        &&& is_first_match(p, old(self)@.items, index)
                        &&& final(self)@ == old(self)@.focus_at(index)
                    },
                Err(_) => no_match(p, old(self)@.items) && final(self)@ == old(self)@,
            },
    {
        proof {
            lemma_split_predicate(p, self.before@, self.after@);
        }
        if let Some(position) = Self::position(&self.before, &p) {
            while self.before.len() > position
                invariant
                    position <= self.before@.len(),
                    self.before@ + self.after@ == old(self)@.items,
                decreases self.before@.len(),
            {
                match self.before.pop_back() {
                    Some(element) => self.after.push_front(element),
                    None => {},
                }
                assert(self.before@ + self.after@ =~= old(self)@.items);
            }
            assert(is_first_match(p, old(self)@.items, position as int));
            assert(self@ == old(self)@.focus_at(position as int));
            Ok(())
        } else if let Some(position) = Self::position(&self.after, &p) {
            let mut moved: usize = 0;
            while moved < position
                invariant
                    moved <= position,
                    position < old(self)@.items.len() - old(self)@.focus,
                    self.before@.len() == old(self)@.focus + moved,
                    self.before@ + self.after@ == old(self)@.items,
                decreases position - moved,
            {
                match self.after.pop_front() {
                    Some(element) => self.before.push_back(element),
                    None => {},
                }
                moved = moved + 1;
                assert(self.before@ + self.after@ =~= old(self)@.items);
            }
            assert(is_first_match(p, old(self)@.items, old(self)@.focus + position));
            assert(self@ == old(self)@.focus_at(old(self)@.focus + position));
            Ok(())
        } else {
            Err(NotFound)
        }
    }

    /// Shifts focus to the next element.
    pub fn focus_next(&mut self)
        requires
            old(self).wf(),
        ensures
            final(self).wf(),
            final(self)@ == old(self)@.focus_next(),
    {
        if self.before.len() == 0 && self.after.len() < 2 {
            return ;
        }
        match self.after.pop_front() {
            Some(element) => self.before.push_back(element),
            None => {},
        }
        assert(self@.items =~= old(self)@.items);
        if self.after.len() == 0 {
            std::mem::swap(&mut self.after, &mut self.before);
            assert(self@.items =~= old(self)@.items);
        }
    }

    /// Shifts focus to the previous element.
    pub fn focus_previous(&mut self)
        requires
            old(self).wf(),
        ensures
            final(self).wf(),
            final(self)@ == old(self)@.focus_previous(),
    {
        if self.before.len() == 0 {
            std::mem::swap(&mut self.after, &mut self.before);
            assert(self.before@ + self.after@ =~= old(self)@.items);
        }
        match self.before.pop_back() {
            Some(element) => self.after.push_front(element),
            None => {},
        }
        assert(self@.items =~= old(self)@.items);
    }

    /// Inserts the currently focused element after the next element; from the
    /// last position it goes to the first.
    pub fn shuffle_next(&mut self)
        requires
            old(self).wf(),
        ensures
            final(self).wf(),
            final(self)@ == old(self)@.shuffle_next(),
    {
        if self.after.len() > 1 {
            match self.after.remove(1) {
                Some(element) => self.before.push_back(element),
                None => {},
            }
            assert(self@.items =~= old(self)@.shuffle_next().items);
        } else if self.after.len() == 1 && self.before.len() > 0 {
            match self.after.pop_front() {
                Some(element) => self.before.push_front(element),
                None => {},
            }
            std::mem::swap(&mut self.after, &mut self.before);
            assert(self@.items =~= old(self)@.shuffle_next().items);
        } else {
            assert(self@.items =~= old(self)@.shuffle_next().items);
        }
    }

    /// Inserts the currently focused element before the previous element; from
    /// the first position it goes to the last.
    pub fn shuffle_previous(&mut self)
        requires
            old(self).wf(),
        ensures
            final(self).wf(),
            final(self)@ == old(self)@.shuffle_previous(),
    {
        if self.after.len() > 0 && self.before.len() > 0 {
            match self.before.pop_back() {
                Some(element) => self.after.insert(1, element),
                None => {},
            }
            assert(self@.items =~= old(self)@.shuffle_previous().items);
        } else if self.after.len() > 0 {
            let mut rest = self.after.split_off(1);
            self.before.append(&mut rest);
            assert(self@.items =~= old(self)@.shuffle_previous().items);
        }
    }

    /// Returns the elements in order, ignoring focus.
    pub fn iter(&self) -> (elements: Vec<&T>)
        ensures
            elements@.len() == self@.len(),
            forall|i: int| 0 <= i < self@.len() ==> *#[trigger] elements@[i] == self@.items[i],
    {
        let mut elements: Vec<&T> = Vec::new();
        let mut index: usize = 0;
        while index < self.before.len()
            invariant
                index <= self.before@.len(),
                elements@.len() == index,
                forall|i: int| 0 <= i < index ==> *#[trigger] elements@[i] == self.before@[i],
            decreases self.before@.len() - index,
        {
            elements.push(&self.before[index]);
            index = index + 1;
        }
        let mut index: usize = 0;
        while index < self.after.len()
            invariant
                index <= self.after@.len(),
                elements@.len() == self.before@.len() + index,
                forall|i: int|
                    0 <= i < self.before@.len() ==> *#[trigger] elements@[i] == self.before@[i],
                forall|i: int|
                    0 <= i < index ==> *#[trigger] elements@[self.before@.len() + i]
                        == self.after@[i],
            decreases self.after@.len() - index,
        {
            elements.push(&self.after[index]);
            index = index + 1;
        }
        assert forall|i: int| 0 <= i < self@.len() implies *#[trigger] elements@[i]
            == self@.items[i] by {
            if i >= self.before@.len() {
                assert(*elements@[self.before@.len() + (i - self.before@.len())]
                    == self.after@[i - self.before@.len()]);
            }
        }
        elements
    }
}

impl<T: Clone> Clone for Stack<T> {
    /// Copies the stack: each element is a clone of the element at its
    /// position, and the focus is where it was.
    fn clone(&self) -> (copy: Self)
        ensures
            copy@.focus == self@.focus,
            copy@.len() == self@.len(),
            forall|i: int|
                0 <= i < self@.len() ==> cloned::<T>(self@.items[i], #[trigger] copy@.items[i]),
            self.wf() ==> copy.wf(),
    {
        let copy = Stack { before: self.before.clone(), after: self.after.clone() };
        assert forall|i: int| 0 <= i < self@.len() implies cloned::<T>(
            self@.items[i],
            #[trigger] copy@.items[i],
        ) by {
            if i < self.before@.len() {
                assert(cloned::<T>(self.before@[i], copy.before@[i]));
            } else {
                assert(cloned::<T>(
                    self.after@[i - self.before@.len()],
                    copy.after@[i - self.before@.len()],
                ));
            }
        }
        copy
    }
}

impl<T> Default for Stack<T> {
    fn default() -> (stack: Self)
        ensures
            stack.wf(),
            stack@ == StackView::<T>::empty(),
    {
        Stack::new()
    }
}

impl<T> From<Vec<T>> for Stack<T> {
    /// Builds a stack of the elements of `vec`, in order, with the first focused.
    fn from(vec: Vec<T>) -> (stack: Stack<T>)
        ensures
            stack.wf(),
            stack@ == StackView::from_seq(vec@),
    {
        let mut rest = vec;
        let mut after: VecDeque<T> = VecDeque::new();
        while rest.len() > 0
            invariant
                rest@ + after@ == vec@,
            decreases rest@.len(),
        {
            match rest.pop() {
                Some(element) => after.push_front(element),
                None => {},
            }
            assert(rest@ + after@ =~= vec@);
        }
        let stack = Stack { before: VecDeque::new(), after };
        assert(stack@.items =~= vec@);
        stack
    }
}

impl<T> vstd::std_specs::convert::FromSpecImpl<Vec<T>> for Stack<T> {
    open spec fn obeys_from_spec() -> bool {
        false
    }

    open spec fn from_spec(vec: Vec<T>) -> Self {
        arbitrary()
    }
}

/// One step of use of a stack.
pub enum StackOp<T> {
    Push(T),
    /// Removing the element at a position, as `remove` does with the first
    /// element that its predicate accepts.
    RemoveAt(int),
    RemoveFocused,
    /// Focusing the element at a position, as `focus` does with the first
    /// element that its predicate accepts.
    FocusAt(int),
    FocusNext,
    FocusPrevious,
    ShuffleNext,
    ShufflePrevious,
}

impl<T> StackView<T> {
    /// The stack after one step. A position outside the stack changes nothing.
    pub open spec fn apply(self, op: StackOp<T>) -> Self {
        match op {
            StackOp::Push(value) => self.push(value),
            StackOp::RemoveAt(index) => if 0 <= index < self.items.len() {
                self.remove_at(index)
            } else {
                self
            },
            StackOp::RemoveFocused => self.remove_focused(),
            StackOp::FocusAt(index) => if 0 <= index < self.items.len() {
                self.focus_at(index)
            } else {
                self
            },
            StackOp::FocusNext => self.focus_next(),
            StackOp::FocusPrevious => self.focus_previous(),
            StackOp::ShuffleNext => self.shuffle_next(),
            StackOp::ShufflePrevious => self.shuffle_previous(),
        }
    }

    /// The stack after the steps of `ops`, in order.
    pub open spec fn run(self, ops: Seq<StackOp<T>>) -> Self
        decreases ops.len(),
    {
        if ops.len() == 0 {
            self
        } else {
            self.run(ops.drop_last()).apply(ops.last())
        }
    }

    /// The elements that one step adds.
    pub open spec fn added_by(self, op: StackOp<T>) -> Multiset<T> {
        match op {
            StackOp::Push(value) => Multiset::singleton(value),
            _ => Multiset::empty(),
        }
    }

    /// The elements that one step takes away.
    pub open spec fn taken_by(self, op: StackOp<T>) -> Multiset<T> {
        match op {
            StackOp::RemoveAt(index) => if 0 <= index < self.items.len() {
                Multiset::singleton(self.items[index])
            } else {
                Multiset::empty()
            },
            StackOp::RemoveFocused => if self.items.len() > 0 {
                Multiset::singleton(self.items[self.focus])
            } else {
                Multiset::empty()
            },
            _ => Multiset::empty(),
        }
    }

    /// The elements that the steps of `ops` add.
    pub open spec fn added(self, ops: Seq<StackOp<T>>) -> Multiset<T>
        decreases ops.len(),
    {
        if ops.len() == 0 {
            Multiset::empty()
        } else {
            self.added(ops.drop_last()).add(self.run(ops.drop_last()).added_by(ops.last()))
        }
    }

    /// The elements that the steps of `ops` take away.
    pub open spec fn taken(self, ops: Seq<StackOp<T>>) -> Multiset<T>
        decreases ops.len(),
    {
        if ops.len() == 0 {
            Multiset::empty()
        } else {
            self.taken(ops.drop_last()).add(self.run(ops.drop_last()).taken_by(ops.last()))
        }
    }

    /// The stack after `count` times `shuffle_next`.
    pub open spec fn shuffle_next_times(self, count: nat) -> Self
        decreases count,
    {
        if count == 0 {
            self
        } else {
            self.shuffle_next_times((count - 1) as nat).shuffle_next()
        }
    }

    /// A stack has a focused element if and only if it is not empty.
    pub proof fn lemma_focused_iff_not_empty(self)
        requires
            self.wf(),
        ensures
            self.focused() is Some <==> self.len() > 0,
            self.focused() is Some ==> self.items.contains(self.focused()->0),
    {
    }

    /// Every step keeps the stack well formed.
    pub proof fn lemma_apply_wf(self, op: StackOp<T>)
        requires
            self.wf(),
        ensures
            self.apply(op).wf(),
    {
    }

    /// Whatever the steps, the stack stays well formed: while it holds an
    /// element, one element is focused.
    pub proof fn lemma_run_wf(self, ops: Seq<StackOp<T>>)
        requires
            self.wf(),
        ensures
            self.run(ops).wf(),
            self.run(ops).focused() is Some <==> self.run(ops).len() > 0,
        decreases ops.len(),
    {
        if ops.len() > 0 {
            self.lemma_run_wf(ops.drop_last());
            self.run(ops.drop_last()).lemma_apply_wf(ops.last());
        }
    }

    /// Moving the focused element keeps the elements, each as often as before,
    /// and keeps the order of the others.
    pub proof fn lemma_move_focused(self, index: int)
        requires
            self.wf(),
            0 <= index < self.len(),
        ensures
            self.move_focused_to(index).wf(),
            self.move_focused_to(index).focused() == self.focused(),
            self.move_focused_to(index).items.remove(index) == self.items.remove(self.focus),
            self.move_focused_to(index).items.to_multiset() == self.items.to_multiset(),
    {
        let others = self.items.remove(self.focus);
        let element = self.items[self.focus];
        let moved = self.move_focused_to(index).items;
        assert(moved.remove(index) =~= others);
        vstd::seq_lib::to_multiset_remove(self.items, self.focus);
        vstd::seq_lib::to_multiset_remove(moved, index);
        self.items.to_multiset_ensures();
        moved.to_multiset_ensures();
        assert(self.items.contains(element));
        assert(moved[index] == element);
        assert(moved.contains(element));
        let held = self.items.to_multiset();
        let kept = moved.to_multiset();
        assert(kept.remove(element) == held.remove(element));
        assert(kept =~= kept.remove(element).insert(element));
        assert(held =~= held.remove(element).insert(element));
    }

    /// One step changes what the stack holds by what it adds and what it takes
    /// away.
    pub proof fn lemma_apply_multiset(self, op: StackOp<T>)
        requires
            self.wf(),
        ensures
            self.apply(op).items.to_multiset().add(self.taken_by(op))
                == self.items.to_multiset().add(self.added_by(op)),
    {
        let after = self.apply(op).items.to_multiset();
        let before = self.items.to_multiset();
        self.items.to_multiset_ensures();
        match op {
            StackOp::Push(value) => {
                vstd::seq_lib::to_multiset_build(self.items, value);
                assert(after.add(self.taken_by(op)) =~= before.add(self.added_by(op)));
            },
            StackOp::RemoveAt(index) => {
                if 0 <= index < self.items.len() {
                    vstd::seq_lib::to_multiset_remove(self.items, index);
                    assert(self.items.contains(self.items[index]));
                }
                assert(after.add(self.taken_by(op)) =~= before.add(self.added_by(op)));
            },
            StackOp::RemoveFocused => {
                if self.items.len() > 0 {
                    vstd::seq_lib::to_multiset_remove(self.items, self.focus);
                    assert(self.items.contains(self.items[self.focus]));
                }
                assert(after.add(self.taken_by(op)) =~= before.add(self.added_by(op)));
            },
            StackOp::ShuffleNext => {
                if self.items.len() > 0 {
                    self.lemma_move_focused(self.next_index());
                }
                assert(after.add(self.taken_by(op)) =~= before.add(self.added_by(op)));
            },
            StackOp::ShufflePrevious => {
                if self.items.len() > 0 {
                    self.lemma_move_focused(self.previous_index());
                }
                assert(after.add(self.taken_by(op)) =~= before.add(self.added_by(op)));
            },
            _ => {
                assert(after.add(self.taken_by(op)) =~= before.add(self.added_by(op)));
            },
        }
    }

    /// Whatever the steps, the stack holds exactly what it held at first and what
    /// was pushed, less what was removed: each element as often as that.
    pub proof fn lemma_run_multiset(self, ops: Seq<StackOp<T>>)
        requires
            self.wf(),
        ensures
            self.run(ops).items.to_multiset().add(self.taken(ops)) == self.items.to_multiset().add(
                self.added(ops),
            ),
        decreases ops.len(),
    {
        if ops.len() == 0 {
            assert(self.items.to_multiset().add(Multiset::empty()) =~= self.items.to_multiset());
        } else {
            let earlier = ops.drop_last();
            let state = self.run(earlier);
            self.lemma_run_multiset(earlier);
            self.lemma_run_wf(earlier);
            state.lemma_apply_multiset(ops.last());
            let held = self.run(ops).items.to_multiset();
            let taken_now = state.taken_by(ops.last());
            let added_now = state.added_by(ops.last());
            assert forall|value: T|
                held.add(self.taken(ops)).count(value) == self.items.to_multiset().add(
                    self.added(ops),
                ).count(value) by {
                assert(held.add(taken_now).count(value) == state.items.to_multiset().add(
                    added_now,
                ).count(value));
                assert(state.items.to_multiset().add(self.taken(earlier)).count(value)
                    == self.items.to_multiset().add(self.added(earlier)).count(value));
            }
            assert(held.add(self.taken(ops)) =~= self.items.to_multiset().add(self.added(ops)));
        }
    }

    /// A step other than a shuffle keeps the elements in their order: it leaves
    /// them as they are, appends one, or takes one out. A shuffle moves the
    /// focused element only: the others keep their order.
    pub proof fn lemma_apply_order(self, op: StackOp<T>)
        requires
            self.wf(),
        ensures
            match op {
                StackOp::Push(value) => self.apply(op).items == self.items.push(value),
                StackOp::RemoveAt(index) => self.apply(op).items == if 0 <= index < self.len() {
                    self.items.remove(index)
                } else {
                    self.items
                },
                StackOp::RemoveFocused => self.apply(op).items == if self.len() > 0 {
                    self.items.remove(self.focus)
                } else {
                    self.items
                },
                StackOp::ShuffleNext | StackOp::ShufflePrevious => {
                    &&& self.apply(op).focused() == self.focused()
                    &&& self.len() > 0 ==> self.apply(op).items.remove(self.apply(op).focus)
                        == self.items.remove(self.focus)
                },
                _ => self.apply(op).items == self.items,
            },
    {
        if self.len() > 0 {
            self.lemma_move_focused(self.next_index());
            self.lemma_move_focused(self.previous_index());
        }
    }

    /// `focus_next` and `focus_previous` undo each other.
    pub proof fn lemma_focus_next_previous(self)
        requires
            self.wf(),
        ensures
            self.focus_next().focus_previous() == self,
            self.focus_previous().focus_next() == self,
    {
    }

    /// Moving the focused element twice is moving it once to where it ends.
    pub proof fn lemma_move_focused_twice(self, first: int, second: int)
        requires
            self.wf(),
            0 <= first < self.len(),
            0 <= second < self.len(),
        ensures
            self.move_focused_to(first).move_focused_to(second) == self.move_focused_to(second),
            self.move_focused_to(self.focus) == self,
    {
        let others = self.items.remove(self.focus);
        let element = self.items[self.focus];
        let once = self.move_focused_to(first);
        assert(once.items.remove(first) =~= others);
        assert(once.items[first] == element);
        assert(self.move_focused_to(self.focus).items =~= self.items);
    }

    /// Where the focused element stands after `count` times `shuffle_next`:
    /// `count` positions on, going round at the end.
    pub open spec fn shuffled_index(self, count: nat) -> int
        decreases count,
    {
        if count == 0 {
            self.focus
        } else {
            let index = self.shuffled_index((count - 1) as nat);
            if index + 1 < self.items.len() {
                index + 1
            } else {
                0
            }
        }
    }

    /// `count` times `shuffle_next` moves the focused element, and nothing else,
    /// to `shuffled_index(count)`.
    pub proof fn lemma_shuffle_next_times(self, count: nat)
        requires
            self.wf(),
            self.len() > 0,
        ensures
            0 <= self.shuffled_index(count) < self.len(),
            self.shuffle_next_times(count) == self.move_focused_to(self.shuffled_index(count)),
            self.shuffle_next_times(count).focused() == self.focused(),
            self.shuffle_next_times(count).wf(),
        decreases count,
    {
        if count == 0 {
            self.lemma_move_focused_twice(self.focus, self.focus);
        } else {
            let earlier = (count - 1) as nat;
            self.lemma_shuffle_next_times(earlier);
            let index = self.shuffled_index(earlier);
            let state = self.shuffle_next_times(earlier);
            self.lemma_move_focused(index);
            assert(state.items.len() == self.items.len());
            self.lemma_move_focused_twice(index, self.shuffled_index(count));
            self.lemma_move_focused(self.shuffled_index(count));
        }
    }

    /// The position reached after `count` times `shuffle_next`, while it does not
    /// go round, and after going round once.
    proof fn lemma_shuffled_index(self, count: nat)
        requires
            self.wf(),
            self.len() > 0,
            count <= self.len(),
        ensures
            self.focus + count < self.len() ==> self.shuffled_index(count) == self.focus + count,
            self.focus + count >= self.len() ==> self.shuffled_index(count) == self.focus + count
                - self.len(),
        decreases count,
    {
        if count > 0 {
            self.lemma_shuffled_index((count - 1) as nat);
        }
    }

    /// As many times `shuffle_next` as the stack has elements gives the stack
    /// back, order and focus; the focus stays on the same element all the way.
    pub proof fn lemma_shuffle_next_cycle(self)
        requires
            self.wf(),
        ensures
            self.shuffle_next_times(self.len()) == self,
            forall|count: nat| #[trigger] self.shuffle_next_times(count).focused() == self.focused(),
    {
        if self.len() > 0 {
            self.lemma_shuffle_next_times(self.len());
            self.lemma_shuffled_index(self.len());
            self.lemma_move_focused_twice(self.focus, self.focus);
            assert forall|count: nat| #[trigger]
                self.shuffle_next_times(count).focused() == self.focused() by {
                self.lemma_shuffle_next_times(count);
            }
        } else {
            assert forall|count: nat| #[trigger]
                self.shuffle_next_times(count).focused() == self.focused() by {
                self.lemma_shuffle_next_times_empty(count);
            }
            self.lemma_shuffle_next_times_empty(self.len());
        }
    }

    /// `shuffle_next` leaves an empty stack as it is.
    proof fn lemma_shuffle_next_times_empty(self, count: nat)
        requires
            self.len() == 0,
        ensures
            self.shuffle_next_times(count) == self,
        decreases count,
    {
        if count > 0 {
            self.lemma_shuffle_next_times_empty((count - 1) as nat);
        }
    }

    /// Pushing a value that the stack does not hold and removing the first
    /// element equal to it gives that value and the elements as they were, in
    /// their order. The focus is then on the last element: the pushed value was
    /// focused and had no next.
    pub proof fn lemma_push_then_remove(self, value: T)
        requires
            self.wf(),
            !self.items.contains(value),
        ensures
            self.push(value).items.index_of_first(value) == Some(self.len() as int),
            self.push(value).items[self.len() as int] == value,
            self.push(value).remove_at(self.len() as int).items == self.items,
            self.push(value).remove_at(self.len() as int).focus == if self.len() > 0 {
                self.len() - 1
            } else {
                0
            },
            self.len() == 0 || self.focus == self.len() - 1 ==> self.push(value).remove_at(
                self.len() as int,
            ) == self,
    {
        let pushed = self.push(value).items;
        assert(pushed[self.len() as int] == value);
        assert(pushed.contains(value));
        pushed.index_of_first_ensures(value);
        let first = pushed.index_of_first(value)->0;
        if first < self.len() {
            assert(self.items[first] == value);
            assert(self.items.contains(value));
        }
        assert(pushed.remove(self.len() as int) =~= self.items);
    }
}

} // verus!
