//! A stack of any element type, with access to its top and three ways to walk it.

use crate::model::{front, put_front, rest};
use vstd::prelude::*;

verus! {

/// A stack: the last element pushed is the first one popped.
pub struct List<T> {
    head: Option<Box<Node<T>>>,
}

/// One element of a stack together with all that lies below it.
pub struct Node<T> {
    elem: T,
    next: Option<Box<Node<T>>>,
}

/// The elements of the chain that starts at `link`, nearest first.
spec fn elems<T>(link: Option<Box<Node<T>>>) -> Seq<T>
    decreases link,
{
    match link {
        None => Seq::empty(),
        Some(node) => put_front(elems(node.next), node.elem),
    }
}

impl<T> View for Node<T> {
    type V = Seq<T>;

    /// The element of this node, then those below it. It is never empty.
    closed spec fn view(&self) -> Seq<T> {
        put_front(elems(self.next), self.elem)
    }
}

impl<T> View for List<T> {
    type V = Seq<T>;

    /// The elements from the top of the stack down.
    closed spec fn view(&self) -> Seq<T> {
        elems(self.head)
    }
}

impl<T> List<T> {
    /// A stack without elements.
    pub fn new() -> (list: Self)
        ensures
            list@ == Seq::<T>::empty(),
    {
        List { head: None }
    }

    /// Puts `elem` on top. The new node takes over the chain that the list owned, and the
    /// list then owns the new node.
    pub fn push(&mut self, elem: T)
        ensures
            final(self)@ == put_front(old(self)@, elem),
    {
        let below = self.head.take();
        self.head = Some(Box::new(Node { elem, next: below }));
    }

    /// Takes the top element off, if there is one.
    pub fn pop(&mut self) -> (popped: Option<T>)
        ensures
            popped == front(old(self)@),
            final(self)@ == rest(old(self)@),
    {
        match self.head.take() {
            None => None,
            Some(node) => {
                let node = *node;
                self.head = node.next;
                Some(node.elem)
            },
        }
    }

    /// The top element, if there is one.
    pub fn peek(&self) -> (top: Option<&T>)
        ensures
            match top {
                Some(elem) => front(self@) == Some(*elem),
                None => front(self@) is None,
            },
    {
        match &self.head {
            None => None,
            Some(node) => Some(&node.elem),
        }
    }

    /// The top element, if there is one, to be changed in place: what is written through the
    /// result is the top of the stack afterwards, and nothing below it changes.
    pub fn peek_mut(&mut self) -> (top: Option<&mut T>)
        ensures
            match top {
                Some(elem) => front(old(self)@) == Some(*elem) && final(self)@ == put_front(
                    rest(old(self)@),
                    *final(elem),
                ),
                None => front(old(self)@) is None && final(self)@ == old(self)@,
            },
    {
        match &mut self.head {
            None => None,
            Some(node) => {
                Some(&mut node.elem)
            },
        }
    }
}

impl<T> Drop for List<T> {
    /// Frees the nodes one after the other. Each node is parted from its successor before it
    /// is freed, so that freeing it frees nothing else and the call stack does not grow with
    /// the length of the list.
    fn drop(&mut self)
        ensures
            final(self)@ == Seq::<T>::empty(),
        opens_invariants none
        no_unwind
    {
        let mut link = None;
        std::mem::swap(&mut self.head, &mut link);
        loop
            invariant
                self@ == Seq::<T>::empty(),
            decreases elems(link).len(),
        {
            match link {
                None => {
                    break ;
                },
                Some(mut node) => {
                    let mut next = None;
                    std::mem::swap(&mut node.next, &mut next);
                    link = next;
                },
            }
        }
    }
}

/// Walks a stack from the top down and hands each element out by value.
pub struct IntoIter<T>(List<T>);

impl<T> View for IntoIter<T> {
    type V = Seq<T>;

    /// The elements not handed out yet, in the order in which they will be.
    closed spec fn view(&self) -> Seq<T> {
        self.0@
    }
}

impl<T> List<T> {
    /// Turns the stack into a walk that empties it from the top down.
    pub fn into_iter(self) -> (iter: IntoIter<T>)
        ensures
            iter@ == self@,
    {
        IntoIter(self)
    }
}

impl<T> IntoIter<T> {
    /// The next element by value, or `None` from the moment on at which none is left.
    pub fn next(&mut self) -> (item: Option<T>)
        ensures
            item == front(old(self)@),
            final(self)@ == rest(old(self)@),
    {
        self.0.pop()
    }
}

/// Walks a stack from the top down and lends each element out for reading.
pub struct Iter<'a, T> {
    next: Option<&'a Node<T>>,
}

impl<'a, T> View for Iter<'a, T> {
    type V = Seq<T>;

    /// The elements not lent out yet, in the order in which they will be.
    closed spec fn view(&self) -> Seq<T> {
        match self.next {
            None => Seq::empty(),
            Some(node) => node@,
        }
    }
}

impl<T> List<T> {
    /// A walk over the elements from the top down that leaves the stack as it is.
    pub fn iter(&self) -> (iter: Iter<'_, T>)
        ensures
            iter@ == self@,
    {
        Iter {
            next: match &self.head {
                None => None,
                Some(node) => Some(&**node),
            },
        }
    }
}

impl<'a, T> Iter<'a, T> {
    /// The next element, or `None` from the moment on at which none is left.
    pub fn next(&mut self) -> (item: Option<&'a T>)
        ensures
            match item {
                Some(elem) => front(old(self)@) == Some(*elem),
                None => front(old(self)@) is None,
            },
            final(self)@ == rest(old(self)@),
    {
        match self.next {
            None => None,
            Some(node) => {
                self.next = match &node.next {
                    None => None,
                    Some(below) => Some(&**below),
                };
                Some(&node.elem)
            },
        }
    }
}

/// Walks a stack from the top down and lends each element out for writing.
pub struct IterMut<'a, T> {
    next: Option<&'a mut Node<T>>,
}

impl<'a, T> View for IterMut<'a, T> {
    type V = Seq<T>;

    /// The elements not lent out yet as they stand now, in the order in which they will be
    /// lent out.
    closed spec fn view(&self) -> Seq<T> {
        match self.next {
            None => Seq::empty(),
            Some(node) => node@,
        }
    }
}

impl<'a, T> IterMut<'a, T> {
    /// The borrow of the part of the stack that was not lent out yet, if any is left. Its
    /// value now is what the walk still has to visit (see the view); its value in the end
    /// is what the stack holds there once every element lent out was written.
    pub closed spec fn cursor(self) -> Option<&'a mut Node<T>> {
        self.next
    }

    /// The view is the present value behind the cursor, and a walk that is not used any
    /// more leaves what it had before it as it is.
    pub proof fn lemma_view_at_cursor(self)
        ensures
            self@ == match self.cursor() {
                Some(node) => node@,
                None => Seq::<T>::empty(),
            },
            has_resolved(self) ==> has_resolved(self.cursor()),
    {
    }
}

impl<T> List<T> {
    /// A walk over the elements from the top down through which each can be overwritten.
    /// In the end the stack holds whatever was written through the elements lent out, and
    /// the others as they were.
    pub fn iter_mut(&mut self) -> (iter: IterMut<'_, T>)
        ensures
            iter@ == old(self)@,
            match iter.cursor() {
                Some(node) => final(self)@ == final(node)@,
                None => final(self)@ == Seq::<T>::empty(),
            },
    {
        IterMut {
            next: match &mut self.head {
                None => None,
                Some(node) => Some(&mut **node),
            },
        }
    }
}

impl<'a, T> IterMut<'a, T> {
    /// The next element, or `None` from the moment on at which none is left. The part of
    /// the stack that the walk had before it will in the end consist of what is written
    /// through the element lent out, followed by the final value of what the walk has before
    /// it now.
    pub fn next(&mut self) -> (item: Option<&'a mut T>)
        ensures
            final(self)@ == rest(old(self)@),
            match old(self).cursor() {
                Some(node) => item matches Some(elem) && front(old(self)@) == Some(*elem)
                    && final(node)@ == put_front(
                    match final(self).cursor() {
                        Some(below) => final(below)@,
                        None => Seq::<T>::empty(),
                    },
                    *final(elem),
                ),
                None => item is None && old(self)@.len() == 0,
            },
    {
        match self.next.take() {
            None => None,
            Some(node) => {
                self.next = match &mut node.next {
                    None => None,
                    Some(below) => Some(&mut **below),
                };
                Some(&mut node.elem)
            },
        }
    }
}

} // verus!
