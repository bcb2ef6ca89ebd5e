//! A persistent list: prepending and taking the tail make new lists that share nodes with
//! the list they were made from, and no list ever changes.

use crate::model::{front, put_front, rest};
use std::rc::Rc;
use vstd::prelude::*;

verus! {

/// An immutable list whose nodes may belong to any number of lists at once.
pub struct List<T> {
    head: Option<Rc<Node<T>>>,
}

/// One element of a list together with all that follows it. Once made it never changes.
pub struct Node<T> {
    elem: T,
    next: Option<Rc<Node<T>>>,
}

/// The elements of the chain that starts at `link`, nearest first.
spec fn elems<T>(link: Option<Rc<Node<T>>>) -> Seq<T>
    decreases link,
{
    match link {
        None => Seq::empty(),
        Some(node) => put_front(elems(node.next), node.elem),
    }
}

impl<T> View for Node<T> {
    type V = Seq<T>;

    /// The element of this node, then those that follow it.
    closed spec fn view(&self) -> Seq<T> {
        put_front(elems(self.next), self.elem)
    }
}

impl<T> View for List<T> {
    type V = Seq<T>;

    /// The elements from the first to the last.
    closed spec fn view(&self) -> Seq<T> {
        elems(self.head)
    }
}

/// Calls `Rc::clone`. Taken on trust, not proved: the result is one more owner of the
/// allocation that `shared` points to, and so holds the very value that `shared` holds.
#[verifier::external_body]
fn rc_clone<T>(shared: &Rc<T>) -> (owner: Rc<T>)
    ensures
        owner == *shared,
{
    Rc::clone(shared)
}

/// Calls `Rc::try_unwrap`. Taken on trust, not proved: the value is handed out if `shared`
/// was its only owner, and `shared` is handed back if it was not, so that either way what
/// comes back holds the value that `shared` held; and the call returns without unwinding.
/// Which of the two happens depends on the other owners, of whom nothing is known here.
#[verifier::external_body]
fn rc_try_unwrap<T>(shared: Rc<T>) -> (outcome: Result<T, Rc<T>>)
    ensures
        match outcome {
            Ok(owned) => owned == *shared,
            Err(still_shared) => still_shared == shared,
        },
    opens_invariants none
    no_unwind
{
    Rc::try_unwrap(shared)
}

/// What a list that gave up its first node has to give up next: the rest of the chain if
/// the node came back as the list's own (`Ok`), and nothing if another list still owns the
/// node (`Err`), since that owner then answers for all that follows.
fn left_to_release<T>(outcome: Result<Node<T>, Rc<Node<T>>>) -> (link: Option<Rc<Node<T>>>)
    ensures
        link == match outcome {
            Ok(node) => node.next,
            Err(_) => None,
        },
    opens_invariants none
    no_unwind
{
    match outcome {
        Ok(node) => node.next,
        Err(_) => None,
    }
}

impl<T> List<T> {
    /// A list without elements.
    pub fn new() -> (list: Self)
        ensures
            list@ == Seq::<T>::empty(),
    {
        List { head: None }
    }

    /// A new list with `elem` first and the elements of this list after it. The new list
    /// shares every node of this list, which stays as it is.
    pub fn prepend(&self, elem: T) -> (list: List<T>)
        ensures
            list@ == put_front(self@, elem),
    {
        let next = match &self.head {
            None => None,
            Some(node) => Some(rc_clone(node)),
        };
        List { head: Some(Rc::new(Node { elem, next })) }
    }

    /// A new list of all elements but the first; of an empty list, an empty list. The new
    /// list shares its nodes with this list, which stays as it is.
    pub fn tail(&self) -> (list: List<T>)
        ensures
            list@ == rest(self@),
    {
        let head = match &self.head {
            None => None,
            Some(node) => {
                match &node.next {
                    None => None,
                    Some(next) => Some(rc_clone(next)),
                }
            },
        };
        List { head }
    }

    /// The first element, if there is one.
    pub fn head(&self) -> (first: Option<&T>)
        ensures
            match first {
                Some(elem) => front(self@) == Some(*elem),
                None => front(self@) is None,
            },
    {
        match &self.head {
            None => None,
            Some(node) => Some(&node.elem),
        }
    }
}

/// Walks a list from its first element on and lends each element out for reading.
pub struct Iter<'a, T> {
    next: Option<&'a Node<T>>,
}

impl<'a, T> View for Iter<'a, T> {
    type V = Seq<T>;

    /// The elements not lent out yet, in the order in which they will be.
    closed spec fn view(&self) -> Seq<T> {
        match self.next {
            None => Seq::empty(),
            Some(node) => node@,
        }
    }
}

impl<T> List<T> {
    /// A walk over the elements from the first on that leaves the list as it is.
    pub fn iter(&self) -> (iter: Iter<'_, T>)
        ensures
            iter@ == self@,
    {
        Iter {
            next: match &self.head {
                None => None,
                Some(node) => Some(&**node),
            },
        }
    }
}

impl<'a, T> Iter<'a, T> {
    /// The next element, or `None` from the moment on at which none is left.
    pub fn next(&mut self) -> (item: Option<&'a T>)
        ensures
            match item {
                Some(elem) => front(old(self)@) == Some(*elem),
                None => front(old(self)@) is None,
            },
            final(self)@ == rest(old(self)@),
    {
        match self.next {
            None => None,
            Some(node) => {
                self.next = match &node.next {
                    None => None,
                    Some(following) => Some(&**following),
                };
                Some(&node.elem)
            },
        }
    }
}

impl<T> Drop for List<T> {
    /// Gives up this list's share in its nodes, one node after the other and without
    /// recursion. A node is freed only if this list was its last owner. At the first node
    /// that another list still owns the walk ends: that node and all that follow it stay.
    fn drop(&mut self)
        ensures
            final(self)@ == Seq::<T>::empty(),
        opens_invariants none
        no_unwind
    {
        let mut link = None;
        std::mem::swap(&mut self.head, &mut link);
        loop
            invariant
                self@ == Seq::<T>::empty(),
            decreases elems(link).len(),
        {
            match link {
                None => {
                    break ;
                },
                Some(shared) => {
                    link = left_to_release(rc_try_unwrap(shared));
                },
            }
        }
    }
}

} // verus!
