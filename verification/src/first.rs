//! A stack of `i32` in which every node is owned by the link that leads to it.

use crate::model::{front, put_front, rest};
use vstd::prelude::*;

verus! {

/// A stack of integers: the last one pushed is the first one popped.
pub struct List {
    head: Link,
}

enum Link {
    Empty,
    More(Box<Node>),
}

struct Node {
    elem: i32,
    next: Link,
}

impl Link {
    /// The elements of the chain that starts at this link, nearest first.
    spec fn elems(self) -> Seq<i32>
        decreases self,
    {
        match self {
            Link::Empty => Seq::empty(),
            Link::More(node) => put_front(node.next.elems(), node.elem),
        }
    }
}

impl View for List {
    type V = Seq<i32>;

    /// The elements from the top of the stack down.
    closed spec fn view(&self) -> Seq<i32> {
        self.head.elems()
    }
}

impl List {
    /// A stack without elements.
    pub fn new() -> (list: Self)
        ensures
            list@ == Seq::<i32>::empty(),
    {
        List { head: Link::Empty }
    }

    /// Puts `elem` on top. The new node takes over the chain that the list owned, and the
    /// list then owns the new node.
    pub fn push(&mut self, elem: i32)
        ensures
            final(self)@ == put_front(old(self)@, elem),
    {
        let mut below = Link::Empty;
        std::mem::swap(&mut self.head, &mut below);
        self.head = Link::More(Box::new(Node { elem, next: below }));
    }

    /// Takes the top element off, if there is one.
    pub fn pop(&mut self) -> (popped: Option<i32>)
        ensures
            popped == front(old(self)@),
            final(self)@ == rest(old(self)@),
    {
        let mut top = Link::Empty;
        std::mem::swap(&mut self.head, &mut top);
        match top {
            Link::Empty => None,
            Link::More(node) => {
                let node = *node;
                self.head = node.next;
                Some(node.elem)
            },
        }
    }
}

impl Drop for List {
    /// Frees the nodes one after the other. Each node is parted from its successor before it
    /// is freed, so that freeing it frees nothing else and the call stack does not grow with
    /// the length of the list.
    fn drop(&mut self)
        ensures
            final(self)@ == Seq::<i32>::empty(),
        opens_invariants none
        no_unwind
    {
        let mut link = Link::Empty;
        std::mem::swap(&mut self.head, &mut link);
        loop
            invariant
                self@ == Seq::<i32>::empty(),
            decreases link.elems().len(),
        {
            match link {
                Link::Empty => {
                    break ;
                },
                Link::More(mut node) => {
                    let mut next = Link::Empty;
                    std::mem::swap(&mut node.next, &mut next);
                    link = next;
                },
            }
        }
    }
}

} // verus!
