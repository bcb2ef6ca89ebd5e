//! A queue that reaches its last node in one step.
//!
//! The nodes live in an arena and are linked forward by key. Besides the key of the first
//! node the queue keeps the key of the last one. That key owns nothing: it only tells where
//! the next node is to be linked, and it is empty exactly when the queue is.

use crate::arena::Arena;
use crate::chain::{first_key, key_after, last_key, lemma_first_removed, lemma_last_added};
use crate::model::{front, put_back, rest};
use vstd::prelude::*;

verus! {

struct Node<T> {
    elem: T,
    next: Option<usize>,
}

/// A queue: elements leave it in the order in which they were pushed.
pub struct List<T> {
    nodes: Arena<Node<T>>,
    head: Option<usize>,
    tail: Option<usize>,
    /// The keys of the nodes from the first to the last.
    chain: Ghost<Seq<usize>>,
}

impl<T> View for List<T> {
    type V = Seq<T>;

    /// The elements in the order in which they will leave the queue.
    closed spec fn view(&self) -> Seq<T> {
        Seq::new(self.chain@.len(), |i: int| self.nodes@[self.chain@[i]].elem)
    }
}

impl<T> List<T> {
    /// The arena holds the nodes of the chain and no others; each node is linked to the one
    /// after it and the last to none; `head` is the key of the first node and `tail` that of
    /// the last, and both are empty when there is no node.
    #[verifier::type_invariant]
    spec fn wf(&self) -> bool {
        &&& self.nodes.wf()
        &&& self.chain@.no_duplicates()
        &&& forall|key: usize| self.nodes@.dom().contains(key) <==> self.chain@.contains(key)
        &&& forall|i: int|
            0 <= i < self.chain@.len() ==> self.nodes@[#[trigger] self.chain@[i]].next == key_after(
                self.chain@,
                i,
            )
        &&& self.head == first_key(self.chain@)
        &&& self.tail == last_key(self.chain@)
    }

    /// A queue without elements.
    pub fn new() -> (list: Self)
        ensures
            list@ == Seq::<T>::empty(),
    {
        List { nodes: Arena::new(), head: None, tail: None, chain: Ghost(Seq::empty()) }
    }

    /// Takes the queue apart for an operation and leaves an empty one in its place.
    fn take(&mut self) -> (list: Self)
        ensures
            list == *old(self),
            list.wf(),
    {
        proof {
            use_type_invariant(&*self);
        }
        let mut list = List::new();
        std::mem::swap(self, &mut list);
        list
    }

    /// Puts `elem` at the end. The new node is linked behind the node that was the last,
    /// which is found by its key alone, or becomes the first of an empty queue.
    pub fn push(&mut self, elem: T)
        ensures
            final(self)@ == put_back(old(self)@, elem),
    {
        let List { mut nodes, mut head, tail, chain } = self.take();
        let key = nodes.insert(Node { elem, next: None });
        match tail {
            Some(last) => {
                assert(chain@.contains(last));
                let node = nodes.get_mut(last);
                node.next = Some(key);
            },
            None => {
                head = Some(key);
            },
        }
        proof {
            lemma_last_added(chain@, key);
            assert forall|i: int| 0 <= i < chain@.len() implies chain@.contains(
                #[trigger] chain@[i],
            ) by {}
        }
        *self = List { nodes, head, tail: Some(key), chain: Ghost(chain@.push(key)) };
        assert(self@ =~= put_back(old(self)@, elem));
    }

    /// Takes the first element out, if there is one. When the last node leaves, the key of
    /// the last node is cleared with it.
    pub fn pop(&mut self) -> (popped: Option<T>)
        ensures
            popped == front(old(self)@),
            final(self)@ == rest(old(self)@),
    {
        let List { mut nodes, head, mut tail, chain } = self.take();
        match head {
            None => {
                *self = List { nodes, head, tail, chain };
                None
            },
            Some(first) => {
                assert(chain@.contains(first));
                let node = nodes.remove(first);
                if node.next.is_none() {
                    tail = None;
                }
                proof {
                    lemma_first_removed(chain@);
                    assert forall|i: int| 0 <= i < chain@.len() - 1 implies chain@.drop_first()[i]
                        == #[trigger] chain@[i + 1] by {}
                }
                *self = List { nodes, head: node.next, tail, chain: Ghost(chain@.drop_first()) };
                assert(self@ =~= rest(old(self)@));
                Some(node.elem)
            },
        }
    }
}

} // verus!
