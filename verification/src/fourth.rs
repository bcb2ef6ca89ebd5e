//! A list linked in both directions, with every access to a node's contents checked at run
//! time.
//!
//! The nodes live in an arena and name their neighbours by key, so that two neighbours can
//! name each other without owning each other. Each node carries a gate that admits either
//! one writer or any number of readers. For every change to a node the list enters through
//! that node's gate and leaves at once: between two operations every gate is free.

use crate::arena::Arena;
use crate::chain::{
    first_key, key_after, key_before, last_key, lemma_first_added, lemma_first_removed,
};
use crate::model::{front, put_front, rest};
use vstd::pervasive::unreached;
use vstd::prelude::*;

verus! {

/// An access to a node's contents was asked for that the accesses still outstanding do not
/// allow. Nothing has changed; the request can be made again once they are released.
#[derive(Clone, Copy, Debug, PartialEq, Eq, Structural)]
pub struct BorrowConflict;

/// Who holds access to a node's contents at the moment.
pub enum Access {
    /// Nobody.
    Free,
    /// This many readers, at least one.
    Shared(nat),
    /// One writer.
    Exclusive,
}

impl Access {
    /// A state that a gate can be in.
    pub open spec fn valid(self) -> bool {
        self matches Access::Shared(readers) ==> 1 <= readers <= usize::MAX
    }

    /// The number of accessors that have not been released.
    pub open spec fn outstanding(self) -> nat {
        match self {
            Access::Free => 0,
            Access::Shared(readers) => readers,
            Access::Exclusive => 1,
        }
    }

    /// The state with one more reader, or `None` where a reader is not admitted: beside a
    /// writer, and when the readers cannot be counted any further.
    pub open spec fn with_reader(self) -> Option<Access> {
        match self {
            Access::Free => Some(Access::Shared(1)),
            Access::Shared(readers) => if readers < usize::MAX {
                Some(Access::Shared(readers + 1))
            } else {
                None
            },
            Access::Exclusive => None,
        }
    }

    /// The state with a writer, or `None` where a writer is not admitted: beside any other
    /// accessor.
    pub open spec fn with_writer(self) -> Option<Access> {
        match self {
            Access::Free => Some(Access::Exclusive),
            _ => None,
        }
    }

    /// The state with one accessor less. Where none is outstanding nothing changes.
    pub open spec fn released(self) -> Access {
        match self {
            Access::Shared(readers) if readers > 1 => Access::Shared((readers - 1) as nat),
            _ => Access::Free,
        }
    }
}

enum Mode {
    Readers(usize),
    Writer,
}

/// A gate before a node's contents: it counts the readers, knows of a writer, and turns
/// away whoever may not enter.
pub struct AccessGate {
    mode: Mode,
}

impl View for AccessGate {
    type V = Access;

    closed spec fn view(&self) -> Access {
        match self.mode {
            Mode::Readers(readers) => if readers == 0 {
                Access::Free
            } else {
                Access::Shared(readers as nat)
            },
            Mode::Writer => Access::Exclusive,
        }
    }
}

impl AccessGate {
    /// A gate that nobody has passed.
    pub fn new() -> (gate: Self)
        ensures
            gate@ == Access::Free,
    {
        AccessGate { mode: Mode::Readers(0) }
    }

    /// A gate is always in a valid state.
    pub proof fn lemma_view_valid(self)
        ensures
            self@.valid(),
    {
    }

    /// Asks for access to read. It is granted unless a writer is inside or the readers
    /// cannot be counted any further; if it is refused nothing changes.
    pub fn acquire_shared(&mut self) -> (granted: Result<(), BorrowConflict>)
        ensures
            match old(self)@.with_reader() {
                Some(state) => granted is Ok && final(self)@ == state,
                None => granted is Err && final(self)@ == old(self)@,
            },
    {
        match self.mode {
            Mode::Readers(readers) => {
                if readers < usize::MAX {
                    self.mode = Mode::Readers(readers + 1);
                    Ok(())
                } else {
                    Err(BorrowConflict)
                }
            },
            Mode::Writer => Err(BorrowConflict),
        }
    }

    /// Asks for access to write. It is granted only if nobody is inside; if it is refused
    /// nothing changes.
    pub fn acquire_exclusive(&mut self) -> (granted: Result<(), BorrowConflict>)
        ensures
            match old(self)@.with_writer() {
                Some(state) => granted is Ok && final(self)@ == state,
                None => granted is Err && final(self)@ == old(self)@,
            },
    {
        match self.mode {
            Mode::Readers(readers) => {
                if readers == 0 {
                    self.mode = Mode::Writer;
                    Ok(())
                } else {
                    Err(BorrowConflict)
                }
            },
            Mode::Writer => Err(BorrowConflict),
        }
    }

    /// Gives one access back: that of the writer, or that of one reader.
    pub fn release(&mut self)
        ensures
            final(self)@ == old(self)@.released(),
    {
        match self.mode {
            Mode::Readers(readers) => {
                if readers > 0 {
                    self.mode = Mode::Readers(readers - 1);
                }
            },
            Mode::Writer => {
                self.mode = Mode::Readers(0);
            },
        }
    }
}

/// No overlapping mutable access: while an accessor of either kind is outstanding, access
/// to write is refused. Once the only outstanding accessor is released, it is granted.
pub proof fn lemma_writer_enters_alone(state: Access)
    requires
        state.outstanding() > 0,
    ensures
        state.with_writer() is None,
        state.outstanding() == 1 ==> state.released().with_writer() == Some(Access::Exclusive),
{
}

struct Node<T> {
    elem: T,
    next: Option<usize>,
    prev: Option<usize>,
    gate: AccessGate,
}

impl<T> Node<T> {
    /// A node without neighbours whose gate is free.
    fn new(elem: T) -> (node: Self)
        ensures
            node.elem == elem,
            node.next is None,
            node.prev is None,
            node.gate@ == Access::Free,
    {
        Node { elem, next: None, prev: None, gate: AccessGate::new() }
    }
}

/// Enters the node under `key` as a writer, links the node forward to `next`, and leaves
/// again. The link that the node had is returned.
fn relink_next<T>(nodes: &mut Arena<Node<T>>, key: usize, next: Option<usize>) -> (was: Option<
    usize,
>)
    requires
        old(nodes).wf(),
        old(nodes)@.dom().contains(key),
        old(nodes)@[key].gate@ == Access::Free,
    ensures
        final(nodes).wf(),
        was == old(nodes)@[key].next,
        final(nodes)@ == old(nodes)@.insert(key, Node { next, ..old(nodes)@[key] }),
{
    let node = nodes.get_mut(key);
    match node.gate.acquire_exclusive() {
        Ok(()) => {
            let mut link = next;
            std::mem::swap(&mut node.next, &mut link);
            node.gate.release();
            link
        },
        Err(_) => unreached(),
    }
}

/// Enters the node under `key` as a writer, links the node backward to `prev`, and leaves
/// again.
fn relink_prev<T>(nodes: &mut Arena<Node<T>>, key: usize, prev: Option<usize>)
    requires
        old(nodes).wf(),
        old(nodes)@.dom().contains(key),
        old(nodes)@[key].gate@ == Access::Free,
    ensures
        final(nodes).wf(),
        final(nodes)@ == old(nodes)@.insert(key, Node { prev, ..old(nodes)@[key] }),
{
    let node = nodes.get_mut(key);
    match node.gate.acquire_exclusive() {
        Ok(()) => {
            node.prev = prev;
            node.gate.release();
        },
        Err(_) => unreached(),
    }
}

/// A list that is linked in both directions and is worked on at its front.
pub struct List<T> {
    nodes: Arena<Node<T>>,
    head: Option<usize>,
    tail: Option<usize>,
    /// The keys of the nodes from the first to the last.
    chain: Ghost<Seq<usize>>,
}

impl<T> View for List<T> {
    type V = Seq<T>;

    /// The elements from the front to the back.
    closed spec fn view(&self) -> Seq<T> {
        Seq::new(self.chain@.len(), |i: int| self.nodes@[self.chain@[i]].elem)
    }
}

impl<T> List<T> {
    /// The node at position `i` of the chain names the node after it as its next and the
    /// node before it as its previous one, and nobody holds access to it.
    spec fn linked(&self, i: int) -> bool {
        let node = self.nodes@[self.chain@[i]];
        &&& node.next == key_after(self.chain@, i)
        &&& node.prev == key_before(self.chain@, i)
        &&& node.gate@ == Access::Free
    }

    /// The arena holds the nodes of the chain and no others; neighbours in the chain name
    /// each other, the first node has no previous and the last no next one; `head` is the
    /// key of the first node and `tail` that of the last, and both are empty when there is
    /// no node; every gate is free.
    #[verifier::type_invariant]
    spec fn wf(&self) -> bool {
        &&& self.nodes.wf()
        &&& self.chain@.no_duplicates()
        &&& forall|key: usize| self.nodes@.dom().contains(key) <==> self.chain@.contains(key)
        &&& forall|i: int| 0 <= i < self.chain@.len() ==> #[trigger] self.linked(i)
        &&& self.head == first_key(self.chain@)
        &&& self.tail == last_key(self.chain@)
    }

    /// A list without elements.
    pub fn new() -> (list: Self)
        ensures
            list@ == Seq::<T>::empty(),
    {
        List { nodes: Arena::new(), head: None, tail: None, chain: Ghost(Seq::empty()) }
    }

    /// Takes the list apart for an operation and leaves an empty one in its place.
    fn take(&mut self) -> (list: Self)
        ensures
            list == *old(self),
            list.wf(),
    {
        proof {
            use_type_invariant(&*self);
        }
        let mut list = List::new();
        std::mem::swap(self, &mut list);
        list
    }

    /// Puts `elem` at the front. In an empty list the new node becomes the first and the
    /// last at once; otherwise it and the node that was the first are linked to each other.
    pub fn push_front(&mut self, elem: T)
        ensures
            final(self)@ == put_front(old(self)@, elem),
    {
        let before = self.take();
        let List { mut nodes, head, mut tail, chain } = before;
        let key = nodes.insert(Node::new(elem));
        match head {
            None => {
                tail = Some(key);
            },
            Some(old_head) => {
                assert(chain@.contains(old_head));
                assert(before.linked(0));
                relink_next(&mut nodes, key, Some(old_head));
                relink_prev(&mut nodes, old_head, Some(key));
            },
        }
        proof {
            let after = List { nodes, head: Some(key), tail, chain: Ghost(seq![key] + chain@) };
            lemma_first_added(chain@, key);
            assert forall|i: int| 0 <= i < after.chain@.len() implies #[trigger] after.linked(i) by {
                if i > 0 {
                    assert(before.linked(i - 1));
                }
            }
            assert(after@ =~= put_front(before@, elem));
        }
        *self = List { nodes, head: Some(key), tail, chain: Ghost(seq![key] + chain@) };
    }

    /// Takes the first element out, if there is one. The node is parted from its successor
    /// in both directions before it leaves the arena; when the only node leaves, the list
    /// forgets its last node as well.
    pub fn pop_front(&mut self) -> (popped: Option<T>)
        ensures
            popped == front(old(self)@),
            final(self)@ == rest(old(self)@),
    {
        let before = self.take();
        let List { mut nodes, head, mut tail, chain } = before;
        match head {
            None => {
                *self = List { nodes, head, tail, chain };
                None
            },
            Some(old_head) => {
                assert(chain@.contains(old_head));
                assert(before.linked(0));
                let new_head = relink_next(&mut nodes, old_head, None);
                match new_head {
                    None => {
                        tail = None;
                    },
                    Some(second) => {
                        assert(chain@.contains(second));
                        assert(before.linked(1));
                        relink_prev(&mut nodes, second, None);
                    },
                }
                let node = nodes.remove(old_head);
                proof {
                    let after = List { nodes, head: new_head, tail, chain: Ghost(chain@.drop_first()) };
                    lemma_first_removed(chain@);
                    assert forall|i: int| 0 <= i < after.chain@.len() implies #[trigger] after.linked(
                        i,
                    ) by {
                        assert(before.linked(i + 1));
                    }
                    assert(after@ =~= rest(before@));
                }
                *self = List { nodes, head: new_head, tail, chain: Ghost(chain@.drop_first()) };
                Some(node.elem)
            },
        }
    }

    /// Takes the elements out from the front until none is left, so that the list is taken
    /// apart node by node, each parted from its neighbour before it goes.
    pub fn clear(&mut self)
        ensures
            final(self)@ == Seq::<T>::empty(),
    {
        loop
            ensures
                self@.len() == 0,
            decreases self@.len(),
        {
            match self.pop_front() {
                None => {
                    break ;
                },
                Some(_) => {},
            }
        }
    }
}

} // verus!
