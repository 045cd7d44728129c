//! The free lists of the buddy heap: stacks of block addresses, newest first.
use vstd::prelude::*;

verus! {

/// Does nothing.
pub fn nop() {
}

/// Takes a value and drops it.
pub fn consume<T>(_value: T) {
}

/// A list of block addresses; the head is the most recently pushed one.
pub struct LinkedList {
    items: Vec<usize>,
}

impl View for LinkedList {
    type V = Seq<usize>;

    /// The addresses, head first.
    closed spec fn view(&self) -> Seq<usize> {
        self.items@
    }
}

impl LinkedList {
    /// An empty list.
    pub fn new() -> (r: LinkedList)
        ensures
            r@ == Seq::<usize>::empty(),
    {
        LinkedList { items: Vec::new() }
    }

    /// Whether the list holds no address.
    pub fn is_empty(&self) -> (r: bool)
        ensures
            r == (self@.len() == 0),
    {
        self.items.len() == 0
    }

    /// The number of addresses in the list.
    pub fn len(&self) -> (r: usize)
        ensures
            r == self@.len(),
    {
        self.items.len()
    }

    /// Pushes `node` at the head of the list.
    pub fn push(&mut self, node: usize)
        ensures
            final(self)@ == seq![node] + old(self)@,
    {
        self.items.insert(0, node);
        proof {
            assert(self.items@ =~= seq![node] + old(self)@);
        }
    }

    /// Removes and returns the head of the list.
    pub fn pop(&mut self) -> (r: Option<usize>)
        ensures
            old(self)@.len() == 0 ==> r.is_none() && final(self)@ == old(self)@,
            old(self)@.len() > 0 ==> r == Some(old(self)@[0]) && final(self)@ == old(self)@.drop_first(),
    {
        if self.is_empty() {
            None
        } else {
            let node = self.items.remove(0);
            proof {
                assert(self.items@ =~= old(self)@.drop_first());
            }
            Some(node)
        }
    }

    /// Removes the address at `index` (counted from the head).
    pub fn remove_at(&mut self, index: usize) -> (r: usize)
        requires
            index < old(self)@.len(),
        ensures
            r == old(self)@[index as int],
            final(self)@ == old(self)@.remove(index as int),
    {
        self.items.remove(index)
    }

    /// An iterator over the addresses, head first.
    pub fn iter(&self) -> (r: Iter)
        ensures
            r.remaining() == self@,
            r.wf(),
    {
        Iter { items: self.items.clone(), pos: 0 }
    }

    /// An iterator over the nodes of the list, head first; a node it hands
    /// out can be taken out of the list with [`ListNode::pop`].
    pub fn iter_mut(&self) -> (r: IterMut)
        ensures
            r.list() == self@,
            r.position() == 0,
    {
        IterMut { items: self.items.clone(), pos: 0 }
    }
}

/// Iterator over the addresses of a [`LinkedList`].
pub struct Iter {
    items: Vec<usize>,
    pos: usize,
}

impl Iter {
    /// The position lies inside the snapshot.
    pub closed spec fn wf(&self) -> bool {
        self.pos <= self.items@.len()
    }

    /// The addresses still to be handed out.
    pub closed spec fn remaining(&self) -> Seq<usize> {
        self.items@.subrange(self.pos as int, self.items@.len() as int)
    }

    /// Hands out the next address.
    pub fn next(&mut self) -> (r: Option<usize>)
        requires
            old(self).wf(),
        ensures
            final(self).wf(),
            old(self).remaining().len() == 0 ==> r.is_none() && final(self).remaining() == old(self).remaining(),
            old(self).remaining().len() > 0 ==> r == Some(old(self).remaining()[0])
                && final(self).remaining() == old(self).remaining().drop_first(),
    {
        if self.pos >= self.items.len() {
            None
        } else {
            let v = self.items[self.pos];
            self.pos = self.pos + 1;
            proof {
                assert(self.remaining() =~= old(self).remaining().drop_first());
            }
            Some(v)
        }
    }
}

/// A node of a [`LinkedList`] handed out by [`IterMut`].
pub struct ListNode {
    index: usize,
    value: usize,
}

impl ListNode {
    /// The position of the node, counted from the head.
    pub closed spec fn index_spec(&self) -> int {
        self.index as int
    }

    /// The address the node holds.
    pub closed spec fn value_spec(&self) -> usize {
        self.value
    }

    /// The address the node holds.
    pub fn value(&self) -> (r: usize)
        ensures
            r == self.value_spec(),
    {
        self.value
    }

    /// Takes this node out of `list`, the list it came from, and returns its
    /// address.
    pub fn pop(self, list: &mut LinkedList) -> (r: usize)
        requires
            0 <= self.index_spec() < old(list)@.len(),
            old(list)@[self.index_spec()] == self.value_spec(),
        ensures
            r == self.value_spec(),
            final(list)@ == old(list)@.remove(self.index_spec()),
    {
        list.remove_at(self.index)
    }
}

/// Iterator over the nodes of a [`LinkedList`].
pub struct IterMut {
    items: Vec<usize>,
    pos: usize,
}

impl IterMut {
    /// The list the iterator walks.
    pub closed spec fn list(&self) -> Seq<usize> {
        self.items@
    }

    /// The position of the next node handed out.
    pub closed spec fn position(&self) -> int {
        self.pos as int
    }

    /// Hands out the next node.
    pub fn next(&mut self) -> (r: Option<ListNode>)
        requires
            old(self).position() <= old(self).list().len(),
        ensures
            final(self).list() == old(self).list(),
            old(self).position() == old(self).list().len() ==> r.is_none() && final(self).position() == old(self).position(),
            old(self).position() < old(self).list().len() ==> {
                &&& r.is_some()
                &&& r.unwrap().index_spec() == old(self).position()
                &&& r.unwrap().value_spec() == old(self).list()[old(self).position()]
                &&& final(self).position() == old(self).position() + 1
            },
    {
        if self.pos >= self.items.len() {
            None
        } else {
            let node = ListNode { index: self.pos, value: self.items[self.pos] };
            self.pos = self.pos + 1;
            Some(node)
        }
    }
}

} // verus!
