use std::rc::Rc;
use vstd::prelude::*;

verus! {

/// One cell of a persistent list: a value and the (shared) rest of the list.
pub struct Node<T> {
    pub value: T,
    pub next: List<T>,
}

/// An immutable singly-linked list whose tails may be shared between lists.
pub struct List<T> {
    pub head: Option<Rc<Node<T>>>,
}

impl<T> List<T> {
    /// The values of the list, head first.
    pub open spec fn view(&self) -> Seq<T>
        decreases self,
    {
        match self.head {
            None => Seq::empty(),
            Some(node) => seq![node.value] + node.next.view(),
        }
    }

    /// The first value of a list that is not empty.
    pub open spec fn first(self) -> T
        recommends
            self.head is Some,
    {
        self.head->Some_0.value
    }

    /// What follows the first value of a list that is not empty.
    pub open spec fn rest(self) -> List<T>
        recommends
            self.head is Some,
    {
        self.head->Some_0.next
    }

    /// The empty list.
    pub fn new() -> (r: List<T>)
        ensures
            r@ == Seq::<T>::empty(),
    {
        List { head: None }
    }

    /// A second handle on the same list; no node is copied.
    pub fn share(&self) -> (r: List<T>)
        ensures
            r@ == self@,
    {
        match &self.head {
            None => List { head: None },
            Some(node) => List { head: Some(Rc::clone(node)) },
        }
    }

    /// A new list with `value` in front of this one, which is left as it was.
    pub fn cons(&self, value: T) -> (r: List<T>)
        ensures
            r@ == seq![value] + self@,
    {
        List { head: Some(Rc::new(Node { value, next: self.share() })) }
    }

    /// Whether the list holds no value.
    pub fn is_empty(&self) -> (r: bool)
        ensures
            r == (self@.len() == 0),
    {
        self.head.is_none()
    }

    /// References to the values of the list, head first.
    pub fn iter(&self) -> (r: Vec<&T>)
        ensures
            r@.len() == self@.len(),
            forall|i: int| 0 <= i < r@.len() ==> *r@[i] == self@[i],
    {
        let mut out: Vec<&T> = Vec::new();
        let mut cur: &List<T> = self;
        while cur.head.is_some()
            invariant
                out@.len() + cur@.len() == self@.len(),
                forall|i: int| 0 <= i < out@.len() ==> *out@[i] == self@[i],
                forall|i: int| 0 <= i < cur@.len() ==> cur@[i] == self@[out@.len() + i],
            decreases cur@.len(),
        {
            let node: &Rc<Node<T>> = cur.head.as_ref().unwrap();
            out.push(&node.value);
            assert(cur@ == seq![node.value] + node.next@);
            assert(cur@[0] == node.value);
            assert forall|i: int| 0 <= i < node.next@.len() implies node.next@[i] == self@[
                out@.len() + i
            ] by {
                assert(node.next@[i] == cur@[i + 1]);
            }
            cur = &node.next;
        }
        out
    }
}

/// The values of a list built from one whose values are `start` by consing
/// `vs[0]`, then `vs[1]`, and so on: each `cons` puts its value in front.
pub open spec fn cons_each<T>(start: Seq<T>, vs: Seq<T>) -> Seq<T>
    decreases vs.len(),
{
    if vs.len() == 0 {
        start
    } else {
        seq![vs.last()] + cons_each(start, vs.drop_last())
    }
}

/// Consing `v1, ..., vn` in turn onto the empty list gives a list that is
/// walked as `vn, ..., v1`: the last value consed comes first.
pub proof fn lemma_cons_order<T>(vs: Seq<T>)
    ensures
        cons_each(Seq::<T>::empty(), vs) == vs.reverse(),
    decreases vs.len(),
{
    if vs.len() > 0 {
        lemma_cons_order(vs.drop_last());
        assert(cons_each(Seq::<T>::empty(), vs) =~= vs.reverse());
    }
}

} // verus!
