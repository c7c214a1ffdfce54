//! An immutable singly linked list, and conversions to and from vectors.
use vstd::prelude::*;

verus! {

/// A list: a first element and the rest, or the empty list.
#[derive(Debug, PartialEq)]
pub enum List<T: Clone> {
    Mems(T, Box<List<T>>),
    Null,
}

/// Things that can be turned into a list of their elements.
pub trait AsList {
    type T: Clone;

    fn as_list(&self) -> List<Self::T>;
}

/// Things with a first element.
pub trait Head {
    type Type;

    fn head(&self) -> Option<Self::Type>;
}

/// Things whose elements after the first form a list.
pub trait Tail {
    type Type: Clone;

    fn tail(&self) -> Option<List<Self::Type>>;
}

impl<T: Clone> List<T> {
    /// The elements, first to last.
    pub open spec fn elems(self) -> Seq<T>
        decreases self,
    {
        match self {
            List::Mems(h, t) => seq![h] + (*t).elems(),
            List::Null => Seq::empty(),
        }
    }

    /// The list of a vector's elements, in order.
    pub fn from(vector: Vec<T>) -> (r: List<T>)
        ensures
            r.elems() == vector@,
    {
        let ghost all = vector@;
        let mut vector = vector;
        let mut tail: List<T> = List::Null;
        while vector.len() > 0
            invariant
                vector@ + tail.elems() == all,
            decreases vector@.len(),
        {
            let ghost before = vector@;
            match vector.pop() {
                Some(x) => {
                    let ghost old_tail = tail.elems();
                    tail = List::Mems(x, Box::new(tail));
                    assert(before == vector@.push(x));
                    assert(vector@ + tail.elems() == before + old_tail);
                },
                None => {},
            }
        }
        assert(vector@ + tail.elems() == tail.elems());
        tail
    }

    /// A copy of the element at index `i`.
    pub fn at(&self, i: usize) -> (r: T)
        requires
            i < self.elems().len(),
        ensures
            cloned(self.elems()[i as int], r),
    {
        let mut v = self.as_vec();
        v.remove(i)
    }

    /// A copy of the last element.
    pub fn last(&self) -> (r: T)
        requires
            self.elems().len() > 0,
        ensures
            cloned(self.elems().last(), r),
    {
        let mut v = self.as_vec();
        let n = v.len();
        v.remove(n - 1)
    }

    /// A vector of copies of the elements, in order.
    pub fn as_vec(&self) -> (r: Vec<T>)
        ensures
            r@.len() == self.elems().len(),
            forall|j: int| 0 <= j < r@.len() ==> cloned(self.elems()[j], #[trigger] r@[j]),
    {
        let mut ret: Vec<T> = Vec::new();
        let mut cur: &List<T> = self;
        loop
            invariant
                ret@.len() + cur.elems().len() == self.elems().len(),
                cur.elems() == self.elems().skip(ret@.len() as int),
                forall|j: int| 0 <= j < ret@.len() ==> cloned(self.elems()[j], #[trigger] ret@[j]),
            decreases cur.elems().len(),
        {
            match cur {
                List::Mems(h, t) => {
                    let ghost n: int = ret@.len() as int;
                    assert(cur.elems() == seq![*h] + (**t).elems());
                    assert(self.elems()[n] == cur.elems()[0]);
                    assert((**t).elems() =~= cur.elems().skip(1));
                    assert(self.elems().skip(n).skip(1) =~= self.elems().skip(n + 1));
                    ret.push(h.clone());
                    cur = &**t;
                },
                List::Null => {
                    return ret;
                },
            }
        }
    }
}

impl<T: Clone> Clone for List<T> {
    /// A list of copies of the elements, in order.
    fn clone(&self) -> (r: List<T>)
        ensures
            r.elems().len() == self.elems().len(),
            forall|j: int| 0 <= j < self.elems().len() ==> cloned(self.elems()[j], #[trigger] r.elems()[j]),
    {
        List::from(self.as_vec())
    }
}

impl<V: Clone> AsList for Vec<V> {
    type T = V;

    fn as_list(&self) -> (r: List<V>)
        ensures
            r.elems().len() == self@.len(),
            forall|j: int| 0 <= j < self@.len() ==> cloned(self@[j], #[trigger] r.elems()[j]),
    {
        List::from(self.clone())
    }
}

impl<T: Clone> Head for List<T> {
    type Type = T;

    fn head(&self) -> (r: Option<T>)
        ensures
            self.elems().len() == 0 ==> r is None,
            self.elems().len() > 0 ==> r is Some && cloned(self.elems()[0], r->Some_0),
    {
        match self {
            List::Mems(h, _) => Some(h.clone()),
            List::Null => None,
        }
    }
}

impl<T: Clone> Tail for List<T> {
    type Type = T;

    fn tail(&self) -> (r: Option<List<T>>)
        ensures
            self.elems().len() == 0 ==> r is None,
            self.elems().len() > 0 ==> r is Some && r->Some_0.elems().len() == self.elems().len() - 1
                && forall|j: int|
                0 <= j < r->Some_0.elems().len() ==> cloned(
                    self.elems()[j + 1],
                    #[trigger] r->Some_0.elems()[j],
                ),
    {
        match self {
            List::Mems(_, t) => Some((**t).clone()),
            List::Null => None,
        }
    }
}

} // verus!
