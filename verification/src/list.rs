//! Persistent singly-linked list with structural sharing: `cons` puts a
//! new node in front of the existing ones, which are shared, not copied.

use crate::value::Value;
use std::rc::Rc;
use vstd::prelude::*;

verus! {

/// A node of a list: its element and the rest of the list.
pub struct ListNode {
    pub head: Value,
    pub tail: Option<Rc<ListNode>>,
}

/// The elements from `node` on, in order.
pub open spec fn nodes_seq(node: Option<Rc<ListNode>>) -> Seq<Value>
    decreases node,
{
    match node {
        None => Seq::empty(),
        Some(n) => seq![n.head].add(nodes_seq(n.tail)),
    }
}

/// A persistent list.
pub struct PersistentList {
    pub head: Option<Rc<ListNode>>,
}

impl PersistentList {
    /// The elements, first to last.
    pub open spec fn view(&self) -> Seq<Value> {
        nodes_seq(self.head)
    }

    /// The empty list.
    pub fn empty() -> (r: Self)
        ensures
            r.view() == Seq::<Value>::empty(),
    {
        PersistentList { head: None }
    }

    /// Whether the list has no element.
    pub fn is_empty(&self) -> (r: bool)
        ensures
            r == (self.view().len() == 0),
    {
        self.head.is_none()
    }

    /// A new list with `value` in front of this one's elements, which it
    /// shares.
    pub fn cons(&self, value: Value) -> (r: Self)
        ensures
            r.view() == seq![value] + self.view(),
    {
        let tail = match &self.head {
            None => None,
            Some(n) => Some(n.clone()),
        };
        PersistentList { head: Some(Rc::new(ListNode { head: value, tail })) }
    }

    /// The first element, if any.
    pub fn first(&self) -> (r: Option<&Value>)
        ensures
            match r {
                Some(v) => self.view().len() > 0 && *v == self.view()[0],
                None => self.view().len() == 0,
            },
    {
        match &self.head {
            None => None,
            Some(n) => Some(&n.head),
        }
    }

    /// The list of all elements but the first (empty for an empty list),
    /// sharing this one's nodes.
    pub fn rest(&self) -> (r: Self)
        ensures
            r.view() == if self.view().len() == 0 {
                Seq::<Value>::empty()
            } else {
                self.view().drop_first()
            },
    {
        match &self.head {
            None => PersistentList { head: None },
            Some(n) => {
                let tail = match &n.tail {
                    None => None,
                    Some(t) => Some(t.clone()),
                };
                let r = PersistentList { head: tail };
                proof {
                    assert(self.view().drop_first() =~= nodes_seq(n.tail));
                }
                r
            },
        }
    }

    /// A list sharing this one's nodes.
    pub fn share(&self) -> (r: Self)
        ensures
            r == *self,
    {
        match &self.head {
            None => PersistentList { head: None },
            Some(n) => PersistentList { head: Some(n.clone()) },
        }
    }

    /// Number of elements (walks the list).
    pub fn count(&self) -> (r: u64)
        requires
            self.view().len() <= u64::MAX,
        ensures
            r == self.view().len(),
    {
        let mut n: u64 = 0;
        let mut cur: Option<&Rc<ListNode>> = match &self.head {
            None => None,
            Some(h) => Some(h),
        };
        while cur.is_some()
            invariant
                n + ref_seq(cur).len() == self.view().len(),
                self.view().len() <= u64::MAX,
            decreases ref_seq(cur).len(),
        {
            let c = cur.unwrap();
            let ghost before = ref_seq(cur);
            n = n + 1;
            cur = match &c.tail {
                None => None,
                Some(t) => Some(t),
            };
            proof {
                assert(ref_seq(cur) == nodes_seq(c.tail));
                assert(before == seq![c.head] + nodes_seq(c.tail));
            }
        }
        n
    }

    /// The elements, first to last, in a vector of references.
    pub fn to_vec_refs(&self) -> (r: Vec<&Value>)
        ensures
            r@.len() == self.view().len(),
            forall|i: int| 0 <= i < r@.len() ==> *(#[trigger] r@[i]) == self.view()[i],
    {
        let mut out: Vec<&Value> = Vec::new();
        let mut cur: Option<&Rc<ListNode>> = match &self.head {
            None => None,
            Some(h) => Some(h),
        };
        proof {
            assert(self.view().subrange(0, self.view().len() as int) =~= self.view());
        }
        while cur.is_some()
            invariant
                out@.len() + ref_seq(cur).len() == self.view().len(),
                forall|i: int| 0 <= i < out@.len() ==> *(#[trigger] out@[i]) == self.view()[i],
                self.view().subrange(out@.len() as int, self.view().len() as int) == ref_seq(cur),
            decreases ref_seq(cur).len(),
        {
            let c = cur.unwrap();
            proof {
                assert(ref_seq(cur)[0] == c.head);
                assert(self.view()[out@.len() as int] == ref_seq(cur)[0]);
                assert(self.view().subrange(out@.len() as int + 1, self.view().len() as int) =~= ref_seq(
                    cur,
                ).drop_first());
            }
            let ghost before = ref_seq(cur);
            out.push(&c.head);
            cur = match &c.tail {
                None => None,
                Some(t) => Some(t),
            };
            proof {
                assert(ref_seq(cur) == nodes_seq(c.tail));
                assert(before == seq![c.head] + nodes_seq(c.tail));
                assert(ref_seq(cur) =~= before.drop_first());
            }
        }
        out
    }
}

/// The elements from a borrowed node on.
pub open spec fn ref_seq(cur: Option<&Rc<ListNode>>) -> Seq<Value> {
    match cur {
        None => Seq::empty(),
        Some(c) => nodes_seq(Some(*c)),
    }
}

} // verus!
