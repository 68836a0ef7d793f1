//! The values of the language: their type tags, the reference-count header
//! every heap value carries, and the value model itself.

use crate::hamt::HashTrieMap;
use crate::key::{Key, KeyView};
use crate::list::PersistentList;
use crate::set::HashTrieSet;
use std::rc::Rc;
use vstd::prelude::*;

verus! {

/// The kind of a value.
#[derive(Debug, Clone, Copy, PartialEq, Eq, Structural)]
pub enum ValueTag {
    Long,
    Double,
    List,
    Vector,
    HashMap,
    String,
    Keyword,
    Symbol,
    Bool,
    Nil,
    HashSet,
    Atom,
    Ref,
    Agent,
    Channel,
    Function,
    Var,
    MultiArityFunction,
    OpaquePointer,
}

/// The position of a tag in the declaration order above (the order in
/// which values of different kinds compare).
pub open spec fn spec_tag_index(t: ValueTag) -> int {
    match t {
        ValueTag::Long => 0,
        ValueTag::Double => 1,
        ValueTag::List => 2,
        ValueTag::Vector => 3,
        ValueTag::HashMap => 4,
        ValueTag::String => 5,
        ValueTag::Keyword => 6,
        ValueTag::Symbol => 7,
        ValueTag::Bool => 8,
        ValueTag::Nil => 9,
        ValueTag::HashSet => 10,
        ValueTag::Atom => 11,
        ValueTag::Ref => 12,
        ValueTag::Agent => 13,
        ValueTag::Channel => 14,
        ValueTag::Function => 15,
        ValueTag::Var => 16,
        ValueTag::MultiArityFunction => 17,
        ValueTag::OpaquePointer => 18,
    }
}

/// The position of a tag in the declaration order.
pub fn tag_index(t: ValueTag) -> (r: i64)
    ensures
        r == spec_tag_index(t),
{
    match t {
        ValueTag::Long => 0,
        ValueTag::Double => 1,
        ValueTag::List => 2,
        ValueTag::Vector => 3,
        ValueTag::HashMap => 4,
        ValueTag::String => 5,
        ValueTag::Keyword => 6,
        ValueTag::Symbol => 7,
        ValueTag::Bool => 8,
        ValueTag::Nil => 9,
        ValueTag::HashSet => 10,
        ValueTag::Atom => 11,
        ValueTag::Ref => 12,
        ValueTag::Agent => 13,
        ValueTag::Channel => 14,
        ValueTag::Function => 15,
        ValueTag::Var => 16,
        ValueTag::MultiArityFunction => 17,
        ValueTag::OpaquePointer => 18,
    }
}

/// The header of every heap value: a reference count and the value's tag.
/// The count follows 64-bit unsigned wrap-around arithmetic.
pub struct Header {
    refcount: u64,
    tag: ValueTag,
}

impl Header {
    /// The count of references held.
    pub closed spec fn spec_refcount(&self) -> u64 {
        self.refcount
    }

    /// The tag.
    pub closed spec fn spec_tag(&self) -> ValueTag {
        self.tag
    }

    /// A header for a new value: one reference.
    pub fn new(tag: ValueTag) -> (r: Self)
        ensures
            r.spec_refcount() == 1,
            r.spec_tag() == tag,
    {
        Header { refcount: 1, tag }
    }

    /// Take one more reference.
    pub fn retain(&mut self)
        ensures
            final(self).spec_refcount() == vstd::wrapping::u64_specs::wrapping_add(
                old(self).spec_refcount(),
                1,
            ),
            final(self).spec_tag() == old(self).spec_tag(),
    {
        self.refcount = self.refcount.wrapping_add(1);
    }

    /// Drop one reference; says whether it was the last one.
    pub fn release(&mut self) -> (last: bool)
        ensures
            last == (old(self).spec_refcount() == 1),
            final(self).spec_refcount() == vstd::wrapping::u64_specs::wrapping_sub(
                old(self).spec_refcount(),
                1,
            ),
            final(self).spec_tag() == old(self).spec_tag(),
    {
        let before = self.refcount;
        self.refcount = self.refcount.wrapping_sub(1);
        before == 1
    }

    /// The count of references held.
    pub fn refcount(&self) -> (r: u64)
        ensures
            r == self.spec_refcount(),
    {
        self.refcount
    }

    /// The tag.
    pub fn tag(&self) -> (r: ValueTag)
        ensures
            r == self.spec_tag(),
    {
        self.tag
    }
}

/// A value. Atoms, refs, agents, channels, functions, vars and opaque
/// pointers are identities: a tag and an identifier.
pub enum Value {
    Nil,
    Bool(bool),
    Long(i64),
    Str(String),
    Keyword(String),
    Symbol(String),
    List(PersistentList),
    Vector(Rc<Vec<Value>>),
    HashMap(HashTrieMap<Value>),
    HashSet(HashTrieSet),
    Identity(ValueTag, u64),
}

/// The tag of a value.
pub open spec fn spec_value_tag(v: Value) -> ValueTag {
    match v {
        Value::Nil => ValueTag::Nil,
        Value::Bool(_) => ValueTag::Bool,
        Value::Long(_) => ValueTag::Long,
        Value::Str(_) => ValueTag::String,
        Value::Keyword(_) => ValueTag::Keyword,
        Value::Symbol(_) => ValueTag::Symbol,
        Value::List(_) => ValueTag::List,
        Value::Vector(_) => ValueTag::Vector,
        Value::HashMap(_) => ValueTag::HashMap,
        Value::HashSet(_) => ValueTag::HashSet,
        Value::Identity(t, _) => t,
    }
}

/// Whether a value is false in a condition: nil, false and the integer 0.
pub open spec fn spec_is_falsy(v: Value) -> bool {
    match v {
        Value::Nil => true,
        Value::Bool(b) => !b,
        Value::Long(n) => n == 0,
        _ => false,
    }
}

impl Value {
    /// The tag of this value.
    pub fn tag(&self) -> (r: ValueTag)
        ensures
            r == spec_value_tag(*self),
    {
        match self {
            Value::Nil => ValueTag::Nil,
            Value::Bool(_) => ValueTag::Bool,
            Value::Long(_) => ValueTag::Long,
            Value::Str(_) => ValueTag::String,
            Value::Keyword(_) => ValueTag::Keyword,
            Value::Symbol(_) => ValueTag::Symbol,
            Value::List(_) => ValueTag::List,
            Value::Vector(_) => ValueTag::Vector,
            Value::HashMap(_) => ValueTag::HashMap,
            Value::HashSet(_) => ValueTag::HashSet,
            Value::Identity(t, _) => *t,
        }
    }

    /// A copy of this value, sharing its collections.
    pub fn copy(&self) -> (r: Value)
        ensures
            r == *self,
    {
        match self {
            Value::Nil => Value::Nil,
            Value::Bool(b) => Value::Bool(*b),
            Value::Long(n) => Value::Long(*n),
            Value::Str(s) => Value::Str(s.clone()),
            Value::Keyword(s) => Value::Keyword(s.clone()),
            Value::Symbol(s) => Value::Symbol(s.clone()),
            Value::List(l) => Value::List(l.share()),
            Value::Vector(v) => Value::Vector(v.clone()),
            Value::HashMap(m) => Value::HashMap(m.share()),
            Value::HashSet(s) => Value::HashSet(s.share()),
            Value::Identity(t, i) => Value::Identity(*t, *i),
        }
    }

    /// The scalar key that stands for this value in maps and sets, for the
    /// kinds of value that can be keys.
    pub open spec fn spec_as_key(&self) -> Option<KeyView> {
        match self {
            Value::Nil => Some(KeyView::Nil),
            Value::Bool(b) => Some(KeyView::Bool(*b)),
            Value::Long(n) => Some(KeyView::Long(*n)),
            Value::Str(s) => Some(KeyView::Str(s@)),
            Value::Keyword(s) => Some(KeyView::Keyword(s@)),
            Value::Symbol(s) => Some(KeyView::Symbol(s@)),
            Value::Identity(t, id) => Some(KeyView::Identity(*t, *id)),
            _ => None,
        }
    }

    /// The key that stands for this value, for nil, booleans, integers,
    /// strings, keywords, symbols and identities.
    pub fn as_key(&self) -> (r: Option<Key>)
        ensures
            match r {
                Some(k) => self.spec_as_key() == Some(k@),
                None => self.spec_as_key() is None,
            },
    {
        match self {
            Value::Nil => Some(Key::Nil),
            Value::Bool(b) => Some(Key::Bool(*b)),
            Value::Long(n) => Some(Key::Long(*n)),
            Value::Str(s) => Some(Key::Str(crate::text::copy_string(s))),
            Value::Keyword(s) => Some(Key::Keyword(crate::text::copy_string(s))),
            Value::Symbol(s) => Some(Key::Symbol(crate::text::copy_string(s))),
            Value::Identity(t, id) => Some(Key::Identity(*t, *id)),
            _ => None,
        }
    }

    /// The value a scalar key stands for.
    pub fn from_key(k: &Key) -> (r: Value)
        ensures
            r.spec_as_key() == Some(k@),
    {
        match k {
            Key::Nil => Value::Nil,
            Key::Bool(b) => Value::Bool(*b),
            Key::Long(n) => Value::Long(*n),
            Key::Str(s) => Value::Str(crate::text::copy_string(s)),
            Key::Keyword(s) => Value::Keyword(crate::text::copy_string(s)),
            Key::Symbol(s) => Value::Symbol(crate::text::copy_string(s)),
            Key::Identity(t, id) => Value::Identity(*t, *id),
        }
    }
}

/// A call on a header that may change it.
pub enum HeaderOp {
    Retain,
    Release,
}

/// Whether `b` is what the call `op` ([`Header::retain`] or
/// [`Header::release`]) leaves of `a`, as their contracts state it.
pub open spec fn header_step(a: Header, op: HeaderOp, b: Header) -> bool {
    &&& b.spec_tag() == a.spec_tag()
    &&& b.spec_refcount() == match op {
        HeaderOp::Retain => vstd::wrapping::u64_specs::wrapping_add(a.spec_refcount(), 1),
        HeaderOp::Release => vstd::wrapping::u64_specs::wrapping_sub(a.spec_refcount(), 1),
    }
}

/// The count after the calls `ops`, starting from `rc`.
pub open spec fn count_after(rc: u64, ops: Seq<HeaderOp>) -> u64
    decreases ops.len(),
{
    if ops.len() == 0 {
        rc
    } else {
        let before = count_after(rc, ops.drop_last());
        match ops.last() {
            HeaderOp::Retain => vstd::wrapping::u64_specs::wrapping_add(before, 1),
            HeaderOp::Release => vstd::wrapping::u64_specs::wrapping_sub(before, 1),
        }
    }
}

/// A header keeps its tag through any sequence of retains and releases,
/// and its count is the start count moved once per call (reading the count
/// or the tag changes nothing).
pub proof fn law_tag_survives(hs: Seq<Header>, ops: Seq<HeaderOp>)
    requires
        hs.len() == ops.len() + 1,
        forall|i: int| 0 <= i < ops.len() ==> header_step(hs[i], #[trigger] ops[i], hs[i + 1]),
    ensures
        hs.last().spec_tag() == hs[0].spec_tag(),
        hs.last().spec_refcount() == count_after(hs[0].spec_refcount(), ops),
    decreases ops.len(),
{
    if ops.len() > 0 {
        let n = ops.len() - 1;
        assert forall|i: int| 0 <= i < ops.drop_last().len() implies header_step(
            hs.drop_last()[i],
            #[trigger] ops.drop_last()[i],
            hs.drop_last()[i + 1],
        ) by {
            assert(ops.drop_last()[i] == ops[i]);
        }
        law_tag_survives(hs.drop_last(), ops.drop_last());
        assert(header_step(hs[n], ops[n], hs[n + 1]));
    }
}

/// Whether a value is true in a condition: 1, or 0 for nil, false and the
/// integer 0.
pub fn is_truthy(v: &Value) -> (r: i32)
    ensures
        r == if spec_is_falsy(*v) {
            0i32
        } else {
            1i32
        },
{
    match v {
        Value::Nil => 0,
        Value::Bool(b) => if *b {
            1
        } else {
            0
        },
        Value::Long(n) => if *n == 0 {
            0
        } else {
            1
        },
        _ => 1,
    }
}

/// 1 for true, 0 for false.
pub fn bool_to_i32(b: bool) -> (r: i32)
    ensures
        r == if b {
            1i32
        } else {
            0i32
        },
{
    if b {
        1
    } else {
        0
    }
}

/// Whether a value has the given tag.
pub fn has_tag(v: &Value, t: ValueTag) -> (r: bool)
    ensures
        r == (spec_value_tag(*v) == t),
{
    v.tag() == t
}

/// Whether a value is a number.
pub fn is_number(v: &Value) -> (r: bool)
    ensures
        r == (spec_value_tag(*v) == ValueTag::Long || spec_value_tag(*v) == ValueTag::Double),
{
    let t = v.tag();
    t == ValueTag::Long || t == ValueTag::Double
}

/// Whether a value is a collection: a vector, list, map or set.
pub fn is_coll(v: &Value) -> (r: bool)
    ensures
        r == (spec_value_tag(*v) == ValueTag::Vector || spec_value_tag(*v) == ValueTag::List
            || spec_value_tag(*v) == ValueTag::HashMap || spec_value_tag(*v) == ValueTag::HashSet),
{
    let t = v.tag();
    t == ValueTag::Vector || t == ValueTag::List || t == ValueTag::HashMap || t == ValueTag::HashSet
}

/// Whether a value is a function (of one or of several arities).
pub fn is_fn(v: &Value) -> (r: bool)
    ensures
        r == (spec_value_tag(*v) == ValueTag::Function || spec_value_tag(*v)
            == ValueTag::MultiArityFunction),
{
    let t = v.tag();
    t == ValueTag::Function || t == ValueTag::MultiArityFunction
}

/// A section that changes reference counts: the outermost one of a
/// thread takes the global lock, nested ones do not. The thread's depth
/// of such sections is counted with saturating arithmetic.
pub struct ValueRcSection {
    pub nested: bool,
}

impl ValueRcSection {
    /// Enters a section at `depth`: it is nested when a section is
    /// already open; the depth grows by one.
    pub fn enter(depth: &mut u32) -> (r: Self)
        ensures
            r.nested == (*old(depth) > 0),
            *final(depth) == if *old(depth) == u32::MAX {
                u32::MAX
            } else {
                (*old(depth) + 1) as u32
            },
    {
        let current = *depth;
        *depth = current.saturating_add(1);
        ValueRcSection { nested: current > 0 }
    }

    /// Leaves a section: the depth shrinks by one, not below zero.
    pub fn leave(depth: &mut u32)
        ensures
            *final(depth) == if *old(depth) == 0 {
                0
            } else {
                (*old(depth) - 1) as u32
            },
    {
        *depth = (*depth).saturating_sub(1);
    }
}

} // verus!
