//! Function values: single-arity closures and multi-arity functions, and
//! the arity dispatch that decides which code a call runs.

use crate::value::Value;
use vstd::prelude::*;

verus! {

/// The most arguments a compiled function can be called with.
pub const MAX_CALL_ARGS: i32 = 6;

/// A closure: the address of its compiled code, its arity (negative for
/// variadic), and its captured environment.
pub struct FunctionData {
    pub func_ptr: usize,
    pub arity: i32,
    pub env: Vec<Value>,
}

/// One arity of a multi-arity function (negative arity: variadic).
#[derive(Clone, Copy, PartialEq, Eq, Structural)]
pub struct ArityVariant {
    pub arity: i32,
    pub func_ptr: usize,
}

/// A multi-arity function: its variants, tried in order, and the
/// environment they share.
pub struct MultiArityFunctionData {
    pub variants: Vec<ArityVariant>,
    pub env: Vec<Value>,
}

/// A call with `arg_count` arguments can reach compiled code.
pub open spec fn callable_count(arg_count: i32) -> bool {
    0 <= arg_count <= MAX_CALL_ARGS
}

impl FunctionData {
    /// A closure over `env`.
    pub fn new(func_ptr: usize, arity: i32, env: Vec<Value>) -> (r: Self)
        requires
            env@.len() <= u32::MAX,
        ensures
            r.func_ptr == func_ptr,
            r.arity == arity,
            r.env@ == env@,
    {
        FunctionData { func_ptr, arity, env }
    }

    /// The number of captured values.
    pub fn env_size(&self) -> (r: u32)
        requires
            self.env@.len() <= u32::MAX,
        ensures
            r == self.env@.len(),
    {
        self.env.len() as u32
    }

    /// The captured value at `i`.
    pub fn env_at(&self, i: usize) -> (r: &Value)
        requires
            i < self.env@.len(),
        ensures
            *r == self.env@[i as int],
    {
        &self.env[i]
    }

    /// Whether a call with `arg_count` arguments runs the code: the arity
    /// matches or is variadic, and the count is one that compiled code
    /// takes. Otherwise the call gives nil.
    pub fn accepts(&self, arg_count: i32) -> (r: bool)
        ensures
            r == ((self.arity < 0 || self.arity == arg_count) && callable_count(arg_count)),
    {
        (self.arity < 0 || self.arity == arg_count) && 0 <= arg_count && arg_count <= MAX_CALL_ARGS
    }
}

/// The first variant that takes `arg_count` arguments (same arity, or
/// variadic), if any.
pub open spec fn spec_select_variant(vs: Seq<ArityVariant>, arg_count: i32) -> Option<int> {
    if exists|i: int| 0 <= i < vs.len() && variant_takes(vs[i], arg_count) {
        Some(choose|i: int| 0 <= i < vs.len() && variant_takes(vs[i], arg_count) && forall|j: int|
            0 <= j < i ==> !variant_takes(#[trigger] vs[j], arg_count))
    } else {
        None
    }
}

/// A variant takes calls with its own arity; a variadic one takes all.
pub open spec fn variant_takes(v: ArityVariant, arg_count: i32) -> bool {
    v.arity == arg_count || v.arity < 0
}

impl MultiArityFunctionData {
    /// A multi-arity function over `env`.
    pub fn new(variants: Vec<ArityVariant>, env: Vec<Value>) -> (r: Self)
        requires
            variants@.len() <= u32::MAX,
            env@.len() <= u32::MAX,
        ensures
            r.variants@ == variants@,
            r.env@ == env@,
    {
        MultiArityFunctionData { variants, env }
    }

    /// The number of variants.
    pub fn arity_count(&self) -> (r: u32)
        requires
            self.variants@.len() <= u32::MAX,
        ensures
            r == self.variants@.len(),
    {
        self.variants.len() as u32
    }

    /// The number of shared captured values.
    pub fn env_size(&self) -> (r: u32)
        requires
            self.env@.len() <= u32::MAX,
        ensures
            r == self.env@.len(),
    {
        self.env.len() as u32
    }

    /// The index of the variant that a call with `arg_count` arguments
    /// runs: the first that takes that many, when compiled code takes
    /// that many; none otherwise (the call gives nil).
    pub fn select_variant(&self, arg_count: i32) -> (r: Option<usize>)
        ensures
            match r {
                Some(i) => callable_count(arg_count) && spec_select_variant(self.variants@, arg_count)
                    == Some(i as int),
                None => !callable_count(arg_count) || spec_select_variant(self.variants@, arg_count)
                    is None,
            },
    {
        let mut i: usize = 0;
        while i < self.variants.len()
            invariant
                i <= self.variants@.len(),
                forall|j: int| 0 <= j < i ==> !variant_takes(#[trigger] self.variants@[j], arg_count),
            decreases self.variants.len() - i,
        {
            let v = self.variants[i];
            if v.arity == arg_count || v.arity < 0 {
                proof {
                    let vs = self.variants@;
                    assert(variant_takes(vs[i as int], arg_count));
                    let c = choose|c: int| 0 <= c < vs.len() && variant_takes(vs[c], arg_count) && forall|j: int|
                        0 <= j < c ==> !variant_takes(#[trigger] vs[j], arg_count);
                    if c < i {
                    } else if c > i {
                        assert(!variant_takes(vs[i as int], arg_count));
                    }
                }
                if 0 <= arg_count && arg_count <= MAX_CALL_ARGS {
                    return Some(i);
                } else {
                    return None;
                }
            }
            i += 1;
        }
        None
    }
}

} // verus!
