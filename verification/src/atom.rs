//! Atoms (`atom`, `reset!`) and `deref` of any reference value: an atom,
//! a ref (as the current transaction sees it) or an agent.

use crate::agent::AgentState;
use crate::refs::{clorus_ref_deref, tx_view_of};
use crate::transaction::{RefValue, TxContext};
use crate::value::{Value, ValueTag};
use std::collections::HashMap;
use vstd::prelude::*;

verus! {

/// The atoms of a program: the value each holds, by id.
pub struct AtomTable {
    cells: Vec<Value>,
}

impl View for AtomTable {
    type V = Seq<Value>;

    closed spec fn view(&self) -> Seq<Value> {
        self.cells@
    }
}

/// The id of the atom that `a` refers to, if it refers to one of `cells`.
pub open spec fn atom_id(cells: Seq<Value>, a: Value) -> Option<int> {
    match a {
        Value::Identity(ValueTag::Atom, id) => if (id as int) < cells.len() {
            Some(id as int)
        } else {
            None
        },
        _ => None,
    }
}

impl AtomTable {
    /// A table with no atoms.
    pub fn new() -> (r: Self)
        ensures
            r@ == Seq::<Value>::empty(),
    {
        AtomTable { cells: Vec::new() }
    }

    fn find(&self, a: &Value) -> (r: Option<usize>)
        ensures
            r matches Some(i) ==> atom_id(self@, *a) == Some(i as int),
            r is None ==> atom_id(self@, *a) is None,
    {
        match a {
            Value::Identity(ValueTag::Atom, id) => {
                if (*id as u128) < (self.cells.len() as u128) {
                    Some(*id as usize)
                } else {
                    None
                }
            },
            _ => None,
        }
    }

    /// `(atom v)`: a new atom holding `initial`.
    pub fn clorus_atom(&mut self, initial: Value) -> (r: Value)
        requires
            old(self)@.len() < u64::MAX,
        ensures
            r == Value::Identity(ValueTag::Atom, old(self)@.len() as u64),
            final(self)@ == old(self)@.push(initial),
    {
        let id = self.cells.len() as u64;
        self.cells.push(initial);
        Value::Identity(ValueTag::Atom, id)
    }

    /// The value the atom `a` holds; nil when `a` is no atom.
    pub fn atom_deref(&self, a: &Value) -> (r: Value)
        ensures
            r == match atom_id(self@, *a) {
                Some(i) => self@[i],
                None => Value::Nil,
            },
    {
        match self.find(a) {
            Some(i) => self.cells[i].copy(),
            None => Value::Nil,
        }
    }

    /// `(reset! a v)`: the atom now holds `v`, which is given back; nil,
    /// and no change, when `a` is no atom.
    pub fn clorus_reset(&mut self, a: &Value, new_value: Value) -> (r: Value)
        ensures
            match atom_id(old(self)@, *a) {
                Some(i) => final(self)@ == old(self)@.update(i, new_value) && r == new_value,
                None => final(self)@ == old(self)@ && r == Value::Nil,
            },
    {
        match self.find(a) {
            Some(i) => {
                let r = new_value.copy();
                self.cells.set(i, new_value);
                r
            },
            None => Value::Nil,
        }
    }
}

/// The first of `agents` with the id `id`.
pub open spec fn agent_with_id(agents: Seq<AgentState>, id: u64) -> Option<int> {
    if exists|i: int| 0 <= i < agents.len() && (#[trigger] agents[i]).id_view() == id {
        let i = choose|i: int|
            0 <= i < agents.len() && (#[trigger] agents[i]).id_view() == id && forall|j: int|
                0 <= j < i ==> (#[trigger] agents[j]).id_view() != id;
        Some(i)
    } else {
        None
    }
}

/// What `deref` gives for `v`.
pub open spec fn deref_result(
    atoms: Seq<Value>,
    ctx: TxContext,
    refs: Map<usize, RefValue>,
    agents: Seq<AgentState>,
    v: Value,
) -> Value {
    match v {
        Value::Identity(ValueTag::Atom, _) => match atom_id(atoms, v) {
            Some(i) => atoms[i],
            None => Value::Nil,
        },
        Value::Identity(ValueTag::Ref, id) => if id <= usize::MAX && refs.contains_key(id as usize) {
            tx_view_of(ctx, refs, id as usize)
        } else {
            Value::Nil
        },
        Value::Identity(ValueTag::Agent, id) => match agent_with_id(agents, id) {
            Some(i) => agents[i].value_view(),
            None => Value::Nil,
        },
        _ => Value::Nil,
    }
}

/// `(deref v)`: an atom's value, a ref's value as the transaction sees it
/// (a read of its committed value is recorded), or an agent's value; nil
/// for anything else.
pub fn clorus_deref(
    atoms: &AtomTable,
    ctx: &mut TxContext,
    refs: &HashMap<usize, RefValue>,
    agents: &Vec<AgentState>,
    v: &Value,
) -> (r: Value)
    requires
        old(ctx).wf(),
    ensures
        final(ctx).wf(),
        final(ctx).is_active() == old(ctx).is_active(),
        r == deref_result(atoms@, *old(ctx), refs@, agents@, *v),
        !(v matches Value::Identity(ValueTag::Ref, _)) ==> *final(ctx) == *old(ctx),
{
    match v {
        Value::Identity(ValueTag::Atom, _) => atoms.atom_deref(v),
        Value::Identity(ValueTag::Ref, id) => {
            if (*id as u128) > (usize::MAX as u128) {
                return Value::Nil;
            }
            let key = *id as usize;
            if refs.contains_key(&key) {
                clorus_ref_deref(ctx, refs, key)
            } else {
                Value::Nil
            }
        },
        Value::Identity(ValueTag::Agent, id) => {
            let mut i: usize = 0;
            while i < agents.len()
                invariant
                    i <= agents@.len(),
                    *ctx == *old(ctx),
                    old(ctx).wf(),
                    v == Value::Identity(ValueTag::Agent, *id),
                    forall|j: int| 0 <= j < i ==> (#[trigger] agents@[j]).id_view() != *id,
                decreases agents.len() - i,
            {
                if agents[i].id() == *id {
                    proof {
                        assert(agents@[i as int].id_view() == *id);
                        let k = choose|k: int|
                            0 <= k < agents@.len() && (#[trigger] agents@[k]).id_view() == *id && forall|j: int|
                                0 <= j < k ==> (#[trigger] agents@[j]).id_view() != *id;
                        if k < i {
                        } else if k > i {
                        }
                        assert(k == i);
                    }
                    return agents[i].deref();
                }
                i += 1;
            }
            Value::Nil
        },
        _ => Value::Nil,
    }
}

} // verus!
