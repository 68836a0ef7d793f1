//! Refs (`ref`, `deref`, `ref-set`, `alter`, `commute`, `ensure`): reading
//! and updating refs inside and outside transactions. Refs are held by id
//! in a table of their committed states.

use crate::transaction::{
    clorus_tx_active, tx_get_commute_value, tx_get_write, tx_has_write, tx_record_read, tx_stage_commute,
    tx_stage_write, RefValue, TxContext,
};
use crate::value::Value;
use std::collections::HashMap;
use vstd::prelude::*;

verus! {

broadcast use vstd::std_specs::hash::group_hash_axioms;

/// A new ref's state: its initial value at version 0.
pub fn new_ref(initial: Value) -> (r: RefValue)
    ensures
        r.value == initial,
        r.version == 0,
{
    RefValue { value: initial, version: 0 }
}

/// Sets a ref's value outside a transaction's commit path, moving it to the
/// next version; gives back the old value.
pub fn set_versioned(rv: &mut RefValue, new_value: Value) -> (old_value: Value)
    requires
        old(rv).version < u64::MAX,
    ensures
        old_value == old(rv).value,
        final(rv).value == new_value,
        final(rv).version == old(rv).version + 1,
{
    let old_value = rv.value.copy();
    rv.value = new_value;
    rv.version = rv.version + 1;
    old_value
}

/// What a read of ref `id` gives inside a transaction: the staged write,
/// else the locally accumulated commute result, else the committed value.
pub open spec fn tx_view_of(ctx: TxContext, refs: Map<usize, RefValue>, id: usize) -> Value {
    if ctx.is_active() && ctx.tx().write_view().contains_key(id) {
        ctx.tx().write_view()[id]
    } else if ctx.is_active() && ctx.tx().commute_value_view().contains_key(id) {
        ctx.tx().commute_value_view()[id]
    } else {
        refs[id].value
    }
}

/// `(deref r)`: the ref's value as the transaction sees it; a read of the
/// committed value is recorded (at its version) for validation.
pub fn clorus_ref_deref(ctx: &mut TxContext, refs: &HashMap<usize, RefValue>, id: usize) -> (r: Value)
    requires
        old(ctx).wf(),
        refs@.contains_key(id),
    ensures
        final(ctx).wf(),
        r == tx_view_of(*old(ctx), refs@, id),
        final(ctx).is_active() == old(ctx).is_active(),
        old(ctx).is_active() && !old(ctx).tx().write_view().contains_key(id)
            && !old(ctx).tx().commute_value_view().contains_key(id) ==> final(ctx).tx().read_view() == if old(
            ctx,
        ).tx().commute_view().contains_key(id) || old(ctx).tx().read_view().contains_key(id) {
            old(ctx).tx().read_view()
        } else {
            old(ctx).tx().read_view().insert(id, refs@[id].version)
        },
        old(ctx).is_active() ==> final(ctx).tx().write_view() == old(ctx).tx().write_view()
            && final(ctx).tx().commute_view() == old(ctx).tx().commute_view()
            && final(ctx).tx().commute_value_view() == old(ctx).tx().commute_value_view()
            && final(ctx).tx().depth_view() == old(ctx).tx().depth_view(),
        old(ctx).is_active() && (old(ctx).tx().write_view().contains_key(id)
            || old(ctx).tx().commute_value_view().contains_key(id)) ==> final(ctx).tx().read_view() == old(
            ctx,
        ).tx().read_view(),
{
    match tx_get_write(ctx, id) {
        Some(v) => {
            return v;
        },
        None => {},
    }
    match tx_get_commute_value(ctx, id) {
        Some(v) => {
            return v;
        },
        None => {},
    }
    let (value, version) = match refs.get(&id) {
        Some(rv) => (rv.value.copy(), rv.version),
        None => (Value::Nil, 0),
    };
    tx_record_read(ctx, id, version);
    value
}

/// `(ref-set r v)`: stages `v` as the ref's new value and gives it back;
/// outside a transaction nothing happens and the result is nil.
pub fn clorus_ref_set(ctx: &mut TxContext, id: usize, new_value: Value) -> (r: Value)
    requires
        old(ctx).wf(),
    ensures
        final(ctx).wf(),
        !old(ctx).is_active() ==> r == Value::Nil && !final(ctx).is_active(),
        old(ctx).is_active() ==> r == new_value && final(ctx).is_active()
            && final(ctx).tx().write_view() == old(ctx).tx().write_view().insert(id, new_value)
            && final(ctx).tx().read_view() == old(ctx).tx().read_view(),
{
    if !clorus_tx_active(ctx) {
        return Value::Nil;
    }
    tx_stage_write(ctx, id, new_value.copy());
    new_value
}

/// `(alter r f args)` once the function's result is known: as `ref-set`.
pub fn clorus_alter(ctx: &mut TxContext, id: usize, new_value: Value) -> (r: Value)
    requires
        old(ctx).wf(),
    ensures
        final(ctx).wf(),
        !old(ctx).is_active() ==> r == Value::Nil && !final(ctx).is_active(),
        old(ctx).is_active() ==> r == new_value && final(ctx).is_active()
            && final(ctx).tx().write_view() == old(ctx).tx().write_view().insert(id, new_value)
            && final(ctx).tx().read_view() == old(ctx).tx().read_view(),
{
    clorus_ref_set(ctx, id, new_value)
}

/// The value `commute` applies its function to: the transaction's view of
/// the ref, without recording a read; none outside a transaction.
pub fn commute_base(ctx: &TxContext, refs: &HashMap<usize, RefValue>, id: usize) -> (r: Option<Value>)
    requires
        refs@.contains_key(id),
    ensures
        !ctx.is_active() ==> r is None,
        ctx.is_active() ==> r == Some(tx_view_of(*ctx, refs@, id)),
{
    if !clorus_tx_active(ctx) {
        return None;
    }
    match tx_get_write(ctx, id) {
        Some(v) => {
            return Some(v);
        },
        None => {},
    }
    match tx_get_commute_value(ctx, id) {
        Some(v) => {
            return Some(v);
        },
        None => {},
    }
    match refs.get(&id) {
        Some(rv) => Some(rv.value.copy()),
        None => None,
    }
}

/// `(commute r f args)` once `f` applied to the base gave `new_value`: a
/// ref with a staged write gets `new_value` as its write; otherwise the
/// commute is queued with `new_value` as its local result. Gives back
/// `new_value`; nil outside a transaction.
pub fn clorus_commute(ctx: &mut TxContext, id: usize, func: Value, args_vec: Value, new_value: Value) -> (r: Value)
    requires
        old(ctx).wf(),
    ensures
        final(ctx).wf(),
        !old(ctx).is_active() ==> r == Value::Nil && !final(ctx).is_active(),
        old(ctx).is_active() ==> r == new_value && final(ctx).is_active(),
        old(ctx).is_active() && old(ctx).tx().write_view().contains_key(id) ==> final(ctx).tx().write_view()
            == old(ctx).tx().write_view().insert(id, new_value),
        old(ctx).is_active() && !old(ctx).tx().write_view().contains_key(id) ==> final(ctx).tx().commute_value_view()
            == old(ctx).tx().commute_value_view().insert(id, new_value) && final(ctx).tx().read_view()
            == old(ctx).tx().read_view().remove(id) && final(ctx).tx().write_view() == old(ctx).tx().write_view(),
{
    if !clorus_tx_active(ctx) {
        return Value::Nil;
    }
    if tx_has_write(ctx, id) {
        tx_stage_write(ctx, id, new_value.copy());
    } else {
        tx_stage_commute(ctx, id, func, args_vec, new_value.copy());
    }
    new_value
}

/// `(ensure r)`: records a read of the ref (unless it has a staged write)
/// so that a concurrent change fails the commit, and gives the ref's
/// value; nil outside a transaction.
pub fn clorus_ensure(ctx: &mut TxContext, refs: &HashMap<usize, RefValue>, id: usize) -> (r: Value)
    requires
        old(ctx).wf(),
        refs@.contains_key(id),
    ensures
        final(ctx).wf(),
        !old(ctx).is_active() ==> r == Value::Nil && !final(ctx).is_active(),
        old(ctx).is_active() ==> r == tx_view_of(*old(ctx), refs@, id) && final(ctx).is_active(),
        old(ctx).is_active() && !old(ctx).tx().write_view().contains_key(id)
            && !old(ctx).tx().commute_view().contains_key(id) ==> final(ctx).tx().read_view().contains_key(id),
{
    if !clorus_tx_active(ctx) {
        return Value::Nil;
    }
    if !tx_has_write(ctx, id) {
        let version = match refs.get(&id) {
            Some(rv) => rv.version,
            None => 0,
        };
        tx_record_read(ctx, id, version);
    }
    clorus_ref_deref(ctx, refs, id)
}

} // verus!
