//! Software transactional memory: the per-thread transaction context of
//! `dosync` blocks.
//!
//! A transaction keeps a read set (the version of each ref when it was
//! first read), a write set (values staged by `ref-set` / `alter`), and a
//! commute set (functions replayed at commit time against the latest
//! committed value). Commit validates every recorded read against the
//! refs' current versions and then applies writes and commutes, bumping
//! each touched ref's version by one.
//!
//! Refs are identified by a `usize` id. The refs that a commit locks are
//! handed to it as a map from id to [`RefValue`].

use crate::collections::spec_items;
use crate::value::Value;
use std::collections::HashMap;
use vstd::prelude::*;
use vstd::std_specs::iter::IteratorSpec;

verus! {

broadcast use vstd::std_specs::hash::group_hash_axioms;

/// A deferred commutative update: the function and the extra arguments
/// passed after the ref's current value.
pub struct CommuteFn {
    pub func: Value,
    pub args_vec: Value,
}

/// A ref's committed state: its value and its version, which every
/// committed write increments.
pub struct RefValue {
    pub value: Value,
    pub version: u64,
}

/// The state of one (possibly nested) transaction.
pub struct Transaction {
    pub(crate) id: u64,
    pub(crate) reads: HashMap<usize, u64>,
    pub(crate) writes: HashMap<usize, Value>,
    pub(crate) commutes: HashMap<usize, Vec<CommuteFn>>,
    pub(crate) commute_values: HashMap<usize, Value>,
    pub(crate) depth: u32,
}

/// The ids of a hash map keyed by ref id, each once.
fn key_list<V>(m: &HashMap<usize, V>) -> (r: Vec<usize>)
    ensures
        r@.to_set() == m@.dom(),
        r@.no_duplicates(),
{
    let ghost all = vstd::std_specs::hash::spec_keys_iter(m).remaining();
    let mut out: Vec<usize> = Vec::new();
    for k in it: m.keys()
        invariant
            it.seq() == all,
            out@.len() == it.index(),
            forall|j: int| 0 <= j < out@.len() ==> out@[j] == *all[j],
            all.unref().to_set() == m@.dom(),
            all.no_duplicates(),
    {
        out.push(*k);
    }
    proof {
        assert(out@ =~= all.unref());
        assert forall|i: int, j: int|
            0 <= i < out@.len() && 0 <= j < out@.len() && i != j implies out@[i] != out@[j] by {
            assert(all[i] != all[j]);
        }
    }
    out
}

impl Transaction {
    /// The version recorded for each ref read in this transaction.
    pub closed spec fn read_view(&self) -> Map<usize, u64> {
        self.reads@
    }

    /// The value staged for each written ref.
    pub closed spec fn write_view(&self) -> Map<usize, Value> {
        self.writes@
    }

    /// The commute operations queued for each ref, oldest first.
    pub closed spec fn commute_view(&self) -> Map<usize, Seq<CommuteFn>> {
        Map::new(|k: usize| self.commutes@.contains_key(k), |k: usize| self.commutes@[k]@)
    }

    /// The locally accumulated result of the commutes on each ref.
    pub closed spec fn commute_value_view(&self) -> Map<usize, Value> {
        self.commute_values@
    }

    /// How many `dosync` blocks are open on this transaction.
    pub closed spec fn depth_view(&self) -> nat {
        self.depth as nat
    }

    /// The transaction's id.
    pub closed spec fn id_view(&self) -> u64 {
        self.id
    }

    /// A ref is never both in the read set and under commutes; every queued
    /// commute has its local value; at least one block is open.
    pub closed spec fn wf(&self) -> bool {
        &&& self.reads@.dom().disjoint(self.commutes@.dom())
        &&& self.commute_values@.dom() == self.commutes@.dom()
        &&& forall|k: usize| #[trigger] self.commutes@.contains_key(k) ==> self.commutes@[k]@.len() > 0
        &&& self.depth >= 1
    }

    /// A fresh top-level transaction with the given id.
    pub fn new(id: u64) -> (r: Transaction)
        ensures
            r.wf(),
            r.id_view() == id,
            r.read_view() == Map::<usize, u64>::empty(),
            r.write_view() == Map::<usize, Value>::empty(),
            r.commute_view() == Map::<usize, Seq<CommuteFn>>::empty(),
            r.commute_value_view() == Map::<usize, Value>::empty(),
            r.depth_view() == 1,
    {
        let r = Transaction {
            id,
            reads: HashMap::new(),
            writes: HashMap::new(),
            commutes: HashMap::new(),
            commute_values: HashMap::new(),
            depth: 1,
        };
        proof {
            assert(r.commute_view() =~= Map::<usize, Seq<CommuteFn>>::empty());
        }
        r
    }

    /// Records that `ref_id` was read at `version`. The first read of a
    /// ref is the one validated at commit; a ref under commutes is not
    /// recorded.
    pub fn record_read(&mut self, ref_id: usize, version: u64)
        requires
            old(self).wf(),
        ensures
            final(self).wf(),
            final(self).read_view() == if old(self).commute_view().contains_key(ref_id)
                || old(self).read_view().contains_key(ref_id) {
                old(self).read_view()
            } else {
                old(self).read_view().insert(ref_id, version)
            },
            final(self).write_view() == old(self).write_view(),
            final(self).commute_view() == old(self).commute_view(),
            final(self).commute_value_view() == old(self).commute_value_view(),
            final(self).depth_view() == old(self).depth_view(),
            final(self).id_view() == old(self).id_view(),
    {
        if !self.commutes.contains_key(&ref_id) && !self.reads.contains_key(&ref_id) {
            self.reads.insert(ref_id, version);
        }
    }

    /// Drops the commutes queued for `ref_id` and their local value.
    fn clear_commutes_for_ref(&mut self, ref_id: usize)
        requires
            old(self).wf(),
        ensures
            final(self).wf(),
            final(self).read_view() == old(self).read_view(),
            final(self).write_view() == old(self).write_view(),
            final(self).commute_view() == old(self).commute_view().remove(ref_id),
            final(self).commute_value_view() == old(self).commute_value_view().remove(ref_id),
            final(self).depth_view() == old(self).depth_view(),
            final(self).id_view() == old(self).id_view(),
    {
        let _ = self.commute_values.remove(&ref_id);
        let _ = self.commutes.remove(&ref_id);
        proof {
            assert(self.commute_view() =~= old(self).commute_view().remove(ref_id));
            assert(self.commute_values@.dom() =~= self.commutes@.dom());
        }
    }

    /// Stages a write of `value` to `ref_id`. A write supersedes the
    /// ref's queued commutes; an earlier read record is kept, so that the
    /// read is still validated at commit.
    pub fn stage_write(&mut self, ref_id: usize, value: Value)
        requires
            old(self).wf(),
        ensures
            final(self).wf(),
            final(self).read_view() == old(self).read_view(),
            final(self).write_view() == old(self).write_view().insert(ref_id, value),
            final(self).commute_view() == old(self).commute_view().remove(ref_id),
            final(self).commute_value_view() == old(self).commute_value_view().remove(ref_id),
            final(self).depth_view() == old(self).depth_view(),
            final(self).id_view() == old(self).id_view(),
    {
        self.clear_commutes_for_ref(ref_id);
        let _ = self.writes.insert(ref_id, value);
    }

    /// Queues a commute of `func` with `args_vec` on `ref_id`, whose local
    /// result is now `local_value`. The ref leaves the read set: commutes
    /// are replayed on the latest value, so no read of it is validated.
    pub fn stage_commute(&mut self, ref_id: usize, func: Value, args_vec: Value, local_value: Value)
        requires
            old(self).wf(),
        ensures
            final(self).wf(),
            final(self).read_view() == old(self).read_view().remove(ref_id),
            final(self).write_view() == old(self).write_view(),
            final(self).commute_view() == old(self).commute_view().insert(
                ref_id,
                if old(self).commute_view().contains_key(ref_id) {
                    old(self).commute_view()[ref_id]
                } else {
                    Seq::<CommuteFn>::empty()
                }.push(CommuteFn { func, args_vec }),
            ),
            final(self).commute_value_view() == old(self).commute_value_view().insert(
                ref_id,
                local_value,
            ),
            final(self).depth_view() == old(self).depth_view(),
            final(self).id_view() == old(self).id_view(),
    {
        let _ = self.reads.remove(&ref_id);
        let mut queued: Vec<CommuteFn> = match self.commutes.remove(&ref_id) {
            Some(v) => v,
            None => Vec::new(),
        };
        let ghost prev = queued@;
        queued.push(CommuteFn { func, args_vec });
        let _ = self.commutes.insert(ref_id, queued);
        let _ = self.commute_values.insert(ref_id, local_value);
        proof {
            assert(self.commute_view() =~= old(self).commute_view().insert(
                ref_id,
                prev.push(CommuteFn { func, args_vec }),
            ));
            assert(self.reads@.dom().disjoint(self.commutes@.dom()));
            assert(self.commute_values@.dom() =~= self.commutes@.dom());
        }
    }

    /// The value staged for `ref_id`, if any.
    pub fn get_write(&self, ref_id: usize) -> (r: Option<Value>)
        ensures
            r == if self.write_view().contains_key(ref_id) {
                Some(self.write_view()[ref_id])
            } else {
                None::<Value>
            },
    {
        match self.writes.get(&ref_id) {
            Some(v) => Some(v.copy()),
            None => None,
        }
    }

    /// The local result of the commutes on `ref_id`, if any.
    pub fn get_commute_value(&self, ref_id: usize) -> (r: Option<Value>)
        ensures
            r == if self.commute_value_view().contains_key(ref_id) {
                Some(self.commute_value_view()[ref_id])
            } else {
                None::<Value>
            },
    {
        match self.commute_values.get(&ref_id) {
            Some(v) => Some(v.copy()),
            None => None,
        }
    }

    /// Whether a write to `ref_id` is staged.
    pub fn has_write(&self, ref_id: usize) -> (r: bool)
        ensures
            r == self.write_view().contains_key(ref_id),
    {
        self.writes.contains_key(&ref_id)
    }

    /// Whether commutes on `ref_id` are queued.
    pub fn has_commute(&self, ref_id: usize) -> (r: bool)
        ensures
            r == self.commute_view().contains_key(ref_id),
    {
        self.commutes.contains_key(&ref_id)
    }

    /// The read set.
    pub fn read_set(&self) -> (r: &HashMap<usize, u64>)
        ensures
            r@ == self.read_view(),
    {
        &self.reads
    }

    /// The write set.
    pub fn write_set(&self) -> (r: &HashMap<usize, Value>)
        ensures
            r@ == self.write_view(),
    {
        &self.writes
    }
}

/// Every ref in the read set still has the version that was read.
pub open spec fn reads_valid(reads: Map<usize, u64>, refs: Map<usize, RefValue>) -> bool {
    forall|id: usize| #[trigger] reads.contains_key(id) ==> refs[id].version == reads[id]
}

/// Every ref that the transaction touched is among `refs`, and each one
/// that it changes has a version that can still be incremented.
pub open spec fn commit_ready(tx: &Transaction, refs: Map<usize, RefValue>) -> bool {
    &&& forall|id: usize| #[trigger] tx.read_view().contains_key(id) ==> refs.contains_key(id)
    &&& forall|id: usize| #[trigger]
        tx.write_view().contains_key(id) ==> refs.contains_key(id) && refs[id].version < u64::MAX
    &&& forall|id: usize| #[trigger]
        tx.commute_view().contains_key(id) ==> refs.contains_key(id) && refs[id].version < u64::MAX
}

/// The refs after a successful commit: a written ref takes its staged
/// value; a ref with commutes only takes the replayed result; each of them
/// gets the next version; every other ref is unchanged.
pub open spec fn committed_refs(
    writes: Map<usize, Value>,
    commutes: Map<usize, Seq<CommuteFn>>,
    refs: Map<usize, RefValue>,
    replayed: Map<usize, Value>,
) -> Map<usize, RefValue> {
    Map::new(
        |id: usize| refs.contains_key(id),
        |id: usize|
            if writes.contains_key(id) {
                RefValue { value: writes[id], version: (refs[id].version + 1) as u64 }
            } else if commutes.contains_key(id) {
                RefValue { value: replayed[id], version: (refs[id].version + 1) as u64 }
            } else {
                refs[id]
            },
    )
}

/// A copy of a ref's state.
fn copy_ref_value(rv: &RefValue) -> (r: RefValue)
    ensures
        r == *rv,
{
    RefValue { value: rv.value.copy(), version: rv.version }
}

/// A call that replaying a ref's commutes asks for: the commute's function
/// and the arguments to call it with.
pub struct ReplayCall {
    pub func: Value,
    pub args: Vec<Value>,
}

/// The arguments of a commute's call on the value `current`: that value,
/// then the commute's extra arguments.
pub open spec fn replay_args(current: Value, c: CommuteFn) -> Seq<Value> {
    seq![current] + spec_items(c.args_vec)
}

/// Replaying the commutes of one ref at commit, one call at a time: it
/// starts from the ref's latest committed value, and each commute's
/// function is called on the result so far (see [`ReplayCall`]); the
/// caller makes each call and feeds its result back.
pub struct CommuteReplay {
    id: usize,
    start: Value,
    commutes: Vec<CommuteFn>,
    results: Vec<Value>,
}

impl CommuteReplay {
    /// The ref being replayed.
    pub closed spec fn id_view(&self) -> usize {
        self.id
    }

    /// The value the replay started from.
    pub closed spec fn start_view(&self) -> Value {
        self.start
    }

    /// The commutes to replay, oldest first.
    pub closed spec fn commutes_view(&self) -> Seq<CommuteFn> {
        self.commutes@
    }

    /// The results of the calls made so far.
    pub closed spec fn results_view(&self) -> Seq<Value> {
        self.results@
    }

    /// No more results than commutes.
    pub open spec fn wf(&self) -> bool {
        self.results_view().len() <= self.commutes_view().len()
    }

    /// The value so far: the start, or the last call's result.
    pub open spec fn current_view(&self) -> Value {
        if self.results_view().len() == 0 {
            self.start_view()
        } else {
            self.results_view().last()
        }
    }

    /// Every commute has been called.
    pub open spec fn finished_view(&self) -> bool {
        self.results_view().len() == self.commutes_view().len()
    }

    /// The ref being replayed.
    pub fn id(&self) -> (r: usize)
        ensures
            r == self.id_view(),
    {
        self.id
    }

    /// Whether every commute has been called.
    pub fn is_finished(&self) -> (r: bool)
        requires
            self.wf(),
        ensures
            r == self.finished_view(),
    {
        self.results.len() >= self.commutes.len()
    }

    /// The value so far.
    pub fn outcome(&self) -> (r: Value)
        ensures
            r == self.current_view(),
    {
        if self.results.len() == 0 {
            self.start.copy()
        } else {
            self.results[self.results.len() - 1].copy()
        }
    }

    /// The next call to make: the next commute's function on the value so
    /// far and the commute's extra arguments; none when all are made.
    pub fn next_call(&self) -> (r: Option<ReplayCall>)
        requires
            self.wf(),
        ensures
            self.finished_view() ==> r is None,
            !self.finished_view() ==> (r matches Some(c) && c.func == self.commutes_view()[self.results_view().len() as int].func
                && c.args@ == replay_args(self.current_view(), self.commutes_view()[self.results_view().len() as int])),
    {
        let k = self.results.len();
        if k >= self.commutes.len() {
            return None;
        }
        let c = &self.commutes[k];
        let mut args: Vec<Value> = Vec::new();
        args.push(self.outcome());
        let items = crate::collections::items_of(&c.args_vec);
        let mut i: usize = 0;
        while i < items.len()
            invariant
                i <= items@.len(),
                items@.len() == spec_items(c.args_vec).len(),
                forall|q: int| 0 <= q < items@.len() ==> *(#[trigger] items@[q]) == spec_items(c.args_vec)[q],
                args@ == seq![self.current_view()] + spec_items(c.args_vec).take(i as int),
            decreases items.len() - i,
        {
            args.push(items[i].copy());
            proof {
                assert(spec_items(c.args_vec).take(i + 1) =~= spec_items(c.args_vec).take(i as int).push(
                    spec_items(c.args_vec)[i as int],
                ));
                assert(args@ =~= seq![self.current_view()] + spec_items(c.args_vec).take(i + 1));
            }
            i += 1;
        }
        proof {
            assert(spec_items(c.args_vec).take(items@.len() as int) =~= spec_items(c.args_vec));
        }
        Some(ReplayCall { func: c.func.copy(), args })
    }

    /// Records the result of the next call.
    pub fn feed(&mut self, result: Value)
        requires
            old(self).wf(),
            !old(self).finished_view(),
        ensures
            final(self).wf(),
            final(self).id_view() == old(self).id_view(),
            final(self).start_view() == old(self).start_view(),
            final(self).commutes_view() == old(self).commutes_view(),
            final(self).results_view() == old(self).results_view().push(result),
    {
        self.results.push(result);
    }
}

/// A copy of a commute.
fn copy_commute(c: &CommuteFn) -> (r: CommuteFn)
    ensures
        r == *c,
{
    CommuteFn { func: c.func.copy(), args_vec: c.args_vec.copy() }
}

/// Starts replaying the commutes that the open transaction queued on `id`,
/// from the ref's latest committed value.
pub fn begin_replay(ctx: &TxContext, refs: &HashMap<usize, RefValue>, id: usize) -> (r: CommuteReplay)
    requires
        ctx.is_active(),
        ctx.tx().commute_view().contains_key(id),
        refs@.contains_key(id),
    ensures
        r.wf(),
        r.id_view() == id,
        r.start_view() == refs@[id].value,
        r.commutes_view() == ctx.tx().commute_view()[id],
        r.results_view() == Seq::<Value>::empty(),
{
    let start = match refs.get(&id) {
        Some(rv) => rv.value.copy(),
        None => Value::Nil,
    };
    let mut commutes: Vec<CommuteFn> = Vec::new();
    match &ctx.current {
        Some(tx) => match tx.commutes.get(&id) {
            Some(cs) => {
                let mut i: usize = 0;
                while i < cs.len()
                    invariant
                        i <= cs@.len(),
                        commutes@ == cs@.take(i as int),
                    decreases cs.len() - i,
                {
                    commutes.push(copy_commute(&cs[i]));
                    proof {
                        assert(cs@.take(i + 1) =~= cs@.take(i as int).push(cs@[i as int]));
                    }
                    i += 1;
                }
                proof {
                    assert(cs@.take(cs@.len() as int) =~= cs@);
                }
            },
            None => {},
        },
        None => {},
    }
    CommuteReplay { id, start, commutes, results: Vec::new() }
}

/// For each ref with commutes and no write, one finished replay of exactly
/// its commutes from its value in `refs`; no ref replayed twice.
pub open spec fn replays_cover(replays: Seq<CommuteReplay>, tx: Transaction, refs: Map<usize, RefValue>) -> bool {
    &&& forall|i: int, j: int|
        0 <= i < replays.len() && 0 <= j < replays.len() && i != j ==> (#[trigger] replays[i]).id_view()
            != (#[trigger] replays[j]).id_view()
    &&& forall|id: usize| #[trigger]
        tx.commute_view().contains_key(id) && !tx.write_view().contains_key(id) ==> exists|j: int|
            0 <= j < replays.len() && (#[trigger] replays[j]).id_view() == id && replays[j].finished_view()
                && replays[j].start_view() == refs[id].value && replays[j].commutes_view() == tx.commute_view()[id]
}

/// The value each replay arrived at, by ref.
pub open spec fn replay_values(replays: Seq<CommuteReplay>) -> Map<usize, Value> {
    Map::new(
        |id: usize| exists|j: int| 0 <= j < replays.len() && (#[trigger] replays[j]).id_view() == id,
        |id: usize| replays[choose|j: int| 0 <= j < replays.len() && (#[trigger] replays[j]).id_view() == id].current_view(),
    )
}

/// The values the replays arrived at, by ref.
fn replay_map(replays: &Vec<CommuteReplay>) -> (r: HashMap<usize, Value>)
    requires
        forall|i: int, j: int|
            0 <= i < replays@.len() && 0 <= j < replays@.len() && i != j ==> (#[trigger] replays@[i]).id_view()
                != (#[trigger] replays@[j]).id_view(),
    ensures
        r@ == replay_values(replays@),
{
    let mut m: HashMap<usize, Value> = HashMap::new();
    let mut i: usize = 0;
    while i < replays.len()
        invariant
            i <= replays@.len(),
            forall|a: int, b: int|
                0 <= a < replays@.len() && 0 <= b < replays@.len() && a != b ==> (#[trigger] replays@[a]).id_view()
                    != (#[trigger] replays@[b]).id_view(),
            forall|id: usize| #[trigger] m@.contains_key(id) <==> exists|j: int| 0 <= j < i && replays@[j].id_view() == id,
            forall|j: int| 0 <= j < i ==> m@[(#[trigger] replays@[j]).id_view()] == replays@[j].current_view(),
        decreases replays.len() - i,
    {
        let id = replays[i].id();
        let v = replays[i].outcome();
        m.insert(id, v);
        proof {
            assert forall|id2: usize| #[trigger] m@.contains_key(id2) <==> exists|j: int| 0 <= j < i + 1 && replays@[j].id_view() == id2 by {
                if m@.contains_key(id2) && id2 != id {
                    let j = choose|j: int| 0 <= j < i && replays@[j].id_view() == id2;
                }
                if id2 == id {
                    assert(replays@[i as int].id_view() == id2);
                }
            }
            assert forall|j: int| 0 <= j < i + 1 implies m@[(#[trigger] replays@[j]).id_view()] == replays@[j].current_view() by {
                if j < i {
                    assert(replays@[j].id_view() != replays@[i as int].id_view());
                }
            }
        }
        i += 1;
    }
    proof {
        let target = replay_values(replays@);
        assert forall|id: usize| #[trigger] m@.contains_key(id) == target.contains_key(id) by {}
        assert forall|id: usize| #[trigger] m@.contains_key(id) implies m@[id] == target[id] by {
            let j = choose|j: int| 0 <= j < replays@.len() && (#[trigger] replays@[j]).id_view() == id;
            assert(m@[replays@[j].id_view()] == replays@[j].current_view());
        }
        assert(m@ =~= target);
    }
    m
}

/// Validates and applies a top-level transaction on the locked `refs`.
///
/// `replays` holds, for each ref with commutes and no write, a finished
/// replay of its commutes in order on the ref's current value. Returns
/// false, changing nothing, when some read ref has a newer version;
/// otherwise applies every write and every replayed commute and returns
/// true.
pub fn commit_transaction(
    tx: &Transaction,
    refs: &mut HashMap<usize, RefValue>,
    replays: &Vec<CommuteReplay>,
) -> (r: bool)
    requires
        tx.wf(),
        commit_ready(tx, old(refs)@),
        replays_cover(replays@, *tx, old(refs)@),
    ensures
        r == reads_valid(tx.read_view(), old(refs)@),
        r ==> final(refs)@ == committed_refs(
            tx.write_view(),
            tx.commute_view(),
            old(refs)@,
            replay_values(replays@),
        ),
        !r ==> final(refs)@ == old(refs)@,
{
    let replayed = replay_map(replays);
    proof {
        assert forall|id: usize| #[trigger]
            tx.commute_view().contains_key(id) && !tx.write_view().contains_key(id) implies replayed@.contains_key(id) by {
            let j = choose|j: int|
                0 <= j < replays@.len() && (#[trigger] replays@[j]).id_view() == id && replays@[j].finished_view()
                    && replays@[j].start_view() == old(refs)@[id].value && replays@[j].commutes_view()
                    == tx.commute_view()[id];
        }
    }
    commit_values(tx, refs, &replayed)
}

/// Validates and applies a top-level transaction, given the value each
/// commuted ref takes.
fn commit_values(
    tx: &Transaction,
    refs: &mut HashMap<usize, RefValue>,
    replayed: &HashMap<usize, Value>,
) -> (r: bool)
    requires
        tx.wf(),
        commit_ready(tx, old(refs)@),
        forall|id: usize| #[trigger]
            tx.commute_view().contains_key(id) && !tx.write_view().contains_key(id)
                ==> replayed@.contains_key(id),
    ensures
        r == reads_valid(tx.read_view(), old(refs)@),
        r ==> final(refs)@ == committed_refs(
            tx.write_view(),
            tx.commute_view(),
            old(refs)@,
            replayed@,
        ),
        !r ==> final(refs)@ == old(refs)@,
{
    let read_ids = key_list(&tx.reads);
    let mut i: usize = 0;
    while i < read_ids.len()
        invariant
            tx.wf(),
            commit_ready(tx, refs@),
            read_ids@.to_set() == tx.read_view().dom(),
            i <= read_ids@.len(),
            forall|j: int| 0 <= j < i ==> refs@[#[trigger] read_ids@[j]].version == tx.read_view()[read_ids@[j]],
        decreases read_ids.len() - i,
    {
        let id = read_ids[i];
        proof {
            assert(read_ids@.to_set().contains(id));
        }
        let expected: u64 = match tx.reads.get(&id) {
            Some(v) => *v,
            None => 0,
        };
        let current: u64 = match refs.get(&id) {
            Some(rv) => rv.version,
            None => 0,
        };
        if current != expected {
            return false;
        }
        i += 1;
    }
    proof {
        assert forall|id: usize| #[trigger] tx.read_view().contains_key(id) implies refs@[id].version
            == tx.read_view()[id] by {
            assert(read_ids@.to_set().contains(id));
            let j = choose|j: int| 0 <= j < read_ids@.len() && read_ids@[j] == id;
        }
    }
    let ghost target = committed_refs(tx.write_view(), tx.commute_view(), refs@, replayed@);
    let ids = key_list(refs);
    let mut out: HashMap<usize, RefValue> = HashMap::new();
    let mut k: usize = 0;
    while k < ids.len()
        invariant
            tx.wf(),
            commit_ready(tx, refs@),
            target == committed_refs(tx.write_view(), tx.commute_view(), refs@, replayed@),
            forall|id: usize| #[trigger]
                tx.commute_view().contains_key(id) && !tx.write_view().contains_key(id)
                    ==> replayed@.contains_key(id),
            ids@.to_set() == refs@.dom(),
            ids@.no_duplicates(),
            k <= ids@.len(),
            forall|id: usize| #[trigger]
                out@.contains_key(id) <==> exists|j: int| 0 <= j < k && ids@[j] == id,
            forall|id: usize| #[trigger] out@.contains_key(id) ==> out@[id] == target[id],
        decreases ids.len() - k,
    {
        let id = ids[k];
        proof {
            assert(ids@.to_set().contains(id));
        }
        let cur: RefValue = match refs.get(&id) {
            Some(rv) => copy_ref_value(rv),
            None => RefValue { value: Value::Nil, version: 0 },
        };
        let next: RefValue = match tx.writes.get(&id) {
            Some(w) => RefValue { value: w.copy(), version: cur.version + 1 },
            None => {
                if tx.commutes.contains_key(&id) {
                    assert(tx.commute_view().contains_key(id));
                    match replayed.get(&id) {
                        Some(v) => RefValue { value: v.copy(), version: cur.version + 1 },
                        None => cur,
                    }
                } else {
                    cur
                }
            },
        };
        let _ = out.insert(id, next);
        proof {
            assert forall|x: usize| #[trigger] out@.contains_key(x) implies exists|j: int|
                0 <= j < k + 1 && ids@[j] == x by {
                if x == id {
                    assert(ids@[k as int] == x);
                }
            }
        }
        k += 1;
    }
    proof {
        assert forall|id: usize| out@.contains_key(id) <==> #[trigger] target.contains_key(id) by {
            if refs@.contains_key(id) {
                assert(ids@.to_set().contains(id));
                let j = choose|j: int| 0 <= j < ids@.len() && ids@[j] == id;
            }
            if out@.contains_key(id) {
                let j = choose|j: int| 0 <= j < ids@.len() && ids@[j] == id;
                assert(ids@.to_set().contains(ids@[j]));
            }
        }
        assert(out@ =~= target);
    }
    *refs = out;
    true
}

/// The transaction context of one thread: the open transaction, if any.
pub struct TxContext {
    pub(crate) current: Option<Transaction>,
}

impl TxContext {
    /// Whether a transaction is open.
    pub closed spec fn is_active(&self) -> bool {
        self.current is Some
    }

    /// The open transaction.
    pub closed spec fn tx(&self) -> Transaction {
        self.current->0
    }

    /// The context's invariant: an open transaction is well formed.
    pub closed spec fn wf(&self) -> bool {
        self.current matches Some(t) ==> t.wf()
    }

    /// A context with no open transaction.
    pub fn new() -> (r: TxContext)
        ensures
            r.wf(),
            !r.is_active(),
    {
        TxContext { current: None }
    }
}

/// Opens a `dosync` block. With no open transaction a new one with id
/// `next_id` starts and the result is true; inside one, its nesting depth
/// grows by one and the result is false.
pub fn clorus_tx_begin(ctx: &mut TxContext, next_id: u64) -> (r: bool)
    requires
        old(ctx).wf(),
        old(ctx).is_active() ==> old(ctx).tx().depth_view() < u32::MAX,
    ensures
        final(ctx).wf(),
        final(ctx).is_active(),
        r == !old(ctx).is_active(),
        r ==> final(ctx).tx().depth_view() == 1 && final(ctx).tx().id_view() == next_id
            && final(ctx).tx().read_view().is_empty() && final(ctx).tx().write_view().is_empty()
            && final(ctx).tx().commute_view().is_empty()
            && final(ctx).tx().commute_value_view().is_empty(),
        !r ==> final(ctx).tx().depth_view() == old(ctx).tx().depth_view() + 1
            && same_sets(final(ctx).tx(), old(ctx).tx()),
{
    match ctx.current.as_mut() {
        Some(tx) => {
            tx.depth = tx.depth + 1;
            false
        },
        None => {
            ctx.current = Some(Transaction::new(next_id));
            true
        },
    }
}

/// Two transactions with the same id, read, write and commute sets.
pub open spec fn same_sets(a: Transaction, b: Transaction) -> bool {
    &&& a.id_view() == b.id_view()
    &&& a.read_view() == b.read_view()
    &&& a.write_view() == b.write_view()
    &&& a.commute_view() == b.commute_view()
    &&& a.commute_value_view() == b.commute_value_view()
}

/// Closes a `dosync` block by committing. A nested block only closes (true).
/// The outermost one validates and applies the transaction on the locked
/// `refs`: on success the transaction ends (true); on a conflict it stays
/// open and nothing changes (false). With no open transaction: false.
pub fn clorus_tx_commit(
    ctx: &mut TxContext,
    refs: &mut HashMap<usize, RefValue>,
    replays: &Vec<CommuteReplay>,
) -> (r: bool)
    requires
        old(ctx).wf(),
        old(ctx).is_active() ==> commit_ready(&old(ctx).tx(), old(refs)@),
        old(ctx).is_active() ==> replays_cover(replays@, old(ctx).tx(), old(refs)@),
    ensures
        final(ctx).wf(),
        !old(ctx).is_active() ==> !r && !final(ctx).is_active() && final(refs)@ == old(refs)@,
        old(ctx).is_active() && old(ctx).tx().depth_view() > 1 ==> r && final(ctx).is_active()
            && final(ctx).tx().depth_view() == old(ctx).tx().depth_view() - 1
            && same_sets(final(ctx).tx(), old(ctx).tx()) && final(refs)@ == old(refs)@,
        old(ctx).is_active() && old(ctx).tx().depth_view() == 1 ==> {
            &&& r == reads_valid(old(ctx).tx().read_view(), old(refs)@)
            &&& r ==> !final(ctx).is_active() && final(refs)@ == committed_refs(
                old(ctx).tx().write_view(),
                old(ctx).tx().commute_view(),
                old(refs)@,
                replay_values(replays@),
            )
            &&& !r ==> final(ctx).is_active() && final(ctx).tx() == old(ctx).tx() && final(refs)@
                == old(refs)@
        },
{
    let success = match ctx.current.as_mut() {
        Some(tx) => {
            if tx.depth > 1 {
                tx.depth = tx.depth - 1;
                return true;
            }
            commit_transaction(tx, refs, replays)
        },
        None => {
            return false;
        },
    };
    if success {
        ctx.current = None;
    }
    success
}

/// Closes a `dosync` block by aborting: a nested block only closes; the
/// outermost one drops the transaction with all its staged changes.
pub fn clorus_tx_abort(ctx: &mut TxContext)
    requires
        old(ctx).wf(),
    ensures
        final(ctx).wf(),
        !old(ctx).is_active() ==> !final(ctx).is_active(),
        old(ctx).is_active() && old(ctx).tx().depth_view() > 1 ==> final(ctx).is_active()
            && final(ctx).tx().depth_view() == old(ctx).tx().depth_view() - 1
            && same_sets(final(ctx).tx(), old(ctx).tx()),
        old(ctx).is_active() && old(ctx).tx().depth_view() <= 1 ==> !final(ctx).is_active(),
{
    let close = match ctx.current.as_mut() {
        Some(tx) => {
            if tx.depth > 1 {
                tx.depth = tx.depth - 1;
                false
            } else {
                true
            }
        },
        None => false,
    };
    if close {
        ctx.current = None;
    }
}

/// Whether a transaction is open.
pub fn clorus_tx_active(ctx: &TxContext) -> (r: bool)
    ensures
        r == ctx.is_active(),
{
    ctx.current.is_some()
}

/// Records a read of `ref_id` at `version` in the open transaction, if
/// any (see [`Transaction::record_read`]).
pub fn tx_record_read(ctx: &mut TxContext, ref_id: usize, version: u64)
    requires
        old(ctx).wf(),
    ensures
        final(ctx).wf(),
        final(ctx).is_active() == old(ctx).is_active(),
        old(ctx).is_active() ==> {
            &&& final(ctx).tx().read_view() == if old(ctx).tx().commute_view().contains_key(ref_id)
                || old(ctx).tx().read_view().contains_key(ref_id) {
                old(ctx).tx().read_view()
            } else {
                old(ctx).tx().read_view().insert(ref_id, version)
            }
            &&& final(ctx).tx().write_view() == old(ctx).tx().write_view()
            &&& final(ctx).tx().commute_view() == old(ctx).tx().commute_view()
            &&& final(ctx).tx().commute_value_view() == old(ctx).tx().commute_value_view()
            &&& final(ctx).tx().depth_view() == old(ctx).tx().depth_view()
            &&& final(ctx).tx().id_view() == old(ctx).tx().id_view()
        },
{
    if let Some(tx) = ctx.current.as_mut() {
        tx.record_read(ref_id, version);
    }
}

/// Stages a write in the open transaction, if any (see
/// [`Transaction::stage_write`]).
pub fn tx_stage_write(ctx: &mut TxContext, ref_id: usize, value: Value)
    requires
        old(ctx).wf(),
    ensures
        final(ctx).wf(),
        final(ctx).is_active() == old(ctx).is_active(),
        old(ctx).is_active() ==> {
            &&& final(ctx).tx().read_view() == old(ctx).tx().read_view()
            &&& final(ctx).tx().write_view() == old(ctx).tx().write_view().insert(ref_id, value)
            &&& final(ctx).tx().commute_view() == old(ctx).tx().commute_view().remove(ref_id)
            &&& final(ctx).tx().commute_value_view() == old(ctx).tx().commute_value_view().remove(
                ref_id,
            )
            &&& final(ctx).tx().depth_view() == old(ctx).tx().depth_view()
            &&& final(ctx).tx().id_view() == old(ctx).tx().id_view()
        },
{
    if let Some(tx) = ctx.current.as_mut() {
        tx.stage_write(ref_id, value);
    }
}

/// Queues a commute in the open transaction, if any (see
/// [`Transaction::stage_commute`]).
pub fn tx_stage_commute(
    ctx: &mut TxContext,
    ref_id: usize,
    func: Value,
    args_vec: Value,
    local_value: Value,
)
    requires
        old(ctx).wf(),
    ensures
        final(ctx).wf(),
        final(ctx).is_active() == old(ctx).is_active(),
        old(ctx).is_active() ==> {
            &&& final(ctx).tx().read_view() == old(ctx).tx().read_view().remove(ref_id)
            &&& final(ctx).tx().write_view() == old(ctx).tx().write_view()
            &&& final(ctx).tx().commute_view() == old(ctx).tx().commute_view().insert(
                ref_id,
                if old(ctx).tx().commute_view().contains_key(ref_id) {
                    old(ctx).tx().commute_view()[ref_id]
                } else {
                    Seq::<CommuteFn>::empty()
                }.push(CommuteFn { func, args_vec }),
            )
            &&& final(ctx).tx().commute_value_view() == old(
                ctx,
            ).tx().commute_value_view().insert(ref_id, local_value)
            &&& final(ctx).tx().depth_view() == old(ctx).tx().depth_view()
            &&& final(ctx).tx().id_view() == old(ctx).tx().id_view()
        },
{
    if let Some(tx) = ctx.current.as_mut() {
        tx.stage_commute(ref_id, func, args_vec, local_value);
    }
}

/// The write staged for `ref_id` in the open transaction; none outside
/// a transaction.
pub fn tx_get_write(ctx: &TxContext, ref_id: usize) -> (r: Option<Value>)
    ensures
        r == if ctx.is_active() && ctx.tx().write_view().contains_key(ref_id) {
            Some(ctx.tx().write_view()[ref_id])
        } else {
            None::<Value>
        },
{
    match &ctx.current {
        Some(tx) => tx.get_write(ref_id),
        None => None,
    }
}

/// The local commute result for `ref_id` in the open transaction; none
/// outside a transaction.
pub fn tx_get_commute_value(ctx: &TxContext, ref_id: usize) -> (r: Option<Value>)
    ensures
        r == if ctx.is_active() && ctx.tx().commute_value_view().contains_key(ref_id) {
            Some(ctx.tx().commute_value_view()[ref_id])
        } else {
            None::<Value>
        },
{
    match &ctx.current {
        Some(tx) => tx.get_commute_value(ref_id),
        None => None,
    }
}

/// Whether the open transaction has a write staged for `ref_id`; false
/// outside a transaction.
pub fn tx_has_write(ctx: &TxContext, ref_id: usize) -> (r: bool)
    ensures
        r == (ctx.is_active() && ctx.tx().write_view().contains_key(ref_id)),
{
    match &ctx.current {
        Some(tx) => tx.has_write(ref_id),
        None => false,
    }
}

/// Whether the open transaction has commutes queued for `ref_id`; false
/// outside a transaction.
pub fn tx_has_commute(ctx: &TxContext, ref_id: usize) -> (r: bool)
    ensures
        r == (ctx.is_active() && ctx.tx().commute_view().contains_key(ref_id)),
{
    match &ctx.current {
        Some(tx) => tx.has_commute(ref_id),
        None => false,
    }
}

/// Whether another `dosync` block can open: none is open, or the open
/// transaction's depth can still grow.
pub fn tx_depth_below_max(ctx: &TxContext) -> (r: bool)
    ensures
        r == (ctx.is_active() ==> ctx.tx().depth_view() < u32::MAX),
{
    match &ctx.current {
        Some(tx) => tx.depth < u32::MAX,
        None => true,
    }
}

/// The refs whose commutes a commit replays: those with commutes and no
/// write; none outside a transaction.
pub fn tx_commuted_refs(ctx: &TxContext) -> (r: Vec<usize>)
    ensures
        forall|k: int| 0 <= k < r@.len() ==> ctx.is_active() && ctx.tx().commute_view().contains_key(#[trigger] r@[k])
            && !ctx.tx().write_view().contains_key(r@[k]),
        forall|id: usize| ctx.is_active() && #[trigger] ctx.tx().commute_view().contains_key(id)
            && !ctx.tx().write_view().contains_key(id) ==> r@.contains(id),
        r@.no_duplicates(),
{
    let mut out: Vec<usize> = Vec::new();
    match &ctx.current {
        None => {},
        Some(tx) => {
            let ids = key_list(&tx.commutes);
            let mut i: usize = 0;
            while i < ids.len()
                invariant
                    ctx.current == Some(*tx),
                    i <= ids@.len(),
                    ids@.to_set() == tx.commutes@.dom(),
                    forall|k: int| 0 <= k < out@.len() ==> tx.commutes@.contains_key(#[trigger] out@[k])
                        && !tx.writes@.contains_key(out@[k]),
                    forall|j: int| 0 <= j < i && !tx.writes@.contains_key(#[trigger] ids@[j]) ==> out@.contains(ids@[j]),
                    ids@.no_duplicates(),
                    out@.no_duplicates(),
                    forall|k: int| 0 <= k < out@.len() ==> exists|j: int| 0 <= j < i && ids@[j] == #[trigger] out@[k],
                decreases ids.len() - i,
            {
                let id = ids[i];
                proof {
                    assert(ids@.to_set().contains(id));
                }
                if !tx.writes.contains_key(&id) {
                    let ghost before = out@;
                    proof {
                        assert forall|k: int| 0 <= k < before.len() implies before[k] != id by {
                            let j = choose|j: int| 0 <= j < i && ids@[j] == before[k];
                        }
                    }
                    out.push(id);
                    proof {
                        assert forall|k: int| 0 <= k < out@.len() implies exists|j: int| 0 <= j < i + 1 && ids@[j] == #[trigger] out@[k] by {
                            if k < before.len() {
                                let j = choose|j: int| 0 <= j < i && ids@[j] == before[k];
                                assert(out@[k] == before[k]);
                            } else {
                                assert(ids@[i as int] == out@[k]);
                            }
                        }
                        assert(out@.no_duplicates()) by {
                            assert forall|a: int, b: int| 0 <= a < out@.len() && 0 <= b < out@.len() && a != b implies out@[a] != out@[b] by {
                                if a < before.len() && b < before.len() {
                                    assert(out@[a] == before[a] && out@[b] == before[b]);
                                } else if a < before.len() {
                                    assert(out@[a] == before[a]);
                                } else if b < before.len() {
                                    assert(out@[b] == before[b]);
                                }
                            }
                        }
                        assert forall|j: int| 0 <= j < i + 1 && !tx.writes@.contains_key(#[trigger] ids@[j]) implies out@.contains(ids@[j]) by {
                            if j < i {
                                let k = choose|k: int| 0 <= k < before.len() && before[k] == ids@[j];
                                assert(out@[k] == ids@[j]);
                            } else {
                                assert(out@[before.len() as int] == ids@[j]);
                            }
                        }
                    }
                }
                i += 1;
            }
            proof {
                assert forall|id: usize| ctx.is_active() && #[trigger] ctx.tx().commute_view().contains_key(id)
                    && !ctx.tx().write_view().contains_key(id) implies out@.contains(id) by {
                    assert(ids@.to_set().contains(id));
                    let j = choose|j: int| 0 <= j < ids@.len() && ids@[j] == id;
                }
            }
        },
    }
    out
}

/// Whether the locked refs hold every ref the open transaction touched,
/// each one it changes below the largest version (see [`commit_ready`]).
pub fn tx_ready_to_commit(ctx: &TxContext, refs: &HashMap<usize, RefValue>) -> (r: bool)
    ensures
        r == (ctx.is_active() ==> commit_ready(&ctx.tx(), refs@)),
{
    match &ctx.current {
        None => true,
        Some(tx) => {
            let reads = key_list(&tx.reads);
            let writes = key_list(&tx.writes);
            let commutes = key_list(&tx.commutes);
            let a = all_present(&reads, refs, false, Ghost(tx.reads@.dom()));
            let b = all_present(&writes, refs, true, Ghost(tx.writes@.dom()));
            let c = all_present(&commutes, refs, true, Ghost(tx.commutes@.dom()));
            proof {
                assert(tx.read_view() == tx.reads@);
                assert(tx.write_view() == tx.writes@);
                if a {
                    assert forall|id: usize| #[trigger] tx.read_view().contains_key(id) implies refs@.contains_key(id) by {
                        assert(tx.reads@.dom().contains(id));
                    }
                } else {
                    let id = choose|id: usize| !(#[trigger] tx.reads@.dom().contains(id) ==> refs@.contains_key(id));
                    assert(tx.read_view().contains_key(id));
                }
                if b {
                    assert forall|id: usize| #[trigger] tx.write_view().contains_key(id) implies refs@.contains_key(id)
                        && refs@[id].version < u64::MAX by {
                        assert(tx.writes@.dom().contains(id));
                    }
                } else {
                    let id = choose|id: usize| !(#[trigger] tx.writes@.dom().contains(id) ==> refs@.contains_key(id)
                        && refs@[id].version < u64::MAX);
                    assert(tx.write_view().contains_key(id));
                }
                assert(tx.commute_view().dom() == tx.commutes@.dom());
                if c {
                    assert forall|id: usize| #[trigger] tx.commute_view().contains_key(id) implies refs@.contains_key(id)
                        && refs@[id].version < u64::MAX by {
                        assert(tx.commutes@.dom().contains(id));
                    }
                } else {
                    let id = choose|id: usize| !(#[trigger] tx.commutes@.dom().contains(id) ==> refs@.contains_key(id)
                        && refs@[id].version < u64::MAX);
                    assert(tx.commute_view().contains_key(id));
                }
                assert(a == forall|id: usize| #[trigger] tx.read_view().contains_key(id) ==> refs@.contains_key(id));
                assert(b == forall|id: usize| #[trigger] tx.write_view().contains_key(id) ==> refs@.contains_key(id)
                    && refs@[id].version < u64::MAX);
                assert(c == forall|id: usize| #[trigger] tx.commute_view().contains_key(id) ==> refs@.contains_key(id)
                    && refs@[id].version < u64::MAX);
            }
            a && b && c
        },
    }
}

/// Whether every id of `dom` (listed in `ids`) is among the refs (and,
/// when asked, below the largest version).
fn all_present(ids: &Vec<usize>, refs: &HashMap<usize, RefValue>, bumped: bool, Ghost(dom): Ghost<Set<usize>>) -> (r: bool)
    requires
        ids@.to_set() == dom,
    ensures
        r == forall|id: usize| #[trigger] dom.contains(id) ==> refs@.contains_key(id) && (bumped ==> refs@[id].version
            < u64::MAX),
{
    let mut i: usize = 0;
    while i < ids.len()
        invariant
            i <= ids@.len(),
            ids@.to_set() == dom,
            forall|j: int| 0 <= j < i ==> refs@.contains_key(#[trigger] ids@[j]) && (bumped ==> refs@[ids@[j]].version
                < u64::MAX),
        decreases ids.len() - i,
    {
        let id = ids[i];
        proof {
            assert(ids@.to_set().contains(id));
        }
        match refs.get(&id) {
            None => {
                return false;
            },
            Some(rv) => {
                if bumped && rv.version == u64::MAX {
                    return false;
                }
            },
        }
        i += 1;
    }
    proof {
        assert forall|id: usize| #[trigger] dom.contains(id) implies refs@.contains_key(id) && (bumped ==> refs@[id].version
            < u64::MAX) by {
            assert(ids@.to_set().contains(id));
            let j = choose|j: int| 0 <= j < ids@.len() && ids@[j] == id;
        }
    }
    true
}

/// An open transaction in a well-formed context has at least one open
/// block.
pub proof fn lemma_active_depth(ctx: TxContext)
    requires
        ctx.wf(),
        ctx.is_active(),
    ensures
        ctx.tx().depth_view() >= 1,
{
}

/// Whether the context has a write staged for `id` (what [`tx_has_write`]
/// gives).
pub open spec fn has_write_in(ctx: TxContext, id: usize) -> bool {
    ctx.is_active() && ctx.tx().write_view().contains_key(id)
}

/// A staged write is seen from the moment it is staged, for that ref
/// alone, and is gone once the transaction closes: with no transaction
/// open nothing is staged; staging a write (what [`tx_stage_write`] does in
/// an open transaction) makes it seen and leaves every other ref as it was;
/// a context whose transaction has closed (by a top-level commit or abort)
/// sees none.
pub proof fn law_staged_write_lifetime(
    before: TxContext,
    after: TxContext,
    closed: TxContext,
    id: usize,
    v: Value,
    other: usize,
)
    requires
        before.is_active(),
        after.is_active(),
        after.tx().write_view() == before.tx().write_view().insert(id, v),
        !closed.is_active(),
        other != id,
    ensures
        has_write_in(after, id),
        has_write_in(after, other) == has_write_in(before, other),
        !has_write_in(closed, id),
{
}

} // verus!
