//! Channels (`chan`, `>!`, `<!`, `close!`, `alts!`): the state of a
//! buffered channel and the decisions its operations take. Waiting for
//! room or for a value is the caller's: an operation that cannot proceed
//! says so, and the caller waits and asks again.

use crate::value::Value;
use vstd::prelude::*;

verus! {

/// What a put does.
pub enum PutStep {
    /// The value was added to the buffer.
    Accepted,
    /// The channel is closed; the value was refused.
    Closed,
    /// The buffer is full: wait for room and try again.
    Full,
}

/// What a take does.
pub enum TakeStep {
    /// The oldest buffered value, removed from the buffer.
    Took(Value),
    /// The channel is closed and empty: the take gives nil.
    Closed,
    /// The channel is open and empty: wait for a value and try again.
    Empty,
}

/// A channel: its buffered values (oldest first), its capacity (none:
/// unbounded), whether it is closed, and its id.
pub struct ChannelState {
    pub(crate) buffer: Vec<Value>,
    pub(crate) capacity: Option<usize>,
    pub(crate) closed: bool,
    pub(crate) id: u64,
}

/// A bounded buffer never holds more than its capacity.
pub open spec fn within_capacity(buffer: Seq<Value>, capacity: Option<usize>) -> bool {
    capacity matches Some(c) ==> buffer.len() <= c
}

/// The buffer is full: bounded and at capacity.
pub open spec fn spec_is_full(buffer: Seq<Value>, capacity: Option<usize>) -> bool {
    capacity matches Some(c) && buffer.len() >= c
}

/// The capacity that `(chan n)` asks for: unbounded for a negative `n`.
pub open spec fn spec_chan_capacity(n: i64) -> Option<usize> {
    if n < 0 {
        None
    } else {
        Some(n as usize)
    }
}

/// The capacity that `(chan n)` asks for: unbounded for a negative `n`, a
/// rendezvous channel for 0, `n` values otherwise.
pub fn chan_capacity(n: i64) -> (r: Option<usize>)
    requires
        n <= usize::MAX,
    ensures
        r == spec_chan_capacity(n),
{
    if n < 0 {
        None
    } else if n == 0 {
        Some(0)
    } else {
        Some(n as usize)
    }
}

impl ChannelState {
    /// The buffered values, oldest first.
    pub closed spec fn buffer_view(&self) -> Seq<Value> {
        self.buffer@
    }

    /// The capacity (none: unbounded).
    pub closed spec fn capacity_view(&self) -> Option<usize> {
        self.capacity
    }

    /// Whether the channel is closed.
    pub closed spec fn closed_view(&self) -> bool {
        self.closed
    }

    /// The channel's id.
    pub closed spec fn id_view(&self) -> u64 {
        self.id
    }

    /// The invariant: the buffer is within capacity.
    pub closed spec fn wf(&self) -> bool {
        within_capacity(self.buffer@, self.capacity)
    }

    /// A new, open, empty channel.
    pub fn new(capacity: Option<usize>, id: u64) -> (r: Self)
        ensures
            r.wf(),
            r.buffer_view().len() == 0,
            r.capacity_view() == capacity,
            !r.closed_view(),
            r.id_view() == id,
    {
        ChannelState { buffer: Vec::new(), capacity, closed: false, id }
    }

    /// Whether the buffer is full.
    pub fn is_full(&self) -> (r: bool)
        ensures
            r == spec_is_full(self.buffer_view(), self.capacity_view()),
    {
        match self.capacity {
            Some(c) => self.buffer.len() >= c,
            None => false,
        }
    }

    /// Offers a value: refused when closed, to be retried when full,
    /// otherwise added behind the buffered values.
    pub fn try_put(&mut self, value: Value) -> (r: PutStep)
        requires
            old(self).wf(),
        ensures
            final(self).wf(),
            final(self).capacity_view() == old(self).capacity_view(),
            final(self).closed_view() == old(self).closed_view(),
            final(self).id_view() == old(self).id_view(),
            old(self).closed_view() ==> r is Closed && final(self).buffer_view() == old(self).buffer_view(),
            !old(self).closed_view() && spec_is_full(old(self).buffer_view(), old(self).capacity_view()) ==> r is Full
                && final(self).buffer_view() == old(self).buffer_view(),
            !old(self).closed_view() && !spec_is_full(old(self).buffer_view(), old(self).capacity_view()) ==> r is Accepted
                && final(self).buffer_view() == old(self).buffer_view().push(value),
    {
        if self.closed {
            return PutStep::Closed;
        }
        if self.is_full() {
            return PutStep::Full;
        }
        self.buffer.push(value);
        PutStep::Accepted
    }

    /// Asks for a value: the oldest one when there is one; otherwise nil
    /// from a closed channel, or a wait on an open one.
    pub fn try_take_step(&mut self) -> (r: TakeStep)
        requires
            old(self).wf(),
        ensures
            final(self).wf(),
            final(self).capacity_view() == old(self).capacity_view(),
            final(self).closed_view() == old(self).closed_view(),
            final(self).id_view() == old(self).id_view(),
            old(self).buffer_view().len() > 0 ==> r == TakeStep::Took(old(self).buffer_view()[0])
                && final(self).buffer_view() == old(self).buffer_view().drop_first(),
            old(self).buffer_view().len() == 0 && old(self).closed_view() ==> r is Closed
                && final(self).buffer_view() == old(self).buffer_view(),
            old(self).buffer_view().len() == 0 && !old(self).closed_view() ==> r is Empty
                && final(self).buffer_view() == old(self).buffer_view(),
    {
        if self.buffer.len() > 0 {
            let v = self.buffer.remove(0);
            proof {
                assert(self.buffer@ =~= old(self).buffer@.drop_first());
            }
            TakeStep::Took(v)
        } else if self.closed {
            TakeStep::Closed
        } else {
            TakeStep::Empty
        }
    }

    /// A take that does not wait: the oldest value; nil from a closed empty
    /// channel; nothing from an open empty one.
    pub fn try_take(&mut self) -> (r: Option<Value>)
        requires
            old(self).wf(),
        ensures
            final(self).wf(),
            final(self).capacity_view() == old(self).capacity_view(),
            final(self).closed_view() == old(self).closed_view(),
            final(self).id_view() == old(self).id_view(),
            old(self).buffer_view().len() > 0 ==> r == Some(old(self).buffer_view()[0])
                && final(self).buffer_view() == old(self).buffer_view().drop_first(),
            old(self).buffer_view().len() == 0 && old(self).closed_view() ==> r == Some(Value::Nil)
                && final(self).buffer_view() == old(self).buffer_view(),
            old(self).buffer_view().len() == 0 && !old(self).closed_view() ==> r is None
                && final(self).buffer_view() == old(self).buffer_view(),
    {
        match self.try_take_step() {
            TakeStep::Took(v) => Some(v),
            TakeStep::Closed => Some(Value::Nil),
            TakeStep::Empty => None,
        }
    }

    /// Closes the channel; buffered values stay to be taken.
    pub fn close(&mut self)
        requires
            old(self).wf(),
        ensures
            final(self).wf(),
            final(self).closed_view(),
            final(self).buffer_view() == old(self).buffer_view(),
            final(self).capacity_view() == old(self).capacity_view(),
            final(self).id_view() == old(self).id_view(),
    {
        self.closed = true;
    }

    /// Whether the channel is closed.
    pub fn is_closed(&self) -> (r: bool)
        ensures
            r == self.closed_view(),
    {
        self.closed
    }

    /// The channel's id.
    pub fn id(&self) -> (r: u64)
        ensures
            r == self.id_view(),
    {
        self.id
    }
}

/// One pass of `alts!` over some channels: the first value any of them
/// gives without waiting, with that channel's position; none when all
/// would wait.
pub fn alts_poll(chans: &mut Vec<ChannelState>) -> (r: Option<(Value, usize)>)
    requires
        forall|i: int| 0 <= i < old(chans)@.len() ==> (#[trigger] old(chans)@[i]).wf(),
    ensures
        final(chans)@.len() == old(chans)@.len(),
        forall|i: int| 0 <= i < final(chans)@.len() ==> (#[trigger] final(chans)@[i]).wf(),
        match r {
            Some((v, k)) => k < old(chans)@.len() && (forall|i: int|
                0 <= i < k ==> (#[trigger] old(chans)@[i]).buffer_view().len() == 0 && !old(chans)@[i].closed_view())
                && (old(chans)@[k as int].buffer_view().len() > 0 ==> v == old(chans)@[k as int].buffer_view()[0])
                && (old(chans)@[k as int].buffer_view().len() == 0 ==> old(chans)@[k as int].closed_view() && v == Value::Nil),
            None => forall|i: int|
                0 <= i < old(chans)@.len() ==> (#[trigger] old(chans)@[i]).buffer_view().len() == 0 && !old(chans)@[i].closed_view(),
        },
{
    let mut i: usize = 0;
    while i < chans.len()
        invariant
            i <= chans@.len(),
            chans@.len() == old(chans)@.len(),
            forall|j: int| 0 <= j < chans@.len() ==> (#[trigger] chans@[j]).wf(),
            forall|j: int| i <= j < chans@.len() ==> #[trigger] chans@[j] == old(chans)@[j],
            forall|j: int|
                0 <= j < i ==> (#[trigger] old(chans)@[j]).buffer_view().len() == 0 && !old(chans)@[j].closed_view(),
        decreases chans.len() - i,
    {
        let mut c = chans.remove(i);
        let got = c.try_take();
        chans.insert(i, c);
        match got {
            Some(v) => {
                return Some((v, i));
            },
            None => {},
        }
        i += 1;
    }
    None
}

/// No channel among them is open.
pub fn all_closed(chans: &Vec<ChannelState>) -> (r: bool)
    ensures
        r == forall|i: int| 0 <= i < chans@.len() ==> (#[trigger] chans@[i]).closed_view(),
{
    let mut i: usize = 0;
    while i < chans.len()
        invariant
            i <= chans@.len(),
            forall|j: int| 0 <= j < i ==> (#[trigger] chans@[j]).closed_view(),
        decreases chans.len() - i,
    {
        if !chans[i].is_closed() {
            return false;
        }
        i += 1;
    }
    true
}

/// Values put into an open channel with room come out of it in the same
/// order: taking from a buffer that `put` extended gives its oldest value
/// first, and the new value last.
pub proof fn law_fifo(buffer: Seq<Value>, v: Value)
    ensures
        (buffer.len() > 0 ==> buffer.push(v)[0] == buffer[0] && buffer.push(v).drop_first() == buffer.drop_first().push(v)),
        buffer.len() == 0 ==> buffer.push(v)[0] == v && buffer.push(v).drop_first().len() == 0,
{
    if buffer.len() > 0 {
        assert(buffer.push(v).drop_first() =~= buffer.drop_first().push(v));
    }
}

} // verus!
