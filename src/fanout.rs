//! Bounded first-in first-out queues that hand decoded frames to each
//! consumer: the live view, the quality monitor and the recorder.
use crate::codec::ChannelFrame;
use std::collections::VecDeque;
use vstd::prelude::*;

verus! {

/// Capacity of the visualization buffer.
pub const VIEW_CAPACITY: usize = 2000;

/// Capacity of the recording buffer: it is trimmed as soon as it reaches
/// 10000 entries, so at most 9999 stay.
pub const RECORDING_CAPACITY: usize = 9999;

/// The contents after pushing `x` onto `s` with room for `cap` entries: the
/// oldest entry leaves first when the queue is full.
pub open spec fn pushed<T>(s: Seq<T>, cap: nat, x: T) -> Seq<T> {
    if s.len() >= cap {
        s.drop_first().push(x)
    } else {
        s.push(x)
    }
}

/// The contents after pushing each of `xs` in turn.
pub open spec fn pushed_all<T>(s: Seq<T>, cap: nat, xs: Seq<T>) -> Seq<T>
    decreases xs.len(),
{
    if xs.len() == 0 {
        s
    } else {
        pushed(pushed_all(s, cap, xs.drop_last()), cap, xs.last())
    }
}

/// The last `cap` entries of `s` (all of them if there are fewer).
pub open spec fn most_recent<T>(s: Seq<T>, cap: nat) -> Seq<T> {
    if s.len() <= cap {
        s
    } else {
        s.skip(s.len() - cap)
    }
}

/// Pushing any number of entries onto a queue of capacity `cap` leaves
/// exactly the `cap` most recent of everything it held and was given,
/// oldest first.
pub proof fn lemma_keeps_most_recent<T>(s: Seq<T>, cap: nat, xs: Seq<T>)
    requires
        cap > 0,
        s.len() <= cap,
    ensures
        pushed_all(s, cap, xs) == most_recent(s + xs, cap),
    decreases xs.len(),
{
    if xs.len() == 0 {
        assert(s + xs =~= s);
    } else {
        let init = xs.drop_last();
        let x = xs.last();
        lemma_keeps_most_recent(s, cap, init);
        let u = s + init;
        assert(s + xs =~= u.push(x));
        if u.len() < cap {
        } else {
            let m = u.skip(u.len() - cap);
            assert(m.drop_first().push(x) =~= u.push(x).skip(u.len() + 1 - cap));
        }
    }
}

/// A queue that holds at most `capacity` entries and drops its oldest entry
/// to make room.
pub struct FrameQueue<T> {
    items: VecDeque<T>,
    capacity: usize,
}

impl<T> View for FrameQueue<T> {
    type V = Seq<T>;

    closed spec fn view(&self) -> Seq<T> {
        self.items@
    }
}

impl<T> FrameQueue<T> {
    /// The most entries the queue holds.
    pub closed spec fn cap(&self) -> nat {
        self.capacity as nat
    }

    /// The queue holds no more than its capacity, which is positive.
    pub open spec fn wf(&self) -> bool {
        &&& self.cap() > 0
        &&& self@.len() <= self.cap()
    }

    /// An empty queue with room for `capacity` entries.
    pub fn new(capacity: usize) -> (r: FrameQueue<T>)
        requires
            capacity > 0,
        ensures
            r.wf(),
            r@ == Seq::<T>::empty(),
            r.cap() == capacity,
    {
        FrameQueue { items: VecDeque::new(), capacity }
    }

    /// The number of entries held.
    pub fn len(&self) -> (r: usize)
        ensures
            r == self@.len(),
    {
        self.items.len()
    }

    /// The most entries the queue holds.
    pub fn capacity(&self) -> (r: usize)
        ensures
            r == self.cap(),
    {
        self.capacity
    }

    /// Appends `x`, first dropping the oldest entry if the queue is full.
    pub fn push(&mut self, x: T)
        requires
            old(self).wf(),
        ensures
            final(self).wf(),
            final(self).cap() == old(self).cap(),
            final(self)@ == pushed(old(self)@, old(self).cap(), x),
    {
        if self.items.len() >= self.capacity {
            let _ = self.items.pop_front();
        }
        self.items.push_back(x);
    }

    /// Removes and returns every entry, oldest first.
    pub fn drain_all(&mut self) -> (r: Vec<T>)
        requires
            old(self).wf(),
        ensures
            final(self).wf(),
            final(self).cap() == old(self).cap(),
            final(self)@ == Seq::<T>::empty(),
            r@ == old(self)@,
    {
        let ghost all = self.items@;
        let ghost cap0 = self.capacity;
        let mut out: Vec<T> = Vec::new();
        while self.items.len() > 0
            invariant
                self.capacity == cap0,
                cap0 > 0,
                out@ + self.items@ == all,
                self.items@.len() <= all.len(),
            decreases self.items@.len(),
        {
            match self.items.pop_front() {
                Some(x) => {
                    out.push(x);
                    assert(out@ + self.items@ =~= all);
                },
                None => {},
            }
        }
        assert(out@ =~= all);
        out
    }
}

impl<T: Copy> FrameQueue<T> {
    /// Every entry, oldest first, leaving the queue as it is.
    pub fn snapshot(&self) -> (r: Vec<T>)
        ensures
            r@ == self@,
    {
        let mut out: Vec<T> = Vec::new();
        let n = self.items.len();
        let mut i: usize = 0;
        while i < n
            invariant
                n == self@.len(),
                i <= n,
                out@ == self@.subrange(0, i as int),
            decreases n - i,
        {
            out.push(self.items[i]);
            assert(out@ =~= self@.subrange(0, i + 1));
            i = i + 1;
        }
        assert(out@ =~= self@);
        out
    }
}

/// The buffer that feeds the live view: a bounded queue that is emptied on
/// each read.
pub struct BufferState {
    pub read_buffer: FrameQueue<ChannelFrame>,
}

impl BufferState {
    /// An empty buffer with room for the most recent 2000 frames.
    pub fn new() -> (r: BufferState)
        ensures
            r.read_buffer.wf(),
            r.read_buffer.cap() == VIEW_CAPACITY,
            r.read_buffer@ == Seq::<ChannelFrame>::empty(),
    {
        BufferState { read_buffer: FrameQueue::new(VIEW_CAPACITY) }
    }

    /// Adds one frame, dropping the oldest when full.
    pub fn add_data(&mut self, data: ChannelFrame)
        requires
            old(self).read_buffer.wf(),
        ensures
            final(self).read_buffer.wf(),
            final(self).read_buffer.cap() == old(self).read_buffer.cap(),
            final(self).read_buffer@ == pushed(
                old(self).read_buffer@,
                old(self).read_buffer.cap(),
                data,
            ),
    {
        self.read_buffer.push(data);
    }

    /// Returns every buffered frame, oldest first, and empties the buffer.
    pub fn get_data(&mut self) -> (r: Vec<ChannelFrame>)
        requires
            old(self).read_buffer.wf(),
        ensures
            final(self).read_buffer.wf(),
            final(self).read_buffer.cap() == old(self).read_buffer.cap(),
            r@ == old(self).read_buffer@,
            final(self).read_buffer@ == Seq::<ChannelFrame>::empty(),
    {
        self.read_buffer.drain_all()
    }
}

/// A frame with the time, in milliseconds since the Unix epoch, at which
/// the recording buffer accepted it.
#[derive(Clone, Copy, Debug, PartialEq, Eq)]
pub struct TimedFrame {
    pub timestamp_ms: u64,
    pub frame: ChannelFrame,
}

/// The buffer that feeds the recorder: it takes frames only while a
/// recording session is active, stamping each with the time it came in.
pub struct RecordingState {
    pub recording_buffer: FrameQueue<TimedFrame>,
    pub recording_active: bool,
}

impl RecordingState {
    /// An inactive recorder buffer with room for 9999 frames.
    pub fn new() -> (r: RecordingState)
        ensures
            r.recording_buffer.wf(),
            r.recording_buffer.cap() == RECORDING_CAPACITY,
            r.recording_buffer@ == Seq::<TimedFrame>::empty(),
            !r.recording_active,
    {
        RecordingState { recording_buffer: FrameQueue::new(RECORDING_CAPACITY), recording_active: false }
    }

    /// Adds `data`, stamped with `now_ms`, while recording is active; drops
    /// it otherwise. Once the buffer reaches 10000 entries its oldest entry
    /// leaves.
    pub fn add_data(&mut self, data: ChannelFrame, now_ms: u64)
        requires
            old(self).recording_buffer.wf(),
        ensures
            old(self).recording_active && old(self).recording_buffer.cap() == RECORDING_CAPACITY
                ==> {
                let s = old(self).recording_buffer@.push(
                    TimedFrame { timestamp_ms: now_ms, frame: data },
                );
                final(self).recording_buffer@ == if s.len() >= 10000 {
                    s.drop_first()
                } else {
                    s
                }
            },
            final(self).recording_buffer.wf(),
            final(self).recording_buffer.cap() == old(self).recording_buffer.cap(),
            final(self).recording_active == old(self).recording_active,
            final(self).recording_buffer@ == if old(self).recording_active {
                pushed(
                    old(self).recording_buffer@,
                    old(self).recording_buffer.cap(),
                    TimedFrame { timestamp_ms: now_ms, frame: data },
                )
            } else {
                old(self).recording_buffer@
            },
    {
        if self.recording_active {
            let t = TimedFrame { timestamp_ms: now_ms, frame: data };
            let ghost before = self.recording_buffer@;
            self.recording_buffer.push(t);
            proof {
                if before.len() > 0 {
                    assert(before.drop_first().push(t) =~= before.push(t).drop_first());
                }
            }
        }
    }

    /// Removes and returns every buffered entry, oldest first.
    pub fn get_recording_data(&mut self) -> (r: Vec<TimedFrame>)
        requires
            old(self).recording_buffer.wf(),
        ensures
            final(self).recording_buffer.wf(),
            final(self).recording_buffer.cap() == old(self).recording_buffer.cap(),
            final(self).recording_active == old(self).recording_active,
            r@ == old(self).recording_buffer@,
            final(self).recording_buffer@ == Seq::<TimedFrame>::empty(),
    {
        self.recording_buffer.drain_all()
    }
}

} // verus!
