//! Per-channel signal health, judged from a sliding window of recent frames.
//!
//! A channel is good when the population standard deviation of its physical
//! values is at most 2.235e4 and their mean at most 1.341e5, where a
//! physical value is the raw value times 0.5364 / 12 = 447 / 10000. Both
//! tests are decided exactly over the raw integers.
use crate::codec::ChannelFrame;
use crate::fanout::{pushed, FrameQueue};
use vstd::prelude::*;

verus! {

/// Capacity of the quality window.
pub const QUALITY_CAPACITY: usize = 500;

/// Fewest frames the window must hold for the flags to be recomputed.
pub const MIN_SAMPLES: usize = 10;

/// Sum of channel `c` over the frames of `w`.
pub open spec fn channel_sum(w: Seq<ChannelFrame>, c: int) -> int
    decreases w.len(),
{
    if w.len() == 0 {
        0
    } else {
        channel_sum(w.drop_last(), c) + w.last()@[c]
    }
}

/// Sum of the squares of channel `c` over the frames of `w`.
pub open spec fn channel_square_sum(w: Seq<ChannelFrame>, c: int) -> int
    decreases w.len(),
{
    if w.len() == 0 {
        0
    } else {
        channel_square_sum(w.drop_last(), c) + w.last()@[c] * w.last()@[c]
    }
}

/// The mean of channel `c`'s physical values is at most 1.341e5.
pub open spec fn mean_ok(w: Seq<ChannelFrame>, c: int) -> bool {
    447 * channel_sum(w, c) <= 1_341_000_000 * w.len()
}

/// The population standard deviation of channel `c`'s physical values is
/// at most 2.235e4.
pub open spec fn spread_ok(w: Seq<ChannelFrame>, c: int) -> bool {
    let n = w.len() as int;
    let s = channel_sum(w, c);
    199809 * (n * channel_square_sum(w, c) - s * s) <= 49_952_250_000_000_000 * (n * n)
}

/// Whether channel `c` is good over the window `w`.
pub open spec fn channel_good(w: Seq<ChannelFrame>, c: int) -> bool {
    mean_ok(w, c) && spread_ok(w, c)
}

/// The flags a check leaves: unchanged while the window holds fewer than
/// ten frames, else recomputed for each channel.
pub open spec fn checked_flags(w: Seq<ChannelFrame>, flags: Seq<bool>) -> Seq<bool> {
    if w.len() < 10 {
        flags
    } else {
        Seq::new(8, |c: int| channel_good(w, c))
    }
}

proof fn lemma_square_bound(x: int)
    requires
        -0x8000_0000 <= x <= 0x7fff_ffff,
    ensures
        0 <= x * x <= 0x4000_0000_0000_0000,
{
    assert(0 <= x * x <= 0x4000_0000_0000_0000) by (nonlinear_arith)
        requires
            -0x8000_0000 <= x <= 0x7fff_ffff,
    ;
}

proof fn lemma_mul_bounds(a: int, b: int, amax: int, bmax: int)
    requires
        0 <= a <= amax,
        0 <= b <= bmax,
    ensures
        0 <= a * b <= amax * bmax,
{
    assert(0 <= a * b <= amax * bmax) by (nonlinear_arith)
        requires
            0 <= a <= amax,
            0 <= b <= bmax,
    ;
}

/// Decides whether channel `c` is good over the frames of `w`.
fn judge_channel(w: &Vec<ChannelFrame>, c: usize) -> (r: bool)
    requires
        c < 8,
        1 <= w@.len() <= 500,
    ensures
        r == channel_good(w@, c as int),
{
    let n = w.len();
    let mut s: i64 = 0;
    let mut q: i128 = 0;
    let mut i: usize = 0;
    while i < n
        invariant
            c < 8,
            n == w@.len(),
            n <= 500,
            i <= n,
            s as int == channel_sum(w@.subrange(0, i as int), c as int),
            q as int == channel_square_sum(w@.subrange(0, i as int), c as int),
            -0x8000_0000 * i <= s <= 0x7fff_ffff * i,
            0 <= q <= 0x4000_0000_0000_0000 * i,
        decreases n - i,
    {
        let x = w[i].raw[c];
        proof {
            lemma_square_bound(x as int);
            assert(w@.subrange(0, i + 1).drop_last() =~= w@.subrange(0, i as int));
        }
        s = s + x as i64;
        q = q + (x as i128) * (x as i128);
        i = i + 1;
    }
    assert(w@.subrange(0, n as int) =~= w@);
    let nn = n as i128;
    let ss = s as i128;
    let mean_good = 447 * ss <= 1_341_000_000 * nn;
    proof {
        lemma_mul_bounds(nn as int, q as int, 500int, 0x4000_0000_0000_0000int * 500);
        lemma_mul_bounds(
            if ss >= 0 { ss as int } else { -ss },
            if ss >= 0 { ss as int } else { -ss },
            0x8000_0000int * 500,
            0x8000_0000int * 500,
        );
        assert(ss * ss == (if ss >= 0 { ss as int } else { -ss }) * (if ss >= 0 { ss as int } else { -ss })) by (nonlinear_arith);
        lemma_mul_bounds(nn as int, nn as int, 500int, 500int);
    }
    let diff = nn * q - ss * ss;
    let spread_good = 199809 * diff <= 49_952_250_000_000_000 * (nn * nn);
    mean_good && spread_good
}

/// The quality window and the last computed flags.
pub struct SignalQualityState {
    pub quality_check_buffer: FrameQueue<ChannelFrame>,
    pub signal_quality: Vec<bool>,
}

impl SignalQualityState {
    /// The flags, one per channel.
    pub open spec fn flags(&self) -> Seq<bool> {
        self.signal_quality@
    }

    /// The window is a well-formed queue of at most 500 frames and there are
    /// eight flags.
    pub open spec fn wf(&self) -> bool {
        &&& self.quality_check_buffer.wf()
        &&& self.quality_check_buffer.cap() == QUALITY_CAPACITY
        &&& self.flags().len() == 8
    }

    /// An empty window, every channel flagged good.
    pub fn new() -> (r: SignalQualityState)
        ensures
            r.wf(),
            r.quality_check_buffer@ == Seq::<ChannelFrame>::empty(),
            r.flags() == Seq::new(8, |c: int| true),
    {
        let r = SignalQualityState {
            quality_check_buffer: FrameQueue::new(QUALITY_CAPACITY),
            signal_quality: vec![true, true, true, true, true, true, true, true],
        };
        assert(r.flags() =~= Seq::new(8, |c: int| true));
        r
    }

    /// Adds a frame to the window, dropping the oldest when full.
    pub fn add_data(&mut self, data: ChannelFrame)
        requires
            old(self).wf(),
        ensures
            final(self).wf(),
            final(self).flags() == old(self).flags(),
            final(self).quality_check_buffer@ == pushed(
                old(self).quality_check_buffer@,
                QUALITY_CAPACITY as nat,
                data,
            ),
    {
        self.quality_check_buffer.push(data);
    }

    /// The flags as last computed.
    pub fn get_signal_quality(&self) -> (r: Vec<bool>)
        ensures
            r@ == self.flags(),
    {
        self.signal_quality.clone()
    }

    /// Recomputes the flags from the window when it holds at least ten
    /// frames, and returns them; with fewer frames the flags stay as they
    /// were. The window itself is left as it is.
    pub fn check_signal_quality(&mut self) -> (r: Vec<bool>)
        requires
            old(self).wf(),
        ensures
            final(self).wf(),
            final(self).quality_check_buffer@ == old(self).quality_check_buffer@,
            final(self).flags() == checked_flags(
                old(self).quality_check_buffer@,
                old(self).flags(),
            ),
            r@ == final(self).flags(),
    {
        let window = self.quality_check_buffer.snapshot();
        if window.len() < MIN_SAMPLES {
            return self.signal_quality.clone();
        }
        let mut flags: Vec<bool> = Vec::new();
        let mut c: usize = 0;
        while c < 8
            invariant
                c <= 8,
                10 <= window@.len() <= 500,
                flags@.len() == c,
                forall|k: int| 0 <= k < c ==> flags@[k] == channel_good(window@, k),
            decreases 8 - c,
        {
            let good = judge_channel(&window, c);
            flags.push(good);
            c = c + 1;
        }
        assert(flags@ =~= checked_flags(window@, self.signal_quality@));
        self.signal_quality = flags.clone();
        flags
    }
}

} // verus!
