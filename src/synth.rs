//! The synthetic data source's packet assembly: which channels carry the
//! waveform, the waveform names, and the uniform-random waveform.
use crate::codec::{encode_packet, lemma_packet_round_trip, packet_spec, scan_spec, PACKET_LEN};
use rand::Rng;
use vstd::prelude::*;
use vstd::string::*;

verus! {

/// The waveforms the synthetic source can produce.
#[derive(Clone, Copy, Debug, PartialEq, Eq, Structural)]
pub enum Waveform {
    Sine,
    Square,
    Triangle,
    Sawtooth,
    Random,
}

/// The waveform a name stands for; an unknown name means uniform random.
/// Names are spelled as ASCII codes: `sine` is 115 105 110 101, `square` is
/// 115 113 117 97 114 101, `triangle` is 116 114 105 97 110 103 108 101,
/// `sawtooth` is 115 97 119 116 111 111 116 104.
pub open spec fn waveform_named(name: Seq<u8>) -> Waveform {
    if name == seq![115u8, 105u8, 110u8, 101u8] {
        Waveform::Sine
    } else if name == seq![115u8, 113u8, 117u8, 97u8, 114u8, 101u8] {
        Waveform::Square
    } else if name == seq![116u8, 114u8, 105u8, 97u8, 110u8, 103u8, 108u8, 101u8] {
        Waveform::Triangle
    } else if name == seq![115u8, 97u8, 119u8, 116u8, 111u8, 111u8, 116u8, 104u8] {
        Waveform::Sawtooth
    } else {
        Waveform::Random
    }
}

fn bytes_equal(a: &[u8], b: &[u8]) -> (r: bool)
    ensures
        r == (a@ == b@),
{
    if a.len() != b.len() {
        return false;
    }
    let mut i: usize = 0;
    while i < a.len()
        invariant
            a@.len() == b@.len(),
            i <= a@.len(),
            forall|k: int| 0 <= k < i ==> a@[k] == b@[k],
        decreases a@.len() - i,
    {
        if a[i] != b[i] {
            return false;
        }
        i = i + 1;
    }
    assert(a@ =~= b@);
    true
}

impl Waveform {
    /// Reads a waveform name (exact, lower case); anything else is the
    /// uniform-random waveform.
    pub fn from_name(name: &str) -> (r: Waveform)
        ensures
            r == waveform_named(name.spec_bytes()),
    {
        let b = name.as_bytes();
        if bytes_equal(b, [115u8, 105u8, 110u8, 101u8].as_slice()) {
            Waveform::Sine
        } else if bytes_equal(b, [115u8, 113u8, 117u8, 97u8, 114u8, 101u8].as_slice()) {
            Waveform::Square
        } else if bytes_equal(b, [116u8, 114u8, 105u8, 97u8, 110u8, 103u8, 108u8, 101u8].as_slice()) {
            Waveform::Triangle
        } else if bytes_equal(b, [115u8, 97u8, 119u8, 116u8, 111u8, 111u8, 116u8, 104u8].as_slice()) {
            Waveform::Sawtooth
        } else {
            Waveform::Random
        }
    }
}

/// The number of channels that carry the waveform: the requested count,
/// at least 1 and at most 8.
pub open spec fn active_channels(count: nat) -> nat {
    if count < 1 {
        1
    } else if count > 8 {
        8
    } else {
        count
    }
}

/// `values` with every channel from `count` on set to zero.
pub open spec fn masked(values: Seq<i32>, count: nat) -> Seq<i32> {
    Seq::new(8, |j: int| if j < count { values[j] } else { 0i32 })
}

/// The packet the synthetic source emits for one sample: the first
/// `channel_count` channels (clamped to 1..=8) carry `values`, the others
/// zero.
pub fn fake_packet(values: &[i32; 8], channel_count: usize) -> (r: Vec<u8>)
    ensures
        r@ == packet_spec(masked(values@, active_channels(channel_count as nat))),
        r@.len() == 38,
{
    let n: usize = if channel_count < 1 {
        1
    } else if channel_count > 8 {
        8
    } else {
        channel_count
    };
    let mut v: [i32; 8] = [0i32; 8];
    let mut j: usize = 0;
    while j < n
        invariant
            n <= 8,
            j <= n,
            forall|k: int| 0 <= k < j ==> v@[k] == values@[k],
            forall|k: int| j <= k < 8 ==> v@[k] == 0,
        decreases n - j,
    {
        v[j] = values[j];
        j = j + 1;
    }
    assert(v@ =~= masked(values@, active_channels(channel_count as nat)));
    encode_packet(&v)
}

/// Decoding what the synthetic source emits gives back exactly one frame
/// holding the values it was given on its active channels and zero on the
/// others.
pub proof fn lemma_fake_packet_round_trip(values: Seq<i32>, channel_count: nat)
    requires
        values.len() == 8,
    ensures
        scan_spec(packet_spec(masked(values, active_channels(channel_count)))) == (
            seq![masked(values, active_channels(channel_count))],
            Seq::<u8>::empty(),
            PACKET_LEN as int,
        ),
{
    lemma_packet_round_trip(masked(values, active_channels(channel_count)));
}

/// `x / d` rounded toward zero.
pub open spec fn div_toward_zero(x: int, d: int) -> int {
    if x >= 0 {
        x / d
    } else {
        -((-x) / d)
    }
}

/// The raw value that decodes to the physical value `v`: `v` divided by the
/// scale 0.5364 / 12 = 447 / 10000, rounded toward zero and saturated to the
/// 32-bit range.
pub open spec fn inverse_scaled(v: int) -> int {
    let q = div_toward_zero(v * 10000, 447);
    if q > i32::MAX {
        i32::MAX as int
    } else if q < i32::MIN {
        i32::MIN as int
    } else {
        q
    }
}

/// The raw value for the physical value `v` (see [`inverse_scaled`]).
pub fn inverse_scale(v: i32) -> (r: i32)
    ensures
        r == inverse_scaled(v as int),
{
    let x: i64 = v as i64 * 10000;
    let q: i64 = if x >= 0 {
        x / 447
    } else {
        -((-x) / 447)
    };
    if q > i32::MAX as i64 {
        i32::MAX
    } else if q < i32::MIN as i64 {
        i32::MIN
    } else {
        q as i32
    }
}

/// Relies on `rand::Rng::gen_range` with `rand::thread_rng()` on an
/// inclusive range: the value lies in the range, which must not be empty.
#[verifier::external_body]
fn draw_inclusive(low: i32, high: i32) -> (r: i32)
    requires
        low <= high,
    ensures
        low <= r <= high,
{
    rand::thread_rng().gen_range(low..=high)
}

/// One channel value of the uniform-random waveform: a physical value
/// drawn uniformly from `min_value..=max_value`, as a raw value.
pub fn random_raw_value(min_value: i32, max_value: i32) -> (r: i32)
    requires
        min_value <= max_value,
    ensures
        exists|v: int| min_value <= v <= max_value && r == inverse_scaled(v),
{
    let v = draw_inclusive(min_value, max_value);
    inverse_scale(v)
}

} // verus!
