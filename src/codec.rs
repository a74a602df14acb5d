//! Framing codec for the device's binary protocol.
//!
//! A packet is 38 bytes: the header `AA FF F1 20`, eight little-endian
//! signed 32-bit channel values, and two checksum bytes computed over the
//! first 36 bytes.
use vstd::prelude::*;

verus! {

/// Length of the fixed packet header.
pub const HEADER_LEN: usize = 4;

/// Length of the checksummed part of a packet (header and channel values).
pub const PAYLOAD_LEN: usize = 36;

/// Total length of one packet.
pub const PACKET_LEN: usize = 38;


/// One synchronized sample across the eight device channels, as the raw
/// signed integers carried on the wire.
#[derive(Clone, Copy, Debug, PartialEq, Eq)]
pub struct ChannelFrame {
    pub raw: [i32; 8],
}

impl View for ChannelFrame {
    type V = Seq<i32>;

    open spec fn view(&self) -> Seq<i32> {
        self.raw@
    }
}

impl ChannelFrame {
    /// A frame holding the given raw channel values.
    pub fn new(raw: [i32; 8]) -> (r: ChannelFrame)
        ensures
            r.raw == raw,
    {
        ChannelFrame { raw }
    }

    /// The raw value of channel `c`.
    pub fn channel(&self, c: usize) -> (r: i32)
        requires
            c < 8,
        ensures
            r == self@[c as int],
    {
        self.raw[c]
    }
}

/// The header constant.
pub open spec fn header_seq() -> Seq<u8> {
    seq![0xAAu8, 0xFFu8, 0xF1u8, 0x20u8]
}

/// Whether the four bytes of `s` at position `i` are the header constant.
pub open spec fn header_at(s: Seq<u8>, i: int) -> bool {
    &&& 0 <= i
    &&& i + 4 <= s.len()
    &&& s[i] == 0xAAu8
    &&& s[i + 1] == 0xFFu8
    &&& s[i + 2] == 0xF1u8
    &&& s[i + 3] == 0x20u8
}

/// Sum of all bytes of `s`.
pub open spec fn byte_sum(s: Seq<u8>) -> nat
    decreases s.len(),
{
    if s.len() == 0 {
        0
    } else {
        byte_sum(s.drop_last()) + s.last() as nat
    }
}

/// The second checksum accumulator: after each byte, the running byte sum
/// (taken mod 256) is added to it, mod 256.
pub open spec fn prefix_sum_sum(s: Seq<u8>) -> nat
    decreases s.len(),
{
    if s.len() == 0 {
        0
    } else {
        (prefix_sum_sum(s.drop_last()) + byte_sum(s) % 256) % 256
    }
}

/// The two checksum bytes of a payload.
pub open spec fn checksum_spec(s: Seq<u8>) -> (u8, u8) {
    ((byte_sum(s) % 256) as u8, prefix_sum_sum(s) as u8)
}

/// The signed value of four little-endian bytes.
pub open spec fn le_i32(b: Seq<u8>) -> int {
    let u = b[0] as int + 256 * b[1] as int + 65536 * b[2] as int + 16777216 * b[3] as int;
    if u >= 0x8000_0000 {
        u - 0x1_0000_0000
    } else {
        u
    }
}

/// The four little-endian bytes of a signed 32-bit value (two's complement).
pub open spec fn le_bytes(v: i32) -> Seq<u8> {
    let u: int = if v < 0 {
        v + 0x1_0000_0000
    } else {
        v as int
    };
    seq![
        (u % 256) as u8,
        ((u / 256) % 256) as u8,
        ((u / 65536) % 256) as u8,
        (u / 16777216) as u8,
    ]
}

/// The channel values that a packet (or at least its first 36 bytes) carries.
pub open spec fn decode_values(p: Seq<u8>) -> Seq<i32> {
    Seq::new(8, |j: int| le_i32(p.subrange(4 + 4 * j, 8 + 4 * j)) as i32)
}

/// Whether the 38 bytes of `s` at position `i` carry checksum bytes that
/// match their payload.
pub open spec fn checksum_ok_at(s: Seq<u8>, i: int) -> bool {
    let c = checksum_spec(s.subrange(i, i + 36));
    s[i + 36] == c.0 && s[i + 37] == c.1
}

/// What a scan from position `i` of `s` yields: the frames decoded, the
/// diagnostic bytes passed over, and the position where scanning stopped.
pub open spec fn scan_from(s: Seq<u8>, i: int) -> (Seq<Seq<i32>>, Seq<u8>, int)
    decreases s.len() - i,
{
    if i < 0 || i + 4 > s.len() {
        (Seq::empty(), Seq::empty(), i)
    } else if header_at(s, i) {
        if s.len() - i < 38 {
            (Seq::empty(), Seq::empty(), i)
        } else {
            let rest = scan_from(s, i + 38);
            if checksum_ok_at(s, i) {
                (seq![decode_values(s.subrange(i, i + 36))] + rest.0, rest.1, rest.2)
            } else {
                rest
            }
        }
    } else {
        let rest = scan_from(s, i + 1);
        (rest.0, seq![s[i]] + rest.1, rest.2)
    }
}

/// What a scan of the whole of `s` yields.
pub open spec fn scan_spec(s: Seq<u8>) -> (Seq<Seq<i32>>, Seq<u8>, int) {
    scan_from(s, 0)
}

/// The first `k` values, four little-endian bytes each.
pub open spec fn values_bytes(values: Seq<i32>, k: nat) -> Seq<u8>
    decreases k,
{
    if k == 0 {
        Seq::empty()
    } else {
        values_bytes(values, (k - 1) as nat) + le_bytes(values[k - 1])
    }
}

/// The header followed by the eight values, four little-endian bytes each.
pub open spec fn payload_spec(values: Seq<i32>) -> Seq<u8> {
    header_seq() + values_bytes(values, 8)
}

/// The bytes of a packet carrying `values`.
pub open spec fn packet_spec(values: Seq<i32>) -> Seq<u8> {
    let payload = payload_spec(values);
    let c = checksum_spec(payload);
    payload + seq![c.0, c.1]
}

proof fn lemma_byte_sum_push(s: Seq<u8>, b: u8)
    ensures
        byte_sum(s.push(b)) == byte_sum(s) + b,
        prefix_sum_sum(s.push(b)) == (prefix_sum_sum(s) + (byte_sum(s) + b) % 256) % 256,
{
    assert(s.push(b).drop_last() =~= s);
}

/// Computes the two checksum bytes over the first 36 bytes of `data`: the
/// byte sum mod 256, and the sum of the running byte sums, mod 256.
pub fn compute_checksum(data: &[u8]) -> (r: (u8, u8))
    requires
        data@.len() >= 36,
    ensures
        r == checksum_spec(data@.subrange(0, 36)),
{
    checksum_at(data, 0)
}

/// The checksum bytes of the 36 bytes of `data` that start at `at`.
fn checksum_at(data: &[u8], at: usize) -> (r: (u8, u8))
    requires
        at + 36 <= data@.len(),
    ensures
        r == checksum_spec(data@.subrange(at as int, at + 36)),
{
    let n = data.len();
    let mut sum1: u16 = 0;
    let mut acc: u16 = 0;
    let mut sum2: u16 = 0;
    let mut i: usize = 0;
    while i < 36
        invariant
            i <= 36,
            at + 36 <= n,
            n == data@.len(),
            acc < 256,
            sum2 < 256,
            sum1 as nat == byte_sum(data@.subrange(at as int, at + i)),
            sum1 <= 255 * i,
            acc as nat == byte_sum(data@.subrange(at as int, at + i)) % 256,
            sum2 as nat == prefix_sum_sum(data@.subrange(at as int, at + i)),
        decreases 36 - i,
    {
        let b = data[at + i];
        proof {
            lemma_byte_sum_push(data@.subrange(at as int, at + i), b);
            vstd::arithmetic::div_mod::lemma_add_mod_noop(
                byte_sum(data@.subrange(at as int, at + i)) as int,
                b as int,
                256,
            );
            vstd::arithmetic::div_mod::lemma_small_mod(b as nat, 256);
            vstd::arithmetic::div_mod::lemma_small_mod(acc as nat, 256);
            assert(data@.subrange(at as int, at + i).push(b) =~= data@.subrange(
                at as int,
                at + i + 1,
            ));
        }
        sum1 = sum1 + b as u16;
        acc = (acc + b as u16) % 256;
        sum2 = (sum2 + acc) % 256;
        i = i + 1;
    }
    ((sum1 % 256) as u8, sum2 as u8)
}

/// Decodes four little-endian bytes of `p` at `at` as a signed value.
fn read_le_i32(p: &[u8], at: usize) -> (r: i32)
    requires
        at + 4 <= p@.len(),
    ensures
        r as int == le_i32(p@.subrange(at as int, at + 4)),
{
    let u: i64 = p[at] as i64 + 256 * (p[at + 1] as i64) + 65536 * (p[at + 2] as i64) + 16777216 * (
    p[at + 3] as i64);
    if u >= 0x8000_0000 {
        (u - 0x1_0000_0000) as i32
    } else {
        u as i32
    }
}

/// Appends the four little-endian bytes of `v` to `out`.
fn push_le_i32(out: &mut Vec<u8>, v: i32)
    ensures
        final(out)@ == old(out)@ + le_bytes(v),
{
    let u: i64 = if v < 0 {
        v as i64 + 0x1_0000_0000
    } else {
        v as i64
    };
    out.push((u % 256) as u8);
    out.push(((u / 256) % 256) as u8);
    out.push(((u / 65536) % 256) as u8);
    out.push((u / 16777216) as u8);
    proof {
        assert(final(out)@ =~= old(out)@ + le_bytes(v));
    }
}

proof fn lemma_le_round_trip(v: i32)
    ensures
        le_bytes(v).len() == 4,
        le_i32(le_bytes(v)) == v,
{
    let u: int = if v < 0 {
        v + 0x1_0000_0000
    } else {
        v as int
    };
    let b = le_bytes(v);
    assert(0 <= u < 0x1_0000_0000);
    let q0 = u / 256;
    let q1 = q0 / 256;
    let q2 = q1 / 256;
    assert(u == 256 * q0 + u % 256);
    assert(q0 == 256 * q1 + q0 % 256);
    assert(q1 == 256 * q2 + q1 % 256);
    assert(u / 65536 == q1) by {
        vstd::arithmetic::div_mod::lemma_div_denominator(u, 256, 256);
    }
    assert(u / 16777216 == q2) by {
        vstd::arithmetic::div_mod::lemma_div_denominator(u, 65536, 256);
    }
    assert(q2 < 256);
}

/// Builds the packet that carries `values`: header, the eight values in
/// little-endian order, and the two checksum bytes.
pub fn encode_packet(values: &[i32; 8]) -> (r: Vec<u8>)
    ensures
        r@ == packet_spec(values@),
        r@.len() == 38,
{
    let mut p: Vec<u8> = Vec::with_capacity(38);
    p.push(0xAA);
    p.push(0xFF);
    p.push(0xF1);
    p.push(0x20);
    assert(p@ =~= header_seq());
    let mut j: usize = 0;
    while j < 8
        invariant
            j <= 8,
            p@.len() == 4 + 4 * j,
            p@ == header_seq() + values_bytes(values@, j as nat),
        decreases 8 - j,
    {
        let ghost before = p@;
        push_le_i32(&mut p, values[j]);
        proof {
            lemma_le_round_trip(values[j as int]);
            assert(p@ =~= header_seq() + values_bytes(values@, (j + 1) as nat));
        }
        j = j + 1;
    }
    let (c1, c2) = compute_checksum(p.as_slice());
    assert(p@.subrange(0, 36) =~= p@);
    p.push(c1);
    p.push(c2);
    p
}

/// What one scan of a byte buffer produced.
pub struct ScanResult {
    /// The frames of the packets whose checksum matched, in stream order.
    pub frames: Vec<ChannelFrame>,
    /// The bytes that were not part of any packet, in stream order.
    pub diagnostic: Vec<u8>,
    /// How many bytes from the front of the buffer were used up.
    pub consumed: usize,
}

/// The views of a sequence of frames.
pub open spec fn frame_views(fs: Seq<ChannelFrame>) -> Seq<Seq<i32>> {
    fs.map_values(|f: ChannelFrame| f@)
}

/// Decodes the eight channel values of the packet that starts at `at`.
fn decode_frame(p: &[u8], at: usize) -> (r: ChannelFrame)
    requires
        at + 36 <= p@.len(),
    ensures
        r@ == decode_values(p@.subrange(at as int, at + 36)),
{
    let n = p.len();
    let mut raw: [i32; 8] = [0i32; 8];
    let mut j: usize = 0;
    while j < 8
        invariant
            j <= 8,
            n == p@.len(),
            at + 36 <= n,
            forall|k: int|
                0 <= k < j ==> raw@[k] as int == le_i32(
                    p@.subrange(at + 4 + 4 * k, at + 8 + 4 * k),
                ),
        decreases 8 - j,
    {
        raw[j] = read_le_i32(p, at + 4 + 4 * j);
        j = j + 1;
    }
    let ghost sub = p@.subrange(at as int, at + 36);
    assert forall|k: int| 0 <= k < 8 implies #[trigger] sub.subrange(4 + 4 * k, 8 + 4 * k) =~= p@.subrange(
        at + 4 + 4 * k,
        at + 8 + 4 * k,
    ) by {}
    assert(raw@ =~= decode_values(sub));
    ChannelFrame { raw }
}

/// Whether the header constant starts at position `i` of `b`.
fn is_header_at(b: &[u8], i: usize) -> (r: bool)
    requires
        i + 4 <= b@.len(),
    ensures
        r == header_at(b@, i as int),
{
    b[i] == 0xAA && b[i + 1] == 0xFF && b[i + 2] == 0xF1 && b[i + 3] == 0x20
}

/// Scans `buffer` from the front for packets.
///
/// At each position: where the header starts and a whole packet is present,
/// the packet's frame is kept if its checksum bytes match, and the scan moves
/// on by a whole packet either way; where the header starts but the packet
/// is incomplete, the scan stops; elsewhere the byte is a diagnostic byte and
/// the scan moves on by one. Fewer than four remaining bytes also stop it.
/// The bytes scanned are removed from `buffer`; the rest stays for later.
pub fn scan_buffer(buffer: &mut Vec<u8>) -> (r: ScanResult)
    ensures
        frame_views(r.frames@) == scan_spec(old(buffer)@).0,
        r.diagnostic@ == scan_spec(old(buffer)@).1,
        r.consumed as int == scan_spec(old(buffer)@).2,
        final(buffer)@ == old(buffer)@.skip(r.consumed as int),
{
    let ghost s = buffer@;
    let mut frames: Vec<ChannelFrame> = Vec::new();
    let mut diagnostic: Vec<u8> = Vec::new();
    let mut i: usize = 0;
    let mut done = false;
    let len = buffer.len();
    while !done && len - i >= 4
        invariant
            buffer@ == s,
            len == s.len(),
            i <= len,
            done ==> scan_from(s, i as int) == (Seq::<Seq<i32>>::empty(), Seq::<u8>::empty(), i as int),
            scan_spec(s).0 == frame_views(frames@) + scan_from(s, i as int).0,
            scan_spec(s).1 == diagnostic@ + scan_from(s, i as int).1,
            scan_spec(s).2 == scan_from(s, i as int).2,
        decreases len - i + (if done { 0int } else { 1int }),
    {
        let ghost fv = frame_views(frames@);
        let ghost dv = diagnostic@;
        if is_header_at(buffer.as_slice(), i) {
            if len - i < 38 {
                done = true;
            } else {
                let c = checksum_at(buffer.as_slice(), i);
                if buffer[i + 36] == c.0 && buffer[i + 37] == c.1 {
                    let f = decode_frame(buffer.as_slice(), i);
                    frames.push(f);
                    proof {
                        assert(frame_views(frames@) =~= fv.push(f@));
                        assert(fv.push(f@) + scan_from(s, i + 38).0 =~= fv + (seq![f@]
                            + scan_from(s, i + 38).0));
                    }
                }
                i = i + 38;
            }
        } else {
            diagnostic.push(buffer[i]);
            proof {
                assert(dv.push(s[i as int]) + scan_from(s, i + 1).1 =~= dv + (seq![s[i as int]]
                    + scan_from(s, i + 1).1));
            }
            i = i + 1;
        }
    }
    let rest = buffer.split_off(i);
    *buffer = rest;
    proof {
        assert(s.subrange(i as int, s.len() as int) =~= s.skip(i as int));
        assert(scan_from(s, i as int).0 =~= Seq::<Seq<i32>>::empty());
        assert(frame_views(frames@) + Seq::<Seq<i32>>::empty() =~= frame_views(frames@));
        assert(diagnostic@ + Seq::<u8>::empty() =~= diagnostic@);
    }
    ScanResult { frames, diagnostic, consumed: i }
}

proof fn lemma_scan_shift(a: Seq<u8>, t: Seq<u8>, i: int)
    requires
        0 <= i,
    ensures
        scan_from(a + t, a.len() + i) == (
            scan_from(t, i).0,
            scan_from(t, i).1,
            a.len() + scan_from(t, i).2,
        ),
    decreases t.len() - i,
{
    let s = a + t;
    let k = a.len() + i;
    if i + 4 > t.len() {
    } else {
        assert(header_at(s, k) == header_at(t, i));
        if header_at(t, i) {
            if t.len() - i < 38 {
            } else {
                lemma_scan_shift(a, t, i + 38);
                assert(s.subrange(k, k + 36) =~= t.subrange(i, i + 36));
                assert(s[k + 36] == t[i + 36]);
                assert(s[k + 37] == t[i + 37]);
            }
        } else {
            lemma_scan_shift(a, t, i + 1);
        }
    }
}

proof fn lemma_values_bytes(v: Seq<i32>, k: nat)
    requires
        k <= v.len(),
    ensures
        values_bytes(v, k).len() == 4 * k,
        forall|j: int|
            0 <= j < k ==> #[trigger] values_bytes(v, k).subrange(4 * j, 4 * j + 4) == le_bytes(
                v[j],
            ),
    decreases k,
{
    if k > 0 {
        let km = (k - 1) as nat;
        lemma_values_bytes(v, km);
        lemma_le_round_trip(v[km as int]);
        let prev = values_bytes(v, km);
        let cur = values_bytes(v, k);
        assert forall|j: int| 0 <= j < k implies #[trigger] cur.subrange(4 * j, 4 * j + 4)
            == le_bytes(v[j]) by {
            if j < km {
                assert(cur.subrange(4 * j, 4 * j + 4) =~= prev.subrange(4 * j, 4 * j + 4));
            } else {
                assert(cur.subrange(4 * j, 4 * j + 4) =~= le_bytes(v[j]));
            }
        }
    }
}

proof fn lemma_payload_values(v: Seq<i32>)
    requires
        v.len() == 8,
    ensures
        payload_spec(v).len() == 36,
        payload_spec(v).subrange(0, 4) == header_seq(),
        decode_values(payload_spec(v)) == v,
{
    let payload = payload_spec(v);
    let vb = values_bytes(v, 8);
    lemma_values_bytes(v, 8);
    assert(payload.subrange(0, 4) =~= header_seq());
    assert forall|j: int| 0 <= j < 8 implies #[trigger] payload.subrange(4 + 4 * j, 8 + 4 * j)
        == le_bytes(v[j]) by {
        assert(payload.subrange(4 + 4 * j, 8 + 4 * j) =~= vb.subrange(4 * j, 4 * j + 4));
        lemma_le_round_trip(v[j]);
    }
    assert forall|j: int| 0 <= j < 8 implies #[trigger] decode_values(payload)[j] == v[j] by {
        assert(payload.subrange(4 + 4 * j, 8 + 4 * j) == le_bytes(v[j]));
        lemma_le_round_trip(v[j]);
    }
    assert(decode_values(payload) =~= v);
}

proof fn lemma_packet_layout(v: Seq<i32>)
    requires
        v.len() == 8,
    ensures
        packet_spec(v).len() == 38,
        header_at(packet_spec(v), 0),
        checksum_ok_at(packet_spec(v), 0),
        decode_values(packet_spec(v).subrange(0, 36)) == v,
{
    let payload = payload_spec(v);
    let p = packet_spec(v);
    lemma_payload_values(v);
    assert(p.subrange(0, 36) =~= payload);
    assert(p[0] == payload.subrange(0, 4)[0]);
    assert(p[1] == payload.subrange(0, 4)[1]);
    assert(p[2] == payload.subrange(0, 4)[2]);
    assert(p[3] == payload.subrange(0, 4)[3]);
}

proof fn lemma_scan_packet(v: Seq<i32>, t: Seq<u8>)
    requires
        v.len() == 8,
    ensures
        scan_spec(packet_spec(v) + t) == (
            seq![v] + scan_spec(t).0,
            scan_spec(t).1,
            38 + scan_spec(t).2,
        ),
{
    let p = packet_spec(v);
    let s = p + t;
    lemma_packet_layout(v);
    assert(header_at(s, 0));
    assert(s.subrange(0, 36) =~= p.subrange(0, 36));
    assert(checksum_ok_at(s, 0));
    lemma_scan_shift(p, t, 0);
}

/// Scanning the bytes of a well-formed packet yields exactly one frame,
/// carrying the values the packet was built from, uses up the whole packet
/// and passes over no diagnostic byte.
pub proof fn lemma_packet_round_trip(values: Seq<i32>)
    requires
        values.len() == 8,
    ensures
        scan_spec(packet_spec(values)) == (
            seq![values],
            Seq::<u8>::empty(),
            PACKET_LEN as int,
        ),
{
    lemma_scan_packet(values, Seq::empty());
    assert(packet_spec(values) + Seq::<u8>::empty() =~= packet_spec(values));
    assert(seq![values] + Seq::<Seq<i32>>::empty() =~= seq![values]);
}

proof fn lemma_byte_sum_update(s: Seq<u8>, k: int, b: u8)
    requires
        0 <= k < s.len(),
    ensures
        byte_sum(s.update(k, b)) + s[k] == byte_sum(s) + b,
    decreases s.len(),
{
    let u = s.update(k, b);
    if k == s.len() - 1 {
        assert(u.drop_last() =~= s.drop_last());
    } else {
        lemma_byte_sum_update(s.drop_last(), k, b);
        assert(u.drop_last() =~= s.drop_last().update(k, b));
    }
}

/// A packet in which one byte of the channel values was changed fails its
/// checksum: it yields no frame and no diagnostic byte, and the scan goes on
/// after the whole packet, whatever follows it.
pub proof fn lemma_corrupt_packet_skipped(values: Seq<i32>, k: int, b: u8, rest: Seq<u8>)
    requires
        values.len() == 8,
        HEADER_LEN <= k < PAYLOAD_LEN,
        b != packet_spec(values)[k],
    ensures
        scan_spec(packet_spec(values).update(k, b) + rest) == (
            scan_spec(rest).0,
            scan_spec(rest).1,
            PACKET_LEN + scan_spec(rest).2,
        ),
{
    let p = packet_spec(values);
    let q = p.update(k, b);
    let s = q + rest;
    lemma_packet_layout(values);
    assert(s[0] == p[0] && s[1] == p[1] && s[2] == p[2] && s[3] == p[3]);
    assert(header_at(s, 0));
    let orig = p.subrange(0, 36);
    let bad = s.subrange(0, 36);
    assert(bad =~= orig.update(k, b));
    lemma_byte_sum_update(orig, k, b);
    lemma_sum_change_visible(byte_sum(orig) as int, byte_sum(bad) as int, orig[k] as int, b as int);
    assert(s[36] == p[36]);
    assert(p[36] == checksum_spec(orig).0);
    assert(!checksum_ok_at(s, 0));
    lemma_scan_shift(q, rest, 0);
}

proof fn lemma_sum_change_visible(x: int, y: int, a: int, b: int)
    requires
        0 <= x,
        0 <= y,
        0 <= a < 256,
        0 <= b < 256,
        a != b,
        y + a == x + b,
    ensures
        (y % 256) as u8 != (x % 256) as u8,
{
}

proof fn lemma_scan_run_from(r: Seq<u8>, t: Seq<u8>, i: int)
    requires
        0 <= i <= r.len(),
        t.len() >= 3,
        forall|j: int| i <= j < r.len() ==> !header_at(r + t, j),
    ensures
        scan_from(r + t, i) == (
            scan_spec(t).0,
            r.skip(i) + scan_spec(t).1,
            r.len() + scan_spec(t).2,
        ),
    decreases r.len() - i,
{
    if i == r.len() {
        lemma_scan_shift(r, t, 0);
        assert(r.skip(i) + scan_spec(t).1 =~= scan_spec(t).1);
    } else {
        lemma_scan_run_from(r, t, i + 1);
        assert((r + t)[i] == r[i]);
        assert(seq![r[i]] + (r.skip(i + 1) + scan_spec(t).1) =~= r.skip(i) + scan_spec(t).1);
    }
}

/// Bytes that do not start a header are passed to the diagnostic output
/// whole and in order, and a well-formed packet that follows them is still
/// decoded: diagnostic text and packets may be interleaved freely.
pub proof fn lemma_diagnostic_run_kept(run: Seq<u8>, values: Seq<i32>, rest: Seq<u8>)
    requires
        values.len() == 8,
        forall|j: int| 0 <= j && j + 4 <= run.len() ==> !header_at(run, j),
    ensures
        scan_spec(run + packet_spec(values) + rest) == (
            seq![values] + scan_spec(rest).0,
            run + scan_spec(rest).1,
            run.len() + PACKET_LEN + scan_spec(rest).2,
        ),
{
    let p = packet_spec(values);
    let t = p + rest;
    let s = run + t;
    lemma_packet_layout(values);
    assert(run + p + rest =~= s);
    assert forall|j: int| 0 <= j < run.len() implies !header_at(s, j) by {
        if j + 4 <= run.len() {
            assert(!header_at(run, j));
            assert(s[j] == run[j] && s[j + 1] == run[j + 1] && s[j + 2] == run[j + 2] && s[j + 3]
                == run[j + 3]);
        } else {
            assert(s[run.len() as int] == 0xAAu8);
        }
    }
    lemma_scan_run_from(run, t, 0);
    assert(run.skip(0) =~= run);
    lemma_scan_packet(values, rest);
}

/// How many whole packets (valid or not) a scan from `i` passes over.
spec fn packets_passed(s: Seq<u8>, i: int) -> nat
    decreases s.len() - i,
{
    if i < 0 || i + 4 > s.len() {
        0
    } else if header_at(s, i) {
        if s.len() - i < 38 {
            0
        } else {
            1 + packets_passed(s, i + 38)
        }
    } else {
        packets_passed(s, i + 1)
    }
}

/// A scan's result accounts for its used-up bytes with `k` whole packets,
/// of which at most `k` yield frames.
pub open spec fn packet_accounting(r: (Seq<Seq<i32>>, Seq<u8>, int), k: nat) -> bool {
    r.0.len() <= k && r.1.len() + PACKET_LEN * k == r.2
}

proof fn lemma_scan_accounting_from(s: Seq<u8>, i: int)
    requires
        0 <= i <= s.len(),
    ensures
        i <= scan_from(s, i).2 <= s.len(),
        scan_from(s, i).0.len() <= packets_passed(s, i),
        scan_from(s, i).1.len() + 38 * packets_passed(s, i) + i == scan_from(s, i).2,
    decreases s.len() - i,
{
    if i + 4 > s.len() {
    } else if header_at(s, i) {
        if s.len() - i >= 38 {
            lemma_scan_accounting_from(s, i + 38);
        }
    } else {
        lemma_scan_accounting_from(s, i + 1);
    }
}

/// No byte a scan uses up is lost or read twice: the bytes used up are
/// exactly the diagnostic bytes passed on plus whole 38-byte packets (some
/// of which, failing their checksum, yield no frame), and never more than
/// the buffer holds.
pub proof fn lemma_scan_accounts_for_every_byte(s: Seq<u8>)
    ensures
        0 <= scan_spec(s).2 <= s.len(),
        exists|k: nat| packet_accounting(scan_spec(s), k),
{
    lemma_scan_accounting_from(s, 0);
    assert(packet_accounting(scan_spec(s), packets_passed(s, 0)));
}

} // verus!
