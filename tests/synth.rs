use serial_brain::acquisition::StreamDecoder;
use serial_brain::codec::{scan_buffer, ChannelFrame};
use serial_brain::fanout::BufferState;
use serial_brain::synth::{fake_packet, inverse_scale, random_raw_value, Waveform};

fn physical(raw: i32) -> f32 {
    (raw as f32) * 0.5364 / 12.0
}

#[test]
fn waveform_names() {
    assert_eq!(Waveform::from_name("sine"), Waveform::Sine);
    assert_eq!(Waveform::from_name("square"), Waveform::Square);
    assert_eq!(Waveform::from_name("triangle"), Waveform::Triangle);
    assert_eq!(Waveform::from_name("sawtooth"), Waveform::Sawtooth);
    assert_eq!(Waveform::from_name("random"), Waveform::Random);
    assert_eq!(Waveform::from_name("noise"), Waveform::Random);
}

#[test]
fn fake_packet_zero_fills_inactive_channels() {
    let values = [11, 22, 33, 44, 55, 66, 77, 88];
    let mut p = fake_packet(&values, 3);
    assert_eq!(p.len(), 38);
    let r = scan_buffer(&mut p);
    assert_eq!(r.frames, vec![ChannelFrame::new([11, 22, 33, 0, 0, 0, 0, 0])]);
}

#[test]
fn fake_packet_channel_count_is_clamped() {
    let values = [1, 2, 3, 4, 5, 6, 7, 8];
    let mut p = fake_packet(&values, 0);
    assert_eq!(scan_buffer(&mut p).frames, vec![ChannelFrame::new([1, 0, 0, 0, 0, 0, 0, 0])]);
    let mut p = fake_packet(&values, 20);
    assert_eq!(scan_buffer(&mut p).frames, vec![ChannelFrame::new(values)]);
}

#[test]
fn inverse_scale_values() {
    assert_eq!(inverse_scale(10), 223);
    assert_eq!(inverse_scale(-10), -223);
    assert_eq!(inverse_scale(447), 10000);
    assert_eq!(inverse_scale(-447), -10000);
    assert_eq!(inverse_scale(0), 0);
    assert_eq!(inverse_scale(100_000_000), i32::MAX);
    assert_eq!(inverse_scale(-100_000_000), i32::MIN);
}

#[test]
fn random_values_stay_in_range() {
    for _ in 0..200 {
        let r = random_raw_value(-10, 10);
        assert!((-223..=223).contains(&r));
    }
    assert_eq!(random_raw_value(447, 447), 10000);
}

#[test]
fn sine_source_two_channels_end_to_end() {
    // One sample of a 2-channel sine between -10 and 10, through decoding
    // and the view buffer.
    let (min, max) = (-10i32, 10i32);
    let amplitude = (max - min) as f64;
    let mut values = [0i32; 8];
    for (i, v) in values.iter_mut().enumerate().take(2) {
        let phase = 0.137 + i as f64 * 0.2;
        let x = (phase * 2.0 * std::f64::consts::PI).sin() * amplitude / 2.0 + amplitude / 2.0 + min as f64;
        *v = (x / (0.5364 / 12.0)) as i32;
    }
    let mut dec = StreamDecoder::new();
    let out = dec.feed(fake_packet(&values, 2));
    let mut view = BufferState::new();
    for f in out.frames {
        view.add_data(f);
    }
    let frames = view.get_data();
    assert!(!frames.is_empty());
    let f = frames[0];
    for c in 0..2 {
        let v = physical(f.channel(c));
        assert!((-10.0..=10.0).contains(&v), "channel {} = {}", c, v);
    }
    for c in 2..8 {
        assert_eq!(physical(f.channel(c)), 0.0);
    }
}
