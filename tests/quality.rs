use serial_brain::codec::ChannelFrame;
use serial_brain::quality::SignalQualityState;

fn physical_to_raw(v: f64) -> i32 {
    (v / (0.5364 / 12.0)) as i32
}

#[test]
fn new_state_is_all_good() {
    let q = SignalQualityState::new();
    assert_eq!(q.get_signal_quality(), vec![true; 8]);
}

#[test]
fn ten_zero_samples_are_all_good() {
    let mut q = SignalQualityState::new();
    for _ in 0..10 {
        q.add_data(ChannelFrame::new([0; 8]));
    }
    assert_eq!(q.check_signal_quality(), vec![true; 8]);
}

#[test]
fn wide_spread_flags_only_that_channel() {
    let mut q = SignalQualityState::new();
    let hi = physical_to_raw(30000.0);
    let lo = physical_to_raw(-30000.0);
    for i in 0..10 {
        let mut raw = [0i32; 8];
        raw[2] = if i % 2 == 0 { hi } else { lo };
        q.add_data(ChannelFrame::new(raw));
    }
    let flags = q.check_signal_quality();
    let mut expected = vec![true; 8];
    expected[2] = false;
    assert_eq!(flags, expected);
    assert_eq!(q.get_signal_quality(), expected);
}

#[test]
fn high_mean_flags_channel() {
    let mut q = SignalQualityState::new();
    let raw_high = physical_to_raw(150000.0);
    for _ in 0..12 {
        let mut raw = [0i32; 8];
        raw[5] = raw_high;
        q.add_data(ChannelFrame::new(raw));
    }
    let flags = q.check_signal_quality();
    assert!(!flags[5]);
    assert!(flags[0] && flags[7]);
}

#[test]
fn fewer_than_ten_samples_keep_flags() {
    let mut q = SignalQualityState::new();
    let hi = physical_to_raw(30000.0);
    for i in 0..10 {
        q.add_data(ChannelFrame::new([if i % 2 == 0 { hi } else { -hi }; 8]));
    }
    assert_eq!(q.check_signal_quality(), vec![false; 8]);
    let mut fresh = SignalQualityState::new();
    for i in 0..9 {
        fresh.add_data(ChannelFrame::new([if i % 2 == 0 { hi } else { -hi }; 8]));
    }
    assert_eq!(fresh.check_signal_quality(), vec![true; 8]);
}

#[test]
fn spread_threshold_is_inclusive() {
    // Alternating +a and -a has population standard deviation exactly a.
    // Raw 500000 is 22350.0 in physical units (500000 * 447 / 10000).
    let mut q = SignalQualityState::new();
    for i in 0..10 {
        let v = if i % 2 == 0 { 500000 } else { -500000 };
        q.add_data(ChannelFrame::new([v; 8]));
    }
    assert_eq!(q.check_signal_quality(), vec![true; 8]);
    let mut q = SignalQualityState::new();
    for i in 0..10 {
        let v = if i % 2 == 0 { 500001 } else { -500001 };
        q.add_data(ChannelFrame::new([v; 8]));
    }
    assert_eq!(q.check_signal_quality(), vec![false; 8]);
}
