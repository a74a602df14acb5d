use serial_brain::codec::ChannelFrame;
use serial_brain::fanout::{BufferState, FrameQueue, RecordingState, TimedFrame};

fn frame(v: i32) -> ChannelFrame {
    ChannelFrame::new([v; 8])
}

#[test]
fn queue_keeps_most_recent_oldest_first() {
    let mut q: FrameQueue<u32> = FrameQueue::new(3);
    for i in 0..10u32 {
        q.push(i);
        assert!(q.len() <= 3);
    }
    assert_eq!(q.capacity(), 3);
    assert_eq!(q.drain_all(), vec![7, 8, 9]);
    assert_eq!(q.len(), 0);
}

#[test]
fn queue_below_capacity_keeps_everything() {
    let mut q: FrameQueue<u32> = FrameQueue::new(5);
    q.push(1);
    q.push(2);
    assert_eq!(q.snapshot(), vec![1, 2]);
    assert_eq!(q.len(), 2);
    assert_eq!(q.drain_all(), vec![1, 2]);
    assert!(q.drain_all().is_empty());
}

#[test]
fn view_buffer_evicts_beyond_two_thousand() {
    let mut b = BufferState::new();
    for i in 0..2005 {
        b.add_data(frame(i));
    }
    let data = b.get_data();
    assert_eq!(data.len(), 2000);
    assert_eq!(data[0], frame(5));
    assert_eq!(data[1999], frame(2004));
    assert!(b.get_data().is_empty());
}

#[test]
fn recording_buffer_ignores_frames_while_inactive() {
    let mut r = RecordingState::new();
    r.add_data(frame(1), 10);
    assert!(r.get_recording_data().is_empty());
    r.recording_active = true;
    r.add_data(frame(2), 20);
    r.add_data(frame(3), 30);
    let got = r.get_recording_data();
    assert_eq!(
        got,
        vec![
            TimedFrame { timestamp_ms: 20, frame: frame(2) },
            TimedFrame { timestamp_ms: 30, frame: frame(3) },
        ]
    );
    assert!(r.get_recording_data().is_empty());
}

#[test]
fn recording_buffer_trimmed_on_reaching_ten_thousand() {
    let mut r = RecordingState::new();
    r.recording_active = true;
    for i in 0..9999u64 {
        r.add_data(frame(i as i32), i);
    }
    assert_eq!(r.recording_buffer.len(), 9999);
    r.add_data(frame(9999), 9999);
    assert_eq!(r.recording_buffer.len(), 9999);
    for i in 10000..10003u64 {
        r.add_data(frame(i as i32), i);
    }
    let got = r.get_recording_data();
    assert_eq!(got.len(), 9999);
    assert_eq!(got[0].timestamp_ms, 4);
    assert_eq!(got[9998].timestamp_ms, 10002);
}
