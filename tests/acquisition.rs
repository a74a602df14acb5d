use serial_brain::acquisition::{loop_step, LoopAction, LoopEvent, LoopPhase, SocketLink, SocketRead, StreamDecoder};
use serial_brain::codec::{encode_packet, ChannelFrame};

#[test]
fn decoder_joins_packets_split_across_reads() {
    let packet = encode_packet(&[9; 8]);
    let mut d = StreamDecoder::new();
    let first = d.feed(packet[..10].to_vec());
    assert!(first.frames.is_empty());
    assert!(first.text.is_none());
    assert_eq!(d.pending().len(), 10);
    let second = d.feed(packet[10..].to_vec());
    assert_eq!(second.frames, vec![ChannelFrame::new([9; 8])]);
    assert!(d.pending().is_empty());
}

#[test]
fn decoder_decodes_diagnostic_text_as_gbk() {
    let mut d = StreamDecoder::new();
    let mut data: Vec<u8> = b"ok ".to_vec();
    data.extend_from_slice(&[0xD6, 0xD0, 0xCE, 0xC4]);
    data.extend_from_slice(&encode_packet(&[1; 8]));
    let out = d.feed(data);
    assert_eq!(out.text, Some("ok \u{4e2d}\u{6587}".to_string()));
    assert_eq!(out.frames.len(), 1);
}

#[test]
fn decoder_ignores_empty_reads() {
    let mut d = StreamDecoder::new();
    let _ = d.feed(vec![0xAA, 0xFF]);
    let out = d.feed(Vec::new());
    assert!(out.frames.is_empty() && out.text.is_none());
    assert_eq!(d.pending().clone(), vec![0xAA, 0xFF]);
}

#[test]
fn loop_life_cycle() {
    assert_eq!(loop_step(LoopPhase::NotStarted, LoopEvent::Start), (LoopPhase::SettingUp, LoopAction::SetUp));
    assert_eq!(loop_step(LoopPhase::SettingUp, LoopEvent::SetupSucceeded), (LoopPhase::Running, LoopAction::ReportReady));
    assert_eq!(loop_step(LoopPhase::SettingUp, LoopEvent::SetupFailed), (LoopPhase::Stopped, LoopAction::ReportFailure));
    assert_eq!(loop_step(LoopPhase::Running, LoopEvent::ReadSucceeded), (LoopPhase::Running, LoopAction::Read));
    assert_eq!(loop_step(LoopPhase::Running, LoopEvent::ReadFailed), (LoopPhase::Stopping, LoopAction::Close));
    assert_eq!(loop_step(LoopPhase::Running, LoopEvent::StopRequested), (LoopPhase::Stopping, LoopAction::Close));
    assert_eq!(loop_step(LoopPhase::Stopping, LoopEvent::Closed), (LoopPhase::Stopped, LoopAction::Finish));
    assert_eq!(loop_step(LoopPhase::Stopped, LoopEvent::Start), (LoopPhase::Stopped, LoopAction::Finish));
}

#[test]
fn socket_link_reconnects_after_peer_closes() {
    let mut link = SocketLink::new();
    assert!(link.should_accept());
    link.accepted();
    assert!(!link.should_accept());
    assert!(!link.after_read(SocketRead::Bytes));
    assert!(!link.after_read(SocketRead::WouldBlock));
    assert!(link.connected);
    assert!(!link.after_read(SocketRead::PeerClosed));
    assert!(link.should_accept());
    link.accepted();
    assert!(link.after_read(SocketRead::Failed));
    assert!(!link.connected);
}
