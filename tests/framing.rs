use neewer_control::framing::{FrameDecoder, LightStatus, LoopStep, ReadEvent};
use neewer_control::protocol::cct_command;

fn status(brightness: u8, kelvin: u32) -> LightStatus {
    LightStatus { brightness, kelvin }
}

#[test]
fn decodes_one_frame() {
    let mut d = FrameDecoder::new();
    let out = d.feed(&cct_command(50, 4950));
    assert_eq!(out, vec![status(50, 4950)]);
    assert!(d.pending().is_empty());
}

#[test]
fn garbage_before_frame_is_dropped() {
    let mut d = FrameDecoder::new();
    let mut bytes = vec![0x00, 0x11, 0xFF, 0x42];
    bytes.extend_from_slice(&cct_command(80, 7000));
    let out = d.feed(&bytes);
    assert_eq!(out, vec![status(80, 7000)]);
    assert!(d.pending().is_empty());
}

#[test]
fn corrupt_window_is_dropped_whole() {
    let mut d = FrameDecoder::new();
    let mut bad = cct_command(10, 2900);
    bad[7] ^= 0x55;
    let mut bytes = bad.clone();
    bytes.extend_from_slice(&cct_command(20, 3128));
    let out = d.feed(&bytes);
    assert_eq!(out, vec![status(20, 3128)]);
    assert!(d.pending().is_empty());
}

#[test]
fn corrupt_window_with_inner_sentinel_is_not_rescanned() {
    // a broken window whose byte 2 is a sentinel: the frame that would start
    // there is never looked at, and decoding resumes after the 8 bytes
    let mut d = FrameDecoder::new();
    let good = cct_command(60, 5000);
    let mut bytes = vec![0x3A, 0x00];
    bytes.extend_from_slice(&good);
    let out = d.feed(&bytes);
    assert_eq!(out, vec![]);
    assert_eq!(d.pending(), &good[6..8]);
}

#[test]
fn buffer_without_sentinel_is_cleared() {
    let mut d = FrameDecoder::new();
    let out = d.feed(&[1, 2, 3, 4, 5, 6, 7, 8, 9]);
    assert!(out.is_empty());
    assert!(d.pending().is_empty());
}

#[test]
fn short_buffer_is_kept_as_is() {
    let mut d = FrameDecoder::new();
    let out = d.feed(&[1, 2, 3]);
    assert!(out.is_empty());
    assert_eq!(d.pending(), &[1, 2, 3]);
}

#[test]
fn frame_split_across_reads() {
    let mut d = FrameDecoder::new();
    let cmd = cct_command(33, 6000);
    assert!(d.feed(&cmd[..5]).is_empty());
    assert_eq!(d.pending(), &cmd[..5]);
    let out = d.feed(&cmd[5..]);
    // 6000 K is step 14, which reads back as 6089 K
    assert_eq!(out, vec![status(33, 6089)]);
    assert!(d.pending().is_empty());
}

#[test]
fn several_frames_in_one_read() {
    let mut d = FrameDecoder::new();
    let mut bytes = cct_command(1, 2900);
    bytes.extend_from_slice(&cct_command(2, 7000));
    bytes.extend_from_slice(&[0x3A, 0x02]);
    let out = d.feed(&bytes);
    assert_eq!(out, vec![status(1, 2900), status(2, 7000)]);
    assert_eq!(d.pending(), &[0x3A, 0x02]);
}

#[test]
fn read_step_publishes_statuses() {
    let mut d = FrameDecoder::new();
    match d.on_read(ReadEvent::Data(cct_command(70, 4950))) {
        LoopStep::Publish(v) => assert_eq!(v, vec![status(70, 4950)]),
        LoopStep::Stop => panic!("the loop must go on"),
    }
}

#[test]
fn read_step_timeout_and_empty_read_continue() {
    let mut d = FrameDecoder::new();
    d.feed(&[0x3A, 0x02]);
    match d.on_read(ReadEvent::TimedOut) {
        LoopStep::Publish(v) => assert!(v.is_empty()),
        LoopStep::Stop => panic!("a timeout is not an error"),
    }
    match d.on_read(ReadEvent::Data(Vec::new())) {
        LoopStep::Publish(v) => assert!(v.is_empty()),
        LoopStep::Stop => panic!("an empty read is not an error"),
    }
    assert_eq!(d.pending(), &[0x3A, 0x02]);
}

#[test]
fn read_step_failure_stops() {
    let mut d = FrameDecoder::new();
    assert!(matches!(d.on_read(ReadEvent::Failed), LoopStep::Stop));
}

#[test]
fn decoding_does_not_depend_on_read_boundaries() {
    let mut stream = vec![0x00, 0x3A, 0x11];
    stream.extend_from_slice(&cct_command(5, 3000));
    stream.extend_from_slice(&[0x99, 0x98]);
    stream.extend_from_slice(&cct_command(95, 6500));
    let mut bad = cct_command(40, 4000);
    bad[6] ^= 0x01;
    stream.extend_from_slice(&bad);
    stream.extend_from_slice(&cct_command(41, 4100));

    let mut whole = FrameDecoder::new();
    let expected = whole.feed(&stream);
    // the stray sentinel at index 1 opens an invalid window that swallows
    // the first frame; the corrupted frame is dropped too
    assert_eq!(expected, vec![status(95, 6544), status(41, 4039)]);
    for cut in 1..stream.len() {
        let mut d = FrameDecoder::new();
        let mut got = d.feed(&stream[..cut]);
        got.extend(d.feed(&stream[cut..]));
        assert_eq!(got, expected, "cut at {cut}");
    }
    let mut d = FrameDecoder::new();
    let mut got = Vec::new();
    for b in &stream {
        got.extend(d.feed(&[*b]));
    }
    assert_eq!(got, expected);
}

#[test]
fn garbage_then_frame_over_several_reads() {
    let mut d = FrameDecoder::new();
    assert!(d.feed(&[0x01, 0x02, 0x03]).is_empty());
    assert!(d.feed(&[0x04, 0x05, 0x06, 0x07, 0x08]).is_empty());
    let cmd = cct_command(12, 7000);
    assert!(d.feed(&cmd[..4]).is_empty());
    assert_eq!(d.feed(&cmd[4..]), vec![status(12, 7000)]);
}
