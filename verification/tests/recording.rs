//! Captures, screenshots and recordings.

use emskin::capture::{CaptureError, Capturer, Orientation, OutputCapture, PixelFormat};
use emskin::encoder::{
    turn_upright, write_screenshot, EncoderRefusal, PushError, SendOutcome, VideoEncoder,
};
use emskin::frame::recording_stopped;
use emskin::geometry::Size;
use emskin::recording::{
    frame_interval, CaptureRequest, FinishEvent, FinishReason, Push, Recorder,
};
use emskin::state::OutgoingMessage;

const SIZE: Size = Size { w: 4, h: 2 };

#[test]
fn captures_need_a_size() {
    assert!(matches!(
        OutputCapture::new(Size { w: 0, h: 3 }, 5),
        Err(CaptureError::NonPositiveSize(Size { w: 0, h: 3 }))
    ));
    let source = OutputCapture::new(SIZE, 5).unwrap();
    let info = Capturer::new().with_format(PixelFormat::Argb8888).describe(&source);
    assert_eq!((info.width(), info.height(), info.stride()), (4, 2, 16));
    assert_eq!((info.size(), info.format(), info.present_time()), (SIZE, PixelFormat::Argb8888, 5));
    assert_eq!(info.orientation(), Capturer::new().orientation());
    assert_eq!(info.format, PixelFormat::Argb8888);
    assert_eq!(info.present_time, 5);
}

#[test]
fn rows_are_turned_upright() {
    let bytes = [1, 1, 1, 1, 2, 2, 2, 2, 3, 3, 3, 3];
    let turned = turn_upright(&bytes, 1, 3, Orientation::BottomUp);
    assert_eq!(turned, [3, 3, 3, 3, 2, 2, 2, 2, 1, 1, 1, 1]);
    assert_eq!(turn_upright(&turned, 1, 3, Orientation::BottomUp), bytes);
    assert_eq!(turn_upright(&bytes, 1, 3, Orientation::TopDown), bytes);
}

/// Reads a PNG file back.
fn decode(file: &[u8]) -> (u32, u32, Vec<u8>) {
    let decoder = png::Decoder::new(file);
    let mut reader = decoder.read_info().unwrap();
    let mut bytes = vec![0; reader.output_buffer_size()];
    let info = reader.next_frame(&mut bytes).unwrap();
    bytes.truncate(info.buffer_size());
    (info.width, info.height, bytes)
}

#[test]
fn screenshots_are_png_files() {
    let bytes: Vec<u8> = (0..32).collect();
    let file = write_screenshot(&bytes, 4, 2, Orientation::TopDown).unwrap();
    assert_eq!(&file[..8], &[0x89, b'P', b'N', b'G', 13, 10, 26, 10]);
    assert_eq!(decode(&file), (4, 2, bytes.clone()));
    let upside = write_screenshot(&bytes, 4, 2, Orientation::BottomUp).unwrap();
    let mut turned = bytes[16..].to_vec();
    turned.extend_from_slice(&bytes[..16]);
    assert_eq!(decode(&upside), (4, 2, turned));
}

#[test]
fn encoders_refuse_what_they_cannot_encode() {
    assert!(matches!(
        VideoEncoder::spawn("a.mp4", Size { w: 4, h: 0 }, 30),
        Err(EncoderRefusal::NonPositiveSize(_))
    ));
    assert!(matches!(VideoEncoder::spawn("a.mp4", SIZE, 0), Err(EncoderRefusal::ZeroFps)));
}

#[test]
fn encoders_take_whole_frames() {
    let (mut encoder, args) = VideoEncoder::spawn("a.mp4", SIZE, 30).unwrap();
    assert!(args.contains(&"4x2".to_string()));
    assert_eq!(args.last().map(|s| s.as_str()), Some("a.mp4"));
    assert_eq!(encoder.accepts(32), Ok(()));
    assert_eq!(encoder.accepts(31), Err(PushError::ByteCount { got: 31, expected: 32 }));
    assert_eq!(encoder.push_frame(SendOutcome::Queued), Ok(()));
    assert_eq!(encoder.push_frame(SendOutcome::Full), Ok(()));
    assert_eq!(encoder.dropped_frames, 1);
    assert_eq!(encoder.push_frame(SendOutcome::Disconnected), Err(PushError::WriterDied));
    encoder.finish();
    assert_eq!(encoder.accepts(32), Err(PushError::Closed));
}

#[test]
fn a_screenshot_takes_one_tick() {
    let mut recorder: Recorder<&str> = Recorder::new();
    assert!(!recorder.wants_continuous_frames());
    recorder.request_screenshot("shot.png".to_string());
    assert!(matches!(recorder.capture_request(SIZE, 0), CaptureRequest::Frame));
    recorder.capture_frame(SIZE, 0, 0, None, Some("pixels"));
    match recorder.pending_push() {
        Push::Screenshot(frame, path) => {
            assert_eq!((*frame, path.as_str()), ("pixels", "shot.png"));
        }
        other => panic!("{other:?}"),
    }
    assert!(recorder.finalize(true, 0).is_none());
    assert!(!recorder.wants_continuous_frames());
}

/// One tick of a recording at `now` with frame `frame`.
fn tick(recorder: &mut Recorder<u32>, now: u64, frame: u32) -> (Option<u32>, bool) {
    recorder.capture_frame(SIZE, now, now, Some(10), Some(frame));
    let pushed = match recorder.pending_push() {
        Push::Frame(f) => Some(*f),
        Push::Close(f) => f.copied(),
        _ => None,
    };
    (pushed, recorder.finalize(true, now).is_some())
}

#[test]
fn frames_are_pushed_a_tick_later() {
    let mut recorder: Recorder<u32> = Recorder::new();
    recorder.request_recording("a.mp4".to_string(), 30);
    assert!(matches!(
        recorder.capture_request(SIZE, 0),
        CaptureRequest::Encoder { fps: 30, size: SIZE, .. }
    ));
    assert_eq!(tick(&mut recorder, 100, 1), (None, false));
    assert!(recorder.encoder_open());
    assert_eq!(tick(&mut recorder, 110, 2), (Some(1), false));
    assert_eq!(tick(&mut recorder, 120, 3), (Some(2), false));
    recorder.stop_recording();
    match recorder.pending_push() {
        Push::Close(Some(f)) => assert_eq!(*f, 3),
        other => panic!("{other:?}"),
    }
    let event = recorder.finalize(true, 150).unwrap();
    assert_eq!(event.path, "a.mp4");
    assert_eq!(event.frames_written, 3);
    assert_eq!(event.duration, 50);
    assert_eq!(event.reason, FinishReason::User);
    assert_eq!(event.reason.as_str(), "user");
}

#[test]
fn a_resize_ends_the_recording() {
    let mut recorder: Recorder<u32> = Recorder::new();
    recorder.request_recording("a.mp4".to_string(), 30);
    tick(&mut recorder, 0, 1);
    recorder.capture_frame(Size { w: 5, h: 5 }, 20, 20, None, None);
    let event = recorder.finalize(true, 20).unwrap();
    assert_eq!(event.reason, FinishReason::Resize);
    assert_eq!(event.frames_written, 1);
}

#[test]
fn a_failing_encoder_ends_the_recording() {
    let mut recorder: Recorder<u32> = Recorder::new();
    recorder.request_recording("a.mp4".to_string(), 30);
    tick(&mut recorder, 0, 1);
    recorder.capture_frame(SIZE, 20, 20, None, Some(2));
    assert!(recorder.finalize(false, 20).is_none());
    let event = recorder.finalize(true, 30).unwrap();
    assert_eq!(event.reason, FinishReason::EncoderError);
    assert_eq!(event.frames_written, 0);
}

#[test]
fn a_second_recording_replaces_the_first() {
    let mut recorder: Recorder<u32> = Recorder::new();
    recorder.request_recording("a.mp4".to_string(), 30);
    tick(&mut recorder, 0, 1);
    recorder.request_recording("b.mp4".to_string(), 30);
    let event = recorder.finalize(true, 5).unwrap();
    assert_eq!(event.reason, FinishReason::Replaced);
}

#[test]
fn emacs_is_told_why_a_recording_stopped() {
    let event = FinishEvent {
        path: "/tmp/a.mp4".to_string(),
        frames_written: 7,
        duration: 250_000_000,
        reason: FinishReason::Resize,
    };
    assert_eq!(
        recording_stopped(event),
        OutgoingMessage::RecordingStopped {
            path: "/tmp/a.mp4".to_string(),
            frames_written: 7,
            duration: 250_000_000,
            reason: "resize".to_string(),
        }
    );
}

#[test]
fn frames_divide_a_second() {
    let halves = (0..10).map(|k| 1024 * 5u32.pow(k));
    for fps in [1u32, 24, 30, 60, 144, 3_000_000_000].into_iter().chain(halves) {
        let expected = std::time::Duration::from_secs_f64(1.0 / fps as f64);
        assert_eq!(u128::from(frame_interval(fps)), expected.as_nanos(), "{fps} per second");
    }
    assert_eq!(frame_interval(60), 16_666_667);
    assert_eq!(frame_interval(1024), 976_562);
    assert_eq!(frame_interval(5120), 195_313);
    assert_eq!(frame_interval(16_000_000), 62);
}
