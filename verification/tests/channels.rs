use wf_overlay::channel::{FrameChannel, MetaChannel, ScreencastReceiver};
use wf_overlay::frame::{LatestImage, ScreencastFrame, ScreencastMeta, VideoFormat};

#[test]
fn only_the_latest_frame_can_be_taken() {
    let mut channel = FrameChannel::new();
    channel.publish(ScreencastFrame(vec![1, 1, 1, 1]));
    channel.publish(ScreencastFrame(vec![2, 2, 2, 2]));
    assert_eq!(channel.try_take().map(|f| f.0), Some(vec![2, 2, 2, 2]));
    assert!(channel.try_take().is_none());
}

#[test]
fn only_the_latest_metadata_can_be_taken() {
    let mut channel = MetaChannel::new();
    channel.publish(ScreencastMeta { width: 1, height: 2, format: VideoFormat::Bgra });
    channel.publish(ScreencastMeta { width: 3, height: 4, format: VideoFormat::Rgba });
    let meta = channel.try_take().expect("the second value waits");
    assert_eq!((meta.width, meta.height), (3, 4));
    assert!(matches!(meta.format, VideoFormat::Rgba));
    assert!(channel.try_take().is_none());
}

#[test]
fn new_channels_hold_nothing() {
    assert!(FrameChannel::new().try_take().is_none());
    assert!(MetaChannel::new().try_take().is_none());
}

#[test]
fn a_taken_value_does_not_come_back() {
    let mut channel = FrameChannel::new();
    channel.publish(ScreencastFrame(vec![9]));
    assert_eq!(channel.try_take().map(|f| f.0), Some(vec![9]));
    assert!(channel.try_take().is_none());
    channel.publish(ScreencastFrame(vec![8]));
    assert_eq!(channel.try_take().map(|f| f.0), Some(vec![8]));
}

#[test]
fn publishing_many_times_never_waits() {
    let mut channel = FrameChannel::new();
    for i in 0..100u8 {
        channel.publish(ScreencastFrame(vec![i]));
    }
    assert_eq!(channel.try_take().map(|f| f.0), Some(vec![99]));
}

#[test]
fn receiving_moves_what_waits_into_the_holder() {
    let mut receiver = ScreencastReceiver::new();
    let mut latest = LatestImage::default();

    receiver.receive_frames(&mut latest);
    assert!(latest.get_latest_rgba().is_none());

    receiver.meta.publish(ScreencastMeta { width: 1, height: 1, format: VideoFormat::Rgba });
    receiver.frames.publish(ScreencastFrame(vec![5, 6, 7, 8]));
    receiver.receive_frames(&mut latest);
    assert!(receiver.meta.try_take().is_none());
    assert!(receiver.frames.try_take().is_none());
    assert_eq!(latest.get_latest_rgba().unwrap().into_raw(), vec![5, 6, 7, 8]);
}

#[test]
fn frames_and_metadata_arrive_apart() {
    let mut receiver = ScreencastReceiver::new();
    let mut latest = LatestImage::default();

    // The frame arrives before its metadata: the default metadata declare no pixels.
    receiver.frames.publish(ScreencastFrame(vec![1, 2, 3, 4, 5, 6, 7, 8]));
    receiver.receive_frames(&mut latest);
    receiver.meta.publish(ScreencastMeta { width: 2, height: 1, format: VideoFormat::Bgra });
    receiver.receive_frames(&mut latest);
    assert_eq!(latest.get_latest_rgba().unwrap().into_raw(), vec![3, 2, 1, 4, 7, 6, 5, 8]);
}
