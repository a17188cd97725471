use rve::audio::pcm_samples;
use rve::frames::FrameIterator;
use rve::update::SeekPoint;

#[test]
fn new_decoder_starts_at_the_beginning() {
    let it = FrameIterator::new("clip.mp4".to_string(), 4, 2);
    assert_eq!(it.render_size(), (4, 2));
    assert_eq!(it.frame_len(), 24);
    assert_eq!(it.num_frames_rendered, 0);
    assert_eq!(it.last_seek, SeekPoint::Micros(0));
    assert_eq!(it.video_path, "clip.mp4");
}

#[test]
fn take_frame_counts_and_checks_size() {
    let mut it = FrameIterator::new("clip.mp4".to_string(), 2, 1);
    let f = it.take_frame(vec![1, 2, 3, 4, 5, 6]).unwrap();
    assert_eq!((f.width(), f.height()), (2, 1));
    assert_eq!(f.as_raw(), &vec![1, 2, 3, 4, 5, 6]);
    assert_eq!(it.num_frames_rendered, 1);
    assert!(it.take_frame(vec![0; 5]).is_none());
    assert_eq!(it.num_frames_rendered, 1);
}

#[test]
fn restart_and_resize() {
    let mut it = FrameIterator::new("clip.mp4".to_string(), 2, 2);
    let _ = it.take_frame(vec![0; 12]);
    it.restarted(SeekPoint::Frame(42));
    assert_eq!(it.num_frames_rendered, 0);
    assert_eq!(it.last_seek, SeekPoint::Frame(42));
    it.resize(8, 6);
    assert_eq!(it.render_size(), (8, 6));
    assert_eq!(it.frame_len(), 144);
    assert_eq!(it.last_seek, SeekPoint::Frame(42));
}

#[test]
fn fps_sampled_every_ten_frames() {
    let mut it = FrameIterator::new("clip.mp4".to_string(), 1, 1);
    assert!(!it.fps_sample_due());
    for n in 1..=20u32 {
        let _ = it.take_frame(vec![0; 3]);
        assert_eq!(it.fps_sample_due(), n % 10 == 0);
    }
}

#[test]
fn pcm_samples_are_little_endian_pairs() {
    assert_eq!(pcm_samples(&[0x01, 0x02, 0xff, 0xff, 0x00, 0x80, 0x7f]), vec![0x0201, -1, i16::MIN]);
    assert!(pcm_samples(&[5]).is_empty());
}
