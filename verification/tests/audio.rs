use wzp_client::audio_io::{supports_i16, AudioCapture, AudioPlayback, DeviceConfig};
use wzp_client::audio_linux_aec::{halves, take_frames, LinuxAecCapture, LinuxAecPlayback};
use wzp_client::audio_ring::{AudioRing, RING_CAPACITY};
use wzp_client::audio_vpio::{rms, VpioAudio, VpioStats};
use wzp_client::audio_wasapi::WasapiAudioCapture;

#[test]
fn client_ring_is_first_in_first_out() {
    let mut ring = AudioRing::new();
    assert_eq!(ring.write(&[1, 2, 3]), 3);
    assert_eq!(ring.write(&[4]), 1);
    assert_eq!(ring.available(), 4);
    let mut out = [0i16; 3];
    assert_eq!(ring.read(&mut out), 3);
    assert_eq!(out, [1, 2, 3]);
    assert_eq!(ring.read(&mut out), 1);
    assert_eq!(out, [4, 2, 3]);
    assert_eq!(ring.read(&mut out), 0);
    assert_eq!(ring.underrun_count(), 1);
}

#[test]
fn client_ring_keeps_the_newest() {
    let mut ring = AudioRing::new();
    let many: Vec<i16> = (0..RING_CAPACITY as i32 + 100).map(|i| (i % 30000) as i16).collect();
    ring.write(&many[..RING_CAPACITY]);
    ring.write(&many[RING_CAPACITY..]);
    let mut out = vec![0i16; RING_CAPACITY];
    assert_eq!(ring.read(&mut out), RING_CAPACITY);
    assert_eq!(out, many[100..].to_vec());
    assert_eq!(ring.overflow_count(), 1);
}

#[test]
fn capture_and_playback_go_through_the_ring() {
    let mut capture = AudioCapture::started();
    capture.on_samples(&[5, 6, 7]);
    assert_eq!(capture.ring().available(), 3);
    capture.stop();
    capture.on_samples(&[8]);
    assert_eq!(capture.ring().available(), 3);

    let mut playback = AudioPlayback::started();
    let mut data = [9i16; 4];
    playback.fill(&mut data);
    assert_eq!(data, [0; 4]);
    playback.stop();
    assert_eq!(playback.ring().available(), 0);
}

#[test]
fn integer_samples_are_asked_for() {
    assert!(!supports_i16(&[]));
    let good = DeviceConfig { is_i16: true, channels: 1, min_rate: 8_000, max_rate: 48_000 };
    assert!(supports_i16(&[good]));
    let float = DeviceConfig { is_i16: false, channels: 1, min_rate: 8_000, max_rate: 48_000 };
    assert!(!supports_i16(&[float]));
}

#[test]
fn whole_frames_are_taken_off() {
    let mut leftover: Vec<i16> = (0..2000).collect();
    let frames = take_frames(&mut leftover);
    assert_eq!(frames.len(), 2);
    assert_eq!(frames[0], (0..960).collect::<Vec<i16>>());
    assert_eq!(frames[1], (960..1920).collect::<Vec<i16>>());
    assert_eq!(leftover, (1920..2000).collect::<Vec<i16>>());
    let (a, b) = halves(&frames[0]);
    assert_eq!(a, (0..480).collect::<Vec<i16>>());
    assert_eq!(b, (480..960).collect::<Vec<i16>>());
}

#[test]
fn echo_cancellation_works_on_whole_frames() {
    let mut capture = LinuxAecCapture::started();
    assert!(capture.on_samples(&[1i16; 500]).is_empty());
    let frames = capture.on_samples(&[2i16; 500]);
    assert_eq!(frames.len(), 1);
    capture.push_processed(&frames[0]);
    assert_eq!(capture.ring().available(), 960);
    capture.stop();

    let mut playback = LinuxAecPlayback::started();
    let mut data = [1i16; 960];
    let tee = playback.fill_and_tee(&mut data);
    assert_eq!(data, [0i16; 960]);
    assert!(tee.iter().all(|f| f.len() == 960));
    playback.stop();
}

#[test]
fn wasapi_packets_go_to_the_ring() {
    let mut capture = WasapiAudioCapture::started();
    capture.on_packet(&[1, 2, 3]);
    assert_eq!(capture.ring().available(), 3);
    capture.stop();
}

#[test]
fn loudness_is_the_root_of_the_mean_square() {
    assert_eq!(rms(&[]), 0);
    assert_eq!(rms(&[3, 4]), 3);
    assert_eq!(rms(&[100, -100]), 100);
    assert_eq!(rms(&[-32768; 4]), 32768);
}

#[test]
fn vpio_counts_callbacks() {
    let mut stats = VpioStats::default();
    stats.record_capture(480);
    stats.record_render(960, 10, &[1000; 10]);
    stats.record_render(960, 0, &[]);
    let s = stats.snapshot();
    assert_eq!(s.capture_callbacks, 1);
    assert_eq!(s.capture_samples, 480);
    assert_eq!(s.render_callbacks, 2);
    assert_eq!(s.render_requested_samples, 1920);
    assert_eq!(s.render_read_samples, 10);
    assert_eq!(s.render_underrun_callbacks, 1);
    assert_eq!(s.render_nonzero_callbacks, 1);
    assert_eq!(s.render_last_rms, 0);

    let mut audio = VpioAudio::started();
    audio.on_capture(&[7; 20]);
    assert_eq!(audio.capture_ring().available(), 20);
    let mut data = [1i16; 8];
    audio.on_render(&mut data);
    assert_eq!(data, [0; 8]);
    assert_eq!(audio.stats().render_callbacks, 1);
    assert_eq!(audio.playout_ring().available(), 0);
    audio.stop();
}

#[test]
fn converted_samples_go_in_frames() {
    let mut capture = AudioCapture::started();
    let data: Vec<i16> = (0..17000).map(|i| (i % 1000) as i16).collect();
    capture.on_converted(&data);
    assert_eq!(capture.ring().available(), RING_CAPACITY);
    let mut out = vec![0i16; RING_CAPACITY];
    assert_eq!(capture.ring.read(&mut out), RING_CAPACITY);
    assert_eq!(out, data[17000 - RING_CAPACITY..]);
    assert_eq!(capture.ring().overflow_count(), 1);
    capture.stop();
    capture.on_converted(&data);
    assert_eq!(capture.ring().available(), 0);
}

#[test]
fn each_empty_frame_is_an_underrun() {
    let mut playback = AudioPlayback::started();
    playback.ring.write(&[5i16; 1000]);
    let mut data = vec![7i16; 960 * 3 + 1];
    playback.fill_converted(&mut data);
    assert!(data[..1000].iter().all(|s| *s == 5));
    assert!(data[1000..].iter().all(|s| *s == 0));
    assert_eq!(playback.ring().underrun_count(), 2);
    playback.fill_converted(&mut []);
    assert_eq!(playback.ring().underrun_count(), 2);
    playback.fill(&mut []);
    assert_eq!(playback.ring().underrun_count(), 3);
}
