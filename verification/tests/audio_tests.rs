use cosmic_speech_to_text::audio::{
    capture_file_name, conversion_result, ffmpeg_args, new_capture_file_name, recorded_audio,
    Recorder,
};

#[test]
fn recorder_starts_and_stops_once() {
    let mut r = Recorder::new();
    assert!(!r.is_recording());
    assert!(r.start_recording());
    assert!(r.is_recording());
    assert!(!r.start_recording());
    assert!(r.is_recording());
    assert!(r.stop_recording());
    assert!(!r.is_recording());
    assert!(!r.stop_recording());
}

#[test]
fn recorder_hands_out_the_capture_once() {
    let mut r = Recorder::new();
    assert_eq!(r.take_audio_file(), None);
    r.start_recording();
    r.finish_capture("/tmp/a.wav".to_string());
    assert!(r.is_recording());
    assert!(r.stop_recording());
    assert_eq!(r.take_audio_file(), Some("/tmp/a.wav".to_string()));
    assert_eq!(r.take_audio_file(), None);
}

#[test]
fn capture_names() {
    assert_eq!(capture_file_name("abc"), "cosmic_stt_abc.wav");
    let a = new_capture_file_name();
    let b = new_capture_file_name();
    assert_ne!(a, b);
    assert!(a.starts_with("cosmic_stt_"));
    assert!(a.ends_with(".wav"));
    assert_eq!(a.len(), "cosmic_stt_".len() + 36 + ".wav".len());
    let id = &a["cosmic_stt_".len()..a.len() - 4];
    for (i, c) in id.chars().enumerate() {
        if i == 8 || i == 13 || i == 18 || i == 23 {
            assert_eq!(c, '-');
        } else {
            assert!(c.is_ascii_hexdigit() && !c.is_ascii_uppercase());
        }
    }
}

#[test]
fn ffmpeg_arguments() {
    assert_eq!(
        ffmpeg_args("/tmp/x.wav", "/tmp/x.mp3"),
        vec!["-y", "-i", "/tmp/x.wav", "-b:a", "64k", "/tmp/x.mp3"]
    );
}

#[test]
fn conversion_outcomes() {
    assert_eq!(
        conversion_result(Err("not found".to_string()), "/tmp/x.mp3".to_string()),
        Err("Failed to run ffmpeg: not found".to_string())
    );
    assert_eq!(
        conversion_result(Ok(false), "/tmp/x.mp3".to_string()),
        Err("ffmpeg conversion failed".to_string())
    );
    assert_eq!(
        conversion_result(Ok(true), "/tmp/x.mp3".to_string()),
        Ok("/tmp/x.mp3".to_string())
    );
}

#[test]
fn recorded_audio_needs_a_file() {
    assert_eq!(recorded_audio(None), Err("No audio file recorded".to_string()));
    assert_eq!(recorded_audio(Some("/tmp/a.wav".to_string())), Ok("/tmp/a.wav".to_string()));
}
