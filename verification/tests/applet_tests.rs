use cosmic_speech_to_text::audio::Recorder;
use cosmic_speech_to_text::applet::{
    idle_status, is_preview_ok, preview, AppModel, AppState, Command, Message, Status,
};
use cosmic_speech_to_text::config::{Config, TranscribeMode};
use cosmic_speech_to_text::settings::{
    check_shortcut_status, DownloadStatus, Message as SettingsMessage, SettingsCommand, SettingsModel,
    ShortcutStatus,
};

fn cfg(key: &str, hotkey: &str) -> Config {
    Config {
        mode: TranscribeMode::Mistral,
        mistral_api_key: key.to_string(),
        openai_api_key: String::new(),
        whisper_cpp_path: String::new(),
        whisper_model_path: String::new(),
        hotkey: hotkey.to_string(),
    }
}

const SHORTCUTS: &str = "{\n    (\n        modifiers: [\n            Super,\n        ],\n        key: \"t\",\n        description: Some(\"Terminal\"),\n    ): Spawn(\"cosmic-term\"),\n    (\n        modifiers: [\n            Ctrl,\n        ],\n        key: \"y\",\n        description: Some(\"Speech to Text\"),\n    ): Spawn(\"cosmic-speech-to-text --toggle\"),\n}";

#[test]
fn idle_status_priorities() {
    assert!(matches!(idle_status(&[], &cfg("k", "")), Status::Ready));
    assert!(matches!(idle_status(&[], &cfg("", "")), Status::NotConfigured));
    match idle_status(&[("wtype", "wtype")], &cfg("k", "")) {
        Status::MissingDeps(c, p) => {
            assert_eq!(c, "wtype");
            assert_eq!(p, "wtype");
        }
        _ => panic!("expected missing deps"),
    }
}

#[test]
fn record_cycle() {
    let mut m = AppModel::new(cfg("key", "Ctrl+Y"), vec![]);
    assert!(matches!(m.update(Message::ToggleRecording), Command::PrepareRecording));
    assert_eq!(m.state, AppState::Idle);
    let c = m.update(Message::RecordingChecked { config: cfg("key", "Ctrl+Y"), missing: vec![] });
    assert!(matches!(c, Command::StartRecording));
    assert_eq!(m.state, AppState::Recording);
    assert!(matches!(m.status, Status::Recording));
    match m.update(Message::CheckToggle(true)) {
        Command::StopAndTranscribe(c) => assert_eq!(c.mistral_api_key, "key"),
        _ => panic!("expected transcription"),
    }
    assert_eq!(m.state, AppState::Processing);
    assert!(matches!(m.update(Message::ToggleRecording), Command::Nothing));
    assert_eq!(m.state, AppState::Processing);
    match m.update(Message::TranscriptionDone(Ok("hello".to_string()))) {
        Command::Paste(t, close) => {
            assert_eq!(t, "hello");
            assert_eq!(close, None);
        }
        _ => panic!("expected paste"),
    }
    assert_eq!(m.state, AppState::Idle);
    match &m.status {
        Status::Done(p) => assert_eq!(p, "hello"),
        _ => panic!("expected done"),
    }
}

#[test]
fn recording_refused_without_key_or_programs() {
    let mut m = AppModel::new(cfg("", "x"), vec![]);
    assert!(matches!(m.update(Message::RecordingChecked { config: cfg("", "x"), missing: vec![] }), Command::Nothing));
    assert!(matches!(m.status, Status::SetApiKey));
    assert_eq!(m.state, AppState::Idle);
    let c = m.update(Message::RecordingChecked { config: cfg("k", "x"), missing: vec![("ffmpeg", "ffmpeg")] });
    assert!(matches!(c, Command::Nothing));
    assert!(matches!(m.status, Status::MissingDeps(_, _)));
    assert_eq!(m.missing_deps, vec![("ffmpeg", "ffmpeg")]);
}

#[test]
fn transcription_error_returns_to_idle() {
    let mut m = AppModel::new(cfg("k", "x"), vec![]);
    m.state = AppState::Processing;
    assert!(matches!(m.update(Message::TranscriptionDone(Err("boom".to_string()))), Command::Nothing));
    assert_eq!(m.state, AppState::Idle);
    match &m.status {
        Status::Error(e) => assert_eq!(e, "boom"),
        _ => panic!("expected error"),
    }
}

#[test]
fn popup_toggles() {
    let mut m = AppModel::new(cfg("k", "x"), vec![]);
    assert!(matches!(m.update(Message::TogglePopup), Command::PreparePopup));
    let c = m.update(Message::PopupReady { config: cfg("", "x"), missing: vec![], id: 7 });
    assert!(matches!(c, Command::GetPopup(7)));
    assert_eq!(m.popup, Some(7));
    assert!(matches!(m.status, Status::NotConfigured));
    assert!(matches!(m.update(Message::TogglePopup), Command::DestroyPopup(7)));
    assert_eq!(m.popup, None);
    m.popup = Some(3);
    m.update(Message::PopupClosed(4));
    assert_eq!(m.popup, Some(3));
    m.update(Message::PopupClosed(3));
    assert_eq!(m.popup, None);
    m.popup = Some(5);
    assert!(matches!(m.update(Message::OpenSettings), Command::OpenSettings(Some(5))));
    assert_eq!(m.popup, None);
    assert!(matches!(m.update(Message::CheckToggle(false)), Command::Nothing));
}

#[test]
fn preview_takes_30_bytes() {
    let long = "abcdefghijklmnopqrstuvwxyz0123456789";
    assert!(is_preview_ok(long));
    assert_eq!(preview(long), "abcdefghijklmnopqrstuvwxyz0123");
    assert_eq!(preview("short"), "short");
    let s = "aaaaaaaaaaaaaaaaaaaaaaaaaaaaa\u{e9}";
    assert!(!is_preview_ok(s));
}

#[test]
fn shortcut_status_cases() {
    match check_shortcut_status(SHORTCUTS, "ctrl+y") {
        ShortcutStatus::Active(s) => assert_eq!(s, "Ctrl+Y"),
        _ => panic!("expected active"),
    }
    assert!(matches!(check_shortcut_status(SHORTCUTS, "Y"), ShortcutStatus::InvalidFormat));
    match check_shortcut_status(SHORTCUTS, "Super+T") {
        ShortcutStatus::Conflict(s) => assert_eq!(s, "Terminal"),
        _ => panic!("expected conflict"),
    }
    assert!(matches!(check_shortcut_status(SHORTCUTS, "Alt+R"), ShortcutStatus::NotRegistered));
}

#[test]
fn settings_flow() {
    let mut s = SettingsModel::new(cfg("k", "Ctrl+Y"), SHORTCUTS, vec![]);
    assert_eq!(s.selected_model, 1);
    match &s.shortcut_status {
        ShortcutStatus::Active(h) => assert_eq!(h, "Ctrl+Y"),
        _ => panic!("expected active"),
    }
    let mut c2 = cfg("k", "Alt+R");
    c2.whisper_model_path = "/m/ggml-small.bin".to_string();
    c2.whisper_cpp_path = "/m/whisper-cpp".to_string();
    c2.openai_api_key = "o".to_string();
    let s2 = SettingsModel::new(c2, SHORTCUTS, vec![]);
    assert_eq!(s2.selected_model, 2);
    assert_eq!(s2.whisper_cpp_input, "/m/whisper-cpp");
    assert_eq!(s2.openai_key_input, "o");
    assert!(matches!(s2.shortcut_status, ShortcutStatus::NotRegistered));
    assert_eq!(s.mistral_key_input, "k");
    s.update(SettingsMessage::MistralKeyChanged("new".to_string()));
    s.update(SettingsMessage::HotkeyChanged { hotkey: "Super+T".to_string(), shortcuts: SHORTCUTS.to_string() });
    assert!(matches!(s.shortcut_status, ShortcutStatus::Conflict(_)));
    s.update(SettingsMessage::PasteApiKey(Some("  pasted \n".to_string())));
    assert_eq!(s.mistral_key_input, "pasted");
    s.update(SettingsMessage::ModeChanged(1));
    assert_eq!(s.config.mode, TranscribeMode::OpenAI);
    s.update(SettingsMessage::PasteApiKey(Some(" sk-1 ".to_string())));
    assert_eq!(s.openai_key_input, "sk-1");
    assert_eq!(s.mistral_key_input, "pasted");
    s.update(SettingsMessage::WhisperCppChanged("/opt/whisper".to_string()));
    match s.update(SettingsMessage::Save) {
        SettingsCommand::SaveAndRegister(c) => {
            assert_eq!(c.mode, TranscribeMode::OpenAI);
            assert_eq!(c.mistral_api_key, "pasted");
            assert_eq!(c.openai_api_key, "sk-1");
            assert_eq!(c.whisper_cpp_path, "/opt/whisper");
            assert_eq!(c.hotkey, "Super+T");
        }
        _ => panic!("expected save"),
    }
    s.update(SettingsMessage::SaveDone(Ok(())));
    assert!(s.saved);
    match &s.shortcut_status {
        ShortcutStatus::Active(h) => assert_eq!(h, "Super+T"),
        _ => panic!("expected active"),
    }
    s.update(SettingsMessage::SaveDone(Err("disk full".to_string())));
    assert!(matches!(&s.shortcut_status, ShortcutStatus::Error(e) if e == "disk full"));
    assert!(matches!(s.update(SettingsMessage::DownloadModel), SettingsCommand::Download(1)));
    assert!(s.downloading);
    s.update(SettingsMessage::DownloadDone(Ok("/m/ggml-base.bin".to_string())));
    assert!(!s.downloading);
    assert_eq!(s.config.whisper_model_path, "/m/ggml-base.bin");
    assert!(matches!(s.download_status, DownloadStatus::Downloaded));
    s.update(SettingsMessage::InstallWhisperCppDone(Ok("/m/whisper-cpp".to_string())));
    assert_eq!(s.whisper_cpp_input, "/m/whisper-cpp");
    assert_eq!(s.config.whisper_cpp_path, "/m/whisper-cpp");
    s.update(SettingsMessage::WhisperModelSelected { index: 3, downloaded_path: None });
    assert_eq!(s.selected_model, 3);
    assert!(!s.saved);
    assert!(matches!(s.update(SettingsMessage::Close), SettingsCommand::Exit));
}

#[test]
fn recorder_follows_applet_state() {
    let mut m = AppModel::new(cfg("key", "Ctrl+Y"), vec![]);
    let mut r = Recorder::new();
    let msgs = vec![
        Message::ToggleRecording,
        Message::RecordingChecked { config: cfg("key", "Ctrl+Y"), missing: vec![] },
        Message::CheckToggle(false),
        Message::ToggleRecording,
        Message::ToggleRecording,
        Message::TranscriptionDone(Ok("hi".to_string())),
        Message::CheckToggle(true),
        Message::RecordingChecked { config: cfg("key", "Ctrl+Y"), missing: vec![] },
        Message::CheckToggle(true),
        Message::TranscriptionDone(Err("e".to_string())),
    ];
    assert_eq!(r.is_recording(), m.state == AppState::Recording);
    for msg in msgs {
        match m.update(msg) {
            Command::StartRecording => {
                r.start_recording();
            }
            Command::StopAndTranscribe(_) => {
                r.stop_recording();
            }
            _ => {}
        }
        assert_eq!(r.is_recording(), m.state == AppState::Recording);
    }
}

#[test]
fn settings_buttons_disabled_while_busy() {
    let mut s = SettingsModel::new(cfg("k", "Ctrl+Y"), SHORTCUTS, vec![]);
    assert!(s.buttons_enabled());
    s.update(SettingsMessage::DownloadModel);
    assert!(!s.buttons_enabled());
    s.update(SettingsMessage::DownloadDone(Err("x".to_string())));
    assert!(s.buttons_enabled());
    s.update(SettingsMessage::InstallWhisperCpp);
    assert!(!s.buttons_enabled());
}
