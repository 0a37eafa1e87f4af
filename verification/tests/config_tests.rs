use cosmic_speech_to_text::config::{ensure_shortcut_registered, sync_hotkey, Config, TranscribeMode};
use cosmic_speech_to_text::deps::{check_missing, format_missing_i18n, required};
use cosmic_speech_to_text::transcribe::{
    auth_header, backend_for, endpoint, local_transcription_result, transcription_from,
    transcription_result, whisper_cpp_args, Backend, Service,
};

fn cfg(key: &str, hotkey: &str) -> Config {
    Config {
        mode: TranscribeMode::Mistral,
        mistral_api_key: key.to_string(),
        openai_api_key: String::new(),
        whisper_cpp_path: String::new(),
        whisper_model_path: String::new(),
        hotkey: hotkey.to_string(),
    }
}

#[test]
fn default_config() {
    let c = Config::default();
    assert_eq!(c.mode, TranscribeMode::Mistral);
    assert_eq!(c.mistral_api_key, "");
    assert_eq!(c.openai_api_key, "");
    assert_eq!(c.whisper_cpp_path, "");
    assert_eq!(c.whisper_model_path, "");
    assert_eq!(c.hotkey, "Click panel icon");
    assert!(!c.is_configured());
    assert!(cfg("k", "x").is_configured());
}

#[test]
fn configured_per_mode() {
    let mut c = cfg("k", "x");
    assert_eq!(c.active_api_key(), "k");
    c.mode = TranscribeMode::OpenAI;
    assert!(!c.is_configured());
    assert_eq!(c.active_api_key(), "");
    c.openai_api_key = "o".to_string();
    assert!(c.is_configured());
    assert_eq!(c.active_api_key(), "o");
    c.mode = TranscribeMode::LocalWhisper;
    assert!(!c.is_configured());
    assert_eq!(c.active_api_key(), "");
    c.whisper_cpp_path = "/m/whisper-cpp".to_string();
    assert!(!c.is_configured());
    c.whisper_model_path = "/m/ggml-base.bin".to_string();
    assert!(c.is_configured());
    for i in 0..3 {
        assert_eq!(TranscribeMode::from_index(i).index(), i);
    }
    assert_eq!(TranscribeMode::from_index(7), TranscribeMode::Mistral);
}

#[test]
fn backends() {
    let mut c = cfg("k", "x");
    assert!(matches!(backend_for(&c), Backend::Online { service: Service::Mistral, api_key } if api_key == "k"));
    c.mode = TranscribeMode::OpenAI;
    c.openai_api_key = "o".to_string();
    assert!(matches!(backend_for(&c), Backend::Online { service: Service::OpenAI, api_key } if api_key == "o"));
    c.mode = TranscribeMode::LocalWhisper;
    c.whisper_cpp_path = "/m/w".to_string();
    c.whisper_model_path = "/m/b".to_string();
    assert!(matches!(backend_for(&c), Backend::Local { program, model } if program == "/m/w" && model == "/m/b"));
    assert_eq!(endpoint(Service::Mistral), ("https://api.mistral.ai/v1/audio/transcriptions", "voxtral-mini-2507"));
    assert_eq!(endpoint(Service::OpenAI), ("https://api.openai.com/v1/audio/transcriptions", "whisper-1"));
    assert_eq!(auth_header(Service::Mistral, "k"), ("x-api-key".to_string(), "k".to_string()));
    assert_eq!(auth_header(Service::OpenAI, "k"), ("Authorization".to_string(), "Bearer k".to_string()));
    assert_eq!(whisper_cpp_args("/m/b", "/t/a.wav"), vec!["-m", "/m/b", "-f", "/t/a.wav", "-nt"]);
    assert_eq!(local_transcription_result(Ok((true, " hello\n".to_string()))), Ok("hello".to_string()));
    assert_eq!(local_transcription_result(Ok((false, "x".to_string()))), Err("whisper.cpp failed".to_string()));
    assert_eq!(
        local_transcription_result(Err("no such file".to_string())),
        Err("Failed to run whisper.cpp: no such file".to_string())
    );
}

#[test]
fn registers_configured_hotkey_or_ctrl_y() {
    assert_eq!(ensure_shortcut_registered(&None, &cfg("", "Alt+R")), Some("Alt+R".to_string()));
    assert_eq!(ensure_shortcut_registered(&None, &cfg("", "Click panel icon")), Some("Ctrl+Y".to_string()));
    assert_eq!(ensure_shortcut_registered(&Some("Ctrl+Y".to_string()), &cfg("", "Alt+R")), None);
}

#[test]
fn hotkey_follows_registered_shortcut() {
    let mut c = cfg("k", "Click panel icon");
    assert!(sync_hotkey(&mut c, &Some("Ctrl+Y".to_string())));
    assert_eq!(c.hotkey, "Ctrl+Y");
    assert_eq!(c.mistral_api_key, "k");
    assert!(!sync_hotkey(&mut c, &Some("Ctrl+Y".to_string())));
    assert!(!sync_hotkey(&mut c, &None));
    assert_eq!(c.hotkey, "Ctrl+Y");
}

#[test]
fn missing_programs() {
    let req = required();
    assert_eq!(req, vec![("wl-copy", "wl-clipboard"), ("wtype", "wtype"), ("ffmpeg", "ffmpeg")]);
    assert_eq!(check_missing(&[true, true, true]), vec![]);
    assert_eq!(check_missing(&[false, true, false]), vec![("wl-copy", "wl-clipboard"), ("ffmpeg", "ffmpeg")]);
}

#[test]
fn missing_summary_joins_commands_and_packages() {
    let t = format_missing_i18n(&[("wl-copy", "wl-clipboard"), ("ffmpeg", "ffmpeg")]);
    assert_eq!(t.commands, "wl-copy, ffmpeg");
    assert_eq!(t.packages, "wl-clipboard ffmpeg");
    let e = format_missing_i18n(&[]);
    assert_eq!(e.commands, "");
    assert_eq!(e.packages, "");
}

#[test]
fn transcription_text_member() {
    assert_eq!(transcription_result(Service::Mistral, true, "{\"text\": \"hello world\", \"model\": \"m\"}"), Ok("hello world".to_string()));
    assert_eq!(transcription_result(Service::Mistral, true, "{\"other\": 1}"), Ok(String::new()));
    assert_eq!(transcription_result(Service::Mistral, true, "{\"text\": 5}"), Ok(String::new()));
    assert_eq!(
        transcription_result(Service::OpenAI, true, "not json"),
        Err("Failed to parse response: error decoding response body".to_string())
    );
    assert_eq!(transcription_result(Service::Mistral, false, "quota exceeded"), Err("Mistral API error: quota exceeded".to_string()));
}

#[test]
fn transcription_from_parsed_reply() {
    assert_eq!(transcription_from(Service::Mistral, true, "b", Some(Some("t".to_string()))), Ok("t".to_string()));
    assert_eq!(transcription_from(Service::Mistral, true, "b", Some(None)), Ok(String::new()));
    assert_eq!(
        transcription_from(Service::Mistral, true, "b", None),
        Err("Failed to parse response: error decoding response body".to_string())
    );
    assert_eq!(transcription_from(Service::Mistral, false, "b", Some(None)), Err("Mistral API error: b".to_string()));
    assert_eq!(
        transcription_from(Service::OpenAI, false, "b", Some(None)),
        Err("OpenAI API error: b".to_string())
    );
}
