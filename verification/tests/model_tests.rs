use cosmic_speech_to_text::whisper_models::{
    check_build_step, check_download, choose_built_binary, download_target, fetch_step, next_build_step,
    find_model_index, is_downloaded, is_whisper_cpp_installed, join_path, model_labels,
    model_path, models, models_dir, whisper_cpp_bin_path, BuildStep,
};

#[test]
fn models_table() {
    let ms = models();
    assert_eq!(ms.len(), 5);
    assert_eq!(ms[0].label, "Tiny");
    assert_eq!(ms[1].filename, "ggml-base.bin");
    assert_eq!(ms[4].size, "~2.9 GB");
    assert_eq!(
        ms[3].url,
        "https://huggingface.co/ggerganov/whisper.cpp/resolve/main/ggml-medium.bin"
    );
}

#[test]
fn find_model_index_by_file_name() {
    assert_eq!(find_model_index("/home/u/.local/share/x/models/ggml-small.bin"), Some(2));
    assert_eq!(find_model_index("ggml-large-v3.bin"), Some(4));
    assert_eq!(find_model_index(""), None);
    assert_eq!(find_model_index("/tmp/other.bin"), None);
}

#[test]
fn labels_mark_downloaded_models() {
    let labels = model_labels(&[false, true, false, false, true]);
    assert_eq!(labels[0], "Tiny (~75 MB)");
    assert_eq!(labels[1], "Base (~142 MB) \u{2713}");
    assert_eq!(labels[4], "Large v3 (~2.9 GB) \u{2713}");
}

#[test]
fn paths_are_joined_like_path_join() {
    assert_eq!(join_path("/data", "models"), "/data/models");
    assert_eq!(join_path("/data/", "models"), "/data/models");
    assert_eq!(join_path("", "models"), "models");
    assert_eq!(models_dir("/home/u/.local/share/cosmic-speech-to-text"), "/home/u/.local/share/cosmic-speech-to-text/models");
    let ms = models();
    assert_eq!(model_path("/m", &ms[0]), "/m/ggml-tiny.bin");
    assert_eq!(whisper_cpp_bin_path("/m"), "/m/whisper-cpp");
    let p = std::path::PathBuf::from("/m").join("whisper-cpp");
    assert_eq!(p.to_string_lossy(), whisper_cpp_bin_path("/m"));
}

#[test]
fn downloaded_means_more_than_1000_bytes() {
    assert!(!is_downloaded(None));
    assert!(!is_downloaded(Some(1000)));
    assert!(is_downloaded(Some(1001)));
    assert!(is_whisper_cpp_installed(Some(5000)));
    assert!(!is_whisper_cpp_installed(Some(0)));
}

#[test]
fn download_target_checks_index() {
    let (dest, url) = download_target("/m", 1).unwrap();
    assert_eq!(dest, "/m/ggml-base.bin");
    assert!(url.ends_with("ggml-base.bin"));
    assert_eq!(download_target("/m", 5).unwrap_err(), "Invalid model index");
}

#[test]
fn download_outcomes() {
    assert_eq!(check_download(Ok(true), Some(20_000)), Ok(()));
    assert_eq!(check_download(Ok(true), Some(10_000)), Ok(()));
    assert_eq!(
        check_download(Ok(true), Some(9_999)),
        Err("Downloaded file too small \u{2014} check URL".to_string())
    );
    assert_eq!(
        check_download(Ok(true), None),
        Err("Downloaded file too small \u{2014} check URL".to_string())
    );
    assert_eq!(check_download(Ok(false), Some(20_000)), Err("Download failed".to_string()));
    assert_eq!(
        check_download(Err("not found".to_string()), None),
        Err("Failed to run curl: not found".to_string())
    );
}

#[test]
fn build_steps() {
    assert!(matches!(fetch_step(true), BuildStep::Pull));
    assert!(matches!(fetch_step(false), BuildStep::Clone));
    assert_eq!(check_build_step(BuildStep::Pull, Ok(false)), Ok(()));
    assert_eq!(check_build_step(BuildStep::Clone, Ok(false)), Err("git clone failed".to_string()));
    assert_eq!(check_build_step(BuildStep::Configure, Ok(false)), Err("cmake configure failed".to_string()));
    assert_eq!(check_build_step(BuildStep::Build, Ok(false)), Err("cmake build failed".to_string()));
    assert_eq!(check_build_step(BuildStep::Build, Ok(true)), Ok(()));
    assert_eq!(
        check_build_step(BuildStep::Pull, Err("no git".to_string())),
        Err("git pull failed: no git".to_string())
    );
    assert_eq!(
        check_build_step(BuildStep::Configure, Err("x".to_string())),
        Err("cmake failed: x".to_string())
    );
    assert_eq!(choose_built_binary(true, true), Ok(false));
    assert_eq!(choose_built_binary(false, true), Ok(true));
    assert_eq!(
        choose_built_binary(false, false),
        Err("Could not find built whisper binary".to_string())
    );
}

#[test]
fn model_path_selects_its_model() {
    let dir = models_dir("/home/u/.local/share/cosmic-speech-to-text");
    for (i, m) in models().iter().enumerate() {
        assert_eq!(find_model_index(&model_path(&dir, m)), Some(i));
        assert_eq!(find_model_index(&model_path("", m)), Some(i));
        assert_eq!(find_model_index(&model_path("/m/", m)), Some(i));
    }
}

#[test]
fn build_steps_in_order() {
    assert_eq!(next_build_step(None, true), Some(BuildStep::Pull));
    assert_eq!(next_build_step(None, false), Some(BuildStep::Clone));
    assert_eq!(next_build_step(Some(BuildStep::Pull), true), Some(BuildStep::Configure));
    assert_eq!(next_build_step(Some(BuildStep::Clone), false), Some(BuildStep::Configure));
    assert_eq!(next_build_step(Some(BuildStep::Configure), false), Some(BuildStep::Build));
    assert_eq!(next_build_step(Some(BuildStep::Build), false), None);
}

#[test]
fn model_path_selects_its_model_despite_later_names_in_dir() {
    let ms = models();
    let dir = "/data/ggml-large-v3.bin.d";
    assert_eq!(find_model_index(&model_path(dir, &ms[0])), Some(0));
    assert_eq!(find_model_index(&model_path(dir, &ms[4])), Some(4));
}
