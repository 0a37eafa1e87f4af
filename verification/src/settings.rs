//! The settings window as a state machine: the inputs being edited,
//! the model download and whisper.cpp build in progress, and the state of
//! the shortcut for the hotkey being typed.
use vstd::prelude::*;
use crate::config::{spec_mode_from_index, Config, ConfigView, TranscribeMode};
use crate::deps::{deps_view, Dep};
use crate::shortcut::{
    check_conflict, find_our_shortcut, hotkey_parts, spec_check_conflict, spec_find_our_shortcut,
};
use crate::text::{
    has_char, lemma_split_char_len,
    chars_eq, chars_of, lowercase, spec_str_to_lowercase, split_exec, string_from_chars, trim,
    trim_exec,
};
use crate::whisper_models::{contains, spec_models};

verus! {

/// The state of the shortcut for the hotkey in the input field.
pub enum ShortcutStatus {
    /// Our shortcut is registered with this display form.
    Active(String),
    /// Another shortcut, named by this text, uses the hotkey.
    Conflict(String),
    /// Saving will register the hotkey.
    NotRegistered,
    /// The hotkey has no modifier; shown through the localized
    /// invalid-hotkey message with `Ctrl+Y` as the example.
    InvalidFormat,
    /// Registering failed with this error.
    Error(String),
}

/// The abstract value of a shortcut status.
pub enum ShortcutStatusView {
    Active(Seq<char>),
    Conflict(Seq<char>),
    NotRegistered,
    InvalidFormat,
    Error(Seq<char>),
}

impl View for ShortcutStatus {
    type V = ShortcutStatusView;

    open spec fn view(&self) -> ShortcutStatusView {
        match self {
            ShortcutStatus::Active(s) => ShortcutStatusView::Active(s@),
            ShortcutStatus::Conflict(s) => ShortcutStatusView::Conflict(s@),
            ShortcutStatus::NotRegistered => ShortcutStatusView::NotRegistered,
            ShortcutStatus::InvalidFormat => ShortcutStatusView::InvalidFormat,
            ShortcutStatus::Error(e) => ShortcutStatusView::Error(e@),
        }
    }
}

/// The state of the shortcut for `hotkey` given the shortcut file
/// `content`: active when our registered shortcut shows as `hotkey`
/// (ignoring case), else invalid without a modifier, else in conflict
/// with another shortcut, else not yet registered.
pub open spec fn spec_shortcut_status(content: Seq<char>, hotkey: Seq<char>) -> ShortcutStatusView {
    let current = spec_find_our_shortcut(content);
    if current is Some && spec_str_to_lowercase(current->0) == spec_str_to_lowercase(hotkey) {
        ShortcutStatusView::Active(current->0)
    } else if hotkey_parts(hotkey).len() < 2 {
        ShortcutStatusView::InvalidFormat
    } else {
        match spec_check_conflict(content, hotkey) {
            Some(c) => ShortcutStatusView::Conflict(c),
            None => ShortcutStatusView::NotRegistered,
        }
    }
}

/// The state of the shortcut for `hotkey`, given the text of the
/// shortcut file.
pub fn check_shortcut_status(content: &str, hotkey: &str) -> (r: ShortcutStatus)
    ensures
        r@ == spec_shortcut_status(content@, hotkey@),
{
    let current = find_our_shortcut(content);
    let hc = chars_of(hotkey);
    match current {
        Some(cur) => {
            let cc = chars_of(cur.as_str());
            let cl = lowercase(cc.as_slice());
            let hl = lowercase(hc.as_slice());
            if chars_eq(cl.as_slice(), hl.as_slice()) {
                return ShortcutStatus::Active(cur);
            }
        },
        None => {},
    }
    let plus = vec!['+'];
    assert(plus@ =~= seq!['+']);
    let parts = split_exec(hc.as_slice(), plus.as_slice());
    assert(hotkey_parts(hotkey@).len() == parts@.len());
    if parts.len() < 2 {
        return ShortcutStatus::InvalidFormat;
    }
    match check_conflict(content, hotkey) {
        Some(c) => ShortcutStatus::Conflict(c),
        None => ShortcutStatus::NotRegistered,
    }
}

/// The line under the model controls.
pub enum DownloadStatus {
    Empty,
    Downloading,
    Downloaded,
    InstallingCpp,
    CppInstalled,
    Failed(String),
}

/// The abstract value of the line under the model controls.
pub enum DownloadStatusView {
    Empty,
    Downloading,
    Downloaded,
    InstallingCpp,
    CppInstalled,
    Failed(Seq<char>),
}

impl View for DownloadStatus {
    type V = DownloadStatusView;

    open spec fn view(&self) -> DownloadStatusView {
        match self {
            DownloadStatus::Empty => DownloadStatusView::Empty,
            DownloadStatus::Downloading => DownloadStatusView::Downloading,
            DownloadStatus::Downloaded => DownloadStatusView::Downloaded,
            DownloadStatus::InstallingCpp => DownloadStatusView::InstallingCpp,
            DownloadStatus::CppInstalled => DownloadStatusView::CppInstalled,
            DownloadStatus::Failed(e) => DownloadStatusView::Failed(e@),
        }
    }
}

/// The settings window's state. The inputs hold what is being typed; the
/// configuration takes them on saving. The mode and the model path are
/// set in the configuration directly.
pub struct SettingsModel {
    pub config: Config,
    pub mistral_key_input: String,
    pub openai_key_input: String,
    pub whisper_cpp_input: String,
    pub hotkey_input: String,
    pub selected_model: usize,
    pub saved: bool,
    pub downloading: bool,
    pub installing_cpp: bool,
    pub download_status: DownloadStatus,
    pub shortcut_status: ShortcutStatus,
    pub missing_deps: Vec<Dep>,
}

/// The abstract value of the settings window's state.
pub struct SettingsView {
    pub config: ConfigView,
    pub mistral_key_input: Seq<char>,
    pub openai_key_input: Seq<char>,
    pub whisper_cpp_input: Seq<char>,
    pub hotkey_input: Seq<char>,
    pub selected_model: usize,
    pub saved: bool,
    pub downloading: bool,
    pub installing_cpp: bool,
    pub download_status: DownloadStatusView,
    pub shortcut_status: ShortcutStatusView,
    pub missing: Seq<(Seq<char>, Seq<char>)>,
}

impl View for SettingsModel {
    type V = SettingsView;

    open spec fn view(&self) -> SettingsView {
        SettingsView {
            config: self.config@,
            mistral_key_input: self.mistral_key_input@,
            openai_key_input: self.openai_key_input@,
            whisper_cpp_input: self.whisper_cpp_input@,
            hotkey_input: self.hotkey_input@,
            selected_model: self.selected_model,
            saved: self.saved,
            downloading: self.downloading,
            installing_cpp: self.installing_cpp,
            download_status: self.download_status@,
            shortcut_status: self.shortcut_status@,
            missing: deps_view(self.missing_deps@),
        }
    }
}

/// What happens in the settings window.
pub enum Message {
    /// A transcription service was picked by its position in the list.
    ModeChanged(usize),
    MistralKeyChanged(String),
    OpenAIKeyChanged(String),
    WhisperCppChanged(String),
    /// A model was picked; `downloaded_path` is where it is stored, if it
    /// is already downloaded.
    WhisperModelSelected { index: usize, downloaded_path: Option<String> },
    DownloadModel,
    /// The download finished with the model's path or an error.
    DownloadDone(Result<String, String>),
    InstallWhisperCpp,
    /// The build finished with the program's path or an error.
    InstallWhisperCppDone(Result<String, String>),
    /// The hotkey field changed; `shortcuts` is the shortcut file's text.
    HotkeyChanged { hotkey: String, shortcuts: String },
    /// The clipboard's text, if it could be read.
    PasteApiKey(Option<String>),
    Save,
    /// Registering the hotkey finished.
    SaveDone(Result<(), String>),
    Close,
}

/// What the host has to do next.
pub enum SettingsCommand {
    Nothing,
    /// Download the model with this index and answer with `DownloadDone`.
    Download(usize),
    /// Build whisper.cpp and answer with `InstallWhisperCppDone`.
    InstallWhisperCpp,
    /// Save this configuration, then register its hotkey and answer with
    /// `SaveDone`.
    SaveAndRegister(Config),
    /// Close the window.
    Exit,
}

/// The abstract value of a settings command.
pub enum SettingsCommandView {
    Nothing,
    Download(usize),
    InstallWhisperCpp,
    SaveAndRegister(ConfigView),
    Exit,
}

impl View for SettingsCommand {
    type V = SettingsCommandView;

    open spec fn view(&self) -> SettingsCommandView {
        match self {
            SettingsCommand::Nothing => SettingsCommandView::Nothing,
            SettingsCommand::Download(i) => SettingsCommandView::Download(*i),
            SettingsCommand::InstallWhisperCpp => SettingsCommandView::InstallWhisperCpp,
            SettingsCommand::SaveAndRegister(c) => SettingsCommandView::SaveAndRegister(c@),
            SettingsCommand::Exit => SettingsCommandView::Exit,
        }
    }
}

/// The configuration that saving stores: the typed keys, whisper.cpp path
/// and hotkey, with the mode and model path as they are.
pub open spec fn saved_config(m: SettingsView) -> ConfigView {
    ConfigView {
        mistral_api_key: m.mistral_key_input,
        openai_api_key: m.openai_key_input,
        whisper_cpp_path: m.whisper_cpp_input,
        hotkey: m.hotkey_input,
        ..m.config
    }
}

/// The next state of the settings window and the command for the host.
/// Editing a field clears `saved`; a finished download or build records
/// its path (in the configuration) or its error; a pasted key goes to the
/// chosen service's field; saving takes the typed fields into the
/// configuration, and a successful registration marks the hotkey active.
pub open spec fn spec_settings_step(m: SettingsView, msg: Message) -> (
    SettingsView,
    SettingsCommandView,
) {
    match msg {
        Message::ModeChanged(idx) => (
            SettingsView {
                config: ConfigView { mode: spec_mode_from_index(idx), ..m.config },
                saved: false,
                ..m
            },
            SettingsCommandView::Nothing,
        ),
        Message::MistralKeyChanged(k) => (
            SettingsView { mistral_key_input: k@, saved: false, ..m },
            SettingsCommandView::Nothing,
        ),
        Message::OpenAIKeyChanged(k) => (
            SettingsView { openai_key_input: k@, saved: false, ..m },
            SettingsCommandView::Nothing,
        ),
        Message::WhisperCppChanged(p) => (
            SettingsView { whisper_cpp_input: p@, saved: false, ..m },
            SettingsCommandView::Nothing,
        ),
        Message::WhisperModelSelected { index, downloaded_path } => (
            SettingsView {
                selected_model: index,
                config: match downloaded_path {
                    Some(p) => ConfigView { whisper_model_path: p@, ..m.config },
                    None => m.config,
                },
                saved: false,
                ..m
            },
            SettingsCommandView::Nothing,
        ),
        Message::DownloadModel => (
            SettingsView {
                downloading: true,
                download_status: DownloadStatusView::Downloading,
                ..m
            },
            SettingsCommandView::Download(m.selected_model),
        ),
        Message::DownloadDone(r) => match r {
            Ok(p) => (
                SettingsView {
                    downloading: false,
                    config: ConfigView { whisper_model_path: p@, ..m.config },
                    download_status: DownloadStatusView::Downloaded,
                    ..m
                },
                SettingsCommandView::Nothing,
            ),
            Err(e) => (
                SettingsView {
                    downloading: false,
                    download_status: DownloadStatusView::Failed(e@),
                    ..m
                },
                SettingsCommandView::Nothing,
            ),
        },
        Message::InstallWhisperCpp => (
            SettingsView {
                installing_cpp: true,
                download_status: DownloadStatusView::InstallingCpp,
                ..m
            },
            SettingsCommandView::InstallWhisperCpp,
        ),
        Message::InstallWhisperCppDone(r) => match r {
            Ok(p) => (
                SettingsView {
                    installing_cpp: false,
                    whisper_cpp_input: p@,
                    config: ConfigView { whisper_cpp_path: p@, ..m.config },
                    download_status: DownloadStatusView::CppInstalled,
                    ..m
                },
                SettingsCommandView::Nothing,
            ),
            Err(e) => (
                SettingsView {
                    installing_cpp: false,
                    download_status: DownloadStatusView::Failed(e@),
                    ..m
                },
                SettingsCommandView::Nothing,
            ),
        },
        Message::HotkeyChanged { hotkey, shortcuts } => (
            SettingsView {
                hotkey_input: hotkey@,
                saved: false,
                shortcut_status: spec_shortcut_status(shortcuts@, hotkey@),
                ..m
            },
            SettingsCommandView::Nothing,
        ),
        Message::PasteApiKey(t) => match t {
            Some(text) => (
                match m.config.mode {
                    TranscribeMode::Mistral => SettingsView {
                        mistral_key_input: trim(text@),
                        saved: false,
                        ..m
                    },
                    TranscribeMode::OpenAI => SettingsView {
                        openai_key_input: trim(text@),
                        saved: false,
                        ..m
                    },
                    TranscribeMode::LocalWhisper => SettingsView { saved: false, ..m },
                },
                SettingsCommandView::Nothing,
            ),
            None => (m, SettingsCommandView::Nothing),
        },
        Message::Save => (
            SettingsView { config: saved_config(m), ..m },
            SettingsCommandView::SaveAndRegister(saved_config(m)),
        ),
        Message::SaveDone(r) => match r {
            Ok(()) => (
                SettingsView {
                    shortcut_status: ShortcutStatusView::Active(m.config.hotkey),
                    saved: true,
                    ..m
                },
                SettingsCommandView::Nothing,
            ),
            Err(e) => (
                SettingsView { shortcut_status: ShortcutStatusView::Error(e@), ..m },
                SettingsCommandView::Nothing,
            ),
        },
        Message::Close => (m, SettingsCommandView::Exit),
    }
}

impl SettingsModel {
    /// The window when it opens: the inputs hold the configuration, the
    /// shortcut status is that of the configured hotkey in the shortcut
    /// file `shortcuts`, and the selected model is the first one whose file
    /// name occurs in the configured model path (else the second, `Base`).
    pub fn new(config: Config, shortcuts: &str, missing_deps: Vec<Dep>) -> (r: SettingsModel)
        ensures
            r@.config == config@,
            r@.mistral_key_input == config@.mistral_api_key,
            r@.openai_key_input == config@.openai_api_key,
            r@.whisper_cpp_input == config@.whisper_cpp_path,
            r@.hotkey_input == config@.hotkey,
            r@.shortcut_status == spec_shortcut_status(shortcuts@, config@.hotkey),
            r@.missing == deps_view(missing_deps@),
            !r@.saved && !r@.downloading && !r@.installing_cpp,
            r@.download_status is Empty,
            r@.selected_model < spec_models().len(),
            forall|j: int|
                0 <= j < r@.selected_model ==> !contains(
                    config@.whisper_model_path,
                    #[trigger] spec_models()[j].filename,
                ),
            contains(config@.whisper_model_path, spec_models()[r@.selected_model as int].filename)
                || (r@.selected_model == 1 && forall|j: int|
                0 <= j < spec_models().len() ==> !contains(
                    config@.whisper_model_path,
                    #[trigger] spec_models()[j].filename,
                )),
    {
        let selected_model = match crate::whisper_models::find_model_index(
            config.whisper_model_path.as_str(),
        ) {
            Some(i) => i,
            None => 1,
        };
        let shortcut_status = check_shortcut_status(shortcuts, config.hotkey.as_str());
        SettingsModel {
            mistral_key_input: config.mistral_api_key.clone(),
            openai_key_input: config.openai_api_key.clone(),
            whisper_cpp_input: config.whisper_cpp_path.clone(),
            hotkey_input: config.hotkey.clone(),
            selected_model,
            saved: false,
            downloading: false,
            installing_cpp: false,
            download_status: DownloadStatus::Empty,
            shortcut_status,
            missing_deps,
            config,
        }
    }

    /// Whether Save and Close can be pressed: not while a download or a
    /// build is running.
    pub fn buttons_enabled(&self) -> (r: bool)
        ensures
            r == !(self@.downloading || self@.installing_cpp),
    {
        !(self.downloading || self.installing_cpp)
    }

    /// Handles one message and returns what the host has to do.
    pub fn update(&mut self, msg: Message) -> (cmd: SettingsCommand)
        requires
            msg matches Message::WhisperModelSelected { index, .. } ==> index < spec_models().len(),
        ensures
            (final(self)@, cmd@) == spec_settings_step(old(self)@, msg),
    {
        match msg {
            Message::ModeChanged(idx) => {
                self.config.mode = TranscribeMode::from_index(idx);
                self.saved = false;
                SettingsCommand::Nothing
            },
            Message::MistralKeyChanged(k) => {
                self.mistral_key_input = k;
                self.saved = false;
                SettingsCommand::Nothing
            },
            Message::OpenAIKeyChanged(k) => {
                self.openai_key_input = k;
                self.saved = false;
                SettingsCommand::Nothing
            },
            Message::WhisperCppChanged(p) => {
                self.whisper_cpp_input = p;
                self.saved = false;
                SettingsCommand::Nothing
            },
            Message::WhisperModelSelected { index, downloaded_path } => {
                self.selected_model = index;
                match downloaded_path {
                    Some(p) => {
                        self.config.whisper_model_path = p;
                    },
                    None => {},
                }
                self.saved = false;
                SettingsCommand::Nothing
            },
            Message::DownloadModel => {
                self.downloading = true;
                self.download_status = DownloadStatus::Downloading;
                SettingsCommand::Download(self.selected_model)
            },
            Message::DownloadDone(r) => {
                self.downloading = false;
                match r {
                    Ok(p) => {
                        self.config.whisper_model_path = p;
                        self.download_status = DownloadStatus::Downloaded;
                    },
                    Err(e) => {
                        self.download_status = DownloadStatus::Failed(e);
                    },
                }
                SettingsCommand::Nothing
            },
            Message::InstallWhisperCpp => {
                self.installing_cpp = true;
                self.download_status = DownloadStatus::InstallingCpp;
                SettingsCommand::InstallWhisperCpp
            },
            Message::InstallWhisperCppDone(r) => {
                self.installing_cpp = false;
                match r {
                    Ok(p) => {
                        self.whisper_cpp_input = p.clone();
                        self.config.whisper_cpp_path = p;
                        self.download_status = DownloadStatus::CppInstalled;
                    },
                    Err(e) => {
                        self.download_status = DownloadStatus::Failed(e);
                    },
                }
                SettingsCommand::Nothing
            },
            Message::HotkeyChanged { hotkey, shortcuts } => {
                self.shortcut_status = check_shortcut_status(shortcuts.as_str(), hotkey.as_str());
                self.hotkey_input = hotkey;
                self.saved = false;
                SettingsCommand::Nothing
            },
            Message::PasteApiKey(t) => {
                match t {
                    Some(text) => {
                        let cs = chars_of(text.as_str());
                        let trimmed = trim_exec(cs.as_slice());
                        match self.config.mode {
                            TranscribeMode::Mistral => {
                                self.mistral_key_input = string_from_chars(trimmed.as_slice());
                            },
                            TranscribeMode::OpenAI => {
                                self.openai_key_input = string_from_chars(trimmed.as_slice());
                            },
                            TranscribeMode::LocalWhisper => {},
                        }
                        self.saved = false;
                    },
                    None => {},
                }
                SettingsCommand::Nothing
            },
            Message::Save => {
                self.config.mistral_api_key = self.mistral_key_input.clone();
                self.config.openai_api_key = self.openai_key_input.clone();
                self.config.whisper_cpp_path = self.whisper_cpp_input.clone();
                self.config.hotkey = self.hotkey_input.clone();
                SettingsCommand::SaveAndRegister(self.config.copy())
            },
            Message::SaveDone(r) => {
                match r {
                    Ok(()) => {
                        self.shortcut_status = ShortcutStatus::Active(self.config.hotkey.clone());
                        self.saved = true;
                    },
                    Err(e) => {
                        self.shortcut_status = ShortcutStatus::Error(e);
                    },
                }
                SettingsCommand::Nothing
            },
            Message::Close => SettingsCommand::Exit,
        }
    }
}

/// Saving, once the hotkey has been registered, leaves the window saved
/// with the hotkey that was typed shown as active, and the configuration
/// holding the typed keys, whisper.cpp path and hotkey.
pub proof fn law_save_then_registered(m: SettingsView)
    ensures
        ({
            let (m1, c1) = spec_settings_step(m, Message::Save);
            let (m2, c2) = spec_settings_step(m1, Message::SaveDone(Ok(())));
            let c = ConfigView {
                mode: m.config.mode,
                mistral_api_key: m.mistral_key_input,
                openai_api_key: m.openai_key_input,
                whisper_cpp_path: m.whisper_cpp_input,
                whisper_model_path: m.config.whisper_model_path,
                hotkey: m.hotkey_input,
            };
            &&& c1 == SettingsCommandView::SaveAndRegister(c)
            &&& m2.saved
            &&& m2.shortcut_status == ShortcutStatusView::Active(m.hotkey_input)
            &&& m2.config == c
            &&& c2 == SettingsCommandView::Nothing
        }),
{
}

/// Typing in a field sets exactly that field and clears `saved`: the
/// Mistral key, the OpenAI key and the whisper.cpp path each have their
/// own field, and nothing else changes.
pub proof fn law_typing_sets_its_field(m: SettingsView, k: String)
    ensures
        spec_settings_step(m, Message::MistralKeyChanged(k)) == (
            SettingsView { saved: false, mistral_key_input: k@, ..m },
            SettingsCommandView::Nothing,
        ),
        spec_settings_step(m, Message::OpenAIKeyChanged(k)) == (
            SettingsView { saved: false, openai_key_input: k@, ..m },
            SettingsCommandView::Nothing,
        ),
        spec_settings_step(m, Message::WhisperCppChanged(k)) == (
            SettingsView { saved: false, whisper_cpp_input: k@, ..m },
            SettingsCommandView::Nothing,
        ),
{
}

/// Picking a service by its position in the list: the second is OpenAI,
/// the third local whisper.cpp, any other Mistral. Only the mode changes
/// (and `saved` is cleared).
pub proof fn law_mode_change(m: SettingsView, idx: usize)
    ensures
        ({
            let (m2, c) = spec_settings_step(m, Message::ModeChanged(idx));
            &&& c == SettingsCommandView::Nothing
            &&& idx == 1 ==> m2.config.mode == TranscribeMode::OpenAI
            &&& idx == 2 ==> m2.config.mode == TranscribeMode::LocalWhisper
            &&& idx != 1 && idx != 2 ==> m2.config.mode == TranscribeMode::Mistral
            &&& m2 == (SettingsView {
                config: ConfigView { mode: m2.config.mode, ..m.config },
                saved: false,
                ..m
            })
        }),
{
}

/// Picking a model selects it; when it is already downloaded its path
/// becomes the configured model path, otherwise the configuration is
/// kept.
pub proof fn law_model_selection(m: SettingsView, index: usize, downloaded_path: Option<String>)
    ensures
        ({
            let (m2, c) = spec_settings_step(
                m,
                Message::WhisperModelSelected { index, downloaded_path },
            );
            &&& c == SettingsCommandView::Nothing
            &&& m2.selected_model == index
            &&& !m2.saved
            &&& match downloaded_path {
                Some(p) => m2.config == (ConfigView { whisper_model_path: p@, ..m.config }),
                None => m2.config == m.config,
            }
            &&& m2 == (SettingsView {
                selected_model: index,
                config: m2.config,
                saved: false,
                ..m
            })
        }),
{
}

/// A download asks for the selected model and shows it is running; once
/// done, a downloaded model's path becomes the configured model path, and
/// a built whisper.cpp program's path fills both the field and the
/// configuration. A failure shows its error and keeps the paths.
pub proof fn law_download_and_build(m: SettingsView, p: String, e: String)
    ensures
        spec_settings_step(m, Message::DownloadModel).1 == SettingsCommandView::Download(
            m.selected_model,
        ),
        spec_settings_step(m, Message::DownloadModel).0.downloading,
        ({
            let m2 = spec_settings_step(m, Message::DownloadDone(Ok(p))).0;
            &&& m2.config == (ConfigView { whisper_model_path: p@, ..m.config })
            &&& !m2.downloading
            &&& m2.download_status == DownloadStatusView::Downloaded
        }),
        ({
            let m2 = spec_settings_step(m, Message::DownloadDone(Err(e))).0;
            &&& m2.config == m.config
            &&& !m2.downloading
            &&& m2.download_status == DownloadStatusView::Failed(e@)
        }),
        spec_settings_step(m, Message::InstallWhisperCpp).1 == SettingsCommandView::InstallWhisperCpp,
        spec_settings_step(m, Message::InstallWhisperCpp).0.installing_cpp,
        ({
            let m2 = spec_settings_step(m, Message::InstallWhisperCppDone(Ok(p))).0;
            &&& m2.whisper_cpp_input == p@
            &&& m2.config == (ConfigView { whisper_cpp_path: p@, ..m.config })
            &&& !m2.installing_cpp
            &&& m2.download_status == DownloadStatusView::CppInstalled
        }),
        ({
            let m2 = spec_settings_step(m, Message::InstallWhisperCppDone(Err(e))).0;
            &&& m2.whisper_cpp_input == m.whisper_cpp_input
            &&& m2.config == m.config
            &&& !m2.installing_cpp
            &&& m2.download_status == DownloadStatusView::Failed(e@)
        }),
{
}

/// A pasted key, trimmed, goes to the field of the chosen service only;
/// for local whisper.cpp no field changes. Nothing is pasted when the
/// clipboard could not be read.
pub proof fn law_paste_goes_to_chosen_service(m: SettingsView, text: String)
    ensures
        ({
            let (m2, c) = spec_settings_step(m, Message::PasteApiKey(Some(text)));
            &&& c == SettingsCommandView::Nothing
            &&& m.config.mode == TranscribeMode::Mistral ==> m2 == (SettingsView {
                mistral_key_input: trim(text@),
                saved: false,
                ..m
            })
            &&& m.config.mode == TranscribeMode::OpenAI ==> m2 == (SettingsView {
                openai_key_input: trim(text@),
                saved: false,
                ..m
            })
            &&& m.config.mode == TranscribeMode::LocalWhisper ==> m2 == (SettingsView {
                saved: false,
                ..m
            })
        }),
        spec_settings_step(m, Message::PasteApiKey(None)) == (m, SettingsCommandView::Nothing),
{
}

/// Typing a key into one service's field and saving stores it as that
/// service's key, and keeps the other service's key as typed.
pub proof fn law_typed_key_is_saved(m: SettingsView, k: String)
    ensures
        ({
            let m1 = spec_settings_step(m, Message::OpenAIKeyChanged(k)).0;
            let (m2, c) = spec_settings_step(m1, Message::Save);
            &&& m2.config.openai_api_key == k@
            &&& m2.config.mistral_api_key == m.mistral_key_input
            &&& c == SettingsCommandView::SaveAndRegister(m2.config)
        }),
        ({
            let m1 = spec_settings_step(m, Message::MistralKeyChanged(k)).0;
            let (m2, c) = spec_settings_step(m1, Message::Save);
            &&& m2.config.mistral_api_key == k@
            &&& m2.config.openai_api_key == m.openai_key_input
            &&& c == SettingsCommandView::SaveAndRegister(m2.config)
        }),
{
}

/// The shortcut status of a typed hotkey: active when our registered
/// shortcut shows as the hotkey ignoring case; otherwise invalid when the
/// hotkey has no `+`; otherwise the other shortcut it conflicts with, if
/// any; otherwise it will be registered on saving.
pub proof fn law_shortcut_status(content: Seq<char>, hotkey: Seq<char>)
    ensures
        ({
            let st = spec_shortcut_status(content, hotkey);
            let cur = spec_find_our_shortcut(content);
            let active = cur is Some && spec_str_to_lowercase(cur->0) == spec_str_to_lowercase(
                hotkey,
            );
            &&& active ==> st == ShortcutStatusView::Active(cur->0)
            &&& !active && !has_char(hotkey, '+') ==> st == ShortcutStatusView::InvalidFormat
            &&& !active && has_char(hotkey, '+') ==> match spec_check_conflict(content, hotkey) {
                Some(c) => st == ShortcutStatusView::Conflict(c),
                None => st == ShortcutStatusView::NotRegistered,
            }
        }),
{
    lemma_split_char_len(hotkey, '+');
}

} // verus!
