//! The applet's settings: the API key and the hotkey shown to the user,
//! and the decisions that keep the hotkey and the registered shortcut
//! in step.
use vstd::prelude::*;
use crate::shortcut::{opt_string_view, owned, str_eq};
use crate::text::has_char;

verus! {

/// The service that transcribes recordings.
#[derive(Debug, Clone, Copy, PartialEq, Eq, Structural)]
pub enum TranscribeMode {
    Mistral,
    OpenAI,
    LocalWhisper,
}

/// The mode at a position of the selection list (Mistral, OpenAI, local
/// whisper.cpp); a position past the list gives the first mode.
pub open spec fn spec_mode_from_index(idx: usize) -> TranscribeMode {
    if idx == 1 {
        TranscribeMode::OpenAI
    } else if idx == 2 {
        TranscribeMode::LocalWhisper
    } else {
        TranscribeMode::Mistral
    }
}

/// The position of a mode in the selection list.
pub open spec fn spec_mode_index(m: TranscribeMode) -> usize {
    match m {
        TranscribeMode::Mistral => 0,
        TranscribeMode::OpenAI => 1,
        TranscribeMode::LocalWhisper => 2,
    }
}

impl TranscribeMode {
    pub fn from_index(idx: usize) -> (r: TranscribeMode)
        ensures
            r == spec_mode_from_index(idx),
    {
        if idx == 1 {
            TranscribeMode::OpenAI
        } else if idx == 2 {
            TranscribeMode::LocalWhisper
        } else {
            TranscribeMode::Mistral
        }
    }

    pub fn index(&self) -> (r: usize)
        ensures
            r == spec_mode_index(*self),
    {
        match self {
            TranscribeMode::Mistral => 0,
            TranscribeMode::OpenAI => 1,
            TranscribeMode::LocalWhisper => 2,
        }
    }
}

/// The selection list's positions and the modes correspond one to one.
pub proof fn law_mode_index_round_trip(m: TranscribeMode)
    ensures
        spec_mode_from_index(spec_mode_index(m)) == m,
{
}

/// The settings stored in the user's configuration directory.
pub struct Config {
    pub mode: TranscribeMode,
    pub mistral_api_key: String,
    pub openai_api_key: String,
    pub whisper_cpp_path: String,
    pub whisper_model_path: String,
    pub hotkey: String,
}

/// The abstract value of a configuration.
pub struct ConfigView {
    pub mode: TranscribeMode,
    pub mistral_api_key: Seq<char>,
    pub openai_api_key: Seq<char>,
    pub whisper_cpp_path: Seq<char>,
    pub whisper_model_path: Seq<char>,
    pub hotkey: Seq<char>,
}

impl View for Config {
    type V = ConfigView;

    open spec fn view(&self) -> ConfigView {
        ConfigView {
            mode: self.mode,
            mistral_api_key: self.mistral_api_key@,
            openai_api_key: self.openai_api_key@,
            whisper_cpp_path: self.whisper_cpp_path@,
            whisper_model_path: self.whisper_model_path@,
            hotkey: self.hotkey@,
        }
    }
}

/// The hotkey text of a fresh configuration.
pub const DEFAULT_HOTKEY_TEXT: &'static str = "Click panel icon";

/// The hotkey registered when the configuration names none.
pub const FALLBACK_HOTKEY: &'static str = "Ctrl+Y";

/// Whether the chosen service can be used: an API key for the online
/// services, the program and a model for local whisper.cpp.
pub open spec fn spec_is_configured(c: ConfigView) -> bool {
    match c.mode {
        TranscribeMode::Mistral => c.mistral_api_key.len() > 0,
        TranscribeMode::OpenAI => c.openai_api_key.len() > 0,
        TranscribeMode::LocalWhisper => c.whisper_cpp_path.len() > 0
            && c.whisper_model_path.len() > 0,
    }
}

/// The API key of the chosen service; none for local whisper.cpp.
pub open spec fn spec_active_api_key(c: ConfigView) -> Seq<char> {
    match c.mode {
        TranscribeMode::Mistral => c.mistral_api_key,
        TranscribeMode::OpenAI => c.openai_api_key,
        TranscribeMode::LocalWhisper => Seq::empty(),
    }
}

impl Config {
    /// A copy of this configuration.
    pub fn copy(&self) -> (r: Config)
        ensures
            r@ == self@,
    {
        Config {
            mode: self.mode,
            mistral_api_key: self.mistral_api_key.clone(),
            openai_api_key: self.openai_api_key.clone(),
            whisper_cpp_path: self.whisper_cpp_path.clone(),
            whisper_model_path: self.whisper_model_path.clone(),
            hotkey: self.hotkey.clone(),
        }
    }

    /// Whether the chosen service can be used.
    pub fn is_configured(&self) -> (r: bool)
        ensures
            r == spec_is_configured(self@),
    {
        match self.mode {
            TranscribeMode::Mistral => !self.mistral_api_key.as_str().is_empty(),
            TranscribeMode::OpenAI => !self.openai_api_key.as_str().is_empty(),
            TranscribeMode::LocalWhisper => !self.whisper_cpp_path.as_str().is_empty()
                && !self.whisper_model_path.as_str().is_empty(),
        }
    }

    /// The API key of the chosen service; empty for local whisper.cpp.
    pub fn active_api_key(&self) -> (r: &str)
        ensures
            r@ == spec_active_api_key(self@),
    {
        match self.mode {
            TranscribeMode::Mistral => self.mistral_api_key.as_str(),
            TranscribeMode::OpenAI => self.openai_api_key.as_str(),
            TranscribeMode::LocalWhisper => {
                proof {
                    reveal_strlit("");
                }
                ""
            },
        }
    }
}

impl Default for Config {
    /// Mistral, no keys or paths, and a hotkey text that tells the user to
    /// click the icon.
    fn default() -> (r: Config)
        ensures
            r@ == (ConfigView {
                mode: TranscribeMode::Mistral,
                mistral_api_key: Seq::<char>::empty(),
                openai_api_key: Seq::<char>::empty(),
                whisper_cpp_path: Seq::<char>::empty(),
                whisper_model_path: Seq::<char>::empty(),
                hotkey: DEFAULT_HOTKEY_TEXT@,
            }),
    {
        Config {
            mode: TranscribeMode::Mistral,
            mistral_api_key: String::new(),
            openai_api_key: String::new(),
            whisper_cpp_path: String::new(),
            whisper_model_path: String::new(),
            hotkey: owned(DEFAULT_HOTKEY_TEXT),
        }
    }
}

/// The hotkey to register when no shortcut runs our command yet.
pub open spec fn spec_hotkey_to_register(config_hotkey: Seq<char>) -> Seq<char> {
    if has_char(config_hotkey, '+') {
        config_hotkey
    } else {
        FALLBACK_HOTKEY@
    }
}

/// Decides, at start-up, which hotkey to register: none when our
/// shortcut is already registered (`registered` is its display form),
/// else the configured hotkey if it holds a `+`, else `Ctrl+Y`.
pub fn ensure_shortcut_registered(registered: &Option<String>, config: &Config) -> (r: Option<String>)
    ensures
        opt_string_view(r) == match registered {
            Some(_) => None::<Seq<char>>,
            None => Some(spec_hotkey_to_register(config@.hotkey)),
        },
{
    match registered {
        Some(_) => {
            return None;
        },
        None => {},
    }
    let n = config.hotkey.as_str().unicode_len();
    let mut i: usize = 0;
    while i < n
        invariant
            n == config@.hotkey.len(),
            registered is None,
            i <= n,
            forall|k: int| 0 <= k < i ==> config@.hotkey[k] != '+',
        decreases n - i,
    {
        if config.hotkey.as_str().get_char(i) == '+' {
            assert(config@.hotkey[i as int] == '+');
            return Some(config.hotkey.clone());
        }
        i += 1;
    }
    Some(owned(FALLBACK_HOTKEY))
}

/// Brings the configured hotkey in line with the registered shortcut
/// (`registered` is its display form). Returns whether the configuration
/// changed and has to be saved.
pub fn sync_hotkey(config: &mut Config, registered: &Option<String>) -> (changed: bool)
    ensures
        match registered {
            Some(current) => {
                &&& changed == (old(config)@.hotkey != current@)
                &&& final(config)@ == (ConfigView { hotkey: current@, ..old(config)@ })
            },
            None => !changed && final(config)@ == old(config)@,
        },
{
    match registered {
        Some(current) => {
            if !str_eq(config.hotkey.as_str(), current.as_str()) {
                config.hotkey = current.clone();
                true
            } else {
                false
            }
        },
        None => false,
    }
}

} // verus!
