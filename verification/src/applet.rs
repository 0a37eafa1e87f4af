//! The panel applet as a state machine: the recording cycle (idle,
//! recording, processing), the popup, and the status line. Each message
//! moves the model to its next state and yields the command the host
//! has to carry out; what the host learns by carrying it out comes back
//! as a later message.
use vstd::prelude::*;
use vstd::utf8::{decode_utf8, encode_utf8};
use vstd::string::StringSliceAdditionalSpecFns;
use crate::audio::{spec_start, spec_stop, RecorderView};
use crate::config::{spec_is_configured, Config, ConfigView};
use crate::deps::{deps_view, format_missing_i18n, spec_commands_text, spec_packages_text, Dep};
use crate::shortcut::owned;

verus! {

/// Where the recording cycle stands.
#[derive(Debug, Clone, Copy, PartialEq, Eq, Structural)]
pub enum AppState {
    Idle,
    Recording,
    Processing,
}

/// The status line; each variant is shown through its localized message.
pub enum Status {
    Ready,
    NotConfigured,
    /// The programs (joined by `, `) and the packages (joined by spaces).
    MissingDeps(String, String),
    SetApiKey,
    Recording,
    Transcribing,
    /// The start of the transcribed text.
    Done(String),
    Error(String),
}

/// The abstract value of the status line.
pub enum StatusView {
    Ready,
    NotConfigured,
    MissingDeps(Seq<char>, Seq<char>),
    SetApiKey,
    Recording,
    Transcribing,
    Done(Seq<char>),
    Error(Seq<char>),
}

impl View for Status {
    type V = StatusView;

    open spec fn view(&self) -> StatusView {
        match self {
            Status::Ready => StatusView::Ready,
            Status::NotConfigured => StatusView::NotConfigured,
            Status::MissingDeps(c, p) => StatusView::MissingDeps(c@, p@),
            Status::SetApiKey => StatusView::SetApiKey,
            Status::Recording => StatusView::Recording,
            Status::Transcribing => StatusView::Transcribing,
            Status::Done(t) => StatusView::Done(t@),
            Status::Error(e) => StatusView::Error(e@),
        }
    }
}

/// The applet's state. `popup` is the id of the open popup window.
pub struct AppModel {
    pub popup: Option<u64>,
    pub state: AppState,
    pub config: Config,
    pub status: Status,
    pub missing_deps: Vec<Dep>,
}

/// The abstract value of the applet's state.
pub struct AppView {
    pub popup: Option<u64>,
    pub state: AppState,
    pub config: ConfigView,
    pub status: StatusView,
    pub missing: Seq<(Seq<char>, Seq<char>)>,
}

impl View for AppModel {
    type V = AppView;

    open spec fn view(&self) -> AppView {
        AppView {
            popup: self.popup,
            state: self.state,
            config: self.config@,
            status: self.status@,
            missing: deps_view(self.missing_deps@),
        }
    }
}

/// What happens to the applet.
pub enum Message {
    /// The panel icon was pressed.
    TogglePopup,
    /// The popup is about to open: the configuration and the missing
    /// programs as they are now, and the id of the new window.
    PopupReady { config: Config, missing: Vec<Dep>, id: u64 },
    /// A popup window was closed.
    PopupClosed(u64),
    /// The settings button was pressed.
    OpenSettings,
    /// The periodic look at the toggle flag; `true` when the flag was set.
    CheckToggle(bool),
    /// The record button (or the hotkey) was pressed.
    ToggleRecording,
    /// Recording was asked for: the configuration and the missing programs
    /// as they are now.
    RecordingChecked { config: Config, missing: Vec<Dep> },
    /// The transcription finished.
    TranscriptionDone(Result<String, String>),
}

/// What the host has to do next.
pub enum Command {
    Nothing,
    /// Close the popup window with this id.
    DestroyPopup(u64),
    /// Load the configuration, check the programs, make a window id and
    /// answer with `PopupReady`.
    PreparePopup,
    /// Open the popup window with this id.
    GetPopup(u64),
    /// Load the configuration, check the programs and answer with
    /// `RecordingChecked`.
    PrepareRecording,
    /// Start recording.
    StartRecording,
    /// Stop recording, then convert and transcribe the recording with this
    /// configuration, and answer with `TranscriptionDone`.
    StopAndTranscribe(Config),
    /// Start the settings window, and close the popup window if there is one.
    OpenSettings(Option<u64>),
    /// Type this text into the focused window, after closing the popup
    /// window if there is one.
    Paste(String, Option<u64>),
}

/// The abstract value of a command.
pub enum CommandView {
    Nothing,
    DestroyPopup(u64),
    PreparePopup,
    GetPopup(u64),
    PrepareRecording,
    StartRecording,
    StopAndTranscribe(ConfigView),
    OpenSettings(Option<u64>),
    Paste(Seq<char>, Option<u64>),
}

impl View for Command {
    type V = CommandView;

    open spec fn view(&self) -> CommandView {
        match self {
            Command::Nothing => CommandView::Nothing,
            Command::DestroyPopup(p) => CommandView::DestroyPopup(*p),
            Command::PreparePopup => CommandView::PreparePopup,
            Command::GetPopup(p) => CommandView::GetPopup(*p),
            Command::PrepareRecording => CommandView::PrepareRecording,
            Command::StartRecording => CommandView::StartRecording,
            Command::StopAndTranscribe(c) => CommandView::StopAndTranscribe(c@),
            Command::OpenSettings(p) => CommandView::OpenSettings(*p),
            Command::Paste(t, p) => CommandView::Paste(t@, *p),
        }
    }
}

// ---------------------------------------------------------------------
// Specification
// ---------------------------------------------------------------------

/// The status shown while idle: the missing programs if there are any,
/// else whether the chosen service is configured.
pub open spec fn spec_idle_status(missing: Seq<(Seq<char>, Seq<char>)>, config: ConfigView) -> StatusView {
    if missing.len() > 0 {
        StatusView::MissingDeps(spec_commands_text(missing), spec_packages_text(missing))
    } else if !spec_is_configured(config) {
        StatusView::NotConfigured
    } else {
        StatusView::Ready
    }
}

/// The number of bytes of a transcription shown in the status line.
pub open spec fn preview_len(text: Seq<char>) -> int {
    let n = encode_utf8(text).len() as int;
    if n < 30 {
        n
    } else {
        30
    }
}

/// The start of a transcription shown in the status line: its first 30
/// bytes (all of it when shorter).
pub open spec fn spec_preview(text: Seq<char>) -> Seq<char> {
    decode_utf8(encode_utf8(text).subrange(0, preview_len(text)))
}

/// The preview cuts the text at a character boundary (and the text's
/// length in bytes fits in `usize`, as that of any string does).
pub open spec fn preview_ok(text: Seq<char>) -> bool {
    &&& encode_utf8(text).len() <= usize::MAX
    &&& vstd::utf8::is_char_boundary(encode_utf8(text), preview_len(text))
}

/// The effect of the record button.
pub open spec fn spec_toggle_recording(m: AppView) -> (AppView, CommandView) {
    match m.state {
        AppState::Idle => (m, CommandView::PrepareRecording),
        AppState::Recording => (
            AppView { state: AppState::Processing, status: StatusView::Transcribing, ..m },
            CommandView::StopAndTranscribe(m.config),
        ),
        AppState::Processing => (m, CommandView::Nothing),
    }
}

/// The next state and the command for a message.
pub open spec fn spec_step(m: AppView, msg: Message) -> (AppView, CommandView) {
    match msg {
        Message::TogglePopup => match m.popup {
            Some(p) => (AppView { popup: None, ..m }, CommandView::DestroyPopup(p)),
            None => (m, CommandView::PreparePopup),
        },
        Message::PopupReady { config, missing, id } => {
            let mv = deps_view(missing@);
            (
                AppView {
                    popup: Some(id),
                    config: config@,
                    missing: mv,
                    status: if m.state == AppState::Idle {
                        spec_idle_status(mv, config@)
                    } else {
                        m.status
                    },
                    ..m
                },
                CommandView::GetPopup(id),
            )
        },
        Message::PopupClosed(id) => if m.popup == Some(id) {
            (AppView { popup: None, ..m }, CommandView::Nothing)
        } else {
            (m, CommandView::Nothing)
        },
        Message::OpenSettings => (AppView { popup: None, ..m }, CommandView::OpenSettings(m.popup)),
        Message::CheckToggle(flag) => if flag {
            spec_toggle_recording(m)
        } else {
            (m, CommandView::Nothing)
        },
        Message::ToggleRecording => spec_toggle_recording(m),
        Message::RecordingChecked { config, missing } => if m.state != AppState::Idle {
            (m, CommandView::Nothing)
        } else {
            let mv = deps_view(missing@);
            if mv.len() > 0 {
                (
                    AppView {
                        config: config@,
                        missing: mv,
                        status: StatusView::MissingDeps(
                            spec_commands_text(mv),
                            spec_packages_text(mv),
                        ),
                        ..m
                    },
                    CommandView::Nothing,
                )
            } else if !spec_is_configured(config@) {
                (AppView { config: config@, status: StatusView::SetApiKey, ..m }, CommandView::Nothing)
            } else {
                (
                    AppView {
                        config: config@,
                        state: AppState::Recording,
                        status: StatusView::Recording,
                        ..m
                    },
                    CommandView::StartRecording,
                )
            }
        },
        Message::TranscriptionDone(Ok(text)) => (
            AppView {
                popup: None,
                state: AppState::Idle,
                status: StatusView::Done(spec_preview(text@)),
                ..m
            },
            CommandView::Paste(text@, m.popup),
        ),
        Message::TranscriptionDone(Err(e)) => (
            AppView { state: AppState::Idle, status: StatusView::Error(e@), ..m },
            CommandView::Nothing,
        ),
    }
}

/// What a message needs to be handled without a panic: a transcription
/// whose preview ends on a character boundary.
pub open spec fn message_ok(msg: Message) -> bool {
    match msg {
        Message::TranscriptionDone(Ok(text)) => preview_ok(text@),
        _ => true,
    }
}

// ---------------------------------------------------------------------
// Implementation
// ---------------------------------------------------------------------

/// Whether the preview of `text` ends on a character boundary.
pub fn is_preview_ok(text: &str) -> (r: bool)
    ensures
        encode_utf8(text@).len() <= usize::MAX ==> r == preview_ok(text@),
{
    let n = text.len();
    let k = if n < 30 {
        n
    } else {
        30
    };
    text.is_char_boundary(k)
}

/// The first 30 bytes of `text` (all of it when shorter).
pub fn preview(text: &str) -> (r: String)
    requires
        preview_ok(text@),
    ensures
        r@ == spec_preview(text@),
{
    broadcast use vstd::utf8::group_utf8_lib;
    let n = text.len();
    let k = if n < 30 {
        n
    } else {
        30
    };
    let (a, _) = text.split_at(k);
    assert(a.spec_bytes() == encode_utf8(a@));
    assert(decode_utf8(encode_utf8(a@)) == a@);
    owned(a)
}

/// The status shown while idle.
pub fn idle_status(missing: &[Dep], config: &Config) -> (r: Status)
    ensures
        r@ == spec_idle_status(deps_view(missing@), config@),
{
    if missing.len() > 0 {
        let t = format_missing_i18n(missing);
        Status::MissingDeps(t.commands, t.packages)
    } else if !config.is_configured() {
        Status::NotConfigured
    } else {
        Status::Ready
    }
}

impl AppModel {
    /// The applet at start-up: idle, no popup, with the loaded
    /// configuration and the missing programs.
    pub fn new(config: Config, missing: Vec<Dep>) -> (r: AppModel)
        ensures
            r@ == (AppView {
                popup: None,
                state: AppState::Idle,
                config: config@,
                status: spec_idle_status(deps_view(missing@), config@),
                missing: deps_view(missing@),
            }),
    {
        let status = idle_status(missing.as_slice(), &config);
        AppModel { popup: None, state: AppState::Idle, config, status, missing_deps: missing }
    }

    fn toggle_recording(&mut self) -> (cmd: Command)
        ensures
            (final(self)@, cmd@) == spec_toggle_recording(old(self)@),
    {
        match self.state {
            AppState::Idle => Command::PrepareRecording,
            AppState::Recording => {
                self.state = AppState::Processing;
                self.status = Status::Transcribing;
                Command::StopAndTranscribe(self.config.copy())
            },
            AppState::Processing => Command::Nothing,
        }
    }

    /// Handles one message: moves to the next state and returns what the
    /// host has to do.
    pub fn update(&mut self, msg: Message) -> (cmd: Command)
        requires
            message_ok(msg),
        ensures
            (final(self)@, cmd@) == spec_step(old(self)@, msg),
    {
        match msg {
            Message::TogglePopup => match self.popup {
                Some(p) => {
                    self.popup = None;
                    Command::DestroyPopup(p)
                },
                None => Command::PreparePopup,
            },
            Message::PopupReady { config, missing, id } => {
                if self.state == AppState::Idle {
                    self.status = idle_status(missing.as_slice(), &config);
                }
                self.config = config;
                self.missing_deps = missing;
                self.popup = Some(id);
                Command::GetPopup(id)
            },
            Message::PopupClosed(id) => {
                match self.popup {
                    Some(p) => {
                        if p == id {
                            self.popup = None;
                        }
                    },
                    None => {},
                }
                Command::Nothing
            },
            Message::OpenSettings => {
                let p = self.popup;
                self.popup = None;
                Command::OpenSettings(p)
            },
            Message::CheckToggle(flag) => {
                if flag {
                    self.toggle_recording()
                } else {
                    Command::Nothing
                }
            },
            Message::ToggleRecording => self.toggle_recording(),
            Message::RecordingChecked { config, missing } => {
                if self.state != AppState::Idle {
                    return Command::Nothing;
                }
                self.config = config;
                if missing.len() > 0 {
                    let t = format_missing_i18n(missing.as_slice());
                    self.status = Status::MissingDeps(t.commands, t.packages);
                    self.missing_deps = missing;
                    return Command::Nothing;
                }
                if !self.config.is_configured() {
                    self.status = Status::SetApiKey;
                    return Command::Nothing;
                }
                self.state = AppState::Recording;
                self.status = Status::Recording;
                Command::StartRecording
            },
            Message::TranscriptionDone(result) => match result {
                Ok(text) => {
                    self.status = Status::Done(preview(text.as_str()));
                    let close = self.popup;
                    self.popup = None;
                    self.state = AppState::Idle;
                    Command::Paste(text, close)
                },
                Err(e) => {
                    self.status = Status::Error(e);
                    self.state = AppState::Idle;
                    Command::Nothing
                },
            },
        }
    }
}

// ---------------------------------------------------------------------
// Laws
// ---------------------------------------------------------------------

/// While a recording is being transcribed, the record button and the
/// hotkey change nothing and ask for nothing.
pub proof fn law_processing_ignores_record_button(m: AppView)
    requires
        m.state == AppState::Processing,
    ensures
        spec_step(m, Message::ToggleRecording) == (m, CommandView::Nothing),
        spec_step(m, Message::CheckToggle(true)) == (m, CommandView::Nothing),
{
}

/// A finished transcription, successful or not, returns the applet to
/// idle.
pub proof fn law_transcription_returns_to_idle(m: AppView, result: Result<String, String>)
    ensures
        spec_step(m, Message::TranscriptionDone(result)).0.state == AppState::Idle,
{
}

/// Recording starts only from idle, and only when no program is missing
/// and the chosen service is configured.
pub proof fn law_recording_starts_only_when_ready(m: AppView, msg: Message)
    requires
        spec_step(m, msg).1 == CommandView::StartRecording,
    ensures
        m.state == AppState::Idle,
        spec_step(m, msg).0.state == AppState::Recording,
        match msg {
            Message::RecordingChecked { config, missing } => {
                &&& missing@.len() == 0
                &&& spec_is_configured(config@)
            },
            _ => false,
        },
{
}

/// The recording cycle: from idle, pressing the record button (with all
/// programs present and the service configured) starts recording; pressing it
/// again stops and transcribes with that configuration; the finished
/// transcription returns the applet to idle.
pub proof fn law_record_cycle(
    m: AppView,
    config: Config,
    missing: Vec<Dep>,
    result: Result<String, String>,
)
    requires
        m.state == AppState::Idle,
        missing@.len() == 0,
        spec_is_configured(config@),
    ensures
        spec_step(m, Message::ToggleRecording) == (m, CommandView::PrepareRecording),
        ({
            let (m2, c2) = spec_step(m, Message::RecordingChecked { config, missing });
            let (m3, c3) = spec_step(m2, Message::ToggleRecording);
            let (m4, c4) = spec_step(m3, Message::TranscriptionDone(result));
            &&& m2.state == AppState::Recording
            &&& c2 == CommandView::StartRecording
            &&& m3.state == AppState::Processing
            &&& c3 == CommandView::StopAndTranscribe(config@)
            &&& m4.state == AppState::Idle
        }),
{
    assert(deps_view(missing@).len() == 0);
}

/// Pressing the panel icon while the popup is open closes it.
pub proof fn law_icon_closes_open_popup(m: AppView, p: u64)
    requires
        m.popup == Some(p),
    ensures
        spec_step(m, Message::TogglePopup) == (AppView { popup: None, ..m }, CommandView::DestroyPopup(
            p,
        )),
{
}

/// A successful transcription is typed into the focused window as it is,
/// closing the popup if it was open.
pub proof fn law_transcription_is_pasted(m: AppView, text: String)
    ensures
        spec_step(m, Message::TranscriptionDone(Ok(text))).1 == CommandView::Paste(text@, m.popup),
        spec_step(m, Message::TranscriptionDone(Ok(text))).0.popup is None,
{
}

/// The recording cycle is the only way the state moves: a step leaves the
/// state as it is, or goes idle to recording (asking to start recording),
/// recording to processing (asking to stop and transcribe), or back to
/// idle when a transcription finishes. Recording starts and stops only on
/// those moves.
pub proof fn law_state_cycle(m: AppView, msg: Message)
    ensures
        ({
            let (m2, c) = spec_step(m, msg);
            &&& (m2.state == m.state || (m.state == AppState::Idle && m2.state
                == AppState::Recording && c == CommandView::StartRecording) || (m.state
                == AppState::Recording && m2.state == AppState::Processing
                && c is StopAndTranscribe) || (m2.state == AppState::Idle
                && msg is TranscriptionDone))
            &&& c == CommandView::StartRecording ==> m.state == AppState::Idle && m2.state
                == AppState::Recording
            &&& c is StopAndTranscribe ==> m.state == AppState::Recording && m2.state
                == AppState::Processing
        }),
{
}

/// What the recorder becomes when the host carries out a command: it
/// starts on `StartRecording`, stops on `StopAndTranscribe`, and is left
/// alone otherwise.
pub open spec fn recorder_after(r: RecorderView, c: CommandView) -> RecorderView {
    match c {
        CommandView::StartRecording => spec_start(r).0,
        CommandView::StopAndTranscribe(_) => spec_stop(r).0,
        _ => r,
    }
}

/// A message the host can deliver in state `m`: a finished transcription
/// arrives only while its recording is being processed.
pub open spec fn deliverable(m: AppView, msg: Message) -> bool {
    msg is TranscriptionDone ==> m.state == AppState::Processing
}

/// The recorder records exactly while the applet is recording.
pub open spec fn recording_matches(m: AppView, r: RecorderView) -> bool {
    r.recording == (m.state == AppState::Recording)
}

/// The applet and the recorder after the host has handled `msgs` in turn,
/// carrying out each command.
pub open spec fn spec_run(m: AppView, r: RecorderView, msgs: Seq<Message>) -> (AppView, RecorderView)
    decreases msgs.len(),
{
    if msgs.len() == 0 {
        (m, r)
    } else {
        let (m2, c) = spec_step(m, msgs[0]);
        spec_run(m2, recorder_after(r, c), msgs.drop_first())
    }
}

/// Every message of `msgs` is deliverable when it arrives.
pub open spec fn run_deliverable(m: AppView, msgs: Seq<Message>) -> bool
    decreases msgs.len(),
{
    msgs.len() == 0 || (deliverable(m, msgs[0]) && run_deliverable(
        spec_step(m, msgs[0]).0,
        msgs.drop_first(),
    ))
}

/// One step keeps the recorder in line with the applet's state.
pub proof fn law_recorder_follows_state_step(m: AppView, r: RecorderView, msg: Message)
    requires
        recording_matches(m, r),
        deliverable(m, msg),
    ensures
        recording_matches(spec_step(m, msg).0, recorder_after(r, spec_step(m, msg).1)),
{
}

/// Across any run of deliverable messages, starting from a state where the
/// recorder records exactly while the applet is recording (as at start-up:
/// idle and not recording), the recorder records exactly while the applet
/// is in the recording state.
pub proof fn law_recorder_follows_state(m: AppView, r: RecorderView, msgs: Seq<Message>)
    requires
        recording_matches(m, r),
        run_deliverable(m, msgs),
    ensures
        recording_matches(spec_run(m, r, msgs).0, spec_run(m, r, msgs).1),
    decreases msgs.len(),
{
    if msgs.len() > 0 {
        let (m2, c) = spec_step(m, msgs[0]);
        law_recorder_follows_state_step(m, r, msgs[0]);
        law_recorder_follows_state(m2, recorder_after(r, c), msgs.drop_first());
    }
}

/// Stopping a recording, with the record button or the hotkey, moves the
/// applet to processing, shows the transcribing status, and asks for the
/// recording to be stopped and transcribed with the current configuration;
/// nothing else changes.
pub proof fn law_stop_shows_transcribing(m: AppView)
    requires
        m.state == AppState::Recording,
    ensures
        spec_step(m, Message::ToggleRecording) == (
            AppView { status: StatusView::Transcribing, state: AppState::Processing, ..m },
            CommandView::StopAndTranscribe(m.config),
        ),
        spec_step(m, Message::CheckToggle(true)) == (
            AppView { status: StatusView::Transcribing, state: AppState::Processing, ..m },
            CommandView::StopAndTranscribe(m.config),
        ),
{
}

/// Opening the popup opens the window with the given id and takes in the
/// configuration and missing programs as they are now. The status line is
/// refreshed only while idle: the missing programs if any, else whether
/// the service is configured; while recording or processing it is kept.
pub proof fn law_popup_status(m: AppView, config: Config, missing: Vec<Dep>, id: u64)
    ensures
        ({
            let (m2, c) = spec_step(m, Message::PopupReady { config, missing, id });
            let mv = deps_view(missing@);
            &&& c == CommandView::GetPopup(id)
            &&& m2.popup == Some(id)
            &&& m2.config == config@
            &&& m2.missing == mv
            &&& m2.state == m.state
            &&& m.state != AppState::Idle ==> m2.status == m.status
            &&& m.state == AppState::Idle && mv.len() > 0 ==> m2.status == StatusView::MissingDeps(
                spec_commands_text(mv),
                spec_packages_text(mv),
            )
            &&& m.state == AppState::Idle && mv.len() == 0 && !spec_is_configured(config@)
                ==> m2.status == StatusView::NotConfigured
            &&& m.state == AppState::Idle && mv.len() == 0 && spec_is_configured(config@)
                ==> m2.status == StatusView::Ready
        }),
{
}

/// Pressing the icon without a popup asks to prepare one and changes
/// nothing; closing the open popup forgets it, closing another window
/// changes nothing; opening the settings forgets the popup and asks to
/// close it.
pub proof fn law_popup_open_close(m: AppView, id: u64)
    ensures
        m.popup is None ==> spec_step(m, Message::TogglePopup) == (m, CommandView::PreparePopup),
        m.popup == Some(id) ==> spec_step(m, Message::PopupClosed(id)) == (
            AppView { popup: None, ..m },
            CommandView::Nothing,
        ),
        m.popup != Some(id) ==> spec_step(m, Message::PopupClosed(id)) == (m, CommandView::Nothing),
        spec_step(m, Message::OpenSettings) == (
            AppView { popup: None, ..m },
            CommandView::OpenSettings(m.popup),
        ),
{
}

/// The outcome of asking to record from idle: with programs missing, the
/// status names them and nothing starts; with the service not configured,
/// the status asks for it and nothing starts; otherwise recording starts
/// and the status says so. Outside idle the answer is ignored.
pub proof fn law_recording_checked(m: AppView, config: Config, missing: Vec<Dep>)
    ensures
        ({
            let (m2, c) = spec_step(m, Message::RecordingChecked { config, missing });
            let mv = deps_view(missing@);
            &&& m.state != AppState::Idle ==> m2 == m && c == CommandView::Nothing
            &&& m.state == AppState::Idle && mv.len() > 0 ==> m2 == (AppView {
                config: config@,
                missing: mv,
                status: StatusView::MissingDeps(spec_commands_text(mv), spec_packages_text(mv)),
                ..m
            }) && c == CommandView::Nothing
            &&& m.state == AppState::Idle && mv.len() == 0 && !spec_is_configured(config@) ==> m2
                == (AppView { config: config@, status: StatusView::SetApiKey, ..m }) && c
                == CommandView::Nothing
            &&& m.state == AppState::Idle && mv.len() == 0 && spec_is_configured(config@) ==> m2
                == (AppView {
                config: config@,
                state: AppState::Recording,
                status: StatusView::Recording,
                ..m
            }) && c == CommandView::StartRecording
        }),
{
}

/// A finished transcription shows its start (the first 30 bytes) in the
/// status line and pastes it whole; a failed one shows the error. Either
/// way the applet is idle again.
pub proof fn law_transcription_status(m: AppView, text: String, e: String)
    ensures
        spec_step(m, Message::TranscriptionDone(Ok(text))) == (
            AppView {
                popup: None,
                state: AppState::Idle,
                status: StatusView::Done(spec_preview(text@)),
                ..m
            },
            CommandView::Paste(text@, m.popup),
        ),
        spec_step(m, Message::TranscriptionDone(Err(e))) == (
            AppView { state: AppState::Idle, status: StatusView::Error(e@), ..m },
            CommandView::Nothing,
        ),
{
}

/// The preview of a transcription is its first 30 bytes (all of it when
/// shorter): encoded as UTF-8, it is exactly that prefix of the text's
/// encoding.
pub proof fn law_preview_is_first_30_bytes(text: Seq<char>)
    requires
        preview_ok(text),
    ensures
        ({
            let bytes = encode_utf8(text);
            let n: int = if bytes.len() < 30 {
                bytes.len() as int
            } else {
                30
            };
            encode_utf8(spec_preview(text)) == bytes.subrange(0, n)
        }),
{
    broadcast use vstd::utf8::group_utf8_lib;
    let bytes = encode_utf8(text);
    let n = preview_len(text);
    vstd::utf8::encode_utf8_valid_utf8(text);
    vstd::utf8::valid_utf8_split(bytes, n);
    vstd::utf8::decode_utf8_encode_utf8(bytes.subrange(0, n));
}

} // verus!
