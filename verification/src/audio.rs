//! The recorder's state, the name of a capture file, and the conversion
//! of a capture to MP3. Capturing samples and running `ffmpeg` are left to
//! the caller, who reports back what happened.
use vstd::prelude::*;
use crate::shortcut::{opt_string_view, owned};
use crate::text::{chars_of, push_str, string_from_chars};

verus! {

/// Whether a capture is running, and the file that the last finished
/// capture wrote, until it is taken.
pub struct Recorder {
    recording: bool,
    audio_file: Option<String>,
}

/// The recorder as plain values.
pub struct RecorderView {
    pub recording: bool,
    pub audio_file: Option<Seq<char>>,
}

impl View for Recorder {
    type V = RecorderView;

    closed spec fn view(&self) -> RecorderView {
        RecorderView { recording: self.recording, audio_file: opt_string_view(self.audio_file) }
    }
}

/// Starting: the recorder records afterwards; a capture is to be started
/// only when none was running.
pub open spec fn spec_start(r: RecorderView) -> (RecorderView, bool) {
    (RecorderView { recording: true, audio_file: r.audio_file }, !r.recording)
}

/// Stopping: the recorder is idle afterwards; there was something to stop
/// only when a capture was running.
pub open spec fn spec_stop(r: RecorderView) -> (RecorderView, bool) {
    (RecorderView { recording: false, audio_file: r.audio_file }, r.recording)
}

impl Recorder {
    /// An idle recorder with no capture file.
    pub fn new() -> (r: Recorder)
        ensures
            !r@.recording,
            r@.audio_file is None,
    {
        Recorder { recording: false, audio_file: None }
    }

    pub fn is_recording(&self) -> (b: bool)
        ensures
            b == self@.recording,
    {
        self.recording
    }

    /// Marks the recorder as recording. Returns whether the caller is to
    /// start a capture: not when one is already running.
    pub fn start_recording(&mut self) -> (start: bool)
        ensures
            (final(self)@, start) == spec_start(old(self)@),
    {
        if self.recording {
            false
        } else {
            self.recording = true;
            true
        }
    }

    /// Marks the recorder as idle, which tells a running capture to end.
    /// Returns whether a capture was running.
    pub fn stop_recording(&mut self) -> (stopped: bool)
        ensures
            (final(self)@, stopped) == spec_stop(old(self)@),
    {
        if self.recording {
            self.recording = false;
            true
        } else {
            false
        }
    }

    /// Records the file that a capture finished writing.
    pub fn finish_capture(&mut self, path: String)
        ensures
            final(self)@.recording == old(self)@.recording,
            final(self)@.audio_file == Some(path@),
    {
        self.audio_file = Some(path);
    }

    /// Hands out the file of the last finished capture, once.
    pub fn take_audio_file(&mut self) -> (f: Option<String>)
        ensures
            opt_string_view(f) == old(self)@.audio_file,
            final(self)@.recording == old(self)@.recording,
            final(self)@.audio_file is None,
    {
        self.audio_file.take()
    }
}

/// Starting twice runs one capture: the second start asks for none and
/// changes nothing; stopping twice likewise reports one stop.
pub proof fn law_start_and_stop_are_idempotent(r: RecorderView)
    ensures
        !spec_start(spec_start(r).0).1,
        spec_start(spec_start(r).0).0 == spec_start(r).0,
        !spec_stop(spec_stop(r).0).1,
        spec_stop(spec_stop(r).0).0 == spec_stop(r).0,
{
}

/// A start followed by a stop on an idle recorder starts one capture,
/// stops it, and leaves the recorder as it was.
pub proof fn law_start_then_stop(r: RecorderView)
    requires
        !r.recording,
    ensures
        spec_start(r).1,
        spec_stop(spec_start(r).0).1,
        spec_stop(spec_start(r).0).0 == r,
{
}

/// Whether a character is one that a hyphenated lower-case UUID holds.
pub open spec fn is_uuid_char(c: char) -> bool {
    c == '-' || ('0' <= c && c <= '9') || ('a' <= c && c <= 'f')
}

/// A fresh random identifier, from `uuid::Uuid::new_v4` written with
/// `to_string`: the hyphenated lower-case form, 36 characters of hex
/// digits and hyphens. Which identifier comes out is left open.
#[verifier::external_body]
fn new_capture_id() -> (id: String)
    ensures
        id@.len() == 36,
        forall|i: int| 0 <= i < 36 ==> is_uuid_char(#[trigger] id@[i]),
{
    uuid::Uuid::new_v4().to_string()
}

/// The name of the file that a capture with identifier `id` writes.
pub open spec fn spec_capture_file_name(id: Seq<char>) -> Seq<char> {
    "cosmic_stt_"@ + id + ".wav"@
}

pub fn capture_file_name(id: &str) -> (name: String)
    ensures
        name@ == spec_capture_file_name(id@),
{
    let mut m = chars_of("cosmic_stt_");
    push_str(&mut m, id);
    push_str(&mut m, ".wav");
    string_from_chars(m.as_slice())
}

/// The name of a new capture file, under a fresh random identifier.
pub fn new_capture_file_name() -> (name: String)
    ensures
        exists|id: Seq<char>|
            id.len() == 36 && (forall|i: int| 0 <= i < 36 ==> is_uuid_char(#[trigger] id[i]))
                && name@ == spec_capture_file_name(id),
{
    let id = new_capture_id();
    let name = capture_file_name(id.as_str());
    assert(name@ == spec_capture_file_name(id@));
    name
}

/// The arguments of the `ffmpeg` run that turns `wav` into a 64 kbit/s
/// MP3 at `mp3`, overwriting it.
pub fn ffmpeg_args(wav: &str, mp3: &str) -> (args: Vec<String>)
    ensures
        args.len() == 6,
        args[0]@ == "-y"@,
        args[1]@ == "-i"@,
        args[2]@ == wav@,
        args[3]@ == "-b:a"@,
        args[4]@ == "64k"@,
        args[5]@ == mp3@,
{
    let mut args: Vec<String> = Vec::new();
    args.push(owned("-y"));
    args.push(owned("-i"));
    args.push(owned(wav));
    args.push(owned("-b:a"));
    args.push(owned("64k"));
    args.push(owned(mp3));
    args
}

/// The outcome of converting a capture: `ran` is `ffmpeg`'s exit success,
/// or the error that kept it from running.
pub fn conversion_result(ran: Result<bool, String>, mp3_path: String) -> (r: Result<String, String>)
    ensures
        match ran {
            Err(e) => r matches Err(m) && m@ == "Failed to run ffmpeg: "@ + e@,
            Ok(false) => r matches Err(m) && m@ == "ffmpeg conversion failed"@,
            Ok(true) => r matches Ok(p) && p@ == mp3_path@,
        },
{
    match ran {
        Err(e) => {
            let mut m = chars_of("Failed to run ffmpeg: ");
            push_str(&mut m, e.as_str());
            Err(string_from_chars(m.as_slice()))
        },
        Ok(false) => Err(owned("ffmpeg conversion failed")),
        Ok(true) => Ok(mp3_path),
    }
}

/// The capture to transcribe: the file that stopping handed out, or the
/// error reported when there is none.
pub fn recorded_audio(file: Option<String>) -> (r: Result<String, String>)
    ensures
        match file {
            Some(f) => r matches Ok(p) && p@ == f@,
            None => r matches Err(m) && m@ == "No audio file recorded"@,
        },
{
    match file {
        Some(f) => Ok(f),
        None => Err(owned("No audio file recorded")),
    }
}

} // verus!
