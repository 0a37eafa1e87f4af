//! Which service transcribes a recording, what is sent to it, and how its
//! reply is turned into the transcribed text or an error message.
use vstd::prelude::*;
use crate::config::{Config, TranscribeMode};
use crate::shortcut::owned;
use crate::text::{chars_of, push_str, string_from_chars, trim, trim_exec};

verus! {

/// A transcription service reached over HTTP.
#[derive(Debug, Clone, Copy, PartialEq, Eq, Structural)]
pub enum Service {
    Mistral,
    OpenAI,
}

/// Where recordings go: an online service with its API key, or the local
/// whisper.cpp program with a model file.
pub enum Backend {
    Online { service: Service, api_key: String },
    Local { program: String, model: String },
}

/// The backend that the configuration chooses.
pub fn backend_for(config: &Config) -> (r: Backend)
    ensures
        match config@.mode {
            TranscribeMode::Mistral => r matches Backend::Online { service, api_key }
                && service == Service::Mistral && api_key@ == config@.mistral_api_key,
            TranscribeMode::OpenAI => r matches Backend::Online { service, api_key }
                && service == Service::OpenAI && api_key@ == config@.openai_api_key,
            TranscribeMode::LocalWhisper => r matches Backend::Local { program, model }
                && program@ == config@.whisper_cpp_path && model@ == config@.whisper_model_path,
        },
{
    match config.mode {
        TranscribeMode::Mistral => Backend::Online {
            service: Service::Mistral,
            api_key: config.mistral_api_key.clone(),
        },
        TranscribeMode::OpenAI => Backend::Online {
            service: Service::OpenAI,
            api_key: config.openai_api_key.clone(),
        },
        TranscribeMode::LocalWhisper => Backend::Local {
            program: config.whisper_cpp_path.clone(),
            model: config.whisper_model_path.clone(),
        },
    }
}

/// Where the audio is sent, and the model asked for.
pub open spec fn spec_endpoint(s: Service) -> (Seq<char>, Seq<char>) {
    match s {
        Service::Mistral => (
            "https://api.mistral.ai/v1/audio/transcriptions"@,
            "voxtral-mini-2507"@,
        ),
        Service::OpenAI => ("https://api.openai.com/v1/audio/transcriptions"@, "whisper-1"@),
    }
}

pub fn endpoint(s: Service) -> (r: (&'static str, &'static str))
    ensures
        (r.0@, r.1@) == spec_endpoint(s),
{
    match s {
        Service::Mistral => ("https://api.mistral.ai/v1/audio/transcriptions", "voxtral-mini-2507"),
        Service::OpenAI => ("https://api.openai.com/v1/audio/transcriptions", "whisper-1"),
    }
}

/// The header that carries the API key: `x-api-key` for Mistral, a bearer
/// token for OpenAI.
pub open spec fn spec_auth_header(s: Service, key: Seq<char>) -> (Seq<char>, Seq<char>) {
    match s {
        Service::Mistral => ("x-api-key"@, key),
        Service::OpenAI => ("Authorization"@, "Bearer "@ + key),
    }
}

pub fn auth_header(s: Service, key: &str) -> (r: (String, String))
    ensures
        (r.0@, r.1@) == spec_auth_header(s, key@),
{
    match s {
        Service::Mistral => (owned("x-api-key"), owned(key)),
        Service::OpenAI => (owned("Authorization"), prefixed("Bearer ", key)),
    }
}

/// How a service's error replies are introduced.
pub open spec fn api_error_prefix(s: Service) -> Seq<char> {
    match s {
        Service::Mistral => "Mistral API error: "@,
        Service::OpenAI => "OpenAI API error: "@,
    }
}

/// What parsing `body` as JSON with `serde_json` and looking up the
/// top-level member `key` gives: `None` when the body is not JSON,
/// `Some(None)` when there is no string member of that name, else the
/// string it holds.
pub uninterp spec fn spec_json_str_member(body: Seq<char>, key: Seq<char>) -> Option<Option<Seq<char>>>;

pub open spec fn str_member_view(r: Option<Option<String>>) -> Option<Option<Seq<char>>> {
    match r {
        Some(Some(t)) => Some(Some(t@)),
        Some(None) => Some(None),
        None => None,
    }
}

/// Calls `serde_json::from_str::<serde_json::Value>` on `body` and reads
/// `value[key].as_str()`; a parse error gives `None`. The outcome is named
/// `spec_json_str_member` of the body and the key; nothing is claimed of
/// what it is on given values.
#[verifier::external_body]
fn parse_str_member(body: &str, key: &str) -> (r: Option<Option<String>>)
    ensures
        str_member_view(r) == spec_json_str_member(body@, key@),
{
    match serde_json::from_str::<serde_json::Value>(body) {
        Ok(v) => Some(v[key].as_str().map(|s| s.to_string())),
        Err(_) => None,
    }
}

/// The member of the service's reply that holds the transcription.
pub const TEXT_MEMBER: &'static str = "text";

/// The message given for a successful reply that is not JSON.
pub const DECODE_ERROR: &'static str = "error decoding response body";

/// The transcription for a reply with the given success status and body,
/// once the body has been parsed (`parsed` is what
/// `spec_json_str_member` gives for it and `text`): the `text` member
/// (empty when missing) of a successful reply, else an error message.
pub open spec fn spec_transcription_from(
    service: Service,
    success: bool,
    body: Seq<char>,
    parsed: Option<Option<Seq<char>>>,
) -> Result<Seq<char>, Seq<char>> {
    if success {
        match parsed {
            Some(Some(t)) => Ok(t),
            Some(None) => Ok(Seq::empty()),
            None => Err("Failed to parse response: "@ + DECODE_ERROR@),
        }
    } else {
        Err(api_error_prefix(service) + body)
    }
}

pub open spec fn string_result_view(r: Result<String, String>) -> Result<Seq<char>, Seq<char>> {
    match r {
        Ok(s) => Ok(s@),
        Err(e) => Err(e@),
    }
}

fn prefixed(prefix: &str, e: &str) -> (r: String)
    ensures
        r@ == prefix@ + e@,
{
    let mut m = chars_of(prefix);
    push_str(&mut m, e);
    string_from_chars(m.as_slice())
}

/// The transcription for a reply whose body has already been parsed:
/// the `text` member (empty when missing) of a successful reply, else an
/// error message.
pub fn transcription_from(
    service: Service,
    success: bool,
    body: &str,
    parsed: Option<Option<String>>,
) -> (r: Result<String, String>)
    ensures
        string_result_view(r) == spec_transcription_from(
            service,
            success,
            body@,
            str_member_view(parsed),
        ),
{
    if success {
        match parsed {
            Some(Some(t)) => Ok(t),
            Some(None) => Ok(String::new()),
            None => Err(prefixed("Failed to parse response: ", DECODE_ERROR)),
        }
    } else {
        match service {
            Service::Mistral => Err(prefixed("Mistral API error: ", body)),
            Service::OpenAI => Err(prefixed("OpenAI API error: ", body)),
        }
    }
}

/// The transcription for a reply of the service: `success` is whether
/// its HTTP status is a success, `body` its text.
pub fn transcription_result(service: Service, success: bool, body: &str) -> (r: Result<
    String,
    String,
>)
    ensures
        string_result_view(r) == spec_transcription_from(
            service,
            success,
            body@,
            spec_json_str_member(body@, TEXT_MEMBER@),
        ),
{
    if success {
        let parsed = parse_str_member(body, TEXT_MEMBER);
        transcription_from(service, true, body, parsed)
    } else {
        transcription_from(service, false, body, Some(None))
    }
}

/// The arguments of the whisper.cpp run that transcribes `wav` with the
/// model file `model`, printing the text without timestamps.
pub fn whisper_cpp_args(model: &str, wav: &str) -> (args: Vec<String>)
    ensures
        args.len() == 5,
        args[0]@ == "-m"@,
        args[1]@ == model@,
        args[2]@ == "-f"@,
        args[3]@ == wav@,
        args[4]@ == "-nt"@,
{
    let mut args: Vec<String> = Vec::new();
    args.push(owned("-m"));
    args.push(owned(model));
    args.push(owned("-f"));
    args.push(owned(wav));
    args.push(owned("-nt"));
    args
}

/// The transcription that a whisper.cpp run gives: `ran` is its exit
/// success and what it printed, or the error that kept it from running.
/// The printed text is trimmed.
pub fn local_transcription_result(ran: Result<(bool, String), String>) -> (r: Result<String, String>)
    ensures
        match ran {
            Err(e) => r matches Err(m) && m@ == "Failed to run whisper.cpp: "@ + e@,
            Ok((false, _)) => r matches Err(m) && m@ == "whisper.cpp failed"@,
            Ok((true, out)) => r matches Ok(t) && t@ == trim(out@),
        },
{
    match ran {
        Err(e) => Err(prefixed("Failed to run whisper.cpp: ", e.as_str())),
        Ok((false, _)) => Err(owned("whisper.cpp failed")),
        Ok((true, out)) => {
            let cs = chars_of(out.as_str());
            let t = trim_exec(cs.as_slice());
            Ok(string_from_chars(t.as_slice()))
        },
    }
}

} // verus!
