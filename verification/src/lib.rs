//! Verified core of a speech-to-text panel applet: the shortcut file
//! format, hotkey parsing, the applet and settings state machines, and
//! the helpers that decide what to show and what to run.
pub mod text;
pub mod shortcut;
pub mod config;
pub mod deps;
pub mod whisper_models;
pub mod transcribe;
pub mod applet;
pub mod settings;
pub mod audio;
pub mod roundtrip;
