# cosmic-speech-to-text

A speech-to-text panel applet for the COSMIC desktop: record from the
microphone, have the recording transcribed, and type the text into the
focused window. A global hotkey (registered in COSMIC's custom shortcuts)
toggles recording.

The crate is written in Verus. `src/` is the verified library:

- `shortcut` — the custom-shortcuts file format (reading and writing its
  entries), hotkey parsing and display, conflict detection, and
  registering the applet's own shortcut.
- `roundtrip` — laws about the shortcut file: what is written reads back,
  what is read is clean, registering keeps the other entries and is
  found again.
- `applet` — the panel applet as a state machine (idle, recording,
  processing; popup; status line).
- `settings` — the settings window as a state machine.
- `audio` — the recorder's state, capture file names, MP3 conversion
  outcome.
- `config` — the stored settings: the transcription backend (Mistral,
  OpenAI or local whisper.cpp), its keys and paths, and the hotkey.
- `transcribe` — which backend a configuration chooses, what is sent to
  it, and how its reply or output becomes the text or an error.
- `deps`, `whisper_models` — required programs, the model list and
  paths, download outcomes and the whisper.cpp build order.
- `text` — string operations with specifications used by the rest.

`app/` is the program around the library: the COSMIC windows, file and
process I/O, audio capture and the HTTP request. It hands the library
plain values and carries out the commands the state machines return.
