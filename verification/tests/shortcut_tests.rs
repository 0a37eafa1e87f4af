use cosmic_speech_to_text::shortcut::{
    canonical_modifier, check_conflict, extract_between, find_our_shortcut, format_entry, parse_hotkey, read_entries,
    set_shortcut, write_entries, Entry, HOTKEY_FORMAT_ERROR, OUR_COMMAND,
};

const SAMPLE: &str = "{\n    (\n        modifiers: [\n            Super,\n        ],\n        key: \"t\",\n        description: Some(\"Terminal\"),\n    ): Spawn(\"cosmic-term\"),\n    (\n        modifiers: [\n            Ctrl,\n        ],\n        key: \"y\",\n        description: Some(\"Speech to Text\"),\n    ): Spawn(\"cosmic-speech-to-text --toggle\"),\n}";

#[test]
fn parse_hotkey_splits_modifiers_and_key() {
    let (mods, key) = parse_hotkey("Ctrl+Shift+Y").unwrap();
    assert_eq!(mods, vec!["Ctrl".to_string(), "Shift".to_string()]);
    assert_eq!(key, "y");
}

#[test]
fn parse_hotkey_normalizes_modifier_names() {
    let (mods, key) = parse_hotkey(" control + win + logo + ALT + meta + K ").unwrap();
    assert_eq!(mods, vec!["Ctrl", "Super", "Super", "Alt", "Meta"]);
    assert_eq!(key, "k");
}

#[test]
fn parse_hotkey_rejects_a_lone_key() {
    assert_eq!(parse_hotkey("Y"), Err(HOTKEY_FORMAT_ERROR.to_string()));
    assert_eq!(parse_hotkey("").unwrap_err(), "Need at least modifier+key (e.g. Ctrl+Y)");
}

#[test]
fn read_entries_parses_sample() {
    let es = read_entries(SAMPLE);
    assert_eq!(es.len(), 2);
    assert_eq!(es[0].modifiers, vec!["Super"]);
    assert_eq!(es[0].key, "t");
    assert_eq!(es[0].description.as_deref(), Some("Terminal"));
    assert_eq!(es[0].command, "cosmic-term");
    assert_eq!(es[1].command, OUR_COMMAND);
}

#[test]
fn read_entries_of_empty_text_is_empty() {
    assert!(read_entries("").is_empty());
    assert!(read_entries("{\n}").is_empty());
}

#[test]
fn extract_between_takes_last_start_marker() {
    assert_eq!(extract_between("a[1] b[2]", "[", "]"), Some("2".to_string()));
    assert_eq!(extract_between("abc", "[", "]"), None);
    assert_eq!(extract_between("a[bc", "[", "]"), None);
}

#[test]
fn format_entry_uppercases_key() {
    let e = Entry {
        modifiers: vec!["Ctrl".to_string(), "Shift".to_string()],
        key: "y".to_string(),
        description: None,
        command: "x".to_string(),
    };
    assert_eq!(format_entry(&e), "Ctrl+Shift+Y");
}

#[test]
fn find_our_shortcut_in_sample() {
    assert_eq!(find_our_shortcut(SAMPLE), Some("Ctrl+Y".to_string()));
    assert_eq!(find_our_shortcut(""), None);
}

#[test]
fn check_conflict_reports_other_shortcut() {
    assert_eq!(check_conflict(SAMPLE, "super+T"), Some("Terminal".to_string()));
    assert_eq!(check_conflict(SAMPLE, "Ctrl+Y"), None);
    assert_eq!(check_conflict(SAMPLE, "T"), None);
    assert_eq!(check_conflict(SAMPLE, "Alt+T"), None);
}

#[test]
fn set_shortcut_replaces_ours_and_keeps_others() {
    let new = set_shortcut(SAMPLE, "Alt+Space").unwrap();
    let es = read_entries(&new);
    assert_eq!(es.len(), 2);
    assert_eq!(es[0].command, "cosmic-term");
    assert_eq!(es[1].modifiers, vec!["Alt"]);
    assert_eq!(es[1].key, "space");
    assert_eq!(find_our_shortcut(&new), Some("Alt+SPACE".to_string()));
}

#[test]
fn set_shortcut_rejects_lone_key() {
    assert_eq!(set_shortcut(SAMPLE, "Y"), Err(HOTKEY_FORMAT_ERROR.to_string()));
}

#[test]
fn write_then_read_round_trip() {
    let es = read_entries(SAMPLE);
    let text = write_entries(&es);
    assert_eq!(text, SAMPLE);
}

#[test]
fn set_shortcut_twice_changes_nothing_more() {
    let once = set_shortcut(SAMPLE, "Super+Shift+R").unwrap();
    let twice = set_shortcut(&once, "Super+Shift+R").unwrap();
    assert_eq!(once, twice);
    assert_eq!(find_our_shortcut(&twice), Some("Super+Shift+R".to_string()));
    assert_eq!(check_conflict(&twice, "Super+Shift+R"), None);
}

#[test]
fn set_shortcut_on_an_empty_file_registers_ours() {
    let written = set_shortcut("", "Ctrl+Y").unwrap();
    assert_eq!(find_our_shortcut(&written), Some("Ctrl+Y".to_string()));
    let entries = read_entries(&written);
    assert_eq!(entries.len(), 1);
    assert_eq!(entries[0].command, OUR_COMMAND);
}

#[test]
fn canonical_modifier_spellings() {
    assert_eq!(canonical_modifier("control"), "Ctrl");
    assert_eq!(canonical_modifier("ctrl"), "Ctrl");
    assert_eq!(canonical_modifier("shift"), "Shift");
    assert_eq!(canonical_modifier("alt"), "Alt");
    assert_eq!(canonical_modifier("logo"), "Super");
    assert_eq!(canonical_modifier("win"), "Super");
    assert_eq!(canonical_modifier("meta"), "Meta");
    assert_eq!(canonical_modifier("ßx"), "SSx");
    assert_eq!(canonical_modifier(""), "");
}

#[test]
fn check_conflict_ignores_modifier_order() {
    let content = "{\n    (\n        modifiers: [\n            Shift,\n            Ctrl,\n        ],\n        key: \"y\",\n        description: Some(\"Other\"),\n    ): Spawn(\"other-app\"),\n}";
    assert_eq!(check_conflict(content, "Ctrl+Shift+Y"), Some("Other".to_string()));
    assert_eq!(check_conflict(content, "shift+ctrl+y"), Some("Other".to_string()));
    assert_eq!(check_conflict(content, "Ctrl+Y"), None);
    assert_eq!(check_conflict(content, "Ctrl+Shift+Alt+Y"), None);
}

#[test]
fn parse_hotkey_has_one_modifier_per_plus() {
    for h in ["Ctrl+Y", "Ctrl+Shift+Y", "a+b+c+d", "Ctrl++", "+"] {
        let (mods, key) = parse_hotkey(h).unwrap();
        assert_eq!(mods.len(), h.matches('+').count());
        assert_eq!(key, h.rsplit('+').next().unwrap().trim().to_lowercase());
    }
    assert_eq!(parse_hotkey("Y"), Err(HOTKEY_FORMAT_ERROR.to_string()));
    assert_eq!(parse_hotkey(""), Err(HOTKEY_FORMAT_ERROR.to_string()));
}

fn entry(mods: &[&str], key: &str, description: Option<&str>, command: &str) -> Entry {
    Entry {
        modifiers: mods.iter().map(|m| m.to_string()).collect(),
        key: key.to_string(),
        description: description.map(|d| d.to_string()),
        command: command.to_string(),
    }
}

fn same_entries(a: &[Entry], b: &[Entry]) -> bool {
    a.len() == b.len()
        && a.iter().zip(b).all(|(x, y)| {
            x.modifiers == y.modifiers
                && x.key == y.key
                && x.description == y.description
                && x.command == y.command
        })
}

#[test]
fn written_entries_read_back_with_unusual_text() {
    let es = vec![
        entry(&["A\"b", "Ctrl"], "xSome(", None, "run-a"),
        entry(&["Super"], "k", Some("Say \"hi\""), "run-b --flag"),
        entry(&[], "q", None, "run-c"),
    ];
    let back = read_entries(&write_entries(&es));
    assert!(same_entries(&back, &es));
}

#[test]
fn read_entries_are_clean() {
    let text = "{ ( modifiers: [ , Ctrl , ,Alt ], key: \"\", ): Spawn(\"x\"), ( modifiers: [ Super ], key: \"t\", ): Spawn(\"term\"), (key: \"z\" ): Spawn(\"unterminated";
    let es = read_entries(text);
    assert_eq!(es.len(), 1);
    assert_eq!(es[0].modifiers, vec!["Super".to_string()]);
    assert_eq!(es[0].key, "t");
    assert_eq!(es[0].command, "term");
    assert!(es.len() < text.matches("Spawn(\"").count() + 1);
}

#[test]
fn command_ending_in_some_reads_back() {
    let es = vec![
        entry(&["Ctrl"], "a", None, "echo Some("),
        entry(&["Alt"], "b", None, "next"),
        entry(&["Super"], "c", Some("d"), "x Some("),
        entry(&[], ")k", Some("desc"), "y"),
    ];
    let back = read_entries(&write_entries(&es));
    assert!(same_entries(&back, &es));
    // The one case that does not read back: after such a command, an entry
    // without description whose key starts with `)`.
    let bad = vec![entry(&["Ctrl"], "a", None, "echo Some("), entry(&[], ")k", None, "z")];
    let back = read_entries(&write_entries(&bad));
    assert!(!same_entries(&back, &bad));
}
