//! The custom-shortcut file of the COSMIC settings (a RON map from key
//! bindings to `Spawn("command")` actions): reading its entries, writing
//! them back, parsing hotkeys such as `Ctrl+Shift+Y`, and the three
//! operations the applet offers on it.
//!
//! Every operation here takes the file's text and, where it changes the
//! file, returns the new text; reading and writing the file is left to
//! the caller.
use vstd::prelude::*;
use crate::text::{
    chars_eq, chars_eq_str, chars_of, copy_range, join, join_exec, lowercase, push_all, push_str,
    spec_char_to_uppercase, spec_str_to_lowercase, spec_str_to_uppercase, uppercase, uppercase_char, find, find_exec, rfind, rfind_exec, split, split_exec, string_from_chars,
    trim, trim_exec, count_char, has_char, lemma_split_char_len,
};

verus! {

/// The command that our shortcut runs.
pub const OUR_COMMAND: &'static str = "cosmic-speech-to-text --toggle";

/// The description written for our shortcut.
pub const OUR_DESCRIPTION: &'static str = "Speech to Text";

/// The message for a hotkey without a modifier.
pub const HOTKEY_FORMAT_ERROR: &'static str = "Need at least modifier+key (e.g. Ctrl+Y)";

/// A shortcut entry of the file.
pub struct Entry {
    pub modifiers: Vec<String>,
    pub key: String,
    pub description: Option<String>,
    pub command: String,
}

/// The abstract value of an entry.
pub struct EntryView {
    pub modifiers: Seq<Seq<char>>,
    pub key: Seq<char>,
    pub description: Option<Seq<char>>,
    pub command: Seq<char>,
}

pub open spec fn strings_view(v: Seq<String>) -> Seq<Seq<char>> {
    v.map_values(|m: String| m@)
}

proof fn lemma_strings_view_push(v: Seq<String>, s: String)
    ensures
        strings_view(v.push(s)) == strings_view(v).push(s@),
{
    assert(strings_view(v.push(s)) =~= strings_view(v).push(s@));
}

pub open spec fn opt_string_view(o: Option<String>) -> Option<Seq<char>> {
    match o {
        Some(s) => Some(s@),
        None => None,
    }
}

impl View for Entry {
    type V = EntryView;

    open spec fn view(&self) -> EntryView {
        EntryView {
            modifiers: strings_view(self.modifiers@),
            key: self.key@,
            description: opt_string_view(self.description),
            command: self.command@,
        }
    }
}

pub open spec fn entries_view(v: Seq<Entry>) -> Seq<EntryView> {
    v.map_values(|e: Entry| e@)
}

// ---------------------------------------------------------------------
// Markers of the file format
// ---------------------------------------------------------------------

pub open spec fn spawn_marker() -> Seq<char> {
    seq!['S', 'p', 'a', 'w', 'n', '(', '"']
}

pub open spec fn key_marker() -> Seq<char> {
    seq!['k', 'e', 'y', ':', ' ', '"']
}

pub open spec fn some_marker() -> Seq<char> {
    seq!['S', 'o', 'm', 'e', '(', '"']
}

pub open spec fn close_marker() -> Seq<char> {
    seq!['"', ')']
}

pub open spec fn quote() -> Seq<char> {
    seq!['"']
}

fn spawn_marker_exec() -> (r: Vec<char>)
    ensures
        r@ == spawn_marker(),
{
    let r = vec!['S', 'p', 'a', 'w', 'n', '(', '"'];
    assert(r@ =~= spawn_marker());
    r
}

fn key_marker_exec() -> (r: Vec<char>)
    ensures
        r@ == key_marker(),
{
    let r = vec!['k', 'e', 'y', ':', ' ', '"'];
    assert(r@ =~= key_marker());
    r
}

fn some_marker_exec() -> (r: Vec<char>)
    ensures
        r@ == some_marker(),
{
    let r = vec!['S', 'o', 'm', 'e', '(', '"'];
    assert(r@ =~= some_marker());
    r
}

fn close_marker_exec() -> (r: Vec<char>)
    ensures
        r@ == close_marker(),
{
    let r = vec!['"', ')'];
    assert(r@ =~= close_marker());
    r
}

// ---------------------------------------------------------------------
// Reading
// ---------------------------------------------------------------------

/// The text between the last `start_marker` of `text` and the first
/// `end_marker` after it.
pub open spec fn spec_extract_between(
    text: Seq<char>,
    start_marker: Seq<char>,
    end_marker: Seq<char>,
) -> Option<Seq<char>> {
    match rfind(text, start_marker) {
        None => None,
        Some(p) => {
            let rest = text.subrange(p + start_marker.len(), text.len() as int);
            match find(rest, end_marker) {
                None => None,
                Some(e) => Some(rest.subrange(0, e)),
            }
        },
    }
}

/// The trimmed, non-empty pieces of `parts`, in order.
pub open spec fn clean_pieces(parts: Seq<Seq<char>>) -> Seq<Seq<char>>
    decreases parts.len(),
{
    if parts.len() == 0 {
        Seq::empty()
    } else {
        let rest = clean_pieces(parts.drop_last());
        let t = trim(parts.last());
        if t.len() > 0 {
            rest.push(t)
        } else {
            rest
        }
    }
}

/// The modifiers listed between the last `[` and the last `]` of a block.
pub open spec fn parse_modifiers(block: Seq<char>) -> Seq<Seq<char>> {
    match (rfind(block, seq!['[']), rfind(block, seq![']'])) {
        (Some(s), Some(e)) => if s < e {
            clean_pieces(split(block.subrange(s + 1, e), seq![',']))
        } else {
            Seq::empty()
        },
        _ => Seq::empty(),
    }
}

/// The entry described by the text before a `Spawn("` and the text after it.
pub open spec fn parse_pair(before: Seq<char>, after: Seq<char>) -> Option<EntryView> {
    match find(after, quote()) {
        None => None,
        Some(end) => {
            let key = match spec_extract_between(before, key_marker(), quote()) {
                Some(k) => k,
                None => Seq::empty(),
            };
            if key.len() == 0 {
                None
            } else {
                Some(
                    EntryView {
                        modifiers: parse_modifiers(before),
                        key,
                        description: spec_extract_between(before, some_marker(), close_marker()),
                        command: after.subrange(0, end),
                    },
                )
            }
        },
    }
}

/// The entries described by consecutive pairs of blocks.
pub open spec fn parse_blocks(blocks: Seq<Seq<char>>) -> Seq<EntryView>
    decreases blocks.len(),
{
    if blocks.len() < 2 {
        Seq::empty()
    } else {
        let rest = parse_blocks(blocks.drop_last());
        match parse_pair(blocks[blocks.len() - 2], blocks.last()) {
            Some(e) => rest.push(e),
            None => rest,
        }
    }
}

/// The entries that the shortcut file `content` holds.
pub open spec fn parse_entries(content: Seq<char>) -> Seq<EntryView> {
    parse_blocks(split(content, spawn_marker()))
}

fn chars_to_string_opt(o: Option<Vec<char>>) -> (r: Option<String>)
    ensures
        opt_string_view(r) == match o {
            Some(v) => Some(v@),
            None => None::<Seq<char>>,
        },
{
    match o {
        Some(v) => Some(string_from_chars(v.as_slice())),
        None => None,
    }
}

fn extract_between_chars(text: &[char], start_marker: &[char], end_marker: &[char]) -> (r: Option<
    Vec<char>,
>)
    ensures
        match r {
            Some(v) => spec_extract_between(text@, start_marker@, end_marker@) == Some(v@),
            None => spec_extract_between(text@, start_marker@, end_marker@) is None,
        },
{
    match rfind_exec(text, start_marker) {
        None => None,
        Some(p) => {
            assert(text@.len() == text.len());
            let start: usize = p + start_marker.len();
            let rest = copy_range(text, start, text.len());
            match find_exec(rest.as_slice(), end_marker) {
                None => None,
                Some(e) => Some(copy_range(rest.as_slice(), 0, e)),
            }
        },
    }
}

/// The text between the last `start_marker` of `text` and the first
/// `end_marker` after it, if both are there.
pub fn extract_between(text: &str, start_marker: &str, end_marker: &str) -> (r: Option<String>)
    ensures
        opt_string_view(r) == spec_extract_between(text@, start_marker@, end_marker@),
{
    let t = chars_of(text);
    let s = chars_of(start_marker);
    let e = chars_of(end_marker);
    chars_to_string_opt(extract_between_chars(t.as_slice(), s.as_slice(), e.as_slice()))
}

fn parse_modifiers_exec(block: &[char]) -> (r: Vec<String>)
    ensures
        strings_view(r@) == parse_modifiers(block@),
{
    let open = vec!['['];
    let close = vec![']'];
    let comma = vec![','];
    assert(open@ =~= seq!['[']);
    assert(close@ =~= seq![']']);
    assert(comma@ =~= seq![',']);
    let s = rfind_exec(block, open.as_slice());
    let e = rfind_exec(block, close.as_slice());
    let mut r: Vec<String> = Vec::new();
    match (s, e) {
        (Some(s), Some(e)) => {
            if s < e {
                let inner = copy_range(block, s + 1, e);
                let parts = split_exec(inner.as_slice(), comma.as_slice());
                let ghost pv = parts@.map_values(|v: Vec<char>| v@);
                let mut i: usize = 0;
                assert(pv.subrange(0, 0) =~= Seq::<Seq<char>>::empty());
                assert(strings_view(r@) =~= Seq::<Seq<char>>::empty());
                while i < parts.len()
                    invariant
                        pv == parts@.map_values(|v: Vec<char>| v@),
                        i <= parts@.len(),
                        strings_view(r@) == clean_pieces(pv.subrange(0, i as int)),
                    decreases parts.len() - i,
                {
                    let t = trim_exec(parts[i].as_slice());
                    assert(pv.subrange(0, i + 1).drop_last() =~= pv.subrange(0, i as int));
                    assert(pv.subrange(0, i + 1).last() == parts@[i as int]@);
                    if t.len() > 0 {
                        let ghost old_r = r@;
                        r.push(string_from_chars(t.as_slice()));
                        assert(strings_view(r@) =~= strings_view(old_r).push(t@));
                    }
                    i += 1;
                }
                assert(pv.subrange(0, pv.len() as int) =~= pv);
            } else {
                assert(strings_view(r@) =~= Seq::<Seq<char>>::empty());
            }
        },
        _ => {
            assert(strings_view(r@) =~= Seq::<Seq<char>>::empty());
        },
    }
    r
}

fn parse_pair_exec(before: &[char], after: &[char]) -> (r: Option<Entry>)
    ensures
        match r {
            Some(e) => parse_pair(before@, after@) == Some(e@),
            None => parse_pair(before@, after@) is None,
        },
{
    let q = vec!['"'];
    assert(q@ =~= quote());
    let end = match find_exec(after, q.as_slice()) {
        Some(end) => end,
        None => return None,
    };
    let command = copy_range(after, 0, end);
    let km = key_marker_exec();
    let key = match extract_between_chars(before, km.as_slice(), q.as_slice()) {
        Some(k) => k,
        None => Vec::new(),
    };
    if key.len() == 0 {
        return None;
    }
    let modifiers = parse_modifiers_exec(before);
    let sm = some_marker_exec();
    let cm = close_marker_exec();
    let description = chars_to_string_opt(extract_between_chars(before, sm.as_slice(), cm.as_slice()));
    let e = Entry {
        modifiers,
        key: string_from_chars(key.as_slice()),
        description,
        command: string_from_chars(command.as_slice()),
    };
    Some(e)
}

proof fn lemma_parse_blocks_step(bv: Seq<Seq<char>>, i: int)
    requires
        0 <= i,
        i + 2 <= bv.len(),
    ensures
        parse_blocks(bv.subrange(0, i + 2)) == match parse_pair(bv[i], bv[i + 1]) {
            Some(e) => parse_blocks(bv.subrange(0, i + 1)).push(e),
            None => parse_blocks(bv.subrange(0, i + 1)),
        },
{
    let sub = bv.subrange(0, i + 2);
    assert(sub.drop_last() =~= bv.subrange(0, i + 1));
    assert(sub[sub.len() - 2] == bv[i]);
    assert(sub.last() == bv[i + 1]);
}

/// Parses the entries of the shortcut file `content`: each `Spawn("cmd")`
/// action together with the modifiers, key and description before it.
/// Blocks without a closing quote after the command, or without a key,
/// are skipped.
pub fn read_entries(content: &str) -> (r: Vec<Entry>)
    ensures
        entries_view(r@) == parse_entries(content@),
{
    let cs = chars_of(content);
    let sm = spawn_marker_exec();
    let blocks = split_exec(cs.as_slice(), sm.as_slice());
    let ghost bv = blocks@.map_values(|v: Vec<char>| v@);
    let mut r: Vec<Entry> = Vec::new();
    let mut i: usize = 0;
    assert(entries_view(r@) =~= Seq::<EntryView>::empty());
    assert(bv.len() >= 1);
    while i + 1 < blocks.len()
        invariant
            bv == blocks@.map_values(|v: Vec<char>| v@),
            bv.len() >= 1,
            i + 1 <= bv.len(),
            entries_view(r@) == parse_blocks(bv.subrange(0, i + 1)),
        decreases blocks.len() - i,
    {
        proof { lemma_parse_blocks_step(bv, i as int); }
        let ghost old_r = r@;
        let p = parse_pair_exec(blocks[i].as_slice(), blocks[i + 1].as_slice());
        match p {
            Some(e) => {
                r.push(e);
                assert(entries_view(r@) =~= entries_view(old_r).push(e@));
            },
            None => {},
        }
        i += 1;
    }
    assert(bv.subrange(0, bv.len() as int) =~= bv);
    r
}

// ---------------------------------------------------------------------
// Writing
// ---------------------------------------------------------------------

/// The lines listing `mods` inside the modifiers brackets.
pub open spec fn serialize_modifiers(mods: Seq<Seq<char>>) -> Seq<char>
    decreases mods.len(),
{
    if mods.len() == 0 {
        Seq::empty()
    } else {
        serialize_modifiers(mods.drop_last()) + "            "@ + mods.last() + ",\n"@
    }
}

/// The line holding the description of an entry.
pub open spec fn serialize_description(d: Option<Seq<char>>) -> Seq<char> {
    match d {
        Some(desc) => "        description: Some(\""@ + desc + "\"),\n"@,
        None => "        description: None,\n"@,
    }
}

/// The text of one entry of the file.
pub open spec fn serialize_entry(e: EntryView) -> Seq<char> {
    "    (\n"@ + "        modifiers: [\n"@ + serialize_modifiers(e.modifiers) + "        ],\n"@
        + "        key: \""@ + e.key + "\",\n"@ + serialize_description(e.description)
        + "    ): Spawn(\""@ + e.command + "\"),\n"@
}

/// The texts of `es`, one after the other.
pub open spec fn serialize_all(es: Seq<EntryView>) -> Seq<char>
    decreases es.len(),
{
    if es.len() == 0 {
        Seq::empty()
    } else {
        serialize_all(es.drop_last()) + serialize_entry(es.last())
    }
}

/// The shortcut file holding `es`.
pub open spec fn serialize(es: Seq<EntryView>) -> Seq<char> {
    "{\n"@ + serialize_all(es) + "}"@
}

fn push_modifiers(r: &mut Vec<char>, mods: &Vec<String>)
    ensures
        final(r)@ == old(r)@ + serialize_modifiers(strings_view(mods@)),
{
    let ghost start = r@;
    let ghost mv = strings_view(mods@);
    let mut i: usize = 0;
    assert(mv.subrange(0, 0) =~= Seq::<Seq<char>>::empty());
    assert(r@ =~= start + serialize_modifiers(mv.subrange(0, 0)));
    while i < mods.len()
        invariant
            mv == strings_view(mods@),
            i <= mods@.len(),
            r@ == start + serialize_modifiers(mv.subrange(0, i as int)),
        decreases mods.len() - i,
    {
        assert(mv.subrange(0, i + 1).drop_last() =~= mv.subrange(0, i as int));
        assert(mv.subrange(0, i + 1).last() == mods@[i as int]@);
        push_str(r, "            ");
        push_str(r, mods[i].as_str());
        push_str(r, ",\n");
        i += 1;
        assert(r@ =~= start + serialize_modifiers(mv.subrange(0, i as int)));
    }
    assert(mv.subrange(0, mv.len() as int) =~= mv);
}

fn push_entry(r: &mut Vec<char>, e: &Entry)
    ensures
        final(r)@ == old(r)@ + serialize_entry(e@),
{
    let ghost start = r@;
    push_str(r, "    (\n");
    push_str(r, "        modifiers: [\n");
    push_modifiers(r, &e.modifiers);
    push_str(r, "        ],\n");
    push_str(r, "        key: \"");
    push_str(r, e.key.as_str());
    push_str(r, "\",\n");
    match &e.description {
        Some(desc) => {
            push_str(r, "        description: Some(\"");
            push_str(r, desc.as_str());
            push_str(r, "\"),\n");
        },
        None => {
            push_str(r, "        description: None,\n");
        },
    }
    push_str(r, "    ): Spawn(\"");
    push_str(r, e.command.as_str());
    push_str(r, "\"),\n");
    assert(r@ =~= start + serialize_entry(e@));
}

/// The text of a shortcut file holding `entries`, in the layout COSMIC
/// writes.
pub fn write_entries(entries: &[Entry]) -> (r: String)
    ensures
        r@ == serialize(entries_view(entries@)),
{
    let mut r: Vec<char> = Vec::new();
    push_str(&mut r, "{\n");
    let ghost ev = entries_view(entries@);
    let mut i: usize = 0;
    assert(ev.subrange(0, 0) =~= Seq::<EntryView>::empty());
    assert(r@ =~= "{\n"@ + serialize_all(ev.subrange(0, 0)));
    while i < entries.len()
        invariant
            ev == entries_view(entries@),
            i <= entries@.len(),
            r@ == "{\n"@ + serialize_all(ev.subrange(0, i as int)),
        decreases entries.len() - i,
    {
        assert(ev.subrange(0, i + 1).drop_last() =~= ev.subrange(0, i as int));
        assert(ev.subrange(0, i + 1).last() == entries@[i as int]@);
        push_entry(&mut r, &entries[i]);
        i += 1;
        assert(r@ =~= "{\n"@ + serialize_all(ev.subrange(0, i as int)));
    }
    push_str(&mut r, "}");
    assert(ev.subrange(0, ev.len() as int) =~= ev);
    assert(r@ =~= serialize(ev));
    string_from_chars(r.as_slice())
}

// ---------------------------------------------------------------------
// Hotkeys
// ---------------------------------------------------------------------

/// The canonical spelling of a modifier, given its lower-cased name:
/// the known names get their fixed spelling, any other name its first
/// character upper-cased.
pub open spec fn spec_canonical_modifier(l: Seq<char>) -> Seq<char> {
    if l == "ctrl"@ || l == "control"@ {
        "Ctrl"@
    } else if l == "shift"@ {
        "Shift"@
    } else if l == "alt"@ {
        "Alt"@
    } else if l == "super"@ || l == "logo"@ || l == "win"@ {
        "Super"@
    } else if l.len() == 0 {
        l
    } else {
        spec_char_to_uppercase(l[0]) + l.drop_first()
    }
}

/// The canonical spelling of a modifier typed by the user.
pub open spec fn normalize_modifier(m: Seq<char>) -> Seq<char> {
    spec_canonical_modifier(spec_str_to_lowercase(m))
}

/// The trimmed `+`-separated parts of a hotkey.
pub open spec fn hotkey_parts(h: Seq<char>) -> Seq<Seq<char>> {
    split(h, seq!['+']).map_values(|p: Seq<char>| trim(p))
}

/// A hotkey such as `Ctrl+Shift+Y` as its modifiers (canonically
/// spelled) and its lower-cased key, or the error for a hotkey without
/// a modifier.
pub open spec fn spec_parse_hotkey(h: Seq<char>) -> Result<(Seq<Seq<char>>, Seq<char>), Seq<char>> {
    let parts = hotkey_parts(h);
    if parts.len() < 2 {
        Err(HOTKEY_FORMAT_ERROR@)
    } else {
        Ok(
            (
                parts.drop_last().map_values(|m: Seq<char>| normalize_modifier(m)),
                spec_str_to_lowercase(parts.last()),
            ),
        )
    }
}

pub open spec fn hotkey_view(r: Result<(Vec<String>, String), String>) -> Result<
    (Seq<Seq<char>>, Seq<char>),
    Seq<char>,
> {
    match r {
        Ok((m, k)) => Ok((strings_view(m@), k@)),
        Err(e) => Err(e@),
    }
}

/// A `String` holding the characters of `s`.
pub fn owned(s: &str) -> (r: String)
    ensures
        r@ == s@,
{
    let cs = chars_of(s);
    string_from_chars(cs.as_slice())
}

/// Whether two strings hold the same characters.
pub fn str_eq(a: &str, b: &str) -> (r: bool)
    ensures
        r == (a@ == b@),
{
    let ac = chars_of(a);
    chars_eq_str(ac.as_slice(), b)
}

/// The canonical spelling of a modifier, given its lower-cased name, such
/// as `Ctrl` for `control`.
pub fn canonical_modifier(lower: &str) -> (r: String)
    ensures
        r@ == spec_canonical_modifier(lower@),
{
    let l = chars_of(lower);
    if chars_eq_str(l.as_slice(), "ctrl") || chars_eq_str(l.as_slice(), "control") {
        owned("Ctrl")
    } else if chars_eq_str(l.as_slice(), "shift") {
        owned("Shift")
    } else if chars_eq_str(l.as_slice(), "alt") {
        owned("Alt")
    } else if chars_eq_str(l.as_slice(), "super") || chars_eq_str(l.as_slice(), "logo")
        || chars_eq_str(l.as_slice(), "win") {
        owned("Super")
    } else if l.len() == 0 {
        owned(lower)
    } else {
        let mut r = uppercase_char(l[0]);
        let rest = copy_range(l.as_slice(), 1, l.len());
        push_all(&mut r, rest.as_slice());
        assert(rest@ =~= l@.drop_first());
        string_from_chars(r.as_slice())
    }
}

fn normalize_modifier_exec(m: &[char]) -> (r: String)
    ensures
        r@ == normalize_modifier(m@),
{
    let l = lowercase(m);
    let ls = string_from_chars(l.as_slice());
    canonical_modifier(ls.as_str())
}

/// Parses `Ctrl+Shift+Y` into the modifiers `["Ctrl", "Shift"]` and the
/// key `y`. Parts are trimmed; known modifier names (`ctrl`, `control`,
/// `shift`, `alt`, `super`, `logo`, `win`, in any case) get their
/// canonical spelling, others are lower-cased with the first letter
/// upper-cased.
pub fn parse_hotkey(hotkey: &str) -> (r: Result<(Vec<String>, String), String>)
    ensures
        hotkey_view(r) == spec_parse_hotkey(hotkey@),
{
    let hs = chars_of(hotkey);
    let plus = vec!['+'];
    assert(plus@ =~= seq!['+']);
    let raw = split_exec(hs.as_slice(), plus.as_slice());
    let ghost rv = raw@.map_values(|v: Vec<char>| v@);
    let ghost parts = hotkey_parts(hotkey@);
    assert(parts.len() == rv.len());
    if raw.len() < 2 {
        return Err(owned(HOTKEY_FORMAT_ERROR));
    }
    let n = raw.len();
    let mut mods: Vec<String> = Vec::new();
    let mut i: usize = 0;
    while i + 1 < n
        invariant
            n == raw@.len(),
            n >= 2,
            rv == raw@.map_values(|v: Vec<char>| v@),
            parts == rv.map_values(|p: Seq<char>| trim(p)),
            i + 1 <= n,
            mods@.len() == i,
            strings_view(mods@) == parts.subrange(0, i as int).map_values(
                |m: Seq<char>| normalize_modifier(m),
            ),
        decreases n - i,
    {
        let t = trim_exec(raw[i].as_slice());
        let m = normalize_modifier_exec(t.as_slice());
        let ghost old_m = mods@;
        let ghost mview = m@;
        mods.push(m);
        proof { lemma_strings_view_push(old_m, mods@[i as int]); }
        assert(mods@ == old_m.push(mods@[i as int]));
        assert(mview == normalize_modifier(parts[i as int]));
        i += 1;
        assert(strings_view(mods@) =~= parts.subrange(0, i as int).map_values(
            |m: Seq<char>| normalize_modifier(m),
        ));
    }
    assert(parts.subrange(0, (n - 1) as int) =~= parts.drop_last());
    let last = trim_exec(raw[n - 1].as_slice());
    let key = lowercase(last.as_slice());
    Ok((mods, string_from_chars(key.as_slice())))
}

/// A hotkey is refused exactly when it holds no `+`, with the format
/// error; otherwise it has one modifier per `+`, and its key is the
/// lower-cased, trimmed text after the last `+`.
pub proof fn law_parse_hotkey_plus_count(h: Seq<char>)
    ensures
        spec_parse_hotkey(h) is Err <==> !has_char(h, '+'),
        spec_parse_hotkey(h) is Err ==> spec_parse_hotkey(h) == Err::<
            (Seq<Seq<char>>, Seq<char>),
            Seq<char>,
        >(HOTKEY_FORMAT_ERROR@),
        spec_parse_hotkey(h) matches Ok((mods, key)) ==> mods.len() == count_char(h, '+') && key
            == spec_str_to_lowercase(trim(split(h, seq!['+']).last())),
{
    lemma_split_char_len(h, '+');
}

/// How an entry is shown: its modifiers and its upper-cased key joined
/// by `+`.
pub open spec fn spec_format_entry(e: EntryView) -> Seq<char> {
    join(e.modifiers.push(spec_str_to_uppercase(e.key)), seq!['+'])
}

/// The display form of an entry is its upper-cased key, preceded by its
/// modifiers joined with `+` and a `+` when it has modifiers.
pub proof fn law_display_form(e: EntryView)
    ensures
        e.modifiers.len() == 0 ==> spec_format_entry(e) == spec_str_to_uppercase(e.key),
        e.modifiers.len() > 0 ==> spec_format_entry(e) == join(e.modifiers, seq!['+']) + seq!['+']
            + spec_str_to_uppercase(e.key),
{
    let parts = e.modifiers.push(spec_str_to_uppercase(e.key));
    assert(parts.drop_last() =~= e.modifiers);
    assert(parts.last() == spec_str_to_uppercase(e.key));
}

/// The display form of an entry, such as `Ctrl+Y`.
pub fn format_entry(entry: &Entry) -> (r: String)
    ensures
        r@ == spec_format_entry(entry@),
{
    let mut parts: Vec<Vec<char>> = Vec::new();
    let mut i: usize = 0;
    let ghost mv = strings_view(entry.modifiers@);
    while i < entry.modifiers.len()
        invariant
            mv == strings_view(entry.modifiers@),
            i <= mv.len(),
            parts@.len() == i,
            parts@.map_values(|v: Vec<char>| v@) == mv.subrange(0, i as int),
        decreases entry.modifiers.len() - i,
    {
        let c = chars_of(entry.modifiers[i].as_str());
        assert(c@ == mv[i as int]);
        parts.push(c);
        i += 1;
        assert(parts@.map_values(|v: Vec<char>| v@) =~= mv.subrange(0, i as int));
    }
    assert(mv.subrange(0, mv.len() as int) =~= mv);
    let kc = chars_of(entry.key.as_str());
    let u = uppercase(kc.as_slice());
    assert(u@ == spec_str_to_uppercase(entry.key@));
    parts.push(u);
    assert(parts@.map_values(|v: Vec<char>| v@) =~= mv.push(spec_str_to_uppercase(entry.key@)));
    let plus = vec!['+'];
    assert(plus@ =~= seq!['+']);
    let r = join_exec(parts.as_slice(), plus.as_slice());
    string_from_chars(r.as_slice())
}

// ---------------------------------------------------------------------
// Operations on the shortcut file
// ---------------------------------------------------------------------

/// The first entry that runs our command.
pub open spec fn first_ours(es: Seq<EntryView>) -> Option<EntryView>
    decreases es.len(),
{
    if es.len() == 0 {
        None
    } else if es[0].command == OUR_COMMAND@ {
        Some(es[0])
    } else {
        first_ours(es.drop_first())
    }
}

/// The display form of our shortcut in the file `content`, if it is there.
pub open spec fn spec_find_our_shortcut(content: Seq<char>) -> Option<Seq<char>> {
    match first_ours(parse_entries(content)) {
        Some(e) => Some(spec_format_entry(e)),
        None => None,
    }
}

proof fn lemma_skip_step<A>(s: Seq<A>, i: int)
    requires
        0 <= i < s.len(),
    ensures
        s.subrange(i, s.len() as int).drop_first() == s.subrange(i + 1, s.len() as int),
        s.subrange(i, s.len() as int)[0] == s[i],
        s.subrange(i, s.len() as int).len() > 0,
{
    assert(s.subrange(i, s.len() as int).drop_first() =~= s.subrange(i + 1, s.len() as int));
}

/// Finds our shortcut in the shortcut file `content` and returns its
/// display form, such as `Ctrl+Y`.
pub fn find_our_shortcut(content: &str) -> (r: Option<String>)
    ensures
        opt_string_view(r) == spec_find_our_shortcut(content@),
{
    let entries = read_entries(content);
    let ghost ev = entries_view(entries@);
    let mut i: usize = 0;
    assert(ev.subrange(0, ev.len() as int) =~= ev);
    while i < entries.len()
        invariant
            ev == entries_view(entries@),
            ev == parse_entries(content@),
            i <= ev.len(),
            first_ours(ev) == first_ours(ev.subrange(i as int, ev.len() as int)),
        decreases entries.len() - i,
    {
        proof { lemma_skip_step(ev, i as int); }
        if str_eq(entries[i].command.as_str(), OUR_COMMAND) {
            return Some(format_entry(&entries[i]));
        }
        i += 1;
    }
    None
}

pub open spec fn lower_all(ms: Seq<Seq<char>>) -> Seq<Seq<char>> {
    ms.map_values(|m: Seq<char>| spec_str_to_lowercase(m))
}

/// An entry other than ours with the same key and the same set of
/// modifiers (in any order), ignoring case.
pub open spec fn is_conflict(e: EntryView, mods_lower: Seq<Seq<char>>, key: Seq<char>) -> bool {
    &&& e.command != OUR_COMMAND@
    &&& lower_all(e.modifiers).to_set() == mods_lower.to_set()
    &&& spec_str_to_lowercase(e.key) == key
}

/// What names a conflicting entry: its description, else its command.
pub open spec fn conflict_label(e: EntryView) -> Seq<char> {
    match e.description {
        Some(d) => d,
        None => e.command,
    }
}

pub open spec fn first_conflict(es: Seq<EntryView>, mods_lower: Seq<Seq<char>>, key: Seq<char>) -> Option<
    Seq<char>,
>
    decreases es.len(),
{
    if es.len() == 0 {
        None
    } else if is_conflict(es[0], mods_lower, key) {
        Some(conflict_label(es[0]))
    } else {
        first_conflict(es.drop_first(), mods_lower, key)
    }
}

/// What names the first other shortcut of `content` bound to `hotkey`.
pub open spec fn spec_check_conflict(content: Seq<char>, hotkey: Seq<char>) -> Option<Seq<char>> {
    match spec_parse_hotkey(hotkey) {
        Err(_) => None,
        Ok((mods, key)) => first_conflict(parse_entries(content), lower_all(mods), key),
    }
}

fn lower_strings(ms: &Vec<String>) -> (r: Vec<Vec<char>>)
    ensures
        r@.map_values(|v: Vec<char>| v@) == lower_all(strings_view(ms@)),
{
    let mut r: Vec<Vec<char>> = Vec::new();
    let mut i: usize = 0;
    while i < ms.len()
        invariant
            i <= ms@.len(),
            r@.len() == i,
            r@.map_values(|v: Vec<char>| v@) == lower_all(strings_view(ms@)).subrange(0, i as int),
        decreases ms.len() - i,
    {
        let cs = chars_of(ms[i].as_str());
        let l = lowercase(cs.as_slice());
        assert(l@ == lower_all(strings_view(ms@))[i as int]);
        r.push(l);
        i += 1;
        assert(r@.map_values(|v: Vec<char>| v@) =~= lower_all(strings_view(ms@)).subrange(
            0,
            i as int,
        ));
    }
    assert(lower_all(strings_view(ms@)).subrange(0, ms@.len() as int) =~= lower_all(
        strings_view(ms@),
    ));
    r
}

/// The character sequences of a list of character vectors.
pub open spec fn vec_views(v: Seq<Vec<char>>) -> Seq<Seq<char>> {
    v.map_values(|x: Vec<char>| x@)
}

fn contains_chars(a: &Vec<Vec<char>>, x: &[char]) -> (r: bool)
    ensures
        r == vec_views(a@).contains(x@),
{
    let ghost av = vec_views(a@);
    let mut i: usize = 0;
    while i < a.len()
        invariant
            av == vec_views(a@),
            i <= a@.len(),
            forall|k: int| 0 <= k < i ==> av[k] != x@,
        decreases a.len() - i,
    {
        if chars_eq(a[i].as_slice(), x) {
            assert(av[i as int] == x@);
            return true;
        }
        i += 1;
    }
    false
}

fn all_contained(a: &Vec<Vec<char>>, b: &Vec<Vec<char>>) -> (r: bool)
    ensures
        r == (forall|k: int|
            0 <= k < a@.len() ==> vec_views(b@).contains(
                #[trigger] vec_views(a@)[k],
            )),
{
    let ghost av = vec_views(a@);
    let ghost bv = vec_views(b@);
    let mut i: usize = 0;
    while i < a.len()
        invariant
            av == vec_views(a@),
            bv == vec_views(b@),
            i <= a@.len(),
            forall|k: int| 0 <= k < i ==> bv.contains(#[trigger] av[k]),
        decreases a.len() - i,
    {
        if !contains_chars(b, a[i].as_slice()) {
            assert(!bv.contains(av[i as int]));
            return false;
        }
        i += 1;
    }
    true
}

/// Whether two lists hold the same strings, ignoring order and repeats.
fn same_set(a: &Vec<Vec<char>>, b: &Vec<Vec<char>>) -> (r: bool)
    ensures
        r == (vec_views(a@).to_set() == vec_views(b@).to_set()),
{
    let ghost av = vec_views(a@);
    let ghost bv = vec_views(b@);
    let ab = all_contained(a, b);
    let ba = all_contained(b, a);
    if ab && ba {
        assert forall|x: Seq<char>| av.contains(x) implies bv.contains(x) by {
            let k = choose|k: int| 0 <= k < av.len() && av[k] == x;
        }
        assert forall|x: Seq<char>| bv.contains(x) implies av.contains(x) by {
            let k = choose|k: int| 0 <= k < bv.len() && bv[k] == x;
        }
        assert(av.to_set() =~= bv.to_set());
        true
    } else {
        if !ab {
            let ghost k = choose|k: int| 0 <= k < a@.len() && !bv.contains(#[trigger] av[k]);
            assert(av.to_set().contains(av[k]));
            assert(!bv.to_set().contains(av[k]));
        } else {
            let ghost k = choose|k: int| 0 <= k < b@.len() && !av.contains(#[trigger] bv[k]);
            assert(bv.to_set().contains(bv[k]));
            assert(!av.to_set().contains(bv[k]));
        }
        false
    }
}

/// Checks whether `hotkey` is already bound to another command in the
/// shortcut file `content`; returns the description (else the command)
/// of the first such entry. Entries running our command are ignored, and
/// a hotkey without a modifier conflicts with nothing.
pub fn check_conflict(content: &str, hotkey: &str) -> (r: Option<String>)
    ensures
        opt_string_view(r) == spec_check_conflict(content@, hotkey@),
{
    let parsed = parse_hotkey(hotkey);
    let (mods, key) = match parsed {
        Ok(p) => p,
        Err(_) => return None,
    };
    assert(spec_parse_hotkey(hotkey@) == Ok::<(Seq<Seq<char>>, Seq<char>), Seq<char>>((strings_view(mods@), key@)));
    let entries = read_entries(content);
    let mods_lower = lower_strings(&mods);
    let kc = chars_of(key.as_str());
    let ghost ev = entries_view(entries@);
    let ghost ml = lower_all(strings_view(mods@));
    let mut i: usize = 0;
    assert(ev.subrange(0, ev.len() as int) =~= ev);
    while i < entries.len()
        invariant
            ev == entries_view(entries@),
            ev == parse_entries(content@),
            ml == mods_lower@.map_values(|v: Vec<char>| v@),
            ml == lower_all(strings_view(mods@)),
            spec_parse_hotkey(hotkey@) == Ok::<(Seq<Seq<char>>, Seq<char>), Seq<char>>((strings_view(mods@), key@)),
            kc@ == key@,
            i <= ev.len(),
            first_conflict(ev, ml, key@) == first_conflict(
                ev.subrange(i as int, ev.len() as int),
                ml,
                key@,
            ),
        decreases entries.len() - i,
    {
        proof { lemma_skip_step(ev, i as int); }
        let e = &entries[i];
        if !str_eq(e.command.as_str(), OUR_COMMAND) {
            let em = lower_strings(&e.modifiers);
            let ekc = chars_of(e.key.as_str());
            let ek = lowercase(ekc.as_slice());
            if same_set(&em, &mods_lower) && chars_eq(ek.as_slice(), kc.as_slice()) {
                assert(ev[i as int] == e@);
                assert(is_conflict(ev[i as int], ml, key@));
                assert(first_conflict(ev, ml, key@) == Some(conflict_label(e@)));
                assert(spec_check_conflict(content@, hotkey@) == Some(conflict_label(e@)));
                return match &e.description {
                    Some(d) => Some(d.clone()),
                    None => Some(e.command.clone()),
                };
            }
        }
        i += 1;
    }
    None
}

/// The entries of `es` that do not run our command, in order.
pub open spec fn others(es: Seq<EntryView>) -> Seq<EntryView>
    decreases es.len(),
{
    if es.len() == 0 {
        Seq::empty()
    } else if es.last().command == OUR_COMMAND@ {
        others(es.drop_last())
    } else {
        others(es.drop_last()).push(es.last())
    }
}

/// Our entry for the given modifiers and key.
pub open spec fn our_entry(mods: Seq<Seq<char>>, key: Seq<char>) -> EntryView {
    EntryView {
        modifiers: mods,
        key,
        description: Some(OUR_DESCRIPTION@),
        command: OUR_COMMAND@,
    }
}

/// The shortcut file after binding our command to `hotkey`.
pub open spec fn spec_set_shortcut(content: Seq<char>, hotkey: Seq<char>) -> Result<
    Seq<char>,
    Seq<char>,
> {
    match spec_parse_hotkey(hotkey) {
        Err(e) => Err(e),
        Ok((mods, key)) => Ok(serialize(others(parse_entries(content)).push(our_entry(mods, key)))),
    }
}

pub open spec fn result_view(r: Result<String, String>) -> Result<Seq<char>, Seq<char>> {
    match r {
        Ok(s) => Ok(s@),
        Err(e) => Err(e@),
    }
}

/// Binds our command to `hotkey` in the shortcut file `content`: every
/// entry running our command is removed and a new one, described as
/// `Speech to Text`, is appended. Returns the new text of the file, or
/// the error for a hotkey without a modifier.
pub fn set_shortcut(content: &str, hotkey: &str) -> (r: Result<String, String>)
    ensures
        result_view(r) == spec_set_shortcut(content@, hotkey@),
{
    let (modifiers, key) = match parse_hotkey(hotkey) {
        Ok(p) => p,
        Err(e) => return Err(e),
    };
    let entries = read_entries(content);
    let ghost ev = entries_view(entries@);
    let mut out: Vec<char> = Vec::new();
    push_str(&mut out, "{\n");
    let mut i: usize = 0;
    assert(ev.subrange(0, 0) =~= Seq::<EntryView>::empty());
    assert(out@ =~= "{\n"@ + serialize_all(others(ev.subrange(0, 0))));
    while i < entries.len()
        invariant
            ev == entries_view(entries@),
            i <= ev.len(),
            out@ == "{\n"@ + serialize_all(others(ev.subrange(0, i as int))),
        decreases entries.len() - i,
    {
        let ghost sub = ev.subrange(0, i + 1);
        assert(sub.drop_last() =~= ev.subrange(0, i as int));
        assert(sub.last() == entries@[i as int]@);
        let ghost o = others(ev.subrange(0, i as int));
        if !str_eq(entries[i].command.as_str(), OUR_COMMAND) {
            push_entry(&mut out, &entries[i]);
            assert(others(sub) == o.push(sub.last()));
            assert(o.push(sub.last()).drop_last() =~= o);
            assert(serialize_all(others(sub)) == serialize_all(o) + serialize_entry(sub.last()));
            assert(out@ =~= "{\n"@ + serialize_all(others(sub)));
        } else {
            assert(others(sub) == o);
        }
        i += 1;
    }
    assert(ev.subrange(0, ev.len() as int) =~= ev);
    let ours = Entry {
        modifiers,
        key,
        description: Some(owned(OUR_DESCRIPTION)),
        command: owned(OUR_COMMAND),
    };
    let ghost ow = others(ev);
    push_entry(&mut out, &ours);
    assert(ow.push(ours@).drop_last() =~= ow);
    push_str(&mut out, "}");
    assert(out@ =~= serialize(ow.push(ours@)));
    Ok(string_from_chars(out.as_slice()))
}

} // verus!
