//! Reading back what was written: the shortcut file produced for a list
//! of well-formed entries parses to the same list.
use vstd::prelude::*;
use crate::shortcut::{
    conflict_label, first_conflict, first_ours, is_conflict, lower_all, others, our_entry,
    spec_check_conflict, spec_find_our_shortcut, spec_format_entry, spec_parse_hotkey,
    spec_set_shortcut, OUR_COMMAND, OUR_DESCRIPTION, clean_pieces, close_marker, key_marker, parse_blocks, parse_entries, parse_modifiers,
    parse_pair, quote, serialize, serialize_all, serialize_description, serialize_entry,
    serialize_modifiers, some_marker, spawn_marker, spec_extract_between, EntryView,
};
use crate::text::{
    spec_str_to_lowercase,
    char_free, ends_with, find, is_first_match, is_last_match, is_white_space, lemma_first_after_free, lemma_first_marker,
    lemma_marker_free_concat, lemma_quote_free_marker_free, lemma_rfind_char, lemma_rfind_marker,
    lemma_split_none, lemma_split_step, marker_free, matches_at, rfind, split, trim, trim_end,
    trim_start,
};

verus! {

// ---------------------------------------------------------------------
// Well-formed entries
// ---------------------------------------------------------------------

/// `Spawn(`, the marker before a command without its quote.
pub open spec fn w_spawn() -> Seq<char> {
    seq!['S', 'p', 'a', 'w', 'n', '(']
}

/// `key: `, the marker before a key without its quote.
pub open spec fn w_key() -> Seq<char> {
    seq!['k', 'e', 'y', ':', ' ']
}

/// `Some(`, the marker before a description without its quote.
pub open spec fn w_some() -> Seq<char> {
    seq!['S', 'o', 'm', 'e', '(']
}

/// A modifier that reads back as itself: not empty, without brackets or
/// commas, without `Spawn("` or `Some("`, and not starting or ending with
/// white space.
pub open spec fn modifier_wf(m: Seq<char>) -> bool {
    &&& m.len() > 0
    &&& marker_free(m, w_spawn())
    &&& marker_free(m, w_some())
    &&& char_free(m, '[')
    &&& char_free(m, ']')
    &&& char_free(m, ',')
    &&& !is_white_space(m[0])
    &&& !is_white_space(m.last())
}

/// A description that reads back as itself: without quotes or brackets,
/// and not ending in one of the markers that precede a quoted value
/// (`Spawn(`, `key: `, `Some(`).
pub open spec fn value_wf(x: Seq<char>) -> bool {
    &&& char_free(x, '"')
    &&& char_free(x, '[')
    &&& char_free(x, ']')
    &&& !ends_with(x, w_spawn())
    &&& !ends_with(x, w_key())
    &&& !ends_with(x, w_some())
}

/// A key that reads back as itself: without quotes or brackets, and not
/// ending in `Spawn(` or `key: `.
pub open spec fn key_wf(x: Seq<char>) -> bool {
    &&& char_free(x, '"')
    &&& char_free(x, '[')
    &&& char_free(x, ']')
    &&& !ends_with(x, w_spawn())
    &&& !ends_with(x, w_key())
}

/// A command that reads back as itself: without quotes, and not ending in
/// `Spawn(`.
pub open spec fn command_wf(c: Seq<char>) -> bool {
    &&& char_free(c, '"')
    &&& !ends_with(c, w_spawn())
}

/// `t` holds no `")`.
pub open spec fn close_free(t: Seq<char>) -> bool {
    forall|j: int| !#[trigger] matches_at(t, close_marker(), j)
}

/// The entry `e` may follow an entry whose command is `c`: when `c` ends
/// in `Some(` and `e` has no description, the text of `e` up to its key
/// holds no `")` (its key does not start with `)` and no modifier holds
/// `")`), since the description would be read from there.
pub open spec fn follows_wf(c: Seq<char>, e: EntryView) -> bool {
    ends_with(c, w_some()) && e.description is None ==> {
        &&& e.key.len() > 0 && e.key[0] != ')'
        &&& forall|i: int| 0 <= i < e.modifiers.len() ==> close_free(#[trigger] e.modifiers[i])
    }
}

/// An entry whose text reads back as itself.
pub open spec fn entry_wf(e: EntryView) -> bool {
    &&& forall|i: int| 0 <= i < e.modifiers.len() ==> modifier_wf(#[trigger] e.modifiers[i])
    &&& e.key.len() > 0
    &&& key_wf(e.key)
    &&& (e.description matches Some(d) ==> value_wf(d))
    &&& command_wf(e.command)
}

/// Entries whose text reads back as themselves: each entry does, and
/// each may follow the one before it.
pub open spec fn entries_wf(es: Seq<EntryView>) -> bool {
    &&& forall|i: int| 0 <= i < es.len() ==> entry_wf(#[trigger] es[i])
    &&& forall|i: int| 1 <= i < es.len() ==> follows_wf(es[i - 1].command, #[trigger] es[i])
}

// ---------------------------------------------------------------------
// Small facts
// ---------------------------------------------------------------------

proof fn lemma_char_free_add(a: Seq<char>, b: Seq<char>, c: char)
    requires
        char_free(a, c),
        char_free(b, c),
    ensures
        char_free(a + b, c),
{
    assert forall|i: int| 0 <= i < (a + b).len() implies (a + b)[i] != c by {
        if i < a.len() {
            assert((a + b)[i] == a[i]);
        } else {
            assert((a + b)[i] == b[i - a.len()]);
        }
    }
}

proof fn lemma_ends_with_add(a: Seq<char>, b: Seq<char>, w: Seq<char>)
    requires
        b.len() >= w.len(),
    ensures
        ends_with(a + b, w) == ends_with(b, w),
{
    let t = a + b;
    assert(t.subrange(t.len() - w.len(), t.len() as int) =~= b.subrange(
        b.len() - w.len(),
        b.len() as int,
    ));
}

/// A text whose character at `k` places from the end differs from the
/// marker's does not end with the marker.
proof fn lemma_not_ends_with(s: Seq<char>, w: Seq<char>, k: int)
    requires
        1 <= k <= w.len(),
        k <= s.len(),
        s[s.len() - k] != w[w.len() - k],
    ensures
        !ends_with(s, w),
{
    if ends_with(s, w) {
        assert(s.subrange(s.len() - w.len(), s.len() as int)[w.len() - k] == s[s.len() - k]);
    }
}

proof fn lemma_no_match_find_none(t: Seq<char>, c: char)
    requires
        char_free(t, c),
    ensures
        find(t, seq![c]) is None,
{
    assert forall|i: int| !crate::text::is_first_match(t, seq![c], i) by {
        if matches_at(t, seq![c], i) {
            assert(t[i + 0] == seq![c][0]);
        }
    }
}

proof fn lemma_marker_free_no_rfind(t: Seq<char>, w: Seq<char>)
    requires
        marker_free(t, w),
    ensures
        rfind(t, w.push('"')) is None,
{
    assert forall|i: int| !crate::text::is_last_match(t, w.push('"'), i) by {
        assert(!matches_at(t, w.push('"'), i));
    }
}

proof fn lemma_marker_free_no_find(t: Seq<char>, w: Seq<char>)
    requires
        marker_free(t, w),
    ensures
        find(t, w.push('"')) is None,
{
    assert forall|i: int| !crate::text::is_first_match(t, w.push('"'), i) by {
        assert(!matches_at(t, w.push('"'), i));
    }
}

// ---------------------------------------------------------------------
// The modifier lines
// ---------------------------------------------------------------------

pub open spec fn mods_wf(mods: Seq<Seq<char>>) -> bool {
    forall|i: int| 0 <= i < mods.len() ==> modifier_wf(#[trigger] mods[i])
}

proof fn lemma_mods_text_free(mods: Seq<Seq<char>>, c: char)
    requires
        forall|i: int| 0 <= i < mods.len() ==> char_free(#[trigger] mods[i], c),
        c != ' ' && c != ',' && c != '\n',
    ensures
        char_free(serialize_modifiers(mods), c),
    decreases mods.len(),
{
    reveal_strlit("            ");
    reveal_strlit(",\n");
    if mods.len() > 0 {
        let rest = mods.drop_last();
        assert forall|i: int| 0 <= i < rest.len() implies char_free(#[trigger] rest[i], c) by {
            assert(rest[i] == mods[i]);
        }
        lemma_mods_text_free(rest, c);
        assert(char_free(mods.last(), c)) by {
            assert(mods.last() == mods[mods.len() - 1]);
        }
        lemma_char_free_add(serialize_modifiers(rest), "            "@, c);
        lemma_char_free_add(serialize_modifiers(rest) + "            "@, mods.last(), c);
        lemma_char_free_add(serialize_modifiers(rest) + "            "@ + mods.last(), ",\n"@, c);
    }
}

proof fn lemma_mods_text_front(mods: Seq<Seq<char>>)
    requires
        mods.len() > 0,
    ensures
        serialize_modifiers(mods) == "            "@ + mods[0] + ",\n"@ + serialize_modifiers(
            mods.drop_first(),
        ),
    decreases mods.len(),
{
    if mods.len() == 1 {
        assert(mods.drop_first() =~= Seq::<Seq<char>>::empty());
        assert(mods.drop_last() =~= Seq::<Seq<char>>::empty());
        assert(serialize_modifiers(Seq::<Seq<char>>::empty()) == Seq::<char>::empty());
        assert(mods.last() == mods[0]);
        assert(serialize_modifiers(mods) =~= "            "@ + mods[0] + ",\n"@);
        assert(serialize_modifiers(mods) =~= "            "@ + mods[0] + ",\n"@
            + serialize_modifiers(mods.drop_first()));
    } else {
        lemma_mods_text_front(mods.drop_last());
        assert(mods.drop_last().drop_first() =~= mods.drop_first().drop_last());
        assert(mods.drop_first().last() == mods.last());
        assert(mods.drop_last()[0] == mods[0]);
        assert(serialize_modifiers(mods) =~= "            "@ + mods[0] + ",\n"@
            + serialize_modifiers(mods.drop_first()));
    }
}

/// The text between the brackets of the modifier list.
pub open spec fn mods_inner(mods: Seq<Seq<char>>) -> Seq<char> {
    seq!['\n'] + serialize_modifiers(mods) + "        "@
}

/// The pieces that splitting `mods_inner(mods)` at commas gives.
pub open spec fn mods_pieces(mods: Seq<Seq<char>>) -> Seq<Seq<char>>
    decreases mods.len(),
{
    if mods.len() == 0 {
        seq![seq!['\n'] + "        "@]
    } else {
        seq![seq!['\n'] + "            "@ + mods[0]] + mods_pieces(mods.drop_first())
    }
}

proof fn lemma_split_mods_inner(mods: Seq<Seq<char>>)
    requires
        mods_wf(mods),
    ensures
        split(mods_inner(mods), seq![',']) == mods_pieces(mods),
    decreases mods.len(),
{
    reveal_strlit("            ");
    reveal_strlit("        ");
    reveal_strlit(",\n");
    if mods.len() == 0 {
        assert(serialize_modifiers(mods) =~= Seq::<char>::empty());
        let t = mods_inner(mods);
        assert(t =~= seq!['\n'] + "        "@);
        assert(char_free(t, ','));
        lemma_no_match_find_none(t, ',');
        lemma_split_none(t, seq![',']);
    } else {
        let rest = mods.drop_first();
        assert forall|i: int| 0 <= i < rest.len() implies modifier_wf(#[trigger] rest[i]) by {
            assert(rest[i] == mods[i + 1]);
        }
        lemma_mods_text_front(mods);
        let x = seq!['\n'] + "            "@ + mods[0];
        let y = mods_inner(rest);
        assert(mods_inner(mods) =~= x + seq![','] + y);
        assert(modifier_wf(mods[0]));
        lemma_char_free_add(seq!['\n'] + "            "@, mods[0], ',');
        lemma_first_after_free(x, seq![','], y);
        assert(seq![','][0] == ',');
        lemma_split_step(x + seq![','] + y, seq![','], x.len() as int);
        assert((x + seq![','] + y).subrange(0, x.len() as int) =~= x);
        assert((x + seq![','] + y).subrange(x.len() + 1int, (x + seq![','] + y).len() as int) =~= y);
        lemma_split_mods_inner(rest);
    }
}

proof fn lemma_trim_start_ws(p: Seq<char>, m: Seq<char>)
    requires
        forall|i: int| 0 <= i < p.len() ==> is_white_space(#[trigger] p[i]),
    ensures
        trim_start(p + m) == trim_start(m),
    decreases p.len(),
{
    if p.len() > 0 {
        assert((p + m)[0] == p[0]);
        assert((p + m).drop_first() =~= p.drop_first() + m);
        assert forall|i: int| 0 <= i < p.drop_first().len() implies is_white_space(
            #[trigger] p.drop_first()[i],
        ) by {
            assert(p.drop_first()[i] == p[i + 1]);
        }
        lemma_trim_start_ws(p.drop_first(), m);
    } else {
        assert(p + m =~= m);
    }
}

proof fn lemma_trim_all_ws(p: Seq<char>)
    requires
        forall|i: int| 0 <= i < p.len() ==> is_white_space(#[trigger] p[i]),
    ensures
        trim(p) == Seq::<char>::empty(),
{
    lemma_trim_start_ws(p, Seq::empty());
    assert(p + Seq::<char>::empty() =~= p);
}

proof fn lemma_trim_padded(p: Seq<char>, m: Seq<char>)
    requires
        forall|i: int| 0 <= i < p.len() ==> is_white_space(#[trigger] p[i]),
        modifier_wf(m),
    ensures
        trim(p + m) == m,
{
    lemma_trim_start_ws(p, m);
}

proof fn lemma_clean_front(x: Seq<char>, rest: Seq<Seq<char>>)
    ensures
        clean_pieces(seq![x] + rest) == (if trim(x).len() > 0 {
            seq![trim(x)]
        } else {
            Seq::empty()
        }) + clean_pieces(rest),
    decreases rest.len(),
{
    let first: Seq<Seq<char>> = if trim(x).len() > 0 {
        seq![trim(x)]
    } else {
        Seq::empty()
    };
    if rest.len() == 0 {
        assert(seq![x] + rest =~= seq![x]);
        assert(seq![x].drop_last() =~= Seq::<Seq<char>>::empty());
        assert(first + Seq::<Seq<char>>::empty() =~= first);
        assert(clean_pieces(Seq::<Seq<char>>::empty()) == Seq::<Seq<char>>::empty());
    } else {
        lemma_clean_front(x, rest.drop_last());
        assert((seq![x] + rest).drop_last() =~= seq![x] + rest.drop_last());
        assert((seq![x] + rest).last() == rest.last());
        let t = trim(rest.last());
        if t.len() > 0 {
            assert(first + clean_pieces(rest.drop_last()).push(t) =~= (first + clean_pieces(
                rest.drop_last(),
            )).push(t));
        }
    }
}

proof fn lemma_clean_mods_pieces(mods: Seq<Seq<char>>)
    requires
        mods_wf(mods),
    ensures
        clean_pieces(mods_pieces(mods)) == mods,
    decreases mods.len(),
{
    reveal_strlit("            ");
    reveal_strlit("        ");
    if mods.len() == 0 {
        let x = seq!['\n'] + "        "@;
        assert forall|i: int| 0 <= i < x.len() implies is_white_space(#[trigger] x[i]) by {}
        lemma_trim_all_ws(x);
        assert(seq![x] =~= seq![x] + Seq::<Seq<char>>::empty());
        lemma_clean_front(x, Seq::empty());
        assert(clean_pieces(Seq::<Seq<char>>::empty()) == Seq::<Seq<char>>::empty());
        assert(mods_pieces(mods) == seq![x]);
    } else {
        let rest = mods.drop_first();
        assert forall|i: int| 0 <= i < rest.len() implies modifier_wf(#[trigger] rest[i]) by {
            assert(rest[i] == mods[i + 1]);
        }
        let p = seq!['\n'] + "            "@;
        assert forall|i: int| 0 <= i < p.len() implies is_white_space(#[trigger] p[i]) by {}
        assert(modifier_wf(mods[0]));
        lemma_trim_padded(p, mods[0]);
        lemma_clean_front(p + mods[0], mods_pieces(rest));
        lemma_clean_mods_pieces(rest);
        assert(seq![mods[0]] + rest =~= mods);
    }
}

// ---------------------------------------------------------------------
// One entry's text
// ---------------------------------------------------------------------

/// What precedes an entry's text in the file: the opening brace, or the
/// end of the previous entry (its command and the closing characters).
pub open spec fn lead(prev: Option<Seq<char>>) -> Seq<char> {
    match prev {
        None => "{\n"@,
        Some(c) => c + "\"),\n"@,
    }
}

/// An entry's text before `Spawn("`.
pub open spec fn head(e: EntryView) -> Seq<char> {
    "    (\n"@ + "        modifiers: [\n"@ + serialize_modifiers(e.modifiers) + "        ],\n"@
        + "        key: \""@ + e.key + "\",\n"@ + serialize_description(e.description)
        + "    ): "@
}

/// An entry's text after `Spawn("`.
pub open spec fn tail(e: EntryView) -> Seq<char> {
    e.command + "\"),\n"@
}

proof fn lemma_entry_parts(e: EntryView)
    ensures
        serialize_entry(e) == head(e) + spawn_marker() + tail(e),
{
    reveal_strlit("    ): Spawn(\"");
    reveal_strlit("    ): ");
    assert("    ): Spawn(\""@ =~= "    ): "@ + spawn_marker());
    assert(serialize_entry(e) =~= head(e) + spawn_marker() + tail(e));
}

/// The chunk between the entry's opening and the quote before its key.
pub open spec fn chunk_to_key(e: EntryView) -> Seq<char> {
    "    (\n"@ + "        modifiers: [\n"@ + serialize_modifiers(e.modifiers) + "        ],\n"@
        + "        key: "@
}

/// What follows the quote after the key.
pub open spec fn after_key(e: EntryView) -> Seq<char> {
    ",\n"@ + serialize_description(e.description) + "    ): "@
}

proof fn lemma_head_at_key(e: EntryView)
    ensures
        head(e) == chunk_to_key(e) + seq!['"'] + e.key + seq!['"'] + after_key(e),
{
    reveal_strlit("        key: \"");
    reveal_strlit("        key: ");
    reveal_strlit("\",\n");
    reveal_strlit(",\n");
    assert("        key: \""@ =~= "        key: "@ + seq!['"']);
    assert("\",\n"@ =~= seq!['"'] + ",\n"@);
    assert(head(e) =~= chunk_to_key(e) + seq!['"'] + e.key + seq!['"'] + after_key(e));
}

proof fn lemma_chunk_to_key_quote_free(e: EntryView)
    requires
        entry_wf(e),
    ensures
        marker_free(chunk_to_key(e), w_spawn()),
        marker_free(chunk_to_key(e), w_some()),
        chunk_to_key(e).len() >= 6,
        !ends_with(chunk_to_key(e), w_spawn()),
        !ends_with(chunk_to_key(e), w_some()),
        ends_with(chunk_to_key(e), w_key()),
{
    reveal_strlit("    (\n");
    reveal_strlit("        modifiers: [\n");
    reveal_strlit("        ],\n");
    reveal_strlit("        key: ");
    let a = "    (\n"@ + "        modifiers: [\n"@;
    let c = chunk_to_key(e);
    let pre = a + serialize_modifiers(e.modifiers) + "        ],\n"@;
    assert(c == pre + "        key: "@);
    lemma_chunk_marker_free(e, w_spawn());
    lemma_chunk_marker_free(e, w_some());
    lemma_ends_with_add(pre, "        key: "@, w_spawn());
    lemma_ends_with_add(pre, "        key: "@, w_some());
    lemma_ends_with_add(pre, "        key: "@, w_key());
    lemma_not_ends_with("        key: "@, w_spawn(), 1);
    lemma_not_ends_with("        key: "@, w_some(), 1);
    assert("        key: "@.subrange(8, 13) =~= w_key());
}

/// The text before an entry's key holds neither `Spawn("` nor `Some("`.
proof fn lemma_chunk_marker_free(e: EntryView, w: Seq<char>)
    requires
        entry_wf(e),
        w == w_spawn() || w == w_some(),
    ensures
        marker_free(chunk_to_key(e), w),
{
    reveal_strlit("    (\n");
    reveal_strlit("        modifiers: [\n");
    reveal_strlit("        ],\n");
    reveal_strlit("        key: ");
    assert forall|i: int| 0 <= i < e.modifiers.len() implies marker_free(#[trigger] e.modifiers[i], w) by {
        assert(modifier_wf(e.modifiers[i]));
    }
    let sm = serialize_modifiers(e.modifiers);
    lemma_mods_text_marker_free(e.modifiers, w);
    let l1 = "    (\n"@ + "        modifiers: [\n"@;
    let l2 = "        ],\n"@ + "        key: "@;
    assert(char_free(l1, '"'));
    assert(char_free(l2, '"'));
    lemma_quote_free_marker_free(l1, w);
    lemma_quote_free_marker_free(l2, w);
    lemma_concat_left_end(l1, sm, w);
    lemma_concat_right_start(l1 + sm, l2, w);
    assert(chunk_to_key(e) =~= l1 + sm + l2);
}

/// The description line up to its first quote, for a description.
proof fn lemma_after_key_parts(e: EntryView)
    ensures
        match e.description {
            Some(d) => after_key(e) == (",\n"@ + "        description: Some("@) + seq!['"'] + d
                + seq!['"'] + ("),\n"@ + "    ): "@),
            None => after_key(e) == ",\n"@ + "        description: None,\n"@ + "    ): "@,
        },
{
    reveal_strlit("        description: Some(\"");
    reveal_strlit("        description: Some(");
    reveal_strlit("\"),\n");
    reveal_strlit("),\n");
    match e.description {
        Some(d) => {
            assert("        description: Some(\""@ =~= "        description: Some("@ + seq!['"']);
            assert("\"),\n"@ =~= seq!['"'] + "),\n"@);
            assert(after_key(e) =~= (",\n"@ + "        description: Some("@) + seq!['"'] + d
                + seq!['"'] + ("),\n"@ + "    ): "@));
        },
        None => {},
    }
}

/// `after_key` holds no quoted marker `w` when the description does not
/// end with `w` and neither does the text before the description's quote.
proof fn lemma_after_key_marker_free(e: EntryView, w: Seq<char>)
    requires
        entry_wf(e),
        char_free(w, '"'),
        e.description is Some ==> !ends_with(",\n"@ + "        description: Some("@, w),
        e.description matches Some(d) ==> !ends_with(d, w),
    ensures
        marker_free(after_key(e), w),
{
    reveal_strlit(",\n");
    reveal_strlit("        description: Some(");
    reveal_strlit("),\n");
    reveal_strlit("    ): ");
    reveal_strlit("        description: None,\n");
    lemma_after_key_parts(e);
    match e.description {
        Some(d) => {
            let a = ",\n"@ + "        description: Some("@;
            let c = "),\n"@ + "    ): "@;
            assert(char_free(a, '"'));
            assert(char_free(c, '"'));
            lemma_quote_free_marker_free(a, w);
            lemma_quote_free_marker_free(c, w);
            lemma_quote_free_marker_free(d, w);
            lemma_marker_free_concat(d, c, w);
            lemma_marker_free_concat(a, d + seq!['"'] + c, w);
            assert(a + seq!['"'] + (d + seq!['"'] + c) =~= a + seq!['"'] + d + seq!['"'] + c);
        },
        None => {
            let t = ",\n"@ + "        description: None,\n"@ + "    ): "@;
            assert(char_free(t, '"'));
            lemma_quote_free_marker_free(t, w);
        },
    }
}

pub open spec fn prev_wf(prev: Option<Seq<char>>) -> bool {
    prev matches Some(c) ==> command_wf(c)
}

/// The entry `e` may follow the previous command, if there is one.
pub open spec fn prev_follows(prev: Option<Seq<char>>, e: EntryView) -> bool {
    prev matches Some(c) ==> follows_wf(c, e)
}

/// The text before an entry's `Spawn("` holds no quoted marker `w` when
/// none of its values ends with `w`.
proof fn lemma_before_marker_free(prev: Option<Seq<char>>, e: EntryView, w: Seq<char>)
    requires
        entry_wf(e),
        prev_wf(prev),
        char_free(w, '"'),
        w.len() <= 6,
        !ends_with(e.key, w),
        !ends_with(chunk_to_key(e), w),
        e.description is Some ==> !ends_with(",\n"@ + "        description: Some("@, w),
        e.description matches Some(d) ==> !ends_with(d, w),
        prev matches Some(c) ==> !ends_with(c, w),
        marker_free(chunk_to_key(e), w),
        w.len() > 0,
        forall|k: int| 0 <= k < w.len() ==> w[k] != '\n',
    ensures
        marker_free(lead(prev) + head(e), w),
{
    reveal_strlit("{\n");
    reveal_strlit("\"),\n");
    reveal_strlit("),\n");
    lemma_head_at_key(e);
    lemma_chunk_to_key_quote_free(e);
    lemma_after_key_marker_free(e, w);
    let k = e.key;
    let ak = after_key(e);
    let ch = chunk_to_key(e);
    lemma_quote_free_marker_free(k, w);
    lemma_marker_free_concat(k, ak, w);
    let t0 = k + seq!['"'] + ak;
    match prev {
        None => {
            let a = "{\n"@ + ch;
            assert(char_free("{\n"@, '"'));
            lemma_quote_free_marker_free("{\n"@, w);
            lemma_concat_left_end("{\n"@, ch, w);
            lemma_ends_with_add("{\n"@, ch, w);
            lemma_marker_free_concat(a, t0, w);
            assert(lead(prev) + head(e) =~= a + seq!['"'] + t0);
        },
        Some(c) => {
            let a = "),\n"@ + ch;
            assert(char_free("),\n"@, '"'));
            lemma_quote_free_marker_free("),\n"@, w);
            lemma_concat_left_end("),\n"@, ch, w);
            lemma_ends_with_add("),\n"@, ch, w);
            lemma_marker_free_concat(a, t0, w);
            lemma_quote_free_marker_free(c, w);
            lemma_marker_free_concat(c, a + seq!['"'] + t0, w);
            assert("\"),\n"@ =~= seq!['"'] + "),\n"@);
            assert(lead(prev) + head(e) =~= c + seq!['"'] + (a + seq!['"'] + t0));
        },
    }
}

proof fn lemma_desc_free(e: EntryView, c: char)
    requires
        e.description matches Some(d) ==> char_free(d, c),
        c != '"' && c != ' ' && c != ',' && c != '\n' && c != ')',
        c != 'd' && c != 'e' && c != 's' && c != 'c' && c != 'r' && c != 'i' && c != 'p',
        c != 't' && c != 'o' && c != 'n' && c != ':' && c != 'S' && c != 'm' && c != '(',
        c != 'N',
    ensures
        char_free(serialize_description(e.description), c),
{
    reveal_strlit("        description: Some(\"");
    reveal_strlit("\"),\n");
    reveal_strlit("        description: None,\n");
    match e.description {
        Some(d) => {
            lemma_char_free_add("        description: Some(\""@, d, c);
            lemma_char_free_add("        description: Some(\""@ + d, "\"),\n"@, c);
        },
        None => {},
    }
}

/// The modifiers of an entry's text read back as the entry's modifiers.
proof fn lemma_parse_modifiers_block(prev: Option<Seq<char>>, e: EntryView)
    requires
        entry_wf(e),
    ensures
        parse_modifiers(lead(prev) + head(e)) == e.modifiers,
{
    reveal_strlit("        modifiers: [\n");
    reveal_strlit("        modifiers: ");
    reveal_strlit("\n");
    reveal_strlit("        ],\n");
    reveal_strlit("        ");
    reveal_strlit(",\n");
    reveal_strlit("        key: \"");
    reveal_strlit("\",\n");
    reveal_strlit("    ): ");
    let mods = e.modifiers;
    let sm = serialize_modifiers(mods);
    let k = e.key;
    let dl = serialize_description(e.description);
    let before = lead(prev) + head(e);
    assert("        modifiers: [\n"@ =~= "        modifiers: "@ + seq!['['] + "\n"@);
    assert("        ],\n"@ =~= "        "@ + seq![']'] + ",\n"@);
    let x1 = lead(prev) + "    (\n"@ + "        modifiers: "@;
    let y1 = "\n"@ + sm + "        ],\n"@ + "        key: \""@ + k + "\",\n"@ + dl + "    ): "@;
    assert(before =~= x1 + seq!['['] + y1);
    assert forall|i: int| 0 <= i < mods.len() implies char_free(#[trigger] mods[i], '[') by {
        assert(modifier_wf(mods[i]));
    }
    assert forall|i: int| 0 <= i < mods.len() implies char_free(#[trigger] mods[i], ']') by {
        assert(modifier_wf(mods[i]));
    }
    lemma_mods_text_free(mods, '[');
    lemma_mods_text_free(mods, ']');
    lemma_desc_free(e, '[');
    lemma_desc_free(e, ']');
    lemma_char_free_add("\n"@, sm, '[');
    lemma_char_free_add("\n"@ + sm, "        ],\n"@, '[');
    lemma_char_free_add("\n"@ + sm + "        ],\n"@, "        key: \""@, '[');
    lemma_char_free_add("\n"@ + sm + "        ],\n"@ + "        key: \""@, k, '[');
    lemma_char_free_add("\n"@ + sm + "        ],\n"@ + "        key: \""@ + k, "\",\n"@, '[');
    lemma_char_free_add(
        "\n"@ + sm + "        ],\n"@ + "        key: \""@ + k + "\",\n"@,
        dl,
        '[',
    );
    lemma_char_free_add(
        "\n"@ + sm + "        ],\n"@ + "        key: \""@ + k + "\",\n"@ + dl,
        "    ): "@,
        '[',
    );
    lemma_rfind_char(x1, '[', y1);
    let x2 = x1 + seq!['['] + "\n"@ + sm + "        "@;
    let y2 = ",\n"@ + "        key: \""@ + k + "\",\n"@ + dl + "    ): "@;
    assert(before =~= x2 + seq![']'] + y2);
    lemma_char_free_add(",\n"@, "        key: \""@, ']');
    lemma_char_free_add(",\n"@ + "        key: \""@, k, ']');
    lemma_char_free_add(",\n"@ + "        key: \""@ + k, "\",\n"@, ']');
    lemma_char_free_add(",\n"@ + "        key: \""@ + k + "\",\n"@, dl, ']');
    lemma_char_free_add(",\n"@ + "        key: \""@ + k + "\",\n"@ + dl, "    ): "@, ']');
    lemma_rfind_char(x2, ']', y2);
    let inner = before.subrange(x1.len() + 1int, x2.len() as int);
    assert(inner =~= mods_inner(mods));
    assert(mods_wf(mods));
    lemma_split_mods_inner(mods);
    lemma_clean_mods_pieces(mods);
}

/// The key of an entry's text reads back as the entry's key.
proof fn lemma_extract_key(prev: Option<Seq<char>>, e: EntryView)
    requires
        entry_wf(e),
    ensures
        spec_extract_between(lead(prev) + head(e), key_marker(), quote()) == Some(e.key),
{
    reveal_strlit("        key: ");
    reveal_strlit("        ");
    reveal_strlit(",\n");
    reveal_strlit("        description: Some(");
    let before = lead(prev) + head(e);
    lemma_head_at_key(e);
    let ch = chunk_to_key(e);
    let k = e.key;
    let ak = after_key(e);
    let pre = lead(prev) + "    (\n"@ + "        modifiers: [\n"@ + serialize_modifiers(e.modifiers)
        + "        ],\n"@ + "        "@;
    assert("        key: "@ =~= "        "@ + w_key());
    assert(before =~= pre + w_key() + seq!['"'] + (k + seq!['"'] + ak));
    lemma_not_ends_with(",\n"@ + "        description: Some("@, w_key(), 1);
    lemma_after_key_marker_free(e, w_key());
    lemma_quote_free_marker_free(k, w_key());
    lemma_marker_free_concat(k, ak, w_key());
    lemma_rfind_marker(pre, w_key(), k + seq!['"'] + ak);
    assert(key_marker() =~= w_key().push('"'));
    let p = pre.len() as int;
    let rest = before.subrange(p + key_marker().len(), before.len() as int);
    assert(rest =~= k + seq!['"'] + ak);
    lemma_first_after_free(k, seq!['"'], ak);
    assert(quote() =~= seq!['"']);
    assert(rest.subrange(0, k.len() as int) =~= k);
}

/// The description of an entry's text reads back as the entry's
/// description.
#[verifier::rlimit(40)]
proof fn lemma_extract_description(prev: Option<Seq<char>>, e: EntryView)
    requires
        entry_wf(e),
        e.description is None ==> prev_wf(prev) && prev_follows(prev, e),
    ensures
        spec_extract_between(lead(prev) + head(e), some_marker(), close_marker()) == e.description,
{
    reveal_strlit("        description: Some(");
    reveal_strlit("        description: ");
    reveal_strlit("),\n");
    reveal_strlit(",\n");
    reveal_strlit("    ): ");
    let before = lead(prev) + head(e);
    lemma_head_at_key(e);
    lemma_after_key_parts(e);
    lemma_chunk_to_key_quote_free(e);
    assert(some_marker() =~= w_some().push('"'));
    match e.description {
        Some(d) => {
            let c = "),\n"@ + "    ): "@;
            let pre = lead(prev) + chunk_to_key(e) + seq!['"'] + e.key + seq!['"'] + ",\n"@
                + "        description: "@;
            assert("        description: Some("@ =~= "        description: "@ + w_some());
            assert(before =~= pre + w_some() + seq!['"'] + (d + seq!['"'] + c));
            assert(char_free(c, '"'));
            lemma_quote_free_marker_free(d, w_some());
            lemma_quote_free_marker_free(c, w_some());
            lemma_marker_free_concat(d, c, w_some());
            lemma_rfind_marker(pre, w_some(), d + seq!['"'] + c);
            let p = pre.len() as int;
            let rest = before.subrange(p + some_marker().len(), before.len() as int);
            assert(rest =~= d + close_marker() + (",\n"@ + "    ): "@));
            assert(close_marker()[0] == '"');
            lemma_first_after_free(d, close_marker(), ",\n"@ + "    ): "@);
            assert(rest.subrange(0, d.len() as int) =~= d);
        },
        None => {
            if ends_with(e.key, w_some()) {
                lemma_key_ends_with_some(prev, e);
            } else if prev matches Some(c) && ends_with(c, w_some()) {
                lemma_prev_ends_with_some(prev->0, e);
            } else {
                lemma_chunk_to_key_quote_free(e);
                lemma_before_marker_free(prev, e, w_some());
                lemma_marker_free_no_rfind(before, w_some());
            }
        },
    }
}

/// A key ending in `Some(` of an entry without description: the marker
/// that the key's closing quote completes is the last one, and no `")`
/// follows it, so no description is read.
proof fn lemma_key_ends_with_some(prev: Option<Seq<char>>, e: EntryView)
    requires
        e.description is None,
        ends_with(e.key, w_some()),
    ensures
        spec_extract_between(lead(prev) + head(e), some_marker(), close_marker()) is None,
{
    reveal_strlit("        description: None,\n");
    reveal_strlit(",\n");
    reveal_strlit("    ): ");
    lemma_head_at_key(e);
    let k = e.key;
    let n = k.len() as int;
    let wl = w_some().len() as int;
    let k0 = k.subrange(0, n - wl);
    let ak = after_key(e);
    let pre = lead(prev) + chunk_to_key(e) + seq!['"'] + k0;
    let before = lead(prev) + head(e);
    assert(k =~= k0 + w_some());
    assert(before =~= pre + w_some() + seq!['"'] + ak);
    assert(ak =~= ",\n"@ + "        description: None,\n"@ + "    ): "@);
    assert(char_free(ak, '"'));
    lemma_quote_free_marker_free(ak, w_some());
    lemma_rfind_marker(pre, w_some(), ak);
    assert(some_marker() =~= w_some().push('"'));
    let p = pre.len() as int;
    let rest = before.subrange(p + some_marker().len(), before.len() as int);
    assert(rest =~= ak);
    assert forall|j: int| !#[trigger] matches_at(rest, close_marker(), j) by {
        if matches_at(rest, close_marker(), j) {
            assert(rest[j + 0] == close_marker()[0]);
        }
    }
    assert forall|j: int| !#[trigger] is_first_match(rest, close_marker(), j) by {}
}

/// Around a single character, `")` can only occur on either side or
/// across the join.
proof fn lemma_close_free_concat(a: Seq<char>, b: Seq<char>)
    requires
        close_free(a),
        close_free(b),
        a.len() > 0 && b.len() > 0 ==> !(a.last() == '"' && b[0] == ')'),
    ensures
        close_free(a + b),
{
    let t = a + b;
    let m = close_marker();
    assert forall|i: int| !#[trigger] matches_at(t, m, i) by {
        if matches_at(t, m, i) {
            assert(t[i + 0] == m[0]);
            assert(t[i + 1] == m[1]);
            if i + 2 <= a.len() {
                assert forall|k: int| 0 <= k < m.len() implies #[trigger] a[i + k] == m[k] by {
                    assert(t[i + k] == m[k]);
                }
                assert(matches_at(a, m, i));
            } else if i >= a.len() {
                assert forall|k: int| 0 <= k < m.len() implies #[trigger] b[(i - a.len()) + k]
                    == m[k] by {
                    assert(t[i + k] == m[k]);
                }
                assert(matches_at(b, m, i - a.len()));
            } else {
                assert(i == a.len() - 1);
                assert(a.last() == t[i]);
                assert(b[0] == t[i + 1]);
            }
        }
    }
}

proof fn lemma_quote_free_close_free(t: Seq<char>)
    requires
        char_free(t, '"'),
    ensures
        close_free(t),
{
    assert forall|j: int| !#[trigger] matches_at(t, close_marker(), j) by {
        if matches_at(t, close_marker(), j) {
            assert(t[j + 0] == close_marker()[0]);
        }
    }
}

proof fn lemma_mods_close_free(mods: Seq<Seq<char>>)
    requires
        forall|i: int| 0 <= i < mods.len() ==> close_free(#[trigger] mods[i]),
    ensures
        close_free(serialize_modifiers(mods)),
        serialize_modifiers(mods).len() > 0 ==> serialize_modifiers(mods).last() == '\n',
    decreases mods.len(),
{
    reveal_strlit("            ");
    reveal_strlit(",\n");
    if mods.len() == 0 {
        lemma_quote_free_close_free(serialize_modifiers(mods));
    } else {
        let rest = mods.drop_last();
        assert forall|i: int| 0 <= i < rest.len() implies close_free(#[trigger] rest[i]) by {
            assert(rest[i] == mods[i]);
        }
        lemma_mods_close_free(rest);
        let sp = "            "@;
        let m = mods.last();
        assert(close_free(m)) by {
            assert(m == mods[mods.len() - 1]);
        }
        let sr = serialize_modifiers(rest);
        assert(char_free(sp, '"'));
        assert(char_free(",\n"@, '"'));
        lemma_quote_free_close_free(sp);
        lemma_quote_free_close_free(",\n"@);
        lemma_close_free_concat(sr, sp);
        lemma_close_free_concat(sr + sp, m);
        lemma_close_free_concat(sr + sp + m, ",\n"@);
    }
}

/// A previous command ending in `Some(` before an entry without
/// description: the marker it completes is the last one, and no `")`
/// follows it, so no description is read.
proof fn lemma_prev_ends_with_some(c: Seq<char>, e: EntryView)
    requires
        entry_wf(e),
        command_wf(c),
        e.description is None,
        ends_with(c, w_some()),
        !ends_with(e.key, w_some()),
        follows_wf(c, e),
    ensures
        spec_extract_between(lead(Some(c)) + head(e), some_marker(), close_marker()) is None,
{
    reveal_strlit("\"),\n");
    reveal_strlit("),\n");
    reveal_strlit("    (\n");
    reveal_strlit("        modifiers: [\n");
    reveal_strlit("        ],\n");
    reveal_strlit("        key: ");
    reveal_strlit("        description: None,\n");
    reveal_strlit(",\n");
    reveal_strlit("    ): ");
    let w = w_some();
    lemma_head_at_key(e);
    lemma_after_key_parts(e);
    lemma_chunk_to_key_quote_free(e);
    let ch = chunk_to_key(e);
    let k = e.key;
    let ak = after_key(e);
    assert(char_free(ak, '"'));
    // `Some("` occurs last at the end of the previous command.
    let a = "),\n"@ + ch;
    assert(char_free("),\n"@, '"'));
    lemma_quote_free_marker_free("),\n"@, w);
    lemma_concat_left_end("),\n"@, ch, w);
    lemma_ends_with_add("),\n"@, ch, w);
    lemma_quote_free_marker_free(k, w);
    lemma_quote_free_marker_free(ak, w);
    lemma_marker_free_concat(k, ak, w);
    let t0 = k + seq!['"'] + ak;
    lemma_marker_free_concat(a, t0, w);
    let suf = a + seq!['"'] + t0;
    let n = c.len() as int;
    let c0 = c.subrange(0, n - w.len());
    assert(c =~= c0 + w);
    let before = lead(Some(c)) + head(e);
    assert("\"),\n"@ =~= seq!['"'] + "),\n"@);
    assert(before =~= c0 + w + seq!['"'] + suf);
    lemma_rfind_marker(c0, w, suf);
    assert(some_marker() =~= w.push('"'));
    let p = c0.len() as int;
    let rest = before.subrange(p + some_marker().len(), before.len() as int);
    assert(rest =~= suf);
    // No `")` follows it.
    let l1 = "    (\n"@ + "        modifiers: [\n"@;
    let l2 = "        ],\n"@ + "        key: "@;
    let sm = serialize_modifiers(e.modifiers);
    assert(ch =~= l1 + sm + l2);
    assert(char_free(l1, '"'));
    assert(char_free(l2, '"'));
    lemma_quote_free_close_free("),\n"@);
    lemma_quote_free_close_free(l1);
    lemma_quote_free_close_free(l2);
    lemma_mods_close_free(e.modifiers);
    lemma_close_free_concat("),\n"@, l1);
    lemma_close_free_concat("),\n"@ + l1, sm);
    lemma_close_free_concat("),\n"@ + l1 + sm, l2);
    assert(a =~= "),\n"@ + l1 + sm + l2);
    assert(close_free(seq!['"'])) by {
        assert forall|j: int| !#[trigger] matches_at(seq!['"'], close_marker(), j) by {}
    }
    lemma_quote_free_close_free(k);
    lemma_quote_free_close_free(ak);
    lemma_close_free_concat(a, seq!['"']);
    lemma_close_free_concat(a + seq!['"'], k);
    lemma_close_free_concat(a + seq!['"'] + k, seq!['"']);
    lemma_close_free_concat(a + seq!['"'] + k + seq!['"'], ak);
    assert(suf =~= a + seq!['"'] + k + seq!['"'] + ak);
    assert forall|j: int| !#[trigger] is_first_match(rest, close_marker(), j) by {}
}

/// The text around an entry's `Spawn("` reads back as the entry.
proof fn lemma_parse_pair_entry(prev: Option<Seq<char>>, e: EntryView, rest: Seq<char>)
    requires
        entry_wf(e),
        e.description is None ==> prev_wf(prev) && prev_follows(prev, e),
    ensures
        parse_pair(lead(prev) + head(e), tail(e) + rest) == Some(e),
{
    reveal_strlit("\"),\n");
    reveal_strlit("),\n");
    let after = tail(e) + rest;
    assert(after =~= e.command + seq!['"'] + ("),\n"@ + rest));
    lemma_first_after_free(e.command, seq!['"'], "),\n"@ + rest);
    assert(quote() =~= seq!['"']);
    assert(after.subrange(0, e.command.len() as int) =~= e.command);
    lemma_extract_key(prev, e);
    lemma_extract_description(prev, e);
    lemma_parse_modifiers_block(prev, e);
}

/// The blocks that splitting the rest of a file at each `Spawn("` gives.
pub open spec fn blocks_of(prev: Option<Seq<char>>, es: Seq<EntryView>) -> Seq<Seq<char>>
    decreases es.len(),
{
    if es.len() == 0 {
        seq![lead(prev) + "}"@]
    } else {
        seq![lead(prev) + head(es[0])] + blocks_of(Some(es[0].command), es.drop_first())
    }
}

proof fn lemma_serialize_all_front(es: Seq<EntryView>)
    requires
        es.len() > 0,
    ensures
        serialize_all(es) == serialize_entry(es[0]) + serialize_all(es.drop_first()),
    decreases es.len(),
{
    if es.len() == 1 {
        assert(es.drop_first() =~= Seq::<EntryView>::empty());
        assert(es.drop_last() =~= Seq::<EntryView>::empty());
        assert(serialize_all(Seq::<EntryView>::empty()) == Seq::<char>::empty());
        assert(es.last() == es[0]);
        assert(serialize_all(es) =~= serialize_entry(es[0]) + serialize_all(es.drop_first()));
    } else {
        lemma_serialize_all_front(es.drop_last());
        assert(es.drop_last().drop_first() =~= es.drop_first().drop_last());
        assert(es.drop_first().last() == es.last());
        assert(es.drop_last()[0] == es[0]);
        assert(serialize_all(es) =~= serialize_entry(es[0]) + serialize_all(es.drop_first()));
    }
}

pub open spec fn prev_spawn_safe(prev: Option<Seq<char>>) -> bool {
    prev matches Some(c) ==> char_free(c, '"') && !ends_with(c, w_spawn())
}

pub open spec fn entries_spawn_safe(es: Seq<EntryView>) -> bool {
    forall|i: int| 0 <= i < es.len() ==> entry_spawn_safe(#[trigger] es[i])
}

#[verifier::rlimit(30)]
proof fn lemma_split_serialized(prev: Option<Seq<char>>, es: Seq<EntryView>)
    requires
        entries_spawn_safe(es),
        prev_spawn_safe(prev),
    ensures
        split(lead(prev) + serialize_all(es) + "}"@, spawn_marker()) == blocks_of(prev, es),
    decreases es.len(),
{
    reveal_strlit("}");
    reveal_strlit("{\n");
    reveal_strlit("\"),\n");
    reveal_strlit("),\n");
    assert(spawn_marker() =~= w_spawn().push('"'));
    if es.len() == 0 {
        let t = lead(prev) + serialize_all(es) + "}"@;
        assert(serialize_all(es) == Seq::<char>::empty());
        match prev {
            None => {
                assert(t =~= "{\n"@ + "}"@);
                assert(char_free(t, '"'));
                lemma_quote_free_marker_free(t, w_spawn());
            },
            Some(c) => {
                assert(t =~= c + seq!['"'] + ("),\n"@ + "}"@));
                assert(char_free("),\n"@ + "}"@, '"'));
                lemma_quote_free_marker_free(c, w_spawn());
                lemma_quote_free_marker_free("),\n"@ + "}"@, w_spawn());
                lemma_marker_free_concat(c, "),\n"@ + "}"@, w_spawn());
            },
        }
        lemma_marker_free_no_find(t, w_spawn());
        lemma_split_none(t, spawn_marker());
        assert(t =~= lead(prev) + "}"@);
    } else {
        let e = es[0];
        let rest = es.drop_first();
        assert(entry_spawn_safe(e));
        assert forall|i: int| 0 <= i < rest.len() implies entry_spawn_safe(#[trigger] rest[i]) by {
            assert(rest[i] == es[i + 1]);
        }
        lemma_serialize_all_front(es);
        lemma_entry_parts(e);
        let x = lead(prev) + head(e);
        let y = tail(e) + serialize_all(rest) + "}"@;
        let t = lead(prev) + serialize_all(es) + "}"@;
        assert(t =~= x + w_spawn() + seq!['"'] + y);
        lemma_before_spawn_free(prev, e);
        lemma_first_marker(x, w_spawn(), y);
        lemma_split_step(t, spawn_marker(), x.len() as int);
        assert(t.subrange(0, x.len() as int) =~= x);
        assert(t.subrange((x.len() + spawn_marker().len()) as int, t.len() as int) =~= y);
        assert(y =~= lead(Some(e.command)) + serialize_all(rest) + "}"@);
        lemma_split_serialized(Some(e.command), rest);
    }
}

proof fn lemma_parse_blocks_front(b: Seq<char>, bs: Seq<Seq<char>>)
    requires
        bs.len() >= 1,
    ensures
        parse_blocks(seq![b] + bs) == (match parse_pair(b, bs[0]) {
            Some(e) => seq![e],
            None => Seq::empty(),
        }) + parse_blocks(bs),
    decreases bs.len(),
{
    let first: Seq<EntryView> = match parse_pair(b, bs[0]) {
        Some(e) => seq![e],
        None => Seq::empty(),
    };
    let all = seq![b] + bs;
    if bs.len() == 1 {
        assert(all.drop_last() =~= seq![b]);
        assert(all[all.len() - 2] == b);
        assert(all.last() == bs[0]);
        assert(parse_blocks(seq![b]) == Seq::<EntryView>::empty());
        assert(parse_blocks(bs) == Seq::<EntryView>::empty());
        assert(first + Seq::<EntryView>::empty() =~= first);
        assert(Seq::<EntryView>::empty() + first =~= first);
        match parse_pair(b, bs[0]) {
            Some(e) => {
                assert(Seq::<EntryView>::empty().push(e) =~= seq![e]);
            },
            None => {},
        }
    } else {
        lemma_parse_blocks_front(b, bs.drop_last());
        assert(all.drop_last() =~= seq![b] + bs.drop_last());
        assert(all[all.len() - 2] == bs[bs.len() - 2]);
        assert(all.last() == bs.last());
        assert(bs.drop_last()[0] == bs[0]);
        match parse_pair(bs[bs.len() - 2], bs.last()) {
            Some(e) => {
                assert(first + parse_blocks(bs.drop_last()).push(e) =~= (first + parse_blocks(
                    bs.drop_last(),
                )).push(e));
            },
            None => {},
        }
    }
}

proof fn lemma_parse_blocks_of(prev: Option<Seq<char>>, es: Seq<EntryView>)
    requires
        entries_wf(es),
        prev_wf(prev),
        es.len() > 0 ==> prev_follows(prev, es[0]),
    ensures
        parse_blocks(blocks_of(prev, es)) == es,
    decreases es.len(),
{
    if es.len() == 0 {
        assert(parse_blocks(blocks_of(prev, es)) == Seq::<EntryView>::empty());
        assert(es =~= Seq::<EntryView>::empty());
    } else {
        let e = es[0];
        let rest = es.drop_first();
        assert(entry_wf(e));
        assert forall|i: int| 0 <= i < rest.len() implies entry_wf(#[trigger] rest[i]) by {
            assert(rest[i] == es[i + 1]);
        }
        assert forall|i: int| 1 <= i < rest.len() implies follows_wf(
            rest[i - 1].command,
            #[trigger] rest[i],
        ) by {
            assert(rest[i] == es[i + 1]);
            assert(rest[i - 1] == es[i]);
        }
        if rest.len() > 0 {
            assert(rest[0] == es[1]);
            assert(follows_wf(es[1 - 1].command, es[1]));
        }
        let bs = blocks_of(Some(e.command), rest);
        let next: Seq<char> = if rest.len() > 0 {
            head(rest[0])
        } else {
            "}"@
        };
        assert(bs[0] == tail(e) + next);
        lemma_parse_pair_entry(prev, e, next);
        lemma_parse_blocks_front(lead(prev) + head(e), bs);
        lemma_parse_blocks_of(Some(e.command), rest);
        assert(seq![e] + rest =~= es);
    }
}

/// Reading back what was written: the shortcut file produced for
/// well-formed entries parses to exactly those entries.
pub proof fn law_read_after_write(es: Seq<EntryView>)
    requires
        entries_wf(es),
    ensures
        parse_entries(serialize(es)) == es,
{
    assert forall|i: int| 0 <= i < es.len() implies entry_spawn_safe(#[trigger] es[i]) by {
        lemma_wf_spawn_safe(es[i]);
    }
    lemma_split_serialized(None, es);
    assert(serialize(es) == lead(None) + serialize_all(es) + "}"@);
    lemma_parse_blocks_of(None, es);
}

// ---------------------------------------------------------------------
// Registering our shortcut
// ---------------------------------------------------------------------

proof fn lemma_others_not_ours(es: Seq<EntryView>)
    ensures
        forall|i: int|
            0 <= i < others(es).len() ==> #[trigger] others(es)[i].command != OUR_COMMAND@,
        forall|i: int|
            0 <= i < others(es).len() ==> exists|j: int| 0 <= j < es.len() && #[trigger] others(es)[i] == es[j],
    decreases es.len(),
{
    if es.len() > 0 {
        lemma_others_not_ours(es.drop_last());
        let o = others(es.drop_last());
        assert forall|i: int| 0 <= i < others(es).len() implies exists|j: int|
            0 <= j < es.len() && #[trigger] others(es)[i] == es[j] by {
            if i < o.len() {
                let j = choose|j: int| 0 <= j < es.drop_last().len() && o[i] == es.drop_last()[j];
                assert(es.drop_last()[j] == es[j]);
            } else {
                assert(others(es)[i] == es[es.len() - 1]);
            }
        }
    }
}

proof fn lemma_first_ours_last(a: Seq<EntryView>, x: EntryView)
    requires
        forall|i: int| 0 <= i < a.len() ==> #[trigger] a[i].command != OUR_COMMAND@,
        x.command == OUR_COMMAND@,
    ensures
        first_ours(a.push(x)) == Some(x),
    decreases a.len(),
{
    if a.len() == 0 {
        assert(a.push(x)[0] == x);
    } else {
        assert(a.push(x)[0] == a[0]);
        assert(a.push(x).drop_first() =~= a.drop_first().push(x));
        assert forall|i: int| 0 <= i < a.drop_first().len() implies #[trigger] a.drop_first()[i].command
            != OUR_COMMAND@ by {
            assert(a.drop_first()[i] == a[i + 1]);
        }
        lemma_first_ours_last(a.drop_first(), x);
    }
}

proof fn lemma_our_description_wf()
    ensures
        value_wf(OUR_DESCRIPTION@),
        command_wf(OUR_COMMAND@),
{
    reveal_strlit("Speech to Text");
    reveal_strlit("cosmic-speech-to-text --toggle");
    let d = OUR_DESCRIPTION@;
    lemma_not_ends_with(d, w_spawn(), 1);
    lemma_not_ends_with(d, w_key(), 1);
    lemma_not_ends_with(d, w_some(), 1);
    let c = OUR_COMMAND@;
    lemma_not_ends_with(c, w_spawn(), 1);
    lemma_not_ends_with(c, w_some(), 1);
}

/// A hotkey whose modifiers and key read back as themselves.
pub open spec fn hotkey_wf(h: Seq<char>) -> bool {
    match spec_parse_hotkey(h) {
        Ok((mods, key)) => mods_wf(mods) && key.len() > 0 && key_wf(key),
        Err(_) => false,
    }
}

/// Registering our shortcut keeps every other entry of the file, in
/// order, and appends ours; looking our shortcut up afterwards finds the
/// registered hotkey. Stated for files whose other entries, side by side
/// once ours are removed, read back as themselves, and for hotkeys whose
/// parts do.
pub proof fn law_set_shortcut_read_back(content: Seq<char>, hotkey: Seq<char>)
    requires
        entries_wf(others(parse_entries(content))),
        hotkey_wf(hotkey),
    ensures
        spec_set_shortcut(content, hotkey) is Ok,
        ({
            let (mods, key) = spec_parse_hotkey(hotkey)->Ok_0;
            let new_content = spec_set_shortcut(content, hotkey)->Ok_0;
            &&& parse_entries(new_content) == others(parse_entries(content)).push(
                our_entry(mods, key),
            )
            &&& spec_find_our_shortcut(new_content) == Some(
                spec_format_entry(our_entry(mods, key)),
            )
        }),
{
    let (mods, key) = spec_parse_hotkey(hotkey)->Ok_0;
    let es = parse_entries(content);
    let o = others(es);
    let ours = our_entry(mods, key);
    let l = o.push(ours);
    lemma_others_not_ours(es);
    lemma_our_description_wf();
    assert(entry_wf(ours));
    assert forall|i: int| 0 <= i < l.len() implies entry_wf(#[trigger] l[i]) by {
        if i < o.len() {
            assert(entry_wf(o[i]));
            assert(l[i] == o[i]);
        } else {
            assert(l[i] == ours);
        }
    }
    assert forall|i: int| 1 <= i < l.len() implies follows_wf(l[i - 1].command, #[trigger] l[i]) by {
        if i < o.len() {
            assert(l[i] == o[i]);
            assert(l[i - 1] == o[i - 1]);
            assert(follows_wf(o[i - 1].command, o[i]));
        } else {
            assert(l[i] == ours);
        }
    }
    law_read_after_write(l);
    lemma_first_ours_last(o, ours);
}

/// A list without our command is left as it is by removing our entries.
proof fn lemma_others_of_others(a: Seq<EntryView>)
    requires
        forall|i: int| 0 <= i < a.len() ==> #[trigger] a[i].command != OUR_COMMAND@,
    ensures
        others(a) == a,
    decreases a.len(),
{
    if a.len() > 0 {
        assert forall|i: int| 0 <= i < a.drop_last().len() implies #[trigger] a.drop_last()[i].command
            != OUR_COMMAND@ by {
            assert(a.drop_last()[i] == a[i]);
        }
        lemma_others_of_others(a.drop_last());
        assert(a.last() == a[a.len() - 1]);
        assert(a.drop_last().push(a.last()) =~= a);
    }
}

/// Registering the same hotkey a second time changes nothing more: the
/// file written the second time is the one written the first time.
/// Stated for files whose other entries, side by side once ours are
/// removed, read back as themselves, and for hotkeys whose parts do.
pub proof fn law_set_shortcut_is_idempotent(content: Seq<char>, hotkey: Seq<char>)
    requires
        entries_wf(others(parse_entries(content))),
        hotkey_wf(hotkey),
    ensures
        spec_set_shortcut(spec_set_shortcut(content, hotkey)->Ok_0, hotkey) == spec_set_shortcut(
            content,
            hotkey,
        ),
{
    let (mods, key) = spec_parse_hotkey(hotkey)->Ok_0;
    let es = parse_entries(content);
    let o = others(es);
    let ours = our_entry(mods, key);
    law_set_shortcut_read_back(content, hotkey);
    lemma_others_not_ours(es);
    lemma_others_of_others(o);
    assert(o.push(ours).drop_last() =~= o);
    assert(others(o.push(ours)) == others(o));
}

proof fn lemma_first_conflict_some(
    es: Seq<EntryView>,
    ml: Seq<Seq<char>>,
    key: Seq<char>,
    i: int,
)
    requires
        0 <= i < es.len(),
        is_conflict(es[i], ml, key),
    ensures
        first_conflict(es, ml, key) is Some,
    decreases i,
{
    if i > 0 && !is_conflict(es[0], ml, key) {
        assert(es.drop_first()[i - 1] == es[i]);
        lemma_first_conflict_some(es.drop_first(), ml, key, i - 1);
    }
}

/// Every other shortcut bound to the typed combination is noticed: when
/// the file holds an entry running another command whose modifiers are
/// the hotkey's modifiers ignoring case and order, and whose key
/// lower-cased is the hotkey's key (which parsing lower-cases),
/// `check_conflict` reports a conflict.
pub proof fn law_conflict_ignores_case_and_order(content: Seq<char>, hotkey: Seq<char>, i: int)
    requires
        spec_parse_hotkey(hotkey) is Ok,
        0 <= i < parse_entries(content).len(),
        parse_entries(content)[i].command != OUR_COMMAND@,
        parse_entries(content)[i].modifiers.map_values(|m: Seq<char>| spec_str_to_lowercase(m)).to_set()
            == spec_parse_hotkey(hotkey)->Ok_0.0.map_values(
            |m: Seq<char>| spec_str_to_lowercase(m),
        ).to_set(),
        spec_str_to_lowercase(parse_entries(content)[i].key) == spec_parse_hotkey(hotkey)->Ok_0.1,
    ensures
        spec_check_conflict(content, hotkey) is Some,
{
    let (mods, key) = spec_parse_hotkey(hotkey)->Ok_0;
    let es = parse_entries(content);
    assert(lower_all(es[i].modifiers) == es[i].modifiers.map_values(
        |m: Seq<char>| spec_str_to_lowercase(m),
    ));
    assert(lower_all(mods) == mods.map_values(|m: Seq<char>| spec_str_to_lowercase(m)));
    assert(is_conflict(es[i], lower_all(mods), key));
    lemma_first_conflict_some(es, lower_all(mods), key, i);
}

/// A conflict is always reported for an entry other than ours: the text
/// `check_conflict` returns names an entry of the file that runs another
/// command.
pub proof fn law_conflict_is_never_ours(content: Seq<char>, hotkey: Seq<char>)
    requires
        spec_check_conflict(content, hotkey) is Some,
    ensures
        exists|i: int|
            0 <= i < parse_entries(content).len() && #[trigger] parse_entries(content)[i].command
                != OUR_COMMAND@ && conflict_label(parse_entries(content)[i]) == spec_check_conflict(
                content,
                hotkey,
            )->0,
{
    let (mods, key) = spec_parse_hotkey(hotkey)->Ok_0;
    lemma_conflict_found(parse_entries(content), lower_all(mods), key);
}

proof fn lemma_conflict_found(es: Seq<EntryView>, ml: Seq<Seq<char>>, key: Seq<char>)
    requires
        first_conflict(es, ml, key) is Some,
    ensures
        exists|i: int|
            0 <= i < es.len() && #[trigger] es[i].command != OUR_COMMAND@ && conflict_label(es[i])
                == first_conflict(es, ml, key)->0,
    decreases es.len(),
{
    if is_conflict(es[0], ml, key) {
        assert(es[0].command != OUR_COMMAND@);
    } else {
        lemma_conflict_found(es.drop_first(), ml, key);
        let i = choose|i: int|
            0 <= i < es.drop_first().len() && #[trigger] es.drop_first()[i].command != OUR_COMMAND@
                && conflict_label(es.drop_first()[i]) == first_conflict(es.drop_first(), ml, key)->0;
        assert(es.drop_first()[i] == es[i + 1]);
    }
}

// ---------------------------------------------------------------------
// Entries read from any file
// ---------------------------------------------------------------------

/// An entry whose text holds `Spawn("` only where the layout puts it:
/// what every entry read from a file satisfies.
pub open spec fn entry_spawn_safe(e: EntryView) -> bool {
    &&& forall|i: int|
        0 <= i < e.modifiers.len() ==> marker_free(#[trigger] e.modifiers[i], w_spawn())
    &&& char_free(e.key, '"')
    &&& !ends_with(e.key, w_spawn())
    &&& (e.description matches Some(d) ==> marker_free(d, w_spawn()) && !ends_with(d, w_spawn()))
    &&& char_free(e.command, '"')
    &&& !ends_with(e.command, w_spawn())
}

proof fn lemma_wf_spawn_safe(e: EntryView)
    requires
        entry_wf(e),
    ensures
        entry_spawn_safe(e),
{
    assert forall|i: int| 0 <= i < e.modifiers.len() implies marker_free(
        #[trigger] e.modifiers[i],
        w_spawn(),
    ) by {
        assert(modifier_wf(e.modifiers[i]));
    }
    if let Some(d) = e.description {
        lemma_quote_free_marker_free(d, w_spawn());
    }
}

/// No straddling occurrence when the left text ends with a character that
/// is not in the marker.
proof fn lemma_concat_left_end(a: Seq<char>, b: Seq<char>, w: Seq<char>)
    requires
        marker_free(a, w),
        marker_free(b, w),
        a.len() > 0,
        w.len() > 0,
        forall|k: int| 0 <= k < w.len() ==> w[k] != a.last(),
    ensures
        marker_free(a + b, w),
{
    let t = a + b;
    let m = w.push('"');
    assert forall|i: int| !#[trigger] matches_at(t, m, i) by {
        if matches_at(t, m, i) {
            if i + m.len() <= a.len() {
                assert forall|k: int| 0 <= k < m.len() implies #[trigger] a[i + k] == m[k] by {
                    assert(t[i + k] == m[k]);
                }
                assert(matches_at(a, m, i));
            } else if i >= a.len() {
                let s = i - a.len();
                assert forall|k: int| 0 <= k < m.len() implies #[trigger] b[s + k] == m[k] by {
                    assert(t[i + k] == m[k]);
                }
                assert(matches_at(b, m, s));
            } else {
                let k = a.len() - 1 - i;
                assert(t[i + k] == m[k]);
                if k < w.len() {
                    assert(m[k] == w[k]);
                } else {
                    assert(k == w.len());
                    assert(t[i + k] == a.last());
                    assert(i + m.len() > a.len());
                    assert(false);
                }
            }
        }
    }
}

/// No straddling occurrence when the right text starts with a character
/// that is neither a quote nor in the marker.
proof fn lemma_concat_right_start(a: Seq<char>, b: Seq<char>, w: Seq<char>)
    requires
        marker_free(a, w),
        marker_free(b, w),
        b.len() > 0,
        b[0] != '"',
        forall|k: int| 0 <= k < w.len() ==> w[k] != b[0],
    ensures
        marker_free(a + b, w),
{
    let t = a + b;
    let m = w.push('"');
    assert forall|i: int| !#[trigger] matches_at(t, m, i) by {
        if matches_at(t, m, i) {
            if i + m.len() <= a.len() {
                assert forall|k: int| 0 <= k < m.len() implies #[trigger] a[i + k] == m[k] by {
                    assert(t[i + k] == m[k]);
                }
                assert(matches_at(a, m, i));
            } else if i >= a.len() {
                let s = i - a.len();
                assert forall|k: int| 0 <= k < m.len() implies #[trigger] b[s + k] == m[k] by {
                    assert(t[i + k] == m[k]);
                }
                assert(matches_at(b, m, s));
            } else {
                let k = a.len() - i;
                assert(t[i + k] == m[k]);
                assert(t[i + k] == b[0]);
                if k < w.len() {
                    assert(m[k] == w[k]);
                } else {
                    assert(m[k] == '"');
                }
            }
        }
    }
}

proof fn lemma_sub_marker_free(t: Seq<char>, w: Seq<char>, a: int, b: int)
    requires
        marker_free(t, w),
        0 <= a <= b <= t.len(),
    ensures
        marker_free(t.subrange(a, b), w),
{
    let s = t.subrange(a, b);
    let m = w.push('"');
    assert forall|i: int| !#[trigger] matches_at(s, m, i) by {
        if matches_at(s, m, i) {
            assert forall|k: int| 0 <= k < m.len() implies #[trigger] t[a + i + k] == m[k] by {
                assert(s[i + k] == m[k]);
            }
            assert(matches_at(t, m, a + i));
        }
    }
}

proof fn lemma_mods_text_marker_free(mods: Seq<Seq<char>>, w: Seq<char>)
    requires
        w == w_spawn() || w == w_some(),
        forall|i: int| 0 <= i < mods.len() ==> marker_free(#[trigger] mods[i], w),
    ensures
        marker_free(serialize_modifiers(mods), w),
    decreases mods.len(),
{
    reveal_strlit("            ");
    reveal_strlit(",\n");
    if mods.len() == 0 {
        lemma_quote_free_marker_free(serialize_modifiers(mods), w);
    } else {
        let rest = mods.drop_last();
        assert forall|i: int| 0 <= i < rest.len() implies marker_free(#[trigger] rest[i], w) by {
            assert(rest[i] == mods[i]);
        }
        lemma_mods_text_marker_free(rest, w);
        let sp = "            "@;
        let m = mods.last();
        assert(marker_free(m, w)) by {
            assert(m == mods[mods.len() - 1]);
        }
        lemma_quote_free_marker_free(sp, w);
        lemma_quote_free_marker_free(",\n"@, w);
        lemma_concat_right_start(serialize_modifiers(rest), sp, w);
        lemma_concat_left_end(serialize_modifiers(rest) + sp, m, w);
        lemma_concat_right_start(serialize_modifiers(rest) + sp + m, ",\n"@, w);
    }
}

/// The text before an entry's `Spawn("` holds no `Spawn("` when the entry
/// is spawn-safe.
proof fn lemma_before_spawn_free(prev: Option<Seq<char>>, e: EntryView)
    requires
        entry_spawn_safe(e),
        prev matches Some(c) ==> char_free(c, '"') && !ends_with(c, w_spawn()),
    ensures
        marker_free(lead(prev) + head(e), w_spawn()),
{
    reveal_strlit("{\n");
    reveal_strlit("\"),\n");
    reveal_strlit("),\n");
    reveal_strlit("    (\n");
    reveal_strlit("        modifiers: [\n");
    reveal_strlit("        ],\n");
    reveal_strlit("        key: ");
    reveal_strlit(",\n");
    reveal_strlit("        description: Some(");
    reveal_strlit("    ): ");
    reveal_strlit("        description: None,\n");
    let w = w_spawn();
    lemma_head_at_key(e);
    lemma_after_key_parts(e);
    let sm = serialize_modifiers(e.modifiers);
    lemma_mods_text_marker_free(e.modifiers, w_spawn());
    let l1 = "    (\n"@ + "        modifiers: [\n"@;
    let l2 = "        ],\n"@ + "        key: "@;
    lemma_quote_free_marker_free(l1, w);
    lemma_quote_free_marker_free(l2, w);
    lemma_concat_left_end(l1, sm, w);
    lemma_concat_right_start(l1 + sm, l2, w);
    let ch = chunk_to_key(e);
    assert(ch =~= l1 + sm + l2);
    lemma_ends_with_add(l1 + sm, l2, w);
    lemma_not_ends_with(l2, w, 1);
    let k = e.key;
    let ak = after_key(e);
    lemma_quote_free_marker_free(k, w);
    match e.description {
        Some(d) => {
            let a = ",\n"@ + "        description: Some("@;
            let c = "),\n"@ + "    ): "@;
            lemma_quote_free_marker_free(a, w);
            lemma_quote_free_marker_free(c, w);
            lemma_not_ends_with(a, w, 5);
            lemma_marker_free_concat(d, c, w);
            lemma_marker_free_concat(a, d + seq!['"'] + c, w);
            assert(ak =~= a + seq!['"'] + (d + seq!['"'] + c));
        },
        None => {
            lemma_quote_free_marker_free(ak, w);
        },
    }
    lemma_marker_free_concat(k, ak, w);
    let t0 = k + seq!['"'] + ak;
    match prev {
        None => {
            lemma_quote_free_marker_free("{\n"@, w);
            lemma_concat_left_end("{\n"@, ch, w);
            lemma_ends_with_add("{\n"@, ch, w);
            lemma_marker_free_concat("{\n"@ + ch, t0, w);
            assert(lead(prev) + head(e) =~= ("{\n"@ + ch) + seq!['"'] + t0);
        },
        Some(c) => {
            let a = "),\n"@;
            lemma_quote_free_marker_free(a, w);
            lemma_concat_left_end(a, ch, w);
            lemma_ends_with_add(a, ch, w);
            lemma_marker_free_concat(a + ch, t0, w);
            lemma_quote_free_marker_free(c, w);
            lemma_marker_free_concat(c, a + ch + seq!['"'] + t0, w);
            assert("\"),\n"@ =~= seq!['"'] + "),\n"@);
            assert(lead(prev) + head(e) =~= c + seq!['"'] + (a + ch + seq!['"'] + t0));
        },
    }
}

proof fn lemma_find_some(t: Seq<char>, pat: Seq<char>)
    requires
        find(t, pat) is Some,
    ensures
        is_first_match(t, pat, find(t, pat)->0),
{
}

proof fn lemma_rfind_some(t: Seq<char>, pat: Seq<char>)
    requires
        rfind(t, pat) is Some,
    ensures
        is_last_match(t, pat, rfind(t, pat)->0),
{
}

proof fn lemma_exists_first(t: Seq<char>, pat: Seq<char>, j: int)
    requires
        matches_at(t, pat, j),
    ensures
        exists|i: int| is_first_match(t, pat, i),
    decreases j,
{
    if exists|k: int| 0 <= k < j && matches_at(t, pat, k) {
        let k = choose|k: int| 0 <= k < j && matches_at(t, pat, k);
        lemma_exists_first(t, pat, k);
    } else {
        assert(is_first_match(t, pat, j));
    }
}

/// Every piece of a split at `Spawn("` is free of `Spawn("`.
proof fn lemma_split_pieces_spawn_free(t: Seq<char>)
    ensures
        forall|k: int|
            0 <= k < split(t, spawn_marker()).len() ==> marker_free(
                #[trigger] split(t, spawn_marker())[k],
                w_spawn(),
            ),
    decreases t.len(),
{
    let m = spawn_marker();
    assert(m =~= w_spawn().push('"'));
    if exists|i: int| is_first_match(t, m, i) {
        let i = choose|i: int| is_first_match(t, m, i);
        let first = t.subrange(0, i);
        let rest = t.subrange(i + m.len(), t.len() as int);
        assert(split(t, m) == seq![first] + split(rest, m));
        assert forall|j: int| !#[trigger] matches_at(first, m, j) by {
            if matches_at(first, m, j) {
                assert forall|k: int| 0 <= k < m.len() implies #[trigger] t[j + k] == m[k] by {
                    assert(first[j + k] == m[k]);
                }
                assert(matches_at(t, m, j));
            }
        }
        lemma_split_pieces_spawn_free(rest);
        assert forall|k: int| 0 <= k < split(t, m).len() implies marker_free(
            #[trigger] split(t, m)[k],
            w_spawn(),
        ) by {
            if k > 0 {
                assert(split(t, m)[k] == split(rest, m)[k - 1]);
            }
        }
    } else {
        assert forall|j: int| !#[trigger] matches_at(t, m, j) by {
            if matches_at(t, m, j) {
                lemma_exists_first(t, m, j);
            }
        }
        assert(split(t, m) == seq![t]);
    }
}

/// The text before a quote in a text free of `Spawn("` does not end with
/// `Spawn(`, and is itself free of `Spawn("`.
proof fn lemma_before_quote(t: Seq<char>, end: int)
    requires
        marker_free(t, w_spawn()),
        0 <= end < t.len(),
        t[end] == '"',
    ensures
        marker_free(t.subrange(0, end), w_spawn()),
        !ends_with(t.subrange(0, end), w_spawn()),
{
    lemma_sub_marker_free(t, w_spawn(), 0, end);
    let v = t.subrange(0, end);
    if ends_with(v, w_spawn()) {
        let j = end - 6;
        let m = w_spawn().push('"');
        assert forall|k: int| 0 <= k < m.len() implies #[trigger] t[j + k] == m[k] by {
            if k < 6 {
                assert(v.subrange(v.len() - 6, v.len() as int)[k] == w_spawn()[k]);
            }
        }
        assert(matches_at(t, m, j));
    }
}

proof fn lemma_prefix_quote_free(t: Seq<char>, end: int)
    requires
        is_first_match(t, seq!['"'], end),
    ensures
        char_free(t.subrange(0, end), '"'),
{
    assert forall|i: int| 0 <= i < end implies t.subrange(0, end)[i] != '"' by {
        if t[i] == '"' {
            assert(matches_at(t, seq!['"'], i));
        }
    }
}

proof fn lemma_extract_safe(text: Seq<char>, sm: Seq<char>, em: Seq<char>)
    requires
        marker_free(text, w_spawn()),
        spec_extract_between(text, sm, em) is Some,
        em.len() > 0,
        em[0] == '"',
    ensures
        marker_free(spec_extract_between(text, sm, em)->0, w_spawn()),
        !ends_with(spec_extract_between(text, sm, em)->0, w_spawn()),
        em == seq!['"'] ==> char_free(spec_extract_between(text, sm, em)->0, '"'),
{
    lemma_rfind_some(text, sm);
    let p = rfind(text, sm)->0;
    let rest = text.subrange(p + sm.len(), text.len() as int);
    lemma_sub_marker_free(text, w_spawn(), p + sm.len(), text.len() as int);
    lemma_find_some(rest, em);
    let e = find(rest, em)->0;
    assert(rest[e + 0] == em[0]);
    lemma_before_quote(rest, e);
    if em == seq!['"'] {
        lemma_prefix_quote_free(rest, e);
    }
}

proof fn lemma_trim_marker_free(x: Seq<char>, w: Seq<char>)
    requires
        marker_free(x, w),
    ensures
        marker_free(trim(x), w),
{
    lemma_trim_start_free(x, w);
    lemma_trim_end_free(trim_start(x), w);
}

proof fn lemma_trim_start_free(x: Seq<char>, w: Seq<char>)
    requires
        marker_free(x, w),
    ensures
        marker_free(trim_start(x), w),
    decreases x.len(),
{
    if x.len() > 0 && is_white_space(x[0]) {
        lemma_sub_marker_free(x, w, 1, x.len() as int);
        assert(x.drop_first() =~= x.subrange(1, x.len() as int));
        lemma_trim_start_free(x.drop_first(), w);
    }
}

proof fn lemma_trim_end_free(x: Seq<char>, w: Seq<char>)
    requires
        marker_free(x, w),
    ensures
        marker_free(trim_end(x), w),
    decreases x.len(),
{
    if x.len() > 0 && is_white_space(x.last()) {
        lemma_sub_marker_free(x, w, 0, x.len() - 1);
        assert(x.drop_last() =~= x.subrange(0, x.len() - 1));
        lemma_trim_end_free(x.drop_last(), w);
    }
}

proof fn lemma_split_pieces_free(t: Seq<char>, pat: Seq<char>, w: Seq<char>)
    requires
        marker_free(t, w),
    ensures
        forall|k: int| 0 <= k < split(t, pat).len() ==> marker_free(#[trigger] split(t, pat)[k], w),
    decreases t.len(),
{
    if pat.len() > 0 && exists|i: int| is_first_match(t, pat, i) {
        let i = choose|i: int| is_first_match(t, pat, i);
        let first = t.subrange(0, i);
        let rest = t.subrange(i + pat.len(), t.len() as int);
        lemma_sub_marker_free(t, w, 0, i);
        lemma_sub_marker_free(t, w, i + pat.len(), t.len() as int);
        lemma_split_pieces_free(rest, pat, w);
        assert forall|k: int| 0 <= k < split(t, pat).len() implies marker_free(
            #[trigger] split(t, pat)[k],
            w,
        ) by {
            if k > 0 {
                assert(split(t, pat)[k] == split(rest, pat)[k - 1]);
            }
        }
    }
}

proof fn lemma_clean_free(parts: Seq<Seq<char>>, w: Seq<char>)
    requires
        forall|k: int| 0 <= k < parts.len() ==> marker_free(#[trigger] parts[k], w),
    ensures
        forall|k: int|
            0 <= k < clean_pieces(parts).len() ==> marker_free(#[trigger] clean_pieces(parts)[k], w),
    decreases parts.len(),
{
    if parts.len() > 0 {
        let rest = parts.drop_last();
        assert forall|k: int| 0 <= k < rest.len() implies marker_free(#[trigger] rest[k], w) by {
            assert(rest[k] == parts[k]);
        }
        lemma_clean_free(rest, w);
        assert(marker_free(parts.last(), w)) by {
            assert(parts.last() == parts[parts.len() - 1]);
        }
        lemma_trim_marker_free(parts.last(), w);
        let cr = clean_pieces(rest);
        let t = trim(parts.last());
        if t.len() > 0 {
            assert(clean_pieces(parts) == cr.push(t));
            assert forall|k: int| 0 <= k < cr.push(t).len() implies marker_free(
                #[trigger] cr.push(t)[k],
                w,
            ) by {
                if k < cr.len() {
                    assert(cr.push(t)[k] == cr[k]);
                }
            }
        } else {
            assert(clean_pieces(parts) == cr);
        }
    }
}

proof fn lemma_modifiers_safe(before: Seq<char>)
    requires
        marker_free(before, w_spawn()),
    ensures
        forall|k: int|
            0 <= k < parse_modifiers(before).len() ==> marker_free(
                #[trigger] parse_modifiers(before)[k],
                w_spawn(),
            ),
{
    let so = rfind(before, seq!['[']);
    let eo = rfind(before, seq![']']);
    if so is Some && eo is Some && so->0 < eo->0 {
        lemma_rfind_some(before, seq![']']);
        let s = so->0;
        let e = eo->0;
        let inner = before.subrange(s + 1, e);
        lemma_sub_marker_free(before, w_spawn(), s + 1, e);
        lemma_split_pieces_free(inner, seq![','], w_spawn());
        lemma_clean_free(split(inner, seq![',']), w_spawn());
    }
}

/// Every entry read from blocks free of `Spawn("` is spawn-safe.
proof fn lemma_parse_pair_safe(before: Seq<char>, after: Seq<char>)
    requires
        marker_free(before, w_spawn()),
        marker_free(after, w_spawn()),
        parse_pair(before, after) is Some,
    ensures
        entry_spawn_safe(parse_pair(before, after)->0),
{
    let e = parse_pair(before, after)->0;
    lemma_find_some(after, quote());
    assert(quote() =~= seq!['"']);
    let end = find(after, quote())->0;
    assert(after[end + 0] == quote()[0]);
    lemma_before_quote(after, end);
    lemma_prefix_quote_free(after, end);
    lemma_extract_safe(before, key_marker(), quote());
    if e.description is Some {
        assert(close_marker()[0] == '"');
        lemma_extract_safe(before, some_marker(), close_marker());
    }
    lemma_modifiers_safe(before);
}

proof fn lemma_parse_blocks_safe(bs: Seq<Seq<char>>)
    requires
        forall|k: int| 0 <= k < bs.len() ==> marker_free(#[trigger] bs[k], w_spawn()),
    ensures
        entries_spawn_safe(parse_blocks(bs)),
    decreases bs.len(),
{
    if bs.len() >= 2 {
        let rest = bs.drop_last();
        assert forall|k: int| 0 <= k < rest.len() implies marker_free(#[trigger] rest[k], w_spawn()) by {
            assert(rest[k] == bs[k]);
        }
        lemma_parse_blocks_safe(rest);
        let a = bs[bs.len() - 2];
        let b = bs.last();
        assert(marker_free(b, w_spawn())) by {
            assert(b == bs[bs.len() - 1]);
        }
        if parse_pair(a, b) is Some {
            lemma_parse_pair_safe(a, b);
            let r = parse_blocks(rest);
            assert forall|i: int| 0 <= i < r.push(parse_pair(a, b)->0).len() implies entry_spawn_safe(
                #[trigger] r.push(parse_pair(a, b)->0)[i],
            ) by {
                if i < r.len() {
                    assert(r.push(parse_pair(a, b)->0)[i] == r[i]);
                }
            }
        }
    }
}

/// Every entry read from any file is spawn-safe.
proof fn lemma_parsed_entries_safe(content: Seq<char>)
    ensures
        entries_spawn_safe(parse_entries(content)),
{
    lemma_split_pieces_spawn_free(content);
    lemma_parse_blocks_safe(split(content, spawn_marker()));
}

proof fn lemma_first_ours_skip(e: EntryView, r: Seq<EntryView>)
    requires
        e.command != OUR_COMMAND@,
    ensures
        first_ours(seq![e] + r) == first_ours(r),
{
    assert((seq![e] + r)[0] == e);
    assert((seq![e] + r).drop_first() =~= r);
}

proof fn lemma_find_ours(prev: Option<Seq<char>>, a: Seq<EntryView>, x: EntryView)
    requires
        entries_spawn_safe(a),
        forall|i: int| 0 <= i < a.len() ==> #[trigger] a[i].command != OUR_COMMAND@,
        entry_wf(x),
        x.command == OUR_COMMAND@,
        x.description is Some,
        prev_spawn_safe(prev),
    ensures
        first_ours(parse_blocks(blocks_of(prev, a.push(x)))) == Some(x),
    decreases a.len(),
{
    reveal_strlit("\"),\n");
    reveal_strlit("),\n");
    let l = a.push(x);
    let e0 = l[0];
    let bp = blocks_of(Some(e0.command), l.drop_first());
    let next: Seq<char> = if l.drop_first().len() > 0 {
        head(l.drop_first()[0])
    } else {
        "}"@
    };
    assert(bp[0] == tail(e0) + next);
    lemma_parse_blocks_front(lead(prev) + head(e0), bp);
    let opt: Seq<EntryView> = match parse_pair(lead(prev) + head(e0), bp[0]) {
        Some(e) => seq![e],
        None => Seq::empty(),
    };
    if a.len() == 0 {
        assert(e0 == x);
        assert(l.drop_first() =~= Seq::<EntryView>::empty());
        lemma_parse_pair_entry(prev, x, next);
        assert(parse_blocks(bp) == Seq::<EntryView>::empty());
        assert(opt + Seq::<EntryView>::empty() =~= seq![x]);
        assert(seq![x][0] == x);
    } else {
        assert(e0 == a[0]);
        assert(entry_spawn_safe(a[0]));
        let rest = a.drop_first();
        assert(l.drop_first() =~= rest.push(x));
        assert forall|i: int| 0 <= i < rest.len() implies entry_spawn_safe(#[trigger] rest[i]) by {
            assert(rest[i] == a[i + 1]);
        }
        assert forall|i: int| 0 <= i < rest.len() implies #[trigger] rest[i].command
            != OUR_COMMAND@ by {
            assert(rest[i] == a[i + 1]);
        }
        lemma_find_ours(Some(e0.command), rest, x);
        match parse_pair(lead(prev) + head(e0), bp[0]) {
            Some(e) => {
                let after = bp[0];
                assert(after =~= e0.command + seq!['"'] + ("),\n"@ + next));
                lemma_first_after_free(e0.command, seq!['"'], "),\n"@ + next);
                assert(quote() =~= seq!['"']);
                assert(after.subrange(0, e0.command.len() as int) =~= e0.command);
                assert(e.command == e0.command);
                lemma_first_ours_skip(e, parse_blocks(bp));
            },
            None => {
                assert(opt + parse_blocks(bp) =~= parse_blocks(bp));
            },
        }
    }
}

/// Registering our shortcut, whatever the file held before, makes it the
/// shortcut that is found afterwards: looking our shortcut up in the new
/// file gives the display form of the registered hotkey.
pub proof fn law_registered_shortcut_is_found(content: Seq<char>, hotkey: Seq<char>)
    requires
        hotkey_wf(hotkey),
    ensures
        spec_set_shortcut(content, hotkey) is Ok,
        ({
            let (mods, key) = spec_parse_hotkey(hotkey)->Ok_0;
            spec_find_our_shortcut(spec_set_shortcut(content, hotkey)->Ok_0) == Some(
                spec_format_entry(our_entry(mods, key)),
            )
        }),
{
    let (mods, key) = spec_parse_hotkey(hotkey)->Ok_0;
    let es = parse_entries(content);
    let o = others(es);
    let ours = our_entry(mods, key);
    let l = o.push(ours);
    lemma_parsed_entries_safe(content);
    lemma_others_not_ours(es);
    lemma_our_description_wf();
    assert(entry_wf(ours));
    lemma_wf_spawn_safe(ours);
    assert forall|i: int| 0 <= i < o.len() implies entry_spawn_safe(#[trigger] o[i]) by {
        let j = choose|j: int| 0 <= j < es.len() && o[i] == es[j];
        assert(entry_spawn_safe(es[j]));
    }
    assert forall|i: int| 0 <= i < l.len() implies entry_spawn_safe(#[trigger] l[i]) by {
        if i < o.len() {
            assert(l[i] == o[i]);
        } else {
            assert(l[i] == ours);
        }
    }
    lemma_split_serialized(None, l);
    assert(serialize(l) == lead(None) + serialize_all(l) + "}"@);
    lemma_find_ours(None, o, ours);
}

// ---------------------------------------------------------------------
// What reading gives
// ---------------------------------------------------------------------

/// An entry as reading can give it: a non-empty key, no quote in the key
/// or the command, and modifiers that are non-empty, trimmed and free of
/// commas.
pub open spec fn entry_clean(e: EntryView) -> bool {
    &&& e.key.len() > 0
    &&& char_free(e.key, '"')
    &&& char_free(e.command, '"')
    &&& forall|i: int|
        0 <= i < e.modifiers.len() ==> {
            let m = #[trigger] e.modifiers[i];
            &&& m.len() > 0
            &&& trim(m) == m
            &&& char_free(m, ',')
        }
}

proof fn lemma_split_char_pieces(t: Seq<char>, c: char)
    ensures
        forall|k: int| 0 <= k < split(t, seq![c]).len() ==> char_free(#[trigger] split(t, seq![c])[k], c),
    decreases t.len(),
{
    let pat = seq![c];
    if exists|i: int| is_first_match(t, pat, i) {
        let i = choose|i: int| is_first_match(t, pat, i);
        let rest = t.subrange(i + 1, t.len() as int);
        lemma_split_step(t, pat, i);
        lemma_split_char_pieces(rest, c);
        assert(char_free(t.subrange(0, i), c)) by {
            assert forall|j: int| 0 <= j < i implies t.subrange(0, i)[j] != c by {
                if t[j] == c {
                    assert(matches_at(t, pat, j)) by {
                        assert forall|k: int| 0 <= k < pat.len() implies #[trigger] t[j + k] == pat[k] by {}
                    }
                }
            }
        }
        assert forall|k: int| 0 <= k < split(t, pat).len() implies char_free(#[trigger] split(t, pat)[k], c) by {
            if k > 0 {
                assert(split(t, pat)[k] == split(rest, pat)[k - 1]);
            }
        }
    } else {
        assert(char_free(t, c)) by {
            assert forall|j: int| 0 <= j < t.len() implies t[j] != c by {
                if t[j] == c {
                    lemma_first_match_exists(t, c, j);
                }
            }
        }
        lemma_split_none(t, pat);
    }
}

/// An occurrence of `c` gives a first occurrence of `[c]`.
proof fn lemma_first_match_exists(t: Seq<char>, c: char, j: int)
    requires
        0 <= j < t.len(),
        t[j] == c,
    ensures
        exists|i: int| is_first_match(t, seq![c], i),
    decreases j,
{
    let pat = seq![c];
    if exists|k: int| 0 <= k < j && t[k] == c {
        let k = choose|k: int| 0 <= k < j && t[k] == c;
        lemma_first_match_exists(t, c, k);
    } else {
        assert(matches_at(t, pat, j)) by {
            assert forall|k: int| 0 <= k < pat.len() implies #[trigger] t[j + k] == pat[k] by {}
        }
        assert forall|k: int| 0 <= k < j implies !#[trigger] matches_at(t, pat, k) by {
            assert(t[k + 0] != pat[0]);
        }
        assert(is_first_match(t, pat, j));
    }
}

proof fn lemma_trim_start_char_free(x: Seq<char>, c: char)
    requires
        char_free(x, c),
    ensures
        char_free(trim_start(x), c),
        trim_start(x).len() == 0 || !is_white_space(trim_start(x)[0]),
    decreases x.len(),
{
    if x.len() > 0 && is_white_space(x[0]) {
        lemma_trim_start_char_free(x.drop_first(), c);
    }
}

proof fn lemma_trim_end_prefix(x: Seq<char>)
    ensures
        trim_end(x).len() <= x.len(),
        trim_end(x) == x.subrange(0, trim_end(x).len() as int),
        trim_end(x).len() == 0 || !is_white_space(trim_end(x).last()),
    decreases x.len(),
{
    if x.len() > 0 && is_white_space(x.last()) {
        lemma_trim_end_prefix(x.drop_last());
        assert(x.drop_last().subrange(0, trim_end(x).len() as int) =~= x.subrange(
            0,
            trim_end(x).len() as int,
        ));
    } else {
        assert(x.subrange(0, x.len() as int) =~= x);
    }
}

/// A trimmed piece of a comma-free text is comma-free, and trimming it
/// again changes nothing.
proof fn lemma_trim_clean(x: Seq<char>, c: char)
    requires
        char_free(x, c),
    ensures
        char_free(trim(x), c),
        trim(trim(x)) == trim(x),
{
    let y = trim_start(x);
    lemma_trim_start_char_free(x, c);
    lemma_trim_end_prefix(y);
    let z = trim_end(y);
    assert(char_free(z, c)) by {
        assert forall|j: int| 0 <= j < z.len() implies z[j] != c by {
            assert(z[j] == y[j]);
        }
    }
    if z.len() > 0 {
        assert(z[0] == y[0]);
    }
    assert(trim_start(z) == z);
    assert(trim_end(z) == z);
}

proof fn lemma_clean_pieces_clean(parts: Seq<Seq<char>>, c: char)
    requires
        forall|k: int| 0 <= k < parts.len() ==> char_free(#[trigger] parts[k], c),
    ensures
        forall|k: int|
            0 <= k < clean_pieces(parts).len() ==> {
                let m = #[trigger] clean_pieces(parts)[k];
                &&& m.len() > 0
                &&& trim(m) == m
                &&& char_free(m, c)
            },
    decreases parts.len(),
{
    if parts.len() > 0 {
        let rest = parts.drop_last();
        assert forall|k: int| 0 <= k < rest.len() implies char_free(#[trigger] rest[k], c) by {
            assert(rest[k] == parts[k]);
        }
        lemma_clean_pieces_clean(rest, c);
        assert(char_free(parts.last(), c)) by {
            assert(parts.last() == parts[parts.len() - 1]);
        }
        lemma_trim_clean(parts.last(), c);
        let cr = clean_pieces(rest);
        let t = trim(parts.last());
        if t.len() > 0 {
            assert(clean_pieces(parts) == cr.push(t));
            assert forall|k: int| 0 <= k < cr.push(t).len() implies {
                let m = #[trigger] cr.push(t)[k];
                &&& m.len() > 0
                &&& trim(m) == m
                &&& char_free(m, c)
            } by {
                if k < cr.len() {
                    assert(cr.push(t)[k] == cr[k]);
                }
            }
        } else {
            assert(clean_pieces(parts) == cr);
        }
    }
}

proof fn lemma_modifiers_clean(block: Seq<char>)
    ensures
        forall|k: int|
            0 <= k < parse_modifiers(block).len() ==> {
                let m = #[trigger] parse_modifiers(block)[k];
                &&& m.len() > 0
                &&& trim(m) == m
                &&& char_free(m, ',')
            },
{
    match (rfind(block, seq!['[']), rfind(block, seq![']'])) {
        (Some(s), Some(e)) => {
            if s < e {
                let inner = block.subrange(s + 1, e);
                lemma_split_char_pieces(inner, ',');
                lemma_clean_pieces_clean(split(inner, seq![',']), ',');
            }
        },
        _ => {},
    }
}

proof fn lemma_parse_blocks_clean(bs: Seq<Seq<char>>)
    ensures
        forall|i: int| 0 <= i < parse_blocks(bs).len() ==> entry_clean(#[trigger] parse_blocks(bs)[i]),
        bs.len() >= 1 ==> parse_blocks(bs).len() < bs.len(),
    decreases bs.len(),
{
    if bs.len() >= 2 {
        let rest = bs.drop_last();
        lemma_parse_blocks_clean(rest);
        let a = bs[bs.len() - 2];
        let b = bs.last();
        let r = parse_blocks(rest);
        if parse_pair(a, b) is Some {
            let e = parse_pair(a, b)->0;
            lemma_modifiers_clean(a);
            lemma_parse_pair_quote_free(a, b);
            assert forall|i: int| 0 <= i < r.push(e).len() implies entry_clean(#[trigger] r.push(e)[i]) by {
                if i < r.len() {
                    assert(r.push(e)[i] == r[i]);
                }
            }
        }
    }
}

/// The key and the command that a pair of blocks gives hold no quote.
proof fn lemma_parse_pair_quote_free(before: Seq<char>, after: Seq<char>)
    requires
        parse_pair(before, after) is Some,
    ensures
        char_free(parse_pair(before, after)->0.key, '"'),
        char_free(parse_pair(before, after)->0.command, '"'),
{
    let e = parse_pair(before, after)->0;
    let end = find(after, quote())->Some_0;
    assert(is_first_match(after, quote(), end));
    assert forall|j: int| 0 <= j < end implies after[j] != '"' by {
        if after[j] == '"' {
            assert(matches_at(after, quote(), j)) by {
                assert forall|k: int| 0 <= k < quote().len() implies #[trigger] after[j + k] == quote()[k] by {}
            }
        }
    }
    assert(char_free(e.command, '"')) by {
        assert forall|j: int| 0 <= j < e.command.len() implies e.command[j] != '"' by {
            assert(e.command[j] == after[j]);
        }
    }
    lemma_extract_quote_free(before, key_marker());
}

/// What `spec_extract_between` takes up to the next quote holds no quote.
proof fn lemma_extract_quote_free(text: Seq<char>, sm: Seq<char>)
    requires
        spec_extract_between(text, sm, quote()) is Some,
    ensures
        char_free(spec_extract_between(text, sm, quote())->0, '"'),
{
    let p = rfind(text, sm)->Some_0;
    let rest = text.subrange(p + sm.len(), text.len() as int);
    let end = find(rest, quote())->Some_0;
    assert(is_first_match(rest, quote(), end));
    let x = spec_extract_between(text, sm, quote())->0;
    assert(x == rest.subrange(0, end));
    assert forall|j: int| 0 <= j < x.len() implies x[j] != '"' by {
        if x[j] == '"' {
            assert(rest[j] == '"');
            assert(matches_at(rest, quote(), j)) by {
                assert forall|k: int| 0 <= k < quote().len() implies #[trigger] rest[j + k] == quote()[k] by {}
            }
        }
    }
}

/// Reading a shortcut file gives clean entries, at most one for each
/// `Spawn("` in the file: keys are non-empty, keys and commands hold no
/// quote, and modifiers are non-empty, trimmed and free of commas.
pub proof fn law_parsed_entries_are_clean(content: Seq<char>)
    ensures
        forall|i: int|
            0 <= i < parse_entries(content).len() ==> entry_clean(#[trigger] parse_entries(content)[i]),
        parse_entries(content).len() < split(content, spawn_marker()).len(),
{
    lemma_parse_blocks_clean(split(content, spawn_marker()));
    lemma_split_nonempty(content, spawn_marker());
}

proof fn lemma_split_nonempty(t: Seq<char>, pat: Seq<char>)
    ensures
        split(t, pat).len() >= 1,
    decreases t.len(),
{
    if pat.len() > 0 && exists|i: int| is_first_match(t, pat, i) {
        let i = choose|i: int| is_first_match(t, pat, i);
        lemma_split_nonempty(t.subrange(i + pat.len(), t.len() as int), pat);
    }
}

} // verus!
