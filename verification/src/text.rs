//! Character-level text model: occurrences of a pattern, splitting,
//! joining and trimming, over `Seq<char>`, with executable counterparts
//! working on `&[char]`.
use vstd::prelude::*;

verus! {

// ---------------------------------------------------------------------
// Specification
// ---------------------------------------------------------------------

/// `pat` occurs in `s` starting at position `i`.
pub open spec fn matches_at(s: Seq<char>, pat: Seq<char>, i: int) -> bool {
    &&& 0 <= i
    &&& i + pat.len() <= s.len()
    &&& forall|k: int| 0 <= k < pat.len() ==> #[trigger] s[i + k] == pat[k]
}

/// `i` is the leftmost occurrence of `pat` in `s`.
pub open spec fn is_first_match(s: Seq<char>, pat: Seq<char>, i: int) -> bool {
    &&& matches_at(s, pat, i)
    &&& forall|j: int| 0 <= j < i ==> !#[trigger] matches_at(s, pat, j)
}

/// `i` is the rightmost occurrence of `pat` in `s`.
pub open spec fn is_last_match(s: Seq<char>, pat: Seq<char>, i: int) -> bool {
    &&& matches_at(s, pat, i)
    &&& forall|j: int| i < j ==> !#[trigger] matches_at(s, pat, j)
}

/// Position of the leftmost occurrence of `pat` in `s` (as `str::find`).
pub open spec fn find(s: Seq<char>, pat: Seq<char>) -> Option<int> {
    if exists|i: int| is_first_match(s, pat, i) {
        Some(choose|i: int| is_first_match(s, pat, i))
    } else {
        None
    }
}

/// Position of the rightmost occurrence of `pat` in `s` (as `str::rfind`).
pub open spec fn rfind(s: Seq<char>, pat: Seq<char>) -> Option<int> {
    if exists|i: int| is_last_match(s, pat, i) {
        Some(choose|i: int| is_last_match(s, pat, i))
    } else {
        None
    }
}

/// `s` cut at every non-overlapping occurrence of `pat`, scanning from the
/// left (as `str::split` with a non-empty pattern).
pub open spec fn split(s: Seq<char>, pat: Seq<char>) -> Seq<Seq<char>>
    decreases s.len(),
{
    if pat.len() > 0 && exists|i: int| is_first_match(s, pat, i) {
        let i = choose|i: int| is_first_match(s, pat, i);
        seq![s.subrange(0, i)] + split(s.subrange(i + pat.len(), s.len() as int), pat)
    } else {
        seq![s]
    }
}

/// The pieces of `parts` with `sep` between consecutive pieces
/// (as `[String]::join`).
pub open spec fn join(parts: Seq<Seq<char>>, sep: Seq<char>) -> Seq<char>
    decreases parts.len(),
{
    if parts.len() == 0 {
        Seq::empty()
    } else if parts.len() == 1 {
        parts[0]
    } else {
        join(parts.drop_last(), sep) + sep + parts.last()
    }
}

/// The Unicode `White_Space` property, which `char::is_whitespace` tests.
pub open spec fn is_white_space(c: char) -> bool {
    ||| ('\u{9}' <= c && c <= '\u{d}')
    ||| c == ' '
    ||| c == '\u{85}'
    ||| c == '\u{a0}'
    ||| c == '\u{1680}'
    ||| ('\u{2000}' <= c && c <= '\u{200a}')
    ||| c == '\u{2028}'
    ||| c == '\u{2029}'
    ||| c == '\u{202f}'
    ||| c == '\u{205f}'
    ||| c == '\u{3000}'
}

/// `s` without its leading white space.
pub open spec fn trim_start(s: Seq<char>) -> Seq<char>
    decreases s.len(),
{
    if s.len() > 0 && is_white_space(s[0]) {
        trim_start(s.drop_first())
    } else {
        s
    }
}

/// `s` without its trailing white space.
pub open spec fn trim_end(s: Seq<char>) -> Seq<char>
    decreases s.len(),
{
    if s.len() > 0 && is_white_space(s.last()) {
        trim_end(s.drop_last())
    } else {
        s
    }
}

/// `s` without leading and trailing white space (as `str::trim`).
pub open spec fn trim(s: Seq<char>) -> Seq<char> {
    trim_end(trim_start(s))
}

/// `c` occurs in `s`.
pub open spec fn has_char(s: Seq<char>, c: char) -> bool {
    exists|i: int| 0 <= i < s.len() && s[i] == c
}

/// `s` ends with `suffix`.
pub open spec fn ends_with(s: Seq<char>, suffix: Seq<char>) -> bool {
    suffix.len() <= s.len() && s.subrange(s.len() - suffix.len(), s.len() as int) == suffix
}

/// What `str::to_lowercase` returns for a string holding `s`.
pub uninterp spec fn spec_str_to_lowercase(s: Seq<char>) -> Seq<char>;

/// What `str::to_uppercase` returns for a string holding `s`.
pub uninterp spec fn spec_str_to_uppercase(s: Seq<char>) -> Seq<char>;

/// The characters that `char::to_uppercase` yields for `c`.
pub uninterp spec fn spec_char_to_uppercase(c: char) -> Seq<char>;

// ---------------------------------------------------------------------
// Calls into std whose results are named above
// ---------------------------------------------------------------------

/// Calls `str::to_lowercase`; its result is named `spec_str_to_lowercase`
/// of the input's characters. Nothing more is claimed of it.
#[verifier::external_body]
fn str_to_lowercase(s: &str) -> (r: String)
    ensures
        r@ == spec_str_to_lowercase(s@),
{
    s.to_lowercase()
}

/// Calls `str::to_uppercase`; its result is named `spec_str_to_uppercase`
/// of the input's characters. Nothing more is claimed of it.
#[verifier::external_body]
fn str_to_uppercase(s: &str) -> (r: String)
    ensures
        r@ == spec_str_to_uppercase(s@),
{
    s.to_uppercase()
}

/// Calls `char::to_uppercase` and collects the characters it yields; they
/// are named `spec_char_to_uppercase(c)`.
#[verifier::external_body]
fn char_to_uppercase(c: char) -> (r: String)
    ensures
        r@ == spec_char_to_uppercase(c),
{
    c.to_uppercase().collect()
}

/// Collects a slice of characters into a `String` with
/// `Iterator::collect`, which appends each character in turn: the string
/// holds exactly those characters.
#[verifier::external_body]
pub(crate) fn string_from_chars(cs: &[char]) -> (r: String)
    ensures
        r@ == cs@,
{
    cs.iter().collect()
}

// ---------------------------------------------------------------------
// Executable operations
// ---------------------------------------------------------------------

/// The characters of `s`, in order.
pub fn chars_of(s: &str) -> (r: Vec<char>)
    ensures
        r@ == s@,
{
    let mut r: Vec<char> = Vec::new();
    let n = s.unicode_len();
    let mut i: usize = 0;
    while i < n
        invariant
            n == s@.len(),
            i <= n,
            r@ == s@.subrange(0, i as int),
        decreases n - i,
    {
        r.push(s.get_char(i));
        i += 1;
        assert(r@ =~= s@.subrange(0, i as int));
    }
    assert(r@ =~= s@);
    r
}

/// A copy of `s[from..to]`.
pub fn copy_range(s: &[char], from: usize, to: usize) -> (r: Vec<char>)
    requires
        from <= to <= s@.len(),
    ensures
        r@ == s@.subrange(from as int, to as int),
{
    let mut r: Vec<char> = Vec::new();
    let mut i = from;
    while i < to
        invariant
            from <= i <= to <= s@.len(),
            r@ == s@.subrange(from as int, i as int),
        decreases to - i,
    {
        r.push(s[i]);
        i += 1;
        assert(r@ =~= s@.subrange(from as int, i as int));
    }
    r
}

/// Appends `t` to `r`.
pub fn push_all(r: &mut Vec<char>, t: &[char])
    ensures
        final(r)@ == old(r)@ + t@,
{
    let mut i: usize = 0;
    let ghost start = r@;
    while i < t.len()
        invariant
            i <= t@.len(),
            r@ == start + t@.subrange(0, i as int),
        decreases t.len() - i,
    {
        r.push(t[i]);
        i += 1;
        assert(r@ =~= start + t@.subrange(0, i as int));
    }
    assert(t@.subrange(0, t@.len() as int) =~= t@);
}

/// Appends the characters of `t` to `r`.
pub fn push_str(r: &mut Vec<char>, t: &str)
    ensures
        final(r)@ == old(r)@ + t@,
{
    let cs = chars_of(t);
    push_all(r, cs.as_slice());
}

/// Whether `pat` occurs in `s` at position `i`.
pub fn matches_at_exec(s: &[char], pat: &[char], i: usize) -> (b: bool)
    ensures
        b == matches_at(s@, pat@, i as int),
{
    if i > s.len() || pat.len() > s.len() - i {
        return false;
    }
    let mut k: usize = 0;
    while k < pat.len()
        invariant
            i + pat@.len() <= s.len(),
            k <= pat@.len(),
            forall|m: int| 0 <= m < k ==> #[trigger] s@[i + m] == pat@[m],
        decreases pat.len() - k,
    {
        let pos: usize = i + k;
        if s[pos] != pat[k] {
            assert(s@[i + k as int] != pat@[k as int]);
            return false;
        }
        k += 1;
    }
    true
}

/// Leftmost occurrence of `pat` in `s`.
pub fn find_exec(s: &[char], pat: &[char]) -> (r: Option<usize>)
    ensures
        match r {
            Some(i) => find(s@, pat@) == Some(i as int) && i + pat@.len() <= s@.len() && matches_at(
                s@,
                pat@,
                i as int,
            ),
            None => find(s@, pat@) is None && forall|j: int| !matches_at(s@, pat@, j),
        },
{
    if pat.len() > s.len() {
        assert forall|j: int| !is_first_match(s@, pat@, j) by {}
        return None;
    }
    let limit: usize = s.len() - pat.len();
    let mut i: usize = 0;
    loop
        invariant
            limit == s@.len() - pat@.len(),
            i <= limit,
            forall|j: int| 0 <= j < i ==> !#[trigger] matches_at(s@, pat@, j),
        ensures
            forall|j: int| 0 <= j <= limit ==> !#[trigger] matches_at(s@, pat@, j),
        decreases limit - i,
    {
        if matches_at_exec(s, pat, i) {
            assert(is_first_match(s@, pat@, i as int));
            proof { lemma_first_match_unique(s@, pat@, i as int); }
            return Some(i);
        }
        if i >= limit {
            break;
        }
        i += 1;
    }
    assert forall|j: int| !is_first_match(s@, pat@, j) by {
        if j > limit {
            assert(!matches_at(s@, pat@, j));
        }
    }
    None
}

/// Rightmost occurrence of `pat` in `s`.
pub fn rfind_exec(s: &[char], pat: &[char]) -> (r: Option<usize>)
    ensures
        match r {
            Some(i) => rfind(s@, pat@) == Some(i as int) && i + pat@.len() <= s@.len(),
            None => rfind(s@, pat@) is None,
        },
{
    if pat.len() > s.len() {
        assert forall|j: int| !is_last_match(s@, pat@, j) by {}
        return None;
    }
    let mut i: usize = s.len() - pat.len();
    assert forall|j: int| i < j implies !matches_at(s@, pat@, j) by {}
    loop
        invariant
            i <= s@.len() - pat@.len(),
            forall|j: int| i < j ==> !#[trigger] matches_at(s@, pat@, j),
        ensures
            forall|j: int| 0 <= j ==> !#[trigger] matches_at(s@, pat@, j),
        decreases i,
    {
        if matches_at_exec(s, pat, i) {
            assert(is_last_match(s@, pat@, i as int));
            proof { lemma_last_match_unique(s@, pat@, i as int); }
            return Some(i);
        }
        if i == 0 {
            break;
        }
        i -= 1;
    }
    assert forall|j: int| !is_last_match(s@, pat@, j) by {
        if j < 0 {
            assert(!matches_at(s@, pat@, j));
        }
    }
    None
}

/// A leftmost occurrence is the one that `find` names.
pub proof fn lemma_first_match_unique(s: Seq<char>, pat: Seq<char>, i: int)
    requires
        is_first_match(s, pat, i),
    ensures
        find(s, pat) == Some(i),
{
    let j = choose|j: int| is_first_match(s, pat, j);
    if j < i {
        assert(!matches_at(s, pat, j));
    } else if i < j {
        assert(!matches_at(s, pat, i));
    }
}

/// A rightmost occurrence is the one that `rfind` names.
pub proof fn lemma_last_match_unique(s: Seq<char>, pat: Seq<char>, i: int)
    requires
        is_last_match(s, pat, i),
    ensures
        rfind(s, pat) == Some(i),
{
    let j = choose|j: int| is_last_match(s, pat, j);
    if j < i {
        assert(!matches_at(s, pat, i));
    } else if i < j {
        assert(!matches_at(s, pat, j));
    }
}

/// One step of `split`: the text before the first occurrence, then the
/// split of the rest.
pub proof fn lemma_split_step(s: Seq<char>, pat: Seq<char>, i: int)
    requires
        pat.len() > 0,
        is_first_match(s, pat, i),
    ensures
        split(s, pat) == seq![s.subrange(0, i)] + split(
            s.subrange(i + pat.len(), s.len() as int),
            pat,
        ),
{
    lemma_first_match_unique(s, pat, i);
}

/// Without an occurrence, `split` yields the whole text.
pub proof fn lemma_split_none(s: Seq<char>, pat: Seq<char>)
    requires
        find(s, pat) is None,
    ensures
        split(s, pat) == seq![s],
{
}

/// How many times `c` occurs in `s`.
pub open spec fn count_char(s: Seq<char>, c: char) -> nat
    decreases s.len(),
{
    if s.len() == 0 {
        0
    } else {
        (if s[0] == c {
            1nat
        } else {
            0nat
        }) + count_char(s.drop_first(), c)
    }
}

proof fn lemma_count_add(a: Seq<char>, b: Seq<char>, c: char)
    ensures
        count_char(a + b, c) == count_char(a, c) + count_char(b, c),
    decreases a.len(),
{
    if a.len() > 0 {
        assert((a + b).drop_first() =~= a.drop_first() + b);
        lemma_count_add(a.drop_first(), b, c);
    } else {
        assert(a + b =~= b);
    }
}

proof fn lemma_count_none(a: Seq<char>, c: char)
    requires
        char_free(a, c),
    ensures
        count_char(a, c) == 0,
    decreases a.len(),
{
    if a.len() > 0 {
        lemma_count_none(a.drop_first(), c);
    }
}

/// Splitting at a character gives one piece more than the character
/// occurs.
pub proof fn lemma_split_char_len(s: Seq<char>, c: char)
    ensures
        split(s, seq![c]).len() == count_char(s, c) + 1,
        has_char(s, c) <==> count_char(s, c) > 0,
    decreases s.len(),
{
    let pat = seq![c];
    if exists|i: int| 0 <= i < s.len() && s[i] == c {
        lemma_first_char(s, c, choose|i: int| 0 <= i < s.len() && s[i] == c);
        let i = choose|i: int| 0 <= i < s.len() && s[i] == c && forall|j: int| 0 <= j < i ==> s[j] != c;
        assert(matches_at(s, pat, i)) by {
            assert forall|k: int| 0 <= k < pat.len() implies #[trigger] s[i + k] == pat[k] by {}
        }
        assert forall|j: int| 0 <= j < i implies !#[trigger] matches_at(s, pat, j) by {
            assert(s[j + 0] != pat[0]);
        }
        lemma_split_step(s, pat, i);
        let rest = s.subrange(i + 1, s.len() as int);
        lemma_split_char_len(rest, c);
        assert(s =~= s.subrange(0, i) + (seq![c] + rest));
        lemma_count_add(s.subrange(0, i), seq![c] + rest, c);
        lemma_count_add(seq![c], rest, c);
        assert((seq![c] + rest).drop_first() =~= rest);
        lemma_count_none(s.subrange(0, i), c);
        assert(count_char(seq![c], c) == 1) by {
            assert(seq![c].drop_first().len() == 0);
        }
    } else {
        assert(char_free(s, c));
        lemma_count_none(s, c);
        if exists|i: int| is_first_match(s, pat, i) {
            let i = choose|i: int| is_first_match(s, pat, i);
            assert(s[i + 0] == pat[0]);
        }
        lemma_split_none(s, pat);
    }
}

/// Some occurrence of `c` has none before it.
proof fn lemma_first_char(s: Seq<char>, c: char, k: int)
    requires
        0 <= k < s.len(),
        s[k] == c,
    ensures
        exists|i: int| 0 <= i < s.len() && s[i] == c && forall|j: int| 0 <= j < i ==> s[j] != c,
    decreases k,
{
    if exists|j: int| 0 <= j < k && s[j] == c {
        let j = choose|j: int| 0 <= j < k && s[j] == c;
        lemma_first_char(s, c, j);
    } else {
        assert(forall|j: int| 0 <= j < k ==> s[j] != c);
    }
}

/// The pieces of `s` between the occurrences of `pat`.
pub fn split_exec(s: &[char], pat: &[char]) -> (r: Vec<Vec<char>>)
    requires
        pat@.len() > 0,
    ensures
        r@.map_values(|v: Vec<char>| v@) == split(s@, pat@),
{
    let mut r: Vec<Vec<char>> = Vec::new();
    let mut start: usize = 0;
    assert(s@.subrange(0, s@.len() as int) =~= s@);
    assert(r@.map_values(|v: Vec<char>| v@) =~= Seq::<Seq<char>>::empty());
    loop
        invariant
            pat@.len() > 0,
            start <= s@.len(),
            r@.map_values(|v: Vec<char>| v@) + split(s@.subrange(start as int, s@.len() as int), pat@)
                == split(s@, pat@),
        decreases s@.len() - start,
    {
        let rest = copy_range(s, start, s.len());
        match find_exec(rest.as_slice(), pat) {
            Some(i) => {
                proof {
                    let ghost w = choose|j: int| is_first_match(rest@, pat@, j);
                    lemma_split_step(rest@, pat@, i as int);
                    assert(rest@.subrange(i + pat@.len(), rest@.len() as int) =~= s@.subrange(
                        start + i + pat@.len(),
                        s@.len() as int,
                    ));
                }
                let piece = copy_range(rest.as_slice(), 0, i);
                let ghost old_r = r@;
                r.push(piece);
                assert(r@.map_values(|v: Vec<char>| v@) =~= old_r.map_values(|v: Vec<char>| v@)
                    + seq![rest@.subrange(0, i as int)]);
                start = start + i + pat.len();
            },
            None => {
                proof { lemma_split_none(rest@, pat@); }
                let ghost old_r = r@;
                r.push(rest);
                assert(r@.map_values(|v: Vec<char>| v@) =~= old_r.map_values(|v: Vec<char>| v@)
                    + seq![s@.subrange(start as int, s@.len() as int)]);
                return r;
            },
        }
    }
}

/// `s` with `sep` between consecutive pieces.
pub fn join_exec(parts: &[Vec<char>], sep: &[char]) -> (r: Vec<char>)
    ensures
        r@ == join(parts@.map_values(|v: Vec<char>| v@), sep@),
{
    let mut r: Vec<char> = Vec::new();
    let mut i: usize = 0;
    while i < parts.len()
        invariant
            i <= parts@.len(),
            r@ == join(parts@.subrange(0, i as int).map_values(|v: Vec<char>| v@), sep@),
        decreases parts.len() - i,
    {
        let ghost prev = parts@.subrange(0, i as int).map_values(|v: Vec<char>| v@);
        let ghost next = parts@.subrange(0, i + 1).map_values(|v: Vec<char>| v@);
        assert(next.drop_last() =~= prev);
        if i > 0 {
            push_all(&mut r, sep);
        }
        push_all(&mut r, parts[i].as_slice());
        i += 1;
    }
    assert(parts@.subrange(0, parts@.len() as int) =~= parts@);
    r
}

/// Whether `c` is white space (as `char::is_whitespace`).
pub fn is_white_space_exec(c: char) -> (b: bool)
    ensures
        b == is_white_space(c),
{
    ('\u{9}' <= c && c <= '\u{d}') || c == ' ' || c == '\u{85}' || c == '\u{a0}' || c
        == '\u{1680}' || ('\u{2000}' <= c && c <= '\u{200a}') || c == '\u{2028}' || c
        == '\u{2029}' || c == '\u{202f}' || c == '\u{205f}' || c == '\u{3000}'
}

/// Dropping white space from the front is the same as skipping it first.
proof fn lemma_trim_start_skip(s: Seq<char>, i: int)
    requires
        0 <= i < s.len(),
        is_white_space(s[i]),
    ensures
        trim_start(s.subrange(i, s.len() as int)) == trim_start(s.subrange(i + 1, s.len() as int)),
{
    assert(s.subrange(i, s.len() as int).drop_first() =~= s.subrange(i + 1, s.len() as int));
}

/// Dropping white space from the back is the same as cutting it first.
proof fn lemma_trim_end_cut(s: Seq<char>, j: int)
    requires
        0 < j <= s.len(),
        is_white_space(s[j - 1]),
    ensures
        trim_end(s.subrange(0, j)) == trim_end(s.subrange(0, j - 1)),
{
    assert(s.subrange(0, j).drop_last() =~= s.subrange(0, j - 1));
}

/// `s` without leading and trailing white space.
pub fn trim_exec(s: &[char]) -> (r: Vec<char>)
    ensures
        r@ == trim(s@),
{
    let n = s.len();
    let mut i: usize = 0;
    assert(s@.subrange(0, n as int) =~= s@);
    while i < n && is_white_space_exec(s[i])
        invariant
            n == s@.len(),
            i <= n,
            trim_start(s@) == trim_start(s@.subrange(i as int, n as int)),
        decreases n - i,
    {
        proof { lemma_trim_start_skip(s@, i as int); }
        i += 1;
    }
    let ghost ts = s@.subrange(i as int, n as int);
    assert(trim_start(ts) == ts);
    let mut j: usize = n;
    assert(ts.subrange(0, (j - i) as int) =~= ts);
    while j > i && is_white_space_exec(s[j - 1])
        invariant
            n == s@.len(),
            i <= j <= n,
            ts == s@.subrange(i as int, n as int),
            trim_end(ts) == trim_end(ts.subrange(0, (j - i) as int)),
        decreases j - i,
    {
        proof { lemma_trim_end_cut(ts, (j - i) as int); }
        assert(ts.subrange(0, (j - 1 - i) as int) =~= ts.subrange(0, (j - i) as int).drop_last());
        j -= 1;
    }
    let r = copy_range(s, i, j);
    assert(r@ =~= ts.subrange(0, (j - i) as int));
    r
}

/// `s` lower-cased (as `str::to_lowercase`).
pub fn lowercase(s: &[char]) -> (r: Vec<char>)
    ensures
        r@ == spec_str_to_lowercase(s@),
{
    let st = string_from_chars(s);
    let lower = str_to_lowercase(st.as_str());
    chars_of(lower.as_str())
}

/// `s` upper-cased (as `str::to_uppercase`).
pub fn uppercase(s: &[char]) -> (r: Vec<char>)
    ensures
        r@ == spec_str_to_uppercase(s@),
{
    let st = string_from_chars(s);
    let upper = str_to_uppercase(st.as_str());
    chars_of(upper.as_str())
}

/// The characters that upper-casing `c` yields.
pub fn uppercase_char(c: char) -> (r: Vec<char>)
    ensures
        r@ == spec_char_to_uppercase(c),
{
    let st = char_to_uppercase(c);
    chars_of(st.as_str())
}

/// Whether two character sequences are equal.
pub fn chars_eq(a: &[char], b: &[char]) -> (r: bool)
    ensures
        r == (a@ == b@),
{
    if a.len() != b.len() {
        return false;
    }
    let mut i: usize = 0;
    while i < a.len()
        invariant
            a@.len() == b@.len(),
            i <= a@.len(),
            forall|k: int| 0 <= k < i ==> a@[k] == b@[k],
        decreases a.len() - i,
    {
        if a[i] != b[i] {
            return false;
        }
        i += 1;
    }
    assert(a@ =~= b@);
    true
}

/// Whether `a` holds exactly the characters of `b`.
pub fn chars_eq_str(a: &[char], b: &str) -> (r: bool)
    ensures
        r == (a@ == b@),
{
    let bs = chars_of(b);
    chars_eq(a, bs.as_slice())
}

// ---------------------------------------------------------------------
// Facts about occurrences
// ---------------------------------------------------------------------

/// `c` does not occur in `s`.
pub open spec fn char_free(s: Seq<char>, c: char) -> bool {
    forall|i: int| 0 <= i < s.len() ==> s[i] != c
}

/// The marker `w` followed by a quote does not occur in `t`.
pub open spec fn marker_free(t: Seq<char>, w: Seq<char>) -> bool {
    forall|i: int| !#[trigger] matches_at(t, w.push('"'), i)
}

/// A text without quotes holds no marker that ends with a quote.
pub proof fn lemma_quote_free_marker_free(x: Seq<char>, w: Seq<char>)
    requires
        char_free(x, '"'),
    ensures
        marker_free(x, w),
{
    assert forall|i: int| !#[trigger] matches_at(x, w.push('"'), i) by {
        if matches_at(x, w.push('"'), i) {
            assert(x[i + w.len()] == w.push('"')[w.len() as int]);
        }
    }
}

/// Around a quote, a marker ending with a quote can only occur on
/// either side, or end at that quote.
pub proof fn lemma_marker_free_concat(a: Seq<char>, b: Seq<char>, w: Seq<char>)
    requires
        char_free(w, '"'),
        marker_free(a, w),
        !ends_with(a, w),
        marker_free(b, w),
    ensures
        marker_free(a + seq!['"'] + b, w),
{
    let t = a + seq!['"'] + b;
    let m = w.push('"');
    assert forall|i: int| !#[trigger] matches_at(t, m, i) by {
        if matches_at(t, m, i) {
            let k = i + w.len();
            assert(t[k] == m[w.len() as int]);
            if k < a.len() {
                assert forall|j: int| 0 <= j < m.len() implies #[trigger] a[i + j] == m[j] by {
                    assert(t[i + j] == m[j]);
                }
                assert(matches_at(a, m, i));
            } else if k == a.len() {
                assert(a.subrange(a.len() - w.len(), a.len() as int) =~= w) by {
                    assert forall|j: int| 0 <= j < w.len() implies a.subrange(
                        a.len() - w.len(),
                        a.len() as int,
                    )[j] == w[j] by {
                        assert(t[i + j] == m[j]);
                    }
                }
            } else if i <= a.len() {
                let j = a.len() - i;
                assert(t[i + j] == m[j]);
                assert(m[j] == w[j]);
            } else {
                let s = i - a.len() - 1;
                assert forall|j: int| 0 <= j < m.len() implies #[trigger] b[s + j] == m[j] by {
                    assert(t[i + j] == m[j]);
                }
                assert(matches_at(b, m, s));
            }
        }
    }
}

/// In `pre + w + "\"" + suf`, the last occurrence of the marker is the
/// one after `pre` when `suf` holds none.
pub proof fn lemma_rfind_marker(pre: Seq<char>, w: Seq<char>, suf: Seq<char>)
    requires
        char_free(w, '"'),
        marker_free(suf, w),
    ensures
        rfind(pre + w + seq!['"'] + suf, w.push('"')) == Some(pre.len() as int),
{
    let t = pre + w + seq!['"'] + suf;
    let m = w.push('"');
    let p = pre.len() as int;
    assert forall|k: int| 0 <= k < m.len() implies #[trigger] t[p + k] == m[k] by {
        if k < w.len() {
            assert(t[p + k] == w[k]);
        }
    }
    assert(matches_at(t, m, p));
    assert forall|j: int| p < j implies !#[trigger] matches_at(t, m, j) by {
        if matches_at(t, m, j) {
            let q = p + w.len();
            if j <= q {
                let k = q - j;
                assert(t[j + k] == m[k]);
                assert(k < w.len());
                assert(m[k] == w[k]);
            } else {
                let s = j - q - 1;
                assert forall|k: int| 0 <= k < m.len() implies #[trigger] suf[s + k] == m[k] by {
                    assert(t[j + k] == m[k]);
                }
                assert(matches_at(suf, m, s));
            }
        }
    }
    lemma_last_match_unique(t, m, p);
}

/// In `x + w + "\"" + y`, the first occurrence of the marker is the one
/// after `x` when `x` holds none.
pub proof fn lemma_first_marker(x: Seq<char>, w: Seq<char>, y: Seq<char>)
    requires
        char_free(w, '"'),
        marker_free(x, w),
    ensures
        is_first_match(x + w + seq!['"'] + y, w.push('"'), x.len() as int),
        find(x + w + seq!['"'] + y, w.push('"')) == Some(x.len() as int),
{
    let t = x + w + seq!['"'] + y;
    let m = w.push('"');
    let p = x.len() as int;
    assert forall|k: int| 0 <= k < m.len() implies #[trigger] t[p + k] == m[k] by {
        if k < w.len() {
            assert(t[p + k] == w[k]);
        }
    }
    assert(matches_at(t, m, p));
    assert forall|j: int| 0 <= j < p implies !#[trigger] matches_at(t, m, j) by {
        if matches_at(t, m, j) {
            let q = j + w.len();
            assert(t[q] == m[w.len() as int]);
            if q < p {
                assert forall|k: int| 0 <= k < m.len() implies #[trigger] x[j + k] == m[k] by {
                    assert(t[j + k] == m[k]);
                }
                assert(matches_at(x, m, j));
            } else {
                assert(t[q] == w[q - p]);
            }
        }
    }
    lemma_first_match_unique(t, m, p);
}

/// In `x + m + y` where `x` lacks the first character of `m`, the first
/// occurrence of `m` is the one after `x`.
pub proof fn lemma_first_after_free(x: Seq<char>, m: Seq<char>, y: Seq<char>)
    requires
        m.len() > 0,
        char_free(x, m[0]),
    ensures
        is_first_match(x + m + y, m, x.len() as int),
        find(x + m + y, m) == Some(x.len() as int),
{
    let t = x + m + y;
    let p = x.len() as int;
    assert forall|k: int| 0 <= k < m.len() implies #[trigger] t[p + k] == m[k] by {}
    assert(matches_at(t, m, p));
    assert forall|j: int| 0 <= j < p implies !#[trigger] matches_at(t, m, j) by {
        if matches_at(t, m, j) {
            assert(t[j + 0] == m[0]);
        }
    }
    lemma_first_match_unique(t, m, p);
}

/// In `x + [c] + y` where `y` lacks `c`, the last `c` is the one after `x`.
pub proof fn lemma_rfind_char(x: Seq<char>, c: char, y: Seq<char>)
    requires
        char_free(y, c),
    ensures
        rfind(x + seq![c] + y, seq![c]) == Some(x.len() as int),
{
    let t = x + seq![c] + y;
    let p = x.len() as int;
    assert(t[p + 0] == c);
    assert(matches_at(t, seq![c], p));
    assert forall|j: int| p < j implies !#[trigger] matches_at(t, seq![c], j) by {
        if matches_at(t, seq![c], j) {
            assert(t[j + 0] == seq![c][0]);
            assert(y[j - p - 1] == c);
        }
    }
    lemma_last_match_unique(t, seq![c], p);
}

} // verus!
