use vstd::prelude::*;
use crate::registry::{Options, Registry, ScratchpadDefinition};
use crate::registry::{spec_fold_entries, spec_triples};

verus! {

// Byte values the config grammar singles out.
pub const DOUBLE_QUOTE: u8 = 34;
pub const SINGLE_QUOTE: u8 = 39;
pub const NEWLINE: u8 = 10;

/// A word byte: ASCII letter, digit or underscore, or any byte of a
/// multi-byte character, so that unquoted tokens holding such
/// characters stay in one piece. Word tokens are maximal runs of these.
pub open spec fn is_word_byte(b: u8) -> bool {
    (48 <= b <= 57) || (65 <= b <= 90) || (97 <= b <= 122) || b == 95 || b >= 128
}

/// The marker keyword "hyprscratch" that singles out config lines
/// declaring a scratchpad.
pub open spec fn spec_marker() -> Seq<u8> {
    seq![104u8, 121u8, 112u8, 114u8, 115u8, 99u8, 114u8, 97u8, 116u8, 99u8, 104u8]
}

/// Offset of the first occurrence of byte `b` in `s` at or after `from`,
/// counted from `from`; `None` when there is none.
pub open spec fn spec_find_off(s: Seq<u8>, b: u8, from: int) -> Option<nat>
    decreases s.len() - from,
{
    if from < 0 || from >= s.len() {
        None
    } else if s[from] == b {
        Some(0nat)
    } else {
        match spec_find_off(s, b, from + 1) {
            Some(o) => Some((o + 1) as nat),
            None => None,
        }
    }
}

/// What the offset of the first occurrence means, spelled out.
pub proof fn lemma_find_off(s: Seq<u8>, b: u8, from: int)
    requires
        0 <= from,
    ensures
        match spec_find_off(s, b, from) {
            Some(off) => from + off < s.len() && s[from + off] == b
                && (forall|k: int| from <= k < from + off ==> s[k] != b),
            None => forall|k: int| from <= k < s.len() ==> s[k] != b,
        },
    decreases s.len() - from,
{
    if from < s.len() && s[from] != b {
        lemma_find_off(s, b, from + 1);
    }
}

/// The first occurrence of `b` at or after `from` stands `m` bytes
/// further on.
pub proof fn lemma_find_off_at(s: Seq<u8>, b: u8, from: int, m: int)
    requires
        0 <= from,
        0 <= m,
        from + m < s.len(),
        forall|q: int| from <= q < from + m ==> s[q] != b,
        s[from + m] == b,
    ensures
        spec_find_off(s, b, from) == Some(m as nat),
    decreases m,
{
    if m > 0 {
        lemma_find_off_at(s, b, from + 1, m - 1);
    }
}

/// No occurrence of `b` at or after `from` means the scan finds none.
pub proof fn lemma_find_off_none(s: Seq<u8>, b: u8, from: int)
    requires
        0 <= from,
        forall|q: int| from <= q < s.len() ==> s[q] != b,
    ensures
        spec_find_off(s, b, from) is None,
{
    lemma_find_off(s, b, from);
    if spec_find_off(s, b, from) is Some {
        let off = spec_find_off(s, b, from)->Some_0;
        assert(s[from + off] == b);
    }
}

/// Length of the run of word bytes starting at `i`.
pub open spec fn spec_word_len(s: Seq<u8>, i: int) -> nat
    decreases s.len() - i,
{
    if i < 0 || i >= s.len() || !is_word_byte(s[i]) {
        0
    } else {
        (1 + spec_word_len(s, i + 1)) as nat
    }
}

/// The word run starting at `i` stays within `s` and is maximal.
pub proof fn lemma_word_len(s: Seq<u8>, i: int)
    requires
        0 <= i <= s.len(),
    ensures
        i + spec_word_len(s, i) <= s.len(),
        forall|k: int| i <= k < i + spec_word_len(s, i) ==> is_word_byte(s[k]),
        i + spec_word_len(s, i) == s.len()
            || !is_word_byte(s[i + spec_word_len(s, i)]),
    decreases s.len() - i,
{
    if i < s.len() && is_word_byte(s[i]) {
        lemma_word_len(s, i + 1);
    }
}

/// The tokens of one config line from position `i` on, scanned left to
/// right. A token is a double-quoted or single-quoted string (shortest
/// closing, at least one byte between the quotes, quotes kept) or a
/// maximal run of word bytes; all other bytes separate tokens.
pub open spec fn spec_tokens_from(s: Seq<u8>, i: int) -> Seq<Seq<u8>>
    decreases s.len() - i,
    via spec_tokens_from_decreases
{
    if i < 0 || i >= s.len() {
        Seq::empty()
    } else if s[i] == DOUBLE_QUOTE || s[i] == SINGLE_QUOTE {
        match spec_find_off(s, s[i], i + 2) {
            Some(off) => seq![s.subrange(i, i + 3 + off)]
                + spec_tokens_from(s, i + 3 + off),
            None => spec_tokens_from(s, i + 1),
        }
    } else if is_word_byte(s[i]) {
        seq![s.subrange(i, i + 1 + spec_word_len(s, i + 1))]
            + spec_tokens_from(s, i + 1 + spec_word_len(s, i + 1))
    } else {
        spec_tokens_from(s, i + 1)
    }
}

#[via_fn]
proof fn spec_tokens_from_decreases(s: Seq<u8>, i: int) {
    if 0 <= i < s.len() {
        if s[i] == DOUBLE_QUOTE || s[i] == SINGLE_QUOTE {
            lemma_find_off(s, s[i], i + 2);
        } else if is_word_byte(s[i]) {
            lemma_word_len(s, i + 1);
        }
    }
}

/// First index `j >= from` with `s[j] == b`, or `None`.
pub fn find_byte_from(s: &Vec<u8>, b: u8, from: usize) -> (r: Option<usize>)
    ensures
        match r {
            Some(j) => from <= j < s@.len() && s@[j as int] == b
                && spec_find_off(s@, b, from as int) == Some((j - from) as nat),
            None => spec_find_off(s@, b, from as int) is None,
        },
{
    proof {
        lemma_find_off(s@, b, from as int);
    }
    let mut j: usize = from;
    while j < s.len()
        invariant
            from <= j,
            forall|k: int| from <= k < j ==> s@[k] != b,
        decreases s@.len() - j,
    {
        if s[j] == b {
            proof {
                lemma_find_off(s@, b, from as int);
            }
            return Some(j);
        }
        j += 1;
    }
    None
}

/// Executable test for a word byte.
pub fn word_byte(c: u8) -> (r: bool)
    ensures
        r == is_word_byte(c),
{
    (48 <= c && c <= 57) || (65 <= c && c <= 90) || (97 <= c && c <= 122) || c == 95
        || c >= 128
}

/// End of the word-byte run that starts at `i`.
pub fn word_end_from(s: &Vec<u8>, i: usize) -> (r: usize)
    requires
        i <= s@.len(),
    ensures
        r == i + spec_word_len(s@, i as int),
{
    let mut j: usize = i;
    while j < s.len() && word_byte(s[j])
        invariant
            i <= j <= s@.len(),
            spec_word_len(s@, i as int) == (j - i) + spec_word_len(s@, j as int),
        decreases s@.len() - j,
    {
        j += 1;
    }
    j
}

/// True when the marker keyword stands at index `i` of `line`.
fn marker_at(line: &Vec<u8>, i: usize) -> (r: bool)
    requires
        i + 11 <= line@.len(),
    ensures
        r == (line@.subrange(i as int, i as int + 11) == spec_marker()),
{
    let m: Vec<u8> = vec![104u8, 121, 112, 114, 115, 99, 114, 97, 116, 99, 104];
    proof {
        assert(m@ =~= spec_marker());
    }
    let n: usize = line.len();
    let mut k: usize = 0;
    while k < 11
        invariant
            k <= 11,
            i + 11 <= n,
            n == line@.len(),
            m@ == spec_marker(),
            forall|t: int| 0 <= t < k ==> line@[i + t] == spec_marker()[t],
        decreases 11 - k,
    {
        if line[i + k] != m[k] {
            proof {
                assert(line@.subrange(i as int, i as int + 11)[k as int] != spec_marker()[k as int]);
            }
            return false;
        }
        k += 1;
    }
    proof {
        assert(line@.subrange(i as int, i as int + 11) =~= spec_marker());
    }
    true
}

/// First index at which the marker keyword occurs in `line` with at
/// least one byte after it, or `None`. Only such lines declare anything.
pub open spec fn spec_marker_from(line: Seq<u8>, i: int) -> Option<int>
    decreases line.len() - i,
{
    if i < 0 || i + 11 >= line.len() {
        None
    } else if line.subrange(i, i + 11) == spec_marker() {
        Some(i)
    } else {
        spec_marker_from(line, i + 1)
    }
}

/// Find the marker keyword as `spec_marker_from` describes it.
pub fn find_marker(line: &Vec<u8>) -> (r: Option<usize>)
    ensures
        match r {
            Some(i) => spec_marker_from(line@, 0) == Some(i as int)
                && i + 11 < line@.len(),
            None => spec_marker_from(line@, 0) is None,
        },
{
    let mut i: usize = 0;
    if line.len() < 12 {
        proof {
            lemma_marker_from_none(line@, 0);
        }
        return None;
    }
    while i <= line.len() - 12
        invariant
            line@.len() >= 12,
            i <= line@.len(),
            spec_marker_from(line@, 0) == spec_marker_from(line@, i as int),
        decreases line@.len() - i,
    {
        if marker_at(line, i) {
            return Some(i);
        }
        i += 1;
    }
    proof {
        lemma_marker_from_none(line@, i as int);
    }
    None
}

/// Past the last position where the marker could fit, the scan yields nothing.
proof fn lemma_marker_from_none(line: Seq<u8>, i: int)
    requires
        i + 11 >= line.len(),
    ensures
        spec_marker_from(line, i) is None,
{
}

/// Scan the tokens of `s` from position `start` on.
pub fn tokenize_from(s: &Vec<u8>, start: usize) -> (r: Vec<Vec<u8>>)
    requires
        start <= s@.len(),
    ensures
        r.deep_view() == spec_tokens_from(s@, start as int),
{
    let mut toks: Vec<Vec<u8>> = Vec::new();
    let mut i: usize = start;
    proof {
        assert(toks.deep_view() + spec_tokens_from(s@, start as int)
            =~~= spec_tokens_from(s@, start as int));
    }
    while i < s.len()
        invariant
            start <= i <= s@.len(),
            spec_tokens_from(s@, start as int)
                == toks.deep_view() + spec_tokens_from(s@, i as int),
        decreases s@.len() - i,
    {
        let ghost pre = toks.deep_view();
        let c = s[i];
        if c == DOUBLE_QUOTE || c == SINGLE_QUOTE {
            let after: usize = if s.len() - i >= 2 { i + 2 } else { s.len() };
            match find_byte_from(s, c, after) {
                Some(j) => {
                    let t = crate::subvec(s, i, j + 1);
                    toks.push(t);
                    proof {
                        let off = (j - (i + 2)) as nat;
                        assert(spec_find_off(s@, c, i as int + 2) == Some(off));
                        assert(i as int + 3 + off == j + 1);
                        assert(toks.deep_view()
                            =~~= pre + seq![s@.subrange(i as int, j + 1)]);
                        assert(toks.deep_view() + spec_tokens_from(s@, j + 1)
                            =~~= pre + spec_tokens_from(s@, i as int));
                    }
                    i = j + 1;
                }
                None => {
                    proof {
                        if s.len() - i >= 2 {
                            assert(spec_find_off(s@, c, i as int + 2) is None);
                        } else {
                            assert(after == s@.len());
                            assert(spec_find_off(s@, c, i as int + 2) is None);
                        }
                    }
                    i = i + 1;
                }
            }
        } else if word_byte(c) {
            proof {
                lemma_word_len(s@, i as int + 1);
            }
            let e = word_end_from(s, i);
            proof {
                assert(spec_word_len(s@, i as int) == 1 + spec_word_len(s@, i as int + 1));
                assert(e == i as int + 1 + spec_word_len(s@, i as int + 1));
                assert(e <= s@.len());
            }
            let t = crate::subvec(s, i, e);
            toks.push(t);
            proof {
                assert(toks.deep_view() =~~= pre + seq![s@.subrange(i as int, e as int)]);
                assert(toks.deep_view() + spec_tokens_from(s@, e as int)
                    =~~= pre + spec_tokens_from(s@, i as int));
            }
            i = e;
        } else {
            i = i + 1;
        }
    }
    proof {
        assert(toks.deep_view() + spec_tokens_from(s@, i as int) =~~= toks.deep_view());
    }
    toks
}

/// The lines of the config text from position `i` on, split on newline
/// bytes; the final line carries no terminator.
pub open spec fn spec_lines_from(s: Seq<u8>, i: int) -> Seq<Seq<u8>>
    decreases s.len() - i,
    via spec_lines_from_decreases
{
    if i < 0 || i > s.len() {
        Seq::empty()
    } else {
        match spec_find_off(s, NEWLINE, i) {
            Some(off) => seq![s.subrange(i, i + off)] + spec_lines_from(s, i + off + 1),
            None => seq![s.subrange(i, s.len() as int)],
        }
    }
}

#[via_fn]
proof fn spec_lines_from_decreases(s: Seq<u8>, i: int) {
    if 0 <= i <= s.len() {
        lemma_find_off(s, NEWLINE, i);
    }
}

/// Split the config text into its lines.
pub fn split_lines(s: &Vec<u8>) -> (r: Vec<Vec<u8>>)
    ensures
        r.deep_view() == spec_lines_from(s@, 0),
{
    let mut out: Vec<Vec<u8>> = Vec::new();
    let mut i: usize = 0;
    proof {
        assert(out.deep_view() + spec_lines_from(s@, 0) =~~= spec_lines_from(s@, 0));
    }
    loop
        invariant_except_break
            i <= s@.len(),
            spec_lines_from(s@, 0) == out.deep_view() + spec_lines_from(s@, i as int),
        ensures
            out.deep_view() == spec_lines_from(s@, 0),
        decreases s@.len() - i + 1,
    {
        let ghost pre = out.deep_view();
        let n: usize = s.len();
        match find_byte_from(s, NEWLINE, i) {
            Some(j) => {
                proof {
                    assert(j < n);
                }
                let t = crate::subvec(s, i, j);
                out.push(t);
                proof {
                    let off = (j - i) as nat;
                    assert(spec_find_off(s@, NEWLINE, i as int) == Some(off));
                    assert(out.deep_view() =~~= pre + seq![s@.subrange(i as int, j as int)]);
                    assert(out.deep_view() + spec_lines_from(s@, j + 1)
                        =~~= pre + spec_lines_from(s@, i as int));
                }
                i = j + 1;
            }
            None => {
                let t = crate::subvec(s, i, s.len());
                out.push(t);
                proof {
                    assert(out.deep_view()
                        =~~= pre + seq![s@.subrange(i as int, s@.len() as int)]);
                    assert(out.deep_view() =~~= pre + spec_lines_from(s@, i as int));
                }
                break;
            }
        }
    }
    out
}

/// The reserved second token "clean": such a line configures the daemon,
/// it defines no scratchpad.
pub open spec fn spec_clean() -> Seq<u8> {
    seq![99u8, 108u8, 101u8, 97u8, 110u8]
}

/// The reserved second token "hideall".
pub open spec fn spec_hideall() -> Seq<u8> {
    seq![104u8, 105u8, 100u8, 101u8, 97u8, 108u8, 108u8]
}

/// The option token "onstart", granting eager start.
pub open spec fn spec_onstart() -> Seq<u8> {
    seq![111u8, 110u8, 115u8, 116u8, 97u8, 114u8, 116u8]
}

/// The option token "shiny".
pub open spec fn spec_shiny() -> Seq<u8> {
    seq![115u8, 104u8, 105u8, 110u8, 121u8]
}

/// The option token "stack", granting stackable.
pub open spec fn spec_stack() -> Seq<u8> {
    seq![115u8, 116u8, 97u8, 99u8, 107u8]
}

fn clean_bytes() -> (r: Vec<u8>)
    ensures
        r@ == spec_clean(),
{
    let v: Vec<u8> = vec![99u8, 108, 101, 97, 110];
    proof {
        assert(v@ =~= spec_clean());
    }
    v
}

fn hideall_bytes() -> (r: Vec<u8>)
    ensures
        r@ == spec_hideall(),
{
    let v: Vec<u8> = vec![104u8, 105, 100, 101, 97, 108, 108];
    proof {
        assert(v@ =~= spec_hideall());
    }
    v
}

fn onstart_bytes() -> (r: Vec<u8>)
    ensures
        r@ == spec_onstart(),
{
    let v: Vec<u8> = vec![111u8, 110, 115, 116, 97, 114, 116];
    proof {
        assert(v@ =~= spec_onstart());
    }
    v
}

fn shiny_bytes() -> (r: Vec<u8>)
    ensures
        r@ == spec_shiny(),
{
    let v: Vec<u8> = vec![115u8, 104, 105, 110, 121];
    proof {
        assert(v@ =~= spec_shiny());
    }
    v
}

fn stack_bytes() -> (r: Vec<u8>)
    ensures
        r@ == spec_stack(),
{
    let v: Vec<u8> = vec![115u8, 116, 97, 99, 107];
    proof {
        assert(v@ =~= spec_stack());
    }
    v
}

/// A token stripped of its surrounding quotes, if it carries any.
pub open spec fn spec_dequote(t: Seq<u8>) -> Seq<u8> {
    if t.len() >= 2 && (t[0] == DOUBLE_QUOTE || t[0] == SINGLE_QUOTE) {
        t.subrange(1, t.len() - 1)
    } else {
        t
    }
}

/// Strip surrounding quotes as `spec_dequote` describes it.
pub fn dequote(t: &Vec<u8>) -> (r: Vec<u8>)
    ensures
        r@ == spec_dequote(t@),
{
    if t.len() >= 2 && (t[0] == DOUBLE_QUOTE || t[0] == SINGLE_QUOTE) {
        crate::subvec(t, 1, t.len() - 1)
    } else {
        let r = crate::subvec(t, 0, t.len());
        proof {
            assert(r@ =~= t@);
        }
        r
    }
}

/// The option flags granted by the tokens of one line from index `from` on.
pub open spec fn spec_options_of(toks: Seq<Seq<u8>>, from: int) -> Options {
    Options {
        eager_start: crate::spec_has_from(toks, spec_onstart(), from),
        shiny: crate::spec_has_from(toks, spec_shiny(), from),
        stackable: crate::spec_has_from(toks, spec_stack(), from),
    }
}

/// Read the option flags out of the tokens from index `from` on.
pub fn options_of(toks: &Vec<Vec<u8>>, from: usize) -> (r: Options)
    ensures
        r == spec_options_of(toks.deep_view(), from as int),
{
    let onstart = onstart_bytes();
    let shiny = shiny_bytes();
    let stack = stack_bytes();
    let mut eager_start = false;
    let mut has_shiny = false;
    let mut stackable = false;
    let mut i: usize = from;
    while i < toks.len()
        invariant
            from <= i,
            onstart@ == spec_onstart(),
            shiny@ == spec_shiny(),
            stack@ == spec_stack(),
            eager_start == (exists|j: int|
                from <= j < i && j < toks.deep_view().len()
                    && toks.deep_view()[j] == spec_onstart()),
            has_shiny == (exists|j: int|
                from <= j < i && j < toks.deep_view().len()
                    && toks.deep_view()[j] == spec_shiny()),
            stackable == (exists|j: int|
                from <= j < i && j < toks.deep_view().len()
                    && toks.deep_view()[j] == spec_stack()),
        decreases toks@.len() - i,
    {
        let t = &toks[i];
        proof {
            assert(toks.deep_view()[i as int] =~= t@);
        }
        if crate::bytes_eq(t, &onstart) {
            eager_start = true;
        }
        if crate::bytes_eq(t, &shiny) {
            has_shiny = true;
        }
        if crate::bytes_eq(t, &stack) {
            stackable = true;
        }
        i += 1;
    }
    Options { eager_start, shiny: has_shiny, stackable }
}

/// What one config line declares: the (title, command, options) triple of
/// a scratchpad definition, or nothing. A line declares nothing when the
/// marker keyword is absent, when fewer than two tokens follow the marker
/// token, or when the token after the marker is one of the reserved words
/// "clean" and "hideall".
pub open spec fn spec_line_entry(line: Seq<u8>) -> Option<(Seq<u8>, Seq<u8>, Options)> {
    match spec_marker_from(line, 0) {
        None => None,
        Some(p) => {
            let toks = spec_tokens_from(line, p);
            if toks.len() < 3 {
                None
            } else if toks[1] == spec_clean() || toks[1] == spec_hideall() {
                None
            } else {
                Some((spec_dequote(toks[1]), spec_dequote(toks[2]), spec_options_of(toks, 3)))
            }
        }
    }
}

/// The definition triples declared by a sequence of lines, in order.
pub open spec fn spec_entries(lines: Seq<Seq<u8>>) -> Seq<(Seq<u8>, Seq<u8>, Options)>
    decreases lines.len(),
{
    if lines.len() == 0 {
        Seq::empty()
    } else {
        match spec_line_entry(lines[0]) {
            Some(e) => seq![e] + spec_entries(lines.skip(1)),
            None => spec_entries(lines.skip(1)),
        }
    }
}

/// Appending a line appends what it declares.
proof fn lemma_entries_push(lines: Seq<Seq<u8>>, x: Seq<u8>)
    ensures
        spec_entries(lines.push(x)) == spec_entries(lines) + (match spec_line_entry(x) {
            Some(e) => seq![e],
            None => Seq::<(Seq<u8>, Seq<u8>, Options)>::empty(),
        }),
    decreases lines.len(),
{
    reveal_with_fuel(spec_entries, 3);
    if lines.len() == 0 {
        assert(lines.push(x)[0] == x);
        assert(lines.push(x).skip(1) =~= Seq::<Seq<u8>>::empty());
        match spec_line_entry(x) {
            Some(e) => {
                assert(spec_entries(lines.push(x)) =~= spec_entries(lines) + seq![e]);
            }
            None => {
                assert(spec_entries(lines.push(x))
                    =~= spec_entries(lines) + Seq::<(Seq<u8>, Seq<u8>, Options)>::empty());
            }
        }
    } else {
        assert(lines.push(x).skip(1) =~= lines.skip(1).push(x));
        lemma_entries_push(lines.skip(1), x);
        assert(lines.push(x)[0] == lines[0]);
        match spec_line_entry(lines[0]) {
            Some(e0) => {
                assert(spec_entries(lines.push(x)) =~= spec_entries(lines) + (
                    match spec_line_entry(x) {
                        Some(e) => seq![e],
                        None => Seq::<(Seq<u8>, Seq<u8>, Options)>::empty(),
                    }));
            }
            None => {
            }
        }
    }
}

/// The registry a config source declares: its lines' definition triples,
/// folded so that titles are unique and a later duplicate wins.
pub open spec fn spec_parse_config(text: Seq<u8>) -> Seq<(Seq<u8>, Seq<u8>, Options)> {
    spec_fold_entries(spec_entries(spec_lines_from(text, 0)))
}

/// Build a fresh registry from the bytes of the config source.
pub fn parse_config(text: &Vec<u8>) -> (r: Registry)
    ensures
        r.wf(),
        spec_triples(r.defs@) == spec_parse_config(text@),
{
    let lines = split_lines(text);
    let clean = clean_bytes();
    let hideall = hideall_bytes();
    let mut reg = Registry::new();
    let mut k: usize = 0;
    proof {
        assert(lines.deep_view().take(0) =~= Seq::<Seq<u8>>::empty());
        assert(spec_triples(reg.defs@) =~= Seq::<(Seq<u8>, Seq<u8>, Options)>::empty());
    }
    while k < lines.len()
        invariant
            k <= lines@.len(),
            lines.deep_view() == spec_lines_from(text@, 0),
            clean@ == spec_clean(),
            hideall@ == spec_hideall(),
            reg.wf(),
            spec_triples(reg.defs@) == spec_fold_entries(spec_entries(
                lines.deep_view().take(k as int))),
        decreases lines@.len() - k,
    {
        let ghost pre_entries = spec_entries(lines.deep_view().take(k as int));
        let line = &lines[k];
        proof {
            assert(lines.deep_view()[k as int] =~= line@);
            assert(lines.deep_view().take(k as int + 1)
                =~= lines.deep_view().take(k as int).push(line@));
            lemma_entries_push(lines.deep_view().take(k as int), line@);
        }
        match find_marker(line) {
            Some(p) => {
                let toks = tokenize_from(line, p);
                if toks.len() >= 3
                    && !crate::bytes_eq(&toks[1], &clean)
                    && !crate::bytes_eq(&toks[1], &hideall) {
                    proof {
                        assert(toks.deep_view()[1] =~= toks@[1]@);
                        assert(toks.deep_view()[2] =~= toks@[2]@);
                    }
                    let title = dequote(&toks[1]);
                    let command = dequote(&toks[2]);
                    let options = options_of(&toks, 3);
                    let d = ScratchpadDefinition { title, command, options };
                    proof {
                        let e = spec_line_entry(line@)->Some_0;
                        assert(d.spec_triple() == e);
                        assert(pre_entries.push(e).drop_last() =~= pre_entries);
                        assert(spec_entries(lines.deep_view().take(k as int + 1))
                            =~= pre_entries.push(e));
                    }
                    reg.upsert(d);
                } else {
                    proof {
                        if toks.len() >= 3 {
                            assert(toks.deep_view()[1] =~= toks@[1]@);
                        }
                        assert(spec_line_entry(line@) is None);
                        assert(spec_entries(lines.deep_view().take(k as int + 1))
                            =~= pre_entries);
                    }
                }
            }
            None => {
                proof {
                    assert(spec_line_entry(line@) is None);
                    assert(spec_entries(lines.deep_view().take(k as int + 1)) =~= pre_entries);
                }
            }
        }
        k += 1;
    }
    proof {
        assert(lines.deep_view().take(lines.deep_view().len() as int) =~= lines.deep_view());
    }
    reg
}

} // verus!
