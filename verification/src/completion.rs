//! Tab completion: which word is being completed, what completes it, and
//! how the candidates are presented.
use vstd::prelude::*;
use crate::commands::{PathEntry, builtin_names, builtin_list, is_executable};
use crate::strmap::StringMap;
use crate::text::{str_chars, string_from_chars, push_str_chars};
use crate::words::{is_ws, is_ws_exec, all_ws, split_ws, split_ws_exec, strictly_sorted, insert_sorted, lines_of, lines_exec};

verus! {

/// The characters that end a word for completion.
pub open spec fn break_char(c: char) -> bool {
    c == ' ' || c == '\t' || c == '"' || c == '\''
}

/// Whether `c` ends a word for completion.
pub fn is_break_char(c: char) -> (r: bool)
    ensures
        r == break_char(c),
{
    c == ' ' || c == '\t' || c == '"' || c == '\''
}

/// The number of bytes of a character in UTF-8.
pub open spec fn char_width(c: char) -> nat {
    if (c as u32) < 0x80 {
        1
    } else if (c as u32) < 0x800 {
        2
    } else if (c as u32) < 0x10000 {
        3
    } else {
        4
    }
}

/// The number of bytes of a text in UTF-8.
pub open spec fn byte_len(s: Seq<char>) -> nat
    decreases s.len(),
{
    if s.len() == 0 {
        0
    } else {
        byte_len(s.drop_last()) + char_width(s.last())
    }
}

/// `pos` is a byte offset at a character boundary of `s`.
pub open spec fn is_boundary(s: Seq<char>, pos: int) -> bool {
    exists|k: int| 0 <= k <= s.len() && byte_len(s.take(k)) == pos
}

/// How many characters of `s` lie before byte offset `pos`.
pub open spec fn chars_before(s: Seq<char>, pos: int) -> int {
    choose|k: int| 0 <= k <= s.len() && byte_len(s.take(k)) == pos
}

/// The characters of `s` before byte offset `pos`.
pub open spec fn text_before(s: Seq<char>, pos: int) -> Seq<char> {
    s.take(chars_before(s, pos))
}

/// The position after the last break character of `p` (0 if none): where
/// the word that ends `p` starts.
pub open spec fn word_start(p: Seq<char>) -> int
    decreases p.len(),
{
    if p.len() == 0 {
        0
    } else if break_char(p.last()) {
        p.len() as int
    } else {
        word_start(p.drop_last())
    }
}

proof fn lemma_word_start(p: Seq<char>)
    ensures
        0 <= word_start(p) <= p.len(),
    decreases p.len(),
{
    if p.len() > 0 {
        lemma_word_start(p.drop_last());
    }
}

proof fn lemma_byte_len_mono(s: Seq<char>, i: int, k: int)
    requires
        0 <= i <= k <= s.len(),
    ensures
        byte_len(s.take(k)) >= byte_len(s.take(i)) + (k - i),
    decreases k - i,
{
    if i < k {
        lemma_byte_len_mono(s, i, k - 1);
        assert(s.take(k).drop_last() =~= s.take(k - 1));
    }
}

proof fn lemma_boundary_unique(s: Seq<char>, k: int, pos: int)
    requires
        0 <= k <= s.len(),
        byte_len(s.take(k)) == pos,
    ensures
        is_boundary(s, pos),
        chars_before(s, pos) == k,
{
    let j = chars_before(s, pos);
    if j < k {
        lemma_byte_len_mono(s, j, k);
    } else if j > k {
        lemma_byte_len_mono(s, k, j);
    }
}

fn width_exec(c: char) -> (w: usize)
    ensures
        w == char_width(c),
{
    let v = c as u32;
    if v < 0x80 {
        1
    } else if v < 0x800 {
        2
    } else if v < 0x10000 {
        3
    } else {
        4
    }
}

/// The number of characters before byte offset `pos`, if it is a
/// character boundary.
fn char_index_at_byte(cs: &Vec<char>, pos: usize) -> (r: Option<usize>)
    ensures
        match r {
            Some(k) => k <= cs.len() && byte_len(cs@.take(k as int)) == pos,
            None => !is_boundary(cs@, pos as int),
        },
{
    let mut acc: usize = 0;
    let mut i: usize = 0;
    assert(cs@.take(0) =~= Seq::<char>::empty());
    while i < cs.len() && acc < pos
        invariant
            i <= cs.len(),
            acc <= pos,
            acc == byte_len(cs@.take(i as int)),
        decreases cs.len() - i,
    {
        let w = width_exec(cs[i]);
        assert(cs@.take(i + 1).drop_last() =~= cs@.take(i as int));
        if w > pos - acc {
            proof {
                assert forall|k: int| 0 <= k <= cs.len() implies byte_len(cs@.take(k)) != pos by {
                    if k <= i {
                        lemma_byte_len_mono(cs@, k, i as int);
                    } else {
                        lemma_byte_len_mono(cs@, i + 1, k);
                    }
                }
            }
            return None;
        }
        acc = acc + w;
        i += 1;
    }
    if acc == pos {
        Some(i)
    } else {
        proof {
            assert forall|k: int| 0 <= k <= cs.len() implies byte_len(cs@.take(k)) != pos by {
                if k <= i {
                    lemma_byte_len_mono(cs@, k, i as int);
                }
            }
        }
        None
    }
}

/// Whether byte offset `pos` is a character boundary of `line`.
pub fn is_boundary_exec(line: &str, pos: usize) -> (r: bool)
    ensures
        r == is_boundary(line@, pos as int),
{
    let cs = str_chars(line);
    match char_index_at_byte(&cs, pos) {
        Some(k) => {
            proof {
                lemma_boundary_unique(cs@, k as int, pos as int);
            }
            true
        },
        None => false,
    }
}

/// `rustyline::completion::extract_word`, with no escape character and
/// `is_break_char`. Trusted: for a byte offset `pos` at a character boundary
/// of `line`, it returns the word that ends at `pos` (the characters after
/// the last break character before `pos`, or all of them) and the byte
/// offset at which that word starts.
#[verifier::external_body]
fn extract_word_at<'a>(line: &'a str, pos: usize) -> (r: (usize, &'a str))
    requires
        is_boundary(line@, pos as int),
    ensures
        r.1@ == text_before(line@, pos as int).skip(word_start(text_before(line@, pos as int))),
        r.0 == byte_len(text_before(line@, pos as int).take(word_start(text_before(line@, pos as int)))),
{
    rustyline::completion::extract_word(line, pos, None, is_break_char)
}

/// The word before the one being completed: the last word when the word
/// being completed is empty, else the one before it (the first word when
/// there are fewer than two).
pub open spec fn prev_word(words: Seq<Seq<char>>, word: Seq<char>) -> Seq<char> {
    if word.len() == 0 {
        if words.len() > 0 { words.last() } else { Seq::empty() }
    } else {
        let i: int = if words.len() >= 2 { words.len() - 2 } else { 0 };
        if i < words.len() { words[i] } else { Seq::empty() }
    }
}

/// What completing at a position needs.
pub enum CompletionPlan {
    /// Complete a command name: the builtins and the executables on the
    /// search path that start with `prefix`; the candidates replace the line
    /// from byte `start` on.
    Commands { start: usize, prefix: String },
    /// Run the completion script registered for the command `cmd` with
    /// `cmd`, the word being completed and the word before it; its output
    /// lines replace the line from byte `start` on.
    Script { start: usize, script: String, cmd: String, word: String, prev_word: String },
    /// Complete a file name.
    Files,
}

/// What completing `line` at byte offset `pos` needs: a command name when
/// only whitespace precedes the word being completed; else the script
/// registered for the line's first word, if any; else file names.
pub open spec fn completion_plan_holds(line: Seq<char>, pos: int, comps: Map<Seq<char>, Seq<char>>, plan: CompletionPlan) -> bool {
    let p = text_before(line, pos);
    let ws = word_start(p);
    let word = p.skip(ws);
    let start = byte_len(p.take(ws));
    if all_ws(p.take(ws)) {
        plan matches CompletionPlan::Commands { start: s, prefix } && s == start && prefix@ == word
    } else {
        let cmd = if split_ws(line).len() > 0 { split_ws(line)[0] } else { Seq::<char>::empty() };
        if comps.dom().contains(cmd) {
            plan matches CompletionPlan::Script { start: s, script, cmd: c, word: w, prev_word: pw } && s == start
                && script@ == comps[cmd] && c@ == cmd && w@ == word && pw@ == prev_word(split_ws(p), word)
        } else {
            plan is Files
        }
    }
}

/// Decides how to complete `line` at byte offset `pos`, as
/// `completion_plan_holds` says.
pub fn plan_completion(line: &str, pos: usize, completions: &StringMap) -> (plan: CompletionPlan)
    requires
        is_boundary(line@, pos as int),
    ensures
        completion_plan_holds(line@, pos as int, completions@, plan),
{
    let cs = str_chars(line);
    let k = match char_index_at_byte(&cs, pos) {
        Some(k) => k,
        None => {
            return CompletionPlan::Files;
        },
    };
    proof {
        lemma_boundary_unique(cs@, k as int, pos as int);
    }
    let ghost p = line@.take(k as int);
    let (start, word) = extract_word_at(line, pos);
    proof {
        lemma_word_start(p);
        assert(p.take(word_start(p)) =~= cs@.take(word_start(p)));
    }
    let w = match char_index_at_byte(&cs, start) {
        Some(w) => w,
        None => {
            return CompletionPlan::Files;
        },
    };
    proof {
        lemma_boundary_unique(cs@, word_start(p), start as int);
        lemma_boundary_unique(cs@, w as int, start as int);
        assert(p.take(word_start(p)) =~= cs@.take(w as int));
    }
    let mut i: usize = 0;
    let mut only_ws = true;
    while i < w
        invariant
            i <= w <= cs.len(),
            only_ws == (forall|j: int| 0 <= j < i ==> is_ws(#[trigger] cs@[j])),
        decreases w - i,
    {
        if !is_ws_exec(cs[i]) {
            only_ws = false;
        }
        i += 1;
    }
    assert(only_ws == all_ws(p.take(word_start(p)))) by {
        if !only_ws {
            let j = choose|j: int| 0 <= j < w && !is_ws(#[trigger] cs@[j]);
            assert(p.take(word_start(p))[j] == cs@[j]);
        }
    }
    if only_ws {
        let prefix = word.to_owned();
        return CompletionPlan::Commands { start, prefix };
    }
    let all_words = split_ws_exec(&cs, cs.len());
    assert(cs@.take(cs.len() as int) =~= line@);
    let cmd = if all_words.len() > 0 {
        assert(all_words.deep_view()[0] == all_words@[0]@);
        all_words[0].clone()
    } else {
        String::new()
    };
    match completions.get(cmd.as_str()) {
        Some(script) => {
            let words = split_ws_exec(&cs, k);
            let word_s = word.to_owned();
            let n = words.len();
            let pw = if word_s.as_str().is_empty() {
                if n > 0 {
                    assert(words.deep_view()[n - 1] == words@[n - 1]@);
                    words[n - 1].clone()
                } else {
                    String::new()
                }
            } else {
                let idx = if n >= 2 { n - 2 } else { 0 };
                if idx < n {
                    assert(words.deep_view()[idx as int] == words@[idx as int]@);
                    words[idx].clone()
                } else {
                    String::new()
                }
            };
            CompletionPlan::Script { start, script, cmd, word: word_s, prev_word: pw }
        },
        None => CompletionPlan::Files,
    }
}

/// A completion candidate: what the list shows and what replaces the word.
pub struct Pair {
    pub display: String,
    pub replacement: String,
}

/// `s` starts with `p`.
pub open spec fn has_prefix(s: Seq<char>, p: Seq<char>) -> bool {
    p.len() <= s.len() && s.take(p.len() as int) == p
}

fn has_prefix_exec(s: &Vec<char>, p: &Vec<char>) -> (r: bool)
    ensures
        r == has_prefix(s@, p@),
{
    if p.len() > s.len() {
        return false;
    }
    let mut i: usize = 0;
    while i < p.len()
        invariant
            i <= p.len() <= s.len(),
            forall|j: int| 0 <= j < i ==> s@[j] == p@[j],
        decreases p.len() - i,
    {
        if s[i] != p[i] {
            assert(s@.take(p.len() as int)[i as int] != p@[i as int]);
            return false;
        }
        i += 1;
    }
    assert(s@.take(p.len() as int) =~= p@);
    true
}

/// The names that complete `prefix` as a command: the builtins and the
/// executables on the search path whose names start with it.
pub open spec fn command_candidates(prefix: Seq<char>, entries: Seq<PathEntry>) -> Set<Seq<char>> {
    Set::new(
        |m: Seq<char>|
            has_prefix(m, prefix) && (builtin_names().contains(m) || exists|i: int|
                0 <= i < entries.len() && is_executable(entries[i].mode) && #[trigger] entries[i].file_name@ == m),
    )
}

/// One of the first `e` entries is an executable named `m`.
pub open spec fn listed_executable(entries: Seq<PathEntry>, e: int, m: Seq<char>) -> bool {
    exists|k: int| 0 <= k < e && is_executable(entries[k].mode) && #[trigger] entries[k].file_name@ == m
}

/// The candidate for a completed name: shown as the name, replaced by the
/// name and a space.
pub open spec fn pair_for(p: Pair, m: Seq<char>) -> bool {
    p.display@ == m && p.replacement@ == m.push(' ')
}

fn make_pair(m: &Vec<char>) -> (p: Pair)
    ensures
        pair_for(p, m@),
{
    let display = string_from_chars(m.as_slice());
    let mut replacement = string_from_chars(m.as_slice());
    push_str_chars(&mut replacement, &[' ']);
    assert(replacement@ =~= m@.push(' '));
    Pair { display, replacement }
}

/// The candidates that complete a command name: every name that
/// `command_candidates` gives, once each, in sorted order.
pub fn find_completions(prefix: &str, entries: &Vec<PathEntry>) -> (r: Vec<Pair>)
    ensures
        ({
            let ds = r@.map_values(|p: Pair| p.display@);
            &&& strictly_sorted(ds)
            &&& ds.to_set() == command_candidates(prefix@, entries@)
            &&& forall|i: int| 0 <= i < r.len() ==> (#[trigger] r@[i]).replacement@ == r@[i].display@.push(' ')
        }),
{
    let pc = str_chars(prefix);
    let names = builtin_list();
    let mut list: Vec<Vec<char>> = Vec::new();
    let ghost cands = command_candidates(prefix@, entries@);
    let mut i: usize = 0;
    assert(list.deep_view().to_set() =~= Set::<Seq<char>>::empty());
    assert(builtin_names().take(0) =~= Seq::<Seq<char>>::empty());
    while i < names.len()
        invariant
            i <= names.len(),
            names.deep_view() == builtin_names(),
            pc@ == prefix@,
            strictly_sorted(list.deep_view()),
            list.deep_view().to_set() == Set::new(|m: Seq<char>| has_prefix(m, prefix@) && builtin_names().take(i as int).contains(m)),
        decreases names.len() - i,
    {
        let nc = str_chars(names[i].as_str());
        assert(names.deep_view()[i as int] == names@[i as int]@);
        if has_prefix_exec(&nc, &pc) {
            insert_sorted(&mut list, nc);
        }
        proof {
            let t0 = builtin_names().take(i as int);
            let t1 = builtin_names().take(i + 1);
            assert(t1 =~= t0.push(builtin_names()[i as int]));
            assert forall|m: Seq<char>| #[trigger] t1.contains(m) <==> (t0.contains(m) || m == builtin_names()[i as int]) by {
                if t1.contains(m) {
                    let j = choose|j: int| 0 <= j < t1.len() && t1[j] == m;
                    if j < i {
                        assert(t0[j] == m);
                    }
                }
                if t0.contains(m) {
                    let j = choose|j: int| 0 <= j < t0.len() && t0[j] == m;
                    assert(t1[j] == m);
                }
                if m == builtin_names()[i as int] {
                    assert(t1[i as int] == m);
                }
            }
        }
        assert(list.deep_view().to_set() =~= Set::new(|m: Seq<char>| has_prefix(m, prefix@) && builtin_names().take(i + 1).contains(m)));
        i += 1;
    }
    assert(builtin_names().take(i as int) =~= builtin_names());
    let mut e: usize = 0;
    while e < entries.len()
        invariant
            e <= entries.len(),
            pc@ == prefix@,
            strictly_sorted(list.deep_view()),
            list.deep_view().to_set() == Set::new(|m: Seq<char>| has_prefix(m, prefix@) && (builtin_names().contains(m) || listed_executable(entries@, e as int, m))),
        decreases entries.len() - e,
    {
        let ent = &entries[e];
        let fc = str_chars(ent.file_name.as_str());
        if ent.mode & 0o111u32 != 0 && has_prefix_exec(&fc, &pc) {
            insert_sorted(&mut list, fc);
        }
        proof {
            assert forall|m: Seq<char>| #[trigger] listed_executable(entries@, e + 1, m) <==> (listed_executable(entries@, e as int, m) || (is_executable(entries@[e as int].mode) && entries@[e as int].file_name@ == m)) by {
                if listed_executable(entries@, e + 1, m) {
                    let k = choose|k: int| 0 <= k < e + 1 && is_executable(entries@[k].mode) && #[trigger] entries@[k].file_name@ == m;
                    if k < e {
                        assert(entries@[k].file_name@ == m);
                    }
                }
                if listed_executable(entries@, e as int, m) {
                    let k = choose|k: int| 0 <= k < e && is_executable(entries@[k].mode) && #[trigger] entries@[k].file_name@ == m;
                    assert(entries@[k].file_name@ == m);
                }
                if is_executable(entries@[e as int].mode) && entries@[e as int].file_name@ == m {
                    assert(entries@[e as int].file_name@ == m);
                }
            }
        }
        assert(list.deep_view().to_set() =~= Set::new(|m: Seq<char>| has_prefix(m, prefix@) && (builtin_names().contains(m) || listed_executable(entries@, e + 1, m))));
        e += 1;
    }
    assert(list.deep_view().to_set() =~= cands) by {
        assert forall|m: Seq<char>| #[trigger] cands.contains(m) <==> list.deep_view().to_set().contains(m) by {
            if listed_executable(entries@, e as int, m) {
                let k = choose|k: int| 0 <= k < e && is_executable(entries@[k].mode) && #[trigger] entries@[k].file_name@ == m;
                assert(entries@[k].file_name@ == m);
            }
            if exists|k: int| 0 <= k < entries.len() && is_executable(entries@[k].mode) && #[trigger] entries@[k].file_name@ == m {
                let k = choose|k: int| 0 <= k < entries.len() && is_executable(entries@[k].mode) && #[trigger] entries@[k].file_name@ == m;
                assert(entries@[k].file_name@ == m);
                assert(listed_executable(entries@, e as int, m));
            }
        }
    }
    let mut r: Vec<Pair> = Vec::new();
    let mut k: usize = 0;
    while k < list.len()
        invariant
            k <= list.len(),
            r.len() == k,
            forall|j: int| 0 <= j < k ==> pair_for(#[trigger] r@[j], list.deep_view()[j]),
        decreases list.len() - k,
    {
        assert(list.deep_view()[k as int] == list@[k as int]@);
        r.push(make_pair(&list[k]));
        k += 1;
    }
    assert(r@.map_values(|p: Pair| p.display@) =~= list.deep_view());
    r
}

/// The candidates a completion script printed: one per line, shown as the
/// line, replaced by the line and a space.
pub fn script_candidates(output: &str) -> (r: Vec<Pair>)
    ensures
        r.len() == lines_of(output@).len(),
        forall|i: int| 0 <= i < r.len() ==> pair_for(#[trigger] r@[i], lines_of(output@)[i]),
{
    let ls = lines_exec(output);
    let mut r: Vec<Pair> = Vec::new();
    let mut k: usize = 0;
    while k < ls.len()
        invariant
            k <= ls.len(),
            ls.deep_view() == lines_of(output@),
            r.len() == k,
            forall|j: int| 0 <= j < k ==> pair_for(#[trigger] r@[j], lines_of(output@)[j]),
        decreases ls.len() - k,
    {
        assert(ls.deep_view()[k as int] == ls@[k as int]@);
        let cs = str_chars(ls[k].as_str());
        r.push(make_pair(&cs));
        k += 1;
    }
    r
}

/// What a file-name candidate names.
#[derive(Debug, PartialEq, Eq, Clone, Copy, Structural)]
pub enum FileKind {
    File,
    Directory,
    Other,
}

/// A file-name candidate as presented: a file's replacement gets a space
/// after it; when there are several candidates, a directory's display gets
/// the path separator after it.
pub open spec fn decorated(p: Pair, kind: FileKind, multiple: bool, sep: char, q: Pair) -> bool {
    if kind == FileKind::File {
        q.display@ == p.display@ && q.replacement@ == p.replacement@.push(' ')
    } else if kind == FileKind::Directory && multiple {
        q.display@ == p.display@.push(sep) && q.replacement@ == p.replacement@
    } else {
        q.display@ == p.display@ && q.replacement@ == p.replacement@
    }
}

/// Presents the file-name candidates; `kinds[i]` tells what the i-th
/// candidate's replacement names.
pub fn decorate_file_matches(matches: Vec<Pair>, kinds: &Vec<FileKind>, sep: char) -> (r: Vec<Pair>)
    requires
        kinds.len() == matches.len(),
    ensures
        r.len() == matches.len(),
        forall|i: int| 0 <= i < r.len() ==> decorated(matches@[i], kinds@[i], matches.len() > 1, sep, #[trigger] r@[i]),
{
    let ghost old_m = matches@;
    let multiple = matches.len() > 1;
    let mut matches = matches;
    let mut k: usize = 0;
    while k < matches.len()
        invariant
            k <= matches.len(),
            matches.len() == old_m.len(),
            kinds.len() == old_m.len(),
            multiple == (old_m.len() > 1),
            forall|j: int| 0 <= j < k ==> decorated(old_m[j], kinds@[j], multiple, sep, #[trigger] matches@[j]),
            forall|j: int| k <= j < matches.len() ==> #[trigger] matches@[j] == old_m[j],
        decreases matches.len() - k,
    {
        let ghost before = matches@;
        if kinds[k] == FileKind::File {
            push_str_chars(&mut matches[k].replacement, &[' ']);
            assert(matches@[k as int].replacement@ =~= before[k as int].replacement@.push(' '));
            assert(matches@[k as int].display@ == before[k as int].display@);
        } else if kinds[k] == FileKind::Directory && multiple {
            push_str_chars(&mut matches[k].display, &[sep]);
            assert(matches@[k as int].display@ =~= before[k as int].display@.push(sep));
            assert(matches@[k as int].replacement@ == before[k as int].replacement@);
        }
        assert(forall|j: int| 0 <= j < matches.len() && j != k ==> matches@[j] == before[j]);
        k += 1;
    }
    matches
}

} // verus!
