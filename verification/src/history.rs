//! The `history` builtin's decisions and the line loop's first step.
use vstd::prelude::*;
use crate::text::{str_chars, string_from_chars, decimal, pad_left, push_spaces, push_str, push_str_chars, spaces};
use crate::words::{is_ws, is_ws_exec, split_ws, split_ws_exec, lines_of, lines_exec};

verus! {

/// A decimal digit character.
pub open spec fn is_digit(c: char) -> bool {
    '0' <= c && c <= '9'
}

/// The number that a string of digits denotes.
pub open spec fn digits_value(s: Seq<char>) -> nat
    decreases s.len(),
{
    if s.len() == 0 {
        0
    } else {
        digits_value(s.drop_last()) * 10 + ((s.last() as u32) - ('0' as u32)) as nat
    }
}

/// Every character is a digit.
pub open spec fn all_digits(d: Seq<char>) -> bool {
    forall|i: int| 0 <= i < d.len() ==> is_digit(#[trigger] d[i])
}

/// The text without one leading `+`.
pub open spec fn unsigned_part(s: Seq<char>) -> Seq<char> {
    if s.len() > 0 && s[0] == '+' { s.drop_first() } else { s }
}

/// What `str::parse::<usize>` gives: an optional `+`, then one or more
/// digits whose value fits in a `usize`.
pub open spec fn parse_usize_spec(s: Seq<char>) -> Option<usize> {
    let d = unsigned_part(s);
    if d.len() > 0 && all_digits(d) && digits_value(d) <= usize::MAX {
        Some(digits_value(d) as usize)
    } else {
        None
    }
}

proof fn lemma_digits_mono(s: Seq<char>, i: int, k: int)
    requires
        0 <= i <= k <= s.len(),
    ensures
        digits_value(s.take(k)) >= digits_value(s.take(i)),
    decreases k - i,
{
    if i < k {
        lemma_digits_mono(s, i, k - 1);
        assert(s.take(k).drop_last() =~= s.take(k - 1));
    }
}

/// Parses a decimal `usize`, as `parse_usize_spec` says.
pub fn parse_usize(s: &str) -> (r: Option<usize>)
    ensures
        r == parse_usize_spec(s@),
{
    let cs = str_chars(s);
    let skip: usize = if cs.len() > 0 && cs[0] == '+' { 1 } else { 0 };
    let ghost d = unsigned_part(s@);
    assert(d =~= cs@.skip(skip as int));
    if cs.len() <= skip {
        return None;
    }
    let mut v: usize = 0;
    let mut i: usize = skip;
    assert(d.take(0) =~= Seq::<char>::empty());
    while i < cs.len()
        invariant
            skip <= i <= cs.len(),
            cs@ == s@,
            d == unsigned_part(s@),
            d.len() > 0,
            d == cs@.skip(skip as int),
            forall|j: int| 0 <= j < i - skip ==> is_digit(#[trigger] d[j]),
            v as nat == digits_value(d.take(i - skip)),
        decreases cs.len() - i,
    {
        let c = cs[i];
        assert(d[i - skip] == c);
        if !('0' <= c && c <= '9') {
            assert(!is_digit(d[i - skip]));
            return None;
        }
        let ghost t = d.take(i - skip + 1);
        assert(t.drop_last() =~= d.take(i - skip));
        let dv = (c as u32 - '0' as u32) as usize;
        let next = match v.checked_mul(10) {
            Some(m) => m.checked_add(dv),
            None => None,
        };
        match next {
            Some(n) => {
                v = n;
            },
            None => {
                proof {
                    lemma_digits_mono(d, i - skip + 1, d.len() as int);
                    assert(d.take(d.len() as int) =~= d);
                }
                return None;
            },
        }
        i += 1;
    }
    assert(d.take(i - skip) =~= d);
    Some(v)
}

/// What `history` asks of the line editor.
pub enum HistoryAction {
    /// `-r file`: add the file's lines to the history.
    ReadFile(String),
    /// `-w file`: write the whole history to the file.
    WriteFile(String),
    /// `-a file`: append the entries from index `from` up to `to` (those
    /// added since the last append or read); afterwards `to` is where the
    /// next append starts.
    AppendFile { path: String, from: usize, to: usize },
    /// An option without its file: write this error.
    MissingOperand(String),
    /// List the entries from this index to the end.
    List(usize),
}

/// What `history` with the words of `input` does, when the history has
/// `total` entries and the last append or read ended at `offset`: `-r`, `-w`
/// and `-a` take a file; otherwise the entries are listed, the last `n` of
/// them when the first argument is a number `n`.
pub open spec fn history_action_holds(input: Seq<char>, total: usize, offset: usize, a: HistoryAction) -> bool {
    let ws = split_ws(input);
    let opt = if ws.len() > 1 { ws[1] } else { Seq::<char>::empty() };
    if ws.len() > 1 && (opt == "-r"@ || opt == "-w"@ || opt == "-a"@) {
        if ws.len() > 2 {
            if opt == "-r"@ {
                a matches HistoryAction::ReadFile(p) && p@ == ws[2]
            } else if opt == "-w"@ {
                a matches HistoryAction::WriteFile(p) && p@ == ws[2]
            } else {
                a matches HistoryAction::AppendFile { path: p, from, to } && p@ == ws[2] && from == offset && to == total
            }
        } else {
            a matches HistoryAction::MissingOperand(m) && m@ == "history: "@ + opt + ": missing file operand\n"@
        }
    } else {
        let limit: int = if ws.len() > 1 && parse_usize_spec(opt) is Some { parse_usize_spec(opt)->0 as int } else { total as int };
        a matches HistoryAction::List(start) && start == (if limit <= total { total - limit } else { 0 })
    }
}

/// Decides what `history` does, as `history_action_holds` says.
pub fn handle_history(input: &str, total: usize, offset: usize) -> (a: HistoryAction)
    ensures
        history_action_holds(input@, total, offset, a),
{
    let cs = str_chars(input);
    let ws = split_ws_exec(&cs, cs.len());
    assert(cs@.take(cs.len() as int) =~= input@);
    let ghost wv = ws.deep_view();
    if ws.len() > 1 {
        assert(wv[1] == ws@[1]@);
        let opt = &ws[1];
        let is_r = *opt == "-r".to_owned();
        let is_w = *opt == "-w".to_owned();
        let is_a = *opt == "-a".to_owned();
        if is_r || is_w || is_a {
            if ws.len() > 2 {
                assert(wv[2] == ws@[2]@);
                let path = ws[2].clone();
                if is_r {
                    return HistoryAction::ReadFile(path);
                } else if is_w {
                    return HistoryAction::WriteFile(path);
                } else {
                    return HistoryAction::AppendFile { path, from: offset, to: total };
                }
            } else {
                let mut m = String::new();
                push_str(&mut m, "history: ");
                push_str(&mut m, opt.as_str());
                push_str(&mut m, ": missing file operand\n");
                assert(m@ =~= "history: "@ + opt@ + ": missing file operand\n"@);
                return HistoryAction::MissingOperand(m);
            }
        }
        let limit = match parse_usize(opt.as_str()) {
            Some(n) => n,
            None => total,
        };
        let start = if limit <= total { total - limit } else { 0 };
        HistoryAction::List(start)
    } else {
        HistoryAction::List(0)
    }
}

/// The line `history` prints for entry `i` (counted from 0): its number
/// from 1, right-aligned in 5 columns, two spaces, and the entry.
pub open spec fn history_line(i: nat, entry: Seq<char>) -> Seq<char> {
    pad_left(decimal(i + 1), 5) + seq![' ', ' '] + entry + seq!['\n']
}

/// The line `history` prints for entry `i`.
pub fn format_history_line(i: usize, entry: &str) -> (s: String)
    requires
        i < usize::MAX,
    ensures
        s@ == history_line(i as nat, entry@),
{
    let num = crate::text::to_decimal(i + 1);
    let mut s = String::new();
    let n = num.as_str().unicode_len();
    if n < 5 {
        push_spaces(&mut s, 5 - n);
    }
    push_str(&mut s, num.as_str());
    push_str_chars(&mut s, &[' ', ' ']);
    push_str(&mut s, entry);
    push_str_chars(&mut s, &['\n']);
    assert(s@ =~= history_line(i as nat, entry@));
    s
}

/// The lines of a history file that become entries: its nonempty lines.
pub open spec fn history_file_entries(contents: Seq<char>) -> Seq<Seq<char>> {
    lines_of(contents).filter(|l: Seq<char>| l.len() > 0)
}

/// The entries that reading a history file adds.
pub fn history_entries_from(contents: &str) -> (r: Vec<String>)
    ensures
        r.deep_view() == history_file_entries(contents@),
{
    let ls = lines_exec(contents);
    let ghost lv = ls.deep_view();
    let mut r: Vec<String> = Vec::new();
    let mut k: usize = 0;
    assert(lv.take(0) =~= Seq::<Seq<char>>::empty());
    assert(r.deep_view() =~= Seq::<Seq<char>>::empty());
    while k < ls.len()
        invariant
            k <= ls.len(),
            lv == ls.deep_view(),
            r.deep_view() == lv.take(k as int).filter(|l: Seq<char>| l.len() > 0),
        decreases ls.len() - k,
    {
        assert(lv[k as int] == ls@[k as int]@);
        let ghost t = lv.take(k + 1);
        assert(t.drop_last() =~= lv.take(k as int));
        reveal_with_fuel(Seq::filter, 1);
        if !ls[k].as_str().is_empty() {
            let ghost old_r = r.deep_view();
            r.push(ls[k].clone());
            assert(r.deep_view() =~= old_r.push(lv[k as int]));
        }
        assert(t.filter(|l: Seq<char>| l.len() > 0) == r.deep_view());
        k += 1;
    }
    assert(lv.take(k as int) =~= lv);
    r
}

/// The position of the first character that is not whitespace, or the length.
pub open spec fn trim_start_index(s: Seq<char>) -> int
    decreases s.len(),
{
    if s.len() == 0 || !is_ws(s[0]) {
        0
    } else {
        1 + trim_start_index(s.drop_first())
    }
}

/// The position after the last character that is not whitespace, or 0.
pub open spec fn trim_end_index(s: Seq<char>) -> int
    decreases s.len(),
{
    if s.len() == 0 || !is_ws(s.last()) {
        s.len() as int
    } else {
        trim_end_index(s.drop_last())
    }
}

/// The text without whitespace at either end (what `str::trim` gives).
pub open spec fn trim(s: Seq<char>) -> Seq<char> {
    if trim_start_index(s) < trim_end_index(s) {
        s.subrange(trim_start_index(s), trim_end_index(s))
    } else {
        Seq::empty()
    }
}

/// What the shell does with a line that was read.
pub enum ReplAction {
    /// The trimmed line starts with `history`: the `history` builtin.
    History(String),
    /// Any other line, trimmed: a command line.
    Command(String),
}

proof fn lemma_trim_start(s: Seq<char>)
    ensures
        0 <= trim_start_index(s) <= s.len(),
        forall|i: int| 0 <= i < trim_start_index(s) ==> is_ws(#[trigger] s[i]),
        trim_start_index(s) < s.len() ==> !is_ws(s[trim_start_index(s)]),
    decreases s.len(),
{
    if s.len() > 0 && is_ws(s[0]) {
        lemma_trim_start(s.drop_first());
        assert forall|i: int| 0 <= i < trim_start_index(s) implies is_ws(#[trigger] s[i]) by {
            if i > 0 {
                assert(s[i] == s.drop_first()[i - 1]);
            }
        }
    }
}

proof fn lemma_trim_end(s: Seq<char>)
    ensures
        0 <= trim_end_index(s) <= s.len(),
        forall|i: int| trim_end_index(s) <= i < s.len() ==> is_ws(#[trigger] s[i]),
        trim_end_index(s) > 0 ==> !is_ws(s[trim_end_index(s) - 1]),
    decreases s.len(),
{
    if s.len() > 0 && is_ws(s.last()) {
        lemma_trim_end(s.drop_last());
        assert forall|i: int| trim_end_index(s) <= i < s.len() implies is_ws(#[trigger] s[i]) by {
            if i < s.len() - 1 {
                assert(s[i] == s.drop_last()[i]);
            }
        }
    }
}

/// The text without whitespace at either end.
pub fn trim_exec(s: &str) -> (r: String)
    ensures
        r@ == trim(s@),
{
    let cs = str_chars(s);
    proof {
        lemma_trim_start(s@);
        lemma_trim_end(s@);
    }
    let mut a: usize = 0;
    while a < cs.len() && is_ws_exec(cs[a])
        invariant
            a <= cs.len(),
            cs@ == s@,
            forall|i: int| 0 <= i < a ==> is_ws(#[trigger] cs@[i]),
        decreases cs.len() - a,
    {
        a += 1;
    }
    assert(a == trim_start_index(s@)) by {
        if a < trim_start_index(s@) {
            assert(is_ws(s@[a as int]));
        } else if a > trim_start_index(s@) {
            assert(is_ws(cs@[trim_start_index(s@)]));
        }
    }
    let mut b: usize = cs.len();
    while b > a && is_ws_exec(cs[b - 1])
        invariant
            a <= b <= cs.len(),
            cs@ == s@,
            forall|i: int| b <= i < cs.len() ==> is_ws(#[trigger] cs@[i]),
        decreases b,
    {
        b -= 1;
    }
    if a < b {
        assert(b == trim_end_index(s@)) by {
            if b < trim_end_index(s@) {
                assert(is_ws(s@[trim_end_index(s@) - 1]));
            } else if b > trim_end_index(s@) {
                assert(!is_ws(cs@[b - 1]));
            }
        }
        let r = string_from_chars(&cs[a..b]);
        assert(r@ =~= trim(s@));
        r
    } else {
        assert(trim_end_index(s@) <= trim_start_index(s@)) by {
            if trim_end_index(s@) > trim_start_index(s@) {
                assert(!is_ws(s@[trim_start_index(s@)]));
            }
        }
        String::new()
    }
}

/// Trims a line that was read and decides whether it is a `history`
/// command (it starts with `history`) or a command line.
pub fn repl_step(line: &str) -> (a: ReplAction)
    ensures
        match a {
            ReplAction::History(t) => t@ == trim(line@) && trim(line@).len() >= 7 && trim(line@).take(7) == "history"@,
            ReplAction::Command(t) => t@ == trim(line@) && !(trim(line@).len() >= 7 && trim(line@).take(7) == "history"@),
        },
{
    let t = trim_exec(line);
    let tc = str_chars(t.as_str());
    let h = str_chars("history");
    proof {
        reveal_strlit("history");
    }
    let mut is_h = tc.len() >= 7;
    let mut i: usize = 0;
    while is_h && i < 7
        invariant
            i <= 7,
            h@ == "history"@,
            h@.len() == 7,
            is_h ==> tc.len() >= 7 && forall|j: int| 0 <= j < i ==> tc@[j] == h@[j],
            !is_h ==> !(tc.len() >= 7 && tc@.take(7) == h@),
        decreases 7 - i,
    {
        if tc[i] != h[i] {
            is_h = false;
            assert(tc@.take(7)[i as int] != h@[i as int]);
        }
        i += 1;
    }
    if is_h {
        assert(tc@.take(7) =~= h@);
        ReplAction::History(t)
    } else {
        ReplAction::Command(t)
    }
}

} // verus!
