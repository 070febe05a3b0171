//! Splitting a command line into pipeline segments and words: quotes,
//! backslash escapes, `|` and `$` variable expansion.
use vstd::prelude::*;
use crate::strmap::{StringMap, lookup_or_empty};
use crate::text::{str_chars, string_from_chars, push_str, push_str_chars};

verus! {

/// Where the tokenizer stands with respect to quotes.
#[derive(Debug, PartialEq, Eq, Clone, Copy, Structural)]
pub enum State {
    Default,
    InSingleQuote,
    InDoubleQuote,
}

/// A command line that ends inside a quote.
#[derive(Debug, PartialEq, Eq, Clone, Copy, Structural)]
pub enum ParseError {
    UnclosedSingleQuote,
    UnclosedDoubleQuote,
}

/// The tokenizer's state as values: the finished segments, the words of the
/// segment being read, the word being read, and the quote state.
pub type Lex = (Seq<Seq<Seq<char>>>, Seq<Seq<char>>, Seq<char>, State);

/// A character that may stand in a variable name after `$`.
pub open spec fn is_name_char(c: char) -> bool {
    ('a' <= c && c <= 'z') || ('A' <= c && c <= 'Z') || ('0' <= c && c <= '9') || c == '_'
}

/// How many name characters follow from position `i` on.
pub open spec fn name_run(cs: Seq<char>, i: int) -> int
    decreases cs.len() - i,
{
    if 0 <= i < cs.len() && is_name_char(cs[i]) {
        1 + name_run(cs, i + 1)
    } else {
        0
    }
}

/// The position of the first `}` at or after `i`, or the end of the input.
pub open spec fn close_brace(cs: Seq<char>, i: int) -> int
    decreases cs.len() - i,
{
    if i >= cs.len() {
        cs.len() as int
    } else if cs[i] == '}' {
        i
    } else {
        close_brace(cs, i + 1)
    }
}

/// What a `$` expands to when the character after it stands at `i`, and the
/// position after what the expansion used: `${name}` (up to the first `}` or
/// the end), `$name` (the longest run of name characters), or a literal `$`.
pub open spec fn expansion(cs: Seq<char>, i: int, vars: Map<Seq<char>, Seq<char>>) -> (Seq<char>, int) {
    if 0 <= i < cs.len() && cs[i] == '{' {
        let j = close_brace(cs, i + 1);
        (lookup_or_empty(vars, cs.subrange(i + 1, j)), if j < cs.len() { j + 1 } else { j })
    } else if 0 <= i < cs.len() && is_name_char(cs[i]) {
        let n = name_run(cs, i);
        (lookup_or_empty(vars, cs.subrange(i, i + n)), i + n)
    } else {
        (seq!['$'], i)
    }
}

/// The words with the current word added, unless it is empty.
pub open spec fn flush(args: Seq<Seq<char>>, tok: Seq<char>) -> Seq<Seq<char>> {
    if tok.len() > 0 {
        args.push(tok)
    } else {
        args
    }
}

/// A character that a backslash escapes inside double quotes.
pub open spec fn escapable_in_double_quotes(c: char) -> bool {
    c == '"' || c == '\\' || c == '$' || c == '`' || c == '\n'
}

/// One step of the tokenizer at position `i`: the next position and state.
pub open spec fn lex_step(cs: Seq<char>, i: int, st: Lex, vars: Map<Seq<char>, Seq<char>>) -> (int, Lex) {
    let c = cs[i];
    let (segs, args, tok, q) = st;
    match q {
        State::Default => {
            if c == ' ' {
                (i + 1, (segs, flush(args, tok), Seq::empty(), q))
            } else if c == '\'' {
                (i + 1, (segs, args, tok, State::InSingleQuote))
            } else if c == '"' {
                (i + 1, (segs, args, tok, State::InDoubleQuote))
            } else if c == '\\' {
                if i + 1 < cs.len() {
                    (i + 2, (segs, args, tok.push(cs[i + 1]), q))
                } else {
                    (i + 1, st)
                }
            } else if c == '|' {
                (i + 1, (segs.push(flush(args, tok)), Seq::empty(), Seq::empty(), q))
            } else if c == '$' {
                let (t, j) = expansion(cs, i + 1, vars);
                (j, (segs, args, tok + t, q))
            } else {
                (i + 1, (segs, args, tok.push(c), q))
            }
        },
        State::InSingleQuote => {
            if c == '\'' {
                (i + 1, (segs, args, tok, State::Default))
            } else {
                (i + 1, (segs, args, tok.push(c), q))
            }
        },
        State::InDoubleQuote => {
            if c == '"' {
                (i + 1, (segs, args, tok, State::Default))
            } else if c == '\\' {
                if i + 1 < cs.len() {
                    if escapable_in_double_quotes(cs[i + 1]) {
                        (i + 2, (segs, args, tok.push(cs[i + 1]), q))
                    } else {
                        (i + 1, (segs, args, tok.push('\\'), q))
                    }
                } else {
                    (i + 1, st)
                }
            } else if c == '$' {
                let (t, j) = expansion(cs, i + 1, vars);
                (j, (segs, args, tok + t, q))
            } else {
                (i + 1, (segs, args, tok.push(c), q))
            }
        },
    }
}

/// The result once the input is used up.
pub open spec fn lex_finish(st: Lex) -> Result<Seq<Seq<Seq<char>>>, ParseError> {
    let (segs, args, tok, q) = st;
    match q {
        State::InSingleQuote => Err(ParseError::UnclosedSingleQuote),
        State::InDoubleQuote => Err(ParseError::UnclosedDoubleQuote),
        State::Default => Ok(segs.push(flush(args, tok))),
    }
}

/// The tokenizer run from position `i` in state `st` to the end of the input.
pub open spec fn lex_from(cs: Seq<char>, i: int, st: Lex, vars: Map<Seq<char>, Seq<char>>) -> Result<Seq<Seq<Seq<char>>>, ParseError>
    decreases cs.len() - i,
{
    if i < 0 || i >= cs.len() {
        lex_finish(st)
    } else {
        let (j, st2) = lex_step(cs, i, st, vars);
        if i < j <= cs.len() {
            lex_from(cs, j, st2, vars)
        } else {
            lex_finish(st2)
        }
    }
}

/// The state the tokenizer starts in.
pub open spec fn lex_start() -> Lex {
    (Seq::empty(), Seq::empty(), Seq::empty(), State::Default)
}

/// The segments and words of a command line, with variables taken from `vars`.
pub open spec fn tokenize(cs: Seq<char>, vars: Map<Seq<char>, Seq<char>>) -> Result<Seq<Seq<Seq<char>>>, ParseError> {
    lex_from(cs, 0, lex_start(), vars)
}

proof fn lemma_name_run_bounds(cs: Seq<char>, i: int)
    requires
        0 <= i <= cs.len(),
    ensures
        0 <= name_run(cs, i) <= cs.len() - i,
        forall|k: int| i <= k < i + name_run(cs, i) ==> is_name_char(#[trigger] cs[k]),
        i + name_run(cs, i) < cs.len() ==> !is_name_char(cs[i + name_run(cs, i)]),
    decreases cs.len() - i,
{
    if i < cs.len() && is_name_char(cs[i]) {
        lemma_name_run_bounds(cs, i + 1);
    }
}

proof fn lemma_close_brace_bounds(cs: Seq<char>, i: int)
    requires
        0 <= i <= cs.len(),
    ensures
        i <= close_brace(cs, i) <= cs.len(),
        close_brace(cs, i) < cs.len() ==> cs[close_brace(cs, i)] == '}',
        forall|k: int| i <= k < close_brace(cs, i) ==> #[trigger] cs[k] != '}',
    decreases cs.len() - i,
{
    if i < cs.len() && cs[i] != '}' {
        lemma_close_brace_bounds(cs, i + 1);
    }
}

/// Expands the `$` whose next character stands at `pos` in `cs`, and returns
/// the expansion and the position after what it used.
pub fn expand_var(cs: &Vec<char>, pos: usize, vars: &StringMap) -> (r: (String, usize))
    requires
        pos <= cs.len(),
    ensures
        (r.0@, r.1 as int) == expansion(cs@, pos as int, vars@),
        pos <= r.1 <= cs.len(),
{
    if pos < cs.len() && cs[pos] == '{' {
        let mut j = pos + 1;
        proof {
            lemma_close_brace_bounds(cs@, pos + 1);
        }
        while j < cs.len() && cs[j] != '}'
            invariant
                pos + 1 <= j <= cs.len(),
                close_brace(cs@, pos + 1) == close_brace(cs@, j as int),
            decreases cs.len() - j,
        {
            j += 1;
        }
        let name = string_from_chars(&cs[pos + 1..j]);
        assert(name@ =~= cs@.subrange(pos + 1, j as int));
        let value = match vars.get(name.as_str()) {
            Some(v) => v,
            None => String::new(),
        };
        let next = if j < cs.len() { j + 1 } else { j };
        (value, next)
    } else if pos < cs.len() && is_name_char_exec(cs[pos]) {
        let mut j = pos;
        proof {
            lemma_name_run_bounds(cs@, pos as int);
        }
        while j < cs.len() && is_name_char_exec(cs[j])
            invariant
                pos <= j <= cs.len(),
                name_run(cs@, pos as int) == (j - pos) + name_run(cs@, j as int),
            decreases cs.len() - j,
        {
            j += 1;
        }
        let name = string_from_chars(&cs[pos..j]);
        assert(name@ =~= cs@.subrange(pos as int, j as int));
        let value = match vars.get(name.as_str()) {
            Some(v) => v,
            None => String::new(),
        };
        (value, j)
    } else {
        let mut s = String::new();
        push_str_chars(&mut s, &['$']);
        (s, pos)
    }
}

/// Moves the current word, unless it is empty, to the end of the words.
fn flush_token(args: &mut Vec<String>, tok: &mut String)
    ensures
        final(args).deep_view() == flush(old(args).deep_view(), old(tok)@),
        final(tok)@ == Seq::<char>::empty(),
{
    if !tok.as_str().is_empty() {
        let mut t = String::new();
        std::mem::swap(&mut t, tok);
        let ghost old_dv = args.deep_view();
        args.push(t);
        assert(args.deep_view() =~= old_dv.push(t@));
    }
}

/// One step of the tokenizer at position `i`; returns the next position.
fn lex_step_exec(
    cs: &Vec<char>,
    i: usize,
    segs: &mut Vec<Vec<String>>,
    args: &mut Vec<String>,
    tok: &mut String,
    state: &mut State,
    vars: &StringMap,
) -> (j: usize)
    requires
        i < cs.len(),
    ensures
        i < j <= cs.len(),
        (j as int, (final(segs).deep_view(), final(args).deep_view(), final(tok)@, *final(state)))
            == lex_step(cs@, i as int, (old(segs).deep_view(), old(args).deep_view(), old(tok)@, *old(state)), vars@),
{
    let c = cs[i];
    match *state {
        State::Default => {
            if c == ' ' {
                flush_token(args, tok);
                i + 1
            } else if c == '\'' {
                *state = State::InSingleQuote;
                i + 1
            } else if c == '"' {
                *state = State::InDoubleQuote;
                i + 1
            } else if c == '\\' {
                if i + 1 < cs.len() {
                    push_str_chars(tok, &[cs[i + 1]]);
                    i + 2
                } else {
                    i + 1
                }
            } else if c == '|' {
                flush_token(args, tok);
                let mut a: Vec<String> = Vec::new();
                std::mem::swap(&mut a, args);
                let ghost old_dv = segs.deep_view();
                segs.push(a);
                assert(segs.deep_view() =~= old_dv.push(a.deep_view()));
                assert(args.deep_view() =~= Seq::<Seq<char>>::empty());
                i + 1
            } else if c == '$' {
                let (t, j) = expand_var(cs, i + 1, vars);
                tok.append(t.as_str());
                j
            } else {
                push_str_chars(tok, &[c]);
                i + 1
            }
        },
        State::InSingleQuote => {
            if c == '\'' {
                *state = State::Default;
            } else {
                push_str_chars(tok, &[c]);
            }
            i + 1
        },
        State::InDoubleQuote => {
            if c == '"' {
                *state = State::Default;
                i + 1
            } else if c == '\\' {
                if i + 1 < cs.len() {
                    let d = cs[i + 1];
                    if d == '"' || d == '\\' || d == '$' || d == '`' || d == '\n' {
                        push_str_chars(tok, &[d]);
                        i + 2
                    } else {
                        push_str_chars(tok, &['\\']);
                        i + 1
                    }
                } else {
                    i + 1
                }
            } else if c == '$' {
                let (t, j) = expand_var(cs, i + 1, vars);
                tok.append(t.as_str());
                j
            } else {
                push_str_chars(tok, &[c]);
                i + 1
            }
        },
    }
}

/// Splits a command line into pipeline segments, each a list of words, the
/// way `tokenize` says; variables are looked up in `vars`.
pub fn process_input(input: &str, vars: &StringMap) -> (r: Result<Vec<Vec<String>>, ParseError>)
    ensures
        match r {
            Ok(segs) => tokenize(input@, vars@) == Ok::<Seq<Seq<Seq<char>>>, ParseError>(segs.deep_view()),
            Err(e) => tokenize(input@, vars@) == Err::<Seq<Seq<Seq<char>>>, ParseError>(e),
        },
{
    let cs = str_chars(input);
    let mut segs: Vec<Vec<String>> = Vec::new();
    let mut args: Vec<String> = Vec::new();
    let mut tok = String::new();
    let mut state = State::Default;
    let mut i: usize = 0;
    assert(segs.deep_view() =~= Seq::<Seq<Seq<char>>>::empty());
    assert(args.deep_view() =~= Seq::<Seq<char>>::empty());
    while i < cs.len()
        invariant
            i <= cs.len(),
            cs@ == input@,
            lex_from(cs@, i as int, (segs.deep_view(), args.deep_view(), tok@, state), vars@)
                == tokenize(input@, vars@),
        decreases cs.len() - i,
    {
        let ghost before = (segs.deep_view(), args.deep_view(), tok@, state);
        let j = lex_step_exec(&cs, i, &mut segs, &mut args, &mut tok, &mut state, vars);
        assert(lex_from(cs@, i as int, before, vars@) == lex_from(cs@, j as int, (segs.deep_view(), args.deep_view(), tok@, state), vars@));
        i = j;
    }
    flush_token(&mut args, &mut tok);
    match state {
        State::InSingleQuote => Err(ParseError::UnclosedSingleQuote),
        State::InDoubleQuote => Err(ParseError::UnclosedDoubleQuote),
        State::Default => {
            let ghost old_dv = segs.deep_view();
            segs.push(args);
            assert(segs.deep_view() =~= old_dv.push(args.deep_view()));
            Ok(segs)
        },
    }
}

/// The message the shell prints for a command line that ends inside a quote.
pub fn parse_error_message(e: ParseError) -> (m: String)
    ensures
        m@ == match e {
            ParseError::UnclosedSingleQuote => "syntax error: unclosed single quote\n"@,
            ParseError::UnclosedDoubleQuote => "syntax error: unclosed double quote\n"@,
        },
{
    let mut m = String::new();
    match e {
        ParseError::UnclosedSingleQuote => push_str(&mut m, "syntax error: unclosed single quote\n"),
        ParseError::UnclosedDoubleQuote => push_str(&mut m, "syntax error: unclosed double quote\n"),
    }
    assert(m@ =~= match e {
        ParseError::UnclosedSingleQuote => "syntax error: unclosed single quote\n"@,
        ParseError::UnclosedDoubleQuote => "syntax error: unclosed double quote\n"@,
    });
    m
}

/// Whether `c` may stand in a variable name after `$`.
pub fn is_name_char_exec(c: char) -> (r: bool)
    ensures
        r == is_name_char(c),
{
    ('a' <= c && c <= 'z') || ('A' <= c && c <= 'Z') || ('0' <= c && c <= '9') || c == '_'
}

} // verus!
