//! What the tokenizer makes of plain words, quoted text, pipes and
//! variables.
use vstd::prelude::*;
use crate::strmap::lookup_or_empty;
use crate::tokenizer::{Lex, State, is_name_char, name_run, lex_from, lex_step, lex_finish, lex_start, tokenize, expansion, flush};

verus! {

/// A character with no special meaning outside quotes.
pub open spec fn is_plain_char(c: char) -> bool {
    c != ' ' && c != '\'' && c != '"' && c != '\\' && c != '|' && c != '$'
}

/// A word of plain characters only.
pub open spec fn is_plain_word(w: Seq<char>) -> bool {
    forall|i: int| 0 <= i < w.len() ==> is_plain_char(#[trigger] w[i])
}

proof fn lemma_plain_run(cs: Seq<char>, i: int, j: int, segs: Seq<Seq<Seq<char>>>, args: Seq<Seq<char>>, tok: Seq<char>, vars: Map<Seq<char>, Seq<char>>)
    requires
        0 <= i <= j <= cs.len(),
        forall|k: int| i <= k < j ==> is_plain_char(#[trigger] cs[k]),
    ensures
        lex_from(cs, i, (segs, args, tok, State::Default), vars)
            == lex_from(cs, j, (segs, args, tok + cs.subrange(i, j), State::Default), vars),
    decreases j - i,
{
    if i < j {
        let st: Lex = (segs, args, tok, State::Default);
        assert(lex_step(cs, i, st, vars) == (i + 1, (segs, args, tok.push(cs[i]), State::Default)));
        lemma_plain_run(cs, i + 1, j, segs, args, tok.push(cs[i]), vars);
        assert(tok.push(cs[i]) + cs.subrange(i + 1, j) =~= tok + cs.subrange(i, j));
    } else {
        assert(tok + cs.subrange(i, j) =~= tok);
    }
}

proof fn lemma_quoted_run(cs: Seq<char>, i: int, j: int, segs: Seq<Seq<Seq<char>>>, args: Seq<Seq<char>>, tok: Seq<char>, vars: Map<Seq<char>, Seq<char>>)
    requires
        0 <= i <= j <= cs.len(),
        forall|k: int| i <= k < j ==> #[trigger] cs[k] != '\'',
    ensures
        lex_from(cs, i, (segs, args, tok, State::InSingleQuote), vars)
            == lex_from(cs, j, (segs, args, tok + cs.subrange(i, j), State::InSingleQuote), vars),
    decreases j - i,
{
    if i < j {
        lemma_quoted_run(cs, i + 1, j, segs, args, tok.push(cs[i]), vars);
        assert(tok.push(cs[i]) + cs.subrange(i + 1, j) =~= tok + cs.subrange(i, j));
    } else {
        assert(tok + cs.subrange(i, j) =~= tok);
    }
}

/// A nonempty word of plain characters is one word of one command.
pub proof fn law_plain_word(w: Seq<char>, vars: Map<Seq<char>, Seq<char>>)
    requires
        w.len() > 0,
        is_plain_word(w),
    ensures
        tokenize(w, vars) == Ok::<Seq<Seq<Seq<char>>>, crate::tokenizer::ParseError>(seq![seq![w]]),
{
    lemma_plain_run(w, 0, w.len() as int, Seq::empty(), Seq::empty(), Seq::empty(), vars);
    assert(Seq::<char>::empty() + w.subrange(0, w.len() as int) =~= w);
    assert(Seq::<Seq<Seq<char>>>::empty().push(Seq::<Seq<char>>::empty().push(w)) =~= seq![seq![w]]);
}

/// Between single quotes every character stands for itself: a nonempty
/// text without `'` in single quotes is one word.
pub proof fn law_single_quoted(s: Seq<char>, vars: Map<Seq<char>, Seq<char>>)
    requires
        s.len() > 0,
        forall|i: int| 0 <= i < s.len() ==> #[trigger] s[i] != '\'',
    ensures
        tokenize(seq!['\''] + s + seq!['\''], vars) == Ok::<Seq<Seq<Seq<char>>>, crate::tokenizer::ParseError>(seq![seq![s]]),
{
    let cs = seq!['\''] + s + seq!['\''];
    let n = s.len() as int;
    assert(cs[0] == '\'');
    assert(lex_step(cs, 0, lex_start(), vars) == (1int, (Seq::<Seq<Seq<char>>>::empty(), Seq::<Seq<char>>::empty(), Seq::<char>::empty(), State::InSingleQuote)));
    assert forall|k: int| 1 <= k < n + 1 implies #[trigger] cs[k] != '\'' by {
        assert(cs[k] == s[k - 1]);
    }
    lemma_quoted_run(cs, 1, n + 1, Seq::empty(), Seq::empty(), Seq::empty(), vars);
    assert(Seq::<char>::empty() + cs.subrange(1, n + 1) =~= s);
    assert(cs[n + 1] == '\'');
    let st1: Lex = (Seq::empty(), Seq::empty(), Seq::empty(), State::InSingleQuote);
    let st2: Lex = (Seq::empty(), Seq::empty(), s, State::InSingleQuote);
    let st3: Lex = (Seq::empty(), Seq::empty(), s, State::Default);
    assert(tokenize(cs, vars) == lex_from(cs, 1, st1, vars));
    assert(lex_step(cs, n + 1, st2, vars) == (n + 2, st3));
    assert(lex_from(cs, n + 1, st2, vars) == lex_from(cs, n + 2, st3, vars));
    assert(lex_from(cs, n + 2, st3, vars) == lex_finish(st3));
    assert(Seq::<Seq<Seq<char>>>::empty().push(Seq::<Seq<char>>::empty().push(s)) =~= seq![seq![s]]);
}

proof fn lemma_double_quoted_run(cs: Seq<char>, i: int, j: int, segs: Seq<Seq<Seq<char>>>, args: Seq<Seq<char>>, tok: Seq<char>, vars: Map<Seq<char>, Seq<char>>)
    requires
        0 <= i <= j <= cs.len(),
        forall|k: int| i <= k < j ==> #[trigger] cs[k] != '"' && cs[k] != '\\' && cs[k] != '$',
    ensures
        lex_from(cs, i, (segs, args, tok, State::InDoubleQuote), vars)
            == lex_from(cs, j, (segs, args, tok + cs.subrange(i, j), State::InDoubleQuote), vars),
    decreases j - i,
{
    if i < j {
        let st: Lex = (segs, args, tok, State::InDoubleQuote);
        assert(cs[i] != '"' && cs[i] != '\\' && cs[i] != '$');
        assert(lex_step(cs, i, st, vars) == (i + 1, (segs, args, tok.push(cs[i]), State::InDoubleQuote)));
        lemma_double_quoted_run(cs, i + 1, j, segs, args, tok.push(cs[i]), vars);
        assert(tok.push(cs[i]) + cs.subrange(i + 1, j) =~= tok + cs.subrange(i, j));
    } else {
        assert(tok + cs.subrange(i, j) =~= tok);
    }
}

/// Between double quotes every character but `"`, `\` and `$` stands for
/// itself, spaces and `|` included: a nonempty such text in double quotes
/// is one word of one command.
pub proof fn law_double_quoted(s: Seq<char>, vars: Map<Seq<char>, Seq<char>>)
    requires
        s.len() > 0,
        forall|i: int| 0 <= i < s.len() ==> #[trigger] s[i] != '"' && s[i] != '\\' && s[i] != '$',
    ensures
        tokenize(seq!['"'] + s + seq!['"'], vars) == Ok::<Seq<Seq<Seq<char>>>, crate::tokenizer::ParseError>(seq![seq![s]]),
{
    let cs = seq!['"'] + s + seq!['"'];
    let n = s.len() as int;
    assert(cs[0] == '"');
    assert(lex_step(cs, 0, lex_start(), vars) == (1int, (Seq::<Seq<Seq<char>>>::empty(), Seq::<Seq<char>>::empty(), Seq::<char>::empty(), State::InDoubleQuote)));
    assert forall|k: int| 1 <= k < n + 1 implies #[trigger] cs[k] != '"' && cs[k] != '\\' && cs[k] != '$' by {
        assert(cs[k] == s[k - 1]);
    }
    lemma_double_quoted_run(cs, 1, n + 1, Seq::empty(), Seq::empty(), Seq::empty(), vars);
    assert(Seq::<char>::empty() + cs.subrange(1, n + 1) =~= s);
    assert(cs[n + 1] == '"');
    let st1: Lex = (Seq::empty(), Seq::empty(), Seq::empty(), State::InDoubleQuote);
    let st2: Lex = (Seq::empty(), Seq::empty(), s, State::InDoubleQuote);
    let st3: Lex = (Seq::empty(), Seq::empty(), s, State::Default);
    assert(tokenize(cs, vars) == lex_from(cs, 1, st1, vars));
    assert(lex_step(cs, n + 1, st2, vars) == (n + 2, st3));
    assert(lex_from(cs, n + 1, st2, vars) == lex_from(cs, n + 2, st3, vars));
    assert(lex_from(cs, n + 2, st3, vars) == lex_finish(st3));
    assert(Seq::<Seq<Seq<char>>>::empty().push(Seq::<Seq<char>>::empty().push(s)) =~= seq![seq![s]]);
}

/// An unquoted `|` between two plain words makes two commands of one word
/// each.
pub proof fn law_pipe_splits(a: Seq<char>, b: Seq<char>, vars: Map<Seq<char>, Seq<char>>)
    requires
        a.len() > 0,
        b.len() > 0,
        is_plain_word(a),
        is_plain_word(b),
    ensures
        tokenize(a + seq!['|'] + b, vars) == Ok::<Seq<Seq<Seq<char>>>, crate::tokenizer::ParseError>(seq![seq![a], seq![b]]),
{
    let cs = a + seq!['|'] + b;
    let n = a.len() as int;
    let m = b.len() as int;
    assert forall|k: int| 0 <= k < n implies is_plain_char(#[trigger] cs[k]) by {
        assert(cs[k] == a[k]);
    }
    lemma_plain_run(cs, 0, n, Seq::empty(), Seq::empty(), Seq::empty(), vars);
    assert(Seq::<char>::empty() + cs.subrange(0, n) =~= a);
    assert(cs[n] == '|');
    let segs1 = Seq::<Seq<Seq<char>>>::empty().push(Seq::<Seq<char>>::empty().push(a));
    assert(lex_step(cs, n, (Seq::empty(), Seq::empty(), a, State::Default), vars) == (n + 1, (segs1, Seq::<Seq<char>>::empty(), Seq::<char>::empty(), State::Default)));
    assert forall|k: int| n + 1 <= k < n + 1 + m implies is_plain_char(#[trigger] cs[k]) by {
        assert(cs[k] == b[k - n - 1]);
    }
    lemma_plain_run(cs, n + 1, n + 1 + m, segs1, Seq::empty(), Seq::empty(), vars);
    assert(Seq::<char>::empty() + cs.subrange(n + 1, n + 1 + m) =~= b);
    assert(segs1.push(Seq::<Seq<char>>::empty().push(b)) =~= seq![seq![a], seq![b]]);
}

/// `$name` expands to the variable's value (nothing when it has none).
pub proof fn law_variable_expands(name: Seq<char>, vars: Map<Seq<char>, Seq<char>>)
    requires
        name.len() > 0,
        forall|k: int| 0 <= k < name.len() ==> is_name_char(#[trigger] name[k]),
    ensures
        tokenize(seq!['$'] + name, vars) == Ok::<Seq<Seq<Seq<char>>>, crate::tokenizer::ParseError>(
            seq![flush(Seq::empty(), lookup_or_empty(vars, name))],
        ),
{
    let cs = seq!['$'] + name;
    let n = name.len() as int;
    assert forall|k: int| 1 <= k <= n implies is_name_char(#[trigger] cs[k]) by {
        assert(cs[k] == name[k - 1]);
    }
    lemma_name_run_cs(cs, 1);
    assert(cs.subrange(1, 1 + n) =~= name);
    assert(cs[0] == '$');
    let v = lookup_or_empty(vars, name);
    assert(expansion(cs, 1, vars) == (v, n + 1));
    assert(Seq::<char>::empty() + v =~= v);
    let st1: Lex = (Seq::empty(), Seq::empty(), v, State::Default);
    assert(lex_step(cs, 0, lex_start(), vars) == (n + 1, st1));
    assert(tokenize(cs, vars) == lex_from(cs, n + 1, st1, vars));
    assert(lex_from(cs, n + 1, st1, vars) == lex_finish(st1));
    assert(Seq::<Seq<Seq<char>>>::empty().push(flush(Seq::empty(), v)) =~= seq![flush(Seq::empty(), v)]);
}

proof fn lemma_name_run_cs(cs: Seq<char>, i: int)
    requires
        1 <= i <= cs.len(),
        forall|k: int| 1 <= k < cs.len() ==> is_name_char(#[trigger] cs[k]),
    ensures
        name_run(cs, i) == cs.len() - i,
    decreases cs.len() - i,
{
    if i < cs.len() {
        lemma_name_run_cs(cs, i + 1);
    }
}

/// Every word is nonempty.
pub open spec fn words_nonempty(ws: Seq<Seq<char>>) -> bool {
    forall|j: int| 0 <= j < ws.len() ==> (#[trigger] ws[j]).len() > 0
}

/// Every word of every segment is nonempty.
pub open spec fn segments_words_nonempty(segs: Seq<Seq<Seq<char>>>) -> bool {
    forall|i: int| 0 <= i < segs.len() ==> words_nonempty(#[trigger] segs[i])
}

proof fn lemma_flush_nonempty(args: Seq<Seq<char>>, tok: Seq<char>)
    requires
        words_nonempty(args),
    ensures
        words_nonempty(flush(args, tok)),
{
    if tok.len() > 0 {
        assert forall|j: int| 0 <= j < flush(args, tok).len() implies (#[trigger] flush(args, tok)[j]).len() > 0 by {
            if j < args.len() {
                assert(flush(args, tok)[j] == args[j]);
            }
        }
    }
}

proof fn lemma_push_segment(segs: Seq<Seq<Seq<char>>>, ws: Seq<Seq<char>>)
    requires
        segments_words_nonempty(segs),
        words_nonempty(ws),
    ensures
        segments_words_nonempty(segs.push(ws)),
{
    assert forall|i: int| 0 <= i < segs.push(ws).len() implies words_nonempty(#[trigger] segs.push(ws)[i]) by {
        if i < segs.len() {
            assert(segs.push(ws)[i] == segs[i]);
        }
    }
}

proof fn lemma_lex_words_nonempty(cs: Seq<char>, i: int, st: Lex, vars: Map<Seq<char>, Seq<char>>)
    requires
        segments_words_nonempty(st.0),
        words_nonempty(st.1),
    ensures
        lex_from(cs, i, st, vars) matches Ok(segs) ==> segments_words_nonempty(segs),
    decreases cs.len() - i,
{
    let (segs, args, tok, q) = st;
    lemma_flush_nonempty(args, tok);
    lemma_push_segment(segs, flush(args, tok));
    if 0 <= i < cs.len() {
        let (j, st2) = lex_step(cs, i, st, vars);
        assert(segments_words_nonempty(st2.0) && words_nonempty(st2.1));
        if i < j <= cs.len() {
            lemma_lex_words_nonempty(cs, j, st2, vars);
        } else {
            lemma_flush_nonempty(st2.1, st2.2);
            lemma_push_segment(st2.0, flush(st2.1, st2.2));
        }
    }
}

/// The tokenizer never yields an empty word: empty quotes and variables
/// that expand to nothing leave no word behind.
pub proof fn law_words_nonempty(cs: Seq<char>, vars: Map<Seq<char>, Seq<char>>)
    ensures
        tokenize(cs, vars) matches Ok(segs) ==> segments_words_nonempty(segs),
{
    lemma_lex_words_nonempty(cs, 0, lex_start(), vars);
}

} // verus!
