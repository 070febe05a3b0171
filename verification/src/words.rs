//! Whitespace, words, lines and the order of strings.
use vstd::prelude::*;
use crate::text::{str_chars, string_from_chars};

verus! {

/// A character with the Unicode `White_Space` property (what
/// `char::is_whitespace` tests).
pub open spec fn is_ws(c: char) -> bool {
    ||| ('\t' <= c && c <= '\r')
    ||| c == ' '
    ||| c == '\u{85}'
    ||| c == '\u{A0}'
    ||| c == '\u{1680}'
    ||| ('\u{2000}' <= c && c <= '\u{200A}')
    ||| c == '\u{2028}'
    ||| c == '\u{2029}'
    ||| c == '\u{202F}'
    ||| c == '\u{205F}'
    ||| c == '\u{3000}'
}

/// Whether `c` is whitespace.
pub fn is_ws_exec(c: char) -> (r: bool)
    ensures
        r == is_ws(c),
{
    ('\t' <= c && c <= '\r') || c == ' ' || c == '\u{85}' || c == '\u{A0}' || c == '\u{1680}'
        || ('\u{2000}' <= c && c <= '\u{200A}') || c == '\u{2028}' || c == '\u{2029}' || c == '\u{202F}'
        || c == '\u{205F}' || c == '\u{3000}'
}

/// Every character is whitespace (the text trims to nothing).
pub open spec fn all_ws(s: Seq<char>) -> bool {
    forall|i: int| 0 <= i < s.len() ==> is_ws(#[trigger] s[i])
}

/// The words of `s`: the maximal runs of characters that are not
/// whitespace, in order (what `str::split_whitespace` yields).
pub open spec fn split_ws(s: Seq<char>) -> Seq<Seq<char>>
    decreases s.len(),
{
    if s.len() == 0 {
        Seq::empty()
    } else {
        let r = split_ws(s.drop_last());
        let c = s.last();
        if is_ws(c) {
            r
        } else if s.len() >= 2 && !is_ws(s[s.len() - 2]) {
            r.update(r.len() - 1, r.last().push(c))
        } else {
            r.push(seq![c])
        }
    }
}

/// The words of a prefix of a character list, as strings.
pub fn split_ws_exec(cs: &Vec<char>, n: usize) -> (ws: Vec<String>)
    requires
        n <= cs.len(),
    ensures
        ws.deep_view() == split_ws(cs@.take(n as int)),
{
    let mut ws: Vec<String> = Vec::new();
    let mut cur: Vec<char> = Vec::new();
    let mut in_word = false;
    let mut i: usize = 0;
    assert(cs@.take(0) =~= Seq::<char>::empty());
    assert(ws.deep_view() =~= Seq::<Seq<char>>::empty());
    while i < n
        invariant
            i <= n <= cs.len(),
            in_word == (i > 0 && !is_ws(cs@[i - 1])),
            in_word ==> split_ws(cs@.take(i as int)).len() > 0,
            in_word ==> ws.deep_view().push(cur@) == split_ws(cs@.take(i as int)),
            !in_word ==> ws.deep_view() == split_ws(cs@.take(i as int)),
        decreases n - i,
    {
        let c = cs[i];
        let ghost t = cs@.take(i + 1);
        assert(t.drop_last() =~= cs@.take(i as int));
        assert(t.last() == c);
        if is_ws_exec(c) {
            if in_word {
                let ghost old_dv = ws.deep_view();
                let w = string_from_chars(&cur);
                ws.push(w);
                assert(ws.deep_view() =~= old_dv.push(cur@));
                cur = Vec::new();
            }
            in_word = false;
        } else {
            if in_word {
                assert(t[t.len() - 2] == cs@[i - 1]);
                let ghost r = split_ws(cs@.take(i as int));
                cur.push(c);
                assert(ws.deep_view().push(cur@) =~= r.update(r.len() - 1, r.last().push(c)));
            } else {
                if i > 0 {
                    assert(t[t.len() - 2] == cs@[i - 1]);
                }
                cur = Vec::new();
                cur.push(c);
                assert(cur@ =~= seq![c]);
            }
            in_word = true;
        }
        i += 1;
    }
    assert(cs@.take(i as int) =~= cs@.take(n as int));
    if in_word {
        let ghost old_dv = ws.deep_view();
        let w = string_from_chars(&cur);
        ws.push(w);
        assert(ws.deep_view() =~= old_dv.push(cur@));
    }
    ws
}

/// The pieces of `s` between occurrences of `sep`.
pub open spec fn split_on(s: Seq<char>, sep: char) -> Seq<Seq<char>>
    decreases s.len(),
{
    if s.len() == 0 {
        seq![Seq::empty()]
    } else {
        let r = split_on(s.drop_last(), sep);
        if s.last() == sep {
            r.push(Seq::empty())
        } else {
            r.update(r.len() - 1, r.last().push(s.last()))
        }
    }
}

proof fn lemma_split_on_len(s: Seq<char>, sep: char)
    ensures
        split_on(s, sep).len() > 0,
    decreases s.len(),
{
    if s.len() > 0 {
        lemma_split_on_len(s.drop_last(), sep);
    }
}

/// A line without one `\r` at its end.
pub open spec fn strip_cr(l: Seq<char>) -> Seq<char> {
    if l.len() > 0 && l.last() == '\r' { l.drop_last() } else { l }
}

/// The lines of `s` (what `str::lines` yields): split at `\n`, each line
/// that a `\n` ended without a `\r` before it, and no empty last line.
pub open spec fn lines_of(s: Seq<char>) -> Seq<Seq<char>> {
    let p = split_on(s, '\n');
    let body = p.drop_last().map_values(|l: Seq<char>| strip_cr(l));
    if p.last().len() == 0 { body } else { body.push(p.last()) }
}

/// The lines of a text, as strings.
pub fn lines_exec(s: &str) -> (ls: Vec<String>)
    ensures
        ls.deep_view() == lines_of(s@),
{
    let cs = str_chars(s);
    let mut ls: Vec<String> = Vec::new();
    let mut cur: Vec<char> = Vec::new();
    let mut i: usize = 0;
    assert(cs@.take(0) =~= Seq::<char>::empty());
    assert(ls.deep_view() =~= Seq::<Seq<char>>::empty());
    while i < cs.len()
        invariant
            i <= cs.len(),
            cs@ == s@,
            split_on(cs@.take(i as int), '\n').drop_last().map_values(|l: Seq<char>| strip_cr(l)) == ls.deep_view(),
            split_on(cs@.take(i as int), '\n').last() == cur@,
        decreases cs.len() - i,
    {
        let c = cs[i];
        let ghost t = cs@.take(i + 1);
        let ghost r = split_on(cs@.take(i as int), '\n');
        assert(t.drop_last() =~= cs@.take(i as int));
        assert(t.last() == c);
        proof {
            lemma_split_on_len(cs@.take(i as int), '\n');
        }
        if c == '\n' {
            let ghost old_dv = ls.deep_view();
            let n = cur.len();
            let line = if n > 0 && cur[n - 1] == '\r' {
                string_from_chars(&cur[0..n - 1])
            } else {
                string_from_chars(&cur)
            };
            assert(line@ == strip_cr(cur@)) by {
                if n > 0 && cur@[n - 1] == '\r' {
                    assert(cur@.subrange(0, n - 1) =~= cur@.drop_last());
                }
            }
            ls.push(line);
            assert(ls.deep_view() =~= old_dv.push(strip_cr(cur@)));
            assert(split_on(t, '\n').drop_last() =~= r);
            assert(r =~= r.drop_last().push(cur@));
            assert(r.map_values(|l: Seq<char>| strip_cr(l)) =~= r.drop_last().map_values(|l: Seq<char>| strip_cr(l)).push(strip_cr(cur@)));
            cur = Vec::new();
            assert(split_on(t, '\n').last() =~= cur@);
        } else {
            cur.push(c);
            assert(split_on(t, '\n').drop_last() =~= r.drop_last());
        }
        i += 1;
    }
    assert(cs@.take(i as int) =~= s@);
    if cur.len() > 0 {
        let ghost old_dv = ls.deep_view();
        let line = string_from_chars(&cur);
        ls.push(line);
        assert(ls.deep_view() =~= old_dv.push(cur@));
    }
    ls
}

/// `a` comes before `b` in lexicographic order of characters (the order of
/// `String`s: UTF-8 keeps the order of code points).
pub open spec fn lex_lt(a: Seq<char>, b: Seq<char>) -> bool
    decreases a.len(),
{
    if a.len() == 0 {
        b.len() > 0
    } else if b.len() == 0 {
        false
    } else if a[0] != b[0] {
        a[0] < b[0]
    } else {
        lex_lt(a.drop_first(), b.drop_first())
    }
}

/// The order is transitive.
pub proof fn lemma_lex_trans(a: Seq<char>, b: Seq<char>, c: Seq<char>)
    requires
        lex_lt(a, b),
        lex_lt(b, c),
    ensures
        lex_lt(a, c),
    decreases a.len(),
{
    if a.len() > 0 && b.len() > 0 && c.len() > 0 && a[0] == b[0] && b[0] == c[0] {
        lemma_lex_trans(a.drop_first(), b.drop_first(), c.drop_first());
    }
}

/// Two different sequences are ordered one way, and not both ways.
pub proof fn lemma_lex_total(a: Seq<char>, b: Seq<char>)
    ensures
        a != b ==> lex_lt(a, b) || lex_lt(b, a),
        !(lex_lt(a, b) && lex_lt(b, a)),
        !lex_lt(a, a),
    decreases a.len(),
{
    if a.len() > 0 && b.len() > 0 {
        lemma_lex_total(a.drop_first(), b.drop_first());
        if a[0] == b[0] && a != b {
            assert(a =~= seq![a[0]] + a.drop_first());
            assert(b =~= seq![b[0]] + b.drop_first());
        }
    } else if a.len() == 0 && b.len() == 0 {
        assert(a =~= b);
    }
    lemma_lex_irrefl(a);
}

proof fn lemma_lex_irrefl(a: Seq<char>)
    ensures
        !lex_lt(a, a),
    decreases a.len(),
{
    if a.len() > 0 {
        lemma_lex_irrefl(a.drop_first());
    }
}

/// Whether `a` comes before `b`.
pub fn lex_less(a: &Vec<char>, b: &Vec<char>) -> (r: bool)
    ensures
        r == lex_lt(a@, b@),
{
    let mut i: usize = 0;
    assert(a@.skip(0) =~= a@ && b@.skip(0) =~= b@);
    while i < a.len() && i < b.len() && a[i] == b[i]
        invariant
            i <= a.len(),
            i <= b.len(),
            lex_lt(a@, b@) == lex_lt(a@.skip(i as int), b@.skip(i as int)),
        decreases a.len() - i,
    {
        assert(a@.skip(i as int).drop_first() =~= a@.skip(i + 1));
        assert(b@.skip(i as int).drop_first() =~= b@.skip(i + 1));
        i += 1;
    }
    if i == a.len() {
        i < b.len()
    } else if i == b.len() {
        false
    } else {
        a[i] < b[i]
    }
}

/// Each element comes before every later one.
pub open spec fn strictly_sorted(s: Seq<Seq<char>>) -> bool {
    forall|i: int, j: int| 0 <= i < j < s.len() ==> lex_lt(#[trigger] s[i], #[trigger] s[j])
}

/// Adds `x` to a strictly sorted list unless it is there already.
pub fn insert_sorted(list: &mut Vec<Vec<char>>, x: Vec<char>)
    requires
        strictly_sorted(old(list).deep_view()),
    ensures
        strictly_sorted(final(list).deep_view()),
        final(list).deep_view().to_set() == old(list).deep_view().to_set().insert(x@),
{
    let ghost l0 = list.deep_view();
    let mut p: usize = 0;
    while p < list.len() && lex_less(&list[p], &x)
        invariant
            p <= list.len(),
            list.deep_view() == l0,
            forall|j: int| 0 <= j < p ==> lex_lt(#[trigger] l0[j], x@),
        decreases list.len() - p,
    {
        assert(l0[p as int] == list@[p as int]@);
        p += 1;
    }
    if p < list.len() {
        assert(l0[p as int] == list@[p as int]@);
        proof {
            lemma_lex_total(l0[p as int], x@);
        }
        if !lex_less(&x, &list[p]) {
            assert(l0[p as int] == x@);
            assert(l0.to_set().insert(x@) =~= l0.to_set()) by {
                assert(l0.to_set().contains(x@)) by {
                    assert(l0[p as int] == x@);
                }
            }
            return;
        }
    }
    let ghost xv = x@;
    let ghost old_list = list@;
    list.insert(p, x);
    let ghost l1 = list.deep_view();
    assert forall|k: int| 0 <= k < l1.len() implies #[trigger] l1[k] == l0.insert(p as int, xv)[k] by {
        assert(l1[k] == list@[k]@);
        if k < p {
            assert(list@[k] == old_list[k]);
        } else if k > p {
            assert(list@[k] == old_list[k - 1]);
        }
    }
    assert(l1 =~= l0.insert(p as int, xv));
    assert forall|i: int, j: int| 0 <= i < j < l1.len() implies lex_lt(#[trigger] l1[i], #[trigger] l1[j]) by {
        if j < p {
            assert(l1[i] == l0[i] && l1[j] == l0[j]);
        } else if j == p {
            assert(l1[i] == l0[i]);
        } else if i == p {
            assert(l1[j] == l0[j - 1]);
            if j - 1 > p {
                assert(lex_lt(l0[p as int], l0[j - 1]));
                lemma_lex_trans(xv, l0[p as int], l0[j - 1]);
            }
        } else if i < p {
            assert(l1[i] == l0[i] && l1[j] == l0[j - 1]);
            if i < j - 1 {
                assert(lex_lt(l0[i], l0[j - 1]));
            }
        } else {
            assert(l1[i] == l0[i - 1] && l1[j] == l0[j - 1]);
        }
    }
    assert(l1.to_set() =~= l0.to_set().insert(xv)) by {
        assert forall|y: Seq<char>| #[trigger] l1.to_set().contains(y) <==> l0.to_set().insert(xv).contains(y) by {
            if l1.to_set().contains(y) {
                let k = choose|k: int| 0 <= k < l1.len() && l1[k] == y;
                if k < p {
                    assert(l0[k] == y);
                } else if k > p {
                    assert(l0[k - 1] == y);
                }
            }
            if l0.to_set().contains(y) {
                let k = choose|k: int| 0 <= k < l0.len() && l0[k] == y;
                if k < p {
                    assert(l1[k] == y);
                } else {
                    assert(l1[k + 1] == y);
                }
            }
            if y == xv {
                assert(l1[p as int] == y);
            }
        }
    }
}

} // verus!
