//! The builtin commands that compute: `echo`, `complete`, `declare`, and the
//! decisions of `cd`, `type`, `pwd`, `jobs` and `exit`.
use vstd::prelude::*;
use crate::commands::{Output, join_words, join_strings};
use crate::strmap::StringMap;
use crate::text::{str_chars, string_from_chars, push_str};
use crate::tokenizer::{is_name_char, is_name_char_exec};

verus! {

/// A letter of the ASCII alphabet.
pub open spec fn is_ascii_letter(c: char) -> bool {
    ('a' <= c && c <= 'z') || ('A' <= c && c <= 'Z')
}

/// A valid variable name: a letter or `_`, then letters, digits or `_`.
pub open spec fn valid_var_name(s: Seq<char>) -> bool {
    &&& s.len() > 0
    &&& (is_ascii_letter(s[0]) || s[0] == '_')
    &&& forall|i: int| 1 <= i < s.len() ==> is_name_char(#[trigger] s[i])
}

/// Whether `name` is a valid variable name.
pub fn validate_var_name(name: &str) -> (r: bool)
    ensures
        r == valid_var_name(name@),
{
    let cs = str_chars(name);
    if cs.len() == 0 {
        return false;
    }
    let c0 = cs[0];
    if !(('a' <= c0 && c0 <= 'z') || ('A' <= c0 && c0 <= 'Z') || c0 == '_') {
        return false;
    }
    let mut i: usize = 1;
    while i < cs.len()
        invariant
            1 <= i <= cs.len(),
            cs@ == name@,
            forall|j: int| 1 <= j < i ==> is_name_char(#[trigger] cs@[j]),
        decreases cs.len() - i,
    {
        if !is_name_char_exec(cs[i]) {
            return false;
        }
        i += 1;
    }
    true
}

/// The word starts with `-`.
pub open spec fn starts_with_dash(w: Seq<char>) -> bool {
    w.len() > 0 && w[0] == '-'
}

/// How many words from position `i` on start with `-`.
pub open spec fn dash_run(ws: Seq<Seq<char>>, i: int) -> int
    decreases ws.len() - i,
{
    if 0 <= i < ws.len() && starts_with_dash(ws[i]) {
        1 + dash_run(ws, i + 1)
    } else {
        0
    }
}

/// The flag characters of the first `k` words (each after its `-`).
pub open spec fn flags_of(ws: Seq<Seq<char>>, k: int) -> Set<char> {
    Set::new(|c: char| exists|j: int, m: int| 0 <= j < k && 1 <= m < ws[j].len() && #[trigger] ws[j][m] == c)
}

/// The characters of `w` at positions 1 up to `m`.
pub open spec fn word_flags(w: Seq<char>, m: int) -> Set<char> {
    Set::new(|c: char| exists|n: int| 1 <= n < m && #[trigger] w[n] == c)
}

/// The position of the first `c` in `s`, or its length.
pub open spec fn find_char(s: Seq<char>, c: char) -> int
    decreases s.len(),
{
    if s.len() == 0 {
        0
    } else if s[0] == c {
        0
    } else {
        1 + find_char(s.drop_first(), c)
    }
}

/// What `declare` does with its words: the variables afterwards, its
/// output and its errors. Leading words that start with `-` give flags; the
/// first other word is the operand. With no flags the operand is
/// `name=value` and sets a variable; with flag `p` the operand is a name
/// whose value is shown.
pub open spec fn declare_effect(ws: Seq<Seq<char>>, vars: Map<Seq<char>, Seq<char>>) -> (Map<Seq<char>, Seq<char>>, Seq<char>, Seq<char>) {
    let k = dash_run(ws, 0);
    if k >= ws.len() {
        (vars, Seq::empty(), Seq::empty())
    } else {
        let op = ws[k];
        let flags = flags_of(ws, k);
        if flags == Set::<char>::empty() {
            let e = find_char(op, '=');
            if e >= op.len() {
                (vars, Seq::empty(), "declare: no value or identifier present\n"@)
            } else if !valid_var_name(op.take(e)) {
                (vars, Seq::empty(), "declare: `"@ + op + "': not a valid identifier\n"@)
            } else {
                (vars.insert(op.take(e), op.skip(e + 1)), Seq::empty(), Seq::empty())
            }
        } else if flags.contains('p') {
            if vars.dom().contains(op) {
                (vars, "declare -- "@ + op + "=\""@ + vars[op] + "\"\n"@, Seq::empty())
            } else {
                (vars, Seq::empty(), "declare: "@ + op + ": not found\n"@)
            }
        } else {
            (vars, Seq::empty(), Seq::empty())
        }
    }
}

/// Where `find_char` points: at the first `c`, or at the end.
pub proof fn lemma_find_char(s: Seq<char>, c: char)
    ensures
        0 <= find_char(s, c) <= s.len(),
        find_char(s, c) < s.len() ==> s[find_char(s, c)] == c,
        forall|i: int| 0 <= i < find_char(s, c) ==> s[i] != c,
    decreases s.len(),
{
    if s.len() > 0 && s[0] != c {
        lemma_find_char(s.drop_first(), c);
        assert forall|i: int| 0 <= i < find_char(s, c) implies s[i] != c by {
            if i > 0 {
                assert(s[i] == s.drop_first()[i - 1]);
            }
        }
    }
}

/// The `declare` builtin, as `declare_effect` says.
pub fn handle_declare(args: &Vec<String>, vars: &mut StringMap) -> (o: Output)
    ensures
        (final(vars)@, o.stdout@, o.stderr@) == declare_effect(args.deep_view(), old(vars)@),
{
    let ghost ws = args.deep_view();
    let mut o = Output::empty();
    let mut i: usize = 0;
    let mut any_flag = false;
    let mut has_p = false;
    assert(flags_of(ws, 0) =~= Set::<char>::empty());
    loop
        invariant_except_break
            i <= args.len(),
            ws == args.deep_view(),
            dash_run(ws, 0) == i + dash_run(ws, i as int),
            any_flag == (flags_of(ws, i as int) != Set::<char>::empty()),
            has_p == flags_of(ws, i as int).contains('p'),
        ensures
            i <= args.len(),
            dash_run(ws, 0) == i,
            any_flag == (flags_of(ws, i as int) != Set::<char>::empty()),
            has_p == flags_of(ws, i as int).contains('p'),
        decreases args.len() - i,
    {
        if i >= args.len() {
            break;
        }
        let cs = str_chars(args[i].as_str());
        assert(ws[i as int] == cs@);
        if !(cs.len() > 0 && cs[0] == '-') {
            break;
        }
        let ghost before = flags_of(ws, i as int);
        let mut m: usize = 1;
        assert(word_flags(cs@, 1) =~= Set::<char>::empty());
        assert(flags_of(ws, i as int).union(word_flags(cs@, 1)) =~= flags_of(ws, i as int));
        while m < cs.len()
            invariant
                1 <= m <= cs.len(),
                cs@ == ws[i as int],
                i < ws.len(),
                any_flag == (flags_of(ws, i as int).union(word_flags(cs@, m as int)) != Set::<char>::empty()),
                has_p == flags_of(ws, i as int).union(word_flags(cs@, m as int)).contains('p'),
            decreases cs.len() - m,
        {
            let ghost s1 = flags_of(ws, i as int).union(word_flags(cs@, m as int));
            let ghost s2 = flags_of(ws, i as int).union(word_flags(cs@, m + 1));
            assert(s2 =~= s1.insert(cs@[m as int]));
            any_flag = true;
            assert(s2.contains(cs@[m as int]));
            if cs[m] == 'p' {
                has_p = true;
            }
            m += 1;
        }
        assert(flags_of(ws, i + 1) =~= flags_of(ws, i as int).union(word_flags(cs@, cs.len() as int))) by {
            assert forall|c: char| #[trigger] flags_of(ws, i + 1).contains(c) implies flags_of(ws, i as int).union(word_flags(cs@, cs.len() as int)).contains(c) by {
                let (j, mm) = choose|j: int, mm: int| 0 <= j < i + 1 && 1 <= mm < ws[j].len() && #[trigger] ws[j][mm] == c;
                if j < i {
                    assert(flags_of(ws, i as int).contains(c));
                }
            }
            assert forall|c: char| #[trigger] flags_of(ws, i as int).union(word_flags(cs@, cs.len() as int)).contains(c) implies flags_of(ws, i + 1).contains(c) by {
                if flags_of(ws, i as int).contains(c) {
                    let (j, mm) = choose|j: int, mm: int| 0 <= j < i && 1 <= mm < ws[j].len() && #[trigger] ws[j][mm] == c;
                    assert(ws[j][mm] == c);
                } else {
                    let n = choose|n: int| 1 <= n < cs.len() && #[trigger] cs@[n] == c;
                    assert(ws[i as int][n] == c);
                }
            }
        }
        i += 1;
    }
    if i >= args.len() {
        return o;
    }
    let op = &args[i];
    assert(ws[i as int] == op@);
    if !any_flag {
        let cs = str_chars(op.as_str());
        let mut e: usize = 0;
        proof {
            lemma_find_char(cs@, '=');
        }
        while e < cs.len() && cs[e] != '='
            invariant
                e <= cs.len(),
                forall|j: int| 0 <= j < e ==> cs@[j] != '=',
            decreases cs.len() - e,
        {
            e += 1;
        }
        assert(e == find_char(cs@, '=')) by {
            if e < find_char(cs@, '=') {
                assert(cs@[e as int] != '=');
            }
        }
        if e >= cs.len() {
            push_str(&mut o.stderr, "declare: no value or identifier present\n");
            assert(o.stderr@ =~= "declare: no value or identifier present\n"@);
            return o;
        }
        let name = string_from_chars(&cs[0..e]);
        let value = string_from_chars(&cs[e + 1..cs.len()]);
        assert(name@ =~= cs@.take(e as int));
        assert(value@ =~= cs@.skip(e + 1));
        if !validate_var_name(name.as_str()) {
            push_str(&mut o.stderr, "declare: `");
            push_str(&mut o.stderr, op.as_str());
            push_str(&mut o.stderr, "': not a valid identifier\n");
            assert(o.stderr@ =~= "declare: `"@ + op@ + "': not a valid identifier\n"@);
            return o;
        }
        vars.insert(name, value);
        o
    } else if has_p {
        match vars.get(op.as_str()) {
            Some(value) => {
                push_str(&mut o.stdout, "declare -- ");
                push_str(&mut o.stdout, op.as_str());
                push_str(&mut o.stdout, "=\"");
                push_str(&mut o.stdout, value.as_str());
                push_str(&mut o.stdout, "\"\n");
                assert(o.stdout@ =~= "declare -- "@ + op@ + "=\""@ + value@ + "\"\n"@);
            },
            None => {
                push_str(&mut o.stderr, "declare: ");
                push_str(&mut o.stderr, op.as_str());
                push_str(&mut o.stderr, ": not found\n");
                assert(o.stderr@ =~= "declare: "@ + op@ + ": not found\n"@);
            },
        }
        o
    } else {
        o
    }
}

/// What `complete` does with its words: the completion scripts afterwards,
/// its output and its errors. `-C script cmd` registers a script for a
/// command, `-p cmd` shows it, `-r cmd` removes it.
pub open spec fn complete_effect(ws: Seq<Seq<char>>, m: Map<Seq<char>, Seq<char>>) -> (Map<Seq<char>, Seq<char>>, Seq<char>, Seq<char>) {
    if ws.len() == 0 {
        (m, Seq::empty(), "complete: usage: complete -C <script> <command>\n"@)
    } else if ws[0] == "-C"@ {
        if ws.len() < 3 {
            (m, Seq::empty(), "complete: usage: complete -C <script> <command>\n"@)
        } else {
            (m.insert(ws[2], ws[1]), Seq::empty(), Seq::empty())
        }
    } else if ws[0] == "-p"@ {
        if ws.len() < 2 {
            (m, Seq::empty(), "complete: usage: complete -p <command>\n"@)
        } else if m.dom().contains(ws[1]) {
            (m, "complete -C '"@ + m[ws[1]] + "' "@ + ws[1] + "\n"@, Seq::empty())
        } else {
            (m, Seq::empty(), "complete: "@ + ws[1] + ": no completion specification\n"@)
        }
    } else if ws[0] == "-r"@ {
        if ws.len() < 2 {
            (m, Seq::empty(), "complete: usage: complete -r <command>\n"@)
        } else {
            (m.remove(ws[1]), Seq::empty(), Seq::empty())
        }
    } else {
        (m, Seq::empty(), "complete: unsupported option: "@ + ws[0] + "\n"@)
    }
}

/// The `complete` builtin, as `complete_effect` says.
pub fn handle_complete(args: &Vec<String>, completions: &mut StringMap) -> (o: Output)
    ensures
        (final(completions)@, o.stdout@, o.stderr@) == complete_effect(args.deep_view(), old(completions)@),
{
    let ghost ws = args.deep_view();
    let mut o = Output::empty();
    if args.len() == 0 {
        push_str(&mut o.stderr, "complete: usage: complete -C <script> <command>\n");
        assert(o.stderr@ =~= "complete: usage: complete -C <script> <command>\n"@);
        return o;
    }
    assert(ws[0] == args@[0]@);
    let opt = &args[0];
    if *opt == "-C".to_owned() {
        if args.len() < 3 {
            push_str(&mut o.stderr, "complete: usage: complete -C <script> <command>\n");
            assert(o.stderr@ =~= "complete: usage: complete -C <script> <command>\n"@);
            return o;
        }
        assert(ws[1] == args@[1]@ && ws[2] == args@[2]@);
        let script = args[1].clone();
        let cmd = args[2].clone();
        completions.insert(cmd, script);
        o
    } else if *opt == "-p".to_owned() {
        if args.len() < 2 {
            push_str(&mut o.stderr, "complete: usage: complete -p <command>\n");
            assert(o.stderr@ =~= "complete: usage: complete -p <command>\n"@);
            return o;
        }
        assert(ws[1] == args@[1]@);
        let cmd = &args[1];
        match completions.get(cmd.as_str()) {
            Some(script) => {
                push_str(&mut o.stdout, "complete -C '");
                push_str(&mut o.stdout, script.as_str());
                push_str(&mut o.stdout, "' ");
                push_str(&mut o.stdout, cmd.as_str());
                push_str(&mut o.stdout, "\n");
                assert(o.stdout@ =~= "complete -C '"@ + script@ + "' "@ + cmd@ + "\n"@);
            },
            None => {
                push_str(&mut o.stderr, "complete: ");
                push_str(&mut o.stderr, cmd.as_str());
                push_str(&mut o.stderr, ": no completion specification\n");
                assert(o.stderr@ =~= "complete: "@ + cmd@ + ": no completion specification\n"@);
            },
        }
        o
    } else if *opt == "-r".to_owned() {
        if args.len() < 2 {
            push_str(&mut o.stderr, "complete: usage: complete -r <command>\n");
            assert(o.stderr@ =~= "complete: usage: complete -r <command>\n"@);
            return o;
        }
        assert(ws[1] == args@[1]@);
        completions.remove_entry(args[1].as_str());
        o
    } else {
        push_str(&mut o.stderr, "complete: unsupported option: ");
        push_str(&mut o.stderr, opt.as_str());
        push_str(&mut o.stderr, "\n");
        assert(o.stderr@ =~= "complete: unsupported option: "@ + opt@ + "\n"@);
        o
    }
}

/// What a builtin asks of the shell around it.
pub enum BuiltinStep {
    /// End the shell.
    Exit,
    /// The builtin is done; write this.
    Done(Output),
    /// Print the working directory.
    PrintWorkingDirectory,
    /// Change directory to this path, or to the home directory.
    ChangeDirectory(Option<String>),
    /// Describe this command name (`type`).
    Type(String),
    /// Reap finished jobs and list the jobs.
    Jobs,
}

/// The first word, or the empty word.
pub open spec fn first_or_empty(ws: Seq<Seq<char>>) -> Seq<char> {
    if ws.len() > 0 { ws[0] } else { Seq::empty() }
}

/// What a builtin named `cmd` given words `ws` asks for and changes.
pub open spec fn builtin_step_holds(
    cmd: Seq<char>,
    ws: Seq<Seq<char>>,
    comps: Map<Seq<char>, Seq<char>>,
    vars: Map<Seq<char>, Seq<char>>,
    step: BuiltinStep,
    comps2: Map<Seq<char>, Seq<char>>,
    vars2: Map<Seq<char>, Seq<char>>,
) -> bool {
    if cmd == "complete"@ {
        &&& vars2 == vars
        &&& step matches BuiltinStep::Done(o) && (comps2, o.stdout@, o.stderr@) == complete_effect(ws, comps)
    } else if cmd == "declare"@ {
        &&& comps2 == comps
        &&& step matches BuiltinStep::Done(o) && (vars2, o.stdout@, o.stderr@) == declare_effect(ws, vars)
    } else {
        &&& comps2 == comps
        &&& vars2 == vars
        &&& if cmd == "exit"@ {
            step is Exit
        } else if cmd == "echo"@ {
            step matches BuiltinStep::Done(o) && o.stdout@ == join_words(ws, seq![' ']) + seq!['\n']
                && o.stderr@ == Seq::<char>::empty()
        } else if cmd == "pwd"@ {
            step is PrintWorkingDirectory
        } else if cmd == "cd"@ {
            let path = first_or_empty(ws);
            step matches BuiltinStep::ChangeDirectory(t) && if path.len() == 0 || path == seq!['~'] {
                t is None
            } else {
                t matches Some(p) && p@ == path
            }
        } else if cmd == "type"@ {
            step matches BuiltinStep::Type(n) && n@ == first_or_empty(ws)
        } else if cmd == "jobs"@ {
            step is Jobs
        } else {
            step matches BuiltinStep::Done(o) && o.stdout@ == Seq::<char>::empty() && o.stderr@ == cmd
                + ": not found\n"@
        }
    }
}

fn first_word(args: &Vec<String>) -> (w: String)
    ensures
        w@ == first_or_empty(args.deep_view()),
{
    if args.len() > 0 {
        assert(args.deep_view()[0] == args@[0]@);
        args[0].clone()
    } else {
        String::new()
    }
}

/// Runs a builtin as far as it computes, and says what is left for the
/// shell around it to do.
pub fn run_builtin_command(cmd: &str, args: &Vec<String>, completions: &mut StringMap, vars: &mut StringMap) -> (step: BuiltinStep)
    ensures
        builtin_step_holds(cmd@, args.deep_view(), old(completions)@, old(vars)@, step, final(completions)@, final(vars)@),
{
    let c = cmd.to_owned();
    if c == "complete".to_owned() {
        BuiltinStep::Done(handle_complete(args, completions))
    } else if c == "declare".to_owned() {
        BuiltinStep::Done(handle_declare(args, vars))
    } else if c == "exit".to_owned() {
        BuiltinStep::Exit
    } else if c == "echo".to_owned() {
        let mut o = Output::empty();
        let line = join_strings(args, " ");
        push_str(&mut o.stdout, line.as_str());
        push_str(&mut o.stdout, "\n");
        proof {
            reveal_strlit(" ");
            reveal_strlit("\n");
        }
        assert(" "@ =~= seq![' ']);
        assert(o.stdout@ =~= join_words(args.deep_view(), seq![' ']) + seq!['\n']);
        BuiltinStep::Done(o)
    } else if c == "pwd".to_owned() {
        BuiltinStep::PrintWorkingDirectory
    } else if c == "cd".to_owned() {
        let path = first_word(args);
        let pc = str_chars(path.as_str());
        let home = pc.len() == 0 || (pc.len() == 1 && pc[0] == '~');
        proof {
            if pc.len() == 1 && pc[0] == '~' {
                assert(pc@ =~= seq!['~']);
            }
            if pc@ == seq!['~'] {
                assert(pc.len() == 1 && pc@[0] == '~');
            }
        }
        if home {
            BuiltinStep::ChangeDirectory(None)
        } else {
            BuiltinStep::ChangeDirectory(Some(path))
        }
    } else if c == "type".to_owned() {
        BuiltinStep::Type(first_word(args))
    } else if c == "jobs".to_owned() {
        BuiltinStep::Jobs
    } else {
        let mut o = Output::empty();
        push_str(&mut o.stderr, cmd);
        push_str(&mut o.stderr, ": not found\n");
        BuiltinStep::Done(o)
    }
}

/// The error `cd` writes when it cannot enter `target`.
pub fn cd_error(target: &str) -> (s: String)
    ensures
        s@ == "cd: "@ + target@ + ": No such file or directory\n"@,
{
    let mut s = String::new();
    push_str(&mut s, "cd: ");
    push_str(&mut s, target);
    push_str(&mut s, ": No such file or directory\n");
    assert(s@ =~= "cd: "@ + target@ + ": No such file or directory\n"@);
    s
}

} // verus!
