//! Command resolution, argument and redirection parsing, and the plans for
//! single commands and pipelines.
use vstd::prelude::*;
use crate::text::{str_chars, push_str};

verus! {

/// What a builtin or a command writes: its standard output and its
/// standard error.
pub struct Output {
    pub stdout: String,
    pub stderr: String,
}

impl Output {
    /// Writes nothing.
    pub fn empty() -> (o: Output)
        ensures
            o.stdout@ == Seq::<char>::empty(),
            o.stderr@ == Seq::<char>::empty(),
    {
        Output { stdout: String::new(), stderr: String::new() }
    }
}

/// The names of the builtin commands.
pub open spec fn builtin_names() -> Seq<Seq<char>> {
    seq!["exit"@, "echo"@, "pwd"@, "type"@, "cd"@, "complete"@, "jobs"@, "history"@, "declare"@]
}

/// The names of the builtin commands, in order.
pub fn builtin_list() -> (v: Vec<String>)
    ensures
        v.deep_view() == builtin_names(),
{
    let v = vec![
        "exit".to_owned(),
        "echo".to_owned(),
        "pwd".to_owned(),
        "type".to_owned(),
        "cd".to_owned(),
        "complete".to_owned(),
        "jobs".to_owned(),
        "history".to_owned(),
        "declare".to_owned(),
    ];
    assert(v.deep_view() =~= builtin_names());
    v
}

/// Whether `cmd` names a builtin command.
pub fn is_builtin(cmd: &str) -> (r: bool)
    ensures
        r == builtin_names().contains(cmd@),
{
    let names = builtin_list();
    let c = cmd.to_owned();
    let mut i: usize = 0;
    while i < names.len()
        invariant
            i <= names.len(),
            names.deep_view() == builtin_names(),
            c@ == cmd@,
            forall|j: int| 0 <= j < i ==> builtin_names()[j] != cmd@,
        decreases names.len() - i,
    {
        assert(names.deep_view()[i as int] == names@[i as int]@);
        if names[i] == c {
            assert(builtin_names()[i as int] == cmd@);
            return true;
        }
        i += 1;
    }
    false
}

/// A directory entry found on the search path: its full path, its file
/// name, and its permission bits.
pub struct PathEntry {
    pub path: String,
    pub file_name: String,
    pub mode: u32,
}

/// Some execute permission bit is set.
pub open spec fn is_executable(mode: u32) -> bool {
    mode & 0o111u32 != 0
}

/// The entry is an executable named `cmd`.
pub open spec fn entry_matches(e: PathEntry, cmd: Seq<char>) -> bool {
    is_executable(e.mode) && e.file_name@ == cmd
}

/// The path of the first executable entry named `cmd`, if there is one.
pub open spec fn find_in_path(entries: Seq<PathEntry>, cmd: Seq<char>) -> Option<Seq<char>>
    decreases entries.len(),
{
    if entries.len() == 0 {
        None
    } else if entry_matches(entries[0], cmd) {
        Some(entries[0].path@)
    } else {
        find_in_path(entries.drop_first(), cmd)
    }
}

/// The path of the first executable entry named `cmd` among the entries of
/// the search path's directories, taken in order.
pub fn find_command(cmd: &str, entries: &Vec<PathEntry>) -> (r: Option<String>)
    ensures
        match r {
            Some(p) => find_in_path(entries@, cmd@) == Some(p@),
            None => find_in_path(entries@, cmd@) is None,
        },
{
    let c = cmd.to_owned();
    let mut i: usize = 0;
    assert(entries@.skip(0) =~= entries@);
    while i < entries.len()
        invariant
            i <= entries.len(),
            c@ == cmd@,
            find_in_path(entries@.skip(i as int), cmd@) == find_in_path(entries@, cmd@),
        decreases entries.len() - i,
    {
        let e = &entries[i];
        assert(entries@.skip(i as int)[0] == entries@[i as int]);
        assert(entries@.skip(i as int).drop_first() =~= entries@.skip(i + 1));
        if e.mode & 0o111u32 != 0 && e.file_name == c {
            return Some(e.path.clone());
        }
        i += 1;
    }
    assert(entries@.skip(i as int) =~= Seq::<PathEntry>::empty());
    None
}

/// How a command name resolves.
pub enum CommandKind {
    Builtin,
    External(String),
    NotFound,
}

/// A command name resolves to a builtin, else to the first executable of that
/// name on the search path, else to nothing.
pub open spec fn resolves_to(kind: CommandKind, cmd: Seq<char>, entries: Seq<PathEntry>) -> bool {
    if builtin_names().contains(cmd) {
        kind is Builtin
    } else {
        match find_in_path(entries, cmd) {
            Some(p) => kind matches CommandKind::External(q) && q@ == p,
            None => kind is NotFound,
        }
    }
}

/// Resolves a command name against the builtins and then the search path.
pub fn resolve_command(cmd: &str, entries: &Vec<PathEntry>) -> (k: CommandKind)
    ensures
        resolves_to(k, cmd@, entries@),
{
    if is_builtin(cmd) {
        CommandKind::Builtin
    } else {
        match find_command(cmd, entries) {
            Some(path) => CommandKind::External(path),
            None => CommandKind::NotFound,
        }
    }
}

/// What `type` writes about `cmd`.
pub open spec fn type_output(cmd: Seq<char>, entries: Seq<PathEntry>) -> (Seq<char>, Seq<char>) {
    if builtin_names().contains(cmd) {
        (cmd + " is a shell builtin\n"@, Seq::empty())
    } else {
        match find_in_path(entries, cmd) {
            Some(p) => (cmd + " is "@ + p + "\n"@, Seq::empty()),
            None => (Seq::empty(), cmd + ": not found\n"@),
        }
    }
}

/// The `type` builtin: says whether `cmd` is a builtin, where it lives, or
/// that it is not found.
pub fn run_type(cmd: &str, entries: &Vec<PathEntry>) -> (o: Output)
    ensures
        (o.stdout@, o.stderr@) == type_output(cmd@, entries@),
{
    let mut o = Output::empty();
    match resolve_command(cmd, entries) {
        CommandKind::Builtin => {
            push_str(&mut o.stdout, cmd);
            push_str(&mut o.stdout, " is a shell builtin\n");
        },
        CommandKind::External(path) => {
            push_str(&mut o.stdout, cmd);
            push_str(&mut o.stdout, " is ");
            push_str(&mut o.stdout, path.as_str());
            push_str(&mut o.stdout, "\n");
        },
        CommandKind::NotFound => {
            push_str(&mut o.stderr, cmd);
            push_str(&mut o.stderr, ": not found\n");
        },
    }
    assert(o.stdout@ =~= type_output(cmd@, entries@).0);
    assert(o.stderr@ =~= type_output(cmd@, entries@).1);
    o
}

/// An output redirection: the descriptor (1 or 2), whether it appends, and
/// the file.
pub struct Redirection {
    pub fd: u8,
    pub append: bool,
    pub target: String,
}

/// A redirection as values.
pub open spec fn redirection_view(r: Redirection) -> (u8, bool, Seq<char>) {
    (r.fd, r.append, r.target@)
}

/// The redirection operators: `>`, `1>`, `2>`, `>>`, `1>>`, `2>>`.
pub open spec fn is_redirect_op(t: Seq<char>) -> bool {
    ||| t == seq!['>']
    ||| t == seq!['1', '>']
    ||| t == seq!['2', '>']
    ||| t == seq!['>', '>']
    ||| t == seq!['1', '>', '>']
    ||| t == seq!['2', '>', '>']
}

/// The descriptor an operator redirects: 2 when it starts with `2`, else 1.
pub open spec fn redirect_fd(t: Seq<char>) -> u8 {
    if t.len() > 0 && t[0] == '2' { 2 } else { 1 }
}

/// Whether an operator appends: it ends with `>>`.
pub open spec fn redirect_appends(t: Seq<char>) -> bool {
    t.len() >= 2 && t[t.len() - 1] == '>' && t[t.len() - 2] == '>'
}

/// The position of the first redirection of descriptor `fd`, if any.
pub fn redirection_for(rs: &Vec<Redirection>, fd: u8) -> (r: Option<usize>)
    ensures
        match r {
            Some(i) => i < rs.len() && rs@[i as int].fd == fd && forall|j: int| 0 <= j < i ==> rs@[j].fd != fd,
            None => forall|j: int| 0 <= j < rs.len() ==> rs@[j].fd != fd,
        },
{
    let mut i: usize = 0;
    while i < rs.len()
        invariant
            i <= rs.len(),
            forall|j: int| 0 <= j < i ==> rs@[j].fd != fd,
        decreases rs.len() - i,
    {
        if rs[i].fd == fd {
            return Some(i);
        }
        i += 1;
    }
    None
}

/// Words and redirections as values, and whether an operator lacked its file.
pub type ParsedView = (Seq<Seq<char>>, Seq<(u8, bool, Seq<char>)>, bool);

/// The words from position `i` on, split into arguments and redirections
/// (an operator takes the next word as its file); stops at an operator
/// with no word after it.
pub open spec fn parse_args_from(ts: Seq<Seq<char>>, i: int, acc: ParsedView) -> ParsedView
    decreases ts.len() - i,
{
    if i < 0 || i >= ts.len() {
        acc
    } else if is_redirect_op(ts[i]) {
        if i + 1 >= ts.len() {
            (acc.0, acc.1, true)
        } else {
            parse_args_from(
                ts,
                i + 2,
                (acc.0, acc.1.push((redirect_fd(ts[i]), redirect_appends(ts[i]), ts[i + 1])), false),
            )
        }
    } else {
        parse_args_from(ts, i + 1, (acc.0.push(ts[i]), acc.1, false))
    }
}

/// The arguments and redirections of a command's words.
pub open spec fn parse_args_spec(ts: Seq<Seq<char>>) -> ParsedView {
    parse_args_from(ts, 0, (Seq::empty(), Seq::empty(), false))
}

/// A command's words split into arguments and redirections;
/// `missing_target` says that a redirection operator had no file after it
/// (the words after it are then left out).
pub struct ParsedArgs {
    pub args: Vec<String>,
    pub redirections: Vec<Redirection>,
    pub missing_target: bool,
}

/// The value view of parsed arguments.
pub open spec fn parsed_view(p: ParsedArgs) -> ParsedView {
    (p.args.deep_view(), p.redirections@.map_values(|r: Redirection| redirection_view(r)), p.missing_target)
}

fn redirect_op_exec(t: &Vec<char>) -> (r: bool)
    ensures
        r == is_redirect_op(t@),
{
    let n = t.len();
    let r = if n == 1 {
        t[0] == '>'
    } else if n == 2 {
        (t[0] == '1' || t[0] == '2' || t[0] == '>') && t[1] == '>'
    } else if n == 3 {
        (t[0] == '1' || t[0] == '2') && t[1] == '>' && t[2] == '>'
    } else {
        false
    };
    proof {
        if r {
            if n == 1 {
                assert(t@ =~= seq!['>']);
            } else if n == 2 {
                if t[0] == '1' {
                    assert(t@ =~= seq!['1', '>']);
                } else if t[0] == '2' {
                    assert(t@ =~= seq!['2', '>']);
                } else {
                    assert(t@ =~= seq!['>', '>']);
                }
            } else {
                if t[0] == '1' {
                    assert(t@ =~= seq!['1', '>', '>']);
                } else {
                    assert(t@ =~= seq!['2', '>', '>']);
                }
            }
        }
    }
    r
}

/// Splits a command's words into arguments and redirections, as
/// `parse_args_spec` says.
pub fn parse_args(all_args: Vec<String>) -> (p: ParsedArgs)
    ensures
        parsed_view(p) == parse_args_spec(all_args.deep_view()),
{
    let ghost ts = all_args.deep_view();
    let mut args: Vec<String> = Vec::new();
    let mut redirections: Vec<Redirection> = Vec::new();
    let mut i: usize = 0;
    assert(args.deep_view() =~= Seq::<Seq<char>>::empty());
    assert(redirections@.map_values(|r: Redirection| redirection_view(r)) =~= Seq::<(u8, bool, Seq<char>)>::empty());
    while i < all_args.len()
        invariant
            ts == all_args.deep_view(),
            i <= all_args.len(),
            parse_args_from(ts, i as int, (args.deep_view(), redirections@.map_values(|r: Redirection| redirection_view(r)), false))
                == parse_args_spec(ts),
        decreases all_args.len() - i,
    {
        let t = str_chars(all_args[i].as_str());
        assert(ts[i as int] == t@);
        if redirect_op_exec(&t) {
            if i + 1 >= all_args.len() {
                return ParsedArgs { args, redirections, missing_target: true };
            }
            let fd: u8 = if t[0] == '2' { 2 } else { 1 };
            let append = t.len() >= 2 && t[t.len() - 1] == '>' && t[t.len() - 2] == '>';
            let target = all_args[i + 1].clone();
            let ghost old_rv = redirections@.map_values(|r: Redirection| redirection_view(r));
            redirections.push(Redirection { fd, append, target });
            assert(redirections@.map_values(|r: Redirection| redirection_view(r)) =~= old_rv.push(
                (redirect_fd(ts[i as int]), redirect_appends(ts[i as int]), ts[i + 1]),
            ));
            i += 2;
        } else {
            let ghost old_av = args.deep_view();
            args.push(all_args[i].clone());
            assert(args.deep_view() =~= old_av.push(ts[i as int]));
            i += 1;
        }
    }
    ParsedArgs { args, redirections, missing_target: false }
}

/// One command of a plan: its name and its parsed words.
pub struct Stage {
    pub cmd: String,
    pub parsed: ParsedArgs,
}

/// What a command line asks for.
pub enum CommandPlan {
    /// One command, perhaps in the background; `command_line` is its words
    /// joined by spaces (the job's description).
    Single { stage: Stage, background: bool, command_line: String },
    /// Commands joined by pipes, perhaps in the background; `command_line`
    /// is each command's words joined by spaces, the commands joined by
    /// ` | `.
    Pipeline { stages: Vec<Stage>, background: bool, command_line: String },
    /// A pipeline with an empty command: nothing runs.
    EmptyPipelineSegment,
}

/// The words without a last `&`, and whether there was one.
pub open spec fn strip_background(ws: Seq<Seq<char>>) -> (Seq<Seq<char>>, bool) {
    if ws.len() > 0 && ws.last() == seq!['&'] {
        (ws.drop_last(), true)
    } else {
        (ws, false)
    }
}

/// The words joined by `sep`.
pub open spec fn join_words(ws: Seq<Seq<char>>, sep: Seq<char>) -> Seq<char>
    decreases ws.len(),
{
    if ws.len() == 0 {
        Seq::empty()
    } else if ws.len() == 1 {
        ws[0]
    } else {
        join_words(ws.drop_last(), sep) + sep + ws.last()
    }
}

/// A stage as values.
pub open spec fn stage_view(st: Stage) -> (Seq<char>, ParsedView) {
    (st.cmd@, parsed_view(st.parsed))
}

/// The stage that a command's words make: the first word is the command.
pub open spec fn stage_of(ws: Seq<Seq<char>>) -> (Seq<char>, ParsedView) {
    (ws[0], parse_args_spec(ws.skip(1)))
}

/// Some segment has no words.
pub open spec fn has_empty_segment(segs: Seq<Seq<Seq<char>>>) -> bool {
    exists|k: int| 0 <= k < segs.len() && (#[trigger] segs[k]).len() == 0
}

/// The segments of a pipeline with a last `&` taken off, and whether there
/// was one.
pub open spec fn pipeline_segments(segs: Seq<Seq<Seq<char>>>) -> (Seq<Seq<Seq<char>>>, bool) {
    let (last, bg) = strip_background(segs.last());
    (segs.update(segs.len() - 1, last), bg)
}

/// The command line a pipeline runs as a job.
pub open spec fn pipeline_line(segs: Seq<Seq<Seq<char>>>) -> Seq<char> {
    join_words(segs.map_values(|ws: Seq<Seq<char>>| join_words(ws, seq![' '])), seq![' ', '|', ' '])
}

/// The command lines on which running them would index past an empty
/// command: a lone command that is empty or only `&`, or a pipeline whose
/// last command is only `&`.
pub open spec fn plannable(segs: Seq<Seq<Seq<char>>>) -> bool {
    &&& segs.len() >= 1
    &&& segs.len() == 1 ==> strip_background(segs[0]).0.len() > 0
    &&& segs.len() > 1 && !has_empty_segment(segs) ==> pipeline_segments(segs).0.last().len() > 0
}

/// Joins words with a separator.
pub fn join_strings(ws: &Vec<String>, sep: &str) -> (r: String)
    ensures
        r@ == join_words(ws.deep_view(), sep@),
{
    let mut r = String::new();
    let mut i: usize = 0;
    assert(ws.deep_view().take(0) =~= Seq::<Seq<char>>::empty());
    while i < ws.len()
        invariant
            i <= ws.len(),
            r@ == join_words(ws.deep_view().take(i as int), sep@),
        decreases ws.len() - i,
    {
        let ghost t = ws.deep_view().take(i + 1);
        assert(t.drop_last() =~= ws.deep_view().take(i as int));
        assert(t.last() == ws@[i as int]@);
        if i > 0 {
            push_str(&mut r, sep);
        } else {
            assert(t.len() == 1);
        }
        push_str(&mut r, ws[i].as_str());
        assert(r@ =~= join_words(t, sep@));
        i += 1;
    }
    assert(ws.deep_view().take(i as int) =~= ws.deep_view());
    r
}

/// The stage of a command's words.
fn stage_from(words: &Vec<String>) -> (st: Stage)
    requires
        words.len() > 0,
    ensures
        stage_view(st) == stage_of(words.deep_view()),
{
    let cmd = words[0].clone();
    let mut rest: Vec<String> = Vec::new();
    let mut i: usize = 1;
    assert(rest.deep_view() =~= words.deep_view().subrange(1, 1));
    while i < words.len()
        invariant
            1 <= i <= words.len(),
            rest.deep_view() == words.deep_view().subrange(1, i as int),
        decreases words.len() - i,
    {
        assert(words.deep_view()[i as int] == words@[i as int]@);
        let ghost old_rv = rest.deep_view();
        rest.push(words[i].clone());
        assert(rest.deep_view() =~= old_rv.push(words@[i as int]@));
        assert(rest.deep_view() =~= words.deep_view().subrange(1, i + 1));
        i += 1;
    }
    assert(rest.deep_view() =~= words.deep_view().skip(1));
    Stage { cmd, parsed: parse_args(rest) }
}

fn is_ampersand(w: &String) -> (r: bool)
    ensures
        r == (w@ == seq!['&']),
{
    let cs = str_chars(w.as_str());
    let r = cs.len() == 1 && cs[0] == '&';
    if r {
        assert(cs@ =~= seq!['&']);
    }
    r
}

/// Whether a tokenized command line can be planned without indexing an
/// empty command (see `plannable`).
pub fn is_plannable(segments: &Vec<Vec<String>>) -> (r: bool)
    ensures
        r == plannable(segments.deep_view()),
{
    let ghost segs = segments.deep_view();
    let n = segments.len();
    if n == 0 {
        return false;
    }
    if n == 1 {
        assert(segs[0] == segments@[0].deep_view());
        let ws = &segments[0];
        let m = ws.len();
        let strip = m > 0 && is_ampersand(&ws[m - 1]);
        assert(m > 0 ==> segs[0].last() == ws@[m - 1]@);
        return if strip { m > 1 } else { m > 0 };
    }
    let mut k: usize = 0;
    while k < n
        invariant
            k <= n,
            n == segs.len(),
            n > 1,
            segs == segments.deep_view(),
            forall|j: int| 0 <= j < k ==> (#[trigger] segs[j]).len() > 0,
        decreases n - k,
    {
        assert(segs[k as int] == segments@[k as int].deep_view());
        if segments[k].len() == 0 {
            assert(segs[k as int].len() == 0);
            assert(has_empty_segment(segs));
            return true;
        }
        k += 1;
    }
    assert(!has_empty_segment(segs));
    let last = &segments[n - 1];
    assert(segs[n - 1] == last.deep_view());
    let m = last.len();
    assert(segs[n - 1].last() == last@[m - 1]@);
    let strip = is_ampersand(&last[m - 1]);
    assert(pipeline_segments(segs).0.last() == strip_background(segs[n - 1]).0);
    if strip { m > 1 } else { true }
}

/// Decides what a tokenized command line runs: one command, or a pipeline
/// (unless one of its commands is empty); a last `&` asks for the
/// background.
#[verifier::loop_isolation(false)]
pub fn handle_command(segments: Vec<Vec<String>>) -> (plan: CommandPlan)
    requires
        plannable(segments.deep_view()),
    ensures
        ({
            let segs = segments.deep_view();
            match plan {
                CommandPlan::Single { stage, background, command_line } => {
                    let (ws, bg) = strip_background(segs[0]);
                    &&& segs.len() == 1
                    &&& background == bg
                    &&& stage_view(stage) == stage_of(ws)
                    &&& command_line@ == join_words(ws, seq![' '])
                },
                CommandPlan::Pipeline { stages, background, command_line } => {
                    let (ps, bg) = pipeline_segments(segs);
                    &&& segs.len() > 1
                    &&& !has_empty_segment(segs)
                    &&& background == bg
                    &&& stages.len() == ps.len()
                    &&& forall|k: int| 0 <= k < ps.len() ==> stage_view(#[trigger] stages@[k]) == stage_of(ps[k])
                    &&& command_line@ == pipeline_line(ps)
                },
                CommandPlan::EmptyPipelineSegment => segs.len() > 1 && has_empty_segment(segs),
            }
        }),
{
    let ghost segs = segments.deep_view();
    assert(segs.len() == segments.len());
    let mut segments = segments;
    if segments.len() == 1 {
        let mut words = segments.pop().unwrap();
        assert(words.deep_view() == segs[0]);
        let background = words.len() > 0 && is_ampersand(&words[words.len() - 1]);
        if background {
            words.pop();
            assert(words.deep_view() =~= segs[0].drop_last());
        }
        let command_line = join_strings(&words, " ");
        proof {
            reveal_strlit(" ");
            assert(" "@ =~= seq![' ']);
        }
        let stage = stage_from(&words);
        CommandPlan::Single { stage, background, command_line }
    } else {
        let mut k: usize = 0;
        while k < segments.len()
            invariant
                k <= segments.len(),
                segs.len() > 1,
                segments.deep_view() == segs,
                forall|j: int| 0 <= j < k ==> (#[trigger] segs[j]).len() > 0,
            decreases segments.len() - k,
        {
            assert(segs[k as int] == segments@[k as int].deep_view());
            if segments[k].len() == 0 {
                assert(segs[k as int].len() == 0);
                assert(has_empty_segment(segs));
                assert(segs.len() > 1);
                return CommandPlan::EmptyPipelineSegment;
            }
            k += 1;
        }
        let n = segments.len();
        let mut last = segments.pop().unwrap();
        assert(last.deep_view() == segs[n - 1]);
        let background = is_ampersand(&last[last.len() - 1]);
        if background {
            last.pop();
            assert(last.deep_view() =~= segs[n - 1].drop_last());
        }
        segments.push(last);
        let ghost ps = pipeline_segments(segs).0;
        assert(segments.deep_view() =~= ps);
        let mut stages: Vec<Stage> = Vec::new();
        let mut lines: Vec<String> = Vec::new();
        let mut i: usize = 0;
        proof {
            reveal_strlit(" ");
            reveal_strlit(" | ");
        }
        while i < segments.len()
            invariant
                i <= segments.len(),
                segments.deep_view() == ps,
                ps.len() == segs.len(),
                forall|j: int| 0 <= j < ps.len() ==> (#[trigger] ps[j]).len() > 0,
                stages.len() == i,
                forall|j: int| 0 <= j < i ==> stage_view(#[trigger] stages@[j]) == stage_of(ps[j]),
                lines.deep_view() == ps.take(i as int).map_values(|ws: Seq<Seq<char>>| join_words(ws, seq![' '])),
            decreases segments.len() - i,
        {
            assert(ps[i as int] == segments@[i as int].deep_view());
            stages.push(stage_from(&segments[i]));
            let ghost old_lv = lines.deep_view();
            proof {
                reveal_strlit(" ");
            }
            assert(" "@ =~= seq![' ']);
            let line = join_strings(&segments[i], " ");
            assert(line@ == join_words(ps[i as int], seq![' ']));
            lines.push(line);
            assert(lines.deep_view() =~= old_lv.push(join_words(ps[i as int], seq![' '])));
            assert(lines.deep_view() =~= ps.take(i + 1).map_values(|ws: Seq<Seq<char>>| join_words(ws, seq![' '])));
            i += 1;
        }
        assert(ps.take(i as int) =~= ps);
        let command_line = join_strings(&lines, " | ");
        assert(" | "@ =~= seq![' ', '|', ' ']);
        CommandPlan::Pipeline { stages, background, command_line }
    }
}

} // verus!
