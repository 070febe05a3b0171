use std::collections::BTreeSet;

use shell::builtins::{cd_error, handle_complete, handle_declare, run_builtin_command, validate_var_name, BuiltinStep};
use shell::commands::{
    builtin_list, find_command, handle_command, is_builtin, is_plannable, join_strings, parse_args, redirection_for,
    resolve_command, run_type, CommandKind, CommandPlan, PathEntry,
};
use shell::completion::{
    decorate_file_matches, find_completions, is_boundary_exec, is_break_char, plan_completion, script_candidates,
    CompletionPlan, FileKind, Pair,
};
use shell::history::{
    format_history_line, handle_history, history_entries_from, parse_usize, repl_step, trim_exec, HistoryAction,
    ReplAction,
};
use shell::jobs::{get_job_table, list_jobs, reap_children, JobEntry, JobStatus, JobTable, WaitOutcome};
use shell::strmap::StringMap;
use shell::text::{str_chars, string_from_chars, to_decimal};
use shell::tokenizer::{expand_var, parse_error_message, process_input, ParseError};

fn sv(ws: &[&str]) -> Vec<String> {
    ws.iter().map(|w| w.to_string()).collect()
}

fn segs(v: &[&[&str]]) -> Vec<Vec<String>> {
    v.iter().map(|s| sv(s)).collect()
}

fn vars_with(pairs: &[(&str, &str)]) -> StringMap {
    let mut m = StringMap::new();
    for (k, v) in pairs {
        m.insert(k.to_string(), v.to_string());
    }
    m
}

fn entry(path: &str, name: &str, mode: u32) -> PathEntry {
    PathEntry { path: path.to_string(), file_name: name.to_string(), mode }
}

// ---- text ----

#[test]
fn text_decimal_and_chars() {
    assert_eq!(to_decimal(0), "0");
    assert_eq!(to_decimal(7), "7");
    assert_eq!(to_decimal(1234567890), "1234567890");
    assert_eq!(str_chars("aé€😀"), vec!['a', 'é', '€', '😀']);
    assert_eq!(string_from_chars(&['x', 'y']), "xy");
}

// ---- string map ----

#[test]
fn string_map_insert_get_remove() {
    let mut m = StringMap::new();
    assert_eq!(m.get("a"), None);
    m.insert("a".to_string(), "1".to_string());
    m.insert("b".to_string(), "2".to_string());
    m.insert("a".to_string(), "3".to_string());
    assert_eq!(m.get("a"), Some("3".to_string()));
    assert_eq!(m.get("b"), Some("2".to_string()));
    assert_eq!(m.remove_entry("a"), Some(("a".to_string(), "3".to_string())));
    assert_eq!(m.get("a"), None);
    assert_eq!(m.remove_entry("a"), None);
}

// ---- tokenizer ----

#[test]
fn tokenize_plain_words() {
    let v = StringMap::new();
    assert_eq!(process_input("echo hello   world", &v), Ok(segs(&[&["echo", "hello", "world"]])));
    assert_eq!(process_input("word", &v), Ok(segs(&[&["word"]])));
}

#[test]
fn tokenize_empty_line() {
    let v = StringMap::new();
    assert_eq!(process_input("", &v), Ok(vec![Vec::<String>::new()]));
    assert_eq!(process_input("   ", &v), Ok(vec![Vec::<String>::new()]));
}

#[test]
fn tokenize_single_quotes_keep_everything() {
    let v = vars_with(&[("X", "1")]);
    assert_eq!(process_input("echo 'a  b $X \\ \"'", &v), Ok(segs(&[&["echo", "a  b $X \\ \""]])));
    assert_eq!(process_input("'ab'cd", &v), Ok(segs(&[&["abcd"]])));
}

#[test]
fn tokenize_double_quotes_and_escapes() {
    let v = vars_with(&[("X", "val")]);
    assert_eq!(process_input("echo \"a\\\"b\\\\c\\$d\\qe $X\"", &v), Ok(segs(&[&["echo", "a\"b\\c$d\\qe val"]])));
    assert_eq!(process_input("echo \"  spaced  \"", &v), Ok(segs(&[&["echo", "  spaced  "]])));
}

#[test]
fn tokenize_backslash_outside_quotes() {
    let v = StringMap::new();
    assert_eq!(process_input("a\\ b c\\|d", &v), Ok(segs(&[&["a b", "c|d"]])));
    assert_eq!(process_input("end\\", &v), Ok(segs(&[&["end"]])));
}

#[test]
fn tokenize_pipes() {
    let v = StringMap::new();
    assert_eq!(process_input("ls -l | wc -l", &v), Ok(segs(&[&["ls", "-l"], &["wc", "-l"]])));
    assert_eq!(process_input("a|b|c", &v), Ok(segs(&[&["a"], &["b"], &["c"]])));
    assert_eq!(process_input("a |", &v), Ok(segs(&[&["a"], &[]])));
    assert_eq!(process_input("'a|b'", &v), Ok(segs(&[&["a|b"]])));
}

#[test]
fn tokenize_variables() {
    let v = vars_with(&[("X", "5"), ("name", "bob")]);
    assert_eq!(process_input("echo $X ${name}! $name-x", &v), Ok(segs(&[&["echo", "5", "bob!", "bob-x"]])));
    assert_eq!(process_input("echo $UNSET end", &v), Ok(segs(&[&["echo", "end"]])));
    assert_eq!(process_input("echo $ $. $", &v), Ok(segs(&[&["echo", "$", "$.", "$"]])));
    assert_eq!(process_input("echo ${name", &v), Ok(segs(&[&["echo", "bob"]])));
}

#[test]
fn tokenize_unclosed_quotes() {
    let v = StringMap::new();
    assert_eq!(process_input("echo 'abc", &v), Err(ParseError::UnclosedSingleQuote));
    assert_eq!(process_input("echo \"abc", &v), Err(ParseError::UnclosedDoubleQuote));
    assert_eq!(parse_error_message(ParseError::UnclosedSingleQuote), "syntax error: unclosed single quote\n");
    assert_eq!(parse_error_message(ParseError::UnclosedDoubleQuote), "syntax error: unclosed double quote\n");
}

#[test]
fn expand_var_cases() {
    let v = vars_with(&[("HOME", "/home/u")]);
    let cs: Vec<char> = "${HOME}/x".chars().collect();
    assert_eq!(expand_var(&cs, 1, &v), ("/home/u".to_string(), 7));
    let cs: Vec<char> = "$HOME/x".chars().collect();
    assert_eq!(expand_var(&cs, 1, &v), ("/home/u".to_string(), 5));
    let cs: Vec<char> = "$".chars().collect();
    assert_eq!(expand_var(&cs, 1, &v), ("$".to_string(), 1));
}

// ---- job table ----

fn job(id: usize, pid: u32, status: JobStatus, cmd: &str) -> JobEntry {
    JobEntry { job_id: id, pid, status, cmd: cmd.to_string() }
}

#[test]
fn job_table_starts_empty() {
    let t = get_job_table();
    assert!(t.jobs.is_empty());
    assert!(t.free_list.is_empty());
    assert_eq!(t.next_id, 1);
    assert_eq!(t.current_job_id, None);
    assert_eq!(t.prev_job_id, None);
}

#[test]
fn allocate_reuses_least_freed_id() {
    let mut t = get_job_table();
    assert_eq!(t.allocate_job_id(), 1);
    assert_eq!(t.allocate_job_id(), 2);
    assert_eq!(t.allocate_job_id(), 3);
    t.free_job_id(3);
    t.free_job_id(2);
    assert_eq!(t.allocate_job_id(), 2);
    assert_eq!(t.free_list, BTreeSet::from([3]));
    assert_eq!(t.allocate_job_id(), 3);
    assert_eq!(t.allocate_job_id(), 4);
    assert_eq!(t.next_id, 5);
}

#[test]
fn background_jobs_become_current() {
    let mut t = get_job_table();
    assert_eq!(t.add_background_job(100, "sleep 5".to_string()), 1);
    assert_eq!(t.add_background_job(200, "sleep 9".to_string()), 2);
    assert_eq!(t.current_job_id, Some(2));
    assert_eq!(t.prev_job_id, Some(1));
    assert_eq!(t.job_marker(2), "+");
    assert_eq!(t.job_marker(1), "-");
    assert_eq!(t.job_marker(7), " ");
    assert_eq!(t.jobs.len(), 2);
    assert_eq!(t.jobs[1].pid, 200);
    assert_eq!(t.jobs[1].status, JobStatus::Running);
}

fn three_jobs() -> JobTable {
    JobTable {
        jobs: vec![
            job(1, 10, JobStatus::Running, "a"),
            job(2, 20, JobStatus::Done, "b"),
            job(3, 30, JobStatus::Stopped, "c"),
        ],
        free_list: BTreeSet::new(),
        next_id: 4,
        current_job_id: Some(3),
        prev_job_id: Some(2),
    }
}

#[test]
fn remove_done_jobs_frees_ids() {
    let mut t = three_jobs();
    t.remove_done_jobs();
    let ids: Vec<usize> = t.jobs.iter().map(|j| j.job_id).collect();
    assert_eq!(ids, vec![1, 3]);
    assert_eq!(t.free_list, BTreeSet::from([2]));
    assert_eq!(t.current_job_id, Some(3));
    assert_eq!(t.prev_job_id, Some(1));
    // a second time changes nothing
    t.remove_done_jobs();
    assert_eq!(t.jobs.len(), 2);
    assert_eq!(t.free_list, BTreeSet::from([2]));
    assert_eq!(t.current_job_id, Some(3));
    assert_eq!(t.prev_job_id, Some(1));
    assert_eq!(t.allocate_job_id(), 2);
}

#[test]
fn remove_done_current_moves_to_previous() {
    let mut t = JobTable {
        jobs: vec![job(1, 10, JobStatus::Running, "a"), job(2, 20, JobStatus::Done, "b")],
        free_list: BTreeSet::new(),
        next_id: 3,
        current_job_id: Some(2),
        prev_job_id: Some(1),
    };
    t.remove_done_jobs();
    assert_eq!(t.current_job_id, Some(1));
    assert_eq!(t.prev_job_id, None);
}

#[test]
fn list_jobs_output() {
    let mut t = three_jobs();
    let out = list_jobs(&mut t);
    let expected = format!(
        "[1]   {:<24}a &\n[2]-  {:<24}b\n[3]+  {:<24}c &\n",
        "Running", "Done", "Stopped"
    );
    assert_eq!(out, expected);
    assert_eq!(t.jobs.len(), 2);
}

#[test]
fn reap_children_updates_and_notifies() {
    let mut t = three_jobs();
    let out = reap_children(
        &mut t,
        &vec![WaitOutcome::Exited, WaitOutcome::Other, WaitOutcome::Stopped],
        false,
    );
    assert_eq!(out, "");
    assert_eq!(t.jobs[0].status, JobStatus::Done);
    assert_eq!(t.jobs[1].status, JobStatus::Done);
    assert_eq!(t.jobs[2].status, JobStatus::Stopped);
    let out = reap_children(
        &mut t,
        &vec![WaitOutcome::Other, WaitOutcome::Other, WaitOutcome::Signaled],
        true,
    );
    assert_eq!(out, format!("[1]   {:<24}a\n[2]-  {:<24}b\n[3]+  {:<24}c\n", "Done", "Done", "Done"));
    assert!(t.jobs.is_empty());
    assert_eq!(t.free_list, BTreeSet::from([1, 2, 3]));
    assert_eq!(t.current_job_id, Some(2));
    assert_eq!(t.prev_job_id, None);
}

// ---- commands ----

#[test]
fn builtins_are_known() {
    for b in ["exit", "echo", "pwd", "type", "cd", "complete", "jobs", "history", "declare"] {
        assert!(is_builtin(b));
    }
    assert!(!is_builtin("ls"));
    assert!(!is_builtin("Echo"));
    assert_eq!(builtin_list().len(), 9);
}

#[test]
fn find_command_takes_first_executable() {
    let es = vec![
        entry("/a/ls", "ls", 0o644),
        entry("/b/cat", "cat", 0o755),
        entry("/c/ls", "ls", 0o700),
        entry("/d/ls", "ls", 0o755),
    ];
    assert_eq!(find_command("ls", &es), Some("/c/ls".to_string()));
    assert_eq!(find_command("cat", &es), Some("/b/cat".to_string()));
    assert_eq!(find_command("vi", &es), None);
}

#[test]
fn resolve_and_type() {
    let es = vec![entry("/bin/ls", "ls", 0o755), entry("/bin/echo", "echo", 0o755)];
    assert!(matches!(resolve_command("echo", &es), CommandKind::Builtin));
    assert!(matches!(resolve_command("ls", &es), CommandKind::External(p) if p == "/bin/ls"));
    assert!(matches!(resolve_command("nope", &es), CommandKind::NotFound));
    let o = run_type("echo", &es);
    assert_eq!((o.stdout.as_str(), o.stderr.as_str()), ("echo is a shell builtin\n", ""));
    let o = run_type("ls", &es);
    assert_eq!((o.stdout.as_str(), o.stderr.as_str()), ("ls is /bin/ls\n", ""));
    let o = run_type("nope", &es);
    assert_eq!((o.stdout.as_str(), o.stderr.as_str()), ("", "nope: not found\n"));
}

#[test]
fn parse_args_redirections() {
    let p = parse_args(sv(&["a", ">", "out", "b", "2>>", "err", "1>>", "log", "2>", "e2", ">>", "x", "1>", "y"]));
    assert_eq!(p.args, sv(&["a", "b"]));
    let rs: Vec<(u8, bool, String)> = p.redirections.iter().map(|r| (r.fd, r.append, r.target.clone())).collect();
    assert_eq!(
        rs,
        vec![
            (1, false, "out".to_string()),
            (2, true, "err".to_string()),
            (1, true, "log".to_string()),
            (2, false, "e2".to_string()),
            (1, true, "x".to_string()),
            (1, false, "y".to_string()),
        ]
    );
    assert!(!p.missing_target);
    assert_eq!(redirection_for(&p.redirections, 2), Some(1));
    assert_eq!(redirection_for(&p.redirections, 1), Some(0));
}

#[test]
fn parse_args_missing_target() {
    let p = parse_args(sv(&["a", "b", ">"]));
    assert_eq!(p.args, sv(&["a", "b"]));
    assert!(p.redirections.is_empty());
    assert!(p.missing_target);
    let p = parse_args(sv(&["3>", "x"]));
    assert_eq!(p.args, sv(&["3>", "x"]));
}

#[test]
fn plan_single_command() {
    match handle_command(segs(&[&["sleep", "10", "&"]])) {
        CommandPlan::Single { stage, background, command_line } => {
            assert!(background);
            assert_eq!(stage.cmd, "sleep");
            assert_eq!(stage.parsed.args, sv(&["10"]));
            assert_eq!(command_line, "sleep 10");
        }
        _ => panic!("expected a single command"),
    }
    match handle_command(segs(&[&["echo", "hi", ">", "f"]])) {
        CommandPlan::Single { stage, background, command_line } => {
            assert!(!background);
            assert_eq!(stage.parsed.args, sv(&["hi"]));
            assert_eq!(stage.parsed.redirections.len(), 1);
            assert_eq!(command_line, "echo hi > f");
        }
        _ => panic!("expected a single command"),
    }
}

#[test]
fn plan_pipeline() {
    match handle_command(segs(&[&["cat", "f"], &["grep", "x", "&"]])) {
        CommandPlan::Pipeline { stages, background, command_line } => {
            assert!(background);
            assert_eq!(stages.len(), 2);
            assert_eq!(stages[0].cmd, "cat");
            assert_eq!(stages[1].cmd, "grep");
            assert_eq!(stages[1].parsed.args, sv(&["x"]));
            assert_eq!(command_line, "cat f | grep x");
        }
        _ => panic!("expected a pipeline"),
    }
    assert!(matches!(handle_command(segs(&[&["a"], &[]])), CommandPlan::EmptyPipelineSegment));
    assert!(matches!(handle_command(segs(&[&[], &["b"]])), CommandPlan::EmptyPipelineSegment));
}

#[test]
fn join_words() {
    assert_eq!(join_strings(&sv(&[]), " "), "");
    assert_eq!(join_strings(&sv(&["a"]), " "), "a");
    assert_eq!(join_strings(&sv(&["a", "b", "c"]), ", "), "a, b, c");
}

// ---- builtins ----

#[test]
fn var_names() {
    assert!(validate_var_name("x"));
    assert!(validate_var_name("_a1"));
    assert!(validate_var_name("Abc_9"));
    assert!(!validate_var_name(""));
    assert!(!validate_var_name("1a"));
    assert!(!validate_var_name("a-b"));
    assert!(!validate_var_name("é"));
}

#[test]
fn declare_assign_and_show() {
    let mut vars = StringMap::new();
    let o = handle_declare(&sv(&["greeting=hello=world"]), &mut vars);
    assert_eq!((o.stdout.as_str(), o.stderr.as_str()), ("", ""));
    assert_eq!(vars.get("greeting"), Some("hello=world".to_string()));
    let o = handle_declare(&sv(&["-p", "greeting"]), &mut vars);
    assert_eq!(o.stdout, "declare -- greeting=\"hello=world\"\n");
    let o = handle_declare(&sv(&["-x", "-p", "missing"]), &mut vars);
    assert_eq!((o.stdout.as_str(), o.stderr.as_str()), ("", "declare: missing: not found\n"));
}

#[test]
fn declare_errors() {
    let mut vars = StringMap::new();
    let o = handle_declare(&sv(&["novalue"]), &mut vars);
    assert_eq!(o.stderr, "declare: no value or identifier present\n");
    let o = handle_declare(&sv(&["1x=2"]), &mut vars);
    assert_eq!(o.stderr, "declare: `1x=2': not a valid identifier\n");
    let o = handle_declare(&sv(&["-x", "a=1"]), &mut vars);
    assert_eq!((o.stdout.as_str(), o.stderr.as_str()), ("", ""));
    assert_eq!(vars.get("a"), None);
    let o = handle_declare(&sv(&["-", "a=1"]), &mut vars);
    assert_eq!(o.stderr, "");
    assert_eq!(vars.get("a"), Some("1".to_string()));
    let o = handle_declare(&sv(&[]), &mut vars);
    assert_eq!((o.stdout.as_str(), o.stderr.as_str()), ("", ""));
}

#[test]
fn complete_register_show_remove() {
    let mut c = StringMap::new();
    let o = handle_complete(&sv(&["-C", "/bin/comp", "git"]), &mut c);
    assert_eq!((o.stdout.as_str(), o.stderr.as_str()), ("", ""));
    let o = handle_complete(&sv(&["-p", "git"]), &mut c);
    assert_eq!(o.stdout, "complete -C '/bin/comp' git\n");
    let o = handle_complete(&sv(&["-r", "git"]), &mut c);
    assert_eq!(o.stdout, "");
    let o = handle_complete(&sv(&["-p", "git"]), &mut c);
    assert_eq!(o.stderr, "complete: git: no completion specification\n");
}

#[test]
fn complete_usage_errors() {
    let mut c = StringMap::new();
    assert_eq!(handle_complete(&sv(&[]), &mut c).stderr, "complete: usage: complete -C <script> <command>\n");
    assert_eq!(handle_complete(&sv(&["-C", "x"]), &mut c).stderr, "complete: usage: complete -C <script> <command>\n");
    assert_eq!(handle_complete(&sv(&["-p"]), &mut c).stderr, "complete: usage: complete -p <command>\n");
    assert_eq!(handle_complete(&sv(&["-r"]), &mut c).stderr, "complete: usage: complete -r <command>\n");
    assert_eq!(handle_complete(&sv(&["-z"]), &mut c).stderr, "complete: unsupported option: -z\n");
}

#[test]
fn builtin_steps() {
    let mut c = StringMap::new();
    let mut v = StringMap::new();
    assert!(matches!(run_builtin_command("exit", &sv(&["3"]), &mut c, &mut v), BuiltinStep::Exit));
    match run_builtin_command("echo", &sv(&["a", "b"]), &mut c, &mut v) {
        BuiltinStep::Done(o) => assert_eq!(o.stdout, "a b\n"),
        _ => panic!(),
    }
    match run_builtin_command("echo", &sv(&[]), &mut c, &mut v) {
        BuiltinStep::Done(o) => assert_eq!(o.stdout, "\n"),
        _ => panic!(),
    }
    assert!(matches!(run_builtin_command("pwd", &sv(&[]), &mut c, &mut v), BuiltinStep::PrintWorkingDirectory));
    assert!(matches!(run_builtin_command("cd", &sv(&[]), &mut c, &mut v), BuiltinStep::ChangeDirectory(None)));
    assert!(matches!(run_builtin_command("cd", &sv(&["~"]), &mut c, &mut v), BuiltinStep::ChangeDirectory(None)));
    assert!(
        matches!(run_builtin_command("cd", &sv(&["/tmp"]), &mut c, &mut v), BuiltinStep::ChangeDirectory(Some(p)) if p == "/tmp")
    );
    assert!(matches!(run_builtin_command("type", &sv(&["ls"]), &mut c, &mut v), BuiltinStep::Type(n) if n == "ls"));
    assert!(matches!(run_builtin_command("type", &sv(&[]), &mut c, &mut v), BuiltinStep::Type(n) if n.is_empty()));
    assert!(matches!(run_builtin_command("jobs", &sv(&[]), &mut c, &mut v), BuiltinStep::Jobs));
    match run_builtin_command("history", &sv(&[]), &mut c, &mut v) {
        BuiltinStep::Done(o) => assert_eq!(o.stderr, "history: not found\n"),
        _ => panic!(),
    }
    match run_builtin_command("declare", &sv(&["k=v"]), &mut c, &mut v) {
        BuiltinStep::Done(o) => assert_eq!(o.stderr, ""),
        _ => panic!(),
    }
    assert_eq!(v.get("k"), Some("v".to_string()));
    match run_builtin_command("complete", &sv(&["-C", "s", "k"]), &mut c, &mut v) {
        BuiltinStep::Done(o) => assert_eq!(o.stderr, ""),
        _ => panic!(),
    }
    assert_eq!(c.get("k"), Some("s".to_string()));
    assert_eq!(cd_error("/nope"), "cd: /nope: No such file or directory\n");
}

// ---- completion ----

#[test]
fn break_chars() {
    for c in [' ', '\t', '"', '\''] {
        assert!(is_break_char(c));
    }
    assert!(!is_break_char('a'));
    assert!(!is_break_char('/'));
}

#[test]
fn boundaries() {
    assert!(is_boundary_exec("aé", 0));
    assert!(is_boundary_exec("aé", 1));
    assert!(!is_boundary_exec("aé", 2));
    assert!(is_boundary_exec("aé", 3));
    assert!(!is_boundary_exec("aé", 4));
}

#[test]
fn completion_of_command_names() {
    let c = StringMap::new();
    match plan_completion("  ec", 4, &c) {
        CompletionPlan::Commands { start, prefix } => {
            assert_eq!(start, 2);
            assert_eq!(prefix, "ec");
        }
        _ => panic!("expected command completion"),
    }
    match plan_completion("echo hi", 4, &c) {
        CompletionPlan::Commands { start, prefix } => {
            assert_eq!(start, 0);
            assert_eq!(prefix, "echo");
        }
        _ => panic!("expected command completion"),
    }
}

#[test]
fn completion_with_a_script() {
    let mut c = StringMap::new();
    c.insert("git".to_string(), "/bin/gitcomp".to_string());
    match plan_completion("git com", 7, &c) {
        CompletionPlan::Script { start, script, cmd, word, prev_word } => {
            assert_eq!(start, 4);
            assert_eq!(script, "/bin/gitcomp");
            assert_eq!(cmd, "git");
            assert_eq!(word, "com");
            assert_eq!(prev_word, "git");
        }
        _ => panic!("expected script completion"),
    }
    match plan_completion("git commit ", 11, &c) {
        CompletionPlan::Script { start, word, prev_word, .. } => {
            assert_eq!(start, 11);
            assert_eq!(word, "");
            assert_eq!(prev_word, "commit");
        }
        _ => panic!("expected script completion"),
    }
    match plan_completion("git \"é x", 9, &c) {
        CompletionPlan::Script { start, word, prev_word, .. } => {
            assert_eq!(start, 8);
            assert_eq!(word, "x");
            assert_eq!(prev_word, "\"é");
        }
        _ => panic!("expected script completion"),
    }
    assert!(matches!(plan_completion("ls fi", 5, &c), CompletionPlan::Files));
}

#[test]
fn command_candidates_sorted_unique() {
    let es = vec![
        entry("/b/ech", "ech", 0o755),
        entry("/b/echo", "echo", 0o755),
        entry("/b/ex", "ex", 0o644),
        entry("/c/ech", "ech", 0o755),
        entry("/b/zz", "zz", 0o755),
    ];
    let r = find_completions("e", &es);
    let ds: Vec<&str> = r.iter().map(|p| p.display.as_str()).collect();
    assert_eq!(ds, vec!["ech", "echo", "exit"]);
    let rs: Vec<&str> = r.iter().map(|p| p.replacement.as_str()).collect();
    assert_eq!(rs, vec!["ech ", "echo ", "exit "]);
    let all = find_completions("", &vec![]);
    let ds: Vec<&str> = all.iter().map(|p| p.display.as_str()).collect();
    assert_eq!(ds, vec!["cd", "complete", "declare", "echo", "exit", "history", "jobs", "pwd", "type"]);
}

#[test]
fn script_output_lines() {
    let r = script_candidates("one\ntwo\r\n\nthree");
    let got: Vec<(String, String)> = r.into_iter().map(|p| (p.display, p.replacement)).collect();
    assert_eq!(
        got,
        vec![
            ("one".to_string(), "one ".to_string()),
            ("two".to_string(), "two ".to_string()),
            ("".to_string(), " ".to_string()),
            ("three".to_string(), "three ".to_string()),
        ]
    );
    assert!(script_candidates("").is_empty());
    assert_eq!(script_candidates("a\n").len(), 1);
}

#[test]
fn file_candidates_decorated() {
    let ms = vec![
        Pair { display: "f".to_string(), replacement: "f".to_string() },
        Pair { display: "d".to_string(), replacement: "d".to_string() },
        Pair { display: "o".to_string(), replacement: "o".to_string() },
    ];
    let r = decorate_file_matches(ms, &vec![FileKind::File, FileKind::Directory, FileKind::Other], '/');
    let got: Vec<(String, String)> = r.into_iter().map(|p| (p.display, p.replacement)).collect();
    assert_eq!(
        got,
        vec![
            ("f".to_string(), "f ".to_string()),
            ("d/".to_string(), "d".to_string()),
            ("o".to_string(), "o".to_string()),
        ]
    );
    let one = vec![Pair { display: "d".to_string(), replacement: "d".to_string() }];
    let r = decorate_file_matches(one, &vec![FileKind::Directory], '/');
    assert_eq!(r[0].display, "d");
}

// ---- history and the line loop ----

#[test]
fn numbers_parse_like_std() {
    assert_eq!(parse_usize("42"), Some(42));
    assert_eq!(parse_usize("+7"), Some(7));
    assert_eq!(parse_usize("007"), Some(7));
    assert_eq!(parse_usize(""), None);
    assert_eq!(parse_usize("+"), None);
    assert_eq!(parse_usize("-1"), None);
    assert_eq!(parse_usize("1x"), None);
    assert_eq!(parse_usize("18446744073709551615"), "18446744073709551615".parse::<usize>().ok());
    assert_eq!(parse_usize("99999999999999999999999"), None);
}

#[test]
fn history_actions() {
    assert!(matches!(handle_history("history -r f", 3, 1), HistoryAction::ReadFile(p) if p == "f"));
    assert!(matches!(handle_history("history -w f", 3, 1), HistoryAction::WriteFile(p) if p == "f"));
    assert!(matches!(handle_history("history -a f", 3, 1), HistoryAction::AppendFile { path, from: 1, to: 3 } if path == "f"));
    assert!(
        matches!(handle_history("history -a", 3, 1), HistoryAction::MissingOperand(m) if m == "history: -a: missing file operand\n")
    );
    assert!(matches!(handle_history("history", 5, 1), HistoryAction::List(0)));
    assert!(matches!(handle_history("history 2", 5, 1), HistoryAction::List(3)));
    assert!(matches!(handle_history("history 9", 5, 1), HistoryAction::List(0)));
    assert!(matches!(handle_history("history x", 5, 1), HistoryAction::List(0)));
}

#[test]
fn history_lines() {
    assert_eq!(format_history_line(0, "ls"), "    1  ls\n");
    assert_eq!(format_history_line(123456, "x"), "123457  x\n");
    assert_eq!(history_entries_from("a\n\nb\r\nc"), sv(&["a", "b", "c"]));
}

#[test]
fn trimming_and_line_kinds() {
    assert_eq!(trim_exec("  a b \t\n"), "a b");
    assert_eq!(trim_exec(" \u{3000} "), "");
    assert!(matches!(repl_step("  history 5 "), ReplAction::History(t) if t == "history 5"));
    assert!(matches!(repl_step("historyx"), ReplAction::History(t) if t == "historyx"));
    assert!(matches!(repl_step(" echo history"), ReplAction::Command(t) if t == "echo history"));
    assert!(matches!(repl_step(""), ReplAction::Command(t) if t.is_empty()));
}

#[test]
fn plannable_command_lines() {
    assert!(is_plannable(&segs(&[&["ls"]])));
    assert!(is_plannable(&segs(&[&["ls", "&"]])));
    assert!(!is_plannable(&segs(&[&[]])));
    assert!(!is_plannable(&segs(&[&["&"]])));
    assert!(!is_plannable(&vec![]));
    assert!(is_plannable(&segs(&[&["a"], &[]])));
    assert!(is_plannable(&segs(&[&["a"], &["b", "&"]])));
    assert!(!is_plannable(&segs(&[&["a"], &["&"]])));
}

#[test]
fn tokenize_leaves_no_empty_word() {
    let v = vars_with(&[("E", "")]);
    assert_eq!(process_input("a '' $UNSET \"\" $E b", &v), Ok(segs(&[&["a", "b"]])));
    assert_eq!(process_input("'' | \"\"", &v), Ok(vec![Vec::<String>::new(), Vec::<String>::new()]));
}
