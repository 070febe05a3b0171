//! What a builtin shows after another one changed the shell's tables.
use vstd::prelude::*;
use crate::builtins::{declare_effect, complete_effect, valid_var_name, dash_run, flags_of, find_char, lemma_find_char};
use crate::tokenizer::is_name_char;

verus! {

/// After `declare name=value` with a valid name, the variable holds the
/// value, and `declare -p name` shows `declare -- name="value"`.
pub proof fn law_declare_then_show(name: Seq<char>, value: Seq<char>, vars: Map<Seq<char>, Seq<char>>)
    requires
        valid_var_name(name),
    ensures
        declare_effect(seq![name + seq!['='] + value], vars) == (vars.insert(name, value), Seq::<char>::empty(), Seq::<char>::empty()),
        declare_effect(seq![seq!['-', 'p'], name], vars.insert(name, value)) == (
            vars.insert(name, value),
            "declare -- "@ + name + "=\""@ + value + "\"\n"@,
            Seq::<char>::empty(),
        ),
{
    let w = name + seq!['='] + value;
    let ws = seq![w];
    assert(w[0] == name[0]);
    assert(dash_run(ws, 1) == 0);
    assert(dash_run(ws, 0) == 0);
    assert(flags_of(ws, 0) =~= Set::<char>::empty());
    lemma_find_char(w, '=');
    let f = find_char(w, '=');
    assert(w[name.len() as int] == '=');
    if f < name.len() {
        assert(w[f] == name[f]);
        if f > 0 {
            assert(is_name_char(name[f]));
        }
    }
    assert(f == name.len());
    assert(w.take(f) =~= name);
    assert(w.skip(f + 1) =~= value);
    let v2 = vars.insert(name, value);
    let ws2 = seq![seq!['-', 'p'], name];
    assert(dash_run(ws2, 2) == 0);
    assert(dash_run(ws2, 1) == 0);
    assert(dash_run(ws2, 0) == 1);
    assert(ws2[0][1] == 'p');
    assert(flags_of(ws2, 1).contains('p'));
    assert(flags_of(ws2, 1) != Set::<char>::empty());
}

/// After `complete -C script cmd`, `complete -p cmd` shows the script.
pub proof fn law_complete_register_then_show(script: Seq<char>, cmd: Seq<char>, m: Map<Seq<char>, Seq<char>>)
    ensures
        complete_effect(seq!["-C"@, script, cmd], m) == (m.insert(cmd, script), Seq::<char>::empty(), Seq::<char>::empty()),
        complete_effect(seq!["-p"@, cmd], m.insert(cmd, script)) == (
            m.insert(cmd, script),
            "complete -C '"@ + script + "' "@ + cmd + "\n"@,
            Seq::<char>::empty(),
        ),
{
    reveal_strlit("-C");
    reveal_strlit("-p");
    assert("-p"@[1] != "-C"@[1]);
}

/// After `complete -r cmd`, `complete -p cmd` says there is no completion.
pub proof fn law_complete_remove_then_show(cmd: Seq<char>, m: Map<Seq<char>, Seq<char>>)
    ensures
        complete_effect(seq!["-r"@, cmd], m) == (m.remove(cmd), Seq::<char>::empty(), Seq::<char>::empty()),
        complete_effect(seq!["-p"@, cmd], m.remove(cmd)) == (
            m.remove(cmd),
            Seq::<char>::empty(),
            "complete: "@ + cmd + ": no completion specification\n"@,
        ),
{
    reveal_strlit("-C");
    reveal_strlit("-p");
    reveal_strlit("-r");
    assert("-p"@[1] != "-C"@[1]);
    assert("-r"@[1] != "-C"@[1]);
    assert("-r"@[1] != "-p"@[1]);
}

} // verus!
