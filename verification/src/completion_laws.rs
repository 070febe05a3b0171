//! What completes a typed command name.
use vstd::prelude::*;
use crate::commands::{PathEntry, builtin_names};
use crate::completion::{has_prefix, command_candidates};

verus! {

/// A text starts with `p` exactly when it is `p` followed by something; in
/// particular every text starts with itself and with the empty text.
pub proof fn law_prefix_is_start(s: Seq<char>, p: Seq<char>)
    ensures
        has_prefix(s, p) <==> exists|t: Seq<char>| s == #[trigger] (p + t),
        has_prefix(s, s),
        has_prefix(s, Seq::<char>::empty()),
{
    if has_prefix(s, p) {
        let t = s.skip(p.len() as int);
        assert(s =~= p + t);
    }
    if exists|t: Seq<char>| s == #[trigger] (p + t) {
        let t = choose|t: Seq<char>| s == #[trigger] (p + t);
        assert(s.take(p.len() as int) =~= p);
    }
    assert(s.take(s.len() as int) =~= s);
    assert(s.take(0) =~= Seq::<char>::empty());
}

/// Every builtin name, and every executable's name on the search path, that
/// is the typed text followed by anything (nothing included) completes it.
/// So a name typed out in full still completes to itself.
pub proof fn law_name_completes_prefix(prefix: Seq<char>, rest: Seq<char>, entries: Seq<PathEntry>)
    ensures
        builtin_names().contains(prefix + rest) ==> command_candidates(prefix, entries).contains(prefix + rest),
        forall|i: int| 0 <= i < entries.len() && (#[trigger] entries[i]).mode & 0o111u32 != 0
            && entries[i].file_name@ == prefix + rest ==> command_candidates(prefix, entries).contains(prefix + rest),
        builtin_names().contains(prefix) ==> command_candidates(prefix, entries).contains(prefix),
{
    let m = prefix + rest;
    assert(m.take(prefix.len() as int) =~= prefix);
    assert(has_prefix(m, prefix));
    assert(prefix.take(prefix.len() as int) =~= prefix);
    assert(has_prefix(prefix, prefix));
    assert forall|i: int| 0 <= i < entries.len() && (#[trigger] entries[i]).mode & 0o111u32 != 0
        && entries[i].file_name@ == m implies command_candidates(prefix, entries).contains(m) by {
        assert(entries[i].file_name@ == m);
    }
}

} // verus!
