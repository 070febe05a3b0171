//! What looking a command up on the search path finds.
use vstd::prelude::*;
use crate::commands::{PathEntry, find_in_path};

verus! {

/// The entry is an executable (some execute bit set) whose file name is
/// exactly `cmd`.
pub open spec fn runnable_as(e: PathEntry, cmd: Seq<char>) -> bool {
    e.mode & 0o111u32 != 0 && e.file_name@ == cmd
}

/// The path found for a command belongs to the first entry that is an
/// executable whose file name is exactly the command; an entry whose name
/// merely starts with the command, or one that is not executable, is never
/// the result. Nothing is found only where no entry is such an executable.
pub proof fn law_found_is_exact_name(entries: Seq<PathEntry>, cmd: Seq<char>)
    ensures
        find_in_path(entries, cmd) matches Some(p) ==> exists|k: int|
            0 <= k < entries.len() && (#[trigger] entries[k]).path@ == p && runnable_as(entries[k], cmd)
                && forall|j: int| 0 <= j < k ==> !runnable_as(#[trigger] entries[j], cmd),
        find_in_path(entries, cmd) is None ==> forall|k: int|
            0 <= k < entries.len() ==> !runnable_as(#[trigger] entries[k], cmd),
    decreases entries.len(),
{
    if entries.len() > 0 {
        let r = entries.drop_first();
        law_found_is_exact_name(r, cmd);
        assert forall|k: int| 0 <= k < r.len() implies #[trigger] r[k] == entries[k + 1] by {}
        if runnable_as(entries[0], cmd) {
            assert(find_in_path(entries, cmd) == Some(entries[0].path@));
        } else {
            if let Some(p) = find_in_path(r, cmd) {
                let k = choose|k: int|
                    0 <= k < r.len() && (#[trigger] r[k]).path@ == p && runnable_as(r[k], cmd)
                        && forall|j: int| 0 <= j < k ==> !runnable_as(#[trigger] r[j], cmd);
                assert(entries[k + 1] == r[k]);
                assert forall|j: int| 0 <= j < k + 1 implies !runnable_as(#[trigger] entries[j], cmd) by {
                    if j > 0 {
                        assert(entries[j] == r[j - 1]);
                    }
                }
            } else {
                assert forall|k: int| 0 <= k < entries.len() implies !runnable_as(#[trigger] entries[k], cmd) by {
                    if k > 0 {
                        assert(entries[k] == r[k - 1]);
                    }
                }
            }
        }
    }
}

} // verus!
