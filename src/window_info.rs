use vstd::prelude::*;
use std::collections::HashMap;

verus! {

/// Window titles of one process. This build has no windowing capability, so
/// there are none.
pub fn get_window_titles_for_pid(_pid: u32) -> (r: Vec<String>)
    ensures
        r@.len() == 0,
{
    Vec::new()
}

/// Window titles of every process, by process id. This build has no windowing
/// capability, so the map is empty.
pub fn get_all_window_titles() -> (r: HashMap<u32, Vec<String>>)
    ensures
        r@ == Map::<u32, Vec<String>>::empty(),
{
    HashMap::new()
}

/// Lists every window title, for troubleshooting. This build has no windowing
/// capability, so there is nothing to list.
pub fn debug_print_all_windows() {
}

} // verus!
