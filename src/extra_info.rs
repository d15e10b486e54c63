use vstd::prelude::*;
use std::collections::HashMap;
use crate::process_info::ProcessSnapshot;

verus! {

broadcast use vstd::std_specs::hash::group_hash_axioms;

/// Which characters `str::trim` leaves of `s`.
pub uninterp spec fn trimmed(s: Seq<char>) -> Seq<char>;

/// Relies on `str::trim`: the result depends on the characters alone.
#[verifier::external_body]
fn trim_str(s: &str) -> (r: &str)
    ensures
        r@ == trimmed(s@),
{
    s.trim()
}

pub open spec fn views_of(v: Seq<String>) -> Seq<Seq<char>> {
    Seq::new(v.len(), |i: int| v[i]@)
}

/// `parts` joined with `sep` between each two.
pub open spec fn joined(parts: Seq<Seq<char>>, sep: Seq<char>) -> Seq<char>
    decreases parts.len(),
{
    if parts.len() == 0 {
        Seq::empty()
    } else if parts.len() == 1 {
        parts[0]
    } else {
        joined(parts.drop_last(), sep) + sep + parts.last()
    }
}

/// Some title of `ts` is more than white space.
pub open spec fn has_visible_title(ts: Seq<String>) -> bool {
    exists|i: int| 0 <= i < ts.len() && #[trigger] trimmed(ts[i]@).len() > 0
}

/// The window titles of `pid` joined by ` | `, when at least one of them is
/// more than white space.
pub open spec fn window_label(titles: Map<u32, Vec<String>>, pid: u32) -> Option<Seq<char>> {
    if titles.contains_key(pid) && has_visible_title(titles[pid]@) {
        Some(joined(views_of(titles[pid]@), " | "@))
    } else {
        None
    }
}

/// Whether some title of `list` is more than white space.
pub fn has_visible_title_in(list: &Vec<String>) -> (r: bool)
    ensures
        r == has_visible_title(list@),
{
    let mut i: usize = 0;
    while i < list.len()
        invariant
            i <= list@.len(),
            forall|j: int| 0 <= j < i ==> #[trigger] trimmed(list@[j]@).len() == 0,
        decreases list@.len() - i,
    {
        if !trim_str(list[i].as_str()).is_empty() {
            return true;
        }
        i = i + 1;
    }
    false
}

/// The first one or two arguments after the executable, joined by a space.
pub open spec fn command_label(cmd: Seq<Seq<char>>) -> Option<Seq<char>> {
    if cmd.len() > 1 {
        let end = if cmd.len() > 3 { 3 } else { cmd.len() as int };
        Some(joined(cmd.subrange(1, end), " "@))
    } else {
        None
    }
}

/// The label that tells instances of one executable apart: the process's own
/// window titles, else its parent's, else its arguments, else its working
/// directory in parentheses, else nothing.
pub open spec fn extra_info_text(p: ProcessSnapshot, titles: Map<u32, Vec<String>>) -> Seq<char> {
    if window_label(titles, p.pid).is_some() {
        window_label(titles, p.pid).unwrap()
    } else if p.parent.is_some() && window_label(titles, p.parent.unwrap()).is_some() {
        window_label(titles, p.parent.unwrap()).unwrap()
    } else if command_label(views_of(p.cmd@)).is_some() {
        command_label(views_of(p.cmd@)).unwrap()
    } else if p.cwd.is_some() {
        "("@ + p.cwd.unwrap()@ + ")"@
    } else {
        Seq::empty()
    }
}

/// Join `parts[from..to]` with `sep` between each two.
pub fn join_strings(parts: &Vec<String>, from: usize, to: usize, sep: &str) -> (r: String)
    requires
        from <= to <= parts@.len(),
    ensures
        r@ == joined(views_of(parts@).subrange(from as int, to as int), sep@),
{
    let ghost all = views_of(parts@);
    let mut r = String::new();
    let mut i: usize = from;
    while i < to
        invariant
            from <= i <= to <= parts@.len(),
            all == views_of(parts@),
            r@ == joined(all.subrange(from as int, i as int), sep@),
        decreases to - i,
    {
        proof {
            assert(all.subrange(from as int, i + 1).drop_last() =~= all.subrange(from as int, i as int));
            assert(all.subrange(from as int, i + 1).last() == parts@[i as int]@);
        }
        if i > from {
            r.append(sep);
        } else {
            assert(all.subrange(from as int, i + 1) =~= seq![parts@[i as int]@]);
        }
        r.append(parts[i].as_str());
        i = i + 1;
    }
    r
}

/// The window label of `pid`, as `window_label` describes it.
pub fn window_label_of(titles: &HashMap<u32, Vec<String>>, pid: u32) -> (r: Option<String>)
    ensures
        r.is_some() == window_label(titles@, pid).is_some(),
        r.is_some() ==> r.unwrap()@ == window_label(titles@, pid).unwrap(),
{
    match titles.get(&pid) {
        Some(list) => {
            if has_visible_title_in(list) {
                let text = join_strings(list, 0, list.len(), " | ");
                assert(views_of(list@).subrange(0, list@.len() as int) =~= views_of(list@));
                Some(text)
            } else {
                None
            }
        },
        None => None,
    }
}

/// Extract the label that distinguishes this process from other instances
/// of the same executable.
pub fn extract_extra_info(process: &ProcessSnapshot, titles: &HashMap<u32, Vec<String>>) -> (r: String)
    ensures
        r@ == extra_info_text(*process, titles@),
{
    if let Some(own) = window_label_of(titles, process.pid) {
        return own;
    }
    if let Some(parent) = process.parent {
        if let Some(label) = window_label_of(titles, parent) {
            return label;
        }
    }
    let n = process.cmd.len();
    if n > 1 {
        let end: usize = if n > 3 { 3 } else { n };
        return join_strings(&process.cmd, 1, end, " ");
    }
    match &process.cwd {
        Some(dir) => String::from_str("(").concat(dir.as_str()).concat(")"),
        None => String::new(),
    }
}

} // verus!
