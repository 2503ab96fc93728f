use vstd::prelude::*;

verus! {

/// What kind of filesystem object a walked entry is.
#[derive(Clone, Copy, Debug, PartialEq, Eq, Structural)]
pub enum EntryKind {
    File,
    Directory,
    Symlink,
    Other,
}

/// A walked entry as far as selection is concerned: its depth, the number of
/// directories strictly between the root and the entry (an entry directly in
/// the root is at depth 0), and what kind it is.
#[derive(Clone, Copy, Debug, PartialEq, Eq, Structural)]
pub struct EntryInfo {
    pub depth: usize,
    pub kind: EntryKind,
}

/// Whether `depth` is within the bound, inclusive; `None` means no bound.
pub open spec fn within_depth(depth: usize, max_depth: Option<usize>) -> bool {
    match max_depth {
        Some(m) => depth <= m,
        None => true,
    }
}

/// Whether an entry is reported: a regular file within the depth bound.
pub open spec fn is_reported(e: EntryInfo, max_depth: Option<usize>) -> bool {
    e.kind == EntryKind::File && within_depth(e.depth, max_depth)
}

/// Whether an entry is a regular file within the depth bound.
pub fn reported(e: EntryInfo, max_depth: Option<usize>) -> (r: bool)
    ensures
        r == is_reported(e, max_depth),
{
    let in_bound = match max_depth {
        Some(m) => e.depth <= m,
        None => true,
    };
    e.kind == EntryKind::File && in_bound
}

/// The positions of the reported entries, in walk order: every position of
/// a regular file within the depth bound, each once, and no other.
pub fn select_files(entries: &Vec<EntryInfo>, max_depth: Option<usize>) -> (r: Vec<usize>)
    ensures
        forall|k: int| 0 <= k < r@.len() ==> r@[k] < entries@.len(),
        forall|k: int| 0 <= k < r@.len() ==> is_reported(entries@[#[trigger] r@[k] as int], max_depth),
        forall|k: int, l: int| 0 <= k < l < r@.len() ==> r@[k] < r@[l],
        forall|i: int|
            0 <= i < entries@.len() && is_reported(#[trigger] entries@[i], max_depth) ==> exists|
                k: int,
            | 0 <= k < r@.len() && r@[k] == i,
{
    let mut r: Vec<usize> = Vec::new();
    let mut i: usize = 0;
    while i < entries.len()
        invariant
            i <= entries@.len(),
            forall|k: int| 0 <= k < r@.len() ==> r@[k] < i,
            forall|k: int| 0 <= k < r@.len() ==> is_reported(entries@[#[trigger] r@[k] as int], max_depth),
            forall|k: int, l: int| 0 <= k < l < r@.len() ==> r@[k] < r@[l],
            forall|j: int|
                0 <= j < i && is_reported(#[trigger] entries@[j], max_depth) ==> exists|k: int|
                    0 <= k < r@.len() && r@[k] == j,
        decreases entries.len() - i,
    {
        if reported(entries[i], max_depth) {
            let ghost before = r@;
            r.push(i);
            proof {
                assert forall|j: int|
                    0 <= j <= i && is_reported(#[trigger] entries@[j], max_depth) implies exists|
                        k: int,
                    | 0 <= k < r@.len() && r@[k] == j by {
                    if j < i {
                        let k = choose|k: int| 0 <= k < before.len() && before[k] == j;
                        assert(r@[k] == j);
                    } else {
                        assert(r@[before.len() as int] == j);
                    }
                }
            }
        }
        i = i + 1;
    }
    r
}

} // verus!
