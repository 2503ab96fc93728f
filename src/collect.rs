use vstd::prelude::*;
use vstd::seq_lib::group_to_multiset_ensures;
use crate::record::{FileRecord, RecordView, views};
use crate::sort::{sorted_views, sort_records, lemma_sorted_views_permutation};

verus! {

broadcast use group_to_multiset_ensures;

/// What reading one file's metadata gave.
#[derive(Debug)]
pub enum Extracted {
    Record(FileRecord),
    Failed,
}

/// What to do when a file's metadata could not be read.
#[derive(Clone, Copy, Debug, PartialEq, Eq, Structural)]
pub enum FailurePolicy {
    /// Abandon the whole scan at the first failure.
    FailFast,
    /// Leave the file out and count it.
    SkipFailed,
}

/// The records of a scan in report order, and how many files were left out.
#[derive(Debug)]
pub struct Collected {
    pub records: Vec<FileRecord>,
    pub skipped: usize,
}

/// The scan was abandoned: the metadata of the file at `position` could not
/// be read.
#[derive(Clone, Copy, Debug, PartialEq, Eq, Structural)]
pub struct ExtractFailure {
    pub position: usize,
}

pub open spec fn is_failed(e: Extracted) -> bool {
    e is Failed
}

/// The views of the records that were read, in input order.
pub open spec fn succeeded(s: Seq<Extracted>) -> Seq<RecordView>
    decreases s.len(),
{
    if s.len() == 0 {
        Seq::empty()
    } else {
        let before = succeeded(s.drop_last());
        match s.last() {
            Extracted::Record(r) => before.push(r@),
            Extracted::Failed => before,
        }
    }
}

/// `i` is the first position whose metadata could not be read.
pub open spec fn first_failure(s: Seq<Extracted>, i: int) -> bool {
    &&& 0 <= i < s.len()
    &&& is_failed(s[i])
    &&& forall|j: int| 0 <= j < i ==> !is_failed(#[trigger] s[j])
}

/// The position of the first failed read, if any.
pub fn find_failure(outcomes: &Vec<Extracted>) -> (r: Option<usize>)
    ensures
        match r {
            Some(i) => first_failure(outcomes@, i as int),
            None => forall|j: int| 0 <= j < outcomes@.len() ==> !is_failed(#[trigger] outcomes@[j]),
        },
{
    let mut i: usize = 0;
    while i < outcomes.len()
        invariant
            i <= outcomes@.len(),
            forall|j: int| 0 <= j < i ==> !is_failed(#[trigger] outcomes@[j]),
        decreases outcomes.len() - i,
    {
        if let Extracted::Failed = &outcomes[i] {
            return Some(i);
        }
        i = i + 1;
    }
    None
}

/// Gathers the records that were read and puts them in report order.
///
/// Under `FailFast` any failed read abandons the scan, naming the first
/// failed position; under `SkipFailed` the failed files are left out and
/// counted.
pub fn collect_sorted(outcomes: Vec<Extracted>, policy: FailurePolicy) -> (r: Result<
    Collected,
    ExtractFailure,
>)
    ensures
        r is Err <==> (policy == FailurePolicy::FailFast && exists|j: int|
            0 <= j < outcomes@.len() && is_failed(#[trigger] outcomes@[j])),
        r matches Err(e) ==> first_failure(outcomes@, e.position as int),
        r matches Ok(c) ==> views(c.records@) == sorted_views(succeeded(outcomes@)),
        r matches Ok(c) ==> c.skipped == outcomes@.len() - succeeded(outcomes@).len(),
{
    if policy == FailurePolicy::FailFast {
        if let Some(i) = find_failure(&outcomes) {
            return Err(ExtractFailure { position: i });
        }
    }
    let ghost original = outcomes@;
    assert(original.len() == outcomes.len());
    let mut outcomes = outcomes;
    let mut gathered: Vec<FileRecord> = Vec::new();
    let mut skipped: usize = 0;
    while outcomes.len() > 0
        invariant
            outcomes@ == original.subrange(0, outcomes@.len() as int),
            succeeded(outcomes@).to_multiset().add(views(gathered@).to_multiset())
                == succeeded(original).to_multiset(),
            skipped + gathered@.len() + outcomes@.len() == original.len(),
            original.len() <= usize::MAX,
        decreases outcomes.len(),
    {
        let ghost before = outcomes@;
        let ghost had = gathered@;
        let item = outcomes.pop().unwrap();
        proof {
            assert(outcomes@ =~= before.drop_last());
        }
        match item {
            Extracted::Record(rec) => {
                gathered.push(rec);
                proof {
                    assert(views(gathered@) =~= views(had).push(rec@));
                }
            },
            Extracted::Failed => {
                skipped = skipped + 1;
            },
        }
    }
    proof {
        assert(succeeded(outcomes@) =~= Seq::<RecordView>::empty());
        assert(views(gathered@).to_multiset() =~= succeeded(original).to_multiset());
        assert(views(gathered@).to_multiset().len() == succeeded(original).to_multiset().len());
        assert(views(gathered@).len() == succeeded(original).len());
        lemma_sorted_views_permutation(views(gathered@), succeeded(original));
    }
    let records = sort_records(gathered);
    Ok(Collected { records, skipped })
}

} // verus!
