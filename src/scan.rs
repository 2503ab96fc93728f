use vstd::prelude::*;
use vstd::seq_lib::group_to_multiset_ensures;
use crate::collect::{
    Extracted,
    ExtractFailure,
    FailurePolicy,
    collect_sorted,
    first_failure,
    is_failed,
    succeeded,
};
use crate::record::{RecordView, record_lt, lemma_record_order, record_order};
use crate::report::{RenderError, fault_of, render_rows, report_rows, table};
use crate::sort::{sorted_views, lemma_sorted_views_permutation};

verus! {

broadcast use group_to_multiset_ensures;

/// The finished table and how many files were left out of it.
#[derive(Debug)]
pub struct Report {
    pub rows: Vec<Vec<Vec<u8>>>,
    pub skipped: usize,
}

/// Why no report was produced.
#[derive(Clone, Copy, Debug, PartialEq, Eq)]
pub enum ScanError {
    /// A file's metadata could not be read and the policy is to fail fast.
    Extract(ExtractFailure),
    /// A record in report order could not be rendered.
    Render(RenderError),
}

/// Some read failed.
pub open spec fn any_failed(outcomes: Seq<Extracted>) -> bool {
    exists|j: int| 0 <= j < outcomes.len() && is_failed(#[trigger] outcomes[j])
}

/// Some record cannot be rendered.
pub open spec fn any_fault(s: Seq<RecordView>) -> bool {
    exists|i: int| 0 <= i < s.len() && (#[trigger] fault_of(s[i])) is Some
}

/// Turns the outcomes of the metadata reads into the report table: the
/// readable records in report order, each rendered as a row under the header.
pub fn build_report(outcomes: Vec<Extracted>, policy: FailurePolicy) -> (r: Result<
    Report,
    ScanError,
>)
    ensures
        ({
            let recs = sorted_views(succeeded(outcomes@));
            &&& (r matches Err(ScanError::Extract(_))) <==> policy == FailurePolicy::FailFast
                && any_failed(outcomes@)
            &&& r matches Err(ScanError::Extract(e)) ==> first_failure(
                outcomes@,
                e.position as int,
            )
            &&& (r matches Err(ScanError::Render(_))) <==> !(policy == FailurePolicy::FailFast
                && any_failed(outcomes@)) && any_fault(recs)
            &&& r matches Err(ScanError::Render(e)) ==> {
                &&& e.position < recs.len()
                &&& fault_of(recs[e.position as int]) == Some(e.fault)
                &&& forall|j: int| 0 <= j < e.position ==> (#[trigger] fault_of(recs[j])) is None
            }
            &&& r matches Ok(rep) ==> table(rep.rows@) == report_rows(recs) && rep.skipped
                == outcomes@.len() - succeeded(outcomes@).len()
        }),
{
    let ghost input = outcomes@;
    let collected = match collect_sorted(outcomes, policy) {
        Ok(c) => c,
        Err(e) => return Err(ScanError::Extract(e)),
    };
    let ghost recs = sorted_views(succeeded(input));
    match render_rows(&collected.records) {
        Ok(rows) => Ok(Report { rows, skipped: collected.skipped }),
        Err(e) => {
            proof {
                assert(recs[e.position as int] == collected.records@[e.position as int]@);
            }
            Err(ScanError::Render(e))
        },
    }
}

/// When every read succeeds, every file gets a row: the table has one row
/// per file plus the header.
pub proof fn lemma_completeness(outcomes: Seq<Extracted>)
    requires
        forall|j: int| 0 <= j < outcomes.len() ==> !is_failed(#[trigger] outcomes[j]),
    ensures
        succeeded(outcomes).len() == outcomes.len(),
        report_rows(sorted_views(succeeded(outcomes))).len() == outcomes.len() + 1,
    decreases outcomes.len(),
{
    if outcomes.len() > 0 {
        let rest = outcomes.drop_last();
        assert forall|j: int| 0 <= j < rest.len() implies !is_failed(#[trigger] rest[j]) by {
            assert(rest[j] == outcomes[j]);
        }
        lemma_completeness(rest);
        assert(!is_failed(outcomes[outcomes.len() - 1]));
    }
    let s = succeeded(outcomes);
    lemma_record_order();
    s.lemma_sort_by_ensures(record_order());
    assert(sorted_views(s).to_multiset().len() == s.to_multiset().len());
}

/// In the report, of two different records the smaller comes first, and a
/// record that comes first is the smaller.
pub proof fn lemma_report_order(s: Seq<RecordView>, i: int, j: int)
    requires
        0 <= i < sorted_views(s).len(),
        0 <= j < sorted_views(s).len(),
        sorted_views(s)[i] != sorted_views(s)[j],
    ensures
        i < j <==> record_lt(sorted_views(s)[i], sorted_views(s)[j]),
{
    let t = sorted_views(s);
    lemma_record_order();
    s.lemma_sort_by_ensures(record_order());
    if i < j {
        assert(record_order()(t[i], t[j]));
    } else if j < i {
        assert(record_order()(t[j], t[i]));
    }
}

/// Two scans that read the same records, in whatever order the walk and
/// the workers delivered them, produce the same table.
pub proof fn lemma_deterministic(a: Seq<Extracted>, b: Seq<Extracted>)
    requires
        succeeded(a).to_multiset() == succeeded(b).to_multiset(),
    ensures
        report_rows(sorted_views(succeeded(a))) == report_rows(sorted_views(succeeded(b))),
{
    lemma_sorted_views_permutation(succeeded(a), succeeded(b));
}

} // verus!
