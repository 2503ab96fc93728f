use vstd::prelude::*;
use vstd::multiset::Multiset;
use vstd::relations::sorted_by;
use vstd::seq_lib::{group_to_multiset_ensures, lemma_sorted_unique};
use crate::record::{
    FileRecord,
    RecordView,
    record_le,
    record_order,
    record_precedes,
    views,
    lemma_record_order,
};

verus! {

broadcast use group_to_multiset_ensures;

/// Ascending in the report order.
pub open spec fn ascending(s: Seq<RecordView>) -> bool {
    forall|i: int, j: int| 0 <= i < j < s.len() ==> #[trigger] record_le(s[i], s[j])
}

/// Descending in the report order.
spec fn descending(s: Seq<RecordView>) -> bool {
    forall|i: int, j: int| 0 <= i < j < s.len() ==> #[trigger] record_le(s[j], s[i])
}

/// The records of `s` in report order.
pub open spec fn sorted_views(s: Seq<RecordView>) -> Seq<RecordView> {
    s.sort_by(record_order())
}

proof fn lemma_views_pop(s: Seq<FileRecord>)
    requires
        s.len() > 0,
    ensures
        views(s) == views(s.drop_last()).push(s.last()@),
{
    assert(views(s) =~= views(s.drop_last()).push(s.last()@));
}

proof fn lemma_views_push(s: Seq<FileRecord>, x: FileRecord)
    ensures
        views(s.push(x)) == views(s).push(x@),
{
    assert(views(s.push(x)) =~= views(s).push(x@));
}

/// An ascending sequence with the elements of `s` is the sorted form of `s`.
pub proof fn lemma_ascending_is_sorted(a: Seq<RecordView>, s: Seq<RecordView>)
    requires
        ascending(a),
        a.to_multiset() == s.to_multiset(),
    ensures
        a == sorted_views(s),
{
    lemma_record_order();
    s.lemma_sort_by_ensures(record_order());
    assert(sorted_by(a, record_order()));
    lemma_sorted_unique(a, sorted_views(s), record_order());
}

/// Two sequences with the same records, in whatever order they came, have
/// the same sorted form.
pub proof fn lemma_sorted_views_permutation(a: Seq<RecordView>, b: Seq<RecordView>)
    requires
        a.to_multiset() == b.to_multiset(),
    ensures
        sorted_views(a) == sorted_views(b),
{
    lemma_record_order();
    a.lemma_sort_by_ensures(record_order());
    b.lemma_sort_by_ensures(record_order());
    lemma_sorted_unique(sorted_views(a), sorted_views(b), record_order());
}

/// Merges two ascending vectors into one ascending vector with the
/// elements of both.
fn merge(a: Vec<FileRecord>, b: Vec<FileRecord>) -> (r: Vec<FileRecord>)
    requires
        ascending(views(a@)),
        ascending(views(b@)),
    ensures
        ascending(views(r@)),
        views(r@).to_multiset() == views(a@).to_multiset().add(views(b@).to_multiset()),
{
    proof {
        lemma_record_order();
    }
    let ghost total = views(a@).to_multiset().add(views(b@).to_multiset());
    let mut a = a;
    let mut b = b;
    let mut rev: Vec<FileRecord> = Vec::new();
    // Take the largest remaining record from the back until both are empty.
    while a.len() > 0 || b.len() > 0
        invariant
            ascending(views(a@)),
            ascending(views(b@)),
            descending(views(rev@)),
            forall|i: int, k: int|
                0 <= i < rev@.len() && 0 <= k < a@.len() ==> #[trigger] record_le(
                    a@[k]@,
                    rev@[i]@,
                ),
            forall|i: int, k: int|
                0 <= i < rev@.len() && 0 <= k < b@.len() ==> #[trigger] record_le(
                    b@[k]@,
                    rev@[i]@,
                ),
            views(rev@).to_multiset().add(views(a@).to_multiset()).add(
                views(b@).to_multiset(),
            ) == total,
        decreases a.len() + b.len(),
    {
        let take_a = if a.len() == 0 {
            false
        } else if b.len() == 0 {
            true
        } else {
            record_precedes(&b[b.len() - 1], &a[a.len() - 1])
        };
        proof {
            lemma_record_order();
            if a.len() > 0 && b.len() > 0 {
                if take_a {
                    assert(record_le(b@[b.len() - 1]@, a@[a.len() - 1]@));
                } else {
                    assert(!record_le(b@[b.len() - 1]@, a@[a.len() - 1]@));
                    assert(record_le(a@[a.len() - 1]@, b@[b.len() - 1]@));
                }
            }
        }
        let ghost old_a = a@;
        let ghost old_b = b@;
        let ghost old_rev = rev@;
        let x = if take_a {
            a.pop().unwrap()
        } else {
            b.pop().unwrap()
        };
        proof {
            if take_a {
                lemma_views_pop(old_a);
                assert(views(a@) =~= views(old_a).drop_last());
                assert forall|k: int| 0 <= k < b@.len() implies #[trigger] record_le(
                    b@[k]@,
                    x@,
                ) by {
                    assert(b@[k] == old_b[k]);
                    assert(record_le(views(old_b)[k], views(old_b)[old_b.len() - 1]) || k
                        == old_b.len() - 1);
                    assert(record_le(old_b[old_b.len() - 1]@, old_a[old_a.len() - 1]@));
                    assert(record_le(old_b[k]@, old_b[old_b.len() - 1]@));
                }
                assert forall|k: int| 0 <= k < a@.len() implies #[trigger] record_le(
                    a@[k]@,
                    x@,
                ) by {
                    assert(record_le(views(old_a)[k], views(old_a)[old_a.len() - 1]));
                }
            } else {
                lemma_views_pop(old_b);
                assert(views(b@) =~= views(old_b).drop_last());
                assert forall|k: int| 0 <= k < a@.len() implies #[trigger] record_le(
                    a@[k]@,
                    x@,
                ) by {
                    assert(a@[k] == old_a[k]);
                    assert(record_le(views(old_a)[k], views(old_a)[old_a.len() - 1]));
                    assert(record_le(old_a[k]@, old_a[old_a.len() - 1]@));
                    assert(record_le(old_a[old_a.len() - 1]@, old_b[old_b.len() - 1]@));
                }
                assert forall|k: int| 0 <= k < b@.len() implies #[trigger] record_le(
                    b@[k]@,
                    x@,
                ) by {
                    assert(record_le(views(old_b)[k], views(old_b)[old_b.len() - 1]));
                }
            }
            assert forall|i: int| 0 <= i < old_rev.len() implies #[trigger] record_le(
                x@,
                old_rev[i]@,
            ) by {
                if take_a {
                    assert(record_le(old_a[old_a.len() - 1]@, old_rev[i]@));
                } else {
                    assert(record_le(old_b[old_b.len() - 1]@, old_rev[i]@));
                }
            }
        }
        rev.push(x);
        proof {
            lemma_views_push(old_rev, x);
            assert(forall|i: int| 0 <= i < old_rev.len() ==> rev@[i] == old_rev[i]);
            assert(descending(views(rev@)));
        }
    }
    let mut out: Vec<FileRecord> = Vec::new();
    // Turn the descending vector around.
    while rev.len() > 0
        invariant
            ascending(views(out@)),
            descending(views(rev@)),
            forall|i: int, k: int|
                0 <= i < out@.len() && 0 <= k < rev@.len() ==> #[trigger] record_le(
                    out@[i]@,
                    rev@[k]@,
                ),
            views(out@).to_multiset().add(views(rev@).to_multiset()) == total,
        decreases rev.len(),
    {
        let ghost old_rev = rev@;
        let ghost old_out = out@;
        let x = rev.pop().unwrap();
        proof {
            lemma_record_order();
            lemma_views_pop(old_rev);
            assert(views(rev@) =~= views(old_rev).drop_last());
            assert forall|k: int| 0 <= k < rev@.len() implies #[trigger] record_le(
                x@,
                rev@[k]@,
            ) by {
                assert(record_le(views(old_rev)[old_rev.len() - 1], views(old_rev)[k]));
            }
        }
        out.push(x);
        proof {
            lemma_views_push(old_out, x);
            assert(forall|i: int| 0 <= i < old_out.len() ==> out@[i] == old_out[i]);
            assert(ascending(views(out@)));
        }
    }
    proof {
        assert(views(rev@).to_multiset() =~= Multiset::empty());
    }
    out
}

/// Sorts records into report order: by name, then creation time, then
/// modification time, then size.
pub fn sort_records(v: Vec<FileRecord>) -> (r: Vec<FileRecord>)
    ensures
        views(r@) == sorted_views(views(v@)),
{
    let ghost original = views(v@);
    let sorted = sort_in_halves(v);
    proof {
        lemma_ascending_is_sorted(views(sorted@), original);
    }
    sorted
}

fn sort_in_halves(v: Vec<FileRecord>) -> (r: Vec<FileRecord>)
    ensures
        ascending(views(r@)),
        views(r@).to_multiset() == views(v@).to_multiset(),
    decreases v.len(),
{
    if v.len() <= 1 {
        return v;
    }
    let ghost whole = v@;
    let mut left = v;
    let right = left.split_off(left.len() / 2);
    proof {
        assert(whole =~= left@ + right@);
        assert(views(whole) =~= views(left@) + views(right@));
        vstd::seq_lib::lemma_multiset_commutative(views(left@), views(right@));
    }
    let left = sort_in_halves(left);
    let right = sort_in_halves(right);
    merge(left, right)
}

} // verus!
