use vstd::prelude::*;
use vstd::relations::total_ordering;

verus! {

/// A point in time as seconds since the Unix epoch (UTC) and the
/// nanoseconds past that second.
#[derive(Clone, Copy, Debug, PartialEq, Eq, Structural)]
pub struct Timestamp {
    pub secs: i64,
    pub nanos: u32,
}

/// One regular file of the scanned tree.
#[derive(Debug)]
pub struct FileRecord {
    /// The base name as the raw bytes the filesystem gave.
    pub name: Vec<u8>,
    pub created: Timestamp,
    pub modified: Timestamp,
    /// Size in bytes.
    pub size: u64,
}

/// What a record means: its name as a byte sequence and its three values.
pub struct RecordView {
    pub name: Seq<u8>,
    pub created: Timestamp,
    pub modified: Timestamp,
    pub size: u64,
}

impl View for FileRecord {
    type V = RecordView;

    open spec fn view(&self) -> RecordView {
        RecordView {
            name: self.name@,
            created: self.created,
            modified: self.modified,
            size: self.size,
        }
    }
}

impl FileRecord {
    pub fn new(name: Vec<u8>, created: Timestamp, modified: Timestamp, size: u64) -> (r: Self)
        ensures
            r.name@ == name@,
            r.created == created,
            r.modified == modified,
            r.size == size,
    {
        FileRecord { name, created, modified, size }
    }
}

/// The views of a sequence of records, position by position.
pub open spec fn views(s: Seq<FileRecord>) -> Seq<RecordView> {
    s.map_values(|r: FileRecord| r@)
}

/// Strict lexicographic order on byte strings: a proper prefix comes first.
pub open spec fn bytes_lt(a: Seq<u8>, b: Seq<u8>) -> bool
    decreases a.len(),
{
    if a.len() == 0 {
        b.len() > 0
    } else if b.len() == 0 {
        false
    } else if a[0] != b[0] {
        a[0] < b[0]
    } else {
        bytes_lt(a.drop_first(), b.drop_first())
    }
}

/// Strict order on timestamps: by seconds, then by nanoseconds.
pub open spec fn time_lt(a: Timestamp, b: Timestamp) -> bool {
    a.secs < b.secs || (a.secs == b.secs && a.nanos < b.nanos)
}

/// Strict order on records: by name, then creation time, then modification
/// time, then size.
pub open spec fn record_lt(a: RecordView, b: RecordView) -> bool {
    ||| bytes_lt(a.name, b.name)
    ||| a.name == b.name && time_lt(a.created, b.created)
    ||| a.name == b.name && a.created == b.created && time_lt(a.modified, b.modified)
    ||| a.name == b.name && a.created == b.created && a.modified == b.modified && a.size
        < b.size
}

/// The order in which records are reported.
pub open spec fn record_le(a: RecordView, b: RecordView) -> bool {
    a == b || record_lt(a, b)
}

pub open spec fn record_order() -> spec_fn(RecordView, RecordView) -> bool {
    |a: RecordView, b: RecordView| record_le(a, b)
}

proof fn lemma_bytes_lt_irreflexive(a: Seq<u8>)
    ensures
        !bytes_lt(a, a),
    decreases a.len(),
{
    if a.len() > 0 {
        lemma_bytes_lt_irreflexive(a.drop_first());
    }
}

proof fn lemma_bytes_lt_asymmetric(a: Seq<u8>, b: Seq<u8>)
    ensures
        !(bytes_lt(a, b) && bytes_lt(b, a)),
    decreases a.len(),
{
    if a.len() > 0 && b.len() > 0 && a[0] == b[0] {
        lemma_bytes_lt_asymmetric(a.drop_first(), b.drop_first());
    }
}

proof fn lemma_bytes_lt_transitive(a: Seq<u8>, b: Seq<u8>, c: Seq<u8>)
    requires
        bytes_lt(a, b),
        bytes_lt(b, c),
    ensures
        bytes_lt(a, c),
    decreases a.len(),
{
    if a.len() > 0 && b.len() > 0 && c.len() > 0 && a[0] == b[0] && b[0] == c[0] {
        lemma_bytes_lt_transitive(a.drop_first(), b.drop_first(), c.drop_first());
    }
}

proof fn lemma_bytes_lt_connected(a: Seq<u8>, b: Seq<u8>)
    ensures
        a == b || bytes_lt(a, b) || bytes_lt(b, a),
    decreases a.len(),
{
    if a.len() > 0 && b.len() > 0 && a[0] == b[0] {
        lemma_bytes_lt_connected(a.drop_first(), b.drop_first());
        if a.drop_first() == b.drop_first() {
            assert(a =~= seq![a[0]] + a.drop_first());
            assert(b =~= seq![b[0]] + b.drop_first());
        }
    } else if a.len() == 0 && b.len() == 0 {
        assert(a =~= b);
    }
}

/// The byte order is a strict total order.
pub proof fn lemma_bytes_order()
    ensures
        forall|a: Seq<u8>| !#[trigger] bytes_lt(a, a),
        forall|a: Seq<u8>, b: Seq<u8>| #[trigger] bytes_lt(a, b) ==> !bytes_lt(b, a),
        forall|a: Seq<u8>, b: Seq<u8>, c: Seq<u8>|
            #[trigger] bytes_lt(a, b) && #[trigger] bytes_lt(b, c) ==> bytes_lt(a, c),
        forall|a: Seq<u8>, b: Seq<u8>|
            a == b || #[trigger] bytes_lt(a, b) || #[trigger] bytes_lt(b, a),
{
    assert forall|a: Seq<u8>| !#[trigger] bytes_lt(a, a) by {
        lemma_bytes_lt_irreflexive(a);
    }
    assert forall|a: Seq<u8>, b: Seq<u8>| #[trigger] bytes_lt(a, b) implies !bytes_lt(b, a) by {
        lemma_bytes_lt_asymmetric(a, b);
    }
    assert forall|a: Seq<u8>, b: Seq<u8>, c: Seq<u8>|
        #[trigger] bytes_lt(a, b) && #[trigger] bytes_lt(b, c) implies bytes_lt(a, c) by {
        lemma_bytes_lt_transitive(a, b, c);
    }
    assert forall|a: Seq<u8>, b: Seq<u8>|
        a == b || #[trigger] bytes_lt(a, b) || #[trigger] bytes_lt(b, a) by {
        lemma_bytes_lt_connected(a, b);
    }
}

/// The record order is a strict total order, and `record_le` a total order.
pub proof fn lemma_record_order()
    ensures
        forall|a: RecordView| !#[trigger] record_lt(a, a),
        forall|a: RecordView, b: RecordView| #[trigger] record_lt(a, b) ==> !record_lt(b, a),
        forall|a: RecordView, b: RecordView, c: RecordView|
            #[trigger] record_le(a, b) && #[trigger] record_le(b, c) ==> record_le(a, c),
        forall|a: RecordView, b: RecordView| #[trigger] record_le(a, b) || record_le(b, a),
        forall|a: RecordView, b: RecordView|
            #[trigger] record_le(a, b) && record_le(b, a) ==> a == b,
        total_ordering(record_order()),
{
    lemma_bytes_order();
    assert forall|a: RecordView, b: RecordView, c: RecordView|
        #[trigger] record_le(a, b) && #[trigger] record_le(b, c) implies record_le(a, c) by {
        if a != b && b != c {
            if bytes_lt(a.name, b.name) && bytes_lt(b.name, c.name) {
                assert(bytes_lt(a.name, c.name));
            }
        }
    }
    assert forall|a: RecordView, b: RecordView| #[trigger] record_le(a, b) || record_le(b, a) by {
        if a.name == b.name && a.created == b.created && a.modified == b.modified && a.size
            == b.size {
            assert(a == b);
        }
    }
}

/// Outcome of comparing two values.
#[derive(Clone, Copy, Debug, PartialEq, Eq, Structural)]
pub enum Order {
    Less,
    Equal,
    Greater,
}

proof fn lemma_common_prefix(a: Seq<u8>, b: Seq<u8>, i: int)
    requires
        0 <= i <= a.len(),
        i <= b.len(),
        forall|k: int| 0 <= k < i ==> a[k] == b[k],
    ensures
        bytes_lt(a, b) == bytes_lt(a.skip(i), b.skip(i)),
    decreases i,
{
    if i > 0 {
        assert(a[0] == b[0]);
        lemma_common_prefix(a.drop_first(), b.drop_first(), i - 1);
        assert(a.drop_first().skip(i - 1) =~= a.skip(i));
        assert(b.drop_first().skip(i - 1) =~= b.skip(i));
    } else {
        assert(a.skip(0) =~= a);
        assert(b.skip(0) =~= b);
    }
}

/// Compares two byte strings lexicographically.
pub fn compare_bytes(a: &Vec<u8>, b: &Vec<u8>) -> (r: Order)
    ensures
        (r is Less) == bytes_lt(a@, b@),
        (r is Equal) == (a@ == b@),
        (r is Greater) == bytes_lt(b@, a@),
{
    proof {
        lemma_bytes_order();
    }
    let mut i: usize = 0;
    while i < a.len() && i < b.len()
        invariant
            i <= a@.len(),
            i <= b@.len(),
            forall|k: int| 0 <= k < i ==> a@[k] == b@[k],
        decreases a.len() - i,
    {
        if a[i] != b[i] {
            proof {
                lemma_common_prefix(a@, b@, i as int);
                lemma_common_prefix(b@, a@, i as int);
                assert(a@.skip(i as int)[0] == a@[i as int]);
                assert(b@.skip(i as int)[0] == b@[i as int]);
            }
            if a[i] < b[i] {
                return Order::Less;
            } else {
                return Order::Greater;
            }
        }
        i = i + 1;
    }
    proof {
        lemma_common_prefix(a@, b@, i as int);
        lemma_common_prefix(b@, a@, i as int);
    }
    if a.len() < b.len() {
        Order::Less
    } else if a.len() > b.len() {
        Order::Greater
    } else {
        assert(a@ =~= b@);
        Order::Equal
    }
}

/// Compares two timestamps, seconds first.
pub fn compare_times(a: Timestamp, b: Timestamp) -> (r: Order)
    ensures
        (r is Less) == time_lt(a, b),
        (r is Equal) == (a == b),
        (r is Greater) == time_lt(b, a),
{
    if a.secs < b.secs {
        Order::Less
    } else if a.secs > b.secs {
        Order::Greater
    } else if a.nanos < b.nanos {
        Order::Less
    } else if a.nanos > b.nanos {
        Order::Greater
    } else {
        Order::Equal
    }
}

/// Whether `a` comes no later than `b` in the report.
pub fn record_precedes(a: &FileRecord, b: &FileRecord) -> (r: bool)
    ensures
        r == record_le(a@, b@),
{
    proof {
        lemma_record_order();
    }
    match compare_bytes(&a.name, &b.name) {
        Order::Less => true,
        Order::Greater => false,
        Order::Equal => match compare_times(a.created, b.created) {
            Order::Less => true,
            Order::Greater => false,
            Order::Equal => match compare_times(a.modified, b.modified) {
                Order::Less => true,
                Order::Greater => false,
                Order::Equal => a.size <= b.size,
            },
        },
    }
}

} // verus!
