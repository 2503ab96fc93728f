use meta_dir::collect::{collect_sorted, find_failure, ExtractFailure, Extracted, FailurePolicy};
use meta_dir::record::{compare_bytes, compare_times, record_precedes, FileRecord, Order, Timestamp};
use meta_dir::report::{header_row, push_decimal, render_record, render_rows, Fault, RenderError};
use meta_dir::scan::{build_report, ScanError};
use meta_dir::select::{reported, select_files, EntryInfo, EntryKind};
use meta_dir::sort::sort_records;

const JAN1: i64 = 1_672_531_200;
const JAN2: i64 = 1_672_617_600;

fn ts(secs: i64) -> Timestamp {
    Timestamp { secs, nanos: 0 }
}

fn rec(name: &str, created: i64, modified: i64, size: u64) -> FileRecord {
    FileRecord::new(name.as_bytes().to_vec(), ts(created), ts(modified), size)
}

fn text_rows(rows: &[Vec<Vec<u8>>]) -> Vec<Vec<String>> {
    rows.iter()
        .map(|r| r.iter().map(|f| String::from_utf8(f.clone()).unwrap()).collect())
        .collect()
}

fn report_of(outcomes: Vec<Extracted>) -> Vec<Vec<String>> {
    let rep = build_report(outcomes, FailurePolicy::FailFast).unwrap();
    text_rows(&rep.rows)
}

fn names(records: &[FileRecord]) -> Vec<String> {
    records.iter().map(|r| String::from_utf8(r.name.clone()).unwrap()).collect()
}

#[test]
fn two_files_in_name_order() {
    let outcomes = vec![
        Extracted::Record(rec("b.txt", JAN1, JAN2, 10)),
        Extracted::Record(rec("a.txt", JAN1, JAN1, 5)),
    ];
    let rows = report_of(outcomes);
    assert_eq!(
        rows,
        vec![
            vec!["Name", "Created", "Modified", "Capacity"],
            vec!["a.txt", "2023-01-01 00:00:00 UTC", "2023-01-01 00:00:00 UTC", "5"],
            vec!["b.txt", "2023-01-01 00:00:00 UTC", "2023-01-02 00:00:00 UTC", "10"],
        ]
    );
}

#[test]
fn failed_read_abandons_the_scan() {
    let outcomes = vec![
        Extracted::Record(rec("a", JAN1, JAN1, 1)),
        Extracted::Failed,
        Extracted::Record(rec("b", JAN1, JAN1, 2)),
        Extracted::Failed,
    ];
    let r = build_report(outcomes, FailurePolicy::FailFast);
    assert_eq!(r.unwrap_err(), ScanError::Extract(ExtractFailure { position: 1 }));
}

#[test]
fn failed_reads_skipped_when_asked() {
    let outcomes = vec![
        Extracted::Failed,
        Extracted::Record(rec("z", JAN1, JAN1, 1)),
        Extracted::Failed,
        Extracted::Record(rec("y", JAN1, JAN1, 2)),
    ];
    let rep = build_report(outcomes, FailurePolicy::SkipFailed).unwrap();
    assert_eq!(rep.skipped, 2);
    let rows = text_rows(&rep.rows);
    assert_eq!(rows.len(), 3);
    assert_eq!(rows[1][0], "y");
    assert_eq!(rows[2][0], "z");
}

#[test]
fn find_failure_gives_first_position() {
    let outcomes = vec![
        Extracted::Record(rec("a", JAN1, JAN1, 1)),
        Extracted::Record(rec("b", JAN1, JAN1, 1)),
        Extracted::Failed,
        Extracted::Failed,
    ];
    assert_eq!(find_failure(&outcomes), Some(2));
    assert_eq!(find_failure(&vec![Extracted::Record(rec("a", JAN1, JAN1, 1))]), None);
}

#[test]
fn every_file_gets_a_row() {
    let outcomes: Vec<Extracted> = (0..7u64)
        .map(|i| Extracted::Record(rec(&format!("f{}", 6 - i), JAN1, JAN2, i)))
        .collect();
    let rows = report_of(outcomes);
    assert_eq!(rows.len(), 8);
}

#[test]
fn empty_scan_has_header_only() {
    let rows = report_of(Vec::new());
    assert_eq!(rows, vec![vec!["Name", "Created", "Modified", "Capacity"]]);
}

#[test]
fn depth_bound_is_inclusive() {
    let entries = vec![
        EntryInfo { depth: 0, kind: EntryKind::Directory },
        EntryInfo { depth: 0, kind: EntryKind::File },
        EntryInfo { depth: 1, kind: EntryKind::File },
        EntryInfo { depth: 2, kind: EntryKind::File },
        EntryInfo { depth: 1, kind: EntryKind::File },
    ];
    assert_eq!(select_files(&entries, Some(1)), vec![1, 2, 4]);
    assert_eq!(select_files(&entries, Some(0)), vec![1]);
    assert_eq!(select_files(&entries, None), vec![1, 2, 3, 4]);
    assert_eq!(select_files(&entries, Some(usize::MAX)), vec![1, 2, 3, 4]);
}

#[test]
fn non_files_are_not_reported() {
    let entries = vec![
        EntryInfo { depth: 0, kind: EntryKind::Directory },
        EntryInfo { depth: 0, kind: EntryKind::Symlink },
        EntryInfo { depth: 0, kind: EntryKind::Other },
        EntryInfo { depth: 0, kind: EntryKind::File },
    ];
    assert_eq!(select_files(&entries, None), vec![3]);
    assert!(!reported(entries[0], None));
    assert!(reported(entries[3], Some(0)));
    assert!(!reported(EntryInfo { depth: 1, kind: EntryKind::File }, Some(0)));
}

#[test]
fn same_names_ordered_by_times_then_size() {
    let records = vec![
        rec("x", JAN2, JAN2, 1),
        rec("x", JAN1, JAN2, 9),
        rec("x", JAN1, JAN1, 7),
        rec("x", JAN1, JAN1, 3),
        rec("w", JAN2, JAN2, 100),
    ];
    let sorted = sort_records(records);
    let keys: Vec<(String, i64, i64, u64)> = sorted
        .iter()
        .map(|r| (String::from_utf8(r.name.clone()).unwrap(), r.created.secs, r.modified.secs, r.size))
        .collect();
    assert_eq!(
        keys,
        vec![
            ("w".to_string(), JAN2, JAN2, 100),
            ("x".to_string(), JAN1, JAN1, 3),
            ("x".to_string(), JAN1, JAN1, 7),
            ("x".to_string(), JAN1, JAN2, 9),
            ("x".to_string(), JAN2, JAN2, 1),
        ]
    );
}

#[test]
fn identical_records_both_kept() {
    let records = vec![rec("same", JAN1, JAN1, 4), rec("a", JAN1, JAN1, 4), rec("same", JAN1, JAN1, 4)];
    let sorted = sort_records(records);
    assert_eq!(names(&sorted), vec!["a", "same", "same"]);
}

#[test]
fn nanoseconds_break_ties() {
    let early = FileRecord::new(b"n".to_vec(), Timestamp { secs: JAN1, nanos: 5 }, ts(JAN1), 0);
    let late = FileRecord::new(b"n".to_vec(), Timestamp { secs: JAN1, nanos: 6 }, ts(JAN1), 0);
    assert!(record_precedes(&early, &late));
    assert!(!record_precedes(&late, &early));
    assert!(record_precedes(&early, &early));
}

#[test]
fn names_compare_bytewise() {
    assert!(matches!(compare_bytes(&b"ab".to_vec(), &b"abc".to_vec()), Order::Less));
    assert!(matches!(compare_bytes(&b"b".to_vec(), &b"abc".to_vec()), Order::Greater));
    assert!(matches!(compare_bytes(&b"B".to_vec(), &b"a".to_vec()), Order::Less));
    assert!(matches!(compare_bytes(&vec![0xff], &b"z".to_vec()), Order::Greater));
    assert!(matches!(compare_bytes(&Vec::new(), &Vec::new()), Order::Equal));
    assert!(matches!(compare_times(ts(-1), ts(0)), Order::Less));
    assert!(matches!(compare_times(ts(3), ts(3)), Order::Equal));
}

#[test]
fn large_input_sorted() {
    let mut records = Vec::new();
    for i in 0..1000u64 {
        let k = (i * 7919) % 1000;
        records.push(rec(&format!("{:04}", k), JAN1, JAN1, i));
    }
    let sorted = sort_records(records);
    let got = names(&sorted);
    let mut want = got.clone();
    want.sort();
    assert_eq!(got, want);
    assert_eq!(got.len(), 1000);
}

#[test]
fn order_of_arrival_does_not_matter() {
    let make = |order: &[usize]| -> Vec<Extracted> {
        let all = [
            ("c", JAN1, JAN2, 3u64),
            ("a", JAN2, JAN2, 1),
            ("a", JAN1, JAN2, 1),
            ("b", JAN1, JAN1, 2),
        ];
        order
            .iter()
            .map(|&i| Extracted::Record(rec(all[i].0, all[i].1, all[i].2, all[i].3)))
            .collect()
    };
    let first = build_report(make(&[0, 1, 2, 3]), FailurePolicy::FailFast).unwrap();
    let second = build_report(make(&[3, 1, 0, 2]), FailurePolicy::FailFast).unwrap();
    assert_eq!(first.rows, second.rows);
}

#[test]
fn decimal_sizes() {
    let cases: [(u64, &str); 4] =
        [(0, "0"), (7, "7"), (1234567890, "1234567890"), (u64::MAX, "18446744073709551615")];
    for (n, want) in cases {
        let mut out = b"x".to_vec();
        push_decimal(n, &mut out);
        assert_eq!(out, format!("x{}", want).into_bytes());
    }
}

#[test]
fn header_labels() {
    let h = header_row();
    let labels: Vec<String> = h.into_iter().map(|f| String::from_utf8(f).unwrap()).collect();
    assert_eq!(labels, vec!["Name", "Created", "Modified", "Capacity"]);
}

#[test]
fn fractional_seconds_rendered() {
    let r = FileRecord::new(b"f".to_vec(), Timestamp { secs: 0, nanos: 500_000_000 }, ts(-86_400), 42);
    let row = render_record(&r).unwrap();
    let row: Vec<String> = row.into_iter().map(|f| String::from_utf8(f).unwrap()).collect();
    assert_eq!(row, vec!["f", "1970-01-01 00:00:00.500 UTC", "1969-12-31 00:00:00 UTC", "42"]);
}

#[test]
fn name_not_text_is_an_error() {
    let records = vec![
        rec("ok", JAN1, JAN1, 1),
        FileRecord::new(vec![b'b', 0xff, 0xfe], ts(JAN1), ts(JAN1), 1),
    ];
    assert_eq!(render_rows(&records).unwrap_err(), RenderError { position: 1, fault: Fault::NameNotText });
}

#[test]
fn time_out_of_range_is_an_error() {
    let records = vec![FileRecord::new(b"t".to_vec(), ts(i64::MAX), ts(JAN1), 1)];
    assert_eq!(
        render_rows(&records).unwrap_err(),
        RenderError { position: 0, fault: Fault::TimeNotRepresentable }
    );
    let bad_nanos = FileRecord::new(b"t".to_vec(), ts(JAN1), Timestamp { secs: JAN1, nanos: 2_000_000_000 }, 1);
    assert_eq!(render_record(&bad_nanos).unwrap_err(), Fault::TimeNotRepresentable);
}

#[test]
fn render_error_position_in_report_order() {
    let outcomes = vec![
        Extracted::Record(FileRecord::new(vec![b'z', 0xc0], ts(JAN1), ts(JAN1), 1)),
        Extracted::Record(rec("a", JAN1, JAN1, 1)),
    ];
    let r = build_report(outcomes, FailurePolicy::FailFast);
    assert_eq!(r.unwrap_err(), ScanError::Render(RenderError { position: 1, fault: Fault::NameNotText }));
}

#[test]
fn collect_counts_and_sorts() {
    let outcomes = vec![
        Extracted::Record(rec("q", JAN1, JAN1, 1)),
        Extracted::Record(rec("p", JAN1, JAN1, 1)),
    ];
    let c = collect_sorted(outcomes, FailurePolicy::SkipFailed).unwrap();
    assert_eq!(c.skipped, 0);
    assert_eq!(names(&c.records), vec!["p", "q"]);
}
