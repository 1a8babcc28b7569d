use imarapy::diff;
use imarapy::interner::tokenize_pair;
use imarapy::DeltaKind;
use imarapy::DiffError;

#[test]
fn unknown_algorithm_rejected() {
    assert_eq!(
        diff::<i64>(vec![], vec![], "bogus"),
        Err(DiffError::UnknownAlgorithm)
    );
    assert_eq!(
        diff(vec![1i64, 2], vec![3, 4], "patience"),
        Err(DiffError::UnknownAlgorithm)
    );
}

#[test]
fn algorithm_names_case_insensitive() {
    assert!(diff(vec![1i64], vec![1], "HISTOGRAM").is_ok());
    assert!(diff(vec![1i64], vec![1], "Histogram").is_ok());
    assert!(diff(vec![1i64], vec![1], "MyErS").is_ok());
    assert!(diff(vec![1i64], vec![1], "myers").is_ok());
}

#[test]
fn near_miss_names_rejected() {
    assert_eq!(
        diff(vec![1i64], vec![1], "myers "),
        Err(DiffError::UnknownAlgorithm)
    );
    assert_eq!(
        diff(vec![1i64], vec![1], "histogramm"),
        Err(DiffError::UnknownAlgorithm)
    );
    assert_eq!(diff(vec![1i64], vec![1], ""), Err(DiffError::UnknownAlgorithm));
}

#[test]
fn interner_assigns_dense_first_seen_tokens() {
    let (tb, ta, ntok) = tokenize_pair(&vec![10i64, 20, 10], &vec![20, 30]);
    assert_eq!(tb, vec![0u32, 1, 0]);
    assert_eq!(ta, vec![1u32, 2]);
    assert_eq!(ntok, 3);
}

#[test]
fn kind_labels_are_fixed_tags() {
    assert_eq!(DeltaKind::Delete.label(), "Delete");
    assert_eq!(DeltaKind::Insert.label(), "Insert");
    assert_eq!(DeltaKind::Change.label(), "Change");
}

#[test]
fn error_message_names_the_problem() {
    assert_eq!(DiffError::UnknownAlgorithm.message(), "unknown algorithm");
}

#[derive(Debug, Clone)]
struct Label {
    id: i64,
    note: &'static str,
}

// Caller-defined equality: two labels are the same row when their ids match,
// whatever their notes say.
impl PartialEq for Label {
    fn eq(&self, other: &Label) -> bool {
        self.id == other.id
    }
}

#[test]
fn rows_compare_by_value_not_identity() {
    let before = vec![
        Label { id: 1, note: "first" },
        Label { id: 2, note: "second" },
    ];
    let after = vec![
        Label { id: 1, note: "rewritten" },
        Label { id: 2, note: "also rewritten" },
    ];
    let ds = diff(before, after, "histogram").unwrap();
    assert!(ds.is_empty());
}

#[test]
fn caller_equality_decides_changes() {
    let before = vec![
        Label { id: 1, note: "keep" },
        Label { id: 2, note: "old" },
    ];
    let after = vec![
        Label { id: 1, note: "keep" },
        Label { id: 3, note: "new" },
    ];
    let ds = diff(before, after, "myers").unwrap();
    assert_eq!(ds.len(), 1);
    assert_eq!(ds[0].kind, DeltaKind::Change);
    assert_eq!(ds[0].source.position, 1);
    assert_eq!(ds[0].source.rows.len(), 1);
    assert_eq!(ds[0].source.rows[0].note, "old");
    assert_eq!(ds[0].target.position, 1);
    assert_eq!(ds[0].target.rows.len(), 1);
    assert_eq!(ds[0].target.rows[0].note, "new");
}
