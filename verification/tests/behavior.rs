use imarapy::diff;
use imarapy::Delta;
use imarapy::DeltaKind;

fn assert_change(d: &Delta<i64>, src_pos: usize, src_rows: &[i64], tgt_pos: usize, tgt_rows: &[i64]) {
    assert_eq!(d.kind, DeltaKind::Change);
    assert_eq!(d.source.position, src_pos);
    assert_eq!(d.source.rows, src_rows.to_vec());
    assert_eq!(d.target.position, tgt_pos);
    assert_eq!(d.target.rows, tgt_rows.to_vec());
}

#[test]
fn empty_inputs_empty_diff() {
    let ds = diff::<i64>(vec![], vec![], "histogram").unwrap();
    assert!(ds.is_empty());
}

#[test]
fn identical_sequences_no_deltas() {
    let ds = diff(vec![1i64, 2, 3], vec![1, 2, 3], "histogram").unwrap();
    assert!(ds.is_empty());
    let ds = diff(vec![1i64, 2, 3], vec![1, 2, 3], "myers").unwrap();
    assert!(ds.is_empty());
}

#[test]
fn single_replacement_merges_to_change() {
    // One replaced row in the middle comes back as one Change delta, not as
    // a Delete followed by an Insert.
    let ds = diff(vec![1i64, 2, 3], vec![1, 9, 3], "histogram").unwrap();
    assert_eq!(ds.len(), 1);
    assert_change(&ds[0], 1, &[2], 1, &[9]);
}

#[test]
fn single_replacement_merges_to_change_myers() {
    let ds = diff(vec![1i64, 2, 3], vec![1, 9, 3], "myers").unwrap();
    assert_eq!(ds.len(), 1);
    assert_change(&ds[0], 1, &[2], 1, &[9]);
}

#[test]
fn pure_insertion() {
    let ds = diff(vec![1i64, 3], vec![1, 2, 3], "histogram").unwrap();
    assert_eq!(ds.len(), 1);
    assert_eq!(ds[0].kind, DeltaKind::Insert);
    assert_eq!(ds[0].source.position, 1);
    assert!(ds[0].source.rows.is_empty());
    assert_eq!(ds[0].target.position, 1);
    assert_eq!(ds[0].target.rows, vec![2i64]);
}

#[test]
fn pure_deletion() {
    let ds = diff(vec![1i64, 2, 3], vec![1, 3], "histogram").unwrap();
    assert_eq!(ds.len(), 1);
    assert_eq!(ds[0].kind, DeltaKind::Delete);
    assert_eq!(ds[0].source.position, 1);
    assert_eq!(ds[0].source.rows, vec![2i64]);
    assert_eq!(ds[0].target.position, 1);
    assert!(ds[0].target.rows.is_empty());
}

#[test]
fn insertion_at_front() {
    let ds = diff(vec![2i64, 3], vec![1, 2, 3], "myers").unwrap();
    assert_eq!(ds.len(), 1);
    assert_eq!(ds[0].kind, DeltaKind::Insert);
    assert_eq!(ds[0].source.position, 0);
    assert_eq!(ds[0].target.position, 0);
    assert_eq!(ds[0].target.rows, vec![1i64]);
}

#[test]
fn insertion_into_empty() {
    let ds = diff(vec![], vec![1i64, 2], "histogram").unwrap();
    assert_eq!(ds.len(), 1);
    assert_eq!(ds[0].kind, DeltaKind::Insert);
    assert_eq!(ds[0].source.position, 0);
    assert_eq!(ds[0].target.position, 0);
    assert_eq!(ds[0].target.rows, vec![1i64, 2]);
}

#[test]
fn deletion_at_end() {
    let ds = diff(vec![1i64, 2], vec![1], "myers").unwrap();
    assert_eq!(ds.len(), 1);
    assert_eq!(ds[0].kind, DeltaKind::Delete);
    assert_eq!(ds[0].source.position, 1);
    assert_eq!(ds[0].source.rows, vec![2i64]);
    assert_eq!(ds[0].target.position, 1);
}

#[test]
fn change_spanning_several_rows() {
    let ds = diff(vec![1i64, 2, 3, 4], vec![1, 9, 8, 4], "histogram").unwrap();
    assert_eq!(ds.len(), 1);
    assert_change(&ds[0], 1, &[2, 3], 1, &[9, 8]);
}

#[test]
fn change_with_unequal_sides() {
    let ds = diff(vec![1i64, 2, 3], vec![1, 7, 8, 9, 3], "myers").unwrap();
    assert_eq!(ds.len(), 1);
    assert_change(&ds[0], 1, &[2], 1, &[7, 8, 9]);
}

#[test]
fn deltas_ordered_by_source_position() {
    let ds = diff(
        vec![1i64, 2, 3, 4, 5, 6],
        vec![1, 7, 3, 4, 8, 6],
        "histogram",
    )
    .unwrap();
    assert_eq!(ds.len(), 2);
    assert_change(&ds[0], 1, &[2], 1, &[7]);
    assert_change(&ds[1], 4, &[5], 4, &[8]);
    assert!(ds[0].source.position < ds[1].source.position);
    assert!(ds[0].target.position < ds[1].target.position);
}

#[test]
fn every_changed_row_covered_once() {
    // The union of the source ranges covers exactly the rows that changed,
    // without overlap; likewise for the target ranges.
    let before = vec![1i64, 2, 3, 4, 5, 6];
    let after = vec![1i64, 7, 3, 4, 8, 6];
    let ds = diff(before.clone(), after.clone(), "myers").unwrap();
    let mut covered_src = vec![false; before.len()];
    let mut covered_tgt = vec![false; after.len()];
    for d in &ds {
        for k in 0..d.source.rows.len() {
            let i = d.source.position + k;
            assert!(!covered_src[i]);
            covered_src[i] = true;
            assert_eq!(d.source.rows[k], before[i]);
        }
        for k in 0..d.target.rows.len() {
            let j = d.target.position + k;
            assert!(!covered_tgt[j]);
            covered_tgt[j] = true;
            assert_eq!(d.target.rows[k], after[j]);
        }
    }
    assert_eq!(covered_src, vec![false, true, false, false, true, false]);
    assert_eq!(covered_tgt, vec![false, true, false, false, true, false]);
}

#[test]
fn duplicate_rows_keep_their_positions() {
    // The two occurrences of 7 intern to one token, yet the inserted row is
    // reported at its own position in the second sequence.
    let ds = diff(vec![7i64, 8, 7], vec![7, 8, 7, 8], "histogram").unwrap();
    assert_eq!(ds.len(), 1);
    assert_eq!(ds[0].kind, DeltaKind::Insert);
    assert_eq!(ds[0].source.position, 3);
    assert_eq!(ds[0].target.position, 3);
    assert_eq!(ds[0].target.rows, vec![8i64]);
}
