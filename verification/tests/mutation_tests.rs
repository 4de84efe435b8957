use mutate::mutation::{mutate, seq_is_valid};
use mutate::record::{mutate_record, ReadRecord};

fn diff_positions(a: &[u8], b: &[u8]) -> Vec<usize> {
    assert_eq!(a.len(), b.len());
    (0..a.len()).filter(|&i| a[i] != b[i]).map(|i| i + 1).collect()
}

fn is_nucleotide(b: u8) -> bool {
    b == b'A' || b == b'T' || b == b'G' || b == b'C'
}

#[test]
fn quarter_ratio_changes_two_of_eight() {
    let original = b"ATGCATGC".to_vec();
    let target = (0.25f32 * original.len() as f32) as usize;
    assert_eq!(target, 2);
    let (out, pos) = mutate(original.clone(), target, true);
    assert_eq!(out.len(), 8);
    let changed = diff_positions(&original, &out);
    assert_eq!(changed.len(), 2);
    assert_eq!(pos, changed);
    for i in 0..8 {
        if changed.contains(&(i + 1)) {
            assert!(is_nucleotide(out[i]));
            assert_ne!(out[i], original[i]);
        } else {
            assert_eq!(out[i], original[i]);
        }
    }
}

#[test]
fn wildcards_survive_full_ratio() {
    let original = b"AATTNNGG".to_vec();
    let target = (1.0f32 * original.len() as f32) as usize;
    assert_eq!(target, 8);
    let (out, pos) = mutate(original.clone(), target, true);
    assert_eq!(out[4], b'N');
    assert_eq!(out[5], b'N');
    let changed = diff_positions(&original, &out);
    assert_eq!(changed.len(), 6, "only the six non-wildcard bases mutate");
    assert!(!pos.contains(&5));
    assert!(!pos.contains(&6));
    for i in [0usize, 1, 2, 3, 6, 7] {
        assert_ne!(out[i], original[i]);
        assert!(is_nucleotide(out[i]));
    }
    assert_eq!(pos, changed);
}

#[test]
fn position_list_is_strictly_ascending_in_range() {
    let original = b"ACGTNACGTNACGTNACGT".to_vec();
    let (out, pos) = mutate(original.clone(), 7, true);
    for w in pos.windows(2) {
        assert!(w[0] < w[1]);
    }
    for &p in &pos {
        assert!(1 <= p && p <= original.len());
        assert_ne!(original[p - 1], b'N');
        assert_ne!(out[p - 1], original[p - 1]);
    }
}

#[test]
fn smallest_positive_target_changes_one() {
    let original = b"ATGCATGC".to_vec();
    let target = (0.13f32 * original.len() as f32) as usize;
    assert_eq!(target, 1);
    let (out, _) = mutate(original.clone(), target, false);
    assert_eq!(diff_positions(&original, &out).len(), 1);
}

#[test]
fn full_ratio_without_wildcards_changes_all() {
    let original = b"ATGCATGCAT".to_vec();
    let (out, pos) = mutate(original.clone(), original.len(), true);
    for i in 0..original.len() {
        assert_ne!(out[i], original[i]);
        assert!(is_nucleotide(out[i]));
    }
    let expected: Vec<usize> = (1..=original.len()).collect();
    assert_eq!(pos, expected);
}

#[test]
fn half_ratio_changes_half() {
    let original = b"GGGGGGGGGG".to_vec();
    let target = (0.5f32 * original.len() as f32) as usize;
    assert_eq!(target, 5);
    let (out, _) = mutate(original.clone(), target, false);
    let changed = diff_positions(&original, &out);
    assert_eq!(changed.len(), 5);
    for &p in &changed {
        assert!(out[p - 1] == b'A' || out[p - 1] == b'T' || out[p - 1] == b'C');
    }
}

#[test]
fn zero_target_changes_nothing() {
    let original = b"ATGC".to_vec();
    let (out, pos) = mutate(original.clone(), 0, true);
    assert_eq!(out, original);
    assert!(pos.is_empty());
}

#[test]
fn tracking_off_returns_no_positions() {
    let original = b"ATGCATGC".to_vec();
    let (_, pos) = mutate(original, 8, false);
    assert!(pos.is_empty());
}

#[test]
fn sequence_validity_check() {
    assert!(seq_is_valid(&b"ATGCN".to_vec()));
    assert!(seq_is_valid(&Vec::new()));
    assert!(!seq_is_valid(&b"ATXGC".to_vec()));
    assert!(!seq_is_valid(&b"atgc".to_vec()));
}

#[test]
fn record_keeps_id_and_quality() {
    let record = ReadRecord {
        id: b"read1".to_vec(),
        desc: Some(b"lane 3".to_vec()),
        seq: b"ATGCATGC".to_vec(),
        qual: b"IIIIHHHH".to_vec(),
    };
    let out = mutate_record(record, 2, false);
    assert_eq!(out.id, b"read1".to_vec());
    assert_eq!(out.qual, b"IIIIHHHH".to_vec());
    assert_eq!(out.desc, Some(b"lane 3".to_vec()));
    assert_eq!(out.seq.len(), 8);
}

#[test]
fn record_without_tracking_keeps_missing_desc() {
    let record = ReadRecord {
        id: b"r".to_vec(),
        desc: None,
        seq: b"ATGC".to_vec(),
        qual: b"IIII".to_vec(),
    };
    let out = mutate_record(record, 1, false);
    assert_eq!(out.desc, None);
}

#[test]
fn record_annotates_desc_with_positions() {
    // With only wildcard-free positions at 1 and 3 and full ratio, the
    // mutated positions are forced, so the annotation text is deterministic.
    let record = ReadRecord {
        id: b"r".to_vec(),
        desc: Some(b"info".to_vec()),
        seq: b"ANAN".to_vec(),
        qual: b"IIII".to_vec(),
    };
    let out = mutate_record(record, 4, true);
    assert_eq!(out.desc, Some(b"info [1, 3]".to_vec()));
}

#[test]
fn record_annotates_missing_desc_with_bare_list() {
    let record = ReadRecord {
        id: b"r".to_vec(),
        desc: None,
        seq: b"NANA".to_vec(),
        qual: b"IIII".to_vec(),
    };
    let out = mutate_record(record, 4, true);
    assert_eq!(out.desc, Some(b"[2, 4]".to_vec()));
}

#[test]
fn record_annotation_empty_when_nothing_mutates() {
    let record = ReadRecord {
        id: b"r".to_vec(),
        desc: Some(b"info".to_vec()),
        seq: b"NNNN".to_vec(),
        qual: b"IIII".to_vec(),
    };
    let out = mutate_record(record, 4, true);
    assert_eq!(out.seq, b"NNNN".to_vec());
    assert_eq!(out.desc, Some(b"info []".to_vec()));
}

#[test]
fn record_annotation_renders_multi_digit_positions() {
    let mut seq = vec![b'N'; 12];
    seq[1] = b'A';
    seq[10] = b'G';
    let record = ReadRecord {
        id: b"r".to_vec(),
        desc: None,
        seq,
        qual: vec![b'I'; 12],
    };
    let out = mutate_record(record, 12, true);
    assert_eq!(out.desc, Some(b"[2, 11]".to_vec()));
}
