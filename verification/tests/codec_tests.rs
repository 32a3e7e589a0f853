use swww::codec::{decode, encode, is_valid_diff};

fn round_trip(p: &[u8], c: &[u8]) {
    let pv = p.to_vec();
    let cv = c.to_vec();
    let diff = encode(&pv, &cv);
    assert!(is_valid_diff(&diff, pv.len()));
    let mut buf = pv.clone();
    decode(&diff, &mut buf);
    assert_eq!(buf, cv);
}

#[test]
fn round_trip_equal_buffers_is_empty() {
    let p = vec![7u8; 64];
    let diff = encode(&p, &p);
    assert_eq!(diff.len(), 0, "a no-op diff must be minimal");
    round_trip(&p, &p);
}

#[test]
fn round_trip_wholly_different() {
    let p = vec![0u8; 32];
    let c = vec![255u8; 32];
    let diff = encode(&p, &c);
    assert_eq!(
        diff.len(),
        16 + c.len(),
        "a wholly changed buffer costs one literal run"
    );
    round_trip(&p, &c);
}

#[test]
fn round_trip_mixed_runs() {
    let p: Vec<u8> = (0..=255).collect();
    let mut c = p.clone();
    c[10] = 99;
    c[11] = 98;
    c[200] = 1;
    round_trip(&p, &c);

    let diff = encode(&p, &c);
    assert!(
        diff.len() < 16 + c.len(),
        "sparse changes must cost less than a full literal run"
    );
}

#[test]
fn round_trip_empty_buffers() {
    round_trip(&[], &[]);
}

#[test]
fn round_trip_single_byte() {
    round_trip(&[1], &[2]);
    round_trip(&[3], &[3]);
}

#[test]
fn invalid_diffs_are_rejected() {
    // too short to hold a record header
    assert!(!is_valid_diff(&vec![1u8, 2, 3], 100));
    // a record that runs past the buffer
    let p = vec![0u8; 4];
    let c = vec![9u8; 4];
    let diff = encode(&p, &c);
    assert!(is_valid_diff(&diff, 4));
    assert!(!is_valid_diff(&diff, 3));
}
