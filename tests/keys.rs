use neuron_snapshot::error::SnapshotError;
use neuron_snapshot::key::{decode_group_key, decode_pair_key, push_pair_suffix};

#[test]
fn group_key_reads_last_two_bytes_little_endian() {
    let key = vec![0xde, 0xad, 0x01, 0x02];
    assert_eq!(decode_group_key(&key), Ok(0x0201));
}

#[test]
fn pair_key_reads_group_then_member() {
    let key = vec![9, 9, 9, 0x05, 0x00, 0x34, 0x12];
    assert_eq!(decode_pair_key(&key), Ok((5, 0x1234)));
}

#[test]
fn group_key_shorter_than_two_bytes_is_malformed() {
    assert_eq!(decode_group_key(&[]), Err(SnapshotError::MalformedKey));
    assert_eq!(decode_group_key(&[7]), Err(SnapshotError::MalformedKey));
}

#[test]
fn pair_key_shorter_than_four_bytes_is_malformed() {
    assert_eq!(decode_pair_key(&[1]), Err(SnapshotError::MalformedKey));
    assert_eq!(decode_pair_key(&[1, 2, 3]), Err(SnapshotError::MalformedKey));
}

#[test]
fn pair_suffix_round_trips() {
    for &(g, m) in &[(0u16, 0u16), (1, 0), (0, 1), (0x1234, 0xabcd), (u16::MAX, u16::MAX)] {
        let mut key = vec![0x11, 0x22, 0x33];
        push_pair_suffix(&mut key, g, m);
        assert_eq!(key.len(), 7);
        assert_eq!(decode_pair_key(&key), Ok((g, m)));
    }
}

#[test]
fn pair_suffix_bytes_are_little_endian() {
    let mut key = Vec::new();
    push_pair_suffix(&mut key, 0x0102, 0x0304);
    assert_eq!(key, vec![0x02, 0x01, 0x04, 0x03]);
}
