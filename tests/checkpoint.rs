use neuron_snapshot::checkpoint::{checkpoint_label, parse_checkpoint};
use neuron_snapshot::error::SnapshotError;

fn hex64() -> String {
    (0..32u8).map(|b| format!("{:02x}", b)).collect()
}

#[test]
fn parses_plain_hex_checkpoint() {
    let bytes = parse_checkpoint(&hex64()).unwrap();
    assert_eq!(bytes, (0..32u8).collect::<Vec<u8>>());
}

#[test]
fn parses_prefixed_and_upper_case_checkpoint() {
    let text = format!("0x{}", hex64().to_uppercase());
    let bytes = parse_checkpoint(&text).unwrap();
    assert_eq!(bytes, (0..32u8).collect::<Vec<u8>>());
}

#[test]
fn wrong_length_checkpoint_is_invalid() {
    assert_eq!(parse_checkpoint("0xabcd"), Err(SnapshotError::InvalidCheckpoint));
    assert_eq!(parse_checkpoint(""), Err(SnapshotError::InvalidCheckpoint));
    let odd = format!("{}0", hex64());
    assert_eq!(parse_checkpoint(&odd), Err(SnapshotError::InvalidCheckpoint));
}

#[test]
fn non_hex_checkpoint_is_invalid() {
    let mut text = hex64();
    text.replace_range(10..11, "g");
    assert_eq!(parse_checkpoint(&text), Err(SnapshotError::InvalidCheckpoint));
    let doubled = format!("0x0x{}", &hex64()[4..]);
    assert_eq!(parse_checkpoint(&doubled), Err(SnapshotError::InvalidCheckpoint));
}

#[test]
fn label_is_lower_case_hex() {
    assert_eq!(checkpoint_label(&[0xab, 0x01, 0xF0]), "ab01f0");
    assert_eq!(checkpoint_label(&[]), "");
}
