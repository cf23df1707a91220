use neuron_snapshot::checkpoint::assemble_snapshot;
use neuron_snapshot::error::SnapshotError;
use neuron_snapshot::key::push_pair_suffix;
use neuron_snapshot::record::{EntityRecord, ScalarColumn};
use neuron_snapshot::snapshot::merge_snapshot;

fn pair_key(g: u16, m: u16) -> Vec<u8> {
    let mut key = vec![0xaa; 8];
    push_pair_suffix(&mut key, g, m);
    key
}

fn group_key(g: u16) -> Vec<u8> {
    let mut key = vec![0xbb; 8];
    key.extend_from_slice(&g.to_le_bytes());
    key
}

fn sorted(mut records: Vec<EntityRecord>) -> Vec<EntityRecord> {
    records.sort_by_key(|r| (r.group_id, r.member_id));
    records
}

fn alice_and_bob() -> Vec<(Vec<u8>, String)> {
    vec![
        (pair_key(1, 0), "alice".to_string()),
        (pair_key(1, 1), "bob".to_string()),
    ]
}

#[test]
fn two_members_with_active_and_weights() {
    let scalars = vec![(group_key(1), ScalarColumn::Active(vec![true, false]))];
    let weights = vec![(pair_key(1, 0), vec![(1u16, 100u16)])];
    let (records, identities) =
        merge_snapshot("cp".to_string(), &alice_and_bob(), &scalars, &weights).unwrap();
    let records = sorted(records);
    assert_eq!(records.len(), 2);
    assert_eq!((records[0].group_id, records[0].member_id), (1, 0));
    assert_eq!(records[0].identity, "alice");
    assert!(records[0].active);
    assert_eq!(records[0].weights, vec![(1, 100)]);
    assert_eq!((records[1].group_id, records[1].member_id), (1, 1));
    assert_eq!(records[1].identity, "bob");
    assert!(!records[1].active);
    assert!(records[1].weights.is_empty());
    assert_eq!(identities, vec!["alice".to_string(), "bob".to_string()]);
}

#[test]
fn fresh_records_have_defaults() {
    let (records, _) = merge_snapshot("cp".to_string(), &alice_and_bob(), &vec![], &vec![]).unwrap();
    for r in records {
        assert_eq!(r.checkpoint, "cp");
        assert!(!r.active);
        assert_eq!((r.rank, r.emission, r.incentive, r.consensus, r.trust), (0, 0, 0, 0, 0));
        assert_eq!((r.validator_trust, r.dividends, r.last_update, r.pruning_scores), (0, 0, 0, 0));
        assert!(r.weights.is_empty());
    }
}

#[test]
fn every_scalar_column_lands_in_its_field() {
    let g = group_key(1);
    let scalars = vec![
        (g.clone(), ScalarColumn::Rank(vec![1, 2])),
        (g.clone(), ScalarColumn::Trust(vec![3, 4])),
        (g.clone(), ScalarColumn::Emission(vec![5_000_000_000, 6])),
        (g.clone(), ScalarColumn::Consensus(vec![7, 8])),
        (g.clone(), ScalarColumn::Incentive(vec![9, 10])),
        (g.clone(), ScalarColumn::Dividends(vec![11, 12])),
        (g.clone(), ScalarColumn::LastUpdate(vec![13, 14])),
        (g.clone(), ScalarColumn::PruningScores(vec![15, 16])),
        (g.clone(), ScalarColumn::ValidatorTrust(vec![17, 18])),
    ];
    let (records, _) = merge_snapshot("cp".to_string(), &alice_and_bob(), &scalars, &vec![]).unwrap();
    let r = sorted(records);
    assert_eq!((r[0].rank, r[1].rank), (1, 2));
    assert_eq!((r[0].trust, r[1].trust), (3, 4));
    assert_eq!((r[0].emission, r[1].emission), (5_000_000_000, 6));
    assert_eq!((r[0].consensus, r[1].consensus), (7, 8));
    assert_eq!((r[0].incentive, r[1].incentive), (9, 10));
    assert_eq!((r[0].dividends, r[1].dividends), (11, 12));
    assert_eq!((r[0].last_update, r[1].last_update), (13, 14));
    assert_eq!((r[0].pruning_scores, r[1].pruning_scores), (15, 16));
    assert_eq!((r[0].validator_trust, r[1].validator_trust), (17, 18));
}

#[test]
fn scalar_column_longer_than_group_names_first_missing_member() {
    let scalars = vec![(group_key(1), ScalarColumn::Rank(vec![1, 2, 3]))];
    let r = merge_snapshot("cp".to_string(), &alice_and_bob(), &scalars, &vec![]);
    assert_eq!(r, Err(SnapshotError::UnknownMember { group_id: 1, member_id: 2 }));
}

#[test]
fn scalar_column_for_unknown_group_fails() {
    let scalars = vec![(group_key(7), ScalarColumn::Active(vec![true]))];
    let r = merge_snapshot("cp".to_string(), &alice_and_bob(), &scalars, &vec![]);
    assert_eq!(r, Err(SnapshotError::UnknownMember { group_id: 7, member_id: 0 }));
}

#[test]
fn shorter_scalar_column_leaves_other_members_at_default() {
    let scalars = vec![(group_key(1), ScalarColumn::Rank(vec![42]))];
    let (records, _) = merge_snapshot("cp".to_string(), &alice_and_bob(), &scalars, &vec![]).unwrap();
    let r = sorted(records);
    assert_eq!((r[0].rank, r[1].rank), (42, 0));
}

#[test]
fn weights_for_unknown_member_fail() {
    let weights = vec![(pair_key(1, 5), vec![(0u16, 1u16)])];
    let r = merge_snapshot("cp".to_string(), &alice_and_bob(), &vec![], &weights);
    assert_eq!(r, Err(SnapshotError::UnknownMember { group_id: 1, member_id: 5 }));
}

#[test]
fn malformed_keys_fail_on_every_map() {
    let short = vec![(vec![1u8], "x".to_string())];
    assert_eq!(
        merge_snapshot("cp".to_string(), &short, &vec![], &vec![]),
        Err(SnapshotError::MalformedKey)
    );
    let scalars = vec![(vec![1u8], ScalarColumn::Active(vec![]))];
    assert_eq!(
        merge_snapshot("cp".to_string(), &alice_and_bob(), &scalars, &vec![]),
        Err(SnapshotError::MalformedKey)
    );
    let weights = vec![(vec![0u8, 1], vec![])];
    assert_eq!(
        merge_snapshot("cp".to_string(), &alice_and_bob(), &vec![], &weights),
        Err(SnapshotError::MalformedKey)
    );
}

#[test]
fn first_error_wins() {
    let scalars = vec![
        (group_key(3), ScalarColumn::Rank(vec![1])),
        (vec![0u8], ScalarColumn::Rank(vec![1])),
    ];
    let r = merge_snapshot("cp".to_string(), &alice_and_bob(), &scalars, &vec![]);
    assert_eq!(r, Err(SnapshotError::UnknownMember { group_id: 3, member_id: 0 }));
}

#[test]
fn identity_list_keeps_repeats_and_order() {
    let ids = vec![
        (pair_key(2, 0), "carol".to_string()),
        (pair_key(1, 0), "alice".to_string()),
        (pair_key(2, 0), "dave".to_string()),
    ];
    let (records, identities) = merge_snapshot("cp".to_string(), &ids, &vec![], &vec![]).unwrap();
    assert_eq!(identities, vec!["carol", "alice", "dave"]);
    let r = sorted(records);
    assert_eq!(r.len(), 2);
    assert_eq!(r[1].identity, "dave");
}

#[test]
fn pairs_are_unique_in_the_result() {
    let ids: Vec<(Vec<u8>, String)> = (0..50u16)
        .map(|i| (pair_key(i % 3, i % 7), format!("id{}", i)))
        .collect();
    let (records, identities) = merge_snapshot("cp".to_string(), &ids, &vec![], &vec![]).unwrap();
    assert_eq!(identities.len(), 50);
    let mut pairs: Vec<(u16, u16)> = records.iter().map(|r| (r.group_id, r.member_id)).collect();
    let n = pairs.len();
    pairs.sort();
    pairs.dedup();
    assert_eq!(pairs.len(), n);
    assert_eq!(n, 21);
}

#[test]
fn merging_twice_gives_the_same_records() {
    let scalars = vec![(group_key(1), ScalarColumn::Active(vec![true, false]))];
    let weights = vec![(pair_key(1, 1), vec![(0u16, 7u16)])];
    let a = merge_snapshot("cp".to_string(), &alice_and_bob(), &scalars, &weights).unwrap();
    let b = merge_snapshot("cp".to_string(), &alice_and_bob(), &scalars, &weights).unwrap();
    assert_eq!(sorted(a.0), sorted(b.0));
    assert_eq!(a.1, b.1);
}

#[test]
fn assembled_records_carry_the_checkpoint_label() {
    let cp = vec![0x0fu8; 32];
    let (records, _) = assemble_snapshot(&cp, &alice_and_bob(), &vec![], &vec![]).unwrap();
    for r in records {
        assert_eq!(r.checkpoint, "0f".repeat(32));
    }
}
