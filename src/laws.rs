//! What holds of every merge pass that succeeds.
use vstd::prelude::*;

use crate::key::{group_of, pair_of};
use crate::record::{RecordView, ScalarColumn};
use crate::snapshot::{after_identities, after_scalars, after_weights, snapshot_of};
use crate::table::{has_member, keys_match, lists_entities, SnapshotModel};
use crate::error::SnapshotError;

verus! {

/// The pairs named by the identity map's keys.
pub open spec fn identity_pairs(kvs: Seq<(Vec<u8>, String)>) -> Set<(u16, u16)> {
    Set::new(|p: (u16, u16)| exists|i: int| 0 <= i < kvs.len() && #[trigger] pair_of(kvs[i].0@) == p)
}

/// Whether position `i` of group `g` is a pair in `pairs`.
pub open spec fn names_member(pairs: Set<(u16, u16)>, g: u16, i: int) -> bool {
    0 <= i < 0x10000 && pairs.contains((g, i as u16))
}

/// The identity values of the identity map, in its order.
pub open spec fn identity_values(kvs: Seq<(Vec<u8>, String)>) -> Seq<Seq<char>> {
    kvs.map_values(|kv: (Vec<u8>, String)| kv.1@)
}

proof fn lemma_after_identities(checkpoint: Seq<char>, kvs: Seq<(Vec<u8>, String)>)
    requires
        after_identities(checkpoint, kvs) is Ok,
    ensures
        ({
            let m = after_identities(checkpoint, kvs)->Ok_0;
            &&& m.identities == identity_values(kvs)
            &&& keys_match(m.entities)
            &&& m.entities.dom() == identity_pairs(kvs)
            &&& forall|i: int| 0 <= i < kvs.len() ==> (#[trigger] kvs[i]).0@.len() >= 4
        }),
    decreases kvs.len(),
{
    if kvs.len() > 0 {
        let prev = kvs.drop_last();
        lemma_after_identities(checkpoint, prev);
        let m = after_identities(checkpoint, kvs)->Ok_0;
        assert(identity_values(kvs) =~= identity_values(prev).push(kvs.last().1@));
        assert(m.entities.dom() =~= identity_pairs(kvs)) by {
            assert forall|p: (u16, u16)| identity_pairs(kvs).contains(p) implies m.entities.dom().contains(p) by {
                let i = choose|i: int| 0 <= i < kvs.len() && #[trigger] pair_of(kvs[i].0@) == p;
                if i < kvs.len() - 1 {
                    assert(prev[i] == kvs[i]);
                }
            }
            assert forall|p: (u16, u16)| m.entities.dom().contains(p) implies identity_pairs(kvs).contains(p) by {
                if p != pair_of(kvs.last().0@) {
                    let i = choose|i: int| 0 <= i < prev.len() && #[trigger] pair_of(prev[i].0@) == p;
                    assert(kvs[i] == prev[i]);
                } else {
                    assert(pair_of(kvs[kvs.len() - 1].0@) == p);
                }
            }
        }
        assert forall|i: int| 0 <= i < kvs.len() implies (#[trigger] kvs[i]).0@.len() >= 4 by {
            if i < kvs.len() - 1 {
                assert(prev[i] == kvs[i]);
            }
        }
    } else {
        assert(identity_values(kvs) =~= Seq::<Seq<char>>::empty());
        assert(identity_pairs(kvs) =~= Set::<(u16, u16)>::empty());
        assert(after_identities(checkpoint, kvs)->Ok_0.entities.dom() =~= Set::<(u16, u16)>::empty());
    }
}

proof fn lemma_after_scalars(start: Result<SnapshotModel, SnapshotError>, kvs: Seq<(Vec<u8>, ScalarColumn)>)
    requires
        after_scalars(start, kvs) is Ok,
    ensures
        start is Ok,
        ({
            let m0 = start->Ok_0;
            let m = after_scalars(start, kvs)->Ok_0;
            &&& m.identities == m0.identities
            &&& m.entities.dom() == m0.entities.dom()
            &&& keys_match(m0.entities) ==> keys_match(m.entities)
            &&& forall|k: int|
                0 <= k < kvs.len() && (#[trigger] kvs[k]).1.spec_len() > 0 ==> kvs[k].0@.len() >= 2
            &&& forall|k: int, i: int|
                0 <= k < kvs.len() && 0 <= i < kvs[k].1.spec_len() ==> #[trigger] has_member(
                    m0.entities,
                    group_of(kvs[k].0@),
                    i,
                )
        }),
    decreases kvs.len(),
{
    if kvs.len() > 0 {
        let prev = kvs.drop_last();
        lemma_after_scalars(start, prev);
        let m0 = start->Ok_0;
        let mp = after_scalars(start, prev)->Ok_0;
        let m = after_scalars(start, kvs)->Ok_0;
        let last = kvs.last();
        let g = group_of(last.0@);
        assert(m.entities.dom() =~= mp.entities.dom());
        if !(forall|i: int| 0 <= i < last.1.spec_len() ==> has_member(mp.entities, g, i)) {
            let i = choose|i: int| !(0 <= i < last.1.spec_len() ==> has_member(mp.entities, g, i));
            assert(0 <= i < last.1.spec_len() && !has_member(mp.entities, g, i));
        }
        assert forall|k: int| 0 <= k < kvs.len() && (#[trigger] kvs[k]).1.spec_len() > 0 implies kvs[k].0@.len() >= 2 by {
            if k < kvs.len() - 1 {
                assert(prev[k] == kvs[k]);
            }
        }
        assert forall|k: int, i: int|
            0 <= k < kvs.len() && 0 <= i < kvs[k].1.spec_len() implies #[trigger] has_member(
                m0.entities,
                group_of(kvs[k].0@),
                i,
            ) by {
            if k < kvs.len() - 1 {
                assert(prev[k] == kvs[k]);
                assert(has_member(m0.entities, group_of(prev[k].0@), i));
            } else {
                assert(kvs[k] == last);
                assert(has_member(mp.entities, g, i));
            }
        }
        if keys_match(m0.entities) {
            assert forall|p: (u16, u16)| #[trigger] m.entities.contains_key(p) implies m.entities[p].group_id
                == p.0 && m.entities[p].member_id == p.1 by {
                assert(mp.entities.contains_key(p));
            }
        }
    }
}

proof fn lemma_after_weights(start: Result<SnapshotModel, SnapshotError>, kvs: Seq<(Vec<u8>, Vec<(u16, u16)>)>)
    requires
        after_weights(start, kvs) is Ok,
    ensures
        start is Ok,
        ({
            let m0 = start->Ok_0;
            let m = after_weights(start, kvs)->Ok_0;
            &&& m.identities == m0.identities
            &&& m.entities.dom() == m0.entities.dom()
            &&& keys_match(m0.entities) ==> keys_match(m.entities)
        }),
    decreases kvs.len(),
{
    if kvs.len() > 0 {
        let prev = kvs.drop_last();
        lemma_after_weights(start, prev);
        let mp = after_weights(start, prev)->Ok_0;
        let m = after_weights(start, kvs)->Ok_0;
        let p = pair_of(kvs.last().0@);
        assert(mp.entities.contains_key(p));
        assert(m.entities.dom() =~= mp.entities.dom());
    }
}

/// The identity list of a successful pass holds one identity per
/// identity-map entry, in the order the identity map gave them.
pub proof fn lemma_identity_list_in_order(
    checkpoint: Seq<char>,
    identities: Seq<(Vec<u8>, String)>,
    scalars: Seq<(Vec<u8>, ScalarColumn)>,
    weights: Seq<(Vec<u8>, Vec<(u16, u16)>)>,
)
    requires
        snapshot_of(checkpoint, identities, scalars, weights) is Ok,
    ensures
        snapshot_of(checkpoint, identities, scalars, weights)->Ok_0.identities == identity_values(identities),
        snapshot_of(checkpoint, identities, scalars, weights)->Ok_0.identities.len() == identities.len(),
{
    let a = after_identities(checkpoint, identities);
    lemma_after_weights(after_scalars(a, scalars), weights);
    lemma_after_scalars(a, scalars);
    lemma_after_identities(checkpoint, identities);
}

/// After a successful pass a record exists exactly for each pair that the
/// identity map's keys name, and each record sits under its own pair.
pub proof fn lemma_entities_are_identity_keys(
    checkpoint: Seq<char>,
    identities: Seq<(Vec<u8>, String)>,
    scalars: Seq<(Vec<u8>, ScalarColumn)>,
    weights: Seq<(Vec<u8>, Vec<(u16, u16)>)>,
)
    requires
        snapshot_of(checkpoint, identities, scalars, weights) is Ok,
    ensures
        snapshot_of(checkpoint, identities, scalars, weights)->Ok_0.entities.dom() == identity_pairs(identities),
        keys_match(snapshot_of(checkpoint, identities, scalars, weights)->Ok_0.entities),
{
    let a = after_identities(checkpoint, identities);
    lemma_after_weights(after_scalars(a, scalars), weights);
    lemma_after_scalars(a, scalars);
    lemma_after_identities(checkpoint, identities);
}

/// A pass succeeds only if, for every single-index entry of group `g` whose
/// column has length `L`, the identity map created members `0 .. L` of `g`.
pub proof fn lemma_scalar_members_preexist(
    checkpoint: Seq<char>,
    identities: Seq<(Vec<u8>, String)>,
    scalars: Seq<(Vec<u8>, ScalarColumn)>,
    weights: Seq<(Vec<u8>, Vec<(u16, u16)>)>,
)
    requires
        snapshot_of(checkpoint, identities, scalars, weights) is Ok,
    ensures
        forall|k: int|
            0 <= k < scalars.len() && (#[trigger] scalars[k]).1.spec_len() > 0 ==> scalars[k].0@.len()
                >= 2,
        forall|k: int, i: int|
            0 <= k < scalars.len() && 0 <= i < scalars[k].1.spec_len() ==> #[trigger] names_member(
                identity_pairs(identities),
                group_of(scalars[k].0@),
                i,
            ),
{
    let a = after_identities(checkpoint, identities);
    lemma_after_weights(after_scalars(a, scalars), weights);
    lemma_after_scalars(a, scalars);
    lemma_after_identities(checkpoint, identities);
    let m0 = a->Ok_0;
    assert(m0.entities.dom() == identity_pairs(identities));
    assert forall|k: int, i: int|
        0 <= k < scalars.len() && 0 <= i < scalars[k].1.spec_len() implies #[trigger] names_member(
            identity_pairs(identities),
            group_of(scalars[k].0@),
            i,
        ) by {
        assert(has_member(m0.entities, group_of(scalars[k].0@), i));
    }
}

/// Two listings of the same records hold the same records, entity for
/// entity: the order is all that may differ.
pub proof fn lemma_listings_agree(
    a: Seq<RecordView>,
    b: Seq<RecordView>,
    entities: Map<(u16, u16), RecordView>,
)
    requires
        lists_entities(a, entities),
        lists_entities(b, entities),
    ensures
        a.len() == b.len(),
        forall|i: int| 0 <= i < a.len() ==> b.contains(#[trigger] a[i]),
        forall|j: int| 0 <= j < b.len() ==> a.contains(#[trigger] b[j]),
{
    assert forall|i: int| 0 <= i < a.len() implies b.contains(#[trigger] a[i]) by {
        let p = (a[i].group_id, a[i].member_id);
        assert(entities.contains_key(p));
        let j = choose|j: int| 0 <= j < b.len() && (#[trigger] b[j].group_id, b[j].member_id) == p;
        assert(b[j] == entities[p]);
        assert(b[j] == a[i]);
    }
    assert forall|j: int| 0 <= j < b.len() implies a.contains(#[trigger] b[j]) by {
        let p = (b[j].group_id, b[j].member_id);
        assert(entities.contains_key(p));
        let i = choose|i: int| 0 <= i < a.len() && (#[trigger] a[i].group_id, a[i].member_id) == p;
        assert(a[i] == entities[p]);
        assert(a[i] == b[j]);
    }
    lemma_listing_len(a, entities);
    lemma_listing_len(b, entities);
}

proof fn lemma_listing_len(a: Seq<RecordView>, entities: Map<(u16, u16), RecordView>)
    requires
        lists_entities(a, entities),
    ensures
        entities.dom().finite(),
        a.len() == entities.dom().len(),
{
    let keys = a.map_values(|r: RecordView| (r.group_id, r.member_id));
    assert(keys.no_duplicates()) by {
        assert forall|i: int, j: int| 0 <= i < keys.len() && 0 <= j < keys.len() && i != j implies keys[i] != keys[j] by {
            if i < j {
                assert((a[i].group_id, a[i].member_id) != (a[j].group_id, a[j].member_id));
            } else {
                assert((a[j].group_id, a[j].member_id) != (a[i].group_id, a[i].member_id));
            }
        }
    }
    assert(keys.to_set() =~= entities.dom()) by {
        assert forall|p: (u16, u16)| entities.dom().contains(p) implies keys.to_set().contains(p) by {
            let i = choose|i: int| 0 <= i < a.len() && (#[trigger] a[i].group_id, a[i].member_id) == p;
            assert(keys[i] == p);
        }
        assert forall|p: (u16, u16)| keys.to_set().contains(p) implies entities.dom().contains(p) by {
            let i = choose|i: int| 0 <= i < keys.len() && keys[i] == p;
            assert(a[i].group_id == p.0);
        }
    }
    keys.unique_seq_to_set();
}

} // verus!
