//! The merge engine: the growing mapping from (group, member) to record,
//! filled first from the identity map and then from the dependent maps.
use std::collections::HashMap;
use vstd::prelude::*;

use crate::error::SnapshotError;
use crate::key::{decode_group_key, decode_pair_key, group_of, pair_of};
use crate::record::{fresh_record, EntityRecord, RecordView, ScalarColumn};

verus! {

broadcast use vstd::std_specs::hash::group_hash_axioms;

/// What a merge pass has built so far: the records by (group, member), and
/// every identity decoded, in the order the identity map gave them.
pub struct SnapshotModel {
    pub entities: Map<(u16, u16), RecordView>,
    pub identities: Seq<Seq<char>>,
}

/// Each record sits under its own (group, member) pair.
pub open spec fn keys_match(entities: Map<(u16, u16), RecordView>) -> bool {
    forall|p: (u16, u16)| #[trigger]
        entities.contains_key(p) ==> entities[p].group_id == p.0 && entities[p].member_id == p.1
}

/// Whether position `i` of group `g` names a member present in `entities`.
pub open spec fn has_member(entities: Map<(u16, u16), RecordView>, g: u16, i: int) -> bool {
    0 <= i < 0x10000 && entities.contains_key((g, i as u16))
}

/// One identity-map entry: a fresh record at the key's pair (replacing any
/// earlier one there), and the identity appended to the list.
pub open spec fn identity_step(
    m: SnapshotModel,
    checkpoint: Seq<char>,
    key: Seq<u8>,
    identity: Seq<char>,
) -> Result<SnapshotModel, SnapshotError> {
    if key.len() < 4 {
        Err(SnapshotError::MalformedKey)
    } else {
        let p = pair_of(key);
        Ok(
            SnapshotModel {
                entities: m.entities.insert(p, fresh_record(p.0, p.1, checkpoint, identity)),
                identities: m.identities.push(identity),
            },
        )
    }
}

/// The entities after a column of group `g` is written into members
/// `0 .. n`.
pub open spec fn column_written(
    entities: Map<(u16, u16), RecordView>,
    g: u16,
    column: ScalarColumn,
    n: int,
) -> Map<(u16, u16), RecordView> {
    Map::new(
        |p: (u16, u16)| entities.contains_key(p),
        |p: (u16, u16)|
            if p.0 == g && (p.1 as int) < n {
                column.applied_to(entities[p], p.1 as int)
            } else {
                entities[p]
            },
    )
}

/// The first position below `n` that names no member of group `g`.
pub open spec fn first_missing(entities: Map<(u16, u16), RecordView>, g: u16, n: int) -> int {
    choose|i: int|
        0 <= i < n && !has_member(entities, g, i) && forall|j: int|
            0 <= j < i ==> has_member(entities, g, j)
}

/// One single-index entry: the key gives the group, the column's positions
/// give the members, each of which must already exist; the first position
/// that does not is reported.
pub open spec fn scalar_step(m: SnapshotModel, key: Seq<u8>, column: ScalarColumn) -> Result<
    SnapshotModel,
    SnapshotError,
> {
    if key.len() < 2 {
        Err(SnapshotError::MalformedKey)
    } else {
        let g = group_of(key);
        if exists|i: int| 0 <= i < column.spec_len() && !has_member(m.entities, g, i) {
            let i = first_missing(m.entities, g, column.spec_len() as int);
            Err(SnapshotError::UnknownMember { group_id: g, member_id: i as u64 })
        } else {
            Ok(SnapshotModel { entities: column_written(m.entities, g, column, column.spec_len() as int), ..m })
        }
    }
}

/// One weights entry: the key's pair must exist; its weight list becomes
/// the given one.
pub open spec fn weights_step(m: SnapshotModel, key: Seq<u8>, weights: Seq<(u16, u16)>) -> Result<
    SnapshotModel,
    SnapshotError,
> {
    if key.len() < 4 {
        Err(SnapshotError::MalformedKey)
    } else {
        let p = pair_of(key);
        if !m.entities.contains_key(p) {
            Err(SnapshotError::UnknownMember { group_id: p.0, member_id: p.1 as u64 })
        } else {
            Ok(
                SnapshotModel {
                    entities: m.entities.insert(p, RecordView { weights, ..m.entities[p] }),
                    ..m
                },
            )
        }
    }
}

/// `out` lists the records of `entities`, each once, in some order.
pub open spec fn lists_entities(out: Seq<RecordView>, entities: Map<(u16, u16), RecordView>) -> bool {
    &&& forall|i: int|
        0 <= i < out.len() ==> {
            let p = (#[trigger] out[i].group_id, out[i].member_id);
            entities.contains_key(p) && entities[p] == out[i]
        }
    &&& forall|i: int, j: int|
        0 <= i < j < out.len() ==> (#[trigger] out[i].group_id, out[i].member_id) != (
        #[trigger] out[j].group_id,
        out[j].member_id,
    )
    &&& forall|p: (u16, u16)| #[trigger]
        entities.contains_key(p) ==> exists|i: int|
            0 <= i < out.len() && (#[trigger] out[i].group_id, out[i].member_id) == p
}

/// The slot that a (group, member) pair is indexed under.
pub open spec fn slot_of(g: u16, m: u16) -> u32 {
    (g as int * 0x10000 + m as int) as u32
}

fn slot(g: u16, m: u16) -> (r: u32)
    ensures
        r == slot_of(g, m),
{
    (g as u32) * 0x10000 + (m as u32)
}

proof fn lemma_slot_injective(g1: u16, m1: u16, g2: u16, m2: u16)
    ensures
        slot_of(g1, m1) == slot_of(g2, m2) ==> g1 == g2 && m1 == m2,
{
}

/// The merge engine's state: records in creation order, an index from slot
/// to position, and the identities decoded so far.
pub struct EntityTable {
    checkpoint: String,
    records: Vec<EntityRecord>,
    slots: HashMap<u32, usize>,
    identities: Vec<String>,
}

impl EntityTable {
    /// The index and the records agree one for one.
    pub closed spec fn wf(&self) -> bool {
        &&& forall|i: int|
            0 <= i < self.records@.len() ==> {
                let r = #[trigger] self.records@[i];
                &&& self.slots@.contains_key(slot_of(r.group_id, r.member_id))
                &&& self.slots@[slot_of(r.group_id, r.member_id)] == i
            }
        &&& forall|k: u32| #[trigger]
            self.slots@.contains_key(k) ==> {
                let i = self.slots@[k] as int;
                &&& 0 <= i < self.records@.len()
                &&& slot_of(self.records@[i].group_id, self.records@[i].member_id) == k
            }
    }

    /// The checkpoint that new records are stamped with.
    pub closed spec fn spec_checkpoint(&self) -> Seq<char> {
        self.checkpoint@
    }

    /// The records by (group, member) pair.
    pub closed spec fn entities(&self) -> Map<(u16, u16), RecordView> {
        Map::new(
            |p: (u16, u16)| self.slots@.contains_key(slot_of(p.0, p.1)),
            |p: (u16, u16)| self.records@[self.slots@[slot_of(p.0, p.1)] as int]@,
        )
    }

    /// The table's content as a model.
    pub open spec fn model(&self) -> SnapshotModel {
        SnapshotModel { entities: self.entities(), identities: self.spec_identities() }
    }

    /// The identities decoded so far.
    pub closed spec fn spec_identities(&self) -> Seq<Seq<char>> {
        self.identities@.map_values(|s: String| s@)
    }

    /// An empty table for the given checkpoint.
    pub fn new(checkpoint: String) -> (t: Self)
        ensures
            t.wf(),
            t.spec_checkpoint() == checkpoint@,
            t.entities() == Map::<(u16, u16), RecordView>::empty(),
            t.spec_identities() == Seq::<Seq<char>>::empty(),
    {
        let t = EntityTable {
            checkpoint,
            records: Vec::new(),
            slots: HashMap::new(),
            identities: Vec::new(),
        };
        assert(t.entities() =~= Map::<(u16, u16), RecordView>::empty());
        assert(t.spec_identities() =~= Seq::<Seq<char>>::empty());
        t
    }

    /// Merges one identity-map entry: creates the record at the key's pair
    /// and appends the identity to the identity list.
    pub fn add_identity(&mut self, key: &[u8], identity: String) -> (r: Result<(), SnapshotError>)
        requires
            old(self).wf(),
        ensures
            final(self).wf(),
            final(self).spec_checkpoint() == old(self).spec_checkpoint(),
            match identity_step(old(self).model(), old(self).spec_checkpoint(), key@, identity@) {
                Ok(m) => r is Ok && final(self).model() == m,
                Err(e) => r == Err::<(), SnapshotError>(e) && final(self).model() == old(
                    self,
                ).model(),
            },
    {
        let (g, m) = match decode_pair_key(key) {
            Ok(p) => p,
            Err(e) => {
                return Err(e);
            },
        };
        let ghost old_entities = self.entities();
        let ghost old_ids = self.spec_identities();
        let rec = EntityRecord::new(g, m, self.checkpoint.clone(), identity.clone());
        self.identities.push(identity);
        let k = slot(g, m);
        match self.slots.get(&k) {
            Some(i) => {
                let i = *i;
                self.records.set(i, rec);
            },
            None => {
                let n = self.records.len();
                self.records.push(rec);
                self.slots.insert(k, n);
            },
        }
        proof {
            assert forall|q: (u16, u16)| #![auto] q != (g, m) implies slot_of(q.0, q.1) != k by {
                lemma_slot_injective(q.0, q.1, g, m);
            }
            assert forall|j: int| 0 <= j < self.records@.len() implies #[trigger] slot_of(
                self.records@[j].group_id,
                self.records@[j].member_id,
            ) != k || self.slots@[k] == j by {}
            assert(self.entities() =~= old_entities.insert(
                (g, m),
                fresh_record(g, m, self.checkpoint@, identity@),
            ));
            assert(self.spec_identities() =~= old_ids.push(identity@));
        }
        Ok(())
    }

    /// Merges one single-index entry: every position of the column must name
    /// an existing member of the key's group; then each such member gets the
    /// column's value at its position. On failure nothing is changed.
    pub fn apply_scalar(&mut self, key: &[u8], column: &ScalarColumn) -> (r: Result<
        (),
        SnapshotError,
    >)
        requires
            old(self).wf(),
        ensures
            final(self).wf(),
            final(self).spec_checkpoint() == old(self).spec_checkpoint(),
            match scalar_step(old(self).model(), key@, *column) {
                Ok(m) => r is Ok && final(self).model() == m,
                Err(e) => r == Err::<(), SnapshotError>(e) && final(self).model() == old(
                    self,
                ).model(),
            },
    {
        let g = match decode_group_key(key) {
            Ok(g) => g,
            Err(e) => {
                return Err(e);
            },
        };
        let n = column.len();
        let ghost old_entities = self.entities();
        let mut i: usize = 0;
        while i < n
            invariant
                self.wf(),
                old_entities == self.entities(),
                i <= n,
                n == column.spec_len(),
                forall|j: int| 0 <= j < i ==> has_member(old_entities, g, j),
                key@.len() >= 2,
                g == group_of(key@),
                old_entities == old(self).entities(),
                self.records@ == old(self).records@,
                self.slots@ == old(self).slots@,
                self.identities@ == old(self).identities@,
                self.checkpoint@ == old(self).checkpoint@,
            decreases n - i,
        {
            if i >= 0x10000 || !self.slots.contains_key(&slot(g, i as u16)) {
                proof {
                    assert(0 <= i < column.spec_len() && !has_member(old_entities, g, i as int)
                        && forall|j: int| 0 <= j < i ==> has_member(old_entities, g, j));
                    let w = first_missing(old_entities, g, n as int);
                    assert(!has_member(old_entities, g, i as int));
                    if w < i {
                        assert(has_member(old_entities, g, w));
                    } else if w > i {
                        assert(has_member(old_entities, g, i as int));
                    }
                    assert(w == i);
                }
                return Err(SnapshotError::UnknownMember { group_id: g, member_id: i as u64 });
            }
            i += 1;
        }
        proof {
            if n > 0x10000 {
                assert(has_member(old_entities, g, 0x10000));
            }
            assert(old_entities =~= column_written(old_entities, g, *column, 0));
        }
        let mut i: usize = 0;
        while i < n
            invariant
                self.wf(),
                i <= n,
                n == column.spec_len(),
                n <= 0x10000,
                forall|j: int| 0 <= j < n ==> has_member(old_entities, g, j),
                self.entities() == column_written(old_entities, g, *column, i as int),
                self.checkpoint@ == old(self).checkpoint@,
                self.identities@ == old(self).identities@,
                key@.len() >= 2,
                g == group_of(key@),
                old_entities == old(self).entities(),
            decreases n - i,
        {
            assert(has_member(old_entities, g, i as int));
            let ghost before = self.entities();
            let ghost old_records = self.records@;
            let k = slot(g, i as u16);
            assert(before.contains_key((g, i as u16)));
            assert(self.slots@.contains_key(k));
            let idx = match self.slots.get(&k) {
                Some(idx) => *idx,
                None => {
                    return Err(SnapshotError::UnknownMember { group_id: g, member_id: i as u64 });
                },
            };
            column.apply_to(&mut self.records[idx], i);
            proof {
                assert(self.records@[idx as int]@ == column.applied_to(old_records[idx as int]@, i as int));
                assert(forall|j: int| 0 <= j < old_records.len() && j != idx ==> self.records@[j] == old_records[j]);
                assert(before[(g, i as u16)] == old_records[idx as int]@);
                assert forall|q: (u16, u16)| #![auto] q != (g, i as u16) implies slot_of(q.0, q.1)
                    != k by {
                    lemma_slot_injective(q.0, q.1, g, i as u16);
                }
                let target = column_written(old_entities, g, *column, i + 1);
                assert forall|q: (u16, u16)| #[trigger] self.entities().contains_key(q) implies self.entities()[q] == target[q] by {
                    if q == (g, i as u16) {
                        assert(self.slots@[k] == idx);
                    } else {
                        let j = self.slots@[slot_of(q.0, q.1)] as int;
                        assert(j != idx);
                        assert(self.entities()[q] == before[q]);
                    }
                }
                assert(self.entities() =~= target);
            }
            i += 1;
        }
        Ok(())
    }

    /// Merges one weights entry: the key's pair must exist; its weight list
    /// is replaced by the given one. On failure nothing is changed.
    pub fn apply_weights(&mut self, key: &[u8], weights: Vec<(u16, u16)>) -> (r: Result<
        (),
        SnapshotError,
    >)
        requires
            old(self).wf(),
        ensures
            final(self).wf(),
            final(self).spec_checkpoint() == old(self).spec_checkpoint(),
            match weights_step(old(self).model(), key@, weights@) {
                Ok(m) => r is Ok && final(self).model() == m,
                Err(e) => r == Err::<(), SnapshotError>(e) && final(self).model() == old(
                    self,
                ).model(),
            },
    {
        let (g, m) = match decode_pair_key(key) {
            Ok(p) => p,
            Err(e) => {
                return Err(e);
            },
        };
        let ghost old_entities = self.entities();
        let k = slot(g, m);
        let idx = match self.slots.get(&k) {
            Some(idx) => *idx,
            None => {
                return Err(SnapshotError::UnknownMember { group_id: g, member_id: m as u64 });
            },
        };
        self.records[idx].weights = weights;
        proof {
            assert forall|q: (u16, u16)| #![auto] q != (g, m) implies slot_of(q.0, q.1) != k by {
                lemma_slot_injective(q.0, q.1, g, m);
            }
            let p = (g, m);
            assert(self.entities() =~= old_entities.insert(
                p,
                RecordView { weights: weights@, ..old_entities[p] },
            ));
        }
        Ok(())
    }

    /// Hands out the records, each once and in no particular order, and the
    /// identity list.
    pub fn into_parts(self) -> (r: (Vec<EntityRecord>, Vec<String>))
        requires
            self.wf(),
        ensures
            lists_entities(r.0@.map_values(|e: EntityRecord| e@), self.entities()),
            r.1@.map_values(|s: String| s@) == self.spec_identities(),
    {
        let ghost entities = self.entities();
        let ghost out = self.records@.map_values(|e: EntityRecord| e@);
        proof {
            assert forall|i: int| 0 <= i < out.len() implies {
                let p = (#[trigger] out[i].group_id, out[i].member_id);
                entities.contains_key(p) && entities[p] == out[i]
            } by {
                let r = self.records@[i];
                let k = slot_of(r.group_id, r.member_id);
                assert(self.slots@[k] == i);
            }
            assert forall|i: int, j: int| 0 <= i < j < out.len() implies (
            #[trigger] out[i].group_id,
            out[i].member_id,
            ) != (#[trigger] out[j].group_id, out[j].member_id) by {
                let ri = self.records@[i];
                let rj = self.records@[j];
                assert(self.slots@[slot_of(ri.group_id, ri.member_id)] == i);
                assert(self.slots@[slot_of(rj.group_id, rj.member_id)] == j);
            }
            assert forall|p: (u16, u16)| #[trigger] entities.contains_key(p) implies exists|i: int|
                0 <= i < out.len() && (#[trigger] out[i].group_id, out[i].member_id) == p by {
                let i = self.slots@[slot_of(p.0, p.1)] as int;
                let r = self.records@[i];
                lemma_slot_injective(r.group_id, r.member_id, p.0, p.1);
                assert(out[i].group_id == p.0 && out[i].member_id == p.1);
            }
        }
        (self.records, self.identities)
    }
}

} // verus!
