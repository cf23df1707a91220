//! One merge pass over the fetched maps, in the required order: identities
//! first, then the single-index maps, then the weights.
use vstd::prelude::*;

use crate::error::SnapshotError;
use crate::record::{EntityRecord, RecordView, ScalarColumn};
use crate::table::{
    identity_step, lists_entities, scalar_step, weights_step, EntityTable, SnapshotModel,
};

verus! {

/// Nothing merged yet.
pub open spec fn empty_model() -> SnapshotModel {
    SnapshotModel { entities: Map::empty(), identities: Seq::empty() }
}

/// The identity-map entries merged in order into an empty model; the first
/// failing entry decides the error.
pub open spec fn after_identities(checkpoint: Seq<char>, kvs: Seq<(Vec<u8>, String)>) -> Result<
    SnapshotModel,
    SnapshotError,
>
    decreases kvs.len(),
{
    if kvs.len() == 0 {
        Ok(empty_model())
    } else {
        match after_identities(checkpoint, kvs.drop_last()) {
            Ok(m) => identity_step(m, checkpoint, kvs.last().0@, kvs.last().1@),
            Err(e) => Err(e),
        }
    }
}

/// The single-index entries merged in order after `start`.
pub open spec fn after_scalars(
    start: Result<SnapshotModel, SnapshotError>,
    kvs: Seq<(Vec<u8>, ScalarColumn)>,
) -> Result<SnapshotModel, SnapshotError>
    decreases kvs.len(),
{
    if kvs.len() == 0 {
        start
    } else {
        match after_scalars(start, kvs.drop_last()) {
            Ok(m) => scalar_step(m, kvs.last().0@, kvs.last().1),
            Err(e) => Err(e),
        }
    }
}

/// The weights entries merged in order after `start`.
pub open spec fn after_weights(
    start: Result<SnapshotModel, SnapshotError>,
    kvs: Seq<(Vec<u8>, Vec<(u16, u16)>)>,
) -> Result<SnapshotModel, SnapshotError>
    decreases kvs.len(),
{
    if kvs.len() == 0 {
        start
    } else {
        match after_weights(start, kvs.drop_last()) {
            Ok(m) => weights_step(m, kvs.last().0@, kvs.last().1@),
            Err(e) => Err(e),
        }
    }
}

/// The whole merge pass.
pub open spec fn snapshot_of(
    checkpoint: Seq<char>,
    identities: Seq<(Vec<u8>, String)>,
    scalars: Seq<(Vec<u8>, ScalarColumn)>,
    weights: Seq<(Vec<u8>, Vec<(u16, u16)>)>,
) -> Result<SnapshotModel, SnapshotError> {
    after_weights(after_scalars(after_identities(checkpoint, identities), scalars), weights)
}

/// The views of a list of records.
pub open spec fn record_views(records: Seq<EntityRecord>) -> Seq<RecordView> {
    records.map_values(|e: EntityRecord| e@)
}

/// The views of a list of strings.
pub open spec fn string_views(strings: Seq<String>) -> Seq<Seq<char>> {
    strings.map_values(|s: String| s@)
}

fn copy_weights(w: &Vec<(u16, u16)>) -> (r: Vec<(u16, u16)>)
    ensures
        r@ == w@,
{
    let mut r: Vec<(u16, u16)> = Vec::with_capacity(w.len());
    let mut i: usize = 0;
    while i < w.len()
        invariant
            i <= w@.len(),
            r@ == w@.take(i as int),
        decreases w@.len() - i,
    {
        r.push(w[i]);
        i += 1;
        assert(r@ =~= w@.take(i as int));
    }
    assert(w@.take(w@.len() as int) =~= w@);
    r
}

/// Merges the fetched maps into one record per member found in the
/// identity map. The identity map goes first, then every single-index
/// entry, then every weights entry; the first entry that fails ends the
/// pass with its error.
pub fn merge_snapshot(
    checkpoint: String,
    identities: &Vec<(Vec<u8>, String)>,
    scalars: &Vec<(Vec<u8>, ScalarColumn)>,
    weights: &Vec<(Vec<u8>, Vec<(u16, u16)>)>,
) -> (r: Result<(Vec<EntityRecord>, Vec<String>), SnapshotError>)
    ensures
        match snapshot_of(checkpoint@, identities@, scalars@, weights@) {
            Ok(m) => r is Ok && lists_entities(record_views(r->Ok_0.0@), m.entities)
                && string_views(r->Ok_0.1@) == m.identities,
            Err(e) => r == Err::<(Vec<EntityRecord>, Vec<String>), SnapshotError>(e),
        },
{
    let ghost cp = checkpoint@;
    let mut table = EntityTable::new(checkpoint);
    proof {
        assert(table.model() =~= empty_model());
    }
    let mut i: usize = 0;
    while i < identities.len()
        invariant
            table.wf(),
            table.spec_checkpoint() == cp,
            cp == checkpoint@,
            i <= identities@.len(),
            after_identities(cp, identities@.take(i as int)) == Ok::<SnapshotModel, SnapshotError>(
                table.model(),
            ),
        decreases identities@.len() - i,
    {
        proof {
            assert(identities@.take(i + 1).drop_last() =~= identities@.take(i as int));
            assert(identities@.take(i + 1).last() == identities@[i as int]);
        }
        match table.add_identity(identities[i].0.as_slice(), identities[i].1.clone()) {
            Ok(()) => {},
            Err(e) => {
                proof {
                    lemma_scalars_keep_error(after_identities(cp, identities@.take(i + 1)), scalars@);
                    assert(identities@.take(identities@.len() as int) =~= identities@);
                    lemma_identities_keep_error(cp, identities@, i + 1);
                    lemma_scalars_keep_error(after_identities(cp, identities@), scalars@);
                    lemma_weights_keep_error(
                        after_scalars(after_identities(cp, identities@), scalars@),
                        weights@,
                    );
                }
                return Err(e);
            },
        }
        i += 1;
    }
    proof {
        assert(identities@.take(identities@.len() as int) =~= identities@);
        assert(scalars@.take(0) =~= Seq::<(Vec<u8>, ScalarColumn)>::empty());
    }
    let ghost after_ids = after_identities(cp, identities@);
    let mut i: usize = 0;
    while i < scalars.len()
        invariant
            table.wf(),
            table.spec_checkpoint() == cp,
            cp == checkpoint@,
            i <= scalars@.len(),
            after_ids == after_identities(cp, identities@),
            after_scalars(after_ids, scalars@.take(i as int)) == Ok::<
                SnapshotModel,
                SnapshotError,
            >(table.model()),
        decreases scalars@.len() - i,
    {
        proof {
            assert(scalars@.take(i + 1).drop_last() =~= scalars@.take(i as int));
            assert(scalars@.take(i + 1).last() == scalars@[i as int]);
        }
        match table.apply_scalar(scalars[i].0.as_slice(), &scalars[i].1) {
            Ok(()) => {},
            Err(e) => {
                proof {
                    assert(scalars@.take(scalars@.len() as int) =~= scalars@);
                    lemma_scalars_keep_error_from(after_ids, scalars@, i + 1);
                    lemma_weights_keep_error(after_scalars(after_ids, scalars@), weights@);
                }
                return Err(e);
            },
        }
        i += 1;
    }
    proof {
        assert(scalars@.take(scalars@.len() as int) =~= scalars@);
        assert(weights@.take(0) =~= Seq::<(Vec<u8>, Vec<(u16, u16)>)>::empty());
    }
    let ghost after_sc = after_scalars(after_ids, scalars@);
    let mut i: usize = 0;
    while i < weights.len()
        invariant
            table.wf(),
            table.spec_checkpoint() == cp,
            cp == checkpoint@,
            i <= weights@.len(),
            after_ids == after_identities(cp, identities@),
            after_sc == after_scalars(after_ids, scalars@),
            after_weights(after_sc, weights@.take(i as int)) == Ok::<SnapshotModel, SnapshotError>(
                table.model(),
            ),
        decreases weights@.len() - i,
    {
        proof {
            assert(weights@.take(i + 1).drop_last() =~= weights@.take(i as int));
            assert(weights@.take(i + 1).last() == weights@[i as int]);
        }
        let w = copy_weights(&weights[i].1);
        match table.apply_weights(weights[i].0.as_slice(), w) {
            Ok(()) => {},
            Err(e) => {
                proof {
                    assert(weights@.take(weights@.len() as int) =~= weights@);
                    lemma_weights_keep_error_from(after_sc, weights@, i + 1);
                }
                return Err(e);
            },
        }
        i += 1;
    }
    proof {
        assert(weights@.take(weights@.len() as int) =~= weights@);
    }
    Ok(table.into_parts())
}

proof fn lemma_identities_keep_error(cp: Seq<char>, kvs: Seq<(Vec<u8>, String)>, n: int)
    requires
        0 <= n <= kvs.len(),
        after_identities(cp, kvs.take(n)) is Err,
    ensures
        after_identities(cp, kvs) == after_identities(cp, kvs.take(n)),
    decreases kvs.len() - n,
{
    if n < kvs.len() {
        assert(kvs.take(n + 1).drop_last() =~= kvs.take(n));
        lemma_identities_keep_error(cp, kvs, n + 1);
    } else {
        assert(kvs.take(n) =~= kvs);
    }
}

proof fn lemma_scalars_keep_error_from(
    start: Result<SnapshotModel, SnapshotError>,
    kvs: Seq<(Vec<u8>, ScalarColumn)>,
    n: int,
)
    requires
        0 <= n <= kvs.len(),
        after_scalars(start, kvs.take(n)) is Err,
    ensures
        after_scalars(start, kvs) == after_scalars(start, kvs.take(n)),
    decreases kvs.len() - n,
{
    if n < kvs.len() {
        assert(kvs.take(n + 1).drop_last() =~= kvs.take(n));
        lemma_scalars_keep_error_from(start, kvs, n + 1);
    } else {
        assert(kvs.take(n) =~= kvs);
    }
}

proof fn lemma_scalars_keep_error(
    start: Result<SnapshotModel, SnapshotError>,
    kvs: Seq<(Vec<u8>, ScalarColumn)>,
)
    requires
        start is Err,
    ensures
        after_scalars(start, kvs) == start,
    decreases kvs.len(),
{
    if kvs.len() > 0 {
        lemma_scalars_keep_error(start, kvs.drop_last());
    }
}

proof fn lemma_weights_keep_error_from(
    start: Result<SnapshotModel, SnapshotError>,
    kvs: Seq<(Vec<u8>, Vec<(u16, u16)>)>,
    n: int,
)
    requires
        0 <= n <= kvs.len(),
        after_weights(start, kvs.take(n)) is Err,
    ensures
        after_weights(start, kvs) == after_weights(start, kvs.take(n)),
    decreases kvs.len() - n,
{
    if n < kvs.len() {
        assert(kvs.take(n + 1).drop_last() =~= kvs.take(n));
        lemma_weights_keep_error_from(start, kvs, n + 1);
    } else {
        assert(kvs.take(n) =~= kvs);
    }
}

proof fn lemma_weights_keep_error(
    start: Result<SnapshotModel, SnapshotError>,
    kvs: Seq<(Vec<u8>, Vec<(u16, u16)>)>,
)
    requires
        start is Err,
    ensures
        after_weights(start, kvs) == start,
    decreases kvs.len(),
{
    if kvs.len() > 0 {
        lemma_weights_keep_error(start, kvs.drop_last());
    }
}

} // verus!
