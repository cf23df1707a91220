//! The per-member record that a snapshot assembles, and the per-group
//! columns that single-index maps attach to it.
use vstd::prelude::*;

verus! {

/// One member of one group at one checkpoint.
#[derive(Debug, Clone, PartialEq, Eq)]
pub struct EntityRecord {
    pub group_id: u16,
    pub member_id: u16,
    pub checkpoint: String,
    pub identity: String,
    pub active: bool,
    pub rank: u16,
    pub emission: u64,
    pub incentive: u16,
    pub consensus: u16,
    pub trust: u16,
    pub validator_trust: u16,
    pub dividends: u16,
    pub weights: Vec<(u16, u16)>,
    pub last_update: u64,
    pub pruning_scores: u16,
}

/// The mathematical value of an `EntityRecord`.
pub struct RecordView {
    pub group_id: u16,
    pub member_id: u16,
    pub checkpoint: Seq<char>,
    pub identity: Seq<char>,
    pub active: bool,
    pub rank: u16,
    pub emission: u64,
    pub incentive: u16,
    pub consensus: u16,
    pub trust: u16,
    pub validator_trust: u16,
    pub dividends: u16,
    pub weights: Seq<(u16, u16)>,
    pub last_update: u64,
    pub pruning_scores: u16,
}

impl View for EntityRecord {
    type V = RecordView;

    open spec fn view(&self) -> RecordView {
        RecordView {
            group_id: self.group_id,
            member_id: self.member_id,
            checkpoint: self.checkpoint@,
            identity: self.identity@,
            active: self.active,
            rank: self.rank,
            emission: self.emission,
            incentive: self.incentive,
            consensus: self.consensus,
            trust: self.trust,
            validator_trust: self.validator_trust,
            dividends: self.dividends,
            weights: self.weights@,
            last_update: self.last_update,
            pruning_scores: self.pruning_scores,
        }
    }
}

/// A freshly created record: identity set, every other field at its default.
pub open spec fn fresh_record(
    group_id: u16,
    member_id: u16,
    checkpoint: Seq<char>,
    identity: Seq<char>,
) -> RecordView {
    RecordView {
        group_id,
        member_id,
        checkpoint,
        identity,
        active: false,
        rank: 0,
        emission: 0,
        incentive: 0,
        consensus: 0,
        trust: 0,
        validator_trust: 0,
        dividends: 0,
        weights: Seq::empty(),
        last_update: 0,
        pruning_scores: 0,
    }
}

impl EntityRecord {
    /// Creates the record of a member found in the identity map.
    pub fn new(group_id: u16, member_id: u16, checkpoint: String, identity: String) -> (r: Self)
        ensures
            r@ == fresh_record(group_id, member_id, checkpoint@, identity@),
    {
        EntityRecord {
            group_id,
            member_id,
            checkpoint,
            identity,
            active: false,
            rank: 0,
            emission: 0,
            incentive: 0,
            consensus: 0,
            trust: 0,
            validator_trust: 0,
            dividends: 0,
            weights: Vec::new(),
            last_update: 0,
            pruning_scores: 0,
        }
    }
}

/// The value of one single-index map for one group: one entry per member,
/// indexed by member position.
#[derive(Debug, Clone, PartialEq, Eq)]
pub enum ScalarColumn {
    Active(Vec<bool>),
    Rank(Vec<u16>),
    Trust(Vec<u16>),
    Emission(Vec<u64>),
    Consensus(Vec<u16>),
    Incentive(Vec<u16>),
    Dividends(Vec<u16>),
    LastUpdate(Vec<u64>),
    PruningScores(Vec<u16>),
    ValidatorTrust(Vec<u16>),
}

impl ScalarColumn {
    /// The number of members the column covers.
    pub open spec fn spec_len(&self) -> nat {
        match self {
            ScalarColumn::Active(v) => v@.len(),
            ScalarColumn::Rank(v) => v@.len(),
            ScalarColumn::Trust(v) => v@.len(),
            ScalarColumn::Emission(v) => v@.len(),
            ScalarColumn::Consensus(v) => v@.len(),
            ScalarColumn::Incentive(v) => v@.len(),
            ScalarColumn::Dividends(v) => v@.len(),
            ScalarColumn::LastUpdate(v) => v@.len(),
            ScalarColumn::PruningScores(v) => v@.len(),
            ScalarColumn::ValidatorTrust(v) => v@.len(),
        }
    }

    /// The record after the column's entry at position `i` is written into
    /// the field the column stands for.
    pub open spec fn applied_to(&self, r: RecordView, i: int) -> RecordView {
        match self {
            ScalarColumn::Active(v) => RecordView { active: v@[i], ..r },
            ScalarColumn::Rank(v) => RecordView { rank: v@[i], ..r },
            ScalarColumn::Trust(v) => RecordView { trust: v@[i], ..r },
            ScalarColumn::Emission(v) => RecordView { emission: v@[i], ..r },
            ScalarColumn::Consensus(v) => RecordView { consensus: v@[i], ..r },
            ScalarColumn::Incentive(v) => RecordView { incentive: v@[i], ..r },
            ScalarColumn::Dividends(v) => RecordView { dividends: v@[i], ..r },
            ScalarColumn::LastUpdate(v) => RecordView { last_update: v@[i], ..r },
            ScalarColumn::PruningScores(v) => RecordView { pruning_scores: v@[i], ..r },
            ScalarColumn::ValidatorTrust(v) => RecordView { validator_trust: v@[i], ..r },
        }
    }

    /// The number of members the column covers.
    pub fn len(&self) -> (r: usize)
        ensures
            r == self.spec_len(),
    {
        match self {
            ScalarColumn::Active(v) => v.len(),
            ScalarColumn::Rank(v) => v.len(),
            ScalarColumn::Trust(v) => v.len(),
            ScalarColumn::Emission(v) => v.len(),
            ScalarColumn::Consensus(v) => v.len(),
            ScalarColumn::Incentive(v) => v.len(),
            ScalarColumn::Dividends(v) => v.len(),
            ScalarColumn::LastUpdate(v) => v.len(),
            ScalarColumn::PruningScores(v) => v.len(),
            ScalarColumn::ValidatorTrust(v) => v.len(),
        }
    }

    /// Writes the column's entry at position `i` into the record.
    pub fn apply_to(&self, r: &mut EntityRecord, i: usize)
        requires
            i < self.spec_len(),
        ensures
            final(r)@ == self.applied_to(old(r)@, i as int),
    {
        match self {
            ScalarColumn::Active(v) => r.active = v[i],
            ScalarColumn::Rank(v) => r.rank = v[i],
            ScalarColumn::Trust(v) => r.trust = v[i],
            ScalarColumn::Emission(v) => r.emission = v[i],
            ScalarColumn::Consensus(v) => r.consensus = v[i],
            ScalarColumn::Incentive(v) => r.incentive = v[i],
            ScalarColumn::Dividends(v) => r.dividends = v[i],
            ScalarColumn::LastUpdate(v) => r.last_update = v[i],
            ScalarColumn::PruningScores(v) => r.pruning_scores = v[i],
            ScalarColumn::ValidatorTrust(v) => r.validator_trust = v[i],
        }
    }
}

} // verus!
