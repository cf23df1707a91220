//! Composite identifiers carried in the trailing bytes of raw storage keys.
use vstd::prelude::*;

use crate::error::SnapshotError;

verus! {

/// The value of two bytes read as a little-endian `u16`.
pub open spec fn u16_le(lo: u8, hi: u8) -> u16 {
    (lo as int + 256 * (hi as int)) as u16
}

/// The group identifier of a single-index key: its last two bytes.
pub open spec fn group_of(key: Seq<u8>) -> u16
    recommends
        key.len() >= 2,
{
    u16_le(key[key.len() - 2], key[key.len() - 1])
}

/// The (group, member) pair of a dual-index key: group in bytes
/// `[len - 4, len - 2)`, member in bytes `[len - 2, len)`.
pub open spec fn pair_of(key: Seq<u8>) -> (u16, u16)
    recommends
        key.len() >= 4,
{
    (u16_le(key[key.len() - 4], key[key.len() - 3]), group_of(key))
}

/// The little-endian bytes of a `u16`.
pub open spec fn u16_le_bytes(x: u16) -> Seq<u8> {
    seq![(x % 256) as u8, (x / 256) as u8]
}

/// The four-byte suffix that a dual-index key ends with.
pub open spec fn pair_suffix(group_id: u16, member_id: u16) -> Seq<u8> {
    u16_le_bytes(group_id) + u16_le_bytes(member_id)
}

fn read_u16_le(lo: u8, hi: u8) -> (r: u16)
    ensures
        r == u16_le(lo, hi),
{
    lo as u16 + (hi as u16) * 256
}

/// Reads the group identifier from the last two bytes of a single-index key.
pub fn decode_group_key(key: &[u8]) -> (r: Result<u16, SnapshotError>)
    ensures
        key@.len() < 2 <==> r == Err::<u16, SnapshotError>(SnapshotError::MalformedKey),
        key@.len() >= 2 ==> r == Ok::<u16, SnapshotError>(group_of(key@)),
{
    let n = key.len();
    if n < 2 {
        return Err(SnapshotError::MalformedKey);
    }
    Ok(read_u16_le(key[n - 2], key[n - 1]))
}

/// Reads the (group, member) pair from the last four bytes of a dual-index key.
pub fn decode_pair_key(key: &[u8]) -> (r: Result<(u16, u16), SnapshotError>)
    ensures
        key@.len() < 4 <==> r == Err::<(u16, u16), SnapshotError>(SnapshotError::MalformedKey),
        key@.len() >= 4 ==> r == Ok::<(u16, u16), SnapshotError>(pair_of(key@)),
{
    let n = key.len();
    if n < 4 {
        return Err(SnapshotError::MalformedKey);
    }
    let group_id = read_u16_le(key[n - 4], key[n - 3]);
    let member_id = read_u16_le(key[n - 2], key[n - 1]);
    Ok((group_id, member_id))
}

/// Appends the four-byte suffix of a dual-index key for the given pair.
pub fn push_pair_suffix(key: &mut Vec<u8>, group_id: u16, member_id: u16)
    ensures
        final(key)@ == old(key)@ + pair_suffix(group_id, member_id),
{
    key.push((group_id % 256) as u8);
    key.push((group_id / 256) as u8);
    key.push((member_id % 256) as u8);
    key.push((member_id / 256) as u8);
    assert(final(key)@ =~= old(key)@ + pair_suffix(group_id, member_id));
}

/// Decoding the suffix written for a pair, after any prefix, gives the pair back.
pub proof fn lemma_pair_key_round_trip(prefix: Seq<u8>, group_id: u16, member_id: u16)
    ensures
        (prefix + pair_suffix(group_id, member_id)).len() >= 4,
        pair_of(prefix + pair_suffix(group_id, member_id)) == (group_id, member_id),
{
    let k = prefix + pair_suffix(group_id, member_id);
    let n = k.len();
    assert(k[n - 4] == (group_id % 256) as u8);
    assert(k[n - 3] == (group_id / 256) as u8);
    assert(k[n - 2] == (member_id % 256) as u8);
    assert(k[n - 1] == (member_id / 256) as u8);
}

} // verus!
