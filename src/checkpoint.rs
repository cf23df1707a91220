//! Checkpoint identifiers: 32 bytes, written as hex text with an optional
//! `0x` prefix.
use vstd::prelude::*;
use vstd::string::StringSliceAdditionalSpecFns;

use crate::error::SnapshotError;
use crate::record::{EntityRecord, ScalarColumn};
use crate::snapshot::{merge_snapshot, record_views, snapshot_of, string_views};
use crate::table::lists_entities;

verus! {

/// Length in bytes of a checkpoint identifier.
pub const CHECKPOINT_LEN: usize = 32;

/// An ASCII hex digit of either case.
pub open spec fn is_hex_digit(c: u8) -> bool {
    (0x30 <= c <= 0x39) || (0x61 <= c <= 0x66) || (0x41 <= c <= 0x46)
}

/// The value of an ASCII hex digit.
pub open spec fn hex_value(c: u8) -> int {
    if 0x30 <= c <= 0x39 {
        c - 0x30
    } else if 0x61 <= c <= 0x66 {
        c - 0x61 + 10
    } else {
        c - 0x41 + 10
    }
}

/// Text that decodes as hex: an even number of hex digits.
pub open spec fn is_hex_text(s: Seq<u8>) -> bool {
    s.len() % 2 == 0 && forall|i: int| 0 <= i < s.len() ==> is_hex_digit(#[trigger] s[i])
}

/// The bytes that hex text stands for, two digits each, high digit first.
pub open spec fn hex_bytes(s: Seq<u8>) -> Seq<u8> {
    Seq::new(
        s.len() / 2,
        |i: int| (16 * hex_value(s[2 * i]) + hex_value(s[2 * i + 1])) as u8,
    )
}

/// The lower-case hex digit of a value below 16.
pub open spec fn hex_char(d: int) -> char {
    seq!['0', '1', '2', '3', '4', '5', '6', '7', '8', '9', 'a', 'b', 'c', 'd', 'e', 'f'][d]
}

/// Lower-case hex text of some bytes, two digits each, high digit first.
pub open spec fn hex_text(b: Seq<u8>) -> Seq<char> {
    Seq::new(
        2 * b.len(),
        |i: int|
            if i % 2 == 0 {
                hex_char(b[i / 2] as int / 16)
            } else {
                hex_char(b[i / 2] as int % 16)
            },
    )
}

/// The text with one leading `0x` removed, if it has one.
pub open spec fn without_prefix(s: Seq<u8>) -> Seq<u8> {
    if s.len() >= 2 && s[0] == 0x30 && s[1] == 0x78 {
        s.subrange(2, s.len() as int)
    } else {
        s
    }
}

/// The identifier that checkpoint text stands for, if it is one.
pub open spec fn checkpoint_bytes(text: Seq<u8>) -> Option<Seq<u8>> {
    let digits = without_prefix(text);
    if is_hex_text(digits) && digits.len() == 2 * CHECKPOINT_LEN {
        Some(hex_bytes(digits))
    } else {
        None
    }
}

/// Relies on hex::decode: it succeeds exactly on an even number of hex
/// digits of either case, and turns each pair into one byte, high digit first.
#[verifier::external_body]
fn decode_hex(text: &[u8]) -> (r: Option<Vec<u8>>)
    ensures
        r is Some <==> is_hex_text(text@),
        r is Some ==> r->Some_0@ == hex_bytes(text@),
{
    hex::decode(text).ok()
}

/// Relies on hex::encode: two lower-case hex digits per byte, high digit first.
#[verifier::external_body]
fn encode_hex(bytes: &[u8]) -> (r: String)
    ensures
        r@ == hex_text(bytes@),
{
    hex::encode(bytes)
}

/// Reads a checkpoint identifier from its hex text; an optional `0x`
/// prefix is dropped first.
pub fn parse_checkpoint(text: &str) -> (r: Result<Vec<u8>, SnapshotError>)
    ensures
        match checkpoint_bytes(text.spec_bytes()) {
            Some(b) => r is Ok && r->Ok_0@ == b,
            None => r == Err::<Vec<u8>, SnapshotError>(SnapshotError::InvalidCheckpoint),
        },
{
    let bytes = text.as_bytes();
    let start: usize = if bytes.len() >= 2 && bytes[0] == 0x30 && bytes[1] == 0x78 {
        2
    } else {
        0
    };
    let mut digits: Vec<u8> = Vec::with_capacity(bytes.len() - start);
    let mut i: usize = start;
    while i < bytes.len()
        invariant
            start <= i <= bytes@.len(),
            digits@ == bytes@.subrange(start as int, i as int),
        decreases bytes@.len() - i,
    {
        digits.push(bytes[i]);
        i += 1;
        assert(digits@ =~= bytes@.subrange(start as int, i as int));
    }
    assert(digits@ =~= without_prefix(text.spec_bytes()));
    match decode_hex(digits.as_slice()) {
        Some(b) => {
            if b.len() == CHECKPOINT_LEN {
                Ok(b)
            } else {
                Err(SnapshotError::InvalidCheckpoint)
            }
        },
        None => Err(SnapshotError::InvalidCheckpoint),
    }
}

/// The text that records assembled at a checkpoint carry: its identifier
/// as lower-case hex.
pub fn checkpoint_label(checkpoint: &[u8]) -> (r: String)
    ensures
        r@ == hex_text(checkpoint@),
{
    encode_hex(checkpoint)
}

/// Merges the maps fetched at a checkpoint, stamping each record with the
/// checkpoint's label.
pub fn assemble_snapshot(
    checkpoint: &[u8],
    identities: &Vec<(Vec<u8>, String)>,
    scalars: &Vec<(Vec<u8>, ScalarColumn)>,
    weights: &Vec<(Vec<u8>, Vec<(u16, u16)>)>,
) -> (r: Result<(Vec<EntityRecord>, Vec<String>), SnapshotError>)
    ensures
        match snapshot_of(hex_text(checkpoint@), identities@, scalars@, weights@) {
            Ok(m) => r is Ok && lists_entities(record_views(r->Ok_0.0@), m.entities)
                && string_views(r->Ok_0.1@) == m.identities,
            Err(e) => r == Err::<(Vec<EntityRecord>, Vec<String>), SnapshotError>(e),
        },
{
    merge_snapshot(checkpoint_label(checkpoint), identities, scalars, weights)
}

} // verus!
