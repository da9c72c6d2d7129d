//! The decisions of a read and the assembly of block data, whatever
//! store stands behind them.

use crate::db::StoreError;
use crate::keys::append_bytes;
use vstd::prelude::*;

verus! {

/// The byte strings that a list of buffers holds.
pub open spec fn views_of(chunks: Seq<Vec<u8>>) -> Seq<Seq<u8>> {
    chunks.map_values(|chunk: Vec<u8>| chunk@)
}

/// The scored byte strings that a list of scored buffers holds.
pub open spec fn scored_views_of(scored: Seq<(u64, Vec<u8>)>) -> Seq<(u64, Seq<u8>)> {
    scored.map_values(|pair: (u64, Vec<u8>)| (pair.0, pair.1@))
}

/// A read result with its payload as a sequence of bytes.
pub open spec fn result_view(result: Result<Vec<u8>, StoreError>) -> Result<Seq<u8>, StoreError> {
    match result {
        Ok(bytes) => Ok(bytes@),
        Err(error) => Err(error),
    }
}

/// The version to fetch, given the store's answer to the request for
/// the single highest-ranking member of a key's index: that member
/// where the answer holds exactly one, and none otherwise.
pub open spec fn spec_resolve_latest(latest: Seq<Seq<u8>>) -> Option<Seq<u8>> {
    if latest.len() == 1 {
        Some(latest[0])
    } else {
        None
    }
}

/// Decides what a read does with the store's answer to the request for
/// the latest version of a key. `Some` holds the version identifier
/// whose payload is to be fetched; `None` means that the read returns
/// no bytes.
pub fn resolve_latest(latest: Vec<Vec<u8>>) -> (id: Option<Vec<u8>>)
    ensures
        match id {
            Some(bytes) => spec_resolve_latest(views_of(latest@)) == Some(bytes@),
            None => spec_resolve_latest(views_of(latest@)) is None,
        },
{
    let mut latest = latest;
    if latest.len() == 1 {
        latest.pop()
    } else {
        None
    }
}

/// Turns the content store's answer for a version identifier into the
/// result of the read: a missing payload is a violation, not an empty
/// value.
pub fn payload_from_reply(reply: Option<Vec<u8>>) -> (result: Result<Vec<u8>, StoreError>)
    ensures
        result == match reply {
            Some(bytes) => Ok::<Vec<u8>, StoreError>(bytes),
            None => Err::<Vec<u8>, StoreError>(StoreError::DataIntegrityViolation),
        },
{
    match reply {
        Some(bytes) => Ok(bytes),
        None => Err(StoreError::DataIntegrityViolation),
    }
}

/// Concatenates the chunks of a block in list order.
pub fn flatten_chunks(chunks: &Vec<Vec<u8>>) -> (data: Vec<u8>)
    ensures
        data@ == views_of(chunks@).flatten(),
{
    let mut data: Vec<u8> = Vec::new();
    let mut i: usize = 0;
    assert(views_of(chunks@).take(0) =~= Seq::<Seq<u8>>::empty());
    while i < chunks.len()
        invariant
            i <= chunks.len(),
            data@ == views_of(chunks@).take(i as int).flatten(),
        decreases chunks.len() - i,
    {
        proof {
            let sofar = views_of(chunks@).take(i as int);
            sofar.lemma_flatten_push(chunks@[i as int]@);
            assert(views_of(chunks@).take(i + 1) =~= sofar.push(chunks@[i as int]@));
        }
        append_bytes(&mut data, chunks[i].as_slice());
        i += 1;
    }
    assert(views_of(chunks@).take(chunks.len() as int) =~= views_of(chunks@));
    data
}

} // verus!
