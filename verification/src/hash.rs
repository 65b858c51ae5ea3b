//! Hash maps and hash sets.
//!
//! A hash table hands its entries out in an order of its own. It is written
//! as a sequence of its entries in that order: the count, then the entries.

use crate::bytes::be_bytes;
use crate::encode::{
    failing_index, items_wire, lemma_items_extend, outcome, sequence_failure, sequence_wire,
    Encode,
};
use crate::error::{CollectionEncodeError, ItemEncodeError, UsizeEncodeError};
use crate::o_stream::OStream;
use std::collections::{HashMap, HashSet};
use vstd::prelude::*;
use vstd::std_specs::hash::{
    axiom_spec_hash_keys_iter, axiom_spec_hash_map_iter, axiom_spec_hash_map_len,
    axiom_spec_hash_set_len, builds_valid_hashers, obeys_key_model, spec_hash_keys_iter,
    spec_hash_map_iter,
};
use vstd::std_specs::iter::IteratorSpec;

verus! {

/// Writes a map: the count of its entries, then each key with its value, in
/// the order in which the map hands its entries out.
pub fn encode_hash_map<K, V, S, E>(map: &HashMap<K, V, S>, stream: &mut OStream) -> (r: Result<
    (),
    CollectionEncodeError<UsizeEncodeError, ItemEncodeError<usize, E>>,
>) where K: Encode<Error = E>, V: Encode<Error = E>
    requires
        obeys_key_model::<K>(),
        builds_valid_hashers::<S>(),
        sequence_wire(spec_hash_map_iter(map).remaining()).len() <= old(stream).free(),
    ensures
        final(stream).extends(old(stream), sequence_wire(spec_hash_map_iter(map).remaining())),
        final(final(stream).target())@ == final(old(stream).target())@,
        r == outcome(sequence_failure(spec_hash_map_iter(map).remaining())),
{
    let ghost entries = spec_hash_map_iter(map).remaining();
    proof {
        axiom_spec_hash_map_iter(map);
        axiom_spec_hash_map_len(map);
    }
    match map.len().encode(stream) {
        Err(e) => {
            return Err(CollectionEncodeError::Length(e));
        },
        Ok(()) => {},
    }
    let mut done: usize = 0;
    assert(entries.take(0) =~= Seq::empty());
    for entry in iter: map.iter()
        invariant
            done == iter.index(),
            iter.seq() == entries,
            entries.len() <= u16::MAX,
            failing_index(entries.take(done as int)) is None,
            stream.extends(
                old(stream),
                be_bytes(entries.len(), 2) + items_wire(entries.take(done as int)),
            ),
            final(stream.target())@ == final(old(stream).target())@,
            sequence_wire(entries).len() <= old(stream).free(),
    {
        proof {
            assert(entry == entries[done as int]);
            assert(entries.take(done + 1).drop_last() =~= entries.take(done as int));
            lemma_items_extend(entries, (done + 1) as nat);
        }
        match entry.encode(stream) {
            Err(error) => {
                return Err(CollectionEncodeError::Item(ItemEncodeError { index: done, error }));
            },
            Ok(()) => {},
        }
        done = done + 1;
    }
    assert(entries.take(done as int) =~= entries);
    Ok(())
}

/// Writes a set: the count of its keys, then each key, in the order in which
/// the set hands its keys out.
pub fn encode_hash_set<K: Encode, S>(set: &HashSet<K, S>, stream: &mut OStream) -> (r: Result<
    (),
    CollectionEncodeError<UsizeEncodeError, ItemEncodeError<usize, K::Error>>,
>)
    requires
        obeys_key_model::<K>(),
        builds_valid_hashers::<S>(),
        sequence_wire(spec_hash_keys_iter(set).remaining()).len() <= old(stream).free(),
    ensures
        final(stream).extends(old(stream), sequence_wire(spec_hash_keys_iter(set).remaining())),
        final(final(stream).target())@ == final(old(stream).target())@,
        r == outcome(sequence_failure(spec_hash_keys_iter(set).remaining())),
{
    let ghost keys = spec_hash_keys_iter(set).remaining();
    proof {
        axiom_spec_hash_keys_iter(set);
        axiom_spec_hash_set_len(set);
    }
    match set.len().encode(stream) {
        Err(e) => {
            return Err(CollectionEncodeError::Length(e));
        },
        Ok(()) => {},
    }
    let mut done: usize = 0;
    assert(keys.take(0) =~= Seq::empty());
    for key in iter: set.iter()
        invariant
            done == iter.index(),
            iter.seq() == keys,
            keys.len() <= u16::MAX,
            failing_index(keys.take(done as int)) is None,
            stream.extends(
                old(stream),
                be_bytes(keys.len(), 2) + items_wire(keys.take(done as int)),
            ),
            final(stream.target())@ == final(old(stream).target())@,
            sequence_wire(keys).len() <= old(stream).free(),
    {
        proof {
            assert(key == keys[done as int]);
            assert(keys.take(done + 1).drop_last() =~= keys.take(done as int));
            lemma_items_extend(keys, (done + 1) as nat);
        }
        match key.encode(stream) {
            Err(error) => {
                return Err(CollectionEncodeError::Item(ItemEncodeError { index: done, error }));
            },
            Ok(()) => {},
        }
        done = done + 1;
    }
    assert(keys.take(done as int) =~= keys);
    Ok(())
}

} // verus!
